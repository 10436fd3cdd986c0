//! Builds a weighted overlap network between communities from per-author
//! comment activity.
//!
//! The stages run in order: [`filter`] drops excluded authors and quiet
//! communities, [`index`] numbers the surviving communities, [`aggregate`]
//! groups the records by author, and [`overlap`] scores every pair of
//! communities. [`pipeline`] chains them and [`edges`] turns the matrix into
//! an edge list. Scores are fixed-point integers over
//! [`overlap::SCALE`]; [`laws`] proves what holds of every result.

pub mod aggregate;
pub mod edges;
pub mod filter;
pub mod index;
pub mod laws;
pub mod overlap;
pub mod pipeline;
pub mod record;
