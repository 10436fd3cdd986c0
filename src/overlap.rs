use vstd::prelude::*;
use vstd::arithmetic::div_mod::{lemma_fundamental_div_mod, lemma_mod_pos_bound};

verus! {

/// A square accumulator of `u128` values backed by an `ndarray` array.
#[verifier::external_body]
pub struct Grid {
    cells: ndarray::Array2<u128>,
}

/// What a square accumulator grid holds: one value for each in-bounds
/// `(row, column)` pair.
pub uninterp spec fn grid_of(a: Grid) -> Map<(usize, usize), u128>;

/// Relies on `ndarray::Array2::zeros`: an `n x n` array whose every element
/// is zero. It panics only when the element count overflows `isize`, and the
/// buffer it allocates holds 16 bytes per element.
#[verifier::external_body]
fn zero_grid(n: usize) -> (a: Grid)
    requires
        n * n * 16 <= isize::MAX,
    ensures
        forall|i: usize, j: usize|
            #![trigger grid_of(a).contains_key((i, j))]
            grid_of(a).contains_key((i, j)) <==> (i < n && j < n),
        forall|i: usize, j: usize|
            i < n && j < n ==> #[trigger] grid_of(a)[(i, j)] == 0,
{
    Grid { cells: ndarray::Array2::<u128>::zeros((n, n)) }
}


/// Relies on indexing an `ndarray::Array2` by `[[i, j]]`: it reads the element
/// at row `i` and column `j`, and panics only out of bounds.
#[verifier::external_body]
fn grid_get(a: &Grid, i: usize, j: usize) -> (r: u128)
    requires
        grid_of(*a).contains_key((i, j)),
    ensures
        r == grid_of(*a)[(i, j)],
{
    a.cells[[i, j]]
}

/// Relies on `IndexMut` of `ndarray::Array2` by `[[i, j]]`: it replaces the
/// element at row `i` and column `j`, leaves every other one as it was, and
/// panics only out of bounds.
#[verifier::external_body]
fn grid_set(a: &mut Grid, i: usize, j: usize, v: u128)
    requires
        grid_of(*old(a)).contains_key((i, j)),
    ensures
        grid_of(*final(a)) == grid_of(*old(a)).insert((i, j), v),
{
    a.cells[[i, j]] = v;
}

/// Overlap scores are fixed-point numbers: a score `s` stands for `s / SCALE`.
pub const SCALE: u128 = 4294967296;

/// One author's comment counts: pairs of (community id, count).
pub type Profile = Vec<(usize, u64)>;

/// Sum of the counts of the first `n` entries of a profile.
pub open spec fn total_upto(p: Seq<(usize, u64)>, n: int) -> int
    decreases n,
{
    if n <= 0 {
        0
    } else {
        total_upto(p, n - 1) + p[n - 1].1
    }
}

/// Total number of comments an author made across all communities of the profile.
pub open spec fn profile_total(p: Seq<(usize, u64)>) -> int {
    total_upto(p, p.len() as int)
}

/// `a / b` rounded up.
pub open spec fn ceil_div(a: int, b: int) -> int {
    a / b + if a % b != 0 {
        1int
    } else {
        0int
    }
}

/// The fixed-point share `SCALE * (ci * cj) / (ta * tj)`, rounded up at each
/// of its two divisions, so that a positive share never becomes zero; zero
/// where a denominator is zero.
pub open spec fn term(ci: int, cj: int, ta: int, tj: int) -> int {
    if ta <= 0 || tj <= 0 {
        0
    } else {
        ceil_div(ceil_div(ci * SCALE, ta) * cj, tj)
    }
}

/// What the ordered pair of profile entries `(k, l)` adds to `raw[i][j]`.
pub open spec fn pair_term(p: Seq<(usize, u64)>, k: int, l: int, i: int, j: int, totals: Seq<u64>) -> int {
    if p[k].0 == i && p[l].0 == j && i != j {
        term(p[k].1 as int, p[l].1 as int, profile_total(p), totals[j] as int)
    } else {
        0
    }
}

/// Contributions to `raw[i][j]` of the pairs `(k, l)` with `l < n`.
pub open spec fn pair_sum(p: Seq<(usize, u64)>, k: int, n: int, i: int, j: int, totals: Seq<u64>) -> int
    decreases n,
{
    if n <= 0 {
        0
    } else {
        pair_sum(p, k, n - 1, i, j, totals) + pair_term(p, k, n - 1, i, j, totals)
    }
}

/// Contributions to `raw[i][j]` of the pairs `(k, l)` with `k < n`.
pub open spec fn author_sum(p: Seq<(usize, u64)>, n: int, i: int, j: int, totals: Seq<u64>) -> int
    decreases n,
{
    if n <= 0 {
        0
    } else {
        author_sum(p, n - 1, i, j, totals) + pair_sum(p, n - 1, p.len() as int, i, j, totals)
    }
}

/// Contributions to `raw[i][j]` of the first `n` authors.
pub open spec fn raw_upto(ps: Seq<Profile>, n: int, i: int, j: int, totals: Seq<u64>) -> int
    decreases n,
{
    if n <= 0 {
        0
    } else {
        raw_upto(ps, n - 1, i, j, totals) + author_sum(ps[n - 1]@, ps[n - 1]@.len() as int, i, j, totals)
    }
}

/// The directed accumulator `raw[i][j]` over all authors.
pub open spec fn raw_overlap(ps: Seq<Profile>, totals: Seq<u64>, i: int, j: int) -> int {
    raw_upto(ps, ps.len() as int, i, j, totals)
}

/// The symmetric overlap score: the smaller of the two directions.
pub open spec fn overlap_score(ps: Seq<Profile>, totals: Seq<u64>, i: int, j: int) -> int {
    let a = raw_overlap(ps, totals, i, j);
    let b = raw_overlap(ps, totals, j, i);
    if a <= b {
        a
    } else {
        b
    }
}

/// A profile names each community at most once, only communities that have a
/// total, and never more comments in one than that community's total.
pub open spec fn profile_fits(p: Seq<(usize, u64)>, totals: Seq<u64>) -> bool {
    &&& forall|k: int|
        0 <= k < p.len() ==> (#[trigger] p[k]).0 < totals.len() && p[k].1 <= totals[p[k].0 as int]
    &&& forall|k: int, l: int| 0 <= k < l < p.len() ==> (#[trigger] p[k]).0 != (#[trigger] p[l]).0
}

/// Every profile fits the community totals.
pub open spec fn profiles_fit(ps: Seq<Profile>, totals: Seq<u64>) -> bool {
    forall|a: int| 0 <= a < ps.len() ==> profile_fits(#[trigger] ps[a]@, totals)
}

pub(crate) proof fn lemma_total_bounds(p: Seq<(usize, u64)>, n: int)
    requires
        0 <= n <= p.len(),
    ensures
        0 <= total_upto(p, n) <= n * (u64::MAX as int),
        forall|k: int| 0 <= k < n ==> (#[trigger] p[k]).1 <= total_upto(p, n),
    decreases n,
{
    if n > 0 {
        lemma_total_bounds(p, n - 1);
    }
}

proof fn lemma_ceil_div(a: int, b: int)
    requires
        a >= 0,
        b > 0,
    ensures
        ceil_div(a, b) * b >= a,
        ceil_div(a, b) * b < a + b,
        ceil_div(a, b) >= 0,
        ceil_div(a, b) == 0 <==> a == 0,
        a / b <= a,
{
    lemma_fundamental_div_mod(a, b);
    lemma_mod_pos_bound(a, b);
    let q = a / b;
    let r = a % b;
    assert(q >= 0) by (nonlinear_arith)
        requires a == b * q + r, 0 <= r < b, a >= 0, b > 0;
    assert(q <= a) by (nonlinear_arith)
        requires a == b * q + r, 0 <= r, b >= 1, q >= 0;
    let c = ceil_div(a, b);
    if r == 0 {
        assert(c * b == a) by (nonlinear_arith)
            requires c == q, a == b * q + r, r == 0;
    } else {
        assert(c * b == a - r + b) by (nonlinear_arith)
            requires c == q + 1, a == b * q + r;
    }
}

/// Bounds, sign and rounding error of one contribution: it never exceeds
/// `SCALE`, it is positive exactly when both counts are, and it lies within
/// two units of the exact `SCALE * ci * cj / (ta * tj)`, never below it.
pub proof fn lemma_term_props(ci: int, cj: int, ta: int, tj: int)
    requires
        0 <= ci <= ta,
        0 <= cj <= tj,
    ensures
        0 <= term(ci, cj, ta, tj) <= SCALE,
        term(ci, cj, ta, tj) > 0 <==> (ci > 0 && cj > 0),
        ta > 0 && tj > 0 ==> SCALE * ci * cj <= term(ci, cj, ta, tj) * ta * tj,
        ta > 0 && tj > 0 ==> term(ci, cj, ta, tj) * ta * tj < SCALE * ci * cj + 2 * ta * tj,
{
    if ta > 0 && tj > 0 {
        let s = SCALE as int;
        assert(ci * s >= 0) by (nonlinear_arith)
            requires ci >= 0, s > 0;
        lemma_ceil_div(ci * s, ta);
        let x = ceil_div(ci * s, ta);
        assert(x <= s) by (nonlinear_arith)
            requires x * ta < ci * s + ta, ci <= ta, ta > 0, s > 0, ci >= 0;
        assert(ci * s == 0 <==> ci == 0) by (nonlinear_arith)
            requires s > 0;
        assert(x * cj >= 0) by (nonlinear_arith)
            requires x >= 0, cj >= 0;
        lemma_ceil_div(x * cj, tj);
        let y = ceil_div(x * cj, tj);
        assert(y <= x) by (nonlinear_arith)
            requires y * tj < x * cj + tj, cj <= tj, tj > 0, x >= 0, cj >= 0;
        assert(x * cj == 0 <==> (x == 0 || cj == 0)) by (nonlinear_arith);
        assert(s * ci * cj <= y * ta * tj) by (nonlinear_arith)
            requires y * tj >= x * cj, x * ta >= ci * s, ta > 0, cj >= 0;
        assert(y * ta * tj < s * ci * cj + 2 * ta * tj) by (nonlinear_arith)
            requires y * tj < x * cj + tj, x * ta < ci * s + ta, ta > 0, cj >= 0, cj <= tj;
    }
}

proof fn lemma_pair_term_bound(p: Seq<(usize, u64)>, k: int, l: int, i: int, j: int, totals: Seq<u64>)
    requires
        profile_fits(p, totals),
        0 <= k < p.len(),
        0 <= l < p.len(),
    ensures
        0 <= pair_term(p, k, l, i, j, totals) <= SCALE,
{
    lemma_total_bounds(p, p.len() as int);
    assert(p[k].1 <= total_upto(p, p.len() as int));
    assert(p[l].0 < totals.len());
    lemma_term_props(p[k].1 as int, p[l].1 as int, profile_total(p), totals[p[l].0 as int] as int);
}

proof fn lemma_pair_sum(p: Seq<(usize, u64)>, k: int, n: int, i: int, j: int, totals: Seq<u64>)
    requires
        profile_fits(p, totals),
        0 <= k < p.len(),
        0 <= n <= p.len(),
    ensures
        0 <= pair_sum(p, k, n, i, j, totals) <= SCALE,
        (forall|l: int| 0 <= l < n ==> (#[trigger] p[l]).0 != j) ==> pair_sum(p, k, n, i, j, totals) == 0,
        forall|m: int| 0 <= m <= n ==> #[trigger] pair_sum(p, k, m, i, j, totals) <= pair_sum(p, k, n, i, j, totals),
    decreases n,
{
    if n > 0 {
        lemma_pair_sum(p, k, n - 1, i, j, totals);
        lemma_pair_term_bound(p, k, n - 1, i, j, totals);
        if p[n - 1].0 == j {
            assert forall|l: int| 0 <= l < n - 1 implies (#[trigger] p[l]).0 != j by {
                assert(p[l].0 != p[n - 1].0);
            }
        }
    }
}

proof fn lemma_author_sum(p: Seq<(usize, u64)>, n: int, i: int, j: int, totals: Seq<u64>)
    requires
        profile_fits(p, totals),
        0 <= n <= p.len(),
    ensures
        0 <= author_sum(p, n, i, j, totals) <= SCALE,
        (forall|k: int| 0 <= k < n ==> (#[trigger] p[k]).0 != i) ==> author_sum(p, n, i, j, totals) == 0,
        forall|m: int| 0 <= m <= n ==> #[trigger] author_sum(p, m, i, j, totals) <= author_sum(p, n, i, j, totals),
    decreases n,
{
    if n > 0 {
        let len = p.len() as int;
        lemma_author_sum(p, n - 1, i, j, totals);
        lemma_pair_sum(p, n - 1, len, i, j, totals);
        if p[n - 1].0 == i {
            assert forall|k: int| 0 <= k < n - 1 implies (#[trigger] p[k]).0 != i by {
                assert(p[k].0 != p[n - 1].0);
            }
        } else {
            assert forall|l: int| 0 <= l < len implies #[trigger] pair_term(p, n - 1, l, i, j, totals) == 0 by {}
            lemma_pair_sum_zero(p, n - 1, len, i, j, totals);
        }
    }
}

proof fn lemma_pair_sum_zero(p: Seq<(usize, u64)>, k: int, n: int, i: int, j: int, totals: Seq<u64>)
    requires
        0 <= n <= p.len(),
        forall|l: int| 0 <= l < n ==> #[trigger] pair_term(p, k, l, i, j, totals) == 0,
    ensures
        pair_sum(p, k, n, i, j, totals) == 0,
    decreases n,
{
    if n > 0 {
        lemma_pair_sum_zero(p, k, n - 1, i, j, totals);
    }
}

/// Whether some author commented, with a positive count, in both communities
/// `i` and `j`.
pub open spec fn shares_author(ps: Seq<Profile>, i: int, j: int) -> bool {
    exists|a: int, k: int, l: int|
        0 <= a < ps.len() && 0 <= k < ps[a]@.len() && 0 <= l < ps[a]@.len() && (#[trigger] ps[a]@[k]).0 == i
            && (#[trigger] ps[a]@[l]).0 == j && ps[a]@[k].1 > 0 && ps[a]@[l].1 > 0
}

proof fn lemma_pair_term_pos(p: Seq<(usize, u64)>, k: int, l: int, i: int, j: int, totals: Seq<u64>)
    requires
        profile_fits(p, totals),
        0 <= k < p.len(),
        0 <= l < p.len(),
    ensures
        pair_term(p, k, l, i, j, totals) > 0 <==> (p[k].0 == i && p[l].0 == j && i != j && p[k].1 > 0 && p[l].1 > 0),
{
    lemma_total_bounds(p, p.len() as int);
    assert(p[k].1 <= total_upto(p, p.len() as int));
    assert(p[l].0 < totals.len());
    lemma_term_props(p[k].1 as int, p[l].1 as int, profile_total(p), totals[p[l].0 as int] as int);
}

proof fn lemma_pair_sum_pos(p: Seq<(usize, u64)>, k: int, n: int, i: int, j: int, totals: Seq<u64>)
    requires
        profile_fits(p, totals),
        0 <= k < p.len(),
        0 <= n <= p.len(),
    ensures
        pair_sum(p, k, n, i, j, totals) > 0 <==> exists|l: int| 0 <= l < n && #[trigger] pair_term(p, k, l, i, j, totals) > 0,
    decreases n,
{
    if n > 0 {
        lemma_pair_sum_pos(p, k, n - 1, i, j, totals);
        lemma_pair_sum(p, k, n - 1, i, j, totals);
        lemma_pair_term_bound(p, k, n - 1, i, j, totals);
        if exists|l: int| 0 <= l < n && #[trigger] pair_term(p, k, l, i, j, totals) > 0 {
            let l = choose|l: int| 0 <= l < n && #[trigger] pair_term(p, k, l, i, j, totals) > 0;
            if l < n - 1 {
                assert(exists|l2: int| 0 <= l2 < n - 1 && #[trigger] pair_term(p, k, l2, i, j, totals) > 0);
            }
        }
    }
}

proof fn lemma_author_sum_pos(p: Seq<(usize, u64)>, n: int, i: int, j: int, totals: Seq<u64>)
    requires
        profile_fits(p, totals),
        0 <= n <= p.len(),
    ensures
        author_sum(p, n, i, j, totals) > 0 <==> exists|k: int, l: int|
            0 <= k < n && 0 <= l < p.len() && #[trigger] pair_term(p, k, l, i, j, totals) > 0,
    decreases n,
{
    if n > 0 {
        let len = p.len() as int;
        lemma_author_sum_pos(p, n - 1, i, j, totals);
        lemma_author_sum(p, n - 1, i, j, totals);
        lemma_pair_sum(p, n - 1, len, i, j, totals);
        lemma_pair_sum_pos(p, n - 1, len, i, j, totals);
        if exists|k: int, l: int| 0 <= k < n && 0 <= l < len && #[trigger] pair_term(p, k, l, i, j, totals) > 0 {
            let (k, l) = choose|k: int, l: int| 0 <= k < n && 0 <= l < len && #[trigger] pair_term(p, k, l, i, j, totals) > 0;
            if k < n - 1 {
                assert(exists|k2: int, l2: int| 0 <= k2 < n - 1 && 0 <= l2 < len && #[trigger] pair_term(p, k2, l2, i, j, totals) > 0);
            } else {
                assert(exists|l2: int| 0 <= l2 < len && #[trigger] pair_term(p, n - 1, l2, i, j, totals) > 0);
            }
        }
        if pair_sum(p, n - 1, len, i, j, totals) > 0 {
            let l = choose|l: int| 0 <= l < len && #[trigger] pair_term(p, n - 1, l, i, j, totals) > 0;
            assert(0 <= n - 1 < n && 0 <= l < len && pair_term(p, n - 1, l, i, j, totals) > 0);
        }
    }
}

proof fn lemma_raw_pos(ps: Seq<Profile>, n: int, i: int, j: int, totals: Seq<u64>)
    requires
        profiles_fit(ps, totals),
        0 <= n <= ps.len(),
        i != j,
    ensures
        raw_upto(ps, n, i, j, totals) > 0 <==> exists|a: int, k: int, l: int|
            0 <= a < n && 0 <= k < ps[a]@.len() && 0 <= l < ps[a]@.len() && (#[trigger] ps[a]@[k]).0 == i
                && (#[trigger] ps[a]@[l]).0 == j && ps[a]@[k].1 > 0 && ps[a]@[l].1 > 0,
    decreases n,
{
    if n > 0 {
        let p = ps[n - 1]@;
        assert(profile_fits(p, totals));
        lemma_raw_pos(ps, n - 1, i, j, totals);
        lemma_raw_bound(ps, n - 1, i, j, totals);
        lemma_author_sum(p, p.len() as int, i, j, totals);
        lemma_author_sum_pos(p, p.len() as int, i, j, totals);
        if exists|a: int, k: int, l: int|
            0 <= a < n && 0 <= k < ps[a]@.len() && 0 <= l < ps[a]@.len() && (#[trigger] ps[a]@[k]).0 == i
                && (#[trigger] ps[a]@[l]).0 == j && ps[a]@[k].1 > 0 && ps[a]@[l].1 > 0 {
            let (a, k, l) = choose|a: int, k: int, l: int|
                0 <= a < n && 0 <= k < ps[a]@.len() && 0 <= l < ps[a]@.len() && (#[trigger] ps[a]@[k]).0 == i
                    && (#[trigger] ps[a]@[l]).0 == j && ps[a]@[k].1 > 0 && ps[a]@[l].1 > 0;
            if a == n - 1 {
                lemma_pair_term_pos(p, k, l, i, j, totals);
                assert(pair_term(p, k, l, i, j, totals) > 0);
            } else {
                assert(ps[a]@[k].0 == i && ps[a]@[l].0 == j);
            }
        }
        if author_sum(p, p.len() as int, i, j, totals) > 0 {
            let (k, l) = choose|k: int, l: int| 0 <= k < p.len() && 0 <= l < p.len() && #[trigger] pair_term(p, k, l, i, j, totals) > 0;
            lemma_pair_term_pos(p, k, l, i, j, totals);
            assert(ps[n - 1]@[k].0 == i && ps[n - 1]@[l].0 == j);
        }
    }
}

/// For distinct communities, the overlap score is positive exactly when some
/// author commented, with positive counts, in both.
pub proof fn lemma_overlap_positive(ps: Seq<Profile>, totals: Seq<u64>, i: int, j: int)
    requires
        profiles_fit(ps, totals),
        i != j,
    ensures
        overlap_score(ps, totals, i, j) > 0 <==> shares_author(ps, i, j),
{
    let n = ps.len() as int;
    lemma_raw_pos(ps, n, i, j, totals);
    lemma_raw_pos(ps, n, j, i, totals);
    lemma_raw_bound(ps, n, i, j, totals);
    lemma_raw_bound(ps, n, j, i, totals);
    if shares_author(ps, i, j) {
        let (a, k, l) = choose|a: int, k: int, l: int|
            0 <= a < ps.len() && 0 <= k < ps[a]@.len() && 0 <= l < ps[a]@.len() && (#[trigger] ps[a]@[k]).0 == i
                && (#[trigger] ps[a]@[l]).0 == j && ps[a]@[k].1 > 0 && ps[a]@[l].1 > 0;
        assert(ps[a]@[l].0 == j && ps[a]@[k].0 == i);
    }
}

/// Every raw accumulator entry lies between zero and `n * SCALE` after `n` authors.
pub proof fn lemma_raw_bound(ps: Seq<Profile>, n: int, i: int, j: int, totals: Seq<u64>)
    requires
        profiles_fit(ps, totals),
        0 <= n <= ps.len(),
    ensures
        0 <= raw_upto(ps, n, i, j, totals) <= n * SCALE,
    decreases n,
{
    if n > 0 {
        lemma_raw_bound(ps, n - 1, i, j, totals);
        assert(profile_fits(ps[n - 1]@, totals));
        lemma_author_sum(ps[n - 1]@, ps[n - 1]@.len() as int, i, j, totals);
    }
}


fn ceil_div_u128(a: u128, b: u128) -> (r: u128)
    requires
        b > 0,
        a < u128::MAX,
    ensures
        r == ceil_div(a as int, b as int),
{
    proof {
        lemma_ceil_div(a as int, b as int);
    }
    if a % b != 0 {
        a / b + 1
    } else {
        a / b
    }
}

/// Adds one author's contributions to every entry of the accumulator.
fn accumulate_author(grid: &mut Grid, p: &Profile, totals: &Vec<u64>)
    requires
        profile_fits(p@, totals@),
        forall|i: usize, j: usize|
            #![trigger grid_of(*old(grid)).contains_key((i, j))]
            grid_of(*old(grid)).contains_key((i, j)) <==> (i < totals.len() && j < totals.len()),
        forall|i: usize, j: usize|
            i < totals.len() && j < totals.len() ==> #[trigger] grid_of(*old(grid))[(i, j)] + SCALE
                <= u128::MAX,
    ensures
        forall|i: usize, j: usize|
            #![trigger grid_of(*final(grid)).contains_key((i, j))]
            grid_of(*final(grid)).contains_key((i, j)) <==> (i < totals.len() && j < totals.len()),
        forall|i: usize, j: usize|
            i < totals.len() && j < totals.len() ==> #[trigger] grid_of(*final(grid))[(i, j)]
                == grid_of(*old(grid))[(i, j)] + author_sum(p@, p@.len() as int, i as int, j as int, totals@),
{
    let ghost g0 = grid_of(*grid);
    let n = totals.len();
    let len = p.len();
    let mut ta: u128 = 0;
    let mut k: usize = 0;
    while k < len
        invariant
            k <= len,
            len == p@.len(),
            ta == total_upto(p@, k as int),
        decreases len - k,
    {
        proof {
            lemma_total_bounds(p@, k as int + 1);
            assert((k as int + 1) * (u64::MAX as int) <= (usize::MAX as int) * (u64::MAX as int))
                by (nonlinear_arith)
                requires k < usize::MAX;
        }
        ta = ta + p[k].1 as u128;
        k = k + 1;
    }
    let mut k: usize = 0;
    while k < len
        invariant
            k <= len,
            len == p@.len(),
            n == totals.len(),
            ta == profile_total(p@),
            profile_fits(p@, totals@),
            forall|i: usize, j: usize|
                #![trigger grid_of(*grid).contains_key((i, j))]
                grid_of(*grid).contains_key((i, j)) <==> (i < n && j < n),
            forall|i: usize, j: usize|
                i < n && j < n ==> #[trigger] g0[(i, j)] + SCALE <= u128::MAX,
            forall|i: usize, j: usize|
                i < n && j < n ==> #[trigger] grid_of(*grid)[(i, j)] == g0[(i, j)] + author_sum(
                    p@,
                    k as int,
                    i as int,
                    j as int,
                    totals@,
                ),
        decreases len - k,
    {
        let sub1 = p[k].0;
        let c1 = p[k].1;
        let mut l: usize = 0;
        while l < len
            invariant
                k < len,
                l <= len,
                len == p@.len(),
                n == totals.len(),
                ta == profile_total(p@),
                profile_fits(p@, totals@),
                sub1 == p@[k as int].0,
                c1 == p@[k as int].1,
                forall|i: usize, j: usize|
                    #![trigger grid_of(*grid).contains_key((i, j))]
                    grid_of(*grid).contains_key((i, j)) <==> (i < n && j < n),
                forall|i: usize, j: usize|
                    i < n && j < n ==> #[trigger] g0[(i, j)] + SCALE <= u128::MAX,
                forall|i: usize, j: usize|
                    i < n && j < n ==> #[trigger] grid_of(*grid)[(i, j)] == g0[(i, j)] + author_sum(
                        p@,
                        k as int,
                        i as int,
                        j as int,
                        totals@,
                    ) + pair_sum(p@, k as int, l as int, i as int, j as int, totals@),
            decreases len - l,
        {
            let sub2 = p[l].0;
            let c2 = p[l].1;
            proof {
                assert(p@[k as int].0 < n);
                assert(p@[l as int].0 < n && c2 <= totals@[sub2 as int]);
            }
            if sub1 != sub2 {
                let tj = totals[sub2];
                let ghost t_spec = pair_term(p@, k as int, l as int, sub1 as int, sub2 as int, totals@);
                proof {
                    lemma_pair_term_bound(p@, k as int, l as int, sub1 as int, sub2 as int, totals@);
                    lemma_total_bounds(p@, len as int);
                    assert(c1 <= ta);
                }
                let t: u128 = if ta == 0 || tj == 0 {
                    0
                } else {
                    proof {
                        assert(c1 as int * SCALE <= (u64::MAX as int) * SCALE) by (nonlinear_arith)
                            requires c1 <= u64::MAX, c1 >= 0;
                    }
                    let x = ceil_div_u128(c1 as u128 * SCALE, ta);
                    proof {
                        lemma_ceil_div(c1 as int * SCALE, ta as int);
                        assert(x <= SCALE) by (nonlinear_arith)
                            requires x * ta < c1 * SCALE + ta, c1 <= ta, ta > 0, c1 >= 0;
                        assert(x as int * c2 as int <= (SCALE as int) * (u64::MAX as int)) by (nonlinear_arith)
                            requires x <= SCALE, c2 <= u64::MAX, x >= 0, c2 >= 0;
                    }
                    ceil_div_u128(x * c2 as u128, tj as u128)
                };
                assert(t == t_spec);
                let cur = grid_get(grid, sub1, sub2);
                proof {
                    let si = sub1 as int;
                    let sj = sub2 as int;
                    lemma_author_sum(p@, len as int, si, sj, totals@);
                    lemma_author_sum(p@, k as int + 1, si, sj, totals@);
                    lemma_pair_sum(p@, k as int, len as int, si, sj, totals@);
                    assert(author_sum(p@, k as int + 1, si, sj, totals@) == author_sum(p@, k as int, si, sj, totals@)
                        + pair_sum(p@, k as int, len as int, si, sj, totals@));
                    assert(pair_sum(p@, k as int, l as int + 1, si, sj, totals@) <= pair_sum(p@, k as int, len as int, si, sj, totals@));
                    assert(author_sum(p@, k as int + 1, si, sj, totals@) <= author_sum(p@, len as int, si, sj, totals@));
                }
                grid_set(grid, sub1, sub2, cur + t);
            }
            proof {
                assert forall|i: usize, j: usize|
                    i < n && j < n implies #[trigger] grid_of(*grid)[(i, j)] == g0[(i, j)] + author_sum(
                        p@,
                        k as int,
                        i as int,
                        j as int,
                        totals@,
                    ) + pair_sum(p@, k as int, l as int + 1, i as int, j as int, totals@) by {
                    if !(i == sub1 && j == sub2) {
                        assert(pair_term(p@, k as int, l as int, i as int, j as int, totals@) == 0);
                    }
                }
            }
            l = l + 1;
        }
        proof {
            assert forall|i: usize, j: usize|
                i < n && j < n implies #[trigger] grid_of(*grid)[(i, j)] == g0[(i, j)] + author_sum(
                    p@,
                    k as int + 1,
                    i as int,
                    j as int,
                    totals@,
                ) by {}
        }
        k = k + 1;
    }
}

/// Computes the symmetric overlap matrix of a set of author profiles.
///
/// Entry `[i][j]` is the smaller of the two directed accumulators, each the
/// sum over authors of `(c_i * c_j) / (author_total * community_total[j])`
/// for every ordered pair of distinct communities of the author's profile,
/// in fixed point (see [`SCALE`]).
pub fn compute_overlaps_arr(author_vec: &Vec<Profile>, sub_total_comments: &Vec<u64>) -> (r: Vec<Vec<u128>>)
    requires
        profiles_fit(author_vec@, sub_total_comments@),
        sub_total_comments.len() * sub_total_comments.len() * 16 <= isize::MAX,
    ensures
        r.len() == sub_total_comments.len(),
        forall|i: int| 0 <= i < r.len() ==> (#[trigger] r[i]).len() == sub_total_comments.len(),
        forall|i: int, j: int|
            0 <= i < r.len() && 0 <= j < r.len() ==> #[trigger] r[i][j] == overlap_score(
                author_vec@,
                sub_total_comments@,
                i,
                j,
            ),
        forall|i: int, j: int|
            0 <= i < r.len() && 0 <= j < r.len() && i != j ==> (#[trigger] r[i][j] > 0 <==> shares_author(
                author_vec@,
                i,
                j,
            )),
{
    let nr_subs = sub_total_comments.len();
    let mut overlaps = zero_grid(nr_subs);
    let mut a: usize = 0;
    while a < author_vec.len()
        invariant
            a <= author_vec.len(),
            nr_subs == sub_total_comments.len(),
            profiles_fit(author_vec@, sub_total_comments@),
            forall|i: usize, j: usize|
                #![trigger grid_of(overlaps).contains_key((i, j))]
                grid_of(overlaps).contains_key((i, j)) <==> (i < nr_subs && j < nr_subs),
            forall|i: usize, j: usize|
                i < nr_subs && j < nr_subs ==> #[trigger] grid_of(overlaps)[(i, j)] == raw_upto(
                    author_vec@,
                    a as int,
                    i as int,
                    j as int,
                    sub_total_comments@,
                ),
        decreases author_vec.len() - a,
    {
        proof {
            assert forall|i: usize, j: usize|
                i < nr_subs && j < nr_subs implies #[trigger] grid_of(overlaps)[(i, j)] + SCALE
                    <= u128::MAX by {
                lemma_raw_bound(author_vec@, a as int, i as int, j as int, sub_total_comments@);
                assert((a as int) * SCALE <= (usize::MAX as int) * SCALE) by (nonlinear_arith)
                    requires a <= usize::MAX;
            }
            assert(profile_fits(author_vec@[a as int]@, sub_total_comments@));
        }
        accumulate_author(&mut overlaps, &author_vec[a], sub_total_comments);
        a = a + 1;
    }
    let mut overlaps_vec: Vec<Vec<u128>> = Vec::new();
    let mut i: usize = 0;
    while i < nr_subs
        invariant
            i <= nr_subs,
            nr_subs == sub_total_comments.len(),
            a == author_vec.len(),
            overlaps_vec.len() == i,
            forall|i: usize, j: usize|
                #![trigger grid_of(overlaps).contains_key((i, j))]
                grid_of(overlaps).contains_key((i, j)) <==> (i < nr_subs && j < nr_subs),
            forall|i: usize, j: usize|
                i < nr_subs && j < nr_subs ==> #[trigger] grid_of(overlaps)[(i, j)] == raw_upto(
                    author_vec@,
                    a as int,
                    i as int,
                    j as int,
                    sub_total_comments@,
                ),
            forall|ii: int| 0 <= ii < i ==> (#[trigger] overlaps_vec[ii]).len() == nr_subs,
            forall|ii: int, j: int|
                0 <= ii < i && 0 <= j < nr_subs ==> #[trigger] overlaps_vec[ii][j] == overlap_score(
                    author_vec@,
                    sub_total_comments@,
                    ii,
                    j,
                ),
        decreases nr_subs - i,
    {
        let mut row: Vec<u128> = Vec::new();
        let mut j: usize = 0;
        while j < nr_subs
            invariant
                i < nr_subs,
                j <= nr_subs,
                nr_subs == sub_total_comments.len(),
                a == author_vec.len(),
                row.len() == j,
                forall|i: usize, j: usize|
                    #![trigger grid_of(overlaps).contains_key((i, j))]
                    grid_of(overlaps).contains_key((i, j)) <==> (i < nr_subs && j < nr_subs),
                forall|i: usize, j: usize|
                    i < nr_subs && j < nr_subs ==> #[trigger] grid_of(overlaps)[(i, j)] == raw_upto(
                        author_vec@,
                        a as int,
                        i as int,
                        j as int,
                        sub_total_comments@,
                    ),
                forall|jj: int|
                    0 <= jj < j ==> #[trigger] row[jj] == overlap_score(
                        author_vec@,
                        sub_total_comments@,
                        i as int,
                        jj,
                    ),
            decreases nr_subs - j,
        {
            let forward = grid_get(&overlaps, i, j);
            let backward = grid_get(&overlaps, j, i);
            row.push(if backward < forward { backward } else { forward });
            j = j + 1;
        }
        overlaps_vec.push(row);
        i = i + 1;
    }
    proof {
        assert forall|i: int, j: int|
            0 <= i < overlaps_vec.len() && 0 <= j < overlaps_vec.len() && i != j implies (#[trigger] overlaps_vec[i][j] > 0
                <==> shares_author(author_vec@, i, j)) by {
            lemma_overlap_positive(author_vec@, sub_total_comments@, i, j);
        }
    }
    overlaps_vec
}

} // verus!
