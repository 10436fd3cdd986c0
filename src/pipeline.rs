use vstd::prelude::*;
use crate::aggregate::{aggregates, id_span, lemma_span, make_author_vec};
use crate::edges::{edges_of, is_edge_list_of, is_square};
use crate::filter::{filter_records, filtered, lemma_filtered_len};
use crate::index::{CommunityIndex, assign_sub_ids, distinct_in_order, views_of};
use crate::overlap::{Profile, compute_overlaps_arr, overlap_score};
use crate::record::{DataRecord, communities_of};

verus! {

/// Why a network could not be built.
#[derive(Debug, Clone, Copy, PartialEq, Eq, Structural)]
pub enum NetworkError {
    /// The `N x N` score matrix would not fit in the address space.
    TooManyCommunities,
}

/// Whether an `n x n` matrix of 16-byte scores fits in the address space.
pub open spec fn fits_in_memory(n: int) -> bool {
    n * n * 16 <= isize::MAX
}

/// The authors of a sequence of records, in order.
pub open spec fn authors_of(rs: Seq<DataRecord>) -> Seq<Seq<char>> {
    rs.map_values(|r: DataRecord| r.author@)
}

/// The counts of a sequence of records, in order.
pub open spec fn counts_of(rs: Seq<DataRecord>) -> Seq<u32> {
    rs.map_values(|r: DataRecord| r.count)
}

/// Whether `subs` gives, for each record, the id that `names` gives its community.
pub open spec fn resolves(rs: Seq<DataRecord>, names: Seq<Seq<char>>, subs: Seq<usize>) -> bool {
    &&& subs.len() == rs.len()
    &&& forall|k: int| 0 <= k < rs.len() ==> (#[trigger] subs[k]) < names.len() && names[subs[k] as int] == rs[k].subreddit@
}

/// Whether `m` is the overlap matrix of some aggregate of the given records
/// over `n` community ids.
pub open spec fn is_overlap_of(m: Seq<Vec<u128>>, authors: Seq<Seq<char>>, subs: Seq<usize>, counts: Seq<u32>, n: int) -> bool {
    &&& is_square(m, n)
    &&& exists|ps: Seq<Profile>, totals: Seq<u64>|
        #![trigger aggregates(ps, totals, authors, subs, counts, n)]
        aggregates(ps, totals, authors, subs, counts, n) && forall|i: int, j: int|
            0 <= i < n && 0 <= j < n ==> #[trigger] m[i]@[j] == overlap_score(ps, totals, i, j)
}

fn fits(n: usize) -> (r: bool)
    ensures
        r == fits_in_memory(n as int),
{
    let w = n as u128;
    if w > 4294967296 {
        assert(w * w * 16 > isize::MAX) by (nonlinear_arith)
            requires w > 4294967296;
        false
    } else {
        assert(w * w * 16 <= 16 * 4294967296 * 4294967296) by (nonlinear_arith)
            requires w <= 4294967296;
        w * w * 16 <= isize::MAX as u128
    }
}

/// Computes the overlap matrix from records given as three parallel columns:
/// authors, community ids and counts. The matrix has one row and one column
/// for every id up to the largest one that occurs.
pub fn overlaps_from_columns(authors: &Vec<String>, subreddits: &Vec<usize>, counts: &Vec<u32>) -> (r: Result<Vec<Vec<u128>>, NetworkError>)
    requires
        authors.len() == subreddits.len(),
        subreddits.len() == counts.len(),
        counts.len() <= u32::MAX,
        forall|k: int| 0 <= k < subreddits.len() ==> #[trigger] subreddits@[k] < usize::MAX,
    ensures
        match r {
            Ok(m) => is_overlap_of(m@, views_of(authors@), subreddits@, counts@, id_span(subreddits@, counts.len() as int)),
            Err(e) => e == NetworkError::TooManyCommunities && !fits_in_memory(id_span(subreddits@, counts.len() as int)),
        },
{
    let n = subreddits.len();
    let mut nr_subs: usize = 0;
    let mut k: usize = 0;
    while k < n
        invariant
            k <= n,
            n == subreddits.len(),
            forall|k: int| 0 <= k < subreddits.len() ==> #[trigger] subreddits@[k] < usize::MAX,
            nr_subs == id_span(subreddits@, k as int),
        decreases n - k,
    {
        if subreddits[k] + 1 > nr_subs {
            nr_subs = subreddits[k] + 1;
        }
        k = k + 1;
    }
    if !fits(nr_subs) {
        return Err(NetworkError::TooManyCommunities);
    }
    proof {
        lemma_span(subreddits@, n as int);
    }
    let (author_vec, totals) = make_author_vec(authors, subreddits, counts, nr_subs);
    let m = compute_overlaps_arr(&author_vec, &totals);
    proof {
        assert(aggregates(author_vec@, totals@, views_of(authors@), subreddits@, counts@, nr_subs as int));
    }
    Ok(m)
}

/// Filters the records, numbers the surviving communities and computes their
/// overlap matrix.
pub fn build_adjacency_matrix(records: Vec<DataRecord>, min_count_bot_exclusion: i32, subreddit_comment_threshold: i32) -> (r: Result<(Vec<Vec<u128>>, CommunityIndex), NetworkError>)
    requires
        records.len() <= u32::MAX,
    ensures
        ({
            let f = filtered(records@, min_count_bot_exclusion, subreddit_comment_threshold);
            let names = distinct_in_order(communities_of(f));
            match r {
                Ok((m, index)) => {
                    &&& index@ == names
                    &&& index.wf()
                    &&& exists|subs: Seq<usize>|
                        #![trigger resolves(f, names, subs)]
                        resolves(f, names, subs) && is_overlap_of(m@, authors_of(f), subs, counts_of(f), names.len() as int)
                },
                Err(e) => e == NetworkError::TooManyCommunities && !fits_in_memory(names.len() as int),
            }
        }),
{
    let mut records = records;
    let ghost orig = records@;
    let ghost f = filtered(records@, min_count_bot_exclusion, subreddit_comment_threshold);
    filter_records(&mut records, min_count_bot_exclusion, subreddit_comment_threshold);
    let index = assign_sub_ids(&records);
    let nr_subs = index.len();
    if !fits(nr_subs) {
        return Err(NetworkError::TooManyCommunities);
    }
    let mut authors: Vec<String> = Vec::new();
    let mut subreddits: Vec<usize> = Vec::new();
    let mut counts: Vec<u32> = Vec::new();
    let mut k: usize = 0;
    proof {
        lemma_filtered_len(orig, min_count_bot_exclusion, subreddit_comment_threshold);
    }
    while k < records.len()
        invariant
            k <= records.len(),
            records@ == f,
            index.wf(),
            index@ == distinct_in_order(communities_of(f)),
            forall|x: Seq<char>| #[trigger] index@.contains(x) <==> communities_of(f).contains(x),
            nr_subs == index@.len(),
            authors.len() == k,
            subreddits.len() == k,
            counts.len() == k,
            views_of(authors@) == authors_of(f).subrange(0, k as int),
            counts@ == counts_of(f).subrange(0, k as int),
            forall|j: int| 0 <= j < k ==> (#[trigger] subreddits@[j]) < nr_subs && index@[subreddits@[j] as int] == f[j].subreddit@,
        decreases records.len() - k,
    {
        proof {
            assert(communities_of(f)[k as int] == f[k as int].subreddit@);
            assert(communities_of(f).contains(f[k as int].subreddit@));
        }
        let id = match index.id_of(&records[k].subreddit) {
            Some(id) => id,
            None => 0,
        };
        authors.push(records[k].author.clone());
        subreddits.push(id);
        counts.push(records[k].count);
        proof {
            assert(views_of(authors@) =~= authors_of(f).subrange(0, k as int + 1));
            assert(counts@ =~= counts_of(f).subrange(0, k as int + 1));
        }
        k = k + 1;
    }
    proof {
        assert(views_of(authors@) =~= authors_of(f));
        assert(counts@ =~= counts_of(f));
        assert(resolves(f, index@, subreddits@));
    }
    let (author_vec, totals) = make_author_vec(&authors, &subreddits, &counts, nr_subs);
    let m = compute_overlaps_arr(&author_vec, &totals);
    proof {
        assert(aggregates(author_vec@, totals@, views_of(authors@), subreddits@, counts@, nr_subs as int));
        assert(is_overlap_of(m@, authors_of(f), subreddits@, counts_of(f), nr_subs as int));
    }
    Ok((m, index))
}

/// Builds the network as an edge list: the non-zero entries of the overlap
/// matrix as `(row, column, weight)` triples, in row-major order.
pub fn build_edge_list(records: Vec<DataRecord>, min_count_bot_exclusion: i32, subreddit_comment_threshold: i32) -> (r: Result<(Vec<(usize, usize, u128)>, CommunityIndex), NetworkError>)
    requires
        records.len() <= u32::MAX,
    ensures
        ({
            let f = filtered(records@, min_count_bot_exclusion, subreddit_comment_threshold);
            let names = distinct_in_order(communities_of(f));
            match r {
                Ok((edges, index)) => {
                    &&& index@ == names
                    &&& index.wf()
                    &&& exists|m: Seq<Vec<u128>>, subs: Seq<usize>|
                        #![trigger is_overlap_of(m, authors_of(f), subs, counts_of(f), names.len() as int)]
                        resolves(f, names, subs) && is_overlap_of(m, authors_of(f), subs, counts_of(f), names.len() as int)
                        && is_edge_list_of(edges@, m)
                },
                Err(e) => e == NetworkError::TooManyCommunities && !fits_in_memory(names.len() as int),
            }
        }),
{
    match build_adjacency_matrix(records, min_count_bot_exclusion, subreddit_comment_threshold) {
        Ok((m, index)) => {
            let edges = edges_of(&m);
            Ok((edges, index))
        },
        Err(e) => Err(e),
    }
}

} // verus!
