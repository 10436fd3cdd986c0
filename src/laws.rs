use vstd::prelude::*;
use crate::filter::{
    activity_filter, community_total, exclusion_filter, filtered, lemma_filter_all, lemma_total_of_filter,
};
use crate::index::{distinct_in_order, lemma_distinct_in_order};
use crate::overlap::{
    Profile, SCALE, author_sum, lemma_raw_bound, lemma_term_props, overlap_score, pair_sum, pair_term,
    profile_fits, profile_total, profiles_fit, raw_upto,
};
use crate::record::{DataRecord, communities_of, is_valid, moderator_name};

verus! {

proof fn lemma_pair_sum_diagonal(p: Seq<(usize, u64)>, k: int, n: int, i: int, totals: Seq<u64>)
    ensures
        pair_sum(p, k, n, i, i, totals) == 0,
    decreases n,
{
    if n > 0 {
        lemma_pair_sum_diagonal(p, k, n - 1, i, totals);
        assert(pair_term(p, k, n - 1, i, i, totals) == 0);
    }
}

proof fn lemma_author_sum_diagonal(p: Seq<(usize, u64)>, n: int, i: int, totals: Seq<u64>)
    ensures
        author_sum(p, n, i, i, totals) == 0,
    decreases n,
{
    if n > 0 {
        lemma_author_sum_diagonal(p, n - 1, i, totals);
        lemma_pair_sum_diagonal(p, n - 1, p.len() as int, i, totals);
    }
}

proof fn lemma_raw_diagonal(ps: Seq<Profile>, n: int, i: int, totals: Seq<u64>)
    ensures
        raw_upto(ps, n, i, i, totals) == 0,
    decreases n,
{
    if n > 0 {
        lemma_raw_diagonal(ps, n - 1, i, totals);
        lemma_author_sum_diagonal(ps[n - 1]@, ps[n - 1]@.len() as int, i, totals);
    }
}

/// The overlap score is symmetric, and zero between a community and itself.
pub proof fn lemma_overlap_symmetric(ps: Seq<Profile>, totals: Seq<u64>, i: int, j: int)
    ensures
        overlap_score(ps, totals, i, j) == overlap_score(ps, totals, j, i),
        overlap_score(ps, totals, i, i) == 0,
{
    lemma_raw_diagonal(ps, ps.len() as int, i, totals);
}

/// Every overlap score is at least zero.
pub proof fn lemma_overlap_nonnegative(ps: Seq<Profile>, totals: Seq<u64>, i: int, j: int)
    requires
        profiles_fit(ps, totals),
    ensures
        overlap_score(ps, totals, i, j) >= 0,
{
    lemma_raw_bound(ps, ps.len() as int, i, j, totals);
    lemma_raw_bound(ps, ps.len() as int, j, i, totals);
}

/// One contribution to `raw[i][j]`, for entries `k` and `l` of a profile in
/// distinct communities, is never below the exact share
/// `SCALE * c_i * c_j / (author_total * community_total[j])` and exceeds it by
/// less than two units; it is zero exactly when one of the counts is.
pub proof fn lemma_contribution_error(p: Seq<(usize, u64)>, k: int, l: int, totals: Seq<u64>)
    requires
        profile_fits(p, totals),
        0 <= k < p.len(),
        0 <= l < p.len(),
        p[k].0 != p[l].0,
    ensures
        ({
            let (i, ci) = (p[k].0 as int, p[k].1 as int);
            let (j, cj) = (p[l].0 as int, p[l].1 as int);
            let ta = profile_total(p);
            let tj = totals[j] as int;
            let t = pair_term(p, k, l, i, j, totals);
            &&& t > 0 <==> (ci > 0 && cj > 0)
            &&& ta > 0 && tj > 0 ==> SCALE * ci * cj <= t * ta * tj
            &&& ta > 0 && tj > 0 ==> t * ta * tj < SCALE * ci * cj + 2 * ta * tj
        }),
{
    crate::overlap::lemma_total_bounds(p, p.len() as int);
    assert(p[k].1 <= crate::overlap::total_upto(p, p.len() as int));
    assert(p[l].0 < totals.len());
    lemma_term_props(p[k].1 as int, p[l].1 as int, profile_total(p), totals[p[l].0 as int] as int);
}

proof fn lemma_filter_filter(s: Seq<DataRecord>, q: spec_fn(DataRecord) -> bool, p: spec_fn(DataRecord) -> bool)
    requires
        forall|x: DataRecord| #[trigger] p(x) ==> q(x),
    ensures
        s.filter(q).filter(p) == s.filter(p),
    decreases s.len(),
{
    reveal(Seq::filter);
    if s.len() > 0 {
        lemma_filter_filter(s.drop_last(), q, p);
        let a = s.drop_last().filter(q);
        if q(s.last()) {
            assert(a.push(s.last()).drop_last() =~= a);
            assert(a.push(s.last()).last() == s.last());
        }
    }
}

/// Removing every record of the moderation account before filtering changes
/// nothing: its records never reach the community totals or the result.
pub proof fn lemma_moderator_removal(rs: Seq<DataRecord>, min_count_bot_exclusion: i32, threshold: i32)
    ensures
        filtered(rs.filter(|r: DataRecord| r.author@ != moderator_name()), min_count_bot_exclusion, threshold)
            == filtered(rs, min_count_bot_exclusion, threshold),
{
    let q = |r: DataRecord| r.author@ != moderator_name();
    let valid = |r: DataRecord| is_valid(r, min_count_bot_exclusion);
    lemma_filter_filter(rs, q, valid);
    assert(exclusion_filter(rs.filter(q), min_count_bot_exclusion) == exclusion_filter(rs, min_count_bot_exclusion));
}

/// A community whose total, once excluded authors are dropped, is at most the
/// threshold keeps no record and gets no id.
pub proof fn lemma_quiet_community_dropped(rs: Seq<DataRecord>, min_count_bot_exclusion: i32, threshold: i32, c: Seq<char>)
    requires
        community_total(exclusion_filter(rs, min_count_bot_exclusion), c) <= threshold as int,
    ensures
        !communities_of(filtered(rs, min_count_bot_exclusion, threshold)).contains(c),
        !distinct_in_order(communities_of(filtered(rs, min_count_bot_exclusion, threshold))).contains(c),
{
    broadcast use vstd::seq_lib::group_filter_ensures;

    let e = exclusion_filter(rs, min_count_bot_exclusion);
    let f = filtered(rs, min_count_bot_exclusion, threshold);
    let busy = |r: DataRecord| community_total(e, r.subreddit@) > threshold as int;
    let cs = communities_of(f);
    if cs.contains(c) {
        let k = choose|k: int| 0 <= k < cs.len() && cs[k] == c;
        assert(busy(e.filter(busy)[k]));
        assert(f[k].subreddit@ == c);
    }
    lemma_distinct_in_order(cs);
}

proof fn lemma_filter_keeps(s: Seq<DataRecord>, pred: spec_fn(DataRecord) -> bool, q: spec_fn(DataRecord) -> bool)
    requires
        forall|k: int| 0 <= k < s.len() ==> q(#[trigger] s[k]),
    ensures
        forall|k: int| 0 <= k < s.filter(pred).len() ==> q(#[trigger] s.filter(pred)[k]),
    decreases s.len(),
{
    reveal(Seq::filter);
    if s.len() > 0 {
        lemma_filter_keeps(s.drop_last(), pred, q);
        let f = s.filter(pred);
        let g = s.drop_last().filter(pred);
        assert forall|k: int| 0 <= k < f.len() implies q(#[trigger] f[k]) by {
            if k < g.len() {
                assert(f[k] == g[k]);
            } else {
                assert(f[k] == s.last());
                assert(s[s.len() - 1] == s.last());
            }
        }
    }
}

/// Filtering records that were already filtered, with the same thresholds,
/// changes nothing.
pub proof fn lemma_filter_idempotent(rs: Seq<DataRecord>, min_count_bot_exclusion: i32, threshold: i32)
    ensures
        filtered(filtered(rs, min_count_bot_exclusion, threshold), min_count_bot_exclusion, threshold)
            == filtered(rs, min_count_bot_exclusion, threshold),
{
    broadcast use vstd::seq_lib::group_filter_ensures;

    let valid = |r: DataRecord| is_valid(r, min_count_bot_exclusion);
    let e = exclusion_filter(rs, min_count_bot_exclusion);
    let busy = |r: DataRecord| community_total(e, r.subreddit@) > threshold as int;
    let f = activity_filter(e, threshold);
    assert forall|k: int| 0 <= k < e.len() implies valid(#[trigger] e[k]) by {}
    lemma_filter_keeps(e, busy, valid);
    lemma_filter_all(f, valid);
    assert(exclusion_filter(f, min_count_bot_exclusion) == f);
    let busy_again = |r: DataRecord| community_total(f, r.subreddit@) > threshold as int;
    assert forall|k: int| 0 <= k < f.len() implies busy_again(#[trigger] f[k]) by {
        lemma_total_of_filter(e, busy, f[k]);
        assert(busy(f[k]));
    }
    lemma_filter_all(f, busy_again);
    assert(activity_filter(f, threshold) == f);
}

/// The ids of the communities of filtered records are `0..N` for the `N`
/// distinct communities: every community has exactly one id, and every id
/// below `N` names one of them.
pub proof fn lemma_ids_dense(rs: Seq<DataRecord>, min_count_bot_exclusion: i32, threshold: i32)
    ensures
        ({
            let cs = communities_of(filtered(rs, min_count_bot_exclusion, threshold));
            let names = distinct_in_order(cs);
            &&& forall|id: int| 0 <= id < names.len() ==> cs.contains(#[trigger] names[id])
            &&& forall|x: Seq<char>|
                cs.contains(x) ==> exists|id: int| 0 <= id < names.len() && #[trigger] names[id] == x
            &&& forall|a: int, b: int|
                0 <= a < names.len() && 0 <= b < names.len() && a != b ==> #[trigger] names[a] != #[trigger] names[b]
        }),
{
    let cs = communities_of(filtered(rs, min_count_bot_exclusion, threshold));
    let names = distinct_in_order(cs);
    lemma_distinct_in_order(cs);
    assert forall|id: int| 0 <= id < names.len() implies cs.contains(#[trigger] names[id]) by {
        assert(names.contains(names[id]));
    }
    assert forall|x: Seq<char>| cs.contains(x) implies exists|id: int| 0 <= id < names.len() && #[trigger] names[id] == x by {
        assert(names.contains(x));
    }
}

} // verus!
