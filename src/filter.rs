use vstd::prelude::*;
use crate::index::{community_names, distinct_strings, position_of, views_of};
use crate::record::{DataRecord, communities_of, is_valid, is_valid_record};

verus! {

/// Total number of comments that `rs` records for community `name`.
pub open spec fn community_total(rs: Seq<DataRecord>, name: Seq<char>) -> int
    decreases rs.len(),
{
    if rs.len() == 0 {
        0
    } else {
        community_total(rs.drop_last(), name) + if rs.last().subreddit@ == name {
            rs.last().count as int
        } else {
            0
        }
    }
}

/// The records that survive the exclusion of deleted, moderation and bot accounts.
pub open spec fn exclusion_filter(rs: Seq<DataRecord>, min_count_bot_exclusion: i32) -> Seq<DataRecord> {
    rs.filter(|r: DataRecord| is_valid(r, min_count_bot_exclusion))
}

/// The records whose community has more than `threshold` comments in `rs`.
pub open spec fn activity_filter(rs: Seq<DataRecord>, threshold: i32) -> Seq<DataRecord> {
    rs.filter(|r: DataRecord| community_total(rs, r.subreddit@) > threshold as int)
}

/// Both filters, exclusion first.
pub open spec fn filtered(rs: Seq<DataRecord>, min_count_bot_exclusion: i32, threshold: i32) -> Seq<DataRecord> {
    activity_filter(exclusion_filter(rs, min_count_bot_exclusion), threshold)
}

proof fn lemma_total_bound(rs: Seq<DataRecord>, name: Seq<char>)
    ensures
        0 <= community_total(rs, name) <= rs.len() * (u32::MAX as int),
    decreases rs.len(),
{
    if rs.len() > 0 {
        lemma_total_bound(rs.drop_last(), name);
    }
}

/// Filtering a sequence whose every element passes changes nothing.
pub proof fn lemma_filter_all(s: Seq<DataRecord>, pred: spec_fn(DataRecord) -> bool)
    requires
        forall|k: int| 0 <= k < s.len() ==> pred(#[trigger] s[k]),
    ensures
        s.filter(pred) == s,
    decreases s.len(),
{
    reveal(Seq::filter);
    if s.len() > 0 {
        lemma_filter_all(s.drop_last(), pred);
        assert(s.drop_last().push(s.last()) =~= s);
    }
}

/// Where a predicate reads only the community, filtering by it keeps a
/// community's total whole or drops it whole.
pub proof fn lemma_total_of_filter(s: Seq<DataRecord>, pred: spec_fn(DataRecord) -> bool, rep: DataRecord)
    requires
        forall|a: DataRecord, b: DataRecord| a.subreddit@ == b.subreddit@ ==> pred(a) == pred(b),
    ensures
        community_total(s.filter(pred), rep.subreddit@) == if pred(rep) {
            community_total(s, rep.subreddit@)
        } else {
            0
        },
    decreases s.len(),
{
    reveal(Seq::filter);
    if s.len() > 0 {
        lemma_total_of_filter(s.drop_last(), pred, rep);
        let f = s.filter(pred);
        if pred(s.last()) {
            assert(f.drop_last() =~= s.drop_last().filter(pred));
        }
    }
}

fn exclude_records(records: &Vec<DataRecord>, min_count_bot_exclusion: i32) -> (r: Vec<DataRecord>)
    ensures
        r@ == exclusion_filter(records@, min_count_bot_exclusion),
{
    let ghost pred = |r: DataRecord| is_valid(r, min_count_bot_exclusion);
    let mut out: Vec<DataRecord> = Vec::new();
    let mut i: usize = 0;
    while i < records.len()
        invariant
            i <= records.len(),
            pred == (|r: DataRecord| is_valid(r, min_count_bot_exclusion)),
            out@ == records@.subrange(0, i as int).filter(pred),
        decreases records.len() - i,
    {
        proof {
            reveal(Seq::filter);
            assert(records@.subrange(0, i as int + 1).drop_last() =~= records@.subrange(0, i as int));
        }
        let ghost before = out@;
        let keep = is_valid_record(&records[i], min_count_bot_exclusion);
        if keep {
            out.push(records[i].duplicate());
        }
        proof {
            let post = records@.subrange(0, i as int + 1);
            assert(post.last() == records@[i as int]);
            assert(keep == pred(records@[i as int]));
            if keep {
                assert(post.filter(pred) == before.push(records@[i as int]));
            } else {
                assert(post.filter(pred) == before);
            }
            assert(out@ == post.filter(pred));
        }
        i = i + 1;
    }
    proof {
        assert(records@.subrange(0, records.len() as int) =~= records@);
    }
    out
}

fn community_totals(records: &Vec<DataRecord>, names: &Vec<String>) -> (totals: Vec<u64>)
    requires
        records.len() <= u32::MAX,
        views_of(names@).no_duplicates(),
        forall|k: int| 0 <= k < records.len() ==> views_of(names@).contains(#[trigger] records@[k].subreddit@),
    ensures
        totals.len() == names.len(),
        forall|d: int| 0 <= d < names.len() ==> #[trigger] totals@[d] == community_total(records@, names@[d]@),
{
    let mut totals: Vec<u64> = Vec::new();
    let mut d: usize = 0;
    while d < names.len()
        invariant
            d <= names.len(),
            totals.len() == d,
            forall|e: int| 0 <= e < d ==> #[trigger] totals@[e] == 0,
        decreases names.len() - d,
    {
        totals.push(0);
        d = d + 1;
    }
    let mut i: usize = 0;
    while i < records.len()
        invariant
            i <= records.len(),
            records.len() <= u32::MAX,
            totals.len() == names.len(),
            views_of(names@).no_duplicates(),
            forall|k: int| 0 <= k < records.len() ==> views_of(names@).contains(#[trigger] records@[k].subreddit@),
            forall|e: int|
                0 <= e < names.len() ==> #[trigger] totals@[e] == community_total(
                    records@.subrange(0, i as int),
                    names@[e]@,
                ),
        decreases records.len() - i,
    {
        let ghost pre = records@.subrange(0, i as int);
        let ghost post = records@.subrange(0, i as int + 1);
        proof {
            assert(post.drop_last() =~= pre);
            assert(post.last() == records@[i as int]);
            assert(views_of(names@).contains(records@[i as int].subreddit@));
        }
        let pos = position_of(names, &records[i].subreddit);
        match pos {
            Some(p) => {
                proof {
                    lemma_total_bound(post, names@[p as int]@);
                    assert((i as int + 1) * (u32::MAX as int) <= (u32::MAX as int) * (u32::MAX as int))
                        by (nonlinear_arith)
                        requires i < u32::MAX;
                }
                let t = totals[p] + records[i].count as u64;
                totals.set(p, t);
                proof {
                    assert forall|e: int| 0 <= e < names.len() implies #[trigger] totals@[e] == community_total(post, names@[e]@) by {
                        if e != p {
                            assert(views_of(names@)[e] != views_of(names@)[p as int]);
                        }
                    }
                }
            },
            None => {
                proof {
                    let k = choose|k: int| 0 <= k < views_of(names@).len() && views_of(names@)[k] == records@[i as int].subreddit@;
                    assert(names@[k]@ != records@[i as int].subreddit@);
                }
            },
        }
        i = i + 1;
    }
    proof {
        assert(records@.subrange(0, records.len() as int) =~= records@);
    }
    totals
}

/// Removes the records of excluded authors, then the records of communities
/// whose remaining total is at most `subreddit_comment_threshold`.
pub fn filter_records(records: &mut Vec<DataRecord>, min_count_bot_exclusion: i32, subreddit_comment_threshold: i32)
    requires
        old(records).len() <= u32::MAX,
    ensures
        final(records)@ == filtered(old(records)@, min_count_bot_exclusion, subreddit_comment_threshold),
{
    let kept = exclude_records(records, min_count_bot_exclusion);
    proof {
        records@.lemma_filter_len(|r: DataRecord| is_valid(r, min_count_bot_exclusion));
    }
    let subs = community_names(&kept);
    let names = distinct_strings(&subs);
    proof {
        assert forall|k: int| 0 <= k < kept.len() implies views_of(names@).contains(#[trigger] kept@[k].subreddit@) by {
            assert(communities_of(kept@)[k] == kept@[k].subreddit@);
            assert(views_of(subs@).contains(kept@[k].subreddit@));
        }
    }
    let totals = community_totals(&kept, &names);
    let ghost pred = |r: DataRecord| community_total(kept@, r.subreddit@) > subreddit_comment_threshold as int;
    let mut out: Vec<DataRecord> = Vec::new();
    let mut i: usize = 0;
    while i < kept.len()
        invariant
            i <= kept.len(),
            totals.len() == names.len(),
            forall|k: int| 0 <= k < kept.len() ==> views_of(names@).contains(#[trigger] kept@[k].subreddit@),
            forall|d: int| 0 <= d < names.len() ==> #[trigger] totals@[d] == community_total(kept@, names@[d]@),
            pred == (|r: DataRecord| community_total(kept@, r.subreddit@) > subreddit_comment_threshold as int),
            out@ == kept@.subrange(0, i as int).filter(pred),
        decreases kept.len() - i,
    {
        proof {
            reveal(Seq::filter);
            assert(kept@.subrange(0, i as int + 1).drop_last() =~= kept@.subrange(0, i as int));
            assert(views_of(names@).contains(kept@[i as int].subreddit@));
        }
        let pos = position_of(&names, &kept[i].subreddit);
        match pos {
            Some(p) => {
                let ghost before = out@;
                let keep = subreddit_comment_threshold < 0 || totals[p] > subreddit_comment_threshold as u64;
                if keep {
                    out.push(kept[i].duplicate());
                }
                proof {
                    let post = kept@.subrange(0, i as int + 1);
                    assert(post.last() == kept@[i as int]);
                    assert(names@[p as int]@ == kept@[i as int].subreddit@);
                    assert(totals@[p as int] == community_total(kept@, names@[p as int]@));
                    assert(totals@[p as int] == community_total(kept@, kept@[i as int].subreddit@));
                    assert(keep == pred(kept@[i as int]));
                    if keep {
                        assert(post.filter(pred) == before.push(kept@[i as int]));
                    } else {
                        assert(post.filter(pred) == before);
                    }
                }
            },
            None => {
                proof {
                    let k = choose|k: int| 0 <= k < views_of(names@).len() && views_of(names@)[k] == kept@[i as int].subreddit@;
                    assert(names@[k]@ != kept@[i as int].subreddit@);
                }
            },
        }
        i = i + 1;
    }
    proof {
        assert(kept@.subrange(0, kept.len() as int) =~= kept@);
    }
    *records = out;
}

/// Filtering never adds records.
pub proof fn lemma_filtered_len(rs: Seq<DataRecord>, min_count_bot_exclusion: i32, threshold: i32)
    ensures
        filtered(rs, min_count_bot_exclusion, threshold).len() <= rs.len(),
{
    let e = exclusion_filter(rs, min_count_bot_exclusion);
    rs.lemma_filter_len(|r: DataRecord| is_valid(r, min_count_bot_exclusion));
    e.lemma_filter_len(|r: DataRecord| community_total(e, r.subreddit@) > threshold as int);
}

} // verus!
