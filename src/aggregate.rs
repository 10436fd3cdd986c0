use vstd::prelude::*;
use crate::index::{distinct_in_order, distinct_strings, position_of, views_of};
use crate::overlap::{Profile, profile_fits, profiles_fit};

verus! {

/// Sum of the counts that the first `n` entries of `p` hold for community `c`.
pub open spec fn lookup_upto(p: Seq<(usize, u64)>, c: int, n: int) -> int
    decreases n,
{
    if n <= 0 {
        0
    } else {
        lookup_upto(p, c, n - 1) + if p[n - 1].0 == c {
            p[n - 1].1 as int
        } else {
            0
        }
    }
}

/// The count that a profile holds for community `c` (zero where it has none).
pub open spec fn lookup(p: Seq<(usize, u64)>, c: int) -> int {
    lookup_upto(p, c, p.len() as int)
}

/// Whether a profile has an entry for community `c`.
pub open spec fn has_entry(p: Seq<(usize, u64)>, c: int) -> bool {
    exists|k: int| 0 <= k < p.len() && p[k].0 == c
}

/// No community appears twice in a profile.
pub open spec fn distinct_ids(p: Seq<(usize, u64)>) -> bool {
    forall|k: int, l: int| 0 <= k < l < p.len() ==> (#[trigger] p[k]).0 != (#[trigger] p[l]).0
}

/// Comments of author `who` in community `c` among the first `n` records.
pub open spec fn author_count_upto(authors: Seq<Seq<char>>, subs: Seq<usize>, counts: Seq<u32>, who: Seq<char>, c: int, n: int) -> int
    decreases n,
{
    if n <= 0 {
        0
    } else {
        author_count_upto(authors, subs, counts, who, c, n - 1) + if authors[n - 1] == who && subs[n - 1] == c {
            counts[n - 1] as int
        } else {
            0
        }
    }
}

/// Comments in community `c` among the first `n` records.
pub open spec fn sub_total_upto(subs: Seq<usize>, counts: Seq<u32>, c: int, n: int) -> int
    decreases n,
{
    if n <= 0 {
        0
    } else {
        sub_total_upto(subs, counts, c, n - 1) + if subs[n - 1] == c {
            counts[n - 1] as int
        } else {
            0
        }
    }
}

/// Whether one of the first `n` records is by `who` in community `c`.
pub open spec fn author_active(authors: Seq<Seq<char>>, subs: Seq<usize>, who: Seq<char>, c: int, n: int) -> bool {
    exists|k: int| 0 <= k < n && authors[k] == who && subs[k] == c
}

/// One more than the largest of the first `n` community ids, zero where `n` is zero.
pub open spec fn id_span(subs: Seq<usize>, n: int) -> int
    decreases n,
{
    if n <= 0 {
        0
    } else {
        let prev = id_span(subs, n - 1);
        if subs[n - 1] as int + 1 > prev {
            subs[n - 1] as int + 1
        } else {
            prev
        }
    }
}

proof fn lemma_lookup_same(p: Seq<(usize, u64)>, q: Seq<(usize, u64)>, c: int, n: int)
    requires
        0 <= n <= p.len(),
        n <= q.len(),
        forall|k: int| 0 <= k < n ==> p[k] == q[k],
    ensures
        lookup_upto(p, c, n) == lookup_upto(q, c, n),
    decreases n,
{
    if n > 0 {
        lemma_lookup_same(p, q, c, n - 1);
    }
}

proof fn lemma_lookup_update(p: Seq<(usize, u64)>, j: int, e: (usize, u64), c: int, n: int)
    requires
        0 <= j < p.len(),
        0 <= n <= p.len(),
    ensures
        lookup_upto(p.update(j, e), c, n) == lookup_upto(p, c, n) + if j < n {
            (if e.0 == c { e.1 as int } else { 0 }) - (if p[j].0 == c { p[j].1 as int } else { 0 })
        } else {
            0
        },
    decreases n,
{
    if n > 0 {
        lemma_lookup_update(p, j, e, c, n - 1);
    }
}

proof fn lemma_lookup_entry(p: Seq<(usize, u64)>, j: int, n: int)
    requires
        distinct_ids(p),
        0 <= j < n <= p.len(),
    ensures
        lookup_upto(p, p[j].0 as int, n) == p[j].1,
    decreases n,
{
    if n - 1 > j {
        lemma_lookup_entry(p, j, n - 1);
    } else {
        lemma_lookup_absent(p, p[j].0 as int, j);
    }
}

proof fn lemma_lookup_absent(p: Seq<(usize, u64)>, c: int, n: int)
    requires
        0 <= n <= p.len(),
        forall|k: int| 0 <= k < n ==> (#[trigger] p[k]).0 != c,
    ensures
        lookup_upto(p, c, n) == 0,
    decreases n,
{
    if n > 0 {
        lemma_lookup_absent(p, c, n - 1);
    }
}

/// Adds `v` comments in community `c` to a profile.
fn add_to_profile(p: &mut Profile, c: usize, v: u64)
    requires
        distinct_ids(old(p)@),
        lookup(old(p)@, c as int) + v <= u64::MAX,
    ensures
        distinct_ids(final(p)@),
        forall|x: int| #[trigger] has_entry(final(p)@, x) <==> has_entry(old(p)@, x) || x == c,
        forall|x: int|
            #[trigger] lookup(final(p)@, x) == lookup(old(p)@, x) + if x == c {
                v as int
            } else {
                0
            },
{
    let ghost p0 = p@;
    let mut j: usize = 0;
    let mut found = false;
    while j < p.len() && !found
        invariant
            j <= p.len(),
            p@ == p0,
            found ==> j < p.len() && p@[j as int].0 == c,
            !found ==> forall|k: int| 0 <= k < j ==> (#[trigger] p@[k]).0 != c,
        decreases p.len() - j + if found { 0int } else { 1int },
    {
        if p[j].0 == c {
            found = true;
        } else {
            j = j + 1;
        }
    }
    if found {
        proof {
            lemma_lookup_entry(p0, j as int, p0.len() as int);
        }
        let total = p[j].1 + v;
        p.set(j, (c, total));
        proof {
            assert forall|x: int| #[trigger] lookup(p@, x) == lookup(p0, x) + if x == c {
                v as int
            } else {
                0
            } by {
                lemma_lookup_update(p0, j as int, (c, total), x, p0.len() as int);
            }
            assert forall|x: int| #[trigger] has_entry(p@, x) <==> has_entry(p0, x) || x == c by {
                if has_entry(p0, x) {
                    let k = choose|k: int| 0 <= k < p0.len() && p0[k].0 == x;
                    assert(p@[k].0 == x);
                }
                if x == c {
                    assert(p@[j as int].0 == x);
                }
                if has_entry(p@, x) {
                    let k = choose|k: int| 0 <= k < p@.len() && p@[k].0 == x;
                    assert(p0[k].0 == x);
                }
            }
        }
    } else {
        proof {
            lemma_lookup_absent(p0, c as int, p0.len() as int);
        }
        p.push((c, v));
        proof {
            assert forall|x: int| #[trigger] lookup(p@, x) == lookup(p0, x) + if x == c {
                v as int
            } else {
                0
            } by {
                lemma_lookup_same(p@, p0, x, p0.len() as int);
            }
            assert forall|x: int| #[trigger] has_entry(p@, x) <==> has_entry(p0, x) || x == c by {
                if has_entry(p0, x) {
                    let k = choose|k: int| 0 <= k < p0.len() && p0[k].0 == x;
                    assert(p@[k].0 == x);
                }
                if x == c {
                    assert(p@[p0.len() as int].0 == x);
                }
            }
        }
    }
}

proof fn lemma_author_le_sub(authors: Seq<Seq<char>>, subs: Seq<usize>, counts: Seq<u32>, who: Seq<char>, c: int, n: int)
    requires
        0 <= n <= authors.len(),
        n <= subs.len(),
        n <= counts.len(),
    ensures
        0 <= author_count_upto(authors, subs, counts, who, c, n) <= sub_total_upto(subs, counts, c, n),
        sub_total_upto(subs, counts, c, n) <= n * (u32::MAX as int),
    decreases n,
{
    if n > 0 {
        lemma_author_le_sub(authors, subs, counts, who, c, n - 1);
    }
}

pub(crate) proof fn lemma_span(subs: Seq<usize>, n: int)
    requires
        0 <= n <= subs.len(),
    ensures
        forall|k: int| 0 <= k < n ==> (#[trigger] subs[k]) < id_span(subs, n),
        n > 0 ==> exists|k: int| 0 <= k < n && id_span(subs, n) == subs[k] + 1,
        0 <= id_span(subs, n),
    decreases n,
{
    if n > 0 {
        lemma_span(subs, n - 1);
        if subs[n - 1] as int + 1 <= id_span(subs, n - 1) {
            let k = choose|k: int| 0 <= k < n - 1 && id_span(subs, n - 1) == subs[k] + 1;
            assert(0 <= k < n && id_span(subs, n) == subs[k] + 1);
        }
    }
}


/// Whether `ps` and `totals` are the aggregate of the records given as the
/// parallel sequences `authors`, `subs` and `counts`, over `nr_subs` community
/// ids: one profile per distinct author, in order of first appearance, holding
/// that author's summed count in each community they commented in, and the
/// total of each community id.
pub open spec fn aggregates(
    ps: Seq<Profile>,
    totals: Seq<u64>,
    authors: Seq<Seq<char>>,
    subs: Seq<usize>,
    counts: Seq<u32>,
    nr_subs: int,
) -> bool {
    let who = distinct_in_order(authors);
    let n = counts.len() as int;
    &&& ps.len() == who.len()
    &&& totals.len() == nr_subs
    &&& forall|c: int| 0 <= c < nr_subs ==> #[trigger] totals[c] == sub_total_upto(subs, counts, c, n)
    &&& forall|d: int| 0 <= d < ps.len() ==> distinct_ids(#[trigger] ps[d]@)
    &&& forall|d: int, c: int|
        0 <= d < ps.len() ==> #[trigger] lookup(ps[d]@, c) == author_count_upto(authors, subs, counts, who[d], c, n)
    &&& forall|d: int, c: int|
        0 <= d < ps.len() ==> (#[trigger] has_entry(ps[d]@, c) <==> author_active(authors, subs, who[d], c, n))
    &&& profiles_fit(ps, totals)
}

/// Groups records, given as parallel sequences, by author, and totals each
/// community id below `nr_subs`.
pub fn make_author_vec(authors: &Vec<String>, subreddits: &Vec<usize>, counts: &Vec<u32>, nr_subs: usize) -> (r: (Vec<Profile>, Vec<u64>))
    requires
        authors.len() == subreddits.len(),
        subreddits.len() == counts.len(),
        counts.len() <= u32::MAX,
        forall|k: int| 0 <= k < subreddits.len() ==> #[trigger] subreddits@[k] < nr_subs,
    ensures
        aggregates(r.0@, r.1@, views_of(authors@), subreddits@, counts@, nr_subs as int),
{
    let ghost av = views_of(authors@);
    let ghost subs = subreddits@;
    let ghost cs = counts@;
    let n = counts.len();
    let who = distinct_strings(authors);
    let ghost wv = views_of(who@);
    let mut totals: Vec<u64> = Vec::new();
    let mut c: usize = 0;
    while c < nr_subs
        invariant
            c <= nr_subs,
            totals.len() == c,
            forall|e: int| 0 <= e < c ==> #[trigger] totals@[e] == 0,
        decreases nr_subs - c,
    {
        totals.push(0);
        c = c + 1;
    }
    let mut profiles: Vec<Profile> = Vec::new();
    let mut d: usize = 0;
    while d < who.len()
        invariant
            d <= who.len(),
            profiles.len() == d,
            forall|e: int| 0 <= e < d ==> (#[trigger] profiles@[e])@.len() == 0,
        decreases who.len() - d,
    {
        profiles.push(Vec::new());
        d = d + 1;
    }
    proof {
        assert forall|d: int, c: int| 0 <= d < profiles.len() implies !(#[trigger] has_entry(profiles@[d]@, c)) by {}
    }
    let mut k: usize = 0;
    while k < n
        invariant
            k <= n,
            n == counts.len(),
            n == authors.len(),
            n == subreddits.len(),
            n <= u32::MAX,
            av == views_of(authors@),
            subs == subreddits@,
            cs == counts@,
            wv == views_of(who@),
            wv == distinct_in_order(av),
            wv.no_duplicates(),
            forall|x: Seq<char>| #[trigger] wv.contains(x) <==> av.contains(x),
            forall|j: int| 0 <= j < n ==> (#[trigger] subs[j]) < nr_subs,
            totals.len() == nr_subs,
            profiles.len() == who.len(),
            forall|c: int| 0 <= c < nr_subs ==> #[trigger] totals@[c] == sub_total_upto(subs, cs, c, k as int),
            forall|d: int| 0 <= d < profiles.len() ==> distinct_ids(#[trigger] profiles@[d]@),
            forall|d: int, c: int|
                0 <= d < profiles.len() ==> #[trigger] lookup(profiles@[d]@, c) == author_count_upto(av, subs, cs, wv[d], c, k as int),
            forall|d: int, c: int|
                0 <= d < profiles.len() ==> (#[trigger] has_entry(profiles@[d]@, c) <==> author_active(av, subs, wv[d], c, k as int)),
        decreases n - k,
    {
        proof {
            assert(av[k as int] == authors@[k as int]@);
            assert(av.contains(av[k as int]));
        }
        let pos = position_of(&who, &authors[k]);
        let h: usize = match pos {
            Some(h) => h,
            None => {
                proof {
                    assert(wv.contains(av[k as int]));
                    let j = choose|j: int| 0 <= j < wv.len() && wv[j] == av[k as int];
                    assert(wv.len() == who@.len());
                    assert(wv[j] == who@[j]@);
                    assert(who@[j]@ == authors@[k as int]@);
                }
                0
            },
        };
        let c = subreddits[k];
        let v = counts[k];
        let ghost wh = wv[h as int];
        proof {
            assert(wv[h as int] == who@[h as int]@);
            assert(wh == av[k as int]);
            lemma_author_le_sub(av, subs, cs, wh, c as int, k as int + 1);
            lemma_author_le_sub(av, subs, cs, wh, c as int, k as int);
            assert((k as int + 1) * (u32::MAX as int) <= (u32::MAX as int) * (u32::MAX as int)) by (nonlinear_arith)
                requires k < u32::MAX;
        }
        let t = totals[c] + v as u64;
        totals.set(c, t);
        let ghost before = profiles@;
        add_to_profile(&mut profiles[h], c, v as u64);
        proof {
            let k1 = k as int + 1;
            assert forall|d: int, x: int| 0 <= d < profiles.len() implies #[trigger] lookup(profiles@[d]@, x)
                == author_count_upto(av, subs, cs, wv[d], x, k1) && (has_entry(profiles@[d]@, x) <==> author_active(av, subs, wv[d], x, k1)) by {
                if author_active(av, subs, wv[d], x, k1) && !author_active(av, subs, wv[d], x, k as int) {
                    let j = choose|j: int| 0 <= j < k1 && av[j] == wv[d] && subs[j] == x;
                    assert(j == k);
                }
                if author_active(av, subs, wv[d], x, k as int) {
                    let j = choose|j: int| 0 <= j < k && av[j] == wv[d] && subs[j] == x;
                    assert(0 <= j < k1 && av[j] == wv[d] && subs[j] == x);
                }
                if d != h {
                    assert(wv[d] != wv[h as int]);
                    assert(profiles@[d] == before[d]);
                } else {
                    assert(0 <= k < k1 && av[k as int] == wv[d] && subs[k as int] == c);
                }
            }
            assert forall|d: int| 0 <= d < profiles.len() implies distinct_ids(#[trigger] profiles@[d]@) by {
                if d != h {
                    assert(profiles@[d] == before[d]);
                }
            }
        }
        k = k + 1;
    }
    proof {
        assert forall|d: int| 0 <= d < profiles.len() implies profile_fits(#[trigger] profiles@[d]@, totals@) by {
            let p = profiles@[d]@;
            assert forall|j: int| 0 <= j < p.len() implies (#[trigger] p[j]).0 < totals.len() && p[j].1 <= totals@[p[j].0 as int] by {
                let x = p[j].0 as int;
                assert(has_entry(p, x));
                let i = choose|i: int| 0 <= i < n && av[i] == wv[d] && subs[i] == x;
                assert(subs[i] < nr_subs);
                lemma_lookup_entry(p, j, p.len() as int);
                lemma_author_le_sub(av, subs, cs, wv[d], x, n as int);
                assert(lookup(p, x) == author_count_upto(av, subs, cs, wv[d], x, n as int));
                assert(totals@[x] == sub_total_upto(subs, cs, x, n as int));
            }
        }
    }
    (profiles, totals)
}

} // verus!
