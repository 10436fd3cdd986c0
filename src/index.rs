use vstd::prelude::*;
use itertools::Itertools;
use crate::record::{DataRecord, communities_of};

verus! {

/// The character sequences of a sequence of strings.
pub open spec fn views_of(v: Seq<String>) -> Seq<Seq<char>> {
    v.map_values(|s: String| s@)
}

/// The distinct elements of `s`, each at the place of its first occurrence.
pub open spec fn distinct_in_order(s: Seq<Seq<char>>) -> Seq<Seq<char>>
    decreases s.len(),
{
    if s.len() == 0 {
        Seq::empty()
    } else {
        let prev = distinct_in_order(s.drop_last());
        if prev.contains(s.last()) {
            prev
        } else {
            prev.push(s.last())
        }
    }
}

/// `distinct_in_order(s)` holds exactly the elements of `s`, each once.
pub proof fn lemma_distinct_in_order(s: Seq<Seq<char>>)
    ensures
        distinct_in_order(s).no_duplicates(),
        forall|x: Seq<char>| #[trigger] distinct_in_order(s).contains(x) <==> s.contains(x),
        distinct_in_order(s).len() <= s.len(),
    decreases s.len(),
{
    if s.len() > 0 {
        let init = s.drop_last();
        lemma_distinct_in_order(init);
        assert forall|x: Seq<char>| #[trigger] s.contains(x) <==> (init.contains(x) || x == s.last()) by {
            if s.contains(x) {
                let k = choose|k: int| 0 <= k < s.len() && s[k] == x;
                if k < s.len() - 1 {
                    assert(init[k] == x);
                }
            }
            if init.contains(x) {
                let k = choose|k: int| 0 <= k < init.len() && init[k] == x;
                assert(s[k] == x);
            }
            if x == s.last() {
                assert(s[s.len() - 1] == x);
            }
        }
        let prev = distinct_in_order(init);
        if !prev.contains(s.last()) {
            let d = prev.push(s.last());
            assert forall|x: Seq<char>| #[trigger] d.contains(x) <==> (prev.contains(x) || x == s.last()) by {
                if d.contains(x) {
                    let k = choose|k: int| 0 <= k < d.len() && d[k] == x;
                    if k < prev.len() {
                        assert(prev[k] == x);
                    }
                }
                if prev.contains(x) {
                    let k = choose|k: int| 0 <= k < prev.len() && prev[k] == x;
                    assert(d[k] == x);
                }
                if x == s.last() {
                    assert(d[d.len() - 1] == x);
                }
            }
        }
    }
}

/// Relies on `itertools::Itertools::unique`: it yields each distinct item
/// once, at the place of its first occurrence, comparing items by `Eq`.
#[verifier::external_body]
fn unique_strings(v: &Vec<String>) -> (r: Vec<String>)
    ensures
        views_of(r@) == distinct_in_order(views_of(v@)),
{
    v.iter().cloned().unique().collect()
}

/// Position of `key` in `names`, or `None` where it is absent.
pub fn position_of(names: &Vec<String>, key: &String) -> (r: Option<usize>)
    ensures
        match r {
            Some(i) => i < names.len() && names@[i as int]@ == key@ && forall|j: int|
                0 <= j < i ==> (#[trigger] names@[j])@ != key@,
            None => forall|j: int| 0 <= j < names.len() ==> (#[trigger] names@[j])@ != key@,
        },
{
    let mut i: usize = 0;
    while i < names.len()
        invariant
            i <= names.len(),
            forall|j: int| 0 <= j < i ==> (#[trigger] names@[j])@ != key@,
        decreases names.len() - i,
    {
        if names[i] == *key {
            return Some(i);
        }
        i = i + 1;
    }
    None
}

/// Distinct strings of `v` in order of first appearance.
pub fn distinct_strings(v: &Vec<String>) -> (r: Vec<String>)
    ensures
        views_of(r@) == distinct_in_order(views_of(v@)),
        views_of(r@).no_duplicates(),
        forall|x: Seq<char>| #[trigger] views_of(r@).contains(x) <==> views_of(v@).contains(x),
{
    let r = unique_strings(v);
    proof {
        lemma_distinct_in_order(views_of(v@));
    }
    r
}

/// A dense numbering of community names: the name at position `i` has id `i`.
pub struct CommunityIndex {
    names: Vec<String>,
}

impl View for CommunityIndex {
    type V = Seq<Seq<char>>;

    closed spec fn view(&self) -> Seq<Seq<char>> {
        views_of(self.names@)
    }
}

impl CommunityIndex {
    /// No two ids share a name.
    pub open spec fn wf(&self) -> bool {
        self@.no_duplicates()
    }

    /// Number of communities, which is one more than the largest id.
    pub fn len(&self) -> (r: usize)
        ensures
            r == self@.len(),
    {
        self.names.len()
    }

    /// The id of a community name, or `None` where it has none.
    pub fn id_of(&self, name: &String) -> (r: Option<usize>)
        requires
            self.wf(),
        ensures
            match r {
                Some(i) => i < self@.len() && self@[i as int] == name@,
                None => !self@.contains(name@),
            },
    {
        let r = position_of(&self.names, name);
        proof {
            if r.is_none() {
                assert forall|j: int| 0 <= j < self@.len() implies self@[j] != name@ by {
                    assert(self.names@[j]@ != name@);
                }
            }
        }
        r
    }

    /// The name that carries `id`.
    pub fn name_of(&self, id: usize) -> (r: &String)
        requires
            id < self@.len(),
        ensures
            r@ == self@[id as int],
    {
        &self.names[id]
    }

    /// The names, listed by id.
    pub fn names(&self) -> (r: &Vec<String>)
        ensures
            views_of(r@) == self@,
    {
        &self.names
    }
}

/// The community name of each record, in order.
pub fn community_names(records: &Vec<DataRecord>) -> (r: Vec<String>)
    ensures
        views_of(r@) == communities_of(records@),
{
    let mut subs: Vec<String> = Vec::new();
    let mut i: usize = 0;
    while i < records.len()
        invariant
            i <= records.len(),
            views_of(subs@) == communities_of(records@.subrange(0, i as int)),
        decreases records.len() - i,
    {
        subs.push(records[i].subreddit.clone());
        proof {
            assert(communities_of(records@.subrange(0, i as int + 1)) =~= communities_of(records@.subrange(0, i as int)).push(records@[i as int].subreddit@));
            assert(views_of(subs@) =~= communities_of(records@.subrange(0, i as int + 1)));
        }
        i = i + 1;
    }
    proof {
        assert(records@.subrange(0, records.len() as int) =~= records@);
    }
    subs
}

/// Numbers the distinct communities of `records` from zero, in order of first
/// appearance.
pub fn assign_sub_ids(records: &Vec<DataRecord>) -> (r: CommunityIndex)
    ensures
        r@ == distinct_in_order(communities_of(records@)),
        r.wf(),
        forall|x: Seq<char>| #[trigger] r@.contains(x) <==> communities_of(records@).contains(x),
{
    let subs = community_names(records);
    let names = distinct_strings(&subs);
    CommunityIndex { names }
}

} // verus!
