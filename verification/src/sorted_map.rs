//! A map keyed by `u64`, kept as an association list sorted by key, so that
//! its entries are walked in ascending key order.
use vstd::prelude::*;
use crate::search::first_where;
use crate::search::is_first_where;
use crate::search::lemma_first_where_is;
use crate::search::lemma_first_where_none;

verus! {

/// A map from `u64` keys to values, its entries strictly ascending by key.
#[derive(Debug)]
pub struct SortedMap<V> {
    pub entries: Vec<(u64, V)>,
}

/// The keys of a sequence of entries ascend strictly.
pub open spec fn ascending<V>(s: Seq<(u64, V)>) -> bool {
    forall|i: int, j: int| 0 <= i < j < s.len() ==> (#[trigger] s[i]).0 < (#[trigger] s[j]).0
}

/// Whether some entry has the key.
pub open spec fn has_key<V>(s: Seq<(u64, V)>, k: u64) -> bool {
    exists|i: int| 0 <= i < s.len() && (#[trigger] s[i]).0 == k
}

/// The map an entry sequence stands for.
pub open spec fn entries_map<V>(s: Seq<(u64, V)>) -> Map<u64, V> {
    Map::new(|k: u64| has_key(s, k), |k: u64| s[choose|i: int| 0 <= i < s.len() && (#[trigger] s[i]).0 == k].1)
}

/// In an ascending sequence, the entry with a key is the one the map gives.
pub proof fn lemma_entries_map_at<V>(s: Seq<(u64, V)>, i: int)
    requires
        ascending(s),
        0 <= i < s.len(),
    ensures
        entries_map(s).dom().contains(s[i].0),
        entries_map(s)[s[i].0] == s[i].1,
{
    let k = s[i].0;
    assert(has_key(s, k));
    let j = choose|j: int| 0 <= j < s.len() && (#[trigger] s[j]).0 == k;
    if j < i {
        assert(s[j].0 < s[i].0);
    } else if i < j {
        assert(s[i].0 < s[j].0);
    }
}

/// Where a key goes in an ascending sequence: before the first entry whose
/// key is not smaller.
pub open spec fn insert_position<V>(s: Seq<(u64, V)>, k: u64) -> int {
    match first_where(s, |e: (u64, V)| e.0 >= k) {
        Some(i) => i,
        None => s.len() as int,
    }
}

/// The ascending sequence with the key set to the value: the entry with the
/// key replaced in place, or a new entry inserted where the key goes.
pub open spec fn sorted_insert<V>(s: Seq<(u64, V)>, k: u64, v: V) -> Seq<(u64, V)> {
    let p = insert_position(s, k);
    if p < s.len() && s[p].0 == k {
        s.update(p, (k, v))
    } else {
        s.insert(p, (k, v))
    }
}

impl<V: Copy> SortedMap<V> {
    pub open spec fn wf(&self) -> bool {
        ascending(self.entries@)
    }

    pub open spec fn view(&self) -> Map<u64, V> {
        entries_map(self.entries@)
    }

    pub fn new() -> (m: Self)
        ensures
            m.wf(),
            m.entries@.len() == 0,
            m@ == Map::<u64, V>::empty(),
    {
        let m = SortedMap { entries: Vec::new() };
        assert(m@ =~= Map::<u64, V>::empty());
        m
    }

    /// The value of a key, if the map has it.
    pub fn get(&self, k: u64) -> (r: Option<V>)
        requires
            self.wf(),
        ensures
            r == (if self@.dom().contains(k) { Some(self@[k]) } else { None }),
    {
        let mut i: usize = 0;
        while i < self.entries.len()
            invariant
                i <= self.entries.len(),
                self.wf(),
                forall|j: int| 0 <= j < i ==> (#[trigger] self.entries@[j]).0 != k,
            decreases self.entries.len() - i,
        {
            let (key, v) = self.entries[i];
            if key == k {
                proof {
                    lemma_entries_map_at(self.entries@, i as int);
                }
                return Some(v);
            }
            i = i + 1;
        }
        None
    }

    /// Set the value of a key, replacing any value it had.
    pub fn insert(&mut self, k: u64, v: V)
        requires
            old(self).wf(),
        ensures
            final(self).wf(),
            final(self)@ == old(self)@.insert(k, v),
            final(self).entries@ == sorted_insert(old(self).entries@, k, v),
    {
        let ghost before = self.entries@;
        let mut p: usize = 0;
        while p < self.entries.len()
            invariant
                p <= self.entries.len(),
                self.entries@ == before,
                forall|j: int| 0 <= j < p ==> (#[trigger] self.entries@[j]).0 < k,
            ensures
                p <= self.entries.len(),
                self.entries@ == before,
                forall|j: int| 0 <= j < p ==> (#[trigger] self.entries@[j]).0 < k,
                p == self.entries.len() || self.entries@[p as int].0 >= k,
            decreases self.entries.len() - p,
        {
            if self.entries[p].0 >= k {
                break;
            }
            p = p + 1;
        }
        proof {
            let q = |e: (u64, V)| e.0 >= k;
            if p < before.len() {
                assert(is_first_where(before, q, p as int));
                lemma_first_where_is(before, q, p as int);
            } else {
                lemma_first_where_none(before, q);
            }
            assert(insert_position(before, k) == p);
        }
        if p < self.entries.len() && self.entries[p].0 == k {
            self.entries.set(p, (k, v));
            proof {
                assert forall|a: int, b: int| 0 <= a < b < self.entries@.len() implies (#[trigger] self.entries@[a]).0
                    < (#[trigger] self.entries@[b]).0 by {
                    assert(before[a].0 < before[b].0);
                }
                assert forall|x: u64| #[trigger] self@.dom().contains(x) == old(self)@.insert(k, v).dom().contains(x) by {
                    if has_key(before, x) {
                        let j = choose|j: int| 0 <= j < before.len() && (#[trigger] before[j]).0 == x;
                        assert(self.entries@[j].0 == x);
                    }
                    if has_key(self.entries@, x) {
                        let j = choose|j: int| 0 <= j < self.entries@.len() && (#[trigger] self.entries@[j]).0 == x;
                        assert(before[j].0 == x);
                    }
                }
                assert forall|x: u64| #[trigger] self@.dom().contains(x) implies self@[x] == old(self)@.insert(k, v)[x] by {
                    let j = choose|j: int| 0 <= j < self.entries@.len() && (#[trigger] self.entries@[j]).0 == x;
                    lemma_entries_map_at(self.entries@, j);
                    if x != k {
                        assert(before[j] == self.entries@[j]);
                        lemma_entries_map_at(before, j);
                    }
                }
                assert(self@ =~= old(self)@.insert(k, v));
            }
        } else {
            self.entries.insert(p, (k, v));
            proof {
                let after = self.entries@;
                assert(after[p as int] == (k, v));
                assert forall|a: int, b: int| 0 <= a < b < after.len() implies (#[trigger] after[a]).0
                    < (#[trigger] after[b]).0 by {
                    if b < p {
                        assert(after[a] == before[a] && after[b] == before[b]);
                    } else if b == p {
                        assert(after[a] == before[a]);
                    } else if a < p {
                        assert(after[a] == before[a] && after[b] == before[b - 1]);
                    } else if a == p {
                        assert(after[b] == before[b - 1]);
                        if b - 1 > p {
                            assert(before[p as int].0 < before[b - 1].0);
                        }
                    } else {
                        assert(after[a] == before[a - 1] && after[b] == before[b - 1]);
                    }
                }
                assert forall|x: u64| #[trigger] self@.dom().contains(x) == old(self)@.insert(k, v).dom().contains(x) by {
                    if has_key(before, x) {
                        let j = choose|j: int| 0 <= j < before.len() && (#[trigger] before[j]).0 == x;
                        if j < p {
                            assert(after[j] == before[j]);
                        } else {
                            assert(after[j + 1] == before[j]);
                        }
                    }
                    if x == k {
                        assert(after[p as int].0 == x);
                    }
                    if has_key(after, x) && x != k {
                        let j = choose|j: int| 0 <= j < after.len() && (#[trigger] after[j]).0 == x;
                        if j < p {
                            assert(before[j] == after[j]);
                        } else {
                            assert(j != p);
                            assert(before[j - 1] == after[j]);
                        }
                    }
                }
                assert forall|x: u64| #[trigger] self@.dom().contains(x) implies self@[x] == old(self)@.insert(k, v)[x] by {
                    let j = choose|j: int| 0 <= j < after.len() && (#[trigger] after[j]).0 == x;
                    lemma_entries_map_at(after, j);
                    if x != k {
                        if j < p {
                            assert(before[j] == after[j]);
                            lemma_entries_map_at(before, j);
                        } else {
                            assert(before[j - 1] == after[j]);
                            lemma_entries_map_at(before, j - 1);
                        }
                    }
                }
                assert(self@ =~= old(self)@.insert(k, v));
            }
        }
    }
}

} // verus!
