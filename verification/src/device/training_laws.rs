//! What the training analysis's sort and dedup give, said directly: the
//! sort orders by key, keeps every element, and keeps elements of equal key
//! in their input order; the dedup leaves no two equal neighbours and keeps
//! every element's value.
use vstd::prelude::*;
use vstd::seq_lib::*;
use crate::device::training::dedup;
use crate::device::training::key_le;
use crate::device::training::stable_sort_by;
use crate::search::first_where;
use crate::search::is_first_where;
use crate::search::lemma_first_where_some;
use crate::search::lemma_some_first;

verus! {

/// The elements whose key is `k`.
pub open spec fn has_key<T>(key: spec_fn(T) -> (u32, u32), k: (u32, u32)) -> spec_fn(T) -> bool {
    |x: T| key(x) == k
}

/// A sequence ordered by key.
pub open spec fn ordered_by<T>(s: Seq<T>, key: spec_fn(T) -> (u32, u32)) -> bool {
    forall|i: int, j: int| 0 <= i < j < s.len() ==> key_le(key(#[trigger] s[i]), key(#[trigger] s[j]))
}

proof fn lemma_first_where_none_all<A>(s: Seq<A>, p: spec_fn(A) -> bool)
    requires
        first_where(s, p) is None,
    ensures
        forall|j: int| 0 <= j < s.len() ==> !p(#[trigger] s[j]),
{
    assert forall|j: int| 0 <= j < s.len() implies !p(#[trigger] s[j]) by {
        if p(s[j]) {
            lemma_some_first(s, p, j);
        }
    }
}

proof fn lemma_filter_of_one<T>(x: T, p: spec_fn(T) -> bool)
    ensures
        seq![x].filter(p) == if p(x) { seq![x] } else { Seq::<T>::empty() },
{
    let e = Seq::<T>::empty();
    assert(e.filter(p) =~= e) by {
        reveal(Seq::filter);
    }
    e.lemma_filter_push(x, p);
    assert(e.push(x) =~= seq![x]);
}

proof fn lemma_sort_facts<T>(s: Seq<T>, key: spec_fn(T) -> (u32, u32))
    ensures
        ordered_by(stable_sort_by(s, key), key),
        stable_sort_by(s, key).to_multiset() == s.to_multiset(),
        forall|k: (u32, u32)| #[trigger] stable_sort_by(s, key).filter(has_key(key, k)) == s.filter(has_key(key, k)),
    decreases s.len(),
{
    broadcast use to_multiset_build, to_multiset_insert, Seq::filter_distributes_over_add, Seq::lemma_filter_push;

    if s.len() == 0 {
        assert(stable_sort_by(s, key) =~= s);
    } else {
        let rest = s.drop_last();
        let x = s.last();
        lemma_sort_facts(rest, key);
        let prev = stable_sort_by(rest, key);
        let pred = |y: T| !key_le(key(y), key(x));
        let p = match first_where(prev, pred) {
            Some(i) => i,
            None => prev.len() as int,
        };
        if first_where(prev, pred) is Some {
            lemma_first_where_some(prev, pred);
        } else {
            lemma_first_where_none_all(prev, pred);
        }
        assert(0 <= p <= prev.len());
        // Before p every key is at most x's; from p on every key is above x's.
        assert forall|j: int| 0 <= j < p implies key_le(key(#[trigger] prev[j]), key(x)) by {
            assert(!pred(prev[j]));
        }
        assert forall|j: int| p <= j < prev.len() implies !key_le(key(#[trigger] prev[j]), key(x)) by {
            assert(pred(prev[p]));
            if j > p {
                assert(key_le(key(prev[p]), key(prev[j])));
            }
        }
        let out = prev.insert(p, x);
        assert(out == stable_sort_by(s, key));
        assert(ordered_by(out, key)) by {
            assert forall|a: int, b: int| 0 <= a < b < out.len() implies key_le(key(#[trigger] out[a]), key(#[trigger] out[b])) by {
                if b < p {
                    assert(out[a] == prev[a] && out[b] == prev[b]);
                } else if b == p {
                    assert(out[a] == prev[a]);
                } else if a < p {
                    assert(out[a] == prev[a] && out[b] == prev[b - 1]);
                } else if a == p {
                    assert(out[b] == prev[b - 1]);
                } else {
                    assert(out[a] == prev[a - 1] && out[b] == prev[b - 1]);
                }
            }
        }
        assert(s =~= rest.push(x));
        assert(out.to_multiset() == s.to_multiset());
        let front = prev.subrange(0, p);
        let back = prev.subrange(p, prev.len() as int);
        assert(out =~= front + seq![x] + back);
        assert(prev =~= front + back);
        assert forall|k: (u32, u32)| #[trigger] out.filter(has_key(key, k)) == s.filter(has_key(key, k)) by {
            let hk = has_key(key, k);
            lemma_filter_of_one(x, hk);
            if key(x) == k {
                assert forall|j: int| 0 <= j < back.len() implies !hk(#[trigger] back[j]) by {
                    assert(back[j] == prev[p + j]);
                    assert(!key_le(key(prev[p + j]), key(x)));
                }
                back.lemma_all_neg_filter_empty(hk);
                assert(back.filter(hk) =~= Seq::<T>::empty());
            }
            let fx = front + seq![x];
            assert((fx + back).filter(hk) == fx.filter(hk) + back.filter(hk));
            assert(fx.filter(hk) == front.filter(hk) + seq![x].filter(hk));
            assert((front + back).filter(hk) == front.filter(hk) + back.filter(hk));
            assert(prev.filter(hk) == rest.filter(hk));
            assert(rest.push(x).filter(hk) == if hk(x) { rest.filter(hk).push(x) } else { rest.filter(hk) });
            if key(x) == k {
                assert(out.filter(hk) =~= front.filter(hk).push(x));
                assert(prev.filter(hk) =~= front.filter(hk));
            } else {
                assert(out.filter(hk) =~= front.filter(hk) + back.filter(hk));
            }
        }
    }
}

/// The training analysis's sort by key is a stable sort: its output is
/// ordered by key, holds exactly the input's elements (as a multiset), and
/// lists the elements of each key in their input order.
pub proof fn law_sort_is_stable<T>(s: Seq<T>, key: spec_fn(T) -> (u32, u32))
    ensures
        forall|i: int, j: int| 0 <= i < j < stable_sort_by(s, key).len() ==> key_le(
            key(#[trigger] stable_sort_by(s, key)[i]),
            key(#[trigger] stable_sort_by(s, key)[j]),
        ),
        stable_sort_by(s, key).to_multiset() == s.to_multiset(),
        forall|k: (u32, u32)| #[trigger] stable_sort_by(s, key).filter(has_key(key, k)) == s.filter(has_key(key, k)),
{
    lemma_sort_facts(s, key);
}

proof fn lemma_dedup_facts<T>(s: Seq<T>)
    ensures
        forall|i: int| 0 <= i < dedup(s).len() - 1 ==> #[trigger] dedup(s)[i] != dedup(s)[i + 1],
        forall|x: T| #[trigger] dedup(s).contains(x) <==> s.contains(x),
        s.len() > 0 ==> dedup(s).len() > 0 && dedup(s).last() == s.last(),
    decreases s.len(),
{
    if s.len() > 0 {
        let rest = s.drop_last();
        lemma_dedup_facts(rest);
        let d = dedup(rest);
        assert(s =~= rest.push(s.last()));
        if s.len() >= 2 && s.last() == s[s.len() - 2] {
            assert(rest.last() == s[s.len() - 2]);
            assert forall|x: T| #[trigger] dedup(s).contains(x) <==> s.contains(x) by {
                if s.contains(x) {
                    let i = choose|i: int| 0 <= i < s.len() && s[i] == x;
                    if i == s.len() - 1 {
                        assert(rest[rest.len() - 1] == x);
                    } else {
                        assert(rest[i] == x);
                    }
                }
                if rest.contains(x) {
                    let i = choose|i: int| 0 <= i < rest.len() && rest[i] == x;
                    assert(s[i] == x);
                }
            }
        } else {
            let out = d.push(s.last());
            assert(out == dedup(s));
            assert forall|i: int| 0 <= i < out.len() - 1 implies #[trigger] out[i] != out[i + 1] by {
                if i + 1 == out.len() - 1 {
                    assert(out[i] == d.last());
                    assert(d.last() == rest.last());
                    assert(rest.last() == s[s.len() - 2]);
                } else {
                    assert(out[i] == d[i] && out[i + 1] == d[i + 1]);
                }
            }
            assert forall|x: T| #[trigger] out.contains(x) <==> s.contains(x) by {
                if out.contains(x) {
                    let i = choose|i: int| 0 <= i < out.len() && out[i] == x;
                    if i < d.len() {
                        assert(d[i] == x);
                        assert(d.contains(x));
                        assert(rest.contains(x));
                        let j = choose|j: int| 0 <= j < rest.len() && rest[j] == x;
                        assert(s[j] == x);
                    } else {
                        assert(s[s.len() - 1] == x);
                    }
                }
                if s.contains(x) {
                    let i = choose|i: int| 0 <= i < s.len() && s[i] == x;
                    if i == s.len() - 1 {
                        assert(out[out.len() - 1] == x);
                    } else {
                        assert(rest[i] == x);
                        assert(rest.contains(x));
                        assert(d.contains(x));
                        let j = choose|j: int| 0 <= j < d.len() && d[j] == x;
                        assert(out[j] == x);
                    }
                }
            }
        }
    }
}

/// The training analysis's dedup leaves no two equal neighbours and keeps
/// exactly the values the input holds.
pub proof fn law_dedup_leaves_no_adjacent_repeats<T>(s: Seq<T>)
    ensures
        forall|i: int| 0 <= i < dedup(s).len() - 1 ==> #[trigger] dedup(s)[i] != dedup(s)[i + 1],
        forall|x: T| #[trigger] dedup(s).contains(x) <==> s.contains(x),
{
    lemma_dedup_facts(s);
}

} // verus!
