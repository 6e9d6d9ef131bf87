//! The "first element satisfying a predicate" specification shared by the
//! library's searches.
use vstd::prelude::*;

verus! {

/// `i` is the first index of `s` whose element satisfies `p`.
pub open spec fn is_first_where<A>(s: Seq<A>, p: spec_fn(A) -> bool, i: int) -> bool {
    &&& 0 <= i < s.len()
    &&& p(s[i])
    &&& forall|j: int| 0 <= j < i ==> !p(#[trigger] s[j])
}

/// The first index of `s` whose element satisfies `p`, if any.
pub open spec fn first_where<A>(s: Seq<A>, p: spec_fn(A) -> bool) -> Option<int> {
    if exists|i: int| is_first_where(s, p, i) {
        Some(choose|i: int| is_first_where(s, p, i))
    } else {
        None
    }
}

pub proof fn lemma_first_where_is<A>(s: Seq<A>, p: spec_fn(A) -> bool, i: int)
    requires
        is_first_where(s, p, i),
    ensures
        first_where(s, p) == Some(i),
{
    let k = choose|k: int| is_first_where(s, p, k);
    assert(is_first_where(s, p, k));
    if k < i {
        assert(!p(s[k]));
    } else if i < k {
        assert(!p(s[i]));
    }
}

pub proof fn lemma_first_where_none<A>(s: Seq<A>, p: spec_fn(A) -> bool)
    requires
        forall|j: int| 0 <= j < s.len() ==> !p(#[trigger] s[j]),
    ensures
        first_where(s, p) is None,
{
    if exists|i: int| is_first_where(s, p, i) {
        let k = choose|k: int| is_first_where(s, p, k);
        assert(p(s[k]));
    }
}

/// When some element satisfies `p`, the first one is the first index.
pub proof fn lemma_first_where_some<A>(s: Seq<A>, p: spec_fn(A) -> bool)
    requires
        first_where(s, p) is Some,
    ensures
        is_first_where(s, p, first_where(s, p)->0),
{
}

} // verus!

verus! {

/// `i` is the first index below `n` satisfying `p`.
pub open spec fn is_first_index(n: int, p: spec_fn(int) -> bool, i: int) -> bool {
    &&& 0 <= i < n
    &&& p(i)
    &&& forall|j: int| 0 <= j < i ==> !#[trigger] p(j)
}

/// The first index below `n` satisfying `p`, if any.
pub open spec fn first_index(n: int, p: spec_fn(int) -> bool) -> Option<int> {
    if exists|i: int| is_first_index(n, p, i) {
        Some(choose|i: int| is_first_index(n, p, i))
    } else {
        None
    }
}

pub proof fn lemma_first_index_is(n: int, p: spec_fn(int) -> bool, i: int)
    requires
        is_first_index(n, p, i),
    ensures
        first_index(n, p) == Some(i),
{
    let k = choose|k: int| is_first_index(n, p, k);
    assert(is_first_index(n, p, k));
    if k < i {
        assert(!p(k));
    } else if i < k {
        assert(!p(i));
    }
}

pub proof fn lemma_first_index_none(n: int, p: spec_fn(int) -> bool)
    requires
        forall|j: int| 0 <= j < n ==> !#[trigger] p(j),
    ensures
        first_index(n, p) is None,
{
    if exists|i: int| is_first_index(n, p, i) {
        let k = choose|k: int| is_first_index(n, p, k);
        assert(p(k));
    }
}

/// When some index satisfies `p`, the first one is the first index.
pub proof fn lemma_first_index_some(n: int, p: spec_fn(int) -> bool)
    requires
        first_index(n, p) is Some,
    ensures
        is_first_index(n, p, first_index(n, p)->0),
{
}

/// The number of indices below `m` whose predicate holds.
pub open spec fn count_upto(f: spec_fn(int) -> bool, m: int) -> nat
    decreases m,
{
    if m <= 0 {
        0
    } else {
        count_upto(f, m - 1) + if f(m - 1) { 1nat } else { 0nat }
    }
}

pub proof fn lemma_count_bound(f: spec_fn(int) -> bool, m: int)
    requires
        0 <= m,
    ensures
        count_upto(f, m) <= m,
    decreases m,
{
    if m > 0 {
        lemma_count_bound(f, m - 1);
    }
}

pub proof fn lemma_count_same(f: spec_fn(int) -> bool, g: spec_fn(int) -> bool, m: int)
    requires
        forall|k: int| 0 <= k < m ==> #[trigger] f(k) == g(k),
    ensures
        count_upto(f, m) == count_upto(g, m),
    decreases m,
{
    if m > 0 {
        lemma_count_same(f, g, m - 1);
    }
}

pub proof fn lemma_count_all(f: spec_fn(int) -> bool, m: int)
    requires
        0 <= m,
        forall|k: int| 0 <= k < m ==> #[trigger] f(k),
    ensures
        count_upto(f, m) == m,
    decreases m,
{
    if m > 0 {
        lemma_count_all(f, m - 1);
    }
}

/// Turning off the predicate at one index lowers the count by one.
pub proof fn lemma_count_drop(f: spec_fn(int) -> bool, g: spec_fn(int) -> bool, k0: int, m: int)
    requires
        0 <= k0 < m,
        f(k0),
        !g(k0),
        forall|k: int| 0 <= k < m && k != k0 ==> #[trigger] f(k) == g(k),
    ensures
        count_upto(g, m) + 1 == count_upto(f, m),
    decreases m,
{
    if m - 1 == k0 {
        lemma_count_same(f, g, m - 1);
    } else {
        lemma_count_drop(f, g, k0, m - 1);
    }
}

pub proof fn lemma_count_positive(f: spec_fn(int) -> bool, m: int)
    requires
        count_upto(f, m) > 0,
    ensures
        exists|k: int| 0 <= k < m && #[trigger] f(k),
    decreases m,
{
    if m > 0 && !f(m - 1) {
        lemma_count_positive(f, m - 1);
    }
}

pub proof fn lemma_count_zero(f: spec_fn(int) -> bool, m: int)
    requires
        count_upto(f, m) == 0,
    ensures
        forall|k: int| 0 <= k < m ==> !#[trigger] f(k),
    decreases m,
{
    if m > 0 {
        lemma_count_zero(f, m - 1);
    }
}

/// The first index satisfying `p` after one more element.
pub proof fn lemma_first_where_push<A>(s: Seq<A>, x: A, p: spec_fn(A) -> bool)
    ensures
        first_where(s.push(x), p) == match first_where(s, p) {
            Some(i) => Some(i),
            None => if p(x) {
                Some(s.len() as int)
            } else {
                None
            },
        },
{
    let t = s.push(x);
    match first_where(s, p) {
        Some(i) => {
            lemma_first_where_some(s, p);
            assert(is_first_where(t, p, i)) by {
                assert(t[i] == s[i]);
                assert forall|j: int| 0 <= j < i implies !p(#[trigger] t[j]) by {
                    assert(t[j] == s[j]);
                    assert(!p(s[j]));
                }
            }
            lemma_first_where_is(t, p, i);
        },
        None => {
            assert forall|j: int| 0 <= j < s.len() implies !p(#[trigger] s[j]) by {
                if p(s[j]) {
                    assert(exists|k: int| is_first_where(s, p, k)) by {
                        lemma_some_first(s, p, j);
                    }
                }
            }
            if p(x) {
                assert(is_first_where(t, p, s.len() as int)) by {
                    assert forall|j: int| 0 <= j < s.len() implies !p(#[trigger] t[j]) by {
                        assert(t[j] == s[j]);
                    }
                }
                lemma_first_where_is(t, p, s.len() as int);
            } else {
                assert forall|j: int| 0 <= j < t.len() implies !p(#[trigger] t[j]) by {
                    if j < s.len() {
                        assert(t[j] == s[j]);
                    }
                }
                lemma_first_where_none(t, p);
            }
        },
    }
}

/// An element satisfying `p` means a first such element exists.
pub proof fn lemma_some_first<A>(s: Seq<A>, p: spec_fn(A) -> bool, j: int)
    requires
        0 <= j < s.len(),
        p(s[j]),
    ensures
        exists|k: int| is_first_where(s, p, k),
    decreases j,
{
    if forall|m: int| 0 <= m < j ==> !p(#[trigger] s[m]) {
        assert(is_first_where(s, p, j));
    } else {
        let m = choose|m: int| 0 <= m < j && p(#[trigger] s[m]);
        lemma_some_first(s, p, m);
    }
}

} // verus!

verus! {

/// An index satisfying `p` means a first such index exists.
pub proof fn lemma_some_first_index(n: int, p: spec_fn(int) -> bool, j: int)
    requires
        0 <= j < n,
        p(j),
    ensures
        first_index(n, p) is Some,
    decreases j,
{
    if forall|m: int| 0 <= m < j ==> !#[trigger] p(m) {
        lemma_first_index_is(n, p, j);
    } else {
        let m = choose|m: int| 0 <= m < j && #[trigger] p(m);
        lemma_some_first_index(n, p, m);
    }
}

} // verus!
