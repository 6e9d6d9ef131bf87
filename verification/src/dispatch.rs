//! Host-provider dispatch for a package's routes: which providers a route
//! set selects, which routes the builtin runtime dispatch covers, and the
//! admission of the selected providers' manifests against the routes.
use vstd::prelude::*;
use crate::naming::owned;
use crate::naming::str_chars;
use crate::naming::string_from_chars;
use crate::naming::text_eq;
use crate::search::first_index;
use crate::search::first_where;
use crate::search::is_first_index;
use crate::search::lemma_first_index_is;
use crate::search::lemma_first_index_none;
use crate::search::lemma_first_index_some;
use crate::search::lemma_first_where_is;
use crate::search::lemma_first_where_none;

verus! {

broadcast use vstd::string::group_string_axioms;

// ---------------------------------------------------------------------------
// Ordered string sets
// ---------------------------------------------------------------------------

/// Strict lexicographic order on texts by code point (the order of their
/// UTF-8 bytes).
pub open spec fn text_less(a: Seq<char>, b: Seq<char>) -> bool
    decreases a.len(),
{
    if a.len() == 0 {
        b.len() > 0
    } else if b.len() == 0 {
        false
    } else if a[0] != b[0] {
        (a[0] as int) < (b[0] as int)
    } else {
        text_less(a.drop_first(), b.drop_first())
    }
}

pub proof fn lemma_text_less_irreflexive(a: Seq<char>)
    ensures
        !text_less(a, a),
    decreases a.len(),
{
    if a.len() > 0 {
        lemma_text_less_irreflexive(a.drop_first());
    }
}

pub proof fn lemma_text_less_transitive(a: Seq<char>, b: Seq<char>, c: Seq<char>)
    requires
        text_less(a, b),
        text_less(b, c),
    ensures
        text_less(a, c),
    decreases a.len(),
{
    if a.len() > 0 && b.len() > 0 && c.len() > 0 && a[0] == b[0] && b[0] == c[0] {
        lemma_text_less_transitive(a.drop_first(), b.drop_first(), c.drop_first());
    }
}

pub proof fn lemma_text_less_total(a: Seq<char>, b: Seq<char>)
    ensures
        a == b || text_less(a, b) || text_less(b, a),
    decreases a.len(),
{
    if a.len() > 0 && b.len() > 0 && a[0] == b[0] {
        lemma_text_less_total(a.drop_first(), b.drop_first());
        if a.drop_first() == b.drop_first() {
            assert(a =~= seq![a[0]] + a.drop_first());
            assert(b =~= seq![b[0]] + b.drop_first());
        }
    } else if a.len() == 0 && b.len() == 0 {
        assert(a =~= b);
    }
}

/// Whether `a` comes strictly before `b`.
pub fn less_text(a: &str, b: &str) -> (r: bool)
    ensures
        r == text_less(a@, b@),
{
    let x = str_chars(a);
    let y = str_chars(b);
    let mut i: usize = 0;
    assert(x@.skip(0) =~= x@);
    assert(y@.skip(0) =~= y@);
    while i < x.len() && i < y.len()
        invariant
            i <= x.len(),
            i <= y.len(),
            x@ == a@,
            y@ == b@,
            forall|k: int| 0 <= k < i ==> x@[k] == y@[k],
            text_less(a@, b@) == text_less(x@.skip(i as int), y@.skip(i as int)),
        decreases x.len() - i,
    {
        if x[i] != y[i] {
            proof {
                assert(x@.skip(i as int)[0] == x@[i as int]);
                assert(y@.skip(i as int)[0] == y@[i as int]);
            }
            return x[i] < y[i];
        }
        proof {
            assert(x@.skip(i as int).drop_first() =~= x@.skip(i + 1));
            assert(y@.skip(i as int).drop_first() =~= y@.skip(i + 1));
        }
        i = i + 1;
    }
    i == x.len() && i < y.len()
}

/// A set of texts, kept strictly ascending.
#[derive(Debug)]
pub struct TextSet {
    pub items: Vec<String>,
}

pub open spec fn ascending_texts(s: Seq<String>) -> bool {
    forall|i: int, j: int| 0 <= i < j < s.len() ==> text_less((#[trigger] s[i])@, (#[trigger] s[j])@)
}

/// The texts of a list.
pub open spec fn texts_of(s: Seq<String>) -> Set<Seq<char>> {
    Set::new(|t: Seq<char>| exists|i: int| 0 <= i < s.len() && (#[trigger] s[i])@ == t)
}

impl TextSet {
    pub open spec fn wf(&self) -> bool {
        ascending_texts(self.items@)
    }

    pub open spec fn view(&self) -> Set<Seq<char>> {
        texts_of(self.items@)
    }

    pub fn new() -> (s: Self)
        ensures
            s.wf(),
            s@ == Set::<Seq<char>>::empty(),
    {
        let s = TextSet { items: Vec::new() };
        assert(s@ =~= Set::<Seq<char>>::empty());
        s
    }

    /// Whether the set holds the text.
    pub fn contains(&self, t: &str) -> (r: bool)
        ensures
            r == self@.contains(t@),
    {
        let mut i: usize = 0;
        while i < self.items.len()
            invariant
                i <= self.items.len(),
                forall|k: int| 0 <= k < i ==> (#[trigger] self.items@[k])@ != t@,
            decreases self.items.len() - i,
        {
            if text_eq(self.items[i].as_str(), t) {
                return true;
            }
            i = i + 1;
        }
        false
    }

    /// Add a text; returns whether it was new.
    pub fn insert(&mut self, t: String) -> (fresh: bool)
        requires
            old(self).wf(),
        ensures
            final(self).wf(),
            final(self)@ == old(self)@.insert(t@),
            fresh == !old(self)@.contains(t@),
    {
        let ghost before = self.items@;
        let mut p: usize = 0;
        while p < self.items.len()
            invariant
                p <= self.items.len(),
                self.items@ == before,
                ascending_texts(before),
                forall|k: int| 0 <= k < p ==> text_less((#[trigger] before[k])@, t@),
            ensures
                p <= self.items.len(),
                self.items@ == before,
                forall|k: int| 0 <= k < p ==> text_less((#[trigger] before[k])@, t@),
                p == self.items.len() || !text_less(before[p as int]@, t@),
            decreases self.items.len() - p,
        {
            if !less_text(self.items[p].as_str(), t.as_str()) {
                break;
            }
            p = p + 1;
        }
        if p < self.items.len() && text_eq(self.items[p].as_str(), t.as_str()) {
            proof {
                assert(texts_of(before).insert(t@) =~= texts_of(before));
            }
            return false;
        }
        proof {
            if p < before.len() {
                lemma_text_less_total(before[p as int]@, t@);
            }
            assert forall|k: int| 0 <= k < before.len() implies (#[trigger] before[k])@ != t@ by {
                if k < p {
                    lemma_text_less_irreflexive(t@);
                } else if k > p {
                    assert(text_less(before[p as int]@, before[k]@));
                    lemma_text_less_transitive(t@, before[p as int]@, before[k]@);
                    lemma_text_less_irreflexive(t@);
                }
            }
        }
        self.items.insert(p, t);
        proof {
            let after = self.items@;
            assert forall|i: int, j: int| 0 <= i < j < after.len() implies text_less((#[trigger] after[i])@, (#[trigger] after[j])@) by {
                if j < p {
                    assert(after[i] == before[i] && after[j] == before[j]);
                } else if j == p {
                    assert(after[i] == before[i]);
                } else if i < p {
                    assert(after[i] == before[i] && after[j] == before[j - 1]);
                } else if i == p {
                    assert(after[j] == before[j - 1]);
                    if j - 1 > p {
                        assert(text_less(before[p as int]@, before[j - 1]@));
                        lemma_text_less_transitive(after[i]@, before[p as int]@, before[j - 1]@);
                    }
                } else {
                    assert(after[i] == before[i - 1] && after[j] == before[j - 1]);
                }
            }
            assert forall|x: Seq<char>| #[trigger] texts_of(after).contains(x) == texts_of(before).insert(after[p as int]@).contains(x) by {
                if texts_of(before).contains(x) {
                    let k = choose|k: int| 0 <= k < before.len() && (#[trigger] before[k])@ == x;
                    if k < p {
                        assert(after[k] == before[k]);
                    } else {
                        assert(after[k + 1] == before[k]);
                    }
                }
                if texts_of(after).contains(x) {
                    let k = choose|k: int| 0 <= k < after.len() && (#[trigger] after[k])@ == x;
                    if k < p {
                        assert(after[k] == before[k]);
                    } else if k > p {
                        assert(after[k] == before[k - 1]);
                    }
                }
                if x == after[p as int]@ {
                    assert(texts_of(after).contains(x));
                }
            }
            assert(texts_of(after) =~= texts_of(before).insert(after[p as int]@));
        }
        true
    }
}

// ---------------------------------------------------------------------------
// Providers and builtin routes
// ---------------------------------------------------------------------------

/// The provider a route names: its text before the first `:` or `/`.
pub open spec fn provider_of(route: Seq<char>) -> Seq<char> {
    match first_where(route, |c: char| c == ':' || c == '/') {
        Some(i) => route.take(i),
        None => route,
    }
}

pub fn route_provider(route: &str) -> (p: String)
    ensures
        p@ == provider_of(route@),
{
    let chars = str_chars(route);
    let ghost q = |c: char| c == ':' || c == '/';
    let mut i: usize = 0;
    while i < chars.len()
        invariant
            i <= chars.len(),
            chars@ == route@,
            q == (|c: char| c == ':' || c == '/'),
            forall|j: int| 0 <= j < i ==> !q(#[trigger] chars@[j]),
        decreases chars.len() - i,
    {
        if chars[i] == ':' || chars[i] == '/' {
            proof {
                lemma_first_where_is(chars@, q, i as int);
            }
            let p = string_from_chars(&chars, 0, i);
            assert(chars@.subrange(0, i as int) =~= chars@.take(i as int));
            return p;
        }
        i = i + 1;
    }
    proof {
        lemma_first_where_none(chars@, q);
    }
    let p = string_from_chars(&chars, 0, chars.len());
    assert(chars@.subrange(0, chars@.len() as int) =~= chars@);
    p
}

/// The host providers a route set selects: the explicit ones and the
/// non-empty provider of every route.
pub open spec fn selected_providers(routes: Set<Seq<char>>, explicit: Seq<String>) -> Set<Seq<char>> {
    texts_of(explicit).union(Set::new(|p: Seq<char>| p.len() > 0 && exists|r: Seq<char>| routes.contains(r) && provider_of(r) == p))
}

/// The host providers a route set selects (see [`selected_providers`]).
pub fn selected_providers_for_routes(routes: &TextSet, explicit: &Vec<String>) -> (out: TextSet)
    ensures
        out.wf(),
        out@ == selected_providers(routes@, explicit@),
{
    let mut out = TextSet::new();
    let mut i: usize = 0;
    while i < explicit.len()
        invariant
            i <= explicit.len(),
            out.wf(),
            out@ == texts_of(explicit@.take(i as int)),
        decreases explicit.len() - i,
    {
        out.insert(explicit[i].clone());
        proof {
            assert forall|t: Seq<char>| #[trigger] out@.contains(t) == texts_of(explicit@.take(i + 1)).contains(t) by {
                if texts_of(explicit@.take(i + 1)).contains(t) {
                    let k = choose|k: int| 0 <= k < i + 1 && (#[trigger] explicit@.take(i + 1)[k])@ == t;
                    if k < i {
                        assert(explicit@.take(i as int)[k] == explicit@.take(i + 1)[k]);
                    }
                }
                if texts_of(explicit@.take(i as int)).contains(t) {
                    let k = choose|k: int| 0 <= k < i && (#[trigger] explicit@.take(i as int)[k])@ == t;
                    assert(explicit@.take(i + 1)[k] == explicit@.take(i as int)[k]);
                }
                if t == explicit@[i as int]@ {
                    assert(explicit@.take(i + 1)[i as int] == explicit@[i as int]);
                }
            }
            assert(out@ =~= texts_of(explicit@.take(i + 1)));
        }
        i = i + 1;
    }
    assert(explicit@.take(explicit@.len() as int) =~= explicit@);
    let ghost routed = |n: int| Set::new(|p: Seq<char>| p.len() > 0 && exists|k: int| 0 <= k < n && provider_of(
        #[trigger] routes.items@[k]@) == p);
    let mut k: usize = 0;
    while k < routes.items.len()
        invariant
            k <= routes.items.len(),
            out.wf(),
            routed == (|n: int| Set::new(|p: Seq<char>| p.len() > 0 && exists|k2: int| 0 <= k2 < n && provider_of(
                #[trigger] routes.items@[k2]@) == p)),
            out@ == texts_of(explicit@).union(routed(k as int)),
        decreases routes.items.len() - k,
    {
        let p = route_provider(routes.items[k].as_str());
        if p.as_str().unicode_len() > 0 {
            out.insert(p);
        }
        proof {
            assert forall|t: Seq<char>| #[trigger] routed(k + 1).contains(t) == (routed(k as int).contains(t) || (t
                == provider_of(routes.items@[k as int]@) && t.len() > 0)) by {
                if routed(k + 1).contains(t) {
                    let k2 = choose|k2: int| 0 <= k2 < k + 1 && provider_of(#[trigger] routes.items@[k2]@) == t;
                }
            }
            assert(out@ =~= texts_of(explicit@).union(routed(k + 1)));
        }
        k = k + 1;
    }
    proof {
        assert forall|t: Seq<char>| #[trigger] routed(routes.items@.len() as int).contains(t) == (t.len() > 0 && exists|r: Seq<char>|
            routes@.contains(r) && provider_of(r) == t) by {
            if t.len() > 0 && exists|r: Seq<char>| routes@.contains(r) && provider_of(r) == t {
                let r = choose|r: Seq<char>| routes@.contains(r) && provider_of(r) == t;
                let k2 = choose|k2: int| 0 <= k2 < routes.items@.len() && (#[trigger] routes.items@[k2])@ == r;
            }
        }
        assert(out@ =~= selected_providers(routes@, explicit@));
    }
    out
}

/// The routes the builtin runtime dispatch covers: they need no native host.
pub open spec fn builtin_route(route: Seq<char>) -> bool {
    route == "runtime:echo"@
        || route == "tempus:nunc"@
        || route == "tempus:monotonicum"@
        || route == "tempus:activum"@
        || route == "tempus:dormiet"@
        || route == "tempus:expectet"@
        || route == "solum:scribe"@
        || route == "solum:scribet"@
        || route == "solum:appone"@
        || route == "solum:apponet"@
        || route == "solum:funde"@
        || route == "solum:dele"@
        || route == "solum:delet"@
        || route == "solum:parens"@
        || route == "solum:nomen"@
        || route == "solum:suffixum"@
        || route == "solum:iunge"@
        || route == "solum:absolve"@
        || route == "solum:temporarium"@
        || route == "solum:domus"@
        || route == "solum:partem"@
        || route == "processus:exsequi"@
        || route == "processus:exsequetur"@
        || route == "processus:captura"@
        || route == "processus:dimitte"@
        || route == "processus:lege"@
        || route == "processus:scribe"@
        || route == "processus:sedes"@
        || route == "processus:muta"@
        || route == "processus:identitas"@
        || route == "processus:argumenta"@
        || route == "processus:exi"@
        || route == "consolum:dic"@
        || route == "consolum:dicet"@
        || route == "consolum:scribe"@
        || route == "consolum:scribet"@
        || route == "consolum:mone"@
        || route == "consolum:monet"@
        || route == "consolum:vide"@
        || route == "consolum:videbit"@
        || route == "consolum:lege"@
        || route == "consolum:leget"@
        || route == "consolum:hauri"@
        || route == "consolum:hauriet"@
        || route == "consolum:funde"@
        || route == "consolum:audit"@
        || route == "consolum:loquitur"@
        || route == "consolum:admonet"@
        || route == "solum:lege"@
        || route == "solum:hauri"@
        || route == "solum:hauriet"@
        || route == "solum:carpe"@
        || route == "solum:carpiet"@
        || route == "solum:mensura"@
        || route == "solum:inveni"@
        || route == "solum:crea"@
        || route == "solum:creabit"@
        || route == "solum:enumera"@
        || route == "solum:enumerabit"@
        || route == "solum:amputa"@
        || route == "solum:amputabit"@
        || route == "solum:exscribe"@
        || route == "solum:exscribet"@
        || route == "solum:renomina"@
        || route == "solum:renominabit"@
        || route == "solum:tange"@
        || route == "solum:tanget"@
        || route == "solum:sequere"@
        || route == "solum:sequetur"@
        || route == "solum:vincula"@
        || route == "solum:modum"@
        || route == "solum:modus"@
        || route == "solum:exstat"@
        || route == "solum:exstabit"@
        || route == "solum:directoriumne"@
        || route == "solum:regularene"@
        || route == "solum:legibilene"@
        || route == "solum:vinculumne"@
        || route == "aleator:fractum"@
        || route == "aleator:sortire"@
        || route == "aleator:octetos"@
        || route == "aleator:uuid"@
        || route == "aleator:semina"@
}

/// The routes the runtime's builtin dispatch covers, listed.
pub open spec fn runtime_builtin_routes() -> Set<Seq<char>> {
    set![
        "runtime:echo"@,
        "tempus:nunc"@,
        "tempus:monotonicum"@,
        "tempus:activum"@,
        "tempus:dormiet"@,
        "tempus:expectet"@,
        "solum:scribe"@,
        "solum:scribet"@,
        "solum:appone"@,
        "solum:apponet"@,
        "solum:funde"@,
        "solum:dele"@,
        "solum:delet"@,
        "solum:parens"@,
        "solum:nomen"@,
        "solum:suffixum"@,
        "solum:iunge"@,
        "solum:absolve"@,
        "solum:temporarium"@,
        "solum:domus"@,
        "solum:partem"@,
        "processus:exsequi"@,
        "processus:exsequetur"@,
        "processus:captura"@,
        "processus:dimitte"@,
        "processus:lege"@,
        "processus:scribe"@,
        "processus:sedes"@,
        "processus:muta"@,
        "processus:identitas"@,
        "processus:argumenta"@,
        "processus:exi"@,
        "consolum:dic"@,
        "consolum:dicet"@,
        "consolum:scribe"@,
        "consolum:scribet"@,
        "consolum:mone"@,
        "consolum:monet"@,
        "consolum:vide"@,
        "consolum:videbit"@,
        "consolum:lege"@,
        "consolum:leget"@,
        "consolum:hauri"@,
        "consolum:hauriet"@,
        "consolum:funde"@,
        "consolum:audit"@,
        "consolum:loquitur"@,
        "consolum:admonet"@,
        "solum:lege"@,
        "solum:hauri"@,
        "solum:hauriet"@,
        "solum:carpe"@,
        "solum:carpiet"@,
        "solum:mensura"@,
        "solum:inveni"@,
        "solum:crea"@,
        "solum:creabit"@,
        "solum:enumera"@,
        "solum:enumerabit"@,
        "solum:amputa"@,
        "solum:amputabit"@,
        "solum:exscribe"@,
        "solum:exscribet"@,
        "solum:renomina"@,
        "solum:renominabit"@,
        "solum:tange"@,
        "solum:tanget"@,
        "solum:sequere"@,
        "solum:sequetur"@,
        "solum:vincula"@,
        "solum:modum"@,
        "solum:modus"@,
        "solum:exstat"@,
        "solum:exstabit"@,
        "solum:directoriumne"@,
        "solum:regularene"@,
        "solum:legibilene"@,
        "solum:vinculumne"@,
        "aleator:fractum"@,
        "aleator:sortire"@,
        "aleator:octetos"@,
        "aleator:uuid"@,
        "aleator:semina"@,
    ]
}

/// The builtin routes are exactly the listed runtime routes: every
/// `runtime:`, `tempus:`, `solum:`, `processus:`, `consolum:` and `aleator:`
/// route of the runtime's builtin dispatch, and nothing else, needs no
/// native host; a route needs one exactly when it is not on the list.
pub proof fn law_builtin_routes_are_the_runtime_list(route: Seq<char>, routes: Seq<Seq<char>>)
    ensures
        builtin_route(route) <==> runtime_builtin_routes().contains(route),
        routes.filter(|r: Seq<char>| !builtin_route(r)).contains(route)
            <==> routes.contains(route) && !runtime_builtin_routes().contains(route),
{
    let f = |r: Seq<char>| !builtin_route(r);
    let fl = routes.filter(f);
    if routes.contains(route) && f(route) {
        let i = choose|i: int| 0 <= i < routes.len() && routes[i] == route;
        routes.lemma_filter_contains(f, i);
    }
    if fl.contains(route) {
        routes.lemma_filter_contains_rev(f, route);
        let j = choose|j: int| 0 <= j < fl.len() && fl[j] == route;
        routes.lemma_filter_pred(f, j);
    }
}

/// Whether the builtin runtime dispatch covers a route.
pub fn is_builtin_ad_route(route: &str) -> (r: bool)
    ensures
        r == builtin_route(route@),
{
    text_eq(route, "runtime:echo")
        || text_eq(route, "tempus:nunc")
        || text_eq(route, "tempus:monotonicum")
        || text_eq(route, "tempus:activum")
        || text_eq(route, "tempus:dormiet")
        || text_eq(route, "tempus:expectet")
        || text_eq(route, "solum:scribe")
        || text_eq(route, "solum:scribet")
        || text_eq(route, "solum:appone")
        || text_eq(route, "solum:apponet")
        || text_eq(route, "solum:funde")
        || text_eq(route, "solum:dele")
        || text_eq(route, "solum:delet")
        || text_eq(route, "solum:parens")
        || text_eq(route, "solum:nomen")
        || text_eq(route, "solum:suffixum")
        || text_eq(route, "solum:iunge")
        || text_eq(route, "solum:absolve")
        || text_eq(route, "solum:temporarium")
        || text_eq(route, "solum:domus")
        || text_eq(route, "solum:partem")
        || text_eq(route, "processus:exsequi")
        || text_eq(route, "processus:exsequetur")
        || text_eq(route, "processus:captura")
        || text_eq(route, "processus:dimitte")
        || text_eq(route, "processus:lege")
        || text_eq(route, "processus:scribe")
        || text_eq(route, "processus:sedes")
        || text_eq(route, "processus:muta")
        || text_eq(route, "processus:identitas")
        || text_eq(route, "processus:argumenta")
        || text_eq(route, "processus:exi")
        || text_eq(route, "consolum:dic")
        || text_eq(route, "consolum:dicet")
        || text_eq(route, "consolum:scribe")
        || text_eq(route, "consolum:scribet")
        || text_eq(route, "consolum:mone")
        || text_eq(route, "consolum:monet")
        || text_eq(route, "consolum:vide")
        || text_eq(route, "consolum:videbit")
        || text_eq(route, "consolum:lege")
        || text_eq(route, "consolum:leget")
        || text_eq(route, "consolum:hauri")
        || text_eq(route, "consolum:hauriet")
        || text_eq(route, "consolum:funde")
        || text_eq(route, "consolum:audit")
        || text_eq(route, "consolum:loquitur")
        || text_eq(route, "consolum:admonet")
        || text_eq(route, "solum:lege")
        || text_eq(route, "solum:hauri")
        || text_eq(route, "solum:hauriet")
        || text_eq(route, "solum:carpe")
        || text_eq(route, "solum:carpiet")
        || text_eq(route, "solum:mensura")
        || text_eq(route, "solum:inveni")
        || text_eq(route, "solum:crea")
        || text_eq(route, "solum:creabit")
        || text_eq(route, "solum:enumera")
        || text_eq(route, "solum:enumerabit")
        || text_eq(route, "solum:amputa")
        || text_eq(route, "solum:amputabit")
        || text_eq(route, "solum:exscribe")
        || text_eq(route, "solum:exscribet")
        || text_eq(route, "solum:renomina")
        || text_eq(route, "solum:renominabit")
        || text_eq(route, "solum:tange")
        || text_eq(route, "solum:tanget")
        || text_eq(route, "solum:sequere")
        || text_eq(route, "solum:sequetur")
        || text_eq(route, "solum:vincula")
        || text_eq(route, "solum:modum")
        || text_eq(route, "solum:modus")
        || text_eq(route, "solum:exstat")
        || text_eq(route, "solum:exstabit")
        || text_eq(route, "solum:directoriumne")
        || text_eq(route, "solum:regularene")
        || text_eq(route, "solum:legibilene")
        || text_eq(route, "solum:vinculumne")
        || text_eq(route, "aleator:fractum")
        || text_eq(route, "aleator:sortire")
        || text_eq(route, "aleator:octetos")
        || text_eq(route, "aleator:uuid")
        || text_eq(route, "aleator:semina")
}

/// The routes the builtin dispatch does not cover: those that need a native
/// host.
pub fn host_required_routes(routes: &TextSet) -> (out: TextSet)
    requires
        routes.wf(),
    ensures
        out.wf(),
        out@ == routes@.filter(|r: Seq<char>| !builtin_route(r)),
{
    let mut items: Vec<String> = Vec::new();
    let ghost mut picked: Seq<int> = Seq::empty();
    let mut i: usize = 0;
    while i < routes.items.len()
        invariant
            i <= routes.items.len(),
            routes.wf(),
            items@.len() == picked.len(),
            forall|a: int| 0 <= a < picked.len() ==> 0 <= #[trigger] picked[a] < i && items@[a] == routes.items@[picked[a]],
            forall|a: int, b: int| 0 <= a < b < picked.len() ==> #[trigger] picked[a] < #[trigger] picked[b],
            forall|x: Seq<char>| #[trigger] texts_of(items@).contains(x) == (texts_of(routes.items@.take(i as int)).contains(x)
                && !builtin_route(x)),
        decreases routes.items.len() - i,
    {
        let ghost before = items@;
        let ghost cur = routes.items@[i as int];
        let pushed = !is_builtin_ad_route(routes.items[i].as_str());
        if pushed {
            items.push(routes.items[i].clone());
            proof {
                picked = picked.push(i as int);
            }
        }
        proof {
            let old_in = texts_of(routes.items@.take(i as int));
            let new_in = texts_of(routes.items@.take(i + 1));
            assert(routes.items@.take(i + 1) =~= routes.items@.take(i as int).push(cur));
            assert forall|x: Seq<char>| #[trigger] new_in.contains(x) == (old_in.contains(x) || x == cur@) by {
                if new_in.contains(x) {
                    let k2 = choose|k2: int| 0 <= k2 < i + 1 && (#[trigger] routes.items@.take(i + 1)[k2])@ == x;
                    if k2 < i {
                        assert(routes.items@.take(i as int)[k2] == routes.items@.take(i + 1)[k2]);
                    }
                }
                if old_in.contains(x) {
                    let k2 = choose|k2: int| 0 <= k2 < i && (#[trigger] routes.items@.take(i as int)[k2])@ == x;
                    assert(routes.items@.take(i + 1)[k2] == routes.items@.take(i as int)[k2]);
                }
                if x == cur@ {
                    assert(routes.items@.take(i + 1)[i as int] == cur);
                }
            }
            if pushed {
                assert(items@ == before.push(cur));
                assert forall|x: Seq<char>| #[trigger] texts_of(items@).contains(x) == (texts_of(before).contains(x) || x == cur@) by {
                    if texts_of(items@).contains(x) {
                        let a = choose|a: int| 0 <= a < items@.len() && (#[trigger] items@[a])@ == x;
                        if a < before.len() {
                            assert(before[a] == items@[a]);
                        }
                    }
                    if texts_of(before).contains(x) {
                        let a = choose|a: int| 0 <= a < before.len() && (#[trigger] before[a])@ == x;
                        assert(items@[a] == before[a]);
                    }
                    if x == cur@ {
                        assert(items@[before.len() as int] == cur);
                    }
                }
            } else {
                assert(items@ == before);
            }
        }
        i = i + 1;
    }
    assert(routes.items@.take(routes.items@.len() as int) =~= routes.items@);
    let out = TextSet { items };
    proof {
        assert forall|a: int, b: int| 0 <= a < b < out.items@.len() implies text_less((#[trigger] out.items@[a])@, (#[trigger] out.items@[b])@) by {
            assert(picked[a] < picked[b]);
        }
        assert(out@ =~= routes@.filter(|r: Seq<char>| !builtin_route(r)));
    }
    out
}

// ---------------------------------------------------------------------------
// Provider manifests
// ---------------------------------------------------------------------------

/// One call a host provider exports.
#[derive(Debug)]
pub struct ProviderCall {
    pub route: String,
    pub summary: String,
    pub opener: String,
    pub result: String,
}

/// A host provider's manifest.
#[derive(Debug)]
pub struct ProviderManifest {
    pub manifest_version: u32,
    pub provider: String,
    pub owner: String,
    pub prefixes: Vec<String>,
    pub calls: Vec<ProviderCall>,
    pub native_dependencies: Vec<String>,
}

/// The manifest version this package reads.
pub const PROVIDER_MANIFEST_VERSION: u32 = 1;

/// Why the selected providers' manifests are refused.
#[derive(Debug)]
pub enum ManifestError {
    /// A manifest's version is not the one read here, or it names another
    /// provider than the one selected.
    Identity,
    /// Two exported calls of the selected providers share a route.
    DuplicateRoute { route: String },
    /// No selected provider exports a required route.
    MissingRoute { route: String },
}

/// Whether a manifest is the selected provider's, at the version read here.
pub open spec fn manifest_identity_holds(m: ProviderManifest, provider: Seq<char>) -> bool {
    m.manifest_version == PROVIDER_MANIFEST_VERSION && m.provider@ == provider
}

/// Check a manifest's version and identity against the selected provider.
pub fn admit_manifest_identity(m: &ProviderManifest, provider: &str) -> (r: Result<(), ManifestError>)
    ensures
        r is Ok <==> manifest_identity_holds(*m, provider@),
        r matches Err(e) ==> e is Identity,
{
    if m.manifest_version != PROVIDER_MANIFEST_VERSION || !text_eq(m.provider.as_str(), provider) {
        return Err(ManifestError::Identity);
    }
    Ok(())
}

/// The routes the manifests export, in manifest order then call order.
pub open spec fn exported_routes(ms: Seq<ProviderManifest>) -> Seq<Seq<char>>
    decreases ms.len(),
{
    if ms.len() == 0 {
        Seq::empty()
    } else {
        exported_routes(ms.drop_last()) + ms.last().calls@.map_values(|c: ProviderCall| c.route@)
    }
}

/// An exported route that an earlier exported call already has.
pub open spec fn repeats_earlier(s: Seq<Seq<char>>) -> spec_fn(int) -> bool {
    |k: int| s.take(k).contains(s[k])
}

/// A required route no manifest exports.
pub open spec fn unexported(s: Seq<Seq<char>>) -> spec_fn(String) -> bool {
    |r: String| !s.contains(r@)
}

/// The admission of the selected manifests against the required routes:
/// the first exported route that repeats an earlier one is a duplicate;
/// otherwise the first required route (in route order) that no manifest
/// exports is missing; otherwise they are admitted.
pub open spec fn route_admission(ms: Seq<ProviderManifest>, routes: Seq<String>) -> Option<(bool, Seq<char>)> {
    let s = exported_routes(ms);
    match first_index(s.len() as int, repeats_earlier(s)) {
        Some(k) => Some((true, s[k])),
        None => match first_where(routes, unexported(s)) {
            Some(i) => Some((false, routes[i]@)),
            None => None,
        },
    }
}

/// Check the selected manifests' exported routes: no route twice, and every
/// required route exported (see [`route_admission`]).
pub fn admit_provider_routes(ms: &Vec<ProviderManifest>, routes: &TextSet) -> (r: Result<(), ManifestError>)
    ensures
        match r {
            Ok(()) => route_admission(ms@, routes.items@) is None,
            Err(ManifestError::DuplicateRoute { route }) => route_admission(ms@, routes.items@) == Some((true, route@)),
            Err(ManifestError::MissingRoute { route }) => route_admission(ms@, routes.items@) == Some((false, route@)),
            Err(ManifestError::Identity) => false,
        },
{
    let ghost s = exported_routes(ms@);
    let mut exported = TextSet::new();
    let ghost mut done: Seq<Seq<char>> = Seq::empty();
    let mut m: usize = 0;
    while m < ms.len()
        invariant
            m <= ms.len(),
            s == exported_routes(ms@),
            exported.wf(),
            done == exported_routes(ms@.take(m as int)),
            exported@ == done.to_set(),
            forall|k: int| 0 <= k < done.len() ==> !#[trigger] repeats_earlier(done)(k),
        decreases ms.len() - m,
    {
        assert(ms@.take(m + 1).drop_last() =~= ms@.take(m as int));
        assert(ms@.take(m + 1).last() == ms@[m as int]);
        let calls = &ms[m].calls;
        let ghost base = done;
        let mut c: usize = 0;
        while c < calls.len()
            invariant
                c <= calls.len(),
                m < ms.len(),
                s == exported_routes(ms@),
                calls@ == ms@[m as int].calls@,
                base == exported_routes(ms@.take(m as int)),
                exported.wf(),
                done == base + calls@.take(c as int).map_values(|c2: ProviderCall| c2.route@),
                exported@ == done.to_set(),
                forall|k: int| 0 <= k < done.len() ==> !#[trigger] repeats_earlier(done)(k),
            decreases calls.len() - c,
        {
            let route = &calls[c].route;
            let ghost next = done.push(route@);
            assert(base + calls@.take(c + 1).map_values(|c2: ProviderCall| c2.route@) =~= next);
            let fresh = exported.insert(route.clone());
            if !fresh {
                proof {
                    assert(done.contains(route@));
                    assert(next.take(done.len() as int) =~= done);
                    assert(repeats_earlier(next)(done.len() as int));
                    assert forall|k: int| 0 <= k < done.len() implies !#[trigger] repeats_earlier(next)(k) by {
                        assert(!repeats_earlier(done)(k));
                        assert(next.take(k) =~= done.take(k));
                        assert(next[k] == done[k]);
                    }
                    lemma_first_index_is(next.len() as int, repeats_earlier(next), done.len() as int);
                    lemma_prefix_of_exported(ms@, m as int, c as int);
                    assert(s.take(next.len() as int) =~= next);
                    assert forall|k: int| 0 <= k < next.len() implies #[trigger] repeats_earlier(s)(k) == repeats_earlier(next)(k) by {
                        assert(s.take(k) =~= next.take(k));
                        assert(s[k] == next[k]);
                    }
                    lemma_first_index_prefix(s, next.len() as int, repeats_earlier(s), repeats_earlier(next));
                }
                return Err(ManifestError::DuplicateRoute { route: route.clone() });
            }
            proof {
                assert forall|k: int| 0 <= k < next.len() implies !#[trigger] repeats_earlier(next)(k) by {
                    if k < done.len() {
                        assert(!repeats_earlier(done)(k));
                        assert(next.take(k) =~= done.take(k));
                        assert(next[k] == done[k]);
                    } else {
                        assert(next.take(k) =~= done);
                    }
                }
                done.lemma_push_to_set_commute(route@);
                assert(exported@ =~= next.to_set());
                done = next;
            }
            c = c + 1;
        }
        assert(calls@.take(calls@.len() as int) =~= calls@);
        assert(exported_routes(ms@.take(m + 1)) == base + ms@[m as int].calls@.map_values(|c2: ProviderCall| c2.route@));
        m = m + 1;
    }
    assert(ms@.take(ms@.len() as int) =~= ms@);
    proof {
        assert forall|k: int| 0 <= k < s.len() implies !#[trigger] repeats_earlier(s)(k) by {}
        lemma_first_index_none(s.len() as int, repeats_earlier(s));
    }
    let ghost q = unexported(s);
    let mut i: usize = 0;
    while i < routes.items.len()
        invariant
            i <= routes.items.len(),
            exported@ == s.to_set(),
            s == exported_routes(ms@),
            first_index(s.len() as int, repeats_earlier(s)) is None,
            q == unexported(s),
            forall|j: int| 0 <= j < i ==> !q(#[trigger] routes.items@[j]),
        decreases routes.items.len() - i,
    {
        if !exported.contains(routes.items[i].as_str()) {
            proof {
                lemma_first_where_is(routes.items@, q, i as int);
            }
            return Err(ManifestError::MissingRoute { route: routes.items[i].clone() });
        }
        i = i + 1;
    }
    proof {
        lemma_first_where_none(routes.items@, q);
    }
    Ok(())
}

proof fn lemma_prefix_of_exported(ms: Seq<ProviderManifest>, m: int, c: int)
    requires
        0 <= m < ms.len(),
        0 <= c < ms[m].calls@.len(),
    ensures
        exported_routes(ms.take(m)).len() + c + 1 <= exported_routes(ms).len(),
        exported_routes(ms).take(exported_routes(ms.take(m)).len() + c + 1)
            == exported_routes(ms.take(m)) + ms[m].calls@.take(c + 1).map_values(|c2: ProviderCall| c2.route@),
{
    lemma_exported_prefix(ms, m + 1);
    assert(ms.take(m + 1).drop_last() =~= ms.take(m));
    assert(ms.take(m + 1).last() == ms[m]);
    let a = exported_routes(ms.take(m));
    let b = ms[m].calls@.map_values(|c2: ProviderCall| c2.route@);
    assert(exported_routes(ms.take(m + 1)) == a + b);
    assert((a + b).take(a.len() + c + 1) =~= a + ms[m].calls@.take(c + 1).map_values(|c2: ProviderCall| c2.route@));
    assert(exported_routes(ms).take(a.len() + c + 1) =~= exported_routes(ms).take((a + b).len() as int).take(a.len() + c + 1));
}

proof fn lemma_exported_prefix(ms: Seq<ProviderManifest>, n: int)
    requires
        0 <= n <= ms.len(),
    ensures
        exported_routes(ms).take(exported_routes(ms.take(n)).len() as int) == exported_routes(ms.take(n)),
        exported_routes(ms.take(n)).len() <= exported_routes(ms).len(),
    decreases ms.len() - n,
{
    if n == ms.len() {
        assert(ms.take(n) =~= ms);
        assert(exported_routes(ms).take(exported_routes(ms).len() as int) =~= exported_routes(ms));
    } else {
        lemma_exported_prefix(ms, n + 1);
        assert(ms.take(n + 1).drop_last() =~= ms.take(n));
        let a = exported_routes(ms.take(n));
        let b = exported_routes(ms.take(n + 1));
        assert(b == a + ms[n].calls@.map_values(|c2: ProviderCall| c2.route@)) by {
            assert(ms.take(n + 1).last() == ms[n]);
        }
        assert(b.take(a.len() as int) =~= a);
        assert(exported_routes(ms).take(a.len() as int) =~= exported_routes(ms).take(b.len() as int).take(a.len() as int));
    }
}

/// A first index found in a prefix is the first index overall.
proof fn lemma_first_index_prefix(s: Seq<Seq<char>>, n: int, p: spec_fn(int) -> bool, q: spec_fn(int) -> bool)
    requires
        0 <= n <= s.len(),
        forall|k: int| 0 <= k < n ==> #[trigger] p(k) == q(k),
        first_index(n, q) is Some,
    ensures
        first_index(s.len() as int, p) == first_index(n, q),
{
    lemma_first_index_some(n, q);
    let k = first_index(n, q)->0;
    assert(is_first_index(s.len() as int, p, k)) by {
        assert forall|j: int| 0 <= j < k implies !#[trigger] p(j) by {
            assert(!q(j));
        }
    }
    lemma_first_index_is(s.len() as int, p, k);
}

} // verus!
