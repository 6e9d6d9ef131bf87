//! The launch sequence follows the carried producer/consumer dependency
//! graph: Kahn's algorithm, seeded in declaration order.
use vstd::prelude::*;
use crate::device::facts::SlotAccess;
use crate::device::facts::accesses;
use crate::device::facts::data_flow_of;
use crate::device::facts::data_flow_pairs;
use crate::device::facts::edges_from;
use crate::device::facts::launch_accesses;
use crate::device::facts::pairs;
use crate::device::facts::program_accesses;
use crate::device::schema::DependencyEdge;
use crate::device::schema::DeviceProgram;
use crate::device::schema::DeviceResource;
use crate::device::schema::KernelUnit;
use crate::device::schema::LaunchUnit;
use crate::device::schema::writes;
use crate::device::program::contains_u32;
use crate::search::count_upto;
use crate::search::lemma_count_all;
use crate::search::lemma_count_bound;
use crate::search::lemma_count_drop;
use crate::search::lemma_count_positive;
use crate::search::lemma_count_same;
use crate::search::lemma_count_zero;

verus! {

/// The edges the launch order follows: the data-flow pairs over buffers
/// that are not excluded, without self-edges.
pub open spec fn ordering_edges(edges: Seq<DependencyEdge>, excluded: Seq<u32>) -> Seq<DependencyEdge>
    decreases edges.len(),
{
    if edges.len() == 0 {
        Seq::empty()
    } else {
        let prev = ordering_edges(edges.drop_last(), excluded);
        let e = edges.last();
        if excluded.contains(e.buffer) || e.producer == e.consumer {
            prev
        } else {
            prev.push(e)
        }
    }
}

/// Launch ids are unique.
pub open spec fn distinct_launch_ids(launches: Seq<LaunchUnit>) -> bool {
    forall|i: int, j: int| 0 <= i < j < launches.len() ==> launches[i].id != launches[j].id
}

/// Whether some launch has the id.
pub open spec fn is_launch_id(launches: Seq<LaunchUnit>, id: u32) -> bool {
    exists|i: int| 0 <= i < launches.len() && (#[trigger] launches[i]).id == id
}

/// A non-empty set of launches each fed by an edge from a launch of the same
/// set: no launch of the set can ever run first, so the graph has a cycle.
pub open spec fn has_cycle(launches: Seq<LaunchUnit>, edges: Seq<DependencyEdge>) -> bool {
    exists|s: Set<u32>| #[trigger] cycle_set(launches, edges, s)
}

/// `s` is a non-empty set of launch ids each fed by an edge from inside `s`.
pub open spec fn cycle_set(launches: Seq<LaunchUnit>, edges: Seq<DependencyEdge>, s: Set<u32>) -> bool {
    &&& exists|x: u32| #[trigger] s.contains(x)
    &&& forall|x: u32| #[trigger] s.contains(x) ==> is_launch_id(launches, x)
    &&& forall|x: u32| #[trigger] s.contains(x) ==> fed_from(edges, s, x)
}

/// Some edge into `x` comes from a launch of `s`.
#[verifier::opaque]
pub open spec fn fed_from(edges: Seq<DependencyEdge>, s: Set<u32>, x: u32) -> bool {
    exists|k: int| 0 <= k < edges.len() && (#[trigger] edges[k]).consumer == x && s.contains(edges[k].producer)
}

/// The edge's producer stands before its consumer in the order.
pub open spec fn edge_ordered(order: Seq<LaunchUnit>, e: DependencyEdge) -> bool {
    exists|jp: int, jc: int| 0 <= jp < jc < order.len() && (#[trigger] order[jp]).id == e.producer
        && (#[trigger] order[jc]).id == e.consumer
}

/// Every element of `a` occurs in `b`.
#[verifier::opaque]
pub open spec fn drawn_from(a: Seq<LaunchUnit>, b: Seq<LaunchUnit>) -> bool {
    forall|j: int| 0 <= j < a.len() ==> exists|i: int| 0 <= i < b.len() && #[trigger] a[j] == b[i]
}

/// An order is a reordering of the launches that runs every edge's producer
/// before its consumer.
pub open spec fn follows_edges(order: Seq<LaunchUnit>, launches: Seq<LaunchUnit>, edges: Seq<DependencyEdge>) -> bool {
    &&& order.len() == launches.len()
    &&& drawn_from(order, launches)
    &&& drawn_from(launches, order)
    &&& forall|k: int| 0 <= k < edges.len() ==> edge_ordered(order, #[trigger] edges[k])
}

// ---------------------------------------------------------------------------
// Every edge endpoint is a launch
// ---------------------------------------------------------------------------

proof fn lemma_access_launches(kernels: Seq<KernelUnit>, launches: Seq<LaunchUnit>)
    ensures
        forall|k: int| 0 <= k < accesses(kernels, launches).len() ==> is_launch_id(launches, (#[trigger] accesses(kernels, launches)[k]).launch),
    decreases launches.len(),
{
    if launches.len() > 0 {
        let prefix = launches.drop_last();
        lemma_access_launches(kernels, prefix);
        let acc = accesses(kernels, launches);
        let head = accesses(kernels, prefix);
        let tail = launch_accesses(kernels, launches.last());
        assert forall|k: int| 0 <= k < acc.len() implies is_launch_id(launches, (#[trigger] acc[k]).launch) by {
            if k < head.len() {
                assert(acc[k] == head[k]);
                let i = choose|i: int| 0 <= i < prefix.len() && (#[trigger] prefix[i]).id == head[k].launch;
                assert(launches[i] == prefix[i]);
            } else {
                assert(acc[k] == tail[k - head.len()]);
                assert(tail[k - head.len()].launch == launches.last().id);
                assert(launches[launches.len() - 1] == launches.last());
            }
        }
    }
}

/// Some access of `cs` is made by the edge's consumer.
pub open spec fn consumed_in(e: DependencyEdge, cs: Seq<SlotAccess>) -> bool {
    exists|m: int| 0 <= m < cs.len() && (#[trigger] cs[m]).launch == e.consumer
}

/// Some access of `ps` is made by the edge's producer.
pub open spec fn produced_in(e: DependencyEdge, ps: Seq<SlotAccess>) -> bool {
    exists|m: int| 0 <= m < ps.len() && (#[trigger] ps[m]).launch == e.producer
}

proof fn lemma_edges_from_ends(p: SlotAccess, cs: Seq<SlotAccess>)
    ensures
        forall|k: int| 0 <= k < edges_from(p, cs).len() ==> (#[trigger] edges_from(p, cs)[k]).producer == p.launch
            && consumed_in(edges_from(p, cs)[k], cs),
    decreases cs.len(),
{
    if cs.len() > 0 {
        lemma_edges_from_ends(p, cs.drop_last());
        let es = edges_from(p, cs);
        let prev = edges_from(p, cs.drop_last());
        assert forall|k: int| 0 <= k < es.len() implies (#[trigger] es[k]).producer == p.launch
            && consumed_in(es[k], cs) by {
            if k < prev.len() {
                assert(es[k] == prev[k]);
                assert(consumed_in(prev[k], cs.drop_last()));
                let m = choose|m: int| 0 <= m < cs.drop_last().len() && (#[trigger] cs.drop_last()[m]).launch == prev[k].consumer;
                assert(cs[m] == cs.drop_last()[m]);
            } else {
                assert(cs[cs.len() - 1] == cs.last());
            }
        }
    }
}

proof fn lemma_pairs_ends(ps: Seq<SlotAccess>, all: Seq<SlotAccess>)
    ensures
        forall|k: int| 0 <= k < pairs(ps, all).len() ==> produced_in(#[trigger] pairs(ps, all)[k], ps)
            && consumed_in(pairs(ps, all)[k], all),
    decreases ps.len(),
{
    if ps.len() > 0 {
        lemma_pairs_ends(ps.drop_last(), all);
        lemma_edges_from_ends(ps.last(), all);
        let es = pairs(ps, all);
        let prev = pairs(ps.drop_last(), all);
        assert forall|k: int| 0 <= k < es.len() implies produced_in(#[trigger] es[k], ps)
            && consumed_in(es[k], all) by {
            if k < prev.len() {
                assert(es[k] == prev[k]);
                assert(produced_in(prev[k], ps.drop_last()));
                let m = choose|m: int| 0 <= m < ps.drop_last().len() && (#[trigger] ps.drop_last()[m]).launch == prev[k].producer;
                assert(ps[m] == ps.drop_last()[m]);
            } else {
                let tail = edges_from(ps.last(), all);
                assert(writes(ps.last().access));
                assert(es[k] == tail[k - prev.len()]);
                assert(tail[k - prev.len()].producer == ps.last().launch);
                assert(ps[ps.len() - 1] == ps.last());
            }
        }
    }
}

/// Every data-flow edge runs between launches of the program.
pub proof fn lemma_data_flow_ends(program: DeviceProgram)
    ensures
        forall|k: int| 0 <= k < data_flow_of(program).len() ==> is_launch_id(program.launches@, (#[trigger] data_flow_of(program)[k]).producer)
            && is_launch_id(program.launches@, data_flow_of(program)[k].consumer),
{
    let acc = program_accesses(program);
    lemma_access_launches(program.kernels@, program.launches@);
    lemma_pairs_ends(acc, acc);
    assert forall|k: int| 0 <= k < data_flow_of(program).len() implies is_launch_id(program.launches@, (#[trigger] data_flow_of(program)[k]).producer)
        && is_launch_id(program.launches@, data_flow_of(program)[k].consumer) by {
        let e = data_flow_of(program)[k];
        assert(produced_in(e, acc) && consumed_in(e, acc));
        let mp = choose|m: int| 0 <= m < acc.len() && (#[trigger] acc[m]).launch == e.producer;
        let mc = choose|m: int| 0 <= m < acc.len() && (#[trigger] acc[m]).launch == e.consumer;
        assert(is_launch_id(program.launches@, acc[mp].launch));
        assert(is_launch_id(program.launches@, acc[mc].launch));
    }
}

proof fn lemma_ordering_edges_subset(edges: Seq<DependencyEdge>, excluded: Seq<u32>)
    ensures
        forall|k: int| 0 <= k < ordering_edges(edges, excluded).len() ==> exists|m: int| 0 <= m < edges.len()
            && edges[m] == #[trigger] ordering_edges(edges, excluded)[k],
    decreases edges.len(),
{
    if edges.len() > 0 {
        lemma_ordering_edges_subset(edges.drop_last(), excluded);
        let es = ordering_edges(edges, excluded);
        let prev = ordering_edges(edges.drop_last(), excluded);
        assert forall|k: int| 0 <= k < es.len() implies exists|m: int| 0 <= m < edges.len() && edges[m] == #[trigger] es[k] by {
            if k < prev.len() {
                assert(es[k] == prev[k]);
                let m = choose|m: int| 0 <= m < edges.drop_last().len() && edges.drop_last()[m] == prev[k];
                assert(edges[m] == edges.drop_last()[m]);
            } else {
                assert(edges[edges.len() - 1] == edges.last());
            }
        }
    }
}

// ---------------------------------------------------------------------------
// Kahn's algorithm over launch positions
// ---------------------------------------------------------------------------

/// A non-empty set of positions below `n`, each the consumer of an edge
/// whose producer is in the set.
pub open spec fn index_cycle_set(n: int, prods: Seq<usize>, cons: Seq<usize>, s: Set<int>) -> bool {
    &&& exists|x: int| #[trigger] s.contains(x)
    &&& forall|x: int| #[trigger] s.contains(x) ==> 0 <= x < n
    &&& forall|x: int| #[trigger] s.contains(x) ==> exists|k: int| 0 <= k < cons.len()
        && (#[trigger] cons[k]) == x && s.contains(prods[k] as int)
}

/// The edges into `c` whose producer has not run yet.
pub open spec fn pending_pred(cons: Seq<usize>, done: Seq<bool>, c: int) -> spec_fn(int) -> bool {
    |k: int| cons[k] == c && !done[k]
}

/// The positions not yet queued.
pub open spec fn unqueued_pred(queued: Seq<bool>) -> spec_fn(int) -> bool {
    |x: int| !queued[x]
}

/// Every edge runs between two different positions below `n`.
pub open spec fn edges_within(n: int, prods: Seq<usize>, cons: Seq<usize>) -> bool {
    &&& prods.len() == cons.len()
    &&& forall|k: int| #![trigger prods[k]] #![trigger cons[k]] 0 <= k < cons.len() ==> prods[k] < n && cons[k] < n && prods[k] != cons[k]
}

/// Whether some position before `end` of the queue holds `x`.
pub open spec fn queued_before(queue: Seq<usize>, end: int, x: int) -> bool {
    exists|p: int| 0 <= p < end && #[trigger] queue[p] == x
}

proof fn lemma_queued_before_push(q: Seq<usize>, v: usize)
    ensures
        forall|end: int, y: int| 0 <= end <= q.len() ==> (#[trigger] queued_before(q.push(v), end, y) <==> queued_before(q, end, y)),
        forall|y: int| #[trigger] queued_before(q.push(v), q.len() + 1int, y) <==> (queued_before(q, q.len() as int, y) || y == v),
{
    assert forall|end: int, y: int| 0 <= end <= q.len() implies (#[trigger] queued_before(q.push(v), end, y) <==> queued_before(q, end, y)) by {
        if queued_before(q, end, y) {
            let a = choose|a: int| 0 <= a < end && #[trigger] q[a] == y;
            assert(q.push(v)[a] == y);
        }
        if queued_before(q.push(v), end, y) {
            let a = choose|a: int| 0 <= a < end && #[trigger] q.push(v)[a] == y;
            assert(q[a] == y);
        }
    }
    assert forall|y: int| #[trigger] queued_before(q.push(v), q.len() + 1int, y) <==> (queued_before(q, q.len() as int, y) || y == v) by {
        if queued_before(q, q.len() as int, y) {
            let a = choose|a: int| 0 <= a < q.len() && #[trigger] q[a] == y;
            assert(q.push(v)[a] == y);
        }
        if y == v {
            assert(q.push(v)[q.len() as int] == y);
        }
        if queued_before(q.push(v), q.len() + 1int, y) && y != v {
            let a = choose|a: int| 0 <= a < q.len() + 1 && #[trigger] q.push(v)[a] == y;
            assert(q[a] == y);
        }
    }
}

/// The number of edges into each position below `n`: the in-degrees Kahn's
/// algorithm starts from.
pub open spec fn start_degrees(n: nat, cons: Seq<usize>) -> Seq<int> {
    Seq::new(n, |c: int| count_upto(pending_pred(cons, Seq::new(cons.len(), |k: int| false), c), cons.len() as int) as int)
}

/// The positions below `x` whose in-degree is zero, in position order: the
/// seed of the queue.
pub open spec fn seed_queue(degrees: Seq<int>, x: int) -> Seq<usize>
    decreases x,
{
    if x <= 0 {
        Seq::empty()
    } else {
        let q = seed_queue(degrees, x - 1);
        if degrees[x - 1] == 0 {
            q.push((x - 1) as usize)
        } else {
            q
        }
    }
}

/// Serving position `p` over the edges below `k`, in edge order: each edge
/// out of `p` takes one from its consumer's in-degree, and a consumer whose
/// in-degree reaches zero joins the back of the queue.
pub open spec fn serve(p: usize, prods: Seq<usize>, cons: Seq<usize>, k: int, queue: Seq<usize>, degrees: Seq<int>) -> (Seq<usize>, Seq<int>)
    decreases k,
{
    if k <= 0 {
        (queue, degrees)
    } else {
        let (q, d) = serve(p, prods, cons, k - 1, queue, degrees);
        if prods[k - 1] == p {
            let c = cons[k - 1];
            let d2 = d.update(c as int, d[c as int] - 1);
            if d[c as int] == 1 {
                (q.push(c), d2)
            } else {
                (q, d2)
            }
        } else {
            (q, d)
        }
    }
}

/// The queue once the positions from `head` on are served in turn, first in
/// first out, at most `fuel` of them.
pub open spec fn serve_from(prods: Seq<usize>, cons: Seq<usize>, queue: Seq<usize>, degrees: Seq<int>, head: int, fuel: nat) -> Seq<usize>
    decreases fuel,
{
    if fuel == 0 || head < 0 || head >= queue.len() {
        queue
    } else {
        let (q, d) = serve(queue[head], prods, cons, prods.len() as int, queue, degrees);
        serve_from(prods, cons, q, d, head + 1, (fuel - 1) as nat)
    }
}

/// The sequence in which Kahn's algorithm serves positions `0..n` over the
/// edges `prods[k] -> cons[k]`: seeded in position order, served first in
/// first out. It holds every position exactly when the graph is acyclic.
pub open spec fn kahn_queue(n: nat, prods: Seq<usize>, cons: Seq<usize>) -> Seq<usize> {
    let d = start_degrees(n, cons);
    serve_from(prods, cons, seed_queue(d, n as int), d, 0, n)
}

/// In-degree counters read as integers.
pub open spec fn degrees_of(indeg: Seq<usize>) -> Seq<int> {
    indeg.map_values(|v: usize| v as int)
}

/// Kahn's algorithm on positions `0..n` and the edges `prods[k] -> cons[k]`,
/// seeded in position order and served first in, first out.
fn kahn_order(n: usize, prods: &Vec<usize>, cons: &Vec<usize>) -> (r: Option<Vec<usize>>)
    requires
        prods.len() == cons.len(),
        edges_within(n as int, prods@, cons@),
    ensures
        match r {
            Some(q) => {
                &&& q.len() == n
                &&& forall|j: int| 0 <= j < q.len() ==> #[trigger] q[j] < n
                &&& forall|i: int, j: int| 0 <= i < j < q.len() ==> q[i] != q[j]
                &&& forall|x: int| 0 <= x < n ==> queued_before(q@, n as int, x)
                &&& forall|k: int| 0 <= k < cons.len() ==> exists|jp: int, jc: int| 0 <= jp < jc < n
                    && q[jp] == prods[k] && q[jc] == #[trigger] cons[k]
            },
            None => exists|s: Set<int>| #[trigger] index_cycle_set(n as int, prods@, cons@, s),
        },
        match r {
            Some(q) => q@ == kahn_queue(n as nat, prods@, cons@),
            None => kahn_queue(n as nat, prods@, cons@).len() < n,
        },
{
    let m = cons.len();
    let mut indeg: Vec<usize> = Vec::new();
    let mut queued: Vec<bool> = Vec::new();
    let mut i: usize = 0;
    while i < n
        invariant
            i <= n,
            indeg.len() == i,
            queued.len() == i,
            forall|x: int| 0 <= x < i ==> indeg[x] == 0 && !queued[x],
            prods.len() == cons.len(),
            edges_within(n as int, prods@, cons@),
        decreases n - i,
    {
        indeg.push(0);
        queued.push(false);
        i = i + 1;
    }
    let ghost done: Seq<bool> = Seq::new(m as nat, |k: int| false);
    let mut k: usize = 0;
    while k < m
        invariant
            k <= m,
            m == cons.len(),
            prods.len() == cons.len(),
            indeg.len() == n,
            done.len() == m,
            forall|k2: int| 0 <= k2 < m ==> !#[trigger] done[k2],
            edges_within(n as int, prods@, cons@),
            forall|c: int| 0 <= c < n ==> #[trigger] indeg[c] == count_upto(pending_pred(cons@, done, c), k as int),
        decreases m - k,
    {
        let c = cons[k];
        proof {
            lemma_count_bound(pending_pred(cons@, done, c as int), k as int);
        }
        let v = indeg[c];
        indeg.set(c, v + 1);
        k = k + 1;
    }
    let mut queue: Vec<usize> = Vec::new();
    let mut x: usize = 0;
    proof {
        lemma_count_all(unqueued_pred(queued@), n as int);
        assert(done =~= Seq::new(cons@.len(), |k: int| false));
        assert(degrees_of(indeg@) =~= start_degrees(n as nat, cons@));
    }
    while x < n
        invariant
            x <= n,
            m == cons.len(),
            prods.len() == cons.len(),
            indeg.len() == n,
            queued.len() == n,
            done.len() == m,
            forall|k2: int| 0 <= k2 < m ==> !#[trigger] done[k2],
            edges_within(n as int, prods@, cons@),
            forall|c: int| 0 <= c < n ==> #[trigger] indeg[c] == count_upto(pending_pred(cons@, done, c), m as int),
            forall|q: int| 0 <= q < queue.len() ==> #[trigger] queue[q] < x,
            forall|p: int, q: int| 0 <= p < q < queue.len() ==> queue[p] != queue[q],
            forall|y: int| 0 <= y < n ==> (#[trigger] queued[y] <==> queued_before(queue@, queue.len() as int, y)),
            forall|y: int| 0 <= y < n ==> (#[trigger] queued[y] <==> (y < x && indeg[y] == 0)),
            count_upto(unqueued_pred(queued@), n as int) + queue.len() == n,
            forall|q: int, k2: int| 0 <= q < queue.len() && 0 <= k2 < m && #[trigger] cons[k2] == #[trigger] queue[q]
                ==> queued_before(queue@, q, prods[k2] as int),
            degrees_of(indeg@) == start_degrees(n as nat, cons@),
            queue@ == seed_queue(degrees_of(indeg@), x as int),
        decreases n - x,
    {
        if indeg[x] == 0 {
            proof {
                lemma_count_zero(pending_pred(cons@, done, x as int), m as int);
                lemma_count_drop(unqueued_pred(queued@), unqueued_pred(queued@.update(x as int, true)), x as int, n as int);
                assert forall|k2: int| 0 <= k2 < m implies #[trigger] cons[k2] != x by {
                    assert(!pending_pred(cons@, done, x as int)(k2));
                }
            }
            let ghost old_queue = queue@;
            proof {
                lemma_queued_before_push(old_queue, x);
                assert(!queued_before(old_queue, old_queue.len() as int, x as int));
            }
            queue.push(x);
            queued.set(x, true);
            proof {
                assert forall|a: int, b: int| 0 <= a < b < queue.len() implies queue[a] != queue[b] by {
                    if b == old_queue.len() && queue[a] == x {
                        assert(old_queue[a] == x);
                    }
                }
                assert forall|q: int, k2: int| 0 <= q < queue.len() && 0 <= k2 < m && #[trigger] cons[k2] == #[trigger] queue[q]
                    implies queued_before(queue@, q, prods[k2] as int) by {
                    assert(q < old_queue.len());
                    assert(old_queue[q] == queue[q]);
                }
            }
        }
        x = x + 1;
    }
    let mut head: usize = 0;
    let ghost mut done = done;
    while head < queue.len()
        invariant
            head <= queue.len(),
            m == cons.len(),
            prods.len() == cons.len(),
            indeg.len() == n,
            queued.len() == n,
            done.len() == m,
            edges_within(n as int, prods@, cons@),
            forall|k2: int| 0 <= k2 < m ==> (#[trigger] done[k2] <==> queued_before(queue@, head as int, prods[k2] as int)),
            forall|c: int| 0 <= c < n ==> #[trigger] indeg[c] == count_upto(pending_pred(cons@, done, c), m as int),
            forall|q: int| 0 <= q < queue.len() ==> #[trigger] queue[q] < n,
            forall|p: int, q: int| 0 <= p < q < queue.len() ==> queue[p] != queue[q],
            forall|y: int| 0 <= y < n ==> (#[trigger] queued[y] <==> queued_before(queue@, queue.len() as int, y)),
            forall|y: int| 0 <= y < n ==> (#[trigger] queued[y] <==> indeg[y] == 0),
            count_upto(unqueued_pred(queued@), n as int) + queue.len() == n,
            forall|q: int, k2: int| 0 <= q < queue.len() && 0 <= k2 < m && #[trigger] cons[k2] == #[trigger] queue[q]
                ==> queued_before(queue@, q, prods[k2] as int),
            serve_from(prods@, cons@, queue@, degrees_of(indeg@), head as int, (n - head) as nat) == kahn_queue(n as nat, prods@, cons@),
        decreases n - head,
    {
        let p = queue[head];
        let ghost q0 = queue@;
        let ghost d0 = degrees_of(indeg@);
        let mut k: usize = 0;
        while k < m
            invariant
                head < queue.len(),
                p == queue[head as int],
                k <= m,
                m == cons.len(),
                prods.len() == cons.len(),
                indeg.len() == n,
                queued.len() == n,
                done.len() == m,
                edges_within(n as int, prods@, cons@),
                forall|k2: int| 0 <= k2 < m ==> (#[trigger] done[k2] <==> (queued_before(queue@, head as int, prods[k2] as int)
                    || (prods[k2] == p && k2 < k))),
                forall|c: int| 0 <= c < n ==> #[trigger] indeg[c] == count_upto(pending_pred(cons@, done, c), m as int),
                forall|q: int| 0 <= q < queue.len() ==> #[trigger] queue[q] < n,
                forall|a: int, b: int| 0 <= a < b < queue.len() ==> queue[a] != queue[b],
                forall|y: int| 0 <= y < n ==> (#[trigger] queued[y] <==> queued_before(queue@, queue.len() as int, y)),
                forall|y: int| 0 <= y < n ==> (#[trigger] queued[y] <==> indeg[y] == 0),
                count_upto(unqueued_pred(queued@), n as int) + queue.len() == n,
                forall|q: int, k2: int| 0 <= q < queue.len() && 0 <= k2 < m && #[trigger] cons[k2] == #[trigger] queue[q]
                    ==> queued_before(queue@, q, prods[k2] as int),
                head < q0.len(),
                q0[head as int] == p,
                serve_from(prods@, cons@, q0, d0, head as int, (n - head) as nat) == kahn_queue(n as nat, prods@, cons@),
                (queue@, degrees_of(indeg@)) == serve(p, prods@, cons@, k as int, q0, d0),
            decreases m - k,
        {
            let ghost before = (queue@, degrees_of(indeg@));
            if prods[k] == p {
                let c = cons[k];
                let ghost old_done = done;
                proof {
                    if queued_before(queue@, head as int, p as int) {
                        let a = choose|a: int| 0 <= a < head && #[trigger] queue@[a] == p as int;
                        assert(queue[a] != queue[head as int]);
                    }
                    assert(!done[k as int]);
                    done = done.update(k as int, true);
                    lemma_count_drop(pending_pred(cons@, old_done, c as int), pending_pred(cons@, done, c as int), k as int, m as int);
                    assert forall|c2: int| 0 <= c2 < n && c2 != c implies count_upto(pending_pred(cons@, done, c2), m as int)
                        == count_upto(pending_pred(cons@, old_done, c2), m as int) by {
                        lemma_count_same(pending_pred(cons@, done, c2), pending_pred(cons@, old_done, c2), m as int);
                    }
                    assert forall|k2: int| 0 <= k2 < m implies (#[trigger] done[k2] <==> (queued_before(queue@, head as int, prods[k2] as int)
                        || (prods[k2] == p && k2 < k + 1))) by {
                        if k2 != k {
                            assert(done[k2] == old_done[k2]);
                        }
                    }
                }
                let v = indeg[c];
                proof {
                    assert(v >= 1);
                    assert(!queued[c as int]);
                }
                indeg.set(c, v - 1);
                proof {
                    assert(degrees_of(indeg@) =~= before.1.update(c as int, before.1[c as int] - 1));
                }
                if v == 1 {
                    let ghost old_queue = queue@;
                    proof {
                        lemma_count_zero(pending_pred(cons@, done, c as int), m as int);
                        lemma_count_drop(unqueued_pred(queued@), unqueued_pred(queued@.update(c as int, true)), c as int, n as int);
                        lemma_queued_before_push(old_queue, c);
                        assert(!queued_before(old_queue, old_queue.len() as int, c as int));
                    }
                    queue.push(c);
                    queued.set(c, true);
                    proof {
                        assert forall|a: int, b: int| 0 <= a < b < queue.len() implies queue[a] != queue[b] by {
                            if b == old_queue.len() && queue[a] == c {
                                assert(old_queue[a] == c);
                            }
                        }
                        assert forall|q: int, k2: int| 0 <= q < queue.len() && 0 <= k2 < m && #[trigger] cons[k2] == #[trigger] queue[q]
                            implies queued_before(queue@, q, prods[k2] as int) by {
                            if q < old_queue.len() {
                                assert(old_queue[q] == queue[q]);
                                assert(queued_before(old_queue, q, prods[k2] as int));
                            } else {
                                assert(!pending_pred(cons@, done, c as int)(k2));
                                assert(done[k2]);
                                if queued_before(old_queue, head as int, prods[k2] as int) {
                                    let a = choose|a: int| 0 <= a < head && #[trigger] old_queue[a] == prods[k2] as int;
                                    assert(queue@[a] == prods[k2]);
                                } else {
                                    assert(queue@[head as int] == prods[k2]);
                                }
                            }
                        }
                    }
                }
            }
            proof {
                assert((queue@, degrees_of(indeg@)) == serve(p, prods@, cons@, k + 1, q0, d0));
            }
            k = k + 1;
        }
        proof {
            assert forall|k2: int| 0 <= k2 < m implies (#[trigger] done[k2] <==> queued_before(queue@, head + 1, prods[k2] as int)) by {
                if queued_before(queue@, head + 1, prods[k2] as int) && !queued_before(queue@, head as int, prods[k2] as int) {
                    let a = choose|a: int| 0 <= a < head + 1 && #[trigger] queue@[a] == prods[k2] as int;
                    assert(a == head);
                }
                if prods[k2] == p {
                    assert(queue@[head as int] == p);
                }
                if queued_before(queue@, head as int, prods[k2] as int) {
                    let a = choose|a: int| 0 <= a < head && #[trigger] queue@[a] == prods[k2] as int;
                    assert(queued_before(queue@, head + 1, prods[k2] as int));
                }
            }
            lemma_count_bound(unqueued_pred(queued@), n as int);
            assert(prods@.len() == m);
        }
        head = head + 1;
    }
    proof {
        assert(queue.len() <= n);
        assert(serve_from(prods@, cons@, queue@, degrees_of(indeg@), head as int, (n - head) as nat) == queue@);
    }
    if queue.len() == n {
        proof {
            lemma_count_zero(unqueued_pred(queued@), n as int);
            assert forall|k2: int| 0 <= k2 < cons.len() implies exists|jp: int, jc: int| 0 <= jp < jc < n
                && queue[jp] == prods[k2] && queue[jc] == #[trigger] cons[k2] by {
                assert(!unqueued_pred(queued@)(cons[k2] as int));
                assert(queued[cons[k2] as int]);
                let jc = choose|jc: int| 0 <= jc < queue.len() && #[trigger] queue@[jc] == cons[k2] as int;
                assert(queue[jc] == cons[k2]);
                let jp = choose|jp: int| 0 <= jp < jc && #[trigger] queue@[jp] == prods[k2] as int;
            }
            assert forall|y: int| 0 <= y < n implies queued_before(queue@, n as int, y) by {
                assert(!unqueued_pred(queued@)(y));
            }
        }
        Some(queue)
    } else {
        proof {
            lemma_count_positive(unqueued_pred(queued@), n as int);
            let s = Set::new(|y: int| 0 <= y < n && !queued@[y]);
            let y0 = choose|y: int| 0 <= y < n && #[trigger] unqueued_pred(queued@)(y);
            assert(s.contains(y0));
            assert forall|y: int| #[trigger] s.contains(y) implies exists|k2: int| 0 <= k2 < cons.len()
                && (#[trigger] cons[k2]) == y && s.contains(prods[k2] as int) by {
                assert(indeg[y] != 0);
                lemma_count_positive(pending_pred(cons@, done, y), m as int);
                let k2 = choose|k2: int| 0 <= k2 < m && #[trigger] pending_pred(cons@, done, y)(k2);
                assert(!done[k2]);
                assert(!queued_before(queue@, head as int, prods[k2] as int));
                assert(!queued[prods[k2] as int]);
                assert(s.contains(prods[k2] as int));
            }
            assert(index_cycle_set(n as int, prods@, cons@, s));
        }
        None
    }
}

// ---------------------------------------------------------------------------
// The launch order of a program
// ---------------------------------------------------------------------------

/// Why the launch sequence could not be ordered.
#[derive(Clone, Copy, Debug, PartialEq, Eq, Structural)]
pub enum LaunchOrderError {
    /// The carried producer/consumer dependency graph contains a cycle, so
    /// the launch sequence cannot follow it.
    Cycle,
}

/// The position of the launch with the given id.
pub open spec fn position_of_launch(launches: Seq<LaunchUnit>, id: u32) -> int {
    choose|i: int| 0 <= i < launches.len() && (#[trigger] launches[i]).id == id
}

/// The launch order Kahn's algorithm gives over the edges between launch
/// positions: seeded in declaration order, served first in, first out.
pub open spec fn kahn_launch_order(launches: Seq<LaunchUnit>, edges: Seq<DependencyEdge>) -> Seq<LaunchUnit> {
    let prods = edges.map_values(|e: DependencyEdge| position_of_launch(launches, e.producer) as usize);
    let cons = edges.map_values(|e: DependencyEdge| position_of_launch(launches, e.consumer) as usize);
    kahn_queue(launches.len(), prods, cons).map_values(|i: usize| launches[i as int])
}

proof fn lemma_position_of_launch(launches: Seq<LaunchUnit>, id: u32, i: int)
    requires
        distinct_launch_ids(launches),
        0 <= i < launches.len(),
        launches[i].id == id,
    ensures
        position_of_launch(launches, id) == i,
{
    let c = position_of_launch(launches, id);
    assert(0 <= c < launches.len() && launches[c].id == id);
    if c < i {
        assert(launches[c].id != launches[i].id);
    } else if i < c {
        assert(launches[i].id != launches[c].id);
    }
}

fn launch_index(launches: &Vec<LaunchUnit>, id: u32) -> (i: usize)
    requires
        is_launch_id(launches@, id),
    ensures
        i < launches.len(),
        launches[i as int].id == id,
{
    let mut i: usize = 0;
    while i < launches.len()
        invariant
            i <= launches.len(),
            is_launch_id(launches@, id),
            forall|j: int| 0 <= j < i ==> (#[trigger] launches@[j]).id != id,
        decreases launches.len() - i,
    {
        if launches[i].id == id {
            return i;
        }
        i = i + 1;
    }
    proof {
        let j = choose|j: int| 0 <= j < launches.len() && (#[trigger] launches@[j]).id == id;
        assert(launches@[j].id != id);
    }
    0
}

/// The edges the launch order follows (see [`ordering_edges`]).
fn ordering_edges_of(program: &DeviceProgram, excluded: &Vec<u32>) -> (kept: Vec<DependencyEdge>)
    ensures
        kept@ == ordering_edges(data_flow_of(*program), excluded@),
{
    let edges = data_flow_pairs(program);
    let mut kept: Vec<DependencyEdge> = Vec::new();
    let mut i: usize = 0;
    while i < edges.len()
        invariant
            i <= edges.len(),
            kept@ == ordering_edges(edges@.take(i as int), excluded@),
        decreases edges.len() - i,
    {
        let e = edges[i];
        assert(edges@.take(i + 1).drop_last() =~= edges@.take(i as int));
        assert(edges@.take(i + 1).last() == e);
        if !contains_u32(excluded, e.buffer) && e.producer != e.consumer {
            kept.push(e);
        }
        i = i + 1;
    }
    assert(edges@.take(edges@.len() as int) =~= edges@);
    kept
}

/// Order the launches of a program so that every producer runs before each
/// of its consumers over the data-flow edges whose buffer is not excluded.
/// Independent launches keep their declaration order (Kahn's algorithm,
/// seeded in declaration order). Fails exactly when the graph has a cycle.
pub fn dependency_ordered_launches(program: &DeviceProgram, excluded: &Vec<u32>) -> (r: Result<Vec<LaunchUnit>, LaunchOrderError>)
    requires
        distinct_launch_ids(program.launches@),
    ensures
        match r {
            Ok(order) => follows_edges(order@, program.launches@, ordering_edges(data_flow_of(*program), excluded@))
                && distinct_launch_ids(order@),
            Err(_) => has_cycle(program.launches@, ordering_edges(data_flow_of(*program), excluded@)),
        },
        r is Err <==> has_cycle(program.launches@, ordering_edges(data_flow_of(*program), excluded@)),
        r matches Ok(order) ==> order@ == kahn_launch_order(program.launches@, ordering_edges(data_flow_of(*program), excluded@)),
{
    let ghost edges_spec = ordering_edges(data_flow_of(*program), excluded@);
    let kept = ordering_edges_of(program, excluded);
    proof {
        lemma_ordering_edges_subset(data_flow_of(*program), excluded@);
        lemma_data_flow_ends(*program);
        lemma_ordering_edges_ends(data_flow_of(*program), excluded@);
    }
    let launches = &program.launches;
    let n = launches.len();
    let mut prods: Vec<usize> = Vec::new();
    let mut cons: Vec<usize> = Vec::new();
    let mut k: usize = 0;
    while k < kept.len()
        invariant
            k <= kept.len(),
            kept@ == edges_spec,
            n == launches.len(),
            prods.len() == k,
            cons.len() == k,
            forall|k2: int| 0 <= k2 < kept.len() ==> is_launch_id(launches@, (#[trigger] kept@[k2]).producer)
                && is_launch_id(launches@, kept@[k2].consumer) && kept@[k2].producer != kept@[k2].consumer,
            forall|k2: int| 0 <= k2 < k ==> #[trigger] prods[k2] < n && cons[k2] < n
                && launches[prods[k2] as int].id == kept@[k2].producer && launches[cons[k2] as int].id == kept@[k2].consumer,
            distinct_launch_ids(launches@),
            forall|k2: int| 0 <= k2 < k ==> #[trigger] prods[k2] as int == position_of_launch(launches@, kept@[k2].producer)
                && cons[k2] as int == position_of_launch(launches@, kept@[k2].consumer),
        decreases kept.len() - k,
    {
        let e = kept[k];
        let pi = launch_index(launches, e.producer);
        let ci = launch_index(launches, e.consumer);
        proof {
            lemma_position_of_launch(launches@, e.producer, pi as int);
            lemma_position_of_launch(launches@, e.consumer, ci as int);
        }
        prods.push(pi);
        cons.push(ci);
        k = k + 1;
    }
    proof {
        assert forall|k2: int| #![trigger prods@[k2]] #![trigger cons@[k2]] 0 <= k2 < cons.len()
            implies prods[k2] < n && cons[k2] < n && prods[k2] != cons[k2] by {
            assert(launches[prods[k2] as int].id == kept@[k2].producer);
        }
    }
    proof {
        assert(prods@ =~= edges_spec.map_values(|e: DependencyEdge| position_of_launch(launches@, e.producer) as usize));
        assert(cons@ =~= edges_spec.map_values(|e: DependencyEdge| position_of_launch(launches@, e.consumer) as usize));
    }
    match kahn_order(n, &prods, &cons) {
        Some(q) => {
            let mut order: Vec<LaunchUnit> = Vec::new();
            let mut j: usize = 0;
            while j < q.len()
                invariant
                    j <= q.len(),
                    q.len() == n,
                    n == launches.len(),
                    forall|j2: int| 0 <= j2 < q.len() ==> #[trigger] q[j2] < n,
                    order.len() == j,
                    forall|j2: int| 0 <= j2 < j ==> #[trigger] order@[j2] == launches@[q[j2] as int],
                decreases q.len() - j,
            {
                order.push(launches[q[j]]);
                j = j + 1;
            }
            proof {
                assert(drawn_from(order@, launches@)) by {
                    reveal(drawn_from);
                    assert forall|j2: int| 0 <= j2 < order.len() implies exists|i: int| 0 <= i < launches.len()
                        && #[trigger] order@[j2] == launches@[i] by {
                        assert(order@[j2] == launches@[q[j2] as int]);
                    }
                }
                assert(drawn_from(launches@, order@)) by {
                    reveal(drawn_from);
                    assert forall|i: int| 0 <= i < launches.len() implies exists|j2: int| 0 <= j2 < order.len()
                        && #[trigger] launches@[i] == order@[j2] by {
                        assert(queued_before(q@, n as int, i));
                        let j2 = choose|j2: int| 0 <= j2 < n && #[trigger] q@[j2] == i;
                        assert(order@[j2] == launches@[i]);
                    }
                }
                assert forall|k2: int| 0 <= k2 < edges_spec.len() implies edge_ordered(order@, #[trigger] edges_spec[k2]) by {
                    assert(launches[cons[k2] as int].id == kept@[k2].consumer);
                    let (jp, jc) = choose|jp: int, jc: int| 0 <= jp < jc < n && q[jp] == prods[k2] && q[jc] == #[trigger] cons[k2];
                    assert(order@[jp] == launches@[q[jp] as int]);
                    assert(order@[jc] == launches@[q[jc] as int]);
                }
                assert forall|a: int, b: int| 0 <= a < b < order.len() implies order@[a].id != order@[b].id by {
                    assert(order@[a] == launches@[q[a] as int]);
                    assert(order@[b] == launches@[q[b] as int]);
                    assert(q[a] != q[b]);
                    if q[a] < q[b] {
                        assert(launches@[q[a] as int].id != launches@[q[b] as int].id);
                    } else {
                        assert(launches@[q[b] as int].id != launches@[q[a] as int].id);
                    }
                }
                lemma_order_excludes_cycle(order@, launches@, edges_spec);
                assert(order@ =~= q@.map_values(|i: usize| launches@[i as int]));
            }
            Ok(order)
        },
        None => {
            proof {
                let s = choose|s: Set<int>| #[trigger] index_cycle_set(n as int, prods@, cons@, s);
                let ids = Set::new(|x: u32| exists|i: int| #[trigger] s.contains(i) && launches@[i].id == x);
                let i0 = choose|i: int| #[trigger] s.contains(i);
                assert(ids.contains(launches@[i0].id));
                assert forall|x: u32| #[trigger] ids.contains(x) implies is_launch_id(launches@, x) by {
                    let i = choose|i: int| #[trigger] s.contains(i) && launches@[i].id == x;
                }
                assert forall|x: u32| #[trigger] ids.contains(x) implies fed_from(edges_spec, ids, x) by {
                    reveal(fed_from);
                    let i = choose|i: int| #[trigger] s.contains(i) && launches@[i].id == x;
                    let k2 = choose|k2: int| 0 <= k2 < cons.len() && (#[trigger] cons@[k2]) == i && s.contains(prods@[k2] as int);
                    assert(launches[cons[k2] as int].id == kept@[k2].consumer);
                    assert(launches[prods[k2] as int].id == kept@[k2].producer);
                    assert(ids.contains(kept@[k2].producer));
                    assert(edges_spec[k2].consumer == x);
                }
                assert(cycle_set(launches@, edges_spec, ids));
            }
            Err(LaunchOrderError::Cycle)
        },
    }
}

proof fn lemma_ordering_edges_ends(edges: Seq<DependencyEdge>, excluded: Seq<u32>)
    ensures
        forall|k: int| 0 <= k < ordering_edges(edges, excluded).len() ==> (#[trigger] ordering_edges(edges, excluded)[k]).producer
            != ordering_edges(edges, excluded)[k].consumer,
    decreases edges.len(),
{
    if edges.len() > 0 {
        lemma_ordering_edges_ends(edges.drop_last(), excluded);
        let es = ordering_edges(edges, excluded);
        let prev = ordering_edges(edges.drop_last(), excluded);
        assert forall|k: int| 0 <= k < es.len() implies (#[trigger] es[k]).producer != es[k].consumer by {
            if k < prev.len() {
                assert(es[k] == prev[k]);
            }
        }
    }
}

proof fn lemma_no_cycle_member_before(order: Seq<LaunchUnit>, edges: Seq<DependencyEdge>, s: Set<u32>, j: int)
    requires
        0 <= j < order.len(),
        distinct_launch_ids(order),
        forall|k: int| 0 <= k < edges.len() ==> edge_ordered(order, #[trigger] edges[k]),
        forall|x: u32| #[trigger] s.contains(x) ==> fed_from(edges, s, x),
    ensures
        forall|j2: int| 0 <= j2 <= j ==> !s.contains(#[trigger] order[j2].id),
    decreases j,
{
    if j > 0 {
        lemma_no_cycle_member_before(order, edges, s, j - 1);
    }
    if s.contains(order[j].id) {
        assert(fed_from(edges, s, order[j].id));
        reveal(fed_from);
        let k = choose|k: int| 0 <= k < edges.len() && (#[trigger] edges[k]).consumer == order[j].id && s.contains(edges[k].producer);
        assert(edge_ordered(order, edges[k]));
        let (jp, jc) = choose|jp: int, jc: int| 0 <= jp < jc < order.len() && (#[trigger] order[jp]).id == edges[k].producer
            && (#[trigger] order[jc]).id == edges[k].consumer;
        if jc != j {
            if jc < j {
                assert(order[jc].id != order[j].id);
            } else {
                assert(order[j].id != order[jc].id);
            }
        }
        assert(!s.contains(order[jp].id));
    }
}

/// A launch order that runs every producer before its consumer exists only
/// for a dependency graph without a cycle.
pub proof fn lemma_order_excludes_cycle(order: Seq<LaunchUnit>, launches: Seq<LaunchUnit>, edges: Seq<DependencyEdge>)
    requires
        follows_edges(order, launches, edges),
        distinct_launch_ids(order),
    ensures
        !has_cycle(launches, edges),
{
    if has_cycle(launches, edges) {
        let s = choose|s: Set<u32>| #[trigger] cycle_set(launches, edges, s);
        let x = choose|x: u32| #[trigger] s.contains(x);
        assert(is_launch_id(launches, x));
        let i = choose|i: int| 0 <= i < launches.len() && (#[trigger] launches[i]).id == x;
        assert(exists|j: int| 0 <= j < order.len() && #[trigger] launches[i] == order[j]) by {
            reveal(drawn_from);
        }
        let j = choose|j: int| 0 <= j < order.len() && #[trigger] launches[i] == order[j];
        lemma_no_cycle_member_before(order, edges, s, order.len() - 1);
        assert(!s.contains(order[j].id));
    }
}

} // verus!
