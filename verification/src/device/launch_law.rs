//! A constructed program runs every producer before its consumers: each
//! dependency edge of its semantic facts runs forward in its launch order.
use vstd::prelude::*;
use crate::device::constructor::construction_edges;
use crate::device::constructor::declared_launches;
use crate::device::constructor::param_buffer_ids;
use crate::device::facts::SlotAccess;
use crate::device::facts::accesses;
use crate::device::facts::data_flow_of;
use crate::device::facts::edges_from;
use crate::device::facts::is_param_buffer;
use crate::device::facts::launch_accesses;
use crate::device::facts::pairs;
use crate::device::facts::reads;
use crate::device::facts::semantics_of;
use crate::device::facts::without_param_edges;
use crate::device::order::drawn_from;
use crate::device::order::edge_ordered;
use crate::device::order::follows_edges;
use crate::device::order::ordering_edges;
use crate::device::program::ProgramBuffer;
use crate::device::schema::CompanionRelation;
use crate::device::schema::DependencyEdge;
use crate::device::schema::DeviceProgram;
use crate::device::schema::DeviceSemantics;
use crate::device::schema::KernelUnit;
use crate::device::schema::LaunchUnit;
use crate::device::schema::writes;

verus! {

/// The edge from a producing access to a consuming one.
pub open spec fn edge_between(p: SlotAccess, c: SlotAccess) -> DependencyEdge {
    DependencyEdge { producer: p.launch, consumer: c.launch, buffer: p.buffer, version: p.version }
}

/// A consuming access of the same buffer version in another launch.
pub open spec fn consumes(p: SlotAccess, c: SlotAccess) -> bool {
    reads(c.access) && c.buffer == p.buffer && c.version == p.version && c.launch != p.launch
}

proof fn lemma_edges_from_member(p: SlotAccess, cs: Seq<SlotAccess>, e: DependencyEdge)
    requires
        edges_from(p, cs).contains(e),
    ensures
        exists|m: int| 0 <= m < cs.len() && consumes(p, #[trigger] cs[m]) && e == edge_between(p, cs[m]),
    decreases cs.len(),
{
    let es = edges_from(p, cs);
    let prev = edges_from(p, cs.drop_last());
    let k = choose|k: int| 0 <= k < es.len() && es[k] == e;
    if k < prev.len() && es[k] == prev[k] {
        assert(prev.contains(e));
        lemma_edges_from_member(p, cs.drop_last(), e);
        let m = choose|m: int| 0 <= m < cs.drop_last().len() && consumes(p, #[trigger] cs.drop_last()[m])
            && e == edge_between(p, cs.drop_last()[m]);
        assert(cs[m] == cs.drop_last()[m]);
    } else {
        assert(cs[cs.len() - 1] == cs.last());
    }
}

proof fn lemma_edges_from_has(p: SlotAccess, cs: Seq<SlotAccess>, m: int)
    requires
        0 <= m < cs.len(),
        consumes(p, cs[m]),
    ensures
        edges_from(p, cs).contains(edge_between(p, cs[m])),
    decreases cs.len(),
{
    let es = edges_from(p, cs);
    let prev = edges_from(p, cs.drop_last());
    if m == cs.len() - 1 {
        assert(es[es.len() - 1] == edge_between(p, cs[m]));
    } else {
        assert(cs.drop_last()[m] == cs[m]);
        lemma_edges_from_has(p, cs.drop_last(), m);
        let k = choose|k: int| 0 <= k < prev.len() && prev[k] == edge_between(p, cs[m]);
        assert(es[k] == prev[k]);
    }
}

proof fn lemma_pairs_member(ps: Seq<SlotAccess>, all: Seq<SlotAccess>, e: DependencyEdge)
    requires
        pairs(ps, all).contains(e),
    ensures
        exists|q: int| 0 <= q < ps.len() && writes((#[trigger] ps[q]).access) && edges_from(ps[q], all).contains(e),
    decreases ps.len(),
{
    let es = pairs(ps, all);
    let prev = pairs(ps.drop_last(), all);
    let k = choose|k: int| 0 <= k < es.len() && es[k] == e;
    if k < prev.len() {
        assert(es[k] == prev[k]);
        lemma_pairs_member(ps.drop_last(), all, e);
        let q = choose|q: int| 0 <= q < ps.drop_last().len() && writes((#[trigger] ps.drop_last()[q]).access)
            && edges_from(ps.drop_last()[q], all).contains(e);
        assert(ps[q] == ps.drop_last()[q]);
    } else {
        let last = ps.last();
        assert(ps[ps.len() - 1] == last);
        assert(writes(last.access));
        assert(edges_from(last, all)[k - prev.len()] == e);
    }
}

proof fn lemma_pairs_has(ps: Seq<SlotAccess>, all: Seq<SlotAccess>, q: int, e: DependencyEdge)
    requires
        0 <= q < ps.len(),
        writes(ps[q].access),
        edges_from(ps[q], all).contains(e),
    ensures
        pairs(ps, all).contains(e),
    decreases ps.len(),
{
    let es = pairs(ps, all);
    let prev = pairs(ps.drop_last(), all);
    if q == ps.len() - 1 {
        let tail = edges_from(ps[q], all);
        let k = choose|k: int| 0 <= k < tail.len() && tail[k] == e;
        assert(ps.last() == ps[q]);
        assert(es[prev.len() + k] == e);
    } else {
        assert(ps.drop_last()[q] == ps[q]);
        lemma_pairs_has(ps.drop_last(), all, q, e);
        let k = choose|k: int| 0 <= k < prev.len() && prev[k] == e;
        assert(es[k] == prev[k]);
    }
}

proof fn lemma_accesses_member(ks: Seq<KernelUnit>, ls: Seq<LaunchUnit>, x: SlotAccess)
    requires
        accesses(ks, ls).contains(x),
    ensures
        exists|i: int| 0 <= i < ls.len() && launch_accesses(ks, #[trigger] ls[i]).contains(x),
    decreases ls.len(),
{
    let acc = accesses(ks, ls);
    let prev = accesses(ks, ls.drop_last());
    let k = choose|k: int| 0 <= k < acc.len() && acc[k] == x;
    if k < prev.len() {
        assert(acc[k] == prev[k]);
        lemma_accesses_member(ks, ls.drop_last(), x);
        let i = choose|i: int| 0 <= i < ls.drop_last().len() && launch_accesses(ks, #[trigger] ls.drop_last()[i]).contains(x);
        assert(ls[i] == ls.drop_last()[i]);
    } else {
        assert(ls[ls.len() - 1] == ls.last());
        assert(launch_accesses(ks, ls.last())[k - prev.len()] == x);
    }
}

proof fn lemma_accesses_has(ks: Seq<KernelUnit>, ls: Seq<LaunchUnit>, i: int, x: SlotAccess)
    requires
        0 <= i < ls.len(),
        launch_accesses(ks, ls[i]).contains(x),
    ensures
        accesses(ks, ls).contains(x),
    decreases ls.len(),
{
    let acc = accesses(ks, ls);
    let prev = accesses(ks, ls.drop_last());
    if i == ls.len() - 1 {
        let tail = launch_accesses(ks, ls[i]);
        let k = choose|k: int| 0 <= k < tail.len() && tail[k] == x;
        assert(ls.last() == ls[i]);
        assert(acc[prev.len() + k] == x);
    } else {
        assert(ls.drop_last()[i] == ls[i]);
        lemma_accesses_has(ks, ls.drop_last(), i, x);
        let k = choose|k: int| 0 <= k < prev.len() && prev[k] == x;
        assert(acc[k] == prev[k]);
    }
}

/// An access of a reordering of the launches is an access of the launches.
proof fn lemma_reordered_access(ks: Seq<KernelUnit>, order: Seq<LaunchUnit>, ls: Seq<LaunchUnit>, x: SlotAccess)
    requires
        drawn_from(order, ls),
        accesses(ks, order).contains(x),
    ensures
        accesses(ks, ls).contains(x),
{
    lemma_accesses_member(ks, order, x);
    let i = choose|i: int| 0 <= i < order.len() && launch_accesses(ks, #[trigger] order[i]).contains(x);
    reveal(drawn_from);
    let j = choose|j: int| 0 <= j < ls.len() && #[trigger] order[i] == ls[j];
    lemma_accesses_has(ks, ls, j, x);
}

proof fn lemma_ordering_edges_has(edges: Seq<DependencyEdge>, excluded: Seq<u32>, e: DependencyEdge)
    requires
        edges.contains(e),
        !excluded.contains(e.buffer),
        e.producer != e.consumer,
    ensures
        ordering_edges(edges, excluded).contains(e),
    decreases edges.len(),
{
    let es = ordering_edges(edges, excluded);
    let prev = ordering_edges(edges.drop_last(), excluded);
    let k = choose|k: int| 0 <= k < edges.len() && edges[k] == e;
    if k == edges.len() - 1 {
        assert(edges.last() == e);
        assert(es[es.len() - 1] == e);
    } else {
        assert(edges.drop_last()[k] == e);
        lemma_ordering_edges_has(edges.drop_last(), excluded, e);
        let m = choose|m: int| 0 <= m < prev.len() && prev[m] == e;
        assert(es[m] == prev[m]);
    }
}

proof fn lemma_without_param_member(edges: Seq<DependencyEdge>, buffers: Seq<ProgramBuffer>, e: DependencyEdge)
    requires
        without_param_edges(edges, buffers).contains(e),
    ensures
        edges.contains(e),
        !is_param_buffer(buffers, e.buffer),
    decreases edges.len(),
{
    let es = without_param_edges(edges, buffers);
    let prev = without_param_edges(edges.drop_last(), buffers);
    let k = choose|k: int| 0 <= k < es.len() && es[k] == e;
    if k < prev.len() {
        assert(es[k] == prev[k]);
        lemma_without_param_member(edges.drop_last(), buffers, e);
        let m = choose|m: int| 0 <= m < edges.drop_last().len() && edges.drop_last()[m] == e;
        assert(edges[m] == e);
    } else {
        assert(edges[edges.len() - 1] == edges.last());
    }
}

proof fn lemma_param_ids_member(buffers: Seq<ProgramBuffer>, id: u32)
    requires
        param_buffer_ids(buffers).contains(id),
    ensures
        is_param_buffer(buffers, id),
    decreases buffers.len(),
{
    let ids = param_buffer_ids(buffers);
    let prev = param_buffer_ids(buffers.drop_last());
    let k = choose|k: int| 0 <= k < ids.len() && ids[k] == id;
    if buffers.last().param && k == prev.len() {
        assert(buffers[buffers.len() - 1] == buffers.last());
    } else {
        assert(ids[k] == prev[k]);
        lemma_param_ids_member(buffers.drop_last(), id);
        let i = choose|i: int| 0 <= i < buffers.drop_last().len() && (#[trigger] buffers.drop_last()[i]).param
            && buffers.drop_last()[i].id == id;
        assert(buffers[i] == buffers.drop_last()[i]);
    }
}

/// A constructed program runs every producer before its consumers: each
/// dependency edge its semantic facts carry runs from a launch earlier in
/// the launch order to a later one.
pub proof fn law_dependencies_run_forward(
    program: DeviceProgram,
    semantics: DeviceSemantics,
    buffers: Seq<ProgramBuffer>,
    companions: Seq<CompanionRelation>,
    n: nat,
)
    requires
        follows_edges(program.launches@, declared_launches(n), construction_edges(program.kernels@, n, buffers)),
        semantics_of(semantics, program, buffers, companions),
    ensures
        forall|k: int| 0 <= k < semantics.dependencies@.len() ==> edge_ordered(program.launches@, #[trigger] semantics.dependencies@[k]),
{
    let ks = program.kernels@;
    let order = program.launches@;
    let ls = declared_launches(n);
    let acc = accesses(ks, order);
    let acc2 = accesses(ks, ls);
    let ce = construction_edges(ks, n, buffers);
    assert forall|k: int| 0 <= k < semantics.dependencies@.len() implies edge_ordered(order, #[trigger] semantics.dependencies@[k]) by {
        let e = semantics.dependencies@[k];
        assert(without_param_edges(data_flow_of(program), buffers).contains(e));
        lemma_without_param_member(data_flow_of(program), buffers, e);
        lemma_pairs_member(acc, acc, e);
        let q = choose|q: int| 0 <= q < acc.len() && writes((#[trigger] acc[q]).access) && edges_from(acc[q], acc).contains(e);
        lemma_edges_from_member(acc[q], acc, e);
        let m = choose|m: int| 0 <= m < acc.len() && consumes(acc[q], #[trigger] acc[m]) && e == edge_between(acc[q], acc[m]);
        assert(acc.contains(acc[q]));
        assert(acc.contains(acc[m]));
        lemma_reordered_access(ks, order, ls, acc[q]);
        lemma_reordered_access(ks, order, ls, acc[m]);
        let q2 = choose|q2: int| 0 <= q2 < acc2.len() && acc2[q2] == acc[q];
        let m2 = choose|m2: int| 0 <= m2 < acc2.len() && acc2[m2] == acc[m];
        lemma_edges_from_has(acc2[q2], acc2, m2);
        lemma_pairs_has(acc2, acc2, q2, e);
        if param_buffer_ids(buffers).contains(e.buffer) {
            lemma_param_ids_member(buffers, e.buffer);
        }
        lemma_ordering_edges_has(pairs(acc2, acc2), param_buffer_ids(buffers), e);
        let j = choose|j: int| 0 <= j < ce.len() && ce[j] == e;
        assert(edge_ordered(order, ce[j]));
    }
}

} // verus!
