//! The prefill device program assembled from the kernel graph: each
//! request's kernel from the compiler's ABI facts for its recipe, launched in
//! graph order, with the tied-head logits as the program's observation.
use vstd::prelude::*;
use crate::device::prefill::BufferFacts;
use crate::device::prefill::SignatureResource;
use crate::device::prefill::binds;
use crate::device::prefill::build_semantics;
use crate::device::prefill::chained_edges;
use crate::device::prefill::resources_from_signature;
use crate::device::prefill::storage_slots;
use crate::device::prefill_graph::GraphBuilder;
use crate::device::prefill_graph::KernelRequest;
use crate::device::prefill_graph::Recipe;
use crate::device::facts::roots_of;
use crate::device::schema::BufferRole;
use crate::device::schema::BufferVersion;
use crate::device::schema::DeviceProgram;
use crate::device::schema::DeviceSemantics;
use crate::device::schema::KernelLaunchPlan;
use crate::device::schema::KernelPlan;
use crate::device::schema::KernelUnit;
use crate::device::schema::LaunchUnit;
use crate::device::schema::ObservationCadence;
use crate::device::schema::ProgramLifetime;
use crate::device::schema::ResultBuffer;
use crate::device::schema::StorageLayout;

verus! {

/// What the compiler's kernel ABI derivation states for one request's
/// recipe: its function id, signature resources, plan and launch, and its
/// output resource.
pub struct DerivedKernel {
    pub function: u32,
    pub signature: Vec<SignatureResource>,
    pub plan: KernelPlan,
    pub launch: KernelLaunchPlan,
    pub output: SignatureResource,
}

/// The buffers a request's kernel binds, in slot order: its inputs, then its
/// output.
pub open spec fn request_facts(req: KernelRequest) -> Seq<BufferFacts> {
    req.inputs@.push(req.output)
}

/// A kernel assembled from a request and its derived ABI facts: the
/// derived function, plan and launch, the request's entry, and one slot per
/// storage resource of the signature bound to the request's buffers in
/// order (as many as both have).
pub open spec fn kernel_assembled(k: KernelUnit, req: KernelRequest, d: DerivedKernel) -> bool {
    let slots = storage_slots(d.signature@);
    let facts = request_facts(req);
    &&& k.function == d.function
    &&& k.entry == req.entry
    &&& k.plan == d.plan
    &&& k.launch == d.launch
    &&& k.resources@.len() == if slots.len() < facts.len() { slots.len() } else { facts.len() }
    &&& forall|i: int| 0 <= i < k.resources@.len() ==> binds(#[trigger] k.resources@[i], slots[i], facts[i])
}

/// The observation row of the tied-head logits request launched by
/// `produced_by`: its output buffer at version 1 with the derived output's
/// element facts, observed every step.
pub open spec fn logits_row(r: ResultBuffer, req: KernelRequest, d: DerivedKernel, produced_by: u32) -> bool {
    &&& r.buffer.id == req.output.id
    &&& r.buffer.name@ == req.output.name@
    &&& r.buffer.role == req.output.role
    &&& r.buffer.storage == StorageLayout::DeviceHandle
    &&& r.buffer.lifetime == req.output.lifetime
    &&& r.version == BufferVersion {
        version: 1,
        element_ty: d.output.element_ty,
        element_count: d.output.element_count,
        reduced_projection: d.output.reduced_projection,
    }
    &&& r.role == BufferRole::Output
    &&& r.produced_by == produced_by
    &&& r.cadence == ObservationCadence::PerStep
}

/// The observation rows of the first `n` requests: one logits row per
/// tied-head logits request, in request order.
pub open spec fn logits_rows(results: Seq<ResultBuffer>, reqs: Seq<KernelRequest>, ds: Seq<DerivedKernel>, n: int) -> bool {
    let ps = logits_positions(reqs, n);
    &&& results.len() == ps.len()
    &&& forall|t: int| 0 <= t < results.len() ==> logits_row(#[trigger] results[t], reqs[ps[t]], ds[ps[t]], (ps[t] + 1) as u32)
}

/// Launch `i` runs kernel `i` with id `i + 1`.
pub open spec fn launch_at(l: LaunchUnit, i: int) -> bool {
    l.id == i + 1 && l.kernel_index == i
}

/// The positions of the tied-head logits requests among the first `n`.
pub open spec fn logits_positions(reqs: Seq<KernelRequest>, n: int) -> Seq<int>
    decreases n,
{
    if n <= 0 {
        Seq::empty()
    } else if reqs[n - 1].recipe == Recipe::MatMulTiedHead {
        logits_positions(reqs, n - 1).push(n - 1)
    } else {
        logits_positions(reqs, n - 1)
    }
}

/// The output id of the last tied-head logits request among the first `n`,
/// or 0 when there is none.
pub open spec fn logits_id(reqs: Seq<KernelRequest>, n: int) -> u32
    decreases n,
{
    if n <= 0 {
        0
    } else if reqs[n - 1].recipe == Recipe::MatMulTiedHead {
        reqs[n - 1].output.id
    } else {
        logits_id(reqs, n - 1)
    }
}

/// Assemble the prefill device program from the kernel graph and, for each
/// request in order, the ABI facts derived for its recipe: kernel `i` is
/// request `i`'s kernel with launch id `i + 1`; each tied-head logits
/// request's output is observed every step; the program runs once, with the
/// chained dependency facts. Returns the program, its semantic facts, and
/// the logits buffer id.
pub fn assemble_prefill_program(graph: GraphBuilder, derived: Vec<DerivedKernel>) -> (r: (DeviceProgram, DeviceSemantics, u32))
    requires
        graph.assembler.wf(),
        graph.assembler.kernels@.len() == 0,
        graph.assembler.results@.len() == 0,
        derived@.len() == graph.requests@.len(),
        graph.requests@.len() < u32::MAX,
    ensures
        r.0.lifetime == ProgramLifetime::SingleRun,
        r.0.kernels@.len() == graph.requests@.len(),
        forall|i: int| 0 <= i < graph.requests@.len() ==> kernel_assembled(#[trigger] r.0.kernels@[i], graph.requests@[i], derived@[i]),
        r.0.launches@.len() == graph.requests@.len(),
        forall|i: int| 0 <= i < graph.requests@.len() ==> launch_at(#[trigger] r.0.launches@[i], i),
        logits_rows(r.0.results@, graph.requests@, derived@, graph.requests@.len() as int),
        r.2 == logits_id(graph.requests@, graph.requests@.len() as int),
        r.1.dependencies@ == chained_edges(r.0, r.0.launches@.len()),
        r.1.roots@ == roots_of(r.0.launches@, r.1.dependencies@),
{
    let ghost reqs0 = graph.requests@;
    let ghost ds0 = derived@;
    let n = graph.requests.len();
    let mut assembler = graph.assembler;
    let mut requests = graph.requests;
    let mut derived = derived;
    let mut logits: u32 = 0;
    let mut i: usize = 0;
    assert(reqs0.skip(0) =~= reqs0);
    assert(ds0.skip(0) =~= ds0);
    while i < n
        invariant
            i <= n,
            n == reqs0.len(),
            ds0.len() == n,
            n < u32::MAX,
            requests@ == reqs0.skip(i as int),
            derived@ == ds0.skip(i as int),
            assembler.wf(),
            assembler.kernels@.len() == i,
            forall|j: int| 0 <= j < i ==> kernel_assembled(#[trigger] assembler.kernels@[j], reqs0[j], ds0[j]),
            logits_rows(assembler.results@, reqs0, ds0, i as int),
            forall|t: int| 0 <= t < logits_positions(reqs0, i as int).len() ==> 0 <= #[trigger] logits_positions(reqs0, i as int)[t] < i,
            logits == logits_id(reqs0, i as int),
        decreases n - i,
    {
        let request = requests.remove(0);
        let d = derived.remove(0);
        proof {
            assert(request == reqs0[i as int]);
            assert(d == ds0[i as int]);
            assert(requests@ =~= reqs0.skip(i + 1));
            assert(derived@ =~= ds0.skip(i + 1));
        }
        let ghost before = assembler.results@;
        let is_logits = request.recipe == Recipe::MatMulTiedHead;
        let identity = request.output.identity();
        let output_id = request.output.id;
        let mut facts = request.inputs;
        facts.push(request.output);
        let resources = resources_from_signature(&d.signature, &facts);
        let produced_by = assembler.push_kernel(d.function, request.entry, d.plan, resources, d.launch);
        if is_logits {
            logits = output_id;
            assembler.results.push(ResultBuffer {
                buffer: identity,
                version: BufferVersion {
                    version: 1,
                    element_ty: d.output.element_ty,
                    element_count: d.output.element_count,
                    reduced_projection: d.output.reduced_projection,
                },
                role: BufferRole::Output,
                produced_by,
                cadence: ObservationCadence::PerStep,
            });
        }
        proof {
            assert(facts@ =~= request_facts(reqs0[i as int]));
            let ps = logits_positions(reqs0, i + 1);
            assert forall|t: int| 0 <= t < assembler.results@.len() implies logits_row(#[trigger] assembler.results@[t],
                reqs0[ps[t]], ds0[ps[t]], (ps[t] + 1) as u32) by {
                if t < before.len() {
                    assert(assembler.results@[t] == before[t]);
                }
            }
        }
        i = i + 1;
    }
    let program = DeviceProgram {
        lifetime: ProgramLifetime::SingleRun,
        kernels: assembler.kernels,
        launches: assembler.launches,
        results: assembler.results,
    };
    let semantics = build_semantics(&program);
    (program, semantics, logits)
}

} // verus!
