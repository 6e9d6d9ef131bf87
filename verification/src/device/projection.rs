//! The projection of a constructed device program and its semantic facts
//! onto the typed wire.
use vstd::prelude::*;
use crate::device::schema::BroadcastFact;
use crate::device::schema::BufferIdentity;
use crate::device::schema::BufferVersion;
use crate::device::schema::CompanionRelation;
use crate::device::schema::DependencyEdge;
use crate::device::schema::DeviceProgram;
use crate::device::schema::DeviceResource;
use crate::device::schema::DeviceSemantics;
use crate::device::schema::InitializationFact;
use crate::device::schema::InitializationPolicy;
use crate::device::schema::KernelPlan;
use crate::device::schema::LaunchUnit;
use crate::device::schema::ProgramLifetime;
use crate::device::schema::ResultBuffer;
use crate::device::schema::SemanticValue;
use crate::device::schema::ValueBinding;
use crate::device::schema::ValueGeneration;
use crate::device::schema::writes;
use crate::device::wire::WireBufferIdentity;
use crate::device::wire::WireBufferVersion;
use crate::device::wire::WireDeviceProgram;
use crate::device::wire::WireDeviceResource;
use crate::device::wire::WireKernelUnit;
use crate::device::wire::WireLaunchUnit;
use crate::device::wire::WireObservationFact;
use crate::device::wire::WireProgramLifetime;
use crate::device::wire::WireResultBuffer;
use crate::device::wire::WireSemanticValue;
use crate::naming::owned;
use crate::search::first_where;
use crate::search::lemma_first_where_is;
use crate::search::lemma_first_where_none;

verus! {

broadcast use vstd::string::group_string_axioms;

pub open spec fn f32_spelling() -> Seq<char> {
    seq!['f', '3', '2']
}

/// The element-type spelling of a buffer version. The device-program schema
/// pins `f32` as the campaign dtype, so every element type spells `f32`.
pub fn data_type_spelling(_element_ty: u32) -> (s: String)
    ensures
        s@ == f32_spelling(),
{
    proof {
        reveal_strlit("f32");
    }
    assert("f32"@ =~= f32_spelling());
    owned("f32")
}

/// The wire identity of a buffer reference: the buffer facts plus the
/// semantic value it holds (one value per buffer, keyed by the buffer id).
pub open spec fn wire_identity_of(b: BufferIdentity) -> WireBufferIdentity {
    WireBufferIdentity {
        id: b.id,
        name: b.name,
        role: b.role,
        storage: b.storage,
        lifetime: b.lifetime,
        semantic_value: b.id,
    }
}

/// The wire version of a buffer version (the element type by its spelling).
pub open spec fn wire_version_matches(w: WireBufferVersion, v: BufferVersion) -> bool {
    &&& w.version == v.version
    &&& w.element_ty@ == f32_spelling()
    &&& w.element_count == v.element_count
    &&& w.reduced_projection == v.reduced_projection
}

pub fn wire_buffer_identity(b: &BufferIdentity) -> (w: WireBufferIdentity)
    ensures
        w == wire_identity_of(*b),
{
    WireBufferIdentity {
        id: b.id,
        name: b.name.clone(),
        role: b.role,
        storage: b.storage,
        lifetime: b.lifetime,
        semantic_value: b.id,
    }
}

pub fn wire_buffer_version(v: &BufferVersion) -> (w: WireBufferVersion)
    ensures
        wire_version_matches(w, *v),
{
    WireBufferVersion {
        version: v.version,
        element_ty: data_type_spelling(v.element_ty),
        element_count: v.element_count,
        reduced_projection: v.reduced_projection,
    }
}

/// The position of a launch in the ordered execution sequence
/// (`usize::MAX` when no launch has the id).
pub open spec fn launch_position_of(launches: Seq<LaunchUnit>, id: u32) -> int {
    match first_where(launches, |l: LaunchUnit| l.id == id) {
        Some(i) => i,
        None => usize::MAX as int,
    }
}

pub fn launch_position(program: &DeviceProgram, id: u32) -> (p: usize)
    ensures
        p as int == launch_position_of(program.launches@, id),
{
    let launches = &program.launches;
    let mut i: usize = 0;
    while i < launches.len()
        invariant
            i <= launches.len(),
            launches@ == program.launches@,
            forall|m: int| 0 <= m < i ==> (#[trigger] launches@[m]).id != id,
        decreases launches.len() - i,
    {
        if launches[i].id == id {
            proof {
                lemma_first_where_is(launches@, |l: LaunchUnit| l.id == id, i as int);
            }
            return i;
        }
        i = i + 1;
    }
    proof {
        lemma_first_where_none(launches@, |l: LaunchUnit| l.id == id);
    }
    usize::MAX
}

/// The largest generation of `value` produced by a launch positioned before
/// `position`, if any.
pub open spec fn latest_generation_before(
    gens: Seq<ValueGeneration>,
    launches: Seq<LaunchUnit>,
    value: u32,
    position: int,
) -> Option<u32>
    decreases gens.len(),
{
    if gens.len() == 0 {
        None
    } else {
        let prev = latest_generation_before(gens.drop_last(), launches, value, position);
        let g = gens.last();
        if g.value == value && launch_position_of(launches, g.produced_by) < position {
            match prev {
                Some(p) => Some(if p >= g.generation { p } else { g.generation }),
                None => Some(g.generation),
            }
        } else {
            prev
        }
    }
}

/// The explicit value generation a kernel slot carries on the wire: a
/// write or read-write slot carries the generation its launch produces; a
/// read slot carries the latest generation produced before its launch, or
/// the initial state `1`. A slot whose buffer binds no value, or whose
/// kernel is never launched, carries `1`.
pub open spec fn slot_generation(program: DeviceProgram, semantics: DeviceSemantics, kernel_index: int, r: DeviceResource) -> u32 {
    match first_where(semantics.bindings@, |b: ValueBinding| b.buffer == r.buffer.id) {
        None => 1,
        Some(bi) => {
            let value = semantics.bindings@[bi].value;
            match first_where(program.launches@, |l: LaunchUnit| l.kernel_index == kernel_index) {
                None => 1,
                Some(li) => {
                    let launch = program.launches@[li];
                    if writes(r.access) {
                        match first_where(semantics.generations@, |g: ValueGeneration| g.value == value && g.produced_by == launch.id) {
                            Some(gi) => semantics.generations@[gi].generation,
                            None => 1,
                        }
                    } else {
                        match latest_generation_before(
                            semantics.generations@,
                            program.launches@,
                            value,
                            launch_position_of(program.launches@, launch.id),
                        ) {
                            Some(g) => g,
                            None => 1,
                        }
                    }
                },
            }
        },
    }
}

/// The slot's explicit value generation (see [`slot_generation`]).
#[verifier::loop_isolation(false)]
pub fn wire_slot_generation(program: &DeviceProgram, semantics: &DeviceSemantics, kernel_index: usize, r: &DeviceResource) -> (g: u32)
    ensures
        g == slot_generation(*program, *semantics, kernel_index as int, *r),
{
    let bindings = &semantics.bindings;
    let ghost pb = |b: ValueBinding| b.buffer == r.buffer.id;
    let mut bi: usize = 0;
    while bi < bindings.len() && bindings[bi].buffer != r.buffer.id
        invariant
            bi <= bindings.len(),
            forall|m: int| 0 <= m < bi ==> !pb(#[trigger] bindings@[m]),
        decreases bindings.len() - bi,
    {
        bi = bi + 1;
    }
    if bi == bindings.len() {
        proof {
            lemma_first_where_none(bindings@, pb);
        }
        return 1;
    }
    proof {
        lemma_first_where_is(bindings@, pb, bi as int);
    }
    let value = bindings[bi].value;
    let launches = &program.launches;
    let ghost pl = |l: LaunchUnit| l.kernel_index == kernel_index as int;
    let mut li: usize = 0;
    while li < launches.len() && launches[li].kernel_index != kernel_index
        invariant
            li <= launches.len(),
            forall|m: int| 0 <= m < li ==> !pl(#[trigger] launches@[m]),
        decreases launches.len() - li,
    {
        li = li + 1;
    }
    if li == launches.len() {
        proof {
            lemma_first_where_none(launches@, pl);
        }
        return 1;
    }
    proof {
        lemma_first_where_is(launches@, pl, li as int);
    }
    let launch = launches[li];
    let gens = &semantics.generations;
    if r.access != crate::device::schema::ResourceAccess::Read {
        let ghost pg = |g: ValueGeneration| g.value == value && g.produced_by == launch.id;
        let mut gi: usize = 0;
        while gi < gens.len() && !(gens[gi].value == value && gens[gi].produced_by == launch.id)
            invariant
                gi <= gens.len(),
                forall|m: int| 0 <= m < gi ==> !pg(#[trigger] gens@[m]),
            decreases gens.len() - gi,
        {
            gi = gi + 1;
        }
        if gi == gens.len() {
            proof {
                lemma_first_where_none(gens@, pg);
            }
            return 1;
        }
        proof {
            lemma_first_where_is(gens@, pg, gi as int);
        }
        gens[gi].generation
    } else {
        let position = launch_position(program, launch.id);
        let mut best: Option<u32> = None;
        let mut gi: usize = 0;
        while gi < gens.len()
            invariant
                gi <= gens.len(),
                best == latest_generation_before(gens@.take(gi as int), launches@, value, position as int),
            decreases gens.len() - gi,
        {
            assert(gens@.take(gi + 1).drop_last() =~= gens@.take(gi as int));
            let g = gens[gi];
            if g.value == value && launch_position(program, g.produced_by) < position {
                best = match best {
                    Some(p) => Some(if p >= g.generation { p } else { g.generation }),
                    None => Some(g.generation),
                };
            }
            gi = gi + 1;
        }
        assert(gens@.take(gens@.len() as int) =~= gens@);
        match best {
            Some(g) => g,
            None => 1,
        }
    }
}

/// The initialization policy the semantic facts record for a buffer, or
/// kernel-initialized when none is recorded.
pub open spec fn initialization_of(facts: Seq<InitializationFact>, buffer: u32) -> InitializationPolicy {
    match first_where(facts, |f: InitializationFact| f.buffer == buffer) {
        Some(i) => facts[i].policy,
        None => InitializationPolicy::KernelInitialized,
    }
}

pub fn wire_initialization_policy(semantics: &DeviceSemantics, buffer: u32) -> (p: InitializationPolicy)
    ensures
        p == initialization_of(semantics.initializations@, buffer),
{
    let facts = &semantics.initializations;
    let ghost pf = |f: InitializationFact| f.buffer == buffer;
    let mut i: usize = 0;
    while i < facts.len() && facts[i].buffer != buffer
        invariant
            i <= facts.len(),
            pf == (|f: InitializationFact| f.buffer == buffer),
            forall|m: int| 0 <= m < i ==> !pf(#[trigger] facts@[m]),
        decreases facts.len() - i,
    {
        i = i + 1;
    }
    if i == facts.len() {
        proof {
            lemma_first_where_none(facts@, pf);
        }
        InitializationPolicy::KernelInitialized
    } else {
        proof {
            lemma_first_where_is(facts@, pf, i as int);
        }
        facts[i].policy
    }
}


/// The wire plan of a kernel: an elementwise plan with a carried broadcast
/// fact becomes the rank-extension add carrying that fact; every other plan
/// is carried as it is.
pub open spec fn wire_plan_matches(w: KernelPlan, plan: KernelPlan, fact: Option<BroadcastFact>) -> bool {
    match (plan, fact) {
        (KernelPlan::Elementwise, Some(f)) => w is RankExtensionAdd && w->RankExtensionAdd_0.same(&f),
        _ => w.same(&plan),
    }
}

pub fn wire_plan(plan: &KernelPlan, fact: Option<&BroadcastFact>) -> (w: KernelPlan)
    ensures
        wire_plan_matches(w, *plan, match fact {
            Some(f) => Some(*f),
            None => None,
        }),
{
    match (plan, fact) {
        (KernelPlan::Elementwise, Some(f)) => KernelPlan::RankExtensionAdd(f.clone()),
        _ => plan.clone(),
    }
}

/// A wire slot projects a program slot of the kernel at `kernel_index`.
pub open spec fn wire_resource_matches(
    w: WireDeviceResource,
    r: DeviceResource,
    program: DeviceProgram,
    semantics: DeviceSemantics,
    kernel_index: int,
) -> bool {
    &&& w.buffer == wire_identity_of(r.buffer)
    &&& wire_version_matches(w.version, r.version)
    &&& w.binding == r.binding
    &&& w.access == r.access
    &&& w.generation == slot_generation(program, semantics, kernel_index, r)
    &&& w.initialization == initialization_of(semantics.initializations@, r.buffer.id)
}

/// The broadcast fact carried for the kernel at `kernel_index`, if any.
pub open spec fn fact_at(facts: Seq<Option<BroadcastFact>>, kernel_index: int) -> Option<BroadcastFact> {
    if 0 <= kernel_index < facts.len() {
        facts[kernel_index]
    } else {
        None
    }
}

/// A wire kernel projects the program kernel at `kernel_index`.
pub open spec fn wire_kernel_matches(
    w: WireKernelUnit,
    program: DeviceProgram,
    semantics: DeviceSemantics,
    facts: Seq<Option<BroadcastFact>>,
    kernel_index: int,
) -> bool {
    let k = program.kernels@[kernel_index];
    &&& w.function == k.function
    &&& w.entry == k.entry
    &&& wire_plan_matches(w.plan, k.plan, fact_at(facts, kernel_index))
    &&& w.resources@.len() == k.resources@.len()
    &&& forall|j: int| 0 <= j < k.resources@.len() ==> wire_resource_matches(
        #[trigger] w.resources@[j],
        k.resources@[j],
        program,
        semantics,
        kernel_index,
    )
    &&& w.launch == k.launch
}

/// A launch index narrowed to `u32`, saturating.
pub open spec fn saturate_index(i: usize) -> u32 {
    if i <= u32::MAX as usize {
        i as u32
    } else {
        u32::MAX
    }
}

/// A wire result row projects a program result row.
pub open spec fn wire_result_matches(w: WireResultBuffer, r: ResultBuffer) -> bool {
    &&& w.buffer == wire_identity_of(r.buffer)
    &&& wire_version_matches(w.version, r.version)
    &&& w.role == r.role
    &&& w.produced_by == r.produced_by
    &&& w.observation == WireObservationFact { at_launch: r.produced_by, cadence: r.cadence }
}

/// The wire program projects a program and its semantic facts: every
/// kernel, launch, result row, semantic value, root, dependency edge and
/// relation row, with the declared step count on a repeating-step lifetime.
pub open spec fn wire_program_projects(
    w: WireDeviceProgram,
    program: DeviceProgram,
    semantics: DeviceSemantics,
    repeating_steps: u32,
    facts: Seq<Option<BroadcastFact>>,
) -> bool {
    &&& w.kernels@.len() == program.kernels@.len()
    &&& forall|i: int| 0 <= i < program.kernels@.len() ==> wire_kernel_matches(
        #[trigger] w.kernels@[i],
        program,
        semantics,
        facts,
        i,
    )
    &&& w.launches@ == program.launches@.map_values(|l: LaunchUnit| WireLaunchUnit {
        id: l.id,
        kernel_index: saturate_index(l.kernel_index),
    })
    &&& w.lifetime == (match program.lifetime {
        ProgramLifetime::SingleRun => WireProgramLifetime::SingleRun,
        ProgramLifetime::RepeatingStep => WireProgramLifetime::RepeatingStep(repeating_steps),
    })
    &&& w.results@.len() == program.results@.len()
    &&& forall|i: int| 0 <= i < program.results@.len() ==> wire_result_matches(#[trigger] w.results@[i], program.results@[i])
    &&& w.semantic_values@ == semantics.values@.map_values(|v: SemanticValue| WireSemanticValue {
        id: v.id,
        name: v.name,
        origin: v.origin,
    })
    &&& w.roots@ == semantics.roots@
    &&& w.dependencies@ == semantics.dependencies@
    &&& w.relations@.len() == semantics.relations@.len()
    &&& forall|i: int| 0 <= i < semantics.relations@.len() ==> (#[trigger] w.relations@[i]).same(&semantics.relations@[i])
}

fn wire_kernel(
    program: &DeviceProgram,
    semantics: &DeviceSemantics,
    facts: &Vec<Option<BroadcastFact>>,
    kernel_index: usize,
) -> (w: WireKernelUnit)
    requires
        kernel_index < program.kernels@.len(),
    ensures
        wire_kernel_matches(w, *program, *semantics, facts@, kernel_index as int),
{
    let k = &program.kernels[kernel_index];
    let fact: Option<&BroadcastFact> = if kernel_index < facts.len() {
        match &facts[kernel_index] {
            Some(f) => Some(f),
            None => None,
        }
    } else {
        None
    };
    let plan = wire_plan(&k.plan, fact);
    let mut resources: Vec<WireDeviceResource> = Vec::new();
    let mut j: usize = 0;
    while j < k.resources.len()
        invariant
            kernel_index < program.kernels@.len(),
            k == program.kernels@[kernel_index as int],
            j <= k.resources.len(),
            resources@.len() == j,
            forall|m: int| 0 <= m < j ==> wire_resource_matches(
                #[trigger] resources@[m],
                k.resources@[m],
                *program,
                *semantics,
                kernel_index as int,
            ),
        decreases k.resources.len() - j,
    {
        let r = &k.resources[j];
        resources.push(WireDeviceResource {
            buffer: wire_buffer_identity(&r.buffer),
            version: wire_buffer_version(&r.version),
            binding: r.binding,
            access: r.access,
            generation: wire_slot_generation(program, semantics, kernel_index, r),
            initialization: wire_initialization_policy(semantics, r.buffer.id),
        });
        j = j + 1;
    }
    WireKernelUnit { function: k.function, entry: k.entry.clone(), plan, resources, launch: k.launch }
}

/// Build the typed complete-program wire from a constructed device program
/// and its carried semantic facts, threading the carried per-kernel
/// rank-extension broadcast facts (indexed by kernel declaration order) onto
/// the plans. Every program fact is carried field-for-field; each slot
/// carries its explicit value generation and the buffer's initialization
/// policy; a repeating-step program carries its declared step count.
pub fn wire_program_for_program_with_broadcast_facts(
    program: &DeviceProgram,
    semantics: &DeviceSemantics,
    repeating_steps: u32,
    facts: &Vec<Option<BroadcastFact>>,
) -> (w: WireDeviceProgram)
    ensures
        wire_program_projects(w, *program, *semantics, repeating_steps, facts@),
{
    let mut kernels: Vec<WireKernelUnit> = Vec::new();
    let mut i: usize = 0;
    while i < program.kernels.len()
        invariant
            i <= program.kernels.len(),
            kernels@.len() == i,
            forall|m: int| 0 <= m < i ==> wire_kernel_matches(#[trigger] kernels@[m], *program, *semantics, facts@, m),
        decreases program.kernels.len() - i,
    {
        kernels.push(wire_kernel(program, semantics, facts, i));
        i = i + 1;
    }
    let mut launches: Vec<WireLaunchUnit> = Vec::new();
    let mut i: usize = 0;
    while i < program.launches.len()
        invariant
            i <= program.launches.len(),
            launches@ == program.launches@.take(i as int).map_values(|l: LaunchUnit| WireLaunchUnit {
                id: l.id,
                kernel_index: saturate_index(l.kernel_index),
            }),
        decreases program.launches.len() - i,
    {
        let l = program.launches[i];
        let kernel_index: u32 = if l.kernel_index <= u32::MAX as usize {
            l.kernel_index as u32
        } else {
            u32::MAX
        };
        launches.push(WireLaunchUnit { id: l.id, kernel_index });
        i = i + 1;
        assert(launches@ =~= program.launches@.take(i as int).map_values(|l: LaunchUnit| WireLaunchUnit {
            id: l.id,
            kernel_index: saturate_index(l.kernel_index),
        }));
    }
    assert(program.launches@.take(program.launches@.len() as int) =~= program.launches@);
    let lifetime = match program.lifetime {
        ProgramLifetime::SingleRun => WireProgramLifetime::SingleRun,
        ProgramLifetime::RepeatingStep => WireProgramLifetime::RepeatingStep(repeating_steps),
    };
    let mut results: Vec<WireResultBuffer> = Vec::new();
    let mut i: usize = 0;
    while i < program.results.len()
        invariant
            i <= program.results.len(),
            results@.len() == i,
            forall|m: int| 0 <= m < i ==> wire_result_matches(#[trigger] results@[m], program.results@[m]),
        decreases program.results.len() - i,
    {
        let r = &program.results[i];
        results.push(WireResultBuffer {
            buffer: wire_buffer_identity(&r.buffer),
            version: wire_buffer_version(&r.version),
            role: r.role,
            produced_by: r.produced_by,
            observation: WireObservationFact { at_launch: r.produced_by, cadence: r.cadence },
        });
        i = i + 1;
    }
    let mut semantic_values: Vec<WireSemanticValue> = Vec::new();
    let mut i: usize = 0;
    while i < semantics.values.len()
        invariant
            i <= semantics.values.len(),
            semantic_values@ == semantics.values@.take(i as int).map_values(|v: SemanticValue| WireSemanticValue {
                id: v.id,
                name: v.name,
                origin: v.origin,
            }),
        decreases semantics.values.len() - i,
    {
        let v = &semantics.values[i];
        semantic_values.push(WireSemanticValue { id: v.id, name: v.name.clone(), origin: v.origin.clone() });
        i = i + 1;
        assert(semantic_values@ =~= semantics.values@.take(i as int).map_values(|v: SemanticValue| WireSemanticValue {
            id: v.id,
            name: v.name,
            origin: v.origin,
        }));
    }
    assert(semantics.values@.take(semantics.values@.len() as int) =~= semantics.values@);
    let roots = semantics.roots.clone();
    assert(roots@ =~= semantics.roots@);
    let dependencies = semantics.dependencies.clone();
    assert(dependencies@ =~= semantics.dependencies@);
    let mut relations: Vec<CompanionRelation> = Vec::new();
    let mut i: usize = 0;
    while i < semantics.relations.len()
        invariant
            i <= semantics.relations.len(),
            relations@.len() == i,
            forall|m: int| 0 <= m < i ==> (#[trigger] relations@[m]).same(&semantics.relations@[m]),
        decreases semantics.relations.len() - i,
    {
        relations.push(semantics.relations[i].clone());
        i = i + 1;
    }
    WireDeviceProgram {
        kernels,
        launches,
        lifetime,
        results,
        semantic_values,
        roots,
        dependencies,
        relations,
    }
}

/// The wire carries the program: a projected wire has the program's kernels
/// with their function ids and entries in order, its launches as
/// (id, kernel index) in order, a single-run lifetime for a single-run
/// program and the declared step count for a repeating one, and result rows
/// whose producing launch and observation launch are both the program
/// row's producing launch. Two wires projected from the same program, facts
/// and step count agree on all of this.
pub proof fn law_wire_carries_the_program(
    w: WireDeviceProgram,
    w2: WireDeviceProgram,
    program: DeviceProgram,
    semantics: DeviceSemantics,
    repeating_steps: u32,
    facts: Seq<Option<BroadcastFact>>,
)
    requires
        wire_program_projects(w, program, semantics, repeating_steps, facts),
        wire_program_projects(w2, program, semantics, repeating_steps, facts),
        forall|i: int| 0 <= i < program.launches@.len() ==> (#[trigger] program.launches@[i]).kernel_index <= u32::MAX,
    ensures
        w.kernels@.len() == program.kernels@.len(),
        forall|i: int| 0 <= i < program.kernels@.len() ==> (#[trigger] w.kernels@[i]).function == program.kernels@[i].function
            && w.kernels@[i].entry@ == program.kernels@[i].entry@,
        w.launches@.len() == program.launches@.len(),
        forall|i: int| 0 <= i < program.launches@.len() ==> (#[trigger] w.launches@[i]).id == program.launches@[i].id
            && w.launches@[i].kernel_index as int == program.launches@[i].kernel_index as int,
        program.lifetime == ProgramLifetime::SingleRun ==> w.lifetime == WireProgramLifetime::SingleRun,
        program.lifetime == ProgramLifetime::RepeatingStep ==> w.lifetime == WireProgramLifetime::RepeatingStep(repeating_steps),
        w.results@.len() == program.results@.len(),
        forall|i: int| 0 <= i < program.results@.len() ==> (#[trigger] w.results@[i]).produced_by == program.results@[i].produced_by
            && w.results@[i].observation.at_launch == program.results@[i].produced_by,
        w.launches@ == w2.launches@,
        w.lifetime == w2.lifetime,
        w.kernels@.len() == w2.kernels@.len(),
        forall|i: int| 0 <= i < w.kernels@.len() ==> (#[trigger] w.kernels@[i]).function == w2.kernels@[i].function
            && w.kernels@[i].entry@ == w2.kernels@[i].entry@,
        w.results@.len() == w2.results@.len(),
        forall|i: int| 0 <= i < w.results@.len() ==> (#[trigger] w.results@[i]).produced_by == w2.results@[i].produced_by
            && w.results@[i].observation == w2.results@[i].observation,
        w.roots@ == w2.roots@,
        w.dependencies@ == w2.dependencies@,
{
    assert forall|i: int| 0 <= i < program.kernels@.len() implies (#[trigger] w.kernels@[i]).function == program.kernels@[i].function
        && w.kernels@[i].entry@ == program.kernels@[i].entry@ by {
        assert(wire_kernel_matches(w.kernels@[i], program, semantics, facts, i));
    }
    assert forall|i: int| 0 <= i < w.kernels@.len() implies (#[trigger] w.kernels@[i]).function == w2.kernels@[i].function
        && w.kernels@[i].entry@ == w2.kernels@[i].entry@ by {
        assert(wire_kernel_matches(w.kernels@[i], program, semantics, facts, i));
        assert(wire_kernel_matches(w2.kernels@[i], program, semantics, facts, i));
    }
    assert forall|i: int| 0 <= i < program.launches@.len() implies (#[trigger] w.launches@[i]).id == program.launches@[i].id
        && w.launches@[i].kernel_index as int == program.launches@[i].kernel_index as int by {
        assert(program.launches@[i].kernel_index <= u32::MAX);
    }
    assert forall|i: int| 0 <= i < program.results@.len() implies (#[trigger] w.results@[i]).produced_by == program.results@[i].produced_by
        && w.results@[i].observation.at_launch == program.results@[i].produced_by by {
        assert(wire_result_matches(w.results@[i], program.results@[i]));
    }
    assert forall|i: int| 0 <= i < w.results@.len() implies (#[trigger] w.results@[i]).produced_by == w2.results@[i].produced_by
        && w.results@[i].observation == w2.results@[i].observation by {
        assert(wire_result_matches(w.results@[i], program.results@[i]));
        assert(wire_result_matches(w2.results@[i], program.results@[i]));
    }
}

/// The ordinary producer: the complete-program projection with no carried
/// broadcast facts, so every kernel stays on its plan's own wire mirror.
pub fn wire_program_for_program(program: &DeviceProgram, semantics: &DeviceSemantics, repeating_steps: u32) -> (w: WireDeviceProgram)
    ensures
        wire_program_projects(w, *program, *semantics, repeating_steps, Seq::empty()),
{
    let facts: Vec<Option<BroadcastFact>> = Vec::new();
    wire_program_for_program_with_broadcast_facts(program, semantics, repeating_steps, &facts)
}

} // verus!
