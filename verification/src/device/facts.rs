//! The carried data-flow facts of a materialized program: every slot access
//! in execution order, the producer/consumer pairs over buffer versions, the
//! explicit value generations, and the semantic facts minted from them.
use vstd::prelude::*;
use crate::device::program::ProgramBuffer;
use crate::device::schema::CompanionRelation;
use crate::device::schema::DependencyEdge;
use crate::device::schema::DeviceProgram;
use crate::device::schema::DeviceSemantics;
use crate::device::schema::InitializationFact;
use crate::device::schema::InitializationPolicy;
use crate::device::schema::KernelUnit;
use crate::device::schema::LaunchUnit;
use crate::device::schema::ObservationFact;
use crate::device::schema::ResourceAccess;
use crate::device::schema::ResultBuffer;
use crate::device::schema::SemanticValue;
use crate::device::schema::ValueBinding;
use crate::device::schema::ValueGeneration;
use crate::device::schema::DeviceResource;
use crate::device::schema::writes;

verus! {

/// One slot access of an executed launch.
#[derive(Clone, Copy, Debug, PartialEq, Eq, Structural)]
pub struct SlotAccess {
    pub buffer: u32,
    pub version: u32,
    pub element_ty: u32,
    pub element_count: u64,
    pub launch: u32,
    pub access: ResourceAccess,
}

pub open spec fn access_of(launch: LaunchUnit, r: DeviceResource) -> SlotAccess {
    SlotAccess {
        buffer: r.buffer.id,
        version: r.version.version,
        element_ty: r.version.element_ty,
        element_count: r.version.element_count,
        launch: launch.id,
        access: r.access,
    }
}

/// The slot accesses of one launch (none when its kernel index names no
/// kernel).
pub open spec fn launch_accesses(kernels: Seq<KernelUnit>, launch: LaunchUnit) -> Seq<SlotAccess> {
    if launch.kernel_index < kernels.len() {
        kernels[launch.kernel_index as int].resources@.map_values(|r: DeviceResource| access_of(launch, r))
    } else {
        Seq::empty()
    }
}

/// Every slot access, in launch order then slot order.
pub open spec fn accesses(kernels: Seq<KernelUnit>, launches: Seq<LaunchUnit>) -> Seq<SlotAccess>
    decreases launches.len(),
{
    if launches.len() == 0 {
        Seq::empty()
    } else {
        accesses(kernels, launches.drop_last()) + launch_accesses(kernels, launches.last())
    }
}

pub open spec fn program_accesses(program: DeviceProgram) -> Seq<SlotAccess> {
    accesses(program.kernels@, program.launches@)
}

/// Every slot access of a program, in execution order.
pub fn slot_accesses(program: &DeviceProgram) -> (acc: Vec<SlotAccess>)
    ensures
        acc@ == program_accesses(*program),
{
    let launches = &program.launches;
    let mut acc: Vec<SlotAccess> = Vec::new();
    let mut i: usize = 0;
    while i < launches.len()
        invariant
            i <= launches.len(),
            launches@ == program.launches@,
            acc@ == accesses(program.kernels@, launches@.take(i as int)),
        decreases launches.len() - i,
    {
        let launch = launches[i];
        assert(launches@.take(i + 1).drop_last() =~= launches@.take(i as int));
        assert(launches@.take(i + 1).last() == launch);
        if launch.kernel_index < program.kernels.len() {
            let rs = &program.kernels[launch.kernel_index].resources;
            let ghost base = acc@;
            let mut j: usize = 0;
            while j < rs.len()
                invariant
                    launch.kernel_index < program.kernels@.len(),
                    rs@ == program.kernels@[launch.kernel_index as int].resources@,
                    j <= rs.len(),
                    acc@ == base + rs@.take(j as int).map_values(|r: DeviceResource| access_of(launch, r)),
                decreases rs.len() - j,
            {
                let r = &rs[j];
                acc.push(SlotAccess {
                    buffer: r.buffer.id,
                    version: r.version.version,
                    element_ty: r.version.element_ty,
                    element_count: r.version.element_count,
                    launch: launch.id,
                    access: r.access,
                });
                j = j + 1;
                assert(acc@ =~= base + rs@.take(j as int).map_values(|r: DeviceResource| access_of(launch, r)));
            }
            assert(rs@.take(rs@.len() as int) =~= rs@);
        } else {
            assert(launch_accesses(program.kernels@, launch) =~= Seq::<SlotAccess>::empty());
            assert(acc@ =~= accesses(program.kernels@, launches@.take(i as int)) + launch_accesses(program.kernels@, launch));
        }
        i = i + 1;
    }
    assert(launches@.take(launches@.len() as int) =~= launches@);
    acc
}

/// Whether an access reads its buffer (read or read-write).
pub open spec fn reads(access: ResourceAccess) -> bool {
    access == ResourceAccess::Read || access == ResourceAccess::ReadWrite
}

/// The edges from one producing access to every consuming access of the
/// same buffer version in another launch.
pub open spec fn edges_from(p: SlotAccess, consumers: Seq<SlotAccess>) -> Seq<DependencyEdge>
    decreases consumers.len(),
{
    if consumers.len() == 0 {
        Seq::empty()
    } else {
        let prev = edges_from(p, consumers.drop_last());
        let c = consumers.last();
        if reads(c.access) && c.buffer == p.buffer && c.version == p.version && c.launch != p.launch {
            prev.push(DependencyEdge { producer: p.launch, consumer: c.launch, buffer: p.buffer, version: p.version })
        } else {
            prev
        }
    }
}

/// The producer/consumer pairs over buffer versions: for every writing
/// access (in order) the edges to every reading access (in order) of the
/// same buffer version in another launch.
pub open spec fn pairs(producers: Seq<SlotAccess>, all: Seq<SlotAccess>) -> Seq<DependencyEdge>
    decreases producers.len(),
{
    if producers.len() == 0 {
        Seq::empty()
    } else {
        let prev = pairs(producers.drop_last(), all);
        if writes(producers.last().access) {
            prev + edges_from(producers.last(), all)
        } else {
            prev
        }
    }
}

pub open spec fn data_flow_of(program: DeviceProgram) -> Seq<DependencyEdge> {
    pairs(program_accesses(program), program_accesses(program))
}

/// The producer/consumer data-flow pairs of a program (see [`pairs`]).
pub fn data_flow_pairs(program: &DeviceProgram) -> (edges: Vec<DependencyEdge>)
    ensures
        edges@ == data_flow_of(*program),
{
    let acc = slot_accesses(program);
    let mut edges: Vec<DependencyEdge> = Vec::new();
    let mut i: usize = 0;
    while i < acc.len()
        invariant
            i <= acc.len(),
            edges@ == pairs(acc@.take(i as int), acc@),
        decreases acc.len() - i,
    {
        let p = acc[i];
        assert(acc@.take(i + 1).drop_last() =~= acc@.take(i as int));
        assert(acc@.take(i + 1).last() == p);
        if p.access == ResourceAccess::Write || p.access == ResourceAccess::ReadWrite {
            let ghost base = edges@;
            let mut j: usize = 0;
            while j < acc.len()
                invariant
                    j <= acc.len(),
                    edges@ == base + edges_from(p, acc@.take(j as int)),
                decreases acc.len() - j,
            {
                let c = acc[j];
                assert(acc@.take(j + 1).drop_last() =~= acc@.take(j as int));
                assert(acc@.take(j + 1).last() == c);
                if (c.access == ResourceAccess::Read || c.access == ResourceAccess::ReadWrite) && c.buffer == p.buffer
                    && c.version == p.version && c.launch != p.launch {
                    edges.push(DependencyEdge { producer: p.launch, consumer: c.launch, buffer: p.buffer, version: p.version });
                }
                j = j + 1;
                assert(edges@ =~= base + edges_from(p, acc@.take(j as int)));
            }
            assert(acc@.take(acc@.len() as int) =~= acc@);
        }
        i = i + 1;
    }
    assert(acc@.take(acc@.len() as int) =~= acc@);
    edges
}


/// The number of writes to a buffer in an access sequence.
pub open spec fn write_count(acc: Seq<SlotAccess>, buffer: u32) -> nat
    decreases acc.len(),
{
    if acc.len() == 0 {
        0
    } else {
        write_count(acc.drop_last(), buffer) + if acc.last().buffer == buffer && writes(acc.last().access) {
            1nat
        } else {
            0nat
        }
    }
}

/// A generation number: one more than the writes before it (saturating).
pub open spec fn next_generation(prior: nat) -> u32 {
    if prior + 1 <= u32::MAX {
        (prior + 1) as u32
    } else {
        u32::MAX
    }
}

/// The explicit value generations in execution order: every write is a new
/// generation of its buffer's value, numbered from 1.
pub open spec fn generations_of(acc: Seq<SlotAccess>) -> Seq<ValueGeneration>
    decreases acc.len(),
{
    if acc.len() == 0 {
        Seq::empty()
    } else {
        let prev = generations_of(acc.drop_last());
        let a = acc.last();
        if writes(a.access) {
            prev.push(ValueGeneration {
                value: a.buffer,
                generation: next_generation(write_count(acc.drop_last(), a.buffer)),
                element_ty: a.element_ty,
                element_count: a.element_count,
                produced_by: a.launch,
            })
        } else {
            prev
        }
    }
}

proof fn lemma_write_count_bound(acc: Seq<SlotAccess>, buffer: u32)
    ensures
        write_count(acc, buffer) <= acc.len(),
    decreases acc.len(),
{
    if acc.len() > 0 {
        lemma_write_count_bound(acc.drop_last(), buffer);
    }
}

proof fn lemma_generations_numbered(acc: Seq<SlotAccess>)
    requires
        acc.len() < u32::MAX,
    ensures
        forall|a: int| 0 <= a < generations_of(acc).len() ==> 1 <= (#[trigger] generations_of(acc)[a]).generation
            <= write_count(acc, generations_of(acc)[a].value),
        forall|a: int, b: int| 0 <= a < b < generations_of(acc).len()
            && (#[trigger] generations_of(acc)[a]).value == (#[trigger] generations_of(acc)[b]).value
            ==> generations_of(acc)[a].generation < generations_of(acc)[b].generation,
    decreases acc.len(),
{
    if acc.len() > 0 {
        let prefix = acc.drop_last();
        lemma_generations_numbered(prefix);
        let prev = generations_of(prefix);
        let gens = generations_of(acc);
        let last = acc.last();
        lemma_write_count_bound(prefix, last.buffer);
        assert forall|a: int| 0 <= a < gens.len() implies 1 <= (#[trigger] gens[a]).generation <= write_count(acc, gens[a].value) by {
            if a < prev.len() {
                assert(gens[a] == prev[a]);
            }
        }
        assert forall|a: int, b: int| 0 <= a < b < gens.len() && (#[trigger] gens[a]).value == (#[trigger] gens[b]).value
            implies gens[a].generation < gens[b].generation by {
            assert(gens[a] == prev[a]);
            if b < prev.len() {
                assert(gens[b] == prev[b]);
            }
        }
    }
}

/// Every write is a new generation of its value: the generations of one
/// value are numbered upward from 1 in execution order, so no generation of
/// a value has a second producer.
pub proof fn law_each_write_is_a_new_generation(
    s: DeviceSemantics,
    program: DeviceProgram,
    buffers: Seq<ProgramBuffer>,
    companions: Seq<CompanionRelation>,
)
    requires
        semantics_of(s, program, buffers, companions),
        program_accesses(program).len() < u32::MAX,
    ensures
        forall|a: int| 0 <= a < s.generations@.len() ==> 1 <= (#[trigger] s.generations@[a]).generation,
        forall|a: int, b: int| 0 <= a < b < s.generations@.len()
            && (#[trigger] s.generations@[a]).value == (#[trigger] s.generations@[b]).value
            ==> s.generations@[a].generation < s.generations@[b].generation,
{
    lemma_generations_numbered(program_accesses(program));
}


/// Whether a buffer id names a trainable parameter.
pub open spec fn is_param_buffer(buffers: Seq<ProgramBuffer>, id: u32) -> bool {
    exists|i: int| 0 <= i < buffers.len() && (#[trigger] buffers[i]).param && buffers[i].id == id
}

/// The edges over buffers other than trainable parameters.
pub open spec fn without_param_edges(edges: Seq<DependencyEdge>, buffers: Seq<ProgramBuffer>) -> Seq<DependencyEdge>
    decreases edges.len(),
{
    if edges.len() == 0 {
        Seq::empty()
    } else {
        let prev = without_param_edges(edges.drop_last(), buffers);
        if is_param_buffer(buffers, edges.last().buffer) {
            prev
        } else {
            prev.push(edges.last())
        }
    }
}

/// The launches no edge feeds, in launch order.
pub open spec fn roots_of(launches: Seq<LaunchUnit>, edges: Seq<DependencyEdge>) -> Seq<u32>
    decreases launches.len(),
{
    if launches.len() == 0 {
        Seq::empty()
    } else {
        let prev = roots_of(launches.drop_last(), edges);
        let id = launches.last().id;
        if exists|k: int| 0 <= k < edges.len() && (#[trigger] edges[k]).consumer == id {
            prev
        } else {
            prev.push(id)
        }
    }
}

/// The launches no dependency edge feeds, in launch order.
pub fn root_launches(launches: &Vec<LaunchUnit>, dependencies: &Vec<DependencyEdge>) -> (roots: Vec<u32>)
    ensures
        roots@ == roots_of(launches@, dependencies@),
{
    let mut roots: Vec<u32> = Vec::new();
    let mut l: usize = 0;
    while l < launches.len()
        invariant
            l <= launches.len(),
            roots@ == roots_of(launches@.take(l as int), dependencies@),
        decreases launches.len() - l,
    {
        let id = launches[l].id;
        assert(launches@.take(l + 1).drop_last() =~= launches@.take(l as int));
        assert(launches@.take(l + 1).last() == launches@[l as int]);
        let mut fed = false;
        let mut m: usize = 0;
        while m < dependencies.len()
            invariant
                m <= dependencies.len(),
                fed == (exists|x: int| 0 <= x < m && (#[trigger] dependencies@[x]).consumer == id),
            decreases dependencies.len() - m,
        {
            if dependencies[m].consumer == id {
                fed = true;
            }
            m = m + 1;
        }
        if !fed {
            roots.push(id);
        }
        l = l + 1;
    }
    assert(launches@.take(launches@.len() as int) =~= launches@);
    roots
}

/// The initialization policy of a buffer, decided from its facts: a
/// trainable parameter is host-provided (copied in once), an in-place
/// read-write buffer is zero-filled, a buffer no kernel writes is
/// host-provided, and any other buffer is kernel-initialized.
pub open spec fn initialization_policy_of(b: ProgramBuffer) -> InitializationPolicy {
    if b.param {
        InitializationPolicy::HostProvided
    } else if b.readwrite {
        InitializationPolicy::ZeroFill
    } else if !b.written {
        InitializationPolicy::HostProvided
    } else {
        InitializationPolicy::KernelInitialized
    }
}

/// The semantic facts minted for a materialized program.
pub open spec fn semantics_of(
    s: DeviceSemantics,
    program: DeviceProgram,
    buffers: Seq<ProgramBuffer>,
    companions: Seq<CompanionRelation>,
) -> bool {
    let deps = without_param_edges(data_flow_of(program), buffers);
    &&& s.values@ == buffers.map_values(|b: ProgramBuffer| SemanticValue {
        id: b.id,
        name: b.name,
        element_ty: b.element_ty,
        element_count: b.element_count,
        origin: b.origin,
    })
    &&& s.bindings@ == buffers.map_values(|b: ProgramBuffer| ValueBinding { value: b.id, buffer: b.id })
    &&& s.generations@ == generations_of(program_accesses(program))
    &&& s.dependencies@ == deps
    &&& s.roots@ == roots_of(program.launches@, deps)
    &&& s.relations@.len() == companions.len()
    &&& forall|i: int| 0 <= i < companions.len() ==> (#[trigger] s.relations@[i]).same(&companions[i])
    &&& s.initializations@ == buffers.map_values(|b: ProgramBuffer| InitializationFact {
        buffer: b.id,
        policy: initialization_policy_of(b),
    })
    &&& s.observations@ == program.results@.map_values(|r: ResultBuffer| ObservationFact {
        buffer: r.buffer.id,
        version: r.version.version,
        at_launch: r.produced_by,
    })
}

fn count_writes(acc: &Vec<SlotAccess>, end: usize, buffer: u32) -> (n: u64)
    requires
        end <= acc.len(),
    ensures
        n as nat == write_count(acc@.take(end as int), buffer),
{
    let mut n: u64 = 0;
    let mut i: usize = 0;
    while i < end
        invariant
            i <= end <= acc.len(),
            n as nat == write_count(acc@.take(i as int), buffer),
            n <= i,
        decreases end - i,
    {
        assert(acc@.take(i + 1).drop_last() =~= acc@.take(i as int));
        if acc[i].buffer == buffer && (acc[i].access == ResourceAccess::Write || acc[i].access == ResourceAccess::ReadWrite) {
            n = n + 1;
        }
        i = i + 1;
    }
    n
}

fn buffer_is_param(buffers: &Vec<ProgramBuffer>, id: u32) -> (r: bool)
    ensures
        r == is_param_buffer(buffers@, id),
{
    let mut i: usize = 0;
    while i < buffers.len()
        invariant
            i <= buffers.len(),
            forall|j: int| 0 <= j < i ==> !((#[trigger] buffers@[j]).param && buffers@[j].id == id),
        decreases buffers.len() - i,
    {
        if buffers[i].param && buffers[i].id == id {
            return true;
        }
        i = i + 1;
    }
    false
}

/// Mint the carried semantic facts of a materialized program: one semantic
/// value and binding per unified buffer (from its carried origin), one
/// generation per write in execution order, the data-flow dependencies
/// without the trainable-parameter edges (a parameter's write feeds the next
/// step, never a producer inside this step), the launches no dependency
/// feeds as roots, the companion relation rows, one initialization fact per
/// buffer, and one observation fact per declared result row.
pub fn semantic_facts(
    program: &DeviceProgram,
    buffers: &Vec<ProgramBuffer>,
    companions: &Vec<CompanionRelation>,
) -> (s: DeviceSemantics)
    ensures
        semantics_of(s, *program, buffers@, companions@),
{
    let mut values: Vec<SemanticValue> = Vec::new();
    let mut bindings: Vec<ValueBinding> = Vec::new();
    let mut initializations: Vec<InitializationFact> = Vec::new();
    let mut i: usize = 0;
    while i < buffers.len()
        invariant
            i <= buffers.len(),
            values@ == buffers@.take(i as int).map_values(|b: ProgramBuffer| SemanticValue {
                id: b.id,
                name: b.name,
                element_ty: b.element_ty,
                element_count: b.element_count,
                origin: b.origin,
            }),
            bindings@ == buffers@.take(i as int).map_values(|b: ProgramBuffer| ValueBinding { value: b.id, buffer: b.id }),
            initializations@ == buffers@.take(i as int).map_values(|b: ProgramBuffer| InitializationFact {
                buffer: b.id,
                policy: initialization_policy_of(b),
            }),
        decreases buffers.len() - i,
    {
        let b = &buffers[i];
        values.push(SemanticValue {
            id: b.id,
            name: b.name.clone(),
            element_ty: b.element_ty,
            element_count: b.element_count,
            origin: b.origin.clone(),
        });
        bindings.push(ValueBinding { value: b.id, buffer: b.id });
        let policy = if b.param {
            InitializationPolicy::HostProvided
        } else if b.readwrite {
            InitializationPolicy::ZeroFill
        } else if !b.written {
            InitializationPolicy::HostProvided
        } else {
            InitializationPolicy::KernelInitialized
        };
        initializations.push(InitializationFact { buffer: b.id, policy });
        i = i + 1;
        assert(values@ =~= buffers@.take(i as int).map_values(|b: ProgramBuffer| SemanticValue {
            id: b.id,
            name: b.name,
            element_ty: b.element_ty,
            element_count: b.element_count,
            origin: b.origin,
        }));
        assert(bindings@ =~= buffers@.take(i as int).map_values(|b: ProgramBuffer| ValueBinding { value: b.id, buffer: b.id }));
        assert(initializations@ =~= buffers@.take(i as int).map_values(|b: ProgramBuffer| InitializationFact {
            buffer: b.id,
            policy: initialization_policy_of(b),
        }));
    }
    assert(buffers@.take(buffers@.len() as int) =~= buffers@);

    let acc = slot_accesses(program);
    let mut generations: Vec<ValueGeneration> = Vec::new();
    let mut k: usize = 0;
    while k < acc.len()
        invariant
            k <= acc.len(),
            generations@ == generations_of(acc@.take(k as int)),
        decreases acc.len() - k,
    {
        let a = acc[k];
        assert(acc@.take(k + 1).drop_last() =~= acc@.take(k as int));
        assert(acc@.take(k + 1).last() == a);
        if a.access == ResourceAccess::Write || a.access == ResourceAccess::ReadWrite {
            let prior = count_writes(&acc, k, a.buffer);
            let generation: u32 = if prior < u32::MAX as u64 {
                (prior + 1) as u32
            } else {
                u32::MAX
            };
            generations.push(ValueGeneration {
                value: a.buffer,
                generation,
                element_ty: a.element_ty,
                element_count: a.element_count,
                produced_by: a.launch,
            });
        }
        k = k + 1;
    }
    assert(acc@.take(acc@.len() as int) =~= acc@);

    let pairs_v = data_flow_pairs(program);
    let mut dependencies: Vec<DependencyEdge> = Vec::new();
    let mut e: usize = 0;
    while e < pairs_v.len()
        invariant
            e <= pairs_v.len(),
            dependencies@ == without_param_edges(pairs_v@.take(e as int), buffers@),
        decreases pairs_v.len() - e,
    {
        assert(pairs_v@.take(e + 1).drop_last() =~= pairs_v@.take(e as int));
        assert(pairs_v@.take(e + 1).last() == pairs_v@[e as int]);
        if !buffer_is_param(buffers, pairs_v[e].buffer) {
            dependencies.push(pairs_v[e]);
        }
        e = e + 1;
    }
    assert(pairs_v@.take(pairs_v@.len() as int) =~= pairs_v@);

    let roots = root_launches(&program.launches, &dependencies);

    let mut relations: Vec<CompanionRelation> = Vec::new();
    let mut c: usize = 0;
    while c < companions.len()
        invariant
            c <= companions.len(),
            relations@.len() == c,
            forall|x: int| 0 <= x < c ==> (#[trigger] relations@[x]).same(&companions@[x]),
        decreases companions.len() - c,
    {
        relations.push(companions[c].clone());
        c = c + 1;
    }

    let results = &program.results;
    let mut observations: Vec<ObservationFact> = Vec::new();
    let mut r: usize = 0;
    while r < results.len()
        invariant
            r <= results.len(),
            results@ == program.results@,
            observations@ == results@.take(r as int).map_values(|x: ResultBuffer| ObservationFact {
                buffer: x.buffer.id,
                version: x.version.version,
                at_launch: x.produced_by,
            }),
        decreases results.len() - r,
    {
        let x = &results[r];
        observations.push(ObservationFact { buffer: x.buffer.id, version: x.version.version, at_launch: x.produced_by });
        r = r + 1;
        assert(observations@ =~= results@.take(r as int).map_values(|x: ResultBuffer| ObservationFact {
            buffer: x.buffer.id,
            version: x.version.version,
            at_launch: x.produced_by,
        }));
    }
    assert(results@.take(results@.len() as int) =~= results@);

    DeviceSemantics {
        values,
        bindings,
        generations,
        roots,
        dependencies,
        relations,
        initializations,
        observations,
    }
}

} // verus!
