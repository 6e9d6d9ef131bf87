//! Assembling the FMIR `device` section of a constructed program, and the
//! lookups the device route makes over a section: the artifact of a
//! backend, the declared result ids, and the host inputs by buffer id.
use vstd::prelude::*;
use crate::device::projection::wire_program_for_program;
use crate::device::projection::wire_program_projects;
use crate::device::schema::BroadcastFact;
use crate::device::schema::BufferRole;
use crate::device::schema::DeviceProgram;
use crate::device::schema::DeviceSemantics;
use crate::device::schema::InitializationPolicy;
use crate::device::schema::ResourceAccess;
use crate::device::wire::WireLaunchUnit;
use crate::device::section::ArtifactFormat;
use crate::device::section::DeclaredInput;
use crate::device::section::DeviceArtifact;
use crate::device::section::DeviceSection;
use crate::device::section::DeviceSymbol;
use crate::device::wire::DeviceProgramSection;
use crate::device::wire::WireDeviceResource;
use crate::device::wire::WireKernelUnit;
use crate::device::wire::DEVICE_RUN_PLAN_VERSION;
use crate::naming::owned;
use crate::naming::text_eq;
use crate::search::first_where;
use crate::search::lemma_first_where_is;
use crate::search::lemma_first_where_none;
use crate::search::lemma_first_where_push;
use crate::search::lemma_first_where_some;
use crate::selection::DeviceBackend;
use crate::selection::DeviceSelection;

verus! {

broadcast use vstd::string::group_string_axioms;

/// The ABI version of the emitted device artifacts.
pub const DEVICE_ARTIFACT_ABI_VERSION: u32 = 1;

pub open spec fn macos_target() -> Seq<char> {
    seq!['m', 'a', 'c', 'o', 's', '-', 'a', 'r', 'm', '6', '4']
}

pub open spec fn cuda_target() -> Seq<char> {
    seq!['s', 'm', '_', '1', '2', '0']
}

/// The Metal artifact packet of an emitted MSL source: compiler-input text
/// for the `macos-arm64` target with no required feature and no symbol
/// map. Its identity digests are not filled in.
pub fn metal_artifact(source: Vec<u8>) -> (a: DeviceArtifact)
    ensures
        a.backend == DeviceBackend::Metal,
        a.format == ArtifactFormat::Msl,
        a.target_id@ == macos_target(),
        a.required_features@.len() == 0,
        a.abi_version == DEVICE_ARTIFACT_ABI_VERSION,
        a.bytes@ == source@,
        a.entrypoints@.len() == 0,
        a.content_sha256@.len() == 0,
        a.packet_sha256@.len() == 0,
{
    proof {
        reveal_strlit("macos-arm64");
        reveal_strlit("");
    }
    DeviceArtifact {
        backend: DeviceBackend::Metal,
        format: ArtifactFormat::Msl,
        target_id: owned("macos-arm64"),
        required_features: Vec::new(),
        abi_version: DEVICE_ARTIFACT_ABI_VERSION,
        bytes: source,
        entrypoints: Vec::new(),
        content_sha256: owned(""),
        packet_sha256: owned(""),
    }
}

/// The CUDA artifact packet of compiled PTX: compiler-input text for the
/// `sm_120` target, which it also requires, with the CUDA logical-entry to
/// symbol map. Its identity digests are not filled in.
pub fn cuda_artifact(ptx: Vec<u8>, symbols: Vec<DeviceSymbol>) -> (a: DeviceArtifact)
    ensures
        a.backend == DeviceBackend::Cuda,
        a.format == ArtifactFormat::Ptx,
        a.target_id@ == cuda_target(),
        a.required_features@.len() == 1,
        a.required_features@[0]@ == cuda_target(),
        a.abi_version == DEVICE_ARTIFACT_ABI_VERSION,
        a.bytes@ == ptx@,
        a.entrypoints@ == symbols@,
        a.content_sha256@.len() == 0,
        a.packet_sha256@.len() == 0,
{
    proof {
        reveal_strlit("sm_120");
        reveal_strlit("");
    }
    let mut features: Vec<String> = Vec::new();
    features.push(owned("sm_120"));
    DeviceArtifact {
        backend: DeviceBackend::Cuda,
        format: ArtifactFormat::Ptx,
        target_id: owned("sm_120"),
        required_features: features,
        abi_version: DEVICE_ARTIFACT_ABI_VERSION,
        bytes: ptx,
        entrypoints: symbols,
        content_sha256: owned(""),
        packet_sha256: owned(""),
    }
}

/// Assemble the `device` section of a constructed program: the versioned
/// wire program, the selection, the Metal artifact followed by the CUDA
/// artifact when one was produced, the declared inputs, and no session.
pub fn assemble_device_section(
    program: &DeviceProgram,
    semantics: &DeviceSemantics,
    selection: DeviceSelection,
    declared_inputs: Vec<DeclaredInput>,
    repeating_steps: u32,
    metal: DeviceArtifact,
    cuda: Option<DeviceArtifact>,
) -> (s: DeviceSection)
    ensures
        s.device_program.v == DEVICE_RUN_PLAN_VERSION,
        wire_program_projects(s.device_program.program, *program, *semantics, repeating_steps, Seq::<Option<BroadcastFact>>::empty()),
        s.selection == selection,
        s.artifacts@ == match cuda {
            Some(c) => seq![metal, c],
            None => seq![metal],
        },
        s.declared_inputs@ == declared_inputs@,
        s.session is None,
{
    let wire = wire_program_for_program(program, semantics, repeating_steps);
    let mut artifacts: Vec<DeviceArtifact> = Vec::new();
    artifacts.push(metal);
    match cuda {
        Some(c) => {
            artifacts.push(c);
        },
        None => {},
    }
    DeviceSection {
        device_program: DeviceProgramSection { v: DEVICE_RUN_PLAN_VERSION, program: wire },
        selection,
        artifacts,
        declared_inputs,
        session: None,
    }
}

/// The declared artifact for a backend: the first artifact of that backend.
pub fn artifact_for_backend(artifacts: &Vec<DeviceArtifact>, backend: DeviceBackend) -> (r: Option<usize>)
    ensures
        match r {
            Some(i) => first_where(artifacts@, |a: DeviceArtifact| a.backend == backend) == Some(i as int),
            None => first_where(artifacts@, |a: DeviceArtifact| a.backend == backend) is None,
        },
{
    let ghost p = |a: DeviceArtifact| a.backend == backend;
    let mut i: usize = 0;
    while i < artifacts.len()
        invariant
            i <= artifacts.len(),
            p == (|a: DeviceArtifact| a.backend == backend),
            forall|j: int| 0 <= j < i ==> !p(#[trigger] artifacts@[j]),
        decreases artifacts.len() - i,
    {
        if artifacts[i].backend == backend {
            proof {
                lemma_first_where_is(artifacts@, p, i as int);
            }
            return Some(i);
        }
        i = i + 1;
    }
    proof {
        lemma_first_where_none(artifacts@, p);
    }
    None
}

/// The ids of the declared result rows, each once, in first-row order.
pub open spec fn result_ids(ids: Seq<u32>) -> Seq<u32>
    decreases ids.len(),
{
    if ids.len() == 0 {
        Seq::empty()
    } else {
        let prev = result_ids(ids.drop_last());
        if prev.contains(ids.last()) {
            prev
        } else {
            prev.push(ids.last())
        }
    }
}

/// The result buffer ids a run reads back: the declared result rows' ids,
/// each once, in first-row order.
pub fn observation_buffer_ids(device: &DeviceSection) -> (ids: Vec<u32>)
    ensures
        ids@ == result_ids(device.device_program.program.results@.map_values(|r: crate::device::wire::WireResultBuffer| r.buffer.id)),
{
    let results = &device.device_program.program.results;
    let ghost all = results@.map_values(|r: crate::device::wire::WireResultBuffer| r.buffer.id);
    let mut ids: Vec<u32> = Vec::new();
    let mut i: usize = 0;
    while i < results.len()
        invariant
            i <= results.len(),
            all == results@.map_values(|r: crate::device::wire::WireResultBuffer| r.buffer.id),
            ids@ == result_ids(all.take(i as int)),
        decreases results.len() - i,
    {
        assert(all.take(i + 1).drop_last() =~= all.take(i as int));
        assert(all.take(i + 1).last() == all[i as int]);
        let id = results[i].buffer.id;
        let mut found = false;
        let mut j: usize = 0;
        while j < ids.len()
            invariant
                j <= ids.len(),
                found == (exists|k: int| 0 <= k < j && ids@[k] == id),
            decreases ids.len() - j,
        {
            if ids[j] == id {
                found = true;
            }
            j = j + 1;
        }
        if !found {
            ids.push(id);
        }
        i = i + 1;
    }
    assert(all.take(all.len() as int) =~= all);
    ids
}

// ---------------------------------------------------------------------------
// Host inputs by buffer id
// ---------------------------------------------------------------------------

/// The slots of the wire's kernels, in kernel order then slot order.
pub open spec fn wire_slots(kernels: Seq<WireKernelUnit>) -> Seq<WireDeviceResource>
    decreases kernels.len(),
{
    if kernels.len() == 0 {
        Seq::empty()
    } else {
        wire_slots(kernels.drop_last()) + kernels.last().resources@
    }
}

/// The positions (kernel, slot) of the wire's slots, in order.
pub fn wire_slot_positions(kernels: &Vec<WireKernelUnit>) -> (pos: Vec<(usize, usize)>)
    ensures
        pos@.len() == wire_slots(kernels@).len(),
        forall|k: int| 0 <= k < pos@.len() ==> {
            &&& (#[trigger] pos@[k]).0 < kernels@.len()
            &&& pos@[k].1 < kernels@[pos@[k].0 as int].resources@.len()
            &&& kernels@[pos@[k].0 as int].resources@[pos@[k].1 as int] == wire_slots(kernels@)[k]
        },
{
    let mut pos: Vec<(usize, usize)> = Vec::new();
    let mut b: usize = 0;
    while b < kernels.len()
        invariant
            b <= kernels.len(),
            pos@.len() == wire_slots(kernels@.take(b as int)).len(),
            forall|k: int| 0 <= k < pos@.len() ==> {
                &&& (#[trigger] pos@[k]).0 < b
                &&& pos@[k].1 < kernels@[pos@[k].0 as int].resources@.len()
                &&& kernels@[pos@[k].0 as int].resources@[pos@[k].1 as int] == wire_slots(kernels@.take(b as int))[k]
            },
        decreases kernels.len() - b,
    {
        let ghost prior = wire_slots(kernels@.take(b as int));
        assert(kernels@.take(b + 1).drop_last() =~= kernels@.take(b as int));
        assert(kernels@.take(b + 1).last() == kernels@[b as int]);
        assert(wire_slots(kernels@.take(b + 1)) == prior + kernels@[b as int].resources@);
        let n = kernels[b].resources.len();
        let mut j: usize = 0;
        while j < n
            invariant
                b < kernels.len(),
                n == kernels@[b as int].resources@.len(),
                j <= n,
                pos@.len() == prior.len() + j,
                forall|k: int| 0 <= k < pos@.len() ==> {
                    &&& (#[trigger] pos@[k]).0 <= b
                    &&& pos@[k].1 < kernels@[pos@[k].0 as int].resources@.len()
                    &&& kernels@[pos@[k].0 as int].resources@[pos@[k].1 as int] == (prior + kernels@[b as int].resources@)[k]
                },
            decreases n - j,
        {
            pos.push((b, j));
            j = j + 1;
        }
        b = b + 1;
    }
    assert(kernels@.take(kernels@.len() as int) =~= kernels@);
    pos
}

/// A slot that takes host values: a read-only input, or a host-provided
/// in-out buffer (a trainable parameter's once-init values).
pub open spec fn takes_host_values(r: WireDeviceResource) -> bool {
    r.buffer.role == BufferRole::Input || (r.buffer.role == BufferRole::InOut && r.initialization
        == InitializationPolicy::HostProvided)
}

/// The last declared input with the name (a later declaration of a name
/// replaces an earlier one).
pub open spec fn last_named(inputs: Seq<DeclaredInput>, name: Seq<char>) -> Option<int>
    decreases inputs.len(),
{
    if inputs.len() == 0 {
        None
    } else if inputs.last().name@ == name {
        Some(inputs.len() - 1)
    } else {
        last_named(inputs.drop_last(), name)
    }
}

/// A slot of the buffer that takes host values and has a declared input.
pub open spec fn feeding_slot(inputs: Seq<DeclaredInput>, id: u32) -> spec_fn(WireDeviceResource) -> bool {
    |r: WireDeviceResource| r.buffer.id == id && takes_host_values(r) && last_named(inputs, r.buffer.name@) is Some
}

/// One buffer's host input values (each an `f32` bit pattern).
#[derive(Debug)]
pub struct BufferInput {
    pub buffer: u32,
    pub values: Vec<u32>,
}

/// The host inputs by buffer id: ascending by id, one entry for every
/// buffer with a feeding slot, holding the values of the input declared
/// under the name of the buffer's first feeding slot.
pub open spec fn inputs_by_id(out: Seq<BufferInput>, slots: Seq<WireDeviceResource>, inputs: Seq<DeclaredInput>) -> bool {
    &&& forall|i: int, j: int| 0 <= i < j < out.len() ==> (#[trigger] out[i]).buffer < (#[trigger] out[j]).buffer
    &&& forall|k: int| 0 <= k < out.len() ==> match first_where(slots, feeding_slot(inputs, (#[trigger] out[k]).buffer)) {
        Some(j) => out[k].values@ == inputs[last_named(inputs, slots[j].buffer.name@)->0].values@,
        None => false,
    }
    &&& forall|j: int| 0 <= j < slots.len() && feeding_slot(inputs, slots[j].buffer.id)(#[trigger] slots[j])
        ==> exists|k: int| 0 <= k < out.len() && (#[trigger] out[k]).buffer == slots[j].buffer.id
}

fn last_named_exec(inputs: &Vec<DeclaredInput>, name: &str) -> (r: Option<usize>)
    ensures
        match r {
            Some(i) => last_named(inputs@, name@) == Some(i as int) && i < inputs@.len(),
            None => last_named(inputs@, name@) is None,
        },
{
    let mut found: Option<usize> = None;
    let mut i: usize = 0;
    while i < inputs.len()
        invariant
            i <= inputs.len(),
            match found {
                Some(k) => last_named(inputs@.take(i as int), name@) == Some(k as int) && k < i,
                None => last_named(inputs@.take(i as int), name@) is None,
            },
        decreases inputs.len() - i,
    {
        assert(inputs@.take(i + 1).drop_last() =~= inputs@.take(i as int));
        assert(inputs@.take(i + 1).last() == inputs@[i as int]);
        if text_eq(inputs[i].name.as_str(), name) {
            found = Some(i);
        }
        i = i + 1;
    }
    assert(inputs@.take(inputs@.len() as int) =~= inputs@);
    found
}

fn clone_values(v: &Vec<u32>) -> (r: Vec<u32>)
    ensures
        r@ == v@,
{
    let mut r: Vec<u32> = Vec::new();
    let mut i: usize = 0;
    while i < v.len()
        invariant
            i <= v.len(),
            r@ == v@.take(i as int),
        decreases v.len() - i,
    {
        r.push(v[i]);
        i = i + 1;
        assert(r@ =~= v@.take(i as int));
    }
    assert(v@.take(v@.len() as int) =~= v@);
    r
}

/// Map the declared inputs onto buffer ids (see [`inputs_by_id`]): the
/// program's read-only inputs and its host-provided trainable parameters.
pub fn inputs_by_buffer_id(device: &DeviceSection) -> (out: Vec<BufferInput>)
    ensures
        inputs_by_id(out@, wire_slots(device.device_program.program.kernels@), device.declared_inputs@),
{
    let kernels = &device.device_program.program.kernels;
    let inputs = &device.declared_inputs;
    let ghost slots = wire_slots(kernels@);
    let pos = wire_slot_positions(kernels);
    let mut out: Vec<BufferInput> = Vec::new();
    let mut k: usize = 0;
    while k < pos.len()
        invariant
            k <= pos.len(),
            slots == wire_slots(kernels@),
            pos@.len() == slots.len(),
            forall|m: int| 0 <= m < pos@.len() ==> {
                &&& (#[trigger] pos@[m]).0 < kernels@.len()
                &&& pos@[m].1 < kernels@[pos@[m].0 as int].resources@.len()
                &&& kernels@[pos@[m].0 as int].resources@[pos@[m].1 as int] == slots[m]
            },
            inputs_by_id(out@, slots.take(k as int), inputs@),
        decreases pos.len() - k,
    {
        let (b, j) = pos[k];
        let r = &kernels[b].resources[j];
        let ghost prefix = slots.take(k as int);
        assert(slots.take(k + 1) =~= prefix.push(*r));
        let id = r.buffer.id;
        let eligible = r.buffer.role == BufferRole::Input || (r.buffer.role == BufferRole::InOut && r.initialization
            == InitializationPolicy::HostProvided);
        let mut present = false;
        let mut q: usize = 0;
        while q < out.len()
            invariant
                q <= out.len(),
                present == (exists|m: int| 0 <= m < q && (#[trigger] out@[m]).buffer == id),
            decreases out.len() - q,
        {
            if out[q].buffer == id {
                present = true;
            }
            q = q + 1;
        }
        let named = if eligible && !present {
            last_named_exec(inputs, r.buffer.name.as_str())
        } else {
            None
        };
        let ghost before = out@;
        let ghost mut inserted = false;
        let ghost mut ins_pos: int = 0;
        if let Some(ni) = named {
            let values = clone_values(&inputs[ni].values);
            let mut p: usize = 0;
            while p < out.len()
                invariant
                    p <= out.len(),
                    out@ == before,
                    forall|m: int| 0 <= m < p ==> (#[trigger] out@[m]).buffer < id,
                ensures
                    p <= out.len(),
                    out@ == before,
                    forall|m: int| 0 <= m < p ==> (#[trigger] out@[m]).buffer < id,
                    p == out.len() || out@[p as int].buffer >= id,
                decreases out.len() - p,
            {
                if out[p].buffer >= id {
                    break;
                }
                p = p + 1;
            }
            proof {
                if p < before.len() {
                    assert(before[p as int].buffer != id);
                }
            }
            out.insert(p, BufferInput { buffer: id, values });
            proof {
                inserted = true;
                ins_pos = p as int;
                let after = out@;
                assert forall|i: int, j2: int| 0 <= i < j2 < after.len() implies (#[trigger] after[i]).buffer
                    < (#[trigger] after[j2]).buffer by {
                    if j2 < p {
                        assert(after[i] == before[i] && after[j2] == before[j2]);
                    } else if j2 == p {
                        assert(after[i] == before[i]);
                    } else if i < p {
                        assert(after[i] == before[i] && after[j2] == before[j2 - 1]);
                    } else if i == p {
                        assert(after[j2] == before[j2 - 1]);
                        if j2 - 1 > p {
                            assert(before[p as int].buffer < before[j2 - 1].buffer);
                        }
                    } else {
                        assert(after[i] == before[i - 1] && after[j2] == before[j2 - 1]);
                    }
                }
            }
        }
        proof {
            let t = slots.take(k + 1);
            let after = out@;
            assert(t[k as int] == *r);
            if inserted {
                assert(named is Some && !present && eligible);
                assert(after.len() == before.len() + 1);
                assert(after[ins_pos].buffer == id);
                assert(after[ins_pos].values@ == inputs@[named->0 as int].values@);
                assert forall|m: int| 0 <= m < before.len() implies before[m].buffer != id by {}
                assert forall|m: int| 0 <= m < after.len() && m != ins_pos implies (#[trigger] after[m]) == before[if m < ins_pos {
                    m
                } else {
                    m - 1
                }] by {}
            } else {
                assert(after == before);
            }
            assert forall|m: int| 0 <= m < after.len() implies match first_where(t, feeding_slot(inputs@, (#[trigger] after[m]).buffer)) {
                Some(j2) => after[m].values@ == inputs@[last_named(inputs@, t[j2].buffer.name@)->0].values@,
                None => false,
            } by {
                let x = after[m].buffer;
                lemma_first_where_push(prefix, *r, feeding_slot(inputs@, x));
                if inserted && m == ins_pos {
                    assert forall|j2: int| 0 <= j2 < prefix.len() implies !feeding_slot(inputs@, x)(#[trigger] prefix[j2]) by {
                        if feeding_slot(inputs@, x)(prefix[j2]) {
                            let m2 = choose|m2: int| 0 <= m2 < before.len() && (#[trigger] before[m2]).buffer == prefix[j2].buffer.id;
                            assert(before[m2].buffer == id);
                        }
                    }
                    lemma_first_where_none(prefix, feeding_slot(inputs@, x));
                    assert(feeding_slot(inputs@, x)(*r));
                } else {
                    let m0: int = if inserted && m > ins_pos { m - 1 } else { m };
                    assert(after[m] == before[m0]);
                    match first_where(prefix, feeding_slot(inputs@, x)) {
                        Some(j2) => {
                            lemma_first_where_some(prefix, feeding_slot(inputs@, x));
                            assert(t[j2] == prefix[j2]);
                        },
                        None => {
                            assert(false);
                        },
                    }
                }
            }
            assert forall|j2: int| 0 <= j2 < t.len() && feeding_slot(inputs@, t[j2].buffer.id)(#[trigger] t[j2])
                implies exists|m: int| 0 <= m < after.len() && (#[trigger] after[m]).buffer == t[j2].buffer.id by {
                if j2 < k {
                    assert(t[j2] == prefix[j2]);
                    let m0 = choose|m0: int| 0 <= m0 < before.len() && (#[trigger] before[m0]).buffer == prefix[j2].buffer.id;
                    if inserted && m0 >= ins_pos {
                        assert(after[m0 + 1] == before[m0]);
                    } else {
                        assert(after[m0] == before[m0]);
                    }
                } else {
                    if present {
                        let m0 = choose|m0: int| 0 <= m0 < before.len() && (#[trigger] before[m0]).buffer == id;
                        assert(after[m0] == before[m0]);
                    } else {
                        assert(inserted);
                        assert(after[ins_pos].buffer == id);
                    }
                }
            }
        }
        k = k + 1;
    }
    assert(slots.take(slots.len() as int) =~= slots);
    out
}

// ---------------------------------------------------------------------------
// The wire-derived resource graph
// ---------------------------------------------------------------------------

/// One buffer version of the wire-derived resource graph.
#[derive(Debug)]
pub struct WireGraphBuffer {
    pub id: u32,
    pub name: String,
    pub version: u32,
    pub element_count: u64,
}

/// One inter-launch data-flow edge of the wire-derived resource graph.
#[derive(Clone, Copy, Debug, PartialEq, Eq, Structural)]
pub struct WireGraphEdge {
    pub buffer_id: u32,
    pub version: u32,
    pub producer: u32,
    pub consumer: u32,
}

pub type GraphBufferSpec = (u32, Seq<char>, u32, u64);

pub open spec fn graph_buffer_view(b: WireGraphBuffer) -> GraphBufferSpec {
    (b.id, b.name@, b.version, b.element_count)
}

/// The slots a launch executes, with the launch's id (none when its kernel
/// index names no kernel).
pub open spec fn launch_slots(kernels: Seq<WireKernelUnit>, launch: WireLaunchUnit) -> Seq<(WireDeviceResource, u32)> {
    if launch.kernel_index < kernels.len() {
        kernels[launch.kernel_index as int].resources@.map_values(|r: WireDeviceResource| (r, launch.id))
    } else {
        Seq::empty()
    }
}

/// Every executed slot, in launch order then slot order.
pub open spec fn executed_slots(kernels: Seq<WireKernelUnit>, launches: Seq<WireLaunchUnit>) -> Seq<(WireDeviceResource, u32)>
    decreases launches.len(),
{
    if launches.len() == 0 {
        Seq::empty()
    } else {
        executed_slots(kernels, launches.drop_last()) + launch_slots(kernels, launches.last())
    }
}

/// The graph buffer versions a sequence of candidates names: the first
/// candidate of each (id, version).
pub open spec fn first_of_each(s: Seq<GraphBufferSpec>) -> Seq<GraphBufferSpec>
    decreases s.len(),
{
    if s.len() == 0 {
        Seq::empty()
    } else {
        let prev = first_of_each(s.drop_last());
        if exists|i: int| 0 <= i < prev.len() && (#[trigger] prev[i]).0 == s.last().0 && prev[i].2 == s.last().2 {
            prev
        } else {
            prev.push(s.last())
        }
    }
}

/// The buffer versions of the graph: those the executed slots access, then
/// those the results observe, each (id, version) once with its first name
/// and element count.
pub open spec fn graph_buffers(w: crate::device::wire::WireDeviceProgram) -> Seq<GraphBufferSpec> {
    first_of_each(
        executed_slots(w.kernels@, w.launches@).map_values(|a: (WireDeviceResource, u32)| (a.0.buffer.id, a.0.buffer.name@,
            a.0.version.version, a.0.version.element_count))
            + w.results@.map_values(|r: crate::device::wire::WireResultBuffer| (r.buffer.id, r.buffer.name@, r.version.version,
            r.version.element_count)),
    )
}

/// The (buffer, version, launch) of the executed slots that write.
pub open spec fn producers_of(s: Seq<(WireDeviceResource, u32)>) -> Seq<(u32, u32, u32)>
    decreases s.len(),
{
    if s.len() == 0 {
        Seq::empty()
    } else {
        let prev = producers_of(s.drop_last());
        let a = s.last();
        if a.0.access == ResourceAccess::Write || a.0.access == ResourceAccess::ReadWrite {
            prev.push((a.0.buffer.id, a.0.version.version, a.1))
        } else {
            prev
        }
    }
}

/// The (buffer, version, launch) of the executed slots that read.
pub open spec fn consumers_of(s: Seq<(WireDeviceResource, u32)>) -> Seq<(u32, u32, u32)>
    decreases s.len(),
{
    if s.len() == 0 {
        Seq::empty()
    } else {
        let prev = consumers_of(s.drop_last());
        let a = s.last();
        if a.0.access == ResourceAccess::Read || a.0.access == ResourceAccess::ReadWrite {
            prev.push((a.0.buffer.id, a.0.version.version, a.1))
        } else {
            prev
        }
    }
}

/// The edges from one producer to every consumer of the same buffer
/// version in another launch, in consumer order.
pub open spec fn edges_to(p: (u32, u32, u32), consumers: Seq<(u32, u32, u32)>) -> Seq<WireGraphEdge>
    decreases consumers.len(),
{
    if consumers.len() == 0 {
        Seq::empty()
    } else {
        let prev = edges_to(p, consumers.drop_last());
        let c = consumers.last();
        if c.0 == p.0 && c.1 == p.1 && c.2 != p.2 {
            prev.push(WireGraphEdge { buffer_id: p.0, version: p.1, producer: p.2, consumer: c.2 })
        } else {
            prev
        }
    }
}

/// Every producer/consumer edge, in producer order then consumer order.
pub open spec fn graph_edges(producers: Seq<(u32, u32, u32)>, consumers: Seq<(u32, u32, u32)>) -> Seq<WireGraphEdge>
    decreases producers.len(),
{
    if producers.len() == 0 {
        Seq::empty()
    } else {
        graph_edges(producers.drop_last(), consumers) + edges_to(producers.last(), consumers)
    }
}

fn push_candidate(buffers: &mut Vec<WireGraphBuffer>, id: u32, name: &String, version: u32, element_count: u64)
    ensures
        final(buffers)@.map_values(|b: WireGraphBuffer| graph_buffer_view(b)) == if exists|i: int| 0 <= i < old(buffers)@.len()
            && (#[trigger] old(buffers)@[i]).id == id && old(buffers)@[i].version == version {
            old(buffers)@.map_values(|b: WireGraphBuffer| graph_buffer_view(b))
        } else {
            old(buffers)@.map_values(|b: WireGraphBuffer| graph_buffer_view(b)).push((id, name@, version, element_count))
        },
{
    let mut i: usize = 0;
    while i < buffers.len()
        invariant
            i <= buffers.len(),
            *buffers == *old(buffers),
            forall|j: int| 0 <= j < i ==> !((#[trigger] buffers@[j]).id == id && buffers@[j].version == version),
        decreases buffers.len() - i,
    {
        if buffers[i].id == id && buffers[i].version == version {
            return;
        }
        i = i + 1;
    }
    let ghost before = buffers@;
    buffers.push(WireGraphBuffer { id, name: name.clone(), version, element_count });
    assert(buffers@.map_values(|b: WireGraphBuffer| graph_buffer_view(b)) =~= before.map_values(|b: WireGraphBuffer| graph_buffer_view(b)).push(
        (id, name@, version, element_count)));
}

proof fn lemma_first_of_each_step(buffers: Seq<WireGraphBuffer>, cands: Seq<GraphBufferSpec>, c: GraphBufferSpec)
    requires
        buffers.map_values(|b: WireGraphBuffer| graph_buffer_view(b)) == first_of_each(cands),
    ensures
        (exists|i: int| 0 <= i < buffers.len() && (#[trigger] buffers[i]).id == c.0 && buffers[i].version == c.2)
            == (exists|i: int| 0 <= i < first_of_each(cands).len() && (#[trigger] first_of_each(cands)[i]).0 == c.0
            && first_of_each(cands)[i].2 == c.2),
{
    let v = buffers.map_values(|b: WireGraphBuffer| graph_buffer_view(b));
    if exists|i: int| 0 <= i < buffers.len() && (#[trigger] buffers[i]).id == c.0 && buffers[i].version == c.2 {
        let i = choose|i: int| 0 <= i < buffers.len() && (#[trigger] buffers[i]).id == c.0 && buffers[i].version == c.2;
        assert(v[i] == graph_buffer_view(buffers[i]));
    }
    if exists|i: int| 0 <= i < v.len() && (#[trigger] v[i]).0 == c.0 && v[i].2 == c.2 {
        let i = choose|i: int| 0 <= i < v.len() && (#[trigger] v[i]).0 == c.0 && v[i].2 == c.2;
        assert(v[i] == graph_buffer_view(buffers[i]));
    }
}

/// Derive the resource graph from the wire's complete facts: every buffer
/// version the executed slots and the results name, and the
/// producer/consumer edges over the executed slots.
pub fn wire_resource_graph(device: &DeviceSection) -> (r: (Vec<WireGraphBuffer>, Vec<WireGraphEdge>))
    ensures
        r.0@.map_values(|b: WireGraphBuffer| graph_buffer_view(b)) == graph_buffers(device.device_program.program),
        r.1@ == graph_edges(
            producers_of(executed_slots(device.device_program.program.kernels@, device.device_program.program.launches@)),
            consumers_of(executed_slots(device.device_program.program.kernels@, device.device_program.program.launches@)),
        ),
{
    let w = &device.device_program.program;
    let ghost slots = executed_slots(w.kernels@, w.launches@);
    let ghost slot_cands = slots.map_values(|a: (WireDeviceResource, u32)| (a.0.buffer.id, a.0.buffer.name@,
        a.0.version.version, a.0.version.element_count));
    let ghost result_cands = w.results@.map_values(|r: crate::device::wire::WireResultBuffer| (r.buffer.id, r.buffer.name@,
        r.version.version, r.version.element_count));
    let mut buffers: Vec<WireGraphBuffer> = Vec::new();
    let mut producers: Vec<(u32, u32, u32)> = Vec::new();
    let mut consumers: Vec<(u32, u32, u32)> = Vec::new();
    let mut li: usize = 0;
    while li < w.launches.len()
        invariant
            li <= w.launches.len(),
            slots == executed_slots(w.kernels@, w.launches@),
            slot_cands == slots.map_values(|a: (WireDeviceResource, u32)| (a.0.buffer.id, a.0.buffer.name@,
                a.0.version.version, a.0.version.element_count)),
            buffers@.map_values(|b: WireGraphBuffer| graph_buffer_view(b)) == first_of_each(
                executed_slots(w.kernels@, w.launches@.take(li as int)).map_values(|a: (WireDeviceResource, u32)| (a.0.buffer.id,
                a.0.buffer.name@, a.0.version.version, a.0.version.element_count))),
            producers@ == producers_of(executed_slots(w.kernels@, w.launches@.take(li as int))),
            consumers@ == consumers_of(executed_slots(w.kernels@, w.launches@.take(li as int))),
        decreases w.launches.len() - li,
    {
        let launch = w.launches[li];
        let ghost done = executed_slots(w.kernels@, w.launches@.take(li as int));
        assert(w.launches@.take(li + 1).drop_last() =~= w.launches@.take(li as int));
        assert(w.launches@.take(li + 1).last() == launch);
        let ghost ls = launch_slots(w.kernels@, launch);
        assert(executed_slots(w.kernels@, w.launches@.take(li + 1)) == done + ls);
        if (launch.kernel_index as usize) < w.kernels.len() {
            let rs = &w.kernels[launch.kernel_index as usize].resources;
            let mut j: usize = 0;
            while j < rs.len()
                invariant
                    j <= rs.len(),
                    ls == rs@.map_values(|r: WireDeviceResource| (r, launch.id)),
                    buffers@.map_values(|b: WireGraphBuffer| graph_buffer_view(b)) == first_of_each(
                        (done + ls.take(j as int)).map_values(|a: (WireDeviceResource, u32)| (a.0.buffer.id,
                        a.0.buffer.name@, a.0.version.version, a.0.version.element_count))),
                    producers@ == producers_of(done + ls.take(j as int)),
                    consumers@ == consumers_of(done + ls.take(j as int)),
                decreases rs.len() - j,
            {
                let r = &rs[j];
                let ghost cur = done + ls.take(j as int);
                let ghost next = done + ls.take(j + 1);
                assert(next =~= cur.push((*r, launch.id)));
                let ghost cands = cur.map_values(|a: (WireDeviceResource, u32)| (a.0.buffer.id, a.0.buffer.name@,
                    a.0.version.version, a.0.version.element_count));
                assert(next.map_values(|a: (WireDeviceResource, u32)| (a.0.buffer.id, a.0.buffer.name@, a.0.version.version,
                    a.0.version.element_count)) =~= cands.push((r.buffer.id, r.buffer.name@, r.version.version, r.version.element_count)));
                proof {
                    let c = (r.buffer.id, r.buffer.name@, r.version.version, r.version.element_count);
                    lemma_first_of_each_step(buffers@, cands, c);
                    assert(cands.push(c).drop_last() =~= cands);
                    assert(cands.push(c).last() == c);
                    assert(next.drop_last() =~= cur);
                    assert(next.last() == (*r, launch.id));
                }
                push_candidate(&mut buffers, r.buffer.id, &r.buffer.name, r.version.version, r.version.element_count);
                let id = r.buffer.id;
                let version = r.version.version;
                match r.access {
                    ResourceAccess::Read => {
                        consumers.push((id, version, launch.id));
                    },
                    ResourceAccess::Write => {
                        producers.push((id, version, launch.id));
                    },
                    ResourceAccess::ReadWrite => {
                        consumers.push((id, version, launch.id));
                        producers.push((id, version, launch.id));
                    },
                }
                j = j + 1;
            }
            assert(ls.take(ls.len() as int) =~= ls);
        } else {
            assert(ls =~= Seq::<(WireDeviceResource, u32)>::empty());
            assert(done + ls =~= done);
        }
        li = li + 1;
    }
    assert(w.launches@.take(w.launches@.len() as int) =~= w.launches@);
    let mut ri: usize = 0;
    while ri < w.results.len()
        invariant
            ri <= w.results.len(),
            result_cands == w.results@.map_values(|r: crate::device::wire::WireResultBuffer| (r.buffer.id, r.buffer.name@,
                r.version.version, r.version.element_count)),
            buffers@.map_values(|b: WireGraphBuffer| graph_buffer_view(b)) == first_of_each(slot_cands + result_cands.take(ri as int)),
        decreases w.results.len() - ri,
    {
        let res = &w.results[ri];
        let ghost cands = slot_cands + result_cands.take(ri as int);
        assert(slot_cands + result_cands.take(ri + 1) =~= cands.push(result_cands[ri as int]));
        proof {
            lemma_first_of_each_step(buffers@, cands, result_cands[ri as int]);
            assert(cands.push(result_cands[ri as int]).drop_last() =~= cands);
            assert(cands.push(result_cands[ri as int]).last() == result_cands[ri as int]);
        }
        push_candidate(&mut buffers, res.buffer.id, &res.buffer.name, res.version.version, res.version.element_count);
        ri = ri + 1;
    }
    assert(result_cands.take(result_cands.len() as int) =~= result_cands);
    let mut edges: Vec<WireGraphEdge> = Vec::new();
    let mut pi: usize = 0;
    while pi < producers.len()
        invariant
            pi <= producers.len(),
            edges@ == graph_edges(producers@.take(pi as int), consumers@),
        decreases producers.len() - pi,
    {
        let p = producers[pi];
        assert(producers@.take(pi + 1).drop_last() =~= producers@.take(pi as int));
        assert(producers@.take(pi + 1).last() == p);
        let ghost base = edges@;
        let mut ci: usize = 0;
        while ci < consumers.len()
            invariant
                ci <= consumers.len(),
                edges@ == base + edges_to(p, consumers@.take(ci as int)),
            decreases consumers.len() - ci,
        {
            let c = consumers[ci];
            assert(consumers@.take(ci + 1).drop_last() =~= consumers@.take(ci as int));
            assert(consumers@.take(ci + 1).last() == c);
            if c.0 == p.0 && c.1 == p.1 && c.2 != p.2 {
                edges.push(WireGraphEdge { buffer_id: p.0, version: p.1, producer: p.2, consumer: c.2 });
            }
            ci = ci + 1;
            assert(edges@ =~= base + edges_to(p, consumers@.take(ci as int)));
        }
        assert(consumers@.take(consumers@.len() as int) =~= consumers@);
        pi = pi + 1;
    }
    assert(producers@.take(producers@.len() as int) =~= producers@);
    (buffers, edges)
}

} // verus!
