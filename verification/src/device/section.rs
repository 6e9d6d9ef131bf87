//! The FMIR `device` section: the versioned program wire, the declared
//! artifacts and inputs, and the optional session section, with the lookups
//! the device route runs over it.
use vstd::prelude::*;
use crate::device::schema::BufferLifetime;
use crate::device::schema::BufferRole;
use crate::device::schema::InitializationPolicy;
use crate::device::wire::DeviceProgramSection;
use crate::device::wire::WireDeviceResource;
use crate::device::wire::WireKernelUnit;
use crate::device::wire::WIRE_SESSION_SECTION_VERSION;
use crate::naming::owned;
use crate::search::first_index;
use crate::search::first_where;
use crate::search::lemma_first_index_is;
use crate::search::lemma_first_index_none;
use crate::search::lemma_first_where_is;
use crate::search::lemma_first_where_none;
use crate::search::lemma_some_first_index;
use crate::selection::DeviceBackend;
use crate::selection::DeviceSelection;

verus! {

broadcast use vstd::string::group_string_axioms;

/// The format of a declared device artifact.
#[derive(Clone, Copy, Debug, PartialEq, Eq, Structural)]
pub enum ArtifactFormat {
    Msl,
    Ptx,
}

/// One logical-entry to backend-symbol mapping of an artifact.
#[derive(Debug)]
pub struct DeviceSymbol {
    pub entry: String,
    pub symbol: String,
}

/// One declared backend artifact packet.
#[derive(Debug)]
pub struct DeviceArtifact {
    pub backend: DeviceBackend,
    pub format: ArtifactFormat,
    pub target_id: String,
    pub required_features: Vec<String>,
    pub abi_version: u32,
    pub bytes: Vec<u8>,
    pub entrypoints: Vec<DeviceSymbol>,
    pub content_sha256: String,
    pub packet_sha256: String,
}

/// One declared host input: a buffer name and its `f32` values, each carried
/// as its IEEE-754 bit pattern.
#[derive(Debug)]
pub struct DeclaredInput {
    pub name: String,
    pub values: Vec<u32>,
}

/// The element type of the KV cache layout.
#[derive(Clone, Copy, Debug, PartialEq, Eq, Structural)]
pub enum KvCacheDtype {
    F32,
    F16,
}

/// The KV cache layout of an inference session.
#[derive(Clone, Copy, Debug, PartialEq, Eq, Structural)]
pub struct KvLayout {
    pub slots: u32,
    pub context_length: u32,
    pub layer_count: u32,
    pub kv_head_count: u32,
    pub head_dim: u32,
    pub dtype: KvCacheDtype,
}

/// A workload mode a session executes.
#[derive(Clone, Copy, Debug, PartialEq, Eq, Structural)]
pub enum InvocationMode {
    Prefill,
    ScalarDecode,
}

/// How a session input is refreshed.
#[derive(Clone, Copy, Debug, PartialEq, Eq, Structural)]
pub enum InputUpdateCadence {
    Resident,
    PerInvocation,
}

/// One session input slot and its cadence.
#[derive(Clone, Copy, Debug, PartialEq, Eq, Structural)]
pub struct SessionInput {
    pub slot: u32,
    pub cadence: InputUpdateCadence,
}

/// When a session reads back its observation.
#[derive(Clone, Copy, Debug, PartialEq, Eq, Structural)]
pub enum SessionObservationCadence {
    PerInvocation,
    EndOfSession,
}

/// The optional cadence/session section.
#[derive(Debug)]
pub struct SessionSection {
    pub v: u32,
    pub kv_layout: KvLayout,
    pub invocation_modes: Vec<InvocationMode>,
    pub inputs: Vec<SessionInput>,
    pub observation_cadence: SessionObservationCadence,
}

/// The FMIR `device` section.
#[derive(Debug)]
pub struct DeviceSection {
    pub device_program: DeviceProgramSection,
    pub selection: DeviceSelection,
    pub artifacts: Vec<DeviceArtifact>,
    pub declared_inputs: Vec<DeclaredInput>,
    pub session: Option<SessionSection>,
}

// ---------------------------------------------------------------------------
// Resource lookup over the wire's kernels
// ---------------------------------------------------------------------------

/// The first slot of a slot list whose buffer has the given id.
pub open spec fn first_slot_with_id(rs: Seq<WireDeviceResource>, id: u32) -> Option<WireDeviceResource> {
    match first_where(rs, |r: WireDeviceResource| r.buffer.id == id) {
        Some(j) => Some(rs[j]),
        None => None,
    }
}

/// The first slot, in kernel order and then slot order, whose buffer has the
/// given id.
pub open spec fn first_kernel_slot_with_id(kernels: Seq<WireKernelUnit>, id: u32) -> Option<WireDeviceResource>
    decreases kernels.len(),
{
    if kernels.len() == 0 {
        None
    } else {
        match first_kernel_slot_with_id(kernels.drop_last(), id) {
            Some(r) => Some(r),
            None => first_slot_with_id(kernels.last().resources@, id),
        }
    }
}

/// A slot found in a prefix of the kernels is the first one overall.
pub proof fn lemma_first_kernel_slot_prefix(kernels: Seq<WireKernelUnit>, i: int, id: u32)
    requires
        0 <= i <= kernels.len(),
        first_kernel_slot_with_id(kernels.take(i), id) is Some,
    ensures
        first_kernel_slot_with_id(kernels, id) == first_kernel_slot_with_id(kernels.take(i), id),
    decreases kernels.len() - i,
{
    if i < kernels.len() {
        assert(kernels.take(i + 1).drop_last() =~= kernels.take(i));
        assert(first_kernel_slot_with_id(kernels.take(i + 1), id) == first_kernel_slot_with_id(kernels.take(i), id));
        lemma_first_kernel_slot_prefix(kernels, i + 1, id);
    } else {
        assert(kernels.take(i) =~= kernels);
    }
}

/// The first wire slot whose buffer has the given id: its kernel index and
/// slot index.
pub fn find_wire_slot(kernels: &Vec<WireKernelUnit>, id: u32) -> (r: Option<(usize, usize)>)
    ensures
        match r {
            Some((k, j)) => k < kernels@.len() && j < kernels@[k as int].resources@.len()
                && first_kernel_slot_with_id(kernels@, id) == Some(kernels@[k as int].resources@[j as int]),
            None => first_kernel_slot_with_id(kernels@, id) is None,
        },
{
    let mut i: usize = 0;
    while i < kernels.len()
        invariant
            i <= kernels.len(),
            first_kernel_slot_with_id(kernels@.take(i as int), id) is None,
        decreases kernels.len() - i,
    {
        let rs = &kernels[i].resources;
        let ghost p = |r: WireDeviceResource| r.buffer.id == id;
        let mut j: usize = 0;
        while j < rs.len()
            invariant
                i < kernels.len(),
                first_kernel_slot_with_id(kernels@.take(i as int), id) is None,
                rs@ == kernels@[i as int].resources@,
                j <= rs.len(),
                p == (|r: WireDeviceResource| r.buffer.id == id),
                forall|m: int| 0 <= m < j ==> !p(#[trigger] rs@[m]),
            decreases rs.len() - j,
        {
            if rs[j].buffer.id == id {
                proof {
                    lemma_first_where_is(rs@, p, j as int);
                    assert(first_slot_with_id(rs@, id) == Some(rs@[j as int]));
                    assert(kernels@.take(i + 1).drop_last() =~= kernels@.take(i as int));
                    assert(kernels@.take(i + 1).last() == kernels@[i as int]);
                    assert(first_kernel_slot_with_id(kernels@.take(i + 1), id) == Some(rs@[j as int]));
                    lemma_first_kernel_slot_prefix(kernels@, i + 1, id);
                }
                return Some((i, j));
            }
            j = j + 1;
        }
        proof {
            lemma_first_where_none(rs@, p);
            assert(kernels@.take(i + 1).drop_last() =~= kernels@.take(i as int));
            assert(kernels@.take(i + 1).last() == kernels@[i as int]);
        }
        i = i + 1;
    }
    assert(kernels@.take(kernels.len() as int) =~= kernels@);
    None
}

pub open spec fn unknown_name() -> Seq<char> {
    seq!['<', 'u', 'n', 'k', 'n', 'o', 'w', 'n', '>']
}

/// The wire's logical name for a buffer id (diagnostics): the name of the
/// first slot naming that buffer, or `<unknown>`.
pub fn wire_buffer_name(device: &DeviceSection, id: u32) -> (name: String)
    ensures
        name@ == match first_kernel_slot_with_id(device.device_program.program.kernels@, id) {
            Some(r) => r.buffer.name@,
            None => unknown_name(),
        },
{
    let kernels = &device.device_program.program.kernels;
    match find_wire_slot(kernels, id) {
        Some((k, j)) => kernels[k].resources[j].buffer.name.clone(),
        None => {
            proof {
                reveal_strlit("<unknown>");
            }
            assert("<unknown>"@ =~= unknown_name());
            owned("<unknown>")
        },
    }
}

// ---------------------------------------------------------------------------
// Session-section admission
// ---------------------------------------------------------------------------

/// A KV layout dimension.
#[derive(Clone, Copy, Debug, PartialEq, Eq, Structural)]
pub enum KvDimension {
    Slots,
    ContextLength,
    LayerCount,
    KvHeadCount,
    HeadDim,
}

/// Why a session section is not admitted.
#[derive(Clone, Copy, Debug, PartialEq, Eq, Structural)]
pub enum SessionError {
    /// The session section version is not the supported one.
    UnsupportedVersion { found: u32 },
    /// A KV layout dimension is zero.
    ZeroKvDimension { dimension: KvDimension },
    /// The KV dtype is outside the closed `f32` surface.
    UnsupportedDtype { dtype: KvCacheDtype },
    /// The session declares no invocation mode.
    NoInvocationMode,
    /// An invocation mode is declared more than once.
    DuplicateInvocationMode { mode: InvocationMode },
    /// A session input slot is declared more than once.
    DuplicateInputSlot { slot: u32 },
    /// A session input slot names no buffer of the carried program.
    UnresolvedInputSlot { slot: u32 },
    /// A resident input names a buffer that is not per-program.
    ResidentNotPerProgram { slot: u32, lifetime: BufferLifetime },
    /// A per-invocation input names a once-init per-program host-provided
    /// buffer.
    PerInvocationOnceInit { slot: u32 },
    /// A scalar-decode session does not observe per invocation.
    DecodeObservationCadence { cadence: SessionObservationCadence },
}

/// The first zero KV dimension, in declaration order.
pub open spec fn zero_kv_dimension(kv: KvLayout) -> Option<KvDimension> {
    if kv.slots == 0 {
        Some(KvDimension::Slots)
    } else if kv.context_length == 0 {
        Some(KvDimension::ContextLength)
    } else if kv.layer_count == 0 {
        Some(KvDimension::LayerCount)
    } else if kv.kv_head_count == 0 {
        Some(KvDimension::KvHeadCount)
    } else if kv.head_dim == 0 {
        Some(KvDimension::HeadDim)
    } else {
        None
    }
}

/// An invocation mode repeated later in the list.
pub open spec fn mode_repeats_later(modes: Seq<InvocationMode>, i: int) -> bool {
    exists|j: int| i < j < modes.len() && modes[j] == modes[i]
}

/// A session input slot repeated later, or naming no carried buffer.
pub open spec fn input_fault(inputs: Seq<SessionInput>, kernels: Seq<WireKernelUnit>, i: int) -> Option<SessionError> {
    if exists|j: int| i < j < inputs.len() && inputs[j].slot == inputs[i].slot {
        Some(SessionError::DuplicateInputSlot { slot: inputs[i].slot })
    } else if first_kernel_slot_with_id(kernels, inputs[i].slot) is None {
        Some(SessionError::UnresolvedInputSlot { slot: inputs[i].slot })
    } else {
        None
    }
}

/// An input cadence that contradicts the carried buffer facts.
pub open spec fn cadence_fault(input: SessionInput, kernels: Seq<WireKernelUnit>) -> Option<SessionError> {
    match first_kernel_slot_with_id(kernels, input.slot) {
        Some(r) => match input.cadence {
            InputUpdateCadence::Resident => if r.buffer.lifetime != BufferLifetime::PerProgram {
                Some(SessionError::ResidentNotPerProgram { slot: input.slot, lifetime: r.buffer.lifetime })
            } else {
                None
            },
            InputUpdateCadence::PerInvocation => if r.buffer.lifetime == BufferLifetime::PerProgram
                && r.initialization == InitializationPolicy::HostProvided {
                Some(SessionError::PerInvocationOnceInit { slot: input.slot })
            } else {
                None
            },
        },
        None => None,
    }
}

/// The admission verdict of a device section's session section.
pub open spec fn session_verdict(device: DeviceSection) -> Result<(), SessionError> {
    match device.session {
        None => Ok(()),
        Some(s) => {
            let kernels = device.device_program.program.kernels@;
            let modes = s.invocation_modes@;
            let inputs = s.inputs@;
            if s.v != WIRE_SESSION_SECTION_VERSION {
                Err(SessionError::UnsupportedVersion { found: s.v })
            } else if zero_kv_dimension(s.kv_layout) is Some {
                Err(SessionError::ZeroKvDimension { dimension: zero_kv_dimension(s.kv_layout)->0 })
            } else if s.kv_layout.dtype != KvCacheDtype::F32 {
                Err(SessionError::UnsupportedDtype { dtype: s.kv_layout.dtype })
            } else if modes.len() == 0 {
                Err(SessionError::NoInvocationMode)
            } else if first_index(modes.len() as int, |i: int| mode_repeats_later(modes, i)) is Some {
                let i = first_index(modes.len() as int, |i: int| mode_repeats_later(modes, i))->0;
                Err(SessionError::DuplicateInvocationMode { mode: modes[i] })
            } else if first_index(inputs.len() as int, |i: int| input_fault(inputs, kernels, i) is Some) is Some {
                let i = first_index(inputs.len() as int, |i: int| input_fault(inputs, kernels, i) is Some)->0;
                Err(input_fault(inputs, kernels, i)->0)
            } else if first_index(inputs.len() as int, |i: int| cadence_fault(inputs[i], kernels) is Some) is Some {
                let i = first_index(inputs.len() as int, |i: int| cadence_fault(inputs[i], kernels) is Some)->0;
                Err(cadence_fault(inputs[i], kernels)->0)
            } else if modes.contains(InvocationMode::ScalarDecode)
                && s.observation_cadence != SessionObservationCadence::PerInvocation {
                Err(SessionError::DecodeObservationCadence { cadence: s.observation_cadence })
            } else {
                Ok(())
            }
        },
    }
}

/// An admitted session never re-uploads a once-init weight: every input it
/// declares per invocation names a buffer the carried program binds, and
/// that buffer's carried facts (its first slot in kernel order) are not
/// both per-program and host-provided. Every input it declares resident
/// names a per-program buffer.
pub proof fn law_admitted_session_inputs_match_their_buffers(device: DeviceSection, i: int)
    requires
        session_verdict(device) is Ok,
        device.session is Some,
        0 <= i < device.session->0.inputs@.len(),
    ensures
        first_kernel_slot_with_id(device.device_program.program.kernels@, device.session->0.inputs@[i].slot) is Some,
        device.session->0.inputs@[i].cadence == InputUpdateCadence::PerInvocation ==> !(
            first_kernel_slot_with_id(device.device_program.program.kernels@, device.session->0.inputs@[i].slot)->0.buffer.lifetime
                == BufferLifetime::PerProgram
            && first_kernel_slot_with_id(device.device_program.program.kernels@, device.session->0.inputs@[i].slot)->0.initialization
                == InitializationPolicy::HostProvided),
        device.session->0.inputs@[i].cadence == InputUpdateCadence::Resident ==> first_kernel_slot_with_id(
            device.device_program.program.kernels@,
            device.session->0.inputs@[i].slot,
        )->0.buffer.lifetime == BufferLifetime::PerProgram,
{
    let s = device.session->0;
    let kernels = device.device_program.program.kernels@;
    let inputs = s.inputs@;
    let pi = |j: int| input_fault(inputs, kernels, j) is Some;
    let pc = |j: int| cadence_fault(inputs[j], kernels) is Some;
    if pi(i) {
        lemma_some_first_index(inputs.len() as int, pi, i);
    }
    if pc(i) {
        lemma_some_first_index(inputs.len() as int, pc, i);
    }
    assert(!pi(i));
    assert(!pc(i));
}

/// An admitted session section has the supported version, a KV layout with
/// every dimension positive and the `f32` dtype, at least one invocation
/// mode and no mode twice, no input slot twice, and a per-invocation
/// observation whenever it serves scalar decode.
pub proof fn law_admitted_session_is_well_formed(device: DeviceSection)
    requires
        session_verdict(device) is Ok,
        device.session is Some,
    ensures
        device.session->0.v == WIRE_SESSION_SECTION_VERSION,
        device.session->0.kv_layout.slots > 0,
        device.session->0.kv_layout.context_length > 0,
        device.session->0.kv_layout.layer_count > 0,
        device.session->0.kv_layout.kv_head_count > 0,
        device.session->0.kv_layout.head_dim > 0,
        device.session->0.kv_layout.dtype == KvCacheDtype::F32,
        device.session->0.invocation_modes@.len() > 0,
        forall|a: int, b: int| 0 <= a < b < device.session->0.invocation_modes@.len()
            ==> device.session->0.invocation_modes@[a] != device.session->0.invocation_modes@[b],
        forall|a: int, b: int| 0 <= a < b < device.session->0.inputs@.len()
            ==> device.session->0.inputs@[a].slot != device.session->0.inputs@[b].slot,
        device.session->0.invocation_modes@.contains(InvocationMode::ScalarDecode)
            ==> device.session->0.observation_cadence == SessionObservationCadence::PerInvocation,
{
    let s = device.session->0;
    let kernels = device.device_program.program.kernels@;
    let modes = s.invocation_modes@;
    let inputs = s.inputs@;
    let pm = |i: int| mode_repeats_later(modes, i);
    let pi = |j: int| input_fault(inputs, kernels, j) is Some;
    assert forall|a: int, b: int| 0 <= a < b < modes.len() implies modes[a] != modes[b] by {
        if modes[a] == modes[b] {
            assert(pm(a));
            lemma_some_first_index(modes.len() as int, pm, a);
        }
    }
    assert forall|a: int, b: int| 0 <= a < b < inputs.len() implies inputs[a].slot != inputs[b].slot by {
        if inputs[a].slot == inputs[b].slot {
            assert(pi(a));
            lemma_some_first_index(inputs.len() as int, pi, a);
        }
    }
}

/// Fail-closed admission of the optional session section: the version
/// ratchet first, then every KV layout dimension positive, the dtype closed to
/// `f32`, at least one and no repeated invocation mode, unique session-input
/// slots that resolve against the carried program's buffers, input cadences
/// consistent with those buffers' lifetime and initialization facts, and a
/// per-invocation observation for a scalar-decode session. A device section
/// without a session section is admitted.
#[verifier::loop_isolation(false)]
pub fn admit_session_section(device: &DeviceSection) -> (r: Result<(), SessionError>)
    ensures
        r == session_verdict(*device),
{
    let section = match &device.session {
        None => return Ok(()),
        Some(section) => section,
    };
    let ghost kernels_v = device.device_program.program.kernels@;
    let kernels = &device.device_program.program.kernels;
    if section.v != WIRE_SESSION_SECTION_VERSION {
        return Err(SessionError::UnsupportedVersion { found: section.v });
    }
    let kv = section.kv_layout;
    if kv.slots == 0 {
        return Err(SessionError::ZeroKvDimension { dimension: KvDimension::Slots });
    }
    if kv.context_length == 0 {
        return Err(SessionError::ZeroKvDimension { dimension: KvDimension::ContextLength });
    }
    if kv.layer_count == 0 {
        return Err(SessionError::ZeroKvDimension { dimension: KvDimension::LayerCount });
    }
    if kv.kv_head_count == 0 {
        return Err(SessionError::ZeroKvDimension { dimension: KvDimension::KvHeadCount });
    }
    if kv.head_dim == 0 {
        return Err(SessionError::ZeroKvDimension { dimension: KvDimension::HeadDim });
    }
    if kv.dtype != KvCacheDtype::F32 {
        return Err(SessionError::UnsupportedDtype { dtype: kv.dtype });
    }
    let modes = &section.invocation_modes;
    if modes.len() == 0 {
        return Err(SessionError::NoInvocationMode);
    }
    let ghost pm = |i: int| mode_repeats_later(modes@, i);
    let mut i: usize = 0;
    while i < modes.len()
        invariant
            i <= modes.len(),
            pm == (|i: int| mode_repeats_later(modes@, i)),
            forall|k: int| 0 <= k < i ==> !#[trigger] pm(k),
        decreases modes.len() - i,
    {
        let mut j: usize = i + 1;
        while j < modes.len()
            invariant
                i < j <= modes.len(),
                forall|m: int| i < m < j ==> modes@[m] != modes@[i as int],
            decreases modes.len() - j,
        {
            if modes[j] == modes[i] {
                proof {
                    assert(pm(i as int));
                    lemma_first_index_is(modes@.len() as int, pm, i as int);
                }
                return Err(SessionError::DuplicateInvocationMode { mode: modes[i] });
            }
            j = j + 1;
        }
        assert(!pm(i as int));
        i = i + 1;
    }
    proof {
        lemma_first_index_none(modes@.len() as int, pm);
    }
    let inputs = &section.inputs;
    let ghost pi = |i: int| input_fault(inputs@, kernels_v, i) is Some;
    let mut i: usize = 0;
    while i < inputs.len()
        invariant
            i <= inputs.len(),
            kernels@ == kernels_v,
            pi == (|i: int| input_fault(inputs@, kernels_v, i) is Some),
            forall|k: int| 0 <= k < i ==> !#[trigger] pi(k),
        decreases inputs.len() - i,
    {
        let slot = inputs[i].slot;
        let mut j: usize = i + 1;
        while j < inputs.len()
            invariant
                i < j <= inputs.len(),
                slot == inputs@[i as int].slot,
                forall|m: int| i < m < j ==> inputs@[m].slot != slot,
            decreases inputs.len() - j,
        {
            if inputs[j].slot == slot {
                proof {
                    assert(pi(i as int));
                    lemma_first_index_is(inputs@.len() as int, pi, i as int);
                }
                return Err(SessionError::DuplicateInputSlot { slot });
            }
            j = j + 1;
        }
        if find_wire_slot(kernels, slot).is_none() {
            proof {
                assert(pi(i as int));
                lemma_first_index_is(inputs@.len() as int, pi, i as int);
            }
            return Err(SessionError::UnresolvedInputSlot { slot });
        }
        assert(!pi(i as int));
        i = i + 1;
    }
    proof {
        lemma_first_index_none(inputs@.len() as int, pi);
    }
    let ghost pc = |i: int| cadence_fault(inputs@[i], kernels_v) is Some;
    let mut i: usize = 0;
    while i < inputs.len()
        invariant
            i <= inputs.len(),
            kernels@ == kernels_v,
            pc == (|i: int| cadence_fault(inputs@[i], kernels_v) is Some),
            forall|k: int| 0 <= k < i ==> !#[trigger] pc(k),
        decreases inputs.len() - i,
    {
        let input = inputs[i];
        match find_wire_slot(kernels, input.slot) {
            None => {},
            Some((k, j)) => {
                let fact = &kernels[k].resources[j];
                match input.cadence {
                    InputUpdateCadence::Resident => {
                        if fact.buffer.lifetime != BufferLifetime::PerProgram {
                            proof {
                                assert(pc(i as int));
                                lemma_first_index_is(inputs@.len() as int, pc, i as int);
                            }
                            return Err(SessionError::ResidentNotPerProgram { slot: input.slot, lifetime: fact.buffer.lifetime });
                        }
                    },
                    InputUpdateCadence::PerInvocation => {
                        if fact.buffer.lifetime == BufferLifetime::PerProgram
                            && fact.initialization == InitializationPolicy::HostProvided {
                            proof {
                                assert(pc(i as int));
                                lemma_first_index_is(inputs@.len() as int, pc, i as int);
                            }
                            return Err(SessionError::PerInvocationOnceInit { slot: input.slot });
                        }
                    },
                }
            },
        }
        assert(!pc(i as int));
        i = i + 1;
    }
    proof {
        lemma_first_index_none(inputs@.len() as int, pc);
    }
    let mut decode = false;
    let mut m: usize = 0;
    while m < modes.len()
        invariant
            m <= modes.len(),
            decode == (exists|x: int| 0 <= x < m && modes@[x] == InvocationMode::ScalarDecode),
        decreases modes.len() - m,
    {
        if modes[m] == InvocationMode::ScalarDecode {
            decode = true;
        }
        m = m + 1;
    }
    assert(decode == modes@.contains(InvocationMode::ScalarDecode));
    if decode && section.observation_cadence != SessionObservationCadence::PerInvocation {
        return Err(SessionError::DecodeObservationCadence { cadence: section.observation_cadence });
    }
    Ok(())
}

} // verus!
