//! The host device descriptor derived from the device section's wire, and the
//! checks that run before the host sees it.
use vstd::prelude::*;
use crate::device::schema::BufferLifetime;
use crate::device::schema::DependencyEdge;
use crate::device::schema::InitializationPolicy;
use crate::device::schema::ProgramLifetime;
use crate::device::section::admit_session_section;
use crate::device::section::session_verdict;
use crate::device::section::DeviceArtifact;
use crate::device::section::DeviceSection;
use crate::device::section::DeviceSymbol;
use crate::device::section::SessionError;
use crate::device::wire::WireKernelUnit;
use crate::device::wire::WireProgramLifetime;
use crate::selection::DeviceBackend;
use crate::device::schema::BufferRole;
use crate::device::schema::ObservationCadence;
use crate::device::schema::ResourceAccess;
use crate::device::schema::writes;
use crate::device::section::first_slot_with_id;
use crate::device::wire::WireBufferIdentity;
use crate::device::wire::WireDeviceProgram;
use crate::device::wire::WireDeviceResource;
use crate::device::wire::WireLaunchUnit;
use crate::device::wire::WireResultBuffer;
use crate::naming::text_eq;
use crate::search::first_index;
use crate::search::first_where;
use crate::search::lemma_first_index_is;
use crate::search::lemma_first_index_none;
use crate::search::lemma_first_where_is;
use crate::search::lemma_first_where_none;

verus! {

broadcast use vstd::string::group_string_axioms;

// ---------------------------------------------------------------------------
// Result-row validation
// ---------------------------------------------------------------------------

/// What is wrong with one declared result row.
#[derive(Clone, Copy, Debug, PartialEq, Eq, Structural)]
pub enum ResultFault {
    /// The observation role is neither output nor in-out.
    InvalidRole { role: BufferRole },
    /// The observation role differs from the buffer's role.
    RoleMismatch { role: BufferRole, buffer_role: BufferRole },
    /// No launch has the producing launch id.
    UnknownLaunch { produced_by: u32 },
    /// The producing launch's kernel index names no kernel.
    UnknownKernel { produced_by: u32, kernel_index: u32 },
    /// The producing kernel has no slot for the buffer.
    NoMatchingResource { produced_by: u32 },
    /// The producing kernel's slot carries other identity facts.
    IdentityContradiction { produced_by: u32 },
    /// The producing kernel uses another version number.
    VersionMismatch { declared: u32, used: u32 },
    /// The producing kernel carries another element type or count.
    ShapeMismatch { produced_by: u32 },
    /// The observation fact names another launch than the producer.
    ObservationBoundary { produced_by: u32, at_launch: u32 },
    /// The cadence contradicts the buffer's lifetime class.
    CadenceLifetime { cadence: ObservationCadence, lifetime: BufferLifetime },
    /// The producing kernel never writes the buffer.
    NotWritten { produced_by: u32 },
    /// An earlier result row already names the buffer.
    Duplicate { first: usize },
}

/// A faulty result row: its index and its fault.
#[derive(Clone, Copy, Debug, PartialEq, Eq, Structural)]
pub struct ResultError {
    pub result: usize,
    pub fault: ResultFault,
}

/// Two buffer identities carry the same facts.
pub open spec fn same_identity(a: WireBufferIdentity, b: WireBufferIdentity) -> bool {
    &&& a.id == b.id
    &&& a.name@ == b.name@
    &&& a.role == b.role
    &&& a.storage == b.storage
    &&& a.lifetime == b.lifetime
    &&& a.semantic_value == b.semantic_value
}

/// A cadence consistent with a lifetime class: per-step observations read back
/// observation-point buffers; end-of-run observations read back per-step or
/// per-program buffers.
pub open spec fn cadence_fits(cadence: ObservationCadence, lifetime: BufferLifetime) -> bool {
    match cadence {
        ObservationCadence::PerStep => lifetime == BufferLifetime::ObservationPoint,
        ObservationCadence::EndOfRun => lifetime == BufferLifetime::PerStep || lifetime == BufferLifetime::PerProgram,
    }
}

/// Whether a slot writes the given buffer.
pub open spec fn slot_writes(r: WireDeviceResource, id: u32) -> bool {
    r.buffer.id == id && writes(r.access)
}

/// The fault of one result row against its producing launch, if any (every
/// check but uniqueness).
pub open spec fn row_fault(wire: WireDeviceProgram, r: WireResultBuffer) -> Option<ResultFault> {
    if !(r.role == BufferRole::Output || r.role == BufferRole::InOut) {
        Some(ResultFault::InvalidRole { role: r.role })
    } else if r.role != r.buffer.role {
        Some(ResultFault::RoleMismatch { role: r.role, buffer_role: r.buffer.role })
    } else {
        match first_where(wire.launches@, |l: WireLaunchUnit| l.id == r.produced_by) {
            None => Some(ResultFault::UnknownLaunch { produced_by: r.produced_by }),
            Some(li) => {
                let launch = wire.launches@[li];
                if launch.kernel_index >= wire.kernels@.len() {
                    Some(ResultFault::UnknownKernel { produced_by: r.produced_by, kernel_index: launch.kernel_index })
                } else {
                    let kernel = wire.kernels@[launch.kernel_index as int];
                    match first_slot_with_id(kernel.resources@, r.buffer.id) {
                        None => Some(ResultFault::NoMatchingResource { produced_by: r.produced_by }),
                        Some(res) => if !same_identity(res.buffer, r.buffer) {
                            Some(ResultFault::IdentityContradiction { produced_by: r.produced_by })
                        } else if res.version.version != r.version.version {
                            Some(ResultFault::VersionMismatch { declared: r.version.version, used: res.version.version })
                        } else if res.version.element_ty@ != r.version.element_ty@
                            || res.version.element_count != r.version.element_count {
                            Some(ResultFault::ShapeMismatch { produced_by: r.produced_by })
                        } else if r.observation.at_launch != r.produced_by {
                            Some(ResultFault::ObservationBoundary { produced_by: r.produced_by, at_launch: r.observation.at_launch })
                        } else if !cadence_fits(r.observation.cadence, res.buffer.lifetime) {
                            Some(ResultFault::CadenceLifetime { cadence: r.observation.cadence, lifetime: res.buffer.lifetime })
                        } else if !(exists|j: int| 0 <= j < kernel.resources@.len() && slot_writes(#[trigger] kernel.resources@[j], r.buffer.id)) {
                            Some(ResultFault::NotWritten { produced_by: r.produced_by })
                        } else {
                            None
                        },
                    }
                }
            },
        }
    }
}

/// The fault of the result row at index `i`: its row fault, or the first
/// earlier row naming the same buffer.
pub open spec fn result_fault(wire: WireDeviceProgram, i: int) -> Option<ResultFault> {
    let results = wire.results@;
    match row_fault(wire, results[i]) {
        Some(f) => Some(f),
        None => match first_index(i, |j: int| results[j].buffer.id == results[i].buffer.id) {
            Some(j) => Some(ResultFault::Duplicate { first: j as usize }),
            None => None,
        },
    }
}

/// The verdict of the result-row validation: the first faulty row, if any.
pub open spec fn results_verdict(wire: WireDeviceProgram) -> Result<(), ResultError> {
    match first_index(wire.results@.len() as int, |i: int| result_fault(wire, i) is Some) {
        Some(i) => Err(ResultError { result: i as usize, fault: result_fault(wire, i)->0 }),
        None => Ok(()),
    }
}

fn same_identity_exec(a: &WireBufferIdentity, b: &WireBufferIdentity) -> (r: bool)
    ensures
        r == same_identity(*a, *b),
{
    a.id == b.id && text_eq(a.name.as_str(), b.name.as_str()) && a.role == b.role && a.storage == b.storage
        && a.lifetime == b.lifetime && a.semantic_value == b.semantic_value
}

/// The first launch with the given id.
pub fn find_launch(launches: &Vec<WireLaunchUnit>, id: u32) -> (r: Option<usize>)
    ensures
        match r {
            Some(i) => first_where(launches@, |l: WireLaunchUnit| l.id == id) == Some(i as int),
            None => first_where(launches@, |l: WireLaunchUnit| l.id == id) is None,
        },
{
    let ghost p = |l: WireLaunchUnit| l.id == id;
    let mut i: usize = 0;
    while i < launches.len()
        invariant
            i <= launches.len(),
            p == (|l: WireLaunchUnit| l.id == id),
            forall|k: int| 0 <= k < i ==> !p(#[trigger] launches@[k]),
        decreases launches.len() - i,
    {
        if launches[i].id == id {
            proof {
                lemma_first_where_is(launches@, p, i as int);
            }
            return Some(i);
        }
        i = i + 1;
    }
    proof {
        lemma_first_where_none(launches@, p);
    }
    None
}

/// The first slot of a slot list naming the given buffer.
pub fn find_slot(rs: &Vec<WireDeviceResource>, id: u32) -> (r: Option<usize>)
    ensures
        match r {
            Some(j) => j < rs@.len() && first_slot_with_id(rs@, id) == Some(rs@[j as int]),
            None => first_slot_with_id(rs@, id) is None,
        },
{
    let ghost p = |r: WireDeviceResource| r.buffer.id == id;
    let mut j: usize = 0;
    while j < rs.len()
        invariant
            j <= rs.len(),
            p == (|r: WireDeviceResource| r.buffer.id == id),
            forall|k: int| 0 <= k < j ==> !p(#[trigger] rs@[k]),
        decreases rs.len() - j,
    {
        if rs[j].buffer.id == id {
            proof {
                lemma_first_where_is(rs@, p, j as int);
            }
            return Some(j);
        }
        j = j + 1;
    }
    proof {
        lemma_first_where_none(rs@, p);
    }
    None
}

/// The row fault of one result row (see [`row_fault`]).
#[verifier::loop_isolation(false)]
pub fn result_row_fault(wire: &WireDeviceProgram, r: &WireResultBuffer) -> (f: Option<ResultFault>)
    ensures
        f == row_fault(*wire, *r),
{
    if !(r.role == BufferRole::Output || r.role == BufferRole::InOut) {
        return Some(ResultFault::InvalidRole { role: r.role });
    }
    if r.role != r.buffer.role {
        return Some(ResultFault::RoleMismatch { role: r.role, buffer_role: r.buffer.role });
    }
    let li = match find_launch(&wire.launches, r.produced_by) {
        None => return Some(ResultFault::UnknownLaunch { produced_by: r.produced_by }),
        Some(li) => li,
    };
    let launch = wire.launches[li];
    if launch.kernel_index as usize >= wire.kernels.len() {
        return Some(ResultFault::UnknownKernel { produced_by: r.produced_by, kernel_index: launch.kernel_index });
    }
    let kernel = &wire.kernels[launch.kernel_index as usize];
    let j = match find_slot(&kernel.resources, r.buffer.id) {
        None => return Some(ResultFault::NoMatchingResource { produced_by: r.produced_by }),
        Some(j) => j,
    };
    let res = &kernel.resources[j];
    if !same_identity_exec(&res.buffer, &r.buffer) {
        return Some(ResultFault::IdentityContradiction { produced_by: r.produced_by });
    }
    if res.version.version != r.version.version {
        return Some(ResultFault::VersionMismatch { declared: r.version.version, used: res.version.version });
    }
    if !text_eq(res.version.element_ty.as_str(), r.version.element_ty.as_str())
        || res.version.element_count != r.version.element_count {
        return Some(ResultFault::ShapeMismatch { produced_by: r.produced_by });
    }
    if r.observation.at_launch != r.produced_by {
        return Some(ResultFault::ObservationBoundary { produced_by: r.produced_by, at_launch: r.observation.at_launch });
    }
    let fits = match r.observation.cadence {
        ObservationCadence::PerStep => res.buffer.lifetime == BufferLifetime::ObservationPoint,
        ObservationCadence::EndOfRun => res.buffer.lifetime == BufferLifetime::PerStep
            || res.buffer.lifetime == BufferLifetime::PerProgram,
    };
    if !fits {
        return Some(ResultFault::CadenceLifetime { cadence: r.observation.cadence, lifetime: res.buffer.lifetime });
    }
    let rs = &kernel.resources;
    let mut k: usize = 0;
    while k < rs.len()
        invariant
            k <= rs.len(),
            forall|m: int| 0 <= m < k ==> !slot_writes(#[trigger] rs@[m], r.buffer.id),
        decreases rs.len() - k,
    {
        if rs[k].buffer.id == r.buffer.id
            && (rs[k].access == ResourceAccess::Write || rs[k].access == ResourceAccess::ReadWrite) {
            assert(slot_writes(rs@[k as int], r.buffer.id));
            return None;
        }
        k = k + 1;
    }
    Some(ResultFault::NotWritten { produced_by: r.produced_by })
}

/// Validate each declared result row against the resource facts of its
/// producing launch before the program is projected into a host descriptor:
/// the observation role is output or in-out and equals the buffer's role; the
/// producing launch exists and names a kernel; that kernel has a slot for the
/// buffer carrying the same identity, version, element type and count; the
/// observation fact names the producing launch; the cadence fits the
/// buffer's lifetime class; the kernel writes the buffer; and no two rows
/// name the same buffer. The first faulty row is reported.
#[verifier::loop_isolation(false)]
pub fn validate_wire_results(wire: &WireDeviceProgram) -> (v: Result<(), ResultError>)
    ensures
        v == results_verdict(*wire),
{
    let results = &wire.results;
    let ghost pf = |i: int| result_fault(*wire, i) is Some;
    let mut i: usize = 0;
    while i < results.len()
        invariant
            i <= results.len(),
            results@ == wire.results@,
            pf == (|i: int| result_fault(*wire, i) is Some),
            forall|k: int| 0 <= k < i ==> !#[trigger] pf(k),
        decreases results.len() - i,
    {
        let r = &results[i];
        match result_row_fault(wire, r) {
            Some(fault) => {
                proof {
                    assert(pf(i as int));
                    lemma_first_index_is(results@.len() as int, pf, i as int);
                }
                return Err(ResultError { result: i, fault });
            },
            None => {},
        }
        let ghost pd = |j: int| results@[j].buffer.id == results@[i as int].buffer.id;
        let mut j: usize = 0;
        while j < i
            invariant
                j <= i < results.len(),
                results@ == wire.results@,
                pd == (|j: int| results@[j].buffer.id == results@[i as int].buffer.id),
                forall|m: int| 0 <= m < j ==> !#[trigger] pd(m),
            decreases i - j,
        {
            if results[j].buffer.id == r.buffer.id {
                proof {
                    lemma_first_index_is(i as int, pd, j as int);
                    assert(pf(i as int));
                    lemma_first_index_is(results@.len() as int, pf, i as int);
                }
                return Err(ResultError { result: i, fault: ResultFault::Duplicate { first: j } });
            }
            j = j + 1;
        }
        proof {
            lemma_first_index_none(i as int, pd);
        }
        assert(!pf(i as int));
        i = i + 1;
    }
    proof {
        lemma_first_index_none(results@.len() as int, pf);
    }
    Ok(())
}

} // verus!

verus! {

// ---------------------------------------------------------------------------
// The host descriptor
// ---------------------------------------------------------------------------

/// The host's typed element type (the campaign dtype surface is `f32`).
#[derive(Clone, Copy, Debug, PartialEq, Eq, Structural)]
pub enum DataType {
    F32,
}

/// One buffer binding of a descriptor kernel.
#[derive(Debug)]
pub struct DescriptorBuffer {
    pub buffer_id: u32,
    pub buffer_name: String,
    pub semantic_value: u32,
    pub role: BufferRole,
    pub lifetime: BufferLifetime,
    pub initialization: InitializationPolicy,
    pub binding: u32,
    pub element_ty: DataType,
    pub element_count: u64,
    pub version: u32,
}

/// A three-axis launch size.
#[derive(Clone, Copy, Debug, PartialEq, Eq, Structural)]
pub struct Grid3 {
    pub x: u32,
    pub y: u32,
    pub z: u32,
}

/// One descriptor kernel: the backend entry, its buffers in binding order,
/// the grid (workgroup count) and block (workgroup size).
#[derive(Debug)]
pub struct DescriptorKernel {
    pub entry: String,
    pub buffers: Vec<DescriptorBuffer>,
    pub grid: Grid3,
    pub block: Grid3,
}

/// One launch of the descriptor's ordered sequence.
#[derive(Clone, Copy, Debug, PartialEq, Eq, Structural)]
pub struct DescriptorLaunch {
    pub id: u32,
    pub kernel_index: u32,
}

/// One buffer version's shape facts.
#[derive(Clone, Copy, Debug, PartialEq, Eq, Structural)]
pub struct DescriptorBufferVersion {
    pub buffer_id: u32,
    pub version: u32,
    pub element_ty: DataType,
    pub element_count: u64,
}

/// One carried data-flow edge.
#[derive(Clone, Copy, Debug, PartialEq, Eq, Structural)]
pub struct DescriptorDataFlow {
    pub buffer_id: u32,
    pub version: u32,
    pub producer: u32,
    pub consumer: u32,
}

/// One per-step readback.
#[derive(Clone, Copy, Debug, PartialEq, Eq, Structural)]
pub struct DescriptorResult {
    pub buffer_id: u32,
    pub version: u32,
    pub produced_by: u32,
    pub at_launch: u32,
}

/// One end-of-run readback.
#[derive(Clone, Copy, Debug, PartialEq, Eq, Structural)]
pub struct DescriptorEndOfRunResult {
    pub buffer_id: u32,
    pub version: u32,
}

/// The typed host descriptor.
#[derive(Debug)]
pub struct DeviceDescriptor {
    pub backend: DeviceBackend,
    pub module_image: Vec<u8>,
    pub kernels: Vec<DescriptorKernel>,
    pub launches: Vec<DescriptorLaunch>,
    pub buffer_versions: Vec<DescriptorBufferVersion>,
    pub program_lifetime: ProgramLifetime,
    pub data_flow: Vec<DescriptorDataFlow>,
    pub roots: Vec<u32>,
    pub results: Vec<DescriptorResult>,
    pub end_of_run_results: Vec<DescriptorEndOfRunResult>,
}

/// Why no descriptor is built from a device section.
#[derive(Clone, Copy, Debug, PartialEq, Eq, Structural)]
pub enum DescriptorError {
    /// The session section is not admitted.
    Session(SessionError),
    /// A declared result row is faulty.
    Results(ResultError),
    /// A buffer version's element-type spelling is outside the campaign
    /// dtype surface.
    UnknownElementType { buffer_id: u32, version: u32 },
    /// Two slots give one buffer version different shapes.
    VersionConflict { buffer_id: u32, version: u32 },
}

// ---------------------------------------------------------------------------
// Buffer-version declarations
// ---------------------------------------------------------------------------

/// One buffer-version declaration of a slot or result row.
#[derive(Debug)]
pub struct VersionDecl {
    pub buffer_id: u32,
    pub version: u32,
    pub element_ty: String,
    pub element_count: u64,
}

pub open spec fn slot_decl(r: WireDeviceResource) -> VersionDecl {
    VersionDecl {
        buffer_id: r.buffer.id,
        version: r.version.version,
        element_ty: r.version.element_ty,
        element_count: r.version.element_count,
    }
}

pub open spec fn result_decl(r: WireResultBuffer) -> VersionDecl {
    VersionDecl {
        buffer_id: r.buffer.id,
        version: r.version.version,
        element_ty: r.version.element_ty,
        element_count: r.version.element_count,
    }
}

/// The slot declarations of the kernels, in kernel order then slot order.
pub open spec fn kernel_decls(kernels: Seq<WireKernelUnit>) -> Seq<VersionDecl>
    decreases kernels.len(),
{
    if kernels.len() == 0 {
        Seq::empty()
    } else {
        kernel_decls(kernels.drop_last()) + kernels.last().resources@.map_values(|r: WireDeviceResource| slot_decl(r))
    }
}

/// Every buffer-version declaration of a wire program: the kernel slots,
/// then the result rows.
pub open spec fn all_decls(wire: WireDeviceProgram) -> Seq<VersionDecl> {
    kernel_decls(wire.kernels@) + wire.results@.map_values(|r: WireResultBuffer| result_decl(r))
}

pub open spec fn f32_text() -> Seq<char> {
    seq!['f', '3', '2']
}

pub open spec fn same_key(a: VersionDecl, b: VersionDecl) -> bool {
    a.buffer_id == b.buffer_id && a.version == b.version
}

pub open spec fn same_shape(a: VersionDecl, b: VersionDecl) -> bool {
    a.element_ty@ == b.element_ty@ && a.element_count == b.element_count
}

/// The fault of the declaration at index `k`: an element type other than
/// `f32`, or a shape that differs from an earlier declaration of the same
/// buffer version.
pub open spec fn decl_fault(ds: Seq<VersionDecl>, k: int) -> Option<DescriptorError> {
    if ds[k].element_ty@ != f32_text() {
        Some(DescriptorError::UnknownElementType { buffer_id: ds[k].buffer_id, version: ds[k].version })
    } else if exists|j: int| 0 <= j < k && same_key(ds[j], ds[k]) && !same_shape(ds[j], ds[k]) {
        Some(DescriptorError::VersionConflict { buffer_id: ds[k].buffer_id, version: ds[k].version })
    } else {
        None
    }
}

/// The buffer versions the descriptor declares: the first declaration of
/// each buffer version, in declaration order.
pub open spec fn first_decls(ds: Seq<VersionDecl>) -> Seq<DescriptorBufferVersion>
    decreases ds.len(),
{
    if ds.len() == 0 {
        Seq::empty()
    } else {
        let prev = first_decls(ds.drop_last());
        if exists|j: int| 0 <= j < ds.len() - 1 && same_key(ds[j], ds.last()) {
            prev
        } else {
            prev.push(DescriptorBufferVersion {
                buffer_id: ds.last().buffer_id,
                version: ds.last().version,
                element_ty: DataType::F32,
                element_count: ds.last().element_count,
            })
        }
    }
}

/// The per-step readbacks: the result rows whose cadence is not end-of-run.
pub open spec fn per_step_rows(rs: Seq<WireResultBuffer>) -> Seq<DescriptorResult>
    decreases rs.len(),
{
    if rs.len() == 0 {
        Seq::empty()
    } else {
        let prev = per_step_rows(rs.drop_last());
        let r = rs.last();
        if r.observation.cadence == ObservationCadence::EndOfRun {
            prev
        } else {
            prev.push(DescriptorResult {
                buffer_id: r.buffer.id,
                version: r.version.version,
                produced_by: r.produced_by,
                at_launch: r.observation.at_launch,
            })
        }
    }
}

/// The end-of-run readbacks: the result rows whose cadence is end-of-run.
pub open spec fn end_of_run_rows(rs: Seq<WireResultBuffer>) -> Seq<DescriptorEndOfRunResult>
    decreases rs.len(),
{
    if rs.len() == 0 {
        Seq::empty()
    } else {
        let prev = end_of_run_rows(rs.drop_last());
        let r = rs.last();
        if r.observation.cadence == ObservationCadence::EndOfRun {
            prev.push(DescriptorEndOfRunResult { buffer_id: r.buffer.id, version: r.version.version })
        } else {
            prev
        }
    }
}

/// A `u64` count narrowed to `u32`, saturating.
pub open spec fn saturate_u32(x: u64) -> u32 {
    if x <= u32::MAX as u64 {
        x as u32
    } else {
        u32::MAX
    }
}

/// The backend entry of a kernel: for CUDA, the symbol the first CUDA
/// artifact maps the logical entry to (the logical entry when none does);
/// for Metal, the logical entry.
pub open spec fn backend_entry(artifacts: Seq<DeviceArtifact>, backend: DeviceBackend, entry: Seq<char>) -> Seq<char> {
    match backend {
        DeviceBackend::Metal => entry,
        DeviceBackend::Cuda => match first_where(artifacts, |a: DeviceArtifact| a.backend == DeviceBackend::Cuda) {
            Some(ai) => match first_where(artifacts[ai].entrypoints@, |s: DeviceSymbol| s.entry@ == entry) {
                Some(si) => artifacts[ai].entrypoints@[si].symbol@,
                None => entry,
            },
            None => entry,
        },
    }
}

/// The descriptor buffer of a wire slot.
pub open spec fn host_buffer(r: WireDeviceResource) -> DescriptorBuffer {
    DescriptorBuffer {
        buffer_id: r.buffer.id,
        buffer_name: r.buffer.name,
        semantic_value: r.buffer.semantic_value,
        role: r.buffer.role,
        lifetime: r.buffer.lifetime,
        initialization: r.initialization,
        binding: r.binding.binding,
        element_ty: DataType::F32,
        element_count: r.version.element_count,
        version: r.version.version,
    }
}

/// A descriptor kernel projects a wire kernel for a backend.
pub open spec fn host_kernel_matches(
    hk: DescriptorKernel,
    wk: WireKernelUnit,
    artifacts: Seq<DeviceArtifact>,
    backend: DeviceBackend,
) -> bool {
    &&& hk.entry@ == backend_entry(artifacts, backend, wk.entry@)
    &&& hk.buffers@ == wk.resources@.map_values(|r: WireDeviceResource| host_buffer(r))
    &&& hk.grid == Grid3 {
        x: saturate_u32(wk.launch.workgroup_count.x),
        y: saturate_u32(wk.launch.workgroup_count.y),
        z: saturate_u32(wk.launch.workgroup_count.z),
    }
    &&& hk.block == Grid3 { x: wk.launch.workgroup.x, y: wk.launch.workgroup.y, z: wk.launch.workgroup.z }
}

/// The verdict of descriptor construction: the session section, then the
/// result rows, then the first faulty buffer-version declaration.
pub open spec fn descriptor_verdict(device: DeviceSection) -> Result<(), DescriptorError> {
    let wire = device.device_program.program;
    let ds = all_decls(wire);
    if session_verdict(device) is Err {
        Err(DescriptorError::Session(session_verdict(device)->Err_0))
    } else if results_verdict(wire) is Err {
        Err(DescriptorError::Results(results_verdict(wire)->Err_0))
    } else {
        match first_index(ds.len() as int, |k: int| decl_fault(ds, k) is Some) {
            Some(k) => Err(decl_fault(ds, k)->0),
            None => Ok(()),
        }
    }
}

/// A descriptor is the host projection of a device section's wire for a
/// backend and artifact blob.
pub open spec fn descriptor_projects(d: DeviceDescriptor, device: DeviceSection, backend: DeviceBackend, blob: Seq<u8>) -> bool {
    let wire = device.device_program.program;
    &&& d.backend == backend
    &&& d.module_image@ == blob
    &&& d.kernels@.len() == wire.kernels@.len()
    &&& forall|i: int| 0 <= i < wire.kernels@.len() ==> host_kernel_matches(
        #[trigger] d.kernels@[i],
        wire.kernels@[i],
        device.artifacts@,
        backend,
    )
    &&& d.launches@ == wire.launches@.map_values(|l: WireLaunchUnit| DescriptorLaunch { id: l.id, kernel_index: l.kernel_index })
    &&& d.buffer_versions@ == first_decls(all_decls(wire))
    &&& d.program_lifetime == (match wire.lifetime {
        WireProgramLifetime::SingleRun => ProgramLifetime::SingleRun,
        WireProgramLifetime::RepeatingStep(_) => ProgramLifetime::RepeatingStep,
    })
    &&& d.data_flow@ == wire.dependencies@.map_values(|e: DependencyEdge| DescriptorDataFlow {
        buffer_id: e.buffer,
        version: e.version,
        producer: e.producer,
        consumer: e.consumer,
    })
    &&& d.roots@ == wire.roots@
    &&& d.results@ == per_step_rows(wire.results@)
    &&& d.end_of_run_results@ == end_of_run_rows(wire.results@)
}


impl Clone for VersionDecl {
    fn clone(&self) -> (r: Self)
        ensures
            r == *self,
    {
        VersionDecl {
            buffer_id: self.buffer_id,
            version: self.version,
            element_ty: self.element_ty.clone(),
            element_count: self.element_count,
        }
    }
}

/// Every buffer-version declaration of a wire program (see [`all_decls`]).
fn collect_decls(wire: &WireDeviceProgram) -> (ds: Vec<VersionDecl>)
    ensures
        ds@ == all_decls(*wire),
{
    let kernels = &wire.kernels;
    let mut ds: Vec<VersionDecl> = Vec::new();
    let mut i: usize = 0;
    while i < kernels.len()
        invariant
            i <= kernels.len(),
            ds@ == kernel_decls(kernels@.take(i as int)),
        decreases kernels.len() - i,
    {
        let rs = &kernels[i].resources;
        let ghost base = ds@;
        let mut j: usize = 0;
        while j < rs.len()
            invariant
                j <= rs.len(),
                ds@ == base + rs@.take(j as int).map_values(|r: WireDeviceResource| slot_decl(r)),
            decreases rs.len() - j,
        {
            let r = &rs[j];
            ds.push(VersionDecl {
                buffer_id: r.buffer.id,
                version: r.version.version,
                element_ty: r.version.element_ty.clone(),
                element_count: r.version.element_count,
            });
            j = j + 1;
            assert(ds@ =~= base + rs@.take(j as int).map_values(|r: WireDeviceResource| slot_decl(r)));
        }
        assert(rs@.take(rs@.len() as int) =~= rs@);
        assert(kernels@.take(i + 1).drop_last() =~= kernels@.take(i as int));
        i = i + 1;
    }
    assert(kernels@.take(kernels@.len() as int) =~= kernels@);
    let ghost base = ds@;
    let results = &wire.results;
    let mut k: usize = 0;
    while k < results.len()
        invariant
            k <= results.len(),
            ds@ == base + results@.take(k as int).map_values(|r: WireResultBuffer| result_decl(r)),
        decreases results.len() - k,
    {
        let r = &results[k];
        ds.push(VersionDecl {
            buffer_id: r.buffer.id,
            version: r.version.version,
            element_ty: r.version.element_ty.clone(),
            element_count: r.version.element_count,
        });
        k = k + 1;
        assert(ds@ =~= base + results@.take(k as int).map_values(|r: WireResultBuffer| result_decl(r)));
    }
    assert(results@.take(results@.len() as int) =~= results@);
    ds
}

/// Check the buffer-version declarations in order and keep the first
/// declaration of each buffer version (see [`decl_fault`], [`first_decls`]).
#[verifier::loop_isolation(false)]
fn check_decls(ds: &Vec<VersionDecl>) -> (r: Result<Vec<DescriptorBufferVersion>, DescriptorError>)
    ensures
        match r {
            Ok(v) => v@ == first_decls(ds@) && first_index(ds@.len() as int, |k: int| decl_fault(ds@, k) is Some) is None,
            Err(e) => first_index(ds@.len() as int, |k: int| decl_fault(ds@, k) is Some) matches Some(k)
                && decl_fault(ds@, k) == Some(e),
        },
{
    let ghost pf = |k: int| decl_fault(ds@, k) is Some;
    let mut out: Vec<DescriptorBufferVersion> = Vec::new();
    let mut k: usize = 0;
    proof {
        reveal_strlit("f32");
    }
    assert("f32"@ =~= f32_text());
    while k < ds.len()
        invariant
            k <= ds.len(),
            pf == (|k: int| decl_fault(ds@, k) is Some),
            forall|m: int| 0 <= m < k ==> !#[trigger] pf(m),
            out@ == first_decls(ds@.take(k as int)),
        decreases ds.len() - k,
    {
        let d = &ds[k];
        if !text_eq(d.element_ty.as_str(), "f32") {
            proof {
                assert(pf(k as int));
                lemma_first_index_is(ds@.len() as int, pf, k as int);
            }
            return Err(DescriptorError::UnknownElementType { buffer_id: d.buffer_id, version: d.version });
        }
        let mut seen = false;
        let mut j: usize = 0;
        while j < k
            invariant
                j <= k,
                seen == (exists|m: int| 0 <= m < j && same_key(ds@[m], ds@[k as int])),
                forall|m: int| 0 <= m < j && same_key(ds@[m], ds@[k as int]) ==> same_shape(ds@[m], ds@[k as int]),
            decreases k - j,
        {
            let e = &ds[j];
            if e.buffer_id == d.buffer_id && e.version == d.version {
                if !text_eq(e.element_ty.as_str(), d.element_ty.as_str()) || e.element_count != d.element_count {
                    proof {
                        assert(pf(k as int));
                        lemma_first_index_is(ds@.len() as int, pf, k as int);
                    }
                    return Err(DescriptorError::VersionConflict { buffer_id: d.buffer_id, version: d.version });
                }
                seen = true;
            }
            j = j + 1;
        }
        let ghost t = ds@.take(k + 1);
        assert(t.drop_last() =~= ds@.take(k as int));
        assert(t.last() == ds@[k as int]);
        assert(forall|m: int| 0 <= m < k ==> t[m] == ds@[m]);
        assert((exists|m: int| 0 <= m < t.len() - 1 && same_key(t[m], t.last())) == seen) by {
            if seen {
                let m = choose|m: int| 0 <= m < k && same_key(ds@[m], ds@[k as int]);
                assert(same_key(t[m], t.last()));
            }
        }
        if !seen {
            out.push(DescriptorBufferVersion {
                buffer_id: d.buffer_id,
                version: d.version,
                element_ty: DataType::F32,
                element_count: d.element_count,
            });
        }
        assert(!pf(k as int));
        k = k + 1;
    }
    proof {
        lemma_first_index_none(ds@.len() as int, pf);
    }
    assert(ds@.take(ds@.len() as int) =~= ds@);
    Ok(out)
}


fn saturate_u32_exec(x: u64) -> (r: u32)
    ensures
        r == saturate_u32(x),
{
    if x <= u32::MAX as u64 {
        x as u32
    } else {
        u32::MAX
    }
}

/// The backend entry of a kernel (see [`backend_entry`]).
#[verifier::loop_isolation(false)]
fn backend_entry_exec(artifacts: &Vec<DeviceArtifact>, backend: DeviceBackend, entry: &String) -> (r: String)
    ensures
        r@ == backend_entry(artifacts@, backend, entry@),
{
    match backend {
        DeviceBackend::Metal => entry.clone(),
        DeviceBackend::Cuda => {
            let ghost pa = |a: DeviceArtifact| a.backend == DeviceBackend::Cuda;
            let mut ai: usize = 0;
            while ai < artifacts.len() && artifacts[ai].backend != DeviceBackend::Cuda
                invariant
                    ai <= artifacts.len(),
                    pa == (|a: DeviceArtifact| a.backend == DeviceBackend::Cuda),
                    forall|m: int| 0 <= m < ai ==> !pa(#[trigger] artifacts@[m]),
                decreases artifacts.len() - ai,
            {
                ai = ai + 1;
            }
            if ai == artifacts.len() {
                proof {
                    lemma_first_where_none(artifacts@, pa);
                }
                return entry.clone();
            }
            proof {
                lemma_first_where_is(artifacts@, pa, ai as int);
            }
            let symbols = &artifacts[ai].entrypoints;
            let ghost ps = |s: DeviceSymbol| s.entry@ == entry@;
            let mut si: usize = 0;
            while si < symbols.len()
                invariant
                    si <= symbols.len(),
                    ps == (|s: DeviceSymbol| s.entry@ == entry@),
                    forall|m: int| 0 <= m < si ==> !ps(#[trigger] symbols@[m]),
                decreases symbols.len() - si,
            {
                if text_eq(symbols[si].entry.as_str(), entry.as_str()) {
                    proof {
                        lemma_first_where_is(symbols@, ps, si as int);
                    }
                    return symbols[si].symbol.clone();
                }
                si = si + 1;
            }
            proof {
                lemma_first_where_none(symbols@, ps);
            }
            entry.clone()
        },
    }
}

/// The descriptor kernel of one wire kernel.
fn host_kernel(kernel: &WireKernelUnit, artifacts: &Vec<DeviceArtifact>, backend: DeviceBackend) -> (hk: DescriptorKernel)
    ensures
        host_kernel_matches(hk, *kernel, artifacts@, backend),
{
    let entry = backend_entry_exec(artifacts, backend, &kernel.entry);
    let rs = &kernel.resources;
    let mut buffers: Vec<DescriptorBuffer> = Vec::new();
    let mut j: usize = 0;
    while j < rs.len()
        invariant
            j <= rs.len(),
            buffers@ == rs@.take(j as int).map_values(|r: WireDeviceResource| host_buffer(r)),
        decreases rs.len() - j,
    {
        let r = &rs[j];
        buffers.push(DescriptorBuffer {
            buffer_id: r.buffer.id,
            buffer_name: r.buffer.name.clone(),
            semantic_value: r.buffer.semantic_value,
            role: r.buffer.role,
            lifetime: r.buffer.lifetime,
            initialization: r.initialization,
            binding: r.binding.binding,
            element_ty: DataType::F32,
            element_count: r.version.element_count,
            version: r.version.version,
        });
        j = j + 1;
        assert(buffers@ =~= rs@.take(j as int).map_values(|r: WireDeviceResource| host_buffer(r)));
    }
    assert(rs@.take(rs@.len() as int) =~= rs@);
    DescriptorKernel {
        entry,
        buffers,
        grid: Grid3 {
            x: saturate_u32_exec(kernel.launch.workgroup_count.x),
            y: saturate_u32_exec(kernel.launch.workgroup_count.y),
            z: saturate_u32_exec(kernel.launch.workgroup_count.z),
        },
        block: Grid3 { x: kernel.launch.workgroup.x, y: kernel.launch.workgroup.y, z: kernel.launch.workgroup.z },
    }
}

/// Copy a byte slice.
fn bytes_of(blob: &[u8]) -> (v: Vec<u8>)
    ensures
        v@ == blob@,
{
    let mut v: Vec<u8> = Vec::new();
    let mut i: usize = 0;
    while i < blob.len()
        invariant
            i <= blob.len(),
            v@ == blob@.take(i as int),
        decreases blob.len() - i,
    {
        v.push(blob[i]);
        i = i + 1;
        assert(v@ =~= blob@.take(i as int));
    }
    assert(blob@.take(blob@.len() as int) =~= blob@);
    v
}

/// Build the typed host descriptor from the device section's wire and a
/// backend artifact blob. The session section and the declared result rows
/// are admitted first; every buffer-version declaration (slots, then result
/// rows) must carry the `f32` element type and agree with earlier
/// declarations of the same buffer version. The descriptor carries each
/// kernel's backend entry (the CUDA symbol mapping is consumed here), its
/// slots in order with the wire's identity, lifetime, initialization and
/// version facts, the launch sequence, the first declaration of every buffer
/// version, the program regime, the carried dependency edges and roots
/// verbatim, and the result rows split by cadence.
pub fn descriptor_for_backend(device: &DeviceSection, backend: DeviceBackend, blob: &[u8]) -> (r: Result<DeviceDescriptor, DescriptorError>)
    ensures
        match r {
            Ok(d) => descriptor_verdict(*device) is Ok && descriptor_projects(d, *device, backend, blob@),
            Err(e) => descriptor_verdict(*device) == Err::<(), DescriptorError>(e),
        },
{
    match admit_session_section(device) {
        Err(e) => return Err(DescriptorError::Session(e)),
        Ok(()) => {},
    }
    let wire = &device.device_program.program;
    match validate_wire_results(wire) {
        Err(e) => return Err(DescriptorError::Results(e)),
        Ok(()) => {},
    }
    let ds = collect_decls(wire);
    let buffer_versions = match check_decls(&ds) {
        Err(e) => return Err(e),
        Ok(v) => v,
    };
    let mut kernels: Vec<DescriptorKernel> = Vec::new();
    let mut i: usize = 0;
    while i < wire.kernels.len()
        invariant
            i <= wire.kernels.len(),
            kernels@.len() == i,
            forall|m: int| 0 <= m < i ==> host_kernel_matches(#[trigger] kernels@[m], wire.kernels@[m], device.artifacts@, backend),
        decreases wire.kernels.len() - i,
    {
        kernels.push(host_kernel(&wire.kernels[i], &device.artifacts, backend));
        i = i + 1;
    }
    let mut launches: Vec<DescriptorLaunch> = Vec::new();
    let mut i: usize = 0;
    while i < wire.launches.len()
        invariant
            i <= wire.launches.len(),
            launches@ == wire.launches@.take(i as int).map_values(|l: WireLaunchUnit| DescriptorLaunch { id: l.id, kernel_index: l.kernel_index }),
        decreases wire.launches.len() - i,
    {
        let l = wire.launches[i];
        launches.push(DescriptorLaunch { id: l.id, kernel_index: l.kernel_index });
        i = i + 1;
        assert(launches@ =~= wire.launches@.take(i as int).map_values(|l: WireLaunchUnit| DescriptorLaunch { id: l.id, kernel_index: l.kernel_index }));
    }
    assert(wire.launches@.take(wire.launches@.len() as int) =~= wire.launches@);
    let mut data_flow: Vec<DescriptorDataFlow> = Vec::new();
    let mut i: usize = 0;
    while i < wire.dependencies.len()
        invariant
            i <= wire.dependencies.len(),
            data_flow@ == wire.dependencies@.take(i as int).map_values(|e: DependencyEdge| DescriptorDataFlow {
                buffer_id: e.buffer,
                version: e.version,
                producer: e.producer,
                consumer: e.consumer,
            }),
        decreases wire.dependencies.len() - i,
    {
        let e = wire.dependencies[i];
        data_flow.push(DescriptorDataFlow { buffer_id: e.buffer, version: e.version, producer: e.producer, consumer: e.consumer });
        i = i + 1;
        assert(data_flow@ =~= wire.dependencies@.take(i as int).map_values(|e: DependencyEdge| DescriptorDataFlow {
            buffer_id: e.buffer,
            version: e.version,
            producer: e.producer,
            consumer: e.consumer,
        }));
    }
    assert(wire.dependencies@.take(wire.dependencies@.len() as int) =~= wire.dependencies@);
    let mut results: Vec<DescriptorResult> = Vec::new();
    let mut end_of_run_results: Vec<DescriptorEndOfRunResult> = Vec::new();
    let mut i: usize = 0;
    while i < wire.results.len()
        invariant
            i <= wire.results.len(),
            results@ == per_step_rows(wire.results@.take(i as int)),
            end_of_run_results@ == end_of_run_rows(wire.results@.take(i as int)),
        decreases wire.results.len() - i,
    {
        let r = &wire.results[i];
        assert(wire.results@.take(i + 1).drop_last() =~= wire.results@.take(i as int));
        if r.observation.cadence == ObservationCadence::EndOfRun {
            end_of_run_results.push(DescriptorEndOfRunResult { buffer_id: r.buffer.id, version: r.version.version });
        } else {
            results.push(DescriptorResult {
                buffer_id: r.buffer.id,
                version: r.version.version,
                produced_by: r.produced_by,
                at_launch: r.observation.at_launch,
            });
        }
        i = i + 1;
    }
    assert(wire.results@.take(wire.results@.len() as int) =~= wire.results@);
    let roots = wire.roots.clone();
    assert(roots@ =~= wire.roots@);
    let program_lifetime = match wire.lifetime {
        WireProgramLifetime::SingleRun => ProgramLifetime::SingleRun,
        WireProgramLifetime::RepeatingStep(_) => ProgramLifetime::RepeatingStep,
    };
    Ok(DeviceDescriptor {
        backend,
        module_image: bytes_of(blob),
        kernels,
        launches,
        buffer_versions,
        program_lifetime,
        data_flow,
        roots,
        results,
        end_of_run_results,
    })
}

} // verus!
