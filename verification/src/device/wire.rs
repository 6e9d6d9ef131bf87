//! The typed device-program wire: the complete program projected for the
//! FMIR `device` section, and its fail-closed admission.
use vstd::prelude::*;
use crate::device::schema::BroadcastDeclaration;
use crate::device::schema::BufferLifetime;
use crate::device::schema::BufferRole;
use crate::device::schema::Binding;
use crate::device::schema::CompanionRelation;
use crate::device::schema::DependencyEdge;
use crate::device::schema::InitializationPolicy;
use crate::device::schema::KernelLaunchPlan;
use crate::device::schema::KernelPlan;
use crate::device::schema::ObservationCadence;
use crate::device::schema::ReducedProjection;
use crate::device::schema::ResourceAccess;
use crate::device::schema::StorageLayout;
use crate::device::schema::ValueOrigin;
use crate::search::first_where;
use crate::search::is_first_where;
use crate::search::lemma_first_where_is;
use crate::search::lemma_first_where_none;
use crate::search::lemma_some_first;

verus! {

/// The wire/codec version of the device-program section.
pub const DEVICE_RUN_PLAN_VERSION: u32 = 8;

/// The version of the optional session section.
pub const WIRE_SESSION_SECTION_VERSION: u32 = 1;

/// One buffer reference on the wire, with its semantic value identity.
#[derive(Debug)]
pub struct WireBufferIdentity {
    pub id: u32,
    pub name: String,
    pub role: BufferRole,
    pub storage: StorageLayout,
    pub lifetime: BufferLifetime,
    pub semantic_value: u32,
}

impl Clone for WireBufferIdentity {
    fn clone(&self) -> (r: Self)
        ensures
            r == *self,
    {
        WireBufferIdentity {
            id: self.id,
            name: self.name.clone(),
            role: self.role,
            storage: self.storage,
            lifetime: self.lifetime,
            semantic_value: self.semantic_value,
        }
    }
}

/// One content version on the wire; the element type rides as its spelling.
#[derive(Debug)]
pub struct WireBufferVersion {
    pub version: u32,
    pub element_ty: String,
    pub element_count: u64,
    pub reduced_projection: Option<ReducedProjection>,
}

impl Clone for WireBufferVersion {
    fn clone(&self) -> (r: Self)
        ensures
            r == *self,
    {
        WireBufferVersion {
            version: self.version,
            element_ty: self.element_ty.clone(),
            element_count: self.element_count,
            reduced_projection: self.reduced_projection,
        }
    }
}

/// One kernel slot on the wire: identity, version, binding, access, the
/// explicit value generation, and the initialization axis.
#[derive(Debug)]
pub struct WireDeviceResource {
    pub buffer: WireBufferIdentity,
    pub version: WireBufferVersion,
    pub binding: Binding,
    pub access: ResourceAccess,
    pub generation: u32,
    pub initialization: InitializationPolicy,
}

impl Clone for WireDeviceResource {
    fn clone(&self) -> (r: Self)
        ensures
            r == *self,
    {
        WireDeviceResource {
            buffer: self.buffer.clone(),
            version: self.version.clone(),
            binding: self.binding,
            access: self.access,
            generation: self.generation,
            initialization: self.initialization,
        }
    }
}

/// One kernel on the wire.
#[derive(Debug)]
pub struct WireKernelUnit {
    pub function: u32,
    pub entry: String,
    pub plan: KernelPlan,
    pub resources: Vec<WireDeviceResource>,
    pub launch: KernelLaunchPlan,
}

/// One launch on the wire.
#[derive(Clone, Copy, Debug, PartialEq, Eq, Structural)]
pub struct WireLaunchUnit {
    pub id: u32,
    pub kernel_index: u32,
}

/// The program regime on the wire; a repeating step carries its declared
/// step count.
#[derive(Clone, Copy, Debug, PartialEq, Eq, Structural)]
pub enum WireProgramLifetime {
    SingleRun,
    RepeatingStep(u32),
}

/// A result row's explicit observation fact.
#[derive(Clone, Copy, Debug, PartialEq, Eq, Structural)]
pub struct WireObservationFact {
    pub at_launch: u32,
    pub cadence: ObservationCadence,
}

/// One declared result row on the wire.
#[derive(Debug)]
pub struct WireResultBuffer {
    pub buffer: WireBufferIdentity,
    pub version: WireBufferVersion,
    pub role: BufferRole,
    pub produced_by: u32,
    pub observation: WireObservationFact,
}

impl Clone for WireResultBuffer {
    fn clone(&self) -> (r: Self)
        ensures
            r == *self,
    {
        WireResultBuffer {
            buffer: self.buffer.clone(),
            version: self.version.clone(),
            role: self.role,
            produced_by: self.produced_by,
            observation: self.observation,
        }
    }
}

/// One semantic value on the wire.
#[derive(Debug)]
pub struct WireSemanticValue {
    pub id: u32,
    pub name: String,
    pub origin: ValueOrigin,
}

/// The complete program on the wire.
#[derive(Debug)]
pub struct WireDeviceProgram {
    pub kernels: Vec<WireKernelUnit>,
    pub launches: Vec<WireLaunchUnit>,
    pub lifetime: WireProgramLifetime,
    pub results: Vec<WireResultBuffer>,
    pub semantic_values: Vec<WireSemanticValue>,
    pub roots: Vec<u32>,
    pub dependencies: Vec<DependencyEdge>,
    pub relations: Vec<CompanionRelation>,
}

/// The versioned device-program section.
#[derive(Debug)]
pub struct DeviceProgramSection {
    pub v: u32,
    pub program: WireDeviceProgram,
}

/// Why a device-program section is not admitted.
#[derive(Clone, Copy, Debug, PartialEq, Eq, Structural)]
pub enum AdmissionError {
    /// The wire version is not the supported one.
    UnsupportedWireVersion { found: u32 },
    /// A repeating-step program declares zero steps.
    ZeroStepCount,
    /// A kernel's broadcast fact makes a declaration other than rank
    /// extension.
    UnsupportedBroadcastDeclaration { kernel: usize },
    /// A kernel's broadcast operand shapes do not form a rank extension.
    MismatchedBroadcastShapes { kernel: usize },
    /// A kernel's broadcast result shape is not the higher-rank shape.
    BroadcastResultShape { kernel: usize },
}

/// What is wrong with one carried broadcast fact, if anything.
#[derive(Clone, Copy, Debug, PartialEq, Eq, Structural)]
pub enum BroadcastFault {
    Declaration,
    Shapes,
    Result,
}

/// The higher-rank and lower-rank operand shapes of a broadcast fact (the
/// left operand when the ranks tie).
pub open spec fn higher_lower(lhs: Seq<u64>, rhs: Seq<u64>) -> (Seq<u64>, Seq<u64>) {
    if lhs.len() >= rhs.len() {
        (lhs, rhs)
    } else {
        (rhs, lhs)
    }
}

/// The fault of a kernel plan's carried broadcast fact, if any: a
/// declaration other than rank extension, lower-rank dims that are not the
/// higher-rank trailing dims one rank down, or a result shape other than the
/// higher-rank shape.
pub open spec fn broadcast_fault(plan: KernelPlan) -> Option<BroadcastFault> {
    match plan {
        KernelPlan::RankExtensionAdd(fact) => {
            let (higher, lower) = higher_lower(fact.lhs_shape@, fact.rhs_shape@);
            if fact.declaration != BroadcastDeclaration::RankExtension {
                Some(BroadcastFault::Declaration)
            } else if higher.len() != lower.len() + 1 || lower != higher.subrange(1, higher.len() as int) {
                Some(BroadcastFault::Shapes)
            } else if fact.result_shape@ != higher {
                Some(BroadcastFault::Result)
            } else {
                None
            }
        },
        _ => None,
    }
}

pub open spec fn kernel_has_broadcast_fault(kernel: WireKernelUnit) -> bool {
    broadcast_fault(kernel.plan) is Some
}

/// The admission verdict of a device-program section: the version gate
/// first, then the declared step count, then the first kernel whose carried
/// broadcast fact is faulty.
pub open spec fn admission_verdict(section: DeviceProgramSection) -> Result<(), AdmissionError> {
    if section.v != DEVICE_RUN_PLAN_VERSION {
        Err(AdmissionError::UnsupportedWireVersion { found: section.v })
    } else if section.program.lifetime == WireProgramLifetime::RepeatingStep(0) {
        Err(AdmissionError::ZeroStepCount)
    } else {
        match first_where(section.program.kernels@, |k: WireKernelUnit| kernel_has_broadcast_fault(k)) {
            Some(k) => match broadcast_fault(section.program.kernels@[k].plan) {
                Some(BroadcastFault::Declaration) => Err(AdmissionError::UnsupportedBroadcastDeclaration { kernel: k as usize }),
                Some(BroadcastFault::Shapes) => Err(AdmissionError::MismatchedBroadcastShapes { kernel: k as usize }),
                _ => Err(AdmissionError::BroadcastResultShape { kernel: k as usize }),
            },
            None => Ok(()),
        }
    }
}

/// An admitted device-program section carries the supported wire version
/// and, when it repeats a step, at least one step.
pub proof fn law_admitted_section_has_version_and_steps(section: DeviceProgramSection)
    requires
        admission_verdict(section) is Ok,
    ensures
        section.v == DEVICE_RUN_PLAN_VERSION,
        forall|n: u32| section.program.lifetime == WireProgramLifetime::RepeatingStep(n) ==> n >= 1,
{
}

/// A kernel plan's broadcast fact has no fault exactly when it is not a
/// rank-extension plan or its fact is consistent: in particular a fact whose
/// result shape is not the higher-rank operand's shape is faulty.
pub proof fn law_broadcast_fault_is_inconsistency(plan: KernelPlan)
    ensures
        (broadcast_fault(plan) is None) <==> match plan {
            KernelPlan::RankExtensionAdd(f) => {
                &&& f.declaration == BroadcastDeclaration::RankExtension
                &&& f.lhs_shape@.len() >= f.rhs_shape@.len() ==> f.lhs_shape@.len() == f.rhs_shape@.len() + 1
                    && f.rhs_shape@ == f.lhs_shape@.subrange(1, f.lhs_shape@.len() as int) && f.result_shape@ == f.lhs_shape@
                &&& f.lhs_shape@.len() < f.rhs_shape@.len() ==> f.rhs_shape@.len() == f.lhs_shape@.len() + 1
                    && f.lhs_shape@ == f.rhs_shape@.subrange(1, f.rhs_shape@.len() as int) && f.result_shape@ == f.rhs_shape@
            },
            _ => true,
        },
{
}

/// An admitted section carries only consistent rank-extension facts: every
/// rank-extension kernel declares a rank extension, its lower-rank operand
/// is the higher-rank one's trailing dims, and its result shape is the
/// higher-rank operand's shape.
pub proof fn law_admitted_broadcast_facts_are_consistent(section: DeviceProgramSection, k: int)
    requires
        admission_verdict(section) is Ok,
        0 <= k < section.program.kernels@.len(),
        section.program.kernels@[k].plan is RankExtensionAdd,
    ensures
        section.program.kernels@[k].plan->RankExtensionAdd_0.declaration == BroadcastDeclaration::RankExtension,
        section.program.kernels@[k].plan->RankExtensionAdd_0.lhs_shape@.len()
            >= section.program.kernels@[k].plan->RankExtensionAdd_0.rhs_shape@.len() ==> section.program.kernels@[k].plan->RankExtensionAdd_0.result_shape@
            == section.program.kernels@[k].plan->RankExtensionAdd_0.lhs_shape@,
        section.program.kernels@[k].plan->RankExtensionAdd_0.lhs_shape@.len()
            < section.program.kernels@[k].plan->RankExtensionAdd_0.rhs_shape@.len() ==> section.program.kernels@[k].plan->RankExtensionAdd_0.result_shape@
            == section.program.kernels@[k].plan->RankExtensionAdd_0.rhs_shape@,
        section.program.kernels@[k].plan->RankExtensionAdd_0.lhs_shape@.len()
            >= section.program.kernels@[k].plan->RankExtensionAdd_0.rhs_shape@.len() ==> section.program.kernels@[k].plan->RankExtensionAdd_0.rhs_shape@
            == section.program.kernels@[k].plan->RankExtensionAdd_0.lhs_shape@.subrange(1, section.program.kernels@[k].plan->RankExtensionAdd_0.lhs_shape@.len() as int),
        section.program.kernels@[k].plan->RankExtensionAdd_0.lhs_shape@.len()
            < section.program.kernels@[k].plan->RankExtensionAdd_0.rhs_shape@.len() ==> section.program.kernels@[k].plan->RankExtensionAdd_0.lhs_shape@
            == section.program.kernels@[k].plan->RankExtensionAdd_0.rhs_shape@.subrange(1, section.program.kernels@[k].plan->RankExtensionAdd_0.rhs_shape@.len() as int),
{
    let kernels = section.program.kernels@;
    let p = |w: WireKernelUnit| kernel_has_broadcast_fault(w);
    if p(kernels[k]) {
        lemma_some_first(kernels, p, k);
        let i = choose|i: int| is_first_where(kernels, p, i);
        lemma_first_where_is(kernels, p, i);
    }
    assert(!p(kernels[k]));
}

fn shapes_equal(a: &Vec<u64>, a_start: usize, b: &Vec<u64>) -> (r: bool)
    requires
        a_start <= a.len(),
    ensures
        r == (a@.subrange(a_start as int, a.len() as int) == b@),
{
    if a.len() - a_start != b.len() {
        assert(a@.subrange(a_start as int, a.len() as int).len() != b@.len());
        return false;
    }
    let mut i: usize = 0;
    while i < b.len()
        invariant
            a_start <= a.len(),
            a.len() - a_start == b.len(),
            i <= b.len(),
            forall|j: int| 0 <= j < i ==> a@[a_start + j] == b@[j],
        decreases b.len() - i,
    {
        if a[a_start + i] != b[i] {
            assert(a@.subrange(a_start as int, a.len() as int)[i as int] != b@[i as int]);
            return false;
        }
        i = i + 1;
    }
    assert(a@.subrange(a_start as int, a.len() as int) =~= b@);
    true
}

/// The fault of one kernel plan's carried broadcast fact.
pub fn plan_broadcast_fault(plan: &KernelPlan) -> (r: Option<BroadcastFault>)
    ensures
        r == broadcast_fault(*plan),
{
    match plan {
        KernelPlan::RankExtensionAdd(fact) => {
            let lhs_higher = fact.lhs_shape.len() >= fact.rhs_shape.len();
            let higher = if lhs_higher { &fact.lhs_shape } else { &fact.rhs_shape };
            let lower = if lhs_higher { &fact.rhs_shape } else { &fact.lhs_shape };
            if fact.declaration != BroadcastDeclaration::RankExtension {
                return Some(BroadcastFault::Declaration);
            }
            if higher.len() == 0 || higher.len() - 1 != lower.len() || !shapes_equal(higher, 1, lower) {
                return Some(BroadcastFault::Shapes);
            }
            if !shapes_equal(&fact.result_shape, 0, higher) {
                assert(fact.result_shape@.subrange(0, fact.result_shape@.len() as int) =~= fact.result_shape@);
                return Some(BroadcastFault::Result);
            }
            assert(fact.result_shape@.subrange(0, fact.result_shape@.len() as int) =~= fact.result_shape@);
            None
        },
        _ => None,
    }
}

/// Fail-closed admission of a device-program section: the wire version is
/// read first, before any field-level interpretation; then a repeating-step
/// program must declare at least one step; then every carried rank-extension
/// broadcast fact must be internally consistent.
pub fn admit_device_program_section(section: &DeviceProgramSection) -> (r: Result<(), AdmissionError>)
    ensures
        r == admission_verdict(*section),
{
    if section.v != DEVICE_RUN_PLAN_VERSION {
        return Err(AdmissionError::UnsupportedWireVersion { found: section.v });
    }
    if let WireProgramLifetime::RepeatingStep(declared) = section.program.lifetime {
        if declared == 0 {
            return Err(AdmissionError::ZeroStepCount);
        }
    }
    let kernels = &section.program.kernels;
    let ghost p = |k: WireKernelUnit| kernel_has_broadcast_fault(k);
    let mut i: usize = 0;
    while i < kernels.len()
        invariant
            i <= kernels.len(),
            kernels@ == section.program.kernels@,
            section.v == DEVICE_RUN_PLAN_VERSION,
            section.program.lifetime != WireProgramLifetime::RepeatingStep(0),
            p == (|k: WireKernelUnit| kernel_has_broadcast_fault(k)),
            forall|j: int| 0 <= j < i ==> !p(#[trigger] kernels@[j]),
        decreases kernels.len() - i,
    {
        match plan_broadcast_fault(&kernels[i].plan) {
            Some(fault) => {
                proof {
                    lemma_first_where_is(kernels@, p, i as int);
                    assert(first_where(kernels@, |k: WireKernelUnit| kernel_has_broadcast_fault(k)) == Some(i as int));
                    assert(broadcast_fault(kernels@[i as int].plan) == Some(fault));
                    assert(section.program.lifetime != WireProgramLifetime::RepeatingStep(0));
                    assert(section.v == DEVICE_RUN_PLAN_VERSION);
                }
                return match fault {
                    BroadcastFault::Declaration => Err(AdmissionError::UnsupportedBroadcastDeclaration { kernel: i }),
                    BroadcastFault::Shapes => Err(AdmissionError::MismatchedBroadcastShapes { kernel: i }),
                    BroadcastFault::Result => Err(AdmissionError::BroadcastResultShape { kernel: i }),
                };
            },
            None => {},
        }
        i = i + 1;
    }
    proof {
        lemma_first_where_none(kernels@, p);
    }
    Ok(())
}

} // verus!
