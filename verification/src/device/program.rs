//! The device-program constructor's own logic: buffer-identity unification
//! across kernels, the independent lifetime axis, the declared observation
//! rows, the dependency-ordered launch sequence, and the carried semantic
//! facts.
use vstd::prelude::*;
use crate::device::schema::BufferIdentity;
use crate::device::schema::BufferLifetime;
use crate::device::schema::BufferRole;
use crate::device::schema::BufferVersion;
use crate::device::schema::DependencyEdge;
use crate::device::schema::DeviceProgram;
use crate::device::schema::LaunchUnit;
use crate::device::schema::ObservationCadence;
use crate::device::schema::ResourceAccess;
use crate::device::schema::ResultBuffer;
use crate::device::schema::StorageLayout;
use crate::device::schema::ValueOrigin;
use crate::device::schema::writes;
use crate::naming::decimal;
use crate::naming::decimal_text;
use crate::naming::owned;
use crate::naming::text_eq;

verus! {

broadcast use vstd::string::group_string_axioms;

/// The ABI role of a kernel signature resource.
#[derive(Clone, Copy, Debug, PartialEq, Eq, Structural)]
pub enum AbiRole {
    Input,
    Output,
}

/// The kind of a kernel signature resource.
#[derive(Clone, Copy, Debug, PartialEq, Eq, Structural)]
pub enum ResourceKind {
    StorageBuffer,
    Uniform,
}

/// One kernel-signature resource, as the ABI derivation states it.
#[derive(Clone, Copy, Debug, PartialEq, Eq, Structural)]
pub struct SlotFact {
    pub kind: ResourceKind,
    pub role: AbiRole,
    pub access: ResourceAccess,
    /// The program role the ABI derives from (role, access), when coherent.
    pub program_role: Option<BufferRole>,
    pub group: u32,
    pub binding: u32,
    pub element_ty: u32,
    pub element_count: u64,
    /// The MIR local the slot's value flows from, when the slot names one.
    pub source_local: Option<u32>,
}

/// Whether a slot with program role `next` may join an existing buffer with
/// role `existing` under the name-and-shape wiring: a shared input, a
/// producer-to-consumer intermediate, or an in-place slot. Two independent
/// producers of the same named output never unify.
pub open spec fn roles_unify(existing: BufferRole, next: BufferRole) -> bool {
    !(existing == BufferRole::Output && next == BufferRole::Output)
}

pub fn unify_roles(existing: BufferRole, next: BufferRole) -> (r: bool)
    ensures
        r == roles_unify(existing, next),
{
    match (existing, next) {
        (BufferRole::Input, BufferRole::Input) => true,
        (BufferRole::InOut, _) | (_, BufferRole::InOut) => true,
        (BufferRole::Output, BufferRole::Input) | (BufferRole::Input, BufferRole::Output) => true,
        (BufferRole::Output, BufferRole::Output) => false,
    }
}

/// The role of one buffer under two slot roles: the same role when they
/// agree, in-out otherwise.
pub open spec fn merged_role(previous: BufferRole, next: BufferRole) -> BufferRole {
    if previous == next && previous != BufferRole::InOut {
        previous
    } else {
        BufferRole::InOut
    }
}

pub fn merge_buffer_roles(previous: BufferRole, next: BufferRole) -> (r: BufferRole)
    ensures
        r == merged_role(previous, next),
{
    match (previous, next) {
        (BufferRole::Input, BufferRole::Input) => BufferRole::Input,
        (BufferRole::Output, BufferRole::Output) => BufferRole::Output,
        _ => BufferRole::InOut,
    }
}

/// One unified buffer's program-level identity facts, its independent
/// resource-state facts gathered across every slot that references it, and
/// the carried fact its semantic value identity is minted from.
#[derive(Debug)]
pub struct ProgramBuffer {
    pub id: u32,
    pub name: String,
    pub element_ty: u32,
    pub element_count: u64,
    pub role: BufferRole,
    /// Some slot writes the buffer (write or read-write).
    pub written: bool,
    /// Some slot reads the buffer (read).
    pub consumed: bool,
    /// Some slot accesses the buffer in place (read-write).
    pub readwrite: bool,
    /// A trainable parameter of a repeating-step training program.
    pub param: bool,
    /// A backward companion's gradient output slot.
    pub gradient: bool,
    pub origin: ValueOrigin,
}

impl Clone for ProgramBuffer {
    fn clone(&self) -> (r: Self)
        ensures
            r == *self,
    {
        ProgramBuffer {
            id: self.id,
            name: self.name.clone(),
            element_ty: self.element_ty,
            element_count: self.element_count,
            role: self.role,
            written: self.written,
            consumed: self.consumed,
            readwrite: self.readwrite,
            param: self.param,
            gradient: self.gradient,
            origin: self.origin.clone(),
        }
    }
}

impl ProgramBuffer {
    /// The name-and-shape wiring key.
    pub open spec fn keyed_by(&self, name: Seq<char>, element_ty: u32, element_count: u64) -> bool {
        self.name@ == name && self.element_ty == element_ty && self.element_count == element_count
    }

    /// The name-and-shape wiring key: same declared logical name and same
    /// shape.
    pub fn matches(&self, name: &str, element_ty: u32, element_count: u64) -> (r: bool)
        ensures
            r == self.keyed_by(name@, element_ty, element_count),
    {
        text_eq(self.name.as_str(), name) && self.element_ty == element_ty && self.element_count == element_count
    }
}

/// The facts of a buffer after one more slot joins it.
pub open spec fn merged_facts(entry: ProgramBuffer, role: BufferRole, slot: SlotFact, is_param_input: bool) -> ProgramBuffer {
    ProgramBuffer {
        role: if is_param_input {
            BufferRole::InOut
        } else {
            merged_role(entry.role, role)
        },
        written: entry.written || writes(slot.access),
        consumed: entry.consumed || slot.access == ResourceAccess::Read,
        readwrite: entry.readwrite || slot.access == ResourceAccess::ReadWrite,
        param: entry.param || is_param_input,
        ..entry
    }
}

/// Merge a slot's facts onto an existing unified buffer: the role merge (a
/// trainable-parameter slot forces in-out), the independent written /
/// consumed / read-write facts, and the parameter flag.
pub fn merge_slot_facts(entry: &mut ProgramBuffer, role: BufferRole, slot: &SlotFact, is_param_input: bool)
    ensures
        *final(entry) == merged_facts(*old(entry), role, *slot, is_param_input),
{
    entry.role = if is_param_input {
        BufferRole::InOut
    } else {
        merge_buffer_roles(entry.role, role)
    };
    entry.written = entry.written || slot.access == ResourceAccess::Write || slot.access == ResourceAccess::ReadWrite;
    entry.consumed = entry.consumed || slot.access == ResourceAccess::Read;
    entry.readwrite = entry.readwrite || slot.access == ResourceAccess::ReadWrite;
    entry.param = entry.param || is_param_input;
}

pub open spec fn buffer_label(id: u32) -> Seq<char> {
    seq!['b', 'u', 'f', 'f', 'e', 'r', '-'] + decimal(id as nat)
}

/// The carried fact a buffer's semantic value identity is minted from: the
/// MIR local the slot's value flows from when the slot names one, a
/// host-provided input for an anonymous read slot, or a distinct synthetic
/// label for an anonymous writer slot.
pub open spec fn origin_matches(o: ValueOrigin, function: u32, slot: SlotFact, buffer_id: u32) -> bool {
    match slot.source_local {
        Some(local) => o == ValueOrigin::MirLocal { function, local },
        None => if slot.role == AbiRole::Input {
            o == ValueOrigin::HostInput
        } else {
            o matches ValueOrigin::Synthetic { label } && label@ == buffer_label(buffer_id)
        },
    }
}

pub fn value_origin(function: u32, slot: &SlotFact, buffer_id: u32) -> (o: ValueOrigin)
    ensures
        origin_matches(o, function, *slot, buffer_id),
{
    match slot.source_local {
        Some(local) => ValueOrigin::MirLocal { function, local },
        None => if slot.role == AbiRole::Input {
            ValueOrigin::HostInput
        } else {
            proof {
                reveal_strlit("buffer-");
            }
            let mut label = owned("buffer-");
            let digits = decimal_text(buffer_id as u64);
            label.append(digits.as_str());
            assert(label@ =~= buffer_label(buffer_id));
            ValueOrigin::Synthetic { label }
        },
    }
}

/// The output-slot tuple index of an output resource: the signature's first
/// output is element 0 and each extra output follows; an unknown binding is
/// `u32::MAX`.
pub open spec fn output_index_of(output: u32, extra_outputs: Seq<u32>, binding: u32) -> u32 {
    if output == binding {
        0
    } else if exists|i: int| 0 <= i < extra_outputs.len() && extra_outputs[i] == binding {
        let i = choose|i: int| 0 <= i < extra_outputs.len() && extra_outputs[i] == binding
            && forall|j: int| 0 <= j < i ==> extra_outputs[j] != binding;
        if i + 1 <= u32::MAX {
            (i + 1) as u32
        } else {
            u32::MAX
        }
    } else {
        u32::MAX
    }
}

pub fn output_slot_index(output: u32, extra_outputs: &Vec<u32>, binding: u32) -> (r: u32)
    ensures
        r == output_index_of(output, extra_outputs@, binding),
{
    if output == binding {
        return 0;
    }
    let mut i: usize = 0;
    while i < extra_outputs.len()
        invariant
            output != binding,
            i <= extra_outputs.len(),
            forall|j: int| 0 <= j < i ==> extra_outputs@[j] != binding,
        decreases extra_outputs.len() - i,
    {
        if extra_outputs[i] == binding {
            let ghost c = choose|k: int| 0 <= k < extra_outputs@.len() && extra_outputs@[k] == binding
                && forall|j: int| 0 <= j < k ==> extra_outputs@[j] != binding;
            assert(0 <= i < extra_outputs@.len() && extra_outputs@[i as int] == binding
                && forall|j: int| 0 <= j < i ==> extra_outputs@[j] != binding);
            assert(c == i) by {
                if c < i {
                    assert(extra_outputs@[c] != binding);
                } else if i < c {
                    assert(extra_outputs@[i as int] != binding);
                }
            }
            return if i < u32::MAX as usize {
                (i + 1) as u32
            } else {
                u32::MAX
            };
        }
        i = i + 1;
    }
    u32::MAX
}

/// The independent allocation-lifetime axis of a unified buffer, decided
/// from its aggregate access facts and the trainable-parameter flag, never
/// from its role: a trainable parameter or an in-place read-write buffer is
/// per-program state; a companion gradient is per-step scratch; a buffer no
/// kernel writes is host-provided per-program state; a written buffer another
/// kernel consumes is a per-step intermediate; the declared per-step
/// observation is an observation point; any other written final is per-step
/// in a training program and an observation point otherwise.
pub open spec fn lifetime_of(entry: ProgramBuffer, training_program: bool, per_step_observation: Option<u32>) -> BufferLifetime {
    if entry.param || entry.readwrite {
        BufferLifetime::PerProgram
    } else if entry.gradient {
        BufferLifetime::PerStep
    } else if !entry.written {
        BufferLifetime::PerProgram
    } else if entry.consumed {
        BufferLifetime::PerStep
    } else if Some(entry.id) == per_step_observation {
        BufferLifetime::ObservationPoint
    } else if training_program {
        BufferLifetime::PerStep
    } else {
        BufferLifetime::ObservationPoint
    }
}

pub fn unified_lifetime(entry: &ProgramBuffer, training_program: bool, per_step_observation: Option<u32>) -> (l: BufferLifetime)
    ensures
        l == lifetime_of(*entry, training_program, per_step_observation),
{
    if entry.param {
        return BufferLifetime::PerProgram;
    }
    if entry.readwrite {
        return BufferLifetime::PerProgram;
    }
    if entry.gradient {
        return BufferLifetime::PerStep;
    }
    if !entry.written {
        BufferLifetime::PerProgram
    } else if entry.consumed {
        BufferLifetime::PerStep
    } else if per_step_observation == Some(entry.id) {
        BufferLifetime::ObservationPoint
    } else if training_program {
        BufferLifetime::PerStep
    } else {
        BufferLifetime::ObservationPoint
    }
}


/// Whether a kernel has a slot that writes the buffer.
pub open spec fn kernel_writes(program: DeviceProgram, kernel_index: int, buffer: u32) -> bool {
    &&& 0 <= kernel_index < program.kernels@.len()
    &&& exists|j: int| 0 <= j < program.kernels@[kernel_index].resources@.len()
        && (#[trigger] program.kernels@[kernel_index].resources@[j]).buffer.id == buffer
        && writes(program.kernels@[kernel_index].resources@[j].access)
}

/// The last launch of a launch sequence whose kernel writes the buffer.
pub open spec fn last_writer(program: DeviceProgram, launches: Seq<LaunchUnit>, buffer: u32) -> Option<u32>
    decreases launches.len(),
{
    if launches.len() == 0 {
        None
    } else if kernel_writes(program, launches.last().kernel_index as int, buffer) {
        Some(launches.last().id)
    } else {
        last_writer(program, launches.drop_last(), buffer)
    }
}

/// The launch that produces a buffer's observed version: the last write
/// (write or read-write) in execution order.
pub fn producing_launch(program: &DeviceProgram, buffer: u32) -> (r: Option<u32>)
    ensures
        r == last_writer(*program, program.launches@, buffer),
{
    let launches = &program.launches;
    let mut produced: Option<u32> = None;
    let mut i: usize = 0;
    while i < launches.len()
        invariant
            i <= launches.len(),
            launches@ == program.launches@,
            produced == last_writer(*program, launches@.take(i as int), buffer),
        decreases launches.len() - i,
    {
        let launch = launches[i];
        assert(launches@.take(i + 1).drop_last() =~= launches@.take(i as int));
        assert(launches@.take(i + 1).last() == launch);
        if launch.kernel_index < program.kernels.len() {
            let rs = &program.kernels[launch.kernel_index].resources;
            let mut j: usize = 0;
            let mut hit = false;
            while j < rs.len()
                invariant
                    launch.kernel_index < program.kernels@.len(),
                    rs@ == program.kernels@[launch.kernel_index as int].resources@,
                    j <= rs.len(),
                    hit == (exists|m: int| 0 <= m < j && (#[trigger] rs@[m]).buffer.id == buffer && writes(rs@[m].access)),
                decreases rs.len() - j,
            {
                if rs[j].buffer.id == buffer && (rs[j].access == ResourceAccess::Write || rs[j].access == ResourceAccess::ReadWrite) {
                    hit = true;
                }
                j = j + 1;
            }
            if hit {
                produced = Some(launch.id);
            }
        }
        i = i + 1;
    }
    assert(launches@.take(launches@.len() as int) =~= launches@);
    produced
}

/// The declared observation cadence of a buffer, if it is a result: in a
/// training program the declared per-step observation is per-step, and the
/// final parameters, the train-step gradients and the written-not-consumed
/// outputs are end-of-run; in a single-run program every observation-point
/// buffer is per-step.
pub open spec fn cadence_of(
    b: ProgramBuffer,
    training_program: bool,
    per_step_observation: Option<u32>,
    train_step_gradients: Seq<u32>,
) -> Option<ObservationCadence> {
    if training_program {
        if Some(b.id) == per_step_observation {
            Some(ObservationCadence::PerStep)
        } else if b.param || train_step_gradients.contains(b.id)
            || (b.role == BufferRole::Output && b.written && !b.consumed) {
            Some(ObservationCadence::EndOfRun)
        } else {
            None
        }
    } else if lifetime_of(b, training_program, per_step_observation) == BufferLifetime::ObservationPoint {
        Some(ObservationCadence::PerStep)
    } else {
        None
    }
}

/// The declared result row of a buffer, if it is a result with a producing
/// launch.
pub open spec fn result_row_of(
    program: DeviceProgram,
    b: ProgramBuffer,
    training_program: bool,
    per_step_observation: Option<u32>,
    train_step_gradients: Seq<u32>,
) -> Option<ResultBuffer> {
    match (last_writer(program, program.launches@, b.id), cadence_of(b, training_program, per_step_observation, train_step_gradients)) {
        (Some(produced_by), Some(cadence)) => Some(ResultBuffer {
            buffer: BufferIdentity {
                id: b.id,
                name: b.name,
                role: b.role,
                storage: StorageLayout::DeviceHandle,
                lifetime: lifetime_of(b, training_program, per_step_observation),
            },
            version: BufferVersion {
                version: 1,
                element_ty: b.element_ty,
                element_count: b.element_count,
                reduced_projection: None,
            },
            role: b.role,
            produced_by,
            cadence,
        }),
        _ => None,
    }
}

/// The declared result rows of a buffer list, in buffer order.
pub open spec fn result_rows(
    program: DeviceProgram,
    buffers: Seq<ProgramBuffer>,
    training_program: bool,
    per_step_observation: Option<u32>,
    train_step_gradients: Seq<u32>,
) -> Seq<ResultBuffer>
    decreases buffers.len(),
{
    if buffers.len() == 0 {
        Seq::empty()
    } else {
        let prev = result_rows(program, buffers.drop_last(), training_program, per_step_observation, train_step_gradients);
        match result_row_of(program, buffers.last(), training_program, per_step_observation, train_step_gradients) {
            Some(row) => prev.push(row),
            None => prev,
        }
    }
}

pub(crate) fn contains_u32(v: &Vec<u32>, x: u32) -> (r: bool)
    ensures
        r == v@.contains(x),
{
    let mut i: usize = 0;
    while i < v.len()
        invariant
            i <= v.len(),
            forall|j: int| 0 <= j < i ==> v@[j] != x,
        decreases v.len() - i,
    {
        if v[i] == x {
            return true;
        }
        i = i + 1;
    }
    false
}

/// Declare the observation-eligible results of a materialized program with
/// their observation cadence. Each result names the launch that produces its
/// observed version (the last write in execution order) as both its
/// producing launch and its observation boundary.
pub fn declared_result_rows(
    program: &DeviceProgram,
    buffers: &Vec<ProgramBuffer>,
    training_program: bool,
    per_step_observation: Option<u32>,
    train_step_gradients: &Vec<u32>,
) -> (rows: Vec<ResultBuffer>)
    ensures
        rows@ == result_rows(*program, buffers@, training_program, per_step_observation, train_step_gradients@),
{
    let mut rows: Vec<ResultBuffer> = Vec::new();
    let mut i: usize = 0;
    while i < buffers.len()
        invariant
            i <= buffers.len(),
            rows@ == result_rows(*program, buffers@.take(i as int), training_program, per_step_observation, train_step_gradients@),
        decreases buffers.len() - i,
    {
        let b = &buffers[i];
        assert(buffers@.take(i + 1).drop_last() =~= buffers@.take(i as int));
        assert(buffers@.take(i + 1).last() == *b);
        match producing_launch(program, b.id) {
            None => {},
            Some(produced_by) => {
                let lifetime = unified_lifetime(b, training_program, per_step_observation);
                let cadence: Option<ObservationCadence> = if training_program {
                    if per_step_observation == Some(b.id) {
                        Some(ObservationCadence::PerStep)
                    } else if b.param || contains_u32(train_step_gradients, b.id)
                        || (b.role == BufferRole::Output && b.written && !b.consumed) {
                        Some(ObservationCadence::EndOfRun)
                    } else {
                        None
                    }
                } else if lifetime == BufferLifetime::ObservationPoint {
                    Some(ObservationCadence::PerStep)
                } else {
                    None
                };
                if let Some(cadence) = cadence {
                    rows.push(ResultBuffer {
                        buffer: BufferIdentity {
                            id: b.id,
                            name: b.name.clone(),
                            role: b.role,
                            storage: StorageLayout::DeviceHandle,
                            lifetime,
                        },
                        version: BufferVersion {
                            version: 1,
                            element_ty: b.element_ty,
                            element_count: b.element_count,
                            reduced_projection: None,
                        },
                        role: b.role,
                        produced_by,
                        cadence,
                    });
                }
            },
        }
        i = i + 1;
    }
    assert(buffers@.take(buffers@.len() as int) =~= buffers@);
    rows
}

} // verus!
