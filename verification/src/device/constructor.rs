//! The decisions of the device-program constructor that stand apart from
//! the MIR itself: kernel entry and slot names, the cross-kernel
//! buffer-identity join of one storage-buffer slot, the binding order of a
//! kernel's slots, the declared per-step observation, and the materialized
//! program with its ordered launches, declared results and semantic facts.
use vstd::prelude::*;
use crate::device::program::AbiRole;
use crate::device::program::ProgramBuffer;
use crate::device::program::SlotFact;
use crate::device::program::merge_buffer_roles;
use crate::device::program::merge_slot_facts;
use crate::device::program::merged_facts;
use crate::device::program::merged_role;
use crate::device::program::origin_matches;
use crate::device::program::roles_unify;
use crate::device::program::unify_roles;
use crate::device::program::value_origin;
use crate::device::program::contains_u32;
use crate::device::facts::accesses;
use crate::device::facts::access_of;
use crate::device::facts::launch_accesses;
use crate::device::facts::pairs;
use crate::device::facts::semantic_facts;
use crate::device::facts::semantics_of;
use crate::device::order::LaunchOrderError;
use crate::device::order::dependency_ordered_launches;
use crate::device::order::distinct_launch_ids;
use crate::device::order::follows_edges;
use crate::device::order::has_cycle;
use crate::device::order::kahn_launch_order;
use crate::device::order::ordering_edges;
use crate::device::program::declared_result_rows;
use crate::device::program::last_writer;
use crate::device::program::lifetime_of;
use crate::device::program::result_rows;
use crate::device::schema::CompanionRelation;
use crate::device::schema::DependencyEdge;
use crate::device::schema::DeviceSemantics;
use crate::device::program::unified_lifetime;
use crate::device::schema::Binding;
use crate::device::schema::BufferIdentity;
use crate::device::schema::BufferRole;
use crate::device::schema::BufferVersion;
use crate::device::schema::DeviceProgram;
use crate::device::schema::DeviceResource;
use crate::device::schema::KernelUnit;
use crate::device::schema::LaunchUnit;
use crate::device::schema::ProgramLifetime;
use crate::device::schema::StorageLayout;
use crate::device::schema::KernelLaunchPlan;
use crate::device::schema::KernelPlan;
use crate::device::schema::ResourceAccess;
use crate::device::schema::ValueOrigin;
use crate::device::schema::writes;
use crate::naming::decimal;
use crate::naming::decimal_text;
use crate::naming::owned;
use crate::search::first_where;
use crate::search::lemma_first_where_is;
use crate::search::lemma_first_where_none;
use crate::search::lemma_first_where_some;

verus! {

broadcast use vstd::string::group_string_axioms;

// ---------------------------------------------------------------------------
// Names
// ---------------------------------------------------------------------------

/// The logical entry name of a kernel function: the function's source name
/// when it has one, `kernel<id>` otherwise.
pub fn kernel_entry_name(name: &Option<String>, function: u32) -> (entry: String)
    ensures
        match name {
            Some(n) => entry@ == n@,
            None => entry@ == seq!['k', 'e', 'r', 'n', 'e', 'l'] + decimal(function as nat),
        },
{
    match name {
        Some(n) => n.clone(),
        None => {
            proof {
                reveal_strlit("kernel");
            }
            let mut entry = owned("kernel");
            let digits = decimal_text(function as u64);
            entry.append(digits.as_str());
            entry
        },
    }
}

/// A MIR local with the name its symbol resolves to, when it resolves (an
/// uninterned synthetic symbol resolves to none).
#[derive(Debug)]
pub struct NamedLocal {
    pub local: u32,
    pub name: Option<String>,
}

/// The resolved name of the first entry for a local, if that entry has one.
pub open spec fn named(entries: Seq<NamedLocal>, local: u32) -> Option<Seq<char>> {
    match first_where(entries, |e: NamedLocal| e.local == local) {
        Some(i) => match entries[i].name {
            Some(n) => Some(n@),
            None => None,
        },
        None => None,
    }
}

/// The role-based name of a slot whose local has no resolved name.
pub open spec fn fallback_slot_name(slot: SlotFact) -> Seq<char> {
    if slot.role == AbiRole::Input {
        seq!['i', 'n', 'p', 'u', 't', '_'] + decimal(slot.binding as nat)
    } else {
        seq!['o', 'u', 't', 'p', 'u', 't', '_'] + decimal(slot.binding as nat)
    }
}

/// The name of a buffer slot: the name of the source function's parameter
/// for the slot's local, else the name of that local, else the role-based
/// fallback.
pub open spec fn slot_name(params: Seq<NamedLocal>, locals: Seq<NamedLocal>, slot: SlotFact) -> Seq<char> {
    match slot.source_local {
        Some(l) => match named(params, l) {
            Some(n) => n,
            None => match named(locals, l) {
                Some(n) => n,
                None => fallback_slot_name(slot),
            },
        },
        None => fallback_slot_name(slot),
    }
}

fn find_named(entries: &Vec<NamedLocal>, local: u32) -> (r: Option<String>)
    ensures
        match r {
            Some(s) => named(entries@, local) == Some(s@),
            None => named(entries@, local) is None,
        },
{
    let ghost p = |e: NamedLocal| e.local == local;
    let mut i: usize = 0;
    while i < entries.len()
        invariant
            i <= entries.len(),
            p == (|e: NamedLocal| e.local == local),
            forall|j: int| 0 <= j < i ==> !p(#[trigger] entries@[j]),
        decreases entries.len() - i,
    {
        if entries[i].local == local {
            proof {
                lemma_first_where_is(entries@, p, i as int);
            }
            return match &entries[i].name {
                Some(n) => Some(n.clone()),
                None => None,
            };
        }
        i = i + 1;
    }
    proof {
        lemma_first_where_none(entries@, p);
    }
    None
}

/// The name of a buffer slot (see [`slot_name`]).
pub fn buffer_slot_name(params: &Vec<NamedLocal>, locals: &Vec<NamedLocal>, slot: &SlotFact) -> (name: String)
    ensures
        name@ == slot_name(params@, locals@, *slot),
{
    if let Some(local) = slot.source_local {
        if let Some(n) = find_named(params, local) {
            return n;
        }
        if let Some(n) = find_named(locals, local) {
            return n;
        }
    }
    let digits = decimal_text(slot.binding as u64);
    let mut name = if slot.role == AbiRole::Input {
        proof {
            reveal_strlit("input_");
        }
        owned("input_")
    } else {
        proof {
            reveal_strlit("output_");
        }
        owned("output_")
    };
    name.append(digits.as_str());
    name
}

// ---------------------------------------------------------------------------
// Cross-kernel buffer identity
// ---------------------------------------------------------------------------

/// Why a storage-buffer slot cannot join the program's buffers.
#[derive(Clone, Copy, Debug, PartialEq, Eq, Structural)]
pub enum JoinError {
    /// The slot's ABI role and access give no coherent program role.
    NoProgramRole { binding: u32 },
}

/// A buffer minted from the same MIR local of the same function whose role
/// the slot's role may join.
pub open spec fn same_local_join(function: u32, local: u32, role: BufferRole) -> spec_fn(ProgramBuffer) -> bool {
    |b: ProgramBuffer| b.origin == (ValueOrigin::MirLocal { function, local }) && roles_unify(b.role, role)
}

/// A same-name, same-shape buffer the slot continues: roles that may join,
/// and a writing slot only joins a buffer nothing writes yet.
pub open spec fn name_shape_join(name: Seq<char>, slot: SlotFact, role: BufferRole) -> spec_fn(ProgramBuffer) -> bool {
    |b: ProgramBuffer| b.keyed_by(name, slot.element_ty, slot.element_count) && roles_unify(b.role, role)
        && (slot.access == ResourceAccess::Read || !b.written)
}

/// A buffer with the given id.
pub open spec fn id_is(id: u32) -> spec_fn(ProgramBuffer) -> bool {
    |b: ProgramBuffer| b.id == id
}

/// A gradient buffer once a train step consumes it: in-out, consumed.
pub open spec fn gradient_consumed(b: ProgramBuffer) -> ProgramBuffer {
    ProgramBuffer { role: merged_role(b.role, BufferRole::InOut), consumed: true, ..b }
}

/// The buffer a slot joins by its MIR-local identity, if any.
pub open spec fn local_join_target(buffers: Seq<ProgramBuffer>, function: u32, slot: SlotFact, role: BufferRole) -> Option<int> {
    match slot.source_local {
        Some(l) => first_where(buffers, same_local_join(function, l, role)),
        None => None,
    }
}

/// A newly minted buffer for a slot.
pub open spec fn fresh_buffer(
    b: ProgramBuffer,
    id: u32,
    name: Seq<char>,
    function: u32,
    slot: SlotFact,
    role: BufferRole,
    is_param_input: bool,
) -> bool {
    &&& b.id == id
    &&& b.name@ == name
    &&& b.element_ty == slot.element_ty
    &&& b.element_count == slot.element_count
    &&& b.role == if is_param_input { BufferRole::InOut } else { role }
    &&& b.written == writes(slot.access)
    &&& b.consumed == (slot.access == ResourceAccess::Read)
    &&& b.readwrite == (slot.access == ResourceAccess::ReadWrite)
    &&& b.param == is_param_input
    &&& !b.gradient
    &&& origin_matches(b.origin, function, slot, id)
}

/// How one slot joins the program's buffers, in order of precedence: a
/// trainable parameter's update output aliases the parameter buffer; a train
/// step's gradient input aliases the companion's gradient buffer (now
/// in-out and consumed); a slot with a MIR local joins the buffer minted from
/// the same local; a slot joins a same-name, same-shape buffer it continues;
/// otherwise a new buffer is minted with the next id.
pub open spec fn slot_joined(
    old: Seq<ProgramBuffer>,
    new: Seq<ProgramBuffer>,
    old_next: u32,
    new_next: u32,
    id: u32,
    function: u32,
    slot: SlotFact,
    role: BufferRole,
    name: Seq<char>,
    is_param_input: bool,
    alias_param: Option<u32>,
    gradient_alias: Option<u32>,
) -> bool {
    match alias_param {
        Some(a) => id == a && new == old && new_next == old_next,
        None => match gradient_alias {
            Some(a) => id == a && new_next == old_next && match first_where(old, id_is(a)) {
                Some(i) => new == old.update(i, gradient_consumed(old[i])),
                None => new == old,
            },
            None => match local_join_target(old, function, slot, role) {
                Some(i) => id == old[i].id && new_next == old_next
                    && new == old.update(i, merged_facts(old[i], role, slot, is_param_input)),
                None => match first_where(old, name_shape_join(name, slot, role)) {
                    Some(i) => id == old[i].id && new_next == old_next
                        && new == old.update(i, merged_facts(old[i], role, slot, is_param_input)),
                    None => {
                        &&& id == old_next
                        &&& new_next == old_next + 1
                        &&& new.len() == old.len() + 1
                        &&& new.take(old.len() as int) == old
                        &&& fresh_buffer(new.last(), id, name, function, slot, role, is_param_input)
                    },
                },
            },
        },
    }
}

/// Two unrelated outputs never alias: a writing slot that joins no buffer by
/// MIR-local identity and aliases nothing never binds a buffer something
/// already writes, whatever the name and shape they share.
pub proof fn law_unrelated_outputs_never_alias(
    old: Seq<ProgramBuffer>,
    new: Seq<ProgramBuffer>,
    old_next: u32,
    new_next: u32,
    id: u32,
    function: u32,
    slot: SlotFact,
    role: BufferRole,
    name: Seq<char>,
    is_param_input: bool,
)
    requires
        forall|i: int, j: int| 0 <= i < j < old.len() ==> old[i].id != old[j].id,
        forall|i: int| 0 <= i < old.len() ==> (#[trigger] old[i]).id < old_next,
        writes(slot.access),
        local_join_target(old, function, slot, role) is None,
        slot_joined(old, new, old_next, new_next, id, function, slot, role, name, is_param_input, None, None),
    ensures
        forall|i: int| 0 <= i < old.len() && (#[trigger] old[i]).written ==> id != old[i].id,
{
    if first_where(old, name_shape_join(name, slot, role)) is Some {
        lemma_first_where_some(old, name_shape_join(name, slot, role));
        let t = first_where(old, name_shape_join(name, slot, role))->0;
        assert(!old[t].written);
        assert forall|i: int| 0 <= i < old.len() && (#[trigger] old[i]).written implies id != old[i].id by {
            assert(i != t);
        }
    }
}

fn find_by_id(buffers: &Vec<ProgramBuffer>, id: u32) -> (r: Option<usize>)
    ensures
        match r {
            Some(i) => first_where(buffers@, id_is(id)) == Some(i as int),
            None => first_where(buffers@, id_is(id)) is None,
        },
{
    let ghost p = id_is(id);
    let mut i: usize = 0;
    while i < buffers.len()
        invariant
            i <= buffers.len(),
            p == id_is(id),
            forall|j: int| 0 <= j < i ==> !p(#[trigger] buffers@[j]),
        decreases buffers.len() - i,
    {
        if buffers[i].id == id {
            proof {
                lemma_first_where_is(buffers@, p, i as int);
            }
            return Some(i);
        }
        i = i + 1;
    }
    proof {
        lemma_first_where_none(buffers@, p);
    }
    None
}

fn find_same_local(buffers: &Vec<ProgramBuffer>, function: u32, local: u32, role: BufferRole) -> (r: Option<usize>)
    ensures
        match r {
            Some(i) => first_where(buffers@, same_local_join(function, local, role)) == Some(i as int),
            None => first_where(buffers@, same_local_join(function, local, role)) is None,
        },
{
    let ghost p = same_local_join(function, local, role);
    let mut i: usize = 0;
    while i < buffers.len()
        invariant
            i <= buffers.len(),
            p == same_local_join(function, local, role),
            forall|j: int| 0 <= j < i ==> !p(#[trigger] buffers@[j]),
        decreases buffers.len() - i,
    {
        let b = &buffers[i];
        let same = match &b.origin {
            ValueOrigin::MirLocal { function: f, local: l } => *f == function && *l == local,
            _ => false,
        };
        if same && unify_roles(b.role, role) {
            proof {
                lemma_first_where_is(buffers@, p, i as int);
            }
            return Some(i);
        }
        i = i + 1;
    }
    proof {
        lemma_first_where_none(buffers@, p);
    }
    None
}

fn find_name_shape(buffers: &Vec<ProgramBuffer>, name: &str, slot: &SlotFact, role: BufferRole) -> (r: Option<usize>)
    ensures
        match r {
            Some(i) => first_where(buffers@, name_shape_join(name@, *slot, role)) == Some(i as int),
            None => first_where(buffers@, name_shape_join(name@, *slot, role)) is None,
        },
{
    let ghost p = name_shape_join(name@, *slot, role);
    let mut i: usize = 0;
    while i < buffers.len()
        invariant
            i <= buffers.len(),
            p == name_shape_join(name@, *slot, role),
            forall|j: int| 0 <= j < i ==> !p(#[trigger] buffers@[j]),
        decreases buffers.len() - i,
    {
        let b = &buffers[i];
        if b.matches(name, slot.element_ty, slot.element_count) && unify_roles(b.role, role)
            && (slot.access == ResourceAccess::Read || !b.written) {
            proof {
                lemma_first_where_is(buffers@, p, i as int);
            }
            return Some(i);
        }
        i = i + 1;
    }
    proof {
        lemma_first_where_none(buffers@, p);
    }
    None
}

/// Join one storage-buffer slot of a kernel of `function` to the program's
/// unified buffers (see [`slot_joined`]) and return the buffer id it binds.
/// Fails when the slot has no coherent program role.
pub fn join_slot(
    buffers: &mut Vec<ProgramBuffer>,
    next_id: &mut u32,
    function: u32,
    slot: &SlotFact,
    name: String,
    is_param_input: bool,
    alias_param: Option<u32>,
    gradient_alias: Option<u32>,
) -> (r: Result<u32, JoinError>)
    requires
        *old(next_id) < u32::MAX,
    ensures
        match r {
            Err(e) => {
                &&& slot.program_role is None
                &&& e == JoinError::NoProgramRole { binding: slot.binding }
                &&& final(buffers)@ == old(buffers)@
                &&& *final(next_id) == *old(next_id)
            },
            Ok(id) => {
                &&& slot.program_role is Some
                &&& slot_joined(old(buffers)@, final(buffers)@, *old(next_id), *final(next_id), id, function, *slot,
                    slot.program_role->0, name@, is_param_input, alias_param, gradient_alias)
            },
        },
{
    let role = match slot.program_role {
        Some(role) => role,
        None => {
            return Err(JoinError::NoProgramRole { binding: slot.binding });
        },
    };
    if let Some(a) = alias_param {
        return Ok(a);
    }
    if let Some(a) = gradient_alias {
        if let Some(i) = find_by_id(buffers, a) {
            let mut e = buffers[i].clone();
            e.role = merge_buffer_roles(e.role, BufferRole::InOut);
            e.consumed = true;
            buffers.set(i, e);
        }
        return Ok(a);
    }
    if let Some(local) = slot.source_local {
        if let Some(i) = find_same_local(buffers, function, local, role) {
            let mut e = buffers[i].clone();
            merge_slot_facts(&mut e, role, slot, is_param_input);
            let id = e.id;
            buffers.set(i, e);
            return Ok(id);
        }
    }
    if let Some(i) = find_name_shape(buffers, name.as_str(), slot, role) {
        let mut e = buffers[i].clone();
        merge_slot_facts(&mut e, role, slot, is_param_input);
        let id = e.id;
        buffers.set(i, e);
        return Ok(id);
    }
    let id = *next_id;
    *next_id = id + 1;
    let origin = value_origin(function, slot, id);
    buffers.push(ProgramBuffer {
        id,
        name,
        element_ty: slot.element_ty,
        element_count: slot.element_count,
        role: if is_param_input { BufferRole::InOut } else { role },
        written: slot.access == ResourceAccess::Write || slot.access == ResourceAccess::ReadWrite,
        consumed: slot.access == ResourceAccess::Read,
        readwrite: slot.access == ResourceAccess::ReadWrite,
        param: is_param_input,
        gradient: false,
        origin,
    });
    assert(buffers@.take(old(buffers)@.len() as int) =~= old(buffers)@);
    Ok(id)
}

// ---------------------------------------------------------------------------
// Kernel builds
// ---------------------------------------------------------------------------

/// One storage-buffer slot of a kernel build: its binding facts and the
/// unified buffer id it binds.
#[derive(Clone, Copy, Debug, PartialEq, Eq, Structural)]
pub struct ResourceBuild {
    pub group: u32,
    pub binding: u32,
    pub access: ResourceAccess,
    pub buffer_id: u32,
    pub element_ty: u32,
    pub element_count: u64,
}

/// One kernel's build: its function, entry, plan, launch plan and slots.
#[derive(Debug)]
pub struct KernelBuild {
    pub function: u32,
    pub entry: String,
    pub plan: KernelPlan,
    pub launch: KernelLaunchPlan,
    pub resources: Vec<ResourceBuild>,
}

/// Binding order: by binding, then by group.
pub open spec fn slot_before(a: ResourceBuild, b: ResourceBuild) -> bool {
    a.binding < b.binding || (a.binding == b.binding && a.group <= b.group)
}

pub open spec fn binding_sorted(s: Seq<ResourceBuild>) -> bool {
    forall|i: int, j: int| 0 <= i < j < s.len() ==> slot_before(#[trigger] s[i], #[trigger] s[j])
}

/// Where a slot goes in a binding-ordered list: after every slot that does
/// not come after it.
pub open spec fn insertion_point(s: Seq<ResourceBuild>, x: ResourceBuild) -> int
    decreases s.len(),
{
    if s.len() > 0 && slot_before(s[0], x) {
        1 + insertion_point(s.drop_first(), x)
    } else {
        0
    }
}

/// The slots in binding order, slots of equal binding and group keeping
/// their order: each slot in turn is placed after every earlier-placed slot
/// that does not come after it.
pub open spec fn binding_order(s: Seq<ResourceBuild>) -> Seq<ResourceBuild>
    decreases s.len(),
{
    if s.len() == 0 {
        Seq::empty()
    } else {
        let prev = binding_order(s.drop_last());
        prev.insert(insertion_point(prev, s.last()), s.last())
    }
}

/// The slots of a kernel in binding order (inputs first, output last), the
/// order the emitted kernel binds its buffers in; slots with the same
/// binding and group keep their order.
pub fn sorted_by_binding(rs: &Vec<ResourceBuild>) -> (out: Vec<ResourceBuild>)
    ensures
        out@ == binding_order(rs@),
        out@.to_multiset() == rs@.to_multiset(),
        binding_sorted(out@),
{
    broadcast use vstd::seq_lib::group_to_multiset_ensures;
    let mut out: Vec<ResourceBuild> = Vec::new();
    let mut i: usize = 0;
    while i < rs.len()
        invariant
            i <= rs.len(),
            out@ == binding_order(rs@.take(i as int)),
            out@.to_multiset() == rs@.take(i as int).to_multiset(),
            binding_sorted(out@),
        decreases rs.len() - i,
    {
        let x = rs[i];
        let mut p: usize = 0;
        proof {
            assert(out@.subrange(0, out@.len() as int) =~= out@);
        }
        while p < out.len()
            invariant
                p <= out.len(),
                forall|j: int| 0 <= j < p ==> slot_before(#[trigger] out@[j], x),
                insertion_point(out@, x) == p + insertion_point(out@.subrange(p as int, out@.len() as int), x),
            ensures
                p <= out.len(),
                forall|j: int| 0 <= j < p ==> slot_before(#[trigger] out@[j], x),
                p == out.len() || !slot_before(out@[p as int], x),
                insertion_point(out@, x) == p,
            decreases out.len() - p,
        {
            let y = out[p];
            let ghost rest = out@.subrange(p as int, out@.len() as int);
            assert(rest[0] == y);
            if !(y.binding < x.binding || (y.binding == x.binding && y.group <= x.group)) {
                break;
            }
            assert(rest.drop_first() =~= out@.subrange(p + 1, out@.len() as int));
            p = p + 1;
        }
        let ghost before = out@;
        out.insert(p, x);
        proof {
            assert(rs@.take(i + 1).drop_last() =~= rs@.take(i as int));
            assert(rs@.take(i + 1).last() == x);
            vstd::seq_lib::to_multiset_insert(before, p as int, x);
            assert(rs@.take(i + 1) =~= rs@.take(i as int).push(x));
            vstd::seq_lib::to_multiset_build(rs@.take(i as int), x);
            assert(out@.to_multiset() =~= rs@.take(i + 1).to_multiset());
            assert forall|a: int, b: int| 0 <= a < b < out@.len() implies slot_before(#[trigger] out@[a], #[trigger] out@[b]) by {
                if b < p {
                    assert(out@[a] == before[a] && out@[b] == before[b]);
                } else if b == p {
                    assert(out@[a] == before[a]);
                } else if a < p {
                    assert(out@[a] == before[a] && out@[b] == before[b - 1]);
                } else if a == p {
                    assert(out@[b] == before[b - 1]);
                    assert(slot_before(before[p as int], before[b - 1]) || b - 1 == p);
                } else {
                    assert(out@[a] == before[a - 1] && out@[b] == before[b - 1]);
                }
            }
        }
        i = i + 1;
    }
    assert(rs@.take(rs@.len() as int) =~= rs@);
    out
}

/// The last build of a forward kernel function, if any.
pub open spec fn last_forward_build(builds: Seq<KernelBuild>, forward: Seq<u32>) -> Option<int>
    decreases builds.len(),
{
    if builds.len() == 0 {
        None
    } else if forward.contains(builds.last().function) {
        Some(builds.len() - 1)
    } else {
        last_forward_build(builds.drop_last(), forward)
    }
}

/// The buffer of the first writing slot, if any.
pub open spec fn first_written(rs: Seq<ResourceBuild>) -> Option<u32> {
    match first_where(rs, |r: ResourceBuild| writes(r.access)) {
        Some(j) => Some(rs[j].buffer_id),
        None => None,
    }
}

/// The declared per-step observation of a training program: the primary
/// output (first writing slot in binding order) of the last forward kernel
/// build. A program that does not train declares none.
pub open spec fn per_step_observation_of(builds: Seq<KernelBuild>, forward: Seq<u32>, training_program: bool) -> Option<u32> {
    if !training_program {
        None
    } else {
        match last_forward_build(builds, forward) {
            Some(i) => first_written(builds[i].resources@),
            None => None,
        }
    }
}

/// The declared per-step observation (see [`per_step_observation_of`]).
pub fn declared_per_step_observation(builds: &Vec<KernelBuild>, forward: &Vec<u32>, training_program: bool) -> (r: Option<u32>)
    ensures
        r == per_step_observation_of(builds@, forward@, training_program),
{
    if !training_program {
        return None;
    }
    let mut found: Option<usize> = None;
    let mut i: usize = 0;
    while i < builds.len()
        invariant
            i <= builds.len(),
            match found {
                Some(k) => last_forward_build(builds@.take(i as int), forward@) == Some(k as int) && k < i,
                None => last_forward_build(builds@.take(i as int), forward@) is None,
            },
        decreases builds.len() - i,
    {
        assert(builds@.take(i + 1).drop_last() =~= builds@.take(i as int));
        assert(builds@.take(i + 1).last() == builds@[i as int]);
        if contains_u32(forward, builds[i].function) {
            found = Some(i);
        }
        i = i + 1;
    }
    assert(builds@.take(builds@.len() as int) =~= builds@);
    match found {
        None => None,
        Some(k) => {
            let rs = &builds[k].resources;
            let ghost p = |r: ResourceBuild| writes(r.access);
            let mut j: usize = 0;
            while j < rs.len()
                invariant
                    j <= rs.len(),
                    training_program,
                    k < builds.len(),
                    rs@ == builds@[k as int].resources@,
                    last_forward_build(builds@, forward@) == Some(k as int),
                    p == (|r: ResourceBuild| writes(r.access)),
                    forall|m: int| 0 <= m < j ==> !p(#[trigger] rs@[m]),
                decreases rs.len() - j,
            {
                if rs[j].access == ResourceAccess::Write || rs[j].access == ResourceAccess::ReadWrite {
                    proof {
                        lemma_first_where_is(rs@, p, j as int);
                    }
                    return Some(rs[j].buffer_id);
                }
                j = j + 1;
            }
            proof {
                lemma_first_where_none(rs@, p);
            }
            None
        },
    }
}

// ---------------------------------------------------------------------------
// The materialized program
// ---------------------------------------------------------------------------

/// The launches in declaration order: launch `i` runs kernel `i` and has id
/// `i + 1`.
pub open spec fn declared_launches(n: nat) -> Seq<LaunchUnit> {
    Seq::new(n, |i: int| LaunchUnit { id: (i + 1) as u32, kernel_index: i as usize })
}

/// The identity every reference to a unified buffer carries.
pub open spec fn identity_of(b: ProgramBuffer, training_program: bool, per_step_observation: Option<u32>) -> BufferIdentity {
    BufferIdentity {
        id: b.id,
        name: b.name,
        role: b.role,
        storage: StorageLayout::DeviceHandle,
        lifetime: lifetime_of(b, training_program, per_step_observation),
    }
}

/// The device resource of one slot bound to its unified buffer.
pub open spec fn resource_of(slot: ResourceBuild, b: ProgramBuffer, training_program: bool, per_step_observation: Option<u32>) -> DeviceResource {
    DeviceResource {
        buffer: identity_of(b, training_program, per_step_observation),
        version: BufferVersion {
            version: 1,
            element_ty: slot.element_ty,
            element_count: slot.element_count,
            reduced_projection: None,
        },
        binding: Binding { group: slot.group, binding: slot.binding },
        access: slot.access,
    }
}

/// The first unified buffer with the given id.
pub open spec fn buffer_for(buffers: Seq<ProgramBuffer>, id: u32) -> ProgramBuffer {
    buffers[first_where(buffers, id_is(id))->0]
}

/// Every slot of every build binds a unified buffer.
pub open spec fn all_registered(builds: Seq<KernelBuild>, buffers: Seq<ProgramBuffer>) -> bool {
    forall|i: int, j: int| 0 <= i < builds.len() && 0 <= j < builds[i].resources@.len()
        ==> first_where(buffers, id_is(#[trigger] builds[i].resources@[j].buffer_id)) is Some
}

/// A kernel materialized from its build.
pub open spec fn kernel_materialized(
    k: KernelUnit,
    build: KernelBuild,
    buffers: Seq<ProgramBuffer>,
    training_program: bool,
    per_step_observation: Option<u32>,
) -> bool {
    &&& k.function == build.function
    &&& k.entry@ == build.entry@
    &&& k.plan.same(&build.plan)
    &&& k.launch == build.launch
    &&& k.resources@.len() == build.resources@.len()
    &&& forall|j: int| 0 <= j < k.resources@.len() ==> #[trigger] k.resources@[j] == resource_of(
        build.resources@[j],
        buffer_for(buffers, build.resources@[j].buffer_id),
        training_program,
        per_step_observation,
    )
}

/// Every kernel materialized from the build at its position.
pub open spec fn kernels_materialized(
    kernels: Seq<KernelUnit>,
    builds: Seq<KernelBuild>,
    buffers: Seq<ProgramBuffer>,
    training_program: bool,
    per_step_observation: Option<u32>,
) -> bool {
    &&& kernels.len() == builds.len()
    &&& forall|i: int| 0 <= i < kernels.len() ==> kernel_materialized(#[trigger] kernels[i], builds[i], buffers,
        training_program, per_step_observation)
}

/// The program lifetime: a training program repeats its step.
pub open spec fn lifetime_for(training_program: bool) -> ProgramLifetime {
    if training_program {
        ProgramLifetime::RepeatingStep
    } else {
        ProgramLifetime::SingleRun
    }
}

fn materialize_kernel(build: &KernelBuild, buffers: &Vec<ProgramBuffer>, training_program: bool, per_step_observation: Option<u32>) -> (k: KernelUnit)
    requires
        forall|j: int| 0 <= j < build.resources@.len() ==> first_where(buffers@, id_is(#[trigger] build.resources@[j].buffer_id)) is Some,
    ensures
        kernel_materialized(k, *build, buffers@, training_program, per_step_observation),
{
    let mut resources: Vec<DeviceResource> = Vec::new();
    let mut j: usize = 0;
    while j < build.resources.len()
        invariant
            j <= build.resources.len(),
            forall|m: int| 0 <= m < build.resources@.len() ==> first_where(buffers@, id_is(#[trigger] build.resources@[m].buffer_id)) is Some,
            resources@.len() == j,
            forall|m: int| 0 <= m < j ==> #[trigger] resources@[m] == resource_of(
                build.resources@[m],
                buffer_for(buffers@, build.resources@[m].buffer_id),
                training_program,
                per_step_observation,
            ),
        decreases build.resources.len() - j,
    {
        let slot = build.resources[j];
        let i = match find_by_id(buffers, slot.buffer_id) {
            Some(i) => i,
            None => {
                proof {
                    assert(first_where(buffers@, id_is(build.resources@[j as int].buffer_id)) is Some);
                }
                0
            },
        };
        proof {
            lemma_first_where_some(buffers@, id_is(slot.buffer_id));
        }
        let e = &buffers[i];
        resources.push(DeviceResource {
            buffer: BufferIdentity {
                id: e.id,
                name: e.name.clone(),
                role: e.role,
                storage: StorageLayout::DeviceHandle,
                lifetime: unified_lifetime(e, training_program, per_step_observation),
            },
            version: BufferVersion {
                version: 1,
                element_ty: slot.element_ty,
                element_count: slot.element_count,
                reduced_projection: None,
            },
            binding: Binding { group: slot.group, binding: slot.binding },
            access: slot.access,
        });
        j = j + 1;
    }
    KernelUnit {
        function: build.function,
        entry: build.entry.clone(),
        plan: build.plan.clone(),
        resources,
        launch: build.launch,
    }
}

/// Materialize the program with the unified identity facts: one kernel per
/// build, in build order, every slot carrying its buffer's identity and
/// lifetime; launches in declaration order; no results yet.
pub fn materialize_program(
    builds: &Vec<KernelBuild>,
    buffers: &Vec<ProgramBuffer>,
    training_program: bool,
    per_step_observation: Option<u32>,
) -> (p: DeviceProgram)
    requires
        all_registered(builds@, buffers@),
        builds.len() < u32::MAX,
    ensures
        p.lifetime == lifetime_for(training_program),
        kernels_materialized(p.kernels@, builds@, buffers@, training_program, per_step_observation),
        p.launches@ == declared_launches(builds.len() as nat),
        p.results@.len() == 0,
{
    let mut kernels: Vec<KernelUnit> = Vec::new();
    let mut launches: Vec<LaunchUnit> = Vec::new();
    let mut i: usize = 0;
    while i < builds.len()
        invariant
            i <= builds.len(),
            builds.len() < u32::MAX,
            all_registered(builds@, buffers@),
            kernels@.len() == i,
            forall|m: int| 0 <= m < i ==> kernel_materialized(#[trigger] kernels@[m], builds@[m], buffers@,
                training_program, per_step_observation),
            launches@ == declared_launches(i as nat),
        decreases builds.len() - i,
    {
        let k = materialize_kernel(&builds[i], buffers, training_program, per_step_observation);
        kernels.push(k);
        launches.push(LaunchUnit { id: (i + 1) as u32, kernel_index: i });
        assert(launches@ =~= declared_launches((i + 1) as nat));
        i = i + 1;
    }
    DeviceProgram {
        lifetime: if training_program { ProgramLifetime::RepeatingStep } else { ProgramLifetime::SingleRun },
        kernels,
        launches,
        results: Vec::new(),
    }
}

/// The ids of the trainable-parameter buffers, in buffer order.
pub open spec fn param_buffer_ids(buffers: Seq<ProgramBuffer>) -> Seq<u32>
    decreases buffers.len(),
{
    if buffers.len() == 0 {
        Seq::empty()
    } else if buffers.last().param {
        param_buffer_ids(buffers.drop_last()).push(buffers.last().id)
    } else {
        param_buffer_ids(buffers.drop_last())
    }
}

fn param_ids(buffers: &Vec<ProgramBuffer>) -> (ids: Vec<u32>)
    ensures
        ids@ == param_buffer_ids(buffers@),
{
    let mut ids: Vec<u32> = Vec::new();
    let mut i: usize = 0;
    while i < buffers.len()
        invariant
            i <= buffers.len(),
            ids@ == param_buffer_ids(buffers@.take(i as int)),
        decreases buffers.len() - i,
    {
        assert(buffers@.take(i + 1).drop_last() =~= buffers@.take(i as int));
        assert(buffers@.take(i + 1).last() == buffers@[i as int]);
        if buffers[i].param {
            ids.push(buffers[i].id);
        }
        i = i + 1;
    }
    assert(buffers@.take(buffers@.len() as int) =~= buffers@);
    ids
}

proof fn lemma_last_writer_frame(p1: DeviceProgram, p2: DeviceProgram, launches: Seq<LaunchUnit>, buffer: u32)
    requires
        p1.kernels@ == p2.kernels@,
    ensures
        last_writer(p1, launches, buffer) == last_writer(p2, launches, buffer),
    decreases launches.len(),
{
    if launches.len() > 0 {
        lemma_last_writer_frame(p1, p2, launches.drop_last(), buffer);
    }
}

/// The declared result rows read only the kernels and the launch sequence.
proof fn lemma_result_rows_frame(
    p1: DeviceProgram,
    p2: DeviceProgram,
    buffers: Seq<ProgramBuffer>,
    training_program: bool,
    per_step_observation: Option<u32>,
    train_step_gradients: Seq<u32>,
)
    requires
        p1.kernels@ == p2.kernels@,
        p1.launches@ == p2.launches@,
    ensures
        result_rows(p1, buffers, training_program, per_step_observation, train_step_gradients)
            == result_rows(p2, buffers, training_program, per_step_observation, train_step_gradients),
    decreases buffers.len(),
{
    if buffers.len() > 0 {
        lemma_result_rows_frame(p1, p2, buffers.drop_last(), training_program, per_step_observation, train_step_gradients);
        lemma_last_writer_frame(p1, p2, p1.launches@, buffers.last().id);
    }
}

/// The data-flow edges the launch order of a materialized program follows:
/// those over the declared launches, without the trainable-parameter
/// buffers (a parameter's write feeds the next step).
pub open spec fn construction_edges(kernels: Seq<KernelUnit>, n: nat, buffers: Seq<ProgramBuffer>) -> Seq<DependencyEdge> {
    ordering_edges(
        pairs(accesses(kernels, declared_launches(n)), accesses(kernels, declared_launches(n))),
        param_buffer_ids(buffers),
    )
}

// ---------------------------------------------------------------------------
// Names never steer the graph
// ---------------------------------------------------------------------------

/// Two unified buffers that differ at most in their diagnostic name.
pub open spec fn same_but_name(a: ProgramBuffer, b: ProgramBuffer) -> bool {
    &&& a.id == b.id
    &&& a.element_ty == b.element_ty
    &&& a.element_count == b.element_count
    &&& a.role == b.role
    &&& a.written == b.written
    &&& a.consumed == b.consumed
    &&& a.readwrite == b.readwrite
    &&& a.param == b.param
    &&& a.gradient == b.gradient
    &&& a.origin == b.origin
}

/// Two buffer lists that differ at most in the buffers' names.
pub open spec fn renamed(b1: Seq<ProgramBuffer>, b2: Seq<ProgramBuffer>) -> bool {
    &&& b1.len() == b2.len()
    &&& forall|i: int| 0 <= i < b1.len() ==> #[trigger] same_but_name(b1[i], b2[i])
}

/// Two device resources that differ at most in their buffer's name.
pub open spec fn same_slot_but_name(r1: DeviceResource, r2: DeviceResource) -> bool {
    &&& r1.buffer.id == r2.buffer.id
    &&& r1.buffer.role == r2.buffer.role
    &&& r1.buffer.storage == r2.buffer.storage
    &&& r1.buffer.lifetime == r2.buffer.lifetime
    &&& r1.version == r2.version
    &&& r1.binding == r2.binding
    &&& r1.access == r2.access
}

proof fn lemma_first_id_renamed(b1: Seq<ProgramBuffer>, b2: Seq<ProgramBuffer>, id: u32)
    requires
        renamed(b1, b2),
    ensures
        first_where(b1, id_is(id)) == first_where(b2, id_is(id)),
{
    assert forall|k: int| 0 <= k < b1.len() implies id_is(id)(#[trigger] b1[k]) == id_is(id)(b2[k]) by {
        assert(same_but_name(b1[k], b2[k]));
    }
    if first_where(b1, id_is(id)) is Some {
        lemma_first_where_some(b1, id_is(id));
        let i = first_where(b1, id_is(id))->0;
        assert forall|j: int| 0 <= j < i implies !id_is(id)(#[trigger] b2[j]) by {
            assert(!id_is(id)(b1[j]));
        }
        lemma_first_where_is(b2, id_is(id), i);
    } else if first_where(b2, id_is(id)) is Some {
        lemma_first_where_some(b2, id_is(id));
        let i = first_where(b2, id_is(id))->0;
        assert forall|j: int| 0 <= j < i implies !id_is(id)(#[trigger] b1[j]) by {
            assert(!id_is(id)(b2[j]));
        }
        lemma_first_where_is(b1, id_is(id), i);
    }
}

proof fn lemma_param_ids_renamed(b1: Seq<ProgramBuffer>, b2: Seq<ProgramBuffer>)
    requires
        renamed(b1, b2),
    ensures
        param_buffer_ids(b1) == param_buffer_ids(b2),
    decreases b1.len(),
{
    if b1.len() > 0 {
        assert(same_but_name(b1[b1.len() - 1], b2[b2.len() - 1]));
        assert forall|i: int| 0 <= i < b1.drop_last().len() implies #[trigger] same_but_name(b1.drop_last()[i], b2.drop_last()[i]) by {
            assert(same_but_name(b1[i], b2[i]));
        }
        lemma_param_ids_renamed(b1.drop_last(), b2.drop_last());
    }
}

proof fn lemma_accesses_renamed(ks1: Seq<KernelUnit>, ks2: Seq<KernelUnit>, launches: Seq<LaunchUnit>)
    requires
        ks1.len() == ks2.len(),
        forall|i: int| 0 <= i < ks1.len() ==> (#[trigger] ks1[i]).resources@.len() == ks2[i].resources@.len(),
        forall|i: int, j: int| 0 <= i < ks1.len() && 0 <= j < ks1[i].resources@.len()
            ==> same_slot_but_name(#[trigger] ks1[i].resources@[j], ks2[i].resources@[j]),
    ensures
        accesses(ks1, launches) == accesses(ks2, launches),
    decreases launches.len(),
{
    if launches.len() > 0 {
        lemma_accesses_renamed(ks1, ks2, launches.drop_last());
        let l = launches.last();
        if l.kernel_index < ks1.len() {
            let i = l.kernel_index as int;
            assert forall|j: int| 0 <= j < ks1[i].resources@.len() implies access_of(l, #[trigger] ks1[i].resources@[j])
                == access_of(l, ks2[i].resources@[j]) by {
                assert(same_slot_but_name(ks1[i].resources@[j], ks2[i].resources@[j]));
            }
            assert(launch_accesses(ks1, l) =~= launch_accesses(ks2, l));
        }
    }
}

/// Renaming buffers leaves the program graph unchanged: kernels materialized
/// from the same builds over buffer lists that differ only in names bind the
/// same buffer ids with the same roles, lifetimes, versions, bindings and
/// accesses, so the data-flow edges the launch order follows, and the launch
/// order itself, are the same. Only the diagnostic names differ.
pub proof fn law_renaming_leaves_the_graph_unchanged(
    builds: Seq<KernelBuild>,
    b1: Seq<ProgramBuffer>,
    b2: Seq<ProgramBuffer>,
    ks1: Seq<KernelUnit>,
    ks2: Seq<KernelUnit>,
    training_program: bool,
    per_step_observation: Option<u32>,
)
    requires
        renamed(b1, b2),
        all_registered(builds, b1),
        kernels_materialized(ks1, builds, b1, training_program, per_step_observation),
        kernels_materialized(ks2, builds, b2, training_program, per_step_observation),
    ensures
        forall|i: int, j: int| 0 <= i < ks1.len() && 0 <= j < ks1[i].resources@.len()
            ==> same_slot_but_name(#[trigger] ks1[i].resources@[j], ks2[i].resources@[j]),
        construction_edges(ks1, builds.len() as nat, b1) == construction_edges(ks2, builds.len() as nat, b2),
        kahn_launch_order(declared_launches(builds.len() as nat), construction_edges(ks1, builds.len() as nat, b1))
            == kahn_launch_order(declared_launches(builds.len() as nat), construction_edges(ks2, builds.len() as nat, b2)),
{
    assert forall|i: int| 0 <= i < ks1.len() implies (#[trigger] ks1[i]).resources@.len() == ks2[i].resources@.len() by {
        assert(kernel_materialized(ks1[i], builds[i], b1, training_program, per_step_observation));
        assert(kernel_materialized(ks2[i], builds[i], b2, training_program, per_step_observation));
    }
    assert forall|i: int, j: int| 0 <= i < ks1.len() && 0 <= j < ks1[i].resources@.len()
        implies same_slot_but_name(#[trigger] ks1[i].resources@[j], ks2[i].resources@[j]) by {
        assert(kernel_materialized(ks1[i], builds[i], b1, training_program, per_step_observation));
        assert(kernel_materialized(ks2[i], builds[i], b2, training_program, per_step_observation));
        let id = builds[i].resources@[j].buffer_id;
        lemma_first_id_renamed(b1, b2, id);
        assert(first_where(b1, id_is(id)) is Some);
        let x = first_where(b1, id_is(id))->0;
        lemma_first_where_some(b1, id_is(id));
        assert(same_but_name(b1[x], b2[x]));
        assert(ks1[i].resources@[j] == resource_of(builds[i].resources@[j], b1[x], training_program, per_step_observation));
        assert(ks2[i].resources@[j] == resource_of(builds[i].resources@[j], b2[x], training_program, per_step_observation));
    }
    lemma_accesses_renamed(ks1, ks2, declared_launches(builds.len() as nat));
    lemma_param_ids_renamed(b1, b2);
}

/// Construct the device program of a set of kernel builds over their unified
/// buffers: materialize it, order its launches by the dependency graph
/// without the trainable-parameter edges, declare its results, and mint its
/// semantic facts. Fails exactly when that graph has a cycle.
pub fn construct_program(
    builds: &Vec<KernelBuild>,
    buffers: &Vec<ProgramBuffer>,
    training_program: bool,
    per_step_observation: Option<u32>,
    train_step_gradients: &Vec<u32>,
    companions: &Vec<CompanionRelation>,
) -> (r: Result<(DeviceProgram, DeviceSemantics), LaunchOrderError>)
    requires
        all_registered(builds@, buffers@),
        builds.len() < u32::MAX,
    ensures
        match r {
            Ok((p, sem)) => {
                &&& p.lifetime == lifetime_for(training_program)
                &&& kernels_materialized(p.kernels@, builds@, buffers@, training_program, per_step_observation)
                &&& follows_edges(p.launches@, declared_launches(builds.len() as nat),
                    construction_edges(p.kernels@, builds.len() as nat, buffers@))
                &&& p.launches@ == kahn_launch_order(declared_launches(builds.len() as nat),
                    construction_edges(p.kernels@, builds.len() as nat, buffers@))
                &&& distinct_launch_ids(p.launches@)
                &&& p.results@ == result_rows(p, buffers@, training_program, per_step_observation, train_step_gradients@)
                &&& semantics_of(sem, p, buffers@, companions@)
            },
            Err(_) => exists|ks: Seq<KernelUnit>| {
                &&& kernels_materialized(ks, builds@, buffers@, training_program, per_step_observation)
                &&& #[trigger] has_cycle(declared_launches(builds.len() as nat), construction_edges(ks, builds.len() as nat, buffers@))
            },
        },
{
    let mut program = materialize_program(builds, buffers, training_program, per_step_observation);
    let excluded = param_ids(buffers);
    proof {
        assert forall|a: int, b: int| 0 <= a < b < program.launches@.len() implies program.launches@[a].id != program.launches@[b].id by {
        }
    }
    let ordered = dependency_ordered_launches(&program, &excluded);
    match ordered {
        Err(e) => {
            proof {
                assert(has_cycle(declared_launches(builds.len() as nat), construction_edges(program.kernels@, builds.len() as nat, buffers@)));
            }
            Err(e)
        },
        Ok(order) => {
            program.launches = order;
            let ghost before = program;
            let rows = declared_result_rows(&program, buffers, training_program, per_step_observation, train_step_gradients);
            program.results = rows;
            proof {
                lemma_result_rows_frame(before, program, buffers@, training_program, per_step_observation, train_step_gradients@);
            }
            let sem = semantic_facts(&program, buffers, companions);
            Ok((program, sem))
        },
    }
}

} // verus!
