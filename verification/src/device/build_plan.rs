//! The decisions of device-program construction that precede the slot
//! joins: which functions become kernels and in what order, the entry name
//! of a decomposed kernel, and which buffer a parameter-update output or a
//! gradient input slot aliases.
use vstd::prelude::*;
use crate::naming::decimal;
use crate::naming::decimal_text;
use crate::naming::owned;
use crate::device::schema::CompanionRelation;
use crate::search::first_where;
use crate::search::lemma_first_where_is;
use crate::search::lemma_first_where_none;

verus! {

broadcast use vstd::string::group_string_axioms;

// ---------------------------------------------------------------------------
// Which functions become kernels, in order
// ---------------------------------------------------------------------------

/// A function of the lowered program as kernel selection sees it.
#[derive(Clone, Copy, Debug, PartialEq, Eq, Structural)]
pub struct FunctionFacts {
    pub id: u32,
    /// The function's shader stage is compute.
    pub compute: bool,
    /// The source definition the function was lowered from, if any.
    pub source: Option<u32>,
}

/// A carried primal/companion relation as kernel selection sees it.
#[derive(Clone, Copy, Debug, PartialEq, Eq, Structural)]
pub struct CompanionFacts {
    pub primal: u32,
    pub companion: u32,
    /// The primal runs on the device, so its companion joins the program.
    pub device_resident: bool,
}

/// Why the kernels of a program cannot be chosen.
#[derive(Clone, Copy, Debug, PartialEq, Eq, Structural)]
pub enum KernelSelectionError {
    /// A device-resident primal's companion is missing from the lowered
    /// program.
    MissingCompanion { primal: u32, companion: u32 },
}

/// The positions of the compute functions among the first `n`, in order.
pub open spec fn compute_positions(fs: Seq<FunctionFacts>, n: int) -> Seq<usize>
    decreases n,
{
    if n <= 0 {
        Seq::empty()
    } else if fs[n - 1].compute {
        compute_positions(fs, n - 1).push((n - 1) as usize)
    } else {
        compute_positions(fs, n - 1)
    }
}

/// The positions of the functions among the first `n` whose id is a step
/// function, in order.
pub open spec fn step_positions(fs: Seq<FunctionFacts>, steps: Seq<u32>, n: int) -> Seq<usize>
    decreases n,
{
    if n <= 0 {
        Seq::empty()
    } else if steps.contains(fs[n - 1].id) {
        step_positions(fs, steps, n - 1).push((n - 1) as usize)
    } else {
        step_positions(fs, steps, n - 1)
    }
}

/// The function lowered from the given source.
pub open spec fn from_source(source: u32) -> spec_fn(FunctionFacts) -> bool {
    |f: FunctionFacts| f.source == Some(source)
}

/// The positions of the companions of the first `n` device-resident
/// relations, in relation order; the first companion missing from the
/// program fails.
pub open spec fn companion_positions(fs: Seq<FunctionFacts>, cs: Seq<CompanionFacts>, n: int) -> Result<
    Seq<usize>,
    KernelSelectionError,
>
    decreases n,
{
    if n <= 0 {
        Ok(Seq::empty())
    } else {
        match companion_positions(fs, cs, n - 1) {
            Err(e) => Err(e),
            Ok(prev) => {
                let c = cs[n - 1];
                if !c.device_resident {
                    Ok(prev)
                } else {
                    match first_where(fs, from_source(c.companion)) {
                        Some(i) => Ok(prev.push(i as usize)),
                        None => Err(KernelSelectionError::MissingCompanion { primal: c.primal, companion: c.companion }),
                    }
                }
            },
        }
    }
}

/// The kernels of a program, by function position: none without a compute
/// function; otherwise the compute functions, then the companions of the
/// device-resident primals, then the optimizer-step functions.
pub open spec fn kernel_selection(fs: Seq<FunctionFacts>, cs: Seq<CompanionFacts>, steps: Seq<u32>) -> Result<
    Option<Seq<usize>>,
    KernelSelectionError,
> {
    let compute = compute_positions(fs, fs.len() as int);
    if compute.len() == 0 {
        Ok(None)
    } else {
        match companion_positions(fs, cs, cs.len() as int) {
            Err(e) => Err(e),
            Ok(companions) => Ok(Some(compute + companions + step_positions(fs, steps, fs.len() as int))),
        }
    }
}

proof fn lemma_companion_error_stays(fs: Seq<FunctionFacts>, cs: Seq<CompanionFacts>, k: int, n: int)
    requires
        0 <= k <= n,
        companion_positions(fs, cs, k) is Err,
    ensures
        companion_positions(fs, cs, n) == companion_positions(fs, cs, k),
    decreases n - k,
{
    if n > k {
        lemma_companion_error_stays(fs, cs, k, n - 1);
    }
}

fn contains_id(v: &Vec<u32>, x: u32) -> (r: bool)
    ensures
        r == v@.contains(x),
{
    let mut i: usize = 0;
    while i < v.len()
        invariant
            i <= v.len(),
            forall|j: int| 0 <= j < i ==> v@[j] != x,
        decreases v.len() - i,
    {
        if v[i] == x {
            return true;
        }
        i = i + 1;
    }
    false
}

fn find_source(fs: &Vec<FunctionFacts>, source: u32) -> (r: Option<usize>)
    ensures
        match r {
            Some(i) => first_where(fs@, from_source(source)) == Some(i as int),
            None => first_where(fs@, from_source(source)) is None,
        },
{
    let mut i: usize = 0;
    while i < fs.len()
        invariant
            i <= fs.len(),
            forall|j: int| 0 <= j < i ==> !from_source(source)(#[trigger] fs@[j]),
        decreases fs.len() - i,
    {
        if fs[i].source == Some(source) {
            proof {
                lemma_first_where_is(fs@, from_source(source), i as int);
            }
            return Some(i);
        }
        i = i + 1;
    }
    proof {
        lemma_first_where_none(fs@, from_source(source));
    }
    None
}

/// Choose the kernels of a program by function position: `Ok(None)` when no
/// function is a compute kernel; otherwise the compute functions in program
/// order, then the companion of each device-resident primal in relation
/// order, then the optimizer-step functions (those whose id is in `steps`)
/// in program order. Fails closed on the first device-resident relation
/// whose companion is missing from the program.
pub fn select_kernels(fs: &Vec<FunctionFacts>, cs: &Vec<CompanionFacts>, steps: &Vec<u32>) -> (r: Result<
    Option<Vec<usize>>,
    KernelSelectionError,
>)
    ensures
        match r {
            Ok(Some(v)) => kernel_selection(fs@, cs@, steps@) == Ok::<Option<Seq<usize>>, KernelSelectionError>(Some(v@)),
            Ok(None) => kernel_selection(fs@, cs@, steps@) == Ok::<Option<Seq<usize>>, KernelSelectionError>(None),
            Err(e) => kernel_selection(fs@, cs@, steps@) == Err::<Option<Seq<usize>>, KernelSelectionError>(e),
        },
{
    let mut order: Vec<usize> = Vec::new();
    let mut i: usize = 0;
    while i < fs.len()
        invariant
            i <= fs.len(),
            order@ == compute_positions(fs@, i as int),
        decreases fs.len() - i,
    {
        if fs[i].compute {
            order.push(i);
        }
        i = i + 1;
    }
    if order.len() == 0 {
        return Ok(None);
    }
    let ghost compute = order@;
    let mut k: usize = 0;
    while k < cs.len()
        invariant
            k <= cs.len(),
            compute == compute_positions(fs@, fs@.len() as int),
            compute.len() > 0,
            companion_positions(fs@, cs@, k as int) matches Ok(p) && order@ == compute + p,
        decreases cs.len() - k,
    {
        let c = cs[k];
        if c.device_resident {
            match find_source(fs, c.companion) {
                Some(p) => {
                    order.push(p);
                },
                None => {
                    proof {
                        assert(cs@[k as int] == c);
                        assert(companion_positions(fs@, cs@, k + 1) == Err::<Seq<usize>, KernelSelectionError>(
                            KernelSelectionError::MissingCompanion { primal: c.primal, companion: c.companion }));
                        lemma_companion_error_stays(fs@, cs@, k + 1, cs@.len() as int);
                    }
                    return Err(KernelSelectionError::MissingCompanion { primal: c.primal, companion: c.companion });
                },
            }
        }
        k = k + 1;
    }
    let ghost before_steps = order@;
    let mut j: usize = 0;
    while j < fs.len()
        invariant
            j <= fs.len(),
            order@ == before_steps + step_positions(fs@, steps@, j as int),
        decreases fs.len() - j,
    {
        if contains_id(steps, fs[j].id) {
            order.push(j);
            proof {
                assert(order@ =~= before_steps + step_positions(fs@, steps@, j + 1));
            }
        }
        j = j + 1;
    }
    Ok(Some(order))
}

// ---------------------------------------------------------------------------
// Entry names of decomposed kernels
// ---------------------------------------------------------------------------

/// The entry of one subchain kernel of a body decomposed into `count`
/// kernels: the function's entry when there is one kernel, otherwise the
/// entry with `__` and the subchain's index appended.
pub fn subchain_entry(base: &str, index: u64, count: u64) -> (entry: String)
    ensures
        count == 1 ==> entry@ == base@,
        count != 1 ==> entry@ == base@ + seq!['_', '_'] + decimal(index as nat),
{
    let mut entry = owned(base);
    if count != 1 {
        proof {
            reveal_strlit("__");
        }
        entry.append("__");
        let digits = decimal_text(index);
        entry.append(digits.as_str());
    }
    entry
}

// ---------------------------------------------------------------------------
// Slot aliases
// ---------------------------------------------------------------------------

/// A trainable parameter's in-place update: the optimizer-step function,
/// the parameter's local in it, and the result-tuple slot holding its new
/// value.
#[derive(Clone, Copy, Debug, PartialEq, Eq, Structural)]
pub struct ParamUpdate {
    pub step_function: u32,
    pub param_local: u32,
    pub update_output: u32,
}

/// A gradient link: the optimizer-step function's input position reading a
/// parameter's gradient, and the companion result-tuple slot producing it.
#[derive(Clone, Copy, Debug, PartialEq, Eq, Structural)]
pub struct GradientFlow {
    pub step_function: u32,
    pub gradient_position: u32,
    pub companion: u32,
    pub gradient_slot: u32,
}

/// A buffer registered under a key of two numbers.
#[derive(Clone, Copy, Debug, PartialEq, Eq, Structural)]
pub struct KeyedBuffer {
    pub first: u32,
    pub second: u32,
    pub buffer: u32,
}

/// A buffer registered under a MIR local.
#[derive(Clone, Copy, Debug, PartialEq, Eq, Structural)]
pub struct LocalBuffer {
    pub local: u32,
    pub buffer: u32,
}

/// A row registered under the local.
pub open spec fn local_is(local: u32) -> spec_fn(LocalBuffer) -> bool {
    |r: LocalBuffer| r.local == local
}

/// A row registered under the key.
pub open spec fn key_is(first: u32, second: u32) -> spec_fn(KeyedBuffer) -> bool {
    |r: KeyedBuffer| r.first == first && r.second == second
}

/// An update writing the result-tuple slot.
pub open spec fn updates_slot(oi: u32) -> spec_fn(ParamUpdate) -> bool {
    |u: ParamUpdate| u.update_output == oi
}

/// A parameter with the local.
pub open spec fn param_is(l: u32) -> spec_fn(u32) -> bool {
    |p: u32| p == l
}

/// A gradient link of the step function at the input position.
pub open spec fn flow_is(function: u32, position: u32) -> spec_fn(GradientFlow) -> bool {
    |f: GradientFlow| f.step_function == function && f.gradient_position == position
}

/// The buffer registered under a local (the first row with that local).
pub open spec fn local_buffer(rows: Seq<LocalBuffer>, local: u32) -> Option<u32> {
    match first_where(rows, local_is(local)) {
        Some(i) => Some(rows[i].buffer),
        None => None,
    }
}

/// The buffer registered under a key (the first row with that key).
pub open spec fn keyed_buffer(rows: Seq<KeyedBuffer>, first: u32, second: u32) -> Option<u32> {
    match first_where(rows, key_is(first, second)) {
        Some(i) => Some(rows[i].buffer),
        None => None,
    }
}

/// A position narrowed to `u32`, saturating.
pub open spec fn position_u32(p: int) -> u32 {
    if p <= u32::MAX {
        p as u32
    } else {
        u32::MAX
    }
}

/// Whether an input slot reads a trainable parameter of the step function:
/// its local is a parameter some update of `function` names.
pub open spec fn reads_param(is_input: bool, source_local: Option<u32>, function: u32, updates: Seq<ParamUpdate>) -> bool {
    is_input && match source_local {
        Some(l) => exists|u: int| 0 <= u < updates.len() && (#[trigger] updates[u]).step_function == function
            && updates[u].param_local == l,
        None => false,
    }
}

/// The parameter buffer an output slot updates in place: only a slot that
/// is the full result-tuple slot at its output index (its local is the
/// tuple's field there) aliases the parameter of the first update (in the
/// updates' key order) writing that index, when that parameter's buffer is
/// registered.
pub open spec fn param_alias(
    output_index: Option<u32>,
    source_local: Option<u32>,
    tuple_locals: Seq<u32>,
    updates: Seq<ParamUpdate>,
    param_buffers: Seq<LocalBuffer>,
) -> Option<u32> {
    match (output_index, source_local) {
        (Some(oi), Some(l)) => if oi < tuple_locals.len() && tuple_locals[oi as int] == l {
            match first_where(updates, updates_slot(oi)) {
                Some(i) => local_buffer(param_buffers, updates[i].param_local),
                None => None,
            }
        } else {
            None
        },
        _ => None,
    }
}

/// The gradient buffer an input slot of a step function reads: the slot's
/// local is the step function's parameter at some position, a gradient link
/// of the step function at that position names the companion's result
/// slot, and that slot's buffer is registered.
pub open spec fn gradient_alias(
    is_input: bool,
    source_local: Option<u32>,
    function: u32,
    params: Seq<u32>,
    flows: Seq<GradientFlow>,
    gradient_buffers: Seq<KeyedBuffer>,
) -> Option<u32> {
    if !is_input {
        None
    } else {
        match source_local {
            None => None,
            Some(l) => match first_where(params, param_is(l)) {
                None => None,
                Some(pos) => match first_where(flows, flow_is(function, position_u32(pos))) {
                    None => None,
                    Some(k) => keyed_buffer(gradient_buffers, flows[k].companion, flows[k].gradient_slot),
                },
            },
        }
    }
}

fn find_local_buffer(rows: &Vec<LocalBuffer>, local: u32) -> (r: Option<u32>)
    ensures
        r == local_buffer(rows@, local),
{
    let mut i: usize = 0;
    while i < rows.len()
        invariant
            i <= rows.len(),
            forall|j: int| 0 <= j < i ==> !(local_is(local))(#[trigger] rows@[j]),
        decreases rows.len() - i,
    {
        if rows[i].local == local {
            proof {
                lemma_first_where_is(rows@, local_is(local), i as int);
            }
            return Some(rows[i].buffer);
        }
        i = i + 1;
    }
    proof {
        lemma_first_where_none(rows@, local_is(local));
    }
    None
}

fn find_keyed_buffer(rows: &Vec<KeyedBuffer>, first: u32, second: u32) -> (r: Option<u32>)
    ensures
        r == keyed_buffer(rows@, first, second),
{
    let mut i: usize = 0;
    while i < rows.len()
        invariant
            i <= rows.len(),
            forall|j: int| 0 <= j < i ==> !(key_is(first, second))(#[trigger] rows@[j]),
        decreases rows.len() - i,
    {
        if rows[i].first == first && rows[i].second == second {
            proof {
                lemma_first_where_is(rows@, key_is(first, second), i as int);
            }
            return Some(rows[i].buffer);
        }
        i = i + 1;
    }
    proof {
        lemma_first_where_none(rows@, key_is(first, second));
    }
    None
}

fn first_update_writing(updates: &Vec<ParamUpdate>, oi: u32) -> (r: Option<usize>)
    ensures
        match r {
            Some(i) => first_where(updates@, updates_slot(oi)) == Some(i as int) && i < updates.len(),
            None => first_where(updates@, updates_slot(oi)) is None,
        },
{
    let mut i: usize = 0;
    while i < updates.len()
        invariant
            i <= updates.len(),
            forall|j: int| 0 <= j < i ==> !(updates_slot(oi))(#[trigger] updates@[j]),
        decreases updates.len() - i,
    {
        if updates[i].update_output == oi {
            proof {
                lemma_first_where_is(updates@, updates_slot(oi), i as int);
            }
            return Some(i);
        }
        i = i + 1;
    }
    proof {
        lemma_first_where_none(updates@, updates_slot(oi));
    }
    None
}

fn param_position(params: &Vec<u32>, l: u32) -> (r: Option<usize>)
    ensures
        match r {
            Some(i) => first_where(params@, param_is(l)) == Some(i as int),
            None => first_where(params@, param_is(l)) is None,
        },
{
    let mut i: usize = 0;
    while i < params.len()
        invariant
            i <= params.len(),
            forall|j: int| 0 <= j < i ==> !(param_is(l))(#[trigger] params@[j]),
        decreases params.len() - i,
    {
        if params[i] == l {
            proof {
                lemma_first_where_is(params@, param_is(l), i as int);
            }
            return Some(i);
        }
        i = i + 1;
    }
    proof {
        lemma_first_where_none(params@, param_is(l));
    }
    None
}

fn flow_at(flows: &Vec<GradientFlow>, function: u32, position: u32) -> (r: Option<usize>)
    ensures
        match r {
            Some(i) => first_where(flows@, flow_is(function, position))
                == Some(i as int) && i < flows.len(),
            None => first_where(flows@, flow_is(function, position)) is None,
        },
{
    let mut i: usize = 0;
    while i < flows.len()
        invariant
            i <= flows.len(),
            forall|j: int| 0 <= j < i ==> !(flow_is(function, position))(#[trigger] flows@[j]),
        decreases flows.len() - i,
    {
        if flows[i].step_function == function && flows[i].gradient_position == position {
            proof {
                lemma_first_where_is(flows@, flow_is(function, position), i as int);
            }
            return Some(i);
        }
        i = i + 1;
    }
    proof {
        lemma_first_where_none(flows@, flow_is(function, position));
    }
    None
}

/// Whether an input slot reads a trainable parameter of the step function
/// `function` (see [`reads_param`]): such a slot's buffer is persistent
/// in-out state whatever its ABI role.
pub fn is_param_input(is_input: bool, source_local: Option<u32>, function: u32, updates: &Vec<ParamUpdate>) -> (r: bool)
    ensures
        r == reads_param(is_input, source_local, function, updates@),
{
    if !is_input {
        return false;
    }
    match source_local {
        None => false,
        Some(l) => {
            let mut u: usize = 0;
            while u < updates.len()
                invariant
                    u <= updates.len(),
                    is_input,
                    source_local == Some(l),
                    forall|j: int| 0 <= j < u ==> !((#[trigger] updates@[j]).step_function == function
                        && updates@[j].param_local == l),
                decreases updates.len() - u,
            {
                if updates[u].step_function == function && updates[u].param_local == l {
                    proof {
                        let w = u as int;
                        assert(0 <= w < updates@.len() && updates@[w].step_function == function && updates@[w].param_local == l);
                        assert(exists|x: int| 0 <= x < updates@.len() && (#[trigger] updates@[x]).step_function == function
                            && updates@[x].param_local == l);
                    }
                    return true;
                }
                u = u + 1;
            }
            false
        },
    }
}

/// The buffers a storage slot aliases before any join: the parameter buffer
/// an update output writes in place (see [`param_alias`]), and the gradient
/// buffer a step function's gradient input reads (see [`gradient_alias`]).
/// `updates` is in key order (step function, then parameter local); each
/// table's keys are distinct.
pub fn slot_aliases(
    is_input: bool,
    output_index: Option<u32>,
    source_local: Option<u32>,
    function: u32,
    params: &Vec<u32>,
    tuple_locals: &Vec<u32>,
    updates: &Vec<ParamUpdate>,
    param_buffers: &Vec<LocalBuffer>,
    flows: &Vec<GradientFlow>,
    gradient_buffers: &Vec<KeyedBuffer>,
) -> (r: (Option<u32>, Option<u32>))
    ensures
        r.0 == param_alias(output_index, source_local, tuple_locals@, updates@, param_buffers@),
        r.1 == gradient_alias(is_input, source_local, function, params@, flows@, gradient_buffers@),
{
    let alias_param = match (output_index, source_local) {
        (Some(oi), Some(l)) => {
            if (oi as u64) < (tuple_locals.len() as u64) && tuple_locals[oi as usize] == l {
                match first_update_writing(updates, oi) {
                    Some(u) => find_local_buffer(param_buffers, updates[u].param_local),
                    None => None,
                }
            } else {
                None
            }
        },
        _ => None,
    };
    let grad = if !is_input {
        None
    } else {
        match source_local {
            None => None,
            Some(l) => match param_position(params, l) {
                None => None,
                Some(pos) => {
                    let position: u32 = if pos as u64 <= u32::MAX as u64 {
                        pos as u32
                    } else {
                        u32::MAX
                    };
                    match flow_at(flows, function, position) {
                        Some(k) => find_keyed_buffer(gradient_buffers, flows[k].companion, flows[k].gradient_slot),
                        None => None,
                    }
                },
            },
        }
    };
    (alias_param, grad)
}

// ---------------------------------------------------------------------------
// Companion gradient slots
// ---------------------------------------------------------------------------

/// Whether a device-resident companion relation for `companion` selects an
/// input whose gradient the result-tuple slot `slot` holds.
pub open spec fn gradient_slot_of(relations: Seq<CompanionRelation>, companion: u32, slot: u32) -> bool {
    exists|r: int, i: int| 0 <= r < relations.len() && (#[trigger] relations[r]).device_resident
        && relations[r].companion == companion && 0 <= i < relations[r].selected_inputs@.len()
        && (#[trigger] relations[r].selected_inputs@[i]).gradient_slot == slot
}

/// Whether a whole-function kernel's output slot is a companion gradient
/// slot: the kernel is lowered from a companion source, and a
/// device-resident relation of that companion selects an input whose
/// gradient the slot's result-tuple index holds. Such a buffer is per-step
/// scratch, never an observation point. (A decomposed body's gradient slots
/// are marked from its return-tuple fields instead.)
pub fn is_companion_gradient_slot(
    whole_function: bool,
    source: Option<u32>,
    output_index: Option<u32>,
    relations: &Vec<CompanionRelation>,
) -> (r: bool)
    ensures
        r == (whole_function && match (source, output_index) {
            (Some(s), Some(oi)) => gradient_slot_of(relations@, s, oi),
            _ => false,
        }),
{
    if !whole_function {
        return false;
    }
    let (s, oi) = match (source, output_index) {
        (Some(s), Some(oi)) => (s, oi),
        _ => {
            return false;
        },
    };
    let mut r: usize = 0;
    while r < relations.len()
        invariant
            r <= relations.len(),
            whole_function,
            source == Some(s),
            output_index == Some(oi),
            forall|a: int, i: int| 0 <= a < r && (#[trigger] relations@[a]).device_resident && relations@[a].companion == s
                && 0 <= i < relations@[a].selected_inputs@.len() ==> (#[trigger] relations@[a].selected_inputs@[i]).gradient_slot != oi,
        decreases relations.len() - r,
    {
        let rel = &relations[r];
        if rel.device_resident && rel.companion == s {
            let mut i: usize = 0;
            while i < rel.selected_inputs.len()
                invariant
                    i <= rel.selected_inputs.len(),
                    r < relations.len(),
                    whole_function,
                    source == Some(s),
                    output_index == Some(oi),
                    rel == relations@[r as int],
                    rel.device_resident && rel.companion == s,
                    forall|j: int| 0 <= j < i ==> (#[trigger] rel.selected_inputs@[j]).gradient_slot != oi,
                decreases rel.selected_inputs.len() - i,
            {
                if rel.selected_inputs[i].gradient_slot == oi {
                    proof {
                        let (a, b) = (r as int, i as int);
                        assert(relations@[a].selected_inputs@[b].gradient_slot == oi);
                    }
                    return true;
                }
                i = i + 1;
            }
        }
        r = r + 1;
    }
    false
}

} // verus!
