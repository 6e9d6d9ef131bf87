//! The training-plan analysis of a package's entry loop: the repeating step
//! count, the trainable-parameter identity rows and the gradient-flow links,
//! all derived from the entry loop's value graph.
use vstd::prelude::*;
use crate::device::mir::Block;
use crate::device::mir::Callee;
use crate::device::mir::Constant;
use crate::device::schema::CompanionRelation;
use crate::device::schema::SelectedInput;
use crate::device::mir::Function;
use crate::device::mir::Operand;
use crate::device::mir::Place;
use crate::device::mir::Program;
use crate::device::mir::PlaceBase;
use crate::device::mir::Statement;
use crate::device::mir::Terminator;
use crate::device::mir::Value;
use crate::device::mir::is_plain_local;
use crate::device::mir::local_of;
use crate::device::mir::operand_local;
use crate::device::mir::statement_positions;
use crate::device::mir::statements_of;
use crate::search::first_where;
use crate::search::lemma_first_where_is;
use crate::search::lemma_first_where_none;
use crate::search::lemma_first_where_push;
use crate::search::lemma_first_where_some;
use crate::sorted_map::SortedMap;
use crate::sorted_map::entries_map;
use crate::sorted_map::sorted_insert;
use crate::device::mir::place_tuple_index;
use crate::device::mir::tuple_index;

verus! {

/// The declared step count of a repeating-step device program when the
/// manifest declares none.
pub const DEFAULT_TRAINING_STEPS: u32 = 100;

// ---------------------------------------------------------------------------
// Step-count admission
// ---------------------------------------------------------------------------

/// Why a declared step count is not admitted.
#[derive(Clone, Copy, Debug, PartialEq, Eq, Structural)]
pub enum StepCountError {
    /// The declared repeating step count contradicts the source training
    /// loop's constant bound.
    Contradicts { declared: u32, source: u32 },
}

/// A declared repeating step count must agree with the source loop bound
/// when the entry loop carries a constant bound; without one the declared
/// count applies.
pub fn admit_step_count(declared: u32, source: Option<u32>) -> (r: Result<u32, StepCountError>)
    ensures
        match source {
            Some(s) if s != declared => r == Err::<u32, StepCountError>(StepCountError::Contradicts { declared, source: s }),
            _ => r == Ok::<u32, StepCountError>(declared),
        },
{
    if let Some(s) = source {
        if declared != s {
            return Err(StepCountError::Contradicts { declared, source: s });
        }
    }
    Ok(declared)
}

// ---------------------------------------------------------------------------
// The source loop bound
// ---------------------------------------------------------------------------

/// A local's initialization: a literal integer, or a copy of another local.
#[derive(Clone, Copy, Debug, PartialEq, Eq, Structural)]
pub enum LocalDef {
    Const(i64),
    Copy(u32),
}

/// The definition a statement gives a local, if it is an initialization of
/// that plain local by a literal integer or by a plain local copy.
pub open spec fn def_given(s: Statement, local: u32) -> Option<LocalDef> {
    match s {
        Statement::Assign { place, value } => if is_plain_local(place, local) {
            match value {
                Value::Operand(Operand::Constant(Constant::Int(n))) => Some(LocalDef::Const(n)),
                Value::Operand(Operand::Place(inner)) => match inner.base {
                    PlaceBase::Local(other) => if inner.projections@.len() == 0 {
                        Some(LocalDef::Copy(other))
                    } else {
                        None
                    },
                    PlaceBase::Temp(_) => None,
                },
                _ => None,
            }
        } else {
            None
        },
        _ => None,
    }
}

/// A local's definition: the first initialization of it (the prelude
/// dominates the loop body's re-assignments).
pub open spec fn def_of(stmts: Seq<Statement>, local: u32) -> Option<LocalDef> {
    match first_where(stmts, |s: Statement| def_given(s, local) is Some) {
        Some(i) => def_given(stmts[i], local),
        None => None,
    }
}

/// Follow a local's copy chain for at most `fuel` steps to a literal.
pub open spec fn chase(stmts: Seq<Statement>, local: u32, fuel: nat) -> Option<i64>
    decreases fuel,
{
    if fuel == 0 {
        None
    } else {
        match def_of(stmts, local) {
            Some(LocalDef::Const(n)) => Some(n),
            Some(LocalDef::Copy(next)) => chase(stmts, next, (fuel - 1) as nat),
            None => None,
        }
    }
}

/// The literal a local resolves to through its copy chain. Every local of
/// the chain is defined by a distinct statement, so a chain that reaches a
/// literal does so within one step per statement; a chain that does not
/// (a missing definition or a cycle) resolves to none.
pub open spec fn resolved(stmts: Seq<Statement>, local: u32) -> Option<i64> {
    chase(stmts, local, stmts.len() + 1)
}

/// The temp a branch condition is, if it is one.
pub open spec fn branch_temp(t: Terminator) -> Option<u32> {
    match t {
        Terminator::Branch(Operand::Temp(temp)) => Some(temp),
        Terminator::Branch(Operand::Place(p)) => match p.base {
            PlaceBase::Temp(temp) => if p.projections@.len() == 0 {
                Some(temp)
            } else {
                None
            },
            PlaceBase::Local(_) => None,
        },
        _ => None,
    }
}

pub open spec fn opt_seq(o: Option<u32>) -> Seq<u32> {
    match o {
        Some(x) => seq![x],
        None => Seq::empty(),
    }
}

/// The locals a statement compares into the branch temp: the local operands
/// of a binary value assigned to it.
pub open spec fn compared_by(s: Statement, temp: u32) -> Seq<u32> {
    match s {
        Statement::Assign { place, value } => if place.base == PlaceBase::Temp(temp) {
            match value {
                Value::Binary(lhs, rhs) => opt_seq(local_of(lhs)) + opt_seq(local_of(rhs)),
                _ => Seq::empty(),
            }
        } else {
            Seq::empty()
        },
        _ => Seq::empty(),
    }
}

pub open spec fn compared_in(stmts: Seq<Statement>, temp: u32) -> Seq<u32>
    decreases stmts.len(),
{
    if stmts.len() == 0 {
        Seq::empty()
    } else {
        compared_in(stmts.drop_last(), temp) + compared_by(stmts.last(), temp)
    }
}

/// The locals the branch conditions compare (the loop guard), in block
/// order.
pub open spec fn compared_locals(blocks: Seq<Block>) -> Seq<u32>
    decreases blocks.len(),
{
    if blocks.len() == 0 {
        Seq::empty()
    } else {
        compared_locals(blocks.drop_last()) + match branch_temp(blocks.last().terminator) {
            Some(t) => compared_in(blocks.last().statements@, t),
            None => Seq::empty(),
        }
    }
}

/// A compared local's positive literal bound, saturated to `u32`.
pub open spec fn positive_bound(stmts: Seq<Statement>, local: u32) -> Option<u32> {
    match resolved(stmts, local) {
        Some(n) => if n > 0 {
            Some(if n <= u32::MAX { n as u32 } else { u32::MAX })
        } else {
            None
        },
        None => None,
    }
}

pub open spec fn max_opt(a: Option<u32>, b: Option<u32>) -> Option<u32> {
    match (a, b) {
        (Some(x), Some(y)) => Some(if x >= y { x } else { y }),
        (Some(x), None) => Some(x),
        (None, y) => y,
    }
}

/// The largest positive bound of the compared locals.
pub open spec fn max_bound(stmts: Seq<Statement>, locals: Seq<u32>) -> Option<u32>
    decreases locals.len(),
{
    if locals.len() == 0 {
        None
    } else {
        max_opt(max_bound(stmts, locals.drop_last()), positive_bound(stmts, locals.last()))
    }
}

/// The constant bound of an entry function's training loop: the largest
/// positive literal a branch condition's compared local resolves to.
pub open spec fn loop_bound(entry: Function) -> Option<u32> {
    max_bound(statements_of(entry.blocks@), compared_locals(entry.blocks@))
}

fn def_given_exec(s: &Statement, local: u32) -> (r: Option<LocalDef>)
    ensures
        r == def_given(*s, local),
{
    match s {
        Statement::Assign { place, value } => {
            if place.base == PlaceBase::Local(local) && place.projections.len() == 0 {
                match value {
                    Value::Operand(Operand::Constant(Constant::Int(n))) => Some(LocalDef::Const(*n)),
                    Value::Operand(Operand::Place(inner)) => match inner.base {
                        PlaceBase::Local(other) => if inner.projections.len() == 0 {
                            Some(LocalDef::Copy(other))
                        } else {
                            None
                        },
                        PlaceBase::Temp(_) => None,
                    },
                    _ => None,
                }
            } else {
                None
            }
        },
        _ => None,
    }
}

/// The local an assignment statement initializes, if it is an assignment
/// to a plain local.
pub open spec fn assigned_local(s: Statement) -> Option<u32> {
    match s {
        Statement::Assign { place, value } => match place.base {
            PlaceBase::Local(l) => if place.projections@.len() == 0 {
                Some(l)
            } else {
                None
            },
            PlaceBase::Temp(_) => None,
        },
        _ => None,
    }
}

proof fn lemma_def_given_local(s: Statement, local: u32)
    ensures
        def_given(s, local) is Some ==> assigned_local(s) == Some(local),
{
}

/// The local definitions of a statement list, as a map from local to its
/// first initialization.
fn local_defs(blocks: &Vec<Block>, pos: &Vec<(usize, usize)>) -> (defs: SortedMap<LocalDef>)
    requires
        pos@.len() == statements_of(blocks@).len(),
        forall|k: int| 0 <= k < pos@.len() ==> {
            &&& (#[trigger] pos@[k]).0 < blocks@.len()
            &&& pos@[k].1 < blocks@[pos@[k].0 as int].statements@.len()
            &&& blocks@[pos@[k].0 as int].statements@[pos@[k].1 as int] == statements_of(blocks@)[k]
        },
    ensures
        defs.wf(),
        forall|l: u32| #[trigger] defs@.dom().contains(l as u64) <==> def_of(statements_of(blocks@), l) is Some,
        forall|l: u32| defs@.dom().contains(l as u64) ==> Some(#[trigger] defs@[l as u64]) == def_of(statements_of(blocks@), l),
        forall|k: u64| #[trigger] defs@.dom().contains(k) ==> k <= u32::MAX,
{
    let ghost stmts = statements_of(blocks@);
    let mut defs: SortedMap<LocalDef> = SortedMap::new();
    let mut k: usize = 0;
    while k < pos.len()
        invariant
            k <= pos.len(),
            stmts == statements_of(blocks@),
            pos@.len() == stmts.len(),
            forall|m: int| 0 <= m < pos@.len() ==> {
                &&& (#[trigger] pos@[m]).0 < blocks@.len()
                &&& pos@[m].1 < blocks@[pos@[m].0 as int].statements@.len()
                &&& blocks@[pos@[m].0 as int].statements@[pos@[m].1 as int] == stmts[m]
            },
            defs.wf(),
            forall|l: u32| #[trigger] defs@.dom().contains(l as u64) <==> def_of(stmts.take(k as int), l) is Some,
            forall|l: u32| defs@.dom().contains(l as u64) ==> Some(#[trigger] defs@[l as u64]) == def_of(stmts.take(k as int), l),
            forall|key: u64| #[trigger] defs@.dom().contains(key) ==> key <= u32::MAX,
        decreases pos.len() - k,
    {
        let (b, j) = pos[k];
        let s = &blocks[b].statements[j];
        let ghost prefix = stmts.take(k as int);
        assert(stmts.take(k + 1) =~= prefix.push(*s));
        if let Statement::Assign { place, value: _ } = s {
            if let PlaceBase::Local(local) = place.base {
                if place.projections.len() == 0 {
                    let d = def_given_exec(s, local);
                    if let Some(d) = d {
                        if defs.get(local as u64).is_none() {
                            defs.insert(local as u64, d);
                        }
                    }
                }
            }
        }
        proof {
            assert forall|l: u32| #[trigger] defs@.dom().contains(l as u64) <==> def_of(stmts.take(k + 1), l) is Some by {
                lemma_def_given_local(*s, l);
                lemma_first_where_push(prefix, *s, |s2: Statement| def_given(s2, l) is Some);
                match first_where(prefix, |s2: Statement| def_given(s2, l) is Some) {
                    Some(i) => {
                        lemma_first_where_some(prefix, |s2: Statement| def_given(s2, l) is Some);
                    },
                    None => {},
                }
            }
            assert forall|l: u32| defs@.dom().contains(l as u64) implies Some(#[trigger] defs@[l as u64]) == def_of(stmts.take(k + 1), l) by {
                lemma_def_given_local(*s, l);
                lemma_first_where_push(prefix, *s, |s2: Statement| def_given(s2, l) is Some);
                match first_where(prefix, |s2: Statement| def_given(s2, l) is Some) {
                    Some(i) => {
                        lemma_first_where_some(prefix, |s2: Statement| def_given(s2, l) is Some);
                        assert(stmts.take(k + 1)[i] == prefix[i]);
                    },
                    None => {
                        assert(stmts.take(k + 1)[prefix.len() as int] == *s);
                    },
                }
            }
        }
        k = k + 1;
    }
    assert(stmts.take(stmts.len() as int) =~= stmts);
    defs
}

/// The literal a local resolves to (see [`resolved`]), given the local
/// definitions of the statements.
fn resolve_local(defs: &SortedMap<LocalDef>, n: usize, local: u32, Ghost(stmts): Ghost<Seq<Statement>>) -> (r: Option<i64>)
    requires
        defs.wf(),
        n == stmts.len(),
        forall|l: u32| #[trigger] defs@.dom().contains(l as u64) <==> def_of(stmts, l) is Some,
        forall|l: u32| defs@.dom().contains(l as u64) ==> Some(#[trigger] defs@[l as u64]) == def_of(stmts, l),
    ensures
        r == resolved(stmts, local),
{
    let mut current = local;
    let mut taken: usize = 0;
    loop
        invariant
            defs.wf(),
            n == stmts.len(),
            forall|l: u32| #[trigger] defs@.dom().contains(l as u64) <==> def_of(stmts, l) is Some,
            forall|l: u32| defs@.dom().contains(l as u64) ==> Some(#[trigger] defs@[l as u64]) == def_of(stmts, l),
            taken <= n,
            resolved(stmts, local) == chase(stmts, current, (n + 1 - taken) as nat),
        decreases n - taken,
    {
        let d = defs.get(current as u64);
        match d {
            None => {
                return None;
            },
            Some(LocalDef::Const(v)) => {
                return Some(v);
            },
            Some(LocalDef::Copy(next)) => {
                if taken == n {
                    return None;
                }
                current = next;
                taken = taken + 1;
            },
        }
    }
}

fn branch_temp_exec(t: &Terminator) -> (r: Option<u32>)
    ensures
        r == branch_temp(*t),
{
    match t {
        Terminator::Branch(Operand::Temp(temp)) => Some(*temp),
        Terminator::Branch(Operand::Place(p)) => match p.base {
            PlaceBase::Temp(temp) => if p.projections.len() == 0 {
                Some(temp)
            } else {
                None
            },
            PlaceBase::Local(_) => None,
        },
        _ => None,
    }
}

fn compared_locals_exec(blocks: &Vec<Block>) -> (out: Vec<u32>)
    ensures
        out@ == compared_locals(blocks@),
{
    let mut out: Vec<u32> = Vec::new();
    let mut b: usize = 0;
    while b < blocks.len()
        invariant
            b <= blocks.len(),
            out@ == compared_locals(blocks@.take(b as int)),
        decreases blocks.len() - b,
    {
        assert(blocks@.take(b + 1).drop_last() =~= blocks@.take(b as int));
        assert(blocks@.take(b + 1).last() == blocks@[b as int]);
        let block = &blocks[b];
        if let Some(t) = branch_temp_exec(&block.terminator) {
            let ghost base = out@;
            let mut j: usize = 0;
            while j < block.statements.len()
                invariant
                    j <= block.statements.len(),
                    out@ == base + compared_in(block.statements@.take(j as int), t),
                decreases block.statements.len() - j,
            {
                assert(block.statements@.take(j + 1).drop_last() =~= block.statements@.take(j as int));
                assert(block.statements@.take(j + 1).last() == block.statements@[j as int]);
                let ghost before = out@;
                if let Statement::Assign { place, value } = &block.statements[j] {
                    if place.base == PlaceBase::Temp(t) {
                        if let Value::Binary(lhs, rhs) = value {
                            if let Some(l) = operand_local(lhs) {
                                out.push(l);
                            }
                            if let Some(l) = operand_local(rhs) {
                                out.push(l);
                            }
                        }
                    }
                }
                assert(out@ =~= before + compared_by(block.statements@[j as int], t));
                j = j + 1;
                assert(out@ =~= base + compared_in(block.statements@.take(j as int), t));
            }
            assert(block.statements@.take(block.statements@.len() as int) =~= block.statements@);
        } else {
            assert(out@ =~= compared_locals(blocks@.take(b + 1)));
        }
        b = b + 1;
    }
    assert(blocks@.take(blocks@.len() as int) =~= blocks@);
    out
}

/// The constant bound of an entry function's training loop (see
/// [`loop_bound`]); none when the loop bound is not a literal.
pub fn source_loop_bound(entry: &Function) -> (r: Option<u32>)
    ensures
        r == loop_bound(*entry),
{
    let ghost stmts = statements_of(entry.blocks@);
    let pos = statement_positions(&entry.blocks);
    let defs = local_defs(&entry.blocks, &pos);
    let compared = compared_locals_exec(&entry.blocks);
    let n = pos.len();
    let mut best: Option<u32> = None;
    let mut i: usize = 0;
    while i < compared.len()
        invariant
            i <= compared.len(),
            n == stmts.len(),
            stmts == statements_of(entry.blocks@),
            defs.wf(),
            forall|l: u32| #[trigger] defs@.dom().contains(l as u64) <==> def_of(stmts, l) is Some,
            forall|l: u32| defs@.dom().contains(l as u64) ==> Some(#[trigger] defs@[l as u64]) == def_of(stmts, l),
            best == max_bound(stmts, compared@.take(i as int)),
        decreases compared.len() - i,
    {
        assert(compared@.take(i + 1).drop_last() =~= compared@.take(i as int));
        assert(compared@.take(i + 1).last() == compared@[i as int]);
        let bound: Option<u32> = match resolve_local(&defs, n, compared[i], Ghost(stmts)) {
            Some(v) => if v > 0 {
                Some(if v <= u32::MAX as i64 { v as u32 } else { u32::MAX })
            } else {
                None
            },
            None => None,
        };
        best = match (best, bound) {
            (Some(x), Some(y)) => Some(if x >= y { x } else { y }),
            (Some(x), None) => Some(x),
            (None, y) => y,
        };
        i = i + 1;
    }
    assert(compared@.take(compared@.len() as int) =~= compared@);
    best
}

// ---------------------------------------------------------------------------
// Return tuples and step-write verification
// ---------------------------------------------------------------------------

/// The base of the place a return operand names: a temp, or a place with no
/// projection.
pub open spec fn returned_base(t: Terminator) -> Option<PlaceBase> {
    match t {
        Terminator::Return(Some(Operand::Temp(temp))) => Some(PlaceBase::Temp(temp)),
        Terminator::Return(Some(Operand::Place(p))) => if p.projections@.len() == 0 {
            Some(p.base)
        } else {
            None
        },
        _ => None,
    }
}

/// A construction of exactly the given plain place.
pub open spec fn constructs(s: Statement, base: PlaceBase) -> bool {
    match s {
        Statement::Construct { place, fields } => place.base == base && place.projections@.len() == 0,
        _ => false,
    }
}

/// The local operands of a list, in order.
pub open spec fn operand_locals(ops: Seq<Operand>) -> Seq<u32>
    decreases ops.len(),
{
    if ops.len() == 0 {
        Seq::empty()
    } else {
        operand_locals(ops.drop_last()) + opt_seq(local_of(ops.last()))
    }
}

/// The return-tuple element locals of a function: the local fields of the
/// first construction, in the first block, of the place the first block
/// returns; none when there is no such construction or it has no local
/// field.
pub open spec fn return_tuple_locals(f: Function) -> Option<Seq<u32>> {
    if f.blocks@.len() == 0 {
        None
    } else {
        let block = f.blocks@[0];
        match returned_base(block.terminator) {
            Some(base) => match first_where(block.statements@, |s: Statement| constructs(s, base)) {
                Some(i) => match block.statements@[i] {
                    Statement::Construct { place, fields } => if operand_locals(fields@).len() == 0 {
                        None
                    } else {
                        Some(operand_locals(fields@))
                    },
                    _ => None,
                },
                None => None,
            },
            None => None,
        }
    }
}

fn locals_of_operands(ops: &Vec<Operand>) -> (out: Vec<u32>)
    ensures
        out@ == operand_locals(ops@),
{
    let mut out: Vec<u32> = Vec::new();
    let mut i: usize = 0;
    while i < ops.len()
        invariant
            i <= ops.len(),
            out@ == operand_locals(ops@.take(i as int)),
        decreases ops.len() - i,
    {
        assert(ops@.take(i + 1).drop_last() =~= ops@.take(i as int));
        assert(ops@.take(i + 1).last() == ops@[i as int]);
        let ghost before = out@;
        if let Some(l) = operand_local(&ops[i]) {
            out.push(l);
        }
        assert(out@ =~= before + opt_seq(local_of(ops@[i as int])));
        i = i + 1;
    }
    assert(ops@.take(ops@.len() as int) =~= ops@);
    out
}

/// The return-tuple element locals of a tuple-return function (see
/// [`return_tuple_locals`]).
pub fn tuple_return_locals(f: &Function) -> (r: Option<Vec<u32>>)
    ensures
        match r {
            Some(v) => return_tuple_locals(*f) == Some(v@),
            None => return_tuple_locals(*f) is None,
        },
{
    if f.blocks.len() == 0 {
        return None;
    }
    let block = &f.blocks[0];
    let base = match &block.terminator {
        Terminator::Return(Some(Operand::Temp(temp))) => PlaceBase::Temp(*temp),
        Terminator::Return(Some(Operand::Place(p))) => {
            if p.projections.len() == 0 {
                p.base
            } else {
                return None;
            }
        },
        _ => {
            return None;
        },
    };
    assert(returned_base(block.terminator) == Some(base));
    let ghost p = |s: Statement| constructs(s, base);
    let mut i: usize = 0;
    while i < block.statements.len()
        invariant
            i <= block.statements.len(),
            f.blocks@.len() > 0,
            *block == f.blocks@[0],
            returned_base(f.blocks@[0].terminator) == Some(base),
            p == (|s: Statement| constructs(s, base)),
            forall|j: int| 0 <= j < i ==> !p(#[trigger] block.statements@[j]),
        decreases block.statements.len() - i,
    {
        if let Statement::Construct { place, fields } = &block.statements[i] {
            if place.base == base && place.projections.len() == 0 {
                proof {
                    lemma_first_where_is(block.statements@, p, i as int);
                }
                let locals = locals_of_operands(fields);
                if locals.len() == 0 {
                    return None;
                }
                return Some(locals);
            }
        }
        i = i + 1;
    }
    proof {
        lemma_first_where_none(block.statements@, p);
    }
    None
}

/// Whether some operand of a list is the local.
pub open spec fn operands_read(ops: Seq<Operand>, local: u32) -> bool {
    exists|k: int| 0 <= k < ops.len() && local_of(#[trigger] ops[k]) == Some(local)
}

/// Whether a statement reads the local in any operand or value position.
pub open spec fn reads_local(s: Statement, local: u32) -> bool {
    match s {
        Statement::Assign { place, value } => match value {
            Value::Operand(op) => local_of(op) == Some(local),
            Value::Unary(op) => local_of(op) == Some(local),
            Value::Binary(lhs, rhs) => local_of(lhs) == Some(local) || local_of(rhs) == Some(local),
            Value::Other => false,
        },
        Statement::RuntimeCall { destination, intrinsic: _, args } => operands_read(args@, local),
        Statement::Call { destination, callee, args } => operands_read(args@, local),
        Statement::Construct { place, fields } => operands_read(fields@, local),
    }
}

fn operands_read_exec(ops: &Vec<Operand>, local: u32) -> (r: bool)
    ensures
        r == operands_read(ops@, local),
{
    let mut i: usize = 0;
    while i < ops.len()
        invariant
            i <= ops.len(),
            forall|k: int| 0 <= k < i ==> local_of(#[trigger] ops@[k]) != Some(local),
        decreases ops.len() - i,
    {
        if operand_local(&ops[i]) == Some(local) {
            return true;
        }
        i = i + 1;
    }
    false
}

/// Whether a statement reads the local (see [`reads_local`]).
pub fn statement_reads_local(s: &Statement, local: u32) -> (r: bool)
    ensures
        r == reads_local(*s, local),
{
    match s {
        Statement::Assign { place: _, value } => match value {
            Value::Operand(op) => operand_local(op) == Some(local),
            Value::Unary(op) => operand_local(op) == Some(local),
            Value::Binary(lhs, rhs) => operand_local(lhs) == Some(local) || operand_local(rhs) == Some(local),
            Value::Other => false,
        },
        Statement::RuntimeCall { destination: _, intrinsic: _, args } => operands_read_exec(args, local),
        Statement::Call { destination: _, callee: _, args } => operands_read_exec(args, local),
        Statement::Construct { place: _, fields } => operands_read_exec(fields, local),
    }
}

/// The temp an assignment's value is a plain copy of, if any.
pub open spec fn value_temp(s: Statement) -> Option<u32> {
    match s {
        Statement::Assign { place, value } => match value {
            Value::Operand(Operand::Temp(t)) => Some(t),
            Value::Operand(Operand::Place(p)) => match p.base {
                PlaceBase::Temp(t) => if p.projections@.len() == 0 {
                    Some(t)
                } else {
                    None
                },
                PlaceBase::Local(_) => None,
            },
            _ => None,
        },
        _ => None,
    }
}

pub fn statement_value_temp(s: &Statement) -> (r: Option<u32>)
    ensures
        r == value_temp(*s),
{
    match s {
        Statement::Assign { place: _, value } => match value {
            Value::Operand(Operand::Temp(t)) => Some(*t),
            Value::Operand(Operand::Place(p)) => match p.base {
                PlaceBase::Temp(t) => if p.projections.len() == 0 {
                    Some(t)
                } else {
                    None
                },
                PlaceBase::Local(_) => None,
            },
            _ => None,
        },
        _ => None,
    }
}

/// The place a statement writes, if it names one.
pub open spec fn destination_of(s: Statement) -> Option<Place> {
    match s {
        Statement::Assign { place, value } => Some(place),
        Statement::Construct { place, fields } => Some(place),
        Statement::RuntimeCall { destination, intrinsic: _, args } => destination,
        Statement::Call { destination, callee, args } => destination,
    }
}

fn destination_exec(s: &Statement) -> (r: Option<&Place>)
    ensures
        match r {
            Some(p) => destination_of(*s) == Some(*p),
            None => destination_of(*s) is None,
        },
{
    match s {
        Statement::Assign { place, value: _ } => Some(place),
        Statement::Construct { place, fields: _ } => Some(place),
        Statement::RuntimeCall { destination, intrinsic: _, args: _ } => match destination {
            Some(p) => Some(p),
            None => None,
        },
        Statement::Call { destination, callee: _, args: _ } => match destination {
            Some(p) => Some(p),
            None => None,
        },
    }
}

/// The temp a statement's destination is, if it is a plain temp.
pub open spec fn dest_temp(s: Statement) -> Option<u32> {
    match destination_of(s) {
        Some(p) => match p.base {
            PlaceBase::Temp(t) => if p.projections@.len() == 0 {
                Some(t)
            } else {
                None
            },
            PlaceBase::Local(_) => None,
        },
        None => None,
    }
}

pub fn statement_dest_temp(s: &Statement) -> (r: Option<u32>)
    ensures
        r == dest_temp(*s),
{
    match destination_exec(s) {
        Some(p) => match p.base {
            PlaceBase::Temp(t) => if p.projections.len() == 0 {
                Some(t)
            } else {
                None
            },
            PlaceBase::Local(_) => None,
        },
        None => None,
    }
}

/// Whether a statement writes exactly the plain local.
pub open spec fn writes_local(s: Statement, local: u32) -> bool {
    match destination_of(s) {
        Some(p) => is_plain_local(p, local),
        None => false,
    }
}

/// Whether the statement that defines `dest` (the first one writing it)
/// reads `source`, directly or through the one temp its value copies
/// (produced by a statement that reads `source`).
pub open spec fn defining_reads(f: Function, dest: u32, source: u32) -> bool {
    let stmts = statements_of(f.blocks@);
    match first_where(stmts, |s: Statement| writes_local(s, dest)) {
        Some(i) => reads_local(stmts[i], source) || match value_temp(stmts[i]) {
            Some(t) => exists|k: int| 0 <= k < stmts.len() && dest_temp(#[trigger] stmts[k]) == Some(t)
                && reads_local(stmts[k], source),
            None => false,
        },
        None => false,
    }
}

/// Whether the statement defining `dest` reads `source` (see
/// [`defining_reads`]): the step-write verification that an update local is
/// computed from the pre-update parameter.
pub fn statement_defining_reads(f: &Function, dest: u32, source: u32) -> (r: bool)
    ensures
        r == defining_reads(*f, dest, source),
{
    let ghost stmts = statements_of(f.blocks@);
    let pos = statement_positions(&f.blocks);
    let ghost p = |s: Statement| writes_local(s, dest);
    let mut k: usize = 0;
    while k < pos.len()
        invariant
            k <= pos.len(),
            stmts == statements_of(f.blocks@),
            pos@.len() == stmts.len(),
            forall|m: int| 0 <= m < pos@.len() ==> {
                &&& (#[trigger] pos@[m]).0 < f.blocks@.len()
                &&& pos@[m].1 < f.blocks@[pos@[m].0 as int].statements@.len()
                &&& f.blocks@[pos@[m].0 as int].statements@[pos@[m].1 as int] == stmts[m]
            },
            p == (|s: Statement| writes_local(s, dest)),
            forall|j: int| 0 <= j < k ==> !p(#[trigger] stmts[j]),
        decreases pos.len() - k,
    {
        let (b, j) = pos[k];
        let s = &f.blocks[b].statements[j];
        let w = match destination_exec(s) {
            Some(place) => place.base == PlaceBase::Local(dest) && place.projections.len() == 0,
            None => false,
        };
        if w {
            proof {
                lemma_first_where_is(stmts, p, k as int);
            }
            if statement_reads_local(s, source) {
                return true;
            }
            if let Some(t) = statement_value_temp(s) {
                let mut m: usize = 0;
                while m < pos.len()
                    invariant
                        m <= pos.len(),
                        pos@.len() == stmts.len(),
                        forall|q: int| 0 <= q < pos@.len() ==> {
                            &&& (#[trigger] pos@[q]).0 < f.blocks@.len()
                            &&& pos@[q].1 < f.blocks@[pos@[q].0 as int].statements@.len()
                            &&& f.blocks@[pos@[q].0 as int].statements@[pos@[q].1 as int] == stmts[q]
                        },
                        forall|q: int| 0 <= q < m ==> !(dest_temp(#[trigger] stmts[q]) == Some(t) && reads_local(stmts[q], source)),
                        stmts == statements_of(f.blocks@),
                        k < stmts.len(),
                        first_where(stmts, |s: Statement| writes_local(s, dest)) == Some(k as int),
                        value_temp(stmts[k as int]) == Some(t),
                    decreases pos.len() - m,
                {
                    let (b2, j2) = pos[m];
                    let producer = &f.blocks[b2].statements[j2];
                    if statement_dest_temp(producer) == Some(t) && statement_reads_local(producer, source) {
                        return true;
                    }
                    m = m + 1;
                }
            }
            return false;
        }
        k = k + 1;
    }
    proof {
        lemma_first_where_none(stmts, p);
    }
    false
}

// ---------------------------------------------------------------------------
// The tuple trace of the entry loop
// ---------------------------------------------------------------------------

/// The key of a pair of `u32`s, ordered as the pair is.
pub open spec fn pair_key(a: u32, b: u32) -> u64 {
    (a as int * 0x1_0000_0000 + b as int) as u64
}

pub fn pair_key_exec(a: u32, b: u32) -> (k: u64)
    ensures
        k == pair_key(a, b),
{
    assert(a as int * 0x1_0000_0000 + b as int <= u64::MAX) by (nonlinear_arith)
        requires
            a <= u32::MAX,
            b <= u32::MAX,
    ;
    (a as u64) * 0x1_0000_0000 + (b as u64)
}

/// How tuple-return call results are unpacked into locals, as ascending
/// entry lists: a local plain-copied from a call-destination temp, and a
/// local extracted from a (call-destination temp, element index).
pub struct TupleTrace {
    pub plain_copy: SortedMap<u32>,
    pub extract: SortedMap<(u32, u32)>,
}

pub type TraceSpec = (Seq<(u64, u32)>, Seq<(u64, (u32, u32))>);

/// The trace after one more statement: `local <- Temp(t)` records a plain
/// copy; `local <- Temp(t)[i]`, or `local <- l[i]` where `l` was plain-copied
/// from `t`, records an extraction; `local <- Place` without an index
/// records a plain copy of the place's temp.
pub open spec fn trace_step(st: TraceSpec, s: Statement) -> TraceSpec {
    match s {
        Statement::Assign { place, value } => match assigned_local(s) {
            Some(local) => match value {
                Value::Operand(Operand::Temp(t)) => (sorted_insert(st.0, local as u64, t), st.1),
                Value::Operand(Operand::Place(inner)) => {
                    let base: Option<u32> = match inner.base {
                        PlaceBase::Temp(t) => Some(t),
                        PlaceBase::Local(other) => if entries_map(st.0).dom().contains(other as u64) {
                            Some(entries_map(st.0)[other as u64])
                        } else {
                            None
                        },
                    };
                    match base {
                        Some(t) => match tuple_index(inner) {
                            Some(i) => (st.0, sorted_insert(st.1, local as u64, (t, i))),
                            None => (sorted_insert(st.0, local as u64, t), st.1),
                        },
                        None => st,
                    }
                },
                _ => st,
            },
            None => st,
        },
        _ => st,
    }
}

pub open spec fn trace_of(stmts: Seq<Statement>) -> TraceSpec
    decreases stmts.len(),
{
    if stmts.len() == 0 {
        (Seq::empty(), Seq::empty())
    } else {
        trace_step(trace_of(stmts.drop_last()), stmts.last())
    }
}

/// Build the tuple trace of a function's statements (see [`trace_step`]).
pub fn build_tuple_trace(f: &Function) -> (t: TupleTrace)
    ensures
        t.plain_copy.wf(),
        t.extract.wf(),
        (t.plain_copy.entries@, t.extract.entries@) == trace_of(statements_of(f.blocks@)),
{
    let ghost stmts = statements_of(f.blocks@);
    let pos = statement_positions(&f.blocks);
    let mut t = TupleTrace { plain_copy: SortedMap::new(), extract: SortedMap::new() };
    let mut k: usize = 0;
    while k < pos.len()
        invariant
            k <= pos.len(),
            stmts == statements_of(f.blocks@),
            pos@.len() == stmts.len(),
            forall|m: int| 0 <= m < pos@.len() ==> {
                &&& (#[trigger] pos@[m]).0 < f.blocks@.len()
                &&& pos@[m].1 < f.blocks@[pos@[m].0 as int].statements@.len()
                &&& f.blocks@[pos@[m].0 as int].statements@[pos@[m].1 as int] == stmts[m]
            },
            t.plain_copy.wf(),
            t.extract.wf(),
            (t.plain_copy.entries@, t.extract.entries@) == trace_of(stmts.take(k as int)),
        decreases pos.len() - k,
    {
        let (b, j) = pos[k];
        let s = &f.blocks[b].statements[j];
        assert(stmts.take(k + 1).drop_last() =~= stmts.take(k as int));
        assert(stmts.take(k + 1).last() == *s);
        if let Statement::Assign { place, value } = s {
            if let PlaceBase::Local(local) = place.base {
                if place.projections.len() == 0 {
                    match value {
                        Value::Operand(Operand::Temp(temp)) => {
                            t.plain_copy.insert(local as u64, *temp);
                        },
                        Value::Operand(Operand::Place(inner)) => {
                            let base: Option<u32> = match inner.base {
                                PlaceBase::Temp(temp) => Some(temp),
                                PlaceBase::Local(other) => t.plain_copy.get(other as u64),
                            };
                            if let Some(temp) = base {
                                match place_tuple_index(inner) {
                                    Some(i) => {
                                        t.extract.insert(local as u64, (temp, i));
                                    },
                                    None => {
                                        t.plain_copy.insert(local as u64, temp);
                                    },
                                }
                            }
                        },
                        _ => {},
                    }
                }
            }
        }
        k = k + 1;
    }
    assert(stmts.take(stmts.len() as int) =~= stmts);
    t
}

/// The (call-destination temp, element index) an assignment value extracts:
/// `Temp(t)[i]`; `l[i]` where `l` was plain-copied from `t`; or a plain
/// re-binding of a local that was itself extracted.
pub open spec fn tuple_element_of(value: Value, tr: TraceSpec) -> Option<(u32, u32)> {
    match value {
        Value::Operand(Operand::Place(place)) => match place.base {
            PlaceBase::Temp(t) => match tuple_index(place) {
                Some(i) => Some((t, i)),
                None => None,
            },
            PlaceBase::Local(l) => if place.projections@.len() == 0 {
                if entries_map(tr.1).dom().contains(l as u64) {
                    Some(entries_map(tr.1)[l as u64])
                } else {
                    None
                }
            } else if entries_map(tr.0).dom().contains(l as u64) {
                match tuple_index(place) {
                    Some(i) => Some((entries_map(tr.0)[l as u64], i)),
                    None => None,
                }
            } else {
                None
            },
        },
        _ => None,
    }
}

/// The tuple element an assignment value extracts (see
/// [`tuple_element_of`]).
pub fn tuple_index_of(value: &Value, trace: &TupleTrace) -> (r: Option<(u32, u32)>)
    requires
        trace.plain_copy.wf(),
        trace.extract.wf(),
    ensures
        r == tuple_element_of(*value, (trace.plain_copy.entries@, trace.extract.entries@)),
{
    match value {
        Value::Operand(Operand::Place(place)) => match place.base {
            PlaceBase::Temp(t) => match place_tuple_index(place) {
                Some(i) => Some((t, i)),
                None => None,
            },
            PlaceBase::Local(l) => {
                if place.projections.len() == 0 {
                    trace.extract.get(l as u64)
                } else {
                    match trace.plain_copy.get(l as u64) {
                        Some(t) => match place_tuple_index(place) {
                            Some(i) => Some((t, i)),
                            None => None,
                        },
                        None => None,
                    }
                }
            },
        },
        _ => None,
    }
}

// ---------------------------------------------------------------------------
// Calls to device-resident backward companions
// ---------------------------------------------------------------------------

/// What the entry loop's calls to device-resident companions carry, as
/// ascending entry lists: the locals passed at a selected primal input
/// position; for each such local, the (companion, gradient slot) of its
/// selection; and for each (companion, result-tuple slot), the local that
/// slot's value is extracted into.
pub struct CompanionCalls {
    pub selected: SortedMap<bool>,
    pub gradient_slots: SortedMap<(u32, u32)>,
    pub tuple_locals: SortedMap<u32>,
}

pub type CallsSpec = (Seq<(u64, bool)>, Seq<(u64, (u32, u32))>, Seq<(u64, u32)>);

/// The first device-resident companion relation of a companion definition.
pub open spec fn device_companion_of(companions: Seq<CompanionRelation>, source: u32) -> Option<int> {
    first_where(companions, |c: CompanionRelation| c.device_resident && c.companion == source)
}

/// Record the locals passed at a companion's selected input positions.
pub open spec fn select_inputs(
    st: (Seq<(u64, bool)>, Seq<(u64, (u32, u32))>),
    inputs: Seq<SelectedInput>,
    args: Seq<Operand>,
    source: u32,
) -> (Seq<(u64, bool)>, Seq<(u64, (u32, u32))>)
    decreases inputs.len(),
{
    if inputs.len() == 0 {
        st
    } else {
        let prev = select_inputs(st, inputs.drop_last(), args, source);
        let sel = inputs.last();
        if sel.position < args.len() {
            match local_of(args[sel.position as int]) {
                Some(l) => (sorted_insert(prev.0, l as u64, true), sorted_insert(prev.1, l as u64, (source, sel.gradient_slot))),
                None => prev,
            }
        } else {
            prev
        }
    }
}

/// Record, in ascending local order, the locals extracted from a call's
/// result temp under (companion, element index).
pub open spec fn record_extractions(tl: Seq<(u64, u32)>, ex: Seq<(u64, (u32, u32))>, source: u32, temp: u32) -> Seq<(u64, u32)>
    decreases ex.len(),
{
    if ex.len() == 0 {
        tl
    } else {
        let prev = record_extractions(tl, ex.drop_last(), source, temp);
        let e = ex.last();
        if e.1.0 == temp {
            sorted_insert(prev, pair_key(source, e.1.1), e.0 as u32)
        } else {
            prev
        }
    }
}

/// The companion-call facts after one more statement.
pub open spec fn calls_step(st: CallsSpec, s: Statement, companions: Seq<CompanionRelation>, ex: Seq<(u64, (u32, u32))>) -> CallsSpec {
    match s {
        Statement::Call { destination, callee, args } => match callee {
            Callee::Definition(source) => match device_companion_of(companions, source) {
                Some(ci) => {
                    let sel = select_inputs((st.0, st.1), companions[ci].selected_inputs@, args@, source);
                    let tl = match destination {
                        Some(d) => match d.base {
                            PlaceBase::Temp(temp) => if d.projections@.len() == 0 {
                                record_extractions(st.2, ex, source, temp)
                            } else {
                                st.2
                            },
                            PlaceBase::Local(_) => st.2,
                        },
                        None => st.2,
                    };
                    (sel.0, sel.1, tl)
                },
                None => st,
            },
            Callee::Other => st,
        },
        _ => st,
    }
}

pub open spec fn calls_of(stmts: Seq<Statement>, companions: Seq<CompanionRelation>, ex: Seq<(u64, (u32, u32))>) -> CallsSpec
    decreases stmts.len(),
{
    if stmts.len() == 0 {
        (Seq::empty(), Seq::empty(), Seq::empty())
    } else {
        calls_step(calls_of(stmts.drop_last(), companions, ex), stmts.last(), companions, ex)
    }
}

fn find_device_companion(companions: &Vec<CompanionRelation>, source: u32) -> (r: Option<usize>)
    ensures
        match r {
            Some(i) => device_companion_of(companions@, source) == Some(i as int),
            None => device_companion_of(companions@, source) is None,
        },
{
    let ghost p = |c: CompanionRelation| c.device_resident && c.companion == source;
    let mut i: usize = 0;
    while i < companions.len()
        invariant
            i <= companions.len(),
            p == (|c: CompanionRelation| c.device_resident && c.companion == source),
            forall|j: int| 0 <= j < i ==> !p(#[trigger] companions@[j]),
        decreases companions.len() - i,
    {
        if companions[i].device_resident && companions[i].companion == source {
            proof {
                lemma_first_where_is(companions@, p, i as int);
            }
            return Some(i);
        }
        i = i + 1;
    }
    proof {
        lemma_first_where_none(companions@, p);
    }
    None
}

/// The entry loop's calls to device-resident backward companions (see
/// [`calls_step`]), over the entry function's tuple trace.
pub fn companion_calls(entry: &Function, companions: &Vec<CompanionRelation>) -> (c: CompanionCalls)
    ensures
        c.selected.wf(),
        c.gradient_slots.wf(),
        c.tuple_locals.wf(),
        (c.selected.entries@, c.gradient_slots.entries@, c.tuple_locals.entries@)
            == calls_of(statements_of(entry.blocks@), companions@, trace_of(statements_of(entry.blocks@)).1),
{
    let ghost stmts = statements_of(entry.blocks@);
    let trace = build_tuple_trace(entry);
    let ghost ex = trace.extract.entries@;
    let pos = statement_positions(&entry.blocks);
    let mut c = CompanionCalls { selected: SortedMap::new(), gradient_slots: SortedMap::new(), tuple_locals: SortedMap::new() };
    let mut k: usize = 0;
    while k < pos.len()
        invariant
            k <= pos.len(),
            stmts == statements_of(entry.blocks@),
            ex == trace.extract.entries@,
            pos@.len() == stmts.len(),
            forall|m: int| 0 <= m < pos@.len() ==> {
                &&& (#[trigger] pos@[m]).0 < entry.blocks@.len()
                &&& pos@[m].1 < entry.blocks@[pos@[m].0 as int].statements@.len()
                &&& entry.blocks@[pos@[m].0 as int].statements@[pos@[m].1 as int] == stmts[m]
            },
            c.selected.wf(),
            c.gradient_slots.wf(),
            c.tuple_locals.wf(),
            (c.selected.entries@, c.gradient_slots.entries@, c.tuple_locals.entries@) == calls_of(stmts.take(k as int), companions@, ex),
        decreases pos.len() - k,
    {
        let (b, j) = pos[k];
        let s = &entry.blocks[b].statements[j];
        assert(stmts.take(k + 1).drop_last() =~= stmts.take(k as int));
        assert(stmts.take(k + 1).last() == *s);
        if let Statement::Call { destination, callee, args } = s {
            if let Callee::Definition(source) = callee {
                if let Some(ci) = find_device_companion(companions, *source) {
                    let inputs = &companions[ci].selected_inputs;
                    let mut q: usize = 0;
                    while q < inputs.len()
                        invariant
                            q <= inputs.len(),
                            c.selected.wf(),
                            c.gradient_slots.wf(),
                            c.tuple_locals.wf(),
                            c.tuple_locals.entries@ == calls_of(stmts.take(k as int), companions@, ex).2,
                            (c.selected.entries@, c.gradient_slots.entries@) == select_inputs(
                                (calls_of(stmts.take(k as int), companions@, ex).0, calls_of(stmts.take(k as int), companions@, ex).1),
                                inputs@.take(q as int), args@, *source),
                        decreases inputs.len() - q,
                    {
                        assert(inputs@.take(q + 1).drop_last() =~= inputs@.take(q as int));
                        assert(inputs@.take(q + 1).last() == inputs@[q as int]);
                        let sel = inputs[q];
                        if (sel.position as usize) < args.len() {
                            if let Some(l) = operand_local(&args[sel.position as usize]) {
                                c.selected.insert(l as u64, true);
                                c.gradient_slots.insert(l as u64, (*source, sel.gradient_slot));
                            }
                        }
                        q = q + 1;
                    }
                    assert(inputs@.take(inputs@.len() as int) =~= inputs@);
                    if let Some(d) = destination {
                        if let PlaceBase::Temp(temp) = d.base {
                            if d.projections.len() == 0 {
                                let entries = &trace.extract.entries;
                                let ghost base_tl = c.tuple_locals.entries@;
                                let ghost sel_done = (c.selected.entries@, c.gradient_slots.entries@);
                                let mut e: usize = 0;
                                while e < entries.len()
                                    invariant
                                        e <= entries.len(),
                                        entries@ == ex,
                                        c.tuple_locals.wf(),
                                        c.selected.wf(),
                                        c.gradient_slots.wf(),
                                        (c.selected.entries@, c.gradient_slots.entries@) == sel_done,
                                        c.tuple_locals.entries@ == record_extractions(base_tl, ex.take(e as int), *source, temp),
                                    decreases entries.len() - e,
                                {
                                    assert(ex.take(e + 1).drop_last() =~= ex.take(e as int));
                                    assert(ex.take(e + 1).last() == ex[e as int]);
                                    let (local, (call_temp, index)) = entries[e];
                                    if call_temp == temp {
                                        let key = pair_key_exec(*source, index);
                                        c.tuple_locals.insert(key, local as u32);
                                    }
                                    e = e + 1;
                                }
                                assert(ex.take(ex.len() as int) =~= ex);
                            }
                        }
                    }
                }
            }
        }
        k = k + 1;
    }
    assert(stmts.take(stmts.len() as int) =~= stmts);
    c
}

// ---------------------------------------------------------------------------
// Training-step calls and the loop's re-bindings
// ---------------------------------------------------------------------------

/// One entry-loop call to a package-local training-step function: the
/// callee's id, the temp holding the result tuple, and the locals at its
/// argument positions.
#[derive(Debug)]
pub struct StepCall {
    pub function: u32,
    pub destination: u32,
    pub args: Vec<u32>,
}

pub type StepCallSpec = (u32, u32, Seq<u32>);

pub open spec fn call_view(c: StepCall) -> StepCallSpec {
    (c.function, c.destination, c.args@)
}

/// Whether a definition is the companion of some relation.
pub open spec fn is_companion(companions: Seq<CompanionRelation>, source: u32) -> bool {
    exists|i: int| 0 <= i < companions.len() && (#[trigger] companions[i]).companion == source
}

/// The step call a statement makes, if it is a direct call to a program
/// function lowered from the callee's definition that is neither a compute
/// kernel nor a companion, returns a tuple, and stores into a plain temp.
pub open spec fn step_call_of(s: Statement, functions: Seq<Function>, companions: Seq<CompanionRelation>) -> Option<StepCallSpec> {
    match s {
        Statement::Call { destination, callee, args } => match callee {
            Callee::Definition(source) => match first_where(functions, |f: Function| f.source == Some(source)) {
                Some(fi) => if functions[fi].compute || is_companion(companions, source) || !functions[fi].tuple_return {
                    None
                } else {
                    match destination {
                        Some(d) => match d.base {
                            PlaceBase::Temp(t) => if d.projections@.len() == 0 {
                                Some((functions[fi].id, t, operand_locals(args@)))
                            } else {
                                None
                            },
                            PlaceBase::Local(_) => None,
                        },
                        None => None,
                    }
                },
                None => None,
            },
            Callee::Other => None,
        },
        _ => None,
    }
}

pub open spec fn step_calls_in(stmts: Seq<Statement>, functions: Seq<Function>, companions: Seq<CompanionRelation>) -> Seq<StepCallSpec>
    decreases stmts.len(),
{
    if stmts.len() == 0 {
        Seq::empty()
    } else {
        let prev = step_calls_in(stmts.drop_last(), functions, companions);
        match step_call_of(stmts.last(), functions, companions) {
            Some(c) => prev.push(c),
            None => prev,
        }
    }
}

fn find_by_source(functions: &Vec<Function>, source: u32) -> (r: Option<usize>)
    ensures
        match r {
            Some(i) => first_where(functions@, |f: Function| f.source == Some(source)) == Some(i as int),
            None => first_where(functions@, |f: Function| f.source == Some(source)) is None,
        },
{
    let ghost p = |f: Function| f.source == Some(source);
    let mut i: usize = 0;
    while i < functions.len()
        invariant
            i <= functions.len(),
            p == (|f: Function| f.source == Some(source)),
            forall|j: int| 0 <= j < i ==> !p(#[trigger] functions@[j]),
        decreases functions.len() - i,
    {
        if functions[i].source == Some(source) {
            proof {
                lemma_first_where_is(functions@, p, i as int);
            }
            return Some(i);
        }
        i = i + 1;
    }
    proof {
        lemma_first_where_none(functions@, p);
    }
    None
}

fn companion_exists(companions: &Vec<CompanionRelation>, source: u32) -> (r: bool)
    ensures
        r == is_companion(companions@, source),
{
    let mut i: usize = 0;
    while i < companions.len()
        invariant
            i <= companions.len(),
            forall|j: int| 0 <= j < i ==> (#[trigger] companions@[j]).companion != source,
        decreases companions.len() - i,
    {
        if companions[i].companion == source {
            return true;
        }
        i = i + 1;
    }
    false
}

/// The entry loop's calls to training-step functions (see
/// [`step_call_of`]), in statement order.
pub fn step_calls(entry: &Function, functions: &Vec<Function>, companions: &Vec<CompanionRelation>) -> (calls: Vec<StepCall>)
    ensures
        calls@.map_values(|c: StepCall| call_view(c)) == step_calls_in(statements_of(entry.blocks@), functions@, companions@),
{
    let ghost stmts = statements_of(entry.blocks@);
    let pos = statement_positions(&entry.blocks);
    let mut calls: Vec<StepCall> = Vec::new();
    let mut k: usize = 0;
    while k < pos.len()
        invariant
            k <= pos.len(),
            stmts == statements_of(entry.blocks@),
            pos@.len() == stmts.len(),
            forall|m: int| 0 <= m < pos@.len() ==> {
                &&& (#[trigger] pos@[m]).0 < entry.blocks@.len()
                &&& pos@[m].1 < entry.blocks@[pos@[m].0 as int].statements@.len()
                &&& entry.blocks@[pos@[m].0 as int].statements@[pos@[m].1 as int] == stmts[m]
            },
            calls@.map_values(|c: StepCall| call_view(c)) == step_calls_in(stmts.take(k as int), functions@, companions@),
        decreases pos.len() - k,
    {
        let (b, j) = pos[k];
        let s = &entry.blocks[b].statements[j];
        assert(stmts.take(k + 1).drop_last() =~= stmts.take(k as int));
        assert(stmts.take(k + 1).last() == *s);
        let ghost before = calls@;
        if let Statement::Call { destination, callee, args } = s {
            if let Callee::Definition(source) = callee {
                if let Some(fi) = find_by_source(functions, *source) {
                    let f = &functions[fi];
                    if !f.compute && !companion_exists(companions, *source) && f.tuple_return {
                        if let Some(d) = destination {
                            if let PlaceBase::Temp(t) = d.base {
                                if d.projections.len() == 0 {
                                    let locals = locals_of_operands(args);
                                    calls.push(StepCall { function: f.id, destination: t, args: locals });
                                    assert(calls@.map_values(|c: StepCall| call_view(c)) =~= before.map_values(|c: StepCall| call_view(c)).push(
                                        call_view(calls@.last())));
                                }
                            }
                        }
                    }
                }
            }
        }
        k = k + 1;
    }
    assert(stmts.take(stmts.len() as int) =~= stmts);
    calls
}

/// The step function of each step call's result temp (the last call into a
/// temp wins), as an ascending entry list keyed by temp.
pub open spec fn dests_of(calls: Seq<StepCallSpec>) -> Seq<(u64, u32)>
    decreases calls.len(),
{
    if calls.len() == 0 {
        Seq::empty()
    } else {
        sorted_insert(dests_of(calls.drop_last()), calls.last().1 as u64, calls.last().0)
    }
}

fn step_call_dests(calls: &Vec<StepCall>) -> (d: SortedMap<u32>)
    ensures
        d.wf(),
        d.entries@ == dests_of(calls@.map_values(|c: StepCall| call_view(c))),
{
    let ghost cs = calls@.map_values(|c: StepCall| call_view(c));
    let mut d: SortedMap<u32> = SortedMap::new();
    let mut i: usize = 0;
    while i < calls.len()
        invariant
            i <= calls.len(),
            cs == calls@.map_values(|c: StepCall| call_view(c)),
            d.wf(),
            d.entries@ == dests_of(cs.take(i as int)),
        decreases calls.len() - i,
    {
        assert(cs.take(i + 1).drop_last() =~= cs.take(i as int));
        assert(cs.take(i + 1).last() == cs[i as int]);
        d.insert(calls[i].destination as u64, calls[i].function);
        i = i + 1;
    }
    assert(cs.take(cs.len() as int) =~= cs);
    d
}

/// The (step function, tuple index, local) a statement re-binds from a step
/// result, keyed by (step function, tuple index).
pub open spec fn rebinding(s: Statement, tr: TraceSpec, dests: Seq<(u64, u32)>) -> Option<(u64, (u32, u32, u32))> {
    match s {
        Statement::Assign { place, value } => match assigned_local(s) {
            Some(local) => match tuple_element_of(value, tr) {
                Some(e) => if entries_map(dests).dom().contains(e.0 as u64) {
                    let f = entries_map(dests)[e.0 as u64];
                    Some((pair_key(f, e.1), (f, e.1, local)))
                } else {
                    None
                },
                None => None,
            },
            None => None,
        },
        _ => None,
    }
}

/// The loop's re-bindings of step-result tuple elements into locals (the
/// last re-binding of a (step function, tuple index) wins), ascending by
/// (step function, tuple index).
pub open spec fn rebindings_in(stmts: Seq<Statement>, tr: TraceSpec, dests: Seq<(u64, u32)>) -> Seq<(u64, (u32, u32, u32))>
    decreases stmts.len(),
{
    if stmts.len() == 0 {
        Seq::empty()
    } else {
        let prev = rebindings_in(stmts.drop_last(), tr, dests);
        match rebinding(stmts.last(), tr, dests) {
            Some(kv) => sorted_insert(prev, kv.0, kv.1),
            None => prev,
        }
    }
}

fn loop_rebindings(entry: &Function, trace: &TupleTrace, dests: &SortedMap<u32>) -> (r: SortedMap<(u32, u32, u32)>)
    requires
        trace.plain_copy.wf(),
        trace.extract.wf(),
        dests.wf(),
    ensures
        r.wf(),
        r.entries@ == rebindings_in(statements_of(entry.blocks@), (trace.plain_copy.entries@, trace.extract.entries@), dests.entries@),
{
    let ghost stmts = statements_of(entry.blocks@);
    let ghost tr = (trace.plain_copy.entries@, trace.extract.entries@);
    let pos = statement_positions(&entry.blocks);
    let mut r: SortedMap<(u32, u32, u32)> = SortedMap::new();
    let mut k: usize = 0;
    while k < pos.len()
        invariant
            k <= pos.len(),
            stmts == statements_of(entry.blocks@),
            tr == (trace.plain_copy.entries@, trace.extract.entries@),
            trace.plain_copy.wf(),
            trace.extract.wf(),
            dests.wf(),
            pos@.len() == stmts.len(),
            forall|m: int| 0 <= m < pos@.len() ==> {
                &&& (#[trigger] pos@[m]).0 < entry.blocks@.len()
                &&& pos@[m].1 < entry.blocks@[pos@[m].0 as int].statements@.len()
                &&& entry.blocks@[pos@[m].0 as int].statements@[pos@[m].1 as int] == stmts[m]
            },
            r.wf(),
            r.entries@ == rebindings_in(stmts.take(k as int), tr, dests.entries@),
        decreases pos.len() - k,
    {
        let (b, j) = pos[k];
        let s = &entry.blocks[b].statements[j];
        assert(stmts.take(k + 1).drop_last() =~= stmts.take(k as int));
        assert(stmts.take(k + 1).last() == *s);
        if let Statement::Assign { place, value } = s {
            if let PlaceBase::Local(local) = place.base {
                if place.projections.len() == 0 {
                    if let Some((t, i)) = tuple_index_of(value, trace) {
                        if let Some(f) = dests.get(t as u64) {
                            let key = pair_key_exec(f, i);
                            r.insert(key, (f, i, local));
                        }
                    }
                }
            }
        }
        k = k + 1;
    }
    assert(stmts.take(stmts.len() as int) =~= stmts);
    r
}

/// Whether a local is an argument of some step call.
pub open spec fn is_step_arg(calls: Seq<StepCallSpec>, l: u32) -> bool {
    exists|ci: int| 0 <= ci < calls.len() && (#[trigger] calls[ci]).2.contains(l)
}

/// The re-bindings whose local is also passed into a step call: the
/// pre-update locals, not the extraction intermediates.
pub open spec fn keep_step_args(s: Seq<(u64, (u32, u32, u32))>, calls: Seq<StepCallSpec>) -> Seq<(u64, (u32, u32, u32))>
    decreases s.len(),
{
    if s.len() == 0 {
        Seq::empty()
    } else {
        let prev = keep_step_args(s.drop_last(), calls);
        if is_step_arg(calls, s.last().1.2) {
            prev.push(s.last())
        } else {
            prev
        }
    }
}

fn step_arg(calls: &Vec<StepCall>, l: u32) -> (r: bool)
    ensures
        r == is_step_arg(calls@.map_values(|c: StepCall| call_view(c)), l),
{
    let ghost cs = calls@.map_values(|c: StepCall| call_view(c));
    let mut i: usize = 0;
    while i < calls.len()
        invariant
            i <= calls.len(),
            cs == calls@.map_values(|c: StepCall| call_view(c)),
            forall|ci: int| 0 <= ci < i ==> !(#[trigger] cs[ci]).2.contains(l),
        decreases calls.len() - i,
    {
        let args = &calls[i].args;
        let mut j: usize = 0;
        while j < args.len()
            invariant
                j <= args.len(),
                i < calls.len(),
                cs == calls@.map_values(|c: StepCall| call_view(c)),
                args@ == calls@[i as int].args@,
                forall|q: int| 0 <= q < j ==> args@[q] != l,
            decreases args.len() - j,
        {
            if args[j] == l {
                proof {
                    assert(cs[i as int] == call_view(calls@[i as int]));
                    assert(cs[i as int].2[j as int] == l);
                    assert(cs[i as int].2.contains(l));
                }
                return true;
            }
            j = j + 1;
        }
        i = i + 1;
    }
    false
}

fn kept_rebindings(r: &SortedMap<(u32, u32, u32)>, calls: &Vec<StepCall>) -> (kept: Vec<(u64, (u32, u32, u32))>)
    ensures
        kept@ == keep_step_args(r.entries@, calls@.map_values(|c: StepCall| call_view(c))),
{
    let ghost cs = calls@.map_values(|c: StepCall| call_view(c));
    let mut kept: Vec<(u64, (u32, u32, u32))> = Vec::new();
    let mut i: usize = 0;
    while i < r.entries.len()
        invariant
            i <= r.entries.len(),
            cs == calls@.map_values(|c: StepCall| call_view(c)),
            kept@ == keep_step_args(r.entries@.take(i as int), cs),
        decreases r.entries.len() - i,
    {
        assert(r.entries@.take(i + 1).drop_last() =~= r.entries@.take(i as int));
        assert(r.entries@.take(i + 1).last() == r.entries@[i as int]);
        let e = r.entries[i];
        if step_arg(calls, e.1.2) {
            kept.push(e);
        }
        i = i + 1;
    }
    assert(r.entries@.take(r.entries@.len() as int) =~= r.entries@);
    kept
}

// ---------------------------------------------------------------------------
// Trainable parameters and gradient links
// ---------------------------------------------------------------------------

/// One trainable parameter: the step function that updates it, its position
/// in the step's signature, the step result-tuple slot carrying the updated
/// value, and the entry-loop local it lives in.
#[derive(Clone, Copy, Debug, PartialEq, Eq, Structural)]
pub struct TrainableParam {
    pub step_function: u32,
    pub param_position: u32,
    pub update_output: u32,
    pub entry_local: u32,
}

/// One gradient-flow link: the step function and its input position that
/// consume a parameter's gradient, and the companion and result-tuple slot
/// that produce it.
#[derive(Clone, Copy, Debug, PartialEq, Eq, Structural)]
pub struct GradientLink {
    pub step_function: u32,
    pub gradient_position: u32,
    pub companion: u32,
    pub gradient_slot: u32,
}

/// A position saturated to `u32`.
pub open spec fn sat_u32(n: int) -> u32 {
    if n <= u32::MAX {
        n as u32
    } else {
        u32::MAX
    }
}

/// The tuple slot at which a step function re-binds a local, if it does:
/// the first (by step function, then tuple index) re-binding of it.
pub open spec fn rebinds(f: u32, l: u32) -> spec_fn((u64, (u32, u32, u32))) -> bool {
    |e: (u64, (u32, u32, u32))| e.1.0 == f && e.1.2 == l
}

pub open spec fn update_output_of(kept: Seq<(u64, (u32, u32, u32))>, f: u32, l: u32) -> Option<u32> {
    match first_where(kept, rebinds(f, l)) {
        Some(i) => Some(kept[i].1.1),
        None => None,
    }
}

/// The trainable parameters among one step call's arguments: the
/// companion-selected locals that the step's result re-binds.
pub open spec fn params_in_args(f: u32, args: Seq<u32>, selected: Seq<(u64, bool)>, kept: Seq<(u64, (u32, u32, u32))>) -> Seq<TrainableParam>
    decreases args.len(),
{
    if args.len() == 0 {
        Seq::empty()
    } else {
        let prev = params_in_args(f, args.drop_last(), selected, kept);
        let l = args.last();
        if entries_map(selected).dom().contains(l as u64) {
            match update_output_of(kept, f, l) {
                Some(u) => prev.push(TrainableParam {
                    step_function: f,
                    param_position: sat_u32(args.len() - 1),
                    update_output: u,
                    entry_local: l,
                }),
                None => prev,
            }
        } else {
            prev
        }
    }
}

pub open spec fn params_of_calls(calls: Seq<StepCallSpec>, selected: Seq<(u64, bool)>, kept: Seq<(u64, (u32, u32, u32))>) -> Seq<TrainableParam>
    decreases calls.len(),
{
    if calls.len() == 0 {
        Seq::empty()
    } else {
        params_of_calls(calls.drop_last(), selected, kept) + params_in_args(calls.last().0, calls.last().2, selected, kept)
    }
}

fn update_output(kept: &Vec<(u64, (u32, u32, u32))>, f: u32, l: u32) -> (r: Option<u32>)
    ensures
        r == update_output_of(kept@, f, l),
{
    let ghost p = rebinds(f, l);
    let mut i: usize = 0;
    while i < kept.len()
        invariant
            i <= kept.len(),
            p == rebinds(f, l),
            forall|j: int| 0 <= j < i ==> !p(#[trigger] kept@[j]),
        decreases kept.len() - i,
    {
        let e = kept[i];
        if e.1.0 == f && e.1.2 == l {
            proof {
                lemma_first_where_is(kept@, p, i as int);
            }
            return Some(e.1.1);
        }
        i = i + 1;
    }
    proof {
        lemma_first_where_none(kept@, p);
    }
    None
}

fn trainable_params(calls: &Vec<StepCall>, selected: &SortedMap<bool>, kept: &Vec<(u64, (u32, u32, u32))>) -> (out: Vec<TrainableParam>)
    requires
        selected.wf(),
    ensures
        out@ == params_of_calls(calls@.map_values(|c: StepCall| call_view(c)), selected.entries@, kept@),
{
    let ghost cs = calls@.map_values(|c: StepCall| call_view(c));
    let mut out: Vec<TrainableParam> = Vec::new();
    let mut i: usize = 0;
    while i < calls.len()
        invariant
            i <= calls.len(),
            selected.wf(),
            cs == calls@.map_values(|c: StepCall| call_view(c)),
            out@ == params_of_calls(cs.take(i as int), selected.entries@, kept@),
        decreases calls.len() - i,
    {
        assert(cs.take(i + 1).drop_last() =~= cs.take(i as int));
        assert(cs.take(i + 1).last() == cs[i as int]);
        let call = &calls[i];
        let ghost base = out@;
        let mut j: usize = 0;
        while j < call.args.len()
            invariant
                j <= call.args.len(),
                selected.wf(),
                out@ == base + params_in_args(call.function, call.args@.take(j as int), selected.entries@, kept@),
            decreases call.args.len() - j,
        {
            assert(call.args@.take(j + 1).drop_last() =~= call.args@.take(j as int));
            assert(call.args@.take(j + 1).last() == call.args@[j as int]);
            let l = call.args[j];
            if selected.get(l as u64).is_some() {
                if let Some(u) = update_output(kept, call.function, l) {
                    let position: u32 = if j <= u32::MAX as usize { j as u32 } else { u32::MAX };
                    out.push(TrainableParam { step_function: call.function, param_position: position, update_output: u, entry_local: l });
                }
            }
            j = j + 1;
            assert(out@ =~= base + params_in_args(call.function, call.args@.take(j as int), selected.entries@, kept@));
        }
        assert(call.args@.take(call.args@.len() as int) =~= call.args@);
        assert(cs[i as int] == call_view(calls@[i as int]));
        i = i + 1;
    }
    assert(cs.take(cs.len() as int) =~= cs);
    out
}

/// Lexicographic order on pairs.
pub open spec fn key_le(a: (u32, u32), b: (u32, u32)) -> bool {
    a.0 < b.0 || (a.0 == b.0 && a.1 <= b.1)
}

/// A stable sort by key, written as insertion: each element goes after
/// every element whose key is not greater.
pub open spec fn stable_sort_by<T>(s: Seq<T>, key: spec_fn(T) -> (u32, u32)) -> Seq<T>
    decreases s.len(),
{
    if s.len() == 0 {
        Seq::empty()
    } else {
        let prev = stable_sort_by(s.drop_last(), key);
        let x = s.last();
        let p = match first_where(prev, |y: T| !key_le(key(y), key(x))) {
            Some(i) => i,
            None => prev.len() as int,
        };
        prev.insert(p, x)
    }
}

/// Consecutive repeats removed.
pub open spec fn dedup<T>(s: Seq<T>) -> Seq<T>
    decreases s.len(),
{
    if s.len() == 0 {
        Seq::empty()
    } else if s.len() >= 2 && s.last() == s[s.len() - 2] {
        dedup(s.drop_last())
    } else {
        dedup(s.drop_last()).push(s.last())
    }
}

pub open spec fn param_key(p: TrainableParam) -> (u32, u32) {
    (p.step_function, p.param_position)
}

pub open spec fn link_key(l: GradientLink) -> (u32, u32) {
    (l.step_function, l.gradient_position)
}

fn sorted_deduped_params(v: &Vec<TrainableParam>) -> (out: Vec<TrainableParam>)
    ensures
        out@ == dedup(stable_sort_by(v@, |p: TrainableParam| param_key(p))),
{
    let ghost key = |p: TrainableParam| param_key(p);
    let mut sorted: Vec<TrainableParam> = Vec::new();
    let mut i: usize = 0;
    while i < v.len()
        invariant
            i <= v.len(),
            key == (|p: TrainableParam| param_key(p)),
            sorted@ == stable_sort_by(v@.take(i as int), key),
        decreases v.len() - i,
    {
        assert(v@.take(i + 1).drop_last() =~= v@.take(i as int));
        assert(v@.take(i + 1).last() == v@[i as int]);
        let x = v[i];
        let ghost q = |y: TrainableParam| !key_le(key(y), key(x));
        let mut p: usize = 0;
        while p < sorted.len()
            invariant
                p <= sorted.len(),
                q == (|y: TrainableParam| !key_le(key(y), key(x))),
                key == (|p: TrainableParam| param_key(p)),
                forall|j: int| 0 <= j < p ==> !q(#[trigger] sorted@[j]),
            ensures
                p <= sorted.len(),
                forall|j: int| 0 <= j < p ==> !q(#[trigger] sorted@[j]),
                p == sorted.len() || q(sorted@[p as int]),
            decreases sorted.len() - p,
        {
            let y = sorted[p];
            if !(y.step_function < x.step_function || (y.step_function == x.step_function && y.param_position <= x.param_position)) {
                break;
            }
            p = p + 1;
        }
        proof {
            if p < sorted.len() {
                lemma_first_where_is(sorted@, q, p as int);
            } else {
                lemma_first_where_none(sorted@, q);
            }
        }
        sorted.insert(p, x);
        i = i + 1;
    }
    assert(v@.take(v@.len() as int) =~= v@);
    let mut out: Vec<TrainableParam> = Vec::new();
    let mut k: usize = 0;
    while k < sorted.len()
        invariant
            k <= sorted.len(),
            out@ == dedup(sorted@.take(k as int)),
        decreases sorted.len() - k,
    {
        assert(sorted@.take(k + 1).drop_last() =~= sorted@.take(k as int));
        assert(sorted@.take(k + 1).last() == sorted@[k as int]);
        if k == 0 || sorted[k] != sorted[k - 1] {
            out.push(sorted[k]);
        }
        k = k + 1;
    }
    assert(sorted@.take(sorted@.len() as int) =~= sorted@);
    out
}

fn sorted_deduped_links(v: &Vec<GradientLink>) -> (out: Vec<GradientLink>)
    ensures
        out@ == dedup(stable_sort_by(v@, |l: GradientLink| link_key(l))),
{
    let ghost key = |l: GradientLink| link_key(l);
    let mut sorted: Vec<GradientLink> = Vec::new();
    let mut i: usize = 0;
    while i < v.len()
        invariant
            i <= v.len(),
            key == (|l: GradientLink| link_key(l)),
            sorted@ == stable_sort_by(v@.take(i as int), key),
        decreases v.len() - i,
    {
        assert(v@.take(i + 1).drop_last() =~= v@.take(i as int));
        assert(v@.take(i + 1).last() == v@[i as int]);
        let x = v[i];
        let ghost q = |y: GradientLink| !key_le(key(y), key(x));
        let mut p: usize = 0;
        while p < sorted.len()
            invariant
                p <= sorted.len(),
                q == (|y: GradientLink| !key_le(key(y), key(x))),
                key == (|l: GradientLink| link_key(l)),
                forall|j: int| 0 <= j < p ==> !q(#[trigger] sorted@[j]),
            ensures
                p <= sorted.len(),
                forall|j: int| 0 <= j < p ==> !q(#[trigger] sorted@[j]),
                p == sorted.len() || q(sorted@[p as int]),
            decreases sorted.len() - p,
        {
            let y = sorted[p];
            if !(y.step_function < x.step_function || (y.step_function == x.step_function && y.gradient_position <= x.gradient_position)) {
                break;
            }
            p = p + 1;
        }
        proof {
            if p < sorted.len() {
                lemma_first_where_is(sorted@, q, p as int);
            } else {
                lemma_first_where_none(sorted@, q);
            }
        }
        sorted.insert(p, x);
        i = i + 1;
    }
    assert(v@.take(v@.len() as int) =~= v@);
    let mut out: Vec<GradientLink> = Vec::new();
    let mut k: usize = 0;
    while k < sorted.len()
        invariant
            k <= sorted.len(),
            out@ == dedup(sorted@.take(k as int)),
        decreases sorted.len() - k,
    {
        assert(sorted@.take(k + 1).drop_last() =~= sorted@.take(k as int));
        assert(sorted@.take(k + 1).last() == sorted@[k as int]);
        if k == 0 || sorted[k] != sorted[k - 1] {
            out.push(sorted[k]);
        }
        k = k + 1;
    }
    assert(sorted@.take(sorted@.len() as int) =~= sorted@);
    out
}

/// A step call of the step function that passes the local.
pub open spec fn calls_with(f: u32, gl: u32) -> spec_fn(StepCallSpec) -> bool {
    |c: StepCallSpec| c.0 == f && c.2.contains(gl)
}

/// The local itself.
pub open spec fn is_local(gl: u32) -> spec_fn(u32) -> bool {
    |x: u32| x == gl
}

/// The gradient link of a trainable parameter: the (companion, gradient
/// slot) of its selection, the local that slot's value is extracted into,
/// and the position of that local in the first call of the parameter's step
/// function that passes it.
pub open spec fn link_of(
    p: TrainableParam,
    calls: Seq<StepCallSpec>,
    gslots: Seq<(u64, (u32, u32))>,
    tl: Seq<(u64, u32)>,
) -> Option<GradientLink> {
    if !entries_map(gslots).dom().contains(p.entry_local as u64) {
        None
    } else {
        let cs = entries_map(gslots)[p.entry_local as u64];
        if !entries_map(tl).dom().contains(pair_key(cs.0, cs.1)) {
            None
        } else {
            let gl = entries_map(tl)[pair_key(cs.0, cs.1)];
            match first_where(calls, calls_with(p.step_function, gl)) {
                Some(ci) => match first_where(calls[ci].2, is_local(gl)) {
                    Some(j) => Some(GradientLink {
                        step_function: p.step_function,
                        gradient_position: sat_u32(j),
                        companion: cs.0,
                        gradient_slot: cs.1,
                    }),
                    None => None,
                },
                None => None,
            }
        }
    }
}

pub open spec fn links_of(
    params: Seq<TrainableParam>,
    calls: Seq<StepCallSpec>,
    gslots: Seq<(u64, (u32, u32))>,
    tl: Seq<(u64, u32)>,
) -> Seq<GradientLink>
    decreases params.len(),
{
    if params.len() == 0 {
        Seq::empty()
    } else {
        let prev = links_of(params.drop_last(), calls, gslots, tl);
        match link_of(params.last(), calls, gslots, tl) {
            Some(link) => prev.push(link),
            None => prev,
        }
    }
}

#[verifier::loop_isolation(false)]
fn gradient_link(p: TrainableParam, calls: &Vec<StepCall>, cc: &CompanionCalls) -> (r: Option<GradientLink>)
    requires
        cc.gradient_slots.wf(),
        cc.tuple_locals.wf(),
    ensures
        r == link_of(p, calls@.map_values(|c: StepCall| call_view(c)), cc.gradient_slots.entries@, cc.tuple_locals.entries@),
{
    let ghost cs = calls@.map_values(|c: StepCall| call_view(c));
    let (companion, slot) = match cc.gradient_slots.get(p.entry_local as u64) {
        Some(v) => v,
        None => {
            return None;
        },
    };
    let key = pair_key_exec(companion, slot);
    let gl = match cc.tuple_locals.get(key) {
        Some(v) => v,
        None => {
            return None;
        },
    };
    let ghost q = calls_with(p.step_function, gl);
    let mut i: usize = 0;
    while i < calls.len()
        invariant
            i <= calls.len(),
            cs == calls@.map_values(|c: StepCall| call_view(c)),
            q == calls_with(p.step_function, gl),
            cc.gradient_slots.wf(),
            cc.tuple_locals.wf(),
            entries_map(cc.gradient_slots.entries@).dom().contains(p.entry_local as u64),
            entries_map(cc.gradient_slots.entries@)[p.entry_local as u64] == (companion, slot),
            entries_map(cc.tuple_locals.entries@).dom().contains(pair_key(companion, slot)),
            entries_map(cc.tuple_locals.entries@)[pair_key(companion, slot)] == gl,
            forall|j: int| 0 <= j < i ==> !q(#[trigger] cs[j]),
        decreases calls.len() - i,
    {
        let call = &calls[i];
        assert(cs[i as int] == call_view(calls@[i as int]));
        if call.function == p.step_function {
            let ghost r = is_local(gl);
            let mut j: usize = 0;
            while j < call.args.len()
                invariant
                    j <= call.args.len(),
                    r == is_local(gl),
                    forall|m: int| 0 <= m < j ==> !r(#[trigger] call.args@[m]),
                decreases call.args.len() - j,
            {
                if call.args[j] == gl {
                    proof {
                        lemma_first_where_is(call.args@, r, j as int);
                        assert(cs[i as int].2[j as int] == gl);
                        assert(q(cs[i as int]));
                        lemma_first_where_is(cs, q, i as int);
                    }
                    let position: u32 = if j <= u32::MAX as usize { j as u32 } else { u32::MAX };
                    return Some(GradientLink { step_function: p.step_function, gradient_position: position, companion, gradient_slot: slot });
                }
                j = j + 1;
            }
            proof {
                assert(!cs[i as int].2.contains(gl)) by {
                    if cs[i as int].2.contains(gl) {
                        let m = choose|m: int| 0 <= m < cs[i as int].2.len() && cs[i as int].2[m] == gl;
                        assert(!r(call.args@[m]));
                    }
                }
            }
        }
        i = i + 1;
    }
    proof {
        lemma_first_where_none(cs, q);
    }
    None
}

fn gradient_links(params: &Vec<TrainableParam>, calls: &Vec<StepCall>, cc: &CompanionCalls) -> (out: Vec<GradientLink>)
    requires
        cc.gradient_slots.wf(),
        cc.tuple_locals.wf(),
    ensures
        out@ == links_of(params@, calls@.map_values(|c: StepCall| call_view(c)), cc.gradient_slots.entries@, cc.tuple_locals.entries@),
{
    let mut out: Vec<GradientLink> = Vec::new();
    let mut i: usize = 0;
    while i < params.len()
        invariant
            i <= params.len(),
            cc.gradient_slots.wf(),
            cc.tuple_locals.wf(),
            out@ == links_of(params@.take(i as int), calls@.map_values(|c: StepCall| call_view(c)), cc.gradient_slots.entries@,
                cc.tuple_locals.entries@),
        decreases params.len() - i,
    {
        assert(params@.take(i + 1).drop_last() =~= params@.take(i as int));
        assert(params@.take(i + 1).last() == params@[i as int]);
        if let Some(link) = gradient_link(params[i], calls, cc) {
            out.push(link);
        }
        i = i + 1;
    }
    assert(params@.take(params@.len() as int) =~= params@);
    out
}

// ---------------------------------------------------------------------------
// The training-plan facts
// ---------------------------------------------------------------------------

/// Why a package's training plan is refused.
#[derive(Clone, Copy, Debug, PartialEq, Eq, Structural)]
pub enum TrainingError {
    /// A trainable parameter's step function is missing from the program.
    MissingStepFunction { function: u32 },
    /// The step function has no parameter at the trainable position.
    NoParameter { function: u32, position: u32 },
    /// The step function's result tuple has no element at the update slot.
    NoResultSlot { function: u32, slot: u32 },
    /// The step writes the update local without reading the parameter it
    /// claims to update.
    UpdateWithoutParam { function: u32, update_local: u32, slot: u32, param_local: u32 },
    /// The declared step count contradicts the source loop bound.
    StepCount(StepCountError),
}

/// A program function with the id.
pub open spec fn fn_with_id(id: u32) -> spec_fn(Function) -> bool {
    |f: Function| f.id == id
}

/// What is wrong with a trainable parameter's in-place identity, if
/// anything: its step function must exist, have a parameter at its
/// position, have a result-tuple element at its update slot, and compute
/// that element from the parameter.
pub open spec fn param_fault(p: TrainableParam, functions: Seq<Function>) -> Option<TrainingError> {
    match first_where(functions, fn_with_id(p.step_function)) {
        None => Some(TrainingError::MissingStepFunction { function: p.step_function }),
        Some(fi) => {
            let f = functions[fi];
            if p.param_position >= f.params@.len() {
                Some(TrainingError::NoParameter { function: p.step_function, position: p.param_position })
            } else {
                let pl = f.params@[p.param_position as int];
                match return_tuple_locals(f) {
                    Some(locals) => if p.update_output < locals.len() {
                        let ul = locals[p.update_output as int];
                        if defining_reads(f, ul, pl) {
                            None
                        } else {
                            Some(TrainingError::UpdateWithoutParam {
                                function: p.step_function,
                                update_local: ul,
                                slot: p.update_output,
                                param_local: pl,
                            })
                        }
                    } else {
                        Some(TrainingError::NoResultSlot { function: p.step_function, slot: p.update_output })
                    },
                    None => Some(TrainingError::NoResultSlot { function: p.step_function, slot: p.update_output }),
                }
            }
        },
    }
}

/// The fault of the first parameter that has one.
pub open spec fn first_fault(params: Seq<TrainableParam>, functions: Seq<Function>) -> Option<TrainingError>
    decreases params.len(),
{
    if params.len() == 0 {
        None
    } else {
        match first_fault(params.drop_last(), functions) {
            Some(e) => Some(e),
            None => param_fault(params.last(), functions),
        }
    }
}

fn find_by_id(functions: &Vec<Function>, id: u32) -> (r: Option<usize>)
    ensures
        match r {
            Some(i) => first_where(functions@, fn_with_id(id)) == Some(i as int),
            None => first_where(functions@, fn_with_id(id)) is None,
        },
{
    let ghost p = fn_with_id(id);
    let mut i: usize = 0;
    while i < functions.len()
        invariant
            i <= functions.len(),
            p == fn_with_id(id),
            forall|j: int| 0 <= j < i ==> !p(#[trigger] functions@[j]),
        decreases functions.len() - i,
    {
        if functions[i].id == id {
            proof {
                lemma_first_where_is(functions@, p, i as int);
            }
            return Some(i);
        }
        i = i + 1;
    }
    proof {
        lemma_first_where_none(functions@, p);
    }
    None
}

fn check_param(p: TrainableParam, functions: &Vec<Function>) -> (r: Option<TrainingError>)
    ensures
        r == param_fault(p, functions@),
{
    let fi = match find_by_id(functions, p.step_function) {
        Some(fi) => fi,
        None => {
            return Some(TrainingError::MissingStepFunction { function: p.step_function });
        },
    };
    let f = &functions[fi];
    if p.param_position as usize >= f.params.len() {
        return Some(TrainingError::NoParameter { function: p.step_function, position: p.param_position });
    }
    let pl = f.params[p.param_position as usize];
    match tuple_return_locals(f) {
        Some(locals) => {
            if (p.update_output as usize) < locals.len() {
                let ul = locals[p.update_output as usize];
                if statement_defining_reads(f, ul, pl) {
                    None
                } else {
                    Some(TrainingError::UpdateWithoutParam { function: p.step_function, update_local: ul, slot: p.update_output, param_local: pl })
                }
            } else {
                Some(TrainingError::NoResultSlot { function: p.step_function, slot: p.update_output })
            }
        },
        None => Some(TrainingError::NoResultSlot { function: p.step_function, slot: p.update_output }),
    }
}

fn check_params(params: &Vec<TrainableParam>, functions: &Vec<Function>) -> (r: Option<TrainingError>)
    ensures
        r == first_fault(params@, functions@),
{
    let mut i: usize = 0;
    while i < params.len()
        invariant
            i <= params.len(),
            first_fault(params@.take(i as int), functions@) is None,
        decreases params.len() - i,
    {
        assert(params@.take(i + 1).drop_last() =~= params@.take(i as int));
        assert(params@.take(i + 1).last() == params@[i as int]);
        if let Some(e) = check_param(params[i], functions) {
            proof {
                lemma_first_fault_prefix(params@, functions@, i + 1);
            }
            return Some(e);
        }
        i = i + 1;
    }
    assert(params@.take(params@.len() as int) =~= params@);
    None
}

proof fn lemma_first_fault_prefix(params: Seq<TrainableParam>, functions: Seq<Function>, n: int)
    requires
        0 <= n <= params.len(),
        first_fault(params.take(n), functions) is Some,
    ensures
        first_fault(params, functions) == first_fault(params.take(n), functions),
    decreases params.len() - n,
{
    if n < params.len() {
        assert(params.take(n + 1).drop_last() =~= params.take(n));
        lemma_first_fault_prefix(params, functions, n + 1);
    } else {
        assert(params.take(n) =~= params);
    }
}

/// The facts of a training plan: the effective declared step count, the
/// source loop bound, the trainable parameters and the gradient links.
#[derive(Debug)]
pub struct TrainingPlanFacts {
    pub step_count: u32,
    pub source_loop_bound: Option<u32>,
    pub trainable: Vec<TrainableParam>,
    pub gradients: Vec<GradientLink>,
}

pub type FactsSpec = (u32, Option<u32>, Seq<TrainableParam>, Seq<GradientLink>);

/// The training plan of a program. None without an entry function, without
/// an entry-loop call that passes a local to a device-resident companion's
/// selected input, or without a trainable parameter. A trainable parameter
/// is a step-call argument local that is both companion-selected and
/// re-bound from that step's result tuple; the parameters are ordered by
/// (step function, position) and the gradient links by (step function,
/// position), repeats dropped. Refused when a parameter's in-place identity
/// does not hold, or when the declared step count (the default without one)
/// contradicts the source loop bound.
pub open spec fn training_facts(program: Program, companions: Seq<CompanionRelation>, declared: Option<u32>) -> Result<
    Option<FactsSpec>,
    TrainingError,
> {
    match program.entry {
        None => Ok(None),
        Some(ei) => {
            let entry = program.functions@[ei as int];
            let stmts = statements_of(entry.blocks@);
            let tr = trace_of(stmts);
            let cc = calls_of(stmts, companions, tr.1);
            if cc.0.len() == 0 {
                Ok(None)
            } else {
                let calls = step_calls_in(stmts, program.functions@, companions);
                let kept = keep_step_args(rebindings_in(stmts, tr, dests_of(calls)), calls);
                let raw = params_of_calls(calls, cc.0, kept);
                if raw.len() == 0 {
                    Ok(None)
                } else {
                    let trainable = dedup(stable_sort_by(raw, |p: TrainableParam| param_key(p)));
                    let gradients = dedup(stable_sort_by(links_of(trainable, calls, cc.1, cc.2), |l: GradientLink| link_key(l)));
                    match first_fault(trainable, program.functions@) {
                        Some(e) => Err(e),
                        None => {
                            let bound = loop_bound(entry);
                            let count = match declared {
                                Some(d) => d,
                                None => DEFAULT_TRAINING_STEPS,
                            };
                            match bound {
                                Some(b) => if b != count {
                                    Err(TrainingError::StepCount(StepCountError::Contradicts { declared: count, source: b }))
                                } else {
                                    Ok(Some((count, bound, trainable, gradients)))
                                },
                                None => Ok(Some((count, bound, trainable, gradients))),
                            }
                        },
                    }
                }
            }
        },
    }
}

/// Derive the training-plan facts of a program's entry loop (see
/// [`training_facts`]).
pub fn training_plan_facts(program: &Program, companions: &Vec<CompanionRelation>, declared: Option<u32>) -> (r: Result<
    Option<TrainingPlanFacts>,
    TrainingError,
>)
    requires
        match program.entry {
            Some(ei) => ei < program.functions.len(),
            None => true,
        },
    ensures
        match r {
            Ok(None) => training_facts(*program, companions@, declared) == Ok::<Option<FactsSpec>, TrainingError>(None),
            Ok(Some(f)) => training_facts(*program, companions@, declared) == Ok::<Option<FactsSpec>, TrainingError>(
                Some((f.step_count, f.source_loop_bound, f.trainable@, f.gradients@)),
            ),
            Err(e) => training_facts(*program, companions@, declared) == Err::<Option<FactsSpec>, TrainingError>(e),
        },
{
    let ei = match program.entry {
        Some(ei) => ei,
        None => {
            return Ok(None);
        },
    };
    let entry = &program.functions[ei];
    let cc = companion_calls(entry, companions);
    if cc.selected.entries.len() == 0 {
        return Ok(None);
    }
    let calls = step_calls(entry, &program.functions, companions);
    let dests = step_call_dests(&calls);
    let trace = build_tuple_trace(entry);
    let rebound = loop_rebindings(entry, &trace, &dests);
    let kept = kept_rebindings(&rebound, &calls);
    let raw = trainable_params(&calls, &cc.selected, &kept);
    if raw.len() == 0 {
        return Ok(None);
    }
    let trainable = sorted_deduped_params(&raw);
    let links = gradient_links(&trainable, &calls, &cc);
    let gradients = sorted_deduped_links(&links);
    if let Some(e) = check_params(&trainable, &program.functions) {
        return Err(e);
    }
    let bound = source_loop_bound(entry);
    let count = match declared {
        Some(d) => d,
        None => DEFAULT_TRAINING_STEPS,
    };
    match admit_step_count(count, bound) {
        Ok(step_count) => Ok(Some(TrainingPlanFacts { step_count, source_loop_bound: bound, trainable, gradients })),
        Err(e) => Err(TrainingError::StepCount(e)),
    }
}

} // verus!
