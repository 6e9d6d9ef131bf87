//! The slice of a lowered MIR function that the training-plan analysis
//! reads: places, operands, values, statements, block terminators, and the
//! function and program around them.
use vstd::prelude::*;

verus! {

/// The base of a place: a named local or a compiler temp.
#[derive(Clone, Copy, Debug, PartialEq, Eq, Structural)]
pub enum PlaceBase {
    Local(u32),
    Temp(u32),
}

/// One projection of a place: a constant integer index, or anything else.
#[derive(Clone, Copy, Debug, PartialEq, Eq, Structural)]
pub enum Projection {
    ConstIndex(i64),
    Other,
}

/// A place: a base and its projections.
#[derive(Debug)]
pub struct Place {
    pub base: PlaceBase,
    pub projections: Vec<Projection>,
}

/// A constant operand: an integer, or any other constant.
#[derive(Clone, Copy, Debug, PartialEq, Eq, Structural)]
pub enum Constant {
    Int(i64),
    Other,
}

/// An operand.
#[derive(Debug)]
pub enum Operand {
    Place(Place),
    Temp(u32),
    Constant(Constant),
}

/// The value an assignment stores.
#[derive(Debug)]
pub enum Value {
    Operand(Operand),
    Unary(Operand),
    Binary(Operand, Operand),
    Other,
}

/// The callee of a call: a definition of the program (by its source id), or
/// anything else.
#[derive(Clone, Copy, Debug, PartialEq, Eq, Structural)]
pub enum Callee {
    Definition(u32),
    Other,
}

/// The collection operation of a runtime call, as far as the analyses read
/// it: the tensor shape list, the tensor fill constructor, or another.
#[derive(Clone, Copy, Debug, PartialEq, Eq, Structural)]
pub enum CollectionOp {
    TensorShape,
    TensorCreate,
    Other,
}

/// The intrinsic a runtime call runs.
#[derive(Clone, Copy, Debug, PartialEq, Eq, Structural)]
pub enum Intrinsic {
    Collection(CollectionOp),
    Other,
}

/// One statement.
#[derive(Debug)]
pub enum Statement {
    Assign { place: Place, value: Value },
    Construct { place: Place, fields: Vec<Operand> },
    RuntimeCall { destination: Option<Place>, intrinsic: Intrinsic, args: Vec<Operand> },
    Call { destination: Option<Place>, callee: Callee, args: Vec<Operand> },
}

/// The terminator of a block.
#[derive(Debug)]
pub enum Terminator {
    Branch(Operand),
    Return(Option<Operand>),
    Other,
}

/// One basic block.
#[derive(Debug)]
pub struct Block {
    pub statements: Vec<Statement>,
    pub terminator: Terminator,
}

/// One lowered function: its id, the source definition it lowers (if any),
/// whether it is a compute kernel, whether it returns a non-empty tuple, its
/// parameters' locals in order, and its blocks.
#[derive(Debug)]
pub struct Function {
    pub id: u32,
    pub source: Option<u32>,
    pub compute: bool,
    pub tuple_return: bool,
    pub params: Vec<u32>,
    pub blocks: Vec<Block>,
}

/// A lowered program: its functions and the position of its entry function,
/// if it has one.
#[derive(Debug)]
pub struct Program {
    pub functions: Vec<Function>,
    pub entry: Option<usize>,
}

/// The statements of a block list, in block order.
pub open spec fn statements_of(blocks: Seq<Block>) -> Seq<Statement>
    decreases blocks.len(),
{
    if blocks.len() == 0 {
        Seq::empty()
    } else {
        statements_of(blocks.drop_last()) + blocks.last().statements@
    }
}

/// The local a plain place operand references (projections or not).
pub open spec fn local_of(op: Operand) -> Option<u32> {
    match op {
        Operand::Place(p) => match p.base {
            PlaceBase::Local(l) => Some(l),
            PlaceBase::Temp(_) => None,
        },
        _ => None,
    }
}

pub fn operand_local(op: &Operand) -> (r: Option<u32>)
    ensures
        r == local_of(*op),
{
    match op {
        Operand::Place(p) => match p.base {
            PlaceBase::Local(l) => Some(l),
            PlaceBase::Temp(_) => None,
        },
        _ => None,
    }
}

/// The tuple element index of a place whose projections are exactly one
/// constant index that fits a `u32`.
pub open spec fn tuple_index(place: Place) -> Option<u32> {
    if place.projections@.len() == 1 {
        match place.projections@[0] {
            Projection::ConstIndex(n) => if 0 <= n <= u32::MAX {
                Some(n as u32)
            } else {
                None
            },
            Projection::Other => None,
        }
    } else {
        None
    }
}

pub fn place_tuple_index(place: &Place) -> (r: Option<u32>)
    ensures
        r == tuple_index(*place),
{
    if place.projections.len() != 1 {
        return None;
    }
    match place.projections[0] {
        Projection::ConstIndex(n) => if 0 <= n && n <= u32::MAX as i64 {
            Some(n as u32)
        } else {
            None
        },
        Projection::Other => None,
    }
}

/// A place that is exactly the local, with no projection.
pub open spec fn is_plain_local(place: Place, local: u32) -> bool {
    place.base == PlaceBase::Local(local) && place.projections@.len() == 0
}

/// The positions (block, statement) of a block list's statements, in order.
pub fn statement_positions(blocks: &Vec<Block>) -> (pos: Vec<(usize, usize)>)
    ensures
        pos@.len() == statements_of(blocks@).len(),
        forall|k: int| 0 <= k < pos@.len() ==> {
            &&& (#[trigger] pos@[k]).0 < blocks@.len()
            &&& pos@[k].1 < blocks@[pos@[k].0 as int].statements@.len()
            &&& blocks@[pos@[k].0 as int].statements@[pos@[k].1 as int] == statements_of(blocks@)[k]
        },
{
    let mut pos: Vec<(usize, usize)> = Vec::new();
    let mut b: usize = 0;
    while b < blocks.len()
        invariant
            b <= blocks.len(),
            pos@.len() == statements_of(blocks@.take(b as int)).len(),
            forall|k: int| 0 <= k < pos@.len() ==> {
                &&& (#[trigger] pos@[k]).0 < b
                &&& pos@[k].1 < blocks@[pos@[k].0 as int].statements@.len()
                &&& blocks@[pos@[k].0 as int].statements@[pos@[k].1 as int] == statements_of(blocks@.take(b as int))[k]
            },
        decreases blocks.len() - b,
    {
        let ghost prior = statements_of(blocks@.take(b as int));
        assert(blocks@.take(b + 1).drop_last() =~= blocks@.take(b as int));
        assert(blocks@.take(b + 1).last() == blocks@[b as int]);
        assert(statements_of(blocks@.take(b + 1)) == prior + blocks@[b as int].statements@);
        let n = blocks[b].statements.len();
        let mut j: usize = 0;
        while j < n
            invariant
                b < blocks.len(),
                n == blocks@[b as int].statements@.len(),
                j <= n,
                pos@.len() == prior.len() + j,
                forall|k: int| 0 <= k < pos@.len() ==> {
                    &&& (#[trigger] pos@[k]).0 <= b
                    &&& pos@[k].1 < blocks@[pos@[k].0 as int].statements@.len()
                    &&& blocks@[pos@[k].0 as int].statements@[pos@[k].1 as int] == (prior + blocks@[b as int].statements@)[k]
                },
            decreases n - j,
        {
            pos.push((b, j));
            j = j + 1;
        }
        b = b + 1;
    }
    assert(blocks@.take(blocks@.len() as int) =~= blocks@);
    pos
}

/// Whether a statement constructs a tensor shape: a runtime call of the
/// shape list or of the fill constructor.
pub open spec fn constructs_shape(s: Statement) -> bool {
    match s {
        Statement::RuntimeCall { intrinsic, .. } => intrinsic == Intrinsic::Collection(CollectionOp::TensorShape)
            || intrinsic == Intrinsic::Collection(CollectionOp::TensorCreate),
        _ => false,
    }
}

/// Whether a function's body constructs tensor shapes: some statement of
/// some block is a shape list or a fill constructor (the surface the static
/// shape fold rewrites).
pub fn function_has_shape_construction(function: &Function) -> (r: bool)
    ensures
        r == exists|k: int| 0 <= k < statements_of(function.blocks@).len() && constructs_shape(#[trigger] statements_of(function.blocks@)[k]),
{
    let pos = statement_positions(&function.blocks);
    let ghost all = statements_of(function.blocks@);
    let mut k: usize = 0;
    while k < pos.len()
        invariant
            k <= pos@.len(),
            all == statements_of(function.blocks@),
            pos@.len() == all.len(),
            forall|x: int| 0 <= x < pos@.len() ==> {
                &&& (#[trigger] pos@[x]).0 < function.blocks@.len()
                &&& pos@[x].1 < function.blocks@[pos@[x].0 as int].statements@.len()
                &&& function.blocks@[pos@[x].0 as int].statements@[pos@[x].1 as int] == all[x]
            },
            forall|x: int| 0 <= x < k ==> !constructs_shape(#[trigger] all[x]),
        decreases pos@.len() - k,
    {
        let (b, j) = pos[k];
        let s = &function.blocks[b].statements[j];
        assert(*s == all[k as int]);
        match s {
            Statement::RuntimeCall { intrinsic, .. } => {
                if *intrinsic == Intrinsic::Collection(CollectionOp::TensorShape)
                    || *intrinsic == Intrinsic::Collection(CollectionOp::TensorCreate) {
                    return true;
                }
            },
            _ => {},
        }
        k = k + 1;
    }
    false
}

} // verus!
