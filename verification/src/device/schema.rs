//! The target-neutral device program, its carried semantic facts, and the
//! kernel plans: the typed facts the constructor materializes and the wire
//! carries.
use vstd::prelude::*;

verus! {

/// The program-level role of a buffer.
#[derive(Clone, Copy, Debug, PartialEq, Eq, Structural)]
pub enum BufferRole {
    Input,
    Output,
    InOut,
}

/// The independent allocation-lifetime axis of a buffer.
#[derive(Clone, Copy, Debug, PartialEq, Eq, Structural)]
pub enum BufferLifetime {
    PerProgram,
    PerStep,
    ObservationPoint,
}

/// How a kernel slot accesses its buffer.
#[derive(Clone, Copy, Debug, PartialEq, Eq, Structural)]
pub enum ResourceAccess {
    Read,
    Write,
    ReadWrite,
}

/// Where a tensor's storage lives.
#[derive(Clone, Copy, Debug, PartialEq, Eq, Structural)]
pub enum StorageLayout {
    DeviceHandle,
    HostOwned,
}

/// The program regime: one ordered execution, or a repeating training step.
#[derive(Clone, Copy, Debug, PartialEq, Eq, Structural)]
pub enum ProgramLifetime {
    SingleRun,
    RepeatingStep,
}

/// When a declared observation is read back.
#[derive(Clone, Copy, Debug, PartialEq, Eq, Structural)]
pub enum ObservationCadence {
    PerStep,
    EndOfRun,
}

/// How a buffer's storage is brought to its first defined state.
#[derive(Clone, Copy, Debug, PartialEq, Eq, Structural)]
pub enum InitializationPolicy {
    ZeroFill,
    HostProvided,
    KernelInitialized,
}

/// One buffer reference's identity facts.
#[derive(Debug)]
pub struct BufferIdentity {
    pub id: u32,
    pub name: String,
    pub role: BufferRole,
    pub storage: StorageLayout,
    pub lifetime: BufferLifetime,
}

impl Clone for BufferIdentity {
    fn clone(&self) -> (r: Self)
        ensures
            r == *self,
    {
        BufferIdentity {
            id: self.id,
            name: self.name.clone(),
            role: self.role,
            storage: self.storage,
            lifetime: self.lifetime,
        }
    }
}

/// The producer-defined projection of an axis-reduced buffer.
#[derive(Clone, Copy, Debug, PartialEq, Eq, Structural)]
pub struct ReducedProjection {
    pub axis_extent: u64,
    pub inner_stride: u64,
}

/// One content version of a buffer: its element type id and element count.
#[derive(Clone, Copy, Debug, PartialEq, Eq, Structural)]
pub struct BufferVersion {
    pub version: u32,
    pub element_ty: u32,
    pub element_count: u64,
    pub reduced_projection: Option<ReducedProjection>,
}

/// A kernel slot's binding position.
#[derive(Clone, Copy, Debug, PartialEq, Eq, Structural)]
pub struct Binding {
    pub group: u32,
    pub binding: u32,
}

/// One typed storage-buffer resource of a kernel.
#[derive(Debug)]
pub struct DeviceResource {
    pub buffer: BufferIdentity,
    pub version: BufferVersion,
    pub binding: Binding,
    pub access: ResourceAccess,
}

impl Clone for DeviceResource {
    fn clone(&self) -> (r: Self)
        ensures
            r == *self,
    {
        DeviceResource {
            buffer: self.buffer.clone(),
            version: self.version,
            binding: self.binding,
            access: self.access,
        }
    }
}

/// A three-axis workgroup size.
#[derive(Clone, Copy, Debug, PartialEq, Eq, Structural)]
pub struct WorkgroupSize {
    pub x: u32,
    pub y: u32,
    pub z: u32,
}

/// A three-axis count (dispatch size or workgroup count).
#[derive(Clone, Copy, Debug, PartialEq, Eq, Structural)]
pub struct Extent3 {
    pub x: u64,
    pub y: u64,
    pub z: u64,
}

/// A kernel's derived launch plan.
#[derive(Clone, Copy, Debug, PartialEq, Eq, Structural)]
pub struct KernelLaunchPlan {
    pub workgroup: WorkgroupSize,
    pub dispatch_size: Extent3,
    pub workgroup_count: Extent3,
}

/// The barrier phases of a shared-memory plan.
#[derive(Clone, Copy, Debug, PartialEq, Eq, Structural)]
pub enum BarrierPhase {
    SharedMemoryLoad,
    ReductionStep,
    InnerProductStep,
}

/// The out-of-bounds padding policy of a tiled plan.
#[derive(Clone, Copy, Debug, PartialEq, Eq, Structural)]
pub enum OobPaddingPolicy {
    ZeroFill,
}

/// The reduction operator of the reduction recipes.
#[derive(Clone, Copy, Debug, PartialEq, Eq, Structural)]
pub enum ReduceOp {
    Sum,
    Mean,
}

/// A shared-memory buffer of a tiled plan.
#[derive(Debug)]
pub struct SharedMemoryLayout {
    pub element_byte_width: u32,
    pub slot_count: u32,
    pub buffer_name: String,
}

impl Clone for SharedMemoryLayout {
    fn clone(&self) -> (r: Self)
        ensures
            r == *self,
    {
        SharedMemoryLayout {
            element_byte_width: self.element_byte_width,
            slot_count: self.slot_count,
            buffer_name: self.buffer_name.clone(),
        }
    }
}

/// The tiled matrix-multiply recipe.
#[derive(Debug)]
pub struct MatMulPlan {
    pub m: u32,
    pub k: u32,
    pub n: u32,
    pub tile: u32,
    pub workgroup_x: u32,
    pub workgroup_y: u32,
    pub shared_a: SharedMemoryLayout,
    pub shared_b: SharedMemoryLayout,
    pub barriers: Vec<BarrierPhase>,
    pub oob_padding: OobPaddingPolicy,
}

impl MatMulPlan {
    /// Field-for-field sameness (the barrier list compared by content).
    pub open spec fn same(&self, other: &MatMulPlan) -> bool {
        &&& self.m == other.m
        &&& self.k == other.k
        &&& self.n == other.n
        &&& self.tile == other.tile
        &&& self.workgroup_x == other.workgroup_x
        &&& self.workgroup_y == other.workgroup_y
        &&& self.shared_a == other.shared_a
        &&& self.shared_b == other.shared_b
        &&& self.barriers@ == other.barriers@
        &&& self.oob_padding == other.oob_padding
    }
}

impl Clone for MatMulPlan {
    fn clone(&self) -> (r: Self)
        ensures
            r.same(self),
    {
        let barriers = self.barriers.clone();
        assert(barriers@ =~= self.barriers@);
        MatMulPlan {
            m: self.m,
            k: self.k,
            n: self.n,
            tile: self.tile,
            workgroup_x: self.workgroup_x,
            workgroup_y: self.workgroup_y,
            shared_a: self.shared_a.clone(),
            shared_b: self.shared_b.clone(),
            barriers,
            oob_padding: self.oob_padding,
        }
    }
}

/// The tree-reduction recipe.
#[derive(Debug)]
pub struct ReductionPlan {
    pub op: ReduceOp,
    pub length: u32,
    pub workgroup_x: u32,
    pub partials: u32,
    pub shared_memory: SharedMemoryLayout,
    pub barriers: Vec<BarrierPhase>,
    pub oob_padding: OobPaddingPolicy,
}

impl ReductionPlan {
    /// Field-for-field sameness (the barrier list compared by content).
    pub open spec fn same(&self, other: &ReductionPlan) -> bool {
        &&& self.op == other.op
        &&& self.length == other.length
        &&& self.workgroup_x == other.workgroup_x
        &&& self.partials == other.partials
        &&& self.shared_memory == other.shared_memory
        &&& self.barriers@ == other.barriers@
        &&& self.oob_padding == other.oob_padding
    }
}

impl Clone for ReductionPlan {
    fn clone(&self) -> (r: Self)
        ensures
            r.same(self),
    {
        let barriers = self.barriers.clone();
        assert(barriers@ =~= self.barriers@);
        ReductionPlan {
            op: self.op,
            length: self.length,
            workgroup_x: self.workgroup_x,
            partials: self.partials,
            shared_memory: self.shared_memory.clone(),
            barriers,
            oob_padding: self.oob_padding,
        }
    }
}

/// The declaration a carried broadcast fact makes.
#[derive(Clone, Copy, Debug, PartialEq, Eq, Structural)]
pub enum BroadcastDeclaration {
    /// The lower-rank operand extends over the higher-rank operand's leading
    /// axis.
    RankExtension,
    /// Any other declaration (never admitted).
    Other,
}

/// A carried rank-extension broadcast fact: operand and result shapes.
#[derive(Debug)]
pub struct BroadcastFact {
    pub lhs_shape: Vec<u64>,
    pub rhs_shape: Vec<u64>,
    pub result_shape: Vec<u64>,
    pub declaration: BroadcastDeclaration,
}

impl BroadcastFact {
    /// Field-for-field sameness (shapes compared by content).
    pub open spec fn same(&self, other: &BroadcastFact) -> bool {
        &&& self.lhs_shape@ == other.lhs_shape@
        &&& self.rhs_shape@ == other.rhs_shape@
        &&& self.result_shape@ == other.result_shape@
        &&& self.declaration == other.declaration
    }
}

impl Clone for BroadcastFact {
    fn clone(&self) -> (r: Self)
        ensures
            r.same(self),
    {
        let lhs_shape = self.lhs_shape.clone();
        let rhs_shape = self.rhs_shape.clone();
        let result_shape = self.result_shape.clone();
        assert(lhs_shape@ =~= self.lhs_shape@);
        assert(rhs_shape@ =~= self.rhs_shape@);
        assert(result_shape@ =~= self.result_shape@);
        BroadcastFact { lhs_shape, rhs_shape, result_shape, declaration: self.declaration }
    }
}

/// A kernel's collection plan. `RankExtensionAdd` appears only on the wire:
/// it is an elementwise plan carrying its broadcast fact.
#[derive(Debug)]
pub enum KernelPlan {
    Elementwise,
    TiledMatMul(MatMulPlan),
    TreeReduction(ReductionPlan),
    Transpose { m: u32, n: u32, workgroup_x: u32, dispatch_x: u32 },
    AxisReduction { op: ReduceOp, axis: u32, projection: ReducedProjection },
    RowSoftmax { axis: u32 },
    LayerNormalization { axis: u32 },
    Gather { table_rows: u32, table_cols: u32, id_count: u32 },
    RmsNormalization { axis: u32, epsilon_bits: u32, width: u32 },
    Rope { pos: u32, dim: u32, width: u32, per_row: bool, rows: u32 },
    CausalMaskedSoftmax { rows: u32, cols: u32 },
    RankExtensionAdd(BroadcastFact),
}

impl KernelPlan {
    /// Variant-and-field sameness (list fields compared by content).
    pub open spec fn same(&self, other: &KernelPlan) -> bool {
        match (*self, *other) {
            (KernelPlan::TiledMatMul(a), KernelPlan::TiledMatMul(b)) => a.same(&b),
            (KernelPlan::TreeReduction(a), KernelPlan::TreeReduction(b)) => a.same(&b),
            (KernelPlan::RankExtensionAdd(a), KernelPlan::RankExtensionAdd(b)) => a.same(&b),
            (KernelPlan::TiledMatMul(_), _) => false,
            (KernelPlan::TreeReduction(_), _) => false,
            (KernelPlan::RankExtensionAdd(_), _) => false,
            _ => *self == *other,
        }
    }
}

impl Clone for KernelPlan {
    fn clone(&self) -> (r: Self)
        ensures
            r.same(self),
    {
        match self {
            KernelPlan::Elementwise => KernelPlan::Elementwise,
            KernelPlan::TiledMatMul(p) => KernelPlan::TiledMatMul(p.clone()),
            KernelPlan::TreeReduction(p) => KernelPlan::TreeReduction(p.clone()),
            KernelPlan::Transpose { m, n, workgroup_x, dispatch_x } => KernelPlan::Transpose {
                m: *m,
                n: *n,
                workgroup_x: *workgroup_x,
                dispatch_x: *dispatch_x,
            },
            KernelPlan::AxisReduction { op, axis, projection } => KernelPlan::AxisReduction {
                op: *op,
                axis: *axis,
                projection: *projection,
            },
            KernelPlan::RowSoftmax { axis } => KernelPlan::RowSoftmax { axis: *axis },
            KernelPlan::LayerNormalization { axis } => KernelPlan::LayerNormalization { axis: *axis },
            KernelPlan::Gather { table_rows, table_cols, id_count } => KernelPlan::Gather {
                table_rows: *table_rows,
                table_cols: *table_cols,
                id_count: *id_count,
            },
            KernelPlan::RmsNormalization { axis, epsilon_bits, width } => KernelPlan::RmsNormalization {
                axis: *axis,
                epsilon_bits: *epsilon_bits,
                width: *width,
            },
            KernelPlan::Rope { pos, dim, width, per_row, rows } => KernelPlan::Rope {
                pos: *pos,
                dim: *dim,
                width: *width,
                per_row: *per_row,
                rows: *rows,
            },
            KernelPlan::CausalMaskedSoftmax { rows, cols } => KernelPlan::CausalMaskedSoftmax {
                rows: *rows,
                cols: *cols,
            },
            KernelPlan::RankExtensionAdd(f) => KernelPlan::RankExtensionAdd(f.clone()),
        }
    }
}

/// One compute kernel of the program.
#[derive(Debug)]
pub struct KernelUnit {
    pub function: u32,
    pub entry: String,
    pub plan: KernelPlan,
    pub resources: Vec<DeviceResource>,
    pub launch: KernelLaunchPlan,
}

/// One launch of the ordered execution sequence.
#[derive(Clone, Copy, Debug, PartialEq, Eq, Structural)]
pub struct LaunchUnit {
    pub id: u32,
    pub kernel_index: usize,
}

/// One declared observation of the program.
#[derive(Debug)]
pub struct ResultBuffer {
    pub buffer: BufferIdentity,
    pub version: BufferVersion,
    pub role: BufferRole,
    pub produced_by: u32,
    pub cadence: ObservationCadence,
}

impl Clone for ResultBuffer {
    fn clone(&self) -> (r: Self)
        ensures
            r == *self,
    {
        ResultBuffer {
            buffer: self.buffer.clone(),
            version: self.version,
            role: self.role,
            produced_by: self.produced_by,
            cadence: self.cadence,
        }
    }
}

/// The target-neutral device program.
#[derive(Debug)]
pub struct DeviceProgram {
    pub lifetime: ProgramLifetime,
    pub kernels: Vec<KernelUnit>,
    pub launches: Vec<LaunchUnit>,
    pub results: Vec<ResultBuffer>,
}

/// The carried fact a semantic value identity is minted from.
#[derive(Debug)]
pub enum ValueOrigin {
    MirLocal { function: u32, local: u32 },
    HostInput,
    Synthetic { label: String },
}

impl Clone for ValueOrigin {
    fn clone(&self) -> (r: Self)
        ensures
            r == *self,
    {
        match self {
            ValueOrigin::MirLocal { function, local } => ValueOrigin::MirLocal { function: *function, local: *local },
            ValueOrigin::HostInput => ValueOrigin::HostInput,
            ValueOrigin::Synthetic { label } => ValueOrigin::Synthetic { label: label.clone() },
        }
    }
}

/// One semantic value of the program.
#[derive(Debug)]
pub struct SemanticValue {
    pub id: u32,
    pub name: String,
    pub element_ty: u32,
    pub element_count: u64,
    pub origin: ValueOrigin,
}

/// Which buffer holds which value.
#[derive(Clone, Copy, Debug, PartialEq, Eq, Structural)]
pub struct ValueBinding {
    pub value: u32,
    pub buffer: u32,
}

/// One explicit value generation: the launch that produced it.
#[derive(Clone, Copy, Debug, PartialEq, Eq, Structural)]
pub struct ValueGeneration {
    pub value: u32,
    pub generation: u32,
    pub element_ty: u32,
    pub element_count: u64,
    pub produced_by: u32,
}

/// One producer/consumer dependency edge over a buffer version.
#[derive(Clone, Copy, Debug, PartialEq, Eq, Structural)]
pub struct DependencyEdge {
    pub producer: u32,
    pub consumer: u32,
    pub buffer: u32,
    pub version: u32,
}

/// The derivative kind of a primal/companion relation.
#[derive(Clone, Copy, Debug, PartialEq, Eq, Structural)]
pub enum DerivativeKind {
    ReverseModeVjp,
}

/// A companion's selected primal input and the result slot of its gradient.
#[derive(Clone, Copy, Debug, PartialEq, Eq, Structural)]
pub struct SelectedInput {
    pub param: u32,
    pub position: u32,
    pub ty: u32,
    pub gradient_slot: u32,
}

/// A companion's selected primal output.
#[derive(Clone, Copy, Debug, PartialEq, Eq, Structural)]
pub struct SelectedOutput {
    pub position: u32,
    pub ty: u32,
    pub upstream_gradient_ty: u32,
}

/// One lossless primal/companion relation row.
#[derive(Debug)]
pub struct CompanionRelation {
    pub primal: u32,
    pub companion: u32,
    pub derivative: DerivativeKind,
    pub device_resident: bool,
    pub selected_inputs: Vec<SelectedInput>,
    pub selected_outputs: Vec<SelectedOutput>,
}

impl CompanionRelation {
    /// Field-for-field sameness (selection lists compared by content).
    pub open spec fn same(&self, other: &CompanionRelation) -> bool {
        &&& self.primal == other.primal
        &&& self.companion == other.companion
        &&& self.derivative == other.derivative
        &&& self.device_resident == other.device_resident
        &&& self.selected_inputs@ == other.selected_inputs@
        &&& self.selected_outputs@ == other.selected_outputs@
    }
}

impl Clone for CompanionRelation {
    fn clone(&self) -> (r: Self)
        ensures
            r.same(self),
    {
        let selected_inputs = self.selected_inputs.clone();
        let selected_outputs = self.selected_outputs.clone();
        assert(selected_inputs@ =~= self.selected_inputs@);
        assert(selected_outputs@ =~= self.selected_outputs@);
        CompanionRelation {
            primal: self.primal,
            companion: self.companion,
            derivative: self.derivative,
            device_resident: self.device_resident,
            selected_inputs,
            selected_outputs,
        }
    }
}

/// A buffer's initialization policy.
#[derive(Clone, Copy, Debug, PartialEq, Eq, Structural)]
pub struct InitializationFact {
    pub buffer: u32,
    pub policy: InitializationPolicy,
}

/// An explicit observation fact.
#[derive(Clone, Copy, Debug, PartialEq, Eq, Structural)]
pub struct ObservationFact {
    pub buffer: u32,
    pub version: u32,
    pub at_launch: u32,
}

/// The semantic facts carried alongside a device program.
#[derive(Debug)]
pub struct DeviceSemantics {
    pub values: Vec<SemanticValue>,
    pub bindings: Vec<ValueBinding>,
    pub generations: Vec<ValueGeneration>,
    pub roots: Vec<u32>,
    pub dependencies: Vec<DependencyEdge>,
    pub relations: Vec<CompanionRelation>,
    pub initializations: Vec<InitializationFact>,
    pub observations: Vec<ObservationFact>,
}

/// Whether an access writes its buffer.
pub open spec fn writes(access: ResourceAccess) -> bool {
    access == ResourceAccess::Write || access == ResourceAccess::ReadWrite
}

} // verus!
