use faber_package::device::constructor::{
    construct_program, declared_per_step_observation, join_slot, kernel_entry_name, materialize_program,
    buffer_slot_name, sorted_by_binding, JoinError, KernelBuild, NamedLocal, ResourceBuild,
};
use faber_package::device::order::{dependency_ordered_launches, LaunchOrderError};
use faber_package::device::program::{
    declared_result_rows, merge_buffer_roles, output_slot_index, producing_launch, unified_lifetime, unify_roles, value_origin,
    AbiRole, ProgramBuffer, ResourceKind, SlotFact,
};
use faber_package::device::facts::{data_flow_pairs, semantic_facts};
use faber_package::device::schema::{
    Binding, BufferIdentity, BufferLifetime, BufferRole, BufferVersion, DeviceProgram, DeviceResource, Extent3, KernelLaunchPlan,
    KernelPlan, KernelUnit, LaunchUnit, ObservationCadence, ProgramLifetime, ResourceAccess, StorageLayout, ValueOrigin,
    WorkgroupSize,
};

fn launch_plan() -> KernelLaunchPlan {
    KernelLaunchPlan {
        workgroup: WorkgroupSize { x: 64, y: 1, z: 1 },
        dispatch_size: Extent3 { x: 256, y: 1, z: 1 },
        workgroup_count: Extent3 { x: 4, y: 1, z: 1 },
    }
}

fn resource(id: u32, name: &str, role: BufferRole, access: ResourceAccess, binding: u32) -> DeviceResource {
    DeviceResource {
        buffer: BufferIdentity {
            id,
            name: name.to_owned(),
            role,
            storage: StorageLayout::DeviceHandle,
            lifetime: BufferLifetime::PerStep,
        },
        version: BufferVersion { version: 1, element_ty: 7, element_count: 4, reduced_projection: None },
        binding: Binding { group: 0, binding },
        access,
    }
}

fn kernel(function: u32, entry: &str, resources: Vec<DeviceResource>) -> KernelUnit {
    KernelUnit { function, entry: entry.to_owned(), plan: KernelPlan::Elementwise, resources, launch: launch_plan() }
}

/// Kernel 0 reads `b` and writes `c`; kernel 1 reads `a` and writes `b`:
/// declared in the opposite of the data-flow order.
fn reversed_chain() -> DeviceProgram {
    DeviceProgram {
        lifetime: ProgramLifetime::SingleRun,
        kernels: vec![
            kernel(10, "second", vec![
                resource(2, "b", BufferRole::Input, ResourceAccess::Read, 0),
                resource(3, "c", BufferRole::Output, ResourceAccess::Write, 1),
            ]),
            kernel(11, "first", vec![
                resource(1, "a", BufferRole::Input, ResourceAccess::Read, 0),
                resource(2, "b", BufferRole::Output, ResourceAccess::Write, 1),
            ]),
        ],
        launches: vec![LaunchUnit { id: 1, kernel_index: 0 }, LaunchUnit { id: 2, kernel_index: 1 }],
        results: Vec::new(),
    }
}

#[test]
fn launches_follow_the_data_flow_not_the_declaration_order() {
    let program = reversed_chain();
    let edges = data_flow_pairs(&program);
    assert_eq!(edges.len(), 1);
    assert_eq!((edges[0].producer, edges[0].consumer, edges[0].buffer), (2, 1, 2));
    let order = dependency_ordered_launches(&program, &Vec::new()).expect("acyclic");
    let ids: Vec<u32> = order.iter().map(|l| l.id).collect();
    assert_eq!(ids, vec![2, 1]);
}

#[test]
fn independent_launches_keep_declaration_order() {
    let program = DeviceProgram {
        lifetime: ProgramLifetime::SingleRun,
        kernels: vec![
            kernel(1, "x", vec![resource(1, "a", BufferRole::Input, ResourceAccess::Read, 0)]),
            kernel(2, "y", vec![resource(2, "b", BufferRole::Input, ResourceAccess::Read, 0)]),
            kernel(3, "z", vec![resource(3, "c", BufferRole::Input, ResourceAccess::Read, 0)]),
        ],
        launches: vec![
            LaunchUnit { id: 5, kernel_index: 0 },
            LaunchUnit { id: 6, kernel_index: 1 },
            LaunchUnit { id: 7, kernel_index: 2 },
        ],
        results: Vec::new(),
    };
    let order = dependency_ordered_launches(&program, &Vec::new()).expect("acyclic");
    let ids: Vec<u32> = order.iter().map(|l| l.id).collect();
    assert_eq!(ids, vec![5, 6, 7]);
}

#[test]
fn a_read_write_cycle_is_refused_unless_its_buffer_is_excluded() {
    // Each kernel reads the other's output: a two-launch cycle.
    let program = DeviceProgram {
        lifetime: ProgramLifetime::RepeatingStep,
        kernels: vec![
            kernel(1, "p", vec![
                resource(1, "w", BufferRole::InOut, ResourceAccess::Read, 0),
                resource(2, "g", BufferRole::InOut, ResourceAccess::Write, 1),
            ]),
            kernel(2, "q", vec![
                resource(2, "g", BufferRole::InOut, ResourceAccess::Read, 0),
                resource(1, "w", BufferRole::InOut, ResourceAccess::Write, 1),
            ]),
        ],
        launches: vec![LaunchUnit { id: 1, kernel_index: 0 }, LaunchUnit { id: 2, kernel_index: 1 }],
        results: Vec::new(),
    };
    assert_eq!(dependency_ordered_launches(&program, &Vec::new()), Err(LaunchOrderError::Cycle));
    let order = dependency_ordered_launches(&program, &vec![1]).expect("the parameter edge is excluded");
    let ids: Vec<u32> = order.iter().map(|l| l.id).collect();
    assert_eq!(ids, vec![1, 2]);
}

#[test]
fn role_unification_and_merging() {
    assert!(unify_roles(BufferRole::Input, BufferRole::Input));
    assert!(unify_roles(BufferRole::Output, BufferRole::Input));
    assert!(unify_roles(BufferRole::InOut, BufferRole::Output));
    assert!(!unify_roles(BufferRole::Output, BufferRole::Output));
    assert_eq!(merge_buffer_roles(BufferRole::Input, BufferRole::Input), BufferRole::Input);
    assert_eq!(merge_buffer_roles(BufferRole::Output, BufferRole::Output), BufferRole::Output);
    assert_eq!(merge_buffer_roles(BufferRole::Input, BufferRole::Output), BufferRole::InOut);
    assert_eq!(merge_buffer_roles(BufferRole::InOut, BufferRole::InOut), BufferRole::InOut);
}

#[test]
fn output_slot_indices_follow_the_output_list() {
    assert_eq!(output_slot_index(3, &vec![4, 5], 3), 0);
    assert_eq!(output_slot_index(3, &vec![4, 5], 5), 2);
    assert_eq!(output_slot_index(3, &vec![4, 5], 9), u32::MAX);
}

fn slot(role: AbiRole, access: ResourceAccess, program_role: Option<BufferRole>, binding: u32, local: Option<u32>) -> SlotFact {
    SlotFact {
        kind: ResourceKind::StorageBuffer,
        role,
        access,
        program_role,
        group: 0,
        binding,
        element_ty: 7,
        element_count: 4,
        source_local: local,
    }
}

#[test]
fn slot_names_prefer_parameter_then_local_then_role() {
    let params = vec![NamedLocal { local: 1, name: Some("x".to_owned()) }, NamedLocal { local: 2, name: None }];
    let locals = vec![NamedLocal { local: 2, name: Some("hidden".to_owned()) }];
    let s1 = slot(AbiRole::Input, ResourceAccess::Read, Some(BufferRole::Input), 0, Some(1));
    assert_eq!(buffer_slot_name(&params, &locals, &s1), "x");
    let s2 = slot(AbiRole::Input, ResourceAccess::Read, Some(BufferRole::Input), 1, Some(2));
    assert_eq!(buffer_slot_name(&params, &locals, &s2), "hidden");
    let s3 = slot(AbiRole::Output, ResourceAccess::Write, Some(BufferRole::Output), 4, Some(9));
    assert_eq!(buffer_slot_name(&params, &locals, &s3), "output_4");
    let s4 = slot(AbiRole::Input, ResourceAccess::Read, Some(BufferRole::Input), 12, None);
    assert_eq!(buffer_slot_name(&params, &locals, &s4), "input_12");
    assert_eq!(kernel_entry_name(&Some("summa".to_owned()), 3), "summa");
    assert_eq!(kernel_entry_name(&None, 42), "kernel42");
}

#[test]
fn anonymous_writer_slots_get_distinct_synthetic_origins() {
    let writer = slot(AbiRole::Output, ResourceAccess::Write, Some(BufferRole::Output), 1, None);
    match value_origin(3, &writer, 17) {
        ValueOrigin::Synthetic { label } => assert_eq!(label, "buffer-17"),
        other => panic!("unexpected origin {other:?}"),
    }
    let reader = slot(AbiRole::Input, ResourceAccess::Read, Some(BufferRole::Input), 0, None);
    assert!(matches!(value_origin(3, &reader, 1), ValueOrigin::HostInput));
    let named = slot(AbiRole::Input, ResourceAccess::Read, Some(BufferRole::Input), 0, Some(8));
    assert!(matches!(value_origin(3, &named, 1), ValueOrigin::MirLocal { function: 3, local: 8 }));
}

#[test]
fn joining_slots_unifies_producers_with_consumers_but_never_two_writers() {
    let mut buffers: Vec<ProgramBuffer> = Vec::new();
    let mut next = 1u32;
    // Kernel 1 writes `h`.
    let w = slot(AbiRole::Output, ResourceAccess::Write, Some(BufferRole::Output), 1, None);
    let id1 = join_slot(&mut buffers, &mut next, 1, &w, "h".to_owned(), false, None, None).unwrap();
    assert_eq!(id1, 1);
    // Kernel 2 reads `h`: joins by name and shape.
    let r = slot(AbiRole::Input, ResourceAccess::Read, Some(BufferRole::Input), 0, None);
    let id2 = join_slot(&mut buffers, &mut next, 2, &r, "h".to_owned(), false, None, None).unwrap();
    assert_eq!(id2, 1);
    assert_eq!(buffers[0].role, BufferRole::InOut);
    assert!(buffers[0].written && buffers[0].consumed);
    // Kernel 3 writes another `h`: a second independent writer gets its own buffer.
    let id3 = join_slot(&mut buffers, &mut next, 3, &w, "h".to_owned(), false, None, None).unwrap();
    assert_eq!(id3, 2);
    assert_eq!(next, 3);
    assert_eq!(buffers.len(), 2);
    // A slot without a coherent role is refused and changes nothing.
    let bad = slot(AbiRole::Input, ResourceAccess::Write, None, 6, None);
    assert!(matches!(
        join_slot(&mut buffers, &mut next, 3, &bad, "z".to_owned(), false, None, None),
        Err(JoinError::NoProgramRole { binding: 6 })
    ));
    assert_eq!(buffers.len(), 2);
    // A parameter alias and a gradient alias bind the given buffers.
    assert_eq!(join_slot(&mut buffers, &mut next, 4, &w, "u".to_owned(), false, Some(1), None).unwrap(), 1);
    assert_eq!(join_slot(&mut buffers, &mut next, 4, &r, "g".to_owned(), false, None, Some(2)).unwrap(), 2);
    assert_eq!(buffers[1].role, BufferRole::InOut);
    assert!(buffers[1].consumed);
}

#[test]
fn joining_by_mir_local_identity_crosses_differing_names() {
    let mut buffers: Vec<ProgramBuffer> = Vec::new();
    let mut next = 1u32;
    let w = slot(AbiRole::Output, ResourceAccess::Write, Some(BufferRole::Output), 1, Some(5));
    assert_eq!(join_slot(&mut buffers, &mut next, 9, &w, "output_1".to_owned(), false, None, None).unwrap(), 1);
    let r = slot(AbiRole::Input, ResourceAccess::Read, Some(BufferRole::Input), 0, Some(5));
    assert_eq!(join_slot(&mut buffers, &mut next, 9, &r, "input_0".to_owned(), false, None, None).unwrap(), 1);
    // The same local of another function is another value.
    assert_eq!(join_slot(&mut buffers, &mut next, 8, &r, "input_0".to_owned(), false, None, None).unwrap(), 2);
}

fn rb(binding: u32, group: u32, access: ResourceAccess, buffer_id: u32) -> ResourceBuild {
    ResourceBuild { group, binding, access, buffer_id, element_ty: 7, element_count: 4 }
}

#[test]
fn slots_sort_by_binding_then_group() {
    let sorted = sorted_by_binding(&vec![
        rb(2, 0, ResourceAccess::Write, 3),
        rb(0, 1, ResourceAccess::Read, 1),
        rb(0, 0, ResourceAccess::Read, 2),
    ]);
    let keys: Vec<(u32, u32)> = sorted.iter().map(|r| (r.binding, r.group)).collect();
    assert_eq!(keys, vec![(0, 0), (0, 1), (2, 0)]);
}

fn build(function: u32, entry: &str, resources: Vec<ResourceBuild>) -> KernelBuild {
    KernelBuild { function, entry: entry.to_owned(), plan: KernelPlan::Elementwise, launch: launch_plan(), resources }
}

fn pbuf(id: u32, name: &str, role: BufferRole, written: bool, consumed: bool) -> ProgramBuffer {
    ProgramBuffer {
        id,
        name: name.to_owned(),
        element_ty: 7,
        element_count: 4,
        role,
        written,
        consumed,
        readwrite: false,
        param: false,
        gradient: false,
        origin: ValueOrigin::HostInput,
    }
}

#[test]
fn the_per_step_observation_is_the_last_forward_builds_first_write() {
    let builds = vec![
        build(1, "fwd", vec![rb(0, 0, ResourceAccess::Read, 1), rb(1, 0, ResourceAccess::Write, 2)]),
        build(2, "bwd", vec![rb(0, 0, ResourceAccess::Read, 2), rb(1, 0, ResourceAccess::Write, 3)]),
    ];
    assert_eq!(declared_per_step_observation(&builds, &vec![1], true), Some(2));
    assert_eq!(declared_per_step_observation(&builds, &vec![1, 2], true), Some(3));
    assert_eq!(declared_per_step_observation(&builds, &vec![1], false), None);
    assert_eq!(declared_per_step_observation(&builds, &vec![7], true), None);
}

#[test]
fn construction_orders_launches_declares_results_and_mints_semantics() {
    // Declared consumer-first: kernel 0 consumes `mid`, kernel 1 produces it.
    let builds = vec![
        build(20, "consume", vec![rb(0, 0, ResourceAccess::Read, 2), rb(1, 0, ResourceAccess::Write, 3)]),
        build(21, "produce", vec![rb(0, 0, ResourceAccess::Read, 1), rb(1, 0, ResourceAccess::Write, 2)]),
    ];
    let buffers = vec![
        pbuf(1, "x", BufferRole::Input, false, true),
        pbuf(2, "mid", BufferRole::InOut, true, true),
        pbuf(3, "y", BufferRole::Output, true, false),
    ];
    let materialized = materialize_program(&builds, &buffers, false, None);
    assert_eq!(materialized.launches, vec![LaunchUnit { id: 1, kernel_index: 0 }, LaunchUnit { id: 2, kernel_index: 1 }]);
    assert_eq!(materialized.kernels[0].resources[1].buffer.lifetime, BufferLifetime::ObservationPoint);
    assert_eq!(materialized.kernels[1].resources[0].buffer.lifetime, BufferLifetime::PerProgram);
    assert_eq!(materialized.kernels[1].resources[1].buffer.lifetime, BufferLifetime::PerStep);

    let (program, semantics) = construct_program(&builds, &buffers, false, None, &Vec::new(), &Vec::new()).expect("acyclic");
    let ids: Vec<u32> = program.launches.iter().map(|l| l.id).collect();
    assert_eq!(ids, vec![2, 1]);
    assert_eq!(program.results.len(), 1);
    assert_eq!(program.results[0].buffer.id, 3);
    assert_eq!(program.results[0].produced_by, 1);
    assert_eq!(program.results[0].cadence, ObservationCadence::PerStep);
    assert_eq!(producing_launch(&program, 2), Some(2));
    assert_eq!(producing_launch(&program, 1), None);
    assert_eq!(semantics.values.len(), 3);
    assert_eq!(semantics.roots, vec![2]);
    assert_eq!(semantics.dependencies.len(), 1);
    assert_eq!(semantics.observations.len(), 1);
    assert_eq!(semantics.observations[0].at_launch, 1);
    let again = semantic_facts(&program, &buffers, &Vec::new());
    assert_eq!(again.roots, semantics.roots);
}

#[test]
fn training_results_declare_per_step_and_end_of_run_cadences() {
    let builds = vec![
        build(1, "fwd", vec![rb(0, 0, ResourceAccess::Read, 1), rb(1, 0, ResourceAccess::Write, 2)]),
        build(2, "step", vec![rb(0, 0, ResourceAccess::ReadWrite, 1)]),
    ];
    let mut w = pbuf(1, "w", BufferRole::InOut, true, true);
    w.param = true;
    w.readwrite = true;
    let buffers = vec![w, pbuf(2, "loss", BufferRole::Output, true, false)];
    let (program, _) = construct_program(&builds, &buffers, true, Some(2), &Vec::new(), &Vec::new()).expect("acyclic");
    assert_eq!(program.lifetime, ProgramLifetime::RepeatingStep);
    let rows = declared_result_rows(&program, &buffers, true, Some(2), &Vec::new());
    let cadences: Vec<(u32, ObservationCadence)> = rows.iter().map(|r| (r.buffer.id, r.cadence)).collect();
    assert_eq!(cadences, vec![(1, ObservationCadence::EndOfRun), (2, ObservationCadence::PerStep)]);
    assert_eq!(unified_lifetime(&buffers[0], true, Some(2)), BufferLifetime::PerProgram);
    assert_eq!(unified_lifetime(&buffers[1], true, Some(2)), BufferLifetime::ObservationPoint);
}
