use faber_package::device::assembly::{artifact_for_backend, metal_artifact, observation_buffer_ids, wire_resource_graph, WireGraphEdge};
use faber_package::device::constructor::{construct_program, sorted_by_binding, KernelBuild, ResourceBuild};
use faber_package::device::descriptor::{descriptor_for_backend, DescriptorError, ResultError, ResultFault};
use faber_package::device::facts::data_flow_pairs;
use faber_package::device::program::ProgramBuffer;
use faber_package::device::projection::{wire_program_for_program, wire_program_for_program_with_broadcast_facts};
use faber_package::device::run::{declared_step_observation, device_repeat_count, device_step_count, StepsError};
use faber_package::device::schema::{
    BarrierPhase, BroadcastDeclaration, BroadcastFact, BufferLifetime, BufferRole, DependencyEdge, DeviceProgram, DeviceSemantics, Extent3, KernelLaunchPlan, KernelPlan,
    ObservationCadence, OobPaddingPolicy, ProgramLifetime, ReduceOp, ReducedProjection, ReductionPlan, ResourceAccess, SharedMemoryLayout, ValueOrigin,
    WorkgroupSize,
};
use faber_package::device::section::DeviceSection;
use faber_package::device::training::DEFAULT_TRAINING_STEPS;
use faber_package::device::wire::{
    admit_device_program_section, AdmissionError, DeviceProgramSection, WireObservationFact, WireProgramLifetime, WireResultBuffer,
    DEVICE_RUN_PLAN_VERSION,
};
use faber_package::selection::{DeviceBackend, DeviceSelection};

fn launch_plan(x: u32) -> KernelLaunchPlan {
    KernelLaunchPlan {
        workgroup: WorkgroupSize { x, y: 1, z: 1 },
        dispatch_size: Extent3 { x: u64::from(x), y: 1, z: 1 },
        workgroup_count: Extent3 { x: 1, y: 1, z: 1 },
    }
}

fn rb(binding: u32, access: ResourceAccess, buffer_id: u32, element_count: u64) -> ResourceBuild {
    ResourceBuild { group: 0, binding, access, buffer_id, element_ty: 7, element_count }
}

fn pbuf(id: u32, name: &str, role: BufferRole, written: bool, consumed: bool, element_count: u64) -> ProgramBuffer {
    ProgramBuffer {
        id,
        name: name.to_owned(),
        element_ty: 7,
        element_count,
        role,
        written,
        consumed,
        readwrite: false,
        param: false,
        gradient: false,
        origin: ValueOrigin::HostInput,
    }
}

/// The one-kernel reduction: `summa(a) -> result`, a tree reduction over 256
/// lanes.
fn summa_fixture() -> (DeviceProgram, DeviceSemantics) {
    let plan = KernelPlan::TreeReduction(ReductionPlan {
        op: ReduceOp::Sum,
        length: 1024,
        workgroup_x: 256,
        partials: 4,
        shared_memory: SharedMemoryLayout { element_byte_width: 4, slot_count: 256, buffer_name: "partials".to_owned() },
        barriers: vec![BarrierPhase::SharedMemoryLoad, BarrierPhase::ReductionStep],
        oob_padding: OobPaddingPolicy::ZeroFill,
    });
    let builds = vec![KernelBuild {
        function: 0,
        entry: "summa".to_owned(),
        plan,
        launch: launch_plan(256),
        resources: vec![rb(0, ResourceAccess::Read, 1, 1024), rb(1, ResourceAccess::Write, 2, 1)],
    }];
    let buffers = vec![pbuf(1, "a", BufferRole::Input, false, true, 1024), pbuf(2, "result", BufferRole::Output, true, false, 1)];
    construct_program(&builds, &buffers, false, None, &Vec::new(), &Vec::new()).expect("acyclic")
}

/// The two-kernel chain `a -> collige -> medius -> recollige -> result`.
fn two_kernel_fixture() -> (DeviceProgram, DeviceSemantics) {
    two_kernel_fixture_named("medius")
}

/// The two-kernel chain with its intermediate under the given name.
fn two_kernel_fixture_named(intermediate: &str) -> (DeviceProgram, DeviceSemantics) {
    let builds = vec![
        KernelBuild {
            function: 1,
            entry: "collige".to_owned(),
            plan: KernelPlan::Elementwise,
            launch: launch_plan(64),
            resources: vec![rb(0, ResourceAccess::Read, 1, 4), rb(1, ResourceAccess::Write, 2, 4)],
        },
        KernelBuild {
            function: 2,
            entry: "recollige".to_owned(),
            plan: KernelPlan::Elementwise,
            launch: launch_plan(64),
            resources: vec![rb(0, ResourceAccess::Read, 2, 4), rb(1, ResourceAccess::Write, 3, 4)],
        },
    ];
    let buffers = vec![
        pbuf(1, "a", BufferRole::Input, false, true, 4),
        pbuf(2, intermediate, BufferRole::InOut, true, true, 4),
        pbuf(3, "result", BufferRole::Output, true, false, 4),
    ];
    construct_program(&builds, &buffers, false, None, &Vec::new(), &Vec::new()).expect("acyclic")
}

/// A minimal device section carrying a program's typed wire (no artifacts,
/// no inputs).
fn section_for_program(program: &DeviceProgram, semantics: &DeviceSemantics) -> DeviceSection {
    DeviceSection {
        device_program: DeviceProgramSection {
            v: DEVICE_RUN_PLAN_VERSION,
            program: wire_program_for_program(program, semantics, DEFAULT_TRAINING_STEPS),
        },
        selection: DeviceSelection::Auto,
        artifacts: Vec::new(),
        declared_inputs: Vec::new(),
        session: None,
    }
}

fn with_metal(mut section: DeviceSection) -> DeviceSection {
    section.artifacts = vec![metal_artifact(b"msl".to_vec())];
    section
}

fn result_error(section: &DeviceSection) -> DescriptorError {
    descriptor_for_backend(section, DeviceBackend::Metal, b"msl blob").expect_err("the descriptor must fail closed")
}

#[test]
fn device_test_wire_carries_the_complete_program() {
    let (program, semantics) = summa_fixture();
    let wire = wire_program_for_program(&program, &semantics, DEFAULT_TRAINING_STEPS);
    assert_eq!(wire.kernels.len(), program.kernels.len());
    let kernel = &wire.kernels[0];
    assert_eq!(kernel.function, program.kernels[0].function);
    assert_eq!(kernel.entry, "summa");
    assert!(matches!(kernel.plan, KernelPlan::TreeReduction(_)));
    assert_eq!(kernel.resources.len(), 2);
    assert_eq!(kernel.resources[0].access, ResourceAccess::Read);
    assert_eq!(kernel.resources[0].version.version, 1);
    assert_eq!(kernel.resources[0].version.element_ty, "f32");
    assert_eq!(kernel.launch.workgroup.x, 256);
    assert_eq!(wire.launches.len(), program.launches.len());
    assert_eq!(wire.launches[0].kernel_index, 0);
    assert_eq!(wire.results.len(), program.results.len());
    assert_eq!(wire.results[0].produced_by, program.results[0].produced_by);
    assert_eq!(wire.lifetime, WireProgramLifetime::SingleRun);
}

#[test]
fn device_test_constructor_derived_lifetimes_ride_the_typed_wire() {
    let (program, semantics) = summa_fixture();
    let wire = wire_program_for_program(&program, &semantics, DEFAULT_TRAINING_STEPS);
    let resources = &wire.kernels[0].resources;
    assert_eq!(resources[0].buffer.role, BufferRole::Input);
    assert_eq!(resources[0].buffer.lifetime, BufferLifetime::PerProgram);
    assert_eq!(resources[1].buffer.role, BufferRole::Output);
    assert_eq!(resources[1].buffer.lifetime, BufferLifetime::ObservationPoint);
}

#[test]
fn device_test_wire_v2_fails_closed_with_payload_version_diagnostic() {
    let (program, semantics) = summa_fixture();
    let mut section = section_for_program(&program, &semantics);
    section.device_program.v = 2;
    assert_eq!(
        admit_device_program_section(&section.device_program),
        Err(AdmissionError::UnsupportedWireVersion { found: 2 })
    );
}

#[test]
fn device_test_descriptor_rejects_result_only_wire_record() {
    let (program, semantics) = summa_fixture();
    let mut section = with_metal(section_for_program(&program, &semantics));
    section.device_program.program.results[0].buffer.id = 99;
    assert_eq!(
        result_error(&section),
        DescriptorError::Results(ResultError { result: 0, fault: ResultFault::NoMatchingResource { produced_by: 1 } })
    );
}

#[test]
fn device_test_descriptor_rejects_result_with_contradictory_role() {
    let (program, semantics) = summa_fixture();
    let mut section = with_metal(section_for_program(&program, &semantics));
    section.device_program.program.results[0].role = BufferRole::Input;
    assert_eq!(
        result_error(&section),
        DescriptorError::Results(ResultError { result: 0, fault: ResultFault::InvalidRole { role: BufferRole::Input } })
    );
}

fn output_results_only(section: &mut DeviceSection) {
    section.device_program.program.results.retain(|result| result.role == BufferRole::Output);
}

#[test]
fn device_test_descriptor_rejects_result_with_contradictory_producer() {
    let (program, semantics) = two_kernel_fixture();
    let mut section = with_metal(section_for_program(&program, &semantics));
    output_results_only(&mut section);
    let first_launch = section.device_program.program.launches[0].id;
    let last = section.device_program.program.results.len() - 1;
    section.device_program.program.results[last].produced_by = first_launch;
    section.device_program.program.results[last].observation.at_launch = first_launch;
    assert_eq!(
        result_error(&section),
        DescriptorError::Results(ResultError { result: last, fault: ResultFault::NoMatchingResource { produced_by: first_launch } })
    );
}

#[test]
fn device_test_descriptor_rejects_result_with_contradictory_version_shape() {
    let (program, semantics) = two_kernel_fixture();
    let mut section = with_metal(section_for_program(&program, &semantics));
    output_results_only(&mut section);
    let last = section.device_program.program.results.len() - 1;
    section.device_program.program.results[last].version.element_count += 1;
    let produced_by = section.device_program.program.results[last].produced_by;
    assert_eq!(
        result_error(&section),
        DescriptorError::Results(ResultError { result: last, fault: ResultFault::ShapeMismatch { produced_by } })
    );
}

#[test]
fn device_test_descriptor_rejects_result_with_contradictory_version_number() {
    let (program, semantics) = two_kernel_fixture();
    let mut section = with_metal(section_for_program(&program, &semantics));
    output_results_only(&mut section);
    let last = section.device_program.program.results.len() - 1;
    section.device_program.program.results[last].version.version += 1;
    assert_eq!(
        result_error(&section),
        DescriptorError::Results(ResultError { result: last, fault: ResultFault::VersionMismatch { declared: 2, used: 1 } })
    );
}

#[test]
fn device_test_descriptor_requires_declared_backend_artifact() {
    let artifacts = vec![metal_artifact(b"msl".to_vec())];
    assert!(artifact_for_backend(&artifacts, DeviceBackend::Metal).is_some());
    assert!(artifact_for_backend(&artifacts, DeviceBackend::Cuda).is_none(), "an undeclared backend artifact fails closed");
}

#[test]
fn device_test_descriptor_rejects_unknown_element_type_spelling() {
    let (program, semantics) = summa_fixture();
    let mut section = with_metal(section_for_program(&program, &semantics));
    section.device_program.program.kernels[0].resources[0].version.element_ty = "f64".to_owned();
    let buffer_id = section.device_program.program.kernels[0].resources[0].buffer.id;
    assert_eq!(result_error(&section), DescriptorError::UnknownElementType { buffer_id, version: 1 });
}

#[test]
fn device_test_descriptor_rejects_inout_result_before_host_projection() {
    let (program, semantics) = two_kernel_fixture();
    let mut section = with_metal(section_for_program(&program, &semantics));
    // A per-step in-out result row for the writable intermediate, which the
    // constructor never declares.
    let medius = section.device_program.program.kernels[0].resources[1].buffer.clone();
    let medius_version = section.device_program.program.kernels[0].resources[1].version.clone();
    section.device_program.program.results.insert(
        0,
        WireResultBuffer {
            buffer: medius,
            version: medius_version,
            role: BufferRole::InOut,
            produced_by: 1,
            observation: WireObservationFact { at_launch: 1, cadence: ObservationCadence::PerStep },
        },
    );
    assert_eq!(
        result_error(&section),
        DescriptorError::Results(ResultError {
            result: 0,
            fault: ResultFault::CadenceLifetime { cadence: ObservationCadence::PerStep, lifetime: BufferLifetime::PerStep },
        })
    );
}

#[test]
fn device_test_descriptor_rejects_duplicate_result_buffer_before_host_projection() {
    let (program, semantics) = summa_fixture();
    let mut section = with_metal(section_for_program(&program, &semantics));
    let duplicate = section.device_program.program.results[0].clone();
    section.device_program.program.results.push(duplicate);
    assert_eq!(
        result_error(&section),
        DescriptorError::Results(ResultError { result: 1, fault: ResultFault::Duplicate { first: 0 } })
    );
}

#[test]
fn device_test_two_kernel_chain_unifies_intermediate_identity() {
    let (program, _) = two_kernel_fixture();
    assert_eq!(program.kernels.len(), 2);
    assert_eq!(program.kernels[0].entry, "collige");
    assert_eq!(program.kernels[1].entry, "recollige");
    let medius0 = &program.kernels[0].resources[1];
    let medius1 = &program.kernels[1].resources[0];
    assert_eq!(medius0.buffer.name, "medius");
    assert_eq!(medius0.buffer.id, medius1.buffer.id);
    assert_eq!((medius0.buffer.role, medius0.buffer.lifetime), (BufferRole::InOut, BufferLifetime::PerStep));
    assert_eq!(medius0.access, ResourceAccess::Write);
    assert_eq!(medius1.access, ResourceAccess::Read);
    assert_eq!(medius0.version.element_count, medius1.version.element_count);
    let input = &program.kernels[0].resources[0];
    assert_eq!((input.buffer.name.as_str(), input.buffer.role, input.buffer.lifetime), ("a", BufferRole::Input, BufferLifetime::PerProgram));
    let output = &program.kernels[1].resources[1];
    assert_eq!(
        (output.buffer.name.as_str(), output.buffer.role, output.buffer.lifetime),
        ("result", BufferRole::Output, BufferLifetime::ObservationPoint)
    );
    assert_eq!(
        data_flow_pairs(&program),
        vec![DependencyEdge { producer: 1, consumer: 2, buffer: medius0.buffer.id, version: 1 }]
    );
    let results: Vec<(&str, u32)> = program.results.iter().map(|r| (r.buffer.name.as_str(), r.produced_by)).collect();
    assert_eq!(results, vec![("result", 2)]);
    assert_eq!(program.lifetime, ProgramLifetime::SingleRun);
}

#[test]
fn device_test_two_kernel_wire_carries_unified_lifetimes() {
    let (program, semantics) = two_kernel_fixture();
    let section = section_for_program(&program, &semantics);
    let wire = &section.device_program.program;
    assert_eq!(wire.kernels.len(), 2);
    let k0 = &wire.kernels[0].resources;
    assert_eq!(k0.len(), 2);
    assert_eq!((k0[0].buffer.name.as_str(), k0[0].buffer.role, k0[0].buffer.lifetime), ("a", BufferRole::Input, BufferLifetime::PerProgram));
    assert_eq!(
        (k0[1].buffer.name.as_str(), k0[1].buffer.role, k0[1].buffer.lifetime),
        ("medius", BufferRole::InOut, BufferLifetime::PerStep)
    );
    let k1 = &wire.kernels[1].resources;
    assert_eq!(k1.len(), 2);
    assert_eq!(k1[0].buffer.id, k0[1].buffer.id, "one buffer id for the intermediate");
    assert_eq!((k1[0].buffer.role, k1[0].buffer.lifetime), (BufferRole::InOut, BufferLifetime::PerStep));
    assert_eq!(
        (k1[1].buffer.name.as_str(), k1[1].buffer.role, k1[1].buffer.lifetime),
        ("result", BufferRole::Output, BufferLifetime::ObservationPoint)
    );
    assert_eq!(observation_buffer_ids(&section), vec![k1[1].buffer.id]);
    let again = wire_program_for_program(&program, &semantics, DEFAULT_TRAINING_STEPS);
    assert_eq!(again.kernels[1].resources[0].buffer.id, k1[0].buffer.id);
}

#[test]
fn device_test_wire_resource_graph_matches_registry_facts() {
    let (program, semantics) = two_kernel_fixture();
    let section = section_for_program(&program, &semantics);
    let (graph, edges) = wire_resource_graph(&section);
    let names: Vec<&str> = graph.iter().map(|buffer| buffer.name.as_str()).collect();
    assert_eq!(names, vec!["a", "medius", "result"]);
    let medius = graph.iter().find(|buffer| buffer.name == "medius").expect("intermediate is on the wire");
    assert_eq!(medius.version, 1);
    assert_eq!(edges, vec![WireGraphEdge { buffer_id: medius.id, version: 1, producer: 1, consumer: 2 }]);
}

#[test]
fn device_test_result_without_explicit_observation_fact_is_rejected() {
    let (program, semantics) = two_kernel_fixture();
    let mut section = with_metal(section_for_program(&program, &semantics));
    output_results_only(&mut section);
    let first_launch = section.device_program.program.launches[0].id;
    let last = section.device_program.program.results.len() - 1;
    let produced_by = section.device_program.program.results[last].produced_by;
    section.device_program.program.results[last].observation.at_launch = first_launch;
    assert_eq!(
        result_error(&section),
        DescriptorError::Results(ResultError {
            result: last,
            fault: ResultFault::ObservationBoundary { produced_by, at_launch: first_launch },
        })
    );
}

#[test]
fn device_test_two_kernel_chain_generations_and_producers_are_correct() {
    let (program, semantics) = two_kernel_fixture();
    let generations: Vec<(u32, u32, u32)> =
        semantics.generations.iter().map(|g| (g.value, g.generation, g.produced_by)).collect();
    assert_eq!(generations, vec![(2, 1, 1), (3, 1, 2)]);
    let wire = wire_program_for_program(&program, &semantics, DEFAULT_TRAINING_STEPS);
    assert_eq!(wire.kernels[0].resources[0].generation, 1);
    assert_eq!(wire.kernels[0].resources[1].generation, 1);
    assert_eq!(wire.kernels[1].resources[0].generation, 1);
    assert_eq!(wire.kernels[1].resources[1].generation, 1);
}

/// The chain declared backwards: `recollige` (kernel 0) reads `medius`, which
/// `collige` (kernel 1) writes.
#[test]
fn device_test_launches_follow_carried_dependencies_not_declaration_order() {
    let builds = vec![
        KernelBuild {
            function: 0,
            entry: "recollige".to_owned(),
            plan: KernelPlan::Elementwise,
            launch: launch_plan(64),
            resources: vec![rb(0, ResourceAccess::Read, 1, 4), rb(1, ResourceAccess::Write, 2, 1)],
        },
        KernelBuild {
            function: 1,
            entry: "collige".to_owned(),
            plan: KernelPlan::Elementwise,
            launch: launch_plan(64),
            resources: vec![rb(0, ResourceAccess::Read, 3, 1024), rb(1, ResourceAccess::Write, 1, 4)],
        },
    ];
    let buffers = vec![
        pbuf(1, "medius", BufferRole::InOut, true, true, 4),
        pbuf(2, "result", BufferRole::Output, true, false, 1),
        pbuf(3, "a", BufferRole::Input, false, true, 1024),
    ];
    let (program, semantics) =
        construct_program(&builds, &buffers, false, None, &Vec::new(), &Vec::new()).expect("acyclic");
    let order: Vec<(u32, usize)> = program.launches.iter().map(|l| (l.id, l.kernel_index)).collect();
    assert_eq!(order, vec![(2, 1), (1, 0)]);
    assert_eq!(semantics.roots, vec![2]);
    assert_eq!(semantics.dependencies, vec![DependencyEdge { producer: 2, consumer: 1, buffer: 1, version: 1 }]);
    let section = section_for_program(&program, &semantics);
    assert_eq!(admit_device_program_section(&section.device_program), Ok(()));
    let wire = &section.device_program.program;
    assert_eq!(wire.roots, vec![2]);
    let wire_order: Vec<(u32, u32)> = wire.launches.iter().map(|l| (l.id, l.kernel_index)).collect();
    assert_eq!(wire_order, vec![(2, 1), (1, 0)]);
}

#[test]
fn device_test_device_repeat_count_is_fail_closed() {
    assert_eq!(device_repeat_count(None), Some(1));
    assert_eq!(device_repeat_count(Some("5")), Some(5));
    assert_eq!(device_repeat_count(Some("lots")), None, "a non-numeric repeat count must fail closed");
}

#[test]
fn device_step_count_agrees_with_the_image_declared_count() {
    assert_eq!(device_step_count(250, None), Ok(250));
    assert_eq!(device_step_count(250, Some("250")), Ok(250));
    assert_eq!(device_step_count(250, Some("100")), Err(StepsError::Contradicts { given: 100, declared: 250 }));
    assert_eq!(device_step_count(250, Some("not-a-number")), Err(StepsError::NotACount));
}

#[test]
fn admit_device_program_section_rejects_zero_step_count() {
    let (program, semantics) = summa_fixture();
    let mut section = section_for_program(&program, &semantics);
    section.device_program.program.lifetime = WireProgramLifetime::RepeatingStep(0);
    assert_eq!(admit_device_program_section(&section.device_program), Err(AdmissionError::ZeroStepCount));
}

fn broadcast(lhs: Vec<u64>, rhs: Vec<u64>, result: Vec<u64>) -> BroadcastFact {
    BroadcastFact { lhs_shape: lhs, rhs_shape: rhs, result_shape: result, declaration: BroadcastDeclaration::RankExtension }
}

#[test]
fn admit_device_program_section_rejects_mismatched_broadcast_fact() {
    let (program, semantics) = summa_fixture();
    let mut section = section_for_program(&program, &semantics);
    section.device_program.program.kernels[0].plan = KernelPlan::RankExtensionAdd(broadcast(vec![2, 8], vec![4], vec![2, 8]));
    assert_eq!(
        admit_device_program_section(&section.device_program),
        Err(AdmissionError::MismatchedBroadcastShapes { kernel: 0 })
    );
}

#[test]
fn frozen_recipe_variant_plans_produce_real_wire_mirrors() {
    let (mut program, semantics) = summa_fixture();
    let projection = ReducedProjection { axis_extent: 4, inner_stride: 1 };
    let plans = vec![
        KernelPlan::AxisReduction { op: ReduceOp::Sum, axis: 1, projection },
        KernelPlan::RowSoftmax { axis: 1 },
        KernelPlan::LayerNormalization { axis: 1 },
    ];
    for plan in plans {
        let expected = format!("{plan:?}");
        program.kernels[0].plan = plan;
        let wire = wire_program_for_program(&program, &semantics, DEFAULT_TRAINING_STEPS);
        assert_eq!(format!("{:?}", wire.kernels[0].plan), expected, "the recipe plan maps to its wire mirror");
        let section = section_for_program(&program, &semantics);
        assert_eq!(admit_device_program_section(&section.device_program), Ok(()));
        assert_eq!(format!("{:?}", section.device_program.program.kernels[0].plan), expected);
    }
}

#[test]
fn rank_extension_broadcast_fact_rides_the_wire() {
    let (mut program, semantics) = summa_fixture();
    program.kernels[0].plan = KernelPlan::Elementwise;
    let facts = vec![Some(broadcast(vec![2, 8], vec![8], vec![2, 8]))];
    let with_fact = wire_program_for_program_with_broadcast_facts(&program, &semantics, DEFAULT_TRAINING_STEPS, &facts);
    match &with_fact.kernels[0].plan {
        KernelPlan::RankExtensionAdd(fact) => {
            assert_eq!(fact.lhs_shape, vec![2, 8]);
            assert_eq!(fact.rhs_shape, vec![8]);
            assert_eq!(fact.result_shape, vec![2, 8]);
            assert_eq!(fact.declaration, BroadcastDeclaration::RankExtension);
        }
        other => panic!("the carried broadcast fact rides the wire as the rank-extension add plan, not {other:?}"),
    }
    let plain = wire_program_for_program(&program, &semantics, DEFAULT_TRAINING_STEPS);
    assert!(matches!(plain.kernels[0].plan, KernelPlan::Elementwise), "no carried fact means no rank-extension add");
    let mut section = section_for_program(&program, &semantics);
    section.device_program.program = with_fact;
    assert_eq!(admit_device_program_section(&section.device_program), Ok(()));
}

/// The one-kernel reduction `summa` over 256 lanes, its slots handed over
/// out of binding order.
#[test]
fn device_test_device_program_constructor_finds_compute_kernel() {
    let plan = KernelPlan::TreeReduction(ReductionPlan {
        op: ReduceOp::Sum,
        length: 256,
        workgroup_x: 256,
        partials: 1,
        shared_memory: SharedMemoryLayout { element_byte_width: 4, slot_count: 256, buffer_name: "partials".to_owned() },
        barriers: vec![BarrierPhase::SharedMemoryLoad, BarrierPhase::ReductionStep],
        oob_padding: OobPaddingPolicy::ZeroFill,
    });
    let resources = sorted_by_binding(&vec![rb(1, ResourceAccess::Write, 2, 1), rb(0, ResourceAccess::Read, 1, 256)]);
    let builds = vec![KernelBuild { function: 0, entry: "summa".to_owned(), plan, launch: launch_plan(256), resources }];
    let buffers = vec![pbuf(1, "a", BufferRole::Input, false, true, 256), pbuf(2, "result", BufferRole::Output, true, false, 1)];
    let (program, _) = construct_program(&builds, &buffers, false, None, &Vec::new(), &Vec::new()).expect("acyclic");
    assert_eq!(program.kernels.len(), 1);
    let kernel = &program.kernels[0];
    assert_eq!(kernel.entry, "summa");
    assert_eq!(kernel.resources.len(), 2);
    assert_eq!(kernel.resources[0].buffer.role, BufferRole::Input);
    assert_eq!(kernel.resources[0].version.element_count, 256);
    assert_eq!(kernel.resources[1].buffer.role, BufferRole::Output);
    assert_eq!(kernel.resources[1].version.element_count, 1);
    assert_eq!(kernel.resources[0].buffer.lifetime, BufferLifetime::PerProgram);
    assert_eq!(kernel.resources[1].buffer.lifetime, BufferLifetime::ObservationPoint);
    assert_eq!(kernel.launch.workgroup_count.x, 1);
    assert_eq!(kernel.launch.workgroup.x, 256);
    assert_eq!(program.launches.len(), 1);
    assert_eq!(program.results.len(), 1);
}

#[test]
fn device_test_symbol_rename_leaves_program_graph_unchanged() {
    let graph = |program: &DeviceProgram, semantics: &DeviceSemantics| {
        (
            program
                .kernels
                .iter()
                .flat_map(|k| k.resources.iter().map(|r| (r.buffer.id, r.buffer.role, r.buffer.lifetime, r.access)))
                .collect::<Vec<_>>(),
            semantics.values.iter().map(|v| (v.id, format!("{:?}", v.origin))).collect::<Vec<_>>(),
            program.launches.iter().map(|l| (l.id, l.kernel_index)).collect::<Vec<_>>(),
            program.results.iter().map(|r| (r.buffer.id, r.produced_by)).collect::<Vec<_>>(),
            data_flow_pairs(program),
        )
    };
    let (named_program, named_semantics) = two_kernel_fixture_named("medius");
    let (renamed_program, renamed_semantics) = two_kernel_fixture_named("medius2");
    let named = graph(&named_program, &named_semantics);
    let renamed = graph(&renamed_program, &renamed_semantics);
    assert_eq!(named.0, renamed.0, "buffer identities are name-independent");
    assert_eq!(named.1, renamed.1, "value identities and origins are name-independent");
    assert_eq!(named.2, renamed.2, "launch order is name-independent");
    assert_eq!(named.3, renamed.3, "results are name-independent");
    assert_eq!(named.4, renamed.4, "data-flow edges are name-independent");
    assert_eq!(named_program.kernels[0].resources[1].buffer.name, "medius");
    assert_eq!(renamed_program.kernels[0].resources[1].buffer.name, "medius2");
}

#[test]
fn device_test_double_write_carries_two_explicit_generations() {
    let kernel = |entry: &str, function: u32| KernelBuild {
        function,
        entry: entry.to_owned(),
        plan: KernelPlan::Elementwise,
        launch: launch_plan(1),
        resources: vec![rb(1, ResourceAccess::Write, 1, 4)],
    };
    let builds = vec![kernel("step_1", 0), kernel("step_2", 1)];
    let buffers = vec![pbuf(1, "acc", BufferRole::Output, true, false, 4)];
    let (program, semantics) =
        construct_program(&builds, &buffers, false, None, &Vec::new(), &Vec::new()).expect("acyclic");
    let generations: Vec<(u32, u32, u32)> =
        semantics.generations.iter().map(|g| (g.value, g.generation, g.produced_by)).collect();
    assert_eq!(generations, vec![(1, 1, 1), (1, 2, 2)], "a later write is a new generation");
    let wire = wire_program_for_program(&program, &semantics, DEFAULT_TRAINING_STEPS);
    assert_eq!(wire.kernels[0].resources[0].generation, 1);
    assert_eq!(wire.kernels[1].resources[0].generation, 2);
    assert_eq!(wire.semantic_values.len(), 1);
}

/// The readbacks carry a tensor observation (buffer 3) before the scalar loss
/// (buffer 4); the report reads the declared per-step observation, never the
/// first buffer in id order.
#[test]
fn step_run_report_selects_the_scalar_loss_observation() {
    let (program, semantics) = two_kernel_fixture();
    let mut wire = wire_program_for_program(&program, &semantics, DEFAULT_TRAINING_STEPS);
    let mut tensor = wire.results[0].clone();
    tensor.buffer.id = 3;
    tensor.observation.cadence = ObservationCadence::EndOfRun;
    let mut loss = wire.results[0].clone();
    loss.buffer.id = 4;
    loss.observation.cadence = ObservationCadence::PerStep;
    wire.results = vec![tensor.clone(), loss];
    assert_eq!(declared_step_observation(&wire.results), Some(4));
    assert_ne!(declared_step_observation(&wire.results), Some(3), "never the tensor observation");
    wire.results = vec![tensor];
    assert_eq!(declared_step_observation(&wire.results), None);
}
