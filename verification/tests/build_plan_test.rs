use faber_package::device::build_plan::{
    is_companion_gradient_slot, is_param_input, select_kernels, slot_aliases, subchain_entry, CompanionFacts, FunctionFacts,
    GradientFlow, KernelSelectionError, KeyedBuffer, LocalBuffer, ParamUpdate,
};
use faber_package::device::prefill::SignatureResource;
use faber_package::device::prefill_graph::{prefill_kernel_graph, Recipe};
use faber_package::device::prefill_program::{assemble_prefill_program, DerivedKernel};
use faber_package::device::program::ResourceKind;
use faber_package::device::schema::{
    CompanionRelation, DerivativeKind, Extent3, KernelLaunchPlan, KernelPlan, ObservationCadence, ProgramLifetime, ResourceAccess,
    SelectedInput, WorkgroupSize,
};

fn f(id: u32, compute: bool, source: Option<u32>) -> FunctionFacts {
    FunctionFacts { id, compute, source }
}

#[test]
fn kernels_are_forward_then_companions_then_steps() {
    let fs = vec![f(10, true, Some(1)), f(11, false, Some(2)), f(12, true, Some(3)), f(13, false, Some(4))];
    let cs = vec![
        CompanionFacts { primal: 1, companion: 2, device_resident: true },
        CompanionFacts { primal: 3, companion: 9, device_resident: false },
    ];
    assert_eq!(select_kernels(&fs, &cs, &vec![13]), Ok(Some(vec![0, 2, 1, 3])));
    assert_eq!(select_kernels(&fs, &Vec::new(), &Vec::new()), Ok(Some(vec![0, 2])));
}

#[test]
fn no_compute_function_means_no_device_program() {
    let fs = vec![f(10, false, None)];
    let cs = vec![CompanionFacts { primal: 1, companion: 7, device_resident: true }];
    assert_eq!(select_kernels(&fs, &cs, &vec![10]), Ok(None));
}

#[test]
fn a_missing_companion_fails_closed() {
    let fs = vec![f(10, true, Some(1))];
    let cs = vec![
        CompanionFacts { primal: 1, companion: 7, device_resident: true },
        CompanionFacts { primal: 1, companion: 8, device_resident: true },
    ];
    assert_eq!(select_kernels(&fs, &cs, &Vec::new()), Err(KernelSelectionError::MissingCompanion { primal: 1, companion: 7 }));
}

#[test]
fn decomposed_kernels_take_numbered_entries() {
    assert_eq!(subchain_entry("loss_backward", 0, 1), "loss_backward");
    assert_eq!(subchain_entry("loss_backward", 0, 5), "loss_backward__0");
    assert_eq!(subchain_entry("loss_backward", 12, 13), "loss_backward__12");
}

#[test]
fn update_outputs_alias_parameters_and_gradient_inputs_alias_companion_slots() {
    let updates = vec![
        ParamUpdate { step_function: 5, param_local: 1, update_output: 0 },
        ParamUpdate { step_function: 5, param_local: 2, update_output: 1 },
    ];
    let param_buffers = vec![LocalBuffer { local: 1, buffer: 40 }, LocalBuffer { local: 2, buffer: 41 }];
    let tuple_locals = vec![20, 21];
    let params = vec![1, 2, 3];
    let flows = vec![GradientFlow { step_function: 5, gradient_position: 2, companion: 8, gradient_slot: 0 }];
    let gradients = vec![KeyedBuffer { first: 8, second: 0, buffer: 50 }];
    // The full result-tuple slot 1 updates parameter local 2 in place.
    let r = slot_aliases(false, Some(1), Some(21), 5, &params, &tuple_locals, &updates, &param_buffers, &flows, &gradients);
    assert_eq!(r, (Some(41), None));
    // A subchain's local output slot at index 1 that is not the tuple field never aliases.
    let r = slot_aliases(false, Some(1), Some(99), 5, &params, &tuple_locals, &updates, &param_buffers, &flows, &gradients);
    assert_eq!(r, (None, None));
    // The step's input at parameter position 2 reads the companion's gradient slot 0.
    let r = slot_aliases(true, None, Some(3), 5, &params, &tuple_locals, &updates, &param_buffers, &flows, &gradients);
    assert_eq!(r, (None, Some(50)));
    // Another function's input at that position has no gradient link.
    let r = slot_aliases(true, None, Some(3), 6, &params, &tuple_locals, &updates, &param_buffers, &flows, &gradients);
    assert_eq!(r, (None, None));
    assert!(is_param_input(true, Some(2), 5, &updates));
    assert!(!is_param_input(true, Some(2), 6, &updates));
    assert!(!is_param_input(false, Some(2), 5, &updates));
    assert!(!is_param_input(true, Some(3), 5, &updates));
}

#[test]
fn companion_gradient_slots_of_whole_function_kernels() {
    let relation = |device_resident: bool| CompanionRelation {
        primal: 1,
        companion: 2,
        derivative: DerivativeKind::ReverseModeVjp,
        device_resident,
        selected_inputs: vec![SelectedInput { param: 0, position: 0, ty: 7, gradient_slot: 1 }],
        selected_outputs: Vec::new(),
    };
    let relations = vec![relation(true)];
    assert!(is_companion_gradient_slot(true, Some(2), Some(1), &relations));
    assert!(!is_companion_gradient_slot(true, Some(2), Some(0), &relations));
    assert!(!is_companion_gradient_slot(false, Some(2), Some(1), &relations));
    assert!(!is_companion_gradient_slot(true, Some(3), Some(1), &relations));
    assert!(!is_companion_gradient_slot(true, Some(2), Some(1), &vec![relation(false)]));
}

fn storage(binding: u32, access: ResourceAccess) -> SignatureResource {
    SignatureResource {
        kind: ResourceKind::StorageBuffer,
        group: 0,
        binding,
        element_ty: 7,
        element_count: 4,
        reduced_projection: None,
        access,
    }
}

#[test]
fn the_prefill_program_observes_the_tied_head_logits() {
    let graph = prefill_kernel_graph();
    let n = graph.requests.len();
    let tied: Vec<usize> = (0..n).filter(|&i| graph.requests[i].recipe == Recipe::MatMulTiedHead).collect();
    assert_eq!(tied, vec![n - 1]);
    let logits_id = graph.requests[n - 1].output.id;
    let derived: Vec<DerivedKernel> = graph
        .requests
        .iter()
        .enumerate()
        .map(|(i, request)| DerivedKernel {
            function: i as u32,
            signature: (0..=request.inputs.len() as u32)
                .map(|b| storage(b, if b as usize == request.inputs.len() { ResourceAccess::Write } else { ResourceAccess::Read }))
                .collect(),
            plan: KernelPlan::Elementwise,
            launch: KernelLaunchPlan {
                workgroup: WorkgroupSize { x: 64, y: 1, z: 1 },
                dispatch_size: Extent3 { x: 4, y: 1, z: 1 },
                workgroup_count: Extent3 { x: 1, y: 1, z: 1 },
            },
            output: storage(9, ResourceAccess::Write),
        })
        .collect();
    let first_entry = graph.requests[0].entry.clone();
    let (program, semantics, logits) = assemble_prefill_program(graph, derived);
    assert_eq!(program.lifetime, ProgramLifetime::SingleRun);
    assert_eq!(program.kernels.len(), n);
    assert_eq!(program.kernels[0].entry, first_entry);
    assert_eq!(program.launches[n - 1].id as usize, n);
    assert_eq!(program.launches[n - 1].kernel_index, n - 1);
    assert_eq!(logits, logits_id);
    assert_eq!(program.results.len(), 1);
    assert_eq!(program.results[0].buffer.id, logits_id);
    assert_eq!(program.results[0].produced_by as usize, n);
    assert_eq!(program.results[0].cadence, ObservationCadence::PerStep);
    assert!(semantics.roots.contains(&1));
}
