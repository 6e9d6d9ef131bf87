use faber_package::device::assembly::{
    artifact_for_backend, assemble_device_section, cuda_artifact, inputs_by_buffer_id, metal_artifact, observation_buffer_ids,
    wire_resource_graph, WireGraphEdge,
};
use faber_package::device::constructor::{construct_program, KernelBuild, ResourceBuild};
use faber_package::device::descriptor::{descriptor_for_backend, validate_wire_results, DescriptorError};
use faber_package::device::program::ProgramBuffer;
use faber_package::device::run::host_receipt_launch_order_line;
use faber_package::device::schema::{
    BufferRole, DeviceProgram, DeviceSemantics, Extent3, InitializationPolicy, KernelLaunchPlan, KernelPlan, ResourceAccess,
    ValueOrigin, WorkgroupSize,
};
use faber_package::device::section::{admit_session_section, wire_buffer_name, DeclaredInput, DeviceSection, DeviceSymbol};
use faber_package::device::wire::{admit_device_program_section, AdmissionError, WireProgramLifetime, DEVICE_RUN_PLAN_VERSION};
use faber_package::selection::{DeviceBackend, DeviceSelection};

fn launch_plan() -> KernelLaunchPlan {
    KernelLaunchPlan {
        workgroup: WorkgroupSize { x: 64, y: 1, z: 1 },
        dispatch_size: Extent3 { x: 4, y: 1, z: 1 },
        workgroup_count: Extent3 { x: 1, y: 1, z: 1 },
    }
}

fn rb(binding: u32, access: ResourceAccess, buffer_id: u32) -> ResourceBuild {
    ResourceBuild { group: 0, binding, access, buffer_id, element_ty: 7, element_count: 4 }
}

fn pbuf(id: u32, name: &str, role: BufferRole, written: bool, consumed: bool) -> ProgramBuffer {
    ProgramBuffer {
        id,
        name: name.to_owned(),
        element_ty: 7,
        element_count: 4,
        role,
        written,
        consumed,
        readwrite: false,
        param: false,
        gradient: false,
        origin: ValueOrigin::HostInput,
    }
}

/// Two chained kernels: `x -> double -> mid -> square -> y`.
fn chain() -> (DeviceProgram, DeviceSemantics) {
    let builds = vec![
        KernelBuild {
            function: 1,
            entry: "double".to_owned(),
            plan: KernelPlan::Elementwise,
            launch: launch_plan(),
            resources: vec![rb(0, ResourceAccess::Read, 1), rb(1, ResourceAccess::Write, 2)],
        },
        KernelBuild {
            function: 2,
            entry: "square".to_owned(),
            plan: KernelPlan::Elementwise,
            launch: launch_plan(),
            resources: vec![rb(0, ResourceAccess::Read, 2), rb(1, ResourceAccess::Write, 3)],
        },
    ];
    let buffers = vec![
        pbuf(1, "x", BufferRole::Input, false, true),
        pbuf(2, "mid", BufferRole::InOut, true, true),
        pbuf(3, "y", BufferRole::Output, true, false),
    ];
    construct_program(&builds, &buffers, false, None, &Vec::new(), &Vec::new()).expect("acyclic")
}

fn section() -> DeviceSection {
    let (program, semantics) = chain();
    let inputs = vec![
        DeclaredInput { name: "x".to_owned(), values: vec![1, 2, 3, 4] },
        DeclaredInput { name: "unused".to_owned(), values: vec![9] },
        DeclaredInput { name: "x".to_owned(), values: vec![5, 6, 7, 8] },
    ];
    let metal = metal_artifact(b"kernel void double() {}".to_vec());
    let cuda = cuda_artifact(b"// ptx".to_vec(), vec![DeviceSymbol { entry: "double".to_owned(), symbol: "_Z6double".to_owned() }]);
    assemble_device_section(&program, &semantics, DeviceSelection::Auto, inputs, 0, metal, Some(cuda))
}

#[test]
fn an_assembled_section_is_admitted_and_carries_its_artifacts() {
    let s = section();
    assert_eq!(s.device_program.v, DEVICE_RUN_PLAN_VERSION);
    assert_eq!(s.device_program.program.lifetime, WireProgramLifetime::SingleRun);
    assert_eq!(admit_device_program_section(&s.device_program), Ok(()));
    assert_eq!(admit_session_section(&s), Ok(()));
    assert_eq!(s.artifacts.len(), 2);
    assert_eq!(s.artifacts[0].target_id, "macos-arm64");
    assert_eq!(s.artifacts[1].required_features, vec!["sm_120".to_owned()]);
    assert_eq!(artifact_for_backend(&s.artifacts, DeviceBackend::Cuda), Some(1));
    assert_eq!(artifact_for_backend(&s.artifacts, DeviceBackend::Metal), Some(0));
    let only_metal = vec![metal_artifact(Vec::new())];
    assert_eq!(artifact_for_backend(&only_metal, DeviceBackend::Cuda), None);
}

#[test]
fn a_wrong_wire_version_is_refused() {
    let mut s = section();
    s.device_program.v = DEVICE_RUN_PLAN_VERSION - 1;
    assert_eq!(
        admit_device_program_section(&s.device_program),
        Err(AdmissionError::UnsupportedWireVersion { found: DEVICE_RUN_PLAN_VERSION - 1 })
    );
    let mut s = section();
    s.device_program.program.lifetime = WireProgramLifetime::RepeatingStep(0);
    assert_eq!(admit_device_program_section(&s.device_program), Err(AdmissionError::ZeroStepCount));
}

#[test]
fn host_inputs_bind_by_buffer_name_with_the_last_declaration() {
    let s = section();
    let inputs = inputs_by_buffer_id(&s);
    assert_eq!(inputs.len(), 1);
    assert_eq!(inputs[0].buffer, 1);
    assert_eq!(inputs[0].values, vec![5, 6, 7, 8]);
    assert_eq!(observation_buffer_ids(&s), vec![3]);
    assert_eq!(wire_buffer_name(&s, 2), "mid");
    assert_eq!(wire_buffer_name(&s, 99), "<unknown>");
}

#[test]
fn the_wire_resource_graph_has_every_version_and_the_chain_edge() {
    let s = section();
    let (buffers, edges) = wire_resource_graph(&s);
    let ids: Vec<(u32, u32)> = buffers.iter().map(|b| (b.id, b.version)).collect();
    assert_eq!(ids, vec![(1, 1), (2, 1), (3, 1)]);
    assert_eq!(buffers[1].name, "mid");
    assert_eq!(edges, vec![WireGraphEdge { buffer_id: 2, version: 1, producer: 1, consumer: 2 }]);
}

#[test]
fn the_descriptor_follows_the_wire_and_prints_its_launch_order() {
    let s = section();
    assert_eq!(validate_wire_results(&s.device_program.program), Ok(()));
    let d = descriptor_for_backend(&s, DeviceBackend::Cuda, b"blob").expect("descriptor");
    assert_eq!(d.launches.len(), 2);
    assert_eq!(d.kernels[0].entry, "_Z6double");
    assert_eq!(d.kernels[1].entry, "square");
    assert_eq!(d.results.len(), 1);
    assert_eq!(d.module_image, b"blob".to_vec());
    assert_eq!(
        host_receipt_launch_order_line(&d),
        "device: launch order: [#0 id=1 kernel_index=0 backend_entry=`_Z6double`, #1 id=2 kernel_index=1 backend_entry=`square`]"
    );
    let m = descriptor_for_backend(&s, DeviceBackend::Metal, b"").expect("descriptor");
    assert_eq!(m.kernels[0].entry, "double");
    assert_eq!(m.kernels[0].buffers[0].initialization, InitializationPolicy::HostProvided);
    assert_eq!(m.kernels[0].buffers[1].initialization, InitializationPolicy::KernelInitialized);
}

#[test]
fn a_result_row_naming_an_unknown_launch_fails_the_descriptor() {
    let mut s = section();
    s.device_program.program.results[0].produced_by = 77;
    assert!(validate_wire_results(&s.device_program.program).is_err());
    assert!(matches!(descriptor_for_backend(&s, DeviceBackend::Metal, b""), Err(DescriptorError::Results(_))));
}
