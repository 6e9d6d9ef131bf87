use faber_package::device::assembly::{assemble_device_section, metal_artifact};
use faber_package::device::prefill::{
    algorithm, representation, build_semantics, half_to_single_bits, hex_le_words, prefill_input_names, resources_from_signature, shape_class,
    split_columns, split_rows, transpose_kmajor, workspace, BufferFacts, HexError, KernelAssembler, SignatureResource,
};
use faber_package::device::prefill_graph::{prefill_kernel_graph, Recipe};
use faber_package::device::prefill_weights::{layer_declared_inputs, repack_layer, LayerTensors};
use faber_package::device::program::ResourceKind;
use faber_package::device::schema::{
    BufferLifetime, BufferRole, DependencyEdge, DeviceProgram, Extent3, KernelLaunchPlan, KernelPlan,
    ProgramLifetime, ResourceAccess, WorkgroupSize,
};
use faber_package::device::section::DeclaredInput;
use faber_package::selection::DeviceSelection;

// ---------------------------------------------------------------------------
// The declared f32 repack
// ---------------------------------------------------------------------------

#[test]
fn split_columns_cuts_each_head_columns() {
    // A synthetic K-major [2, 3*4] weight (storage `data[i + 2*j]` — input
    // row `i`, output column `j`) → 3 heads of [2, 4]: head `h` gets
    // `slice[k*4 + n] = data[k + 2*(h*4 + n)]`.
    let source = (0..2 * 3 * 4).map(|value| value as f32).collect::<Vec<f32>>();
    let heads = split_columns(&source, 2, 3 * 4, 4);
    assert_eq!(heads.len(), 3);
    for h in 0..3 {
        assert_eq!(heads[h].len(), 2 * 4);
        for k in 0..2 {
            for n in 0..4 {
                assert_eq!(heads[h][k * 4 + n], source[k + 2 * (h * 4 + n)], "head {h} input {k} head-dim {n}");
            }
        }
    }
}

#[test]
fn split_rows_cuts_each_output_head_rows() {
    // A synthetic K-major [3*4, 6] weight → 3 heads of [4, 6]: head `h`
    // gets `slice[k*6 + d] = data[d*(3*4) + h*4 + k]`.
    let source = (0..3 * 4 * 6).map(|value| value as f32).collect::<Vec<f32>>();
    let heads = split_rows(&source, 3 * 4, 6, 4);
    assert_eq!(heads.len(), 3);
    for h in 0..3 {
        assert_eq!(heads[h].len(), 4 * 6);
        for k in 0..4 {
            for d in 0..6 {
                assert_eq!(heads[h][k * 6 + d], source[d * (3 * 4) + h * 4 + k], "head {h} ctx-dim {k} output {d}");
            }
        }
    }
}

#[test]
fn transpose_kmajor_reads_each_output_column() {
    // [2, 3] K-major storage `data[i + 2*j]`; row-major out `[k*3 + n]`.
    let source: Vec<u32> = vec![10, 11, 20, 21, 30, 31];
    assert_eq!(transpose_kmajor(&source, 2, 3), vec![10, 20, 30, 11, 21, 31]);
    assert_eq!(transpose_kmajor(&source, 0, 3), Vec::<u32>::new());
}

#[test]
fn split_of_a_partial_head_keeps_only_whole_heads() {
    // 10 output columns with 4-wide heads: two whole heads, the rest unread.
    let source: Vec<u32> = (0..2 * 10).collect();
    let heads = split_columns(&source, 2, 10, 4);
    assert_eq!(heads.len(), 2);
    assert_eq!(heads[1], vec![8, 10, 12, 14, 9, 11, 13, 15]);
}

#[test]
fn half_decode_keeps_each_value_exactly() {
    let decode = |bits: u16| f32::from_bits(half_to_single_bits(bits));
    assert_eq!(decode(0x3c00), 1.0);
    assert_eq!(decode(0xb800), -0.5);
    assert_eq!(decode(0x7bff), 65504.0);
    // The f16 rounding of 0.1.
    assert_eq!(decode(0x2e66), 0.0999755859375);
    assert_eq!(half_to_single_bits(0x0000), 0x0000_0000);
    assert_eq!(half_to_single_bits(0x8000), 0x8000_0000);
    // Subnormal halves become normal singles.
    assert_eq!(half_to_single_bits(0x0001), 0x3380_0000);
    assert_eq!(half_to_single_bits(0x8001), 0xb380_0000);
    assert_eq!(half_to_single_bits(0x0200), 0x3800_0000);
    assert_eq!(half_to_single_bits(0x03ff), 0x387f_c000);
    assert_eq!(half_to_single_bits(0x0400), 0x3880_0000);
    // Infinities and NaNs keep their fraction.
    assert_eq!(half_to_single_bits(0x7c00), 0x7f80_0000);
    assert_eq!(half_to_single_bits(0xfc00), 0xff80_0000);
    assert_eq!(half_to_single_bits(0x7e00), 0x7fc0_0000);
    assert!(decode(0x7c01).is_nan());
}

// ---------------------------------------------------------------------------
// The golden's hex byte stream
// ---------------------------------------------------------------------------

#[test]
fn hex_words_decode_little_endian() {
    assert_eq!(hex_le_words(b"0000803f"), Ok(vec![0x3f80_0000]));
    assert_eq!(f32::from_bits(hex_le_words(b"0000803F").unwrap()[0]), 1.0);
    assert_eq!(hex_le_words(b"0100000002000000"), Ok(vec![1, 2]));
    assert_eq!(hex_le_words(b""), Ok(Vec::new()));
    // A sign before a single digit spells that digit.
    assert_eq!(hex_le_words(b"+f000000"), Ok(vec![0x0f]));
}

#[test]
fn hex_words_refuse_malformed_streams() {
    assert_eq!(hex_le_words(b"000"), Err(HexError::OddLength));
    assert_eq!(hex_le_words(b"zz000000"), Err(HexError::Malformed));
    assert_eq!(hex_le_words(b"00-1"), Err(HexError::Malformed));
    assert_eq!(hex_le_words(b"++000000"), Err(HexError::Malformed));
    assert_eq!(hex_le_words(b"0000"), Err(HexError::NotWords { bytes: 2 }));
    // A malformed pair is refused before the length is checked.
    assert_eq!(hex_le_words(b"0g"), Err(HexError::Malformed));
}

// ---------------------------------------------------------------------------
// The kernel assembler
// ---------------------------------------------------------------------------

fn launch_plan() -> KernelLaunchPlan {
    KernelLaunchPlan {
        workgroup: WorkgroupSize { x: 64, y: 1, z: 1 },
        dispatch_size: Extent3 { x: 4, y: 1, z: 1 },
        workgroup_count: Extent3 { x: 1, y: 1, z: 1 },
    }
}

fn storage(binding: u32, access: ResourceAccess) -> SignatureResource {
    SignatureResource {
        kind: ResourceKind::StorageBuffer,
        group: 0,
        binding,
        element_ty: 7,
        element_count: 4,
        reduced_projection: None,
        access,
    }
}

#[test]
fn registering_an_input_twice_answers_the_same_id() {
    let mut a = KernelAssembler::new();
    let embd = a.register_input("token_embd.weight");
    let prompt = a.register_input("prompt_tokens");
    assert_eq!((embd, prompt), (1, 2));
    assert_eq!(a.register_input("token_embd.weight"), 1);
    assert_eq!(a.next_buffer, 3);
    let facts = a.input_facts("prompt_tokens");
    assert_eq!((facts.id, facts.name.as_str()), (2, "prompt_tokens"));
    assert_eq!((facts.role, facts.lifetime), (BufferRole::Input, BufferLifetime::PerProgram));
    let fresh = a.fresh_activation("prefill.h");
    assert_eq!(fresh.id, 3);
    assert_eq!((fresh.role, fresh.lifetime), (BufferRole::InOut, BufferLifetime::PerStep));
    assert_eq!(a.register_input("output_norm.weight"), 4);
}

#[test]
fn the_prefill_inputs_register_in_order() {
    let names = prefill_input_names();
    // 2 fixed + 32×45 per-layer weights + the output norm.
    assert_eq!(names.len(), 2 + 32 * 45 + 1);
    assert_eq!(names[0], "token_embd.weight");
    assert_eq!(names[1], "prompt_tokens");
    assert_eq!(names[2], "blk.0.attn_norm.weight");
    assert_eq!(names[3], "blk.0.attn_q.h0.weight");
    assert_eq!(names[4], "blk.0.attn_output.h0.weight");
    assert_eq!(names[31], "blk.0.attn_q.h14.weight");
    assert_eq!(names[33], "blk.0.attn_k.g0.weight");
    assert_eq!(names[34], "blk.0.attn_v.g0.weight");
    assert_eq!(names[43], "blk.0.ffn_norm.weight");
    assert_eq!(names[46], "blk.0.ffn_down.weight");
    assert_eq!(names[47], "blk.1.attn_norm.weight");
    assert_eq!(names[2 + 31 * 45], "blk.31.attn_norm.weight");
    assert_eq!(names[names.len() - 1], "output_norm.weight");
    let mut a = KernelAssembler::new();
    a.register_inputs(&names);
    assert_eq!(a.known.len(), names.len());
    assert_eq!(a.next_buffer as usize, names.len() + 1);
    assert_eq!(a.input_facts("blk.0.attn_q.h14.weight").id, 32);
}

#[test]
fn signature_storage_slots_bind_the_callers_buffers_in_order() {
    let facts = vec![BufferFacts::input(5, "w"), BufferFacts::activation(6, "out")];
    let uniform = SignatureResource { kind: ResourceKind::Uniform, ..storage(9, ResourceAccess::Read) };
    let signature = vec![storage(0, ResourceAccess::Read), uniform, storage(1, ResourceAccess::Write), storage(2, ResourceAccess::Write)];
    let rs = resources_from_signature(&signature, &facts);
    assert_eq!(rs.len(), 2);
    assert_eq!((rs[0].buffer.id, rs[0].binding.binding, rs[0].access), (5, 0, ResourceAccess::Read));
    assert_eq!((rs[1].buffer.id, rs[1].binding.binding, rs[1].access), (6, 1, ResourceAccess::Write));
    assert_eq!(rs[1].buffer.name, "out");
    assert_eq!(rs[1].buffer.role, BufferRole::InOut);
    assert_eq!(rs[1].version.version, 1);
    assert_eq!(rs[1].version.element_count, 4);
}

/// `x -> a -> y`, `y -> b -> z`, then `x, z -> c -> y` in place.
fn assembled() -> DeviceProgram {
    let mut a = KernelAssembler::new();
    let x = a.register_input("x");
    assert_eq!(x, 1);
    let x = a.input_facts("x");
    let y = a.fresh_activation("y");
    let z = a.fresh_activation("z");
    let sig2 = vec![storage(0, ResourceAccess::Read), storage(1, ResourceAccess::Write)];
    let r = resources_from_signature(&sig2, &vec![x.clone(), y.clone()]);
    assert_eq!(a.push_kernel(0, "a".to_owned(), KernelPlan::Elementwise, r, launch_plan()), 1);
    let r = resources_from_signature(&sig2, &vec![y.clone(), z.clone()]);
    assert_eq!(a.push_kernel(1, "b".to_owned(), KernelPlan::Elementwise, r, launch_plan()), 2);
    let sig3 = vec![storage(0, ResourceAccess::Read), storage(1, ResourceAccess::Read), storage(2, ResourceAccess::ReadWrite)];
    let r = resources_from_signature(&sig3, &vec![x, z, y]);
    assert_eq!(a.push_kernel(2, "c".to_owned(), KernelPlan::Elementwise, r, launch_plan()), 3);
    assert_eq!(a.launches.len(), 3);
    assert_eq!(a.launches[2].kernel_index, 2);
    DeviceProgram { lifetime: ProgramLifetime::SingleRun, kernels: a.kernels, launches: a.launches, results: a.results }
}

#[test]
fn each_read_is_fed_by_the_latest_earlier_writer() {
    let program = assembled();
    let s = build_semantics(&program);
    assert_eq!(
        s.dependencies,
        vec![
            DependencyEdge { producer: 1, consumer: 2, buffer: 2, version: 1 },
            DependencyEdge { producer: 2, consumer: 3, buffer: 3, version: 1 },
        ]
    );
    assert_eq!(s.roots, vec![1]);
    assert!(s.values.is_empty() && s.generations.is_empty() && s.observations.is_empty());
}

#[test]
fn a_read_nobody_writes_feeds_no_edge() {
    let mut program = assembled();
    // Kernel `b` now reads `x`, which only the host provides.
    program.kernels[1].resources[0] = program.kernels[0].resources[0].clone();
    let s = build_semantics(&program);
    assert_eq!(s.dependencies, vec![DependencyEdge { producer: 2, consumer: 3, buffer: 3, version: 1 }]);
    assert_eq!(s.roots, vec![1, 2]);
}

#[test]
fn the_receipt_labels_name_the_shape_and_the_workspace() {
    assert_eq!(shape_class(), "prefill-9t");
    let program = assembled();
    let semantics = build_semantics(&program);
    let inputs = vec![DeclaredInput { name: "x".to_owned(), values: vec![1, 2, 3, 4] }];
    let section = assemble_device_section(&program, &semantics, DeviceSelection::Metal, inputs, 0, metal_artifact(Vec::new()), None);
    assert_eq!(
        workspace(&section.device_program.program),
        "3 kernels, 3 launches, 2 input-role slots (logits observation [9, 49152])"
    );
}

#[test]
fn the_prefill_kernel_graph_follows_the_forward_path() {
    let g = prefill_kernel_graph();
    let reqs = &g.requests;
    assert_eq!(reqs.len(), 5188, "1 gather + 32×162 + 3 (output_norm, transpose token_embd, logits)");
    // 2 fixed + 32×45 per-layer weights + the output norm + the 2 rotation tables.
    assert_eq!(g.assembler.known.len(), 1445);
    let layer = |base: &str| format!("prefill_blk_0_{base}");
    let mut expected: Vec<String> = vec!["prefill_gather".to_owned()];
    expected.push(layer("attn_norm"));
    for hq in 0..15 {
        expected.push(layer(&format!("attn_q_h{hq}")));
        expected.push(layer(&format!("rope_q_h{hq}")));
    }
    for g in 0..5 {
        expected.push(layer(&format!("attn_k_g{g}")));
        expected.push(layer(&format!("rope_k_g{g}")));
        expected.push(layer(&format!("kv_f16_round_k_g{g}")));
        expected.push(layer(&format!("transpose_k_g{g}")));
        expected.push(layer(&format!("attn_v_g{g}")));
        expected.push(layer(&format!("kv_f16_round_v_g{g}")));
    }
    for hq in 0..15 {
        expected.push(layer(&format!("scores_h{hq}")));
        expected.push(layer(&format!("scale_scores_h{hq}")));
        expected.push(layer(&format!("causal_softmax_h{hq}")));
        expected.push(layer(&format!("context_h{hq}")));
        expected.push(layer(&format!("attn_output_h{hq}")));
        if hq > 0 {
            expected.push(layer(&format!("sum_o_h{hq}")));
        }
    }
    for base in [
        "residual_attn", "ffn_norm", "ffn_gate", "ffn_up", "swiglu_neg", "swiglu_exp", "swiglu_add1", "swiglu_div",
        "swiglu_silu", "swiglu_up", "ffn_down", "residual_ffn",
    ] {
        expected.push(layer(base));
    }
    assert_eq!(expected.len(), 163, "gather + one full layer");
    let entries: Vec<&str> = reqs.iter().take(expected.len()).map(|r| r.entry.as_str()).collect();
    let expected_refs: Vec<&str> = expected.iter().map(String::as_str).collect();
    assert_eq!(entries, expected_refs);
    assert_eq!(reqs[1 + 162].entry, "prefill_blk_1_attn_norm");
    assert_eq!(reqs[5185].entry, "prefill_output_norm");
    assert_eq!(reqs[5186].entry, "prefill_transpose_token_embd");
    let logits = &reqs[5187];
    assert_eq!((logits.recipe, logits.entry.as_str()), (Recipe::MatMulTiedHead, "prefill_tied_head"));
    assert_eq!((logits.output.name.as_str(), logits.output.role), ("prefill.logits", BufferRole::Output));
    assert_eq!(logits.output.lifetime, BufferLifetime::ObservationPoint);
    assert_eq!(logits.inputs[0], reqs[5185].output);
    assert_eq!(logits.inputs[1], reqs[5186].output);
}

#[test]
fn each_query_head_reads_its_key_value_group() {
    let g = prefill_kernel_graph();
    let reqs = &g.requests;
    for hq in 0..15usize {
        let group = hq / 3;
        let scores = reqs.iter().position(|r| r.entry == format!("prefill_blk_0_scores_h{hq}")).unwrap();
        let keys = reqs.iter().position(|r| r.entry == format!("prefill_blk_0_transpose_k_g{group}")).unwrap();
        let context = reqs.iter().position(|r| r.entry == format!("prefill_blk_0_context_h{hq}")).unwrap();
        let values = reqs.iter().position(|r| r.entry == format!("prefill_blk_0_kv_f16_round_v_g{group}")).unwrap();
        assert_eq!(reqs[scores].inputs[1], reqs[keys].output);
        assert_eq!(reqs[context].inputs[1], reqs[values].output);
    }
    // Every output is a buffer of its own.
    let mut ids: Vec<u32> = reqs.iter().map(|r| r.output.id).collect();
    ids.sort();
    ids.dedup();
    assert_eq!(ids.len(), reqs.len());
    // The rotation tables are registered at the first rotation, after its output.
    let rope = &reqs[3];
    assert_eq!(rope.entry, "prefill_blk_0_rope_q_h0");
    assert_eq!(rope.inputs[1].name, "prefill.rope.cos");
    assert_eq!(rope.inputs[1].id, rope.output.id + 1);
}

fn synthetic_layer() -> LayerTensors<u32> {
    let seq = |n: usize| (0..n as u32).collect::<Vec<u32>>();
    LayerTensors {
        attn_norm: vec![7; 960],
        attn_q: seq(960 * 960),
        attn_k: seq(960 * 320),
        attn_v: seq(960 * 320),
        attn_output: seq(960 * 960),
        ffn_norm: vec![9; 960],
        ffn_gate: seq(960 * 2560),
        ffn_up: seq(960 * 2560),
        ffn_down: seq(2560 * 960),
    }
}

#[test]
fn a_layer_repacks_to_the_device_layout() {
    let r = repack_layer(synthetic_layer());
    assert_eq!((r.attn_q_heads.len(), r.attn_k_heads.len(), r.attn_v_heads.len(), r.attn_out_heads.len()), (15, 5, 5, 15));
    // Head 14's query slice: entry k*64 + n is input k of output column 14*64 + n.
    assert_eq!(r.attn_q_heads[14][3 * 64 + 5], (3 + 960 * (14 * 64 + 5)) as u32);
    // Head 2's output slice: entry k*960 + d is input row 2*64 + k of output d.
    assert_eq!(r.attn_out_heads[2][4 * 960 + 10], (10 * 960 + 2 * 64 + 4) as u32);
    // The feed-forward weights are row-major: entry k*2560 + n is input k of output n.
    assert_eq!(r.ffn_gate[1 * 2560 + 2], (1 + 960 * 2) as u32);
    assert_eq!(r.ffn_down[5 * 960 + 1], (5 + 2560 * 1) as u32);
    assert_eq!(r.attn_norm, vec![7; 960]);
}

#[test]
fn a_layer_declares_each_weight_the_graph_reads() {
    let r = repack_layer(synthetic_layer());
    let q3 = r.attn_q_heads[3].clone();
    let declared = layer_declared_inputs(0, r);
    assert_eq!(declared.len(), 45);
    assert_eq!(declared[0].name, "blk.0.attn_norm.weight");
    assert_eq!(declared[4].name, "blk.0.attn_q.h3.weight");
    assert_eq!(declared[4].values, q3);
    assert_eq!(declared[16].name, "blk.0.attn_k.g0.weight");
    assert_eq!(declared[21].name, "blk.0.attn_v.g0.weight");
    assert_eq!(declared[40].name, "blk.0.attn_output.h14.weight");
    assert_eq!(declared[44].name, "blk.0.ffn_down.weight");
    let mut declared_names: Vec<&str> = declared.iter().map(|w| w.name.as_str()).collect();
    let graph_names = prefill_input_names();
    let mut layer_names: Vec<&str> = graph_names[2..2 + 45].iter().map(String::as_str).collect();
    declared_names.sort();
    layer_names.sort();
    assert_eq!(declared_names, layer_names);
}

#[test]
fn the_repack_and_algorithm_labels_name_the_declared_conversion() {
    assert!(representation().starts_with("declared f32 conversion (GI2-1 dequant semantics;"));
    assert!(representation().ends_with("never direct GGUF quantized execution)"));
    assert!(algorithm().starts_with("Gather / RmsNormalization / Rope"));
    assert!(algorithm().ends_with("(kv_f16_round)"));
}
