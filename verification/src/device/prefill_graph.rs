//! The kernel graph of the prefill program: the embedding gather, each
//! decoder layer's per-head attention fan-out and SwiGLU feed-forward, and
//! the tied-head logits, as kernel requests over the assembler's buffers.
use vstd::prelude::*;
use crate::device::prefill::BufferFacts;
use crate::device::prefill::HEAD_COUNT;
use crate::device::prefill::KV_HEAD_COUNT;
use crate::device::prefill::LAYER_COUNT;
use crate::device::prefill::is_activation_facts;
use crate::device::prefill::known_index;
use crate::device::prefill::layer_input_names;
use crate::device::prefill::name_index;
use crate::device::prefill::registry;
use crate::device::prefill::registration;
use crate::device::prefill::register_all;
use crate::device::prefill::prefill_input_names;
use crate::device::prefill::prefill_input_names_spec;
use crate::device::prefill::layers_input_names;
use crate::device::prefill::lemma_known_index_found;
use crate::device::prefill::query_head_names;
use crate::device::prefill::kv_head_names;
use crate::device::prefill::blk_name;
use crate::device::prefill::head_name;
use crate::device::prefill::head_text;
use crate::device::prefill::blk_text;
use crate::device::prefill::KernelAssembler;
use crate::device::schema::BufferLifetime;
use crate::device::schema::BufferRole;
use crate::naming::decimal;
use crate::naming::decimal_text;
use crate::naming::owned;

verus! {

broadcast use vstd::string::group_string_axioms;

/// The kernel function a request runs: one per distinct shape of the
/// program's functions.
#[derive(Clone, Copy, Debug, PartialEq, Eq, Structural)]
pub enum Recipe {
    Gather,
    RmsNorm,
    Rope,
    CausalSoftmax,
    TransposeKey,
    TransposeEmbedding,
    MatMulProjection,
    MatMulScores,
    MatMulContext,
    MatMulOutput,
    MatMulFeedForward,
    MatMulDown,
    MatMulTiedHead,
    SwigluNeg,
    SwigluExp,
    KvF16Round,
    SwigluAddOne,
    SwigluDiv,
    SwigluSilu,
    SwigluUp,
    ScaleScores,
    ResidualAdd,
}

/// Where a kernel input comes from: a registered input buffer, by name, or
/// the output of an earlier kernel, by position.
pub enum Source {
    Input(Seq<char>),
    Kernel(int),
}

/// One kernel of the graph: its function, its entry, its inputs in slot
/// order, and the name of the activation it writes.
pub struct KernelSpec {
    pub recipe: Recipe,
    pub entry: Seq<char>,
    pub inputs: Seq<Source>,
    pub output: Seq<char>,
}

/// The kernels of one decoder layer.
pub open spec fn kernels_per_layer() -> int {
    162
}

/// The position of the first kernel of the tail (output norm, transposed
/// embedding, tied-head logits).
pub open spec fn tail_start() -> int {
    1 + kernels_per_layer() * LAYER_COUNT
}

/// The kernel count of the whole graph.
pub open spec fn graph_len() -> int {
    tail_start() + 3
}

/// `prefill_blk_<layer>_<base>`.
pub open spec fn layer_entry(layer: nat, base: Seq<char>) -> Seq<char> {
    "prefill_blk_"@ + decimal(layer) + "_"@ + base
}

/// `prefill.blk<layer>.<suffix>`.
pub open spec fn layer_out(layer: nat, suffix: Seq<char>) -> Seq<char> {
    "prefill.blk"@ + decimal(layer) + "."@ + suffix
}

/// `<kind><index><tail>`.
pub open spec fn indexed(kind: Seq<char>, index: nat, tail: Seq<char>) -> Seq<char> {
    kind + decimal(index) + tail
}

/// `blk.<layer>.<base>`: a per-layer weight.
pub open spec fn weight(layer: nat, base: Seq<char>) -> Source {
    Source::Input(crate::device::prefill::blk_name(layer, base))
}

/// `blk.<layer>.<kind><index>.weight`: a per-head weight slice.
pub open spec fn head_weight(layer: nat, kind: Seq<char>, index: nat) -> Source {
    Source::Input(crate::device::prefill::head_name(layer, kind, index))
}

pub open spec fn rope_cos() -> Seq<char> {
    "prefill.rope.cos"@
}

pub open spec fn rope_sin() -> Seq<char> {
    "prefill.rope.sin"@
}

/// The position, within a layer, of query head `hq`'s score kernel: each
/// head runs scores, scale, softmax, context and output projection, and
/// every head after the first folds its output into the running sum.
pub open spec fn head_start(hq: int) -> int {
    if hq == 0 {
        61
    } else {
        60 + 6 * hq
    }
}

pub open spec fn spec_of(recipe: Recipe, entry: Seq<char>, inputs: Seq<Source>, output: Seq<char>) -> KernelSpec {
    KernelSpec { recipe, entry, inputs, output }
}

/// Kernel `r` of layer `layer`, whose first kernel sits at `base`; the
/// layer reads the residual stream the kernel before it wrote.
#[verifier::opaque]
pub open spec fn layer_kernel(layer: nat, base: int, r: int) -> KernelSpec {
    let l = layer;
    let k = |x: int| Source::Kernel(base + x);
    let stream = Source::Kernel(base - 1);
    if r == 0 {
        spec_of(Recipe::RmsNorm, layer_entry(l, "attn_norm"@), seq![stream, weight(l, "attn_norm.weight"@)], layer_out(l, "a"@))
    } else if r <= 30 {
        // Query head projections, each followed by its rotation.
        let hq = ((r - 1) / 2) as nat;
        if (r - 1) % 2 == 0 {
            spec_of(Recipe::MatMulProjection, layer_entry(l, indexed("attn_q_h"@, hq, seq![])),
                seq![k(0), head_weight(l, "attn_q.h"@, hq)], layer_out(l, indexed("q"@, hq, seq![])))
        } else {
            spec_of(Recipe::Rope, layer_entry(l, indexed("rope_q_h"@, hq, seq![])),
                seq![k(r - 1), Source::Input(rope_cos()), Source::Input(rope_sin())], layer_out(l, indexed("qr"@, hq, seq![])))
        }
    } else if r <= 60 {
        // Key/value groups: key projection, rotation, half rounding,
        // transpose; value projection, half rounding.
        let g = ((r - 31) / 6) as nat;
        let j = (r - 31) % 6;
        if j == 0 {
            spec_of(Recipe::MatMulProjection, layer_entry(l, indexed("attn_k_g"@, g, seq![])),
                seq![k(0), head_weight(l, "attn_k.g"@, g)], layer_out(l, indexed("k"@, g, seq![])))
        } else if j == 1 {
            spec_of(Recipe::Rope, layer_entry(l, indexed("rope_k_g"@, g, seq![])),
                seq![k(r - 1), Source::Input(rope_cos()), Source::Input(rope_sin())], layer_out(l, indexed("kr"@, g, seq![])))
        } else if j == 2 {
            spec_of(Recipe::KvF16Round, layer_entry(l, indexed("kv_f16_round_k_g"@, g, seq![])),
                seq![k(r - 1)], layer_out(l, indexed("kr"@, g, "_h16"@)))
        } else if j == 3 {
            spec_of(Recipe::TransposeKey, layer_entry(l, indexed("transpose_k_g"@, g, seq![])),
                seq![k(r - 1)], layer_out(l, indexed("kt"@, g, seq![])))
        } else if j == 4 {
            spec_of(Recipe::MatMulProjection, layer_entry(l, indexed("attn_v_g"@, g, seq![])),
                seq![k(0), head_weight(l, "attn_v.g"@, g)], layer_out(l, indexed("v"@, g, seq![])))
        } else {
            spec_of(Recipe::KvF16Round, layer_entry(l, indexed("kv_f16_round_v_g"@, g, seq![])),
                seq![k(r - 1)], layer_out(l, indexed("v"@, g, "_h16"@)))
        }
    } else if r < 150 {
        // Per-query-head causal attention over the head's key/value group.
        let hq: int = if r < 66 { 0 } else { (r - 60) / 6 };
        let j = r - head_start(hq);
        let g = hq / 3;
        let h = hq as nat;
        if j == 0 {
            spec_of(Recipe::MatMulScores, layer_entry(l, indexed("scores_h"@, h, seq![])),
                seq![k(2 + 2 * hq), k(34 + 6 * g)], layer_out(l, indexed("scores"@, h, seq![])))
        } else if j == 1 {
            spec_of(Recipe::ScaleScores, layer_entry(l, indexed("scale_scores_h"@, h, seq![])),
                seq![k(r - 1)], layer_out(l, indexed("scaled"@, h, seq![])))
        } else if j == 2 {
            spec_of(Recipe::CausalSoftmax, layer_entry(l, indexed("causal_softmax_h"@, h, seq![])),
                seq![k(r - 1)], layer_out(l, indexed("probs"@, h, seq![])))
        } else if j == 3 {
            spec_of(Recipe::MatMulContext, layer_entry(l, indexed("context_h"@, h, seq![])),
                seq![k(r - 1), k(36 + 6 * g)], layer_out(l, indexed("ctx"@, h, seq![])))
        } else if j == 4 {
            spec_of(Recipe::MatMulOutput, layer_entry(l, indexed("attn_output_h"@, h, seq![])),
                seq![k(r - 1), head_weight(l, "attn_output.h"@, h)], layer_out(l, indexed("o"@, h, seq![])))
        } else {
            // The running sum of the head outputs so far.
            let acc = if hq == 1 { k(65) } else { k(head_start(hq - 1) + 5) };
            spec_of(Recipe::ResidualAdd, layer_entry(l, indexed("sum_o_h"@, h, seq![])),
                seq![acc, k(r - 1)], layer_out(l, "o"@))
        }
    } else if r == 150 {
        spec_of(Recipe::ResidualAdd, layer_entry(l, "residual_attn"@), seq![stream, k(149)], layer_out(l, "h2"@))
    } else if r == 151 {
        spec_of(Recipe::RmsNorm, layer_entry(l, "ffn_norm"@), seq![k(150), weight(l, "ffn_norm.weight"@)], layer_out(l, "f"@))
    } else if r == 152 {
        spec_of(Recipe::MatMulFeedForward, layer_entry(l, "ffn_gate"@), seq![k(151), weight(l, "ffn_gate.weight"@)], layer_out(l, "gate"@))
    } else if r == 153 {
        spec_of(Recipe::MatMulFeedForward, layer_entry(l, "ffn_up"@), seq![k(151), weight(l, "ffn_up.weight"@)], layer_out(l, "up"@))
    } else if r == 154 {
        spec_of(Recipe::SwigluNeg, layer_entry(l, "swiglu_neg"@), seq![k(152)], layer_out(l, "hh.neg"@))
    } else if r == 155 {
        spec_of(Recipe::SwigluExp, layer_entry(l, "swiglu_exp"@), seq![k(154)], layer_out(l, "hh.exp"@))
    } else if r == 156 {
        spec_of(Recipe::SwigluAddOne, layer_entry(l, "swiglu_add1"@), seq![k(155)], layer_out(l, "hh.add1"@))
    } else if r == 157 {
        spec_of(Recipe::SwigluDiv, layer_entry(l, "swiglu_div"@), seq![k(156)], layer_out(l, "hh.div"@))
    } else if r == 158 {
        spec_of(Recipe::SwigluSilu, layer_entry(l, "swiglu_silu"@), seq![k(152), k(157)], layer_out(l, "hh.silu"@))
    } else if r == 159 {
        spec_of(Recipe::SwigluUp, layer_entry(l, "swiglu_up"@), seq![k(158), k(153)], layer_out(l, "hh"@))
    } else if r == 160 {
        spec_of(Recipe::MatMulDown, layer_entry(l, "ffn_down"@), seq![k(159), weight(l, "ffn_down.weight"@)], layer_out(l, "down"@))
    } else {
        spec_of(Recipe::ResidualAdd, layer_entry(l, "residual_ffn"@), seq![k(150), k(160)], layer_out(l, "h"@))
    }
}

/// Kernel `k` of the prefill graph: the embedding gather, the decoder
/// layers in order, then the output norm, the transposed embedding and the
/// tied-head logits.
#[verifier::opaque]
pub open spec fn graph_kernel(k: int) -> KernelSpec {
    if k == 0 {
        spec_of(Recipe::Gather, "prefill_gather"@, seq![Source::Input("token_embd.weight"@), Source::Input("prompt_tokens"@)],
            "prefill.h"@)
    } else if k < tail_start() {
        let layer = (k - 1) / kernels_per_layer();
        layer_kernel(layer as nat, 1 + kernels_per_layer() * layer, (k - 1) % kernels_per_layer())
    } else if k == tail_start() {
        spec_of(Recipe::RmsNorm, "prefill_output_norm"@, seq![Source::Kernel(k - 1), Source::Input("output_norm.weight"@)],
            "prefill.hn"@)
    } else if k == tail_start() + 1 {
        spec_of(Recipe::TransposeEmbedding, "prefill_transpose_token_embd"@, seq![Source::Input("token_embd.weight"@)],
            "prefill.token_embd_t"@)
    } else {
        spec_of(Recipe::MatMulTiedHead, "prefill_tied_head"@, seq![Source::Kernel(k - 2), Source::Kernel(k - 1)],
            "prefill.logits"@)
    }
}

// ---------------------------------------------------------------------------
// Kernel requests
// ---------------------------------------------------------------------------

/// One kernel of the assembled graph: its function, its entry, the buffers
/// it reads in slot order, and the buffer it writes.
pub struct KernelRequest {
    pub recipe: Recipe,
    pub entry: String,
    pub inputs: Vec<BufferFacts>,
    pub output: BufferFacts,
}

/// Whether a buffer is what a source names: the registered input of that
/// name, or the output of that earlier request.
pub open spec fn feeds(f: BufferFacts, src: Source, prior: Seq<KernelRequest>, rows: Seq<(u32, Seq<char>)>) -> bool {
    match src {
        Source::Input(n) => {
            &&& f.name@ == n
            &&& f.role == BufferRole::Input
            &&& f.lifetime == BufferLifetime::PerProgram
            &&& rows.contains((f.id, n))
        },
        Source::Kernel(j) => 0 <= j < prior.len() && f == prior[j].output,
    }
}

/// Whether a request realizes a kernel of the graph, given the requests
/// before it and the registered inputs.
pub open spec fn realizes(prior: Seq<KernelRequest>, rows: Seq<(u32, Seq<char>)>, req: KernelRequest, sp: KernelSpec) -> bool {
    &&& req.recipe == sp.recipe
    &&& req.entry@ == sp.entry
    &&& req.inputs@.len() == sp.inputs.len()
    &&& forall|i: int| 0 <= i < sp.inputs.len() ==> feeds(#[trigger] req.inputs@[i], sp.inputs[i], prior, rows)
    &&& req.output.name@ == sp.output
}

/// Whether a request writes a fresh activation, or, for the tied head, the
/// observed logits.
pub open spec fn writes_activation(req: KernelRequest) -> bool {
    if req.recipe == Recipe::MatMulTiedHead {
        req.output.role == BufferRole::Output && req.output.lifetime == BufferLifetime::ObservationPoint
    } else {
        req.output.role == BufferRole::InOut && req.output.lifetime == BufferLifetime::PerStep
    }
}

/// Whether the requests write pairwise distinct buffers, none of them a
/// registered input, all below the next free id.
pub open spec fn fresh_outputs(reqs: Seq<KernelRequest>, rows: Seq<(u32, Seq<char>)>, next_buffer: u32) -> bool {
    &&& forall|a: int, b: int| 0 <= a < b < reqs.len() ==> (#[trigger] reqs[a]).output.id != (#[trigger] reqs[b]).output.id
    &&& forall|a: int, t: int| 0 <= a < reqs.len() && 0 <= t < rows.len() ==> (#[trigger] reqs[a]).output.id != (#[trigger] rows[t]).0
    &&& forall|a: int| 0 <= a < reqs.len() ==> (#[trigger] reqs[a]).output.id < next_buffer
}

/// Whether a list of requests is the first `reqs.len()` kernels of the
/// graph.
pub open spec fn graph_prefix(reqs: Seq<KernelRequest>, rows: Seq<(u32, Seq<char>)>) -> bool {
    forall|k: int| 0 <= k < reqs.len() ==> {
        &&& realizes(reqs.take(k), rows, #[trigger] reqs[k], graph_kernel(k))
        &&& writes_activation(reqs[k])
    }
}

pub open spec fn registered(rows: Seq<(u32, Seq<char>)>, name: Seq<char>) -> bool {
    name_index(rows, name) is Some
}

/// Whether every input the graph reads by name is registered (the rotation
/// tables once the first rotation kernel has run).
pub open spec fn inputs_registered(rows: Seq<(u32, Seq<char>)>) -> bool {
    &&& registered(rows, "token_embd.weight"@)
    &&& registered(rows, "prompt_tokens"@)
    &&& registered(rows, "output_norm.weight"@)
    &&& forall|l: int, n: Seq<char>| 0 <= l < LAYER_COUNT && #[trigger] layer_input_names(l as nat).contains(n) ==> #[trigger] registered(rows, n)
}

/// The graph assembler: the kernel assembler whose buffers the requests
/// name, and the requests so far.
pub struct GraphBuilder {
    pub assembler: KernelAssembler,
    pub requests: Vec<KernelRequest>,
}

proof fn lemma_registered_push(rows: Seq<(u32, Seq<char>)>, row: (u32, Seq<char>), name: Seq<char>)
    requires
        registered(rows, name),
    ensures
        registered(rows.push(row), name),
{
    assert(rows.push(row).drop_last() =~= rows);
}

proof fn lemma_registration_grows(rows: Seq<(u32, Seq<char>)>, next_buffer: u32, name: Seq<char>)
    ensures
        ({
            let r = registration(rows, next_buffer, name).0;
            &&& registered(r, name)
            &&& forall|n: Seq<char>| registered(rows, n) ==> #[trigger] registered(r, n)
            &&& forall|x: (u32, Seq<char>)| rows.contains(x) ==> #[trigger] r.contains(x)
            &&& r.len() >= rows.len()
            &&& forall|t: int| 0 <= t < rows.len() ==> #[trigger] r[t] == rows[t]
            &&& forall|t: int| rows.len() <= t < r.len() ==> (#[trigger] r[t]).0 == next_buffer
        }),
{
    let r = registration(rows, next_buffer, name).0;
    if name_index(rows, name) is None {
        let row = (next_buffer, name);
        assert(r == rows.push(row));
        assert(r.drop_last() =~= rows);
        assert forall|n: Seq<char>| registered(rows, n) implies #[trigger] registered(r, n) by {
            lemma_registered_push(rows, row, n);
        }
        assert forall|x: (u32, Seq<char>)| rows.contains(x) implies #[trigger] r.contains(x) by {
            let i = choose|i: int| 0 <= i < rows.len() && rows[i] == x;
            assert(r[i] == x);
        }
    }
}

proof fn lemma_register_all_registers(rows: Seq<(u32, Seq<char>)>, next_buffer: u32, names: Seq<Seq<char>>)
    ensures
        forall|n: Seq<char>| names.contains(n) ==> #[trigger] registered(register_all(rows, next_buffer, names).0, n),
    decreases names.len(),
{
    if names.len() > 0 {
        let prev = names.drop_last();
        lemma_register_all_registers(rows, next_buffer, prev);
        let (r, m) = register_all(rows, next_buffer, prev);
        lemma_registration_grows(r, m, names.last());
        assert forall|n: Seq<char>| names.contains(n) implies #[trigger] registered(register_all(rows, next_buffer, names).0, n) by {
            let i = choose|i: int| 0 <= i < names.len() && names[i] == n;
            if i < names.len() - 1 {
                assert(prev[i] == n);
                assert(prev.contains(n));
            }
        }
    }
}

proof fn lemma_layers_contain(layers: nat, l: nat, n: Seq<char>)
    requires
        l < layers,
        layer_input_names(l).contains(n),
    ensures
        layers_input_names(layers).contains(n),
    decreases layers,
{
    let prev = layers_input_names((layers - 1) as nat);
    let all = layers_input_names(layers);
    if l < layers - 1 {
        lemma_layers_contain((layers - 1) as nat, l, n);
        let i = choose|i: int| 0 <= i < prev.len() && prev[i] == n;
        assert(all[i] == n);
    } else {
        let cur = layer_input_names(l);
        let i = choose|i: int| 0 <= i < cur.len() && cur[i] == n;
        assert(all[prev.len() + i] == n);
    }
}

proof fn lemma_graph_inputs_listed()
    ensures
        prefill_input_names_spec().contains("token_embd.weight"@),
        prefill_input_names_spec().contains("prompt_tokens"@),
        prefill_input_names_spec().contains("output_norm.weight"@),
        forall|l: int, n: Seq<char>| 0 <= l < LAYER_COUNT && #[trigger] layer_input_names(l as nat).contains(n)
            ==> prefill_input_names_spec().contains(n),
{
    let all = prefill_input_names_spec();
    let mid = layers_input_names(LAYER_COUNT as nat);
    assert(all[0] == "token_embd.weight"@);
    assert(all[1] == "prompt_tokens"@);
    assert(all[all.len() - 1] == "output_norm.weight"@);
    assert forall|l: int, n: Seq<char>| 0 <= l < LAYER_COUNT && #[trigger] layer_input_names(l as nat).contains(n)
        implies all.contains(n) by {
        lemma_layers_contain(LAYER_COUNT as nat, l as nat, n);
        let i = choose|i: int| 0 <= i < mid.len() && mid[i] == n;
        assert(all[2 + i] == n);
    }
}

proof fn lemma_feeds_grow(f: BufferFacts, src: Source, prior: Seq<KernelRequest>, rows: Seq<(u32, Seq<char>)>, rows2: Seq<(u32, Seq<char>)>)
    requires
        feeds(f, src, prior, rows),
        forall|x: (u32, Seq<char>)| rows.contains(x) ==> #[trigger] rows2.contains(x),
    ensures
        feeds(f, src, prior, rows2),
{
    if let Source::Input(n) = src {
        assert(rows.contains((f.id, n)));
    }
}

proof fn lemma_prefix_rows_grow(reqs: Seq<KernelRequest>, rows: Seq<(u32, Seq<char>)>, rows2: Seq<(u32, Seq<char>)>)
    requires
        graph_prefix(reqs, rows),
        forall|x: (u32, Seq<char>)| rows.contains(x) ==> #[trigger] rows2.contains(x),
    ensures
        graph_prefix(reqs, rows2),
{
    assert forall|k: int| 0 <= k < reqs.len() implies {
        &&& realizes(reqs.take(k), rows2, #[trigger] reqs[k], graph_kernel(k))
        &&& writes_activation(reqs[k])
    } by {
        let sp = graph_kernel(k);
        assert(realizes(reqs.take(k), rows, reqs[k], sp));
        assert forall|i: int| 0 <= i < sp.inputs.len() implies feeds(#[trigger] reqs[k].inputs@[i], sp.inputs[i], reqs.take(k), rows2) by {
            lemma_feeds_grow(reqs[k].inputs@[i], sp.inputs[i], reqs.take(k), rows, rows2);
        }
    }
}

proof fn lemma_prefix_push(reqs: Seq<KernelRequest>, rows: Seq<(u32, Seq<char>)>, req: KernelRequest)
    requires
        graph_prefix(reqs, rows),
        realizes(reqs, rows, req, graph_kernel(reqs.len() as int)),
        writes_activation(req),
    ensures
        graph_prefix(reqs.push(req), rows),
{
    let all = reqs.push(req);
    assert forall|k: int| 0 <= k < all.len() implies {
        &&& realizes(all.take(k), rows, #[trigger] all[k], graph_kernel(k))
        &&& writes_activation(all[k])
    } by {
        if k < reqs.len() {
            assert(all.take(k) =~= reqs.take(k));
            assert(all[k] == reqs[k]);
            assert(realizes(reqs.take(k), rows, reqs[k], graph_kernel(k)));
        } else {
            assert(all.take(k) =~= reqs);
        }
    }
}

pub(crate) proof fn lemma_head_names_len(layer: nat, n: nat)
    ensures
        query_head_names(layer, n).len() == 2 * n,
        kv_head_names(layer, n).len() == 2 * n,
    decreases n,
{
    if n > 0 {
        lemma_head_names_len(layer, (n - 1) as nat);
    }
}

proof fn lemma_layers_len(layers: nat)
    ensures
        layers_input_names(layers).len() == 45 * layers,
    decreases layers,
{
    if layers > 0 {
        lemma_layers_len((layers - 1) as nat);
        lemma_head_names_len((layers - 1) as nat, HEAD_COUNT as nat);
        lemma_head_names_len((layers - 1) as nat, KV_HEAD_COUNT as nat);
    }
}

proof fn lemma_query_names_contain(layer: nat, n: nat, hq: nat)
    requires
        hq < n,
    ensures
        query_head_names(layer, n).contains(head_name(layer, "attn_q.h"@, hq)),
        query_head_names(layer, n).contains(head_name(layer, "attn_output.h"@, hq)),
    decreases n,
{
    let prev = query_head_names(layer, (n - 1) as nat);
    let all = query_head_names(layer, n);
    lemma_head_names_len(layer, (n - 1) as nat);
    if hq < n - 1 {
        lemma_query_names_contain(layer, (n - 1) as nat, hq);
        let i = choose|i: int| 0 <= i < prev.len() && prev[i] == head_name(layer, "attn_q.h"@, hq);
        assert(all[i] == prev[i]);
        let j = choose|j: int| 0 <= j < prev.len() && prev[j] == head_name(layer, "attn_output.h"@, hq);
        assert(all[j] == prev[j]);
    } else {
        assert(all[prev.len() as int] == head_name(layer, "attn_q.h"@, hq));
        assert(all[prev.len() as int + 1] == head_name(layer, "attn_output.h"@, hq));
    }
}

proof fn lemma_kv_names_contain(layer: nat, n: nat, g: nat)
    requires
        g < n,
    ensures
        kv_head_names(layer, n).contains(head_name(layer, "attn_k.g"@, g)),
        kv_head_names(layer, n).contains(head_name(layer, "attn_v.g"@, g)),
    decreases n,
{
    let prev = kv_head_names(layer, (n - 1) as nat);
    let all = kv_head_names(layer, n);
    lemma_head_names_len(layer, (n - 1) as nat);
    if g < n - 1 {
        lemma_kv_names_contain(layer, (n - 1) as nat, g);
        let i = choose|i: int| 0 <= i < prev.len() && prev[i] == head_name(layer, "attn_k.g"@, g);
        assert(all[i] == prev[i]);
        let j = choose|j: int| 0 <= j < prev.len() && prev[j] == head_name(layer, "attn_v.g"@, g);
        assert(all[j] == prev[j]);
    } else {
        assert(all[prev.len() as int] == head_name(layer, "attn_k.g"@, g));
        assert(all[prev.len() as int + 1] == head_name(layer, "attn_v.g"@, g));
    }
}

/// Every per-layer weight the graph reads is one of the layer's inputs.
pub(crate) proof fn lemma_layer_names_contain(layer: nat)
    ensures
        layer_input_names(layer).contains(blk_name(layer, "attn_norm.weight"@)),
        layer_input_names(layer).contains(blk_name(layer, "ffn_norm.weight"@)),
        layer_input_names(layer).contains(blk_name(layer, "ffn_gate.weight"@)),
        layer_input_names(layer).contains(blk_name(layer, "ffn_up.weight"@)),
        layer_input_names(layer).contains(blk_name(layer, "ffn_down.weight"@)),
        forall|hq: nat| hq < HEAD_COUNT ==> #[trigger] layer_input_names(layer).contains(head_name(layer, "attn_q.h"@, hq)),
        forall|hq: nat| hq < HEAD_COUNT ==> #[trigger] layer_input_names(layer).contains(head_name(layer, "attn_output.h"@, hq)),
        forall|g: nat| g < KV_HEAD_COUNT ==> #[trigger] layer_input_names(layer).contains(head_name(layer, "attn_k.g"@, g)),
        forall|g: nat| g < KV_HEAD_COUNT ==> #[trigger] layer_input_names(layer).contains(head_name(layer, "attn_v.g"@, g)),
{
    let q = query_head_names(layer, HEAD_COUNT as nat);
    let kv = kv_head_names(layer, KV_HEAD_COUNT as nat);
    let all = layer_input_names(layer);
    lemma_head_names_len(layer, HEAD_COUNT as nat);
    lemma_head_names_len(layer, KV_HEAD_COUNT as nat);
    assert(all[0] == blk_name(layer, "attn_norm.weight"@));
    assert(all[41] == blk_name(layer, "ffn_norm.weight"@));
    assert(all[42] == blk_name(layer, "ffn_gate.weight"@));
    assert(all[43] == blk_name(layer, "ffn_up.weight"@));
    assert(all[44] == blk_name(layer, "ffn_down.weight"@));
    assert forall|hq: nat| hq < HEAD_COUNT implies #[trigger] all.contains(head_name(layer, "attn_q.h"@, hq))
        && all.contains(head_name(layer, "attn_output.h"@, hq)) by {
        lemma_query_names_contain(layer, HEAD_COUNT as nat, hq);
        let i = choose|i: int| 0 <= i < q.len() && q[i] == head_name(layer, "attn_q.h"@, hq);
        assert(all[1 + i] == q[i]);
        let j = choose|j: int| 0 <= j < q.len() && q[j] == head_name(layer, "attn_output.h"@, hq);
        assert(all[1 + j] == q[j]);
    }
    assert forall|hq: nat| hq < HEAD_COUNT implies #[trigger] all.contains(head_name(layer, "attn_output.h"@, hq)) by {
        assert(all.contains(head_name(layer, "attn_q.h"@, hq)));
    }
    assert forall|g: nat| g < KV_HEAD_COUNT implies #[trigger] all.contains(head_name(layer, "attn_k.g"@, g))
        && all.contains(head_name(layer, "attn_v.g"@, g)) by {
        lemma_kv_names_contain(layer, KV_HEAD_COUNT as nat, g);
        let front = seq![blk_name(layer, "attn_norm.weight"@)] + q;
        assert(front.len() == 31);
        let i = choose|i: int| 0 <= i < kv.len() && kv[i] == head_name(layer, "attn_k.g"@, g);
        assert((front + kv)[31 + i] == kv[i]);
        assert(all[31 + i] == kv[i]);
        let j = choose|j: int| 0 <= j < kv.len() && kv[j] == head_name(layer, "attn_v.g"@, g);
        assert((front + kv)[31 + j] == kv[j]);
        assert(all[31 + j] == kv[j]);
    }
    assert forall|g: nat| g < KV_HEAD_COUNT implies #[trigger] all.contains(head_name(layer, "attn_v.g"@, g)) by {
        assert(all.contains(head_name(layer, "attn_k.g"@, g)));
    }
}

/// The kernels of query head `hq`'s projection and rotation in layer
/// `layer`.
proof fn lemma_query_specs(layer: int, hq: int)
    requires
        0 <= layer < LAYER_COUNT,
        0 <= hq < HEAD_COUNT,
    ensures
        ({
            let b = 1 + kernels_per_layer() * layer;
            let l = layer as nat;
            let h = hq as nat;
            &&& graph_kernel(b + 1 + 2 * hq) == spec_of(Recipe::MatMulProjection, layer_entry(l, indexed("attn_q_h"@, h, seq![])),
                seq![Source::Kernel(b), head_weight(l, "attn_q.h"@, h)], layer_out(l, indexed("q"@, h, seq![])))
            &&& graph_kernel(b + 2 + 2 * hq) == spec_of(Recipe::Rope, layer_entry(l, indexed("rope_q_h"@, h, seq![])),
                seq![Source::Kernel(b + 1 + 2 * hq), Source::Input(rope_cos()), Source::Input(rope_sin())],
                layer_out(l, indexed("qr"@, h, seq![])))
            &&& b + 3 + 2 * hq < graph_len()
        }),
{
    lemma_graph_layer(layer, 1 + 2 * hq);
    lemma_graph_layer(layer, 2 + 2 * hq);
    reveal(layer_kernel);
    assert(1 + kernels_per_layer() * layer + 3 + 2 * hq < graph_len()) by (nonlinear_arith)
        requires layer < 32, hq < 15;
}

/// The kernels of key/value group `g` in layer `layer`.
#[verifier::rlimit(40)]
proof fn lemma_kv_specs(layer: int, g: int)
    requires
        0 <= layer < LAYER_COUNT,
        0 <= g < KV_HEAD_COUNT,
    ensures
        ({
            let b = 1 + kernels_per_layer() * layer;
            let r = b + 31 + 6 * g;
            let l = layer as nat;
            let n = g as nat;
            &&& graph_kernel(r) == spec_of(Recipe::MatMulProjection, layer_entry(l, indexed("attn_k_g"@, n, seq![])),
                seq![Source::Kernel(b), head_weight(l, "attn_k.g"@, n)], layer_out(l, indexed("k"@, n, seq![])))
            &&& graph_kernel(r + 1) == spec_of(Recipe::Rope, layer_entry(l, indexed("rope_k_g"@, n, seq![])),
                seq![Source::Kernel(r), Source::Input(rope_cos()), Source::Input(rope_sin())], layer_out(l, indexed("kr"@, n, seq![])))
            &&& graph_kernel(r + 2) == spec_of(Recipe::KvF16Round, layer_entry(l, indexed("kv_f16_round_k_g"@, n, seq![])),
                seq![Source::Kernel(r + 1)], layer_out(l, indexed("kr"@, n, "_h16"@)))
            &&& graph_kernel(r + 3) == spec_of(Recipe::TransposeKey, layer_entry(l, indexed("transpose_k_g"@, n, seq![])),
                seq![Source::Kernel(r + 2)], layer_out(l, indexed("kt"@, n, seq![])))
            &&& graph_kernel(r + 4) == spec_of(Recipe::MatMulProjection, layer_entry(l, indexed("attn_v_g"@, n, seq![])),
                seq![Source::Kernel(b), head_weight(l, "attn_v.g"@, n)], layer_out(l, indexed("v"@, n, seq![])))
            &&& graph_kernel(r + 5) == spec_of(Recipe::KvF16Round, layer_entry(l, indexed("kv_f16_round_v_g"@, n, seq![])),
                seq![Source::Kernel(r + 4)], layer_out(l, indexed("v"@, n, "_h16"@)))
            &&& r + 6 < graph_len()
        }),
{
    let s = 31 + 6 * g;
    vstd::arithmetic::div_mod::lemma_fundamental_div_mod_converse(s - 31, 6, g, 0);
    vstd::arithmetic::div_mod::lemma_fundamental_div_mod_converse(s + 1 - 31, 6, g, 1);
    vstd::arithmetic::div_mod::lemma_fundamental_div_mod_converse(s + 2 - 31, 6, g, 2);
    vstd::arithmetic::div_mod::lemma_fundamental_div_mod_converse(s + 3 - 31, 6, g, 3);
    vstd::arithmetic::div_mod::lemma_fundamental_div_mod_converse(s + 4 - 31, 6, g, 4);
    vstd::arithmetic::div_mod::lemma_fundamental_div_mod_converse(s + 5 - 31, 6, g, 5);
    lemma_graph_layer(layer, s);
    lemma_graph_layer(layer, s + 1);
    lemma_graph_layer(layer, s + 2);
    lemma_graph_layer(layer, s + 3);
    lemma_graph_layer(layer, s + 4);
    lemma_graph_layer(layer, s + 5);
    reveal(layer_kernel);
    assert(1 + kernels_per_layer() * layer + s + 6 < graph_len()) by (nonlinear_arith)
        requires layer < 32, s <= 55;
}

/// The first and the feed-forward kernels of layer `layer`.
#[verifier::rlimit(40)]
proof fn lemma_layer_edge_specs(layer: int)
    requires
        0 <= layer < LAYER_COUNT,
    ensures
        ({
            let b = 1 + kernels_per_layer() * layer;
            let l = layer as nat;
            let k = |x: int| Source::Kernel(b + x);
            &&& graph_kernel(b) == spec_of(Recipe::RmsNorm, layer_entry(l, "attn_norm"@),
                seq![Source::Kernel(b - 1), weight(l, "attn_norm.weight"@)], layer_out(l, "a"@))
            &&& graph_kernel(b + 150) == spec_of(Recipe::ResidualAdd, layer_entry(l, "residual_attn"@),
                seq![Source::Kernel(b - 1), k(149)], layer_out(l, "h2"@))
            &&& graph_kernel(b + 151) == spec_of(Recipe::RmsNorm, layer_entry(l, "ffn_norm"@),
                seq![k(150), weight(l, "ffn_norm.weight"@)], layer_out(l, "f"@))
            &&& graph_kernel(b + 152) == spec_of(Recipe::MatMulFeedForward, layer_entry(l, "ffn_gate"@),
                seq![k(151), weight(l, "ffn_gate.weight"@)], layer_out(l, "gate"@))
            &&& graph_kernel(b + 153) == spec_of(Recipe::MatMulFeedForward, layer_entry(l, "ffn_up"@),
                seq![k(151), weight(l, "ffn_up.weight"@)], layer_out(l, "up"@))
            &&& graph_kernel(b + 154) == spec_of(Recipe::SwigluNeg, layer_entry(l, "swiglu_neg"@), seq![k(152)], layer_out(l, "hh.neg"@))
            &&& graph_kernel(b + 155) == spec_of(Recipe::SwigluExp, layer_entry(l, "swiglu_exp"@), seq![k(154)], layer_out(l, "hh.exp"@))
            &&& graph_kernel(b + 156) == spec_of(Recipe::SwigluAddOne, layer_entry(l, "swiglu_add1"@), seq![k(155)], layer_out(l, "hh.add1"@))
            &&& graph_kernel(b + 157) == spec_of(Recipe::SwigluDiv, layer_entry(l, "swiglu_div"@), seq![k(156)], layer_out(l, "hh.div"@))
            &&& graph_kernel(b + 158) == spec_of(Recipe::SwigluSilu, layer_entry(l, "swiglu_silu"@), seq![k(152), k(157)], layer_out(l, "hh.silu"@))
            &&& graph_kernel(b + 159) == spec_of(Recipe::SwigluUp, layer_entry(l, "swiglu_up"@), seq![k(158), k(153)], layer_out(l, "hh"@))
            &&& graph_kernel(b + 160) == spec_of(Recipe::MatMulDown, layer_entry(l, "ffn_down"@),
                seq![k(159), weight(l, "ffn_down.weight"@)], layer_out(l, "down"@))
            &&& graph_kernel(b + 161) == spec_of(Recipe::ResidualAdd, layer_entry(l, "residual_ffn"@), seq![k(150), k(160)], layer_out(l, "h"@))
            &&& b + 162 < graph_len()
        }),
{
    lemma_graph_layer(layer, 0);
    lemma_graph_layer(layer, 150);
    lemma_graph_layer(layer, 151);
    lemma_graph_layer(layer, 152);
    lemma_graph_layer(layer, 153);
    lemma_graph_layer(layer, 154);
    lemma_graph_layer(layer, 155);
    lemma_graph_layer(layer, 156);
    lemma_graph_layer(layer, 157);
    lemma_graph_layer(layer, 158);
    lemma_graph_layer(layer, 159);
    lemma_graph_layer(layer, 160);
    lemma_graph_layer(layer, 161);
    reveal(layer_kernel);
    assert(1 + kernels_per_layer() * layer + 162 < graph_len()) by (nonlinear_arith)
        requires layer < 32;
}

proof fn lemma_prefix_index(s: Seq<KernelRequest>, t: Seq<KernelRequest>)
    requires
        s.len() <= t.len(),
        t.subrange(0, s.len() as int) == s,
    ensures
        forall|i: int| 0 <= i < s.len() ==> #[trigger] t[i] == s[i],
{
    assert forall|i: int| 0 <= i < s.len() implies #[trigger] t[i] == s[i] by {
        assert(t.subrange(0, s.len() as int)[i] == t[i]);
    }
}

/// The kernels of query head `hq`'s attention in layer `layer`.
#[verifier::rlimit(40)]
proof fn lemma_attention_specs(layer: int, hq: int)
    requires
        0 <= layer < LAYER_COUNT,
        0 <= hq < HEAD_COUNT,
    ensures
        ({
            let b = 1 + kernels_per_layer() * layer;
            let s = head_start(hq);
            let g = hq / 3;
            let l = layer as nat;
            let h = hq as nat;
            &&& graph_kernel(b + s) == spec_of(Recipe::MatMulScores, layer_entry(l, indexed("scores_h"@, h, seq![])),
                seq![Source::Kernel(b + 2 + 2 * hq), Source::Kernel(b + 34 + 6 * g)], layer_out(l, indexed("scores"@, h, seq![])))
            &&& graph_kernel(b + s + 1) == spec_of(Recipe::ScaleScores, layer_entry(l, indexed("scale_scores_h"@, h, seq![])),
                seq![Source::Kernel(b + s)], layer_out(l, indexed("scaled"@, h, seq![])))
            &&& graph_kernel(b + s + 2) == spec_of(Recipe::CausalSoftmax, layer_entry(l, indexed("causal_softmax_h"@, h, seq![])),
                seq![Source::Kernel(b + s + 1)], layer_out(l, indexed("probs"@, h, seq![])))
            &&& graph_kernel(b + s + 3) == spec_of(Recipe::MatMulContext, layer_entry(l, indexed("context_h"@, h, seq![])),
                seq![Source::Kernel(b + s + 2), Source::Kernel(b + 36 + 6 * g)], layer_out(l, indexed("ctx"@, h, seq![])))
            &&& graph_kernel(b + s + 4) == spec_of(Recipe::MatMulOutput, layer_entry(l, indexed("attn_output_h"@, h, seq![])),
                seq![Source::Kernel(b + s + 3), head_weight(l, "attn_output.h"@, h)], layer_out(l, indexed("o"@, h, seq![])))
            &&& hq >= 1 ==> graph_kernel(b + s + 5) == spec_of(Recipe::ResidualAdd, layer_entry(l, indexed("sum_o_h"@, h, seq![])),
                seq![if hq == 1 { Source::Kernel(b + 65) } else { Source::Kernel(b + head_start(hq - 1) + 5) }, Source::Kernel(b + s + 4)],
                layer_out(l, "o"@))
            &&& b + s + 6 < graph_len()
        }),
{
    let s = head_start(hq);
    if hq >= 1 {
        vstd::arithmetic::div_mod::lemma_fundamental_div_mod_converse(s - 60, 6, hq, 0);
        vstd::arithmetic::div_mod::lemma_fundamental_div_mod_converse(s + 1 - 60, 6, hq, 1);
        vstd::arithmetic::div_mod::lemma_fundamental_div_mod_converse(s + 2 - 60, 6, hq, 2);
        vstd::arithmetic::div_mod::lemma_fundamental_div_mod_converse(s + 3 - 60, 6, hq, 3);
        vstd::arithmetic::div_mod::lemma_fundamental_div_mod_converse(s + 4 - 60, 6, hq, 4);
        vstd::arithmetic::div_mod::lemma_fundamental_div_mod_converse(s + 5 - 60, 6, hq, 5);
        lemma_graph_layer(layer, s + 5);
    }
    lemma_graph_layer(layer, s);
    lemma_graph_layer(layer, s + 1);
    lemma_graph_layer(layer, s + 2);
    lemma_graph_layer(layer, s + 3);
    lemma_graph_layer(layer, s + 4);
    reveal(layer_kernel);
    assert(1 + kernels_per_layer() * layer + s + 6 < graph_len()) by (nonlinear_arith)
        requires layer < 32, s <= 144;
}

/// Kernel `r` of layer `layer` is the layer's kernel `r`.
pub proof fn lemma_graph_layer(layer: int, r: int)
    requires
        0 <= layer < LAYER_COUNT,
        0 <= r < kernels_per_layer(),
    ensures
        graph_kernel(1 + kernels_per_layer() * layer + r) == layer_kernel(layer as nat, 1 + kernels_per_layer() * layer, r),
{
    reveal(graph_kernel);
    let k = 1 + kernels_per_layer() * layer + r;
    vstd::arithmetic::div_mod::lemma_fundamental_div_mod_converse(k - 1, kernels_per_layer(), layer, r);
    assert(k < tail_start()) by (nonlinear_arith)
        requires k == 1 + 162 * layer + r, layer < 32, r < 162;
}

impl GraphBuilder {
    #[verifier::opaque]
    pub open spec fn inv(&self) -> bool {
        let rows = registry(self.assembler.known@);
        &&& self.assembler.wf()
        &&& self.assembler.kernels@.len() == 0
        &&& self.assembler.results@.len() == 0
        &&& inputs_registered(rows)
        &&& self.requests@.len() > 3 ==> registered(rows, rope_cos()) && registered(rows, rope_sin())
        &&& graph_prefix(self.requests@, rows)
        &&& fresh_outputs(self.requests@, rows, self.assembler.next_buffer)
        &&& self.requests@.len() <= graph_len()
        &&& self.assembler.next_buffer <= 3000 + 3 * self.requests@.len()
    }

    proof fn lemma_layer_weight(&self, l: int, n: Seq<char>)
        requires
            self.inv(),
            0 <= l < LAYER_COUNT,
            layer_input_names(l as nat).contains(n),
        ensures
            self.assembler.wf(),
            registered(registry(self.assembler.known@), n),
    {
        reveal(GraphBuilder::inv);
    }

    /// The facts of a registered input, which feed any kernel reading it by
    /// name.
    fn weight_facts(&self, name: &str) -> (f: BufferFacts)
        requires
            self.assembler.wf(),
            registered(registry(self.assembler.known@), name@),
        ensures
            forall|prior: Seq<KernelRequest>| #[trigger] feeds(f, Source::Input(name@), prior, registry(self.assembler.known@)),
    {
        proof {
            lemma_known_index_found(self.assembler.known@, name@);
        }
        let f = self.assembler.input_facts(name);
        proof {
            let rows = registry(self.assembler.known@);
            let i = known_index(self.assembler.known@, name@).unwrap();
            assert(rows[i] == (f.id, name@));
            assert(rows.contains((f.id, name@)));
        }
        f
    }

    /// Request the next kernel of the graph, writing a fresh activation.
    fn emit(&mut self, recipe: Recipe, entry: String, inputs: Vec<BufferFacts>, out_name: &str) -> (out: BufferFacts)
        requires
            old(self).inv(),
            old(self).requests@.len() + 1 < graph_len(),
            old(self).requests@.len() != 3,
            recipe == graph_kernel(old(self).requests@.len() as int).recipe,
            recipe != Recipe::MatMulTiedHead,
            entry@ == graph_kernel(old(self).requests@.len() as int).entry,
            out_name@ == graph_kernel(old(self).requests@.len() as int).output,
            inputs@.len() == graph_kernel(old(self).requests@.len() as int).inputs.len(),
            forall|i: int| 0 <= i < inputs@.len() ==> feeds(#[trigger] inputs@[i], graph_kernel(old(self).requests@.len() as int).inputs[i],
                old(self).requests@, registry(old(self).assembler.known@)),
        ensures
            final(self).inv(),
            final(self).requests@.len() == old(self).requests@.len() + 1,
            final(self).requests@.drop_last() == old(self).requests@,
            final(self).requests@.last().output == out,
            final(self).assembler.known@ == old(self).assembler.known@,
    {
        proof {
            reveal(GraphBuilder::inv);
        }
        let ghost rows = registry(self.assembler.known@);
        let ghost before = self.requests@;
        let out = self.assembler.fresh_activation(out_name);
        let req = KernelRequest { recipe, entry, inputs, output: out.clone() };
        proof {
            lemma_prefix_push(before, rows, req);
        }
        self.requests.push(req);
        proof {
            assert(self.requests@.drop_last() =~= before);
            let all = self.requests@;
            assert forall|a: int, b: int| 0 <= a < b < all.len() implies (#[trigger] all[a]).output.id != (#[trigger] all[b]).output.id by {
                if b == all.len() - 1 {
                    assert(all[a] == before[a]);
                } else {
                    assert(all[a] == before[a] && all[b] == before[b]);
                }
            }
            assert forall|a: int, t: int| 0 <= a < all.len() && 0 <= t < rows.len() implies (#[trigger] all[a]).output.id != (#[trigger] rows[t]).0 by {
                if a < before.len() {
                    assert(all[a] == before[a]);
                } else {
                    assert(rows[t].0 == self.assembler.known@[t].id);
                }
            }
            assert forall|a: int| 0 <= a < all.len() implies (#[trigger] all[a]).output.id < self.assembler.next_buffer by {
                if a < before.len() {
                    assert(all[a] == before[a]);
                }
            }
        }
        out
    }

    /// A builder over a fresh assembler with every input of the graph
    /// registered, in order.
    fn start() -> (b: GraphBuilder)
        ensures
            b.inv(),
            b.requests@.len() == 0,
    {
        proof {
            reveal(GraphBuilder::inv);
        }
        let mut assembler = KernelAssembler::new();
        let names = prefill_input_names();
        proof {
            lemma_layers_len(LAYER_COUNT as nat);
            assert(names@.len() == prefill_input_names_spec().len());
        }
        let ghost k0 = assembler.known@;
        assert(registry(k0) =~= Seq::<(u32, Seq<char>)>::empty());
        assembler.register_inputs(&names);
        proof {
            let all = prefill_input_names_spec();
            lemma_register_all_registers(Seq::empty(), 1, all);
            lemma_graph_inputs_listed();
            let rows = registry(assembler.known@);
            assert(rows == register_all(Seq::empty(), 1, all).0);
            assert forall|l: int, n: Seq<char>| 0 <= l < LAYER_COUNT && #[trigger] layer_input_names(l as nat).contains(n)
                implies #[trigger] registered(rows, n) by {
                assert(all.contains(n));
            }
            assert(all.contains("token_embd.weight"@));
            assert(inputs_registered(rows));
        }
        GraphBuilder { assembler, requests: Vec::new() }
    }

    /// Request the last kernel of the graph: the tied-head projection that
    /// writes the observed logits.
    fn emit_logits(&mut self, hn: BufferFacts, embd_t: BufferFacts) -> (out: BufferFacts)
        requires
            old(self).inv(),
            old(self).requests@.len() + 1 == graph_len(),
            feeds(hn, graph_kernel(old(self).requests@.len() as int).inputs[0], old(self).requests@, registry(old(self).assembler.known@)),
            feeds(embd_t, graph_kernel(old(self).requests@.len() as int).inputs[1], old(self).requests@, registry(old(self).assembler.known@)),
        ensures
            final(self).inv(),
            final(self).requests@.len() == graph_len(),
            final(self).requests@.drop_last() == old(self).requests@,
            final(self).requests@.last().output == out,
    {
        proof {
            reveal(GraphBuilder::inv);
        }
        let ghost rows = registry(self.assembler.known@);
        let ghost before = self.requests@;
        proof {
            reveal(graph_kernel);
        }
        let id = self.assembler.next_buffer;
        self.assembler.next_buffer = self.assembler.next_buffer + 1;
        let out = BufferFacts {
            id,
            name: owned("prefill.logits"),
            role: BufferRole::Output,
            lifetime: BufferLifetime::ObservationPoint,
        };
        let req = KernelRequest {
            recipe: Recipe::MatMulTiedHead,
            entry: owned("prefill_tied_head"),
            inputs: vec![hn, embd_t],
            output: out.clone(),
        };
        proof {
            lemma_prefix_push(before, rows, req);
        }
        self.requests.push(req);
        proof {
            assert(self.requests@.drop_last() =~= before);
            let all = self.requests@;
            assert forall|a: int, b: int| 0 <= a < b < all.len() implies (#[trigger] all[a]).output.id != (#[trigger] all[b]).output.id by {
                if b == all.len() - 1 {
                    assert(all[a] == before[a]);
                } else {
                    assert(all[a] == before[a] && all[b] == before[b]);
                }
            }
            assert forall|a: int, t: int| 0 <= a < all.len() && 0 <= t < rows.len() implies (#[trigger] all[a]).output.id != (#[trigger] rows[t]).0 by {
                if a < before.len() {
                    assert(all[a] == before[a]);
                } else {
                    assert(rows[t].0 == self.assembler.known@[t].id);
                }
            }
            assert forall|a: int| 0 <= a < all.len() implies (#[trigger] all[a]).output.id < self.assembler.next_buffer by {
                if a < before.len() {
                    assert(all[a] == before[a]);
                }
            }
        }
        out
    }

    /// A query head's projection and rotation (layer kernels `1 + 2hq` and
    /// `2 + 2hq`).
    fn query_head(&mut self, il: u64, hq: u64, a: &BufferFacts) -> (qr: BufferFacts)
        requires
            old(self).inv(),
            il < LAYER_COUNT,
            hq < HEAD_COUNT,
            old(self).requests@.len() == 1 + kernels_per_layer() * il + 1 + 2 * hq,
            *a == old(self).requests@[1 + kernels_per_layer() * il].output,
        ensures
            final(self).inv(),
            final(self).requests@.len() == old(self).requests@.len() + 2,
            final(self).requests@.subrange(0, old(self).requests@.len() as int) == old(self).requests@,
            qr == final(self).requests@[old(self).requests@.len() as int + 1].output,
    {
        let ghost base = 1 + kernels_per_layer() * il;
        let ghost before = self.requests@;
        proof {
            lemma_query_specs(il as int, hq as int);
            lemma_layer_names_contain(il as nat);
            assert(layer_input_names(il as nat).contains(head_name(il as nat, "attn_q.h"@, hq as nat)));
            self.lemma_layer_weight(il as int, head_name(il as nat, "attn_q.h"@, hq as nat));
        }
        let w_name = head_text(il, "attn_q.h", hq);
        let w = self.weight_facts(w_name.as_str());
        let base_entry = numbered_text("attn_q_h", hq);
        let entry = layer_entry_text(il, base_entry.as_str());
        let suffix = numbered_text("q", hq);
        let out_name = layer_out_text(il, suffix.as_str());
        let q = self.emit(Recipe::MatMulProjection, entry, vec![a.clone(), w], out_name.as_str());
        let ghost mid = self.requests@;
        let base_entry = numbered_text("rope_q_h", hq);
        let entry = layer_entry_text(il, base_entry.as_str());
        let suffix = numbered_text("qr", hq);
        let out_name = layer_out_text(il, suffix.as_str());
        let qr = self.emit_rope(q, entry, out_name.as_str());
        proof {
            assert(self.requests@.subrange(0, before.len() as int) =~= before) by {
                assert(self.requests@.drop_last() == mid);
                assert(mid.drop_last() == before);
            }
        }
        qr
    }

    /// A key/value group's kernels (layer kernels `31 + 6g` to `36 + 6g`):
    /// the transposed, half-rounded rotated keys and the half-rounded
    /// values.
    fn kv_group(&mut self, il: u64, g: u64, a: &BufferFacts) -> (kv: (BufferFacts, BufferFacts))
        requires
            old(self).inv(),
            il < LAYER_COUNT,
            g < KV_HEAD_COUNT,
            old(self).requests@.len() == 1 + kernels_per_layer() * il + 31 + 6 * g,
            *a == old(self).requests@[1 + kernels_per_layer() * il].output,
        ensures
            final(self).inv(),
            final(self).requests@.len() == old(self).requests@.len() + 6,
            final(self).requests@.subrange(0, old(self).requests@.len() as int) == old(self).requests@,
            kv.0 == final(self).requests@[old(self).requests@.len() as int + 3].output,
            kv.1 == final(self).requests@[old(self).requests@.len() as int + 5].output,
    {
        let ghost before = self.requests@;
        proof {
            lemma_kv_specs(il as int, g as int);
            lemma_layer_names_contain(il as nat);
            assert(layer_input_names(il as nat).contains(head_name(il as nat, "attn_k.g"@, g as nat)));
            assert(layer_input_names(il as nat).contains(head_name(il as nat, "attn_v.g"@, g as nat)));
            self.lemma_layer_weight(il as int, head_name(il as nat, "attn_k.g"@, g as nat));
        }
        let w_name = head_text(il, "attn_k.g", g);
        let w = self.weight_facts(w_name.as_str());
        let b = numbered_text("attn_k_g", g);
        let s = numbered_text("k", g);
        let k = self.emit(Recipe::MatMulProjection, layer_entry_text(il, b.as_str()), vec![a.clone(), w], layer_out_text(il, s.as_str()).as_str());
        let ghost s1 = self.requests@;
        let b = numbered_text("rope_k_g", g);
        let s = numbered_text("kr", g);
        let kr = self.emit_rope(k, layer_entry_text(il, b.as_str()), layer_out_text(il, s.as_str()).as_str());
        let ghost s2 = self.requests@;
        let b = numbered_text("kv_f16_round_k_g", g);
        let s = indexed_text("kr", g, "_h16");
        let kh = self.emit(Recipe::KvF16Round, layer_entry_text(il, b.as_str()), vec![kr], layer_out_text(il, s.as_str()).as_str());
        let ghost s3 = self.requests@;
        let b = numbered_text("transpose_k_g", g);
        let s = numbered_text("kt", g);
        let kt = self.emit(Recipe::TransposeKey, layer_entry_text(il, b.as_str()), vec![kh], layer_out_text(il, s.as_str()).as_str());
        let ghost s4 = self.requests@;
        let w_name = head_text(il, "attn_v.g", g);
        proof {
            self.lemma_layer_weight(il as int, head_name(il as nat, "attn_v.g"@, g as nat));
        }
        let w = self.weight_facts(w_name.as_str());
        proof {
            assert(s4.subrange(0, before.len() as int) =~= before) by {
                assert(s4.drop_last() == s3 && s3.drop_last() == s2 && s2.drop_last() == s1 && s1.drop_last() == before);
            }
            assert(s4[1 + kernels_per_layer() * il] == before[1 + kernels_per_layer() * il]);
        }
        let b = numbered_text("attn_v_g", g);
        let s = numbered_text("v", g);
        let v = self.emit(Recipe::MatMulProjection, layer_entry_text(il, b.as_str()), vec![a.clone(), w], layer_out_text(il, s.as_str()).as_str());
        let ghost s5 = self.requests@;
        let b = numbered_text("kv_f16_round_v_g", g);
        let s = indexed_text("v", g, "_h16");
        let vh = self.emit(Recipe::KvF16Round, layer_entry_text(il, b.as_str()), vec![v], layer_out_text(il, s.as_str()).as_str());
        proof {
            let all = self.requests@;
            assert(all.drop_last() == s5 && s5.drop_last() == s4);
            assert(all.subrange(0, before.len() as int) =~= before);
            assert(all[before.len() as int + 3] == s4[before.len() as int + 3]);
        }
        (kt, vh)
    }

    /// A query head's causal attention over its key/value group, and the
    /// fold of its output into the running sum of head outputs (layer
    /// kernels from `head_start(hq)`).
    fn attention_head(
        &mut self,
        il: u64,
        hq: u64,
        qr: &BufferFacts,
        kt: &BufferFacts,
        vh: &BufferFacts,
        acc: Option<BufferFacts>,
    ) -> (o: BufferFacts)
        requires
            old(self).inv(),
            il < LAYER_COUNT,
            hq < HEAD_COUNT,
            old(self).requests@.len() == 1 + kernels_per_layer() * il + head_start(hq as int),
            *qr == old(self).requests@[1 + kernels_per_layer() * il + 2 + 2 * hq].output,
            *kt == old(self).requests@[1 + kernels_per_layer() * il + 34 + 6 * (hq / 3)].output,
            *vh == old(self).requests@[1 + kernels_per_layer() * il + 36 + 6 * (hq / 3)].output,
            hq == 0 <==> acc is None,
            hq == 1 ==> acc == Some(old(self).requests@[1 + kernels_per_layer() * il + 65].output),
            hq >= 2 ==> acc == Some(old(self).requests@[1 + kernels_per_layer() * il + head_start(hq - 1) + 5].output),
        ensures
            final(self).inv(),
            final(self).requests@.len() == old(self).requests@.len() + if hq == 0 { 5int } else { 6int },
            final(self).requests@.subrange(0, old(self).requests@.len() as int) == old(self).requests@,
            o == final(self).requests@.last().output,
    {
        let ghost before = self.requests@;
        proof {
            lemma_attention_specs(il as int, hq as int);
            lemma_layer_names_contain(il as nat);
            assert(layer_input_names(il as nat).contains(head_name(il as nat, "attn_output.h"@, hq as nat)));
        }
        let b = numbered_text("scores_h", hq);
        let s = numbered_text("scores", hq);
        let scores = self.emit(Recipe::MatMulScores, layer_entry_text(il, b.as_str()), vec![qr.clone(), kt.clone()],
            layer_out_text(il, s.as_str()).as_str());
        let ghost s1 = self.requests@;
        let b = numbered_text("scale_scores_h", hq);
        let s = numbered_text("scaled", hq);
        let scaled = self.emit(Recipe::ScaleScores, layer_entry_text(il, b.as_str()), vec![scores], layer_out_text(il, s.as_str()).as_str());
        let ghost s2 = self.requests@;
        let b = numbered_text("causal_softmax_h", hq);
        let s = numbered_text("probs", hq);
        let probs = self.emit(Recipe::CausalSoftmax, layer_entry_text(il, b.as_str()), vec![scaled], layer_out_text(il, s.as_str()).as_str());
        let ghost s3 = self.requests@;
        proof {
            assert(s3.subrange(0, before.len() as int) =~= before) by {
                assert(s3.drop_last() == s2 && s2.drop_last() == s1 && s1.drop_last() == before);
            }
            assert(s3[1 + kernels_per_layer() * il + 36 + 6 * (hq / 3)] == before[1 + kernels_per_layer() * il + 36 + 6 * (hq / 3)]);
        }
        let b = numbered_text("context_h", hq);
        let s = numbered_text("ctx", hq);
        let ctx = self.emit(Recipe::MatMulContext, layer_entry_text(il, b.as_str()), vec![probs, vh.clone()],
            layer_out_text(il, s.as_str()).as_str());
        let ghost s4 = self.requests@;
        let w_name = head_text(il, "attn_output.h", hq);
        proof {
            self.lemma_layer_weight(il as int, head_name(il as nat, "attn_output.h"@, hq as nat));
        }
        let w = self.weight_facts(w_name.as_str());
        let b = numbered_text("attn_output_h", hq);
        let s = numbered_text("o", hq);
        let oh = self.emit(Recipe::MatMulOutput, layer_entry_text(il, b.as_str()), vec![ctx, w], layer_out_text(il, s.as_str()).as_str());
        let ghost s5 = self.requests@;
        proof {
            assert(s5.subrange(0, before.len() as int) =~= before) by {
                assert(s5.drop_last() == s4 && s4.drop_last() == s3);
            }
        }
        match acc {
            None => oh,
            Some(acc) => {
                proof {
                    if hq == 1 {
                        assert(s5[1 + kernels_per_layer() * il + 65] == before[1 + kernels_per_layer() * il + 65]);
                    } else {
                        assert(s5[1 + kernels_per_layer() * il + head_start(hq - 1) + 5]
                            == before[1 + kernels_per_layer() * il + head_start(hq - 1) + 5]);
                    }
                }
                let b = numbered_text("sum_o_h", hq);
                let sum = self.emit(Recipe::ResidualAdd, layer_entry_text(il, b.as_str()), vec![acc, oh],
                    layer_out_text(il, "o").as_str());
                proof {
                    assert(self.requests@.drop_last() == s5);
                    assert(self.requests@.subrange(0, before.len() as int) =~= before);
                }
                sum
            },
        }
    }

    /// The attention residual, then the norm and the two input projections
    /// that open the feed-forward block.
    fn feed_forward_inputs(&mut self, il: u64, stream: &BufferFacts, o: BufferFacts) -> (r: (BufferFacts, BufferFacts, BufferFacts))
        requires
            old(self).inv(),
            il < LAYER_COUNT,
            old(self).requests@.len() == 1 + kernels_per_layer() * il + 150,
            *stream == old(self).requests@[kernels_per_layer() * il].output,
            o == old(self).requests@.last().output,
        ensures
            final(self).inv(),
            final(self).requests@.len() == old(self).requests@.len() + 4,
            final(self).requests@.subrange(0, old(self).requests@.len() as int) == old(self).requests@,
            r.0 == final(self).requests@[old(self).requests@.len() as int].output,
            r.1 == final(self).requests@[old(self).requests@.len() as int + 2].output,
            r.2 == final(self).requests@[old(self).requests@.len() as int + 3].output,
    {
        let ghost before = self.requests@;
        proof {
            lemma_layer_edge_specs(il as int);
            lemma_layer_names_contain(il as nat);
        }
        let h2 = self.emit(Recipe::ResidualAdd, layer_entry_text(il, "residual_attn"), vec![stream.clone(), o],
            layer_out_text(il, "h2").as_str());
        let ghost s1 = self.requests@;
        proof {
            self.lemma_layer_weight(il as int, blk_name(il as nat, "ffn_norm.weight"@));
        }
        let w_name = blk_text(il, "ffn_norm.weight");
        let w = self.weight_facts(w_name.as_str());
        let f = self.emit(Recipe::RmsNorm, layer_entry_text(il, "ffn_norm"), vec![h2.clone(), w], layer_out_text(il, "f").as_str());
        let ghost s2 = self.requests@;
        proof {
            self.lemma_layer_weight(il as int, blk_name(il as nat, "ffn_gate.weight"@));
        }
        let w_name = blk_text(il, "ffn_gate.weight");
        let w = self.weight_facts(w_name.as_str());
        let gate = self.emit(Recipe::MatMulFeedForward, layer_entry_text(il, "ffn_gate"), vec![f.clone(), w],
            layer_out_text(il, "gate").as_str());
        let ghost s3 = self.requests@;
        proof {
            self.lemma_layer_weight(il as int, blk_name(il as nat, "ffn_up.weight"@));
            assert(s3[before.len() as int + 1] == s2[before.len() as int + 1]);
        }
        let w_name = blk_text(il, "ffn_up.weight");
        let w = self.weight_facts(w_name.as_str());
        let up = self.emit(Recipe::MatMulFeedForward, layer_entry_text(il, "ffn_up"), vec![f, w], layer_out_text(il, "up").as_str());
        proof {
            let all = self.requests@;
            assert(all.drop_last() == s3 && s3.drop_last() == s2 && s2.drop_last() == s1 && s1.drop_last() == before);
            assert(all.subrange(0, before.len() as int) =~= before);
            assert(all[before.len() as int] == s1[before.len() as int]);
            assert(all[before.len() as int + 2] == s3[before.len() as int + 2]);
        }
        (h2, gate, up)
    }

    /// The SwiGLU composition, the down projection and the feed-forward
    /// residual that close the layer.
    fn feed_forward(&mut self, il: u64, h2: BufferFacts, gate: BufferFacts, up: BufferFacts) -> (h: BufferFacts)
        requires
            old(self).inv(),
            il < LAYER_COUNT,
            old(self).requests@.len() == 1 + kernels_per_layer() * il + 154,
            h2 == old(self).requests@[1 + kernels_per_layer() * il + 150].output,
            gate == old(self).requests@[1 + kernels_per_layer() * il + 152].output,
            up == old(self).requests@[1 + kernels_per_layer() * il + 153].output,
        ensures
            final(self).inv(),
            final(self).requests@.len() == old(self).requests@.len() + 8,
            final(self).requests@.subrange(0, old(self).requests@.len() as int) == old(self).requests@,
            h == final(self).requests@.last().output,
    {
        let ghost before = self.requests@;
        proof {
            lemma_layer_edge_specs(il as int);
        }
        let neg = self.emit(Recipe::SwigluNeg, layer_entry_text(il, "swiglu_neg"), vec![gate.clone()], layer_out_text(il, "hh.neg").as_str());
        let ghost s1 = self.requests@;
        let exp = self.emit(Recipe::SwigluExp, layer_entry_text(il, "swiglu_exp"), vec![neg], layer_out_text(il, "hh.exp").as_str());
        let ghost s2 = self.requests@;
        let add1 = self.emit(Recipe::SwigluAddOne, layer_entry_text(il, "swiglu_add1"), vec![exp], layer_out_text(il, "hh.add1").as_str());
        let ghost s3 = self.requests@;
        let div = self.emit(Recipe::SwigluDiv, layer_entry_text(il, "swiglu_div"), vec![add1], layer_out_text(il, "hh.div").as_str());
        let ghost s4 = self.requests@;
        proof {
            assert(s4.drop_last() == s3 && s3.drop_last() == s2 && s2.drop_last() == s1 && s1.drop_last() == before);
            assert(s4.subrange(0, before.len() as int) =~= before);
            lemma_prefix_index(before, s4);
        }
        let silu = self.emit(Recipe::SwigluSilu, layer_entry_text(il, "swiglu_silu"), vec![gate, div], layer_out_text(il, "hh.silu").as_str());
        let ghost s5 = self.requests@;
        proof {
            assert(s5.drop_last() == s4);
            assert(s5[1 + kernels_per_layer() * il + 153] == s4[1 + kernels_per_layer() * il + 153]);
        }
        let hh = self.emit(Recipe::SwigluUp, layer_entry_text(il, "swiglu_up"), vec![silu, up], layer_out_text(il, "hh").as_str());
        let ghost s6 = self.requests@;
        proof {
            lemma_layer_names_contain(il as nat);
            self.lemma_layer_weight(il as int, blk_name(il as nat, "ffn_down.weight"@));
        }
        let w_name = blk_text(il, "ffn_down.weight");
        let w = self.weight_facts(w_name.as_str());
        let down = self.emit(Recipe::MatMulDown, layer_entry_text(il, "ffn_down"), vec![hh, w], layer_out_text(il, "down").as_str());
        let ghost s7 = self.requests@;
        proof {
            assert(s7.drop_last() == s6 && s6.drop_last() == s5);
            assert(s7.subrange(0, before.len() as int) =~= before);
            lemma_prefix_index(before, s7);
        }
        let h = self.emit(Recipe::ResidualAdd, layer_entry_text(il, "residual_ffn"), vec![h2, down], layer_out_text(il, "h").as_str());
        proof {
            let all = self.requests@;
            assert(all.drop_last() == s7);
            assert(all.subrange(0, before.len() as int) =~= before);
        }
        h
    }

    /// One decoder layer's kernels: the attention norm, the per-head query
    /// projections, the key/value groups, the per-head attention folded
    /// into one output, the attention residual, and the feed-forward block.
    fn layer(&mut self, il: u64, stream: BufferFacts) -> (h: BufferFacts)
        requires
            old(self).inv(),
            il < LAYER_COUNT,
            old(self).requests@.len() == 1 + kernels_per_layer() * il,
            stream == old(self).requests@.last().output,
        ensures
            final(self).inv(),
            final(self).requests@.len() == old(self).requests@.len() + kernels_per_layer(),
            final(self).requests@.subrange(0, old(self).requests@.len() as int) == old(self).requests@,
            h == final(self).requests@.last().output,
    {
        let ghost before = self.requests@;
        let ghost b = 1 + kernels_per_layer() * il;
        proof {
            lemma_layer_edge_specs(il as int);
            lemma_layer_names_contain(il as nat);
            self.lemma_layer_weight(il as int, blk_name(il as nat, "attn_norm.weight"@));
        }
        let w_name = blk_text(il, "attn_norm.weight");
        let w = self.weight_facts(w_name.as_str());
        let a = self.emit(Recipe::RmsNorm, layer_entry_text(il, "attn_norm"), vec![stream.clone(), w], layer_out_text(il, "a").as_str());
        proof {
            assert(self.requests@.drop_last() == before);
        }
        let mut qrs: Vec<BufferFacts> = Vec::new();
        let mut hq: u64 = 0;
        while hq < HEAD_COUNT
            invariant
                self.inv(),
                il < LAYER_COUNT,
                b == 1 + kernels_per_layer() * il,
                hq <= HEAD_COUNT,
                self.requests@.len() == b + 1 + 2 * hq,
                self.requests@.subrange(0, b) == before,
                a == self.requests@[b].output,
                qrs@.len() == hq,
                forall|x: int| 0 <= x < hq ==> #[trigger] qrs@[x] == self.requests@[b + 2 + 2 * x].output,
            decreases HEAD_COUNT - hq,
        {
            let ghost prior = self.requests@;
            let qr = self.query_head(il, hq, &a);
            proof {
                lemma_prefix_index(prior, self.requests@);
                assert(self.requests@.subrange(0, b) =~= prior.subrange(0, b));
            }
            qrs.push(qr);
            hq = hq + 1;
        }
        let mut kts: Vec<BufferFacts> = Vec::new();
        let mut vhs: Vec<BufferFacts> = Vec::new();
        let mut g: u64 = 0;
        while g < KV_HEAD_COUNT
            invariant
                self.inv(),
                il < LAYER_COUNT,
                b == 1 + kernels_per_layer() * il,
                g <= KV_HEAD_COUNT,
                self.requests@.len() == b + 31 + 6 * g,
                self.requests@.subrange(0, b) == before,
                a == self.requests@[b].output,
                qrs@.len() == HEAD_COUNT,
                forall|x: int| 0 <= x < HEAD_COUNT ==> #[trigger] qrs@[x] == self.requests@[b + 2 + 2 * x].output,
                kts@.len() == g,
                vhs@.len() == g,
                forall|x: int| 0 <= x < g ==> #[trigger] kts@[x] == self.requests@[b + 34 + 6 * x].output,
                forall|x: int| 0 <= x < g ==> #[trigger] vhs@[x] == self.requests@[b + 36 + 6 * x].output,
            decreases KV_HEAD_COUNT - g,
        {
            let ghost prior = self.requests@;
            let kv = self.kv_group(il, g, &a);
            proof {
                lemma_prefix_index(prior, self.requests@);
                assert(self.requests@.subrange(0, b) =~= prior.subrange(0, b));
            }
            kts.push(kv.0);
            vhs.push(kv.1);
            g = g + 1;
        }
        let mut acc: Option<BufferFacts> = None;
        let mut hq: u64 = 0;
        while hq < HEAD_COUNT
            invariant
                self.inv(),
                il < LAYER_COUNT,
                b == 1 + kernels_per_layer() * il,
                hq <= HEAD_COUNT,
                self.requests@.len() == b + head_start(hq as int),
                self.requests@.subrange(0, b) == before,
                qrs@.len() == HEAD_COUNT,
                forall|x: int| 0 <= x < HEAD_COUNT ==> #[trigger] qrs@[x] == self.requests@[b + 2 + 2 * x].output,
                kts@.len() == KV_HEAD_COUNT,
                vhs@.len() == KV_HEAD_COUNT,
                forall|x: int| 0 <= x < KV_HEAD_COUNT ==> #[trigger] kts@[x] == self.requests@[b + 34 + 6 * x].output,
                forall|x: int| 0 <= x < KV_HEAD_COUNT ==> #[trigger] vhs@[x] == self.requests@[b + 36 + 6 * x].output,
                hq == 0 <==> acc is None,
                hq >= 1 ==> acc == Some(self.requests@.last().output),
            decreases HEAD_COUNT - hq,
        {
            let ghost prior = self.requests@;
            let group = (hq / 3) as usize;
            proof {
                if hq == 1 {
                    assert(prior.len() - 1 == b + 65);
                } else if hq >= 2 {
                    assert(prior.len() - 1 == b + head_start(hq - 1) + 5);
                }
            }
            let o = self.attention_head(il, hq, &qrs[hq as usize], &kts[group], &vhs[group], acc);
            proof {
                lemma_prefix_index(prior, self.requests@);
                assert(self.requests@.subrange(0, b) =~= prior.subrange(0, b));
            }
            acc = Some(o);
            hq = hq + 1;
        }
        let o = match acc {
            Some(o) => o,
            None => {
                proof {
                    assert(false);
                }
                stream.clone()
            },
        };
        let ghost prior = self.requests@;
        proof {
            assert(prior.subrange(0, b) == before);
            assert(before[b - 1] == prior[b - 1]);
        }
        let (h2, gate, up) = self.feed_forward_inputs(il, &stream, o);
        let ghost mid = self.requests@;
        let h = self.feed_forward(il, h2, gate, up);
        proof {
            lemma_prefix_index(mid, self.requests@);
            lemma_prefix_index(prior, mid);
            assert(self.requests@.subrange(0, before.len() as int) =~= before);
        }
        h
    }

    proof fn lemma_top_weight(&self, n: Seq<char>)
        requires
            self.inv(),
            n == "token_embd.weight"@ || n == "prompt_tokens"@ || n == "output_norm.weight"@,
        ensures
            self.assembler.wf(),
            registered(registry(self.assembler.known@), n),
    {
        reveal(GraphBuilder::inv);
    }

    /// Request the next kernel of the graph, a rotation: its fresh output
    /// is taken first, then the rotation tables are registered (the first
    /// rotation registers them).
    fn emit_rope(&mut self, input: BufferFacts, entry: String, out_name: &str) -> (out: BufferFacts)
        requires
            old(self).inv(),
            old(self).requests@.len() + 1 < graph_len(),
            old(self).requests@.len() >= 3,
            graph_kernel(old(self).requests@.len() as int).recipe == Recipe::Rope,
            graph_kernel(old(self).requests@.len() as int).inputs.len() == 3,
            graph_kernel(old(self).requests@.len() as int).inputs[0] is Kernel,
            graph_kernel(old(self).requests@.len() as int).inputs[1] == Source::Input(rope_cos()),
            graph_kernel(old(self).requests@.len() as int).inputs[2] == Source::Input(rope_sin()),
            entry@ == graph_kernel(old(self).requests@.len() as int).entry,
            out_name@ == graph_kernel(old(self).requests@.len() as int).output,
            feeds(input, graph_kernel(old(self).requests@.len() as int).inputs[0], old(self).requests@, registry(old(self).assembler.known@)),
        ensures
            final(self).inv(),
            final(self).requests@.len() == old(self).requests@.len() + 1,
            final(self).requests@.drop_last() == old(self).requests@,
            final(self).requests@.last().output == out,
    {
        proof {
            reveal(GraphBuilder::inv);
        }
        let ghost rows0 = registry(self.assembler.known@);
        let ghost before = self.requests@;
        let out = self.assembler.fresh_activation(out_name);
        let ghost n1 = self.assembler.next_buffer;
        proof {
            lemma_registration_grows(rows0, n1, rope_cos());
        }
        self.assembler.register_input("prefill.rope.cos");
        let ghost rows1 = registry(self.assembler.known@);
        let ghost n2 = self.assembler.next_buffer;
        proof {
            lemma_registration_grows(rows1, n2, rope_sin());
        }
        self.assembler.register_input("prefill.rope.sin");
        let ghost rows2 = registry(self.assembler.known@);
        let cos = self.weight_facts("prefill.rope.cos");
        let sin = self.weight_facts("prefill.rope.sin");
        let sp = Ghost(graph_kernel(before.len() as int));
        let req = KernelRequest { recipe: Recipe::Rope, entry, inputs: vec![input, cos, sin], output: out.clone() };
        proof {
            assert forall|x: (u32, Seq<char>)| rows0.contains(x) implies #[trigger] rows2.contains(x) by {
                assert(rows1.contains(x));
            }
            lemma_prefix_rows_grow(before, rows0, rows2);
            assert(req.inputs@[0] == input);
            assert(feeds(req.inputs@[1], sp@.inputs[1], before, rows2));
            assert(feeds(req.inputs@[2], sp@.inputs[2], before, rows2));
            lemma_prefix_push(before, rows2, req);
            assert forall|n: Seq<char>| registered(rows0, n) implies #[trigger] registered(rows2, n) by {
                assert(registered(rows1, n));
            }
            assert(inputs_registered(rows2));
            assert(registered(rows1, rope_cos()));
            assert(registered(rows2, rope_cos()));
            assert(registered(rows2, rope_sin()));
        }
        self.requests.push(req);
        proof {
            assert(self.requests@.drop_last() =~= before);
            let all = self.requests@;
            assert forall|a: int, b: int| 0 <= a < b < all.len() implies (#[trigger] all[a]).output.id != (#[trigger] all[b]).output.id by {
                if b == all.len() - 1 {
                    assert(all[a] == before[a]);
                } else {
                    assert(all[a] == before[a] && all[b] == before[b]);
                }
            }
            assert forall|a: int, t: int| 0 <= a < all.len() && 0 <= t < rows2.len() implies (#[trigger] all[a]).output.id != (#[trigger] rows2[t]).0 by {
                if t < rows0.len() {
                    assert(rows2[t] == rows1[t] && rows1[t] == rows0[t]);
                    if a < before.len() {
                        assert(all[a] == before[a]);
                    } else {
                        assert(rows0[t].0 == old(self).assembler.known@[t].id);
                    }
                } else if t < rows1.len() {
                    assert(rows2[t] == rows1[t]);
                    assert(rows1[t].0 == n1);
                    if a < before.len() {
                        assert(all[a] == before[a]);
                    }
                } else {
                    assert(rows2[t].0 == n2);
                    if a < before.len() {
                        assert(all[a] == before[a]);
                    }
                }
            }
            assert forall|a: int| 0 <= a < all.len() implies (#[trigger] all[a]).output.id < self.assembler.next_buffer by {
                if a < before.len() {
                    assert(all[a] == before[a]);
                }
            }
        }
        out
    }
}

proof fn lemma_ends_specs()
    ensures
        graph_kernel(0) == spec_of(Recipe::Gather, "prefill_gather"@,
            seq![Source::Input("token_embd.weight"@), Source::Input("prompt_tokens"@)], "prefill.h"@),
        graph_kernel(tail_start()) == spec_of(Recipe::RmsNorm, "prefill_output_norm"@,
            seq![Source::Kernel(tail_start() - 1), Source::Input("output_norm.weight"@)], "prefill.hn"@),
        graph_kernel(tail_start() + 1) == spec_of(Recipe::TransposeEmbedding, "prefill_transpose_token_embd"@,
            seq![Source::Input("token_embd.weight"@)], "prefill.token_embd_t"@),
        graph_kernel(tail_start() + 2).inputs == seq![Source::Kernel(tail_start()), Source::Kernel(tail_start() + 1)],
{
    reveal(graph_kernel);
}

/// The prefill program's kernel graph over a fresh assembler: every input
/// registered in order, then the embedding gather, the decoder layers, the
/// output norm, the transposed embedding and the tied-head logits, each
/// request reading the registered inputs and earlier outputs the graph names
/// and writing a buffer of its own.
pub fn prefill_kernel_graph() -> (g: GraphBuilder)
    ensures
        g.assembler.wf(),
        g.assembler.kernels@.len() == 0,
        g.assembler.results@.len() == 0,
        inputs_registered(registry(g.assembler.known@)),
        g.requests@.len() == graph_len(),
        graph_prefix(g.requests@, registry(g.assembler.known@)),
        fresh_outputs(g.requests@, registry(g.assembler.known@), g.assembler.next_buffer),
{
    let mut g = GraphBuilder::start();
    proof {
        lemma_ends_specs();
        g.lemma_top_weight("token_embd.weight"@);
        g.lemma_top_weight("prompt_tokens"@);
    }
    let table = g.weight_facts("token_embd.weight");
    let ids = g.weight_facts("prompt_tokens");
    let mut h = g.emit(Recipe::Gather, owned("prefill_gather"), vec![table, ids], "prefill.h");
    let mut il: u64 = 0;
    while il < LAYER_COUNT
        invariant
            g.inv(),
            il <= LAYER_COUNT,
            g.requests@.len() == 1 + kernels_per_layer() * il,
            h == g.requests@.last().output,
        decreases LAYER_COUNT - il,
    {
        h = g.layer(il, h);
        il = il + 1;
    }
    let ghost before = g.requests@;
    proof {
        lemma_ends_specs();
        g.lemma_top_weight("output_norm.weight"@);
    }
    let w = g.weight_facts("output_norm.weight");
    let hn = g.emit(Recipe::RmsNorm, owned("prefill_output_norm"), vec![h, w], "prefill.hn");
    let ghost s1 = g.requests@;
    proof {
        g.lemma_top_weight("token_embd.weight"@);
    }
    let table = g.weight_facts("token_embd.weight");
    let embd_t = g.emit(Recipe::TransposeEmbedding, owned("prefill_transpose_token_embd"), vec![table], "prefill.token_embd_t");
    proof {
        assert(g.requests@.drop_last() == s1);
        assert(g.requests@[tail_start()] == s1[tail_start()]);
    }
    g.emit_logits(hn, embd_t);
    proof {
        reveal(GraphBuilder::inv);
    }
    g
}

// ---------------------------------------------------------------------------
// Entry and buffer names
// ---------------------------------------------------------------------------

fn layer_entry_text(layer: u64, base: &str) -> (s: String)
    ensures
        s@ == layer_entry(layer as nat, base@),
{
    let mut s = owned("prefill_blk_");
    let l = decimal_text(layer);
    s.append(l.as_str());
    s.append("_");
    s.append(base);
    s
}

fn layer_out_text(layer: u64, suffix: &str) -> (s: String)
    ensures
        s@ == layer_out(layer as nat, suffix@),
{
    let mut s = owned("prefill.blk");
    let l = decimal_text(layer);
    s.append(l.as_str());
    s.append(".");
    s.append(suffix);
    s
}

fn numbered_text(kind: &str, index: u64) -> (s: String)
    ensures
        s@ == indexed(kind@, index as nat, seq![]),
{
    let mut s = owned(kind);
    let i = decimal_text(index);
    s.append(i.as_str());
    assert(s@ =~= indexed(kind@, index as nat, seq![]));
    s
}

fn indexed_text(kind: &str, index: u64, tail: &str) -> (s: String)
    ensures
        s@ == indexed(kind@, index as nat, tail@),
{
    let mut s = owned(kind);
    let i = decimal_text(index);
    s.append(i.as_str());
    s.append(tail);
    s
}

} // verus!
