//! The declared repack of one decoder layer's weights: the attention weights
//! split per head, the feed-forward weights transposed to the row-major
//! layout, and the named inputs the prefill section declares for them.
use vstd::prelude::*;
use crate::device::prefill::blk_name;
use crate::device::prefill::blk_text;
use crate::device::prefill::column_slice;
use crate::device::prefill::head_name;
use crate::device::prefill::head_text;
use crate::device::prefill::layer_input_names;
use crate::device::prefill::kv_head_names;
use crate::device::prefill::query_head_names;
use crate::device::prefill::row_slice;
use crate::device::prefill::split_columns;
use crate::device::prefill::split_rows;
use crate::device::prefill::transpose_kmajor;
use crate::device::prefill::transposed;
use crate::device::prefill::FFN_SIZE;
use crate::device::prefill::HEAD_COUNT;
use crate::device::prefill::HEAD_DIM;
use crate::device::prefill::HIDDEN_SIZE;
use crate::device::prefill::KV_HEAD_COUNT;
use crate::device::prefill_graph::lemma_head_names_len;
use crate::device::prefill_graph::lemma_layer_names_contain;

verus! {

/// One decoder layer's weights as the model stores them (K-major).
pub struct LayerTensors<T> {
    pub attn_norm: Vec<T>,
    pub attn_q: Vec<T>,
    pub attn_k: Vec<T>,
    pub attn_v: Vec<T>,
    pub attn_output: Vec<T>,
    pub ffn_norm: Vec<T>,
    pub ffn_gate: Vec<T>,
    pub ffn_up: Vec<T>,
    pub ffn_down: Vec<T>,
}

/// One decoder layer's weights in the device layout: the query and output
/// projections split into the query heads, the key and value projections
/// into the key/value heads, the feed-forward weights transposed.
pub struct LayerRepack<T> {
    pub attn_norm: Vec<T>,
    pub attn_q_heads: Vec<Vec<T>>,
    pub attn_k_heads: Vec<Vec<T>>,
    pub attn_v_heads: Vec<Vec<T>>,
    pub attn_out_heads: Vec<Vec<T>>,
    pub ffn_norm: Vec<T>,
    pub ffn_gate: Vec<T>,
    pub ffn_up: Vec<T>,
    pub ffn_down: Vec<T>,
}

/// Whether the weights hold at least what the layer's shapes read.
pub open spec fn tensors_fit<T>(t: LayerTensors<T>) -> bool {
    &&& t.attn_q@.len() >= HIDDEN_SIZE * (HEAD_COUNT * HEAD_DIM)
    &&& t.attn_k@.len() >= HIDDEN_SIZE * (KV_HEAD_COUNT * HEAD_DIM)
    &&& t.attn_v@.len() >= HIDDEN_SIZE * (KV_HEAD_COUNT * HEAD_DIM)
    &&& t.attn_output@.len() >= HIDDEN_SIZE * HIDDEN_SIZE
    &&& t.ffn_gate@.len() >= HIDDEN_SIZE * FFN_SIZE
    &&& t.ffn_up@.len() >= HIDDEN_SIZE * FFN_SIZE
    &&& t.ffn_down@.len() >= FFN_SIZE * HIDDEN_SIZE
}

/// Whether a slice list is the given number of head slices of a source.
pub open spec fn column_heads<T>(heads: Seq<Vec<T>>, source: Seq<T>, count: int) -> bool {
    heads.len() == count && forall|h: int| 0 <= h < count ==> (#[trigger] heads[h])@ == column_slice(
        source,
        HIDDEN_SIZE as int,
        HEAD_DIM as int,
        h,
    )
}

/// Whether a repack is the declared layout of the weights.
pub open spec fn repacks<T>(r: LayerRepack<T>, t: LayerTensors<T>) -> bool {
    &&& r.attn_norm@ == t.attn_norm@
    &&& column_heads(r.attn_q_heads@, t.attn_q@, HEAD_COUNT as int)
    &&& column_heads(r.attn_k_heads@, t.attn_k@, KV_HEAD_COUNT as int)
    &&& column_heads(r.attn_v_heads@, t.attn_v@, KV_HEAD_COUNT as int)
    &&& r.attn_out_heads@.len() == HEAD_COUNT
    &&& forall|h: int| 0 <= h < HEAD_COUNT ==> (#[trigger] r.attn_out_heads@[h])@ == row_slice(
        t.attn_output@,
        HIDDEN_SIZE as int,
        HIDDEN_SIZE as int,
        HEAD_DIM as int,
        h,
    )
    &&& r.ffn_norm@ == t.ffn_norm@
    &&& r.ffn_gate@ == transposed(t.ffn_gate@, HIDDEN_SIZE as int, FFN_SIZE as int)
    &&& r.ffn_up@ == transposed(t.ffn_up@, HIDDEN_SIZE as int, FFN_SIZE as int)
    &&& r.ffn_down@ == transposed(t.ffn_down@, FFN_SIZE as int, HIDDEN_SIZE as int)
}

/// Repack one layer's weights to the device layout.
pub fn repack_layer<T: Copy>(t: LayerTensors<T>) -> (r: LayerRepack<T>)
    requires
        tensors_fit(t),
    ensures
        repacks(r, t),
{
    let hidden = HIDDEN_SIZE as usize;
    let head_dim = HEAD_DIM as usize;
    let q = split_columns(t.attn_q.as_slice(), hidden, (HEAD_COUNT * HEAD_DIM) as usize, head_dim);
    let k = split_columns(t.attn_k.as_slice(), hidden, (KV_HEAD_COUNT * HEAD_DIM) as usize, head_dim);
    let v = split_columns(t.attn_v.as_slice(), hidden, (KV_HEAD_COUNT * HEAD_DIM) as usize, head_dim);
    let o = split_rows(t.attn_output.as_slice(), hidden, hidden, head_dim);
    let gate = transpose_kmajor(t.ffn_gate.as_slice(), hidden, FFN_SIZE as usize);
    let up = transpose_kmajor(t.ffn_up.as_slice(), hidden, FFN_SIZE as usize);
    let down = transpose_kmajor(t.ffn_down.as_slice(), FFN_SIZE as usize, hidden);
    LayerRepack {
        attn_norm: t.attn_norm,
        attn_q_heads: q,
        attn_k_heads: k,
        attn_v_heads: v,
        attn_out_heads: o,
        ffn_norm: t.ffn_norm,
        ffn_gate: gate,
        ffn_up: up,
        ffn_down: down,
    }
}

/// One declared input of the prefill section: a buffer name and its
/// runtime values.
pub struct NamedWeight<T> {
    pub name: String,
    pub values: Vec<T>,
}

/// The per-head weight names of a layer for heads `0..count`.
pub open spec fn head_names(layer: nat, kind: Seq<char>, count: nat) -> Seq<Seq<char>> {
    Seq::new(count, |h: int| head_name(layer, kind, h as nat))
}

/// The inputs a layer declares, in declaration order: the attention norm,
/// the query, key, value and output head slices, then the feed-forward
/// norm and weights.
pub open spec fn layer_declared_names(layer: nat) -> Seq<Seq<char>> {
    seq![blk_name(layer, "attn_norm.weight"@)] + head_names(layer, "attn_q.h"@, HEAD_COUNT as nat)
        + head_names(layer, "attn_k.g"@, KV_HEAD_COUNT as nat) + head_names(layer, "attn_v.g"@, KV_HEAD_COUNT as nat)
        + head_names(layer, "attn_output.h"@, HEAD_COUNT as nat) + seq![
        blk_name(layer, "ffn_norm.weight"@),
        blk_name(layer, "ffn_gate.weight"@),
        blk_name(layer, "ffn_up.weight"@),
        blk_name(layer, "ffn_down.weight"@),
    ]
}

/// The values a layer declares, in declaration order (see
/// [`layer_declared_names`]).
pub open spec fn layer_declared_values<T>(r: LayerRepack<T>) -> Seq<Seq<T>> {
    seq![r.attn_norm@] + r.attn_q_heads@.map_values(|v: Vec<T>| v@) + r.attn_k_heads@.map_values(|v: Vec<T>| v@)
        + r.attn_v_heads@.map_values(|v: Vec<T>| v@) + r.attn_out_heads@.map_values(|v: Vec<T>| v@) + seq![
        r.ffn_norm@,
        r.ffn_gate@,
        r.ffn_up@,
        r.ffn_down@,
    ]
}

fn push_heads<T>(out: &mut Vec<NamedWeight<T>>, layer: u64, kind: &str, heads: Vec<Vec<T>>)
    requires
        heads@.len() <= HEAD_COUNT,
    ensures
        final(out)@.len() == old(out)@.len() + heads@.len(),
        forall|i: int| 0 <= i < old(out)@.len() ==> #[trigger] final(out)@[i] == old(out)@[i],
        forall|h: int| 0 <= h < heads@.len() ==> {
            &&& (#[trigger] final(out)@[old(out)@.len() + h]).name@ == head_name(layer as nat, kind@, h as nat)
            &&& final(out)@[old(out)@.len() + h].values@ == heads@[h]@
        },
{
    let ghost start = out@.len();
    let ghost all = heads@;
    let mut rest = heads;
    let mut h: u64 = 0;
    while rest.len() > 0
        invariant
            h <= all.len(),
            all.len() <= HEAD_COUNT,
            rest@ == all.subrange(h as int, all.len() as int),
            out@.len() == start + h,
            forall|i: int| 0 <= i < start ==> #[trigger] out@[i] == old(out)@[i],
            forall|x: int| 0 <= x < h ==> {
                &&& (#[trigger] out@[start + x]).name@ == head_name(layer as nat, kind@, x as nat)
                &&& out@[start + x].values@ == all[x]@
            },
        decreases rest@.len(),
    {
        let values = rest.remove(0);
        let name = head_text(layer, kind, h);
        out.push(NamedWeight { name, values });
        h = h + 1;
    }
}

/// The named inputs one layer declares, in declaration order.
pub fn layer_declared_inputs<T>(layer: u64, r: LayerRepack<T>) -> (out: Vec<NamedWeight<T>>)
    requires
        r.attn_q_heads@.len() == HEAD_COUNT,
        r.attn_k_heads@.len() == KV_HEAD_COUNT,
        r.attn_v_heads@.len() == KV_HEAD_COUNT,
        r.attn_out_heads@.len() == HEAD_COUNT,
    ensures
        out@.map_values(|w: NamedWeight<T>| w.name@) == layer_declared_names(layer as nat),
        out@.map_values(|w: NamedWeight<T>| w.values@) == layer_declared_values(r),
{
    let ghost values = layer_declared_values(r);
    let ghost names = layer_declared_names(layer as nat);
    let ghost q = r.attn_q_heads@;
    let ghost k = r.attn_k_heads@;
    let ghost v = r.attn_v_heads@;
    let ghost o = r.attn_out_heads@;
    let mut out: Vec<NamedWeight<T>> = Vec::new();
    out.push(NamedWeight { name: blk_text(layer, "attn_norm.weight"), values: r.attn_norm });
    let ghost o0 = out@;
    push_heads(&mut out, layer, "attn_q.h", r.attn_q_heads);
    let ghost o1 = out@;
    push_heads(&mut out, layer, "attn_k.g", r.attn_k_heads);
    let ghost o2 = out@;
    push_heads(&mut out, layer, "attn_v.g", r.attn_v_heads);
    let ghost o3 = out@;
    push_heads(&mut out, layer, "attn_output.h", r.attn_out_heads);
    let ghost o4 = out@;
    out.push(NamedWeight { name: blk_text(layer, "ffn_norm.weight"), values: r.ffn_norm });
    out.push(NamedWeight { name: blk_text(layer, "ffn_gate.weight"), values: r.ffn_gate });
    out.push(NamedWeight { name: blk_text(layer, "ffn_up.weight"), values: r.ffn_up });
    out.push(NamedWeight { name: blk_text(layer, "ffn_down.weight"), values: r.ffn_down });
    proof {
        assert(out@.len() == 45);
        assert forall|i: int| 0 <= i < 45 implies (#[trigger] out@[i]).name@ == names[i] && out@[i].values@ == values[i] by {
            if i < 41 {
                assert(out@[i] == o4[i]);
            }
            if i < 26 {
                assert(o4[i] == o3[i]);
            }
            if i < 21 {
                assert(o3[i] == o2[i]);
            }
            if i < 16 {
                assert(o2[i] == o1[i]);
            }
            if i < 1 {
                assert(o1[i] == o0[i]);
            } else if i < 16 {
                assert(o1[1 + (i - 1)].name@ == head_name(layer as nat, "attn_q.h"@, (i - 1) as nat));
            } else if i < 21 {
                assert(o2[16 + (i - 16)].name@ == head_name(layer as nat, "attn_k.g"@, (i - 16) as nat));
            } else if i < 26 {
                assert(o3[21 + (i - 21)].name@ == head_name(layer as nat, "attn_v.g"@, (i - 21) as nat));
            } else if i < 41 {
                assert(o4[26 + (i - 26)].name@ == head_name(layer as nat, "attn_output.h"@, (i - 26) as nat));
            }
        }
        assert(out@.map_values(|w: NamedWeight<T>| w.values@) =~= values);
        assert(out@.map_values(|w: NamedWeight<T>| w.name@) =~= names);
    }
    out
}

proof fn lemma_query_names_are(layer: nat, n: nat, i: int)
    requires
        0 <= i < 2 * n,
    ensures
        query_head_names(layer, n)[i] == head_name(layer, "attn_q.h"@, (i / 2) as nat)
            || query_head_names(layer, n)[i] == head_name(layer, "attn_output.h"@, (i / 2) as nat),
        i / 2 < n,
    decreases n,
{
    lemma_head_names_len(layer, (n - 1) as nat);
    if i < 2 * (n - 1) {
        lemma_query_names_are(layer, (n - 1) as nat, i);
    }
}

proof fn lemma_kv_names_are(layer: nat, n: nat, i: int)
    requires
        0 <= i < 2 * n,
    ensures
        kv_head_names(layer, n)[i] == head_name(layer, "attn_k.g"@, (i / 2) as nat)
            || kv_head_names(layer, n)[i] == head_name(layer, "attn_v.g"@, (i / 2) as nat),
        i / 2 < n,
    decreases n,
{
    lemma_head_names_len(layer, (n - 1) as nat);
    if i < 2 * (n - 1) {
        lemma_kv_names_are(layer, (n - 1) as nat, i);
    }
}

/// The inputs a layer declares for the section are exactly the inputs its
/// kernels read by name: every weight the graph registers is given values,
/// and no value is given to a name the graph does not read.
pub proof fn law_declared_inputs_are_the_graph_inputs(layer: nat)
    ensures
        layer_declared_names(layer).to_set() == layer_input_names(layer).to_set(),
{
    let a = layer_declared_names(layer);
    let b = layer_input_names(layer);
    let q = query_head_names(layer, HEAD_COUNT as nat);
    let kv = kv_head_names(layer, KV_HEAD_COUNT as nat);
    lemma_layer_names_contain(layer);
    lemma_head_names_len(layer, HEAD_COUNT as nat);
    lemma_head_names_len(layer, KV_HEAD_COUNT as nat);
    assert(a.len() == 45);
    assert(b.len() == 45);
    assert forall|x: Seq<char>| a.contains(x) implies b.contains(x) by {
        let i = choose|i: int| 0 <= i < a.len() && a[i] == x;
        if 1 <= i < 16 {
            assert(a[i] == head_name(layer, "attn_q.h"@, (i - 1) as nat));
            assert(b.contains(head_name(layer, "attn_q.h"@, (i - 1) as nat)));
        } else if 16 <= i < 21 {
            assert(a[i] == head_name(layer, "attn_k.g"@, (i - 16) as nat));
            assert(b.contains(head_name(layer, "attn_k.g"@, (i - 16) as nat)));
        } else if 21 <= i < 26 {
            assert(a[i] == head_name(layer, "attn_v.g"@, (i - 21) as nat));
            assert(b.contains(head_name(layer, "attn_v.g"@, (i - 21) as nat)));
        } else if 26 <= i < 41 {
            assert(a[i] == head_name(layer, "attn_output.h"@, (i - 26) as nat));
            assert(b.contains(head_name(layer, "attn_output.h"@, (i - 26) as nat)));
        }
    }
    assert forall|x: Seq<char>| b.contains(x) implies a.contains(x) by {
        let i = choose|i: int| 0 <= i < b.len() && b[i] == x;
        if i == 0 {
            assert(a[0] == x);
        } else if i < 31 {
            assert(b[i] == q[i - 1]);
            lemma_query_names_are(layer, HEAD_COUNT as nat, i - 1);
            let h = (i - 1) / 2;
            assert(a[1 + h] == head_name(layer, "attn_q.h"@, h as nat));
            assert(a[26 + h] == head_name(layer, "attn_output.h"@, h as nat));
        } else if i < 41 {
            assert(b[i] == kv[i - 31]);
            lemma_kv_names_are(layer, KV_HEAD_COUNT as nat, i - 31);
            let g = (i - 31) / 2;
            assert(a[16 + g] == head_name(layer, "attn_k.g"@, g as nat));
            assert(a[21 + g] == head_name(layer, "attn_v.g"@, g as nat));
        } else {
            assert(a[i] == x);
        }
    }
    assert(a.to_set() =~= b.to_set());
}

} // verus!
