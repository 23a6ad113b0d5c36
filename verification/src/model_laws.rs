//! What a loaded model holds, and where a forward pass finds it.

use vstd::prelude::*;

use crate::gguf::GgufFileView;
use crate::qwen2::{Config, Layout, LayerWeights, Model};
use crate::value::GgufValueView;

verus! {

// ── weights ──

/// `w` are the weights of the tensor with that name: as many as its dimensions make,
/// each unpacked from the bytes that the tensor takes in the file.
pub open spec fn is_tensor(f: GgufFileView, b: Seq<u8>, name: Seq<char>, w: Seq<u32>) -> bool {
    exists|k: int|
        {
            &&& 0 <= k < f.tensors.len()
            &&& (#[trigger] f.tensors[k]).name == name
            &&& forall|j: int| 0 <= j < k ==> (#[trigger] f.tensors[j]).name != name
            &&& w.len() == crate::gguf::product(f.tensors[k].dims)
            &&& crate::dequant::holds(
                w,
                f.tensors[k].ggml_type,
                w.len(),
                crate::dequant_laws::bytes_of_tensor(f, b, f.tensors[k]),
            )
        }
}

/// `w` are the weights of the tensor with that name, or nothing where the file has no
/// such tensor.
pub open spec fn is_tensor_if_there(
    f: GgufFileView,
    b: Seq<u8>,
    name: Seq<char>,
    w: Option<Vec<u32>>,
) -> bool {
    match w {
        Some(x) => is_tensor(f, b, name, x@),
        None => forall|j: int| 0 <= j < f.tensors.len() ==> (#[trigger] f.tensors[j]).name != name,
    }
}

/// Every field of a layer holds the tensor of its own name, behind the prefix of the
/// layer.
pub open spec fn holds_its_tensors(
    f: GgufFileView,
    b: Seq<u8>,
    prefix: Seq<char>,
    l: LayerWeights,
) -> bool {
    &&& is_tensor(f, b, prefix + "attn_norm.weight"@, l.attn_norm@)
    &&& is_tensor(f, b, prefix + "attn_q.weight"@, l.wq@)
    &&& is_tensor_if_there(f, b, prefix + "attn_q.bias"@, l.bq)
    &&& is_tensor(f, b, prefix + "attn_k.weight"@, l.wk@)
    &&& is_tensor_if_there(f, b, prefix + "attn_k.bias"@, l.bk)
    &&& is_tensor(f, b, prefix + "attn_v.weight"@, l.wv@)
    &&& is_tensor_if_there(f, b, prefix + "attn_v.bias"@, l.bv)
    &&& is_tensor(f, b, prefix + "attn_output.weight"@, l.wo@)
    &&& is_tensor(f, b, prefix + "ffn_norm.weight"@, l.ffn_norm@)
    &&& is_tensor(f, b, prefix + "ffn_gate.weight"@, l.w_gate@)
    &&& is_tensor(f, b, prefix + "ffn_up.weight"@, l.w_up@)
    &&& is_tensor(f, b, prefix + "ffn_down.weight"@, l.w_down@)
}

proof fn read_is_tensor(f: GgufFileView, b: Seq<u8>, name: Seq<char>, w: Vec<u32>)
    requires
        crate::dequant::is_read(f, b, name, w),
    ensures
        is_tensor(f, b, name, w@),
{
    crate::dequant_laws::tensors_are_found_by_name(f.tensors, name);
    let k = choose|k: int|
        {
            &&& 0 <= k < f.tensors.len()
            &&& (#[trigger] f.tensors[k]).name == name
            &&& forall|j: int| 0 <= j < k ==> (#[trigger] f.tensors[j]).name != name
        };
    assert(f.tensors[k].name == name);
    crate::dequant_laws::data_lies_at_the_offset(f, b, name, k);
}

proof fn found_is_tensor(f: GgufFileView, b: Seq<u8>, name: Seq<char>, w: Option<Vec<u32>>)
    requires
        crate::qwen2::is_found(f, b, name, w),
    ensures
        is_tensor_if_there(f, b, name, w),
{
    match w {
        Some(x) => read_is_tensor(f, b, name, x),
        None => crate::dequant_laws::tensors_are_found_by_name(f.tensors, name),
    }
}

/// Each field of a loaded layer holds the weights of its own tensor, named `blk.`, the
/// number of the layer, a point and the name of the part.
pub proof fn layers_hold_their_tensors(f: GgufFileView, b: Seq<u8>, i: nat, l: LayerWeights)
    requires
        crate::qwen2::is_layer(f, b, i, l),
    ensures
        holds_its_tensors(f, b, "blk."@ + crate::text::decimal(i) + "."@, l),
{
    let p = "blk."@ + crate::text::decimal(i) + "."@;
    read_is_tensor(f, b, p + "attn_norm.weight"@, l.attn_norm);
    read_is_tensor(f, b, p + "attn_q.weight"@, l.wq);
    found_is_tensor(f, b, p + "attn_q.bias"@, l.bq);
    read_is_tensor(f, b, p + "attn_k.weight"@, l.wk);
    found_is_tensor(f, b, p + "attn_k.bias"@, l.bk);
    read_is_tensor(f, b, p + "attn_v.weight"@, l.wv);
    found_is_tensor(f, b, p + "attn_v.bias"@, l.bv);
    read_is_tensor(f, b, p + "attn_output.weight"@, l.wo);
    read_is_tensor(f, b, p + "ffn_norm.weight"@, l.ffn_norm);
    read_is_tensor(f, b, p + "ffn_gate.weight"@, l.w_gate);
    read_is_tensor(f, b, p + "ffn_up.weight"@, l.w_up);
    read_is_tensor(f, b, p + "ffn_down.weight"@, l.w_down);
}

/// A loaded model holds the embedding, the output head where the file has one, the last
/// norm, and as many layers as the file announces, in order.
pub proof fn models_hold_their_tensors(f: GgufFileView, b: Seq<u8>, m: Model)
    requires
        crate::qwen2::is_model(f, b, m),
    ensures
        is_tensor(f, b, "token_embd.weight"@, m.tok_embd@),
        is_tensor_if_there(f, b, "output.weight"@, m.output),
        is_tensor(f, b, "output_norm.weight"@, m.output_norm@),
        m.layers@.len() == m.config.n_layers,
        forall|i: int|
            0 <= i < m.layers@.len() ==> holds_its_tensors(
                f,
                b,
                "blk."@ + crate::text::decimal(i as nat) + "."@,
                #[trigger] m.layers@[i],
            ),
{
    read_is_tensor(f, b, "token_embd.weight"@, m.tok_embd);
    found_is_tensor(f, b, "output.weight"@, m.output);
    read_is_tensor(f, b, "output_norm.weight"@, m.output_norm);
    assert forall|i: int| 0 <= i < m.layers@.len() implies holds_its_tensors(
        f,
        b,
        "blk."@ + crate::text::decimal(i as nat) + "."@,
        #[trigger] m.layers@[i],
    ) by {
        layers_hold_their_tensors(f, b, i as nat, m.layers@[i]);
    }
}

// ── dimensions ──

/// The first entry of the metadata under a key.
pub open spec fn stands_under(f: GgufFileView, key: Seq<char>, v: GgufValueView) -> bool {
    exists|k: int|
        {
            &&& 0 <= k < f.metadata.len()
            &&& #[trigger] f.metadata[k] == (key, v)
            &&& forall|j: int| 0 <= j < k ==> (#[trigger] f.metadata[j]).0 != key
        }
}

/// No entry of the metadata has the key.
pub open spec fn missing(f: GgufFileView, key: Seq<char>) -> bool {
    forall|j: int| 0 <= j < f.metadata.len() ==> (#[trigger] f.metadata[j]).0 != key
}

/// A lookup finds the first entry with the key.
pub proof fn entries_are_found_by_key(pairs: Seq<crate::gguf::Pair>, key: Seq<char>)
    ensures
        match crate::gguf::lookup(pairs, key) {
            Some(v) => exists|k: int|
                {
                    &&& 0 <= k < pairs.len()
                    &&& #[trigger] pairs[k] == (key, v)
                    &&& forall|j: int| 0 <= j < k ==> (#[trigger] pairs[j]).0 != key
                },
            None => forall|j: int| 0 <= j < pairs.len() ==> (#[trigger] pairs[j]).0 != key,
        },
    decreases pairs.len(),
{
    if pairs.len() > 0 {
        if pairs[0].0 == key {
            assert(pairs[0] == (key, pairs[0].1));
        } else {
            let rest = pairs.drop_first();
            entries_are_found_by_key(rest, key);
            match crate::gguf::lookup(rest, key) {
                Some(v) => {
                    let k = choose|k: int|
                        {
                            &&& 0 <= k < rest.len()
                            &&& #[trigger] rest[k] == (key, v)
                            &&& forall|j: int| 0 <= j < k ==> (#[trigger] rest[j]).0 != key
                        };
                    assert(pairs[k + 1] == (key, v));
                    assert forall|j: int| 0 <= j < k + 1 implies (#[trigger] pairs[j]).0
                        != key by {
                        if j > 0 {
                            assert(rest[j - 1] == pairs[j]);
                        }
                    }
                },
                None => {
                    assert forall|j: int| 0 <= j < pairs.len() implies (#[trigger] pairs[j]).0
                        != key by {
                        if j > 0 {
                            assert(rest[j - 1] == pairs[j]);
                        }
                    }
                },
            }
        }
    }
}

/// A size of the model stands in the metadata under the prefix of qwen2, or under that of
/// llama where qwen2's is missing.
pub open spec fn states(f: GgufFileView, part: Seq<char>, n: usize) -> bool {
    exists|v: GgufValueView|
        {
            &&& #[trigger] is_count(v, n)
            &&& stands_under(f, "qwen2."@ + part, v) || missing(f, "qwen2."@ + part)
                && stands_under(f, "llama."@ + part, v)
        }
}

/// The value is the number. Negative ones count as their 64-bit patterns.
pub open spec fn is_count(v: GgufValueView, n: usize) -> bool {
    match v {
        GgufValueView::U8(x) => n == x,
        GgufValueView::U16(x) => n == x,
        GgufValueView::U32(x) => n == x as usize,
        GgufValueView::U64(x) => n == x as usize,
        GgufValueView::I8(x) => n == (if x < 0 {
            x + 0x1_0000_0000_0000_0000
        } else {
            x as int
        }) as u64 as usize,
        GgufValueView::I16(x) => n == (if x < 0 {
            x + 0x1_0000_0000_0000_0000
        } else {
            x as int
        }) as u64 as usize,
        GgufValueView::I32(x) => n == (if x < 0 {
            x + 0x1_0000_0000_0000_0000
        } else {
            x as int
        }) as u64 as usize,
        GgufValueView::I64(x) => n == (if x < 0 {
            x + 0x1_0000_0000_0000_0000
        } else {
            x as int
        }) as u64 as usize,
        _ => false,
    }
}

/// The same of a float, which may be written as an f32 or as a double.
pub open spec fn states_float(f: GgufFileView, part: Seq<char>, bits: u32) -> bool {
    exists|v: GgufValueView|
        {
            &&& #[trigger] is_float(v, bits)
            &&& stands_under(f, "qwen2."@ + part, v) || missing(f, "qwen2."@ + part)
                && stands_under(f, "llama."@ + part, v)
        }
}

/// The value is the float.
pub open spec fn is_float(v: GgufValueView, bits: u32) -> bool {
    match v {
        GgufValueView::F32(x) => bits == x,
        GgufValueView::F64(x) => bits == crate::decimal::narrowed(x) as u32,
        _ => false,
    }
}

proof fn size_is_stated(f: GgufFileView, part: Seq<char>)
    ensures
        crate::qwen2::size_in(f, part) matches Ok(n) ==> states(f, part, n),
{
    entries_are_found_by_key(f.metadata, "qwen2."@ + part);
    entries_are_found_by_key(f.metadata, "llama."@ + part);
    if let Ok(n) = crate::qwen2::size_in(f, part) {
        let v = crate::qwen2::entry(f, part)->Some_0.1;
        assert(is_count(v, n));
    }
}

proof fn float_is_stated(f: GgufFileView, part: Seq<char>)
    ensures
        crate::qwen2::float_in(f, part) matches Ok(n) ==> states_float(f, part, n),
{
    entries_are_found_by_key(f.metadata, "qwen2."@ + part);
    entries_are_found_by_key(f.metadata, "llama."@ + part);
    if let Ok(n) = crate::qwen2::float_in(f, part) {
        let v = crate::qwen2::entry(f, part)->Some_0.1;
        assert(is_float(v, n));
    }
}

/// Each dimension is the one that the metadata state under its own key. The width of a
/// head is the largest of which all the heads fit in the embedding, and the vocabulary
/// has as many tokens as the embedding has rows.
pub proof fn dimensions_come_from_their_keys(f: GgufFileView, c: Config)
    requires
        crate::qwen2::config_of(f) == Ok::<Config, Seq<char>>(c),
    ensures
        states(f, "block_count"@, c.n_layers),
        states(f, "embedding_length"@, c.n_embd),
        states(f, "feed_forward_length"@, c.n_ff),
        states(f, "attention.head_count"@, c.n_heads),
        states(f, "attention.head_count_kv"@, c.n_kv_heads),
        states_float(f, "rope.freq_base"@, c.rope_theta),
        states_float(f, "attention.layer_norm_rms_epsilon"@, c.rms_eps),
        c.n_heads > 0,
        c.head_dim * c.n_heads <= c.n_embd < (c.head_dim + 1) * c.n_heads,
        exists|k: int|
            {
                &&& 0 <= k < f.tensors.len()
                &&& (#[trigger] f.tensors[k]).name == "token_embd.weight"@
                &&& f.tensors[k].dims.len() >= 2
                &&& c.vocab_size == f.tensors[k].dims[1] as usize
            },
{
    size_is_stated(f, "block_count"@);
    size_is_stated(f, "embedding_length"@);
    size_is_stated(f, "feed_forward_length"@);
    size_is_stated(f, "attention.head_count"@);
    size_is_stated(f, "attention.head_count_kv"@);
    float_is_stated(f, "rope.freq_base"@);
    float_is_stated(f, "attention.layer_norm_rms_epsilon"@);
    crate::dequant_laws::tensors_are_found_by_name(f.tensors, "token_embd.weight"@);
    let n = c.n_embd as int;
    let m = c.n_heads as int;
    let d = c.head_dim as int;
    assert(d == n / m);
    vstd::arithmetic::div_mod::lemma_fundamental_div_mod(n, m);
    assert(d * m <= n < (d + 1) * m) by (nonlinear_arith)
        requires
            n == m * d + n % m,
            0 <= n % m < m,
    ;
}

// ── names of tensors ──

/// Different parts, or the same part of different layers, have different names.
pub proof fn names_tell_layers_apart(i: nat, j: nat, a: Seq<char>, b: Seq<char>)
    requires
        crate::qwen2::layer_name(i, a) == crate::qwen2::layer_name(j, b),
    ensures
        i == j,
        a == b,
{
    reveal_strlit("blk.");
    reveal_strlit(".");
    let x = crate::text::decimal(i);
    let y = crate::text::decimal(j);
    crate::text::decimal_is_digits(i);
    crate::text::decimal_is_digits(j);
    let s = crate::qwen2::layer_name(i, a);
    assert(s.skip(4) =~= x + seq!['.'] + a);
    assert(crate::qwen2::layer_name(j, b).skip(4) =~= y + seq!['.'] + b);
    crate::text::joints_split(x, '.', a);
    crate::text::joints_split(y, '.', b);
    crate::text::decimal_reads_back(i);
    crate::text::decimal_reads_back(j);
}

// ── buffers ──

/// The rows of the embedding stand one after the other, each as wide as the embedding.
pub proof fn rows_follow_each_other(l: Layout, token: nat)
    ensures
        l.row(0) == 0,
        l.row(token + 1) == l.row(token) + l.config.n_embd,
{
    let n = l.config.n_embd as int;
    assert((token + 1) * n == token * n + n && 0 * n == 0) by (nonlinear_arith);
}

/// The queries of a position follow those of the position before it, a whole embedding
/// further; within a position each head follows the one before it.
pub proof fn query_heads_follow_each_other(l: Layout, s: nat, h: nat)
    ensures
        l.query(0, 0) == 0,
        l.query(s, h + 1) == l.query(s, h) + l.config.head_dim,
        l.query(s + 1, h) == l.query(s, h) + l.config.n_embd,
{
    let n = l.config.n_embd as int;
    let d = l.config.head_dim as int;
    assert((s + 1) * n == s * n + n && 0 * n == 0) by (nonlinear_arith);
    assert((h + 1) * d == h * d + d && 0 * d == 0) by (nonlinear_arith);
}

/// Query heads share heads of keys in groups of neighbours: of `n_heads / n_kv_heads` in
/// a row all read the same keys, and the next one reads the keys that follow. A position
/// has one row with all the shared heads.
pub proof fn query_heads_share_keys(l: Layout, t: nat, h: nat)
    requires
        l.wf(),
        h + 1 < l.config.n_heads,
    ensures
        l.key(0, 0) == 0,
        (h + 1) % (l.config.n_heads as nat / l.config.n_kv_heads as nat) != 0 ==> l.key(t, h + 1)
            == l.key(t, h),
        (h + 1) % (l.config.n_heads as nat / l.config.n_kv_heads as nat) == 0 ==> l.key(t, h + 1)
            == l.key(t, h) + l.config.head_dim,
        l.key(t + 1, h) == l.key(t, h) + l.config.n_kv_heads * l.config.head_dim,
{
    let c = l.config;
    let g = c.group() as int;
    let d = c.head_dim as int;
    let w = c.kv_width() as int;
    crate::qwen2::shared_heads_serve_equal_blocks(c, 0, 0);
    assert(g > 0) by (nonlinear_arith)
        requires
            g * c.n_kv_heads == c.n_heads,
            c.n_heads > 0,
            c.n_kv_heads > 0,
    ;
    vstd::arithmetic::div_mod::lemma_fundamental_div_mod(h as int, g);
    let q = h as int / g;
    let r = h as int % g;
    if r + 1 < g {
        vstd::arithmetic::div_mod::lemma_fundamental_div_mod_converse(h as int + 1, g, q, r + 1);
    } else {
        assert(h + 1 == g * (q + 1)) by (nonlinear_arith)
            requires
                h == g * q + r,
                r + 1 == g,
        ;
        vstd::arithmetic::div_mod::lemma_fundamental_div_mod_converse(h as int + 1, g, q + 1, 0);
    }
    assert((q + 1) * d == q * d + d && 0 * d == 0) by (nonlinear_arith);
    assert((t + 1) * w == t * w + w && 0 * w == 0) by (nonlinear_arith);
    vstd::arithmetic::div_mod::lemma_basic_div(0, g);
}

/// The rotary embedding turns number `i` of a head together with the number half a head
/// further on, in the same head.
pub proof fn rotary_pairs_are_half_a_head_apart(
    head_dim: nat,
    heads: nat,
    s: nat,
    h: nat,
    i: nat,
)
    requires
        i < head_dim / 2,
    ensures
        ({
            let (a, b) = crate::qwen2::rope_pair(head_dim, heads, s, h, i);
            &&& b - a == head_dim / 2
            &&& a == s * heads * head_dim + h * head_dim + i
            &&& b < s * heads * head_dim + (h + 1) * head_dim
        }),
{
    assert((s * heads + h) * head_dim == s * heads * head_dim + h * head_dim) by (nonlinear_arith);
    assert((h + 1) * head_dim == h * head_dim + head_dim) by (nonlinear_arith);
}

/// The pairs of a head cover it: every number in its first half is the first of a pair,
/// every number in its second half the second.
pub proof fn rotary_pairs_cover_the_head(head_dim: nat, heads: nat, s: nat, h: nat, o: nat)
    requires
        o < 2 * (head_dim / 2),
    ensures
        o < head_dim / 2 ==> crate::qwen2::rope_pair(head_dim, heads, s, h, o).0 == (s * heads + h)
            * head_dim + o,
        o >= head_dim / 2 ==> crate::qwen2::rope_pair(
            head_dim,
            heads,
            s,
            h,
            (o - head_dim / 2) as nat,
        ).1 == (s * heads + h) * head_dim + o,
{
}

/// A pass is possible where each head of keys and values serves the same number of query
/// heads, at least one, and the query heads fit in the embedding.
pub proof fn heads_share_evenly(c: Config)
    ensures
        c.sound() ==> c.n_heads == c.group() * c.n_kv_heads && c.group() > 0,
        c.sound() ==> 0 < c.kv_width() <= c.n_embd || c.head_dim == 0,
        forall|g: nat|
            c.n_kv_heads > 0 && g > 0 && c.n_heads == #[trigger] (g * c.n_kv_heads) && c.n_heads
                * c.head_dim <= c.n_embd ==> c.sound() && c.group() == g,
{
    let n = c.n_heads as int;
    let k = c.n_kv_heads as int;
    let d = c.head_dim as int;
    if c.sound() {
        let g = c.group() as int;
        vstd::arithmetic::div_mod::lemma_fundamental_div_mod(n, k);
        assert(n == g * k && g > 0) by (nonlinear_arith)
            requires
                n == k * g + 0,
                n > 0,
                k > 0,
        ;
        assert(k * d <= n * d && (d > 0 ==> k * d > 0)) by (nonlinear_arith)
            requires
                0 < k <= n,
                d >= 0,
        ;
    }
    assert forall|g: nat|
        c.n_kv_heads > 0 && g > 0 && c.n_heads == #[trigger] (g * c.n_kv_heads) && c.n_heads
            * c.head_dim <= c.n_embd implies c.sound() && c.group() == g by {
        vstd::arithmetic::div_mod::lemma_fundamental_div_mod_converse(n, k, g as int, 0);
        assert(k <= n) by (nonlinear_arith)
            requires
                n == g * k,
                g >= 1,
                k > 0,
        ;
    }
}

} // verus!
