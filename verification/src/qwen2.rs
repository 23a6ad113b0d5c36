//! The qwen2 architecture (the llama family, with biases on Q, K and V): its
//! dimensions, the weights it loads, and where everything lies in the buffers of
//! a forward pass.
//!
//! Heads of queries share heads of keys and values in groups. The forward pass
//! itself is floating-point work on these buffers.

use vstd::prelude::*;

use crate::gguf::{GgufFile, GgufFileView};
use crate::text::push_decimal;
use crate::value::GgufValueView;

verus! {

// ── dimensions ──

/// Dimensions and constants of a model. Floats are f32 patterns.
#[derive(Debug, Clone, Copy, PartialEq, Eq)]
pub struct Config {
    pub n_layers: usize,
    pub n_embd: usize,
    pub n_ff: usize,
    pub n_heads: usize,
    pub n_kv_heads: usize,
    pub head_dim: usize,
    pub rope_theta: u32,
    pub rms_eps: u32,
    pub vocab_size: usize,
}

/// The metadata entry of a parameter, with its key: the one of qwen2, else the one
/// of llama.
pub open spec fn entry(f: GgufFileView, suffix: Seq<char>) -> Option<(Seq<char>, GgufValueView)> {
    match crate::gguf::lookup(f.metadata, "qwen2."@ + suffix) {
        Some(v) => Some(("qwen2."@ + suffix, v)),
        None => match crate::gguf::lookup(f.metadata, "llama."@ + suffix) {
            Some(v) => Some(("llama."@ + suffix, v)),
            None => None,
        },
    }
}

/// The size stated by a parameter; a negative number counts as its 64-bit pattern.
pub open spec fn size_in(f: GgufFileView, suffix: Seq<char>) -> Result<usize, Seq<char>> {
    match entry(f, suffix) {
        None => Err("metadata mancante: "@ + suffix),
        Some((key, v)) => match v.integer() {
            None => Err(key + ": tipo inatteso"@),
            Some(n) => Ok(
                (if n < 0 {
                    n + 0x1_0000_0000_0000_0000
                } else {
                    n
                }) as u64 as usize,
            ),
        },
    }
}

/// The float stated by a parameter.
pub open spec fn float_in(f: GgufFileView, suffix: Seq<char>) -> Result<u32, Seq<char>> {
    match entry(f, suffix) {
        None => Err("metadata mancante: "@ + suffix),
        Some((_, GgufValueView::F32(v))) => Ok(v),
        Some((_, GgufValueView::F64(v))) => Ok(crate::decimal::narrowed(v) as u32),
        Some((key, _)) => Err(key + ": tipo inatteso"@),
    }
}

/// The number of tokens: the second dimension of the embedding.
pub open spec fn vocab_in(f: GgufFileView) -> Result<usize, Seq<char>> {
    match crate::gguf::find_tensor(f.tensors, "token_embd.weight"@) {
        None => Err(
            crate::value::GgufErrorView::TensorNotFound("token_embd.weight"@).text(),
        ),
        Some(t) => if t.dims.len() < 2 {
            Err("token_embd.weight: dimensioni mancanti"@)
        } else {
            Ok(t.dims[1] as usize)
        },
    }
}

/// The dimensions stated by the metadata; the first parameter that is missing or
/// wrong is reported.
pub open spec fn config_of(f: GgufFileView) -> Result<Config, Seq<char>> {
    match size_in(f, "embedding_length"@) {
        Err(e) => Err(e),
        Ok(n_embd) => match size_in(f, "attention.head_count"@) {
            Err(e) => Err(e),
            Ok(n_heads) => match size_in(f, "attention.head_count_kv"@) {
                Err(e) => Err(e),
                Ok(n_kv_heads) => match size_in(f, "block_count"@) {
                    Err(e) => Err(e),
                    Ok(n_layers) => match size_in(f, "feed_forward_length"@) {
                        Err(e) => Err(e),
                        Ok(n_ff) => if n_heads == 0 {
                            Err("attention.head_count: zero"@)
                        } else {
                            match float_in(f, "rope.freq_base"@) {
                                Err(e) => Err(e),
                                Ok(rope_theta) => match float_in(
                                    f,
                                    "attention.layer_norm_rms_epsilon"@,
                                ) {
                                    Err(e) => Err(e),
                                    Ok(rms_eps) => match vocab_in(f) {
                                        Err(e) => Err(e),
                                        Ok(vocab_size) => Ok(
                                            Config {
                                                n_layers,
                                                n_embd,
                                                n_ff,
                                                n_heads,
                                                n_kv_heads,
                                                head_dim: n_embd / n_heads,
                                                rope_theta,
                                                rms_eps,
                                                vocab_size,
                                            },
                                        ),
                                    },
                                },
                            }
                        },
                    },
                },
            },
        },
    }
}

fn joined(a: &str, b: &str) -> (r: String)
    ensures
        r@ == a@ + b@,
{
    let mut out = a.to_owned();
    out.push_str(b);
    out
}

fn read_size(gguf: &GgufFile, suffix: &str) -> (r: Result<usize, String>)
    ensures
        match size_in(gguf@, suffix@) {
            Ok(n) => r == Ok::<usize, String>(n),
            Err(e) => r matches Err(m) && m@ == e,
        },
{
    let mut key = joined("qwen2.", suffix);
    let mut found = gguf.get(key.as_str());
    if found.is_none() {
        key = joined("llama.", suffix);
        found = gguf.get(key.as_str());
    }
    match found {
        None => Err(joined("metadata mancante: ", suffix)),
        Some(v) => match v.as_u64() {
            Some(n) => Ok(n as usize),
            None => Err(joined(key.as_str(), ": tipo inatteso")),
        },
    }
}

fn read_float(gguf: &GgufFile, suffix: &str) -> (r: Result<u32, String>)
    ensures
        match float_in(gguf@, suffix@) {
            Ok(n) => r == Ok::<u32, String>(n),
            Err(e) => r matches Err(m) && m@ == e,
        },
{
    let mut key = joined("qwen2.", suffix);
    let mut found = gguf.get(key.as_str());
    if found.is_none() {
        key = joined("llama.", suffix);
        found = gguf.get(key.as_str());
    }
    match found {
        None => Err(joined("metadata mancante: ", suffix)),
        Some(v) => match v.as_f32() {
            Some(n) => Ok(n),
            None => Err(joined(key.as_str(), ": tipo inatteso")),
        },
    }
}

impl Config {
    /// The dimensions stated by the metadata of a file.
    pub fn from_gguf(gguf: &GgufFile) -> (r: Result<Self, String>)
        ensures
            match config_of(gguf@) {
                Ok(c) => r == Ok::<Config, String>(c),
                Err(e) => r matches Err(m) && m@ == e,
            },
    {
        let n_embd = read_size(gguf, "embedding_length")?;
        let n_heads = read_size(gguf, "attention.head_count")?;
        let n_kv_heads = read_size(gguf, "attention.head_count_kv")?;
        let n_layers = read_size(gguf, "block_count")?;
        let n_ff = read_size(gguf, "feed_forward_length")?;
        if n_heads == 0 {
            return Err("attention.head_count: zero".to_owned());
        }
        let rope_theta = read_float(gguf, "rope.freq_base")?;
        let rms_eps = read_float(gguf, "attention.layer_norm_rms_epsilon")?;
        let vocab_size = match gguf.tensor("token_embd.weight") {
            Err(e) => {
                return Err(e.message());
            },
            Ok(t) => {
                if t.dims.len() < 2 {
                    return Err("token_embd.weight: dimensioni mancanti".to_owned());
                }
                t.dims[1] as usize
            },
        };
        Ok(
            Config {
                n_layers,
                n_embd,
                n_ff,
                n_heads,
                n_kv_heads,
                head_dim: n_embd / n_heads,
                rope_theta,
                rms_eps,
                vocab_size,
            },
        )
    }
}

// ── weights ──

/// The weights of one layer, as f32 patterns. The biases may be missing, and are zero then.
#[derive(Debug, Clone, PartialEq, Eq)]
pub struct LayerWeights {
    pub attn_norm: Vec<u32>,
    pub wq: Vec<u32>,
    pub bq: Option<Vec<u32>>,
    pub wk: Vec<u32>,
    pub bk: Option<Vec<u32>>,
    pub wv: Vec<u32>,
    pub bv: Option<Vec<u32>>,
    pub wo: Vec<u32>,
    pub ffn_norm: Vec<u32>,
    pub w_gate: Vec<u32>,
    pub w_up: Vec<u32>,
    pub w_down: Vec<u32>,
}

/// A loaded model; the weights are f32 patterns.
#[derive(Debug, Clone, PartialEq, Eq)]
pub struct Model {
    pub config: Config,
    /// The embedding, one row per token.
    pub tok_embd: Vec<u32>,
    /// The output head, one row per token; the embedding serves without it.
    pub output: Option<Vec<u32>>,
    /// Weights of the last norm.
    pub output_norm: Vec<u32>,
    pub layers: Vec<LayerWeights>,
}

/// The name of a tensor of layer `i`.
pub open spec fn layer_name(i: nat, part: Seq<char>) -> Seq<char> {
    "blk."@ + crate::text::decimal(i) + "."@ + part
}

/// What goes wrong when a tensor that the model needs is loaded.
pub open spec fn needed(f: GgufFileView, b: Seq<u8>, name: Seq<char>) -> Option<Seq<char>> {
    match crate::dequant::read_error(f, b, name) {
        Some(e) => Some(name + ": "@ + e.text()),
        None => None,
    }
}

/// What goes wrong when a tensor that may be missing is loaded.
pub open spec fn welcome(f: GgufFileView, b: Seq<u8>, name: Seq<char>) -> Option<Seq<char>> {
    if crate::gguf::find_tensor(f.tensors, name) is None {
        None
    } else {
        needed(f, b, name)
    }
}

/// `w` is what the file holds under a name that may be missing.
pub open spec fn is_found(f: GgufFileView, b: Seq<u8>, name: Seq<char>, w: Option<Vec<u32>>) -> bool {
    match w {
        None => crate::gguf::find_tensor(f.tensors, name) is None,
        Some(x) => crate::dequant::is_read(f, b, name, x),
    }
}

/// The first complaint of several.
pub open spec fn first(complaints: Seq<Option<Seq<char>>>) -> Option<Seq<char>>
    decreases complaints.len(),
{
    if complaints.len() == 0 {
        None
    } else if complaints[0] is Some {
        complaints[0]
    } else {
        first(complaints.drop_first())
    }
}

/// What goes wrong when layer `i` is loaded, in loading order.
pub open spec fn layer_complaints(f: GgufFileView, b: Seq<u8>, i: nat) -> Seq<Option<Seq<char>>> {
    seq![
        needed(f, b, layer_name(i, "attn_norm.weight"@)),
        needed(f, b, layer_name(i, "attn_q.weight"@)),
        welcome(f, b, layer_name(i, "attn_q.bias"@)),
        needed(f, b, layer_name(i, "attn_k.weight"@)),
        welcome(f, b, layer_name(i, "attn_k.bias"@)),
        needed(f, b, layer_name(i, "attn_v.weight"@)),
        welcome(f, b, layer_name(i, "attn_v.bias"@)),
        needed(f, b, layer_name(i, "attn_output.weight"@)),
        needed(f, b, layer_name(i, "ffn_norm.weight"@)),
        needed(f, b, layer_name(i, "ffn_gate.weight"@)),
        needed(f, b, layer_name(i, "ffn_up.weight"@)),
        needed(f, b, layer_name(i, "ffn_down.weight"@)),
    ]
}

/// `l` holds the weights of layer `i`.
pub open spec fn is_layer(f: GgufFileView, b: Seq<u8>, i: nat, l: LayerWeights) -> bool {
    &&& crate::dequant::is_read(f, b, layer_name(i, "attn_norm.weight"@), l.attn_norm)
    &&& crate::dequant::is_read(f, b, layer_name(i, "attn_q.weight"@), l.wq)
    &&& is_found(f, b, layer_name(i, "attn_q.bias"@), l.bq)
    &&& crate::dequant::is_read(f, b, layer_name(i, "attn_k.weight"@), l.wk)
    &&& is_found(f, b, layer_name(i, "attn_k.bias"@), l.bk)
    &&& crate::dequant::is_read(f, b, layer_name(i, "attn_v.weight"@), l.wv)
    &&& is_found(f, b, layer_name(i, "attn_v.bias"@), l.bv)
    &&& crate::dequant::is_read(f, b, layer_name(i, "attn_output.weight"@), l.wo)
    &&& crate::dequant::is_read(f, b, layer_name(i, "ffn_norm.weight"@), l.ffn_norm)
    &&& crate::dequant::is_read(f, b, layer_name(i, "ffn_gate.weight"@), l.w_gate)
    &&& crate::dequant::is_read(f, b, layer_name(i, "ffn_up.weight"@), l.w_up)
    &&& crate::dequant::is_read(f, b, layer_name(i, "ffn_down.weight"@), l.w_down)
}

/// What goes wrong when the layers from `i` to `n` are loaded.
pub open spec fn layers_complaint(f: GgufFileView, b: Seq<u8>, i: nat, n: nat) -> Option<Seq<char>>
    decreases n - i,
{
    if i >= n {
        None
    } else {
        match first(layer_complaints(f, b, i)) {
            Some(e) => Some(e),
            None => layers_complaint(f, b, i + 1, n),
        }
    }
}

/// What goes wrong when a model is loaded: the first thing in loading order.
pub open spec fn load_complaint(b: Seq<u8>) -> Option<Seq<char>> {
    match crate::gguf::file_at(b) {
        Err(e) => Some(e.text()),
        Ok(f) => match config_of(f) {
            Err(e) => Some(e),
            Ok(c) => match first(
                seq![
                    needed(f, b, "token_embd.weight"@),
                    welcome(f, b, "output.weight"@),
                    needed(f, b, "output_norm.weight"@),
                ],
            ) {
                Some(e) => Some(e),
                None => layers_complaint(f, b, 0, c.n_layers as nat),
            },
        },
    }
}

/// `m` holds the model of a file.
pub open spec fn is_model(f: GgufFileView, b: Seq<u8>, m: Model) -> bool {
    &&& config_of(f) == Ok::<Config, Seq<char>>(m.config)
    &&& crate::dequant::is_read(f, b, "token_embd.weight"@, m.tok_embd)
    &&& is_found(f, b, "output.weight"@, m.output)
    &&& crate::dequant::is_read(f, b, "output_norm.weight"@, m.output_norm)
    &&& m.layers@.len() == m.config.n_layers
    &&& forall|i: int| 0 <= i < m.layers@.len() ==> is_layer(f, b, i as nat, #[trigger] m.layers@[i])
}

fn load_needed(gguf: &GgufFile, buf: &[u8], name: &str) -> (r: Result<Vec<u32>, String>)
    ensures
        match needed(gguf@, buf@, name@) {
            Some(e) => r matches Err(m) && m@ == e,
            None => r matches Ok(w) && crate::dequant::is_read(gguf@, buf@, name@, w),
        },
{
    match gguf.tensor_data_f32(buf, name) {
        Ok(w) => Ok(w),
        Err(e) => {
            let mut msg = joined(name, ": ");
            msg.push_str(e.message().as_str());
            Err(msg)
        },
    }
}

fn load_welcome(gguf: &GgufFile, buf: &[u8], name: &str) -> (r: Result<Option<Vec<u32>>, String>)
    ensures
        match welcome(gguf@, buf@, name@) {
            Some(e) => r matches Err(m) && m@ == e,
            None => r matches Ok(w) && is_found(gguf@, buf@, name@, w),
        },
{
    match gguf.tensor(name) {
        Err(_) => Ok(None),
        Ok(_) => match load_needed(gguf, buf, name) {
            Ok(w) => Ok(Some(w)),
            Err(e) => Err(e),
        },
    }
}

fn name_in_layer(i: usize, part: &str) -> (r: String)
    ensures
        r@ == layer_name(i as nat, part@),
{
    let mut out = "blk.".to_owned();
    push_decimal(&mut out, i as u64);
    out.push_str(".");
    out.push_str(part);
    out
}

fn load_layer(gguf: &GgufFile, buf: &[u8], i: usize) -> (r: Result<LayerWeights, String>)
    ensures
        match first(layer_complaints(gguf@, buf@, i as nat)) {
            Some(e) => r matches Err(m) && m@ == e,
            None => r matches Ok(l) && is_layer(gguf@, buf@, i as nat, l),
        },
{
    proof {
        reveal_with_fuel(first, 13);
    }
    let attn_norm = load_needed(gguf, buf, name_in_layer(i, "attn_norm.weight").as_str())?;
    let wq = load_needed(gguf, buf, name_in_layer(i, "attn_q.weight").as_str())?;
    let bq = load_welcome(gguf, buf, name_in_layer(i, "attn_q.bias").as_str())?;
    let wk = load_needed(gguf, buf, name_in_layer(i, "attn_k.weight").as_str())?;
    let bk = load_welcome(gguf, buf, name_in_layer(i, "attn_k.bias").as_str())?;
    let wv = load_needed(gguf, buf, name_in_layer(i, "attn_v.weight").as_str())?;
    let bv = load_welcome(gguf, buf, name_in_layer(i, "attn_v.bias").as_str())?;
    let wo = load_needed(gguf, buf, name_in_layer(i, "attn_output.weight").as_str())?;
    let ffn_norm = load_needed(gguf, buf, name_in_layer(i, "ffn_norm.weight").as_str())?;
    let w_gate = load_needed(gguf, buf, name_in_layer(i, "ffn_gate.weight").as_str())?;
    let w_up = load_needed(gguf, buf, name_in_layer(i, "ffn_up.weight").as_str())?;
    let w_down = load_needed(gguf, buf, name_in_layer(i, "ffn_down.weight").as_str())?;
    Ok(
        LayerWeights {
            attn_norm,
            wq,
            bq,
            wk,
            bk,
            wv,
            bv,
            wo,
            ffn_norm,
            w_gate,
            w_up,
            w_down,
        },
    )
}

impl Model {
    /// Loads the model of a file, given its content.
    pub fn load(buf: &[u8]) -> (r: Result<Self, String>)
        ensures
            match load_complaint(buf@) {
                Some(e) => r matches Err(m) && m@ == e,
                None => r matches Ok(m) && crate::gguf::file_at(buf@) matches Ok(f) && is_model(
                    f,
                    buf@,
                    m,
                ),
            },
            r matches Ok(m) ==> (crate::gguf::file_at(buf@) matches Ok(f) ==> {
                &&& m.layers@.len() == m.config.n_layers
                &&& forall|i: int|
                    0 <= i < m.layers@.len() ==> crate::model_laws::holds_its_tensors(
                        f,
                        buf@,
                        "blk."@ + crate::text::decimal(i as nat) + "."@,
                        #[trigger] m.layers@[i],
                    )
            }),
    {
        let gguf = match GgufFile::open(buf) {
            Ok(f) => f,
            Err(e) => {
                return Err(e.message());
            },
        };
        let config = Config::from_gguf(&gguf)?;
        let ghost f = gguf@;
        proof {
            reveal_with_fuel(first, 4);
        }
        let tok_embd = load_needed(&gguf, buf, "token_embd.weight")?;
        let output = load_welcome(&gguf, buf, "output.weight")?;
        let output_norm = load_needed(&gguf, buf, "output_norm.weight")?;
        let mut layers: Vec<LayerWeights> = Vec::new();
        let mut i: usize = 0;
        while i < config.n_layers
            invariant
                i <= config.n_layers,
                f == gguf@,
                layers@.len() == i,
                forall|j: int|
                    0 <= j < i ==> is_layer(f, buf@, j as nat, #[trigger] layers@[j]),
                layers_complaint(f, buf@, 0, config.n_layers as nat) == layers_complaint(
                    f,
                    buf@,
                    i as nat,
                    config.n_layers as nat,
                ),
                load_complaint(buf@) == layers_complaint(f, buf@, 0, config.n_layers as nat),
            decreases config.n_layers - i,
        {
            let l = load_layer(&gguf, buf, i)?;
            layers.push(l);
            i += 1;
        }
        proof {
            assert forall|j: int| 0 <= j < layers@.len() implies crate::model_laws::holds_its_tensors(
                f,
                buf@,
                "blk."@ + crate::text::decimal(j as nat) + "."@,
                #[trigger] layers@[j],
            ) by {
                crate::model_laws::layers_hold_their_tensors(f, buf@, j as nat, layers@[j]);
            }
        }
        Ok(Model { config, tok_embd, output, output_norm, layers })
    }
}

// ── buffers of a forward pass ──

impl Config {
    /// Numbers per position in the keys and in the values.
    pub open spec fn kv_width(self) -> nat {
        (self.n_kv_heads * self.head_dim) as nat
    }

    /// Heads of queries per head of keys and values.
    pub open spec fn group(self) -> nat {
        self.n_heads as nat / self.n_kv_heads as nat
    }

    /// The heads fit the embedding and share keys and values evenly.
    pub open spec fn sound(self) -> bool {
        &&& 0 < self.n_kv_heads <= self.n_heads
        &&& self.n_heads as nat % self.n_kv_heads as nat == 0
        &&& self.n_heads * self.head_dim <= self.n_embd
    }

    /// The buffers of a pass over `seq` positions can be addressed.
    pub open spec fn fits(self, seq: nat) -> bool {
        &&& seq * self.n_embd <= usize::MAX
        &&& seq * self.n_ff <= usize::MAX
        &&& self.vocab_size * self.n_embd <= usize::MAX
    }
}

/// Where everything lies in the buffers of a forward pass. A buffer holds a row per
/// position; a row of queries holds the heads one after the other, a row of keys
/// or values the shared heads.
#[derive(Debug, Clone, Copy, PartialEq, Eq)]
pub struct Layout {
    pub config: Config,
    /// Number of positions.
    pub seq: usize,
}

impl Layout {
    /// The dimensions allow a pass.
    pub open spec fn wf(self) -> bool {
        self.config.sound() && self.config.fits(self.seq as nat)
    }

    /// Start of the row of a token in the embedding and in the output head.
    pub open spec fn row(self, token: nat) -> nat {
        token * self.config.n_embd as nat
    }

    /// Start of query head `h` at position `s`.
    pub open spec fn query(self, s: nat, h: nat) -> nat {
        s * self.config.n_embd as nat + h * self.config.head_dim as nat
    }

    /// Start of the head of keys, or of values, that query head `h` reads at
    /// position `t`.
    pub open spec fn key(self, t: nat, h: nat) -> nat {
        t * self.config.kv_width() + (h / self.config.group()) * self.config.head_dim as nat
    }

    /// The layout of a pass over `seq` positions, if the dimensions allow one.
    pub fn new(config: &Config, seq: usize) -> (r: Option<Self>)
        ensures
            match r {
                Some(l) => l.config == *config && l.seq == seq && l.wf(),
                None => !config.sound() || !config.fits(seq as nat),
            },
    {
        if config.n_kv_heads == 0 || config.n_heads < config.n_kv_heads {
            return None;
        }
        if config.n_heads % config.n_kv_heads != 0 {
            return None;
        }
        match config.n_heads.checked_mul(config.head_dim) {
            Some(n) if n <= config.n_embd => {},
            _ => {
                return None;
            },
        }
        if seq.checked_mul(config.n_embd).is_none() || seq.checked_mul(config.n_ff).is_none() {
            return None;
        }
        if config.vocab_size.checked_mul(config.n_embd).is_none() {
            return None;
        }
        Some(Layout { config: *config, seq })
    }

    /// Numbers per position in the keys and in the values.
    pub fn kv_dim(&self) -> (r: usize)
        requires
            self.wf(),
        ensures
            r == self.config.kv_width(),
            r <= self.config.n_embd,
    {
        proof {
            self.kv_is_narrow();
        }
        self.config.n_kv_heads * self.config.head_dim
    }

    proof fn kv_is_narrow(&self)
        requires
            self.wf(),
        ensures
            self.config.kv_width() <= self.config.n_embd,
            self.seq * self.config.kv_width() <= usize::MAX,
    {
        let c = self.config;
        assert(c.n_kv_heads * c.head_dim <= c.n_heads * c.head_dim) by (nonlinear_arith)
            requires
                c.n_kv_heads <= c.n_heads,
        ;
        let w = c.kv_width();
        let n = c.n_embd as nat;
        let seq = self.seq as nat;
        assert(seq * w <= seq * n) by (nonlinear_arith)
            requires
                w <= n,
        ;
    }

    /// The head of keys and values that query head `h` reads.
    pub fn kv_head(&self, h: usize) -> (r: usize)
        requires
            self.wf(),
            h < self.config.n_heads,
        ensures
            r == h as nat / self.config.group(),
            r < self.config.n_kv_heads,
    {
        proof {
            shared_head(self.config, h as nat);
        }
        let group: usize = self.config.n_heads / self.config.n_kv_heads;
        h / group
    }

    /// Start of the row of a token.
    pub fn row_at(&self, token: usize) -> (r: usize)
        requires
            self.wf(),
            token < self.config.vocab_size,
        ensures
            r == self.row(token as nat),
            r + self.config.n_embd <= self.config.vocab_size * self.config.n_embd,
    {
        let n = self.config.n_embd;
        let v = self.config.vocab_size;
        assert(token * n + n <= v * n && token * n >= 0) by (nonlinear_arith)
            requires
                token + 1 <= v,
        ;
        token * n
    }

    /// Start of query head `h` at position `s`.
    pub fn query_at(&self, s: usize, h: usize) -> (r: usize)
        requires
            self.wf(),
            s < self.seq,
            h < self.config.n_heads,
        ensures
            r == self.query(s as nat, h as nat),
            s * self.config.n_embd <= r,
            r + self.config.head_dim <= (s + 1) * self.config.n_embd <= self.seq
                * self.config.n_embd,
    {
        let n = self.config.n_embd;
        let d = self.config.head_dim;
        let k = self.config.n_heads;
        let seq = self.seq;
        assert(h * d + d <= k * d && h * d >= 0) by (nonlinear_arith)
            requires
                h + 1 <= k,
        ;
        assert(s * n + n == (s + 1) * n && (s + 1) * n <= seq * n && s * n >= 0)
            by (nonlinear_arith)
            requires
                s + 1 <= seq,
        ;
        s * n + h * d
    }

    /// Start of the head of keys, or of values, that query head `h` reads at
    /// position `t`.
    pub fn key_at(&self, t: usize, h: usize) -> (r: usize)
        requires
            self.wf(),
            t < self.seq,
            h < self.config.n_heads,
        ensures
            r == self.key(t as nat, h as nat),
            t * self.config.kv_width() <= r,
            r + self.config.head_dim <= (t + 1) * self.config.kv_width() <= self.seq
                * self.config.kv_width(),
    {
        let w = self.kv_dim();
        let k = self.kv_head(h);
        let d = self.config.head_dim;
        let n = self.config.n_kv_heads;
        let seq = self.seq;
        proof {
            self.kv_is_narrow();
        }
        assert(k * d + d <= n * d && k * d >= 0) by (nonlinear_arith)
            requires
                k + 1 <= n,
        ;
        assert(t * w + w == (t + 1) * w && (t + 1) * w <= seq * w && t * w >= 0)
            by (nonlinear_arith)
            requires
                t + 1 <= seq,
        ;
        t * w + k * d
    }

    /// The two numbers that the rotary embedding turns together: pair `i` of head
    /// `h` at position `s`, in a buffer with `heads` heads per row. The halves of a
    /// head are paired.
    pub fn rope_at(&self, heads: usize, s: usize, h: usize, i: usize) -> (r: (usize, usize))
        requires
            self.wf(),
            heads <= self.config.n_heads,
            s < self.seq,
            h < heads,
            i < self.config.head_dim / 2,
        ensures
            (r.0 as nat, r.1 as nat) == rope_pair(
                self.config.head_dim as nat,
                heads as nat,
                s as nat,
                h as nat,
                i as nat,
            ),
            r.0 == (s * heads + h) * self.config.head_dim + i,
            r.1 - r.0 == self.config.head_dim / 2,
            r.0 < r.1 < self.seq * (heads * self.config.head_dim),
    {
        let d = self.config.head_dim;
        let n = self.config.n_embd;
        let k = self.config.n_heads;
        let seq = self.seq;
        let half = d / 2;
        assert(0 <= s * heads && s * heads + h + 1 <= seq * heads) by (nonlinear_arith)
            requires
                s + 1 <= seq,
                h + 1 <= heads,
        ;
        assert(seq * heads <= usize::MAX && (s * heads + h) * d + d <= seq * (heads * d) && (s
            * heads + h) * d >= 0 && seq * (heads * d) <= seq * n) by (nonlinear_arith)
            requires
                0 <= s * heads,
                s * heads + h + 1 <= seq * heads,
                heads <= k,
                k * d <= n,
                seq * n <= usize::MAX,
                d >= 1,
        {
            assert((s * heads + h + 1) * d <= (seq * heads) * d);
            assert((seq * heads) * d == seq * (heads * d));
            assert(heads * d <= k * d);
            assert(seq * (heads * d) <= seq * n);
            assert(seq * heads <= (seq * heads) * d);
        }
        let base: usize = (s * heads + h) * d;
        (base + i, base + i + half)
    }
}

proof fn shared_head(c: Config, h: nat)
    requires
        c.sound(),
        h < c.n_heads,
    ensures
        c.group() > 0,
        h / c.group() < c.n_kv_heads,
        c.group() * c.n_kv_heads == c.n_heads,
{
    let n = c.n_heads as int;
    let m = c.n_kv_heads as int;
    let g = c.group() as int;
    vstd::arithmetic::div_mod::lemma_fundamental_div_mod(n, m);
    assert(g > 0) by (nonlinear_arith)
        requires
            n == m * g,
            n > 0,
            m > 0,
    ;
    vstd::arithmetic::div_mod::lemma_fundamental_div_mod(h as int, g);
    let q = h as int / g;
    assert(q < m) by (nonlinear_arith)
        requires
            h < n,
            n == m * g,
            g * q <= h,
            g > 0,
    ;
    assert(g * m == m * g) by (nonlinear_arith);
}

/// The positions of a rotary pair.
pub open spec fn rope_pair(head_dim: nat, heads: nat, s: nat, h: nat, i: nat) -> (nat, nat) {
    let base = (s * heads + h) * head_dim;
    (base + i, base + i + head_dim / 2)
}

// ── laws ──

/// Each head of keys and values serves a block of as many query heads.
pub proof fn shared_heads_serve_equal_blocks(c: Config, h: nat, k: nat)
    requires
        c.sound(),
        h < c.n_heads,
    ensures
        h / c.group() == k <==> k * c.group() <= h < (k + 1) * c.group(),
        c.group() * c.n_kv_heads == c.n_heads,
{
    shared_head(c, h);
    let g = c.group() as int;
    let q = h as int / g;
    vstd::arithmetic::div_mod::lemma_fundamental_div_mod(h as int, g);
    assert(q * g <= h < (q + 1) * g) by (nonlinear_arith)
        requires
            h == g * q + h as int % g,
            0 <= h as int % g < g,
    ;
    if k != q {
        assert(!(k * g <= h < (k + 1) * g)) by (nonlinear_arith)
            requires
                q * g <= h < (q + 1) * g,
                k != q,
                g > 0,
                k >= 0,
                q >= 0,
        ;
    }
}

/// Different heads of queries never overlap.
pub proof fn query_heads_do_not_overlap(l: Layout, s: nat, h: nat, t: nat, k: nat)
    requires
        l.wf(),
        h < l.config.n_heads,
        k < l.config.n_heads,
        s < t || s == t && h < k,
    ensures
        l.query(s, h) + l.config.head_dim <= l.query(t, k),
{
    let n = l.config.n_embd as int;
    let d = l.config.head_dim as int;
    let m = l.config.n_heads as int;
    if s == t {
        assert(h * d + d <= k * d) by (nonlinear_arith)
            requires
                h + 1 <= k,
                d >= 0,
        ;
    } else {
        assert(h * d + d <= m * d) by (nonlinear_arith)
            requires
                h + 1 <= m,
                d >= 0,
        ;
        assert(s * n + n <= t * n) by (nonlinear_arith)
            requires
                s + 1 <= t,
                n >= 0,
        ;
        assert(k * d >= 0) by (nonlinear_arith)
            requires
                k >= 0,
                d >= 0,
        ;
    }
}

/// The rotary embedding turns no number twice.
pub proof fn rope_pairs_are_disjoint(
    head_dim: nat,
    heads: nat,
    s: nat,
    h: nat,
    i: nat,
    t: nat,
    k: nat,
    j: nat,
)
    requires
        h < heads,
        k < heads,
        i < head_dim / 2,
        j < head_dim / 2,
        (s, h, i) != (t, k, j),
    ensures
        rope_pair(head_dim, heads, s, h, i).0 != rope_pair(head_dim, heads, t, k, j).0,
        rope_pair(head_dim, heads, s, h, i).1 != rope_pair(head_dim, heads, t, k, j).1,
        rope_pair(head_dim, heads, s, h, i).0 != rope_pair(head_dim, heads, t, k, j).1,
        rope_pair(head_dim, heads, s, h, i).1 != rope_pair(head_dim, heads, t, k, j).0,
{
    let d = head_dim as int;
    let a = s * heads + h;
    let b = t * heads + k;
    if s < t {
        assert(a < b) by (nonlinear_arith)
            requires
                a == s * heads + h,
                b == t * heads + k,
                s + 1 <= t,
                h < heads,
        ;
    } else if t < s {
        assert(b < a) by (nonlinear_arith)
            requires
                a == s * heads + h,
                b == t * heads + k,
                t + 1 <= s,
                k < heads,
        ;
    }
    if a < b {
        assert(a * d + d <= b * d) by (nonlinear_arith)
            requires
                a + 1 <= b,
                d >= 0,
        ;
    } else if b < a {
        assert(b * d + d <= a * d) by (nonlinear_arith)
            requires
                b + 1 <= a,
                d >= 0,
        ;
    }
}

} // verus!
