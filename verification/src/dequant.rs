//! Unpacking of quantized tensors: from bytes to weights, as f32 patterns.

use vstd::prelude::*;

use crate::exact::{Exact, Number};
use crate::ggml::GgmlType;
use crate::gguf::{GgufFile, GgufFileView, TensorInfo, TensorInfoView};
use crate::ieee::{bf16_to_f32, fp16_to_f32};
use crate::value::{GgufError, GgufErrorView};

verus! {

/// The two bytes at `i`, least significant first.
pub open spec fn half_at(b: Seq<u8>, i: int) -> u16 {
    (b[i] + 0x100 * b[i + 1]) as u16
}

fn half(b: &[u8], i: usize) -> (r: u16)
    requires
        i + 1 < b@.len(),
    ensures
        r == half_at(b@, i as int),
{
    b[i] as u16 + 0x100 * (b[i + 1] as u16)
}

/// The signed number with the same bit pattern.
pub open spec fn signed(b: u8) -> int {
    if b < 0x80 {
        b as int
    } else {
        b - 0x100
    }
}

fn signed_byte(b: u8) -> (r: i8)
    ensures
        r == signed(b),
{
    assert(b as i8 == (if b < 0x80 { b as int } else { b - 0x100 })) by (bit_vector);
    b as i8
}

// ── Q8_0 ──

/// Weight `v` of a Q8_0 block, `[d: fp16][q: 32 × i8]`: `d * q`.
pub open spec fn weight_q8_0(raw: Seq<u8>, v: int) -> Number {
    Number::of_half(half_at(raw, 0)).times(signed(raw[2 + v]))
}

/// Unpacks a Q8_0 block (34 bytes, 32 weights) to f32 patterns.
pub fn dequant_q8_0(block: &[u8]) -> (r: Vec<u32>)
    requires
        block@.len() >= 34,
    ensures
        r@.len() == 32,
        forall|v: int| 0 <= v < 32 ==> #[trigger] r@[v] == weight_q8_0(block@, v).pattern(),
{
    let d = Exact::of_half(half(block, 0));
    let mut out: Vec<u32> = Vec::new();
    let mut v: usize = 0;
    while v < 32
        invariant
            v <= 32,
            block@.len() >= 34,
            d@ == Number::of_half(half_at(block@, 0)),
            d.below(0x100_0000_0000),
            out@.len() == v,
            forall|k: int| 0 <= k < v ==> #[trigger] out@[k] == weight_q8_0(block@, k).pattern(),
        decreases 32 - v,
    {
        let w = d.times(signed_byte(block[2 + v]) as i16);
        assert(w.below(0x100_0000_0000 * 0x80));
        out.push(w.pattern());
        v += 1;
    }
    out
}

// ── Q5_0 ──

/// Bit `k` of a byte.
pub open spec fn bit(b: u8, k: int) -> int {
    ((b >> (k as u8)) & 1) as int
}

/// Four bits out of a list of bytes: the low halves of the bytes come first,
/// then the high halves.
pub open spec fn nibble(bytes: Seq<u8>, v: int) -> int {
    if v < bytes.len() {
        bytes[v] as int % 16
    } else {
        bytes[v - bytes.len()] as int / 16
    }
}

/// Weight `v` of a Q5_0 block, `[d: fp16][high bits: 4][low bits: 16]`: `d * q` with a
/// five-bit number `q` centred on zero.
pub open spec fn weight_q5_0(raw: Seq<u8>, v: int) -> Number {
    Number::of_half(half_at(raw, 0)).times(
        nibble(raw.subrange(6, 22), v) + 16 * bit(raw[2 + v / 8], v % 8) - 16,
    )
}

/// Unpacks a Q5_0 block (22 bytes, 32 weights) to f32 patterns.
pub fn dequant_q5_0(block: &[u8]) -> (r: Vec<u32>)
    requires
        block@.len() >= 22,
    ensures
        r@.len() == 32,
        forall|v: int| 0 <= v < 32 ==> #[trigger] r@[v] == weight_q5_0(block@, v).pattern(),
{
    let d = Exact::of_half(half(block, 0));
    let mut out: Vec<u32> = Vec::new();
    let mut v: usize = 0;
    while v < 32
        invariant
            v <= 32,
            block@.len() >= 22,
            d@ == Number::of_half(half_at(block@, 0)),
            d.below(0x100_0000_0000),
            out@.len() == v,
            forall|k: int| 0 <= k < v ==> #[trigger] out@[k] == weight_q5_0(block@, k).pattern(),
        decreases 32 - v,
    {
        let low: u8 = if v < 16 {
            block[6 + v] % 16
        } else {
            block[6 + v - 16] / 16
        };
        let byte: u8 = block[2 + v / 8];
        let shift: u8 = (v % 8) as u8;
        let high: u8 = (byte >> shift) & 1;
        assert(high <= 1) by (bit_vector)
            requires
                high == (byte >> shift) & 1,
        ;
        let w = d.times((low + 16 * high) as i16 - 16);
        assert(w.below(0x100_0000_0000 * 0x10));
        out.push(w.pattern());
        v += 1;
    }
    out
}

// ── Q4_K ──

/// Scale and minimum of sub-block `j`: eight pairs of six-bit numbers packed in
/// twelve bytes.
pub open spec fn scale_min(scales: Seq<u8>, j: int) -> (int, int) {
    if j < 4 {
        (scales[j] as int % 64, scales[j + 4] as int % 64)
    } else {
        (
            scales[j + 4] as int % 16 + 16 * (scales[j - 4] as int / 64),
            scales[j + 4] as int / 16 + 16 * (scales[j] as int / 64),
        )
    }
}

/// Scale and minimum of sub-block `j` of a Q4_K block.
pub fn get_scale_min_k4(j: usize, scales: &[u8]) -> (r: (u8, u8))
    requires
        j < 8,
        scales@.len() >= 12,
    ensures
        r.0 == scale_min(scales@, j as int).0,
        r.1 == scale_min(scales@, j as int).1,
        r.0 < 64,
        r.1 < 64,
{
    if j < 4 {
        (scales[j] % 64, scales[j + 4] % 64)
    } else {
        (
            scales[j + 4] % 16 + 16 * (scales[j - 4] / 64),
            scales[j + 4] / 16 + 16 * (scales[j] / 64),
        )
    }
}

/// Weight `v` of a Q4_K block, `[d: fp16][dmin: fp16][scales: 12][q: 128]`:
/// `(d * scale) * q - dmin * min`. Each run of 32 bytes of `q` holds 64 weights, each
/// run of 32 weights has a scale and a minimum.
pub open spec fn weight_q4_k(raw: Seq<u8>, v: int) -> Number {
    let (scale, min) = scale_min(raw.subrange(4, 16), v / 32);
    let q = nibble(raw.subrange(16 + 32 * (v / 64), 48 + 32 * (v / 64)), v % 64);
    Number::of_half(half_at(raw, 0)).times(scale).times(q).minus(
        Number::of_half(half_at(raw, 2)).times(min),
    )
}

/// Unpacks a Q4_K block (144 bytes, 256 weights) to f32 patterns.
pub fn dequant_q4_k(block: &[u8]) -> (r: Vec<u32>)
    requires
        block@.len() >= 144,
    ensures
        r@.len() == 256,
        forall|v: int| 0 <= v < 256 ==> #[trigger] r@[v] == weight_q4_k(block@, v).pattern(),
{
    let d = Exact::of_half(half(block, 0));
    let dmin = Exact::of_half(half(block, 2));
    let scales = vstd::slice::slice_subrange(block, 4, 16);
    let mut out: Vec<u32> = Vec::new();
    let mut v: usize = 0;
    while v < 256
        invariant
            v <= 256,
            block@.len() >= 144,
            scales@ == block@.subrange(4, 16),
            d@ == Number::of_half(half_at(block@, 0)),
            dmin@ == Number::of_half(half_at(block@, 2)),
            d.below(0x100_0000_0000),
            dmin.below(0x100_0000_0000),
            out@.len() == v,
            forall|k: int| 0 <= k < v ==> #[trigger] out@[k] == weight_q4_k(block@, k).pattern(),
        decreases 256 - v,
    {
        let (scale, min) = get_scale_min_k4(v / 32, scales);
        let run: usize = 16 + 32 * (v / 64);
        let l: usize = v % 64;
        let q: u8 = if l < 32 {
            block[run + l] % 16
        } else {
            block[run + l - 32] / 16
        };
        let a = d.times(scale as i16);
        assert(a.below(0x100_0000_0000 * 0x40));
        let b = a.times(q as i16);
        assert(b.below((0x100_0000_0000 * 0x40) * 0x10));
        let c = dmin.times(min as i16);
        assert(c.below(0x100_0000_0000 * 0x40));
        out.push(b.minus(c).pattern());
        v += 1;
    }
    out
}

// ── Q6_K ──

/// Two bits of a byte, starting at bit `k`.
pub open spec fn bit_pair(b: u8, k: int) -> int {
    ((b >> (k as u8)) & 3) as int
}

/// The positive zero.
pub open spec fn zero() -> Number {
    Number::Finite { negative: false, units: 0 }
}

/// Weight `v` of a Q6_K block,
/// `[low bits: 128][high bits: 64][scales: 16 × i8][d: fp16]`: `(d * scale) * q` with a
/// six-bit number `q` centred on zero. Each half of the block holds 128 weights, from
/// 64 low bytes and 32 high bytes; each run of 16 weights has a scale. With a scale
/// `d` that is not finite all the weights are zero.
pub open spec fn weight_q6_k(raw: Seq<u8>, v: int) -> Number {
    let d = Number::of_half(half_at(raw, 208));
    let q = nibble(raw.subrange(64 * (v / 128), 64 + 64 * (v / 128)), v % 128) + 16 * bit_pair(
        raw[128 + 32 * (v / 128) + v % 32],
        2 * (v % 128 / 32),
    ) - 32;
    if d is Finite {
        d.times(signed(raw[192 + v / 16])).times(q)
    } else {
        zero()
    }
}

/// Unpacks a Q6_K block (210 bytes, 256 weights) to f32 patterns.
pub fn dequant_q6_k(block: &[u8]) -> (r: Vec<u32>)
    requires
        block@.len() >= 210,
    ensures
        r@.len() == 256,
        forall|v: int| 0 <= v < 256 ==> #[trigger] r@[v] == weight_q6_k(block@, v).pattern(),
{
    let d = Exact::of_half(half(block, 208));
    let finite = match d {
        Exact::Finite { .. } => true,
        _ => false,
    };
    let mut out: Vec<u32> = Vec::new();
    let mut v: usize = 0;
    while v < 256
        invariant
            v <= 256,
            block@.len() >= 210,
            d@ == Number::of_half(half_at(block@, 208)),
            d.below(0x100_0000_0000),
            finite == (d is Finite),
            out@.len() == v,
            forall|k: int| 0 <= k < v ==> #[trigger] out@[k] == weight_q6_k(block@, k).pattern(),
        decreases 256 - v,
    {
        let n: usize = v / 128;
        let w: usize = v % 128;
        let low: u8 = if w < 64 {
            block[64 * n + w] % 16
        } else {
            block[64 * n + w - 64] / 16
        };
        let byte: u8 = block[128 + 32 * n + v % 32];
        let shift: u8 = (2 * (w / 32)) as u8;
        let high: u8 = (byte >> shift) & 3;
        assert(high <= 3) by (bit_vector)
            requires
                high == (byte >> shift) & 3,
        ;
        if finite {
            let a = d.times(signed_byte(block[192 + v / 16]) as i16);
            assert(a.below(0x100_0000_0000 * 0x80));
            let b = a.times((low + 16 * high) as i16 - 32);
            assert(b.below((0x100_0000_0000 * 0x80) * 0x20));
            out.push(b.pattern());
        } else {
            let z = Exact::Finite { negative: false, units: 0 };
            assert(z@ == zero());
            out.push(z.pattern());
        }
        v += 1;
    }
    out
}

// ── whole tensors ──

/// The number in the four bytes at `i`.
pub open spec fn word_at(b: Seq<u8>, i: int) -> u32 {
    (b[i] + 0x100 * b[i + 1] + 0x1_0000 * b[i + 2] + 0x100_0000 * b[i + 3]) as u32
}

/// How many blocks of `bytes` bytes and `elems` weights both the data and the
/// tensor have room for. The weights past the last block are zero.
pub open spec fn block_count(len: nat, n: nat, elems: nat, bytes: nat) -> nat {
    if len / bytes <= n / elems {
        len / bytes
    } else {
        n / elems
    }
}

/// Block number `k` of the data.
pub open spec fn block_of(raw: Seq<u8>, k: int, bytes: int) -> Seq<u8> {
    raw.subrange(k * bytes, k * bytes + bytes)
}

/// Weights and bytes per block of the quantized types that can be unpacked.
pub open spec fn packing(t: GgmlType) -> Option<(nat, nat)> {
    match t {
        GgmlType::Q5_0 => Some((32, 22)),
        GgmlType::Q8_0 => Some((32, 34)),
        GgmlType::Q4K => Some((256, 144)),
        GgmlType::Q6K => Some((256, 210)),
        _ => None,
    }
}

/// Weight `v` of a block of a quantized type.
pub open spec fn block_weight(t: GgmlType, block: Seq<u8>, v: int) -> Number {
    match t {
        GgmlType::Q5_0 => weight_q5_0(block, v),
        GgmlType::Q8_0 => weight_q8_0(block, v),
        GgmlType::Q4K => weight_q4_k(block, v),
        _ => weight_q6_k(block, v),
    }
}

/// The f32 pattern of weight `i` of `n` that are packed in `raw` as type `t`.
pub open spec fn weight_at(t: GgmlType, n: nat, raw: Seq<u8>, i: int) -> nat {
    match packing(t) {
        Some((elems, bytes)) => if i < block_count(raw.len(), n, elems, bytes) * elems {
            block_weight(
                t,
                block_of(raw, i / elems as int, bytes as int),
                i % elems as int,
            ).pattern()
        } else {
            0
        },
        None => match t {
            GgmlType::F32 => word_at(raw, 4 * i) as nat,
            GgmlType::F16 => crate::ieee::fp16_widened(half_at(raw, 2 * i)),
            _ => half_at(raw, 2 * i) as nat * 0x1_0000,
        },
    }
}

/// `w` holds the f32 patterns of the `n` weights packed in `raw` as type `t`.
pub open spec fn holds(w: Seq<u32>, t: GgmlType, n: nat, raw: Seq<u8>) -> bool {
    w.len() == n && forall|i: int| 0 <= i < n ==> #[trigger] w[i] == weight_at(t, n, raw, i)
}

/// Bytes per weight of the types that are stored one by one.
pub open spec fn plain_width(t: GgmlType) -> Option<nat> {
    match t {
        GgmlType::F32 => Some(4),
        GgmlType::F16 | GgmlType::Bf16 => Some(2),
        _ => None,
    }
}

/// The types that can be unpacked.
pub open spec fn supported(t: GgmlType) -> bool {
    plain_width(t) is Some || packing(t) is Some
}

fn plain(t: GgmlType, n: usize, raw: &[u8]) -> (r: Vec<u32>)
    requires
        plain_width(t) matches Some(w) && n * w <= raw@.len(),
    ensures
        holds(r@, t, n as nat, raw@),
{
    let mut out: Vec<u32> = Vec::new();
    let mut i: usize = 0;
    assert(raw@.len() == raw.len());
    while i < n
        invariant
            i <= n,
            raw@.len() <= usize::MAX,
            plain_width(t) matches Some(w) && n * w <= raw@.len(),
            out@.len() == i,
            forall|k: int| 0 <= k < i ==> #[trigger] out@[k] == weight_at(t, n as nat, raw@, k),
        decreases n - i,
    {
        let x: u32 = match t {
            GgmlType::F32 => {
                let p: usize = 4 * i;
                raw[p] as u32 + 0x100 * (raw[p + 1] as u32) + 0x1_0000 * (raw[p + 2] as u32)
                    + 0x100_0000 * (raw[p + 3] as u32)
            },
            GgmlType::F16 => fp16_to_f32(half(raw, 2 * i)),
            _ => bf16_to_f32(half(raw, 2 * i)),
        };
        out.push(x);
        i += 1;
    }
    out
}

/// Start of block `k`; the whole block lies within the data.
pub proof fn block_fits(len: nat, n: nat, elems: nat, bytes: nat, k: int)
    requires
        elems > 0,
        bytes > 0,
        0 <= k < block_count(len, n, elems, bytes),
    ensures
        0 <= k * bytes,
        k * bytes + bytes <= len,
{
    vstd::arithmetic::div_mod::lemma_fundamental_div_mod(len as int, bytes as int);
    let c = len / bytes;
    assert(k * bytes + bytes <= bytes * c) by (nonlinear_arith)
        requires
            0 <= k < c,
            bytes > 0,
    ;
    assert(k * bytes >= 0) by (nonlinear_arith)
        requires
            k >= 0,
            bytes > 0,
    ;
}

fn blocks(len: usize, n: usize, elems: usize, bytes: usize) -> (r: usize)
    requires
        elems > 0,
        bytes > 0,
    ensures
        r == block_count(len as nat, n as nat, elems as nat, bytes as nat),
{
    let a: usize = len / bytes;
    let b: usize = n / elems;
    if a <= b {
        a
    } else {
        b
    }
}

fn block_at<'a>(raw: &'a [u8], k: usize, bytes: usize, Ghost(n): Ghost<nat>, Ghost(elems): Ghost<
    nat,
>) -> (r: &'a [u8])
    requires
        elems > 0,
        bytes > 0,
        k < block_count(raw@.len(), n, elems, bytes as nat),
    ensures
        r@ == block_of(raw@, k as int, bytes as int),
        r@.len() == bytes,
{
    proof {
        assert(raw@.len() == raw.len());
        block_fits(raw@.len(), n, elems, bytes as nat, k as int);
    }
    let start: usize = k * bytes;
    vstd::slice::slice_subrange(raw, start, start + bytes)
}

fn unpack_block(t: GgmlType, block: &[u8]) -> (r: Vec<u32>)
    requires
        packing(t) matches Some((elems, bytes)) && block@.len() == bytes,
    ensures
        packing(t) matches Some((elems, bytes)) && r@.len() == elems,
        forall|v: int|
            0 <= v < r@.len() ==> #[trigger] r@[v] == block_weight(t, block@, v).pattern(),
{
    match t {
        GgmlType::Q5_0 => dequant_q5_0(block),
        GgmlType::Q8_0 => dequant_q8_0(block),
        GgmlType::Q4K => dequant_q4_k(block),
        _ => dequant_q6_k(block),
    }
}

proof fn whole_blocks_fit(len: nat, n: nat, elems: nat, bytes: nat)
    requires
        elems > 0,
        bytes > 0,
    ensures
        block_count(len, n, elems, bytes) * elems <= n,
{
    vstd::arithmetic::div_mod::lemma_fundamental_div_mod(n as int, elems as int);
    let c = block_count(len, n, elems, bytes);
    let q = n / elems;
    assert(c * elems <= elems * q) by (nonlinear_arith)
        requires
            c <= q,
    ;
}

proof fn place_in_block(k: nat, elems: nat, v: int)
    requires
        0 <= v < elems,
    ensures
        (k * elems + v) / elems as int == k,
        (k * elems + v) % elems as int == v,
{
    vstd::arithmetic::div_mod::lemma_fundamental_div_mod_converse(
        k * elems + v,
        elems as int,
        k as int,
        v,
    );
}

fn packed(t: GgmlType, n: usize, raw: &[u8]) -> (r: Vec<u32>)
    requires
        packing(t) is Some,
    ensures
        holds(r@, t, n as nat, raw@),
{
    let elems: usize = match t {
        GgmlType::Q5_0 | GgmlType::Q8_0 => 32,
        _ => 256,
    };
    let bytes: usize = match t {
        GgmlType::Q5_0 => 22,
        GgmlType::Q8_0 => 34,
        GgmlType::Q4K => 144,
        _ => 210,
    };
    let count = blocks(raw.len(), n, elems, bytes);
    let mut out: Vec<u32> = Vec::new();
    let mut k: usize = 0;
    proof {
        whole_blocks_fit(raw@.len(), n as nat, elems as nat, bytes as nat);
        assert(0 * elems == 0);
    }
    while k < count
        invariant
            packing(t) == Some((elems as nat, bytes as nat)),
            elems > 0,
            bytes > 0,
            k <= count,
            count == block_count(raw@.len(), n as nat, elems as nat, bytes as nat),
            out@.len() == k * elems,
            forall|i: int|
                0 <= i < out@.len() ==> #[trigger] out@[i] == weight_at(t, n as nat, raw@, i),
        decreases count - k,
    {
        let block = block_at(raw, k, bytes, Ghost(n as nat), Ghost(elems as nat));
        let weights = unpack_block(t, block);
        let ghost before = out@;
        out.extend_from_slice(weights.as_slice());
        proof {
            assert((k + 1) * elems == k * elems + elems) by (nonlinear_arith);
            assert((k + 1) * elems <= count * elems) by (nonlinear_arith)
                requires
                    k + 1 <= count,
            ;
            assert forall|i: int| 0 <= i < out@.len() implies #[trigger] out@[i] == weight_at(
                t,
                n as nat,
                raw@,
                i,
            ) by {
                if i < before.len() {
                    assert(out@[i] == before[i]);
                } else {
                    let v = i - before.len();
                    assert(out@[i] == weights@[v]);
                    place_in_block(k as nat, elems as nat, v);
                }
            }
        }
        k += 1;
    }
    while out.len() < n
        invariant
            packing(t) == Some((elems as nat, bytes as nat)),
            count == block_count(raw@.len(), n as nat, elems as nat, bytes as nat),
            count * elems <= out@.len() <= n,
            forall|i: int|
                0 <= i < out@.len() ==> #[trigger] out@[i] == weight_at(t, n as nat, raw@, i),
        decreases n - out@.len(),
    {
        out.push(0);
    }
    out
}

/// Why the data of a tensor cannot be unpacked.
pub open spec fn unpack_error(t: TensorInfoView, raw: Seq<u8>) -> Option<GgufErrorView> {
    if !t.countable() || t.elements() * 4 > usize::MAX {
        Some(GgufErrorView::BadTensor(t.name + ": dimensioni fuori range"@))
    } else if plain_width(t.ggml_type) matches Some(w) && raw.len() < t.elements() * w {
        Some(
            GgufErrorView::Truncated {
                expected: t.elements() * plain_width(t.ggml_type)->Some_0,
                found: raw.len(),
            },
        )
    } else if !supported(t.ggml_type) {
        Some(
            GgufErrorView::BadTensor(
                "dequant per "@ + t.ggml_type.variant_name()
                    + " non ancora implementata (F0: F32/F16/BF16/Q8_0/Q4_K/Q6_K)"@,
            ),
        )
    } else {
        None
    }
}

/// Unpacks a whole tensor. The data of the types stored one by one must be
/// complete; of the others only whole blocks are taken.
pub fn dequantize(info: &TensorInfo, raw: &[u8]) -> (r: Result<Vec<u32>, GgufError>)
    ensures
        match unpack_error(info@, raw@) {
            Some(e) => r matches Err(x) && x@ == e,
            None => r matches Ok(w) && holds(w@, info.ggml_type, info@.elements(), raw@),
        },
{
    let n: usize = match info.checked_n_elements() {
        Some(n) if n <= (usize::MAX / 4) as u64 => n as usize,
        _ => {
            let mut msg = String::new();
            msg.push_str(info.name.as_str());
            msg.push_str(": dimensioni fuori range");
            assert(msg@ =~= info@.name + ": dimensioni fuori range"@);
            return Err(GgufError::BadTensor(msg));
        },
    };
    match info.ggml_type {
        GgmlType::F32 | GgmlType::F16 | GgmlType::Bf16 => {
            let width: usize = if let GgmlType::F32 = info.ggml_type {
                4
            } else {
                2
            };
            if raw.len() < n * width {
                return Err(GgufError::Truncated { expected: n * width, found: raw.len() });
            }
            Ok(plain(info.ggml_type, n, raw))
        },
        GgmlType::Q5_0 | GgmlType::Q8_0 | GgmlType::Q4K | GgmlType::Q6K => Ok(
            packed(info.ggml_type, n, raw),
        ),
        other => {
            let mut msg = String::new();
            msg.push_str("dequant per ");
            msg.push_str(other.debug_name().as_str());
            msg.push_str(" non ancora implementata (F0: F32/F16/BF16/Q8_0/Q4_K/Q6_K)");
            assert(msg@ =~= "dequant per "@ + info.ggml_type.variant_name()
                + " non ancora implementata (F0: F32/F16/BF16/Q8_0/Q4_K/Q6_K)"@);
            Err(GgufError::BadTensor(msg))
        },
    }
}

// ── tensors of a file ──

/// The packed data of a tensor, in a file with content `b`. A tensor that takes no
/// bytes has empty data wherever it is said to start.
pub open spec fn raw_at(f: GgufFileView, b: Seq<u8>, name: Seq<char>) -> Result<
    Seq<u8>,
    GgufErrorView,
> {
    match crate::gguf::find_tensor(f.tensors, name) {
        None => Err(GgufErrorView::TensorNotFound(name)),
        Some(t) => {
            let start = f.data_start + t.offset;
            if !t.sized() || start > u64::MAX {
                Err(GgufErrorView::BadTensor(name + ": dimensioni fuori range"@))
            } else if t.bytes() == 0 {
                Ok(Seq::empty())
            } else if start + t.bytes() > b.len() {
                Err(
                    GgufErrorView::Truncated {
                        expected: (t.bytes() as u64) as usize as nat,
                        found: if start <= b.len() {
                            (b.len() - start) as nat
                        } else {
                            0
                        },
                    },
                )
            } else {
                Ok(b.subrange(start, start + t.bytes()))
            }
        },
    }
}

/// Why a tensor cannot be read and unpacked.
pub open spec fn read_error(f: GgufFileView, b: Seq<u8>, name: Seq<char>) -> Option<GgufErrorView> {
    match raw_at(f, b, name) {
        Err(e) => Some(e),
        Ok(raw) => unpack_error(crate::gguf::find_tensor(f.tensors, name)->Some_0, raw),
    }
}

/// `w` holds the weights of the named tensor.
pub open spec fn is_read(f: GgufFileView, b: Seq<u8>, name: Seq<char>, w: Vec<u32>) -> bool {
    crate::gguf::find_tensor(f.tensors, name) matches Some(t) && raw_at(f, b, name) matches Ok(raw)
        && holds(w@, t.ggml_type, t.elements(), raw)
}

impl GgufFile {
    /// The packed data of a tensor, out of the content of the file.
    pub fn tensor_data_raw<'a>(&self, buf: &'a [u8], name: &str) -> (r: Result<&'a [u8], GgufError>)
        ensures
            match raw_at(self@, buf@, name@) {
                Ok(raw) => r matches Ok(x) && x@ == raw,
                Err(e) => r matches Err(x) && x@ == e,
            },
    {
        let (start, len) = self.tensor_span(name)?;
        let have = buf.len();
        if len == 0 {
            let none = vstd::slice::slice_subrange(buf, 0, 0);
            assert(none@ =~= Seq::empty());
            return Ok(none);
        }
        if start > have as u64 || len > have as u64 - start {
            let found: usize = if start <= have as u64 {
                have - start as usize
            } else {
                0
            };
            return Err(GgufError::Truncated { expected: len as usize, found });
        }
        let from: usize = start as usize;
        Ok(vstd::slice::slice_subrange(buf, from, from + len as usize))
    }

    /// The weights of a tensor, out of the content of the file.
    pub fn tensor_data_f32(&self, buf: &[u8], name: &str) -> (r: Result<Vec<u32>, GgufError>)
        ensures
            match read_error(self@, buf@, name@) {
                Some(e) => r matches Err(x) && x@ == e,
                None => r matches Ok(w) && is_read(self@, buf@, name@, w),
            },
    {
        let raw = self.tensor_data_raw(buf, name)?;
        let info = self.tensor(name)?;
        dequantize(info, raw)
    }
}

// ── laws ──

/// The bytes that a tensor is said to take are the ones that unpacking asks for: they
/// are never too few, and weights stored one by one leave none over.
pub proof fn tensors_take_what_unpacking_asks(t: crate::gguf::TensorInfoView, raw: Seq<u8>)
    requires
        raw.len() == t.bytes(),
    ensures
        plain_width(t.ggml_type) matches Some(w) ==> t.bytes() == t.elements() * w,
        !(unpack_error(t, raw) matches Some(GgufErrorView::Truncated { .. })),
{
}

} // verus!
