//! What unpacked weights are, in terms of the numbers that were packed.

use vstd::arithmetic::power2::*;
use vstd::prelude::*;

use crate::exact::Number;
use crate::ggml::GgmlType;
use crate::gguf::{GgufFileView, TensorInfoView};
use crate::value::GgufErrorView;

verus! {

// ── where the data of a tensor lies ──

/// A tensor is found by its name; of several with the same name the first counts.
pub proof fn tensors_are_found_by_name(tensors: Seq<TensorInfoView>, name: Seq<char>)
    ensures
        match crate::gguf::find_tensor(tensors, name) {
            Some(t) => exists|k: int|
                {
                    &&& 0 <= k < tensors.len()
                    &&& (#[trigger] tensors[k]).name == name
                    &&& t == tensors[k]
                    &&& forall|j: int| 0 <= j < k ==> (#[trigger] tensors[j]).name != name
                },
            None => forall|j: int| 0 <= j < tensors.len() ==> (#[trigger] tensors[j]).name != name,
        },
    decreases tensors.len(),
{
    if tensors.len() > 0 {
        if tensors[0].name != name {
            let rest = tensors.drop_first();
            tensors_are_found_by_name(rest, name);
            match crate::gguf::find_tensor(rest, name) {
                Some(t) => {
                    let k = choose|k: int|
                        {
                            &&& 0 <= k < rest.len()
                            &&& (#[trigger] rest[k]).name == name
                            &&& t == rest[k]
                            &&& forall|j: int| 0 <= j < k ==> (#[trigger] rest[j]).name != name
                        };
                    assert(tensors[k + 1] == rest[k]);
                    assert forall|j: int| 0 <= j < k + 1 implies (#[trigger] tensors[j]).name
                        != name by {
                        if j > 0 {
                            assert(rest[j - 1] == tensors[j]);
                        }
                    }
                },
                None => {
                    assert forall|j: int| 0 <= j < tensors.len() implies (#[trigger] tensors[j]).name
                        != name by {
                        if j > 0 {
                            assert(rest[j - 1] == tensors[j]);
                        }
                    }
                },
            }
        } else {
            assert(tensors[0].name == name);
        }
    }
}

/// The bytes from the offset of a tensor on, as many as it takes.
pub open spec fn bytes_of_tensor(f: GgufFileView, b: Seq<u8>, t: TensorInfoView) -> Seq<u8> {
    Seq::new(t.bytes(), |i: int| b[f.data_start + t.offset + i])
}

/// The data of a tensor are the bytes of the file from its offset in the data section
/// on. Reading fails only where they are not all there, or cannot be counted.
pub proof fn data_lies_at_the_offset(f: GgufFileView, b: Seq<u8>, name: Seq<char>, k: int)
    requires
        0 <= k < f.tensors.len(),
        f.tensors[k].name == name,
        forall|j: int| 0 <= j < k ==> (#[trigger] f.tensors[j]).name != name,
    ensures
        ({
            let t = f.tensors[k];
            let start = f.data_start + t.offset;
            &&& crate::dequant::raw_at(f, b, name) matches Ok(raw) ==> raw == bytes_of_tensor(
                f,
                b,
                t,
            ) && (raw.len() > 0 ==> start + raw.len() <= b.len())
            &&& t.sized() && start <= u64::MAX && start + t.bytes() <= b.len()
                ==> crate::dequant::raw_at(f, b, name) is Ok
            &&& crate::gguf::find_tensor(f.tensors, name) == Some(t)
        }),
{
    tensors_are_found_by_name(f.tensors, name);
    let t = crate::gguf::find_tensor(f.tensors, name)->Some_0;
    let i = choose|i: int|
        {
            &&& 0 <= i < f.tensors.len()
            &&& (#[trigger] f.tensors[i]).name == name
            &&& t == f.tensors[i]
            &&& forall|j: int| 0 <= j < i ==> (#[trigger] f.tensors[j]).name != name
        };
    assert(f.tensors[k].name == name && f.tensors[i].name == name);
    assert(i == k);
    if let Ok(raw) = crate::dequant::raw_at(f, b, name) {
        assert(raw =~= bytes_of_tensor(f, b, t));
    }
}

// ── scales ──

/// Value of a finite half-precision number, in units of 2^-24.
pub open spec fn half_value(h: u16) -> int {
    if h >= 0x8000 {
        -(crate::ieee::fp16_magnitude(h) as int)
    } else {
        crate::ieee::fp16_magnitude(h) as int
    }
}

/// A finite scale times a small integer has exactly the value of the product, as an
/// f32.
pub proof fn scaled_weights_are_exact(h: u16, n: int)
    requires
        crate::ieee::fp16_exponent(h) < 31,
        -0x1000 <= n <= 0x1000,
    ensures
        ({
            let r = Number::of_half(h).times(n).pattern();
            &&& r <= u32::MAX
            &&& crate::ieee::f32_finite(r as u32)
            &&& crate::ieee::f32_value(r as u32) == half_value(h) * n * pow2(125)
        }),
{
    crate::exact::products_are_exact(h, n);
    crate::exact::products_are_finite(h, n);
    let m = crate::ieee::fp16_magnitude(h) as int;
    let a = if n < 0 {
        -n
    } else {
        n
    };
    let p = pow2(125) as int;
    assert((m * a) * p == m * a * p && (-m) * n * p == -(m * n * p) && (n < 0 ==> m * n == -(m * a))
        && (-(m * a)) * p == -(m * a * p)) by (nonlinear_arith)
        requires
            n < 0 ==> a == -n,
            n >= 0 ==> a == n,
    ;
    if m * a == 0 {
        assert(m * a * p == 0 && (m == 0 || n == 0)) by (nonlinear_arith)
            requires
                m * a == 0,
                n < 0 ==> a == -n,
                n >= 0 ==> a == n,
        ;
        assert(half_value(h) * n * p == 0) by (nonlinear_arith)
            requires
                half_value(h) == m || half_value(h) == -m,
                m == 0 || n == 0,
        ;
    }
}

// ── Q8_0 ──

/// A block of 32 signed bytes behind a scale: weight `v` is the scale times byte `v`.
pub proof fn q8_0_weights(raw: Seq<u8>, h: u16, q: Seq<i8>, v: int)
    requires
        raw.len() >= 34,
        h == raw[0] + 256 * raw[1],
        q.len() == 32,
        forall|k: int| 0 <= k < 32 ==> raw[2 + k] == (if #[trigger] q[k] < 0 {
            256 + q[k]
        } else {
            q[k] as int
        }),
        0 <= v < 32,
    ensures
        crate::dequant::weight_q8_0(raw, v) == Number::of_half(h).times(q[v] as int),
{
    assert(raw[2 + v] == (if q[v] < 0 {
        256 + q[v]
    } else {
        q[v] as int
    }));
}

// ── Q5_0 ──

/// The little-endian 32-bit number in the four bytes from `i` on.
pub open spec fn word(raw: Seq<u8>, i: int) -> int {
    raw[i] + 0x100 * raw[i + 1] + 0x1_0000 * raw[i + 2] + 0x100_0000 * raw[i + 3]
}

proof fn word_bit(raw: Seq<u8>, i: int, v: int)
    requires
        0 <= i,
        i + 4 <= raw.len(),
        0 <= v < 32,
    ensures
        crate::dequant::bit(raw[i + v / 8], v % 8) == (word(raw, i) / pow2(v as nat) as int) % 2,
{
    let a = raw[i];
    let b = raw[i + 1];
    let c = raw[i + 2];
    let d = raw[i + 3];
    let w = word(raw, i) as u32;
    let k = v as u32;
    let s = (v % 8) as u8;
    let j = (v / 8) as u32;
    vstd::bits::lemma_u32_shr_is_div(w, k);
    assert(w == a as u32 + 0x100u32 * (b as u32) + 0x1_0000u32 * (c as u32) + 0x100_0000u32 * (
    d as u32));
    assert((w >> k) % 2 == (if j == 0 {
        (a >> s) & 1
    } else if j == 1 {
        (b >> s) & 1
    } else if j == 2 {
        (c >> s) & 1
    } else {
        (d >> s) & 1
    }) as u32) by (bit_vector)
        requires
            w == a as u32 + 0x100u32 * (b as u32) + 0x1_0000u32 * (c as u32) + 0x100_0000u32 * (
            d as u32),
            k == 8 * j + s as u32,
            s < 8,
            j < 4,
    ;
}

/// A block of 32 five-bit numbers behind a scale. The low four bits of numbers 0 to 15
/// are the low halves of the last 16 bytes, those of numbers 16 to 31 the high halves.
/// The fifth bit of number `v` is bit `v` of the 32-bit number in bytes 2 to 5. Weight
/// `v` is the scale times the number less 16.
pub proof fn q5_0_weights(raw: Seq<u8>, h: u16, v: int)
    requires
        raw.len() >= 22,
        h == raw[0] + 256 * raw[1],
        0 <= v < 32,
    ensures
        crate::dequant::weight_q5_0(raw, v) == Number::of_half(h).times(
            (if v < 16 {
                raw[6 + v] as int % 16
            } else {
                raw[6 + v - 16] as int / 16
            }) + 16 * ((word(raw, 2) / pow2(v as nat) as int) % 2) - 16,
        ),
{
    word_bit(raw, 2, v);
    let low = raw.subrange(6, 22);
    if v < 16 {
        assert(low[v] == raw[6 + v]);
    } else {
        assert(low[v - 16] == raw[6 + v - 16]);
    }
}

/// Each of the 32 high bits belongs to one weight: two blocks that differ only in high
/// bit `k` have the same weights but for weight `k`, where the numbers are 16 apart.
pub proof fn q5_0_high_bits_belong_to_one_weight(a: Seq<u8>, b: Seq<u8>, k: int, v: int)
    requires
        a.len() >= 22,
        b.len() == a.len(),
        forall|i: int| 0 <= i < a.len() && !(2 <= i < 6) ==> #[trigger] a[i] == b[i],
        0 <= k < 32,
        0 <= v < 32,
        word(a, 2) == word(b, 2) + pow2(k as nat),
        (word(b, 2) / pow2(k as nat) as int) % 2 == 0,
    ensures
        v != k ==> crate::dequant::weight_q5_0(a, v) == crate::dequant::weight_q5_0(b, v),
        v == k ==> exists|n: int|
            #![trigger Number::of_half(crate::dequant::half_at(a, 0)).times(n)]
            crate::dequant::weight_q5_0(a, v) == Number::of_half(
                crate::dequant::half_at(a, 0),
            ).times(n + 16) && crate::dequant::weight_q5_0(b, v) == Number::of_half(
                crate::dequant::half_at(a, 0),
            ).times(n),
{
    let h = (a[0] + 256 * a[1]) as u16;
    assert(h == a[0] + 256 * a[1]);
    q5_0_weights(a, h, v);
    q5_0_weights(b, h, v);
    assert(a[6 + v % 16] == b[6 + v % 16]);
    let x = word(b, 2) as u32;
    let y = word(a, 2) as u32;
    let kk = k as u32;
    let vv = v as u32;
    vstd::bits::lemma_u32_shr_is_div(x, kk);
    vstd::bits::lemma_u32_shr_is_div(x, vv);
    vstd::bits::lemma_u32_shr_is_div(y, vv);
    vstd::bits::lemma_u32_shl_is_mul(1, kk);
    assert(y == x + (1u32 << kk));
    assert((y >> vv) % 2 == (if vv == kk {
        1u32
    } else {
        (x >> vv) % 2
    })) by (bit_vector)
        requires
            y == x + (1u32 << kk),
            (x >> kk) % 2 == 0,
            kk < 32,
            vv < 32,
    ;
    if v == k {
        let n = (if v < 16 {
            b[6 + v] as int % 16
        } else {
            b[6 + v - 16] as int / 16
        }) - 16;
        let d = Number::of_half(crate::dequant::half_at(a, 0));
        assert(crate::dequant::weight_q5_0(b, v) == d.times(n));
        assert(crate::dequant::weight_q5_0(a, v) == d.times(n + 16));
    }
}

// ── Q4_K ──

/// Eight scales and eight minima of six bits, packed in twelve bytes: the first four of
/// each kind fill the low six bits of bytes 0 to 7; the others have their low four bits
/// in bytes 8 to 11, the scales in the low halves, and their high two bits above the
/// first ones.
pub open spec fn packs_scales(raw: Seq<u8>, scale: Seq<int>, min: Seq<int>) -> bool {
    &&& raw.len() >= 12
    &&& scale.len() == 8
    &&& min.len() == 8
    &&& forall|j: int| 0 <= j < 8 ==> 0 <= #[trigger] scale[j] < 64
    &&& forall|j: int| 0 <= j < 8 ==> 0 <= #[trigger] min[j] < 64
    &&& forall|j: int| 0 <= j < 4 ==> #[trigger] raw[j] == scale[j] + 64 * (scale[j + 4] / 16)
    &&& forall|j: int| 4 <= j < 8 ==> #[trigger] raw[j] == min[j - 4] + 64 * (min[j] / 16)
    &&& forall|j: int| 8 <= j < 12 ==> #[trigger] raw[j] == scale[j - 4] % 16 + 16 * (min[j - 4] % 16)
}

/// The scales and minima that were packed come out again.
pub proof fn scales_unpack(raw: Seq<u8>, scale: Seq<int>, min: Seq<int>, j: int)
    requires
        packs_scales(raw, scale, min),
        0 <= j < 8,
    ensures
        crate::dequant::scale_min(raw, j) == (scale[j], min[j]),
{
    let x = scale[j];
    let y = min[j];
    assert(0 <= x < 64 && 0 <= y < 64);
    if j < 4 {
        let x2 = scale[j + 4];
        let y2 = min[j + 4];
        assert(0 <= x2 < 64 && 0 <= y2 < 64);
        assert(raw[j] == x + 64 * (x2 / 16));
        assert(raw[j + 4] == y + 64 * (y2 / 16));
        six_bits_and_two(raw[j] as int, x, x2 / 16);
        six_bits_and_two(raw[j + 4] as int, y, y2 / 16);
    } else {
        let x1 = scale[j - 4];
        let y1 = min[j - 4];
        assert(0 <= x1 < 64 && 0 <= y1 < 64);
        assert(raw[j - 4] == x1 + 64 * (x / 16));
        assert(raw[j] == y1 + 64 * (y / 16));
        assert(raw[j + 4] == x % 16 + 16 * (y % 16));
        six_bits_and_two(raw[j - 4] as int, x1, x / 16);
        six_bits_and_two(raw[j] as int, y1, y / 16);
        four_bits_and_four(raw[j + 4] as int, x % 16, y % 16);
    }
}

proof fn six_bits_and_two(r: int, low: int, high: int)
    requires
        0 <= low < 64,
        r == low + 64 * high,
    ensures
        r % 64 == low,
        r / 64 == high,
{
}

proof fn four_bits_and_four(r: int, low: int, high: int)
    requires
        0 <= low < 16,
        r == low + 16 * high,
    ensures
        r % 16 == low,
        r / 16 == high,
{
}

proof fn q4_k_number(raw: Seq<u8>, q: Seq<int>, v: int)
    requires
        raw.len() >= 144,
        q.len() == 256,
        forall|k: int| 0 <= k < 256 ==> 0 <= #[trigger] q[k] < 16,
        forall|c: int, l: int|
            #![trigger raw[16 + 32 * c + l]]
            0 <= c < 4 && 0 <= l < 32 ==> raw[16 + 32 * c + l] == q[64 * c + l] + 16 * q[64 * c + 32
                + l],
        0 <= v < 256,
    ensures
        crate::dequant::nibble(raw.subrange(16 + 32 * (v / 64), 48 + 32 * (v / 64)), v % 64)
            == q[v],
{
    let c = v / 64;
    let l = v % 32;
    let low = 64 * c + l;
    let high = 64 * c + 32 + l;
    assert(raw[16 + 32 * c + l] == q[low] + 16 * q[high]);
    assert(0 <= q[low] < 16 && 0 <= q[high] < 16);
    let run = raw.subrange(16 + 32 * c, 48 + 32 * c);
    assert(run[l] == raw[16 + 32 * c + l]);
    if v % 64 < 32 {
        assert(v % 64 == l && v == low);
    } else {
        assert(v % 64 == l + 32 && v == high);
    }
}

/// A block of 256 four-bit numbers, behind a scale, a scale for the minima, and a scale
/// and a minimum for each 32 of them. Every 32 bytes hold 64 numbers: the first 32 in the
/// low halves, the others in the high halves. A weight is its number times its scale,
/// less its minimum.
pub proof fn q4_k_weights(
    raw: Seq<u8>,
    h: u16,
    hmin: u16,
    scale: Seq<int>,
    min: Seq<int>,
    q: Seq<int>,
    v: int,
)
    requires
        raw.len() >= 144,
        h == raw[0] + 256 * raw[1],
        hmin == raw[2] + 256 * raw[3],
        packs_scales(raw.subrange(4, 16), scale, min),
        q.len() == 256,
        forall|k: int| 0 <= k < 256 ==> 0 <= #[trigger] q[k] < 16,
        forall|c: int, l: int|
            #![trigger raw[16 + 32 * c + l]]
            0 <= c < 4 && 0 <= l < 32 ==> raw[16 + 32 * c + l] == q[64 * c + l] + 16 * q[64 * c + 32
                + l],
        0 <= v < 256,
    ensures
        crate::dequant::weight_q4_k(raw, v) == Number::of_half(h).times(scale[v / 32]).times(
            q[v],
        ).minus(Number::of_half(hmin).times(min[v / 32])),
{
    scales_unpack(raw.subrange(4, 16), scale, min, v / 32);
    q4_k_number(raw, q, v);
}

// ── Q6_K ──

proof fn pairs_of_bits(b: u8, w: int, x: int, y: int, z: int)
    requires
        0 <= w < 4,
        0 <= x < 4,
        0 <= y < 4,
        0 <= z < 4,
        b == w + 4 * x + 16 * y + 64 * z,
    ensures
        crate::dequant::bit_pair(b, 0) == w,
        crate::dequant::bit_pair(b, 2) == x,
        crate::dequant::bit_pair(b, 4) == y,
        crate::dequant::bit_pair(b, 6) == z,
{
    assert((b >> 0u8) & 3 == b % 4 && (b >> 2u8) & 3 == (b / 4) % 4 && (b >> 4u8) & 3 == (b / 16)
        % 4 && (b >> 6u8) & 3 == b / 64) by (bit_vector);
}

proof fn q6_k_low_bits(raw: Seq<u8>, q: Seq<int>, v: int)
    requires
        raw.len() >= 210,
        q.len() == 256,
        forall|k: int| 0 <= k < 256 ==> 0 <= #[trigger] q[k] < 64,
        forall|n: int, l: int|
            #![trigger raw[64 * n + l]]
            0 <= n < 2 && 0 <= l < 64 ==> raw[64 * n + l] == q[128 * n + l] % 16 + 16 * (q[128 * n
                + 64 + l] % 16),
        0 <= v < 256,
    ensures
        crate::dequant::nibble(raw.subrange(64 * (v / 128), 64 + 64 * (v / 128)), v % 128) == q[v]
            % 16,
{
    let n = v / 128;
    let m = v % 64;
    let low = 128 * n + m;
    let high = 128 * n + 64 + m;
    assert(raw[64 * n + m] == q[low] % 16 + 16 * (q[high] % 16));
    let run = raw.subrange(64 * n, 64 + 64 * n);
    assert(run[m] == raw[64 * n + m]);
    if v % 128 < 64 {
        assert(v % 128 == m && v == low);
    } else {
        assert(v % 128 == m + 64 && v == high);
    }
}

proof fn q6_k_high_bits(raw: Seq<u8>, q: Seq<int>, v: int)
    requires
        raw.len() >= 210,
        q.len() == 256,
        forall|k: int| 0 <= k < 256 ==> 0 <= #[trigger] q[k] < 64,
        forall|n: int, l: int|
            #![trigger raw[128 + 32 * n + l]]
            0 <= n < 2 && 0 <= l < 32 ==> raw[128 + 32 * n + l] == q[128 * n + l] / 16 + 4 * (q[128
                * n + 32 + l] / 16) + 16 * (q[128 * n + 64 + l] / 16) + 64 * (q[128 * n + 96 + l]
                / 16),
        0 <= v < 256,
    ensures
        crate::dequant::bit_pair(raw[128 + 32 * (v / 128) + v % 32], 2 * (v % 128 / 32)) == q[v]
            / 16,
{
    let n = v / 128;
    let l = v % 32;
    let a = 128 * n + l;
    let b = 128 * n + 32 + l;
    let c = 128 * n + 64 + l;
    let d = 128 * n + 96 + l;
    let byte = raw[128 + 32 * n + l];
    assert(byte == q[a] / 16 + 4 * (q[b] / 16) + 16 * (q[c] / 16) + 64 * (q[d] / 16));
    assert(0 <= q[a] < 64 && 0 <= q[b] < 64 && 0 <= q[c] < 64 && 0 <= q[d] < 64);
    pairs_of_bits(byte, q[a] / 16, q[b] / 16, q[c] / 16, q[d] / 16);
    let quarter = v % 128 / 32;
    assert(v == 128 * n + 32 * quarter + l);
}

/// A block of 256 six-bit numbers in two halves of 128. In each half, 64 bytes hold the
/// low four bits: of its first 64 numbers in the low halves, of the others in the high
/// halves; and 32 bytes hold the high two bits of four numbers each, 32 apart. Each 16
/// numbers have a signed scale. A weight is the number less 32, times its scale.
pub proof fn q6_k_weights(raw: Seq<u8>, h: u16, scale: Seq<i8>, q: Seq<int>, v: int)
    requires
        raw.len() >= 210,
        h == raw[208] + 256 * raw[209],
        crate::ieee::fp16_exponent(h) < 31,
        scale.len() == 16,
        forall|k: int| 0 <= k < 16 ==> raw[192 + k] == (if #[trigger] scale[k] < 0 {
            256 + scale[k]
        } else {
            scale[k] as int
        }),
        q.len() == 256,
        forall|k: int| 0 <= k < 256 ==> 0 <= #[trigger] q[k] < 64,
        forall|n: int, l: int|
            #![trigger raw[64 * n + l]]
            0 <= n < 2 && 0 <= l < 64 ==> raw[64 * n + l] == q[128 * n + l] % 16 + 16 * (q[128 * n
                + 64 + l] % 16),
        forall|n: int, l: int|
            #![trigger raw[128 + 32 * n + l]]
            0 <= n < 2 && 0 <= l < 32 ==> raw[128 + 32 * n + l] == q[128 * n + l] / 16 + 4 * (q[128
                * n + 32 + l] / 16) + 16 * (q[128 * n + 64 + l] / 16) + 64 * (q[128 * n + 96 + l]
                / 16),
        0 <= v < 256,
    ensures
        crate::dequant::weight_q6_k(raw, v) == Number::of_half(h).times(scale[v / 16] as int).times(
            q[v] - 32,
        ),
{
    q6_k_low_bits(raw, q, v);
    q6_k_high_bits(raw, q, v);
    let k = v / 16;
    assert(raw[192 + k] == (if scale[k] < 0 {
        256 + scale[k]
    } else {
        scale[k] as int
    }));
    assert(0 <= q[v] < 64);
}

// ── whole tensors ──

/// A single block of a quantized type is unpacked as its type says.
pub proof fn blocks_unpack_by_type(raw: Seq<u8>, v: int)
    ensures
        raw.len() == 34 && 0 <= v < 32 ==> crate::dequant::weight_at(GgmlType::Q8_0, 32, raw, v)
            == crate::dequant::weight_q8_0(raw, v).pattern(),
        raw.len() == 22 && 0 <= v < 32 ==> crate::dequant::weight_at(GgmlType::Q5_0, 32, raw, v)
            == crate::dequant::weight_q5_0(raw, v).pattern(),
        raw.len() == 144 && 0 <= v < 256 ==> crate::dequant::weight_at(GgmlType::Q4K, 256, raw, v)
            == crate::dequant::weight_q4_k(raw, v).pattern(),
        raw.len() == 210 && 0 <= v < 256 ==> crate::dequant::weight_at(GgmlType::Q6K, 256, raw, v)
            == crate::dequant::weight_q6_k(raw, v).pattern(),
{
    if raw.len() == 34 && 0 <= v < 32 {
        block_by_itself(GgmlType::Q8_0, raw, v);
    }
    if raw.len() == 22 && 0 <= v < 32 {
        block_by_itself(GgmlType::Q5_0, raw, v);
    }
    if raw.len() == 144 && 0 <= v < 256 {
        block_by_itself(GgmlType::Q4K, raw, v);
    }
    if raw.len() == 210 && 0 <= v < 256 {
        block_by_itself(GgmlType::Q6K, raw, v);
    }
}

proof fn one_block(elems: nat, bytes: nat, raw: Seq<u8>, v: int)
    requires
        elems > 0,
        bytes > 0,
        raw.len() == bytes,
        0 <= v < elems,
    ensures
        crate::dequant::block_count(raw.len(), elems, elems, bytes) == 1,
        v < 1 * elems,
        v / elems as int == 0,
        v % elems as int == v,
        crate::dequant::block_of(raw, 0, bytes as int) == raw,
{
    vstd::arithmetic::div_mod::lemma_div_by_self(elems as int);
    vstd::arithmetic::div_mod::lemma_div_by_self(bytes as int);
    vstd::arithmetic::div_mod::lemma_small_mod(v as nat, elems);
    vstd::arithmetic::div_mod::lemma_basic_div(v, elems as int);
    assert(raw.subrange(0, bytes as int) =~= raw);
    assert(0 * bytes == 0) by (nonlinear_arith);
}

proof fn block_by_itself(t: GgmlType, raw: Seq<u8>, v: int)
    requires
        crate::dequant::packing(t) matches Some((elems, bytes)) && raw.len() == bytes && 0 <= v
            < elems,
    ensures
        crate::dequant::weight_at(t, crate::dequant::packing(t)->Some_0.0, raw, v)
            == crate::dequant::block_weight(t, raw, v).pattern(),
{
    let (elems, bytes) = crate::dequant::packing(t)->Some_0;
    one_block(elems, bytes, raw, v);
    same_block(t, elems, raw, v, raw, v);
}

/// A weight depends only on the block that it stands in and on its place there.
proof fn same_block(t: GgmlType, n: nat, raw: Seq<u8>, i: int, block: Seq<u8>, v: int)
    requires
        crate::dequant::packing(t) is Some,
        ({
            let (elems, bytes) = crate::dequant::packing(t)->Some_0;
            &&& i < crate::dequant::block_count(raw.len(), n, elems, bytes) * elems
            &&& crate::dequant::block_of(raw, i / elems as int, bytes as int) == block
            &&& i % elems as int == v
        }),
    ensures
        crate::dequant::weight_at(t, n, raw, i) == crate::dequant::block_weight(
            t,
            block,
            v,
        ).pattern(),
{
}

/// Elements and bytes of a block.
pub open spec fn block_shape(t: GgmlType) -> (nat, nat) {
    match t {
        GgmlType::Q8_0 => (32, 34),
        GgmlType::Q5_0 => (32, 22),
        GgmlType::Q4K => (256, 144),
        _ => (256, 210),
    }
}

proof fn later_block(elems: nat, bytes: nat, n: nat, block: Seq<u8>, rest: Seq<u8>, i: int)
    requires
        elems > 0,
        bytes > 0,
        block.len() == bytes,
        elems <= i < n + elems,
    ensures
        ({
            let all = crate::dequant::block_count((block + rest).len(), n + elems, elems, bytes);
            let few = crate::dequant::block_count(rest.len(), n, elems, bytes);
            let j = i - elems;
            &&& i < all * elems <==> j < few * elems
            &&& i % elems as int == j % elems as int
            &&& j < few * elems ==> crate::dequant::block_of(
                block + rest,
                i / elems as int,
                bytes as int,
            ) == crate::dequant::block_of(rest, j / elems as int, bytes as int)
        }),
{
    let e = elems as int;
    let y = bytes as int;
    let few = crate::dequant::block_count(rest.len(), n, elems, bytes);
    let j = i - e;
    let k = j / e;
    counts_grow(elems, bytes, n, rest.len());
    assert((few + 1) * elems == few * elems + elems) by (nonlinear_arith);
    vstd::arithmetic::div_mod::lemma_div_plus_one(j, e);
    vstd::arithmetic::div_mod::lemma_mod_add_multiples_vanish(j, e);
    vstd::arithmetic::div_mod::lemma_fundamental_div_mod(j, e);
    assert(k >= 0) by {
        vstd::arithmetic::div_mod::lemma_div_pos_is_pos(j, e);
    }
    assert((k + 1) * y == k * y + y) by (nonlinear_arith);
    if j < few * elems {
        assert(k < few) by (nonlinear_arith)
            requires
                j < few * e,
                e * k <= j,
                e > 0,
        ;
        crate::dequant::block_fits(rest.len(), n, elems, bytes, k);
        assert((block + rest).subrange((k + 1) * y, (k + 1) * y + y) =~= rest.subrange(
            k * y,
            k * y + y,
        ));
    }
}

proof fn counts_grow(elems: nat, bytes: nat, n: nat, len: nat)
    requires
        elems > 0,
        bytes > 0,
    ensures
        crate::dequant::block_count(len + bytes, n + elems, elems, bytes)
            == crate::dequant::block_count(len, n, elems, bytes) + 1,
{
    vstd::arithmetic::div_mod::lemma_div_plus_one(len as int, bytes as int);
    vstd::arithmetic::div_mod::lemma_div_plus_one(n as int, elems as int);
}

/// Blocks are unpacked one after the other: the weights of a block followed by more data
/// are the weights of the block, followed by those of the rest.
pub proof fn tensors_unpack_block_by_block(
    t: GgmlType,
    n: nat,
    block: Seq<u8>,
    rest: Seq<u8>,
    i: int,
)
    requires
        t == GgmlType::Q8_0 || t == GgmlType::Q5_0 || t == GgmlType::Q4K || t == GgmlType::Q6K,
        block.len() == block_shape(t).1,
        0 <= i < n + block_shape(t).0,
    ensures
        crate::dequant::weight_at(t, n + block_shape(t).0, block + rest, i) == (if i
            < block_shape(t).0 {
            crate::dequant::weight_at(t, block_shape(t).0, block, i)
        } else {
            crate::dequant::weight_at(t, n, rest, i - block_shape(t).0)
        }),
{
    let (elems, bytes) = block_shape(t);
    let raw = block + rest;
    if i < elems {
        one_block(elems, bytes, block, i);
        counts_grow(elems, bytes, n, rest.len());
        let c = crate::dequant::block_count(rest.len(), n, elems, bytes);
        assert((c + 1) * elems >= elems) by (nonlinear_arith);
        assert(raw.subrange(0, bytes as int) =~= block);
        assert(0 * bytes == 0) by (nonlinear_arith);
        same_block(t, elems, block, i, block, i);
        same_block(t, n + elems, raw, i, block, i);
    } else {
        later_block(elems, bytes, n, block, rest, i);
        let j = i - elems;
        if j < crate::dequant::block_count(rest.len(), n, elems, bytes) * elems {
            let at = crate::dequant::block_of(rest, j / elems as int, bytes as int);
            same_block(t, n + elems, raw, i, at, j % elems as int);
            same_block(t, n, rest, j, at, j % elems as int);
        }
    }
}

/// Weights stored one by one: four little-endian bytes are the pattern of an f32, two are
/// an fp16 that is widened, or the upper half of an f32.
pub proof fn plain_weights(n: nat, raw: Seq<u8>, i: int)
    requires
        0 <= i < n,
    ensures
        4 * n <= raw.len() ==> crate::dequant::weight_at(GgmlType::F32, n, raw, i)
            == crate::value::little_endian(raw.subrange(4 * i, 4 * i + 4)),
        2 * n <= raw.len() ==> crate::dequant::weight_at(GgmlType::F16, n, raw, i)
            == crate::ieee::fp16_widened(
            crate::value::little_endian(raw.subrange(2 * i, 2 * i + 2)) as u16,
        ),
        2 * n <= raw.len() ==> crate::dequant::weight_at(GgmlType::Bf16, n, raw, i) == 0x1_0000
            * crate::value::little_endian(raw.subrange(2 * i, 2 * i + 2)),
{
    reveal_with_fuel(crate::value::little_endian, 5);
    if 4 * n <= raw.len() {
        let s = raw.subrange(4 * i, 4 * i + 4);
        assert(s.drop_first()[0] == raw[4 * i + 1]);
        assert(s.drop_first().drop_first()[0] == raw[4 * i + 2]);
        assert(s.drop_first().drop_first().drop_first()[0] == raw[4 * i + 3]);
    }
    if 2 * n <= raw.len() {
        let s = raw.subrange(2 * i, 2 * i + 2);
        assert(s.drop_first()[0] == raw[2 * i + 1]);
    }
}

/// A Q6_K block whose scale is no finite number holds zeros.
pub proof fn q6_k_without_scale_is_zero(raw: Seq<u8>, v: int)
    requires
        crate::ieee::fp16_exponent(crate::dequant::half_at(raw, 208)) == 31,
    ensures
        crate::dequant::weight_q6_k(raw, v).pattern() == 0,
{
    let f = crate::ieee::Format::Single;
    lemma_pow2_pos(f.scale(0));
    assert(f.magnitude(0) == 0) by (nonlinear_arith)
        requires
            f.magnitude(0) == 0 * pow2(f.scale(0)),
    ;
    crate::ieee::rounding_is_exact(f, 0, 1);
    assert(0 * pow2(125) == 0) by (nonlinear_arith);
}

/// A tensor of a known type whose data are all there is read; one whose data end too early
/// is refused, with the bytes that are there.
pub proof fn complete_tensors_are_read(f: GgufFileView, b: Seq<u8>, name: Seq<char>, k: int)
    requires
        0 <= k < f.tensors.len(),
        f.tensors[k].name == name,
        forall|j: int| 0 <= j < k ==> (#[trigger] f.tensors[j]).name != name,
        f.tensors[k].sized(),
        f.data_start + f.tensors[k].offset <= b.len() <= u64::MAX,
    ensures
        ({
            let t = f.tensors[k];
            let here = b.len() - (f.data_start + t.offset);
            let known = match t.ggml_type {
                GgmlType::F32
                | GgmlType::F16
                | GgmlType::Bf16
                | GgmlType::Q5_0
                | GgmlType::Q8_0
                | GgmlType::Q4K
                | GgmlType::Q6K => true,
                _ => false,
            };
            &&& t.bytes() <= here && t.elements() * 4 <= usize::MAX ==> (
            crate::dequant::read_error(f, b, name) is None <==> known)
            &&& t.bytes() > here ==> (crate::dequant::read_error(f, b, name) matches Some(
                crate::value::GgufErrorView::Truncated { expected: _, found },
            ) && found == here)
        }),
{
    let t = f.tensors[k];
    data_lies_at_the_offset(f, b, name, k);
    assert(t.elements() * 4 >= t.elements() * 2);
}

/// Weights that no whole block holds are zero: those past the last block of the data, and
/// those past the last block that the tensor has room for.
pub proof fn weights_past_the_blocks_are_zero(t: GgmlType, n: nat, raw: Seq<u8>, i: int)
    requires
        t == GgmlType::Q5_0 || t == GgmlType::Q8_0 || t == GgmlType::Q4K || t == GgmlType::Q6K,
        0 <= i < n,
        ({
            let (elems, bytes): (int, int) = match t {
                GgmlType::Q5_0 => (32, 22),
                GgmlType::Q8_0 => (32, 34),
                GgmlType::Q4K => (256, 144),
                _ => (256, 210),
            };
            (i / elems + 1) * elems > n || (i / elems + 1) * bytes > raw.len()
        }),
    ensures
        crate::dequant::weight_at(t, n, raw, i) == 0,
{
    let (elems, bytes): (int, int) = match t {
        GgmlType::Q5_0 => (32, 22),
        GgmlType::Q8_0 => (32, 34),
        GgmlType::Q4K => (256, 144),
        _ => (256, 210),
    };
    let k = i / elems;
    let len = raw.len() as int;
    let count = crate::dequant::block_count(raw.len(), n, elems as nat, bytes as nat) as int;
    vstd::arithmetic::div_mod::lemma_fundamental_div_mod(i, elems);
    vstd::arithmetic::div_mod::lemma_fundamental_div_mod(n as int, elems);
    vstd::arithmetic::div_mod::lemma_fundamental_div_mod(len, bytes);
    assert(count <= k) by {
        let a = n as int / elems;
        let b = len / bytes;
        if count > k {
            assert((k + 1) * elems <= a * elems && (k + 1) * bytes <= b * bytes) by (
            nonlinear_arith)
                requires
                    k + 1 <= a,
                    k + 1 <= b,
                    elems > 0,
                    bytes > 0,
            ;
            assert(a * elems == elems * a && b * bytes == bytes * b) by (nonlinear_arith);
        }
    }
    assert(count * elems <= i) by (nonlinear_arith)
        requires
            count <= k,
            k * elems <= i,
            elems > 0,
    ;
}

} // verus!
