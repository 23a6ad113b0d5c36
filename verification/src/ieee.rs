//! IEEE 754 numbers as bit patterns: what a pattern stands for, comparison,
//! widening and rounding. No floating-point arithmetic happens here.

use vstd::arithmetic::power2::*;
use vstd::prelude::*;

use crate::bignat::{BigNat, Order};

verus! {

// ── formats ──

/// The two formats in use. A pattern without its sign bit is a number below
/// 2^31 or 2^63, and larger patterns stand for larger values.
#[derive(Clone, Copy, PartialEq, Eq, Debug)]
pub enum Format {
    Single,
    Double,
}

impl Format {
    /// Number of fractions per exponent: 2^23 or 2^52.
    pub open spec fn unit(self) -> nat {
        match self {
            Format::Single => 0x80_0000,
            Format::Double => 0x10_0000_0000_0000,
        }
    }

    /// Pattern of positive infinity.
    pub open spec fn infinity(self) -> nat {
        match self {
            Format::Single => 0x7f80_0000,
            Format::Double => 0x7ff0_0000_0000_0000,
        }
    }

    /// The smallest positive value is two to the minus this: 149 or 1074.
    pub open spec fn depth(self) -> nat {
        match self {
            Format::Single => 149,
            Format::Double => 1074,
        }
    }

    /// Significand of a pattern without its sign.
    pub open spec fn significand(self, b: nat) -> nat {
        if b < self.unit() {
            b
        } else {
            self.unit() + b % self.unit()
        }
    }

    /// Power of two that the significand is scaled by.
    pub open spec fn scale(self, b: nat) -> nat {
        if b < self.unit() {
            0
        } else {
            (b / self.unit() - 1) as nat
        }
    }

    /// Absolute value, in units of the smallest subnormal number. Infinity counts
    /// as the value that would follow the largest finite one.
    pub open spec fn magnitude(self, b: nat) -> nat {
        self.significand(b) * pow2(self.scale(b))
    }

    /// Twice the midpoint between a value and the next one.
    pub open spec fn midpoint(self, b: nat) -> nat {
        (2 * self.significand(b) + 1) * pow2(self.scale(b))
    }

    /// Whether `p / q` rounds to something above `b`: it lies above the midpoint
    /// between `b` and its successor, or on it and `b` is odd.
    pub open spec fn above(self, p: nat, q: nat, b: nat) -> bool {
        2 * p > self.midpoint(b) * q || (2 * p == self.midpoint(b) * q && b % 2 == 1)
    }

    /// `b` is the value nearest to `p / q`, ties going to the even pattern; what
    /// lies beyond the largest finite value becomes infinity.
    pub open spec fn nearest(self, p: nat, q: nat, b: nat) -> bool {
        &&& b <= self.infinity()
        &&& b > 0 ==> self.above(p, q, (b - 1) as nat)
        &&& b < self.infinity() ==> !self.above(p, q, b)
    }

    /// `p / q` rounded to the nearest value.
    pub open spec fn rounded(self, p: nat, q: nat) -> nat {
        choose|b: nat| #[trigger] self.nearest(p, q, b)
    }
}

/// The successor of a pattern stands for the value one step of its scale up.
pub proof fn magnitude_step(f: Format, b: nat)
    ensures
        f.magnitude(b + 1) == f.magnitude(b) + pow2(f.scale(b)),
        f.midpoint(b) == f.magnitude(b) + f.magnitude(b + 1),
{
    let u = f.unit();
    lemma2_to64();
    let m = f.significand(b);
    let k = pow2(f.scale(b));
    if b + 1 < u {
    } else if b < u {
        assert((b + 1) % u == 0 && (b + 1) / u == 1) by (nonlinear_arith)
            requires
                b + 1 == u,
                u > 0,
        ;
    } else {
        vstd::arithmetic::div_mod::lemma_fundamental_div_mod(b as int, u as int);
        let e = b / u;
        let r = b % u;
        if r + 1 < u {
            vstd::arithmetic::div_mod::lemma_fundamental_div_mod_converse(
                b as int + 1,
                u as int,
                e as int,
                r as int + 1,
            );
        } else {
            assert(b + 1 == u * (e + 1)) by (nonlinear_arith)
                requires
                    b == u * e + r,
                    r + 1 == u,
            ;
            vstd::arithmetic::div_mod::lemma_fundamental_div_mod_converse(
                b as int + 1,
                u as int,
                e as int + 1,
                0,
            );
            lemma_pow2_unfold(e);
            assert(u * (2 * k) == (m + 1) * k) by (nonlinear_arith)
                requires
                    m + 1 == 2 * u,
            ;
        }
    }
    assert((m + 1) * k == m * k + k) by (nonlinear_arith);
    assert((2 * m + 1) * k == m * k + (m * k + k)) by (nonlinear_arith);
}

/// Larger patterns stand for larger values.
pub proof fn magnitude_increases(f: Format, a: nat, b: nat)
    requires
        a < b,
    ensures
        f.magnitude(a) < f.magnitude(b),
    decreases b - a,
{
    magnitude_step(f, a);
    lemma_pow2_pos(f.scale(a));
    if a + 1 < b {
        magnitude_increases(f, a + 1, b);
    }
}

/// A ratio has one nearest value.
pub proof fn nearest_is_unique(f: Format, p: nat, q: nat, a: nat, b: nat)
    requires
        q > 0,
        f.nearest(p, q, a),
        f.nearest(p, q, b),
    ensures
        a == b,
{
    if a < b {
        above_below(f, p, q, a, (b - 1) as nat);
    } else if b < a {
        above_below(f, p, q, b, (a - 1) as nat);
    }
}

/// What rounds above a pattern rounds above the smaller ones.
proof fn above_below(f: Format, p: nat, q: nat, a: nat, c: nat)
    requires
        q > 0,
        a <= c,
        f.above(p, q, c),
    ensures
        f.above(p, q, a),
{
    if a < c {
        magnitude_step(f, a);
        magnitude_step(f, c);
        magnitude_increases(f, a, c);
        magnitude_increases(f, a + 1, c + 1);
        assert(f.midpoint(a) * q < f.midpoint(c) * q) by (nonlinear_arith)
            requires
                f.midpoint(a) < f.midpoint(c),
                q > 0,
        ;
    }
}

/// Every ratio has a nearest value.
pub proof fn nearest_exists(f: Format, p: nat, q: nat)
    ensures
        f.nearest(p, q, f.rounded(p, q)),
{
    nearest_from(f, p, q, 0);
}

proof fn nearest_from(f: Format, p: nat, q: nat, b: nat)
    requires
        b <= f.infinity(),
        b > 0 ==> f.above(p, q, (b - 1) as nat),
    ensures
        exists|r: nat| #[trigger] f.nearest(p, q, r),
    decreases f.infinity() - b,
{
    if b == f.infinity() || !f.above(p, q, b) {
        assert(f.nearest(p, q, b));
    } else {
        nearest_from(f, p, q, b + 1);
    }
}

/// Rounding depends on the ratio alone.
pub proof fn rounding_scales(f: Format, p: nat, q: nat, c: nat)
    requires
        q > 0,
        c > 0,
    ensures
        f.rounded(p * c, q * c) == f.rounded(p, q),
{
    let b = f.rounded(p, q);
    nearest_exists(f, p, q);
    assert forall|a: nat| f.above(p * c, q * c, a) == f.above(p, q, a) by {
        let m = f.midpoint(a);
        assert(2 * (p * c) == (2 * p) * c && m * (q * c) == (m * q) * c) by (nonlinear_arith);
        assert((2 * p) * c > (m * q) * c <==> 2 * p > m * q) by (nonlinear_arith)
            requires
                c > 0,
        ;
        assert((2 * p) * c == (m * q) * c <==> 2 * p == m * q) by (nonlinear_arith)
            requires
                c > 0,
        ;
    }
    assert(f.nearest(p * c, q * c, b));
    assert(q * c > 0) by (nonlinear_arith)
        requires
            q > 0,
            c > 0,
    ;
    nearest_is_unique(f, p * c, q * c, b, f.rounded(p * c, q * c));
}

/// Rounding keeps the order.
pub proof fn rounding_is_monotone(f: Format, p1: nat, p2: nat, q: nat)
    requires
        q > 0,
        p1 <= p2,
    ensures
        f.rounded(p1, q) <= f.rounded(p2, q),
{
    let b1 = f.rounded(p1, q);
    let b2 = f.rounded(p2, q);
    nearest_exists(f, p1, q);
    nearest_exists(f, p2, q);
    if b1 > b2 {
        above_below(f, p1, q, b2, (b1 - 1) as nat);
    }
}

/// A value that has a pattern rounds to it.
pub proof fn rounding_is_exact(f: Format, b: nat, q: nat)
    requires
        q > 0,
        b < f.infinity(),
    ensures
        f.rounded(f.magnitude(b) * q, q) == b,
{
    let p = f.magnitude(b) * q;
    magnitude_step(f, b);
    magnitude_increases(f, b, b + 1);
    assert(2 * p < f.midpoint(b) * q) by (nonlinear_arith)
        requires
            p == f.magnitude(b) * q,
            2 * f.magnitude(b) < f.midpoint(b),
            q > 0,
    ;
    if b > 0 {
        let a = (b - 1) as nat;
        magnitude_step(f, a);
        magnitude_increases(f, a, b);
        assert(2 * p > f.midpoint(a) * q) by (nonlinear_arith)
            requires
                p == f.magnitude(b) * q,
                2 * f.magnitude(b) > f.midpoint(a),
                q > 0,
        ;
    }
    assert(f.nearest(p, q, b));
    nearest_is_unique(f, p, q, b, f.rounded(p, q));
}

/// The value nearest to `p / q`, by bisection over the patterns.
pub fn round(f: Format, p: &BigNat, q: &BigNat) -> (r: u64)
    requires
        q@ > 0,
    ensures
        f.nearest(p@, q@, r as nat),
        r == f.rounded(p@, q@),
{
    let unit: u64 = match f {
        Format::Single => 0x80_0000,
        Format::Double => 0x10_0000_0000_0000,
    };
    let mut hi: u64 = match f {
        Format::Single => 0x7f80_0000,
        Format::Double => 0x7ff0_0000_0000_0000,
    };
    let mut lo: u64 = 0;
    let mut twice = p.copy();
    twice.mul_add(2, 0);
    while lo < hi
        invariant
            lo <= hi <= f.infinity(),
            unit == f.unit(),
            f.infinity() <= 0x7ff0_0000_0000_0000,
            twice@ == 2 * p@,
            lo > 0 ==> f.above(p@, q@, (lo - 1) as nat),
            hi < f.infinity() ==> !f.above(p@, q@, hi as nat),
        decreases hi - lo,
    {
        let mid: u64 = lo + (hi - lo) / 2;
        let (m, scale): (u64, u64) = if mid < unit {
            (2 * mid + 1, 0)
        } else {
            (2 * (unit + mid % unit) + 1, mid / unit - 1)
        };
        let mut edge = q.copy();
        edge.mul_add(m, 0);
        assert(scale <= 0xffff_ffff) by (nonlinear_arith)
            requires
                scale == 0 || scale == mid / unit - 1,
                unit == 0x80_0000 && mid <= 0x7f80_0000 || unit == 0x10_0000_0000_0000,
        ;
        edge.mul_pow2(scale as usize);
        proof {
            assert((q@ * m) * pow2(scale as nat) == (m * pow2(scale as nat)) * q@)
                by (nonlinear_arith);
        }
        let up = match twice.order(&edge) {
            Order::Above => true,
            Order::Same => mid % 2 == 1,
            Order::Below => false,
        };
        if up {
            lo = mid + 1;
        } else {
            hi = mid;
        }
    }
    proof {
        assert(f.nearest(p@, q@, lo as nat));
        nearest_is_unique(f, p@, q@, lo as nat, f.rounded(p@, q@));
    }
    lo
}

// ── binary32 ──

/// Sign bit of an f32 pattern.
pub open spec fn f32_negative(bits: u32) -> bool {
    bits >= 0x8000_0000
}

/// Biased exponent of an f32 pattern.
pub open spec fn f32_exponent(bits: u32) -> nat {
    (bits as nat / 0x80_0000) % 256
}

/// Neither infinite nor NaN.
pub open spec fn f32_finite(bits: u32) -> bool {
    f32_exponent(bits) < 255
}

/// Absolute value of a finite f32, in units of 2^-149.
pub open spec fn f32_magnitude(bits: u32) -> nat {
    Format::Single.magnitude(bits as nat % 0x8000_0000)
}

/// Significand and scale of an f32 pattern without its sign.
pub fn parts_f32(bits: u32) -> (r: (u64, usize))
    requires
        bits < 0x8000_0000,
    ensures
        r.0 == Format::Single.significand(bits as nat),
        r.1 == Format::Single.scale(bits as nat),
        r.0 < 0x100_0000,
        r.1 < 255,
{
    if bits < 0x80_0000 {
        (bits as u64, 0)
    } else {
        ((0x80_0000 + bits % 0x80_0000) as u64, (bits / 0x80_0000 - 1) as usize)
    }
}

/// Not a number.
pub open spec fn f32_nan(bits: u32) -> bool {
    bits as nat % 0x8000_0000 > 0x7f80_0000
}

/// An integer that orders f32 patterns like the values they stand for; both zeros
/// have the same.
pub open spec fn f32_key(bits: u32) -> int {
    if bits >= 0x8000_0000 {
        -(bits - 0x8000_0000)
    } else {
        bits as int
    }
}

/// `a` is greater than `b`; NaN is not greater than anything, nor less.
pub open spec fn f32_greater(a: u32, b: u32) -> bool {
    !f32_nan(a) && !f32_nan(b) && f32_key(a) > f32_key(b)
}

/// `a` is at least `b`; NaN is not.
pub open spec fn f32_at_least(a: u32, b: u32) -> bool {
    !f32_nan(a) && !f32_nan(b) && f32_key(a) >= f32_key(b)
}

/// Whether an f32 pattern is a NaN.
pub fn is_nan_f32(bits: u32) -> (r: bool)
    ensures
        r == f32_nan(bits),
{
    bits % 0x8000_0000 > 0x7f80_0000
}

/// The ordering key of an f32 pattern.
pub fn key_of_f32(bits: u32) -> (r: i64)
    ensures
        r == f32_key(bits),
{
    if bits >= 0x8000_0000 {
        -((bits - 0x8000_0000) as i64)
    } else {
        bits as i64
    }
}

/// Whether `a` is greater than `b`.
pub fn greater_f32(a: u32, b: u32) -> (r: bool)
    ensures
        r == f32_greater(a, b),
{
    !is_nan_f32(a) && !is_nan_f32(b) && key_of_f32(a) > key_of_f32(b)
}

/// Whether `a` is at least `b`.
pub fn at_least_f32(a: u32, b: u32) -> (r: bool)
    ensures
        r == f32_at_least(a, b),
{
    !is_nan_f32(a) && !is_nan_f32(b) && key_of_f32(a) >= key_of_f32(b)
}

/// Value of a number that is not NaN, in units of 2^-149.
pub open spec fn f32_value(bits: u32) -> int {
    if f32_negative(bits) {
        -(f32_magnitude(bits) as int)
    } else {
        f32_magnitude(bits) as int
    }
}

/// The key orders numbers by value.
pub proof fn key_follows_value(a: u32, b: u32)
    ensures
        f32_key(a) < f32_key(b) <==> f32_value(a) < f32_value(b),
        f32_key(a) == f32_key(b) <==> f32_value(a) == f32_value(b),
{
    let f = Format::Single;
    let x = a as nat % 0x8000_0000;
    let y = b as nat % 0x8000_0000;
    lemma2_to64();
    assert(f.magnitude(0) == 0) by (nonlinear_arith)
        requires
            f.magnitude(0) == 0 * pow2(f.scale(0)),
    ;
    if x > 0 {
        magnitude_increases(f, 0, x);
    }
    if y > 0 {
        magnitude_increases(f, 0, y);
    }
    if x < y {
        magnitude_increases(f, x, y);
    } else if y < x {
        magnitude_increases(f, y, x);
    }
}

/// The f32 lies between zero and two, both included.
pub open spec fn zero_to_two(bits: u32) -> bool {
    f32_magnitude(bits) == 0 || !f32_negative(bits) && f32_finite(bits) && f32_magnitude(bits)
        <= 2 * pow2(149)
}

/// The patterns from that of zero up to that of two, and negative zero, lie in the range,
/// and no others.
pub proof fn range_by_pattern(bits: u32)
    ensures
        zero_to_two(bits) <==> bits <= 0x4000_0000 || bits == 0x8000_0000,
{
    let f = Format::Single;
    let m = bits as nat % 0x8000_0000;
    lemma2_to64();
    lemma_pow2_adds(23, 127);
    lemma_pow2_unfold(150);
    assert(f.significand(0x4000_0000) == 0x80_0000 && f.scale(0x4000_0000) == 127);
    assert(f.magnitude(0) == 0) by (nonlinear_arith)
        requires
            f.magnitude(0) == 0 * pow2(f.scale(0)),
    ;
    if m > 0 {
        magnitude_increases(f, 0, m);
    }
    if m < 0x4000_0000 {
        magnitude_increases(f, m, 0x4000_0000);
    } else if m > 0x4000_0000 {
        magnitude_increases(f, 0x4000_0000, m);
    }
}

/// Whether an f32 lies between zero and two, both included.
pub fn is_zero_to_two(bits: u32) -> (r: bool)
    ensures
        r == zero_to_two(bits),
{
    proof {
        range_by_pattern(bits);
    }
    bits <= 0x4000_0000 || bits == 0x8000_0000
}

// ── binary16 ──

/// Sign bit of an fp16 pattern.
pub open spec fn fp16_negative(h: u16) -> bool {
    h >= 0x8000
}

/// Biased exponent of an fp16 pattern.
pub open spec fn fp16_exponent(h: u16) -> nat {
    (h as nat / 0x400) % 32
}

/// Fraction field of an fp16 pattern.
pub open spec fn fp16_fraction(h: u16) -> nat {
    h as nat % 0x400
}

/// Absolute value of a finite fp16, in units of 2^-24.
pub open spec fn fp16_magnitude(h: u16) -> nat {
    let e = fp16_exponent(h);
    if e == 0 {
        fp16_fraction(h)
    } else {
        (0x400 + fp16_fraction(h)) * pow2((e - 1) as nat)
    }
}

/// Exponent and fraction of the f32 with significand `m`, which has to be
/// doubled until its leading bit is bit 10, and biased exponent `e` at that point.
pub open spec fn normalized(m: nat, e: nat) -> nat
    decreases 0x800 - m,
{
    if m >= 0x400 || m == 0 || e == 0 {
        (e * 0x80_0000 + (m - 0x400) * 0x2000) as nat
    } else {
        normalized(2 * m, (e - 1) as nat)
    }
}

/// The f32 pattern of an fp16 pattern. An infinity becomes the infinity of the
/// same sign, and NaN the quiet NaN of the same sign.
pub open spec fn fp16_widened(h: u16) -> nat {
    let sign: nat = if fp16_negative(h) {
        0x8000_0000
    } else {
        0
    };
    let e = fp16_exponent(h);
    let f = fp16_fraction(h);
    if e == 31 {
        if f == 0 {
            sign + 0x7f80_0000
        } else {
            sign + 0x7fc0_0000
        }
    } else if e > 0 {
        sign + (e + 112) * 0x80_0000 + f * 0x2000
    } else if f > 0 {
        sign + normalized(f, 113)
    } else {
        sign
    }
}

/// The f32 pattern of an fp16 pattern.
pub fn fp16_to_f32(h: u16) -> (r: u32)
    ensures
        r == fp16_widened(h),
{
    let sign: u32 = if h >= 0x8000 {
        0x8000_0000
    } else {
        0
    };
    let exp: u32 = (h as u32 / 0x400) % 32;
    let frac: u32 = h as u32 % 0x400;
    if exp == 31 {
        if frac == 0 {
            sign + 0x7f80_0000
        } else {
            sign + 0x7fc0_0000
        }
    } else if exp > 0 {
        sign + (exp + 112) * 0x80_0000 + frac * 0x2000
    } else if frac > 0 {
        let mut m: u32 = frac;
        let mut e: u32 = 113;
        proof {
            assert(pow2(10) == 1024) by {
                lemma2_to64();
            }
        }
        let ghost mut left: nat = 10;
        while m < 0x400
            invariant
                0 < m < 0x800,
                e == 103 + left,
                left <= 10,
                m < 0x400 ==> m * pow2(left) >= 0x400,
                normalized(frac as nat, 113) == normalized(m as nat, e as nat),
            decreases 0x800 - m,
        {
            proof {
                assert(left > 0) by {
                    lemma2_to64();
                }
                lemma_pow2_unfold(left);
                assert(m * (2 * pow2((left - 1) as nat)) == (2 * m) * pow2((left - 1) as nat))
                    by (nonlinear_arith);
                left = (left - 1) as nat;
            }
            m = 2 * m;
            e = e - 1;
        }
        sign + (e * 0x80_0000 + (m - 0x400) * 0x2000)
    } else {
        sign
    }
}

/// The f32 pattern of a bf16 pattern: bf16 is the upper half of an f32.
pub fn bf16_to_f32(h: u16) -> (r: u32)
    ensures
        r == h * 0x1_0000,
{
    h as u32 * 0x1_0000
}

proof fn normalized_value(m: nat, e: nat)
    requires
        0 < m < 0x800,
        10 < e < 255,
        m < 0x400 ==> m * pow2((e - 103) as nat) >= 0x400,
        e >= 103,
    ensures
        normalized(m, e) < 255 * 0x80_0000,
        normalized(m, e) >= 0x80_0000,
        (0x80_0000 + normalized(m, e) % 0x80_0000) * pow2(
            (normalized(m, e) / 0x80_0000 - 1) as nat,
        ) == m * pow2((e + 12) as nat),
    decreases 0x800 - m,
{
    lemma2_to64();
    if m >= 0x400 {
        lemma_pow2_adds(13, (e - 1) as nat);
        let n = normalized(m, e);
        assert(n == e * 0x80_0000 + (m - 0x400) * 0x2000);
        assert(n / 0x80_0000 == e && n % 0x80_0000 == (m - 0x400) * 0x2000);
        assert((m * 0x2000) * pow2((e - 1) as nat) == m * (0x2000 * pow2((e - 1) as nat)))
            by (nonlinear_arith);
    } else {
        if e == 103 {
            assert(m * pow2(0) == m) by (nonlinear_arith)
                requires
                    pow2(0) == 1,
            ;
        }
        lemma_pow2_unfold((e - 103) as nat);
        assert(m * (2 * pow2((e - 104) as nat)) == (2 * m) * pow2((e - 104) as nat))
            by (nonlinear_arith);
        normalized_value(2 * m, (e - 1) as nat);
        lemma_pow2_unfold((e + 12) as nat);
        assert(m * (2 * pow2((e + 11) as nat)) == (2 * m) * pow2((e + 11) as nat))
            by (nonlinear_arith);
    }
}

/// Widening a finite fp16 is exact: same sign, same value.
pub proof fn fp16_widening_is_exact(h: u16)
    requires
        fp16_exponent(h) < 31,
    ensures
        fp16_widened(h) <= u32::MAX,
        f32_finite(fp16_widened(h) as u32),
        f32_negative(fp16_widened(h) as u32) == fp16_negative(h),
        f32_magnitude(fp16_widened(h) as u32) == fp16_magnitude(h) * pow2(125),
{
    lemma2_to64();
    let e = fp16_exponent(h);
    let f = fp16_fraction(h);
    let w = fp16_widened(h) % 0x8000_0000;
    if e > 0 {
        assert(w == (e + 112) * 0x80_0000 + f * 0x2000);
        assert(w / 0x80_0000 == e + 112 && w % 0x80_0000 == f * 0x2000);
        lemma_pow2_adds(13, (e + 111) as nat);
        lemma_pow2_adds((e - 1) as nat, 125);
        assert((0x80_0000 + f * 0x2000) * pow2((e + 111) as nat) == (0x400 + f) * (0x2000 * pow2(
            (e + 111) as nat,
        ))) by (nonlinear_arith);
        assert(((0x400 + f) * pow2((e - 1) as nat)) * pow2(125) == (0x400 + f) * (pow2(
            (e - 1) as nat,
        ) * pow2(125))) by (nonlinear_arith);
    } else if f > 0 {
        assert(f * pow2(10) >= 0x400) by (nonlinear_arith)
            requires
                pow2(10) == 1024,
                f >= 1,
        ;
        normalized_value(f, 113);
        assert(w == normalized(f, 113));
    } else {
        assert(w == 0);
        assert(0 * pow2(125) == 0 && 0 * pow2(0) == 0) by (nonlinear_arith);
    }
}

/// Widening keeps what is not finite: NaN stays NaN and an infinity stays an infinity,
/// with the same sign.
pub proof fn fp16_widening_keeps_specials(h: u16)
    requires
        fp16_exponent(h) == 31,
    ensures
        fp16_widened(h) <= u32::MAX,
        f32_nan(fp16_widened(h) as u32) == (fp16_fraction(h) != 0),
        !f32_finite(fp16_widened(h) as u32),
        f32_negative(fp16_widened(h) as u32) == fp16_negative(h),
{
}

/// Patterns count up from zero in the smallest steps; from the first normal number on, the
/// next exponent stands for twice the value.
pub proof fn patterns_double_by_exponent(f: Format, b: nat)
    ensures
        b < f.unit() ==> f.magnitude(b) == b,
        b == f.unit() ==> f.magnitude(b) == b,
        b >= f.unit() ==> f.magnitude(b + f.unit()) == 2 * f.magnitude(b),
        f == Format::Single ==> f.unit() == 0x80_0000 && f.infinity() == 255 * 0x80_0000
            && f.depth() == 149,
        f == Format::Double ==> f.unit() == 0x10_0000_0000_0000 && f.infinity() == 2047
            * 0x10_0000_0000_0000 && f.depth() == 1074,
{
    lemma2_to64();
    let u = f.unit();
    assert(b * 1 == b && (u + 0) * 1 == u) by (nonlinear_arith);
    if b >= u {
        let k = (b / u - 1) as nat;
        let m = u + b % u;
        assert((b + u) / u == b / u + 1 && (b + u) % u == b % u);
        lemma_pow2_unfold(k + 1);
        assert(m * (2 * pow2(k)) == 2 * (m * pow2(k))) by (nonlinear_arith);
    }
}

/// Half-precision patterns count and double in the same way, over 31 exponents.
pub proof fn halves_double_by_exponent(h: u16)
    requires
        h < 0x7c00,
    ensures
        h <= 0x400 ==> fp16_magnitude(h) == h,
        0x400 <= h < 0x7800 ==> fp16_magnitude((h + 0x400) as u16) == 2 * fp16_magnitude(h),
        fp16_magnitude((h + 0x8000) as u16) == fp16_magnitude(h),
        fp16_negative((h + 0x8000) as u16),
        !fp16_negative(h),
{
    lemma2_to64();
    let e = fp16_exponent(h);
    let m = 0x400 + fp16_fraction(h);
    assert(m * 1 == m) by (nonlinear_arith);
    if 0x400 <= h < 0x7800 {
        let k = (e - 1) as nat;
        lemma_pow2_unfold(k + 1);
        assert(m * (2 * pow2(k)) == 2 * (m * pow2(k))) by (nonlinear_arith);
    }
}

/// Rounding gives a closest value: no other pattern lies nearer. Infinity counts as the
/// value that follows the largest finite one.
pub proof fn rounding_gives_the_closest(f: Format, p: nat, q: nat, c: nat)
    requires
        c <= f.infinity(),
    ensures
        f.rounded(p, q) <= f.infinity(),
        ({
            let near = p - f.magnitude(f.rounded(p, q)) * q;
            let far = p - f.magnitude(c) * q;
            &&& c > f.rounded(p, q) ==> near <= -far
            &&& c < f.rounded(p, q) ==> -near <= far
        }),
{
    let r = f.rounded(p, q);
    nearest_exists(f, p, q);
    if c > r {
        magnitude_step(f, r);
        if c > r + 1 {
            magnitude_increases(f, r + 1, c);
        }
        let x = f.magnitude(r) as int;
        let y = f.magnitude(r + 1) as int;
        let z = f.magnitude(c) as int;
        assert(y <= z);
        assert(p - x * q <= z * q - p) by (nonlinear_arith)
            requires
                2 * p <= (x + y) * q,
                y <= z,
                q >= 0,
        ;
    }
    if c < r {
        let b = (r - 1) as nat;
        magnitude_step(f, b);
        if c < b {
            magnitude_increases(f, c, b);
        }
        let x = f.magnitude(b) as int;
        let y = f.magnitude(r) as int;
        let z = f.magnitude(c) as int;
        assert(z <= x);
        assert(y * q - p <= p - z * q) by (nonlinear_arith)
            requires
                2 * p >= (x + y) * q,
                z <= x,
                q >= 0,
        ;
    }
}

/// Numbers compare by their values, and zeros of both signs are equal; NaN compares with
/// nothing.
pub proof fn comparisons_follow_values(a: u32, b: u32)
    ensures
        !f32_nan(a) && !f32_nan(b) ==> (f32_greater(a, b) <==> f32_value(a) > f32_value(b)),
        !f32_nan(a) && !f32_nan(b) ==> (f32_at_least(a, b) <==> f32_value(a) >= f32_value(b)),
        f32_nan(a) || f32_nan(b) ==> !f32_greater(a, b) && !f32_at_least(a, b),
        f32_nan(a) <==> 0x7f80_0000 < a < 0x8000_0000 || a > 0xff80_0000,
        f32_finite(a) <==> a < 0x7f80_0000 || 0x8000_0000 <= a < 0xff80_0000,
{
    key_follows_value(a, b);
    key_follows_value(b, a);
}

} // verus!
