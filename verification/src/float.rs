//! Sums and products of f32 patterns, each the exact result rounded once.

use vstd::arithmetic::power2::*;
use vstd::prelude::*;

use crate::bignat::BigNat;
use crate::ieee::{is_nan_f32, parts_f32, round, Format};

verus! {

/// The pattern of the quiet NaN that stands for every undefined result.
pub const QUIET_NAN: u32 = 0x7fc0_0000;

/// Infinite, of either sign.
pub open spec fn infinite(bits: u32) -> bool {
    bits as nat % 0x8000_0000 == 0x7f80_0000
}

/// The pattern of a value in units of 2^-149 that is not zero.
pub open spec fn nearest_pattern(value: int) -> nat {
    if value < 0 {
        0x8000_0000nat + Format::Single.rounded((-value) as nat, 1)
    } else {
        Format::Single.rounded(value as nat, 1)
    }
}

/// The opposite.
pub open spec fn negated(bits: u32) -> u32 {
    if bits < 0x8000_0000 {
        (bits + 0x8000_0000) as u32
    } else {
        (bits - 0x8000_0000) as u32
    }
}

/// The sum of two numbers. Opposite infinities have none; a zero is negative only as
/// the sum of two negative zeros.
pub open spec fn sum(a: u32, b: u32) -> nat {
    if crate::ieee::f32_nan(a) || crate::ieee::f32_nan(b) {
        QUIET_NAN as nat
    } else if infinite(a) {
        if infinite(b) && a != b {
            QUIET_NAN as nat
        } else {
            a as nat
        }
    } else if infinite(b) {
        b as nat
    } else {
        let v = crate::ieee::f32_value(a) + crate::ieee::f32_value(b);
        if v != 0 {
            nearest_pattern(v)
        } else if a == 0x8000_0000 && b == 0x8000_0000 {
            0x8000_0000
        } else {
            0
        }
    }
}

/// The product of two numbers. Infinity times zero has none.
pub open spec fn product(a: u32, b: u32) -> nat {
    let sign: nat = if crate::ieee::f32_negative(a) != crate::ieee::f32_negative(b) {
        0x8000_0000
    } else {
        0
    };
    let zero = a as nat % 0x8000_0000 == 0 || b as nat % 0x8000_0000 == 0;
    if crate::ieee::f32_nan(a) || crate::ieee::f32_nan(b) {
        QUIET_NAN as nat
    } else if infinite(a) || infinite(b) {
        if zero {
            QUIET_NAN as nat
        } else {
            sign + 0x7f80_0000
        }
    } else {
        sign + Format::Single.rounded(
            crate::ieee::f32_magnitude(a) * crate::ieee::f32_magnitude(b),
            pow2(149),
        )
    }
}

// ── rounding ──

/// A significand of 24 bits is a pattern's own: `m` times 2^k.
pub proof fn pattern_of(m: nat, k: nat)
    requires
        0x80_0000 <= m < 0x100_0000,
        k <= 253,
    ensures
        Format::Single.magnitude((k + 1) * 0x80_0000 + (m - 0x80_0000) as nat) == m * pow2(k),
        (k + 1) * 0x80_0000 + (m - 0x80_0000) < 0x7f80_0000,
        Format::Single.scale((k + 1) * 0x80_0000 + (m - 0x80_0000) as nat) == k,
        Format::Single.significand((k + 1) * 0x80_0000 + (m - 0x80_0000) as nat) == m,
{
    let b = (k + 1) * 0x80_0000 + (m - 0x80_0000) as nat;
    assert(b / 0x80_0000 == k + 1 && b % 0x80_0000 == m - 0x80_0000);
}

/// A number that lies between a value and the next one rounds to the nearer, and to
/// the even pattern from the middle.
proof fn between(b: nat, p: nat)
    requires
        b < 0x7f80_0000,
        Format::Single.magnitude(b) <= p < Format::Single.magnitude(b + 1),
    ensures
        Format::Single.rounded(p, 1) == (if Format::Single.above(p, 1, b) {
            b + 1
        } else {
            b
        }),
{
    let f = Format::Single;
    let r = if f.above(p, 1, b) {
        b + 1
    } else {
        b
    };
    crate::ieee::magnitude_step(f, b);
    crate::ieee::magnitude_step(f, b + 1);
    crate::ieee::magnitude_increases(f, b + 1, b + 2);
    if b > 0 {
        crate::ieee::magnitude_step(f, (b - 1) as nat);
        crate::ieee::magnitude_increases(f, (b - 1) as nat, b);
    }
    assert(f.nearest(p, 1, r));
    crate::ieee::nearest_exists(f, p, 1);
    crate::ieee::nearest_is_unique(f, p, 1, r, f.rounded(p, 1));
}

/// What is too large rounds to infinity.
proof fn beyond(p: nat)
    requires
        p >= Format::Single.magnitude(0x7f80_0000),
    ensures
        Format::Single.rounded(p, 1) == 0x7f80_0000,
{
    let f = Format::Single;
    crate::ieee::magnitude_step(f, 0x7f7f_ffff);
    crate::ieee::magnitude_increases(f, 0x7f7f_ffff, 0x7f80_0000);
    assert(f.nearest(p, 1, 0x7f80_0000));
    crate::ieee::nearest_exists(f, p, 1);
    crate::ieee::nearest_is_unique(f, p, 1, 0x7f80_0000, f.rounded(p, 1));
}

/// Comparing with the middle is comparing the remainder with half the divisor.
proof fn split_units(n: nat, q: nat, p: nat, r: nat, u: nat)
    requires
        n == p * q + r,
        r < p,
        u > 0,
    ensures
        q * (u * p) <= n * u < q * (u * p) + u * p,
        2 * (n * u) > (2 * q + 1) * (u * p) <==> 2 * r > p,
        2 * (n * u) == (2 * q + 1) * (u * p) <==> 2 * r == p,
{
    assert(n * u == q * (u * p) + r * u) by (nonlinear_arith)
        requires
            n == p * q + r,
    ;
    assert(r * u < u * p) by (nonlinear_arith)
        requires
            r < p,
            u > 0,
    ;
    assert((2 * q + 1) * (u * p) == 2 * (q * (u * p)) + u * p) by (nonlinear_arith);
    assert(2 * (r * u) > u * p <==> 2 * r > p) by (nonlinear_arith)
        requires
            u > 0,
    ;
    assert(2 * (r * u) == u * p <==> 2 * r == p) by (nonlinear_arith)
        requires
            u > 0,
    ;
}

/// The f32 nearest to `m` times 2^k, in units of 2^-149.
pub fn round_scaled(m: u64, k: u32) -> (r: u32)
    requires
        m < 0x8000_0000_0000_0000,
        k <= 253,
    ensures
        r == Format::Single.rounded(m as nat * pow2(k as nat), 1),
        r <= 0x7f80_0000,
{
    if m < 0x100_0000 {
        return round_short(m as u32, k);
    }
    let mut q: u64 = m;
    let mut p: u64 = 1;
    let mut s: u32 = 0;
    proof {
        lemma2_to64();
    }
    while q >= 0x100_0000
        invariant
            0x100_0000 <= m < 0x8000_0000_0000_0000,
            s <= 39,
            p == pow2(s as nat),
            q == m / p,
            q >= 0x80_0000,
        decreases q,
    {
        proof {
            lemma_pow2_unfold((s + 1) as nat);
            lemma_pow2_pos(s as nat);
            lemma2_to64_rest();
            if s == 39 {
                assert(m / p < 0x100_0000) by (nonlinear_arith)
                    requires
                        m < 0x8000_0000_0000_0000,
                        p == 0x80_0000_0000,
                ;
            }
            if s < 39 {
                lemma_pow2_strictly_increases(s as nat, 39);
            }
            vstd::arithmetic::div_mod::lemma_div_denominator(m as int, p as int, 2);
        }
        q = q / 2;
        p = p * 2;
        s += 1;
    }
    proof {
        lemma_pow2_pos(s as nat);
        lemma2_to64_rest();
        if s < 39 {
            lemma_pow2_strictly_increases(s as nat, 39);
        }
    }
    let r: u64 = m % p;
    proof {
        let whole = m as nat * pow2(k as nat);
        lemma_pow2_adds(k as nat, s as nat);
        lemma_pow2_pos(k as nat);
        vstd::arithmetic::div_mod::lemma_fundamental_div_mod(m as int, p as int);
        split_units(m as nat, q as nat, p as nat, r as nat, pow2(k as nat));
        if k + s > 253 {
            let e = (k + s) as nat;
            if e > 254 {
                lemma_pow2_strictly_increases(254, e);
            }
            assert(Format::Single.magnitude(0x7f80_0000) == 0x80_0000 * pow2(254));
            assert(q * pow2(e) >= 0x80_0000 * pow2(254)) by (nonlinear_arith)
                requires
                    q >= 0x80_0000,
                    pow2(e) >= pow2(254),
            ;
            beyond(whole);
        } else {
            let b = ((k + s + 1) * 0x80_0000 + (q - 0x80_0000)) as nat;
            pattern_of(q as nat, (k + s) as nat);
            crate::ieee::magnitude_step(Format::Single, b);
            between(b, whole);
            assert(b % 2 == q % 2);
        }
    }
    if k + s > 253 {
        return 0x7f80_0000;
    }
    let base: u32 = (k + s + 1) * 0x80_0000 + (q as u32 - 0x80_0000);
    if 2 * r > p || 2 * r == p && q % 2 == 1 {
        base + 1
    } else {
        base
    }
}

fn round_short(m: u32, k: u32) -> (r: u32)
    requires
        m < 0x100_0000,
        k <= 253,
    ensures
        r == Format::Single.rounded(m as nat * pow2(k as nat), 1),
        r < 0x7f80_0000,
{
    let mut n: u32 = m;
    let mut j: u32 = k;
    while n < 0x80_0000 && n > 0 && j > 0
        invariant
            n < 0x100_0000,
            j <= k <= 253,
            n * pow2(j as nat) == m * pow2(k as nat),
        decreases j,
    {
        proof {
            lemma_pow2_unfold(j as nat);
            let a = pow2((j - 1) as nat);
            assert((n * 2) * a == n * (2 * a)) by (nonlinear_arith);
        }
        n = n * 2;
        j = j - 1;
    }
    proof {
        lemma2_to64();
    }
    if n < 0x80_0000 {
        proof {
            let f = Format::Single;
            if n == 0 {
                assert(0 * pow2(j as nat) == 0) by (nonlinear_arith);
            }
            assert(n * pow2(0) == n) by (nonlinear_arith)
                requires
                    pow2(0) == 1,
            ;
            assert(f.magnitude(n as nat) == n);
            crate::ieee::rounding_is_exact(f, n as nat, 1);
        }
        return n;
    }
    proof {
        pattern_of(n as nat, j as nat);
        crate::ieee::rounding_is_exact(
            Format::Single,
            ((j + 1) * 0x80_0000 + (n - 0x80_0000)) as nat,
            1,
        );
    }
    (j + 1) * 0x80_0000 + (n - 0x80_0000)
}

// ── sums ──

/// A number that is much closer to a value than the next value is rounds to it.
proof fn close(b: nat, p: nat)
    requires
        0x80_0000 <= b < 0x7f80_0000,
        Format::Single.magnitude(b) < p + pow2((Format::Single.scale(b) - 2) as nat),
        p < Format::Single.magnitude(b) + pow2((Format::Single.scale(b) - 2) as nat),
        Format::Single.scale(b) >= 2,
    ensures
        Format::Single.rounded(p, 1) == b,
{
    let f = Format::Single;
    let k = f.scale(b);
    crate::ieee::magnitude_step(f, b);
    crate::ieee::magnitude_step(f, (b - 1) as nat);
    lemma_pow2_unfold(k);
    lemma_pow2_unfold((k - 1) as nat);
    assert(f.scale((b - 1) as nat) == k || f.scale((b - 1) as nat) == k - 1) by {
        assert(b / 0x80_0000 - 1 <= (b - 1) / 0x80_0000 <= b / 0x80_0000);
    }
    assert(f.nearest(p, 1, b));
    crate::ieee::nearest_exists(f, p, 1);
    crate::ieee::nearest_is_unique(f, p, 1, b, f.rounded(p, 1));
}

/// What lies far below a number does not change it.
proof fn dominated(a: u32, b: u32)
    requires
        a as nat % 0x8000_0000 < 0x7f80_0000,
        b as nat % 0x8000_0000 < 0x7f80_0000,
        Format::Single.scale(a as nat % 0x8000_0000) > Format::Single.scale(
            b as nat % 0x8000_0000,
        ) + 38,
    ensures
        sum(a, b) == a,
{
    let f = Format::Single;
    let x = a as nat % 0x8000_0000;
    let y = b as nat % 0x8000_0000;
    let k = f.scale(x);
    let j = f.scale(y);
    let m = f.magnitude(x);
    let n = f.magnitude(y);
    lemma2_to64();
    lemma_pow2_pos(j);
    lemma_pow2_adds(24, j);
    lemma_pow2_strictly_increases(24 + j, (k - 2) as nat);
    lemma_pow2_strictly_increases((k - 2) as nat, k);
    assert(n < pow2(24) * pow2(j)) by (nonlinear_arith)
        requires
            n == f.significand(y) * pow2(j),
            f.significand(y) < 0x100_0000,
            pow2(24) == 0x100_0000,
            pow2(j) > 0,
    ;
    assert(m >= pow2(k)) by (nonlinear_arith)
        requires
            m == f.significand(x) * pow2(k),
            f.significand(x) >= 0x80_0000,
    ;
    close(x, m + n);
    close(x, (m - n) as nat);
}

fn add_finite(a: u32, b: u32) -> (r: u32)
    requires
        a as nat % 0x8000_0000 < 0x7f80_0000,
        b as nat % 0x8000_0000 < 0x7f80_0000,
        Format::Single.scale(a as nat % 0x8000_0000) >= Format::Single.scale(
            b as nat % 0x8000_0000,
        ),
    ensures
        r == sum(a, b),
{
    let (sa, ea) = parts_f32(a % 0x8000_0000);
    let (sb, eb) = parts_f32(b % 0x8000_0000);
    let d: usize = ea - eb;
    if d > 38 {
        proof {
            dominated(a, b);
        }
        return a;
    }
    proof {
        lemma2_to64();
        lemma2_to64_rest();
        if d < 38 {
            lemma_pow2_strictly_increases(d as nat, 38);
        }
        assert(sa * pow2(d as nat) < 0x4000_0000_0000_0000) by (nonlinear_arith)
            requires
                sa < 0x100_0000,
                pow2(d as nat) <= 0x40_0000_0000,
        ;
        vstd::bits::lemma_u64_shl_is_mul(sa, d as u64);
    }
    let x: u64 = sa << (d as u64);
    let ghost u = pow2(eb as nat);
    proof {
        lemma_pow2_pos(eb as nat);
        lemma_pow2_adds(d as nat, eb as nat);
        assert(sa * (pow2(d as nat) * u) == (sa * pow2(d as nat)) * u) by (nonlinear_arith);
        assert(x * u == crate::ieee::f32_magnitude(a));
        assert((x + sb) * u == x * u + sb * u) by (nonlinear_arith);
    }
    let na = a >= 0x8000_0000;
    let nb = b >= 0x8000_0000;
    if na == nb {
        let m: u64 = x + sb;
        if m == 0 {
            proof {
                zero_patterns(a, x as nat, u);
                zero_patterns(b, sb as nat, u);
                assert(0 * u == 0) by (nonlinear_arith);
            }
            return a;
        }
        assert(m * u > 0) by (nonlinear_arith)
            requires
                m > 0,
                u > 0,
        ;
        let r = round_scaled(m, eb as u32);
        if na {
            0x8000_0000 + r
        } else {
            r
        }
    } else if x == sb {
        0
    } else if x > sb {
        let m: u64 = x - sb;
        assert(m * u == x * u - sb * u && m * u > 0) by (nonlinear_arith)
            requires
                m == x - sb,
                m > 0,
                u > 0,
        ;
        let r = round_scaled(m, eb as u32);
        if na {
            0x8000_0000 + r
        } else {
            r
        }
    } else {
        let m: u64 = sb - x;
        assert(m * u == sb * u - x * u && m * u > 0) by (nonlinear_arith)
            requires
                m == sb - x,
                m > 0,
                u > 0,
        ;
        let r = round_scaled(m, eb as u32);
        if nb {
            0x8000_0000 + r
        } else {
            r
        }
    }
}

/// Only the two zero patterns stand for zero.
proof fn zero_patterns(a: u32, x: nat, u: nat)
    requires
        x * u == crate::ieee::f32_magnitude(a),
        x == 0,
    ensures
        a == 0 || a == 0x8000_0000,
        crate::ieee::f32_magnitude(a) == 0,
{
    let f = Format::Single;
    let p = a as nat % 0x8000_0000;
    assert(0 * u == 0) by (nonlinear_arith);
    if p > 0 {
        crate::ieee::magnitude_increases(f, 0, p);
    }
}

/// The sum of two numbers.
pub fn add_f32(a: u32, b: u32) -> (r: u32)
    ensures
        r == sum(a, b),
{
    if is_nan_f32(a) || is_nan_f32(b) {
        return QUIET_NAN;
    }
    if a % 0x8000_0000 == 0x7f80_0000 {
        if b % 0x8000_0000 == 0x7f80_0000 && a != b {
            return QUIET_NAN;
        }
        return a;
    }
    if b % 0x8000_0000 == 0x7f80_0000 {
        return b;
    }
    let ea = parts_f32(a % 0x8000_0000).1;
    let eb = parts_f32(b % 0x8000_0000).1;
    if ea >= eb {
        add_finite(a, b)
    } else {
        add_finite(b, a)
    }
}

/// The difference of two numbers.
pub fn sub_f32(a: u32, b: u32) -> (r: u32)
    ensures
        r == sum(a, negated(b)),
{
    let n: u32 = if b < 0x8000_0000 {
        b + 0x8000_0000
    } else {
        b - 0x8000_0000
    };
    add_f32(a, n)
}

/// The product of two numbers.
pub fn mul_f32(a: u32, b: u32) -> (r: u32)
    ensures
        r == product(a, b),
{
    let x: u32 = a % 0x8000_0000;
    let y: u32 = b % 0x8000_0000;
    if is_nan_f32(a) || is_nan_f32(b) {
        return QUIET_NAN;
    }
    let sign: u32 = if (a >= 0x8000_0000) != (b >= 0x8000_0000) {
        0x8000_0000
    } else {
        0
    };
    if x == 0x7f80_0000 || y == 0x7f80_0000 {
        if x == 0 || y == 0 {
            return QUIET_NAN;
        }
        return sign + 0x7f80_0000;
    }
    let (sa, ea) = parts_f32(x);
    let (sb, eb) = parts_f32(y);
    assert(sa * sb < 0x1_0000_0000_0000) by (nonlinear_arith)
        requires
            sa < 0x100_0000,
            sb < 0x100_0000,
    ;
    let mut p = BigNat::from_u64(sa * sb);
    p.mul_pow2(ea + eb);
    let mut q = BigNat::from_u64(1);
    q.mul_pow2(149);
    proof {
        lemma_pow2_adds(ea as nat, eb as nat);
        lemma_pow2_pos(149);
        let c = pow2(ea as nat);
        let d = pow2(eb as nat);
        assert((sa * sb) * (c * d) == (sa * c) * (sb * d)) by (nonlinear_arith);
    }
    sign + round(Format::Single, &p, &q) as u32
}

// ── laws ──

/// The order of two summands does not matter.
pub proof fn sums_commute(a: u32, b: u32)
    ensures
        sum(a, b) == sum(b, a),
{
}

/// A finite sum is the exact one, rounded to the nearest f32 and with its sign.
pub proof fn sums_are_nearest(a: u32, b: u32)
    requires
        crate::ieee::f32_finite(a),
        crate::ieee::f32_finite(b),
    ensures
        ({
            let v = crate::ieee::f32_value(a) + crate::ieee::f32_value(b);
            let s = sum(a, b);
            &&& s <= u32::MAX
            &&& v >= 0 ==> s <= 0x7f80_0000 && Format::Single.nearest(v as nat, 1, s) || v == 0 && s
                == 0x8000_0000
            &&& v < 0 ==> s >= 0x8000_0000 && Format::Single.nearest(
                (-v) as nat,
                1,
                (s - 0x8000_0000) as nat,
            )
        }),
{
    let v = crate::ieee::f32_value(a) + crate::ieee::f32_value(b);
    crate::ieee::nearest_exists(Format::Single, v as nat, 1);
    crate::ieee::nearest_exists(Format::Single, (-v) as nat, 1);
    if v == 0 {
        zero_is_nearest_to_zero();
    }
}

proof fn zero_is_nearest_to_zero()
    ensures
        Format::Single.nearest(0, 1, 0),
{
    let f = Format::Single;
    lemma_pow2_pos(f.scale(0));
    let m = f.significand(0);
    let k = pow2(f.scale(0));
    assert((2 * m + 1) * k > 0) by (nonlinear_arith)
        requires
            k > 0,
    ;
}

/// A finite product is the exact one, rounded to the nearest f32; it is negative where
/// one factor is.
#[verifier::spinoff_prover]
pub proof fn products_are_nearest(a: u32, b: u32)
    requires
        crate::ieee::f32_finite(a),
        crate::ieee::f32_finite(b),
    ensures
        ({
            let s = product(a, b);
            &&& s <= u32::MAX
            &&& (s >= 0x8000_0000) == (crate::ieee::f32_negative(a) != crate::ieee::f32_negative(b))
            &&& Format::Single.nearest(
                crate::ieee::f32_magnitude(a) * crate::ieee::f32_magnitude(b),
                pow2(149),
                s % 0x8000_0000,
            )
        }),
{
    finite_is_a_number(a);
    finite_is_a_number(b);
    let sign: nat = if crate::ieee::f32_negative(a) != crate::ieee::f32_negative(b) {
        0x8000_0000
    } else {
        0
    };
    signed_rounding(
        sign,
        crate::ieee::f32_magnitude(a) * crate::ieee::f32_magnitude(b),
        pow2(149),
        product(a, b),
    );
}

proof fn finite_is_a_number(a: u32)
    requires
        crate::ieee::f32_finite(a),
    ensures
        !crate::ieee::f32_nan(a),
        !infinite(a),
{
}

/// A sign before a rounded magnitude keeps both: the pattern is negative where the sign
/// says so, and the rest is the nearest.
pub proof fn signed_rounding(sign: nat, p: nat, q: nat, s: nat)
    requires
        sign == 0 || sign == 0x8000_0000,
        s == sign + Format::Single.rounded(p, q),
    ensures
        s <= u32::MAX,
        (s >= 0x8000_0000) == (sign != 0),
        Format::Single.nearest(p, q, s % 0x8000_0000),
{
    let r = Format::Single.rounded(p, q);
    crate::ieee::nearest_exists(Format::Single, p, q);
    assert(r <= 0x7f80_0000);
    assert(s % 0x8000_0000 == r);
}

/// Adding the same number keeps the order.
#[verifier::spinoff_prover]
pub proof fn sums_are_monotone(a: u32, b: u32, c: u32)
    requires
        !crate::ieee::f32_nan(a),
        !crate::ieee::f32_nan(b),
        crate::ieee::f32_finite(c),
        crate::ieee::f32_key(a) <= crate::ieee::f32_key(b),
    ensures
        sum(a, c) <= u32::MAX,
        sum(b, c) <= u32::MAX,
        !crate::ieee::f32_nan(sum(a, c) as u32),
        !crate::ieee::f32_nan(sum(b, c) as u32),
        crate::ieee::f32_key(sum(a, c) as u32) <= crate::ieee::f32_key(sum(b, c) as u32),
{
    let x = crate::ieee::f32_value(a) + crate::ieee::f32_value(c);
    let y = crate::ieee::f32_value(b) + crate::ieee::f32_value(c);
    assert(x <= y) by {
        crate::ieee::key_follows_value(a, b);
    }
    finite_is_a_number(c);
    nearest_keeps_the_order(x, y);
}

/// Rounding keeps the order of signed values.
#[verifier::spinoff_prover]
proof fn nearest_keeps_the_order(x: int, y: int)
    requires
        x <= y,
    ensures
        x < 0 ==> 0x8000_0000 <= nearest_pattern(x) <= 0xff80_0000,
        y < 0 ==> 0x8000_0000 <= nearest_pattern(y) <= 0xff80_0000,
        x > 0 ==> nearest_pattern(x) <= 0x7f80_0000,
        y > 0 ==> nearest_pattern(y) <= 0x7f80_0000,
        x > 0 ==> nearest_pattern(x) <= nearest_pattern(y),
        y < 0 ==> nearest_pattern(x) >= nearest_pattern(y),
{
    let f = Format::Single;
    if x < 0 {
        rounded_is_a_number((-x) as nat);
    } else {
        rounded_is_a_number(x as nat);
    }
    if y < 0 {
        rounded_is_a_number((-y) as nat);
        crate::ieee::rounding_is_monotone(f, (-y) as nat, (-x) as nat, 1);
    } else {
        rounded_is_a_number(y as nat);
        if x > 0 {
            crate::ieee::rounding_is_monotone(f, x as nat, y as nat, 1);
        }
    }
}

proof fn rounded_is_a_number(p: nat)
    ensures
        Format::Single.rounded(p, 1) <= 0x7f80_0000,
{
    crate::ieee::nearest_exists(Format::Single, p, 1);
}

/// Multiplying by the same number that is not negative keeps the order of numbers that
/// are not negative either.
pub proof fn products_are_monotone(a: u32, b: u32, c: u32)
    requires
        a <= b < 0x7f80_0000,
        c < 0x7f80_0000,
    ensures
        product(a, c) <= product(b, c) <= 0x7f80_0000,
{
    let f = Format::Single;
    crate::ieee::key_follows_value(a, b);
    let x = crate::ieee::f32_magnitude(a);
    let y = crate::ieee::f32_magnitude(b);
    let z = crate::ieee::f32_magnitude(c);
    assert(x * z <= y * z) by (nonlinear_arith)
        requires
            x <= y,
    ;
    lemma_pow2_pos(149);
    crate::ieee::rounding_is_monotone(f, x * z, y * z, pow2(149));
    crate::ieee::nearest_exists(f, x * z, pow2(149));
    crate::ieee::nearest_exists(f, y * z, pow2(149));
}

/// Infinities absorb finite summands; opposite ones have no sum. NaN spoils every sum.
pub proof fn sums_of_special_values(a: u32, c: u32)
    requires
        !crate::ieee::f32_nan(a),
    ensures
        a != 0xff80_0000 ==> sum(a, 0x7f80_0000) == 0x7f80_0000,
        a != 0x7f80_0000 ==> sum(a, 0xff80_0000) == 0xff80_0000,
        sum(0x7f80_0000, 0xff80_0000) == 0x7fc0_0000,
        crate::ieee::f32_nan(c) ==> sum(a, c) == 0x7fc0_0000 && product(a, c) == 0x7fc0_0000,
{
}

/// Infinity times a number is infinity with the sign of the product; times zero it is no
/// number.
pub proof fn products_with_infinity(a: u32)
    ensures
        0 < a <= 0x7f80_0000 ==> product(a, 0x7f80_0000) == 0x7f80_0000 && product(a, 0xff80_0000)
            == 0xff80_0000,
        0x8000_0000 < a <= 0xff80_0000 ==> product(a, 0x7f80_0000) == 0xff80_0000 && product(
            a,
            0xff80_0000,
        ) == 0x7f80_0000,
        a == 0 || a == 0x8000_0000 ==> product(a, 0x7f80_0000) == 0x7fc0_0000,
{
}

} // verus!
