//! Numbers written with two decimals.

use vstd::arithmetic::power2::*;
use vstd::prelude::*;

use crate::ieee::parts_f32;
use crate::text::{digit_of, push_numeral};

verus! {

/// `p / q` as an integer, halves going to the even one.
pub open spec fn rounded_even(p: nat, q: nat) -> nat {
    let k = p / q;
    let r = p % q;
    if 2 * r > q || 2 * r == q && k % 2 == 1 {
        k + 1
    } else {
        k
    }
}

/// The hundredths nearest to a number that is not negative.
pub open spec fn hundredths(bits: u32) -> nat {
    rounded_even(crate::ieee::f32_magnitude(bits) * 100, pow2(149))
}

/// A number of hundredths as text.
pub open spec fn hundredths_text(h: nat) -> Seq<char> {
    crate::text::decimal(h / 100).push('.').push(crate::text::digit_char(h / 10 % 10)).push(
        crate::text::digit_char(h % 10),
    )
}

/// A number that is not negative, with two decimals.
pub open spec fn two_decimals(bits: u32) -> Seq<char> {
    if bits > 0x7f80_0000 {
        "NaN"@
    } else if bits == 0x7f80_0000 {
        "inf"@
    } else {
        hundredths_text(hundredths(bits))
    }
}

/// Rounding does not change when numerator and denominator are scaled alike.
proof fn rounding_scales(p: nat, q: nat, c: nat)
    requires
        q > 0,
        c > 0,
    ensures
        rounded_even(p * c, q * c) == rounded_even(p, q),
{
    let k = p / q;
    let r = p % q;
    vstd::arithmetic::div_mod::lemma_fundamental_div_mod(p as int, q as int);
    assert(p * c == k * (q * c) + r * c && 0 <= r * c < q * c) by (nonlinear_arith)
        requires
            p == q * k + r,
            0 <= r < q,
            c > 0,
    ;
    vstd::arithmetic::div_mod::lemma_fundamental_div_mod_converse(
        (p * c) as int,
        (q * c) as int,
        k as int,
        (r * c) as int,
    );
    assert(2 * r > q <==> 2 * (r * c) > q * c) by (nonlinear_arith)
        requires
            c > 0,
    ;
    assert(2 * r == q <==> 2 * (r * c) == q * c) by (nonlinear_arith)
        requires
            c > 0,
    ;
}

fn shifted(n: u64, by: usize) -> (r: u128)
    requires
        n < 0x100_0000,
        by <= 104,
    ensures
        r == n * pow2(by as nat),
{
    let mut out: u128 = n as u128;
    let mut i: usize = 0;
    proof {
        lemma2_to64();
    }
    while i < by
        invariant
            i <= by <= 104,
            n < 0x100_0000,
            out == n * pow2(i as nat),
        decreases by - i,
    {
        proof {
            lemma_pow2_unfold((i + 1) as nat);
            if i < 103 {
                lemma_pow2_strictly_increases(i as nat, 103);
            }
            lemma2_to64();
            lemma2_to64_rest();
            lemma_pow2_adds(64, 39);
            let a = pow2(i as nat);
            let b = pow2(103);
            assert(n * a < 0x8000_0000_0000_0000_0000_0000_0000_0000) by (nonlinear_arith)
                requires
                    n < 0x100_0000,
                    a <= b,
                    b == 0x1_0000_0000_0000_0000 * 0x80_0000_0000,
            ;
            assert(n * (2 * a) == 2 * (n * a)) by (nonlinear_arith);
        }
        out = out * 2;
        i += 1;
    }
    out
}

fn halved(n: u64, by: usize) -> (r: u64)
    requires
        n < 0x8000_0000,
    ensures
        r == rounded_even(n as nat, pow2(by as nat)),
{
    proof {
        lemma2_to64();
        lemma2_to64_rest();
        lemma_pow2_pos(by as nat);
    }
    if by >= 33 {
        proof {
            if by > 33 {
                lemma_pow2_strictly_increases(33, by as nat);
            }
            vstd::arithmetic::div_mod::lemma_small_mod(n as nat, pow2(by as nat));
            vstd::arithmetic::div_mod::lemma_basic_div(n as int, pow2(by as nat) as int);
        }
        return 0;
    }
    let mut q: u64 = 1;
    let mut i: usize = 0;
    while i < by
        invariant
            i <= by < 33,
            q == pow2(i as nat),
            q <= 0x1_0000_0000,
        decreases by - i,
    {
        proof {
            lemma_pow2_unfold((i + 1) as nat);
            lemma2_to64();
            if i + 1 < 32 {
                lemma_pow2_strictly_increases((i + 1) as nat, 32);
            }
        }
        q = q * 2;
        i += 1;
    }
    let k: u64 = n / q;
    let r: u64 = n % q;
    if 2 * r > q || 2 * r == q && k % 2 == 1 {
        k + 1
    } else {
        k
    }
}

proof fn large_hundredths(sig: nat, scale: nat, w: nat)
    requires
        scale >= 149,
        w == sig * pow2((scale - 149) as nat),
    ensures
        rounded_even((sig * pow2(scale)) * 100, pow2(149)) == w * 100,
{
    let e = (scale - 149) as nat;
    let u = pow2(149);
    lemma_pow2_adds(149, e);
    lemma_pow2_pos(149);
    let c = pow2(e);
    assert((sig * (u * c)) * 100 == (w * 100) * u) by (nonlinear_arith)
        requires
            w == sig * c,
    ;
    rounding_scales(w * 100, 1, u);
    assert(rounded_even(w * 100, 1) == w * 100);
}

proof fn small_hundredths(sig: nat, scale: nat)
    requires
        scale < 149,
    ensures
        rounded_even((sig * pow2(scale)) * 100, pow2(149)) == rounded_even(
            sig * 100,
            pow2((149 - scale) as nat),
        ),
{
    let s = (149 - scale) as nat;
    lemma_pow2_adds(s, scale);
    lemma_pow2_pos(s);
    lemma_pow2_pos(scale);
    let c = pow2(scale);
    assert((sig * c) * 100 == (sig * 100) * c) by (nonlinear_arith);
    rounding_scales(sig * 100, pow2(s), c);
}

fn split_hundredths(bits: u32) -> (r: (u128, u64))
    requires
        bits < 0x7f80_0000,
    ensures
        hundredths(bits) == r.0 * 100 + r.1,
        r.1 < 100,
{
    let (n, scale) = parts_f32(bits);
    if scale >= 149 {
        let w = shifted(n, scale - 149);
        proof {
            large_hundredths(n as nat, scale as nat, w as nat);
        }
        (w, 0)
    } else {
        let h = halved(n * 100, 149 - scale);
        proof {
            small_hundredths(n as nat, scale as nat);
        }
        ((h / 100) as u128, h % 100)
    }
}

/// Appends a number that is not negative, with two decimals.
pub fn push_two_decimals(out: &mut String, bits: u32)
    requires
        bits < 0x8000_0000,
    ensures
        final(out)@ == old(out)@ + two_decimals(bits),
{
    if bits > 0x7f80_0000 {
        out.push_str("NaN");
        return;
    }
    if bits == 0x7f80_0000 {
        out.push_str("inf");
        return;
    }
    let ghost before = out@;
    let (whole, part) = split_hundredths(bits);
    push_numeral(out, whole, 10);
    out.push('.');
    out.push(digit_of((part / 10) as u8));
    out.push(digit_of((part % 10) as u8));
    proof {
        let h = hundredths(bits);
        assert(h / 100 == whole && h / 10 % 10 == part / 10 && h % 10 == part % 10);
        assert(out@ =~= before + hundredths_text(h));
    }
}

/// The hundredths are the nearest: off by no more than half a hundredth, and even where
/// two are as near.
pub proof fn hundredths_are_nearest(bits: u32)
    ensures
        ({
            let exact = crate::ieee::f32_magnitude(bits) * 100;
            let h = hundredths(bits) * pow2(149);
            &&& 2 * exact <= 2 * h + pow2(149)
            &&& 2 * h <= 2 * exact + pow2(149)
            &&& 2 * exact == 2 * h + pow2(149) || 2 * h == 2 * exact + pow2(149) ==> hundredths(
                bits,
            ) % 2 == 0
        }),
{
    let p = crate::ieee::f32_magnitude(bits) * 100;
    let q = pow2(149);
    lemma_pow2_pos(149);
    vstd::arithmetic::div_mod::lemma_fundamental_div_mod(p as int, q as int);
    let k = p / q;
    let r = p % q;
    assert(k * q == q * k && (k + 1) * q == q * k + q) by (nonlinear_arith);
}

/// A number of hundredths shows its whole part, a point and two digits.
pub proof fn two_digits_follow_the_point(h: nat)
    ensures
        ({
            let s = hundredths_text(h);
            let n = s.len() as int;
            &&& n >= 4
            &&& s[n - 3] == '.'
            &&& crate::text::digits_value(s.take(n - 3)) * 100 + (s[n - 2] as int - '0' as int) * 10
                + (s[n - 1] as int - '0' as int) == h
        }),
{
    let s = hundredths_text(h);
    let n = s.len() as int;
    crate::text::decimal_is_digits(h / 100);
    crate::text::decimal_reads_back(h / 100);
    assert(s.take(n - 3) =~= crate::text::decimal(h / 100));
}

} // verus!
