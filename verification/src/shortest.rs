//! Decimal text of floating-point numbers: the shortest one that reads back as the
//! same number.

use vstd::arithmetic::power2::*;
use vstd::prelude::*;

use crate::bignat::BigNat;
use crate::ieee::{round, Format};

verus! {

// ── the shortest decimal ──

/// `d` times ten to the `k` reads back as the value with pattern `b`.
pub open spec fn reads_back(f: Format, b: nat, d: nat, k: int) -> bool {
    crate::decimal::nearest_value(f, d, k) == b
}

/// Some multiple of ten to the `k` reads back as `b`.
pub open spec fn expressible(f: Format, b: nat, k: int) -> bool {
    exists|d: nat| #[trigger] reads_back(f, b, d, k)
}

/// `k` is the largest exponent at which `b` can be expressed, which makes for
/// the fewest digits.
pub open spec fn coarsest(f: Format, b: nat, k: int) -> bool {
    expressible(f, b, k) && forall|j: int| j > k ==> !#[trigger] expressible(f, b, j)
}

/// The value of `b` in units of ten to the `k`, as a ratio.
pub open spec fn units(f: Format, b: nat, k: int) -> (nat, nat) {
    let m = f.magnitude(b);
    if k >= 0 {
        (m, crate::decimal::ten(k as nat) * pow2(f.depth()))
    } else {
        (m * crate::decimal::ten((-k) as nat), pow2(f.depth()))
    }
}

/// Of the multiples of ten to the `k` on either side of `b`, the nearer one that
/// reads back.
pub open spec fn digits_at(f: Format, b: nat, k: int) -> nat {
    let (y, x) = units(f, b, k);
    let lo = y / x;
    if reads_back(f, b, lo + 1, k) && (!reads_back(f, b, lo, k) || 2 * y >= (2 * lo + 1) * x) {
        lo + 1
    } else {
        lo
    }
}

/// The exponent of the shortest decimal.
pub open spec fn shortest_exponent(f: Format, b: nat) -> int {
    choose|k: int| coarsest(f, b, k)
}

/// The digits of the shortest decimal, as a number.
pub open spec fn shortest_digits(f: Format, b: nat) -> nat {
    digits_at(f, b, shortest_exponent(f, b))
}

// ── search ──

/// 10^400 · 2^1074.
spec fn base(f: Format) -> nat {
    crate::decimal::ten(400) * pow2(f.depth())
}

/// Reading at exponent `400 - j`, over a denominator that does not depend on it.
proof fn reading_scaled(f: Format, d: nat, j: nat)
    ensures
        crate::decimal::nearest_value(f, d, 400 - j) == f.rounded(
            d * base(f),
            crate::decimal::ten(j),
        ),
{
    let two = pow2(f.depth());
    if j <= 400 {
        let k = (400 - j) as nat;
        let t = crate::decimal::ten(k);
        let c = crate::decimal::ten(j);
        crate::decimal::ten_positive(j);
        crate::decimal::ten_adds(k, j);
        crate::ieee::rounding_scales(f, d * t * two, 1, c);
        assert((d * t * two) * c == d * ((t * c) * two)) by (nonlinear_arith);
        assert(1 * c == c) by (nonlinear_arith);
    } else {
        let k = (j - 400) as nat;
        let t = crate::decimal::ten(k);
        let c = crate::decimal::ten(400);
        crate::decimal::ten_positive(k);
        crate::decimal::ten_positive(400);
        crate::decimal::ten_adds(k, 400);
        crate::ieee::rounding_scales(f, d * two, t, c);
        assert((d * two) * c == d * (c * two)) by (nonlinear_arith);
    }
}

/// The value at exponent `400 - j`, over the same denominator.
proof fn units_scaled(f: Format, b: nat, j: nat, lo: nat)
    requires
        lo * base(f) <= f.magnitude(b) * crate::decimal::ten(j) < (lo + 1) * base(f),
    ensures
        units(f, b, 400 - j).0 / units(f, b, 400 - j).1 == lo,
        2 * units(f, b, 400 - j).0 >= (2 * lo + 1) * units(f, b, 400 - j).1 <==> 2 * (
        f.magnitude(b) * crate::decimal::ten(j)) >= (2 * lo + 1) * base(f),
{
    let m = f.magnitude(b);
    let two = pow2(f.depth());
    lemma_pow2_pos(f.depth());
    let (y, x) = units(f, b, 400 - j);
    let c = if j <= 400 {
        crate::decimal::ten(j)
    } else {
        crate::decimal::ten(400)
    };
    if j <= 400 {
        let k = (400 - j) as nat;
        let t = crate::decimal::ten(k);
        crate::decimal::ten_positive(j);
        crate::decimal::ten_positive(k);
        crate::decimal::ten_adds(k, j);
        assert((t * two) * c == (t * c) * two) by (nonlinear_arith);
        assert(t * two > 0) by (nonlinear_arith)
            requires
                t > 0,
                two > 0,
        ;
    } else {
        let k = (j - 400) as nat;
        let t = crate::decimal::ten(k);
        crate::decimal::ten_positive(400);
        crate::decimal::ten_adds(k, 400);
        assert((m * t) * c == m * (t * c)) by (nonlinear_arith);
        assert(two * c == c * two) by (nonlinear_arith);
    }
    assert(x > 0 && c > 0);
    assert(x * c == base(f) && y * c == m * crate::decimal::ten(j));
    assert(lo * x <= y < (lo + 1) * x) by (nonlinear_arith)
        requires
            c > 0,
            lo * (x * c) <= y * c < (lo + 1) * (x * c),
    ;
    assert(y == x * lo + (y - lo * x) && 0 <= y - lo * x < x) by (nonlinear_arith)
        requires
            lo * x <= y < (lo + 1) * x,
    ;
    vstd::arithmetic::div_mod::lemma_fundamental_div_mod_converse(
        y as int,
        x as int,
        lo as int,
        y - lo * x,
    );
    assert(2 * y >= (2 * lo + 1) * x <==> 2 * (y * c) >= (2 * lo + 1) * (x * c))
        by (nonlinear_arith)
        requires
            c > 0,
    ;
}

/// When neither neighbour reads back, no multiple does.
proof fn neighbours_decide(f: Format, b: nat, j: nat, lo: nat)
    requires
        b < f.infinity(),
        lo * base(f) <= f.magnitude(b) * crate::decimal::ten(j) < (lo + 1) * base(f),
        !reads_back(f, b, lo, 400 - j),
        !reads_back(f, b, lo + 1, 400 - j),
    ensures
        !expressible(f, b, 400 - j),
{
    let q = crate::decimal::ten(j);
    let y = f.magnitude(b) * q;
    crate::decimal::ten_positive(j);
    crate::ieee::rounding_is_exact(f, b, q);
    let k = 400 - j;
    assert forall|d: nat| !#[trigger] reads_back(f, b, d, k) by {
        reading_scaled(f, d, j);
        reading_scaled(f, lo, j);
        reading_scaled(f, lo + 1, j);
        if d <= lo {
            assert(d * base(f) <= lo * base(f)) by (nonlinear_arith)
                requires
                    d <= lo,
            ;
            crate::ieee::rounding_is_monotone(f, d * base(f), lo * base(f), q);
            crate::ieee::rounding_is_monotone(f, lo * base(f), y, q);
        } else {
            assert(d * base(f) >= (lo + 1) * base(f)) by (nonlinear_arith)
                requires
                    d >= lo + 1,
            ;
            crate::ieee::rounding_is_monotone(f, (lo + 1) * base(f), d * base(f), q);
            crate::ieee::rounding_is_monotone(f, y, (lo + 1) * base(f), q);
        }
    }
}

/// A unit well above the value is too coarse.
proof fn unit_too_large(f: Format, b: nat, j: nat)
    requires
        0 < b < f.infinity(),
        2 * base(f) > 3 * (f.magnitude(b) * crate::decimal::ten(j)),
    ensures
        !expressible(f, b, 400 - j),
{
    let q = crate::decimal::ten(j);
    let m = f.magnitude(b);
    crate::decimal::ten_positive(j);
    crate::ieee::magnitude_step(f, b);
    lemma_pow2_pos(f.scale(b));
    assert(f.significand(b) >= 1);
    assert(m >= pow2(f.scale(b))) by (nonlinear_arith)
        requires
            m == f.significand(b) * pow2(f.scale(b)),
            f.significand(b) >= 1,
    ;
    let p = 1 * base(f);
    assert(2 * p > f.midpoint(b) * q) by (nonlinear_arith)
        requires
            2 * p > 3 * (m * q),
            f.midpoint(b) <= 3 * m,
    ;
    reading_scaled(f, 1, j);
    crate::ieee::nearest_exists(f, p, q);
    let r = f.rounded(p, q);
    assert(r != b);
    reading_scaled(f, 0, j);
    crate::decimal::zero_is_zero(f, 400 - j);
    assert(0 * base(f) == 0) by (nonlinear_arith);
    assert(m * q < 1 * base(f) && 0 <= m * q);
    neighbours_decide(f, b, j, 0);
}

proof fn ten_is_two_times_five(n: nat) -> (five: nat)
    ensures
        crate::decimal::ten(n) == pow2(n) * five,
    decreases n,
{
    lemma2_to64();
    if n == 0 {
        1
    } else {
        let f = ten_is_two_times_five((n - 1) as nat);
        lemma_pow2_unfold(n);
        let p = pow2((n - 1) as nat);
        assert(10 * (p * f) == (2 * p) * (5 * f)) by (nonlinear_arith);
        5 * f
    }
}

/// At exponent -1074 every value is expressed exactly.
proof fn exact_at_the_end(f: Format, b: nat, lo: nat)
    requires
        b < f.infinity(),
        lo * base(f) <= f.magnitude(b) * crate::decimal::ten(1474) < (lo + 1) * base(f),
    ensures
        reads_back(f, b, lo, -1074),
{
    let m = f.magnitude(b);
    let d = f.depth();
    let rest = pow2((1074 - d) as nat);
    let five = ten_is_two_times_five(1074);
    lemma_pow2_adds(d, (1074 - d) as nat);
    crate::decimal::ten_adds(400, 1074);
    let q = crate::decimal::ten(1474);
    let e = m * rest * five;
    assert(m * q == e * base(f)) by (nonlinear_arith)
        requires
            q == crate::decimal::ten(400) * ((pow2(d) * rest) * five),
            base(f) == crate::decimal::ten(400) * pow2(d),
            e == m * rest * five,
    ;
    crate::decimal::ten_positive(400);
    lemma_pow2_pos(d);
    assert(base(f) > 0) by (nonlinear_arith)
        requires
            base(f) == crate::decimal::ten(400) * pow2(d),
            crate::decimal::ten(400) > 0,
            pow2(d) > 0,
    ;
    assert(lo == e) by (nonlinear_arith)
        requires
            lo * base(f) <= e * base(f) < (lo + 1) * base(f),
            base(f) > 0,
    ;
    crate::decimal::ten_positive(1474);
    crate::ieee::rounding_is_exact(f, b, q);
    reading_scaled(f, lo, 1474);
}

/// ASCII digits without leading zeros.
pub open spec fn well_formed(s: Seq<u8>) -> bool {
    &&& forall|i: int| 0 <= i < s.len() ==> crate::decimal::is_digit(#[trigger] s[i])
    &&& s.len() > 0 ==> s[0] != 48
}

/// The digits of the next number.
fn increment(s: &Vec<u8>) -> (r: Vec<u8>)
    requires
        well_formed(s@),
    ensures
        well_formed(r@),
        crate::decimal::digits_value(r@) == crate::decimal::digits_value(s@) + 1,
        r@.len() > 0,
{
    let mut i: usize = s.len();
    while i > 0 && s[i - 1] == 57
        invariant
            i <= s@.len(),
            forall|k: int| i <= k < s@.len() ==> s@[k] == 57,
        decreases i,
    {
        i -= 1;
    }
    let mut out: Vec<u8> = Vec::new();
    let mut k: usize = 0;
    let ghost v = if i == 0 {
        0nat
    } else {
        crate::decimal::digits_value(s@.take(i as int))
    };
    if i == 0 {
        out.push(49);
        assert(out@.drop_last() =~= Seq::empty());
        assert(s@.take(0) =~= Seq::empty());
        reveal_with_fuel(crate::decimal::digits_value, 2);
    } else {
        while k < i - 1
            invariant
                k <= i - 1,
                i <= s@.len(),
                out@ == s@.take(k as int),
            decreases i - 1 - k,
        {
            out.push(s[k]);
            k += 1;
        }
        assert(crate::decimal::is_digit(s@[i - 1]));
        out.push(s[i - 1] + 1);
        assert(out@.drop_last() =~= s@.take(i - 1));
        assert(s@.take(i as int).drop_last() =~= s@.take(i - 1));
        assert forall|n: int| 0 <= n < out@.len() implies crate::decimal::is_digit(
            #[trigger] out@[n],
        ) by {
            if n < i - 1 {
                assert(out@[n] == s@[n]);
            }
        }
    }
    let mut n: usize = i;
    while n < s.len()
        invariant
            i <= n <= s@.len(),
            forall|k: int| i <= k < s@.len() ==> s@[k] == 57,
            well_formed(out@),
            out@.len() > 0,
            crate::decimal::digits_value(out@) == crate::decimal::digits_value(s@.take(n as int))
                + 1,
        decreases s@.len() - n,
    {
        let ghost before = out@;
        out.push(48);
        assert(out@.drop_last() =~= before);
        assert(s@.take(n + 1).drop_last() =~= s@.take(n as int));
        n += 1;
    }
    assert(s@.take(n as int) =~= s@);
    out
}

/// Digits and exponent of the shortest decimal of a finite value that is not
/// zero.
fn shortest(f: Format, b: u64) -> (r: (Vec<u8>, i32))
    requires
        0 < b < f.infinity(),
    ensures
        coarsest(f, b as nat, r.1 as int),
        well_formed(r.0@),
        r.0@.len() > 0,
        crate::decimal::digits_value(r.0@) == digits_at(f, b as nat, r.1 as int),
        -1074 <= r.1 <= 400,
{
    let ghost m = f.magnitude(b as nat);
    let (unit, depth): (u64, usize) = match f {
        Format::Single => (0x80_0000, 149),
        Format::Double => (0x10_0000_0000_0000, 1074),
    };
    let (sig, scale): (u64, u64) = if b < unit {
        (b, 0)
    } else {
        (unit + b % unit, b / unit - 1)
    };
    assert(scale <= 0xffff_ffff);
    let mut y = BigNat::from_u64(sig);
    y.mul_pow2(scale as usize);
    let mut q = BigNat::from_u64(1);
    let mut x = BigNat::from_u64(1);
    let mut i: u32 = 0;
    while i < 400
        invariant
            i <= 400,
            x@ == crate::decimal::ten(i as nat),
        decreases 400 - i,
    {
        x.mul_add(10, 0);
        i += 1;
    }
    x.mul_pow2(depth);
    let mut twice_x = x.copy();
    twice_x.mul_add(2, 0);
    let mut low = BigNat::from_u64(0);
    let mut digits: Vec<u8> = Vec::new();
    let mut j: u32 = 0;
    proof {
        assert(y@ == m);
        assert(m * 1 == m) by (nonlinear_arith);
        assert(0 * base(f) == 0) by (nonlinear_arith);
        below_everything(f, b as nat);
        base_is_larger(f, b as nat);
    }
    loop
        invariant
            0 < b < f.infinity(),
            m == f.magnitude(b as nat),
            j <= 1474,
            x@ == base(f),
            twice_x@ == 2 * base(f),
            q@ == crate::decimal::ten(j as nat),
            y@ == m * crate::decimal::ten(j as nat),
            low@ == crate::decimal::digits_value(digits@) * base(f),
            low@ <= y@ < low@ + base(f),
            well_formed(digits@),
            forall|k: int| k > 400 - j ==> !#[trigger] expressible(f, b as nat, k),
        decreases 1474 - j,
    {
        let ghost lo = crate::decimal::digits_value(digits@);
        let ghost k = 400 - j;
        proof {
            assert((lo + 1) * base(f) == lo * base(f) + base(f)) by (nonlinear_arith);
            crate::decimal::ten_positive(j as nat);
            reading_scaled(f, lo, j as nat);
            reading_scaled(f, lo + 1, j as nat);
            units_scaled(f, b as nat, j as nat, lo);
            if j == 1474 {
                exact_at_the_end(f, b as nat, lo);
            }
        }
        let mut thrice = y.copy();
        thrice.mul_add(3, 0);
        if twice_x.at_most(&thrice) {
            let mut high = low.copy();
            high.add_to(&x);
            let lower = round(f, &low, &q) == b;
            let upper = round(f, &high, &q) == b;
            assert(lower == reads_back(f, b as nat, lo, k));
            assert(upper == reads_back(f, b as nat, lo + 1, k));
            if lower || upper {
                let mut middle = low.copy();
                middle.mul_add(2, 0);
                middle.add_to(&x);
                let mut twice_y = y.copy();
                twice_y.mul_add(2, 0);
                assert((2 * lo + 1) * base(f) == 2 * (lo * base(f)) + base(f)) by (nonlinear_arith);
                let past = middle.at_most(&twice_y);
                proof {
                    assert(reads_back(f, b as nat, lo, k) || reads_back(f, b as nat, lo + 1, k));
                    assert(expressible(f, b as nat, k));
                }
                if upper && (!lower || past) {
                    let r = increment(&digits);
                    return (r, 400 - j as i32);
                }
                proof {
                    if digits@.len() == 0 {
                        crate::decimal::zero_is_zero(f, k);
                    }
                }
                return (digits, 400 - j as i32);
            }
            proof {
                neighbours_decide(f, b as nat, j as nat, lo);
            }
        } else {
            proof {
                unit_too_large(f, b as nat, j as nat);
            }
        }
        // one more digit
        y.mul_add(10, 0);
        q.mul_add(10, 0);
        low.mul_add(10, 0);
        let mut t: u8 = 0;
        let mut next = low.copy();
        next.add_to(&x);
        proof {
            let c = crate::decimal::ten(j as nat);
            assert((m * c) * 10 == m * (10 * c)) by (nonlinear_arith);
            assert((lo * base(f)) * 10 == (10 * lo + 0) * base(f)) by (nonlinear_arith);
            assert((10 * lo + 0 + 1) * base(f) == (10 * lo + 0) * base(f) + base(f))
                by (nonlinear_arith);
            assert((10 * lo + 10) * base(f) == (10 * lo) * base(f) + 10 * base(f))
                by (nonlinear_arith);
        }
        while t < 9 && next.at_most(&y)
            invariant
                t <= 9,
                x@ == base(f),
                low@ == (10 * lo + t) * base(f),
                next@ == (10 * lo + t + 1) * base(f),
                low@ <= y@ < (10 * lo + 10) * base(f),
            ensures
                t <= 9,
                low@ == (10 * lo + t) * base(f),
                low@ <= y@ < (10 * lo + t + 1) * base(f),
            decreases 9 - t,
        {
            low = next.copy();
            next.add_to(&x);
            t += 1;
            proof {
                assert((10 * lo + t + 1) * base(f) == (10 * lo + t) * base(f) + base(f))
                    by (nonlinear_arith);
            }
        }
        proof {
            assert((10 * lo + t + 1) * base(f) == (10 * lo + t) * base(f) + base(f))
                by (nonlinear_arith);
        }
        let ghost before = digits@;
        if digits.len() > 0 || t > 0 {
            digits.push(48 + t);
            assert(digits@.drop_last() =~= before);
        }
        j += 1;
    }
}

proof fn base_is_larger(f: Format, b: nat)
    requires
        b < f.infinity(),
    ensures
        f.magnitude(b) < base(f),
{
    let d = f.depth();
    let m = f.significand(f.infinity());
    let e = f.scale(f.infinity());
    crate::ieee::magnitude_increases(f, b, f.infinity());
    assert(m <= 0x10_0000_0000_0000 && 52 + e < 1200 + d) by {
        if f == Format::Double {
            assert(m == 0x10_0000_0000_0000 && e == 2046);
        } else {
            assert(m == 0x80_0000 && e == 254);
        }
    }
    lemma2_to64_rest();
    lemma_pow2_adds(52, e);
    crate::decimal::ten_exceeds_eight(400);
    lemma_pow2_adds(1200, d);
    lemma_pow2_strictly_increases(52 + e, 1200 + d);
    assert(m * pow2(e) <= pow2(52) * pow2(e)) by (nonlinear_arith)
        requires
            m <= 0x10_0000_0000_0000,
            pow2(52) == 0x10_0000_0000_0000,
    ;
    assert(base(f) >= pow2(1200) * pow2(d)) by (nonlinear_arith)
        requires
            base(f) == crate::decimal::ten(400) * pow2(d),
            crate::decimal::ten(400) >= pow2(1200),
    ;
}

/// No finite value can be expressed at an exponent beyond 400.
proof fn below_everything(f: Format, b: nat)
    requires
        0 < b < f.infinity(),
    ensures
        forall|k: int| k > 400 ==> !#[trigger] expressible(f, b, k),
{
    assert forall|k: int| k > 400 implies !#[trigger] expressible(f, b, k) by {
        assert forall|d: nat| !#[trigger] reads_back(f, b, d, k) by {
            if d == 0 {
                crate::decimal::zero_is_zero(f, k);
            } else {
                crate::decimal::huge_is_infinite(f, d, k as nat);
            }
        }
    }
}

// ── text ──

/// `n` zeros.
pub open spec fn zeros(n: nat) -> Seq<char> {
    Seq::new(n, |i: int| '0')
}

/// Digits times ten to the `k`, written out without an exponent.
pub open spec fn positional(digits: Seq<char>, k: int) -> Seq<char> {
    if k >= 0 {
        digits + zeros(k as nat)
    } else if digits.len() > -k {
        digits.take(digits.len() + k) + "."@ + digits.skip(digits.len() + k)
    } else {
        "0."@ + zeros((-k - digits.len()) as nat) + digits
    }
}

/// The text of a value with the given sign and pattern: the shortest decimal
/// that reads back.
pub open spec fn text(f: Format, negative: bool, p: nat) -> Seq<char> {
    if p > f.infinity() {
        "NaN"@
    } else {
        (if negative {
            "-"@
        } else {
            Seq::empty()
        }) + (if p == f.infinity() {
            "inf"@
        } else if p == 0 {
            "0"@
        } else {
            positional(crate::text::decimal(shortest_digits(f, p)), shortest_exponent(f, p))
        })
    }
}

/// The text of a double.
pub open spec fn display(bits: u64) -> Seq<char> {
    text(Format::Double, crate::decimal::f64_negative(bits), crate::decimal::pattern(bits))
}

/// The text of an f32.
pub open spec fn display_f32(bits: u32) -> Seq<char> {
    text(Format::Single, crate::ieee::f32_negative(bits), bits as nat % 0x8000_0000)
}

/// The characters of digits.
pub open spec fn chars_of_digits(s: Seq<u8>) -> Seq<char> {
    Seq::new(s.len(), |i: int| s[i] as char)
}

/// Digits without leading zeros are the numeral of their value.
proof fn digits_are_numeral(s: Seq<u8>)
    requires
        well_formed(s),
        s.len() > 0,
    ensures
        chars_of_digits(s) == crate::text::decimal(crate::decimal::digits_value(s)),
        crate::decimal::digits_value(s) > 0,
    decreases s.len(),
{
    let n = crate::decimal::digits_value(s);
    let last = s.last();
    assert(crate::decimal::is_digit(s[s.len() - 1]));
    if s.len() == 1 {
        assert(s.drop_last() =~= Seq::empty());
        assert(crate::decimal::digits_value(s.drop_last()) == 0);
        assert(chars_of_digits(s) =~= seq![crate::text::digit_char(n)]);
    } else {
        let init = s.drop_last();
        assert(init[0] == s[0]);
        digits_are_numeral(init);
        let v = crate::decimal::digits_value(init);
        assert(n / 10 == v && n % 10 == last - 48);
        assert(chars_of_digits(s) =~= chars_of_digits(init).push(
            crate::text::digit_char(n % 10),
        ));
    }
}

fn push_zeros(out: &mut String, n: usize)
    ensures
        final(out)@ == old(out)@ + zeros(n as nat),
{
    let mut i: usize = 0;
    assert(out@ + zeros(0) =~= out@);
    while i < n
        invariant
            i <= n,
            out@ == old(out)@ + zeros(i as nat),
        decreases n - i,
    {
        out.push('0');
        i += 1;
        assert(out@ =~= old(out)@ + zeros(i as nat));
    }
}

fn push_digits(out: &mut String, s: &Vec<u8>, from: usize, to: usize)
    requires
        from <= to <= s@.len(),
    ensures
        final(out)@ == old(out)@ + chars_of_digits(s@).subrange(from as int, to as int),
{
    let mut i: usize = from;
    assert(out@ + chars_of_digits(s@).subrange(from as int, from as int) =~= out@);
    while i < to
        invariant
            from <= i <= to <= s@.len(),
            out@ == old(out)@ + chars_of_digits(s@).subrange(from as int, i as int),
        decreases to - i,
    {
        out.push(s[i] as char);
        i += 1;
        assert(out@ =~= old(out)@ + chars_of_digits(s@).subrange(from as int, i as int));
    }
}

fn push_positional(out: &mut String, digits: &Vec<u8>, k: i32)
    requires
        -1074 <= k <= 400,
    ensures
        final(out)@ == old(out)@ + positional(chars_of_digits(digits@), k as int),
{
    let ghost start = out@;
    let ghost ds = chars_of_digits(digits@);
    let n = digits.len();
    if k >= 0 {
        push_digits(out, digits, 0, n);
        push_zeros(out, k as usize);
        assert(ds.subrange(0, n as int) =~= ds);
        assert(out@ =~= start + (ds + zeros(k as nat)));
    } else {
        let places: usize = (-k) as usize;
        if n > places {
            push_digits(out, digits, 0, n - places);
            out.push_str(".");
            push_digits(out, digits, n - places, n);
            assert(ds.subrange(0, n - places) =~= ds.take(n + k));
            assert(ds.subrange(n - places, n as int) =~= ds.skip(n + k));
            assert(out@ =~= start + (ds.take(n + k) + "."@ + ds.skip(n + k)));
        } else {
            out.push_str("0.");
            push_zeros(out, places - n);
            push_digits(out, digits, 0, n);
            assert(ds.subrange(0, n as int) =~= ds);
            assert(out@ =~= start + ("0."@ + zeros((places - n) as nat) + ds));
        }
    }
}

fn push_text(out: &mut String, f: Format, negative: bool, p: u64)
    ensures
        final(out)@ == old(out)@ + text(f, negative, p as nat),
{
    let ghost start = out@;
    let infinity: u64 = match f {
        Format::Single => 0x7f80_0000,
        Format::Double => 0x7ff0_0000_0000_0000,
    };
    if p > infinity {
        out.push_str("NaN");
        return;
    }
    if negative {
        out.push_str("-");
    }
    let ghost signed = out@;
    let ghost sign = if negative {
        "-"@
    } else {
        Seq::empty()
    };
    assert(signed =~= start + sign);
    if p == infinity {
        out.push_str("inf");
        assert(out@ =~= start + (sign + "inf"@));
        return;
    }
    if p == 0 {
        out.push_str("0");
        assert(out@ =~= start + (sign + "0"@));
        return;
    }
    let (digits, k) = shortest(f, p);
    proof {
        assert(shortest_exponent(f, p as nat) == k);
        digits_are_numeral(digits@);
    }
    push_positional(out, &digits, k);
    assert(out@ =~= start + (sign + positional(chars_of_digits(digits@), k as int)));
}

/// Appends the text of a double.
pub fn push_f64(out: &mut String, bits: u64)
    ensures
        final(out)@ == old(out)@ + display(bits),
{
    push_text(
        out,
        Format::Double,
        bits >= 0x8000_0000_0000_0000,
        bits % 0x8000_0000_0000_0000,
    );
}

/// Appends the text of an f32.
pub fn push_f32(out: &mut String, bits: u32)
    ensures
        final(out)@ == old(out)@ + display_f32(bits),
{
    push_text(out, Format::Single, bits >= 0x8000_0000, (bits % 0x8000_0000) as u64);
}

// ── laws ──

/// Some exponent up to `top` is the coarsest.
proof fn coarsest_below(f: Format, b: nat, top: int)
    requires
        0 < b < f.infinity(),
        -1074 <= top <= 400,
        forall|k: int| k > top ==> !#[trigger] expressible(f, b, k),
    ensures
        exists|k: int| -1074 <= k <= top && #[trigger] coarsest(f, b, k),
    decreases top + 1074,
{
    if expressible(f, b, top) {
        assert(coarsest(f, b, top));
    } else {
        if top == -1074 {
            let y = f.magnitude(b) * crate::decimal::ten(1474);
            let x = base(f);
            base_is_larger(f, b);
            let lo = y / x;
            vstd::arithmetic::div_mod::lemma_fundamental_div_mod(y as int, x as int);
            assert(lo * x <= y < (lo + 1) * x) by (nonlinear_arith)
                requires
                    y == x * lo + y % x,
                    0 <= y % x < x,
            ;
            exact_at_the_end(f, b, lo);
        }
        coarsest_below(f, b, top - 1);
    }
}

/// The shortest decimal of a finite value that is not zero reads back as the
/// value, and no decimal with a larger exponent does.
pub proof fn shortest_reads_back(f: Format, b: nat)
    requires
        0 < b < f.infinity(),
    ensures
        coarsest(f, b, shortest_exponent(f, b)),
        reads_back(f, b, shortest_digits(f, b), shortest_exponent(f, b)),
        shortest_digits(f, b) > 0,
        -1074 <= shortest_exponent(f, b) <= 400,
{
    below_everything(f, b);
    coarsest_below(f, b, 400);
    let k = shortest_exponent(f, b);
    let k0 = choose|k: int| -1074 <= k <= 400 && #[trigger] coarsest(f, b, k);
    assert(coarsest(f, b, k));
    assert(k == k0) by {
        assert(expressible(f, b, k) && expressible(f, b, k0));
    }
    let j = (400 - k) as nat;
    let y = f.magnitude(b) * crate::decimal::ten(j);
    let x = base(f);
    base_is_larger(f, b);
    let lo = y / x;
    vstd::arithmetic::div_mod::lemma_fundamental_div_mod(y as int, x as int);
    assert(lo * x <= y < (lo + 1) * x) by (nonlinear_arith)
        requires
            y == x * lo + y % x,
            0 <= y % x < x,
    ;
    units_scaled(f, b, j, lo);
    if !reads_back(f, b, lo, k) && !reads_back(f, b, lo + 1, k) {
        neighbours_decide(f, b, j, lo);
    }
    crate::decimal::zero_is_zero(f, k);
}

proof fn reading_is_monotone(f: Format, c: nat, d: nat, k: int)
    requires
        c <= d,
    ensures
        crate::decimal::nearest_value(f, c, k) <= crate::decimal::nearest_value(f, d, k),
{
    let u = pow2(f.depth());
    if k >= 0 {
        let t = crate::decimal::ten(k as nat);
        assert(c * t * u <= d * t * u) by (nonlinear_arith)
            requires
                c <= d,
        ;
        crate::ieee::rounding_is_monotone(f, c * t * u, d * t * u, 1);
    } else {
        crate::decimal::ten_positive((-k) as nat);
        assert(c * u <= d * u) by (nonlinear_arith)
            requires
                c <= d,
        ;
        crate::ieee::rounding_is_monotone(f, c * u, d * u, crate::decimal::ten((-k) as nat));
    }
}

/// Of the decimals as short that read back, the shortest decimal is a closest one to the
/// value.
pub proof fn shortest_is_closest(f: Format, b: nat, d: nat)
    requires
        0 < b < f.infinity(),
        reads_back(f, b, d, shortest_exponent(f, b)),
    ensures
        ({
            let (value, unit) = units(f, b, shortest_exponent(f, b));
            let s = shortest_digits(f, b);
            &&& s < d ==> value - s * unit <= d * unit - value
            &&& s > d ==> s * unit - value <= value - d * unit
        }),
{
    let k = shortest_exponent(f, b);
    let (y, x) = units(f, b, k);
    let s = shortest_digits(f, b);
    let lo = y / x;
    shortest_reads_back(f, b);
    lemma_pow2_pos(f.depth());
    if k >= 0 {
        let t = crate::decimal::ten(k as nat);
        let u = pow2(f.depth());
        crate::decimal::ten_positive(k as nat);
        assert(t * u > 0) by (nonlinear_arith)
            requires
                t > 0,
                u > 0,
        ;
    }
    vstd::arithmetic::div_mod::lemma_fundamental_div_mod(y as int, x as int);
    assert(lo * x <= y < (lo + 1) * x && (2 * lo + 1) * x == lo * x + (lo + 1) * x) by (
    nonlinear_arith)
        requires
            y == x * lo + y % x,
            0 <= y % x < x,
    ;
    assert(s == lo || s == lo + 1);
    let below = (lo * x) as int;
    let above = ((lo + 1) * x) as int;
    let other = (d * x) as int;
    assert(d >= lo + 1 ==> other >= above) by (nonlinear_arith)
        requires
            above == (lo + 1) * x,
            other == d * x,
    ;
    assert(d <= lo ==> other <= below) by (nonlinear_arith)
        requires
            below == lo * x,
            other == d * x,
    ;
    assert(s * x == if s == lo {
        below
    } else {
        above
    });
    if s == lo && d > s {
        reading_is_monotone(f, lo, lo + 1, k);
        reading_is_monotone(f, lo + 1, d, k);
        assert(reads_back(f, b, lo + 1, k));
        assert(2 * y < below + above);
    }
    if s == lo + 1 && d < s {
        reading_is_monotone(f, d, lo, k);
        reading_is_monotone(f, lo, lo + 1, k);
        assert(reads_back(f, b, lo, k));
        assert(2 * y >= below + above);
    }
}

} // verus!
