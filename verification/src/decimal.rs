//! Decimal numerals and double-precision numbers: reading with correct rounding,
//! narrowing, truncation.

use vstd::arithmetic::power2::*;
use vstd::prelude::*;

use crate::bignat::{BigNat, Order};
use crate::ieee::{round, Format};

verus! {

// ── numerals ──

/// Whether a byte is a decimal digit.
pub open spec fn is_digit(c: u8) -> bool {
    48 <= c <= 57
}

/// The number spelled by decimal digits.
pub open spec fn digits_value(s: Seq<u8>) -> nat
    decreases s.len(),
{
    if s.len() == 0 {
        0
    } else {
        10 * digits_value(s.drop_last()) + (s.last() - 48) as nat
    }
}

/// The first position from `i` on that holds no digit.
pub open spec fn digits_end(s: Seq<u8>, i: int) -> int
    decreases s.len() - i,
{
    if 0 <= i < s.len() && is_digit(s[i]) {
        digits_end(s, i + 1)
    } else {
        i
    }
}

/// The position after an optional sign at `i`.
pub open spec fn sign_end(s: Seq<u8>, i: int) -> int {
    if i < s.len() && (s[i] == 43 || s[i] == 45) {
        i + 1
    } else {
        i
    }
}

/// A decimal numeral: `digits` times ten to the `exponent`.
pub struct Decimal {
    pub negative: bool,
    pub digits: Seq<u8>,
    pub exponent: int,
}

/// The exponent part at the end of a numeral: empty, or `e` with an optional
/// sign and digits.
pub open spec fn exponent_at(s: Seq<u8>, i: int) -> Option<int> {
    if i == s.len() {
        Some(0)
    } else if s[i] == 101 || s[i] == 69 {
        let j = sign_end(s, i + 1);
        let k = digits_end(s, j);
        if k == j || k != s.len() {
            None
        } else if s[i + 1] == 45 {
            Some(-(digits_value(s.subrange(j, k)) as int))
        } else {
            Some(digits_value(s.subrange(j, k)) as int)
        }
    } else {
        None
    }
}

/// Reads a numeral: optional sign, digits with an optional point (at least one
/// digit before or after it), optional exponent.
pub open spec fn decimal(s: Seq<u8>) -> Option<Decimal> {
    let start = sign_end(s, 0);
    let whole = digits_end(s, start);
    let end = if whole < s.len() && s[whole] == 46 {
        digits_end(s, whole + 1)
    } else {
        whole
    };
    let fraction = if end > whole {
        s.subrange(whole + 1, end)
    } else {
        Seq::empty()
    };
    let digits = s.subrange(start, whole) + fraction;
    if digits.len() == 0 {
        None
    } else {
        match exponent_at(s, end) {
            None => None,
            Some(e) => Some(
                Decimal {
                    negative: s[0] == 45,
                    digits,
                    exponent: e - fraction.len(),
                },
            ),
        }
    }
}

/// Ten to the power `n`.
pub open spec fn ten(n: nat) -> nat
    decreases n,
{
    if n == 0 {
        1
    } else {
        10 * ten((n - 1) as nat)
    }
}

/// The value nearest to `n` times ten to the `exponent`, without sign.
pub open spec fn nearest_value(f: Format, n: nat, exponent: int) -> nat {
    if exponent >= 0 {
        f.rounded(n * ten(exponent as nat) * pow2(f.depth()), 1)
    } else {
        f.rounded(n * pow2(f.depth()), ten((-exponent) as nat))
    }
}

impl Decimal {
    /// Bit pattern of the double nearest to the numeral.
    pub open spec fn double(self) -> u64 {
        ((if self.negative {
            0x8000_0000_0000_0000nat
        } else {
            0nat
        }) + nearest_value(
            Format::Double,
            digits_value(self.digits),
            self.exponent,
        )) as u64
    }
}

// ── bounds ──

pub proof fn ten_positive(n: nat)
    ensures
        ten(n) > 0,
    decreases n,
{
    if n > 0 {
        ten_positive((n - 1) as nat);
    }
}

pub proof fn ten_adds(a: nat, b: nat)
    ensures
        ten(a + b) == ten(a) * ten(b),
    decreases a,
{
    if a == 0 {
        assert(1 * ten(b) == ten(b)) by (nonlinear_arith);
    } else {
        ten_adds((a - 1) as nat, b);
        assert(a + b - 1 == (a - 1) + b);
        let x = ten((a - 1) as nat);
        let y = ten(b);
        assert(10 * (x * y) == (10 * x) * y) by (nonlinear_arith);
    }
}

pub proof fn ten_exceeds_eight(n: nat)
    ensures
        ten(n) >= pow2(3 * n),
    decreases n,
{
    lemma2_to64();
    if n > 0 {
        ten_exceeds_eight((n - 1) as nat);
        lemma_pow2_adds(3, (3 * (n - 1)) as nat);
        assert(3 + 3 * (n - 1) == 3 * n);
    }
}

proof fn digits_bound(s: Seq<u8>)
    requires
        forall|i: int| 0 <= i < s.len() ==> is_digit(#[trigger] s[i]),
    ensures
        digits_value(s) < ten(s.len()),
    decreases s.len(),
{
    if s.len() > 0 {
        digits_bound(s.drop_last());
        assert(is_digit(s[s.len() - 1]));
    }
}

/// Beyond 10^400 everything rounds to infinity.
pub proof fn huge_is_infinite(f: Format, n: nat, exponent: nat)
    requires
        n > 0,
        exponent > 400,
    ensures
        nearest_value(f, n, exponent as int) == f.infinity(),
{
    let d = f.depth();
    let p = n * ten(exponent) * pow2(d);
    let top = (f.infinity() - 1) as nat;
    ten_exceeds_eight(exponent);
    if 3 * exponent > 1203 {
        lemma_pow2_strictly_increases(1203, 3 * exponent);
    }
    assert(n * ten(exponent) >= pow2(1203)) by (nonlinear_arith)
        requires
            n >= 1,
            ten(exponent) >= pow2(1203),
    ;
    lemma_pow2_adds(1203, d);
    assert(p >= pow2(1203) * pow2(d)) by (nonlinear_arith)
        requires
            p == n * ten(exponent) * pow2(d),
            n * ten(exponent) >= pow2(1203),
    ;
    let m = (2 * f.significand(top) + 1) as nat;
    let e = f.scale(top);
    assert(m <= 0x40_0000_0000_0000 && e < 1203 + d - 54) by {
        if f == Format::Double {
            assert(f.significand(top) == 0x1f_ffff_ffff_ffff && e == 2045);
        } else {
            assert(f.significand(top) == 0xff_ffff && e == 253);
        }
    }
    lemma2_to64();
    lemma2_to64_rest();
    lemma_pow2_adds(54, e);
    lemma_pow2_strictly_increases(54 + e, 1203 + d);
    lemma_pow2_pos(e);
    assert(f.midpoint(top) * 1 <= pow2(54) * pow2(e)) by (nonlinear_arith)
        requires
            f.midpoint(top) == m * pow2(e),
            m <= 0x40_0000_0000_0000,
            pow2(54) == 0x40_0000_0000_0000,
    ;
    assert(f.nearest(p, 1, f.infinity()));
    crate::ieee::nearest_is_unique(f, p, 1, f.infinity(), f.rounded(p, 1));
}

/// Below 10^-400 everything rounds to zero.
proof fn tiny_is_zero(f: Format, n: nat, len: nat, exponent: int)
    requires
        n < ten(len),
        len + exponent < -400,
    ensures
        nearest_value(f, n, exponent) == 0,
{
    let d = f.depth();
    let k = (-exponent) as nat;
    let p = n * pow2(d);
    let q = ten(k);
    let rest = (k - len) as nat;
    ten_positive(k);
    ten_adds(len, rest);
    ten_exceeds_eight(rest);
    lemma_pow2_strictly_increases(d + 1, 3 * rest);
    lemma_pow2_unfold(d + 1);
    lemma2_to64();
    assert(2 * p <= f.midpoint(0) * q) by (nonlinear_arith)
        requires
            p == n * pow2(d),
            q == ten(len) * ten(rest),
            n < ten(len),
            ten(rest) >= 2 * pow2(d),
            f.midpoint(0) == 1 * pow2(0),
            pow2(0) == 1,
    ;
    assert(f.nearest(p, q, 0));
    crate::ieee::nearest_is_unique(f, p, q, 0, f.rounded(p, q));
}

// ── reading ──

fn scan_digits(s: &[u8], from: usize) -> (r: usize)
    requires
        from <= s@.len(),
    ensures
        r == digits_end(s@, from as int),
        from <= r <= s@.len(),
        forall|i: int| from <= i < r ==> is_digit(#[trigger] s@[i]),
{
    let mut i: usize = from;
    while i < s.len() && 48 <= s[i] && s[i] <= 57
        invariant
            from <= i <= s@.len(),
            digits_end(s@, from as int) == digits_end(s@, i as int),
            forall|k: int| from <= k < i ==> is_digit(#[trigger] s@[k]),
        decreases s@.len() - i,
    {
        i += 1;
    }
    i
}

fn scan_sign(s: &[u8], from: usize) -> (r: usize)
    requires
        from <= s@.len(),
    ensures
        r == sign_end(s@, from as int),
        from <= r <= s@.len(),
{
    if from < s.len() && (s[from] == 43 || s[from] == 45) {
        from + 1
    } else {
        from
    }
}

/// Ten to the thirtieth: exponents are counted no further.
const FAR: i128 = 1_000_000_000_000_000_000_000_000_000_000;

fn capped_value(s: &[u8], from: usize, to: usize) -> (r: i128)
    requires
        from <= to <= s@.len(),
        forall|i: int| from <= i < to ==> is_digit(#[trigger] s@[i]),
    ensures
        0 <= r <= FAR,
        r == (if digits_value(s@.subrange(from as int, to as int)) <= FAR {
            digits_value(s@.subrange(from as int, to as int)) as int
        } else {
            FAR as int
        }),
{
    let mut v: i128 = 0;
    let mut i: usize = from;
    while i < to
        invariant
            from <= i <= to <= s@.len(),
            0 <= v <= FAR,
            forall|i: int| from <= i < to ==> is_digit(#[trigger] s@[i]),
            v == (if digits_value(s@.subrange(from as int, i as int)) <= FAR {
                digits_value(s@.subrange(from as int, i as int)) as int
            } else {
                FAR as int
            }),
        decreases to - i,
    {
        assert(s@.subrange(from as int, i + 1).drop_last() =~= s@.subrange(from as int, i as int));
        assert(is_digit(s@[i as int]));
        let next: i128 = 10 * v + (s[i] - 48) as i128;
        v = if next <= FAR {
            next
        } else {
            FAR
        };
        i += 1;
    }
    v
}

/// Reads the digits of a range into a number, after those already read.
fn push_digits(n: &mut BigNat, s: &[u8], from: usize, to: usize, Ghost(before): Ghost<Seq<u8>>)
    requires
        from <= to <= s@.len(),
        forall|i: int| from <= i < to ==> is_digit(#[trigger] s@[i]),
        old(n)@ == digits_value(before),
    ensures
        final(n)@ == digits_value(before + s@.subrange(from as int, to as int)),
{
    let mut i: usize = from;
    assert(before + s@.subrange(from as int, from as int) =~= before);
    while i < to
        invariant
            from <= i <= to <= s@.len(),
            forall|i: int| from <= i < to ==> is_digit(#[trigger] s@[i]),
            n@ == digits_value(before + s@.subrange(from as int, i as int)),
        decreases to - i,
    {
        assert(is_digit(s@[i as int]));
        n.mul_add(10, (s[i] - 48) as u64);
        assert((before + s@.subrange(from as int, i + 1)).drop_last() =~= before + s@.subrange(
            from as int,
            i as int,
        ));
        i += 1;
    }
}

fn times_ten(n: &mut BigNat, k: u128)
    ensures
        final(n)@ == old(n)@ * ten(k as nat),
{
    let mut i: u128 = 0;
    let ghost v = n@;
    assert(v * 1 == v) by (nonlinear_arith);
    while i < k
        invariant
            i <= k,
            n@ == v * ten(i as nat),
        decreases k - i,
    {
        n.mul_add(10, 0);
        proof {
            let x = ten(i as nat);
            assert((v * x) * 10 == v * (10 * x)) by (nonlinear_arith);
        }
        i += 1;
    }
}

/// A numeral in the course of being read.
struct Numeral {
    negative: bool,
    n: BigNat,
    /// Number of digits.
    count: i128,
    /// Power of ten.
    scale: i128,
}

/// The power of ten as it is counted: exactly, or only as being far away.
spec fn counted(scale: int, exponent: int) -> bool {
    ||| scale == exponent
    ||| scale > FAR / 2 && exponent > FAR / 2
    ||| scale < -(FAR / 2) && exponent < -(FAR / 2)
}

spec fn reads_as(m: Numeral, d: Decimal) -> bool {
    &&& m.negative == d.negative
    &&& m.n@ == digits_value(d.digits)
    &&& m.n@ < ten(d.digits.len())
    &&& m.count == d.digits.len()
    &&& 0 <= m.count <= FAR / 100
    &&& counted(m.scale as int, d.exponent)
    &&& -2 * FAR <= m.scale <= 2 * FAR
}

fn read_numeral(s: &[u8]) -> (r: Option<Numeral>)
    ensures
        match decimal(s@) {
            Some(d) => r matches Some(m) && reads_as(m, d),
            None => r is None,
        },
{
    let len = s.len();
    let start = scan_sign(s, 0);
    let whole = scan_digits(s, start);
    let end = if whole < len && s[whole] == 46 {
        scan_digits(s, whole + 1)
    } else {
        whole
    };
    let fraction: usize = if end > whole {
        end - whole - 1
    } else {
        0
    };
    if whole == start && fraction == 0 {
        return None;
    }
    let exponent: i128 = if end == len {
        0
    } else if s[end] == 101 || s[end] == 69 {
        let j = scan_sign(s, end + 1);
        let k = scan_digits(s, j);
        if k == j || k != len {
            return None;
        }
        let v = capped_value(s, j, k);
        if s[end + 1] == 45 {
            -v
        } else {
            v
        }
    } else {
        return None;
    };
    let ghost d = decimal(s@)->Some_0;
    let ghost first = s@.subrange(start as int, whole as int);
    let mut n = BigNat::from_u64(0);
    push_digits(&mut n, s, start, whole, Ghost(Seq::empty()));
    assert(Seq::<u8>::empty() + first =~= first);
    if end > whole {
        push_digits(&mut n, s, whole + 1, end, Ghost(first));
    } else {
        assert(first + Seq::<u8>::empty() =~= first);
    }
    proof {
        assert(n@ == digits_value(d.digits));
        digits_bound(d.digits);
    }
    Some(
        Numeral {
            negative: s[0] == 45,
            n,
            count: (whole - start) as i128 + fraction as i128,
            scale: exponent - fraction as i128,
        },
    )
}

fn nearest(m: Numeral, Ghost(exponent): Ghost<int>) -> (r: u64)
    requires
        m.n@ < ten(m.count as nat),
        0 <= m.count <= FAR / 100,
        counted(m.scale as int, exponent),
        -2 * FAR <= m.scale <= 2 * FAR,
    ensures
        r == nearest_value(Format::Double, m.n@, exponent),
        r <= 0x7ff0_0000_0000_0000,
{
    let zero = BigNat::from_u64(0);
    if let Order::Same = m.n.order(&zero) {
        proof {
            zero_is_zero(Format::Double, exponent);
        }
        return 0;
    }
    if m.scale > 400 {
        proof {
            huge_is_infinite(Format::Double, m.n@, exponent as nat);
        }
        return 0x7ff0_0000_0000_0000;
    }
    if m.count + m.scale < -400 {
        proof {
            tiny_is_zero(Format::Double, m.n@, m.count as nat, exponent);
        }
        return 0;
    }
    let mut n = m.n;
    let mut q = BigNat::from_u64(1);
    if m.scale >= 0 {
        times_ten(&mut n, m.scale as u128);
    } else {
        let ghost t = ten((-m.scale) as nat);
        times_ten(&mut q, (-m.scale) as u128);
        proof {
            ten_positive((-m.scale) as nat);
            assert(1 * t == t) by (nonlinear_arith);
        }
    }
    n.mul_pow2(1074);
    round(Format::Double, &n, &q)
}

/// Reads a numeral and gives the bit pattern of the nearest double; `None` when
/// the bytes are no numeral.
pub fn parse_f64(s: &[u8]) -> (r: Option<u64>)
    ensures
        match decimal(s@) {
            Some(d) => r matches Some(bits) && bits == d.double(),
            None => r is None,
        },
{
    let m = match read_numeral(s) {
        None => {
            return None;
        },
        Some(m) => m,
    };
    let negative = m.negative;
    let magnitude = nearest(m, Ghost(decimal(s@)->Some_0.exponent));
    Some(if negative {
        0x8000_0000_0000_0000 + magnitude
    } else {
        magnitude
    })
}

pub proof fn zero_is_zero(f: Format, exponent: int)
    ensures
        nearest_value(f, 0, exponent) == 0,
{
    lemma2_to64();
    lemma_pow2_pos(0);
    if exponent >= 0 {
        assert(0 * ten(exponent as nat) * pow2(f.depth()) == 0) by (nonlinear_arith);
        assert(f.nearest(0, 1, 0));
        crate::ieee::nearest_is_unique(f, 0, 1, 0, f.rounded(0, 1));
    } else {
        let q = ten((-exponent) as nat);
        ten_positive((-exponent) as nat);
        assert(0 * pow2(f.depth()) == 0) by (nonlinear_arith);
        assert(f.midpoint(0) * q >= 0) by (nonlinear_arith);
        assert(f.nearest(0, q, 0));
        crate::ieee::nearest_is_unique(f, 0, q, 0, f.rounded(0, q));
    }
}

// ── doubles ──

/// A double without its sign.
pub open spec fn pattern(bits: u64) -> nat {
    bits as nat % 0x8000_0000_0000_0000
}

/// Sign bit of a double.
pub open spec fn f64_negative(bits: u64) -> bool {
    bits >= 0x8000_0000_0000_0000
}

/// Not a number.
pub open spec fn f64_nan(bits: u64) -> bool {
    pattern(bits) > Format::Double.infinity()
}

/// Absolute value, in units of 2^-1074.
pub open spec fn f64_magnitude(bits: u64) -> nat {
    Format::Double.magnitude(pattern(bits))
}

fn parts(bits: u64) -> (r: (u64, u64))
    ensures
        r.0 == Format::Double.significand(pattern(bits)),
        r.1 == Format::Double.scale(pattern(bits)),
        r.0 < 0x20_0000_0000_0000,
        r.1 <= 2046,
        r.1 > 0 ==> r.0 >= 0x10_0000_0000_0000,
{
    let m: u64 = bits % 0x8000_0000_0000_0000;
    if m < 0x10_0000_0000_0000 {
        (m, 0)
    } else {
        (0x10_0000_0000_0000 + m % 0x10_0000_0000_0000, m / 0x10_0000_0000_0000 - 1)
    }
}

/// Bit pattern of the f32 nearest to a double; NaN becomes the quiet NaN of the
/// same sign.
pub open spec fn narrowed(bits: u64) -> nat {
    let sign: nat = if f64_negative(bits) {
        0x8000_0000
    } else {
        0
    };
    if f64_nan(bits) {
        sign + 0x7fc0_0000
    } else {
        sign + Format::Single.rounded(f64_magnitude(bits), pow2(925))
    }
}

/// Narrows a double to the nearest f32.
pub fn narrow(bits: u64) -> (r: u32)
    ensures
        r == narrowed(bits),
{
    let sign: u32 = if bits >= 0x8000_0000_0000_0000 {
        0x8000_0000
    } else {
        0
    };
    if bits % 0x8000_0000_0000_0000 > 0x7ff0_0000_0000_0000 {
        return sign + 0x7fc0_0000;
    }
    let (m, scale) = parts(bits);
    let mut p = BigNat::from_u64(m);
    p.mul_pow2(scale as usize);
    let mut q = BigNat::from_u64(1);
    q.mul_pow2(925);
    proof {
        lemma_pow2_pos(925);
        assert(1 * pow2(925) == pow2(925)) by (nonlinear_arith);
    }
    sign + round(Format::Single, &p, &q) as u32
}

/// The integer part of the absolute value of a double.
pub open spec fn integer_part(bits: u64) -> nat {
    f64_magnitude(bits) / pow2(1074)
}

/// The double is an integer.
pub open spec fn integral(bits: u64) -> bool {
    f64_magnitude(bits) % pow2(1074) == 0
}

proof fn scaled_division(m: nat, scale: nat)
    ensures
        scale >= 1074 ==> (m * pow2(scale)) / pow2(1074) == m * pow2((scale - 1074) as nat) && (m
            * pow2(scale)) % pow2(1074) == 0,
        scale < 1074 ==> (m * pow2(scale)) / pow2(1074) == m / pow2((1074 - scale) as nat) && ((m
            * pow2(scale)) % pow2(1074) == 0 <==> m % pow2((1074 - scale) as nat) == 0),
{
    let u = pow2(1074);
    lemma_pow2_pos(1074);
    lemma_pow2_pos(scale);
    if scale >= 1074 {
        let k = pow2((scale - 1074) as nat);
        lemma_pow2_adds(1074, (scale - 1074) as nat);
        assert(m * (u * k) == u * (m * k)) by (nonlinear_arith);
        vstd::arithmetic::div_mod::lemma_div_multiples_vanish((m * k) as int, u as int);
        vstd::arithmetic::div_mod::lemma_mod_multiples_basic((m * k) as int, u as int);
        assert((m * k) * u == u * (m * k)) by (nonlinear_arith);
    } else {
        let d = (1074 - scale) as nat;
        let c = pow2(d);
        let s = pow2(scale);
        lemma_pow2_pos(d);
        lemma_pow2_adds(scale, d);
        vstd::arithmetic::div_mod::lemma_fundamental_div_mod(m as int, c as int);
        let a = m / c;
        let r = m % c;
        assert(m * s == u * a + r * s) by (nonlinear_arith)
            requires
                m == c * a + r,
                u == s * c,
        ;
        assert(0 <= r * s < u) by (nonlinear_arith)
            requires
                0 <= r < c,
                s > 0,
                u == s * c,
        ;
        vstd::arithmetic::div_mod::lemma_fundamental_div_mod_converse(
            (m * s) as int,
            u as int,
            a as int,
            (r * s) as int,
        );
        assert(r * s == 0 <==> r == 0) by (nonlinear_arith)
            requires
                s > 0,
                r >= 0,
        ;
    }
}

/// The integer part of the absolute value, at most `u64::MAX`, and whether
/// nothing is lost.
fn truncated(bits: u64) -> (r: (u64, bool))
    ensures
        r.0 == (if integer_part(bits) <= u64::MAX {
            integer_part(bits)
        } else {
            u64::MAX as nat
        }),
        r.1 == integral(bits),
{
    let (m, scale) = parts(bits);
    proof {
        scaled_division(m as nat, scale as nat);
        lemma2_to64();
        lemma2_to64_rest();
    }
    if scale >= 1074 {
        let k: u64 = scale - 1074;
        if k >= 12 {
            proof {
                if k > 12 {
                    lemma_pow2_strictly_increases(12, k as nat);
                }
                assert(m * pow2(k as nat) >= 0x1_0000_0000_0000_0000) by (nonlinear_arith)
                    requires
                        m >= 0x10_0000_0000_0000,
                        pow2(k as nat) >= 0x1000,
                ;
            }
            (u64::MAX, true)
        } else {
            proof {
                if k < 11 {
                    lemma_pow2_strictly_increases(k as nat, 11);
                }
                assert(m * pow2(k as nat) < 0x1_0000_0000_0000_0000) by (nonlinear_arith)
                    requires
                        m < 0x20_0000_0000_0000,
                        0 < pow2(k as nat) <= 0x800,
                ;
                vstd::bits::lemma_u64_shl_is_mul(m, k);
            }
            (m << k, true)
        }
    } else {
        let k: u64 = 1074 - scale;
        if k >= 64 {
            proof {
                if k > 64 {
                    lemma_pow2_strictly_increases(64, k as nat);
                }
                vstd::arithmetic::div_mod::lemma_small_mod(m as nat, pow2(k as nat));
                vstd::arithmetic::div_mod::lemma_basic_div(m as int, pow2(k as nat) as int);
            }
            (0, m == 0)
        } else {
            proof {
                vstd::bits::lemma_u64_shr_is_div(m, k);
                vstd::arithmetic::div_mod::lemma_fundamental_div_mod(
                    m as int,
                    pow2(k as nat) as int,
                );
                lemma_pow2_pos(k as nat);
            }
            let t: u64 = m >> k;
            proof {
                assert(t * pow2(k as nat) <= m) by (nonlinear_arith)
                    requires
                        t == m as nat / pow2(k as nat),
                        m == pow2(k as nat) * (m as nat / pow2(k as nat)) + m as nat % pow2(
                            k as nat,
                        ),
                        0 <= m as nat % pow2(k as nat),
                ;
                vstd::bits::lemma_u64_shl_is_mul(t, k);
                assert(t * pow2(k as nat) == pow2(k as nat) * t) by (nonlinear_arith);
            }
            (t, t << k == m)
        }
    }
}

/// The double converted to an unsigned number up to `max`: toward zero, within
/// the range, NaN to zero.
pub open spec fn clamped(bits: u64, max: nat) -> nat {
    if f64_negative(bits) || f64_nan(bits) {
        0
    } else if integer_part(bits) <= max {
        integer_part(bits)
    } else {
        max
    }
}

/// Converts a double to an unsigned 64-bit number.
pub fn f64_to_u64(bits: u64) -> (r: u64)
    ensures
        r == clamped(bits, u64::MAX as nat),
{
    if bits >= 0x8000_0000_0000_0000 || bits % 0x8000_0000_0000_0000 > 0x7ff0_0000_0000_0000 {
        return 0;
    }
    truncated(bits).0
}

/// Converts a double to a size.
pub fn f64_to_usize(bits: u64) -> (r: usize)
    ensures
        r == clamped(bits, usize::MAX as nat),
{
    let t = f64_to_u64(bits);
    if t <= usize::MAX as u64 {
        t as usize
    } else {
        usize::MAX
    }
}

/// The absolute value of a double that is an integer below 9·10^15.
pub fn small_integer(bits: u64) -> (r: Option<u64>)
    ensures
        match r {
            Some(n) => integral(bits) && integer_part(bits) < 9_000_000_000_000_000 && n
                == integer_part(bits),
            None => !integral(bits) || integer_part(bits) >= 9_000_000_000_000_000,
        },
{
    let (t, exact) = truncated(bits);
    if exact && t < 9_000_000_000_000_000 {
        Some(t)
    } else {
        None
    }
}

// ── laws of conversions ──

/// A double between a whole number and the next converts to the whole number, as long as
/// it is not negative and there is room.
pub proof fn conversions_drop_the_fraction(bits: u64, n: nat, max: nat)
    requires
        !f64_negative(bits),
        !f64_nan(bits),
        n * pow2(1074) <= f64_magnitude(bits) < (n + 1) * pow2(1074),
    ensures
        n <= max ==> clamped(bits, max) == n,
        n > max ==> clamped(bits, max) == max,
{
    let u = pow2(1074) as int;
    let m = f64_magnitude(bits) as int;
    lemma_pow2_pos(1074);
    let r = m - n * u;
    assert(m == u * n + r && 0 <= r < u) by (nonlinear_arith)
        requires
            r == m - n * u,
            n * u <= m < (n + 1) * u,
    ;
    vstd::arithmetic::div_mod::lemma_fundamental_div_mod_converse(m, u, n as int, r);
}

/// Negative numbers convert to zero.
pub proof fn negative_numbers_convert_to_zero(bits: u64, max: nat)
    requires
        bits >= 0x8000_0000_0000_0000,
    ensures
        clamped(bits, max) == 0,
{
}

/// A double is narrowed to the nearest f32 with the same sign.
pub proof fn narrowing_is_nearest(bits: u64)
    requires
        pattern(bits) <= 0x7ff0_0000_0000_0000,
    ensures
        narrowed(bits) <= u32::MAX,
        (narrowed(bits) >= 0x8000_0000) == (bits >= 0x8000_0000_0000_0000),
        Format::Single.nearest(f64_magnitude(bits), pow2(925), narrowed(bits) % 0x8000_0000),
{
    crate::ieee::nearest_exists(Format::Single, f64_magnitude(bits), pow2(925));
}

// ── laws of numerals ──

proof fn digits_end_at(s: Seq<u8>, i: int, k: int)
    requires
        0 <= i <= k <= s.len(),
        forall|j: int| i <= j < k ==> is_digit(#[trigger] s[j]),
        k < s.len() ==> !is_digit(s[k]),
    ensures
        digits_end(s, i) == k,
    decreases k - i,
{
    if i < k {
        assert(is_digit(s[i]));
        digits_end_at(s, i + 1, k);
    }
}

/// A numeral stands for its digits, without the point, times ten to an exponent: the
/// stated one, less one for every digit behind the point.
pub proof fn numerals_shift_by_the_point(
    negative: bool,
    whole: Seq<u8>,
    fraction: Seq<u8>,
    down: bool,
    power: Seq<u8>,
)
    requires
        forall|i: int| 0 <= i < whole.len() ==> is_digit(#[trigger] whole[i]),
        forall|i: int| 0 <= i < fraction.len() ==> is_digit(#[trigger] fraction[i]),
        forall|i: int| 0 <= i < power.len() ==> is_digit(#[trigger] power[i]),
        whole.len() + fraction.len() > 0,
        power.len() > 0,
    ensures
        ({
            let minus = seq!['-' as u8];
            let sign = if negative {
                minus
            } else {
                Seq::empty()
            };
            let direction = if down {
                minus
            } else {
                Seq::empty()
            };
            let e = if down {
                -(digits_value(power) as int)
            } else {
                digits_value(power) as int
            };
            decimal(
                sign + whole + seq!['.' as u8] + fraction + seq!['e' as u8] + direction + power,
            ) == Some(Decimal { negative, digits: whole + fraction, exponent: e - fraction.len() })
        }),
{
    let minus = seq!['-' as u8];
    let sign = if negative {
        minus
    } else {
        Seq::empty()
    };
    let direction = if down {
        minus
    } else {
        Seq::empty()
    };
    let s = sign + whole + seq!['.' as u8] + fraction + seq!['e' as u8] + direction + power;
    let a = sign.len() as int;
    let b = a + whole.len();
    let c = b + 1 + fraction.len();
    let d = c + 1 + direction.len();
    assert forall|j: int| a <= j < b implies is_digit(#[trigger] s[j]) by {
        assert(s[j] == whole[j - a]);
    }
    assert(s[b] == '.' as u8);
    assert forall|j: int| b + 1 <= j < c implies is_digit(#[trigger] s[j]) by {
        assert(s[j] == fraction[j - b - 1]);
    }
    assert(s[c] == 'e' as u8);
    assert forall|j: int| d <= j < s.len() implies is_digit(#[trigger] s[j]) by {
        assert(s[j] == power[j - d]);
    }
    assert(down ==> s[c + 1] == '-' as u8);
    assert(is_digit(s[d]));
    assert(negative ==> s[0] == '-' as u8);
    assert(!negative ==> s[0] == '.' as u8 || is_digit(s[0]));
    assert(sign_end(s, 0) == a);
    assert(sign_end(s, c + 1) == d);
    digits_end_at(s, a, b);
    digits_end_at(s, b + 1, c);
    digits_end_at(s, d, s.len() as int);
    assert(s.subrange(a, b) =~= whole);
    assert(s.subrange(b + 1, c) =~= fraction);
    assert(s.subrange(d, s.len() as int) =~= power);
}

} // verus!
