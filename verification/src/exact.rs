//! Exact arithmetic on the numbers that quantized weights are made of.
//!
//! A finite half-precision number is a whole number of 2^-24. So are its products
//! with integers and their differences: they are computed exactly and rounded
//! once, to the nearest f32.

use vstd::arithmetic::power2::*;
use vstd::prelude::*;

use crate::float::round_scaled;
use crate::ieee::Format;

verus! {

/// A number as IEEE arithmetic has it; finite ones in units of 2^-24.
pub enum Number {
    Nan,
    Infinite { negative: bool },
    Finite { negative: bool, units: nat },
}

impl Number {
    /// The number of a half-precision pattern.
    pub open spec fn of_half(h: u16) -> Self {
        if crate::ieee::fp16_exponent(h) == 31 {
            if crate::ieee::fp16_fraction(h) == 0 {
                Number::Infinite { negative: crate::ieee::fp16_negative(h) }
            } else {
                Number::Nan
            }
        } else {
            Number::Finite {
                negative: crate::ieee::fp16_negative(h),
                units: crate::ieee::fp16_magnitude(h),
            }
        }
    }

    /// The product with an integer. The sign of a zero follows the signs of the
    /// factors, the integer zero counting as positive.
    pub open spec fn times(self, n: int) -> Self {
        match self {
            Number::Nan => Number::Nan,
            Number::Infinite { negative } => if n == 0 {
                Number::Nan
            } else {
                Number::Infinite { negative: negative != (n < 0) }
            },
            Number::Finite { negative, units } => Number::Finite {
                negative: negative != (n < 0),
                units: units * (if n < 0 {
                    (-n) as nat
                } else {
                    n as nat
                }),
            },
        }
    }

    /// The value of a finite number.
    pub open spec fn value(self) -> int {
        match self {
            Number::Finite { negative, units } => if negative {
                -(units as int)
            } else {
                units as int
            },
            _ => 0,
        }
    }

    /// The difference. A zero is negative only as negative zero minus positive zero.
    pub open spec fn minus(self, other: Self) -> Self {
        match (self, other) {
            (Number::Nan, _) => Number::Nan,
            (_, Number::Nan) => Number::Nan,
            (Number::Infinite { negative: a }, Number::Infinite { negative: b }) => if a == b {
                Number::Nan
            } else {
                self
            },
            (Number::Infinite { .. }, _) => self,
            (_, Number::Infinite { negative }) => Number::Infinite { negative: !negative },
            (
                Number::Finite { negative: a, units: x },
                Number::Finite { negative: b, units: y },
            ) => {
                let d = self.value() - other.value();
                if d == 0 {
                    Number::Finite { negative: x == 0 && a && !b, units: 0 }
                } else if d < 0 {
                    Number::Finite { negative: true, units: (-d) as nat }
                } else {
                    Number::Finite { negative: false, units: d as nat }
                }
            },
        }
    }

    /// The nearest f32, as a pattern; NaN is quiet and positive.
    pub open spec fn pattern(self) -> nat {
        match self {
            Number::Nan => 0x7fc0_0000,
            Number::Infinite { negative } => (if negative {
                0x8000_0000nat
            } else {
                0nat
            }) + 0x7f80_0000,
            Number::Finite { negative, units } => (if negative {
                0x8000_0000nat
            } else {
                0nat
            }) + Format::Single.rounded(units * pow2(125), 1),
        }
    }
}

/// A number small enough to compute with.
#[derive(Debug, Clone, Copy, PartialEq, Eq)]
pub enum Exact {
    Nan,
    Infinite { negative: bool },
    Finite { negative: bool, units: u64 },
}

impl View for Exact {
    type V = Number;

    open spec fn view(&self) -> Number {
        match *self {
            Exact::Nan => Number::Nan,
            Exact::Infinite { negative } => Number::Infinite { negative },
            Exact::Finite { negative, units } => Number::Finite { negative, units: units as nat },
        }
    }
}

impl Exact {
    /// Finite numbers are below the limit.
    pub open spec fn below(self, limit: nat) -> bool {
        self matches Exact::Finite { units, .. } ==> units < limit
    }

    /// The number of a half-precision pattern.
    pub fn of_half(h: u16) -> (r: Self)
        ensures
            r@ == Number::of_half(h),
            r.below(0x100_0000_0000),
    {
        let negative = h >= 0x8000;
        let e: u16 = (h / 0x400) % 32;
        let f: u16 = h % 0x400;
        if e == 31 {
            return if f == 0 {
                Exact::Infinite { negative }
            } else {
                Exact::Nan
            };
        }
        if e == 0 {
            return Exact::Finite { negative, units: f as u64 };
        }
        let mut units: u64 = 0x400 + f as u64;
        let mut k: u16 = 1;
        proof {
            lemma2_to64();
            assert((0x400 + f) * pow2(0) == 0x400 + f) by (nonlinear_arith)
                requires
                    pow2(0) == 1,
            ;
        }
        while k < e
            invariant
                1 <= k <= e <= 30,
                f < 0x400,
                units == (0x400 + f) * pow2((k - 1) as nat),
                units <= 0x7ff * pow2((k - 1) as nat),
            decreases e - k,
        {
            proof {
                lemma_pow2_unfold(k as nat);
                half_bound(k as nat);
                let p = pow2((k - 1) as nat);
                let c = (0x400 + f) as nat;
                assert(c * (2 * p) == 2 * (c * p)) by (nonlinear_arith);
            }
            units = units * 2;
            k += 1;
        }
        proof {
            half_bound(e as nat);
        }
        Exact::Finite { negative, units }
    }

    /// The product with an integer.
    pub fn times(self, n: i16) -> (r: Self)
        requires
            self.below(0x1_0000_0000_0000),
            -0x8000 < n,
        ensures
            r@ == self@.times(n as int),
            forall|limit: nat, m: nat|
                #![trigger self.below(limit), r.below(limit * m)]
                self.below(limit) && -(m as int) <= n <= m && limit > 0 && m > 0 ==> r.below(
                    limit * m,
                ),
    {
        match self {
            Exact::Nan => Exact::Nan,
            Exact::Infinite { negative } => if n == 0 {
                Exact::Nan
            } else {
                Exact::Infinite { negative: negative != (n < 0) }
            },
            Exact::Finite { negative, units } => {
                let a: u64 = if n < 0 {
                    (-n) as u64
                } else {
                    n as u64
                };
                assert(units * a <= 0x1_0000_0000_0000 * 0x8000) by (nonlinear_arith)
                    requires
                        units < 0x1_0000_0000_0000,
                        a <= 0x8000,
                ;
                proof {
                    assert forall|limit: nat, m: nat|
                        #![trigger self.below(limit), limit * m]
                        self.below(limit) && -(m as int) <= n <= m && limit > 0 && m
                            > 0 implies units * a < limit * m by {
                        assert(units * a < limit * m) by (nonlinear_arith)
                            requires
                                0 <= units < limit,
                                0 <= a <= m,
                                m > 0,
                        ;
                    }
                }
                Exact::Finite { negative: negative != (n < 0), units: units * a }
            },
        }
    }

    /// The difference.
    pub fn minus(self, other: Self) -> (r: Self)
        requires
            self.below(0x8_0000_0000_0000),
            other.below(0x8_0000_0000_0000),
        ensures
            r@ == self@.minus(other@),
            r.below(0x10_0000_0000_0000),
    {
        match (self, other) {
            (Exact::Nan, _) => Exact::Nan,
            (_, Exact::Nan) => Exact::Nan,
            (Exact::Infinite { negative: a }, Exact::Infinite { negative: b }) => if a == b {
                Exact::Nan
            } else {
                self
            },
            (Exact::Infinite { .. }, _) => self,
            (_, Exact::Infinite { negative }) => Exact::Infinite { negative: !negative },
            (
                Exact::Finite { negative: a, units: x },
                Exact::Finite { negative: b, units: y },
            ) => {
                if a != b {
                    if x == 0 && y == 0 {
                        Exact::Finite { negative: a, units: 0 }
                    } else {
                        Exact::Finite { negative: a, units: x + y }
                    }
                } else if x == y {
                    Exact::Finite { negative: false, units: 0 }
                } else if x > y {
                    Exact::Finite { negative: a, units: x - y }
                } else {
                    Exact::Finite { negative: !a, units: y - x }
                }
            },
        }
    }

    /// The nearest f32, as a pattern.
    pub fn pattern(self) -> (r: u32)
        requires
            self.below(0x20_0000_0000_0000),
        ensures
            r == self@.pattern(),
    {
        match self {
            Exact::Nan => 0x7fc0_0000,
            Exact::Infinite { negative } => if negative {
                0xff80_0000
            } else {
                0x7f80_0000
            },
            Exact::Finite { negative, units } => {
                let b = round_scaled(units, 125);
                if negative {
                    0x8000_0000 + b
                } else {
                    b
                }
            },
        }
    }
}

proof fn half_bound(e: nat)
    requires
        1 <= e <= 30,
    ensures
        0x7ff * pow2((e - 1) as nat) < 0x100_0000_0000,
{
    lemma2_to64();
    if e < 30 {
        lemma_pow2_strictly_increases((e - 1) as nat, 29);
    }
}

// ── laws ──

/// A value of at most 24 significant bits has a pattern of its own.
pub proof fn short_value_has_pattern(m: nat, k: nat) -> (b: nat)
    requires
        m < 0x100_0000,
        k <= 200,
    ensures
        b < 0x7f80_0000,
        Format::Single.magnitude(b) == m * pow2(k),
    decreases 0x100_0000 - m,
{
    lemma2_to64();
    if m >= 0x80_0000 {
        crate::float::pattern_of(m, k);
        (k + 1) * 0x80_0000 + (m - 0x80_0000) as nat
    } else if m == 0 {
        assert(0 * pow2(k) == 0 && 0 * pow2(0) == 0) by (nonlinear_arith);
        0
    } else if k == 0 {
        m
    } else {
        let b = short_value_has_pattern(2 * m, (k - 1) as nat);
        lemma_pow2_unfold(k);
        let a = pow2((k - 1) as nat);
        assert((2 * m) * a == m * (2 * a)) by (nonlinear_arith);
        b
    }
}

/// A half-precision number times an integer of up to twelve bits is exact: nothing is
/// rounded away, whatever the order in which several such factors are multiplied.
pub proof fn products_are_exact(h: u16, n: int)
    requires
        crate::ieee::fp16_exponent(h) < 31,
        -0x1000 <= n <= 0x1000,
    ensures
        crate::ieee::f32_magnitude(Number::of_half(h).times(n).pattern() as u32)
            == Number::of_half(h).times(n)->units * pow2(125),
{
    let f = Format::Single;
    let e = crate::ieee::fp16_exponent(h);
    let a: nat = if n < 0 {
        (-n) as nat
    } else {
        n as nat
    };
    let c: nat = if e == 0 {
        crate::ieee::fp16_fraction(h)
    } else {
        0x400 + crate::ieee::fp16_fraction(h)
    };
    let t: nat = if e == 0 {
        0
    } else {
        (e - 1) as nat
    };
    lemma2_to64();
    let units = crate::ieee::fp16_magnitude(h) * a;
    assert(c * a < 0x100_0000) by (nonlinear_arith)
        requires
            c < 0x800,
            a <= 0x1000,
    ;
    lemma_pow2_adds(t, 125);
    assert(crate::ieee::fp16_magnitude(h) == c * pow2(t)) by {
        assert(c * 1 == c) by (nonlinear_arith);
    }
    assert((c * pow2(t)) * a * pow2(125) == (c * a) * (pow2(t) * pow2(125))) by (nonlinear_arith);
    let b = short_value_has_pattern(c * a, t + 125);
    crate::ieee::rounding_is_exact(f, b, 1);
    assert(f.magnitude(b) * 1 == f.magnitude(b)) by (nonlinear_arith);
    assert(f.rounded(units * pow2(125), 1) == b);
}

/// A half-precision number times an integer of up to twelve bits is finite as an f32,
/// and negative only where one of the factors is.
pub proof fn products_are_finite(h: u16, n: int)
    requires
        crate::ieee::fp16_exponent(h) < 31,
        -0x1000 <= n <= 0x1000,
    ensures
        ({
            let r = Number::of_half(h).times(n).pattern();
            &&& r <= u32::MAX
            &&& crate::ieee::f32_finite(r as u32)
            &&& crate::ieee::f32_negative(r as u32) == (crate::ieee::fp16_negative(h) != (n < 0))
        }),
{
    let f = Format::Single;
    let e = crate::ieee::fp16_exponent(h);
    let a: nat = if n < 0 {
        (-n) as nat
    } else {
        n as nat
    };
    let c: nat = if e == 0 {
        crate::ieee::fp16_fraction(h)
    } else {
        0x400 + crate::ieee::fp16_fraction(h)
    };
    let t: nat = if e == 0 {
        0
    } else {
        (e - 1) as nat
    };
    lemma2_to64();
    let units = crate::ieee::fp16_magnitude(h) * a;
    assert(c * a < 0x100_0000) by (nonlinear_arith)
        requires
            c < 0x800,
            a <= 0x1000,
    ;
    lemma_pow2_adds(t, 125);
    assert(crate::ieee::fp16_magnitude(h) == c * pow2(t)) by {
        assert(c * 1 == c) by (nonlinear_arith);
    }
    assert((c * pow2(t)) * a * pow2(125) == (c * a) * (pow2(t) * pow2(125))) by (nonlinear_arith);
    let b = short_value_has_pattern(c * a, t + 125);
    crate::ieee::rounding_is_exact(f, b, 1);
    assert(f.magnitude(b) * 1 == f.magnitude(b)) by (nonlinear_arith);
    assert(f.rounded(units * pow2(125), 1) == b);
}

/// Products with integers and differences have the values they should.
pub proof fn values_are_exact(h: u16, g: u16, n: int, m: int)
    requires
        crate::ieee::fp16_exponent(h) < 31,
        crate::ieee::fp16_exponent(g) < 31,
    ensures
        Number::of_half(h).times(n).value() == Number::of_half(h).value() * n,
        Number::of_half(h).times(n).minus(Number::of_half(g).times(m)).value()
            == Number::of_half(h).value() * n - Number::of_half(g).value() * m,
        Number::of_half(h).value() == (if h >= 0x8000 {
            -(crate::ieee::fp16_magnitude(h) as int)
        } else {
            crate::ieee::fp16_magnitude(h) as int
        }),
{
    times_multiplies(h, n);
    times_multiplies(g, m);
}

proof fn times_multiplies(h: u16, n: int)
    requires
        crate::ieee::fp16_exponent(h) < 31,
    ensures
        Number::of_half(h).times(n) is Finite,
        Number::of_half(h).times(n).value() == Number::of_half(h).value() * n,
{
    let u = crate::ieee::fp16_magnitude(h) as int;
    assert((-u) * n == u * (-n) && (-u) * n == -(u * n) && u * n == -(u * (-n))) by (
    nonlinear_arith);
}

/// The pattern of a finite number is the nearest f32, with its sign.
pub proof fn patterns_are_nearest(negative: bool, units: nat)
    ensures
        ({
            let r = Number::Finite { negative, units }.pattern();
            &&& r <= u32::MAX
            &&& (r >= 0x8000_0000) == negative
            &&& Format::Single.nearest(units * pow2(125), 1, r % 0x8000_0000)
        }),
{
    let sign: nat = if negative {
        0x8000_0000
    } else {
        0
    };
    crate::float::signed_rounding(
        sign,
        units * pow2(125),
        1,
        Number::Finite { negative, units }.pattern(),
    );
}

/// A scale that is infinite gives infinite products, with the sign of the factors, and no
/// number times zero; a scale that is no number gives none.
pub proof fn scales_that_are_not_finite(h: u16, n: int)
    requires
        crate::ieee::fp16_exponent(h) == 31,
    ensures
        ({
            let r = Number::of_half(h).times(n).pattern();
            &&& h == 0x7c00 && n > 0 || h == 0xfc00 && n < 0 ==> r == 0x7f80_0000
            &&& h == 0x7c00 && n < 0 || h == 0xfc00 && n > 0 ==> r == 0xff80_0000
            &&& h != 0x7c00 && h != 0xfc00 || n == 0 ==> r == 0x7fc0_0000
        }),
{
}

} // verus!
