//! Natural numbers of any size, for exact comparisons.

use vstd::arithmetic::power2::*;
use vstd::prelude::*;

verus! {

/// Limb `i`, zero past the end.
pub open spec fn limb(s: Seq<u32>, i: int) -> nat {
    if 0 <= i < s.len() {
        s[i] as nat
    } else {
        0
    }
}

/// The number spelled by the `n` lowest limbs, in base 2^32.
pub open spec fn low(s: Seq<u32>, n: nat) -> nat
    decreases n,
{
    if n == 0 {
        0
    } else {
        low(s, (n - 1) as nat) + limb(s, n - 1) * pow2((32 * (n - 1)) as nat)
    }
}

/// A natural number.
pub struct BigNat {
    /// Limbs in base 2^32, least significant first.
    limbs: Vec<u32>,
}

impl View for BigNat {
    type V = nat;

    closed spec fn view(&self) -> nat {
        low(self.limbs@, self.limbs@.len())
    }
}

/// How two numbers compare.
#[derive(Clone, Copy, PartialEq, Eq, Debug)]
pub enum Order {
    Below,
    Same,
    Above,
}

proof fn low_depends_on_prefix(s: Seq<u32>, t: Seq<u32>, n: nat)
    requires
        forall|i: int| 0 <= i < n ==> limb(s, i) == limb(t, i),
    ensures
        low(s, n) == low(t, n),
    decreases n,
{
    if n > 0 {
        low_depends_on_prefix(s, t, (n - 1) as nat);
    }
}

proof fn low_past_end(s: Seq<u32>, n: nat)
    requires
        n >= s.len(),
    ensures
        low(s, n) == low(s, s.len()),
    decreases n,
{
    if n > s.len() {
        low_past_end(s, (n - 1) as nat);
        assert(0 * pow2((32 * (n - 1)) as nat) == 0) by (nonlinear_arith);
    }
}

proof fn low_bound(s: Seq<u32>, n: nat)
    ensures
        low(s, n) < pow2(32 * n),
    decreases n,
{
    lemma2_to64();
    if n > 0 {
        low_bound(s, (n - 1) as nat);
        let w = pow2((32 * (n - 1)) as nat);
        lemma_pow2_adds((32 * (n - 1)) as nat, 32);
        let x = limb(s, n - 1);
        assert(x <= 0xffff_ffff);
        assert(x * w + w <= w * 0x1_0000_0000) by (nonlinear_arith)
            requires
                x <= 0xffff_ffff,
        ;
    }
}

proof fn low_push(s: Seq<u32>, x: u32)
    ensures
        low(s.push(x), s.push(x).len()) == low(s, s.len()) + x * pow2(32 * s.len()),
{
    low_depends_on_prefix(s.push(x), s, s.len());
}

proof fn low_zeros(zeros: Seq<u32>, s: Seq<u32>, n: nat)
    requires
        forall|i: int| 0 <= i < zeros.len() ==> zeros[i] == 0,
    ensures
        low(zeros + s, zeros.len() + n) == low(s, n) * pow2(32 * zeros.len()),
    decreases n,
{
    let z = zeros.len();
    if n == 0 {
        low_all_zero(zeros + s, z);
        assert(0 * pow2(32 * z) == 0) by (nonlinear_arith);
    } else {
        low_zeros(zeros, s, (n - 1) as nat);
        assert(limb(zeros + s, z + n - 1) == limb(s, n - 1));
        lemma_pow2_adds((32 * (n - 1)) as nat, 32 * z);
        let a = low(s, (n - 1) as nat);
        let x = limb(s, n - 1);
        let w = pow2((32 * (n - 1)) as nat);
        let k = pow2(32 * z);
        assert(a * k + x * (w * k) == (a + x * w) * k) by (nonlinear_arith);
        assert(32 * (n - 1) + 32 * z == 32 * (z + n - 1));
    }
}

proof fn low_all_zero(s: Seq<u32>, n: nat)
    requires
        forall|i: int| 0 <= i < n ==> limb(s, i) == 0,
    ensures
        low(s, n) == 0,
    decreases n,
{
    if n > 0 {
        low_all_zero(s, (n - 1) as nat);
        assert(0 * pow2((32 * (n - 1)) as nat) == 0) by (nonlinear_arith);
    }
}

impl BigNat {
    /// The number `n`.
    pub fn from_u64(n: u64) -> (r: Self)
        ensures
            r@ == n,
    {
        let lo: u32 = (n % 0x1_0000_0000) as u32;
        let hi: u32 = (n / 0x1_0000_0000) as u32;
        let mut limbs: Vec<u32> = Vec::new();
        limbs.push(lo);
        limbs.push(hi);
        proof {
            lemma2_to64();
            reveal_with_fuel(low, 3);
            assert(lo * pow2(0) == lo && hi * pow2(32) == hi * 0x1_0000_0000) by (nonlinear_arith)
                requires
                    pow2(0) == 1,
                    pow2(32) == 0x1_0000_0000,
            ;
        }
        BigNat { limbs }
    }

    /// Multiplies by `m` and adds `a`.
    pub fn mul_add(&mut self, m: u64, a: u64)
        ensures
            final(self)@ == old(self)@ * m + a,
    {
        let ghost s = self.limbs@;
        let mut out: Vec<u32> = Vec::new();
        let mut carry: u64 = a;
        let mut i: usize = 0;
        proof {
            lemma2_to64();
            assert(carry * pow2(0) == carry) by (nonlinear_arith)
                requires
                    pow2(0) == 1,
            ;
            assert(0 * m == 0) by (nonlinear_arith);
        }
        while i < self.limbs.len()
            invariant
                i <= s.len(),
                self.limbs@ == s,
                out@.len() == i,
                low(out@, i as nat) + carry * pow2(32 * i as nat) == low(s, i as nat) * m + a,
            decreases s.len() - i,
        {
            let x: u128 = self.limbs[i] as u128;
            assert(x * m + carry <= 0x1_0000_0000 * 0xffff_ffff_ffff_ffff) by (nonlinear_arith)
                requires
                    x <= 0xffff_ffff,
                    m <= 0xffff_ffff_ffff_ffff,
                    carry <= 0xffff_ffff_ffff_ffff,
            ;
            let t: u128 = x * m as u128 + carry as u128;
            let ghost before = out@;
            let ghost c0 = carry;
            out.push((t % 0x1_0000_0000) as u32);
            carry = (t / 0x1_0000_0000) as u64;
            proof {
                low_push(before, (t % 0x1_0000_0000) as u32);
                lemma2_to64();
                lemma_pow2_adds(32 * i as nat, 32);
                let w = pow2(32 * i as nat);
                let d = t % 0x1_0000_0000;
                let l = low(s, i as nat);
                assert(d * w + carry * (w * 0x1_0000_0000) == t * w) by (nonlinear_arith)
                    requires
                        t == 0x1_0000_0000 * carry + d,
                ;
                assert(t * w == (x * m) * w + c0 * w) by (nonlinear_arith)
                    requires
                        t == x * m + c0,
                ;
                assert((l + x * w) * m == l * m + (x * m) * w) by (nonlinear_arith);
                assert(32 * (i + 1) == 32 * i + 32);
            }
            i += 1;
        }
        let lo: u32 = (carry % 0x1_0000_0000) as u32;
        let hi: u32 = (carry / 0x1_0000_0000) as u32;
        let ghost before = out@;
        proof {
            lemma2_to64();
            lemma_pow2_adds(32 * i as nat, 32);
            let w = pow2(32 * i as nat);
            assert(lo * w + hi * (w * 0x1_0000_0000) == carry * w) by (nonlinear_arith)
                requires
                    carry == 0x1_0000_0000 * hi + lo,
            ;
            assert(32 * (i + 1) == 32 * i + 32);
            assert(0 * w == 0 && 0 * (w * 0x1_0000_0000) == 0) by (nonlinear_arith);
        }
        if carry > 0 {
            out.push(lo);
            proof {
                low_push(before, lo);
            }
            if hi > 0 {
                out.push(hi);
                proof {
                    low_push(before.push(lo), hi);
                }
            }
        }
        self.limbs = out;
    }

    /// Multiplies by 2^k.
    pub fn mul_pow2(&mut self, k: usize)
        ensures
            final(self)@ == old(self)@ * pow2(k as nat),
    {
        let z: usize = k / 32;
        let r: u32 = (k % 32) as u32;
        let ghost v = self@;
        assert(1u32 << r == pow2(r as nat)) by {
            lemma2_to64();
            if r < 31 {
                lemma_pow2_strictly_increases(r as nat, 31);
            }
            vstd::bits::lemma_u32_shl_is_mul(1, r);
        }
        self.mul_add((1u32 << r) as u64, 0);
        let mut out: Vec<u32> = Vec::new();
        let mut i: usize = 0;
        while i < z
            invariant
                i <= z,
                out@.len() == i,
                forall|j: int| 0 <= j < i ==> out@[j] == 0,
            decreases z - i,
        {
            out.push(0);
            i += 1;
        }
        let ghost zeros = out@;
        let ghost s = self.limbs@;
        out.extend_from_slice(self.limbs.as_slice());
        proof {
            assert(out@ =~= zeros + s);
            low_zeros(zeros, s, s.len());
            lemma_pow2_adds(r as nat, 32 * z as nat);
            assert((v * pow2(r as nat)) * pow2(32 * z as nat) == v * (pow2(r as nat) * pow2(
                32 * z as nat,
            ))) by (nonlinear_arith);
        }
        self.limbs = out;
    }

    /// Adds another number.
    pub fn add_to(&mut self, other: &BigNat)
        ensures
            final(self)@ == old(self)@ + other@,
    {
        let ghost s = self.limbs@;
        let ghost t = other.limbs@;
        let n: usize = if self.limbs.len() >= other.limbs.len() {
            self.limbs.len()
        } else {
            other.limbs.len()
        };
        let mut out: Vec<u32> = Vec::new();
        let mut carry: u64 = 0;
        let mut i: usize = 0;
        proof {
            assert(0 * pow2(0) == 0) by (nonlinear_arith);
        }
        while i < n
            invariant
                i <= n,
                self.limbs@ == s,
                other.limbs@ == t,
                out@.len() == i,
                carry <= 1,
                low(out@, i as nat) + carry * pow2(32 * i as nat) == low(s, i as nat) + low(
                    t,
                    i as nat,
                ),
            decreases n - i,
        {
            let a: u32 = self.limb_at(i);
            let b: u32 = other.limb_at(i);
            let x: u64 = a as u64 + b as u64 + carry;
            let ghost before = out@;
            let ghost c0 = carry;
            out.push((x % 0x1_0000_0000) as u32);
            carry = x / 0x1_0000_0000;
            proof {
                low_push(before, (x % 0x1_0000_0000) as u32);
                lemma2_to64();
                lemma_pow2_adds(32 * i as nat, 32);
                let w = pow2(32 * i as nat);
                let d = x % 0x1_0000_0000;
                assert(d * w + carry * (w * 0x1_0000_0000) == a * w + b * w + c0 * w)
                    by (nonlinear_arith)
                    requires
                        a + b + c0 == 0x1_0000_0000 * carry + d,
                ;
                assert(32 * (i + 1) == 32 * i + 32);
            }
            i += 1;
        }
        let ghost before = out@;
        if carry > 0 {
            out.push(1);
            proof {
                low_push(before, 1);
            }
        } else {
            assert(0 * pow2(32 * i as nat) == 0) by (nonlinear_arith);
        }
        proof {
            low_past_end(s, n as nat);
            low_past_end(t, n as nat);
        }
        self.limbs = out;
    }

    /// Limb `i`, zero past the end.
    fn limb_at(&self, i: usize) -> (r: u32)
        ensures
            r == limb(self.limbs@, i as int),
    {
        if i < self.limbs.len() {
            self.limbs[i]
        } else {
            0
        }
    }

    /// Compares with another number.
    pub fn order(&self, other: &BigNat) -> (r: Order)
        ensures
            match r {
                Order::Below => self@ < other@,
                Order::Same => self@ == other@,
                Order::Above => self@ > other@,
            },
    {
        let ghost s = self.limbs@;
        let ghost t = other.limbs@;
        let mut i: usize = if self.limbs.len() >= other.limbs.len() {
            self.limbs.len()
        } else {
            other.limbs.len()
        };
        proof {
            low_past_end(s, i as nat);
            low_past_end(t, i as nat);
        }
        while i > 0
            invariant
                s == self.limbs@,
                t == other.limbs@,
                self@ - other@ == low(s, i as nat) - low(t, i as nat),
            decreases i,
        {
            i -= 1;
            let a: u32 = self.limb_at(i);
            let b: u32 = other.limb_at(i);
            proof {
                low_bound(s, i as nat);
                low_bound(t, i as nat);
                let w = pow2(32 * i as nat);
                if a < b {
                    assert(a * w + w <= b * w) by (nonlinear_arith)
                        requires
                            a + 1 <= b,
                    ;
                } else if a > b {
                    assert(b * w + w <= a * w) by (nonlinear_arith)
                        requires
                            b + 1 <= a,
                    ;
                }
            }
            if a < b {
                return Order::Below;
            }
            if a > b {
                return Order::Above;
            }
        }
        Order::Same
    }

    /// Whether the number is at most `other`.
    pub fn at_most(&self, other: &BigNat) -> (r: bool)
        ensures
            r == (self@ <= other@),
    {
        match self.order(other) {
            Order::Above => false,
            _ => true,
        }
    }

    /// A copy of the number.
    pub fn copy(&self) -> (r: Self)
        ensures
            r@ == self@,
    {
        let mut limbs: Vec<u32> = Vec::new();
        limbs.extend_from_slice(self.limbs.as_slice());
        assert(limbs@ =~= self.limbs@);
        BigNat { limbs }
    }
}

} // verus!
