//! Choosing the next token: the greedy choice on the logits, or a draw from the
//! probabilities after top-k and nucleus cuts. Numbers are f32 patterns. Turning
//! logits into probabilities takes an exponential, which is left to the caller.
//!
//! The random generator is splitmix64: the same seed gives the same sequence.

use vstd::arithmetic::power2::*;
use vstd::prelude::*;

use crate::bignat::BigNat;
use crate::float::{add_f32, mul_f32, sub_f32};
use crate::ieee::{at_least_f32, greater_f32, is_nan_f32, key_of_f32, round, Format};

verus! {

// ── random numbers ──

/// Increment of the generator.
pub const GOLDEN: u64 = 0x9E3779B97F4A7C15;

/// Scrambles a state into an output.
pub open spec fn mix(z: u64) -> u64 {
    let a = (z ^ (z >> 30)).wrapping_mul(0xBF58476D1CE4E5B9);
    let b = (a ^ (a >> 27)).wrapping_mul(0x94D049BB133111EB);
    b ^ (b >> 31)
}

/// A splitmix64 generator.
pub struct Rng {
    state: u64,
}

impl View for Rng {
    type V = u64;

    closed spec fn view(&self) -> u64 {
        self.state
    }
}

/// `UNIX_EPOCH.elapsed()` reads the system clock: the nanoseconds since 1970, or
/// nothing when the clock stands before that. Nothing is known of the number.
#[verifier::external_body]
pub(crate) fn clock_nanos() -> (r: Option<u128>) {
    std::time::UNIX_EPOCH.elapsed().ok().map(|d| d.as_nanos())
}

/// The f32 nearest to the top 53 bits of `x` as a fraction of one, at most the
/// largest f32 below one.
pub open spec fn unit_fraction(x: u64) -> nat {
    let r = Format::Single.rounded((x as nat / 0x800) * pow2(96), 1);
    if r < 0x3f80_0000 {
        r
    } else {
        0x3f7f_ffff
    }
}

impl Rng {
    /// A generator with the given seed.
    pub fn new(seed: u64) -> (r: Self)
        ensures
            r@ == seed.wrapping_add(GOLDEN),
    {
        Rng { state: seed.wrapping_add(GOLDEN) }
    }

    /// A generator seeded with a reading of the clock; without one the seed is
    /// zero.
    pub fn from_clock(nanos: Option<u128>) -> (r: Self)
        ensures
            r@ == (match nanos {
                Some(n) => ((n % 0x1_0000_0000_0000_0000) as u64).wrapping_add(GOLDEN),
                None => 0u64.wrapping_add(GOLDEN),
            }),
    {
        match nanos {
            Some(n) => {
                Rng::new((n % 0x1_0000_0000_0000_0000) as u64)
            },
            None => Rng::new(0),
        }
    }

    /// A generator seeded with the current time.
    pub fn from_time() -> (r: Self)
        ensures
            exists|seed: u64| r@ == #[trigger] seed.wrapping_add(GOLDEN),
    {
        let nanos = clock_nanos();
        Rng::from_clock(nanos)
    }

    /// The next 64 random bits.
    pub fn next_u64(&mut self) -> (r: u64)
        ensures
            final(self)@ == old(self)@.wrapping_add(GOLDEN),
            r == mix(final(self)@),
    {
        self.state = self.state.wrapping_add(GOLDEN);
        let z: u64 = self.state;
        let a: u64 = (z ^ (z >> 30)).wrapping_mul(0xBF58476D1CE4E5B9);
        let b: u64 = (a ^ (a >> 27)).wrapping_mul(0x94D049BB133111EB);
        b ^ (b >> 31)
    }

    /// The next number in [0, 1), as an f32 pattern.
    pub fn next_f32(&mut self) -> (r: u32)
        ensures
            final(self)@ == old(self)@.wrapping_add(GOLDEN),
            r == unit_fraction(mix(final(self)@)),
            r < 0x3f80_0000,
    {
        let x: u64 = self.next_u64();
        let mut p = BigNat::from_u64(x / 0x800);
        p.mul_pow2(96);
        let q = BigNat::from_u64(1);
        let b = round(Format::Single, &p, &q);
        if b < 0x3f80_0000 {
            b as u32
        } else {
            0x3f7f_ffff
        }
    }
}

/// The state after `n` steps.
pub open spec fn state_after(state: u64, n: nat) -> u64
    decreases n,
{
    if n == 0 {
        state
    } else {
        state_after(state, (n - 1) as nat).wrapping_add(GOLDEN)
    }
}

/// The sequence can be entered anywhere: after `n` steps the state has moved by
/// `n` increments, so equal seeds give equal sequences.
pub proof fn sequence_depends_on_seed(state: u64, n: nat)
    ensures
        state_after(state, n) as int == (state + n * GOLDEN) % 0x1_0000_0000_0000_0000,
    decreases n,
{
    if n > 0 {
        sequence_depends_on_seed(state, (n - 1) as nat);
        let s = state_after(state, (n - 1) as nat);
        let g = GOLDEN as int;
        let m = 0x1_0000_0000_0000_0000int;
        assert((n - 1) * g + g == n * g) by (nonlinear_arith);
        let before = state + (n - 1) * g;
        vstd::arithmetic::div_mod::lemma_add_mod_noop(before, g, m);
        assert(s == before % m);
        assert(s.wrapping_add(GOLDEN) as int == (s + g) % m);
        vstd::arithmetic::div_mod::lemma_small_mod(GOLDEN as nat, m as nat);
    } else {
        assert(0 * GOLDEN == 0);
        vstd::arithmetic::div_mod::lemma_small_mod(state as nat, 0x1_0000_0000_0000_0000nat);
    }
}

// ── sampler ──

/// How tokens are chosen. Floats are f32 patterns.
#[derive(Debug, Clone, Copy, PartialEq, Eq)]
pub struct Sampler {
    /// Zero or less means greedy.
    pub temperature: u32,
    /// Keep only the k most probable tokens.
    pub top_k: Option<usize>,
    /// Keep the fewest tokens that reach this much probability.
    pub top_p: Option<u32>,
}

impl Sampler {
    /// The sampler that always takes the best token.
    pub fn greedy() -> (r: Self)
        ensures
            r == (Sampler { temperature: 0, top_k: None, top_p: None }),
            r.takes_best(),
    {
        Sampler { temperature: 0, top_k: None, top_p: None }
    }

    /// A sampler with the given settings.
    pub fn new(temperature: u32, top_k: Option<usize>, top_p: Option<u32>) -> (r: Self)
        ensures
            r == (Sampler { temperature, top_k, top_p }),
    {
        Sampler { temperature, top_k, top_p }
    }

    /// The temperature is zero or less.
    pub open spec fn takes_best(self) -> bool {
        crate::ieee::f32_at_least(0, self.temperature)
    }

    /// Whether the best token is taken without a draw.
    pub fn is_greedy(&self) -> (r: bool)
        ensures
            r == self.takes_best(),
    {
        at_least_f32(0, self.temperature)
    }
}

// ── greedy choice ──

/// The best of the first `n` numbers: the later one only if it is greater.
pub open spec fn best_of(x: Seq<u32>, n: nat) -> int
    decreases n,
{
    if n <= 1 {
        0
    } else {
        let b = best_of(x, (n - 1) as nat);
        if crate::ieee::f32_greater(x[n - 1], x[b]) {
            n - 1
        } else {
            b
        }
    }
}

/// Index of the largest number; of equal ones the first.
pub fn argmax(x: &[u32]) -> (r: usize)
    ensures
        r == best_of(x@, x@.len()),
        x@.len() > 0 ==> r < x@.len(),
{
    let mut best: usize = 0;
    if x.len() == 0 {
        return best;
    }
    let mut i: usize = 1;
    while i < x.len()
        invariant
            1 <= i <= x@.len(),
            best < i,
            best == best_of(x@, i as nat),
        decreases x@.len() - i,
    {
        if greater_f32(x[i], x[best]) {
            best = i;
        }
        i += 1;
    }
    best
}

proof fn best_of_is_first_maximum(x: Seq<u32>, n: nat)
    requires
        0 < n <= x.len(),
        forall|i: int| 0 <= i < n ==> !crate::ieee::f32_nan(#[trigger] x[i]),
    ensures
        0 <= best_of(x, n) < n,
        forall|i: int|
            0 <= i < n ==> crate::ieee::f32_key(#[trigger] x[i]) <= crate::ieee::f32_key(
                x[best_of(x, n)],
            ),
        forall|i: int|
            0 <= i < best_of(x, n) ==> crate::ieee::f32_key(#[trigger] x[i])
                < crate::ieee::f32_key(x[best_of(x, n)]),
    decreases n,
{
    if n > 1 {
        best_of_is_first_maximum(x, (n - 1) as nat);
        assert(!crate::ieee::f32_nan(x[n - 1]));
        assert(!crate::ieee::f32_nan(x[best_of(x, (n - 1) as nat)]));
    }
}

/// Without NaN the greedy choice is the largest number, and the first of equals.
pub proof fn greedy_takes_first_maximum(x: Seq<u32>)
    requires
        x.len() > 0,
        forall|i: int| 0 <= i < x.len() ==> !crate::ieee::f32_nan(#[trigger] x[i]),
    ensures
        0 <= best_of(x, x.len()) < x.len(),
        forall|i: int|
            0 <= i < x.len() ==> crate::ieee::f32_key(#[trigger] x[i]) <= crate::ieee::f32_key(
                x[best_of(x, x.len())],
            ),
        forall|i: int|
            0 <= i < best_of(x, x.len()) ==> crate::ieee::f32_key(#[trigger] x[i])
                < crate::ieee::f32_key(x[best_of(x, x.len())]),
{
    best_of_is_first_maximum(x, x.len());
}

// ── ranking ──

/// Ranking key of a probability; NaN comes last.
pub open spec fn weight(bits: u32) -> int {
    if crate::ieee::f32_nan(bits) {
        -0x8000_0000
    } else {
        crate::ieee::f32_key(bits)
    }
}

/// Token `a` ranks before token `b`: it is more probable, or as probable and has
/// the lower index.
pub open spec fn before(p: Seq<u32>, a: usize, b: usize) -> bool {
    weight(p[a as int]) > weight(p[b as int]) || weight(p[a as int]) == weight(p[b as int]) && a
        < b
}

/// The list is in ranking order.
pub open spec fn in_order(p: Seq<u32>, r: Seq<usize>) -> bool {
    forall|i: int, j: int| 0 <= i < j < r.len() ==> before(p, #[trigger] r[i], #[trigger] r[j])
}

/// The list holds every token once, in ranking order.
pub open spec fn is_ranking(p: Seq<u32>, r: Seq<usize>) -> bool {
    &&& r.len() == p.len()
    &&& forall|k: usize| #[trigger] r.contains(k) <==> k < p.len()
    &&& in_order(p, r)
}

fn weigh(bits: u32) -> (r: i64)
    ensures
        r == weight(bits),
{
    if is_nan_f32(bits) {
        -0x8000_0000
    } else {
        key_of_f32(bits)
    }
}

fn ranks_before(p: &[u32], a: usize, b: usize) -> (r: bool)
    requires
        a < p@.len(),
        b < p@.len(),
    ensures
        r == before(p@, a, b),
{
    let x: i64 = weigh(p[a]);
    let y: i64 = weigh(p[b]);
    x > y || x == y && a < b
}

/// Puts two ranked lists together.
fn merge(p: &[u32], a: &Vec<usize>, b: &Vec<usize>) -> (r: Vec<usize>)
    requires
        forall|i: int| 0 <= i < a@.len() ==> (#[trigger] a@[i]) < p@.len(),
        forall|i: int| 0 <= i < b@.len() ==> (#[trigger] b@[i]) < p@.len(),
        forall|i: int, j: int|
            0 <= i < a@.len() && 0 <= j < b@.len() ==> (#[trigger] a@[i]) < (#[trigger] b@[j]),
        in_order(p@, a@),
        in_order(p@, b@),
    ensures
        r@.len() == a@.len() + b@.len(),
        in_order(p@, r@),
        forall|k: usize| #[trigger] r@.contains(k) <==> a@.contains(k) || b@.contains(k),
{
    let mut out: Vec<usize> = Vec::new();
    let mut i: usize = 0;
    let mut j: usize = 0;
    assert(a@.take(0) =~= Seq::empty());
    assert(b@.take(0) =~= Seq::empty());
    while i < a.len() || j < b.len()
        invariant
            i <= a@.len(),
            j <= b@.len(),
            forall|n: int| 0 <= n < a@.len() ==> (#[trigger] a@[n]) < p@.len(),
            forall|n: int| 0 <= n < b@.len() ==> (#[trigger] b@[n]) < p@.len(),
            forall|n: int, m: int|
                0 <= n < a@.len() && 0 <= m < b@.len() ==> (#[trigger] a@[n]) < (#[trigger] b@[m]),
            in_order(p@, a@),
            in_order(p@, b@),
            out@.len() == i + j,
            in_order(p@, out@),
            forall|n: int, m: int|
                0 <= n < out@.len() && i <= m < a@.len() ==> before(
                    p@,
                    #[trigger] out@[n],
                    #[trigger] a@[m],
                ),
            forall|n: int, m: int|
                0 <= n < out@.len() && j <= m < b@.len() ==> before(
                    p@,
                    #[trigger] out@[n],
                    #[trigger] b@[m],
                ),
            forall|n: int|
                0 <= n < out@.len() ==> a@.contains(#[trigger] out@[n]) || b@.contains(out@[n]),
            forall|n: int| 0 <= n < i ==> out@.contains(#[trigger] a@[n]),
            forall|n: int| 0 <= n < j ==> out@.contains(#[trigger] b@[n]),
        decreases a@.len() - i + b@.len() - j,
    {
        let ghost old_out = out@;
        let left = if i >= a.len() {
            false
        } else if j >= b.len() {
            true
        } else {
            ranks_before(p, a[i], b[j])
        };
        let x: usize = if left {
            a[i]
        } else {
            b[j]
        };
        out.push(x);
        if left {
            i += 1;
        } else {
            j += 1;
        }
        proof {
            assert(out@[out@.len() - 1] == x);
            assert(out@.contains(x));
            assert forall|n: int| 0 <= n < old_out.len() implies out@.contains(
                #[trigger] old_out[n],
            ) by {
                assert(out@[n] == old_out[n]);
            }
            assert forall|n: int| 0 <= n < i implies out@.contains(#[trigger] a@[n]) by {
                if !(left && n == i - 1) {
                    let m = choose|m: int| 0 <= m < old_out.len() && old_out[m] == a@[n];
                    assert(out@[m] == a@[n]);
                }
            }
            assert forall|n: int| 0 <= n < j implies out@.contains(#[trigger] b@[n]) by {
                if left || n != j - 1 {
                    let m = choose|m: int| 0 <= m < old_out.len() && old_out[m] == b@[n];
                    assert(out@[m] == b@[n]);
                }
            }
        }
    }
    proof {
        assert forall|k: usize| #[trigger] out@.contains(k) <==> a@.contains(k) || b@.contains(
            k,
        ) by {
            if out@.contains(k) {
                let n = choose|n: int| 0 <= n < out@.len() && out@[n] == k;
                assert(a@.contains(out@[n]) || b@.contains(out@[n]));
            }
            if a@.contains(k) {
                let n = choose|n: int| 0 <= n < a@.len() && a@[n] == k;
                assert(out@.contains(a@[n]));
            }
            if b@.contains(k) {
                let n = choose|n: int| 0 <= n < b@.len() && b@[n] == k;
                assert(out@.contains(b@[n]));
            }
        }
    }
    out
}

/// The tokens from `lo` to `hi`, ranked.
fn rank_range(p: &[u32], lo: usize, hi: usize) -> (r: Vec<usize>)
    requires
        lo <= hi <= p@.len(),
    ensures
        r@.len() == hi - lo,
        in_order(p@, r@),
        forall|k: usize| #[trigger] r@.contains(k) <==> lo <= k < hi,
    decreases hi - lo,
{
    let mut out: Vec<usize> = Vec::new();
    if hi - lo == 0 {
        return out;
    }
    if hi - lo == 1 {
        out.push(lo);
        assert(out@[0] == lo);
        return out;
    }
    let mid: usize = lo + (hi - lo) / 2;
    let a = rank_range(p, lo, mid);
    let b = rank_range(p, mid, hi);
    proof {
        assert forall|i: int| 0 <= i < a@.len() implies lo <= (#[trigger] a@[i]) < mid by {
            assert(a@.contains(a@[i]));
        }
        assert forall|i: int| 0 <= i < b@.len() implies mid <= (#[trigger] b@[i]) < hi by {
            assert(b@.contains(b@[i]));
        }
    }
    merge(p, &a, &b)
}

/// All the tokens by decreasing probability; of equal ones the lower index first.
pub fn rank(p: &[u32]) -> (r: Vec<usize>)
    ensures
        is_ranking(p@, r@),
{
    rank_range(p, 0, p.len())
}

/// How many of `n` ranked tokens top-k keeps: at least one, if there is one.
pub open spec fn top_k_count(n: nat, top_k: Option<usize>) -> nat {
    match top_k {
        None => n,
        Some(k) => if k >= n {
            n
        } else if k == 0 {
            1
        } else {
            k as nat
        },
    }
}

/// The ranked tokens that top-k keeps.
pub fn candidates(p: &[u32], top_k: Option<usize>) -> (r: Vec<usize>)
    ensures
        r@.len() == top_k_count(p@.len(), top_k),
        match top_k {
            None => r@.len() == p@.len(),
            Some(k) => r@.len() == (if k > p@.len() {
                p@.len()
            } else if k == 0 && p@.len() > 0 {
                1
            } else {
                k as nat
            }),
        },
        exists|all: Seq<usize>| #[trigger]
            is_ranking(p@, all) && r@ == all.take(top_k_count(p@.len(), top_k) as int),
{
    let mut idx = rank(p);
    let ghost all = idx@;
    let keep: usize = match top_k {
        None => idx.len(),
        Some(k) => if k >= idx.len() {
            idx.len()
        } else if k == 0 {
            1
        } else {
            k
        },
    };
    idx.truncate(keep);
    assert(idx@ =~= all.take(keep as int));
    assert(is_ranking(p@, all));
    idx
}

/// The token ranked first is the greedy choice.
pub proof fn first_candidate_is_greedy(p: Seq<u32>, r: Seq<usize>)
    requires
        is_ranking(p, r),
        0 < p.len() <= usize::MAX,
        forall|i: int| 0 <= i < p.len() ==> !crate::ieee::f32_nan(#[trigger] p[i]),
    ensures
        r[0] as int == best_of(p, p.len()),
{
    best_of_is_first_maximum(p, p.len());
    let b = best_of(p, p.len());
    assert(r.contains(b as usize)) by {
        assert(r.contains(b as usize) <==> (b as usize) < p.len());
    }
    let n = choose|n: int| 0 <= n < r.len() && r[n] == b as usize;
    assert(r.contains(r[0]));
    assert(!crate::ieee::f32_nan(p[r[0] as int]) && !crate::ieee::f32_nan(p[b]));
    if n > 0 {
        assert(before(p, r[0], r[n]));
    }
}

/// A ranking is the only one.
pub proof fn ranking_is_unique(p: Seq<u32>, a: Seq<usize>, b: Seq<usize>)
    requires
        p.len() <= usize::MAX,
        is_ranking(p, a),
        is_ranking(p, b),
    ensures
        a == b,
{
    assert forall|i: int| 0 <= i < a.len() implies a[i] == b[i] by {
        same_at(p, a, b, i);
    }
    assert(a =~= b);
}

proof fn same_at(p: Seq<u32>, a: Seq<usize>, b: Seq<usize>, i: int)
    requires
        p.len() <= usize::MAX,
        is_ranking(p, a),
        is_ranking(p, b),
        0 <= i < a.len(),
    ensures
        a[i] == b[i],
    decreases i,
{
    assert forall|j: int| 0 <= j < i implies a[j] == b[j] by {
        same_at(p, a, b, j);
    }
    assert(a.contains(a[i]) && b.contains(b[i]));
    assert(b.contains(a[i]) && a.contains(b[i])) by {
        assert(a.contains(a[i]) <==> a[i] < p.len());
        assert(b.contains(a[i]) <==> a[i] < p.len());
        assert(b.contains(b[i]) <==> b[i] < p.len());
        assert(a.contains(b[i]) <==> b[i] < p.len());
    }
    let x = choose|x: int| 0 <= x < b.len() && b[x] == a[i];
    let y = choose|y: int| 0 <= y < a.len() && a[y] == b[i];
    if x < i {
        assert(before(p, a[x], a[i]));
    }
    if y < i {
        assert(before(p, b[y], b[i]));
    }
    if x > i {
        assert(before(p, b[i], b[x]));
        if y > i {
            assert(before(p, a[i], a[y]));
        }
    }
}

// ── nucleus ──

/// `n` is how many ranked tokens the nucleus keeps, given their cumulative
/// probabilities: the first one that reaches `p` is the last one kept; when none
/// does, all are.
pub open spec fn is_nucleus(cumulative: Seq<u32>, p: u32, n: int) -> bool {
    &&& 0 < n <= cumulative.len()
    &&& forall|i: int|
        0 <= i < n - 1 ==> !crate::ieee::f32_at_least(#[trigger] cumulative[i], p)
    &&& n < cumulative.len() ==> crate::ieee::f32_at_least(cumulative[n - 1], p)
}

/// How many ranked tokens the nucleus keeps.
pub fn nucleus(cumulative: &[u32], p: u32) -> (r: usize)
    requires
        cumulative@.len() > 0,
    ensures
        is_nucleus(cumulative@, p, r as int),
{
    let mut i: usize = 0;
    while i < cumulative.len()
        invariant
            i <= cumulative@.len(),
            forall|j: int| 0 <= j < i ==> !crate::ieee::f32_at_least(#[trigger] cumulative@[j], p),
        decreases cumulative@.len() - i,
    {
        if at_least_f32(cumulative[i], p) {
            return i + 1;
        }
        i += 1;
    }
    cumulative.len()
}

/// The nucleus is determined by the running sums.
pub proof fn nucleus_is_unique(cumulative: Seq<u32>, p: u32, a: int, b: int)
    requires
        is_nucleus(cumulative, p, a),
        is_nucleus(cumulative, p, b),
    ensures
        a == b,
{
    if a < b {
        assert(!crate::ieee::f32_at_least(cumulative[a - 1], p));
    } else if b < a {
        assert(!crate::ieee::f32_at_least(cumulative[b - 1], p));
    }
}

// ── draw ──

/// `n` is the position drawn, given what is left of the random mass after each
/// kept token: the first one that uses it up, else the last.
pub open spec fn is_drawn(left: Seq<u32>, n: int) -> bool {
    &&& 0 <= n < left.len()
    &&& forall|i: int| 0 <= i < n ==> !crate::ieee::f32_at_least(0, #[trigger] left[i])
    &&& n < left.len() - 1 ==> crate::ieee::f32_at_least(0, left[n])
}

/// The position drawn.
pub fn draw(left: &[u32]) -> (r: usize)
    requires
        left@.len() > 0,
    ensures
        is_drawn(left@, r as int),
{
    let mut i: usize = 0;
    while i < left.len()
        invariant
            i <= left@.len(),
            forall|j: int| 0 <= j < i ==> !crate::ieee::f32_at_least(0, #[trigger] left@[j]),
        decreases left@.len() - i,
    {
        if at_least_f32(0, left[i]) {
            return i;
        }
        i += 1;
    }
    left.len() - 1
}

// ── the whole choice ──

/// Sum of the probabilities of the first `n` listed tokens, added one by one.
pub open spec fn mass(p: Seq<u32>, idx: Seq<usize>, n: nat) -> u32
    decreases n,
{
    if n == 0 {
        0
    } else {
        crate::float::sum(mass(p, idx, (n - 1) as nat), p[idx[n - 1] as int]) as u32
    }
}

/// The running sums of the listed tokens.
pub open spec fn masses(p: Seq<u32>, idx: Seq<usize>) -> Seq<u32> {
    Seq::new(idx.len(), |i: int| mass(p, idx, (i + 1) as nat))
}

/// What is left of `start` after the first `n` listed tokens, taken off one by one.
pub open spec fn remainder(start: u32, p: Seq<u32>, idx: Seq<usize>, n: nat) -> u32
    decreases n,
{
    if n == 0 {
        start
    } else {
        crate::float::sum(
            remainder(start, p, idx, (n - 1) as nat),
            crate::float::negated(p[idx[n - 1] as int]),
        ) as u32
    }
}

/// What is left after each listed token.
pub open spec fn remainders(start: u32, p: Seq<u32>, idx: Seq<usize>) -> Seq<u32> {
    Seq::new(idx.len(), |i: int| remainder(start, p, idx, (i + 1) as nat))
}

/// `kept` are the ranked tokens that top-k and nucleus leave.
pub open spec fn is_kept(s: Sampler, p: Seq<u32>, kept: Seq<usize>) -> bool {
    exists|all: Seq<usize>| #[trigger]
        is_ranking(p, all) && {
            let idx = all.take(top_k_count(p.len(), s.top_k) as int);
            match s.top_p {
                None => kept == idx,
                Some(t) => kept.len() <= idx.len() && kept == idx.take(kept.len() as int)
                    && is_nucleus(masses(p, idx), t, kept.len() as int),
            }
        }
}

/// `r` is the token drawn from the kept ones with the random number `u`.
pub open spec fn is_picked(p: Seq<u32>, kept: Seq<usize>, u: u32, r: usize) -> bool {
    let start = crate::float::product(u, mass(p, kept, kept.len())) as u32;
    exists|n: int| #[trigger] is_drawn(remainders(start, p, kept), n) && r == kept[n]
}

/// `r` is the token drawn from the probabilities `p` with the random number `u`.
pub open spec fn is_choice(s: Sampler, p: Seq<u32>, u: u32, r: usize) -> bool {
    exists|kept: Seq<usize>| #[trigger] is_kept(s, p, kept) && is_picked(p, kept, u, r)
}

/// All the listed tokens have a probability.
pub open spec fn listed_in(p: Seq<u32>, idx: Seq<usize>) -> bool {
    forall|i: int| 0 <= i < idx.len() ==> (#[trigger] idx[i]) < p.len()
}

fn running_masses(p: &[u32], idx: &Vec<usize>) -> (r: Vec<u32>)
    requires
        listed_in(p@, idx@),
    ensures
        r@ == masses(p@, idx@),
{
    let mut out: Vec<u32> = Vec::new();
    let mut acc: u32 = 0;
    let mut i: usize = 0;
    while i < idx.len()
        invariant
            listed_in(p@, idx@),
            i <= idx@.len(),
            acc == mass(p@, idx@, i as nat),
            out@.len() == i,
            forall|k: int| 0 <= k < i ==> #[trigger] out@[k] == mass(p@, idx@, (k + 1) as nat),
        decreases idx@.len() - i,
    {
        acc = add_f32(acc, p[idx[i]]);
        out.push(acc);
        i += 1;
    }
    assert(out@ =~= masses(p@, idx@));
    out
}

fn running_remainders(start: u32, p: &[u32], idx: &Vec<usize>) -> (r: Vec<u32>)
    requires
        listed_in(p@, idx@),
    ensures
        r@ == remainders(start, p@, idx@),
{
    let mut out: Vec<u32> = Vec::new();
    let mut left: u32 = start;
    let mut i: usize = 0;
    while i < idx.len()
        invariant
            listed_in(p@, idx@),
            i <= idx@.len(),
            left == remainder(start, p@, idx@, i as nat),
            out@.len() == i,
            forall|k: int|
                0 <= k < i ==> #[trigger] out@[k] == remainder(start, p@, idx@, (k + 1) as nat),
        decreases idx@.len() - i,
    {
        left = sub_f32(left, p[idx[i]]);
        out.push(left);
        i += 1;
    }
    assert(out@ =~= remainders(start, p@, idx@));
    out
}

impl Sampler {
    /// The ranked tokens that top-k and nucleus leave.
    pub fn keep(&self, p: &[u32]) -> (r: Vec<usize>)
        requires
            p@.len() > 0,
        ensures
            is_kept(*self, p@, r@),
            r@.len() > 0,
            listed_in(p@, r@),
    {
        let mut idx = candidates(p, self.top_k);
        let ghost n = top_k_count(p@.len(), self.top_k) as int;
        let ghost all = choose|all: Seq<usize>| #[trigger]
            is_ranking(p@, all) && idx@ == all.take(n);
        let ghost first = idx@;
        proof {
            assert forall|i: int| 0 <= i < idx@.len() implies (#[trigger] idx@[i]) < p@.len() by {
                assert(all.contains(all[i]));
            }
        }
        if let Some(t) = self.top_p {
            let sums = running_masses(p, &idx);
            let cut = nucleus(sums.as_slice(), t);
            idx.truncate(cut);
            assert(idx@ =~= first.take(cut as int));
        }
        assert(is_ranking(p@, all));
        idx
    }

    /// Draws a token from probabilities.
    pub fn draw_token(&self, p: &[u32], rng: &mut Rng) -> (r: usize)
        requires
            p@.len() > 0,
        ensures
            final(rng)@ == old(rng)@.wrapping_add(GOLDEN),
            is_choice(*self, p@, unit_fraction(mix(final(rng)@)) as u32, r),
            r < p@.len(),
    {
        let kept = self.keep(p);
        let sums = running_masses(p, &kept);
        let n = kept.len();
        let total: u32 = sums[n - 1];
        let u = rng.next_f32();
        let start = mul_f32(u, total);
        let left = running_remainders(start, p, &kept);
        let k = draw(left.as_slice());
        assert(total == mass(p@, kept@, kept@.len()));
        assert(start == crate::float::product(u, mass(p@, kept@, kept@.len())) as u32);
        assert(is_drawn(remainders(start, p@, kept@), k as int));
        assert(is_picked(p@, kept@, u, kept@[k as int]));
        kept[k]
    }

    /// Chooses the next token: the best logit if the sampler is greedy, without using
    /// the generator, else a draw from the probabilities.
    pub fn sample(&self, logits: &[u32], probabilities: &[u32], rng: &mut Rng) -> (r: usize)
        requires
            !self.takes_best() ==> probabilities@.len() > 0,
        ensures
            if self.takes_best() {
                r == best_of(logits@, logits@.len()) && final(rng)@ == old(rng)@
            } else {
                final(rng)@ == old(rng)@.wrapping_add(GOLDEN) && is_choice(
                    *self,
                    probabilities@,
                    unit_fraction(mix(final(rng)@)) as u32,
                    r,
                )
            },
    {
        if self.is_greedy() {
            argmax(logits)
        } else {
            self.draw_token(probabilities, rng)
        }
    }
}

/// Probabilities and a random number leave one choice: the same seed draws the same
/// tokens.
pub proof fn choice_is_unique(s: Sampler, p: Seq<u32>, u: u32, a: usize, b: usize)
    requires
        p.len() <= usize::MAX,
        is_choice(s, p, u, a),
        is_choice(s, p, u, b),
    ensures
        a == b,
{
    let x = choose|kept: Seq<usize>| #[trigger] is_kept(s, p, kept) && is_picked(p, kept, u, a);
    let y = choose|kept: Seq<usize>| #[trigger] is_kept(s, p, kept) && is_picked(p, kept, u, b);
    kept_is_unique(s, p, x, y);
    let start = crate::float::product(u, mass(p, x, x.len())) as u32;
    let left = remainders(start, p, x);
    let m = choose|n: int| #[trigger] is_drawn(left, n) && a == x[n];
    let n = choose|n: int| #[trigger] is_drawn(left, n) && b == x[n];
    if m < n {
        assert(!crate::ieee::f32_at_least(0, left[m]));
    } else if n < m {
        assert(!crate::ieee::f32_at_least(0, left[n]));
    }
}

proof fn kept_is_unique(s: Sampler, p: Seq<u32>, a: Seq<usize>, b: Seq<usize>)
    requires
        p.len() <= usize::MAX,
        is_kept(s, p, a),
        is_kept(s, p, b),
    ensures
        a == b,
{
    let count = top_k_count(p.len(), s.top_k) as int;
    let x = choose|all: Seq<usize>| #[trigger]
        is_ranking(p, all) && {
            let idx = all.take(count);
            match s.top_p {
                None => a == idx,
                Some(t) => a.len() <= idx.len() && a == idx.take(a.len() as int) && is_nucleus(
                    masses(p, idx),
                    t,
                    a.len() as int,
                ),
            }
        };
    let y = choose|all: Seq<usize>| #[trigger]
        is_ranking(p, all) && {
            let idx = all.take(count);
            match s.top_p {
                None => b == idx,
                Some(t) => b.len() <= idx.len() && b == idx.take(b.len() as int) && is_nucleus(
                    masses(p, idx),
                    t,
                    b.len() as int,
                ),
            }
        };
    ranking_is_unique(p, x, y);
    if let Some(t) = s.top_p {
        nucleus_is_unique(masses(p, x.take(count)), t, a.len() as int, b.len() as int);
    }
}

/// With top-k one the draw is the greedy choice, whatever the random number.
pub proof fn single_candidate_is_greedy(s: Sampler, p: Seq<u32>, u: u32, r: usize)
    requires
        0 < p.len() <= usize::MAX,
        s.top_k == Some(1usize),
        forall|i: int| 0 <= i < p.len() ==> !crate::ieee::f32_nan(#[trigger] p[i]),
        is_choice(s, p, u, r),
    ensures
        r as int == best_of(p, p.len()),
{
    let kept = choose|kept: Seq<usize>| #[trigger] is_kept(s, p, kept) && is_picked(p, kept, u, r);
    let all = choose|all: Seq<usize>| #[trigger]
        is_ranking(p, all) && {
            let idx = all.take(top_k_count(p.len(), s.top_k) as int);
            match s.top_p {
                None => kept == idx,
                Some(t) => kept.len() <= idx.len() && kept == idx.take(kept.len() as int)
                    && is_nucleus(masses(p, idx), t, kept.len() as int),
            }
        };
    first_candidate_is_greedy(p, all);
    assert(all.take(1)[0] == all[0]);
    assert(kept.len() == 1 && kept[0] == all[0]);
}

} // verus!
