//! What a sampler keeps and draws, in terms of the probabilities.

use vstd::arithmetic::power2::*;
use vstd::prelude::*;

use crate::ieee::Format;
use crate::sampling::Sampler;

verus! {

// ── temperature ──

/// A sampler is greedy where its temperature is a number that is not positive.
pub proof fn greedy_means_no_temperature(s: Sampler)
    ensures
        s.takes_best() <==> !crate::ieee::f32_nan(s.temperature) && crate::ieee::f32_value(
            s.temperature,
        ) <= 0,
{
    crate::ieee::key_follows_value(s.temperature, 0);
    zero_has_no_value();
}

proof fn zero_has_no_value()
    ensures
        crate::ieee::f32_value(0) == 0,
{
    assert(0 * pow2(0) == 0) by (nonlinear_arith);
}

// ── ranking ──

/// Tokens are ranked by decreasing probability, those without one last; of equally
/// probable ones the lower comes first.
pub proof fn rankings_go_by_probability(p: Seq<u32>, r: Seq<usize>, i: int, j: int)
    requires
        crate::sampling::is_ranking(p, r),
        0 <= i < j < r.len(),
    ensures
        r[i] < p.len(),
        r[j] < p.len(),
        r[i] != r[j],
        ({
            let a = p[r[i] as int];
            let b = p[r[j] as int];
            &&& !crate::ieee::f32_nan(b) ==> !crate::ieee::f32_nan(a) && crate::ieee::f32_value(a)
                >= crate::ieee::f32_value(b)
            &&& !crate::ieee::f32_nan(b) && crate::ieee::f32_value(a) == crate::ieee::f32_value(b)
                ==> r[i] < r[j]
        }),
{
    assert(r.contains(r[i]) && r.contains(r[j]));
    assert(crate::sampling::before(p, r[i], r[j]));
    crate::ieee::key_follows_value(p[r[i] as int], p[r[j] as int]);
}

// ── top-k ──

/// Top-k keeps as many tokens as asked for: all where there are no more, and at least
/// one. Without it all are kept.
pub proof fn top_k_keeps_as_many_as_asked(n: nat, k: usize)
    ensures
        crate::sampling::top_k_count(n, None) == n,
        1 <= k <= n ==> crate::sampling::top_k_count(n, Some(k)) == k,
        k > n ==> crate::sampling::top_k_count(n, Some(k)) == n,
        n > 0 ==> crate::sampling::top_k_count(n, Some(0)) == 1,
{
}

/// No token that top-k leaves out is more probable than one that it keeps.
pub proof fn top_k_keeps_the_most_probable(
    p: Seq<u32>,
    all: Seq<usize>,
    k: usize,
    a: usize,
    b: usize,
)
    requires
        crate::sampling::is_ranking(p, all),
        a < p.len(),
        b < p.len(),
        all.take(crate::sampling::top_k_count(p.len(), Some(k)) as int).contains(a),
        !all.take(crate::sampling::top_k_count(p.len(), Some(k)) as int).contains(b),
    ensures
        !crate::ieee::f32_nan(p[b as int]) ==> !crate::ieee::f32_nan(p[a as int])
            && crate::ieee::f32_value(p[a as int]) >= crate::ieee::f32_value(p[b as int]),
{
    let count = crate::sampling::top_k_count(p.len(), Some(k)) as int;
    let kept = all.take(count);
    let i = choose|i: int| 0 <= i < kept.len() && kept[i] == a;
    assert(all[i] == a);
    assert(all.contains(b) <==> b < p.len());
    let j = choose|j: int| 0 <= j < all.len() && all[j] == b;
    if j < count {
        assert(kept[j] == b);
        assert(kept.contains(b));
    }
    rankings_go_by_probability(p, all, i, j);
}

/// Without a nucleus the sampler draws from the `k` most probable tokens, or from all
/// where top-k is off.
pub proof fn sampler_keeps_the_top_k(s: Sampler, p: Seq<u32>, kept: Seq<usize>)
    requires
        crate::sampling::is_kept(s, p, kept),
        s.top_p is None,
    ensures
        s.top_k is None ==> kept.len() == p.len(),
        s.top_k matches Some(k) ==> (1 <= k <= p.len() ==> kept.len() == k),
        s.top_k matches Some(k) ==> (k > p.len() ==> kept.len() == p.len()),
{
    let all = choose|all: Seq<usize>| #[trigger]
        crate::sampling::is_ranking(p, all) && {
            let idx = all.take(crate::sampling::top_k_count(p.len(), s.top_k) as int);
            match s.top_p {
                None => kept == idx,
                Some(t) => kept.len() <= idx.len() && kept == idx.take(kept.len() as int)
                    && crate::sampling::is_nucleus(
                    crate::sampling::masses(p, idx),
                    t,
                    kept.len() as int,
                ),
            }
        };
    assert(all.len() == p.len());
}

// ── nucleus ──

/// The probability of the first tokens is added up one by one, from nothing.
pub proof fn masses_add_up(p: Seq<u32>, idx: Seq<usize>, n: nat)
    requires
        n < idx.len(),
    ensures
        crate::sampling::mass(p, idx, 0) == 0,
        crate::sampling::mass(p, idx, n + 1) == crate::float::sum(
            crate::sampling::mass(p, idx, n),
            p[idx[n as int] as int],
        ) as u32,
        crate::sampling::masses(p, idx)[n as int] == crate::sampling::mass(p, idx, n + 1),
{
}

proof fn mass_of_prefix(p: Seq<u32>, idx: Seq<usize>, m: int, n: nat)
    requires
        n <= m <= idx.len(),
    ensures
        crate::sampling::mass(p, idx.take(m), n) == crate::sampling::mass(p, idx, n),
    decreases n,
{
    if n > 0 {
        mass_of_prefix(p, idx, m, (n - 1) as nat);
    }
}

/// The nucleus is the fewest most probable tokens whose probabilities reach the given
/// mass: no fewer do, and these do unless even all that top-k leaves do not.
pub proof fn nucleus_is_the_fewest_that_reach(s: Sampler, p: Seq<u32>, kept: Seq<usize>, t: u32)
    requires
        crate::sampling::is_kept(s, p, kept),
        s.top_p == Some(t),
        p.len() > 0,
    ensures
        kept.len() > 0,
        forall|n: nat|
            0 < n < kept.len() ==> !crate::ieee::f32_at_least(
                #[trigger] crate::sampling::mass(p, kept, n),
                t,
            ),
        crate::ieee::f32_at_least(crate::sampling::mass(p, kept, kept.len()), t) || kept.len()
            == crate::sampling::top_k_count(p.len(), s.top_k),
{
    let count = crate::sampling::top_k_count(p.len(), s.top_k) as int;
    let all = choose|all: Seq<usize>| #[trigger]
        crate::sampling::is_ranking(p, all) && {
            let idx = all.take(count);
            match s.top_p {
                None => kept == idx,
                Some(t) => kept.len() <= idx.len() && kept == idx.take(kept.len() as int)
                    && crate::sampling::is_nucleus(
                    crate::sampling::masses(p, idx),
                    t,
                    kept.len() as int,
                ),
            }
        };
    let idx = all.take(count);
    let sums = crate::sampling::masses(p, idx);
    assert forall|n: nat| 0 < n < kept.len() implies !crate::ieee::f32_at_least(
        #[trigger] crate::sampling::mass(p, kept, n),
        t,
    ) by {
        mass_of_prefix(p, idx, kept.len() as int, n);
        assert(!crate::ieee::f32_at_least(sums[n - 1], t));
    }
    mass_of_prefix(p, idx, kept.len() as int, kept.len());
}

/// A larger mass keeps at least as many tokens.
pub proof fn larger_nucleus_keeps_more(sums: Seq<u32>, p: u32, q: u32, a: int, b: int)
    requires
        crate::sampling::is_nucleus(sums, p, a),
        crate::sampling::is_nucleus(sums, q, b),
        !crate::ieee::f32_nan(p),
        !crate::ieee::f32_nan(q),
        crate::ieee::f32_value(p) <= crate::ieee::f32_value(q),
    ensures
        a <= b,
{
    crate::ieee::key_follows_value(p, q);
    if b < a {
        assert(crate::ieee::f32_at_least(sums[b - 1], q));
        assert(!crate::ieee::f32_at_least(sums[b - 1], p));
    }
}

// ── draw ──

/// Each kept token takes its probability off what is left of the draw.
pub proof fn remainders_go_down(start: u32, p: Seq<u32>, idx: Seq<usize>, n: nat)
    requires
        n < idx.len(),
    ensures
        crate::sampling::remainder(start, p, idx, 0) == start,
        crate::sampling::remainder(start, p, idx, n + 1) == crate::float::sum(
            crate::sampling::remainder(start, p, idx, n),
            crate::float::negated(p[idx[n as int] as int]),
        ) as u32,
        crate::sampling::remainders(start, p, idx)[n as int] == crate::sampling::remainder(
            start,
            p,
            idx,
            n + 1,
        ),
{
}

/// The opposite of a number has the opposite value.
pub proof fn negation_changes_the_sign(a: u32)
    ensures
        crate::ieee::f32_value(crate::float::negated(a)) == -crate::ieee::f32_value(a),
        crate::ieee::f32_nan(crate::float::negated(a)) == crate::ieee::f32_nan(a),
        crate::ieee::f32_finite(crate::float::negated(a)) == crate::ieee::f32_finite(a),
{
    let b = crate::float::negated(a);
    assert(a as nat % 0x8000_0000 == b as nat % 0x8000_0000);
    assert(crate::ieee::f32_exponent(a) == crate::ieee::f32_exponent(b));
}

/// The token drawn is the first that leaves nothing of the draw; where rounding lets some
/// remain to the end it is the last one.
pub proof fn draws_end_where_nothing_is_left(left: Seq<u32>, n: int, i: int)
    requires
        crate::sampling::is_drawn(left, n),
        0 <= i < n,
        !crate::ieee::f32_nan(left[i]),
        !crate::ieee::f32_nan(left[n]),
    ensures
        crate::ieee::f32_value(left[i]) > 0,
        n < left.len() - 1 ==> crate::ieee::f32_value(left[n]) <= 0,
{
    zero_has_no_value();
    crate::ieee::key_follows_value(0, left[i]);
    crate::ieee::key_follows_value(0, left[n]);
}

/// All the listed probabilities are finite.
pub open spec fn all_finite(p: Seq<u32>, idx: Seq<usize>) -> bool {
    forall|i: int| 0 <= i < idx.len() ==> crate::ieee::f32_finite(p[#[trigger] idx[i] as int])
}

proof fn more_remains(a: u32, b: u32, p: Seq<u32>, idx: Seq<usize>, n: nat)
    requires
        all_finite(p, idx),
        !crate::ieee::f32_nan(a),
        !crate::ieee::f32_nan(b),
        crate::ieee::f32_key(a) <= crate::ieee::f32_key(b),
        n <= idx.len(),
    ensures
        !crate::ieee::f32_nan(crate::sampling::remainder(a, p, idx, n)),
        !crate::ieee::f32_nan(crate::sampling::remainder(b, p, idx, n)),
        crate::ieee::f32_key(crate::sampling::remainder(a, p, idx, n)) <= crate::ieee::f32_key(
            crate::sampling::remainder(b, p, idx, n),
        ),
    decreases n,
{
    if n > 0 {
        let m = (n - 1) as nat;
        more_remains(a, b, p, idx, m);
        let x = p[idx[m as int] as int];
        assert(crate::ieee::f32_finite(x));
        negation_changes_the_sign(x);
        crate::float::sums_are_monotone(
            crate::sampling::remainder(a, p, idx, m),
            crate::sampling::remainder(b, p, idx, m),
            crate::float::negated(x),
        );
    }
}

/// A larger random number draws the same token or one that is ranked later.
pub proof fn larger_draws_fall_later(
    p: Seq<u32>,
    kept: Seq<usize>,
    total: u32,
    u: u32,
    w: u32,
    m: int,
    n: int,
)
    requires
        all_finite(p, kept),
        total < 0x7f80_0000,
        u <= w < 0x3f80_0000,
        crate::sampling::is_drawn(
            crate::sampling::remainders(crate::float::product(u, total) as u32, p, kept),
            m,
        ),
        crate::sampling::is_drawn(
            crate::sampling::remainders(crate::float::product(w, total) as u32, p, kept),
            n,
        ),
    ensures
        m <= n,
{
    crate::float::products_are_monotone(u, w, total);
    let a = crate::float::product(u, total) as u32;
    let b = crate::float::product(w, total) as u32;
    if n < m {
        more_remains(a, b, p, kept, (n + 1) as nat);
        assert(!crate::ieee::f32_at_least(0, crate::sampling::remainders(a, p, kept)[n]));
        assert(crate::ieee::f32_at_least(0, crate::sampling::remainders(b, p, kept)[n]));
    }
}

/// The random number zero draws the most probable token.
pub proof fn zero_draws_the_first(p: Seq<u32>, kept: Seq<usize>, r: usize)
    requires
        kept.len() > 0,
        p[kept[0] as int] < 0x7f80_0000,
        crate::sampling::mass(p, kept, kept.len()) < 0x7f80_0000,
        crate::sampling::is_picked(p, kept, 0, r),
    ensures
        r == kept[0],
{
    let total = crate::sampling::mass(p, kept, kept.len());
    let start = crate::float::product(0, total) as u32;
    let left = crate::sampling::remainders(start, p, kept);
    let n = choose|n: int| #[trigger] crate::sampling::is_drawn(left, n) && r == kept[n];
    let x = p[kept[0] as int];
    zero_product(total);
    negation_changes_the_sign(x);
    remainders_go_down(start, p, kept, 0);
    zero_has_no_value();
    crate::float::sums_are_nearest(0, crate::float::negated(x));
    crate::ieee::key_follows_value(x, 0);
    if n > 0 {
        assert(!crate::ieee::f32_at_least(0, left[0]));
    }
}

proof fn zero_product(total: u32)
    requires
        total < 0x7f80_0000,
    ensures
        crate::float::product(0, total) == 0,
{
    let f = Format::Single;
    zero_has_no_value();
    let z = crate::ieee::f32_magnitude(total);
    assert(0 * z == 0) by (nonlinear_arith);
    lemma_pow2_pos(149);
    crate::ieee::rounding_is_exact(f, 0, pow2(149));
    assert(f.magnitude(0) == 0);
    assert(0 * pow2(149) == 0) by (nonlinear_arith);
}

// ── random numbers ──

/// A random number grows with the random bits that it is made of, and lies below one.
pub proof fn fractions_follow_the_bits(x: u64, y: u64)
    requires
        x <= y,
    ensures
        crate::sampling::unit_fraction(x) <= crate::sampling::unit_fraction(y) < 0x3f80_0000,
{
    let a = (x as nat / 0x800) * pow2(96);
    let b = (y as nat / 0x800) * pow2(96);
    assert(a <= b) by (nonlinear_arith)
        requires
            a == (x as nat / 0x800) * pow2(96),
            b == (y as nat / 0x800) * pow2(96),
            x as nat / 0x800 <= y as nat / 0x800,
    ;
    crate::ieee::rounding_is_monotone(Format::Single, a, b, 1);
}

/// It is the f32 nearest to the top 53 bits as a fraction of 2^53, as long as that is not
/// one.
pub proof fn fractions_are_nearest(x: u64)
    ensures
        Format::Single.nearest(
            (x as nat / 0x800) * pow2(149),
            pow2(53),
            crate::sampling::unit_fraction(x),
        ) || crate::sampling::unit_fraction(x) == 0x3f7f_ffff,
{
    let m = x as nat / 0x800;
    lemma_pow2_adds(96, 53);
    lemma_pow2_pos(53);
    assert((m * pow2(96)) * pow2(53) == m * pow2(149)) by (nonlinear_arith)
        requires
            pow2(96) * pow2(53) == pow2(149),
    ;
    assert(1 * pow2(53) == pow2(53)) by (nonlinear_arith);
    crate::ieee::rounding_scales(Format::Single, m * pow2(96), 1, pow2(53));
    crate::ieee::nearest_exists(Format::Single, m * pow2(149), pow2(53));
}

// ── random numbers ──

/// The state that an output comes from: the three shifts and the two multiplications
/// undone, the last one first.
pub open spec fn unmixed(x: u64) -> u64 {
    let b = x ^ (x >> 31) ^ (x >> 62);
    let p = b.wrapping_mul(0x3196_42b2_d24d_8ec3);
    let a = p ^ (p >> 27) ^ (p >> 54);
    let q = a.wrapping_mul(0x96de_1b17_3f11_9089);
    q ^ (q >> 30) ^ (q >> 60)
}

/// An output gives its state back, so different states never give the same output.
pub proof fn outputs_give_the_state_back(z: u64)
    ensures
        unmixed(crate::sampling::mix(z)) == z,
{
    let x1 = z ^ (z >> 30);
    let a = x1.wrapping_mul(0xBF58476D1CE4E5B9);
    let x2 = a ^ (a >> 27);
    let b = x2.wrapping_mul(0x94D049BB133111EB);
    let x3 = b ^ (b >> 31);
    assert(x3 ^ (x3 >> 31) ^ (x3 >> 62) == b) by (bit_vector)
        requires
            x3 == b ^ (b >> 31),
    ;
    product_is_undone(x2, 0x94D049BB133111EB, 0x3196_42b2_d24d_8ec3);
    assert(x2 ^ (x2 >> 27) ^ (x2 >> 54) == a) by (bit_vector)
        requires
            x2 == a ^ (a >> 27),
    ;
    product_is_undone(x1, 0xBF58476D1CE4E5B9, 0x96de_1b17_3f11_9089);
    assert(x1 ^ (x1 >> 30) ^ (x1 >> 60) == z) by (bit_vector)
        requires
            x1 == z ^ (z >> 30),
    ;
}

proof fn product_is_undone(x: u64, c: u64, d: u64)
    requires
        (c as int * d as int) % 0x1_0000_0000_0000_0000 == 1,
    ensures
        x.wrapping_mul(c).wrapping_mul(d) == x,
{
    let m = 0x1_0000_0000_0000_0000int;
    let y = (x as int * c as int) % m;
    let q = (x as int * c as int) / m;
    let k = (c as int * d as int) / m;
    vstd::arithmetic::div_mod::lemma_fundamental_div_mod(x as int * c as int, m);
    vstd::arithmetic::div_mod::lemma_fundamental_div_mod(c as int * d as int, m);
    assert(y * d == m * (k * x - q * d) + x) by (nonlinear_arith)
        requires
            x * c == m * q + y,
            c * d == m * k + 1,
    ;
    vstd::arithmetic::div_mod::lemma_fundamental_div_mod_converse(
        y * d,
        m,
        k * x - q * d,
        x as int,
    );
    assert(x.wrapping_mul(c) == y);
}

/// Each step moves the state by the golden ratio of the number range.
pub proof fn steps_are_golden(state: u64, n: nat)
    ensures
        crate::sampling::state_after(state, n + 1) as int == (crate::sampling::state_after(state, n)
            + 0x9E37_79B9_7F4A_7C15) % 0x1_0000_0000_0000_0000,
        crate::sampling::state_after(state, 0) == state,
{
}

// ── shares ──

proof fn positive_is_not_zero(v: nat)
    requires
        v > 0,
    ensures
        !Format::Single.nearest(v, 1, 0),
{
    let f = Format::Single;
    lemma2_to64();
    assert(f.significand(0) == 0 && f.scale(0) == 0);
    assert(f.midpoint(0) * 1 == 1) by (nonlinear_arith)
        requires
            f.midpoint(0) == (2 * 0 + 1) * pow2(0),
            pow2(0) == 1,
    ;
    assert(f.above(v, 1, 0));
}

proof fn sign_of_pattern(s: u32)
    ensures
        s == 0 || s == 0x8000_0000 ==> crate::ieee::f32_at_least(0, s),
        0 < s <= 0x7f80_0000 ==> !crate::ieee::f32_at_least(0, s),
        0x8000_0000 <= s <= 0xff80_0000 ==> crate::ieee::f32_at_least(0, s),
{
}

proof fn small_patterns_are_finite(a: u32)
    requires
        a < 0x7f80_0000,
    ensures
        crate::ieee::f32_finite(a),
{
}

proof fn nearest_is_bounded(v: nat, s: nat)
    requires
        Format::Single.nearest(v, 1, s),
    ensures
        s <= 0x7f80_0000,
        s == 0 ==> v == 0,
{
    if v > 0 {
        positive_is_not_zero(v);
    }
}

proof fn nothing_is_zero(s: nat)
    requires
        Format::Single.nearest(0, 1, s),
    ensures
        s == 0,
{
    let f = Format::Single;
    if s > 0 {
        let b = (s - 1) as nat;
        crate::ieee::magnitude_step(f, b);
        assert(f.midpoint(b) * 1 >= 0) by (nonlinear_arith);
        crate::ieee::magnitude_increases(f, b, s);
        assert(f.midpoint(b) > 0);
        assert(f.midpoint(b) * 1 == f.midpoint(b)) by (nonlinear_arith);
        assert(!f.above(0, 1, b));
    }
}

#[verifier::spinoff_prover]
proof fn difference_has_the_sign(a: u32, x: u32)
    requires
        a < 0x7f80_0000,
        x < 0x7f80_0000,
    ensures
        ({
            let s = crate::float::sum(a, crate::float::negated(x)) as u32;
            crate::ieee::f32_at_least(0, s) <==> crate::ieee::f32_value(a) <= crate::ieee::f32_value(
                x,
            )
        }),
{
    let y = crate::float::negated(x);
    let v = crate::ieee::f32_value(a) + crate::ieee::f32_value(y);
    small_patterns_are_finite(a);
    small_patterns_are_finite(x);
    negation_changes_the_sign(x);
    crate::float::sums_are_nearest(a, y);
    let s = crate::float::sum(a, y);
    if v < 0 {
        nearest_is_bounded((-v) as nat, (s - 0x8000_0000) as nat);
    } else if v > 0 {
        nearest_is_bounded(v as nat, s);
    } else if s != 0x8000_0000 {
        nothing_is_zero(s);
    }
    sign_of_pattern(s as u32);
}

/// The most probable token is drawn exactly where the random number, as a share of the
/// mass of the kept tokens, does not exceed its probability.
pub proof fn first_token_takes_its_share(
    p: Seq<u32>,
    kept: Seq<usize>,
    total: u32,
    u: u32,
    r: usize,
)
    requires
        kept.len() > 1,
        forall|i: int| 0 < i < kept.len() ==> #[trigger] kept[i] != kept[0],
        p[kept[0] as int] < 0x7f80_0000,
        total == crate::sampling::mass(p, kept, kept.len()),
        crate::float::product(u, total) < 0x7f80_0000,
        crate::sampling::is_picked(p, kept, u, r),
    ensures
        r == kept[0] <==> crate::ieee::f32_value(crate::float::product(u, total) as u32)
            <= crate::ieee::f32_value(p[kept[0] as int]),
{
    let start = crate::float::product(u, total) as u32;
    let left = crate::sampling::remainders(start, p, kept);
    let n = choose|n: int| #[trigger] crate::sampling::is_drawn(left, n) && r == kept[n];
    let x = p[kept[0] as int];
    difference_has_the_sign(start, x);
    assert(crate::sampling::remainder(start, p, kept, 0) == start);
    assert(left[0] == crate::float::sum(start, crate::float::negated(x)) as u32);
    if n > 0 {
        assert(!crate::ieee::f32_at_least(0, left[0]));
        assert(kept[n] != kept[0]);
    }
}

} // verus!
