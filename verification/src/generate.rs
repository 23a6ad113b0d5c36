//! Autoregressive generation: which token goes in next, and when to stop.
//!
//! The model chooses the tokens; what is decided here is how the choices become an
//! answer. Generation ends at an end-of-sequence token, at a stop string in the
//! decoded text, or when enough tokens were generated.

use vstd::arithmetic::power2::*;
use vstd::prelude::*;

use crate::bignat::BigNat;
use crate::ieee::{greater_f32, parts_f32, round, Format};
use crate::text::{chars_of, find, string_of};
use crate::tokenizer::Tokenizer;

verus! {

/// Parameters of one generation. Floats are f32 patterns.
#[derive(Debug, Clone, PartialEq, Eq)]
pub struct GenerateParams {
    /// How many tokens to generate at most, the prompt aside.
    pub max_tokens: usize,
    /// Zero means greedy.
    pub temperature: u32,
    pub top_k: Option<usize>,
    pub top_p: Option<u32>,
    /// Seed of the random generator; the clock without one.
    pub seed: Option<u64>,
    /// Strings that end the generation when the text shows them.
    pub stop: Vec<String>,
    /// Tokens that end the generation besides the tokenizer's own.
    pub extra_eos: Vec<u32>,
}

impl Default for GenerateParams {
    /// Greedy, 256 tokens, no stop strings.
    fn default() -> (r: Self)
        ensures
            r.max_tokens == 256,
            r.temperature == 0,
            r.top_k is None,
            r.top_p is None,
            r.seed is None,
            r.stop@.len() == 0,
            r.extra_eos@.len() == 0,
    {
        GenerateParams {
            max_tokens: 256,
            temperature: 0,
            top_k: None,
            top_p: None,
            seed: None,
            stop: Vec::new(),
            extra_eos: Vec::new(),
        }
    }
}

/// Mathematical view of [`GenerateParams`].
pub struct ParamsView {
    pub max_tokens: usize,
    pub temperature: u32,
    pub top_k: Option<usize>,
    pub top_p: Option<u32>,
    pub seed: Option<u64>,
    pub stop: Seq<Seq<char>>,
    pub extra_eos: Seq<u32>,
}

impl View for GenerateParams {
    type V = ParamsView;

    open spec fn view(&self) -> ParamsView {
        ParamsView {
            max_tokens: self.max_tokens,
            temperature: self.temperature,
            top_k: self.top_k,
            top_p: self.top_p,
            seed: self.seed,
            stop: crate::pre::texts(self.stop@),
            extra_eos: self.extra_eos@,
        }
    }
}

/// A finished generation.
#[derive(Debug, Clone, PartialEq, Eq)]
pub struct Generated {
    /// The generated tokens. They may reach past a stop string; the text does not.
    pub ids: Vec<u32>,
    /// The decoded text, cut at the stop string.
    pub text: String,
    /// "stop" for an end token or a stop string, "length" otherwise.
    pub finish_reason: &'static str,
    pub prompt_tokens: usize,
    /// Time that it took in seconds, an f32 pattern.
    pub elapsed_secs: u32,
}

// ── speed ──

/// A count as an f32 pattern.
pub open spec fn counted(n: nat) -> nat {
    Format::Single.rounded(n * pow2(149), 1)
}

/// `n` things in a time, per second, as an f32 pattern; zero where no time passed.
pub open spec fn rate(n: nat, secs: u32) -> nat {
    if !crate::ieee::f32_greater(secs, 0) || secs == 0x7f80_0000 {
        0
    } else {
        Format::Single.rounded(
            Format::Single.magnitude(counted(n)) * pow2(149),
            crate::ieee::f32_magnitude(secs),
        )
    }
}

fn amount(bits: u32) -> (r: BigNat)
    requires
        bits < 0x8000_0000,
    ensures
        r@ == Format::Single.magnitude(bits as nat),
{
    let (n, scale) = parts_f32(bits);
    let mut out = BigNat::from_u64(n);
    out.mul_pow2(scale);
    out
}

impl Generated {
    /// Tokens per second, an f32 pattern.
    pub fn tokens_per_sec(&self) -> (r: u32)
        ensures
            r == rate(self.ids@.len(), self.elapsed_secs),
            r <= 0x7f80_0000,
    {
        if !greater_f32(self.elapsed_secs, 0) || self.elapsed_secs == 0x7f80_0000 {
            return 0;
        }
        let one = BigNat::from_u64(1);
        let mut n = BigNat::from_u64(self.ids.len() as u64);
        n.mul_pow2(149);
        let count = round(Format::Single, &n, &one);
        let mut p = amount(count as u32);
        p.mul_pow2(149);
        let q = amount(self.elapsed_secs);
        proof {
            lemma2_to64();
            crate::ieee::magnitude_increases(Format::Single, 0, self.elapsed_secs as nat);
        }
        round(Format::Single, &p, &q) as u32
    }
}

// ── when generation ends ──

/// What ends a generation.
pub struct Limits {
    pub max_tokens: nat,
    /// End-of-sequence tokens.
    pub ends: Set<u32>,
    /// Stop strings, in the order in which they are looked for.
    pub stops: Seq<Seq<char>>,
}

/// The limits that a tokenizer and parameters set.
pub open spec fn limits(t: crate::tokenizer::TokenizerView, p: GenerateParams) -> Limits {
    Limits {
        max_tokens: p.max_tokens as nat,
        ends: Set::new(|id: u32| t.eos_id == Some(id) || p.extra_eos@.contains(id)),
        stops: crate::pre::texts(p.stop@),
    }
}

/// The text of generated tokens; none when they do not decode.
pub open spec fn text_of(t: crate::tokenizer::TokenizerView, ids: Seq<u32>) -> Seq<char> {
    match crate::tokenizer::decoded(t, ids) {
        Ok(s) => s,
        Err(_) => Seq::empty(),
    }
}

/// The first of the stop strings that the text shows; an empty one never counts.
pub open spec fn hit(text: Seq<char>, stops: Seq<Seq<char>>) -> Option<Seq<char>>
    decreases stops.len(),
{
    if stops.len() == 0 {
        None
    } else if stops[0].len() > 0 && crate::text::contains(text, stops[0]) {
        Some(stops[0])
    } else {
        hit(text, stops.drop_first())
    }
}

/// The text ends before the first occurrence of `stop`.
pub open spec fn cut_before(text: Seq<char>, stop: Seq<char>, kept: Seq<char>) -> bool {
    kept.len() <= text.len() && kept == text.take(kept.len() as int) && crate::text::first_at(
        text,
        stop,
        kept.len() as int,
    )
}

/// The tokens end with an end-of-sequence token.
pub open spec fn ended(l: Limits, ids: Seq<u32>) -> bool {
    ids.len() > 0 && l.ends.contains(ids.last())
}

/// The tokens end a generation by themselves, whatever the length.
pub open spec fn halts(t: crate::tokenizer::TokenizerView, l: Limits, ids: Seq<u32>) -> bool {
    ids.len() > 0 && (ended(l, ids) || hit(text_of(t, ids), l.stops) is Some)
}

/// Nothing before the last token ended the generation, and there are not too many.
pub open spec fn reachable(t: crate::tokenizer::TokenizerView, l: Limits, ids: Seq<u32>) -> bool {
    ids.len() <= l.max_tokens && forall|n: int|
        0 <= n < ids.len() ==> !halts(t, l, #[trigger] ids.take(n))
}

/// The answer that generated tokens give.
pub open spec fn answer(
    t: crate::tokenizer::TokenizerView,
    l: Limits,
    ids: Seq<u32>,
    text: Seq<char>,
) -> bool {
    if ended(l, ids) || hit(text_of(t, ids), l.stops) is None || ids.len() == 0 {
        text == text_of(t, ids)
    } else {
        cut_before(text_of(t, ids), hit(text_of(t, ids), l.stops)->Some_0, text)
    }
}

// ── one generation ──

/// A generation in progress.
pub struct Generation<'a> {
    tok: &'a Tokenizer,
    params: &'a GenerateParams,
    ids: Vec<u32>,
    kept: Option<String>,
    stopped: bool,
}

impl<'a> Generation<'a> {
    /// The tokenizer.
    pub closed spec fn tokens(&self) -> crate::tokenizer::TokenizerView {
        self.tok@
    }

    /// What ends it.
    pub closed spec fn limits(&self) -> Limits {
        limits(self.tok@, *self.params)
    }

    /// The tokens generated so far.
    pub closed spec fn ids(&self) -> Seq<u32> {
        self.ids@
    }

    /// The generation has come this far by the rules.
    pub closed spec fn wf(&self) -> bool {
        let t = self.tok@;
        let l = limits(t, *self.params);
        &&& reachable(t, l, self.ids@)
        &&& self.stopped == halts(t, l, self.ids@)
        &&& match self.kept {
            None => ended(l, self.ids@) || hit(text_of(t, self.ids@), l.stops) is None
                || self.ids@.len() == 0,
            Some(k) => self.ids@.len() > 0 && !ended(l, self.ids@) && hit(
                text_of(t, self.ids@),
                l.stops,
            ) is Some && cut_before(
                text_of(t, self.ids@),
                hit(text_of(t, self.ids@), l.stops)->Some_0,
                k@,
            ),
        }
    }

    /// What every generation keeps: it never runs on past an end token, a stop
    /// string or the number of tokens asked for.
    pub proof fn never_overruns(&self)
        requires
            self.wf(),
        ensures
            reachable(self.tokens(), self.limits(), self.ids()),
    {
    }

    /// A generation that has not begun.
    pub fn new(tok: &'a Tokenizer, params: &'a GenerateParams) -> (r: Self)
        ensures
            r.wf(),
            r.tokens() == tok@,
            r.limits() == limits(tok@, *params),
            r.ids() == Seq::<u32>::empty(),
    {
        Generation { tok, params, ids: Vec::new(), kept: None, stopped: false }
    }

    /// Whether another token is to be chosen.
    pub fn wants_more(&self) -> (r: bool)
        requires
            self.wf(),
        ensures
            r == (self.ids().len() < self.limits().max_tokens && !halts(
                self.tokens(),
                self.limits(),
                self.ids(),
            )),
    {
        self.ids.len() < self.params.max_tokens && !self.stopped
    }

    /// What the model reads next: the whole prompt at first, then the token chosen
    /// last.
    pub fn input(&self, prompt: &[u32]) -> (r: Vec<u32>)
        ensures
            r@ == input_at(prompt@, self.ids(), self.ids().len() as int),
    {
        let n = self.ids.len();
        let mut out: Vec<u32> = Vec::new();
        if n == 0 {
            out.extend_from_slice(prompt);
            assert(out@ =~= prompt@);
        } else {
            out.push(self.ids[n - 1]);
        }
        out
    }

    fn is_end(&self, id: u32) -> (r: bool)
        ensures
            r == self.limits().ends.contains(id),
    {
        if let Some(e) = self.tok.eos_id() {
            if e == id {
                return true;
            }
        }
        let mut i: usize = 0;
        while i < self.params.extra_eos.len()
            invariant
                i <= self.params.extra_eos@.len(),
                forall|j: int| 0 <= j < i ==> self.params.extra_eos@[j] != id,
            decreases self.params.extra_eos@.len() - i,
        {
            if self.params.extra_eos[i] == id {
                return true;
            }
            i += 1;
        }
        false
    }

    /// Takes the token that was chosen.
    pub fn accept(&mut self, next: u32)
        requires
            old(self).wf(),
            old(self).ids().len() < old(self).limits().max_tokens,
            !halts(old(self).tokens(), old(self).limits(), old(self).ids()),
        ensures
            final(self).wf(),
            final(self).tokens() == old(self).tokens(),
            final(self).limits() == old(self).limits(),
            final(self).ids() == old(self).ids().push(next),
    {
        let ghost before = self.ids@;
        self.ids.push(next);
        let ghost t = self.tok@;
        let ghost l = limits(t, *self.params);
        proof {
            assert forall|n: int| 0 <= n < self.ids@.len() implies !halts(
                t,
                l,
                #[trigger] self.ids@.take(n),
            ) by {
                if n < before.len() {
                    assert(self.ids@.take(n) =~= before.take(n));
                } else {
                    assert(self.ids@.take(n) =~= before);
                }
            }
            assert(self.ids@.last() == next);
        }
        if self.is_end(next) {
            self.kept = None;
            self.stopped = true;
            return;
        }
        self.kept = None;
        if self.params.stop.len() > 0 {
            let full = match self.tok.decode(self.ids.as_slice()) {
                Ok(s) => s,
                Err(_) => String::new(),
            };
            assert(full@ == text_of(t, self.ids@));
            self.kept = cut_at_stop(full.as_str(), &self.params.stop);
        }
        self.stopped = match self.kept {
            Some(_) => true,
            None => false,
        };
    }

    /// The answer, with what the caller measured.
    pub fn finish(self, prompt_tokens: usize, elapsed_secs: u32) -> (r: Generated)
        requires
            self.wf(),
        ensures
            r.ids@ == self.ids(),
            answer(self.tokens(), self.limits(), self.ids(), r.text@),
            r.finish_reason@ == (if halts(self.tokens(), self.limits(), self.ids()) {
                "stop"@
            } else {
                "length"@
            }),
            r.prompt_tokens == prompt_tokens,
            r.elapsed_secs == elapsed_secs,
    {
        let text = match self.kept {
            Some(k) => k,
            None => match self.tok.decode(self.ids.as_slice()) {
                Ok(s) => s,
                Err(_) => String::new(),
            },
        };
        let finish_reason = if self.stopped {
            "stop"
        } else {
            "length"
        };
        Generated { ids: self.ids, text, finish_reason, prompt_tokens, elapsed_secs }
    }
}

/// The text before the stop string that it shows, if it shows one.
pub fn cut_at_stop(text: &str, stops: &Vec<String>) -> (r: Option<String>)
    ensures
        match hit(text@, crate::pre::texts(stops@)) {
            None => r is None,
            Some(stop) => r matches Some(k) && cut_before(text@, stop, k@),
        },
{
    let hay = chars_of(text);
    let ghost all = crate::pre::texts(stops@);
    let mut i: usize = 0;
    assert(all.skip(0) =~= all);
    while i < stops.len()
        invariant
            i <= stops@.len(),
            hay@ == text@,
            all == crate::pre::texts(stops@),
            hit(text@, all) == hit(text@, all.skip(i as int)),
        decreases stops@.len() - i,
    {
        let needle = chars_of(stops[i].as_str());
        assert(all.skip(i as int)[0] == needle@);
        if needle.len() > 0 {
            if let Some(pos) = find(hay.as_slice(), needle.as_slice()) {
                let head = vstd::slice::slice_subrange(hay.as_slice(), 0, pos);
                assert(head@ =~= text@.take(pos as int));
                assert(crate::text::occurs_at(text@, needle@, pos as int));
                return Some(string_of(head));
            }
        }
        assert(all.skip(i as int).drop_first() =~= all.skip(i + 1));
        i += 1;
    }
    None
}

/// How many positions a generation can take: the prompt and the tokens to come.
/// None when the number has no room in a `usize`.
pub fn positions(prompt_tokens: usize, params: &GenerateParams) -> (r: Option<usize>)
    ensures
        match r {
            Some(n) => n == prompt_tokens + params.max_tokens,
            None => prompt_tokens + params.max_tokens > usize::MAX,
        },
{
    prompt_tokens.checked_add(params.max_tokens)
}

// ── laws ──

/// What the model reads before it chooses token number `n`.
pub open spec fn input_at(prompt: Seq<u32>, ids: Seq<u32>, n: int) -> Seq<u32> {
    if n == 0 {
        prompt
    } else {
        seq![ids[n - 1]]
    }
}

/// Everything the model has read when it chooses token number `n`.
pub open spec fn read_before(prompt: Seq<u32>, ids: Seq<u32>, n: nat) -> Seq<u32>
    decreases n,
{
    if n == 0 {
        prompt
    } else {
        read_before(prompt, ids, (n - 1) as nat) + input_at(prompt, ids, n as int)
    }
}

/// Each token is read once: before token number `n` is chosen the model has read
/// the prompt and the `n` tokens chosen so far.
pub proof fn every_token_is_read_once(prompt: Seq<u32>, ids: Seq<u32>, n: nat)
    requires
        n <= ids.len(),
    ensures
        read_before(prompt, ids, n) == prompt + ids.take(n as int),
    decreases n,
{
    if n == 0 {
        assert(prompt + ids.take(0) =~= prompt);
    } else {
        every_token_is_read_once(prompt, ids, (n - 1) as nat);
        assert(prompt + ids.take(n - 1) + seq![ids[n - 1]] =~= prompt + ids.take(n as int));
    }
}

/// The returned text begins the decoded text and never shows the stop string that
/// ended it.
pub proof fn cut_text_is_a_clean_prefix(text: Seq<char>, stop: Seq<char>, kept: Seq<char>)
    requires
        stop.len() > 0,
        cut_before(text, stop, kept),
    ensures
        kept == text.take(kept.len() as int),
        !crate::text::contains(kept, stop),
{
    if crate::text::contains(kept, stop) {
        let i = choose|i: int| #[trigger] crate::text::occurs_at(kept, stop, i);
        assert(kept.subrange(i, i + stop.len()) =~= text.subrange(i, i + stop.len()));
        assert(crate::text::occurs_at(text, stop, i));
    }
}

/// Generation stops at the first chance: of two prefixes of the same choices at
/// which it ended, neither is longer.
pub proof fn ending_is_unique(
    t: crate::tokenizer::TokenizerView,
    l: Limits,
    a: Seq<u32>,
    b: Seq<u32>,
)
    requires
        reachable(t, l, a),
        reachable(t, l, b),
        halts(t, l, a) || a.len() == l.max_tokens,
        halts(t, l, b) || b.len() == l.max_tokens,
        a.len() <= b.len(),
        a == b.take(a.len() as int),
    ensures
        a == b,
{
    if a.len() < b.len() {
        assert(!halts(t, l, b.take(a.len() as int)));
    } else {
        assert(b.take(a.len() as int) =~= b);
    }
}

/// The stop string that counts is the first in the list that is not empty and that the
/// text shows; where none counts, the text shows none.
pub proof fn first_listed_stop_counts(text: Seq<char>, stops: Seq<Seq<char>>)
    ensures
        match hit(text, stops) {
            Some(s) => exists|k: int|
                {
                    &&& 0 <= k < stops.len()
                    &&& #[trigger] stops[k] == s
                    &&& s.len() > 0
                    &&& crate::text::contains(text, s)
                    &&& forall|j: int|
                        0 <= j < k ==> (#[trigger] stops[j]).len() == 0 || !crate::text::contains(
                            text,
                            stops[j],
                        )
                },
            None => forall|j: int|
                0 <= j < stops.len() ==> (#[trigger] stops[j]).len() == 0
                    || !crate::text::contains(text, stops[j]),
        },
    decreases stops.len(),
{
    if stops.len() > 0 {
        if stops[0].len() > 0 && crate::text::contains(text, stops[0]) {
            assert(stops[0] == stops[0]);
        } else {
            let rest = stops.drop_first();
            first_listed_stop_counts(text, rest);
            match hit(text, rest) {
                Some(s) => {
                    let k = choose|k: int|
                        {
                            &&& 0 <= k < rest.len()
                            &&& #[trigger] rest[k] == s
                            &&& s.len() > 0
                            &&& crate::text::contains(text, s)
                            &&& forall|j: int|
                                0 <= j < k ==> (#[trigger] rest[j]).len() == 0
                                    || !crate::text::contains(text, rest[j])
                        };
                    assert(stops[k + 1] == s);
                    assert forall|j: int| 0 <= j < k + 1 implies (#[trigger] stops[j]).len() == 0
                        || !crate::text::contains(text, stops[j]) by {
                        if j > 0 {
                            assert(rest[j - 1] == stops[j]);
                        }
                    }
                },
                None => {
                    assert forall|j: int| 0 <= j < stops.len() implies (#[trigger] stops[j]).len()
                        == 0 || !crate::text::contains(text, stops[j]) by {
                        if j > 0 {
                            assert(rest[j - 1] == stops[j]);
                        }
                    }
                },
            }
        }
    }
}

/// A generation halts exactly at the token that ends a sequence of the model, at one that
/// the parameters name, or when the text shows one of the stop strings that are not empty.
pub proof fn generations_halt_at_ends_and_stops(
    t: crate::tokenizer::TokenizerView,
    p: GenerateParams,
    ids: Seq<u32>,
)
    requires
        ids.len() > 0,
    ensures
        limits(t, p).max_tokens == p.max_tokens,
        halts(t, limits(t, p), ids) <==> t.eos_id == Some(ids.last()) || p.extra_eos@.contains(
            ids.last(),
        ) || exists|k: int|
            {
                &&& 0 <= k < p.stop@.len()
                &&& (#[trigger] p.stop@[k])@.len() > 0
                &&& crate::text::contains(text_of(t, ids), p.stop@[k]@)
            },
{
    let stops = crate::pre::texts(p.stop@);
    let text = text_of(t, ids);
    first_listed_stop_counts(text, stops);
    if let Some(s) = hit(text, stops) {
        let k = choose|k: int| 0 <= k < stops.len() && #[trigger] stops[k] == s;
        assert(p.stop@[k]@ == stops[k]);
    } else {
        assert forall|k: int| 0 <= k < p.stop@.len() implies (#[trigger] p.stop@[k])@.len() == 0
            || !crate::text::contains(text, p.stop@[k]@) by {
            assert(stops[k] == p.stop@[k]@);
        }
    }
}

/// The answer is the decoded text; where a stop string ended it, the part before the first
/// place where the first listed of the strings that show stands.
pub proof fn answers_end_before_the_stop(
    t: crate::tokenizer::TokenizerView,
    l: Limits,
    ids: Seq<u32>,
    text: Seq<char>,
)
    requires
        answer(t, l, ids, text),
    ensures
        text == text_of(t, ids).take(text.len() as int),
        ended(l, ids) ==> text == text_of(t, ids),
        !ended(l, ids) && ids.len() > 0 && text.len() < text_of(t, ids).len() ==> exists|k: int|
            {
                &&& 0 <= k < l.stops.len()
                &&& crate::text::occurs_at(
                    text_of(t, ids),
                    #[trigger] l.stops[k],
                    text.len() as int,
                )
                &&& forall|j: int|
                    0 <= j < text.len() ==> !#[trigger] crate::text::occurs_at(
                        text_of(t, ids),
                        l.stops[k],
                        j,
                    )
            },
        forall|k: int|
            0 <= k < l.stops.len() && !ended(l, ids) && ids.len() > 0 && (
            #[trigger] l.stops[k]).len() > 0 && crate::text::contains(text_of(t, ids), l.stops[k])
                ==> text.len() < text_of(t, ids).len(),
{
    let whole = text_of(t, ids);
    first_listed_stop_counts(whole, l.stops);
    if text == whole {
        assert(text.take(text.len() as int) =~= text);
    }
    if let Some(s) = hit(whole, l.stops) {
        let k = choose|k: int| 0 <= k < l.stops.len() && #[trigger] l.stops[k] == s;
        assert(l.stops[k] == s);
    }
}

/// The speed is the count over the time, rounded to the nearest f32; without time it is
/// zero.
pub proof fn speed_is_count_over_time(n: nat, secs: u32)
    requires
        n < 0x100_0000,
    ensures
        0 < secs < 0x7f80_0000 ==> Format::Single.nearest(
            n * pow2(149) * pow2(149),
            crate::ieee::f32_magnitude(secs),
            rate(n, secs),
        ),
        secs == 0 || secs >= 0x7f80_0000 ==> rate(n, secs) == 0,
{
    let f = Format::Single;
    let b = crate::exact::short_value_has_pattern(n, 149);
    crate::ieee::rounding_is_exact(f, b, 1);
    assert(f.magnitude(b) * 1 == f.magnitude(b)) by (nonlinear_arith);
    crate::ieee::nearest_exists(f, n * pow2(149) * pow2(149), crate::ieee::f32_magnitude(secs));
}

} // verus!
