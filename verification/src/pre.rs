//! Pre-tokenization: cutting a text into pieces with the regular expression of the
//! GPT-2 / Qwen2 family, and the byte-to-character table of byte-level BPE.

use fancy_regex::Regex;
use vstd::prelude::*;
use vstd::utf8::*;

use crate::text::{same_text, string_from_utf8};
use crate::tokenizer::TokenizerError;

verus! {

broadcast use vstd::string::group_string_axioms;

// ── regular expressions ──

/// A compiled regular expression.
#[verifier::external_type_specification]
#[verifier::external_body]
pub struct ExRegex(fancy_regex::Regex);

/// An error of the regular expression engine.
#[verifier::external_type_specification]
#[verifier::external_body]
pub struct ExRegexError(fancy_regex::Error);

/// Whether `Regex::new` accepts a pattern.
pub uninterp spec fn regex_compiles(pattern: Seq<char>) -> bool;

/// The pattern from which `Regex::new` compiled a regular expression.
pub uninterp spec fn regex_source(re: fancy_regex::Regex) -> Seq<char>;

/// The byte ranges that `Regex::find_iter` gives for a text, up to the first
/// error if there is one.
pub uninterp spec fn regex_spans(pattern: Seq<char>, text: Seq<char>) -> Seq<(usize, usize)>;

/// `Regex::new` compiles a pattern and keeps it. Whether it accepts the pattern in
/// use is left open. It is called on no other: of a pattern with huge repetition
/// counts it would compute sizes that overflow.
#[verifier::external_body]
fn compile(pattern: &str) -> (r: Result<Regex, fancy_regex::Error>)
    requires
        pattern@ == self::pattern(),
    ensures
        r is Ok == regex_compiles(pattern@),
        r matches Ok(re) ==> regex_source(re) == pattern@,
{
    Regex::new(pattern)
}

/// `Regex::find_iter` yields the byte ranges of the matches; the ones before the
/// first error are collected, since the iterator repeats an error without end.
/// They depend on the pattern and the text alone. The pattern in use neither looks
/// behind nor resets the start of a match nor refers back to a group, which could
/// make the engine fail: each range starts where the one before it ends or later,
/// and both its ends are character boundaries. Every alternative of the pattern
/// takes a character at least, so no range is empty.
#[verifier::external_body]
fn find_spans(re: &Regex, text: &str) -> (r: Vec<(usize, usize)>)
    requires
        regex_source(*re) == pattern(),
    ensures
        r@ == regex_spans(regex_source(*re), text@),
        well_placed(encode_utf8(text@), r@),
        none_empty(r@),
{
    re.find_iter(text).map_while(|m| m.ok()).map(|m| (m.start(), m.end())).collect()
}

/// `fancy_regex::Error` formats itself as a text. Nothing is known of its wording.
#[verifier::external_body]
pub(crate) fn error_text(e: &fancy_regex::Error) -> (r: String) {
    e.to_string()
}

// ── pieces ──

/// Ranges within the bytes, one after the other, that cut no character.
pub open spec fn well_placed(b: Seq<u8>, spans: Seq<(usize, usize)>) -> bool {
    &&& forall|i: int|
        0 <= i < spans.len() ==> {
            let (start, end) = #[trigger] spans[i];
            &&& start <= end <= b.len()
            &&& is_char_boundary(b, start as int)
            &&& is_char_boundary(b, end as int)
        }
    &&& forall|i: int, j: int|
        0 <= i < j < spans.len() ==> (#[trigger] spans[i]).1 <= (#[trigger] spans[j]).0
}

/// Every range has a byte at least.
pub open spec fn none_empty(spans: Seq<(usize, usize)>) -> bool {
    forall|i: int| 0 <= i < spans.len() ==> (#[trigger] spans[i]).0 < spans[i].1
}

/// The text of a byte range.
pub open spec fn cut(b: Seq<u8>, start: int, end: int) -> Seq<char> {
    decode_utf8(b.subrange(start, end))
}

/// The pieces from position `last` on: each range, and what lies between them.
pub open spec fn pieces_from(b: Seq<u8>, spans: Seq<(usize, usize)>, last: int) -> Seq<Seq<char>>
    decreases spans.len(),
{
    if spans.len() == 0 {
        if last < b.len() {
            seq![cut(b, last, b.len() as int)]
        } else {
            Seq::empty()
        }
    } else {
        let (start, end) = spans[0];
        (if start > last {
            seq![cut(b, last, start as int)]
        } else {
            Seq::empty()
        }) + seq![cut(b, start as int, end as int)] + pieces_from(
            b,
            spans.drop_first(),
            end as int,
        )
    }
}

/// The pieces of a text.
pub open spec fn pieces(text: Seq<char>, spans: Seq<(usize, usize)>) -> Seq<Seq<char>> {
    pieces_from(encode_utf8(text), spans, 0)
}

/// The views of a list of strings.
pub open spec fn texts(items: Seq<String>) -> Seq<Seq<char>> {
    Seq::new(items.len(), |i: int| items[i]@)
}

/// The texts one after the other.
pub open spec fn concat(parts: Seq<Seq<char>>) -> Seq<char>
    decreases parts.len(),
{
    if parts.len() == 0 {
        Seq::empty()
    } else {
        parts[0] + concat(parts.drop_first())
    }
}

/// A range between character boundaries is valid by itself, and where the range
/// is cut in two its text is too.
proof fn cut_is_valid(b: Seq<u8>, start: int, end: int)
    requires
        valid_utf8(b),
        0 <= start <= end <= b.len(),
        is_char_boundary(b, start),
        is_char_boundary(b, end),
    ensures
        valid_utf8(b.subrange(start, end)),
        cut(b, 0, end) == cut(b, 0, start) + cut(b, start, end),
{
    let head = b.subrange(0, end);
    valid_utf8_split(b, end);
    if start < end {
        assert(head[start] == b[start]);
        is_char_boundary_iff_not_is_continuation_byte(b, start);
        is_char_boundary_iff_not_is_continuation_byte(head, start);
    } else {
        is_char_boundary_start_end_of_seq(head);
    }
    valid_utf8_split(head, start);
    decode_utf8_split(head, start);
    assert(head.subrange(start, head.len() as int) =~= b.subrange(start, end));
    assert(head.subrange(0, start) =~= b.subrange(0, start));
}

fn piece(text: &str, start: usize, end: usize) -> (r: String)
    requires
        start <= end <= encode_utf8(text@).len(),
        is_char_boundary(encode_utf8(text@), start as int),
        is_char_boundary(encode_utf8(text@), end as int),
    ensures
        r@ == cut(encode_utf8(text@), start as int, end as int),
{
    let b = text.as_bytes();
    proof {
        encode_utf8_valid_utf8(text@);
        cut_is_valid(b@, start as int, end as int);
    }
    let s = vstd::slice::slice_subrange(b, start, end);
    match string_from_utf8(vstd::slice::slice_to_vec(s)) {
        Some(t) => t,
        None => String::new(),
    }
}

/// Cuts a text at the given ranges; what lies between them makes pieces too.
pub fn split_at_spans(text: &str, spans: &[(usize, usize)]) -> (r: Vec<String>)
    requires
        well_placed(encode_utf8(text@), spans@),
    ensures
        texts(r@) == pieces(text@, spans@),
{
    let ghost b = encode_utf8(text@);
    let ghost whole = pieces(text@, spans@);
    proof {
        encode_utf8_valid_utf8(text@);
        is_char_boundary_start_end_of_seq(b);
    }
    let mut out: Vec<String> = Vec::new();
    let mut last: usize = 0;
    let mut i: usize = 0;
    assert(spans@.skip(0) =~= spans@);
    assert(texts(out@) + pieces_from(b, spans@, 0) =~= whole);
    while i < spans.len()
        invariant
            b == encode_utf8(text@),
            valid_utf8(b),
            well_placed(b, spans@),
            i <= spans@.len(),
            last == (if i == 0 {
                0
            } else {
                spans@[i - 1].1
            }),
            last <= b.len(),
            is_char_boundary(b, last as int),
            whole == texts(out@) + pieces_from(b, spans@.skip(i as int), last as int),
        decreases spans@.len() - i,
    {
        let (start, end) = spans[i];
        let ghost before = texts(out@);
        let ghost rest = spans@.skip(i as int);
        assert(rest[0] == spans@[i as int]);
        assert(rest.drop_first() =~= spans@.skip(i + 1));
        let ghost tail = pieces_from(b, rest.drop_first(), end as int);
        if start > last {
            out.push(piece(text, last, start));
            assert(texts(out@) =~= before.push(cut(b, last as int, start as int)));
        }
        let ghost middle = texts(out@);
        out.push(piece(text, start, end));
        assert(texts(out@) =~= middle.push(cut(b, start as int, end as int)));
        assert(before + pieces_from(b, rest, last as int) =~= texts(out@) + tail);
        last = end;
        i += 1;
    }
    assert(spans@.skip(i as int).len() == 0);
    let ghost before = texts(out@);
    let len = text.as_bytes().len();
    if last < len {
        proof {
            is_char_boundary_start_end_of_seq(b);
        }
        out.push(piece(text, last, len));
        assert(texts(out@) =~= before.push(cut(b, last as int, b.len() as int)));
        assert(before + seq![cut(b, last as int, b.len() as int)] =~= texts(out@));
    } else {
        assert(before + Seq::<Seq<char>>::empty() =~= before);
    }
    out
}

proof fn concat_joins(a: Seq<Seq<char>>, b: Seq<Seq<char>>)
    ensures
        concat(a + b) == concat(a) + concat(b),
    decreases a.len(),
{
    if a.len() == 0 {
        assert(a + b =~= b);
        assert(concat(a) + concat(b) =~= concat(b));
    } else {
        concat_joins(a.drop_first(), b);
        assert((a + b).drop_first() =~= a.drop_first() + b);
        assert(concat(a + b) =~= concat(a) + concat(b));
    }
}

proof fn concat_one(a: Seq<char>)
    ensures
        concat(seq![a]) == a,
{
    let s = seq![a];
    assert(s.drop_first() =~= Seq::empty());
    assert(concat(s.drop_first()) =~= Seq::empty());
    assert(a + Seq::<char>::empty() =~= a);
}

proof fn pieces_make_rest(b: Seq<u8>, spans: Seq<(usize, usize)>, last: int)
    requires
        valid_utf8(b),
        well_placed(b, spans),
        0 <= last <= b.len(),
        is_char_boundary(b, last),
        spans.len() > 0 ==> last <= spans[0].0,
    ensures
        cut(b, 0, last) + concat(pieces_from(b, spans, last)) == decode_utf8(b),
    decreases spans.len(),
{
    is_char_boundary_start_end_of_seq(b);
    assert(b.subrange(0, b.len() as int) =~= b);
    if spans.len() == 0 {
        if last < b.len() {
            cut_is_valid(b, last, b.len() as int);
            concat_one(cut(b, last, b.len() as int));
        } else {
            assert(cut(b, 0, last) + Seq::<char>::empty() =~= cut(b, 0, last));
        }
    } else {
        let (start, end) = spans[0];
        let rest = spans.drop_first();
        well_placed_rest(b, spans);
        pieces_make_rest(b, rest, end as int);
        piece_joins(b, last, start as int, end as int, pieces_from(b, rest, end as int));
    }
}

proof fn well_placed_rest(b: Seq<u8>, spans: Seq<(usize, usize)>)
    requires
        well_placed(b, spans),
        spans.len() > 0,
    ensures
        well_placed(b, spans.drop_first()),
        spans.len() > 1 ==> spans[0].1 <= spans.drop_first()[0].0,
{
    let rest = spans.drop_first();
    assert forall|i: int| 0 <= i < rest.len() implies {
        let (s, e) = #[trigger] rest[i];
        &&& s <= e <= b.len()
        &&& is_char_boundary(b, s as int)
        &&& is_char_boundary(b, e as int)
    } by {
        assert(rest[i] == spans[i + 1]);
    }
    assert forall|i: int, j: int| 0 <= i < j < rest.len() implies (#[trigger] rest[i]).1 <= (
    #[trigger] rest[j]).0 by {
        assert(rest[i] == spans[i + 1] && rest[j] == spans[j + 1]);
    }
    if spans.len() > 1 {
        assert(rest[0] == spans[1]);
    }
}

proof fn piece_joins(b: Seq<u8>, last: int, start: int, end: int, tail: Seq<Seq<char>>)
    requires
        valid_utf8(b),
        0 <= last <= start <= end <= b.len(),
        is_char_boundary(b, last),
        is_char_boundary(b, start),
        is_char_boundary(b, end),
    ensures
        cut(b, 0, last) + concat(
            (if start > last {
                seq![cut(b, last, start)]
            } else {
                Seq::empty()
            }) + seq![cut(b, start, end)] + tail,
        ) == cut(b, 0, end) + concat(tail),
{
    cut_is_valid(b, start, end);
    cut_is_valid(b, last, start);
    let gap = if start > last {
        seq![cut(b, last, start)]
    } else {
        Seq::empty()
    };
    let here = seq![cut(b, start, end)];
    concat_joins(gap + here, tail);
    concat_joins(gap, here);
    concat_one(cut(b, start, end));
    if start > last {
        concat_one(cut(b, last, start));
    } else {
        assert(concat(gap) =~= Seq::empty());
        assert(b.subrange(last, start) =~= Seq::empty());
        assert(cut(b, last, start) =~= Seq::empty());
    }
    assert(concat(gap) == cut(b, last, start));
    assert(cut(b, 0, last) + (cut(b, last, start) + cut(b, start, end) + concat(tail)) =~= cut(
        b,
        0,
        last,
    ) + cut(b, last, start) + cut(b, start, end) + concat(tail));
}

/// Nothing is lost or added: the pieces one after the other are the text.
pub proof fn pieces_make_the_text(text: Seq<char>, spans: Seq<(usize, usize)>)
    requires
        well_placed(encode_utf8(text), spans),
    ensures
        concat(pieces(text, spans)) == text,
{
    let b = encode_utf8(text);
    encode_utf8_valid_utf8(text);
    encode_utf8_decode_utf8(text);
    is_char_boundary_start_end_of_seq(b);
    pieces_make_rest(b, spans, 0);
    assert(b.subrange(0, 0) =~= Seq::empty());
    assert(cut(b, 0, 0) =~= Seq::empty());
    assert(cut(b, 0, 0) + concat(pieces(text, spans)) =~= concat(pieces(text, spans)));
}

proof fn cut_is_not_empty(b: Seq<u8>, start: int, end: int)
    requires
        valid_utf8(b),
        0 <= start < end <= b.len(),
        is_char_boundary(b, start),
        is_char_boundary(b, end),
    ensures
        cut(b, start, end).len() > 0,
{
    cut_is_valid(b, start, end);
    let s = b.subrange(start, end);
    assert(s.len() > 0);
    assert(decode_utf8(s).len() > 0);
}

proof fn rest_is_not_empty(b: Seq<u8>, spans: Seq<(usize, usize)>, last: int)
    requires
        valid_utf8(b),
        well_placed(b, spans),
        none_empty(spans),
        0 <= last <= b.len(),
        is_char_boundary(b, last),
    ensures
        forall|k: int|
            0 <= k < pieces_from(b, spans, last).len() ==> (#[trigger] pieces_from(
                b,
                spans,
                last,
            )[k]).len() > 0,
    decreases spans.len(),
{
    is_char_boundary_start_end_of_seq(b);
    if spans.len() == 0 {
        if last < b.len() {
            cut_is_not_empty(b, last, b.len() as int);
        }
    } else {
        let (start, end) = spans[0];
        let rest = spans.drop_first();
        well_placed_rest(b, spans);
        assert forall|i: int| 0 <= i < rest.len() implies (#[trigger] rest[i]).0 < rest[i].1 by {
            assert(rest[i] == spans[i + 1]);
        }
        rest_is_not_empty(b, rest, end as int);
        cut_is_not_empty(b, start as int, end as int);
        let gap: Seq<Seq<char>> = if start > last {
            cut_is_not_empty(b, last, start as int);
            seq![cut(b, last, start as int)]
        } else {
            Seq::empty()
        };
        let head = gap + seq![cut(b, start as int, end as int)];
        let tail = pieces_from(b, rest, end as int);
        let all = pieces_from(b, spans, last);
        assert(all == head + tail);
        assert forall|k: int| 0 <= k < all.len() implies (#[trigger] all[k]).len() > 0 by {
            if k < head.len() {
                assert(all[k] == head[k]);
            } else {
                assert(all[k] == tail[k - head.len()]);
            }
        }
    }
}

/// Where no range is empty no piece is, so that an empty text has no pieces.
pub proof fn pieces_are_not_empty(text: Seq<char>, spans: Seq<(usize, usize)>)
    requires
        well_placed(encode_utf8(text), spans),
        none_empty(spans),
    ensures
        forall|k: int|
            0 <= k < pieces(text, spans).len() ==> (#[trigger] pieces(text, spans)[k]).len() > 0,
        text.len() == 0 ==> pieces(text, spans).len() == 0,
{
    let b = encode_utf8(text);
    encode_utf8_valid_utf8(text);
    is_char_boundary_start_end_of_seq(b);
    rest_is_not_empty(b, spans, 0);
    if text.len() == 0 && pieces(text, spans).len() > 0 {
        pieces_make_the_text(text, spans);
        assert(pieces(text, spans)[0].len() > 0);
    }
}

// ── pre-tokenizer ──

/// The pattern of the family: contractions, words with one leading character,
/// numbers of up to three digits, punctuation, line ends and other white space.
pub open spec fn pattern() -> Seq<char> {
    r"(?i:'s|'t|'re|'ve|'m|'ll|'d)|[^\r\n\p{L}\p{N}]?\p{L}+|\p{N}{1,3}| ?[^\s\p{L}\p{N}]+[\r\n]*|\s*[\r\n]+|\s+(?!\S)|\s+"@
}

/// The kinds of pre-tokenizer that use the pattern.
pub open spec fn known_kind(kind: Seq<char>) -> bool {
    kind == "qwen2"@ || kind == "gpt2"@ || kind == "llama3"@ || kind == "default"@
}

/// What can go wrong in pre-tokenization.
#[derive(Debug)]
pub enum PreError {
    Regex(fancy_regex::Error),
    UnknownKind(String),
}

/// A pre-tokenizer.
pub struct PreTokenizer {
    regex: Regex,
}

impl PreTokenizer {
    /// The expression is the one of the family.
    pub closed spec fn wf(&self) -> bool {
        regex_source(self.regex) == pattern()
    }

    /// The pre-tokenizer named by the metadata of a model.
    pub fn for_kind(kind: &str) -> (r: Result<Self, TokenizerError>)
        ensures
            if !known_kind(kind@) {
                r matches Err(TokenizerError::UnknownPre(k)) && k@ == kind@
            } else if regex_compiles(pattern()) {
                r matches Ok(p) && p.wf()
            } else {
                r matches Err(TokenizerError::Pre(PreError::Regex(_)))
            },
    {
        if !same_text(kind, "qwen2") && !same_text(kind, "gpt2") && !same_text(kind, "llama3")
            && !same_text(kind, "default") {
            return Err(TokenizerError::UnknownPre(kind.to_owned()));
        }
        match compile(
            r"(?i:'s|'t|'re|'ve|'m|'ll|'d)|[^\r\n\p{L}\p{N}]?\p{L}+|\p{N}{1,3}| ?[^\s\p{L}\p{N}]+[\r\n]*|\s*[\r\n]+|\s+(?!\S)|\s+",
        ) {
            Ok(regex) => Ok(PreTokenizer { regex }),
            Err(e) => Err(TokenizerError::Pre(PreError::Regex(e))),
        }
    }

    /// Cuts a text into pieces, in order. No piece is empty.
    pub fn split(&self, text: &str) -> (r: Vec<String>)
        requires
            self.wf(),
        ensures
            texts(r@) == pieces(text@, regex_spans(pattern(), text@)),
            well_placed(encode_utf8(text@), regex_spans(pattern(), text@)),
            concat(texts(r@)) == text@,
            forall|k: int| 0 <= k < texts(r@).len() ==> (#[trigger] texts(r@)[k]).len() > 0,
            text@.len() == 0 ==> r@.len() == 0,
    {
        let spans = find_spans(&self.regex, text);
        proof {
            pieces_make_the_text(text@, spans@);
            pieces_are_not_empty(text@, spans@);
        }
        split_at_spans(text, spans.as_slice())
    }
}

// ── bytes and characters ──

/// Bytes that stand for themselves.
pub open spec fn printable(b: int) -> bool {
    33 <= b <= 126 || 161 <= b <= 172 || 174 <= b <= 255
}

/// How many of the first `b` bytes are not printable.
pub open spec fn unprintable_below(b: int) -> int
    decreases b,
{
    if b <= 0 {
        0
    } else {
        unprintable_below(b - 1) + (if printable(b - 1) {
            0int
        } else {
            1int
        })
    }
}

/// The character that stands for a byte: itself when printable, otherwise the
/// next one from 256 on.
pub open spec fn byte_char(b: u8) -> char {
    if printable(b as int) {
        b as char
    } else {
        (256 + unprintable_below(b as int)) as char
    }
}

/// The count in closed form.
proof fn unprintable_count(b: int)
    requires
        0 <= b <= 256,
    ensures
        unprintable_below(b) == (if b <= 33 {
            b
        } else if b <= 127 {
            33
        } else if b <= 161 {
            b - 94
        } else if b <= 173 {
            67
        } else {
            68
        }),
    decreases b,
{
    if b > 0 {
        unprintable_count(b - 1);
    }
}

/// The character of every byte, in order.
pub fn bytes_to_unicode() -> (r: Vec<char>)
    ensures
        r@.len() == 256,
        forall|b: u8| r@[b as int] == #[trigger] byte_char(b),
{
    let mut out: Vec<char> = Vec::new();
    let mut n: u8 = 0;
    let mut b: u32 = 0;
    while b < 256
        invariant
            b <= 256,
            out@.len() == b,
            n == unprintable_below(b as int),
            forall|k: u8| k < b ==> out@[k as int] == #[trigger] byte_char(k),
        decreases 256 - b,
    {
        proof {
            unprintable_count(b as int);
        }
        let byte: u8 = b as u8;
        if 33 <= byte && byte <= 126 || 161 <= byte && byte <= 172 || 174 <= byte {
            out.push(byte as char);
        } else {
            let code: u32 = 256 + n as u32;
            match char::from_u32(code) {
                Some(c) => {
                    proof {
                        char_u32_cast(c, code);
                    }
                    out.push(c);
                },
                None => {
                    assert(is_scalar(code));
                    out.push('?');
                },
            }
            n += 1;
        }
        b += 1;
    }
    out
}

/// The byte that a character stands for, if any.
pub open spec fn char_byte(c: char) -> Option<u8> {
    let n = c as int;
    if n < 256 && printable(n) {
        Some(n as u8)
    } else if 256 <= n < 289 {
        Some((n - 256) as u8)
    } else if 289 <= n < 323 {
        Some((n - 162) as u8)
    } else if n == 323 {
        Some(173u8)
    } else {
        None
    }
}

/// The byte that a character stands for, if any.
pub fn byte_of(c: char) -> (r: Option<u8>)
    ensures
        r == char_byte(c),
{
    let n: u32 = c as u32;
    if 33 <= n && n <= 126 || 161 <= n && n <= 172 || 174 <= n && n <= 255 {
        Some(n as u8)
    } else if 256 <= n && n < 289 {
        Some((n - 256) as u8)
    } else if 289 <= n && n < 323 {
        Some((n - 162) as u8)
    } else if n == 323 {
        Some(173)
    } else {
        None
    }
}

/// Bytes and their characters determine each other.
pub proof fn byte_chars_are_invertible(b: u8, c: char)
    ensures
        char_byte(byte_char(b)) == Some(b),
        char_byte(c) == Some(b) <==> c == byte_char(b),
{
    unprintable_count(b as int);
}

/// Printable bytes are shown as the characters with their own numbers. The others are
/// shown from character 256 on, in order: the 33 below `!`, the 34 from 127 to 160, and
/// 173.
pub proof fn bytes_are_shown_in_order(b: u8)
    ensures
        33 <= b <= 126 || 161 <= b <= 172 || 174 <= b ==> byte_char(b) as u32 == b,
        b <= 32 ==> byte_char(b) as u32 == 256 + b,
        127 <= b <= 160 ==> byte_char(b) as u32 == 289 + (b - 127),
        b == 173 ==> byte_char(b) as u32 == 323,
{
    unprintable_count(b as int);
}

proof fn pieces_of_rest(b: Seq<u8>, spans: Seq<(usize, usize)>, last: int, k: int)
    requires
        0 <= k < spans.len(),
    ensures
        pieces_from(b, spans, last).contains(
            cut(b, spans[k].0 as int, spans[k].1 as int),
        ),
    decreases spans.len(),
{
    let (start, end) = spans[0];
    let rest = spans.drop_first();
    let gap: Seq<Seq<char>> = if start > last {
        seq![cut(b, last, start as int)]
    } else {
        Seq::empty()
    };
    let here = seq![cut(b, start as int, end as int)];
    let tail = pieces_from(b, rest, end as int);
    let all = pieces_from(b, spans, last);
    assert(all == gap + here + tail);
    if k == 0 {
        assert(all[gap.len() as int] == here[0]);
    } else {
        assert(rest[k - 1] == spans[k]);
        pieces_of_rest(b, rest, end as int, k - 1);
        let x = cut(b, spans[k].0 as int, spans[k].1 as int);
        let n = choose|n: int| 0 <= n < tail.len() && tail[n] == x;
        assert(all[gap.len() + 1 + n] == tail[n]);
    }
}

/// Every match of the pattern is a piece of its own.
pub proof fn matches_are_pieces(text: Seq<char>, spans: Seq<(usize, usize)>, k: int)
    requires
        0 <= k < spans.len(),
    ensures
        pieces(text, spans).contains(
            cut(encode_utf8(text), spans[k].0 as int, spans[k].1 as int),
        ),
{
    pieces_of_rest(encode_utf8(text), spans, 0, k);
}

/// Where the matches leave nothing out there is one piece for each, in order.
pub proof fn adjacent_matches_are_all_the_pieces(b: Seq<u8>, spans: Seq<(usize, usize)>, last: int)
    requires
        spans.len() > 0 ==> spans[0].0 == last && spans.last().1 == b.len(),
        spans.len() == 0 ==> last == b.len(),
        forall|i: int|
            0 <= i < spans.len() - 1 ==> (#[trigger] spans[i]).1 == spans[i + 1].0,
    ensures
        pieces_from(b, spans, last) == Seq::new(
            spans.len(),
            |i: int| cut(b, spans[i].0 as int, spans[i].1 as int),
        ),
    decreases spans.len(),
{
    let want = Seq::new(spans.len(), |i: int| cut(b, spans[i].0 as int, spans[i].1 as int));
    if spans.len() > 0 {
        let rest = spans.drop_first();
        let (start, end) = spans[0];
        if rest.len() > 0 {
            assert(spans[0].1 == spans[1].0);
            assert(rest.last() == spans.last());
        }
        assert forall|i: int| 0 <= i < rest.len() - 1 implies (#[trigger] rest[i]).1 == rest[i
            + 1].0 by {
            assert(spans[i + 1].1 == spans[i + 2].0);
        }
        adjacent_matches_are_all_the_pieces(b, rest, end as int);
        let tail = pieces_from(b, rest, end as int);
        assert(pieces_from(b, spans, last) == Seq::<Seq<char>>::empty() + seq![
            cut(b, start as int, end as int),
        ] + tail);
        assert(pieces_from(b, spans, last) =~= want);
    } else {
        assert(pieces_from(b, spans, last) =~= want);
    }
}

/// The four families share the pattern, and no other kind does.
pub proof fn four_kinds_are_known(kind: Seq<char>)
    ensures
        known_kind(kind) <==> kind == "default"@ || kind == "gpt2"@ || kind == "llama3"@ || kind
            == "qwen2"@,
{
}

} // verus!
