//! Decoding what was encoded gives the text back.

use vstd::prelude::*;
use vstd::utf8::*;

use crate::tokenizer::TokenizerView;

verus! {

// ── what the ids spell ──

/// All the ids are those of tokens.
pub open spec fn valid_ids(t: TokenizerView, ids: Seq<u32>) -> bool {
    forall|i: int| 0 <= i < ids.len() ==> (#[trigger] ids[i]) < t.vocab.len()
}

/// None of the ids is that of a special token.
pub open spec fn ordinary(t: TokenizerView, ids: Seq<u32>) -> bool {
    forall|i: int|
        0 <= i < ids.len() ==> !crate::tokenizer::is_special(t.vocab[(#[trigger] ids[i]) as int])
}

/// The tokens one after the other.
pub open spec fn spelled(t: TokenizerView, ids: Seq<u32>) -> Seq<char>
    decreases ids.len(),
{
    if ids.len() == 0 {
        Seq::empty()
    } else {
        t.vocab[ids[0] as int] + spelled(t, ids.drop_first())
    }
}

proof fn spelled_joins(t: TokenizerView, a: Seq<u32>, b: Seq<u32>)
    ensures
        spelled(t, a + b) == spelled(t, a) + spelled(t, b),
    decreases a.len(),
{
    if a.len() == 0 {
        assert(a + b =~= b);
        assert(spelled(t, a) + spelled(t, b) =~= spelled(t, b));
    } else {
        spelled_joins(t, a.drop_first(), b);
        assert((a + b).drop_first() =~= a.drop_first() + b);
        assert(spelled(t, a + b) =~= spelled(t, a) + spelled(t, b));
    }
}

proof fn spelled_one(t: TokenizerView, id: u32)
    ensures
        spelled(t, seq![id]) == t.vocab[id as int],
{
    let s = seq![id];
    assert(s.drop_first() =~= Seq::empty());
    assert(spelled(t, s.drop_first()) =~= Seq::empty());
    assert(t.vocab[id as int] + Seq::<char>::empty() =~= t.vocab[id as int]);
}

proof fn letters_spell(t: TokenizerView, chars: Seq<char>)
    requires
        t.vocab.len() <= crate::value::MAX_ARRAY,
    ensures
        crate::tokenizer::letters(t, chars) matches Ok(ids) ==> spelled(t, ids) == chars
            && valid_ids(t, ids),
    decreases chars.len(),
{
    if chars.len() > 0 {
        let rest = chars.drop_first();
        let w = seq![chars[0]];
        letters_spell(t, rest);
        if crate::tokenizer::ids_of(t.vocab).contains_key(w) {
            crate::tokenizer::ids_stand_for_tokens(t.vocab, w);
            if let Ok(more) = crate::tokenizer::letters(t, rest) {
                let id = crate::tokenizer::ids_of(t.vocab)[w];
                spelled_joins(t, seq![id], more);
                spelled_one(t, id);
                assert(w + rest =~= chars);
                let all = seq![id] + more;
                assert forall|i: int| 0 <= i < all.len() implies (#[trigger] all[i])
                    < t.vocab.len() by {
                    if i > 0 {
                        assert(all[i] == more[i - 1]);
                    }
                }
            }
        }
    } else {
        assert(chars =~= Seq::empty());
    }
}

/// A merge changes how the text is cut, not the text.
proof fn merge_spells(t: TokenizerView, parts: Seq<u32>, i: int, id: u32)
    requires
        0 <= i < parts.len() - 1,
        valid_ids(t, parts),
        id < t.vocab.len(),
        t.vocab[id as int] == crate::tokenizer::pair_text(t, parts, i),
    ensures
        spelled(t, crate::tokenizer::joined(parts, i, id)) == spelled(t, parts),
        valid_ids(t, crate::tokenizer::joined(parts, i, id)),
{
    let a = parts.take(i);
    let c = parts.skip(i + 2);
    let x = parts[i];
    let y = parts[i + 1];
    let out = crate::tokenizer::joined(parts, i, id);
    assert(out =~= a + (seq![id] + c));
    assert(parts =~= a + (seq![x] + (seq![y] + c)));
    spelled_joins(t, a, seq![id] + c);
    spelled_joins(t, seq![id], c);
    spelled_joins(t, a, seq![x] + (seq![y] + c));
    spelled_joins(t, seq![x], seq![y] + c);
    spelled_joins(t, seq![y], c);
    spelled_one(t, id);
    spelled_one(t, x);
    spelled_one(t, y);
    assert(t.vocab[id as int] + spelled(t, c) =~= t.vocab[x as int] + (t.vocab[y as int] + spelled(
        t,
        c,
    )));
    assert forall|k: int| 0 <= k < out.len() implies (#[trigger] out[k]) < t.vocab.len() by {
        if k < i {
            assert(out[k] == parts[k]);
        } else if k > i {
            assert(out[k] == parts[k + 1]);
        }
    }
}

proof fn bpe_spells(t: TokenizerView, parts: Seq<u32>)
    requires
        t.vocab.len() <= crate::value::MAX_ARRAY,
        valid_ids(t, parts),
    ensures
        crate::tokenizer::bpe(t, parts) matches Ok(ids) ==> spelled(t, ids) == spelled(t, parts)
            && valid_ids(t, ids),
    decreases parts.len(),
{
    if exists|i: int| #[trigger] crate::tokenizer::is_best(t, parts, i) {
        let i = choose|i: int| #[trigger] crate::tokenizer::is_best(t, parts, i);
        let text = crate::tokenizer::pair_text(t, parts, i);
        if crate::tokenizer::ids_of(t.vocab).contains_key(text) {
            crate::tokenizer::ids_stand_for_tokens(t.vocab, text);
            let id = crate::tokenizer::ids_of(t.vocab)[text];
            merge_spells(t, parts, i, id);
            bpe_spells(t, crate::tokenizer::joined(parts, i, id));
        }
    }
}

/// The tokens of a piece spell the piece, byte by byte.
pub proof fn piece_spells(t: TokenizerView, piece: Seq<char>)
    requires
        t.vocab.len() <= crate::value::MAX_ARRAY,
    ensures
        crate::tokenizer::piece_ids(t, piece) matches Ok(ids) ==> spelled(t, ids)
            == crate::tokenizer::mapped(piece) && valid_ids(t, ids),
{
    letters_spell(t, crate::tokenizer::mapped(piece));
    if let Ok(parts) = crate::tokenizer::letters(t, crate::tokenizer::mapped(piece)) {
        bpe_spells(t, parts);
    }
}

// ── bytes ──

proof fn chars_bytes_join(a: Seq<char>, b: Seq<char>)
    ensures
        crate::tokenizer::chars_bytes(a + b) == crate::tokenizer::chars_bytes(a)
            + crate::tokenizer::chars_bytes(b),
    decreases b.len(),
{
    if b.len() == 0 {
        assert(a + b =~= a);
        assert(crate::tokenizer::chars_bytes(a) + Seq::<u8>::empty()
            =~= crate::tokenizer::chars_bytes(a));
    } else {
        chars_bytes_join(a, b.drop_last());
        assert((a + b).drop_last() =~= a + b.drop_last());
        assert(crate::tokenizer::chars_bytes(a + b) =~= crate::tokenizer::chars_bytes(a)
            + crate::tokenizer::chars_bytes(b));
    }
}

/// Characters that stand for bytes give the bytes back.
pub proof fn mapped_bytes(b: Seq<u8>, chars: Seq<char>)
    requires
        chars.len() == b.len(),
        forall|i: int| 0 <= i < b.len() ==> chars[i] == crate::pre::byte_char(#[trigger] b[i]),
    ensures
        crate::tokenizer::chars_bytes(chars) == b,
    decreases b.len(),
{
    if b.len() > 0 {
        mapped_bytes(b.drop_last(), chars.drop_last());
        assert(chars.last() == crate::pre::byte_char(b[b.len() - 1]));
        crate::pre::byte_chars_are_invertible(b.last(), chars.last());
        assert(crate::tokenizer::chars_bytes(chars) =~= b);
    } else {
        assert(b =~= Seq::empty());
    }
}

/// Ordinary ids stand for the bytes of what they spell.
proof fn ordinary_bytes(t: TokenizerView, ids: Seq<u32>)
    requires
        valid_ids(t, ids),
        ordinary(t, ids),
    ensures
        crate::tokenizer::ids_bytes(t, ids) == Ok::<Seq<u8>, crate::tokenizer::TokenizerErrorView>(
            crate::tokenizer::chars_bytes(spelled(t, ids)),
        ),
    decreases ids.len(),
{
    if ids.len() > 0 {
        let rest = ids.drop_first();
        assert(valid_ids(t, rest) && ordinary(t, rest)) by {
            assert forall|i: int| 0 <= i < rest.len() implies (#[trigger] rest[i]) < t.vocab.len()
                && !crate::tokenizer::is_special(t.vocab[rest[i] as int]) by {
                assert(rest[i] == ids[i + 1]);
            }
        }
        ordinary_bytes(t, rest);
        assert(ids[0] < t.vocab.len() && !crate::tokenizer::is_special(t.vocab[ids[0] as int]));
        chars_bytes_join(t.vocab[ids[0] as int], spelled(t, rest));
    }
}

proof fn ids_bytes_join(t: TokenizerView, a: Seq<u32>, b: Seq<u32>, x: Seq<u8>, y: Seq<u8>)
    requires
        crate::tokenizer::ids_bytes(t, a) == Ok::<Seq<u8>, crate::tokenizer::TokenizerErrorView>(x),
        crate::tokenizer::ids_bytes(t, b) == Ok::<Seq<u8>, crate::tokenizer::TokenizerErrorView>(y),
    ensures
        crate::tokenizer::ids_bytes(t, a + b) == Ok::<
            Seq<u8>,
            crate::tokenizer::TokenizerErrorView,
        >(x + y),
    decreases a.len(),
{
    if a.len() == 0 {
        assert(a + b =~= b);
        assert(x + y =~= y);
    } else {
        let rest = a.drop_first();
        assert((a + b).drop_first() =~= rest + b);
        assert((a + b)[0] == a[0]);
        match crate::tokenizer::ids_bytes(t, rest) {
            Ok(z) => {
                ids_bytes_join(t, rest, b, z, y);
                let tok = crate::tokenizer::token_bytes(t.vocab[a[0] as int]);
                assert(tok + (z + y) =~= x + y);
            },
            Err(_) => {},
        }
    }
}

proof fn piece_bytes(t: TokenizerView, piece: Seq<char>, ids: Seq<u32>)
    requires
        t.vocab.len() <= crate::value::MAX_ARRAY,
        crate::tokenizer::piece_ids(t, piece) == Ok::<
            Seq<u32>,
            crate::tokenizer::TokenizerErrorView,
        >(ids),
        ordinary(t, ids),
    ensures
        crate::tokenizer::ids_bytes(t, ids) == Ok::<Seq<u8>, crate::tokenizer::TokenizerErrorView>(
            encode_utf8(piece),
        ),
{
    piece_spells(t, piece);
    ordinary_bytes(t, ids);
    mapped_bytes(encode_utf8(piece), crate::tokenizer::mapped(piece));
}

proof fn pieces_bytes(t: TokenizerView, pieces: Seq<Seq<char>>, ids: Seq<u32>)
    requires
        t.vocab.len() <= crate::value::MAX_ARRAY,
        crate::tokenizer::pieces_ids(t, pieces) == Ok::<
            Seq<u32>,
            crate::tokenizer::TokenizerErrorView,
        >(ids),
        ordinary(t, ids),
    ensures
        crate::tokenizer::ids_bytes(t, ids) == Ok::<Seq<u8>, crate::tokenizer::TokenizerErrorView>(
            encode_utf8(crate::pre::concat(pieces)),
        ),
    decreases pieces.len(),
{
    if pieces.len() == 0 {
        assert(encode_utf8(crate::pre::concat(pieces)) =~= Seq::empty());
    } else {
        let rest = pieces.drop_first();
        let first = crate::tokenizer::piece_ids(t, pieces[0])->Ok_0;
        let more = crate::tokenizer::pieces_ids(t, rest)->Ok_0;
        assert(ids == first + more);
        assert(ordinary(t, first)) by {
            assert forall|i: int| 0 <= i < first.len() implies !crate::tokenizer::is_special(
                t.vocab[(#[trigger] first[i]) as int],
            ) by {
                assert(first[i] == ids[i]);
            }
        }
        assert(ordinary(t, more)) by {
            assert forall|i: int| 0 <= i < more.len() implies !crate::tokenizer::is_special(
                t.vocab[(#[trigger] more[i]) as int],
            ) by {
                assert(more[i] == ids[i + first.len()]);
            }
        }
        piece_bytes(t, pieces[0], first);
        pieces_bytes(t, rest, more);
        let x = encode_utf8(pieces[0]);
        let y = encode_utf8(crate::pre::concat(rest));
        ids_bytes_join(t, first, more, x, y);
        crate::text::encoding_concatenates(pieces[0], crate::pre::concat(rest));
    }
}

// ── whole texts ──

/// The regular expression cuts the text at character boundaries, from left to
/// right.
pub open spec fn cut_well(text: Seq<char>) -> bool {
    text.len() == 0 || crate::pre::well_placed(
        encode_utf8(text),
        crate::pre::regex_spans(crate::pre::pattern(), text),
    )
}

/// Every part between special tokens is cut well.
pub open spec fn all_cut_well(t: TokenizerView, plain: Seq<char>, text: Seq<char>) -> bool
    decreases text.len(),
{
    if text.len() == 0 {
        cut_well(plain)
    } else if exists|s: Seq<char>| #[trigger] crate::tokenizer::is_longest(t, text, s) {
        let s = choose|s: Seq<char>| #[trigger] crate::tokenizer::is_longest(t, text, s);
        cut_well(plain) && all_cut_well(t, Seq::empty(), text.skip(s.len() as int))
    } else {
        all_cut_well(t, plain.push(text[0]), text.drop_first())
    }
}

/// Merging gives no special token for the text.
pub open spec fn merges_ordinary(t: TokenizerView, text: Seq<char>) -> bool {
    crate::tokenizer::plain_ids(t, text) matches Ok(ids) ==> ordinary(t, ids)
}

/// Merging gives no special token for any part between special tokens.
pub open spec fn all_merge_ordinary(t: TokenizerView, plain: Seq<char>, text: Seq<char>) -> bool
    decreases text.len(),
{
    if text.len() == 0 {
        merges_ordinary(t, plain)
    } else if exists|s: Seq<char>| #[trigger] crate::tokenizer::is_longest(t, text, s) {
        let s = choose|s: Seq<char>| #[trigger] crate::tokenizer::is_longest(t, text, s);
        merges_ordinary(t, plain) && all_merge_ordinary(
            t,
            Seq::empty(),
            text.skip(s.len() as int),
        )
    } else {
        all_merge_ordinary(t, plain.push(text[0]), text.drop_first())
    }
}

/// The text without its special tokens.
pub open spec fn stripped(t: TokenizerView, text: Seq<char>) -> Seq<char>
    decreases text.len(),
{
    if text.len() == 0 {
        Seq::empty()
    } else if exists|s: Seq<char>| #[trigger] crate::tokenizer::is_longest(t, text, s) {
        let s = choose|s: Seq<char>| #[trigger] crate::tokenizer::is_longest(t, text, s);
        stripped(t, text.skip(s.len() as int))
    } else {
        seq![text[0]] + stripped(t, text.drop_first())
    }
}

proof fn plain_bytes(t: TokenizerView, text: Seq<char>, ids: Seq<u32>)
    requires
        t.vocab.len() <= crate::value::MAX_ARRAY,
        crate::tokenizer::plain_ids(t, text) == Ok::<
            Seq<u32>,
            crate::tokenizer::TokenizerErrorView,
        >(ids),
        cut_well(text),
        ordinary(t, ids),
    ensures
        crate::tokenizer::ids_bytes(t, ids) == Ok::<Seq<u8>, crate::tokenizer::TokenizerErrorView>(
            encode_utf8(text),
        ),
{
    if text.len() == 0 {
        assert(encode_utf8(text) =~= Seq::empty());
    } else {
        let spans = crate::pre::regex_spans(crate::pre::pattern(), text);
        crate::pre::pieces_make_the_text(text, spans);
        pieces_bytes(t, crate::pre::pieces(text, spans), ids);
    }
}

proof fn text_bytes(t: TokenizerView, plain: Seq<char>, text: Seq<char>, ids: Seq<u32>)
    requires
        t.vocab.len() <= crate::value::MAX_ARRAY,
        crate::tokenizer::text_ids(t, plain, text) == Ok::<
            Seq<u32>,
            crate::tokenizer::TokenizerErrorView,
        >(ids),
        all_cut_well(t, plain, text),
        all_merge_ordinary(t, plain, text),
    ensures
        crate::tokenizer::ids_bytes(t, ids) == Ok::<Seq<u8>, crate::tokenizer::TokenizerErrorView>(
            encode_utf8(plain + stripped(t, text)),
        ),
    decreases text.len(),
{
    if text.len() == 0 {
        plain_bytes(t, plain, ids);
        assert(plain + stripped(t, text) =~= plain);
    } else if exists|s: Seq<char>| #[trigger] crate::tokenizer::is_longest(t, text, s) {
        let s = choose|s: Seq<char>| #[trigger] crate::tokenizer::is_longest(t, text, s);
        let before = crate::tokenizer::plain_ids(t, plain)->Ok_0;
        let rest = text.skip(s.len() as int);
        let after = crate::tokenizer::text_ids(t, Seq::empty(), rest)->Ok_0;
        plain_bytes(t, plain, before);
        text_bytes(t, Seq::empty(), rest, after);
        assert(Seq::<char>::empty() + stripped(t, rest) =~= stripped(t, rest));
        let n = choose|n: int| 0 <= n < t.vocab.len() && t.vocab[n] == s;
        crate::tokenizer::tokens_have_ids(t.vocab, n);
        crate::tokenizer::ids_stand_for_tokens(t.vocab, s);
        let id = crate::tokenizer::ids_of(t.vocab)[s];
        let one = seq![id];
        assert(one.drop_first() =~= Seq::empty());
        assert(crate::tokenizer::ids_bytes(t, one.drop_first()) == Ok::<
            Seq<u8>,
            crate::tokenizer::TokenizerErrorView,
        >(Seq::empty()));
        assert(crate::tokenizer::token_bytes(s) + Seq::<u8>::empty() =~= Seq::empty());
        let x = encode_utf8(plain);
        let y = encode_utf8(stripped(t, rest));
        ids_bytes_join(t, before, one, x, Seq::empty());
        assert(x + Seq::<u8>::empty() =~= x);
        ids_bytes_join(t, before + one, after, x, y);
        crate::text::encoding_concatenates(plain, stripped(t, rest));
    } else {
        text_bytes(t, plain.push(text[0]), text.drop_first(), ids);
        assert(plain.push(text[0]) + stripped(t, text.drop_first()) =~= plain + stripped(t, text));
    }
}

/// Decoding what was encoded gives the text back, without its special tokens. It
/// holds as long as merging gives no special token of its own.
pub proof fn encoding_decodes(t: TokenizerView, text: Seq<char>)
    requires
        t.vocab.len() <= crate::value::MAX_ARRAY,
        all_cut_well(t, Seq::empty(), text),
        all_merge_ordinary(t, Seq::empty(), text),
    ensures
        crate::tokenizer::encoded(t, text) matches Ok(ids) ==> crate::tokenizer::decoded(t, ids)
            == Ok::<Seq<char>, crate::tokenizer::TokenizerErrorView>(stripped(t, text)),
{
    if let Ok(ids) = crate::tokenizer::encoded(t, text) {
        text_bytes(t, Seq::empty(), text, ids);
        assert(Seq::<char>::empty() + stripped(t, text) =~= stripped(t, text));
        encode_utf8_valid_utf8(stripped(t, text));
        encode_utf8_decode_utf8(stripped(t, text));
    }
}

// ── special tokens stay whole ──

/// The special tokens are made of printable ASCII characters.
pub open spec fn plain_specials(t: TokenizerView) -> bool {
    forall|s: Seq<char>, i: int|
        t.vocab.contains(s) && crate::tokenizer::is_special(s) && 0 <= i < s.len() ==> 33 <= (
        #[trigger] s[i] as u32) <= 126
}

/// A special token of the vocabulary.
spec fn special_of(t: TokenizerView, s: Seq<char>) -> bool {
    t.vocab.contains(s) && crate::tokenizer::is_special(s)
}

/// No special token occurs in the text.
spec fn free(t: TokenizerView, text: Seq<char>) -> bool {
    forall|s: Seq<char>, x: int|
        special_of(t, s) ==> !#[trigger] crate::text::occurs_at(text, s, x)
}

/// An ASCII character and its byte are the same number.
proof fn ascii_casts(c: char)
    ensures
        (c as u32) < 0x80 ==> c as u8 == c as u32,
{
}

/// Valid UTF-8 that starts with ASCII bytes decodes to their characters first.
proof fn ascii_prefix_decodes(c: Seq<u8>, w: Seq<char>)
    requires
        valid_utf8(c),
        w.len() <= c.len(),
        forall|j: int| 0 <= j < w.len() ==> (#[trigger] w[j] as u32) <= 126 && c[j] == w[j] as u8,
    ensures
        valid_utf8(c.skip(w.len() as int)),
        decode_utf8(c) == w + decode_utf8(c.skip(w.len() as int)),
    decreases w.len(),
{
    if w.len() == 0 {
        assert(c.skip(0) =~= c);
        assert(w + decode_utf8(c) =~= decode_utf8(c));
    } else {
        assert((w[0] as u32) <= 126 && c[0] == w[0] as u8);
        ascii_casts(w[0]);
        let rest = pop_first_scalar(c);
        assert(rest =~= c.drop_first());
        let v = w.drop_first();
        assert forall|j: int| 0 <= j < v.len() implies (#[trigger] v[j] as u32) <= 126 && rest[j]
            == v[j] as u8 by {
            assert(v[j] == w[j + 1]);
            assert(rest[j] == c[j + 1]);
        }
        ascii_prefix_decodes(rest, v);
        assert(rest.skip(v.len() as int) =~= c.skip(w.len() as int));
        let b = c[0];
        assert((b & 0x7f) == b) by (bit_vector)
            requires
                b <= 0x7e,
        ;
        assert(decode_first_scalar(c) == w[0] as u32);
        char_u32_cast(w[0], w[0] as u32);
        assert(decode_utf8(c) =~= w + decode_utf8(c.skip(w.len() as int)));
    }
}

/// Where the byte characters of a text spell printable ASCII, the text holds the
/// same characters.
proof fn mapped_occurrence(text: Seq<char>, w: Seq<char>, x: int)
    requires
        w.len() > 0,
        forall|i: int| 0 <= i < w.len() ==> 33 <= (#[trigger] w[i] as u32) <= 126,
        crate::text::occurs_at(crate::tokenizer::mapped(text), w, x),
    ensures
        exists|y: int| #[trigger] crate::text::occurs_at(text, w, y),
{
    let b = encode_utf8(text);
    let m = crate::tokenizer::mapped(text);
    encode_utf8_valid_utf8(text);
    encode_utf8_decode_utf8(text);
    let c = b.skip(x);
    assert forall|j: int| 0 <= j < w.len() implies (#[trigger] w[j] as u32) <= 126 && c[j] == w[j] as u8 by {
        assert(m.subrange(x, x + w.len())[j] == m[x + j]);
        assert(m[x + j] == crate::pre::byte_char(b[x + j]));
        ascii_casts(w[j]);
        crate::pre::byte_chars_are_invertible(b[x + j], w[j]);
        assert(33 <= (w[j] as u32) <= 126);
    }
    assert((w[0] as u32) <= 126 && c[0] == w[0] as u8);
    assert(b[x] == c[0]);
    is_char_boundary_iff_not_is_continuation_byte(b, x);
    valid_utf8_split(b, x);
    decode_utf8_split(b, x);
    assert(b.subrange(x, b.len() as int) =~= c);
    ascii_prefix_decodes(c, w);
    let y = decode_utf8(b.subrange(0, x)).len() as int;
    assert(text.subrange(y, y + w.len()) =~= w);
    assert(crate::text::occurs_at(text, w, y));
}

/// The tokens of a piece without special tokens are ordinary.
proof fn piece_is_ordinary(t: TokenizerView, piece: Seq<char>)
    requires
        t.vocab.len() <= crate::value::MAX_ARRAY,
        plain_specials(t),
        free(t, piece),
    ensures
        crate::tokenizer::piece_ids(t, piece) matches Ok(ids) ==> ordinary(t, ids),
{
    if let Ok(ids) = crate::tokenizer::piece_ids(t, piece) {
        piece_spells(t, piece);
        let m = crate::tokenizer::mapped(piece);
        assert forall|k: int| 0 <= k < ids.len() implies !crate::tokenizer::is_special(
            t.vocab[(#[trigger] ids[k]) as int],
        ) by {
            let w = t.vocab[ids[k] as int];
            if crate::tokenizer::is_special(w) {
                assert(t.vocab.contains(w));
                let a = ids.take(k);
                let c = ids.skip(k + 1);
                assert(ids =~= a + (seq![ids[k]] + c));
                spelled_joins(t, a, seq![ids[k]] + c);
                spelled_joins(t, seq![ids[k]], c);
                spelled_one(t, ids[k]);
                let x = spelled(t, a).len() as int;
                assert(m.subrange(x, x + w.len()) =~= w);
                mapped_occurrence(piece, w, x);
                let y = choose|y: int| #[trigger] crate::text::occurs_at(piece, w, y);
                assert(special_of(t, w));
                assert(crate::text::occurs_at(piece, w, y));
            }
        }
    }
}

proof fn free_parts(t: TokenizerView, a: Seq<char>, b: Seq<char>)
    requires
        free(t, a + b),
    ensures
        free(t, a),
        free(t, b),
{
    assert forall|s: Seq<char>, x: int| special_of(t, s) implies !#[trigger]
        crate::text::occurs_at(a, s, x) by {
        if crate::text::occurs_at(a, s, x) {
            assert((a + b).subrange(x, x + s.len()) =~= a.subrange(x, x + s.len()));
            assert(crate::text::occurs_at(a + b, s, x));
        }
    }
    assert forall|s: Seq<char>, x: int| special_of(t, s) implies !#[trigger]
        crate::text::occurs_at(b, s, x) by {
        if crate::text::occurs_at(b, s, x) {
            let y = x + a.len();
            assert((a + b).subrange(y, y + s.len()) =~= b.subrange(x, x + s.len()));
            assert(crate::text::occurs_at(a + b, s, y));
        }
    }
}

proof fn pieces_are_ordinary(t: TokenizerView, pieces: Seq<Seq<char>>)
    requires
        t.vocab.len() <= crate::value::MAX_ARRAY,
        plain_specials(t),
        free(t, crate::pre::concat(pieces)),
    ensures
        crate::tokenizer::pieces_ids(t, pieces) matches Ok(ids) ==> ordinary(t, ids),
    decreases pieces.len(),
{
    if pieces.len() > 0 {
        let rest = pieces.drop_first();
        free_parts(t, pieces[0], crate::pre::concat(rest));
        piece_is_ordinary(t, pieces[0]);
        pieces_are_ordinary(t, rest);
        if let Ok(ids) = crate::tokenizer::pieces_ids(t, pieces) {
            let first = crate::tokenizer::piece_ids(t, pieces[0])->Ok_0;
            let more = crate::tokenizer::pieces_ids(t, rest)->Ok_0;
            assert forall|k: int| 0 <= k < ids.len() implies !crate::tokenizer::is_special(
                t.vocab[(#[trigger] ids[k]) as int],
            ) by {
                if k < first.len() {
                    assert(ids[k] == first[k]);
                } else {
                    assert(ids[k] == more[k - first.len()]);
                }
            }
        }
    }
}

proof fn free_text_is_ordinary(t: TokenizerView, text: Seq<char>)
    requires
        t.vocab.len() <= crate::value::MAX_ARRAY,
        plain_specials(t),
        free(t, text),
        cut_well(text),
    ensures
        merges_ordinary(t, text),
{
    if text.len() > 0 {
        let spans = crate::pre::regex_spans(crate::pre::pattern(), text);
        crate::pre::pieces_make_the_text(text, spans);
        pieces_are_ordinary(t, crate::pre::pieces(text, spans));
    }
}

/// Where a special token starts, there is a longest one.
proof fn longest_exists(t: TokenizerView, text: Seq<char>, s: Seq<char>)
    requires
        crate::tokenizer::starts_with_special(t, text, s),
    ensures
        exists|o: Seq<char>| #[trigger] crate::tokenizer::is_longest(t, text, o),
    decreases text.len() - s.len(),
{
    if crate::tokenizer::is_longest(t, text, s) {
    } else {
        let o = choose|o: Seq<char>| #[trigger]
            crate::tokenizer::starts_with_special(t, text, o) && o.len() > s.len();
        longest_exists(t, text, o);
    }
}

/// No special token starts within `plain`, even if it reaches into `text`.
spec fn none_starts(t: TokenizerView, plain: Seq<char>, text: Seq<char>) -> bool {
    forall|x: int, s: Seq<char>|
        0 <= x < plain.len() ==> !#[trigger] crate::tokenizer::starts_with_special(
            t,
            (plain + text).skip(x),
            s,
        )
}

proof fn none_starts_is_free(t: TokenizerView, plain: Seq<char>, text: Seq<char>)
    requires
        none_starts(t, plain, text),
    ensures
        free(t, plain),
{
    assert forall|s: Seq<char>, x: int| special_of(t, s) implies !#[trigger]
        crate::text::occurs_at(plain, s, x) by {
        if crate::text::occurs_at(plain, s, x) {
            let rest = (plain + text).skip(x);
            assert(rest.subrange(0, s.len() as int) =~= plain.subrange(x, x + s.len()));
            assert(crate::tokenizer::starts_with_special(t, rest, s));
        }
    }
}

proof fn scan_is_ordinary(t: TokenizerView, plain: Seq<char>, text: Seq<char>)
    requires
        t.vocab.len() <= crate::value::MAX_ARRAY,
        plain_specials(t),
        none_starts(t, plain, text),
        all_cut_well(t, plain, text),
    ensures
        all_merge_ordinary(t, plain, text),
    decreases text.len(),
{
    if text.len() == 0 {
        none_starts_is_free(t, plain, text);
        free_text_is_ordinary(t, plain);
    } else if exists|s: Seq<char>| #[trigger] crate::tokenizer::is_longest(t, text, s) {
        let s = choose|s: Seq<char>| #[trigger] crate::tokenizer::is_longest(t, text, s);
        none_starts_is_free(t, plain, text);
        free_text_is_ordinary(t, plain);
        scan_is_ordinary(t, Seq::empty(), text.skip(s.len() as int));
    } else {
        let p = plain.push(text[0]);
        let rest = text.drop_first();
        assert(p + rest =~= plain + text);
        assert forall|x: int, s: Seq<char>| 0 <= x < p.len() implies !#[trigger]
            crate::tokenizer::starts_with_special(t, (p + rest).skip(x), s) by {
            if x == plain.len() {
                assert((p + rest).skip(x) =~= text);
                if crate::tokenizer::starts_with_special(t, text, s) {
                    longest_exists(t, text, s);
                }
            } else {
                assert(!crate::tokenizer::starts_with_special(t, (plain + text).skip(x), s));
            }
        }
        scan_is_ordinary(t, p, rest);
    }
}

/// With special tokens of printable ASCII characters, merging never gives one:
/// they come from the text as a whole or not at all.
pub proof fn merging_gives_no_special(t: TokenizerView, text: Seq<char>)
    requires
        t.vocab.len() <= crate::value::MAX_ARRAY,
        plain_specials(t),
        all_cut_well(t, Seq::empty(), text),
    ensures
        all_merge_ordinary(t, Seq::empty(), text),
{
    scan_is_ordinary(t, Seq::empty(), text);
}

} // verus!
