//! What the tables of a model mean for the tokens of a text: ids, merges and special
//! tokens.

use vstd::prelude::*;

use crate::gguf::GgufFileView;
use crate::tokenizer::{TokenizerErrorView, TokenizerView};
use crate::value::GgufValueView;

verus! {

/// Merge number `i` is the one that joins the tokens `a` and `b`: it names them, and
/// none behind it does.
pub open spec fn joins(merges: Seq<Seq<char>>, i: int, a: Seq<char>, b: Seq<char>) -> bool {
    &&& 0 <= i < merges.len()
    &&& !a.contains(' ')
    &&& merges[i] == a + seq![' '] + b
    &&& forall|j: int| i < j < merges.len() ==> #[trigger] merges[j] != a + seq![' '] + b
}

/// `x` is the id of a token: of equal tokens only the last one has an id.
pub open spec fn is_id(vocab: Seq<Seq<char>>, x: u32) -> bool {
    &&& x < vocab.len()
    &&& forall|j: int| x < j < vocab.len() ==> #[trigger] vocab[j] != vocab[x as int]
}

/// All the numbers are ids.
pub open spec fn are_ids(vocab: Seq<Seq<char>>, parts: Seq<u32>) -> bool {
    forall|k: int| 0 <= k < parts.len() ==> is_id(vocab, #[trigger] parts[k])
}

/// Merge number `i` joins part `p` with the next one.
pub open spec fn joins_at(
    merges: Seq<Seq<char>>,
    vocab: Seq<Seq<char>>,
    parts: Seq<u32>,
    p: int,
    i: int,
) -> bool {
    joins(merges, i, vocab[parts[p] as int], vocab[parts[p + 1] as int])
}

/// `t` is the tokenizer of a file whose metadata list `merges`.
pub open spec fn reads(f: GgufFileView, t: TokenizerView, merges: Seq<Seq<char>>) -> bool {
    &&& crate::gguf::bounded(f.metadata)
    &&& crate::tokenizer::tokenizer_of(f) == Ok::<TokenizerView, TokenizerErrorView>(t)
    &&& crate::gguf::lookup(f.metadata, "tokenizer.ggml.merges"@) matches Some(
        GgufValueView::Array(items),
    ) && items.len() == merges.len() && forall|i: int|
        0 <= i < items.len() ==> #[trigger] items[i] == GgufValueView::String(merges[i])
}

// ── ids ──

/// The id of a token is its position in the vocabulary, the last one if it stands
/// there more than once.
pub proof fn ids_are_positions(vocab: Seq<Seq<char>>, x: u32)
    requires
        vocab.len() <= crate::value::MAX_ARRAY,
        is_id(vocab, x),
    ensures
        crate::tokenizer::ids_of(vocab).contains_key(vocab[x as int]),
        crate::tokenizer::ids_of(vocab)[vocab[x as int]] == x,
    decreases vocab.len(),
{
    if x < vocab.len() - 1 {
        let init = vocab.drop_last();
        assert(vocab[vocab.len() - 1] != vocab[x as int]);
        assert forall|j: int| x < j < init.len() implies #[trigger] init[j] != init[x as int] by {
            assert(vocab[j] != vocab[x as int]);
        }
        ids_are_positions(init, x);
    }
}

/// What the vocabulary gives as the id of a token is the id of that token, and a text
/// that is no token has none.
pub proof fn tokens_are_found_by_text(vocab: Seq<Seq<char>>, text: Seq<char>)
    requires
        vocab.len() <= crate::value::MAX_ARRAY,
    ensures
        crate::tokenizer::ids_of(vocab).contains_key(text) <==> vocab.contains(text),
        crate::tokenizer::ids_of(vocab).contains_key(text) ==> is_id(
            vocab,
            crate::tokenizer::ids_of(vocab)[text],
        ) && vocab[crate::tokenizer::ids_of(vocab)[text] as int] == text,
    decreases vocab.len(),
{
    if vocab.contains(text) {
        let i = choose|i: int| 0 <= i < vocab.len() && vocab[i] == text;
        crate::tokenizer::tokens_have_ids(vocab, i);
    }
    if crate::tokenizer::ids_of(vocab).contains_key(text) {
        crate::tokenizer::ids_stand_for_tokens(vocab, text);
        let x = crate::tokenizer::ids_of(vocab)[text];
        assert forall|j: int| x < j < vocab.len() implies #[trigger] vocab[j]
            != vocab[x as int] by {
            if vocab[j] == text {
                later_token_counts(vocab, j);
            }
        }
    }
}

proof fn later_token_counts(vocab: Seq<Seq<char>>, j: int)
    requires
        vocab.len() <= crate::value::MAX_ARRAY,
        0 <= j < vocab.len(),
    ensures
        crate::tokenizer::ids_of(vocab).contains_key(vocab[j]),
        crate::tokenizer::ids_of(vocab)[vocab[j]] >= j,
    decreases vocab.len(),
{
    if j < vocab.len() - 1 {
        later_token_counts(vocab.drop_last(), j);
    }
}

// ── ranks ──

proof fn keys_are_distinct(a: u32, b: u32, c: u32, d: u32)
    requires
        crate::tokenizer::pair_key(a, b) == crate::tokenizer::pair_key(c, d),
    ensures
        a == c,
        b == d,
{
}

/// The pair of ids that a merge stands for is the one of its two tokens.
proof fn merge_resolves(vocab: Seq<Seq<char>>, m: Seq<char>, x: u32, y: u32)
    requires
        vocab.len() <= crate::value::MAX_ARRAY,
        is_id(vocab, x),
        is_id(vocab, y),
    ensures
        ({
            let ids = crate::tokenizer::ids_of(vocab);
            (crate::text::split_once(m, ' ') matches Some((a, b)) && ids.contains_key(a)
                && ids.contains_key(b) && crate::tokenizer::pair_key(ids[a], ids[b])
                == crate::tokenizer::pair_key(x, y)) <==> !vocab[x as int].contains(' ') && m
                == vocab[x as int] + seq![' '] + vocab[y as int]
        }),
{
    let ids = crate::tokenizer::ids_of(vocab);
    ids_are_positions(vocab, x);
    ids_are_positions(vocab, y);
    crate::text::splits_join(m, ' ');
    if let Some((a, b)) = crate::text::split_once(m, ' ') {
        if ids.contains_key(a) && ids.contains_key(b) {
            crate::tokenizer::ids_stand_for_tokens(vocab, a);
            crate::tokenizer::ids_stand_for_tokens(vocab, b);
            if crate::tokenizer::pair_key(ids[a], ids[b]) == crate::tokenizer::pair_key(x, y) {
                keys_are_distinct(ids[a], ids[b], x, y);
            }
        }
    }
    if !vocab[x as int].contains(' ') && m == vocab[x as int] + seq![' '] + vocab[y as int] {
        crate::text::joints_split(vocab[x as int], ' ', vocab[y as int]);
    }
}

proof fn rank_is_position(vocab: Seq<Seq<char>>, merges: Seq<Seq<char>>, x: u32, y: u32)
    requires
        vocab.len() <= crate::value::MAX_ARRAY,
        merges.len() <= crate::value::MAX_ARRAY,
        is_id(vocab, x),
        is_id(vocab, y),
    ensures
        ({
            let ranks = crate::tokenizer::ranks_of(merges, crate::tokenizer::ids_of(vocab));
            let key = crate::tokenizer::pair_key(x, y);
            &&& ranks.contains_key(key) ==> joins(
                merges,
                ranks[key] as int,
                vocab[x as int],
                vocab[y as int],
            )
            &&& forall|i: int| #[trigger]
                joins(merges, i, vocab[x as int], vocab[y as int]) ==> ranks.contains_key(key)
                    && ranks[key] == i
        }),
    decreases merges.len(),
{
    let ids = crate::tokenizer::ids_of(vocab);
    let ranks = crate::tokenizer::ranks_of(merges, ids);
    let key = crate::tokenizer::pair_key(x, y);
    let a = vocab[x as int];
    let b = vocab[y as int];
    if merges.len() > 0 {
        let init = merges.drop_last();
        let last = merges.last();
        let before = crate::tokenizer::ranks_of(init, ids);
        rank_is_position(vocab, init, x, y);
        merge_resolves(vocab, last, x, y);
        let here = !a.contains(' ') && last == a + seq![' '] + b;
        if ranks.contains_key(key) && !here {
            assert(before.contains_key(key) && before[key] == ranks[key]);
            assert(joins(init, ranks[key] as int, a, b));
            assert forall|j: int| ranks[key] < j < merges.len() implies #[trigger] merges[j] != a
                + seq![' '] + b by {
                if j < init.len() {
                    assert(init[j] == merges[j]);
                }
            }
        }
        assert forall|i: int| #[trigger] joins(merges, i, a, b) implies ranks.contains_key(key)
            && ranks[key] == i by {
            if i < init.len() {
                assert(merges[merges.len() - 1] != a + seq![' '] + b);
                assert forall|j: int| i < j < init.len() implies #[trigger] init[j] != a + seq![' ']
                    + b by {
                    assert(init[j] == merges[j]);
                }
                assert(joins(init, i, a, b));
            }
        }
    }
}

proof fn tables_are_of_the_file(f: GgufFileView, t: TokenizerView, merges: Seq<Seq<char>>)
    requires
        reads(f, t, merges),
    ensures
        t.ranks == crate::tokenizer::ranks_of(merges, crate::tokenizer::ids_of(t.vocab)),
        t.vocab.len() <= crate::value::MAX_ARRAY,
        merges.len() <= crate::value::MAX_ARRAY,
{
    crate::tokenizer::lookup_is_bounded(f.metadata, "tokenizer.ggml.merges"@);
    crate::tokenizer::lookup_is_bounded(f.metadata, "tokenizer.ggml.tokens"@);
    let items = crate::gguf::lookup(f.metadata, "tokenizer.ggml.merges"@)->Some_0->Array_0;
    assert forall|i: int| 0 <= i < items.len() implies (#[trigger] items[i]) is String by {
        assert(items[i] == GgufValueView::String(merges[i]));
    }
    let listed = Seq::new(items.len(), |i: int| items[i]->String_0);
    assert forall|i: int| 0 <= i < items.len() implies #[trigger] listed[i] == merges[i] by {
        assert(items[i] == GgufValueView::String(merges[i]));
    }
    assert(listed =~= merges);
}

/// A merge that comes earlier in the file has the lower rank, so that it is made before
/// a later one. Pairs without a merge have no rank.
pub proof fn earlier_merges_rank_lower(
    f: GgufFileView,
    t: TokenizerView,
    merges: Seq<Seq<char>>,
    parts: Seq<u32>,
    p: int,
    q: int,
    i: int,
    j: int,
)
    requires
        reads(f, t, merges),
        are_ids(t.vocab, parts),
        0 <= p < parts.len() - 1,
        0 <= q < parts.len() - 1,
        joins_at(merges, t.vocab, parts, p, i),
        joins_at(merges, t.vocab, parts, q, j),
        i < j,
    ensures
        crate::tokenizer::rank_at(t, parts, p) matches Some(a)
            && crate::tokenizer::rank_at(t, parts, q) matches Some(b) && a < b,
{
    tables_are_of_the_file(f, t, merges);
    rank_is_position(t.vocab, merges, parts[p], parts[p + 1]);
    rank_is_position(t.vocab, merges, parts[q], parts[q + 1]);
}

// ── merging ──

/// The merge to make: of all that apply the earliest in the file, and of its places the
/// leftmost.
pub open spec fn comes_first(
    merges: Seq<Seq<char>>,
    vocab: Seq<Seq<char>>,
    parts: Seq<u32>,
    p: int,
) -> bool {
    &&& 0 <= p < parts.len() - 1
    &&& exists|i: int| #[trigger]
        joins_at(merges, vocab, parts, p, i) && forall|q: int, j: int|
            0 <= q < parts.len() - 1 && #[trigger] joins_at(merges, vocab, parts, q, j) ==> i < j
                || i == j && p <= q
}

proof fn first_is_best(f: GgufFileView, t: TokenizerView, merges: Seq<Seq<char>>, parts: Seq<u32>, p: int)
    requires
        reads(f, t, merges),
        are_ids(t.vocab, parts),
        0 <= p < parts.len() - 1,
    ensures
        comes_first(merges, t.vocab, parts, p) <==> crate::tokenizer::is_best(t, parts, p),
{
    tables_are_of_the_file(f, t, merges);
    let vocab = t.vocab;
    assert forall|q: int| 0 <= q < parts.len() - 1 implies {
        &&& (#[trigger] crate::tokenizer::rank_at(t, parts, q) matches Some(r) ==> joins_at(
            merges,
            vocab,
            parts,
            q,
            r as int,
        ))
        &&& forall|j: int| #[trigger]
            joins_at(merges, vocab, parts, q, j) ==> crate::tokenizer::rank_at(t, parts, q) == Some(
                j as u32,
            ) && j == j as u32
    } by {
        assert(is_id(vocab, parts[q]) && is_id(vocab, parts[q + 1]));
        rank_is_position(vocab, merges, parts[q], parts[q + 1]);
        assert forall|j: int| #[trigger] joins_at(merges, vocab, parts, q, j) implies
            crate::tokenizer::rank_at(t, parts, q) == Some(j as u32) && j == j as u32 by {
            assert(joins(merges, j, vocab[parts[q] as int], vocab[parts[q + 1] as int]));
        }
    }
    if comes_first(merges, vocab, parts, p) {
        let i = choose|i: int| #[trigger]
            joins_at(merges, vocab, parts, p, i) && forall|q: int, j: int|
                0 <= q < parts.len() - 1 && #[trigger] joins_at(merges, vocab, parts, q, j) ==> i
                    < j || i == j && p <= q;
        assert(crate::tokenizer::rank_at(t, parts, p) == Some(i as u32));
        assert forall|j: int| 0 <= j < parts.len() - 1 implies (
        #[trigger] crate::tokenizer::rank_at(t, parts, j) matches Some(q) ==> (i < q || i == q && p
            <= j)) by {
            if let Some(q) = crate::tokenizer::rank_at(t, parts, j) {
                assert(joins_at(merges, vocab, parts, j, q as int));
            }
        }
    }
    if crate::tokenizer::is_best(t, parts, p) {
        let r = crate::tokenizer::rank_at(t, parts, p)->Some_0;
        assert(joins_at(merges, vocab, parts, p, r as int));
        assert forall|q: int, j: int|
            0 <= q < parts.len() - 1 && #[trigger] joins_at(merges, vocab, parts, q, j) implies r
            < j || r == j && p <= q by {
            assert(crate::tokenizer::rank_at(t, parts, q) == Some(j as u32));
        }
    }
}

/// Two tokens side by side are replaced by the token that spells both, where their merge
/// comes first of all that apply. A merge whose result is no token is an error.
pub proof fn first_merge_is_made_first(
    f: GgufFileView,
    t: TokenizerView,
    merges: Seq<Seq<char>>,
    left: Seq<u32>,
    x: u32,
    y: u32,
    right: Seq<u32>,
)
    requires
        reads(f, t, merges),
        are_ids(t.vocab, left + seq![x, y] + right),
        comes_first(merges, t.vocab, left + seq![x, y] + right, left.len() as int),
    ensures
        ({
            let text = t.vocab[x as int] + t.vocab[y as int];
            let before = crate::tokenizer::bpe(t, left + seq![x, y] + right);
            &&& !t.vocab.contains(text) ==> before == Err::<Seq<u32>, TokenizerErrorView>(
                TokenizerErrorView::UnknownToken(text),
            )
            &&& forall|z: u32| #[trigger]
                is_id(t.vocab, z) && t.vocab[z as int] == text ==> before == crate::tokenizer::bpe(
                    t,
                    left + seq![z] + right,
                )
        }),
{
    tables_are_of_the_file(f, t, merges);
    let parts = left + seq![x, y] + right;
    let p = left.len() as int;
    let text = t.vocab[x as int] + t.vocab[y as int];
    first_is_best(f, t, merges, parts, p);
    let i = choose|i: int| #[trigger] crate::tokenizer::is_best(t, parts, i);
    crate::tokenizer::best_is_unique(t, parts, p, i);
    assert(parts[p] == x && parts[p + 1] == y);
    tokens_are_found_by_text(t.vocab, text);
    assert forall|z: u32| #[trigger]
        is_id(t.vocab, z) && t.vocab[z as int] == text implies crate::tokenizer::bpe(t, parts)
        == crate::tokenizer::bpe(t, left + seq![z] + right) by {
        ids_are_positions(t.vocab, z);
        assert(crate::tokenizer::joined(parts, p, z) =~= left + seq![z] + right);
    }
}

/// Tokens that no merge joins stay as they are.
pub proof fn parts_without_merge_stay(
    f: GgufFileView,
    t: TokenizerView,
    merges: Seq<Seq<char>>,
    parts: Seq<u32>,
)
    requires
        reads(f, t, merges),
        are_ids(t.vocab, parts),
        forall|q: int, j: int|
            0 <= q < parts.len() - 1 ==> !#[trigger] joins_at(merges, t.vocab, parts, q, j),
    ensures
        crate::tokenizer::bpe(t, parts) == Ok::<Seq<u32>, TokenizerErrorView>(parts),
{
    assert forall|i: int| !#[trigger] crate::tokenizer::is_best(t, parts, i) by {
        if crate::tokenizer::is_best(t, parts, i) {
            first_is_best(f, t, merges, parts, i);
            let j = choose|j: int| #[trigger] joins_at(merges, t.vocab, parts, i, j);
            assert(!joins_at(merges, t.vocab, parts, i, j));
        }
    }
}

/// Merging goes on until no merge applies, and gives ids.
pub proof fn no_merge_is_left(
    f: GgufFileView,
    t: TokenizerView,
    merges: Seq<Seq<char>>,
    parts: Seq<u32>,
)
    requires
        reads(f, t, merges),
        are_ids(t.vocab, parts),
    ensures
        crate::tokenizer::bpe(t, parts) matches Ok(r) ==> are_ids(t.vocab, r) && forall|
            q: int,
            j: int,
        |
            0 <= q < r.len() - 1 ==> !#[trigger] joins_at(merges, t.vocab, r, q, j),
    decreases parts.len(),
{
    tables_are_of_the_file(f, t, merges);
    if exists|i: int| #[trigger] crate::tokenizer::is_best(t, parts, i) {
        let i = choose|i: int| #[trigger] crate::tokenizer::is_best(t, parts, i);
        let text = crate::tokenizer::pair_text(t, parts, i);
        tokens_are_found_by_text(t.vocab, text);
        if crate::tokenizer::ids_of(t.vocab).contains_key(text) {
            let id = crate::tokenizer::ids_of(t.vocab)[text];
            let next = crate::tokenizer::joined(parts, i, id);
            assert forall|k: int| 0 <= k < next.len() implies is_id(
                t.vocab,
                #[trigger] next[k],
            ) by {
                if k < i {
                    assert(next[k] == parts[k]);
                } else if k > i {
                    assert(next[k] == parts[k + 1]);
                }
            }
            no_merge_is_left(f, t, merges, next);
        }
    } else {
        assert forall|q: int, j: int| 0 <= q < parts.len() - 1 implies !#[trigger] joins_at(
            merges,
            t.vocab,
            parts,
            q,
            j,
        ) by {
            if joins_at(merges, t.vocab, parts, q, j) {
                assert(is_id(t.vocab, parts[q]) && is_id(t.vocab, parts[q + 1]));
                rank_is_position(t.vocab, merges, parts[q], parts[q + 1]);
                assert(joins(merges, j, t.vocab[parts[q] as int], t.vocab[parts[q + 1] as int]));
                assert(crate::tokenizer::rank_at(t, parts, q) is Some);
                ranked_has_best(t, parts, q);
            }
        }
    }
}

/// Where some pair has a rank, some pair is the best.
proof fn ranked_has_best(t: TokenizerView, parts: Seq<u32>, q: int)
    requires
        0 <= q < parts.len() - 1,
        crate::tokenizer::rank_at(t, parts, q) is Some,
    ensures
        exists|i: int| #[trigger] crate::tokenizer::is_best(t, parts, i),
    decreases crate::tokenizer::rank_at(t, parts, q)->Some_0, q,
{
    let r = crate::tokenizer::rank_at(t, parts, q)->Some_0;
    if !crate::tokenizer::is_best(t, parts, q) {
        let j = choose|j: int|
            0 <= j < parts.len() - 1 && !(#[trigger] crate::tokenizer::rank_at(t, parts, j) matches Some(
                s,
            ) ==> (r < s || r == s && q <= j));
        ranked_has_best(t, parts, j);
    }
}

/// A piece starts out as its bytes: one token per byte, each spelled by the character
/// that stands for the byte.
pub proof fn pieces_start_as_bytes(t: TokenizerView, chars: Seq<char>)
    requires
        t.vocab.len() <= crate::value::MAX_ARRAY,
    ensures
        crate::tokenizer::letters(t, chars) matches Ok(parts) ==> parts.len() == chars.len()
            && are_ids(t.vocab, parts) && forall|i: int|
            0 <= i < chars.len() ==> t.vocab[#[trigger] parts[i] as int] == seq![chars[i]],
        crate::tokenizer::letters(t, chars) is Ok <==> forall|i: int|
            0 <= i < chars.len() ==> t.vocab.contains(seq![#[trigger] chars[i]]),
    decreases chars.len(),
{
    if chars.len() > 0 {
        let rest = chars.drop_first();
        tokens_are_found_by_text(t.vocab, seq![chars[0]]);
        pieces_start_as_bytes(t, rest);
        assert forall|i: int| 0 <= i < rest.len() implies #[trigger] rest[i] == chars[i + 1] by {}
        if crate::tokenizer::letters(t, chars) is Ok {
            let parts = crate::tokenizer::letters(t, chars)->Ok_0;
            let tail = crate::tokenizer::letters(t, rest)->Ok_0;
            assert forall|i: int| 0 <= i < chars.len() implies is_id(t.vocab, #[trigger] parts[i])
                && t.vocab[parts[i] as int] == seq![chars[i]] by {
                if i > 0 {
                    assert(parts[i] == tail[i - 1]);
                    assert(rest[i - 1] == chars[i]);
                }
            }
            assert forall|i: int| 0 <= i < chars.len() implies t.vocab.contains(
                seq![#[trigger] chars[i]],
            ) by {
                assert(t.vocab[parts[i] as int] == seq![chars[i]]);
            }
        } else if forall|i: int|
            0 <= i < chars.len() ==> t.vocab.contains(seq![#[trigger] chars[i]]) {
            assert(t.vocab.contains(seq![chars[0]]));
            assert forall|i: int| 0 <= i < rest.len() implies t.vocab.contains(
                seq![#[trigger] rest[i]],
            ) by {
                assert(t.vocab.contains(seq![chars[i + 1]]));
            }
        }
    }
}

// ── tables ──

proof fn standing_is_found(f: GgufFileView, key: Seq<char>, v: GgufValueView)
    ensures
        crate::model_laws::stands_under(f, key, v) <==> crate::gguf::lookup(f.metadata, key)
            == Some(v),
        crate::model_laws::missing(f, key) <==> crate::gguf::lookup(f.metadata, key) is None,
{
    crate::model_laws::entries_are_found_by_key(f.metadata, key);
    if crate::model_laws::stands_under(f, key, v) {
        let k = choose|k: int|
            {
                &&& 0 <= k < f.metadata.len()
                &&& #[trigger] f.metadata[k] == (key, v)
                &&& forall|j: int| 0 <= j < k ==> (#[trigger] f.metadata[j]).0 != key
            };
        assert(f.metadata[k].0 == key);
        let w = crate::gguf::lookup(f.metadata, key)->Some_0;
        let n = choose|n: int|
            {
                &&& 0 <= n < f.metadata.len()
                &&& #[trigger] f.metadata[n] == (key, w)
                &&& forall|j: int| 0 <= j < n ==> (#[trigger] f.metadata[j]).0 != key
            };
        assert(f.metadata[n].0 == key);
        assert(n == k);
    }
    if crate::gguf::lookup(f.metadata, key) is Some {
        let w = crate::gguf::lookup(f.metadata, key)->Some_0;
        let n = choose|n: int|
            {
                &&& 0 <= n < f.metadata.len()
                &&& #[trigger] f.metadata[n] == (key, w)
                &&& forall|j: int| 0 <= j < n ==> (#[trigger] f.metadata[j]).0 != key
            };
        assert(f.metadata[n].0 == key);
    }
}

/// Every table of a tokenizer comes from its own key: the tokens by their position in the
/// list of tokens, the tokens that begin and end a sequence, and whether one is added.
pub proof fn tokenizers_read_their_keys(f: GgufFileView, t: TokenizerView, id: u32)
    requires
        crate::tokenizer::tokenizer_of(f) == Ok::<TokenizerView, TokenizerErrorView>(t),
    ensures
        exists|items: Seq<GgufValueView>|
            {
                &&& #[trigger] crate::model_laws::stands_under(
                    f,
                    "tokenizer.ggml.tokens"@,
                    GgufValueView::Array(items),
                )
                &&& items.len() == t.vocab.len()
                &&& forall|i: int|
                    0 <= i < items.len() ==> #[trigger] items[i] == GgufValueView::String(
                        t.vocab[i],
                    )
            },
        crate::model_laws::stands_under(f, "tokenizer.ggml.bos_token_id"@, GgufValueView::U32(id))
            ==> t.bos_id == Some(id),
        crate::model_laws::missing(f, "tokenizer.ggml.bos_token_id"@) ==> t.bos_id is None,
        crate::model_laws::stands_under(f, "tokenizer.ggml.eos_token_id"@, GgufValueView::U32(id))
            ==> t.eos_id == Some(id),
        crate::model_laws::missing(f, "tokenizer.ggml.eos_token_id"@) ==> t.eos_id is None,
        t.add_bos <==> crate::model_laws::stands_under(
            f,
            "tokenizer.ggml.add_bos_token"@,
            GgufValueView::Bool(true),
        ),
{
    let items = crate::gguf::lookup(f.metadata, "tokenizer.ggml.tokens"@)->Some_0->Array_0;
    standing_is_found(f, "tokenizer.ggml.tokens"@, GgufValueView::Array(items));
    assert forall|i: int| 0 <= i < items.len() implies #[trigger] items[i]
        == GgufValueView::String(t.vocab[i]) by {
        assert(items[i] is String);
    }
    standing_is_found(f, "tokenizer.ggml.bos_token_id"@, GgufValueView::U32(id));
    standing_is_found(f, "tokenizer.ggml.eos_token_id"@, GgufValueView::U32(id));
    standing_is_found(f, "tokenizer.ggml.add_bos_token"@, GgufValueView::Bool(true));
}

/// The token that begins a sequence stands before the text exactly where the model asks
/// for it, and nothing else is added.
pub proof fn beginning_is_added_on_demand(t: TokenizerView, text: Seq<char>, ids: Seq<u32>)
    requires
        crate::tokenizer::encoded(t, text) == Ok::<Seq<u32>, TokenizerErrorView>(ids),
    ensures
        crate::tokenizer::encoded_with_bos(t, text) matches Ok(r) && {
            &&& r.len() == ids.len() + (if t.add_bos && t.bos_id is Some {
                1int
            } else {
                0int
            })
            &&& r.skip(r.len() - ids.len()) == ids
            &&& r.len() > ids.len() ==> t.bos_id == Some(r[0])
        },
{
    let r = crate::tokenizer::encoded_with_bos(t, text)->Ok_0;
    assert(r.skip(r.len() - ids.len()) =~= ids);
}

// ── special tokens ──

/// The token begins with `<|` and ends with `|>`.
pub open spec fn looks_special(s: Seq<char>) -> bool {
    &&& s.len() >= 2
    &&& s.take(2) == seq!['<', '|']
    &&& s.skip(s.len() - 2) == seq!['|', '>']
}

proof fn special_looks(s: Seq<char>)
    ensures
        crate::tokenizer::is_special(s) <==> looks_special(s),
{
    if s.len() >= 2 {
        let a = s.take(2);
        let b = s.skip(s.len() - 2);
        if crate::tokenizer::is_special(s) {
            assert(a =~= seq!['<', '|']);
            assert(b =~= seq!['|', '>']);
        }
        if looks_special(s) {
            assert(a[0] == '<' && a[1] == '|');
            assert(b[0] == '|' && b[1] == '>');
            assert(s[0] == a[0] && s[1] == a[1]);
            assert(s[s.len() - 2] == b[0] && s[s.len() - 1] == b[1]);
        }
    }
}

/// A special token of the vocabulary that a text begins with.
pub open spec fn begins_with(t: TokenizerView, text: Seq<char>, s: Seq<char>) -> bool {
    t.vocab.contains(s) && looks_special(s) && s.len() <= text.len() && text.take(s.len() as int) == s
}

proof fn beginnings_agree(t: TokenizerView, text: Seq<char>, s: Seq<char>)
    ensures
        begins_with(t, text, s) <==> crate::tokenizer::starts_with_special(t, text, s),
{
    special_looks(s);
    if s.len() <= text.len() {
        assert(text.take(s.len() as int) =~= text.subrange(0, s.len() as int));
    }
}

/// A special token stays whole: where a text goes on with one, and with no longer one,
/// its id follows the ids of the text before it, and the ids of the rest follow.
pub proof fn special_tokens_stay_whole(
    t: TokenizerView,
    plain: Seq<char>,
    s: Seq<char>,
    rest: Seq<char>,
    id: u32,
)
    requires
        t.vocab.len() <= crate::value::MAX_ARRAY,
        begins_with(t, s + rest, s),
        forall|o: Seq<char>| #[trigger] begins_with(t, s + rest, o) ==> o.len() <= s.len(),
        is_id(t.vocab, id),
        t.vocab[id as int] == s,
    ensures
        ({
            let whole = crate::tokenizer::text_ids(t, plain, s + rest);
            let before = crate::tokenizer::plain_ids(t, plain);
            let after = crate::tokenizer::encoded(t, rest);
            match (before, after) {
                (Ok(a), Ok(b)) => whole == Ok::<Seq<u32>, TokenizerErrorView>(a + seq![id] + b),
                (Err(e), _) => whole == Err::<Seq<u32>, TokenizerErrorView>(e),
                (_, Err(e)) => whole == Err::<Seq<u32>, TokenizerErrorView>(e),
            }
        }),
{
    let text = s + rest;
    assert forall|o: Seq<char>| #[trigger]
        crate::tokenizer::starts_with_special(t, text, o) implies o.len() <= s.len() by {
        beginnings_agree(t, text, o);
        assert(begins_with(t, text, o));
    }
    beginnings_agree(t, text, s);
    assert(crate::tokenizer::is_longest(t, text, s));
    let o = choose|o: Seq<char>| #[trigger] crate::tokenizer::is_longest(t, text, o);
    crate::tokenizer::longest_is_unique(t, text, s, o);
    assert(text.skip(s.len() as int) =~= rest);
    ids_are_positions(t.vocab, id);
}

/// A text that begins with no special token gives its first character to the text before
/// it, and a text that is over ends the text before it.
pub proof fn other_text_is_gathered(t: TokenizerView, plain: Seq<char>, text: Seq<char>)
    requires
        forall|o: Seq<char>| !#[trigger] begins_with(t, text, o),
    ensures
        text.len() > 0 ==> crate::tokenizer::text_ids(t, plain, text)
            == crate::tokenizer::text_ids(t, plain.push(text[0]), text.drop_first()),
        text.len() == 0 ==> crate::tokenizer::text_ids(t, plain, text)
            == crate::tokenizer::plain_ids(t, plain),
{
    assert forall|s: Seq<char>| !#[trigger] crate::tokenizer::is_longest(t, text, s) by {
        beginnings_agree(t, text, s);
        assert(!begins_with(t, text, s));
    }
}

/// Pieces are encoded each by itself, and their ids stand one after the other.
pub proof fn pieces_are_encoded_one_by_one(t: TokenizerView, a: Seq<Seq<char>>, b: Seq<Seq<char>>)
    ensures
        match (crate::tokenizer::pieces_ids(t, a), crate::tokenizer::pieces_ids(t, b)) {
            (Ok(x), Ok(y)) => crate::tokenizer::pieces_ids(t, a + b) == Ok::<
                Seq<u32>,
                TokenizerErrorView,
            >(x + y),
            (Err(e), _) => crate::tokenizer::pieces_ids(t, a + b) == Err::<
                Seq<u32>,
                TokenizerErrorView,
            >(e),
            (_, Err(e)) => crate::tokenizer::pieces_ids(t, a + b) == Err::<
                Seq<u32>,
                TokenizerErrorView,
            >(e),
        },
    decreases a.len(),
{
    if a.len() == 0 {
        assert(a + b =~= b);
        if let Ok(y) = crate::tokenizer::pieces_ids(t, b) {
            assert(Seq::<u32>::empty() + y =~= y);
        }
    } else {
        let rest = a.drop_first();
        pieces_are_encoded_one_by_one(t, rest, b);
        assert((a + b).drop_first() =~= rest + b);
        assert((a + b)[0] == a[0]);
        if let Ok(first) = crate::tokenizer::piece_ids(t, a[0]) {
            if let Ok(x) = crate::tokenizer::pieces_ids(t, rest) {
                if let Ok(y) = crate::tokenizer::pieces_ids(t, b) {
                    assert(first + (x + y) =~= (first + x) + y);
                }
            }
        }
    }
}

/// A piece is merged from its letters, and a text by itself from its pieces.
pub proof fn single_pieces(t: TokenizerView, piece: Seq<char>, parts: Seq<u32>)
    requires
        crate::tokenizer::letters(t, crate::tokenizer::mapped(piece)) == Ok::<
            Seq<u32>,
            TokenizerErrorView,
        >(parts),
    ensures
        crate::tokenizer::pieces_ids(t, seq![piece]) == crate::tokenizer::bpe(t, parts),
{
    let one = seq![piece];
    assert(one.drop_first() =~= Seq::empty());
    assert(crate::tokenizer::pieces_ids(t, one.drop_first()) == Ok::<
        Seq<u32>,
        TokenizerErrorView,
    >(Seq::empty()));
    if let Ok(x) = crate::tokenizer::bpe(t, parts) {
        assert(x + Seq::<u32>::empty() =~= x);
    }
}

// ── decoding ──

/// Tokens decode one by one: an ordinary token gives the bytes that it spells, a special
/// one none, and the bytes of several stand one after the other.
pub proof fn tokens_decode_one_by_one(t: TokenizerView, id: u32, rest: Seq<u32>, text: Seq<char>)
    requires
        id < t.vocab.len(),
    ensures
        looks_special(t.vocab[id as int]) ==> crate::tokenizer::ids_bytes(t, seq![id] + rest)
            == crate::tokenizer::ids_bytes(t, rest),
        !looks_special(t.vocab[id as int]) && t.vocab[id as int] == crate::tokenizer::mapped(text)
            ==> (crate::tokenizer::ids_bytes(t, rest) matches Ok(b) ==> crate::tokenizer::ids_bytes(
            t,
            seq![id] + rest,
        ) == Ok::<Seq<u8>, TokenizerErrorView>(vstd::utf8::encode_utf8(text) + b)),
{
    special_looks(t.vocab[id as int]);
    let all = seq![id] + rest;
    assert(all.drop_first() =~= rest);
    if let Ok(b) = crate::tokenizer::ids_bytes(t, rest) {
        assert(Seq::<u8>::empty() + b =~= b);
    }
    crate::tokenizer_laws::mapped_bytes(
        vstd::utf8::encode_utf8(text),
        crate::tokenizer::mapped(text),
    );
}

/// Ids that are no tokens do not decode.
pub proof fn unknown_ids_do_not_decode(t: TokenizerView, ids: Seq<u32>, k: int)
    requires
        0 <= k < ids.len(),
        ids[k] >= t.vocab.len(),
    ensures
        crate::tokenizer::ids_bytes(t, ids) is Err,
        crate::tokenizer::decoded(t, ids) is Err,
    decreases ids.len(),
{
    if k > 0 {
        let rest = ids.drop_first();
        assert(rest[k - 1] == ids[k]);
        unknown_ids_do_not_decode(t, rest, k - 1);
    }
}

/// A token is special exactly where it opens with `<|` and closes with `|>`.
pub proof fn special_tokens_stand_in_marks(s: Seq<char>, t: Seq<char>)
    ensures
        crate::tokenizer::is_special("<|"@ + s + "|>"@),
        crate::tokenizer::is_special(t) ==> t.take(2) == "<|"@ && t.skip(t.len() - 2) == "|>"@,
{
    reveal_strlit("<|");
    reveal_strlit("|>");
    let u = "<|"@ + s + "|>"@;
    assert(u[0] == '<' && u[1] == '|' && u[u.len() - 2] == '|' && u[u.len() - 1] == '>');
    if crate::tokenizer::is_special(t) {
        assert(t.take(2) =~= "<|"@);
        assert(t.skip(t.len() - 2) =~= "|>"@);
    }
}

/// The ranks come from the list of merges, each of which is a pair around a space; the
/// types of the tokens must be there too, and the splitting into pieces must be one that
/// is known.
pub proof fn tokenizers_need_their_tables(f: GgufFileView, t: TokenizerView, kind: Seq<char>)
    requires
        crate::tokenizer::tokenizer_of(f) == Ok::<TokenizerView, TokenizerErrorView>(t),
    ensures
        exists|items: Seq<GgufValueView>, merges: Seq<Seq<char>>|
            {
                &&& #[trigger] crate::model_laws::stands_under(
                    f,
                    "tokenizer.ggml.merges"@,
                    GgufValueView::Array(items),
                )
                &&& items.len() == merges.len()
                &&& forall|i: int|
                    0 <= i < items.len() ==> #[trigger] items[i] == GgufValueView::String(merges[i])
                &&& forall|i: int| 0 <= i < merges.len() ==> (#[trigger] merges[i]).contains(' ')
                &&& t.ranks == #[trigger] crate::tokenizer::ranks_of(
                    merges,
                    crate::tokenizer::ids_of(t.vocab),
                )
            },
        !crate::model_laws::missing(f, "tokenizer.ggml.token_type"@),
        crate::model_laws::stands_under(f, "tokenizer.ggml.pre"@, GgufValueView::String(kind))
            ==> kind == "qwen2"@ || kind == "gpt2"@ || kind == "llama3"@ || kind == "default"@,
{
    let items = crate::gguf::lookup(f.metadata, "tokenizer.ggml.merges"@)->Some_0->Array_0;
    let merges = crate::tokenizer::strings_at(f, "tokenizer.ggml.merges"@)->Ok_0;
    standing_is_found(f, "tokenizer.ggml.merges"@, GgufValueView::Array(items));
    standing_is_found(f, "tokenizer.ggml.pre"@, GgufValueView::String(kind));
    crate::model_laws::entries_are_found_by_key(f.metadata, "tokenizer.ggml.token_type"@);
    assert forall|i: int| 0 <= i < items.len() implies #[trigger] items[i]
        == GgufValueView::String(merges[i]) by {
        assert(items[i] is String);
    }
    assert forall|i: int| 0 <= i < merges.len() implies (#[trigger] merges[i]).contains(' ') by {
        none_malformed(merges, i);
    }
    assert(items.len() == merges.len());
    assert(t.ranks == crate::tokenizer::ranks_of(merges, crate::tokenizer::ids_of(t.vocab)));
    assert(crate::model_laws::stands_under(
        f,
        "tokenizer.ggml.merges"@,
        GgufValueView::Array(items),
    ));
}

proof fn none_malformed(merges: Seq<Seq<char>>, i: int)
    requires
        crate::tokenizer::first_malformed(merges) is None,
        0 <= i < merges.len(),
    ensures
        merges[i].contains(' '),
    decreases i,
{
    if i == 0 {
        crate::text::splits_join(merges[0], ' ');
    } else {
        none_malformed(merges.drop_first(), i - 1);
        assert(merges.drop_first()[i - 1] == merges[i]);
    }
}

/// A character past those that stand for bytes stands for its own encoding.
pub proof fn other_characters_stand_for_themselves(c: char)
    requires
        (c as u32) >= 324,
    ensures
        crate::tokenizer::char_bytes(c) == vstd::utf8::encode_utf8(seq![c]),
{
}

} // verus!
