//! Byte-level BPE tokenizer, read from the metadata of a GGUF file.

use std::collections::HashMap;

use vstd::hash_map::StringHashMap;
use vstd::prelude::*;
use vstd::utf8::*;

use crate::gguf::{GgufFile, GgufFileView};
use crate::pre::{byte_of, bytes_to_unicode, error_text, PreError, PreTokenizer};
use crate::text::{chars_of, push_decimal, split_once_char, stands_at, string_from_utf8, string_of};
use crate::value::{GgufError, GgufErrorView, GgufValue, GgufValueView, MAX_ARRAY};

verus! {

broadcast use {vstd::std_specs::hash::group_hash_axioms, vstd::string::group_string_axioms};

// ── errors ──

/// What can go wrong while loading or using a tokenizer.
#[derive(Debug)]
pub enum TokenizerError {
    Gguf(GgufError),
    MissingKv(String),
    BadKvType(String),
    UnknownToken(String),
    UnknownPre(String),
    Pre(PreError),
}

/// Mathematical view of [`TokenizerError`].
pub enum TokenizerErrorView {
    Gguf(GgufErrorView),
    MissingKv(Seq<char>),
    BadKvType(Seq<char>),
    UnknownToken(Seq<char>),
    UnknownPre(Seq<char>),
    Regex,
    UnknownKind(Seq<char>),
}

impl View for TokenizerError {
    type V = TokenizerErrorView;

    open spec fn view(&self) -> TokenizerErrorView {
        match self {
            TokenizerError::Gguf(e) => TokenizerErrorView::Gguf(e@),
            TokenizerError::MissingKv(s) => TokenizerErrorView::MissingKv(s@),
            TokenizerError::BadKvType(s) => TokenizerErrorView::BadKvType(s@),
            TokenizerError::UnknownToken(s) => TokenizerErrorView::UnknownToken(s@),
            TokenizerError::UnknownPre(s) => TokenizerErrorView::UnknownPre(s@),
            TokenizerError::Pre(PreError::Regex(_)) => TokenizerErrorView::Regex,
            TokenizerError::Pre(PreError::UnknownKind(s)) => TokenizerErrorView::UnknownKind(s@),
        }
    }
}

impl TokenizerErrorView {
    /// `m` is the text shown to the user. The wording of the regular expression
    /// engine is its own.
    pub open spec fn says(self, m: Seq<char>) -> bool {
        match self {
            TokenizerErrorView::Gguf(e) => m == "GGUF: "@ + e.text(),
            TokenizerErrorView::MissingKv(s) => m == "KV mancante nel GGUF: "@ + s,
            TokenizerErrorView::BadKvType(s) => m == "tipo KV inatteso per "@ + s,
            TokenizerErrorView::UnknownToken(s) => m == "token non trovato nel vocabolario: "@
                + debug_text(s),
            TokenizerErrorView::UnknownPre(s) => m == "pre-tokenizer sconosciuto: "@ + s,
            TokenizerErrorView::Regex => exists|t: Seq<char>|
                m == #[trigger] ("pre-tokenizzazione: regex: "@ + t),
            TokenizerErrorView::UnknownKind(s) => m
                == "pre-tokenizzazione: famiglia pre-tokenizer sconosciuta: "@ + s,
        }
    }
}

/// Outcome of an operation of the tokenizer.
pub type Outcome<T> = Result<T, TokenizerErrorView>;

// ── quoting ──

/// The text of a string as `{:?}` formats it.
pub uninterp spec fn debug_text(s: Seq<char>) -> Seq<char>;

/// `format!` with `{:?}` quotes a string and escapes what cannot be printed. The
/// result depends on the string alone; its escapes are left open.
#[verifier::external_body]
pub(crate) fn quoted(s: &str) -> (r: String)
    ensures
        r@ == debug_text(s@),
{
    format!("{s:?}")
}

/// The complaint about a merge that is not a pair, given the quoted merge.
pub fn malformed_merge(quote: &str) -> (r: String)
    ensures
        r@ == "merge malformato: "@ + quote@,
{
    let mut out = "merge malformato: ".to_owned();
    out.push_str(quote);
    out
}

fn behind(label: &str, text: &str) -> (r: String)
    ensures
        r@ == label@ + text@,
{
    let mut out = label.to_owned();
    out.push_str(text);
    out
}

impl TokenizerError {
    /// The text shown to the user.
    pub fn message(&self) -> (r: String)
        ensures
            self@.says(r@),
    {
        match self {
            TokenizerError::Gguf(e) => behind("GGUF: ", e.message().as_str()),
            TokenizerError::MissingKv(s) => behind("KV mancante nel GGUF: ", s.as_str()),
            TokenizerError::BadKvType(s) => behind("tipo KV inatteso per ", s.as_str()),
            TokenizerError::UnknownToken(s) => behind(
                "token non trovato nel vocabolario: ",
                quoted(s.as_str()).as_str(),
            ),
            TokenizerError::UnknownPre(s) => behind("pre-tokenizer sconosciuto: ", s.as_str()),
            TokenizerError::Pre(PreError::Regex(e)) => behind(
                "pre-tokenizzazione: regex: ",
                error_text(e).as_str(),
            ),
            TokenizerError::Pre(PreError::UnknownKind(s)) => behind(
                "pre-tokenizzazione: famiglia pre-tokenizer sconosciuta: ",
                s.as_str(),
            ),
        }
    }
}

// ── model ──

/// A special token: `<|...|>`.
pub open spec fn is_special(tok: Seq<char>) -> bool {
    let n = tok.len();
    n >= 2 && tok[0] == '<' && tok[1] == '|' && tok[n - 2] == '|' && tok[n - 1] == '>'
}

/// The id of every token of a vocabulary; the last of equal tokens counts.
pub open spec fn ids_of(vocab: Seq<Seq<char>>) -> Map<Seq<char>, u32>
    decreases vocab.len(),
{
    if vocab.len() == 0 {
        Map::empty()
    } else {
        ids_of(vocab.drop_last()).insert(vocab.last(), (vocab.len() - 1) as u32)
    }
}

/// Key of a pair of ids.
pub open spec fn pair_key(a: u32, b: u32) -> u64 {
    (a * 0x1_0000_0000 + b) as u64
}

/// The rank of every merge, by the ids of its two sides. A merge with a side that
/// is no token is left out; the last of equal merges counts.
pub open spec fn ranks_of(merges: Seq<Seq<char>>, ids: Map<Seq<char>, u32>) -> Map<u64, u32>
    decreases merges.len(),
{
    if merges.len() == 0 {
        Map::empty()
    } else {
        let before = ranks_of(merges.drop_last(), ids);
        match crate::text::split_once(merges.last(), ' ') {
            Some((a, b)) if ids.contains_key(a) && ids.contains_key(b) => before.insert(
                pair_key(ids[a], ids[b]),
                (merges.len() - 1) as u32,
            ),
            _ => before,
        }
    }
}

/// The first merge that is not a pair.
pub open spec fn first_malformed(merges: Seq<Seq<char>>) -> Option<Seq<char>>
    decreases merges.len(),
{
    if merges.len() == 0 {
        None
    } else if crate::text::split_once(merges[0], ' ') is None {
        Some(merges[0])
    } else {
        first_malformed(merges.drop_first())
    }
}

/// Mathematical view of [`Tokenizer`].
pub struct TokenizerView {
    /// Tokens by id.
    pub vocab: Seq<Seq<char>>,
    /// Ranks of the merges: lower ones come first.
    pub ranks: Map<u64, u32>,
    pub bos_id: Option<u32>,
    pub eos_id: Option<u32>,
    pub add_bos: bool,
}

// ── loading ──

/// The strings of an array of the metadata.
pub open spec fn strings_at(f: GgufFileView, key: Seq<char>) -> Outcome<Seq<Seq<char>>> {
    match crate::gguf::lookup(f.metadata, key) {
        None => Err(TokenizerErrorView::MissingKv(key)),
        Some(GgufValueView::Array(items)) => if forall|i: int|
            0 <= i < items.len() ==> (#[trigger] items[i]) is String {
            Ok(Seq::new(items.len(), |i: int| items[i]->String_0))
        } else {
            Err(TokenizerErrorView::BadKvType(key))
        },
        Some(_) => Err(TokenizerErrorView::BadKvType(key)),
    }
}

/// A token id of the metadata: the lowest 32 bits of an integer.
pub open spec fn id_at(f: GgufFileView, key: Seq<char>) -> Option<u32> {
    match crate::gguf::lookup(f.metadata, key) {
        Some(v) => match v.integer() {
            Some(n) => Some((n % 0x1_0000_0000) as u32),
            None => None,
        },
        None => None,
    }
}

/// The kind of pre-tokenizer, `qwen2` unless the metadata names one.
pub open spec fn pre_kind(f: GgufFileView) -> Seq<char> {
    match crate::gguf::lookup(f.metadata, "tokenizer.ggml.pre"@) {
        Some(GgufValueView::String(s)) => s,
        _ => "qwen2"@,
    }
}

/// The tokenizer of a model.
pub open spec fn tokenizer_of(f: GgufFileView) -> Outcome<TokenizerView> {
    match strings_at(f, "tokenizer.ggml.tokens"@) {
        Err(e) => Err(e),
        Ok(vocab) => match strings_at(f, "tokenizer.ggml.merges"@) {
            Err(e) => Err(e),
            Ok(merges) => if crate::gguf::lookup(f.metadata, "tokenizer.ggml.token_type"@) is None {
                Err(TokenizerErrorView::MissingKv("tokenizer.ggml.token_type"@))
            } else if first_malformed(merges) is Some {
                Err(
                    TokenizerErrorView::BadKvType(
                        "merge malformato: "@ + debug_text(first_malformed(merges)->Some_0),
                    ),
                )
            } else if !crate::pre::known_kind(pre_kind(f)) {
                Err(TokenizerErrorView::UnknownPre(pre_kind(f)))
            } else if !crate::pre::regex_compiles(crate::pre::pattern()) {
                Err(TokenizerErrorView::Regex)
            } else {
                Ok(
                    TokenizerView {
                        vocab,
                        ranks: ranks_of(merges, ids_of(vocab)),
                        bos_id: id_at(f, "tokenizer.ggml.bos_token_id"@),
                        eos_id: id_at(f, "tokenizer.ggml.eos_token_id"@),
                        add_bos: crate::gguf::lookup(f.metadata, "tokenizer.ggml.add_bos_token"@)
                            == Some(GgufValueView::Bool(true)),
                    },
                )
            },
        },
    }
}

/// A tokenizer loaded from a GGUF file.
pub struct Tokenizer {
    vocab: Vec<String>,
    ids: StringHashMap<u32>,
    merge_ranks: HashMap<u64, u32>,
    pre: PreTokenizer,
    byte_encoder: Vec<char>,
    specials: Vec<String>,
    bos_id: Option<u32>,
    eos_id: Option<u32>,
    add_bos: bool,
}

impl View for Tokenizer {
    type V = TokenizerView;

    closed spec fn view(&self) -> TokenizerView {
        TokenizerView {
            vocab: crate::pre::texts(self.vocab@),
            ranks: self.merge_ranks@,
            bos_id: self.bos_id,
            eos_id: self.eos_id,
            add_bos: self.add_bos,
        }
    }
}

/// The special tokens of a vocabulary, in order.
pub open spec fn specials_of(vocab: Seq<Seq<char>>) -> Seq<Seq<char>>
    decreases vocab.len(),
{
    if vocab.len() == 0 {
        Seq::empty()
    } else {
        let before = specials_of(vocab.drop_last());
        if is_special(vocab.last()) {
            before.push(vocab.last())
        } else {
            before
        }
    }
}

impl Tokenizer {
    /// The tables agree with the vocabulary.
    pub closed spec fn wf(&self) -> bool {
        &&& self.vocab@.len() <= MAX_ARRAY
        &&& self.ids@ == ids_of(self@.vocab)
        &&& self.pre.wf()
        &&& self.byte_encoder@.len() == 256
        &&& forall|b: u8| self.byte_encoder@[b as int] == #[trigger] crate::pre::byte_char(b)
        &&& crate::pre::texts(self.specials@) == specials_of(self@.vocab)
    }

    /// The vocabulary came out of an array, so it is no longer than an array can be.
    pub proof fn vocabulary_is_bounded(&self)
        requires
            self.wf(),
        ensures
            self@.vocab.len() <= MAX_ARRAY,
    {
    }
}

/// Every id of the table is that of its token.
proof fn ids_are_consistent(vocab: Seq<Seq<char>>)
    requires
        vocab.len() <= MAX_ARRAY,
    ensures
        forall|t: Seq<char>|
            ids_of(vocab).contains_key(t) ==> {
                &&& (#[trigger] ids_of(vocab)[t]) < vocab.len()
                &&& vocab[ids_of(vocab)[t] as int] == t
            },
    decreases vocab.len(),
{
    if vocab.len() > 0 {
        let init = vocab.drop_last();
        ids_are_consistent(init);
        let m = ids_of(vocab);
        assert forall|t: Seq<char>| m.contains_key(t) implies (#[trigger] m[t]) < vocab.len()
            && vocab[m[t] as int] == t by {
            if t != vocab.last() {
                assert(ids_of(init).contains_key(t));
                assert(m[t] == ids_of(init)[t]);
            }
        }
    }
}

/// Every token of the vocabulary has an id.
pub proof fn tokens_have_ids(vocab: Seq<Seq<char>>, i: int)
    requires
        0 <= i < vocab.len(),
    ensures
        ids_of(vocab).contains_key(vocab[i]),
    decreases vocab.len(),
{
    if i < vocab.len() - 1 {
        tokens_have_ids(vocab.drop_last(), i);
    }
}

/// Ids stand for the tokens they were looked up by.
pub proof fn ids_stand_for_tokens(vocab: Seq<Seq<char>>, t: Seq<char>)
    requires
        vocab.len() <= MAX_ARRAY,
        ids_of(vocab).contains_key(t),
    ensures
        ids_of(vocab)[t] < vocab.len(),
        vocab[ids_of(vocab)[t] as int] == t,
{
    ids_are_consistent(vocab);
}

fn strings(gguf: &GgufFile, key: &str) -> (r: Result<Vec<String>, TokenizerError>)
    requires
        crate::gguf::bounded(gguf@.metadata),
    ensures
        match strings_at(gguf@, key@) {
            Ok(v) => r matches Ok(x) && crate::pre::texts(x@) == v && x@.len() <= MAX_ARRAY,
            Err(e) => r matches Err(x) && x@ == e,
        },
{
    match gguf.get(key) {
        None => Err(TokenizerError::MissingKv(key.to_owned())),
        Some(GgufValue::Array(items)) => {
            let ghost views = crate::value::views(items@);
            proof {
                crate::value::array_view(*items);
                lookup_is_bounded(gguf@.metadata, key@);
            }
            let mut out: Vec<String> = Vec::new();
            let mut i: usize = 0;
            while i < items.len()
                invariant
                    i <= items@.len(),
                    views == crate::value::views(items@),
                    out@.len() == i,
                    crate::gguf::lookup(gguf@.metadata, key@) == Some(GgufValueView::Array(views)),
                    forall|k: int|
                        0 <= k < i ==> (#[trigger] views[k]) is String && views[k]->String_0
                            == out@[k]@,
                decreases items@.len() - i,
            {
                match &items[i] {
                    GgufValue::String(s) => {
                        assert(views[i as int] == GgufValueView::String(s@));
                        out.push(s.clone());
                    },
                    _ => {
                        assert(!(views[i as int] is String));
                        return Err(TokenizerError::BadKvType(key.to_owned()));
                    },
                }
                i += 1;
            }
            assert(crate::pre::texts(out@) =~= strings_at(gguf@, key@)->Ok_0);
            Ok(out)
        },
        Some(_) => Err(TokenizerError::BadKvType(key.to_owned())),
    }
}

/// An array found in the metadata of a file is not longer than an array can be.
pub proof fn lookup_is_bounded(pairs: Seq<crate::gguf::Pair>, key: Seq<char>)
    requires
        crate::gguf::bounded(pairs),
    ensures
        crate::gguf::lookup(pairs, key) matches Some(GgufValueView::Array(v)) ==> v.len()
            <= MAX_ARRAY,
    decreases pairs.len(),
{
    if pairs.len() > 0 {
        assert(pairs[0] == pairs[0]);
        let rest = pairs.drop_first();
        assert forall|i: int| 0 <= i < rest.len() implies ((#[trigger] rest[i]).1 matches GgufValueView::Array(
            v,
        ) ==> v.len() <= crate::value::MAX_ARRAY) by {
            assert(rest[i] == pairs[i + 1]);
        }
        lookup_is_bounded(rest, key);
    }
}

fn id_in(gguf: &GgufFile, key: &str) -> (r: Option<u32>)
    ensures
        r == id_at(gguf@, key@),
{
    match gguf.get(key) {
        None => None,
        Some(v) => match v.as_u64() {
            None => None,
            Some(n) => {
                assert(n as u32 == n % 0x1_0000_0000) by (bit_vector);
                Some(n as u32)
            },
        },
    }
}

fn special(tok: &[char]) -> (r: bool)
    ensures
        r == is_special(tok@),
{
    let n = tok.len();
    n >= 2 && tok[0] == '<' && tok[1] == '|' && tok[n - 2] == '|' && tok[n - 1] == '>'
}

/// The tables of a vocabulary: ids and special tokens.
fn index(vocab: &Vec<String>) -> (r: (StringHashMap<u32>, Vec<String>))
    requires
        vocab@.len() <= MAX_ARRAY,
    ensures
        r.0@ == ids_of(crate::pre::texts(vocab@)),
        crate::pre::texts(r.1@) == specials_of(crate::pre::texts(vocab@)),
{
    let ghost all = crate::pre::texts(vocab@);
    let mut ids: StringHashMap<u32> = StringHashMap::new();
    let mut specials: Vec<String> = Vec::new();
    let mut i: usize = 0;
    assert(all.take(0) =~= Seq::empty());
    assert(crate::pre::texts(specials@) =~= Seq::empty());
    while i < vocab.len()
        invariant
            i <= vocab@.len() <= MAX_ARRAY,
            all == crate::pre::texts(vocab@),
            ids@ == ids_of(all.take(i as int)),
            crate::pre::texts(specials@) == specials_of(all.take(i as int)),
        decreases vocab@.len() - i,
    {
        let tok = &vocab[i];
        proof {
            assert(all.take(i + 1).drop_last() =~= all.take(i as int));
            assert(all.take(i + 1).last() == tok@);
        }
        ids.insert(tok.clone(), i as u32);
        let chars = chars_of(tok.as_str());
        if special(chars.as_slice()) {
            let ghost before = crate::pre::texts(specials@);
            specials.push(tok.clone());
            assert(crate::pre::texts(specials@) =~= before.push(tok@));
        }
        i += 1;
    }
    assert(all.take(i as int) =~= all);
    (ids, specials)
}

/// The ranks of the merges.
fn rank(merges: &Vec<String>, ids: &StringHashMap<u32>) -> (r: Result<
    HashMap<u64, u32>,
    TokenizerError,
>)
    requires
        merges@.len() <= MAX_ARRAY,
    ensures
        match first_malformed(crate::pre::texts(merges@)) {
            Some(m) => r matches Err(e) && e@ == TokenizerErrorView::BadKvType(
                "merge malformato: "@ + debug_text(m),
            ),
            None => r matches Ok(x) && x@ == ranks_of(crate::pre::texts(merges@), ids@),
        },
{
    let ghost all = crate::pre::texts(merges@);
    let mut ranks: HashMap<u64, u32> = HashMap::new();
    let mut i: usize = 0;
    assert(all.take(0) =~= Seq::empty());
    assert(all.skip(0) =~= all);
    while i < merges.len()
        invariant
            i <= merges@.len() <= MAX_ARRAY,
            all == crate::pre::texts(merges@),
            ranks@ == ranks_of(all.take(i as int), ids@),
            first_malformed(all) == first_malformed(all.skip(i as int)),
        decreases merges@.len() - i,
    {
        let m = &merges[i];
        proof {
            assert(all.take(i + 1).drop_last() =~= all.take(i as int));
            assert(all.take(i + 1).last() == m@);
            assert(all.skip(i as int)[0] == m@);
            assert(all.skip(i as int).drop_first() =~= all.skip(i + 1));
        }
        match split_once_char(m.as_str(), ' ') {
            None => {
                let quote = quoted(m.as_str());
                return Err(TokenizerError::BadKvType(malformed_merge(quote.as_str())));
            },
            Some((a, b)) => {
                match (ids.get(a.as_str()), ids.get(b.as_str())) {
                    (Some(ia), Some(ib)) => {
                        ranks.insert(*ia as u64 * 0x1_0000_0000 + *ib as u64, i as u32);
                    },
                    _ => {},
                }
            },
        }
        i += 1;
    }
    assert(all.take(i as int) =~= all);
    Ok(ranks)
}

impl Tokenizer {
    /// Loads the tokenizer from the bytes of a GGUF file.
    pub fn from_gguf(buf: &[u8]) -> (r: Result<Self, TokenizerError>)
        ensures
            match crate::gguf::file_at(buf@) {
                Err(e) => r matches Err(x) && x@ == TokenizerErrorView::Gguf(e),
                Ok(f) => match tokenizer_of(f) {
                    Ok(t) => r matches Ok(x) && x@ == t && x.wf(),
                    Err(e) => r matches Err(x) && x@ == e,
                },
            },
    {
        match GgufFile::open(buf) {
            Err(e) => Err(TokenizerError::Gguf(e)),
            Ok(gguf) => {
                proof {
                    crate::gguf::arrays_are_bounded(buf@);
                }
                Tokenizer::load(&gguf)
            },
        }
    }

    /// Loads the tokenizer from an open GGUF file.
    pub fn load(gguf: &GgufFile) -> (r: Result<Self, TokenizerError>)
        requires
            crate::gguf::bounded(gguf@.metadata),
        ensures
            match tokenizer_of(gguf@) {
                Ok(t) => r matches Ok(x) && x@ == t && x.wf(),
                Err(e) => r matches Err(x) && x@ == e,
            },
    {
        let vocab = strings(gguf, "tokenizer.ggml.tokens")?;
        let merges = strings(gguf, "tokenizer.ggml.merges")?;
        if gguf.get("tokenizer.ggml.token_type").is_none() {
            return Err(TokenizerError::MissingKv("tokenizer.ggml.token_type".to_owned()));
        }
        let (ids, specials) = index(&vocab);
        let merge_ranks = rank(&merges, &ids)?;
        let bos_id = id_in(gguf, "tokenizer.ggml.bos_token_id");
        let eos_id = id_in(gguf, "tokenizer.ggml.eos_token_id");
        let add_bos = match gguf.get("tokenizer.ggml.add_bos_token") {
            Some(GgufValue::Bool(b)) => *b,
            _ => false,
        };
        let kind = match gguf.get("tokenizer.ggml.pre") {
            Some(v) => match v.as_str() {
                Some(s) => s,
                None => "qwen2",
            },
            None => "qwen2",
        };
        let pre = PreTokenizer::for_kind(kind)?;
        let byte_encoder = bytes_to_unicode();
        Ok(
            Tokenizer {
                vocab,
                ids,
                merge_ranks,
                pre,
                byte_encoder,
                specials,
                bos_id,
                eos_id,
                add_bos,
            },
        )
    }

    /// Number of tokens of the vocabulary.
    pub fn vocab_size(&self) -> (r: usize)
        ensures
            r == self@.vocab.len(),
    {
        self.vocab.len()
    }

    /// Id of the beginning-of-sequence token.
    pub fn bos_id(&self) -> (r: Option<u32>)
        ensures
            r == self@.bos_id,
    {
        self.bos_id
    }

    /// Id of the end-of-sequence token.
    pub fn eos_id(&self) -> (r: Option<u32>)
        ensures
            r == self@.eos_id,
    {
        self.eos_id
    }

    /// Id of an exact token, such as `<|im_end|>`.
    pub fn token_to_id(&self, tok: &str) -> (r: Option<u32>)
        requires
            self.wf(),
        ensures
            match r {
                Some(id) => ids_of(self@.vocab).contains_key(tok@) && id == ids_of(
                    self@.vocab,
                )[tok@],
                None => !ids_of(self@.vocab).contains_key(tok@),
            },
    {
        match self.ids.get(tok) {
            Some(id) => Some(*id),
            None => None,
        }
    }

    /// The special tokens of the vocabulary, in order.
    pub fn specials(&self) -> (r: &Vec<String>)
        requires
            self.wf(),
        ensures
            crate::pre::texts(r@) == specials_of(self@.vocab),
    {
        &self.specials
    }
}

// ── encoding ──

/// The bytes of a text, each as the character that stands for it.
pub open spec fn mapped(text: Seq<char>) -> Seq<char> {
    let b = encode_utf8(text);
    Seq::new(b.len(), |i: int| crate::pre::byte_char(b[i]))
}

/// The ids of single characters; all of them must be tokens.
pub open spec fn letters(t: TokenizerView, chars: Seq<char>) -> Outcome<Seq<u32>>
    decreases chars.len(),
{
    if chars.len() == 0 {
        Ok(Seq::empty())
    } else if !ids_of(t.vocab).contains_key(seq![chars[0]]) {
        Err(TokenizerErrorView::UnknownToken(seq![chars[0]]))
    } else {
        match letters(t, chars.drop_first()) {
            Err(e) => Err(e),
            Ok(rest) => Ok(seq![ids_of(t.vocab)[seq![chars[0]]]] + rest),
        }
    }
}

/// The rank of the merge of part `i` with the next one.
pub open spec fn rank_at(t: TokenizerView, parts: Seq<u32>, i: int) -> Option<u32> {
    let key = pair_key(parts[i], parts[i + 1]);
    if t.ranks.contains_key(key) {
        Some(t.ranks[key])
    } else {
        None
    }
}

/// The merge of part `i` with the next one is the one to make: none has a lower
/// rank, and none further left has the same.
pub open spec fn is_best(t: TokenizerView, parts: Seq<u32>, i: int) -> bool {
    &&& 0 <= i < parts.len() - 1
    &&& rank_at(t, parts, i) matches Some(r) && forall|j: int|
        0 <= j < parts.len() - 1 ==> (#[trigger] rank_at(t, parts, j) matches Some(q) ==> (r < q || r
            == q && i <= j))
}

/// The parts with part `i` and the next one replaced by `id`.
pub open spec fn joined(parts: Seq<u32>, i: int, id: u32) -> Seq<u32> {
    parts.take(i).push(id) + parts.skip(i + 2)
}

/// The text of part `i` and the next one.
pub open spec fn pair_text(t: TokenizerView, parts: Seq<u32>, i: int) -> Seq<char> {
    t.vocab[parts[i] as int] + t.vocab[parts[i + 1] as int]
}

/// Makes merges, the best one first, until none is left.
pub open spec fn bpe(t: TokenizerView, parts: Seq<u32>) -> Outcome<Seq<u32>>
    decreases parts.len(),
{
    if exists|i: int| #[trigger] is_best(t, parts, i) {
        let i = choose|i: int| #[trigger] is_best(t, parts, i);
        let text = pair_text(t, parts, i);
        if !ids_of(t.vocab).contains_key(text) {
            Err(TokenizerErrorView::UnknownToken(text))
        } else {
            bpe(t, joined(parts, i, ids_of(t.vocab)[text]))
        }
    } else {
        Ok(parts)
    }
}

/// The ids of one piece.
pub open spec fn piece_ids(t: TokenizerView, piece: Seq<char>) -> Outcome<Seq<u32>> {
    match letters(t, mapped(piece)) {
        Err(e) => Err(e),
        Ok(parts) => bpe(t, parts),
    }
}

/// The ids of pieces, one after the other.
pub open spec fn pieces_ids(t: TokenizerView, pieces: Seq<Seq<char>>) -> Outcome<Seq<u32>>
    decreases pieces.len(),
{
    if pieces.len() == 0 {
        Ok(Seq::empty())
    } else {
        match piece_ids(t, pieces[0]) {
            Err(e) => Err(e),
            Ok(first) => match pieces_ids(t, pieces.drop_first()) {
                Err(e) => Err(e),
                Ok(rest) => Ok(first + rest),
            },
        }
    }
}

/// The ids of a text without special tokens.
pub open spec fn plain_ids(t: TokenizerView, text: Seq<char>) -> Outcome<Seq<u32>> {
    if text.len() == 0 {
        Ok(Seq::empty())
    } else {
        pieces_ids(
            t,
            crate::pre::pieces(text, crate::pre::regex_spans(crate::pre::pattern(), text)),
        )
    }
}

/// A special token of the vocabulary stands at the start of the text.
pub open spec fn starts_with_special(t: TokenizerView, text: Seq<char>, s: Seq<char>) -> bool {
    t.vocab.contains(s) && is_special(s) && crate::text::occurs_at(text, s, 0)
}

/// The longest special token at the start of the text.
pub open spec fn is_longest(t: TokenizerView, text: Seq<char>, s: Seq<char>) -> bool {
    starts_with_special(t, text, s) && forall|o: Seq<char>| #[trigger]
        starts_with_special(t, text, o) ==> o.len() <= s.len()
}

/// The ids of `plain`, which holds no special token, followed by `text`. Special
/// tokens are recognized whole, from left to right, the longest one first.
pub open spec fn text_ids(t: TokenizerView, plain: Seq<char>, text: Seq<char>) -> Outcome<Seq<u32>>
    decreases text.len(),
{
    if text.len() == 0 {
        plain_ids(t, plain)
    } else if exists|s: Seq<char>| #[trigger] is_longest(t, text, s) {
        let s = choose|s: Seq<char>| #[trigger] is_longest(t, text, s);
        match plain_ids(t, plain) {
            Err(e) => Err(e),
            Ok(before) => match text_ids(t, Seq::empty(), text.skip(s.len() as int)) {
                Err(e) => Err(e),
                Ok(after) => Ok(before + seq![ids_of(t.vocab)[s]] + after),
            },
        }
    } else {
        text_ids(t, plain.push(text[0]), text.drop_first())
    }
}

/// The ids of a text, without a beginning-of-sequence token.
pub open spec fn encoded(t: TokenizerView, text: Seq<char>) -> Outcome<Seq<u32>> {
    text_ids(t, Seq::empty(), text)
}

/// The ids of a text, behind the beginning-of-sequence token if the model asks
/// for one.
pub open spec fn encoded_with_bos(t: TokenizerView, text: Seq<char>) -> Outcome<Seq<u32>> {
    match encoded(t, text) {
        Err(e) => Err(e),
        Ok(ids) => match t.bos_id {
            Some(b) if t.add_bos => Ok(seq![b] + ids),
            _ => Ok(ids),
        },
    }
}

/// Two best merges are the same.
pub proof fn best_is_unique(t: TokenizerView, parts: Seq<u32>, i: int, j: int)
    requires
        is_best(t, parts, i),
        is_best(t, parts, j),
    ensures
        i == j,
{
    assert(rank_at(t, parts, i) is Some && rank_at(t, parts, j) is Some);
}

/// Two longest special tokens are the same.
pub proof fn longest_is_unique(t: TokenizerView, text: Seq<char>, a: Seq<char>, b: Seq<char>)
    requires
        is_longest(t, text, a),
        is_longest(t, text, b),
    ensures
        a == b,
{
    assert(starts_with_special(t, text, a) && starts_with_special(t, text, b));
}

proof fn specials_listed(vocab: Seq<Seq<char>>, s: Seq<char>)
    ensures
        specials_of(vocab).contains(s) <==> vocab.contains(s) && is_special(s),
    decreases vocab.len(),
{
    if vocab.len() > 0 {
        let init = vocab.drop_last();
        let last = vocab.last();
        let before = specials_of(init);
        specials_listed(init, s);
        if init.contains(s) {
            let i = choose|i: int| 0 <= i < init.len() && init[i] == s;
            assert(vocab[i] == s);
        }
        if vocab.contains(s) {
            let i = choose|i: int| 0 <= i < vocab.len() && vocab[i] == s;
            if i < init.len() {
                assert(init[i] == s);
            }
        }
        if is_special(last) {
            let all = before.push(last);
            if before.contains(s) {
                let i = choose|i: int| 0 <= i < before.len() && before[i] == s;
                assert(all[i] == s);
            }
            if all.contains(s) {
                let i = choose|i: int| 0 <= i < all.len() && all[i] == s;
                if i < before.len() {
                    assert(before[i] == s);
                }
            }
            assert(all[all.len() - 1] == last);
            assert(vocab[vocab.len() - 1] == last);
        }
    } else {
        assert(!vocab.contains(s));
    }
}

impl Tokenizer {
    /// The longest special token that starts at position `i`, as an index into the
    /// list of special tokens.
    fn special_at(&self, chars: &[char], i: usize) -> (r: Option<usize>)
        requires
            self.wf(),
            i < chars@.len(),
        ensures
            match r {
                Some(k) => k < self.specials@.len() && is_longest(
                    self@,
                    chars@.skip(i as int),
                    self.specials@[k as int]@,
                ),
                None => forall|s: Seq<char>| !#[trigger]
                    is_longest(self@, chars@.skip(i as int), s),
            },
    {
        let ghost text = chars@.skip(i as int);
        let ghost listed = crate::pre::texts(self.specials@);
        if chars[i] != '<' {
            assert forall|s: Seq<char>| !#[trigger] is_longest(self@, text, s) by {
                if is_longest(self@, text, s) {
                    assert(text.subrange(0, s.len() as int)[0] == text[0]);
                }
            }
            return None;
        }
        let mut best: Option<usize> = None;
        let mut best_len: usize = 0;
        let mut k: usize = 0;
        while k < self.specials.len()
            invariant
                self.wf(),
                i < chars@.len(),
                text == chars@.skip(i as int),
                listed == crate::pre::texts(self.specials@),
                k <= self.specials@.len(),
                match best {
                    Some(b) => b < k && best_len == self.specials@[b as int]@.len()
                        && starts_with_special(self@, text, self.specials@[b as int]@),
                    None => best_len == 0,
                },
                forall|j: int|
                    0 <= j < k && starts_with_special(self@, text, #[trigger] listed[j])
                        ==> best is Some && listed[j].len() <= best_len,
            decreases self.specials@.len() - k,
        {
            let s = chars_of(self.specials[k].as_str());
            proof {
                specials_listed(self@.vocab, s@);
                assert(listed[k as int] == s@);
                assert(specials_of(self@.vocab).contains(s@));
                if i + s@.len() <= chars@.len() {
                    assert(text.subrange(0, s@.len() as int) =~= chars@.subrange(
                        i as int,
                        i + s@.len(),
                    ));
                }
            }
            if stands_at(chars, s.as_slice(), i) {
                if best.is_none() || s.len() > best_len {
                    best = Some(k);
                    best_len = s.len();
                }
            }
            k += 1;
        }
        proof {
            assert forall|o: Seq<char>| #[trigger] starts_with_special(self@, text, o) implies best
                is Some && o.len() <= best_len by {
                specials_listed(self@.vocab, o);
                let j = choose|j: int| 0 <= j < listed.len() && listed[j] == o;
                assert(listed[j] == o);
            }
        }
        best
    }

    /// Encodes a single piece.
    fn encode_piece(&self, piece: &str) -> (r: Result<Vec<u32>, TokenizerError>)
        requires
            self.wf(),
        ensures
            match piece_ids(self@, piece@) {
                Ok(ids) => r matches Ok(x) && x@ == ids,
                Err(e) => r matches Err(x) && x@ == e,
            },
    {
        let ghost t = self@;
        let ghost all = mapped(piece@);
        let ghost first = letters(t, all);
        let bytes = piece.as_bytes();
        let mut parts: Vec<u32> = Vec::new();
        let mut i: usize = 0;
        proof {
            ids_are_consistent(t.vocab);
            assert(all.skip(0) =~= all);
            if let Ok(rest) = first {
                assert(parts@ + rest =~= rest);
            }
        }
        while i < bytes.len()
            invariant
                self.wf(),
                t == self@,
                bytes@ == encode_utf8(piece@),
                all == mapped(piece@),
                first == letters(t, all),
                i <= bytes@.len(),
                first == (match letters(t, all.skip(i as int)) {
                    Ok(rest) => Ok(parts@ + rest),
                    Err(e) => Err(e),
                }),
                forall|k: int| 0 <= k < parts@.len() ==> (#[trigger] parts@[k]) < t.vocab.len(),
                forall|w: Seq<char>|
                    ids_of(t.vocab).contains_key(w) ==> (#[trigger] ids_of(t.vocab)[w])
                        < t.vocab.len(),
            decreases bytes@.len() - i,
        {
            let ghost rest = all.skip(i as int);
            let b: u8 = bytes[i];
            let c = self.byte_encoder[b as usize];
            assert(c == crate::pre::byte_char(b));
            assert(rest[0] == c);
            assert(rest.drop_first() =~= all.skip(i + 1));
            let mut s = String::new();
            s.push(c);
            assert(s@ =~= seq![c]);
            match self.ids.get(s.as_str()) {
                None => {
                    return Err(TokenizerError::UnknownToken(s));
                },
                Some(id) => {
                    let ghost before = parts@;
                    parts.push(*id);
                    proof {
                        if let Ok(more) = letters(t, all.skip(i + 1)) {
                            assert(before + (seq![*id] + more) =~= parts@ + more);
                        }
                    }
                },
            }
            i += 1;
        }
        assert(parts@ + Seq::<u32>::empty() =~= parts@);
        assert(piece_ids(t, piece@) == bpe(t, parts@));
        self.merge(parts)
    }

    /// Makes merges until none is left.
    fn merge(&self, start: Vec<u32>) -> (r: Result<Vec<u32>, TokenizerError>)
        requires
            self.wf(),
            forall|k: int| 0 <= k < start@.len() ==> (#[trigger] start@[k]) < self@.vocab.len(),
        ensures
            match bpe(self@, start@) {
                Ok(ids) => r matches Ok(x) && x@ == ids,
                Err(e) => r matches Err(x) && x@ == e,
            },
    {
        let ghost t = self@;
        let mut parts = start;
        proof {
            ids_are_consistent(t.vocab);
        }
        loop
            invariant
                self.wf(),
                t == self@,
                bpe(t, start@) == bpe(t, parts@),
                forall|k: int| 0 <= k < parts@.len() ==> (#[trigger] parts@[k]) < t.vocab.len(),
                forall|w: Seq<char>|
                    ids_of(t.vocab).contains_key(w) ==> (#[trigger] ids_of(t.vocab)[w])
                        < t.vocab.len(),
            decreases parts@.len(),
        {
            let i = match self.best(&parts) {
                None => {
                    return Ok(parts);
                },
                Some(i) => i,
            };
            proof {
                let c = choose|c: int| #[trigger] is_best(t, parts@, c);
                best_is_unique(t, parts@, i as int, c);
            }
            assert(parts@.len() == parts.len());
            let a = parts[i] as usize;
            let b = parts[i + 1] as usize;
            let mut text = String::new();
            text.push_str(self.vocab[a].as_str());
            text.push_str(self.vocab[b].as_str());
            assert(text@ =~= pair_text(t, parts@, i as int));
            match self.ids.get(text.as_str()) {
                None => {
                    return Err(TokenizerError::UnknownToken(text));
                },
                Some(id) => {
                    let ghost before = parts@;
                    parts.set(i, *id);
                    parts.remove(i + 1);
                    assert(parts@ =~= joined(before, i as int, *id));
                },
            }
        }
    }

    /// The best merge.
    fn best(&self, parts: &Vec<u32>) -> (r: Option<usize>)
        requires
            self.wf(),
        ensures
            match r {
                Some(i) => is_best(self@, parts@, i as int),
                None => forall|i: int| !#[trigger] is_best(self@, parts@, i),
            },
    {
        let ghost t = self@;
        let mut best: Option<(u32, usize)> = None;
        let mut i: usize = 0;
        let n = parts.len();
        while i < n && i + 1 < n
            invariant
                t == self@,
                t.ranks == self.merge_ranks@,
                n == parts@.len(),
                i == 0 || i < n,
                match best {
                    Some((r, k)) => k < i && rank_at(t, parts@, k as int) == Some(r) && forall|j: int|
                        0 <= j < i ==> (#[trigger] rank_at(t, parts@, j) matches Some(q) ==> (r < q
                            || r == q && k <= j)),
                    None => forall|j: int| 0 <= j < i ==> #[trigger] rank_at(t, parts@, j) is None,
                },
            decreases parts@.len() - i,
        {
            let key: u64 = parts[i] as u64 * 0x1_0000_0000 + parts[i + 1] as u64;
            if let Some(rank) = self.merge_ranks.get(&key) {
                assert(rank_at(t, parts@, i as int) == Some(*rank));
                let better = match best {
                    None => true,
                    Some((r, _)) => *rank < r,
                };
                if better {
                    best = Some((*rank, i));
                }
            } else {
                assert(rank_at(t, parts@, i as int) is None);
            }
            i += 1;
        }
        match best {
            Some((_, k)) => Some(k),
            None => None,
        }
    }

    /// Encodes a text without special tokens.
    fn encode_plain(&self, text: &str) -> (r: Result<Vec<u32>, TokenizerError>)
        requires
            self.wf(),
        ensures
            match plain_ids(self@, text@) {
                Ok(ids) => r matches Ok(x) && x@ == ids,
                Err(e) => r matches Err(x) && x@ == e,
            },
            crate::tokenizer_laws::cut_well(text@),
    {
        let mut ids: Vec<u32> = Vec::new();
        if text.is_empty() {
            assert(ids@ =~= Seq::empty());
            return Ok(ids);
        }
        let pieces = self.pre.split(text);
        let ghost all = crate::pre::texts(pieces@);
        let ghost whole = pieces_ids(self@, all);
        let mut i: usize = 0;
        proof {
            assert(all.skip(0) =~= all);
            if let Ok(rest) = whole {
                assert(ids@ + rest =~= rest);
            }
        }
        while i < pieces.len()
            invariant
                self.wf(),
                i <= pieces@.len(),
                all == crate::pre::texts(pieces@),
                whole == pieces_ids(self@, all),
                whole == (match pieces_ids(self@, all.skip(i as int)) {
                    Ok(rest) => Ok(ids@ + rest),
                    Err(e) => Err(e),
                }),
                plain_ids(self@, text@) == whole,
                crate::tokenizer_laws::cut_well(text@),
            decreases pieces@.len() - i,
        {
            assert(all.skip(i as int)[0] == pieces@[i as int]@);
            assert(all.skip(i as int).drop_first() =~= all.skip(i + 1));
            let more = self.encode_piece(pieces[i].as_str())?;
            let ghost before = ids@;
            ids.extend_from_slice(more.as_slice());
            proof {
                assert(ids@ =~= before + more@);
                if let Ok(rest) = pieces_ids(self@, all.skip(i + 1)) {
                    assert(before + (more@ + rest) =~= ids@ + rest);
                }
            }
            i += 1;
        }
        assert(ids@ + Seq::<u32>::empty() =~= ids@);
        Ok(ids)
    }

    /// Encodes a text, without a beginning-of-sequence token; special tokens are
    /// recognized whole. [`Self::encode_with_specials`] adds the token.
    pub fn encode(&self, text: &str) -> (r: Result<Vec<u32>, TokenizerError>)
        requires
            self.wf(),
        ensures
            match encoded(self@, text@) {
                Ok(ids) => r matches Ok(x) && x@ == ids,
                Err(e) => r matches Err(x) && x@ == e,
            },
            r is Ok ==> crate::tokenizer_laws::all_cut_well(self@, Seq::empty(), text@),
            crate::tokenizer_laws::plain_specials(self@) ==> (r matches Ok(x) ==> decoded(self@, x@)
                == Ok::<Seq<char>, TokenizerErrorView>(
                crate::tokenizer_laws::stripped(self@, text@),
            )),
    {
        let ghost t = self@;
        let ghost cut = crate::tokenizer_laws::all_cut_well(t, Seq::empty(), text@);
        let ghost whole = encoded(t, text@);
        let chars = chars_of(text);
        let mut ids: Vec<u32> = Vec::new();
        let mut start: usize = 0;
        let mut i: usize = 0;
        proof {
            assert(chars@.subrange(0, 0) =~= Seq::empty());
            assert(chars@.skip(0) =~= text@);
            if let Ok(rest) = whole {
                assert(ids@ + rest =~= rest);
            }
        }
        while i < chars.len()
            invariant
                self.wf(),
                t == self@,
                whole == encoded(t, text@),
                start <= i <= chars@.len(),
                whole == (match text_ids(
                    t,
                    chars@.subrange(start as int, i as int),
                    chars@.skip(i as int),
                ) {
                    Ok(rest) => Ok(ids@ + rest),
                    Err(e) => Err(e),
                }),
                cut == crate::tokenizer_laws::all_cut_well(t, Seq::empty(), text@),
                cut == crate::tokenizer_laws::all_cut_well(
                    t,
                    chars@.subrange(start as int, i as int),
                    chars@.skip(i as int),
                ),
            decreases chars@.len() - i,
        {
            let ghost rest = chars@.skip(i as int);
            let ghost plain = chars@.subrange(start as int, i as int);
            match self.special_at(chars.as_slice(), i) {
                Some(k) => {
                    let s = &self.specials[k];
                    proof {
                        let c = choose|c: Seq<char>| #[trigger] is_longest(t, rest, c);
                        longest_is_unique(t, rest, s@, c);
                    }
                    let segment = string_of(
                        vstd::slice::slice_subrange(chars.as_slice(), start, i),
                    );
                    let before_ids = self.encode_plain(segment.as_str())?;
                    let ghost before = ids@;
                    ids.extend_from_slice(before_ids.as_slice());
                    proof {
                        let n = choose|n: int| 0 <= n < t.vocab.len() && t.vocab[n] == s@;
                        tokens_have_ids(t.vocab, n);
                    }
                    match self.ids.get(s.as_str()) {
                        Some(id) => {
                            ids.push(*id);
                            let n = chars_of(s.as_str()).len();
                            i = i + n;
                            start = i;
                            proof {
                                assert(rest.skip(s@.len() as int) =~= chars@.skip(i as int));
                                assert(chars@.subrange(i as int, i as int) =~= Seq::empty());
                                if let Ok(after) = text_ids(
                                    t,
                                    Seq::empty(),
                                    chars@.skip(i as int),
                                ) {
                                    assert(before + (before_ids@ + seq![*id] + after) =~= ids@
                                        + after);
                                }
                            }
                        },
                        None => {
                            // every special token has an id
                            assert(false);
                            i += 1;
                        },
                    }
                },
                None => {
                    proof {
                        assert(rest.drop_first() =~= chars@.skip(i + 1));
                        assert(plain.push(rest[0]) =~= chars@.subrange(start as int, i + 1));
                    }
                    i += 1;
                },
            }
        }
        let segment = string_of(vstd::slice::slice_subrange(chars.as_slice(), start, i));
        let last = self.encode_plain(segment.as_str())?;
        let ghost before = ids@;
        ids.extend_from_slice(last.as_slice());
        assert(ids@ =~= before + last@);
        proof {
            if crate::tokenizer_laws::plain_specials(t) {
                crate::tokenizer_laws::merging_gives_no_special(t, text@);
                crate::tokenizer_laws::encoding_decodes(t, text@);
            }
        }
        Ok(ids)
    }

    /// Encodes a text behind the beginning-of-sequence token, if the model asks for
    /// one.
    pub fn encode_with_specials(&self, text: &str) -> (r: Result<Vec<u32>, TokenizerError>)
        requires
            self.wf(),
        ensures
            match encoded_with_bos(self@, text@) {
                Ok(ids) => r matches Ok(x) && x@ == ids,
                Err(e) => r matches Err(x) && x@ == e,
            },
    {
        let ids = self.encode(text)?;
        if self.add_bos {
            if let Some(b) = self.bos_id {
                let mut out: Vec<u32> = Vec::new();
                out.push(b);
                out.extend_from_slice(ids.as_slice());
                assert(out@ =~= seq![b] + ids@);
                return Ok(out);
            }
        }
        Ok(ids)
    }
}

// ── decoding ──

/// The bytes that a character of a token stands for; a character outside the
/// table stands for its own encoding.
pub open spec fn char_bytes(c: char) -> Seq<u8> {
    match crate::pre::char_byte(c) {
        Some(b) => seq![b],
        None => encode_utf8(seq![c]),
    }
}

/// The bytes of the characters of a token.
pub open spec fn chars_bytes(chars: Seq<char>) -> Seq<u8>
    decreases chars.len(),
{
    if chars.len() == 0 {
        Seq::empty()
    } else {
        chars_bytes(chars.drop_last()) + char_bytes(chars.last())
    }
}

/// The bytes of a token; a special token has none.
pub open spec fn token_bytes(tok: Seq<char>) -> Seq<u8> {
    if is_special(tok) {
        Seq::empty()
    } else {
        chars_bytes(tok)
    }
}

/// The bytes of a list of ids.
pub open spec fn ids_bytes(t: TokenizerView, ids: Seq<u32>) -> Outcome<Seq<u8>>
    decreases ids.len(),
{
    if ids.len() == 0 {
        Ok(Seq::empty())
    } else if ids[0] >= t.vocab.len() {
        Err(
            TokenizerErrorView::UnknownToken(
                "<id "@ + crate::text::decimal(ids[0] as nat) + ">"@,
            ),
        )
    } else {
        match ids_bytes(t, ids.drop_first()) {
            Err(e) => Err(e),
            Ok(rest) => Ok(token_bytes(t.vocab[ids[0] as int]) + rest),
        }
    }
}

/// The text of a list of ids.
pub open spec fn decoded(t: TokenizerView, ids: Seq<u32>) -> Outcome<Seq<char>> {
    match ids_bytes(t, ids) {
        Err(e) => Err(e),
        Ok(b) => if valid_utf8(b) {
            Ok(decode_utf8(b))
        } else {
            Err(TokenizerErrorView::UnknownToken("decode utf8"@))
        },
    }
}

fn push_token(out: &mut Vec<u8>, tok: &str)
    ensures
        final(out)@ == old(out)@ + token_bytes(tok@),
{
    let ghost start = out@;
    let chars = chars_of(tok);
    if special(chars.as_slice()) {
        assert(out@ =~= start + token_bytes(tok@));
        return;
    }
    let mut i: usize = 0;
    assert(chars@.take(0) =~= Seq::empty());
    assert(out@ =~= start + chars_bytes(chars@.take(0)));
    while i < chars.len()
        invariant
            i <= chars@.len(),
            out@ == start + chars_bytes(chars@.take(i as int)),
        decreases chars@.len() - i,
    {
        let c = chars[i];
        let ghost before = out@;
        match byte_of(c) {
            Some(b) => {
                out.push(b);
            },
            None => {
                let mut s = String::new();
                s.push(c);
                assert(s@ =~= seq![c]);
                out.extend_from_slice(s.as_str().as_bytes());
            },
        }
        proof {
            assert(out@ =~= before + char_bytes(c));
            assert(chars@.take(i + 1).drop_last() =~= chars@.take(i as int));
            assert(out@ =~= start + chars_bytes(chars@.take(i + 1)));
        }
        i += 1;
    }
    assert(chars@.take(i as int) =~= tok@);
}

impl Tokenizer {
    /// Decodes ids into text; special tokens are left out.
    pub fn decode(&self, ids: &[u32]) -> (r: Result<String, TokenizerError>)
        ensures
            match decoded(self@, ids@) {
                Ok(s) => r matches Ok(x) && x@ == s,
                Err(e) => r matches Err(x) && x@ == e,
            },
    {
        let ghost t = self@;
        let ghost whole = ids_bytes(t, ids@);
        let mut bytes: Vec<u8> = Vec::new();
        let mut i: usize = 0;
        proof {
            assert(ids@.skip(0) =~= ids@);
            if let Ok(rest) = whole {
                assert(bytes@ + rest =~= rest);
            }
        }
        while i < ids.len()
            invariant
                t == self@,
                t.vocab == crate::pre::texts(self.vocab@),
                whole == ids_bytes(t, ids@),
                i <= ids@.len(),
                whole == (match ids_bytes(t, ids@.skip(i as int)) {
                    Ok(rest) => Ok(bytes@ + rest),
                    Err(e) => Err(e),
                }),
            decreases ids@.len() - i,
        {
            let id: u32 = ids[i];
            assert(ids@.skip(i as int)[0] == id);
            assert(ids@.skip(i as int).drop_first() =~= ids@.skip(i + 1));
            if id as usize >= self.vocab.len() {
                let mut msg = "<id ".to_owned();
                push_decimal(&mut msg, id as u64);
                msg.push_str(">");
                assert(msg@ =~= "<id "@ + crate::text::decimal(id as nat) + ">"@);
                return Err(TokenizerError::UnknownToken(msg));
            }
            let ghost before = bytes@;
            push_token(&mut bytes, self.vocab[id as usize].as_str());
            proof {
                if let Ok(rest) = ids_bytes(t, ids@.skip(i + 1)) {
                    let tok = token_bytes(t.vocab[id as int]);
                    assert(before + (tok + rest) =~= bytes@ + rest);
                }
            }
            i += 1;
        }
        assert(bytes@ + Seq::<u8>::empty() =~= bytes@);
        match string_from_utf8(bytes) {
            Some(s) => Ok(s),
            None => Err(TokenizerError::UnknownToken("decode utf8".to_owned())),
        }
    }
}

} // verus!
