//! JSON: values, reader and writer. Numbers are doubles, kept as bit patterns.

use vstd::prelude::*;
use vstd::utf8::*;

use crate::decimal::{f64_to_usize, parse_f64, small_integer};
use crate::shortest::push_f64;
use crate::text::{chars_of, digit_of, push_decimal, same_text, string_from_utf8};

verus! {

// ── values ──

/// A JSON value.
#[derive(Debug, PartialEq)]
pub enum Json {
    Null,
    Bool(bool),
    /// Bit pattern of a double.
    Num(u64),
    Str(String),
    Arr(Vec<Json>),
    Obj(Vec<(String, Json)>),
}

/// Mathematical view of [`Json`].
pub enum JsonView {
    Null,
    Bool(bool),
    Num(u64),
    Str(Seq<char>),
    Arr(Seq<JsonView>),
    Obj(Seq<(Seq<char>, JsonView)>),
}

impl Json {
    /// The value, with strings and lists as sequences.
    pub open spec fn model(self) -> JsonView
        decreases self,
    {
        match self {
            Json::Null => JsonView::Null,
            Json::Bool(b) => JsonView::Bool(b),
            Json::Num(n) => JsonView::Num(n),
            Json::Str(s) => JsonView::Str(s@),
            Json::Arr(items) => JsonView::Arr(
                Seq::new(
                    items@.len(),
                    |i: int|
                        if 0 <= i < items@.len() {
                            items@[i].model()
                        } else {
                            JsonView::Null
                        },
                ),
            ),
            Json::Obj(pairs) => JsonView::Obj(
                Seq::new(
                    pairs@.len(),
                    |i: int|
                        if 0 <= i < pairs@.len() {
                            (pairs@[i].0@, pairs@[i].1.model())
                        } else {
                            (Seq::empty(), JsonView::Null)
                        },
                ),
            ),
        }
    }
}

impl View for Json {
    type V = JsonView;

    open spec fn view(&self) -> JsonView {
        self.model()
    }
}

/// The views of a list of values.
pub open spec fn views(items: Seq<Json>) -> Seq<JsonView> {
    Seq::new(items.len(), |i: int| items[i]@)
}

/// The views of the members of an object.
pub open spec fn member_views(pairs: Seq<(String, Json)>) -> Seq<(Seq<char>, JsonView)> {
    Seq::new(pairs.len(), |i: int| (pairs[i].0@, pairs[i].1@))
}

/// The view of an array is made of the views of its items.
pub proof fn array_view(items: Vec<Json>)
    ensures
        Json::Arr(items)@ == JsonView::Arr(views(items@)),
{
    assert(Json::Arr(items)@->Arr_0 =~= views(items@));
}

/// The view of an object is made of the views of its members.
pub proof fn object_view(pairs: Vec<(String, Json)>)
    ensures
        Json::Obj(pairs)@ == JsonView::Obj(member_views(pairs@)),
{
    assert(Json::Obj(pairs)@->Obj_0 =~= member_views(pairs@));
}

impl Clone for Json {
    fn clone(&self) -> (r: Self)
        ensures
            r@ == self@,
        decreases self,
    {
        match self {
            Json::Null => Json::Null,
            Json::Bool(b) => Json::Bool(*b),
            Json::Num(n) => Json::Num(*n),
            Json::Str(s) => Json::Str(s.clone()),
            Json::Arr(items) => {
                let mut out: Vec<Json> = Vec::new();
                let mut i: usize = 0;
                while i < items.len()
                    invariant
                        i <= items@.len(),
                        forall|k: int|
                            0 <= k < items@.len() ==> decreases_to!(self => #[trigger] items@[k]),
                        views(out@) == views(items@).take(i as int),
                    decreases items@.len() - i,
                {
                    let ghost before = views(out@);
                    let item = &items[i];
                    let copy = item.clone();
                    let ghost w = copy@;
                    out.push(copy);
                    i += 1;
                    assert(views(out@) =~= before.push(w));
                    assert(views(out@) =~= views(items@).take(i as int));
                }
                proof {
                    assert(views(items@).take(i as int) =~= views(items@));
                    array_view(*items);
                    array_view(out);
                }
                Json::Arr(out)
            },
            Json::Obj(pairs) => {
                let mut out: Vec<(String, Json)> = Vec::new();
                let mut i: usize = 0;
                while i < pairs.len()
                    invariant
                        i <= pairs@.len(),
                        forall|k: int|
                            0 <= k < pairs@.len() ==> decreases_to!(self => (#[trigger] pairs@[k]).1),
                        member_views(out@) == member_views(pairs@).take(i as int),
                    decreases pairs@.len() - i,
                {
                    let ghost before = member_views(out@);
                    let pair = &pairs[i];
                    let key = pair.0.clone();
                    let copy = pair.1.clone();
                    let ghost w = (key@, copy@);
                    out.push((key, copy));
                    i += 1;
                    assert(member_views(out@) =~= before.push(w));
                    assert(member_views(out@) =~= member_views(pairs@).take(i as int));
                }
                proof {
                    assert(member_views(pairs@).take(i as int) =~= member_views(pairs@));
                    object_view(*pairs);
                    object_view(out);
                }
                Json::Obj(out)
            },
        }
    }
}

// ── reading, as a function of the bytes and the position ──

/// Outcome of reading something at a position: the value and the position after
/// it, or the message of an error.
pub type Parsed<T> = Result<(T, int), Seq<char>>;

/// White space between tokens.
pub open spec fn is_space(c: u8) -> bool {
    c == ' ' as u8 || c == '\t' as u8 || c == '\n' as u8 || c == '\r' as u8
}

/// The first position from `i` on that holds no white space.
pub open spec fn skip(b: Seq<u8>, i: int) -> int
    decreases b.len() - i,
{
    if 0 <= i < b.len() && is_space(b[i]) {
        skip(b, i + 1)
    } else {
        i
    }
}

/// Whether `lit` stands at position `i`.
pub open spec fn stands_at(b: Seq<u8>, i: int, lit: Seq<u8>) -> bool {
    i + lit.len() <= b.len() && b.subrange(i, i + lit.len()) == lit
}

/// Whether position `i` holds the byte `c`.
pub open spec fn holds_at(b: Seq<u8>, i: int, c: char) -> bool {
    i < b.len() && b[i] == c as u8
}

/// Value of a hexadecimal digit.
pub open spec fn hex_digit(c: u8) -> Option<nat> {
    if '0' as u8 <= c <= '9' as u8 {
        Some((c - '0' as u8) as nat)
    } else if 'a' as u8 <= c <= 'f' as u8 {
        Some((c - 'a' as u8 + 10) as nat)
    } else if 'A' as u8 <= c <= 'F' as u8 {
        Some((c - 'A' as u8 + 10) as nat)
    } else {
        None
    }
}

/// Value of a run of hexadecimal digits.
pub open spec fn hex_value(s: Seq<u8>) -> Option<nat>
    decreases s.len(),
{
    if s.len() == 0 {
        Some(0)
    } else {
        match (hex_value(s.drop_last()), hex_digit(s.last())) {
            (Some(v), Some(d)) => Some(16 * v + d),
            _ => None,
        }
    }
}

/// Reads the four characters after `\u`: hexadecimal digits, the first of which
/// may be a plus sign.
pub open spec fn hex4_at(b: Seq<u8>, i: int) -> Parsed<nat> {
    if i + 4 > b.len() {
        Err("\\u troncato"@)
    } else {
        let s = b.subrange(i, i + 4);
        if !valid_utf8(s) {
            Err("\\u non valido"@)
        } else {
            match hex_value(if s[0] == '+' as u8 { s.drop_first() } else { s }) {
                Some(v) => Ok((v, i + 4)),
                None => Err("\\u non esadecimale"@),
            }
        }
    }
}

/// Reads a `\u` escape, the digits of which start at `i`: one code point, or a
/// surrogate pair.
pub open spec fn unicode_at(b: Seq<u8>, i: int) -> Parsed<Seq<char>> {
    match hex4_at(b, i) {
        Err(e) => Err(e),
        Ok((hi, p)) => if 0xd800 <= hi < 0xdc00 {
            if !stands_at(b, p, seq!['\\' as u8, 'u' as u8]) {
                Err("surrogate basso mancante"@)
            } else {
                match hex4_at(b, p + 2) {
                    Err(e) => Err(e),
                    Ok((lo, q)) => if lo < 0xdc00 {
                        Err("surrogate basso mancante"@)
                    } else {
                        scalar_char((0x1_0000 + (hi - 0xd800) * 0x400 + (lo - 0xdc00)) as nat, q)
                    },
                }
            }
        } else {
            scalar_char(hi, p)
        },
    }
}

/// The character with the given code point, if there is one.
pub open spec fn scalar_char(code: nat, p: int) -> Parsed<Seq<char>> {
    if is_scalar(code as u32) {
        Ok((seq![code as u32 as char], p))
    } else {
        Err("codepoint non valido"@)
    }
}

/// Reads an escape, the letter of which stands at `i`.
pub open spec fn escape_at(b: Seq<u8>, i: int) -> Parsed<Seq<char>> {
    if i >= b.len() {
        Err("escape troncato"@)
    } else if b[i] == '"' as u8 {
        Ok((seq!['"'], i + 1))
    } else if b[i] == '\\' as u8 {
        Ok((seq!['\\'], i + 1))
    } else if b[i] == '/' as u8 {
        Ok((seq!['/'], i + 1))
    } else if b[i] == 'b' as u8 {
        Ok((seq!['\u{8}'], i + 1))
    } else if b[i] == 'f' as u8 {
        Ok((seq!['\u{c}'], i + 1))
    } else if b[i] == 'n' as u8 {
        Ok((seq!['\n'], i + 1))
    } else if b[i] == 'r' as u8 {
        Ok((seq!['\r'], i + 1))
    } else if b[i] == 't' as u8 {
        Ok((seq!['\t'], i + 1))
    } else if b[i] == 'u' as u8 {
        unicode_at(b, i + 1)
    } else {
        Err("escape non riconosciuto"@)
    }
}

/// Bytes of the UTF-8 character that starts with the byte `first`.
pub open spec fn utf8_width(first: u8) -> int {
    if first < 0x80 {
        1
    } else if 0xc0 <= first < 0xe0 {
        2
    } else if 0xe0 <= first < 0xf0 {
        3
    } else {
        4
    }
}

/// Reads one character of a string, written plainly or as an escape.
pub open spec fn char_at(b: Seq<u8>, i: int) -> Parsed<Seq<char>> {
    if b[i] == '\\' as u8 {
        escape_at(b, i + 1)
    } else {
        let p = i + utf8_width(b[i]);
        if p <= b.len() && valid_utf8(b.subrange(i, p)) {
            Ok((decode_utf8(b.subrange(i, p)), p))
        } else {
            Err("utf8 non valido nel body"@)
        }
    }
}

/// Reads the rest of a string, up to its closing quote.
pub open spec fn chars_at(b: Seq<u8>, i: int) -> Parsed<Seq<char>>
    decreases b.len() - i,
{
    if i >= b.len() {
        Err("stringa non chiusa"@)
    } else if b[i] == '"' as u8 {
        Ok((Seq::empty(), i + 1))
    } else {
        match char_at(b, i) {
            Err(e) => Err(e),
            Ok((c, p)) => match chars_at(b, p) {
                Err(e) => Err(e),
                Ok((rest, q)) => Ok((c + rest, q)),
            },
        }
    }
}

/// A byte that can stand in a number.
pub open spec fn is_numeric(c: u8) -> bool {
    crate::decimal::is_digit(c) || c == '.' as u8 || c == 'e' as u8 || c == 'E' as u8 || c
        == '+' as u8 || c == '-' as u8
}

/// The first position from `i` on that holds no numeric byte.
pub open spec fn numeric_end(b: Seq<u8>, i: int) -> int
    decreases b.len() - i,
{
    if 0 <= i < b.len() && is_numeric(b[i]) {
        numeric_end(b, i + 1)
    } else {
        i
    }
}

/// The characters of ASCII bytes.
pub open spec fn ascii(s: Seq<u8>) -> Seq<char> {
    Seq::new(s.len(), |i: int| s[i] as char)
}

/// Reads a number: the longest run of numeric bytes, which must be a numeral.
pub open spec fn number_at(b: Seq<u8>, i: int) -> Parsed<JsonView> {
    let p = numeric_end(b, i);
    let s = b.subrange(i, p);
    match crate::decimal::decimal(s) {
        Some(d) => Ok((JsonView::Num(d.double()), p)),
        None => Err("numero non valido: \""@ + ascii(s) + "\""@),
    }
}

/// Reads a literal.
pub open spec fn literal_at(
    b: Seq<u8>,
    i: int,
    lit: Seq<u8>,
    v: JsonView,
    error: Seq<char>,
) -> Parsed<JsonView> {
    if stands_at(b, i, lit) {
        Ok((v, i + lit.len()))
    } else {
        Err(error)
    }
}

/// Bytes of `true`.
pub open spec fn true_bytes() -> Seq<u8> {
    seq!['t' as u8, 'r' as u8, 'u' as u8, 'e' as u8]
}

/// Bytes of `false`.
pub open spec fn false_bytes() -> Seq<u8> {
    seq!['f' as u8, 'a' as u8, 'l' as u8, 's' as u8, 'e' as u8]
}

/// Bytes of `null`.
pub open spec fn null_bytes() -> Seq<u8> {
    seq!['n' as u8, 'u' as u8, 'l' as u8, 'l' as u8]
}

/// Reads a value.
pub open spec fn value_at(b: Seq<u8>, i: int) -> Parsed<JsonView>
    decreases b.len() - i, 1nat,
{
    if i >= b.len() {
        Err("JSON troncato"@)
    } else if b[i] == '{' as u8 {
        let p = skip(b, i + 1);
        if holds_at(b, p, '}') {
            Ok((JsonView::Obj(Seq::empty()), p + 1))
        } else {
            match members_at(b, i + 1) {
                Ok((v, q)) => Ok((JsonView::Obj(v), q)),
                Err(e) => Err(e),
            }
        }
    } else if b[i] == '[' as u8 {
        let p = skip(b, i + 1);
        if holds_at(b, p, ']') {
            Ok((JsonView::Arr(Seq::empty()), p + 1))
        } else {
            match items_at(b, i + 1) {
                Ok((v, q)) => Ok((JsonView::Arr(v), q)),
                Err(e) => Err(e),
            }
        }
    } else if b[i] == '"' as u8 {
        match chars_at(b, i + 1) {
            Ok((s, p)) => Ok((JsonView::Str(s), p)),
            Err(e) => Err(e),
        }
    } else if b[i] == 't' as u8 {
        literal_at(b, i, true_bytes(), JsonView::Bool(true), "valore non valido (atteso true)"@)
    } else if b[i] == 'f' as u8 {
        literal_at(b, i, false_bytes(), JsonView::Bool(false), "valore non valido (atteso false)"@)
    } else if b[i] == 'n' as u8 {
        literal_at(b, i, null_bytes(), JsonView::Null, "valore non valido (atteso null)"@)
    } else {
        number_at(b, i)
    }
}

/// Reads the members of an object, at least one, up to its closing brace.
pub open spec fn members_at(b: Seq<u8>, i: int) -> Parsed<Seq<(Seq<char>, JsonView)>>
    decreases b.len() - i, 0nat,
{
    let k = skip(b, i);
    if !holds_at(b, k, '"') {
        Err("attesa chiave stringa alla posizione "@ + crate::text::decimal(k as nat))
    } else {
        match chars_at(b, k + 1) {
            Err(e) => Err(e),
            Ok((key, p)) => {
                let c = skip(b, p);
                if !holds_at(b, c, ':') {
                    Err("atteso ':' dopo la chiave alla posizione "@ + crate::text::decimal(
                        c as nat,
                    ))
                } else {
                    let start = skip(b, c + 1);
                    if !(i < start <= b.len()) {
                        Err("JSON troncato"@)
                    } else {
                        match value_at(b, start) {
                            Err(e) => Err(e),
                            Ok((v, q)) => {
                                let r = skip(b, q);
                                if holds_at(b, r, ',') && i < r + 1 {
                                    match members_at(b, r + 1) {
                                        Err(e) => Err(e),
                                        Ok((rest, s)) => Ok((seq![(key, v)] + rest, s)),
                                    }
                                } else if holds_at(b, r, '}') {
                                    Ok((seq![(key, v)], r + 1))
                                } else {
                                    Err("atteso ',' o '}' nell'oggetto"@)
                                }
                            },
                        }
                    }
                }
            },
        }
    }
}

/// Reads the items of an array, at least one, up to its closing bracket.
pub open spec fn items_at(b: Seq<u8>, i: int) -> Parsed<Seq<JsonView>>
    decreases b.len() - i, 2nat,
{
    let start = skip(b, i);
    if !(i <= start <= b.len()) {
        Err("JSON troncato"@)
    } else {
        match value_at(b, start) {
            Err(e) => Err(e),
            Ok((v, q)) => {
                let r = skip(b, q);
                if holds_at(b, r, ',') && i < r + 1 {
                    match items_at(b, r + 1) {
                        Err(e) => Err(e),
                        Ok((rest, s)) => Ok((seq![v] + rest, s)),
                    }
                } else if holds_at(b, r, ']') {
                    Ok((seq![v], r + 1))
                } else {
                    Err("atteso ',' o ']' nell'array"@)
                }
            },
        }
    }
}

/// Reads a whole text: one value with nothing but white space around it.
pub open spec fn parsed(b: Seq<u8>) -> Result<JsonView, Seq<char>> {
    match value_at(b, skip(b, 0)) {
        Err(e) => Err(e),
        Ok((v, p)) => {
            let end = skip(b, p);
            if end == b.len() {
                Ok(v)
            } else {
                Err("contenuto inatteso dopo il JSON alla posizione "@ + crate::text::decimal(
                    end as nat,
                ))
            }
        },
    }
}

// ── reader ──

fn skip_ws(b: &[u8], from: usize) -> (r: usize)
    requires
        from <= b@.len(),
    ensures
        r == skip(b@, from as int),
        from <= r <= b@.len(),
{
    let mut i: usize = from;
    while i < b.len() && (b[i] == ' ' as u8 || b[i] == '\t' as u8 || b[i] == '\n' as u8 || b[i]
        == '\r' as u8)
        invariant
            from <= i <= b@.len(),
            skip(b@, from as int) == skip(b@, i as int),
        decreases b@.len() - i,
    {
        i += 1;
    }
    i
}

/// Whether `lit` stands at position `i`.
fn eat(b: &[u8], i: usize, lit: &[u8]) -> (r: bool)
    requires
        i <= b@.len(),
    ensures
        r == stands_at(b@, i as int, lit@),
        r ==> i + lit@.len() <= usize::MAX,
{
    if lit.len() > b.len() - i {
        return false;
    }
    let mut k: usize = 0;
    while k < lit.len()
        invariant
            i + lit@.len() <= b@.len() <= usize::MAX,
            k <= lit@.len(),
            forall|j: int| 0 <= j < k ==> b@[i + j] == #[trigger] lit@[j],
        decreases lit@.len() - k,
    {
        if b[i + k] != lit[k] {
            assert(b@.subrange(i as int, i + lit@.len())[k as int] != lit@[k as int]);
            return false;
        }
        k += 1;
    }
    assert(b@.subrange(i as int, i + lit@.len()) =~= lit@);
    true
}

/// Whether position `i` holds the byte `c`.
fn at(b: &[u8], i: usize, c: u8) -> (r: bool)
    ensures
        r == (i < b@.len() && b@[i as int] == c),
        r ==> i < usize::MAX,
{
    i < b.len() && b[i] == c
}

fn hex_of(c: u8) -> (r: Option<u32>)
    ensures
        match hex_digit(c) {
            Some(d) => r matches Some(x) && x == d && d < 16,
            None => r is None,
        },
{
    if '0' as u8 <= c && c <= '9' as u8 {
        Some((c - '0' as u8) as u32)
    } else if 'a' as u8 <= c && c <= 'f' as u8 {
        Some((c - 'a' as u8 + 10) as u32)
    } else if 'A' as u8 <= c && c <= 'F' as u8 {
        Some((c - 'A' as u8 + 10) as u32)
    } else {
        None
    }
}

proof fn hex_value_fails_early(s: Seq<u8>, k: int)
    requires
        0 <= k <= s.len(),
        hex_value(s.take(k)) is None,
    ensures
        hex_value(s) is None,
    decreases s.len() - k,
{
    if k < s.len() {
        assert(s.take(k + 1).drop_last() =~= s.take(k));
        hex_value_fails_early(s, k + 1);
    } else {
        assert(s.take(k) =~= s);
    }
}

fn hex4(b: &[u8], i: usize) -> (r: Result<(u32, usize), String>)
    requires
        i <= b@.len(),
    ensures
        match hex4_at(b@, i as int) {
            Ok((v, p)) => r matches Ok((x, q)) && x == v && q == p && v < 0x1_0000 && q <= b@.len(),
            Err(e) => r matches Err(m) && m@ == e,
        },
{
    if b.len() - i < 4 {
        return Err("\\u troncato".to_owned());
    }
    let s = vstd::slice::slice_subrange(b, i, i + 4);
    if string_from_utf8(vstd::slice::slice_to_vec(s)).is_none() {
        return Err("\\u non valido".to_owned());
    }
    let start: usize = if s[0] == '+' as u8 {
        1
    } else {
        0
    };
    let ghost digits = if start == 1 {
        s@.drop_first()
    } else {
        s@
    };
    let mut v: u32 = 0;
    let mut k: usize = start;
    while k < 4
        invariant
            start <= k <= 4,
            start <= 1,
            s@.len() == 4,
            digits == s@.skip(start as int),
            hex_value(digits.take(k - start)) == Some(v as nat),
            k - start == 0 ==> v == 0,
            k - start == 1 ==> v < 0x10,
            k - start == 2 ==> v < 0x100,
            k - start == 3 ==> v < 0x1000,
            k - start == 4 ==> v < 0x1_0000,
            hex4_at(b@, i as int) == (match hex_value(digits) {
                Some(v) => Ok::<(nat, int), Seq<char>>((v, i + 4)),
                None => Err("\\u non esadecimale"@),
            }),
        decreases 4 - k,
    {
        assert(digits.take(k - start + 1).drop_last() =~= digits.take(k - start));
        assert(digits.take(k - start + 1).last() == s@[k as int]);
        match hex_of(s[k]) {
            Some(d) => {
                v = 16 * v + d;
            },
            None => {
                proof {
                    hex_value_fails_early(digits, k - start + 1);
                }
                return Err("\\u non esadecimale".to_owned());
            },
        }
        k += 1;
    }
    assert(digits.take(4 - start) =~= digits);
    Ok((v, i + 4))
}

fn scalar(code: u32, p: usize) -> (r: Result<(char, usize), String>)
    ensures
        match scalar_char(code as nat, p as int) {
            Ok((c, p)) => r matches Ok((x, q)) && c == seq![x] && q == p,
            Err(e) => r matches Err(m) && m@ == e,
        },
{
    match char::from_u32(code) {
        Some(c) => {
            proof {
                char_u32_cast(c, code);
            }
            Ok((c, p))
        },
        None => Err("codepoint non valido".to_owned()),
    }
}

fn unicode(b: &[u8], i: usize) -> (r: Result<(char, usize), String>)
    requires
        i <= b@.len(),
    ensures
        match unicode_at(b@, i as int) {
            Ok((c, p)) => r matches Ok((x, q)) && c == seq![x] && q == p && i < q <= b@.len(),
            Err(e) => r matches Err(m) && m@ == e,
        },
{
    let (hi, p) = hex4(b, i)?;
    if 0xd800 <= hi && hi < 0xdc00 {
        let lit: [u8; 2] = ['\\' as u8, 'u' as u8];
        assert(lit@ =~= seq!['\\' as u8, 'u' as u8]);
        if !eat(b, p, &lit) {
            return Err("surrogate basso mancante".to_owned());
        }
        let (lo, q) = hex4(b, p + 2)?;
        if lo < 0xdc00 {
            return Err("surrogate basso mancante".to_owned());
        }
        scalar(0x1_0000 + (hi - 0xd800) * 0x400 + (lo - 0xdc00), q)
    } else {
        scalar(hi, p)
    }
}

fn escape(b: &[u8], i: usize) -> (r: Result<(char, usize), String>)
    requires
        i <= b@.len(),
    ensures
        match escape_at(b@, i as int) {
            Ok((c, p)) => r matches Ok((x, q)) && c == seq![x] && q == p && i < q <= b@.len(),
            Err(e) => r matches Err(m) && m@ == e,
        },
{
    if i >= b.len() {
        return Err("escape troncato".to_owned());
    }
    let c: u8 = b[i];
    if c == '"' as u8 {
        Ok(('"', i + 1))
    } else if c == '\\' as u8 {
        Ok(('\\', i + 1))
    } else if c == '/' as u8 {
        Ok(('/', i + 1))
    } else if c == 'b' as u8 {
        Ok(('\u{8}', i + 1))
    } else if c == 'f' as u8 {
        Ok(('\u{c}', i + 1))
    } else if c == 'n' as u8 {
        Ok(('\n', i + 1))
    } else if c == 'r' as u8 {
        Ok(('\r', i + 1))
    } else if c == 't' as u8 {
        Ok(('\t', i + 1))
    } else if c == 'u' as u8 {
        unicode(b, i + 1)
    } else {
        Err("escape non riconosciuto".to_owned())
    }
}

fn utf8_len(first: u8) -> (r: usize)
    ensures
        r == utf8_width(first),
{
    if first < 0x80 {
        1
    } else if 0xc0 <= first && first < 0xe0 {
        2
    } else if 0xe0 <= first && first < 0xf0 {
        3
    } else {
        4
    }
}

/// Reads the rest of a string, up to its closing quote.
fn string(b: &[u8], from: usize) -> (r: Result<(String, usize), String>)
    requires
        from <= b@.len(),
    ensures
        match chars_at(b@, from as int) {
            Ok((s, p)) => r matches Ok((x, q)) && x@ == s && q == p && from < q <= b@.len(),
            Err(e) => r matches Err(m) && m@ == e,
        },
{
    let ghost whole = chars_at(b@, from as int);
    let mut out = String::new();
    let mut i: usize = from;
    loop
        invariant
            from <= i <= b@.len(),
            whole == chars_at(b@, from as int),
            whole == (match chars_at(b@, i as int) {
                Ok((rest, q)) => Ok((out@ + rest, q)),
                Err(e) => Err(e),
            }),
        decreases b@.len() - i,
    {
        if i >= b.len() {
            return Err("stringa non chiusa".to_owned());
        }
        let c: u8 = b[i];
        if c == '"' as u8 {
            assert(out@ + Seq::<char>::empty() =~= out@);
            return Ok((out, i + 1));
        }
        let ghost before = out@;
        let ghost piece: Seq<char>;
        if c == '\\' as u8 {
            let (x, p) = escape(b, i + 1)?;
            out.push(x);
            i = p;
            proof {
                piece = seq![x];
            }
        } else {
            let n = utf8_len(c);
            if n > b.len() - i {
                return Err("utf8 non valido nel body".to_owned());
            }
            let s = vstd::slice::slice_subrange(b, i, i + n);
            match string_from_utf8(vstd::slice::slice_to_vec(s)) {
                Some(t) => {
                    out.push_str(t.as_str());
                    proof {
                        piece = t@;
                    }
                },
                None => {
                    return Err("utf8 non valido nel body".to_owned());
                },
            }
            i = i + n;
        }
        proof {
            assert(out@ =~= before + piece);
            if let Ok((rest, _)) = chars_at(b@, i as int) {
                assert(before + (piece + rest) =~= out@ + rest);
            }
        }
    }
}

fn string_of_ascii(s: &[u8]) -> (r: String)
    ensures
        r@ == ascii(s@),
{
    let mut out = String::new();
    let mut i: usize = 0;
    while i < s.len()
        invariant
            i <= s@.len(),
            out@ == ascii(s@).take(i as int),
        decreases s@.len() - i,
    {
        out.push(s[i] as char);
        i += 1;
    }
    assert(ascii(s@).take(i as int) =~= ascii(s@));
    out
}

fn number(b: &[u8], from: usize) -> (r: Result<(Json, usize), String>)
    requires
        from < b@.len(),
    ensures
        match number_at(b@, from as int) {
            Ok((v, p)) => r matches Ok((x, q)) && x@ == v && q == p && from < q <= b@.len(),
            Err(e) => r matches Err(m) && m@ == e,
        },
{
    let mut i: usize = from;
    while i < b.len() && ('0' as u8 <= b[i] && b[i] <= '9' as u8 || b[i] == '.' as u8 || b[i]
        == 'e' as u8 || b[i] == 'E' as u8 || b[i] == '+' as u8 || b[i] == '-' as u8)
        invariant
            from <= i <= b@.len(),
            numeric_end(b@, from as int) == numeric_end(b@, i as int),
        decreases b@.len() - i,
    {
        i += 1;
    }
    let s = vstd::slice::slice_subrange(b, from, i);
    match parse_f64(s) {
        Some(bits) => Ok((Json::Num(bits), i)),
        None => {
            let mut msg = String::new();
            msg.push_str("numero non valido: \"");
            msg.push_str(string_of_ascii(s).as_str());
            msg.push_str("\"");
            assert(msg@ =~= "numero non valido: \""@ + ascii(s@) + "\""@);
            Err(msg)
        },
    }
}

/// A message that ends with a position.
fn located(msg: &str, i: usize) -> (r: String)
    ensures
        r@ == msg@ + crate::text::decimal(i as nat),
{
    let mut out = msg.to_owned();
    push_decimal(&mut out, i as u64);
    out
}

fn value(b: &[u8], i: usize) -> (r: Result<(Json, usize), String>)
    requires
        i <= b@.len(),
    ensures
        match value_at(b@, i as int) {
            Ok((v, p)) => r matches Ok((x, q)) && x@ == v && q == p && i < q <= b@.len(),
            Err(e) => r matches Err(m) && m@ == e,
        },
    decreases b@.len() - i, 1nat,
{
    if i >= b.len() {
        return Err("JSON troncato".to_owned());
    }
    let c: u8 = b[i];
    if c == '{' as u8 {
        let p = skip_ws(b, i + 1);
        if at(b, p, '}' as u8) {
            let none: Vec<(String, Json)> = Vec::new();
            proof {
                object_view(none);
                assert(member_views(none@) =~= Seq::empty());
            }
            return Ok((Json::Obj(none), p + 1));
        }
        object(b, i + 1)
    } else if c == '[' as u8 {
        let p = skip_ws(b, i + 1);
        if at(b, p, ']' as u8) {
            let none: Vec<Json> = Vec::new();
            proof {
                array_view(none);
                assert(views(none@) =~= Seq::empty());
            }
            return Ok((Json::Arr(none), p + 1));
        }
        array(b, i + 1)
    } else if c == '"' as u8 {
        let (s, p) = string(b, i + 1)?;
        Ok((Json::Str(s), p))
    } else if c == 't' as u8 {
        let lit: [u8; 4] = ['t' as u8, 'r' as u8, 'u' as u8, 'e' as u8];
        assert(lit@ =~= true_bytes());
        if eat(b, i, &lit) {
            Ok((Json::Bool(true), i + 4))
        } else {
            Err("valore non valido (atteso true)".to_owned())
        }
    } else if c == 'f' as u8 {
        let lit: [u8; 5] = ['f' as u8, 'a' as u8, 'l' as u8, 's' as u8, 'e' as u8];
        assert(lit@ =~= false_bytes());
        if eat(b, i, &lit) {
            Ok((Json::Bool(false), i + 5))
        } else {
            Err("valore non valido (atteso false)".to_owned())
        }
    } else if c == 'n' as u8 {
        let lit: [u8; 4] = ['n' as u8, 'u' as u8, 'l' as u8, 'l' as u8];
        assert(lit@ =~= null_bytes());
        if eat(b, i, &lit) {
            Ok((Json::Null, i + 4))
        } else {
            Err("valore non valido (atteso null)".to_owned())
        }
    } else {
        number(b, i)
    }
}

/// Reads the members of an object after its opening brace.
fn object(b: &[u8], from: usize) -> (r: Result<(Json, usize), String>)
    requires
        from <= b@.len(),
    ensures
        match members_at(b@, from as int) {
            Ok((v, p)) => r matches Ok((x, q)) && x@ == JsonView::Obj(v) && q == p && from < q
                <= b@.len(),
            Err(e) => r matches Err(m) && m@ == e,
        },
    decreases b@.len() - from, 0nat,
{
    let ghost whole = members_at(b@, from as int);
    let mut pairs: Vec<(String, Json)> = Vec::new();
    let mut i: usize = from;
    loop
        invariant
            from <= i <= b@.len(),
            whole == members_at(b@, from as int),
            whole == (match members_at(b@, i as int) {
                Ok((rest, q)) => Ok((member_views(pairs@) + rest, q)),
                Err(e) => Err(e),
            }),
        decreases b@.len() - i,
    {
        let k = skip_ws(b, i);
        if !at(b, k, '"' as u8) {
            return Err(located("attesa chiave stringa alla posizione ", k));
        }
        let (key, p) = string(b, k + 1)?;
        let c = skip_ws(b, p);
        if !at(b, c, ':' as u8) {
            return Err(located("atteso ':' dopo la chiave alla posizione ", c));
        }
        let start = skip_ws(b, c + 1);
        let (val, q) = value(b, start)?;
        let ghost before = member_views(pairs@);
        let ghost first = (key@, val@);
        pairs.push((key, val));
        assert(member_views(pairs@) =~= before.push(first));
        let e = skip_ws(b, q);
        if at(b, e, ',' as u8) {
            i = e + 1;
            proof {
                if let Ok((rest, _)) = members_at(b@, i as int) {
                    assert(before + (seq![first] + rest) =~= member_views(pairs@) + rest);
                }
            }
        } else if at(b, e, '}' as u8) {
            proof {
                assert(before + seq![first] =~= member_views(pairs@));
                object_view(pairs);
            }
            return Ok((Json::Obj(pairs), e + 1));
        } else {
            return Err("atteso ',' o '}' nell'oggetto".to_owned());
        }
    }
}

/// Reads the items of an array after its opening bracket.
fn array(b: &[u8], from: usize) -> (r: Result<(Json, usize), String>)
    requires
        from <= b@.len(),
    ensures
        match items_at(b@, from as int) {
            Ok((v, p)) => r matches Ok((x, q)) && x@ == JsonView::Arr(v) && q == p && from < q
                <= b@.len(),
            Err(e) => r matches Err(m) && m@ == e,
        },
    decreases b@.len() - from, 2nat,
{
    let ghost whole = items_at(b@, from as int);
    let mut items: Vec<Json> = Vec::new();
    let mut i: usize = from;
    loop
        invariant
            from <= i <= b@.len(),
            whole == items_at(b@, from as int),
            whole == (match items_at(b@, i as int) {
                Ok((rest, q)) => Ok((views(items@) + rest, q)),
                Err(e) => Err(e),
            }),
        decreases b@.len() - i,
    {
        let start = skip_ws(b, i);
        let (val, q) = value(b, start)?;
        let ghost before = views(items@);
        let ghost first = val@;
        items.push(val);
        assert(views(items@) =~= before.push(first));
        let e = skip_ws(b, q);
        if at(b, e, ',' as u8) {
            i = e + 1;
            proof {
                if let Ok((rest, _)) = items_at(b@, i as int) {
                    assert(before + (seq![first] + rest) =~= views(items@) + rest);
                }
            }
        } else if at(b, e, ']' as u8) {
            proof {
                assert(before + seq![first] =~= views(items@));
                array_view(items);
            }
            return Ok((Json::Arr(items), e + 1));
        } else {
            return Err("atteso ',' o ']' nell'array".to_owned());
        }
    }
}

/// Reads a JSON text.
pub fn parse(input: &str) -> (r: Result<Json, String>)
    ensures
        match parsed(encode_utf8(input@)) {
            Ok(v) => r matches Ok(x) && x@ == v,
            Err(e) => r matches Err(m) && m@ == e,
        },
{
    let b = input.as_bytes();
    let start = skip_ws(b, 0);
    let (v, p) = value(b, start)?;
    let end = skip_ws(b, p);
    if end != b.len() {
        return Err(located("contenuto inatteso dopo il JSON alla posizione ", end));
    }
    Ok(v)
}

// ── access ──

/// The first member with the given name.
pub open spec fn member(pairs: Seq<(Seq<char>, JsonView)>, key: Seq<char>) -> Option<JsonView>
    decreases pairs.len(),
{
    if pairs.len() == 0 {
        None
    } else if pairs[0].0 == key {
        Some(pairs[0].1)
    } else {
        member(pairs.drop_first(), key)
    }
}

impl JsonView {
    /// The first member with the given name, if this is an object that has one.
    pub open spec fn get(self, key: Seq<char>) -> Option<JsonView> {
        match self {
            JsonView::Obj(pairs) => member(pairs, key),
            _ => None,
        }
    }
}

impl Json {
    /// The first member with the given name, if this is an object that has one.
    pub fn get(&self, key: &str) -> (r: Option<&Json>)
        ensures
            match self@.get(key@) {
                Some(v) => r matches Some(x) && x@ == v,
                None => r is None,
            },
    {
        match self {
            Json::Obj(pairs) => {
                proof {
                    object_view(*pairs);
                }
                let ghost all = member_views(pairs@);
                assert(all.skip(0) =~= all);
                let mut i: usize = 0;
                while i < pairs.len()
                    invariant
                        all == member_views(pairs@),
                        i <= pairs@.len(),
                        member(all, key@) == member(all.skip(i as int), key@),
                        self@.get(key@) == member(all, key@),
                    decreases pairs@.len() - i,
                {
                    let pair = &pairs[i];
                    assert(all.skip(i as int)[0] == (pair.0@, pair.1@));
                    if same_text(pair.0.as_str(), key) {
                        return Some(&pair.1);
                    }
                    assert(all.skip(i as int).drop_first() =~= all.skip(i + 1));
                    i += 1;
                }
                None
            },
            _ => None,
        }
    }

    /// The text of a string.
    pub fn as_str(&self) -> (r: Option<&str>)
        ensures
            match self@ {
                JsonView::Str(s) => r matches Some(t) && t@ == s,
                _ => r is None,
            },
    {
        match self {
            Json::Str(s) => Some(s.as_str()),
            _ => None,
        }
    }

    /// Bit pattern of a number.
    pub fn as_f64(&self) -> (r: Option<u64>)
        ensures
            match self@ {
                JsonView::Num(n) => r == Some(n),
                _ => r is None,
            },
    {
        match self {
            Json::Num(n) => Some(*n),
            _ => None,
        }
    }

    /// A number as a size: toward zero, within the range of the type.
    pub fn as_usize(&self) -> (r: Option<usize>)
        ensures
            match self@ {
                JsonView::Num(n) => r matches Some(x) && x == crate::decimal::clamped(
                    n,
                    usize::MAX as nat,
                ),
                _ => r is None,
            },
    {
        match self {
            Json::Num(n) => Some(f64_to_usize(*n)),
            _ => None,
        }
    }

    /// The items of an array.
    pub fn as_arr(&self) -> (r: Option<&[Json]>)
        ensures
            match self@ {
                JsonView::Arr(v) => r matches Some(x) && views(x@) == v,
                _ => r is None,
            },
    {
        match self {
            Json::Arr(items) => {
                proof {
                    array_view(*items);
                }
                Some(items.as_slice())
            },
            _ => None,
        }
    }
}

// ── writer ──

/// A character as it is written inside a string.
pub open spec fn escaped_char(c: char) -> Seq<char> {
    if c == '"' {
        seq!['\\', '"']
    } else if c == '\\' {
        seq!['\\', '\\']
    } else if c == '\n' {
        seq!['\\', 'n']
    } else if c == '\r' {
        seq!['\\', 'r']
    } else if c == '\t' {
        seq!['\\', 't']
    } else if c == '\u{8}' {
        seq!['\\', 'b']
    } else if c == '\u{c}' {
        seq!['\\', 'f']
    } else if (c as u32) < 0x20 {
        seq![
            '\\',
            'u',
            '0',
            '0',
            crate::text::digit_char(c as nat / 16),
            crate::text::digit_char(c as nat % 16),
        ]
    } else {
        seq![c]
    }
}

/// The characters of a string as they are written.
pub open spec fn escaped_chars(s: Seq<char>) -> Seq<char>
    decreases s.len(),
{
    if s.len() == 0 {
        Seq::empty()
    } else {
        escaped_char(s[0]) + escaped_chars(s.drop_first())
    }
}

/// A string as it is written, with its quotes.
pub open spec fn escaped(s: Seq<char>) -> Seq<char> {
    seq!['"'] + escaped_chars(s) + seq!['"']
}

proof fn escaped_push(s: Seq<char>, c: char)
    ensures
        escaped_chars(s.push(c)) == escaped_chars(s) + escaped_char(c),
    decreases s.len(),
{
    let t = s.push(c);
    if s.len() == 0 {
        assert(t.drop_first() =~= Seq::empty());
        assert(escaped_chars(t.drop_first()) =~= Seq::empty());
        assert(escaped_chars(t) =~= escaped_char(c));
        assert(escaped_chars(s) + escaped_char(c) =~= escaped_char(c));
    } else {
        escaped_push(s.drop_first(), c);
        assert(t.drop_first() =~= s.drop_first().push(c));
        assert(escaped_chars(t) =~= escaped_chars(s) + escaped_char(c));
    }
}

fn push_escaped(out: &mut String, c: char)
    ensures
        final(out)@ == old(out)@ + escaped_char(c),
{
    let ghost start = out@;
    if c == '"' {
        out.push('\\');
        out.push('"');
    } else if c == '\\' {
        out.push('\\');
        out.push('\\');
    } else if c == '\n' {
        out.push('\\');
        out.push('n');
    } else if c == '\r' {
        out.push('\\');
        out.push('r');
    } else if c == '\t' {
        out.push('\\');
        out.push('t');
    } else if c == '\u{8}' {
        out.push('\\');
        out.push('b');
    } else if c == '\u{c}' {
        out.push('\\');
        out.push('f');
    } else if (c as u32) < 0x20 {
        out.push('\\');
        out.push('u');
        out.push('0');
        out.push('0');
        out.push(digit_of((c as u32 / 16) as u8));
        out.push(digit_of((c as u32 % 16) as u8));
    } else {
        out.push(c);
    }
    assert(out@ =~= start + escaped_char(c));
}

/// Appends a string with its quotes, escaping what JSON asks for.
pub fn write_escaped(out: &mut String, s: &str)
    ensures
        final(out)@ == old(out)@ + escaped(s@),
{
    let ghost start = out@;
    out.push('"');
    let chars = chars_of(s);
    let mut i: usize = 0;
    assert(chars@.take(0) =~= Seq::empty());
    assert(out@ =~= start + (seq!['"'] + escaped_chars(chars@.take(0))));
    while i < chars.len()
        invariant
            i <= chars@.len(),
            out@ == start + (seq!['"'] + escaped_chars(chars@.take(i as int))),
        decreases chars@.len() - i,
    {
        push_escaped(out, chars[i]);
        proof {
            escaped_push(chars@.take(i as int), chars@[i as int]);
            assert(chars@.take(i + 1) =~= chars@.take(i as int).push(chars@[i as int]));
            assert(out@ =~= start + (seq!['"'] + escaped_chars(chars@.take(i + 1))));
        }
        i += 1;
    }
    assert(chars@.take(i as int) =~= s@);
    out.push('"');
    assert(out@ =~= start + escaped(s@));
}

/// The text of a number: an integer below 9·10^15 without a fraction part, the
/// shortest decimal otherwise.
pub open spec fn number_text(bits: u64) -> Seq<char> {
    let n = crate::decimal::integer_part(bits);
    if crate::decimal::integral(bits) && n < 9_000_000_000_000_000 {
        (if crate::decimal::f64_negative(bits) && n > 0 {
            "-"@
        } else {
            Seq::empty()
        }) + crate::text::decimal(n)
    } else {
        crate::shortest::display(bits)
    }
}

impl JsonView {
    /// The compact text of a value.
    pub open spec fn dumped(self) -> Seq<char>
        decreases self,
    {
        match self {
            JsonView::Null => "null"@,
            JsonView::Bool(b) => if b {
                "true"@
            } else {
                "false"@
            },
            JsonView::Num(n) => number_text(n),
            JsonView::Str(s) => escaped(s),
            JsonView::Arr(items) => seq!['['] + dumped_items(items) + seq![']'],
            JsonView::Obj(pairs) => seq!['{'] + dumped_members(pairs) + seq!['}'],
        }
    }
}

/// The texts of values, separated by commas.
pub open spec fn dumped_items(items: Seq<JsonView>) -> Seq<char>
    decreases items,
{
    if items.len() == 0 {
        Seq::empty()
    } else if items.len() == 1 {
        items[0].dumped()
    } else {
        dumped_items(items.drop_last()) + seq![','] + items.last().dumped()
    }
}

/// The texts of members, separated by commas.
pub open spec fn dumped_members(pairs: Seq<(Seq<char>, JsonView)>) -> Seq<char>
    decreases pairs,
{
    if pairs.len() == 0 {
        Seq::empty()
    } else if pairs.len() == 1 {
        escaped(pairs[0].0) + seq![':'] + pairs[0].1.dumped()
    } else {
        dumped_members(pairs.drop_last()) + seq![','] + (escaped(pairs.last().0) + seq![':']
            + pairs.last().1.dumped())
    }
}

fn write_number(out: &mut String, bits: u64)
    ensures
        final(out)@ == old(out)@ + number_text(bits),
{
    let ghost start = out@;
    match small_integer(bits) {
        Some(n) => {
            if bits >= 0x8000_0000_0000_0000 && n > 0 {
                out.push_str("-");
            }
            push_decimal(out, n);
            assert(out@ =~= start + number_text(bits));
        },
        None => {
            push_f64(out, bits);
        },
    }
}

impl Json {
    /// Compact JSON text.
    pub fn dump(&self) -> (r: String)
        ensures
            r@ == self@.dumped(),
    {
        let mut out = String::new();
        self.write(&mut out);
        assert(out@ =~= self@.dumped());
        out
    }

    /// Appends the compact text.
    fn write(&self, out: &mut String)
        ensures
            final(out)@ == old(out)@ + self@.dumped(),
        decreases self,
    {
        let ghost start = out@;
        match self {
            Json::Null => {
                out.push_str("null");
            },
            Json::Bool(b) => {
                out.push_str(if *b {
                    "true"
                } else {
                    "false"
                });
            },
            Json::Num(n) => {
                write_number(out, *n);
            },
            Json::Str(s) => {
                write_escaped(out, s.as_str());
            },
            Json::Arr(items) => {
                proof {
                    array_view(*items);
                }
                let ghost all = views(items@);
                out.push('[');
                let mut i: usize = 0;
                assert(out@ =~= start + seq!['['] + dumped_items(all.take(0)));
                while i < items.len()
                    invariant
                        all == views(items@),
                        i <= items@.len(),
                        out@ == start + seq!['['] + dumped_items(all.take(i as int)),
                        forall|k: int|
                            0 <= k < items@.len() ==> decreases_to!(self => #[trigger] items@[k]),
                    decreases items@.len() - i,
                {
                    let ghost before = out@;
                    if i > 0 {
                        out.push(',');
                    }
                    items[i].write(out);
                    proof {
                        assert(all.take(i + 1).drop_last() =~= all.take(i as int));
                        assert(all.take(i + 1).last() == items@[i as int]@);
                        assert(out@ =~= start + seq!['['] + dumped_items(all.take(i + 1)));
                    }
                    i += 1;
                }
                assert(all.take(i as int) =~= all);
                out.push(']');
                assert(out@ =~= start + self@.dumped());
            },
            Json::Obj(pairs) => {
                proof {
                    object_view(*pairs);
                }
                let ghost all = member_views(pairs@);
                out.push('{');
                let mut i: usize = 0;
                assert(out@ =~= start + seq!['{'] + dumped_members(all.take(0)));
                while i < pairs.len()
                    invariant
                        all == member_views(pairs@),
                        i <= pairs@.len(),
                        out@ == start + seq!['{'] + dumped_members(all.take(i as int)),
                        forall|k: int|
                            0 <= k < pairs@.len() ==> decreases_to!(self => (#[trigger] pairs@[k]).1),
                    decreases pairs@.len() - i,
                {
                    let ghost before = out@;
                    if i > 0 {
                        out.push(',');
                    }
                    let pair = &pairs[i];
                    write_escaped(out, pair.0.as_str());
                    out.push(':');
                    pair.1.write(out);
                    proof {
                        assert(all.take(i + 1).drop_last() =~= all.take(i as int));
                        assert(all.take(i + 1).last() == (pair.0@, pair.1@));
                        assert(out@ =~= start + seq!['{'] + dumped_members(all.take(i + 1)));
                    }
                    i += 1;
                }
                assert(all.take(i as int) =~= all);
                out.push('}');
                assert(out@ =~= start + self@.dumped());
            },
        }
    }
}

// ── laws ──

/// A member is found by its name; of several with the same name the first counts.
pub proof fn members_are_found_by_name(pairs: Seq<(Seq<char>, JsonView)>, key: Seq<char>)
    ensures
        match JsonView::Obj(pairs).get(key) {
            Some(v) => exists|k: int|
                {
                    &&& 0 <= k < pairs.len()
                    &&& #[trigger] pairs[k] == (key, v)
                    &&& forall|j: int| 0 <= j < k ==> (#[trigger] pairs[j]).0 != key
                },
            None => forall|j: int| 0 <= j < pairs.len() ==> (#[trigger] pairs[j]).0 != key,
        },
    decreases pairs.len(),
{
    if pairs.len() > 0 {
        if pairs[0].0 == key {
            assert(pairs[0] == (key, pairs[0].1));
        } else {
            let rest = pairs.drop_first();
            members_are_found_by_name(rest, key);
            match JsonView::Obj(rest).get(key) {
                Some(v) => {
                    let k = choose|k: int|
                        {
                            &&& 0 <= k < rest.len()
                            &&& #[trigger] rest[k] == (key, v)
                            &&& forall|j: int| 0 <= j < k ==> (#[trigger] rest[j]).0 != key
                        };
                    assert(pairs[k + 1] == (key, v));
                    assert forall|j: int| 0 <= j < k + 1 implies (#[trigger] pairs[j]).0
                        != key by {
                        if j > 0 {
                            assert(rest[j - 1] == pairs[j]);
                        }
                    }
                },
                None => {
                    assert forall|j: int| 0 <= j < pairs.len() implies (#[trigger] pairs[j]).0
                        != key by {
                        if j > 0 {
                            assert(rest[j - 1] == pairs[j]);
                        }
                    }
                },
            }
        }
    }
}

} // verus!
