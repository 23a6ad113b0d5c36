//! GGUF metadata values: a byte cursor over the header region and the thirteen
//! value types of the format, all materialized.
//!
//! Type codes: 0=u8, 1=i8, 2=u16, 3=i16, 4=u32, 5=i32, 6=f32, 7=bool, 8=string,
//! 9=array, 10=u64, 11=i64, 12=f64. Floats are kept as their bit patterns.

use vstd::prelude::*;
use vstd::utf8::*;

use crate::decimal::narrow;
use crate::text::{push_decimal, string_from_utf8};

verus! {

// ── errors ──

/// What can go wrong while reading a GGUF file.
#[derive(Debug, PartialEq, Eq)]
pub enum GgufError {
    BadMagic,
    UnsupportedVersion(u32),
    Truncated { expected: usize, found: usize },
    BadType(u32),
    BadTensor(String),
    TensorNotFound(String),
}

/// Mathematical view of [`GgufError`].
pub enum GgufErrorView {
    BadMagic,
    UnsupportedVersion(u32),
    Truncated { expected: nat, found: nat },
    BadType(u32),
    BadTensor(Seq<char>),
    TensorNotFound(Seq<char>),
}

impl View for GgufError {
    type V = GgufErrorView;

    open spec fn view(&self) -> GgufErrorView {
        match self {
            GgufError::BadMagic => GgufErrorView::BadMagic,
            GgufError::UnsupportedVersion(v) => GgufErrorView::UnsupportedVersion(*v),
            GgufError::Truncated { expected, found } => GgufErrorView::Truncated {
                expected: *expected as nat,
                found: *found as nat,
            },
            GgufError::BadType(t) => GgufErrorView::BadType(*t),
            GgufError::BadTensor(s) => GgufErrorView::BadTensor(s@),
            GgufError::TensorNotFound(s) => GgufErrorView::TensorNotFound(s@),
        }
    }
}

impl GgufErrorView {
    /// The text shown to the user.
    pub open spec fn text(self) -> Seq<char> {
        match self {
            GgufErrorView::BadMagic => "bad magic (expected GGUF)"@,
            GgufErrorView::UnsupportedVersion(v) => "unsupported GGUF version "@
                + crate::text::decimal(v as nat) + " (attesa 2 o 3)"@,
            GgufErrorView::Truncated { expected, found } => "truncated data (attesi "@
                + crate::text::decimal(expected) + " byte, trovati "@
                + crate::text::decimal(found) + ")"@,
            GgufErrorView::BadType(t) => "bad value type "@ + crate::text::decimal(t as nat),
            GgufErrorView::BadTensor(s) => "bad tensor: "@ + s,
            GgufErrorView::TensorNotFound(s) => "tensor not found: "@ + s,
        }
    }
}

impl GgufError {
    /// The text shown to the user.
    pub fn message(&self) -> (r: String)
        ensures
            r@ == self@.text(),
    {
        let mut out = String::new();
        match self {
            GgufError::BadMagic => {
                out.push_str("bad magic (expected GGUF)");
            },
            GgufError::UnsupportedVersion(v) => {
                out.push_str("unsupported GGUF version ");
                push_decimal(&mut out, *v as u64);
                out.push_str(" (attesa 2 o 3)");
            },
            GgufError::Truncated { expected, found } => {
                out.push_str("truncated data (attesi ");
                push_decimal(&mut out, *expected as u64);
                out.push_str(" byte, trovati ");
                push_decimal(&mut out, *found as u64);
                out.push_str(")");
            },
            GgufError::BadType(t) => {
                out.push_str("bad value type ");
                push_decimal(&mut out, *t as u64);
            },
            GgufError::BadTensor(s) => {
                out.push_str("bad tensor: ");
                out.push_str(s.as_str());
            },
            GgufError::TensorNotFound(s) => {
                out.push_str("tensor not found: ");
                out.push_str(s.as_str());
            },
        }
        assert(out@ =~= self@.text());
        out
    }
}

// ── values ──

/// A metadata value.
#[derive(Debug, PartialEq)]
pub enum GgufValue {
    U8(u8),
    I8(i8),
    U16(u16),
    I16(i16),
    U32(u32),
    I32(i32),
    /// Bit pattern of an f32.
    F32(u32),
    Bool(bool),
    String(String),
    Array(Vec<GgufValue>),
    U64(u64),
    I64(i64),
    /// Bit pattern of an f64.
    F64(u64),
}

/// Mathematical view of [`GgufValue`].
pub enum GgufValueView {
    U8(u8),
    I8(i8),
    U16(u16),
    I16(i16),
    U32(u32),
    I32(i32),
    F32(u32),
    Bool(bool),
    String(Seq<char>),
    Array(Seq<GgufValueView>),
    U64(u64),
    I64(i64),
    F64(u64),
}

impl GgufValue {
    /// The value, with strings and lists as sequences.
    pub open spec fn model(self) -> GgufValueView
        decreases self,
    {
        match self {
            GgufValue::U8(v) => GgufValueView::U8(v),
            GgufValue::I8(v) => GgufValueView::I8(v),
            GgufValue::U16(v) => GgufValueView::U16(v),
            GgufValue::I16(v) => GgufValueView::I16(v),
            GgufValue::U32(v) => GgufValueView::U32(v),
            GgufValue::I32(v) => GgufValueView::I32(v),
            GgufValue::F32(v) => GgufValueView::F32(v),
            GgufValue::Bool(v) => GgufValueView::Bool(v),
            GgufValue::String(s) => GgufValueView::String(s@),
            GgufValue::Array(items) => GgufValueView::Array(
                Seq::new(
                    items@.len(),
                    |i: int|
                        if 0 <= i < items@.len() {
                            items@[i].model()
                        } else {
                            GgufValueView::U8(0)
                        },
                ),
            ),
            GgufValue::U64(v) => GgufValueView::U64(v),
            GgufValue::I64(v) => GgufValueView::I64(v),
            GgufValue::F64(v) => GgufValueView::F64(v),
        }
    }
}

impl View for GgufValue {
    type V = GgufValueView;

    open spec fn view(&self) -> GgufValueView {
        self.model()
    }
}

impl GgufValueView {
    /// The number held by a value of an integer type.
    pub open spec fn integer(self) -> Option<int> {
        match self {
            GgufValueView::U8(v) => Some(v as int),
            GgufValueView::I8(v) => Some(v as int),
            GgufValueView::U16(v) => Some(v as int),
            GgufValueView::I16(v) => Some(v as int),
            GgufValueView::U32(v) => Some(v as int),
            GgufValueView::I32(v) => Some(v as int),
            GgufValueView::U64(v) => Some(v as int),
            GgufValueView::I64(v) => Some(v as int),
            _ => None,
        }
    }
}

/// The views of a list of values.
pub open spec fn views(items: Seq<GgufValue>) -> Seq<GgufValueView> {
    Seq::new(items.len(), |i: int| items[i]@)
}

/// The view of an array is made of the views of its items.
pub proof fn array_view(items: Vec<GgufValue>)
    ensures
        GgufValue::Array(items)@ == GgufValueView::Array(views(items@)),
{
    assert(GgufValue::Array(items)@->Array_0 =~= views(items@));
}

impl Clone for GgufValue {
    fn clone(&self) -> (r: Self)
        ensures
            r@ == self@,
        decreases self,
    {
        match self {
            GgufValue::U8(v) => GgufValue::U8(*v),
            GgufValue::I8(v) => GgufValue::I8(*v),
            GgufValue::U16(v) => GgufValue::U16(*v),
            GgufValue::I16(v) => GgufValue::I16(*v),
            GgufValue::U32(v) => GgufValue::U32(*v),
            GgufValue::I32(v) => GgufValue::I32(*v),
            GgufValue::F32(v) => GgufValue::F32(*v),
            GgufValue::Bool(v) => GgufValue::Bool(*v),
            GgufValue::String(s) => GgufValue::String(s.clone()),
            GgufValue::Array(items) => {
                let mut out: Vec<GgufValue> = Vec::new();
                let mut i: usize = 0;
                while i < items.len()
                    invariant
                        i <= items@.len(),
                        forall|k: int|
                            0 <= k < items@.len() ==> decreases_to!(self => #[trigger] items@[k]),
                        views(out@) == views(items@).take(i as int),
                    decreases items@.len() - i,
                {
                    let ghost before = views(out@);
                    let item = &items[i];
                    let copy = item.clone();
                    let ghost w = copy@;
                    out.push(copy);
                    i += 1;
                    assert(views(out@) =~= before.push(w));
                    assert(views(out@) =~= views(items@).take(i as int));
                }
                proof {
                    assert(views(items@).take(i as int) =~= views(items@));
                    array_view(*items);
                    array_view(out);
                }
                GgufValue::Array(out)
            },
            GgufValue::U64(v) => GgufValue::U64(*v),
            GgufValue::I64(v) => GgufValue::I64(*v),
            GgufValue::F64(v) => GgufValue::F64(*v),
        }
    }
}

/// Largest element count accepted for an array: vocabularies are large, but a
/// bigger count means a corrupted file.
pub const MAX_ARRAY: u64 = 100_000_000;

// ── reading, as a function of the bytes and the position ──

/// Outcome of reading something at a position: the value and the position
/// after it, or the error.
pub type Read<T> = Result<(T, int), GgufErrorView>;

/// The number that the bytes spell, least significant byte first.
pub open spec fn little_endian(bytes: Seq<u8>) -> nat
    decreases bytes.len(),
{
    if bytes.len() == 0 {
        0
    } else {
        bytes[0] as nat + 256 * little_endian(bytes.drop_first())
    }
}

/// Reads `n` bytes.
pub open spec fn bytes_at(b: Seq<u8>, pos: int, n: nat) -> Read<Seq<u8>> {
    if pos + n > b.len() {
        Err(GgufErrorView::Truncated { expected: n, found: (b.len() - pos) as nat })
    } else {
        Ok((b.subrange(pos, pos + n), pos + n))
    }
}

/// Reads a little-endian number of `n` bytes.
pub open spec fn number_at(b: Seq<u8>, pos: int, n: nat) -> Read<nat> {
    match bytes_at(b, pos, n) {
        Ok((s, p)) => Ok((little_endian(s), p)),
        Err(e) => Err(e),
    }
}

/// Reads a length-prefixed UTF-8 string.
pub open spec fn string_at(b: Seq<u8>, pos: int) -> Read<Seq<char>> {
    match number_at(b, pos, 8) {
        Err(e) => Err(e),
        Ok((len, p)) => match bytes_at(b, p, (len as usize) as nat) {
            Err(e) => Err(e),
            Ok((s, q)) => if valid_utf8(s) {
                Ok((decode_utf8(s), q))
            } else {
                Err(GgufErrorView::BadTensor("stringa non utf8"@))
            },
        },
    }
}

/// Reads a value of the type with code `vt`.
pub open spec fn value_at(b: Seq<u8>, pos: int, vt: u32) -> Read<GgufValueView>
    decreases b.len() - pos, 0nat,
{
    if vt == 8 {
        match string_at(b, pos) {
            Ok((s, p)) => Ok((GgufValueView::String(s), p)),
            Err(e) => Err(e),
        }
    } else if vt == 9 {
        match number_at(b, pos, 4) {
            Err(e) => Err(e),
            Ok((et, p)) => match number_at(b, p, 8) {
                Err(e) => Err(e),
                Ok((n, q)) => if n > MAX_ARRAY {
                    Err(GgufErrorView::BadTensor("array con count "@ + crate::text::decimal(n)))
                } else {
                    match items_at(b, q, et as u32, n) {
                        Ok((v, r)) => Ok((GgufValueView::Array(v), r)),
                        Err(e) => Err(e),
                    }
                },
            },
        }
    } else {
        match scalar_width(vt) {
            None => Err(GgufErrorView::BadType(vt)),
            Some(n) => match number_at(b, pos, n) {
                Ok((x, p)) => Ok((scalar(vt, x), p)),
                Err(e) => Err(e),
            },
        }
    }
}

/// Reads `n` values of the type with code `vt`, one after the other.
pub open spec fn items_at(b: Seq<u8>, pos: int, vt: u32, n: nat) -> Read<Seq<GgufValueView>>
    decreases b.len() - pos, n + 1,
{
    if n == 0 {
        Ok((Seq::empty(), pos))
    } else {
        match value_at(b, pos, vt) {
            Err(e) => Err(e),
            Ok((v, p)) => if pos <= p <= b.len() {
                match items_at(b, p, vt, (n - 1) as nat) {
                    Ok((rest, q)) => Ok((seq![v] + rest, q)),
                    Err(e) => Err(e),
                }
            } else {
                Ok((seq![v], p))
            },
        }
    }
}

/// Where reading a string comes to a stop: after its bytes, or after its length
/// where the bytes are missing, or where it began where the length is missing too.
pub open spec fn string_stop(b: Seq<u8>, pos: int) -> int {
    match number_at(b, pos, 8) {
        Err(_) => pos,
        Ok((len, p)) => match bytes_at(b, p, (len as usize) as nat) {
            Err(_) => p,
            Ok((_, q)) => q,
        },
    }
}

/// Where reading a value comes to a stop when it fails: the fixed-width types and
/// the codes without a type leave the position alone, an array is left at the part
/// that could not be read.
pub open spec fn value_stop(b: Seq<u8>, pos: int, vt: u32) -> int
    decreases b.len() - pos, 0nat,
{
    if vt == 8 {
        string_stop(b, pos)
    } else if vt == 9 {
        match number_at(b, pos, 4) {
            Err(_) => pos,
            Ok((et, p)) => match number_at(b, p, 8) {
                Err(_) => p,
                Ok((n, q)) => if n > MAX_ARRAY {
                    q
                } else {
                    items_stop(b, q, et as u32, n)
                },
            },
        }
    } else {
        pos
    }
}

/// Where reading `n` values comes to a stop when it fails: at the first of them
/// that cannot be read.
pub open spec fn items_stop(b: Seq<u8>, pos: int, vt: u32, n: nat) -> int
    decreases b.len() - pos, n + 1,
{
    if n == 0 {
        pos
    } else {
        match value_at(b, pos, vt) {
            Err(_) => value_stop(b, pos, vt),
            Ok((_, p)) => if pos <= p <= b.len() {
                items_stop(b, p, vt, (n - 1) as nat)
            } else {
                p
            },
        }
    }
}

/// Bytes taken by a value of a fixed-width type.
pub open spec fn scalar_width(vt: u32) -> Option<nat> {
    if vt == 0 || vt == 1 || vt == 7 {
        Some(1)
    } else if vt == 2 || vt == 3 {
        Some(2)
    } else if vt == 4 || vt == 5 || vt == 6 {
        Some(4)
    } else if vt == 10 || vt == 11 || vt == 12 {
        Some(8)
    } else {
        None
    }
}

/// The value that a fixed-width number stands for; signed types are in two's
/// complement.
pub open spec fn scalar(vt: u32, x: nat) -> GgufValueView {
    if vt == 0 {
        GgufValueView::U8(x as u8)
    } else if vt == 1 {
        GgufValueView::I8((if x < 0x80 { x as int } else { x - 0x100 }) as i8)
    } else if vt == 2 {
        GgufValueView::U16(x as u16)
    } else if vt == 3 {
        GgufValueView::I16((if x < 0x8000 { x as int } else { x - 0x1_0000 }) as i16)
    } else if vt == 4 {
        GgufValueView::U32(x as u32)
    } else if vt == 5 {
        GgufValueView::I32((if x < 0x8000_0000 { x as int } else { x - 0x1_0000_0000 }) as i32)
    } else if vt == 6 {
        GgufValueView::F32(x as u32)
    } else if vt == 7 {
        GgufValueView::Bool(x != 0)
    } else if vt == 10 {
        GgufValueView::U64(x as u64)
    } else if vt == 11 {
        GgufValueView::I64(
            (if x < 0x8000_0000_0000_0000 { x as int } else { x - 0x1_0000_0000_0000_0000 }) as i64,
        )
    } else {
        GgufValueView::F64(x as u64)
    }
}

/// Reading never moves backwards nor past the end.
pub proof fn value_at_advances(b: Seq<u8>, pos: int, vt: u32)
    requires
        0 <= pos <= b.len(),
    ensures
        value_at(b, pos, vt) matches Ok((_, p)) ==> pos < p <= b.len(),
    decreases b.len() - pos, 0nat,
{
    if vt == 9 {
        if let Ok((et, p)) = number_at(b, pos, 4) {
            if let Ok((n, q)) = number_at(b, p, 8) {
                items_at_advances(b, q, et as u32, n);
            }
        }
    }
}

/// Reading a list never moves backwards nor past the end.
pub proof fn items_at_advances(b: Seq<u8>, pos: int, vt: u32, n: nat)
    requires
        0 <= pos <= b.len(),
    ensures
        items_at(b, pos, vt, n) matches Ok((_, p)) ==> pos <= p <= b.len(),
    decreases b.len() - pos, n + 1,
{
    if n > 0 {
        value_at_advances(b, pos, vt);
        if let Ok((_, p)) = value_at(b, pos, vt) {
            items_at_advances(b, p, vt, (n - 1) as nat);
        }
    }
}

// ── cursor ──

/// Read position over the header region of a file.
pub struct Cursor<'a> {
    buf: &'a [u8],
    pos: usize,
}

impl<'a> Cursor<'a> {
    /// The bytes under the cursor.
    pub closed spec fn bytes(&self) -> Seq<u8> {
        self.buf@
    }

    /// The position.
    pub closed spec fn at(&self) -> nat {
        self.pos as nat
    }

    /// The position lies within the bytes.
    pub open spec fn wf(&self) -> bool {
        self.at() <= self.bytes().len() <= usize::MAX
    }

    /// A cursor at the start of `buf`.
    pub fn new(buf: &'a [u8]) -> (r: Self)
        ensures
            r.wf(),
            r.bytes() == buf@,
            r.at() == 0,
    {
        proof {
            assert(buf@.len() == buf.len());
        }
        Cursor { buf, pos: 0 }
    }

    /// The current position.
    pub fn pos(&self) -> (r: usize)
        ensures
            r == self.at(),
    {
        self.pos
    }

    /// Reads `n` bytes; the cursor stays where it was when there are fewer.
    pub fn take(&mut self, n: usize) -> (r: Result<&'a [u8], GgufError>)
        requires
            old(self).wf(),
        ensures
            final(self).wf(),
            final(self).bytes() == old(self).bytes(),
            match bytes_at(old(self).bytes(), old(self).at() as int, n as nat) {
                Ok((s, p)) => r matches Ok(x) && x@ == s && final(self).at() == p,
                Err(e) => r matches Err(x) && x@ == e && final(self).at() == old(self).at(),
            },
    {
        let left = self.buf.len() - self.pos;
        if n > left {
            return Err(GgufError::Truncated { expected: n, found: left });
        }
        let s = vstd::slice::slice_subrange(self.buf, self.pos, self.pos + n);
        self.pos = self.pos + n;
        Ok(s)
    }

    /// Reads one byte; the cursor stays where it was when it cannot.
    pub fn read_u8(&mut self) -> (r: Result<u8, GgufError>)
        requires
            old(self).wf(),
        ensures
            final(self).wf(),
            final(self).bytes() == old(self).bytes(),
            match number_at(old(self).bytes(), old(self).at() as int, 1) {
                Ok((x, p)) => r matches Ok(v) && v == x && final(self).at() == p,
                Err(e) => r matches Err(x) && x@ == e && final(self).at() == old(self).at(),
            },
    {
        let s = self.take(1)?;
        proof {
            reveal_with_fuel(little_endian, 2);
        }
        Ok(s[0])
    }

    /// Reads a 16-bit number; the cursor stays where it was when it cannot.
    pub fn read_u16(&mut self) -> (r: Result<u16, GgufError>)
        requires
            old(self).wf(),
        ensures
            final(self).wf(),
            final(self).bytes() == old(self).bytes(),
            match number_at(old(self).bytes(), old(self).at() as int, 2) {
                Ok((x, p)) => r matches Ok(v) && v == x && final(self).at() == p,
                Err(e) => r matches Err(x) && x@ == e && final(self).at() == old(self).at(),
            },
    {
        let s = self.take(2)?;
        proof {
            reveal_with_fuel(little_endian, 3);
        }
        Ok(s[0] as u16 + 0x100 * (s[1] as u16))
    }

    /// Reads a 32-bit number; the cursor stays where it was when it cannot.
    pub fn read_u32(&mut self) -> (r: Result<u32, GgufError>)
        requires
            old(self).wf(),
        ensures
            final(self).wf(),
            final(self).bytes() == old(self).bytes(),
            match number_at(old(self).bytes(), old(self).at() as int, 4) {
                Ok((x, p)) => r matches Ok(v) && v == x && final(self).at() == p,
                Err(e) => r matches Err(x) && x@ == e && final(self).at() == old(self).at(),
            },
    {
        let s = self.take(4)?;
        proof {
            reveal_with_fuel(little_endian, 5);
        }
        Ok(
            s[0] as u32 + 0x100 * (s[1] as u32) + 0x1_0000 * (s[2] as u32) + 0x100_0000 * (
            s[3] as u32),
        )
    }

    /// Reads a 64-bit number; the cursor stays where it was when it cannot.
    pub fn read_u64(&mut self) -> (r: Result<u64, GgufError>)
        requires
            old(self).wf(),
        ensures
            final(self).wf(),
            final(self).bytes() == old(self).bytes(),
            match number_at(old(self).bytes(), old(self).at() as int, 8) {
                Ok((x, p)) => r matches Ok(v) && v == x && final(self).at() == p,
                Err(e) => r matches Err(x) && x@ == e && final(self).at() == old(self).at(),
            },
    {
        let s = self.take(8)?;
        proof {
            reveal_with_fuel(little_endian, 9);
        }
        let lo: u64 = s[0] as u64 + 0x100 * (s[1] as u64) + 0x1_0000 * (s[2] as u64) + 0x100_0000
            * (s[3] as u64);
        let hi: u64 = s[4] as u64 + 0x100 * (s[5] as u64) + 0x1_0000 * (s[6] as u64) + 0x100_0000
            * (s[7] as u64);
        Ok(lo + 0x1_0000_0000 * hi)
    }

    /// Reads a length-prefixed UTF-8 string. On an error the cursor is left after
    /// what could be read: nothing, the length, or the bytes that are not UTF-8.
    pub fn read_string(&mut self) -> (r: Result<String, GgufError>)
        requires
            old(self).wf(),
        ensures
            final(self).wf(),
            final(self).bytes() == old(self).bytes(),
            match string_at(old(self).bytes(), old(self).at() as int) {
                Ok((x, p)) => r matches Ok(v) && v@ == x && final(self).at() == p,
                Err(e) => r matches Err(x) && x@ == e && final(self).at() == string_stop(
                    old(self).bytes(),
                    old(self).at() as int,
                ),
            },
    {
        let len = self.read_u64()? as usize;
        let s = self.take(len)?;
        match string_from_utf8(vstd::slice::slice_to_vec(s)) {
            Some(v) => Ok(v),
            None => Err(GgufError::BadTensor("stringa non utf8".to_owned())),
        }
    }
}

impl GgufValue {
    /// Reads a value of the type with code `vt` at the cursor. A code without a type
    /// leaves the cursor where it was.
    pub fn read(c: &mut Cursor, vt: u32) -> (r: Result<GgufValue, GgufError>)
        requires
            old(c).wf(),
        ensures
            final(c).wf(),
            final(c).bytes() == old(c).bytes(),
            match value_at(old(c).bytes(), old(c).at() as int, vt) {
                Ok((x, p)) => r matches Ok(v) && v@ == x && final(c).at() == p,
                Err(e) => r matches Err(x) && x@ == e && final(c).at() == value_stop(
                    old(c).bytes(),
                    old(c).at() as int,
                    vt,
                ),
            },
        decreases old(c).bytes().len() - old(c).at(),
    {
        let ghost b = c.bytes();
        let ghost pos = c.at() as int;
        match vt {
            0 => Ok(GgufValue::U8(c.read_u8()?)),
            1 => {
                let x: u8 = c.read_u8()?;
                assert((if x < 0x80 { x as int } else { x - 0x100 }) == x as i8) by (bit_vector);
                Ok(GgufValue::I8(x as i8))
            },
            2 => Ok(GgufValue::U16(c.read_u16()?)),
            3 => {
                let x: u16 = c.read_u16()?;
                assert((if x < 0x8000 { x as int } else { x - 0x1_0000 }) == x as i16)
                    by (bit_vector);
                Ok(GgufValue::I16(x as i16))
            },
            4 => Ok(GgufValue::U32(c.read_u32()?)),
            5 => {
                let x: u32 = c.read_u32()?;
                assert((if x < 0x8000_0000 { x as int } else { x - 0x1_0000_0000 }) == x as i32)
                    by (bit_vector);
                Ok(GgufValue::I32(x as i32))
            },
            6 => Ok(GgufValue::F32(c.read_u32()?)),
            7 => Ok(GgufValue::Bool(c.read_u8()? != 0)),
            8 => Ok(GgufValue::String(c.read_string()?)),
            9 => {
                let elem_type: u32 = c.read_u32()?;
                let n: u64 = c.read_u64()?;
                if n > MAX_ARRAY {
                    let mut msg = String::new();
                    msg.push_str("array con count ");
                    push_decimal(&mut msg, n);
                    assert(msg@ =~= "array con count "@ + crate::text::decimal(n as nat));
                    return Err(GgufError::BadTensor(msg));
                }
                let ghost start = c.at() as int;
                let ghost all = items_at(b, start, elem_type, n as nat);
                let mut items: Vec<GgufValue> = Vec::new();
                let mut i: u64 = 0;
                while i < n
                    invariant
                        i <= n,
                        c.wf(),
                        c.bytes() == b,
                        b == old(c).bytes(),
                        pos == old(c).at(),
                        pos < start <= c.at(),
                        all == items_at(b, start, elem_type, n as nat),
                        all == (match items_at(b, c.at() as int, elem_type, (n - i) as nat) {
                            Ok((rest, q)) => Ok((views(items@) + rest, q)),
                            Err(e) => Err(e),
                        }),
                        vt == 9,
                        value_stop(b, pos, vt) == items_stop(
                            b,
                            c.at() as int,
                            elem_type,
                            (n - i) as nat,
                        ),
                        value_at(b, pos, vt) == (match all {
                            Ok((v, q)) => Ok((GgufValueView::Array(v), q)),
                            Err(e) => Err(e),
                        }),
                    decreases n - i,
                {
                    let ghost here = c.at() as int;
                    let ghost before = items@;
                    proof {
                        value_at_advances(b, here, elem_type);
                    }
                    let item = GgufValue::read(c, elem_type)?;
                    let ghost w = item@;
                    items.push(item);
                    i += 1;
                    proof {
                        assert(views(items@) =~= views(before).push(w));
                        let rest = items_at(b, c.at() as int, elem_type, (n - i) as nat);
                        if let Ok((rs, _)) = rest {
                            assert(views(before) + (seq![w] + rs) =~= views(items@) + rs);
                        }
                    }
                }
                proof {
                    assert(views(items@) + Seq::<GgufValueView>::empty() =~= views(items@));
                    array_view(items);
                }
                Ok(GgufValue::Array(items))
            },
            10 => Ok(GgufValue::U64(c.read_u64()?)),
            11 => {
                let x: u64 = c.read_u64()?;
                assert((if x < 0x8000_0000_0000_0000 { x as int } else {
                    x - 0x1_0000_0000_0000_0000
                }) == x as i64) by (bit_vector);
                Ok(GgufValue::I64(x as i64))
            },
            12 => Ok(GgufValue::F64(c.read_u64()?)),
            other => Err(GgufError::BadType(other)),
        }
    }

    /// The value as an unsigned number, for sizes and counts; negative numbers
    /// keep their two's complement pattern.
    pub fn as_u64(&self) -> (r: Option<u64>)
        ensures
            match self@.integer() {
                Some(n) => r matches Some(v) && v == (if n < 0 { n + 0x1_0000_0000_0000_0000 } else {
                    n
                }),
                None => r is None,
            },
    {
        match self {
            GgufValue::U8(v) => Some(*v as u64),
            GgufValue::I8(v) => Some(unsigned(*v as i64)),
            GgufValue::U16(v) => Some(*v as u64),
            GgufValue::I16(v) => Some(unsigned(*v as i64)),
            GgufValue::U32(v) => Some(*v as u64),
            GgufValue::I32(v) => Some(unsigned(*v as i64)),
            GgufValue::U64(v) => Some(*v),
            GgufValue::I64(v) => Some(unsigned(*v)),
            _ => None,
        }
    }

    /// The text of a string value.
    pub fn as_str(&self) -> (r: Option<&str>)
        ensures
            match self@ {
                GgufValueView::String(s) => r matches Some(t) && t@ == s,
                _ => r is None,
            },
    {
        match self {
            GgufValue::String(s) => Some(s.as_str()),
            _ => None,
        }
    }

    /// The value as the bit pattern of an f32; a double is narrowed.
    pub fn as_f32(&self) -> (r: Option<u32>)
        ensures
            match self@ {
                GgufValueView::F32(v) => r == Some(v),
                GgufValueView::F64(v) => r matches Some(x) && x == crate::decimal::narrowed(v),
                _ => r is None,
            },
    {
        match self {
            GgufValue::F32(v) => Some(*v),
            GgufValue::F64(v) => Some(narrow(*v)),
            _ => None,
        }
    }
}

/// The unsigned number with the same 64-bit pattern.
fn unsigned(v: i64) -> (r: u64)
    ensures
        r == (if v < 0 { v + 0x1_0000_0000_0000_0000 } else { v as int }),
{
    assert((v as u64) == (if v < 0 { v + 0x1_0000_0000_0000_0000 } else { v as int }))
        by (bit_vector);
    v as u64
}

/// Integers of every width, with or without a sign, hold their number; other values hold
/// none.
pub proof fn integers_hold_their_number(n: int)
    ensures
        0 <= n <= u8::MAX ==> GgufValueView::U8(n as u8).integer() == Some(n),
        i8::MIN <= n <= i8::MAX ==> GgufValueView::I8(n as i8).integer() == Some(n),
        0 <= n <= u16::MAX ==> GgufValueView::U16(n as u16).integer() == Some(n),
        i16::MIN <= n <= i16::MAX ==> GgufValueView::I16(n as i16).integer() == Some(n),
        0 <= n <= u32::MAX ==> GgufValueView::U32(n as u32).integer() == Some(n),
        i32::MIN <= n <= i32::MAX ==> GgufValueView::I32(n as i32).integer() == Some(n),
        0 <= n <= u64::MAX ==> GgufValueView::U64(n as u64).integer() == Some(n),
        i64::MIN <= n <= i64::MAX ==> GgufValueView::I64(n as i64).integer() == Some(n),
{
}

} // verus!
