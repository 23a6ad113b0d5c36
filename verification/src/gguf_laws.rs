//! Reading back what was written: a GGUF file gives the metadata and the tensor table
//! that were put in it.

use vstd::prelude::*;
use vstd::utf8::*;

use crate::ggml::GgmlType;
use crate::gguf::{GgufFileView, GgufHeader, Pair, TensorInfoView};
use crate::value::{GgufErrorView, GgufValueView};

verus! {

// ── what is written ──

/// The lowest `n` bytes of a number, least significant first.
pub open spec fn number(x: nat, n: nat) -> Seq<u8>
    decreases n,
{
    if n == 0 {
        Seq::empty()
    } else {
        seq![(x % 256) as u8] + number(x / 256, (n - 1) as nat)
    }
}

/// A string behind its length in bytes.
pub open spec fn string(s: Seq<char>) -> Seq<u8> {
    number(encode_utf8(s).len(), 8) + encode_utf8(s)
}

/// The type code of a value.
pub open spec fn code(v: GgufValueView) -> nat {
    match v {
        GgufValueView::U8(_) => 0,
        GgufValueView::I8(_) => 1,
        GgufValueView::U16(_) => 2,
        GgufValueView::I16(_) => 3,
        GgufValueView::U32(_) => 4,
        GgufValueView::I32(_) => 5,
        GgufValueView::F32(_) => 6,
        GgufValueView::Bool(_) => 7,
        GgufValueView::String(_) => 8,
        GgufValueView::Array(_) => 9,
        GgufValueView::U64(_) => 10,
        GgufValueView::I64(_) => 11,
        GgufValueView::F64(_) => 12,
    }
}

/// Two's complement of `bits` bits.
pub open spec fn unsigned(x: int, modulus: int) -> nat {
    if x < 0 {
        (x + modulus) as nat
    } else {
        x as nat
    }
}

/// The bytes of a value. An array names the type of its items and their number.
pub open spec fn value(v: GgufValueView) -> Seq<u8>
    decreases v,
{
    match v {
        GgufValueView::U8(x) => number(x as nat, 1),
        GgufValueView::I8(x) => number(unsigned(x as int, 0x100), 1),
        GgufValueView::U16(x) => number(x as nat, 2),
        GgufValueView::I16(x) => number(unsigned(x as int, 0x1_0000), 2),
        GgufValueView::U32(x) => number(x as nat, 4),
        GgufValueView::I32(x) => number(unsigned(x as int, 0x1_0000_0000), 4),
        GgufValueView::F32(x) => number(x as nat, 4),
        GgufValueView::Bool(x) => number(
            if x {
                1
            } else {
                0
            },
            1,
        ),
        GgufValueView::String(s) => string(s),
        GgufValueView::Array(items) => number(
            if items.len() > 0 {
                code(items[0])
            } else {
                0
            },
            4,
        ) + number(items.len(), 8) + values(items),
        GgufValueView::U64(x) => number(x as nat, 8),
        GgufValueView::I64(x) => number(unsigned(x as int, 0x1_0000_0000_0000_0000), 8),
        GgufValueView::F64(x) => number(x as nat, 8),
    }
}

/// The bytes of values, one after the other.
pub open spec fn values(items: Seq<GgufValueView>) -> Seq<u8>
    decreases items,
{
    if items.len() == 0 {
        Seq::empty()
    } else {
        value(items[0]) + values(items.drop_first())
    }
}

/// The bytes of metadata entries: key, type code, value.
pub open spec fn pairs(items: Seq<Pair>) -> Seq<u8>
    decreases items.len(),
{
    if items.len() == 0 {
        Seq::empty()
    } else {
        string(items[0].0) + number(code(items[0].1), 4) + value(items[0].1) + pairs(
            items.drop_first(),
        )
    }
}

/// The bytes of dimensions.
pub open spec fn dims(items: Seq<u64>) -> Seq<u8>
    decreases items.len(),
{
    if items.len() == 0 {
        Seq::empty()
    } else {
        number(items[0] as nat, 8) + dims(items.drop_first())
    }
}

/// The bytes of an entry of the tensor table: name, dimensions, type, offset.
pub open spec fn tensor(t: TensorInfoView) -> Seq<u8> {
    string(t.name) + number(t.dims.len(), 4) + dims(t.dims) + number(t.ggml_type.code() as nat, 4)
        + number(t.offset as nat, 8)
}

/// The bytes of the tensor table.
pub open spec fn tensors(items: Seq<TensorInfoView>) -> Seq<u8>
    decreases items.len(),
{
    if items.len() == 0 {
        Seq::empty()
    } else {
        tensor(items[0]) + tensors(items.drop_first())
    }
}

/// Everything before the data section: the letters `GGUF`, the version, the two counts,
/// the metadata and the tensor table.
pub open spec fn head(version: u32, kv: Seq<Pair>, table: Seq<TensorInfoView>) -> Seq<u8> {
    seq![0x47u8, 0x47u8, 0x55u8, 0x46u8] + number(version as nat, 4) + number(table.len(), 8)
        + number(kv.len(), 8) + pairs(kv) + tensors(table)
}

// ── what can be written ──

/// A string whose length can be counted.
pub open spec fn short(s: Seq<char>) -> bool {
    encode_utf8(s).len() <= usize::MAX
}

/// A value that the format has room for: arrays hold values of one type, at most a
/// hundred million.
pub open spec fn writable(v: GgufValueView) -> bool
    decreases v,
{
    match v {
        GgufValueView::String(s) => short(s),
        GgufValueView::Array(items) => items.len() <= 100_000_000 && forall|i: int|
            0 <= i < items.len() ==> writable(#[trigger] items[i]) && code(items[i]) == code(
                items[0],
            ),
        _ => true,
    }
}

/// An entry of the tensor table that the format has room for.
pub open spec fn listable(t: TensorInfoView) -> bool {
    &&& short(t.name)
    &&& 1 <= t.dims.len() <= 8
    &&& t.n_dims == t.dims.len()
    &&& t.ggml_type.canonical()
}

// ── reading back ──

/// `part` stands at position `pos`.
pub open spec fn stands(b: Seq<u8>, pos: int, part: Seq<u8>) -> bool {
    0 <= pos && pos + part.len() <= b.len() && b.subrange(pos, pos + part.len()) == part
}

proof fn both_stand(b: Seq<u8>, pos: int, x: Seq<u8>, y: Seq<u8>)
    requires
        stands(b, pos, x + y),
    ensures
        stands(b, pos, x),
        stands(b, pos + x.len(), y),
{
    let all = b.subrange(pos, pos + (x + y).len());
    assert(b.subrange(pos, pos + x.len()) =~= x) by {
        assert forall|i: int| 0 <= i < x.len() implies b.subrange(pos, pos + x.len())[i]
            == x[i] by {
            assert(all[i] == (x + y)[i]);
        }
    }
    assert(b.subrange(pos + x.len(), pos + x.len() + y.len()) =~= y) by {
        assert forall|i: int| 0 <= i < y.len() implies b.subrange(
            pos + x.len(),
            pos + x.len() + y.len(),
        )[i] == y[i] by {
            assert(all[x.len() + i] == (x + y)[x.len() + i]);
        }
    }
}

/// `256` to the power of `n`.
pub open spec fn room(n: nat) -> nat
    decreases n,
{
    if n == 0 {
        1
    } else {
        256 * room((n - 1) as nat)
    }
}

proof fn number_reads_back(x: nat, n: nat)
    requires
        x < room(n),
    ensures
        number(x, n).len() == n,
        crate::value::little_endian(number(x, n)) == x,
    decreases n,
{
    if n > 0 {
        number_reads_back(x / 256, (n - 1) as nat);
        let s = number(x, n);
        assert(s.drop_first() =~= number(x / 256, (n - 1) as nat));
        assert(s[0] == x % 256);
    }
}

proof fn rooms()
    ensures
        room(1) == 0x100,
        room(2) == 0x1_0000,
        room(4) == 0x1_0000_0000,
        room(8) == 0x1_0000_0000_0000_0000,
{
    reveal_with_fuel(room, 9);
}

proof fn number_is_read(b: Seq<u8>, pos: int, x: nat, n: nat)
    requires
        x < room(n),
        stands(b, pos, number(x, n)),
    ensures
        crate::value::number_at(b, pos, n) == Ok::<(nat, int), GgufErrorView>((x, pos + n)),
{
    number_reads_back(x, n);
}

proof fn string_is_read(b: Seq<u8>, pos: int, s: Seq<char>)
    requires
        short(s),
        stands(b, pos, string(s)),
    ensures
        crate::value::string_at(b, pos) == Ok::<(Seq<char>, int), GgufErrorView>(
            (s, pos + string(s).len()),
        ),
{
    let e = encode_utf8(s);
    rooms();
    both_stand(b, pos, number(e.len(), 8), e);
    number_reads_back(e.len(), 8);
    number_is_read(b, pos, e.len(), 8);
    encode_utf8_valid_utf8(s);
    encode_utf8_decode_utf8(s);
}

proof fn value_is_read(b: Seq<u8>, pos: int, v: GgufValueView)
    requires
        writable(v),
        stands(b, pos, value(v)),
    ensures
        value(v).len() > 0,
        crate::value::value_at(b, pos, code(v) as u32) == Ok::<
            (GgufValueView, int),
            GgufErrorView,
        >((v, pos + value(v).len())),
    decreases v, 0nat,
{
    rooms();
    match v {
        GgufValueView::U8(x) => {
            number_is_read(b, pos, x as nat, 1);
            number_reads_back(x as nat, 1);
        },
        GgufValueView::I8(x) => {
            number_is_read(b, pos, unsigned(x as int, 0x100), 1);
            number_reads_back(unsigned(x as int, 0x100), 1);
        },
        GgufValueView::U16(x) => {
            number_is_read(b, pos, x as nat, 2);
            number_reads_back(x as nat, 2);
        },
        GgufValueView::I16(x) => {
            number_is_read(b, pos, unsigned(x as int, 0x1_0000), 2);
            number_reads_back(unsigned(x as int, 0x1_0000), 2);
        },
        GgufValueView::U32(x) => {
            number_is_read(b, pos, x as nat, 4);
            number_reads_back(x as nat, 4);
        },
        GgufValueView::I32(x) => {
            number_is_read(b, pos, unsigned(x as int, 0x1_0000_0000), 4);
            number_reads_back(unsigned(x as int, 0x1_0000_0000), 4);
        },
        GgufValueView::F32(x) => {
            number_is_read(b, pos, x as nat, 4);
            number_reads_back(x as nat, 4);
        },
        GgufValueView::Bool(x) => {
            let n: nat = if x {
                1
            } else {
                0
            };
            number_is_read(b, pos, n, 1);
            number_reads_back(n, 1);
        },
        GgufValueView::String(s) => {
            string_is_read(b, pos, s);
            number_reads_back(encode_utf8(s).len(), 8);
        },
        GgufValueView::Array(items) => {
            array_is_read(b, pos, items);
        },
        GgufValueView::U64(x) => {
            number_is_read(b, pos, x as nat, 8);
            number_reads_back(x as nat, 8);
        },
        GgufValueView::I64(x) => {
            number_is_read(b, pos, unsigned(x as int, 0x1_0000_0000_0000_0000), 8);
            number_reads_back(unsigned(x as int, 0x1_0000_0000_0000_0000), 8);
        },
        GgufValueView::F64(x) => {
            number_is_read(b, pos, x as nat, 8);
            number_reads_back(x as nat, 8);
        },
    }
}

proof fn array_is_read(b: Seq<u8>, pos: int, items: Seq<GgufValueView>)
    requires
        writable(GgufValueView::Array(items)),
        stands(b, pos, value(GgufValueView::Array(items))),
    ensures
        value(GgufValueView::Array(items)).len() > 0,
        crate::value::value_at(b, pos, 9) == Ok::<(GgufValueView, int), GgufErrorView>(
            (GgufValueView::Array(items), pos + value(GgufValueView::Array(items)).len()),
        ),
    decreases items, 1nat,
{
    rooms();
    let et: nat = if items.len() > 0 {
        code(items[0])
    } else {
        0
    };
    both_stand(b, pos, number(et, 4) + number(items.len(), 8), values(items));
    both_stand(b, pos, number(et, 4), number(items.len(), 8));
    number_reads_back(et, 4);
    number_reads_back(items.len(), 8);
    number_is_read(b, pos, et, 4);
    number_is_read(b, pos + 4, items.len(), 8);
    if items.len() > 0 {
        items_are_read(b, pos + 12, items, et);
    } else {
        assert(items =~= Seq::empty());
    }
    let last = pos + 12 + values(items).len();
    assert(crate::value::items_at(b, pos + 12, et as u32, items.len()) == Ok::<
        (Seq<GgufValueView>, int),
        GgufErrorView,
    >((items, last)));
    assert(value(GgufValueView::Array(items)).len() == 12 + values(items).len());
}

proof fn items_are_read(b: Seq<u8>, pos: int, items: Seq<GgufValueView>, et: nat)
    requires
        forall|i: int| 0 <= i < items.len() ==> writable(#[trigger] items[i]) && code(items[i]) == et,
        stands(b, pos, values(items)),
    ensures
        crate::value::items_at(b, pos, et as u32, items.len()) == Ok::<
            (Seq<GgufValueView>, int),
            GgufErrorView,
        >((items, pos + values(items).len())),
    decreases items, 0nat,
{
    if items.len() > 0 {
        let rest = items.drop_first();
        both_stand(b, pos, value(items[0]), values(rest));
        assert(writable(items[0]) && code(items[0]) == et);
        value_is_read(b, pos, items[0]);
        assert forall|i: int| 0 <= i < rest.len() implies writable(#[trigger] rest[i]) && code(
            rest[i],
        ) == et by {
            assert(rest[i] == items[i + 1]);
        }
        items_are_read(b, pos + value(items[0]).len(), rest, et);
        assert(seq![items[0]] + rest =~= items);
    } else {
        assert(items =~= Seq::empty());
    }
}

proof fn pairs_are_read(b: Seq<u8>, pos: int, items: Seq<Pair>)
    requires
        forall|i: int|
            0 <= i < items.len() ==> short((#[trigger] items[i]).0) && writable(items[i].1),
        stands(b, pos, pairs(items)),
    ensures
        crate::gguf::pairs_at(b, pos, items.len()) == Ok::<(Seq<Pair>, int), GgufErrorView>(
            (items, pos + pairs(items).len()),
        ),
    decreases items.len(),
{
    if items.len() > 0 {
        let (key, v) = items[0];
        let rest = items.drop_first();
        let a = string(key);
        let c = number(code(v), 4);
        let d = value(v);
        assert(short(items[0].0) && writable(items[0].1));
        rooms();
        both_stand(b, pos, a + c + d, pairs(rest));
        both_stand(b, pos, a + c, d);
        both_stand(b, pos, a, c);
        string_is_read(b, pos, key);
        number_reads_back(code(v), 4);
        number_is_read(b, pos + a.len(), code(v), 4);
        value_is_read(b, pos + a.len() + 4, v);
        assert forall|i: int| 0 <= i < rest.len() implies short((#[trigger] rest[i]).0) && writable(
            rest[i].1,
        ) by {
            assert(rest[i] == items[i + 1]);
        }
        pairs_are_read(b, pos + a.len() + 4 + d.len(), rest);
        assert(seq![items[0]] + rest =~= items);
    } else {
        assert(items =~= Seq::empty());
    }
}

proof fn dims_are_read(b: Seq<u8>, pos: int, items: Seq<u64>)
    requires
        stands(b, pos, dims(items)),
    ensures
        crate::gguf::dims_at(b, pos, items.len()) == Ok::<(Seq<u64>, int), GgufErrorView>(
            (items, pos + dims(items).len()),
        ),
    decreases items.len(),
{
    if items.len() > 0 {
        let rest = items.drop_first();
        rooms();
        both_stand(b, pos, number(items[0] as nat, 8), dims(rest));
        number_reads_back(items[0] as nat, 8);
        number_is_read(b, pos, items[0] as nat, 8);
        dims_are_read(b, pos + 8, rest);
        assert(seq![items[0]] + rest =~= items);
    } else {
        assert(items =~= Seq::empty());
    }
}

proof fn tensor_is_read(b: Seq<u8>, pos: int, t: TensorInfoView)
    requires
        listable(t),
        stands(b, pos, tensor(t)),
    ensures
        crate::gguf::tensor_at(b, pos) == Ok::<(TensorInfoView, int), GgufErrorView>(
            (t, pos + tensor(t).len()),
        ),
{
    let a = string(t.name);
    let c = number(t.dims.len(), 4);
    let d = dims(t.dims);
    let e = number(t.ggml_type.code() as nat, 4);
    let g = number(t.offset as nat, 8);
    rooms();
    both_stand(b, pos, a + c + d + e, g);
    both_stand(b, pos, a + c + d, e);
    both_stand(b, pos, a + c, d);
    both_stand(b, pos, a, c);
    string_is_read(b, pos, t.name);
    number_reads_back(t.dims.len(), 4);
    number_is_read(b, pos + a.len(), t.dims.len(), 4);
    dims_are_read(b, pos + a.len() + 4, t.dims);
    number_reads_back(t.ggml_type.code() as nat, 4);
    number_is_read(b, pos + a.len() + 4 + d.len(), t.ggml_type.code() as nat, 4);
    number_reads_back(t.offset as nat, 8);
    number_is_read(b, pos + a.len() + 4 + d.len() + 4, t.offset as nat, 8);
    crate::ggml::codes_read_back(t.ggml_type);
}

proof fn tensors_are_read(b: Seq<u8>, pos: int, items: Seq<TensorInfoView>)
    requires
        forall|i: int| 0 <= i < items.len() ==> listable(#[trigger] items[i]),
        stands(b, pos, tensors(items)),
    ensures
        crate::gguf::tensors_at(b, pos, items.len()) == Ok::<
            (Seq<TensorInfoView>, int),
            GgufErrorView,
        >((items, pos + tensors(items).len())),
    decreases items.len(),
{
    if items.len() > 0 {
        let rest = items.drop_first();
        both_stand(b, pos, tensor(items[0]), tensors(rest));
        assert(listable(items[0]));
        tensor_is_read(b, pos, items[0]);
        assert forall|i: int| 0 <= i < rest.len() implies listable(#[trigger] rest[i]) by {
            assert(rest[i] == items[i + 1]);
        }
        tensors_are_read(b, pos + tensor(items[0]).len(), rest);
        assert(seq![items[0]] + rest =~= items);
    } else {
        assert(items =~= Seq::empty());
    }
}

/// The alignment that the metadata ask for: that of the last entry that states one as a
/// 32-bit number, 32 without any.
pub open spec fn asks_for(kv: Seq<Pair>, a: u64) -> bool {
    ||| exists|k: int|
        {
            &&& 0 <= k < kv.len()
            &&& (#[trigger] kv[k]).0 == "general.alignment"@
            &&& kv[k].1 matches GgufValueView::U32(x)
            &&& x == a
            &&& forall|j: int| k < j < kv.len() ==> !states_alignment(#[trigger] kv[j])
        }
    ||| a == 32 && forall|j: int| 0 <= j < kv.len() ==> !states_alignment(#[trigger] kv[j])
}

/// The entry states an alignment.
pub open spec fn states_alignment(p: Pair) -> bool {
    p.0 == "general.alignment"@ && p.1 is U32
}

/// The alignment in force is the one asked for.
pub proof fn alignment_is_the_last_stated(kv: Seq<Pair>)
    ensures
        asks_for(kv, crate::gguf::alignment_of(kv)),
    decreases kv.len(),
{
    if kv.len() > 0 {
        let init = kv.drop_last();
        alignment_is_the_last_stated(init);
        let a = crate::gguf::alignment_of(kv);
        if states_alignment(kv.last()) {
            let k = kv.len() - 1;
            assert(kv[k].0 == "general.alignment"@);
        } else if forall|j: int| 0 <= j < init.len() ==> !states_alignment(#[trigger] init[j]) {
            assert forall|j: int| 0 <= j < kv.len() implies !states_alignment(
                #[trigger] kv[j],
            ) by {
                if j < init.len() {
                    assert(init[j] == kv[j]);
                }
            }
        } else {
            let k = choose|k: int|
                {
                    &&& 0 <= k < init.len()
                    &&& (#[trigger] init[k]).0 == "general.alignment"@
                    &&& init[k].1 matches GgufValueView::U32(x)
                    &&& x == a
                    &&& forall|j: int| k < j < init.len() ==> !states_alignment(#[trigger] init[j])
                };
            assert(kv[k] == init[k]);
            assert forall|j: int| k < j < kv.len() implies !states_alignment(#[trigger] kv[j]) by {
                if j < init.len() {
                    assert(init[j] == kv[j]);
                }
            }
        }
    }
}

/// A file gives back the metadata and the tensor table that were written to it, whatever
/// data follow. The data section starts at the first position behind the table that is a
/// multiple of the alignment.
pub proof fn written_files_read_back(
    version: u32,
    kv: Seq<Pair>,
    table: Seq<TensorInfoView>,
    data: Seq<u8>,
    a: u64,
)
    requires
        version == 2 || version == 3,
        kv.len() <= u64::MAX,
        table.len() <= u64::MAX,
        forall|i: int| 0 <= i < kv.len() ==> short((#[trigger] kv[i]).0) && writable(kv[i].1),
        forall|i: int| 0 <= i < table.len() ==> listable(#[trigger] table[i]),
        a == crate::gguf::alignment_of(kv),
        table.len() > 0 ==> a > 0 && head(version, kv, table).len() + a <= u64::MAX,
    ensures
        asks_for(kv, a),
        crate::gguf::file_at(head(version, kv, table) + data) matches Ok(f) && {
            &&& f.header.version == version
            &&& f.header.kv_count == kv.len()
            &&& f.header.tensor_count == table.len()
            &&& f.metadata == kv
            &&& f.tensors == table
            &&& f.alignment == a
            &&& table.len() == 0 ==> f.data_start == head(version, kv, table).len()
            &&& table.len() > 0 ==> f.data_start % a as nat == 0 && head(version, kv, table).len()
                <= f.data_start < head(version, kv, table).len() + a
        },
{
    alignment_is_the_last_stated(kv);
    rooms();
    let magic = seq![0x47u8, 0x47u8, 0x55u8, 0x46u8];
    let v = number(version as nat, 4);
    let t = number(table.len(), 8);
    let k = number(kv.len(), 8);
    let p = pairs(kv);
    let q = tensors(table);
    let h = head(version, kv, table);
    let b = h + data;
    assert(b.subrange(0, h.len() as int) =~= h);
    both_stand(b, 0, magic + v + t + k + p, q);
    both_stand(b, 0, magic + v + t + k, p);
    both_stand(b, 0, magic + v + t, k);
    both_stand(b, 0, magic + v, t);
    both_stand(b, 0, magic, v);
    number_reads_back(version as nat, 4);
    number_reads_back(table.len(), 8);
    number_reads_back(kv.len(), 8);
    letters_are_the_magic();
    number_reads_back(0x4655_4747, 4);
    number_is_read(b, 0, 0x4655_4747, 4);
    number_is_read(b, 4, version as nat, 4);
    number_is_read(b, 8, table.len(), 8);
    number_is_read(b, 16, kv.len(), 8);
    pairs_are_read(b, 24, kv);
    tensors_are_read(b, 24int + p.len(), table);
    if table.len() > 0 {
        crate::gguf::align_up_is_first_multiple(h.len(), a as nat);
    }
}

proof fn letters_are_the_magic()
    ensures
        number(0x4655_4747, 4) == seq![0x47u8, 0x47u8, 0x55u8, 0x46u8],
{
    reveal_with_fuel(number, 5);
    assert(number(0x4655_4747, 4) =~= seq![0x47u8, 0x47u8, 0x55u8, 0x46u8]);
}

} // verus!
