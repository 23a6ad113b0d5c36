//! GGUF container: header, metadata and tensor table in memory. The weights stay
//! on disk and are located by [`GgufFile::tensor_span`].

use vstd::prelude::*;

use crate::ggml::GgmlType;
use crate::text::{push_decimal, same_text};
use crate::value::{Cursor, GgufError, GgufErrorView, GgufValue, GgufValueView, Read};

verus! {

/// File header.
#[derive(Debug, Clone, Copy, PartialEq, Eq)]
pub struct GgufHeader {
    pub version: u32,
    pub tensor_count: u64,
    pub kv_count: u64,
}

/// A tensor of the table, without its data.
#[derive(Debug, Clone)]
pub struct TensorInfo {
    pub name: String,
    pub n_dims: u32,
    /// Dimensions in file order.
    pub dims: Vec<u64>,
    pub ggml_type: GgmlType,
    /// Offset of the data from the start of the data section.
    pub offset: u64,
}

/// Mathematical view of [`TensorInfo`].
pub struct TensorInfoView {
    pub name: Seq<char>,
    pub n_dims: nat,
    pub dims: Seq<u64>,
    pub ggml_type: GgmlType,
    pub offset: u64,
}

impl View for TensorInfo {
    type V = TensorInfoView;

    open spec fn view(&self) -> TensorInfoView {
        TensorInfoView {
            name: self.name@,
            n_dims: self.n_dims as nat,
            dims: self.dims@,
            ggml_type: self.ggml_type,
            offset: self.offset,
        }
    }
}

/// The product of the dimensions.
pub open spec fn product(dims: Seq<u64>) -> nat
    decreases dims.len(),
{
    if dims.len() == 0 {
        1
    } else {
        product(dims.drop_last()) * dims.last() as nat
    }
}

impl TensorInfoView {
    /// Number of elements.
    pub open spec fn elements(self) -> nat {
        product(self.dims)
    }

    /// Bytes taken by the data: whole blocks for the quantized types.
    pub open spec fn bytes(self) -> nat {
        match self.ggml_type.layout() {
            Some((block_size, block_bytes)) => (self.elements() / block_size) * block_bytes,
            None => self.elements() * self.ggml_type.value_size(),
        }
    }

    /// Multiplying the dimensions one after the other stays within 64 bits.
    pub open spec fn countable(self) -> bool {
        forall|k: int|
            0 <= k <= self.dims.len() ==> product(#[trigger] self.dims.take(k)) <= u64::MAX
    }

    /// Element and byte counts stay within 64 bits.
    pub open spec fn sized(self) -> bool {
        self.countable() && self.bytes() <= u64::MAX
    }
}

impl TensorInfo {
    /// The number of elements, when the product fits.
    pub fn checked_n_elements(&self) -> (r: Option<u64>)
        ensures
            match r {
                Some(n) => self@.countable() && n == self@.elements(),
                None => !self@.countable(),
            },
    {
        let mut n: u64 = 1;
        let mut i: usize = 0;
        while i < self.dims.len()
            invariant
                i <= self.dims@.len(),
                n == product(self.dims@.take(i as int)),
                forall|k: int|
                    0 <= k <= i ==> product(#[trigger] self.dims@.take(k)) <= u64::MAX,
            decreases self.dims@.len() - i,
        {
            proof {
                assert(self.dims@.take(i + 1).drop_last() =~= self.dims@.take(i as int));
                assert(self.dims@.take(i + 1).last() == self.dims@[i as int]);
            }
            match n.checked_mul(self.dims[i]) {
                Some(m) => {
                    n = m;
                },
                None => {
                    assert(product(self@.dims.take(i + 1)) > u64::MAX);
                    return None;
                },
            }
            i += 1;
        }
        assert(self.dims@.take(i as int) =~= self.dims@);
        Some(n)
    }

    /// Whether [`Self::n_elements`] and [`Self::n_bytes`] can be computed.
    pub fn is_sized(&self) -> (r: bool)
        ensures
            r == self@.sized(),
    {
        match self.checked_n_elements() {
            None => false,
            Some(n) => match self.ggml_type.block_layout() {
                Some((block_size, block_bytes)) => {
                    (n / block_size as u64).checked_mul(block_bytes as u64).is_some()
                },
                None => n.checked_mul(self.ggml_type.type_size() as u64).is_some(),
            },
        }
    }

    /// Number of elements of the tensor.
    pub fn n_elements(&self) -> (r: u64)
        requires
            self@.countable(),
        ensures
            r == self@.elements(),
    {
        match self.checked_n_elements() {
            Some(n) => n,
            None => 0,
        }
    }

    /// Bytes taken by the (quantized) data.
    pub fn n_bytes(&self) -> (r: u64)
        requires
            self@.sized(),
        ensures
            r == self@.bytes(),
    {
        match self.ggml_type.block_layout() {
            Some((block_size, block_bytes)) => {
                (self.n_elements() / block_size as u64) * block_bytes as u64
            },
            None => self.n_elements() * self.ggml_type.type_size() as u64,
        }
    }
}

// ── the file as a function of its bytes ──

/// A metadata entry: key and value.
pub type Pair = (Seq<char>, GgufValueView);

/// Reads a metadata entry: key, type code, value.
pub open spec fn pair_at(b: Seq<u8>, pos: int) -> Read<Pair> {
    match crate::value::string_at(b, pos) {
        Err(e) => Err(e),
        Ok((key, p)) => match crate::value::number_at(b, p, 4) {
            Err(e) => Err(e),
            Ok((vt, q)) => match crate::value::value_at(b, q, vt as u32) {
                Err(e) => Err(e),
                Ok((val, r)) => Ok(((key, val), r)),
            },
        },
    }
}

/// Reads `n` metadata entries.
pub open spec fn pairs_at(b: Seq<u8>, pos: int, n: nat) -> Read<Seq<Pair>>
    decreases n,
{
    if n == 0 {
        Ok((Seq::empty(), pos))
    } else {
        match pair_at(b, pos) {
            Err(e) => Err(e),
            Ok((first, p)) => match pairs_at(b, p, (n - 1) as nat) {
                Err(e) => Err(e),
                Ok((rest, q)) => Ok((seq![first] + rest, q)),
            },
        }
    }
}

/// Reads `n` dimensions.
pub open spec fn dims_at(b: Seq<u8>, pos: int, n: nat) -> Read<Seq<u64>>
    decreases n,
{
    if n == 0 {
        Ok((Seq::empty(), pos))
    } else {
        match crate::value::number_at(b, pos, 8) {
            Err(e) => Err(e),
            Ok((first, p)) => match dims_at(b, p, (n - 1) as nat) {
                Err(e) => Err(e),
                Ok((rest, q)) => Ok((seq![first as u64] + rest, q)),
            },
        }
    }
}

/// Reads an entry of the tensor table: name, one to eight dimensions, type and
/// offset.
pub open spec fn tensor_at(b: Seq<u8>, pos: int) -> Read<TensorInfoView> {
    match crate::value::string_at(b, pos) {
        Err(e) => Err(e),
        Ok((name, p)) => match crate::value::number_at(b, p, 4) {
            Err(e) => Err(e),
            Ok((n_dims, q)) => if n_dims == 0 || n_dims > 8 {
                Err(
                    GgufErrorView::BadTensor(
                        name + ": n_dims="@ + crate::text::decimal(n_dims) + " fuori range"@,
                    ),
                )
            } else {
                match dims_at(b, q, n_dims) {
                    Err(e) => Err(e),
                    Ok((dims, r)) => match crate::value::number_at(b, r, 4) {
                        Err(e) => Err(e),
                        Ok((code, s)) => match crate::value::number_at(b, s, 8) {
                            Err(e) => Err(e),
                            Ok((offset, t)) => Ok(
                                (
                                    TensorInfoView {
                                        name,
                                        n_dims,
                                        dims,
                                        ggml_type: GgmlType::of_code(code as u32),
                                        offset: offset as u64,
                                    },
                                    t,
                                ),
                            ),
                        },
                    },
                }
            },
        },
    }
}

/// Reads `n` entries of the tensor table.
pub open spec fn tensors_at(b: Seq<u8>, pos: int, n: nat) -> Read<Seq<TensorInfoView>>
    decreases n,
{
    if n == 0 {
        Ok((Seq::empty(), pos))
    } else {
        match tensor_at(b, pos) {
            Err(e) => Err(e),
            Ok((first, p)) => match tensors_at(b, p, (n - 1) as nat) {
                Err(e) => Err(e),
                Ok((rest, q)) => Ok((seq![first] + rest, q)),
            },
        }
    }
}

/// Alignment of the data section: the last 32-bit `general.alignment`, 32
/// without one.
pub open spec fn alignment_of(pairs: Seq<Pair>) -> u64
    decreases pairs.len(),
{
    if pairs.len() == 0 {
        32
    } else {
        match pairs.last() {
            (key, GgufValueView::U32(a)) if key == "general.alignment"@ => a as u64,
            _ => alignment_of(pairs.drop_last()),
        }
    }
}

/// The first multiple of `unit` at or after `n`.
pub open spec fn align_up(n: nat, unit: nat) -> nat
    recommends
        unit > 0,
{
    ((n + unit - 1) as nat / unit) * unit
}

/// Mathematical view of [`GgufFile`].
pub struct GgufFileView {
    pub header: GgufHeader,
    pub metadata: Seq<Pair>,
    pub tensors: Seq<TensorInfoView>,
    pub data_start: nat,
    pub alignment: u64,
}

/// The content of a file. The data section starts at the first aligned position
/// after the tensor table, or right there when the table is empty.
pub open spec fn file_at(b: Seq<u8>) -> Result<GgufFileView, GgufErrorView> {
    match crate::value::number_at(b, 0, 4) {
        Err(e) => Err(e),
        Ok((magic, p)) => if magic != 0x4655_4747 {
            Err(GgufErrorView::BadMagic)
        } else {
            match crate::value::number_at(b, p, 4) {
                Err(e) => Err(e),
                Ok((version, q)) => if version != 2 && version != 3 {
                    Err(GgufErrorView::UnsupportedVersion(version as u32))
                } else {
                    match crate::value::number_at(b, q, 8) {
                        Err(e) => Err(e),
                        Ok((tensor_count, r)) => match crate::value::number_at(b, r, 8) {
                            Err(e) => Err(e),
                            Ok((kv_count, s)) => tables_at(
                                b,
                                s,
                                GgufHeader {
                                    version: version as u32,
                                    tensor_count: tensor_count as u64,
                                    kv_count: kv_count as u64,
                                },
                            ),
                        },
                    }
                },
            }
        },
    }
}

/// The metadata and the tensor table announced by a header that ends at `pos`.
pub open spec fn tables_at(b: Seq<u8>, pos: int, header: GgufHeader) -> Result<
    GgufFileView,
    GgufErrorView,
> {
    match pairs_at(b, pos, header.kv_count as nat) {
        Err(e) => Err(e),
        Ok((metadata, p)) => match tensors_at(b, p, header.tensor_count as nat) {
            Err(e) => Err(e),
            Ok((tensors, end)) => {
                let alignment = alignment_of(metadata);
                if header.tensor_count == 0 {
                    Ok(GgufFileView { header, metadata, tensors, data_start: end as nat, alignment })
                } else if alignment == 0 || end + alignment - 1 > u64::MAX {
                    Err(GgufErrorView::BadTensor("allineamento non valido"@))
                } else {
                    Ok(
                        GgufFileView {
                            header,
                            metadata,
                            tensors,
                            data_start: align_up(end as nat, alignment as nat),
                            alignment,
                        },
                    )
                }
            },
        },
    }
}

/// The first value with the given key.
pub open spec fn lookup(pairs: Seq<Pair>, key: Seq<char>) -> Option<GgufValueView>
    decreases pairs.len(),
{
    if pairs.len() == 0 {
        None
    } else if pairs[0].0 == key {
        Some(pairs[0].1)
    } else {
        lookup(pairs.drop_first(), key)
    }
}

/// No array is longer than the format allows.
pub open spec fn bounded(pairs: Seq<Pair>) -> bool {
    forall|i: int|
        0 <= i < pairs.len() ==> ((#[trigger] pairs[i]).1 matches GgufValueView::Array(v) ==> v.len()
            <= crate::value::MAX_ARRAY)
}

/// The first tensor with the given name.
pub open spec fn find_tensor(tensors: Seq<TensorInfoView>, name: Seq<char>) -> Option<
    TensorInfoView,
>
    decreases tensors.len(),
{
    if tensors.len() == 0 {
        None
    } else if tensors[0].name == name {
        Some(tensors[0])
    } else {
        find_tensor(tensors.drop_first(), name)
    }
}

// ── the file ──

/// An open GGUF file.
pub struct GgufFile {
    pub header: GgufHeader,
    /// All the metadata, in file order.
    pub metadata: Vec<(String, GgufValue)>,
    pub tensors: Vec<TensorInfo>,
    /// Position of the data section in the file.
    pub data_start: u64,
    /// Alignment of the data section.
    pub alignment: u64,
}

/// The views of metadata entries.
pub open spec fn pair_views(items: Seq<(String, GgufValue)>) -> Seq<Pair> {
    Seq::new(items.len(), |i: int| (items[i].0@, items[i].1@))
}

/// The views of a tensor table.
pub open spec fn tensor_views(items: Seq<TensorInfo>) -> Seq<TensorInfoView> {
    Seq::new(items.len(), |i: int| items[i]@)
}

impl View for GgufFile {
    type V = GgufFileView;

    open spec fn view(&self) -> GgufFileView {
        GgufFileView {
            header: self.header,
            metadata: pair_views(self.metadata@),
            tensors: tensor_views(self.tensors@),
            data_start: self.data_start as nat,
            alignment: self.alignment,
        }
    }
}

fn read_tensor(c: &mut Cursor) -> (r: Result<TensorInfo, GgufError>)
    requires
        old(c).wf(),
    ensures
        final(c).wf(),
        final(c).bytes() == old(c).bytes(),
        match tensor_at(old(c).bytes(), old(c).at() as int) {
            Ok((x, p)) => r matches Ok(v) && v@ == x && final(c).at() == p,
            Err(e) => r matches Err(x) && x@ == e,
        },
{
    let ghost b = c.bytes();
    let name = c.read_string()?;
    let n_dims: u32 = c.read_u32()?;
    if n_dims == 0 || n_dims > 8 {
        let mut msg = String::new();
        msg.push_str(name.as_str());
        msg.push_str(": n_dims=");
        push_decimal(&mut msg, n_dims as u64);
        msg.push_str(" fuori range");
        assert(msg@ =~= name@ + ": n_dims="@ + crate::text::decimal(n_dims as nat)
            + " fuori range"@);
        return Err(GgufError::BadTensor(msg));
    }
    let ghost start = c.at() as int;
    let ghost whole = dims_at(b, start, n_dims as nat);
    let ghost entry = tensor_at(old(c).bytes(), old(c).at() as int);
    let mut dims: Vec<u64> = Vec::new();
    let mut i: u32 = 0;
    while i < n_dims
        invariant
            i <= n_dims,
            c.wf(),
            c.bytes() == b,
            b == old(c).bytes(),
            whole == (match dims_at(b, c.at() as int, (n_dims - i) as nat) {
                Ok((rest, q)) => Ok((dims@ + rest, q)),
                Err(e) => Err(e),
            }),
            whole matches Err(e) ==> entry == Err::<(TensorInfoView, int), _>(e),
            entry == tensor_at(old(c).bytes(), old(c).at() as int),
        decreases n_dims - i,
    {
        let ghost before = dims@;
        let d: u64 = c.read_u64()?;
        dims.push(d);
        i += 1;
        proof {
            if let Ok((rest, _)) = dims_at(b, c.at() as int, (n_dims - i) as nat) {
                assert(before + (seq![d] + rest) =~= dims@ + rest);
            }
        }
    }
    assert(dims@ + Seq::<u64>::empty() =~= dims@);
    let code: u32 = c.read_u32()?;
    let ggml_type = match GgmlType::from_raw(code) {
        Some(t) => t,
        None => {
            return Err(GgufError::BadType(code));
        },
    };
    let offset: u64 = c.read_u64()?;
    Ok(TensorInfo { name, n_dims, dims, ggml_type, offset })
}

impl GgufFile {
    /// Parses header, metadata and tensor table from the bytes of a file.
    pub fn open(buf: &[u8]) -> (r: Result<Self, GgufError>)
        ensures
            match file_at(buf@) {
                Ok(v) => r matches Ok(f) && f@ == v,
                Err(e) => r matches Err(x) && x@ == e,
            },
    {
        let ghost b = buf@;
        let ghost whole = file_at(b);
        let mut c = Cursor::new(buf);
        let magic: u32 = c.read_u32()?;
        if magic != 0x4655_4747 {
            return Err(GgufError::BadMagic);
        }
        let version: u32 = c.read_u32()?;
        if version != 3 && version != 2 {
            return Err(GgufError::UnsupportedVersion(version));
        }
        let tensor_count: u64 = c.read_u64()?;
        let kv_count: u64 = c.read_u64()?;
        let header = GgufHeader { version, tensor_count, kv_count };
        let ghost pairs = pairs_at(b, c.at() as int, kv_count as nat);
        assert(whole == tables_at(b, c.at() as int, header));

        let mut metadata: Vec<(String, GgufValue)> = Vec::new();
        let mut alignment: u64 = 32;
        let mut i: u64 = 0;
        while i < kv_count
            invariant
                i <= kv_count,
                c.wf(),
                c.bytes() == b,
                b == buf@,
                whole == file_at(b),
                pairs == (match pairs_at(b, c.at() as int, (kv_count - i) as nat) {
                    Ok((rest, q)) => Ok((pair_views(metadata@) + rest, q)),
                    Err(e) => Err(e),
                }),
                pairs matches Err(e) ==> whole == Err::<GgufFileView, _>(e),
                alignment == alignment_of(pair_views(metadata@)),
            decreases kv_count - i,
        {
            let ghost before = pair_views(metadata@);
            let key = c.read_string()?;
            let vt: u32 = c.read_u32()?;
            let val = GgufValue::read(&mut c, vt)?;
            if same_text(key.as_str(), "general.alignment") {
                if let GgufValue::U32(a) = &val {
                    alignment = *a as u64;
                }
            }
            let ghost first = (key@, val@);
            metadata.push((key, val));
            i += 1;
            proof {
                assert(pair_views(metadata@) =~= before.push(first));
                assert(before.push(first).drop_last() =~= before);
                if let Ok((rest, _)) = pairs_at(b, c.at() as int, (kv_count - i) as nat) {
                    assert(before + (seq![first] + rest) =~= pair_views(metadata@) + rest);
                }
            }
        }
        assert(pair_views(metadata@) + Seq::<Pair>::empty() =~= pair_views(metadata@));

        let ghost table = tensors_at(b, c.at() as int, tensor_count as nat);
        let mut tensors: Vec<TensorInfo> = Vec::new();
        let mut j: u64 = 0;
        while j < tensor_count
            invariant
                j <= tensor_count,
                c.wf(),
                c.bytes() == b,
                b == buf@,
                whole == file_at(b),
                table == (match tensors_at(b, c.at() as int, (tensor_count - j) as nat) {
                    Ok((rest, q)) => Ok((tensor_views(tensors@) + rest, q)),
                    Err(e) => Err(e),
                }),
                table matches Err(e) ==> whole == Err::<GgufFileView, _>(e),
            decreases tensor_count - j,
        {
            let ghost before = tensor_views(tensors@);
            let info = read_tensor(&mut c)?;
            let ghost first = info@;
            tensors.push(info);
            j += 1;
            proof {
                assert(tensor_views(tensors@) =~= before.push(first));
                if let Ok((rest, _)) = tensors_at(b, c.at() as int, (tensor_count - j) as nat) {
                    assert(before + (seq![first] + rest) =~= tensor_views(tensors@) + rest);
                }
            }
        }
        assert(tensor_views(tensors@) + Seq::<TensorInfoView>::empty() =~= tensor_views(tensors@));

        let header_end = c.pos() as u64;
        let data_start = if tensor_count == 0 {
            header_end
        } else {
            if alignment == 0 || header_end > u64::MAX - (alignment - 1) {
                return Err(GgufError::BadTensor("allineamento non valido".to_owned()));
            }
            let blocks: u64 = (header_end + (alignment - 1)) / alignment;
            proof {
                vstd::arithmetic::div_mod::lemma_fundamental_div_mod(
                    header_end + alignment - 1,
                    alignment as int,
                );
            }
            assert(blocks * alignment <= header_end + alignment - 1) by (nonlinear_arith)
                requires
                    header_end + alignment - 1 == alignment * blocks + (header_end + alignment - 1)
                        % (alignment as int),
                    alignment > 0,
            ;
            blocks * alignment
        };
        Ok(GgufFile { header, metadata, tensors, data_start, alignment })
    }

    /// The value of the first metadata entry with the given key.
    pub fn get(&self, key: &str) -> (r: Option<&GgufValue>)
        ensures
            match lookup(self@.metadata, key@) {
                Some(v) => r matches Some(x) && x@ == v,
                None => r is None,
            },
    {
        let ghost all = self@.metadata;
        assert(all.skip(0) =~= all);
        let mut i: usize = 0;
        while i < self.metadata.len()
            invariant
                all == pair_views(self.metadata@),
                i <= self.metadata@.len(),
                lookup(all, key@) == lookup(all.skip(i as int), key@),
            decreases self.metadata@.len() - i,
        {
            let entry = &self.metadata[i];
            assert(all.skip(i as int)[0] == (entry.0@, entry.1@));
            if same_text(entry.0.as_str(), key) {
                return Some(&entry.1);
            }
            assert(all.skip(i as int).drop_first() =~= all.skip(i + 1));
            i += 1;
        }
        None
    }

    /// The first tensor with the given name.
    pub fn tensor(&self, name: &str) -> (r: Result<&TensorInfo, GgufError>)
        ensures
            match find_tensor(self@.tensors, name@) {
                Some(v) => r matches Ok(x) && x@ == v,
                None => r matches Err(e) && e@ == GgufErrorView::TensorNotFound(name@),
            },
    {
        let ghost all = self@.tensors;
        assert(all.skip(0) =~= all);
        let mut i: usize = 0;
        while i < self.tensors.len()
            invariant
                all == tensor_views(self.tensors@),
                i <= self.tensors@.len(),
                find_tensor(all, name@) == find_tensor(all.skip(i as int), name@),
            decreases self.tensors@.len() - i,
        {
            let entry = &self.tensors[i];
            assert(all.skip(i as int)[0] == entry@);
            if same_text(entry.name.as_str(), name) {
                return Ok(entry);
            }
            assert(all.skip(i as int).drop_first() =~= all.skip(i + 1));
            i += 1;
        }
        Err(GgufError::TensorNotFound(name.to_owned()))
    }

    /// Where the data of a tensor lies in the file: position and byte count.
    pub fn tensor_span(&self, name: &str) -> (r: Result<(u64, u64), GgufError>)
        ensures
            match find_tensor(self@.tensors, name@) {
                None => r matches Err(e) && e@ == GgufErrorView::TensorNotFound(name@),
                Some(t) => if t.sized() && self@.data_start + t.offset <= u64::MAX {
                    r matches Ok((start, len)) && start == self@.data_start + t.offset && len
                        == t.bytes()
                } else {
                    r matches Err(e) && e@ == GgufErrorView::BadTensor(
                        name@ + ": dimensioni fuori range"@,
                    )
                },
            },
    {
        let info = self.tensor(name)?;
        if !info.is_sized() || self.data_start > u64::MAX - info.offset {
            let mut msg = name.to_owned();
            msg.push_str(": dimensioni fuori range");
            return Err(GgufError::BadTensor(msg));
        }
        Ok((self.data_start + info.offset, info.n_bytes()))
    }

    /// Alignment of the data section.
    pub fn alignment(&self) -> (r: u64)
        ensures
            r == self@.alignment,
    {
        self.alignment
    }

    /// Position of the data section in the file.
    pub fn data_start(&self) -> (r: u64)
        ensures
            r == self@.data_start,
    {
        self.data_start
    }
}

// ── laws ──

/// `align_up` gives the first multiple at or after its argument.
pub proof fn align_up_is_first_multiple(n: nat, unit: nat)
    requires
        unit > 0,
    ensures
        align_up(n, unit) % unit == 0,
        n <= align_up(n, unit) < n + unit,
{
    let k = (n + unit - 1) as nat / unit;
    vstd::arithmetic::div_mod::lemma_fundamental_div_mod(n + unit - 1, unit as int);
    vstd::arithmetic::div_mod::lemma_mod_multiples_basic(k as int, unit as int);
    assert(k * unit == unit * k) by (nonlinear_arith);
}

/// In a file with tensors the data section starts at a multiple of the
/// alignment, which is never zero.
pub proof fn data_section_is_aligned(b: Seq<u8>)
    ensures
        file_at(b) matches Ok(f) ==> f.header.tensor_count > 0 ==> f.alignment > 0 && f.data_start
            % f.alignment as nat == 0,
{
    if let Ok(f) = file_at(b) {
        if f.header.tensor_count > 0 {
            let (metadata, p) = pairs_at(b, 24, f.header.kv_count as nat)->Ok_0;
            let (tensors, end) = tensors_at(b, p, f.header.tensor_count as nat)->Ok_0;
            pairs_at_shape(b, 24, f.header.kv_count as nat);
            tensors_at_shape(b, p, f.header.tensor_count as nat);
            align_up_is_first_multiple(end as nat, f.alignment as nat);
        }
    }
}

proof fn pairs_at_shape(b: Seq<u8>, pos: int, n: nat)
    requires
        0 <= pos <= b.len(),
    ensures
        pairs_at(b, pos, n) matches Ok((v, p)) ==> v.len() == n && pos <= p <= b.len(),
    decreases n,
{
    if n > 0 {
        if let Ok((_, q)) = crate::value::string_at(b, pos) {
            if let Ok((vt, r)) = crate::value::number_at(b, q, 4) {
                crate::value::value_at_advances(b, r, vt as u32);
            }
        }
        if let Ok((_, p)) = pair_at(b, pos) {
            pairs_at_shape(b, p, (n - 1) as nat);
        }
    }
}

proof fn dims_at_shape(b: Seq<u8>, pos: int, n: nat)
    requires
        0 <= pos <= b.len(),
    ensures
        dims_at(b, pos, n) matches Ok((v, p)) ==> v.len() == n && pos <= p <= b.len(),
    decreases n,
{
    if n > 0 {
        if let Ok((_, p)) = crate::value::number_at(b, pos, 8) {
            dims_at_shape(b, p, (n - 1) as nat);
        }
    }
}

proof fn tensors_at_shape(b: Seq<u8>, pos: int, n: nat)
    requires
        0 <= pos <= b.len(),
    ensures
        tensors_at(b, pos, n) matches Ok((v, p)) ==> v.len() == n && pos <= p <= b.len() && forall|
            i: int,
        |
            0 <= i < n ==> 1 <= (#[trigger] v[i]).n_dims <= 8 && v[i].dims.len() == v[i].n_dims,
    decreases n,
{
    if n > 0 {
        if let Ok((_, p)) = crate::value::string_at(b, pos) {
            if let Ok((n_dims, q)) = crate::value::number_at(b, p, 4) {
                dims_at_shape(b, q, n_dims);
            }
        }
        if let Ok((_, p)) = tensor_at(b, pos) {
            tensors_at_shape(b, p, (n - 1) as nat);
        }
    }
}

/// The tables have the sizes that the header announces, and every tensor has
/// from one to eight dimensions.
pub proof fn tables_match_header(b: Seq<u8>)
    ensures
        file_at(b) matches Ok(f) ==> {
            &&& f.metadata.len() == f.header.kv_count
            &&& f.tensors.len() == f.header.tensor_count
            &&& forall|i: int|
                0 <= i < f.tensors.len() ==> 1 <= (#[trigger] f.tensors[i]).n_dims <= 8
                    && f.tensors[i].dims.len() == f.tensors[i].n_dims
        },
{
    if let Ok(f) = file_at(b) {
        let (metadata, p) = pairs_at(b, 24, f.header.kv_count as nat)->Ok_0;
        pairs_at_shape(b, 24, f.header.kv_count as nat);
        tensors_at_shape(b, p, f.header.tensor_count as nat);
    }
}

proof fn items_at_count(b: Seq<u8>, pos: int, vt: u32, n: nat)
    requires
        0 <= pos <= b.len(),
    ensures
        crate::value::items_at(b, pos, vt, n) matches Ok((v, _)) ==> v.len() == n,
    decreases n,
{
    if n > 0 {
        crate::value::value_at_advances(b, pos, vt);
        if let Ok((_, p)) = crate::value::value_at(b, pos, vt) {
            items_at_count(b, p, vt, (n - 1) as nat);
        }
    }
}

proof fn pairs_at_bounded(b: Seq<u8>, pos: int, n: nat)
    requires
        0 <= pos <= b.len(),
    ensures
        pairs_at(b, pos, n) matches Ok((v, _)) ==> bounded(v),
    decreases n,
{
    if n > 0 {
        if let Ok((_, q)) = crate::value::string_at(b, pos) {
            if let Ok((vt, r)) = crate::value::number_at(b, q, 4) {
                crate::value::value_at_advances(b, r, vt as u32);
                if vt as u32 == 9 {
                    if let Ok((et, x)) = crate::value::number_at(b, r, 4) {
                        if let Ok((count, y)) = crate::value::number_at(b, x, 8) {
                            items_at_count(b, y, et as u32, count);
                        }
                    }
                }
            }
        }
        if let Ok((first, p)) = pair_at(b, pos) {
            pairs_at_bounded(b, p, (n - 1) as nat);
            if let Ok((rest, _)) = pairs_at(b, p, (n - 1) as nat) {
                let all = seq![first] + rest;
                assert forall|i: int| 0 <= i < all.len() implies ((#[trigger] all[i]).1 matches GgufValueView::Array(v)
                    ==> v.len() <= crate::value::MAX_ARRAY) by {
                    if i > 0 {
                        assert(all[i] == rest[i - 1]);
                    }
                }
            }
        }
    }
}

/// The arrays of a file that can be opened have at most a hundred million items.
pub proof fn arrays_are_bounded(b: Seq<u8>)
    ensures
        file_at(b) matches Ok(f) ==> bounded(f.metadata),
{
    if let Ok(f) = file_at(b) {
        pairs_at_bounded(b, 24, f.header.kv_count as nat);
    }
}

proof fn bytes_at_prefix(b: Seq<u8>, more: Seq<u8>, pos: int, n: nat)
    requires
        0 <= pos <= b.len(),
    ensures
        crate::value::bytes_at(b, pos, n) is Ok ==> crate::value::bytes_at(b + more, pos, n)
            == crate::value::bytes_at(b, pos, n),
{
    if pos + n <= b.len() {
        assert((b + more).subrange(pos, pos + n) =~= b.subrange(pos, pos + n));
    }
}

proof fn string_at_prefix(b: Seq<u8>, more: Seq<u8>, pos: int)
    requires
        0 <= pos <= b.len(),
    ensures
        crate::value::string_at(b, pos) is Ok ==> crate::value::string_at(b + more, pos)
            == crate::value::string_at(b, pos),
{
    bytes_at_prefix(b, more, pos, 8);
    if let Ok((len, p)) = crate::value::number_at(b, pos, 8) {
        bytes_at_prefix(b, more, p, (len as usize) as nat);
    }
}

proof fn value_at_prefix(b: Seq<u8>, more: Seq<u8>, pos: int, vt: u32)
    requires
        0 <= pos <= b.len(),
    ensures
        crate::value::value_at(b, pos, vt) is Ok ==> crate::value::value_at(b + more, pos, vt)
            == crate::value::value_at(b, pos, vt),
    decreases b.len() - pos, 0nat,
{
    if vt == 8 {
        string_at_prefix(b, more, pos);
    } else if vt == 9 {
        bytes_at_prefix(b, more, pos, 4);
        if let Ok((et, p)) = crate::value::number_at(b, pos, 4) {
            bytes_at_prefix(b, more, p, 8);
            if let Ok((n, q)) = crate::value::number_at(b, p, 8) {
                items_at_prefix(b, more, q, et as u32, n);
            }
        }
    } else if let Some(n) = crate::value::scalar_width(vt) {
        bytes_at_prefix(b, more, pos, n);
    }
}

proof fn items_at_prefix(b: Seq<u8>, more: Seq<u8>, pos: int, vt: u32, n: nat)
    requires
        0 <= pos <= b.len(),
    ensures
        crate::value::items_at(b, pos, vt, n) is Ok ==> crate::value::items_at(
            b + more,
            pos,
            vt,
            n,
        ) == crate::value::items_at(b, pos, vt, n),
    decreases b.len() - pos, n + 1,
{
    if n > 0 {
        value_at_prefix(b, more, pos, vt);
        crate::value::value_at_advances(b, pos, vt);
        if let Ok((_, p)) = crate::value::value_at(b, pos, vt) {
            items_at_prefix(b, more, p, vt, (n - 1) as nat);
        }
    }
}

proof fn pairs_at_prefix(b: Seq<u8>, more: Seq<u8>, pos: int, n: nat)
    requires
        0 <= pos <= b.len(),
    ensures
        pairs_at(b, pos, n) is Ok ==> pairs_at(b + more, pos, n) == pairs_at(b, pos, n),
    decreases n,
{
    if n > 0 {
        string_at_prefix(b, more, pos);
        if let Ok((_, q)) = crate::value::string_at(b, pos) {
            bytes_at_prefix(b, more, q, 4);
            if let Ok((vt, r)) = crate::value::number_at(b, q, 4) {
                value_at_prefix(b, more, r, vt as u32);
                crate::value::value_at_advances(b, r, vt as u32);
            }
        }
        if let Ok((_, p)) = pair_at(b, pos) {
            pairs_at_prefix(b, more, p, (n - 1) as nat);
        }
    }
}

proof fn dims_at_prefix(b: Seq<u8>, more: Seq<u8>, pos: int, n: nat)
    requires
        0 <= pos <= b.len(),
    ensures
        dims_at(b, pos, n) is Ok ==> dims_at(b + more, pos, n) == dims_at(b, pos, n),
    decreases n,
{
    if n > 0 {
        bytes_at_prefix(b, more, pos, 8);
        if let Ok((_, p)) = crate::value::number_at(b, pos, 8) {
            dims_at_prefix(b, more, p, (n - 1) as nat);
        }
    }
}

proof fn tensors_at_prefix(b: Seq<u8>, more: Seq<u8>, pos: int, n: nat)
    requires
        0 <= pos <= b.len(),
    ensures
        tensors_at(b, pos, n) is Ok ==> tensors_at(b + more, pos, n) == tensors_at(b, pos, n),
    decreases n,
{
    if n > 0 {
        string_at_prefix(b, more, pos);
        if let Ok((_, p)) = crate::value::string_at(b, pos) {
            bytes_at_prefix(b, more, p, 4);
            if let Ok((n_dims, q)) = crate::value::number_at(b, p, 4) {
                dims_at_prefix(b, more, q, n_dims);
                dims_at_shape(b, q, n_dims);
                if let Ok((_, r)) = dims_at(b, q, n_dims) {
                    bytes_at_prefix(b, more, r, 4);
                    if let Ok((_, s)) = crate::value::number_at(b, r, 4) {
                        bytes_at_prefix(b, more, s, 8);
                    }
                }
            }
        }
        if let Ok((_, p)) = tensor_at(b, pos) {
            tensors_at_prefix(b, more, p, (n - 1) as nat);
        }
    }
}

/// The data section plays no part: a file that can be opened reads the same
/// whatever bytes follow.
pub proof fn weights_are_not_read(b: Seq<u8>, more: Seq<u8>)
    ensures
        file_at(b) is Ok ==> file_at(b + more) == file_at(b),
{
    if let Ok(f) = file_at(b) {
        bytes_at_prefix(b, more, 0, 4);
        bytes_at_prefix(b, more, 4, 4);
        bytes_at_prefix(b, more, 8, 8);
        bytes_at_prefix(b, more, 16, 8);
        pairs_at_prefix(b, more, 24, f.header.kv_count as nat);
        pairs_at_shape(b, 24, f.header.kv_count as nat);
        let (_, p) = pairs_at(b, 24, f.header.kv_count as nat)->Ok_0;
        tensors_at_prefix(b, more, p, f.header.tensor_count as nat);
    }
}

/// The elements of a tensor multiply over its dimensions, whatever their number.
pub proof fn dimensions_multiply(a: Seq<u64>, b: Seq<u64>, d: u64)
    ensures
        product(a + b) == product(a) * product(b),
        product(seq![d]) == d,
        product(Seq::<u64>::empty()) == 1,
    decreases b.len(),
{
    reveal_with_fuel(product, 2);
    assert(seq![d].drop_last() =~= Seq::<u64>::empty());
    assert(1 * (d as nat) == d) by (nonlinear_arith);
    if b.len() == 0 {
        assert(a + b =~= a);
        assert(product(a) * 1 == product(a)) by (nonlinear_arith);
    } else {
        let last = b.last() as nat;
        let x = product(a);
        let y = product(b.drop_last());
        dimensions_multiply(a, b.drop_last(), d);
        assert((a + b).drop_last() =~= a + b.drop_last());
        assert((a + b).last() == b.last());
        assert((x * y) * last == x * (y * last)) by (nonlinear_arith);
    }
}

/// Only files that begin with the letters GGUF and the version two or three are read.
pub proof fn files_begin_with_letters_and_version(b: Seq<u8>)
    requires
        file_at(b) is Ok,
    ensures
        b.len() >= 24,
        b.take(4) == seq!['G' as u8, 'G' as u8, 'U' as u8, 'F' as u8],
        b.subrange(4, 8) == seq![2u8, 0u8, 0u8, 0u8] || b.subrange(4, 8) == seq![
            3u8,
            0u8,
            0u8,
            0u8,
        ],
{
    four_bytes(b.subrange(0, 4));
    four_bytes(b.subrange(4, 8));
    assert(b.take(4) =~= b.subrange(0, 4));
    assert(b.take(4) =~= seq!['G' as u8, 'G' as u8, 'U' as u8, 'F' as u8]);
    let v = b.subrange(4, 8);
    assert(v =~= seq![2u8, 0u8, 0u8, 0u8] || v =~= seq![3u8, 0u8, 0u8, 0u8]);
}

proof fn four_bytes(s: Seq<u8>)
    requires
        s.len() == 4,
    ensures
        crate::value::little_endian(s) == s[0] + 0x100 * s[1] + 0x1_0000 * s[2] + 0x100_0000 * s[3],
{
    let a = s.drop_first();
    let b = a.drop_first();
    let c = b.drop_first();
    let d = c.drop_first();
    assert(a[0] == s[1] && b[0] == s[2] && c[0] == s[3]);
    assert(crate::value::little_endian(d) == 0);
    assert(crate::value::little_endian(c) == s[3] as nat);
    assert(crate::value::little_endian(b) == s[2] as nat + 256 * s[3]);
    assert(crate::value::little_endian(a) == s[1] as nat + 256 * s[2] + 0x1_0000 * s[3]);
}

} // verus!
