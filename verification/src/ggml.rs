//! GGML tensor types and the layout of their quantization blocks.

use vstd::prelude::*;

use crate::text::push_decimal;

verus! {

/// Storage type of a tensor.
#[allow(non_camel_case_types)]
#[derive(Debug, Clone, Copy, PartialEq, Eq, Hash, Structural)]
pub enum GgmlType {
    F32,
    F16,
    Q4_0,
    Q4_1,
    Q5_0,
    Q5_1,
    Q8_0,
    Q8_1,
    Q2K,
    Q3K,
    Q4K,
    Q5K,
    Q6K,
    Q8K,
    Iq2Xxs,
    Iq2Xs,
    Iq3Xxs,
    Iq1S,
    Iq4Nl,
    Iq3S,
    Iq2S,
    Iq4Xs,
    Iq1M,
    Bf16,
    /// A code this engine has no name for.
    Unknown(u32),
}

impl GgmlType {
    /// The numeric code of the type in a GGUF file.
    pub open spec fn code(self) -> u32 {
        match self {
            GgmlType::F32 => 0,
            GgmlType::F16 => 1,
            GgmlType::Q4_0 => 2,
            GgmlType::Q4_1 => 3,
            GgmlType::Q5_0 => 6,
            GgmlType::Q5_1 => 7,
            GgmlType::Q8_0 => 8,
            GgmlType::Q8_1 => 9,
            GgmlType::Q2K => 10,
            GgmlType::Q3K => 11,
            GgmlType::Q4K => 12,
            GgmlType::Q5K => 13,
            GgmlType::Q6K => 14,
            GgmlType::Q8K => 15,
            GgmlType::Iq2Xxs => 16,
            GgmlType::Iq2Xs => 17,
            GgmlType::Iq3Xxs => 18,
            GgmlType::Iq1S => 19,
            GgmlType::Iq4Nl => 20,
            GgmlType::Iq3S => 21,
            GgmlType::Iq2S => 22,
            GgmlType::Iq4Xs => 23,
            GgmlType::Iq1M => 24,
            GgmlType::Bf16 => 30,
            GgmlType::Unknown(v) => v,
        }
    }

    /// `Unknown` only carries codes that no named type has.
    pub open spec fn canonical(self) -> bool {
        self matches GgmlType::Unknown(v) ==> v != 0 && v != 1 && v != 2 && v != 3 && !(6 <= v <= 24)
            && v != 30
    }

    /// Elements and bytes of one quantization block; `None` for the types that
    /// are not stored in blocks.
    pub open spec fn layout(self) -> Option<(nat, nat)> {
        match self {
            GgmlType::Q4_0 => Some((32, 18)),
            GgmlType::Q4_1 => Some((32, 20)),
            GgmlType::Q5_0 => Some((32, 22)),
            GgmlType::Q5_1 => Some((32, 24)),
            GgmlType::Q8_0 => Some((32, 34)),
            GgmlType::Q8_1 => Some((32, 36)),
            GgmlType::Q2K => Some((256, 84)),
            GgmlType::Q3K => Some((256, 110)),
            GgmlType::Q4K => Some((256, 144)),
            GgmlType::Q5K => Some((256, 176)),
            GgmlType::Q6K => Some((256, 210)),
            GgmlType::Q8K => Some((256, 256)),
            GgmlType::Iq2Xxs => Some((256, 66)),
            GgmlType::Iq2Xs => Some((256, 74)),
            GgmlType::Iq3Xxs => Some((256, 98)),
            GgmlType::Iq1S => Some((256, 50)),
            GgmlType::Iq4Nl => Some((256, 136)),
            GgmlType::Iq3S => Some((256, 102)),
            GgmlType::Iq2S => Some((256, 82)),
            GgmlType::Iq4Xs => Some((256, 136)),
            GgmlType::Iq1M => Some((256, 56)),
            _ => None,
        }
    }

    /// Bytes that one value of an unblocked type takes: two for the half-width
    /// types, four for f32. Unknown types count four.
    pub open spec fn value_size(self) -> nat {
        if self == GgmlType::F16 || self == GgmlType::Bf16 {
            2
        } else {
            4
        }
    }

    /// The canonical ggml name.
    pub open spec fn label(self) -> Seq<char> {
        match self {
            GgmlType::F32 => "F32"@,
            GgmlType::F16 => "F16"@,
            GgmlType::Q4_0 => "Q4_0"@,
            GgmlType::Q4_1 => "Q4_1"@,
            GgmlType::Q5_0 => "Q5_0"@,
            GgmlType::Q5_1 => "Q5_1"@,
            GgmlType::Q8_0 => "Q8_0"@,
            GgmlType::Q8_1 => "Q8_1"@,
            GgmlType::Q2K => "Q2_K"@,
            GgmlType::Q3K => "Q3_K"@,
            GgmlType::Q4K => "Q4_K"@,
            GgmlType::Q5K => "Q5_K"@,
            GgmlType::Q6K => "Q6_K"@,
            GgmlType::Q8K => "Q8_K"@,
            GgmlType::Iq2Xxs => "IQ2_XXS"@,
            GgmlType::Iq2Xs => "IQ2_XS"@,
            GgmlType::Iq3Xxs => "IQ3_XXS"@,
            GgmlType::Iq1S => "IQ1_S"@,
            GgmlType::Iq4Nl => "IQ4_NL"@,
            GgmlType::Iq3S => "IQ3_S"@,
            GgmlType::Iq2S => "IQ2_S"@,
            GgmlType::Iq4Xs => "IQ4_XS"@,
            GgmlType::Iq1M => "IQ1_M"@,
            GgmlType::Bf16 => "BF16"@,
            GgmlType::Unknown(v) => "UNKNOWN("@ + crate::text::decimal(v as nat) + ")"@,
        }
    }

    /// The name of the variant, as `Debug` prints it.
    pub open spec fn variant_name(self) -> Seq<char> {
        match self {
            GgmlType::F32 => "F32"@,
            GgmlType::F16 => "F16"@,
            GgmlType::Q4_0 => "Q4_0"@,
            GgmlType::Q4_1 => "Q4_1"@,
            GgmlType::Q5_0 => "Q5_0"@,
            GgmlType::Q5_1 => "Q5_1"@,
            GgmlType::Q8_0 => "Q8_0"@,
            GgmlType::Q8_1 => "Q8_1"@,
            GgmlType::Q2K => "Q2K"@,
            GgmlType::Q3K => "Q3K"@,
            GgmlType::Q4K => "Q4K"@,
            GgmlType::Q5K => "Q5K"@,
            GgmlType::Q6K => "Q6K"@,
            GgmlType::Q8K => "Q8K"@,
            GgmlType::Iq2Xxs => "Iq2Xxs"@,
            GgmlType::Iq2Xs => "Iq2Xs"@,
            GgmlType::Iq3Xxs => "Iq3Xxs"@,
            GgmlType::Iq1S => "Iq1S"@,
            GgmlType::Iq4Nl => "Iq4Nl"@,
            GgmlType::Iq3S => "Iq3S"@,
            GgmlType::Iq2S => "Iq2S"@,
            GgmlType::Iq4Xs => "Iq4Xs"@,
            GgmlType::Iq1M => "Iq1M"@,
            GgmlType::Bf16 => "Bf16"@,
            GgmlType::Unknown(v) => "Unknown("@ + crate::text::decimal(v as nat) + ")"@,
        }
    }

    /// The type with the given numeric code.
    pub open spec fn of_code(v: u32) -> GgmlType {
        choose|t: GgmlType| #[trigger] t.code() == v && t.canonical()
    }

    /// The type with the given numeric code. Codes without a name become
    /// `Unknown`, so the answer is never `None`.
    pub fn from_raw(v: u32) -> (r: Option<Self>)
        ensures
            r matches Some(t) && t.code() == v && t.canonical() && t == GgmlType::of_code(v),
    {
        let t = match v {
            0 => GgmlType::F32,
            1 => GgmlType::F16,
            2 => GgmlType::Q4_0,
            3 => GgmlType::Q4_1,
            6 => GgmlType::Q5_0,
            7 => GgmlType::Q5_1,
            8 => GgmlType::Q8_0,
            9 => GgmlType::Q8_1,
            10 => GgmlType::Q2K,
            11 => GgmlType::Q3K,
            12 => GgmlType::Q4K,
            13 => GgmlType::Q5K,
            14 => GgmlType::Q6K,
            15 => GgmlType::Q8K,
            16 => GgmlType::Iq2Xxs,
            17 => GgmlType::Iq2Xs,
            18 => GgmlType::Iq3Xxs,
            19 => GgmlType::Iq1S,
            20 => GgmlType::Iq4Nl,
            21 => GgmlType::Iq3S,
            22 => GgmlType::Iq2S,
            23 => GgmlType::Iq4Xs,
            24 => GgmlType::Iq1M,
            30 => GgmlType::Bf16,
            other => GgmlType::Unknown(other),
        };
        proof {
            assert(t.code() == v && t.canonical());
            code_identifies_type(t, GgmlType::of_code(v));
        }
        Some(t)
    }

    /// Size in bytes of one value of a type that is not quantized.
    pub fn type_size(&self) -> (r: usize)
        ensures
            r == self.value_size(),
    {
        match self {
            GgmlType::F16 | GgmlType::Bf16 => 2,
            _ => 4,
        }
    }

    /// For quantized types, elements per block and bytes per block; `None` for
    /// the others (see `type_size`).
    pub fn block_layout(&self) -> (r: Option<(usize, usize)>)
        ensures
            match self.layout() {
                Some((elems, bytes)) => r matches Some((e, b)) && e == elems && b == bytes,
                None => r is None,
            },
    {
        match self {
            GgmlType::Q4_0 => Some((32, 18)),
            GgmlType::Q4_1 => Some((32, 20)),
            GgmlType::Q5_0 => Some((32, 22)),
            GgmlType::Q5_1 => Some((32, 24)),
            GgmlType::Q8_0 => Some((32, 34)),
            GgmlType::Q8_1 => Some((32, 36)),
            GgmlType::Q2K => Some((256, 84)),
            GgmlType::Q3K => Some((256, 110)),
            GgmlType::Q4K => Some((256, 144)),
            GgmlType::Q5K => Some((256, 176)),
            GgmlType::Q6K => Some((256, 210)),
            GgmlType::Q8K => Some((256, 256)),
            GgmlType::Iq2Xxs => Some((256, 66)),
            GgmlType::Iq2Xs => Some((256, 74)),
            GgmlType::Iq3Xxs => Some((256, 98)),
            GgmlType::Iq1S => Some((256, 50)),
            GgmlType::Iq4Nl => Some((256, 136)),
            GgmlType::Iq3S => Some((256, 102)),
            GgmlType::Iq2S => Some((256, 82)),
            GgmlType::Iq4Xs => Some((256, 136)),
            GgmlType::Iq1M => Some((256, 56)),
            _ => None,
        }
    }

    /// Whether values of this type are stored in quantization blocks.
    pub fn is_quantized(&self) -> (r: bool)
        ensures
            r == !(self is F32 || self is F16 || self is Bf16 || self is Unknown),
            r == self.layout() is Some,
    {
        match self {
            GgmlType::F32 | GgmlType::F16 | GgmlType::Bf16 | GgmlType::Unknown(_) => false,
            _ => true,
        }
    }

    /// The canonical ggml name.
    pub fn name(&self) -> (r: String)
        ensures
            r@ == self.label(),
    {
        let s = match self {
            GgmlType::F32 => "F32",
            GgmlType::F16 => "F16",
            GgmlType::Q4_0 => "Q4_0",
            GgmlType::Q4_1 => "Q4_1",
            GgmlType::Q5_0 => "Q5_0",
            GgmlType::Q5_1 => "Q5_1",
            GgmlType::Q8_0 => "Q8_0",
            GgmlType::Q8_1 => "Q8_1",
            GgmlType::Q2K => "Q2_K",
            GgmlType::Q3K => "Q3_K",
            GgmlType::Q4K => "Q4_K",
            GgmlType::Q5K => "Q5_K",
            GgmlType::Q6K => "Q6_K",
            GgmlType::Q8K => "Q8_K",
            GgmlType::Iq2Xxs => "IQ2_XXS",
            GgmlType::Iq2Xs => "IQ2_XS",
            GgmlType::Iq3Xxs => "IQ3_XXS",
            GgmlType::Iq1S => "IQ1_S",
            GgmlType::Iq4Nl => "IQ4_NL",
            GgmlType::Iq3S => "IQ3_S",
            GgmlType::Iq2S => "IQ2_S",
            GgmlType::Iq4Xs => "IQ4_XS",
            GgmlType::Iq1M => "IQ1_M",
            GgmlType::Bf16 => "BF16",
            GgmlType::Unknown(v) => {
                return tagged_number("UNKNOWN(", *v);
            },
        };
        s.to_owned()
    }

    /// The name of the variant, as `Debug` prints it.
    pub fn debug_name(&self) -> (r: String)
        ensures
            r@ == self.variant_name(),
    {
        let s = match self {
            GgmlType::F32 => "F32",
            GgmlType::F16 => "F16",
            GgmlType::Q4_0 => "Q4_0",
            GgmlType::Q4_1 => "Q4_1",
            GgmlType::Q5_0 => "Q5_0",
            GgmlType::Q5_1 => "Q5_1",
            GgmlType::Q8_0 => "Q8_0",
            GgmlType::Q8_1 => "Q8_1",
            GgmlType::Q2K => "Q2K",
            GgmlType::Q3K => "Q3K",
            GgmlType::Q4K => "Q4K",
            GgmlType::Q5K => "Q5K",
            GgmlType::Q6K => "Q6K",
            GgmlType::Q8K => "Q8K",
            GgmlType::Iq2Xxs => "Iq2Xxs",
            GgmlType::Iq2Xs => "Iq2Xs",
            GgmlType::Iq3Xxs => "Iq3Xxs",
            GgmlType::Iq1S => "Iq1S",
            GgmlType::Iq4Nl => "Iq4Nl",
            GgmlType::Iq3S => "Iq3S",
            GgmlType::Iq2S => "Iq2S",
            GgmlType::Iq4Xs => "Iq4Xs",
            GgmlType::Iq1M => "Iq1M",
            GgmlType::Bf16 => "Bf16",
            GgmlType::Unknown(v) => {
                return tagged_number("Unknown(", *v);
            },
        };
        s.to_owned()
    }
}

fn tagged_number(open: &str, v: u32) -> (r: String)
    ensures
        r@ == open@ + crate::text::decimal(v as nat) + ")"@,
{
    let mut out = String::new();
    out.push_str(open);
    push_decimal(&mut out, v as u64);
    out.push_str(")");
    assert(out@ =~= open@ + crate::text::decimal(v as nat) + ")"@);
    out
}

/// The numeric code identifies the type: two types read from files are equal
/// exactly when their codes are.
pub proof fn code_identifies_type(a: GgmlType, b: GgmlType)
    requires
        a.canonical(),
        b.canonical(),
    ensures
        a == b <==> a.code() == b.code(),
{
}

/// The code of a type read from a file gives the type back.
pub proof fn codes_read_back(t: GgmlType)
    requires
        t.canonical(),
    ensures
        GgmlType::of_code(t.code()) == t,
{
    assert(t.code() == t.code() && t.canonical());
    code_identifies_type(t, GgmlType::of_code(t.code()));
}

/// The codes of the format: the plain types, the blocks of 32, the blocks of 256, the
/// blocks with importance, and BF16. All other codes are unknown.
pub proof fn codes_of_the_format(v: u32)
    ensures
        v < 4 ==> GgmlType::of_code(v) == seq![
            GgmlType::F32,
            GgmlType::F16,
            GgmlType::Q4_0,
            GgmlType::Q4_1,
        ][v as int],
        6 <= v < 10 ==> GgmlType::of_code(v) == seq![
            GgmlType::Q5_0,
            GgmlType::Q5_1,
            GgmlType::Q8_0,
            GgmlType::Q8_1,
        ][v - 6],
        10 <= v < 16 ==> GgmlType::of_code(v) == seq![
            GgmlType::Q2K,
            GgmlType::Q3K,
            GgmlType::Q4K,
            GgmlType::Q5K,
            GgmlType::Q6K,
            GgmlType::Q8K,
        ][v - 10],
        16 <= v < 25 ==> GgmlType::of_code(v) == seq![
            GgmlType::Iq2Xxs,
            GgmlType::Iq2Xs,
            GgmlType::Iq3Xxs,
            GgmlType::Iq1S,
            GgmlType::Iq4Nl,
            GgmlType::Iq3S,
            GgmlType::Iq2S,
            GgmlType::Iq4Xs,
            GgmlType::Iq1M,
        ][v - 16],
        v == 30 ==> GgmlType::of_code(v) == GgmlType::Bf16,
        4 <= v < 6 || 25 <= v < 30 || v > 30 ==> GgmlType::of_code(v) == GgmlType::Unknown(v),
{
    codes_read_back(GgmlType::F32);
    codes_read_back(GgmlType::F16);
    codes_read_back(GgmlType::Q4_0);
    codes_read_back(GgmlType::Q4_1);
    codes_read_back(GgmlType::Q5_0);
    codes_read_back(GgmlType::Q5_1);
    codes_read_back(GgmlType::Q8_0);
    codes_read_back(GgmlType::Q8_1);
    codes_read_back(GgmlType::Q2K);
    codes_read_back(GgmlType::Q3K);
    codes_read_back(GgmlType::Q4K);
    codes_read_back(GgmlType::Q5K);
    codes_read_back(GgmlType::Q6K);
    codes_read_back(GgmlType::Q8K);
    codes_read_back(GgmlType::Iq2Xxs);
    codes_read_back(GgmlType::Iq2Xs);
    codes_read_back(GgmlType::Iq3Xxs);
    codes_read_back(GgmlType::Iq1S);
    codes_read_back(GgmlType::Iq4Nl);
    codes_read_back(GgmlType::Iq3S);
    codes_read_back(GgmlType::Iq2S);
    codes_read_back(GgmlType::Iq4Xs);
    codes_read_back(GgmlType::Iq1M);
    codes_read_back(GgmlType::Bf16);
    if 4 <= v < 6 || 25 <= v < 30 || v > 30 {
        codes_read_back(GgmlType::Unknown(v));
    }
}

/// A block of `n` weights of `bits` bits each, and `more` bytes of scales.
pub open spec fn packs(t: GgmlType, n: nat, bits: nat, more: nat) -> bool {
    t.layout() == Some((n, n * bits / 8 + more))
}

/// What the blocks are made of: so many bits per weight, and the bytes of the scales.
pub proof fn blocks_hold_weights_and_scales()
    ensures
        packs(GgmlType::Q4_0, 32, 4, 2),
        packs(GgmlType::Q4_1, 32, 4, 4),
        packs(GgmlType::Q5_0, 32, 5, 2),
        packs(GgmlType::Q5_1, 32, 5, 4),
        packs(GgmlType::Q8_0, 32, 8, 2),
        packs(GgmlType::Q8_1, 32, 8, 4),
        packs(GgmlType::Q2K, 256, 2, 20),
        packs(GgmlType::Q3K, 256, 3, 14),
        packs(GgmlType::Q4K, 256, 4, 16),
        packs(GgmlType::Q5K, 256, 5, 16),
        packs(GgmlType::Q6K, 256, 6, 18),
        packs(GgmlType::Q8K, 256, 8, 0),
        packs(GgmlType::Iq2Xxs, 256, 2, 2),
        packs(GgmlType::Iq2Xs, 256, 2, 10),
        packs(GgmlType::Iq3Xxs, 256, 3, 2),
        packs(GgmlType::Iq1S, 256, 1, 18),
        packs(GgmlType::Iq4Nl, 256, 4, 8),
        packs(GgmlType::Iq3S, 256, 3, 6),
        packs(GgmlType::Iq2S, 256, 2, 18),
        packs(GgmlType::Iq4Xs, 256, 4, 8),
        packs(GgmlType::Iq1M, 256, 1, 24),
{
}

/// The types that are not quantized take four bytes per value, or two where their name
/// says sixteen bits; they have no blocks, and all others do.
pub proof fn plain_values_have_no_blocks(t: GgmlType)
    ensures
        t == GgmlType::F32 ==> t.layout() is None && t.value_size() == 4,
        t == GgmlType::F16 || t == GgmlType::Bf16 ==> t.layout() is None && t.value_size() == 2,
        t is Unknown ==> t.layout() is None && t.value_size() == 4,
        !(t is Unknown) && t != GgmlType::F32 && t != GgmlType::F16 && t != GgmlType::Bf16
            ==> t.layout() is Some,
{
}

} // verus!
