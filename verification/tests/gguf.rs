use siliceo_motor::dequant::{dequant_q4_k, dequant_q5_0, dequant_q6_k, dequant_q8_0, get_scale_min_k4};
use siliceo_motor::ggml::GgmlType;
use siliceo_motor::gguf::GgufFile;
use siliceo_motor::ieee::{bf16_to_f32, fp16_to_f32};
use siliceo_motor::value::{Cursor, GgufError, GgufValue};

fn text(v: &mut Vec<u8>, s: &str) {
    v.extend_from_slice(&(s.len() as u64).to_le_bytes());
    v.extend_from_slice(s.as_bytes());
}

/// A complete GGUF v3 file: three metadata entries (string, u32, array of f32) and two
/// tensors (F32 and Q8_0), the data aligned to 32.
fn build_test_gguf() -> Vec<u8> {
    let mut v = Vec::new();
    v.extend_from_slice(b"GGUF");
    v.extend_from_slice(&3u32.to_le_bytes());
    v.extend_from_slice(&2u64.to_le_bytes());
    v.extend_from_slice(&3u64.to_le_bytes());

    text(&mut v, "general.name");
    v.extend_from_slice(&8u32.to_le_bytes());
    text(&mut v, "test-model");

    text(&mut v, "general.alignment");
    v.extend_from_slice(&4u32.to_le_bytes());
    v.extend_from_slice(&32u32.to_le_bytes());

    text(&mut v, "test.scales");
    v.extend_from_slice(&9u32.to_le_bytes());
    v.extend_from_slice(&6u32.to_le_bytes());
    v.extend_from_slice(&2u64.to_le_bytes());
    v.extend_from_slice(&1.0f32.to_le_bytes());
    v.extend_from_slice(&2.0f32.to_le_bytes());

    text(&mut v, "w0");
    v.extend_from_slice(&2u32.to_le_bytes());
    v.extend_from_slice(&2u64.to_le_bytes());
    v.extend_from_slice(&2u64.to_le_bytes());
    v.extend_from_slice(&0u32.to_le_bytes());
    v.extend_from_slice(&0u64.to_le_bytes());

    text(&mut v, "w1");
    v.extend_from_slice(&1u32.to_le_bytes());
    v.extend_from_slice(&64u64.to_le_bytes());
    v.extend_from_slice(&8u32.to_le_bytes());
    v.extend_from_slice(&16u64.to_le_bytes());

    while v.len() % 32 != 0 {
        v.push(0);
    }
    v.extend_from_slice(&1.0f32.to_le_bytes());
    v.extend_from_slice(&2.0f32.to_le_bytes());
    v.extend_from_slice(&3.0f32.to_le_bytes());
    v.extend_from_slice(&4.0f32.to_le_bytes());
    v.extend_from_slice(&0x3C00u16.to_le_bytes());
    for i in 0..32i8 {
        v.push(i as u8);
    }
    v.extend_from_slice(&0x3800u16.to_le_bytes());
    for i in 1..=32i8 {
        v.push(i as u8);
    }
    v
}

fn floats(w: Vec<u32>) -> Vec<f32> {
    w.into_iter().map(f32::from_bits).collect()
}

#[test]
fn header_and_metadata() {
    let f = GgufFile::open(&build_test_gguf()).unwrap();
    assert_eq!(f.header.version, 3);
    assert_eq!(f.header.tensor_count, 2);
    assert_eq!(f.header.kv_count, 3);
    assert_eq!(f.alignment(), 32);

    assert_eq!(
        f.metadata.iter().find(|(k, _)| k == "general.name").unwrap().1,
        GgufValue::String("test-model".into())
    );
    match &f.metadata.iter().find(|(k, _)| k == "test.scales").unwrap().1 {
        GgufValue::Array(a) => {
            assert_eq!(a.len(), 2);
            assert_eq!(a[0], GgufValue::F32(1.0f32.to_bits()));
            assert_eq!(a[1], GgufValue::F32(2.0f32.to_bits()));
        }
        other => panic!("atteso array, trovato {other:?}"),
    }
}

#[test]
fn tensor_infos_and_lazy_data() {
    let buf = build_test_gguf();
    let f = GgufFile::open(&buf).unwrap();

    let w0 = f.tensor("w0").unwrap();
    assert_eq!(w0.ggml_type, GgmlType::F32);
    assert_eq!(w0.n_elements(), 4);

    let w1 = f.tensor("w1").unwrap();
    assert_eq!(w1.ggml_type, GgmlType::Q8_0);
    assert_eq!(w1.n_bytes(), 2 * 34);

    let d0 = floats(f.tensor_data_f32(&buf, "w0").unwrap());
    assert_eq!(d0, vec![1.0, 2.0, 3.0, 4.0]);

    let d1 = floats(f.tensor_data_f32(&buf, "w1").unwrap());
    assert_eq!(d1.len(), 64);
    assert!((d1[0] - 0.0).abs() < 1e-6);
    assert!((d1[31] - 31.0).abs() < 1e-4);
    assert!((d1[32] - 0.5).abs() < 1e-6);
    assert!((d1[63] - 16.0).abs() < 1e-4);

    assert!(f.tensor("inesistente").is_err());
}

/// A file whose only tensor, the last thing in it, holds four BF16 values.
fn bf16_file() -> Vec<u8> {
    let mut v = b"GGUF".to_vec();
    v.extend_from_slice(&3u32.to_le_bytes());
    v.extend_from_slice(&1u64.to_le_bytes());
    v.extend_from_slice(&0u64.to_le_bytes());
    text(&mut v, "b");
    v.extend_from_slice(&1u32.to_le_bytes());
    v.extend_from_slice(&4u64.to_le_bytes());
    v.extend_from_slice(&30u32.to_le_bytes());
    v.extend_from_slice(&0u64.to_le_bytes());
    while v.len() % 32 != 0 {
        v.push(0);
    }
    for x in [0x3F80u16, 0xC000, 0x0000, 0x4049] {
        v.extend_from_slice(&x.to_le_bytes());
    }
    v
}

#[test]
fn bf16_takes_two_bytes_per_value() {
    let buf = bf16_file();
    let f = GgufFile::open(&buf).unwrap();
    let b = f.tensor("b").unwrap();
    assert_eq!(b.ggml_type, GgmlType::Bf16);
    assert_eq!(b.n_bytes(), 8);
    assert_eq!(f.tensor_span("b").unwrap(), (f.data_start(), 8));
    assert_eq!(f.tensor_data_raw(&buf, "b").unwrap(), &buf[buf.len() - 8..]);
    assert_eq!(floats(f.tensor_data_f32(&buf, "b").unwrap()), vec![1.0, -2.0, 0.0, 3.140625]);
    let short = &buf[..buf.len() - 1];
    match f.tensor_data_f32(short, "b") {
        Err(GgufError::Truncated { expected, found }) => assert_eq!((expected, found), (8, 7)),
        other => panic!("{other:?}"),
    }
}

#[test]
fn tensors_without_data() {
    // no values, since a dimension is zero, said to start far past the end
    let mut v = b"GGUF".to_vec();
    v.extend_from_slice(&3u32.to_le_bytes());
    v.extend_from_slice(&2u64.to_le_bytes());
    v.extend_from_slice(&0u64.to_le_bytes());
    text(&mut v, "none");
    v.extend_from_slice(&2u32.to_le_bytes());
    v.extend_from_slice(&4u64.to_le_bytes());
    v.extend_from_slice(&0u64.to_le_bytes());
    v.extend_from_slice(&30u32.to_le_bytes());
    v.extend_from_slice(&1_000_000u64.to_le_bytes());
    // fewer weights than a block holds
    text(&mut v, "few");
    v.extend_from_slice(&1u32.to_le_bytes());
    v.extend_from_slice(&5u64.to_le_bytes());
    v.extend_from_slice(&8u32.to_le_bytes());
    v.extend_from_slice(&1_000_000u64.to_le_bytes());
    let f = GgufFile::open(&v).unwrap();
    assert_eq!(f.tensor_data_raw(&v, "none").unwrap(), &[] as &[u8]);
    assert_eq!(f.tensor_data_f32(&v, "none").unwrap(), Vec::<u32>::new());
    assert_eq!(f.tensor_data_raw(&v, "few").unwrap(), &[] as &[u8]);
    assert_eq!(floats(f.tensor_data_f32(&v, "few").unwrap()), vec![0.0; 5]);
}

#[test]
fn values_are_copied_whole() {
    let v = GgufValue::Array(vec![GgufValue::String("a".into()), GgufValue::Array(vec![GgufValue::F32(7)])]);
    assert_eq!(v.clone(), v);
}

#[test]
fn cursor_after_an_error() {
    let bytes = [9u8, 0, 0, 0, 0, 0, 0, 0, 1, 2];
    let mut c = Cursor::new(&bytes);
    assert!(matches!(GgufValue::read(&mut c, 13), Err(GgufError::BadType(13))));
    assert_eq!(c.pos(), 0);
    assert!(c.read_string().is_err());
    assert_eq!(c.pos(), 8);
    assert!(c.read_u16().is_ok());
    assert!(c.read_u8().is_err() && c.read_u16().is_err() && c.read_u32().is_err() && c.read_u64().is_err());
    assert!(c.read_string().is_err());
    assert_eq!(c.pos(), 10);
    // a string that is not UTF-8 is passed over
    let bytes = [1u8, 0, 0, 0, 0, 0, 0, 0, 0xFF];
    let mut c = Cursor::new(&bytes);
    assert!(c.read_string().is_err());
    assert_eq!(c.pos(), 9);
    // an array stops at the item that is missing
    let bytes = [2u8, 0, 0, 0, 2, 0, 0, 0, 0, 0, 0, 0, 7, 0, 8];
    let mut c = Cursor::new(&bytes);
    assert!(GgufValue::read(&mut c, 9).is_err());
    assert_eq!(c.pos(), 14);
}

#[test]
fn bad_magic_rejected() {
    assert!(matches!(GgufFile::open(b"NOPE0000"), Err(GgufError::BadMagic)));
}

#[test]
fn data_lies_where_the_table_says() {
    let buf = build_test_gguf();
    let f = GgufFile::open(&buf).unwrap();
    assert_eq!(f.data_start() % 32, 0);
    assert_eq!(f.tensor_span("w1").unwrap(), (f.data_start() + 16, 68));
    assert_eq!(f.tensor_data_raw(&buf, "w0").unwrap(), &buf[f.data_start() as usize..f.data_start() as usize + 16]);
    // the tables read the same whatever the data is
    let g = GgufFile::open(&buf[..f.data_start() as usize]).unwrap();
    assert_eq!(g.tensors.len(), 2);
    assert_eq!(
        g.tensor_data_raw(&buf[..f.data_start() as usize], "w1").unwrap_err(),
        GgufError::Truncated { expected: 68, found: 0 }
    );
}

fn refused(buf: &[u8]) -> GgufError {
    GgufFile::open(buf).err().unwrap()
}

#[test]
fn broken_files() {
    let buf = build_test_gguf();
    assert_eq!(refused(&buf[..3]), GgufError::Truncated { expected: 4, found: 3 });
    let mut v = buf.clone();
    v[4] = 9;
    let e = refused(&v);
    assert_eq!(e, GgufError::UnsupportedVersion(9));
    assert_eq!(e.message(), "unsupported GGUF version 9 (attesa 2 o 3)");
    // a value type that does not exist
    let mut v = buf.clone();
    v[24 + 8 + 12] = 77;
    assert_eq!(refused(&v), GgufError::BadType(77));
    // too many dimensions
    let at = v.windows(2).position(|w| w == b"w0").unwrap();
    let mut v = buf.clone();
    v[at + 2] = 9;
    assert_eq!(refused(&v).message(), "bad tensor: w0: n_dims=9 fuori range");
    // alignment zero
    let mut v = buf.clone();
    let at = v.windows(17).position(|w| w == b"general.alignment").unwrap();
    v[at + 17 + 4] = 0;
    assert_eq!(refused(&v).message(), "bad tensor: allineamento non valido");
    assert_eq!(
        GgufFile::open(&buf).unwrap().tensor("x").unwrap_err().message(),
        "tensor not found: x"
    );
}

#[test]
fn dimensions_that_overflow() {
    let mut v = build_test_gguf();
    let at = v.windows(2).position(|w| w == b"w0").unwrap() + 6;
    for k in 0..8 {
        v[at + k] = 0xff;
        v[at + 8 + k] = 0xff;
    }
    let f = GgufFile::open(&v).unwrap();
    assert_eq!(
        f.tensor_data_f32(&v, "w0").unwrap_err().message(),
        "bad tensor: w0: dimensioni fuori range"
    );
}

#[test]
fn types_without_an_unpacking() {
    let mut v = build_test_gguf();
    let at = v.windows(2).position(|w| w == b"w1").unwrap() + 6 + 8;
    v[at] = 2;
    let f = GgufFile::open(&v).unwrap();
    assert_eq!(
        f.tensor_data_f32(&v, "w1").unwrap_err().message(),
        "bad tensor: dequant per Q4_0 non ancora implementata (F0: F32/F16/BF16/Q8_0/Q4_K/Q6_K)"
    );
}

#[test]
fn types_and_their_layout() {
    assert_eq!(GgmlType::from_raw(12), Some(GgmlType::Q4K));
    assert_eq!(GgmlType::from_raw(4), Some(GgmlType::Unknown(4)));
    assert_eq!(GgmlType::F32.type_size(), 4);
    assert_eq!(GgmlType::F16.type_size(), 2);
    assert_eq!(GgmlType::Bf16.type_size(), 2);
    assert!(!GgmlType::F16.is_quantized());
    assert!(GgmlType::Q6K.is_quantized());
    assert_eq!(GgmlType::Q8_0.block_layout(), Some((32, 34)));
    assert_eq!(GgmlType::Q5_0.block_layout(), Some((32, 22)));
    assert_eq!(GgmlType::Q4K.block_layout(), Some((256, 144)));
    assert_eq!(GgmlType::Q6K.block_layout(), Some((256, 210)));
    assert_eq!(GgmlType::F32.block_layout(), None);
    assert_eq!(GgmlType::Q4K.name(), "Q4_K");
}

#[test]
fn half_precision_widens_exactly() {
    assert_eq!(f32::from_bits(fp16_to_f32(0x3C00)), 1.0);
    assert_eq!(f32::from_bits(fp16_to_f32(0xC000)), -2.0);
    assert_eq!(f32::from_bits(fp16_to_f32(0x3555)), 0.33325195);
    assert_eq!(f32::from_bits(fp16_to_f32(0x0001)), 5.9604645e-8);
    assert_eq!(f32::from_bits(fp16_to_f32(0x83ff)), -1023.0 * 5.9604645e-8);
    assert_eq!(f32::from_bits(fp16_to_f32(0x7bff)), 65504.0);
    assert_eq!(f32::from_bits(fp16_to_f32(0x7C00)), f32::INFINITY);
    assert_eq!(f32::from_bits(fp16_to_f32(0xFC00)), f32::NEG_INFINITY);
    assert!(f32::from_bits(fp16_to_f32(0x7E00)).is_nan());
    assert_eq!(fp16_to_f32(0x7E00), 0x7fc0_0000);
    assert_eq!(fp16_to_f32(0xFC01), 0xffc0_0000);
    assert_eq!(fp16_to_f32(0x8000), 0x8000_0000);
    assert_eq!(f32::from_bits(bf16_to_f32(0x3F80)), 1.0);
}

#[test]
fn scales_and_minima() {
    let s: Vec<u8> = vec![0xC1, 0x42, 0x03, 0x84, 0x05, 0xC6, 0x07, 0x08, 0x9A, 0xBC, 0xDE, 0xF1];
    assert_eq!(get_scale_min_k4(0, &s), (0x01, 0x05));
    assert_eq!(get_scale_min_k4(1, &s), (0x02, 0x06));
    assert_eq!(get_scale_min_k4(4, &s), (0x0A | 0x30, 0x09));
    assert_eq!(get_scale_min_k4(5, &s), (0x0C | 0x10, 0x0B | 0x30));
    assert_eq!(get_scale_min_k4(7, &s), (0x01 | 0x20, 0x0F));
}

#[test]
fn eight_bit_blocks() {
    let mut b = vec![0u8; 34];
    b[..2].copy_from_slice(&0x3555u16.to_le_bytes());
    for i in 0..32 {
        b[2 + i] = (i as u8).wrapping_mul(37).wrapping_add(200);
    }
    let d = f32::from_bits(fp16_to_f32(0x3555));
    let r = dequant_q8_0(&b);
    for i in 0..32 {
        assert_eq!(r[i], ((b[2 + i] as i8) as f32 * d).to_bits());
    }
    // a negative scale gives a zero its sign, an infinite one leaves no number for it
    b[2] = 0;
    b[3] = 5;
    b[1] = 0xBC;
    assert_eq!(dequant_q8_0(&b)[0], (-0.0f32).to_bits());
    b[..2].copy_from_slice(&0xFC00u16.to_le_bytes());
    let r = floats(dequant_q8_0(&b));
    assert!(r[0].is_nan());
    assert_eq!(r[1], f32::NEG_INFINITY);
    // a scale that is no number leaves none
    b[..2].copy_from_slice(&0x7E00u16.to_le_bytes());
    assert!(floats(dequant_q8_0(&b)).iter().all(|x| x.is_nan()));
}

#[test]
fn five_bit_blocks() {
    let mut b = vec![0u8; 22];
    b[1] = 0x3C;
    b[2] = 0b0000_0001; // bit 0
    b[4] = 0b0000_0010; // bit 17
    b[6] = 0x5A; // weights 0 and 16
    b[7] = 0x0F; // weights 1 and 17
    let r = floats(dequant_q5_0(&b));
    assert_eq!(r.len(), 32);
    assert_eq!((r[0], r[16], r[1], r[17], r[2]), (10.0, 5.0 - 16.0, 15.0 - 16.0, 0.0, -16.0));
}

/// Bytes without a pattern.
fn noise(n: usize, mut x: u32) -> Vec<u8> {
    (0..n)
        .map(|_| {
            x = x.wrapping_mul(1664525).wrapping_add(1013904223);
            (x >> 24) as u8
        })
        .collect()
}

#[test]
fn four_bit_blocks() {
    let mut b = vec![0u8; 144];
    b[1] = 0x3C;
    b[3] = 0x40;
    b[4] = 3; // scale 0
    b[5] = 5; // scale 1
    b[8] = 7; // minimum 0
    b[16] = 0x29; // weights 0 and 32
    let r = floats(dequant_q4_k(&b));
    assert_eq!((r[0], r[32], r[1]), (3.0 * 9.0 - 2.0 * 7.0, 5.0 * 2.0, -14.0));
    for seed in 0..40 {
        let mut b = noise(144, seed);
        b[1] &= 0x7B; // a finite scale
        b[3] &= 0xFB; // a finite scale of either sign
        let d = f32::from_bits(fp16_to_f32(b[0] as u16 | (b[1] as u16) << 8));
        let m = f32::from_bits(fp16_to_f32(b[2] as u16 | (b[3] as u16) << 8));
        let r = dequant_q4_k(&b);
        for v in 0..256 {
            let (ds, ms) = get_scale_min_k4(v / 32, &b[4..16]);
            let byte = b[16 + 32 * (v / 64) + v % 32];
            let q = if v % 64 < 32 { byte & 15 } else { byte >> 4 };
            let want = d * ds as f32 * q as f32 - m * ms as f32;
            assert_eq!(r[v], want.to_bits(), "seed {seed} weight {v}");
        }
    }
}

#[test]
fn six_bit_blocks() {
    let mut b = vec![0u8; 210];
    b[209] = 0x3C;
    b[0] = 0x21; // low bits of weights 0 and 64
    b[128] = 0b01_10_00_11; // high bits of weights 0, 32, 64, 96
    b[192] = 0xFF; // scale of the weights 0 to 15
    b[194] = 1;
    b[196] = 2;
    b[198] = 3;
    let r = floats(dequant_q6_k(&b));
    assert_eq!(r[0], -((1 | 0x30) as f32 - 32.0));
    assert_eq!(r[32], -32.0);
    assert_eq!(r[64], 2.0 * ((2 | 0x20) as f32 - 32.0));
    assert_eq!(r[96], 3.0 * (0x10 as f32 - 32.0));
    b[209] = 0x7C;
    assert_eq!(dequant_q6_k(&b), vec![0; 256]);
    for seed in 0..40 {
        let mut b = noise(210, seed);
        b[209] &= 0xFB;
        let d = f32::from_bits(fp16_to_f32(b[208] as u16 | (b[209] as u16) << 8));
        let r = dequant_q6_k(&b);
        for n in 0..2 {
            for l in 0..32 {
                let (ql, qh, sc) = (&b[64 * n..], b[128 + 32 * n + l], &b[192 + 8 * n..]);
                let lows = [ql[l] & 15, ql[l + 32] & 15, ql[l] >> 4, ql[l + 32] >> 4];
                for (k, low) in lows.iter().enumerate() {
                    let q = (low | ((qh >> (2 * k)) & 3) << 4) as i32 - 32;
                    let want = d * (sc[l / 16 + 2 * k] as i8) as f32 * q as f32;
                    assert_eq!(r[128 * n + 32 * k + l], want.to_bits());
                }
            }
        }
    }
}

#[test]
fn weights_past_the_last_block_are_zero() {
    let mut v = build_test_gguf();
    let at = v.windows(2).position(|w| w == b"w1").unwrap() + 6;
    v[at] = 70;
    let f = GgufFile::open(&v).unwrap();
    let d = f.tensor_data_f32(&v, "w1").unwrap();
    assert_eq!(d.len(), 70);
    assert_eq!(f32::from_bits(d[63]), 16.0);
    assert_eq!(d[64..], [0; 6]);
}

#[test]
fn numbers_of_values() {
    assert_eq!(GgufValue::I8(-1).as_u64(), Some(u64::MAX));
    assert_eq!(GgufValue::U16(7).as_u64(), Some(7));
    assert_eq!(GgufValue::Bool(true).as_u64(), None);
    assert_eq!(GgufValue::String("a".into()).as_str(), Some("a"));
    assert_eq!(GgufValue::F64(0.1f64.to_bits()).as_f32(), Some(0.1f32.to_bits()));
    assert_eq!(GgufValue::U8(1).as_f32(), None);
}
