use rgb_core::conceal::Confidential;
use rgb_core::value::{decode, EncodingError, Revealed, Void};
use std::cmp::Ordering;

const U_8: [u8; 2] = [0x0, 0x8];
const U_16: [u8; 3] = [0x1, 0x10, 0x0];
const U_32: [u8; 5] = [0x2, 0x20, 0x0, 0x0, 0x0];
const U_64: [u8; 9] = [0x3, 0x40, 0x0, 0x0, 0x0, 0x0, 0x0, 0x0, 0x0];
const I_8: [u8; 2] = [0x8, 0x8];
const I_16: [u8; 3] = [0x9, 0x10, 0x0];
const I_32: [u8; 5] = [0xa, 0x20, 0x0, 0x0, 0x0];
const I_64: [u8; 9] = [0xb, 0x40, 0x0, 0x0, 0x0, 0x0, 0x0, 0x0, 0x0];
const F_32: [u8; 5] = [0x32, 0x14, 0xae, 0x2, 0x42];
const F_64: [u8; 9] = [0x33, 0x7b, 0x14, 0xae, 0x47, 0xe1, 0x2a, 0x50, 0x40];
const BYTES: [u8; 36] = [
    0xe0, 0x21, 0x0, 0x7c, 0x66, 0xc0, 0x28, 0x3e, 0xe9, 0xbe, 0x98, 0xe, 0x29, 0xce, 0x32, 0x5a,
    0xf, 0x46, 0x79, 0xef, 0x87, 0x28, 0x8e, 0xd7, 0x3c, 0xe4, 0x7f, 0xc4, 0xf5, 0xc7, 0x9d, 0x19,
    0xeb, 0xfa, 0x57, 0xda,
];
const STRING: [u8; 20] = [
    0xef, 0x11, 0x0, 0x45, 0x54, 0x48, 0x20, 0x49, 0x53, 0x20, 0x41, 0x20, 0x53, 0x45, 0x43, 0x55,
    0x52, 0x49, 0x54, 0x59,
];

const U8_CONCEALED: [u8; 20] = [
    0x99, 0x3c, 0xfd, 0x1, 0x69, 0xe, 0xa0, 0xa8, 0xb2, 0x83, 0x1e, 0xf0, 0x25, 0x36, 0xce, 0xed,
    0x3e, 0x9b, 0xbf, 0x80,
];
const U16_CONCEALED: [u8; 20] = [
    0x73, 0x36, 0xe0, 0x2b, 0x7, 0x8f, 0x8c, 0xb1, 0xb9, 0x5b, 0x27, 0x3c, 0x92, 0xc1, 0x80, 0x95,
    0xa, 0xa3, 0x26, 0xf7,
];
const U32_CONCEALED: [u8; 20] = [
    0xf7, 0xcf, 0xbd, 0x3b, 0xac, 0xa1, 0x4e, 0xf, 0xc7, 0xea, 0xd0, 0xc7, 0xd5, 0xb0, 0x8c, 0xba,
    0xbd, 0x41, 0xc4, 0x3f,
];
const U64_CONCEALED: [u8; 20] = [
    0x2, 0x5f, 0x33, 0x8f, 0x5a, 0x45, 0x89, 0xd4, 0xe, 0x56, 0x47, 0xe8, 0xfc, 0xb3, 0x6b, 0x7f,
    0xc4, 0x29, 0x92, 0x71,
];
const I8_CONCEALED: [u8; 20] = [
    0xf5, 0x39, 0x1f, 0xf2, 0x83, 0x2b, 0xc6, 0xb1, 0x78, 0x59, 0x54, 0x14, 0x28, 0xbf, 0xc1, 0x49,
    0xf6, 0xcf, 0xd7, 0x78,
];
const I16_CONCEALED: [u8; 20] = [
    0x61, 0x0, 0xc2, 0x37, 0x7, 0x97, 0x33, 0xf, 0xcf, 0xbb, 0x40, 0xcb, 0xad, 0xf7, 0x81, 0x7e,
    0x10, 0xd, 0x55, 0xa5,
];
const I32_CONCEALED: [u8; 20] = [
    0xaa, 0xbe, 0x9b, 0x73, 0xf8, 0xfa, 0x84, 0x9d, 0x28, 0x79, 0x8b, 0x5c, 0x13, 0x91, 0xe9, 0xbf,
    0xc8, 0xa4, 0x2a, 0xc3,
];
const I64_CONCEALED: [u8; 20] = [
    0xd, 0x56, 0xef, 0xcb, 0x53, 0xba, 0xd5, 0x52, 0xb, 0xc6, 0xea, 0x4f, 0xe1, 0xa8, 0x56, 0x42,
    0x3d, 0x66, 0x34, 0xc5,
];
const F32_CONCEALED: [u8; 20] = [
    0x28, 0x98, 0x98, 0x0c, 0xb4, 0x9e, 0x5f, 0xdc, 0x8a, 0xee, 0xbf, 0x8b, 0x7f, 0x7c, 0x93, 0x6c,
    0x5b, 0x1c, 0xe5, 0x3c,
];
const F64_CONCEALED: [u8; 20] = [
    0xd1, 0x96, 0x30, 0xe3, 0xba, 0xb5, 0xe1, 0x5b, 0xa1, 0xe3, 0x87, 0x6a, 0x28, 0xdd, 0x33, 0x5a,
    0x3a, 0x6e, 0x86, 0x39,
];
const BYTES_CONCEALED: [u8; 20] = [
    0x78, 0x93, 0xa3, 0xb3, 0x68, 0xb1, 0x66, 0xcd, 0xb8, 0x36, 0x63, 0xe4, 0x78, 0xe0, 0xf7, 0x45,
    0xe1, 0x35, 0xb9, 0x4e,
];
const STRING_CONCEALED: [u8; 20] = [
    0x86, 0x8d, 0x97, 0x63, 0xfc, 0xc3, 0x5b, 0x85, 0xf6, 0x8b, 0xe0, 0x24, 0x05, 0xf7, 0x60, 0xcb,
    0x03, 0xf3, 0xeb, 0x12,
];

fn vectors() -> Vec<&'static [u8]> {
    vec![
        &U_8[..],
        &U_16[..],
        &U_32[..],
        &U_64[..],
        &I_8[..],
        &I_16[..],
        &I_32[..],
        &I_64[..],
        &F_32[..],
        &F_64[..],
        &BYTES[..],
        &STRING[..],
    ]
}

fn is_registered(tag: u8) -> bool {
    tag <= 0x0f || (0x30..=0x36).contains(&tag) || tag == 0xe0 || tag == 0xee || tag == 0xef
}

#[test]
fn test_encoding() {
    for bytes in vectors() {
        let value = decode(bytes).expect("vector must decode");
        assert_eq!(value.encode(), bytes.to_vec());
    }
}

#[test]
fn test_garbage() {
    for bytes in vectors() {
        for tag in 150u8..255 {
            if is_registered(tag) {
                continue;
            }
            let mut garbled = bytes.to_vec();
            garbled[0] = tag;
            assert_eq!(decode(&garbled).unwrap_err(), EncodingError::UnknownTag(tag));
        }
    }
}

#[test]
fn test_conf1() {
    let cases: Vec<(&[u8], [u8; 20])> = vec![
        (&U_8[..], U8_CONCEALED),
        (&U_16[..], U16_CONCEALED),
        (&U_32[..], U32_CONCEALED),
        (&U_64[..], U64_CONCEALED),
        (&I_8[..], I8_CONCEALED),
        (&I_16[..], I16_CONCEALED),
        (&I_32[..], I32_CONCEALED),
        (&I_64[..], I64_CONCEALED),
        (&F_32[..], F32_CONCEALED),
        (&F_64[..], F64_CONCEALED),
        (&F_64[..], F64_CONCEALED),
        (&BYTES[..], BYTES_CONCEALED),
        (&STRING[..], STRING_CONCEALED),
    ];
    for (revealed, concealed) in cases {
        let value = decode(revealed).unwrap();
        assert_eq!(value.commit_conceal().digest, concealed);
        assert_eq!(Confidential::hash(revealed).digest, concealed);
    }
}

#[test]
fn end_to_end_scenario() {
    assert_eq!(Revealed::U8(8).encode(), vec![0x00, 0x08]);
    assert_eq!(decode(&[0x96, 0x08]).unwrap_err(), EncodingError::UnknownTag(0x96));
    assert_eq!(Revealed::U8(8).commit_conceal().digest, U8_CONCEALED);
}

#[test]
fn encodes_numbers_little_endian() {
    assert_eq!(Revealed::U16(16).encode(), U_16.to_vec());
    assert_eq!(Revealed::I64(64).encode(), I_64.to_vec());
    assert_eq!(Revealed::I8(-1).encode(), vec![0x08, 0xff]);
    assert_eq!(Revealed::I16(-2).encode(), vec![0x09, 0xfe, 0xff]);
    assert_eq!(
        Revealed::I128(i128::MIN).encode(),
        [vec![0x0c], vec![0u8; 15], vec![0x80]].concat()
    );
    assert_eq!(Revealed::U128(u128::MAX).encode(), [vec![0x04], vec![0xffu8; 16]].concat());
    assert_eq!(Revealed::F32(32.67f32.to_bits()).encode(), F_32.to_vec());
    assert_eq!(Revealed::F64(64.67f64.to_bits()).encode(), F_64.to_vec());
}

#[test]
fn round_trips_every_kind() {
    let values = vec![
        Revealed::U8(255),
        Revealed::U32(0xdead_beef),
        Revealed::U256(vec![7u8; 32]),
        Revealed::U512(vec![1u8; 64]),
        Revealed::U1024(vec![2u8; 128]),
        Revealed::I8(i8::MIN),
        Revealed::I32(-123456),
        Revealed::I64(i64::MIN),
        Revealed::I128(-1),
        Revealed::I256(vec![0xffu8; 32]),
        Revealed::I512(vec![3u8; 64]),
        Revealed::I1024(vec![4u8; 128]),
        Revealed::F16B(0x3f80),
        Revealed::F16(0x3c00),
        Revealed::F80(vec![5u8; 10]),
        Revealed::F128(1u128 << 127),
        Revealed::F256(vec![6u8; 32]),
        Revealed::Bytes(vec![]),
        Revealed::Bytes(vec![0xabu8; 0xffff]),
        Revealed::AsciiString("ETH IS A SECURITY".to_string()),
        Revealed::UnicodeString("grüße ✓".to_string()),
        Revealed::UnicodeString(String::new()),
    ];
    for v in values {
        let bytes = v.encode();
        let back = decode(&bytes).unwrap();
        assert!(back == v);
        assert_eq!(back.encode(), bytes);
    }
}

#[test]
fn decode_reports_each_error() {
    assert_eq!(decode(&[]).unwrap_err(), EncodingError::Truncated);
    assert_eq!(decode(&[0x01, 0x10]).unwrap_err(), EncodingError::Truncated);
    assert_eq!(decode(&[0x00, 0x08, 0x00]).unwrap_err(), EncodingError::TrailingData);
    assert_eq!(decode(&[0xe0, 0x02]).unwrap_err(), EncodingError::Truncated);
    assert_eq!(decode(&[0xe0, 0x02, 0x00, 0x01]).unwrap_err(), EncodingError::Truncated);
    assert_eq!(decode(&[0xe0, 0x01, 0x00, 0x01, 0x02]).unwrap_err(), EncodingError::TrailingData);
    assert_eq!(decode(&[0xef, 0x01, 0x00, 0xff]).unwrap_err(), EncodingError::InvalidUtf8);
    assert_eq!(decode(&[0xee, 0x02, 0x00, 0xc3, 0xbc]).unwrap_err(), EncodingError::NonAscii);
    assert_eq!(decode(&[0x10, 0x08]).unwrap_err(), EncodingError::UnknownTag(0x10));
    assert_eq!(decode(&[0x37]).unwrap_err(), EncodingError::UnknownTag(0x37));
}

#[test]
fn decodes_unicode_and_ascii_strings() {
    let v = decode(&[0xef, 0x02, 0x00, 0xc3, 0xbc]).unwrap();
    assert_eq!(v.unicode_string(), Some("ü".to_string()));
    let a = decode(&[0xee, 0x02, 0x00, 0x68, 0x69]).unwrap();
    assert_eq!(a.ascii_string(), Some("hi".to_string()));
    assert_eq!(a.unicode_string(), None);
}

#[test]
fn accessors_match_variant_only() {
    let v = Revealed::U8(8);
    assert_eq!(v.u8(), Some(8));
    assert_eq!(v.u16(), None);
    assert_eq!(v.i8(), None);
    assert_eq!(v.bytes(), None);
    let b = Revealed::Bytes(vec![1, 2, 3]);
    assert_eq!(b.bytes(), Some(vec![1, 2, 3]));
    assert_eq!(b.u8(), None);
    assert_eq!(Revealed::I32(-5).i32(), Some(-5));
    assert_eq!(Revealed::U256(vec![9u8; 32]).u256(), Some(vec![9u8; 32]));
    assert_eq!(Revealed::I1024(vec![9u8; 128]).i1024(), Some(vec![9u8; 128]));
    assert_eq!(Revealed::F32(1.5f32.to_bits()).f32_bits(), Some(1.5f32.to_bits()));
    assert_eq!(Revealed::F64(2.5f64.to_bits()).f64_bits(), Some(2.5f64.to_bits()));
    assert_eq!(Revealed::F16B(7).f16b(), Some(7));
    assert_eq!(Revealed::F16(8).f16_bits(), Some(8));
    assert_eq!(Revealed::F128(9).f128_bits(), Some(9));
    assert_eq!(Revealed::F80(vec![1u8; 10]).f80(), Some(vec![1u8; 10]));
    assert_eq!(Revealed::F256(vec![1u8; 32]).f256(), Some(vec![1u8; 32]));
    assert_eq!(Revealed::U64(1).u64(), Some(1));
    assert_eq!(Revealed::U128(1).u128(), Some(1));
    assert_eq!(Revealed::U32(1).u32(), Some(1));
    assert_eq!(Revealed::U16(1).u16(), Some(1));
    assert_eq!(Revealed::I16(1).i16(), Some(1));
    assert_eq!(Revealed::I64(1).i64(), Some(1));
    assert_eq!(Revealed::I128(1).i128(), Some(1));
    assert_eq!(Revealed::U512(vec![0u8; 64]).u512(), Some(vec![0u8; 64]));
    assert_eq!(Revealed::U1024(vec![0u8; 128]).u1024(), Some(vec![0u8; 128]));
    assert_eq!(Revealed::I256(vec![0u8; 32]).i256(), Some(vec![0u8; 32]));
    assert_eq!(Revealed::I512(vec![0u8; 64]).i512(), Some(vec![0u8; 64]));
}

#[test]
fn order_follows_encoding_across_variants() {
    // U16 (tag 0x01) sorts before I8 (tag 0x08) whatever the numbers.
    assert_eq!(Revealed::U16(0xffff).compare(&Revealed::I8(0)), Ordering::Less);
    assert_eq!(Revealed::U8(1).compare(&Revealed::U8(2)), Ordering::Less);
    // Little-endian bytes: 0x0100 is written 00 01 and sorts before 0x0001.
    assert_eq!(Revealed::U16(0x0100).compare(&Revealed::U16(0x0001)), Ordering::Less);
    assert_eq!(Revealed::U8(3).compare(&Revealed::U8(3)), Ordering::Equal);
    assert_eq!(
        Revealed::Bytes(vec![1]).partial_cmp(&Revealed::Bytes(vec![1, 0])),
        Some(Ordering::Less)
    );
    assert!(Revealed::UnicodeString("b".to_string()) > Revealed::Bytes(vec![0xff]));
}

#[test]
fn equality_is_by_encoding() {
    assert!(Revealed::U8(8) == Revealed::U8(8));
    assert!(Revealed::U8(8) != Revealed::I8(8));
    assert!(Revealed::F32(0x7fc0_0000) == Revealed::F32(0x7fc0_0000));
    assert!(Revealed::F32(0x7fc0_0000) != Revealed::F32(0x7fc0_0001));
    assert!(Revealed::Bytes(vec![1]) != Revealed::Bytes(vec![1, 0]));
}

#[test]
fn concealment_is_deterministic_and_distinct() {
    let corpus: Vec<Revealed> = vectors().into_iter().map(|b| decode(b).unwrap()).collect();
    for (i, a) in corpus.iter().enumerate() {
        assert_eq!(a.commit_conceal(), a.commit_conceal());
        for b in corpus.iter().skip(i + 1) {
            if a.encode() != b.encode() {
                assert_ne!(a.commit_conceal(), b.commit_conceal());
            }
        }
    }
}

#[test]
fn commit_encode_appends_digest() {
    let mut out = vec![0xaa];
    let n = Revealed::U8(8).commit_encode(&mut out);
    assert_eq!(n, 20);
    assert_eq!(out[0], 0xaa);
    assert_eq!(&out[1..], &U8_CONCEALED[..]);
    assert_eq!(Confidential::hash(&U_8).to_vec(), U8_CONCEALED.to_vec());
}

#[test]
fn void_conceals_to_itself_and_writes_nothing() {
    let v = Void();
    assert_eq!(v.commit_conceal(), v);
    let mut out = vec![1, 2];
    assert_eq!(v.commit_encode(&mut out), 0);
    assert_eq!(out, vec![1, 2]);
}
