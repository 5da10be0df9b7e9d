//! Revealed state values, their canonical encoding and their ordering.
//!
//! A value is written as one tag byte followed by its payload. Numbers are
//! little-endian, signed ones in two's complement; floating-point values are
//! held and written as their IEEE bit patterns; blobs and strings carry a
//! 16-bit little-endian length before their bytes.

use crate::bytes::{
    copy_range, le_bytes, le_value, lemma_le_bytes_len, lemma_le_value_of_bytes,
    lemma_pow256_values, pow256, push_all, push_le, read_le, twos,
};
use core::cmp::Ordering;
use vstd::prelude::*;
use vstd::utf8::*;

verus! {

/// Absent state.
#[derive(Clone, Copy, Debug, PartialEq, Eq, PartialOrd, Ord, Hash)]
pub struct Void();

impl Void {
    /// Concealing absent state leaves it as it is.
    pub fn commit_conceal(&self) -> (r: Void)
        ensures
            r == *self,
    {
        *self
    }

    /// Absent state contributes no bytes to a commitment.
    pub fn commit_encode(&self, out: &mut Vec<u8>) -> (n: usize)
        ensures
            n == 0,
            final(out)@ == old(out)@,
    {
        0
    }
}

/// A revealed state value.
///
/// Integers wider than 128 bits and floating-point values wider than 64 bits
/// are held as their little-endian bytes; floating-point values of up to 64
/// bits as their bit patterns.
#[derive(Clone, Debug)]
pub enum Revealed {
    U8(u8),
    U16(u16),
    U32(u32),
    U64(u64),
    U128(u128),
    U256(Vec<u8>),
    U512(Vec<u8>),
    U1024(Vec<u8>),
    I8(i8),
    I16(i16),
    I32(i32),
    I64(i64),
    I128(i128),
    I256(Vec<u8>),
    I512(Vec<u8>),
    I1024(Vec<u8>),
    F16B(u16),
    F16(u16),
    F32(u32),
    F64(u64),
    F80(Vec<u8>),
    F128(u128),
    F256(Vec<u8>),
    Bytes(Vec<u8>),
    AsciiString(String),
    UnicodeString(String),
}

pub const TAG_U8: u8 = 0x00;
pub const TAG_U16: u8 = 0x01;
pub const TAG_U32: u8 = 0x02;
pub const TAG_U64: u8 = 0x03;
pub const TAG_U128: u8 = 0x04;
pub const TAG_U256: u8 = 0x05;
pub const TAG_U512: u8 = 0x06;
pub const TAG_U1024: u8 = 0x07;
pub const TAG_I8: u8 = 0x08;
pub const TAG_I16: u8 = 0x09;
pub const TAG_I32: u8 = 0x0A;
pub const TAG_I64: u8 = 0x0B;
pub const TAG_I128: u8 = 0x0C;
pub const TAG_I256: u8 = 0x0D;
pub const TAG_I512: u8 = 0x0E;
pub const TAG_I1024: u8 = 0x0F;
pub const TAG_F16B: u8 = 0x30;
pub const TAG_F16: u8 = 0x31;
pub const TAG_F32: u8 = 0x32;
pub const TAG_F64: u8 = 0x33;
pub const TAG_F80: u8 = 0x34;
pub const TAG_F128: u8 = 0x35;
pub const TAG_F256: u8 = 0x36;
pub const TAG_BYTES: u8 = 0xE0;
pub const TAG_ASCII: u8 = 0xEE;
pub const TAG_UNICODE: u8 = 0xEF;

/// Largest length of a blob or string that its 16-bit prefix can carry.
pub const MAX_BLOB_LEN: usize = 0xFFFF;

/// The tag byte of each variant.
pub open spec fn tag_of(v: Revealed) -> u8 {
    match v {
        Revealed::U8(_) => TAG_U8,
        Revealed::U16(_) => TAG_U16,
        Revealed::U32(_) => TAG_U32,
        Revealed::U64(_) => TAG_U64,
        Revealed::U128(_) => TAG_U128,
        Revealed::U256(_) => TAG_U256,
        Revealed::U512(_) => TAG_U512,
        Revealed::U1024(_) => TAG_U1024,
        Revealed::I8(_) => TAG_I8,
        Revealed::I16(_) => TAG_I16,
        Revealed::I32(_) => TAG_I32,
        Revealed::I64(_) => TAG_I64,
        Revealed::I128(_) => TAG_I128,
        Revealed::I256(_) => TAG_I256,
        Revealed::I512(_) => TAG_I512,
        Revealed::I1024(_) => TAG_I1024,
        Revealed::F16B(_) => TAG_F16B,
        Revealed::F16(_) => TAG_F16,
        Revealed::F32(_) => TAG_F32,
        Revealed::F64(_) => TAG_F64,
        Revealed::F80(_) => TAG_F80,
        Revealed::F128(_) => TAG_F128,
        Revealed::F256(_) => TAG_F256,
        Revealed::Bytes(_) => TAG_BYTES,
        Revealed::AsciiString(_) => TAG_ASCII,
        Revealed::UnicodeString(_) => TAG_UNICODE,
    }
}

/// Payload length of the tags whose payload has a fixed size.
pub open spec fn fixed_width(tag: u8) -> Option<nat> {
    if tag == TAG_U8 || tag == TAG_I8 {
        Some(1)
    } else if tag == TAG_U16 || tag == TAG_I16 || tag == TAG_F16B || tag == TAG_F16 {
        Some(2)
    } else if tag == TAG_U32 || tag == TAG_I32 || tag == TAG_F32 {
        Some(4)
    } else if tag == TAG_U64 || tag == TAG_I64 || tag == TAG_F64 {
        Some(8)
    } else if tag == TAG_F80 {
        Some(10)
    } else if tag == TAG_U128 || tag == TAG_I128 || tag == TAG_F128 {
        Some(16)
    } else if tag == TAG_U256 || tag == TAG_I256 || tag == TAG_F256 {
        Some(32)
    } else if tag == TAG_U512 || tag == TAG_I512 {
        Some(64)
    } else if tag == TAG_U1024 || tag == TAG_I1024 {
        Some(128)
    } else {
        None
    }
}

/// Tags whose payload is a length-prefixed run of bytes.
pub open spec fn is_blob_tag(tag: u8) -> bool {
    tag == TAG_BYTES || tag == TAG_ASCII || tag == TAG_UNICODE
}

/// Tags of the registered set.
pub open spec fn is_known_tag(tag: u8) -> bool {
    fixed_width(tag) is Some || is_blob_tag(tag)
}

/// A blob as written: its 16-bit length, then its bytes.
pub open spec fn blob(b: Seq<u8>) -> Seq<u8> {
    le_bytes(b.len(), 2) + b
}

/// The payload of a value, as written after its tag.
pub open spec fn payload(v: Revealed) -> Seq<u8> {
    match v {
        Revealed::U8(x) => le_bytes(x as nat, 1),
        Revealed::U16(x) => le_bytes(x as nat, 2),
        Revealed::U32(x) => le_bytes(x as nat, 4),
        Revealed::U64(x) => le_bytes(x as nat, 8),
        Revealed::U128(x) => le_bytes(x as nat, 16),
        Revealed::U256(b) => b@,
        Revealed::U512(b) => b@,
        Revealed::U1024(b) => b@,
        Revealed::I8(x) => le_bytes(twos(x as int, 0x100), 1),
        Revealed::I16(x) => le_bytes(twos(x as int, 0x1_0000), 2),
        Revealed::I32(x) => le_bytes(twos(x as int, 0x1_0000_0000), 4),
        Revealed::I64(x) => le_bytes(twos(x as int, 0x1_0000_0000_0000_0000), 8),
        Revealed::I128(x) => le_bytes(twos(x as int, pow256(16)), 16),
        Revealed::I256(b) => b@,
        Revealed::I512(b) => b@,
        Revealed::I1024(b) => b@,
        Revealed::F16B(x) => le_bytes(x as nat, 2),
        Revealed::F16(x) => le_bytes(x as nat, 2),
        Revealed::F32(x) => le_bytes(x as nat, 4),
        Revealed::F64(x) => le_bytes(x as nat, 8),
        Revealed::F80(b) => b@,
        Revealed::F128(x) => le_bytes(x as nat, 16),
        Revealed::F256(b) => b@,
        Revealed::Bytes(b) => blob(b@),
        Revealed::AsciiString(s) => blob(encode_utf8(s@)),
        Revealed::UnicodeString(s) => blob(encode_utf8(s@)),
    }
}

/// The canonical encoding of a value: its tag, then its payload.
pub open spec fn encoding(v: Revealed) -> Seq<u8> {
    seq![tag_of(v)] + payload(v)
}

impl Revealed {
    /// A value that has a canonical encoding: byte arrays have the width of
    /// their variant, blobs fit their length prefix, and an ASCII string
    /// holds 7-bit characters only.
    pub open spec fn wf(self) -> bool {
        match self {
            Revealed::U256(b) => b@.len() == 32,
            Revealed::U512(b) => b@.len() == 64,
            Revealed::U1024(b) => b@.len() == 128,
            Revealed::I256(b) => b@.len() == 32,
            Revealed::I512(b) => b@.len() == 64,
            Revealed::I1024(b) => b@.len() == 128,
            Revealed::F80(b) => b@.len() == 10,
            Revealed::F256(b) => b@.len() == 32,
            Revealed::Bytes(b) => b@.len() <= MAX_BLOB_LEN,
            Revealed::AsciiString(s) => is_ascii_chars(s@) && encode_utf8(s@).len()
                <= MAX_BLOB_LEN,
            Revealed::UnicodeString(s) => encode_utf8(s@).len() <= MAX_BLOB_LEN,
            _ => true,
        }
    }

    /// Appends the encoding; on a value that is not well formed the length
    /// prefix keeps the low 16 bits of the length.
    fn write_encoding(&self, out: &mut Vec<u8>)
        ensures
            final(out)@ == old(out)@ + encoding(*self),
    {
        let ghost start = out@;
        proof {
            lemma_pow256_values();
        }
        match self {
            Revealed::U8(x) => {
                out.push(TAG_U8);
                push_le(out, *x as u128, 1);
            },
            Revealed::U16(x) => {
                out.push(TAG_U16);
                push_le(out, *x as u128, 2);
            },
            Revealed::U32(x) => {
                out.push(TAG_U32);
                push_le(out, *x as u128, 4);
            },
            Revealed::U64(x) => {
                out.push(TAG_U64);
                push_le(out, *x as u128, 8);
            },
            Revealed::U128(x) => {
                out.push(TAG_U128);
                push_le(out, *x, 16);
            },
            Revealed::U256(b) => {
                out.push(TAG_U256);
                push_all(out, b.as_slice());
            },
            Revealed::U512(b) => {
                out.push(TAG_U512);
                push_all(out, b.as_slice());
            },
            Revealed::U1024(b) => {
                out.push(TAG_U1024);
                push_all(out, b.as_slice());
            },
            Revealed::I8(x) => {
                out.push(TAG_I8);
                let u: u128 = if *x < 0 {
                    (*x as i128 + 0x100) as u128
                } else {
                    *x as u128
                };
                push_le(out, u, 1);
            },
            Revealed::I16(x) => {
                out.push(TAG_I16);
                let u: u128 = if *x < 0 {
                    (*x as i128 + 0x1_0000) as u128
                } else {
                    *x as u128
                };
                push_le(out, u, 2);
            },
            Revealed::I32(x) => {
                out.push(TAG_I32);
                let u: u128 = if *x < 0 {
                    (*x as i128 + 0x1_0000_0000) as u128
                } else {
                    *x as u128
                };
                push_le(out, u, 4);
            },
            Revealed::I64(x) => {
                out.push(TAG_I64);
                let u: u128 = if *x < 0 {
                    (*x as i128 + 0x1_0000_0000_0000_0000) as u128
                } else {
                    *x as u128
                };
                push_le(out, u, 8);
            },
            Revealed::I128(x) => {
                out.push(TAG_I128);
                let u: u128 = if *x < 0 {
                    (*x + i128::MAX + 1) as u128 + 0x8000_0000_0000_0000_0000_0000_0000_0000
                } else {
                    *x as u128
                };
                push_le(out, u, 16);
            },
            Revealed::I256(b) => {
                out.push(TAG_I256);
                push_all(out, b.as_slice());
            },
            Revealed::I512(b) => {
                out.push(TAG_I512);
                push_all(out, b.as_slice());
            },
            Revealed::I1024(b) => {
                out.push(TAG_I1024);
                push_all(out, b.as_slice());
            },
            Revealed::F16B(x) => {
                out.push(TAG_F16B);
                push_le(out, *x as u128, 2);
            },
            Revealed::F16(x) => {
                out.push(TAG_F16);
                push_le(out, *x as u128, 2);
            },
            Revealed::F32(x) => {
                out.push(TAG_F32);
                push_le(out, *x as u128, 4);
            },
            Revealed::F64(x) => {
                out.push(TAG_F64);
                push_le(out, *x as u128, 8);
            },
            Revealed::F80(b) => {
                out.push(TAG_F80);
                push_all(out, b.as_slice());
            },
            Revealed::F128(x) => {
                out.push(TAG_F128);
                push_le(out, *x, 16);
            },
            Revealed::F256(b) => {
                out.push(TAG_F256);
                push_all(out, b.as_slice());
            },
            Revealed::Bytes(b) => {
                out.push(TAG_BYTES);
                write_blob(out, b.as_slice());
            },
            Revealed::AsciiString(s) => {
                out.push(TAG_ASCII);
                write_blob(out, s.as_str().as_bytes());
            },
            Revealed::UnicodeString(s) => {
                out.push(TAG_UNICODE);
                write_blob(out, s.as_str().as_bytes());
            },
        }
        assert(out@ =~= start + encoding(*self));
    }

    /// The canonical encoding of the value.
    pub fn encode(&self) -> (r: Vec<u8>)
        requires
            self.wf(),
        ensures
            r@ == encoding(*self),
    {
        let mut out: Vec<u8> = Vec::new();
        self.write_encoding(&mut out);
        assert(out@ =~= encoding(*self));
        out
    }
}

impl Revealed {
    /// The `U8` payload, or `None` for any other variant.
    pub fn u8(&self) -> (r: Option<u8>)
        ensures
            r == (match *self {
                Revealed::U8(x) => Some(x),
                _ => None,
            }),
    {
        match self {
            Revealed::U8(val) => Some(*val),
            _ => None,
        }
    }

    /// The `U16` payload, or `None` for any other variant.
    pub fn u16(&self) -> (r: Option<u16>)
        ensures
            r == (match *self {
                Revealed::U16(x) => Some(x),
                _ => None,
            }),
    {
        match self {
            Revealed::U16(val) => Some(*val),
            _ => None,
        }
    }

    /// The `U32` payload, or `None` for any other variant.
    pub fn u32(&self) -> (r: Option<u32>)
        ensures
            r == (match *self {
                Revealed::U32(x) => Some(x),
                _ => None,
            }),
    {
        match self {
            Revealed::U32(val) => Some(*val),
            _ => None,
        }
    }

    /// The `U64` payload, or `None` for any other variant.
    pub fn u64(&self) -> (r: Option<u64>)
        ensures
            r == (match *self {
                Revealed::U64(x) => Some(x),
                _ => None,
            }),
    {
        match self {
            Revealed::U64(val) => Some(*val),
            _ => None,
        }
    }

    /// The `U128` payload, or `None` for any other variant.
    pub fn u128(&self) -> (r: Option<u128>)
        ensures
            r == (match *self {
                Revealed::U128(x) => Some(x),
                _ => None,
            }),
    {
        match self {
            Revealed::U128(val) => Some(*val),
            _ => None,
        }
    }

    /// A copy of the `U256` payload, or `None` for any other variant.
    pub fn u256(&self) -> (r: Option<Vec<u8>>)
        ensures
            match *self {
                Revealed::U256(x) => r matches Some(c) && c@ == x@,
                _ => r is None,
            },
    {
        match self {
            Revealed::U256(val) => Some(val.clone()),
            _ => None,
        }
    }

    /// A copy of the `U512` payload, or `None` for any other variant.
    pub fn u512(&self) -> (r: Option<Vec<u8>>)
        ensures
            match *self {
                Revealed::U512(x) => r matches Some(c) && c@ == x@,
                _ => r is None,
            },
    {
        match self {
            Revealed::U512(val) => Some(val.clone()),
            _ => None,
        }
    }

    /// A copy of the `U1024` payload, or `None` for any other variant.
    pub fn u1024(&self) -> (r: Option<Vec<u8>>)
        ensures
            match *self {
                Revealed::U1024(x) => r matches Some(c) && c@ == x@,
                _ => r is None,
            },
    {
        match self {
            Revealed::U1024(val) => Some(val.clone()),
            _ => None,
        }
    }

    /// The `I8` payload, or `None` for any other variant.
    pub fn i8(&self) -> (r: Option<i8>)
        ensures
            r == (match *self {
                Revealed::I8(x) => Some(x),
                _ => None,
            }),
    {
        match self {
            Revealed::I8(val) => Some(*val),
            _ => None,
        }
    }

    /// The `I16` payload, or `None` for any other variant.
    pub fn i16(&self) -> (r: Option<i16>)
        ensures
            r == (match *self {
                Revealed::I16(x) => Some(x),
                _ => None,
            }),
    {
        match self {
            Revealed::I16(val) => Some(*val),
            _ => None,
        }
    }

    /// The `I32` payload, or `None` for any other variant.
    pub fn i32(&self) -> (r: Option<i32>)
        ensures
            r == (match *self {
                Revealed::I32(x) => Some(x),
                _ => None,
            }),
    {
        match self {
            Revealed::I32(val) => Some(*val),
            _ => None,
        }
    }

    /// The `I64` payload, or `None` for any other variant.
    pub fn i64(&self) -> (r: Option<i64>)
        ensures
            r == (match *self {
                Revealed::I64(x) => Some(x),
                _ => None,
            }),
    {
        match self {
            Revealed::I64(val) => Some(*val),
            _ => None,
        }
    }

    /// The `I128` payload, or `None` for any other variant.
    pub fn i128(&self) -> (r: Option<i128>)
        ensures
            r == (match *self {
                Revealed::I128(x) => Some(x),
                _ => None,
            }),
    {
        match self {
            Revealed::I128(val) => Some(*val),
            _ => None,
        }
    }

    /// A copy of the `I256` payload, or `None` for any other variant.
    pub fn i256(&self) -> (r: Option<Vec<u8>>)
        ensures
            match *self {
                Revealed::I256(x) => r matches Some(c) && c@ == x@,
                _ => r is None,
            },
    {
        match self {
            Revealed::I256(val) => Some(val.clone()),
            _ => None,
        }
    }

    /// A copy of the `I512` payload, or `None` for any other variant.
    pub fn i512(&self) -> (r: Option<Vec<u8>>)
        ensures
            match *self {
                Revealed::I512(x) => r matches Some(c) && c@ == x@,
                _ => r is None,
            },
    {
        match self {
            Revealed::I512(val) => Some(val.clone()),
            _ => None,
        }
    }

    /// A copy of the `I1024` payload, or `None` for any other variant.
    pub fn i1024(&self) -> (r: Option<Vec<u8>>)
        ensures
            match *self {
                Revealed::I1024(x) => r matches Some(c) && c@ == x@,
                _ => r is None,
            },
    {
        match self {
            Revealed::I1024(val) => Some(val.clone()),
            _ => None,
        }
    }

    /// The bit pattern of the `F16B` payload, or `None` for any other variant.
    pub fn f16b(&self) -> (r: Option<u16>)
        ensures
            r == (match *self {
                Revealed::F16B(x) => Some(x),
                _ => None,
            }),
    {
        match self {
            Revealed::F16B(val) => Some(*val),
            _ => None,
        }
    }

    /// The bit pattern of the `F16` payload, or `None` for any other variant.
    pub fn f16_bits(&self) -> (r: Option<u16>)
        ensures
            r == (match *self {
                Revealed::F16(x) => Some(x),
                _ => None,
            }),
    {
        match self {
            Revealed::F16(val) => Some(*val),
            _ => None,
        }
    }

    /// The bit pattern of the `F32` payload, or `None` for any other variant.
    pub fn f32_bits(&self) -> (r: Option<u32>)
        ensures
            r == (match *self {
                Revealed::F32(x) => Some(x),
                _ => None,
            }),
    {
        match self {
            Revealed::F32(val) => Some(*val),
            _ => None,
        }
    }

    /// The bit pattern of the `F64` payload, or `None` for any other variant.
    pub fn f64_bits(&self) -> (r: Option<u64>)
        ensures
            r == (match *self {
                Revealed::F64(x) => Some(x),
                _ => None,
            }),
    {
        match self {
            Revealed::F64(val) => Some(*val),
            _ => None,
        }
    }

    /// A copy of the `F80` payload, or `None` for any other variant.
    pub fn f80(&self) -> (r: Option<Vec<u8>>)
        ensures
            match *self {
                Revealed::F80(x) => r matches Some(c) && c@ == x@,
                _ => r is None,
            },
    {
        match self {
            Revealed::F80(val) => Some(val.clone()),
            _ => None,
        }
    }

    /// The bit pattern of the `F128` payload, or `None` for any other variant.
    pub fn f128_bits(&self) -> (r: Option<u128>)
        ensures
            r == (match *self {
                Revealed::F128(x) => Some(x),
                _ => None,
            }),
    {
        match self {
            Revealed::F128(val) => Some(*val),
            _ => None,
        }
    }

    /// A copy of the `F256` payload, or `None` for any other variant.
    pub fn f256(&self) -> (r: Option<Vec<u8>>)
        ensures
            match *self {
                Revealed::F256(x) => r matches Some(c) && c@ == x@,
                _ => r is None,
            },
    {
        match self {
            Revealed::F256(val) => Some(val.clone()),
            _ => None,
        }
    }

    /// A copy of the `Bytes` payload, or `None` for any other variant.
    pub fn bytes(&self) -> (r: Option<Vec<u8>>)
        ensures
            match *self {
                Revealed::Bytes(x) => r matches Some(c) && c@ == x@,
                _ => r is None,
            },
    {
        match self {
            Revealed::Bytes(val) => Some(val.clone()),
            _ => None,
        }
    }

    /// A copy of the `AsciiString` payload, or `None` for any other variant.
    pub fn ascii_string(&self) -> (r: Option<String>)
        ensures
            match *self {
                Revealed::AsciiString(x) => r matches Some(c) && c@ == x@,
                _ => r is None,
            },
    {
        match self {
            Revealed::AsciiString(val) => Some(val.clone()),
            _ => None,
        }
    }

    /// A copy of the `UnicodeString` payload, or `None` for any other variant.
    pub fn unicode_string(&self) -> (r: Option<String>)
        ensures
            match *self {
                Revealed::UnicodeString(x) => r matches Some(c) && c@ == x@,
                _ => r is None,
            },
    {
        match self {
            Revealed::UnicodeString(val) => Some(val.clone()),
            _ => None,
        }
    }
}

/// Appends `b` with its 16-bit length prefix.
fn write_blob(out: &mut Vec<u8>, b: &[u8])
    ensures
        final(out)@ == old(out)@ + blob(b@),
{
    let ghost start = out@;
    push_le(out, b.len() as u128, 2);
    push_all(out, b);
    assert(out@ =~= start + blob(b@));
}

/// Why a byte string is not the encoding of any value.
#[derive(Clone, Copy, Debug, PartialEq, Eq)]
pub enum EncodingError {
    /// The input ends before the value does.
    Truncated,
    /// The first byte is not a registered tag; it is carried here.
    UnknownTag(u8),
    /// Bytes remain after the value.
    TrailingData,
    /// The bytes of a string are not UTF-8.
    InvalidUtf8,
    /// An ASCII string holds a character outside the 7-bit range.
    NonAscii,
}

/// The error with which decoding `b` fails, or `None` where `b` decodes.
pub open spec fn decode_error(b: Seq<u8>) -> Option<EncodingError> {
    if b.len() == 0 {
        Some(EncodingError::Truncated)
    } else if !is_known_tag(b[0]) {
        Some(EncodingError::UnknownTag(b[0]))
    } else if fixed_width(b[0]) is Some {
        let w = fixed_width(b[0])->0;
        if b.len() < 1 + w {
            Some(EncodingError::Truncated)
        } else if b.len() > 1 + w {
            Some(EncodingError::TrailingData)
        } else {
            None
        }
    } else if b.len() < 3 {
        Some(EncodingError::Truncated)
    } else {
        let n = le_value(b.subrange(1, 3));
        let p = b.subrange(3, b.len() as int);
        if b.len() < 3 + n {
            Some(EncodingError::Truncated)
        } else if b.len() > 3 + n {
            Some(EncodingError::TrailingData)
        } else if b[0] == TAG_BYTES {
            None
        } else if !valid_utf8(p) {
            Some(EncodingError::InvalidUtf8)
        } else if b[0] == TAG_ASCII && !is_ascii_chars(decode_utf8(p)) {
            Some(EncodingError::NonAscii)
        } else {
            None
        }
    }
}

/// Relies on `String::from_utf8`: it fails exactly where the bytes are not
/// UTF-8, and otherwise holds the characters that the bytes encode.
#[verifier::external_body]
fn string_from_utf8(b: Vec<u8>) -> (r: Option<String>)
    ensures
        r is Some <==> valid_utf8(b@),
        r matches Some(s) ==> s@ == decode_utf8(b@),
{
    String::from_utf8(b).ok()
}

fn fixed_width_of(tag: u8) -> (r: Option<usize>)
    ensures
        match r {
            Some(w) => fixed_width(tag) == Some(w as nat),
            None => fixed_width(tag) is None,
        },
{
    if tag == TAG_U8 || tag == TAG_I8 {
        Some(1)
    } else if tag == TAG_U16 || tag == TAG_I16 || tag == TAG_F16B || tag == TAG_F16 {
        Some(2)
    } else if tag == TAG_U32 || tag == TAG_I32 || tag == TAG_F32 {
        Some(4)
    } else if tag == TAG_U64 || tag == TAG_I64 || tag == TAG_F64 {
        Some(8)
    } else if tag == TAG_F80 {
        Some(10)
    } else if tag == TAG_U128 || tag == TAG_I128 || tag == TAG_F128 {
        Some(16)
    } else if tag == TAG_U256 || tag == TAG_I256 || tag == TAG_F256 {
        Some(32)
    } else if tag == TAG_U512 || tag == TAG_I512 {
        Some(64)
    } else if tag == TAG_U1024 || tag == TAG_I1024 {
        Some(128)
    } else {
        None
    }
}

/// Decodes a value whose tag has a fixed-size payload that fills the rest of `b`.
fn decode_fixed(b: &[u8]) -> (r: Revealed)
    requires
        b@.len() >= 1,
        fixed_width(b@[0]) == Some((b@.len() - 1) as nat),
    ensures
        r.wf(),
        encoding(r) == b@,
{
    let n = b.len();
    let tag = b[0];
    let ghost rest = b@.subrange(1, n as int);
    assert(b@ =~= seq![tag] + rest);
    proof {
        lemma_pow256_values();
    }
    if tag == TAG_U8 {
        let x = read_le(b, 1, 1);
        Revealed::U8(x as u8)
    } else if tag == TAG_U16 {
        let x = read_le(b, 1, 2);
        Revealed::U16(x as u16)
    } else if tag == TAG_U32 {
        let x = read_le(b, 1, 4);
        Revealed::U32(x as u32)
    } else if tag == TAG_U64 {
        let x = read_le(b, 1, 8);
        Revealed::U64(x as u64)
    } else if tag == TAG_U128 {
        let x = read_le(b, 1, 16);
        Revealed::U128(x)
    } else if tag == TAG_U256 {
        Revealed::U256(copy_range(b, 1, n))
    } else if tag == TAG_U512 {
        Revealed::U512(copy_range(b, 1, n))
    } else if tag == TAG_U1024 {
        Revealed::U1024(copy_range(b, 1, n))
    } else if tag == TAG_I8 {
        let x = read_le(b, 1, 1);
        let v: i8 = if x >= 0x80 {
            (x as i128 - 0x100) as i8
        } else {
            x as i8
        };
        Revealed::I8(v)
    } else if tag == TAG_I16 {
        let x = read_le(b, 1, 2);
        let v: i16 = if x >= 0x8000 {
            (x as i128 - 0x1_0000) as i16
        } else {
            x as i16
        };
        Revealed::I16(v)
    } else if tag == TAG_I32 {
        let x = read_le(b, 1, 4);
        let v: i32 = if x >= 0x8000_0000 {
            (x as i128 - 0x1_0000_0000) as i32
        } else {
            x as i32
        };
        Revealed::I32(v)
    } else if tag == TAG_I64 {
        let x = read_le(b, 1, 8);
        let v: i64 = if x >= 0x8000_0000_0000_0000 {
            (x as i128 - 0x1_0000_0000_0000_0000) as i64
        } else {
            x as i64
        };
        Revealed::I64(v)
    } else if tag == TAG_I128 {
        let x = read_le(b, 1, 16);
        let v: i128 = if x >= 0x8000_0000_0000_0000_0000_0000_0000_0000 {
            (x - 0x8000_0000_0000_0000_0000_0000_0000_0000) as i128 - i128::MAX - 1
        } else {
            x as i128
        };
        Revealed::I128(v)
    } else if tag == TAG_I256 {
        Revealed::I256(copy_range(b, 1, n))
    } else if tag == TAG_I512 {
        Revealed::I512(copy_range(b, 1, n))
    } else if tag == TAG_I1024 {
        Revealed::I1024(copy_range(b, 1, n))
    } else if tag == TAG_F16B {
        let x = read_le(b, 1, 2);
        Revealed::F16B(x as u16)
    } else if tag == TAG_F16 {
        let x = read_le(b, 1, 2);
        Revealed::F16(x as u16)
    } else if tag == TAG_F32 {
        let x = read_le(b, 1, 4);
        Revealed::F32(x as u32)
    } else if tag == TAG_F64 {
        let x = read_le(b, 1, 8);
        Revealed::F64(x as u64)
    } else if tag == TAG_F80 {
        Revealed::F80(copy_range(b, 1, n))
    } else if tag == TAG_F128 {
        let x = read_le(b, 1, 16);
        Revealed::F128(x)
    } else {
        Revealed::F256(copy_range(b, 1, n))
    }
}

/// Decodes a blob or string whose tag is `b[0]`.
fn decode_blob(b: &[u8]) -> (r: Result<Revealed, EncodingError>)
    requires
        b@.len() >= 1,
        is_blob_tag(b@[0]),
    ensures
        match r {
            Ok(v) => decode_error(b@) is None && v.wf() && encoding(v) == b@,
            Err(e) => decode_error(b@) == Some(e),
        },
{
    let tag = b[0];
    let len = b.len();
    if len < 3 {
        return Err(EncodingError::Truncated);
    }
    let n = read_le(b, 1, 2) as usize;
    proof {
        lemma_pow256_values();
    }
    if len < 3 + n {
        return Err(EncodingError::Truncated);
    }
    if len > 3 + n {
        return Err(EncodingError::TrailingData);
    }
    let body = copy_range(b, 3, len);
    assert(b@ =~= seq![tag] + (b@.subrange(1, 3) + body@));
    if tag == TAG_BYTES {
        return Ok(Revealed::Bytes(body));
    }
    let ghost p = body@;
    match string_from_utf8(body) {
        None => Err(EncodingError::InvalidUtf8),
        Some(s) => {
            proof {
                decode_utf8_encode_utf8(p);
            }
            if tag == TAG_ASCII {
                if s.as_str().is_ascii() {
                    Ok(Revealed::AsciiString(s))
                } else {
                    Err(EncodingError::NonAscii)
                }
            } else {
                Ok(Revealed::UnicodeString(s))
            }
        },
    }
}

/// Decodes a value from exactly the bytes `b`.
pub fn decode(b: &[u8]) -> (r: Result<Revealed, EncodingError>)
    ensures
        match r {
            Ok(v) => decode_error(b@) is None && v.wf() && encoding(v) == b@,
            Err(e) => decode_error(b@) == Some(e),
        },
{
    if b.len() == 0 {
        return Err(EncodingError::Truncated);
    }
    let tag = b[0];
    match fixed_width_of(tag) {
        Some(w) => {
            if b.len() < 1 + w {
                Err(EncodingError::Truncated)
            } else if b.len() > 1 + w {
                Err(EncodingError::TrailingData)
            } else {
                Ok(decode_fixed(b))
            }
        },
        None => {
            if tag == TAG_BYTES || tag == TAG_ASCII || tag == TAG_UNICODE {
                decode_blob(b)
            } else {
                Err(EncodingError::UnknownTag(tag))
            }
        },
    }
}

/// Canonical round trip: the encoding of every well-formed value decodes,
/// and by the contract of `decode` what it decodes to has that same encoding,
/// so it equals the value.
pub proof fn lemma_round_trip(v: Revealed)
    requires
        v.wf(),
    ensures
        decode_error(encoding(v)) is None,
{
    let e = encoding(v);
    let tag = tag_of(v);
    lemma_pow256_values();
    match v {
        Revealed::Bytes(b) => lemma_blob_decodes(tag, b@),
        Revealed::AsciiString(s) => {
            encode_utf8_valid_utf8(s@);
            encode_utf8_decode_utf8(s@);
            lemma_blob_decodes(tag, encode_utf8(s@));
        },
        Revealed::UnicodeString(s) => {
            encode_utf8_valid_utf8(s@);
            lemma_blob_decodes(tag, encode_utf8(s@));
        },
        Revealed::U8(x) => lemma_le_bytes_len(x as nat, 1),
        Revealed::U16(x) => lemma_le_bytes_len(x as nat, 2),
        Revealed::U32(x) => lemma_le_bytes_len(x as nat, 4),
        Revealed::U64(x) => lemma_le_bytes_len(x as nat, 8),
        Revealed::U128(x) => lemma_le_bytes_len(x as nat, 16),
        Revealed::I8(x) => lemma_le_bytes_len(twos(x as int, 0x100), 1),
        Revealed::I16(x) => lemma_le_bytes_len(twos(x as int, 0x1_0000), 2),
        Revealed::I32(x) => lemma_le_bytes_len(twos(x as int, 0x1_0000_0000), 4),
        Revealed::I64(x) => lemma_le_bytes_len(twos(x as int, 0x1_0000_0000_0000_0000), 8),
        Revealed::I128(x) => lemma_le_bytes_len(twos(x as int, pow256(16)), 16),
        Revealed::F16B(x) => lemma_le_bytes_len(x as nat, 2),
        Revealed::F16(x) => lemma_le_bytes_len(x as nat, 2),
        Revealed::F32(x) => lemma_le_bytes_len(x as nat, 4),
        Revealed::F64(x) => lemma_le_bytes_len(x as nat, 8),
        Revealed::F128(x) => lemma_le_bytes_len(x as nat, 16),
        _ => {},
    }
}

proof fn lemma_blob_decodes(tag: u8, p: Seq<u8>)
    requires
        is_blob_tag(tag),
        p.len() <= MAX_BLOB_LEN,
    ensures
        ({
            let e = seq![tag] + blob(p);
            &&& e.len() == 3 + p.len()
            &&& e[0] == tag
            &&& le_value(e.subrange(1, 3)) == p.len()
            &&& e.subrange(3, e.len() as int) == p
        }),
{
    let e = seq![tag] + blob(p);
    lemma_pow256_values();
    lemma_le_bytes_len(p.len(), 2);
    lemma_le_value_of_bytes(p.len(), 2);
    assert(e.subrange(1, 3) =~= le_bytes(p.len(), 2));
    assert(e.subrange(3, e.len() as int) =~= p);
}

/// Lexicographic order of byte strings; a proper prefix comes first.
pub open spec fn lex_cmp(a: Seq<u8>, b: Seq<u8>) -> Ordering
    decreases a.len(),
{
    if a.len() == 0 {
        if b.len() == 0 {
            Ordering::Equal
        } else {
            Ordering::Less
        }
    } else if b.len() == 0 {
        Ordering::Greater
    } else if a[0] < b[0] {
        Ordering::Less
    } else if a[0] > b[0] {
        Ordering::Greater
    } else {
        lex_cmp(a.drop_first(), b.drop_first())
    }
}

/// Compares two byte strings lexicographically.
pub fn compare_bytes(a: &[u8], b: &[u8]) -> (r: Ordering)
    ensures
        r == lex_cmp(a@, b@),
{
    let mut i: usize = 0;
    assert(a@.skip(0) =~= a@);
    assert(b@.skip(0) =~= b@);
    while i < a.len() && i < b.len()
        invariant
            i <= a@.len(),
            i <= b@.len(),
            lex_cmp(a@, b@) == lex_cmp(a@.skip(i as int), b@.skip(i as int)),
        decreases a@.len() - i,
    {
        if a[i] < b[i] {
            return Ordering::Less;
        }
        if a[i] > b[i] {
            return Ordering::Greater;
        }
        assert(a@.skip(i as int).drop_first() =~= a@.skip(i + 1));
        assert(b@.skip(i as int).drop_first() =~= b@.skip(i + 1));
        i = i + 1;
    }
    if i < a.len() {
        Ordering::Greater
    } else if i < b.len() {
        Ordering::Less
    } else {
        Ordering::Equal
    }
}

impl Revealed {
    /// The total order of values: their canonical encodings compared
    /// lexicographically, across variants too.
    pub fn compare(&self, other: &Revealed) -> (r: Ordering)
        ensures
            r == lex_cmp(encoding(*self), encoding(*other)),
    {
        let mut a: Vec<u8> = Vec::new();
        self.write_encoding(&mut a);
        let mut b: Vec<u8> = Vec::new();
        other.write_encoding(&mut b);
        assert(a@ =~= encoding(*self));
        assert(b@ =~= encoding(*other));
        compare_bytes(a.as_slice(), b.as_slice())
    }
}

impl PartialEq for Revealed {
    /// Two values are equal when their canonical encodings are.
    fn eq(&self, other: &Revealed) -> (r: bool) {
        let mut a: Vec<u8> = Vec::new();
        self.write_encoding(&mut a);
        let mut b: Vec<u8> = Vec::new();
        other.write_encoding(&mut b);
        assert(a@ =~= encoding(*self));
        assert(b@ =~= encoding(*other));
        let o = compare_bytes(a.as_slice(), b.as_slice());
        proof {
            lemma_lex_cmp_equal(a@, b@);
        }
        match o {
            Ordering::Equal => true,
            _ => false,
        }
    }
}

impl vstd::std_specs::cmp::PartialEqSpecImpl for Revealed {
    open spec fn obeys_eq_spec() -> bool {
        true
    }

    open spec fn eq_spec(&self, other: &Revealed) -> bool {
        encoding(*self) == encoding(*other)
    }
}

impl Eq for Revealed {

}

impl PartialOrd for Revealed {
    fn partial_cmp(&self, other: &Revealed) -> (r: Option<Ordering>) {
        Some(self.compare(other))
    }
}

impl vstd::std_specs::cmp::PartialOrdSpecImpl for Revealed {
    open spec fn obeys_partial_cmp_spec() -> bool {
        true
    }

    open spec fn partial_cmp_spec(&self, other: &Revealed) -> Option<Ordering> {
        Some(lex_cmp(encoding(*self), encoding(*other)))
    }
}

/// Byte strings compare as equal exactly when they are the same.
pub proof fn lemma_lex_cmp_equal(a: Seq<u8>, b: Seq<u8>)
    ensures
        (lex_cmp(a, b) == Ordering::Equal) <==> a == b,
    decreases a.len(),
{
    if a.len() > 0 && b.len() > 0 && a[0] == b[0] {
        lemma_lex_cmp_equal(a.drop_first(), b.drop_first());
        if a.drop_first() == b.drop_first() {
            assert(a =~= seq![a[0]] + a.drop_first());
            assert(b =~= seq![b[0]] + b.drop_first());
        }
    }
    if a.len() == 0 && b.len() == 0 {
        assert(a =~= b);
    }
    if a == b && a.len() > 0 {
        assert(a.drop_first() == b.drop_first());
    }
}

} // verus!
