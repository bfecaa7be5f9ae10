//! Bitcoin variable-length integers (CompactSize).
//!
//! A value below `0xfd` is one byte; up to `0xffff` it is `0xfd` and two
//! little-endian bytes; up to `0xffffffff` it is `0xfe` and four; otherwise
//! `0xff` and eight. Decoding accepts only the shortest form of a value.

use crate::error::SerializationError;
use crate::serialization::bytes::{
    append_bytes, le_u16_at, le_u32_at, le_u64_at, holds_at, lemma_u16_roundtrip, lemma_u32_roundtrip,
    lemma_u64_roundtrip, lemma_u16_bytes_roundtrip, lemma_u32_bytes_roundtrip,
    lemma_u64_bytes_roundtrip, push_u16_le, push_u32_le, push_u64_le, read_u16_le, read_u32_le,
    read_u64_le, u16_le, u32_le, u64_le,
};
use vstd::prelude::*;

verus! {

/// Why a variable-length integer could not be decoded.
#[derive(Debug, Clone, Copy, PartialEq, Eq, Structural)]
pub enum VarIntError {
    /// Fewer bytes than the encoding needs.
    InsufficientBytes,
    /// A value written in a longer form than necessary.
    InvalidEncoding,
    /// A value above `u64::MAX`.
    ValueTooLarge,
}

impl VarIntError {
    pub open spec fn spec_message(&self) -> Seq<char> {
        match self {
            VarIntError::InsufficientBytes => "Insufficient bytes to decode VarInt"@,
            VarIntError::InvalidEncoding => "Invalid VarInt encoding"@,
            VarIntError::ValueTooLarge => "VarInt value too large"@,
        }
    }

    /// Returns the human-readable text of this error.
    pub fn message(&self) -> (s: String)
        ensures
            s@ == self.spec_message(),
    {
        match self {
            VarIntError::InsufficientBytes => "Insufficient bytes to decode VarInt".to_owned(),
            VarIntError::InvalidEncoding => "Invalid VarInt encoding".to_owned(),
            VarIntError::ValueTooLarge => "VarInt value too large".to_owned(),
        }
    }
}

/// The encoding of `v`.
pub open spec fn varint_bytes(v: u64) -> Seq<u8> {
    if v < 0xfd {
        seq![v as u8]
    } else if v <= 0xffff {
        seq![0xfdu8] + u16_le(v as u16)
    } else if v <= 0xffff_ffff {
        seq![0xfeu8] + u32_le(v as u32)
    } else {
        seq![0xffu8] + u64_le(v)
    }
}

pub open spec fn varint_insufficient() -> SerializationError {
    SerializationError::VarInt(VarIntError::InsufficientBytes)
}

pub open spec fn varint_non_canonical() -> SerializationError {
    SerializationError::VarInt(VarIntError::InvalidEncoding)
}

/// What decoding the front of `s` gives: the value and the number of bytes
/// it took, or why that fails.
pub open spec fn varint_decode(s: Seq<u8>) -> Result<(u64, usize), SerializationError> {
    if s.len() == 0 {
        Err(varint_insufficient())
    } else if s[0] < 0xfd {
        Ok((s[0] as u64, 1))
    } else if s[0] == 0xfd {
        if s.len() < 3 {
            Err(varint_insufficient())
        } else {
            let v = le_u16_at(s, 1) as u64;
            if v < 0xfd {
                Err(varint_non_canonical())
            } else {
                Ok((v, 3))
            }
        }
    } else if s[0] == 0xfe {
        if s.len() < 5 {
            Err(varint_insufficient())
        } else {
            let v = le_u32_at(s, 1) as u64;
            if v <= 0xffff {
                Err(varint_non_canonical())
            } else {
                Ok((v, 5))
            }
        }
    } else {
        if s.len() < 9 {
            Err(varint_insufficient())
        } else {
            let v = le_u64_at(s, 1);
            if v <= 0xffff_ffff {
                Err(varint_non_canonical())
            } else {
                Ok((v, 9))
            }
        }
    }
}

/// Encodes `value` as a variable-length integer.
pub fn encode_varint(value: u64) -> (result: Vec<u8>)
    ensures
        result@ == varint_bytes(value),
{
    let mut result: Vec<u8> = Vec::new();
    if value < 0xfd {
        result.push(value as u8);
    } else if value <= 0xffff {
        result.push(0xfd);
        push_u16_le(&mut result, value as u16);
    } else if value <= 0xffff_ffff {
        result.push(0xfe);
        push_u32_le(&mut result, value as u32);
    } else {
        result.push(0xff);
        push_u64_le(&mut result, value);
    }
    assert(result@ =~= varint_bytes(value));
    result
}

/// Appends the encoding of `value` to `out`.
pub fn push_varint(out: &mut Vec<u8>, value: u64)
    ensures
        final(out)@ == old(out)@ + varint_bytes(value),
{
    let enc = encode_varint(value);
    append_bytes(out, enc.as_slice());
}

/// Decodes a variable-length integer from the front of `data`, returning the
/// value and the number of bytes it took.
pub fn decode_varint(data: &[u8]) -> (res: Result<(u64, usize), SerializationError>)
    ensures
        res == varint_decode(data@),
        res matches Ok((_, n)) ==> 1 <= n <= 9 && n <= data@.len(),
{
    if data.len() == 0 {
        return Err(SerializationError::VarInt(VarIntError::InsufficientBytes));
    }
    let first_byte = data[0];
    if first_byte < 0xfd {
        Ok((first_byte as u64, 1))
    } else if first_byte == 0xfd {
        if data.len() < 3 {
            return Err(SerializationError::VarInt(VarIntError::InsufficientBytes));
        }
        let value = read_u16_le(data, 1) as u64;
        if value < 0xfd {
            return Err(SerializationError::VarInt(VarIntError::InvalidEncoding));
        }
        Ok((value, 3))
    } else if first_byte == 0xfe {
        if data.len() < 5 {
            return Err(SerializationError::VarInt(VarIntError::InsufficientBytes));
        }
        let value = read_u32_le(data, 1) as u64;
        if value <= 0xffff {
            return Err(SerializationError::VarInt(VarIntError::InvalidEncoding));
        }
        Ok((value, 5))
    } else {
        if data.len() < 9 {
            return Err(SerializationError::VarInt(VarIntError::InsufficientBytes));
        }
        let value = read_u64_le(data, 1);
        if value <= 0xffff_ffff {
            return Err(SerializationError::VarInt(VarIntError::InvalidEncoding));
        }
        Ok((value, 9))
    }
}

/// Decodes a variable-length integer that starts at position `off` of `data`.
pub fn decode_varint_at(data: &[u8], off: usize) -> (res: Result<(u64, usize), SerializationError>)
    requires
        off <= data@.len(),
    ensures
        res == varint_decode(data@.skip(off as int)),
        res matches Ok((_, n)) ==> 1 <= n <= 9 && off + n <= data.len(),
{
    let rest = &data[off..data.len()];
    assert(rest@ =~= data@.skip(off as int));
    decode_varint(rest)
}

/// An encoding is one, three, five or nine bytes long.
pub proof fn lemma_varint_len(v: u64)
    ensures
        varint_bytes(v).len() == (if v < 0xfd {
            1int
        } else if v <= 0xffff {
            3int
        } else if v <= 0xffff_ffff {
            5int
        } else {
            9int
        }),
{
}

/// Decoding gives back any encoded value together with the length of its
/// encoding, whatever bytes follow it.
pub proof fn lemma_varint_roundtrip(v: u64, rest: Seq<u8>)
    ensures
        varint_decode(varint_bytes(v) + rest) == Ok::<(u64, usize), SerializationError>(
            (v, varint_bytes(v).len() as usize),
        ),
{
    let s = varint_bytes(v) + rest;
    if v < 0xfd {
        assert(s[0] == v as u8);
    } else if v <= 0xffff {
        lemma_u16_roundtrip(v as u16);
        assert(s[1] == u16_le(v as u16)[0] && s[2] == u16_le(v as u16)[1]);
    } else if v <= 0xffff_ffff {
        lemma_u32_roundtrip(v as u32);
        assert(s[1] == u32_le(v as u32)[0] && s[2] == u32_le(v as u32)[1] && s[3] == u32_le(
            v as u32,
        )[2] && s[4] == u32_le(v as u32)[3]);
    } else {
        lemma_u64_roundtrip(v);
        assert(s[1] == u64_le(v)[0] && s[2] == u64_le(v)[1] && s[3] == u64_le(v)[2] && s[4]
            == u64_le(v)[3] && s[5] == u64_le(v)[4] && s[6] == u64_le(v)[5] && s[7] == u64_le(
            v,
        )[6] && s[8] == u64_le(v)[7]);
    }
}

/// Whatever decodes is the one encoding of its value: the bytes taken are
/// exactly the encoding of the decoded value.
pub proof fn lemma_varint_canonical(s: Seq<u8>)
    ensures
        varint_decode(s) matches Ok((v, n)) ==> n <= s.len() && s.subrange(0, n as int)
            == varint_bytes(v),
{
    if let Ok((v, n)) = varint_decode(s) {
        if s[0] < 0xfd {
            assert(s.subrange(0, 1) =~= varint_bytes(v));
        } else if s[0] == 0xfd {
            lemma_u16_bytes_roundtrip(s[1], s[2]);
            assert(s.subrange(0, 3) =~= varint_bytes(v));
        } else if s[0] == 0xfe {
            lemma_u32_bytes_roundtrip(s[1], s[2], s[3], s[4]);
            assert(s.subrange(0, 5) =~= varint_bytes(v));
        } else {
            lemma_u64_bytes_roundtrip(s[1], s[2], s[3], s[4], s[5], s[6], s[7], s[8]);
            assert(s.subrange(0, 9) =~= varint_bytes(v));
        }
    }
}

/// Decoding at a position where an encoding is held reads it back.
pub proof fn lemma_varint_decode_held(s: Seq<u8>, off: int, v: u64)
    requires
        holds_at(s, off, varint_bytes(v)),
    ensures
        varint_decode(s.skip(off)) == Ok::<(u64, usize), SerializationError>(
            (v, varint_bytes(v).len() as usize),
        ),
{
    let e = varint_bytes(v);
    let rest = s.skip(off + e.len());
    assert(s.skip(off) =~= e + rest);
    lemma_varint_roundtrip(v, rest);
}

} // verus!
