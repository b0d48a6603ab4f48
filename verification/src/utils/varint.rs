//! Variable-width unsigned integers: values below 0xFD take one byte; larger values take a
//! marker byte (0xFD, 0xFE or 0xFF) followed by 2, 4 or 8 little-endian bytes.

use vstd::prelude::*;
use crate::utils::bytes::append_bytes;
use crate::utils::ints::{
    byte_slice_to_u32, lemma_u16_le_roundtrip, lemma_u32_le_roundtrip, lemma_u64_le_roundtrip,
    read_u64_le, spec_u16_from_le, spec_u16_le, spec_u32_from_le, spec_u32_le, spec_u64_from_le,
    spec_u64_le, u32_to_u8_array, u64_to_u8_array,
};

verus! {

#[derive(Debug, Clone, Copy, PartialEq, Eq, Structural)]
pub enum VarIntError {
    UnexpectedFormat,
    ParseVarIntErrorError,
}

impl VarIntError {
    pub open spec fn spec_marshal(self) -> Seq<u8> {
        match self {
            VarIntError::UnexpectedFormat => seq![0x01u8],
            VarIntError::ParseVarIntErrorError => seq![0x02u8],
        }
    }

    /// What `parse` gives for `data`; `None` where it would index past the end.
    pub open spec fn spec_parse(data: Seq<u8>) -> Option<(VarIntError, nat)> {
        if data.len() == 0 {
            None
        } else if data[0] == 0x01 {
            Some((VarIntError::UnexpectedFormat, 1))
        } else {
            Some((VarIntError::ParseVarIntErrorError, 1))
        }
    }

    pub fn marshal(&self) -> (result: Vec<u8>)
        ensures
            result@ == self.spec_marshal(),
    {
        let mut result = Vec::new();
        match self {
            VarIntError::UnexpectedFormat => result.push(0x01u8),
            VarIntError::ParseVarIntErrorError => result.push(0x02u8),
        }
        assert(result@ =~= self.spec_marshal());
        result
    }

    pub fn parse(data: &[u8]) -> (result: Result<(VarIntError, usize), VarIntError>)
        requires
            Self::spec_parse(data@) is Some,
        ensures
            result matches Ok((e, n)) && Self::spec_parse(data@) == Some((e, n as nat)),
    {
        if data[0] == 0x01 {
            Ok((VarIntError::UnexpectedFormat, 1))
        } else {
            Ok((VarIntError::ParseVarIntErrorError, 1))
        }
    }

    pub proof fn lemma_roundtrip(self, rest: Seq<u8>)
        ensures
            Self::spec_parse(self.spec_marshal() + rest) == Some((self, self.spec_marshal().len())),
    {
    }
}

/// The encoding of `n`.
pub open spec fn spec_varint_encode(n: u64) -> Seq<u8> {
    if n < 0xfd {
        seq![n as u8]
    } else if n <= 0xffff {
        seq![0xfdu8] + spec_u16_le(n as u16)
    } else if n <= 0xffff_ffff {
        seq![0xfeu8] + spec_u32_le(n as u32)
    } else {
        seq![0xffu8] + spec_u64_le(n)
    }
}

/// The value encoded at the start of `data` and the number of bytes it takes.
pub open spec fn spec_varint_decode(data: Seq<u8>) -> Result<(u64, nat), VarIntError> {
    if data.len() == 0 {
        Err(VarIntError::UnexpectedFormat)
    } else if data[0] < 0xfd {
        Ok((data[0] as u64, 1))
    } else if data[0] == 0xfd {
        if data.len() >= 3 {
            Ok((spec_u16_from_le(data.subrange(1, 3)) as u64, 3))
        } else {
            Err(VarIntError::UnexpectedFormat)
        }
    } else if data[0] == 0xfe {
        if data.len() >= 5 {
            Ok((spec_u32_from_le(data.subrange(1, 5)) as u64, 5))
        } else {
            Err(VarIntError::UnexpectedFormat)
        }
    } else {
        if data.len() >= 9 {
            Ok((spec_u64_from_le(data.subrange(1, 9)), 9))
        } else {
            Err(VarIntError::UnexpectedFormat)
        }
    }
}

pub proof fn lemma_varint_encode_len(n: u64)
    ensures
        1 <= spec_varint_encode(n).len() <= 9,
{
}

/// Decoding an encoding gives the number back, whatever follows it.
pub proof fn lemma_varint_roundtrip(n: u64, rest: Seq<u8>)
    ensures
        spec_varint_decode(spec_varint_encode(n) + rest) == Ok::<(u64, nat), VarIntError>(
            (n, spec_varint_encode(n).len()),
        ),
{
    let e = spec_varint_encode(n);
    let d = e + rest;
    if n < 0xfd {
        assert(d[0] == n as u8);
    } else if n <= 0xffff {
        lemma_u16_le_roundtrip(n as u16);
        assert(d.subrange(1, 3) =~= spec_u16_le(n as u16));
        assert(d[0] == 0xfdu8);
    } else if n <= 0xffff_ffff {
        lemma_u32_le_roundtrip(n as u32);
        assert(d.subrange(1, 5) =~= spec_u32_le(n as u32));
        assert(d[0] == 0xfeu8);
    } else {
        lemma_u64_le_roundtrip(n);
        assert(d.subrange(1, 9) =~= spec_u64_le(n));
        assert(d[0] == 0xffu8);
    }
}

/// A successful decode read exactly the bytes of the encoding of what it read.
pub proof fn lemma_varint_decode_consumed(data: Seq<u8>)
    requires
        spec_varint_decode(data) is Ok,
    ensures
        ({
            let (v, n) = spec_varint_decode(data)->Ok_0;
            1 <= n <= 9 && n <= data.len()
        }),
{
}

/// The encoding of `n`.
pub fn varint_encode(n: u64) -> (result: Vec<u8>)
    ensures
        result@ == spec_varint_encode(n),
{
    let mut result: Vec<u8> = Vec::new();
    if n < 0xfd {
        result.push(n as u8);
    } else if n <= 0xffff {
        result.push(0xfdu8);
        result.push((n & 0xff) as u8);
        result.push(((n >> 8) & 0xff) as u8);
        let m = n as u16;
        assert((m & 0xff) as u8 == (n & 0xff) as u8 && ((m >> 8) & 0xff) as u8 == ((n >> 8)
            & 0xff) as u8) by (bit_vector)
            requires
                n <= 0xffff,
                m == n as u16,
        ;
    } else if n <= 0xffff_ffff {
        result.push(0xfeu8);
        let bytes = u32_to_u8_array(n as u32);
        append_bytes(&mut result, &bytes);
    } else {
        result.push(0xffu8);
        let bytes = u64_to_u8_array(n);
        append_bytes(&mut result, &bytes);
    }
    assert(result@ =~= spec_varint_encode(n));
    result
}

/// Reads a number at the start of `data`, with the number of bytes it takes.
pub fn varint_decode(data: &[u8]) -> (result: Result<(u64, usize), VarIntError>)
    ensures
        match result {
            Ok((v, n)) => spec_varint_decode(data@) == Ok::<(u64, nat), VarIntError>((v, n as nat))
                && 1 <= n <= 9 && n <= data@.len(),
            Err(e) => spec_varint_decode(data@) == Err::<(u64, nat), VarIntError>(e),
        },
{
    if data.len() == 0 {
        return Err(VarIntError::UnexpectedFormat);
    }
    let first = data[0];
    if first < 0xfd {
        Ok((first as u64, 1))
    } else if first == 0xfd {
        if data.len() >= 3 {
            let v: u16 = (data[1] as u16) | ((data[2] as u16) << 8);
            Ok((v as u64, 3))
        } else {
            Err(VarIntError::UnexpectedFormat)
        }
    } else if first == 0xfe {
        if data.len() >= 5 {
            let v = byte_slice_to_u32(crate::utils::bytes::tail_bytes(data, 1));
            Ok((v as u64, 5))
        } else {
            Err(VarIntError::UnexpectedFormat)
        }
    } else {
        if data.len() >= 9 {
            let v = read_u64_le(data, 1);
            Ok((v, 9))
        } else {
            Err(VarIntError::UnexpectedFormat)
        }
    }
}

} // verus!
