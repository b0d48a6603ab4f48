//! Length-prefixed byte strings: a varint width followed by that many bytes.

use vstd::prelude::*;
use crate::utils::bytes::{append_bytes, sub_bytes};
use crate::utils::varint::{
    lemma_varint_decode_consumed, lemma_varint_roundtrip, spec_varint_decode, spec_varint_encode, varint_decode, varint_encode,
    VarIntError,
};

verus! {

/// `bytes` with its width in front.
pub open spec fn spec_prepend_varint_width(bytes: Seq<u8>) -> Seq<u8> {
    spec_varint_encode(bytes.len() as u64) + bytes
}

/// Reads a width-prefixed byte string at the start of `data`. `None` where the width is read
/// but fewer bytes than it announces follow.
pub open spec fn spec_length_prefixed(data: Seq<u8>) -> Option<Result<(Seq<u8>, nat), VarIntError>> {
    match spec_varint_decode(data) {
        Err(e) => Some(Err(e)),
        Ok((len, off)) => if off + len <= data.len() {
            Some(Ok((data.subrange(off as int, off + len), (off + len) as nat)))
        } else {
            None
        },
    }
}

/// Like `spec_length_prefixed`, with a width that overruns the data reported as a malformed
/// width.
pub open spec fn spec_extract_data_with_varint_width(data: Seq<u8>) -> Result<(Seq<u8>, nat), VarIntError> {
    match spec_length_prefixed(data) {
        Some(r) => r,
        None => Err(VarIntError::UnexpectedFormat),
    }
}

/// A width-prefixed string reads back as itself, whatever follows it.
pub proof fn lemma_length_prefixed_roundtrip(bytes: Seq<u8>, rest: Seq<u8>)
    requires
        bytes.len() <= u64::MAX,
    ensures
        spec_length_prefixed(spec_prepend_varint_width(bytes) + rest) == Some(
            Ok::<(Seq<u8>, nat), VarIntError>((bytes, spec_prepend_varint_width(bytes).len())),
        ),
        spec_extract_data_with_varint_width(spec_prepend_varint_width(bytes) + rest) == Ok::<
            (Seq<u8>, nat),
            VarIntError,
        >((bytes, spec_prepend_varint_width(bytes).len())),
{
    let w = spec_varint_encode(bytes.len() as u64);
    lemma_varint_roundtrip(bytes.len() as u64, bytes + rest);
    assert(spec_prepend_varint_width(bytes) + rest =~= w + (bytes + rest));
    let d = w + (bytes + rest);
    assert(d.subrange(w.len() as int, (w.len() + bytes.len()) as int) =~= bytes);
}

/// A width-prefixed string that was read takes at least one byte and no more than there are.
pub proof fn lemma_length_prefixed_consumed(data: Seq<u8>)
    ensures
        spec_length_prefixed(data) matches Some(Ok((b, n))) ==> 1 <= n <= data.len() && b.len() < n,
{
    if spec_varint_decode(data) is Ok {
        lemma_varint_decode_consumed(data);
    }
}

/// `bytes` with its width in front.
pub fn prepend_varint_width(bytes: &[u8]) -> (result: Vec<u8>)
    ensures
        result@ == spec_prepend_varint_width(bytes@),
{
    let mut result = varint_encode(bytes.len() as u64);
    append_bytes(&mut result, bytes);
    result
}

/// Reads a width-prefixed byte string; `None` where the announced width overruns `data`.
pub fn read_length_prefixed(data: &[u8]) -> (result: Option<Result<(&[u8], usize), VarIntError>>)
    ensures
        match result {
            None => spec_length_prefixed(data@) is None,
            Some(Err(e)) => spec_length_prefixed(data@) == Some(Err::<(Seq<u8>, nat), VarIntError>(e)),
            Some(Ok((s, n))) => spec_length_prefixed(data@) == Some(
                Ok::<(Seq<u8>, nat), VarIntError>((s@, n as nat)),
            ) && n <= data@.len(),
        },
{
    match varint_decode(data) {
        Err(e) => Some(Err(e)),
        Ok((len, off)) => {
            if off > data.len() || len > (data.len() - off) as u64 {
                None
            } else {
                let end = off + len as usize;
                Some(Ok((sub_bytes(data, off, end), end)))
            }
        },
    }
}

/// Reads a width-prefixed byte string; a width that overruns `data` is a malformed width.
pub fn extract_data_with_varint_width(data: &[u8]) -> (result: Result<(&[u8], usize), VarIntError>)
    ensures
        match result {
            Err(e) => spec_extract_data_with_varint_width(data@) == Err::<(Seq<u8>, nat), VarIntError>(e),
            Ok((s, n)) => spec_extract_data_with_varint_width(data@) == Ok::<(Seq<u8>, nat), VarIntError>(
                (s@, n as nat),
            ),
        },
{
    match read_length_prefixed(data) {
        None => Err(VarIntError::UnexpectedFormat),
        Some(r) => r,
    }
}

} // verus!

verus! {

/// Reads a width-prefixed byte string at `pos`; the position after it comes back.
pub open spec fn spec_read_bytes_at(data: Seq<u8>, pos: nat) -> Option<Result<(Seq<u8>, nat), VarIntError>> {
    match spec_length_prefixed(data.subrange(pos as int, data.len() as int)) {
        None => None,
        Some(Err(e)) => Some(Err(e)),
        Some(Ok((b, n))) => Some(Ok((b, pos + n))),
    }
}

/// Reads a varint at `pos`; the position after it comes back.
pub open spec fn spec_read_varint_at(data: Seq<u8>, pos: nat) -> Result<(u64, nat), VarIntError> {
    match spec_varint_decode(data.subrange(pos as int, data.len() as int)) {
        Err(e) => Err(e),
        Ok((v, n)) => Ok((v, pos + n)),
    }
}

pub proof fn lemma_read_bytes_at(prefix: Seq<u8>, bytes: Seq<u8>, rest: Seq<u8>)
    requires
        bytes.len() <= u64::MAX,
    ensures
        spec_read_bytes_at(prefix + spec_prepend_varint_width(bytes) + rest, prefix.len()) == Some(
            Ok::<(Seq<u8>, nat), VarIntError>(
                (bytes, prefix.len() + spec_prepend_varint_width(bytes).len()),
            ),
        ),
{
    let d = prefix + spec_prepend_varint_width(bytes) + rest;
    assert(d.subrange(prefix.len() as int, d.len() as int) =~= spec_prepend_varint_width(bytes)
        + rest);
    lemma_length_prefixed_roundtrip(bytes, rest);
}

pub proof fn lemma_read_varint_at(prefix: Seq<u8>, n: u64, rest: Seq<u8>)
    ensures
        spec_read_varint_at(prefix + spec_varint_encode(n) + rest, prefix.len()) == Ok::<
            (u64, nat),
            VarIntError,
        >((n, prefix.len() + spec_varint_encode(n).len())),
{
    let d = prefix + spec_varint_encode(n) + rest;
    assert(d.subrange(prefix.len() as int, d.len() as int) =~= spec_varint_encode(n) + rest);
    lemma_varint_roundtrip(n, rest);
}

/// Reads a width-prefixed byte string at `pos`; `None` where its width overruns `data`.
pub fn read_bytes_at(data: &[u8], pos: usize) -> (result: Option<Result<(&[u8], usize), VarIntError>>)
    requires
        pos <= data@.len(),
    ensures
        match result {
            None => spec_read_bytes_at(data@, pos as nat) is None,
            Some(Err(e)) => spec_read_bytes_at(data@, pos as nat) == Some(
                Err::<(Seq<u8>, nat), VarIntError>(e),
            ),
            Some(Ok((s, n))) => spec_read_bytes_at(data@, pos as nat) == Some(
                Ok::<(Seq<u8>, nat), VarIntError>((s@, n as nat)),
            ) && n <= data@.len(),
        },
{
    let data_len = data.len();
    let tail = crate::utils::bytes::tail_bytes(data, pos);
    assert(tail@.len() == data_len - pos);
    match read_length_prefixed(tail) {
        None => None,
        Some(Err(e)) => Some(Err(e)),
        Some(Ok((s, n))) => Some(Ok((s, pos + n))),
    }
}

/// Reads a varint at `pos`.
pub fn read_varint_at(data: &[u8], pos: usize) -> (result: Result<(u64, usize), VarIntError>)
    requires
        pos <= data@.len(),
    ensures
        match result {
            Err(e) => spec_read_varint_at(data@, pos as nat) == Err::<(u64, nat), VarIntError>(e),
            Ok((v, n)) => spec_read_varint_at(data@, pos as nat) == Ok::<(u64, nat), VarIntError>(
                (v, n as nat),
            ) && n <= data@.len(),
        },
{
    let data_len = data.len();
    let tail = crate::utils::bytes::tail_bytes(data, pos);
    assert(tail@.len() == data_len - pos);
    match varint_decode(tail) {
        Err(e) => Err(e),
        Ok((v, n)) => Ok((v, pos + n)),
    }
}

} // verus!
