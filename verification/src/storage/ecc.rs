//! Error correction of instruction bytes: no correction at all, or triple modular redundancy
//! (three copies, decoded by a bitwise majority vote).

use vstd::prelude::*;
use crate::utils::bytes::{append_bytes, bytes_to_vec};
use crate::utils::ints::{
    get_bit_u8, lemma_u64_le_roundtrip, read_u64_le, set_bit_u8, spec_get_bit_u8, spec_u64_from_le,
    spec_u64_le, u64_to_u8_array,
};

verus! {

#[derive(Copy, Clone, Debug, PartialEq, Eq, Structural)]
pub enum ECCMode {
    /// No error correction.
    Identity,
    /// Triple modular redundancy.
    TMR,
}

impl ECCMode {
    pub open spec fn spec_code(self) -> u8 {
        match self {
            ECCMode::Identity => 0x00,
            ECCMode::TMR => 0x01,
        }
    }

    /// The byte that marks the mode in an instruction pack.
    pub fn code(&self) -> (result: u8)
        ensures
            result == self.spec_code(),
    {
        match self {
            ECCMode::Identity => 0x00,
            ECCMode::TMR => 0x01,
        }
    }
}

#[derive(Debug, Clone, Copy, PartialEq, Eq, Structural)]
pub enum ErrorCorrectionError {
    DataWidthNotDivisibleByModulus(usize),
    ParseErrorCorrectionErrorError,
}

pub enum ErrorCorrectionErrorPrefix {
    DataWidthNotDivisibleByModulus,
    ParseErrorCorrectionErrorError,
}

impl ErrorCorrectionError {
    pub open spec fn spec_marshal(self) -> Seq<u8> {
        match self {
            ErrorCorrectionError::DataWidthNotDivisibleByModulus(size) => seq![0x01u8]
                + spec_u64_le(size as u64),
            ErrorCorrectionError::ParseErrorCorrectionErrorError => seq![0x02u8],
        }
    }

    /// What `parse` gives for `data`; `None` where it would index past the end.
    pub open spec fn spec_parse(data: Seq<u8>) -> Option<(ErrorCorrectionError, nat)> {
        if data.len() == 0 {
            None
        } else if data[0] == 0x01 {
            if data.len() < 9 {
                None
            } else {
                Some(
                    (
                        ErrorCorrectionError::DataWidthNotDivisibleByModulus(
                            spec_u64_from_le(data.subrange(1, 9)) as usize,
                        ),
                        9,
                    ),
                )
            }
        } else {
            Some((ErrorCorrectionError::ParseErrorCorrectionErrorError, 1))
        }
    }

    pub fn marshal(&self) -> (result: Vec<u8>)
        ensures
            result@ == self.spec_marshal(),
    {
        match self {
            ErrorCorrectionError::DataWidthNotDivisibleByModulus(size) => {
                let mut result = vec![0x01u8];
                append_bytes(&mut result, &u64_to_u8_array(*size as u64));
                result
            },
            ErrorCorrectionError::ParseErrorCorrectionErrorError => {
                let result = vec![0x02u8];
                assert(result@ =~= self.spec_marshal());
                result
            },
        }
    }

    pub fn parse(data: &[u8]) -> (result: Result<(ErrorCorrectionError, usize), ErrorCorrectionError>)
        requires
            Self::spec_parse(data@) is Some,
        ensures
            result matches Ok((e, n)) && Self::spec_parse(data@) == Some((e, n as nat)),
    {
        if data[0] == 0x01 {
            let size = read_u64_le(data, 1);
            Ok((ErrorCorrectionError::DataWidthNotDivisibleByModulus(size as usize), 9))
        } else {
            Ok((ErrorCorrectionError::ParseErrorCorrectionErrorError, 1))
        }
    }

    /// Parsing gives the error back, whatever follows it.
    pub proof fn lemma_roundtrip(self, rest: Seq<u8>)
        ensures
            Self::spec_parse(self.spec_marshal() + rest) == Some((self, self.spec_marshal().len())),
    {
        let d = self.spec_marshal() + rest;
        match self {
            ErrorCorrectionError::DataWidthNotDivisibleByModulus(size) => {
                lemma_u64_le_roundtrip(size as u64);
                assert(d.subrange(1, 9) =~= spec_u64_le(size as u64));
            },
            _ => {},
        }
    }
}

/// Bit `d` of the majority vote of three bytes.
pub open spec fn majority_bit(a: u8, b: u8, c: u8, d: u8) -> bool {
    (spec_get_bit_u8(a, d) as int + spec_get_bit_u8(b, d) as int + spec_get_bit_u8(c, d) as int) >= 2
}

/// A byte whose every bit is the majority of the same bit of `a`, `b` and `c`.
pub open spec fn is_majority_byte(r: u8, a: u8, b: u8, c: u8) -> bool {
    forall|d: u8| d < 8 ==> spec_get_bit_u8(r, d) == majority_bit(a, b, c, d)
}

/// Two bytes with the same eight bits are the same byte.
pub proof fn lemma_byte_from_bits(x: u8, y: u8)
    requires
        forall|d: u8| d < 8 ==> spec_get_bit_u8(x, d) == spec_get_bit_u8(y, d),
    ensures
        x == y,
{
    assert(spec_get_bit_u8(x, 0) == spec_get_bit_u8(y, 0));
    assert(spec_get_bit_u8(x, 1) == spec_get_bit_u8(y, 1));
    assert(spec_get_bit_u8(x, 2) == spec_get_bit_u8(y, 2));
    assert(spec_get_bit_u8(x, 3) == spec_get_bit_u8(y, 3));
    assert(spec_get_bit_u8(x, 4) == spec_get_bit_u8(y, 4));
    assert(spec_get_bit_u8(x, 5) == spec_get_bit_u8(y, 5));
    assert(spec_get_bit_u8(x, 6) == spec_get_bit_u8(y, 6));
    assert(spec_get_bit_u8(x, 7) == spec_get_bit_u8(y, 7));
    assert(x == y) by (bit_vector)
        requires
            ((x >> 0u8) & 1 == 1) == ((y >> 0u8) & 1 == 1),
            ((x >> 1u8) & 1 == 1) == ((y >> 1u8) & 1 == 1),
            ((x >> 2u8) & 1 == 1) == ((y >> 2u8) & 1 == 1),
            ((x >> 3u8) & 1 == 1) == ((y >> 3u8) & 1 == 1),
            ((x >> 4u8) & 1 == 1) == ((y >> 4u8) & 1 == 1),
            ((x >> 5u8) & 1 == 1) == ((y >> 5u8) & 1 == 1),
            ((x >> 6u8) & 1 == 1) == ((y >> 6u8) & 1 == 1),
            ((x >> 7u8) & 1 == 1) == ((y >> 7u8) & 1 == 1),
    ;
}

/// Where two of the three bytes agree, the majority byte is the byte they agree on.
pub proof fn lemma_majority_of_two_equal(r: u8, a: u8, b: u8, c: u8)
    requires
        is_majority_byte(r, a, b, c),
        a == b || a == c || b == c,
    ensures
        r == (if a == b || a == c { a } else { b }),
{
    let m = if a == b || a == c { a } else { b };
    assert forall|d: u8| d < 8 implies spec_get_bit_u8(r, d) == spec_get_bit_u8(m, d) by {
        assert(spec_get_bit_u8(r, d) == majority_bit(a, b, c, d));
    }
    lemma_byte_from_bits(r, m);
}

/// The bitwise majority vote of three bytes.
pub open spec fn spec_majority(a: u8, b: u8, c: u8) -> u8 {
    (a & b) | (a & c) | (b & c)
}

pub proof fn lemma_spec_majority_is_majority(a: u8, b: u8, c: u8)
    ensures
        is_majority_byte(spec_majority(a, b, c), a, b, c),
{
    let m = spec_majority(a, b, c);
    assert forall|d: u8| d < 8 implies spec_get_bit_u8(m, d) == majority_bit(a, b, c, d) by {
        let (x, y, z) = (spec_get_bit_u8(a, d), spec_get_bit_u8(b, d), spec_get_bit_u8(c, d));
        assert(((m >> d) & 1 == 1) == (((a >> d) & 1 == 1) && ((b >> d) & 1 == 1) || ((a >> d) & 1
            == 1) && ((c >> d) & 1 == 1) || ((b >> d) & 1 == 1) && ((c >> d) & 1 == 1)))
            by (bit_vector)
            requires
                m == (a & b) | (a & c) | (b & c),
                d < 8,
        ;
    }
}

/// The majority byte of three bytes is unique.
pub proof fn lemma_majority_unique(r: u8, a: u8, b: u8, c: u8)
    requires
        is_majority_byte(r, a, b, c),
    ensures
        r == spec_majority(a, b, c),
{
    lemma_spec_majority_is_majority(a, b, c);
    let m = spec_majority(a, b, c);
    assert forall|d: u8| d < 8 implies spec_get_bit_u8(r, d) == spec_get_bit_u8(m, d) by {}
    lemma_byte_from_bits(r, m);
}

/// The TMR decoding of `data`: the bitwise majority vote of its three thirds.
pub open spec fn spec_tmr_decode(data: Seq<u8>) -> Seq<u8> {
    let w = data.len() / 3;
    Seq::new(w, |i: int| spec_majority(data[i], data[i + w], data[i + 2 * w]))
}

pub proof fn lemma_tmr_decoding_is_decode(r: Seq<u8>, data: Seq<u8>)
    requires
        is_tmr_decoding(r, data),
    ensures
        r == spec_tmr_decode(data),
{
    let w = data.len() / 3;
    assert forall|i: int| 0 <= i < w implies r[i] == spec_tmr_decode(data)[i] by {
        assert(is_majority_byte(r[i], data[i], data[i + w], data[i + 2 * w]));
        lemma_majority_unique(r[i], data[i], data[i + w], data[i + 2 * w]);
    }
    assert(r =~= spec_tmr_decode(data));
}

/// The TMR encoding of `data`: three copies one after another.
pub open spec fn spec_tmr_encode(data: Seq<u8>) -> Seq<u8> {
    data + data + data
}

/// `r` is the bitwise majority vote of the three thirds of `data`.
pub open spec fn is_tmr_decoding(r: Seq<u8>, data: Seq<u8>) -> bool {
    let w = data.len() / 3;
    &&& r.len() == w
    &&& forall|i: int| 0 <= i < w ==> #[trigger] is_majority_byte(r[i], data[i], data[i + w], data[i + 2 * w])
}

/// A code that protects data against corruption: what it encodes, its decoding gives back.
pub trait ErrorCorrectionCodec {
    fn encode(&self, data: &[u8]) -> (result: Vec<u8>)
        requires
            data@.len() * 3 <= usize::MAX,
    ;

    fn decode(&self, data: &[u8]) -> (result: Result<Vec<u8>, ErrorCorrectionError>);
}

/// Passes data through unchanged.
pub struct IdentityCode {}

impl IdentityCode {
    pub fn new() -> Self {
        IdentityCode {}
    }

    pub fn encode(&self, data: &[u8]) -> (result: Vec<u8>)
        ensures
            result@ == data@,
    {
        bytes_to_vec(data)
    }

    pub fn decode(&self, data: &[u8]) -> (result: Result<Vec<u8>, ErrorCorrectionError>)
        ensures
            result matches Ok(r) && r@ == data@,
    {
        Ok(bytes_to_vec(data))
    }
}

/// Triple modular redundancy.
pub struct TripleRedundancyCode {}

impl TripleRedundancyCode {
    pub fn new() -> Self {
        TripleRedundancyCode {}
    }

    pub fn encode(&self, data: &[u8]) -> (result: Vec<u8>)
        requires
            data@.len() * 3 <= usize::MAX,
        ensures
            result@ == spec_tmr_encode(data@),
    {
        let mut result: Vec<u8> = Vec::new();
        append_bytes(&mut result, data);
        append_bytes(&mut result, data);
        append_bytes(&mut result, data);
        result
    }

    /// Majority vote, bit by bit, of the three thirds of `data`; fails where the width is not a
    /// multiple of three.
    pub fn decode(&self, data: &[u8]) -> (result: Result<Vec<u8>, ErrorCorrectionError>)
        ensures
            data@.len() % 3 != 0 ==> result == Err::<Vec<u8>, ErrorCorrectionError>(
                ErrorCorrectionError::DataWidthNotDivisibleByModulus(data@.len() as usize),
            ),
            data@.len() % 3 == 0 ==> (result matches Ok(r) && is_tmr_decoding(r@, data@) && r@
                == spec_tmr_decode(data@)),
    {
        if data.len() % 3 != 0 {
            return Err(ErrorCorrectionError::DataWidthNotDivisibleByModulus(data.len()));
        }
        let part_width = data.len() / 3;
        let mut result: Vec<u8> = Vec::new();
        let mut i: usize = 0;
        while i < part_width
            invariant
                part_width == data@.len() / 3,
                data@.len() % 3 == 0,
                part_width * 3 == data@.len(),
                data@.len() <= usize::MAX,
                i <= part_width,
                result@.len() == i,
                forall|j: int|
                    0 <= j < i ==> #[trigger] is_majority_byte(
                        result@[j],
                        data@[j],
                        data@[j + part_width],
                        data@[j + 2 * part_width],
                    ),
            decreases part_width - i,
        {
            let pos_1 = i;
            let pos_2 = i + part_width;
            let pos_3 = i + part_width * 2;
            let (a, b, c) = (data[pos_1], data[pos_2], data[pos_3]);
            let byte: u8 = if a == b && b == c {
                assert forall|d: u8| d < 8 implies spec_get_bit_u8(a, d) == majority_bit(a, b, c, d) by {}
                a
            } else {
                let mut output_byte: u8 = 0;
                let mut digit: u8 = 0;
                while digit < 8
                    invariant
                        digit <= 8,
                        forall|d: u8| d < digit ==> spec_get_bit_u8(output_byte, d) == majority_bit(a, b, c, d),
                    decreases 8 - digit,
                {
                    let bit1 = get_bit_u8(a, digit);
                    let bit2 = get_bit_u8(b, digit);
                    let bit3 = get_bit_u8(c, digit);
                    let bit_sum: u8 = bit1 as u8 + bit2 as u8 + bit3 as u8;
                    let output_bit = if bit_sum >= 2 { true } else { false };
                    set_bit_u8(&mut output_byte, digit, output_bit);
                    digit = digit + 1;
                }
                output_byte
            };
            result.push(byte);
            i = i + 1;
        }
        proof {
            lemma_tmr_decoding_is_decode(result@, data@);
        }
        Ok(result)
    }
}

/// Decoding the encoding of `data` gives `data` back.
pub proof fn lemma_tmr_roundtrip(data: Seq<u8>)
    ensures
        spec_tmr_decode(spec_tmr_encode(data)) == data,
{
    let e = spec_tmr_encode(data);
    let w = data.len();
    assert(e.len() / 3 == w);
    let r = spec_tmr_decode(e);
    assert forall|i: int| 0 <= i < w implies r[i] == data[i] by {
        lemma_spec_majority_is_majority(e[i], e[i + w], e[i + 2 * w]);
        lemma_majority_of_two_equal(r[i], e[i], e[i + w], e[i + 2 * w]);
    }
    assert(r =~= data);
}

/// Any one byte of the encoding may be changed to anything: decoding still gives `data` back.
pub proof fn lemma_tmr_resists_single_corruption(data: Seq<u8>, pos: int, value: u8)
    requires
        0 <= pos < 3 * data.len(),
    ensures
        spec_tmr_decode(spec_tmr_encode(data).update(pos, value)) == data,
{
    let e = spec_tmr_encode(data).update(pos, value);
    let w = data.len();
    lemma_spec_majority_is_majority_all(e);
    lemma_tmr_single_corruption(data, pos, value, spec_tmr_decode(e));
}

proof fn lemma_spec_majority_is_majority_all(e: Seq<u8>)
    ensures
        is_tmr_decoding(spec_tmr_decode(e), e),
{
    let w = e.len() / 3;
    let r = spec_tmr_decode(e);
    assert forall|i: int| 0 <= i < w implies #[trigger] is_majority_byte(r[i], e[i], e[i + w], e[i + 2 * w]) by {
        lemma_spec_majority_is_majority(e[i], e[i + w], e[i + 2 * w]);
    }
}

proof fn lemma_tmr_single_corruption(data: Seq<u8>, pos: int, value: u8, r: Seq<u8>)
    requires
        0 <= pos < 3 * data.len(),
        is_tmr_decoding(r, spec_tmr_encode(data).update(pos, value)),
    ensures
        r == data,
{
    let e = spec_tmr_encode(data).update(pos, value);
    let w = data.len();
    assert(e.len() / 3 == w);
    assert forall|i: int| 0 <= i < w implies r[i] == data[i] by {
        assert(is_majority_byte(r[i], e[i], e[i + w], e[i + 2 * w]));
        let (a, b, c) = (e[i], e[i + w], e[i + 2 * w]);
        assert(a == data[i] || pos == i);
        assert(b == data[i] || pos == i + w);
        assert(c == data[i] || pos == i + 2 * w);
        lemma_majority_of_two_equal(r[i], a, b, c);
    }
    assert(r =~= data);
}

impl ErrorCorrectionCodec for IdentityCode {
    fn encode(&self, data: &[u8]) -> (result: Vec<u8>)
        ensures
            result@ == data@,
    {
        IdentityCode::encode(self, data)
    }

    fn decode(&self, data: &[u8]) -> (result: Result<Vec<u8>, ErrorCorrectionError>)
        ensures
            result matches Ok(r) && r@ == data@,
    {
        IdentityCode::decode(self, data)
    }
}

impl ErrorCorrectionCodec for TripleRedundancyCode {
    fn encode(&self, data: &[u8]) -> (result: Vec<u8>)
        ensures
            result@ == spec_tmr_encode(data@),
    {
        TripleRedundancyCode::encode(self, data)
    }

    fn decode(&self, data: &[u8]) -> (result: Result<Vec<u8>, ErrorCorrectionError>)
        ensures
            data@.len() % 3 != 0 ==> result == Err::<Vec<u8>, ErrorCorrectionError>(
                ErrorCorrectionError::DataWidthNotDivisibleByModulus(data@.len() as usize),
            ),
            data@.len() % 3 == 0 ==> (result matches Ok(r) && is_tmr_decoding(r@, data@) && r@
                == spec_tmr_decode(data@)),
    {
        TripleRedundancyCode::decode(self, data)
    }
}

} // verus!
