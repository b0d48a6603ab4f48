use vstd::prelude::*;

verus! {

/// Little-endian bytes of a `u64`.
pub open spec fn spec_u64_le(n: u64) -> Seq<u8> {
    seq![
        (n & 0xff) as u8,
        ((n >> 8) & 0xff) as u8,
        ((n >> 16) & 0xff) as u8,
        ((n >> 24) & 0xff) as u8,
        ((n >> 32) & 0xff) as u8,
        ((n >> 40) & 0xff) as u8,
        ((n >> 48) & 0xff) as u8,
        ((n >> 56) & 0xff) as u8,
    ]
}

/// The `u64` whose little-endian bytes are `b0 .. b7`.
pub open spec fn spec_u64_from_bytes(b0: u8, b1: u8, b2: u8, b3: u8, b4: u8, b5: u8, b6: u8, b7: u8) -> u64 {
    (b0 as u64) | ((b1 as u64) << 8) | ((b2 as u64) << 16) | ((b3 as u64) << 24) | ((b4 as u64)
        << 32) | ((b5 as u64) << 40) | ((b6 as u64) << 48) | ((b7 as u64) << 56)
}

/// The `u64` read little-endian from the first eight bytes of `b`.
pub open spec fn spec_u64_from_le(b: Seq<u8>) -> u64
    recommends
        b.len() >= 8,
{
    spec_u64_from_bytes(b[0], b[1], b[2], b[3], b[4], b[5], b[6], b[7])
}

/// Little-endian bytes of a `u32`.
pub open spec fn spec_u32_le(n: u32) -> Seq<u8> {
    seq![
        (n & 0xff) as u8,
        ((n >> 8) & 0xff) as u8,
        ((n >> 16) & 0xff) as u8,
        ((n >> 24) & 0xff) as u8,
    ]
}

/// The `u32` whose little-endian bytes are `b0 .. b3`.
pub open spec fn spec_u32_from_bytes(b0: u8, b1: u8, b2: u8, b3: u8) -> u32 {
    (b0 as u32) | ((b1 as u32) << 8) | ((b2 as u32) << 16) | ((b3 as u32) << 24)
}

/// The `u32` read little-endian from the first four bytes of `b`.
pub open spec fn spec_u32_from_le(b: Seq<u8>) -> u32
    recommends
        b.len() >= 4,
{
    spec_u32_from_bytes(b[0], b[1], b[2], b[3])
}

/// Little-endian bytes of a `u16`.
pub open spec fn spec_u16_le(n: u16) -> Seq<u8> {
    seq![(n & 0xff) as u8, ((n >> 8) & 0xff) as u8]
}

/// The `u16` read little-endian from the first two bytes of `b`.
pub open spec fn spec_u16_from_le(b: Seq<u8>) -> u16
    recommends
        b.len() >= 2,
{
    (b[0] as u16) | ((b[1] as u16) << 8)
}

pub proof fn lemma_u64_le_roundtrip(n: u64)
    ensures
        spec_u64_le(n).len() == 8,
        spec_u64_from_le(spec_u64_le(n)) == n,
{
    let b = spec_u64_le(n);
    assert(spec_u64_from_bytes(
        (n & 0xff) as u8,
        ((n >> 8) & 0xff) as u8,
        ((n >> 16) & 0xff) as u8,
        ((n >> 24) & 0xff) as u8,
        ((n >> 32) & 0xff) as u8,
        ((n >> 40) & 0xff) as u8,
        ((n >> 48) & 0xff) as u8,
        ((n >> 56) & 0xff) as u8,
    ) == n) by (bit_vector);
}

pub proof fn lemma_u64_from_le_roundtrip(b: Seq<u8>)
    requires
        b.len() >= 8,
    ensures
        spec_u64_le(spec_u64_from_le(b)) == b.subrange(0, 8),
{
    let (b0, b1, b2, b3, b4, b5, b6, b7) = (b[0], b[1], b[2], b[3], b[4], b[5], b[6], b[7]);
    let n = spec_u64_from_bytes(b0, b1, b2, b3, b4, b5, b6, b7);
    assert(
        (n & 0xff) as u8 == b0 && ((n >> 8) & 0xff) as u8 == b1 && ((n >> 16) & 0xff) as u8 == b2
            && ((n >> 24) & 0xff) as u8 == b3 && ((n >> 32) & 0xff) as u8 == b4 && ((n >> 40)
            & 0xff) as u8 == b5 && ((n >> 48) & 0xff) as u8 == b6 && ((n >> 56) & 0xff) as u8
            == b7
    ) by (bit_vector)
        requires
            n == spec_u64_from_bytes(b0, b1, b2, b3, b4, b5, b6, b7),
    ;
    assert(spec_u64_le(n) =~= b.subrange(0, 8));
}

pub proof fn lemma_u32_le_roundtrip(n: u32)
    ensures
        spec_u32_le(n).len() == 4,
        spec_u32_from_le(spec_u32_le(n)) == n,
{
    assert(spec_u32_from_bytes(
        (n & 0xff) as u8,
        ((n >> 8) & 0xff) as u8,
        ((n >> 16) & 0xff) as u8,
        ((n >> 24) & 0xff) as u8,
    ) == n) by (bit_vector);
}

pub proof fn lemma_u32_from_le_roundtrip(b: Seq<u8>)
    requires
        b.len() >= 4,
    ensures
        spec_u32_le(spec_u32_from_le(b)) == b.subrange(0, 4),
{
    let (b0, b1, b2, b3) = (b[0], b[1], b[2], b[3]);
    let n = spec_u32_from_bytes(b0, b1, b2, b3);
    assert(
        (n & 0xff) as u8 == b0 && ((n >> 8) & 0xff) as u8 == b1 && ((n >> 16) & 0xff) as u8 == b2
            && ((n >> 24) & 0xff) as u8 == b3
    ) by (bit_vector)
        requires
            n == spec_u32_from_bytes(b0, b1, b2, b3),
    ;
    assert(spec_u32_le(n) =~= b.subrange(0, 4));
}

pub proof fn lemma_u16_le_roundtrip(n: u16)
    ensures
        spec_u16_le(n).len() == 2,
        spec_u16_from_le(spec_u16_le(n)) == n,
{
    let b = spec_u16_le(n);
    assert(((((n & 0xff) as u8) as u16) | ((((n >> 8) & 0xff) as u8) as u16) << 8) == n)
        by (bit_vector);
}

pub proof fn lemma_u16_from_le_roundtrip(b: Seq<u8>)
    requires
        b.len() >= 2,
    ensures
        spec_u16_le(spec_u16_from_le(b)) == b.subrange(0, 2),
{
    let (b0, b1) = (b[0], b[1]);
    let n: u16 = (b0 as u16) | ((b1 as u16) << 8);
    assert((n & 0xff) as u8 == b0 && ((n >> 8) & 0xff) as u8 == b1) by (bit_vector)
        requires
            n == (b0 as u16) | ((b1 as u16) << 8),
    ;
    assert(spec_u16_le(n) =~= b.subrange(0, 2));
}

/// The eight little-endian bytes of `n`.
pub fn u64_to_u8_array(n: u64) -> (result: [u8; 8])
    ensures
        result@ == spec_u64_le(n),
{
    let result = [
        (n & 0xff) as u8,
        ((n >> 8) & 0xff) as u8,
        ((n >> 16) & 0xff) as u8,
        ((n >> 24) & 0xff) as u8,
        ((n >> 32) & 0xff) as u8,
        ((n >> 40) & 0xff) as u8,
        ((n >> 48) & 0xff) as u8,
        ((n >> 56) & 0xff) as u8,
    ];
    assert(result@ =~= spec_u64_le(n));
    result
}

/// The `u64` whose little-endian bytes are `data`.
pub fn u8_array_to_u64(data: &[u8; 8]) -> (result: u64)
    ensures
        result == spec_u64_from_le(data@),
{
    (data[0] as u64) | ((data[1] as u64) << 8) | ((data[2] as u64) << 16) | ((data[3] as u64)
        << 24) | ((data[4] as u64) << 32) | ((data[5] as u64) << 40) | ((data[6] as u64) << 48)
        | ((data[7] as u64) << 56)
}

/// The `u64` read little-endian from `data[position .. position + 8]`.
pub fn read_u64_le(data: &[u8], position: usize) -> (result: u64)
    requires
        position + 8 <= data@.len(),
    ensures
        result == spec_u64_from_le(data@.subrange(position as int, position + 8)),
{
    let a = [
        data[position],
        data[position + 1],
        data[position + 2],
        data[position + 3],
        data[position + 4],
        data[position + 5],
        data[position + 6],
        data[position + 7],
    ];
    u8_array_to_u64(&a)
}

/// The four little-endian bytes of `n`.
pub fn u32_to_u8_array(n: u32) -> (result: [u8; 4])
    ensures
        result@ == spec_u32_le(n),
{
    let result = [
        (n & 0xff) as u8,
        ((n >> 8) & 0xff) as u8,
        ((n >> 16) & 0xff) as u8,
        ((n >> 24) & 0xff) as u8,
    ];
    assert(result@ =~= spec_u32_le(n));
    result
}

/// The `u32` read little-endian from the first four bytes of `data`.
pub fn byte_slice_to_u32(data: &[u8]) -> (result: u32)
    requires
        data@.len() >= 4,
    ensures
        result == spec_u32_from_le(data@),
{
    (data[0] as u32) | ((data[1] as u32) << 8) | ((data[2] as u32) << 16) | ((data[3] as u32)
        << 24)
}

/// Whether bit `digit` (0 is the least significant) of `byte` is set.
pub open spec fn spec_get_bit_u8(byte: u8, digit: u8) -> bool {
    (byte >> digit) & 1 == 1
}

/// Whether bit `digit` of `byte` is set.
pub fn get_bit_u8(byte: u8, digit: u8) -> (result: bool)
    requires
        digit < 8,
    ensures
        result == spec_get_bit_u8(byte, digit),
{
    (byte >> digit) & 1 == 1
}

/// Sets bit `digit` of `byte` to `value`, leaving the other bits as they were.
pub fn set_bit_u8(byte: &mut u8, digit: u8, value: bool)
    requires
        digit < 8,
    ensures
        spec_get_bit_u8(*final(byte), digit) == value,
        forall|d: u8| d < 8 && d != digit ==> spec_get_bit_u8(*final(byte), d) == spec_get_bit_u8(*old(byte), d),
{
    let old_byte = *byte;
    if value {
        *byte = old_byte | (1u8 << digit);
    } else {
        *byte = old_byte & !(1u8 << digit);
    }
    let new_byte = *byte;
    assert(forall|d: u8| d < 8 && d != digit ==> ((new_byte >> d) & 1 == 1) == ((old_byte >> d) & 1 == 1)) by (bit_vector)
        requires
            digit < 8,
            value ==> new_byte == old_byte | (1u8 << digit),
            !value ==> new_byte == old_byte & !(1u8 << digit),
    ;
    assert(((new_byte >> digit) & 1 == 1) == value) by (bit_vector)
        requires
            digit < 8,
            value ==> new_byte == old_byte | (1u8 << digit),
            !value ==> new_byte == old_byte & !(1u8 << digit),
    ;
}

} // verus!
