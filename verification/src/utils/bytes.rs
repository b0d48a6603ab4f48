use vstd::prelude::*;

verus! {

/// Appends every byte of `data` to the end of `buffer`.
pub fn append_bytes(buffer: &mut Vec<u8>, data: &[u8])
    ensures
        final(buffer)@ == old(buffer)@ + data@,
{
    let ghost start = buffer@;
    let mut i: usize = 0;
    while i < data.len()
        invariant
            i <= data@.len(),
            buffer@ == start + data@.subrange(0, i as int),
        decreases data@.len() - i,
    {
        buffer.push(data[i]);
        i = i + 1;
        assert(buffer@ =~= start + data@.subrange(0, i as int));
    }
    assert(data@.subrange(0, data@.len() as int) =~= data@);
}

/// Copies `data` into a fresh vector.
pub fn bytes_to_vec(data: &[u8]) -> (result: Vec<u8>)
    ensures
        result@ == data@,
{
    let mut result: Vec<u8> = Vec::new();
    append_bytes(&mut result, data);
    assert(result@ =~= data@);
    result
}

/// The bytes of `data` from `start` (inclusive) to `end` (exclusive).
pub fn sub_bytes(data: &[u8], start: usize, end: usize) -> (result: &[u8])
    requires
        start <= end <= data@.len(),
    ensures
        result@ == data@.subrange(start as int, end as int),
{
    vstd::slice::slice_subrange(data, start, end)
}

/// The bytes of `data` from `start` to the end.
pub fn tail_bytes(data: &[u8], start: usize) -> (result: &[u8])
    requires
        start <= data@.len(),
    ensures
        result@ == data@.subrange(start as int, data@.len() as int),
{
    vstd::slice::slice_subrange(data, start, data.len())
}

} // verus!

verus! {

/// Whether the two byte strings are the same.
pub fn bytes_eq(a: &[u8], b: &[u8]) -> (result: bool)
    ensures
        result == (a@ == b@),
{
    if a.len() != b.len() {
        return false;
    }
    let mut i: usize = 0;
    while i < a.len()
        invariant
            a@.len() == b@.len(),
            i <= a@.len(),
            forall|j: int| 0 <= j < i ==> a@[j] == b@[j],
        decreases a@.len() - i,
    {
        if a[i] != b[i] {
            return false;
        }
        i = i + 1;
    }
    assert(a@ =~= b@);
    true
}

} // verus!
