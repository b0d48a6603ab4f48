//! Decimal numerals of unsigned integers: an optional `+`, then one or more ASCII digits, the
//! value not above the integer type's largest value (as std's `from_str` for unsigned types).

use vstd::prelude::*;

verus! {

pub open spec fn is_digit(c: char) -> bool {
    '0' <= c && c <= '9'
}

pub open spec fn digit_value(c: char) -> nat {
    (c as nat - '0' as nat) as nat
}

pub open spec fn all_digits(s: Seq<char>) -> bool {
    forall|i: int| 0 <= i < s.len() ==> is_digit(#[trigger] s[i])
}

/// The value of a string of digits, most significant first.
pub open spec fn digits_value(s: Seq<char>) -> nat
    decreases s.len(),
{
    if s.len() == 0 {
        0
    } else {
        digits_value(s.drop_last()) * 10 + digit_value(s.last())
    }
}

/// The digits of a numeral: the numeral without a leading `+`.
pub open spec fn numeral_digits(s: Seq<char>) -> Seq<char> {
    if s.len() > 0 && s[0] == '+' {
        s.drop_first()
    } else {
        s
    }
}

/// The value of the numeral `s`, where it is one and its value is at most `max`.
pub open spec fn spec_parse_unsigned(s: Seq<char>, max: nat) -> Option<nat> {
    let d = numeral_digits(s);
    if d.len() == 0 || !all_digits(d) || digits_value(d) > max {
        None
    } else {
        Some(digits_value(d))
    }
}

/// A prefix of a string of digits is worth no more than the whole.
pub proof fn lemma_digits_value_prefix(s: Seq<char>, k: int)
    requires
        0 <= k <= s.len(),
    ensures
        digits_value(s.take(k)) <= digits_value(s),
    decreases s.len(),
{
    if k < s.len() {
        lemma_digits_value_prefix(s.drop_last(), k);
        assert(s.drop_last().take(k) =~= s.take(k));
    } else {
        assert(s.take(k) =~= s);
    }
}

/// Parses the numeral `s` as an unsigned integer no larger than `max`.
pub fn parse_unsigned(s: &[char], max: u64) -> (result: Option<u64>)
    ensures
        match result {
            Some(v) => spec_parse_unsigned(s@, max as nat) == Some(v as nat),
            None => spec_parse_unsigned(s@, max as nat) is None,
        },
{
    let start: usize = if s.len() > 0 && s[0] == '+' { 1 } else { 0 };
    let ghost d = numeral_digits(s@);
    assert(d =~= s@.subrange(start as int, s@.len() as int));
    if start >= s.len() {
        return None;
    }
    let mut acc: u64 = 0;
    let mut i: usize = start;
    while i < s.len()
        invariant
            start <= i <= s@.len(),
            d == s@.subrange(start as int, s@.len() as int),
            d == numeral_digits(s@),
            d.len() > 0,
            all_digits(d.take(i - start)),
            acc as nat == digits_value(d.take(i - start)),
            acc <= max,
        decreases s@.len() - i,
    {
        let c = s[i];
        if !('0' <= c && c <= '9') {
            assert(d[i - start] == c);
            assert(!is_digit(d[i - start]));
            return None;
        }
        let dv = (c as u32 - '0' as u32) as u64;
        let next: u128 = acc as u128 * 10 + dv as u128;
        assert(d.take(i - start + 1).drop_last() =~= d.take(i - start));
        assert(d.take(i - start + 1).last() == c);
        assert(digit_value(c) == dv);
        assert(digits_value(d.take(i - start + 1)) == next);
        if next > max as u128 {
            proof {
                if all_digits(d) {
                    lemma_digits_value_prefix(d, i - start + 1);
                }
            }
            return None;
        }
        acc = next as u64;
        i = i + 1;
        assert(all_digits(d.take(i - start))) by {
            assert forall|j: int| 0 <= j < i - start implies is_digit(#[trigger] d.take(i - start)[j]) by {
                if j < i - start - 1 {
                    assert(d.take(i - start)[j] == d.take(i - start - 1)[j]);
                }
            }
        }
    }
    assert(d.take(i - start) =~= d);
    Some(acc)
}

/// Parses the numeral `s` as a `u8`.
pub fn parse_u8(s: &str) -> (result: Option<u8>)
    ensures
        match result {
            Some(v) => spec_parse_unsigned(s@, 255) == Some(v as nat),
            None => spec_parse_unsigned(s@, 255) is None,
        },
{
    let chars = crate::utils::text::str_chars(s);
    match parse_unsigned(chars.as_slice(), 255) {
        Some(v) => Some(v as u8),
        None => None,
    }
}

/// Parses the numeral `s` as a `u16`.
pub fn parse_u16(s: &str) -> (result: Option<u16>)
    ensures
        match result {
            Some(v) => spec_parse_unsigned(s@, 0xffff) == Some(v as nat),
            None => spec_parse_unsigned(s@, 0xffff) is None,
        },
{
    let chars = crate::utils::text::str_chars(s);
    match parse_unsigned(chars.as_slice(), 0xffff) {
        Some(v) => Some(v as u16),
        None => None,
    }
}

/// Parses the numeral `s` as a `u64`.
pub fn parse_u64(s: &str) -> (result: Option<u64>)
    ensures
        match result {
            Some(v) => spec_parse_unsigned(s@, u64::MAX as nat) == Some(v as nat),
            None => spec_parse_unsigned(s@, u64::MAX as nat) is None,
        },
{
    let chars = crate::utils::text::str_chars(s);
    parse_unsigned(chars.as_slice(), u64::MAX)
}

} // verus!
