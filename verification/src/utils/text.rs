//! Conversions between bytes and text, through std.

use vstd::prelude::*;
use vstd::utf8::{decode_utf8, valid_utf8};

verus! {

/// Calls `String::from_utf8`: the bytes as text when they are valid UTF-8, and nothing
/// otherwise (std documents exactly this).
#[verifier::external_body]
pub fn string_from_utf8(bytes: Vec<u8>) -> (result: Option<String>)
    ensures
        result is Some <==> valid_utf8(bytes@),
        result matches Some(s) ==> s@ == decode_utf8(bytes@),
{
    String::from_utf8(bytes).ok()
}

/// The text that `String::from_utf8_lossy` gives for `bytes`.
pub uninterp spec fn utf8_lossy(bytes: Seq<u8>) -> Seq<char>;

/// The text that lenient decoding gives: the decoded text for valid UTF-8, what
/// `String::from_utf8_lossy` gives otherwise.
pub open spec fn spec_lenient_text(bytes: Seq<u8>) -> Seq<char> {
    if valid_utf8(bytes) {
        decode_utf8(bytes)
    } else {
        utf8_lossy(bytes)
    }
}

/// Calls `String::from_utf8_lossy`: the text it gives depends on the bytes alone, and on valid
/// UTF-8 it is the decoded text. What it gives for invalid input (invalid sequences become
/// U+FFFD) is left unstated here.
#[verifier::external_body]
pub fn string_from_utf8_lossy(bytes: &[u8]) -> (result: String)
    ensures
        result@ == utf8_lossy(bytes@),
        valid_utf8(bytes@) ==> result@ == decode_utf8(bytes@),
{
    String::from_utf8_lossy(bytes).to_string()
}

/// The characters of `s`, in order.
pub fn str_chars(s: &str) -> (result: Vec<char>)
    ensures
        result@ == s@,
{
    broadcast use vstd::string::group_string_axioms;

    let mut result: Vec<char> = Vec::new();
    for c in iter: s.chars()
        invariant
            result@ == iter.seq().take(iter.index() as int),
            iter.seq() == s@,
    {
        result.push(c);
        assert(result@ =~= iter.seq().take(iter.index() + 1));
    }
    assert(result@ =~= s@);
    result
}

/// Calls `String::from_iter` on the characters: the text made of them, in order (std documents
/// that collecting characters concatenates them).
#[verifier::external_body]
pub fn string_from_chars(chars: &[char]) -> (result: String)
    ensures
        result@ == chars@,
{
    String::from_iter(chars.iter())
}

} // verus!
