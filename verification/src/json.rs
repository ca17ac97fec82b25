//! Reading the answer of another account.

use vstd::prelude::*;

verus! {

/// The bytes that JSON passes over between values: space, line feed, tab
/// and carriage return.
pub open spec fn is_json_space(b: u8) -> bool {
    b == 0x20 || b == 0x0a || b == 0x09 || b == 0x0d
}

/// Every byte of `s` is passed over.
pub open spec fn all_spaces(s: Seq<u8>) -> bool {
    forall|i: int| 0 <= i < s.len() ==> is_json_space(#[trigger] s[i])
}

/// `bytes` hold `word` once, and beside it only bytes that are passed over.
pub open spec fn reads_as(bytes: Seq<u8>, word: Seq<u8>) -> bool {
    exists|i: int|
        0 <= i && i + word.len() <= bytes.len() && all_spaces(#[trigger] bytes.take(i))
            && bytes.subrange(i, i + word.len()) == word && all_spaces(
            bytes.skip(i + word.len()),
        )
}

/// The bytes of `true`.
pub open spec fn word_true() -> Seq<u8> {
    seq![0x74u8, 0x72u8, 0x75u8, 0x65u8]
}

/// The bytes of `false`.
pub open spec fn word_false() -> Seq<u8> {
    seq![0x66u8, 0x61u8, 0x6cu8, 0x73u8, 0x65u8]
}

/// The truth value that `bytes` hold as JSON, if they hold one and nothing
/// else.
pub open spec fn json_bool(bytes: Seq<u8>) -> Option<bool> {
    if reads_as(bytes, word_true()) {
        Some(true)
    } else if reads_as(bytes, word_false()) {
        Some(false)
    } else {
        None
    }
}

/// `serde_json::from_slice` at the type `bool`, its error dropped. The
/// parser passes over spaces, line feeds, tabs and carriage returns, reads
/// the word `true` or `false`, passes over the same four bytes again and
/// fails on anything else, so it gives a truth value exactly on the inputs
/// on which `json_bool` does, and the same one.
#[verifier::external_body]
pub(crate) fn decode_bool(bytes: &Vec<u8>) -> (r: Option<bool>)
    ensures
        r == json_bool(bytes@),
{
    serde_json::from_slice::<bool>(bytes.as_slice()).ok()
}

} // verus!
