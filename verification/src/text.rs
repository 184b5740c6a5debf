//! Text held as UTF-8 bytes.

use vstd::prelude::*;
use vstd::utf8::{decode_utf8, valid_utf8};

verus! {

/// The message of the error with which `core::str::from_utf8` refuses bytes
/// that are not UTF-8. It says where the bytes stop being UTF-8, in words
/// that std chooses.
pub uninterp spec fn utf8_error_text(bytes: Seq<u8>) -> Seq<char>;

/// `core::str::from_utf8` of std, its error turned into the error's message.
/// Bytes that are UTF-8 are handed back as the text they encode; for any
/// others the error's message comes back.
#[verifier::external_body]
pub(crate) fn text_of_utf8<'a>(bytes: &'a [u8]) -> (r: Result<&'a str, String>)
    ensures
        match r {
            Ok(text) => valid_utf8(bytes@) && text@ == decode_utf8(bytes@),
            Err(message) => !valid_utf8(bytes@) && message@ == utf8_error_text(bytes@),
        },
{
    match core::str::from_utf8(bytes) {
        Ok(text) => Ok(text),
        Err(error) => Err(error.to_string()),
    }
}

/// Whether two byte slices hold the same bytes.
pub fn same_bytes(left: &[u8], right: &[u8]) -> (same: bool)
    ensures
        same == (left@ == right@),
{
    if left.len() != right.len() {
        return false;
    }
    let mut at: usize = 0;
    while at < left.len()
        invariant
            left.len() == right.len(),
            at <= left.len(),
            left@.subrange(0, at as int) == right@.subrange(0, at as int),
        decreases left.len() - at,
    {
        if left[at] != right[at] {
            return false;
        }
        proof {
            assert(left@.subrange(0, at + 1) =~= left@.subrange(0, at as int).push(left@[at as int]));
            assert(right@.subrange(0, at + 1) =~= right@.subrange(0, at as int).push(
                right@[at as int],
            ));
        }
        at += 1;
    }
    proof {
        assert(left@ =~= left@.subrange(0, at as int));
        assert(right@ =~= right@.subrange(0, at as int));
    }
    true
}

/// Whether two texts are the same, character for character.
pub fn same_text(left: &str, right: &str) -> (same: bool)
    ensures
        same == (left@ == right@),
{
    proof {
        vstd::utf8::encode_utf8_decode_utf8(left@);
        vstd::utf8::encode_utf8_decode_utf8(right@);
    }
    same_bytes(left.as_bytes(), right.as_bytes())
}

} // verus!
