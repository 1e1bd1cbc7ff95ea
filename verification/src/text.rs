//! Byte strings as text.
use crate::error::{ReadError, ReadErrorModel};
use vstd::prelude::*;
use vstd::slice::slice_to_vec;
use vstd::string::StringSliceAdditionalSpecFns;
use vstd::utf8::{decode_utf8, valid_utf8};

verus! {

/// Checks with `std::str::from_utf8` whether `bytes` are UTF-8, and hands them on as a string
/// slice where they are.
///
/// Nothing is proved of this function. Its contract claims what the documentation of
/// `std::str::from_utf8` says: it fails exactly where the bytes are not valid UTF-8, and the
/// string slice that it gives holds the very bytes that it was given.
#[verifier::external_body]
fn str_from_utf8<'a>(bytes: &'a [u8]) -> (text: Option<&'a str>)
    ensures
        text is Some <==> valid_utf8(bytes@),
        text matches Some(text) ==> text.spec_bytes() == bytes@,
{
    match std::str::from_utf8(bytes) {
        Ok(text) => Some(text),
        Err(_) => None,
    }
}

/// The text that `bytes` encode in UTF-8, or `InvalidUtf8` with the bytes where they encode
/// none.
pub fn utf8_text(bytes: &[u8]) -> (text: Result<String, ReadError>)
    ensures
        match text {
            Ok(text) => valid_utf8(bytes@) && text@ == decode_utf8(bytes@),
            Err(e) => !valid_utf8(bytes@) && e@ == ReadErrorModel::InvalidUtf8(bytes@),
        },
{
    match str_from_utf8(bytes) {
        Some(text) => {
            proof {
                vstd::utf8::encode_utf8_decode_utf8(text@);
            }
            Ok(text.to_owned())
        },
        None => Err(ReadError::InvalidUtf8(slice_to_vec(bytes))),
    }
}

} // verus!
