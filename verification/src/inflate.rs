//! Inflating the deflated payload of an array.
use std::io::Read;
use vstd::prelude::*;

verus! {

/// The bytes that a zlib decoder gives for the compressed stream `input` before it stops, cut
/// off after `limit` bytes. The decoder stops at the end of the stream, or where the
/// stream breaks off or is corrupt.
pub uninterp spec fn zlib_inflated(input: Seq<u8>, limit: u64) -> Seq<u8>;

/// Inflates `input` with `flate2::read::ZlibDecoder`, read to its end through
/// `std::io::Read::take(limit)` and `read_to_end`.
///
/// Nothing is proved of this function. Its contract claims that what comes out depends on
/// `input` and `limit` alone. An error of the decoder ends the reading and is not reported:
/// the bytes read before it are the result.
#[verifier::external_body]
pub(crate) fn zlib_inflate(input: &[u8], limit: u64) -> (output: Vec<u8>)
    ensures
        output@ == zlib_inflated(input@, limit),
{
    let mut output = Vec::new();
    let _ = flate2::read::ZlibDecoder::new(input).take(limit).read_to_end(&mut output);
    output
}

} // verus!
