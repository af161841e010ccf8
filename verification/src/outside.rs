//! The calls this library makes into code it does not verify: the xxHash3
//! implementation of the `xxhash-rust` crate and std's UTF-8 validation.

use vstd::prelude::*;
use vstd::utf8::{decode_utf8, valid_utf8};

verus! {

/// The 64-bit XXH3 hash (seed 0, default secret) of a byte sequence. The
/// algorithm is specified by the xxHash project; it is named here rather than
/// restated.
pub uninterp spec fn xxh3_64_hash(bytes: Seq<u8>) -> u64;

/// Calls `xxhash_rust::xxh3::xxh3_64`, the one-shot XXH3-64 of its input with
/// the default seed and secret. Claimed: the result is a function of the input
/// bytes alone. Nothing else about the hash is stated.
#[verifier::external_body]
pub(crate) fn xxh3_64(bytes: &[u8]) -> (hash: u64)
    ensures
        hash == xxh3_64_hash(bytes@),
{
    xxhash_rust::xxh3::xxh3_64(bytes)
}

/// Calls `std::str::from_utf8`. Claimed, as std documents it: the bytes are
/// accepted exactly when they are valid UTF-8, and the string returned holds the
/// characters they encode.
#[verifier::external_body]
pub(crate) fn utf8_str(bytes: &[u8]) -> (text: Option<&str>)
    ensures
        text is Some <==> valid_utf8(bytes@),
        text matches Some(t) ==> t@ == decode_utf8(bytes@),
{
    std::str::from_utf8(bytes).ok()
}

} // verus!
