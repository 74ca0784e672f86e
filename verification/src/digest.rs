//! SHA-1 digests and hexadecimal text, both computed by outside crates.

use vstd::prelude::*;
use sha1::{Digest, Sha1};

verus! {

/// The SHA-1 digest of `data`. The library computes no digest itself: this
/// names what crate `sha1` returns, which depends on the bytes alone.
pub uninterp spec fn sha1_digest(data: Seq<u8>) -> Seq<u8>;

/// The lowercase hexadecimal digit of a number below 16.
pub open spec fn hex_digit(nibble: int) -> char {
    if nibble < 10 {
        ((0x30 + nibble) as u8) as char
    } else {
        ((0x57 + nibble) as u8) as char
    }
}

/// Each byte of `data` as two lowercase hexadecimal digits, the high half
/// first.
pub open spec fn hex_lower(data: Seq<u8>) -> Seq<char> {
    Seq::new(
        2 * data.len(),
        |i: int|
            if i % 2 == 0 {
                hex_digit(data[i / 2] as int / 16)
            } else {
                hex_digit(data[i / 2] as int % 16)
            },
    )
}

/// Calls `Digest::digest` of crate `sha1` for `Sha1`, which hashes the whole
/// of `data` in one go. Trusted: that the twenty bytes returned are a
/// function of the bytes of `data` and of nothing else.
#[verifier::external_body]
pub(crate) fn sha1(data: &[u8]) -> (digest: [u8; 20])
    ensures
        digest@ == sha1_digest(data@),
{
    Sha1::digest(data).into()
}

/// Calls `hex::encode`. Trusted: that it writes each byte as two digits out
/// of `0123456789abcdef`, the high half first, and nothing else.
#[verifier::external_body]
pub(crate) fn hex_encode(data: &[u8]) -> (text: String)
    ensures
        text@ == hex_lower(data@),
{
    hex::encode(data)
}

} // verus!
