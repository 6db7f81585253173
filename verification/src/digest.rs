//! BLAKE3 digests rendered in lowercase hexadecimal.

use crate::text::hex_digit;
use vstd::prelude::*;

verus! {

/// The 32-byte BLAKE3 digest of `data`, as `blake3::hash` computes it.
pub uninterp spec fn blake3_digest(data: Seq<u8>) -> Seq<u8>;

/// `bytes` in lowercase hexadecimal, two digits per byte, high nibble first.
pub open spec fn hex_lower(bytes: Seq<u8>) -> Seq<char>
    decreases bytes.len(),
{
    if bytes.len() == 0 {
        Seq::empty()
    } else {
        seq![hex_digit((bytes[0] / 16) as nat), hex_digit((bytes[0] % 16) as nat)] + hex_lower(
            bytes.drop_first(),
        )
    }
}

/// The lowercase hexadecimal BLAKE3 digest of `data`.
pub open spec fn blake3_hex_spec(data: Seq<u8>) -> Seq<char> {
    hex_lower(blake3_digest(data))
}

/// Calls `blake3::hash` and renders the digest with `Hash::to_hex`: the
/// digest is named by `blake3_digest`, the rendering is two lowercase digits
/// per byte, 64 characters in all.
#[verifier::external_body]
pub fn blake3_hex(data: &[u8]) -> (h: String)
    ensures
        h@ == hex_lower(blake3_digest(data@)),
        h@.len() == 64,
{
    blake3::hash(data).to_hex().to_string()
}

/// Calls `blake3::hash` and copies out `Hash::as_bytes`: the digest named by
/// `blake3_digest`, 32 bytes.
#[verifier::external_body]
pub fn blake3_bytes(data: &[u8]) -> (d: Vec<u8>)
    ensures
        d@ == blake3_digest(data@),
        d@.len() == 32,
{
    blake3::hash(data).as_bytes().to_vec()
}

} // verus!
