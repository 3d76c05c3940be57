//! SHA-1 digests and their hexadecimal form. The digest is computed by
//! `sha1_smol` and the digits are written by `hex`.

use vstd::prelude::*;

verus! {

/// The bytes of a SHA-1 digest.
pub const DIGEST_LENGTH: usize = 20;

/// The SHA-1 digest of `data`, as `sha1_smol` computes it.
pub uninterp spec fn sha1(data: Seq<u8>) -> Seq<u8>;

/// The sixteen digits, in order of their value.
pub open spec fn hex_digits() -> Seq<char> {
    "0123456789abcdef"@
}

/// The lower-case hexadecimal form of `data`: for each byte the digit of its
/// high half, then the digit of its low half.
pub open spec fn hex_lower(data: Seq<u8>) -> Seq<char> {
    Seq::new(
        2 * data.len(),
        |i: int|
            if i % 2 == 0 {
                hex_digits()[data[i / 2] as int / 16]
            } else {
                hex_digits()[data[i / 2] as int % 16]
            },
    )
}

/// Calls `sha1_smol::Sha1::from`, `digest` and `bytes` in turn. Claimed: the
/// 20 bytes are a function of the data alone, named [`sha1`].
#[verifier::external_body]
pub(crate) fn sha1_digest(data: &[u8]) -> (r: [u8; 20])
    ensures
        r@ == sha1(data@),
{
    sha1_smol::Sha1::from(data).digest().bytes()
}

/// Calls `hex::encode`. Claimed, as the crate documents it: the string holds
/// two lower-case hexadecimal digits for each byte, high half first.
#[verifier::external_body]
pub(crate) fn hex_encode(data: &[u8]) -> (r: String)
    ensures
        r@ == hex_lower(data@),
{
    hex::encode(data)
}

} // verus!
