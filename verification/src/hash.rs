use vstd::prelude::*;

use sha2::Digest;

verus! {

/// The SHA-256 digest of a byte string. The digest is a pure function of the
/// bytes alone; nothing more is assumed of it here.
pub uninterp spec fn sha256_of(input: Seq<u8>) -> Seq<u8>;

/// Relies on sha2::Sha256 through sha2::Digest::digest: the SHA-256 digest of
/// the input bytes, a pure function of the input, always 32 bytes long.
#[verifier::external_body]
pub fn sha256(input: &Vec<u8>) -> (r: Vec<u8>)
    ensures
        r@ == sha256_of(input@),
        r@.len() == 32,
{
    sha2::Sha256::digest(input.as_slice()).to_vec()
}

} // verus!
