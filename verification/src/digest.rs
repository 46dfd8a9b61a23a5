//! The one cryptographic dependency: SHA-1, named as a function of the
//! input bytes and computed by the `sha1` crate.

use vstd::prelude::*;
use sha1::Digest;

verus! {

/// The 20-byte SHA-1 digest of a byte string. The digest is a function
/// of the bytes alone; what it is on given bytes only the hash
/// computation says.
pub uninterp spec fn sha1_of(b: Seq<u8>) -> Seq<u8>;

/// Relies on sha1::Sha1 through digest::Digest::digest: the SHA-1
/// digest of the input, 20 bytes, a function of the input alone.
#[verifier::external_body]
pub(crate) fn sha1_digest(bytes: &Vec<u8>) -> (r: Vec<u8>)
    ensures
        r@ == sha1_of(bytes@),
        r@.len() == 20,
{
    sha1::Sha1::digest(bytes.as_slice()).to_vec()
}

/// Law: a digest is stable: equal byte strings always give the same
/// digest, so repeated computation over the same record cannot differ.
pub proof fn lemma_digest_deterministic(a: Seq<u8>, b: Seq<u8>)
    requires
        a == b,
    ensures
        sha1_of(a) == sha1_of(b),
{
}

} // verus!
