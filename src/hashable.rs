use vstd::prelude::*;

verus! {

/// The SHA-256 digest of `data`.
pub uninterp spec fn sha256_of(data: Seq<u8>) -> Seq<u8>;

/// Relies on `crypto_hash::digest` with `Algorithm::SHA256`: the digest depends on
/// the bytes alone, and a SHA-256 digest is 256 bits long.
#[verifier::external_body]
pub(crate) fn sha256(data: &Vec<u8>) -> (r: crate::Hash)
    ensures
        r@ == sha256_of(data@),
        r@.len() == 32,
{
    crypto_hash::digest(crypto_hash::Algorithm::SHA256, data)
}

/// A value with a canonical byte encoding, hashed with SHA-256.
pub trait Hashable {
    /// The canonical encoding.
    spec fn encoding(&self) -> Seq<u8>;

    fn bytes(&self) -> (r: Vec<u8>)
        ensures
            r@ == self.encoding(),
    ;

    fn hash(&self) -> (r: crate::Hash)
        ensures
            r@ == sha256_of(self.encoding()),
            r@.len() == 32,
    {
        let b = self.bytes();
        sha256(&b)
    }
}

} // verus!
