//! SHA-256, as the engine uses it: over a file piece by piece, and over a
//! public key.

use sha2::Digest;
use vstd::prelude::*;

use crate::protocol::{hex, hex_text};

verus! {

/// The SHA-256 digest of `data`, as `sha2::Sha256` computes it.
pub uninterp spec fn sha256(data: Seq<u8>) -> Seq<u8>;

/// The bytes that a hasher has taken in since it was made.
pub uninterp spec fn absorbed(h: Hasher) -> Seq<u8>;

/// A `sha2::Sha256` at work.
#[verifier::external_body]
pub struct Hasher {
    inner: sha2::Sha256,
}

/// `Sha256::new`: nothing has been taken in.
#[verifier::external_body]
fn sha_new() -> (r: Hasher)
    ensures
        absorbed(r) == Seq::<u8>::empty(),
{
    Hasher { inner: sha2::Sha256::new() }
}

/// `Digest::update`: takes in `data`, behind what was taken in before.
#[verifier::external_body]
fn sha_update(h: &mut Hasher, data: &[u8])
    ensures
        absorbed(*final(h)) == absorbed(*old(h)) + data@,
{
    h.inner.update(data);
}

/// `Digest::finalize`: the digest of everything that was taken in, which is 32
/// bytes long.
#[verifier::external_body]
fn sha_finalize(h: Hasher) -> (r: Vec<u8>)
    ensures
        r@ == sha256(absorbed(h)),
        r@.len() == 32,
{
    h.inner.finalize().to_vec()
}

/// Takes in a file piece by piece and says what its digest is.
pub struct FileHasher {
    inner: Hasher,
}

impl View for FileHasher {
    type V = Seq<u8>;

    /// The bytes that were taken in.
    closed spec fn view(&self) -> Seq<u8> {
        absorbed(self.inner)
    }
}

impl FileHasher {
    pub fn new() -> (r: Self)
        ensures
            r@ == Seq::<u8>::empty(),
    {
        FileHasher { inner: sha_new() }
    }

    /// Take in one more piece.
    pub fn update(&mut self, data: &[u8])
        ensures
            final(self)@ == old(self)@ + data@,
    {
        sha_update(&mut self.inner, data);
    }

    /// The digest of everything that was taken in, in hexadecimal.
    pub fn finish(self) -> (r: String)
        ensures
            r@ == hex_text(sha256(self@)),
    {
        hex(&sha_finalize(self.inner))
    }
}

/// The digest of `data`.
pub fn digest(data: &[u8]) -> (r: Vec<u8>)
    ensures
        r@ == sha256(data@),
        r@.len() == 32,
{
    let mut h = sha_new();
    sha_update(&mut h, data);
    assert(absorbed(h) =~= data@);
    sha_finalize(h)
}

} // verus!
