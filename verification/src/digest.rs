//! SHA-256 through the `sha2` crate, and its lowercase hex rendering.

use sha2::Digest;
use vstd::prelude::*;

verus! {

/// A running SHA-256 computation of the `sha2` crate.
#[verifier::external_body]
pub struct Sha256Hasher {
    inner: sha2::Sha256,
}

/// The bytes fed to a running SHA-256 computation so far.
pub uninterp spec fn sha256_input(h: Sha256Hasher) -> Seq<u8>;

/// The SHA-256 digest of a byte sequence.
pub uninterp spec fn sha256(data: Seq<u8>) -> Seq<u8>;

/// Starts a SHA-256 computation (`sha2::Sha256::new`): nothing has been fed yet.
#[verifier::external_body]
pub(crate) fn sha256_new() -> (h: Sha256Hasher)
    ensures
        sha256_input(h) == Seq::<u8>::empty(),
{
    Sha256Hasher { inner: sha2::Sha256::new() }
}

/// Feeds bytes to a SHA-256 computation (`Digest::update`): they are appended to
/// what was fed before.
#[verifier::external_body]
pub(crate) fn sha256_update(h: &mut Sha256Hasher, data: &[u8])
    ensures
        sha256_input(*final(h)) == sha256_input(*old(h)) + data@,
{
    h.inner.update(data);
}

/// Ends a SHA-256 computation (`Digest::finalize`): the 32-byte digest of all that
/// was fed.
#[verifier::external_body]
pub(crate) fn sha256_finalize(h: Sha256Hasher) -> (d: Vec<u8>)
    ensures
        d@ == sha256(sha256_input(h)),
        d@.len() == 32,
{
    h.inner.finalize().to_vec()
}

} // verus!
