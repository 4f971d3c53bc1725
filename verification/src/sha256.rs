//! The incremental SHA-256 hasher, as far as this crate relies on it.
//!
//! The compression function is not modelled. The hasher is described by the
//! bytes it has been fed, and the digest by a name for the SHA-256 function.
use sha2::Digest;
use vstd::prelude::*;

verus! {

/// Most bytes a message may have for SHA-256 to be defined on it: its length
/// in bits has to fit in 64 bits.
pub const MAX_MESSAGE_BYTES: u64 = 0x1fff_ffff_ffff_ffff;

/// The SHA-256 digest of `message` as FIPS 180-4 defines it.
pub uninterp spec fn sha256(message: Seq<u8>) -> Seq<u8>;

/// Everything fed to `hasher` since it was made, in order.
pub uninterp spec fn absorbed(hasher: Sha256Hasher) -> Seq<u8>;

/// An `sha2::Sha256` in progress.
///
/// Its type is an alias over generic wrappers bounded by traits of the
/// `digest` and `typenum` crates, which cannot be declared to the verifier,
/// so the value is held opaquely here and known only through [`absorbed`].
#[verifier::external_body]
pub struct Sha256Hasher {
    inner: sha2::Sha256,
}

impl Sha256Hasher {
    /// `sha2::Sha256::new`: a hasher that has been fed nothing yet.
    #[verifier::external_body]
    pub(crate) fn new() -> (hasher: Self)
        ensures
            absorbed(hasher) == Seq::<u8>::empty(),
    {
        Sha256Hasher { inner: sha2::Sha256::new() }
    }

    /// `sha2::Sha256::update`: feeds `data` after what was fed before. The
    /// hasher buffers bytes into blocks in the order they arrive, so only
    /// their concatenation matters, not how it was cut into calls.
    #[verifier::external_body]
    pub(crate) fn update(&mut self, data: &[u8])
        ensures
            absorbed(*final(self)) == absorbed(*old(self)) + data@,
    {
        self.inner.update(data);
    }

    /// `sha2::Sha256::finalize`: the SHA-256 digest of everything fed. The
    /// crate computes the message's bit length in 64 bits, so the claim is
    /// made only below that limit.
    #[verifier::external_body]
    pub(crate) fn finalize(self) -> (digest: [u8; 32])
        requires
            absorbed(self).len() <= MAX_MESSAGE_BYTES,
        ensures
            digest@ == sha256(absorbed(self)),
    {
        self.inner.finalize().into()
    }
}

} // verus!
