//! Hashing a local base image's content as it is read, chunk by chunk: the SHA-256 of every byte
//! fed, and how many bytes that was.
use vstd::prelude::*;
use sha2::{Digest, Sha256};
use crate::fingerprint::sha256_of;
use crate::ports::ResolvedBase;

verus! {

/// A `sha2::Sha256` hasher. Verus refuses the declaration of `sha2::Sha256` itself (its type
/// parameters carry bounds on outside traits), so the hasher is held here, opaque, and described
/// by `fed_bytes`.
#[verifier::external_body]
pub struct Sha256State {
    inner: Sha256,
}

/// The bytes a `sha2::Sha256` hasher has been fed, in order.
pub uninterp spec fn fed_bytes(h: Sha256State) -> Seq<u8>;

/// `sha2::Sha256::new`: a hasher fed nothing yet.
#[verifier::external_body]
fn sha256_new() -> (h: Sha256State)
    ensures
        fed_bytes(h) == Seq::<u8>::empty(),
{
    Sha256State { inner: Sha256::new() }
}

/// `sha2::Sha256::update`: the hasher has also been fed `chunk`.
#[verifier::external_body]
fn sha256_update(h: &mut Sha256State, chunk: &[u8])
    ensures
        fed_bytes(*final(h)) == fed_bytes(*old(h)) + chunk@,
{
    h.inner.update(chunk);
}

/// `sha2::Sha256::finalize`: the SHA-256 of every byte fed.
#[verifier::external_body]
fn sha256_finish(h: Sha256State) -> (out: [u8; 32])
    ensures
        out@ == sha256_of(fed_bytes(h)),
{
    h.inner.finalize().into()
}

/// A running content hash with the count of bytes fed.
pub struct ContentHasher {
    inner: Sha256State,
    size: u64,
}

impl ContentHasher {
    /// The bytes fed so far.
    pub closed spec fn fed(&self) -> Seq<u8> {
        fed_bytes(self.inner)
    }

    /// The count kept equals the bytes fed.
    pub closed spec fn wf(&self) -> bool {
        self.size as int == fed_bytes(self.inner).len()
    }

    /// A hasher fed nothing.
    pub fn new() -> (r: Self)
        ensures
            r.wf(),
            r.fed() == Seq::<u8>::empty(),
    {
        ContentHasher { inner: sha256_new(), size: 0 }
    }

    /// Whether `n` more bytes can be counted.
    pub fn has_room(&self, n: usize) -> (r: bool)
        requires
            self.wf(),
        ensures
            r == (self.fed().len() + n <= u64::MAX),
    {
        n as u64 <= u64::MAX - self.size && (n as u128) <= (u64::MAX as u128)
    }

    /// Feeds the next chunk read.
    pub fn feed(&mut self, chunk: &[u8])
        requires
            old(self).wf(),
            old(self).fed().len() + chunk@.len() <= u64::MAX,
        ensures
            final(self).wf(),
            final(self).fed() == old(self).fed() + chunk@,
    {
        sha256_update(&mut self.inner, chunk);
        self.size = self.size + chunk.len() as u64;
    }

    /// The local base these bytes make: their SHA-256 and their count.
    pub fn finish(self) -> (r: ResolvedBase)
        requires
            self.wf(),
        ensures
            r matches ResolvedBase::LocalFile { sha256, size } && sha256@ == sha256_of(self.fed())
                && size as int == self.fed().len(),
    {
        let size = self.size;
        let sha256 = sha256_finish(self.inner);
        ResolvedBase::LocalFile { sha256, size }
    }
}

} // verus!
