//! The content fingerprint of a file: the SHA-256 digest of its bytes, in
//! lowercase hexadecimal.
//!
//! A file is hashed as it is read, one chunk after the other. How the bytes
//! are cut into chunks does not show in the fingerprint.

use crate::hex::{encode_hex, hex_lower};
use sha2::{Digest, Sha256};
use vstd::prelude::*;

verus! {

/// A SHA-256 computation in progress. It stands for the bytes fed to it so
/// far.
#[verifier::external_body]
pub struct ContentHasher {
    state: Sha256,
}

/// The SHA-256 digest of a byte sequence.
pub uninterp spec fn sha256(data: Seq<u8>) -> Seq<u8>;

/// The bytes that a hasher was fed, in the order in which they came.
pub uninterp spec fn absorbed(hasher: ContentHasher) -> Seq<u8>;

impl View for ContentHasher {
    type V = Seq<u8>;

    open spec fn view(&self) -> Seq<u8> {
        absorbed(*self)
    }
}

/// The fingerprint of some content: it depends on the bytes and on nothing
/// else.
pub open spec fn content_hash(data: Seq<u8>) -> Seq<char> {
    hex_lower(sha256(data))
}

/// `Sha256::new`: a hasher that was fed nothing yet.
#[verifier::external_body]
fn sha256_start() -> (hasher: ContentHasher)
    ensures
        absorbed(hasher) == Seq::<u8>::empty(),
{
    ContentHasher { state: Sha256::new() }
}

/// `Digest::update` of `Sha256`: the hasher is fed the bytes of `chunk`
/// after those it already has.
#[verifier::external_body]
fn sha256_update(hasher: &mut ContentHasher, chunk: &[u8])
    ensures
        absorbed(*final(hasher)) == absorbed(*old(hasher)) + chunk@,
{
    hasher.state.update(chunk);
}

/// `Digest::finalize` of `Sha256`: the 32 bytes of the SHA-256 digest of all
/// that the hasher was fed.
#[verifier::external_body]
fn sha256_finish(hasher: ContentHasher) -> (out: Vec<u8>)
    ensures
        out@ == sha256(absorbed(hasher)),
        out@.len() == 32,
{
    hasher.state.finalize().to_vec()
}

impl ContentHasher {
    /// A hasher that was fed nothing yet.
    pub fn new() -> (hasher: ContentHasher)
        ensures
            hasher@ == Seq::<u8>::empty(),
    {
        sha256_start()
    }

    /// Feeds the next chunk of the content.
    pub fn update(&mut self, chunk: &[u8])
        ensures
            final(self)@ == old(self)@ + chunk@,
    {
        sha256_update(self, chunk);
    }

    /// The fingerprint of all that was fed: 64 lowercase hexadecimal digits.
    pub fn finish(self) -> (out: String)
        ensures
            out@ == content_hash(self@),
            out@.len() == 64,
    {
        let digest = sha256_finish(self);
        encode_hex(digest.as_slice())
    }
}

/// The fingerprint of `data`: 64 lowercase hexadecimal digits.
pub fn hash_content(data: &[u8]) -> (out: String)
    ensures
        out@ == content_hash(data@),
        out@.len() == 64,
{
    let mut hasher = ContentHasher::new();
    hasher.update(data);
    assert(hasher@ =~= data@);
    hasher.finish()
}

/// Equal contents have equal fingerprints, wherever they were read from.
pub proof fn lemma_same_content_same_hash(a: Seq<u8>, b: Seq<u8>)
    requires
        a =~= b,
    ensures
        content_hash(a) == content_hash(b),
{
}

} // verus!
