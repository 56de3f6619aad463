//! SHA-256 digests of byte strings and of incrementally fed transcripts.

use vstd::prelude::*;

verus! {

/// SHA-256 counts the bits of its message in 64 bits, so a message is shorter than this.
pub const MESSAGE_LIMIT: u64 = 0x2000_0000_0000_0000;

#[verifier::external_type_specification]
#[verifier::external_body]
pub struct ExSha256(sha2::Sha256);

/// The bytes that a hasher has been fed so far.
pub uninterp spec fn fed_bytes(hasher: sha2::Sha256) -> Seq<u8>;

/// The SHA-256 digest of a message, as `sha2::Sha256` computes it.
pub uninterp spec fn sha256_message(message: Seq<u8>) -> [u8; 32];

/// Calls `sha2::Sha256::new`: a hasher that has been fed nothing.
#[verifier::external_body]
fn new_hasher() -> (hasher: sha2::Sha256)
    ensures
        fed_bytes(hasher) == Seq::<u8>::empty(),
{
    sha2::Digest::new()
}

/// Calls `sha2::Sha256::update`: the hasher has been fed `bytes` after what it was fed before.
#[verifier::external_body]
fn feed_hasher(hasher: &mut sha2::Sha256, bytes: &[u8])
    requires
        fed_bytes(*old(hasher)).len() + bytes@.len() < MESSAGE_LIMIT,
    ensures
        fed_bytes(*final(hasher)) == fed_bytes(*old(hasher)) + bytes@,
{
    sha2::Digest::update(hasher, bytes)
}

/// Calls `sha2::Sha256::finalize`: the digest of the bytes fed.
#[verifier::external_body]
fn finish_hasher(hasher: sha2::Sha256) -> (digest: [u8; 32])
    requires
        fed_bytes(hasher).len() < MESSAGE_LIMIT,
    ensures
        digest == sha256_message(fed_bytes(hasher)),
{
    sha2::Digest::finalize(hasher).into()
}

/// The digest of `message`. A message that reaches the length limit has no SHA-256 digest; all
/// zeros stand for it.
pub open spec fn sha256_of(message: Seq<u8>) -> Seq<u8> {
    if message.len() < MESSAGE_LIMIT {
        sha256_message(message)@
    } else {
        Seq::new(32, |i: int| 0u8)
    }
}

/// A hasher together with the bytes that it has been fed.
pub struct Transcript {
    hasher: sha2::Sha256,
    length: u64,
    message: Ghost<Seq<u8>>,
}

impl View for Transcript {
    type V = Seq<u8>;

    closed spec fn view(&self) -> Seq<u8> {
        self.message@
    }
}

impl Transcript {
    #[verifier::type_invariant]
    spec fn counted(self) -> bool {
        if self.message@.len() < MESSAGE_LIMIT {
            self.length == self.message@.len() && fed_bytes(self.hasher) == self.message@
        } else {
            self.length == MESSAGE_LIMIT
        }
    }

    /// A transcript that holds nothing.
    pub fn new() -> (transcript: Self)
        ensures
            transcript@ == Seq::<u8>::empty(),
    {
        Transcript { hasher: new_hasher(), length: 0, message: Ghost(Seq::empty()) }
    }

    /// Appends `bytes` to the transcript.
    pub fn update(self, bytes: &[u8]) -> (transcript: Self)
        ensures
            transcript@ == self@ + bytes@,
    {
        proof {
            use_type_invariant(&self);
        }
        let count: u64 = bytes.len() as u64;
        let message: Ghost<Seq<u8>> = Ghost(self.message@ + bytes@);
        let mut hasher = self.hasher;
        let length = self.length;
        if count < MESSAGE_LIMIT && length < MESSAGE_LIMIT - count {
            feed_hasher(&mut hasher, bytes);
            Transcript { hasher, length: length + count, message }
        } else {
            Transcript { hasher, length: MESSAGE_LIMIT, message }
        }
    }

    /// The digest of everything appended.
    pub fn finish(self) -> (digest: [u8; 32])
        ensures
            digest@ == sha256_of(self@),
    {
        proof {
            use_type_invariant(&self);
        }
        if self.length < MESSAGE_LIMIT {
            finish_hasher(self.hasher)
        } else {
            let digest: [u8; 32] = [0u8; 32];
            assert(digest@ =~= sha256_of(self@));
            digest
        }
    }
}

/// The SHA-256 digest of `bytes`.
pub fn sha256(bytes: &[u8]) -> (digest: [u8; 32])
    ensures
        digest@ == sha256_of(bytes@),
{
    let transcript = Transcript::new().update(bytes);
    assert(transcript@ =~= bytes@);
    transcript.finish()
}

} // verus!
