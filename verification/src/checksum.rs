//! The checksum engine: a collision-resistant digest of a file's byte
//! content, computed from the bytes that were actually read, never trusted
//! from prior metadata.  The digest is SHA-256, a pure function of the bytes;
//! the rest of the engine treats digest equality as content identity, with
//! the collision probability treated as zero.  The engine streams, so a file
//! is digested in bounded-size chunks, never loaded whole.

use vstd::prelude::*;

verus! {

/// A 256-bit content digest: the SHA-256 hash as four 64-bit words, little
/// endian, in hash-byte order.
#[derive(Clone, Copy, Debug, PartialEq, Eq, Structural)]
pub struct Digest {
    pub w0: u64,
    pub w1: u64,
    pub w2: u64,
    pub w3: u64,
}

/// What SHA-256 returns for a byte sequence.  The hash is a function of the
/// bytes alone — the same on every machine and in every process — and far too
/// long to state here; the trusted engine below is what computes it.
pub uninterp spec fn sha256_of(bytes: Seq<u8>) -> Digest;

/// Holds sha2's streaming hasher.  `sha2::Sha256` is a deep stack of generic
/// wrapper types, so the verifier sees this holder as opaque instead.
#[verifier::external_body]
struct Sha256State {
    hasher: sha2::Sha256,
}

/// A streaming digest: feed the bytes of one file in chunks, in order, then
/// read the digest off.  The digest equals `sha256_of` over everything fed.
pub struct ChecksumEngine {
    state: Sha256State,
    fed: Ghost<Seq<u8>>,
}

impl ChecksumEngine {
    /// The bytes fed so far.
    pub closed spec fn fed_bytes(self) -> Seq<u8> {
        self.fed@
    }

    /// Relies on sha2's `Digest::new`: a fresh SHA-256 hasher that has
    /// absorbed no input.
    #[verifier::external_body]
    pub fn new() -> (r: Self)
        ensures
            r.fed_bytes() == Seq::<u8>::empty(),
    {
        ChecksumEngine { state: Sha256State { hasher: <sha2::Sha256 as sha2::Digest>::new() }, fed: Ghost(Seq::empty()) }
    }

    /// Relies on sha2's `Digest::update`: absorbing input incrementally, so
    /// that feeding a file chunk by chunk hashes the concatenation.
    #[verifier::external_body]
    pub fn update(&mut self, chunk: &Vec<u8>)
        ensures
            final(self).fed_bytes() == old(self).fed_bytes() + chunk@,
    {
        sha2::Digest::update(&mut self.state.hasher, chunk.as_slice());
    }

    /// Relies on sha2's `Digest::finalize`: the SHA-256 hash of everything
    /// absorbed since `new`, 32 bytes, read here as four little-endian words.
    #[verifier::external_body]
    pub fn finish(self) -> (r: Digest)
        ensures
            r == sha256_of(self.fed_bytes()),
    {
        let out = sha2::Digest::finalize(self.state.hasher);
        let mut w = [0u64; 4];
        for (i, chunk) in out.chunks(8).enumerate() {
            w[i] = u64::from_le_bytes(chunk.try_into().unwrap());
        }
        Digest { w0: w[0], w1: w[1], w2: w[2], w3: w[3] }
    }
}

/// The digest of a whole in-memory byte string, through the streaming engine.
pub fn checksum_bytes(bytes: &Vec<u8>) -> (r: Digest)
    ensures
        r == sha256_of(bytes@),
{
    let mut engine = ChecksumEngine::new();
    engine.update(bytes);
    proof {
        assert(engine.fed_bytes() =~= bytes@);
    }
    engine.finish()
}

/// A checksum depends on the bytes alone: recomputing it over equal contents
/// always yields the same digest, however often it is recomputed.  (That
/// distinct contents yield distinct digests is SHA-256's collision
/// resistance, which this system treats as absolute but cannot state of a
/// named outside result.)
pub proof fn lemma_checksum_deterministic(a: Seq<u8>, b: Seq<u8>)
    requires
        a == b,
    ensures
        sha256_of(a) == sha256_of(b),
{
}

/// Whether two file contents are byte-for-byte identical.
pub fn file_contents_matches(a: &Vec<u8>, b: &Vec<u8>) -> (r: bool)
    ensures
        r == (a@ == b@),
{
    if a.len() != b.len() {
        return false;
    }
    let mut i: usize = 0;
    while i < a.len()
        invariant
            i <= a.len(),
            a.len() == b.len(),
            forall|j: int| 0 <= j < i ==> a@[j] == b@[j],
        decreases a.len() - i,
    {
        if a[i] != b[i] {
            return false;
        }
        i = i + 1;
    }
    proof {
        assert(a@ =~= b@);
    }
    true
}

} // verus!
