//! Hash-chain clock: each tick replaces the current hash by its SHA3-256 digest
//! and advances a counter, so the ticks between two events are a sequential,
//! checkable ordering.

use vstd::prelude::*;
use vstd::string::StringExecFns;
use crate::consensus::{ConsensusError, ConsensusResult};

verus! {

/// The SHA3-256 digest of a byte string.
pub uninterp spec fn sha3_256_of(data: Seq<u8>) -> Seq<u8>;

/// Relies on sha3::Sha3_256 through digest::Digest::digest: the 32-byte SHA3-256
/// digest of the input, a function of the input bytes alone.
#[verifier::external_body]
fn sha3_256(data: &[u8]) -> (r: [u8; 32])
    ensures
        r@ == sha3_256_of(data@),
{
    <sha3::Sha3_256 as sha3::Digest>::digest(data).into()
}

/// The all-zero 32-byte hash that the clock starts from.
pub open spec fn zero_hash() -> Seq<u8> {
    Seq::new(32, |i: int| 0u8)
}

/// The hash reached from `h` after `n` ticks.
pub open spec fn hash_chain(h: Seq<u8>, n: nat) -> Seq<u8>
    decreases n,
{
    if n == 0 {
        h
    } else {
        sha3_256_of(hash_chain(h, (n - 1) as nat))
    }
}

/// How far past the current tick a timestamp may lie by default.
pub const DEFAULT_MAX_DRIFT: u64 = 1000;

/// The hash-chain clock.
pub struct ProofOfHistory {
    current_hash: [u8; 32],
    tick_count: u64,
    max_drift: u64,
}

impl ProofOfHistory {
    /// The current hash.
    pub closed spec fn hash_spec(&self) -> Seq<u8> {
        self.current_hash@
    }

    /// The number of ticks so far.
    pub closed spec fn count(&self) -> u64 {
        self.tick_count
    }

    /// How far past the current tick a timestamp may lie.
    pub closed spec fn drift(&self) -> u64 {
        self.max_drift
    }

    /// The current hash is the one reached from the zero hash after as many
    /// ticks as the counter says.
    pub open spec fn wf(&self) -> bool {
        self.hash_spec() == hash_chain(zero_hash(), self.count() as nat)
    }

    /// A clock at tick zero, on the zero hash, with the default drift tolerance.
    pub fn new() -> (r: Self)
        ensures
            r.wf(),
            r.count() == 0,
            r.hash_spec() == zero_hash(),
            r.drift() == DEFAULT_MAX_DRIFT,
    {
        Self::with_drift(DEFAULT_MAX_DRIFT)
    }

    /// A clock at tick zero, on the zero hash, accepting timestamps up to
    /// `max_drift` ticks past the current one.
    pub fn with_drift(max_drift: u64) -> (r: Self)
        ensures
            r.wf(),
            r.count() == 0,
            r.hash_spec() == zero_hash(),
            r.drift() == max_drift,
    {
        let r = ProofOfHistory { current_hash: [0u8; 32], tick_count: 0, max_drift };
        assert(r.current_hash@ =~= zero_hash());
        r
    }

    /// Advances the clock one tick: the new hash is the SHA3-256 digest of the
    /// current one, and the counter grows by one. Returns the new hash.
    pub fn tick(&mut self) -> (r: [u8; 32])
        requires
            old(self).wf(),
            old(self).count() < u64::MAX,
        ensures
            final(self).wf(),
            final(self).hash_spec() == sha3_256_of(old(self).hash_spec()),
            final(self).count() == old(self).count() + 1,
            final(self).drift() == old(self).drift(),
            r@ == final(self).hash_spec(),
    {
        let next = sha3_256(self.current_hash.as_slice());
        self.current_hash = next;
        self.tick_count = self.tick_count + 1;
        next
    }

    /// The current tick, used as a block timestamp.
    pub fn get_timestamp(&self) -> (r: u64)
        ensures
            r == self.count(),
    {
        self.tick_count
    }

    /// Accepts a timestamp at most the drift tolerance past the current tick;
    /// rejects any later one as a future timestamp.
    pub fn validate_timestamp(&self, timestamp: u64) -> (r: ConsensusResult<()>)
        ensures
            r is Ok <==> timestamp as int <= self.count() as int + self.drift() as int,
            r is Err ==> r->Err_0 is InvalidBlock,
    {
        if timestamp > self.tick_count && timestamp - self.tick_count > self.max_drift {
            return Err(ConsensusError::InvalidBlock(String::from_str("Future timestamp")));
        }
        Ok(())
    }

    /// The current hash.
    pub fn get_current_hash(&self) -> (r: [u8; 32])
        ensures
            r@ == self.hash_spec(),
    {
        self.current_hash
    }
}

impl Default for ProofOfHistory {
    fn default() -> (r: Self)
        ensures
            r.wf(),
            r.count() == 0,
            r.drift() == DEFAULT_MAX_DRIFT,
    {
        Self::new()
    }
}

/// From any clock state, `n` ticks advance the counter by exactly `n` and reach
/// the hash `n` steps further along the chain; so each tick raises the counter.
pub proof fn lemma_ticks_advance(start: u64, n: nat)
    ensures
        hash_chain(hash_chain(zero_hash(), start as nat), n) == hash_chain(zero_hash(), start as nat + n),
    decreases n,
{
    if n > 0 {
        lemma_ticks_advance(start, (n - 1) as nat);
    }
}

} // verus!
