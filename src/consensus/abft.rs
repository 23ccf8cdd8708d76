//! Finality gadget: tracks each block through validation and voting, certifies
//! it once the distinct signers hold more than two thirds of the epoch's active
//! stake, and finalizes certified blocks.

use vstd::prelude::*;
use vstd::string::StringExecFns;
use vstd::arithmetic::div_mod::lemma_fundamental_div_mod;
use crate::bytes::bytes_eq;
use crate::types::{Address, BlockHash};
use crate::consensus::{ConsensusError, ConsensusResult, Validator};
use crate::consensus::pos::{addr, stake_total, prefix_active, lemma_prefix_step, EpochSnapshot};

verus! {

/// Where a block stands in the finality protocol.
#[derive(Debug, Clone, Copy, PartialEq, Eq, Structural)]
pub enum BlockStatus {
    /// Not yet validated.
    Proposed,
    /// Validated; collecting votes.
    Voting,
    /// More than two thirds of the stake voted for it.
    Certified,
    /// Irreversible.
    Finalized,
    /// Failed validation.
    Rejected,
}

/// The signers of a certified block and the stake they hold.
#[derive(Debug)]
pub struct QuorumCertificate {
    block_hash: BlockHash,
    epoch: u64,
    signers: Vec<Address>,
    signed_stake: u128,
    total_stake: u128,
}

impl QuorumCertificate {
    pub closed spec fn hash_spec(&self) -> Seq<u8> {
        self.block_hash.0@
    }

    pub closed spec fn epoch_spec(&self) -> u64 {
        self.epoch
    }

    pub closed spec fn signers_spec(&self) -> Seq<Address> {
        self.signers@
    }

    pub closed spec fn stake_spec(&self) -> u128 {
        self.signed_stake
    }

    /// The active stake of the epoch the certificate was made in.
    pub closed spec fn total_spec(&self) -> u128 {
        self.total_stake
    }

    pub fn block_hash(&self) -> (r: BlockHash)
        ensures
            r.0@ == self.hash_spec(),
    {
        self.block_hash
    }

    pub fn epoch(&self) -> (r: u64)
        ensures
            r == self.epoch_spec(),
    {
        self.epoch
    }

    pub fn signers(&self) -> (r: &Vec<Address>)
        ensures
            r@ == self.signers_spec(),
    {
        &self.signers
    }

    pub fn signed_stake(&self) -> (r: u128)
        ensures
            r == self.stake_spec(),
    {
        self.signed_stake
    }

    pub fn total_stake(&self) -> (r: u128)
        ensures
            r == self.total_spec(),
    {
        self.total_stake
    }
}

/// The votes on one block.
#[derive(Debug)]
pub struct VoteRound {
    /// The block voted on.
    pub hash: BlockHash,
    /// Where the block stands.
    pub status: BlockStatus,
    /// The validators that voted for it, in the order their votes came.
    pub voters: Vec<Address>,
    /// Its certificate, once it has one.
    pub certificate: Option<QuorumCertificate>,
}

/// The address bytes of each address of a sequence.
pub open spec fn address_bytes(v: Seq<Address>) -> Seq<Seq<u8>> {
    v.map_values(|a: Address| a.0@)
}

/// The stake of the active validators of `s` whose address is among `voters`;
/// each validator counts once however often its address occurs.
pub open spec fn signed_stake(s: Seq<Validator>, voters: Seq<Seq<u8>>) -> nat
    decreases s.len(),
{
    if s.len() == 0 {
        0
    } else {
        signed_stake(s.drop_last(), voters) + if s.last().is_active && voters.contains(addr(s.last())) {
            s.last().stake as nat
        } else {
            0nat
        }
    }
}

/// `signed` is more than two thirds of `total`.
pub open spec fn has_quorum(signed: nat, total: nat) -> bool {
    3 * signed > 2 * total
}

/// `addr` is the address of an active member of `s`.
pub open spec fn is_active_member(s: Seq<Validator>, a: Seq<u8>) -> bool {
    exists|i: int| 0 <= i < s.len() && addr(#[trigger] s[i]) == a && s[i].is_active
}

proof fn lemma_signed_le_active(s: Seq<Validator>, voters: Seq<Seq<u8>>)
    ensures
        signed_stake(s, voters) <= crate::consensus::pos::stake_total(s, true),
    decreases s.len(),
{
    if s.len() > 0 {
        lemma_signed_le_active(s.drop_last(), voters);
    }
}

/// Whether `signed` is more than two thirds of `total`, without overflow.
fn exceeds_two_thirds(signed: u128, total: u128) -> (r: bool)
    ensures
        r == has_quorum(signed as nat, total as nat),
{
    let q = total / 3;
    let rem = total % 3;
    proof {
        lemma_fundamental_div_mod(total as int, 3);
    }
    let threshold: u128 = 2 * q + (2 * rem) / 3;
    signed > threshold
}

/// Finality state of all blocks seen so far.
pub struct AsyncBFT {
    rounds: Vec<VoteRound>,
}

impl AsyncBFT {
    /// The vote rounds, one per block validated so far.
    pub closed spec fn rounds(&self) -> Seq<VoteRound> {
        self.rounds@
    }

    /// Each block has at most one round, a block with a round is past
    /// `Proposed`, and a certified or finalized block has a certificate whose
    /// signers hold more than two thirds of its epoch's active stake.
    pub open spec fn wf(&self) -> bool {
        &&& forall|i: int| 0 <= i < self.rounds().len()
            && ((#[trigger] self.rounds()[i]).status == BlockStatus::Certified || self.rounds()[i].status == BlockStatus::Finalized)
            ==> self.rounds()[i].certificate is Some && has_quorum(
                self.rounds()[i].certificate->Some_0.stake_spec() as nat,
                self.rounds()[i].certificate->Some_0.total_spec() as nat)
        &&& forall|i: int, j: int| 0 <= i < self.rounds().len() && 0 <= j < self.rounds().len() && i != j
            ==> (#[trigger] self.rounds()[i]).hash.0@ != (#[trigger] self.rounds()[j]).hash.0@
        &&& forall|i: int| 0 <= i < self.rounds().len() ==> (#[trigger] self.rounds()[i]).status != BlockStatus::Proposed
    }

    /// Some round is for the block with hash `h`.
    pub open spec fn tracks(&self, h: Seq<u8>) -> bool {
        exists|i: int| 0 <= i < self.rounds().len() && (#[trigger] self.rounds()[i]).hash.0@ == h
    }

    /// A gadget that has seen no block.
    pub fn new() -> (r: Self)
        ensures
            r.wf(),
            r.rounds().len() == 0,
    {
        AsyncBFT { rounds: Vec::new() }
    }

    fn find_round(&self, h: &BlockHash) -> (r: Option<usize>)
        ensures
            match r {
                Some(i) => i < self.rounds().len() && self.rounds()[i as int].hash.0@ == h.0@,
                None => !self.tracks(h.0@),
            },
    {
        let mut i: usize = 0;
        while i < self.rounds.len()
            invariant
                0 <= i <= self.rounds().len(),
                forall|j: int| 0 <= j < i ==> (#[trigger] self.rounds()[j]).hash.0@ != h.0@,
            decreases self.rounds().len() - i,
        {
            if bytes_eq(self.rounds[i].hash.0.as_slice(), h.0.as_slice()) {
                return Some(i);
            }
            i = i + 1;
        }
        None
    }

    /// Where the block with hash `h` stands: `Proposed` if it was never validated.
    pub fn status(&self, h: &BlockHash) -> (r: BlockStatus)
        requires
            self.wf(),
        ensures
            !self.tracks(h.0@) ==> r == BlockStatus::Proposed,
            forall|i: int| 0 <= i < self.rounds().len() && (#[trigger] self.rounds()[i]).hash.0@ == h.0@
                ==> r == self.rounds()[i].status,
    {
        match self.find_round(h) {
            Some(i) => self.rounds[i].status,
            None => BlockStatus::Proposed,
        }
    }

    /// The round of the block with hash `h`, if it was validated.
    pub fn round(&self, h: &BlockHash) -> (r: Option<&VoteRound>)
        requires
            self.wf(),
        ensures
            !self.tracks(h.0@) ==> r is None,
            forall|i: int| 0 <= i < self.rounds().len() && (#[trigger] self.rounds()[i]).hash.0@ == h.0@
                ==> r == Some(&self.rounds()[i]),
    {
        match self.find_round(h) {
            Some(i) => Some(&self.rounds[i]),
            None => None,
        }
    }

    /// Records the outcome of validating a proposed block: on success it moves
    /// to `Voting`, on failure to `Rejected`, and the outcome is returned. A block
    /// validated before fails with `DuplicateBlock` and nothing changes.
    pub fn validate(&mut self, h: &BlockHash, outcome: ConsensusResult<()>) -> (r: ConsensusResult<()>)
        requires
            old(self).wf(),
        ensures
            final(self).wf(),
            old(self).tracks(h.0@) ==> r is Err && r->Err_0 is DuplicateBlock && final(self).rounds() == old(self).rounds(),
            !old(self).tracks(h.0@) ==> r == outcome && final(self).rounds().len() == old(self).rounds().len() + 1
                && final(self).rounds().subrange(0, old(self).rounds().len() as int) == old(self).rounds()
                && final(self).rounds().last().hash.0@ == h.0@
                && final(self).rounds().last().voters@.len() == 0
                && final(self).rounds().last().certificate is None
                && final(self).rounds().last().status == if outcome is Ok { BlockStatus::Voting } else { BlockStatus::Rejected },
    {
        if self.find_round(h).is_some() {
            return Err(ConsensusError::DuplicateBlock);
        }
        let status = match &outcome {
            Ok(()) => BlockStatus::Voting,
            Err(_) => BlockStatus::Rejected,
        };
        let ghost old_rounds = self.rounds@;
        self.rounds.push(VoteRound { hash: *h, status, voters: Vec::new(), certificate: None });
        proof {
            assert(self.rounds@.subrange(0, old_rounds.len() as int) =~= old_rounds);
            assert forall|i: int, j: int| 0 <= i < self.rounds().len() && 0 <= j < self.rounds().len() && i != j
                implies (#[trigger] self.rounds()[i]).hash.0@ != (#[trigger] self.rounds()[j]).hash.0@ by {
                if i < old_rounds.len() && j < old_rounds.len() {
                    assert(self.rounds()[i] == old_rounds[i] && self.rounds()[j] == old_rounds[j]);
                } else if i < old_rounds.len() {
                    assert(self.rounds()[i] == old_rounds[i]);
                } else {
                    assert(self.rounds()[j] == old_rounds[j]);
                }
            }
        }
        outcome
    }
}

/// Whether `a` occurs in `v`.
fn contains_address(v: &Vec<Address>, a: &Address) -> (r: bool)
    ensures
        r == address_bytes(v@).contains(a.0@),
{
    let mut i: usize = 0;
    while i < v.len()
        invariant
            0 <= i <= v@.len(),
            forall|j: int| 0 <= j < i ==> (#[trigger] v@[j]).0@ != a.0@,
        decreases v@.len() - i,
    {
        if bytes_eq(v[i].0.as_slice(), a.0.as_slice()) {
            assert(address_bytes(v@)[i as int] == a.0@);
            return true;
        }
        i = i + 1;
    }
    proof {
        if address_bytes(v@).contains(a.0@) {
            let k = choose|k: int| 0 <= k < address_bytes(v@).len() && address_bytes(v@)[k] == a.0@;
            assert(v@[k].0@ == a.0@);
        }
    }
    false
}

/// Copies a sequence of addresses.
fn copy_addresses(v: &Vec<Address>) -> (r: Vec<Address>)
    ensures
        r@ == v@,
{
    let mut r: Vec<Address> = Vec::new();
    let mut i: usize = 0;
    while i < v.len()
        invariant
            0 <= i <= v@.len(),
            r@ == v@.subrange(0, i as int),
        decreases v@.len() - i,
    {
        r.push(v[i]);
        assert(r@ =~= v@.subrange(0, i + 1));
        i = i + 1;
    }
    assert(v@.subrange(0, v@.len() as int) =~= v@);
    r
}

/// The stake of the active members of `s` that voted, as `signed_stake` counts it.
fn compute_signed(s: &Vec<Validator>, voters: &Vec<Address>) -> (r: u128)
    requires
        stake_total(s@, true) <= u128::MAX,
    ensures
        r == signed_stake(s@, address_bytes(voters@)),
        r <= stake_total(s@, true),
{
    let ghost vb = address_bytes(voters@);
    let mut acc: u128 = 0;
    let mut i: usize = 0;
    proof {
        assert(s@.subrange(0, 0) =~= Seq::<Validator>::empty());
    }
    while i < s.len()
        invariant
            0 <= i <= s@.len(),
            stake_total(s@, true) <= u128::MAX,
            vb == address_bytes(voters@),
            acc == signed_stake(s@.subrange(0, i as int), vb),
            acc <= prefix_active(s@, i as int),
        decreases s@.len() - i,
    {
        let v = s[i];
        proof {
            lemma_prefix_step(s@, i as int);
            assert(s@.subrange(0, i + 1).drop_last() =~= s@.subrange(0, i as int));
            assert(s@.subrange(0, i + 1).last() == v);
        }
        if v.is_active && contains_address(voters, &v.address) {
            acc = acc + v.stake;
        }
        i = i + 1;
    }
    proof {
        assert(s@.subrange(0, s@.len() as int) =~= s@);
    }
    acc
}

/// What a vote for block `h` by `voter` does: `after_bft` and the result `r`
/// as `AsyncBFT::record_vote` leaves them from `before_bft`.
pub open spec fn vote_effect(
    before_bft: AsyncBFT,
    after_bft: AsyncBFT,
    h: Seq<u8>,
    voter: Seq<u8>,
    signature_valid: bool,
    snapshot: EpochSnapshot,
    r: ConsensusResult<BlockStatus>,
) -> bool {
    &&& r is Err ==> after_bft.rounds() == before_bft.rounds()
    &&& !before_bft.tracks(h) ==> r is Err && r->Err_0 is InvalidBlock
    &&& forall|i: int| 0 <= i < before_bft.rounds().len() && (#[trigger] before_bft.rounds()[i]).hash.0@ == h
        ==> vote_effect_at(before_bft, after_bft, i, h, voter, signature_valid, snapshot, r)
}

/// What a vote does to the round at position `i`, which is the round of block `h`.
pub open spec fn vote_effect_at(
    before_bft: AsyncBFT,
    after_bft: AsyncBFT,
    i: int,
    h: Seq<u8>,
    voter: Seq<u8>,
    signature_valid: bool,
    snapshot: EpochSnapshot,
    r: ConsensusResult<BlockStatus>,
) -> bool {
    let before = before_bft.rounds()[i];
    let after = after_bft.rounds()[i];
    let voted = address_bytes(before.voters@);
    let signed = signed_stake(snapshot.members(), voted.push(voter));
    let certifies = before.status == BlockStatus::Voting && has_quorum(signed, snapshot.total() as nat);
    let open = before.status != BlockStatus::Rejected;
    let member = is_active_member(snapshot.members(), voter);
    &&& !open ==> r is Err && r->Err_0 is InvalidBlock
    &&& open && !signature_valid ==> r is Err && r->Err_0 is InvalidSignature
    &&& open && signature_valid && !member ==> r is Err && r->Err_0 is ValidatorNotFound
    &&& open && signature_valid && member && voted.contains(voter) ==> r is Err && r->Err_0 is DuplicateVote
    &&& open && signature_valid && member && !voted.contains(voter) ==> {
        &&& r == Ok::<BlockStatus, ConsensusError>(after.status)
        &&& after.status == if certifies { BlockStatus::Certified } else { before.status }
        &&& after_bft.rounds().len() == before_bft.rounds().len()
        &&& forall|j: int| 0 <= j < before_bft.rounds().len() && j != i
            ==> after_bft.rounds()[j] == before_bft.rounds()[j]
        &&& after.hash == before.hash
        &&& address_bytes(after.voters@) == voted.push(voter)
        &&& certifies ==> after.certificate is Some
            && after.certificate->Some_0.hash_spec() == h
            && after.certificate->Some_0.epoch_spec() == snapshot.epoch_spec()
            && address_bytes(after.certificate->Some_0.signers_spec()) == voted.push(voter)
            && after.certificate->Some_0.stake_spec() == signed
            && after.certificate->Some_0.total_spec() == snapshot.total()
        &&& !certifies ==> after.certificate == before.certificate
    }
}

impl AsyncBFT {
    /// Records a vote of `voter` for the block with hash `h`, counted against
    /// the snapshot of the vote's epoch. `signature_valid` says whether the
    /// vote's signature matched the voter's registered public key. Fails with
    /// `InvalidBlock` if the block was never validated or was rejected, with
    /// `InvalidSignature` on a bad signature, with `ValidatorNotFound` if the
    /// voter is not an active member of the snapshot, and with `DuplicateVote`
    /// if it already voted for the block. Otherwise the vote is added; a block
    /// in `Voting` becomes `Certified`, with its certificate, as soon as the
    /// signers hold more than two thirds of the snapshot's active stake. Returns
    /// the block's status after the vote.
    pub fn record_vote(
        &mut self,
        h: &BlockHash,
        voter: &Address,
        signature_valid: bool,
        snapshot: &EpochSnapshot,
    ) -> (r: ConsensusResult<BlockStatus>)
        requires
            old(self).wf(),
            snapshot.wf(),
        ensures
            final(self).wf(),
            vote_effect(*old(self), *final(self), h.0@, voter.0@, signature_valid, *snapshot, r),
    {
        let i = match self.find_round(h) {
            Some(i) => i,
            None => {
                return Err(ConsensusError::InvalidBlock(String::from_str("block was not validated")));
            },
        };
        proof {
            assert forall|k: int| 0 <= k < self.rounds().len() && (#[trigger] self.rounds()[k]).hash.0@ == h.0@
                implies k == i by {}
        }
        if self.rounds[i].status == BlockStatus::Rejected {
            return Err(ConsensusError::InvalidBlock(String::from_str("block was rejected")));
        }
        if !signature_valid {
            return Err(ConsensusError::InvalidSignature);
        }
        match snapshot.active_stake_of(voter) {
            None => {
                return Err(ConsensusError::ValidatorNotFound);
            },
            Some(_) => {},
        }
        if contains_address(&self.rounds[i].voters, voter) {
            return Err(ConsensusError::DuplicateVote);
        }
        let ghost old_rounds = self.rounds@;
        let round = self.rounds.remove(i);
        let VoteRound { hash, status, mut voters, certificate } = round;
        voters.push(*voter);
        proof {
            assert(address_bytes(voters@) =~= address_bytes(old_rounds[i as int].voters@).push(voter.0@));
            crate::consensus::pos::lemma_active_le_all(snapshot.members());
        }
        let signed = compute_signed(snapshot.validators(), &voters);
        let certifies = status == BlockStatus::Voting && exceeds_two_thirds(signed, snapshot.total_stake());
        let (new_status, new_certificate) = if certifies {
            let signers = copy_addresses(&voters);
            (BlockStatus::Certified, Some(QuorumCertificate {
                block_hash: *h,
                epoch: snapshot.epoch(),
                signers,
                signed_stake: signed,
                total_stake: snapshot.total_stake(),
            }))
        } else {
            (status, certificate)
        };
        self.rounds.insert(i, VoteRound { hash, status: new_status, voters, certificate: new_certificate });
        proof {
            assert(self.rounds@ =~= old_rounds.update(i as int, self.rounds@[i as int]));
            assert forall|a: int, b: int| 0 <= a < self.rounds().len() && 0 <= b < self.rounds().len() && a != b
                implies (#[trigger] self.rounds()[a]).hash.0@ != (#[trigger] self.rounds()[b]).hash.0@ by {
                assert(old_rounds[a].hash.0@ != old_rounds[b].hash.0@);
            }
        }
        Ok(new_status)
    }

    /// Finalizes a certified block; finalizing it again changes nothing. Fails
    /// with `InvalidBlock`, changing nothing, if the block is not certified.
    pub fn finalize(&mut self, h: &BlockHash) -> (r: ConsensusResult<()>)
        requires
            old(self).wf(),
        ensures
            final(self).wf(),
            r is Err ==> r->Err_0 is InvalidBlock && final(self).rounds() == old(self).rounds(),
            !old(self).tracks(h.0@) ==> r is Err,
            forall|i: int| 0 <= i < old(self).rounds().len() && (#[trigger] old(self).rounds()[i]).hash.0@ == h.0@ ==> {
                let before = old(self).rounds()[i];
                &&& (r is Ok <==> before.status == BlockStatus::Certified || before.status == BlockStatus::Finalized)
                &&& r is Ok ==> final(self).rounds() == old(self).rounds().update(i,
                    VoteRound { status: BlockStatus::Finalized, ..before })
            },
    {
        let i = match self.find_round(h) {
            Some(i) => i,
            None => {
                return Err(ConsensusError::InvalidBlock(String::from_str("block was not validated")));
            },
        };
        proof {
            assert forall|k: int| 0 <= k < self.rounds().len() && (#[trigger] self.rounds()[k]).hash.0@ == h.0@
                implies k == i by {}
        }
        let st = self.rounds[i].status;
        if st != BlockStatus::Certified && st != BlockStatus::Finalized {
            return Err(ConsensusError::InvalidBlock(String::from_str("block is not certified")));
        }
        let ghost old_rounds = self.rounds@;
        let round = self.rounds.remove(i);
        let VoteRound { hash, status, voters, certificate } = round;
        self.rounds.insert(i, VoteRound { hash, status: BlockStatus::Finalized, voters, certificate });
        proof {
            assert(self.rounds@ =~= old_rounds.update(i as int, VoteRound { status: BlockStatus::Finalized, ..old_rounds[i as int] }));
            assert forall|a: int, b: int| 0 <= a < self.rounds().len() && 0 <= b < self.rounds().len() && a != b
                implies (#[trigger] self.rounds()[a]).hash.0@ != (#[trigger] self.rounds()[b]).hash.0@ by {
                assert(old_rounds[a].hash.0@ != old_rounds[b].hash.0@);
            }
        }
        Ok(())
    }

    /// Ends a round that timed out. A block still in `Voting` loses its round
    /// and its votes, goes back to `Proposed` for a new round under a newly
    /// elected proposer, and `Timeout` is returned. A certified or finalized
    /// block is unaffected and the call succeeds. Any other block fails with
    /// `InvalidBlock`. Nothing changes except by the first case.
    pub fn timeout(&mut self, h: &BlockHash) -> (r: ConsensusResult<()>)
        requires
            old(self).wf(),
        ensures
            final(self).wf(),
            !old(self).tracks(h.0@) ==> r is Err && r->Err_0 is InvalidBlock && final(self).rounds() == old(self).rounds(),
            forall|i: int| 0 <= i < old(self).rounds().len() && (#[trigger] old(self).rounds()[i]).hash.0@ == h.0@ ==> {
                let st = old(self).rounds()[i].status;
                &&& st == BlockStatus::Voting ==> r is Err && r->Err_0 is Timeout
                    && final(self).rounds() == old(self).rounds().remove(i)
                &&& (st == BlockStatus::Certified || st == BlockStatus::Finalized) ==> r is Ok
                    && final(self).rounds() == old(self).rounds()
                &&& (st == BlockStatus::Rejected || st == BlockStatus::Proposed) ==> r is Err
                    && r->Err_0 is InvalidBlock && final(self).rounds() == old(self).rounds()
            },
    {
        let i = match self.find_round(h) {
            Some(i) => i,
            None => {
                return Err(ConsensusError::InvalidBlock(String::from_str("block was not validated")));
            },
        };
        proof {
            assert forall|k: int| 0 <= k < self.rounds().len() && (#[trigger] self.rounds()[k]).hash.0@ == h.0@
                implies k == i by {}
        }
        let st = self.rounds[i].status;
        if st == BlockStatus::Voting {
            let ghost old_rounds = self.rounds@;
            let _ = self.rounds.remove(i);
            proof {
                assert forall|a: int, b: int| 0 <= a < self.rounds().len() && 0 <= b < self.rounds().len() && a != b
                    implies (#[trigger] self.rounds()[a]).hash.0@ != (#[trigger] self.rounds()[b]).hash.0@ by {
                    let aa = if a < i { a } else { a + 1 };
                    let bb = if b < i { b } else { b + 1 };
                    assert(self.rounds()[a] == old_rounds[aa] && self.rounds()[b] == old_rounds[bb]);
                }
            }
            Err(ConsensusError::Timeout)
        } else if st == BlockStatus::Certified || st == BlockStatus::Finalized {
            Ok(())
        } else {
            Err(ConsensusError::InvalidBlock(String::from_str("block is not in voting")))
        }
    }
}

/// A vote moves a block from `Voting` to `Certified` only when the stake of the
/// distinct signers, the voter included, is more than two thirds of the
/// snapshot's active stake.
pub proof fn lemma_certified_only_with_quorum(
    before_bft: AsyncBFT,
    after_bft: AsyncBFT,
    i: int,
    h: Seq<u8>,
    voter: Seq<u8>,
    signature_valid: bool,
    snapshot: EpochSnapshot,
    r: ConsensusResult<BlockStatus>,
)
    requires
        vote_effect_at(before_bft, after_bft, i, h, voter, signature_valid, snapshot, r),
        before_bft.rounds()[i].status == BlockStatus::Voting,
        r == Ok::<BlockStatus, ConsensusError>(BlockStatus::Certified),
    ensures
        has_quorum(signed_stake(snapshot.members(), address_bytes(after_bft.rounds()[i].voters@)), snapshot.total() as nat),
        after_bft.rounds()[i].certificate is Some,
{
}

/// A finalized block has a certificate whose distinct signers hold more than
/// two thirds of the active stake of the certificate's epoch; so `finalize`,
/// which succeeds only on certified blocks, never finalizes without a quorum.
pub proof fn lemma_finalized_has_quorum(bft: AsyncBFT, i: int)
    requires
        bft.wf(),
        0 <= i < bft.rounds().len(),
        bft.rounds()[i].status == BlockStatus::Finalized || bft.rounds()[i].status == BlockStatus::Certified,
    ensures
        bft.rounds()[i].certificate is Some,
        3 * bft.rounds()[i].certificate->Some_0.stake_spec() > 2 * bft.rounds()[i].certificate->Some_0.total_spec(),
{
}

/// A vote that completes a quorum certifies the block only when the signers'
/// stake is strictly more than two thirds of the total: stake of exactly two
/// thirds does not suffice.
pub proof fn lemma_two_thirds_is_not_quorum(total: nat)
    ensures
        !has_quorum(2 * total / 3, total),
        total % 3 == 0 ==> !has_quorum(2 * (total / 3), total),
{
}

} // verus!
