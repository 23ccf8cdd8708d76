//! The consensus core: validator registry and leader election, hash-chain clock,
//! block DAG, finality gadget, and the orchestrator that sequences them.

use vstd::prelude::*;
use vstd::string::StringExecFns;
use crate::bytes::{le_value, read_u128_le};
use crate::config::ConsensusConfig;
use crate::types::{Address, PublicKey, Balance, Block, BlockHash, BlockHeader, Transaction, is_null_hash};
use crate::consensus::abft::{AsyncBFT, BlockStatus, vote_effect};
use crate::consensus::dag::{DagStructure, hash_of, parent_of, same_block};
use crate::consensus::poh::ProofOfHistory;
use crate::consensus::pos::{ProofOfStake, addr, elected, active_count};
use crate::bytes::lex_lt;

pub mod abft;
pub mod dag;
pub mod poh;
pub mod pos;

verus! {

/// Why a consensus operation failed.
#[derive(Debug, Clone)]
pub enum ConsensusError {
    /// A structural or semantic violation, with its reason.
    InvalidBlock(String),
    /// A vote's signature does not match the voter's key.
    InvalidSignature,
    /// The block's proposer is not the one elected for its round.
    InvalidProposer,
    /// A stake is below the configured minimum.
    InsufficientStake,
    /// No validator has the given address.
    ValidatorNotFound,
    /// The validator already voted for this block.
    DuplicateVote,
    /// Another block with the same hash is already stored.
    DuplicateBlock,
    /// The block's parent is not stored.
    UnknownParent,
    /// The active stake is zero.
    NoActiveStake,
    /// The validator set is at its configured maximum.
    RegistryFull,
    /// A round ended without reaching quorum.
    Timeout,
}

/// Result type of consensus operations.
pub type ConsensusResult<T> = Result<T, ConsensusError>;

/// A validator: its address, stake, key, reputation and whether it is active.
#[derive(Debug, Clone, Copy)]
pub struct Validator {
    /// Validator address.
    pub address: Address,
    /// Staked amount.
    pub stake: Balance,
    /// Public key against which its votes are checked.
    pub public_key: PublicKey,
    /// Reputation score (informational).
    pub reputation: u64,
    /// Whether it takes part in elections and quorums.
    pub is_active: bool,
}

/// The election seed of the round that builds on the block with hash `parent`:
/// its first sixteen bytes read as a little-endian number.
pub open spec fn round_seed(parent: Seq<u8>) -> nat {
    le_value(parent.subrange(0, 16))
}

/// The election seed of the round that builds on the block with hash `parent`.
pub fn seed_for_parent(parent: &BlockHash) -> (r: u128)
    ensures
        r as nat == round_seed(parent.0@),
{
    read_u128_le(parent.0.as_slice())
}

/// `proposer` is the validator that the registry's snapshot elects for `seed`.
pub open spec fn is_elected(pos: ProofOfStake, proposer: Seq<u8>, seed: nat) -> bool {
    let snap = pos.snapshot_spec();
    &&& snap.total() > 0
    &&& exists|i: int| elected(snap.members(), i, seed % (snap.total() as nat)) && addr(#[trigger] snap.members()[i]) == proposer
}

/// The all-zero hash.
fn zero_hash() -> (r: BlockHash)
    ensures
        is_null_hash(r.0@),
        r.0@.len() == 32,
{
    BlockHash([0u8; 32])
}

/// The consensus engine: the only entry point that other subsystems call. It
/// owns the registry, the clock, the DAG and the finality gadget, and enforces
/// the order in which they are used.
pub struct HybridConsensus {
    config: ConsensusConfig,
    pos: ProofOfStake,
    abft: AsyncBFT,
    poh: ProofOfHistory,
    poh_enabled: bool,
    dag: DagStructure,
    dag_enabled: bool,
    head: Option<(BlockHash, u64)>,
}

impl HybridConsensus {
    /// The configuration the engine was built with.
    pub closed spec fn config_spec(&self) -> ConsensusConfig {
        self.config
    }

    pub closed spec fn pos_spec(&self) -> ProofOfStake {
        self.pos
    }

    pub closed spec fn abft_spec(&self) -> AsyncBFT {
        self.abft
    }

    pub closed spec fn poh_spec(&self) -> ProofOfHistory {
        self.poh
    }

    pub closed spec fn dag_spec(&self) -> DagStructure {
        self.dag
    }

    /// Whether blocks carry clock ticks as timestamps.
    pub closed spec fn clock_on(&self) -> bool {
        self.poh_enabled
    }

    /// Whether blocks are kept in the DAG.
    pub closed spec fn dag_on(&self) -> bool {
        self.dag_enabled
    }

    /// Without the DAG, the hash and number of the last block accepted: the
    /// one tip of the linear chain.
    pub closed spec fn head_spec(&self) -> Option<(BlockHash, u64)> {
        self.head
    }

    /// Without the DAG, `block` extends the linear chain: it names the head as
    /// its parent, or is a genesis block while the chain is empty.
    pub open spec fn extends_head(&self, block: Block) -> bool {
        match self.head_spec() {
            None => is_null_hash(parent_of(block)),
            Some(h) => parent_of(block) == h.0.0@,
        }
    }

    pub open spec fn wf(&self) -> bool {
        &&& self.pos_spec().wf()
        &&& self.abft_spec().wf()
        &&& self.poh_spec().wf()
        &&& self.dag_spec().wf()
    }

    /// An engine with an empty registry, DAG and gadget and a fresh clock;
    /// the clock and the DAG are used as `config` enables them.
    pub fn new(config: ConsensusConfig) -> (r: Self)
        ensures
            r.wf(),
            r.clock_on() == config.enable_poh,
            r.dag_on() == config.enable_dag,
            r.pos_spec().members().len() == 0,
            r.pos_spec().epoch_spec() == 0,
            r.pos_spec().snapshot_spec().members().len() == 0,
            r.pos_spec().min_spec() == config.min_validator_stake,
            r.pos_spec().max_spec() == config.max_validators,
            r.pos_spec().slashing_spec() == config.slashing_percentage,
            r.poh_spec().count() == 0,
            r.dag_spec().entries().len() == 0,
            r.abft_spec().rounds().len() == 0,
            r.config_spec() == config,
            r.head_spec() is None,
    {
        let pos = ProofOfStake::new(&config);
        let poh_enabled = config.enable_poh;
        let dag_enabled = config.enable_dag;
        HybridConsensus {
            config,
            pos,
            abft: AsyncBFT::new(),
            poh: ProofOfHistory::new(),
            poh_enabled,
            dag: DagStructure::new(),
            dag_enabled,
            head: None,
        }
    }

    /// The configuration the engine was built with.
    pub fn config(&self) -> (r: &ConsensusConfig)
        ensures
            *r == self.config_spec(),
    {
        &self.config
    }

    /// Whether the hash-chain clock is in use.
    pub fn has_clock(&self) -> (r: bool)
        ensures
            r == self.clock_on(),
    {
        self.poh_enabled
    }

    /// Whether the DAG is in use.
    pub fn has_dag(&self) -> (r: bool)
        ensures
            r == self.dag_on(),
    {
        self.dag_enabled
    }

    /// The validator registry.
    pub fn registry(&self) -> (r: &ProofOfStake)
        ensures
            *r == self.pos_spec(),
    {
        &self.pos
    }

    /// The hash-chain clock.
    pub fn clock(&self) -> (r: &ProofOfHistory)
        ensures
            *r == self.poh_spec(),
    {
        &self.poh
    }

    /// The block DAG.
    pub fn dag(&self) -> (r: &DagStructure)
        ensures
            *r == self.dag_spec(),
    {
        &self.dag
    }

    /// The finality gadget.
    pub fn finality(&self) -> (r: &AsyncBFT)
        ensures
            *r == self.abft_spec(),
    {
        &self.abft
    }

    /// Adds a validator to the registry, as `ProofOfStake::add_validator` does.
    pub fn add_validator(&mut self, validator: Validator) -> (r: ConsensusResult<()>)
        requires
            old(self).wf(),
            validator.stake >= old(self).pos_spec().min_spec()
                && active_count(old(self).pos_spec().members()) < old(self).pos_spec().max_spec()
                ==> crate::consensus::pos::stake_total(old(self).pos_spec().members(), false) + validator.stake <= u128::MAX,
        ensures
            final(self).wf(),
            final(self).pos_spec().same_settings(&old(self).pos_spec()),
            validator.stake < old(self).pos_spec().min_spec() ==> r is Err && r->Err_0 is InsufficientStake,
            validator.stake >= old(self).pos_spec().min_spec()
                && active_count(old(self).pos_spec().members()) >= old(self).pos_spec().max_spec()
                ==> r is Err && r->Err_0 is RegistryFull,
            r is Err ==> final(self).pos_spec().members() == old(self).pos_spec().members(),
            validator.stake >= old(self).pos_spec().min_spec()
                && active_count(old(self).pos_spec().members()) < old(self).pos_spec().max_spec() ==> r is Ok
                && crate::consensus::pos::put_member(old(self).pos_spec().members(), final(self).pos_spec().members(), validator),
            final(self).abft_spec() == old(self).abft_spec(),
            final(self).poh_spec() == old(self).poh_spec(),
            final(self).dag_spec() == old(self).dag_spec(),
            final(self).clock_on() == old(self).clock_on(),
            final(self).dag_on() == old(self).dag_on(),
            final(self).head_spec() == old(self).head_spec(),
    {
        self.pos.add_validator(validator)
    }

    /// Starts the next epoch of the registry, freezing its snapshot.
    pub fn next_epoch(&mut self)
        requires
            old(self).wf(),
            old(self).pos_spec().epoch_spec() < u64::MAX,
        ensures
            final(self).wf(),
            final(self).pos_spec().members() == old(self).pos_spec().members(),
            final(self).pos_spec().min_spec() == old(self).pos_spec().min_spec(),
            final(self).pos_spec().epoch_spec() == old(self).pos_spec().epoch_spec() + 1,
            final(self).pos_spec().snapshot_spec().members() == old(self).pos_spec().members(),
            final(self).pos_spec().snapshot_spec().total()
                == crate::consensus::pos::stake_total(old(self).pos_spec().members(), true),
            final(self).abft_spec() == old(self).abft_spec(),
            final(self).poh_spec() == old(self).poh_spec(),
            final(self).dag_spec() == old(self).dag_spec(),
            final(self).clock_on() == old(self).clock_on(),
            final(self).dag_on() == old(self).dag_on(),
            final(self).head_spec() == old(self).head_spec(),
    {
        self.pos.next_epoch()
    }

    /// The validators of the registry, by ascending address.
    pub fn get_validators(&self) -> (r: Vec<Validator>)
        requires
            self.wf(),
        ensures
            r@ == self.pos_spec().members(),
    {
        self.pos.get_validators()
    }

    /// The block the next proposal builds on: with the DAG in use and not
    /// empty, the tip with the smallest hash and its number; without the DAG,
    /// the head of the chain; otherwise the all-zero hash and no number.
    fn next_parent(&self) -> (r: ConsensusResult<(BlockHash, Option<u64>)>)
        requires
            self.wf(),
        ensures
            r is Ok,
            r->Ok_0.1 is None ==> r->Ok_0.0.0@.len() == 32,
            self.dag_on() ==> (r->Ok_0.1 is None <==> self.dag_spec().entries().len() == 0),
            !self.dag_on() ==> (r->Ok_0.1 is None <==> self.head_spec() is None),
            r->Ok_0.1 is None ==> is_null_hash(r->Ok_0.0.0@),
            !self.dag_on() && self.head_spec() is Some ==> r->Ok_0.0 == self.head_spec()->Some_0.0
                && r->Ok_0.1 == Some(self.head_spec()->Some_0.1),
            self.dag_on() && r->Ok_0.1 is Some ==> self.dag_spec().is_least_tip(r->Ok_0.0.0@) && exists|i: int|
                0 <= i < self.dag_spec().entries().len() && #[trigger] self.dag_spec().hash_at(i) == r->Ok_0.0.0@
                && self.dag_spec().entries()[i].header.number == r->Ok_0.1->Some_0,
    {
        if !self.dag_enabled {
            return match self.head {
                Some((h, n)) => Ok((h, Some(n))),
                None => Ok((zero_hash(), None)),
            };
        }
        if self.dag.len() == 0 {
            return Ok((zero_hash(), None));
        }
        let tips = self.dag.get_tips();
        proof {
            let n = self.dag.entries().len() as int;
            self.dag.lemma_last_is_tip();
            let k = choose|k: int| 0 <= k < tips@.len() && #[trigger] tips@[k].0@ == self.dag.hash_at(n - 1);
        }
        let parent = tips[0];
        proof {
            assert(self.dag.is_tip_hash(tips@[0].0@));
            assert forall|i: int| 0 <= i < self.dag.entries().len() && self.dag.is_tip(i) && self.dag.hash_at(i) != parent.0@
                implies lex_lt(parent.0@, #[trigger] self.dag.hash_at(i)) by {
                let k = choose|k: int| 0 <= k < tips@.len() && #[trigger] tips@[k].0@ == self.dag.hash_at(i);
                assert(k != 0);
                assert(lex_lt(tips@[0].0@, tips@[k].0@));
            }
            let j = choose|j: int| 0 <= j < self.dag.entries().len() && self.dag.is_tip(j) && #[trigger] self.dag.hash_at(j) == parent.0@;
            assert(self.dag.stores(parent.0@));
        }
        match self.dag.get_block(&parent) {
            Some(b) => Ok((parent, Some(b.header.number))),
            None => Ok((zero_hash(), None)),
        }
    }

    /// Builds the next block. Its parent is the tip with the smallest hash and
    /// its number one more than the parent's; with no tip (or no DAG) it is a
    /// genesis block: all-zero parent, number zero. Its proposer is the
    /// validator elected for the round, and it is stamped with a new clock tick
    /// when the clock is in use and with `wall_clock` otherwise. Fails with
    /// `NoActiveStake` when the current snapshot holds no active stake, and
    /// otherwise succeeds unless the clock or a block number is exhausted.
    pub fn propose_block(&mut self, transactions: Vec<Transaction>, wall_clock: u64) -> (r: ConsensusResult<Block>)
        requires
            old(self).wf(),
        ensures
            final(self).wf(),
            final(self).pos_spec() == old(self).pos_spec(),
            final(self).abft_spec() == old(self).abft_spec(),
            final(self).dag_spec() == old(self).dag_spec(),
            final(self).clock_on() == old(self).clock_on(),
            final(self).dag_on() == old(self).dag_on(),
            final(self).head_spec() == old(self).head_spec(),
            old(self).pos_spec().snapshot_spec().total() == 0 ==> r is Err && r->Err_0 is NoActiveStake,
            old(self).pos_spec().snapshot_spec().total() > 0
                && (old(self).clock_on() ==> old(self).poh_spec().count() < u64::MAX)
                && (old(self).dag_on() ==> forall|i: int| 0 <= i < old(self).dag_spec().entries().len()
                    ==> (#[trigger] old(self).dag_spec().entries()[i]).header.number < u64::MAX)
                && (!old(self).dag_on() && old(self).head_spec() is Some ==> old(self).head_spec()->Some_0.1 < u64::MAX)
                ==> r is Ok,
            r is Ok ==> {
                let b = r->Ok_0;
                let d = old(self).dag_spec();
                &&& b.transactions == transactions
                &&& is_elected(old(self).pos_spec(), b.header.proposer.0@, round_seed(b.header.parent_hash.0@))
                &&& old(self).dag_on() && d.entries().len() > 0 ==> d.is_least_tip(b.header.parent_hash.0@)
                    && exists|i: int| 0 <= i < d.entries().len() && #[trigger] d.hash_at(i) == b.header.parent_hash.0@
                        && b.header.number == d.entries()[i].header.number + 1
                &&& old(self).dag_on() && d.entries().len() == 0 ==> is_null_hash(b.header.parent_hash.0@)
                    && b.header.number == 0
                &&& !old(self).dag_on() && old(self).head_spec() is None ==> is_null_hash(b.header.parent_hash.0@)
                    && b.header.number == 0
                &&& !old(self).dag_on() && old(self).head_spec() is Some ==> {
                    let (hh, hn) = old(self).head_spec()->Some_0;
                    b.header.parent_hash == hh && b.header.number == hn + 1
                }
                &&& old(self).clock_on() ==> b.header.timestamp == old(self).poh_spec().count() + 1
                    && final(self).poh_spec().count() == old(self).poh_spec().count() + 1
                &&& !old(self).clock_on() ==> b.header.timestamp == wall_clock
            },
            r is Err || !old(self).clock_on() ==> final(self).poh_spec() == old(self).poh_spec(),
    {
        if self.pos.snapshot().total_stake() == 0 {
            return Err(ConsensusError::NoActiveStake);
        }
        let (parent, parent_number) = self.next_parent()?;
        let number: u64 = match parent_number {
            None => 0,
            Some(n) => {
                if n == u64::MAX {
                    return Err(ConsensusError::InvalidBlock(String::from_str("block number overflow")));
                }
                n + 1
            },
        };
        let seed = seed_for_parent(&parent);
        let selected = self.pos.select_proposer(seed);
        proof {
            let snap = self.pos.snapshot_spec();
            assert((seed % snap.total()) as nat == (seed as nat) % (snap.total() as nat));
        }
        let proposer = selected?;
        let timestamp: u64 = if self.poh_enabled {
            if self.poh.get_timestamp() == u64::MAX {
                return Err(ConsensusError::InvalidBlock(String::from_str("clock exhausted")));
            }
            self.poh.tick();
            self.poh.get_timestamp()
        } else {
            wall_clock
        };
        let header = BlockHeader {
            number,
            parent_hash: parent,
            timestamp,
            state_root: zero_hash(),
            transactions_root: zero_hash(),
            receipts_root: zero_hash(),
            proposer,
            extra_data: Vec::new(),
        };
        Ok(Block { header, transactions })
    }

    /// The structural, proposer and timestamp checks of an inbound block.
    pub open spec fn passes_checks(&self, block: Block) -> bool {
        &&& block.transactions@.len() > 0
        &&& is_elected(self.pos_spec(), block.header.proposer.0@, round_seed(block.header.parent_hash.0@))
        &&& self.clock_on() ==> block.header.timestamp as int <= self.poh_spec().count() as int + self.poh_spec().drift() as int
    }

    /// `proposer` is a member of the current snapshot whose stake is below the minimum.
    pub open spec fn low_stake_member(&self, proposer: Seq<u8>) -> bool {
        let snap = self.pos_spec().snapshot_spec();
        exists|j: int| 0 <= j < snap.members().len() && addr(#[trigger] snap.members()[j]) == proposer
            && snap.members()[j].stake < self.pos_spec().min_spec()
    }

    /// `e` is the error of the first check that `block` fails: `InvalidBlock`
    /// for no transactions, `NoActiveStake` when there is no stake to elect
    /// from, `InsufficientStake` for a proposer whose stake is below the
    /// minimum, `InvalidProposer` for another proposer than the elected one,
    /// and `InvalidBlock` for a timestamp too far ahead of the clock.
    pub open spec fn check_error(&self, block: Block, e: ConsensusError) -> bool {
        if block.transactions@.len() == 0 {
            e is InvalidBlock
        } else if self.pos_spec().snapshot_spec().total() == 0 {
            e is NoActiveStake
        } else if !is_elected(self.pos_spec(), block.header.proposer.0@, round_seed(block.header.parent_hash.0@)) {
            if self.low_stake_member(block.header.proposer.0@) { e is InsufficientStake } else { e is InvalidProposer }
        } else {
            e is InvalidBlock
        }
    }

    fn check_block(&self, block: &Block) -> (r: ConsensusResult<()>)
        requires
            self.wf(),
        ensures
            r is Ok <==> self.passes_checks(*block),
            r is Err ==> self.check_error(*block, r->Err_0),
    {
        if block.transactions.len() == 0 {
            return Err(ConsensusError::InvalidBlock(String::from_str("Empty block")));
        }
        let seed = seed_for_parent(&block.header.parent_hash);
        let checked = self.pos.validate_proposer(&block.header.proposer, seed);
        proof {
            let snap = self.pos.snapshot_spec();
            let target = (seed % snap.total()) as nat;
            if snap.total() > 0 {
                assert(target == (seed as nat) % (snap.total() as nat));
                let i = choose|i: int| elected(snap.members(), i, target) && {
                    let e = #[trigger] snap.members()[i];
                    &&& (checked is Ok <==> addr(e) == block.header.proposer.0@)
                    &&& checked is Err ==> (
                        if exists|j: int| 0 <= j < snap.members().len()
                            && addr(#[trigger] snap.members()[j]) == block.header.proposer.0@
                            && snap.members()[j].stake < self.pos.min_spec()
                        { checked->Err_0 is InsufficientStake } else { checked->Err_0 is InvalidProposer })
                };
                if is_elected(self.pos, block.header.proposer.0@, seed as nat) {
                    let k = choose|k: int| elected(snap.members(), k, target) && addr(#[trigger] snap.members()[k]) == block.header.proposer.0@;
                    crate::consensus::pos::lemma_elected_unique(snap.members(), i, k, target);
                } else {
                    assert(checked is Err);
                }
            }
        }
        checked?;
        if self.poh_enabled {
            self.poh.validate_timestamp(block.header.timestamp)?;
        }
        Ok(())
    }

    /// Whether `parent` is the head of the linear chain, or the all-zero hash
    /// while the chain is empty.
    fn parent_is_head(&self, parent: &BlockHash) -> (r: bool)
        ensures
            r == match self.head_spec() {
                None => is_null_hash(parent.0@),
                Some(h) => parent.0@ == h.0.0@,
            },
    {
        match &self.head {
            None => crate::consensus::dag::is_genesis_parent(parent),
            Some((h, _)) => crate::bytes::bytes_eq(parent.0.as_slice(), h.0.as_slice()),
        }
    }

    /// Validates an inbound block: it must carry transactions, be proposed by
    /// the validator elected for its round, bear a timestamp within the clock's
    /// drift tolerance and fit into the DAG, or without the DAG extend the
    /// linear chain, whose head it then becomes. The finality
    /// gadget moves it to `Voting` if all holds and to `Rejected` otherwise,
    /// and the error of the failed check is returned. A block the gadget has
    /// seen before fails with `DuplicateBlock`, changing nothing.
    pub fn validate_block(&mut self, block: Block) -> (r: ConsensusResult<()>)
        requires
            old(self).wf(),
        ensures
            final(self).wf(),
            final(self).pos_spec() == old(self).pos_spec(),
            final(self).poh_spec() == old(self).poh_spec(),
            final(self).clock_on() == old(self).clock_on(),
            final(self).dag_on() == old(self).dag_on(),
            r is Err ==> final(self).dag_spec() == old(self).dag_spec(),
            r is Err || old(self).dag_on() ==> final(self).head_spec() == old(self).head_spec(),
            r is Ok && !old(self).dag_on() ==> final(self).head_spec()
                == Some((BlockHash(final(self).head_spec()->Some_0.0.0), block.header.number))
                && final(self).head_spec()->Some_0.0.0@ == hash_of(block),
            old(self).abft_spec().tracks(hash_of(block)) ==> r is Err && r->Err_0 is DuplicateBlock
                && *final(self) == *old(self),
            r is Ok ==> old(self).passes_checks(block),
            !old(self).abft_spec().tracks(hash_of(block)) && !old(self).passes_checks(block)
                ==> r is Err && old(self).check_error(block, r->Err_0),
            !old(self).abft_spec().tracks(hash_of(block)) && old(self).passes_checks(block) ==> {
                let d = old(self).dag_spec();
                let h = hash_of(block);
                let p = parent_of(block);
                &&& !old(self).dag_on() ==> (r is Ok <==> old(self).extends_head(block))
                &&& !old(self).dag_on() && !old(self).extends_head(block) ==> r is Err && r->Err_0 is UnknownParent
                &&& old(self).dag_on() && d.entries().len() == usize::MAX ==> r is Err && r->Err_0 is InvalidBlock
                &&& old(self).dag_on() && d.entries().len() < usize::MAX && d.stores(h) ==> (
                    r is Ok <==> exists|i: int| 0 <= i < d.entries().len() && #[trigger] d.hash_at(i) == h
                        && same_block(d.entries()[i], block))
                &&& old(self).dag_on() && d.entries().len() < usize::MAX && d.stores(h) && r is Err
                    ==> r->Err_0 is DuplicateBlock
                &&& old(self).dag_on() && d.entries().len() < usize::MAX && !d.stores(h) && !is_null_hash(p) && !d.stores(p)
                    ==> r is Err && r->Err_0 is UnknownParent
                &&& old(self).dag_on() && d.entries().len() < usize::MAX && !d.stores(h) && (is_null_hash(p) || d.stores(p))
                    ==> r is Ok && final(self).dag_spec().entries() == d.entries().push(block)
            },
            r is Ok && old(self).dag_on() ==> final(self).dag_spec().stores(hash_of(block)),
            !old(self).abft_spec().tracks(hash_of(block)) ==> final(self).abft_spec().tracks(hash_of(block))
                && final(self).abft_spec().rounds().last().status
                    == if r is Ok { BlockStatus::Voting } else { BlockStatus::Rejected },
    {
        let hash = block.hash();
        if self.abft.status(&hash) != BlockStatus::Proposed {
            return Err(ConsensusError::DuplicateBlock);
        }
        let checked = self.check_block(&block);
        let number = block.header.number;
        let outcome = match checked {
            Ok(()) => {
                if self.dag_enabled {
                    if self.dag.len() == usize::MAX {
                        Err(ConsensusError::InvalidBlock(String::from_str("DAG is full")))
                    } else {
                        let ghost old_dag = self.dag;
                        let ghost h = hash_of(block);
                        let added = self.dag.add_block(block);
                        proof {
                            if added is Ok {
                                if old_dag.stores(h) {
                                    let i = choose|i: int| 0 <= i < old_dag.entries().len() && #[trigger] old_dag.hash_at(i) == h;
                                    assert(self.dag.hash_at(i) == h);
                                } else {
                                    let n = old_dag.entries().len() as int;
                                    assert(self.dag.entries()[n] == block);
                                    assert(self.dag.hash_at(n) == h);
                                }
                            }
                        }
                        added
                    }
                } else if self.parent_is_head(&block.header.parent_hash) {
                    Ok(())
                } else {
                    Err(ConsensusError::UnknownParent)
                }
            },
            Err(e) => Err(e),
        };
        let r = self.abft.validate(&hash, outcome);
        proof {
            let rs = self.abft.rounds();
            assert(rs[rs.len() - 1].hash.0@ == hash.0@);
        }
        if r.is_ok() && !self.dag_enabled {
            self.head = Some((hash, number));
        }
        r
    }

    /// Records a vote for a block, counted against the current epoch's
    /// snapshot, as `AsyncBFT::record_vote` does.
    pub fn record_vote(&mut self, h: &BlockHash, voter: &Address, signature_valid: bool) -> (r: ConsensusResult<BlockStatus>)
        requires
            old(self).wf(),
        ensures
            final(self).wf(),
            final(self).pos_spec() == old(self).pos_spec(),
            final(self).poh_spec() == old(self).poh_spec(),
            final(self).dag_spec() == old(self).dag_spec(),
            final(self).clock_on() == old(self).clock_on(),
            final(self).dag_on() == old(self).dag_on(),
            final(self).head_spec() == old(self).head_spec(),
            vote_effect(old(self).abft_spec(), final(self).abft_spec(), h.0@, voter.0@, signature_valid,
                old(self).pos_spec().snapshot_spec(), r),
    {
        self.abft.record_vote(h, voter, signature_valid, self.pos.snapshot())
    }

    /// Finalizes a block that the gadget has certified; fails with
    /// `InvalidBlock` for any other block.
    pub fn finalize_block(&mut self, h: &BlockHash) -> (r: ConsensusResult<()>)
        requires
            old(self).wf(),
        ensures
            final(self).wf(),
            final(self).pos_spec() == old(self).pos_spec(),
            final(self).poh_spec() == old(self).poh_spec(),
            final(self).dag_spec() == old(self).dag_spec(),
            final(self).clock_on() == old(self).clock_on(),
            final(self).dag_on() == old(self).dag_on(),
            final(self).head_spec() == old(self).head_spec(),
            r is Err ==> final(self).abft_spec().rounds() == old(self).abft_spec().rounds(),
            !old(self).abft_spec().tracks(h.0@) ==> r is Err,
            forall|i: int| 0 <= i < old(self).abft_spec().rounds().len()
                && (#[trigger] old(self).abft_spec().rounds()[i]).hash.0@ == h.0@ ==> (r is Ok <==>
                    old(self).abft_spec().rounds()[i].status == BlockStatus::Certified
                    || old(self).abft_spec().rounds()[i].status == BlockStatus::Finalized),
    {
        self.abft.finalize(h)
    }

    /// Whether `local` is the proposer elected for the next round; fails with
    /// `NoActiveStake` when the current snapshot holds no active stake.
    pub fn is_proposer(&self, local: &Address) -> (r: ConsensusResult<bool>)
        requires
            self.wf(),
        ensures
            self.pos_spec().snapshot_spec().total() == 0 ==> r is Err && r->Err_0 is NoActiveStake,
            self.pos_spec().snapshot_spec().total() > 0 ==> r is Ok,
            r is Ok ==> exists|parent: Seq<u8>|
                (is_null_hash(parent) || (self.dag_on() && self.dag_spec().is_least_tip(parent))
                    || (!self.dag_on() && self.head_spec() is Some && parent == self.head_spec()->Some_0.0.0@))
                && parent.len() >= 16
                && r->Ok_0 == #[trigger] is_elected(self.pos_spec(), local.0@, round_seed(parent)),
    {
        if self.pos.snapshot().total_stake() == 0 {
            return Err(ConsensusError::NoActiveStake);
        }
        let (parent, _) = self.next_parent()?;
        let seed = seed_for_parent(&parent);
        let r = self.pos.is_proposer(local, seed);
        proof {
            let snap = self.pos.snapshot_spec();
            let target = (seed % snap.total()) as nat;
            assert(target == (seed as nat) % (snap.total() as nat));
            let i = choose|i: int| elected(snap.members(), i, target)
                && r == Ok::<bool, ConsensusError>(addr(#[trigger] snap.members()[i]) == local.0@);
            if is_elected(self.pos, local.0@, seed as nat) {
                let k = choose|k: int| elected(snap.members(), k, target) && addr(#[trigger] snap.members()[k]) == local.0@;
                crate::consensus::pos::lemma_elected_unique(snap.members(), i, k, target);
            }
            assert(r->Ok_0 == is_elected(self.pos, local.0@, round_seed(parent.0@)));
        }
        r
    }
}

} // verus!
