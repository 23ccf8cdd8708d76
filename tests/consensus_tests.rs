use quantum_consensus::config::{ChainConfig, ConsensusConfig};
use quantum_consensus::consensus::abft::{AsyncBFT, BlockStatus};
use quantum_consensus::consensus::dag::{is_genesis_parent, DagStructure};
use quantum_consensus::consensus::poh::ProofOfHistory;
use quantum_consensus::consensus::pos::ProofOfStake;
use quantum_consensus::consensus::{seed_for_parent, ConsensusError, HybridConsensus, Validator};
use quantum_consensus::storage::state::StateManager;
use quantum_consensus::types::{encode, Account, Address, Block, BlockHash, BlockHeader, PublicKey, Signature, Transaction};
use quantum_consensus::VERSION;

fn validator(byte: u8, stake: u128) -> Validator {
    Validator {
        address: Address([byte; 20]),
        stake,
        public_key: PublicKey([2; 32]),
        reputation: 100,
        is_active: true,
    }
}

fn small_config() -> ConsensusConfig {
    let mut config = ConsensusConfig::default();
    config.min_validator_stake = 32;
    config
}

fn header(number: u64, parent: BlockHash, timestamp: u64, proposer: Address, extra: Vec<u8>) -> BlockHeader {
    BlockHeader {
        number,
        parent_hash: parent,
        timestamp,
        state_root: BlockHash([0; 32]),
        transactions_root: BlockHash([0; 32]),
        receipts_root: BlockHash([0; 32]),
        proposer,
        extra_data: extra,
    }
}

fn transfer(nonce: u64) -> Transaction {
    Transaction {
        from: Address([7; 20]),
        to: Some(Address([8; 20])),
        value: 10,
        data: vec![1, 2, 3],
        gas_limit: 21_000,
        gas_price: 1,
        nonce,
        signature: Signature([0; 64]),
    }
}

fn block(number: u64, parent: BlockHash, extra: Vec<u8>) -> Block {
    Block { header: header(number, parent, 1000, Address([0; 20]), extra), transactions: vec![] }
}

#[test]
fn test_dag_add_block() {
    let mut dag = DagStructure::new();
    let block = Block {
        header: BlockHeader {
            number: 1,
            parent_hash: BlockHash([0; 32]),
            timestamp: 1000,
            state_root: BlockHash([0; 32]),
            transactions_root: BlockHash([0; 32]),
            receipts_root: BlockHash([0; 32]),
            proposer: Address([0; 20]),
            extra_data: vec![],
        },
        transactions: vec![],
    };
    assert!(dag.add_block(block).is_ok());
}

#[test]
fn test_consensus_creation() {
    let config = ConsensusConfig::default();
    let consensus = HybridConsensus::new(config);
    assert!(consensus.has_clock());
    assert!(consensus.has_dag());
}

#[test]
fn test_poh_ticking() {
    let mut poh = ProofOfHistory::new();
    let hash1 = poh.tick();
    let hash2 = poh.tick();
    assert_ne!(hash1, hash2);
    assert_eq!(poh.get_timestamp(), 2);
}

#[test]
fn test_add_validator() {
    let config = ConsensusConfig::default();
    let mut pos = ProofOfStake::new(&config);
    let validator = Validator {
        address: Address([1; 20]),
        stake: 32_000_000_000_000_000_000,
        public_key: PublicKey([2; 32]),
        reputation: 100,
        is_active: true,
    };
    assert!(pos.add_validator(validator).is_ok());
}

#[test]
fn test_insufficient_stake() {
    let config = ConsensusConfig::default();
    let mut pos = ProofOfStake::new(&config);
    let validator = Validator {
        address: Address([1; 20]),
        stake: 1_000,
        public_key: PublicKey([2; 32]),
        reputation: 100,
        is_active: true,
    };
    assert!(pos.add_validator(validator).is_err());
}

#[test]
fn test_version() {
    assert!(!VERSION.is_empty());
}

#[test]
fn registry_full_and_overwrite() {
    let mut config = small_config();
    config.max_validators = 2;
    let mut pos = ProofOfStake::new(&config);
    assert!(pos.add_validator(validator(3, 40)).is_ok());
    assert!(pos.add_validator(validator(1, 50)).is_ok());
    assert!(matches!(pos.add_validator(validator(2, 50)), Err(ConsensusError::RegistryFull)));
    let vs = pos.get_validators();
    assert_eq!(vs.len(), 2);
    assert_eq!(vs[0].address, Address([1; 20]));
    assert_eq!(vs[1].address, Address([3; 20]));
    assert!(matches!(pos.remove_validator(&Address([1; 20])), Ok(())));
    assert!(pos.add_validator(validator(3, 99)).is_ok());
    let vs = pos.get_validators();
    assert_eq!(vs.len(), 1);
    assert_eq!(vs[0].stake, 99);
    assert!(matches!(pos.remove_validator(&Address([9; 20])), Err(ConsensusError::ValidatorNotFound)));
}

#[test]
fn slash_scenario_thousand_at_five_percent() {
    let mut pos = ProofOfStake::new(&small_config());
    pos.add_validator(validator(1, 1000)).unwrap();
    pos.slash_validator(&Address([1; 20])).unwrap();
    assert_eq!(pos.get_validators()[0].stake, 950);
    pos.slash_validator(&Address([1; 20])).unwrap();
    // floor(950 * 5 / 100) = 47
    assert_eq!(pos.get_validators()[0].stake, 903);
    for _ in 0..200 {
        pos.slash_validator(&Address([1; 20])).unwrap();
    }
    let v = pos.get_validators()[0];
    assert!(v.stake < 32);
    assert!(!v.is_active);
    assert!(matches!(pos.slash_validator(&Address([5; 20])), Err(ConsensusError::ValidatorNotFound)));
}

#[test]
fn slash_deactivates_below_minimum() {
    let mut pos = ProofOfStake::new(&small_config());
    pos.add_validator(validator(1, 33)).unwrap();
    pos.slash_validator(&Address([1; 20])).unwrap();
    // floor(33 * 5 / 100) = 1, leaving 32: still the minimum
    assert_eq!(pos.get_validators()[0].stake, 32);
    assert!(pos.get_validators()[0].is_active);
    pos.slash_validator(&Address([1; 20])).unwrap();
    assert_eq!(pos.get_validators()[0].stake, 31);
    assert!(!pos.get_validators()[0].is_active);
}

#[test]
fn slash_full_percentage_never_underflows() {
    let mut config = small_config();
    config.slashing_percentage = 200;
    let mut pos = ProofOfStake::new(&config);
    pos.add_validator(validator(1, 1000)).unwrap();
    pos.slash_validator(&Address([1; 20])).unwrap();
    assert_eq!(pos.get_validators()[0].stake, 0);
}

#[test]
fn election_needs_active_stake() {
    let mut pos = ProofOfStake::new(&small_config());
    assert!(matches!(pos.select_proposer(7), Err(ConsensusError::NoActiveStake)));
    pos.add_validator(validator(1, 100)).unwrap();
    // the snapshot of epoch zero is still empty
    assert!(matches!(pos.select_proposer(7), Err(ConsensusError::NoActiveStake)));
    pos.next_epoch();
    assert_eq!(pos.current_epoch(), 1);
    assert_eq!(pos.snapshot().total_stake(), 100);
    assert_eq!(pos.select_proposer(7).unwrap(), Address([1; 20]));
}

#[test]
fn election_is_stake_weighted_by_address() {
    let mut pos = ProofOfStake::new(&small_config());
    pos.add_validator(validator(2, 300)).unwrap();
    pos.add_validator(validator(1, 100)).unwrap();
    pos.next_epoch();
    // intervals by ascending address: [0, 100) for 1, [100, 400) for 2
    assert_eq!(pos.select_proposer(0).unwrap(), Address([1; 20]));
    assert_eq!(pos.select_proposer(99).unwrap(), Address([1; 20]));
    assert_eq!(pos.select_proposer(100).unwrap(), Address([2; 20]));
    assert_eq!(pos.select_proposer(399).unwrap(), Address([2; 20]));
    assert_eq!(pos.select_proposer(400).unwrap(), Address([1; 20]));
    assert!(pos.validate_proposer(&Address([2; 20]), 150).is_ok());
    assert!(matches!(pos.validate_proposer(&Address([1; 20]), 150), Err(ConsensusError::InvalidProposer)));
    assert!(pos.is_proposer(&Address([1; 20]), 50).unwrap());
    assert!(!pos.is_proposer(&Address([1; 20]), 150).unwrap());
}

#[test]
fn election_skips_inactive_and_low_stake() {
    let mut pos = ProofOfStake::new(&small_config());
    pos.add_validator(validator(1, 33)).unwrap();
    pos.add_validator(validator(2, 1000)).unwrap();
    pos.slash_validator(&Address([1; 20])).unwrap();
    pos.slash_validator(&Address([1; 20])).unwrap();
    pos.next_epoch();
    assert_eq!(pos.snapshot().total_stake(), 1000);
    for seed in 0..2000u128 {
        assert_eq!(pos.select_proposer(seed).unwrap(), Address([2; 20]));
    }
    assert!(matches!(pos.validate_proposer(&Address([1; 20]), 0), Err(ConsensusError::InsufficientStake)));
}

#[test]
fn snapshot_is_frozen_until_next_epoch() {
    let mut pos = ProofOfStake::new(&small_config());
    pos.add_validator(validator(1, 100)).unwrap();
    pos.next_epoch();
    pos.add_validator(validator(2, 900)).unwrap();
    assert_eq!(pos.snapshot().total_stake(), 100);
    assert_eq!(pos.select_proposer(500).unwrap(), Address([1; 20]));
    pos.next_epoch();
    assert_eq!(pos.snapshot().total_stake(), 1000);
    assert_eq!(pos.select_proposer(500).unwrap(), Address([2; 20]));
}

#[test]
fn clock_ticks_and_drift() {
    let mut poh = ProofOfHistory::new();
    assert_eq!(poh.get_current_hash(), [0; 32]);
    let mut seen: Vec<[u8; 32]> = vec![poh.get_current_hash()];
    for k in 1..=20u64 {
        let h = poh.tick();
        assert_eq!(poh.get_timestamp(), k);
        assert_eq!(poh.get_current_hash(), h);
        assert!(!seen.contains(&h));
        seen.push(h);
    }
    assert!(poh.validate_timestamp(0).is_ok());
    assert!(poh.validate_timestamp(1020).is_ok());
    assert!(matches!(poh.validate_timestamp(1021), Err(ConsensusError::InvalidBlock(_))));
    assert!(poh.validate_timestamp(u64::MAX).is_err());
}

#[test]
fn clock_is_deterministic() {
    let mut a = ProofOfHistory::new();
    let mut b = ProofOfHistory::default();
    for _ in 0..5 {
        assert_eq!(a.tick(), b.tick());
    }
}

#[test]
fn dag_unknown_parent_and_duplicates() {
    let mut dag = DagStructure::new();
    let genesis = block(0, BlockHash([0; 32]), vec![]);
    let g = genesis.hash();
    assert!(dag.add_block(genesis).is_ok());
    let orphan = block(1, BlockHash([9; 32]), vec![]);
    assert!(matches!(dag.add_block(orphan), Err(ConsensusError::UnknownParent)));
    assert_eq!(dag.len(), 1);
    let child = block(1, g, vec![]);
    assert!(dag.add_block(child.clone()).is_ok());
    assert!(dag.add_block(child.clone()).is_ok());
    assert_eq!(dag.len(), 2);
    let mut other = child.clone();
    other.transactions.push(transfer(1));
    assert_eq!(other.hash(), child.hash());
    assert!(matches!(dag.add_block(other), Err(ConsensusError::DuplicateBlock)));
    assert_eq!(dag.len(), 2);
    assert!(dag.get_block(&child.hash()).is_some());
    assert!(dag.get_block(&BlockHash([5; 32])).is_none());
    assert!(is_genesis_parent(&BlockHash([0; 32])));
    assert!(!is_genesis_parent(&g));
}

#[test]
fn dag_fork_tips_and_order() {
    let mut dag = DagStructure::new();
    let genesis = block(0, BlockHash([0; 32]), vec![]);
    let g = genesis.hash();
    dag.add_block(genesis).unwrap();
    let b1 = block(1, g, vec![1]);
    let b2 = block(1, g, vec![2]);
    let (h1, h2) = (b1.hash(), b2.hash());
    dag.add_block(b2).unwrap();
    dag.add_block(b1).unwrap();
    let (lo, hi) = if h1.0 < h2.0 { (h1, h2) } else { (h2, h1) };
    assert_eq!(dag.get_tips(), vec![lo, hi]);
    let order = dag.topological_sort();
    assert_eq!(order, vec![g, lo, hi]);
    assert_eq!(dag.topological_sort(), order);
}

#[test]
fn dag_order_is_a_linear_extension() {
    let mut dag = DagStructure::new();
    let genesis = block(0, BlockHash([0; 32]), vec![]);
    let mut parents = vec![genesis.hash()];
    dag.add_block(genesis).unwrap();
    for i in 1..12u8 {
        let parent = parents[(i as usize * 7) % parents.len()];
        let b = block(i as u64, parent, vec![i]);
        parents.push(b.hash());
        dag.add_block(b).unwrap();
    }
    let order = dag.topological_sort();
    assert_eq!(order.len(), 12);
    for h in &parents {
        let pos = order.iter().position(|x| x == h).unwrap();
        let b = dag.get_block(h).unwrap();
        if !is_genesis_parent(&b.header.parent_hash) {
            let ppos = order.iter().position(|x| *x == b.header.parent_hash).unwrap();
            assert!(ppos < pos);
        }
    }
    let tips = dag.get_tips();
    for w in tips.windows(2) {
        assert!(w[0].0 < w[1].0);
    }
}

#[test]
fn block_hash_ignores_transactions() {
    let mut b = block(3, BlockHash([4; 32]), vec![9, 9]);
    let before = b.hash();
    b.transactions.push(transfer(0));
    assert_eq!(b.hash(), before);
    b.header.timestamp += 1;
    assert_ne!(b.hash(), before);
}

#[test]
fn header_encoding_layout() {
    let h = header(0x0102, BlockHash([0xaa; 32]), 7, Address([0xbb; 20]), vec![5, 6]);
    let bytes = h.encode_bytes();
    assert_eq!(bytes.len(), 8 + 32 + 8 + 32 * 3 + 20 + 8 + 2);
    assert_eq!(&bytes[0..8], &[2, 1, 0, 0, 0, 0, 0, 0]);
    assert_eq!(&bytes[8..40], &[0xaa; 32]);
    assert_eq!(bytes[40], 7);
    assert_eq!(&bytes[144..164], &[0xbb; 20]);
    assert_eq!(&bytes[164..172], &[2, 0, 0, 0, 0, 0, 0, 0]);
    assert_eq!(&bytes[172..], &[5, 6]);
}

#[test]
fn block_hash_is_blake3_of_header_bytes() {
    let b = block(1, BlockHash([3; 32]), vec![4]);
    let expected: [u8; 32] = blake3::hash(&b.header.encode_bytes()).into();
    assert_eq!(b.hash().0, expected);
}

#[test]
fn hex_encoding() {
    assert_eq!(encode(&[0x00, 0x0f, 0xa5, 0xff]), "000fa5ff");
    assert_eq!(encode(&[]), "");
    assert_eq!(Address([0xab; 20]).to_hex(), format!("0x{}", "ab".repeat(20)));
    assert_eq!(BlockHash([1; 32]).to_hex().len(), 66);
}

#[test]
fn seed_reads_sixteen_bytes_little_endian() {
    let mut h = [0u8; 32];
    h[0] = 1;
    h[1] = 2;
    h[15] = 0x80;
    h[16] = 0xff;
    assert_eq!(seed_for_parent(&BlockHash(h)), (0x80u128 << 120) | 0x0201);
}

fn certify_setup(stakes: &[u128]) -> (AsyncBFT, ProofOfStake, BlockHash) {
    let mut pos = ProofOfStake::new(&small_config());
    for (i, s) in stakes.iter().enumerate() {
        pos.add_validator(validator(i as u8 + 1, *s)).unwrap();
    }
    pos.next_epoch();
    let mut bft = AsyncBFT::new();
    let h = BlockHash([0x11; 32]);
    assert!(bft.validate(&h, Ok(())).is_ok());
    (bft, pos, h)
}

#[test]
fn quorum_exactly_two_thirds_is_not_enough() {
    let (mut bft, pos, h) = certify_setup(&[32, 32, 32]);
    let snap = pos.snapshot();
    assert_eq!(bft.record_vote(&h, &Address([1; 20]), true, snap).unwrap(), BlockStatus::Voting);
    // 64 of 96 is exactly two thirds
    assert_eq!(bft.record_vote(&h, &Address([2; 20]), true, snap).unwrap(), BlockStatus::Voting);
    assert!(bft.round(&h).unwrap().certificate.is_none());
    assert_eq!(bft.record_vote(&h, &Address([3; 20]), true, snap).unwrap(), BlockStatus::Certified);
    let cert = bft.round(&h).unwrap().certificate.as_ref().unwrap();
    assert_eq!(cert.signed_stake(), 96);
    assert_eq!(cert.total_stake(), 96);
    assert_eq!(cert.signers().len(), 3);
    assert_eq!(cert.block_hash(), h);
    assert_eq!(cert.epoch(), 1);
}

#[test]
fn quorum_counts_distinct_signers_only() {
    let (mut bft, pos, h) = certify_setup(&[32, 32, 32]);
    let snap = pos.snapshot();
    bft.record_vote(&h, &Address([1; 20]), true, snap).unwrap();
    assert!(matches!(bft.record_vote(&h, &Address([1; 20]), true, snap), Err(ConsensusError::DuplicateVote)));
    assert!(matches!(bft.record_vote(&h, &Address([2; 20]), false, snap), Err(ConsensusError::InvalidSignature)));
    assert!(matches!(bft.record_vote(&h, &Address([9; 20]), true, snap), Err(ConsensusError::ValidatorNotFound)));
    assert_eq!(bft.status(&h), BlockStatus::Voting);
    assert_eq!(bft.round(&h).unwrap().voters.len(), 1);
    assert!(matches!(bft.record_vote(&BlockHash([0x22; 32]), &Address([1; 20]), true, snap), Err(ConsensusError::InvalidBlock(_))));
}

#[test]
fn finality_state_machine() {
    let (mut bft, pos, h) = certify_setup(&[32, 32, 32, 32]);
    let snap = pos.snapshot();
    assert!(matches!(bft.finalize(&h), Err(ConsensusError::InvalidBlock(_))));
    for i in 1..=3u8 {
        bft.record_vote(&h, &Address([i; 20]), true, snap).unwrap();
    }
    assert_eq!(bft.status(&h), BlockStatus::Certified);
    assert!(bft.finalize(&h).is_ok());
    assert_eq!(bft.status(&h), BlockStatus::Finalized);
    assert!(bft.finalize(&h).is_ok());
    assert!(matches!(bft.validate(&h, Ok(())), Err(ConsensusError::DuplicateBlock)));
    let bad = BlockHash([0x33; 32]);
    assert!(matches!(bft.validate(&bad, Err(ConsensusError::InvalidProposer)), Err(ConsensusError::InvalidProposer)));
    assert_eq!(bft.status(&bad), BlockStatus::Rejected);
    assert!(matches!(bft.record_vote(&bad, &Address([1; 20]), true, snap), Err(ConsensusError::InvalidBlock(_))));
    assert_eq!(bft.status(&BlockHash([0x44; 32])), BlockStatus::Proposed);
}

#[test]
fn timeout_discards_votes() {
    let (mut bft, pos, h) = certify_setup(&[32, 32, 32]);
    bft.record_vote(&h, &Address([1; 20]), true, pos.snapshot()).unwrap();
    assert!(matches!(bft.timeout(&h), Err(ConsensusError::Timeout)));
    assert_eq!(bft.status(&h), BlockStatus::Proposed);
    assert!(bft.validate(&h, Ok(())).is_ok());
    assert_eq!(bft.round(&h).unwrap().voters.len(), 0);
}

#[test]
fn end_to_end_four_equal_validators() {
    let mut engine = HybridConsensus::new(small_config());
    for i in 1..=4u8 {
        engine.add_validator(validator(i, 32)).unwrap();
    }
    engine.next_epoch();
    assert_eq!(engine.get_validators().len(), 4);
    let block = engine.propose_block(vec![transfer(0)], 0).unwrap();
    assert_eq!(block.header.timestamp, 1);
    assert_eq!(block.header.number, 0);
    let proposer = block.header.proposer;
    let hash = block.hash();
    assert!(engine.validate_block(block.clone()).is_ok());
    assert!(matches!(engine.validate_block(block), Err(ConsensusError::DuplicateBlock)));
    assert_eq!(engine.finality().status(&hash), BlockStatus::Voting);
    let mut others: Vec<Address> = (1..=4u8).map(|i| Address([i; 20])).filter(|a| *a != proposer).collect();
    let last = others.pop().unwrap();
    assert_eq!(engine.record_vote(&hash, &proposer, true).unwrap(), BlockStatus::Voting);
    assert_eq!(engine.record_vote(&hash, &others[0], true).unwrap(), BlockStatus::Voting);
    assert!(matches!(engine.finalize_block(&hash), Err(ConsensusError::InvalidBlock(_))));
    assert_eq!(engine.record_vote(&hash, &others[1], true).unwrap(), BlockStatus::Certified);
    assert_eq!(engine.record_vote(&hash, &last, true).unwrap(), BlockStatus::Certified);
    assert!(engine.finalize_block(&hash).is_ok());
    assert_eq!(engine.finality().status(&hash), BlockStatus::Finalized);
    assert_eq!(engine.dag().get_tips(), vec![hash]);

    let next = engine.propose_block(vec![transfer(1)], 0).unwrap();
    assert_eq!(next.header.parent_hash, hash);
    assert_eq!(next.header.number, 1);
    assert_eq!(next.header.timestamp, 2);
    assert!(engine.is_proposer(&next.header.proposer).unwrap());
}

#[test]
fn end_to_end_rejections() {
    let mut engine = HybridConsensus::new(small_config());
    assert!(matches!(engine.propose_block(vec![transfer(0)], 0), Err(ConsensusError::NoActiveStake)));
    engine.add_validator(validator(1, 32)).unwrap();
    engine.next_epoch();
    let mut empty = engine.propose_block(vec![transfer(0)], 0).unwrap();
    empty.transactions.clear();
    let h = empty.hash();
    assert!(matches!(engine.validate_block(empty), Err(ConsensusError::InvalidBlock(_))));
    assert_eq!(engine.finality().status(&h), BlockStatus::Rejected);
    let mut future = engine.propose_block(vec![transfer(0)], 0).unwrap();
    future.header.timestamp = 5000;
    assert!(matches!(engine.validate_block(future), Err(ConsensusError::InvalidBlock(_))));
    let mut forged = engine.propose_block(vec![transfer(0)], 0).unwrap();
    forged.header.proposer = Address([9; 20]);
    assert!(matches!(engine.validate_block(forged), Err(ConsensusError::InvalidProposer)));
    let mut orphan = engine.propose_block(vec![transfer(0)], 0).unwrap();
    orphan.header.parent_hash = BlockHash([0xee; 32]);
    orphan.header.proposer = Address([1; 20]);
    assert!(matches!(engine.validate_block(orphan), Err(ConsensusError::UnknownParent)));
}

#[test]
fn engine_without_clock_uses_wall_clock() {
    let mut config = small_config();
    config.enable_poh = false;
    config.enable_dag = false;
    let mut engine = HybridConsensus::new(config);
    assert!(!engine.has_clock());
    assert!(!engine.has_dag());
    engine.add_validator(validator(1, 32)).unwrap();
    engine.next_epoch();
    let b = engine.propose_block(vec![transfer(0)], 1_700_000_000).unwrap();
    assert_eq!(b.header.timestamp, 1_700_000_000);
    assert_eq!(b.header.parent_hash, BlockHash([0; 32]));
    let first = b.hash();
    assert!(engine.validate_block(b).is_ok());
    assert_eq!(engine.dag().len(), 0);
    let next = engine.propose_block(vec![transfer(1)], 1_700_000_002).unwrap();
    assert_eq!(next.header.parent_hash, first);
    assert_eq!(next.header.number, 1);
    let mut stale = next.clone();
    stale.header.parent_hash = BlockHash([0; 32]);
    stale.header.extra_data = vec![1];
    assert!(matches!(engine.validate_block(stale), Err(ConsensusError::UnknownParent)));
    assert!(engine.validate_block(next.clone()).is_ok());
    let third = engine.propose_block(vec![transfer(2)], 1_700_000_004).unwrap();
    assert_eq!(third.header.parent_hash, next.hash());
    assert_eq!(third.header.number, 2);
}

#[test]
fn registry_capacity_counts_active_validators() {
    let mut config = small_config();
    config.max_validators = 2;
    let mut pos = ProofOfStake::new(&config);
    pos.add_validator(validator(1, 33)).unwrap();
    pos.add_validator(validator(2, 100)).unwrap();
    assert!(matches!(pos.add_validator(validator(3, 100)), Err(ConsensusError::RegistryFull)));
    pos.slash_validator(&Address([1; 20])).unwrap();
    pos.slash_validator(&Address([1; 20])).unwrap();
    assert!(!pos.get_validators()[0].is_active);
    assert!(pos.add_validator(validator(3, 100)).is_ok());
    assert_eq!(pos.get_validators().len(), 3);
    assert!(matches!(pos.add_validator(validator(4, 100)), Err(ConsensusError::RegistryFull)));
}

#[test]
fn validate_block_names_the_failed_check() {
    let mut config = small_config();
    config.enable_poh = false;
    let mut engine = HybridConsensus::new(config);
    let no_stake = Block { header: header(0, BlockHash([0; 32]), 1, Address([1; 20]), vec![]), transactions: vec![transfer(0)] };
    assert!(matches!(engine.validate_block(no_stake), Err(ConsensusError::NoActiveStake)));
    engine.add_validator(validator(1, 100)).unwrap();
    engine.next_epoch();
    let good = engine.propose_block(vec![transfer(0)], 5).unwrap();
    let mut forged = good.clone();
    forged.header.proposer = Address([2; 20]);
    assert!(matches!(engine.validate_block(forged), Err(ConsensusError::InvalidProposer)));
    let mut empty = good.clone();
    empty.transactions.clear();
    empty.header.extra_data = vec![7];
    assert!(matches!(engine.validate_block(empty), Err(ConsensusError::InvalidBlock(_))));
    assert_eq!(engine.dag().len(), 0);
    assert!(engine.validate_block(good).is_ok());
    assert_eq!(engine.dag().len(), 1);
}

#[test]
fn state_read_after_write() {
    let mut state = StateManager::new();
    assert!(state.get_account(&Address([1; 20])).is_none());
    let mut acc = Account::default();
    acc.balance = 5;
    state.set_account(Address([1; 20]), acc);
    acc.balance = 9;
    state.set_account(Address([2; 20]), acc);
    assert_eq!(state.get_account(&Address([1; 20])).unwrap().balance, 5);
    acc.balance = 7;
    state.set_account(Address([1; 20]), acc);
    assert_eq!(state.get_account(&Address([1; 20])).unwrap().balance, 7);
    assert_eq!(state.get_account(&Address([2; 20])).unwrap().balance, 9);
}

#[test]
fn default_configs() {
    let c = ChainConfig::default();
    assert_eq!(c.chain_id, 1);
    assert_eq!(c.consensus.min_validator_stake, 32_000_000_000_000_000_000);
    assert_eq!(c.consensus.max_validators, 1000);
    assert_eq!(c.consensus.slashing_percentage, 5);
    assert_eq!(c.consensus.block_time, std::time::Duration::from_secs(2));
    assert_eq!(c.network.listen_addr, "/ip4/0.0.0.0/tcp/30333");
    assert_eq!(c.storage.db_path, "./data");
    assert_eq!(c.vm.max_gas_per_block, 30_000_000);
}

#[test]
fn clock_tick_is_sha3_of_previous_hash() {
    let mut poh = ProofOfHistory::new();
    let first = poh.tick();
    let expected: [u8; 32] = <sha3::Sha3_256 as sha3::Digest>::digest([0u8; 32]).into();
    assert_eq!(first, expected);
    let second = poh.tick();
    let expected2: [u8; 32] = <sha3::Sha3_256 as sha3::Digest>::digest(first).into();
    assert_eq!(second, expected2);
}
