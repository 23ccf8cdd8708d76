//! Node configuration: consensus parameters and the settings of the other subsystems.

use vstd::prelude::*;
use vstd::string::StringExecFns;

verus! {

/// Relies on Duration::from_secs, which builds a duration of whole seconds and
/// never panics.
pub assume_specification[ core::time::Duration::from_secs ](secs: u64) -> core::time::Duration;

/// Relies on Duration's `Clone`, which copies the value.
pub assume_specification[ <core::time::Duration as Clone>::clone ](d: &core::time::Duration) -> (r: core::time::Duration)
    ensures
        r == *d,
;

/// Global blockchain configuration.
#[derive(Debug, Clone)]
pub struct ChainConfig {
    /// Chain ID (for replay protection).
    pub chain_id: u64,
    /// Consensus configuration.
    pub consensus: ConsensusConfig,
    /// Network configuration.
    pub network: NetworkConfig,
    /// VM configuration.
    pub vm: VmConfig,
    /// Storage configuration.
    pub storage: StorageConfig,
}

impl Default for ChainConfig {
    fn default() -> (r: Self)
        ensures
            r.chain_id == 1,
            r.consensus.is_default(),
            r.network.is_default(),
            r.vm.is_default(),
            r.vm.execution_threads == DEFAULT_EXECUTION_THREADS,
            r.storage.is_default(),
    {
        ChainConfig {
            chain_id: 1,
            consensus: ConsensusConfig::default(),
            network: NetworkConfig::default(),
            vm: VmConfig::default(),
            storage: StorageConfig::default(),
        }
    }
}

/// Smallest stake of a validator by default: 32 tokens of 10^18 units.
pub const DEFAULT_MIN_VALIDATOR_STAKE: u128 = 32_000_000_000_000_000_000;

/// Largest validator set by default.
pub const DEFAULT_MAX_VALIDATORS: usize = 1000;

/// Share of the stake taken by a slash by default, in percent.
pub const DEFAULT_SLASHING_PERCENTAGE: u8 = 5;

/// Consensus mechanism configuration.
#[derive(Debug, Clone)]
pub struct ConsensusConfig {
    /// Target block time.
    pub block_time: core::time::Duration,
    /// Epoch length in blocks.
    pub epoch_length: u64,
    /// Minimum stake required to be a validator.
    pub min_validator_stake: u128,
    /// Maximum number of validators.
    pub max_validators: usize,
    /// Share of the stake taken by a slash, in percent.
    pub slashing_percentage: u8,
    /// Enable the hash-chain clock.
    pub enable_poh: bool,
    /// Enable the block DAG.
    pub enable_dag: bool,
}

impl ConsensusConfig {
    /// Every parameter but the block time holds its default value.
    pub open spec fn is_default(&self) -> bool {
        &&& self.epoch_length == 100
        &&& self.min_validator_stake == DEFAULT_MIN_VALIDATOR_STAKE
        &&& self.max_validators == DEFAULT_MAX_VALIDATORS
        &&& self.slashing_percentage == DEFAULT_SLASHING_PERCENTAGE
        &&& self.enable_poh
        &&& self.enable_dag
    }
}

impl Default for ConsensusConfig {
    fn default() -> (r: Self)
        ensures
            r.is_default(),
    {
        ConsensusConfig {
            block_time: core::time::Duration::from_secs(2),
            epoch_length: 100,
            min_validator_stake: DEFAULT_MIN_VALIDATOR_STAKE,
            max_validators: DEFAULT_MAX_VALIDATORS,
            slashing_percentage: DEFAULT_SLASHING_PERCENTAGE,
            enable_poh: true,
            enable_dag: true,
        }
    }
}

/// Network configuration.
#[derive(Debug, Clone)]
pub struct NetworkConfig {
    /// P2P listen address.
    pub listen_addr: String,
    /// Bootstrap nodes.
    pub bootstrap_nodes: Vec<String>,
    /// Maximum number of peers.
    pub max_peers: usize,
    /// Enable the QUIC protocol.
    pub enable_quic: bool,
    /// Enable Tor/I2P.
    pub enable_privacy_network: bool,
}

impl NetworkConfig {
    /// Every setting holds its default value.
    pub open spec fn is_default(&self) -> bool {
        &&& self.listen_addr@ == "/ip4/0.0.0.0/tcp/30333"@
        &&& self.bootstrap_nodes@.len() == 0
        &&& self.max_peers == 50
        &&& self.enable_quic
        &&& !self.enable_privacy_network
    }
}

impl Default for NetworkConfig {
    fn default() -> (r: Self)
        ensures
            r.is_default(),
    {
        NetworkConfig {
            listen_addr: String::from_str("/ip4/0.0.0.0/tcp/30333"),
            bootstrap_nodes: Vec::new(),
            max_peers: 50,
            enable_quic: true,
            enable_privacy_network: false,
        }
    }
}

/// Execution threads when the machine's parallelism is not known.
pub const DEFAULT_EXECUTION_THREADS: usize = 4;

/// Virtual machine configuration.
#[derive(Debug, Clone)]
pub struct VmConfig {
    /// Enable the WASM VM.
    pub enable_wasm: bool,
    /// Enable EVM compatibility.
    pub enable_evm: bool,
    /// Enable the Move VM.
    pub enable_move: bool,
    /// Enable parallel execution.
    pub enable_parallel_execution: bool,
    /// Number of execution threads.
    pub execution_threads: usize,
    /// Maximum gas per block.
    pub max_gas_per_block: u64,
}

impl VmConfig {
    /// Every setting but the thread count holds its default value.
    pub open spec fn is_default(&self) -> bool {
        &&& self.enable_wasm && self.enable_evm && !self.enable_move && self.enable_parallel_execution
        &&& self.max_gas_per_block == 30_000_000
    }

    /// The default settings with `threads` execution threads.
    pub fn with_execution_threads(threads: usize) -> (r: Self)
        ensures
            r.is_default(),
            r.execution_threads == threads,
    {
        VmConfig {
            enable_wasm: true,
            enable_evm: true,
            enable_move: false,
            enable_parallel_execution: true,
            execution_threads: threads,
            max_gas_per_block: 30_000_000,
        }
    }
}

impl Default for VmConfig {
    fn default() -> (r: Self)
        ensures
            r.is_default(),
            r.execution_threads == DEFAULT_EXECUTION_THREADS,
    {
        VmConfig::with_execution_threads(DEFAULT_EXECUTION_THREADS)
    }
}

/// Storage configuration.
#[derive(Debug, Clone)]
pub struct StorageConfig {
    /// Database path.
    pub db_path: String,
    /// Enable state pruning.
    pub enable_pruning: bool,
    /// Pruning history (blocks to keep).
    pub pruning_history: u64,
    /// Enable state snapshots.
    pub enable_snapshots: bool,
    /// Snapshot interval (blocks).
    pub snapshot_interval: u64,
}

impl StorageConfig {
    /// Every setting holds its default value.
    pub open spec fn is_default(&self) -> bool {
        &&& self.db_path@ == "./data"@
        &&& self.enable_pruning
        &&& self.pruning_history == 256
        &&& self.enable_snapshots
        &&& self.snapshot_interval == 1000
    }
}

impl Default for StorageConfig {
    fn default() -> (r: Self)
        ensures
            r.is_default(),
    {
        StorageConfig {
            db_path: String::from_str("./data"),
            enable_pruning: true,
            pruning_history: 256,
            enable_snapshots: true,
            snapshot_interval: 1000,
        }
    }
}

} // verus!
