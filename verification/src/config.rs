//! Configuration types shared by the consensus and protocol layers, with
//! their defaults.

use vstd::prelude::*;

verus! {

/// A JSON value, carried through the mempool configuration as it is.
#[verifier::external_type_specification]
#[verifier::external_body]
pub struct ExJsonValue(serde_json::Value);

/// A clone of a JSON value. Trusted: `serde_json::Value` derives `Clone`, so
/// the clone is the same value.
pub assume_specification[ <serde_json::Value as Clone>::clone ](v: &serde_json::Value) -> (r: serde_json::Value)
    ensures
        r == *v,
;

/// Default: maximum addresses in an addr message.
pub fn default_max_addr_addresses() -> (v: usize)
    ensures
        v == 1000,
{
    1000
}

/// Default: maximum inventory items in inv/getdata messages.
pub fn default_max_inv_items() -> (v: usize)
    ensures
        v == 50000,
{
    50000
}

/// Default: maximum headers in a headers message.
pub fn default_max_headers() -> (v: usize)
    ensures
        v == 2000,
{
    2000
}

/// Default: maximum user agent length in a version message, in bytes.
pub fn default_max_user_agent_length() -> (v: usize)
    ensures
        v == 256,
{
    256
}

/// Default: number of recent headers for the median time-past (BIP113).
pub fn default_median_time_past_headers() -> (v: usize)
    ensures
        v == 11,
{
    11
}

/// Default: true.
pub fn default_true() -> (v: bool)
    ensures
        v == true,
{
    true
}

/// Default: minimum fee increment of a replacement (BIP125), in satoshis.
pub fn default_rbf_fee_increment() -> (v: i64)
    ensures
        v == 1000,
{
    1000
}

/// Default: maximum mempool size in megabytes.
pub fn default_max_mempool_mb() -> (v: u64)
    ensures
        v == 300,
{
    300
}

/// Default: maximum number of transactions in the mempool.
pub fn default_max_mempool_txs() -> (v: usize)
    ensures
        v == 100_000,
{
    100_000
}

/// Default: mempool transaction expiry in hours (14 days).
pub fn default_mempool_expiry_hours() -> (v: u64)
    ensures
        v == 336,
{
    336
}

/// Default: minimum relay fee rate in satoshis per virtual byte.
pub fn default_min_relay_fee_rate() -> (v: u64)
    ensures
        v == 1,
{
    1
}

/// Default: minimum transaction fee in satoshis.
pub fn default_min_tx_fee() -> (v: i64)
    ensures
        v == 1000,
{
    1000
}

/// Default: maximum OP_RETURN data size in bytes.
pub fn default_max_op_return_size() -> (v: u32)
    ensures
        v == 80,
{
    80
}

/// Default: maximum number of OP_RETURN outputs.
pub fn default_max_op_return_outputs() -> (v: u32)
    ensures
        v == 1,
{
    1
}

/// Default: reject transactions with multiple OP_RETURN outputs.
pub fn default_reject_multiple_op_return() -> (v: bool)
    ensures
        v == true,
{
    true
}

/// Default: maximum standard script size in bytes.
pub fn default_max_standard_script_size() -> (v: u32)
    ensures
        v == 200,
{
    200
}

/// Default: reject envelope protocol (OP_FALSE OP_IF) scripts.
pub fn default_reject_envelope_protocol() -> (v: bool)
    ensures
        v == true,
{
    true
}

/// Default: reject spam transactions at mempool entry (opt-in).
pub fn default_reject_spam_in_mempool() -> (v: bool)
    ensures
        v == false,
{
    false
}

/// Default: minimum fee rate for large transactions, in satoshis per virtual byte.
pub fn default_min_fee_rate_large_tx() -> (v: u64)
    ensures
        v == 2,
{
    2
}

/// Default: size above which a transaction needs `min_fee_rate_large_tx`, in bytes.
pub fn default_large_tx_threshold_bytes() -> (v: u64)
    ensures
        v == 1000,
{
    1000
}

/// Default: false.
pub fn default_false() -> (v: bool)
    ensures
        v == false,
{
    false
}

/// Default: maximum UTXO commitment set size in megabytes.
pub fn default_max_utxo_commitment_set_mb() -> (v: u64)
    ensures
        v == 512,
{
    512
}

/// Default: maximum number of UTXOs in the commitment set.
pub fn default_max_utxo_count() -> (v: u64)
    ensures
        v == 100_000_000,
{
    100_000_000
}

/// Default: maximum number of historical commitments kept in memory.
pub fn default_max_historical_commitments() -> (v: usize)
    ensures
        v == 1000,
{
    1000
}

/// Default: batch size for parallel transaction validation.
pub fn default_parallel_batch_size() -> (v: usize)
    ensures
        v == 8,
{
    8
}

/// Default: maximum depth of a chain reorganization.
pub fn default_max_reorg_depth() -> (v: u64)
    ensures
        v == 100,
{
    100
}

/// Network message size limits: bound the size of network messages against DoS; all match Bitcoin protocol defaults.
#[derive(Debug, Clone, PartialEq, Eq)]
pub struct NetworkMessageLimits {
    /// Maximum addresses in an addr message.
    pub max_addr_addresses: usize,
    /// Maximum inventory items in inv/getdata messages.
    pub max_inv_items: usize,
    /// Maximum headers in a headers message.
    pub max_headers: usize,
    /// Maximum user agent length in a version message, in bytes.
    pub max_user_agent_length: usize,
}

impl Default for NetworkMessageLimits {
    fn default() -> (c: Self)
        ensures
            c.max_addr_addresses == 1000,
            c.max_inv_items == 50000,
            c.max_headers == 2000,
            c.max_user_agent_length == 256,
    {
        NetworkMessageLimits {
            max_addr_addresses: 1000,
            max_inv_items: 50000,
            max_headers: 2000,
            max_user_agent_length: 256,
        }
    }
}

/// Block validation configuration.
#[derive(Debug, Clone, PartialEq, Eq)]
pub struct BlockValidationConfig {
    /// Assume-valid height: blocks below it skip signature verification (Bitcoin Core's built-in assume-valid block).
    pub assume_valid_height: u64,
    /// Assume-valid block hash: when set, the block at `assume_valid_height` must match it.
    pub assume_valid_hash: Option<[u8; 32]>,
    /// Minimum chain work: skip only when the best header chain has at least this much.
    pub n_minimum_chain_work: u128,
    /// Number of recent headers for the median time-past (BIP113).
    pub median_time_past_headers: usize,
    /// Enable parallel transaction validation.
    pub enable_parallel_validation: bool,
    /// Coinbase maturity override (testing only).
    pub coinbase_maturity_override: u64,
    /// Maximum block sigop cost override (testing only).
    pub max_block_sigops_cost_override: u64,
}

impl Default for BlockValidationConfig {
    fn default() -> (c: Self)
        ensures
            c.assume_valid_height == 938343,
            c.assume_valid_hash is None,
            c.n_minimum_chain_work == 0,
            c.median_time_past_headers == 11,
            c.enable_parallel_validation == true,
            c.coinbase_maturity_override == 0,
            c.max_block_sigops_cost_override == 0,
    {
        BlockValidationConfig {
            assume_valid_height: 938343,
            assume_valid_hash: None,
            n_minimum_chain_work: 0,
            median_time_past_headers: 11,
            enable_parallel_validation: true,
            coinbase_maturity_override: 0,
            max_block_sigops_cost_override: 0,
        }
    }
}

/// Mempool configuration: size limits, fee rates and expiry. Operational, not consensus-critical.
#[derive(Debug, Clone, PartialEq)]
pub struct MempoolConfig {
    /// Maximum mempool size in megabytes.
    pub max_mempool_mb: u64,
    /// Maximum number of transactions in the mempool.
    pub max_mempool_txs: usize,
    /// Mempool transaction expiry in hours (14 days).
    pub mempool_expiry_hours: u64,
    /// Minimum relay fee rate in satoshis per virtual byte.
    pub min_relay_fee_rate: u64,
    /// Minimum transaction fee in satoshis.
    pub min_tx_fee: i64,
    /// Minimum fee increment of a replacement (BIP125), in satoshis.
    pub rbf_fee_increment: i64,
    /// Maximum OP_RETURN data size in bytes.
    pub max_op_return_size: u32,
    /// Maximum number of OP_RETURN outputs.
    pub max_op_return_outputs: u32,
    /// Reject transactions with multiple OP_RETURN outputs.
    pub reject_multiple_op_return: bool,
    /// Maximum standard script size in bytes.
    pub max_standard_script_size: u32,
    /// Reject envelope protocol (OP_FALSE OP_IF) scripts.
    pub reject_envelope_protocol: bool,
    /// Reject spam transactions at mempool entry (opt-in).
    pub reject_spam_in_mempool: bool,
    /// Spam filter configuration, used when `reject_spam_in_mempool` is set.
    pub spam_filter_config: Option<serde_json::Value>,
    /// Minimum fee rate for large transactions, in satoshis per virtual byte.
    pub min_fee_rate_large_tx: u64,
    /// Size above which a transaction needs `min_fee_rate_large_tx`, in bytes.
    pub large_tx_threshold_bytes: u64,
}

impl Default for MempoolConfig {
    fn default() -> (c: Self)
        ensures
            c.max_mempool_mb == 300,
            c.max_mempool_txs == 100_000,
            c.mempool_expiry_hours == 336,
            c.min_relay_fee_rate == 1,
            c.min_tx_fee == 1000,
            c.rbf_fee_increment == 1000,
            c.max_op_return_size == 80,
            c.max_op_return_outputs == 1,
            c.reject_multiple_op_return == true,
            c.max_standard_script_size == 200,
            c.reject_envelope_protocol == true,
            c.reject_spam_in_mempool == false,
            c.spam_filter_config is None,
            c.min_fee_rate_large_tx == 2,
            c.large_tx_threshold_bytes == 1000,
    {
        MempoolConfig {
            max_mempool_mb: 300,
            max_mempool_txs: 100_000,
            mempool_expiry_hours: 336,
            min_relay_fee_rate: 1,
            min_tx_fee: 1000,
            rbf_fee_increment: 1000,
            max_op_return_size: 80,
            max_op_return_outputs: 1,
            reject_multiple_op_return: true,
            max_standard_script_size: 200,
            reject_envelope_protocol: true,
            reject_spam_in_mempool: false,
            spam_filter_config: None,
            min_fee_rate_large_tx: 2,
            large_tx_threshold_bytes: 1000,
        }
    }
}

/// UTXO commitment configuration: set size, storage limits and tuning.
#[derive(Debug, Clone, PartialEq, Eq)]
pub struct UtxoCommitmentConfig {
    /// Maximum UTXO commitment set size in megabytes.
    pub max_utxo_commitment_set_mb: u64,
    /// Maximum number of UTXOs in the commitment set.
    pub max_utxo_count: u64,
    /// Maximum number of historical commitments kept in memory.
    pub max_historical_commitments: usize,
    /// Enable incremental commitment updates.
    pub enable_incremental_updates: bool,
}

impl Default for UtxoCommitmentConfig {
    fn default() -> (c: Self)
        ensures
            c.max_utxo_commitment_set_mb == 512,
            c.max_utxo_count == 100_000_000,
            c.max_historical_commitments == 1000,
            c.enable_incremental_updates == true,
    {
        UtxoCommitmentConfig {
            max_utxo_commitment_set_mb: 512,
            max_utxo_count: 100_000_000,
            max_historical_commitments: 1000,
            enable_incremental_updates: true,
        }
    }
}

/// Performance and optimization configuration. IBD batch tuning: `None` uses hardware-derived values, `Some(x)` overrides them.
#[derive(Debug, Clone, PartialEq, Eq)]
pub struct PerformanceConfig {
    /// Threads for script verification; 0 means one per CPU core.
    pub script_verification_threads: usize,
    /// Batch size for parallel transaction validation.
    pub parallel_batch_size: usize,
    /// IBD batch: parallelize when the signature count exceeds this.
    pub ibd_chunk_threshold: Option<usize>,
    /// IBD batch: minimum chunk size for parallel batches.
    pub ibd_min_chunk_size: Option<usize>,
    /// Enable SIMD/vectorization optimizations.
    pub enable_simd_optimizations: bool,
    /// Enable cache-friendly memory layouts.
    pub enable_cache_optimizations: bool,
    /// Enable batch UTXO lookups.
    pub enable_batch_utxo_lookups: bool,
}

impl Default for PerformanceConfig {
    fn default() -> (c: Self)
        ensures
            c.script_verification_threads == 0,
            c.parallel_batch_size == 8,
            c.ibd_chunk_threshold is None,
            c.ibd_min_chunk_size is None,
            c.enable_simd_optimizations == true,
            c.enable_cache_optimizations == true,
            c.enable_batch_utxo_lookups == true,
    {
        PerformanceConfig {
            script_verification_threads: 0,
            parallel_batch_size: 8,
            ibd_chunk_threshold: None,
            ibd_min_chunk_size: None,
            enable_simd_optimizations: true,
            enable_cache_optimizations: true,
            enable_batch_utxo_lookups: true,
        }
    }
}

/// Debug and development configuration.
#[derive(Debug, Clone, PartialEq, Eq)]
pub struct DebugConfig {
    /// Enable runtime assertions.
    pub enable_runtime_assertions: bool,
    /// Enable runtime invariant checks.
    pub enable_runtime_invariants: bool,
    /// Enable verbose logging for consensus operations.
    pub enable_verbose_logging: bool,
    /// Enable performance profiling.
    pub enable_performance_profiling: bool,
    /// Log all rejected transactions and blocks.
    pub log_rejections: bool,
}

impl Default for DebugConfig {
    fn default() -> (c: Self)
        ensures
            c.enable_runtime_assertions == false,
            c.enable_runtime_invariants == false,
            c.enable_verbose_logging == false,
            c.enable_performance_profiling == false,
            c.log_rejections == false,
    {
        DebugConfig {
            enable_runtime_assertions: false,
            enable_runtime_invariants: false,
            enable_verbose_logging: false,
            enable_performance_profiling: false,
            log_rejections: false,
        }
    }
}

/// Feature flags: optional and experimental functionality, without effect on consensus.
#[derive(Debug, Clone, PartialEq, Eq)]
pub struct FeatureFlagsConfig {
    /// Enable experimental optimizations.
    pub enable_experimental_optimizations: bool,
    /// Enable bounds check optimizations.
    pub enable_bounds_check_optimizations: bool,
    /// Enable reference implementation checks.
    pub enable_reference_checks: bool,
    /// Enable aggressive caching.
    pub enable_aggressive_caching: bool,
    /// Enable batch transaction ID computation.
    pub enable_batch_tx_id_computation: bool,
    /// Enable SIMD hash operations.
    pub enable_simd_hash_operations: bool,
}

impl Default for FeatureFlagsConfig {
    fn default() -> (c: Self)
        ensures
            c.enable_experimental_optimizations == false,
            c.enable_bounds_check_optimizations == true,
            c.enable_reference_checks == false,
            c.enable_aggressive_caching == true,
            c.enable_batch_tx_id_computation == true,
            c.enable_simd_hash_operations == true,
    {
        FeatureFlagsConfig {
            enable_experimental_optimizations: false,
            enable_bounds_check_optimizations: true,
            enable_reference_checks: false,
            enable_aggressive_caching: true,
            enable_batch_tx_id_computation: true,
            enable_simd_hash_operations: true,
        }
    }
}

/// Advanced configuration options.
#[derive(Debug, Clone, PartialEq, Eq)]
pub struct AdvancedConfig {
    /// Custom checkpoint heights, in addition to assume-valid.
    pub custom_checkpoints: Vec<u64>,
    /// Maximum depth of a chain reorganization.
    pub max_reorg_depth: u64,
    /// Reject any non-standard transaction.
    pub strict_mode: bool,
    /// Maximum block size to accept; 0 means the consensus limit.
    pub max_block_size_override: usize,
    /// Enable transaction replacement (RBF) by default.
    pub enable_rbf: bool,
}

impl Default for AdvancedConfig {
    fn default() -> (c: Self)
        ensures
            c.custom_checkpoints@ == Seq::<u64>::empty(),
            c.max_reorg_depth == 100,
            c.strict_mode == false,
            c.max_block_size_override == 0,
            c.enable_rbf == true,
    {
        AdvancedConfig {
            custom_checkpoints: Vec::new(),
            max_reorg_depth: 100,
            strict_mode: false,
            max_block_size_override: 0,
            enable_rbf: true,
        }
    }
}

} // verus!
