use std::collections::hash_map::DefaultHasher;
use std::hash::{Hash, Hasher};
use blvm_primitives::config::{
    AdvancedConfig, BlockValidationConfig, DebugConfig, FeatureFlagsConfig, MempoolConfig,
    NetworkMessageLimits, PerformanceConfig, UtxoCommitmentConfig,
};
use blvm_primitives::types::{
    utxo_set_insert, utxo_set_with_capacity, BlockHash, BlockHeight, Network, OutPoint,
    SharedByteString, UTXO,
};

#[test]
fn shared_byte_string_round_trips_short_and_long() {
    let short: Vec<u8> = (0..25).collect();
    let long: Vec<u8> = (0..40).collect();
    let a = SharedByteString::from(short.clone());
    let b = SharedByteString::from(long.as_slice());
    assert_eq!(&*a, short.as_slice());
    assert_eq!(b.as_ref(), long.as_slice());
    assert_eq!(&*a.as_arc(), short.as_slice());
    assert_eq!(&*b.as_arc(), long.as_slice());
    assert_eq!(a.clone(), a);
    assert_eq!(b.clone(), b);
    assert_ne!(a, b);
    assert_eq!(SharedByteString::default().len(), 0);
}

#[test]
fn network_hrp_and_env_values() {
    assert_eq!(Network::Mainnet.hrp(), "bc");
    assert_eq!(Network::Testnet.hrp(), "tb");
    assert_eq!(Network::Regtest.hrp(), "bcrt");
    assert_eq!(Network::from_env_value(Some("testnet")), Network::Testnet);
    assert_eq!(Network::from_env_value(Some("regtest")), Network::Regtest);
    assert_eq!(Network::from_env_value(Some("mainnet")), Network::Mainnet);
    assert_eq!(Network::from_env_value(Some("Testnet")), Network::Mainnet);
    assert_eq!(Network::from_env_value(None), Network::Mainnet);
}

#[test]
fn newtypes_round_trip() {
    let h = BlockHeight::new(800_000);
    assert_eq!(h.as_u64(), 800_000);
    assert_eq!(u64::from(BlockHeight::from(5u64)), 5);
    assert_eq!(*h, 800_000);
    assert!(BlockHeight(1) < BlockHeight(2));
    let bh = BlockHash::new([3; 32]);
    assert_eq!(bh.as_hash(), [3; 32]);
    assert_eq!(*bh.as_hash_ref(), [3; 32]);
    assert_eq!(<[u8; 32]>::from(BlockHash::from([4; 32])), [4; 32]);
    assert_eq!(bh[0], 3);
}

#[test]
fn utxo_set_insert_then_get() {
    let mut set = utxo_set_with_capacity(4);
    assert!(set.is_empty());
    let op = OutPoint { hash: [1; 32], index: 2 };
    let u = UTXO { value: 50, script_pubkey: SharedByteString::from(vec![0x51]), height: 7, is_coinbase: true };
    utxo_set_insert(&mut set, op, u.clone());
    assert_eq!(set.len(), 1);
    assert_eq!(**set.get(&op).unwrap(), u);
    let d = UTXO::default();
    assert_eq!(d.value, 0);
    assert!(d.script_pubkey.is_empty());
}

#[test]
fn config_defaults() {
    let n = NetworkMessageLimits::default();
    assert_eq!((n.max_addr_addresses, n.max_inv_items, n.max_headers, n.max_user_agent_length), (1000, 50000, 2000, 256));
    let b = BlockValidationConfig::default();
    assert_eq!(b.assume_valid_height, 938343);
    assert_eq!(b.assume_valid_hash, None);
    assert_eq!(b.median_time_past_headers, 11);
    assert!(b.enable_parallel_validation);
    let m = MempoolConfig::default();
    assert_eq!(m.max_mempool_mb, 300);
    assert_eq!(m.max_mempool_txs, 100_000);
    assert_eq!(m.mempool_expiry_hours, 336);
    assert_eq!(m.min_tx_fee, 1000);
    assert!(m.spam_filter_config.is_none());
    assert!(!m.reject_spam_in_mempool);
    let u = UtxoCommitmentConfig::default();
    assert_eq!(u.max_utxo_count, 100_000_000);
    let p = PerformanceConfig::default();
    assert_eq!(p.parallel_batch_size, 8);
    assert_eq!(p.ibd_chunk_threshold, None);
    let d = DebugConfig::default();
    assert!(!d.log_rejections);
    let f = FeatureFlagsConfig::default();
    assert!(f.enable_bounds_check_optimizations && !f.enable_reference_checks);
    let a = AdvancedConfig::default();
    assert!(a.custom_checkpoints.is_empty());
    assert_eq!(a.max_reorg_depth, 100);
    assert!(a.enable_rbf);
}

#[test]
fn mempool_config_clone_keeps_spam_filter_value() {
    let mut m = MempoolConfig::default();
    m.spam_filter_config = Some(serde_json::Value::String("strict".to_string()));
    let c = m.clone();
    assert_eq!(c, m);
    assert_eq!(c.spam_filter_config, Some(serde_json::Value::String("strict".to_string())));
}

fn hash_of<V: Hash + ?Sized>(v: &V) -> u64 {
    let mut h = DefaultHasher::new();
    v.hash(&mut h);
    h.finish()
}

/// A `SharedByteString` hashes as its bytes, inline or shared.
#[test]
fn shared_byte_string_hashes_as_its_bytes() {
    let short: Vec<u8> = vec![1, 2, 3];
    let long: Vec<u8> = (0u8..40).collect();
    assert_eq!(hash_of(&SharedByteString::from(short.as_slice())), hash_of(short.as_slice()));
    assert_eq!(hash_of(&SharedByteString::from(long.as_slice())), hash_of(long.as_slice()));
}

/// A `SharedByteString` shows itself as its bytes under the type's name.
#[test]
fn shared_byte_string_debug_shows_its_bytes() {
    let short = SharedByteString::from(vec![1u8, 2]);
    assert_eq!(format!("{:?}", short), "SharedByteString([1, 2])");
    assert_eq!(format!("{:#?}", short), "SharedByteString(\n    [\n        1,\n        2,\n    ],\n)");
    let long: Vec<u8> = vec![7; 30];
    assert_eq!(format!("{:?}", SharedByteString::from(long.clone())), format!("SharedByteString({:?})", long));
}
