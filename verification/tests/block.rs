use blvm_primitives::serialization::block::{
    deserialize_block_header, deserialize_block_with_witnesses, serialize_block,
    serialize_block_header, serialize_block_with_witnesses, validate_block_serialized_size,
    BlockParseError,
};
use blvm_primitives::serialization::transaction::{
    serialize_transaction, serialize_transaction_with_witness,
};
use blvm_primitives::types::{
    Block, BlockHeader, OutPoint, Transaction, TransactionInput, TransactionOutput,
};
use blvm_primitives::SerializationError;

fn header() -> BlockHeader {
    BlockHeader {
        version: 4,
        prev_block_hash: [7; 32],
        merkle_root: [9; 32],
        timestamp: 1_700_000_000,
        bits: 0x1d00ffff,
        nonce: 42,
    }
}

fn coinbase() -> Transaction {
    Transaction {
        version: 1,
        inputs: vec![TransactionInput {
            prevout: OutPoint { hash: [0; 32], index: 0xffffffff },
            script_sig: vec![0x03, 0x01, 0x02, 0x03],
            sequence: 0xffffffff,
        }],
        outputs: vec![TransactionOutput { value: 5000000000, script_pubkey: vec![0x51] }],
        lock_time: 0,
    }
}

#[test]
fn header_round_trip() {
    let h = header();
    let bytes = serialize_block_header(&h);
    assert_eq!(bytes.len(), 80);
    assert_eq!(&bytes[0..4], &[4, 0, 0, 0]);
    assert_eq!(deserialize_block_header(&bytes).unwrap(), h);
}

#[test]
fn header_too_short() {
    assert_eq!(
        deserialize_block_header(&[0u8; 79]),
        Err(SerializationError::Block(BlockParseError::InsufficientBytes))
    );
}

#[test]
fn header_default_is_zero() {
    let h = BlockHeader::default();
    assert_eq!(serialize_block_header(&h), vec![0u8; 80]);
}

#[test]
fn block_round_trip() {
    let block = Block { header: header(), transactions: vec![coinbase(), coinbase()] };
    let bytes = serialize_block(&block);
    let (back, witnesses) = deserialize_block_with_witnesses(&bytes).unwrap();
    assert_eq!(back, block);
    assert_eq!(witnesses, vec![vec![Vec::<Vec<u8>>::new()], vec![Vec::<Vec<u8>>::new()]]);
    let expected_len = 80 + 1 + 2 * serialize_transaction(&coinbase()).len();
    assert_eq!(bytes.len(), expected_len);
    assert!(validate_block_serialized_size(&block, &[vec![], vec![]], false, expected_len));
    assert!(!validate_block_serialized_size(&block, &[], false, expected_len + 1));
}

#[test]
fn block_without_transactions_is_refused() {
    let block = Block { header: header(), transactions: vec![] };
    let bytes = serialize_block(&block);
    assert_eq!(
        deserialize_block_with_witnesses(&bytes),
        Err(SerializationError::Block(BlockParseError::InvalidTransactionCount))
    );
}

#[test]
fn block_with_witness_data_writes_segwit_transactions() {
    let block = Block { header: header(), transactions: vec![coinbase(), coinbase()] };
    // the first transaction carries witness data, the second does not
    let witnesses = vec![vec![vec![vec![0xab]]], vec![vec![]]];
    let with = serialize_block_with_witnesses(&block, &witnesses, true);
    let without = serialize_block_with_witnesses(&block, &witnesses, false);
    assert_eq!(without, serialize_block(&block));
    let mut expected = serialize_block_header(&block.header);
    expected.push(2);
    expected.extend_from_slice(&serialize_transaction_with_witness(&coinbase(), &witnesses[0]));
    expected.extend_from_slice(&serialize_transaction(&coinbase()));
    assert_eq!(with, expected);
    // the version of the first transaction follows the count directly
    assert_eq!(&with[81..87], &[1, 0, 0, 0, 0, 1]);
    // marker and flag (2) + stack count (1) + element length (1) + element (1)
    assert_eq!(with.len(), without.len() + 5);
    assert!(validate_block_serialized_size(&block, &witnesses, true, without.len() + 5));
    // the witness data is read back
    let (back, ws) = deserialize_block_with_witnesses(&with).unwrap();
    assert_eq!(back, block);
    assert_eq!(ws, witnesses);
    // empty witness stacks are written in the plain form
    let empty = vec![vec![vec![]], vec![vec![]]];
    assert_eq!(serialize_block_with_witnesses(&block, &empty, true), without);
}
