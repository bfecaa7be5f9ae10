use blvm_primitives::serialization::transaction::{
    deserialize_transaction, deserialize_transaction_with_offset,
    deserialize_transaction_with_witness, serialize_transaction, serialize_transaction_into,
    serialize_transaction_with_witness, TransactionParseError,
};
use blvm_primitives::types::{OutPoint, Transaction, TransactionInput, TransactionOutput};
use blvm_primitives::SerializationError;

fn sample_tx() -> Transaction {
    Transaction {
        version: 1,
        inputs: vec![TransactionInput {
            prevout: OutPoint { hash: [1; 32], index: 0 },
            script_sig: vec![0x51],
            sequence: 0xffffffff,
        }],
        outputs: vec![TransactionOutput { value: 5000000000, script_pubkey: vec![0x51] }],
        lock_time: 0,
    }
}

#[test]
fn test_serialize_deserialize_round_trip() {
    let tx = Transaction {
        version: 1,
        inputs: vec![TransactionInput {
            prevout: OutPoint { hash: [1; 32], index: 0 },
            script_sig: vec![0x51],
            sequence: 0xffffffff,
        }],
        outputs: vec![TransactionOutput { value: 5000000000, script_pubkey: vec![0x51] }],
        lock_time: 0,
    };

    let serialized = serialize_transaction(&tx);
    let deserialized = deserialize_transaction(&serialized).unwrap();

    assert_eq!(deserialized.version, tx.version);
    assert_eq!(deserialized.inputs.len(), tx.inputs.len());
    assert_eq!(deserialized.outputs.len(), tx.outputs.len());
    assert_eq!(deserialized.lock_time, tx.lock_time);
}

/// An empty input vector followed by flag 0 means an empty output vector
/// without a separate output count.
#[test]
fn empty_tx_round_trip_matches_double_zero_preamble() {
    let tx = Transaction { version: 1, inputs: vec![], outputs: vec![], lock_time: 0 };
    let bytes = serialize_transaction(&tx);
    let back = deserialize_transaction(&bytes).unwrap();
    assert_eq!(back.version, tx.version);
    assert!(back.inputs.is_empty());
    assert!(back.outputs.is_empty());
    assert_eq!(back.lock_time, tx.lock_time);
    // version(4) + vin=0 + flags=0 + locktime(4) — two 0x00 bytes after version
    assert_eq!(&bytes[4..6], &[0u8, 0u8]);
}

#[test]
fn zero_inputs_one_output_round_trips_extended_framing() {
    let tx = Transaction {
        version: 2,
        inputs: vec![],
        outputs: vec![TransactionOutput { value: 1000, script_pubkey: vec![0x51] }],
        lock_time: 0x11223344,
    };
    let bytes = serialize_transaction(&tx);
    let back = deserialize_transaction(&bytes).unwrap();
    assert_eq!(back.version, tx.version);
    assert!(back.inputs.is_empty());
    assert_eq!(back.outputs.len(), 1);
    assert_eq!(back.outputs[0].value, 1000);
    assert_eq!(back.lock_time, tx.lock_time);
    // version(4) + 0x00 dummy vin + 0x01 flag + 0x00 real ic + vout count + ...
    assert_eq!(&bytes[4..8], &[0u8, 1, 0, 1]);
}

#[test]
fn full_round_trip_gives_equal_transaction() {
    let tx = sample_tx();
    let bytes = serialize_transaction(&tx);
    assert_eq!(deserialize_transaction(&bytes).unwrap(), tx);
    let (tx2, witnesses, consumed) = deserialize_transaction_with_witness(&bytes).unwrap();
    assert_eq!(tx2, tx);
    assert_eq!(witnesses, vec![Vec::<Vec<u8>>::new()]);
    assert_eq!(consumed, bytes.len());
}

#[test]
fn serialized_bytes_are_exact() {
    let tx = sample_tx();
    let bytes = serialize_transaction(&tx);
    let mut expected = vec![1, 0, 0, 0, 1];
    expected.extend_from_slice(&[1u8; 32]);
    expected.extend_from_slice(&[0, 0, 0, 0, 1, 0x51, 0xff, 0xff, 0xff, 0xff, 1]);
    expected.extend_from_slice(&5000000000u64.to_le_bytes());
    expected.extend_from_slice(&[1, 0x51, 0, 0, 0, 0]);
    assert_eq!(bytes, expected);
}

#[test]
fn negative_version_round_trips_by_sign_extension() {
    let mut tx = sample_tx();
    tx.version = (-2i64) as u64;
    let bytes = serialize_transaction(&tx);
    assert_eq!(&bytes[0..4], &[0xfe, 0xff, 0xff, 0xff]);
    assert_eq!(deserialize_transaction(&bytes).unwrap().version, tx.version);
}

#[test]
fn witness_round_trip() {
    let tx = sample_tx();
    let witnesses = vec![vec![vec![0xaa, 0xbb], vec![]]];
    let bytes = serialize_transaction_with_witness(&tx, &witnesses);
    assert_eq!(&bytes[4..6], &[0u8, 1]);
    let (tx2, w2, consumed) = deserialize_transaction_with_witness(&bytes).unwrap();
    assert_eq!(tx2, tx);
    assert_eq!(w2, witnesses);
    assert_eq!(consumed, bytes.len());
    assert_eq!(deserialize_transaction(&bytes).unwrap(), tx);
}

#[test]
fn with_offset_reports_consumed_length() {
    let tx = sample_tx();
    let mut bytes = serialize_transaction(&tx);
    let n = bytes.len();
    bytes.extend_from_slice(&[9, 9, 9]);
    let (tx2, consumed) = deserialize_transaction_with_offset(&bytes).unwrap();
    assert_eq!(tx2, tx);
    assert_eq!(consumed, n);
}

#[test]
fn serialize_into_replaces_buffer() {
    let tx = sample_tx();
    let mut dst = vec![1, 2, 3];
    let n = serialize_transaction_into(&mut dst, &tx);
    assert_eq!(n, dst.len());
    assert_eq!(dst, serialize_transaction(&tx));
}

#[test]
fn decode_errors() {
    let short = Err(SerializationError::Transaction(TransactionParseError::InsufficientBytes));
    assert_eq!(deserialize_transaction(&[1, 0, 0]), short);
    assert_eq!(deserialize_transaction(&[1, 0, 0, 0, 0]), short);
    assert_eq!(
        deserialize_transaction(&[1, 0, 0, 0, 0, 2]),
        Err(SerializationError::UnsupportedSegwitFlag(2))
    );
    // input count 1_000_001
    assert_eq!(
        deserialize_transaction(&[1, 0, 0, 0, 0xfe, 0x41, 0x42, 0x0f, 0x00]),
        Err(SerializationError::Transaction(TransactionParseError::InvalidInputCount))
    );
    // no inputs, plain form, output count 1_000_001
    assert_eq!(
        deserialize_transaction(&[1, 0, 0, 0, 0, 1, 0, 0xfe, 0x41, 0x42, 0x0f, 0x00]),
        Err(SerializationError::Transaction(TransactionParseError::InvalidOutputCount))
    );
    // truncated lock time
    let bytes = serialize_transaction(&sample_tx());
    assert_eq!(deserialize_transaction(&bytes[..bytes.len() - 1]), short);
    assert_eq!(
        TransactionParseError::InsufficientBytes.message(),
        "Insufficient bytes to parse transaction"
    );
}

/// Decoding hand-written wire bytes and encoding the result again gives the
/// bytes that decoding took, in the plain and in the SegWit form.
#[test]
fn decode_then_encode_reproduces_the_bytes() {
    // version 0xfffffffe (negative as i32), one input, one output, lock time 7
    let mut plain: Vec<u8> = vec![0xfe, 0xff, 0xff, 0xff, 0x01];
    plain.extend_from_slice(&[9u8; 32]);
    plain.extend_from_slice(&[3, 0, 0, 0, 0x02, 0xaa, 0xbb, 0xfd, 0xff, 0xff, 0xff]);
    plain.extend_from_slice(&[0x01, 0x10, 0x27, 0, 0, 0, 0, 0, 0, 0x01, 0x51]);
    plain.extend_from_slice(&[7, 0, 0, 0]);
    let mut with_tail = plain.clone();
    with_tail.extend_from_slice(&[0xee, 0xee]);
    let (tx, witnesses, n) = deserialize_transaction_with_witness(&with_tail).unwrap();
    assert_eq!(n, plain.len());
    assert_eq!(tx.version, 0xffff_ffff_ffff_fffe);
    assert_eq!(witnesses, vec![Vec::<Vec<u8>>::new()]);
    assert_eq!(serialize_transaction(&tx), plain);

    // the same transaction in the extended form, with a two-element witness
    let mut segwit: Vec<u8> = vec![0xfe, 0xff, 0xff, 0xff, 0x00, 0x01, 0x01];
    segwit.extend_from_slice(&[9u8; 32]);
    segwit.extend_from_slice(&[3, 0, 0, 0, 0x02, 0xaa, 0xbb, 0xfd, 0xff, 0xff, 0xff]);
    segwit.extend_from_slice(&[0x01, 0x10, 0x27, 0, 0, 0, 0, 0, 0, 0x01, 0x51]);
    segwit.extend_from_slice(&[0x02, 0x01, 0xcc, 0x00]);
    segwit.extend_from_slice(&[7, 0, 0, 0]);
    let (tx2, witnesses2, n2) = deserialize_transaction_with_witness(&segwit).unwrap();
    assert_eq!(n2, segwit.len());
    assert_eq!(tx2, tx);
    assert_eq!(witnesses2, vec![vec![vec![0xcc], vec![]]]);
    assert_eq!(serialize_transaction_with_witness(&tx2, &witnesses2), segwit);
}

/// Every proper prefix of a transaction's encoding is refused.
#[test]
fn proper_prefixes_are_refused() {
    let tx = sample_tx();
    let plain = serialize_transaction(&tx);
    for k in 0..plain.len() {
        assert!(deserialize_transaction_with_witness(&plain[..k]).is_err());
    }
    let segwit = serialize_transaction_with_witness(&tx, &[vec![vec![1, 2], vec![]]]);
    for k in 0..segwit.len() {
        assert!(deserialize_transaction_with_witness(&segwit[..k]).is_err());
    }
    assert!(deserialize_transaction_with_witness(&segwit).is_ok());
}
