//! Block header and block wire format.

use crate::error::SerializationError;
use crate::serialization::bytes::{
    append_bytes, concat, holds_at, le_u32_at, lemma_concat_map_take, lemma_holds_at_split,
    lemma_parse_many_err, lemma_parse_many_held, lemma_parse_many_step, lemma_u32_bytes_roundtrip,
    parse_many, push_u32_le, read_u32_le, reads_back, u32_le,
};
use crate::serialization::transaction::{
    deserialize_transaction_with_witness, empty_witnesses, lemma_transaction_roundtrip,
    lemma_transaction_witness_roundtrip, lemma_u32_held, parse_tx, read_hash,
    serialize_transaction, serialize_transaction_with_witness, tx_bytes, tx_wf, tx_witness_bytes,
    witness_view, witness_wf, witnesses_view, witnesses_wf, WitnessesModel,
};
use crate::serialization::varint::{
    decode_varint_at, lemma_varint_decode_held, push_varint, varint_bytes, varint_decode,
};
use crate::types::{Block, BlockHeader, BlockModel, HeaderModel, Transaction, TxModel, Witness};
use vstd::prelude::*;

verus! {

/// Why a block could not be decoded.
#[derive(Debug, Clone, Copy, PartialEq, Eq, Structural)]
pub enum BlockParseError {
    InsufficientBytes,
    InvalidVersion,
    InvalidTimestamp,
    InvalidBits,
    InvalidNonce,
    InvalidTransactionCount,
    InvalidWitnessMarker,
}

impl BlockParseError {
    pub open spec fn spec_message(&self) -> Seq<char> {
        match self {
            BlockParseError::InsufficientBytes => "Insufficient bytes to parse block header"@,
            BlockParseError::InvalidVersion => "Invalid block version"@,
            BlockParseError::InvalidTimestamp => "Invalid block timestamp"@,
            BlockParseError::InvalidBits => "Invalid block bits"@,
            BlockParseError::InvalidNonce => "Invalid block nonce"@,
            BlockParseError::InvalidTransactionCount => "Invalid transaction count"@,
            BlockParseError::InvalidWitnessMarker => "Invalid witness marker"@,
        }
    }

    /// Returns the human-readable text of this error.
    pub fn message(&self) -> (s: String)
        ensures
            s@ == self.spec_message(),
    {
        match self {
            BlockParseError::InsufficientBytes => "Insufficient bytes to parse block header".to_owned(),
            BlockParseError::InvalidVersion => "Invalid block version".to_owned(),
            BlockParseError::InvalidTimestamp => "Invalid block timestamp".to_owned(),
            BlockParseError::InvalidBits => "Invalid block bits".to_owned(),
            BlockParseError::InvalidNonce => "Invalid block nonce".to_owned(),
            BlockParseError::InvalidTransactionCount => "Invalid transaction count".to_owned(),
            BlockParseError::InvalidWitnessMarker => "Invalid witness marker".to_owned(),
        }
    }
}


pub open spec fn block_err(e: BlockParseError) -> SerializationError {
    SerializationError::Block(e)
}

/// The 80-byte wire encoding of a block header.
pub open spec fn header_bytes(h: HeaderModel) -> Seq<u8> {
    u32_le(h.version as u32) + h.prev_block_hash + h.merkle_root + u32_le(h.timestamp as u32)
        + u32_le(h.bits as u32) + u32_le(h.nonce as u32)
}

/// Decoding a block header from the front of `s`.
pub open spec fn parse_header(s: Seq<u8>) -> Result<HeaderModel, SerializationError> {
    if s.len() < 80 {
        Err(block_err(BlockParseError::InsufficientBytes))
    } else {
        Ok(
            HeaderModel {
                version: (le_u32_at(s, 0) as i32) as i64,
                prev_block_hash: s.subrange(4, 36),
                merkle_root: s.subrange(36, 68),
                timestamp: le_u32_at(s, 68) as u64,
                bits: le_u32_at(s, 72) as u64,
                nonce: le_u32_at(s, 76) as u64,
            },
        )
    }
}

/// A header that survives encoding: a version that fits in `i32`, 32-byte
/// hashes, and time, bits and nonce that fit in 32 bits.
pub open spec fn header_wf(h: HeaderModel) -> bool {
    &&& ((h.version as u32) as i32) as i64 == h.version
    &&& h.prev_block_hash.len() == 32
    &&& h.merkle_root.len() == 32
    &&& h.timestamp <= u32::MAX
    &&& h.bits <= u32::MAX
    &&& h.nonce <= u32::MAX
}

/// Encodes a block header in its 80-byte wire format.
pub fn serialize_block_header(header: &BlockHeader) -> (result: Vec<u8>)
    ensures
        result@ == header_bytes(header@),
        result@.len() == 80,
{
    let mut result: Vec<u8> = Vec::with_capacity(80);
    push_u32_le(&mut result, header.version as u32);
    append_bytes(&mut result, header.prev_block_hash.as_slice());
    append_bytes(&mut result, header.merkle_root.as_slice());
    push_u32_le(&mut result, header.timestamp as u32);
    push_u32_le(&mut result, header.bits as u32);
    push_u32_le(&mut result, header.nonce as u32);
    assert(result@ =~= header_bytes(header@));
    result
}

/// Decodes a block header from the front of `data`.
pub fn deserialize_block_header(data: &[u8]) -> (res: Result<BlockHeader, SerializationError>)
    ensures
        match res {
            Ok(h) => parse_header(data@) == Ok::<HeaderModel, SerializationError>(h@),
            Err(e) => parse_header(data@) == Err::<HeaderModel, SerializationError>(e),
        },
{
    if data.len() < 80 {
        return Err(SerializationError::Block(BlockParseError::InsufficientBytes));
    }
    let version = read_u32_le(data, 0) as i32 as i64;
    let prev_block_hash = read_hash(data, 4);
    let merkle_root = read_hash(data, 36);
    let timestamp = read_u32_le(data, 68) as u64;
    let bits = read_u32_le(data, 72) as u64;
    let nonce = read_u32_le(data, 76) as u64;
    Ok(BlockHeader { version, prev_block_hash, merkle_root, timestamp, bits, nonce })
}

/// Decoding gives back every header that survives encoding, whatever bytes
/// follow it.
pub proof fn lemma_header_roundtrip(h: HeaderModel, rest: Seq<u8>)
    requires
        header_wf(h),
    ensures
        parse_header(header_bytes(h) + rest) == Ok::<HeaderModel, SerializationError>(h),
{
    let s = header_bytes(h) + rest;
    let a0 = u32_le(h.version as u32);
    let a1 = h.prev_block_hash;
    let a2 = h.merkle_root;
    let a3 = u32_le(h.timestamp as u32);
    let a4 = u32_le(h.bits as u32);
    let a5 = u32_le(h.nonce as u32);
    assert(s.subrange(0, 80) =~= header_bytes(h));
    lemma_holds_at_split(s, 0, a0 + a1 + a2 + a3 + a4, a5);
    lemma_holds_at_split(s, 0, a0 + a1 + a2 + a3, a4);
    lemma_holds_at_split(s, 0, a0 + a1 + a2, a3);
    lemma_holds_at_split(s, 0, a0 + a1, a2);
    lemma_holds_at_split(s, 0, a0, a1);
    lemma_u32_held(s, 0, h.version as u32);
    lemma_u32_held(s, 68, h.timestamp as u32);
    lemma_u32_held(s, 72, h.bits as u32);
    lemma_u32_held(s, 76, h.nonce as u32);
}

/// Whatever decodes as a header is the encoding of that header: the first 80
/// bytes are exactly `header_bytes` of the result.
pub proof fn lemma_header_canonical(s: Seq<u8>)
    ensures
        parse_header(s) matches Ok(h) ==> header_wf(h) && s.subrange(0, 80) == header_bytes(h),
{
    if let Ok(h) = parse_header(s) {
        let x0 = le_u32_at(s, 0);
        assert(((x0 as i32) as i64) as u32 == x0 && (((((x0 as i32) as i64) as u32) as i32) as i64)
            == (x0 as i32) as i64) by (bit_vector);
        lemma_u32_bytes_roundtrip(s[0], s[1], s[2], s[3]);
        lemma_u32_bytes_roundtrip(s[68], s[69], s[70], s[71]);
        lemma_u32_bytes_roundtrip(s[72], s[73], s[74], s[75]);
        lemma_u32_bytes_roundtrip(s[76], s[77], s[78], s[79]);
        assert(s.subrange(0, 80) =~= header_bytes(h));
    }
}


// ---------------------------------------------------------------------------
// Blocks
// ---------------------------------------------------------------------------

/// Model of the witness stacks of a block: per transaction, per input.
pub open spec fn block_witnesses_view(ws: Seq<Vec<Witness>>) -> Seq<WitnessesModel> {
    ws.map_values(|w: Vec<Witness>| witnesses_view(w@))
}

pub open spec fn tx_enc() -> spec_fn(TxModel) -> Seq<u8> {
    |tx: TxModel| tx_bytes(tx)
}

/// Some stack of a transaction's witness stacks holds an element.
pub open spec fn holds_witness_data(w: WitnessesModel) -> bool {
    exists|j: int| 0 <= j < w.len() && (#[trigger] w[j]).len() > 0
}

/// The witness stacks written with transaction `i` of `b`: those given for
/// it when witness data is asked for and they hold some, else one empty
/// stack per input.
pub open spec fn written_witnesses(
    b: BlockModel,
    ws: Seq<WitnessesModel>,
    include_witness: bool,
    i: int,
) -> WitnessesModel {
    if include_witness && i < ws.len() && holds_witness_data(ws[i]) {
        ws[i]
    } else {
        empty_witnesses(b.transactions[i].inputs.len())
    }
}

/// Each transaction of `b` with the witness stacks written with it.
pub open spec fn block_items(b: BlockModel, ws: Seq<WitnessesModel>, include_witness: bool) -> Seq<
    (TxModel, WitnessesModel),
> {
    Seq::new(
        b.transactions.len(),
        |i: int| (b.transactions[i], written_witnesses(b, ws, include_witness, i)),
    )
}

/// One transaction of a block on the wire: in the SegWit form when its
/// witness stacks hold data, in the plain form otherwise.
pub open spec fn block_tx_bytes(p: (TxModel, WitnessesModel)) -> Seq<u8> {
    if holds_witness_data(p.1) {
        tx_witness_bytes(p.0, p.1)
    } else {
        tx_bytes(p.0)
    }
}

pub open spec fn block_tx_enc() -> spec_fn((TxModel, WitnessesModel)) -> Seq<u8> {
    |p: (TxModel, WitnessesModel)| block_tx_bytes(p)
}

/// The block wire format: header, transaction count, then each transaction,
/// written in the SegWit form with its witness stacks when witness data is
/// asked for and its stacks hold some, and in the plain form otherwise.
pub open spec fn block_bytes(b: BlockModel, ws: Seq<WitnessesModel>, include_witness: bool) -> Seq<u8> {
    header_bytes(b.header) + varint_bytes(b.transactions.len() as u64) + concat(
        block_items(b, ws, include_witness).map_values(block_tx_enc()),
    )
}

/// Every transaction written in the SegWit form has one witness stack per
/// input.
pub open spec fn witness_counts_match(
    b: BlockModel,
    ws: Seq<WitnessesModel>,
    include_witness: bool,
) -> bool {
    include_witness ==> forall|i: int|
        0 <= i < b.transactions.len() && i < ws.len() && holds_witness_data(#[trigger] ws[i])
            ==> ws[i].len() == b.transactions[i].inputs.len()
}

/// Reading one transaction with its witness stacks at `o`.
pub open spec fn tx_item() -> spec_fn(Seq<u8>, int) -> Result<
    ((TxModel, WitnessesModel), int),
    SerializationError,
> {
    |s: Seq<u8>, o: int|
        match parse_tx(s.skip(o)) {
            Err(e) => Err(e),
            Ok((tx, ws, c)) => Ok(((tx, ws), o + c)),
        }
}

/// Decoding a block: the header, a nonzero transaction count, then that many
/// transactions, each with its witness stacks.
#[verifier::opaque]
pub open spec fn parse_block(s: Seq<u8>) -> Result<(BlockModel, Seq<WitnessesModel>), SerializationError> {
    if s.len() < 80 {
        Err(block_err(BlockParseError::InsufficientBytes))
    } else {
        match parse_header(s.subrange(0, 80)) {
            Err(e) => Err(e),
            Ok(header) => match varint_decode(s.skip(80)) {
                Err(e) => Err(e),
                Ok((count, n)) => {
                    if count == 0 {
                        Err(block_err(BlockParseError::InvalidTransactionCount))
                    } else {
                        match parse_many(tx_item(), s, 80 + n, count as nat) {
                            Err(e) => Err(e),
                            Ok((items, _)) => Ok(
                                (
                                    BlockModel {
                                        header,
                                        transactions: items.map_values(
                                            |p: (TxModel, WitnessesModel)| p.0,
                                        ),
                                    },
                                    items.map_values(|p: (TxModel, WitnessesModel)| p.1),
                                ),
                            ),
                        }
                    }
                },
            },
        }
    }
}

proof fn lemma_tx_item(s: Seq<u8>, o: int)
    ensures
        tx_item()(s, o) == (match parse_tx(s.skip(o)) {
            Err(e) => Err(e),
            Ok((tx, ws, c)) => Ok(((tx, ws), o + c)),
        }),
{
}

/// The decoded transactions paired with their witness stacks.
pub open spec fn tx_items_view(txs: Seq<Transaction>, wss: Seq<Vec<Witness>>) -> Seq<
    (TxModel, WitnessesModel),
> {
    Seq::new(txs.len(), |i: int| (txs[i]@, witnesses_view(wss[i]@)))
}

/// Decodes a complete block (with witness data) from `data`, returning the
/// block and, per transaction, its witness stacks.
#[verifier::spinoff_prover]
pub fn deserialize_block_with_witnesses(data: &[u8]) -> (res: Result<
    (Block, Vec<Vec<Witness>>),
    SerializationError,
>)
    ensures
        match res {
            Ok((b, ws)) => parse_block(data@) == Ok::<
                (BlockModel, Seq<WitnessesModel>),
                SerializationError,
            >((b@, block_witnesses_view(ws@))),
            Err(e) => parse_block(data@) == Err::<(BlockModel, Seq<WitnessesModel>), SerializationError>(
                e,
            ),
        },
{
    reveal(parse_block);
    if data.len() < 80 {
        return Err(SerializationError::Block(BlockParseError::InsufficientBytes));
    }
    let header_slice = &data[0..80];
    let header = match deserialize_block_header(header_slice) {
        Ok(h) => h,
        Err(e) => return Err(e),
    };
    let (tx_count, varint_len) = match decode_varint_at(data, 80) {
        Ok(r) => r,
        Err(e) => return Err(e),
    };
    if tx_count == 0 {
        return Err(SerializationError::Block(BlockParseError::InvalidTransactionCount));
    }
    let start = 80 + varint_len;
    let mut offset = start;
    let mut transactions: Vec<Transaction> = Vec::new();
    let mut all_witnesses: Vec<Vec<Witness>> = Vec::new();
    let mut k: u64 = 0;
    assert(tx_items_view(transactions@, all_witnesses@) =~= Seq::<(TxModel, WitnessesModel)>::empty());
    while k < tx_count
        invariant
            k <= tx_count,
            tx_count != 0,
            data@.len() >= 80,
            start == 80 + varint_len,
            parse_header(data@.subrange(0, 80)) == Ok::<HeaderModel, SerializationError>(header@),
            varint_decode(data@.skip(80)) == Ok::<(u64, usize), SerializationError>(
                (tx_count, varint_len),
            ),
            start <= offset <= data@.len(),
            transactions@.len() == k,
            all_witnesses@.len() == k,
            parse_many(tx_item(), data@, start as int, k as nat) == Ok::<
                (Seq<(TxModel, WitnessesModel)>, int),
                SerializationError,
            >((tx_items_view(transactions@, all_witnesses@), offset as int)),
        decreases tx_count - k,
    {
        proof {
            lemma_parse_many_step(tx_item(), data@, start as int, k as nat);
            lemma_tx_item(data@, offset as int);
        }
        let rest = &data[offset..data.len()];
        assert(rest@ =~= data@.skip(offset as int));
        match deserialize_transaction_with_witness(rest) {
            Ok((tx, input_witnesses, bytes_consumed)) => {
                let ghost old_items = tx_items_view(transactions@, all_witnesses@);
                transactions.push(tx);
                all_witnesses.push(input_witnesses);
                assert(tx_items_view(transactions@, all_witnesses@) =~= old_items.push(
                    (tx@, witnesses_view(input_witnesses@)),
                ));
                offset = offset + bytes_consumed;
            },
            Err(e) => {
                proof {
                    reveal(parse_block);
                    lemma_parse_many_err(tx_item(), data@, start as int, (k + 1) as nat, tx_count as nat);
                }
                return Err(e);
            },
        }
        k = k + 1;
    }
    let ghost items = tx_items_view(transactions@, all_witnesses@);
    assert(transactions@.map_values(|t: Transaction| t@) =~= items.map_values(
        |p: (TxModel, WitnessesModel)| p.0,
    ));
    assert(block_witnesses_view(all_witnesses@) =~= items.map_values(
        |p: (TxModel, WitnessesModel)| p.1,
    ));
    Ok((Block { header, transactions }, all_witnesses))
}


/// Whether one transaction's witness stacks hold any element.
fn has_witness_data(tx_witnesses: &Vec<Witness>) -> (b: bool)
    ensures
        b == holds_witness_data(witnesses_view(tx_witnesses@)),
{
    let ghost w = witnesses_view(tx_witnesses@);
    let n = tx_witnesses.len();
    let mut j: usize = 0;
    while j < n
        invariant
            n == tx_witnesses@.len(),
            w == witnesses_view(tx_witnesses@),
            j <= n,
            forall|i: int| 0 <= i < j ==> (#[trigger] w[i]).len() == 0,
        decreases n - j,
    {
        if tx_witnesses[j].len() != 0 {
            assert(w[j as int] == witness_view(tx_witnesses@[j as int]));
            assert(w[j as int].len() > 0);
            return true;
        }
        assert(w[j as int] == witness_view(tx_witnesses@[j as int]));
        j = j + 1;
    }
    false
}

/// Appends the wire form of one transaction of a block: the SegWit form with
/// its witness stacks when witness data is asked for and they hold some, the
/// plain form otherwise.
fn append_block_tx(
    out: &mut Vec<u8>,
    block: &Block,
    witnesses: &[Vec<Witness>],
    include_witness: bool,
    k: usize,
)
    requires
        k < block.transactions@.len(),
        witness_counts_match(block@, block_witnesses_view(witnesses@), include_witness),
    ensures
        final(out)@ == old(out)@ + block_tx_bytes(
            block_items(block@, block_witnesses_view(witnesses@), include_witness)[k as int],
        ),
{
    let ghost b = block@;
    let ghost ws = block_witnesses_view(witnesses@);
    let ghost p = block_items(b, ws, include_witness)[k as int];
    let tx = &block.transactions[k];
    assert(p.0 == tx@);
    if include_witness && k < witnesses.len() && has_witness_data(&witnesses[k]) {
        assert(ws[k as int] == witnesses_view(witnesses@[k as int]@));
        assert(p.1 == ws[k as int]);
        let encoded = serialize_transaction_with_witness(tx, witnesses[k].as_slice());
        append_bytes(out, encoded.as_slice());
    } else {
        assert(p.1 == empty_witnesses(tx@.inputs.len()));
        assert(!holds_witness_data(p.1));
        let encoded = serialize_transaction(tx);
        append_bytes(out, encoded.as_slice());
    }
}

/// Encodes a block in the wire format: header, transaction count, then each
/// transaction, in the SegWit form with its witness stacks when
/// `include_witness` is set and they hold some element, in the plain form
/// otherwise. Witness stacks given beyond the last transaction are ignored.
pub fn serialize_block_with_witnesses(
    block: &Block,
    witnesses: &[Vec<Witness>],
    include_witness: bool,
) -> (result: Vec<u8>)
    requires
        witness_counts_match(block@, block_witnesses_view(witnesses@), include_witness),
    ensures
        result@ == block_bytes(block@, block_witnesses_view(witnesses@), include_witness),
{
    let ghost b = block@;
    let ghost ws = block_witnesses_view(witnesses@);
    let ghost items = block_items(b, ws, include_witness);
    let mut result = serialize_block_header(&block.header);
    let n = block.transactions.len();
    push_varint(&mut result, n as u64);
    let ghost base = result@;
    let mut k: usize = 0;
    assert(items.take(0).map_values(block_tx_enc()) =~= Seq::<Seq<u8>>::empty());
    while k < n
        invariant
            n == block.transactions@.len(),
            b == block@,
            ws == block_witnesses_view(witnesses@),
            items == block_items(b, ws, include_witness),
            witness_counts_match(b, ws, include_witness),
            items.len() == n,
            k <= n,
            result@ == base + concat(items.take(k as int).map_values(block_tx_enc())),
        decreases n - k,
    {
        proof {
            lemma_concat_map_take(items, block_tx_enc(), k as int);
        }
        append_block_tx(&mut result, block, witnesses, include_witness, k);
        k = k + 1;
    }
    assert(items.take(n as int) =~= items);
    assert(result@ =~= block_bytes(b, ws, include_witness));
    result
}

/// The block encoding without witness data.
pub open spec fn plain_block_bytes(b: BlockModel) -> Seq<u8> {
    header_bytes(b.header) + varint_bytes(b.transactions.len() as u64) + concat(
        b.transactions.map_values(tx_enc()),
    )
}

/// Empty witness stacks hold no data.
proof fn lemma_empty_witnesses_hold_nothing(k: nat)
    ensures
        !holds_witness_data(empty_witnesses(k)),
        empty_witnesses(k).len() == k,
{
    assert forall|j: int| 0 <= j < empty_witnesses(k).len() implies (
    #[trigger] empty_witnesses(k)[j]).len() == 0 by {}
}

/// Without witness data, every transaction is written in the plain form.
proof fn lemma_plain_block_bytes(b: BlockModel, ws: Seq<WitnessesModel>)
    ensures
        block_bytes(b, ws, false) == plain_block_bytes(b),
{
    let items = block_items(b, ws, false);
    assert forall|i: int| 0 <= i < b.transactions.len() implies #[trigger] items.map_values(
        block_tx_enc(),
    )[i] == b.transactions.map_values(tx_enc())[i] by {
        lemma_empty_witnesses_hold_nothing(b.transactions[i].inputs.len());
    }
    assert(items.map_values(block_tx_enc()) =~= b.transactions.map_values(tx_enc()));
}

/// Encodes a block without witness data.
pub fn serialize_block(block: &Block) -> (result: Vec<u8>)
    ensures
        result@ == plain_block_bytes(block@),
{
    let n = block.transactions.len();
    let mut witnesses: Vec<Vec<Witness>> = Vec::new();
    let mut k: usize = 0;
    while k < n
        invariant
            k <= n,
        decreases n - k,
    {
        witnesses.push(Vec::new());
        k = k + 1;
    }
    proof {
        lemma_plain_block_bytes(block@, block_witnesses_view(witnesses@));
    }
    serialize_block_with_witnesses(block, witnesses.as_slice(), false)
}

/// Whether `provided_size` is the length of the block's wire form with the
/// given witness stacks.
pub fn validate_block_serialized_size(
    block: &Block,
    witnesses: &[Vec<Witness>],
    include_witness: bool,
    provided_size: usize,
) -> (b: bool)
    requires
        witness_counts_match(block@, block_witnesses_view(witnesses@), include_witness),
    ensures
        b == (block_bytes(block@, block_witnesses_view(witnesses@), include_witness).len()
            == provided_size),
{
    let serialized = serialize_block_with_witnesses(block, witnesses, include_witness);
    serialized.len() == provided_size
}


/// A block that survives encoding: a well-formed header and at least one
/// transaction, each surviving encoding.
pub open spec fn block_wf(b: BlockModel) -> bool {
    &&& header_wf(b.header)
    &&& 0 < b.transactions.len() <= u64::MAX
    &&& forall|i: int| 0 <= i < b.transactions.len() ==> tx_wf(#[trigger] b.transactions[i])
}

/// One empty witness stack per input of each transaction.
pub open spec fn empty_block_witnesses(b: BlockModel) -> Seq<WitnessesModel> {
    b.transactions.map_values(|tx: TxModel| empty_witnesses(tx.inputs.len()))
}

proof fn lemma_parse_block_steps(
    s: Seq<u8>,
    header: HeaderModel,
    count: u64,
    n: usize,
    items: Seq<(TxModel, WitnessesModel)>,
    o: int,
)
    requires
        s.len() >= 80,
        parse_header(s.subrange(0, 80)) == Ok::<HeaderModel, SerializationError>(header),
        varint_decode(s.skip(80)) == Ok::<(u64, usize), SerializationError>((count, n)),
        count != 0,
        parse_many(tx_item(), s, 80 + n, count as nat) == Ok::<
            (Seq<(TxModel, WitnessesModel)>, int),
            SerializationError,
        >((items, o)),
    ensures
        parse_block(s) == Ok::<(BlockModel, Seq<WitnessesModel>), SerializationError>(
            (
                BlockModel {
                    header,
                    transactions: items.map_values(|p: (TxModel, WitnessesModel)| p.0),
                },
                items.map_values(|p: (TxModel, WitnessesModel)| p.1),
            ),
        ),
{
    reveal(parse_block);
}

/// Witness stacks that can be written with their transactions in the
/// SegWit form: where witness data is asked for and a transaction's stacks
/// hold some, they are one well-formed stack per input.
pub open spec fn block_witnesses_wf(b: BlockModel, ws: Seq<WitnessesModel>, include_witness: bool) -> bool {
    include_witness ==> forall|i: int|
        0 <= i < b.transactions.len() && i < ws.len() && holds_witness_data(#[trigger] ws[i])
            ==> witnesses_wf(b.transactions[i], ws[i])
}

pub open spec fn block_item_wf() -> spec_fn((TxModel, WitnessesModel)) -> bool {
    |p: (TxModel, WitnessesModel)| tx_wf(p.0) && witnesses_wf(p.0, p.1)
}

/// One stack per input, none holding data: the empty stacks.
proof fn lemma_unwitnessed_is_empty(tx: TxModel, w: WitnessesModel)
    requires
        w.len() == tx.inputs.len(),
        !holds_witness_data(w),
    ensures
        w == empty_witnesses(tx.inputs.len()),
{
    assert forall|j: int| 0 <= j < w.len() implies #[trigger] w[j] == Seq::<Seq<u8>>::empty() by {
        assert(!((#[trigger] w[j]).len() > 0));
        assert(w[j] =~= Seq::<Seq<u8>>::empty());
    }
    assert(w =~= empty_witnesses(tx.inputs.len()));
}

/// Empty stacks, one per input, are well formed.
proof fn lemma_empty_witnesses_wf(tx: TxModel)
    ensures
        witnesses_wf(tx, empty_witnesses(tx.inputs.len())),
{
    let e = empty_witnesses(tx.inputs.len());
    assert forall|j: int| 0 <= j < e.len() implies witness_wf(#[trigger] e[j]) by {
        assert(e[j] == Seq::<Seq<u8>>::empty());
    }
}

proof fn lemma_reads_back_block_txs(s: Seq<u8>)
    ensures
        reads_back(tx_item(), block_tx_enc(), block_item_wf(), s),
{
    assert forall|o: int, x: (TxModel, WitnessesModel)|
        block_item_wf()(x) && holds_at(s, o, #[trigger] block_tx_enc()(x)) implies #[trigger] tx_item()(
        s,
        o,
    ) == Ok::<((TxModel, WitnessesModel), int), SerializationError>(
        (x, o + block_tx_enc()(x).len()),
    ) by {
        let e = block_tx_bytes(x);
        let rest = s.skip(o + e.len());
        assert(s.skip(o) =~= e + rest);
        if holds_witness_data(x.1) {
            lemma_transaction_witness_roundtrip(x.0, x.1, rest);
        } else {
            lemma_transaction_roundtrip(x.0, rest);
            lemma_unwitnessed_is_empty(x.0, x.1);
        }
        lemma_tx_item(s, o);
    }
}

proof fn lemma_block_items_wf(b: BlockModel, ws: Seq<WitnessesModel>, include_witness: bool)
    requires
        block_wf(b),
        block_witnesses_wf(b, ws, include_witness),
    ensures
        forall|i: int|
            0 <= i < block_items(b, ws, include_witness).len() ==> block_item_wf()(
                #[trigger] block_items(b, ws, include_witness)[i],
            ),
        block_items(b, ws, include_witness).map_values(|p: (TxModel, WitnessesModel)| p.0)
            == b.transactions,
{
    let items = block_items(b, ws, include_witness);
    assert forall|i: int| 0 <= i < items.len() implies block_item_wf()(#[trigger] items[i]) by {
        assert(tx_wf(b.transactions[i]));
        lemma_empty_witnesses_wf(b.transactions[i]);
    }
    assert(items.map_values(|p: (TxModel, WitnessesModel)| p.0) =~= b.transactions);
}

#[verifier::spinoff_prover]
proof fn lemma_block_bytes_held(s: Seq<u8>, b: BlockModel, ws: Seq<WitnessesModel>, include_witness: bool)
    requires
        block_wf(b),
        block_witnesses_wf(b, ws, include_witness),
        holds_at(s, 0, block_bytes(b, ws, include_witness)),
    ensures
        parse_block(s) == Ok::<(BlockModel, Seq<WitnessesModel>), SerializationError>(
            (
                b,
                block_items(b, ws, include_witness).map_values(
                    |p: (TxModel, WitnessesModel)| p.1,
                ),
            ),
        ),
{
    let n = b.transactions.len();
    let items = block_items(b, ws, include_witness);
    let h = header_bytes(b.header);
    let c = varint_bytes(n as u64);
    let body = concat(items.map_values(block_tx_enc()));
    let off = 80int + c.len();
    lemma_holds_at_split(s, 0, h + c, body);
    lemma_holds_at_split(s, 0, h, c);
    assert(s.subrange(0, 80) == h);
    assert(h + Seq::<u8>::empty() =~= h);
    lemma_header_roundtrip(b.header, Seq::empty());
    lemma_varint_decode_held(s, 80, n as u64);
    lemma_block_items_wf(b, ws, include_witness);
    lemma_reads_back_block_txs(s);
    lemma_parse_many_held(tx_item(), block_tx_enc(), block_item_wf(), s, off, items);
    crate::serialization::varint::lemma_varint_len(n as u64);
    assert((c.len() as usize) as int == c.len());
    assert(((n as u64) as nat) == n);
    assert(items.len() == n);
    lemma_parse_block_steps(s, b.header, n as u64, c.len() as usize, items, off + body.len());
    assert(b == BlockModel { header: b.header, transactions: b.transactions });
}

/// Decoding the wire form of a block gives back the block and, per
/// transaction, the witness stacks written with it, whatever bytes follow.
pub proof fn lemma_block_bytes_roundtrip(
    b: BlockModel,
    ws: Seq<WitnessesModel>,
    include_witness: bool,
    rest: Seq<u8>,
)
    requires
        block_wf(b),
        block_witnesses_wf(b, ws, include_witness),
    ensures
        parse_block(block_bytes(b, ws, include_witness) + rest) == Ok::<
            (BlockModel, Seq<WitnessesModel>),
            SerializationError,
        >(
            (
                b,
                Seq::new(
                    b.transactions.len(),
                    |i: int| written_witnesses(b, ws, include_witness, i),
                ),
            ),
        ),
{
    let e = block_bytes(b, ws, include_witness);
    let s = e + rest;
    assert(s.subrange(0, e.len() as int) =~= e);
    lemma_block_bytes_held(s, b, ws, include_witness);
    assert(block_items(b, ws, include_witness).map_values(|p: (TxModel, WitnessesModel)| p.1)
        =~= Seq::new(b.transactions.len(), |i: int| written_witnesses(b, ws, include_witness, i)));
}

/// Decoding a block written with its witness data (one well-formed stack per
/// input of each transaction) gives back the block and exactly those witness
/// stacks, whatever bytes follow.
pub proof fn lemma_block_witness_roundtrip(b: BlockModel, ws: Seq<WitnessesModel>, rest: Seq<u8>)
    requires
        block_wf(b),
        ws.len() == b.transactions.len(),
        forall|i: int| 0 <= i < ws.len() ==> witnesses_wf(b.transactions[i], #[trigger] ws[i]),
    ensures
        parse_block(block_bytes(b, ws, true) + rest) == Ok::<
            (BlockModel, Seq<WitnessesModel>),
            SerializationError,
        >((b, ws)),
{
    lemma_block_bytes_roundtrip(b, ws, true, rest);
    let got = Seq::new(b.transactions.len(), |i: int| written_witnesses(b, ws, true, i));
    assert forall|i: int| 0 <= i < ws.len() implies #[trigger] got[i] == ws[i] by {
        if !holds_witness_data(ws[i]) {
            lemma_unwitnessed_is_empty(b.transactions[i], ws[i]);
        }
    }
    assert(got =~= ws);
}

/// Decoding gives back every block that survives encoding, encoded without
/// witness data, with one empty witness stack per transaction input, whatever
/// bytes follow it.
pub proof fn lemma_block_roundtrip(b: BlockModel, rest: Seq<u8>)
    requires
        block_wf(b),
    ensures
        parse_block(plain_block_bytes(b) + rest) == Ok::<
            (BlockModel, Seq<WitnessesModel>),
            SerializationError,
        >((b, empty_block_witnesses(b))),
{
    lemma_plain_block_bytes(b, Seq::empty());
    lemma_block_bytes_roundtrip(b, Seq::empty(), false, rest);
    assert(Seq::new(b.transactions.len(), |i: int| written_witnesses(b, Seq::empty(), false, i))
        =~= empty_block_witnesses(b));
}

} // verus!
