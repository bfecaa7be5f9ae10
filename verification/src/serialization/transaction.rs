//! Transaction wire format.

use crate::error::SerializationError;
use crate::serialization::bytes::{
    concat, holds_at, le_u32_at, le_u64_at, lemma_holds_at_split, lemma_parse_many_err,
    lemma_parse_many_held, lemma_parse_many_step, parse_many, reads_back, u32_le, u64_le,
};
use crate::serialization::bytes::{
    lemma_u32_roundtrip, lemma_u64_roundtrip, append_bytes, lemma_concat_map_take, push_u32_le, push_u64_le, read_u32_le, read_u64_le,
};
use crate::serialization::varint::{
    decode_varint_at, lemma_varint_decode_held, push_varint, varint_bytes, varint_decode,
};
use crate::types::{
    OutPoint, Transaction, TransactionInput, TransactionOutput, TxInModel, TxModel, TxOutModel,
    Witness,
};
use vstd::prelude::*;

verus! {

/// Why a transaction could not be decoded.
#[derive(Debug, Clone, Copy, PartialEq, Eq, Structural)]
pub enum TransactionParseError {
    InsufficientBytes,
    InvalidVersion,
    InvalidInputCount,
    InvalidOutputCount,
    InvalidScriptLength,
    InvalidLockTime,
}

impl TransactionParseError {
    pub open spec fn spec_message(&self) -> Seq<char> {
        match self {
            TransactionParseError::InsufficientBytes => "Insufficient bytes to parse transaction"@,
            TransactionParseError::InvalidVersion => "Invalid transaction version"@,
            TransactionParseError::InvalidInputCount => "Invalid input count"@,
            TransactionParseError::InvalidOutputCount => "Invalid output count"@,
            TransactionParseError::InvalidScriptLength => "Invalid script length"@,
            TransactionParseError::InvalidLockTime => "Invalid lock time"@,
        }
    }

    /// Returns the human-readable text of this error.
    pub fn message(&self) -> (s: String)
        ensures
            s@ == self.spec_message(),
    {
        match self {
            TransactionParseError::InsufficientBytes => "Insufficient bytes to parse transaction".to_owned(),
            TransactionParseError::InvalidVersion => "Invalid transaction version".to_owned(),
            TransactionParseError::InvalidInputCount => "Invalid input count".to_owned(),
            TransactionParseError::InvalidOutputCount => "Invalid output count".to_owned(),
            TransactionParseError::InvalidScriptLength => "Invalid script length".to_owned(),
            TransactionParseError::InvalidLockTime => "Invalid lock time".to_owned(),
        }
    }
}


/// Largest input or output count that decoding accepts.
pub const MAX_TX_VECTOR_LEN: u64 = 1_000_000;

/// The witness stacks of a transaction: per input, a stack of byte strings.
pub type WitnessesModel = Seq<Seq<Seq<u8>>>;

pub open spec fn tx_err(e: TransactionParseError) -> SerializationError {
    SerializationError::Transaction(e)
}

pub open spec fn short() -> SerializationError {
    SerializationError::Transaction(TransactionParseError::InsufficientBytes)
}

// ---------------------------------------------------------------------------
// Encoding
// ---------------------------------------------------------------------------

/// A length-prefixed byte string.
pub open spec fn var_bytes(b: Seq<u8>) -> Seq<u8> {
    varint_bytes(b.len() as u64) + b
}

pub open spec fn input_bytes(i: TxInModel) -> Seq<u8> {
    i.prevout_hash + u32_le(i.prevout_index) + var_bytes(i.script_sig) + u32_le(i.sequence as u32)
}

pub open spec fn output_bytes(o: TxOutModel) -> Seq<u8> {
    u64_le(o.value as u64) + var_bytes(o.script_pubkey)
}

/// A witness stack: its element count, then each element length-prefixed.
pub open spec fn witness_bytes(w: Seq<Seq<u8>>) -> Seq<u8> {
    varint_bytes(w.len() as u64) + concat(w.map_values(var_bytes_enc()))
}

pub open spec fn input_enc() -> spec_fn(TxInModel) -> Seq<u8> {
    |i: TxInModel| input_bytes(i)
}

pub open spec fn output_enc() -> spec_fn(TxOutModel) -> Seq<u8> {
    |o: TxOutModel| output_bytes(o)
}

pub open spec fn witness_enc() -> spec_fn(Seq<Seq<u8>>) -> Seq<u8> {
    |w: Seq<Seq<u8>>| witness_bytes(w)
}

pub open spec fn var_bytes_enc() -> spec_fn(Seq<u8>) -> Seq<u8> {
    |e: Seq<u8>| var_bytes(e)
}

pub open spec fn inputs_bytes(ins: Seq<TxInModel>) -> Seq<u8> {
    concat(ins.map_values(input_enc()))
}

pub open spec fn outputs_bytes(outs: Seq<TxOutModel>) -> Seq<u8> {
    concat(outs.map_values(output_enc()))
}

pub open spec fn witnesses_bytes(ws: WitnessesModel) -> Seq<u8> {
    concat(ws.map_values(witness_enc()))
}

/// What follows the version: the input count, written in the extended form
/// (empty dummy input vector, flag 1, real count) when there are no inputs
/// but some outputs.
pub open spec fn input_count_bytes(tx: TxModel) -> Seq<u8> {
    if tx.inputs.len() == 0 && tx.outputs.len() > 0 {
        varint_bytes(0) + seq![1u8] + varint_bytes(0)
    } else {
        varint_bytes(tx.inputs.len() as u64)
    }
}

/// The wire encoding of a transaction without witness data.
pub open spec fn tx_bytes(tx: TxModel) -> Seq<u8> {
    u32_le(tx.version as u32) + input_count_bytes(tx) + inputs_bytes(tx.inputs) + varint_bytes(
        tx.outputs.len() as u64,
    ) + outputs_bytes(tx.outputs) + u32_le(tx.lock_time as u32)
}

/// The SegWit wire encoding of a transaction with one witness stack per input.
pub open spec fn tx_witness_bytes(tx: TxModel, ws: WitnessesModel) -> Seq<u8> {
    u32_le(tx.version as u32) + seq![0u8, 1u8] + varint_bytes(tx.inputs.len() as u64)
        + inputs_bytes(tx.inputs) + varint_bytes(tx.outputs.len() as u64) + outputs_bytes(
        tx.outputs,
    ) + witnesses_bytes(ws) + u32_le(tx.lock_time as u32)
}

// ---------------------------------------------------------------------------
// Decoding
// ---------------------------------------------------------------------------

/// A length-prefixed byte string at `off`.
pub open spec fn parse_var_bytes(s: Seq<u8>, off: int) -> Result<(Seq<u8>, int), SerializationError> {
    match varint_decode(s.skip(off)) {
        Err(e) => Err(e),
        Ok((len, n)) => {
            let start = off + n;
            if len > usize::MAX {
                Err(tx_err(TransactionParseError::InvalidScriptLength))
            } else if start + len > s.len() {
                Err(short())
            } else {
                Ok((s.subrange(start, start + len), start + len))
            }
        },
    }
}

/// After the version: whether the extended (SegWit) form is used, the input
/// count, the position after it, and whether the output vector is implicitly
/// empty (empty input vector followed by flag 0).
pub open spec fn parse_input_count(s: Seq<u8>, off: int) -> Result<
    (bool, u64, int, bool),
    SerializationError,
> {
    match varint_decode(s.skip(off)) {
        Err(e) => Err(e),
        Ok((ic, n)) => {
            let o1 = off + n;
            if ic > MAX_TX_VECTOR_LEN {
                Err(tx_err(TransactionParseError::InvalidInputCount))
            } else if ic == 0 {
                if o1 >= s.len() {
                    Err(short())
                } else if s[o1] == 0 {
                    Ok((false, 0, o1 + 1, true))
                } else if s[o1] != 1 {
                    Err(SerializationError::UnsupportedSegwitFlag(s[o1]))
                } else {
                    match varint_decode(s.skip(o1 + 1)) {
                        Err(e) => Err(e),
                        Ok((ic2, n2)) => {
                            if ic2 > MAX_TX_VECTOR_LEN {
                                Err(tx_err(TransactionParseError::InvalidInputCount))
                            } else {
                                Ok((true, ic2, o1 + 1 + n2, false))
                            }
                        },
                    }
                }
            } else {
                Ok((false, ic, o1, false))
            }
        },
    }
}

pub open spec fn parse_input(s: Seq<u8>, off: int) -> Result<(TxInModel, int), SerializationError> {
    if s.len() < off + 36 {
        Err(short())
    } else {
        match parse_var_bytes(s, off + 36) {
            Err(e) => Err(e),
            Ok((script, o)) => {
                if s.len() < o + 4 {
                    Err(short())
                } else {
                    Ok(
                        (
                            TxInModel {
                                prevout_hash: s.subrange(off, off + 32),
                                prevout_index: le_u32_at(s, off + 32),
                                script_sig: script,
                                sequence: le_u32_at(s, o) as u64,
                            },
                            o + 4,
                        ),
                    )
                }
            },
        }
    }
}

pub open spec fn parse_output(s: Seq<u8>, off: int) -> Result<(TxOutModel, int), SerializationError> {
    if s.len() < off + 8 {
        Err(short())
    } else {
        match parse_var_bytes(s, off + 8) {
            Err(e) => Err(e),
            Ok((script, o)) => Ok(
                (TxOutModel { value: le_u64_at(s, off) as i64, script_pubkey: script }, o),
            ),
        }
    }
}

/// A witness stack: the element count, then the elements.
pub open spec fn parse_witness(s: Seq<u8>, off: int) -> Result<(Seq<Seq<u8>>, int), SerializationError> {
    match varint_decode(s.skip(off)) {
        Err(e) => Err(e),
        Ok((k, n)) => parse_many(var_bytes_item(), s, off + n, k as nat),
    }
}

pub open spec fn var_bytes_item() -> spec_fn(Seq<u8>, int) -> Result<(Seq<u8>, int), SerializationError> {
    |s: Seq<u8>, o: int| parse_var_bytes(s, o)
}

pub open spec fn input_item() -> spec_fn(Seq<u8>, int) -> Result<(TxInModel, int), SerializationError> {
    |s: Seq<u8>, o: int| parse_input(s, o)
}

pub open spec fn output_item() -> spec_fn(Seq<u8>, int) -> Result<(TxOutModel, int), SerializationError> {
    |s: Seq<u8>, o: int| parse_output(s, o)
}

pub open spec fn witness_item() -> spec_fn(Seq<u8>, int) -> Result<(Seq<Seq<u8>>, int), SerializationError> {
    |s: Seq<u8>, o: int| parse_witness(s, o)
}

/// The output count, unless the output vector is implicitly empty.
pub open spec fn parse_output_count(s: Seq<u8>, off: int, implicit_empty: bool) -> Result<
    (u64, int),
    SerializationError,
> {
    if implicit_empty {
        Ok((0, off))
    } else {
        match varint_decode(s.skip(off)) {
            Err(e) => Err(e),
            Ok((oc, n)) => {
                if oc > MAX_TX_VECTOR_LEN {
                    Err(tx_err(TransactionParseError::InvalidOutputCount))
                } else {
                    Ok((oc, off + n))
                }
            },
        }
    }
}

/// Model of a witness stack.
pub open spec fn witness_view(w: Witness) -> Seq<Seq<u8>> {
    w@.map_values(|e: Vec<u8>| e@)
}

/// Model of the witness stacks of a transaction.
pub open spec fn witnesses_view(ws: Seq<Witness>) -> WitnessesModel {
    ws.map_values(|w: Witness| witness_view(w))
}

/// `n` empty witness stacks.
pub open spec fn empty_witnesses(n: nat) -> WitnessesModel {
    Seq::new(n, |i: int| Seq::<Seq<u8>>::empty())
}

/// The witness stacks at `off`: read when the extended form is used, else
/// one empty stack per input.
pub open spec fn parse_witnesses(s: Seq<u8>, off: int, segwit: bool, n_inputs: nat) -> Result<
    (WitnessesModel, int),
    SerializationError,
> {
    if segwit {
        parse_many(witness_item(), s, off, n_inputs)
    } else {
        Ok((empty_witnesses(n_inputs), off))
    }
}

/// Decoding a transaction from the front of `s`: the transaction, its
/// witness stacks and the number of bytes it took, or the first failure.
#[verifier::opaque]
pub open spec fn parse_tx(s: Seq<u8>) -> Result<(TxModel, WitnessesModel, int), SerializationError> {
    if s.len() < 4 {
        Err(short())
    } else {
        match parse_input_count(s, 4) {
            Err(e) => Err(e),
            Ok((segwit, ic, o1, implicit_empty)) => match parse_many(input_item(), s, o1, ic as nat) {
                Err(e) => Err(e),
                Ok((ins, o2)) => match parse_output_count(s, o2, implicit_empty) {
                    Err(e) => Err(e),
                    Ok((oc, o3)) => match parse_many(output_item(), s, o3, oc as nat) {
                        Err(e) => Err(e),
                        Ok((outs, o4)) => match parse_witnesses(s, o4, segwit, ic as nat) {
                            Err(e) => Err(e),
                            Ok((ws, o5)) => {
                                if s.len() < o5 + 4 {
                                    Err(short())
                                } else {
                                    Ok(
                                        (
                                            TxModel {
                                                version: (le_u32_at(s, 0) as i32) as u64,
                                                inputs: ins,
                                                outputs: outs,
                                                lock_time: le_u32_at(s, o5) as u64,
                                            },
                                            ws,
                                            o5 + 4,
                                        ),
                                    )
                                }
                            },
                        },
                    },
                },
            },
        }
    }
}


// ---------------------------------------------------------------------------
// Executable decoding
// ---------------------------------------------------------------------------

/// The end of a slice of `len` bytes that starts at `offset`; a length that
/// does not fit in `usize` is an invalid script length, an end past
/// `usize::MAX` is a lack of bytes.
fn checked_slice_end(offset: usize, len: u64) -> (res: Result<usize, SerializationError>)
    ensures
        len > usize::MAX ==> res == Err::<usize, SerializationError>(
            tx_err(TransactionParseError::InvalidScriptLength),
        ),
        len <= usize::MAX && offset + len > usize::MAX ==> res == Err::<usize, SerializationError>(
            short(),
        ),
        len <= usize::MAX && offset + len <= usize::MAX ==> res == Ok::<usize, SerializationError>(
            (offset + len) as usize,
        ),
{
    if len > usize::MAX as u64 {
        return Err(SerializationError::Transaction(TransactionParseError::InvalidScriptLength));
    }
    let len = len as usize;
    match offset.checked_add(len) {
        Some(end) => Ok(end),
        None => Err(SerializationError::Transaction(TransactionParseError::InsufficientBytes)),
    }
}

/// The bytes `data[start..end]` as a new vector.
fn copy_range(data: &[u8], start: usize, end: usize) -> (v: Vec<u8>)
    requires
        start <= end <= data@.len(),
    ensures
        v@ == data@.subrange(start as int, end as int),
{
    let mut v: Vec<u8> = Vec::new();
    append_bytes(&mut v, &data[start..end]);
    v
}

/// Reads a length-prefixed byte string at `off`.
fn read_var_bytes(data: &[u8], off: usize) -> (res: Result<(Vec<u8>, usize), SerializationError>)
    requires
        off <= data@.len(),
    ensures
        match res {
            Ok((b, o)) => o <= data@.len() && parse_var_bytes(data@, off as int) == Ok::<
                (Seq<u8>, int),
                SerializationError,
            >((b@, o as int)),
            Err(e) => parse_var_bytes(data@, off as int) == Err::<(Seq<u8>, int), SerializationError>(e),
        },
{
    let (len, n) = match decode_varint_at(data, off) {
        Ok(r) => r,
        Err(e) => return Err(e),
    };
    let start = off + n;
    let end = match checked_slice_end(start, len) {
        Ok(end) => end,
        Err(e) => return Err(e),
    };
    if data.len() < end {
        return Err(SerializationError::Transaction(TransactionParseError::InsufficientBytes));
    }
    Ok((copy_range(data, start, end), end))
}

/// Skips a length-prefixed byte string at `off`.
fn skip_var_bytes(data: &[u8], off: usize) -> (res: Result<usize, SerializationError>)
    requires
        off <= data@.len(),
    ensures
        match res {
            Ok(o) => o <= data@.len() && parse_var_bytes(data@, off as int) is Ok && parse_var_bytes(
                data@,
                off as int,
            )->Ok_0.1 == o as int,
            Err(e) => parse_var_bytes(data@, off as int) == Err::<(Seq<u8>, int), SerializationError>(e),
        },
{
    let (len, n) = match decode_varint_at(data, off) {
        Ok(r) => r,
        Err(e) => return Err(e),
    };
    let start = off + n;
    let end = match checked_slice_end(start, len) {
        Ok(end) => end,
        Err(e) => return Err(e),
    };
    if data.len() < end {
        return Err(SerializationError::Transaction(TransactionParseError::InsufficientBytes));
    }
    Ok(end)
}

/// Reads the 32 bytes at `off` as a hash.
pub(crate) fn read_hash(data: &[u8], off: usize) -> (hash: [u8; 32])
    requires
        off + 32 <= data@.len(),
    ensures
        hash@ == data@.subrange(off as int, off + 32),
{
    let mut hash = [0u8; 32];
    let mut i: usize = 0;
    while i < 32
        invariant
            off + 32 <= data.len(),
            i <= 32,
            hash@.len() == 32,
            forall|j: int| 0 <= j < i ==> hash@[j] == data@[off + j],
        decreases 32 - i,
    {
        hash[i] = data[off + i];
        i = i + 1;
    }
    assert(hash@ =~= data@.subrange(off as int, off + 32));
    hash
}

/// Reads one transaction input at `off`.
fn read_input(data: &[u8], off: usize) -> (res: Result<(TransactionInput, usize), SerializationError>)
    requires
        off <= data@.len(),
    ensures
        match res {
            Ok((x, o)) => o <= data@.len() && parse_input(data@, off as int) == Ok::<
                (TxInModel, int),
                SerializationError,
            >((x@, o as int)),
            Err(e) => parse_input(data@, off as int) == Err::<(TxInModel, int), SerializationError>(e),
        },
{
    if data.len() - off < 36 {
        return Err(SerializationError::Transaction(TransactionParseError::InsufficientBytes));
    }
    let hash = read_hash(data, off);
    let index = read_u32_le(data, off + 32);
    let (script_sig, o) = match read_var_bytes(data, off + 36) {
        Ok(r) => r,
        Err(e) => return Err(e),
    };
    if data.len() - o < 4 {
        return Err(SerializationError::Transaction(TransactionParseError::InsufficientBytes));
    }
    let sequence = read_u32_le(data, o) as u64;
    let input = TransactionInput { prevout: OutPoint { hash, index }, sequence, script_sig };
    Ok((input, o + 4))
}

/// Reads one transaction output at `off`.
fn read_output(data: &[u8], off: usize) -> (res: Result<(TransactionOutput, usize), SerializationError>)
    requires
        off <= data@.len(),
    ensures
        match res {
            Ok((x, o)) => o <= data@.len() && parse_output(data@, off as int) == Ok::<
                (TxOutModel, int),
                SerializationError,
            >((x@, o as int)),
            Err(e) => parse_output(data@, off as int) == Err::<(TxOutModel, int), SerializationError>(e),
        },
{
    if data.len() - off < 8 {
        return Err(SerializationError::Transaction(TransactionParseError::InsufficientBytes));
    }
    let value = read_u64_le(data, off) as i64;
    let (script_pubkey, o) = match read_var_bytes(data, off + 8) {
        Ok(r) => r,
        Err(e) => return Err(e),
    };
    Ok((TransactionOutput { value, script_pubkey }, o))
}


/// After the 4-byte version, reads the input count and the optional SegWit
/// framing: whether it is used, the input count, the position after it, and
/// whether the output vector is implicitly empty.
///
/// The first count is always the input count; when it is zero, a flag byte
/// follows: 0 means no extension, with input and output vectors both empty
/// and no output count on the wire; 1 means the extended form, with the real
/// input count next; any other flag is refused.
fn read_tx_input_count_after_version(data: &[u8], offset: usize) -> (res: Result<
    (bool, u64, usize, bool),
    SerializationError,
>)
    requires
        offset <= data@.len(),
    ensures
        match res {
            Ok((segwit, ic, o, implicit_empty)) => o <= data@.len() && parse_input_count(
                data@,
                offset as int,
            ) == Ok::<(bool, u64, int, bool), SerializationError>(
                (segwit, ic, o as int, implicit_empty),
            ),
            Err(e) => parse_input_count(data@, offset as int) == Err::<
                (bool, u64, int, bool),
                SerializationError,
            >(e),
        },
{
    let (input_count, varint_len) = match decode_varint_at(data, offset) {
        Ok(r) => r,
        Err(e) => return Err(e),
    };
    let offset = offset + varint_len;
    if input_count > MAX_TX_VECTOR_LEN {
        return Err(SerializationError::Transaction(TransactionParseError::InvalidInputCount));
    }
    if input_count == 0 {
        if offset >= data.len() {
            return Err(SerializationError::Transaction(TransactionParseError::InsufficientBytes));
        }
        let flag = data[offset];
        let offset = offset + 1;
        if flag == 0 {
            return Ok((false, 0, offset, true));
        }
        if flag != 1 {
            return Err(SerializationError::UnsupportedSegwitFlag(flag));
        }
        let (ic2, vl2) = match decode_varint_at(data, offset) {
            Ok(r) => r,
            Err(e) => return Err(e),
        };
        if ic2 > MAX_TX_VECTOR_LEN {
            return Err(SerializationError::Transaction(TransactionParseError::InvalidInputCount));
        }
        return Ok((true, ic2, offset + vl2, false));
    }
    Ok((false, input_count, offset, false))
}

/// Reads `count` transaction inputs starting at `off`.
fn read_inputs(data: &[u8], off: usize, count: u64) -> (res: Result<
    (Vec<TransactionInput>, usize),
    SerializationError,
>)
    requires
        off <= data@.len(),
    ensures
        match res {
            Ok((xs, o)) => o <= data@.len() && parse_many(input_item(), data@, off as int, count as nat)
                == Ok::<(Seq<TxInModel>, int), SerializationError>(
                (xs@.map_values(|x: TransactionInput| x@), o as int),
            ),
            Err(e) => parse_many(input_item(), data@, off as int, count as nat) == Err::<
                (Seq<TxInModel>, int),
                SerializationError,
            >(e),
        },
{
    let mut xs: Vec<TransactionInput> = Vec::new();
    let mut offset = off;
    let mut k: u64 = 0;
    assert(xs@.map_values(|x: TransactionInput| x@) =~= Seq::<TxInModel>::empty());
    while k < count
        invariant
            k <= count,
            offset <= data@.len(),
            parse_many(input_item(), data@, off as int, k as nat) == Ok::<
                (Seq<TxInModel>, int),
                SerializationError,
            >((xs@.map_values(|x: TransactionInput| x@), offset as int)),
        decreases count - k,
    {
        proof {
            lemma_parse_many_step(input_item(), data@, off as int, k as nat);
        }
        match read_input(data, offset) {
            Ok((x, o)) => {
                assert(xs@.push(x).map_values(|x: TransactionInput| x@) =~= xs@.map_values(
                    |x: TransactionInput| x@,
                ).push(x@));
                xs.push(x);
                offset = o;
            },
            Err(e) => {
                proof {
                    lemma_parse_many_err(input_item(), data@, off as int, (k + 1) as nat, count as nat);
                }
                return Err(e);
            },
        }
        k = k + 1;
    }
    Ok((xs, offset))
}

/// Reads `count` transaction outputs starting at `off`.
fn read_outputs(data: &[u8], off: usize, count: u64) -> (res: Result<
    (Vec<TransactionOutput>, usize),
    SerializationError,
>)
    requires
        off <= data@.len(),
    ensures
        match res {
            Ok((xs, o)) => o <= data@.len() && parse_many(output_item(), data@, off as int, count as nat)
                == Ok::<(Seq<TxOutModel>, int), SerializationError>(
                (xs@.map_values(|x: TransactionOutput| x@), o as int),
            ),
            Err(e) => parse_many(output_item(), data@, off as int, count as nat) == Err::<
                (Seq<TxOutModel>, int),
                SerializationError,
            >(e),
        },
{
    let mut xs: Vec<TransactionOutput> = Vec::new();
    let mut offset = off;
    let mut k: u64 = 0;
    assert(xs@.map_values(|x: TransactionOutput| x@) =~= Seq::<TxOutModel>::empty());
    while k < count
        invariant
            k <= count,
            offset <= data@.len(),
            parse_many(output_item(), data@, off as int, k as nat) == Ok::<
                (Seq<TxOutModel>, int),
                SerializationError,
            >((xs@.map_values(|x: TransactionOutput| x@), offset as int)),
        decreases count - k,
    {
        proof {
            lemma_parse_many_step(output_item(), data@, off as int, k as nat);
        }
        match read_output(data, offset) {
            Ok((x, o)) => {
                assert(xs@.push(x).map_values(|x: TransactionOutput| x@) =~= xs@.map_values(
                    |x: TransactionOutput| x@,
                ).push(x@));
                xs.push(x);
                offset = o;
            },
            Err(e) => {
                proof {
                    lemma_parse_many_err(output_item(), data@, off as int, (k + 1) as nat, count as nat);
                }
                return Err(e);
            },
        }
        k = k + 1;
    }
    Ok((xs, offset))
}


/// Reads one witness stack at `off`.
fn read_witness(data: &[u8], off: usize) -> (res: Result<(Witness, usize), SerializationError>)
    requires
        off <= data@.len(),
    ensures
        match res {
            Ok((w, o)) => o <= data@.len() && parse_witness(data@, off as int) == Ok::<
                (Seq<Seq<u8>>, int),
                SerializationError,
            >((witness_view(w), o as int)),
            Err(e) => parse_witness(data@, off as int) == Err::<(Seq<Seq<u8>>, int), SerializationError>(e),
        },
{
    let (stack_count, varint_len) = match decode_varint_at(data, off) {
        Ok(r) => r,
        Err(e) => return Err(e),
    };
    let start = off + varint_len;
    assert(parse_witness(data@, off as int) == parse_many(
        var_bytes_item(),
        data@,
        start as int,
        stack_count as nat,
    ));
    let mut stack: Witness = Vec::new();
    let mut offset = start;
    let mut k: u64 = 0;
    assert(witness_view(stack) =~= Seq::<Seq<u8>>::empty());
    while k < stack_count
        invariant
            k <= stack_count,
            start <= data@.len(),
            parse_witness(data@, off as int) == parse_many(
                var_bytes_item(),
                data@,
                start as int,
                stack_count as nat,
            ),
            offset <= data@.len(),
            parse_many(var_bytes_item(), data@, start as int, k as nat) == Ok::<
                (Seq<Seq<u8>>, int),
                SerializationError,
            >((witness_view(stack), offset as int)),
        decreases stack_count - k,
    {
        proof {
            lemma_parse_many_step(var_bytes_item(), data@, start as int, k as nat);
        }
        match read_var_bytes(data, offset) {
            Ok((x, o)) => {
                assert(witness_view(stack).push(x@) =~= stack@.push(x).map_values(|e: Vec<u8>| e@));
                stack.push(x);
                offset = o;
            },
            Err(e) => {
                proof {
                    lemma_parse_many_err(
                        var_bytes_item(),
                        data@,
                        start as int,
                        (k + 1) as nat,
                        stack_count as nat,
                    );
                }
                return Err(e);
            },
        }
        k = k + 1;
    }
    Ok((stack, offset))
}

/// Skips one witness stack at `off`, returning the position after it.
fn skip_witness(data: &[u8], off: usize) -> (res: Result<usize, SerializationError>)
    requires
        off <= data@.len(),
    ensures
        match res {
            Ok(o) => o <= data@.len() && parse_witness(data@, off as int) is Ok && parse_witness(
                data@,
                off as int,
            )->Ok_0.1 == o as int,
            Err(e) => parse_witness(data@, off as int) == Err::<(Seq<Seq<u8>>, int), SerializationError>(e),
        },
{
    let (stack_count, varint_len) = match decode_varint_at(data, off) {
        Ok(r) => r,
        Err(e) => return Err(e),
    };
    let start = off + varint_len;
    assert(parse_witness(data@, off as int) == parse_many(
        var_bytes_item(),
        data@,
        start as int,
        stack_count as nat,
    ));
    let mut offset = start;
    let mut k: u64 = 0;
    while k < stack_count
        invariant
            k <= stack_count,
            start <= data@.len(),
            parse_witness(data@, off as int) == parse_many(
                var_bytes_item(),
                data@,
                start as int,
                stack_count as nat,
            ),
            offset <= data@.len(),
            parse_many(var_bytes_item(), data@, start as int, k as nat) is Ok,
            parse_many(var_bytes_item(), data@, start as int, k as nat)->Ok_0.1 == offset as int,
        decreases stack_count - k,
    {
        proof {
            lemma_parse_many_step(var_bytes_item(), data@, start as int, k as nat);
        }
        match skip_var_bytes(data, offset) {
            Ok(o) => {
                offset = o;
            },
            Err(e) => {
                proof {
                    lemma_parse_many_err(
                        var_bytes_item(),
                        data@,
                        start as int,
                        (k + 1) as nat,
                        stack_count as nat,
                    );
                }
                return Err(e);
            },
        }
        k = k + 1;
    }
    Ok(offset)
}

/// Reads `count` witness stacks starting at `off`.
fn read_witnesses(data: &[u8], off: usize, count: u64) -> (res: Result<
    (Vec<Witness>, usize),
    SerializationError,
>)
    requires
        off <= data@.len(),
    ensures
        match res {
            Ok((ws, o)) => o <= data@.len() && parse_many(witness_item(), data@, off as int, count as nat)
                == Ok::<(WitnessesModel, int), SerializationError>((witnesses_view(ws@), o as int)),
            Err(e) => parse_many(witness_item(), data@, off as int, count as nat) == Err::<
                (WitnessesModel, int),
                SerializationError,
            >(e),
        },
{
    let mut ws: Vec<Witness> = Vec::new();
    let mut offset = off;
    let mut k: u64 = 0;
    assert(witnesses_view(ws@) =~= Seq::<Seq<Seq<u8>>>::empty());
    while k < count
        invariant
            k <= count,
            offset <= data@.len(),
            parse_many(witness_item(), data@, off as int, k as nat) == Ok::<
                (WitnessesModel, int),
                SerializationError,
            >((witnesses_view(ws@), offset as int)),
        decreases count - k,
    {
        proof {
            lemma_parse_many_step(witness_item(), data@, off as int, k as nat);
        }
        match read_witness(data, offset) {
            Ok((w, o)) => {
                assert(witnesses_view(ws@).push(witness_view(w)) =~= witnesses_view(ws@.push(w)));
                ws.push(w);
                offset = o;
            },
            Err(e) => {
                proof {
                    lemma_parse_many_err(witness_item(), data@, off as int, (k + 1) as nat, count as nat);
                }
                return Err(e);
            },
        }
        k = k + 1;
    }
    Ok((ws, offset))
}

/// Skips `count` witness stacks starting at `off`.
fn skip_witnesses(data: &[u8], off: usize, count: u64) -> (res: Result<usize, SerializationError>)
    requires
        off <= data@.len(),
    ensures
        match res {
            Ok(o) => o <= data@.len() && parse_many(witness_item(), data@, off as int, count as nat) is Ok
                && parse_many(witness_item(), data@, off as int, count as nat)->Ok_0.1 == o as int,
            Err(e) => parse_many(witness_item(), data@, off as int, count as nat) == Err::<
                (WitnessesModel, int),
                SerializationError,
            >(e),
        },
{
    let mut offset = off;
    let mut k: u64 = 0;
    while k < count
        invariant
            k <= count,
            offset <= data@.len(),
            parse_many(witness_item(), data@, off as int, k as nat) is Ok,
            parse_many(witness_item(), data@, off as int, k as nat)->Ok_0.1 == offset as int,
        decreases count - k,
    {
        proof {
            lemma_parse_many_step(witness_item(), data@, off as int, k as nat);
        }
        match skip_witness(data, offset) {
            Ok(o) => {
                offset = o;
            },
            Err(e) => {
                proof {
                    lemma_parse_many_err(witness_item(), data@, off as int, (k + 1) as nat, count as nat);
                }
                return Err(e);
            },
        }
        k = k + 1;
    }
    Ok(offset)
}

/// `count` empty witness stacks.
fn empty_witness_stacks(count: u64) -> (ws: Vec<Witness>)
    ensures
        witnesses_view(ws@) == empty_witnesses(count as nat),
{
    let mut ws: Vec<Witness> = Vec::new();
    let mut k: u64 = 0;
    while k < count
        invariant
            k <= count,
            ws@.len() == k,
            forall|i: int| 0 <= i < k ==> (#[trigger] ws@[i])@.len() == 0,
        decreases count - k,
    {
        let w: Witness = Vec::new();
        ws.push(w);
        k = k + 1;
    }
    assert forall|i: int| 0 <= i < count implies #[trigger] witnesses_view(ws@)[i]
        == empty_witnesses(count as nat)[i] by {
        assert(witness_view(ws@[i]) =~= Seq::<Seq<u8>>::empty());
    }
    assert(witnesses_view(ws@) =~= empty_witnesses(count as nat));
    ws
}


/// Decodes a transaction from the front of `data`, returning the
/// transaction, its witness stacks (empty stacks when the transaction does
/// not use the SegWit form) and the number of bytes it took.
pub fn deserialize_transaction_with_witness(data: &[u8]) -> (res: Result<
    (Transaction, Vec<Witness>, usize),
    SerializationError,
>)
    ensures
        match res {
            Ok((tx, ws, n)) => n <= data@.len() && parse_tx(data@) == Ok::<
                (TxModel, WitnessesModel, int),
                SerializationError,
            >((tx@, witnesses_view(ws@), n as int)),
            Err(e) => parse_tx(data@) == Err::<(TxModel, WitnessesModel, int), SerializationError>(e),
        },
{
    reveal(parse_tx);
    if data.len() < 4 {
        return Err(SerializationError::Transaction(TransactionParseError::InsufficientBytes));
    }
    let version = read_u32_le(data, 0) as i32 as u64;
    let (is_segwit, input_count, offset, implicit_empty_outputs) =
        match read_tx_input_count_after_version(data, 4) {
        Ok(r) => r,
        Err(e) => return Err(e),
    };
    let (inputs, offset) = match read_inputs(data, offset, input_count) {
        Ok(r) => r,
        Err(e) => return Err(e),
    };
    let (output_count, offset) = if implicit_empty_outputs {
        (0u64, offset)
    } else {
        let (output_count, varint_len) = match decode_varint_at(data, offset) {
            Ok(r) => r,
            Err(e) => return Err(e),
        };
        if output_count > MAX_TX_VECTOR_LEN {
            return Err(SerializationError::Transaction(TransactionParseError::InvalidOutputCount));
        }
        (output_count, offset + varint_len)
    };
    let (outputs, offset) = match read_outputs(data, offset, output_count) {
        Ok(r) => r,
        Err(e) => return Err(e),
    };
    let (all_witnesses, offset) = if is_segwit {
        match read_witnesses(data, offset, input_count) {
            Ok(r) => r,
            Err(e) => return Err(e),
        }
    } else {
        (empty_witness_stacks(input_count), offset)
    };
    if data.len() - offset < 4 {
        return Err(SerializationError::Transaction(TransactionParseError::InsufficientBytes));
    }
    let lock_time = read_u32_le(data, offset) as u64;
    let tx = Transaction { version, inputs, outputs, lock_time };
    Ok((tx, all_witnesses, offset + 4))
}

/// Decodes a transaction from the front of `data`, discarding witness data.
pub fn deserialize_transaction(data: &[u8]) -> (res: Result<Transaction, SerializationError>)
    ensures
        match res {
            Ok(tx) => parse_tx(data@) is Ok && parse_tx(data@)->Ok_0.0 == tx@,
            Err(e) => parse_tx(data@) == Err::<(TxModel, WitnessesModel, int), SerializationError>(e),
        },
{
    reveal(parse_tx);
    if data.len() < 4 {
        return Err(SerializationError::Transaction(TransactionParseError::InsufficientBytes));
    }
    let version = read_u32_le(data, 0) as i32 as u64;
    let (is_segwit, input_count, offset, implicit_empty_outputs) =
        match read_tx_input_count_after_version(data, 4) {
        Ok(r) => r,
        Err(e) => return Err(e),
    };
    let (inputs, offset) = match read_inputs(data, offset, input_count) {
        Ok(r) => r,
        Err(e) => return Err(e),
    };
    let (output_count, offset) = if implicit_empty_outputs {
        (0u64, offset)
    } else {
        let (output_count, varint_len) = match decode_varint_at(data, offset) {
            Ok(r) => r,
            Err(e) => return Err(e),
        };
        if output_count > MAX_TX_VECTOR_LEN {
            return Err(SerializationError::Transaction(TransactionParseError::InvalidOutputCount));
        }
        (output_count, offset + varint_len)
    };
    let (outputs, offset) = match read_outputs(data, offset, output_count) {
        Ok(r) => r,
        Err(e) => return Err(e),
    };
    let offset = if is_segwit {
        match skip_witnesses(data, offset, input_count) {
            Ok(o) => o,
            Err(e) => return Err(e),
        }
    } else {
        offset
    };
    if data.len() - offset < 4 {
        return Err(SerializationError::Transaction(TransactionParseError::InsufficientBytes));
    }
    let lock_time = read_u32_le(data, offset) as u64;
    Ok(Transaction { version, inputs, outputs, lock_time })
}

/// Decodes a transaction from the front of `data`, returning it with the
/// number of bytes it took and discarding witness data.
pub fn deserialize_transaction_with_offset(data: &[u8]) -> (res: Result<
    (Transaction, usize),
    SerializationError,
>)
    ensures
        match res {
            Ok((tx, n)) => parse_tx(data@) is Ok && parse_tx(data@)->Ok_0.0 == tx@ && parse_tx(
                data@,
            )->Ok_0.2 == n as int,
            Err(e) => parse_tx(data@) == Err::<(TxModel, WitnessesModel, int), SerializationError>(e),
        },
{
    match deserialize_transaction_with_witness(data) {
        Ok((tx, _witnesses, bytes_consumed)) => Ok((tx, bytes_consumed)),
        Err(e) => Err(e),
    }
}


// ---------------------------------------------------------------------------
// Executable encoding
// ---------------------------------------------------------------------------

/// Appends a length-prefixed byte string.
fn append_var_bytes(out: &mut Vec<u8>, b: &[u8])
    ensures
        final(out)@ == old(out)@ + var_bytes(b@),
{
    push_varint(out, b.len() as u64);
    append_bytes(out, b);
    assert(final(out)@ =~= old(out)@ + var_bytes(b@));
}

fn append_input(out: &mut Vec<u8>, input: &TransactionInput)
    ensures
        final(out)@ == old(out)@ + input_bytes(input@),
{
    append_bytes(out, input.prevout.hash.as_slice());
    push_u32_le(out, input.prevout.index);
    append_var_bytes(out, input.script_sig.as_slice());
    push_u32_le(out, input.sequence as u32);
    assert(final(out)@ =~= old(out)@ + input_bytes(input@));
}

fn append_output(out: &mut Vec<u8>, output: &TransactionOutput)
    ensures
        final(out)@ == old(out)@ + output_bytes(output@),
{
    push_u64_le(out, output.value as u64);
    append_var_bytes(out, output.script_pubkey.as_slice());
    assert(final(out)@ =~= old(out)@ + output_bytes(output@));
}

fn append_inputs(out: &mut Vec<u8>, inputs: &Vec<TransactionInput>)
    ensures
        final(out)@ == old(out)@ + inputs_bytes(inputs@.map_values(|x: TransactionInput| x@)),
{
    let ghost xs = inputs@.map_values(|x: TransactionInput| x@);
    let n = inputs.len();
    let mut k: usize = 0;
    assert(xs.take(0).map_values(input_enc()) =~= Seq::<Seq<u8>>::empty());
    while k < n
        invariant
            n == inputs@.len(),
            xs == inputs@.map_values(|x: TransactionInput| x@),
            k <= n,
            out@ == old(out)@ + concat(xs.take(k as int).map_values(input_enc())),
        decreases n - k,
    {
        proof {
            lemma_concat_map_take(xs, input_enc(), k as int);
        }
        append_input(out, &inputs[k]);
        k = k + 1;
    }
    assert(xs.take(n as int) =~= xs);
}

fn append_outputs(out: &mut Vec<u8>, outputs: &Vec<TransactionOutput>)
    ensures
        final(out)@ == old(out)@ + outputs_bytes(outputs@.map_values(|x: TransactionOutput| x@)),
{
    let ghost xs = outputs@.map_values(|x: TransactionOutput| x@);
    let n = outputs.len();
    let mut k: usize = 0;
    assert(xs.take(0).map_values(output_enc()) =~= Seq::<Seq<u8>>::empty());
    while k < n
        invariant
            n == outputs@.len(),
            xs == outputs@.map_values(|x: TransactionOutput| x@),
            k <= n,
            out@ == old(out)@ + concat(xs.take(k as int).map_values(output_enc())),
        decreases n - k,
    {
        proof {
            lemma_concat_map_take(xs, output_enc(), k as int);
        }
        append_output(out, &outputs[k]);
        k = k + 1;
    }
    assert(xs.take(n as int) =~= xs);
}

/// Appends one witness stack.
fn append_witness(out: &mut Vec<u8>, witness: &Witness)
    ensures
        final(out)@ == old(out)@ + witness_bytes(witness_view(*witness)),
{
    let ghost xs = witness_view(*witness);
    let n = witness.len();
    push_varint(out, n as u64);
    let ghost base = out@;
    let mut k: usize = 0;
    assert(xs.take(0).map_values(var_bytes_enc()) =~= Seq::<Seq<u8>>::empty());
    while k < n
        invariant
            n == witness@.len(),
            xs == witness_view(*witness),
            k <= n,
            out@ == base + concat(xs.take(k as int).map_values(var_bytes_enc())),
        decreases n - k,
    {
        proof {
            lemma_concat_map_take(xs, var_bytes_enc(), k as int);
        }
        append_var_bytes(out, witness[k].as_slice());
        k = k + 1;
    }
    assert(xs.take(n as int) =~= xs);
    assert(final(out)@ =~= old(out)@ + witness_bytes(xs));
}

/// Appends the encoding of `tx` (without witness data) to `result`.
///
/// With no inputs but some outputs, the plain form `0x00 <count>` would read
/// back as an empty input vector followed by the SegWit flag; such a
/// transaction is written in the extended form instead: an empty dummy input
/// vector, flag `0x01`, then the real input count.
fn serialize_transaction_append(result: &mut Vec<u8>, tx: &Transaction)
    ensures
        final(result)@ == old(result)@ + tx_bytes(tx@),
{
    push_u32_le(result, tx.version as u32);
    if tx.inputs.len() == 0 && tx.outputs.len() != 0 {
        push_varint(result, 0);
        result.push(0x01);
        push_varint(result, tx.inputs.len() as u64);
    } else {
        push_varint(result, tx.inputs.len() as u64);
    }
    append_inputs(result, &tx.inputs);
    push_varint(result, tx.outputs.len() as u64);
    append_outputs(result, &tx.outputs);
    push_u32_le(result, tx.lock_time as u32);
    assert(final(result)@ =~= old(result)@ + tx_bytes(tx@));
}

/// Encodes a transaction (without witness data).
pub fn serialize_transaction(tx: &Transaction) -> (result: Vec<u8>)
    ensures
        result@ == tx_bytes(tx@),
{
    let mut result: Vec<u8> = Vec::new();
    serialize_transaction_append(&mut result, tx);
    assert(result@ =~= tx_bytes(tx@));
    result
}

/// Encodes a transaction (without witness data) into `dst`, replacing what it
/// held, and returns the encoded length.
pub fn serialize_transaction_into(dst: &mut Vec<u8>, tx: &Transaction) -> (n: usize)
    ensures
        final(dst)@ == tx_bytes(tx@),
        n == tx_bytes(tx@).len(),
{
    dst.clear();
    serialize_transaction_append(dst, tx);
    assert(dst@ =~= tx_bytes(tx@));
    dst.len()
}

/// Encodes a transaction in the SegWit form with one witness stack per input.
pub fn serialize_transaction_with_witness(tx: &Transaction, witnesses: &[Witness]) -> (result: Vec<u8>)
    requires
        witnesses@.len() == tx.inputs@.len(),
    ensures
        result@ == tx_witness_bytes(tx@, witnesses_view(witnesses@)),
{
    let mut result: Vec<u8> = Vec::new();
    push_u32_le(&mut result, tx.version as u32);
    result.push(0x00);
    result.push(0x01);
    push_varint(&mut result, tx.inputs.len() as u64);
    append_inputs(&mut result, &tx.inputs);
    push_varint(&mut result, tx.outputs.len() as u64);
    append_outputs(&mut result, &tx.outputs);
    let ghost base = result@;
    let ghost ws = witnesses_view(witnesses@);
    let n = witnesses.len();
    let mut k: usize = 0;
    assert(ws.take(0).map_values(witness_enc()) =~= Seq::<Seq<u8>>::empty());
    while k < n
        invariant
            n == witnesses@.len(),
            ws == witnesses_view(witnesses@),
            k <= n,
            result@ == base + concat(ws.take(k as int).map_values(witness_enc())),
        decreases n - k,
    {
        proof {
            lemma_concat_map_take(ws, witness_enc(), k as int);
        }
        append_witness(&mut result, &witnesses[k]);
        k = k + 1;
    }
    assert(ws.take(n as int) =~= ws);
    push_u32_le(&mut result, tx.lock_time as u32);
    assert(result@ =~= tx_witness_bytes(tx@, ws));
    result
}


// ---------------------------------------------------------------------------
// Encoding and decoding agree
// ---------------------------------------------------------------------------

/// An input that survives encoding: a 32-byte hash and a sequence number
/// that fits the 4 bytes it is written in.
pub open spec fn input_wf(i: TxInModel) -> bool {
    &&& i.prevout_hash.len() == 32
    &&& i.sequence <= u32::MAX
    &&& i.script_sig.len() <= usize::MAX
}

pub open spec fn output_wf(o: TxOutModel) -> bool {
    o.script_pubkey.len() <= usize::MAX
}

pub open spec fn var_bytes_wf(b: Seq<u8>) -> bool {
    b.len() <= usize::MAX
}

pub open spec fn witness_wf(w: Seq<Seq<u8>>) -> bool {
    &&& w.len() <= u64::MAX
    &&& forall|j: int| 0 <= j < w.len() ==> var_bytes_wf(#[trigger] w[j])
}

/// A transaction that survives encoding: a version that is the sign
/// extension of its low 32 bits (it is written as an `i32` and read back
/// sign-extended), sequence numbers and lock time that fit in 32 bits, and at
/// most `MAX_TX_VECTOR_LEN` inputs and outputs.
pub open spec fn tx_wf(tx: TxModel) -> bool {
    &&& ((tx.version as u32) as i32) as u64 == tx.version
    &&& tx.lock_time <= u32::MAX
    &&& tx.inputs.len() <= MAX_TX_VECTOR_LEN
    &&& tx.outputs.len() <= MAX_TX_VECTOR_LEN
    &&& forall|j: int| 0 <= j < tx.inputs.len() ==> input_wf(#[trigger] tx.inputs[j])
    &&& forall|j: int| 0 <= j < tx.outputs.len() ==> output_wf(#[trigger] tx.outputs[j])
}

pub(crate) proof fn lemma_u32_held(s: Seq<u8>, off: int, x: u32)
    requires
        holds_at(s, off, u32_le(x)),
    ensures
        le_u32_at(s, off) == x,
{
    assert(s.subrange(off, off + 4) == u32_le(x));
    assert(s[off] == u32_le(x)[0] && s[off + 1] == u32_le(x)[1] && s[off + 2] == u32_le(x)[2]
        && s[off + 3] == u32_le(x)[3]) by {
        assert(s.subrange(off, off + 4)[0] == s[off]);
        assert(s.subrange(off, off + 4)[1] == s[off + 1]);
        assert(s.subrange(off, off + 4)[2] == s[off + 2]);
        assert(s.subrange(off, off + 4)[3] == s[off + 3]);
    }
    lemma_u32_roundtrip(x);
}

proof fn lemma_u64_held(s: Seq<u8>, off: int, x: u64)
    requires
        holds_at(s, off, u64_le(x)),
    ensures
        le_u64_at(s, off) == x,
{
    let t = s.subrange(off, off + 8);
    assert(t == u64_le(x));
    assert(t[0] == s[off] && t[1] == s[off + 1] && t[2] == s[off + 2] && t[3] == s[off + 3] && t[4]
        == s[off + 4] && t[5] == s[off + 5] && t[6] == s[off + 6] && t[7] == s[off + 7]);
    lemma_u64_roundtrip(x);
}

proof fn lemma_parse_var_bytes_held(s: Seq<u8>, off: int, b: Seq<u8>)
    requires
        var_bytes_wf(b),
        holds_at(s, off, var_bytes(b)),
    ensures
        parse_var_bytes(s, off) == Ok::<(Seq<u8>, int), SerializationError>(
            (b, off + var_bytes(b).len()),
        ),
{
    lemma_holds_at_split(s, off, varint_bytes(b.len() as u64), b);
    lemma_varint_decode_held(s, off, b.len() as u64);
}

proof fn lemma_reads_back_var_bytes(s: Seq<u8>)
    ensures
        reads_back(var_bytes_item(), var_bytes_enc(), |b: Seq<u8>| var_bytes_wf(b), s),
{
    assert forall|o: int, x: Seq<u8>|
        var_bytes_wf(x) && holds_at(s, o, #[trigger] var_bytes_enc()(x)) implies #[trigger] var_bytes_item()(
        s,
        o,
    ) == Ok::<(Seq<u8>, int), SerializationError>((x, o + var_bytes_enc()(x).len())) by {
        lemma_parse_var_bytes_held(s, o, x);
    }
}

proof fn lemma_parse_input_held(s: Seq<u8>, off: int, i: TxInModel)
    requires
        input_wf(i),
        holds_at(s, off, input_bytes(i)),
    ensures
        parse_input(s, off) == Ok::<(TxInModel, int), SerializationError>(
            (i, off + input_bytes(i).len()),
        ),
{
    let a = i.prevout_hash;
    let b = u32_le(i.prevout_index);
    let c = var_bytes(i.script_sig);
    let d = u32_le(i.sequence as u32);
    lemma_holds_at_split(s, off, a + b + c, d);
    lemma_holds_at_split(s, off, a + b, c);
    lemma_holds_at_split(s, off, a, b);
    lemma_u32_held(s, off + 32, i.prevout_index);
    lemma_parse_var_bytes_held(s, off + 36, i.script_sig);
    lemma_u32_held(s, off + 36 + c.len(), i.sequence as u32);
}

proof fn lemma_reads_back_inputs(s: Seq<u8>)
    ensures
        reads_back(input_item(), input_enc(), |i: TxInModel| input_wf(i), s),
{
    assert forall|o: int, x: TxInModel|
        input_wf(x) && holds_at(s, o, #[trigger] input_enc()(x)) implies #[trigger] input_item()(s, o)
        == Ok::<(TxInModel, int), SerializationError>((x, o + input_enc()(x).len())) by {
        lemma_parse_input_held(s, o, x);
    }
}

proof fn lemma_i64_u64_roundtrip(v: i64)
    ensures
        (v as u64) as i64 == v,
{
    assert((v as u64) as i64 == v) by (bit_vector);
}

proof fn lemma_parse_output_held(s: Seq<u8>, off: int, o: TxOutModel)
    requires
        output_wf(o),
        holds_at(s, off, output_bytes(o)),
    ensures
        parse_output(s, off) == Ok::<(TxOutModel, int), SerializationError>(
            (o, off + output_bytes(o).len()),
        ),
{
    lemma_holds_at_split(s, off, u64_le(o.value as u64), var_bytes(o.script_pubkey));
    lemma_u64_held(s, off, o.value as u64);
    lemma_i64_u64_roundtrip(o.value);
    lemma_parse_var_bytes_held(s, off + 8, o.script_pubkey);
}

proof fn lemma_reads_back_outputs(s: Seq<u8>)
    ensures
        reads_back(output_item(), output_enc(), |o: TxOutModel| output_wf(o), s),
{
    assert forall|off: int, x: TxOutModel|
        output_wf(x) && holds_at(s, off, #[trigger] output_enc()(x)) implies #[trigger] output_item()(
        s,
        off,
    ) == Ok::<(TxOutModel, int), SerializationError>((x, off + output_enc()(x).len())) by {
        lemma_parse_output_held(s, off, x);
    }
}

proof fn lemma_parse_witness_held(s: Seq<u8>, off: int, w: Seq<Seq<u8>>)
    requires
        witness_wf(w),
        holds_at(s, off, witness_bytes(w)),
    ensures
        parse_witness(s, off) == Ok::<(Seq<Seq<u8>>, int), SerializationError>(
            (w, off + witness_bytes(w).len()),
        ),
{
    let head = varint_bytes(w.len() as u64);
    lemma_holds_at_split(s, off, head, concat(w.map_values(var_bytes_enc())));
    lemma_varint_decode_held(s, off, w.len() as u64);
    lemma_reads_back_var_bytes(s);
    lemma_parse_many_held(
        var_bytes_item(),
        var_bytes_enc(),
        |b: Seq<u8>| var_bytes_wf(b),
        s,
        off + head.len(),
        w,
    );
}

proof fn lemma_reads_back_witnesses(s: Seq<u8>)
    ensures
        reads_back(witness_item(), witness_enc(), |w: Seq<Seq<u8>>| witness_wf(w), s),
{
    assert forall|off: int, x: Seq<Seq<u8>>|
        witness_wf(x) && holds_at(s, off, #[trigger] witness_enc()(x)) implies #[trigger] witness_item()(
        s,
        off,
    ) == Ok::<(Seq<Seq<u8>>, int), SerializationError>((x, off + witness_enc()(x).len())) by {
        lemma_parse_witness_held(s, off, x);
    }
}


proof fn lemma_tail_held(s: Seq<u8>, off: int, tx: TxModel)
    requires
        tx_wf(tx),
        holds_at(s, off, u32_le(tx.lock_time as u32)),
    ensures
        s.len() >= off + 4,
        le_u32_at(s, off) as u64 == tx.lock_time,
{
    lemma_u32_held(s, off, tx.lock_time as u32);
}

proof fn lemma_version_held(s: Seq<u8>, tx: TxModel)
    requires
        tx_wf(tx),
        holds_at(s, 0, u32_le(tx.version as u32)),
    ensures
        s.len() >= 4,
        (le_u32_at(s, 0) as i32) as u64 == tx.version,
{
    lemma_u32_held(s, 0, tx.version as u32);
}

/// `parse_tx` from the results of its steps.
proof fn lemma_parse_tx_steps(
    s: Seq<u8>,
    segwit: bool,
    ic: u64,
    o1: int,
    implicit_empty: bool,
    ins: Seq<TxInModel>,
    o2: int,
    oc: u64,
    o3: int,
    outs: Seq<TxOutModel>,
    o4: int,
    ws: WitnessesModel,
    o5: int,
)
    requires
        s.len() >= 4,
        parse_input_count(s, 4) == Ok::<(bool, u64, int, bool), SerializationError>(
            (segwit, ic, o1, implicit_empty),
        ),
        parse_many(input_item(), s, o1, ic as nat) == Ok::<(Seq<TxInModel>, int), SerializationError>(
            (ins, o2),
        ),
        parse_output_count(s, o2, implicit_empty) == Ok::<(u64, int), SerializationError>((oc, o3)),
        parse_many(output_item(), s, o3, oc as nat) == Ok::<(Seq<TxOutModel>, int), SerializationError>(
            (outs, o4),
        ),
        parse_witnesses(s, o4, segwit, ic as nat) == Ok::<(WitnessesModel, int), SerializationError>(
            (ws, o5),
        ),
        s.len() >= o5 + 4,
    ensures
        parse_tx(s) == Ok::<(TxModel, WitnessesModel, int), SerializationError>(
            (
                TxModel {
                    version: (le_u32_at(s, 0) as i32) as u64,
                    inputs: ins,
                    outputs: outs,
                    lock_time: le_u32_at(s, o5) as u64,
                },
                ws,
                o5 + 4,
            ),
        ),
{
    reveal(parse_tx);
}

/// The pieces of a held transaction encoding.
proof fn lemma_tx_bytes_split(s: Seq<u8>, tx: TxModel)
    requires
        holds_at(s, 0, tx_bytes(tx)),
    ensures
        holds_at(s, 0, u32_le(tx.version as u32)),
        holds_at(s, 4, input_count_bytes(tx)),
        holds_at(s, 4int + input_count_bytes(tx).len(), inputs_bytes(tx.inputs)),
        holds_at(
            s,
            4int + input_count_bytes(tx).len() + inputs_bytes(tx.inputs).len(),
            varint_bytes(tx.outputs.len() as u64),
        ),
        holds_at(
            s,
            4int + input_count_bytes(tx).len() + inputs_bytes(tx.inputs).len() + varint_bytes(
                tx.outputs.len() as u64,
            ).len(),
            outputs_bytes(tx.outputs),
        ),
        holds_at(
            s,
            4int + input_count_bytes(tx).len() + inputs_bytes(tx.inputs).len() + varint_bytes(
                tx.outputs.len() as u64,
            ).len() + outputs_bytes(tx.outputs).len(),
            u32_le(tx.lock_time as u32),
        ),
{
    let a0 = u32_le(tx.version as u32);
    let a1 = input_count_bytes(tx);
    let a2 = inputs_bytes(tx.inputs);
    let a3 = varint_bytes(tx.outputs.len() as u64);
    let a4 = outputs_bytes(tx.outputs);
    let a5 = u32_le(tx.lock_time as u32);
    lemma_holds_at_split(s, 0, a0 + a1 + a2 + a3 + a4, a5);
    lemma_holds_at_split(s, 0, a0 + a1 + a2 + a3, a4);
    lemma_holds_at_split(s, 0, a0 + a1 + a2, a3);
    lemma_holds_at_split(s, 0, a0 + a1, a2);
    lemma_holds_at_split(s, 0, a0, a1);
}

proof fn lemma_no_inputs_bytes(tx: TxModel)
    requires
        tx.inputs.len() == 0,
    ensures
        inputs_bytes(tx.inputs) == Seq::<u8>::empty(),
        tx.inputs == Seq::<TxInModel>::empty(),
{
    assert(tx.inputs.map_values(input_enc()) =~= Seq::<Seq<u8>>::empty());
    assert(tx.inputs =~= Seq::<TxInModel>::empty());
}

proof fn lemma_no_outputs_bytes(tx: TxModel)
    requires
        tx.outputs.len() == 0,
    ensures
        outputs_bytes(tx.outputs) == Seq::<u8>::empty(),
        tx.outputs == Seq::<TxOutModel>::empty(),
{
    assert(tx.outputs.map_values(output_enc()) =~= Seq::<Seq<u8>>::empty());
    assert(tx.outputs =~= Seq::<TxOutModel>::empty());
}

/// Reading the outputs of a held transaction encoding, given where its output
/// count starts.
proof fn lemma_outputs_held(s: Seq<u8>, tx: TxModel, o2: int)
    requires
        tx_wf(tx),
        holds_at(s, o2, varint_bytes(tx.outputs.len() as u64)),
        holds_at(s, o2 + varint_bytes(tx.outputs.len() as u64).len(), outputs_bytes(tx.outputs)),
    ensures
        parse_output_count(s, o2, false) == Ok::<(u64, int), SerializationError>(
            (tx.outputs.len() as u64, o2 + varint_bytes(tx.outputs.len() as u64).len()),
        ),
        parse_many(
            output_item(),
            s,
            o2 + varint_bytes(tx.outputs.len() as u64).len(),
            tx.outputs.len(),
        ) == Ok::<(Seq<TxOutModel>, int), SerializationError>(
            (
                tx.outputs,
                o2 + varint_bytes(tx.outputs.len() as u64).len() + outputs_bytes(tx.outputs).len(),
            ),
        ),
{
    lemma_varint_decode_held(s, o2, tx.outputs.len() as u64);
    lemma_reads_back_outputs(s);
    lemma_parse_many_held(
        output_item(),
        output_enc(),
        |o: TxOutModel| output_wf(o),
        s,
        o2 + varint_bytes(tx.outputs.len() as u64).len(),
        tx.outputs,
    );
}

pub open spec fn tx_roundtrip_result(tx: TxModel) -> Result<
    (TxModel, WitnessesModel, int),
    SerializationError,
> {
    Ok((tx, empty_witnesses(tx.inputs.len()), tx_bytes(tx).len() as int))
}

/// No inputs but some outputs: the extended form.
#[verifier::spinoff_prover]
proof fn lemma_roundtrip_extended(s: Seq<u8>, tx: TxModel)
    requires
        tx_wf(tx),
        holds_at(s, 0, tx_bytes(tx)),
        tx.inputs.len() == 0,
        tx.outputs.len() > 0,
    ensures
        parse_tx(s) == tx_roundtrip_result(tx),
{
    lemma_tx_bytes_split(s, tx);
    let nout = tx.outputs.len();
    let a1 = input_count_bytes(tx);
    let o2: int = 4 + a1.len() as int + inputs_bytes(tx.inputs).len();
    let o3: int = o2 + varint_bytes(nout as u64).len();
    let o4: int = o3 + outputs_bytes(tx.outputs).len();
    lemma_version_held(s, tx);
    lemma_tail_held(s, o4, tx);
    lemma_no_inputs_bytes(tx);
    lemma_holds_at_split(s, 4, varint_bytes(0) + seq![1u8], varint_bytes(0));
    lemma_holds_at_split(s, 4, varint_bytes(0), seq![1u8]);
    lemma_varint_decode_held(s, 4, 0);
    assert(s.subrange(5, 6)[0] == s[5]);
    lemma_varint_decode_held(s, 6, 0);
    assert(parse_input_count(s, 4) == Ok::<(bool, u64, int, bool), SerializationError>(
        (true, 0, 7, false),
    ));
    lemma_outputs_held(s, tx, o2);
    assert(empty_witnesses(0) =~= Seq::<Seq<Seq<u8>>>::empty());
    lemma_parse_tx_steps(
        s,
        true,
        0,
        7,
        false,
        tx.inputs,
        7,
        nout as u64,
        o3,
        tx.outputs,
        o4,
        empty_witnesses(0),
        o4,
    );
}

/// No inputs and no outputs: the input count 0 followed by flag 0.
#[verifier::spinoff_prover]
proof fn lemma_roundtrip_empty(s: Seq<u8>, tx: TxModel)
    requires
        tx_wf(tx),
        holds_at(s, 0, tx_bytes(tx)),
        tx.inputs.len() == 0,
        tx.outputs.len() == 0,
    ensures
        parse_tx(s) == tx_roundtrip_result(tx),
{
    lemma_tx_bytes_split(s, tx);
    lemma_no_inputs_bytes(tx);
    lemma_no_outputs_bytes(tx);
    lemma_version_held(s, tx);
    lemma_tail_held(s, 6, tx);
    lemma_varint_decode_held(s, 4, 0);
    lemma_varint_decode_held(s, 5, 0);
    assert(s.skip(5)[0] == s[5]);
    assert(parse_input_count(s, 4) == Ok::<(bool, u64, int, bool), SerializationError>(
        (false, 0, 6, true),
    ));
    lemma_parse_tx_steps(
        s,
        false,
        0,
        6,
        true,
        tx.inputs,
        6,
        0,
        6,
        tx.outputs,
        6,
        empty_witnesses(0),
        6,
    );
}

/// Some inputs: the plain form.
#[verifier::spinoff_prover]
proof fn lemma_roundtrip_plain(s: Seq<u8>, tx: TxModel)
    requires
        tx_wf(tx),
        holds_at(s, 0, tx_bytes(tx)),
        tx.inputs.len() > 0,
    ensures
        parse_tx(s) == tx_roundtrip_result(tx),
{
    lemma_tx_bytes_split(s, tx);
    let nin = tx.inputs.len();
    let nout = tx.outputs.len();
    let o1: int = 4 + input_count_bytes(tx).len() as int;
    let o2: int = o1 + inputs_bytes(tx.inputs).len();
    let o3: int = o2 + varint_bytes(nout as u64).len();
    let o4: int = o3 + outputs_bytes(tx.outputs).len();
    lemma_version_held(s, tx);
    lemma_tail_held(s, o4, tx);
    lemma_varint_decode_held(s, 4, nin as u64);
    assert(parse_input_count(s, 4) == Ok::<(bool, u64, int, bool), SerializationError>(
        (false, nin as u64, o1, false),
    ));
    lemma_reads_back_inputs(s);
    lemma_parse_many_held(input_item(), input_enc(), |i: TxInModel| input_wf(i), s, o1, tx.inputs);
    lemma_outputs_held(s, tx, o2);
    lemma_parse_tx_steps(
        s,
        false,
        nin as u64,
        o1,
        false,
        tx.inputs,
        o2,
        nout as u64,
        o3,
        tx.outputs,
        o4,
        empty_witnesses(nin),
        o4,
    );
}

/// Decoding gives back every transaction that survives encoding, with one
/// empty witness stack per input and the length of its encoding, whatever
/// bytes follow it.
pub proof fn lemma_transaction_roundtrip(tx: TxModel, rest: Seq<u8>)
    requires
        tx_wf(tx),
    ensures
        parse_tx(tx_bytes(tx) + rest) == Ok::<(TxModel, WitnessesModel, int), SerializationError>(
            (tx, empty_witnesses(tx.inputs.len()), tx_bytes(tx).len() as int),
        ),
{
    let s = tx_bytes(tx) + rest;
    assert(s.subrange(0, tx_bytes(tx).len() as int) =~= tx_bytes(tx));
    if tx.inputs.len() > 0 {
        lemma_roundtrip_plain(s, tx);
    } else if tx.outputs.len() > 0 {
        lemma_roundtrip_extended(s, tx);
    } else {
        lemma_roundtrip_empty(s, tx);
    }
}


/// The pieces of a held SegWit transaction encoding.
proof fn lemma_tx_witness_bytes_split(s: Seq<u8>, tx: TxModel, ws: WitnessesModel)
    requires
        holds_at(s, 0, tx_witness_bytes(tx, ws)),
    ensures
        holds_at(s, 0, u32_le(tx.version as u32)),
        holds_at(s, 4, seq![0u8, 1u8]),
        holds_at(s, 6, varint_bytes(tx.inputs.len() as u64)),
        holds_at(s, 6int + varint_bytes(tx.inputs.len() as u64).len(), inputs_bytes(tx.inputs)),
        holds_at(
            s,
            6int + varint_bytes(tx.inputs.len() as u64).len() + inputs_bytes(tx.inputs).len(),
            varint_bytes(tx.outputs.len() as u64),
        ),
        holds_at(
            s,
            6int + varint_bytes(tx.inputs.len() as u64).len() + inputs_bytes(tx.inputs).len()
                + varint_bytes(tx.outputs.len() as u64).len(),
            outputs_bytes(tx.outputs),
        ),
        holds_at(
            s,
            6int + varint_bytes(tx.inputs.len() as u64).len() + inputs_bytes(tx.inputs).len()
                + varint_bytes(tx.outputs.len() as u64).len() + outputs_bytes(tx.outputs).len(),
            witnesses_bytes(ws),
        ),
        holds_at(
            s,
            6int + varint_bytes(tx.inputs.len() as u64).len() + inputs_bytes(tx.inputs).len()
                + varint_bytes(tx.outputs.len() as u64).len() + outputs_bytes(tx.outputs).len()
                + witnesses_bytes(ws).len(),
            u32_le(tx.lock_time as u32),
        ),
{
    let a0 = u32_le(tx.version as u32);
    let m = seq![0u8, 1u8];
    let a1 = varint_bytes(tx.inputs.len() as u64);
    let a2 = inputs_bytes(tx.inputs);
    let a3 = varint_bytes(tx.outputs.len() as u64);
    let a4 = outputs_bytes(tx.outputs);
    let a5 = witnesses_bytes(ws);
    let a6 = u32_le(tx.lock_time as u32);
    lemma_holds_at_split(s, 0, a0 + m + a1 + a2 + a3 + a4 + a5, a6);
    lemma_holds_at_split(s, 0, a0 + m + a1 + a2 + a3 + a4, a5);
    lemma_holds_at_split(s, 0, a0 + m + a1 + a2 + a3, a4);
    lemma_holds_at_split(s, 0, a0 + m + a1 + a2, a3);
    lemma_holds_at_split(s, 0, a0 + m + a1, a2);
    lemma_holds_at_split(s, 0, a0 + m, a1);
    lemma_holds_at_split(s, 0, a0, m);
}

/// Witness stacks that survive encoding: one per input, each well formed.
pub open spec fn witnesses_wf(tx: TxModel, ws: WitnessesModel) -> bool {
    &&& ws.len() == tx.inputs.len()
    &&& forall|j: int| 0 <= j < ws.len() ==> witness_wf(#[trigger] ws[j])
}

proof fn lemma_segwit_count_held(s: Seq<u8>, nin: u64)
    requires
        nin <= MAX_TX_VECTOR_LEN,
        s.len() >= 6,
        holds_at(s, 4, seq![0u8, 1u8]),
        holds_at(s, 6, varint_bytes(nin)),
    ensures
        parse_input_count(s, 4) == Ok::<(bool, u64, int, bool), SerializationError>(
            (true, nin, 6int + varint_bytes(nin).len(), false),
        ),
{
    assert(s.subrange(4, 6)[0] == s[4] && s.subrange(4, 6)[1] == s[5]);
    assert(s.skip(4)[0] == s[4]);
    assert(varint_decode(s.skip(4)) == Ok::<(u64, usize), SerializationError>((0, 1)));
    lemma_varint_decode_held(s, 6, nin);
}

#[verifier::spinoff_prover]
proof fn lemma_witness_roundtrip_held(s: Seq<u8>, tx: TxModel, ws: WitnessesModel)
    requires
        tx_wf(tx),
        witnesses_wf(tx, ws),
        holds_at(s, 0, tx_witness_bytes(tx, ws)),
    ensures
        parse_tx(s) == Ok::<(TxModel, WitnessesModel, int), SerializationError>(
            (tx, ws, tx_witness_bytes(tx, ws).len() as int),
        ),
{
    lemma_tx_witness_bytes_split(s, tx, ws);
    let nin = tx.inputs.len();
    let nout = tx.outputs.len();
    let o1: int = 6 + varint_bytes(nin as u64).len() as int;
    let o2: int = o1 + inputs_bytes(tx.inputs).len();
    let o3: int = o2 + varint_bytes(nout as u64).len();
    let o4: int = o3 + outputs_bytes(tx.outputs).len();
    let o5: int = o4 + witnesses_bytes(ws).len();
    lemma_version_held(s, tx);
    lemma_tail_held(s, o5, tx);
    lemma_segwit_count_held(s, nin as u64);
    lemma_reads_back_inputs(s);
    lemma_parse_many_held(input_item(), input_enc(), |i: TxInModel| input_wf(i), s, o1, tx.inputs);
    lemma_outputs_held(s, tx, o2);
    lemma_reads_back_witnesses(s);
    lemma_parse_many_held(witness_item(), witness_enc(), |w: Seq<Seq<u8>>| witness_wf(w), s, o4, ws);
    lemma_parse_tx_steps(
        s,
        true,
        nin as u64,
        o1,
        false,
        tx.inputs,
        o2,
        nout as u64,
        o3,
        tx.outputs,
        o4,
        ws,
        o5,
    );
}

/// Decoding the SegWit encoding of a transaction gives back the transaction,
/// its witness stacks and the length of the encoding, whatever bytes follow.
pub proof fn lemma_transaction_witness_roundtrip(tx: TxModel, ws: WitnessesModel, rest: Seq<u8>)
    requires
        tx_wf(tx),
        witnesses_wf(tx, ws),
    ensures
        parse_tx(tx_witness_bytes(tx, ws) + rest) == Ok::<
            (TxModel, WitnessesModel, int),
            SerializationError,
        >((tx, ws, tx_witness_bytes(tx, ws).len() as int)),
{
    let s = tx_witness_bytes(tx, ws) + rest;
    assert(s.subrange(0, tx_witness_bytes(tx, ws).len() as int) =~= tx_witness_bytes(tx, ws));
    lemma_witness_roundtrip_held(s, tx, ws);
}

} // verus!
