//! Where each field sits on the wire. These laws say, in terms of byte
//! positions and little-endian values (`le_value`), what the encoders write
//! and what the decoders read, independently of how the encodings are built.

use crate::serialization::block::{
    block_bytes, block_items, block_tx_bytes, block_tx_enc, header_bytes, parse_block,
    parse_header, tx_item,
};
use crate::serialization::tx_canonical::{announces_witness, lemma_transaction_canonical};
use crate::serialization::bytes::{
    concat, le_value, lemma_concat_front, lemma_le_value_u16, lemma_le_value_u32,
    lemma_le_value_u64, lemma_parse_many_front, parse_many, lemma_u16_bytes_roundtrip,
    lemma_u32_bytes_roundtrip, lemma_u64_bytes_roundtrip, u16_le, u32_le, u64_le,
};
use crate::serialization::transaction::{
    output_bytes, parse_output, parse_tx, tx_bytes, tx_witness_bytes, var_bytes_enc,
    var_bytes_item, input_bytes, input_enc, inputs_bytes, output_enc, outputs_bytes, parse_input,
    parse_var_bytes, parse_witness, parse_witnesses, var_bytes, witness_bytes, witness_enc,
    witness_item, witnesses_bytes, WitnessesModel,
};
use crate::serialization::varint::{varint_bytes, varint_decode};
use crate::types::{BlockModel, HeaderModel, TxInModel, TxModel, TxOutModel};
use vstd::prelude::*;

verus! {

/// The four bytes at `off` have the value of the `u32` they spell.
proof fn lemma_le_value_at4(s: Seq<u8>, off: int)
    requires
        0 <= off,
        off + 4 <= s.len(),
    ensures
        le_value(s.subrange(off, off + 4)) == crate::serialization::bytes::le_u32_at(s, off),
{
    lemma_u32_bytes_roundtrip(s[off], s[off + 1], s[off + 2], s[off + 3]);
    assert(s.subrange(off, off + 4) =~= seq![s[off], s[off + 1], s[off + 2], s[off + 3]]);
    lemma_le_value_u32(crate::serialization::bytes::le_u32_at(s, off));
}

// ---------------------------------------------------------------------------
// CompactSize integers
// ---------------------------------------------------------------------------

/// A CompactSize integer is one byte below `0xfd`; otherwise a prefix
/// `0xfd`, `0xfe` or `0xff` followed by the value in 2, 4 or 8 little-endian
/// bytes, the shortest width that holds it.
pub proof fn lemma_varint_layout(v: u64)
    ensures
        v < 0xfd ==> varint_bytes(v) == seq![v as u8],
        0xfd <= v <= 0xffff ==> varint_bytes(v).len() == 3 && varint_bytes(v)[0] == 0xfd
            && le_value(varint_bytes(v).subrange(1, 3)) == v,
        0x1_0000 <= v <= 0xffff_ffff ==> varint_bytes(v).len() == 5 && varint_bytes(v)[0] == 0xfe
            && le_value(varint_bytes(v).subrange(1, 5)) == v,
        0x1_0000_0000 <= v ==> varint_bytes(v).len() == 9 && varint_bytes(v)[0] == 0xff
            && le_value(varint_bytes(v).subrange(1, 9)) == v,
{
    let e = varint_bytes(v);
    if 0xfd <= v <= 0xffff {
        assert(e.subrange(1, 3) =~= u16_le(v as u16));
        lemma_le_value_u16(v as u16);
    } else if 0x1_0000 <= v <= 0xffff_ffff {
        assert(e.subrange(1, 5) =~= u32_le(v as u32));
        lemma_le_value_u32(v as u32);
    } else if 0x1_0000_0000 <= v {
        assert(e.subrange(1, 9) =~= u64_le(v));
        lemma_le_value_u64(v);
    }
}

/// Decoding a CompactSize integer: the first byte decides the width, and the
/// value is that byte (below `0xfd`) or the little-endian value of the 2, 4
/// or 8 bytes after the prefix.
pub proof fn lemma_varint_decode_layout(s: Seq<u8>)
    requires
        varint_decode(s) is Ok,
    ensures
        ({
            let (v, n) = varint_decode(s)->Ok_0;
            &&& n <= s.len()
            &&& s[0] < 0xfd ==> n == 1 && v == s[0]
            &&& s[0] == 0xfd ==> n == 3 && v == le_value(s.subrange(1, 3))
            &&& s[0] == 0xfe ==> n == 5 && v == le_value(s.subrange(1, 5))
            &&& s[0] == 0xff ==> n == 9 && v == le_value(s.subrange(1, 9))
        }),
{
    if s[0] == 0xfd {
        lemma_u16_bytes_roundtrip(s[1], s[2]);
        assert(s.subrange(1, 3) =~= seq![s[1], s[2]]);
        lemma_le_value_u16(crate::serialization::bytes::le_u16_at(s, 1));
    } else if s[0] == 0xfe {
        lemma_le_value_at4(s, 1);
    } else if s[0] == 0xff {
        lemma_u64_bytes_roundtrip(s[1], s[2], s[3], s[4], s[5], s[6], s[7], s[8]);
        assert(s.subrange(1, 9) =~= seq![s[1], s[2], s[3], s[4], s[5], s[6], s[7], s[8]]);
        lemma_le_value_u64(crate::serialization::bytes::le_u64_at(s, 1));
    }
}

// ---------------------------------------------------------------------------
// Block headers
// ---------------------------------------------------------------------------

/// The 80-byte header: version (bytes 0..4), previous block hash (4..36),
/// merkle root (36..68), time (68..72), bits (72..76) and nonce (76..80),
/// the integers little-endian.
pub proof fn lemma_header_layout(h: HeaderModel)
    requires
        h.prev_block_hash.len() == 32,
        h.merkle_root.len() == 32,
    ensures
        header_bytes(h).len() == 80,
        le_value(header_bytes(h).subrange(0, 4)) == h.version as u32,
        header_bytes(h).subrange(4, 36) == h.prev_block_hash,
        header_bytes(h).subrange(36, 68) == h.merkle_root,
        le_value(header_bytes(h).subrange(68, 72)) == h.timestamp as u32,
        le_value(header_bytes(h).subrange(72, 76)) == h.bits as u32,
        le_value(header_bytes(h).subrange(76, 80)) == h.nonce as u32,
{
    let e = header_bytes(h);
    assert(e.subrange(0, 4) =~= u32_le(h.version as u32));
    assert(e.subrange(4, 36) =~= h.prev_block_hash);
    assert(e.subrange(36, 68) =~= h.merkle_root);
    assert(e.subrange(68, 72) =~= u32_le(h.timestamp as u32));
    assert(e.subrange(72, 76) =~= u32_le(h.bits as u32));
    assert(e.subrange(76, 80) =~= u32_le(h.nonce as u32));
    lemma_le_value_u32(h.version as u32);
    lemma_le_value_u32(h.timestamp as u32);
    lemma_le_value_u32(h.bits as u32);
    lemma_le_value_u32(h.nonce as u32);
}

/// Decoding a header reads each field from its place: the version from bytes
/// 0..4 (sign-extended), the previous block hash from 4..36, the merkle root
/// from 36..68, time, bits and nonce from 68..72, 72..76 and 76..80.
pub proof fn lemma_header_read_layout(s: Seq<u8>)
    requires
        parse_header(s) is Ok,
    ensures
        ({
            let h = parse_header(s)->Ok_0;
            &&& h.version as u32 == le_value(s.subrange(0, 4))
            &&& i32::MIN <= h.version <= i32::MAX
            &&& h.prev_block_hash == s.subrange(4, 36)
            &&& h.merkle_root == s.subrange(36, 68)
            &&& h.timestamp == le_value(s.subrange(68, 72))
            &&& h.bits == le_value(s.subrange(72, 76))
            &&& h.nonce == le_value(s.subrange(76, 80))
        }),
{
    let x0 = crate::serialization::bytes::le_u32_at(s, 0);
    assert(((x0 as i32) as i64) as u32 == x0) by (bit_vector);
    lemma_le_value_at4(s, 0);
    lemma_le_value_at4(s, 68);
    lemma_le_value_at4(s, 72);
    lemma_le_value_at4(s, 76);
}

// ---------------------------------------------------------------------------
// Transaction inputs, outputs and witness stacks
// ---------------------------------------------------------------------------

/// An input: the 32-byte hash of the spent transaction, the spent output's
/// index (4 bytes little-endian), the length-prefixed script, then the
/// sequence number (4 bytes little-endian).
pub proof fn lemma_input_layout(i: TxInModel)
    requires
        i.prevout_hash.len() == 32,
    ensures
        ({
            let e = input_bytes(i);
            &&& e.len() >= 40
            &&& e.subrange(0, 32) == i.prevout_hash
            &&& le_value(e.subrange(32, 36)) == i.prevout_index
            &&& e.subrange(36, e.len() - 4) == varint_bytes(i.script_sig.len() as u64)
                + i.script_sig
            &&& le_value(e.subrange(e.len() - 4, e.len() as int)) == i.sequence as u32
        }),
{
    let e = input_bytes(i);
    let c = var_bytes(i.script_sig);
    assert(e.subrange(0, 32) =~= i.prevout_hash);
    assert(e.subrange(32, 36) =~= u32_le(i.prevout_index));
    assert(e.subrange(36, e.len() - 4) =~= c);
    assert(e.subrange(e.len() - 4, e.len() as int) =~= u32_le(i.sequence as u32));
    lemma_le_value_u32(i.prevout_index);
    lemma_le_value_u32(i.sequence as u32);
}

/// Decoding an input at `off` reads the spent transaction's hash from the
/// first 32 bytes, the spent output's index from the next 4 (little-endian),
/// and the sequence number from the last 4 it takes (little-endian).
pub proof fn lemma_input_read_layout(s: Seq<u8>, off: int)
    requires
        0 <= off,
        parse_input(s, off) is Ok,
    ensures
        ({
            let (i, o2) = parse_input(s, off)->Ok_0;
            &&& off + 40 <= o2 <= s.len()
            &&& i.prevout_hash == s.subrange(off, off + 32)
            &&& i.prevout_index == le_value(s.subrange(off + 32, off + 36))
            &&& i.sequence == le_value(s.subrange(o2 - 4, o2))
        }),
{
    let (script, o) = parse_var_bytes(s, off + 36)->Ok_0;
    crate::serialization::varint::lemma_varint_canonical(s.skip(off + 36));
    lemma_le_value_at4(s, off + 32);
    lemma_le_value_at4(s, o);
}

/// Inputs, outputs and witness stacks are written in order: the first one
/// first, then the rest.
pub proof fn lemma_items_written_in_order(
    ins: Seq<TxInModel>,
    outs: Seq<TxOutModel>,
    ws: WitnessesModel,
)
    ensures
        ins.len() > 0 ==> inputs_bytes(ins) == input_bytes(ins[0]) + inputs_bytes(
            ins.drop_first(),
        ),
        outs.len() > 0 ==> outputs_bytes(outs) == crate::serialization::transaction::output_bytes(
            outs[0],
        ) + outputs_bytes(outs.drop_first()),
        ws.len() > 0 ==> witnesses_bytes(ws) == witness_bytes(ws[0]) + witnesses_bytes(
            ws.drop_first(),
        ),
{
    if ins.len() > 0 {
        lemma_concat_front(ins.map_values(input_enc()));
        assert(ins.map_values(input_enc()).drop_first() =~= ins.drop_first().map_values(
            input_enc(),
        ));
    }
    if outs.len() > 0 {
        lemma_concat_front(outs.map_values(output_enc()));
        assert(outs.map_values(output_enc()).drop_first() =~= outs.drop_first().map_values(
            output_enc(),
        ));
    }
    if ws.len() > 0 {
        lemma_concat_front(ws.map_values(witness_enc()));
        assert(ws.map_values(witness_enc()).drop_first() =~= ws.drop_first().map_values(
            witness_enc(),
        ));
    }
}

/// Witness stacks are read in input order: the first stack on the wire is
/// the stack of input 0, and the stacks of the other inputs follow it.
pub proof fn lemma_witnesses_read_in_order(s: Seq<u8>, off: int, n: nat)
    requires
        n > 0,
        parse_witnesses(s, off, true, n) is Ok,
    ensures
        parse_witness(s, off) is Ok,
        parse_witnesses(s, off, true, n)->Ok_0.0[0] == parse_witness(s, off)->Ok_0.0,
        parse_witnesses(s, parse_witness(s, off)->Ok_0.1, true, (n - 1) as nat) == Ok::<
            (WitnessesModel, int),
            crate::error::SerializationError,
        >(
            (
                parse_witnesses(s, off, true, n)->Ok_0.0.drop_first(),
                parse_witnesses(s, off, true, n)->Ok_0.1,
            ),
        ),
{
    lemma_parse_many_front(witness_item(), s, off, n);
}

/// The eight bytes at `off` have the value of the `u64` they spell.
proof fn lemma_le_value_at8(s: Seq<u8>, off: int)
    requires
        0 <= off,
        off + 8 <= s.len(),
    ensures
        le_value(s.subrange(off, off + 8)) == crate::serialization::bytes::le_u64_at(s, off),
{
    lemma_u64_bytes_roundtrip(
        s[off],
        s[off + 1],
        s[off + 2],
        s[off + 3],
        s[off + 4],
        s[off + 5],
        s[off + 6],
        s[off + 7],
    );
    assert(s.subrange(off, off + 8) =~= seq![
        s[off],
        s[off + 1],
        s[off + 2],
        s[off + 3],
        s[off + 4],
        s[off + 5],
        s[off + 6],
        s[off + 7],
    ]);
    lemma_le_value_u64(crate::serialization::bytes::le_u64_at(s, off));
}

/// An output: the amount in 8 bytes (two's complement, little-endian), then
/// the length-prefixed script.
pub proof fn lemma_output_layout(o: TxOutModel)
    ensures
        ({
            let e = output_bytes(o);
            &&& e.len() >= 9
            &&& le_value(e.subrange(0, 8)) == o.value as u64
            &&& e.subrange(8, e.len() as int) == varint_bytes(o.script_pubkey.len() as u64)
                + o.script_pubkey
        }),
{
    let e = output_bytes(o);
    assert(e.subrange(0, 8) =~= u64_le(o.value as u64));
    assert(e.subrange(8, e.len() as int) =~= var_bytes(o.script_pubkey));
    lemma_le_value_u64(o.value as u64);
}

/// Decoding an output at `off` reads the amount from the first 8 bytes
/// (little-endian) and the script from the bytes that end what it takes.
pub proof fn lemma_output_read_layout(s: Seq<u8>, off: int)
    requires
        0 <= off,
        parse_output(s, off) is Ok,
    ensures
        ({
            let (o, o2) = parse_output(s, off)->Ok_0;
            &&& off + 9 <= o2 <= s.len()
            &&& o.value as u64 == le_value(s.subrange(off, off + 8))
            &&& o.script_pubkey == s.subrange(o2 - o.script_pubkey.len(), o2)
        }),
{
    crate::serialization::varint::lemma_varint_canonical(s.skip(off + 8));
    lemma_le_value_at8(s, off);
    let x = crate::serialization::bytes::le_u64_at(s, off);
    assert((x as i64) as u64 == x) by (bit_vector);
}

/// A witness stack: its element count, then its elements in order, each
/// length-prefixed.
pub proof fn lemma_witness_stack_layout(w: Seq<Seq<u8>>)
    requires
        w.len() > 0,
    ensures
        witness_bytes(w) == varint_bytes(w.len() as u64) + (varint_bytes(w[0].len() as u64)
            + w[0]) + concat(w.drop_first().map_values(var_bytes_enc())),
{
    lemma_concat_front(w.map_values(var_bytes_enc()));
    assert(w.map_values(var_bytes_enc()).drop_first() =~= w.drop_first().map_values(
        var_bytes_enc(),
    ));
    assert(witness_bytes(w) =~= varint_bytes(w.len() as u64) + (varint_bytes(w[0].len() as u64)
        + w[0]) + concat(w.drop_first().map_values(var_bytes_enc())));
}

/// Decoding a witness stack at `off` reads its elements in order: after the
/// element count, the first element on the wire is element 0.
pub proof fn lemma_witness_stack_read_in_order(s: Seq<u8>, off: int)
    requires
        parse_witness(s, off) is Ok,
        parse_witness(s, off)->Ok_0.0.len() > 0,
    ensures
        varint_decode(s.skip(off)) is Ok,
        parse_var_bytes(s, off + varint_decode(s.skip(off))->Ok_0.1) is Ok,
        parse_witness(s, off)->Ok_0.0[0] == parse_var_bytes(
            s,
            off + varint_decode(s.skip(off))->Ok_0.1,
        )->Ok_0.0,
{
    let (k, n) = varint_decode(s.skip(off))->Ok_0;
    lemma_parse_many_front(var_bytes_item(), s, off + n, k as nat);
}

/// A plain transaction: the version (4 bytes little-endian) first, then the
/// input count (or, with no inputs but some outputs, `00 01 00`), and the
/// lock time (4 bytes little-endian) last.
pub proof fn lemma_tx_layout(tx: TxModel)
    ensures
        ({
            let e = tx_bytes(tx);
            let k = varint_bytes(tx.inputs.len() as u64).len();
            &&& e.len() >= 10
            &&& le_value(e.subrange(0, 4)) == tx.version as u32
            &&& le_value(e.subrange(e.len() - 4, e.len() as int)) == tx.lock_time as u32
            &&& (tx.inputs.len() > 0 || tx.outputs.len() == 0) ==> e.subrange(4, 4int + k)
                == varint_bytes(tx.inputs.len() as u64)
            &&& (tx.inputs.len() == 0 && tx.outputs.len() > 0) ==> e.subrange(4, 7) == seq![
                0u8,
                1u8,
                0u8,
            ]
        }),
{
    let e = tx_bytes(tx);
    lemma_varint_layout(tx.inputs.len() as u64);
    lemma_varint_layout(tx.outputs.len() as u64);
    let ic = crate::serialization::transaction::input_count_bytes(tx);
    assert(e.subrange(0, 4) =~= u32_le(tx.version as u32));
    assert(e.subrange(4, 4int + ic.len()) =~= ic);
    assert(e.subrange(e.len() - 4, e.len() as int) =~= u32_le(tx.lock_time as u32));
    lemma_le_value_u32(tx.version as u32);
    lemma_le_value_u32(tx.lock_time as u32);
    if tx.inputs.len() == 0 && tx.outputs.len() > 0 {
        assert(ic =~= seq![0u8, 1u8, 0u8]);
    }
}

/// A SegWit transaction: the version (4 bytes little-endian), the marker and
/// flag `00 01`, the input count, ..., the witness stacks right before the
/// lock time (4 bytes little-endian), which comes last.
pub proof fn lemma_tx_witness_layout(tx: TxModel, ws: WitnessesModel)
    ensures
        ({
            let e = tx_witness_bytes(tx, ws);
            let k = varint_bytes(tx.inputs.len() as u64).len();
            let wl = witnesses_bytes(ws).len();
            &&& e.len() >= 12 + wl
            &&& le_value(e.subrange(0, 4)) == tx.version as u32
            &&& e[4] == 0 && e[5] == 1
            &&& e.subrange(6, 6int + k) == varint_bytes(tx.inputs.len() as u64)
            &&& e.subrange(e.len() - 4 - wl, e.len() - 4) == witnesses_bytes(ws)
            &&& le_value(e.subrange(e.len() - 4, e.len() as int)) == tx.lock_time as u32
        }),
{
    let e = tx_witness_bytes(tx, ws);
    lemma_varint_layout(tx.inputs.len() as u64);
    lemma_varint_layout(tx.outputs.len() as u64);
    let k = varint_bytes(tx.inputs.len() as u64).len();
    let wl = witnesses_bytes(ws).len();
    assert(e.subrange(0, 4) =~= u32_le(tx.version as u32));
    assert(e.subrange(6, 6int + k) =~= varint_bytes(tx.inputs.len() as u64));
    assert(e.subrange(e.len() - 4 - wl, e.len() - 4) =~= witnesses_bytes(ws));
    assert(e.subrange(e.len() - 4, e.len() as int) =~= u32_le(tx.lock_time as u32));
    lemma_le_value_u32(tx.version as u32);
    lemma_le_value_u32(tx.lock_time as u32);
}

/// Decoding a transaction reads the version from its first 4 bytes and the
/// lock time from the last 4 it takes, both little-endian; the version is
/// sign-extended from 32 bits.
pub proof fn lemma_tx_read_layout(s: Seq<u8>)
    requires
        parse_tx(s) is Ok,
    ensures
        ({
            let (tx, ws, n) = parse_tx(s)->Ok_0;
            &&& 10 <= n <= s.len()
            &&& tx.version as u32 == le_value(s.subrange(0, 4))
            &&& (tx.version < 0x8000_0000 || tx.version >= 0xffff_ffff_8000_0000)
            &&& tx.lock_time == le_value(s.subrange(n - 4, n))
        }),
{
    let (tx, ws, n) = parse_tx(s)->Ok_0;
    lemma_transaction_canonical(s);
    let e = s.subrange(0, n);
    if announces_witness(s) {
        lemma_tx_witness_layout(tx, ws);
        assert(e == tx_witness_bytes(tx, ws));
    } else {
        lemma_tx_layout(tx);
        assert(e == tx_bytes(tx));
    }
    assert(e.subrange(0, 4) =~= s.subrange(0, 4));
    assert(e.subrange(n - 4, n) =~= s.subrange(n - 4, n));
    let v = tx.version;
    assert(((v as u32) as i32) as u64 == v ==> (v < 0x8000_0000 || v >= 0xffff_ffff_8000_0000))
        by (bit_vector);
}

/// A block: the 80-byte header, the transaction count, then the
/// transactions in order, the first one first.
pub proof fn lemma_block_layout(b: BlockModel, ws: Seq<WitnessesModel>, include_witness: bool)
    ensures
        ({
            let e = block_bytes(b, ws, include_witness);
            let k = varint_bytes(b.transactions.len() as u64).len();
            let items = block_items(b, ws, include_witness);
            &&& b.header.prev_block_hash.len() == 32 && b.header.merkle_root.len() == 32
                ==> e.subrange(0, 80) == header_bytes(b.header)
            &&& b.header.prev_block_hash.len() == 32 && b.header.merkle_root.len() == 32
                ==> e.subrange(80, 80int + k) == varint_bytes(b.transactions.len() as u64)
            &&& b.transactions.len() > 0 ==> items[0].0 == b.transactions[0] && concat(
                items.map_values(block_tx_enc()),
            ) == block_tx_bytes(items[0]) + concat(items.drop_first().map_values(block_tx_enc()))
        }),
{
    let e = block_bytes(b, ws, include_witness);
    let items = block_items(b, ws, include_witness);
    if b.header.prev_block_hash.len() == 32 && b.header.merkle_root.len() == 32 {
        lemma_header_layout(b.header);
        let k = varint_bytes(b.transactions.len() as u64).len();
        assert(e.subrange(0, 80) =~= header_bytes(b.header));
        assert(e.subrange(80, 80int + k) =~= varint_bytes(b.transactions.len() as u64));
    }
    if b.transactions.len() > 0 {
        lemma_concat_front(items.map_values(block_tx_enc()));
        assert(items.map_values(block_tx_enc()).drop_first() =~= items.drop_first().map_values(
            block_tx_enc(),
        ));
    }
}

/// Decoding a block reads its transactions in order: the first transaction
/// is the one that starts right after the header and the transaction count.
pub proof fn lemma_block_read_in_order(s: Seq<u8>)
    requires
        parse_block(s) is Ok,
    ensures
        ({
            let n = varint_decode(s.skip(80))->Ok_0.1;
            &&& varint_decode(s.skip(80)) is Ok
            &&& parse_tx(s.skip(80 + n)) is Ok
            &&& parse_block(s)->Ok_0.0.transactions[0] == parse_tx(s.skip(80 + n))->Ok_0.0
            &&& parse_block(s)->Ok_0.1[0] == parse_tx(s.skip(80 + n))->Ok_0.1
        }),
{
    reveal(parse_block);
    let (count, n) = varint_decode(s.skip(80))->Ok_0;
    lemma_parse_many_front(tx_item(), s, 80 + n, count as nat);
    let items = parse_many(tx_item(), s, 80 + n, count as nat)->Ok_0.0;
    assert(items.len() == count) by {
        crate::serialization::bytes::lemma_parse_many_len(tx_item(), s, 80 + n, count as nat);
    }
}

} // verus!
