//! Transaction decoding is canonical: the bytes a successful decode takes are
//! exactly the encoding of what it returns.

use crate::serialization::bytes::{
    le_u32_at, le_u64_at, lemma_parse_many_reads, lemma_subrange_join, lemma_u32_bytes_roundtrip,
    lemma_u64_bytes_roundtrip, parse_many, reads_only_encodings, u32_le, u64_le,
};
use crate::serialization::transaction::{
    empty_witnesses, input_bytes, input_enc, input_item, input_wf, inputs_bytes, output_bytes,
    output_enc, output_item, output_wf, outputs_bytes, parse_input, parse_input_count,
    parse_output, parse_output_count, parse_tx, parse_var_bytes, parse_witness, parse_witnesses,
    tx_bytes, tx_wf, tx_witness_bytes, var_bytes, var_bytes_enc, var_bytes_item, var_bytes_wf,
    witness_bytes, witness_enc, witness_item, witness_wf, witnesses_bytes, witnesses_wf,
    WitnessesModel, MAX_TX_VECTOR_LEN,
};
use crate::serialization::transaction::{
    lemma_transaction_roundtrip, lemma_transaction_witness_roundtrip,
};
use crate::serialization::varint::{lemma_varint_canonical, varint_bytes, varint_decode};
use crate::types::{TxInModel, TxModel, TxOutModel};
use vstd::prelude::*;

verus! {

/// The four bytes at `off` are the little-endian bytes of the `u32` read there.
proof fn lemma_u32_bytes_at(s: Seq<u8>, off: int)
    requires
        0 <= off,
        off + 4 <= s.len(),
    ensures
        s.subrange(off, off + 4) == u32_le(le_u32_at(s, off)),
{
    lemma_u32_bytes_roundtrip(s[off], s[off + 1], s[off + 2], s[off + 3]);
    assert(s.subrange(off, off + 4) =~= seq![s[off], s[off + 1], s[off + 2], s[off + 3]]);
}

/// The eight bytes at `off` are the little-endian bytes of the `u64` read there.
proof fn lemma_u64_bytes_at(s: Seq<u8>, off: int)
    requires
        0 <= off,
        off + 8 <= s.len(),
    ensures
        s.subrange(off, off + 8) == u64_le(le_u64_at(s, off)),
{
    lemma_u64_bytes_roundtrip(
        s[off],
        s[off + 1],
        s[off + 2],
        s[off + 3],
        s[off + 4],
        s[off + 5],
        s[off + 6],
        s[off + 7],
    );
    assert(s.subrange(off, off + 8) =~= seq![
        s[off],
        s[off + 1],
        s[off + 2],
        s[off + 3],
        s[off + 4],
        s[off + 5],
        s[off + 6],
        s[off + 7],
    ]);
}

/// A varint read at `off` took exactly the encoding of the value read.
proof fn lemma_varint_at(s: Seq<u8>, off: int)
    requires
        0 <= off <= s.len(),
        varint_decode(s.skip(off)) is Ok,
    ensures
        ({
            let (v, n) = varint_decode(s.skip(off))->Ok_0;
            &&& off + n <= s.len()
            &&& s.subrange(off, off + n) == varint_bytes(v)
        }),
{
    let t = s.skip(off);
    lemma_varint_canonical(t);
    let (v, n) = varint_decode(t)->Ok_0;
    assert(s.subrange(off, off + n) =~= t.subrange(0, n as int));
}

proof fn lemma_parse_var_bytes_reads(s: Seq<u8>, off: int)
    requires
        0 <= off <= s.len(),
        parse_var_bytes(s, off) is Ok,
    ensures
        ({
            let (b, o2) = parse_var_bytes(s, off)->Ok_0;
            &&& off <= o2 <= s.len()
            &&& s.subrange(off, o2) == var_bytes(b)
            &&& var_bytes_wf(b)
        }),
{
    lemma_varint_at(s, off);
    let (len, n) = varint_decode(s.skip(off))->Ok_0;
    let (b, o2) = parse_var_bytes(s, off)->Ok_0;
    assert(b.len() == len);
    lemma_subrange_join(s, off, off + n, o2);
}

proof fn lemma_var_bytes_reads_only(s: Seq<u8>)
    ensures
        reads_only_encodings(var_bytes_item(), var_bytes_enc(), |b: Seq<u8>| var_bytes_wf(b), s),
{
    assert forall|o: int|
        0 <= o <= s.len() && #[trigger] var_bytes_item()(s, o) is Ok implies {
        let (x, o2) = var_bytes_item()(s, o)->Ok_0;
        &&& o <= o2 <= s.len()
        &&& s.subrange(o, o2) == var_bytes_enc()(x)
        &&& var_bytes_wf(x)
    } by {
        lemma_parse_var_bytes_reads(s, o);
    }
}

proof fn lemma_parse_input_reads(s: Seq<u8>, off: int)
    requires
        0 <= off <= s.len(),
        parse_input(s, off) is Ok,
    ensures
        ({
            let (i, o2) = parse_input(s, off)->Ok_0;
            &&& off <= o2 <= s.len()
            &&& s.subrange(off, o2) == input_bytes(i)
            &&& input_wf(i)
        }),
{
    lemma_parse_var_bytes_reads(s, off + 36);
    let (script, o) = parse_var_bytes(s, off + 36)->Ok_0;
    let (i, o2) = parse_input(s, off)->Ok_0;
    lemma_u32_bytes_at(s, off + 32);
    lemma_u32_bytes_at(s, o);
    lemma_subrange_join(s, off, off + 32, off + 36);
    lemma_subrange_join(s, off, off + 36, o);
    lemma_subrange_join(s, off, o, o2);
}

proof fn lemma_inputs_read_only(s: Seq<u8>)
    ensures
        reads_only_encodings(input_item(), input_enc(), |i: TxInModel| input_wf(i), s),
{
    assert forall|o: int| 0 <= o <= s.len() && #[trigger] input_item()(s, o) is Ok implies {
        let (x, o2) = input_item()(s, o)->Ok_0;
        &&& o <= o2 <= s.len()
        &&& s.subrange(o, o2) == input_enc()(x)
        &&& input_wf(x)
    } by {
        lemma_parse_input_reads(s, o);
    }
}

proof fn lemma_u64_i64_roundtrip(x: u64)
    ensures
        (x as i64) as u64 == x,
{
    assert((x as i64) as u64 == x) by (bit_vector);
}

proof fn lemma_parse_output_reads(s: Seq<u8>, off: int)
    requires
        0 <= off <= s.len(),
        parse_output(s, off) is Ok,
    ensures
        ({
            let (out, o2) = parse_output(s, off)->Ok_0;
            &&& off <= o2 <= s.len()
            &&& s.subrange(off, o2) == output_bytes(out)
            &&& output_wf(out)
        }),
{
    lemma_parse_var_bytes_reads(s, off + 8);
    lemma_u64_bytes_at(s, off);
    lemma_u64_i64_roundtrip(le_u64_at(s, off));
    let (out, o2) = parse_output(s, off)->Ok_0;
    lemma_subrange_join(s, off, off + 8, o2);
}

proof fn lemma_outputs_read_only(s: Seq<u8>)
    ensures
        reads_only_encodings(output_item(), output_enc(), |o: TxOutModel| output_wf(o), s),
{
    assert forall|o: int| 0 <= o <= s.len() && #[trigger] output_item()(s, o) is Ok implies {
        let (x, o2) = output_item()(s, o)->Ok_0;
        &&& o <= o2 <= s.len()
        &&& s.subrange(o, o2) == output_enc()(x)
        &&& output_wf(x)
    } by {
        lemma_parse_output_reads(s, o);
    }
}

proof fn lemma_parse_witness_reads(s: Seq<u8>, off: int)
    requires
        0 <= off <= s.len(),
        parse_witness(s, off) is Ok,
    ensures
        ({
            let (w, o2) = parse_witness(s, off)->Ok_0;
            &&& off <= o2 <= s.len()
            &&& s.subrange(off, o2) == witness_bytes(w)
            &&& witness_wf(w)
        }),
{
    lemma_varint_at(s, off);
    let (k, n) = varint_decode(s.skip(off))->Ok_0;
    lemma_var_bytes_reads_only(s);
    lemma_parse_many_reads(
        var_bytes_item(),
        var_bytes_enc(),
        |b: Seq<u8>| var_bytes_wf(b),
        s,
        off + n,
        k as nat,
    );
    let (w, o2) = parse_witness(s, off)->Ok_0;
    lemma_subrange_join(s, off, off + n, o2);
    assert(w.len() as u64 == k);
}

proof fn lemma_witnesses_read_only(s: Seq<u8>)
    ensures
        reads_only_encodings(witness_item(), witness_enc(), |w: Seq<Seq<u8>>| witness_wf(w), s),
{
    assert forall|o: int| 0 <= o <= s.len() && #[trigger] witness_item()(s, o) is Ok implies {
        let (x, o2) = witness_item()(s, o)->Ok_0;
        &&& o <= o2 <= s.len()
        &&& s.subrange(o, o2) == witness_enc()(x)
        &&& witness_wf(x)
    } by {
        lemma_parse_witness_reads(s, o);
    }
}

/// After the version, `s` announces the extended (SegWit) form: an empty
/// input vector followed by flag 1.
pub open spec fn announces_witness(s: Seq<u8>) -> bool {
    s.len() >= 6 && s[4] == 0 && s[5] == 1
}

/// The first byte of a varint is zero only for the value zero.
proof fn lemma_varint_first_byte(v: u64)
    ensures
        varint_bytes(v).len() >= 1,
        varint_bytes(v)[0] == 0 <==> v == 0,
{
}

/// What reading the input count took.
proof fn lemma_input_count_reads(s: Seq<u8>)
    requires
        s.len() >= 4,
        parse_input_count(s, 4) is Ok,
    ensures
        ({
            let (segwit, ic, o1, implicit_empty) = parse_input_count(s, 4)->Ok_0;
            &&& 4 < o1 <= s.len()
            &&& ic <= MAX_TX_VECTOR_LEN
            &&& segwit <==> announces_witness(s)
            &&& segwit ==> !implicit_empty && s.subrange(4, 6) == seq![0u8, 1u8] && s.subrange(
                6,
                o1,
            ) == varint_bytes(ic)
            &&& !segwit && implicit_empty ==> ic == 0 && o1 == 6 && s.subrange(4, 6)
                == varint_bytes(0) + varint_bytes(0)
            &&& !segwit && !implicit_empty ==> ic > 0 && s.subrange(4, o1) == varint_bytes(ic)
        }),
{
    lemma_varint_at(s, 4);
    let (c, n) = varint_decode(s.skip(4))->Ok_0;
    lemma_varint_first_byte(c);
    assert(s.subrange(4, 4 + n)[0] == s[4]);
    if c == 0 {
        assert(n == 1);
        assert(s.skip(5)[0] == s[5]);
        if s[5] == 1 {
            lemma_varint_at(s, 6);
            assert(s.subrange(4, 6) =~= seq![0u8, 1u8]);
        } else {
            assert(s.subrange(4, 6) =~= varint_bytes(0) + varint_bytes(0));
        }
    }
}

/// What reading the output count took.
proof fn lemma_output_count_reads(s: Seq<u8>, off: int, implicit_empty: bool)
    requires
        0 <= off <= s.len(),
        parse_output_count(s, off, implicit_empty) is Ok,
    ensures
        ({
            let (oc, o) = parse_output_count(s, off, implicit_empty)->Ok_0;
            &&& off <= o <= s.len()
            &&& oc <= MAX_TX_VECTOR_LEN
            &&& implicit_empty ==> oc == 0 && o == off
            &&& !implicit_empty ==> s.subrange(off, o) == varint_bytes(oc)
        }),
{
    if !implicit_empty {
        lemma_varint_at(s, off);
    }
}

/// The version is read sign-extended and written back as its low 32 bits.
proof fn lemma_version_reads(x: u32)
    ensures
        ((x as i32) as u64) as u32 == x,
        ((((x as i32) as u64) as u32) as i32) as u64 == (x as i32) as u64,
{
    assert(((x as i32) as u64) as u32 == x && ((((x as i32) as u64) as u32) as i32) as u64 == (
    x as i32) as u64) by (bit_vector);
}

/// The fixed-width ends of a decoded transaction: its version and lock time.
proof fn lemma_ends_read(s: Seq<u8>, o5: int)
    requires
        4 <= o5,
        o5 + 4 <= s.len(),
    ensures
        s.subrange(0, 4) == u32_le((((le_u32_at(s, 0) as i32) as u64) as u32)),
        ((((((le_u32_at(s, 0) as i32) as u64) as u32) as i32) as u64)) == ((le_u32_at(s, 0)
            as i32) as u64),
        s.subrange(o5, o5 + 4) == u32_le(((le_u32_at(s, o5) as u64) as u32)),
{
    lemma_u32_bytes_at(s, 0);
    lemma_u32_bytes_at(s, o5);
    lemma_version_reads(le_u32_at(s, 0));
}

/// The model of a successful decode, from the results of its steps.
spec fn decoded_tx(s: Seq<u8>, ins: Seq<TxInModel>, outs: Seq<TxOutModel>, o5: int) -> TxModel {
    TxModel {
        version: (le_u32_at(s, 0) as i32) as u64,
        inputs: ins,
        outputs: outs,
        lock_time: le_u32_at(s, o5) as u64,
    }
}

/// Decoding is canonical: a decoded transaction is well formed, and the
/// bytes decoding took are exactly its SegWit encoding with the decoded
/// witness stacks when the extended form is announced, and its plain
/// encoding (with one empty witness stack per input) otherwise.
#[verifier::spinoff_prover]
pub proof fn lemma_transaction_canonical(s: Seq<u8>)
    requires
        parse_tx(s) is Ok,
    ensures
        ({
            let (tx, ws, n) = parse_tx(s)->Ok_0;
            &&& tx_wf(tx)
            &&& 4 <= n <= s.len()
            &&& announces_witness(s) ==> witnesses_wf(tx, ws) && s.subrange(0, n)
                == tx_witness_bytes(tx, ws)
            &&& !announces_witness(s) ==> ws == empty_witnesses(tx.inputs.len()) && s.subrange(
                0,
                n,
            ) == tx_bytes(tx)
        }),
{
    reveal(parse_tx);
    lemma_input_count_reads(s);
    let (segwit, ic, o1, implicit_empty) = parse_input_count(s, 4)->Ok_0;
    lemma_inputs_read_only(s);
    lemma_parse_many_reads(input_item(), input_enc(), |i: TxInModel| input_wf(i), s, o1, ic as nat);
    let (ins, o2) = parse_many(input_item(), s, o1, ic as nat)->Ok_0;
    lemma_output_count_reads(s, o2, implicit_empty);
    let (oc, o3) = parse_output_count(s, o2, implicit_empty)->Ok_0;
    lemma_outputs_read_only(s);
    lemma_parse_many_reads(
        output_item(),
        output_enc(),
        |o: TxOutModel| output_wf(o),
        s,
        o3,
        oc as nat,
    );
    let (outs, o4) = parse_many(output_item(), s, o3, oc as nat)->Ok_0;
    let (ws, o5) = parse_witnesses(s, o4, segwit, ic as nat)->Ok_0;
    let tx = decoded_tx(s, ins, outs, o5);
    assert(parse_tx(s)->Ok_0 == (tx, ws, o5 + 4));
    if segwit {
        lemma_witnesses_read_only(s);
        lemma_parse_many_reads(
            witness_item(),
            witness_enc(),
            |w: Seq<Seq<u8>>| witness_wf(w),
            s,
            o4,
            ic as nat,
        );
        lemma_ends_read(s, o5);
        lemma_segwit_pieces(s, tx, ws, o1, o2, o3, o4, o5);
    } else {
        assert(o5 == o4);
        lemma_ends_read(s, o5);
        lemma_plain_pieces(s, tx, implicit_empty, o1, o2, o3, o4);
    }
}

proof fn lemma_segwit_pieces(
    s: Seq<u8>,
    tx: TxModel,
    ws: WitnessesModel,
    o1: int,
    o2: int,
    o3: int,
    o4: int,
    o5: int,
)
    requires
        6 <= o1 <= o2 <= o3 <= o4 <= o5,
        o5 + 4 <= s.len(),
        s.subrange(0, 4) == u32_le(tx.version as u32),
        s.subrange(4, 6) == seq![0u8, 1u8],
        s.subrange(6, o1) == varint_bytes(tx.inputs.len() as u64),
        s.subrange(o1, o2) == inputs_bytes(tx.inputs),
        s.subrange(o2, o3) == varint_bytes(tx.outputs.len() as u64),
        s.subrange(o3, o4) == outputs_bytes(tx.outputs),
        s.subrange(o4, o5) == witnesses_bytes(ws),
        s.subrange(o5, o5 + 4) == u32_le(tx.lock_time as u32),
    ensures
        s.subrange(0, o5 + 4) == tx_witness_bytes(tx, ws),
{
    lemma_subrange_join(s, 0, 4, 6);
    lemma_subrange_join(s, 0, 6, o1);
    lemma_subrange_join(s, 0, o1, o2);
    lemma_subrange_join(s, 0, o2, o3);
    lemma_subrange_join(s, 0, o3, o4);
    lemma_subrange_join(s, 0, o4, o5);
    lemma_subrange_join(s, 0, o5, o5 + 4);
}

proof fn lemma_plain_pieces(
    s: Seq<u8>,
    tx: TxModel,
    implicit_empty: bool,
    o1: int,
    o2: int,
    o3: int,
    o4: int,
)
    requires
        4 < o1 <= o2 <= o3 <= o4,
        o4 + 4 <= s.len(),
        s.subrange(0, 4) == u32_le(tx.version as u32),
        implicit_empty ==> tx.inputs.len() == 0 && tx.outputs.len() == 0 && o1 == 6 && o4 == 6
            && s.subrange(4, 6) == varint_bytes(0) + varint_bytes(0),
        !implicit_empty ==> tx.inputs.len() > 0 && s.subrange(4, o1) == varint_bytes(
            tx.inputs.len() as u64,
        ) && s.subrange(o1, o2) == inputs_bytes(tx.inputs) && s.subrange(o2, o3) == varint_bytes(
            tx.outputs.len() as u64,
        ) && s.subrange(o3, o4) == outputs_bytes(tx.outputs),
        s.subrange(o4, o4 + 4) == u32_le(tx.lock_time as u32),
    ensures
        s.subrange(0, o4 + 4) == tx_bytes(tx),
{
    if implicit_empty {
        assert(tx.inputs.map_values(input_enc()) =~= Seq::<Seq<u8>>::empty());
        assert(tx.outputs.map_values(output_enc()) =~= Seq::<Seq<u8>>::empty());
        lemma_subrange_join(s, 0, 4, 6);
        lemma_subrange_join(s, 0, 6, 10);
        assert(tx_bytes(tx) =~= u32_le(tx.version as u32) + varint_bytes(0) + varint_bytes(0)
            + u32_le(tx.lock_time as u32));
        assert(s.subrange(0, 10) =~= u32_le(tx.version as u32) + varint_bytes(0) + varint_bytes(0)
            + u32_le(tx.lock_time as u32));
    } else {
        lemma_subrange_join(s, 0, 4, o1);
        lemma_subrange_join(s, 0, o1, o2);
        lemma_subrange_join(s, 0, o2, o3);
        lemma_subrange_join(s, 0, o3, o4);
        lemma_subrange_join(s, 0, o4, o4 + 4);
    }
}

/// Decoding needs all the bytes it takes: every proper prefix of what a
/// successful decode took is refused.
pub proof fn lemma_transaction_prefix_refused(s: Seq<u8>, k: int)
    requires
        parse_tx(s) is Ok,
        0 <= k < parse_tx(s)->Ok_0.2,
    ensures
        parse_tx(s.take(k)) is Err,
{
    let n = parse_tx(s)->Ok_0.2;
    lemma_transaction_canonical(s);
    assert(n <= s.len());
    let t = s.take(k);
    assert(t.len() == k);
    if parse_tx(t) is Ok {
        lemma_transaction_canonical(t);
        let (tx2, ws2, n2) = parse_tx(t)->Ok_0;
        assert(n2 <= k);
        let rest = s.skip(n2);
        assert(t.subrange(0, n2) =~= s.subrange(0, n2));
        if announces_witness(t) {
            assert(s =~= tx_witness_bytes(tx2, ws2) + rest);
            lemma_transaction_witness_roundtrip(tx2, ws2, rest);
        } else {
            assert(s =~= tx_bytes(tx2) + rest);
            lemma_transaction_roundtrip(tx2, rest);
        }
        assert(n == n2);
    }
}

} // verus!
