# blvm_primitives

Foundational types, wire-format serialization and configuration for Bitcoin
consensus and protocol layers, written in Verus: each function states what it
does in its contract, and Verus proves it.

## Layout

- `src/serialization/` — CompactSize integers (`varint`), transactions
  (`transaction`), block headers and blocks (`block`), and the little-endian
  helpers they share (`bytes`). Each decoder is proved equal to a spec parser
  over byte sequences, each encoder to a spec encoding, and the encodings are
  proved to decode back (`lemma_varint_roundtrip`,
  `lemma_transaction_roundtrip`, `lemma_transaction_witness_roundtrip`,
  `lemma_header_roundtrip`, `lemma_block_roundtrip`,
  `lemma_block_witness_roundtrip`). Blocks with witness data are written in
  the Bitcoin wire format: each transaction that carries witness data in its
  own SegWit form, the others in the plain form. Decoding is also proved
  canonical: the bytes a decode takes are the encoding of what it returns
  (`lemma_varint_canonical`, `lemma_header_canonical`, and
  `lemma_transaction_canonical` in `tx_canonical`), and no proper prefix of
  a transaction's encoding decodes (`lemma_transaction_prefix_refused`).
- `src/orange_paper_helpers.rs` — the monetary schedule: subsidy, total and
  remaining supply, with the proof that the total supply never exceeds
  21 million bitcoin (`lemma_total_supply_within_max_money`), and that the
  UTXO-set value does not depend on the order of the amounts
  (`lemma_amounts_sum_permutation`).
- `src/types.rs` — transactions, blocks, UTXOs, the inline/shared script
  storage `SharedByteString` (which compares, hashes and shows itself as its
  bytes, however they are stored; `debug_form.rs` holds the form it shows
  under `Debug`), networks and height/hash newtypes.
- `src/config.rs` — configuration structs and their defaults.
- `src/spec_types/` — `SpecVec` and `SpecHashMap`, wrappers whose contracts
  speak of sequences and maps.
- `app/` — what the verified library does not hold: serde-enabled copies of
  the data types, reading `BITCOIN_NETWORK` from the environment, and the
  floating-point formulas (inflation rate, difficulty).
- `tests/` — unit tests of the library.
