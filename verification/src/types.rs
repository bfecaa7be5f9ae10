//! Essential Bitcoin types for consensus validation, with the mathematical
//! models that contracts speak of.

use std::collections::HashMap;
use std::sync::Arc;
use vstd::prelude::*;
use vstd::std_specs::hash::obeys_key_model;
use vstd::string::StringSliceAdditionalSpecFns;

verus! {

/// Hash type: 256-bit hash.
pub type Hash = [u8; 32];

/// Byte string type.
pub type ByteString = Vec<u8>;

/// Witness data: stack of witness elements (SegWit/Taproot).
pub type Witness = Vec<ByteString>;

/// Natural number type.
pub type Natural = u64;

/// Integer type.
pub type Integer = i64;

/// OutPoint: a transaction hash and an output index.
#[derive(Debug, Clone, Copy, PartialEq, Eq, Hash)]
pub struct OutPoint {
    pub hash: Hash,
    pub index: u32,
}

/// Transaction input: the output it spends, its sequence number and its
/// unlocking script.
#[derive(Debug, Clone, PartialEq, Eq)]
pub struct TransactionInput {
    pub prevout: OutPoint,
    pub sequence: Natural,
    pub script_sig: ByteString,
}

/// Transaction output: an amount and a locking script.
#[derive(Debug, Clone, PartialEq, Eq)]
pub struct TransactionOutput {
    pub value: Integer,
    pub script_pubkey: ByteString,
}

/// Transaction: version, inputs, outputs and lock time.
#[derive(Debug, Clone, PartialEq, Eq)]
pub struct Transaction {
    pub version: Natural,
    pub inputs: Vec<TransactionInput>,
    pub outputs: Vec<TransactionOutput>,
    pub lock_time: Natural,
}

/// Block header: version, previous block hash, merkle root, time, target
/// bits and nonce.
#[derive(Debug, Clone, Copy, PartialEq, Eq)]
pub struct BlockHeader {
    pub version: Integer,
    pub prev_block_hash: Hash,
    pub merkle_root: Hash,
    pub timestamp: Natural,
    pub bits: Natural,
    pub nonce: Natural,
}

/// Block: a header and its transactions.
#[derive(Debug, Clone, PartialEq, Eq)]
pub struct Block {
    pub header: BlockHeader,
    pub transactions: Vec<Transaction>,
}

/// Model of a transaction input.
pub struct TxInModel {
    pub prevout_hash: Seq<u8>,
    pub prevout_index: u32,
    pub script_sig: Seq<u8>,
    pub sequence: u64,
}

/// Model of a transaction output.
pub struct TxOutModel {
    pub value: i64,
    pub script_pubkey: Seq<u8>,
}

/// Model of a transaction.
pub struct TxModel {
    pub version: u64,
    pub inputs: Seq<TxInModel>,
    pub outputs: Seq<TxOutModel>,
    pub lock_time: u64,
}

/// Model of a block header.
pub struct HeaderModel {
    pub version: i64,
    pub prev_block_hash: Seq<u8>,
    pub merkle_root: Seq<u8>,
    pub timestamp: u64,
    pub bits: u64,
    pub nonce: u64,
}

/// Model of a block.
pub struct BlockModel {
    pub header: HeaderModel,
    pub transactions: Seq<TxModel>,
}

impl View for TransactionInput {
    type V = TxInModel;

    open spec fn view(&self) -> TxInModel {
        TxInModel {
            prevout_hash: self.prevout.hash@,
            prevout_index: self.prevout.index,
            script_sig: self.script_sig@,
            sequence: self.sequence,
        }
    }
}

impl View for TransactionOutput {
    type V = TxOutModel;

    open spec fn view(&self) -> TxOutModel {
        TxOutModel { value: self.value, script_pubkey: self.script_pubkey@ }
    }
}

impl View for Transaction {
    type V = TxModel;

    open spec fn view(&self) -> TxModel {
        TxModel {
            version: self.version,
            inputs: self.inputs@.map_values(|i: TransactionInput| i@),
            outputs: self.outputs@.map_values(|o: TransactionOutput| o@),
            lock_time: self.lock_time,
        }
    }
}

impl View for BlockHeader {
    type V = HeaderModel;

    open spec fn view(&self) -> HeaderModel {
        HeaderModel {
            version: self.version,
            prev_block_hash: self.prev_block_hash@,
            merkle_root: self.merkle_root@,
            timestamp: self.timestamp,
            bits: self.bits,
            nonce: self.nonce,
        }
    }
}

impl View for Block {
    type V = BlockModel;

    open spec fn view(&self) -> BlockModel {
        BlockModel {
            header: self.header@,
            transactions: self.transactions@.map_values(|t: Transaction| t@),
        }
    }
}


/// Longest script stored inline, without a shared heap allocation.
const SHARED_BYTE_INLINE_CAP: usize = 25;

enum SharedRepr {
    Inline { len: u8, data: [u8; SHARED_BYTE_INLINE_CAP] },
    Shared(Arc<[u8]>),
}

/// Shareable script bytes for UTXOs: short scripts (at most 25 bytes) are
/// stored inline, longer ones in a shared `Arc<[u8]>`, so that cloning is
/// cheap.
pub struct SharedByteString(SharedRepr);

/// A copy of `v` in a new shared allocation. Trusted: `Arc::from` copies the
/// slice's bytes.
#[verifier::external_body]
fn arc_from_slice(v: &[u8]) -> (a: Arc<[u8]>)
    ensures
        (*a)@ == v@,
{
    Arc::from(v)
}

/// Another handle to the same shared bytes. Trusted: `Arc::clone` returns a
/// pointer to the same allocation.
#[verifier::external_body]
fn arc_clone_bytes(a: &Arc<[u8]>) -> (b: Arc<[u8]>)
    ensures
        (*b)@ == (**a)@,
{
    Arc::clone(a)
}

impl View for SharedByteString {
    type V = Seq<u8>;

    open spec fn view(&self) -> Seq<u8> {
        self.bytes()
    }
}

impl SharedByteString {
    /// The bytes held.
    pub closed spec fn bytes(&self) -> Seq<u8> {
        match self.0 {
            SharedRepr::Inline { len, data } => data@.take(len as int),
            SharedRepr::Shared(a) => (*a)@,
        }
    }

    /// Short contents are inline with zero padding, long ones shared.
    #[verifier::type_invariant]
    closed spec fn inv(&self) -> bool {
        match self.0 {
            SharedRepr::Inline { len, data } => {
                &&& len <= SHARED_BYTE_INLINE_CAP
                &&& forall|i: int| len <= i < SHARED_BYTE_INLINE_CAP ==> data@[i] == 0
            },
            SharedRepr::Shared(a) => (*a)@.len() > SHARED_BYTE_INLINE_CAP,
        }
    }

    /// Whether the bytes are stored inline.
    pub closed spec fn is_inline(&self) -> bool {
        self.0 is Inline
    }

    /// The bytes as a slice.
    pub fn as_slice(&self) -> (s: &[u8])
        ensures
            s@ == self@,
    {
        proof {
            use_type_invariant(self);
        }
        match &self.0 {
            SharedRepr::Inline { len, data } => {
                let all: &[u8] = data.as_slice();
                let s = &all[0..*len as usize];
                assert(s@ =~= data@.take(*len as int));
                s
            },
            SharedRepr::Shared(a) => &**a,
        }
    }

    /// Stores a copy of `v`: inline when it is at most 25 bytes long, shared
    /// otherwise.
    pub fn from_bytes(v: &[u8]) -> (r: Self)
        ensures
            r@ == v@,
            r.is_inline() <==> v@.len() <= 25,
    {
        if v.len() <= SHARED_BYTE_INLINE_CAP {
            let mut data = [0u8; SHARED_BYTE_INLINE_CAP];
            let n = v.len();
            let mut i: usize = 0;
            while i < n
                invariant
                    n == v@.len(),
                    n <= SHARED_BYTE_INLINE_CAP,
                    i <= n,
                    data@.len() == SHARED_BYTE_INLINE_CAP,
                    forall|j: int| 0 <= j < i ==> data@[j] == v@[j],
                    forall|j: int| n <= j < SHARED_BYTE_INLINE_CAP ==> data@[j] == 0,
                decreases n - i,
            {
                data[i] = v[i];
                i = i + 1;
            }
            let r = SharedByteString(SharedRepr::Inline { len: n as u8, data });
            assert(r@ =~= v@);
            r
        } else {
            SharedByteString(SharedRepr::Shared(arc_from_slice(v)))
        }
    }

    /// An owning handle to the bytes as `Arc<[u8]>`: the shared allocation
    /// itself, or a new one for inline bytes.
    pub fn as_arc(&self) -> (a: Arc<[u8]>)
        ensures
            (*a)@ == self@,
    {
        match &self.0 {
            SharedRepr::Shared(a) => arc_clone_bytes(a),
            SharedRepr::Inline { .. } => arc_from_slice(self.as_slice()),
        }
    }
}


impl Clone for SharedByteString {
    /// Copies inline bytes; shares the allocation of long ones.
    fn clone(&self) -> (r: Self)
        ensures
            r@ == self@,
    {
        proof {
            use_type_invariant(self);
        }
        match &self.0 {
            SharedRepr::Inline { len, data } => SharedByteString(
                SharedRepr::Inline { len: *len, data: *data },
            ),
            SharedRepr::Shared(a) => SharedByteString(SharedRepr::Shared(arc_clone_bytes(a))),
        }
    }
}


impl PartialEq for SharedByteString {
    /// Equal exactly when the bytes are equal, however they are stored.
    fn eq(&self, other: &Self) -> (r: bool) {
        let a = self.as_slice();
        let b = other.as_slice();
        if a.len() != b.len() {
            return false;
        }
        let n = a.len();
        let mut i: usize = 0;
        while i < n
            invariant
                n == a@.len(),
                n == b@.len(),
                a@ == self@,
                b@ == other@,
                i <= n,
                forall|j: int| 0 <= j < i ==> a@[j] == b@[j],
            decreases n - i,
        {
            if a[i] != b[i] {
                assert(a@[i as int] != b@[i as int]);
                assert(a@ != b@);
                return false;
            }
            i = i + 1;
        }
        assert(a@ =~= b@);
        true
    }
}

impl vstd::std_specs::cmp::PartialEqSpecImpl for SharedByteString {
    open spec fn obeys_eq_spec() -> bool {
        true
    }

    open spec fn eq_spec(&self, other: &Self) -> bool {
        self@ == other@
    }
}

impl Eq for SharedByteString {
}

/// std's `Hash` for slices, through which the bytes are hashed exactly as
/// the slice itself hashes. The contract claims nothing of the hasher's state
/// after the call.
pub assume_specification<Elem: std::hash::Hash, Hs: std::hash::Hasher>[<[Elem] as std::hash::Hash>::hash::<Hs>](
    slice: &[Elem],
    hasher: &mut Hs,
);

/// std's `core::fmt::Formatter`, declared so that `Debug` can be written by
/// hand; opaque, nothing is claimed of it.
#[verifier::external_type_specification]
#[verifier::external_body]
pub struct ExFormatter<'a>(core::fmt::Formatter<'a>);

/// std's `core::fmt::Error`, the error of a formatting call; opaque.
#[verifier::external_type_specification]
#[verifier::external_body]
pub struct ExFmtError(core::fmt::Error);

/// Writes `form` with its derived `Debug`, through std's `Debug::fmt`.
/// Nothing is claimed of the output or of the result.
#[verifier::external_body]
fn fmt_debug_form(
    form: &crate::debug_form::SharedByteString<'_>,
    f: &mut core::fmt::Formatter<'_>,
) -> core::fmt::Result {
    core::fmt::Debug::fmt(form, f)
}

impl core::fmt::Debug for SharedByteString {
    /// The bytes as a slice under the type's name, however they are stored.
    fn fmt(&self, f: &mut core::fmt::Formatter<'_>) -> core::fmt::Result {
        fmt_debug_form(&crate::debug_form::SharedByteString(self.as_slice()), f)
    }
}

impl core::hash::Hash for SharedByteString {
    /// Hashes the bytes as a slice, however they are stored.
    fn hash<Hs: core::hash::Hasher>(&self, state: &mut Hs) {
        self.as_slice().hash(state);
    }
}

impl core::ops::Deref for SharedByteString {
    type Target = [u8];

    fn deref(&self) -> (s: &[u8])
        ensures
            s@ == self@,
    {
        self.as_slice()
    }
}

impl AsRef<[u8]> for SharedByteString {
    fn as_ref(&self) -> (s: &[u8])
        ensures
            s@ == self@,
    {
        self.as_slice()
    }
}

impl Default for SharedByteString {
    /// No bytes, stored inline.
    fn default() -> (r: Self)
        ensures
            r@ == Seq::<u8>::empty(),
            r.is_inline(),
    {
        let r = SharedByteString(SharedRepr::Inline { len: 0, data: [0u8; SHARED_BYTE_INLINE_CAP] });
        assert(r@ =~= Seq::<u8>::empty());
        r
    }
}

/// What `from` gives is stated by its own `ensures` (the same bytes), not by
/// a representation: `from_spec` is left unspecified.
impl vstd::std_specs::convert::FromSpecImpl<ByteString> for SharedByteString {
    open spec fn obeys_from_spec() -> bool {
        false
    }

    open spec fn from_spec(v: ByteString) -> Self {
        arbitrary()
    }
}

impl<'a> vstd::std_specs::convert::FromSpecImpl<&'a [u8]> for SharedByteString {
    open spec fn obeys_from_spec() -> bool {
        false
    }

    open spec fn from_spec(v: &'a [u8]) -> Self {
        arbitrary()
    }
}

impl From<ByteString> for SharedByteString {
    fn from(v: ByteString) -> (r: Self)
        ensures
            r@ == v@,
    {
        Self::from_bytes(v.as_slice())
    }
}

impl<'a> From<&'a [u8]> for SharedByteString {
    fn from(v: &'a [u8]) -> (r: Self)
        ensures
            r@ == v@,
    {
        Self::from_bytes(v)
    }
}


impl Default for BlockHeader {
    /// All fields zero; a placeholder only.
    fn default() -> (h: Self)
        ensures
            h.version == 0,
            h.prev_block_hash@ == Seq::new(32, |i: int| 0u8),
            h.merkle_root@ == Seq::new(32, |i: int| 0u8),
            h.timestamp == 0,
            h.bits == 0,
            h.nonce == 0,
    {
        let h = BlockHeader {
            version: 0,
            prev_block_hash: [0u8; 32],
            merkle_root: [0u8; 32],
            timestamp: 0,
            bits: 0,
            nonce: 0,
        };
        assert(h.prev_block_hash@ =~= Seq::new(32, |i: int| 0u8));
        assert(h.merkle_root@ =~= Seq::new(32, |i: int| 0u8));
        h
    }
}

/// Network type for consensus validation: determines activation heights of
/// the consensus rules.
#[derive(Debug, Clone, Copy, PartialEq, Eq, Hash, Structural)]
pub enum Network {
    /// Bitcoin mainnet
    Mainnet,
    /// Bitcoin testnet
    Testnet,
    /// Bitcoin regtest (local testing)
    Regtest,
}

/// Whether two strings hold the same bytes.
fn same_bytes(a: &str, b: &str) -> (r: bool)
    ensures
        r == (a.spec_bytes() == b.spec_bytes()),
{
    let x = a.as_bytes();
    let y = b.as_bytes();
    if x.len() != y.len() {
        return false;
    }
    let n = x.len();
    let mut i: usize = 0;
    while i < n
        invariant
            n == x@.len(),
            n == y@.len(),
            x@ == a.spec_bytes(),
            y@ == b.spec_bytes(),
            i <= n,
            forall|j: int| 0 <= j < i ==> x@[j] == y@[j],
        decreases n - i,
    {
        if x[i] != y[i] {
            assert(x@[i as int] != y@[i as int]);
            return false;
        }
        i = i + 1;
    }
    assert(x@ =~= y@);
    true
}

impl Network {
    /// The network named by the value of the `BITCOIN_NETWORK` environment
    /// variable: "testnet" and "regtest" name those networks; anything
    /// else, or no value, means mainnet.
    pub fn from_env_value(value: Option<&str>) -> (n: Network)
        ensures
            n == (match value {
                Some(v) => if v.spec_bytes() == "testnet".spec_bytes() {
                    Network::Testnet
                } else if v.spec_bytes() == "regtest".spec_bytes() {
                    Network::Regtest
                } else {
                    Network::Mainnet
                },
                None => Network::Mainnet,
            }),
    {
        match value {
            Some(v) => {
                if same_bytes(v, "testnet") {
                    Network::Testnet
                } else if same_bytes(v, "regtest") {
                    Network::Regtest
                } else {
                    Network::Mainnet
                }
            },
            None => Network::Mainnet,
        }
    }

    pub open spec fn spec_hrp(&self) -> Seq<char> {
        match self {
            Network::Mainnet => "bc"@,
            Network::Testnet => "tb"@,
            Network::Regtest => "bcrt"@,
        }
    }

    /// The human-readable part (HRP) of Bech32 addresses on this network.
    pub fn hrp(&self) -> (s: &'static str)
        ensures
            s@ == self.spec_hrp(),
    {
        match self {
            Network::Mainnet => "bc",
            Network::Testnet => "tb",
            Network::Regtest => "bcrt",
        }
    }
}

/// Time context for consensus validation: network time and median time-past
/// (BIP113) for timestamp validation.
#[derive(Debug, Clone, Copy, PartialEq, Eq, Structural)]
pub struct TimeContext {
    /// Current network time (Unix timestamp).
    pub network_time: u64,
    /// Median time-past of the previous 11 blocks (BIP113).
    pub median_time_past: u64,
}

/// BIP54 timewarp: timestamps of the boundary blocks for period-boundary
/// checks.
#[derive(Debug, Clone, Copy, PartialEq, Eq, Structural)]
pub struct Bip54BoundaryTimestamps {
    /// Timestamp of the block at height N-1.
    pub timestamp_n_minus_1: u64,
    /// Timestamp of the block at height N-2015.
    pub timestamp_n_minus_2015: u64,
}

/// Stable identifier of each consensus-affecting fork.
#[derive(Debug, Clone, Copy, PartialEq, Eq, Hash, Structural)]
pub enum ForkId {
    /// BIP30: duplicate coinbase prevention.
    Bip30,
    /// BIP16: P2SH.
    Bip16,
    /// BIP34: block height in coinbase.
    Bip34,
    /// BIP66: strict DER signatures.
    Bip66,
    /// BIP65: OP_CHECKLOCKTIMEVERIFY.
    Bip65,
    /// BIP112/BIP113: OP_CHECKSEQUENCEVERIFY.
    Bip112,
    /// BIP147: NULLDUMMY.
    Bip147,
    /// BIP141: SegWit.
    SegWit,
    /// BIP341: Taproot.
    Taproot,
    /// BIP119: OP_CTV.
    Ctv,
    /// BIP348: OP_CSFS.
    Csfs,
    /// BIP54: consensus cleanup.
    Bip54,
}

/// Block height, kept apart from other `u64` values.
#[derive(Debug, Clone, Copy, PartialEq, Eq, PartialOrd, Ord, Hash, Structural)]
pub struct BlockHeight(pub u64);

impl BlockHeight {
    /// Creates a new BlockHeight from a u64.
    pub fn new(height: u64) -> (h: Self)
        ensures
            h.0 == height,
    {
        BlockHeight(height)
    }

    /// The inner u64 value.
    pub fn as_u64(self) -> (v: u64)
        ensures
            v == self.0,
    {
        self.0
    }
}

impl From<u64> for BlockHeight {
    fn from(height: u64) -> (h: Self) {
        BlockHeight(height)
    }
}

impl vstd::std_specs::convert::FromSpecImpl<u64> for BlockHeight {
    open spec fn obeys_from_spec() -> bool {
        true
    }

    open spec fn from_spec(height: u64) -> Self {
        BlockHeight(height)
    }
}

impl From<BlockHeight> for u64 {
    fn from(height: BlockHeight) -> (v: Self) {
        height.0
    }
}

impl vstd::std_specs::convert::FromSpecImpl<BlockHeight> for u64 {
    open spec fn obeys_from_spec() -> bool {
        true
    }

    open spec fn from_spec(height: BlockHeight) -> Self {
        height.0
    }
}

impl core::ops::Deref for BlockHeight {
    type Target = u64;

    fn deref(&self) -> (v: &u64)
        ensures
            *v == self.0,
    {
        &self.0
    }
}

/// Block hash, kept apart from other hashes.
#[derive(Debug, Clone, Copy, PartialEq, Eq, Hash)]
pub struct BlockHash(pub Hash);

impl BlockHash {
    /// Creates a new BlockHash from a Hash.
    pub fn new(hash: Hash) -> (h: Self)
        ensures
            h.0 == hash,
    {
        BlockHash(hash)
    }

    /// The inner Hash value.
    pub fn as_hash(self) -> (h: Hash)
        ensures
            h == self.0,
    {
        self.0
    }

    /// A reference to the inner Hash.
    pub fn as_hash_ref(&self) -> (h: &Hash)
        ensures
            *h == self.0,
    {
        &self.0
    }
}

impl From<Hash> for BlockHash {
    fn from(hash: Hash) -> (h: Self) {
        BlockHash(hash)
    }
}

impl vstd::std_specs::convert::FromSpecImpl<Hash> for BlockHash {
    open spec fn obeys_from_spec() -> bool {
        true
    }

    open spec fn from_spec(hash: Hash) -> Self {
        BlockHash(hash)
    }
}

impl From<BlockHash> for Hash {
    fn from(hash: BlockHash) -> (h: Self) {
        hash.0
    }
}

impl vstd::std_specs::convert::FromSpecImpl<BlockHash> for Hash {
    open spec fn obeys_from_spec() -> bool {
        true
    }

    open spec fn from_spec(hash: BlockHash) -> Self {
        hash.0
    }
}

impl core::ops::Deref for BlockHash {
    type Target = Hash;

    fn deref(&self) -> (h: &Hash)
        ensures
            *h == self.0,
    {
        &self.0
    }
}

/// UTXO: amount, locking script, creation height and whether it comes from
/// a coinbase transaction (coinbase outputs must mature before spending).
#[derive(Debug, Clone, PartialEq, Eq)]
pub struct UTXO {
    pub value: Integer,
    pub script_pubkey: SharedByteString,
    pub height: Natural,
    pub is_coinbase: bool,
}

impl Default for UTXO {
    fn default() -> (u: Self)
        ensures
            u.value == 0,
            u.script_pubkey@ == Seq::<u8>::empty(),
            u.height == 0,
            !u.is_coinbase,
    {
        UTXO { value: 0, script_pubkey: SharedByteString::default(), height: 0, is_coinbase: false }
    }
}

/// UTXO set: each unspent output by its outpoint.
pub type UtxoSet = HashMap<OutPoint, Arc<UTXO>>;

/// An empty UTXO set with room for `n` entries.
pub fn utxo_set_with_capacity(n: usize) -> (set: UtxoSet)
    ensures
        set@ == Map::<OutPoint, Arc<UTXO>>::empty(),
{
    HashMap::with_capacity(n)
}

/// Inserts an owned UTXO into a UTXO set, replacing any entry of the same
/// outpoint. What the map holds afterwards is known as far as std's
/// `HashMap` is known to follow its key model for `OutPoint`.
pub fn utxo_set_insert(set: &mut UtxoSet, op: OutPoint, u: UTXO)
    ensures
        obeys_key_model::<OutPoint>() ==> final(set)@ == old(set)@.insert(op, Arc::new(u)),
{
    set.insert(op, Arc::new(u));
}

/// Validation result. It must be checked: ignoring it may cause consensus
/// violations.
#[must_use]
#[derive(Debug, Clone, PartialEq, Eq)]
pub enum ValidationResult {
    Valid,
    Invalid(String),
}

/// Script execution context.
#[derive(Debug, Clone)]
pub struct ScriptContext {
    pub script_sig: ByteString,
    pub script_pubkey: ByteString,
    pub witness: Option<ByteString>,
    pub flags: u32,
}

/// Block validation context.
#[derive(Debug, Clone)]
pub struct BlockContext {
    pub height: Natural,
    pub prev_headers: Vec<BlockHeader>,
    pub utxo_set: UtxoSet,
}

} // verus!
