//! Block and transaction primitives: 32-byte digests and addresses,
//! typed signed transactions with a canonical byte encoding, block
//! headers and bodies, and the transactions-root commitment.

use vstd::prelude::*;
use crate::codec::{
    pow256, spec_le_bytes, spec_le_val, lemma_le_bytes_len, lemma_le_roundtrip, lemma_pow256_16,
    push_le, push_bytes, read_le,
};
use crate::hashing::{
    blake3_of, ed25519_verifies, hash_bytes, ed25519_verify, bytes32_of_slice, bytes64_of_slice,
};
use crate::hexstr::{
    spec_hex_str, spec_strip_prefix, spec_hex_body_ok, spec_hex_body_bytes, to_hex_string,
    parse_hex32,
};

verus! {

/// 32-byte digest used across headers and roots. The all-zero digest
/// is the sentinel for an empty trie root.
#[derive(Clone, Copy, PartialEq, Eq, Hash, Debug)]
pub struct Hash(pub [u8; 32]);

impl View for Hash {
    type V = Seq<u8>;

    open spec fn view(&self) -> Seq<u8> {
        self.0@
    }
}

/// The all-zero 32-byte sequence.
pub open spec fn spec_zero32() -> Seq<u8> {
    Seq::new(32, |i: int| 0u8)
}

impl Hash {
    /// The zero digest: the sentinel meaning "empty trie root".
    pub fn zero() -> (r: Hash)
        ensures
            r@ == spec_zero32(),
    {
        let r = Hash([0u8; 32]);
        proof {
            assert(r@ =~= spec_zero32());
        }
        r
    }

    /// Byte-equality of two digests.
    pub fn equals(&self, other: &Hash) -> (r: bool)
        ensures
            r == (self@ == other@),
    {
        bytes32_equal(&self.0, &other.0)
    }

    /// Canonical text form: `0x` followed by 64 lowercase hex characters.
    pub fn to_string(&self) -> (r: String)
        ensures
            r@ == spec_hex_str(self@),
    {
        to_hex_string(self.0.as_slice())
    }

    /// Parses the text form; the `0x` prefix is optional and uppercase
    /// digits are accepted. Fails on any other length or character.
    pub fn parse(s: &str) -> (r: Result<Hash, String>)
        ensures
            r is Ok <==> spec_hex_body_ok(spec_strip_prefix(s@)),
            r is Ok ==> r->Ok_0@ == spec_hex_body_bytes(spec_strip_prefix(s@)),
    {
        match parse_hex32(s) {
            Ok(v) => Ok(Hash(bytes32_of_slice(v.as_slice()))),
            Err(e) => Err(e),
        }
    }
}

impl Default for Hash {
    /// The zero digest.
    fn default() -> (r: Hash)
        ensures
            r@ == spec_zero32(),
    {
        Hash::zero()
    }
}

impl core::str::FromStr for Hash {
    type Err = String;

    fn from_str(s: &str) -> Result<Hash, String> {
        Hash::parse(s)
    }
}

/// 32-byte account address, interpreted as an Ed25519 public key when
/// signatures are verified.
#[derive(Clone, Copy, PartialEq, Eq, Hash, Debug)]
pub struct Address(pub [u8; 32]);

impl View for Address {
    type V = Seq<u8>;

    open spec fn view(&self) -> Seq<u8> {
        self.0@
    }
}

impl Address {
    /// The zero address.
    pub fn zero() -> (r: Address)
        ensures
            r@ == spec_zero32(),
    {
        let r = Address([0u8; 32]);
        proof {
            assert(r@ =~= spec_zero32());
        }
        r
    }

    /// Canonical text form: `0x` followed by 64 lowercase hex characters.
    pub fn to_string(&self) -> (r: String)
        ensures
            r@ == spec_hex_str(self@),
    {
        to_hex_string(self.0.as_slice())
    }

    /// Parses the text form; the `0x` prefix is optional and uppercase
    /// digits are accepted. Fails on any other length or character.
    pub fn parse(s: &str) -> (r: Result<Address, String>)
        ensures
            r is Ok <==> spec_hex_body_ok(spec_strip_prefix(s@)),
            r is Ok ==> r->Ok_0@ == spec_hex_body_bytes(spec_strip_prefix(s@)),
    {
        match parse_hex32(s) {
            Ok(v) => Ok(Address(bytes32_of_slice(v.as_slice()))),
            Err(e) => Err(e),
        }
    }
}

impl Default for Address {
    /// The zero address.
    fn default() -> (r: Address)
        ensures
            r@ == spec_zero32(),
    {
        Address::zero()
    }
}

impl core::str::FromStr for Address {
    type Err = String;

    fn from_str(s: &str) -> Result<Address, String> {
        Address::parse(s)
    }
}

/// Byte-equality of two 32-byte arrays.
pub fn bytes32_equal(a: &[u8; 32], b: &[u8; 32]) -> (r: bool)
    ensures
        r == (a@ == b@),
{
    let mut i: usize = 0;
    while i < 32
        invariant
            i <= 32,
            forall|j: int| 0 <= j < i ==> a@[j] == b@[j],
        decreases 32 - i,
    {
        if a[i] != b[i] {
            return false;
        }
        i = i + 1;
    }
    proof {
        assert(a@ =~= b@);
    }
    true
}

/// Supported transaction kinds. The kind carries no semantics beyond
/// being part of the signed payload and the canonical encoding.
#[derive(Clone, Copy, PartialEq, Eq, Hash, Debug)]
pub enum TransactionType {
    /// Simple transfer from sender to receiver.
    Transfer,
    /// Compute task assignment or payment.
    ComputeTask,
    /// Stake to a validator or staking contract.
    Stake,
}

/// The one-byte discriminant of a transaction kind.
pub open spec fn spec_tx_tag(t: TransactionType) -> u8 {
    match t {
        TransactionType::Transfer => 0,
        TransactionType::ComputeTask => 1,
        TransactionType::Stake => 2,
    }
}

/// Mathematical image of a transaction: its fields over sequences and
/// unbounded integers.
pub struct TxV {
    pub tx_type: TransactionType,
    pub sender: Seq<u8>,
    pub receiver: Seq<u8>,
    pub amount: nat,
    pub nonce: nat,
    pub signature: Seq<u8>,
}

/// A typed transaction with an Ed25519 signature over its signing
/// payload.
#[derive(Clone, PartialEq, Eq, Debug)]
pub struct Transaction {
    /// Transaction kind.
    pub tx_type: TransactionType,
    /// Sender address (Ed25519 public key).
    pub sender: Address,
    /// Receiver address.
    pub receiver: Address,
    /// Amount transferred, staked or paid.
    pub amount: u128,
    /// Nonce preventing replay.
    pub nonce: u64,
    /// Ed25519 signature over the signing payload.
    pub signature: [u8; 64],
}

impl View for Transaction {
    type V = TxV;

    open spec fn view(&self) -> TxV {
        TxV {
            tx_type: self.tx_type,
            sender: self.sender@,
            receiver: self.receiver@,
            amount: self.amount as nat,
            nonce: self.nonce as nat,
            signature: self.signature@,
        }
    }
}

/// Field widths that every transaction image taken from a real
/// `Transaction` satisfies.
pub open spec fn spec_wf_tx(t: TxV) -> bool {
    &&& t.sender.len() == 32
    &&& t.receiver.len() == 32
    &&& t.signature.len() == 64
    &&& t.amount < pow256(16)
    &&& t.nonce < pow256(8)
}

/// The canonical signing payload: every field but the signature, in
/// declaration order.
pub open spec fn spec_signing_payload(t: TxV) -> Seq<u8> {
    seq![spec_tx_tag(t.tx_type)] + t.sender + t.receiver + spec_le_bytes(t.amount, 16)
        + spec_le_bytes(t.nonce, 8)
}

/// The canonical encoding of a whole transaction: the signing payload
/// followed by the 64 signature bytes.
pub open spec fn spec_encode_tx(t: TxV) -> Seq<u8> {
    spec_signing_payload(t) + t.signature
}

pub proof fn lemma_payload_len(t: TxV)
    requires
        spec_wf_tx(t),
    ensures
        spec_signing_payload(t).len() == 89,
        spec_encode_tx(t).len() == 153,
{
    lemma_le_bytes_len(t.amount, 16);
    lemma_le_bytes_len(t.nonce, 8);
}

/// The transaction a 153-byte canonical encoding denotes, if its
/// discriminant is known.
pub open spec fn spec_decode_tx(b: Seq<u8>) -> Option<TxV> {
    if b.len() == 153 && b[0] < 3 {
        Some(
            TxV {
                tx_type: if b[0] == 0 {
                    TransactionType::Transfer
                } else if b[0] == 1 {
                    TransactionType::ComputeTask
                } else {
                    TransactionType::Stake
                },
                sender: b.subrange(1, 33),
                receiver: b.subrange(33, 65),
                amount: spec_le_val(b.subrange(65, 81)),
                nonce: spec_le_val(b.subrange(81, 89)),
                signature: b.subrange(89, 153),
            },
        )
    } else {
        None
    }
}

/// Decoding a canonical encoding restores the transaction bit-exactly.
pub proof fn lemma_tx_roundtrip(t: TxV)
    requires
        spec_wf_tx(t),
    ensures
        spec_decode_tx(spec_encode_tx(t)) == Some(t),
{
    let e = spec_encode_tx(t);
    lemma_payload_len(t);
    lemma_le_bytes_len(t.amount, 16);
    lemma_le_bytes_len(t.nonce, 8);
    assert(e[0] == spec_tx_tag(t.tx_type));
    assert(e.subrange(1, 33) =~= t.sender);
    assert(e.subrange(33, 65) =~= t.receiver);
    assert(e.subrange(65, 81) =~= spec_le_bytes(t.amount, 16));
    assert(e.subrange(81, 89) =~= spec_le_bytes(t.nonce, 8));
    assert(e.subrange(89, 153) =~= t.signature);
    lemma_le_roundtrip(t.amount, 16);
    lemma_le_roundtrip(t.nonce, 8);
    let d = spec_decode_tx(e)->0;
    assert(d.tx_type == t.tx_type);
    assert(d =~= t) by {
        assert(d.sender == t.sender);
    }
}

impl Transaction {
    /// The canonical signing payload: the encoding of every field but
    /// the signature, in declaration order.
    pub fn signing_payload(&self) -> (r: Vec<u8>)
        ensures
            r@ == spec_signing_payload(self@),
    {
        let mut out: Vec<u8> = Vec::new();
        let tag: u8 = match self.tx_type {
            TransactionType::Transfer => 0,
            TransactionType::ComputeTask => 1,
            TransactionType::Stake => 2,
        };
        out.push(tag);
        push_bytes(&mut out, self.sender.0.as_slice());
        push_bytes(&mut out, self.receiver.0.as_slice());
        push_le(&mut out, self.amount, 16);
        push_le(&mut out, self.nonce as u128, 8);
        proof {
            assert(self.amount as nat == self@.amount);
            assert(out@ =~= spec_signing_payload(self@));
        }
        out
    }

    /// True exactly when the signature is a valid Ed25519 signature
    /// over the signing payload under the sender's key.
    pub fn verify_signature(&self) -> (r: bool)
        ensures
            r == ed25519_verifies(self.sender@, spec_signing_payload(self@), self.signature@),
    {
        let payload = self.signing_payload();
        ed25519_verify(&self.sender.0, payload.as_slice(), &self.signature)
    }
}

/// Encodes a transaction canonically: the signing payload followed by
/// the signature bytes.
pub fn encode_transaction(tx: &Transaction) -> (r: Vec<u8>)
    ensures
        r@ == spec_encode_tx(tx@),
{
    let mut out = tx.signing_payload();
    push_bytes(&mut out, &tx.signature);
    out
}

/// Decodes a canonical transaction encoding. Succeeds exactly on the
/// encodings that `encode_transaction` produces.
pub fn decode_transaction(b: &[u8]) -> (r: Result<Transaction, String>)
    ensures
        r is Ok <==> spec_decode_tx(b@) is Some,
        r is Ok ==> Some(r->Ok_0@) == spec_decode_tx(b@),
{
    if b.len() != 153 {
        return Err(String::from_str("malformed encoding"));
    }
    let tag = b[0];
    let tx_type = if tag == 0 {
        TransactionType::Transfer
    } else if tag == 1 {
        TransactionType::ComputeTask
    } else if tag == 2 {
        TransactionType::Stake
    } else {
        return Err(String::from_str("malformed encoding"));
    };
    let sender = Address(bytes32_of_slice(vstd::slice::slice_subrange(b, 1, 33)));
    let receiver = Address(bytes32_of_slice(vstd::slice::slice_subrange(b, 33, 65)));
    let amount_v = read_le(b, 65, 16);
    let nonce_v = read_le(b, 81, 8);
    let signature = bytes64_of_slice(vstd::slice::slice_subrange(b, 89, 153));
    proof {
        crate::codec::lemma_le_val_bound(b@.subrange(81, 89));
        lemma_pow256_16();
        crate::codec::lemma_pow256_le(8, 16);
    }
    let tx = Transaction {
        tx_type,
        sender,
        receiver,
        amount: amount_v,
        nonce: nonce_v as u64,
        signature,
    };
    proof {
        let d = spec_decode_tx(b@)->0;
        assert(tx@.sender == d.sender);
        assert(tx@.receiver == d.receiver);
        assert(tx@.signature == d.signature);
        assert(tx@ =~= d);
    }
    Ok(tx)
}

/// Block header: chain linkage, commitment roots and metadata.
#[derive(Clone, PartialEq, Eq, Debug)]
pub struct BlockHeader {
    /// Digest of the parent block.
    pub parent_hash: Hash,
    /// State root after executing this block.
    pub state_root: Hash,
    /// Commitment to the body's ordered transactions.
    pub transactions_root: Hash,
    /// Unix timestamp in seconds.
    pub timestamp: u64,
    /// Block height; genesis is 0.
    pub height: u64,
}

/// Block body: the ordered transactions. Order is significant.
#[derive(Clone, PartialEq, Eq, Debug)]
pub struct BlockBody {
    /// Ordered transactions included in the block.
    pub transactions: Vec<Transaction>,
}

impl Default for BlockBody {
    /// A body with no transactions.
    fn default() -> (r: BlockBody)
        ensures
            r.transactions@.len() == 0,
    {
        BlockBody { transactions: Vec::new() }
    }
}

/// A full block: header plus body.
#[derive(Clone, PartialEq, Eq, Debug)]
pub struct Block {
    /// Header with metadata and commitments.
    pub header: BlockHeader,
    /// Body with the ordered transactions.
    pub body: BlockBody,
}

/// The byte stream the transactions root commits to: for each
/// transaction in order, a 4-byte little-endian length then its
/// canonical encoding.
pub open spec fn spec_txs_payload(ts: Seq<TxV>) -> Seq<u8>
    decreases ts.len(),
{
    if ts.len() == 0 {
        Seq::empty()
    } else {
        spec_txs_payload(ts.drop_last()) + spec_le_bytes(spec_encode_tx(ts.last()).len(), 4)
            + spec_encode_tx(ts.last())
    }
}

/// The views of a sequence of transactions.
pub open spec fn spec_tx_views(ts: Seq<Transaction>) -> Seq<TxV> {
    ts.map_values(|t: Transaction| t@)
}

/// Commitment to an ordered transaction list: the BLAKE3 digest of the
/// length-prefixed canonical encodings, in order. A function of the
/// ordered list alone.
pub fn compute_transactions_root(txs: &[Transaction]) -> (r: Hash)
    ensures
        r@ == blake3_of(spec_txs_payload(spec_tx_views(txs@))),
{
    let n = txs.len();
    let mut buf: Vec<u8> = Vec::new();
    let mut i: usize = 0;
    proof {
        assert(spec_tx_views(txs@.take(0)) =~= Seq::<TxV>::empty());
    }
    while i < n
        invariant
            i <= n,
            n == txs@.len(),
            buf@ == spec_txs_payload(spec_tx_views(txs@.take(i as int))),
        decreases n - i,
    {
        let e = encode_transaction(&txs[i]);
        proof {
            lemma_pow256_16();
            lemma_payload_len(txs@[i as int]@);
        }
        push_le(&mut buf, e.len() as u128, 4);
        push_bytes(&mut buf, e.as_slice());
        i = i + 1;
        proof {
            let prev = spec_tx_views(txs@.take(i - 1));
            let cur = spec_tx_views(txs@.take(i as int));
            assert(cur.drop_last() =~= prev);
            assert(cur.last() == txs@[i - 1]@);
        }
    }
    proof {
        assert(txs@.take(n as int) =~= txs@);
    }
    Hash(hash_bytes(buf.as_slice()))
}

} // verus!
