//! Laws of the library, proved over the same spec functions that the
//! executable operations are verified against. What rests on collision
//! freedom of the digest cannot be proved here, because the digest is
//! an uninterpreted name: those statements are exercised by tests
//! instead.

use vstd::prelude::*;
use crate::codec::pow256;
use crate::nibbles::{spec_nibbles, lemma_nibbles_injective};
use crate::node::NodeV;
use crate::primitives::{TxV, spec_wf_tx, spec_encode_tx, spec_decode_tx, spec_txs_payload,
    lemma_tx_roundtrip, lemma_payload_len};
use crate::store::{spec_put, lemma_fetch_after_put};
use crate::trie::{spec_trie_get, spec_trie_insert, spec_trie_delete, spec_get_at, spec_delete_at};

verus! {

/// One recorded mutation of a trie.
pub enum TrieOp {
    /// Insert `value` under byte key `key`.
    Insert { key: Seq<u8>, value: Seq<u8> },
    /// Delete byte key `key`.
    Delete { key: Seq<u8> },
}

/// Replaying a history of mutations over a starting root and store.
pub open spec fn spec_apply_ops(
    root: Option<Seq<u8>>,
    m: Map<Seq<u8>, Seq<u8>>,
    ops: Seq<TrieOp>,
) -> Option<(Option<Seq<u8>>, Map<Seq<u8>, Seq<u8>>)>
    decreases ops.len(),
{
    if ops.len() == 0 {
        Some((root, m))
    } else {
        let rest = spec_apply_ops(root, m, ops.drop_last());
        match rest {
            None => None,
            Some((r2, m2)) => match ops.last() {
                TrieOp::Insert { key, value } => match spec_trie_insert(r2, m2, key, value) {
                    None => None,
                    Some((nh, m3)) => Some((Some(nh), m3)),
                },
                TrieOp::Delete { key } => match spec_trie_delete(r2, m2, key) {
                    None => None,
                    Some((chg, nr, m3)) => Some(
                        (
                            if chg {
                                nr
                            } else {
                                r2
                            },
                            m3,
                        ),
                    ),
                },
            },
        }
    }
}

/// Determinism: the root digest after a history of inserts and deletes
/// is a function of that history alone. Re-running the same sequence
/// from the same starting state reaches the byte-identical root. (That
/// the root depends only on the surviving key/value set, not on the
/// history that produced it, additionally rests on collision freedom
/// of the digest and is exercised by tests.)
pub proof fn lemma_replay_deterministic(
    root1: Option<Seq<u8>>,
    m1: Map<Seq<u8>, Seq<u8>>,
    root2: Option<Seq<u8>>,
    m2: Map<Seq<u8>, Seq<u8>>,
    ops: Seq<TrieOp>,
)
    requires
        root1 == root2,
        m1 == m2,
    ensures
        spec_apply_ops(root1, m1, ops) == spec_apply_ops(root2, m2, ops),
{
}

/// Round trip on one record: after inserting a pair into the empty
/// trie, the key reads back its value, every other key reads absent,
/// and deleting the key reports a change and empties the root; a
/// second delete of the same key then reports no change.
pub proof fn lemma_single_record_roundtrip(key: Seq<u8>, value: Seq<u8>, other: Seq<u8>)
    requires
        2 * key.len() < pow256(4),
        value.len() < pow256(4),
    ensures
        spec_trie_insert(None, Map::empty(), key, value) is Some,
        ({
            let (nh, nm) = spec_trie_insert(None, Map::empty(), key, value)->0;
            &&& spec_trie_get(Some(nh), nm, key) == Some(value)
            &&& (other != key ==> spec_trie_get(Some(nh), nm, other) is None)
            &&& spec_trie_delete(Some(nh), nm, key) == Some(
                (true, None::<Seq<u8>>, nm),
            )
            &&& spec_trie_delete(None, nm, key) == Some((false, None::<Seq<u8>>, nm))
        }),
{
    let leaf = NodeV::Leaf { key: spec_nibbles(key), value: value };
    assert(crate::node::spec_wf_node(leaf));
    let p = spec_put(Map::empty(), leaf);
    lemma_fetch_after_put(Map::empty(), leaf);
    let (nh, nm) = spec_trie_insert(None, Map::empty(), key, value)->0;
    assert(nh == p.1 && nm == p.0);
    assert(spec_get_at(nm, nh, spec_nibbles(key)) == Some(value));
    if other != key {
        if spec_nibbles(other) == spec_nibbles(key) {
            lemma_nibbles_injective(other, key);
        }
        assert(spec_get_at(nm, nh, spec_nibbles(other)) is None);
    }
    assert(spec_delete_at(nm, nh, spec_nibbles(key)) == Some((true, None::<Seq<u8>>, nm)));
}

/// Emptiness after deleting the only key: continuing from the state
/// that `lemma_single_record_roundtrip` reaches, every lookup on an
/// empty root is absent, whatever the store still holds.
pub proof fn lemma_empty_root_reads_absent(m: Map<Seq<u8>, Seq<u8>>, key: Seq<u8>)
    ensures
        spec_trie_get(None, m, key) is None,
{
}

/// The framed byte stream the transactions root hashes is injective:
/// two transaction lists with the same stream are the same list. The
/// root therefore changes only when the ordered list changes; that two
/// different streams also hash differently rests on collision freedom
/// of the digest and is exercised by tests.
pub proof fn lemma_txs_payload_injective(a: Seq<TxV>, b: Seq<TxV>)
    requires
        forall|i: int| 0 <= i < a.len() ==> spec_wf_tx(#[trigger] a[i]),
        forall|i: int| 0 <= i < b.len() ==> spec_wf_tx(#[trigger] b[i]),
        spec_txs_payload(a) == spec_txs_payload(b),
    ensures
        a == b,
    decreases a.len(),
{
    lemma_txs_payload_len(a);
    lemma_txs_payload_len(b);
    assert(a.len() == b.len());
    if a.len() > 0 {
        let n = a.len() as int;
        lemma_payload_len(a.last());
        lemma_payload_len(b.last());
        crate::codec::lemma_le_bytes_len(153, 4);
        let pa = spec_txs_payload(a.drop_last());
        let pb = spec_txs_payload(b.drop_last());
        lemma_txs_payload_len(a.drop_last());
        lemma_txs_payload_len(b.drop_last());
        let whole = spec_txs_payload(a);
        assert(whole.subrange(0, 157 * (n - 1)) =~= pa);
        assert(spec_txs_payload(b).subrange(0, 157 * (n - 1)) =~= pb);
        assert(pa == pb);
        assert(whole.subrange(157 * (n - 1) + 4, 157 * n) =~= spec_encode_tx(a.last()));
        assert(spec_txs_payload(b).subrange(157 * (n - 1) + 4, 157 * n) =~= spec_encode_tx(
            b.last(),
        ));
        assert(spec_encode_tx(a.last()) == spec_encode_tx(b.last()));
        lemma_tx_roundtrip(a.last());
        lemma_tx_roundtrip(b.last());
        assert(spec_decode_tx(spec_encode_tx(a.last())) == Some(a.last()));
        assert(a.last() == b.last());
        lemma_txs_payload_injective(a.drop_last(), b.drop_last());
        assert(a =~= a.drop_last().push(a.last()));
        assert(b =~= b.drop_last().push(b.last()));
    } else {
        assert(a =~= b);
    }
}

/// The framed stream of `n` well-formed transactions is exactly `157 n`
/// bytes: each frame is a 4-byte length then a 153-byte encoding.
pub proof fn lemma_txs_payload_len(ts: Seq<TxV>)
    requires
        forall|i: int| 0 <= i < ts.len() ==> spec_wf_tx(#[trigger] ts[i]),
    ensures
        spec_txs_payload(ts).len() == 157 * ts.len(),
    decreases ts.len(),
{
    if ts.len() > 0 {
        lemma_txs_payload_len(ts.drop_last());
        lemma_payload_len(ts.last());
        crate::codec::lemma_le_bytes_len(153, 4);
    }
}

/// A proof for a key that is present is non-empty, starts at the root
/// entry, and every entry's digest is the digest of its bytes.
pub proof fn lemma_proof_of_present_key(
    root: Option<Seq<u8>>,
    m: Map<Seq<u8>, Seq<u8>>,
    key: Seq<u8>,
)
    requires
        spec_trie_get(root, m, key) is Some,
    ensures
        crate::trie::spec_trie_proof(root, m, key) is Some,
        (crate::trie::spec_trie_proof(root, m, key)->0).len() > 0,
        (crate::trie::spec_trie_proof(root, m, key)->0)[0] == (
            crate::hashing::blake3_of(m[root->0]),
            m[root->0],
        ),
        forall|i: int|
            0 <= i < (crate::trie::spec_trie_proof(root, m, key)->0).len() ==> (
            #[trigger] (crate::trie::spec_trie_proof(root, m, key)->0)[i]).0
                == crate::hashing::blake3_of((crate::trie::spec_trie_proof(root, m, key)->0)[i].1),
{
    let h = root->0;
    lemma_get_implies_proof(m, h, spec_nibbles(key));
    crate::trie::lemma_proof_entries_hash(m, h, spec_nibbles(key));
}

/// Wherever a lookup finds a value, proof collection succeeds.
proof fn lemma_get_implies_proof(m: Map<Seq<u8>, Seq<u8>>, h: Seq<u8>, path: Seq<u8>)
    requires
        spec_get_at(m, h, path) is Some,
    ensures
        crate::trie::spec_proof_at(m, h, path) is Some,
    decreases path.len(),
{
    let node = crate::store::spec_fetch(m, h)->0;
    match node {
        NodeV::Leaf { .. } => {},
        NodeV::Branch { children, .. } => {
            if path.len() == 0 || path[0] >= 16 {
            } else {
                match children[path[0] as int] {
                    None => {},
                    Some(c) => {
                        lemma_get_implies_proof(m, c, path.skip(1));
                    },
                }
            }
        },
        NodeV::Extension { key, child } => {
            if key.len() > 0 && key.len() <= path.len() && crate::nibbles::spec_common_prefix(
                key,
                path,
            ) == key.len() {
                lemma_get_implies_proof(m, child, path.skip(key.len() as int));
            }
        },
    }
}

} // verus!
