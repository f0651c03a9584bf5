//! Content-addressed node store: a mapping from the BLAKE3 digest of a
//! node's canonical encoding to that encoding. Inserting an existing
//! node is idempotent; nothing is ever rewritten in place.

use vstd::prelude::*;
use crate::hashing::{blake3_of, hash_bytes};
use crate::node::{Node, NodeV, spec_encode_node, spec_decode_node, spec_wf_node, encode_node,
    decode_node};

verus! {

/// The mapping a store holds: later entries for the same key win.
pub open spec fn spec_entries_map(s: Seq<(crate::primitives::Hash, Vec<u8>)>) -> Map<
    Seq<u8>,
    Seq<u8>,
>
    decreases s.len(),
{
    if s.len() == 0 {
        Map::empty()
    } else {
        spec_entries_map(s.drop_last()).insert(s.last().0@, s.last().1@)
    }
}

/// The node stored under a key: the decoding of the bytes there, if
/// the key is present and the bytes decode.
pub open spec fn spec_fetch(m: Map<Seq<u8>, Seq<u8>>, h: Seq<u8>) -> Option<NodeV> {
    if m.contains_key(h) {
        spec_decode_node(m[h])
    } else {
        None
    }
}

/// Storing a node: its encoding keyed by the encoding's digest, and
/// that digest.
pub open spec fn spec_put(m: Map<Seq<u8>, Seq<u8>>, n: NodeV) -> (Map<Seq<u8>, Seq<u8>>, Seq<u8>) {
    let e = spec_encode_node(n);
    (m.insert(blake3_of(e), e), blake3_of(e))
}

/// Fetching right after storing a well-formed node gives it back.
pub proof fn lemma_fetch_after_put(m: Map<Seq<u8>, Seq<u8>>, n: NodeV)
    requires
        spec_wf_node(n),
    ensures
        spec_fetch(spec_put(m, n).0, spec_put(m, n).1) == Some(n),
{
    crate::node::lemma_node_roundtrip(n);
}

/// Whatever a fetch returns is structurally well-formed: the decoder
/// only accepts such nodes.
pub proof fn lemma_fetch_wf(m: Map<Seq<u8>, Seq<u8>>, h: Seq<u8>)
    requires
        spec_fetch(m, h) is Some,
    ensures
        spec_wf_node(spec_fetch(m, h)->0),
{
    crate::node::lemma_decode_wf(m[h]);
}

/// In-memory content-addressed store, keyed by the digest of each
/// encoded node.
pub struct MemoryStore {
    entries: Vec<(crate::primitives::Hash, Vec<u8>)>,
}

impl View for MemoryStore {
    type V = Map<Seq<u8>, Seq<u8>>;

    closed spec fn view(&self) -> Map<Seq<u8>, Seq<u8>> {
        spec_entries_map(self.entries@)
    }
}

impl MemoryStore {
    /// An empty store.
    pub fn new() -> (r: MemoryStore)
        ensures
            r@ == Map::<Seq<u8>, Seq<u8>>::empty(),
    {
        MemoryStore { entries: Vec::new() }
    }

    /// The bytes stored under a key, if any.
    pub(crate) fn get_bytes(&self, h: &crate::primitives::Hash) -> (r: Option<&Vec<u8>>)
        ensures
            r is Some <==> self@.contains_key(h@),
            r is Some ==> r->0@ == self@[h@],
    {
        let n = self.entries.len();
        let mut i: usize = n;
        proof {
            assert(self.entries@.take(n as int) =~= self.entries@);
        }
        while i > 0
            invariant
                i <= n,
                n == self.entries@.len(),
                self@.contains_key(h@) == spec_entries_map(self.entries@.take(i as int)).contains_key(h@),
                self@.contains_key(h@) ==> self@[h@] == spec_entries_map(
                    self.entries@.take(i as int),
                )[h@],
            decreases i,
        {
            proof {
                assert(self.entries@.take(i as int).last() == self.entries@[i - 1]);
                assert(self.entries@.take(i as int).drop_last() =~= self.entries@.take(i - 1));
            }
            if self.entries[i - 1].0.equals(h) {
                return Some(&self.entries[i - 1].1);
            }
            i = i - 1;
        }
        proof {
            assert(self.entries@.take(0) =~= Seq::<(crate::primitives::Hash, Vec<u8>)>::empty());
        }
        None
    }

    /// Decodes and returns the node stored under a key; a missing key
    /// or undecodable bytes both read as absent.
    pub fn get(&self, h: &crate::primitives::Hash) -> (r: Option<Node>)
        ensures
            r is Some <==> spec_fetch(self@, h@) is Some,
            r is Some ==> Some(r->0@) == spec_fetch(self@, h@),
    {
        match self.get_bytes(h) {
            None => None,
            Some(bytes) => decode_node(bytes.as_slice()),
        }
    }

    /// Stores a node under the digest of its encoding, idempotently,
    /// and returns that digest.
    pub fn put(&mut self, node: &Node) -> (r: crate::primitives::Hash)
        requires
            spec_wf_node(node@),
        ensures
            final(self)@ == spec_put(old(self)@, node@).0,
            r@ == spec_put(old(self)@, node@).1,
    {
        let enc = encode_node(node);
        let h = crate::primitives::Hash(hash_bytes(enc.as_slice()));
        let ghost before = self.entries@;
        self.entries.push((h, enc));
        proof {
            assert(self.entries@.drop_last() =~= before);
            assert(self.entries@.last() == (h, self.entries@.last().1));
        }
        h
    }

    /// Removes whatever is stored under a key; absence is not an error.
    pub fn delete(&mut self, h: &crate::primitives::Hash)
        ensures
            final(self)@ == old(self)@.remove(h@),
    {
        let n = self.entries.len();
        let mut out: Vec<(crate::primitives::Hash, Vec<u8>)> = Vec::new();
        let mut i: usize = 0;
        proof {
            assert(self.entries@.take(0) =~= Seq::<(crate::primitives::Hash, Vec<u8>)>::empty());
            assert(spec_entries_map(out@) =~= spec_entries_map(self.entries@.take(0)).remove(h@));
        }
        while i < n
            invariant
                i <= n,
                n == self.entries@.len(),
                spec_entries_map(out@) == spec_entries_map(self.entries@.take(i as int)).remove(
                    h@,
                ),
            decreases n - i,
        {
            proof {
                assert(self.entries@.take(i + 1).last() == self.entries@[i as int]);
                assert(self.entries@.take(i + 1).drop_last() =~= self.entries@.take(i as int));
            }
            let ghost out_before = out@;
            let entry = &self.entries[i];
            if !entry.0.equals(h) {
                let kcopy = crate::primitives::Hash(entry.0.0);
                let vcopy = copy_bytes(&entry.1);
                out.push((kcopy, vcopy));
                proof {
                    assert(out@.drop_last() =~= out_before);
                    assert(spec_entries_map(out@) == spec_entries_map(out_before).insert(
                        self.entries@[i as int].0@,
                        self.entries@[i as int].1@,
                    ));
                    assert(spec_entries_map(out@) =~= spec_entries_map(
                        self.entries@.take(i + 1),
                    ).remove(h@));
                }
            } else {
                proof {
                    assert(spec_entries_map(out@) =~= spec_entries_map(
                        self.entries@.take(i + 1),
                    ).remove(h@));
                }
            }
            i = i + 1;
        }
        proof {
            assert(self.entries@.take(n as int) =~= self.entries@);
        }
        self.entries = out;
    }
}

/// Copies a byte vector.
pub(crate) fn copy_bytes(v: &Vec<u8>) -> (r: Vec<u8>)
    ensures
        r@ == v@,
{
    let n = v.len();
    let mut out: Vec<u8> = Vec::new();
    let mut i: usize = 0;
    while i < n
        invariant
            i <= n,
            n == v@.len(),
            out@ == v@.take(i as int),
        decreases n - i,
    {
        out.push(v[i]);
        i = i + 1;
        proof {
            assert(out@ =~= v@.take(i as int));
        }
    }
    proof {
        assert(v@.take(n as int) =~= v@);
    }
    out
}

} // verus!
