//! Hexary Merkle Patricia Trie over a content-addressed node store.
//! Every mutation writes new nodes and re-points hashes (copy on
//! write); the root digest commits to the whole key/value set. Each
//! operation's contract states exactly which nodes it reads and
//! writes, as a function of the store's mapping.

use vstd::prelude::*;
use crate::codec::pow256;
use crate::hashing::blake3_of;
use crate::nibbles::{
    spec_nibbles, spec_is_nibbles, spec_common_prefix, lemma_common_prefix, bytes_to_nibbles,
    common_prefix_len,
};
use crate::node::{Node, NodeV, spec_encode_node, spec_wf_node, encode_node};
use crate::primitives::spec_zero32;
use crate::store::{MemoryStore, spec_fetch, spec_put};

verus! {

/// Errors a trie mutation can surface: a referenced node missing from
/// the store, or stored bytes that no longer decode. Both indicate
/// store corruption and are never swallowed.
#[derive(Clone, Copy, PartialEq, Eq, Debug)]
pub enum TrieError {
    /// A referenced child hash is absent from the store.
    MissingNode,
    /// Stored bytes do not decode to a node.
    MalformedEncoding,
}

/// One step of a path proof: a node's digest and its encoded bytes.
#[derive(Clone, Debug)]
pub struct ProofNode {
    /// Digest of the encoded node.
    pub hash: crate::primitives::Hash,
    /// The node's canonical encoding.
    pub encoded: Vec<u8>,
}

/// Sixteen empty child slots.
pub open spec fn spec_empty_children() -> Seq<Option<Seq<u8>>> {
    Seq::new(16, |i: int| None)
}

// ---------------------------------------------------------------------
// Lookup.
// ---------------------------------------------------------------------
/// The value reached from node `h` along nibble path `path`, if any.
/// A missing or undecodable node reads as absent, as does an extension
/// whose key is empty (never persisted by this library).
pub open spec fn spec_get_at(m: Map<Seq<u8>, Seq<u8>>, h: Seq<u8>, path: Seq<u8>) -> Option<
    Seq<u8>,
>
    decreases path.len(),
{
    match spec_fetch(m, h) {
        None => None,
        Some(node) => match node {
            NodeV::Branch { children, value } => {
                if path.len() == 0 {
                    value
                } else if path[0] < 16 {
                    match children[path[0] as int] {
                        Some(c) => spec_get_at(m, c, path.skip(1)),
                        None => None,
                    }
                } else {
                    None
                }
            },
            NodeV::Extension { key, child } => {
                if key.len() > 0 && key.len() <= path.len() && spec_common_prefix(key, path)
                    == key.len() {
                    spec_get_at(m, child, path.skip(key.len() as int))
                } else {
                    None
                }
            },
            NodeV::Leaf { key, value } => {
                if key == path {
                    Some(value)
                } else {
                    None
                }
            },
        },
    }
}

/// The value stored under byte key `key` in a trie with the given root
/// and store.
pub open spec fn spec_trie_get(
    root: Option<Seq<u8>>,
    m: Map<Seq<u8>, Seq<u8>>,
    key: Seq<u8>,
) -> Option<Seq<u8>> {
    match root {
        None => None,
        Some(h) => spec_get_at(m, h, spec_nibbles(key)),
    }
}

// ---------------------------------------------------------------------
// Insertion.
// ---------------------------------------------------------------------
/// Splitting a leaf `{lk, lv}` against an incoming path: the store
/// additions and the hash of the new subtree root.
pub open spec fn spec_insert_leaf(
    m: Map<Seq<u8>, Seq<u8>>,
    lk: Seq<u8>,
    lv: Seq<u8>,
    path: Seq<u8>,
    value: Seq<u8>,
) -> (Map<Seq<u8>, Seq<u8>>, Seq<u8>) {
    let l = spec_common_prefix(lk, path) as int;
    if l == lk.len() && l == path.len() {
        spec_put(m, NodeV::Leaf { key: lk, value: value })
    } else {
        let step: (Map<Seq<u8>, Seq<u8>>, Seq<Option<Seq<u8>>>, Option<Seq<u8>>) = if l
            == lk.len() {
            let put1 = spec_put(m, NodeV::Leaf { key: path.skip(l + 1), value: value });
            (put1.0, spec_empty_children().update(path[l] as int, Some(put1.1)), Some(lv))
        } else if l == path.len() {
            let put1 = spec_put(m, NodeV::Leaf { key: lk.skip(l + 1), value: lv });
            (put1.0, spec_empty_children().update(lk[l] as int, Some(put1.1)), Some(value))
        } else {
            let put1 = spec_put(m, NodeV::Leaf { key: path.skip(l + 1), value: value });
            let put2 = spec_put(put1.0, NodeV::Leaf { key: lk.skip(l + 1), value: lv });
            (
                put2.0,
                spec_empty_children().update(path[l] as int, Some(put1.1)).update(
                    lk[l] as int,
                    Some(put2.1),
                ),
                None,
            )
        };
        let putb = spec_put(step.0, NodeV::Branch { children: step.1, value: step.2 });
        if l == 0 {
            putb
        } else {
            spec_put(putb.0, NodeV::Extension { key: path.take(l), child: putb.1 })
        }
    }
}

/// Splitting an extension `{xk, child}` whose key diverges from the
/// incoming path at `l < xk.len()`.
pub open spec fn spec_split_extension(
    m: Map<Seq<u8>, Seq<u8>>,
    xk: Seq<u8>,
    child: Seq<u8>,
    path: Seq<u8>,
    value: Seq<u8>,
) -> (Map<Seq<u8>, Seq<u8>>, Seq<u8>) {
    let l = spec_common_prefix(xk, path) as int;
    let old_side: (Map<Seq<u8>, Seq<u8>>, Seq<u8>) = if l + 1 == xk.len() {
        (m, child)
    } else {
        spec_put(m, NodeV::Extension { key: xk.skip(l + 1), child: child })
    };
    let ec = spec_empty_children().update(xk[l] as int, Some(old_side.1));
    let putb: (Map<Seq<u8>, Seq<u8>>, Seq<u8>) = if l == path.len() {
        spec_put(old_side.0, NodeV::Branch { children: ec, value: Some(value) })
    } else {
        let putn = spec_put(old_side.0, NodeV::Leaf { key: path.skip(l + 1), value: value });
        spec_put(
            putn.0,
            NodeV::Branch { children: ec.update(path[l] as int, Some(putn.1)), value: None },
        )
    };
    if l == 0 {
        putb
    } else {
        spec_put(putb.0, NodeV::Extension { key: xk.take(l), child: putb.1 })
    }
}

/// Inserting `value` at nibble path `path` below the node stored at
/// `h`: the new store and the new subtree root, or nothing when a
/// referenced node is missing, undecodable, or structurally corrupt.
pub open spec fn spec_insert_at(
    m: Map<Seq<u8>, Seq<u8>>,
    h: Seq<u8>,
    path: Seq<u8>,
    value: Seq<u8>,
) -> Option<(Map<Seq<u8>, Seq<u8>>, Seq<u8>)>
    decreases path.len(),
{
    match spec_fetch(m, h) {
        None => None,
        Some(node) => match node {
            NodeV::Leaf { key, value: lv } => {
                let l = spec_common_prefix(key, path);
                if l < key.len() && key[l as int] >= 16 {
                    None
                } else {
                    Some(spec_insert_leaf(m, key, lv, path, value))
                }
            },
            NodeV::Extension { key, child } => {
                if key.len() == 0 {
                    None
                } else if key.len() <= path.len() && spec_common_prefix(key, path) == key.len() {
                    match spec_insert_at(m, child, path.skip(key.len() as int), value) {
                        None => None,
                        Some((m2, ch)) => Some(
                            spec_put(m2, NodeV::Extension { key: key, child: ch }),
                        ),
                    }
                } else if key[spec_common_prefix(key, path) as int] >= 16 {
                    None
                } else {
                    Some(spec_split_extension(m, key, child, path, value))
                }
            },
            NodeV::Branch { children, value: bv } => {
                if path.len() == 0 {
                    Some(spec_put(m, NodeV::Branch { children: children, value: Some(value) }))
                } else if path[0] < 16 {
                    match children[path[0] as int] {
                        Some(c) => match spec_insert_at(m, c, path.skip(1), value) {
                            None => None,
                            Some((m2, ch)) => Some(
                                spec_put(
                                    m2,
                                    NodeV::Branch {
                                        children: children.update(path[0] as int, Some(ch)),
                                        value: bv,
                                    },
                                ),
                            ),
                        },
                        None => {
                            let putl = spec_put(
                                m,
                                NodeV::Leaf { key: path.skip(1), value: value },
                            );
                            Some(
                                spec_put(
                                    putl.0,
                                    NodeV::Branch {
                                        children: children.update(path[0] as int, Some(putl.1)),
                                        value: bv,
                                    },
                                ),
                            )
                        },
                    }
                } else {
                    None
                }
            },
        },
    }
}

/// Inserting into the whole trie: an absent root becomes a single
/// leaf; otherwise the root subtree is rewritten.
pub open spec fn spec_trie_insert(
    root: Option<Seq<u8>>,
    m: Map<Seq<u8>, Seq<u8>>,
    key: Seq<u8>,
    value: Seq<u8>,
) -> Option<(Seq<u8>, Map<Seq<u8>, Seq<u8>>)> {
    match root {
        None => {
            let put1 = spec_put(m, NodeV::Leaf { key: spec_nibbles(key), value: value });
            Some((put1.1, put1.0))
        },
        Some(h) => match spec_insert_at(m, h, spec_nibbles(key), value) {
            None => None,
            Some((m2, nh)) => Some((nh, m2)),
        },
    }
}

// ---------------------------------------------------------------------
// The trie itself.
// ---------------------------------------------------------------------
/// Merkle Patricia Trie over hex nibbles, holding an optional root
/// digest and exclusively owning its node store.
pub struct MerklePatriciaTrie {
    root: Option<crate::primitives::Hash>,
    store: MemoryStore,
}

impl Default for MerklePatriciaTrie {
    /// A fresh empty trie over an in-memory store.
    fn default() -> (r: MerklePatriciaTrie)
        ensures
            r.root_view() is None,
            r.store_view() == Map::<Seq<u8>, Seq<u8>>::empty(),
    {
        MerklePatriciaTrie::with_memory()
    }
}

impl MerklePatriciaTrie {
    /// The current root digest, or absent for the empty trie.
    pub closed spec fn root_view(&self) -> Option<Seq<u8>> {
        match self.root {
            None => None,
            Some(h) => Some(h@),
        }
    }

    /// The store's mapping from node digests to encoded nodes.
    pub closed spec fn store_view(&self) -> Map<Seq<u8>, Seq<u8>> {
        self.store@
    }

    /// A fresh empty trie over an in-memory store.
    pub fn with_memory() -> (r: MerklePatriciaTrie)
        ensures
            r.root_view() is None,
            r.store_view() == Map::<Seq<u8>, Seq<u8>>::empty(),
    {
        MerklePatriciaTrie { root: None, store: MemoryStore::new() }
    }

    /// The current root digest; the zero digest when the trie is empty.
    pub fn root(&self) -> (r: crate::primitives::Hash)
        ensures
            match self.root_view() {
                None => r@ == spec_zero32(),
                Some(h) => r@ == h,
            },
    {
        match &self.root {
            None => crate::primitives::Hash::zero(),
            Some(h) => crate::primitives::Hash(h.0),
        }
    }

    /// Looks up the value stored under a byte key.
    pub fn get(&self, key: &[u8]) -> (r: Option<Vec<u8>>)
        ensures
            r is Some <==> spec_trie_get(self.root_view(), self.store_view(), key@) is Some,
            r is Some ==> Some(r->0@) == spec_trie_get(self.root_view(), self.store_view(), key@),
    {
        let root = match &self.root {
            None => {
                return None;
            },
            Some(h) => crate::primitives::Hash(h.0),
        };
        let nibbles = bytes_to_nibbles(key);
        get_at(&self.store, root, nibbles.as_slice())
    }

    /// Inserts a key/value pair, replacing any previous value. On
    /// success the new root commits to the updated set; on corruption
    /// the trie is unchanged.
    pub fn insert(&mut self, key: &[u8], value: Vec<u8>) -> (r: Result<(), TrieError>)
        requires
            2 * key@.len() < pow256(4),
            value@.len() < pow256(4),
        ensures
            match spec_trie_insert(
                old(self).root_view(),
                old(self).store_view(),
                key@,
                value@,
            ) {
                None => r is Err && final(self).root_view() == old(self).root_view()
                    && final(self).store_view() == old(self).store_view(),
                Some((nh, nm)) => r is Ok && final(self).root_view() == Some(nh)
                    && final(self).store_view() == nm,
            },
    {
        let nibbles = bytes_to_nibbles(key);
        match &self.root {
            None => {
                let leaf = Node::Leaf { key: nibbles, value };
                let h = self.store.put(&leaf);
                self.root = Some(h);
                Ok(())
            },
            Some(rh) => {
                let root = crate::primitives::Hash(rh.0);
                match insert_at(&mut self.store, root, nibbles.as_slice(), value) {
                    Ok(nh) => {
                        self.root = Some(nh);
                        Ok(())
                    },
                    Err(e) => Err(e),
                }
            },
        }
    }
}

/// Recursive lookup below the node stored at `h`.
fn get_at(store: &MemoryStore, h: crate::primitives::Hash, path: &[u8]) -> (r: Option<Vec<u8>>)
    ensures
        r is Some <==> spec_get_at(store@, h@, path@) is Some,
        r is Some ==> Some(r->0@) == spec_get_at(store@, h@, path@),
    decreases path@.len(),
{
    let node = match store.get(&h) {
        None => {
            return None;
        },
        Some(n) => n,
    };
    proof {
        crate::store::lemma_fetch_wf(store@, h@);
    }
    match node {
        Node::Branch { children, value } => {
            if path.len() == 0 {
                value
            } else {
                let nib = path[0];
                if nib < 16 {
                    match &children[nib as usize] {
                        Some(c) => {
                            let child = crate::primitives::Hash(c.0);
                            proof {
                                assert(node@->Branch_children[nib as int] == Some(child@));
                            }
                            get_at(store, child, vstd::slice::slice_subrange(path, 1, path.len()))
                        },
                        None => {
                            proof {
                                assert(node@->Branch_children[nib as int] is None);
                            }
                            None
                        },
                    }
                } else {
                    None
                }
            }
        },
        Node::Extension { key, child } => {
            let l = common_prefix_len(key.as_slice(), path);
            if key.len() > 0 && l == key.len() {
                proof {
                    lemma_common_prefix(key@, path@);
                }
                get_at(store, child, vstd::slice::slice_subrange(path, l, path.len()))
            } else {
                None
            }
        },
        Node::Leaf { key, value } => {
            if bytes_equal(key.as_slice(), path) {
                Some(value)
            } else {
                None
            }
        },
    }
}

/// Byte-wise equality of two slices.
fn bytes_equal(a: &[u8], b: &[u8]) -> (r: bool)
    ensures
        r == (a@ == b@),
{
    if a.len() != b.len() {
        proof {
            assert(a@.len() != b@.len());
        }
        return false;
    }
    let n = a.len();
    let mut i: usize = 0;
    while i < n
        invariant
            i <= n,
            n == a@.len(),
            n == b@.len(),
            forall|j: int| 0 <= j < i ==> a@[j] == b@[j],
        decreases n - i,
    {
        if a[i] != b[i] {
            return false;
        }
        i = i + 1;
    }
    proof {
        assert(a@ =~= b@);
    }
    true
}

/// Sixteen empty child slots.
pub(crate) fn empty_children() -> (r: Vec<Option<crate::primitives::Hash>>)
    ensures
        r@.len() == 16,
        forall|i: int| 0 <= i < 16 ==> r@[i] is None,
{
    let mut v: Vec<Option<crate::primitives::Hash>> = Vec::new();
    let mut i: usize = 0;
    while i < 16
        invariant
            i <= 16,
            v@.len() == i,
            forall|j: int| 0 <= j < i ==> v@[j] is None,
        decreases 16 - i,
    {
        v.push(None);
        i = i + 1;
    }
    v
}

/// The digest a node is stored under: BLAKE3 of its encoding.
pub fn node_hash(node: &Node) -> (r: crate::primitives::Hash)
    requires
        spec_wf_node(node@),
    ensures
        r@ == blake3_of(spec_encode_node(node@)),
{
    let enc = encode_node(node);
    crate::primitives::Hash(crate::hashing::hash_bytes(enc.as_slice()))
}

/// The view of a vector of child slots.
pub open spec fn spec_children_view(cs: Seq<Option<crate::primitives::Hash>>) -> Seq<
    Option<Seq<u8>>,
> {
    cs.map_values(
        |o: Option<crate::primitives::Hash>|
            match o {
                Some(h) => Some(h@),
                None => None,
            },
    )
}

/// Recursive insertion below the node stored at `h`. On error the
/// store is unchanged.
#[verifier::loop_isolation(false)]
fn insert_at(
    store: &mut MemoryStore,
    h: crate::primitives::Hash,
    path: &[u8],
    value: Vec<u8>,
) -> (r: Result<crate::primitives::Hash, TrieError>)
    requires
        spec_is_nibbles(path@),
        path@.len() < pow256(4),
        value@.len() < pow256(4),
    ensures
        match spec_insert_at(old(store)@, h@, path@, value@) {
            None => r is Err && final(store)@ == old(store)@,
            Some((m2, nh)) => r is Ok && (r->Ok_0)@ == nh && final(store)@ == m2,
        },
    decreases path@.len(),
{
    let node = match store.get(&h) {
        None => {
            return Err(TrieError::MissingNode);
        },
        Some(n) => n,
    };
    proof {
        crate::store::lemma_fetch_wf(store@, h@);
    }
    match node {
        Node::Leaf { key, value: old_val } => {
            let l = common_prefix_len(key.as_slice(), path);
            proof {
                lemma_common_prefix(key@, path@);
            }
            if l == key.len() && l == path.len() {
                let new_leaf = Node::Leaf { key, value };
                Ok(store.put(&new_leaf))
            } else if l < key.len() && key[l] >= 16 {
                Err(TrieError::MalformedEncoding)
            } else {
                let mut children = empty_children();
                let mut branch_value: Option<Vec<u8>> = None;
                let ghost m0 = store@;
                let ghost step: (Map<Seq<u8>, Seq<u8>>, Seq<Option<Seq<u8>>>, Option<Seq<u8>>);
                if l == key.len() {
                    let nib = path[l];
                    let new_leaf = Node::Leaf {
                        key: vstd::slice::slice_to_vec(
                            vstd::slice::slice_subrange(path, l + 1, path.len()),
                        ),
                        value,
                    };
                    let nh = store.put(&new_leaf);
                    children[nib as usize] = Some(nh);
                    branch_value = Some(old_val);
                    proof {
                        step = (
                            store@,
                            spec_empty_children().update(path@[l as int] as int, Some(nh@)),
                            Some(old_val@),
                        );
                        assert(spec_children_view(children@) =~= step.1);
                    }
                } else if l == path.len() {
                    let nib = key[l];
                    let old_leaf = Node::Leaf {
                        key: vstd::slice::slice_to_vec(
                            vstd::slice::slice_subrange(key.as_slice(), l + 1, key.len()),
                        ),
                        value: old_val,
                    };
                    let oh = store.put(&old_leaf);
                    children[nib as usize] = Some(oh);
                    branch_value = Some(value);
                    proof {
                        step = (
                            store@,
                            spec_empty_children().update(key@[l as int] as int, Some(oh@)),
                            Some(value@),
                        );
                        assert(spec_children_view(children@) =~= step.1);
                    }
                } else {
                    let a_nib = path[l];
                    let b_nib = key[l];
                    let a_leaf = Node::Leaf {
                        key: vstd::slice::slice_to_vec(
                            vstd::slice::slice_subrange(path, l + 1, path.len()),
                        ),
                        value,
                    };
                    let a_h = store.put(&a_leaf);
                    let b_leaf = Node::Leaf {
                        key: vstd::slice::slice_to_vec(
                            vstd::slice::slice_subrange(key.as_slice(), l + 1, key.len()),
                        ),
                        value: old_val,
                    };
                    let b_h = store.put(&b_leaf);
                    children[a_nib as usize] = Some(a_h);
                    children[b_nib as usize] = Some(b_h);
                    proof {
                        step = (
                            store@,
                            spec_empty_children().update(path@[l as int] as int, Some(a_h@)).update(
                                key@[l as int] as int,
                                Some(b_h@),
                            ),
                            None,
                        );
                        assert(spec_children_view(children@) =~= step.1);
                    }
                }
                let branch = Node::Branch { children, value: branch_value };
                let branch_h = store.put(&branch);
                proof {
                    assert(branch@ == (NodeV::Branch { children: step.1, value: step.2 }));
                }
                let result = if l == 0 {
                    branch_h
                } else {
                    let ext = Node::Extension {
                        key: vstd::slice::slice_to_vec(vstd::slice::slice_subrange(path, 0, l)),
                        child: branch_h,
                    };
                    store.put(&ext)
                };
                proof {
                    assert(spec_insert_at(m0, h@, path@, value@) == Some(
                        spec_insert_leaf(m0, key@, old_val@, path@, value@),
                    ));
                }
                Ok(result)
            }
        },
        Node::Extension { key, child } => {
            if key.len() == 0 {
                return Err(TrieError::MalformedEncoding);
            }
            let l = common_prefix_len(key.as_slice(), path);
            proof {
                lemma_common_prefix(key@, path@);
            }
            if l == key.len() {
                let ghost m0 = store@;
                match insert_at(
                    store,
                    child,
                    vstd::slice::slice_subrange(path, l, path.len()),
                    value,
                ) {
                    Err(e) => Err(e),
                    Ok(new_child) => {
                        let new_ext = Node::Extension { key, child: new_child };
                        Ok(store.put(&new_ext))
                    },
                }
            } else if key[l] >= 16 {
                Err(TrieError::MalformedEncoding)
            } else {
                let ghost m0 = store@;
                let old_nib = key[l];
                let mut children = empty_children();
                let (m1_side, old_slot): (Ghost<Map<Seq<u8>, Seq<u8>>>, crate::primitives::Hash) =
                    if l + 1 == key.len() {
                    (Ghost(store@), child)
                } else {
                    let old_ext = Node::Extension {
                        key: vstd::slice::slice_to_vec(
                            vstd::slice::slice_subrange(key.as_slice(), l + 1, key.len()),
                        ),
                        child,
                    };
                    let oh = store.put(&old_ext);
                    (Ghost(store@), oh)
                };
                children[old_nib as usize] = Some(old_slot);
                let ghost ec = spec_empty_children().update(key@[l as int] as int, Some(old_slot@));
                proof {
                    assert(spec_children_view(children@) =~= ec);
                }
                let branch_h = if l == path.len() {
                    let branch = Node::Branch { children, value: Some(value) };
                    store.put(&branch)
                } else {
                    let new_nib = path[l];
                    let new_leaf = Node::Leaf {
                        key: vstd::slice::slice_to_vec(
                            vstd::slice::slice_subrange(path, l + 1, path.len()),
                        ),
                        value,
                    };
                    let nh = store.put(&new_leaf);
                    children[new_nib as usize] = Some(nh);
                    proof {
                        assert(spec_children_view(children@) =~= ec.update(
                            path@[l as int] as int,
                            Some(nh@),
                        ));
                    }
                    let branch = Node::Branch { children, value: None };
                    store.put(&branch)
                };
                let result = if l == 0 {
                    branch_h
                } else {
                    let ext = Node::Extension {
                        key: vstd::slice::slice_to_vec(vstd::slice::slice_subrange(path, 0, l)),
                        child: branch_h,
                    };
                    store.put(&ext)
                };
                proof {
                    assert(key@.take(l as int) =~= path@.take(l as int));
                    assert(spec_insert_at(m0, h@, path@, value@) == Some(
                        spec_split_extension(m0, key@, child@, path@, value@),
                    ));
                }
                Ok(result)
            }
        },
        Node::Branch { mut children, value: bval } => {
            if path.len() == 0 {
                let branch = Node::Branch { children, value: Some(value) };
                Ok(store.put(&branch))
            } else {
                let nib = path[0];
                let ghost m0 = store@;
                let ghost kids0 = spec_children_view(children@);
                let child_h = match &children[nib as usize] {
                    Some(c) => {
                        let c_copy = crate::primitives::Hash(c.0);
                        proof {
                            assert(kids0[nib as int] == Some(c_copy@));
                        }
                        match insert_at(
                            store,
                            c_copy,
                            vstd::slice::slice_subrange(path, 1, path.len()),
                            value,
                        ) {
                            Err(e) => {
                                return Err(e);
                            },
                            Ok(nh) => nh,
                        }
                    },
                    None => {
                        proof {
                            assert(kids0[nib as int] is None);
                        }
                        let leaf = Node::Leaf {
                            key: vstd::slice::slice_to_vec(
                                vstd::slice::slice_subrange(path, 1, path.len()),
                            ),
                            value,
                        };
                        store.put(&leaf)
                    },
                };
                children[nib as usize] = Some(child_h);
                proof {
                    assert(spec_children_view(children@) =~= kids0.update(
                        nib as int,
                        Some(child_h@),
                    ));
                }
                let branch = Node::Branch { children, value: bval };
                Ok(store.put(&branch))
            }
        },
    }
}


// ---------------------------------------------------------------------
// Deletion.
// ---------------------------------------------------------------------
/// How many child slots are occupied.
pub open spec fn spec_count_somes(cs: Seq<Option<Seq<u8>>>) -> nat
    decreases cs.len(),
{
    if cs.len() == 0 {
        0
    } else {
        spec_count_somes(cs.drop_last()) + (if cs.last() is Some {
            1nat
        } else {
            0nat
        })
    }
}

/// The index of the last occupied child slot, or -1 when none is.
pub open spec fn spec_last_some(cs: Seq<Option<Seq<u8>>>) -> int
    decreases cs.len(),
{
    if cs.len() == 0 {
        -1
    } else if cs.last() is Some {
        cs.len() - 1
    } else {
        spec_last_some(cs.drop_last())
    }
}

/// Compacting a branch after a removal: more than one occupant keeps
/// the branch; a lone value becomes an empty-key leaf; a lone child is
/// collapsed by prepending its slot index; no occupant vanishes.
pub open spec fn spec_compact(
    m: Map<Seq<u8>, Seq<u8>>,
    children: Seq<Option<Seq<u8>>>,
    value: Option<Seq<u8>>,
) -> Option<(bool, Option<Seq<u8>>, Map<Seq<u8>, Seq<u8>>)> {
    let c = spec_count_somes(children) + (if value is Some {
        1nat
    } else {
        0nat
    });
    if c > 1 {
        let p = spec_put(m, NodeV::Branch { children: children, value: value });
        Some((true, Some(p.1), p.0))
    } else if c == 0 {
        Some((true, None, m))
    } else if value is Some {
        let p = spec_put(m, NodeV::Leaf { key: Seq::empty(), value: value->0 });
        Some((true, Some(p.1), p.0))
    } else {
        let i = spec_last_some(children);
        let ch = children[i]->0;
        match spec_fetch(m, ch) {
            Some(NodeV::Leaf { key, value: lv }) => {
                if key.len() + 1 < pow256(4) {
                    let p = spec_put(m, NodeV::Leaf { key: seq![i as u8] + key, value: lv });
                    Some((true, Some(p.1), p.0))
                } else {
                    None
                }
            },
            Some(NodeV::Extension { key, child: gc }) => {
                if key.len() + 1 < pow256(4) {
                    let p = spec_put(m, NodeV::Extension { key: seq![i as u8] + key, child: gc });
                    Some((true, Some(p.1), p.0))
                } else {
                    None
                }
            },
            _ => {
                let p = spec_put(m, NodeV::Extension { key: seq![i as u8], child: ch });
                Some((true, Some(p.1), p.0))
            },
        }
    }
}

/// Deleting nibble path `path` below the node stored at `h`: whether
/// anything changed, the new subtree root if one remains, and the new
/// store. Nothing when a referenced node is missing, undecodable or
/// structurally corrupt.
pub open spec fn spec_delete_at(m: Map<Seq<u8>, Seq<u8>>, h: Seq<u8>, path: Seq<u8>) -> Option<
    (bool, Option<Seq<u8>>, Map<Seq<u8>, Seq<u8>>),
>
    decreases path.len(),
{
    match spec_fetch(m, h) {
        None => None,
        Some(node) => match node {
            NodeV::Leaf { key, value } => {
                if key == path {
                    Some((true, None, m))
                } else {
                    Some((false, Some(h), m))
                }
            },
            NodeV::Extension { key, child } => {
                if key.len() == 0 {
                    None
                } else if !(key.len() <= path.len() && spec_common_prefix(key, path)
                    == key.len()) {
                    Some((false, Some(h), m))
                } else {
                    match spec_delete_at(m, child, path.skip(key.len() as int)) {
                        None => None,
                        Some((chg, newc, m2)) => {
                            if !chg {
                                Some((false, Some(h), m2))
                            } else {
                                match newc {
                                    None => Some((true, None, m2)),
                                    Some(ch) => match spec_fetch(m2, ch) {
                                        Some(NodeV::Extension { key: ck, child: gc }) => {
                                            if key.len() + ck.len() < pow256(4) {
                                                let p = spec_put(
                                                    m2,
                                                    NodeV::Extension { key: key + ck, child: gc },
                                                );
                                                Some((true, Some(p.1), p.0))
                                            } else {
                                                None
                                            }
                                        },
                                        _ => {
                                            let p = spec_put(
                                                m2,
                                                NodeV::Extension { key: key, child: ch },
                                            );
                                            Some((true, Some(p.1), p.0))
                                        },
                                    },
                                }
                            }
                        },
                    }
                }
            },
            NodeV::Branch { children, value } => {
                if path.len() == 0 {
                    if value is None {
                        Some((false, Some(h), m))
                    } else {
                        spec_compact(m, children, None)
                    }
                } else if path[0] < 16 {
                    match children[path[0] as int] {
                        None => Some((false, Some(h), m)),
                        Some(c) => match spec_delete_at(m, c, path.skip(1)) {
                            None => None,
                            Some((chg, newc, m2)) => {
                                if !chg {
                                    Some((false, Some(h), m2))
                                } else {
                                    spec_compact(
                                        m2,
                                        children.update(path[0] as int, newc),
                                        value,
                                    )
                                }
                            },
                        },
                    }
                } else {
                    Some((false, Some(h), m))
                }
            },
        },
    }
}

/// Deleting from the whole trie: the empty trie is unchanged.
pub open spec fn spec_trie_delete(
    root: Option<Seq<u8>>,
    m: Map<Seq<u8>, Seq<u8>>,
    key: Seq<u8>,
) -> Option<(bool, Option<Seq<u8>>, Map<Seq<u8>, Seq<u8>>)> {
    match root {
        None => Some((false, None, m)),
        Some(h) => spec_delete_at(m, h, spec_nibbles(key)),
    }
}

/// The view of an optional hash.
pub open spec fn spec_opt_hash_view(o: Option<crate::primitives::Hash>) -> Option<Seq<u8>> {
    match o {
        None => None,
        Some(h) => Some(h@),
    }
}

/// With at least one occupant, the last occupied slot is a real,
/// occupied index.
proof fn lemma_last_some(cs: Seq<Option<Seq<u8>>>)
    requires
        spec_count_somes(cs) >= 1,
    ensures
        0 <= spec_last_some(cs) < cs.len(),
        cs[spec_last_some(cs)] is Some,
    decreases cs.len(),
{
    if cs.last() is Some {
    } else {
        lemma_last_some(cs.drop_last());
    }
}

/// Compacts a branch after a removal, writing the replacement node.
#[verifier::loop_isolation(false)]
fn compact_branch(
    store: &mut MemoryStore,
    children: Vec<Option<crate::primitives::Hash>>,
    value: Option<Vec<u8>>,
) -> (r: Result<(bool, Option<crate::primitives::Hash>), TrieError>)
    requires
        children@.len() == 16,
        match value {
            Some(v) => v@.len() < pow256(4),
            None => true,
        },
    ensures
        match spec_compact(
            old(store)@,
            spec_children_view(children@),
            match value {
                Some(v) => Some(v@),
                None => None,
            },
        ) {
            None => r is Err,
            Some((chg, nr, m2)) => r is Ok && (r->Ok_0).0 == chg && spec_opt_hash_view(
                (r->Ok_0).1,
            ) == nr && final(store)@ == m2,
        },
{
    let ghost cviews = spec_children_view(children@);
    let mut count: usize = if value.is_some() {
        1
    } else {
        0
    };
    let mut child_count: usize = 0;
    let mut last_idx: usize = 0;
    let mut i: usize = 0;
    proof {
        assert(cviews.take(0) =~= Seq::<Option<Seq<u8>>>::empty());
    }
    while i < 16
        invariant
            i <= 16,
            child_count <= i,
            count <= i + 1,
            child_count == spec_count_somes(cviews.take(i as int)),
            count == child_count + (if value is Some {
                1int
            } else {
                0int
            }),
            child_count > 0 ==> last_idx < i && last_idx == spec_last_some(cviews.take(i as int)),
        decreases 16 - i,
    {
        proof {
            assert(cviews.take(i + 1).drop_last() =~= cviews.take(i as int));
            assert(cviews.take(i + 1).last() == cviews[i as int]);
        }
        if children[i].is_some() {
            proof {
                assert(cviews[i as int] is Some);
            }
            child_count = child_count + 1;
            count = count + 1;
            last_idx = i;
        }
        i = i + 1;
    }
    proof {
        assert(cviews.take(16) =~= cviews);
    }
    if count > 1 {
        let new_b = Node::Branch { children, value };
        Ok((true, Some(store.put(&new_b))))
    } else if count == 0 {
        Ok((true, None))
    } else if let Some(v) = value {
        let leaf = Node::Leaf { key: Vec::new(), value: v };
        Ok((true, Some(store.put(&leaf))))
    } else {
        proof {
            lemma_last_some(cviews);
            assert(last_idx == spec_last_some(cviews));
            assert(cviews[last_idx as int] is Some);
        }
        let ch = match &children[last_idx] {
            Some(c) => crate::primitives::Hash(c.0),
            None => {
                proof {
                    assert(false);
                }
                return Err(TrieError::MissingNode);
            },
        };
        proof {
            assert(cviews[last_idx as int] == Some(ch@));
        }
        match store.get(&ch) {
            Some(Node::Leaf { key, value: lv }) => {
                proof {
                    crate::store::lemma_fetch_wf(store@, ch@);
                    crate::codec::lemma_pow256_16();
                }
                if key.len() > 0xFFFF_FFFEusize {
                    return Err(TrieError::MalformedEncoding);
                }
                let mut new_key: Vec<u8> = Vec::new();
                new_key.push(last_idx as u8);
                crate::codec::push_bytes(&mut new_key, key.as_slice());
                proof {
                    assert(new_key@ =~= seq![last_idx as u8] + key@);
                }
                let leaf = Node::Leaf { key: new_key, value: lv };
                Ok((true, Some(store.put(&leaf))))
            },
            Some(Node::Extension { key, child }) => {
                proof {
                    crate::store::lemma_fetch_wf(store@, ch@);
                    crate::codec::lemma_pow256_16();
                }
                if key.len() > 0xFFFF_FFFEusize {
                    return Err(TrieError::MalformedEncoding);
                }
                let mut new_key: Vec<u8> = Vec::new();
                new_key.push(last_idx as u8);
                crate::codec::push_bytes(&mut new_key, key.as_slice());
                proof {
                    assert(new_key@ =~= seq![last_idx as u8] + key@);
                }
                let ext = Node::Extension { key: new_key, child };
                Ok((true, Some(store.put(&ext))))
            },
            _ => {
                let mut new_key: Vec<u8> = Vec::new();
                new_key.push(last_idx as u8);
                proof {
                    crate::codec::lemma_pow256_16();
                    assert(new_key@ =~= seq![last_idx as u8]);
                }
                let ext = Node::Extension { key: new_key, child: ch };
                Ok((true, Some(store.put(&ext))))
            },
        }
    }
}

/// Recursive deletion below the node stored at `h`. An error leaves
/// the root untouched; copy-on-write keeps every old node readable.
#[verifier::rlimit(60)]
fn delete_at(
    store: &mut MemoryStore,
    h: crate::primitives::Hash,
    path: &[u8],
) -> (r: Result<(bool, Option<crate::primitives::Hash>), TrieError>)
    requires
        spec_is_nibbles(path@),
    ensures
        match spec_delete_at(old(store)@, h@, path@) {
            None => r is Err,
            Some((chg, nr, m2)) => r is Ok && (r->Ok_0).0 == chg && spec_opt_hash_view(
                (r->Ok_0).1,
            ) == nr && final(store)@ == m2,
        },
    decreases path@.len(),
{
    let node = match store.get(&h) {
        None => {
            return Err(TrieError::MissingNode);
        },
        Some(n) => n,
    };
    proof {
        crate::store::lemma_fetch_wf(store@, h@);
    }
    match node {
        Node::Leaf { key, value } => {
            if bytes_equal(key.as_slice(), path) {
                Ok((true, None))
            } else {
                Ok((false, Some(h)))
            }
        },
        Node::Extension { key, child } => {
            if key.len() == 0 {
                return Err(TrieError::MalformedEncoding);
            }
            let l = common_prefix_len(key.as_slice(), path);
            proof {
                lemma_common_prefix(key@, path@);
            }
            if l != key.len() {
                return Ok((false, Some(h)));
            }
            let ghost m0 = store@;
            match delete_at(store, child, vstd::slice::slice_subrange(path, l, path.len())) {
                Err(e) => Err(e),
                Ok((false, _)) => Ok((false, Some(h))),
                Ok((true, None)) => Ok((true, None)),
                Ok((true, Some(ch))) => {
                    match store.get(&ch) {
                        Some(Node::Extension { key: ck, child: gc }) => {
                            proof {
                                crate::store::lemma_fetch_wf(store@, ch@);
                                crate::codec::lemma_pow256_16();
                            }
                            if ck.len() > 0xFFFF_FFFFusize - key.len() {
                                return Err(TrieError::MalformedEncoding);
                            }
                            let mut merged: Vec<u8> = Vec::new();
                            crate::codec::push_bytes(&mut merged, key.as_slice());
                            crate::codec::push_bytes(&mut merged, ck.as_slice());
                            proof {
                                assert(merged@ =~= key@ + ck@);
                            }
                            let ext = Node::Extension { key: merged, child: gc };
                            Ok((true, Some(store.put(&ext))))
                        },
                        _ => {
                            let ext = Node::Extension { key, child: ch };
                            Ok((true, Some(store.put(&ext))))
                        },
                    }
                },
            }
        },
        Node::Branch { mut children, value } => {
            if path.len() == 0 {
                if value.is_none() {
                    return Ok((false, Some(h)));
                }
                compact_branch(store, children, None)
            } else {
                let nib = path[0];
                let ghost kids0 = spec_children_view(children@);
                let c = match &children[nib as usize] {
                    None => {
                        proof {
                            assert(kids0[nib as int] is None);
                        }
                        return Ok((false, Some(h)));
                    },
                    Some(c) => crate::primitives::Hash(c.0),
                };
                proof {
                    assert(kids0[nib as int] == Some(c@));
                }
                let ghost m0 = store@;
                match delete_at(store, c, vstd::slice::slice_subrange(path, 1, path.len())) {
                    Err(e) => Err(e),
                    Ok((false, _)) => Ok((false, Some(h))),
                    Ok((true, newc)) => {
                        children[nib as usize] = newc;
                        proof {
                            assert(spec_children_view(children@) =~= kids0.update(
                                nib as int,
                                spec_opt_hash_view(newc),
                            ));
                        }
                        compact_branch(store, children, value)
                    },
                }
            }
        },
    }
}

// ---------------------------------------------------------------------
// Path proofs.
// ---------------------------------------------------------------------
/// The proof entries collected along the lookup path from the node at
/// `h`: each visited node's digest and stored bytes, root first.
pub open spec fn spec_proof_at(m: Map<Seq<u8>, Seq<u8>>, h: Seq<u8>, path: Seq<u8>) -> Option<
    Seq<(Seq<u8>, Seq<u8>)>,
>
    decreases path.len(),
{
    if !m.contains_key(h) {
        None
    } else {
        let entry = (blake3_of(m[h]), m[h]);
        match crate::node::spec_decode_node(m[h]) {
            None => None,
            Some(node) => match node {
                NodeV::Leaf { .. } => Some(seq![entry]),
                NodeV::Branch { children, .. } => {
                    if path.len() == 0 || path[0] >= 16 {
                        Some(seq![entry])
                    } else {
                        match children[path[0] as int] {
                            None => Some(seq![entry]),
                            Some(c) => match spec_proof_at(m, c, path.skip(1)) {
                                None => None,
                                Some(rest) => Some(seq![entry] + rest),
                            },
                        }
                    }
                },
                NodeV::Extension { key, child } => {
                    if key.len() > 0 && key.len() <= path.len() && spec_common_prefix(key, path)
                        == key.len() {
                        match spec_proof_at(m, child, path.skip(key.len() as int)) {
                            None => None,
                            Some(rest) => Some(seq![entry] + rest),
                        }
                    } else {
                        Some(seq![entry])
                    }
                },
            },
        }
    }
}

/// The proof for a byte key in a trie with the given root and store.
pub open spec fn spec_trie_proof(
    root: Option<Seq<u8>>,
    m: Map<Seq<u8>, Seq<u8>>,
    key: Seq<u8>,
) -> Option<Seq<(Seq<u8>, Seq<u8>)>> {
    match root {
        None => None,
        Some(h) => spec_proof_at(m, h, spec_nibbles(key)),
    }
}

/// The view of a proof: each entry's digest and encoded bytes.
pub open spec fn spec_proof_view(ps: Seq<ProofNode>) -> Seq<(Seq<u8>, Seq<u8>)> {
    ps.map_values(|p: ProofNode| (p.hash@, p.encoded@))
}

/// Every entry of a proof hashes to its own digest field.
pub proof fn lemma_proof_entries_hash(m: Map<Seq<u8>, Seq<u8>>, h: Seq<u8>, path: Seq<u8>)
    requires
        spec_proof_at(m, h, path) is Some,
    ensures
        forall|i: int|
            0 <= i < (spec_proof_at(m, h, path)->0).len() ==> (
            #[trigger] (spec_proof_at(m, h, path)->0)[i]).0 == blake3_of(
                (spec_proof_at(m, h, path)->0)[i].1,
            ),
        (spec_proof_at(m, h, path)->0).len() > 0,
        (spec_proof_at(m, h, path)->0)[0] == (blake3_of(m[h]), m[h]),
    decreases path.len(),
{
    let entry = (blake3_of(m[h]), m[h]);
    match crate::node::spec_decode_node(m[h]) {
        None => {},
        Some(node) => match node {
            NodeV::Leaf { .. } => {},
            NodeV::Branch { children, .. } => {
                if path.len() == 0 || path[0] >= 16 {
                } else {
                    match children[path[0] as int] {
                        None => {},
                        Some(c) => {
                            if spec_proof_at(m, c, path.skip(1)) is Some {
                                lemma_proof_entries_hash(m, c, path.skip(1));
                            }
                        },
                    }
                }
            },
            NodeV::Extension { key, child } => {
                if key.len() > 0 && key.len() <= path.len() && spec_common_prefix(key, path)
                    == key.len() {
                    if spec_proof_at(m, child, path.skip(key.len() as int)) is Some {
                        lemma_proof_entries_hash(m, child, path.skip(key.len() as int));
                    }
                }
            },
        },
    }
}

/// Recursive proof collection below the node stored at `h`.
fn proof_at(store: &MemoryStore, h: crate::primitives::Hash, path: &[u8]) -> (r: Option<
    Vec<ProofNode>,
>)
    requires
        spec_is_nibbles(path@),
    ensures
        r is Some <==> spec_proof_at(store@, h@, path@) is Some,
        r is Some ==> Some(spec_proof_view(r->0@)) == spec_proof_at(store@, h@, path@),
    decreases path@.len(),
{
    let raw = match store.get_bytes(&h) {
        None => {
            return None;
        },
        Some(bytes) => bytes,
    };
    let node = match crate::node::decode_node(raw.as_slice()) {
        None => {
            return None;
        },
        Some(n) => n,
    };
    proof {
        crate::node::lemma_decode_wf(raw@);
        assert(Some(node@) == crate::node::spec_decode_node(store@[h@]));
        assert(spec_wf_node(node@));
    }
    let enc = crate::store::copy_bytes(raw);
    let entry = ProofNode {
        hash: crate::primitives::Hash(crate::hashing::hash_bytes(enc.as_slice())),
        encoded: enc,
    };
    let rest: Option<Vec<ProofNode>> = match &node {
        Node::Leaf { .. } => Some(Vec::new()),
        Node::Branch { children, .. } => {
            if path.len() == 0 {
                Some(Vec::new())
            } else {
                let nib = path[0];
                match &children[nib as usize] {
                    None => {
                        proof {
                            assert(node@->Branch_children[nib as int] is None);
                        }
                        Some(Vec::new())
                    },
                    Some(c) => {
                        let c_copy = crate::primitives::Hash(c.0);
                        proof {
                            assert(node@->Branch_children[nib as int] == Some(c_copy@));
                        }
                        match proof_at(
                            store,
                            c_copy,
                            vstd::slice::slice_subrange(path, 1, path.len()),
                        ) {
                            None => {
                                return None;
                            },
                            Some(v) => Some(v),
                        }
                    },
                }
            }
        },
        Node::Extension { key, child } => {
            let l = common_prefix_len(key.as_slice(), path);
            proof {
                lemma_common_prefix(key@, path@);
            }
            if key.len() > 0 && l == key.len() {
                let c_copy = crate::primitives::Hash(child.0);
                match proof_at(store, c_copy, vstd::slice::slice_subrange(path, l, path.len())) {
                    None => {
                        return None;
                    },
                    Some(v) => Some(v),
                }
            } else {
                Some(Vec::new())
            }
        },
    };
    match rest {
        None => None,
        Some(mut v) => {
            let ghost rest0 = v@;
            v.insert(0, entry);
            proof {
                assert(v@ =~= seq![entry].add(rest0));
                assert(spec_proof_view(v@) =~= seq![(entry.hash@, entry.encoded@)] + spec_proof_view(
                    rest0,
                ));
            }
            Some(v)
        },
    }
}

impl MerklePatriciaTrie {
    /// Deletes a byte key; returns whether anything changed. On
    /// corruption the trie is unchanged.
    pub fn delete(&mut self, key: &[u8]) -> (r: Result<bool, TrieError>)
        ensures
            match spec_trie_delete(old(self).root_view(), old(self).store_view(), key@) {
                None => r is Err && final(self).root_view() == old(self).root_view(),
                Some((chg, nr, m2)) => r == Ok::<bool, TrieError>(chg)
                    && final(self).store_view() == m2 && final(self).root_view() == (if chg {
                    nr
                } else {
                    old(self).root_view()
                }),
            },
    {
        let root = match &self.root {
            None => {
                return Ok(false);
            },
            Some(h) => crate::primitives::Hash(h.0),
        };
        let nibbles = bytes_to_nibbles(key);
        match delete_at(&mut self.store, root, nibbles.as_slice()) {
            Err(e) => Err(e),
            Ok((changed, new_root)) => {
                if changed {
                    self.root = new_root;
                }
                Ok(changed)
            },
        }
    }

    /// The nodes along the lookup path for a byte key, root first:
    /// each entry is a node's digest and its encoded bytes. Absent for
    /// the empty trie or when the path runs into a missing node.
    pub fn get_proof(&self, key: &[u8]) -> (r: Option<Vec<ProofNode>>)
        ensures
            r is Some <==> spec_trie_proof(self.root_view(), self.store_view(), key@) is Some,
            r is Some ==> Some(spec_proof_view(r->0@)) == spec_trie_proof(
                self.root_view(),
                self.store_view(),
                key@,
            ),
    {
        let root = match &self.root {
            None => {
                return None;
            },
            Some(h) => crate::primitives::Hash(h.0),
        };
        let nibbles = bytes_to_nibbles(key);
        proof_at(&self.store, root, nibbles.as_slice())
    }
}


} // verus!
