//! Trie node shapes and their canonical byte encoding. A node is
//! identified by the BLAKE3 digest of this encoding, so the encoding
//! is the commitment: decode is proved to invert encode bit-exactly.

use vstd::prelude::*;
use crate::codec::{
    pow256, spec_le_bytes, spec_le_val, lemma_le_bytes_len, lemma_le_roundtrip, lemma_le_val_bound,
    lemma_pow256_16, lemma_pow256_le, push_le, push_bytes, read_le,
};
use crate::hashing::bytes32_of_slice;

verus! {

/// A trie node: hexary branch, shared-prefix extension, or terminal
/// leaf. Child references are 32-byte content hashes, never pointers.
pub enum Node {
    /// Hexary fan-out indexed by the next nibble; may also hold the
    /// value of the key ending here.
    Branch { children: Vec<Option<crate::primitives::Hash>>, value: Option<Vec<u8>> },
    /// A run of nibbles shared by every key below, pointing at one child.
    Extension { key: Vec<u8>, child: crate::primitives::Hash },
    /// Terminal node holding the remaining nibble path and the value.
    Leaf { key: Vec<u8>, value: Vec<u8> },
}

/// Mathematical image of a node, over sequences.
pub enum NodeV {
    Branch { children: Seq<Option<Seq<u8>>>, value: Option<Seq<u8>> },
    Extension { key: Seq<u8>, child: Seq<u8> },
    Leaf { key: Seq<u8>, value: Seq<u8> },
}

impl View for Node {
    type V = NodeV;

    open spec fn view(&self) -> NodeV {
        match self {
            Node::Branch { children, value } => NodeV::Branch {
                children: children@.map_values(
                    |o: Option<crate::primitives::Hash>|
                        match o {
                            Some(h) => Some(h@),
                            None => None,
                        },
                ),
                value: match value {
                    Some(v) => Some(v@),
                    None => None,
                },
            },
            Node::Extension { key, child } => NodeV::Extension { key: key@, child: child@ },
            Node::Leaf { key, value } => NodeV::Leaf { key: key@, value: value@ },
        }
    }
}

/// Structural well-formedness of a node image: a branch has exactly 16
/// slots of 32-byte hashes, and every variable-length field fits its
/// 4-byte length prefix.
pub open spec fn spec_wf_node(n: NodeV) -> bool {
    match n {
        NodeV::Branch { children, value } => {
            &&& children.len() == 16
            &&& forall|i: int|
                0 <= i < 16 ==> (#[trigger] children[i]) is Some ==> (children[i]->0).len() == 32
            &&& value is Some ==> (value->0).len() < pow256(4)
        },
        NodeV::Extension { key, child } => child.len() == 32 && key.len() < pow256(4),
        NodeV::Leaf { key, value } => key.len() < pow256(4) && value.len() < pow256(4),
    }
}

/// Encoding of one optional child hash: a presence byte, then the 32
/// raw bytes if present.
pub open spec fn spec_enc_opt_hash(o: Option<Seq<u8>>) -> Seq<u8> {
    match o {
        None => seq![0u8],
        Some(h) => seq![1u8] + h,
    }
}

/// Encoding of a branch's child slots, in slot order.
pub open spec fn spec_enc_children(cs: Seq<Option<Seq<u8>>>) -> Seq<u8>
    decreases cs.len(),
{
    if cs.len() == 0 {
        Seq::empty()
    } else {
        spec_enc_opt_hash(cs.first()) + spec_enc_children(cs.drop_first())
    }
}

/// Encoding of a length-prefixed byte string: 4-byte little-endian
/// length, then the raw bytes.
pub open spec fn spec_enc_bytes(v: Seq<u8>) -> Seq<u8> {
    spec_le_bytes(v.len(), 4) + v
}

/// Encoding of an optional byte string: a presence byte, then the
/// length-prefixed bytes if present.
pub open spec fn spec_enc_opt_bytes(o: Option<Seq<u8>>) -> Seq<u8> {
    match o {
        None => seq![0u8],
        Some(v) => seq![1u8] + spec_enc_bytes(v),
    }
}

/// The canonical encoding of a node: a one-byte discriminant, then the
/// variant's fields in declaration order.
pub open spec fn spec_encode_node(n: NodeV) -> Seq<u8> {
    match n {
        NodeV::Branch { children, value } => seq![0u8] + spec_enc_children(children)
            + spec_enc_opt_bytes(value),
        NodeV::Extension { key, child } => seq![1u8] + spec_enc_bytes(key) + child,
        NodeV::Leaf { key, value } => seq![2u8] + spec_enc_bytes(key) + spec_enc_bytes(value),
    }
}

// ---------------------------------------------------------------------
// Decoding, as a positional parser over the byte sequence.
// ---------------------------------------------------------------------
/// Parses one optional child hash at `pos`: the parsed slot and the
/// position after it.
pub open spec fn spec_dec_opt_hash(b: Seq<u8>, pos: int) -> Option<(Option<Seq<u8>>, int)> {
    if 0 <= pos < b.len() {
        if b[pos] == 0 {
            Some((None, pos + 1))
        } else if b[pos] == 1 && pos + 33 <= b.len() {
            Some((Some(b.subrange(pos + 1, pos + 33)), pos + 33))
        } else {
            None
        }
    } else {
        None
    }
}

/// Parses `k` child slots starting at `pos`.
pub open spec fn spec_dec_children(b: Seq<u8>, pos: int, k: nat) -> Option<
    (Seq<Option<Seq<u8>>>, int),
>
    decreases k,
{
    if k == 0 {
        Some((Seq::empty(), pos))
    } else {
        match spec_dec_opt_hash(b, pos) {
            None => None,
            Some((o, p2)) => match spec_dec_children(b, p2, (k - 1) as nat) {
                None => None,
                Some((rest, p3)) => Some((seq![o] + rest, p3)),
            },
        }
    }
}

/// Parses a length-prefixed byte string at `pos`.
pub open spec fn spec_dec_bytes(b: Seq<u8>, pos: int) -> Option<(Seq<u8>, int)> {
    if 0 <= pos && pos + 4 <= b.len() {
        let l = spec_le_val(b.subrange(pos, pos + 4));
        if pos + 4 + l <= b.len() {
            Some((b.subrange(pos + 4, pos + 4 + l), pos + 4 + l))
        } else {
            None
        }
    } else {
        None
    }
}

/// Parses an optional length-prefixed byte string at `pos`.
pub open spec fn spec_dec_opt_bytes(b: Seq<u8>, pos: int) -> Option<(Option<Seq<u8>>, int)> {
    if 0 <= pos < b.len() {
        if b[pos] == 0 {
            Some((None, pos + 1))
        } else if b[pos] == 1 {
            match spec_dec_bytes(b, pos + 1) {
                None => None,
                Some((v, p2)) => Some((Some(v), p2)),
            }
        } else {
            None
        }
    } else {
        None
    }
}

/// The node a canonical encoding denotes. Exactly the encodings that
/// `spec_encode_node` produces for well-formed nodes are accepted, and
/// nothing may trail the encoding.
pub open spec fn spec_decode_node(b: Seq<u8>) -> Option<NodeV> {
    if b.len() < 1 {
        None
    } else if b[0] == 0 {
        match spec_dec_children(b, 1, 16) {
            None => None,
            Some((cs, p)) => match spec_dec_opt_bytes(b, p) {
                None => None,
                Some((v, p2)) => if p2 == b.len() {
                    Some(NodeV::Branch { children: cs, value: v })
                } else {
                    None
                },
            },
        }
    } else if b[0] == 1 {
        match spec_dec_bytes(b, 1) {
            None => None,
            Some((k, p)) => if p + 32 == b.len() {
                Some(NodeV::Extension { key: k, child: b.subrange(p, p + 32) })
            } else {
                None
            },
        }
    } else if b[0] == 2 {
        match spec_dec_bytes(b, 1) {
            None => None,
            Some((k, p)) => match spec_dec_bytes(b, p) {
                None => None,
                Some((v, p2)) => if p2 == b.len() {
                    Some(NodeV::Leaf { key: k, value: v })
                } else {
                    None
                },
            },
        }
    } else {
        None
    }
}

// ---------------------------------------------------------------------
// Round trip: decoding an encoding restores the node.
// ---------------------------------------------------------------------
/// Parsing a length-prefixed byte string out of its place inside a
/// larger buffer yields the bytes and the position after them.
proof fn lemma_dec_bytes_at(b: Seq<u8>, pos: int, v: Seq<u8>)
    requires
        0 <= pos,
        pos + 4 + v.len() <= b.len(),
        v.len() < pow256(4),
        b.subrange(pos, pos + 4 + v.len()) == spec_enc_bytes(v),
    ensures
        spec_dec_bytes(b, pos) == Some((v, pos + 4 + v.len())),
{
    lemma_le_bytes_len(v.len(), 4);
    let vl = v.len() as int;
    let region = b.subrange(pos, pos + 4 + v.len());
    assert(b.subrange(pos, pos + 4) =~= region.subrange(0, 4));
    assert(region.subrange(0, 4) =~= spec_le_bytes(v.len(), 4));
    lemma_le_roundtrip(v.len(), 4);
    assert(spec_le_val(b.subrange(pos, pos + 4)) == v.len());
    assert(b.subrange(pos + 4, pos + 4 + v.len()) =~= region.subrange(4, 4 + vl));
    assert(region.subrange(4, 4 + vl) =~= v);
}

/// Parsing one optional child hash out of its place inside a larger
/// buffer yields the slot and the position after it.
proof fn lemma_dec_opt_hash_at(b: Seq<u8>, pos: int, o: Option<Seq<u8>>)
    requires
        0 <= pos,
        pos + spec_enc_opt_hash(o).len() <= b.len(),
        o is Some ==> (o->0).len() == 32,
        b.subrange(pos, pos + spec_enc_opt_hash(o).len()) == spec_enc_opt_hash(o),
    ensures
        spec_dec_opt_hash(b, pos) == Some((o, pos + spec_enc_opt_hash(o).len())),
{
    let e = spec_enc_opt_hash(o);
    let region = b.subrange(pos, pos + e.len());
    match o {
        None => {
            assert(b[pos] == region[0]);
        },
        Some(h) => {
            assert(b[pos] == region[0]);
            assert(region[0] == 1);
            assert(b.subrange(pos + 1, pos + 33) =~= region.subrange(1, 33));
            assert(region.subrange(1, 33) =~= h);
        },
    }
}

/// Parsing a run of child slots out of its place inside a larger
/// buffer yields the slots and the position after them.
proof fn lemma_dec_children_at(b: Seq<u8>, pos: int, cs: Seq<Option<Seq<u8>>>)
    requires
        0 <= pos,
        pos + spec_enc_children(cs).len() <= b.len(),
        forall|i: int| 0 <= i < cs.len() ==> (#[trigger] cs[i]) is Some ==> (cs[i]->0).len() == 32,
        b.subrange(pos, pos + spec_enc_children(cs).len()) == spec_enc_children(cs),
    ensures
        spec_dec_children(b, pos, cs.len()) == Some((cs, pos + spec_enc_children(cs).len())),
    decreases cs.len(),
{
    if cs.len() == 0 {
        assert(cs =~= Seq::<Option<Seq<u8>>>::empty());
    } else {
        let o = cs.first();
        let rest = cs.drop_first();
        let eo = spec_enc_opt_hash(o);
        let er = spec_enc_children(rest);
        let e = spec_enc_children(cs);
        let eol = eo.len() as int;
        let erl = er.len() as int;
        assert(e == eo + er);
        assert(b.subrange(pos, pos + eo.len()) =~= e.subrange(0, eol));
        assert(e.subrange(0, eol) =~= eo);
        lemma_dec_opt_hash_at(b, pos, o);
        assert(b.subrange(pos + eo.len(), pos + eo.len() + er.len()) =~= e.subrange(
            eol,
            eol + erl,
        ));
        assert(e.subrange(eol, eol + erl) =~= er);
        lemma_dec_children_at(b, pos + eo.len(), rest);
        assert(seq![o] + rest =~= cs);
    }
}

/// Decoding a canonical encoding restores the node bit-exactly.
pub proof fn lemma_node_roundtrip(n: NodeV)
    requires
        spec_wf_node(n),
    ensures
        spec_decode_node(spec_encode_node(n)) == Some(n),
{
    let b = spec_encode_node(n);
    match n {
        NodeV::Branch { children, value } => {
            let ec = spec_enc_children(children);
            let ev = spec_enc_opt_bytes(value);
            if value is Some {
                lemma_le_bytes_len((value->0).len(), 4);
            }
            assert(b[0] == 0);
            assert(b.subrange(1, 1 + ec.len() as int) =~= ec);
            lemma_dec_children_at(b, 1, children);
            let p = 1 + ec.len() as int;
            match value {
                None => {
                    assert(b[p] == 0);
                    assert(p + 1 == b.len());
                },
                Some(v) => {
                    assert(b[p] == 1);
                    assert(b.subrange(p + 1, p + 5 + v.len() as int) =~= spec_enc_bytes(v));
                    lemma_dec_bytes_at(b, p + 1, v);
                    assert(p + 5 + v.len() == b.len());
                },
            }
        },
        NodeV::Extension { key, child } => {
            assert(b[0] == 1);
            lemma_le_bytes_len(key.len(), 4);
            assert(b.subrange(1, 5 + key.len() as int) =~= spec_enc_bytes(key));
            lemma_dec_bytes_at(b, 1, key);
            let p = 5 + key.len() as int;
            assert(p + 32 == b.len());
            assert(b.subrange(p, p + 32) =~= child);
        },
        NodeV::Leaf { key, value } => {
            assert(b[0] == 2);
            lemma_le_bytes_len(key.len(), 4);
            lemma_le_bytes_len(value.len(), 4);
            assert(b.subrange(1, 5 + key.len() as int) =~= spec_enc_bytes(key));
            lemma_dec_bytes_at(b, 1, key);
            let p = 5 + key.len() as int;
            assert(b.subrange(p, p + 4 + value.len() as int) =~= spec_enc_bytes(value));
            lemma_dec_bytes_at(b, p, value);
            assert(p + 4 + value.len() == b.len());
        },
    }
}

/// The canonical encoding is injective on well-formed nodes.
pub proof fn lemma_encode_injective(a: NodeV, b: NodeV)
    requires
        spec_wf_node(a),
        spec_wf_node(b),
        spec_encode_node(a) == spec_encode_node(b),
    ensures
        a == b,
{
    lemma_node_roundtrip(a);
    lemma_node_roundtrip(b);
}

// ---------------------------------------------------------------------
// Executable encoder.
// ---------------------------------------------------------------------
/// Appending one encoded slot extends an encoded run of slots.
proof fn lemma_enc_children_push(cs: Seq<Option<Seq<u8>>>, o: Option<Seq<u8>>)
    ensures
        spec_enc_children(cs.push(o)) == spec_enc_children(cs) + spec_enc_opt_hash(o),
    decreases cs.len(),
{
    if cs.len() == 0 {
        assert(cs.push(o).first() == o);
        assert(cs.push(o).drop_first() =~= Seq::<Option<Seq<u8>>>::empty());
        assert(spec_enc_children(cs.push(o)) == spec_enc_opt_hash(o) + spec_enc_children(
            cs.push(o).drop_first(),
        ));
        assert(spec_enc_children(Seq::<Option<Seq<u8>>>::empty()) =~= Seq::<u8>::empty());
        assert(spec_enc_children(cs) =~= Seq::<u8>::empty());
        assert(spec_enc_children(cs.push(o)) =~= spec_enc_children(cs) + spec_enc_opt_hash(o));
    } else {
        assert(cs.push(o).first() == cs.first());
        assert(cs.push(o).drop_first() =~= cs.drop_first().push(o));
        lemma_enc_children_push(cs.drop_first(), o);
        let x = spec_enc_opt_hash(cs.first());
        let y = spec_enc_children(cs.drop_first());
        let z = spec_enc_opt_hash(o);
        assert(spec_enc_children(cs.push(o)) == x + (y + z));
        assert(x + (y + z) =~= (x + y) + z);
        assert(spec_enc_children(cs) + spec_enc_opt_hash(o) == (x + y) + z);
    }
}

/// Encodes a node canonically.
pub fn encode_node(n: &Node) -> (r: Vec<u8>)
    requires
        spec_wf_node(n@),
    ensures
        r@ == spec_encode_node(n@),
{
    let mut out: Vec<u8> = Vec::new();
    match n {
        Node::Branch { children, value } => {
            out.push(0u8);
            let ghost cviews = n@->Branch_children;
            let mut i: usize = 0;
            proof {
                assert(cviews.take(0) =~= Seq::<Option<Seq<u8>>>::empty());
                assert(out@ =~= seq![0u8] + spec_enc_children(cviews.take(0)));
            }
            while i < 16
                invariant
                    i <= 16,
                    children@.len() == 16,
                    cviews == children@.map_values(
                        |o: Option<crate::primitives::Hash>|
                            match o {
                                Some(h) => Some(h@),
                                None => None,
                            },
                    ),
                    out@ == seq![0u8] + spec_enc_children(cviews.take(i as int)),
                decreases 16 - i,
            {
                match &children[i] {
                    None => {
                        out.push(0u8);
                        proof {
                            assert(cviews[i as int] is None);
                        }
                    },
                    Some(h) => {
                        out.push(1u8);
                        push_bytes(&mut out, h.0.as_slice());
                        proof {
                            assert(cviews[i as int] == Some(h@));
                        }
                    },
                }
                proof {
                    lemma_enc_children_push(cviews.take(i as int), cviews[i as int]);
                    assert(cviews.take(i + 1) =~= cviews.take(i as int).push(cviews[i as int]));
                    assert(out@ =~= seq![0u8] + spec_enc_children(cviews.take(i + 1)));
                }
                i = i + 1;
            }
            proof {
                assert(cviews.take(16) =~= cviews);
            }
            match value {
                None => {
                    out.push(0u8);
                },
                Some(v) => {
                    out.push(1u8);
                    push_le(&mut out, v.len() as u128, 4);
                    push_bytes(&mut out, v.as_slice());
                },
            }
            proof {
                assert(out@ =~= spec_encode_node(n@));
            }
        },
        Node::Extension { key, child } => {
            out.push(1u8);
            push_le(&mut out, key.len() as u128, 4);
            push_bytes(&mut out, key.as_slice());
            push_bytes(&mut out, child.0.as_slice());
            proof {
                assert(out@ =~= spec_encode_node(n@));
            }
        },
        Node::Leaf { key, value } => {
            out.push(2u8);
            push_le(&mut out, key.len() as u128, 4);
            push_bytes(&mut out, key.as_slice());
            push_le(&mut out, value.len() as u128, 4);
            push_bytes(&mut out, value.as_slice());
            proof {
                assert(out@ =~= spec_encode_node(n@));
            }
        },
    }
    out
}

// ---------------------------------------------------------------------
// Executable decoder.
// ---------------------------------------------------------------------
/// Reads a length-prefixed byte string at `*pos`, advancing `*pos`.
fn read_bytes_field(b: &[u8], pos: &mut usize) -> (r: Option<Vec<u8>>)
    ensures
        r is Some <==> spec_dec_bytes(b@, *old(pos) as int) is Some,
        r is Some ==> {
            &&& Some((r->0@, *final(pos) as int)) == spec_dec_bytes(b@, *old(pos) as int)
            &&& *old(pos) <= *final(pos) <= b@.len()
        },
        r is None ==> *final(pos) == *old(pos),
{
    let start = *pos;
    if start > b.len() || b.len() - start < 4 {
        return None;
    }
    let l128 = read_le(b, start, 4);
    proof {
        lemma_le_val_bound(b@.subrange(start as int, start + 4));
        lemma_pow256_16();
        lemma_pow256_le(4, 16);
    }
    let l = l128 as usize;
    if b.len() - (start + 4) < l {
        return None;
    }
    let v = vstd::slice::slice_to_vec(vstd::slice::slice_subrange(b, start + 4, start + 4 + l));
    *pos = start + 4 + l;
    Some(v)
}

/// Reads one optional child-hash slot at `*pos`, advancing `*pos`.
fn read_opt_hash(b: &[u8], pos: &mut usize) -> (r: Option<Option<crate::primitives::Hash>>)
    ensures
        r is Some <==> spec_dec_opt_hash(b@, *old(pos) as int) is Some,
        r is Some ==> {
            &&& spec_dec_opt_hash(b@, *old(pos) as int) is Some
            &&& (spec_dec_opt_hash(b@, *old(pos) as int)->0).0 == (match r->0 {
                Some(h) => Some(h@),
                None => None::<Seq<u8>>,
            })
            &&& (spec_dec_opt_hash(b@, *old(pos) as int)->0).1 == *final(pos) as int
            &&& *old(pos) <= *final(pos) <= b@.len()
        },
        r is None ==> *final(pos) == *old(pos),
{
    let start = *pos;
    if start >= b.len() {
        return None;
    }
    let tag = b[start];
    if tag == 0 {
        *pos = start + 1;
        Some(None)
    } else if tag == 1 && b.len() - (start + 1) >= 32 {
        let h = bytes32_of_slice(vstd::slice::slice_subrange(b, start + 1, start + 33));
        *pos = start + 33;
        Some(Some(crate::primitives::Hash(h)))
    } else {
        None
    }
}

/// Decodes a canonical node encoding. Succeeds exactly on the byte
/// strings that `spec_decode_node` accepts.
#[verifier::loop_isolation(false)]
pub fn decode_node(b: &[u8]) -> (r: Option<Node>)
    ensures
        r is Some <==> spec_decode_node(b@) is Some,
        r is Some ==> Some(r->0@) == spec_decode_node(b@),
{
    if b.len() < 1 {
        return None;
    }
    let tag = b[0];
    if tag == 0 {
        let mut pos: usize = 1;
        let mut children: Vec<Option<crate::primitives::Hash>> = Vec::new();
        let mut i: usize = 0;
        while i < 16
            invariant
                i <= 16,
                children@.len() == i,
                1 <= pos <= b@.len(),
                ({
                    let full = spec_dec_children(b@, 1, 16);
                    let rest = spec_dec_children(b@, pos as int, (16 - i) as nat);
                    &&& (rest is None ==> full is None)
                    &&& (rest is Some ==> full is Some && (full->0).0 == children@.map_values(
                        |o: Option<crate::primitives::Hash>|
                            match o {
                                Some(h) => Some(h@),
                                None => None::<Seq<u8>>,
                            },
                    ) + (rest->0).0 && (full->0).1 == (rest->0).1)
                }),
            decreases 16 - i,
        {
            let ghost pos0 = pos as int;
            let ghost kids0 = children@;
            let slot = match read_opt_hash(b, &mut pos) {
                None => {
                    proof {
                        assert(spec_dec_children(b@, pos0, (16 - i) as nat) is None);
                        assert(spec_dec_children(b@, 1, 16) is None);
                        assert(spec_decode_node(b@) is None);
                    }
                    return None;
                },
                Some(s) => s,
            };
            children.push(slot);
            i = i + 1;
            proof {
                let oh = spec_dec_opt_hash(b@, pos0);
                let restn = spec_dec_children(b@, pos as int, (16 - i) as nat);
                let resto = spec_dec_children(b@, pos0, (16 - i + 1) as nat);
                let mapped = |o: Option<crate::primitives::Hash>|
                    match o {
                        Some(h) => Some(h@),
                        None => None::<Seq<u8>>,
                    };
                if restn is Some {
                    assert(resto is Some);
                    assert((resto->0).0 == seq![(oh->0).0] + (restn->0).0);
                    assert(children@.map_values(mapped) =~= kids0.map_values(mapped).push(
                        (oh->0).0,
                    ));
                    assert(kids0.map_values(mapped) + (seq![(oh->0).0] + (restn->0).0)
                        =~= children@.map_values(mapped) + (restn->0).0);
                } else {
                    assert(resto is None);
                }
            }
        }
        let ghost full = spec_dec_children(b@, 1, 16);
        proof {
            assert(spec_dec_children(b@, pos as int, 0) is Some);
            assert((spec_dec_children(b@, pos as int, 0)->0).0 =~= Seq::<Option<Seq<u8>>>::empty());
            assert(full is Some);
            assert((full->0).0 =~= children@.map_values(
                |o: Option<crate::primitives::Hash>|
                    match o {
                        Some(h) => Some(h@),
                        None => None::<Seq<u8>>,
                    },
            ));
            assert((full->0).1 == pos as int);
        }
        if pos >= b.len() {
            return None;
        }
        let vt = b[pos];
        if vt == 0 {
            if pos + 1 != b.len() {
                return None;
            }
            let node = Node::Branch { children, value: None };
            proof {
                assert(spec_decode_node(b@) == Some(node@));
            }
            Some(node)
        } else if vt == 1 {
            let ghost vpos = pos as int;
            pos = pos + 1;
            let v = match read_bytes_field(b, &mut pos) {
                None => {
                    proof {
                        assert(spec_dec_opt_bytes(b@, vpos) is None);
                        assert(spec_decode_node(b@) is None);
                    }
                    return None;
                },
                Some(v) => v,
            };
            if pos != b.len() {
                return None;
            }
            let node = Node::Branch { children, value: Some(v) };
            proof {
                assert(spec_dec_opt_bytes(b@, vpos) == Some(
                    (Some(v@), pos as int),
                ));
                assert(spec_decode_node(b@) == Some(node@));
            }
            Some(node)
        } else {
            None
        }
    } else if tag == 1 {
        let mut pos: usize = 1;
        let k = match read_bytes_field(b, &mut pos) {
            None => {
                return None;
            },
            Some(k) => k,
        };
        if b.len() - pos != 32 {
            return None;
        }
        let child = bytes32_of_slice(vstd::slice::slice_subrange(b, pos, pos + 32));
        let node = Node::Extension { key: k, child: crate::primitives::Hash(child) };
        proof {
            assert(spec_decode_node(b@) == Some(node@));
        }
        Some(node)
    } else if tag == 2 {
        let mut pos: usize = 1;
        let k = match read_bytes_field(b, &mut pos) {
            None => {
                return None;
            },
            Some(k) => k,
        };
        let v = match read_bytes_field(b, &mut pos) {
            None => {
                return None;
            },
            Some(v) => v,
        };
        if pos != b.len() {
            return None;
        }
        let node = Node::Leaf { key: k, value: v };
        proof {
            assert(spec_decode_node(b@) == Some(node@));
        }
        Some(node)
    } else {
        None
    }
}

/// Everything a decoder accepts is well-formed except possibly for the
/// length bounds, which the 4-byte prefixes themselves enforce.
pub proof fn lemma_decode_wf(b: Seq<u8>)
    requires
        spec_decode_node(b) is Some,
    ensures
        spec_wf_node(spec_decode_node(b)->0),
{
    lemma_pow256_16();
    let n = spec_decode_node(b)->0;
    match n {
        NodeV::Branch { children, value } => {
            lemma_dec_children_shape(b, 1, 16);
            match value {
                None => {
                },
                Some(v) => {
                    lemma_le_val_bound(b.subrange(
                        (spec_dec_children(b, 1, 16)->0).1 + 1,
                        (spec_dec_children(b, 1, 16)->0).1 + 5,
                    ));
                },
            }
        },
        NodeV::Extension { key, child } => {
            lemma_le_val_bound(b.subrange(1, 5));
        },
        NodeV::Leaf { key, value } => {
            lemma_le_val_bound(b.subrange(1, 5));
            let p = (spec_dec_bytes(b, 1)->0).1;
            lemma_le_val_bound(b.subrange(p, p + 4));
        },
    }
}

/// Parsed child runs have the right count and 32-byte hashes.
proof fn lemma_dec_children_shape(b: Seq<u8>, pos: int, k: nat)
    requires
        spec_dec_children(b, pos, k) is Some,
    ensures
        (spec_dec_children(b, pos, k)->0).0.len() == k,
        forall|i: int|
            0 <= i < k ==> (#[trigger] (spec_dec_children(b, pos, k)->0).0[i]) is Some
                ==> ((spec_dec_children(b, pos, k)->0).0[i]->0).len() == 32,
    decreases k,
{
    if k > 0 {
        let p2 = (spec_dec_opt_hash(b, pos)->0).1;
        lemma_dec_children_shape(b, p2, (k - 1) as nat);
    }
}

} // verus!
