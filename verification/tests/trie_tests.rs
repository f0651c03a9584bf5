use mbongo_core::trie::MerklePatriciaTrie;

#[test]
fn basic_insert_get() {
    let mut t = MerklePatriciaTrie::with_memory();
    assert_eq!(t.root(), mbongo_core::primitives::Hash::default());
    t.insert(b"dog", b"puppy".to_vec()).unwrap();
    t.insert(b"do", b"verb".to_vec()).unwrap();
    t.insert(b"doge", b"coin".to_vec()).unwrap();
    assert_eq!(t.get(b"do"), Some(b"verb".to_vec()));
    assert_eq!(t.get(b"dog"), Some(b"puppy".to_vec()));
    assert_eq!(t.get(b"doge"), Some(b"coin".to_vec()));
    assert_eq!(t.get(b"cat"), None);
    assert_ne!(t.root(), mbongo_core::primitives::Hash::default());
}

#[test]
fn overwrite_and_delete() {
    let mut t = MerklePatriciaTrie::with_memory();
    t.insert(b"dog", b"puppy".to_vec()).unwrap();
    t.insert(b"dog", b"canine".to_vec()).unwrap();
    assert_eq!(t.get(b"dog"), Some(b"canine".to_vec()));
    assert!(t.delete(b"dog").unwrap());
    assert_eq!(t.get(b"dog"), None);
}

#[test]
fn proof_generation_nonempty() {
    let mut t = MerklePatriciaTrie::with_memory();
    t.insert(b"alice", b"1".to_vec()).unwrap();
    t.insert(b"bob", b"2".to_vec()).unwrap();
    let proof = t.get_proof(b"alice").unwrap();
    assert!(!proof.is_empty());
    // First node must hash to its own encoding
    let first = &proof[0];
    assert_eq!(
        first.hash,
        mbongo_core::primitives::Hash(mbongo_core::hashing::hash_bytes(&first.encoded))
    );
}

#[test]
fn integration_state_trie_basic() {
    let mut t = MerklePatriciaTrie::with_memory();
    t.insert(&[0u8, 1, 2], vec![9]).unwrap();
    t.insert(&[0u8, 1, 3], vec![8]).unwrap();
    assert_eq!(t.get(&[0u8, 1, 2]), Some(vec![9]));
    assert_eq!(t.get(&[0u8, 1, 3]), Some(vec![8]));
    assert_eq!(t.get(&[0u8, 1, 4]), None);
    let root1 = t.root();
    assert!(root1 != Default::default());

    // Update and ensure root changes
    t.insert(&[0u8, 1, 3], vec![7]).unwrap();
    let root2 = t.root();
    assert_ne!(root1, root2);

    // Delete and verify absence
    assert!(t.delete(&[0u8, 1, 2]).unwrap());
    assert_eq!(t.get(&[0u8, 1, 2]), None);
}

#[test]
fn test_delete_nonexistent_key() {
    let mut t = MerklePatriciaTrie::with_memory();
    // Deleting from empty trie should return false
    assert!(!t.delete(&[0u8, 1, 2]).unwrap());

    // Insert a key, then try to delete a different key
    t.insert(&[0u8, 1, 2], vec![9]).unwrap();
    assert!(!t.delete(&[0u8, 1, 3]).unwrap());
}

#[test]
fn test_empty_trie_operations() {
    let mut t = MerklePatriciaTrie::with_memory();

    // Get from empty trie should return None
    assert_eq!(t.get(&[0u8, 1, 2]), None);

    // Delete from empty trie should return false
    assert!(!t.delete(&[0u8, 1, 2]).unwrap());

    // Root of empty trie should be default
    assert_eq!(t.root(), Default::default());
}

#[test]
fn test_operations_after_complete_deletion() {
    let mut t = MerklePatriciaTrie::with_memory();

    // Insert some keys
    t.insert(&[0u8, 1, 2], vec![9]).unwrap();
    t.insert(&[0u8, 1, 3], vec![8]).unwrap();
    let root_with_data = t.root();
    assert_ne!(root_with_data, Default::default());

    // Delete all keys
    assert!(t.delete(&[0u8, 1, 2]).unwrap());
    assert!(t.delete(&[0u8, 1, 3]).unwrap());

    // Trie should be empty again
    assert_eq!(t.get(&[0u8, 1, 2]), None);
    assert_eq!(t.get(&[0u8, 1, 3]), None);

    // Root should return to default (empty state)
    assert_eq!(t.root(), Default::default());

    // Should be able to insert again
    t.insert(&[0u8, 1, 2], vec![10]).unwrap();
    assert_eq!(t.get(&[0u8, 1, 2]), Some(vec![10]));
}

#[test]
fn test_empty_values_and_special_keys() {
    let mut t = MerklePatriciaTrie::with_memory();

    // Insert empty value
    t.insert(&[0u8, 1, 2], vec![]).unwrap();
    assert_eq!(t.get(&[0u8, 1, 2]), Some(vec![]));

    // Insert with all zeros key
    t.insert(&[0u8, 0, 0], vec![1]).unwrap();
    assert_eq!(t.get(&[0u8, 0, 0]), Some(vec![1]));

    // Insert with all 0xFF key
    t.insert(&[0xFFu8, 0xFF, 0xFF], vec![2]).unwrap();
    assert_eq!(t.get(&[0xFFu8, 0xFF, 0xFF]), Some(vec![2]));

    // Single byte keys
    t.insert(&[0u8], vec![3]).unwrap();
    assert_eq!(t.get(&[0u8]), Some(vec![3]));
}

#[test]
fn test_prefix_keys() {
    let mut t = MerklePatriciaTrie::with_memory();

    // Insert keys where one is a prefix of another
    t.insert(&[0u8, 1], vec![1]).unwrap();
    t.insert(&[0u8, 1, 2], vec![2]).unwrap();
    t.insert(&[0u8, 1, 2, 3], vec![3]).unwrap();

    // All should be retrievable independently
    assert_eq!(t.get(&[0u8, 1]), Some(vec![1]));
    assert_eq!(t.get(&[0u8, 1, 2]), Some(vec![2]));
    assert_eq!(t.get(&[0u8, 1, 2, 3]), Some(vec![3]));

    // Delete middle key shouldn't affect others
    assert!(t.delete(&[0u8, 1, 2]).unwrap());
    assert_eq!(t.get(&[0u8, 1]), Some(vec![1]));
    assert_eq!(t.get(&[0u8, 1, 2]), None);
    assert_eq!(t.get(&[0u8, 1, 2, 3]), Some(vec![3]));
}

#[test]
fn test_proof_for_nonexistent_keys() {
    let mut t = MerklePatriciaTrie::with_memory();

    // Insert some data
    t.insert(&[0u8, 1, 2], vec![9]).unwrap();
    t.insert(&[0u8, 1, 3], vec![8]).unwrap();

    // A proof for a non-existent key still walks the shared path and
    // every entry hashes to its own bytes.
    let proof = t.get_proof(&[0u8, 1, 4]).unwrap();
    assert!(!proof.is_empty());
    for entry in &proof {
        assert_eq!(
            entry.hash,
            mbongo_core::primitives::Hash(mbongo_core::hashing::hash_bytes(&entry.encoded))
        );
    }
}

#[test]
fn replaying_a_history_reproduces_the_root() {
    let run = || {
        let mut t = MerklePatriciaTrie::with_memory();
        t.insert(b"alpha", b"1".to_vec()).unwrap();
        t.insert(b"beta", b"2".to_vec()).unwrap();
        t.insert(b"alpha", b"3".to_vec()).unwrap();
        t.delete(b"beta").unwrap();
        t.insert(b"gamma", b"4".to_vec()).unwrap();
        t.root()
    };
    assert_eq!(run(), run());
}

#[test]
fn same_set_different_order_same_root() {
    let mut a = MerklePatriciaTrie::with_memory();
    a.insert(b"dog", b"puppy".to_vec()).unwrap();
    a.insert(b"do", b"verb".to_vec()).unwrap();
    a.insert(b"doge", b"coin".to_vec()).unwrap();

    let mut b = MerklePatriciaTrie::with_memory();
    b.insert(b"doge", b"coin".to_vec()).unwrap();
    b.insert(b"dog", b"puppy".to_vec()).unwrap();
    b.insert(b"do", b"verb".to_vec()).unwrap();

    assert_eq!(a.root(), b.root());

    // A trie that reaches the same set through a delete agrees too.
    let mut c = MerklePatriciaTrie::with_memory();
    c.insert(b"do", b"verb".to_vec()).unwrap();
    c.insert(b"cat", b"meow".to_vec()).unwrap();
    c.insert(b"dog", b"puppy".to_vec()).unwrap();
    c.insert(b"doge", b"coin".to_vec()).unwrap();
    assert!(c.delete(b"cat").unwrap());
    assert_eq!(a.root(), c.root());
}

#[test]
fn overwrite_delete_empties_root() {
    let mut t = MerklePatriciaTrie::with_memory();
    t.insert(b"dog", b"puppy".to_vec()).unwrap();
    t.insert(b"dog", b"canine".to_vec()).unwrap();
    assert!(t.delete(b"dog").unwrap());
    assert_eq!(t.get(b"dog"), None);
    assert_eq!(t.root(), mbongo_core::primitives::Hash::default());
    // Deleting the same key twice reports a change, then none.
    t.insert(b"dog", b"puppy".to_vec()).unwrap();
    assert!(t.delete(b"dog").unwrap());
    assert!(!t.delete(b"dog").unwrap());
}

#[test]
fn proof_of_present_key_starts_at_root() {
    let mut t = MerklePatriciaTrie::with_memory();
    t.insert(b"alice", b"1".to_vec()).unwrap();
    t.insert(b"alina", b"2".to_vec()).unwrap();
    t.insert(b"bob", b"3".to_vec()).unwrap();
    let proof = t.get_proof(b"alina").unwrap();
    assert!(!proof.is_empty());
    assert_eq!(proof[0].hash, t.root());
    // Recompute upward: every entry hashes to its digest field.
    for entry in &proof {
        assert_eq!(
            entry.hash,
            mbongo_core::primitives::Hash(mbongo_core::hashing::hash_bytes(&entry.encoded))
        );
    }
}

#[test]
fn delete_compaction_shapes() {
    // Build shapes that force each compaction rule on the way back out.
    let mut t = MerklePatriciaTrie::with_memory();

    // A branch whose value slot terminates a prefix key.
    t.insert(b"ab", b"prefix".to_vec()).unwrap();
    t.insert(b"abc", b"one".to_vec()).unwrap();
    t.insert(b"abd", b"two".to_vec()).unwrap();
    t.insert(b"abce", b"three".to_vec()).unwrap();

    // Deleting a leaf leaves the rest intact.
    assert!(t.delete(b"abd").unwrap());
    assert_eq!(t.get(b"ab"), Some(b"prefix".to_vec()));
    assert_eq!(t.get(b"abc"), Some(b"one".to_vec()));
    assert_eq!(t.get(b"abce"), Some(b"three".to_vec()));
    assert_eq!(t.get(b"abd"), None);

    // Deleting the branch's own value collapses it toward its child.
    assert!(t.delete(b"ab").unwrap());
    assert_eq!(t.get(b"ab"), None);
    assert_eq!(t.get(b"abc"), Some(b"one".to_vec()));
    assert_eq!(t.get(b"abce"), Some(b"three".to_vec()));

    // Deleting the inner key leaves only the extended leaf.
    assert!(t.delete(b"abc").unwrap());
    assert_eq!(t.get(b"abce"), Some(b"three".to_vec()));
    assert_eq!(t.get(b"abc"), None);

    // The final delete empties the trie.
    assert!(t.delete(b"abce").unwrap());
    assert_eq!(t.root(), mbongo_core::primitives::Hash::default());

    // A trie built directly with the surviving set matches the root a
    // history of deletes reaches.
    let mut u = MerklePatriciaTrie::with_memory();
    u.insert(b"abc", b"one".to_vec()).unwrap();
    u.insert(b"abce", b"three".to_vec()).unwrap();
    let mut v = MerklePatriciaTrie::with_memory();
    v.insert(b"ab", b"prefix".to_vec()).unwrap();
    v.insert(b"abc", b"one".to_vec()).unwrap();
    v.insert(b"abce", b"three".to_vec()).unwrap();
    assert!(v.delete(b"ab").unwrap());
    assert_eq!(u.root(), v.root());
}
