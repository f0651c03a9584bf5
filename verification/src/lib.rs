//! Core state storage for a content-addressed blockchain: a hexary
//! Merkle Patricia Trie over a pluggable node store, the canonical
//! byte codec its commitments hash, and the block and transaction
//! primitives built on them.
//!
//! Every executable function carries a contract stating exactly what
//! it computes; `laws` holds the cross-function properties proved on
//! top of those contracts.

pub mod codec;
pub mod hashing;
pub mod hexstr;
pub mod laws;
pub mod nibbles;
pub mod node;
pub mod primitives;
pub mod rest;
pub mod rpc;
pub mod store;
pub mod trie;
