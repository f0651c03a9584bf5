//! Data shapes and decision rules of the read-only REST surface. The
//! HTTP routing, serialization and the async backend live outside the
//! library; these types carry the payloads and the rules say which
//! status each outcome maps to and how query limits are clamped.

use vstd::prelude::*;

verus! {

/// Failures a backend reports through the REST surface.
#[derive(Debug, Clone, PartialEq, Eq)]
pub enum ApiError {
    /// The requested entity does not exist.
    NotFound,
    /// The request was malformed, with a message.
    Invalid(String),
    /// An internal failure, with a message.
    Internal(String),
}

/// The HTTP status an API outcome maps to: 200 on success, 404 for a
/// missing entity, 400 for bad input, 500 for an internal failure.
pub open spec fn spec_api_status(r: Result<(), ApiError>) -> u16 {
    match r {
        Ok(()) => 200,
        Err(ApiError::NotFound) => 404,
        Err(ApiError::Invalid(_)) => 400,
        Err(ApiError::Internal(_)) => 500,
    }
}

/// Maps an API outcome to its HTTP status.
pub fn api_status(r: &Result<(), ApiError>) -> (s: u16)
    ensures
        s == spec_api_status(*r),
{
    match r {
        Ok(()) => 200,
        Err(ApiError::NotFound) => 404,
        Err(ApiError::Invalid(_)) => 400,
        Err(ApiError::Internal(_)) => 500,
    }
}

/// The block-list page size actually served: the requested limit, 10
/// when none was given, and never more than 1000.
pub open spec fn spec_effective_limit(q: Option<u32>) -> u32 {
    let raw = match q {
        Some(l) => l,
        None => 10,
    };
    if raw > 1000 {
        1000
    } else {
        raw
    }
}

/// Clamps a requested block-list limit to the served page size.
pub fn effective_limit(q: Option<u32>) -> (r: u32)
    ensures
        r == spec_effective_limit(q),
{
    let raw = match q {
        Some(l) => l,
        None => 10,
    };
    if raw > 1000 {
        1000
    } else {
        raw
    }
}

/// One block in a listing.
#[derive(Debug, Clone, PartialEq, Eq)]
pub struct BlockSummary {
    /// Textual block hash.
    pub hash: String,
    /// Block height.
    pub height: u64,
    /// Unix timestamp in seconds.
    pub timestamp: u64,
}

/// Full detail of one block.
#[derive(Debug, Clone, PartialEq, Eq)]
pub struct BlockDetail {
    /// Textual block hash.
    pub hash: String,
    /// Block height.
    pub height: u64,
    /// Unix timestamp in seconds.
    pub timestamp: u64,
    /// Textual hash of the parent block.
    pub parent_hash: String,
    /// Number of transactions in the body.
    pub tx_count: u32,
}

/// One transaction as the REST surface reports it.
#[derive(Debug, Clone, PartialEq, Eq)]
pub struct Transaction {
    /// Textual transaction hash.
    pub hash: String,
    /// Textual sender address.
    pub from: String,
    /// Textual receiver address, if any.
    pub to: Option<String>,
    /// Transferred value, as text.
    pub value: String,
    /// Textual hash of the including block, if included.
    pub block_hash: Option<String>,
    /// Height of the including block, if included.
    pub block_height: Option<u64>,
}

/// One account's state.
#[derive(Debug, Clone, PartialEq, Eq)]
pub struct Account {
    /// Textual address.
    pub address: String,
    /// Balance, as text.
    pub balance: String,
    /// Account nonce.
    pub nonce: u64,
}

/// One validator's state.
#[derive(Debug, Clone, PartialEq, Eq)]
pub struct Validator {
    /// Textual address.
    pub address: String,
    /// Voting power.
    pub voting_power: u64,
    /// Status label.
    pub status: String,
}

/// Query parameters of the block listing.
#[derive(Debug, Clone, PartialEq, Eq)]
pub struct BlocksQuery {
    /// Requested page size, if any.
    pub limit: Option<u32>,
}

} // verus!
