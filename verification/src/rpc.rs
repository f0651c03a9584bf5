//! Decision core of the JSON-RPC 2.0 surface: request classification,
//! error codes and their HTTP status mapping. The HTTP framing itself
//! lives outside the library.

use vstd::prelude::*;

verus! {

/// A backend failure reported through the RPC surface.
#[derive(Clone, PartialEq, Eq, Debug)]
pub enum BackendError {
    /// Internal backend error with its message.
    Internal(String),
}

/// The JSON-RPC 2.0 error kinds this surface produces.
#[derive(Debug, Copy, Clone, PartialEq, Eq)]
pub enum RpcErrorCode {
    /// The request body was not valid JSON.
    ParseError,
    /// The request was not a valid JSON-RPC 2.0 request.
    InvalidRequest,
    /// The method does not exist.
    MethodNotFound,
    /// The parameters are invalid for the method.
    InvalidParams,
    /// An internal error while handling the request.
    InternalError,
}

/// The numeric JSON-RPC 2.0 code of an error kind.
pub open spec fn spec_rpc_code(c: RpcErrorCode) -> i32 {
    match c {
        RpcErrorCode::ParseError => -32700i32,
        RpcErrorCode::InvalidRequest => -32600i32,
        RpcErrorCode::MethodNotFound => -32601i32,
        RpcErrorCode::InvalidParams => -32602i32,
        RpcErrorCode::InternalError => -32603i32,
    }
}

impl RpcErrorCode {
    /// The numeric JSON-RPC 2.0 code.
    pub fn code(self) -> (r: i32)
        ensures
            r == spec_rpc_code(self),
    {
        match self {
            RpcErrorCode::ParseError => -32700,
            RpcErrorCode::InvalidRequest => -32600,
            RpcErrorCode::MethodNotFound => -32601,
            RpcErrorCode::InvalidParams => -32602,
            RpcErrorCode::InternalError => -32603,
        }
    }
}

/// The HTTP status each top-level JSON-RPC error code maps to.
pub open spec fn spec_http_status(code: i32) -> u16 {
    if code == -32700 || code == -32600 || code == -32602 {
        400
    } else if code == -32601 {
        404
    } else {
        500
    }
}

/// Maps a JSON-RPC error code to the HTTP status of a single-request
/// response: parse and request errors are 400, an unknown method is
/// 404, everything else is 500.
pub fn http_status_for_error(code: i32) -> (r: u16)
    ensures
        r == spec_http_status(code),
{
    if code == -32700 {
        400
    } else if code == -32600 {
        400
    } else if code == -32601 {
        404
    } else if code == -32602 {
        400
    } else {
        500
    }
}

/// The methods this RPC surface dispatches.
#[derive(Debug, Copy, Clone, PartialEq, Eq)]
pub enum RpcMethod {
    /// Liveness probe answering a fixed string.
    Ping,
    /// The current block height.
    GetBlockHeight,
}

/// How a decoded request is dispatched: a known method, or the error
/// that rejects it.
pub open spec fn spec_classify(jsonrpc: Seq<char>, method: Seq<char>) -> Result<
    RpcMethod,
    RpcErrorCode,
> {
    if jsonrpc != "2.0"@ || method.len() == 0 {
        Err(RpcErrorCode::InvalidRequest)
    } else if method == "ping"@ {
        Ok(RpcMethod::Ping)
    } else if method == "get_block_height"@ {
        Ok(RpcMethod::GetBlockHeight)
    } else {
        Err(RpcErrorCode::MethodNotFound)
    }
}

/// Classifies a decoded request: anything but version "2.0" with a
/// non-empty method is invalid; `ping` and `get_block_height` are the
/// known methods; every other name is unknown.
pub fn classify_request(jsonrpc: &str, method: &str) -> (r: Result<RpcMethod, RpcErrorCode>)
    ensures
        r == spec_classify(jsonrpc@, method@),
{
    if !str_eq(jsonrpc, "2.0") || method.unicode_len() == 0 {
        Err(RpcErrorCode::InvalidRequest)
    } else if str_eq(method, "ping") {
        Ok(RpcMethod::Ping)
    } else if str_eq(method, "get_block_height") {
        Ok(RpcMethod::GetBlockHeight)
    } else {
        Err(RpcErrorCode::MethodNotFound)
    }
}

/// Character-wise equality of two string slices.
fn str_eq(a: &str, b: &str) -> (r: bool)
    ensures
        r == (a@ == b@),
{
    let an = a.unicode_len();
    let bn = b.unicode_len();
    if an != bn {
        proof {
            assert(a@.len() != b@.len());
        }
        return false;
    }
    let mut i: usize = 0;
    while i < an
        invariant
            i <= an,
            an == a@.len(),
            an == b@.len(),
            forall|j: int| 0 <= j < i ==> a@[j] == b@[j],
        decreases an - i,
    {
        if a.get_char(i) != b.get_char(i) {
            return false;
        }
        i = i + 1;
    }
    proof {
        assert(a@ =~= b@);
    }
    true
}

} // verus!
