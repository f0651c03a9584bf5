use mbongo_core::rpc::{classify_request, http_status_for_error, RpcErrorCode, RpcMethod};
use mbongo_core::rest::{api_status, effective_limit, ApiError};

#[test]
fn rpc_error_codes() {
    assert_eq!(RpcErrorCode::ParseError.code(), -32700);
    assert_eq!(RpcErrorCode::InvalidRequest.code(), -32600);
    assert_eq!(RpcErrorCode::MethodNotFound.code(), -32601);
    assert_eq!(RpcErrorCode::InvalidParams.code(), -32602);
    assert_eq!(RpcErrorCode::InternalError.code(), -32603);
}

#[test]
fn rpc_http_status_mapping() {
    assert_eq!(http_status_for_error(-32700), 400);
    assert_eq!(http_status_for_error(-32600), 400);
    assert_eq!(http_status_for_error(-32601), 404);
    assert_eq!(http_status_for_error(-32602), 400);
    assert_eq!(http_status_for_error(-32603), 500);
    assert_eq!(http_status_for_error(-1), 500);
}

#[test]
fn rpc_request_classification() {
    assert_eq!(classify_request("2.0", "ping"), Ok(RpcMethod::Ping));
    assert_eq!(
        classify_request("2.0", "get_block_height"),
        Ok(RpcMethod::GetBlockHeight)
    );
    assert_eq!(
        classify_request("2.0", "nope"),
        Err(RpcErrorCode::MethodNotFound)
    );
    assert_eq!(
        classify_request("1.0", "ping"),
        Err(RpcErrorCode::InvalidRequest)
    );
    assert_eq!(
        classify_request("2.0", ""),
        Err(RpcErrorCode::InvalidRequest)
    );
}

#[test]
fn rest_status_mapping() {
    assert_eq!(api_status(&Ok(())), 200);
    assert_eq!(api_status(&Err(ApiError::NotFound)), 404);
    assert_eq!(api_status(&Err(ApiError::Invalid("bad".to_string()))), 400);
    assert_eq!(
        api_status(&Err(ApiError::Internal("boom".to_string()))),
        500
    );
}

#[test]
fn rest_effective_limit() {
    assert_eq!(effective_limit(None), 10);
    assert_eq!(effective_limit(Some(5)), 5);
    assert_eq!(effective_limit(Some(1000)), 1000);
    assert_eq!(effective_limit(Some(5000)), 1000);
}
