use stylus_trace_studio::rpc::{
    check_rpc_reply, map_rpc_error, normalize_tx_hash, JsonRpcError, RpcError,
};

#[test]
fn test_normalize_tx_hash() {
    assert_eq!(normalize_tx_hash("abc123"), "0xabc123");
    assert_eq!(normalize_tx_hash("0xdef456"), "0xdef456");
}

#[test]
fn rpc_not_found_in_any_case() {
    let e = JsonRpcError { code: -32000, message: "Transaction NOT FOUND".to_string() };
    match map_rpc_error(e, "0xabc") {
        RpcError::TransactionNotFound(h) => assert_eq!(h, "0xabc"),
        other => panic!("unexpected {:?}", other),
    }
}

#[test]
fn rpc_other_server_error_keeps_message() {
    let e = JsonRpcError { code: -32000, message: "execution reverted".to_string() };
    match map_rpc_error(e, "0xabc") {
        RpcError::InvalidResponse(m) => assert_eq!(m, "execution reverted"),
        other => panic!("unexpected {:?}", other),
    }
}

#[test]
fn rpc_missing_method_means_no_tracer() {
    let e = JsonRpcError { code: -32601, message: "the method does not exist".to_string() };
    assert!(matches!(map_rpc_error(e, "0xabc"), RpcError::TracerNotSupported));
}

#[test]
fn rpc_other_code_carries_code_and_message() {
    let e = JsonRpcError { code: -32602, message: "invalid params".to_string() };
    match map_rpc_error(e, "0xabc") {
        RpcError::InvalidResponse(m) => assert_eq!(m, "-32602: invalid params"),
        other => panic!("unexpected {:?}", other),
    }
}

#[test]
fn rpc_reply_outcomes() {
    assert!(check_rpc_reply(None, true, "0xabc").is_ok());
    match check_rpc_reply(None, false, "0xabc") {
        Err(RpcError::InvalidResponse(m)) => assert_eq!(m, "Missing result field"),
        other => panic!("unexpected {:?}", other),
    }
    let e = JsonRpcError { code: -32601, message: "no such method".to_string() };
    assert!(matches!(check_rpc_reply(Some(e), true, "0xabc"), Err(RpcError::TracerNotSupported)));
}
