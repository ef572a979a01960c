use rufton::json::Json;
use rufton::jsonrpc::{JsonRpcPredefinedError, JsonRpcPredefinedErrorCode, JsonRpcRequest,
    JsonRpcRequestId, JsonRpcResponse, write_request, write_response_err,
    write_response_err_with_data, write_response_ok};
use rufton::text::to_text;

#[test]
fn predefined_error_codes_and_messages() {
    assert_eq!(JsonRpcPredefinedError::ParseError.code(), -32700);
    assert_eq!(JsonRpcPredefinedError::ParseError.message(), "Parse error");
    assert_eq!(JsonRpcPredefinedError::InvalidRequest.code(), -32600);
    assert_eq!(JsonRpcPredefinedError::InvalidRequest.message(), "Invalid Request");
    assert_eq!(JsonRpcPredefinedError::MethodNotFound.code(), -32601);
    assert_eq!(JsonRpcPredefinedError::MethodNotFound.message(), "Method not found");
    assert_eq!(JsonRpcPredefinedError::InvalidParams.code(), -32602);
    assert_eq!(JsonRpcPredefinedError::InvalidParams.message(), "Invalid params");
    assert_eq!(JsonRpcPredefinedError::InternalError.code(), -32603);
    assert_eq!(JsonRpcPredefinedError::InternalError.message(), "Internal error");

    assert_eq!(JsonRpcPredefinedErrorCode::ParseError.code(), -32700);
    assert_eq!(JsonRpcPredefinedErrorCode::ParseError.message(), "Parse error");
    assert_eq!(JsonRpcPredefinedErrorCode::InternalError.code(), -32603);
    assert_eq!(JsonRpcPredefinedErrorCode::InternalError.message(), "Internal error");
}

#[test]
fn request_parse_accepts_a_full_request() {
    let line = br#"{"jsonrpc":"2.0","id":1,"method":"put","params":{"key":"a","value":1}}"#;
    let req = JsonRpcRequest::parse(line).expect("valid request");
    assert_eq!(req.method, b"put".to_vec());
    assert_eq!(req.id, Some(JsonRpcRequestId::Integer(1)));
    let params = req.params.expect("params");
    assert_eq!(params.get("key").unwrap(), &Json::Str(b"a".to_vec()));
    assert_eq!(params.get("value").unwrap(), &Json::Num(1));
}

#[test]
fn request_parse_accepts_string_id_and_no_params() {
    let line = br#"{"jsonrpc":"2.0","id":"x","method":"ping"}"#;
    let req = JsonRpcRequest::parse(line).expect("valid request");
    assert_eq!(req.id, Some(JsonRpcRequestId::String(b"x".to_vec())));
    assert!(req.params.is_none());
}

#[test]
fn request_parse_rejects_bad_shapes() {
    let cases: Vec<(&[u8], JsonRpcPredefinedError)> = vec![
        (b"not json at all", JsonRpcPredefinedError::ParseError),
        (br#"{"jsonrpc":"1.0","method":"m"}"#, JsonRpcPredefinedError::InvalidRequest),
        (br#"{"method":"m"}"#, JsonRpcPredefinedError::InvalidRequest),
        (br#"{"jsonrpc":"2.0"}"#, JsonRpcPredefinedError::InvalidRequest),
        (br#"{"jsonrpc":"2.0","method":7}"#, JsonRpcPredefinedError::InvalidRequest),
        (br#"{"jsonrpc":"2.0","method":"m","id":true}"#, JsonRpcPredefinedError::InvalidRequest),
        (br#"{"jsonrpc":"2.0","method":"m","params":3}"#, JsonRpcPredefinedError::InvalidRequest),
        (br#"[1,2]"#, JsonRpcPredefinedError::InvalidRequest),
    ];
    for (line, expected) in cases {
        match JsonRpcRequest::parse(line) {
            Err(e) => assert_eq!(e, expected, "line {:?}", String::from_utf8_lossy(line)),
            Ok(_) => panic!("line should be rejected: {:?}", String::from_utf8_lossy(line)),
        }
    }
}

#[test]
fn response_writers_emit_exact_lines() {
    let id = JsonRpcRequestId::Integer(1);
    let ok = write_response_ok(&id, Json::Str(b"world".to_vec()));
    assert_eq!(to_text(&ok), br#"{"jsonrpc":"2.0","id":1,"result":"world"}"#.to_vec());

    let err = write_response_err(Some(&id), -32601, "Method not found");
    assert_eq!(
        to_text(&err),
        br#"{"jsonrpc":"2.0","id":1,"error":{"code":-32601,"message":"Method not found"}}"#
            .to_vec()
    );

    let err_null = write_response_err(None, -32700, "Parse error");
    assert_eq!(
        to_text(&err_null),
        br#"{"jsonrpc":"2.0","id":null,"error":{"code":-32700,"message":"Parse error"}}"#.to_vec()
    );

    let err_data = write_response_err_with_data(Some(&id), -32602, "Invalid params",
        Json::Str(b"k".to_vec()));
    assert_eq!(
        to_text(&err_data),
        br#"{"jsonrpc":"2.0","id":1,"error":{"code":-32602,"message":"Invalid params","data":"k"}}"#
            .to_vec()
    );

    let call = write_request(Some(&id), "hello", Json::Obj(vec![]));
    assert_eq!(
        to_text(&call),
        br#"{"jsonrpc":"2.0","id":1,"method":"hello","params":{}}"#.to_vec()
    );
    let notification = write_request(None, "_message", Json::Obj(vec![]));
    assert_eq!(
        to_text(&notification),
        br#"{"jsonrpc":"2.0","method":"_message","params":{}}"#.to_vec()
    );
}

#[test]
fn response_parse_round_trips_the_writers() {
    let id = JsonRpcRequestId::Integer(7);
    let ok_line = to_text(&write_response_ok(&id, Json::Num(3)));
    let resp = JsonRpcResponse::parse(&ok_line).expect("valid response");
    assert_eq!(resp.id, Some(JsonRpcRequestId::Integer(7)));
    assert_eq!(resp.outcome, Ok(Json::Num(3)));

    let err_line = to_text(&write_response_err(Some(&id), -32603, "Internal error"));
    let resp = JsonRpcResponse::parse(&err_line).expect("valid response");
    let err = resp.outcome.expect_err("error outcome");
    assert_eq!(err.get("code").unwrap(), &Json::NumRaw(b"-32603".to_vec()));
}

#[test]
fn response_parse_rejects_bad_shapes() {
    assert!(JsonRpcResponse::parse(b"garbage").is_none());
    assert!(JsonRpcResponse::parse(br#"{"jsonrpc":"2.0","result":1}"#).is_none());
    assert!(JsonRpcResponse::parse(br#"{"jsonrpc":"2.0","id":1}"#).is_none());
    assert!(
        JsonRpcResponse::parse(br#"{"jsonrpc":"2.0","id":1,"error":{"code":"x"}}"#).is_none()
    );
    assert!(JsonRpcResponse::parse(br#"{"id":1,"result":5}"#).is_none());
}
