use goose::json::JsonValue;
use goose::jsonrpc::{
    error_to_agent_error, incoming_action, parse_message, parse_u64, request_json, response_outcome, ErrorData,
    Incoming, JsonRpcMessage,
};
use goose::message::AgentError;

fn s(text: &str) -> JsonValue {
    JsonValue::Str(text.to_string())
}

fn num(text: &str) -> JsonValue {
    JsonValue::Number(text.to_string())
}

fn obj(entries: Vec<(&str, JsonValue)>) -> JsonValue {
    JsonValue::Object(entries.into_iter().map(|(k, v)| (k.to_string(), v)).collect())
}

#[test]
fn numbers_as_ids() {
    assert_eq!(parse_u64("0"), Some(0));
    assert_eq!(parse_u64("42"), Some(42));
    assert_eq!(parse_u64("18446744073709551615"), Some(u64::MAX));
    assert_eq!(parse_u64("18446744073709551616"), None);
    assert_eq!(parse_u64("-1"), None);
    assert_eq!(parse_u64("1.5"), None);
    assert_eq!(parse_u64(""), None);
}

#[test]
fn envelopes_by_kind() {
    let request = obj(vec![("jsonrpc", s("2.0")), ("id", num("7")), ("method", s("tools/list"))]);
    assert_eq!(
        parse_message(&request),
        Ok(JsonRpcMessage::Request { id: 7, method: "tools/list".to_string(), params: None })
    );
    let note = obj(vec![
        ("jsonrpc", s("2.0")),
        ("method", s("notifications/tools/list_changed")),
        ("params", obj(vec![])),
    ]);
    assert_eq!(
        parse_message(&note),
        Ok(JsonRpcMessage::Notification {
            method: "notifications/tools/list_changed".to_string(),
            params: Some(obj(vec![])),
        })
    );
    let response = obj(vec![("jsonrpc", s("2.0")), ("id", num("7")), ("result", obj(vec![("tools", JsonValue::Array(vec![]))]))]);
    assert_eq!(
        parse_message(&response),
        Ok(JsonRpcMessage::Response { id: 7, outcome: Ok(obj(vec![("tools", JsonValue::Array(vec![]))])) })
    );
    let failed = obj(vec![
        ("jsonrpc", s("2.0")),
        ("id", num("8")),
        ("error", obj(vec![("code", num("-32602")), ("message", s("bad params"))])),
    ]);
    assert_eq!(
        parse_message(&failed),
        Ok(JsonRpcMessage::Response { id: 8, outcome: Err(ErrorData { code: -32602, message: "bad params".to_string() }) })
    );
}

#[test]
fn malformed_envelopes_are_transport_errors() {
    for bad in [
        obj(vec![("id", num("1")), ("method", s("x"))]),
        obj(vec![("jsonrpc", s("1.0")), ("id", num("1")), ("method", s("x"))]),
        obj(vec![("jsonrpc", s("2.0")), ("id", s("abc")), ("method", s("x"))]),
        obj(vec![("jsonrpc", s("2.0")), ("id", num("1"))]),
        obj(vec![("jsonrpc", s("2.0"))]),
    ] {
        assert!(matches!(parse_message(&bad), Err(AgentError::Transport(_))));
    }
}

#[test]
fn reader_delivers_responses_and_forwards_the_rest() {
    let response = JsonRpcMessage::Response { id: 3, outcome: Ok(JsonValue::Null) };
    assert_eq!(incoming_action(&response), Incoming::Deliver(3));
    let note = JsonRpcMessage::Notification { method: "progress".to_string(), params: None };
    assert_eq!(incoming_action(&note), Incoming::Forward);
}

#[test]
fn error_codes_map_to_local_errors() {
    let e = |code: i64| error_to_agent_error(ErrorData { code, message: "m".to_string() });
    assert_eq!(e(-32602), AgentError::InvalidParameters("m".to_string()));
    assert_eq!(e(-32601), AgentError::ToolNotFound("m".to_string()));
    assert_eq!(e(-32700), AgentError::Transport("m".to_string()));
    assert_eq!(e(-32600), AgentError::Transport("m".to_string()));
    assert_eq!(e(-32000), AgentError::ExecutionError("m".to_string()));
    assert_eq!(response_outcome(Ok(s("x"))), Ok(s("x")));
    assert!(response_outcome(Err(ErrorData { code: 1, message: "m".to_string() })).is_err());
}

#[test]
fn requests_are_built_in_order() {
    assert_eq!(
        request_json(12, "tools/call", obj(vec![("name", s("bash"))])),
        obj(vec![
            ("jsonrpc", s("2.0")),
            ("id", num("12")),
            ("method", s("tools/call")),
            ("params", obj(vec![("name", s("bash"))])),
        ])
    );
    let built = request_json(5, "ping", JsonValue::Null);
    assert!(matches!(parse_message(&built), Ok(JsonRpcMessage::Request { id: 5, .. })));
}
