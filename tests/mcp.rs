use goose::json::JsonValue;
use goose::mcp::{call_tool_params, parse_read_resource, parse_tool_result, parse_tools};
use goose::message::{AgentError, Content};

fn s(text: &str) -> JsonValue {
    JsonValue::Str(text.to_string())
}

fn obj(entries: Vec<(&str, JsonValue)>) -> JsonValue {
    JsonValue::Object(entries.into_iter().map(|(k, v)| (k.to_string(), v)).collect())
}

#[test]
fn tool_call_parameters() {
    assert_eq!(
        call_tool_params("add", obj(vec![("a", JsonValue::Number("2".to_string()))])),
        obj(vec![("name", s("add")), ("arguments", obj(vec![("a", JsonValue::Number("2".to_string()))]))])
    );
}

#[test]
fn tools_list_result() {
    let result = obj(vec![(
        "tools",
        JsonValue::Array(vec![
            obj(vec![("name", s("add")), ("description", s("Adds")), ("inputSchema", obj(vec![]))]),
            obj(vec![("name", s("now"))]),
        ]),
    )]);
    let tools = parse_tools(&result).unwrap();
    assert_eq!(tools.len(), 2);
    assert_eq!(tools[0].name, "add");
    assert_eq!(tools[0].description, "Adds");
    assert_eq!(tools[1].description, "");
    assert!(parse_tools(&obj(vec![("tools", JsonValue::Array(vec![obj(vec![])]))])).is_err());
    assert!(parse_tools(&obj(vec![])).is_err());
}

#[test]
fn tool_call_result() {
    let result = obj(vec![(
        "content",
        JsonValue::Array(vec![
            obj(vec![("type", s("text")), ("text", s("5"))]),
            obj(vec![("type", s("image")), ("data", s("AAAA")), ("mimeType", s("image/png"))]),
        ]),
    )]);
    assert_eq!(parse_tool_result(&result), Ok(vec![Content::text("5"), Content::image("AAAA", "image/png")]));
    let failed = obj(vec![
        ("content", JsonValue::Array(vec![obj(vec![("type", s("text")), ("text", s("boom"))])])),
        ("isError", JsonValue::Bool(true)),
    ]);
    assert!(matches!(parse_tool_result(&failed), Err(AgentError::ExecutionError(_))));
    let odd = obj(vec![("content", JsonValue::Array(vec![obj(vec![("type", s("audio"))])]))]);
    assert!(matches!(parse_tool_result(&odd), Err(AgentError::Transport(_))));
}

#[test]
fn tool_output_listing_tool_requests_is_plain_text() {
    let result = obj(vec![(
        "content",
        JsonValue::Array(vec![obj(vec![("type", s("text")), ("text", s("[{\"type\":\"tool_request\",\"id\":\"x\"}]"))])]),
    )]);
    assert_eq!(
        parse_tool_result(&result),
        Ok(vec![Content::text("[{\"type\":\"tool_request\",\"id\":\"x\"}]")])
    );
}

#[test]
fn read_resource_result() {
    let text = obj(vec![("contents", JsonValue::Array(vec![obj(vec![("uri", s("str:///a")), ("text", s("hello"))])]))]);
    assert_eq!(parse_read_resource(&text), Ok("hello".to_string()));
    let blob = obj(vec![("contents", JsonValue::Array(vec![obj(vec![("blob", s("AAAA"))])]))]);
    assert_eq!(parse_read_resource(&blob), Ok("AAAA".to_string()));
    assert!(parse_read_resource(&obj(vec![("contents", JsonValue::Array(vec![]))])).is_err());
}
