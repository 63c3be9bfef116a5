use goose::anthropic::{
    messages_to_anthropic_spec, parse_anthropic_response, system_to_anthropic_spec, tools_to_anthropic_spec,
    update_request_for_anthropic,
};
use goose::capabilities::Tool;
use goose::json::JsonValue;
use goose::message::{AgentError, Content, Message, MessageContent, Role, ToolCall};

fn s(text: &str) -> JsonValue {
    JsonValue::Str(text.to_string())
}

fn obj(entries: Vec<(&str, JsonValue)>) -> JsonValue {
    JsonValue::Object(entries.into_iter().map(|(k, v)| (k.to_string(), v)).collect())
}

#[test]
fn test_complete_basic() {
    let response = obj(vec![
        ("id", s("msg_123")),
        ("type", s("message")),
        ("role", s("assistant")),
        ("content", JsonValue::Array(vec![obj(vec![("type", s("text")), ("text", s("Hello! What would you like to do today?"))])])),
        ("model", s("sonnet-latest")),
        ("stop_reason", s("end_turn")),
    ]);
    let message = parse_anthropic_response(&response).unwrap();
    assert_eq!(message.role, Role::Assistant);
    assert_eq!(message.content, vec![MessageContent::text("Hello! What would you like to do today?")]);
}

#[test]
fn test_complete_with_tools() {
    let input = obj(vec![("expression", s("2 + 2"))]);
    let response = obj(vec![(
        "content",
        JsonValue::Array(vec![obj(vec![
            ("type", s("tool_use")),
            ("id", s("tool_1")),
            ("name", s("calculator")),
            ("input", input.clone()),
        ])]),
    )]);
    let message = parse_anthropic_response(&response).unwrap();
    assert_eq!(message, Message::assistant().with_tool_request("tool_1", Ok(ToolCall::new("calculator", input))));
}

#[test]
fn unknown_blocks_are_skipped_and_broken_tool_use_fails() {
    let response = obj(vec![(
        "content",
        JsonValue::Array(vec![obj(vec![("type", s("thinking"))]), obj(vec![("type", s("text"))])]),
    )]);
    assert!(parse_anthropic_response(&response).unwrap().content.is_empty());
    let broken = obj(vec![("content", JsonValue::Array(vec![obj(vec![("type", s("tool_use")), ("id", s("x"))])]))]);
    assert_eq!(
        parse_anthropic_response(&broken),
        Err(AgentError::ExecutionError("Missing tool_use name".to_string()))
    );
    assert!(matches!(parse_anthropic_response(&obj(vec![])), Err(AgentError::ExecutionError(_))));
}

#[test]
fn system_block_is_cached_text() {
    assert_eq!(
        system_to_anthropic_spec("You are a helpful assistant."),
        JsonValue::Array(vec![obj(vec![
            ("type", s("text")),
            ("text", s("You are a helpful assistant.")),
            ("cache_control", obj(vec![("type", s("ephemeral"))])),
        ])])
    );
}

#[test]
fn tools_are_deduplicated_and_last_is_cached() {
    let schema = obj(vec![("type", s("object"))]);
    let tools = vec![
        Tool::new("calculator", "Calculate mathematical expressions", schema.clone()),
        Tool::new("calculator", "second", schema.clone()),
        Tool::new("clock", "Tell the time", schema.clone()),
    ];
    let specs = tools_to_anthropic_spec(&tools);
    assert_eq!(
        specs,
        vec![
            obj(vec![
                ("name", s("calculator")),
                ("description", s("Calculate mathematical expressions")),
                ("input_schema", schema.clone()),
            ]),
            obj(vec![
                ("name", s("clock")),
                ("description", s("Tell the time")),
                ("input_schema", schema.clone()),
                ("cache_control", obj(vec![("type", s("ephemeral"))])),
            ]),
        ]
    );
    assert!(tools_to_anthropic_spec(&vec![]).is_empty());
}

fn cached(mut block: Vec<(&str, JsonValue)>) -> JsonValue {
    block.push(("cache_control", obj(vec![("type", s("ephemeral"))])));
    obj(block)
}

#[test]
fn empty_messages_send_a_placeholder() {
    assert_eq!(
        messages_to_anthropic_spec(&vec![]),
        vec![obj(vec![
            ("role", s("user")),
            ("content", JsonValue::Array(vec![cached(vec![("type", s("text")), ("text", s("Ignore"))])])),
        ])]
    );
}

#[test]
fn conversation_in_anthropic_shape() {
    let args = obj(vec![("expression", s("2 + 2"))]);
    let mut image_only = Message::user();
    image_only.content.push(MessageContent::Image { data: "AAAA".to_string(), mime_type: "image/png".to_string() });
    let messages = vec![
        Message::user().with_text("What is 2 + 2?"),
        Message::assistant().with_tool_request("t1", Ok(ToolCall::new("calculator", args.clone()))),
        image_only,
        Message::user().with_tool_response("t1", Ok(vec![Content::text("4"), Content::text("done")])),
    ];
    assert_eq!(
        messages_to_anthropic_spec(&messages),
        vec![
            obj(vec![
                ("role", s("user")),
                ("content", JsonValue::Array(vec![cached(vec![("type", s("text")), ("text", s("What is 2 + 2?"))])])),
            ]),
            obj(vec![
                ("role", s("assistant")),
                (
                    "content",
                    JsonValue::Array(vec![obj(vec![
                        ("type", s("tool_use")),
                        ("id", s("t1")),
                        ("name", s("calculator")),
                        ("input", args.clone()),
                    ])]),
                ),
            ]),
            obj(vec![
                ("role", s("user")),
                (
                    "content",
                    JsonValue::Array(vec![cached(vec![
                        ("type", s("tool_result")),
                        ("tool_use_id", s("t1")),
                        ("content", s("4\ndone")),
                    ])]),
                ),
            ]),
        ]
    );
}

#[test]
fn only_the_last_two_user_messages_are_cached() {
    let messages = vec![
        Message::user().with_text("one"),
        Message::user().with_text("two"),
        Message::user().with_text("three"),
    ];
    let out = messages_to_anthropic_spec(&messages);
    let plain = |t: &str| obj(vec![("role", s("user")), ("content", JsonValue::Array(vec![obj(vec![("type", s("text")), ("text", s(t))])]))]);
    let marked = |t: &str| obj(vec![("role", s("user")), ("content", JsonValue::Array(vec![cached(vec![("type", s("text")), ("text", s(t))])]))]);
    assert_eq!(out, vec![plain("one"), marked("two"), marked("three")]);
}

#[test]
fn failed_calls_are_not_sent() {
    let messages = vec![Message::assistant().with_tool_request("x", Err(AgentError::InvalidParameters("bad".to_string())))];
    assert_eq!(messages_to_anthropic_spec(&messages).len(), 1);
    assert_eq!(messages_to_anthropic_spec(&messages)[0], obj(vec![
        ("role", s("user")),
        ("content", JsonValue::Array(vec![cached(vec![("type", s("text")), ("text", s("Ignore"))])])),
    ]));
}

fn chat(role: &str, content: &str) -> JsonValue {
    obj(vec![("role", s(role)), ("content", s(content))])
}

fn cached_chat(role: &str, content: &str) -> JsonValue {
    obj(vec![
        ("role", s(role)),
        ("content", JsonValue::Array(vec![cached(vec![("type", s("text")), ("text", s(content))])])),
    ])
}

#[test]
fn openrouter_request_gets_cache_marks() {
    let payload = obj(vec![
        ("model", s("anthropic/sonnet")),
        (
            "messages",
            JsonValue::Array(vec![
                chat("system", "be brief"),
                chat("user", "one"),
                chat("assistant", "a"),
                chat("user", "two"),
                chat("user", "three"),
            ]),
        ),
    ]);
    assert_eq!(
        update_request_for_anthropic(payload),
        obj(vec![
            ("model", s("anthropic/sonnet")),
            (
                "messages",
                JsonValue::Array(vec![
                    cached_chat("system", "be brief"),
                    chat("user", "one"),
                    chat("assistant", "a"),
                    cached_chat("user", "two"),
                    cached_chat("user", "three"),
                ]),
            ),
        ])
    );
}

#[test]
fn openrouter_request_without_messages_is_unchanged() {
    let payload = obj(vec![("model", s("m"))]);
    assert_eq!(update_request_for_anthropic(payload.clone()), payload);
    let listed = obj(vec![("messages", JsonValue::Array(vec![obj(vec![("role", s("user")), ("content", JsonValue::Array(vec![]))])]))]);
    assert_eq!(update_request_for_anthropic(listed.clone()), listed);
}
