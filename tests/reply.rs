use goose::budget::ResourceItem;
use goose::capabilities::{Capabilities, Extension, Tool};
use goose::json::JsonValue;
use goose::message::{AgentError, Content, Message, MessageContent, ToolCall};
use goose::reply::{has_tool_request, tool_calls_to_dispatch, tool_response_message, ReplyLoop, ReplyPhase};

fn call(name: &str) -> ToolCall {
    ToolCall::new(name, JsonValue::Object(vec![]))
}

fn add_args() -> JsonValue {
    JsonValue::Object(vec![
        ("a".to_string(), JsonValue::Number("2".to_string())),
        ("b".to_string(), JsonValue::Number("3".to_string())),
    ])
}

/// Drives a reply with a scripted provider and a tool that answers `tool_out`.
fn drive(history: Vec<Message>, script: Vec<Message>, tool_out: &dyn Fn(&ToolCall) -> Result<Vec<Content>, AgentError>) -> (Vec<Message>, Vec<Message>) {
    let mut reply = ReplyLoop::new(history);
    let mut yielded = Vec::new();
    let mut script = script.into_iter();
    loop {
        reply.budget(&vec![], &vec![], 0);
        let response = script.next().expect("provider called too often");
        let positions = reply.on_completion(response);
        yielded.push(reply.last_message().unwrap().clone());
        if reply.phase() == ReplyPhase::Done {
            break;
        }
        let last = reply.last_message().unwrap().clone();
        let outputs = positions
            .iter()
            .map(|&p| match &last.content[p] {
                MessageContent::ToolRequest(q) => tool_out(q.tool_call.as_ref().unwrap()),
                _ => unreachable!(),
            })
            .collect();
        reply.on_tool_outputs(outputs, 0);
        yielded.push(reply.last_message().unwrap().clone());
    }
    (yielded, reply.messages().clone())
}

#[test]
fn single_turn_echo() {
    let answer = Message::assistant().with_text("Hello");
    let (yielded, history) = drive(vec![Message::user().with_text("Hi")], vec![answer.clone()], &|_| Ok(vec![]));
    assert_eq!(yielded, vec![answer]);
    assert_eq!(history.len(), 2);
}

#[test]
fn one_tool_call() {
    let request = Message::assistant().with_tool_request("a1", Ok(ToolCall::new("math__add", add_args())));
    let final_answer = Message::assistant().with_text("The answer is 5");
    let (yielded, history) = drive(
        vec![Message::user().with_text("add 2 and 3")],
        vec![request.clone(), final_answer.clone()],
        &|c| {
            let mut caps = Capabilities::new();
            caps.add_extension(Extension {
                name: "math".to_string(),
                instructions: String::new(),
                tools: vec![Tool::new("add", "Adds two numbers", JsonValue::Object(vec![]))],
            });
            let (extension, tool) = caps.route_tool_call(&c.name)?;
            assert_eq!((extension, tool.as_str()), (0, "add"));
            Ok(vec![Content::text("5")])
        },
    );
    assert_eq!(yielded.len(), 3);
    assert_eq!(yielded[0], request);
    assert_eq!(yielded[1], Message::user().with_tool_response("a1", Ok(vec![Content::text("5")])));
    assert_eq!(yielded[2], final_answer);
    assert_eq!(history.len(), 4);
}

#[test]
fn parallel_tools_preserve_request_order() {
    let mut request = Message::assistant();
    request.content.push(MessageContent::tool_request("1", Ok(call("slow_tool"))));
    request.content.push(MessageContent::tool_request("2", Ok(call("fast_tool"))));
    let positions = tool_calls_to_dispatch(&request);
    assert_eq!(positions, vec![0, 1]);
    // The fast tool finishes first, yet outcomes are handed back in dispatch order.
    let outputs = vec![Ok(vec![Content::text("slow")]), Ok(vec![Content::text("fast")])];
    let response = tool_response_message(&request, outputs, 0);
    let ids: Vec<&str> = response
        .content
        .iter()
        .map(|c| match c {
            MessageContent::ToolResponse(p) => p.id.as_str(),
            _ => panic!("only tool responses"),
        })
        .collect();
    assert_eq!(ids, vec!["1", "2"]);
}

#[test]
fn malformed_call_is_answered_with_its_error() {
    let mut request = Message::assistant();
    request.content.push(MessageContent::tool_request("x", Err(AgentError::InvalidParameters("bad".to_string()))));
    request.content.push(MessageContent::text("and"));
    request.content.push(MessageContent::tool_request("y", Ok(call("ext__t"))));
    assert_eq!(tool_calls_to_dispatch(&request), vec![2]);
    let response = tool_response_message(&request, vec![Err(AgentError::ExecutionError("boom".to_string()))], 3);
    assert_eq!(response.created, 3);
    assert_eq!(
        response.content,
        vec![
            MessageContent::tool_response("x", Err(AgentError::InvalidParameters("bad".to_string()))),
            MessageContent::tool_response("y", Err(AgentError::ExecutionError("boom".to_string()))),
        ]
    );
}

#[test]
fn tool_output_listing_requests_is_not_dispatched() {
    let request = Message::assistant().with_tool_request("r", Ok(call("ext__t")));
    let payload = vec![Content::text("{\"tool_requests\": [{\"id\": \"z\"}]}")];
    let response = tool_response_message(&request, vec![Ok(payload)], 0);
    assert!(!has_tool_request(&response));
    assert!(tool_calls_to_dispatch(&response).is_empty());
}

#[test]
fn status_pair_never_reaches_the_yielded_messages() {
    let rs = vec![ResourceItem {
        extension: "developer".to_string(),
        name: "cwd".to_string(),
        uri: "str:///home".to_string(),
        content: "/home".to_string(),
        priority: 1000,
        timestamp: 0,
        token_count: 1,
    }];
    let mut reply = ReplyLoop::new(vec![Message::user().with_text("Hi")]);
    reply.budget(&rs, &vec![0], 0);
    assert_eq!(reply.messages().len(), 3);
    reply.on_completion(Message::assistant().with_text("Hello"));
    assert_eq!(reply.messages().len(), 2);
    assert_eq!(reply.messages()[1], Message::assistant().with_text("Hello"));
}

#[test]
fn context_length_retry_drops_one_resource_once() {
    let rs = vec![
        ResourceItem {
            extension: "e".to_string(),
            name: "big".to_string(),
            uri: "str:///big".to_string(),
            content: "x".to_string(),
            priority: 100,
            timestamp: 0,
            token_count: 9,
        },
        ResourceItem {
            extension: "e".to_string(),
            name: "small".to_string(),
            uri: "str:///small".to_string(),
            content: "y".to_string(),
            priority: 900,
            timestamp: 0,
            token_count: 1,
        },
    ];
    let mut reply = ReplyLoop::new(vec![Message::user().with_text("Hi")]);
    reply.budget(&rs, &vec![1, 0], 0);
    let kept = reply.on_context_exceeded(&rs, vec![1, 0], "too long".to_string(), 0).unwrap();
    assert_eq!(kept, vec![1]);
    assert_eq!(reply.messages().len(), 3);
    reply.on_completion(Message::assistant().with_text("ok"));
    assert_eq!(reply.phase(), ReplyPhase::Done);
    assert_eq!(reply.messages().len(), 2);
}

#[test]
fn second_context_length_error_is_surfaced() {
    let mut reply = ReplyLoop::new(vec![Message::user().with_text("Hi")]);
    reply.budget(&vec![], &vec![], 0);
    assert!(reply.on_context_exceeded(&vec![], vec![], "first".to_string(), 0).is_ok());
    assert_eq!(
        reply.on_context_exceeded(&vec![], vec![], "second".to_string(), 0),
        Err(AgentError::ContextLengthExceeded("second".to_string()))
    );
}

#[test]
fn cancelled_turn_rewinds_to_before_the_last_send() {
    let before = vec![Message::user().with_text("First"), Message::assistant().with_text("Response 1")];
    let mut session = goose::session::Session::new("s.jsonl".to_string(), before.clone());
    session.push_message(Message::user().with_text("run the slow tool"));
    session.push_message(Message::assistant().with_tool_request("t", Ok(call("developer__bash"))));
    session.rewind_messages();
    assert_eq!(session.messages, before);
}
