use goose::json::JsonValue;
use goose::message::{AgentError, Message, MessageContent, Role, ToolCall};
use goose::session::{check_session_file, generate_new_session_path, raw_message, session_path, Session};

fn create_test_session() -> Session {
    Session::new("session.jsonl".to_string(), Vec::new())
}

#[test]
fn test_rewind_messages_only_user() {
    let mut session = create_test_session();
    session.messages.push(Message::user().with_text("Hello"));

    session.rewind_messages();
    assert!(session.messages.is_empty());
}

#[test]
fn test_rewind_messages_user_then_assistant() {
    let mut session = create_test_session();
    session.messages.push(Message::user().with_text("Hello"));
    session.messages.push(Message::assistant().with_text("World"));

    session.rewind_messages();
    assert!(session.messages.is_empty());
}

#[test]
fn test_rewind_messages_multiple_user_messages() {
    let mut session = create_test_session();
    session.messages.push(Message::user().with_text("First"));
    session.messages.push(Message::assistant().with_text("Response 1"));
    session.messages.push(Message::user().with_text("Second"));
    session.rewind_messages();
    assert_eq!(session.messages.len(), 2);
    assert_eq!(session.messages[0].role, Role::User);
    assert_eq!(session.messages[1].role, Role::Assistant);
    assert_eq!(session.messages[0].content[0], MessageContent::text("First"));
    assert_eq!(session.messages[1].content[0], MessageContent::text("Response 1"));
}

#[test]
fn test_rewind_messages_after_interrupted_tool_request() {
    let mut session = create_test_session();
    session.messages.push(Message::user().with_text("First"));
    session.messages.push(Message::assistant().with_text("Response 1"));
    session.messages.push(Message::user().with_text("Use tool"));

    let mut mixed_msg = Message::assistant();
    mixed_msg.content.push(MessageContent::text("Using tool"));
    mixed_msg.content.push(MessageContent::tool_request(
        "test",
        Ok(ToolCall::new("test", JsonValue::Str("test".to_string()))),
    ));
    session.messages.push(mixed_msg);

    session.messages.push(
        Message::user().with_tool_response("test", Err(AgentError::ExecutionError("Test".to_string()))),
    );

    session.rewind_messages();
    assert_eq!(session.messages.len(), 2);
    assert_eq!(session.messages[0].role, Role::User);
    assert_eq!(session.messages[1].role, Role::Assistant);
    assert_eq!(session.messages[0].content[0], MessageContent::text("First"));
    assert_eq!(session.messages[1].content[0], MessageContent::text("Response 1"));
}

#[test]
fn rewind_without_user_text_clears_history() {
    let mut session = create_test_session();
    session.messages.push(Message::assistant().with_text("Hi"));
    session.messages.push(Message::user().with_tool_response("a", Ok(Vec::new())));
    session.rewind_messages();
    assert!(session.messages.is_empty());
}

#[test]
fn rewind_of_empty_history_is_empty() {
    let mut session = create_test_session();
    session.rewind_messages();
    assert!(session.messages.is_empty());
    assert_eq!(session.session_file, "session.jsonl");
}

#[test]
fn rewind_leaves_assistant_last() {
    let mut session = create_test_session();
    session.messages.push(Message::user().with_text("a"));
    session.messages.push(Message::assistant().with_text("b"));
    session.messages.push(Message::user().with_text("c"));
    session.messages.push(Message::assistant().with_text("d"));
    session.rewind_messages();
    assert_eq!(session.messages.len(), 2);
    assert_eq!(session.messages.last().unwrap().role, Role::Assistant);
}

#[test]
#[should_panic(expected = "Cannot resume session: file")]
fn test_resume_nonexistent_session_panics() {
    let path = session_path(Some("nonexistent-session".to_string()), "/tmp/sessions", "abcdefgh");
    if let Err(AgentError::InvalidParameters(m)) = check_session_file(&path, true, false) {
        panic!("{}", m);
    }
}

#[test]
fn session_paths() {
    assert_eq!(session_path(Some("work".to_string()), "/s", "zzz"), "/s/work.jsonl");
    assert_eq!(session_path(None, "/s", "abcdefgh"), "/s/abcdefgh.jsonl");
}

#[test]
fn session_file_guards() {
    assert!(check_session_file("/s/a.jsonl", true, true).is_ok());
    assert!(check_session_file("/s/a.jsonl", false, false).is_ok());
    assert_eq!(
        check_session_file("/s/a.jsonl", false, true),
        Err(AgentError::InvalidParameters(
            "Session file /s/a.jsonl already exists. Use --resume to continue an existing session".to_string()
        ))
    );
}

#[test]
fn generated_names_until_free() {
    let names: Vec<String> = ["a", "b", "c", "d", "e", "f"].iter().map(|s| s.to_string()).collect();
    assert_eq!(generate_new_session_path("/s", &names, &vec![true, true, false, false, false, false]), Ok("/s/c.jsonl".to_string()));
    assert!(generate_new_session_path("/s", &names, &vec![true, true, true, true, true, false]).is_err());
    assert!(generate_new_session_path("/s", &vec![], &vec![]).is_err());
}

#[test]
fn raw_messages_are_assistant_text() {
    let m = raw_message("Closing session.");
    assert_eq!(m.role, Role::Assistant);
    assert_eq!(m.content, vec![MessageContent::text("Closing session.")]);
}
