use goose::developer::{
    check_char_count, check_file_size, check_replace_allowed, check_write_allowed, developer_instructions,
    developer_tools, parse_bash_args, parse_text_editor_args, resource_still_valid, str_replace_content,
    tool_for_name, DeveloperSystem, DeveloperTool, EditorCommand,
};
use goose::developer::{encode_blob, file_read_kind, FileKind, ResourceRead};
use goose::json::JsonValue;
use goose::message::AgentError;

fn args(entries: Vec<(&str, &str)>) -> JsonValue {
    JsonValue::Object(entries.into_iter().map(|(k, v)| (k.to_string(), JsonValue::Str(v.to_string()))).collect())
}

fn message(e: AgentError) -> String {
    match e {
        AgentError::ExecutionError(m) | AgentError::InvalidParameters(m) => m,
        other => panic!("unexpected error {:?}", other),
    }
}

#[test]
fn tools_by_name() {
    assert_eq!(tool_for_name("bash"), Ok(DeveloperTool::Bash));
    assert_eq!(tool_for_name("text_editor"), Ok(DeveloperTool::TextEditor));
    assert_eq!(tool_for_name("screen_capture"), Ok(DeveloperTool::ScreenCapture));
    assert_eq!(tool_for_name("list_windows"), Ok(DeveloperTool::ListWindows));
    assert_eq!(tool_for_name("rm"), Err(AgentError::ToolNotFound("rm".to_string())));
}

#[test]
fn test_bash_missing_parameters() {
    let error = parse_bash_args(&args(vec![("working_dir", ".")])).unwrap_err();
    assert!(matches!(error, AgentError::InvalidParameters(_)));
}

#[test]
fn bash_command_is_taken() {
    assert_eq!(parse_bash_args(&args(vec![("working_dir", "."), ("command", "pwd")])), Ok("pwd".to_string()));
}

#[test]
fn bash_refuses_cat() {
    let error = parse_bash_args(&args(vec![("command", "  cat README.md")])).unwrap_err();
    assert!(matches!(error, AgentError::InvalidParameters(_)));
    assert_eq!(parse_bash_args(&args(vec![("command", "ca")])), Ok("ca".to_string()));
}

#[test]
fn text_editor_commands() {
    assert_eq!(
        parse_text_editor_args(&args(vec![("command", "view"), ("path", "a.txt")])),
        Ok(EditorCommand::View { path: "a.txt".to_string() })
    );
    assert_eq!(
        parse_text_editor_args(&args(vec![("command", "write"), ("path", "a"), ("file_text", "Hello, world!")])),
        Ok(EditorCommand::Write { path: "a".to_string(), file_text: "Hello, world!".to_string() })
    );
    assert_eq!(
        parse_text_editor_args(&args(vec![("command", "str_replace"), ("path", "a"), ("old_str", "world"), ("new_str", "Rust")])),
        Ok(EditorCommand::StrReplace { path: "a".to_string(), old_str: "world".to_string(), new_str: "Rust".to_string() })
    );
    assert_eq!(
        parse_text_editor_args(&args(vec![("command", "undo_edit"), ("path", "a")])),
        Ok(EditorCommand::UndoEdit { path: "a".to_string() })
    );
}

#[test]
fn text_editor_bad_arguments() {
    for bad in [
        args(vec![("path", "a")]),
        args(vec![("command", "view")]),
        args(vec![("command", "write"), ("path", "a")]),
        args(vec![("command", "str_replace"), ("path", "a"), ("old_str", "x")]),
        args(vec![("command", "delete"), ("path", "a")]),
    ] {
        assert!(matches!(parse_text_editor_args(&bad), Err(AgentError::InvalidParameters(_))));
    }
    assert_eq!(
        parse_text_editor_args(&args(vec![("command", "delete"), ("path", "a")])),
        Err(AgentError::InvalidParameters("Unknown command 'delete'".to_string()))
    );
}

#[test]
fn test_text_editor_size_limits() {
    assert_eq!(check_file_size("small.txt", 2 * 1024 * 1024), Ok(()));
    let error = check_file_size("large.txt", 3 * 1024 * 1024).unwrap_err();
    assert!(matches!(error, AgentError::ExecutionError(_)));
    let text = message(error);
    assert!(text.contains("too large"));
    assert!(text.contains("Maximum size is 2MB"));
    assert_eq!(text, "File 'large.txt' is too large (3.00MB). Maximum size is 2MB to prevent memory issues.");

    assert_eq!(check_char_count("many_chars.txt", 1 << 20), Ok(()));
    let error = check_char_count("many_chars.txt", (1 << 20) + 1).unwrap_err();
    assert!(matches!(error, AgentError::ExecutionError(_)));
    let text = message(error);
    assert!(text.contains("too many characters"));
    assert!(text.contains("Maximum character count is"));
    assert_eq!(text, "File 'many_chars.txt' has too many characters (1048577). Maximum character count is 1048576.");
}

#[test]
fn size_message_rounds_to_hundredths() {
    let text = message(check_file_size("f", 2 * 1024 * 1024 + 52429).unwrap_err());
    assert!(text.contains("(2.05MB)"), "{}", text);
}

#[test]
fn str_replace_exactly_once() {
    assert_eq!(str_replace_content("Hello, world!", "world", "Rust"), Ok("Hello, Rust!".to_string()));
}

#[test]
fn str_replace_missing_or_repeated_is_refused() {
    assert!(matches!(str_replace_content("Hello", "world", "Rust"), Err(AgentError::InvalidParameters(_))));
    assert!(matches!(str_replace_content("aa aa", "aa", "b"), Err(AgentError::InvalidParameters(_))));
    assert!(matches!(str_replace_content("aaa", "aa", "b"), Ok(_)));
    assert_eq!(str_replace_content("", "", "new"), Ok("new".to_string()));
    assert!(matches!(str_replace_content("x", "", "new"), Err(AgentError::InvalidParameters(_))));
}

#[test]
fn write_and_replace_preconditions() {
    assert!(check_write_allowed("a", false, false).is_ok());
    assert!(check_write_allowed("a", true, true).is_ok());
    assert!(matches!(check_write_allowed("a", true, false), Err(AgentError::InvalidParameters(_))));
    assert!(check_replace_allowed("a", true, true).is_ok());
    assert_eq!(
        check_replace_allowed("a", false, true),
        Err(AgentError::InvalidParameters("File 'a' does not exist".to_string()))
    );
    assert_eq!(
        check_replace_allowed("a", true, false),
        Err(AgentError::InvalidParameters("You must view 'a' before editing it".to_string()))
    );
}

#[test]
fn undo_edit_restores_saved_contents() {
    let mut dev = DeveloperSystem::new("/work", "linux");
    assert!(matches!(dev.undo_edit("/work/a"), Err(AgentError::InvalidParameters(_))));
    dev.save_file_history("/work/a", "First line".to_string());
    dev.save_file_history("/work/a", "Second line".to_string());
    assert_eq!(dev.undo_edit("/work/a"), Ok("Second line".to_string()));
    assert_eq!(dev.undo_edit("/work/a"), Ok("First line".to_string()));
    assert!(dev.undo_edit("/work/a").is_err());
}

#[test]
fn developer_system_starts_with_cwd_resource() {
    let dev = DeveloperSystem::new("/work", "linux");
    assert_eq!(dev.status().len(), 1);
    assert_eq!(dev.status()[0].uri, "str:////work");
    assert_eq!(dev.status()[0].name, "cwd");
    assert!(dev.is_active("str:////work"));
    assert_eq!(dev.name(), "DeveloperSystem");
    assert!(dev.instructions().contains("The operating system for these commands is linux"));
    let names: Vec<&str> = dev.tools().iter().map(|t| t.name.as_str()).collect();
    assert_eq!(names, vec!["bash", "text_editor", "screen_capture", "list_windows"]);
}

#[test]
fn activation_and_retention() {
    let mut dev = DeveloperSystem::new("/work", "linux");
    dev.activate("file:///work/a.txt", 5);
    dev.activate("file:///work/a.txt", 9);
    assert_eq!(dev.status().len(), 2);
    assert_eq!(dev.status()[1].timestamp, 9);
    dev.retain_resources(&vec![true, false]);
    assert_eq!(dev.status().len(), 1);
    assert!(!dev.is_active("file:///work/a.txt"));
}

#[test]
fn resource_validity_by_scheme() {
    assert!(resource_still_valid("str", false));
    assert!(resource_still_valid("file", true));
    assert!(!resource_still_valid("file", false));
    assert!(!resource_still_valid("http", true));
}

#[test]
fn tools_and_instructions() {
    assert_eq!(developer_tools().len(), 4);
    let text = developer_instructions("macos");
    assert!(text.starts_with("The developer system is loaded"));
    assert!(text.contains("is macos\n"));
}

fn resource(uri: &str, mime: &str) -> goose::developer::Resource {
    goose::developer::Resource {
        uri: uri.to_string(),
        mime_type: mime.to_string(),
        name: uri.to_string(),
        priority: 0,
        timestamp: 0,
    }
}

#[test]
fn test_read_resource() {
    let mut system = DeveloperSystem::new("/work", "linux");

    // A registered text file is read from disk as text.
    let uri = "file:///tmp/test.txt";
    system.register_resource(resource(uri, "text"));
    assert_eq!(system.read_resource(uri), Ok(ResourceRead::File { mime_type: "text".to_string() }));
    assert_eq!(file_read_kind("text"), Ok(FileKind::Text));

    // A registered blob is read as base64.
    let blob_uri = "file:///tmp/test.bin";
    system.register_resource(resource(blob_uri, "blob"));
    assert_eq!(system.read_resource(blob_uri), Ok(ResourceRead::File { mime_type: "blob".to_string() }));
    assert_eq!(file_read_kind("blob"), Ok(FileKind::Blob));
    assert_eq!(encode_blob(&b"Binary content".to_vec()), "QmluYXJ5IGNvbnRlbnQ=");

    // A str:// URI carries its text.
    let test_content = "Hello, world!";
    let str_uri = format!("str:///{}", test_content);
    system.register_resource(resource(&str_uri, "text"));
    assert_eq!(system.read_resource(&str_uri), Ok(ResourceRead::Text(test_content.to_string())));

    // A str:// URI of another type is refused.
    system.register_resource(resource(&str_uri, "blob"));
    let error = system.read_resource(&str_uri).unwrap_err();
    assert!(matches!(error, AgentError::InvalidParameters(_)));
    assert!(message(error).contains("only supports text mime type"));

    // An unknown URI is refused.
    let error = system.read_resource("invalid://uri").unwrap_err();
    assert!(matches!(error, AgentError::InvalidParameters(_)));

    // A file that was never registered.
    let error = system.read_resource("file:///tmp/not_registered.txt").unwrap_err();
    assert!(matches!(error, AgentError::ExecutionError(_)));
    assert!(message(error).contains("must be registered before reading"));

    // An unknown type.
    let error = file_read_kind("invalid").unwrap_err();
    assert!(matches!(error, AgentError::InvalidParameters(_)));
    assert!(message(error).contains("Unsupported mime type"));
}

#[test]
fn unparsable_uri_and_other_schemes() {
    let mut system = DeveloperSystem::new("/work", "linux");
    let error = system.read_resource("not a uri").unwrap_err();
    assert!(message(error).starts_with("Invalid URI: "));
    system.register_resource(resource("http://example.com/x", "text"));
    assert_eq!(
        system.read_resource("http://example.com/x"),
        Err(AgentError::InvalidParameters("Unsupported URI scheme: http".to_string()))
    );
    system.register_resource(resource("str:///a%20b", "text"));
    assert_eq!(system.read_resource("str:///a%20b"), Ok(ResourceRead::Text("a b".to_string())));
    system.register_resource(resource("str:///%FF", "text"));
    let error = system.read_resource("str:///%FF").unwrap_err();
    assert!(message(error).starts_with("Failed to decode str:// content: "));
}

#[test]
fn test_text_editor_undo_edit() {
    let mut dev = DeveloperSystem::new("/work", "linux");
    dev.save_file_history("/work/test.txt", "".to_string());
    dev.save_file_history("/work/test.txt", "First line".to_string());
    assert_eq!(dev.undo_edit("/work/test.txt"), Ok("First line".to_string()));
}

#[test]
fn test_bash_invalid_directory() {
    let error = parse_bash_args(&args(vec![("working_dir", "non_existent_dir")])).unwrap_err();
    assert!(matches!(error, AgentError::InvalidParameters(_)));
}
