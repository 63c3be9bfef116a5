use goose::developer::DeveloperTool;
use goose::message::AgentError;
use goose::router::{edit_snippet, resolve_path, router_tool_for_name, DeveloperRouter, PromptSet};

#[test]
fn router_offers_four_tools() {
    let router = DeveloperRouter::new("/repo", "linux");
    let names: Vec<&str> = router.list_tools().iter().map(|t| t.name.as_str()).collect();
    assert_eq!(names, vec!["shell", "text_editor", "list_windows", "screen_capture"]);
    assert_eq!(router.name(), "developer");
    assert!(router.instructions().ends_with("operating system: linux\ncurrent directory: /repo\n\n"));
}

#[test]
fn router_tools_by_name() {
    assert_eq!(router_tool_for_name("shell"), Ok(DeveloperTool::Bash));
    assert_eq!(router_tool_for_name("screen_capture"), Ok(DeveloperTool::ScreenCapture));
    assert_eq!(router_tool_for_name("bash"), Err(AgentError::ToolNotFound("Tool bash not found".to_string())));
}

#[test]
fn paths_must_be_absolute() {
    assert_eq!(resolve_path("/a/b.py", "/a/b.py", "/repo"), Ok("/a/b.py".to_string()));
    assert_eq!(
        resolve_path("b.py", "b.py", "/repo"),
        Err(AgentError::InvalidParameters(
            "The path b.py is not an absolute path, did you possibly mean /repo/b.py?".to_string()
        ))
    );
}

#[test]
fn router_undo() {
    let mut router = DeveloperRouter::new("/repo", "linux");
    router.save_file_history("/repo/a", "v1".to_string());
    assert_eq!(router.undo_edit("/repo/a"), Ok("v1".to_string()));
    assert!(router.undo_edit("/repo/a").is_err());
}

#[test]
fn prompts_by_name() {
    let mut prompts = PromptSet::new();
    assert!(prompts.insert("explain".to_string(), "Explain the code".to_string()));
    assert!(!prompts.insert("explain".to_string(), "second".to_string()));
    assert!(prompts.insert("blank".to_string(), "  ".to_string()));
    assert_eq!(prompts.get_prompt("  explain "), Ok("Explain the code".to_string()));
    assert_eq!(prompts.get_prompt("missing"), Err(AgentError::NotFound("Prompt 'missing' not found".to_string())));
    assert!(matches!(prompts.get_prompt(" "), Err(AgentError::InvalidParameters(_))));
    assert!(matches!(prompts.get_prompt("blank"), Err(AgentError::ExecutionError(_))));
}

#[test]
fn snippet_around_the_edit() {
    let content = "l0\nl1\nl2\nl3\nl4\nl5\nold\nl7\nl8\nl9\nl10\nl11\nl12\n";
    let new_content = content.replace("old", "new1\nnew2");
    let snippet = edit_snippet(content, "old", "new1\nnew2", &new_content);
    assert_eq!(snippet, "l2\nl3\nl4\nl5\nnew1\nnew2\nl7\nl8\nl9\nl10");
}

#[test]
fn snippet_at_the_start_and_with_crlf() {
    let content = "old\r\nb\r\nc";
    let new_content = content.replace("old", "x");
    assert_eq!(edit_snippet(content, "old", "x", &new_content), "x\nb\nc");
    assert_eq!(edit_snippet("", "", "", ""), "");
}
