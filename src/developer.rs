//! The developer extension's decisions: which tool a call names, what its
//! arguments say, the limits on viewing a file, the single-occurrence rule of
//! `str_replace`, and the per-file edit history behind `undo_edit`. Reading,
//! writing and running commands are left to the caller.
use vstd::prelude::*;
use crate::json::{JsonValue, str_field_of};
use crate::message::AgentError;
use crate::capabilities::Tool;
use crate::text::{concat_str, count_matches, count_occurrences, decimal, replace_all, replace_str, starts_with, str_eq, to_decimal, trim_start, trim_start_spec};

verus! {

/// Largest file, in bytes, that `view` reads.
pub const MAX_FILE_SIZE: u64 = 2 * 1024 * 1024;

/// Most characters that `view` shows.
pub const MAX_CHAR_COUNT: u64 = 1024 * 1024;

/// The tools of the developer extension.
#[derive(Clone, Copy, Debug, PartialEq, Eq, Structural)]
pub enum DeveloperTool {
    Bash,
    TextEditor,
    ScreenCapture,
    ListWindows,
}

/// The developer tool called `name`.
pub open spec fn tool_named(name: Seq<char>) -> Option<DeveloperTool> {
    if name == "bash"@ {
        Some(DeveloperTool::Bash)
    } else if name == "text_editor"@ {
        Some(DeveloperTool::TextEditor)
    } else if name == "screen_capture"@ {
        Some(DeveloperTool::ScreenCapture)
    } else if name == "list_windows"@ {
        Some(DeveloperTool::ListWindows)
    } else {
        None
    }
}

/// The tool called `name`, or `ToolNotFound` naming it.
pub fn tool_for_name(name: &str) -> (r: Result<DeveloperTool, AgentError>)
    ensures
        match tool_named(name@) {
            Some(t) => r == Ok::<DeveloperTool, AgentError>(t),
            None => r matches Err(e) && e matches AgentError::ToolNotFound(n) && n@ == name@,
        },
{
    if str_eq(name, "bash") {
        Ok(DeveloperTool::Bash)
    } else if str_eq(name, "text_editor") {
        Ok(DeveloperTool::TextEditor)
    } else if str_eq(name, "screen_capture") {
        Ok(DeveloperTool::ScreenCapture)
    } else if str_eq(name, "list_windows") {
        Ok(DeveloperTool::ListWindows)
    } else {
        Err(AgentError::ToolNotFound(name.to_owned()))
    }
}

/// The command, once leading white space is dropped, starts with `cat`.
pub open spec fn starts_with_cat(c: Seq<char>) -> bool {
    trim_start_spec(c).len() >= 3 && trim_start_spec(c).take(3) == "cat"@
}

/// The shell command to run, from the `bash` tool's arguments. A missing
/// command, or one that starts with `cat` (files are read with the editor),
/// is refused.
pub fn parse_bash_args(args: &JsonValue) -> (r: Result<String, AgentError>)
    ensures
        match str_field_of(*args, "command"@) {
            Some(c) => if starts_with_cat(c) {
                r matches Err(e) && e is InvalidParameters
            } else {
                r matches Ok(cmd) && cmd@ == c
            },
            None => r matches Err(e) && e is InvalidParameters,
        },
{
    match args.get_str("command") {
        None => Err(AgentError::InvalidParameters("The command string is required".to_owned())),
        Some(command) => {
            proof {
                reveal_strlit("cat");
            }
            let trimmed = trim_start(command.as_str());
            if starts_with(trimmed, "cat") {
                Err(AgentError::InvalidParameters(
                    "Do not use `cat` to read files, use the view mode on the text editor tool".to_owned(),
                ))
            } else {
                Ok(command.clone())
            }
        },
    }
}

/// An operation of the text editor tool.
#[derive(Clone, Debug, PartialEq)]
pub enum EditorCommand {
    View { path: String },
    Write { path: String, file_text: String },
    StrReplace { path: String, old_str: String, new_str: String },
    UndoEdit { path: String },
}

/// The `text_editor` tool's arguments hold `command` and `path` as strings,
/// and what that command needs.
pub open spec fn editor_command_of(args: JsonValue, cmd: EditorCommand) -> bool {
    let command = str_field_of(args, "command"@);
    let path = str_field_of(args, "path"@);
    match cmd {
        EditorCommand::View { path: p } => command == Some("view"@) && path == Some(p@),
        EditorCommand::Write { path: p, file_text } => command == Some("write"@) && path == Some(p@)
            && str_field_of(args, "file_text"@) == Some(file_text@),
        EditorCommand::StrReplace { path: p, old_str, new_str } => command == Some("str_replace"@)
            && path == Some(p@) && str_field_of(args, "old_str"@) == Some(old_str@) && str_field_of(
            args,
            "new_str"@,
        ) == Some(new_str@),
        EditorCommand::UndoEdit { path: p } => command == Some("undo_edit"@) && path == Some(p@),
    }
}

/// The arguments name a known command, a path, and what that command needs.
pub open spec fn editor_args_ok(args: JsonValue) -> bool {
    match (str_field_of(args, "command"@), str_field_of(args, "path"@)) {
        (Some(c), Some(_)) => if c == "view"@ {
            true
        } else if c == "write"@ {
            str_field_of(args, "file_text"@) is Some
        } else if c == "str_replace"@ {
            str_field_of(args, "old_str"@) is Some && str_field_of(args, "new_str"@) is Some
        } else {
            c == "undo_edit"@
        },
        _ => false,
    }
}

/// The operation the `text_editor` tool's arguments ask for. Anything missing
/// or unknown is `InvalidParameters`.
pub fn parse_text_editor_args(args: &JsonValue) -> (r: Result<EditorCommand, AgentError>)
    ensures
        r is Ok <==> editor_args_ok(*args),
        r matches Ok(c) ==> editor_command_of(*args, c),
        r matches Err(e) ==> e is InvalidParameters,
{
    let command = match args.get_str("command") {
        Some(c) => c,
        None => {
            return Err(AgentError::InvalidParameters("Missing 'command' parameter".to_owned()));
        },
    };
    let path = match args.get_str("path") {
        Some(p) => p,
        None => {
            return Err(AgentError::InvalidParameters("Missing 'path' parameter".to_owned()));
        },
    };
    if str_eq(command.as_str(), "view") {
        let r = EditorCommand::View { path: path.clone() };
        assert(editor_command_of(*args, r));
        Ok(r)
    } else if str_eq(command.as_str(), "write") {
        match args.get_str("file_text") {
            Some(t) => {
                let r = EditorCommand::Write { path: path.clone(), file_text: t.clone() };
                assert(editor_command_of(*args, r));
                Ok(r)
            },
            None => Err(AgentError::InvalidParameters("Missing 'file_text' parameter".to_owned())),
        }
    } else if str_eq(command.as_str(), "str_replace") {
        let old_str = match args.get_str("old_str") {
            Some(o) => o,
            None => {
                return Err(AgentError::InvalidParameters("Missing 'old_str' parameter".to_owned()));
            },
        };
        match args.get_str("new_str") {
            Some(n) => {
                let r = EditorCommand::StrReplace {
                    path: path.clone(),
                    old_str: old_str.clone(),
                    new_str: n.clone(),
                };
                assert(editor_command_of(*args, r));
                Ok(r)
            },
            None => Err(AgentError::InvalidParameters("Missing 'new_str' parameter".to_owned())),
        }
    } else if str_eq(command.as_str(), "undo_edit") {
        let r = EditorCommand::UndoEdit { path: path.clone() };
        assert(editor_command_of(*args, r));
        Ok(r)
    } else {
        let msg = concat_str("Unknown command '", command.as_str());
        let msg = concat_str(msg.as_str(), "'");
        Err(AgentError::InvalidParameters(msg))
    }
}

/// The size in hundredths of a megabyte, rounded to nearest.
pub open spec fn hundredths_of_mb(size: nat) -> nat {
    (size / 1048576) * 100 + ((size % 1048576) * 100 + 524288) / 1048576
}

/// Two-digit rendering of `n < 100`.
pub open spec fn two_digits(n: nat) -> Seq<char> {
    if n < 10 {
        "0"@ + decimal(n)
    } else {
        decimal(n)
    }
}

/// The error text for a file over the size limit.
pub open spec fn too_large_message(path: Seq<char>, size: nat) -> Seq<char> {
    "File '"@ + path + "' is too large ("@ + decimal(hundredths_of_mb(size) / 100) + "."@ + two_digits(
        hundredths_of_mb(size) % 100,
    ) + "MB). Maximum size is 2MB to prevent memory issues."@
}

/// The error text for a file over the character limit.
pub open spec fn too_many_chars_message(path: Seq<char>, count: nat) -> Seq<char> {
    "File '"@ + path + "' has too many characters ("@ + decimal(count) + "). Maximum character count is "@
        + decimal(MAX_CHAR_COUNT as nat) + "."@
}

/// A file of `size` bytes may be viewed if it is at most 2MB; a larger one is
/// an execution error that names the limit.
pub fn check_file_size(path: &str, size: u64) -> (r: Result<(), AgentError>)
    ensures
        r is Ok <==> size <= MAX_FILE_SIZE,
        r matches Err(e) ==> e matches AgentError::ExecutionError(m) && m@ == too_large_message(path@, size as nat),
{
    if size <= MAX_FILE_SIZE {
        return Ok(());
    }
    let h = (size / 1048576) * 100 + ((size % 1048576) * 100 + 524288) / 1048576;
    let whole = to_decimal(h / 100);
    let frac = to_decimal(h % 100);
    let mut m = concat_str("File '", path);
    m.append("' is too large (");
    m.append(whole.as_str());
    m.append(".");
    if h % 100 < 10 {
        m.append("0");
    }
    m.append(frac.as_str());
    m.append("MB). Maximum size is 2MB to prevent memory issues.");
    assert(m@ =~= too_large_message(path@, size as nat));
    Err(AgentError::ExecutionError(m))
}

/// A text of `count` characters may be viewed if it holds at most 2^20 of
/// them; a longer one is an execution error that names the limit.
pub fn check_char_count(path: &str, count: u64) -> (r: Result<(), AgentError>)
    ensures
        r is Ok <==> count <= MAX_CHAR_COUNT,
        r matches Err(e) ==> e matches AgentError::ExecutionError(m) && m@ == too_many_chars_message(path@, count as nat),
{
    if count <= MAX_CHAR_COUNT {
        return Ok(());
    }
    let n = to_decimal(count);
    let limit = to_decimal(MAX_CHAR_COUNT);
    let mut m = concat_str("File '", path);
    m.append("' has too many characters (");
    m.append(n.as_str());
    m.append("). Maximum character count is ");
    m.append(limit.as_str());
    m.append(".");
    assert(m@ =~= too_many_chars_message(path@, count as nat));
    Err(AgentError::ExecutionError(m))
}

/// Occurrences of `p` in `s` as `str::matches` counts them: an empty pattern
/// matches at every character boundary.
pub open spec fn occurrences(s: Seq<char>, p: Seq<char>) -> nat {
    if p.len() == 0 {
        s.len() + 1
    } else {
        count_matches(s, p)
    }
}

/// The file content after replacing `old_str`, which must occur exactly once,
/// by `new_str`. Zero or several occurrences are `InvalidParameters`, and no
/// new content is produced.
pub fn str_replace_content(content: &str, old_str: &str, new_str: &str) -> (r: Result<String, AgentError>)
    ensures
        r is Ok <==> occurrences(content@, old_str@) == 1,
        r matches Ok(s) ==> s@ == if old_str@.len() == 0 {
            new_str@
        } else {
            replace_all(content@, old_str@, new_str@)
        },
        r matches Err(e) ==> e is InvalidParameters,
{
    if old_str.unicode_len() == 0 {
        if content.unicode_len() == 0 {
            return Ok(new_str.to_owned());
        }
        return Err(AgentError::InvalidParameters(
            "'old_str' must appear exactly once in the file, but it appears multiple times".to_owned(),
        ));
    }
    let count = count_occurrences(content, old_str);
    if count > 1 {
        return Err(AgentError::InvalidParameters(
            "'old_str' must appear exactly once in the file, but it appears multiple times".to_owned(),
        ));
    }
    if count == 0 {
        return Err(AgentError::InvalidParameters(
            "'old_str' must appear exactly once in the file, but it does not appear in the file. Make sure the string exactly matches existing file content, including spacing.".to_owned(),
        ));
    }
    Ok(replace_str(content, old_str, new_str))
}

/// Writing is refused for a file that exists but was never viewed or written
/// in this session.
pub fn check_write_allowed(path: &str, file_exists: bool, active: bool) -> (r: Result<(), AgentError>)
    ensures
        r is Ok <==> (!file_exists || active),
        r matches Err(e) ==> e is InvalidParameters,
{
    if file_exists && !active {
        let m = concat_str("File '", path);
        let m = concat_str(m.as_str(), "' exists but is not active. View it first before overwriting.");
        return Err(AgentError::InvalidParameters(m));
    }
    Ok(())
}

/// Replacing is refused in a file that does not exist or was not viewed first.
pub fn check_replace_allowed(path: &str, file_exists: bool, active: bool) -> (r: Result<(), AgentError>)
    ensures
        r is Ok <==> (file_exists && active),
        r matches Err(e) ==> e is InvalidParameters,
{
    if !file_exists {
        let m = concat_str("File '", path);
        let m = concat_str(m.as_str(), "' does not exist");
        return Err(AgentError::InvalidParameters(m));
    }
    if !active {
        let m = concat_str("You must view '", path);
        let m = concat_str(m.as_str(), "' before editing it");
        return Err(AgentError::InvalidParameters(m));
    }
    Ok(())
}

fn entry(key: &str, value: JsonValue) -> (r: (String, JsonValue))
    ensures
        r.0@ == key@,
        r.1 == value,
{
    (key.to_owned(), value)
}

fn text(s: &str) -> (r: JsonValue)
    ensures
        r == JsonValue::Str(r->Str_0) && r->Str_0@ == s@,
{
    JsonValue::Str(s.to_owned())
}

/// A schema property: its JSON type, a default where it has one, and its
/// description.
fn property(kind: &str, default: Option<JsonValue>, description: &str) -> JsonValue {
    let mut p: Vec<(String, JsonValue)> = Vec::new();
    p.push(entry("type", text(kind)));
    match default {
        Some(d) => p.push(entry("default", d)),
        None => {},
    }
    p.push(entry("description", text(description)));
    JsonValue::Object(p)
}

/// An object schema with `required` fields and `properties`.
fn object_schema(required: Vec<&str>, properties: Vec<(String, JsonValue)>) -> JsonValue {
    let mut req: Vec<JsonValue> = Vec::new();
    let mut i: usize = 0;
    while i < required.len()
        decreases required.len() - i,
    {
        req.push(text(required[i]));
        i = i + 1;
    }
    let mut o: Vec<(String, JsonValue)> = Vec::new();
    o.push(entry("type", text("object")));
    o.push(entry("required", JsonValue::Array(req)));
    o.push(entry("properties", JsonValue::Object(properties)));
    JsonValue::Object(o)
}

/// The developer extension's tools: `bash`, `text_editor`, `screen_capture`
/// and `list_windows`, in that order, each with its schema.
pub fn developer_tools() -> (r: Vec<Tool>)
    ensures
        r@.len() == 4,
        r@[0].name@ == "bash"@,
        r@[1].name@ == "text_editor"@,
        r@[2].name@ == "screen_capture"@,
        r@[3].name@ == "list_windows"@,
{
    let mut bash_props: Vec<(String, JsonValue)> = Vec::new();
    bash_props.push(entry("command", property("string", Some(JsonValue::Null), "The bash shell command to run.")));
    let bash = Tool::new(
        "bash",
        "Run a bash command in the shell in the current working directory\n  - You can use multiline commands or && to execute multiple in one pass\n  - Directory changes **are not** persisted from one command to the next\n  - Sourcing files **is not** persisted from one command to the next\n\nFor example, you can use this style to execute python in a virtualenv\n\"source .venv/bin/active && python example1.py\"\n\nbut need to repeat the source for subsequent commands in that virtualenv\n\"source .venv/bin/active && python example2.py\"\n",
        object_schema(vec!["command"], bash_props),
    );

    let mut commands: Vec<JsonValue> = Vec::new();
    commands.push(text("view"));
    commands.push(text("write"));
    commands.push(text("str_replace"));
    commands.push(text("undo_edit"));
    let mut command_prop: Vec<(String, JsonValue)> = Vec::new();
    command_prop.push(entry("enum", JsonValue::Array(commands)));
    command_prop.push(entry("description", text("The commands to run.")));
    let mut editor_props: Vec<(String, JsonValue)> = Vec::new();
    editor_props.push(entry("path", property("string", None, "Path to the file. Can be absolute or relative to the system CWD")));
    editor_props.push(entry("command", JsonValue::Object(command_prop)));
    editor_props.push(entry("new_str", property("string", Some(JsonValue::Null), "Required for the `replace` command.")));
    editor_props.push(entry("old_str", property("string", Some(JsonValue::Null), "Required for the `replace` command.")));
    editor_props.push(entry("file_text", property("string", Some(JsonValue::Null), "Required for `create` command.")));
    let editor = Tool::new(
        "text_editor",
        "Perform text editing operations on files.\n\nThe `command` parameter specifies the operation to perform. Allowed options are:\n- `view`: View the content of a file.\n- `write`: Write a file with the given content (create a new file or overwrite an existing).\n- `str_replace`: Replace a string in a file with a new string.\n- `undo_edit`: Undo the last edit made to a file.\n",
        object_schema(vec!["command", "path"], editor_props),
    );

    let mut capture_props: Vec<(String, JsonValue)> = Vec::new();
    capture_props.push(entry("display", property("integer", Some(JsonValue::Number("0".to_owned())), "The display number to capture (0 is main display)")));
    capture_props.push(entry("window_title", property("string", Some(JsonValue::Null), "Optional: the exact title of the window to capture. use the list_windows tool to find the available windows.")));
    let capture = Tool::new(
        "screen_capture",
        "Capture a screenshot of a specified display or window.\nYou can capture either:\n1. A full display (monitor) using the display parameter\n2. A specific window by its title using the window_title parameter\n\nOnly one of display or window_title should be specified.\n",
        object_schema(Vec::new(), capture_props),
    );

    let list = Tool::new(
        "list_windows",
        "List all available window titles that can be used with screen_capture.\nReturns a list of window titles that can be used with the window_title parameter\nof the screen_capture tool.\n",
        object_schema(Vec::new(), Vec::new()),
    );

    let mut r: Vec<Tool> = Vec::new();
    r.push(bash);
    r.push(editor);
    r.push(capture);
    r.push(list);
    r
}

/// The text of the developer instructions before the operating system's name.
pub open spec fn instructions_head() -> Seq<char> {
    "The developer system is loaded in the directory listed below.\nYou can use the shell tool to run any command that would work on the relevant operating system.\nUse the shell tool as needed to locate files or interact with the project. Only files\nthat have been read or modified using the edit tools will show up in the active files list.\n\nbash\n  - Prefer ripgrep - `rg` - when you need to locate content, it will respected ignored files for\nefficiency. **Avoid find and ls -r**\n    - to locate files by name: `rg --files | rg example.py`\n    - to locate consent inside files: `rg 'class Example'`\n  - The operating system for these commands is "@
}

/// The text of the developer instructions after the operating system's name.
pub open spec fn instructions_tail() -> Seq<char> {
    "\n\n\ntext_edit\n  - Always use 'view' command first before any edit operations\n  - File edits are tracked and can be undone with 'undo'\n  - String replacements must match exactly once in the file\n  - Line numbers start at 1 for insert operations\n\nThe write mode will do a full overwrite of the existing file, while the str_replace mode will edit it\nusing a find and replace. Choose the mode which will make the edit as simple as possible to execute.\n"@
}

/// The developer instructions for a machine running `os`.
pub fn developer_instructions(os: &str) -> (r: String)
    ensures
        r@ == instructions_head() + os@ + instructions_tail(),
{
    let mut r = concat_str("The developer system is loaded in the directory listed below.\nYou can use the shell tool to run any command that would work on the relevant operating system.\nUse the shell tool as needed to locate files or interact with the project. Only files\nthat have been read or modified using the edit tools will show up in the active files list.\n\nbash\n  - Prefer ripgrep - `rg` - when you need to locate content, it will respected ignored files for\nefficiency. **Avoid find and ls -r**\n    - to locate files by name: `rg --files | rg example.py`\n    - to locate consent inside files: `rg 'class Example'`\n  - The operating system for these commands is ", os);
    r.append("\n\n\ntext_edit\n  - Always use 'view' command first before any edit operations\n  - File edits are tracked and can be undone with 'undo'\n  - String replacements must match exactly once in the file\n  - Line numbers start at 1 for insert operations\n\nThe write mode will do a full overwrite of the existing file, while the str_replace mode will edit it\nusing a find and replace. Choose the mode which will make the edit as simple as possible to execute.\n");
    r
}

/// A resource the developer extension offers: a viewed or written file, or
/// the working directory as text. `priority` is in thousandths.
#[derive(Clone, Debug, PartialEq)]
pub struct Resource {
    pub uri: String,
    pub mime_type: String,
    pub name: String,
    pub priority: u32,
    pub timestamp: i64,
}

/// Index of the first history saved for `path`.
pub open spec fn history_index(h: Seq<(String, Vec<String>)>, path: Seq<char>) -> Option<int>
    decreases h.len(),
{
    if h.len() == 0 {
        None
    } else {
        match history_index(h.drop_last(), path) {
            Some(i) => Some(i),
            None => if h.last().0@ == path {
                Some(h.len() - 1)
            } else {
                None
            },
        }
    }
}

/// Saved contents of the file at `path`, oldest first.
pub open spec fn history_of(h: Seq<(String, Vec<String>)>, path: Seq<char>) -> Seq<String> {
    match history_index(h, path) {
        Some(i) => h[i].1@,
        None => Seq::empty(),
    }
}

proof fn lemma_history_index(h: Seq<(String, Vec<String>)>, path: Seq<char>)
    ensures
        match history_index(h, path) {
            Some(i) => 0 <= i < h.len() && h[i].0@ == path && forall|j: int| 0 <= j < i ==> h[j].0@ != path,
            None => forall|j: int| 0 <= j < h.len() ==> h[j].0@ != path,
        },
    decreases h.len(),
{
    if h.len() > 0 {
        lemma_history_index(h.drop_last(), path);
        assert(forall|j: int| 0 <= j < h.len() - 1 ==> h[j] == h.drop_last()[j]);
    }
}

proof fn lemma_history_index_first(h: Seq<(String, Vec<String>)>, path: Seq<char>, i: int)
    requires
        0 <= i < h.len(),
        h[i].0@ == path,
        forall|j: int| 0 <= j < i ==> h[j].0@ != path,
    ensures
        history_index(h, path) == Some(i),
{
    lemma_history_index(h, path);
}

/// Saved contents of files, by path, oldest first: what `undo_edit` restores.
pub struct FileHistory {
    entries: Vec<(String, Vec<String>)>,
}

impl FileHistory {
    pub closed spec fn view(&self) -> Seq<(String, Vec<String>)> {
        self.entries@
    }

    /// No saved contents.
    pub fn new() -> (r: FileHistory)
        ensures
            r@.len() == 0,
    {
        FileHistory { entries: Vec::new() }
    }

    /// Saves `content`, what the file at `path` held before an edit.
    pub fn save_file_history(&mut self, path: &str, content: String)
        ensures
            history_of(final(self)@, path@) == history_of(old(self)@, path@).push(content),
    {
        let ghost h = self.entries@;
        proof {
            lemma_history_index(h, path@);
        }
        let mut i: usize = 0;
        while i < self.entries.len()
            invariant
                h == self.entries@,
                h == old(self).entries@,
                i <= h.len(),
                forall|j: int| 0 <= j < i ==> h[j].0@ != path@,
            decreases self.entries.len() - i,
        {
            if str_eq(self.entries[i].0.as_str(), path) {
                proof {
                    lemma_history_index_first(h, path@, i as int);
                }
                let mut entry = self.entries.remove(i);
                entry.1.push(content);
                self.entries.insert(i, entry);
                proof {
                    let h2 = self.entries@;
                    assert(h2 =~= h.update(i as int, entry));
                    assert(forall|j: int| 0 <= j < i ==> h2[j] == h[j]);
                    lemma_history_index_first(h2, path@, i as int);
                }
                return;
            }
            i = i + 1;
        }
        let mut v: Vec<String> = Vec::new();
        v.push(content);
        self.entries.push((path.to_owned(), v));
        proof {
            let h2 = self.entries@;
            assert(forall|j: int| 0 <= j < h.len() ==> h2[j] == h[j]);
            lemma_history_index_first(h2, path@, h.len() as int);
            assert(v@ =~= Seq::<String>::empty().push(content));
        }
    }

    /// Takes back the last saved content of the file at `path`, to write it
    /// back; without one, `InvalidParameters`.
    pub fn undo_edit(&mut self, path: &str) -> (r: Result<String, AgentError>)
        ensures
            history_of(old(self)@, path@).len() == 0 ==> r is Err && final(self)@ == old(self)@,
            history_of(old(self)@, path@).len() > 0 ==> (r matches Ok(c) && c == history_of(old(self)@, path@).last()
                && history_of(final(self)@, path@) == history_of(old(self)@, path@).drop_last()),
            r matches Err(e) ==> e is InvalidParameters,
    {
        let ghost h = self.entries@;
        proof {
            lemma_history_index(h, path@);
        }
        let mut i: usize = 0;
        while i < self.entries.len()
            invariant
                h == self.entries@,
                h == old(self).entries@,
                i <= h.len(),
                forall|j: int| 0 <= j < i ==> h[j].0@ != path@,
            decreases self.entries.len() - i,
        {
            if str_eq(self.entries[i].0.as_str(), path) {
                proof {
                    lemma_history_index_first(h, path@, i as int);
                }
                if self.entries[i].1.len() == 0 {
                    return Err(AgentError::InvalidParameters("No edit history available to undo".to_owned()));
                }
                let mut entry = self.entries.remove(i);
                let previous = entry.1.pop().unwrap();
                self.entries.insert(i, entry);
                proof {
                    let h2 = self.entries@;
                    assert(h2 =~= h.update(i as int, entry));
                    assert(forall|j: int| 0 <= j < i ==> h2[j] == h[j]);
                    lemma_history_index_first(h2, path@, i as int);
                }
                return Ok(previous);
            }
            i = i + 1;
        }
        Err(AgentError::InvalidParameters("No edit history available to undo".to_owned()))
    }
}

/// The developer extension's state: its tools and instructions, the
/// resources it has made active, and the saved contents behind `undo_edit`.
pub struct DeveloperSystem {
    tools: Vec<Tool>,
    instructions: String,
    active_resources: Vec<Resource>,
    file_history: FileHistory,
}

impl DeveloperSystem {
    pub closed spec fn resources(&self) -> Seq<Resource> {
        self.active_resources@
    }

    pub closed spec fn histories(&self) -> Seq<(String, Vec<String>)> {
        self.file_history@
    }

    pub closed spec fn instructions_text(&self) -> Seq<char> {
        self.instructions@
    }

    pub closed spec fn tool_list(&self) -> Seq<Tool> {
        self.tools@
    }

    /// The extension for a process working in `cwd` on `os`: its one
    /// resource is the working directory, as text of the highest priority.
    pub fn new(cwd: &str, os: &str) -> (r: DeveloperSystem)
        ensures
            r.resources().len() == 1,
            r.resources()[0].uri@ == "str:///"@ + cwd@,
            r.resources()[0].mime_type@ == "text"@,
            r.resources()[0].name@ == "cwd"@,
            r.histories().len() == 0,
            r.instructions_text() == instructions_head() + os@ + instructions_tail(),
            r.tool_list().len() == 4,
            r.tool_list()[0].name@ == "bash"@,
            r.tool_list()[1].name@ == "text_editor"@,
            r.tool_list()[2].name@ == "screen_capture"@,
            r.tool_list()[3].name@ == "list_windows"@,
    {
        let mut resources: Vec<Resource> = Vec::new();
        resources.push(Resource {
            uri: concat_str("str:///", cwd),
            mime_type: "text".to_owned(),
            name: "cwd".to_owned(),
            priority: 1000000,
            timestamp: 0,
        });
        DeveloperSystem {
            tools: developer_tools(),
            instructions: developer_instructions(os),
            active_resources: resources,
            file_history: FileHistory::new(),
        }
    }

    pub fn name(&self) -> (r: &'static str)
        ensures
            r@ == "DeveloperSystem"@,
    {
        "DeveloperSystem"
    }

    pub fn description(&self) -> (r: &'static str)
        ensures
            r@ == "Use the developer system to build software and solve problems by editing files and\nrunning commands on the shell."@,
    {
        "Use the developer system to build software and solve problems by editing files and\nrunning commands on the shell."
    }

    pub fn instructions(&self) -> (r: &String)
        ensures
            r@ == self.instructions_text(),
    {
        &self.instructions
    }

    pub fn tools(&self) -> (r: &Vec<Tool>)
        ensures
            r@ == self.tool_list(),
    {
        &self.tools
    }

    /// Saves `content`, what the file at `path` held before an edit.
    pub fn save_file_history(&mut self, path: &str, content: String)
        ensures
            final(self).resources() == old(self).resources(),
            history_of(final(self).histories(), path@) == history_of(old(self).histories(), path@).push(content),
    {
        self.file_history.save_file_history(path, content);
    }

    /// Takes back the last saved content of the file at `path`, to write it
    /// back; without one, `InvalidParameters`.
    pub fn undo_edit(&mut self, path: &str) -> (r: Result<String, AgentError>)
        ensures
            final(self).resources() == old(self).resources(),
            history_of(old(self).histories(), path@).len() == 0 ==> r is Err && final(self).histories() == old(self).histories(),
            history_of(old(self).histories(), path@).len() > 0 ==> (r matches Ok(c) && c == history_of(old(self).histories(), path@).last()
                && history_of(final(self).histories(), path@) == history_of(old(self).histories(), path@).drop_last()),
            r matches Err(e) ==> e is InvalidParameters,
    {
        self.file_history.undo_edit(path)
    }

    /// The active resources.
    pub fn status(&self) -> (r: &Vec<Resource>)
        ensures
            r@ == self.resources(),
    {
        &self.active_resources
    }

    fn find_resource(&self, uri: &str) -> (r: Option<usize>)
        ensures
            match r {
                Some(i) => i < self.resources().len() && self.resources()[i as int].uri@ == uri@,
                None => forall|j: int| 0 <= j < self.resources().len() ==> self.resources()[j].uri@ != uri@,
            },
    {
        let mut i: usize = 0;
        while i < self.active_resources.len()
            invariant
                i <= self.active_resources@.len(),
                forall|j: int| 0 <= j < i ==> self.active_resources@[j].uri@ != uri@,
            decreases self.active_resources.len() - i,
        {
            if str_eq(self.active_resources[i].uri.as_str(), uri) {
                return Some(i);
            }
            i = i + 1;
        }
        None
    }

    /// Whether the resource at `uri` is active.
    pub fn is_active(&self, uri: &str) -> (r: bool)
        ensures
            r == exists|i: int| 0 <= i < self.resources().len() && self.resources()[i].uri@ == uri@,
    {
        self.find_resource(uri).is_some()
    }

    /// Makes the text file at `uri` active, stamped `timestamp`: an active one
    /// is restamped, another is added last.
    pub fn activate(&mut self, uri: &str, timestamp: i64)
        ensures
            exists|i: int| 0 <= i < final(self).resources().len() && final(self).resources()[i].uri@ == uri@
                && final(self).resources()[i].timestamp == timestamp,
            final(self).histories() == old(self).histories(),
            final(self).resources().len() >= old(self).resources().len(),
            forall|i: int| 0 <= i < old(self).resources().len() ==> (#[trigger] final(self).resources()[i]).uri
                == old(self).resources()[i].uri,
    {
        match self.find_resource(uri) {
            Some(i) => {
                let mut r = self.active_resources.remove(i);
                r.timestamp = timestamp;
                self.active_resources.insert(i, r);
                assert(self.active_resources@[i as int].uri@ == uri@);
                assert(self.active_resources@[i as int].timestamp == timestamp);
                assert(self.resources()[i as int].uri@ == uri@ && self.resources()[i as int].timestamp == timestamp);
                assert(forall|j: int| 0 <= j < i ==> self.active_resources@[j] == old(self).active_resources@[j]);
                assert(forall|j: int| i < j < self.active_resources@.len() ==> self.active_resources@[j] == old(self).active_resources@[j]);
            },
            None => {
                self.active_resources.push(Resource {
                    uri: uri.to_owned(),
                    mime_type: "text".to_owned(),
                    name: uri.to_owned(),
                    priority: 0,
                    timestamp,
                });
                let n = self.active_resources.len();
                assert(self.active_resources@[n - 1].uri@ == uri@);
                assert(self.active_resources@[n - 1].timestamp == timestamp);
                assert(self.resources()[n - 1].uri@ == uri@ && self.resources()[n - 1].timestamp == timestamp);
            },
        }
    }

    /// Registers `resource`, in place of an active one at the same URI or else
    /// last.
    pub fn register_resource(&mut self, resource: Resource)
        ensures
            final(self).histories() == old(self).histories(),
            exists|i: int| 0 <= i < final(self).resources().len() && final(self).resources()[i] == resource
                && forall|j: int| 0 <= j < i ==> final(self).resources()[j].uri@ != resource.uri@,
    {
        let ghost r0 = resource;
        match self.find_first_resource(resource.uri.as_str()) {
            Some(i) => {
                self.active_resources.set(i, resource);
                assert(self.resources()[i as int] == r0);
                assert(forall|j: int| 0 <= j < i ==> self.resources()[j] == old(self).resources()[j]);
            },
            None => {
                self.active_resources.push(resource);
                let n = self.active_resources.len();
                assert(self.resources()[n - 1] == r0);
                assert(forall|j: int| 0 <= j < n - 1 ==> self.resources()[j] == old(self).resources()[j]);
            },
        }
    }

    /// Keeps the active resources whose flag in `keep` is set, in order (the
    /// caller keeps `str://` resources and files that still exist).
    pub fn retain_resources(&mut self, keep: &Vec<bool>)
        requires
            keep@.len() == old(self).resources().len(),
        ensures
            final(self).histories() == old(self).histories(),
            final(self).resources() == kept_resources(old(self).resources(), keep@),
    {
        let mut kept: Vec<Resource> = Vec::new();
        let mut rest: Vec<Resource> = Vec::new();
        std::mem::swap(&mut rest, &mut self.active_resources);
        let ghost all = rest@;
        let mut i: usize = 0;
        assert(all.take(0) =~= Seq::<Resource>::empty());
        assert(keep@.take(0) =~= Seq::<bool>::empty());
        assert(all.skip(0) =~= all);
        while i < keep.len()
            invariant
                keep@.len() == all.len(),
                i <= all.len(),
                rest@ == all.skip(i as int),
                kept@ == kept_resources(all.take(i as int), keep@.take(i as int)),
                self.file_history@ == old(self).file_history@,
            decreases keep.len() - i,
        {
            let r = rest.remove(0);
            proof {
                assert(rest@ =~= all.skip(i + 1));
                assert(r == all[i as int]);
                assert(all.take(i + 1).drop_last() =~= all.take(i as int));
                assert(keep@.take(i + 1).drop_last() =~= keep@.take(i as int));
                assert(all.take(i + 1).last() == all[i as int]);
                assert(keep@.take(i + 1).last() == keep@[i as int]);
            }
            if keep[i] {
                kept.push(r);
            }
            i = i + 1;
        }
        assert(all.take(i as int) =~= all);
        assert(keep@.take(i as int) =~= keep@);
        self.active_resources = kept;
    }

}

/// The resources whose flag is set, in order.
pub open spec fn kept_resources(rs: Seq<Resource>, keep: Seq<bool>) -> Seq<Resource>
    decreases rs.len(),
{
    if rs.len() == 0 || keep.len() == 0 {
        Seq::empty()
    } else {
        let p = kept_resources(rs.drop_last(), keep.drop_last());
        if keep.last() {
            p.push(rs.last())
        } else {
            p
        }
    }
}

/// A resource stays active while it can still be read: a `str` resource
/// always, a `file` resource while the file exists, any other never.
pub fn resource_still_valid(scheme: &str, file_exists: bool) -> (r: bool)
    ensures
        r == (scheme@ == "str"@ || (scheme@ == "file"@ && file_exists)),
{
    str_eq(scheme, "str") || (str_eq(scheme, "file") && file_exists)
}

/// What `url::Url::parse` makes of a text: its scheme and path, or the
/// parse error's message.
pub uninterp spec fn url_parse_of(uri: Seq<char>) -> Result<(Seq<char>, Seq<char>), Seq<char>>;

/// Relies on url::Url::parse, Url::scheme and Url::path: the outcome
/// depends on the text alone.
#[verifier::external_body]
fn parse_url(uri: &str) -> (r: Result<(String, String), String>)
    ensures
        match (r, url_parse_of(uri@)) {
            (Ok((s, p)), Ok((s2, p2))) => s@ == s2 && p@ == p2,
            (Err(e), Err(e2)) => e@ == e2,
            _ => false,
        },
{
    match url::Url::parse(uri) {
        Ok(u) => Ok((u.scheme().to_string(), u.path().to_string())),
        Err(e) => Err(e.to_string()),
    }
}

/// What `urlencoding::decode` makes of a text: the percent-decoded text, or
/// the message of the UTF-8 error.
pub uninterp spec fn percent_decode_of(s: Seq<char>) -> Result<Seq<char>, Seq<char>>;

/// Relies on urlencoding::decode: the outcome depends on the text alone.
#[verifier::external_body]
fn percent_decode(s: &str) -> (r: Result<String, String>)
    ensures
        match (r, percent_decode_of(s@)) {
            (Ok(t), Ok(t2)) => t@ == t2,
            (Err(e), Err(e2)) => e@ == e2,
            _ => false,
        },
{
    match urlencoding::decode(s) {
        Ok(t) => Ok(t.into_owned()),
        Err(e) => Err(e.to_string()),
    }
}

/// What base64's standard engine makes of bytes.
pub uninterp spec fn base64_of(b: Seq<u8>) -> Seq<char>;

/// Relies on base64's STANDARD engine `encode`: the text depends on the
/// bytes alone; it panics only where the encoded length overflows.
#[verifier::external_body]
fn base64_encode(bytes: &Vec<u8>) -> (r: String)
    requires
        bytes@.len() <= isize::MAX,
    ensures
        r@ == base64_of(bytes@),
{
    base64::Engine::encode(&base64::engine::general_purpose::STANDARD, bytes)
}

/// The content of a blob resource: its bytes in standard base64.
pub fn encode_blob(bytes: &Vec<u8>) -> (r: String)
    requires
        bytes@.len() <= isize::MAX,
    ensures
        r@ == base64_of(bytes@),
{
    base64_encode(bytes)
}

/// `s` without its leading `/` characters.
pub open spec fn trim_slashes(s: Seq<char>) -> Seq<char>
    decreases s.len(),
{
    if s.len() > 0 && s[0] == '/' {
        trim_slashes(s.skip(1))
    } else {
        s
    }
}

fn trim_leading_slashes(s: &str) -> (r: &str)
    ensures
        r@ == trim_slashes(s@),
{
    let n = s.unicode_len();
    let mut i: usize = 0;
    assert(s@.skip(0) =~= s@);
    while i < n && s.get_char(i) == '/'
        invariant
            n == s@.len(),
            i <= n,
            trim_slashes(s@.skip(i as int)) == trim_slashes(s@),
        decreases n - i,
    {
        assert(s@.skip(i as int).skip(1) =~= s@.skip(i + 1));
        i = i + 1;
    }
    let r = s.substring_char(i, n);
    assert(r@ =~= s@.skip(i as int));
    r
}

/// How a resource is read.
#[derive(Clone, Debug, PartialEq)]
pub enum ResourceRead {
    /// From the file the URI names, as its registered MIME type says.
    File { mime_type: String },
    /// The content itself, carried in the URI.
    Text(String),
}

/// How the bytes of a file resource become its content.
#[derive(Clone, Copy, Debug, PartialEq, Eq, Structural)]
pub enum FileKind {
    /// UTF-8 text, as it is.
    Text,
    /// Any bytes, in base64.
    Blob,
}

/// How a file resource of type `mime_type` is read: `text` as text, `blob`
/// as base64; any other type is `InvalidParameters`.
pub fn file_read_kind(mime_type: &str) -> (r: Result<FileKind, AgentError>)
    ensures
        mime_type@ == "text"@ ==> r == Ok::<FileKind, AgentError>(FileKind::Text),
        mime_type@ != "text"@ && mime_type@ == "blob"@ ==> r == Ok::<FileKind, AgentError>(FileKind::Blob),
        mime_type@ != "text"@ && mime_type@ != "blob"@ ==> (r matches Err(e) && e matches AgentError::InvalidParameters(m)
            && m@ == "Unsupported mime type: "@ + mime_type@),
{
    if str_eq(mime_type, "text") {
        Ok(FileKind::Text)
    } else if str_eq(mime_type, "blob") {
        Ok(FileKind::Blob)
    } else {
        Err(AgentError::InvalidParameters(concat_str("Unsupported mime type: ", mime_type)))
    }
}

impl DeveloperSystem {
    /// How to read the active resource at `uri`. A URI that does not parse,
    /// or one not made active, is refused (an unregistered file as an
    /// execution error); a `file` URI is read from disk by its registered
    /// type; a `str` URI of type `text` carries its content, percent-encoded,
    /// in its path; any other scheme is refused.
    pub fn read_resource(&self, uri: &str) -> (r: Result<ResourceRead, AgentError>)
        ensures
            match url_parse_of(uri@) {
                Err(e) => r matches Err(x) && x matches AgentError::InvalidParameters(m) && m@ == "Invalid URI: "@ + e,
                Ok((scheme, path)) => if !exists|i: int| 0 <= i < self.resources().len() && self.resources()[i].uri@ == uri@ {
                    r matches Err(x) && (if uri@.len() >= 7 && uri@.take(7) == "file://"@ {
                        x matches AgentError::ExecutionError(m) && m@ == "Resource "@ + uri@ + " must be registered before reading"@
                    } else {
                        x matches AgentError::InvalidParameters(m) && m@ == "Resource "@ + uri@ + " could not be found"@
                    })
                } else {
                    let mime = self.resources()[choose|i: int| 0 <= i < self.resources().len() && self.resources()[i].uri@ == uri@ && forall|j: int| 0 <= j < i ==> self.resources()[j].uri@ != uri@].mime_type@;
                    if scheme == "file"@ {
                        r matches Ok(ResourceRead::File { mime_type }) && mime_type@ == mime
                    } else if scheme == "str"@ {
                        if mime != "text"@ {
                            r matches Err(x) && x matches AgentError::InvalidParameters(m) && m@ == "str:// URI only supports text mime type, got "@ + mime
                        } else {
                            match percent_decode_of(trim_slashes(path)) {
                                Ok(t) => r matches Ok(ResourceRead::Text(c)) && c@ == t,
                                Err(e) => r matches Err(x) && x matches AgentError::ExecutionError(m) && m@ == "Failed to decode str:// content: "@ + e,
                            }
                        }
                    } else {
                        r matches Err(x) && x matches AgentError::InvalidParameters(m) && m@ == "Unsupported URI scheme: "@ + scheme
                    }
                },
            },
    {
        let (scheme, path) = match parse_url(uri) {
            Ok(p) => p,
            Err(e) => {
                return Err(AgentError::InvalidParameters(concat_str("Invalid URI: ", e.as_str())));
            },
        };
        let i = match self.find_first_resource(uri) {
            Some(i) => i,
            None => {
                proof {
                    reveal_strlit("file://");
                }
                if starts_with(uri, "file://") {
                    let m = concat_str("Resource ", uri);
                    return Err(AgentError::ExecutionError(concat_str(m.as_str(), " must be registered before reading")));
                }
                let m = concat_str("Resource ", uri);
                return Err(AgentError::InvalidParameters(concat_str(m.as_str(), " could not be found")));
            },
        };
        let mime = &self.active_resources[i].mime_type;
        if str_eq(scheme.as_str(), "file") {
            return Ok(ResourceRead::File { mime_type: mime.clone() });
        }
        if str_eq(scheme.as_str(), "str") {
            if !str_eq(mime.as_str(), "text") {
                return Err(AgentError::InvalidParameters(concat_str("str:// URI only supports text mime type, got ", mime.as_str())));
            }
            let encoded = trim_leading_slashes(path.as_str());
            return match percent_decode(encoded) {
                Ok(t) => Ok(ResourceRead::Text(t)),
                Err(e) => Err(AgentError::ExecutionError(concat_str("Failed to decode str:// content: ", e.as_str()))),
            };
        }
        Err(AgentError::InvalidParameters(concat_str("Unsupported URI scheme: ", scheme.as_str())))
    }

    fn find_first_resource(&self, uri: &str) -> (r: Option<usize>)
        ensures
            match r {
                Some(i) => i < self.resources().len() && self.resources()[i as int].uri@ == uri@
                    && forall|j: int| 0 <= j < i ==> self.resources()[j].uri@ != uri@,
                None => forall|j: int| 0 <= j < self.resources().len() ==> self.resources()[j].uri@ != uri@,
            },
    {
        let mut i: usize = 0;
        while i < self.active_resources.len()
            invariant
                i <= self.active_resources@.len(),
                forall|j: int| 0 <= j < i ==> self.active_resources@[j].uri@ != uri@,
            decreases self.active_resources.len() - i,
        {
            if str_eq(self.active_resources[i].uri.as_str(), uri) {
                return Some(i);
            }
            i = i + 1;
        }
        None
    }
}

} // verus!
