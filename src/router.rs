//! The developer extension as an MCP server offers it: its tools, its
//! instructions, the rule that paths be absolute, and its prompts.
use vstd::prelude::*;
use crate::capabilities::Tool;
use crate::developer::{DeveloperTool, FileHistory, history_of};
use crate::json::JsonValue;
use crate::message::AgentError;
use crate::text::{concat_str, str_eq, trim, trim_end_spec, trim_start_spec, starts_with, occurs_at, matches_at};

verus! {

fn text(s: &str) -> (r: JsonValue) {
    JsonValue::Str(s.to_owned())
}

fn entry(key: &str, value: JsonValue) -> (r: (String, JsonValue)) {
    (key.to_owned(), value)
}

fn schema(required: Vec<&str>, properties: Vec<(String, JsonValue)>) -> JsonValue {
    let mut req: Vec<JsonValue> = Vec::new();
    let mut i: usize = 0;
    while i < required.len()
        decreases required.len() - i,
    {
        req.push(text(required[i]));
        i = i + 1;
    }
    let mut o: Vec<(String, JsonValue)> = Vec::new();
    o.push(entry("type", text("object")));
    o.push(entry("required", JsonValue::Array(req)));
    o.push(entry("properties", JsonValue::Object(properties)));
    JsonValue::Object(o)
}

fn typed(kind: &str) -> JsonValue {
    let mut p: Vec<(String, JsonValue)> = Vec::new();
    p.push(entry("type", text(kind)));
    JsonValue::Object(p)
}

/// The server's tools: `shell`, `text_editor`, `list_windows` and
/// `screen_capture`, in that order.
pub fn router_tools() -> (r: Vec<Tool>)
    ensures
        r@.len() == 4,
        r@[0].name@ == "shell"@,
        r@[1].name@ == "text_editor"@,
        r@[2].name@ == "list_windows"@,
        r@[3].name@ == "screen_capture"@,
{
    let mut shell_props: Vec<(String, JsonValue)> = Vec::new();
    shell_props.push(entry("command", typed("string")));
    let shell = Tool::new(
        "shell",
        "Execute a command in the shell.\n\nThis will return the output and error concatenated into a single string, as\nyou would see from running on the command line. There will also be an indication\nof if the command succeeded or failed.\n\nAvoid commands that produce a large amount of ouput, and consider piping those outputs to files.\nIf you need to run a long lived command, background it - e.g. `uvicorn main:app &` so that\nthis tool does not run indefinitely.\n\n**Important**: Use ripgrep - `rg` - when you need to locate a file or a code reference, other solutions\nmay show ignored or hidden files. For example *do not* use `find` or `ls -r`\n  - To locate a file by name: `rg --files | rg example.py`\n  - To locate consent inside files: `rg 'class Example'`\n",
        schema(vec!["command"], shell_props),
    );

    let mut commands: Vec<JsonValue> = Vec::new();
    commands.push(text("view"));
    commands.push(text("write"));
    commands.push(text("str_replace"));
    commands.push(text("undo_edit"));
    let mut path_prop: Vec<(String, JsonValue)> = Vec::new();
    path_prop.push(entry("description", text("Absolute path to file or directory, e.g. `/repo/file.py` or `/repo`.")));
    path_prop.push(entry("type", text("string")));
    let mut command_prop: Vec<(String, JsonValue)> = Vec::new();
    command_prop.push(entry("type", text("string")));
    command_prop.push(entry("enum", JsonValue::Array(commands)));
    command_prop.push(entry("description", text("Allowed options are: `view`, `write`, `str_replace`, undo_edit`.")));
    let mut editor_props: Vec<(String, JsonValue)> = Vec::new();
    editor_props.push(entry("path", JsonValue::Object(path_prop)));
    editor_props.push(entry("command", JsonValue::Object(command_prop)));
    editor_props.push(entry("old_str", typed("string")));
    editor_props.push(entry("new_str", typed("string")));
    editor_props.push(entry("file_text", typed("string")));
    let editor = Tool::new(
        "text_editor",
        "Perform text editing operations on files.\n\nThe `command` parameter specifies the operation to perform. Allowed options are:\n- `view`: View the content of a file.\n- `write`: Create or overwrite a file with the given content\n- `str_replace`: Replace a string in a file with a new string.\n- `undo_edit`: Undo the last edit made to a file.\n\nTo use the write command, you must specify `file_text` which will become the new content of the file. Be careful with\nexisting files! This is a full overwrite, so you must include everything - not just sections you are modifying.\n\nTo use the str_replace command, you must specify both `old_str` and `new_str` - the `old_str` needs to exactly match one\nunique section of the original file, including any whitespace. Make sure to include enough context that the match is not\nambiguous. The entire original string will be replaced with `new_str`.\n",
        schema(vec!["command", "path"], editor_props),
    );

    let list = Tool::new(
        "list_windows",
        "List all available window titles that can be used with screen_capture.\nReturns a list of window titles that can be used with the window_title parameter\nof the screen_capture tool.\n",
        schema(Vec::new(), Vec::new()),
    );

    let mut display: Vec<(String, JsonValue)> = Vec::new();
    display.push(entry("type", text("integer")));
    display.push(entry("default", JsonValue::Number("0".to_owned())));
    display.push(entry("description", text("The display number to capture (0 is main display)")));
    let mut title: Vec<(String, JsonValue)> = Vec::new();
    title.push(entry("type", text("string")));
    title.push(entry("default", JsonValue::Null));
    title.push(entry("description", text("Optional: the exact title of the window to capture. use the list_windows tool to find the available windows.")));
    let mut capture_props: Vec<(String, JsonValue)> = Vec::new();
    capture_props.push(entry("display", JsonValue::Object(display)));
    capture_props.push(entry("window_title", JsonValue::Object(title)));
    let capture = Tool::new(
        "screen_capture",
        "Capture a screenshot of a specified display or window.\nYou can capture either:\n1. A full display (monitor) using the display parameter\n2. A specific window by its title using the window_title parameter\n\nOnly one of display or window_title should be specified.\n",
        schema(Vec::new(), capture_props),
    );

    let mut r: Vec<Tool> = Vec::new();
    r.push(shell);
    r.push(editor);
    r.push(list);
    r.push(capture);
    r
}

/// The server's instructions before the operating system's name.
pub open spec fn router_instructions_head() -> Seq<char> {
    "The developer system gives you the capabilities to edit code files and run shell commands,\nand can be used to solve a wide range of problems.\n\nYou can use the shell tool to run any command that would work on the relevant operating system.\nUse the shell tool as needed to locate files or interact with the project.\n\nYour windows/screen tools can be used for visual debugging. You should not use these tools unless\nprompted to, but you can mention they are available if they are relevant.\n\noperating system: "@
}

/// The server's instructions for a machine running `os` in `cwd`.
pub open spec fn router_instructions(os: Seq<char>, cwd: Seq<char>) -> Seq<char> {
    router_instructions_head() + os + "\ncurrent directory: "@ + cwd + "\n\n"@
}

/// The developer server: its tools and instructions, and the saved contents
/// behind `undo_edit`.
pub struct DeveloperRouter {
    tools: Vec<Tool>,
    instructions: String,
    file_history: FileHistory,
}

impl DeveloperRouter {
    pub closed spec fn instructions_text(&self) -> Seq<char> {
        self.instructions@
    }

    pub closed spec fn tool_list(&self) -> Seq<Tool> {
        self.tools@
    }

    pub closed spec fn histories(&self) -> Seq<(String, Vec<String>)> {
        self.file_history@
    }

    /// The server for a process running on `os` in `cwd`.
    pub fn new(cwd: &str, os: &str) -> (r: DeveloperRouter)
        ensures
            r.instructions_text() == router_instructions(os@, cwd@),
            r.tool_list().len() == 4,
            r.tool_list()[0].name@ == "shell"@,
            r.tool_list()[1].name@ == "text_editor"@,
            r.tool_list()[2].name@ == "list_windows"@,
            r.tool_list()[3].name@ == "screen_capture"@,
            r.histories().len() == 0,
    {
        let mut instructions = concat_str("The developer system gives you the capabilities to edit code files and run shell commands,\nand can be used to solve a wide range of problems.\n\nYou can use the shell tool to run any command that would work on the relevant operating system.\nUse the shell tool as needed to locate files or interact with the project.\n\nYour windows/screen tools can be used for visual debugging. You should not use these tools unless\nprompted to, but you can mention they are available if they are relevant.\n\noperating system: ", os);
        instructions.append("\ncurrent directory: ");
        instructions.append(cwd);
        instructions.append("\n\n");
        DeveloperRouter { tools: router_tools(), instructions, file_history: FileHistory::new() }
    }

    pub fn name(&self) -> (r: &'static str)
        ensures
            r@ == "developer"@,
    {
        "developer"
    }

    pub fn instructions(&self) -> (r: &String)
        ensures
            r@ == self.instructions_text(),
    {
        &self.instructions
    }

    pub fn list_tools(&self) -> (r: &Vec<Tool>)
        ensures
            r@ == self.tool_list(),
    {
        &self.tools
    }

    /// Saves `content`, what the file at `path` held before an edit.
    pub fn save_file_history(&mut self, path: &str, content: String)
        ensures
            history_of(final(self).histories(), path@) == history_of(old(self).histories(), path@).push(content),
    {
        self.file_history.save_file_history(path, content);
    }

    /// Takes back the last saved content of the file at `path`.
    pub fn undo_edit(&mut self, path: &str) -> (r: Result<String, AgentError>)
        ensures
            history_of(old(self).histories(), path@).len() == 0 ==> r is Err,
            history_of(old(self).histories(), path@).len() > 0 ==> (r matches Ok(c) && c == history_of(old(self).histories(), path@).last()
                && history_of(final(self).histories(), path@) == history_of(old(self).histories(), path@).drop_last()),
    {
        self.file_history.undo_edit(path)
    }
}

/// The server's tool called `name`.
pub open spec fn router_tool_named(name: Seq<char>) -> Option<DeveloperTool> {
    if name == "shell"@ {
        Some(DeveloperTool::Bash)
    } else if name == "text_editor"@ {
        Some(DeveloperTool::TextEditor)
    } else if name == "list_windows"@ {
        Some(DeveloperTool::ListWindows)
    } else if name == "screen_capture"@ {
        Some(DeveloperTool::ScreenCapture)
    } else {
        None
    }
}

/// The tool a call names, or `ToolNotFound` with "Tool <name> not found".
pub fn router_tool_for_name(name: &str) -> (r: Result<DeveloperTool, AgentError>)
    ensures
        match router_tool_named(name@) {
            Some(t) => r == Ok::<DeveloperTool, AgentError>(t),
            None => r matches Err(e) && e matches AgentError::ToolNotFound(m) && m@ == "Tool "@ + name@ + " not found"@,
        },
{
    if str_eq(name, "shell") {
        Ok(DeveloperTool::Bash)
    } else if str_eq(name, "text_editor") {
        Ok(DeveloperTool::TextEditor)
    } else if str_eq(name, "list_windows") {
        Ok(DeveloperTool::ListWindows)
    } else if str_eq(name, "screen_capture") {
        Ok(DeveloperTool::ScreenCapture)
    } else {
        let m = concat_str("Tool ", name);
        Err(AgentError::ToolNotFound(concat_str(m.as_str(), " not found")))
    }
}

/// The path to act on: `expanded` (the path with `~` expanded) where it is
/// absolute, that is, starts with `/`; otherwise `InvalidParameters`
/// suggesting the path under `cwd`.
pub fn resolve_path(path_str: &str, expanded: &str, cwd: &str) -> (r: Result<String, AgentError>)
    ensures
        expanded@.len() > 0 && expanded@[0] == '/' ==> (r matches Ok(p) && p@ == expanded@),
        !(expanded@.len() > 0 && expanded@[0] == '/') ==> (r matches Err(e) && e matches AgentError::InvalidParameters(m)
            && m@ == "The path "@ + path_str@ + " is not an absolute path, did you possibly mean "@ + cwd@ + "/"@
            + expanded@ + "?"@),
{
    proof {
        reveal_strlit("/");
        assert("/"@.len() == 1 && "/"@[0] == '/');
        if expanded@.len() > 0 {
            assert(expanded@.take(1) =~= seq![expanded@[0]]);
            if expanded@[0] == '/' {
                assert("/"@ =~= seq![expanded@[0]]);
            } else {
                assert("/"@[0] != seq![expanded@[0]][0]);
            }
        }
    }
    if starts_with(expanded, "/") {
        return Ok(expanded.to_owned());
    }
    let mut m = concat_str("The path ", path_str);
    m.append(" is not an absolute path, did you possibly mean ");
    m.append(cwd);
    m.append("/");
    m.append(expanded);
    m.append("?");
    Err(AgentError::InvalidParameters(m))
}

/// The prompts a server offers, by name, first loaded first.
pub struct PromptSet {
    prompts: Vec<(String, String)>,
}

impl PromptSet {
    /// The prompts: name and description.
    pub closed spec fn view(&self) -> Seq<(String, String)> {
        self.prompts@
    }

    /// No two prompts share a name.
    pub closed spec fn wf(&self) -> bool {
        forall|i: int, j: int| 0 <= i < j < self.prompts@.len() ==> (#[trigger] self.prompts@[i]).0@ != (#[trigger] self.prompts@[j]).0@
    }

    pub fn new() -> (r: PromptSet)
        ensures
            r.wf(),
            r@.len() == 0,
    {
        PromptSet { prompts: Vec::new() }
    }

    fn find(&self, name: &str) -> (r: Option<usize>)
        ensures
            match r {
                Some(i) => i < self@.len() && self@[i as int].0@ == name@,
                None => forall|j: int| 0 <= j < self@.len() ==> self@[j].0@ != name@,
            },
    {
        let mut i: usize = 0;
        while i < self.prompts.len()
            invariant
                i <= self.prompts@.len(),
                forall|j: int| 0 <= j < i ==> self.prompts@[j].0@ != name@,
            decreases self.prompts.len() - i,
        {
            if str_eq(self.prompts[i].0.as_str(), name) {
                return Some(i);
            }
            i = i + 1;
        }
        None
    }

    /// Adds a prompt; one whose name is taken is skipped, and `false` says so.
    pub fn insert(&mut self, name: String, description: String) -> (r: bool)
        requires
            old(self).wf(),
        ensures
            final(self).wf(),
            r == forall|j: int| 0 <= j < old(self)@.len() ==> old(self)@[j].0@ != name@,
            r ==> final(self)@ == old(self)@.push((name, description)),
            !r ==> final(self)@ == old(self)@,
    {
        match self.find(name.as_str()) {
            Some(i) => false,
            None => {
                self.prompts.push((name, description));
                true
            },
        }
    }

    /// The description of the prompt named `name` (trimmed of white space):
    /// an empty name is `InvalidParameters`, an unknown one `NotFound`, and
    /// an empty description an execution error.
    pub fn get_prompt(&self, name: &str) -> (r: Result<String, AgentError>)
        ensures
            ({
                let n = trim_end_spec(trim_start_spec(name@));
                if n.len() == 0 {
                    r is Err
                } else if forall|j: int| 0 <= j < self@.len() ==> self@[j].0@ != n {
                    r matches Err(e) && e matches AgentError::NotFound(m) && m@ == "Prompt '"@ + n + "' not found"@
                } else {
                    exists|j: int| 0 <= j < self@.len() && self@[j].0@ == n && (if trim_end_spec(trim_start_spec(self@[j].1@)).len() == 0 {
                        r is Err
                    } else {
                        r matches Ok(d) && d@ == self@[j].1@
                    })
                }
            }),
    {
        let n = trim(name);
        if n.unicode_len() == 0 {
            return Err(AgentError::InvalidParameters("Prompt name cannot be empty".to_owned()));
        }
        match self.find(n) {
            None => {
                let mut m = concat_str("Prompt '", n);
                m.append("' not found");
                Err(AgentError::NotFound(m))
            },
            Some(i) => {
                let d = &self.prompts[i].1;
                if trim(d.as_str()).unicode_len() == 0 {
                    let mut m = concat_str("Prompt '", n);
                    m.append("' has an empty description");
                    Err(AgentError::ExecutionError(m))
                } else {
                    Ok(d.clone())
                }
            },
        }
    }
}

/// Index of the first newline at or after `i`, or the length.
pub open spec fn next_newline(s: Seq<char>, i: int) -> int
    decreases s.len() - i,
{
    if i >= s.len() {
        s.len() as int
    } else if s[i] == '\n' {
        i
    } else {
        next_newline(s, i + 1)
    }
}

/// A line without the carriage return that ended it.
pub open spec fn strip_cr(line: Seq<char>) -> Seq<char> {
    if line.len() > 0 && line.last() == '\r' {
        line.drop_last()
    } else {
        line
    }
}

/// The lines of `s` from position `i`, as `str::lines` gives them: split at
/// each newline, a carriage return before it dropped, no empty line after a
/// final newline.
pub open spec fn lines_from(s: Seq<char>, i: int) -> Seq<Seq<char>>
    decreases s.len() - i,
{
    if i < 0 || i >= s.len() {
        Seq::empty()
    } else {
        let k = next_newline(s, i);
        if i <= k && k < s.len() {
            seq![strip_cr(s.subrange(i, k))] + lines_from(s, k + 1)
        } else {
            seq![s.subrange(i, s.len() as int)]
        }
    }
}

/// Number of newlines in `s`.
pub open spec fn newlines(s: Seq<char>) -> nat
    decreases s.len(),
{
    if s.len() == 0 {
        0
    } else {
        newlines(s.drop_last()) + if s.last() == '\n' {
            1nat
        } else {
            0nat
        }
    }
}

/// `ls` joined by newlines.
pub open spec fn joined_lines(ls: Seq<Seq<char>>) -> Seq<char>
    decreases ls.len(),
{
    if ls.len() == 0 {
        Seq::empty()
    } else if ls.len() == 1 {
        ls[0]
    } else {
        joined_lines(ls.drop_last()) + "\n"@ + ls.last()
    }
}

proof fn lemma_next_newline(s: Seq<char>, i: int)
    requires
        0 <= i <= s.len(),
    ensures
        i <= next_newline(s, i) <= s.len(),
        next_newline(s, i) < s.len() ==> s[next_newline(s, i)] == '\n',
        forall|j: int| i <= j < next_newline(s, i) ==> s[j] != '\n',
    decreases s.len() - i,
{
    if i < s.len() && s[i] != '\n' {
        lemma_next_newline(s, i + 1);
    }
}

fn line_list(s: &str) -> (r: Vec<String>)
    ensures
        r@.map_values(|x: String| x@) == lines_from(s@, 0),
{
    let n = s.unicode_len();
    let mut out: Vec<String> = Vec::new();
    let mut i: usize = 0;
    while i < n
        invariant
            n == s@.len(),
            i <= n,
            out@.map_values(|x: String| x@) + lines_from(s@, i as int) == lines_from(s@, 0),
        decreases n - i,
    {
        let mut k: usize = i;
        proof {
            lemma_next_newline(s@, i as int);
        }
        while k < n && s.get_char(k) != '\n'
            invariant
                n == s@.len(),
                i <= k <= n,
                forall|j: int| i <= j < k ==> s@[j] != '\n',
                i <= next_newline(s@, i as int) <= n,
                next_newline(s@, i as int) < n ==> s@[next_newline(s@, i as int)] == '\n',
                forall|j: int| i <= j < next_newline(s@, i as int) ==> s@[j] != '\n',
            decreases n - k,
        {
            k = k + 1;
        }
        assert(k == next_newline(s@, i as int));
        let ghost before = out@;
        if k < n {
            let end = if k > i && s.get_char(k - 1) == '\r' { k - 1 } else { k };
            let line = s.substring_char(i, end);
            assert(line@ =~= strip_cr(s@.subrange(i as int, k as int)));
            out.push(line.to_owned());
            proof {
                assert(out@.map_values(|x: String| x@) =~= before.map_values(|x: String| x@).push(line@));
                assert(lines_from(s@, i as int) == seq![strip_cr(s@.subrange(i as int, k as int))] + lines_from(s@, k + 1));
                assert(out@.map_values(|x: String| x@) + lines_from(s@, k + 1) =~= before.map_values(|x: String| x@) + lines_from(s@, i as int));
            }
            i = k + 1;
        } else {
            let line = s.substring_char(i, k);
            out.push(line.to_owned());
            proof {
                assert(out@.map_values(|x: String| x@) =~= before.map_values(|x: String| x@).push(line@));
                assert(lines_from(s@, i as int) == seq![s@.subrange(i as int, k as int)]);
                assert(out@.map_values(|x: String| x@) + lines_from(s@, k as int) =~= before.map_values(|x: String| x@) + lines_from(s@, i as int));
            }
            i = k;
        }
    }
    assert(out@.map_values(|x: String| x@) + lines_from(s@, i as int) =~= out@.map_values(|x: String| x@));
    out
}

fn count_newlines(s: &str) -> (r: usize)
    ensures
        r == newlines(s@),
{
    let n = s.unicode_len();
    let mut c: usize = 0;
    let mut i: usize = 0;
    assert(s@.take(0) =~= Seq::<char>::empty());
    while i < n
        invariant
            n == s@.len(),
            i <= n,
            c == newlines(s@.take(i as int)),
            c <= i,
        decreases n - i,
    {
        proof {
            let t = s@.take(i + 1);
            assert(t.drop_last() =~= s@.take(i as int));
            assert(t.last() == s@[i as int]);
        }
        if s.get_char(i) == '\n' {
            c = c + 1;
        }
        i = i + 1;
    }
    assert(s@.take(i as int) =~= s@);
    c
}

/// Position of the first occurrence of `p` in `s`, or the length of `s`.
pub open spec fn first_occurrence(s: Seq<char>, p: Seq<char>) -> int {
    if exists|i: int| occurs_at(s, p, i) {
        choose|i: int| occurs_at(s, p, i) && forall|j: int| 0 <= j < i ==> !occurs_at(s, p, j)
    } else {
        s.len() as int
    }
}

/// Lines shown around an edit, before and after it.
pub const SNIPPET_LINES: usize = 4;

/// The lines of the edited file around an edit: from four lines before the
/// line where `old_str` first stood in `content` to four lines after the
/// replacement `new_str` ends in `new_content`, joined by newlines.
pub fn edit_snippet(content: &str, old_str: &str, new_str: &str, new_content: &str) -> (r: String)
    requires
        content@.len() + new_str@.len() < usize::MAX - 16,
    ensures
        ({
            let line = newlines(content@.take(first_occurrence(content@, old_str@)));
            let start = if line >= SNIPPET_LINES { line - SNIPPET_LINES } else { 0 };
            let end = line + SNIPPET_LINES + newlines(new_str@);
            let ls = lines_from(new_content@, 0);
            r@ == joined_lines(ls.subrange(
                if start <= ls.len() { start as int } else { ls.len() as int },
                if end + 1 <= ls.len() { end + 1 } else { ls.len() as int },
            ))
        }),
{
    let n = content.unicode_len();
    let mut i: usize = 0;
    while i < n && !matches_at(content, old_str, i)
        invariant
            n == content@.len(),
            i <= n,
            forall|j: int| 0 <= j < i ==> !occurs_at(content@, old_str@, j),
        decreases n - i,
    {
        i = i + 1;
    }
    proof {
        if i < n {
            assert(occurs_at(content@, old_str@, i as int));
            let k = choose|k: int| occurs_at(content@, old_str@, k) && forall|j: int| 0 <= j < k ==> !occurs_at(content@, old_str@, j);
            if k < i {
                assert(!occurs_at(content@, old_str@, k));
            } else if k > i {
                assert(!occurs_at(content@, old_str@, i as int));
            }
        } else {
            if exists|k: int| occurs_at(content@, old_str@, k) {
                let k = choose|k: int| occurs_at(content@, old_str@, k) && forall|j: int| 0 <= j < k ==> !occurs_at(content@, old_str@, j);
                assert(k <= n);
                if k < n {
                    assert(!occurs_at(content@, old_str@, k));
                }
            }
        }
    }
    assert(first_occurrence(content@, old_str@) == i as int || (i == n && first_occurrence(content@, old_str@) == n as int));
    let before = content.substring_char(0, i);
    assert(before@ =~= content@.take(i as int));
    let line = count_newlines(before);
    let start = if line >= SNIPPET_LINES { line - SNIPPET_LINES } else { 0 };
    proof {
        lemma_newlines_le(content@.take(i as int));
        lemma_newlines_le(new_str@);
    }
    let end = line + SNIPPET_LINES + count_newlines(new_str);
    let ls = line_list(new_content);
    let ghost lv = ls@.map_values(|x: String| x@);
    let total = ls.len();
    let from = if start <= total { start } else { total };
    let to = if end + 1 <= total { end + 1 } else { total };
    let mut out = String::new();
    let mut j: usize = from;
    assert(lv.subrange(from as int, from as int) =~= Seq::<Seq<char>>::empty());
    while j < to
        invariant
            from <= j <= to,
            to <= total,
            total == ls@.len(),
            lv == ls@.map_values(|x: String| x@),
            out@ == joined_lines(lv.subrange(from as int, j as int)),
        decreases to - j,
    {
        let ghost prev = out@;
        if j > from {
            out.append("\n");
        }
        out.append(ls[j].as_str());
        proof {
            let t = lv.subrange(from as int, j + 1);
            assert(t.drop_last() =~= lv.subrange(from as int, j as int));
            assert(t.last() == ls@[j as int]@);
            if j > from {
                assert(out@ =~= prev + "\n"@ + ls@[j as int]@);
            }
        }
        j = j + 1;
    }
    out
}

proof fn lemma_newlines_le(s: Seq<char>)
    ensures
        newlines(s) <= s.len(),
    decreases s.len(),
{
    if s.len() > 0 {
        lemma_newlines_le(s.drop_last());
    }
}

} // verus!
