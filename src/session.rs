//! A conversation session: the persisted history and its rewind after a
//! cancelled turn.
use vstd::prelude::*;
use crate::message::{is_user_text, AgentError, Message, Role};
use crate::text::concat_str;

verus! {

/// Index of the last user message that holds text, or -1 where there is none.
pub open spec fn last_user_text_index(s: Seq<Message>) -> int
    decreases s.len(),
{
    if s.len() == 0 {
        -1
    } else if is_user_text(s.last()) {
        s.len() - 1
    } else {
        last_user_text_index(s.drop_last())
    }
}

/// The history as it was before the last user text message was sent: what
/// precedes that message, or nothing where there is no such message.
pub open spec fn rewound(s: Seq<Message>) -> Seq<Message> {
    let k = last_user_text_index(s);
    if k < 0 {
        Seq::empty()
    } else {
        s.take(k)
    }
}

proof fn lemma_last_user_text_index_bounds(s: Seq<Message>)
    ensures
        -1 <= last_user_text_index(s) < s.len(),
        last_user_text_index(s) >= 0 ==> is_user_text(s[last_user_text_index(s)]),
        forall|j: int|
            last_user_text_index(s) < j < s.len() ==> !is_user_text(#[trigger] s[j]),
    decreases s.len(),
{
    if s.len() > 0 && !is_user_text(s.last()) {
        lemma_last_user_text_index_bounds(s.drop_last());
        assert forall|j: int| last_user_text_index(s) < j < s.len() implies !is_user_text(
            #[trigger] s[j],
        ) by {
            if j < s.len() - 1 {
                assert(s[j] == s.drop_last()[j]);
            }
        }
    }
}

/// A session: where it is recorded and the messages exchanged so far.
pub struct Session {
    pub session_file: String,
    pub messages: Vec<Message>,
}

impl Session {
    /// A session recorded at `session_file` that resumes `messages`.
    pub fn new(session_file: String, messages: Vec<Message>) -> (r: Session)
        ensures
            r.session_file == session_file,
            r.messages@ == messages@,
    {
        Session { session_file, messages }
    }

    /// Appends a message to the history.
    pub fn push_message(&mut self, message: Message)
        ensures
            final(self).session_file == old(self).session_file,
            final(self).messages@ == old(self).messages@.push(message),
    {
        self.messages.push(message);
    }

    /// Rewinds the history to before the last user message (the user cancelled
    /// it): drops the trailing messages up to the last user message that holds
    /// text, then that message too.
    pub fn rewind_messages(&mut self)
        ensures
            final(self).session_file == old(self).session_file,
            final(self).messages@ == rewound(old(self).messages@),
    {
        let ghost s = self.messages@;
        proof {
            lemma_last_user_text_index_bounds(s);
        }
        if self.messages.len() == 0 {
            assert(rewound(s) =~= s);
            return;
        }
        while self.messages.len() > 0 && !self.messages[self.messages.len() - 1].is_user_text()
            invariant
                self.session_file == old(self).session_file,
                s == old(self).messages@,
                last_user_text_index(s) < self.messages@.len() <= s.len(),
                self.messages@ == s.take(self.messages@.len() as int),
                -1 <= last_user_text_index(s) < s.len(),
                last_user_text_index(s) >= 0 ==> is_user_text(s[last_user_text_index(s)]),
                forall|j: int|
                    last_user_text_index(s) < j < s.len() ==> !is_user_text(#[trigger] s[j]),
            decreases self.messages.len(),
        {
            self.messages.pop();
            assert(self.messages@ =~= s.take(self.messages@.len() as int));
        }
        proof {
            if self.messages@.len() > 0 {
                assert(self.messages@.last() == s[self.messages@.len() - 1]);
                assert(self.messages@.len() - 1 == last_user_text_index(s));
            } else {
                assert(last_user_text_index(s) == -1);
            }
        }
        if self.messages.len() > 0 {
            self.messages.pop();
            assert(self.messages@ =~= s.take(self.messages@.len() as int));
        }
    }
}

/// After a rewind the last remaining message, if any, is the assistant's,
/// wherever the message before the last user text message was the assistant's.
pub proof fn lemma_rewind_ends_with_assistant(s: Seq<Message>)
    requires
        last_user_text_index(s) <= 0 || s[last_user_text_index(s) - 1].role == Role::Assistant,
    ensures
        rewound(s).len() == 0 || rewound(s).last().role == Role::Assistant,
{
    lemma_last_user_text_index_bounds(s);
}

/// A message shown to the user by the session itself, as the assistant's text.
pub fn raw_message(content: &str) -> (r: Message)
    ensures
        r.role == Role::Assistant,
        r.content@.len() == 1,
        r.content@[0] matches crate::message::MessageContent::Text(t) && t@ == content@,
{
    Message::assistant().with_text(content)
}

/// The journal of the session `name` in `session_dir`: `<dir>/<name>.jsonl`.
pub open spec fn session_file_of(session_dir: Seq<char>, name: Seq<char>) -> Seq<char> {
    session_dir + "/"@ + name + ".jsonl"@
}

fn session_file(session_dir: &str, name: &str) -> (r: String)
    ensures
        r@ == session_file_of(session_dir@, name@),
{
    let mut r = concat_str(session_dir, "/");
    r.append(name);
    r.append(".jsonl");
    r
}

/// The journal of the named session, or of a session named `random_name`
/// where none is given.
pub fn session_path(provided_session_name: Option<String>, session_dir: &str, random_name: &str) -> (r: String)
    ensures
        match provided_session_name {
            Some(n) => r@ == session_file_of(session_dir@, n@),
            None => r@ == session_file_of(session_dir@, random_name@),
        },
{
    match provided_session_name {
        Some(n) => session_file(session_dir, n.as_str()),
        None => session_file(session_dir, random_name),
    }
}

/// How many generated names are tried before giving up.
pub const MAX_NAME_ATTEMPTS: usize = 5;

/// Index of the first name, among the first five, whose journal is free.
pub open spec fn first_free(taken: Seq<bool>) -> Option<int> {
    if exists|i: int| 0 <= i < taken.len() && i < MAX_NAME_ATTEMPTS && !taken[i] {
        Some(choose|i: int| 0 <= i < taken.len() && i < MAX_NAME_ATTEMPTS && !taken[i] && forall|j: int| 0 <= j < i ==> taken[j])
    } else {
        None
    }
}

/// The journal for the first generated name whose file is free (`taken`
/// says, for each name, whether its file exists); after five taken names,
/// an error.
pub fn generate_new_session_path(session_dir: &str, names: &Vec<String>, taken: &Vec<bool>) -> (r: Result<String, AgentError>)
    requires
        names@.len() == taken@.len(),
    ensures
        match first_free(taken@) {
            Some(i) => r matches Ok(p) && p@ == session_file_of(session_dir@, names@[i]@),
            None => r is Err,
        },
{
    let mut i: usize = 0;
    while i < names.len() && i < MAX_NAME_ATTEMPTS
        invariant
            names@.len() == taken@.len(),
            i <= names@.len(),
            i <= MAX_NAME_ATTEMPTS,
            forall|j: int| 0 <= j < i ==> taken@[j],
        decreases names.len() - i,
    {
        if !taken[i] {
            let ghost k = choose|k: int| 0 <= k < taken@.len() && k < MAX_NAME_ATTEMPTS && !taken@[k] && forall|j: int| 0 <= j < k ==> taken@[j];
            assert(0 <= i < taken@.len() && i < MAX_NAME_ATTEMPTS && !taken@[i as int] && forall|j: int| 0 <= j < i ==> taken@[j]);
            proof {
                if k < i {
                    assert(taken@[k]);
                } else if k > i {
                    assert(taken@[i as int]);
                }
            }
            return Ok(session_file(session_dir, names[i].as_str()));
        }
        i = i + 1;
    }
    Err(AgentError::ExecutionError("Failed to generate unique session name after 5 attempts".to_owned()))
}

/// A session may resume only an existing journal, and a new one may not
/// overwrite one.
pub fn check_session_file(session_file: &str, resume: bool, file_exists: bool) -> (r: Result<(), AgentError>)
    ensures
        r is Ok <==> resume == file_exists,
        resume && !file_exists ==> (r matches Err(e) && e matches AgentError::InvalidParameters(m)
            && m@ == "Cannot resume session: file "@ + session_file@ + " does not exist"@),
        !resume && file_exists ==> (r matches Err(e) && e matches AgentError::InvalidParameters(m)
            && m@ == "Session file "@ + session_file@ + " already exists. Use --resume to continue an existing session"@),
{
    if resume && !file_exists {
        let mut m = concat_str("Cannot resume session: file ", session_file);
        m.append(" does not exist");
        return Err(AgentError::InvalidParameters(m));
    }
    if !resume && file_exists {
        let mut m = concat_str("Session file ", session_file);
        m.append(" already exists. Use --resume to continue an existing session");
        return Err(AgentError::InvalidParameters(m));
    }
    Ok(())
}

} // verus!
