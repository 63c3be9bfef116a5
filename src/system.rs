//! How an extension ("system") is configured and described.
use vstd::prelude::*;
use std::collections::HashMap;
use crate::text::concat_str;

verus! {

/// Environment variables handed to an extension's process.
#[derive(Clone, Debug)]
pub struct Envs {
    map: HashMap<String, String>,
}

impl Envs {
    /// The variables, by name.
    pub closed spec fn view(&self) -> Map<String, String> {
        self.map@
    }

    pub fn new(map: HashMap<String, String>) -> (r: Envs)
        ensures
            r@ == map@,
    {
        Envs { map }
    }

    /// No variables.
    pub fn default() -> (r: Envs)
        ensures
            r@ == Map::<String, String>::empty(),
    {
        Envs::new(HashMap::new())
    }

    /// A copy of the variables.
    pub fn get_env(&self) -> (r: HashMap<String, String>)
        ensures
            r@ == self@,
    {
        self.map.clone()
    }
}

/// How to reach an extension's server.
#[derive(Clone, Debug)]
pub enum SystemConfig {
    /// Server-sent events at a URI.
    Sse { uri: String, envs: Envs },
    /// A child process spoken to over its standard input and output.
    Stdio { cmd: String, args: Vec<String>, envs: Envs },
}

/// `args` joined with single spaces.
pub open spec fn joined(args: Seq<String>) -> Seq<char>
    decreases args.len(),
{
    if args.len() == 0 {
        Seq::empty()
    } else if args.len() == 1 {
        args[0]@
    } else {
        joined(args.drop_last()) + " "@ + args.last()@
    }
}

impl SystemConfig {
    /// An SSE extension at `uri`, without variables.
    pub fn sse(uri: &str) -> (r: SystemConfig)
        ensures
            r matches SystemConfig::Sse { uri: u, envs } && u@ == uri@ && envs@ == Map::<String, String>::empty(),
    {
        SystemConfig::Sse { uri: uri.to_owned(), envs: Envs::default() }
    }

    /// A process extension running `cmd`, without arguments or variables.
    pub fn stdio(cmd: &str) -> (r: SystemConfig)
        ensures
            r matches SystemConfig::Stdio { cmd: c, args, envs } && c@ == cmd@ && args@.len() == 0
                && envs@ == Map::<String, String>::empty(),
    {
        SystemConfig::Stdio { cmd: cmd.to_owned(), args: Vec::new(), envs: Envs::default() }
    }

    /// This configuration with `args` as the process arguments; an SSE
    /// configuration is returned unchanged.
    pub fn with_args(self, args: Vec<String>) -> (r: SystemConfig)
        ensures
            match self {
                SystemConfig::Stdio { cmd, envs, .. } => r matches SystemConfig::Stdio { cmd: c, args: a, envs: e }
                    && c == cmd && a@ == args@ && e@ == envs@,
                SystemConfig::Sse { .. } => r == self,
            },
    {
        match self {
            SystemConfig::Stdio { cmd, envs, .. } => SystemConfig::Stdio { cmd, args, envs },
            other => other,
        }
    }

    /// The configuration as shown to a user: `SSE(<uri>)` or
    /// `Stdio(<cmd> <args joined by spaces>)`.
    pub fn describe(&self) -> (r: String)
        ensures
            match self {
                SystemConfig::Sse { uri, .. } => r@ == "SSE("@ + uri@ + ")"@,
                SystemConfig::Stdio { cmd, args, .. } => r@ == "Stdio("@ + cmd@ + " "@ + joined(args@) + ")"@,
            },
    {
        match self {
            SystemConfig::Sse { uri, .. } => {
                let mut r = concat_str("SSE(", uri.as_str());
                r.append(")");
                r
            },
            SystemConfig::Stdio { cmd, args, .. } => {
                let mut r = concat_str("Stdio(", cmd.as_str());
                r.append(" ");
                let mut j = String::new();
                let mut i: usize = 0;
                assert(args@.take(0) =~= Seq::<String>::empty());
                while i < args.len()
                    invariant
                        i <= args@.len(),
                        j@ == joined(args@.take(i as int)),
                    decreases args.len() - i,
                {
                    let ghost before = j@;
                    if i > 0 {
                        j.append(" ");
                    }
                    j.append(args[i].as_str());
                    proof {
                        let t = args@.take(i + 1);
                        assert(t.drop_last() =~= args@.take(i as int));
                        if i == 0 {
                            assert(j@ =~= joined(t));
                        } else {
                            assert(j@ =~= before + " "@ + args@[i as int]@);
                        }
                    }
                    i = i + 1;
                }
                assert(args@.take(i as int) =~= args@);
                r.append(j.as_str());
                r.append(")");
                r
            },
        }
    }
}

/// Errors of attaching or calling an extension.
#[derive(Clone, Debug)]
pub enum SystemError {
    /// The server did not come up within 60 seconds.
    Initialization(SystemConfig),
    /// A call to the server failed.
    Client(String),
    /// The wire failed.
    Transport(String),
}

/// What the prompt says of an extension.
#[derive(Clone, Debug)]
pub struct SystemInfo {
    pub name: String,
    pub description: String,
    pub instructions: String,
}

impl SystemInfo {
    pub fn new(name: &str, description: &str, instructions: &str) -> (r: SystemInfo)
        ensures
            r.name@ == name@,
            r.description@ == description@,
            r.instructions@ == instructions@,
    {
        SystemInfo {
            name: name.to_owned(),
            description: description.to_owned(),
            instructions: instructions.to_owned(),
        }
    }
}

/// Provider name of OpenAI.
pub const PROVIDER_OPEN_AI: &'static str = "openai";

/// Provider name of Databricks.
pub const PROVIDER_DATABRICKS: &'static str = "databricks";

/// Provider name of Ollama.
pub const PROVIDER_OLLAMA: &'static str = "ollama";

/// The providers to choose from: each with its key, its label and a hint.
pub fn select_provider_lists() -> (r: Vec<(&'static str, String, &'static str)>)
    ensures
        r@.len() == 3,
        r@[0].0@ == "openai"@ && r@[0].1@ == "openai"@ && r@[0].2@ == "Recommended"@,
        r@[1].0@ == "databricks"@ && r@[1].1@ == "databricks"@ && r@[1].2@ == ""@,
        r@[2].0@ == "ollama"@ && r@[2].1@ == "ollama"@ && r@[2].2@ == ""@,
{
    let mut r: Vec<(&'static str, String, &'static str)> = Vec::new();
    r.push((PROVIDER_OPEN_AI, PROVIDER_OPEN_AI.to_owned(), "Recommended"));
    r.push((PROVIDER_DATABRICKS, PROVIDER_DATABRICKS.to_owned(), ""));
    r.push((PROVIDER_OLLAMA, PROVIDER_OLLAMA.to_owned(), ""));
    r
}

} // verus!
