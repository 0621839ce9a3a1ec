//! One-shot launch: derive the sandbox policy and the agent's command from a
//! single workspace.
//!
//! Bringing the stack up by hand means writing a sandbox policy and an absolute
//! session command that repeats the daemon's socket, token, and database paths
//! (the sandbox rewrites `HOME`, so the node cannot discover them). Nothing
//! about that is interesting: every value is already known to the daemon, and
//! only the workspace is a real choice.
//!
//! The derived policy writes exactly two roots — the workspace and the session
//! database directory — reads the agent's own token file and the agent binary
//! itself, and denies the daemon's other capability and credential files. The
//! built-in agent asks the daemon for inference over its Unix socket, so no
//! egress and no loopback are granted.

use crate::bridge::jtext;
use crate::confinement::{self, Access, FsEntry, FsPolicy, NetworkPolicy, Policy, ShellPolicy};
use crate::events::{event_of, Event, EventValue};
use crate::hostpath;
use crate::init::{PROVIDERS_FILE, TOKEN_FILE};
use crate::json::{self, Json};
use crate::scan;
use crate::session::{self, SESSION_EXITED, SESSION_FAILED, SESSION_REQUESTED};
use crate::text;
use vstd::prelude::*;

verus! {

broadcast use vstd::string::group_string_axioms;

/// How many seconds to wait for the agent's session announcement before
/// printing the publish command without a conversation id.
pub const SESSION_ANNOUNCE_TIMEOUT_SECS: u64 = 5;

/// The agent id recorded on `session.*` events for a one-shot launch.
pub const SESSION_AGENT_ID: &'static str = "urn:mokmokd:session";

/// The name of the agent's binary.
pub const AGENT_BINARY: &'static str = "agentd-agent";

/// Errors returned while deriving the one-shot launch.
#[derive(Debug)]
#[non_exhaustive]
pub enum UpError {
    /// The workspace is missing or is not a directory.
    Workdir(String),
    /// The agent's token file does not exist.
    MissingAgentToken(String),
    /// The session database has no usable parent directory.
    MissingSessionDir(String),
    /// No agent binary could be found.
    MissingAgent,
    /// The configured agent binary is not executable.
    NotExecutable(String),
    /// The derived policy failed validation.
    Policy(String),
    /// A directory could not be created or canonicalized.
    Io(String),
}

/// The error in words.
pub open spec fn up_error_text(error: UpError) -> Seq<char> {
    match error {
        UpError::Workdir(path) => "the workspace "@ + path@
            + " is not an accessible directory"@,
        UpError::MissingAgentToken(path) => "the agent token file "@ + path@
            + " does not exist; run `agentd init` to create it"@,
        UpError::MissingSessionDir(path) => "the session database "@ + path@
            + " has no usable parent directory"@,
        UpError::MissingAgent =>
            "could not find an `agentd-agent` binary next to this one or on PATH; pass --agent"@,
        UpError::NotExecutable(path) => "the agent binary "@ + path@
            + " is not an executable file"@,
        UpError::Policy(error) => "the derived sandbox policy is unusable: "@ + error@,
        UpError::Io(error) => error@,
    }
}

impl UpError {
    /// The error in words.
    pub fn to_string(&self) -> (r: String)
        ensures
            r@ == match *self {
                UpError::Workdir(path) => "the workspace "@ + path@
                    + " is not an accessible directory"@,
                UpError::MissingAgentToken(path) => "the agent token file "@ + path@
                    + " does not exist; run `agentd init` to create it"@,
                UpError::MissingSessionDir(path) => "the session database "@ + path@
                    + " has no usable parent directory"@,
                UpError::MissingAgent =>
                    "could not find an `agentd-agent` binary next to this one or on PATH; pass --agent"@,
                UpError::NotExecutable(path) => "the agent binary "@ + path@
                    + " is not an executable file"@,
                UpError::Policy(error) => "the derived sandbox policy is unusable: "@ + error@,
                UpError::Io(error) => error@,
            },
            r@ == up_error_text(*self),
    {
        match self {
            UpError::Workdir(path) => about(
                "the workspace ",
                path.as_str(),
                " is not an accessible directory",
            ),
            UpError::MissingAgentToken(path) => about(
                "the agent token file ",
                path.as_str(),
                " does not exist; run `agentd init` to create it",
            ),
            UpError::MissingSessionDir(path) => about(
                "the session database ",
                path.as_str(),
                " has no usable parent directory",
            ),
            UpError::MissingAgent => {
                "could not find an `agentd-agent` binary next to this one or on PATH; pass --agent".to_owned()
            },
            UpError::NotExecutable(path) => about(
                "the agent binary ",
                path.as_str(),
                " is not an executable file",
            ),
            UpError::Policy(error) => text::concat(
                "the derived sandbox policy is unusable: ",
                error.as_str(),
            ),
            UpError::Io(error) => error.clone(),
        }
    }
}

fn about(start: &str, middle: &str, end: &str) -> (r: String)
    ensures
        r@ == start@ + middle@ + end@,
{
    let head = text::concat(start, middle);
    text::concat(head.as_str(), end)
}

/// Whether a shell takes a character as it is.
pub open spec fn is_plain(c: char) -> bool {
    'a' <= c <= 'z' || 'A' <= c <= 'Z' || '0' <= c <= '9' || c == '-' || c == '_' || c == '.' || c
        == '/' || c == ':' || c == '@' || c == '+'
}

/// Whether a shell takes a text as it is.
pub open spec fn all_plain(value: Seq<char>) -> bool {
    value.len() > 0 && forall|i: int| 0 <= i < value.len() ==> is_plain(#[trigger] value[i])
}

/// The text with each single quote closed, escaped, and opened again.
pub open spec fn escaped(value: Seq<char>) -> Seq<char>
    decreases value.len(),
{
    if value.len() == 0 {
        Seq::empty()
    } else if value.last() == '\'' {
        escaped(value.drop_last()) + seq!['\'', '\\', '\'', '\'']
    } else {
        escaped(value.drop_last()).push(value.last())
    }
}

/// The text, quoted for a POSIX shell when it needs it.
pub open spec fn quoted(value: Seq<char>) -> Seq<char> {
    if all_plain(value) {
        value
    } else {
        seq!['\''] + escaped(value) + seq!['\'']
    }
}

/// What a POSIX shell reads of one word: outside quotes a backslash takes the
/// next character as it is and a single quote opens a quotation, inside which
/// everything up to the next single quote is taken as it is. `None` for a text
/// that the shell does not read as one plain word.
pub open spec fn shell_word(input: Seq<char>, inside: bool) -> Option<Seq<char>>
    decreases input.len(),
{
    if input.len() == 0 {
        if inside {
            None
        } else {
            Some(Seq::empty())
        }
    } else if inside {
        if input[0] == '\'' {
            shell_word(input.skip(1), false)
        } else {
            prepend(input[0], shell_word(input.skip(1), true))
        }
    } else if input[0] == '\'' {
        shell_word(input.skip(1), true)
    } else if input[0] == '\\' {
        if input.len() < 2 {
            None
        } else {
            prepend(input[1], shell_word(input.skip(2), false))
        }
    } else if is_plain(input[0]) {
        prepend(input[0], shell_word(input.skip(1), false))
    } else {
        None
    }
}

/// The word with a character in front.
pub open spec fn prepend(c: char, word: Option<Seq<char>>) -> Option<Seq<char>> {
    match word {
        Some(rest) => Some(seq![c] + rest),
        None => None,
    }
}

proof fn lemma_plain_word(value: Seq<char>, rest: Seq<char>)
    requires
        forall|i: int| 0 <= i < value.len() ==> is_plain(#[trigger] value[i]),
    ensures
        shell_word(value + rest, false) == match shell_word(rest, false) {
            Some(word) => Some(value + word),
            None => None,
        },
    decreases value.len(),
{
    if value.len() == 0 {
        assert(value + rest =~= rest);
        if let Some(word) = shell_word(rest, false) {
            assert(value + word =~= word);
        }
    } else {
        let tail = value.skip(1);
        assert forall|i: int| 0 <= i < tail.len() implies is_plain(#[trigger] tail[i]) by {
            assert(tail[i] == value[i + 1]);
        }
        lemma_plain_word(tail, rest);
        assert((value + rest).skip(1) =~= tail + rest);
        assert(is_plain(value[0]));
        if let Some(word) = shell_word(rest, false) {
            assert(seq![value[0]] + (tail + word) =~= value + word);
        }
    }
}

proof fn lemma_escaped_word(value: Seq<char>, rest: Seq<char>)
    ensures
        shell_word(escaped(value) + rest, true) == match shell_word(rest, true) {
            Some(word) => Some(value + word),
            None => None,
        },
    decreases value.len(),
{
    if value.len() == 0 {
        assert(escaped(value) + rest =~= rest);
        if let Some(word) = shell_word(rest, true) {
            assert(value + word =~= word);
        }
    } else {
        let init = value.drop_last();
        let last = value.last();
        let coded = if last == '\'' {
            seq!['\'', '\\', '\'', '\'']
        } else {
            seq![last]
        };
        assert(escaped(value) + rest =~= escaped(init) + (coded + rest));
        lemma_escaped_word(init, coded + rest);
        if last == '\'' {
            let whole = coded + rest;
            let after_quote = whole.skip(1);
            assert(after_quote[0] == '\\' && after_quote[1] == '\'');
            let after_escape = after_quote.skip(2);
            assert(after_escape[0] == '\'');
            assert(after_escape.skip(1) =~= rest);
            assert(shell_word(after_escape, false) == shell_word(rest, true));
            assert(shell_word(after_quote, false) == prepend('\'', shell_word(rest, true)));
            assert(shell_word(whole, true) == prepend('\'', shell_word(rest, true)));
        } else {
            assert((coded + rest).skip(1) =~= rest);
            assert(shell_word(coded + rest, true) == prepend(last, shell_word(rest, true)));
        }
        if let Some(word) = shell_word(rest, true) {
            assert(init + (seq![last] + word) =~= value + word);
        }
    }
}

/// A quoted text is read back by a shell as the one word it was.
pub proof fn quoting_reads_back(value: Seq<char>)
    ensures
        shell_word(quoted(value), false) == Some(value),
{
    if all_plain(value) {
        lemma_plain_word(value, Seq::empty());
        assert(value + Seq::<char>::empty() =~= value);
    } else {
        let close = seq!['\''];
        lemma_escaped_word(value, close);
        assert(close.skip(1) =~= Seq::<char>::empty());
        assert(shell_word(close.skip(1), false) == Some(Seq::<char>::empty()));
        assert(close[0] == '\'');
        assert(shell_word(close, true) == Some(Seq::<char>::empty()));
        assert(value + Seq::<char>::empty() =~= value);
        assert(quoted(value).skip(1) =~= escaped(value) + close);
    }
}

/// Quotes `value` for a POSIX shell when it needs it.
#[must_use]
pub fn quote(value: &str) -> (r: String)
    ensures
        r@ == quoted(value@),
{
    let chars = text::to_chars(value);
    let mut plain = chars.len() > 0;
    let mut i: usize = 0;
    while i < chars.len() && plain
        invariant
            i <= chars@.len(),
            chars@ == value@,
            plain ==> chars@.len() > 0 && forall|k: int|
                0 <= k < i ==> is_plain(#[trigger] chars@[k]),
            !plain ==> !all_plain(chars@),
        decreases chars@.len() - i,
    {
        let c = chars[i];
        if !(('a' <= c && c <= 'z') || ('A' <= c && c <= 'Z') || ('0' <= c && c <= '9') || c == '-'
            || c == '_' || c == '.' || c == '/' || c == ':' || c == '@' || c == '+') {
            plain = false;
        }
        i = i + 1;
    }
    if plain {
        return value.to_owned();
    }
    let mut result = String::new();
    result.push('\'');
    let mut k: usize = 0;
    proof {
        assert(result@ =~= seq!['\''] + escaped(chars@.take(0)));
    }
    while k < chars.len()
        invariant
            k <= chars@.len(),
            result@ == seq!['\''] + escaped(chars@.take(k as int)),
        decreases chars@.len() - k,
    {
        let ghost before = escaped(chars@.take(k as int));
        proof {
            assert(chars@.take(k + 1).drop_last() =~= chars@.take(k as int));
            assert(chars@.take(k + 1).last() == chars@[k as int]);
        }
        if chars[k] == '\'' {
            result.push('\'');
            result.push('\\');
            result.push('\'');
            result.push('\'');
            proof {
                assert(result@ =~= seq!['\''] + (before + seq!['\'', '\\', '\'', '\'']));
            }
        } else {
            result.push(chars[k]);
            proof {
                assert(result@ =~= seq!['\''] + before.push(chars@[k as int]));
            }
        }
        k = k + 1;
    }
    result.push('\'');
    proof {
        assert(chars@.take(k as int) =~= value@);
        assert(result@ =~= seq!['\''] + escaped(value@) + seq!['\'']);
    }
    result
}

/// The one-shot launch arguments.
#[derive(Clone, Debug)]
pub struct UpArgs {
    /// The workspace the agent works in: the only directory it may write.
    pub workdir: String,
    /// The event WebSocket Unix socket. Defaults to the runtime path.
    pub socket: Option<String>,
    /// The durable JSONL event log. Defaults to the data path.
    pub log_path: Option<String>,
    /// The daemon's bearer token file. Defaults to the one in the config
    /// directory.
    pub token_file: Option<String>,
    /// The provider config enabling real models. Defaults to the one in the
    /// config directory when it exists.
    pub providers_config: Option<String>,
    /// The token file the confined agent presents; it needs the read, publish,
    /// and infer claims. Defaults to `agent.token` in the config directory.
    pub agent_token_file: Option<String>,
    /// The agent binary to run confined. Defaults to the sibling of this binary,
    /// then `PATH`.
    pub agent: Option<String>,
    /// The model the agent asks the daemon for (an alias or `provider/model`).
    /// Without it the daemon's default model is used.
    pub model: Option<String>,
    /// Continue the most recent session recorded for the workspace instead of
    /// starting a new one. A workspace with no recorded session starts a new one
    /// rather than failing, so this is safe on a first-ever run.
    pub resume: bool,
    /// The session id recorded on `session.*` events.
    pub session_id: String,
    /// The conversation projection. Its directory is made writable. Defaults to
    /// `sessions/<session-id>/agent.db` in the data directory.
    pub session_db: Option<String>,
    /// Restart a crashed agent up to this many times.
    pub session_max_restarts: u32,
    /// Kill the agent after this many seconds.
    pub session_lifetime_secs: Option<u64>,
}

impl Default for UpArgs {
    /// The defaults, so a programmatic caller can write
    /// `UpArgs { workdir, ..UpArgs::default() }`.
    fn default() -> (r: UpArgs)
        ensures
            r.workdir@ == Seq::<char>::empty(),
            r.socket is None,
            r.log_path is None,
            r.token_file is None,
            r.providers_config is None,
            r.agent_token_file is None,
            r.agent is None,
            r.model is None,
            !r.resume,
            r.session_id@ == "agent"@,
            r.session_db is None,
            r.session_max_restarts == 0,
            r.session_lifetime_secs is None,
    {
        UpArgs {
            workdir: String::new(),
            socket: None,
            log_path: None,
            token_file: None,
            providers_config: None,
            agent_token_file: None,
            agent: None,
            model: None,
            resume: false,
            session_id: "agent".to_owned(),
            session_db: None,
            session_max_restarts: 0,
            session_lifetime_secs: None,
        }
    }
}

/// Where the daemon keeps its files on this host.
#[derive(Clone, Debug)]
pub struct HostPaths {
    /// The config directory.
    pub config_dir: String,
    /// The data directory.
    pub data_dir: String,
    /// The event socket, when none is given.
    pub default_socket: String,
    /// The daemon's token file, when none is given.
    pub default_tokens: String,
}

/// A value that was given, or the default.
pub open spec fn given_or(given: Option<String>, default: Seq<char>) -> Seq<char> {
    match given {
        Some(given) => given@,
        None => default,
    }
}

fn given(value: &Option<String>, default: &str) -> (r: String)
    ensures
        r@ == given_or(*value, default@),
{
    match value {
        Some(value) => value.clone(),
        None => default.to_owned(),
    }
}

/// The agent's token file, before it is resolved.
pub open spec fn agent_token_path(args: UpArgs, config_dir: Seq<char>) -> Seq<char> {
    given_or(args.agent_token_file, hostpath::joined(config_dir, "agent.token"@))
}

/// The session database.
pub open spec fn session_db_path(args: UpArgs, data_dir: Seq<char>) -> Seq<char> {
    given_or(
        args.session_db,
        hostpath::joined(
            hostpath::joined(hostpath::joined(data_dir, "sessions"@), args.session_id@),
            "agent.db"@,
        ),
    )
}

impl UpArgs {
    /// The agent's token file, to be resolved on the host.
    pub fn agent_token_path(&self, host: &HostPaths) -> (r: String)
        ensures
            r@ == agent_token_path(*self, host.config_dir@),
    {
        let default = hostpath::join(host.config_dir.as_str(), "agent.token");
        given(&self.agent_token_file, default.as_str())
    }

    /// The session database.
    pub fn session_db_path(&self, host: &HostPaths) -> (r: String)
        ensures
            r@ == session_db_path(*self, host.data_dir@),
    {
        let sessions = hostpath::join(host.data_dir.as_str(), "sessions");
        let session = hostpath::join(sessions.as_str(), self.session_id.as_str());
        let default = hostpath::join(session.as_str(), "agent.db");
        given(&self.session_db, default.as_str())
    }
}

/// The permission bits that let anyone execute.
pub const ANYONE_EXECUTES: u32 = 0o111;

/// A file that may be the agent's binary.
#[derive(Clone, Debug)]
pub struct Candidate {
    /// Where it is.
    pub path: String,
    /// Whether it is a regular file.
    pub is_file: bool,
    /// Its mode.
    pub mode: u32,
}

/// Whether a file is a regular executable file.
pub open spec fn executable(candidate: Candidate) -> bool {
    candidate.is_file && candidate.mode & ANYONE_EXECUTES != 0
}

impl Candidate {
    /// Whether the file is a regular executable file.
    pub fn is_executable(&self) -> (r: bool)
        ensures
            r == executable(*self),
    {
        self.is_file && self.mode & ANYONE_EXECUTES != 0
    }
}

/// What was found when looking for the agent's binary.
#[derive(Clone, Debug)]
pub struct AgentProbe {
    /// The given binary in canonical form, if it could be resolved.
    pub explicit: Option<Candidate>,
    /// The first of the binaries near this one that could be resolved.
    pub sibling: Option<Candidate>,
    /// The files on `PATH`, in its order.
    pub on_path: Vec<Candidate>,
}

/// The first executable of some files.
pub open spec fn first_executable(candidates: Seq<Candidate>) -> Option<Seq<char>>
    decreases candidates.len(),
{
    if candidates.len() == 0 {
        None
    } else if executable(candidates[0]) {
        Some(candidates[0].path@)
    } else {
        first_executable(candidates.skip(1))
    }
}

/// The agent's binary: an explicit path, which must be executable, then a sibling
/// of this binary, then `PATH`.
pub open spec fn agent_found(explicit: bool, probe: AgentProbe) -> Option<Seq<char>> {
    if explicit {
        match probe.explicit {
            Some(candidate) => if executable(candidate) {
                Some(candidate.path@)
            } else {
                None
            },
            None => None,
        }
    } else if probe.sibling is Some && executable(probe.sibling->0) {
        Some(probe.sibling->0.path@)
    } else {
        first_executable(probe.on_path@)
    }
}

/// Whether a result is the answer to looking for the agent's binary.
pub open spec fn agent_answer(
    explicit: Option<Seq<char>>,
    probe: AgentProbe,
    r: Result<String, UpError>,
) -> bool {
    match agent_found(explicit is Some, probe) {
        Some(path) => r is Ok && r->Ok_0@ == path,
        None => match explicit {
            Some(path) => r is Err && r->Err_0 is NotExecutable && r->Err_0->NotExecutable_0@
                == path,
            None => r is Err && r->Err_0 is MissingAgent,
        },
    }
}

/// The agent's binary: an explicit path, then a sibling of this binary, then
/// `PATH`.
pub fn resolve_agent(explicit: Option<&str>, probe: &AgentProbe) -> (r: Result<String, UpError>)
    ensures
        agent_answer(
            match explicit {
                Some(path) => Some(path@),
                None => None,
            },
            *probe,
            r,
        ),
{
    if let Some(path) = explicit {
        if let Some(candidate) = &probe.explicit {
            if candidate.is_executable() {
                return Ok(candidate.path.clone());
            }
        }
        return Err(UpError::NotExecutable(path.to_owned()));
    }
    if let Some(candidate) = &probe.sibling {
        if candidate.is_executable() {
            return Ok(candidate.path.clone());
        }
    }
    let mut i: usize = 0;
    proof {
        assert(probe.on_path@.skip(0) =~= probe.on_path@);
    }
    while i < probe.on_path.len()
        invariant
            i <= probe.on_path@.len(),
            explicit is None,
            !(probe.sibling is Some && executable(probe.sibling->0)),
            first_executable(probe.on_path@) == first_executable(probe.on_path@.skip(i as int)),
        decreases probe.on_path@.len() - i,
    {
        proof {
            assert(probe.on_path@.skip(i as int)[0] == probe.on_path@[i as int]);
            assert(probe.on_path@.skip(i as int).skip(1) =~= probe.on_path@.skip(i + 1));
        }
        if probe.on_path[i].is_executable() {
            return Ok(probe.on_path[i].path.clone());
        }
        i = i + 1;
    }
    Err(UpError::MissingAgent)
}

/// The places near this executable where a binary may be: next to it, or one
/// directory above it.
pub open spec fn near(exe: Seq<char>, name: Seq<char>) -> Seq<Seq<char>> {
    match hostpath::parent_of(exe) {
        Some(dir) => match hostpath::parent_of(dir) {
            Some(above) => seq![hostpath::joined(dir, name), hostpath::joined(above, name)],
            None => Seq::empty(),
        },
        None => Seq::empty(),
    }
}

/// The places near this executable where `name` may be, in the order they are
/// tried.
pub fn sibling_paths(exe: &str, name: &str) -> (r: Vec<String>)
    ensures
        text::views(r@) == near(exe@, name@),
{
    let mut paths: Vec<String> = Vec::new();
    if let Some(dir) = hostpath::parent(exe) {
        if let Some(above) = hostpath::parent(dir.as_str()) {
            paths.push(hostpath::join(dir.as_str(), name));
            paths.push(hostpath::join(above.as_str(), name));
        }
    }
    proof {
        assert(text::views(paths@) =~= near(exe@, name@));
    }
    paths
}

/// The absolute paths the policy and the agent command are derived from.
///
/// Made by [`UpPaths::resolve`]: every field must be absolute and canonical for
/// the derived policy and command to be correct.
#[derive(Clone, Debug, PartialEq, Eq)]
#[non_exhaustive]
pub struct UpPaths {
    /// The canonical workspace: a write root and the agent's working directory.
    pub workdir: String,
    /// The daemon's event socket, granted to the agent's policy.
    pub socket: String,
    /// The agent's canonical bearer token file: its only readable capability.
    pub agent_token: String,
    /// The daemon's own token file, which holds every capability and must stay
    /// unreadable to the confined agent.
    pub daemon_token: String,
    /// The canonical agent binary to run confined.
    pub agent_binary: String,
    /// The session's database; its directory is the second write root.
    pub session_db: String,
}

/// What was found of the workspace and the agent's files.
#[derive(Clone, Debug)]
pub struct UpProbe {
    /// The canonical workspace, when it is an existing directory.
    pub workdir: Option<String>,
    /// The agent's token file in canonical form, when it exists.
    pub agent_token: Option<String>,
    /// What was found when looking for the agent's binary.
    pub agent: AgentProbe,
}

/// Whether a result is the answer to resolving the paths of a launch.
pub open spec fn resolve_answer(
    args: UpArgs,
    host: HostPaths,
    probe: UpProbe,
    r: Result<UpPaths, UpError>,
) -> bool {
    let explicit = text::opt_view(args.agent);
    match probe.workdir {
        None => r is Err && r->Err_0 is Workdir && r->Err_0->Workdir_0@ == args.workdir@,
        Some(workdir) => match probe.agent_token {
            None => r is Err && r->Err_0 is MissingAgentToken && r->Err_0->MissingAgentToken_0@
                == agent_token_path(args, host.config_dir@),
            Some(agent_token) => match agent_found(explicit is Some, probe.agent) {
                None => r is Err && agent_answer(
                    explicit,
                    probe.agent,
                    Err::<String, UpError>(r->Err_0),
                ),
                Some(agent_binary) => {
                    &&& r is Ok
                    &&& r->Ok_0.workdir@ == workdir@
                    &&& r->Ok_0.socket@ == given_or(args.socket, host.default_socket@)
                    &&& r->Ok_0.agent_token@ == agent_token@
                    &&& r->Ok_0.daemon_token@ == given_or(args.token_file, host.default_tokens@)
                    &&& r->Ok_0.agent_binary@ == agent_binary
                    &&& r->Ok_0.session_db@ == session_db_path(args, host.data_dir@)
                },
            },
        },
    }
}

/// The words of the agent's command.
pub open spec fn agent_words(paths: UpPaths, model: Option<Seq<char>>, resume: bool) -> Seq<
    Seq<char>,
> {
    let base = seq![
        quoted(paths.agent_binary@),
        "--socket"@,
        quoted(paths.socket@),
        "--token-file"@,
        quoted(paths.agent_token@),
        "--db"@,
        quoted(paths.session_db@),
        "--workdir"@,
        quoted(paths.workdir@),
    ];
    let named = match model {
        Some(model) => base + seq!["--model"@, quoted(model)],
        None => base,
    };
    if resume {
        named + seq!["--resume"@]
    } else {
        named
    }
}

/// The words of the publish command.
pub open spec fn publish_words(
    paths: UpPaths,
    conversation: Option<Seq<char>>,
    user_token: Seq<char>,
) -> Seq<Seq<char>> {
    let base = seq![
        "agentd-publish"@,
        "--socket"@,
        quoted(paths.socket@),
        "--token-file"@,
        quoted(user_token),
        "--db"@,
        quoted(paths.session_db@),
        "--workdir"@,
        quoted(paths.workdir@),
    ];
    let named = match conversation {
        Some(conversation) => base + seq!["--conversation"@, quoted(conversation)],
        None => base,
    };
    named + seq!["--inbox"@, "'<your prompt>'"@]
}

/// Whether a file has the extension of a token file.
pub open spec fn is_token_file(path: Seq<char>) -> bool {
    match hostpath::file_name_of(path) {
        Some(name) => {
            let dot = scan::last_index(name, '.');
            dot > 0 && name.skip(dot + 1) == "token"@
        },
        None => false,
    }
}

/// The token files among some files.
pub open spec fn token_files(files: Seq<Seq<char>>) -> Seq<Seq<char>>
    decreases files.len(),
{
    if files.len() == 0 {
        Seq::empty()
    } else if is_token_file(files.last()) {
        token_files(files.drop_last()).push(files.last())
    } else {
        token_files(files.drop_last())
    }
}

/// The daemon-side files the confined agent must not read, as far as they exist:
/// the daemon's token file, and beside the agent's own token the token file, the
/// provider config, and every other client's token.
pub open spec fn capability_files(
    agent_token: Seq<char>,
    daemon_token: Seq<char>,
    beside: Seq<Seq<char>>,
) -> Seq<Seq<char>> {
    let own = seq![daemon_token];
    match hostpath::parent_of(agent_token) {
        Some(dir) => {
            let tokens = hostpath::joined(dir, TOKEN_FILE@);
            let named = if tokens == daemon_token {
                own
            } else {
                own.push(tokens)
            };
            named.push(hostpath::joined(dir, PROVIDERS_FILE@)) + token_files(beside)
        },
        None => own,
    }
}

/// The denials of the files that exist, but for the agent's own token.
pub open spec fn denials(agent_token: Seq<char>, files: Seq<Option<String>>) -> Seq<
    (Seq<char>, Access),
>
    decreases files.len(),
{
    if files.len() == 0 {
        Seq::empty()
    } else {
        let earlier = denials(agent_token, files.drop_last());
        match files.last() {
            Some(path) => if hostpath::same_path(path@, agent_token) {
                earlier
            } else {
                earlier.push((path@, Access::Deny))
            },
            None => earlier,
        }
    }
}

/// The filesystem rules of the agent's policy.
pub open spec fn agent_entries(
    paths: UpPaths,
    session_dir: Seq<char>,
    files: Seq<Option<String>>,
) -> Seq<(Seq<char>, Access)> {
    seq![
        (paths.workdir@, Access::Write),
        (session_dir, Access::Write),
        (paths.agent_token@, Access::Read),
        (paths.agent_binary@, Access::Read),
    ] + denials(paths.agent_token@, files)
}

proof fn lemma_denials(agent_token: Seq<char>, files: Seq<Option<String>>)
    ensures
        forall|i: int|
            0 <= i < denials(agent_token, files).len() ==> {
                &&& (#[trigger] denials(agent_token, files)[i]).1 == Access::Deny
                &&& !hostpath::same_path(denials(agent_token, files)[i].0, agent_token)
            },
        forall|k: int|
            0 <= k < files.len() && (#[trigger] files[k]) is Some && !hostpath::same_path(
                files[k]->0@,
                agent_token,
            ) ==> denials(agent_token, files).contains((files[k]->0@, Access::Deny)),
    decreases files.len(),
{
    if files.len() > 0 {
        let init = files.drop_last();
        lemma_denials(agent_token, init);
        let earlier = denials(agent_token, init);
        let now = denials(agent_token, files);
        assert forall|k: int|
            0 <= k < files.len() && (#[trigger] files[k]) is Some && !hostpath::same_path(
                files[k]->0@,
                agent_token,
            ) implies now.contains((files[k]->0@, Access::Deny)) by {
            let entry = (files[k]->0@, Access::Deny);
            if k < init.len() {
                assert(init[k] == files[k]);
                assert(earlier.contains(entry));
                let p = choose|p: int| 0 <= p < earlier.len() && earlier[p] == entry;
                assert(now[p] == entry);
            } else {
                assert(now[earlier.len() as int] == entry);
            }
        }
    }
}

/// The agent may write to exactly two roots: the workspace and the directory of
/// its session database.
pub proof fn the_write_roots_are_the_workspace_and_the_session_directory(
    paths: UpPaths,
    session_dir: Seq<char>,
    files: Seq<Option<String>>,
    path: Seq<char>,
)
    ensures
        agent_entries(paths, session_dir, files).contains((path, Access::Write)) <==> path
            == paths.workdir@ || path == session_dir,
{
    lemma_denials(paths.agent_token@, files);
    let entries = agent_entries(paths, session_dir, files);
    let denied = denials(paths.agent_token@, files);
    if entries.contains((path, Access::Write)) {
        let i = choose|i: int| 0 <= i < entries.len() && entries[i] == (path, Access::Write);
        if i >= 4 {
            assert(entries[i] == denied[i - 4]);
        }
    }
    assert(entries[0] == (paths.workdir@, Access::Write));
    assert(entries[1] == (session_dir, Access::Write));
}

/// The agent's own token is readable, and never denied under any spelling.
pub proof fn the_agent_token_is_readable_and_never_denied(
    paths: UpPaths,
    session_dir: Seq<char>,
    files: Seq<Option<String>>,
    path: Seq<char>,
)
    requires
        hostpath::same_path(path, paths.agent_token@),
    ensures
        agent_entries(paths, session_dir, files).contains((paths.agent_token@, Access::Read)),
        !agent_entries(paths, session_dir, files).contains((path, Access::Deny)),
{
    lemma_denials(paths.agent_token@, files);
    let entries = agent_entries(paths, session_dir, files);
    let denied = denials(paths.agent_token@, files);
    assert(entries[2] == (paths.agent_token@, Access::Read));
    if entries.contains((path, Access::Deny)) {
        let i = choose|i: int| 0 <= i < entries.len() && entries[i] == (path, Access::Deny);
        if i >= 4 {
            assert(entries[i] == denied[i - 4]);
        }
    }
}

/// Every capability file that exists is denied, but for the agent's own token.
pub proof fn every_other_capability_is_denied(
    paths: UpPaths,
    session_dir: Seq<char>,
    files: Seq<Option<String>>,
    k: int,
)
    requires
        0 <= k < files.len(),
        files[k] is Some,
        !hostpath::same_path(files[k]->0@, paths.agent_token@),
    ensures
        agent_entries(paths, session_dir, files).contains((files[k]->0@, Access::Deny)),
{
    lemma_denials(paths.agent_token@, files);
    let entry = (files[k]->0@, Access::Deny);
    let entries = agent_entries(paths, session_dir, files);
    let denied = denials(paths.agent_token@, files);
    assert(denied.contains(entry));
    let p = choose|p: int| 0 <= p < denied.len() && denied[p] == entry;
    assert(entries[p + 4] == entry);
}

/// The directory of a session database, if it has one.
pub open spec fn database_dir(session_db: Seq<char>) -> Option<Seq<char>> {
    match hostpath::parent_of(session_db) {
        Some(dir) => if dir.len() == 0 {
            None
        } else {
            Some(dir)
        },
        None => None,
    }
}

/// Whether a result is the answer to deriving the agent's policy.
pub open spec fn policy_answer(
    paths: UpPaths,
    session_dir: Option<Seq<char>>,
    files: Seq<Option<String>>,
    r: Result<Policy, UpError>,
) -> bool {
    if database_dir(paths.session_db@) is None || session_dir is None {
        r is Err && r->Err_0 is MissingSessionDir && r->Err_0->MissingSessionDir_0@
            == paths.session_db@
    } else {
        &&& r is Ok
        &&& confinement::entry_views(r->Ok_0.fs.entries@) == agent_entries(
            paths,
            session_dir->0,
            files,
        )
        &&& r->Ok_0.shell.workdir@ == paths.workdir@
        &&& r->Ok_0.shell.env@.len() == 0
        &&& r->Ok_0.network.proxy is None
        &&& !r->Ok_0.network.loopback
        &&& r->Ok_0.network.unix_sockets@.len() == 0
    }
}

impl UpPaths {
    /// Resolves the paths for `args` from what was found on the host.
    ///
    /// Returns [`UpError::Workdir`] when the workspace is missing or not a
    /// directory, [`UpError::MissingAgentToken`] when the agent's token file
    /// does not exist, and [`UpError::MissingAgent`] or
    /// [`UpError::NotExecutable`] when no agent binary can be found.
    pub fn resolve(args: &UpArgs, host: &HostPaths, probe: UpProbe) -> (r: Result<
        UpPaths,
        UpError,
    >)
        ensures
            resolve_answer(*args, *host, probe, r),
    {
        let workdir = match probe.workdir {
            Some(workdir) => workdir,
            None => return Err(UpError::Workdir(args.workdir.clone())),
        };
        let agent_token = match probe.agent_token {
            Some(agent_token) => agent_token,
            None => return Err(UpError::MissingAgentToken(args.agent_token_path(host))),
        };
        let explicit = match &args.agent {
            Some(agent) => Some(agent.as_str()),
            None => None,
        };
        let agent_binary = match resolve_agent(explicit, &probe.agent) {
            Ok(agent_binary) => agent_binary,
            Err(error) => return Err(error),
        };
        Ok(
            UpPaths {
                workdir,
                socket: given(&args.socket, host.default_socket.as_str()),
                agent_token,
                daemon_token: given(&args.token_file, host.default_tokens.as_str()),
                agent_binary,
                session_db: args.session_db_path(host),
            },
        )
    }

    /// The directory of the session database, to be created: none when the
    /// database has no parent directory.
    pub fn session_dir(&self) -> (r: Option<String>)
        ensures
            text::opt_view(r) == database_dir(self.session_db@),
    {
        match hostpath::parent(self.session_db.as_str()) {
            Some(dir) => if dir.as_str().is_empty() {
                None
            } else {
                Some(dir)
            },
            None => None,
        }
    }

    /// The agent's command, with every path absolute.
    ///
    /// The sandbox rewrites `HOME` to its scratch directory, so the agent cannot
    /// discover the daemon's socket, token, or database from the defaults; all
    /// three are passed explicitly.
    #[must_use]
    pub fn agent_command(&self, model: Option<&str>, resume: bool) -> (r: String)
        ensures
            r@ == text::join(
                agent_words(
                    *self,
                    match model {
                        Some(model) => Some(model@),
                        None => None,
                    },
                    resume,
                ),
                ' ',
            ),
    {
        let mut parts: Vec<String> = Vec::new();
        parts.push(quote(self.agent_binary.as_str()));
        parts.push("--socket".to_owned());
        parts.push(quote(self.socket.as_str()));
        parts.push("--token-file".to_owned());
        parts.push(quote(self.agent_token.as_str()));
        parts.push("--db".to_owned());
        parts.push(quote(self.session_db.as_str()));
        parts.push("--workdir".to_owned());
        parts.push(quote(self.workdir.as_str()));
        if let Some(model) = model {
            parts.push("--model".to_owned());
            parts.push(quote(model));
        }
        if resume {
            parts.push("--resume".to_owned());
        }
        proof {
            assert(text::views(parts@) =~= agent_words(
                *self,
                match model {
                    Some(model) => Some(model@),
                    None => None,
                },
                resume,
            ));
        }
        text::join_text(parts.as_slice(), ' ')
    }

    /// The publish command an operator can run to prompt the session.
    ///
    /// Every path is named explicitly: the session database in particular is
    /// neither the default database nor derived from the workspace, and the user
    /// token is repeated from the default so the command can be read without
    /// knowing that default.
    #[must_use]
    pub fn publish_command(&self, conversation: Option<&str>, user_token: &str) -> (r: String)
        ensures
            r@ == text::join(
                publish_words(
                    *self,
                    match conversation {
                        Some(conversation) => Some(conversation@),
                        None => None,
                    },
                    user_token@,
                ),
                ' ',
            ),
    {
        let mut parts: Vec<String> = Vec::new();
        parts.push("agentd-publish".to_owned());
        parts.push("--socket".to_owned());
        parts.push(quote(self.socket.as_str()));
        parts.push("--token-file".to_owned());
        parts.push(quote(user_token));
        parts.push("--db".to_owned());
        parts.push(quote(self.session_db.as_str()));
        parts.push("--workdir".to_owned());
        parts.push(quote(self.workdir.as_str()));
        if let Some(conversation) = conversation {
            parts.push("--conversation".to_owned());
            parts.push(quote(conversation));
        }
        parts.push("--inbox".to_owned());
        parts.push("'<your prompt>'".to_owned());
        proof {
            assert(text::views(parts@) =~= publish_words(
                *self,
                match conversation {
                    Some(conversation) => Some(conversation@),
                    None => None,
                },
                user_token@,
            ));
        }
        text::join_text(parts.as_slice(), ' ')
    }

    /// The daemon-side files the confined agent must not read, before they are
    /// resolved; `beside` are the files beside the agent's own token.
    ///
    /// The daemon's token file holds every capability, including authority; the
    /// other capability files beside the agent's own token are further
    /// capabilities; and the provider config names provider credentials.
    pub fn denied_capabilities(&self, beside: &[String]) -> (r: Vec<String>)
        ensures
            text::views(r@) == capability_files(
                self.agent_token@,
                self.daemon_token@,
                text::views(beside@),
            ),
    {
        let mut files: Vec<String> = Vec::new();
        files.push(self.daemon_token.clone());
        let dir = match hostpath::parent(self.agent_token.as_str()) {
            Some(dir) => dir,
            None => {
                proof {
                    assert(text::views(files@) =~= seq![self.daemon_token@]);
                }
                return files;
            },
        };
        let tokens = hostpath::join(dir.as_str(), TOKEN_FILE);
        if !text::same(tokens.as_str(), self.daemon_token.as_str()) {
            files.push(tokens);
        }
        files.push(hostpath::join(dir.as_str(), PROVIDERS_FILE));
        let ghost named = text::views(files@);
        let ghost others = text::views(beside@);
        proof {
            let own = seq![self.daemon_token@];
            let with_tokens = if tokens@ == self.daemon_token@ {
                own
            } else {
                own.push(tokens@)
            };
            assert(named =~= with_tokens.push(hostpath::joined(dir@, PROVIDERS_FILE@)));
            assert(named + token_files(others.take(0)) =~= named);
        }
        let mut i: usize = 0;
        while i < beside.len()
            invariant
                i <= beside@.len(),
                others == text::views(beside@),
                text::views(files@) == named + token_files(others.take(i as int)),
            decreases beside@.len() - i,
        {
            proof {
                assert(others.take(i + 1).drop_last() =~= others.take(i as int));
                assert(others.take(i + 1).last() == beside@[i as int]@);
            }
            if has_token_extension(beside[i].as_str()) {
                let ghost before = files@;
                files.push(beside[i].clone());
                proof {
                    assert(text::views(files@) =~= text::views(before).push(beside@[i as int]@));
                    assert(text::views(files@) =~= named + token_files(
                        others.take(i as int),
                    ).push(beside@[i as int]@));
                }
            }
            i = i + 1;
        }
        proof {
            assert(others.take(i as int) =~= others);
        }
        files
    }

    /// Builds the sandbox policy these paths imply; `session_dir` is the
    /// canonical directory of the session database, if it could be resolved, and
    /// `files` are the denied capability files in canonical form, as far as they
    /// exist.
    ///
    /// Writable: the workspace and the session database's directory. Readable:
    /// the agent's own token file and the agent binary itself, which names the
    /// file rather than its directory so nothing beside it becomes readable.
    /// Denied: the daemon's other capability files and its provider config —
    /// reads are broad under some backends, so they are removed explicitly.
    ///
    /// The denials are a snapshot of the files that exist when this is called; a
    /// capability file created afterwards is not denied.
    pub fn policy(&self, session_dir: Option<String>, files: &[Option<String>]) -> (r: Result<
        Policy,
        UpError,
    >)
        ensures
            if database_dir(self.session_db@) is None || session_dir is None {
                r is Err && r->Err_0 is MissingSessionDir && r->Err_0->MissingSessionDir_0@
                    == self.session_db@
            } else {
                &&& r is Ok
                &&& confinement::entry_views(r->Ok_0.fs.entries@) == agent_entries(
                    *self,
                    session_dir->0@,
                    files@,
                )
                &&& r->Ok_0.shell.workdir@ == self.workdir@
                &&& r->Ok_0.shell.env@.len() == 0
                &&& r->Ok_0.network.proxy is None
                &&& !r->Ok_0.network.loopback
                &&& r->Ok_0.network.unix_sockets@.len() == 0
            },
            policy_answer(*self, text::opt_view(session_dir), files@, r),
    {
        if self.session_dir().is_none() {
            return Err(UpError::MissingSessionDir(self.session_db.clone()));
        }
        let session_dir = match session_dir {
            Some(session_dir) => session_dir,
            None => return Err(UpError::MissingSessionDir(self.session_db.clone())),
        };
        let mut entries: Vec<FsEntry> = Vec::new();
        entries.push(FsEntry { path: self.workdir.clone(), access: Access::Write });
        let ghost dir = session_dir@;
        entries.push(FsEntry { path: session_dir, access: Access::Write });
        entries.push(FsEntry { path: self.agent_token.clone(), access: Access::Read });
        entries.push(FsEntry { path: self.agent_binary.clone(), access: Access::Read });
        let ghost granted = confinement::entry_views(entries@);
        proof {
            assert(granted =~= seq![
                (self.workdir@, Access::Write),
                (dir, Access::Write),
                (self.agent_token@, Access::Read),
                (self.agent_binary@, Access::Read),
            ]);
            assert(granted + denials(self.agent_token@, files@.take(0)) =~= granted);
        }
        let mut i: usize = 0;
        while i < files.len()
            invariant
                i <= files@.len(),
                confinement::entry_views(entries@) == granted + denials(
                    self.agent_token@,
                    files@.take(i as int),
                ),
            decreases files@.len() - i,
        {
            proof {
                assert(files@.take(i + 1).drop_last() =~= files@.take(i as int));
                assert(files@.take(i + 1).last() == files@[i as int]);
            }
            if let Some(path) = &files[i] {
                if !hostpath::same(path.as_str(), self.agent_token.as_str()) {
                    let ghost before = entries@;
                    entries.push(FsEntry { path: path.clone(), access: Access::Deny });
                    proof {
                        assert(confinement::entry_views(entries@) =~= confinement::entry_views(
                            before,
                        ).push((path@, Access::Deny)));
                        assert(confinement::entry_views(entries@) =~= granted + denials(
                            self.agent_token@,
                            files@.take(i as int),
                        ).push((path@, Access::Deny)));
                    }
                }
            }
            i = i + 1;
        }
        proof {
            assert(files@.take(i as int) =~= files@);
        }
        Ok(
            Policy {
                fs: FsPolicy { entries },
                shell: ShellPolicy { env: Vec::new(), workdir: self.workdir.clone() },
                network: NetworkPolicy {
                    proxy: None,
                    loopback: false,
                    unix_sockets: Vec::new(),
                },
            },
        )
    }
}

fn has_token_extension(path: &str) -> (r: bool)
    ensures
        r == is_token_file(path@),
{
    let name = match hostpath::file_name(path) {
        Some(name) => name,
        None => return false,
    };
    let chars = text::to_chars(name.as_str());
    let len: usize = chars.len();
    match scan::find_last(&chars, '.') {
        Some(dot) => {
            if dot == 0 {
                return false;
            }
            let extension = text::from_chars(&chars, dot + 1, len);
            proof {
                assert(extension@ =~= name@.skip(dot + 1));
            }
            text::same(extension.as_str(), "token")
        },
        None => false,
    }
}

/// The event that requests the launched session.
pub open spec fn kickoff_event(session_id: Seq<char>) -> EventValue {
    event_of(SESSION_REQUESTED@, json::empty_object().set("session_id"@, jtext(session_id)))
}

/// The event that requests the launched session.
pub fn kickoff(session_id: &str) -> (r: Event)
    ensures
        r@ == kickoff_event(session_id@),
{
    Event::new(SESSION_REQUESTED, Json::object().with("session_id", Json::text(session_id)))
}

/// The session that is launched is the one that was asked for, whatever the id
/// of the event.
pub proof fn the_kickoff_requests_its_session(session_id: Seq<char>, event_id: Seq<char>)
    ensures
        session::requested_id(kickoff_event(session_id), event_id) == session_id,
{
}

/// What happened while the agent's announcement is awaited.
#[derive(Debug)]
pub enum WaitEvent {
    /// An event was recorded.
    Recorded(Event),
    /// Events were missed.
    Lagged,
    /// The subscription closed.
    Closed,
    /// The deadline passed.
    TimedOut,
}

/// Why no announcement is awaited any longer.
#[derive(Clone, Copy, Debug, PartialEq, Eq, Structural)]
pub enum GaveUp {
    /// The session ended before it announced a conversation.
    SessionEnded,
    /// The subscription closed.
    Closed,
    /// The agent did not announce its conversation in time.
    TimedOut,
}

/// What becomes of the wait for the agent's announcement.
#[derive(Debug)]
pub enum WaitStep {
    /// It goes on.
    Wait,
    /// The conversation was announced.
    Found(String),
    /// It is over without one.
    GiveUp(GaveUp),
}

/// The wait for the announcement of a launched session.
///
/// The agent picks the conversation id itself, so the announcement is the only
/// way to learn which conversation its session serves; pinning it means the
/// printed command reaches *that* session even when the database already holds
/// several for the workspace.
#[derive(Debug)]
pub struct ConversationWait {
    /// The type of the event by which an agent announces its conversation.
    pub announcement: String,
    /// The workspace of the launched session.
    pub workdir: String,
    /// The id of the launched session.
    pub session_id: String,
}

/// The conversation an event announces for a workspace, if it does.
pub open spec fn announced(
    event: EventValue,
    announcement: Seq<char>,
    workdir: Seq<char>,
) -> Option<Seq<char>> {
    if event.kind == announcement && json::text_field(event.data, "workdir"@) == Some(workdir) {
        json::text_field(event.data, "conversation_id"@)
    } else {
        None
    }
}

/// Whether a step is the answer to an event of a wait: the end of the own session
/// ends the wait, an announcement for the own workspace is found, and anything
/// else is waited past.
pub open spec fn wait_answer(
    announcement: Seq<char>,
    workdir: Seq<char>,
    session_id: Seq<char>,
    event: WaitEvent,
    step: WaitStep,
) -> bool {
    match event {
        WaitEvent::Recorded(event) => if session::closes(event@, session_id) {
            step == WaitStep::GiveUp(GaveUp::SessionEnded)
        } else {
            match announced(event@, announcement, workdir) {
                Some(conversation) => step is Found && step->Found_0@ == conversation,
                None => step is Wait,
            }
        },
        WaitEvent::Lagged => step is Wait,
        WaitEvent::Closed => step == WaitStep::GiveUp(GaveUp::Closed),
        WaitEvent::TimedOut => step == WaitStep::GiveUp(GaveUp::TimedOut),
    }
}

/// Another instance's announcement is never taken for the own: what is found was
/// announced for the own workspace.
pub proof fn only_the_own_workspace_is_found(
    announcement: Seq<char>,
    workdir: Seq<char>,
    session_id: Seq<char>,
    event: WaitEvent,
    step: WaitStep,
)
    requires
        wait_answer(announcement, workdir, session_id, event, step),
        step is Found,
    ensures
        event is Recorded,
        event->Recorded_0@.kind == announcement,
        json::text_field(event->Recorded_0@.data, "workdir"@) == Some(workdir),
        json::text_field(event->Recorded_0@.data, "conversation_id"@) == Some(step->Found_0@),
{
}

impl ConversationWait {
    /// Takes what happened into account.
    pub fn step(&self, event: WaitEvent) -> (r: WaitStep)
        ensures
            wait_answer(self.announcement@, self.workdir@, self.session_id@, event, r),
    {
        match event {
            WaitEvent::Recorded(event) => {
                let kind = event.kind.as_str();
                if text::same(kind, SESSION_EXITED) || text::same(kind, SESSION_FAILED) {
                    let ours = match event.data.get_str("session_id") {
                        Some(session_id) => text::same(session_id, self.session_id.as_str()),
                        None => false,
                    };
                    if ours {
                        return WaitStep::GiveUp(GaveUp::SessionEnded);
                    }
                }
                if !text::same(kind, self.announcement.as_str()) {
                    return WaitStep::Wait;
                }
                let here = match event.data.get_str("workdir") {
                    Some(workdir) => text::same(workdir, self.workdir.as_str()),
                    None => false,
                };
                if !here {
                    return WaitStep::Wait;
                }
                match event.data.get_str("conversation_id") {
                    Some(conversation) => WaitStep::Found(conversation.to_owned()),
                    None => WaitStep::Wait,
                }
            },
            WaitEvent::Lagged => WaitStep::Wait,
            WaitEvent::Closed => WaitStep::GiveUp(GaveUp::Closed),
            WaitEvent::TimedOut => WaitStep::GiveUp(GaveUp::TimedOut),
        }
    }
}

/// The derived policy after its validation: `fault` is what the policy's own
/// validation found wrong with it, if anything.
pub fn validated(policy: Policy, fault: Option<String>) -> (r: Result<Policy, UpError>)
    ensures
        match fault {
            Some(error) => r is Err && r->Err_0 == UpError::Policy(error),
            None => r == Ok::<Policy, UpError>(policy),
        },
{
    match fault {
        Some(error) => Err(UpError::Policy(error)),
        None => Ok(policy),
    }
}

} // verus!
