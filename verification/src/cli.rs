//! The decisions of the command line: what a session is run with, and what an
//! operator is told.

use crate::confinement::{self, HostPort, Policy};
use crate::hostpath;
use crate::init::Initialized;
use crate::proxy;
use crate::session::Supervision;
use crate::text;
use vstd::prelude::*;

verus! {

broadcast use vstd::string::group_string_axioms;

/// The protocol bridges a supervised session can speak.
#[derive(Clone, Copy, Debug, PartialEq, Eq, Structural)]
pub enum BridgeKind {
    /// The Model Context Protocol over stdio (newline-delimited JSON-RPC 2.0).
    Mcp,
    /// The Agent Client Protocol over stdio; the daemon is the client.
    Acp,
}

/// Why the daemon stopped. The causes are given in words.
#[derive(Debug)]
pub enum RunError {
    /// Serving failed.
    Serve(String),
    /// The event log could not be opened.
    Log(String),
    /// The token file could not be loaded.
    Auth(String),
    /// A session command was given without a sandbox policy.
    MissingSandboxPolicy,
    /// The sandbox policy could not be read.
    Io(String),
    /// The sandbox policy could not be parsed.
    Policy(String),
    /// The session manager could not be built.
    Session(String),
    /// An egress destination is not a host and a port.
    Egress(String),
    /// The egress proxy could not be started.
    Proxy(String),
    /// The provider config could not be loaded.
    Providers(String),
    /// The model an agent will ask for does not resolve: why, and the provider
    /// config that was checked.
    Model(String, String),
    /// The runtime directory could not be initialized.
    Init(String),
    /// The token file does not exist.
    MissingTokens(String),
    /// The one-shot launch could not be derived.
    Up(String),
    /// A background task failed.
    Task(String),
}

/// The error in words.
pub open spec fn run_error_text(error: RunError) -> Seq<char> {
    match error {
        RunError::Serve(cause) => "failed to serve: "@ + cause@,
        RunError::Log(cause) => "failed to open the event log: "@ + cause@,
        RunError::Auth(cause) => "failed to load the token file: "@ + cause@,
        RunError::MissingSandboxPolicy => "--session-command requires --sandbox-policy"@,
        RunError::Io(cause) => "failed to read the sandbox policy: "@ + cause@,
        RunError::Policy(cause) => "failed to parse the sandbox policy: "@ + cause@,
        RunError::Session(cause) => "failed to build the session manager: "@ + cause@,
        RunError::Egress(entry) => "--session-egress must be host:port: "@ + entry@,
        RunError::Proxy(cause) => "failed to start the egress proxy: "@ + cause@,
        RunError::Providers(cause) => "failed to load the provider config: "@ + cause@,
        RunError::Model(reason, path) => "no usable model at startup: "@ + reason@ + " (checked "@
            + path@
            + "); add the model under \"models\", fix \"default_model\", or pass --model naming a configured alias or a `provider/model` pair"@,
        RunError::Init(cause) => "failed to initialize the runtime directory: "@ + cause@,
        RunError::MissingTokens(path) => "the token file "@ + path@
            + " does not exist; run `agentd init` to create it"@,
        RunError::Up(cause) => "failed to derive the one-shot launch: "@ + cause@,
        RunError::Task(cause) => "a background task failed: "@ + cause@,
    }
}

impl RunError {
    /// The error in words.
    pub fn to_string(&self) -> (r: String)
        ensures
            r@ == run_error_text(*self),
    {
        match self {
            RunError::Serve(cause) => text::concat("failed to serve: ", cause.as_str()),
            RunError::Log(cause) => text::concat("failed to open the event log: ", cause.as_str()),
            RunError::Auth(cause) => text::concat(
                "failed to load the token file: ",
                cause.as_str(),
            ),
            RunError::MissingSandboxPolicy => {
                "--session-command requires --sandbox-policy".to_owned()
            },
            RunError::Io(cause) => text::concat(
                "failed to read the sandbox policy: ",
                cause.as_str(),
            ),
            RunError::Policy(cause) => text::concat(
                "failed to parse the sandbox policy: ",
                cause.as_str(),
            ),
            RunError::Session(cause) => text::concat(
                "failed to build the session manager: ",
                cause.as_str(),
            ),
            RunError::Egress(entry) => text::concat(
                "--session-egress must be host:port: ",
                entry.as_str(),
            ),
            RunError::Proxy(cause) => text::concat(
                "failed to start the egress proxy: ",
                cause.as_str(),
            ),
            RunError::Providers(cause) => text::concat(
                "failed to load the provider config: ",
                cause.as_str(),
            ),
            RunError::Model(reason, path) => {
                let mut message = text::concat("no usable model at startup: ", reason.as_str());
                message.append(" (checked ");
                message.append(path.as_str());
                message.append(
                    "); add the model under \"models\", fix \"default_model\", or pass --model naming a configured alias or a `provider/model` pair",
                );
                message
            },
            RunError::Init(cause) => text::concat(
                "failed to initialize the runtime directory: ",
                cause.as_str(),
            ),
            RunError::MissingTokens(path) => {
                let mut message = text::concat("the token file ", path.as_str());
                message.append(" does not exist; run `agentd init` to create it");
                message
            },
            RunError::Up(cause) => text::concat(
                "failed to derive the one-shot launch: ",
                cause.as_str(),
            ),
            RunError::Task(cause) => text::concat("a background task failed: ", cause.as_str()),
        }
    }
}

/// The destination an egress rule names: a host that is not empty, and a port
/// that is not zero.
pub open spec fn egress_destination(entry: Seq<char>) -> Option<(Seq<char>, u16)> {
    match proxy::authority(entry) {
        Some((host, port)) => if host.len() > 0 && port != 0 {
            Some((host, port))
        } else {
            None
        },
        None => None,
    }
}

/// Whether a result is the answer to parsing egress rules: every destination, in
/// order, or the first rule that is none.
pub open spec fn parsed_egress(
    raw: Seq<Seq<char>>,
    r: Result<Vec<HostPort>, RunError>,
) -> bool {
    match r {
        Ok(destinations) => {
            &&& destinations@.len() == raw.len()
            &&& forall|i: int|
                0 <= i < raw.len() ==> egress_destination(#[trigger] raw[i]) == Some(
                    (destinations@[i].host@, destinations@[i].port),
                )
        },
        Err(error) => exists|i: int|
            {
                &&& 0 <= i < raw.len()
                &&& egress_destination(#[trigger] raw[i]) is None
                &&& error is Egress
                &&& error->Egress_0@ == raw[i]
                &&& forall|j: int| 0 <= j < i ==> egress_destination(#[trigger] raw[j]) is Some
            },
    }
}

/// Parses `host:port` egress destinations, honoring a bracketed IPv6 literal
/// (`[::1]:443`). The first one that is not a destination fails them all.
pub fn parse_egress(raw: &[String]) -> (r: Result<Vec<HostPort>, RunError>)
    ensures
        match r {
            Ok(destinations) => {
                &&& destinations@.len() == raw@.len()
                &&& forall|i: int|
                    0 <= i < raw@.len() ==> egress_destination(#[trigger] raw@[i]@) == Some(
                        (destinations@[i].host@, destinations@[i].port),
                    )
            },
            Err(error) => exists|i: int|
                {
                    &&& 0 <= i < raw@.len()
                    &&& egress_destination(#[trigger] raw@[i]@) is None
                    &&& error is Egress
                    &&& error->Egress_0@ == raw@[i]@
                    &&& forall|j: int|
                        0 <= j < i ==> egress_destination(#[trigger] raw@[j]@) is Some
                },
        },
        parsed_egress(text::views(raw@), r),
{
    let mut destinations: Vec<HostPort> = Vec::new();
    let mut i: usize = 0;
    while i < raw.len()
        invariant
            i <= raw@.len(),
            destinations@.len() == i,
            forall|k: int|
                0 <= k < i ==> egress_destination(#[trigger] raw@[k]@) == Some(
                    (destinations@[k].host@, destinations@[k].port),
                ),
        decreases raw@.len() - i,
    {
        match proxy::parse_authority(raw[i].as_str()) {
            Some((host, port)) => {
                if host.as_str().is_empty() || port == 0 {
                    proof {
                        assert(egress_destination(raw@[i as int]@) is None);
                        assert(egress_destination(text::views(raw@)[i as int]) is None);
                    }
                    return Err(RunError::Egress(raw[i].clone()));
                }
                destinations.push(HostPort { host, port });
            },
            None => {
                proof {
                    assert(egress_destination(raw@[i as int]@) is None);
                    assert(egress_destination(text::views(raw@)[i as int]) is None);
                }
                return Err(RunError::Egress(raw[i].clone()));
            },
        }
        i = i + 1;
    }
    Ok(destinations)
}

/// The session options of the command line.
#[derive(Clone, Debug)]
pub struct SessionFlags {
    /// The command to run in a sandbox when a session is requested.
    pub command: Option<String>,
    /// The sandbox policy file used for the command.
    pub policy_path: Option<String>,
    /// The agent id recorded on session events.
    pub agent_id: String,
    /// The protocol bridge for the command.
    pub bridge: Option<BridgeKind>,
    /// The destinations the session's proxy may tunnel to, `host:port`.
    pub egress: Vec<String>,
    /// Whether the session may use loopback freely.
    pub loopback: bool,
    /// How many seconds an approver is waited for before a destination that is
    /// on no rule is denied.
    pub egress_approval_secs: Option<u64>,
    /// How often a crashed session is restarted.
    pub max_restarts: u32,
    /// How many seconds a session may live.
    pub lifetime_secs: Option<u64>,
}

/// What the session manager is started with.
#[derive(Debug)]
pub struct SessionOptions {
    /// The command to run.
    pub command: String,
    /// The sandbox policy file.
    pub policy_path: String,
    /// The agent id recorded on session events.
    pub agent_id: String,
    /// How the session is supervised.
    pub supervision: Supervision,
    /// The protocol bridge.
    pub bridge: Option<BridgeKind>,
    /// The destinations the session's proxy may tunnel to. Empty leaves egress
    /// denied (unless approval is enabled).
    pub egress: Vec<HostPort>,
    /// How many milliseconds to wait for an approver before denying a
    /// destination that is not on the static allowlist. `None` denies unknown
    /// destinations outright.
    pub egress_approval: Option<u64>,
    /// Whether the session may use loopback freely.
    pub loopback: bool,
}

/// Seconds in milliseconds, or as many as can be counted.
pub open spec fn millis_of(secs: u64) -> u64 {
    if secs * 1000 > u64::MAX {
        u64::MAX
    } else {
        (secs * 1000) as u64
    }
}

/// Seconds in milliseconds, or as many as can be counted.
pub fn millis(secs: u64) -> (r: u64)
    ensures
        r == millis_of(secs),
{
    if secs > u64::MAX / 1000 {
        u64::MAX
    } else {
        secs * 1000
    }
}

/// Seconds in milliseconds, where there are any.
pub open spec fn opt_millis_of(secs: Option<u64>) -> Option<u64> {
    match secs {
        Some(secs) => Some(millis_of(secs)),
        None => None,
    }
}

fn opt_millis(secs: Option<u64>) -> (r: Option<u64>)
    ensures
        r == opt_millis_of(secs),
{
    match secs {
        Some(secs) => Some(millis(secs)),
        None => None,
    }
}

/// How a session with these flags is supervised.
pub fn supervision(max_restarts: u32, lifetime_secs: Option<u64>) -> (r: Supervision)
    ensures
        r == (Supervision {
            max_restarts,
            restart_backoff: 1000,
            lifetime: opt_millis_of(lifetime_secs),
        }),
{
    Supervision { max_restarts, restart_backoff: 1000, lifetime: opt_millis(lifetime_secs) }
}

/// Whether flags mean nothing: they are about a session, and there is no command.
pub open spec fn idle_flags(flags: SessionFlags) -> bool {
    flags.command is None && (flags.bridge is Some || flags.egress@.len() > 0 || flags.loopback)
}

/// Whether session flags were given that mean nothing without a command.
pub fn flags_ignored(flags: &SessionFlags) -> (r: bool)
    ensures
        r == (flags.command is None && (flags.bridge is Some || flags.egress@.len() > 0
            || flags.loopback)),
        r == idle_flags(*flags),
{
    flags.command.is_none() && (flags.bridge.is_some() || flags.egress.len() > 0 || flags.loopback)
}

/// Whether a result is the answer to session flags: nothing without a command, which
/// needs a policy, and otherwise what was asked for, once every destination is one.
pub open spec fn options_answer(
    flags: SessionFlags,
    r: Result<Option<SessionOptions>, RunError>,
) -> bool {
    if flags.command is None {
        r is Ok && r->Ok_0 is None
    } else if flags.policy_path is None {
        r is Err && r->Err_0 is MissingSandboxPolicy
    } else {
        match r {
            Ok(options) => {
                &&& options is Some
                &&& parsed_egress(text::views(flags.egress@), Ok(options->0.egress))
                &&& options->0.command == flags.command->0
                &&& options->0.policy_path == flags.policy_path->0
                &&& options->0.agent_id == flags.agent_id
                &&& options->0.supervision.max_restarts == flags.max_restarts
                &&& options->0.supervision.restart_backoff == 1000
                &&& options->0.supervision.lifetime == opt_millis_of(flags.lifetime_secs)
                &&& options->0.bridge == flags.bridge
                &&& options->0.egress_approval == opt_millis_of(flags.egress_approval_secs)
                &&& options->0.loopback == flags.loopback
            },
            Err(error) => parsed_egress(text::views(flags.egress@), Err(error)),
        }
    }
}

/// What the session manager is started with: nothing without a command, which
/// needs a sandbox policy.
pub fn session_options(flags: SessionFlags) -> (r: Result<Option<SessionOptions>, RunError>)
    ensures
        match flags.command {
            None => r is Ok && r->Ok_0 is None,
            Some(command) => match flags.policy_path {
                None => r is Err && r->Err_0 is MissingSandboxPolicy,
                Some(policy_path) => match r {
                    Ok(options) => {
                        &&& options is Some
                        &&& options->0.command == command
                        &&& options->0.policy_path == policy_path
                        &&& options->0.agent_id == flags.agent_id
                        &&& options->0.supervision == (Supervision {
                            max_restarts: flags.max_restarts,
                            restart_backoff: 1000,
                            lifetime: opt_millis_of(flags.lifetime_secs),
                        })
                        &&& options->0.bridge == flags.bridge
                        &&& options->0.egress@.len() == flags.egress@.len()
                        &&& forall|i: int|
                            0 <= i < flags.egress@.len() ==> egress_destination(
                                #[trigger] flags.egress@[i]@,
                            ) == Some(
                                (options->0.egress@[i].host@, options->0.egress@[i].port),
                            )
                        &&& options->0.egress_approval == opt_millis_of(
                            flags.egress_approval_secs,
                        )
                        &&& options->0.loopback == flags.loopback
                    },
                    Err(error) => exists|i: int|
                        {
                            &&& 0 <= i < flags.egress@.len()
                            &&& egress_destination(#[trigger] flags.egress@[i]@) is None
                            &&& error is Egress
                            &&& error->Egress_0@ == flags.egress@[i]@
                            &&& forall|j: int|
                                0 <= j < i ==> egress_destination(
                                    #[trigger] flags.egress@[j]@,
                                ) is Some
                        },
                },
            },
        },
        options_answer(flags, r),
{
    let command = match flags.command {
        Some(command) => command,
        None => return Ok(None),
    };
    let policy_path = match flags.policy_path {
        Some(policy_path) => policy_path,
        None => return Err(RunError::MissingSandboxPolicy),
    };
    let egress = match parse_egress(flags.egress.as_slice()) {
        Ok(egress) => egress,
        Err(error) => return Err(error),
    };
    Ok(
        Some(
            SessionOptions {
                command,
                policy_path,
                agent_id: flags.agent_id,
                supervision: supervision(flags.max_restarts, flags.lifetime_secs),
                bridge: flags.bridge,
                egress,
                egress_approval: opt_millis(flags.egress_approval_secs),
                loopback: flags.loopback,
            },
        ),
    )
}

/// Whether a session has a way out that a proxy must guard.
pub open spec fn has_egress(options: SessionOptions) -> bool {
    options.egress@.len() > 0 || options.egress_approval is Some
}

/// Whether a proxy is started: there is a static allowlist or an approver to
/// consult. With neither, egress is denied outright.
pub fn wants_proxy(options: &SessionOptions) -> (r: bool)
    ensures
        r == (options.egress@.len() > 0 || options.egress_approval is Some),
        r == has_egress(*options),
{
    options.egress.len() > 0 || options.egress_approval.is_some()
}

/// What the session's proxy allows: the static allowlist, and an approver where
/// one is asked.
pub fn egress_config(egress: Vec<HostPort>, approval: Option<u64>) -> (r: proxy::Egress)
    ensures
        r.listed_destinations() == confinement::destination_views(egress@),
        r.approval_timeout() == approval,
{
    let config = proxy::Egress::new(egress);
    match approval {
        Some(timeout_ms) => config.with_approver(timeout_ms),
        None => config,
    }
}

/// Whether a socket is among some.
pub open spec fn reaches(sockets: Seq<Seq<char>>, socket: Seq<char>) -> bool {
    exists|i: int| 0 <= i < sockets.len() && hostpath::same_path(#[trigger] sockets[i], socket)
}

/// The sockets a session may reach, with one more.
pub open spec fn reaching(sockets: Seq<Seq<char>>, socket: Seq<char>) -> Seq<Seq<char>> {
    if reaches(sockets, socket) {
        sockets
    } else {
        sockets.push(socket)
    }
}

/// A session is granted a socket once, however often it is granted.
pub proof fn granting_again_changes_nothing(sockets: Seq<Seq<char>>, socket: Seq<char>)
    ensures
        reaching(reaching(sockets, socket), socket) == reaching(sockets, socket),
        reaches(reaching(sockets, socket), socket),
{
    let once = reaching(sockets, socket);
    if !reaches(sockets, socket) {
        assert(once[sockets.len() as int] == socket);
    }
}

/// Whether a policy is another with the daemon's socket granted, and free loopback
/// where it was asked for.
pub open spec fn granted(before: Policy, after: Policy, socket: Seq<char>, loopback: bool) -> bool {
    &&& after.fs == before.fs
    &&& after.shell == before.shell
    &&& after.network.proxy == before.network.proxy
    &&& after.network.loopback == (before.network.loopback || loopback)
    &&& text::views(after.network.unix_sockets@) == reaching(
        text::views(before.network.unix_sockets@),
        socket,
    )
}

/// Grants a session the daemon's own event socket, so the launched node can
/// reach the daemon it is supervised by, and free loopback where it was asked
/// for.
pub fn grant_session(policy: &mut Policy, socket: &str, loopback: bool)
    ensures
        final(policy).fs == old(policy).fs,
        final(policy).shell == old(policy).shell,
        final(policy).network.proxy == old(policy).network.proxy,
        final(policy).network.loopback == (old(policy).network.loopback || loopback),
        text::views(final(policy).network.unix_sockets@) == reaching(
            text::views(old(policy).network.unix_sockets@),
            socket@,
        ),
        granted(*old(policy), *final(policy), socket@, loopback),
{
    let ghost sockets = text::views(policy.network.unix_sockets@);
    let mut found = false;
    let mut i: usize = 0;
    while i < policy.network.unix_sockets.len()
        invariant
            *policy == *old(policy),
            i <= policy.network.unix_sockets@.len(),
            sockets == text::views(policy.network.unix_sockets@),
            found == exists|k: int|
                0 <= k < i && hostpath::same_path(#[trigger] sockets[k], socket@),
        decreases policy.network.unix_sockets@.len() - i,
    {
        let same = hostpath::same(policy.network.unix_sockets[i].as_str(), socket);
        proof {
            assert(sockets[i as int] == policy.network.unix_sockets@[i as int]@);
        }
        if same {
            found = true;
        }
        i = i + 1;
    }
    if !found {
        policy.network.unix_sockets.push(socket.to_owned());
        proof {
            assert(text::views(policy.network.unix_sockets@) =~= sockets.push(socket@));
        }
    }
    if loopback {
        policy.network.loopback = true;
    }
}

/// What an operator is told of one client: its secret is shown once.
pub open spec fn client_line(name: Seq<char>, secret: Seq<char>, path: Seq<char>) -> Seq<char> {
    "    "@ + name + ": "@ + secret + "  ("@ + path + ")\n"@
}

/// What an operator is told of some clients.
pub open spec fn client_lines(initialized: Initialized, count: int) -> Seq<char>
    decreases count,
{
    if count <= 0 {
        Seq::empty()
    } else {
        let client = initialized.clients@[count - 1];
        client_lines(initialized, count - 1) + client_line(
            client.name@,
            client.secret@,
            client.path@,
        )
    }
}

/// What an operator is told after the setup.
pub open spec fn setup_report(
    initialized: Initialized,
    socket: Seq<char>,
    log: Seq<char>,
) -> Seq<char> {
    "initialized "@ + initialized.config_dir@ + "\n  tokens: "@ + initialized.tokens_path@
        + "\n  providers: "@ + initialized.providers_path@ + if initialized.providers_created {
        " (edit to add your provider and models)\n"@
    } else {
        " (left as-is)\n"@
    } + "  clients (secrets are shown once):\n"@ + client_lines(
        initialized,
        initialized.clients@.len() as int,
    ) + "start the daemon with:\n  agentd serve --socket "@ + socket + " --log-path "@ + log
        + " --token-file "@ + initialized.tokens_path@
        + "\nor run the daemon and a sandboxed agent in one shot with:\n  agentd up --workdir <workspace> --model <model>\n  (edit "@
        + initialized.providers_path@ + " first: it names a local server and no model)\n"@
}

/// The provider config that applies.
pub open spec fn applying(named: Option<String>, default: String, exists: bool) -> Option<String> {
    match named {
        Some(path) => Some(path),
        None => if exists {
            Some(default)
        } else {
            None
        },
    }
}

/// The provider config that applies: the named one, or the default one when it
/// exists. Without either there is none.
pub fn provider_config(named: Option<String>, default: String, default_exists: bool) -> (r: Option<
    String,
>)
    ensures
        r == match named {
            Some(path) => Some(path),
            None => if default_exists {
                Some(default)
            } else {
                None
            },
        },
        r == applying(named, default, default_exists),
{
    match named {
        Some(path) => Some(path),
        None => if default_exists {
            Some(default)
        } else {
            None
        },
    }
}

/// What an operator is told after the setup: the paths that were created, the
/// secrets once so they can be copied into client commands, and how to go on.
pub fn describe_setup(initialized: &Initialized, socket: &str, log: &str) -> (r: String)
    ensures
        r@ == setup_report(*initialized, socket@, log@),
{
    let mut report = "initialized ".to_owned();
    report.append(initialized.config_dir.as_str());
    report.append("\n  tokens: ");
    report.append(initialized.tokens_path.as_str());
    report.append("\n  providers: ");
    report.append(initialized.providers_path.as_str());
    if initialized.providers_created {
        report.append(" (edit to add your provider and models)\n");
    } else {
        report.append(" (left as-is)\n");
    }
    report.append("  clients (secrets are shown once):\n");
    let ghost head = report@;
    proof {
        assert(head + client_lines(*initialized, 0) =~= head);
    }
    let mut i: usize = 0;
    while i < initialized.clients.len()
        invariant
            i <= initialized.clients@.len(),
            report@ == head + client_lines(*initialized, i as int),
        decreases initialized.clients@.len() - i,
    {
        let ghost before = report@;
        let client = &initialized.clients[i];
        report.append("    ");
        report.append(client.name.as_str());
        report.append(": ");
        report.append(client.secret.as_str());
        report.append("  (");
        report.append(client.path.as_str());
        report.append(")\n");
        proof {
            assert(report@ =~= before + client_line(client.name@, client.secret@, client.path@));
            assert(client_lines(*initialized, i + 1) == client_lines(*initialized, i as int)
                + client_line(client.name@, client.secret@, client.path@));
            assert(report@ =~= head + client_lines(*initialized, i + 1));
        }
        i = i + 1;
    }
    report.append("start the daemon with:\n  agentd serve --socket ");
    report.append(socket);
    report.append(" --log-path ");
    report.append(log);
    report.append(" --token-file ");
    report.append(initialized.tokens_path.as_str());
    report.append(
        "\nor run the daemon and a sandboxed agent in one shot with:\n  agentd up --workdir <workspace> --model <model>\n  (edit ",
    );
    report.append(initialized.providers_path.as_str());
    report.append(" first: it names a local server and no model)\n");
    report
}

} // verus!
