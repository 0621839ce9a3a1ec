//! What the command line promises.

use crate::cli::{self, RunError, SessionFlags, SessionOptions};
use crate::confinement::{self, HostPort, Policy};
use crate::hostpath;
use crate::init::Initialized;
use crate::proxy;
use crate::text;
use vstd::prelude::*;

verus! {

broadcast use vstd::string::group_string_axioms;

/// Seconds are a thousand milliseconds each, up to as many as can be counted; no
/// limit stays none.
pub proof fn seconds_are_a_thousand_milliseconds(secs: u64)
    ensures
        secs <= u64::MAX / 1000 ==> cli::millis_of(secs) == secs * 1000,
        secs > u64::MAX / 1000 ==> cli::millis_of(secs) == u64::MAX,
        cli::opt_millis_of(Some(secs)) == Some(cli::millis_of(secs)),
        cli::opt_millis_of(None) is None,
{
}

/// A destination is a host that is named and a port that is not zero.
pub proof fn a_destination_is_a_host_and_a_port(host: Seq<char>, port: u16, entry: Seq<char>)
    ensures
        proxy::authority(entry) == Some((host, port)) && host.len() > 0 && port > 0
            ==> cli::egress_destination(entry) == Some((host, port)),
        proxy::authority(entry) == Some((host, port)) && (host.len() == 0 || port == 0)
            ==> cli::egress_destination(entry) is None,
        proxy::authority(entry) is None ==> cli::egress_destination(entry) is None,
{
}

/// A session reaches the socket it is granted, and every socket that it reached
/// before, in order; one that it reaches under any spelling is not added again.
pub proof fn a_grant_adds_one_socket(sockets: Seq<Seq<char>>, socket: Seq<char>, i: int)
    ensures
        ({
            let after = cli::reaching(sockets, socket);
            &&& 0 <= i < sockets.len() ==> i < after.len() && after[i] == sockets[i]
            &&& 0 <= i < sockets.len() && hostpath::components(sockets[i]) == hostpath::components(
                socket,
            ) ==> after == sockets
            &&& (forall|k: int|
                0 <= k < sockets.len() ==> hostpath::components(#[trigger] sockets[k])
                    != hostpath::components(socket)) ==> after == sockets.push(socket)
        }),
{
}

/// An operator is told each client, in order, with its secret and its file.
pub proof fn every_client_is_shown(initialized: Initialized, count: int)
    requires
        0 <= count < initialized.clients@.len(),
    ensures
        cli::client_lines(initialized, 0) == Seq::<char>::empty(),
        cli::client_lines(initialized, count + 1) == cli::client_lines(initialized, count) + ("    "@
            + initialized.clients@[count].name@ + ": "@ + initialized.clients@[count].secret@
            + "  ("@ + initialized.clients@[count].path@ + ")\n"@),
{
}

/// An operator is told where everything is, all the clients, and how to go on.
pub proof fn the_setup_is_described(initialized: Initialized, socket: Seq<char>, log: Seq<char>)
    ensures
        ({
            let places = "initialized "@ + initialized.config_dir@ + "\n  tokens: "@
                + initialized.tokens_path@ + "\n  providers: "@ + initialized.providers_path@;
            let shown = "  clients (secrets are shown once):\n"@;
            let clients = cli::client_lines(initialized, initialized.clients@.len() as int);
            let serve = "start the daemon with:\n  agentd serve --socket "@;
            let report = cli::setup_report(initialized, socket, log);
            let rest =
                "\nor run the daemon and a sandboxed agent in one shot with:\n  agentd up --workdir <workspace> --model <model>\n  (edit "@;
            let last = " first: it names a local server and no model)\n"@;
            &&& initialized.providers_created ==> report == places
                + " (edit to add your provider and models)\n"@ + shown + clients + serve + socket
                + " --log-path "@ + log + " --token-file "@ + initialized.tokens_path@ + rest
                + initialized.providers_path@ + last
            &&& !initialized.providers_created ==> report == places + " (left as-is)\n"@ + shown
                + clients + serve + socket + " --log-path "@ + log + " --token-file "@
                + initialized.tokens_path@ + rest + initialized.providers_path@ + last
        }),
{
}

/// An error says what failed and passes its cause on.
pub proof fn errors_pass_their_cause_on(cause: String, path: String)
    ensures
        cli::run_error_text(RunError::Serve(cause)) == "failed to serve: "@ + cause@,
        cli::run_error_text(RunError::Log(cause)) == "failed to open the event log: "@ + cause@,
        cli::run_error_text(RunError::Auth(cause)) == "failed to load the token file: "@ + cause@,
        cli::run_error_text(RunError::MissingSandboxPolicy)
            == "--session-command requires --sandbox-policy"@,
        cli::run_error_text(RunError::Io(cause)) == "failed to read the sandbox policy: "@ + cause@,
        cli::run_error_text(RunError::Policy(cause)) == "failed to parse the sandbox policy: "@
            + cause@,
        cli::run_error_text(RunError::Session(cause)) == "failed to build the session manager: "@
            + cause@,
        cli::run_error_text(RunError::Egress(cause)) == "--session-egress must be host:port: "@
            + cause@,
        cli::run_error_text(RunError::Proxy(cause)) == "failed to start the egress proxy: "@
            + cause@,
        cli::run_error_text(RunError::Providers(cause)) == "failed to load the provider config: "@
            + cause@,
        cli::run_error_text(RunError::Model(cause, path)) == "no usable model at startup: "@
            + cause@ + " (checked "@ + path@
            + "); add the model under \"models\", fix \"default_model\", or pass --model naming a configured alias or a `provider/model` pair"@,
        cli::run_error_text(RunError::Init(cause))
            == "failed to initialize the runtime directory: "@ + cause@,
        cli::run_error_text(RunError::MissingTokens(path)) == "the token file "@ + path@
            + " does not exist; run `agentd init` to create it"@,
        cli::run_error_text(RunError::Up(cause)) == "failed to derive the one-shot launch: "@
            + cause@,
        cli::run_error_text(RunError::Task(cause)) == "a background task failed: "@ + cause@,
{
}

/// Egress rules give each destination they name, in order; the first rule that names
/// none is what is wrong with them, wherever it stands.
pub proof fn every_rule_is_a_destination(
    raw: Seq<Seq<char>>,
    r: Result<Vec<HostPort>, RunError>,
    i: int,
)
    requires
        cli::parsed_egress(raw, r),
        0 <= i <= raw.len(),
        forall|k: int| 0 <= k < i ==> cli::egress_destination(#[trigger] raw[k]) is Some,
        i < raw.len() ==> cli::egress_destination(raw[i]) is None,
    ensures
        i < raw.len() ==> r is Err && r->Err_0 is Egress && r->Err_0->Egress_0@ == raw[i],
        i == raw.len() ==> r is Ok && r->Ok_0@.len() == raw.len() && forall|k: int|
            0 <= k < raw.len() ==> cli::egress_destination(#[trigger] raw[k]) == Some(
                (r->Ok_0@[k].host@, r->Ok_0@[k].port),
            ),
{
    if r is Err {
        let bad = choose|bad: int|
            {
                &&& 0 <= bad < raw.len()
                &&& cli::egress_destination(#[trigger] raw[bad]) is None
                &&& r->Err_0 is Egress
                &&& r->Err_0->Egress_0@ == raw[bad]
                &&& forall|j: int|
                    0 <= j < bad ==> cli::egress_destination(#[trigger] raw[j]) is Some
            };
        if bad < i {
            assert(cli::egress_destination(raw[bad]) is Some);
        }
        if i < bad {
            assert(cli::egress_destination(raw[i]) is Some);
        }
    } else if i < raw.len() {
        assert(cli::egress_destination(raw[i]) is Some);
    }
}

/// Without a command there is no session, and a command needs a policy; the session is
/// otherwise run with what the flags say, once every egress rule is a destination.
pub proof fn a_session_is_run_with_its_flags(
    flags: SessionFlags,
    r: Result<Option<SessionOptions>, RunError>,
    egress: Result<Vec<HostPort>, RunError>,
)
    requires
        cli::options_answer(flags, r),
        cli::parsed_egress(text::views(flags.egress@), egress),
    ensures
        ({
            let ready = flags.command is Some && flags.policy_path is Some;
            &&& flags.command is None ==> r is Ok && r->Ok_0 is None
            &&& flags.command is Some && flags.policy_path is None ==> r is Err
                && r->Err_0 is MissingSandboxPolicy
            &&& ready && egress is Err ==> r is Err && r->Err_0 is Egress && egress->Err_0 is Egress
                && r->Err_0->Egress_0@ == egress->Err_0->Egress_0@
            &&& ready && egress is Ok ==> {
                &&& r is Ok && r->Ok_0 is Some
                &&& r->Ok_0->0.command@ == flags.command->0@
                &&& r->Ok_0->0.policy_path@ == flags.policy_path->0@
                &&& r->Ok_0->0.agent_id@ == flags.agent_id@
                &&& r->Ok_0->0.supervision.max_restarts == flags.max_restarts
                &&& r->Ok_0->0.supervision.restart_backoff == 1000
                &&& flags.lifetime_secs is None ==> r->Ok_0->0.supervision.lifetime is None
                &&& flags.lifetime_secs is Some ==> r->Ok_0->0.supervision.lifetime == Some(
                    cli::millis_of(flags.lifetime_secs->0),
                )
                &&& r->Ok_0->0.bridge == flags.bridge
                &&& r->Ok_0->0.loopback == flags.loopback
                &&& flags.egress_approval_secs is None ==> r->Ok_0->0.egress_approval is None
                &&& flags.egress_approval_secs is Some ==> r->Ok_0->0.egress_approval == Some(
                    cli::millis_of(flags.egress_approval_secs->0),
                )
                &&& confinement::destination_views(r->Ok_0->0.egress@)
                    == confinement::destination_views(egress->Ok_0@)
            }
        }),
{
    let raw = text::views(flags.egress@);
    let i = first_bad(raw, 0);
    lemma_first_bad(raw, 0);
    every_rule_is_a_destination(raw, egress, i);
    if flags.command is Some && flags.policy_path is Some {
        match r {
            Ok(options) => {
                every_rule_is_a_destination(raw, Ok(options->0.egress), i);
                if egress is Ok {
                    assert forall|k: int| 0 <= k < raw.len() implies
                        confinement::destination_views(options->0.egress@)[k]
                        == confinement::destination_views(egress->Ok_0@)[k] by {
                        assert(cli::egress_destination(raw[k]) is Some);
                    }
                    assert(confinement::destination_views(options->0.egress@)
                        =~= confinement::destination_views(egress->Ok_0@));
                }
            },
            Err(error) => {
                every_rule_is_a_destination(raw, Err(error), i);
            },
        }
    }
}

spec fn first_bad(raw: Seq<Seq<char>>, from: int) -> int
    decreases raw.len() - from,
{
    if from >= raw.len() || cli::egress_destination(raw[from]) is None {
        from
    } else {
        first_bad(raw, from + 1)
    }
}

proof fn lemma_first_bad(raw: Seq<Seq<char>>, from: int)
    requires
        0 <= from <= raw.len(),
        forall|k: int| 0 <= k < from ==> cli::egress_destination(#[trigger] raw[k]) is Some,
    ensures
        0 <= first_bad(raw, from) <= raw.len(),
        forall|k: int|
            0 <= k < first_bad(raw, from) ==> cli::egress_destination(#[trigger] raw[k]) is Some,
        first_bad(raw, from) < raw.len() ==> cli::egress_destination(
            raw[first_bad(raw, from)],
        ) is None,
    decreases raw.len() - from,
{
    if from < raw.len() && cli::egress_destination(raw[from]) is Some {
        lemma_first_bad(raw, from + 1);
    }
}

/// Flags about a session are idle exactly without a command; one with a command that
/// names a destination or an approver has a way out.
pub proof fn flags_need_a_command(flags: SessionFlags, options: SessionOptions)
    ensures
        flags.command is Some ==> !cli::idle_flags(flags),
        flags.command is None && flags.bridge is Some ==> cli::idle_flags(flags),
        flags.command is None && flags.egress@.len() > 0 ==> cli::idle_flags(flags),
        flags.command is None && flags.loopback ==> cli::idle_flags(flags),
        flags.bridge is None && flags.egress@.len() == 0 && !flags.loopback ==> !cli::idle_flags(
            flags,
        ),
        options.egress@.len() > 0 ==> cli::has_egress(options),
        options.egress_approval is Some ==> cli::has_egress(options),
        options.egress@.len() == 0 && options.egress_approval is None ==> !cli::has_egress(options),
{
}

/// A provider config that was named applies whether it exists or not; the default one
/// applies where it exists.
pub proof fn a_named_config_applies(path: String, default: String, exists: bool)
    ensures
        cli::applying(Some(path), default, exists) == Some(path),
        exists ==> cli::applying(None, default, exists) == Some(default),
        !exists ==> cli::applying(None, default, exists) is None,
{
}

/// A session is granted the daemon's socket and, where it was asked for, loopback;
/// nothing that it had is taken from it, and nothing else is given.
pub proof fn a_grant_is_the_socket_and_loopback(
    before: Policy,
    after: Policy,
    socket: Seq<char>,
    loopback: bool,
)
    requires
        cli::granted(before, after, socket, loopback),
    ensures
        after.fs == before.fs,
        after.shell == before.shell,
        after.network.proxy == before.network.proxy,
        before.network.loopback ==> after.network.loopback,
        loopback ==> after.network.loopback,
        !before.network.loopback && !loopback ==> !after.network.loopback,
        text::views(after.network.unix_sockets@) == cli::reaching(
            text::views(before.network.unix_sockets@),
            socket,
        ),
{
}

} // verus!
