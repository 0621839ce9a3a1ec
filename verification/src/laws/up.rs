//! What a launch promises.

use crate::confinement::{self, Access, Policy};
use crate::events::EventValue;
use crate::hostpath;
use crate::json::JsonValue;
use crate::policy::EnvVar;
use crate::scan;
use crate::text;
use crate::up::{
    self, AgentProbe, Candidate, GaveUp, HostPaths, UpArgs, UpError, UpPaths, UpProbe, WaitEvent,
    WaitStep,
};
use vstd::prelude::*;

verus! {

broadcast use vstd::string::group_string_axioms;

/// A file is executable when it is a regular one that somebody may execute: its
/// owner, its group, or the others.
pub proof fn somebody_may_execute_it(candidate: Candidate)
    ensures
        ({
            let mode = candidate.mode;
            up::executable(candidate) <==> candidate.is_file && ((mode / 64) % 2 == 1 || (mode / 8)
                % 2 == 1 || mode % 2 == 1)
        }),
{
    let mode = candidate.mode;
    assert(mode & 0o111 != 0 <==> (mode / 64) % 2 == 1 || (mode / 8) % 2 == 1 || mode % 2 == 1)
        by (bit_vector);
}

proof fn lemma_first_executable(candidates: Seq<Candidate>, i: int)
    requires
        0 <= i <= candidates.len(),
        forall|k: int| 0 <= k < i ==> !up::executable(#[trigger] candidates[k]),
        i < candidates.len() ==> up::executable(candidates[i]),
    ensures
        i < candidates.len() ==> up::first_executable(candidates) == Some(candidates[i].path@),
        i == candidates.len() ==> up::first_executable(candidates) is None,
    decreases i,
{
    if i > 0 {
        assert(!up::executable(candidates[0]));
        assert forall|k: int| 0 <= k < i - 1 implies !up::executable(
            #[trigger] candidates.skip(1)[k],
        ) by {
            assert(candidates.skip(1)[k] == candidates[k + 1]);
        }
        lemma_first_executable(candidates.skip(1), i - 1);
    }
}

/// A binary that was named is run if it is executable, and no other is; otherwise the
/// one beside this binary is, and then the first executable one on the path, wherever
/// it stands there.
pub proof fn the_agent_is_the_first_that_runs(
    named: Option<Seq<char>>,
    probe: AgentProbe,
    i: int,
    r: Result<String, UpError>,
)
    requires
        up::agent_answer(named, probe, r),
        0 <= i <= probe.on_path@.len(),
        forall|k: int| 0 <= k < i ==> !up::executable(#[trigger] probe.on_path@[k]),
        i < probe.on_path@.len() ==> up::executable(probe.on_path@[i]),
    ensures
        ({
            let runs = probe.explicit is Some && up::executable(probe.explicit->0);
            let beside = probe.sibling is Some && up::executable(probe.sibling->0);
            &&& named is Some && runs ==> r is Ok && r->Ok_0@ == probe.explicit->0.path@
            &&& named is Some && !runs ==> r is Err && r->Err_0 is NotExecutable
                && r->Err_0->NotExecutable_0@ == named->0
            &&& named is None && beside ==> r is Ok && r->Ok_0@ == probe.sibling->0.path@
            &&& named is None && !beside && i < probe.on_path@.len() ==> r is Ok && r->Ok_0@
                == probe.on_path@[i].path@
            &&& named is None && !beside && i == probe.on_path@.len() ==> r is Err
                && r->Err_0 is MissingAgent
        }),
{
    lemma_first_executable(probe.on_path@, i);
}

/// The agent is looked for beside this executable and one directory above it.
pub proof fn the_agent_is_looked_for_nearby(exe: Seq<char>, name: Seq<char>)
    ensures
        ({
            let dir = hostpath::parent_of(exe);
            let above = hostpath::parent_of(dir->0);
            &&& dir is Some && above is Some ==> up::near(exe, name) == seq![
                hostpath::joined(dir->0, name),
                hostpath::joined(above->0, name),
            ]
            &&& dir is None || above is None ==> up::near(exe, name).len() == 0
        }),
{
}

/// Every value of a launch is the one that was given, or the one of this host; the
/// session's database is in a directory of its own.
pub proof fn a_launch_takes_what_was_given(given: String, default: Seq<char>)
    ensures
        up::given_or(Some(given), default) == given@,
        up::given_or(None, default) == default,
{
}

/// The agent's token and the session's database are where they were said to be, and
/// otherwise in the config and the data directory.
pub proof fn a_launch_has_its_own_places(args: UpArgs, dir: Seq<char>)
    ensures
        args.agent_token_file is Some ==> up::agent_token_path(args, dir)
            == args.agent_token_file->0@,
        args.agent_token_file is None ==> up::agent_token_path(args, dir) == hostpath::joined(
            dir,
            "agent.token"@,
        ),
        args.session_db is Some ==> up::session_db_path(args, dir) == args.session_db->0@,
        args.session_db is None ==> up::session_db_path(args, dir) == hostpath::joined(
            hostpath::joined(hostpath::joined(dir, "sessions"@), args.session_id@),
            "agent.db"@,
        ),
{
}

/// A launch needs its workspace, the agent's token, and an agent, and says which of
/// them is missing, the first first; with all three it takes each path from what was
/// found and what was given.
pub proof fn a_launch_is_resolved_or_says_what_is_missing(
    args: UpArgs,
    host: HostPaths,
    probe: UpProbe,
    r: Result<UpPaths, UpError>,
)
    requires
        up::resolve_answer(args, host, probe, r),
    ensures
        ({
            let found = up::agent_found(args.agent is Some, probe.agent);
            let ready = probe.workdir is Some && probe.agent_token is Some;
            &&& probe.workdir is None ==> r is Err && r->Err_0 is Workdir && r->Err_0->Workdir_0@
                == args.workdir@
            &&& probe.workdir is Some && probe.agent_token is None ==> r is Err
                && r->Err_0 is MissingAgentToken && r->Err_0->MissingAgentToken_0@
                == up::agent_token_path(args, host.config_dir@)
            &&& ready && found is None && args.agent is Some ==> r is Err
                && r->Err_0 is NotExecutable && r->Err_0->NotExecutable_0@ == args.agent->0@
            &&& ready && found is None && args.agent is None ==> r is Err
                && r->Err_0 is MissingAgent
            &&& ready && found is Some ==> {
                &&& r is Ok
                &&& r->Ok_0.workdir@ == probe.workdir->0@
                &&& r->Ok_0.agent_token@ == probe.agent_token->0@
                &&& r->Ok_0.agent_binary@ == found->0
                &&& args.socket is Some ==> r->Ok_0.socket@ == args.socket->0@
                &&& args.socket is None ==> r->Ok_0.socket@ == host.default_socket@
                &&& args.token_file is Some ==> r->Ok_0.daemon_token@ == args.token_file->0@
                &&& args.token_file is None ==> r->Ok_0.daemon_token@ == host.default_tokens@
                &&& r->Ok_0.session_db@ == up::session_db_path(args, host.data_dir@)
            }
        }),
{
}

/// A value of letters, digits, and a few marks is written as it is; any other, and
/// the empty one, stands in single quotes.
pub proof fn only_plain_values_go_unquoted(value: Seq<char>)
    ensures
        ({
            let plain = value.len() > 0 && forall|i: int|
                0 <= i < value.len() ==> ('a' <= #[trigger] value[i] <= 'z' || 'A' <= value[i]
                    <= 'Z' || '0' <= value[i] <= '9' || "-_./:@+"@.contains(value[i]));
            &&& plain ==> up::quoted(value) == value
            &&& !plain ==> up::quoted(value) == seq!['\''] + up::escaped(value) + seq!['\'']
        }),
{
    reveal_strlit("-_./:@+");
    let marks = "-_./:@+"@;
    assert(marks =~= seq!['-', '_', '.', '/', ':', '@', '+']);
    assert(marks[0] == '-' && marks[1] == '_' && marks[2] == '.' && marks[3] == '/' && marks[4]
        == ':' && marks[5] == '@' && marks[6] == '+');
    assert forall|c: char| #[trigger] marks.contains(c) <==> c == '-' || c == '_' || c == '.' || c
        == '/' || c == ':' || c == '@' || c == '+' by {}
    if forall|i: int|
        0 <= i < value.len() ==> ('a' <= #[trigger] value[i] <= 'z' || 'A' <= value[i] <= 'Z'
            || '0' <= value[i] <= '9' || marks.contains(value[i])) {
        assert forall|i: int| 0 <= i < value.len() implies up::is_plain(#[trigger] value[i]) by {}
    } else {
        let i = choose|i: int|
            0 <= i < value.len() && !('a' <= #[trigger] value[i] <= 'z' || 'A' <= value[i] <= 'Z'
                || '0' <= value[i] <= '9' || marks.contains(value[i]));
        assert(!up::is_plain(value[i]));
    }
}

/// A quote inside quotes is closed, escaped, and opened again; every other character
/// stays.
pub proof fn quotes_are_escaped_one_by_one(value: Seq<char>, c: char)
    ensures
        up::escaped(Seq::empty()) == Seq::<char>::empty(),
        c == '\'' ==> up::escaped(value.push(c)) == up::escaped(value) + seq![
            '\'',
            '\\',
            '\'',
            '\'',
        ],
        c != '\'' ==> up::escaped(value.push(c)) == up::escaped(value) + seq![c],
{
    assert(value.push(c).drop_last() =~= value);
    assert(up::escaped(value).push(c) =~= up::escaped(value) + seq![c]);
}

/// The agent is told every place it needs, each behind its option; a model only where
/// one was named, and to resume only where that was asked for.
pub proof fn the_agent_is_told_its_places(paths: UpPaths, model: Seq<char>, resume: bool)
    ensures
        ({
            let plain = up::agent_words(paths, None, false);
            let named = up::agent_words(paths, Some(model), false);
            &&& plain == seq![
                up::quoted(paths.agent_binary@),
                "--socket"@,
                up::quoted(paths.socket@),
                "--token-file"@,
                up::quoted(paths.agent_token@),
                "--db"@,
                up::quoted(paths.session_db@),
                "--workdir"@,
                up::quoted(paths.workdir@),
            ]
            &&& named == plain + seq!["--model"@, up::quoted(model)]
            &&& up::agent_words(paths, None, true) == plain + seq!["--resume"@]
            &&& up::agent_words(paths, Some(model), true) == named + seq!["--resume"@]
        }),
{
}

/// The operator is told the same places, with the user's own token, and the
/// conversation where it is known.
pub proof fn the_operator_is_told_the_places(
    paths: UpPaths,
    conversation: Seq<char>,
    user_token: Seq<char>,
)
    ensures
        ({
            let places = seq![
                "agentd-publish"@,
                "--socket"@,
                up::quoted(paths.socket@),
                "--token-file"@,
                up::quoted(user_token),
                "--db"@,
                up::quoted(paths.session_db@),
                "--workdir"@,
                up::quoted(paths.workdir@),
            ];
            let prompt = seq!["--inbox"@, "'<your prompt>'"@];
            &&& up::publish_words(paths, None, user_token) == places + prompt
            &&& up::publish_words(paths, Some(conversation), user_token) == places + seq![
                "--conversation"@,
                up::quoted(conversation),
            ] + prompt
        }),
{
}

/// A token file is one whose name ends in `.token` and starts with something else.
pub proof fn token_files_end_in_token(path: Seq<char>)
    ensures
        ({
            let name = hostpath::file_name_of(path);
            up::is_token_file(path) <==> name is Some && name->0.len() > 6 && name->0.skip(
                name->0.len() - 6,
            ) == ".token"@
        }),
{
    let found = hostpath::file_name_of(path);
    reveal_strlit(".token");
    reveal_strlit("token");
    let ending = ".token"@;
    assert(ending =~= seq!['.', 't', 'o', 'k', 'e', 'n']);
    assert("token"@ =~= seq!['t', 'o', 'k', 'e', 'n']);
    if found is Some {
        let name = found->0;
        let n = name.len() as int;
        crate::laws::text::characters_are_found_where_they_stand(name, '.');
        let dot = scan::last_index(name, '.');
        if up::is_token_file(path) {
            assert(name.skip(dot + 1).len() == n - dot - 1);
            assert(dot == n - 6);
            assert forall|k: int| 0 <= k < 6 implies name.skip(n - 6)[k] == ending[k] by {
                if k > 0 {
                    assert(name.skip(dot + 1)[k - 1] == name[dot + k]);
                }
            }
            assert(name.skip(n - 6) =~= ending);
        }
        if n > 6 && name.skip(n - 6) == ending {
            assert(name[n - 6] == name.skip(n - 6)[0]);
            assert forall|k: int| n - 6 < k < n implies (#[trigger] name[k]) != '.' by {
                assert(name[k] == name.skip(n - 6)[k - (n - 6)]);
            }
            assert(dot == n - 6) by {
                if dot > n - 6 {
                    assert(name[dot] != '.');
                }
            }
            assert(name.skip(dot + 1) =~= "token"@) by {
                assert forall|k: int| 0 <= k < 5 implies name.skip(dot + 1)[k] == "token"@[k] by {
                    assert(name.skip(dot + 1)[k] == name.skip(n - 6)[k + 1]);
                }
            }
        }
    }
}

proof fn lemma_token_files(files: Seq<Seq<char>>, file: Seq<char>)
    ensures
        up::token_files(files).contains(file) <==> files.contains(file) && up::is_token_file(file),
    decreases files.len(),
{
    if files.len() > 0 {
        let init = files.drop_last();
        lemma_token_files(init, file);
        let kept = up::token_files(init);
        assert(files =~= init.push(files.last()));
        if kept.contains(file) {
            let k = choose|k: int| 0 <= k < kept.len() && kept[k] == file;
            assert(kept.push(files.last())[k] == file);
        }
        if init.contains(file) {
            let k = choose|k: int| 0 <= k < init.len() && init[k] == file;
            assert(files[k] == file);
        }
        if files.contains(file) && file != files.last() {
            let k = choose|k: int| 0 <= k < files.len() && files[k] == file;
            assert(init[k] == file);
        }
        assert(files[files.len() - 1] == files.last());
        assert(kept.push(files.last()).last() == files.last());
        if kept.push(files.last()).contains(file) && file != files.last() {
            let more = kept.push(files.last());
            let k = choose|k: int| 0 <= k < more.len() && more[k] == file;
            assert(kept[k] == file);
        }
    }
}

/// The daemon's token file, the token file and the provider config beside the agent's
/// own token, and every client's token there are withheld, and nothing else is.
pub proof fn every_capability_is_withheld(
    agent_token: Seq<char>,
    daemon_token: Seq<char>,
    beside: Seq<Seq<char>>,
    file: Seq<char>,
)
    ensures
        ({
            let withheld = up::capability_files(agent_token, daemon_token, beside);
            let dir = hostpath::parent_of(agent_token);
            &&& withheld.contains(daemon_token)
            &&& dir is Some ==> (withheld.contains(file) <==> file == daemon_token || file
                == hostpath::joined(dir->0, "tokens.json"@) || file == hostpath::joined(
                dir->0,
                "providers.json"@,
            ) || (beside.contains(file) && up::is_token_file(file)))
            &&& dir is None ==> (withheld.contains(file) <==> file == daemon_token)
        }),
{
    let withheld = up::capability_files(agent_token, daemon_token, beside);
    assert(withheld[0] == daemon_token);
    if hostpath::parent_of(agent_token) is Some {
        let dir = hostpath::parent_of(agent_token)->0;
        let tokens = hostpath::joined(dir, "tokens.json"@);
        let providers = hostpath::joined(dir, "providers.json"@);
        let files = up::token_files(beside);
        lemma_token_files(beside, file);
        let named = if tokens == daemon_token {
            seq![daemon_token, providers]
        } else {
            seq![daemon_token, tokens, providers]
        };
        assert(withheld =~= named + files);
        assert(named[named.len() - 1] == providers);
        assert(withheld[named.len() - 1] == providers);
        if tokens != daemon_token {
            assert(withheld[1] == tokens);
        }
        if files.contains(file) {
            let k = choose|k: int| 0 <= k < files.len() && files[k] == file;
            assert(withheld[named.len() + k] == file);
        }
        if withheld.contains(file) {
            let k = choose|k: int| 0 <= k < withheld.len() && withheld[k] == file;
            if k >= named.len() {
                assert(files[k - named.len()] == file);
            }
        }
    }
}

/// The agent reads its token and its binary, writes to its workspace and its session
/// directory, and is denied nothing but the capabilities that exist, each of them,
/// in order.
pub proof fn the_agent_gets_no_more_than_it_needs(
    paths: UpPaths,
    session_dir: Seq<char>,
    files: Seq<Option<String>>,
    file: String,
)
    ensures
        ({
            let rules = up::agent_entries(paths, session_dir, files);
            let more = up::agent_entries(paths, session_dir, files.push(Some(file)));
            let own = hostpath::components(file@) == hostpath::components(paths.agent_token@);
            &&& up::agent_entries(paths, session_dir, Seq::empty()) == seq![
                (paths.workdir@, Access::Write),
                (session_dir, Access::Write),
                (paths.agent_token@, Access::Read),
                (paths.agent_binary@, Access::Read),
            ]
            &&& own ==> more == rules
            &&& !own ==> more == rules.push((file@, Access::Deny))
            &&& up::agent_entries(paths, session_dir, files.push(None)) == rules
        }),
{
    assert(files.push(Some(file)).drop_last() =~= files);
    assert(files.push(None).drop_last() =~= files);
    let first = seq![
        (paths.workdir@, Access::Write),
        (session_dir, Access::Write),
        (paths.agent_token@, Access::Read),
        (paths.agent_binary@, Access::Read),
    ];
    let denied = up::denials(paths.agent_token@, files);
    assert(first + denied.push((file@, Access::Deny)) =~= (first + denied).push(
        (file@, Access::Deny),
    ));
    assert(first + Seq::<(Seq<char>, Access)>::empty() =~= first);
    assert(up::denials(paths.agent_token@, Seq::empty()) =~= Seq::empty());
}

/// A session's database lies in its parent directory; one that stands by itself lies
/// in none.
pub proof fn a_database_lies_in_its_directory(session_db: Seq<char>, dir: Seq<char>)
    ensures
        hostpath::parent_of(session_db) == Some(dir) && dir.len() > 0 ==> up::database_dir(
            session_db,
        ) == Some(dir),
        hostpath::parent_of(session_db) == Some(dir) && dir.len() == 0 ==> up::database_dir(
            session_db,
        ) is None,
        hostpath::parent_of(session_db) is None ==> up::database_dir(session_db) is None,
{
}

/// A launch asks for its own session.
pub proof fn a_launch_asks_for_its_session(session_id: Seq<char>)
    ensures
        up::kickoff_event(session_id) == (EventValue {
            kind: "session.requested"@,
            subject: None,
            traceparent: None,
            data: JsonValue::Object(map!["session_id"@ => JsonValue::Text(session_id)]),
        }),
{
}

/// The conversation is the one that is announced for the own workspace; the end of
/// the own session, the end of the events, and the deadline end the wait, and
/// everything else is waited past.
pub proof fn the_own_announcement_is_awaited(
    announcement: Seq<char>,
    workdir: Seq<char>,
    session_id: Seq<char>,
    event: WaitEvent,
    fields: Map<Seq<char>, JsonValue>,
    conversation: Seq<char>,
    step: WaitStep,
)
    requires
        up::wait_answer(announcement, workdir, session_id, event, step),
        event is Recorded ==> event->Recorded_0@.data == JsonValue::Object(fields),
    ensures
        event is Lagged ==> step is Wait,
        event is Closed ==> step == WaitStep::GiveUp(GaveUp::Closed),
        event is TimedOut ==> step == WaitStep::GiveUp(GaveUp::TimedOut),
        event is Recorded ==> {
            let kind = event->Recorded_0@.kind;
            let ours = fields.contains_key("session_id"@) && fields["session_id"@]
                == JsonValue::Text(session_id);
            let over = ours && (kind == "session.exited"@ || kind == "session.failed"@);
            let here = fields.contains_key("workdir"@) && fields["workdir"@] == JsonValue::Text(
                workdir,
            );
            let named = fields.contains_key("conversation_id"@) && fields["conversation_id"@]
                == JsonValue::Text(conversation);
            let text = fields.contains_key("conversation_id"@)
                && fields["conversation_id"@] is Text;
            &&& over ==> step == WaitStep::GiveUp(GaveUp::SessionEnded)
            &&& !over && kind == announcement && here && named ==> step is Found && step->Found_0@
                == conversation
            &&& !over && (kind != announcement || !here || !text) ==> step is Wait
        },
{
}

/// A launch confines its agent to its workspace, without any way to the network; it
/// needs a directory for its session.
pub proof fn a_launch_confines_its_agent(
    paths: UpPaths,
    session_dir: Option<Seq<char>>,
    files: Seq<Option<String>>,
    r: Result<Policy, UpError>,
)
    requires
        up::policy_answer(paths, session_dir, files, r),
    ensures
        ({
            let placed = up::database_dir(paths.session_db@) is Some && session_dir is Some;
            &&& !placed ==> r is Err && r->Err_0 is MissingSessionDir
                && r->Err_0->MissingSessionDir_0@ == paths.session_db@
            &&& placed ==> {
                &&& r is Ok
                &&& confinement::entry_views(r->Ok_0.fs.entries@) == up::agent_entries(
                    paths,
                    session_dir->0,
                    files,
                )
                &&& r->Ok_0.shell.workdir@ == paths.workdir@
                &&& r->Ok_0.shell.env@ == Seq::<EnvVar>::empty()
                &&& r->Ok_0.network.proxy is None
                &&& !r->Ok_0.network.loopback
                &&& r->Ok_0.network.unix_sockets@ == Seq::<String>::empty()
            }
        }),
{
}

} // verus!
