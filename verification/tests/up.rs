use agentd::confinement::{Access, Policy};
use agentd::events::Event;
use agentd::json::Json;
use agentd::session::{SESSION_EXITED, SESSION_FAILED, SESSION_REQUESTED};
use agentd::up::{
    kickoff, quote, resolve_agent, sibling_paths, validated, AgentProbe, Candidate, ConversationWait, GaveUp,
    HostPaths, UpArgs, UpError, UpPaths, UpProbe, WaitEvent, WaitStep,
};

const ANNOUNCEMENT: &str = "agent.conversation.started";

const USER_TOKEN: &str = "/home/u/.config/agentd/user.token";

fn binary(path: &str) -> Candidate {
    Candidate { path: String::from(path), is_file: true, mode: 0o755 }
}

fn host() -> HostPaths {
    HostPaths {
        config_dir: String::from("/cfg"),
        data_dir: String::from("/data"),
        default_socket: String::from("/run/agentd/agentd.sock"),
        default_tokens: String::from("/cfg/tokens.json"),
    }
}

fn layout(workdir: &str, session_db: &str, agent_token: &str) -> UpPaths {
    let args = UpArgs {
        workdir: String::from(workdir),
        session_db: Some(String::from(session_db)),
        agent: Some(String::from("/usr/bin/agentd-agent")),
        ..UpArgs::default()
    };
    let probe = UpProbe {
        workdir: Some(String::from(workdir)),
        agent_token: Some(String::from(agent_token)),
        agent: AgentProbe {
            explicit: Some(binary("/usr/bin/agentd-agent")),
            sibling: None,
            on_path: Vec::new(),
        },
    };
    UpPaths::resolve(&args, &host(), probe).expect("the layout resolves")
}

fn paths_with(policy: &Policy, access: Access) -> Vec<&str> {
    policy
        .fs
        .entries
        .iter()
        .filter(|entry| entry.access == access)
        .map(|entry| entry.path.as_str())
        .collect()
}

fn announcement(conversation: Option<&str>, workdir: &str) -> WaitEvent {
    let mut data = Json::object().with("workdir", Json::text(workdir));
    if let Some(conversation) = conversation {
        data = data.with("conversation_id", Json::text(conversation));
    }
    WaitEvent::Recorded(Event::new(ANNOUNCEMENT, data))
}

fn wait() -> ConversationWait {
    ConversationWait {
        announcement: String::from(ANNOUNCEMENT),
        workdir: String::from("/ws"),
        session_id: String::from("agent"),
    }
}

#[test]
fn quotes_only_what_a_shell_would_split() {
    assert_eq!(quote("/plain/path-1.2:x@y+z"), "/plain/path-1.2:x@y+z");
    assert_eq!(quote("/with space"), "'/with space'");
    assert_eq!(quote(""), "''");
    assert_eq!(quote("it's"), r"'it'\''s'");
}

#[test]
fn quoted_words_read_back_as_they_were() {
    for word in ["plain", "", "two words", "it's", "''", "a\\b", "$HOME", "\u{e9}"] {
        assert_eq!(shlex::split(&quote(word)), Some(vec![String::from(word)]));
    }
}

#[test]
fn the_command_passes_every_path_absolutely() {
    let layout = layout("/ws", "/data/agent.db", "/cfg/agent.token");

    let command = layout.agent_command(None, false);
    assert_eq!(
        command,
        "/usr/bin/agentd-agent --socket /run/agentd/agentd.sock \
         --token-file /cfg/agent.token --db /data/agent.db --workdir /ws"
    );
    assert!(layout.agent_command(Some("fast"), false).ends_with("--model fast"));
}

#[test]
fn the_derived_command_passes_every_absolute_path() {
    let layout = layout("/ws", "/data/agent.db", "/cfg/agent.token");
    let command = layout.agent_command(Some("fast"), false);

    for path in [
        &layout.agent_binary,
        &layout.socket,
        &layout.agent_token,
        &layout.session_db,
        &layout.workdir,
    ] {
        assert!(command.contains(path.as_str()), "the command must name {path}: {command}");
    }
    assert!(command.contains("--model fast"));
}

#[test]
fn resume_is_forwarded_unconditionally() {
    let layout = layout("/ws", "/data/agent.db", "/cfg/agent.token");

    // Whether a session exists for the workdir is the agent's question to
    // answer (it falls back to a new session), so the flag is forwarded without
    // inspecting the database.
    assert!(layout.agent_command(None, true).ends_with("--resume"));
    assert!(!layout.agent_command(None, false).contains("--resume"));
}

#[test]
fn the_publish_command_names_the_session_database_and_the_user_token() {
    let layout = layout("/ws", "/data/agent.db", "/cfg/agent.token");

    let command =
        layout.publish_command(Some("018f6b2e-7e5c-7000-8000-000000000000"), USER_TOKEN);
    assert!(command.starts_with("agentd-publish "));
    assert!(command.contains("--socket /run/agentd/agentd.sock"));
    assert!(command.contains("--db /data/agent.db"));
    assert!(command.contains("--workdir /ws"));
    assert!(command.contains("--conversation 018f6b2e-7e5c-7000-8000-000000000000"));
    assert!(command.ends_with("--inbox '<your prompt>'"));
    assert!(command.contains(&format!("--token-file {USER_TOKEN}")), "{command}");
}

#[test]
fn the_publish_command_omits_an_unknown_conversation() {
    let layout = layout("/ws", "/data/agent.db", "/cfg/agent.token");

    assert!(!layout.publish_command(None, USER_TOKEN).contains("--conversation"));
}

#[test]
fn the_workspace_and_the_session_directory_are_the_write_roots() {
    let layout = layout("/ws", "/ws/session/agent.db", "/ws/agent.token");
    assert_eq!(layout.session_dir().as_deref(), Some("/ws/session"));
    let policy =
        layout.policy(Some(String::from("/ws/session")), &[]).expect("a valid policy");

    assert_eq!(paths_with(&policy, Access::Write), ["/ws", "/ws/session"]);
    assert_eq!(policy.shell.workdir, "/ws");
    assert!(policy.network.unix_sockets.is_empty());
    assert!(policy.network.proxy.is_none());
    assert!(!policy.network.loopback);
}

#[test]
fn the_workdir_is_a_write_root_and_egress_is_denied() {
    let layout = layout("/ws", "/data/session/agent.db", "/cfg/agent.token");

    let policy =
        layout.policy(Some(String::from("/data/session")), &[]).expect("policy should derive");

    assert_eq!(policy.shell.workdir, layout.workdir);
    assert!(
        paths_with(&policy, Access::Write).contains(&layout.workdir.as_str()),
        "the workspace must be writable"
    );
    assert!(policy.network.proxy.is_none());
    assert!(!policy.network.loopback);
}

#[test]
fn the_agent_token_is_readable_and_never_denied() {
    let layout = layout("/ws", "/ws/session/agent.db", "/ws/agent.token");
    let policy = layout
        .policy(
            Some(String::from("/ws/session")),
            &[Some(String::from("/ws/agent.token")), Some(String::from("/ws/./agent.token"))],
        )
        .expect("policy");

    assert!(paths_with(&policy, Access::Read).contains(&"/ws/agent.token"));
    assert!(paths_with(&policy, Access::Read).contains(&"/usr/bin/agentd-agent"));
    assert!(paths_with(&policy, Access::Deny).is_empty());
}

#[test]
fn a_session_database_without_a_parent_is_rejected() {
    let error = layout("/ws", "/", "/usr/bin/agentd-agent")
        .policy(Some(String::from("/")), &[])
        .expect_err("a parentless database must be rejected");

    assert!(matches!(error, UpError::MissingSessionDir(_)));

    let unresolved = layout("/ws", "/gone/agent.db", "/cfg/agent.token").policy(None, &[]);
    assert!(matches!(unresolved, Err(UpError::MissingSessionDir(path)) if path == "/gone/agent.db"));
}

#[test]
fn the_daemon_capability_files_are_denied() {
    let layout = layout("/ws", "/session/agent.db", "/cfg/agent.token");
    let beside = ["/cfg/agent.token", "/cfg/admin.token", "/cfg/notes.txt", "/cfg/.token"]
        .map(String::from);

    let files = layout.denied_capabilities(&beside);
    assert_eq!(
        files,
        ["/cfg/tokens.json", "/cfg/providers.json", "/cfg/agent.token", "/cfg/admin.token"]
    );

    // The provider config does not exist on this host.
    let resolved: Vec<Option<String>> = files
        .into_iter()
        .map(|file| if file == "/cfg/providers.json" { None } else { Some(file) })
        .collect();
    let policy = layout.policy(Some(String::from("/session")), &resolved).expect("policy");
    assert_eq!(paths_with(&policy, Access::Deny), ["/cfg/tokens.json", "/cfg/admin.token"]);
}

#[test]
fn a_token_file_beside_the_agents_is_denied_too() {
    let mut layout = layout("/ws", "/session/agent.db", "/cfg/agent.token");
    layout.daemon_token = String::from("/elsewhere/tokens.json");
    assert_eq!(
        layout.denied_capabilities(&[]),
        ["/elsewhere/tokens.json", "/cfg/tokens.json", "/cfg/providers.json"]
    );
}

#[test]
fn a_missing_token_file_is_reported_before_anything_starts() {
    let args = UpArgs { workdir: String::from("/ws"), ..UpArgs::default() };
    let probe = UpProbe {
        workdir: Some(String::from("/ws")),
        agent_token: None,
        agent: AgentProbe { explicit: None, sibling: None, on_path: Vec::new() },
    };
    let error = UpPaths::resolve(&args, &host(), probe).expect_err("a missing token must fail");

    assert!(matches!(&error, UpError::MissingAgentToken(path) if path == "/cfg/agent.token"));
    assert_eq!(
        error.to_string(),
        "the agent token file /cfg/agent.token does not exist; run `agentd init` to create it"
    );
}

#[test]
fn paths_default_to_the_hosts() {
    let args = UpArgs { workdir: String::from("ws"), ..UpArgs::default() };
    assert_eq!(args.agent_token_path(&host()), "/cfg/agent.token");
    assert_eq!(args.session_db_path(&host()), "/data/sessions/agent/agent.db");
    let probe = UpProbe {
        workdir: Some(String::from("/home/u/ws")),
        agent_token: Some(String::from("/real/agent.token")),
        agent: AgentProbe {
            explicit: None,
            sibling: Some(binary("/opt/agentd-agent")),
            on_path: vec![binary("/bin/agentd-agent")],
        },
    };
    let layout = UpPaths::resolve(&args, &host(), probe).expect("resolves");
    assert_eq!(layout.workdir, "/home/u/ws");
    assert_eq!(layout.socket, "/run/agentd/agentd.sock");
    assert_eq!(layout.agent_token, "/real/agent.token");
    assert_eq!(layout.daemon_token, "/cfg/tokens.json");
    assert_eq!(layout.agent_binary, "/opt/agentd-agent");
    assert_eq!(layout.session_db, "/data/sessions/agent/agent.db");

    let missing = UpPaths::resolve(
        &args,
        &host(),
        UpProbe {
            workdir: None,
            agent_token: None,
            agent: AgentProbe { explicit: None, sibling: None, on_path: Vec::new() },
        },
    );
    assert!(matches!(missing, Err(UpError::Workdir(path)) if path == "ws"));
}

#[test]
fn the_agent_is_looked_for_in_order() {
    let plain = Candidate { path: String::from("/x"), is_file: true, mode: 0o644 };
    let directory = Candidate { path: String::from("/d"), is_file: false, mode: 0o755 };
    let nothing = AgentProbe { explicit: None, sibling: None, on_path: Vec::new() };

    assert!(matches!(
        resolve_agent(Some("given"), &nothing),
        Err(UpError::NotExecutable(path)) if path == "given"
    ));
    assert!(matches!(resolve_agent(None, &nothing), Err(UpError::MissingAgent)));
    let unusable = AgentProbe { explicit: Some(plain.clone()), ..nothing.clone() };
    assert!(matches!(resolve_agent(Some("/x"), &unusable), Err(UpError::NotExecutable(_))));
    let on_path = AgentProbe {
        explicit: None,
        sibling: Some(plain.clone()),
        on_path: vec![directory, plain, binary("/bin/agentd-agent")],
    };
    assert_eq!(resolve_agent(None, &on_path).expect("found"), "/bin/agentd-agent");
    assert_eq!(
        sibling_paths("/target/debug/deps/agentd", "agentd-agent"),
        ["/target/debug/deps/agentd-agent", "/target/debug/agentd-agent"]
    );
    assert!(sibling_paths("/agentd", "agentd-agent").is_empty());
}

#[test]
fn await_conversation_finds_the_announcement_for_this_workdir() {
    let wait = wait();
    let other = WaitEvent::Recorded(Event::new("agent.turn.started", Json::object()));
    assert!(matches!(wait.step(other), WaitStep::Wait));
    // Another instance's session on the shared log must not win the race.
    assert!(matches!(wait.step(announcement(Some("other"), "/elsewhere")), WaitStep::Wait));
    // A malformed announcement without an id is skipped, not accepted.
    assert!(matches!(wait.step(announcement(None, "/ws")), WaitStep::Wait));
    assert!(matches!(
        wait.step(announcement(Some("mine"), "/ws")),
        WaitStep::Found(conversation) if conversation == "mine"
    ));
}

#[test]
fn await_conversation_gives_up_at_the_deadline() {
    assert!(matches!(wait().step(WaitEvent::TimedOut), WaitStep::GiveUp(GaveUp::TimedOut)));
    assert!(matches!(wait().step(WaitEvent::Lagged), WaitStep::Wait));
}

#[test]
fn await_conversation_gives_up_when_its_own_session_ends_first() {
    let ended = |kind: &str, session_id: &str| {
        WaitEvent::Recorded(Event::new(
            kind,
            Json::object().with("session_id", Json::text(session_id)),
        ))
    };
    // Another session ending must not stop the wait for ours.
    assert!(matches!(wait().step(ended(SESSION_EXITED, "other")), WaitStep::Wait));
    for kind in [SESSION_EXITED, SESSION_FAILED] {
        assert!(matches!(
            wait().step(ended(kind, "agent")),
            WaitStep::GiveUp(GaveUp::SessionEnded)
        ));
    }
}

#[test]
fn await_conversation_gives_up_when_the_subscription_closes() {
    assert!(matches!(wait().step(WaitEvent::Closed), WaitStep::GiveUp(GaveUp::Closed)));
}

#[test]
fn the_kickoff_requests_the_session() {
    let event = kickoff("agent");
    assert_eq!(event.kind, SESSION_REQUESTED);
    assert_eq!(event.data.get_str("session_id"), Some("agent"));
}

#[test]
fn launch_errors_explain_themselves() {
    assert_eq!(
        UpError::Workdir(String::from("/w")).to_string(),
        "the workspace /w is not an accessible directory"
    );
    assert_eq!(
        UpError::MissingSessionDir(String::from("/")).to_string(),
        "the session database / has no usable parent directory"
    );
    assert_eq!(
        UpError::MissingAgent.to_string(),
        "could not find an `agentd-agent` binary next to this one or on PATH; pass --agent"
    );
    assert_eq!(
        UpError::NotExecutable(String::from("/a")).to_string(),
        "the agent binary /a is not an executable file"
    );
    assert_eq!(
        UpError::Policy(String::from("p")).to_string(),
        "the derived sandbox policy is unusable: p"
    );
    assert_eq!(UpError::Io(String::from("io")).to_string(), "io");
}

#[test]
fn a_policy_that_fails_validation_is_refused() {
    let mut policy = Policy::default();
    policy.shell.workdir = String::from("/ws");
    let accepted = validated(policy, None).expect("no fault was found");
    assert_eq!(accepted.shell.workdir, "/ws");
    assert!(matches!(
        validated(Policy::default(), Some(String::from("bad entry"))),
        Err(UpError::Policy(error)) if error == "bad entry"
    ));
}
