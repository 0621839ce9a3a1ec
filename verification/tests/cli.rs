use agentd::cli::{
    describe_setup, egress_config, flags_ignored, grant_session, millis, parse_egress,
    provider_config, session_options, supervision, wants_proxy, BridgeKind, RunError, SessionFlags,
};
use agentd::confinement::Policy;
use agentd::init::{ClientToken, Initialized};
use agentd::launch::{Command, Next, Outcome, Startup, Step};
use agentd::proxy::Verdict;

fn flags() -> SessionFlags {
    SessionFlags {
        command: Some(String::from("run")),
        policy_path: Some(String::from("/policy.json")),
        agent_id: String::from("urn:mokmokd:session"),
        bridge: Some(BridgeKind::Acp),
        egress: vec![String::from("api.example.com:443")],
        loopback: true,
        egress_approval_secs: Some(30),
        max_restarts: 2,
        lifetime_secs: Some(5),
    }
}

#[test]
fn parses_hostnames_and_ipv6_literals() {
    let parsed = parse_egress(&[
        String::from("api.example.com:443"),
        String::from("[::1]:9000"),
    ])
    .expect("valid destinations");

    assert_eq!(parsed[0].host, "api.example.com");
    assert_eq!(parsed[0].port, 443);
    assert_eq!(parsed[1].host, "::1");
    assert_eq!(parsed[1].port, 9000);
}

#[test]
fn rejects_a_destination_without_a_port() {
    assert!(parse_egress(&[String::from("api.example.com")]).is_err());
    assert!(parse_egress(&[String::from("[::1]")]).is_err());
    assert!(parse_egress(&[String::from("host:notaport")]).is_err());
}

#[test]
fn rejects_an_empty_host_and_port_zero() {
    for entry in [":443", "host:0", "[]:1"] {
        match parse_egress(&[String::from("ok:1"), String::from(entry)]) {
            Err(error) => assert_eq!(
                error.to_string(),
                format!("--session-egress must be host:port: {entry}")
            ),
            Ok(_) => panic!("{entry} is no destination"),
        }
    }
}

#[test]
fn session_options_need_a_policy() {
    let options = session_options(flags()).expect("usable").expect("a session");
    assert_eq!(options.command, "run");
    assert_eq!(options.policy_path, "/policy.json");
    assert_eq!(options.supervision.max_restarts, 2);
    assert_eq!(options.supervision.lifetime, Some(5000));
    assert_eq!(options.egress_approval, Some(30_000));
    assert_eq!(options.bridge, Some(BridgeKind::Acp));
    assert_eq!(options.egress[0].port, 443);
    assert!(options.loopback);
    assert!(wants_proxy(&options));

    let missing = session_options(SessionFlags { policy_path: None, ..flags() });
    assert!(matches!(missing, Err(RunError::MissingSandboxPolicy)));
    let none = SessionFlags { command: None, ..flags() };
    assert!(flags_ignored(&none));
    assert!(!flags_ignored(&flags()));
    assert!(session_options(none).expect("nothing to run").is_none());
    let bad = SessionFlags { egress: vec![String::from("x")], ..flags() };
    assert!(matches!(session_options(bad), Err(RunError::Egress(entry)) if entry == "x"));
}

#[test]
fn egress_is_configured_from_the_options() {
    let quiet = session_options(SessionFlags {
        egress: Vec::new(),
        egress_approval_secs: None,
        ..flags()
    })
    .expect("usable")
    .expect("a session");
    assert!(!wants_proxy(&quiet));
    let closed = egress_config(Vec::new(), None);
    assert_eq!(closed.allows("h", 1), Verdict::Deny);
    let asking = egress_config(Vec::new(), Some(7));
    assert_eq!(asking.allows("h", 1), Verdict::Ask(7));
}

#[test]
fn the_daemons_socket_is_granted_once() {
    let mut policy = Policy::default();
    grant_session(&mut policy, "/run/agentd.sock", false);
    grant_session(&mut policy, "/run//agentd.sock", true);
    assert_eq!(policy.network.unix_sockets, ["/run/agentd.sock"]);
    assert!(policy.network.loopback);
    grant_session(&mut policy, "/other.sock", false);
    assert_eq!(policy.network.unix_sockets.len(), 2);
    assert!(policy.network.loopback);
}

#[test]
fn seconds_become_milliseconds() {
    assert_eq!(millis(3), 3000);
    assert_eq!(millis(u64::MAX), u64::MAX);
    assert_eq!(supervision(1, None).restart_backoff, 1000);
    assert_eq!(supervision(1, Some(2)).lifetime, Some(2000));
}

#[test]
fn a_launch_claims_the_socket_before_it_reconciles() {
    let mut startup = Startup::new(Command::Up, "/cfg/tokens.json");
    let mut steps = Vec::new();
    loop {
        match startup.next(Outcome::Done) {
            Next::Do(step) => steps.push(step),
            Next::Finish(error) => {
                assert!(error.is_none());
                break;
            }
        }
    }
    assert_eq!(
        steps,
        [
            Step::LoadTokens,
            Step::OpenLog,
            Step::LoadProvider,
            Step::Bind,
            Step::StartManager,
            Step::Kickoff,
            Step::AwaitConversation,
            Step::Serve,
        ]
    );
}

#[test]
fn serving_starts_a_configured_session() {
    let order = |session: bool| {
        let mut startup = Startup::new(Command::Serve(session), "/t");
        let mut steps = Vec::new();
        while let Next::Do(step) = startup.next(Outcome::Done) {
            steps.push(step);
        }
        steps
    };
    assert_eq!(
        order(true),
        [Step::LoadTokens, Step::OpenLog, Step::StartSession, Step::LoadProvider, Step::Serve]
    );
    assert_eq!(
        order(false),
        [Step::LoadTokens, Step::OpenLog, Step::LoadProvider, Step::Serve]
    );
}

#[test]
fn every_failed_step_has_its_name() {
    let mut startup = Startup::new(Command::Up, "/cfg/tokens.json");
    let failed = |next: Next| match next {
        Next::Finish(Some(error)) => error.to_string(),
        _ => panic!("a failure ends the launch"),
    };
    let cause = || Outcome::Failed(String::from("cause"));
    assert_eq!(
        failed(startup.next(cause())),
        "the token file /cfg/tokens.json does not exist; run `agentd init` to create it"
    );
    let expected = [
        "failed to load the token file: cause",
        "failed to open the event log: cause",
        "failed to load the provider config: cause",
        "failed to serve: cause",
        "a background task failed: the session manager stopped before becoming ready",
        "failed to open the event log: cause",
        "a background task failed: cause",
        "failed to serve: cause",
    ];
    for text in expected {
        assert!(matches!(startup.next(Outcome::Done), Next::Do(_)));
        assert_eq!(failed(startup.next(cause())), text);
    }
    let early = startup.next(Outcome::ServerEnded(None));
    assert!(matches!(early, Next::Finish(None)));
    let unresolved = Outcome::Unresolved(String::from("ghost"), String::from("/p.json"));
    assert_eq!(
        failed(startup.next(unresolved)),
        "no usable model at startup: ghost (checked /p.json); add the model under \"models\", \
         fix \"default_model\", or pass --model naming a configured alias or a `provider/model` pair"
    );
    assert_eq!(
        failed(startup.next(Outcome::Refused(RunError::MissingSandboxPolicy))),
        "--session-command requires --sandbox-policy"
    );
}

#[test]
fn the_remaining_errors_explain_themselves() {
    let text = |error: RunError| error.to_string();
    let cause = || String::from("c");
    assert_eq!(text(RunError::Io(cause())), "failed to read the sandbox policy: c");
    assert_eq!(text(RunError::Policy(cause())), "failed to parse the sandbox policy: c");
    assert_eq!(text(RunError::Session(cause())), "failed to build the session manager: c");
    assert_eq!(text(RunError::Proxy(cause())), "failed to start the egress proxy: c");
    assert_eq!(text(RunError::Init(cause())), "failed to initialize the runtime directory: c");
    assert_eq!(text(RunError::Up(cause())), "failed to derive the one-shot launch: c");
}

#[test]
fn the_setup_is_described() {
    let initialized = Initialized {
        config_dir: String::from("/c"),
        tokens_path: String::from("/c/tokens.json"),
        providers_path: String::from("/c/providers.json"),
        providers_created: false,
        clients: vec![ClientToken {
            name: String::from("user"),
            secret: String::from("s3"),
            path: String::from("/c/user.token"),
        }],
    };
    assert_eq!(
        describe_setup(&initialized, "/s", "/l"),
        "initialized /c\n  tokens: /c/tokens.json\n  providers: /c/providers.json (left as-is)\n  \
         clients (secrets are shown once):\n    user: s3  (/c/user.token)\nstart the daemon with:\n  \
         agentd serve --socket /s --log-path /l --token-file /c/tokens.json\nor run the daemon and a \
         sandboxed agent in one shot with:\n  agentd up --workdir <workspace> --model <model>\n  \
         (edit /c/providers.json first: it names a local server and no model)\n"
    );
}

#[test]
fn a_named_provider_config_wins_over_the_default() {
    let default = || String::from("/c/providers.json");
    let named = Some(String::from("/other.json"));

    assert_eq!(provider_config(named.clone(), default(), true), named);
    assert_eq!(provider_config(None, default(), true), Some(default()));
    assert_eq!(provider_config(None, default(), false), None);
}
