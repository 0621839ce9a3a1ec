use agentd::approvals::{PendingApprovals, RequestKey};
use agentd::bridge::{
    permission_granted, session_subject, AcpBridge, AcpProtocol, Action, Bridge, McpProtocol,
    PROTOCOL_INBOUND, PROTOCOL_OUTBOUND, PROTOCOL_READY,
    SESSION_PERMISSION_CANCELLED, SESSION_PERMISSION_REQUESTED,
};
use agentd::confinement::Policy;
use agentd::events::Event;
use agentd::json::Json;
use agentd::log::LogError;
use agentd::session::{
    active_after, address_action, is_routed, outgoing, session_exited, session_failed,
    session_restarted, session_started, session_status, InputWriter, LifecycleFold,
    LineSource, LogEntry,
    Outcome, QueuedEntry, RunAction, RunEvent, ServeAction, SessionError, SessionManager, SessionRun,
    Supervision, WriterStep, SESSION_EXITED, SESSION_FAILED, SESSION_REQUESTED,
    SESSION_RESTARTED, SESSION_STARTED, SESSION_STATUS, SESSION_STATUS_REQUESTED,
};
use serde_json::Value;

fn request(session_id: &str) -> Event {
    Event::new(
        SESSION_REQUESTED,
        Json::object().with("session_id", Json::text(session_id)),
    )
}

fn data(event: &Event) -> Value {
    serde_json::from_str(&event.data.to_string()).expect("valid JSON")
}

fn manager() -> SessionManager<McpProtocol> {
    SessionManager::with_sandbox(String::from("sleep 30"), String::from("agent"))
}

fn announce(run: &mut SessionRun) {
    assert!(matches!(run.step(RunEvent::Announced), RunAction::Spawn));
    assert!(matches!(run.step(RunEvent::Spawned), RunAction::Wait(_)));
}

fn asked(subject: &str) -> Event {
    Event::new(
        SESSION_PERMISSION_REQUESTED,
        Json::object().with("request_id", Json::text("7")),
    )
    .with_subject(String::from(subject))
}

#[test]
fn active_after_folds_lifecycle_in_order() {
    let entries = vec![
        // A request is not a lifecycle event: replaying it must not start.
        Ok(LogEntry::new(1, request("s1"))),
        Ok(LogEntry::new(2, session_started("s1", "agent"))),
        Ok(LogEntry::new(3, session_restarted("s1", "agent", 2))),
        Ok(LogEntry::new(4, session_started("s2", "agent"))),
        Ok(LogEntry::new(5, session_exited("s2", "agent", 0, 5))),
        Ok(LogEntry::new(6, session_started("s3", "agent"))),
        Ok(LogEntry::new(7, session_failed("s3", "agent", "boom"))),
    ];

    let active = active_after(entries, 7).expect("fold");

    assert_eq!(active.keys(), ["s1"]);
    assert_eq!(active.get("s1"), Some(&2));
}

#[test]
fn active_after_stops_at_the_snapshot() {
    let entries = vec![
        Ok(LogEntry::new(1, session_started("s1", "agent"))),
        Ok(LogEntry::new(2, session_exited("s1", "agent", 0, 1))),
    ];

    // The exit at seq 2 is beyond the snapshot, so it is not yet folded and
    // the session still looks active.
    let active = active_after(entries, 1).expect("fold");

    assert_eq!(active.keys(), ["s1"]);
    assert_eq!(active.get("s1"), Some(&0));
}

#[test]
fn an_unreadable_entry_fails_the_fold() {
    let entries = vec![
        Ok(LogEntry::new(1, session_started("s1", "agent"))),
        Err(LogError::Json(String::from("bad"))),
    ];
    assert!(matches!(active_after(entries, 9), Err(LogError::Json(error)) if error == "bad"));

    let beyond = vec![
        Ok(LogEntry::new(2, session_started("s1", "agent"))),
        Err(LogError::WriterStopped),
    ];
    assert!(active_after(beyond, 1).expect("stopped before").is_empty());
}

#[test]
fn an_unusable_restart_count_counts_as_the_first() {
    let restarted = |restarts: Json| {
        Event::new(
            SESSION_RESTARTED,
            Json::object().with("session_id", Json::text("s")).with("restarts", restarts),
        )
    };
    for value in [Json::text("x"), Json::unsigned(4_294_967_296), Json::integer(-1)] {
        let active = active_after(vec![Ok(LogEntry::new(1, restarted(value)))], 1).expect("fold");
        assert_eq!(active.get("s"), Some(&1));
    }
}

#[test]
fn launch_reports_a_session_lifecycle() {
    let mut run = manager().launch(&request("s1"), "event-id");

    let started = run.announcement();
    assert_eq!(started.kind, SESSION_STARTED);
    assert_eq!(data(&started)["session_id"], "s1");
    announce(&mut run);
    match run.step(RunEvent::Ended(Outcome::Exited(7), 12)) {
        RunAction::Report(exited) => {
            assert_eq!(exited.kind, SESSION_EXITED);
            assert_eq!(data(&exited)["session_id"], "s1");
            assert_eq!(data(&exited)["exit_code"], 7);
            assert_eq!(data(&exited)["duration_ms"], 12);
        }
        _ => panic!("the exit is terminal"),
    }
    assert!(matches!(run.step(RunEvent::Reported), RunAction::Stop));
}

#[test]
fn launch_reports_a_failed_session_when_spawning_is_unsupported() {
    let mut run = manager().launch(&request("s2"), "event-id");
    assert!(matches!(run.step(RunEvent::Announced), RunAction::Spawn));
    match run.step(RunEvent::SpawnFailed(String::from("unsupported"))) {
        RunAction::Report(failed) => {
            assert_eq!(failed.kind, SESSION_FAILED);
            assert_eq!(data(&failed)["session_id"], "s2");
            assert_eq!(data(&failed)["error"], "unsupported");
        }
        _ => panic!("the failure is terminal"),
    }
}

#[test]
fn a_non_zero_exit_is_restarted_within_the_budget() {
    let supervision = Supervision { max_restarts: 1, restart_backoff: 10, lifetime: None };
    let mut run = manager().with_supervision(supervision).launch(&request("s3"), "e");

    assert_eq!(run.announcement().kind, SESSION_STARTED);
    announce(&mut run);
    assert!(matches!(
        run.step(RunEvent::Ended(Outcome::Exited(1), 1)),
        RunAction::BackOff(10)
    ));
    match run.step(RunEvent::BackedOff) {
        RunAction::Announce(restarted) => {
            assert_eq!(restarted.kind, SESSION_RESTARTED);
            assert_eq!(data(&restarted)["restarts"], 1);
        }
        _ => panic!("the session restarts"),
    }
    assert_eq!(run.restarts(), 1);
    announce(&mut run);
    // The budget is exhausted after one restart, so the second non-zero exit is
    // terminal.
    match run.step(RunEvent::Ended(Outcome::Exited(1), 1)) {
        RunAction::Report(exited) => assert_eq!(data(&exited)["exit_code"], 1),
        _ => panic!("the second exit is terminal"),
    }
}

#[test]
fn a_clean_exit_is_never_restarted() {
    let supervision = Supervision { max_restarts: 5, ..Supervision::default() };
    let mut run = manager().with_supervision(supervision).launch(&request("s"), "e");
    announce(&mut run);
    assert!(matches!(
        run.step(RunEvent::Ended(Outcome::Exited(0), 1)),
        RunAction::Report(_)
    ));
}

#[test]
fn a_session_past_its_lifetime_is_killed() {
    let supervision = Supervision { lifetime: Some(100), ..Supervision::default() };
    let mut run = manager().with_supervision(supervision).launch(&request("s4"), "e");

    assert!(matches!(run.step(RunEvent::Announced), RunAction::Spawn));
    assert!(matches!(run.step(RunEvent::Spawned), RunAction::Wait(Some(100))));
    match run.step(RunEvent::Ended(Outcome::Lifetime, 100)) {
        RunAction::Report(failed) => {
            assert_eq!(failed.kind, SESSION_FAILED);
            assert_eq!(data(&failed)["session_id"], "s4");
            assert_eq!(data(&failed)["error"], "the session exceeded its maximum lifetime");
        }
        _ => panic!("the lifetime is terminal"),
    }
}

#[test]
fn a_lost_announcement_ends_the_session() {
    let mut run = manager().launch(&request("s"), "e");
    assert!(matches!(run.step(RunEvent::AnnounceFailed), RunAction::Stop));
    assert!(matches!(run.step(RunEvent::Announced), RunAction::Stop));
}

#[test]
fn a_supervision_failure_is_reported() {
    let mut run = manager().launch(&request("s"), "e");
    announce(&mut run);
    match run.step(RunEvent::Ended(Outcome::Failed(String::from("lost")), 1)) {
        RunAction::Report(failed) => assert_eq!(data(&failed)["error"], "lost"),
        _ => panic!("a failure is terminal"),
    }
}

#[test]
fn run_answers_a_status_request_with_the_active_sessions() {
    let mut manager = manager();
    manager.track("s5", 0);
    manager.track("a1", 2);
    let mut pending = PendingApprovals::new();

    let entry = LogEntry::new(9, Event::new(SESSION_STATUS_REQUESTED, Json::object()));
    match manager.serve(&entry, "e", 0, 0, &mut pending) {
        ServeAction::Report(status) => {
            assert_eq!(status.kind, SESSION_STATUS);
            let sessions = data(&status)["sessions"].clone();
            assert_eq!(sessions.as_array().expect("an array").len(), 2);
            assert_eq!(sessions[0]["session_id"], "a1");
            assert_eq!(sessions[0]["restarts"], 2);
            assert_eq!(sessions[1]["session_id"], "s5");
        }
        _ => panic!("a status is reported"),
    }

    manager.untrack("s5");
    manager.untrack("a1");
    assert_eq!(
        data(&manager.report_status())["sessions"].as_array().expect("an array").len(),
        0
    );
}

#[test]
fn run_ready_signals_only_after_reconciliation() {
    let entries = vec![Ok(LogEntry::new(1, session_started("stale", "urn:test")))];
    let interrupted = active_after(entries, 1).expect("fold");

    let failures = manager().reconcile(&interrupted);
    assert_eq!(failures.len(), 1);
    assert_eq!(failures[0].kind, SESSION_FAILED);
    assert_eq!(data(&failures[0])["session_id"], "stale");
}

#[test]
fn run_fails_a_session_left_open_by_a_previous_daemon() {
    let log = vec![
        Ok(LogEntry::new(1, session_started("s6", "agent"))),
        Ok(LogEntry::new(2, session_started("b", "agent"))),
    ];
    let failures = manager().reconcile(&active_after(log, 2).expect("fold"));

    assert_eq!(data(&failures[0])["session_id"], "b");
    assert_eq!(data(&failures[1])["session_id"], "s6");
    assert_eq!(
        data(&failures[1])["error"],
        "the daemon restarted while the session was active"
    );

    // Once recorded, the failures leave nothing open.
    let mut after = vec![
        Ok(LogEntry::new(1, session_started("s6", "agent"))),
        Ok(LogEntry::new(2, session_started("b", "agent"))),
    ];
    for (offset, failure) in failures.into_iter().enumerate() {
        after.push(Ok(LogEntry::new(3 + offset as u64, failure)));
    }
    assert!(active_after(after, 9).expect("fold").is_empty());
}

#[test]
fn run_leaves_a_terminated_session_alone() {
    let log = vec![
        Ok(LogEntry::new(1, session_started("s7", "agent"))),
        Ok(LogEntry::new(2, session_exited("s7", "agent", 0, 3))),
    ];
    assert!(manager().reconcile(&active_after(log, 2).expect("fold")).is_empty());
}

#[test]
fn a_request_launches_the_configured_command_only() {
    let manager = manager();
    let mut pending = PendingApprovals::new();
    let hostile = Event::new(
        SESSION_REQUESTED,
        Json::object().with("session_id", Json::text("s")).with("command", Json::text("rm -rf /")),
    );

    match manager.serve(&LogEntry::new(2, hostile), "e", 1, 0, &mut pending) {
        ServeAction::Launch(run) => assert_eq!(run.session_id(), "s"),
        _ => panic!("a session is launched"),
    }
    assert_eq!(manager.command(), "sleep 30");

    let unnamed = Event::new(SESSION_REQUESTED, Json::object());
    assert_eq!(manager.launch(&unnamed, "event-id").session_id(), "event-id");
}

#[test]
fn entries_of_the_snapshot_are_not_served_again() {
    let mut pending = PendingApprovals::new();
    let entry = LogEntry::new(3, request("s"));
    assert!(matches!(manager().serve(&entry, "e", 3, 0, &mut pending), ServeAction::Nothing));
}

#[test]
fn an_unanswered_permission_request_is_cancelled_at_the_deadline() {
    let manager = manager().with_permission_approval(200);
    let mut pending = PendingApprovals::new();
    let entry = LogEntry::new(1, asked("session:perm-1"));

    assert!(matches!(manager.serve(&entry, "e", 0, 1000, &mut pending), ServeAction::Nothing));
    assert_eq!(pending.next_deadline(), Some(1200));
    assert!(pending.expire(1199).is_empty());
    let expired = pending.expire(1200);
    assert_eq!(expired.len(), 1);
    for key in expired {
        let decided = key.cancellation();
        assert_eq!(decided.kind, SESSION_PERMISSION_CANCELLED);
        assert_eq!(data(&decided)["request_id"], "7");
        assert_eq!(data(&decided)["cancelled"], true);
        assert_eq!(decided.subject.as_deref(), Some("session:perm-1"));
    }
    assert_eq!(pending.next_deadline(), None);
}

#[test]
fn a_decision_before_the_deadline_is_honoured_without_a_cancel() {
    let manager = manager().with_permission_approval(1000);
    let mut pending = PendingApprovals::new();
    let _ = manager.serve(&LogEntry::new(1, asked("session:perm-2")), "e", 0, 0, &mut pending);
    let granted =
        permission_granted("7", "allow-once").with_subject(String::from("session:perm-2"));
    let (mut bridge, subject) = asking_bridge("perm-2");
    assert_eq!(subject, "session:perm-2");
    let reply = written(&bridge.on_event(&granted));
    assert_eq!(reply.len(), 1);
    assert_eq!(reply[0]["id"], 7);
    assert_eq!(reply[0]["result"]["outcome"]["outcome"], "selected");
    assert_eq!(reply[0]["result"]["outcome"]["optionId"], "allow-once");
    let _ = manager.serve(&LogEntry::new(2, granted), "e", 0, 500, &mut pending);

    // Past the deadline the request is not also cancelled.
    assert!(pending.expire(u64::MAX).is_empty());
}

/// What is written to the child.
fn written(actions: &[Action]) -> Vec<Value> {
    let mut lines = Vec::new();
    for action in actions {
        if let Action::Write(line) = action {
            lines.push(serde_json::from_str(line).expect("valid JSON"));
        }
    }
    lines
}

/// The bridge of a session whose child asked for a permission under the id 7, and
/// the subject of its events.
fn asking_bridge(session_id: &str) -> (AcpBridge, String) {
    let manager: SessionManager<AcpProtocol> =
        SessionManager::with_sandbox(String::from("sleep 30"), String::from("agent"))
            .with_protocol(AcpProtocol::default());
    let mut bridge = manager.connect(session_id).expect("a bridge");
    let actions = bridge.on_line(
        r#"{"jsonrpc":"2.0","id":7,"method":"session/request_permission","params":{"sessionId":"sess_1","toolCall":{"toolCallId":"call_1"},"options":[{"optionId":"allow-once","name":"Allow","kind":"allow_once"}]}}"#,
    );
    let mut requests = 0;
    for action in &actions {
        if let Action::Publish(event) = action {
            if event.kind == SESSION_PERMISSION_REQUESTED {
                requests += 1;
                assert_eq!(data(event)["request_id"], "7");
            }
        }
    }
    assert_eq!(requests, 1);
    (bridge, session_subject(session_id))
}

#[test]
fn two_sessions_asking_under_one_request_id_are_each_cancelled() {
    let manager = manager().with_permission_approval(200);
    let mut pending = PendingApprovals::new();
    for subject in ["session:perm-b", "session:perm-a"] {
        let _ = manager.serve(&LogEntry::new(1, asked(subject)), "e", 0, 0, &mut pending);
    }

    let cancelled: Vec<Option<String>> =
        pending.expire(200).into_iter().map(|key| key.cancellation().subject).collect();
    assert_eq!(
        cancelled,
        [Some(String::from("session:perm-a")), Some(String::from("session:perm-b"))]
    );
}

#[test]
fn a_decision_after_the_deadline_is_ignored() {
    let mut pending = PendingApprovals::new();
    let (mut bridge, subject) = asking_bridge("perm-3");
    let key = RequestKey::of(&asked("session:perm-3")).expect("a key");
    pending.awaited(key, 10);
    let expired = pending.expire(10);
    assert_eq!(expired.len(), 1);
    let cancelled = expired[0].cancellation();
    assert_eq!(data(&cancelled)["cancelled"], true);
    let reply = written(&bridge.on_event(&cancelled));
    assert_eq!(reply.len(), 1);
    assert_eq!(reply[0]["result"]["outcome"]["outcome"], "cancelled");

    // The bridge no longer holds the request, so the child is not answered a
    // second time, and nothing is cancelled again.
    let late = permission_granted("7", "allow-once").with_subject(subject);
    assert!(bridge.on_event(&late).is_empty());
    pending.decided(&RequestKey::of(&late).expect("a key"));
    assert!(pending.expire(u64::MAX).is_empty());
}

#[test]
fn without_a_deadline_permissions_wait_forever() {
    let mut pending = PendingApprovals::new();
    let _ = manager().serve(&LogEntry::new(1, asked("session:s")), "e", 0, 0, &mut pending);
    assert_eq!(pending.next_deadline(), None);

    let far = manager().with_permission_approval(u64::MAX);
    let _ = far.serve(&LogEntry::new(1, asked("session:s")), "e", 0, 5, &mut pending);
    assert_eq!(pending.next_deadline(), Some(u64::MAX));
}

#[test]
fn requests_expire_in_order_and_only_those_due() {
    let key = |subject: Option<&str>, request_id: &str| RequestKey {
        subject: subject.map(String::from),
        request_id: String::from(request_id),
    };
    let mut pending = PendingApprovals::new();
    pending.awaited(key(Some("b"), "1"), 5);
    pending.awaited(key(Some("a"), "2"), 5);
    pending.awaited(key(Some("a"), "1"), 5);
    pending.awaited(key(None, "9"), 5);
    pending.awaited(key(Some("c"), "1"), 6);

    let order: Vec<(Option<String>, String)> =
        pending.expire(5).into_iter().map(|key| (key.subject, key.request_id)).collect();
    assert_eq!(
        order,
        [
            (None, String::from("9")),
            (Some(String::from("a")), String::from("1")),
            (Some(String::from("a")), String::from("2")),
            (Some(String::from("b")), String::from("1")),
        ]
    );
    assert_eq!(pending.next_deadline(), Some(6));
}

#[test]
fn a_request_without_an_id_is_not_timed() {
    let event = Event::new(SESSION_PERMISSION_REQUESTED, Json::object());
    assert!(RequestKey::of(&event).is_none());
}

#[test]
fn events_are_routed_by_subject() {
    let event = Event::new("x", Json::object()).with_subject(String::from("session:s1"));
    assert!(is_routed(&event, "s1"));
    assert!(!is_routed(&event, "s2"));
    assert!(!is_routed(&Event::new("x", Json::object()), "s1"));
}

#[test]
fn bridged_events_are_stamped_with_their_session() {
    match address_action("s1", Action::Publish(Event::new("x", Json::object()))) {
        Action::Publish(event) => assert_eq!(event.subject.as_deref(), Some("session:s1")),
        Action::Write(_) => panic!("an event stays an event"),
    }
    assert!(matches!(
        outgoing("s1", Action::Write(String::from("l")), true),
        Some(Action::Write(line)) if line == "l"
    ));
    assert!(outgoing("s1", Action::Write(String::from("l")), false).is_none());
    assert!(outgoing("s1", Action::Publish(Event::new("x", Json::object())), false).is_some());
}

#[test]
fn the_writer_ends_when_both_sources_do() {
    let mut writer = InputWriter::new();
    assert!(matches!(
        writer.receive(LineSource::Events, Some(String::from("a"))),
        WriterStep::Write(line) if line == "a"
    ));
    assert!(matches!(writer.receive(LineSource::Events, None), WriterStep::Wait));
    assert!(matches!(
        writer.receive(LineSource::Replies, Some(String::from("b"))),
        WriterStep::Write(_)
    ));
    assert!(matches!(writer.receive(LineSource::Replies, None), WriterStep::Stop));
}

#[test]
fn a_manager_is_configured_step_by_step() {
    let mut policy = Policy::default();
    policy.shell.workdir = String::from("/ws");
    let manager: SessionManager<AcpProtocol> =
        SessionManager::new(&policy, String::from("agent"), String::from("id"));
    assert_eq!(manager.context("s").workdir, "/ws");
    assert!(manager.connect("s").is_none());

    let manager = manager.with_workdir(String::from("/other")).with_protocol(AcpProtocol::default());
    assert_eq!(manager.context("s").workdir, "/other");
    let mut bridge = manager.connect("s").expect("a bridge");
    let start = bridge.start();
    assert_eq!(start.len(), 1);
    let id = match &start[0] {
        Action::Write(line) => {
            let request: Value = serde_json::from_str(line).expect("valid JSON");
            request["id"].as_u64().expect("an id")
        }
        Action::Publish(_) => panic!("the handshake is written"),
    };
    // The session is made in the manager's working directory.
    let actions = bridge.on_line(&format!(r#"{{"jsonrpc":"2.0","id":{id},"result":{{}}}}"#));
    let mut created = None;
    for action in &actions {
        if let Action::Write(line) = action {
            created = Some(serde_json::from_str::<Value>(line).expect("valid JSON"));
        }
    }
    let created = created.expect("a request");
    assert_eq!(created["method"], "session/new");
    assert_eq!(created["params"]["cwd"], "/other");
}

#[test]
fn a_fold_takes_entries_up_to_its_snapshot() {
    let mut fold = LifecycleFold::new(2);
    assert!(fold.take(&LogEntry::new(1, session_started("s1", "agent"))));
    assert!(fold.take(&LogEntry::new(2, session_restarted("s1", "agent", 4))));
    assert!(!fold.take(&LogEntry::new(3, session_exited("s1", "agent", 0, 1))));
    assert_eq!(fold.finish().get("s1"), Some(&4));
}

#[test]
fn supervision_defaults_to_no_restarts() {
    let supervision = Supervision::default();
    assert_eq!(supervision.max_restarts, 0);
    assert_eq!(supervision.restart_backoff, 1000);
    assert_eq!(supervision.lifetime, None);
}

#[test]
fn session_errors_explain_themselves() {
    assert_eq!(
        SessionError::Sandbox(String::from("bad policy")).to_string(),
        "the session sandbox could not be built: bad policy"
    );
    assert_eq!(
        SessionError::Log(LogError::WriterStopped).to_string(),
        "the session log could not be read: the event log writer has stopped"
    );
}

#[test]
fn a_status_lists_what_it_is_given() {
    let status = session_status(vec![Json::text("a"), Json::unsigned(1)]);
    assert_eq!(data(&status)["sessions"][0], "a");
    assert_eq!(data(&status)["sessions"][1], 1);
}

/// The events and the lines that a session's actions come to.
fn performed(session_id: &str, actions: Vec<Action>) -> (Vec<Event>, Vec<Value>) {
    let mut events = Vec::new();
    let mut lines = Vec::new();
    for action in actions {
        match outgoing(session_id, action, true) {
            Some(Action::Publish(event)) => events.push(event),
            Some(Action::Write(line)) => {
                lines.push(serde_json::from_str(&line).expect("a JSON line"));
            },
            None => {},
        }
    }
    (events, lines)
}

#[test]
fn a_bridged_session_converts_an_mcp_handshake() {
    let mut bridge = manager()
        .with_protocol(McpProtocol::default())
        .connect("mcp-1")
        .expect("a bridge");
    let (_, opening) = performed("mcp-1", bridge.start());
    assert_eq!(opening[0]["method"], "initialize");

    let answer = r#"{"jsonrpc":"2.0","id":0,"result":{"protocolVersion":"2024-11-05"}}"#;
    let (events, lines) = performed("mcp-1", bridge.on_line(answer));
    assert_eq!(events[0].kind, PROTOCOL_INBOUND);
    assert_eq!(data(&events[0])["protocol"], "mcp");
    assert!(data(&events[0])["message"]["result"].is_object());
    assert_eq!(lines[0]["method"], "notifications/initialized");

    let changed = r#"{"jsonrpc":"2.0","method":"notifications/tools/list_changed"}"#;
    let (events, lines) = performed("mcp-1", bridge.on_line(changed));
    assert_eq!(data(&events[0])["message"]["method"], "notifications/tools/list_changed");
    assert_eq!(events[0].subject.as_deref(), Some("session:mcp-1"));
    assert!(lines.is_empty());
}

#[test]
fn a_bridged_session_routes_an_outbound_event_to_the_child() {
    let mut bridge = manager()
        .with_protocol(McpProtocol::default())
        .connect("mcp-2")
        .expect("a bridge");
    let outbound = Event::new(
        PROTOCOL_OUTBOUND,
        Json::parse(
            r#"{"protocol":"mcp","message":{"jsonrpc":"2.0","id":1,"method":"ping"}}"#,
        )
        .expect("valid JSON"),
    )
    .with_subject(String::from("session:mcp-2"));

    assert!(is_routed(&outbound, "mcp-2"));
    assert!(!is_routed(&outbound, "mcp-1"));
    let (events, lines) = performed("mcp-2", bridge.on_event(&outbound));
    assert!(events.is_empty());
    assert_eq!(lines[0]["method"], "ping");

    let (events, _) = performed("mcp-2", bridge.on_line(&lines[0].to_string()));
    assert_eq!(data(&events[0])["message"]["method"], "ping");
    assert_eq!(events[0].subject.as_deref(), Some("session:mcp-2"));
}

#[test]
fn an_acp_session_negotiates_over_the_log() {
    let manager: SessionManager<AcpProtocol> =
        SessionManager::with_sandbox(String::from("agent"), String::from("agent"));
    let mut bridge = manager
        .with_protocol(AcpProtocol::default())
        .connect("acp-1")
        .expect("a bridge");
    let (_, opening) = performed("acp-1", bridge.start());
    assert_eq!(opening[0]["id"], 0);

    let answer =
        r#"{"jsonrpc":"2.0","id":0,"result":{"protocolVersion":1,"agentCapabilities":{}}}"#;
    let (events, lines) = performed("acp-1", bridge.on_line(answer));
    assert_eq!(data(&events[0])["protocol"], "acp");
    assert_eq!(data(&events[0])["message"]["result"]["protocolVersion"], 1);
    assert_eq!(lines[0]["method"], "session/new");

    let created = r#"{"jsonrpc":"2.0","id":1,"result":{"sessionId":"sess_1"}}"#;
    let (events, _) = performed("acp-1", bridge.on_line(created));
    let ready = events
        .iter()
        .find(|event| event.kind == PROTOCOL_READY)
        .expect("the handshake completed");
    assert_eq!(ready.subject.as_deref(), Some("session:acp-1"));
}

#[test]
fn a_queued_decision_is_not_raced_by_its_cancellation() {
    let manager = manager().with_permission_approval(10);
    let mut pending = PendingApprovals::new();
    for (seq, subject) in [(1, "session:a"), (2, "session:b")] {
        let entry = LogEntry::new(seq, asked(subject));
        assert!(matches!(
            manager.serve(&entry, "event", 0, 0, &mut pending),
            ServeAction::Nothing
        ));
    }
    let decision = permission_granted("7", "allow").with_subject(String::from("session:a"));
    let queued = vec![
        QueuedEntry { entry: LogEntry::new(3, decision), event_id: String::from("e3") },
        QueuedEntry { entry: LogEntry::new(4, request("s9")), event_id: String::from("e4") },
    ];

    let (actions, cancelled) = manager.expire(&queued, 0, 10, &mut pending);

    assert!(matches!(actions[0], ServeAction::Nothing));
    assert!(matches!(&actions[1], ServeAction::Launch(run) if run.session_id() == "s9"));
    assert_eq!(cancelled.len(), 1);
    assert_eq!(cancelled[0].kind, SESSION_PERMISSION_CANCELLED);
    assert_eq!(cancelled[0].subject.as_deref(), Some("session:b"));
    assert_eq!(pending.next_deadline(), None);
}
