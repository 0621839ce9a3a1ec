use agentd::bridge::{
    is_permission_decision, permission_cancelled, permission_denied, permission_granted,
    prompt_requested, protocol_inbound, session_subject, AcpBridge, AcpProtocol, Action, Bridge,
    McpProtocol, Protocol, SessionContext, PROMPT_COMPLETED, PROMPT_FAILED, PROTOCOL_FAILED,
    PROTOCOL_INBOUND, PROTOCOL_OUTBOUND, PROTOCOL_READY, SESSION_PERMISSION_CANCELLED,
    SESSION_PERMISSION_DECISIONS, SESSION_PERMISSION_DENIED, SESSION_PERMISSION_GRANTED, SESSION_PERMISSION_REQUESTED,
};
use agentd::events::Event;
use agentd::json::Json;
use serde_json::Value;

fn connect<P: Protocol>(protocol: &P) -> P::Machine {
    protocol.connect(&SessionContext { session_id: "s1", workdir: "/work" })
}

fn lines(actions: &[Action]) -> Vec<String> {
    let mut lines = Vec::new();
    for action in actions {
        if let Action::Write(line) = action {
            lines.push(line.clone());
        }
    }
    lines
}

fn events(actions: &[Action]) -> Vec<&Event> {
    let mut events = Vec::new();
    for action in actions {
        if let Action::Publish(event) = action {
            events.push(event);
        }
    }
    events
}

fn parse(line: &str) -> Value {
    serde_json::from_str(line).expect("valid JSON")
}

fn data(event: &Event) -> Value {
    parse(&event.data.to_string())
}

fn json(text: &str) -> Json {
    Json::parse(text).expect("valid JSON")
}

/// A bridge that completed its handshake.
fn ready_bridge() -> AcpBridge {
    let mut bridge = connect(&AcpProtocol::default());
    let initialize = parse(&lines(&bridge.start())[0]);
    let id = initialize["id"].as_u64().expect("an id");
    let actions = bridge.on_line(&format!(
        r#"{{"jsonrpc":"2.0","id":{id},"result":{{"protocolVersion":1,"agentCapabilities":{{}}}}}}"#
    ));
    let new_session_id = parse(&lines(&actions)[0])["id"].as_u64().expect("an id");
    let ready = bridge.on_line(&format!(
        r#"{{"jsonrpc":"2.0","id":{new_session_id},"result":{{"sessionId":"sess_1"}}}}"#
    ));
    assert!(
        events(&ready).iter().any(|event| event.kind == PROTOCOL_READY),
        "the bridge should be ready"
    );
    bridge
}

#[test]
fn mcp_start_sends_the_initialize_request() {
    let mut bridge = connect(&McpProtocol::default());
    let request = parse(&lines(&bridge.start())[0]);

    assert_eq!(request["jsonrpc"], "2.0");
    assert_eq!(request["method"], "initialize");
    assert_eq!(request["params"]["protocolVersion"], "2024-11-05");
    assert_eq!(request["params"]["clientInfo"]["name"], "agentd");
}

#[test]
fn mcp_uplink_parses_a_notification_into_an_event() {
    let mut bridge = connect(&McpProtocol::default());
    let actions =
        bridge.on_line(r#"{"jsonrpc":"2.0","method":"notifications/tools/list_changed"}"#);

    let published = events(&actions);
    assert_eq!(published[0].kind, PROTOCOL_INBOUND);
    assert_eq!(data(published[0])["protocol"], "mcp");
    assert_eq!(
        data(published[0])["message"]["method"],
        "notifications/tools/list_changed"
    );
    assert!(lines(&actions).is_empty());
}

#[test]
fn mcp_uplink_acknowledges_the_initialize_response() {
    let mut bridge = connect(&McpProtocol::default());
    let actions =
        bridge.on_line(r#"{"jsonrpc":"2.0","id":0,"result":{"protocolVersion":"2024-11-05"}}"#);

    let reply = parse(&lines(&actions)[0]);
    assert_eq!(reply["method"], "notifications/initialized");
}

#[test]
fn mcp_ignores_blank_non_json_and_foreign_messages() {
    let mut bridge = connect(&McpProtocol::default());

    assert!(bridge.on_line("   ").is_empty());
    assert!(bridge.on_line("not json").is_empty());
    assert!(bridge.on_line(r#"{"method":"no-version"}"#).is_empty());
}

#[test]
fn mcp_downlink_renders_only_this_protocols_messages() {
    let mut bridge = connect(&McpProtocol::default());
    let ours = Event::new(
        PROTOCOL_OUTBOUND,
        json(r#"{"protocol":"mcp","message":{"jsonrpc":"2.0","id":1,"method":"ping"}}"#),
    );
    let foreign = Event::new(
        PROTOCOL_OUTBOUND,
        json(r#"{"protocol":"acp","message":{"jsonrpc":"2.0","id":1,"method":"ping"}}"#),
    );

    assert_eq!(parse(&lines(&bridge.on_event(&ours))[0])["method"], "ping");
    assert!(bridge.on_event(&foreign).is_empty());
    assert!(bridge.on_event(&Event::new("agent.inbox", Json::object())).is_empty());
}

#[test]
fn acp_negotiates_a_session_and_a_prompt() {
    let mut bridge = connect(&AcpProtocol::default());

    let initialize = parse(&lines(&bridge.start())[0]);
    assert_eq!(initialize["method"], "initialize");
    assert_eq!(initialize["params"]["protocolVersion"], 1);
    assert_eq!(initialize["params"]["clientCapabilities"]["fs"]["readTextFile"], false);
    assert_eq!(initialize["params"]["clientCapabilities"]["terminal"], false);
    let initialize_id = initialize["id"].as_u64().expect("an id");

    let actions = bridge.on_line(&format!(
        r#"{{"jsonrpc":"2.0","id":{initialize_id},"result":{{"protocolVersion":1,"agentCapabilities":{{}}}}}}"#
    ));
    let new_session = parse(&lines(&actions)[0]);
    assert_eq!(new_session["method"], "session/new");
    assert_eq!(new_session["params"]["mcpServers"], parse("[]"));
    assert_eq!(new_session["params"]["cwd"], "/work");
    let new_session_id = new_session["id"].as_u64().expect("an id");

    let actions = bridge.on_line(&format!(
        r#"{{"jsonrpc":"2.0","id":{new_session_id},"result":{{"sessionId":"sess_1"}}}}"#
    ));
    assert!(events(&actions).iter().any(|event| event.kind == PROTOCOL_READY));

    let prompt = prompt_requested(&json(r#"[{"type":"text","text":"hi"}]"#));
    let turn = parse(&lines(&bridge.on_event(&prompt))[0]);
    assert_eq!(turn["method"], "session/prompt");
    assert_eq!(turn["params"]["sessionId"], "sess_1");
    assert_eq!(turn["params"]["prompt"][0]["text"], "hi");
}

#[test]
fn acp_reports_a_failed_prompt_as_a_failure_not_a_completion() {
    let mut bridge = ready_bridge();
    let prompt = prompt_requested(&json(r#"[{"type":"text","text":"hi"}]"#));
    let turn = parse(&lines(&bridge.on_event(&prompt))[0]);
    let prompt_id = turn["id"].as_u64().expect("an id");

    let actions = bridge.on_line(&format!(
        r#"{{"jsonrpc":"2.0","id":{prompt_id},"error":{{"code":-32000,"message":"the provider refused"}}}}"#
    ));

    let published = events(&actions);
    let failed: Vec<&&Event> =
        published.iter().filter(|event| event.kind == PROMPT_FAILED).collect();
    assert_eq!(failed.len(), 1, "{published:?}");
    assert_eq!(data(failed[0])["error"]["code"], -32000);
    assert_eq!(data(failed[0]).get("stop_reason"), None);
    assert!(
        published.iter().all(|event| event.kind != PROMPT_COMPLETED),
        "a failed turn is not a completed one: {published:?}"
    );
}

#[test]
fn acp_reports_a_finished_prompt_with_its_stop_reason() {
    let mut bridge = ready_bridge();
    let prompt = prompt_requested(&json(r#"[{"type":"text","text":"hi"}]"#));
    let turn = parse(&lines(&bridge.on_event(&prompt))[0]);
    let prompt_id = turn["id"].as_u64().expect("an id");

    let actions = bridge.on_line(&format!(
        r#"{{"jsonrpc":"2.0","id":{prompt_id},"result":{{"stopReason":"end_turn"}}}}"#
    ));

    let published = events(&actions);
    let completed: Vec<&&Event> =
        published.iter().filter(|event| event.kind == PROMPT_COMPLETED).collect();
    assert_eq!(completed.len(), 1, "{published:?}");
    assert_eq!(data(completed[0])["stop_reason"], "end_turn");
    assert!(
        published.iter().all(|event| event.kind != PROMPT_FAILED),
        "a turn with a stop reason did not fail: {published:?}"
    );
}

#[test]
fn acp_does_not_prompt_before_a_session_exists() {
    let mut bridge = connect(&AcpProtocol::default());
    let request = prompt_requested(&json("[]"));

    assert!(bridge.on_event(&request).is_empty());
}

#[test]
fn acp_routes_a_permission_request_and_answers_under_the_same_id() {
    let mut bridge = connect(&AcpProtocol::default());

    let actions = bridge.on_line(
        r#"{"jsonrpc":"2.0","id":5,"method":"session/request_permission","params":{"sessionId":"sess_1","toolCall":{"toolCallId":"call_1"},"options":[{"optionId":"allow-once","name":"Allow","kind":"allow_once"}]}}"#,
    );
    let published = events(&actions);
    let requested = published
        .iter()
        .find(|event| event.kind == SESSION_PERMISSION_REQUESTED)
        .expect("a permission request");
    assert_eq!(data(requested)["request_id"], "5");
    assert_eq!(data(requested)["tool_call"]["toolCallId"], "call_1");

    let decision = permission_granted("5", "allow-once").with_subject(session_subject("s1"));
    let response = parse(&lines(&bridge.on_event(&decision))[0]);
    assert_eq!(response["id"], 5);
    assert_eq!(response["result"]["outcome"]["outcome"], "selected");
    assert_eq!(response["result"]["outcome"]["optionId"], "allow-once");

    // A second decision for the same id is not re-answered.
    assert!(bridge.on_event(&decision).is_empty());
}

#[test]
fn acp_ignores_unknown_ids_and_blank_lines() {
    let mut bridge = connect(&AcpProtocol::default());

    assert!(bridge.on_line("").is_empty());
    assert_eq!(bridge.on_line(r#"{"jsonrpc":"2.0","id":99,"result":{}}"#).len(), 1);
}

#[test]
fn a_cancelled_permission_answers_the_child_with_a_cancellation() {
    let mut bridge = ready_bridge();
    let actions = bridge.on_line(
        r#"{"jsonrpc":"2.0","id":7,"method":"session/request_permission","params":{"sessionId":"sess_1","toolCall":{"toolCallId":"call_1"},"options":[]}}"#,
    );
    assert!(!events(&actions).is_empty());

    let reply = lines(&bridge.on_event(&permission_cancelled("7")));
    assert_eq!(reply.len(), 1);
    assert!(
        reply[0].contains(r#""outcome":{"outcome":"cancelled"}"#),
        "the child should be answered with a cancellation: {}",
        reply[0]
    );

    // A decision after the deadline is ignored.
    assert!(bridge.on_event(&permission_granted("7", "allow-once")).is_empty());
}

#[test]
fn a_rejected_handshake_is_reported() {
    let mut bridge = connect(&AcpProtocol::default());
    let _ = bridge.start();

    let actions =
        bridge.on_line(r#"{"jsonrpc":"2.0","id":0,"error":{"code":-1,"message":"no"}}"#);
    assert!(events(&actions).iter().any(|event| event.kind == PROTOCOL_FAILED));
    assert!(lines(&actions).is_empty());
    assert!(bridge.on_event(&prompt_requested(&json("[]"))).is_empty());
}

#[test]
fn decisions_carry_their_request_and_option() {
    let granted = permission_granted("r", "o");
    assert_eq!(granted.kind, SESSION_PERMISSION_GRANTED);
    assert_eq!(data(&granted)["request_id"], "r");
    assert_eq!(data(&granted)["decision"], "granted");
    assert_eq!(data(&granted)["option_id"], "o");

    let denied = permission_denied("r", "o");
    assert_eq!(denied.kind, SESSION_PERMISSION_DENIED);
    assert_eq!(data(&denied)["decision"], "denied");

    let cancelled = permission_cancelled("r");
    assert_eq!(cancelled.kind, SESSION_PERMISSION_CANCELLED);
    assert_eq!(data(&cancelled)["decision"], "cancelled");
    assert_eq!(data(&cancelled)["cancelled"], true);

    assert!(is_permission_decision("session.permission.granted"));
    assert!(is_permission_decision("session.permission.denied"));
    assert!(is_permission_decision("session.permission.cancelled"));
    assert!(!is_permission_decision("session.permission.requested"));
}

#[test]
fn protocols_announce_what_they_were_told() {
    let mut mcp = connect(&McpProtocol::new("tool").with_protocol_version("2025-01-01"));
    let request = parse(&lines(&mcp.start())[0]);
    assert_eq!(request["params"]["clientInfo"]["name"], "tool");
    assert_eq!(request["params"]["clientInfo"]["version"], "0.1.0");
    assert_eq!(request["params"]["protocolVersion"], "2025-01-01");

    let mut acp = connect(&AcpProtocol::new("tool").with_protocol_version(3));
    let request = parse(&lines(&acp.start())[0]);
    assert_eq!(request["params"]["protocolVersion"], 3);
    assert_eq!(request["params"]["clientInfo"]["name"], "tool");
}

#[test]
fn inbound_events_carry_protocol_and_message() {
    let event = protocol_inbound("mcp", &json(r#"{"a":1}"#));
    assert_eq!(event.kind, PROTOCOL_INBOUND);
    assert_eq!(data(&event)["protocol"], "mcp");
    assert_eq!(data(&event)["message"]["a"], 1);
    assert_eq!(session_subject("s1"), "session:s1");
}

#[test]
fn a_rejected_handshake_is_final() {
    let prompt = prompt_requested(&json("[]"));
    for stage in 0..2 {
        let mut bridge = connect(&AcpProtocol::default());
        let mut request = parse(&lines(&bridge.start())[0]);
        if stage == 1 {
            let id = request["id"].as_u64().expect("an id");
            let actions =
                bridge.on_line(&format!(r#"{{"jsonrpc":"2.0","id":{id},"result":{{}}}}"#));
            request = parse(&lines(&actions)[0]);
        }
        let id = request["id"].as_u64().expect("an id");
        let rejected = bridge.on_line(&format!(
            r#"{{"jsonrpc":"2.0","id":{id},"error":{{"code":-32000,"message":"no"}}}}"#
        ));
        assert!(lines(&rejected).is_empty());
        assert!(events(&rejected).iter().any(|event| event.kind == PROTOCOL_FAILED));

        // Whatever is answered later, no prompt is sent.
        for late in 0..4 {
            let actions = bridge.on_line(&format!(
                r#"{{"jsonrpc":"2.0","id":{late},"result":{{"sessionId":"sess_1"}}}}"#
            ));
            assert!(lines(&actions).is_empty());
            assert!(events(&actions).iter().all(|event| event.kind != PROTOCOL_READY));
            assert!(bridge.on_event(&prompt).is_empty());
        }
    }
}

#[test]
fn prompts_go_out_one_at_a_time_under_new_ids() {
    let mut bridge = ready_bridge();
    let prompt = prompt_requested(&json("[]"));
    let mut ids = Vec::new();
    for _ in 0..3 {
        let turn = parse(&lines(&bridge.on_event(&prompt))[0]);
        assert_eq!(turn["params"]["sessionId"], "sess_1");
        let id = turn["id"].as_u64().expect("an id");
        assert!(!ids.contains(&id), "{id} was used before");
        ids.push(id);
        assert!(bridge.on_event(&prompt).is_empty(), "one prompt is in flight");
        let _ = bridge.on_line(&format!(r#"{{"jsonrpc":"2.0","id":{id},"result":{{}}}}"#));
    }
    // The handshake took the first two.
    assert_eq!(ids, [2, 3, 4]);
}

#[test]
fn the_listed_decisions_are_the_decisions() {
    assert!(SESSION_PERMISSION_DECISIONS.iter().all(|kind| is_permission_decision(kind)));
    assert!(!is_permission_decision(SESSION_PERMISSION_REQUESTED));
}
