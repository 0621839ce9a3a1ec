use agentd::auth::{Claim, Principal, Token, TokenStore};
use agentd::events::{unsupported_specversion, SPECVERSION};
use agentd::log::LogError;
use agentd::server::{
    events_access, handle_inbound, inference_access, invalid_request, is_reserved,
    is_shared_directory, prepare_directory, publish_failed, replay_failed, stream_step, BindEvent,
    BindStep, Claiming, DirectoryProbe, DirectoryStep, EventStream, Inbound, InboundStep, Lag,
    Opening, Provenance, ReplayError, ServerError, StreamEvent, StreamStep, DAEMON_CAUGHT_UP,
};
use axum::http::header::AUTHORIZATION;
use axum::http::HeaderMap;

fn headers(secret: &str) -> HeaderMap {
    let mut headers = HeaderMap::new();
    headers.insert(AUTHORIZATION, format!("Bearer {secret}").parse().expect("header"));
    headers
}

fn tokens() -> TokenStore {
    let token = |secret: &str, source: &str, claims: &[Claim]| Token {
        secret: String::from(secret),
        principal: Principal::new(source, claims),
    };
    TokenStore::new(vec![
        token("read-secret", "urn:test:reader", &[Claim::Read]),
        token("write-secret", "urn:test:writer", &[Claim::Read, Claim::Publish]),
        token(
            "authority-secret",
            "urn:test:approver",
            &[Claim::Read, Claim::Publish, Claim::Authority],
        ),
        token("infer-secret", "urn:test:agent", &[Claim::Read, Claim::Publish, Claim::Infer]),
        token("infer-only", "urn:test:model", &[Claim::Infer]),
    ])
}

fn reader() -> Principal {
    Principal::new("urn:test:reader", &[Claim::Read])
}

fn writer() -> Principal {
    Principal::new("urn:test:writer", &[Claim::Read, Claim::Publish])
}

#[test]
fn unauthenticated_connections_are_rejected() {
    assert_eq!(events_access(&tokens(), &HeaderMap::new()).err(), Some(401));
    assert_eq!(events_access(&tokens(), &headers("wrong")).err(), Some(401));
    assert_eq!(inference_access(&tokens(), &HeaderMap::new()).err(), Some(401));
    let reader = events_access(&tokens(), &headers("read-secret")).expect("a reader");
    assert_eq!(reader.source(), "urn:test:reader");
}

#[test]
fn an_inference_token_may_not_use_the_event_stream() {
    assert_eq!(events_access(&tokens(), &headers("infer-only")).err(), Some(401));
    assert!(inference_access(&tokens(), &headers("infer-only")).is_ok());
}

#[test]
fn inference_requires_the_infer_claim() {
    assert_eq!(inference_access(&tokens(), &headers("write-secret")).err(), Some(403));
    assert!(inference_access(&tokens(), &headers("infer-secret")).is_ok());
}

#[test]
fn connecting_without_from_is_live_only() {
    let (mut stream, opening) = EventStream::open(&writer(), None, 3);
    assert!(matches!(opening, Opening::Live));
    assert!(stream.reads());
    assert!(stream.recorded(4));
}

#[test]
fn events_socket_replays_history_from_a_position() {
    let (mut stream, opening) = EventStream::open(&reader(), Some(2), 3);
    assert!(matches!(opening, Opening::Replay(2)));
    assert!(stream.recorded(2));
    assert!(stream.recorded(3));
    // The live stream continues after the replayed history.
    assert!(!stream.recorded(3));
    assert!(stream.recorded(4));
}

#[test]
fn resuming_at_the_tail_receives_only_live_events() {
    let (_, opening) = EventStream::open(&reader(), Some(3), 2);
    assert!(matches!(opening, Opening::Replay(3)));
}

#[test]
fn resuming_beyond_the_tail_is_rejected() {
    match EventStream::open(&reader(), Some(3), 1).1 {
        Opening::Refuse(notice) => {
            assert_eq!(notice.kind, "error.resume_out_of_range");
            assert_eq!(notice.data.get_u64("position"), Some(3));
            assert_eq!(notice.data.get_u64("tail"), Some(1));
        }
        _ => panic!("the position is out of range"),
    }
}

#[test]
fn resuming_from_zero_is_rejected() {
    assert!(matches!(
        EventStream::open(&reader(), Some(0), 5).1,
        Opening::Refuse(notice) if notice.kind == "error.resume_out_of_range"
    ));
}

#[test]
fn resuming_never_skips_or_repeats_positions() {
    let (mut stream, _) = EventStream::open(&reader(), Some(1), 3);
    let mut positions = Vec::new();
    // History and live overlap.
    for position in (1..=20).chain(3..=50) {
        if stream.recorded(position) {
            positions.push(position);
        }
    }
    assert_eq!(positions, (1..=50).collect::<Vec<u64>>());
}

#[test]
fn a_publisher_that_cannot_read_is_not_replayed() {
    let publisher = Principal::new("urn:p", &[Claim::Publish]);
    let (stream, opening) = EventStream::open(&publisher, Some(0), 5);
    assert!(matches!(opening, Opening::Live));
    assert!(!stream.reads());
}

#[test]
fn lagging_while_resuming_re_reads_the_log() {
    let (mut stream, _) = EventStream::open(&reader(), Some(1), 3);
    assert!(stream.recorded(1));
    assert!(matches!(stream.lagged(7), Lag::Replay(2)));

    let (live, _) = EventStream::open(&reader(), None, 3);
    match live.lagged(7) {
        Lag::Notice(notice) => {
            assert_eq!(notice.kind, "error.lagged");
            assert_eq!(notice.data.get_u64("missed"), Some(7));
        }
        Lag::Replay(_) => panic!("a live client is notified"),
    }
}

#[test]
fn a_resuming_reader_is_told_once_that_it_has_caught_up() {
    let (mut stream, _) = EventStream::open(&reader(), Some(1), 3);
    assert!(stream.recorded(1));
    let notice = stream.replayed(9).expect("the replay ended");
    assert_eq!(notice.kind, DAEMON_CAUGHT_UP);
    assert_eq!(notice.data.get_u64("tail"), Some(9));

    // A later replay, after falling behind, is not told again.
    assert!(matches!(stream.lagged(7), Lag::Replay(2)));
    assert!(stream.replayed(12).is_none());

    // Nor is anyone told whom no history was replayed to.
    let publisher = Principal::new("urn:p", &[Claim::Publish]);
    assert!(EventStream::open(&reader(), None, 3).0.replayed(3).is_none());
    assert!(EventStream::open(&publisher, Some(1), 3).0.replayed(3).is_none());
    assert!(EventStream::open(&reader(), Some(9), 3).0.replayed(3).is_none());
}

#[test]
fn read_only_connections_cannot_publish() {
    for inbound in [
        Inbound::Event(String::from("test.event")),
        Inbound::Invalid(String::from("bad")),
    ] {
        match handle_inbound(&reader(), inbound) {
            InboundStep::Reply(notice) => {
                assert_eq!(notice.kind, "error.unauthorized");
                assert_eq!(
                    notice.data.get_str("error"),
                    Some("the token does not grant the publish claim")
                );
            }
            _ => panic!("nothing should be appended"),
        }
    }
}

#[test]
fn events_socket_replies_with_error_event_for_invalid_messages() {
    match handle_inbound(&writer(), Inbound::Invalid(String::from("expected ident"))) {
        InboundStep::Reply(notice) => {
            assert_eq!(notice.kind, "error.invalid_event");
            assert_eq!(notice.data.get_str("error"), Some("expected ident"));
        }
        _ => panic!("an invalid message is answered"),
    }
}

#[test]
fn events_socket_replies_with_error_event_for_unsupported_specversions() {
    assert_eq!(unsupported_specversion(SPECVERSION), None);
    let fault = unsupported_specversion("0.3").expect("an unsupported version");
    match handle_inbound(&writer(), Inbound::Invalid(fault)) {
        InboundStep::Reply(notice) => {
            assert_eq!(notice.kind, "error.invalid_event");
            assert_eq!(notice.data.get_str("error"), Some("specversion must be 1.0"));
        }
        _ => panic!("an unsupported version is answered"),
    }
}

#[test]
fn reserved_types_require_authority() {
    let reserved = || Inbound::Event(String::from("sandbox.permission.granted"));
    match handle_inbound(&writer(), reserved()) {
        InboundStep::Reply(notice) => {
            assert_eq!(notice.kind, "error.unauthorized");
            assert_eq!(notice.data.get_str("type"), Some("sandbox.permission.granted"));
        }
        _ => panic!("nothing should be appended"),
    }
    for kind in ["error.x", "sandbox.x", "session.requested"] {
        assert!(is_reserved(kind));
    }
    assert!(!is_reserved("agent.inbox"));
    assert!(!is_reserved("sessions"));
}

#[test]
fn authority_can_publish_reserved_types() {
    let approver = Principal::new(
        "urn:test:approver",
        &[Claim::Read, Claim::Publish, Claim::Authority],
    );
    assert!(matches!(
        handle_inbound(&approver, Inbound::Event(String::from("sandbox.permission.granted"))),
        InboundStep::Publish(source) if source == "urn:test:approver"
    ));
}

#[test]
fn daemon_overwrites_client_supplied_provenance() {
    let claimed = Provenance {
        source: String::from("urn:spoofed"),
        time: Some(String::from("2000-01-01T00:00:00Z")),
    };
    match handle_inbound(&writer(), Inbound::Event(String::from("test.event"))) {
        InboundStep::Publish(source) => {
            let stamped = claimed.overwritten(source, Some(String::from("2024-05-01T00:00:00Z")));
            assert_eq!(stamped.source, "urn:test:writer");
            assert_ne!(stamped.time.as_deref(), Some("2000-01-01T00:00:00Z"));
        }
        _ => panic!("the event is published"),
    }
}

#[test]
fn other_frames_are_ignored() {
    assert!(matches!(handle_inbound(&reader(), Inbound::Other), InboundStep::Ignore));
    assert!(matches!(handle_inbound(&reader(), Inbound::Close), InboundStep::Close));
    assert_eq!(publish_failed("disk").data.get_str("error"), Some("disk"));
    assert_eq!(publish_failed("disk").kind, "error.publish_failed");
    assert_eq!(replay_failed("io").kind, "error.replay_failed");
}

#[test]
fn run_reports_already_running_when_socket_is_live() {
    let mut claim = Claiming::new("/run/test.sock");
    assert!(matches!(claim.step(BindEvent::InUse), BindStep::Probe));
    assert!(matches!(
        claim.step(BindEvent::Probed(true)),
        BindStep::Fail(ServerError::AlreadyRunning(path)) if path == "/run/test.sock"
    ));
}

#[test]
fn a_stale_socket_is_replaced() {
    let mut claim = Claiming::new("/run/test.sock");
    assert!(matches!(claim.step(BindEvent::InUse), BindStep::Probe));
    assert!(matches!(claim.step(BindEvent::Probed(false)), BindStep::Remove));
    assert!(matches!(claim.step(BindEvent::Removed), BindStep::Bind));
    assert!(matches!(claim.step(BindEvent::Bound), BindStep::Serve));

    let mut free = Claiming::new("/run/test.sock");
    assert!(matches!(free.step(BindEvent::Bound), BindStep::Serve));
    let mut failing = Claiming::new("/run/test.sock");
    assert!(matches!(
        failing.step(BindEvent::Failed(String::from("denied"))),
        BindStep::Fail(ServerError::Io(error)) if error == "denied"
    ));
}

#[test]
fn run_refuses_a_world_writable_socket_directory() {
    for mode in [0o777, 0o770, 0o702] {
        assert!(matches!(
            prepare_directory("/tmp/d/test.sock", DirectoryProbe::Present(Some(mode))),
            DirectoryStep::Refuse(ServerError::InsecureDirectory(dir)) if dir == "/tmp/d"
        ));
    }
    assert!(matches!(
        prepare_directory("/tmp/d/test.sock", DirectoryProbe::Present(Some(0o755))),
        DirectoryStep::Keep
    ));
    assert!(matches!(
        prepare_directory("/tmp/d/test.sock", DirectoryProbe::Missing),
        DirectoryStep::Create(dir) if dir == "/tmp/d"
    ));
    assert!(matches!(
        prepare_directory("test.sock", DirectoryProbe::Missing),
        DirectoryStep::Keep
    ));
    assert!(is_shared_directory(Some(0o022)));
    assert!(!is_shared_directory(Some(0o755)));
    assert!(!is_shared_directory(None));
}

#[test]
fn inference_streams_a_scripted_response() {
    // Each delta with whether it ends the response.
    let script = [("hello ", false), ("world", false), ("done", true), ("late", false)];
    let mut sent = Vec::new();
    let mut ended = StreamStep::Continue;
    for (delta, terminal) in script {
        sent.push(delta);
        ended = stream_step(StreamEvent::Sent(terminal));
        if ended != StreamStep::Continue {
            break;
        }
    }
    assert_eq!(sent, ["hello ", "world", "done"]);
    assert_eq!(ended, StreamStep::Finish);

    assert_eq!(stream_step(StreamEvent::Sent(false)), StreamStep::Continue);
    assert_eq!(stream_step(StreamEvent::Sent(true)), StreamStep::Finish);
    assert_eq!(stream_step(StreamEvent::Ended), StreamStep::Finish);
    assert_eq!(stream_step(StreamEvent::Frame), StreamStep::Continue);
    assert_eq!(stream_step(StreamEvent::Gone), StreamStep::Close);
    assert_eq!(stream_step(StreamEvent::SendFailed), StreamStep::Close);
    assert_eq!(invalid_request("eof"), "invalid inference request: eof");
}

#[test]
fn server_errors_explain_themselves() {
    assert_eq!(
        ServerError::AlreadyRunning(String::from("/s")).to_string(),
        "another instance is already listening on /s"
    );
    assert_eq!(
        ServerError::InsecureDirectory(String::from("/d")).to_string(),
        "the socket directory /d is writable by other users"
    );
    assert_eq!(ServerError::Io(String::from("io")).to_string(), "io");
    assert_eq!(ReplayError::Join(String::from("j")).to_string(), "the replay task failed: j");
    assert_eq!(ReplayError::Socket(String::from("s")).to_string(), "s");
    assert_eq!(
        ReplayError::Log(LogError::Json(String::from("x"))).to_string(),
        "event is not valid JSON: x"
    );
}
