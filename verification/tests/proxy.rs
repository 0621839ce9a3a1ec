use agentd::confinement::{HostPort, Policy};
use agentd::events::Event;
use agentd::json::Json;
use agentd::policy::EnvVar;
use agentd::proxy::{
    AskEvent, AskStep, EGRESS_CANCELLED, EGRESS_DENIED, EGRESS_GRANTED, EGRESS_REQUESTED, Egress,
    EgressRequest, FORWARD_PORT, HeadReader, HeadStep, MAX_HEADER_BYTES, Proxy, ServeStep,
    Transport, Verdict, basic_authorization, choose_transport, head_timed_out, on_connected,
    on_decision, on_head, parse_authority, parse_connect, reply, reply_with, socket_directory,
};
use base64::Engine;

fn destination(host: &str, port: u16) -> HostPort {
    HostPort { host: String::from(host), port }
}

fn example() -> Egress {
    Egress::new(vec![destination("api.example.com", 443)])
}

fn decision(kind: &str, request_id: &str) -> AskEvent {
    AskEvent::Seen(Event::new(
        kind,
        Json::object().with("request_id", Json::text(request_id)),
    ))
}

#[test]
fn only_allowlisted_destinations_pass() {
    let egress = example();

    assert!(egress.listed("api.example.com", 443));
    assert!(egress.listed("API.EXAMPLE.COM", 443));
    assert!(!egress.listed("api.example.com", 80));
    assert!(!egress.listed("evil.example.com", 443));
    assert!(!Egress::default().listed("api.example.com", 443));
}

#[test]
fn connect_line_parses_the_authority() {
    assert_eq!(
        parse_connect("CONNECT api.example.com:443 HTTP/1.1\r\n"),
        Some((String::from("api.example.com"), 443))
    );
    assert_eq!(
        parse_connect("connect 127.0.0.1:9000 HTTP/1.1\r\n"),
        Some((String::from("127.0.0.1"), 9000))
    );
    assert_eq!(
        parse_connect("CONNECT [::1]:443 HTTP/1.1\r\n"),
        Some((String::from("::1"), 443))
    );
    assert_eq!(parse_connect("GET / HTTP/1.1\r\n"), None);
    assert_eq!(parse_connect("CONNECT no-port HTTP/1.1\r\n"), None);
    assert_eq!(parse_connect("CONNECT host:notaport HTTP/1.1\r\n"), None);
    assert_eq!(parse_connect("CONNECT [::1 HTTP/1.1\r\n"), None);
}

#[test]
fn an_unlisted_destination_is_denied_without_an_approver() {
    assert_eq!(example().allows("evil.example.com", 443), Verdict::Deny);
}

#[test]
fn a_listed_destination_never_asks() {
    let egress = example().with_approver(1);
    assert_eq!(egress.allows("api.example.com", 443), Verdict::Allow);
    assert_eq!(egress.allows("other.example.com", 443), Verdict::Ask(1));
    assert_eq!(egress.static_allowlist().len(), 1);
}

#[test]
fn the_child_traceparent_reaches_the_approval_event() {
    let trace = "00-0af7651916cd43dd8448eb211c80319c-b7ad6b7169203331-01";
    let request = EgressRequest::new(
        String::from("r1"),
        "new.example.com",
        443,
        Some(String::from(trace)),
    );

    let event = request.event();
    assert_eq!(event.kind, EGRESS_REQUESTED);
    assert_eq!(event.traceparent.as_deref(), Some(trace));
    assert_eq!(event.data.get_str("request_id"), Some("r1"));
    assert_eq!(event.data.get_str("host"), Some("new.example.com"));
    assert_eq!(event.data.get_u64("port"), Some(443));
}

#[test]
fn an_approver_can_grant_an_unlisted_destination() {
    let request = EgressRequest::new(String::from("r1"), "new.example.com", 443, None);

    assert!(matches!(request.step(AskEvent::Recorded), AskStep::Wait));
    assert!(matches!(request.step(decision(EGRESS_GRANTED, "other")), AskStep::Wait));
    assert!(matches!(request.step(decision("agent.inbox", "r1")), AskStep::Wait));
    assert!(matches!(request.step(AskEvent::Lagged), AskStep::Wait));
    assert!(matches!(request.step(decision(EGRESS_GRANTED, "r1")), AskStep::Granted));
}

#[test]
fn a_denied_destination_stays_denied() {
    let request = EgressRequest::new(String::from("r1"), "new.example.com", 443, None);

    assert!(matches!(request.step(decision(EGRESS_DENIED, "r1")), AskStep::Refused));
    assert!(matches!(request.step(decision(EGRESS_CANCELLED, "r1")), AskStep::Refused));
    assert!(matches!(request.step(AskEvent::RecordFailed), AskStep::Refused));
}

#[test]
fn a_request_nobody_decides_is_cancelled() {
    let request = EgressRequest::new(String::from("r1"), "new.example.com", 443, None);

    for event in [AskEvent::TimedOut, AskEvent::Closed] {
        match request.step(event) {
            AskStep::Cancel(cancelled) => {
                assert_eq!(cancelled.kind, EGRESS_CANCELLED);
                assert_eq!(cancelled.data.get_str("request_id"), Some("r1"));
                assert_eq!(cancelled.data.get_str("decision"), Some("cancelled"));
                assert_eq!(
                    cancelled.data.get_str("reason"),
                    Some("no approval within the timeout")
                );
                assert_eq!(cancelled.traceparent, None);
            }
            _ => panic!("nobody decided"),
        }
    }
}

#[test]
fn requests_have_ids_of_their_own() {
    let one = EgressRequest::open("h", 1, None).event();
    let other = EgressRequest::open("h", 1, None).event();
    let id = one.data.get_str("request_id").expect("an id");
    assert_eq!(id.len(), 36);
    assert_ne!(Some(id), other.data.get_str("request_id"));
}

#[test]
fn a_namespace_host_grants_a_unix_socket_proxy() {
    assert!(matches!(choose_transport(true, true), Ok(true)));
    let socket = String::from("/tmp/agentd-egress-x/proxy.sock");
    let mut policy = Policy::default();
    let proxy = Proxy::start_for_policy(&mut policy, &example(), Transport::Unix(socket));

    let grant = policy.network.proxy.expect("a grant");
    assert_eq!(grant.port, FORWARD_PORT);
    assert_eq!(grant.socket.as_deref(), Some("/tmp/agentd-egress-x/proxy.sock"));
    assert_eq!(grant.egress, vec![destination("api.example.com", 443)]);
    assert!(proxy.url().ends_with("@127.0.0.1:31828"));
    assert_eq!(proxy.address(), None);
    assert_eq!(proxy.owned_directory().as_deref(), Some("/tmp/agentd-egress-x"));
}

#[test]
fn a_host_without_a_namespace_grants_a_loopback_tcp_proxy() {
    assert!(matches!(choose_transport(false, false), Ok(false)));
    let mut policy = Policy::default();
    let proxy = Proxy::start_for_policy(&mut policy, &example(), Transport::Tcp(4321));

    let grant = policy.network.proxy.expect("a grant");
    assert_eq!(grant.port, 4321);
    assert_eq!(grant.socket, None);
    assert_eq!(proxy.address().as_deref(), Some("127.0.0.1:4321"));
    assert_eq!(proxy.socket_path(), None);
    assert_eq!(proxy.owned_directory(), None);
}

#[test]
fn linux_without_a_namespace_fails_closed() {
    assert_eq!(
        choose_transport(false, true).expect_err("no downgrade"),
        "egress needs a private network namespace, which requires bubblewrap; bubblewrap is unavailable"
    );

    let mut policy = Policy::default();
    let started = choose_transport(false, true)
        .map(|_| Proxy::start_for_policy(&mut policy, &example(), Transport::Tcp(4321)));
    assert!(started.is_err());
    assert!(policy.network.proxy.is_none(), "a refused proxy must leave the policy unwired");
    assert!(policy.shell.env.is_empty(), "a refused proxy must inject no proxy env");
}

#[test]
fn an_existing_proxy_env_is_replaced_not_duplicated() {
    let variable = |name: &str, value: &str| EnvVar {
        name: String::from(name),
        value: String::from(value),
    };
    let mut policy = Policy::default();
    policy.shell.env = vec![
        variable("HTTP_PROXY", "http://stale"),
        variable("LANG", "C"),
        variable("NO_PROXY", "stale"),
    ];
    let proxy = Proxy::tcp(9, String::from("t"));
    proxy.wire(&mut policy, &example());

    let url = "http://agentd:t@127.0.0.1:9";
    assert_eq!(
        policy.shell.env,
        vec![
            variable("LANG", "C"),
            variable("HTTP_PROXY", url),
            variable("HTTPS_PROXY", url),
            variable("ALL_PROXY", url),
            variable("NO_PROXY", "127.0.0.1,localhost,::1"),
        ]
    );
}

#[test]
fn a_missing_or_wrong_credential_is_refused() {
    let proxy = Proxy::unix(String::from("/s"), String::from("token"));
    let expected = proxy.expected_authorization();
    let answer = |header: &str| {
        let mut reader = HeadReader::new();
        assert_eq!(
            reader.on_line("CONNECT api.example.com:443 HTTP/1.1\r\n"),
            HeadStep::More
        );
        if !header.is_empty() {
            assert_eq!(reader.on_line(header), HeadStep::More);
        }
        assert_eq!(reader.on_line("\r\n"), HeadStep::Done);
        on_head(&reader.finish(), &expected)
    };

    for header in ["", "Proxy-Authorization: Basic d3Jvbmc=\r\n"] {
        match answer(header) {
            ServeStep::Reply(response) => assert_eq!(
                response,
                "HTTP/1.1 407 Proxy Authentication Required\r\nProxy-Authenticate: Basic realm=\"agentd\"\r\n\r\n"
            ),
            _ => panic!("a stranger must be refused"),
        }
    }
    let right = format!("proxy-AUTHORIZATION:   {expected} \r\n");
    assert!(matches!(
        answer(&right),
        ServeStep::Decide(host, 443) if host == "api.example.com"
    ));
}

#[test]
fn the_credential_is_basic_authorization() {
    let expected = base64::engine::general_purpose::STANDARD.encode("agentd:token");
    assert_eq!(basic_authorization("token"), format!("Basic {expected}"));
    assert_eq!(basic_authorization("token"), "Basic YWdlbnRkOnRva2Vu");
}

#[test]
fn an_allowed_tunnel_answers_connection_established() {
    assert!(matches!(
        on_decision(String::from("h"), 1, true),
        ServeStep::Connect(host, 1) if host == "h"
    ));
    assert!(matches!(
        on_connected(true),
        ServeStep::Tunnel(response) if response == "HTTP/1.1 200 Connection Established\r\n\r\n"
    ));
}

#[test]
fn a_denied_destination_is_refused_without_connecting() {
    assert!(matches!(
        on_decision(String::from("h"), 1, false),
        ServeStep::Reply(response) if response == "HTTP/1.1 403 Forbidden\r\n\r\n"
    ));
    assert!(matches!(
        on_connected(false),
        ServeStep::Reply(response) if response == "HTTP/1.1 502 Bad Gateway\r\n\r\n"
    ));
    assert!(matches!(
        head_timed_out(),
        ServeStep::Reply(response) if response == "HTTP/1.1 408 Request Timeout\r\n\r\n"
    ));
}

#[test]
fn a_head_that_is_no_connect_is_bad() {
    let mut reader = HeadReader::new();
    let _ = reader.on_line("GET / HTTP/1.1\r\n");
    assert!(matches!(
        on_head(&reader.finish(), "x"),
        ServeStep::Reply(response) if response == "HTTP/1.1 400 Bad Request\r\n\r\n"
    ));
    let empty = HeadReader::new().finish();
    assert_eq!(empty.request_line(), "");
    assert_eq!(empty.authorization(), None);
}

#[test]
fn heads_are_held_to_their_limit() {
    let mut reader = HeadReader::new();
    assert_eq!(reader.on_line("CONNECT h:1 HTTP/1.1\r\n"), HeadStep::More);
    let long = "x".repeat(MAX_HEADER_BYTES - 22);
    assert_eq!(reader.on_line(&long), HeadStep::More);
    assert_eq!(reader.on_line("y"), HeadStep::TooLarge);
    let mut first = HeadReader::new();
    assert_eq!(first.on_line(&"x".repeat(MAX_HEADER_BYTES + 1)), HeadStep::TooLarge);
}

#[test]
fn the_last_header_of_a_name_counts() {
    let mut reader = HeadReader::new();
    let _ = reader.on_line("CONNECT h:1 HTTP/1.1\r\n");
    let _ = reader.on_line("Traceparent: one\r\n");
    let _ = reader.on_line("traceparent: two \r\n");
    let _ = reader.on_line("Host: h\r\n");
    let _ = reader.on_line("no colon here\r\n");
    let head = reader.finish();
    assert_eq!(head.traceparent(), Some("two"));
    assert_eq!(head.request_line(), "CONNECT h:1 HTTP/1.1\r\n");
}

#[test]
fn authorities_with_odd_hosts_read_back() {
    assert_eq!(parse_authority("a:b:1"), Some((String::from("a:b"), 1)));
    assert_eq!(parse_authority(":1"), Some((String::new(), 1)));
    assert_eq!(parse_authority("h:+80"), Some((String::from("h"), 80)));
    assert_eq!(parse_authority("h:65536"), None);
    assert_eq!(parse_authority("h:"), None);
    assert_eq!(parse_authority("[::1]443"), None);
}

#[test]
fn replies_are_written_out() {
    assert_eq!(reply(200, "OK"), "HTTP/1.1 200 OK\r\n\r\n");
    assert_eq!(reply_with(407, "No", "A: b\r\n"), "HTTP/1.1 407 No\r\nA: b\r\n\r\n");
}

#[test]
fn a_namespace_proxy_owns_a_private_socket_directory() {
    let dir = socket_directory("/tmp");
    assert!(dir.starts_with("/tmp/agentd-egress-"));
    let proxy = Proxy::start_unix(format!("{dir}/proxy.sock"));
    assert_eq!(proxy.owned_directory(), Some(dir));

    let foreign = Proxy::start_unix(String::from("/run/shared/proxy.sock"));
    assert_eq!(foreign.owned_directory(), None);
    assert_ne!(foreign.url(), proxy.url());
}
