//! The CONNECT proxy: the single egress path a confined command may use.
//!
//! It requires a per-proxy credential so only the sandbox it was started for
//! can use it, not any other process of the same user. It does not terminate
//! TLS, so the provider credentials stay end to end.
//!
//! Two transports: a loopback **TCP** port (where the child reaches
//! `127.0.0.1`), and a **Unix socket** (where the child runs in a private network
//! namespace with no IP route and reaches the mounted socket).

use crate::bridge::{jnumber, jtext};
use crate::confinement::{self, HostPort, Policy, ProxyGrant};
use crate::events::{event_of, Event, EventValue};
use crate::hostpath;
use crate::ids;
use crate::json::{self, Json};
use crate::policy::{self, EnvVar};
use crate::scan;
use crate::text;
use base64::Engine;
use vstd::prelude::*;

verus! {

broadcast use vstd::string::group_string_axioms;

/// A client asks to reach a `host:port` that the static allowlist does not name.
/// Reserved to daemon-authority publishers, so an agent cannot approve itself.
pub const EGRESS_REQUESTED: &'static str = "session.egress.requested";

/// An approver's grant for an [`EGRESS_REQUESTED`], correlated by `request_id`.
pub const EGRESS_GRANTED: &'static str = "session.egress.granted";

/// An approver's denial for an [`EGRESS_REQUESTED`], correlated by `request_id`.
pub const EGRESS_DENIED: &'static str = "session.egress.denied";

/// Nobody decided an [`EGRESS_REQUESTED`] before the deadline, so it was
/// withdrawn. The tunnel is not opened.
pub const EGRESS_CANCELLED: &'static str = "session.egress.cancelled";

/// The largest request head (request line plus headers) the proxy reads before
/// rejecting a connection. Bounds a pre-authentication client's memory.
pub const MAX_HEADER_BYTES: usize = 16384;

/// How many seconds a client has to send its request head before the proxy
/// gives up.
pub const HANDSHAKE_TIMEOUT_SECS: u64 = 10;

/// The most concurrent client connections the proxy serves.
pub const MAX_CONNECTIONS: usize = 256;

/// The loopback port the child's forwarder listens on, fixed so the injected
/// proxy URL is stable. A Unix-socket proxy's policy port must be this.
pub const FORWARD_PORT: u16 = 31828;

/// The name of a proxy's socket in the directory made for it.
pub const SOCKET_NAME: &'static str = "proxy.sock";

/// The answer to a tunnel that was opened.
pub const ESTABLISHED: &'static str = "HTTP/1.1 200 Connection Established\r\n\r\n";

/// The standard base64 form of bytes, with padding.
pub uninterp spec fn base64_standard(bytes: Seq<u8>) -> Seq<char>;

/// `base64::engine::general_purpose::STANDARD.encode`: the base64 form of the
/// bytes, which depends on the bytes alone. It panics where the encoded form does
/// not fit in memory, so the bytes are held to a quarter of what is addressable.
#[verifier::external_body]
fn encode_base64(bytes: &[u8]) -> (r: String)
    requires
        bytes@.len() <= usize::MAX / 4,
    ensures
        r@ == base64_standard(bytes@),
{
    base64::engine::general_purpose::STANDARD.encode(bytes)
}

/// Whether a destination is on an allowlist: the port must be the same, and the
/// host the same but for the case of ASCII letters.
pub open spec fn on_list(allowed: Seq<(Seq<char>, u16)>, host: Seq<char>, port: u16) -> bool {
    exists|i: int|
        0 <= i < allowed.len() && (#[trigger] allowed[i]).1 == port && text::lowered(allowed[i].0)
            == text::lowered(host)
}

/// The proxy allowlist: the `host:port` destinations a tunnel may open.
///
/// A destination on the static allowlist is granted immediately. Anything else
/// is, when an approver is configured, put to the human, and denied otherwise.
/// The tunnel is the *only* egress path, so the request cannot be bypassed.
#[derive(Debug)]
pub struct Egress {
    allowed: Vec<HostPort>,
    /// How many milliseconds to wait for a decision; `None` denies unknown hosts
    /// outright.
    approver: Option<u64>,
}

/// What is decided about a destination.
#[derive(Clone, Copy, Debug, PartialEq, Eq, Structural)]
pub enum Verdict {
    /// The tunnel may open.
    Allow,
    /// The tunnel may not open.
    Deny,
    /// An approver is asked, for at most this many milliseconds.
    Ask(u64),
}

impl Egress {
    /// The static allowlist.
    pub closed spec fn listed_destinations(&self) -> Seq<(Seq<char>, u16)> {
        confinement::destination_views(self.allowed@)
    }

    /// How long an approver is waited for, if there is one.
    pub closed spec fn approval_timeout(&self) -> Option<u64> {
        self.approver
    }

    /// Builds a static allowlist; a destination not on it is denied.
    #[must_use]
    pub fn new(destinations: Vec<HostPort>) -> (r: Egress)
        ensures
            r.listed_destinations() == confinement::destination_views(destinations@),
            r.approval_timeout() is None,
    {
        Egress { allowed: destinations, approver: None }
    }

    /// Adds an approver: a destination not on the static allowlist is put to the
    /// log and waited on for `timeout_ms`, then denied if no decision arrives.
    #[must_use]
    pub fn with_approver(self, timeout_ms: u64) -> (r: Egress)
        ensures
            r.listed_destinations() == self.listed_destinations(),
            r.approval_timeout() == Some(timeout_ms),
    {
        Egress { allowed: self.allowed, approver: Some(timeout_ms) }
    }

    /// Whether a tunnel to `host:port` is on the static allowlist.
    #[must_use]
    pub fn listed(&self, host: &str, port: u16) -> (r: bool)
        ensures
            r == on_list(self.listed_destinations(), host@, port),
    {
        let mut i: usize = 0;
        while i < self.allowed.len()
            invariant
                i <= self.allowed@.len(),
                forall|k: int|
                    0 <= k < i ==> !((#[trigger] self.listed_destinations()[k]).1 == port
                        && text::lowered(self.listed_destinations()[k].0) == text::lowered(
                        host@,
                    )),
            decreases self.allowed@.len() - i,
        {
            proof {
                assert(self.listed_destinations()[i as int] == (
                    self.allowed@[i as int].host@,
                    self.allowed@[i as int].port,
                ));
            }
            if self.allowed[i].port == port && scan::same_ignoring_case(
                self.allowed[i].host.as_str(),
                host,
            ) {
                return true;
            }
            i = i + 1;
        }
        false
    }

    /// The destinations the **static** allowlist names.
    ///
    /// This is the pre-approved set, not the set the proxy will permit: with an
    /// approver configured, a destination outside it can still be granted at run
    /// time.
    #[must_use]
    pub fn static_allowlist(&self) -> (r: &Vec<HostPort>)
        ensures
            confinement::destination_views(r@) == self.listed_destinations(),
    {
        &self.allowed
    }

    /// What is decided about a tunnel to `host:port` before anyone is asked.
    #[must_use]
    pub fn allows(&self, host: &str, port: u16) -> (r: Verdict)
        ensures
            r == verdict(self.listed_destinations(), self.approval_timeout(), host@, port),
    {
        if self.listed(host, port) {
            return Verdict::Allow;
        }
        match self.approver {
            Some(timeout_ms) => Verdict::Ask(timeout_ms),
            None => Verdict::Deny,
        }
    }
}

impl Default for Egress {
    fn default() -> (r: Egress)
        ensures
            r.listed_destinations().len() == 0,
            r.approval_timeout() is None,
    {
        Egress { allowed: Vec::new(), approver: None }
    }
}

/// What is decided about a destination: a listed one is allowed, and any other
/// is put to the approver, or denied without one.
pub open spec fn verdict(
    allowed: Seq<(Seq<char>, u16)>,
    approver: Option<u64>,
    host: Seq<char>,
    port: u16,
) -> Verdict {
    if on_list(allowed, host, port) {
        Verdict::Allow
    } else {
        match approver {
            Some(timeout_ms) => Verdict::Ask(timeout_ms),
            None => Verdict::Deny,
        }
    }
}

/// A listed destination never asks, an unlisted one is never allowed outright,
/// and without an approver nothing is asked.
pub proof fn only_listed_destinations_pass_unasked(
    allowed: Seq<(Seq<char>, u16)>,
    approver: Option<u64>,
    host: Seq<char>,
    port: u16,
)
    ensures
        verdict(allowed, approver, host, port) == Verdict::Allow <==> on_list(
            allowed,
            host,
            port,
        ),
        approver is None && !on_list(allowed, host, port) ==> verdict(
            allowed,
            approver,
            host,
            port,
        ) == Verdict::Deny,
{
}

/// What happened while a decision is awaited.
pub enum AskEvent {
    /// The request was recorded.
    Recorded,
    /// The request could not be recorded.
    RecordFailed,
    /// An event was recorded on the log.
    Seen(Event),
    /// Events were missed.
    Lagged,
    /// The log closed.
    Closed,
    /// The deadline passed.
    TimedOut,
}

/// What a request for approval asks for next.
pub enum AskStep {
    /// Wait for the next event.
    Wait,
    /// The tunnel may open.
    Granted,
    /// The tunnel may not open.
    Refused,
    /// Nobody decided: record this cancellation; the tunnel may not open.
    Cancel(Event),
}

/// A request for approval of a destination.
#[derive(Debug)]
pub struct EgressRequest {
    request_id: String,
    host: String,
    port: u16,
    traceparent: Option<String>,
}

/// A request for approval, as plain values.
#[verifier::ext_equal]
pub struct RequestValue {
    pub request_id: Seq<char>,
    pub host: Seq<char>,
    pub port: u16,
    pub traceparent: Option<Seq<char>>,
}

impl View for EgressRequest {
    type V = RequestValue;

    closed spec fn view(&self) -> RequestValue {
        RequestValue {
            request_id: self.request_id@,
            host: self.host@,
            port: self.port,
            traceparent: text::opt_view(self.traceparent),
        }
    }
}

/// The event that asks an approver.
pub open spec fn requested_event(request: RequestValue) -> EventValue {
    EventValue {
        traceparent: request.traceparent,
        ..event_of(
            EGRESS_REQUESTED@,
            json::empty_object().set("request_id"@, jtext(request.request_id)).set(
                "host"@,
                jtext(request.host),
            ).set("port"@, jnumber(request.port as u64)),
        )
    }
}

/// The event that withdraws a request nobody decided.
pub open spec fn cancelled_event(request: RequestValue) -> EventValue {
    EventValue {
        traceparent: request.traceparent,
        ..event_of(
            EGRESS_CANCELLED@,
            json::empty_object().set("request_id"@, jtext(request.request_id)).set(
                "decision"@,
                jtext("cancelled"@),
            ).set("host"@, jtext(request.host)).set("port"@, jnumber(request.port as u64)).set(
                "reason"@,
                jtext("no approval within the timeout"@),
            ),
        )
    }
}

/// What a recorded event decides about a request, if it decides it: only an
/// event with the request's id counts.
pub open spec fn decides(request_id: Seq<char>, event: EventValue) -> Option<bool> {
    if json::text_field(event.data, "request_id"@) != Some(request_id) {
        None
    } else if event.kind == EGRESS_GRANTED@ {
        Some(true)
    } else if event.kind == EGRESS_DENIED@ || event.kind == EGRESS_CANCELLED@ {
        Some(false)
    } else {
        None
    }
}

/// Whether a step is the answer to an event of a request: a decision grants or
/// refuses, an unrelated event is waited past, and a request that nobody decided
/// is cancelled.
pub open spec fn ask_answer(request: RequestValue, event: AskEvent, step: AskStep) -> bool {
    match event {
        AskEvent::Recorded => step is Wait,
        AskEvent::RecordFailed => step is Refused,
        AskEvent::Lagged => step is Wait,
        AskEvent::Seen(event) => match decides(request.request_id, event@) {
            Some(true) => step is Granted,
            Some(false) => step is Refused,
            None => step is Wait,
        },
        AskEvent::Closed => step is Cancel && step->Cancel_0@ == cancelled_event(request),
        AskEvent::TimedOut => step is Cancel && step->Cancel_0@ == cancelled_event(request),
    }
}

/// The tunnel opens only on a grant for the very request: nothing else that can
/// happen grants it.
pub proof fn only_a_matching_grant_opens(request: RequestValue, event: AskEvent, step: AskStep)
    requires
        ask_answer(request, event, step),
        step is Granted,
    ensures
        event is Seen,
        event->Seen_0@.kind == EGRESS_GRANTED@,
        json::text_field(event->Seen_0@.data, "request_id"@) == Some(request.request_id),
{
}

/// A cancellation is recorded only when nobody decided: never after an
/// approver's own decision.
pub proof fn a_decision_is_never_cancelled(request: RequestValue, event: AskEvent, step: AskStep)
    requires
        ask_answer(request, event, step),
        step is Cancel,
    ensures
        event is Closed || event is TimedOut,
{
}

impl EgressRequest {
    /// A request under an id that is made up.
    pub fn open(host: &str, port: u16, traceparent: Option<String>) -> (r: EgressRequest)
        ensures
            ids::is_uuid(r@.request_id, '7'),
            r@ == (RequestValue {
                request_id: r@.request_id,
                host: host@,
                port,
                traceparent: text::opt_view(traceparent),
            }),
    {
        EgressRequest::new(ids::time_ordered_id(), host, port, traceparent)
    }

    /// A request under `request_id`. The child's `traceparent`, when it sent a
    /// valid one, is recorded so that the request, the approval, and the child's
    /// own span share one trace.
    pub fn new(
        request_id: String,
        host: &str,
        port: u16,
        traceparent: Option<String>,
    ) -> (r: EgressRequest)
        ensures
            r@ == (RequestValue {
                request_id: request_id@,
                host: host@,
                port,
                traceparent: text::opt_view(traceparent),
            }),
    {
        EgressRequest { request_id, host: host.to_owned(), port, traceparent }
    }

    /// The event that asks an approver.
    pub fn event(&self) -> (r: Event)
        ensures
            r@ == requested_event(self@),
    {
        let event = Event::new(
            EGRESS_REQUESTED,
            Json::object().with("request_id", Json::text(self.request_id.as_str())).with(
                "host",
                Json::text(self.host.as_str()),
            ).with("port", Json::unsigned(self.port as u64)),
        );
        self.traced(event)
    }

    fn cancelled(&self) -> (r: Event)
        ensures
            r@ == cancelled_event(self@),
    {
        let event = Event::new(
            EGRESS_CANCELLED,
            Json::object().with("request_id", Json::text(self.request_id.as_str())).with(
                "decision",
                Json::text("cancelled"),
            ).with("host", Json::text(self.host.as_str())).with(
                "port",
                Json::unsigned(self.port as u64),
            ).with("reason", Json::text("no approval within the timeout")),
        );
        self.traced(event)
    }

    fn traced(&self, event: Event) -> (r: Event)
        requires
            event@.traceparent is None,
        ensures
            r@ == (EventValue { traceparent: self@.traceparent, ..event@ }),
    {
        match &self.traceparent {
            Some(traceparent) => event.with_traceparent(traceparent.clone()),
            None => event,
        }
    }

    /// Takes an event into account.
    pub fn step(&self, event: AskEvent) -> (r: AskStep)
        ensures
            ask_answer(self@, event, r),
    {
        match event {
            AskEvent::Recorded => AskStep::Wait,
            AskEvent::RecordFailed => AskStep::Refused,
            AskEvent::Lagged => AskStep::Wait,
            AskEvent::Seen(event) => {
                let ours = match event.data.get_str("request_id") {
                    Some(request_id) => text::same(request_id, self.request_id.as_str()),
                    None => false,
                };
                let kind = event.kind.as_str();
                if !ours {
                    AskStep::Wait
                } else if text::same(kind, EGRESS_GRANTED) {
                    AskStep::Granted
                } else if text::same(kind, EGRESS_DENIED) || text::same(kind, EGRESS_CANCELLED) {
                    AskStep::Refused
                } else {
                    AskStep::Wait
                }
            },
            AskEvent::Closed => AskStep::Cancel(self.cancelled()),
            AskEvent::TimedOut => AskStep::Cancel(self.cancelled()),
        }
    }
}

/// Where the proxy listens.
#[derive(Debug)]
pub enum Transport {
    /// A loopback TCP port.
    Tcp(u16),
    /// A Unix socket path, which crosses the private network namespace.
    Unix(String),
}

/// A proxy: where it listens and its credential.
#[derive(Debug)]
pub struct Proxy {
    transport: Transport,
    /// The token the client must present; embedded in [`url`](Proxy::url).
    token: String,
}

/// Whether a result is the transport that a host allows: a private network namespace
/// where there is one, and none at all without it on Linux.
pub open spec fn transport_answer(
    namespace: bool,
    linux: bool,
    r: Result<bool, String>,
) -> bool {
    if !namespace && linux {
        r is Err && r->Err_0@
            == "egress needs a private network namespace, which requires bubblewrap; bubblewrap is unavailable"@
    } else {
        r == Ok::<bool, String>(namespace)
    }
}

/// Whether a proxy is reached the way it listens: at its port, or through its socket
/// at the port that is forwarded to it.
pub open spec fn listens_at(
    transport: Transport,
    socket: Option<Seq<char>>,
    child_port: u16,
) -> bool {
    match transport {
        Transport::Tcp(port) => socket is None && child_port == port,
        Transport::Unix(path) => socket == Some(path@) && child_port == FORWARD_PORT,
    }
}

/// Which transport a host asks for: a private network namespace is reached over
/// a Unix socket, a host without one over loopback TCP, and Linux without the
/// namespace it could have is refused.
pub fn choose_transport(namespace: bool, linux: bool) -> (r: Result<bool, String>)
    ensures
        if !namespace && linux {
            r is Err && r->Err_0@
                == "egress needs a private network namespace, which requires bubblewrap; bubblewrap is unavailable"@
        } else {
            r == Ok::<bool, String>(namespace)
        },
        transport_answer(namespace, linux, r),
{
    if !namespace && linux {
        return Err(
            "egress needs a private network namespace, which requires bubblewrap; bubblewrap is unavailable".to_owned(),
        );
    }
    Ok(namespace)
}

/// The loopback address of a port.
pub open spec fn loopback(port: u16) -> Seq<char> {
    "127.0.0.1:"@ + text::decimal(port as nat)
}

/// The proxy URL for a port: it carries the credential so a client sends it as
/// `Proxy-Authorization`.
pub open spec fn proxy_url(token: Seq<char>, port: u16) -> Seq<char> {
    "http://agentd:"@ + token + "@"@ + loopback(port)
}

impl Proxy {
    /// The credential.
    pub closed spec fn credential(&self) -> Seq<char> {
        self.token@
    }

    /// The Unix socket, for a Unix proxy.
    pub closed spec fn socket(&self) -> Option<Seq<char>> {
        match self.transport {
            Transport::Tcp(_) => None,
            Transport::Unix(path) => Some(path@),
        }
    }

    /// The loopback port the child reaches: the proxy's own, or its forwarder's.
    pub closed spec fn child_port(&self) -> u16 {
        match self.transport {
            Transport::Tcp(port) => port,
            Transport::Unix(_) => FORWARD_PORT,
        }
    }

    /// A policy wired to the proxy: the child's environment names it, the grant
    /// admits its transport and its destinations, and nothing else changes.
    pub open spec fn wired(&self, before: Policy, after: Policy, egress: Egress) -> bool {
        &&& after.fs == before.fs
        &&& after.shell.workdir == before.shell.workdir
        &&& after.network.loopback == before.network.loopback
        &&& after.network.unix_sockets == before.network.unix_sockets
        &&& policy::env_views(after.shell.env@) == wired_env(
            policy::env_views(before.shell.env@),
            proxy_url(self.credential(), self.child_port()),
        )
        &&& after.network.proxy is Some
        &&& after.network.proxy->0.port == self.child_port()
        &&& text::opt_view(after.network.proxy->0.socket) == self.socket()
        &&& confinement::destination_views(after.network.proxy->0.egress@)
            == egress.listed_destinations()
    }

    /// A proxy on a loopback port, with a credential that is made up.
    pub fn start(port: u16) -> (r: Proxy)
        ensures
            ids::is_uuid(r.credential(), '7'),
            encodable(r.credential()),
            r.socket() is None,
            r.child_port() == port,
    {
        let token = ids::time_ordered_id();
        proof {
            lemma_short_is_encodable(token@);
        }
        Proxy::tcp(port, token)
    }

    /// A proxy on a Unix socket, with a credential that is made up. Children
    /// reach it through their forwarder.
    pub fn start_unix(path: String) -> (r: Proxy)
        ensures
            ids::is_uuid(r.credential(), '7'),
            encodable(r.credential()),
            r.socket() == Some(path@),
            r.child_port() == FORWARD_PORT,
    {
        let token = ids::time_ordered_id();
        proof {
            lemma_short_is_encodable(token@);
        }
        Proxy::unix(path, token)
    }

    /// A proxy on a loopback port.
    pub fn tcp(port: u16, token: String) -> (r: Proxy)
        ensures
            r.credential() == token@,
            r.socket() is None,
            r.child_port() == port,
    {
        Proxy { transport: Transport::Tcp(port), token }
    }

    /// A proxy on a Unix socket.
    pub fn unix(path: String, token: String) -> (r: Proxy)
        ensures
            r.credential() == token@,
            r.socket() == Some(path@),
            r.child_port() == FORWARD_PORT,
    {
        Proxy { transport: Transport::Unix(path), token }
    }

    /// The loopback address the proxy listens on, when it is a TCP proxy.
    #[must_use]
    pub fn address(&self) -> (r: Option<String>)
        ensures
            text::opt_view(r) == if self.socket() is None {
                Some(loopback(self.child_port()))
            } else {
                None
            },
    {
        match &self.transport {
            Transport::Tcp(port) => Some(
                text::concat("127.0.0.1:", text::decimal_text(*port as u64).as_str()),
            ),
            Transport::Unix(_) => None,
        }
    }

    /// The Unix socket path the proxy listens on, when it is a Unix proxy.
    #[must_use]
    pub fn socket_path(&self) -> (r: Option<&str>)
        ensures
            match r {
                Some(path) => self.socket() == Some(path@),
                None => self.socket() is None,
            },
    {
        match &self.transport {
            Transport::Tcp(_) => None,
            Transport::Unix(path) => Some(path.as_str()),
        }
    }

    /// The proxy URL to put in the child's environment. A Unix proxy is reached
    /// through the child's own forwarder, which listens on loopback; the URL
    /// names that loopback port, not the socket.
    #[must_use]
    pub fn url(&self) -> (r: String)
        ensures
            r@ == proxy_url(self.credential(), self.child_port()),
    {
        let port: u16 = match &self.transport {
            Transport::Tcp(port) => *port,
            Transport::Unix(_) => FORWARD_PORT,
        };
        let mut url = "http://agentd:".to_owned();
        url.append(self.token.as_str());
        url.append("@");
        let address = text::concat("127.0.0.1:", text::decimal_text(port as u64).as_str());
        url.append(address.as_str());
        url
    }

    /// The `Proxy-Authorization` value a client must present.
    #[must_use]
    pub fn expected_authorization(&self) -> (r: String)
        requires
            encodable(self.credential()),
        ensures
            r@ == authorization_of(self.credential()),
    {
        basic_authorization(self.token.as_str())
    }

    /// Wires a policy to the proxy: its URL is injected as `HTTP_PROXY`,
    /// `HTTPS_PROXY`, and `ALL_PROXY`, with `NO_PROXY` so the child's own
    /// loopback traffic stays off the tunnel, and the grant is set so the OS
    /// permits the transport. Any entry the policy already had under those four
    /// names is dropped.
    pub fn wire(&self, policy: &mut Policy, egress: &Egress)
        ensures
            self.wired(*old(policy), *final(policy), *egress),
    {
        let url = self.url();
        let mut env = retain_env(&policy.shell.env);
        let ghost kept = env@;
        env.push(EnvVar { name: "HTTP_PROXY".to_owned(), value: url.clone() });
        env.push(EnvVar { name: "HTTPS_PROXY".to_owned(), value: url.clone() });
        env.push(EnvVar { name: "ALL_PROXY".to_owned(), value: url });
        env.push(
            EnvVar { name: "NO_PROXY".to_owned(), value: "127.0.0.1,localhost,::1".to_owned() },
        );
        proof {
            assert(policy::env_views(env@) =~= policy::env_views(kept) + injected_env(
                proxy_url(self.credential(), self.child_port()),
            ));
        }
        let port: u16 = match &self.transport {
            Transport::Tcp(port) => *port,
            Transport::Unix(_) => FORWARD_PORT,
        };
        let socket = match &self.transport {
            Transport::Tcp(_) => None,
            Transport::Unix(path) => Some(path.clone()),
        };
        policy.shell.env = env;
        policy.network.proxy = Some(
            ProxyGrant {
                port,
                socket,
                egress: confinement::copy_destinations(egress.static_allowlist()),
            },
        );
    }

    /// Starts the proxy of a policy on the transport that was bound for it, with
    /// a credential that is made up, and wires the policy to it.
    pub fn start_for_policy(policy: &mut Policy, egress: &Egress, transport: Transport) -> (r:
        Proxy)
        ensures
            ids::is_uuid(r.credential(), '7'),
            encodable(r.credential()),
            match transport {
                Transport::Tcp(port) => r.socket() is None && r.child_port() == port,
                Transport::Unix(path) => r.socket() == Some(path@) && r.child_port()
                    == FORWARD_PORT,
            },
            listens_at(transport, r.socket(), r.child_port()),
            r.wired(*old(policy), *final(policy), *egress),
    {
        let proxy = match transport {
            Transport::Tcp(port) => Proxy::start(port),
            Transport::Unix(path) => Proxy::start_unix(path),
        };
        proxy.wire(policy, egress);
        proxy
    }

    /// The directory the proxy made for its socket, to be removed with it: the
    /// parent of the socket, when it carries the name such directories have.
    #[must_use]
    pub fn owned_directory(&self) -> (r: Option<String>)
        ensures
            text::opt_view(r) == match self.socket() {
                Some(path) => owned_dir(path),
                None => None,
            },
    {
        match &self.transport {
            Transport::Tcp(_) => None,
            Transport::Unix(path) => {
                let parent = match hostpath::parent(path.as_str()) {
                    Some(parent) => parent,
                    None => return None,
                };
                match hostpath::file_name(parent.as_str()) {
                    Some(name) => {
                        if text::starts_with(name.as_str(), "agentd-egress-") {
                            Some(parent)
                        } else {
                            None
                        }
                    },
                    None => None,
                }
            },
        }
    }
}

/// A directory for the socket of a proxy, under the host's temporary directory:
/// one of its own, so that it can be private.
pub fn socket_directory(temp_dir: &str) -> (r: String)
    ensures
        ids::is_fresh_directory(r@, temp_dir@, "agentd-egress-"@),
{
    ids::fresh_directory(temp_dir, "agentd-egress-")
}

/// The directory a proxy made for the socket at `path`, if it made one.
pub open spec fn owned_dir(path: Seq<char>) -> Option<Seq<char>> {
    match hostpath::parent_of(path) {
        Some(parent) => match hostpath::file_name_of(parent) {
            Some(name) => if text::has_prefix(name, "agentd-egress-"@) {
                Some(parent)
            } else {
                None
            },
            None => None,
        },
        None => None,
    }
}

/// Whether a variable is one of those a proxy injects.
pub open spec fn is_injected(name: Seq<char>) -> bool {
    name == "HTTP_PROXY"@ || name == "HTTPS_PROXY"@ || name == "ALL_PROXY"@ || name == "NO_PROXY"@
}

/// The variables a proxy leaves alone, in order.
pub open spec fn retained(env: Seq<(Seq<char>, Seq<char>)>) -> Seq<(Seq<char>, Seq<char>)>
    decreases env.len(),
{
    if env.len() == 0 {
        Seq::empty()
    } else if is_injected(env.last().0) {
        retained(env.drop_last())
    } else {
        retained(env.drop_last()).push(env.last())
    }
}

/// The variables a proxy injects.
pub open spec fn injected_env(url: Seq<char>) -> Seq<(Seq<char>, Seq<char>)> {
    seq![
        ("HTTP_PROXY"@, url),
        ("HTTPS_PROXY"@, url),
        ("ALL_PROXY"@, url),
        ("NO_PROXY"@, "127.0.0.1,localhost,::1"@),
    ]
}

/// The environment of a policy that was wired to a proxy.
pub open spec fn wired_env(env: Seq<(Seq<char>, Seq<char>)>, url: Seq<char>) -> Seq<
    (Seq<char>, Seq<char>),
> {
    retained(env) + injected_env(url)
}

/// How many variables have a name.
pub open spec fn occurrences(env: Seq<(Seq<char>, Seq<char>)>, name: Seq<char>) -> nat
    decreases env.len(),
{
    if env.len() == 0 {
        0
    } else {
        occurrences(env.drop_last(), name) + if env.last().0 == name {
            1nat
        } else {
            0nat
        }
    }
}

proof fn lemma_retained_free(env: Seq<(Seq<char>, Seq<char>)>, name: Seq<char>)
    requires
        is_injected(name),
    ensures
        occurrences(retained(env), name) == 0,
    decreases env.len(),
{
    if env.len() > 0 {
        lemma_retained_free(env.drop_last(), name);
        if !is_injected(env.last().0) {
            assert(retained(env).drop_last() =~= retained(env.drop_last()));
        }
    }
}

proof fn lemma_occurrences_push(
    env: Seq<(Seq<char>, Seq<char>)>,
    variable: (Seq<char>, Seq<char>),
    name: Seq<char>,
)
    ensures
        occurrences(env.push(variable), name) == occurrences(env, name) + if variable.0 == name {
            1nat
        } else {
            0nat
        },
{
    assert(env.push(variable).drop_last() =~= env);
}

/// Each injected variable occurs exactly once in a wired environment, whatever
/// the policy held before, so its value never depends on ordering.
pub proof fn injected_variables_occur_once(
    env: Seq<(Seq<char>, Seq<char>)>,
    url: Seq<char>,
    name: Seq<char>,
)
    requires
        is_injected(name),
    ensures
        occurrences(wired_env(env, url), name) == 1,
{
    reveal_strlit("HTTP_PROXY");
    reveal_strlit("HTTPS_PROXY");
    reveal_strlit("ALL_PROXY");
    reveal_strlit("NO_PROXY");
    assert("HTTP_PROXY"@.len() == 10 && "HTTPS_PROXY"@.len() == 11);
    assert("ALL_PROXY"@.len() == 9 && "NO_PROXY"@.len() == 8);
    lemma_retained_free(env, name);
    let kept = retained(env);
    let one = kept.push(("HTTP_PROXY"@, url));
    let two = one.push(("HTTPS_PROXY"@, url));
    let three = two.push(("ALL_PROXY"@, url));
    let four = three.push(("NO_PROXY"@, "127.0.0.1,localhost,::1"@));
    lemma_occurrences_push(kept, ("HTTP_PROXY"@, url), name);
    lemma_occurrences_push(one, ("HTTPS_PROXY"@, url), name);
    lemma_occurrences_push(two, ("ALL_PROXY"@, url), name);
    lemma_occurrences_push(three, ("NO_PROXY"@, "127.0.0.1,localhost,::1"@), name);
    assert(wired_env(env, url) =~= four);
}

fn injected_name(name: &str) -> (r: bool)
    ensures
        r == is_injected(name@),
{
    text::same(name, "HTTP_PROXY") || text::same(name, "HTTPS_PROXY") || text::same(
        name,
        "ALL_PROXY",
    ) || text::same(name, "NO_PROXY")
}

fn retain_env(env: &Vec<EnvVar>) -> (r: Vec<EnvVar>)
    ensures
        policy::env_views(r@) == retained(policy::env_views(env@)),
{
    let ghost all = policy::env_views(env@);
    let mut kept: Vec<EnvVar> = Vec::new();
    let mut i: usize = 0;
    proof {
        assert(policy::env_views(kept@) =~= Seq::<(Seq<char>, Seq<char>)>::empty());
    }
    while i < env.len()
        invariant
            i <= env@.len(),
            all == policy::env_views(env@),
            policy::env_views(kept@) == retained(all.take(i as int)),
        decreases env@.len() - i,
    {
        proof {
            assert(all.take(i + 1).drop_last() =~= all.take(i as int));
            assert(all.take(i + 1).last() == (env@[i as int].name@, env@[i as int].value@));
        }
        if !injected_name(env[i].name.as_str()) {
            let ghost before = kept@;
            kept.push(EnvVar { name: env[i].name.clone(), value: env[i].value.clone() });
            proof {
                assert(policy::env_views(kept@) =~= policy::env_views(before).push(
                    (env@[i as int].name@, env@[i as int].value@),
                ));
            }
        }
        i = i + 1;
    }
    proof {
        assert(all.take(i as int) =~= all);
    }
    kept
}

/// The `Proxy-Authorization` value for a token: `agentd:<token>`, HTTP Basic.
pub open spec fn authorization_of(token: Seq<char>) -> Seq<char> {
    "Basic "@ + base64_standard(vstd::utf8::encode_utf8("agentd:"@ + token))
}

/// Whether the credentials of a token are short enough to be encoded in memory.
pub open spec fn encodable(token: Seq<char>) -> bool {
    vstd::utf8::encode_utf8("agentd:"@ + token).len() <= usize::MAX / 4
}

proof fn lemma_utf8_len(chars: Seq<char>)
    ensures
        vstd::utf8::encode_utf8(chars).len() <= 4 * chars.len(),
    decreases chars.len(),
{
    if chars.len() > 0 {
        lemma_utf8_len(chars.drop_first());
    }
}

proof fn lemma_short_is_encodable(token: Seq<char>)
    requires
        token.len() <= 36,
    ensures
        encodable(token),
{
    reveal_strlit("agentd:");
    assert("agentd:"@.len() == 7);
    lemma_utf8_len("agentd:"@ + token);
}

/// The expected `Proxy-Authorization` header for `token`.
pub fn basic_authorization(token: &str) -> (r: String)
    requires
        encodable(token@),
    ensures
        r@ == authorization_of(token@),
{
    let credentials = text::concat("agentd:", token);
    let encoded = encode_base64(credentials.as_str().as_bytes());
    text::concat("Basic ", encoded.as_str())
}

/// The destination an authority names: a host and a port, where an IPv6 literal
/// stands in brackets.
pub open spec fn authority(text: Seq<char>) -> Option<(Seq<char>, u16)> {
    if text.len() > 0 && text[0] == '[' {
        let rest = text.skip(1);
        let end = text::first_index(rest, ']');
        if end >= rest.len() {
            None
        } else {
            let after = rest.skip(end + 1);
            if after.len() > 0 && after[0] == ':' {
                with_port(rest.take(end), after.skip(1))
            } else {
                None
            }
        }
    } else {
        let colon = scan::last_index(text, ':');
        if colon < 0 {
            None
        } else {
            with_port(text.take(colon), text.skip(colon + 1))
        }
    }
}

/// The destination of a host and a port text, if the text is a port.
pub open spec fn with_port(host: Seq<char>, port: Seq<char>) -> Option<(Seq<char>, u16)> {
    match scan::unsigned(port, 65535) {
        Some(port) => Some((host, port as u16)),
        None => None,
    }
}

/// The destination of a `CONNECT host:port HTTP/1.1` request line.
pub open spec fn connect_target(request: Seq<char>) -> Option<(Seq<char>, u16)> {
    let words = scan::words(request);
    if words.len() >= 2 && text::lowered(words[0]) == text::lowered("CONNECT"@) {
        authority(words[1])
    } else {
        None
    }
}

/// The destination as a host with its port.
pub open spec fn target_view(target: Option<(String, u16)>) -> Option<(Seq<char>, u16)> {
    match target {
        Some((host, port)) => Some((host@, port)),
        None => None,
    }
}

/// Parses `CONNECT host:port HTTP/1.1` into its destination, accepting an IPv6
/// literal in brackets (`[::1]:443`).
pub fn parse_connect(request: &str) -> (r: Option<(String, u16)>)
    ensures
        target_view(r) == connect_target(request@),
{
    let words = scan::split_words(request);
    proof {
        assert(text::views(words@).len() == words@.len());
    }
    if words.len() < 2 {
        return None;
    }
    proof {
        assert(text::views(words@)[0] == words@[0]@);
        assert(text::views(words@)[1] == words@[1]@);
    }
    if !scan::same_ignoring_case(words[0].as_str(), "CONNECT") {
        return None;
    }
    parse_authority(words[1].as_str())
}

/// Splits a `host:port` authority, honoring a bracketed IPv6 literal.
pub fn parse_authority(text: &str) -> (r: Option<(String, u16)>)
    ensures
        target_view(r) == authority(text@),
{
    let chars = text::to_chars(text);
    if chars.len() > 0 && chars[0] == '[' {
        let rest_text = text::from_chars(&chars, 1, chars.len());
        let rest = text::to_chars(rest_text.as_str());
        proof {
            assert(rest@ =~= text@.skip(1));
        }
        let end: usize = text::find_char(&rest, ']');
        if end >= rest.len() {
            return None;
        }
        let host = text::from_chars(&rest, 0, end);
        proof {
            assert(host@ =~= rest@.take(end as int));
            assert(rest@.skip(end + 1).len() == rest@.len() - end - 1);
        }
        if end + 1 >= rest.len() || rest[end + 1] != ':' {
            return None;
        }
        let port = text::from_chars(&rest, end + 2, rest.len());
        proof {
            assert(port@ =~= rest@.skip(end + 1).skip(1));
        }
        target(host, port.as_str())
    } else {
        match scan::find_last(&chars, ':') {
            None => None,
            Some(colon) => {
                let host = text::from_chars(&chars, 0, colon);
                let port = text::from_chars(&chars, colon + 1, chars.len());
                proof {
                    assert(host@ =~= text@.take(colon as int));
                    assert(port@ =~= text@.skip(colon + 1));
                }
                target(host, port.as_str())
            },
        }
    }
}

fn target(host: String, port: &str) -> (r: Option<(String, u16)>)
    ensures
        target_view(r) == with_port(host@, port@),
{
    match scan::parse_unsigned(port, 65535) {
        Some(port) => Some((host, port as u16)),
        None => None,
    }
}

proof fn lemma_last_index_append(head: Seq<char>, wanted: char, tail: Seq<char>)
    requires
        !tail.contains(wanted),
    ensures
        scan::last_index(head.push(wanted) + tail, wanted) == head.len(),
    decreases tail.len(),
{
    let whole = head.push(wanted) + tail;
    if tail.len() == 0 {
        assert(whole =~= head.push(wanted));
    } else {
        assert(tail[tail.len() - 1] != wanted) by {
            if tail[tail.len() - 1] == wanted {
                assert(tail.contains(wanted));
            }
        }
        let shorter = tail.drop_last();
        assert(!shorter.contains(wanted)) by {
            if shorter.contains(wanted) {
                let k = choose|k: int| 0 <= k < shorter.len() && shorter[k] == wanted;
                assert(tail[k] == wanted);
            }
        }
        assert(whole.drop_last() =~= head.push(wanted) + shorter);
        lemma_last_index_append(head, wanted, shorter);
    }
}

/// An authority written as a host, a colon, and a port reads back as both, and
/// so does one with the host in brackets.
pub proof fn authorities_read_back(host: Seq<char>, port: u16)
    ensures
        host.len() == 0 || host[0] != '[' ==> authority(
            host.push(':') + text::decimal(port as nat),
        ) == Some((host, port)),
        !host.contains(']') ==> authority(
            seq!['['] + host + seq![']', ':'] + text::decimal(port as nat),
        ) == Some((host, port)),
{
    let digits = text::decimal(port as nat);
    text::lemma_decimal_value(port as nat);
    assert(text::is_digit(digits[0]));
    assert(scan::number_digits(digits) == digits);
    assert(!digits.contains(':')) by {
        if digits.contains(':') {
            let k = choose|k: int| 0 <= k < digits.len() && digits[k] == ':';
            assert(text::is_digit(digits[k]));
        }
    }
    if host.len() == 0 || host[0] != '[' {
        let whole = host.push(':') + digits;
        lemma_last_index_append(host, ':', digits);
        assert(whole.take(host.len() as int) =~= host);
        assert(whole.skip(host.len() as int + 1) =~= digits);
        assert(whole[0] != '[');
    }
    if !host.contains(']') {
        let whole = seq!['['] + host + seq![']', ':'] + digits;
        let rest = whole.skip(1);
        assert(rest =~= host + seq![']', ':'] + digits);
        assert forall|i: int| 0 <= i < host.len() implies #[trigger] rest[i] != ']' by {
            assert(rest[i] == host[i]);
            if rest[i] == ']' {
                assert(host.contains(']'));
            }
        }
        assert(rest[host.len() as int] == ']');
        text::lemma_first_index_unique(rest, ']', host.len() as int);
        assert(rest.take(host.len() as int) =~= host);
        assert(rest.skip(host.len() as int + 1) =~= seq![':'] + digits);
        assert(rest.skip(host.len() as int + 1).skip(1) =~= digits);
    }
}

/// The request head: the request line and the headers the proxy cares about.
#[derive(Debug)]
pub struct Head {
    request_line: String,
    authorization: Option<String>,
    traceparent: Option<String>,
}

/// A request head, as plain values.
#[verifier::ext_equal]
pub struct HeadValue {
    pub request_line: Seq<char>,
    pub authorization: Option<Seq<char>>,
    pub traceparent: Option<Seq<char>>,
}

impl View for Head {
    type V = HeadValue;

    closed spec fn view(&self) -> HeadValue {
        HeadValue {
            request_line: self.request_line@,
            authorization: text::opt_view(self.authorization),
            traceparent: text::opt_view(self.traceparent),
        }
    }
}

impl Head {
    /// The `CONNECT host:port HTTP/1.1` request line.
    pub fn request_line(&self) -> (r: &str)
        ensures
            r@ == self@.request_line,
    {
        self.request_line.as_str()
    }

    /// The `Proxy-Authorization` value, if any.
    pub fn authorization(&self) -> (r: Option<&str>)
        ensures
            match r {
                Some(value) => self@.authorization == Some(value@),
                None => self@.authorization is None,
            },
    {
        match &self.authorization {
            Some(value) => Some(value.as_str()),
            None => None,
        }
    }

    /// The W3C `traceparent` the client sent, if any, so the proxy continues the
    /// caller's trace rather than starting an unrelated one.
    pub fn traceparent(&self) -> (r: Option<&str>)
        ensures
            match r {
                Some(value) => self@.traceparent == Some(value@),
                None => self@.traceparent is None,
            },
    {
        match &self.traceparent {
            Some(value) => Some(value.as_str()),
            None => None,
        }
    }
}

/// A head being read, line by line: what was read and how many bytes.
#[derive(Debug)]
pub struct HeadReader {
    head: Option<Head>,
    total: usize,
}

/// A head being read, as plain values: nothing before the request line.
#[verifier::ext_equal]
pub struct HeadProgress {
    pub head: Option<HeadValue>,
    pub total: nat,
}

impl View for HeadReader {
    type V = HeadProgress;

    closed spec fn view(&self) -> HeadProgress {
        HeadProgress {
            head: match self.head {
                Some(head) => Some(head@),
                None => None,
            },
            total: self.total as nat,
        }
    }
}

/// What a line of the head leads to.
#[derive(Clone, Copy, Debug, PartialEq, Eq, Structural)]
pub enum HeadStep {
    /// Read the next line.
    More,
    /// The head is complete.
    Done,
    /// The head exceeds its limit.
    TooLarge,
}

/// The head with one more header line: only two headers are kept, and the last
/// of each counts.
pub open spec fn with_header(head: HeadValue, line: Seq<char>) -> HeadValue {
    let colon = text::first_index(line, ':');
    if colon >= line.len() {
        head
    } else {
        let name = text::lowered(line.take(colon));
        let value = scan::trimmed(line.skip(colon + 1));
        if name == text::lowered("proxy-authorization"@) {
            HeadValue { authorization: Some(value), ..head }
        } else if name == text::lowered("traceparent"@) {
            HeadValue { traceparent: Some(value), ..head }
        } else {
            head
        }
    }
}

/// The reading after a line, and what it leads to: the first line is the
/// request line, an empty line ends the head, and a head over its limit is
/// rejected.
pub open spec fn head_step(progress: HeadProgress, line: Seq<char>) -> (HeadProgress, HeadStep) {
    let total = progress.total + vstd::utf8::encode_utf8(line).len();
    if total > MAX_HEADER_BYTES {
        (progress, HeadStep::TooLarge)
    } else {
        match progress.head {
            None => (
                HeadProgress {
                    head: Some(
                        HeadValue { request_line: line, authorization: None, traceparent: None },
                    ),
                    total,
                },
                HeadStep::More,
            ),
            Some(head) => if scan::trimmed_end(line).len() == 0 {
                (HeadProgress { head: Some(head), total }, HeadStep::Done)
            } else {
                (
                    HeadProgress {
                        head: Some(with_header(head, scan::trimmed_end(line))),
                        total,
                    },
                    HeadStep::More,
                )
            },
        }
    }
}

/// No head that is accepted, and none that is being read, holds more than the
/// limit.
pub proof fn heads_are_bounded(progress: HeadProgress, line: Seq<char>)
    requires
        progress.total <= MAX_HEADER_BYTES,
    ensures
        head_step(progress, line).0.total <= MAX_HEADER_BYTES,
        progress.total + vstd::utf8::encode_utf8(line).len() > MAX_HEADER_BYTES <==> head_step(
            progress,
            line,
        ).1 == HeadStep::TooLarge,
{
}

/// The head of what was read: an empty one when nothing was.
pub open spec fn head_of(progress: HeadProgress) -> HeadValue {
    match progress.head {
        Some(head) => head,
        None => HeadValue {
            request_line: Seq::empty(),
            authorization: None,
            traceparent: None,
        },
    }
}

impl HeadReader {
    #[verifier::type_invariant]
    spec fn bounded(&self) -> bool {
        self.total <= MAX_HEADER_BYTES
    }

    /// A head of which nothing was read.
    pub fn new() -> (r: HeadReader)
        ensures
            r@ == (HeadProgress { head: None, total: 0 }),
    {
        HeadReader { head: None, total: 0 }
    }

    /// Reads one line, with its line end.
    pub fn on_line(&mut self, line: &str) -> (r: HeadStep)
        ensures
            (final(self)@, r) == head_step(old(self)@, line@),
    {
        proof {
            use_type_invariant(&*self);
        }
        let len: usize = line.as_bytes().len();
        if len > MAX_HEADER_BYTES - self.total {
            return HeadStep::TooLarge;
        }
        let total: usize = self.total + len;
        let mut current: Option<Head> = None;
        std::mem::swap(&mut current, &mut self.head);
        match current {
            None => {
                self.head = Some(
                    Head { request_line: line.to_owned(), authorization: None, traceparent: None },
                );
                self.total = total;
                HeadStep::More
            },
            Some(head) => {
                let trimmed = scan::trim_end(line);
                if trimmed.as_str().is_empty() {
                    self.head = Some(head);
                    self.total = total;
                    return HeadStep::Done;
                }
                let head = add_header(head, trimmed.as_str());
                self.head = Some(head);
                self.total = total;
                HeadStep::More
            },
        }
    }

    /// The head that was read: an empty one when nothing was.
    pub fn finish(self) -> (r: Head)
        ensures
            r@ == match self@.head {
                Some(head) => head,
                None => HeadValue {
                    request_line: Seq::empty(),
                    authorization: None,
                    traceparent: None,
                },
            },
            r@ == head_of(self@),
    {
        match self.head {
            Some(head) => head,
            None => Head { request_line: String::new(), authorization: None, traceparent: None },
        }
    }
}

fn add_header(head: Head, line: &str) -> (r: Head)
    ensures
        r@ == with_header(head@, line@),
{
    let chars = text::to_chars(line);
    let colon: usize = text::find_char(&chars, ':');
    if colon >= chars.len() {
        return head;
    }
    let name = text::from_chars(&chars, 0, colon);
    let value = text::from_chars(&chars, colon + 1, chars.len());
    proof {
        assert(name@ =~= line@.take(colon as int));
        assert(value@ =~= line@.skip(colon + 1));
    }
    if scan::same_ignoring_case(name.as_str(), "proxy-authorization") {
        Head { authorization: Some(scan::trim(value.as_str())), ..head }
    } else if scan::same_ignoring_case(name.as_str(), "traceparent") {
        Head { traceparent: Some(scan::trim(value.as_str())), ..head }
    } else {
        head
    }
}

/// An HTTP answer without a body.
pub open spec fn answer(status: nat, reason: Seq<char>, extra: Seq<char>) -> Seq<char> {
    "HTTP/1.1 "@ + text::decimal(status) + " "@ + reason + "\r\n"@ + extra + "\r\n"@
}

/// An HTTP answer without a body, with the given extra headers.
pub fn reply_with(status: u16, reason: &str, extra: &str) -> (r: String)
    ensures
        r@ == answer(status as nat, reason@, extra@),
{
    let mut response = "HTTP/1.1 ".to_owned();
    response.append(text::decimal_text(status as u64).as_str());
    response.append(" ");
    response.append(reason);
    response.append("\r\n");
    response.append(extra);
    response.append("\r\n");
    response
}

/// An HTTP answer without a body or extra headers.
pub fn reply(status: u16, reason: &str) -> (r: String)
    ensures
        r@ == answer(status as nat, reason@, Seq::empty()),
{
    proof {
        reveal_strlit("");
        assert(""@ =~= Seq::<char>::empty());
    }
    reply_with(status, reason, "")
}

/// What to do next for a client.
pub enum ServeStep {
    /// Answer this and close.
    Reply(String),
    /// Ask whether the destination may be reached.
    Decide(String, u16),
    /// Connect to the destination.
    Connect(String, u16),
    /// Answer this and carry bytes both ways.
    Tunnel(String),
}

/// What to do next for a client, as plain values.
pub enum ServeValue {
    Reply(Seq<char>),
    Decide(Seq<char>, u16),
    Connect(Seq<char>, u16),
    Tunnel(Seq<char>),
}

impl View for ServeStep {
    type V = ServeValue;

    open spec fn view(&self) -> ServeValue {
        match self {
            ServeStep::Reply(response) => ServeValue::Reply(response@),
            ServeStep::Decide(host, port) => ServeValue::Decide(host@, *port),
            ServeStep::Connect(host, port) => ServeValue::Connect(host@, *port),
            ServeStep::Tunnel(response) => ServeValue::Tunnel(response@),
        }
    }
}

/// What a complete head leads to: a head that is no CONNECT request is bad, a
/// client without the expected credential is told to authenticate, and only
/// then is the destination looked at.
pub open spec fn after_head(head: HeadValue, expected: Seq<char>) -> ServeValue {
    match connect_target(head.request_line) {
        None => ServeValue::Reply(answer(400, "Bad Request"@, Seq::empty())),
        Some((host, port)) => if head.authorization != Some(expected) {
            ServeValue::Reply(
                answer(
                    407,
                    "Proxy Authentication Required"@,
                    "Proxy-Authenticate: Basic realm=\"agentd\"\r\n"@,
                ),
            )
        } else {
            ServeValue::Decide(host, port)
        },
    }
}

/// Nothing about the allowlist is revealed to a client without the credential:
/// its answer is the same whatever destination it names.
pub proof fn strangers_learn_nothing(
    head: HeadValue,
    other: HeadValue,
    expected: Seq<char>,
)
    requires
        head.authorization != Some(expected),
        other.authorization != Some(expected),
        connect_target(head.request_line) is Some,
        connect_target(other.request_line) is Some,
    ensures
        after_head(head, expected) == after_head(other, expected),
        after_head(head, expected) is Reply,
{
}

/// What a client is answered whose head did not arrive in time.
pub fn head_timed_out() -> (r: ServeStep)
    ensures
        r@ == ServeValue::Reply(answer(408, "Request Timeout"@, Seq::empty())),
{
    ServeStep::Reply(reply(408, "Request Timeout"))
}

/// What a complete head leads to.
pub fn on_head(head: &Head, expected: &str) -> (r: ServeStep)
    ensures
        r@ == after_head(head@, expected@),
{
    match parse_connect(head.request_line()) {
        None => ServeStep::Reply(reply(400, "Bad Request")),
        Some((host, port)) => {
            let authenticated = match head.authorization() {
                Some(value) => text::same(value, expected),
                None => false,
            };
            if !authenticated {
                return ServeStep::Reply(
                    reply_with(
                        407,
                        "Proxy Authentication Required",
                        "Proxy-Authenticate: Basic realm=\"agentd\"\r\n",
                    ),
                );
            }
            ServeStep::Decide(host, port)
        },
    }
}

/// What the decision on a destination leads to.
pub open spec fn after_decision(host: Seq<char>, port: u16, allowed: bool) -> ServeValue {
    if allowed {
        ServeValue::Connect(host, port)
    } else {
        ServeValue::Reply(answer(403, "Forbidden"@, Seq::empty()))
    }
}

/// What the attempt to connect leads to.
pub open spec fn after_connecting(connected: bool) -> ServeValue {
    if connected {
        ServeValue::Tunnel(ESTABLISHED@)
    } else {
        ServeValue::Reply(answer(502, "Bad Gateway"@, Seq::empty()))
    }
}

/// What the decision about a destination leads to.
pub fn on_decision(host: String, port: u16, allowed: bool) -> (r: ServeStep)
    ensures
        r@ == if allowed {
            ServeValue::Connect(host@, port)
        } else {
            ServeValue::Reply(answer(403, "Forbidden"@, Seq::empty()))
        },
        r@ == after_decision(host@, port, allowed),
{
    if allowed {
        ServeStep::Connect(host, port)
    } else {
        ServeStep::Reply(reply(403, "Forbidden"))
    }
}

/// What the attempt to connect leads to.
pub fn on_connected(connected: bool) -> (r: ServeStep)
    ensures
        r@ == if connected {
            ServeValue::Tunnel(ESTABLISHED@)
        } else {
            ServeValue::Reply(answer(502, "Bad Gateway"@, Seq::empty()))
        },
        r@ == after_connecting(connected),
{
    if connected {
        ServeStep::Tunnel(ESTABLISHED.to_owned())
    } else {
        ServeStep::Reply(reply(502, "Bad Gateway"))
    }
}

} // verus!
