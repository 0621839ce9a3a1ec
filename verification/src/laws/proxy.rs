//! What the egress proxy promises.

use crate::confinement::{self, Policy};
use crate::events::EventValue;
use crate::hostpath;
use crate::json::{self, JsonValue};
use crate::policy;
use crate::proxy::{
    self, AskEvent, AskStep, Egress, HeadProgress, HeadStep, HeadValue, Proxy, RequestValue,
    ServeValue, Transport, Verdict, EGRESS_CANCELLED, EGRESS_DENIED, EGRESS_GRANTED,
    EGRESS_REQUESTED,
};
use crate::scan;
use crate::text;
use vstd::prelude::*;

verus! {

broadcast use vstd::string::group_string_axioms;

/// Every destination of the allowlist passes unasked, wherever it stands in the
/// list and in whatever case its host is written; adding destinations takes none
/// away.
pub proof fn every_listed_destination_passes(
    allowed: Seq<(Seq<char>, u16)>,
    more: Seq<(Seq<char>, u16)>,
    approver: Option<u64>,
    i: int,
    host: Seq<char>,
)
    requires
        0 <= i < allowed.len(),
        host.len() == allowed[i].0.len(),
        forall|k: int|
            0 <= k < host.len() ==> text::lower(#[trigger] host[k]) == text::lower(allowed[i].0[k]),
    ensures
        proxy::verdict(allowed, approver, host, allowed[i].1) == Verdict::Allow,
        proxy::verdict(allowed, approver, allowed[i].0, allowed[i].1) == Verdict::Allow,
        proxy::verdict(allowed + more, approver, host, allowed[i].1) == Verdict::Allow,
        proxy::verdict(more + allowed, approver, host, allowed[i].1) == Verdict::Allow,
{
    assert(text::lowered(allowed[i].0) =~= text::lowered(host));
    assert((allowed + more)[i] == allowed[i]);
    assert((more + allowed)[more.len() + i] == allowed[i]);
}

/// A destination that differs from every listed one in its port, or in a character
/// of its host other than by case, is put to the approver for the configured time,
/// and denied without one.
pub proof fn no_other_destination_passes_unasked(
    allowed: Seq<(Seq<char>, u16)>,
    approver: Option<u64>,
    host: Seq<char>,
    port: u16,
)
    requires
        forall|i: int|
            0 <= i < allowed.len() ==> (#[trigger] allowed[i]).1 != port || allowed[i].0.len()
                != host.len() || exists|k: int|
                0 <= k < host.len() && text::lower(#[trigger] host[k]) != text::lower(
                    allowed[i].0[k],
                ),
    ensures
        proxy::verdict(allowed, approver, host, port) == match approver {
            Some(wait) => Verdict::Ask(wait),
            None => Verdict::Deny,
        },
{
    assert forall|i: int| 0 <= i < allowed.len() && (#[trigger] allowed[i]).1 == port implies
        text::lowered(allowed[i].0) != text::lowered(host) by {
        if text::lowered(allowed[i].0) == text::lowered(host) {
            assert(text::lowered(allowed[i].0).len() == text::lowered(host).len());
            let k = choose|k: int|
                0 <= k < host.len() && text::lower(#[trigger] host[k]) != text::lower(
                    allowed[i].0[k],
                );
            assert(text::lowered(allowed[i].0)[k] == text::lowered(host)[k]);
        }
    }
}

/// An approver is asked about the destination under the request's id, in the
/// child's trace; the withdrawal names the same, with the reason.
pub proof fn an_approver_is_told_the_destination(request: RequestValue)
    ensures
        proxy::requested_event(request) == (EventValue {
            kind: EGRESS_REQUESTED@,
            subject: None,
            traceparent: request.traceparent,
            data: JsonValue::Object(
                map![
                    "request_id"@ => JsonValue::Text(request.request_id),
                    "host"@ => JsonValue::Text(request.host),
                    "port"@ => JsonValue::Number(text::decimal(request.port as nat)),
                ],
            ),
        }),
        proxy::cancelled_event(request) == (EventValue {
            kind: EGRESS_CANCELLED@,
            subject: None,
            traceparent: request.traceparent,
            data: JsonValue::Object(
                map![
                    "request_id"@ => JsonValue::Text(request.request_id),
                    "decision"@ => JsonValue::Text("cancelled"@),
                    "host"@ => JsonValue::Text(request.host),
                    "port"@ => JsonValue::Number(text::decimal(request.port as nat)),
                    "reason"@ => JsonValue::Text("no approval within the timeout"@),
                ],
            ),
        }),
{
}

/// A grant under the request's id opens the tunnel, and a refusal or a withdrawal
/// under it does not; any other event is waited past, and so is a gap. A request
/// that cannot be recorded is refused, and one that nobody decides is withdrawn.
pub proof fn the_decision_on_a_request_counts(
    request: RequestValue,
    event: AskEvent,
    step: AskStep,
    fields: Map<Seq<char>, JsonValue>,
    named: Seq<char>,
)
    requires
        proxy::ask_answer(request, event, step),
        event matches AskEvent::Seen(seen) ==> seen@.data == JsonValue::Object(fields) && (
        fields.contains_key("request_id"@) ==> fields["request_id"@] == JsonValue::Text(named)),
    ensures
        match event {
            AskEvent::Recorded => step is Wait,
            AskEvent::Lagged => step is Wait,
            AskEvent::RecordFailed => step is Refused,
            AskEvent::Closed => step is Cancel && step->Cancel_0@ == proxy::cancelled_event(
                request,
            ),
            AskEvent::TimedOut => step is Cancel && step->Cancel_0@ == proxy::cancelled_event(
                request,
            ),
            AskEvent::Seen(seen) => {
                let ours = fields.contains_key("request_id"@) && named == request.request_id;
                &&& ours && seen@.kind == EGRESS_GRANTED@ ==> step is Granted
                &&& ours && (seen@.kind == EGRESS_DENIED@ || seen@.kind == EGRESS_CANCELLED@)
                    ==> step is Refused
                &&& !ours || (seen@.kind != EGRESS_GRANTED@ && seen@.kind != EGRESS_DENIED@
                    && seen@.kind != EGRESS_CANCELLED@) ==> step is Wait
            },
        },
{
    reveal_strlit("session.egress.granted");
    reveal_strlit("session.egress.denied");
    reveal_strlit("session.egress.cancelled");
    assert(EGRESS_GRANTED@.len() == 22 && EGRESS_DENIED@.len() == 21 && EGRESS_CANCELLED@.len()
        == 24);
}

/// The environment of a wired policy keeps every variable of other names, in order,
/// and then names the proxy; the child's own loopback stays off the tunnel.
pub proof fn a_wired_environment_keeps_the_rest(
    env: Seq<(Seq<char>, Seq<char>)>,
    variable: (Seq<char>, Seq<char>),
    url: Seq<char>,
)
    ensures
        ({
            let kept = proxy::retained(env);
            let more = proxy::retained(env.push(variable));
            let wired = proxy::wired_env(env, url);
            let ours = variable.0 == "HTTP_PROXY"@ || variable.0 == "HTTPS_PROXY"@ || variable.0
                == "ALL_PROXY"@ || variable.0 == "NO_PROXY"@;
            &&& proxy::retained(Seq::empty()) == Seq::<(Seq<char>, Seq<char>)>::empty()
            &&& ours ==> more == kept
            &&& !ours ==> more == kept.push(variable)
            &&& wired.len() == kept.len() + 4
            &&& wired.take(kept.len() as int) == kept
            &&& wired[kept.len() as int] == ("HTTP_PROXY"@, url)
            &&& wired[kept.len() as int + 1] == ("HTTPS_PROXY"@, url)
            &&& wired[kept.len() as int + 2] == ("ALL_PROXY"@, url)
            &&& wired[kept.len() as int + 3] == ("NO_PROXY"@, "127.0.0.1,localhost,::1"@)
        }),
{
    assert(env.push(variable).drop_last() =~= env);
    let kept = proxy::retained(env);
    assert(proxy::wired_env(env, url).take(kept.len() as int) =~= kept);
}

/// The URL of a proxy names its credential and its loopback port.
pub proof fn the_url_names_the_credential(token: Seq<char>, port: u16)
    ensures
        proxy::proxy_url(token, port) == "http://agentd:"@ + token + "@"@ + ("127.0.0.1:"@
            + text::decimal(port as nat)),
        proxy::authorization_of(token) == "Basic "@ + proxy::base64_standard(
            vstd::utf8::encode_utf8("agentd:"@ + token),
        ),
{
}

/// An authority whose port is no number up to 65535, or that has no port, names no
/// destination.
pub proof fn an_authority_needs_a_port(host: Seq<char>, port: Seq<char>, n: nat)
    requires
        !port.contains(':'),
    ensures
        host.len() > 0 && host[0] != '[' && !host.contains(':') ==> proxy::authority(host) is None,
        (host.len() == 0 || host[0] != '[') && scan::unsigned(port, 65535) is None
            ==> proxy::authority(host.push(':') + port) is None,
        n > 65535 ==> proxy::with_port(host, text::decimal(n)) is None,
        n <= 65535 ==> proxy::with_port(host, text::decimal(n)) == Some((host, n as u16)),
{
    crate::laws::text::numbers_read_back(n, 65535);
    crate::laws::text::characters_are_found_where_they_stand(host, ':');
    if scan::last_index(host, ':') >= 0 {
        assert(host.contains(':'));
    }
    let whole = host.push(':') + port;
    crate::laws::text::characters_are_found_where_they_stand(whole, ':');
    assert(whole[host.len() as int] == ':');
    let colon = scan::last_index(whole, ':');
    assert(colon == host.len()) by {
        if colon > host.len() {
            assert(whole[colon] == port[colon - host.len() - 1]);
            assert(port.contains(':'));
        }
    }
    assert(whole.skip(colon + 1) =~= port);
    if host.len() > 0 {
        assert(whole[0] == host[0]);
    }
}

/// A request line is a CONNECT, in any case, followed by an authority and whatever
/// else; any other names no destination.
pub proof fn only_connect_names_a_destination(request: Seq<char>)
    ensures
        ({
            let words = scan::words(request);
            &&& words.len() >= 2 && text::lowered(words[0]) == text::lowered("CONNECT"@)
                ==> proxy::connect_target(request) == proxy::authority(words[1])
            &&& words.len() < 2 || text::lowered(words[0]) != text::lowered("CONNECT"@)
                ==> proxy::connect_target(request) is None
        }),
{
}

/// A head is read line by line: the first line is the request line, an
/// authorization and a trace header are kept with their values trimmed, the last of
/// each, and any other header changes nothing.
pub proof fn heads_keep_their_two_headers(
    head: HeadValue,
    name: Seq<char>,
    value: Seq<char>,
)
    requires
        !name.contains(':'),
    ensures
        ({
            let after = proxy::with_header(head, name.push(':') + value);
            let authorization = text::lowered(name) == text::lowered("proxy-authorization"@);
            let trace = text::lowered(name) == text::lowered("traceparent"@);
            &&& after.request_line == head.request_line
            &&& authorization ==> after.authorization == Some(scan::trimmed(value))
                && after.traceparent == head.traceparent
            &&& trace ==> after.traceparent == Some(scan::trimmed(value)) && after.authorization
                == head.authorization
            &&& !authorization && !trace ==> after == head
        }),
        proxy::with_header(head, name) == head,
{
    let line = name.push(':') + value;
    crate::laws::text::characters_are_found_where_they_stand(line, ':');
    crate::laws::text::characters_are_found_where_they_stand(name, ':');
    let colon = text::first_index(line, ':');
    assert(line[name.len() as int] == ':');
    assert(colon == name.len()) by {
        if colon < name.len() {
            assert(line[colon] == name[colon]);
            assert(name.contains(':'));
        }
    }
    assert(line.take(colon) =~= name);
    assert(line.skip(colon + 1) =~= value);
    if text::first_index(name, ':') < name.len() {
        assert(name.contains(':'));
    }
    assert(text::lowered("proxy-authorization"@) != text::lowered("traceparent"@)) by {
        reveal_strlit("proxy-authorization");
        reveal_strlit("traceparent");
        assert(text::lowered("proxy-authorization"@).len() == 19);
        assert(text::lowered("traceparent"@).len() == 11);
    }
}

/// The reading of a head goes on until an empty line, within the limit of bytes;
/// beyond the limit it is refused and what was read stays.
pub proof fn a_head_ends_at_an_empty_line(progress: HeadProgress, line: Seq<char>)
    ensures
        ({
            let (after, step) = proxy::head_step(progress, line);
            let total = progress.total + vstd::utf8::encode_utf8(line).len();
            let empty = scan::trimmed_end(line).len() == 0;
            &&& total > 16384 ==> step == HeadStep::TooLarge && after == progress
            &&& total <= 16384 ==> after.total == total && after.head is Some
            &&& total <= 16384 && progress.head is None ==> step == HeadStep::More && after.head
                == Some(
                HeadValue { request_line: line, authorization: None, traceparent: None },
            )
            &&& total <= 16384 && progress.head is Some && empty ==> step == HeadStep::Done
                && after.head == progress.head
            &&& total <= 16384 && progress.head is Some && !empty ==> step == HeadStep::More
                && after.head == Some(
                proxy::with_header(progress.head->0, scan::trimmed_end(line)),
            )
        }),
{
}

/// A client is let on to its destination exactly when its head is a CONNECT request
/// with the expected credential; without the credential it is told to authenticate,
/// and any other head is bad.
pub proof fn the_credential_opens_the_way(head: HeadValue, expected: Seq<char>)
    ensures
        match proxy::connect_target(head.request_line) {
            Some((host, port)) => {
                &&& head.authorization == Some(expected) ==> proxy::after_head(head, expected)
                    == ServeValue::Decide(host, port)
                &&& head.authorization != Some(expected) ==> proxy::after_head(head, expected)
                    == ServeValue::Reply(
                    "HTTP/1.1 "@ + text::decimal(407) + " "@ + "Proxy Authentication Required"@
                        + "\r\n"@ + "Proxy-Authenticate: Basic realm=\"agentd\"\r\n"@ + "\r\n"@,
                )
            },
            None => proxy::after_head(head, expected) == ServeValue::Reply(
                "HTTP/1.1 "@ + text::decimal(400) + " "@ + "Bad Request"@ + "\r\n"@ + Seq::<
                    char,
                >::empty() + "\r\n"@,
            ),
        },
{
}

/// A proxy owns the directory of its socket exactly when the directory carries the
/// name such directories have.
pub proof fn a_proxy_owns_its_own_directory_only(path: Seq<char>)
    ensures
        match proxy::owned_dir(path) {
            Some(dir) => hostpath::parent_of(path) == Some(dir) && hostpath::file_name_of(dir)
                is Some && text::has_prefix(hostpath::file_name_of(dir)->0, "agentd-egress-"@),
            None => match hostpath::parent_of(path) {
                Some(dir) => hostpath::file_name_of(dir) is None || !text::has_prefix(
                    hostpath::file_name_of(dir)->0,
                    "agentd-egress-"@,
                ),
                None => true,
            },
        },
{
}

/// A policy wired to a proxy reaches it, may use its transport and no other
/// destinations than the list's, and is otherwise what it was.
pub proof fn a_wired_policy_names_the_proxy(
    running: Proxy,
    before: Policy,
    after: Policy,
    egress: Egress,
)
    requires
        running.wired(before, after, egress),
    ensures
        after.fs == before.fs,
        after.shell.workdir == before.shell.workdir,
        after.network.loopback == before.network.loopback,
        after.network.unix_sockets == before.network.unix_sockets,
        after.network.proxy is Some,
        after.network.proxy->0.port == running.child_port(),
        text::opt_view(after.network.proxy->0.socket) == running.socket(),
        confinement::destination_views(after.network.proxy->0.egress@)
            == egress.listed_destinations(),
        ({
            let env = policy::env_views(after.shell.env@);
            let url = "http://agentd:"@ + running.credential() + "@"@ + ("127.0.0.1:"@
                + text::decimal(running.child_port() as nat));
            let kept = proxy::retained(policy::env_views(before.shell.env@));
            env == kept + seq![
                ("HTTP_PROXY"@, url),
                ("HTTPS_PROXY"@, url),
                ("ALL_PROXY"@, url),
                ("NO_PROXY"@, "127.0.0.1,localhost,::1"@),
            ]
        }),
{
}

/// A private network namespace is used wherever there is one; without one egress is
/// refused on Linux and goes by loopback elsewhere.
pub proof fn egress_needs_a_namespace_on_linux(
    namespace: bool,
    linux: bool,
    r: Result<bool, String>,
)
    requires
        proxy::transport_answer(namespace, linux, r),
    ensures
        namespace ==> r == Ok::<bool, String>(true),
        !namespace && !linux ==> r == Ok::<bool, String>(false),
        !namespace && linux ==> r is Err && r->Err_0@
            == "egress needs a private network namespace, which requires bubblewrap; bubblewrap is unavailable"@,
{
}

/// An allowed destination is connected to as it was named, and the tunnel opens once it
/// is; a denied one and one that cannot be reached are answered with their status.
pub proof fn only_an_allowed_destination_is_connected_to(host: Seq<char>, port: u16)
    ensures
        proxy::after_decision(host, port, true) == ServeValue::Connect(host, port),
        proxy::after_decision(host, port, false) == ServeValue::Reply(
            proxy::answer(403, "Forbidden"@, Seq::empty()),
        ),
        proxy::after_connecting(true) == ServeValue::Tunnel(
            "HTTP/1.1 200 Connection Established\r\n\r\n"@,
        ),
        proxy::after_connecting(false) == ServeValue::Reply(
            proxy::answer(502, "Bad Gateway"@, Seq::empty()),
        ),
{
}

/// An answer has its status line, its further headers, and an empty line, and nothing
/// behind that.
pub proof fn an_answer_is_a_head_without_a_body(status: nat, reason: Seq<char>, extra: Seq<char>)
    ensures
        proxy::answer(status, reason, extra) == "HTTP/1.1 "@ + text::decimal(status) + " "@ + reason
            + "\r\n"@ + extra + "\r\n"@,
{
}

/// A proxy on a port is reached there; one behind a socket is reached at the port that
/// is forwarded to it.
pub proof fn a_proxy_is_reached_where_it_listens(
    port: u16,
    path: String,
    socket: Option<Seq<char>>,
    child_port: u16,
)
    ensures
        proxy::listens_at(Transport::Tcp(port), socket, child_port) <==> socket is None
            && child_port == port,
        proxy::listens_at(Transport::Unix(path), socket, child_port) <==> socket == Some(path@)
            && child_port == 31828,
{
}

/// A head is what was read of it; without a line it is empty and names nothing.
pub proof fn a_head_is_what_was_read(progress: HeadProgress)
    ensures
        progress.head is Some ==> proxy::head_of(progress) == progress.head->0,
        progress.head is None ==> proxy::head_of(progress).request_line.len() == 0
            && proxy::head_of(progress).authorization is None && proxy::head_of(
            progress,
        ).traceparent is None,
{
}

/// A bracket that is opened must be closed, and a port must follow it.
pub proof fn brackets_are_closed_before_the_port(host: Seq<char>, after: Seq<char>)
    requires
        !host.contains(']'),
    ensures
        proxy::authority(seq!['['] + host) is None,
        after.len() == 0 || after[0] != ':' ==> proxy::authority(
            seq!['['] + host + seq![']'] + after,
        ) is None,
        proxy::authority(seq!['['] + host + seq![']', ':'] + after) == proxy::with_port(host, after),
{
    let open = seq!['['] + host;
    assert(open.skip(1) =~= host);
    text::lemma_first_index(host, ']');
    assert(open[0] == '[');
    let closed = seq!['['] + host + seq![']'] + after;
    let n = host.len() as int;
    assert(closed[0] == '[');
    assert forall|i: int| 0 <= i < n implies #[trigger] closed.skip(1)[i] != ']' by {
        assert(closed.skip(1)[i] == host[i]);
        assert(host.contains(host[i]));
    }
    assert(closed.skip(1)[n] == ']');
    text::lemma_first_index_unique(closed.skip(1), ']', n);
    assert(closed.skip(1).skip(n + 1) =~= after);
    let full = seq!['['] + host + seq![']', ':'] + after;
    assert(full[0] == '[');
    assert forall|i: int| 0 <= i < n implies #[trigger] full.skip(1)[i] != ']' by {
        assert(full.skip(1)[i] == host[i]);
        assert(host.contains(host[i]));
    }
    assert(full.skip(1)[n] == ']');
    text::lemma_first_index_unique(full.skip(1), ']', n);
    assert(full.skip(1).skip(n + 1) =~= seq![':'] + after);
    assert((seq![':'] + after).skip(1) =~= after);
    assert(full.skip(1).take(n) =~= host);
}

/// A destination that may be absent stands for its host and its port.
pub proof fn a_target_is_its_host_and_port(host: String, port: u16)
    ensures
        proxy::target_view(Some((host, port))) == Some((host@, port)),
        proxy::target_view(None) is None,
{
}

} // verus!
