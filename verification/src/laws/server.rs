//! What the server promises its connections.

use crate::auth::{self, Claim, Principal, PrincipalValue};
use crate::events::EventValue;
use crate::hostpath;
use crate::json::JsonValue;
use crate::server::{
    self, BindEvent, BindPhase, BindStep, DirectoryProbe, DirectoryStep, Inbound, InboundStep, Lag,
    Opening, StreamEvent, StreamMove, StreamState, StreamStep,
};
use crate::text;
use axum::http::{HeaderMap, HeaderValue};
use vstd::prelude::*;

verus! {

broadcast use vstd::string::group_string_axioms;

/// The event of a kind with these fields, about nothing in particular.
pub open spec fn notice(kind: Seq<char>, fields: Map<Seq<char>, JsonValue>) -> EventValue {
    EventValue { kind, subject: None, traceparent: None, data: JsonValue::Object(fields) }
}

/// The holder of a configured secret gets in: to the events with the claim to read
/// or to publish, to the models with the claim to infer. Without the claim it is
/// refused.
pub proof fn claims_open_the_streams(
    before: Seq<(Seq<char>, PrincipalValue)>,
    after: Seq<(Seq<char>, PrincipalValue)>,
    scheme: Seq<char>,
    secret: Seq<char>,
    principal: PrincipalValue,
)
    requires
        forall|i: int| 0 <= i < after.len() ==> (#[trigger] after[i]).0 != secret,
        text::lowered(scheme) == seq!['b', 'e', 'a', 'r', 'e', 'r'],
        secret.len() > 0,
    ensures
        ({
            let tokens = before.push((secret, principal)) + after;
            let value = Some(scheme + seq![' '] + secret);
            let events = server::events_answer(server::selected(tokens, value));
            let models = server::inference_answer(server::selected(tokens, value));
            let read = principal.claims.contains(Claim::Read);
            let publish = principal.claims.contains(Claim::Publish);
            let infer = principal.claims.contains(Claim::Infer);
            &&& read ==> events == Ok::<PrincipalValue, u16>(principal)
            &&& publish ==> events == Ok::<PrincipalValue, u16>(principal)
            &&& !read && !publish ==> events == Err::<PrincipalValue, u16>(401)
            &&& infer ==> models == Ok::<PrincipalValue, u16>(principal)
            &&& !infer && (read || publish) ==> models == Err::<PrincipalValue, u16>(403)
            &&& !infer && !read && !publish ==> models == Err::<PrincipalValue, u16>(401)
        }),
{
    let value = scheme + seq![' '] + secret;
    assert(text::lowered(scheme).len() == scheme.len());
    assert(value.take(6) =~= scheme);
    assert(value.skip(7) =~= secret);
    crate::laws::auth::the_secret_follows_the_scheme(value, secret);
    crate::laws::auth::the_last_token_counts(before, after, secret, principal);
}

/// Whoever brings no secret, or one that is not configured, is not let in.
pub proof fn nobody_else_gets_in(
    tokens: Seq<(Seq<char>, PrincipalValue)>,
    value: Option<Seq<char>>,
)
    requires
        value is Some ==> (forall|i: int|
            0 <= i < tokens.len() ==> (#[trigger] tokens[i]).0.len() == 0 || value->0
                != value->0.take(6) + seq![' '] + tokens[i].0 || text::lowered(value->0.take(6))
                != seq!['b', 'e', 'a', 'r', 'e', 'r']),
    ensures
        server::events_answer(server::selected(tokens, value)) == Err::<PrincipalValue, u16>(401),
        server::inference_answer(server::selected(tokens, value)) == Err::<PrincipalValue, u16>(
            401,
        ),
{
    if value is Some && auth::bearer_secret(value->0) is Some {
        let secret = auth::bearer_secret(value->0)->0;
        crate::laws::auth::the_secret_follows_the_scheme(value->0, secret);
        assert(value->0 =~= value->0.take(6) + seq![' '] + secret);
        crate::laws::auth::other_secrets_confer_nothing(tokens, secret);
    }
}

/// A reader that resumes is replayed every position from its own on and told that
/// it has caught up; one outside the log, which starts at one and may be resumed
/// right behind its tail, is refused with both positions. Who does not resume, or
/// may not read, starts live.
pub proof fn readers_resume_where_they_ask(
    principal: PrincipalValue,
    from: Option<u64>,
    tail: u64,
    opening: Opening,
)
    requires
        server::opening_of(principal, from, tail, opening),
    ensures
        ({
            let state = server::opened(principal, from, tail);
            let reads = principal.claims.contains(Claim::Read);
            &&& state.can_read == reads
            &&& state.resuming == (from is Some)
            &&& from is None || !reads ==> opening is Live && !state.catching_up
            &&& from is None || from->0 == 0 ==> state.last_sent == 0
            &&& from is Some && from->0 > 0 ==> state.last_sent + 1 == from->0
            &&& from is Some && reads && 0 < from->0 && from->0 - 1 <= tail ==> opening
                == Opening::Replay(from->0) && state.catching_up
            &&& from is Some && reads && (from->0 == 0 || from->0 - 1 > tail) ==> {
                &&& opening is Refuse
                &&& !state.catching_up
                &&& opening->Refuse_0@ == notice(
                    "error.resume_out_of_range"@,
                    map![
                        "position"@ => JsonValue::Number(text::decimal(from->0 as nat)),
                        "tail"@ => JsonValue::Number(text::decimal(tail as nat)),
                    ],
                )
            }
        }),
{
}

/// A recorded event moves a connection on to its position, never back; the end of
/// a replay is told, with the tail, to who still waits for it.
pub proof fn a_connection_only_moves_on(state: StreamState, position: u64)
    ensures
        ({
            let recorded = server::moved(state, StreamMove::Recorded(position));
            let replayed = server::moved(state, StreamMove::Replayed(position));
            &&& recorded.1 is None
            &&& recorded.0.last_sent >= state.last_sent
            &&& recorded.0.last_sent >= position
            &&& recorded.0.last_sent == state.last_sent || recorded.0.last_sent == position
            &&& recorded.0.can_read == state.can_read && recorded.0.resuming == state.resuming
            &&& recorded.0.catching_up == state.catching_up
            &&& replayed.0.last_sent == state.last_sent
            &&& replayed.0.can_read == state.can_read && replayed.0.resuming == state.resuming
            &&& !replayed.0.catching_up
            &&& !state.catching_up ==> replayed.1 is None
            &&& state.catching_up ==> replayed.1 == Some(
                notice(
                    "daemon.caught_up"@,
                    map!["tail"@ => JsonValue::Number(text::decimal(position as nat))],
                ),
            )
        }),
{
}

/// Who falls behind is told by how much, and why a replay or a publication failed.
pub proof fn notices_say_what_happened(missed: u64, error: Seq<char>)
    ensures
        server::lagged_event(missed) == notice(
            "error.lagged"@,
            map!["missed"@ => JsonValue::Number(text::decimal(missed as nat))],
        ),
        server::replay_failed_event(error) == notice(
            "error.replay_failed"@,
            map!["error"@ => JsonValue::Text(error)],
        ),
        server::publish_failed_event(error) == notice(
            "error.publish_failed"@,
            map!["error"@ => JsonValue::Text(error)],
        ),
{
}

/// The types under `error.`, `sandbox.`, and `session.` are reserved, and no others.
pub proof fn three_families_are_reserved(kind: Seq<char>)
    ensures
        server::reserved("error."@ + kind),
        server::reserved("sandbox."@ + kind),
        server::reserved("session."@ + kind),
        server::reserved(kind) <==> "error."@.is_prefix_of(kind) || "sandbox."@.is_prefix_of(kind)
            || "session."@.is_prefix_of(kind),
{
    assert(("error."@ + kind).take("error."@.len() as int) =~= "error."@);
    assert(("sandbox."@ + kind).take("sandbox."@.len() as int) =~= "sandbox."@);
    assert(("session."@ + kind).take("session."@.len() as int) =~= "session."@);
    assert(kind.take("error."@.len() as int) == kind.subrange(0, "error."@.len() as int));
    assert(kind.take("sandbox."@.len() as int) == kind.subrange(0, "sandbox."@.len() as int));
    assert(kind.take("session."@.len() as int) == kind.subrange(0, "session."@.len() as int));
}

/// Who may publish publishes under its own source; a reserved type needs authority
/// as well. Everything that is not published is answered with the reason, and the
/// connection goes on until the client closes it.
pub proof fn publishing_needs_the_claims(
    principal: PrincipalValue,
    inbound: Inbound,
    step: InboundStep,
)
    requires
        server::inbound_answer(principal, inbound, step),
    ensures
        ({
            let publish = principal.claims.contains(Claim::Publish);
            let authority = principal.claims.contains(Claim::Authority);
            let text = inbound is Event || inbound is Invalid;
            &&& inbound is Close <==> step is Close
            &&& inbound is Other <==> step is Ignore
            &&& text && !publish ==> step is Reply && step->Reply_0@ == notice(
                "error.unauthorized"@,
                map!["error"@ => JsonValue::Text("the token does not grant the publish claim"@)],
            )
            &&& inbound is Invalid && publish ==> step is Reply && step->Reply_0@ == notice(
                "error.invalid_event"@,
                map!["error"@ => JsonValue::Text(inbound->Invalid_0@)],
            )
            &&& inbound is Event && publish && server::reserved(inbound->Event_0@) && !authority
                ==> step is Reply && step->Reply_0@ == notice(
                "error.unauthorized"@,
                map![
                    "error"@ => JsonValue::Text("the token does not grant the authority claim"@),
                    "type"@ => JsonValue::Text(inbound->Event_0@),
                ],
            )
            &&& inbound is Event && publish && (authority || !server::reserved(inbound->Event_0@))
                ==> step is Publish && step->Publish_0@ == principal.source
        }),
{
}

/// A socket is made ready by creating the directory it lies in where there is none;
/// a directory that the group or the others may write to is refused, and any other
/// is kept.
pub proof fn a_socket_needs_its_own_directory(
    dir: Seq<char>,
    socket: Seq<char>,
    probe: DirectoryProbe,
    step: DirectoryStep,
)
    requires
        server::directory_step(socket, probe, step),
    ensures
        ({
            let lies_in = hostpath::parent_of(socket) == Some(dir) && dir.len() > 0;
            let mode = match probe {
                DirectoryProbe::Present(Some(mode)) => mode,
                _ => 0,
            };
            let shared = (mode / 16) % 2 == 1 || (mode / 2) % 2 == 1;
            &&& lies_in && probe is Missing ==> step is Create && step->Create_0@ == dir
            &&& lies_in && shared ==> step is Refuse && step->Refuse_0 is InsecureDirectory
                && step->Refuse_0->InsecureDirectory_0@ == dir
            &&& lies_in && probe is Present && !shared ==> step is Keep
            &&& hostpath::parent_of(socket) is None ==> step is Keep
            &&& hostpath::parent_of(socket) == Some(Seq::<char>::empty()) ==> step is Keep
        }),
{
    let mode = match probe {
        DirectoryProbe::Present(Some(mode)) => mode,
        _ => 0,
    };
    server::shared_means_group_or_other_write(mode);
}

/// A free socket is served at once. One in the way is served after it was found
/// dead, removed, and bound again; a live one is left to its owner. Whatever fails
/// ends the claim with its error.
pub proof fn a_socket_is_claimed_from_the_dead_only(
    socket: Seq<char>,
    bound: BindStep,
    in_use: BindStep,
    alive: BindStep,
    dead: BindStep,
    removed: BindStep,
    rebound: BindStep,
    failed: BindStep,
    phase: BindPhase,
    error: String,
)
    requires
        server::bind_answer(socket, BindPhase::Binding, BindEvent::Bound, bound),
        server::bind_answer(socket, BindPhase::Binding, BindEvent::InUse, in_use),
        ({
            let probing = server::next_phase(BindPhase::Binding, BindEvent::InUse)->0;
            let removing = server::next_phase(probing, BindEvent::Probed(false))->0;
            let rebinding = server::next_phase(removing, BindEvent::Removed)->0;
            &&& server::bind_answer(socket, probing, BindEvent::Probed(true), alive)
            &&& server::bind_answer(socket, probing, BindEvent::Probed(false), dead)
            &&& server::bind_answer(socket, removing, BindEvent::Removed, removed)
            &&& server::bind_answer(socket, rebinding, BindEvent::Bound, rebound)
        }),
        server::bind_answer(socket, phase, BindEvent::Failed(error), failed),
    ensures
        bound is Serve,
        in_use is Probe,
        alive is Fail && alive->Fail_0 is AlreadyRunning && alive->Fail_0->AlreadyRunning_0@
            == socket,
        dead is Remove,
        removed is Bind,
        rebound is Serve,
        failed is Fail && failed->Fail_0 is Io && failed->Fail_0->Io_0@ == error@,
        server::next_phase(BindPhase::Binding, BindEvent::InUse) is Some,
        server::next_phase(phase, BindEvent::Failed(error)) is None,
        server::next_phase(phase, BindEvent::Bound) is None,
        server::next_phase(phase, BindEvent::Probed(true)) is None,
{
}

/// Who resumes and falls behind is replayed from the position after the last one it
/// was sent, so nothing is lost; who does not is told how many events it missed.
pub proof fn falling_behind_loses_nothing(state: StreamState, missed: u64, lag: Lag)
    requires
        server::lag_answer(state, missed, lag),
    ensures
        state.resuming && state.last_sent < u64::MAX ==> lag is Replay && lag->Replay_0
            == state.last_sent + 1,
        !state.resuming ==> lag is Notice && lag->Notice_0@ == notice(
            "error.lagged"@,
            map!["missed"@ => JsonValue::Number(text::decimal(missed as nat))],
        ),
{
}

/// A response goes on until its last delta was sent or it ends without one; a client
/// that is gone or cannot be sent to ends the connection, and what it sends meanwhile
/// changes nothing.
pub proof fn a_response_ends_with_its_last_delta(last: bool)
    ensures
        last ==> server::streamed(StreamEvent::Sent(last)) == StreamStep::Finish,
        !last ==> server::streamed(StreamEvent::Sent(last)) == StreamStep::Continue,
        server::streamed(StreamEvent::Frame) == StreamStep::Continue,
        server::streamed(StreamEvent::Ended) == StreamStep::Finish,
        server::streamed(StreamEvent::SendFailed) == StreamStep::Close,
        server::streamed(StreamEvent::Gone) == StreamStep::Close,
{
}

/// A connection presents what its `Authorization` header says, if it has one; it is
/// answered with who it is, or with a status.
pub proof fn a_connection_presents_its_header(
    headers: HeaderMap<HeaderValue>,
    principal: Principal,
    status: u16,
)
    ensures
        ({
            let texts = auth::header_texts(headers);
            &&& texts.contains_key("authorization"@) ==> server::presented(headers) == Some(
                texts["authorization"@],
            )
            &&& !texts.contains_key("authorization"@) ==> server::presented(headers) is None
            &&& server::answer_view(Ok(principal)) == Ok::<PrincipalValue, u16>(principal@)
            &&& server::answer_view(Err(status)) == Err::<PrincipalValue, u16>(status)
        }),
{
}

/// Whatever else happens while a socket is claimed ends the claim: a second file in the
/// way, a probe or a removal that was not asked for.
pub proof fn a_claim_does_not_start_over(
    socket: Seq<char>,
    phase: BindPhase,
    event: BindEvent,
    step: BindStep,
)
    requires
        server::bind_answer(socket, phase, event, step),
        event is InUse && phase != BindPhase::Binding || event is Probed && phase
            != BindPhase::Probing || event is Removed && phase != BindPhase::Removing
            || event is Bound && (phase == BindPhase::Probing || phase == BindPhase::Removing),
    ensures
        step is Fail && step->Fail_0 is Io && step->Fail_0->Io_0@
            == "the socket could not be bound"@,
        server::next_phase(phase, event) is None,
{
}

} // verus!
