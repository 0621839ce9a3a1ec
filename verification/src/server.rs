//! The event API: who may connect, what a connection is sent, and what it may
//! publish.

use crate::auth::{self, header_texts, Claim, Principal, PrincipalValue, TokenStore};
use crate::bridge::{jnumber, jtext};
use crate::events::{event_of, Event, EventValue};
use crate::hostpath;
use crate::json::{self, Json};
use crate::log::LogError;
use crate::text;
use axum::http::{HeaderMap, HeaderValue};
use vstd::prelude::*;

verus! {

broadcast use vstd::string::group_string_axioms;

/// The largest number of historical events read from the log at once while
/// replaying to a client. Bounds the memory one replay step can hold.
pub const REPLAY_CHUNK: usize = 256;

/// The transient notice sent once a resume replay has caught up, so a client
/// can finish an interrupted turn from the replayed state.
pub const DAEMON_CAUGHT_UP: &'static str = "daemon.caught_up";

/// The mode of a directory that is private to the daemon user.
pub const PRIVATE_DIRECTORY_MODE: u32 = 0o700;

/// The mode of a file or socket that is private to the daemon user.
pub const PRIVATE_FILE_MODE: u32 = 0o600;

/// The answer to a connection without a usable token.
pub const UNAUTHORIZED: u16 = 401;

/// The answer to a connection whose token does not grant what it asks for.
pub const FORBIDDEN: u16 = 403;

/// Errors returned by the server.
#[derive(Debug)]
pub enum ServerError {
    /// Creating the socket, its parent directory, or the listener failed.
    Io(String),
    /// A live instance is already listening on the socket.
    AlreadyRunning(String),
    /// The socket's directory is writable by other users, so another local user
    /// could replace the socket and impersonate the daemon.
    InsecureDirectory(String),
}

/// The error in words.
pub open spec fn server_error_text(error: ServerError) -> Seq<char> {
    match error {
        ServerError::Io(error) => error@,
        ServerError::AlreadyRunning(path) => "another instance is already listening on "@
            + path@,
        ServerError::InsecureDirectory(path) => "the socket directory "@ + path@
            + " is writable by other users"@,
    }
}

impl ServerError {
    /// The error in words.
    pub fn to_string(&self) -> (r: String)
        ensures
            r@ == match *self {
                ServerError::Io(error) => error@,
                ServerError::AlreadyRunning(path) => "another instance is already listening on "@
                    + path@,
                ServerError::InsecureDirectory(path) => "the socket directory "@ + path@
                    + " is writable by other users"@,
            },
            r@ == server_error_text(*self),
    {
        match self {
            ServerError::Io(error) => error.clone(),
            ServerError::AlreadyRunning(path) => text::concat(
                "another instance is already listening on ",
                path.as_str(),
            ),
            ServerError::InsecureDirectory(path) => {
                let start = text::concat("the socket directory ", path.as_str());
                text::concat(start.as_str(), " is writable by other users")
            },
        }
    }
}

/// The permission bits that let users other than the owner write.
pub const OTHERS_WRITE: u32 = 0o022;

/// Whether a directory with a mode is writable by users other than its owner.
pub open spec fn is_shared(mode: u32) -> bool {
    mode & OTHERS_WRITE != 0
}

/// A directory is shared when the group or the others may write to it; what the
/// owner may do, and what anyone may read, does not matter.
pub proof fn shared_means_group_or_other_write(mode: u32)
    ensures
        is_shared(mode) <==> (mode / 16) % 2 == 1 || (mode / 2) % 2 == 1,
{
    assert((mode & 0o022u32 != 0) <==> (mode / 16) % 2 == 1 || (mode / 2) % 2 == 1) by (bit_vector);
}

/// Whether a directory is writable by users other than its owner, from its mode
/// if that is known.
///
/// A shared directory would let another local user unlink and replace the
/// socket, so the daemon refuses to serve from one.
pub fn is_shared_directory(mode: Option<u32>) -> (r: bool)
    ensures
        r == match mode {
            Some(mode) => is_shared(mode),
            None => false,
        },
{
    match mode {
        Some(mode) => mode & OTHERS_WRITE != 0,
        None => false,
    }
}

/// What is known of a directory.
#[derive(Clone, Copy, Debug, PartialEq, Eq, Structural)]
pub enum DirectoryProbe {
    /// It does not exist.
    Missing,
    /// It exists, with a mode if that could be read.
    Present(Option<u32>),
}

/// What to do about the directory of a socket.
#[derive(Debug)]
pub enum DirectoryStep {
    /// Use it as it is.
    Keep,
    /// Create it, private to the daemon user.
    Create(String),
    /// Refuse to serve from it.
    Refuse(ServerError),
}

/// Whether a step is the one that a socket's directory asks for: a missing one
/// is created, a shared one is refused, and any other is kept. A socket without
/// a directory in its path asks for nothing.
pub open spec fn directory_step(
    socket: Seq<char>,
    probe: DirectoryProbe,
    step: DirectoryStep,
) -> bool {
    match hostpath::parent_of(socket) {
        Some(parent) => if parent.len() == 0 {
            step is Keep
        } else {
            match probe {
                DirectoryProbe::Missing => step is Create && step->Create_0@ == parent,
                DirectoryProbe::Present(Some(mode)) => if is_shared(mode) {
                    step is Refuse && step->Refuse_0 is InsecureDirectory
                        && step->Refuse_0->InsecureDirectory_0@ == parent
                } else {
                    step is Keep
                },
                DirectoryProbe::Present(None) => step is Keep,
            }
        },
        None => step is Keep,
    }
}

/// What to do about the directory of `socket`.
pub fn prepare_directory(socket: &str, probe: DirectoryProbe) -> (r: DirectoryStep)
    ensures
        directory_step(socket@, probe, r),
{
    let parent = match hostpath::parent(socket) {
        Some(parent) => parent,
        None => return DirectoryStep::Keep,
    };
    if parent.as_str().is_empty() {
        return DirectoryStep::Keep;
    }
    match probe {
        DirectoryProbe::Missing => DirectoryStep::Create(parent),
        DirectoryProbe::Present(mode) => if is_shared_directory(mode) {
            DirectoryStep::Refuse(ServerError::InsecureDirectory(parent))
        } else {
            DirectoryStep::Keep
        },
    }
}

/// What happened while the socket is claimed.
#[derive(Debug)]
pub enum BindEvent {
    /// The socket was bound.
    Bound,
    /// A socket file is in the way.
    InUse,
    /// The socket in the way was probed: whether it could be connected to.
    Probed(bool),
    /// The stale socket file was removed.
    Removed,
    /// An operation failed.
    Failed(String),
}

/// What to do to claim the socket.
#[derive(Debug)]
pub enum BindStep {
    /// Bind the socket.
    Bind,
    /// Try to connect to the socket in the way.
    Probe,
    /// Remove the stale socket file.
    Remove,
    /// Make the socket private and serve.
    Serve,
    /// Give up.
    Fail(ServerError),
}

/// What the claim of a socket waits for.
#[derive(Clone, Copy, Debug, PartialEq, Eq, Structural)]
pub enum BindPhase {
    /// The first attempt to bind it.
    Binding,
    /// The probe of the socket in the way.
    Probing,
    /// The removal of the stale file.
    Removing,
    /// The second attempt to bind it.
    Rebinding,
}

/// The claim of the single-instance socket.
#[derive(Debug)]
pub struct Claiming {
    socket: String,
    phase: BindPhase,
}

/// The phase after an event, or that it is over.
pub open spec fn next_phase(phase: BindPhase, event: BindEvent) -> Option<BindPhase> {
    match (phase, event) {
        (BindPhase::Binding, BindEvent::InUse) => Some(BindPhase::Probing),
        (BindPhase::Probing, BindEvent::Probed(false)) => Some(BindPhase::Removing),
        (BindPhase::Removing, BindEvent::Removed) => Some(BindPhase::Rebinding),
        _ => None,
    }
}

/// Whether a step is the answer to an event: a socket that can be connected to
/// belongs to a live instance, a stale one is removed and bound anew, once.
pub open spec fn bind_answer(
    socket: Seq<char>,
    phase: BindPhase,
    event: BindEvent,
    step: BindStep,
) -> bool {
    match (phase, event) {
        (_, BindEvent::Failed(error)) => step is Fail && step->Fail_0 is Io && step->Fail_0->Io_0@
            == error@,
        (BindPhase::Binding, BindEvent::Bound) => step is Serve,
        (BindPhase::Rebinding, BindEvent::Bound) => step is Serve,
        (BindPhase::Binding, BindEvent::InUse) => step is Probe,
        (BindPhase::Probing, BindEvent::Probed(true)) => step is Fail
            && step->Fail_0 is AlreadyRunning && step->Fail_0->AlreadyRunning_0@ == socket,
        (BindPhase::Probing, BindEvent::Probed(false)) => step is Remove,
        (BindPhase::Removing, BindEvent::Removed) => step is Bind,
        _ => step is Fail && step->Fail_0 is Io && step->Fail_0->Io_0@
            == "the socket could not be bound"@,
    }
}

/// A live instance's socket is never removed: a removal follows only a probe
/// that could not connect.
pub proof fn a_live_socket_is_never_removed(
    socket: Seq<char>,
    phase: BindPhase,
    event: BindEvent,
    step: BindStep,
)
    requires
        bind_answer(socket, phase, event, step),
        step is Remove,
    ensures
        phase == BindPhase::Probing,
        event == BindEvent::Probed(false),
{
}

impl Claiming {
    /// The socket that is claimed.
    pub closed spec fn socket(&self) -> Seq<char> {
        self.socket@
    }

    /// What the claim waits for.
    pub closed spec fn phase(&self) -> BindPhase {
        self.phase
    }

    /// A claim that starts with an attempt to bind the socket.
    pub fn new(socket: &str) -> (r: Claiming)
        ensures
            r.socket() == socket@,
            r.phase() == BindPhase::Binding,
    {
        Claiming { socket: socket.to_owned(), phase: BindPhase::Binding }
    }

    /// Takes what happened into account.
    pub fn step(&mut self, event: BindEvent) -> (r: BindStep)
        ensures
            bind_answer(old(self).socket(), old(self).phase(), event, r),
            final(self).socket() == old(self).socket(),
            final(self).phase() == match next_phase(old(self).phase(), event) {
                Some(phase) => phase,
                None => old(self).phase(),
            },
    {
        match (self.phase, event) {
            (_, BindEvent::Failed(error)) => BindStep::Fail(ServerError::Io(error)),
            (BindPhase::Binding, BindEvent::Bound) => BindStep::Serve,
            (BindPhase::Rebinding, BindEvent::Bound) => BindStep::Serve,
            (BindPhase::Binding, BindEvent::InUse) => {
                self.phase = BindPhase::Probing;
                BindStep::Probe
            },
            (BindPhase::Probing, BindEvent::Probed(true)) => BindStep::Fail(
                ServerError::AlreadyRunning(self.socket.clone()),
            ),
            (BindPhase::Probing, BindEvent::Probed(false)) => {
                self.phase = BindPhase::Removing;
                BindStep::Remove
            },
            (BindPhase::Removing, BindEvent::Removed) => {
                self.phase = BindPhase::Rebinding;
                BindStep::Bind
            },
            _ => BindStep::Fail(ServerError::Io("the socket could not be bound".to_owned())),
        }
    }
}

/// The `Authorization` value of a request.
pub open spec fn presented(headers: HeaderMap<HeaderValue>) -> Option<Seq<char>> {
    if header_texts(headers).contains_key("authorization"@) {
        Some(header_texts(headers)["authorization"@])
    } else {
        None
    }
}

/// The principal a connection's `Authorization` value selects, if it selects one
/// that may use anything at all.
pub open spec fn selected(
    tokens: Seq<(Seq<char>, PrincipalValue)>,
    value: Option<Seq<char>>,
) -> Option<PrincipalValue> {
    let secret = match value {
        Some(value) => auth::bearer_secret(value),
        None => None,
    };
    match secret {
        Some(secret) => match auth::principal_of(tokens, secret) {
            Some(principal) => if auth::has_access(principal) {
                Some(principal)
            } else {
                None
            },
            None => None,
        },
        None => None,
    }
}

/// The answer to a connection to the event stream: the principal, or a status.
pub open spec fn events_answer(principal: Option<PrincipalValue>) -> Result<PrincipalValue, u16> {
    match principal {
        Some(principal) => if principal.claims.contains(Claim::Read)
            || principal.claims.contains(Claim::Publish) {
            Ok(principal)
        } else {
            Err(UNAUTHORIZED)
        },
        None => Err(UNAUTHORIZED),
    }
}

/// The answer to a connection to the model stream: the principal, or a status.
pub open spec fn inference_answer(principal: Option<PrincipalValue>) -> Result<
    PrincipalValue,
    u16,
> {
    match principal {
        Some(principal) => if principal.claims.contains(Claim::Infer) {
            Ok(principal)
        } else {
            Err(FORBIDDEN)
        },
        None => Err(UNAUTHORIZED),
    }
}

/// The principal of an answer, as plain values.
pub open spec fn answer_view(answer: Result<Principal, u16>) -> Result<PrincipalValue, u16> {
    match answer {
        Ok(principal) => Ok(principal@),
        Err(status) => Err(status),
    }
}

/// Whether a connection may use the event stream.
///
/// The `Authorization: Bearer` header selects a principal; a missing or unknown
/// token, or one that grants neither read nor publish, is answered with
/// `401 Unauthorized`.
pub fn events_access(tokens: &TokenStore, headers: &HeaderMap<HeaderValue>) -> (r: Result<
    Principal,
    u16,
>)
    ensures
        answer_view(r) == events_answer(selected(tokens@, presented(*headers))),
{
    match tokens.authorize(headers) {
        Ok(principal) => if principal.has(Claim::Read) || principal.has(Claim::Publish) {
            Ok(principal)
        } else {
            Err(UNAUTHORIZED)
        },
        Err(_) => Err(UNAUTHORIZED),
    }
}

/// Whether a connection may use the model stream.
///
/// The connection must hold the inference claim; a missing or unknown token is
/// answered with `401 Unauthorized`, a recognized token without the inference
/// claim with `403 Forbidden`.
pub fn inference_access(tokens: &TokenStore, headers: &HeaderMap<HeaderValue>) -> (r: Result<
    Principal,
    u16,
>)
    ensures
        answer_view(r) == inference_answer(selected(tokens@, presented(*headers))),
{
    match tokens.authorize(headers) {
        Ok(principal) => if principal.has(Claim::Infer) {
            Ok(principal)
        } else {
            Err(FORBIDDEN)
        },
        Err(_) => Err(UNAUTHORIZED),
    }
}

/// Nobody without a configured secret gets in, to either stream.
pub proof fn strangers_are_refused(
    tokens: Seq<(Seq<char>, PrincipalValue)>,
    value: Option<Seq<char>>,
)
    requires
        value is Some ==> (auth::bearer_secret(value->0) is Some ==> forall|i: int|
            0 <= i < tokens.len() ==> (#[trigger] tokens[i]).0 != auth::bearer_secret(
                value->0,
            )->0),
    ensures
        events_answer(selected(tokens, value)) == Err::<PrincipalValue, u16>(UNAUTHORIZED),
        inference_answer(selected(tokens, value)) == Err::<PrincipalValue, u16>(UNAUTHORIZED),
{
    if value is Some && auth::bearer_secret(value->0) is Some {
        auth::only_configured_secrets_are_known(tokens, auth::bearer_secret(value->0)->0);
    }
}

/// The notice that a resume position is out of range.
pub open spec fn out_of_range_event(position: u64, tail: u64) -> EventValue {
    event_of(
        "error.resume_out_of_range"@,
        json::empty_object().set("position"@, jnumber(position)).set("tail"@, jnumber(tail)),
    )
}

/// The notice that history could not be replayed.
pub open spec fn replay_failed_event(error: Seq<char>) -> EventValue {
    event_of("error.replay_failed"@, json::empty_object().set("error"@, jtext(error)))
}

/// The notice that a replay has caught up.
pub open spec fn caught_up_event(tail: u64) -> EventValue {
    event_of(DAEMON_CAUGHT_UP@, json::empty_object().set("tail"@, jnumber(tail)))
}

/// The notice that a client fell behind.
pub open spec fn lagged_event(missed: u64) -> EventValue {
    event_of("error.lagged"@, json::empty_object().set("missed"@, jnumber(missed)))
}

/// The notice that history could not be replayed.
pub fn replay_failed(error: &str) -> (r: Event)
    ensures
        r@ == replay_failed_event(error@),
{
    Event::new("error.replay_failed", Json::object().with("error", Json::text(error)))
}

/// Whether a resume position is one of a log whose last committed position is
/// `tail`, or the one after it.
pub open spec fn in_range(position: u64, tail: u64) -> bool {
    1 <= position <= tail + 1
}

/// What a connection is sent: whether it reads, whether it resumes, whether it is
/// still to be told that it has caught up, and the last position it was sent.
#[derive(Debug)]
pub struct EventStream {
    can_read: bool,
    resuming: bool,
    catching_up: bool,
    last_sent: u64,
}

/// What a connection is sent, as plain values.
#[verifier::ext_equal]
pub struct StreamState {
    pub can_read: bool,
    pub resuming: bool,
    pub catching_up: bool,
    pub last_sent: u64,
}

impl View for EventStream {
    type V = StreamState;

    closed spec fn view(&self) -> StreamState {
        StreamState {
            can_read: self.can_read,
            resuming: self.resuming,
            catching_up: self.catching_up,
            last_sent: self.last_sent,
        }
    }
}

/// How a connection starts.
#[derive(Debug)]
pub enum Opening {
    /// Send this notice and close.
    Refuse(Event),
    /// Replay history from this position, then stream live.
    Replay(u64),
    /// Stream live only, or publish only.
    Live,
}

/// The stream of a connection that was just made: it is to be told when it has
/// caught up exactly when history is replayed to it.
pub open spec fn opened(principal: PrincipalValue, from: Option<u64>, tail: u64) -> StreamState {
    StreamState {
        can_read: principal.claims.contains(Claim::Read),
        resuming: from is Some,
        catching_up: principal.claims.contains(Claim::Read) && from is Some && in_range(
            from->0,
            tail,
        ),
        last_sent: match from {
            Some(position) => if position == 0 {
                0
            } else {
                (position - 1) as u64
            },
            None => 0,
        },
    }
}

/// Whether an opening is the one that a connection asks for: a reader that
/// resumes is replayed from its position, which must be in range.
pub open spec fn opening_of(
    principal: PrincipalValue,
    from: Option<u64>,
    tail: u64,
    opening: Opening,
) -> bool {
    match from {
        Some(position) => if !principal.claims.contains(Claim::Read) {
            opening is Live
        } else if in_range(position, tail) {
            opening == Opening::Replay(position)
        } else {
            opening is Refuse && opening->Refuse_0@ == out_of_range_event(position, tail)
        },
        None => opening is Live,
    }
}

/// What to do about a client that fell behind.
#[derive(Debug)]
pub enum Lag {
    /// Re-read the log from this position.
    Replay(u64),
    /// Send this notice.
    Notice(Event),
}

/// The last position after a recorded event was due: it is sent when it is new.
pub open spec fn advanced(last_sent: u64, position: u64) -> u64 {
    if position > last_sent {
        position
    } else {
        last_sent
    }
}

/// The positions that are sent of those that come up.
pub open spec fn sent(last_sent: u64, positions: Seq<u64>) -> Seq<u64>
    decreases positions.len(),
{
    if positions.len() == 0 {
        Seq::empty()
    } else {
        let earlier = positions.drop_last();
        if positions.last() > last_sent_after(last_sent, earlier) {
            sent(last_sent, earlier).push(positions.last())
        } else {
            sent(last_sent, earlier)
        }
    }
}

/// The last position sent after positions came up.
pub open spec fn last_sent_after(last_sent: u64, positions: Seq<u64>) -> u64
    decreases positions.len(),
{
    if positions.len() == 0 {
        last_sent
    } else {
        advanced(last_sent_after(last_sent, positions.drop_last()), positions.last())
    }
}

/// Resuming never skips or repeats positions: of a run of positions that starts
/// no later than the next one due, exactly those that are due are sent, in
/// order.
pub proof fn resuming_never_skips_or_repeats(last_sent: u64, start: u64, count: nat)
    requires
        start <= last_sent + 1,
        start + count <= u64::MAX,
    ensures
        ({
            let run = Seq::new(count, |i: int| (start + i) as u64);
            let due = if start + count > last_sent + 1 {
                (start + count - last_sent - 1) as nat
            } else {
                0
            };
            &&& sent(last_sent, run) == Seq::new(due, |i: int| (last_sent + 1 + i) as u64)
            &&& last_sent_after(last_sent, run) == last_sent + due
        }),
    decreases count,
{
    let run = Seq::new(count, |i: int| (start + i) as u64);
    if count == 0 {
        assert(sent(last_sent, run) =~= Seq::<u64>::empty());
    } else {
        let fewer = (count - 1) as nat;
        resuming_never_skips_or_repeats(last_sent, start, fewer);
        let earlier = Seq::new(fewer, |i: int| (start + i) as u64);
        assert(run.drop_last() =~= earlier);
        let due = if start + count > last_sent + 1 {
            (start + count - last_sent - 1) as nat
        } else {
            0
        };
        assert(sent(last_sent, run) =~= Seq::new(due, |i: int| (last_sent + 1 + i) as u64));
    }
}

/// Whatever comes up, what is sent is strictly ascending and new.
pub proof fn nothing_is_sent_twice(last_sent: u64, positions: Seq<u64>)
    ensures
        forall|i: int, j: int|
            #![trigger sent(last_sent, positions)[i], sent(last_sent, positions)[j]]
            0 <= i < j < sent(last_sent, positions).len() ==> sent(last_sent, positions)[i] < sent(
                last_sent,
                positions,
            )[j],
        forall|i: int|
            0 <= i < sent(last_sent, positions).len() ==> last_sent < #[trigger] sent(
                last_sent,
                positions,
            )[i] <= last_sent_after(last_sent, positions),
        last_sent <= last_sent_after(last_sent, positions),
    decreases positions.len(),
{
    if positions.len() > 0 {
        let earlier = positions.drop_last();
        nothing_is_sent_twice(last_sent, earlier);
        let before = sent(last_sent, earlier);
        let now = sent(last_sent, positions);
        assert forall|i: int| 0 <= i < now.len() implies last_sent < #[trigger] now[i]
            <= last_sent_after(last_sent, positions) by {
            if i < before.len() {
                assert(now[i] == before[i]);
            }
        }
        assert forall|i: int, j: int|
            #![trigger now[i], now[j]]
            0 <= i < j < now.len() implies now[i] < now[j] by {
            assert(now[i] == before[i]);
            if j < before.len() {
                assert(now[j] == before[j]);
            }
        }
    }
}

/// What comes up on a connection.
pub enum StreamMove {
    /// A recorded event at a position.
    Recorded(u64),
    /// The end of a replay, at a tail.
    Replayed(u64),
}

/// The stream after something came up, and the notice that is due.
pub open spec fn moved(state: StreamState, happened: StreamMove) -> (
    StreamState,
    Option<EventValue>,
) {
    match happened {
        StreamMove::Recorded(position) => (
            StreamState { last_sent: advanced(state.last_sent, position), ..state },
            None,
        ),
        StreamMove::Replayed(tail) => (
            StreamState { catching_up: false, ..state },
            if state.catching_up {
                Some(caught_up_event(tail))
            } else {
                None
            },
        ),
    }
}

/// The stream after all that came up.
pub open spec fn moved_on(state: StreamState, moves: Seq<StreamMove>) -> StreamState
    decreases moves.len(),
{
    if moves.len() == 0 {
        state
    } else {
        moved(moved_on(state, moves.drop_last()), moves.last()).0
    }
}

/// The notices that were due, in order.
pub open spec fn notices(state: StreamState, moves: Seq<StreamMove>) -> Seq<EventValue>
    decreases moves.len(),
{
    if moves.len() == 0 {
        Seq::empty()
    } else {
        let earlier = notices(state, moves.drop_last());
        match moved(moved_on(state, moves.drop_last()), moves.last()).1 {
            Some(notice) => earlier.push(notice),
            None => earlier,
        }
    }
}

/// The tail at which the first replay ended, if one did.
pub open spec fn first_replay_end(moves: Seq<StreamMove>) -> Option<u64>
    decreases moves.len(),
{
    if moves.len() == 0 {
        None
    } else {
        match (first_replay_end(moves.drop_last()), moves.last()) {
            (None, StreamMove::Replayed(tail)) => Some(tail),
            (earlier, _) => earlier,
        }
    }
}

/// A connection that history is replayed to is told that it has caught up once,
/// when the first replay ends; any other connection never is.
pub proof fn catching_up_is_told_once(state: StreamState, moves: Seq<StreamMove>)
    ensures
        notices(state, moves) == match first_replay_end(moves) {
            Some(tail) => if state.catching_up {
                seq![caught_up_event(tail)]
            } else {
                Seq::empty()
            },
            None => Seq::empty(),
        },
        moved_on(state, moves).catching_up == (state.catching_up && first_replay_end(
            moves,
        ) is None),
    decreases moves.len(),
{
    if moves.len() > 0 {
        catching_up_is_told_once(state, moves.drop_last());
    }
}

/// Whether `lag` is the answer to a client that missed events: one that resumes is
/// replayed from the next position due, and any other is told.
pub open spec fn lag_answer(state: StreamState, missed: u64, lag: Lag) -> bool {
    if state.resuming {
        lag == Lag::Replay(
            if state.last_sent == u64::MAX {
                u64::MAX
            } else {
                (state.last_sent + 1) as u64
            },
        )
    } else {
        lag is Notice && lag->Notice_0@ == lagged_event(missed)
    }
}

impl EventStream {
    /// The stream of a connection, and how it starts. `tail` is the last
    /// committed position of the log.
    pub fn open(principal: &Principal, from: Option<u64>, tail: u64) -> (r: (EventStream, Opening))
        ensures
            r.0@ == opened(principal@, from, tail),
            opening_of(principal@, from, tail, r.1),
    {
        let can_read = principal.has(Claim::Read);
        let last_sent: u64 = match from {
            Some(position) => if position == 0 {
                0
            } else {
                position - 1
            },
            None => 0,
        };
        let opening = match from {
            Some(position) => if !can_read {
                Opening::Live
            } else if position == 0 || position - 1 > tail {
                Opening::Refuse(
                    Event::new(
                        "error.resume_out_of_range",
                        Json::object().with("position", Json::unsigned(position)).with(
                            "tail",
                            Json::unsigned(tail),
                        ),
                    ),
                )
            } else {
                Opening::Replay(position)
            },
            None => Opening::Live,
        };
        let catching_up = matches!(opening, Opening::Replay(_));
        let stream = EventStream { can_read, resuming: from.is_some(), catching_up, last_sent };
        (stream, opening)
    }

    /// Whether recorded events are sent at all.
    pub fn reads(&self) -> (r: bool)
        ensures
            r == self@.can_read,
    {
        self.can_read
    }

    /// A replay ended, with `tail` the last committed position of the log: the
    /// notice that the client has caught up, if it is still to be told.
    pub fn replayed(&mut self, tail: u64) -> (r: Option<Event>)
        ensures
            final(self)@ == moved(old(self)@, StreamMove::Replayed(tail)).0,
            match r {
                Some(notice) => moved(old(self)@, StreamMove::Replayed(tail)).1 == Some(notice@),
                None => moved(old(self)@, StreamMove::Replayed(tail)).1 is None,
            },
    {
        if !self.catching_up {
            return None;
        }
        self.catching_up = false;
        Some(Event::new(DAEMON_CAUGHT_UP, Json::object().with("tail", Json::unsigned(tail))))
    }

    /// A recorded event came up at `position`: whether it is to be sent. One that
    /// was sent already is not.
    pub fn recorded(&mut self, position: u64) -> (r: bool)
        ensures
            r == (position > old(self)@.last_sent),
            final(self)@ == moved(old(self)@, StreamMove::Recorded(position)).0,
    {
        if position <= self.last_sent {
            return false;
        }
        self.last_sent = position;
        true
    }

    /// The client fell behind by `missed` events: while resuming, the log is
    /// re-read from the next position due, so nothing is silently skipped.
    pub fn lagged(&self, missed: u64) -> (r: Lag)
        ensures
            if self@.resuming {
                r == Lag::Replay(
                    if self@.last_sent == u64::MAX {
                        u64::MAX
                    } else {
                        (self@.last_sent + 1) as u64
                    },
                )
            } else {
                r is Notice && r->Notice_0@ == lagged_event(missed)
            },
            lag_answer(self@, missed, r),
    {
        if self.resuming {
            Lag::Replay(self.last_sent.saturating_add(1))
        } else {
            Lag::Notice(
                Event::new("error.lagged", Json::object().with("missed", Json::unsigned(missed))),
            )
        }
    }
}

/// Errors met while replaying history to a connection.
#[derive(Debug)]
pub enum ReplayError {
    /// Opening or reading the log failed.
    Log(LogError),
    /// The blocking replay task failed to join.
    Join(String),
    /// Sending a replayed event failed.
    Socket(String),
}

/// The error in words.
pub open spec fn replay_error_text(error: ReplayError) -> Seq<char> {
    match error {
        ReplayError::Log(LogError::Io(error)) => error@,
        ReplayError::Log(LogError::Json(error)) => "event is not valid JSON: "@ + error@,
        ReplayError::Log(LogError::WriterStopped) => "the event log writer has stopped"@,
        ReplayError::Join(error) => "the replay task failed: "@ + error@,
        ReplayError::Socket(error) => error@,
    }
}

impl ReplayError {
    /// The error in words.
    pub fn to_string(&self) -> (r: String)
        ensures
            r@ == match *self {
                ReplayError::Log(LogError::Io(error)) => error@,
                ReplayError::Log(LogError::Json(error)) => "event is not valid JSON: "@ + error@,
                ReplayError::Log(LogError::WriterStopped) => "the event log writer has stopped"@,
                ReplayError::Join(error) => "the replay task failed: "@ + error@,
                ReplayError::Socket(error) => error@,
            },
            r@ == replay_error_text(*self),
    {
        match self {
            ReplayError::Log(error) => error.to_string(),
            ReplayError::Join(error) => text::concat("the replay task failed: ", error.as_str()),
            ReplayError::Socket(error) => error.clone(),
        }
    }
}

/// Whether an event type is reserved to daemon-authority publishers.
pub open spec fn reserved(kind: Seq<char>) -> bool {
    text::has_prefix(kind, "error."@) || text::has_prefix(kind, "sandbox."@) || text::has_prefix(
        kind,
        "session."@,
    )
}

/// Whether an event type is reserved to daemon-authority publishers (`error.*`,
/// `sandbox.*`, `session.*`).
#[must_use]
pub fn is_reserved(kind: &str) -> (r: bool)
    ensures
        r == reserved(kind@),
{
    text::starts_with(kind, "error.") || text::starts_with(kind, "sandbox.") || text::starts_with(
        kind,
        "session.",
    )
}

/// An inbound frame.
#[derive(Debug)]
pub enum Inbound {
    /// A text frame that is no event, and why.
    Invalid(String),
    /// A text frame that is an event of this type.
    Event(String),
    /// The client closes the connection.
    Close,
    /// A binary, ping, or pong frame.
    Other,
}

/// What to do about an inbound frame.
#[derive(Debug)]
pub enum InboundStep {
    /// Answer with this notice; the connection stays open.
    Reply(Event),
    /// Publish the event durably, stamped with this source and the current time.
    Publish(String),
    /// Nothing.
    Ignore,
    /// Acknowledge the close.
    Close,
}

/// The notice that an event is invalid.
pub open spec fn invalid_event(error: Seq<char>) -> EventValue {
    event_of("error.invalid_event"@, json::empty_object().set("error"@, jtext(error)))
}

/// The notice that a token does not grant a claim to publish.
pub open spec fn cannot_publish_event() -> EventValue {
    event_of(
        "error.unauthorized"@,
        json::empty_object().set(
            "error"@,
            jtext("the token does not grant the publish claim"@),
        ),
    )
}

/// The notice that a token does not grant authority over an event type.
pub open spec fn no_authority_event(kind: Seq<char>) -> EventValue {
    event_of(
        "error.unauthorized"@,
        json::empty_object().set(
            "error"@,
            jtext("the token does not grant the authority claim"@),
        ).set("type"@, jtext(kind)),
    )
}

/// The notice that an event could not be published.
pub open spec fn publish_failed_event(error: Seq<char>) -> EventValue {
    event_of("error.publish_failed"@, json::empty_object().set("error"@, jtext(error)))
}

/// Whether a step is the answer to an inbound frame: a text frame needs the
/// publish claim before it is looked at, must be an event, and a reserved type
/// needs authority too.
pub open spec fn inbound_answer(
    principal: PrincipalValue,
    inbound: Inbound,
    step: InboundStep,
) -> bool {
    match inbound {
        Inbound::Close => step is Close,
        Inbound::Other => step is Ignore,
        Inbound::Invalid(error) => step is Reply && step->Reply_0@ == if principal.claims.contains(
            Claim::Publish,
        ) {
            invalid_event(error@)
        } else {
            cannot_publish_event()
        },
        Inbound::Event(kind) => if !principal.claims.contains(Claim::Publish) {
            step is Reply && step->Reply_0@ == cannot_publish_event()
        } else if reserved(kind@) && !principal.claims.contains(Claim::Authority) {
            step is Reply && step->Reply_0@ == no_authority_event(kind@)
        } else {
            step is Publish && step->Publish_0@ == principal.source
        },
    }
}

/// Nothing is published without the publish claim, and no reserved type without
/// authority; what is published carries the publisher's own source, whatever the
/// client wrote.
pub proof fn only_the_authorized_publish(
    principal: PrincipalValue,
    inbound: Inbound,
    step: InboundStep,
)
    requires
        inbound_answer(principal, inbound, step),
        step is Publish,
    ensures
        inbound is Event,
        principal.claims.contains(Claim::Publish),
        reserved(inbound->Event_0@) ==> principal.claims.contains(Claim::Authority),
        step->Publish_0@ == principal.source,
{
}

fn notice(kind: &str, error: &str) -> (r: Event)
    ensures
        r@ == event_of(kind@, json::empty_object().set("error"@, jtext(error@))),
{
    Event::new(kind, Json::object().with("error", Json::text(error)))
}

/// Handles one inbound frame.
///
/// A text frame is published only when the connection holds the publish claim;
/// a reserved type additionally requires the authority claim, and the daemon
/// overwrites the source and the time before the durable append. Each refusal
/// is answered with a notice rather than closing the connection. Binary, ping,
/// and pong frames are ignored.
pub fn handle_inbound(principal: &Principal, inbound: Inbound) -> (r: InboundStep)
    ensures
        inbound_answer(principal@, inbound, r),
{
    match inbound {
        Inbound::Close => InboundStep::Close,
        Inbound::Other => InboundStep::Ignore,
        Inbound::Invalid(error) => {
            if !principal.has(Claim::Publish) {
                return InboundStep::Reply(
                    notice("error.unauthorized", "the token does not grant the publish claim"),
                );
            }
            InboundStep::Reply(notice("error.invalid_event", error.as_str()))
        },
        Inbound::Event(kind) => {
            if !principal.has(Claim::Publish) {
                return InboundStep::Reply(
                    notice("error.unauthorized", "the token does not grant the publish claim"),
                );
            }
            if is_reserved(kind.as_str()) && !principal.has(Claim::Authority) {
                return InboundStep::Reply(
                    Event::new(
                        "error.unauthorized",
                        Json::object().with(
                            "error",
                            Json::text("the token does not grant the authority claim"),
                        ).with("type", Json::text(kind.as_str())),
                    ),
                );
            }
            InboundStep::Publish(principal.source().to_owned())
        },
    }
}

/// Where an event comes from and when it was published.
#[derive(Debug)]
pub struct Provenance {
    /// The publisher.
    pub source: String,
    /// The time of publication, when the clock could be read.
    pub time: Option<String>,
}

impl Provenance {
    /// The provenance of an event that `source` publishes at `now`: whatever the
    /// client claims is overwritten.
    pub fn overwritten(self, source: String, now: Option<String>) -> (r: Provenance)
        ensures
            r == (Provenance { source, time: now }),
    {
        Provenance { source, time: now }
    }
}

/// The notice that an event could not be published durably.
pub fn publish_failed(error: &str) -> (r: Event)
    ensures
        r@ == publish_failed_event(error@),
{
    notice("error.publish_failed", error)
}

/// What happened while a model response is streamed.
#[derive(Clone, Copy, Debug, PartialEq, Eq, Structural)]
pub enum StreamEvent {
    /// A delta was sent; whether it ends the response.
    Sent(bool),
    /// A delta could not be sent.
    SendFailed,
    /// The response ended without a terminal delta.
    Ended,
    /// The client closed the connection, or it failed.
    Gone,
    /// The client sent something while the response is streamed.
    Frame,
}

/// What becomes of a model response.
#[derive(Clone, Copy, Debug, PartialEq, Eq, Structural)]
pub enum StreamStep {
    /// It goes on.
    Continue,
    /// It is over; the connection stays open for the next request.
    Finish,
    /// The connection is over.
    Close,
}

/// What becomes of a model response after an event.
pub open spec fn streamed(event: StreamEvent) -> StreamStep {
    match event {
        StreamEvent::Sent(true) => StreamStep::Finish,
        StreamEvent::Sent(false) => StreamStep::Continue,
        StreamEvent::SendFailed => StreamStep::Close,
        StreamEvent::Ended => StreamStep::Finish,
        StreamEvent::Gone => StreamStep::Close,
        StreamEvent::Frame => StreamStep::Continue,
    }
}

/// What becomes of a model response: it ends at the first terminal delta, frames
/// arriving mid-stream are ignored, and a client that is gone ends it all.
pub fn stream_step(event: StreamEvent) -> (r: StreamStep)
    ensures
        r == match event {
            StreamEvent::Sent(terminal) => if terminal {
                StreamStep::Finish
            } else {
                StreamStep::Continue
            },
            StreamEvent::SendFailed => StreamStep::Close,
            StreamEvent::Ended => StreamStep::Finish,
            StreamEvent::Gone => StreamStep::Close,
            StreamEvent::Frame => StreamStep::Continue,
        },
        r == streamed(event),
{
    match event {
        StreamEvent::Sent(true) => StreamStep::Finish,
        StreamEvent::Sent(false) => StreamStep::Continue,
        StreamEvent::SendFailed => StreamStep::Close,
        StreamEvent::Ended => StreamStep::Finish,
        StreamEvent::Gone => StreamStep::Close,
        StreamEvent::Frame => StreamStep::Continue,
    }
}

/// The message of the delta that answers a request that cannot be read.
pub fn invalid_request(error: &str) -> (r: String)
    ensures
        r@ == "invalid inference request: "@ + error@,
{
    text::concat("invalid inference request: ", error)
}

} // verus!
