//! The daemon-side session manager: it launches and supervises a sandboxed
//! node.
//!
//! The manager reacts to a `session.requested` event by starting the configured
//! node, supervises its lifetime, and reports the managed session's lifecycle as
//! `session.*` events.
//!
//! The manager runs the *configured* command, never a command carried in the
//! event: `session.requested` supplies only session parameters (above all a
//! `session_id`), so a client cannot turn it into arbitrary execution.
//!
//! Supervision is opt-in: a session may be restarted up to a bounded number of
//! times when it exits non-zero, and may be given a maximum lifetime, after
//! which it is killed. A client can ask for the active sessions with a
//! `session.status.requested` event.
//!
//! The durable log is the source of truth for the active set across a daemon
//! restart: on startup the manager folds the recorded lifecycle and fails every
//! session the log left open, because a restarted daemon cannot re-adopt a
//! process it did not spawn.

use crate::approvals::{self, KeyValue, PendingApprovals, RequestKey};
use crate::bridge::{
    self, jnumber, jtext, session_subject, Action, ActionValue, Protocol, SessionContext,
    SESSION_PERMISSION_REQUESTED, SUBJECT_PREFIX,
};
use crate::confinement::Policy;
use crate::events::{event_of, Event, EventValue};
use crate::json::{self, Json, JsonValue};
use crate::log::LogError;
use crate::text;
use crate::textmap::TextMap;
use vstd::prelude::*;

verus! {

broadcast use vstd::string::group_string_axioms;

/// A client requests that the daemon start a managed session. Reserved to
/// daemon-authority publishers.
pub const SESSION_REQUESTED: &'static str = "session.requested";

/// A client requests the list of active managed sessions.
pub const SESSION_STATUS_REQUESTED: &'static str = "session.status.requested";

/// The managed session's sandboxed process started.
pub const SESSION_STARTED: &'static str = "session.started";

/// The managed session's process restarted after a non-zero exit.
pub const SESSION_RESTARTED: &'static str = "session.restarted";

/// The managed session's process exited.
pub const SESSION_EXITED: &'static str = "session.exited";

/// The managed session could not be started, supervised, or was stopped.
pub const SESSION_FAILED: &'static str = "session.failed";

/// The response to a `session.status.requested`.
pub const SESSION_STATUS: &'static str = "session.status";

/// How many milliseconds the reader of a child's output is given to flush
/// buffered frames after the child exits, before it is aborted. A descendant
/// that inherited the write end would otherwise keep the stream from ending.
pub const FLUSH_GRACE_MS: u64 = 2000;

/// Errors returned while building or running the session manager.
#[derive(Debug)]
pub enum SessionError {
    /// The manager's sandbox could not be built from the policy.
    Sandbox(String),
    /// The manager could not read the durable log to reconcile its state.
    Log(LogError),
}

/// The error in words.
pub open spec fn session_error_text(error: SessionError) -> Seq<char> {
    match error {
        SessionError::Sandbox(error) => "the session sandbox could not be built: "@
            + error@,
        SessionError::Log(error) => "the session log could not be read: "@ + match error {
            LogError::Io(error) => error@,
            LogError::Json(error) => "event is not valid JSON: "@ + error@,
            LogError::WriterStopped => "the event log writer has stopped"@,
        },
    }
}

impl SessionError {
    /// The error in words, with those of a log error as `log` writes them.
    pub fn to_string(&self) -> (r: String)
        ensures
            r@ == match *self {
                SessionError::Sandbox(error) => "the session sandbox could not be built: "@
                    + error@,
                SessionError::Log(error) => "the session log could not be read: "@ + match error {
                    LogError::Io(error) => error@,
                    LogError::Json(error) => "event is not valid JSON: "@ + error@,
                    LogError::WriterStopped => "the event log writer has stopped"@,
                },
            },
            r@ == session_error_text(*self),
    {
        match self {
            SessionError::Sandbox(error) => text::concat(
                "the session sandbox could not be built: ",
                error.as_str(),
            ),
            SessionError::Log(error) => text::concat(
                "the session log could not be read: ",
                error.to_string().as_str(),
            ),
        }
    }
}

/// How the manager supervises a session's process.
#[derive(Clone, Copy, Debug, PartialEq, Eq, Structural)]
pub struct Supervision {
    /// How many times to restart a session that exits non-zero before giving
    /// up. `0` never restarts (the default).
    pub max_restarts: u32,
    /// The delay before a restart, in milliseconds.
    pub restart_backoff: u64,
    /// A maximum lifetime in milliseconds; a session that outlives it is killed.
    /// `None` lets the session run until it exits (the default).
    pub lifetime: Option<u64>,
}

impl Default for Supervision {
    fn default() -> (r: Supervision)
        ensures
            r == (Supervision { max_restarts: 0, restart_backoff: 1000, lifetime: None }),
    {
        Supervision { max_restarts: 0, restart_backoff: 1000, lifetime: None }
    }
}

/// The fields every `session.*` event carries.
pub open spec fn session_data(session_id: Seq<char>, agent_id: Seq<char>) -> JsonValue {
    json::empty_object().set("session_id"@, jtext(session_id)).set("agent_id"@, jtext(agent_id))
}

/// The event that a session started.
pub open spec fn started_event(session_id: Seq<char>, agent_id: Seq<char>) -> EventValue {
    event_of(SESSION_STARTED@, session_data(session_id, agent_id))
}

/// The event that a session restarted.
pub open spec fn restarted_event(
    session_id: Seq<char>,
    agent_id: Seq<char>,
    restarts: u32,
) -> EventValue {
    event_of(
        SESSION_RESTARTED@,
        session_data(session_id, agent_id).set("restarts"@, jnumber(restarts as u64)),
    )
}

/// The event that a session exited.
pub open spec fn exited_event(
    session_id: Seq<char>,
    agent_id: Seq<char>,
    exit_code: i32,
    duration_ms: u64,
) -> EventValue {
    event_of(
        SESSION_EXITED@,
        session_data(session_id, agent_id).set(
            "exit_code"@,
            JsonValue::Number(json::integer_text(exit_code as int)),
        ).set("duration_ms"@, jnumber(duration_ms)),
    )
}

/// The event that a session failed.
pub open spec fn failed_event(
    session_id: Seq<char>,
    agent_id: Seq<char>,
    error: Seq<char>,
) -> EventValue {
    event_of(SESSION_FAILED@, session_data(session_id, agent_id).set("error"@, jtext(error)))
}

fn session_json(session_id: &str, agent_id: &str) -> (r: Json)
    ensures
        r@ == session_data(session_id@, agent_id@),
{
    Json::object().with("session_id", Json::text(session_id)).with(
        "agent_id",
        Json::text(agent_id),
    )
}

/// Builds a `session.started` event.
#[must_use]
pub fn session_started(session_id: &str, agent_id: &str) -> (r: Event)
    ensures
        r@ == started_event(session_id@, agent_id@),
{
    Event::new(SESSION_STARTED, session_json(session_id, agent_id))
}

/// Builds a `session.restarted` event.
#[must_use]
pub fn session_restarted(session_id: &str, agent_id: &str, restarts: u32) -> (r: Event)
    ensures
        r@ == restarted_event(session_id@, agent_id@, restarts),
{
    Event::new(
        SESSION_RESTARTED,
        session_json(session_id, agent_id).with("restarts", Json::unsigned(restarts as u64)),
    )
}

/// Builds a `session.exited` event.
#[must_use]
pub fn session_exited(
    session_id: &str,
    agent_id: &str,
    exit_code: i32,
    duration_ms: u64,
) -> (r: Event)
    ensures
        r@ == exited_event(session_id@, agent_id@, exit_code, duration_ms),
{
    Event::new(
        SESSION_EXITED,
        session_json(session_id, agent_id).with("exit_code", Json::integer(exit_code as i64)).with(
            "duration_ms",
            Json::unsigned(duration_ms),
        ),
    )
}

/// Builds a `session.failed` event.
#[must_use]
pub fn session_failed(session_id: &str, agent_id: &str, error: &str) -> (r: Event)
    ensures
        r@ == failed_event(session_id@, agent_id@, error@),
{
    Event::new(
        SESSION_FAILED,
        session_json(session_id, agent_id).with("error", Json::text(error)),
    )
}

/// Values, as what they are.
pub open spec fn json_views(values: Seq<Json>) -> Seq<JsonValue> {
    Seq::new(values.len(), |i: int| values[i]@)
}

/// Builds a `session.status` event carrying the active sessions.
#[must_use]
pub fn session_status(sessions: Vec<Json>) -> (r: Event)
    ensures
        r@ == event_of(
            SESSION_STATUS@,
            json::empty_object().set("sessions"@, JsonValue::Array(json_views(sessions@))),
        ),
{
    let ghost views = json_views(sessions@);
    let array = Json::Array(sessions);
    proof {
        assert(array@ == JsonValue::Array(views)) by {
            assert(array@->Array_0 =~= views);
        }
    }
    Event::new(SESSION_STATUS, Json::object().with("sessions", array))
}

/// A recorded event and its position in the log.
#[derive(Debug)]
pub struct LogEntry {
    /// The one-based position.
    pub seq: u64,
    /// The event.
    pub event: Event,
}

impl LogEntry {
    /// The event at a position.
    pub fn new(seq: u64, event: Event) -> (r: LogEntry)
        ensures
            r.seq == seq,
            r.event == event,
    {
        LogEntry { seq, event }
    }
}

/// The session an event speaks of.
pub open spec fn session_of(event: EventValue) -> Option<Seq<char>> {
    json::text_field(event.data, "session_id"@)
}

/// The restart count an event carries; one that is missing or unusable counts
/// as the first.
pub open spec fn restarts_of(event: EventValue) -> u32 {
    match json::unsigned_field(event.data, "restarts"@) {
        Some(count) => if count <= u32::MAX {
            count as u32
        } else {
            1
        },
        None => 1,
    }
}

/// The active sessions after one more event.
pub open spec fn lifecycle_step(
    active: Map<Seq<char>, u32>,
    event: EventValue,
) -> Map<Seq<char>, u32> {
    match session_of(event) {
        None => active,
        Some(session_id) => if event.kind == SESSION_STARTED@ {
            active.insert(session_id, 0)
        } else if event.kind == SESSION_RESTARTED@ {
            active.insert(session_id, restarts_of(event))
        } else if event.kind == SESSION_EXITED@ || event.kind == SESSION_FAILED@ {
            active.remove(session_id)
        } else {
            active
        },
    }
}

/// The sessions that a sequence of events leaves active, with the restart count
/// of each.
pub open spec fn active_sessions(events: Seq<EventValue>) -> Map<Seq<char>, u32>
    decreases events.len(),
{
    if events.len() == 0 {
        Map::empty()
    } else {
        lifecycle_step(active_sessions(events.drop_last()), events.last())
    }
}

/// Whether an event opens a session: it started or restarted.
pub open spec fn opens(event: EventValue, session_id: Seq<char>) -> bool {
    session_of(event) == Some(session_id) && (event.kind == SESSION_STARTED@ || event.kind
        == SESSION_RESTARTED@)
}

/// Whether an event closes a session: it exited or failed.
pub open spec fn closes(event: EventValue, session_id: Seq<char>) -> bool {
    session_of(event) == Some(session_id) && (event.kind == SESSION_EXITED@ || event.kind
        == SESSION_FAILED@)
}

proof fn lemma_kinds_differ()
    ensures
        SESSION_STARTED@ != SESSION_EXITED@,
        SESSION_STARTED@ != SESSION_FAILED@,
        SESSION_STARTED@ != SESSION_RESTARTED@,
        SESSION_RESTARTED@ != SESSION_EXITED@,
        SESSION_RESTARTED@ != SESSION_FAILED@,
        SESSION_EXITED@ != SESSION_FAILED@,
{
    reveal_strlit("session.started");
    reveal_strlit("session.restarted");
    reveal_strlit("session.exited");
    reveal_strlit("session.failed");
    assert(SESSION_STARTED@.len() == 15);
    assert(SESSION_RESTARTED@.len() == 17);
    assert(SESSION_EXITED@.len() == 14);
    assert(SESSION_FAILED@.len() == 14);
    assert(SESSION_EXITED@[8] == 'e' && SESSION_FAILED@[8] == 'f');
}

/// The active sessions are those the log left open: each was opened by some
/// event, and no later event closed it.
pub proof fn active_sessions_are_those_left_open(events: Seq<EventValue>, session_id: Seq<char>)
    ensures
        active_sessions(events).contains_key(session_id) <==> exists|i: int|
            0 <= i < events.len() && opens(#[trigger] events[i], session_id) && forall|j: int|
                i < j < events.len() ==> !closes(#[trigger] events[j], session_id),
    decreases events.len(),
{
    lemma_kinds_differ();
    if events.len() > 0 {
        let init = events.drop_last();
        let last = events.last();
        active_sessions_are_those_left_open(init, session_id);
        if active_sessions(events).contains_key(session_id) {
            if opens(last, session_id) {
                assert(opens(events[events.len() - 1], session_id));
            } else {
                assert(active_sessions(init).contains_key(session_id));
                let i = choose|i: int|
                    0 <= i < init.len() && opens(#[trigger] init[i], session_id) && forall|j: int|
                        i < j < init.len() ==> !closes(#[trigger] init[j], session_id);
                assert(opens(events[i], session_id));
                assert forall|j: int| i < j < events.len() implies !closes(
                    #[trigger] events[j],
                    session_id,
                ) by {
                    if j < init.len() {
                        assert(init[j] == events[j]);
                    }
                }
            }
        }
        if exists|i: int|
            0 <= i < events.len() && opens(#[trigger] events[i], session_id) && forall|j: int|
                i < j < events.len() ==> !closes(#[trigger] events[j], session_id) {
            let i = choose|i: int|
                0 <= i < events.len() && opens(#[trigger] events[i], session_id) && forall|j: int|
                    i < j < events.len() ==> !closes(#[trigger] events[j], session_id);
            if i < init.len() {
                assert(opens(init[i], session_id));
                assert forall|j: int| i < j < init.len() implies !closes(
                    #[trigger] init[j],
                    session_id,
                ) by {
                    assert(init[j] == events[j]);
                }
                assert(!closes(events[events.len() - 1], session_id));
            }
        }
    }
}

/// Replaying a request, or anything else that is no lifecycle event, never
/// starts or ends a session.
pub proof fn replaying_a_request_starts_nothing(events: Seq<EventValue>, event: EventValue)
    requires
        event.kind == SESSION_REQUESTED@ || event.kind == SESSION_STATUS_REQUESTED@ || event.kind
            == SESSION_STATUS@,
    ensures
        active_sessions(events.push(event)) == active_sessions(events),
{
    reveal_strlit("session.requested");
    reveal_strlit("session.status.requested");
    reveal_strlit("session.status");
    reveal_strlit("session.started");
    reveal_strlit("session.restarted");
    reveal_strlit("session.exited");
    reveal_strlit("session.failed");
    assert(SESSION_REQUESTED@.len() == 17 && SESSION_REQUESTED@[10] == 'q');
    assert(SESSION_RESTARTED@.len() == 17 && SESSION_RESTARTED@[10] == 's');
    assert(SESSION_STATUS_REQUESTED@.len() == 24);
    assert(SESSION_STATUS@.len() == 14 && SESSION_STATUS@[8] == 's');
    assert(SESSION_EXITED@.len() == 14 && SESSION_EXITED@[8] == 'e');
    assert(SESSION_FAILED@.len() == 14 && SESSION_FAILED@[8] == 'f');
    assert(SESSION_STARTED@.len() == 15);
    assert(events.push(event).drop_last() =~= events);
}

/// Whether a fold of the log ends before an entry: it cannot be read, or is past
/// the snapshot.
pub open spec fn ends_fold(entry: Result<LogEntry, LogError>, through: u64) -> bool {
    match entry {
        Ok(entry) => entry.seq > through,
        Err(_) => true,
    }
}

/// How many entries a fold of the log up to `through` takes.
pub open spec fn folded(entries: Seq<Result<LogEntry, LogError>>, through: u64) -> int
    decreases entries.len(),
{
    if entries.len() == 0 || ends_fold(entries[0], through) {
        0
    } else {
        1 + folded(entries.skip(1), through)
    }
}

/// The events of entries that were read.
pub open spec fn entry_events(entries: Seq<Result<LogEntry, LogError>>) -> Seq<EventValue> {
    Seq::new(entries.len(), |i: int| entries[i]->Ok_0.event@)
}

proof fn lemma_folded(entries: Seq<Result<LogEntry, LogError>>, through: u64, at: int)
    requires
        0 <= at <= entries.len(),
        forall|k: int| 0 <= k < at ==> !ends_fold(#[trigger] entries[k], through),
        at < entries.len() ==> ends_fold(entries[at], through),
    ensures
        folded(entries, through) == at,
    decreases entries.len(),
{
    if at > 0 {
        let rest = entries.skip(1);
        assert(!ends_fold(entries[0], through));
        assert forall|k: int| 0 <= k < at - 1 implies !ends_fold(#[trigger] rest[k], through) by {
            assert(rest[k] == entries[k + 1]);
        }
        if at < entries.len() {
            assert(rest[at - 1] == entries[at]);
        }
        lemma_folded(rest, through, at - 1);
    }
}

fn fold_event(active: &mut TextMap<u32>, event: &Event)
    ensures
        final(active)@ == lifecycle_step(old(active)@, event@),
{
    let session_id = match event.data.get_str("session_id") {
        Some(session_id) => session_id,
        None => return ,
    };
    let kind = event.kind.as_str();
    if text::same(kind, SESSION_STARTED) {
        active.insert(session_id.to_owned(), 0);
    } else if text::same(kind, SESSION_RESTARTED) {
        let restarts: u32 = match event.data.get_u64("restarts") {
            Some(count) => if count <= u32::MAX as u64 {
                count as u32
            } else {
                1
            },
            None => 1,
        };
        active.insert(session_id.to_owned(), restarts);
    } else if text::same(kind, SESSION_EXITED) || text::same(kind, SESSION_FAILED) {
        let _ = active.remove(session_id);
    }
}

/// A fold of the log's session lifecycle events up to a snapshot, one entry at a
/// time, so that the log need not be held in memory.
pub struct LifecycleFold {
    active: TextMap<u32>,
    through: u64,
}

/// A fold, as plain values: the sessions left open by the entries it took, and the
/// position of the snapshot.
#[verifier::ext_equal]
pub struct FoldState {
    pub active: Map<Seq<char>, u32>,
    pub through: u64,
}

impl View for LifecycleFold {
    type V = FoldState;

    closed spec fn view(&self) -> FoldState {
        FoldState { active: self.active@, through: self.through }
    }
}

/// Whether a fold, and whether it took an entry, are the answer to that entry: it is
/// taken up to the snapshot.
pub open spec fn taken(
    before: FoldState,
    seq: u64,
    event: EventValue,
    after: FoldState,
    r: bool,
) -> bool {
    &&& r == (seq <= before.through)
    &&& after == if r {
        FoldState { active: lifecycle_step(before.active, event), ..before }
    } else {
        before
    }
}

impl LifecycleFold {
    /// A fold up to `through` that took no entry yet.
    pub fn new(through: u64) -> (r: LifecycleFold)
        ensures
            r@ == (FoldState { active: active_sessions(Seq::empty()), through }),
    {
        LifecycleFold { active: TextMap::new(), through }
    }

    /// Takes the next entry, unless it is past the snapshot: whether it was taken.
    pub fn take(&mut self, entry: &LogEntry) -> (r: bool)
        ensures
            r == (entry.seq <= old(self)@.through),
            final(self)@ == if r {
                FoldState { active: lifecycle_step(old(self)@.active, entry.event@), ..old(self)@ }
            } else {
                old(self)@
            },
            taken(old(self)@, entry.seq, entry.event@, final(self)@, r),
    {
        if entry.seq > self.through {
            return false;
        }
        fold_event(&mut self.active, &entry.event);
        true
    }

    /// The sessions that the entries left open, each with its restart count.
    pub fn finish(self) -> (r: TextMap<u32>)
        ensures
            r@ == self@.active,
    {
        self.active
    }
}

/// Folds the session lifecycle events up to `through` into the set of sessions
/// the log has not terminated: each surviving id with its recorded restart
/// count. An entry that cannot be read before that fails the fold.
///
/// Only `session.started`, `session.restarted`, `session.exited`, and
/// `session.failed` affect the set; `session.requested` and the status events
/// are ignored, so replaying history never launches anything.
pub fn active_after(entries: Vec<Result<LogEntry, LogError>>, through: u64) -> (r: Result<
    TextMap<u32>,
    LogError,
>)
    ensures
        ({
            let count = folded(entries@, through);
            if count < entries@.len() && entries@[count] is Err {
                r is Err && r->Err_0 == entries@[count]->Err_0
            } else {
                r is Ok && r->Ok_0@ == active_sessions(entry_events(entries@.take(count)))
            }
        }),
{
    let ghost all = entries@;
    let mut entries = entries;
    let mut fold = LifecycleFold::new(through);
    let mut i: usize = 0;
    proof {
        assert(entry_events(all.take(0)) =~= Seq::<EventValue>::empty());
    }
    while i < entries.len()
        invariant
            i <= entries@.len(),
            entries@ == all,
            forall|k: int| 0 <= k < i ==> !ends_fold(#[trigger] all[k], through),
            fold@.through == through,
            fold@.active == active_sessions(entry_events(all.take(i as int))),
        ensures
            entries@ == all,
            i <= all.len(),
            forall|k: int| 0 <= k < i ==> !ends_fold(#[trigger] all[k], through),
            i < all.len() ==> ends_fold(all[i as int], through),
            fold@.active == active_sessions(entry_events(all.take(i as int))),
        decreases entries@.len() - i,
    {
        let taken = match &entries[i] {
            Ok(entry) => fold.take(entry),
            Err(_) => false,
        };
        if !taken {
            break ;
        }
        proof {
            let next = entry_events(all.take(i + 1));
            assert(next.drop_last() =~= entry_events(all.take(i as int)));
            assert(next.last() == all[i as int]->Ok_0.event@);
        }
        i = i + 1;
    }
    proof {
        lemma_folded(all, through, i as int);
    }
    if i < entries.len() {
        if let Err(error) = entries.swap_remove(i) {
            return Err(error);
        }
    }
    Ok(fold.finish())
}

/// Whether `ids` are the sessions of a set, in order.
pub open spec fn in_order(active: Map<Seq<char>, u32>, ids: Seq<Seq<char>>) -> bool {
    &&& text::ascending(ids)
    &&& forall|id: Seq<char>| #[trigger] ids.contains(id) <==> active.contains_key(id)
}

fn ordered_ids(active: &TextMap<u32>) -> (r: Vec<String>)
    ensures
        in_order(active@, text::views(r@)),
{
    let keys = active.keys();
    let sorted = text::sort_unique(&keys);
    proof {
        text::sorting_keeps_the_items(text::views(keys@));
    }
    sorted
}

/// Events, as plain values.
pub open spec fn event_views(events: Seq<Event>) -> Seq<EventValue> {
    Seq::new(events.len(), |i: int| events[i]@)
}

/// Why a session that the previous daemon left open failed.
pub open spec fn interrupted_event(session_id: Seq<char>, agent_id: Seq<char>) -> EventValue {
    failed_event(session_id, agent_id, "the daemon restarted while the session was active"@)
}

/// The entry of an active session in a status report.
pub open spec fn status_entry(session_id: Seq<char>, restarts: u32) -> JsonValue {
    json::empty_object().set("session_id"@, jtext(session_id)).set(
        "restarts"@,
        jnumber(restarts as u64),
    )
}

/// The status report of the active sessions with these ids.
pub open spec fn status_event(active: Map<Seq<char>, u32>, ids: Seq<Seq<char>>) -> EventValue {
    event_of(
        SESSION_STATUS@,
        json::empty_object().set(
            "sessions"@,
            JsonValue::Array(
                Seq::new(ids.len(), |i: int| status_entry(ids[i], active[ids[i]])),
            ),
        ),
    )
}

/// Once every session that was left open is recorded as failed, the log leaves
/// none of them open.
pub proof fn reconciliation_closes_every_session(
    events: Seq<EventValue>,
    ids: Seq<Seq<char>>,
    agent_id: Seq<char>,
    session_id: Seq<char>,
)
    requires
        in_order(active_sessions(events), ids),
    ensures
        !active_sessions(
            events + Seq::new(ids.len(), |i: int| interrupted_event(ids[i], agent_id)),
        ).contains_key(session_id),
{
    lemma_kinds_differ();
    let failures = Seq::new(ids.len(), |i: int| interrupted_event(ids[i], agent_id));
    lemma_failures_close(events, ids, agent_id, ids.len() as int, session_id);
    assert(failures.take(ids.len() as int) =~= failures);
    if active_sessions(events).contains_key(session_id) {
        assert(ids.contains(session_id));
        let k = choose|k: int| 0 <= k < ids.len() && ids[k] == session_id;
        assert(ids.take(ids.len() as int)[k] == session_id);
    }
}

proof fn lemma_failures_close(
    events: Seq<EventValue>,
    ids: Seq<Seq<char>>,
    agent_id: Seq<char>,
    count: int,
    session_id: Seq<char>,
)
    requires
        0 <= count <= ids.len(),
    ensures
        ({
            let failures = Seq::new(ids.len(), |i: int| interrupted_event(ids[i], agent_id));
            active_sessions(events + failures.take(count)).contains_key(session_id)
                <==> active_sessions(events).contains_key(session_id) && !ids.take(
                count,
            ).contains(session_id)
        }),
    decreases count,
{
    lemma_kinds_differ();
    let failures = Seq::new(ids.len(), |i: int| interrupted_event(ids[i], agent_id));
    if count == 0 {
        assert(events + failures.take(0) =~= events);
    } else {
        lemma_failures_close(events, ids, agent_id, count - 1, session_id);
        let whole = events + failures.take(count);
        assert(whole.drop_last() =~= events + failures.take(count - 1));
        assert(whole.last() == interrupted_event(ids[count - 1], agent_id));
        lemma_session_data(ids[count - 1], agent_id, "error"@, jtext(
            "the daemon restarted while the session was active"@,
        ));
        if ids.take(count).contains(session_id) {
            let taken = ids.take(count);
            let k = choose|k: int| 0 <= k < taken.len() && taken[k] == session_id;
            if k < count - 1 {
                assert(ids.take(count - 1)[k] == session_id);
            }
        }
        if ids.take(count - 1).contains(session_id) {
            let taken = ids.take(count - 1);
            let k = choose|k: int| 0 <= k < taken.len() && taken[k] == session_id;
            assert(ids.take(count)[k] == session_id);
        }
        if ids[count - 1] == session_id {
            assert(ids.take(count)[count - 1] == session_id);
        }
    }
}

proof fn lemma_names_differ()
    ensures
        "session_id"@ != "agent_id"@,
        "session_id"@ != "restarts"@,
        "session_id"@ != "exit_code"@,
        "session_id"@ != "duration_ms"@,
        "session_id"@ != "error"@,
{
    reveal_strlit("session_id");
    reveal_strlit("agent_id");
    reveal_strlit("restarts");
    reveal_strlit("exit_code");
    reveal_strlit("duration_ms");
    reveal_strlit("error");
    assert("session_id"@.len() == 10);
    assert("agent_id"@.len() == 8 && "restarts"@.len() == 8);
    assert("exit_code"@.len() == 9 && "duration_ms"@.len() == 11 && "error"@.len() == 5);
}

proof fn lemma_session_data(
    session_id: Seq<char>,
    agent_id: Seq<char>,
    name: Seq<char>,
    value: JsonValue,
)
    requires
        name == "restarts"@ || name == "exit_code"@ || name == "error"@,
    ensures
        json::text_field(session_data(session_id, agent_id), "session_id"@) == Some(session_id),
        json::text_field(session_data(session_id, agent_id).set(name, value), "session_id"@)
            == Some(session_id),
{
    lemma_names_differ();
}

/// The events of a session's lifecycle are read back by the fold of the log: a
/// start opens the session, a restart keeps it open with its count, and an exit
/// or a failure closes it.
pub proof fn lifecycle_events_read_back(
    events: Seq<EventValue>,
    session_id: Seq<char>,
    agent_id: Seq<char>,
    restarts: u32,
    exit_code: i32,
    duration_ms: u64,
    error: Seq<char>,
)
    ensures
        active_sessions(events.push(started_event(session_id, agent_id))) == active_sessions(
            events,
        ).insert(session_id, 0),
        active_sessions(events.push(restarted_event(session_id, agent_id, restarts)))
            == active_sessions(events).insert(session_id, restarts),
        active_sessions(
            events.push(exited_event(session_id, agent_id, exit_code, duration_ms)),
        ) == active_sessions(events).remove(session_id),
        active_sessions(events.push(failed_event(session_id, agent_id, error)))
            == active_sessions(events).remove(session_id),
{
    lemma_kinds_differ();
    lemma_names_differ();
    json::integers_read_back(restarts as u64);
    let started = started_event(session_id, agent_id);
    let restarted = restarted_event(session_id, agent_id, restarts);
    let exited = exited_event(session_id, agent_id, exit_code, duration_ms);
    let failed = failed_event(session_id, agent_id, error);
    assert(events.push(started).drop_last() =~= events);
    assert(events.push(restarted).drop_last() =~= events);
    assert(events.push(exited).drop_last() =~= events);
    assert(events.push(failed).drop_last() =~= events);
    assert(session_of(started) == Some(session_id));
    assert(session_of(restarted) == Some(session_id));
    assert(session_of(exited) == Some(session_id));
    assert(session_of(failed) == Some(session_id));
    assert(restarts_of(restarted) == restarts);
}

/// How a supervised session ended.
#[derive(Debug)]
pub enum Outcome {
    /// The process exited with a code.
    Exited(i32),
    /// The process could not be supervised any longer.
    Failed(String),
    /// The session exceeded its lifetime and was killed.
    Lifetime,
}

/// What happened to a supervised session.
#[derive(Debug)]
pub enum RunEvent {
    /// The announcement was recorded.
    Announced,
    /// The announcement could not be recorded.
    AnnounceFailed,
    /// The process was spawned.
    Spawned,
    /// The process could not be spawned.
    SpawnFailed(String),
    /// The process ended, after so many milliseconds.
    Ended(Outcome, u64),
    /// The delay before a restart passed.
    BackedOff,
    /// The terminal state was recorded, or could not be.
    Reported,
}

/// What to do for a supervised session.
#[derive(Debug)]
pub enum RunAction {
    /// Record this event.
    Announce(Event),
    /// Spawn the configured command.
    Spawn,
    /// Wait for the process to exit, and kill it after this many milliseconds.
    Wait(Option<u64>),
    /// Wait this many milliseconds before the restart.
    BackOff(u64),
    /// Record this terminal event.
    Report(Event),
    /// Nothing is left to do.
    Stop,
}

/// What to do for a supervised session, as plain values.
pub enum RunActionValue {
    Announce(EventValue),
    Spawn,
    Wait(Option<u64>),
    BackOff(u64),
    Report(EventValue),
    Stop,
}

impl View for RunAction {
    type V = RunActionValue;

    open spec fn view(&self) -> RunActionValue {
        match self {
            RunAction::Announce(event) => RunActionValue::Announce(event@),
            RunAction::Spawn => RunActionValue::Spawn,
            RunAction::Wait(lifetime) => RunActionValue::Wait(*lifetime),
            RunAction::BackOff(delay) => RunActionValue::BackOff(*delay),
            RunAction::Report(event) => RunActionValue::Report(event@),
            RunAction::Stop => RunActionValue::Stop,
        }
    }
}

/// What a supervised session waits for.
#[derive(Clone, Copy, Debug, PartialEq, Eq, Structural)]
pub enum RunPhase {
    /// Its announcement to be recorded.
    Announcing,
    /// Its process to be spawned.
    Spawning,
    /// Its process to end.
    Running,
    /// The delay before a restart.
    BackingOff,
    /// Its terminal state to be recorded.
    Reporting,
    /// Nothing: it is over.
    Done,
}

/// One supervised session.
#[derive(Debug)]
pub struct SessionRun {
    session_id: String,
    agent_id: String,
    supervision: Supervision,
    restarts: u32,
    phase: RunPhase,
}

/// One supervised session, as plain values.
#[verifier::ext_equal]
pub struct RunState {
    pub session_id: Seq<char>,
    pub agent_id: Seq<char>,
    pub supervision: Supervision,
    pub restarts: u32,
    pub phase: RunPhase,
}

impl View for SessionRun {
    type V = RunState;

    closed spec fn view(&self) -> RunState {
        RunState {
            session_id: self.session_id@,
            agent_id: self.agent_id@,
            supervision: self.supervision,
            restarts: self.restarts,
            phase: self.phase,
        }
    }
}

/// A session that is about to be announced for the first time.
pub open spec fn requested_run(
    session_id: Seq<char>,
    agent_id: Seq<char>,
    supervision: Supervision,
) -> RunState {
    RunState { session_id, agent_id, supervision, restarts: 0, phase: RunPhase::Announcing }
}

/// The announcement of a session: a start, or a restart with its count.
pub open spec fn announcement_of(run: RunState) -> EventValue {
    if run.restarts == 0 {
        started_event(run.session_id, run.agent_id)
    } else {
        restarted_event(run.session_id, run.agent_id, run.restarts)
    }
}

/// Whether a session is restarted after an outcome: it exited non-zero, within
/// the budget.
pub open spec fn is_restarted(run: RunState, outcome: Outcome) -> bool {
    match outcome {
        Outcome::Exited(code) => code != 0 && run.restarts < run.supervision.max_restarts,
        _ => false,
    }
}

/// The terminal event of a session.
pub open spec fn terminal_event(run: RunState, outcome: Outcome, duration_ms: u64) -> EventValue {
    match outcome {
        Outcome::Exited(code) => exited_event(run.session_id, run.agent_id, code, duration_ms),
        Outcome::Failed(error) => failed_event(run.session_id, run.agent_id, error@),
        Outcome::Lifetime => failed_event(
            run.session_id,
            run.agent_id,
            "the session exceeded its maximum lifetime"@,
        ),
    }
}

/// The session after something happened, and what to do. Whatever does not fit
/// what the session waits for ends it.
pub open spec fn supervised(run: RunState, event: RunEvent) -> (RunState, RunActionValue) {
    match (run.phase, event) {
        (RunPhase::Announcing, RunEvent::Announced) => (
            RunState { phase: RunPhase::Spawning, ..run },
            RunActionValue::Spawn,
        ),
        (RunPhase::Spawning, RunEvent::Spawned) => (
            RunState { phase: RunPhase::Running, ..run },
            RunActionValue::Wait(run.supervision.lifetime),
        ),
        (RunPhase::Spawning, RunEvent::SpawnFailed(error)) => (
            RunState { phase: RunPhase::Reporting, ..run },
            RunActionValue::Report(failed_event(run.session_id, run.agent_id, error@)),
        ),
        (RunPhase::Running, RunEvent::Ended(outcome, duration_ms)) => if is_restarted(
            run,
            outcome,
        ) {
            (
                RunState {
                    restarts: (run.restarts + 1) as u32,
                    phase: RunPhase::BackingOff,
                    ..run
                },
                RunActionValue::BackOff(run.supervision.restart_backoff),
            )
        } else {
            (
                RunState { phase: RunPhase::Reporting, ..run },
                RunActionValue::Report(terminal_event(run, outcome, duration_ms)),
            )
        },
        (RunPhase::BackingOff, RunEvent::BackedOff) => (
            RunState { phase: RunPhase::Announcing, ..run },
            RunActionValue::Announce(announcement_of(run)),
        ),
        _ => (RunState { phase: RunPhase::Done, ..run }, RunActionValue::Stop),
    }
}

/// A session is never restarted more often than its budget allows.
pub proof fn restarts_stay_within_the_budget(run: RunState, event: RunEvent)
    requires
        run.restarts <= run.supervision.max_restarts,
    ensures
        supervised(run, event).0.restarts <= run.supervision.max_restarts,
        supervised(run, event).0.supervision == run.supervision,
{
}

/// Only a non-zero exit within the budget is restarted: a clean exit, a failure,
/// and a session past its lifetime are terminal.
pub proof fn only_non_zero_exits_restart(run: RunState, event: RunEvent)
    requires
        supervised(run, event).1 is BackOff,
    ensures
        event is Ended,
        event->Ended_0 is Exited,
        event->Ended_0->Exited_0 != 0,
        run.restarts < run.supervision.max_restarts,
        supervised(run, event).0.restarts == run.restarts + 1,
{
}

/// A session is announced under its own id, and what is reported in the end
/// closes it: after the report the log leaves it inactive.
pub proof fn the_terminal_report_closes_the_session(
    events: Seq<EventValue>,
    run: RunState,
    event: RunEvent,
)
    requires
        supervised(run, event).1 is Report,
    ensures
        !active_sessions(events.push(supervised(run, event).1->Report_0)).contains_key(
            run.session_id,
        ),
        supervised(run, event).0.phase == RunPhase::Reporting,
{
    let report = supervised(run, event).1->Report_0;
    if let RunEvent::SpawnFailed(error) = event {
        lifecycle_events_read_back(events, run.session_id, run.agent_id, 0, 0, 0, error@);
    }
    if let RunEvent::Ended(outcome, duration_ms) = event {
        match outcome {
            Outcome::Exited(code) => {
                lifecycle_events_read_back(
                    events,
                    run.session_id,
                    run.agent_id,
                    0,
                    code,
                    duration_ms,
                    Seq::empty(),
                );
            },
            Outcome::Failed(error) => {
                lifecycle_events_read_back(
                    events,
                    run.session_id,
                    run.agent_id,
                    0,
                    0,
                    0,
                    error@,
                );
            },
            Outcome::Lifetime => {
                lifecycle_events_read_back(
                    events,
                    run.session_id,
                    run.agent_id,
                    0,
                    0,
                    0,
                    "the session exceeded its maximum lifetime"@,
                );
            },
        }
    }
}

/// A session ends once: after its terminal report nothing is announced, spawned
/// or reported any more.
pub proof fn a_session_ends_once(run: RunState, event: RunEvent)
    requires
        run.phase == RunPhase::Reporting || run.phase == RunPhase::Done,
    ensures
        supervised(run, event).0.phase == RunPhase::Done,
        supervised(run, event).1 is Stop,
{
}

impl SessionRun {
    /// A session that is about to be announced.
    pub fn new(session_id: String, agent_id: String, supervision: Supervision) -> (r: SessionRun)
        ensures
            r@ == requested_run(session_id@, agent_id@, supervision),
    {
        SessionRun { session_id, agent_id, supervision, restarts: 0, phase: RunPhase::Announcing }
    }

    /// The session's id.
    pub fn session_id(&self) -> (r: &str)
        ensures
            r@ == self@.session_id,
    {
        self.session_id.as_str()
    }

    /// How often the session was restarted.
    pub fn restarts(&self) -> (r: u32)
        ensures
            r == self@.restarts,
    {
        self.restarts
    }

    /// The announcement of the session: the first thing to be recorded.
    pub fn announcement(&self) -> (r: Event)
        ensures
            r@ == announcement_of(self@),
    {
        if self.restarts == 0 {
            session_started(self.session_id.as_str(), self.agent_id.as_str())
        } else {
            session_restarted(self.session_id.as_str(), self.agent_id.as_str(), self.restarts)
        }
    }

    fn terminal(&self, outcome: Outcome, duration_ms: u64) -> (r: Event)
        ensures
            r@ == terminal_event(self@, outcome, duration_ms),
    {
        let session_id = self.session_id.as_str();
        let agent_id = self.agent_id.as_str();
        match outcome {
            Outcome::Exited(code) => session_exited(session_id, agent_id, code, duration_ms),
            Outcome::Failed(error) => session_failed(session_id, agent_id, error.as_str()),
            Outcome::Lifetime => session_failed(
                session_id,
                agent_id,
                "the session exceeded its maximum lifetime",
            ),
        }
    }

    /// Takes what happened into account: restarts the session within the
    /// supervision budget, or reports its terminal state.
    pub fn step(&mut self, event: RunEvent) -> (r: RunAction)
        ensures
            (final(self)@, r@) == supervised(old(self)@, event),
    {
        match (self.phase, event) {
            (RunPhase::Announcing, RunEvent::Announced) => {
                self.phase = RunPhase::Spawning;
                RunAction::Spawn
            },
            (RunPhase::Spawning, RunEvent::Spawned) => {
                self.phase = RunPhase::Running;
                RunAction::Wait(self.supervision.lifetime)
            },
            (RunPhase::Spawning, RunEvent::SpawnFailed(error)) => {
                self.phase = RunPhase::Reporting;
                RunAction::Report(
                    session_failed(
                        self.session_id.as_str(),
                        self.agent_id.as_str(),
                        error.as_str(),
                    ),
                )
            },
            (RunPhase::Running, RunEvent::Ended(outcome, duration_ms)) => {
                let restart = match &outcome {
                    Outcome::Exited(code) => *code != 0 && self.restarts
                        < self.supervision.max_restarts,
                    _ => false,
                };
                if restart {
                    self.restarts = self.restarts + 1;
                    self.phase = RunPhase::BackingOff;
                    return RunAction::BackOff(self.supervision.restart_backoff);
                }
                let event = self.terminal(outcome, duration_ms);
                self.phase = RunPhase::Reporting;
                RunAction::Report(event)
            },
            (RunPhase::BackingOff, RunEvent::BackedOff) => {
                self.phase = RunPhase::Announcing;
                RunAction::Announce(self.announcement())
            },
            _ => {
                self.phase = RunPhase::Done;
                RunAction::Stop
            },
        }
    }
}

/// Launches and supervises a sandboxed node per `session.requested` event.
///
/// Starting the manager *reconciles* the durable log, failing any session it
/// shows as still active on the ground that a restarted daemon cannot re-adopt a
/// process it did not spawn. That reconciliation is destructive to a session a
/// *live* sibling daemon owns, so a caller that shares a log must claim the
/// single-instance socket first and start the manager only once it is the daemon
/// being served.
#[derive(Debug)]
pub struct SessionManager<P> {
    command: String,
    agent_id: String,
    supervision: Supervision,
    protocol: Option<P>,
    workdir: String,
    permission_approval: Option<u64>,
    active: TextMap<u32>,
}

/// What a manager was configured with, and its active sessions.
#[verifier::ext_equal]
pub struct ManagerState<P> {
    pub command: Seq<char>,
    pub agent_id: Seq<char>,
    pub supervision: Supervision,
    /// The protocol, when the configured command is a third-party tool that does
    /// not speak events itself. `None` supervises the process only.
    pub protocol: Option<P>,
    /// The sandbox working directory, handed to a protocol that advertises it.
    pub workdir: Seq<char>,
    /// How many milliseconds a pending permission request waits for an approver
    /// before it is cancelled. `None` waits forever.
    pub permission_approval: Option<u64>,
    /// The active sessions, by id, with the restart count of each.
    pub active: Map<Seq<char>, u32>,
}

impl<P> View for SessionManager<P> {
    type V = ManagerState<P>;

    closed spec fn view(&self) -> ManagerState<P> {
        ManagerState {
            command: self.command@,
            agent_id: self.agent_id@,
            supervision: self.supervision,
            protocol: self.protocol,
            workdir: self.workdir@,
            permission_approval: self.permission_approval,
            active: self.active@,
        }
    }
}

/// A manager with the defaults: no restarts, no bridge, no deadline for
/// permissions, and no session.
pub open spec fn unconfigured<P>(
    command: Seq<char>,
    agent_id: Seq<char>,
    workdir: Seq<char>,
) -> ManagerState<P> {
    ManagerState {
        command,
        agent_id,
        supervision: Supervision { max_restarts: 0, restart_backoff: 1000, lifetime: None },
        protocol: None,
        workdir,
        permission_approval: None,
        active: Map::empty(),
    }
}

/// What to do about a recorded event.
#[derive(Debug)]
pub enum ServeAction {
    /// Nothing.
    Nothing,
    /// Supervise this session.
    Launch(SessionRun),
    /// Record this status report.
    Report(Event),
}

/// The id of the session an event requests: its `session_id`, or its own id.
pub open spec fn requested_id(request: EventValue, event_id: Seq<char>) -> Seq<char> {
    match session_of(request) {
        Some(session_id) => session_id,
        None => event_id,
    }
}

/// The time `delay` after `now`, or the end of time.
pub open spec fn later(now: u64, delay: u64) -> u64 {
    if now + delay > u64::MAX {
        u64::MAX
    } else {
        (now + delay) as u64
    }
}

/// The pending approvals after an event that reconciliation did not fold: a
/// permission request is timed while a deadline is set, and a decision ends the
/// wait.
pub open spec fn pending_after(
    approval: Option<u64>,
    event: EventValue,
    now: u64,
    pending: Map<KeyValue, u64>,
) -> Map<KeyValue, u64> {
    match approvals::key_of(event) {
        None => pending,
        Some(key) => if event.kind == SESSION_PERMISSION_REQUESTED@ {
            match approval {
                Some(deadline) => pending.insert(key, later(now, deadline)),
                None => pending,
            }
        } else if bridge::is_decision(event.kind) {
            pending.remove(key)
        } else {
            pending
        },
    }
}

/// Whether an action is the one that a recorded event asks for.
pub open spec fn served<P>(
    manager: ManagerState<P>,
    event: EventValue,
    event_id: Seq<char>,
    action: ServeAction,
) -> bool {
    if event.kind == SESSION_REQUESTED@ {
        action is Launch && action->Launch_0@ == requested_run(
            requested_id(event, event_id),
            manager.agent_id,
            manager.supervision,
        )
    } else if event.kind == SESSION_STATUS_REQUESTED@ {
        action is Report && exists|ids: Seq<Seq<char>>|
            in_order(manager.active, ids) && action->Report_0@ == #[trigger] status_event(
                manager.active,
                ids,
            )
    } else {
        action is Nothing
    }
}

/// A recorded event that waits to be served, with its id.
#[derive(Debug)]
pub struct QueuedEntry {
    /// The event at its position.
    pub entry: LogEntry,
    /// The id of the event.
    pub event_id: String,
}

/// Whether an action is the one that a queued event asks for: those that
/// reconciliation folded ask for nothing.
pub open spec fn served_entry<P>(
    manager: ManagerState<P>,
    queued: QueuedEntry,
    snapshot: u64,
    action: ServeAction,
) -> bool {
    if queued.entry.seq <= snapshot {
        action is Nothing
    } else {
        served(manager, queued.entry.event@, queued.event_id@, action)
    }
}

/// The pending approvals after queued events, without those that reconciliation
/// folded.
pub open spec fn pending_after_all(
    approval: Option<u64>,
    queued: Seq<QueuedEntry>,
    snapshot: u64,
    now: u64,
    pending: Map<KeyValue, u64>,
) -> Map<KeyValue, u64>
    decreases queued.len(),
{
    if queued.len() == 0 {
        pending
    } else {
        let before = pending_after_all(approval, queued.drop_last(), snapshot, now, pending);
        let entry = queued.last().entry;
        if entry.seq <= snapshot {
            before
        } else {
            pending_after(approval, entry.event@, now, before)
        }
    }
}

/// Whether a queued event is a decision on the request under a key.
pub open spec fn decides(queued: QueuedEntry, snapshot: u64, key: KeyValue) -> bool {
    queued.entry.seq > snapshot && bridge::is_decision(queued.entry.event@.kind)
        && approvals::key_of(queued.entry.event@) == Some(key)
}

/// Whether a queued event asks for permission under a key.
pub open spec fn asks(queued: QueuedEntry, snapshot: u64, key: KeyValue) -> bool {
    queued.entry.seq > snapshot && queued.entry.event@.kind == SESSION_PERMISSION_REQUESTED@
        && approvals::key_of(queued.entry.event@) == Some(key)
}

/// A decision that is queued when a deadline passes is honoured: its request is
/// not cancelled, unless it was asked again after the decision.
pub proof fn a_queued_decision_is_honoured(
    approval: Option<u64>,
    queued: Seq<QueuedEntry>,
    snapshot: u64,
    now: u64,
    pending: Map<KeyValue, u64>,
    i: int,
    key: KeyValue,
    expired: Seq<KeyValue>,
)
    requires
        0 <= i < queued.len(),
        decides(queued[i], snapshot, key),
        forall|j: int| i < j < queued.len() ==> !asks(#[trigger] queued[j], snapshot, key),
        approvals::are_expired(
            pending_after_all(approval, queued, snapshot, now, pending),
            now,
            expired,
        ),
    ensures
        !expired.contains(key),
{
    lemma_decided_stays_decided(approval, queued, snapshot, now, pending, i, key);
}

proof fn lemma_decided_stays_decided(
    approval: Option<u64>,
    queued: Seq<QueuedEntry>,
    snapshot: u64,
    now: u64,
    pending: Map<KeyValue, u64>,
    i: int,
    key: KeyValue,
)
    requires
        0 <= i < queued.len(),
        decides(queued[i], snapshot, key),
        forall|j: int| i < j < queued.len() ==> !asks(#[trigger] queued[j], snapshot, key),
    ensures
        !pending_after_all(approval, queued, snapshot, now, pending).contains_key(key),
    decreases queued.len(),
{
    lemma_served_kinds();
    let earlier = queued.drop_last();
    if i < queued.len() - 1 {
        assert forall|j: int| i < j < earlier.len() implies !asks(
            #[trigger] earlier[j],
            snapshot,
            key,
        ) by {
            assert(earlier[j] == queued[j]);
        }
        lemma_decided_stays_decided(approval, earlier, snapshot, now, pending, i, key);
        assert(!asks(queued[queued.len() - 1], snapshot, key));
    }
}

/// A request carries no command: two requests under one id launch the same
/// session, whatever else they hold.
pub proof fn requests_carry_no_command<P>(
    manager: ManagerState<P>,
    one: EventValue,
    other: EventValue,
    event_id: Seq<char>,
    first: ServeAction,
    second: ServeAction,
)
    requires
        one.kind == SESSION_REQUESTED@,
        other.kind == SESSION_REQUESTED@,
        requested_id(one, event_id) == requested_id(other, event_id),
        served(manager, one, event_id, first),
        served(manager, other, event_id, second),
    ensures
        first is Launch,
        second is Launch,
        first->Launch_0@ == second->Launch_0@,
{
}

impl<P: Protocol> SessionManager<P> {
    /// Creates a manager that runs `command` in a sandbox built from `policy`.
    pub fn new(policy: &Policy, command: String, agent_id: String) -> (r: SessionManager<P>)
        ensures
            r@ == unconfigured::<P>(command@, agent_id@, policy.shell.workdir@),
    {
        SessionManager {
            command,
            agent_id,
            supervision: Supervision::default(),
            protocol: None,
            workdir: policy.shell.workdir.clone(),
            permission_approval: None,
            active: TextMap::new(),
        }
    }

    /// Creates a manager around an existing sandbox.
    #[must_use]
    pub fn with_sandbox(command: String, agent_id: String) -> (r: SessionManager<P>)
        ensures
            r@ == unconfigured::<P>(command@, agent_id@, "/"@),
    {
        SessionManager {
            command,
            agent_id,
            supervision: Supervision::default(),
            protocol: None,
            workdir: "/".to_owned(),
            permission_approval: None,
            active: TextMap::new(),
        }
    }

    /// Sets the working directory a protocol advertises (the ACP session
    /// `cwd`). Defaults to the policy's shell workdir, or `/`.
    #[must_use]
    pub fn with_workdir(self, workdir: String) -> (r: SessionManager<P>)
        ensures
            r@ == (ManagerState { workdir: workdir@, ..self@ }),
    {
        SessionManager { workdir, ..self }
    }

    /// Sets the supervision policy.
    #[must_use]
    pub fn with_supervision(self, supervision: Supervision) -> (r: SessionManager<P>)
        ensures
            r@ == (ManagerState { supervision, ..self@ }),
    {
        SessionManager { supervision, ..self }
    }

    /// Sets the protocol, so the configured command's stdio is converted to and
    /// from events by a state machine created per session.
    #[must_use]
    pub fn with_protocol(self, protocol: P) -> (r: SessionManager<P>)
        ensures
            r@ == (ManagerState { protocol: Some(protocol), ..self@ }),
    {
        SessionManager { protocol: Some(protocol), ..self }
    }

    /// Bounds how long a `session.permission.requested` waits for an approver:
    /// once `deadline` milliseconds elapse it is answered with a cancellation,
    /// so a child that is blocked on a permission cannot wait forever.
    ///
    /// Unset, the wait is unbounded (the default). A decision published before
    /// the deadline is honoured; one published after it is dropped by the
    /// bridge, which no longer holds the request.
    #[must_use]
    pub fn with_permission_approval(self, deadline: u64) -> (r: SessionManager<P>)
        ensures
            r@ == (ManagerState { permission_approval: Some(deadline), ..self@ }),
    {
        SessionManager { permission_approval: Some(deadline), ..self }
    }

    /// The configured command.
    pub fn command(&self) -> (r: &str)
        ensures
            r@ == self@.command,
    {
        self.command.as_str()
    }

    /// What a protocol is told about a session.
    pub fn context<'a>(&'a self, session_id: &'a str) -> (r: SessionContext<'a>)
        ensures
            r.session_id@ == session_id@,
            r.workdir@ == self@.workdir,
    {
        SessionContext { session_id, workdir: self.workdir.as_str() }
    }

    /// The bridge of a session: a fresh state machine of the configured
    /// protocol, or none without one.
    pub fn connect(&self, session_id: &str) -> (r: Option<P::Machine>)
        ensures
            match r {
                Some(machine) => self@.protocol is Some && self@.protocol->0.connects(
                    session_id@,
                    self@.workdir,
                    machine,
                ),
                None => self@.protocol is None,
            },
    {
        match &self.protocol {
            Some(protocol) => Some(protocol.connect(&self.context(session_id))),
            None => None,
        }
    }

    /// Records a session as active, with its restart count.
    pub fn track(&mut self, session_id: &str, restarts: u32)
        ensures
            final(self)@ == (ManagerState {
                active: old(self)@.active.insert(session_id@, restarts),
                ..old(self)@
            }),
    {
        self.active.insert(session_id.to_owned(), restarts);
    }

    /// Forgets a session: it is no longer active.
    pub fn untrack(&mut self, session_id: &str)
        ensures
            final(self)@ == (ManagerState {
                active: old(self)@.active.remove(session_id@),
                ..old(self)@
            }),
    {
        let _ = self.active.remove(session_id);
    }

    /// The supervised session for `request`, which was recorded under
    /// `event_id`.
    pub fn launch(&self, request: &Event, event_id: &str) -> (r: SessionRun)
        ensures
            r@ == requested_run(
                requested_id(request@, event_id@),
                self@.agent_id,
                self@.supervision,
            ),
    {
        let session_id = match request.data.get_str("session_id") {
            Some(session_id) => session_id,
            None => event_id,
        };
        SessionRun::new(session_id.to_owned(), self.agent_id.clone(), self.supervision)
    }

    /// The active sessions, in response to `session.status.requested`.
    pub fn report_status(&self) -> (r: Event)
        ensures
            exists|ids: Seq<Seq<char>>|
                in_order(self@.active, ids) && r@ == #[trigger] status_event(self@.active, ids),
    {
        let ids = ordered_ids(&self.active);
        let ghost id_views = text::views(ids@);
        let ghost entries = Seq::new(
            id_views.len(),
            |i: int| status_entry(id_views[i], self@.active[id_views[i]]),
        );
        let mut sessions: Vec<Json> = Vec::new();
        let mut i: usize = 0;
        while i < ids.len()
            invariant
                i <= ids@.len(),
                in_order(self@.active, id_views),
                id_views == text::views(ids@),
                entries == Seq::new(
                    id_views.len(),
                    |i: int| status_entry(id_views[i], self@.active[id_views[i]]),
                ),
                json_views(sessions@) =~= entries.take(i as int),
            decreases ids@.len() - i,
        {
            proof {
                assert(id_views[i as int] == ids@[i as int]@);
                assert(id_views.contains(id_views[i as int]));
            }
            let restarts: u32 = match self.active.get(ids[i].as_str()) {
                Some(restarts) => *restarts,
                None => 0,
            };
            let ghost before = sessions@;
            sessions.push(
                Json::object().with("session_id", Json::text(ids[i].as_str())).with(
                    "restarts",
                    Json::unsigned(restarts as u64),
                ),
            );
            proof {
                assert(json_views(sessions@) =~= json_views(before).push(entries[i as int]));
                assert(entries.take(i + 1) =~= entries.take(i as int).push(entries[i as int]));
            }
            i = i + 1;
        }
        let event = session_status(sessions);
        proof {
            assert(entries.take(i as int) =~= entries);
            assert(json_views(sessions@) == entries);
            assert(event@ == status_event(self@.active, id_views));
        }
        event
    }

    /// The failures to record for the sessions that the log left open.
    ///
    /// Every session the log shows as started but never terminated was running
    /// under the previous daemon and cannot be re-adopted (no process handle
    /// survives the restart), so each is recorded as failed with a reason. Any
    /// other session is left untouched, and the log is not re-launched from.
    pub fn reconcile(&self, interrupted: &TextMap<u32>) -> (r: Vec<Event>)
        ensures
            exists|ids: Seq<Seq<char>>|
                #[trigger] in_order(interrupted@, ids) && event_views(r@) == Seq::new(
                    ids.len(),
                    |i: int| interrupted_event(ids[i], self@.agent_id),
                ),
    {
        let ids = ordered_ids(interrupted);
        let ghost id_views = text::views(ids@);
        let ghost failures = Seq::new(
            id_views.len(),
            |i: int| interrupted_event(id_views[i], self@.agent_id),
        );
        let mut events: Vec<Event> = Vec::new();
        let mut i: usize = 0;
        while i < ids.len()
            invariant
                i <= ids@.len(),
                id_views == text::views(ids@),
                failures == Seq::new(
                    id_views.len(),
                    |i: int| interrupted_event(id_views[i], self@.agent_id),
                ),
                event_views(events@) =~= failures.take(i as int),
            decreases ids@.len() - i,
        {
            let ghost before = events@;
            events.push(
                session_failed(
                    ids[i].as_str(),
                    self.agent_id.as_str(),
                    "the daemon restarted while the session was active",
                ),
            );
            proof {
                assert(id_views[i as int] == ids@[i as int]@);
                assert(event_views(events@) =~= event_views(before).push(failures[i as int]));
                assert(failures.take(i + 1) =~= failures.take(i as int).push(failures[i as int]));
            }
            i = i + 1;
        }
        proof {
            assert(failures.take(i as int) =~= failures);
            assert(in_order(interrupted@, id_views));
        }
        events
    }

    /// Serves one recorded event, skipping the ones reconciliation folded.
    pub fn serve(
        &self,
        entry: &LogEntry,
        event_id: &str,
        snapshot: u64,
        now: u64,
        pending: &mut PendingApprovals,
    ) -> (r: ServeAction)
        ensures
            if entry.seq <= snapshot {
                r is Nothing && final(pending)@ == old(pending)@
            } else {
                served(self@, entry.event@, event_id@, r) && final(pending)@ == pending_after(
                    self@.permission_approval,
                    entry.event@,
                    now,
                    old(pending)@,
                )
            },
    {
        if entry.seq <= snapshot {
            return ServeAction::Nothing;
        }
        let event = &entry.event;
        let kind = event.kind.as_str();
        proof {
            lemma_served_kinds();
        }
        if text::same(kind, SESSION_REQUESTED) {
            ServeAction::Launch(self.launch(event, event_id))
        } else if text::same(kind, SESSION_STATUS_REQUESTED) {
            ServeAction::Report(self.report_status())
        } else if text::same(kind, SESSION_PERMISSION_REQUESTED) {
            self.await_approval(event, now, pending);
            ServeAction::Nothing
        } else if bridge::is_permission_decision(kind) {
            if let Some(key) = RequestKey::of(event) {
                pending.decided(&key);
            }
            ServeAction::Nothing
        } else {
            ServeAction::Nothing
        }
    }

    /// Cancels the requests whose deadline has passed at `now`, returning what
    /// the queued events ask for and the cancellations to record.
    ///
    /// The queued events are served first, so a decision published before the
    /// deadline is honoured rather than raced by the cancellation.
    pub fn expire(
        &self,
        queued: &Vec<QueuedEntry>,
        snapshot: u64,
        now: u64,
        pending: &mut PendingApprovals,
    ) -> (r: (Vec<ServeAction>, Vec<Event>))
        ensures
            r.0@.len() == queued@.len(),
            forall|i: int|
                0 <= i < queued@.len() ==> served_entry(
                    self@,
                    queued@[i],
                    snapshot,
                    #[trigger] r.0@[i],
                ),
            ({
                let waiting = pending_after_all(
                    self@.permission_approval,
                    queued@,
                    snapshot,
                    now,
                    old(pending)@,
                );
                &&& final(pending)@ == approvals::unexpired(waiting, now)
                &&& exists|keys: Seq<KeyValue>|
                    approvals::are_expired(waiting, now, keys) && event_views(r.1@)
                        == #[trigger] approvals::cancellations(keys)
            }),
    {
        let mut actions: Vec<ServeAction> = Vec::new();
        let mut i: usize = 0;
        let ghost start = pending@;
        proof {
            assert(queued@.take(0) =~= Seq::<QueuedEntry>::empty());
        }
        while i < queued.len()
            invariant
                i <= queued@.len(),
                actions@.len() == i,
                forall|k: int|
                    0 <= k < i ==> served_entry(
                        self@,
                        queued@[k],
                        snapshot,
                        #[trigger] actions@[k],
                    ),
                pending@ == pending_after_all(
                    self@.permission_approval,
                    queued@.take(i as int),
                    snapshot,
                    now,
                    start,
                ),
            decreases queued@.len() - i,
        {
            let action = self.serve(
                &queued[i].entry,
                queued[i].event_id.as_str(),
                snapshot,
                now,
                pending,
            );
            actions.push(action);
            proof {
                assert(queued@.take(i + 1).drop_last() =~= queued@.take(i as int));
                assert(queued@.take(i + 1).last() == queued@[i as int]);
            }
            i = i + 1;
        }
        proof {
            assert(queued@.take(i as int) =~= queued@);
        }
        let expired = pending.expire(now);
        let mut cancelled: Vec<Event> = Vec::new();
        let mut j: usize = 0;
        while j < expired.len()
            invariant
                j <= expired@.len(),
                cancelled@.len() == j,
                forall|k: int|
                    0 <= k < j ==> (#[trigger] cancelled@[k])@ == approvals::cancellation_of(
                        expired@[k]@,
                    ),
            decreases expired@.len() - j,
        {
            cancelled.push(expired[j].cancellation());
            j = j + 1;
        }
        proof {
            let keys = approvals::key_views(expired@);
            assert(event_views(cancelled@) =~= approvals::cancellations(keys));
        }
        (actions, cancelled)
    }

    /// Starts timing `event`, a permission request, when a deadline is set.
    fn await_approval(&self, event: &Event, now: u64, pending: &mut PendingApprovals)
        requires
            event@.kind == SESSION_PERMISSION_REQUESTED@,
        ensures
            final(pending)@ == pending_after(
                self@.permission_approval,
                event@,
                now,
                old(pending)@,
            ),
    {
        if let Some(deadline) = self.permission_approval {
            if let Some(key) = RequestKey::of(event) {
                pending.awaited(key, now.saturating_add(deadline));
            }
        }
    }
}

proof fn lemma_served_kinds()
    ensures
        SESSION_REQUESTED@ != SESSION_PERMISSION_REQUESTED@,
        SESSION_STATUS_REQUESTED@ != SESSION_PERMISSION_REQUESTED@,
        !bridge::is_decision(SESSION_REQUESTED@),
        !bridge::is_decision(SESSION_STATUS_REQUESTED@),
        !bridge::is_decision(SESSION_PERMISSION_REQUESTED@),
{
    reveal_strlit("session.requested");
    reveal_strlit("session.status.requested");
    reveal_strlit("session.permission.requested");
    reveal_strlit("session.permission.granted");
    reveal_strlit("session.permission.denied");
    reveal_strlit("session.permission.cancelled");
    assert(SESSION_REQUESTED@.len() == 17);
    assert(SESSION_STATUS_REQUESTED@.len() == 24);
    assert(SESSION_PERMISSION_REQUESTED@.len() == 28);
    assert(bridge::SESSION_PERMISSION_GRANTED@.len() == 26);
    assert(bridge::SESSION_PERMISSION_DENIED@.len() == 25);
    assert(bridge::SESSION_PERMISSION_CANCELLED@.len() == 28);
    assert(SESSION_PERMISSION_REQUESTED@[19] == 'r');
    assert(bridge::SESSION_PERMISSION_CANCELLED@[19] == 'c');
}

/// Whether an event is routed to a session's child: only one that addresses it
/// is, so two bridged sessions of the same protocol never receive each other's
/// messages.
pub open spec fn routed(event: EventValue, session_id: Seq<char>) -> bool {
    event.subject == Some(SUBJECT_PREFIX@ + session_id)
}

/// An event is routed to at most one session.
pub proof fn events_reach_one_session(event: EventValue, one: Seq<char>, other: Seq<char>)
    requires
        routed(event, one),
        routed(event, other),
    ensures
        one == other,
{
    let prefix = SUBJECT_PREFIX@;
    assert((prefix + one).skip(prefix.len() as int) =~= one);
    assert((prefix + other).skip(prefix.len() as int) =~= other);
}

/// Whether an event is routed to the child of `session_id`.
pub fn is_routed(event: &Event, session_id: &str) -> (r: bool)
    ensures
        r == routed(event@, session_id@),
{
    let subject = session_subject(session_id);
    match &event.subject {
        Some(addressed) => text::same(addressed.as_str(), subject.as_str()),
        None => false,
    }
}

/// The step with its event addressed to a session.
pub open spec fn addressed(action: ActionValue, session_id: Seq<char>) -> ActionValue {
    match action {
        ActionValue::Publish(event) => ActionValue::Publish(
            EventValue { subject: Some(SUBJECT_PREFIX@ + session_id), ..event },
        ),
        ActionValue::Write(line) => ActionValue::Write(line),
    }
}

/// A step of a bridge as the manager takes it: an event is stamped with the
/// session it comes from, and a line is written as it is.
pub fn address_action(session_id: &str, action: Action) -> (r: Action)
    ensures
        r@ == addressed(action@, session_id@),
{
    match action {
        Action::Publish(event) => Action::Publish(event.with_subject(session_subject(session_id))),
        Action::Write(line) => Action::Write(line),
    }
}

/// Whether a result is what leaves a session for an action of its bridge: an event
/// always, under the session's subject, and a line only while it can be written.
pub open spec fn leaves(
    session_id: Seq<char>,
    action: ActionValue,
    writable: bool,
    r: Option<Action>,
) -> bool {
    match action {
        ActionValue::Publish(_) => r is Some && r->0@ == addressed(action, session_id),
        ActionValue::Write(_) => if writable {
            r is Some && r->0@ == action
        } else {
            r is None
        },
    }
}

/// A step of a bridge as the manager takes it, with or without a way to write to
/// the child: events are always recorded, and a line that cannot be written is
/// dropped.
pub fn outgoing(session_id: &str, action: Action, writable: bool) -> (r: Option<Action>)
    ensures
        match action@ {
            ActionValue::Publish(_) => r is Some && r->0@ == addressed(action@, session_id@),
            ActionValue::Write(_) => if writable {
                r is Some && r->0@ == action@
            } else {
                r is None
            },
        },
        leaves(session_id@, action@, writable, r),
{
    match action {
        Action::Publish(event) => Some(address_action(session_id, Action::Publish(event))),
        Action::Write(line) => if writable {
            Some(Action::Write(line))
        } else {
            None
        },
    }
}

/// Which of its two sources the writer of a child's input takes a line from.
#[derive(Clone, Copy, Debug, PartialEq, Eq, Structural)]
pub enum LineSource {
    /// The events routed to the session.
    Events,
    /// The replies owed to the child.
    Replies,
}

/// What the writer of a child's input does.
#[derive(Debug)]
pub enum WriterStep {
    /// Write this line, and wait for the next.
    Write(String),
    /// Wait for the next line.
    Wait,
    /// Nothing more will come.
    Stop,
}

/// The writer of a child's input: it takes lines from two sources until both are
/// closed, so a backlog of routed events cannot block a reply, and no two tasks
/// ever write to the pipe.
#[derive(Clone, Copy, Debug, PartialEq, Eq, Structural)]
pub struct InputWriter {
    /// Whether the source of routed events is open.
    pub events_open: bool,
    /// Whether the source of replies is open.
    pub replies_open: bool,
}

/// The writer after something came from a source: a source that ends is closed.
pub open spec fn received(writer: InputWriter, source: LineSource, ended: bool) -> InputWriter {
    match source {
        LineSource::Events => InputWriter { events_open: !ended, ..writer },
        LineSource::Replies => InputWriter { replies_open: !ended, ..writer },
    }
}

impl InputWriter {
    /// A writer both of whose sources are open.
    pub fn new() -> (r: InputWriter)
        ensures
            r == (InputWriter { events_open: true, replies_open: true }),
    {
        InputWriter { events_open: true, replies_open: true }
    }

    /// Takes what came from a source into account: a line, or its end.
    pub fn receive(&mut self, source: LineSource, line: Option<String>) -> (r: WriterStep)
        ensures
            *final(self) == received(*old(self), source, line is None),
            match line {
                Some(line) => r == WriterStep::Write(line),
                None => if final(self).events_open || final(self).replies_open {
                    r is Wait
                } else {
                    r is Stop
                },
            },
    {
        match source {
            LineSource::Events => {
                self.events_open = line.is_some();
            },
            LineSource::Replies => {
                self.replies_open = line.is_some();
            },
        }
        match line {
            Some(line) => WriterStep::Write(line),
            None => if self.events_open || self.replies_open {
                WriterStep::Wait
            } else {
                WriterStep::Stop
            },
        }
    }
}

} // verus!
