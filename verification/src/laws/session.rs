//! What supervision, reconciliation and routing promise.

use crate::approvals::{self, KeyValue};
use crate::bridge::{
    self, Action, ActionValue, SESSION_PERMISSION_CANCELLED, SESSION_PERMISSION_DENIED,
    SESSION_PERMISSION_GRANTED, SESSION_PERMISSION_REQUESTED,
};
use crate::events::{Event, EventValue};
use crate::json::{self, Json, JsonValue};
use crate::log::LogError;
use crate::session::{
    self, FoldState, InputWriter, LineSource, LogEntry, ManagerState, Outcome, QueuedEntry,
    RunActionValue, RunEvent, RunPhase, RunState, ServeAction, Supervision, SESSION_EXITED,
    SESSION_FAILED, SESSION_REQUESTED, SESSION_RESTARTED, SESSION_STARTED, SESSION_STATUS,
    SESSION_STATUS_REQUESTED,
};
use crate::text;
use vstd::prelude::*;

verus! {

broadcast use vstd::string::group_string_axioms;

/// An event about a session, of this kind and with these fields besides its id and
/// its agent.
pub open spec fn about(
    run: RunState,
    kind: Seq<char>,
    more: Map<Seq<char>, JsonValue>,
) -> EventValue {
    EventValue {
        kind,
        subject: None,
        traceparent: None,
        data: JsonValue::Object(
            map![
                "session_id"@ => JsonValue::Text(run.session_id),
                "agent_id"@ => JsonValue::Text(run.agent_id),
            ].union_prefer_right(more),
        ),
    }
}

/// A running session whose process exits with a code other than zero is restarted
/// whenever its budget is not used up: after the configured delay, with the count
/// one higher, and the restart is announced with that count. Then the command is
/// spawned again, under the same lifetime.
pub proof fn a_failing_exit_within_the_budget_is_restarted(
    run: RunState,
    code: i32,
    duration_ms: u64,
)
    requires
        run.phase == RunPhase::Running,
        code != 0,
        run.restarts < run.supervision.max_restarts,
    ensures
        ({
            let (backing, delay) = session::supervised(
                run,
                RunEvent::Ended(Outcome::Exited(code), duration_ms),
            );
            let (announcing, announcement) = session::supervised(backing, RunEvent::BackedOff);
            let (spawning, spawn) = session::supervised(announcing, RunEvent::Announced);
            let (running, wait) = session::supervised(spawning, RunEvent::Spawned);
            &&& delay == RunActionValue::BackOff(run.supervision.restart_backoff)
            &&& announcement == RunActionValue::Announce(
                about(
                    run,
                    SESSION_RESTARTED@,
                    map![
                        "restarts"@ => JsonValue::Number(
                            text::decimal((run.restarts + 1) as nat),
                        ),
                    ],
                ),
            )
            &&& spawn == RunActionValue::Spawn
            &&& wait == RunActionValue::Wait(run.supervision.lifetime)
            &&& running == RunState { restarts: (run.restarts + 1) as u32, ..run }
        }),
{
    lemma_field_names();
    assert(map![
        "session_id"@ => JsonValue::Text(run.session_id),
        "agent_id"@ => JsonValue::Text(run.agent_id),
    ].union_prefer_right(
        map!["restarts"@ => JsonValue::Number(text::decimal((run.restarts + 1) as nat))],
    ) =~= map![
        "session_id"@ => JsonValue::Text(run.session_id),
        "agent_id"@ => JsonValue::Text(run.agent_id),
        "restarts"@ => JsonValue::Number(text::decimal((run.restarts + 1) as nat)),
    ]);
}

/// A running session whose process exits cleanly, or fails with its budget used
/// up, is reported as exited with the code and the duration; one that could not be
/// supervised or outlived its lifetime is reported as failed, with the reason.
pub proof fn everything_else_is_reported(
    run: RunState,
    outcome: Outcome,
    duration_ms: u64,
    ended: RunEvent,
)
    requires
        run.phase == RunPhase::Running,
        ended == RunEvent::Ended(outcome, duration_ms),
        outcome matches Outcome::Exited(code) ==> code == 0 || run.restarts
            >= run.supervision.max_restarts,
    ensures
        session::supervised(run, ended) == (
            RunState { phase: RunPhase::Reporting, ..run },
            RunActionValue::Report(
                match outcome {
                    Outcome::Exited(code) => about(
                        run,
                        SESSION_EXITED@,
                        map![
                            "exit_code"@ => JsonValue::Number(json::integer_text(code as int)),
                            "duration_ms"@ => JsonValue::Number(
                                text::decimal(duration_ms as nat),
                            ),
                        ],
                    ),
                    Outcome::Failed(error) => about(
                        run,
                        SESSION_FAILED@,
                        map!["error"@ => JsonValue::Text(error@)],
                    ),
                    Outcome::Lifetime => about(
                        run,
                        SESSION_FAILED@,
                        map![
                            "error"@ => JsonValue::Text(
                                "the session exceeded its maximum lifetime"@,
                            ),
                        ],
                    ),
                },
            ),
        ),
{
    lemma_field_names();
    match outcome {
        Outcome::Exited(code) => {
            let exit = JsonValue::Number(json::integer_text(code as int));
            let lasted = JsonValue::Number(text::decimal(duration_ms as nat));
            assert(map![
                "session_id"@ => JsonValue::Text(run.session_id),
                "agent_id"@ => JsonValue::Text(run.agent_id),
            ].union_prefer_right(map!["exit_code"@ => exit, "duration_ms"@ => lasted]) =~= map![
                "session_id"@ => JsonValue::Text(run.session_id),
                "agent_id"@ => JsonValue::Text(run.agent_id),
                "exit_code"@ => exit,
                "duration_ms"@ => lasted,
            ]);
        },
        Outcome::Failed(error) => {
            lemma_failure(run, error@);
        },
        Outcome::Lifetime => {
            lemma_failure(run, "the session exceeded its maximum lifetime"@);
        },
    }
}

proof fn lemma_failure(run: RunState, error: Seq<char>)
    ensures
        session::failed_event(run.session_id, run.agent_id, error) == about(
            run,
            SESSION_FAILED@,
            map!["error"@ => JsonValue::Text(error)],
        ),
{
    lemma_field_names();
    assert(map![
        "session_id"@ => JsonValue::Text(run.session_id),
        "agent_id"@ => JsonValue::Text(run.agent_id),
    ].union_prefer_right(map!["error"@ => JsonValue::Text(error)]) =~= map![
        "session_id"@ => JsonValue::Text(run.session_id),
        "agent_id"@ => JsonValue::Text(run.agent_id),
        "error"@ => JsonValue::Text(error),
    ]);
}

proof fn lemma_field_names()
    ensures
        "session_id"@ != "agent_id"@,
        "session_id"@ != "restarts"@,
        "session_id"@ != "exit_code"@,
        "session_id"@ != "duration_ms"@,
        "session_id"@ != "error"@,
        "agent_id"@ != "restarts"@,
        "agent_id"@ != "exit_code"@,
        "agent_id"@ != "duration_ms"@,
        "agent_id"@ != "error"@,
        "exit_code"@ != "duration_ms"@,
{
    reveal_strlit("session_id");
    reveal_strlit("agent_id");
    reveal_strlit("restarts");
    reveal_strlit("exit_code");
    reveal_strlit("duration_ms");
    reveal_strlit("error");
    assert("session_id"@.len() == 10);
    assert("agent_id"@.len() == 8 && "restarts"@.len() == 8);
    assert("agent_id"@[0] == 'a' && "restarts"@[0] == 'r');
    assert("exit_code"@.len() == 9 && "duration_ms"@.len() == 11 && "error"@.len() == 5);
}

/// The session after its process exited with a code other than zero and was
/// launched again.
pub open spec fn relaunched(run: RunState, exit: (i32, u64)) -> RunState {
    let backing = session::supervised(
        run,
        RunEvent::Ended(Outcome::Exited(exit.0), exit.1),
    ).0;
    let announcing = session::supervised(backing, RunEvent::BackedOff).0;
    let spawning = session::supervised(announcing, RunEvent::Announced).0;
    session::supervised(spawning, RunEvent::Spawned).0
}

/// The session after all these exits, each followed by a launch.
pub open spec fn after_exits(run: RunState, exits: Seq<(i32, u64)>) -> RunState
    decreases exits.len(),
{
    if exits.len() == 0 {
        run
    } else {
        relaunched(after_exits(run, exits.drop_last()), exits.last())
    }
}

/// A session that always fails is restarted exactly as often as its budget says,
/// and the failure after that is reported with its code.
pub proof fn a_failing_session_uses_up_its_budget(
    session_id: Seq<char>,
    agent_id: Seq<char>,
    supervision: Supervision,
    exits: Seq<(i32, u64)>,
    last: (i32, u64),
)
    requires
        forall|i: int| 0 <= i < exits.len() ==> (#[trigger] exits[i]).0 != 0,
        last.0 != 0,
        exits.len() <= supervision.max_restarts,
    ensures
        ({
            let fresh = session::requested_run(session_id, agent_id, supervision);
            let (spawning, spawn) = session::supervised(fresh, RunEvent::Announced);
            let (running, wait) = session::supervised(spawning, RunEvent::Spawned);
            let after = after_exits(running, exits);
            let ended = session::supervised(
                after,
                RunEvent::Ended(Outcome::Exited(last.0), last.1),
            );
            &&& session::announcement_of(fresh) == about(
                fresh,
                SESSION_STARTED@,
                Map::<Seq<char>, JsonValue>::empty(),
            )
            &&& spawn == RunActionValue::Spawn
            &&& wait == RunActionValue::Wait(supervision.lifetime)
            &&& after == RunState {
                session_id,
                agent_id,
                supervision,
                restarts: exits.len() as u32,
                phase: RunPhase::Running,
            }
            &&& exits.len() < supervision.max_restarts ==> ended.1 == RunActionValue::BackOff(
                supervision.restart_backoff,
            )
            &&& exits.len() == supervision.max_restarts ==> ended.1 == RunActionValue::Report(
                about(
                    after,
                    SESSION_EXITED@,
                    map![
                        "exit_code"@ => JsonValue::Number(json::integer_text(last.0 as int)),
                        "duration_ms"@ => JsonValue::Number(text::decimal(last.1 as nat)),
                    ],
                ),
            )
        }),
    decreases exits.len(),
{
    let fresh = session::requested_run(session_id, agent_id, supervision);
    let running = session::supervised(
        session::supervised(fresh, RunEvent::Announced).0,
        RunEvent::Spawned,
    ).0;
    let none = Map::<Seq<char>, JsonValue>::empty();
    let own = map![
        "session_id"@ => JsonValue::Text(session_id),
        "agent_id"@ => JsonValue::Text(agent_id),
    ];
    assert(own.union_prefer_right(none) =~= own);
    if exits.len() > 0 {
        let earlier = exits.drop_last();
        assert forall|i: int| 0 <= i < earlier.len() implies (#[trigger] earlier[i]).0 != 0 by {
            assert(earlier[i] == exits[i]);
        }
        a_failing_session_uses_up_its_budget(
            session_id,
            agent_id,
            supervision,
            earlier,
            exits.last(),
        );
        let before = after_exits(running, earlier);
        assert(exits[exits.len() - 1].0 != 0);
        a_failing_exit_within_the_budget_is_restarted(before, exits.last().0, exits.last().1);
        assert(after_exits(running, exits) == relaunched(before, exits.last()));
    } else {
        assert(after_exits(running, exits) == running);
    }
    let after = after_exits(running, exits);
    if exits.len() == supervision.max_restarts {
        everything_else_is_reported(
            after,
            Outcome::Exited(last.0),
            last.1,
            RunEvent::Ended(Outcome::Exited(last.0), last.1),
        );
    }
}

/// A command that cannot be spawned is reported as failed, with the reason, and is
/// not tried again.
pub proof fn a_spawn_that_fails_is_reported(run: RunState, error: String)
    requires
        run.phase == RunPhase::Spawning,
    ensures
        session::supervised(run, RunEvent::SpawnFailed(error)) == (
            RunState { phase: RunPhase::Reporting, ..run },
            RunActionValue::Report(
                about(run, SESSION_FAILED@, map!["error"@ => JsonValue::Text(error@)]),
            ),
        ),
{
    lemma_failure(run, error@);
}

/// A session is not run unless its announcement was recorded, and supervision
/// stops once its end was reported.
pub proof fn nothing_runs_unannounced(run: RunState, event: RunEvent)
    ensures
        run.phase == RunPhase::Announcing && !(event is Announced) ==> session::supervised(
            run,
            event,
        ) == (RunState { phase: RunPhase::Done, ..run }, RunActionValue::Stop),
        session::supervised(run, event).1 is Spawn ==> run.phase == RunPhase::Announcing,
        session::supervised(run, event).0.session_id == run.session_id,
        session::supervised(run, event).0.agent_id == run.agent_id,
        session::supervised(run, event).0.supervision == run.supervision,
{
}

/// A record of a session's lifecycle, for the fold.
pub open spec fn is_record(
    event: EventValue,
    kind: Seq<char>,
    fields: Map<Seq<char>, JsonValue>,
    session_id: Seq<char>,
) -> bool {
    &&& event.kind == kind
    &&& event.data == JsonValue::Object(fields)
    &&& fields.contains_key("session_id"@)
    &&& fields["session_id"@] == JsonValue::Text(session_id)
}

/// A start opens its session with no restarts, a restart with the count it
/// carries, or one when it carries none that is usable, and an exit or a failure
/// closes it. Every other session stays as it is.
pub proof fn the_fold_follows_each_record(
    events: Seq<EventValue>,
    event: EventValue,
    kind: Seq<char>,
    fields: Map<Seq<char>, JsonValue>,
    session_id: Seq<char>,
    count: u64,
)
    requires
        is_record(event, kind, fields, session_id),
        fields.contains_key("restarts"@) ==> fields["restarts"@] == JsonValue::Number(
            text::decimal(count as nat),
        ),
    ensures
        ({
            let before = session::active_sessions(events);
            let after = session::active_sessions(events.push(event));
            &&& kind == SESSION_STARTED@ ==> after == before.insert(session_id, 0)
            &&& kind == SESSION_RESTARTED@ ==> after == before.insert(
                session_id,
                if fields.contains_key("restarts"@) && count <= u32::MAX {
                    count as u32
                } else {
                    1
                },
            )
            &&& kind == SESSION_EXITED@ || kind == SESSION_FAILED@ ==> after == before.remove(
                session_id,
            )
            &&& kind != SESSION_STARTED@ && kind != SESSION_RESTARTED@ && kind != SESSION_EXITED@
                && kind != SESSION_FAILED@ ==> after == before
        }),
        session::active_sessions(Seq::empty()) == Map::<Seq<char>, u32>::empty(),
{
    json::integers_read_back(count);
    lemma_lifecycle_kinds();
    assert(events.push(event).drop_last() =~= events);
}

proof fn lemma_lifecycle_kinds()
    ensures
        SESSION_STARTED@ != SESSION_RESTARTED@,
        SESSION_STARTED@ != SESSION_EXITED@,
        SESSION_STARTED@ != SESSION_FAILED@,
        SESSION_RESTARTED@ != SESSION_EXITED@,
        SESSION_RESTARTED@ != SESSION_FAILED@,
        SESSION_REQUESTED@ != SESSION_STATUS_REQUESTED@,
{
    reveal_strlit("session.started");
    reveal_strlit("session.restarted");
    reveal_strlit("session.exited");
    reveal_strlit("session.failed");
    reveal_strlit("session.requested");
    reveal_strlit("session.status.requested");
    assert(SESSION_STARTED@.len() == 15 && SESSION_RESTARTED@.len() == 17);
    assert(SESSION_EXITED@.len() == 14 && SESSION_FAILED@.len() == 14);
    assert(SESSION_REQUESTED@.len() == 17 && SESSION_STATUS_REQUESTED@.len() == 24);
}

/// A fold takes every entry before the first that is past the snapshot or cannot
/// be read, in order and none after it.
pub proof fn a_fold_takes_what_the_snapshot_holds(
    entries: Seq<Result<LogEntry, LogError>>,
    through: u64,
)
    ensures
        ({
            let count = session::folded(entries, through);
            &&& 0 <= count <= entries.len()
            &&& forall|i: int|
                0 <= i < count ==> (#[trigger] entries[i]) is Ok && entries[i]->Ok_0.seq <= through
            &&& count < entries.len() ==> entries[count] is Err || entries[count]->Ok_0.seq
                > through
            &&& forall|i: int|
                0 <= i < count ==> #[trigger] session::entry_events(entries.take(count))[i]
                    == entries[i]->Ok_0.event@
            &&& session::entry_events(entries.take(count)).len() == count
        }),
    decreases entries.len(),
{
    if entries.len() > 0 && entries[0] is Ok && entries[0]->Ok_0.seq <= through {
        let rest = entries.skip(1);
        a_fold_takes_what_the_snapshot_holds(rest, through);
        let count = session::folded(entries, through);
        assert forall|i: int| 0 <= i < count implies (#[trigger] entries[i]) is Ok
            && entries[i]->Ok_0.seq <= through by {
            if i > 0 {
                assert(rest[i - 1] == entries[i]);
            }
        }
        if count < entries.len() {
            assert(rest[count - 1] == entries[count]);
        }
    }
}

/// A session is recorded as interrupted under its own id, with the reason.
pub proof fn an_interruption_names_its_session(run: RunState)
    ensures
        session::interrupted_event(run.session_id, run.agent_id) == about(
            run,
            SESSION_FAILED@,
            map![
                "error"@ => JsonValue::Text("the daemon restarted while the session was active"@),
            ],
        ),
{
    lemma_failure(run, "the daemon restarted while the session was active"@);
}

/// A request launches a session under the id it names, or under its own; a status
/// request is answered with every active session and its restart count, each once
/// and in order; every other event asks for nothing.
pub proof fn requests_are_served<P>(
    manager: ManagerState<P>,
    event: EventValue,
    event_id: Seq<char>,
    action: ServeAction,
    fields: Map<Seq<char>, JsonValue>,
    named: Seq<char>,
)
    requires
        session::served(manager, event, event_id, action),
        event.data == JsonValue::Object(fields),
        fields.contains_key("session_id"@) ==> fields["session_id"@] == JsonValue::Text(named),
    ensures
        event.kind == SESSION_REQUESTED@ ==> action is Launch && action->Launch_0@ == (RunState {
            session_id: if fields.contains_key("session_id"@) {
                named
            } else {
                event_id
            },
            agent_id: manager.agent_id,
            supervision: manager.supervision,
            restarts: 0,
            phase: RunPhase::Announcing,
        }),
        event.kind == SESSION_STATUS_REQUESTED@ ==> action is Report && {
            let report = action->Report_0@;
            &&& report.kind == SESSION_STATUS@
            &&& exists|ids: Seq<Seq<char>>|
                text::ascending(ids) && (forall|id: Seq<char>| #[trigger]
                    ids.contains(id) <==> manager.active.contains_key(id)) && report.data
                    == #[trigger] listed(manager.active, ids)
        },
        event.kind != SESSION_REQUESTED@ && event.kind != SESSION_STATUS_REQUESTED@ ==> action
            is Nothing,
{
    lemma_lifecycle_kinds();
    if event.kind == SESSION_STATUS_REQUESTED@ {
        let ids = choose|ids: Seq<Seq<char>>|
            session::in_order(manager.active, ids) && action->Report_0@
                == #[trigger] session::status_event(manager.active, ids);
        assert(Seq::new(
            ids.len(),
            |i: int| session::status_entry(ids[i], manager.active[ids[i]]),
        ) =~= Seq::new(
            ids.len(),
            |i: int|
                JsonValue::Object(
                    map![
                        "session_id"@ => JsonValue::Text(ids[i]),
                        "restarts"@ => JsonValue::Number(
                            text::decimal(manager.active[ids[i]] as nat),
                        ),
                    ],
                ),
        ));
        assert(action->Report_0@.data == listed(manager.active, ids));
    }
}

/// The data of a status report.
pub open spec fn listed(active: Map<Seq<char>, u32>, ids: Seq<Seq<char>>) -> JsonValue {
    JsonValue::Object(
        map![
            "sessions"@ => JsonValue::Array(
                Seq::new(
                    ids.len(),
                    |i: int|
                        JsonValue::Object(
                            map![
                                "session_id"@ => JsonValue::Text(ids[i]),
                                "restarts"@ => JsonValue::Number(
                                    text::decimal(active[ids[i]] as nat),
                                ),
                            ],
                        ),
                ),
            ),
        ],
    )
}

/// A permission request waits until the deadline after it was recorded, or the end
/// of time; without a deadline it is not timed. A decision of any of the three
/// kinds ends the wait of the request it names, and of no other.
pub proof fn permissions_wait_for_their_deadline(
    approval: Option<u64>,
    event: EventValue,
    now: u64,
    pending: Map<KeyValue, u64>,
    key: KeyValue,
)
    requires
        approvals::key_of(event) == Some(key),
    ensures
        ({
            let after = session::pending_after(approval, event, now, pending);
            &&& event.kind == SESSION_PERMISSION_REQUESTED@ ==> after == match approval {
                Some(wait) => pending.insert(
                    key,
                    if now + wait <= u64::MAX {
                        (now + wait) as u64
                    } else {
                        u64::MAX
                    },
                ),
                None => pending,
            }
            &&& event.kind == SESSION_PERMISSION_GRANTED@ || event.kind
                == SESSION_PERMISSION_DENIED@ || event.kind == SESSION_PERMISSION_CANCELLED@
                ==> after == pending.remove(key)
            &&& event.kind != SESSION_PERMISSION_REQUESTED@ && event.kind
                != SESSION_PERMISSION_GRANTED@ && event.kind != SESSION_PERMISSION_DENIED@
                && event.kind != SESSION_PERMISSION_CANCELLED@ ==> after == pending
        }),
{
    reveal_strlit("session.permission.requested");
    reveal_strlit("session.permission.granted");
    reveal_strlit("session.permission.denied");
    reveal_strlit("session.permission.cancelled");
    assert(SESSION_PERMISSION_REQUESTED@.len() == 28 && SESSION_PERMISSION_REQUESTED@[19] == 'r');
    assert(SESSION_PERMISSION_CANCELLED@.len() == 28 && SESSION_PERMISSION_CANCELLED@[19] == 'c');
    assert(SESSION_PERMISSION_GRANTED@.len() == 26 && SESSION_PERMISSION_DENIED@.len() == 25);
}

/// An event is routed to the session its subject names, and to no other; one
/// without a subject is routed to none.
pub proof fn the_subject_names_the_session(event: EventValue, session_id: Seq<char>)
    ensures
        session::routed(event, session_id) <==> event.subject == Some("session:"@ + session_id),
        event.subject is None ==> !session::routed(event, session_id),
{
}

/// What a bridge publishes is recorded as it is, under the session it comes from;
/// what it writes stays as it is.
pub proof fn published_events_name_their_session(
    event: EventValue,
    line: Seq<char>,
    session_id: Seq<char>,
)
    ensures
        ({
            let sent = session::addressed(ActionValue::Publish(event), session_id);
            &&& sent is Publish
            &&& sent->Publish_0.kind == event.kind
            &&& sent->Publish_0.data == event.data
            &&& sent->Publish_0.traceparent == event.traceparent
            &&& sent->Publish_0.subject == Some("session:"@ + session_id)
            &&& session::routed(sent->Publish_0, session_id)
        }),
        session::addressed(ActionValue::Write(line), session_id) == ActionValue::Write(line),
{
}

/// The end of one source of a child's input leaves the other open.
pub proof fn each_source_ends_by_itself(writer: InputWriter)
    ensures
        session::received(writer, LineSource::Events, true) == (InputWriter {
            events_open: false,
            replies_open: writer.replies_open,
        }),
        session::received(writer, LineSource::Replies, true) == (InputWriter {
            events_open: writer.events_open,
            replies_open: false,
        }),
        writer.events_open ==> session::received(writer, LineSource::Events, false) == writer,
        writer.replies_open ==> session::received(writer, LineSource::Replies, false) == writer,
{
}

/// A manager that is only given its command, agent and working directory never
/// restarts a session, bridges none, and lets permissions wait.
pub proof fn an_unconfigured_manager_only_runs_its_command<P>(
    command: Seq<char>,
    agent_id: Seq<char>,
    workdir: Seq<char>,
)
    ensures
        ({
            let manager = session::unconfigured::<P>(command, agent_id, workdir);
            &&& manager.command == command
            &&& manager.agent_id == agent_id
            &&& manager.workdir == workdir
            &&& manager.supervision.max_restarts == 0
            &&& manager.supervision.lifetime is None
            &&& manager.protocol is None
            &&& manager.permission_approval is None
            &&& manager.active == Map::<Seq<char>, u32>::empty()
        }),
{
}

/// Queued events are taken into account in order, without those that
/// reconciliation folded.
pub proof fn queued_events_count_in_order(
    approval: Option<u64>,
    queued: Seq<QueuedEntry>,
    next: QueuedEntry,
    snapshot: u64,
    now: u64,
    pending: Map<KeyValue, u64>,
)
    ensures
        session::pending_after_all(approval, Seq::empty(), snapshot, now, pending) == pending,
        session::pending_after_all(approval, queued.push(next), snapshot, now, pending) == {
            let before = session::pending_after_all(approval, queued, snapshot, now, pending);
            if next.entry.seq > snapshot {
                session::pending_after(approval, next.entry.event@, now, before)
            } else {
                before
            }
        },
{
    assert(queued.push(next).drop_last() =~= queued);
}

/// An event of a bridge always leaves its session, under the session's subject; a line
/// for the child leaves while there is a child to write to.
pub proof fn what_a_bridge_does_leaves_its_session(
    session_id: Seq<char>,
    action: ActionValue,
    writable: bool,
    r: Option<Action>,
)
    requires
        session::leaves(session_id, action, writable, r),
    ensures
        action is Publish ==> r is Some && r->0@ == session::addressed(action, session_id),
        action is Write && writable ==> r is Some && r->0@ == action,
        action is Write && !writable ==> r is None,
{
}

/// An event that was queued is served like any other; one that reconciliation folded
/// asks for nothing.
pub proof fn queued_events_are_served_once<P>(
    manager: ManagerState<P>,
    queued: QueuedEntry,
    snapshot: u64,
    action: ServeAction,
)
    requires
        session::served_entry(manager, queued, snapshot, action),
    ensures
        queued.entry.seq <= snapshot ==> action is Nothing,
        queued.entry.seq > snapshot ==> session::served(
            manager,
            queued.entry.event@,
            queued.event_id@,
            action,
        ),
{
}

/// A list of events stands for each of them, in order.
pub proof fn events_stand_for_themselves(events: Seq<Event>, values: Seq<Json>, i: int)
    ensures
        session::event_views(events).len() == events.len(),
        0 <= i < events.len() ==> session::event_views(events)[i] == events[i]@,
        session::json_views(values).len() == values.len(),
        0 <= i < values.len() ==> session::json_views(values)[i] == values[i].view(),
{
}

/// A fold takes every entry up to the snapshot, as the log's own record of active
/// sessions does, and no entry past it.
pub proof fn a_fold_takes_each_entry_in_turn(
    events: Seq<EventValue>,
    event: EventValue,
    before: FoldState,
    seq: u64,
    after: FoldState,
    r: bool,
)
    requires
        session::taken(before, seq, event, after, r),
        before.active == session::active_sessions(events),
    ensures
        seq <= before.through ==> r && after.active == session::active_sessions(
            events.push(event),
        ),
        seq > before.through ==> !r && after.active == before.active,
        after.through == before.through,
{
    assert(events.push(event).drop_last() =~= events);
}

} // verus!
