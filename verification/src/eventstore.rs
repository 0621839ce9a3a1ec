//! Durable persistence of events in a database: its schema migrations and the
//! collection of events from the bus.
//!
//! Persistence is best-effort: a store that falls behind the bus records the
//! missed span with a `store.lagged` marker event, and a failing backend stops
//! persistence while the daemon keeps running.

use crate::events::{event_of, Event};
use crate::json::{self, Json, JsonValue};
use crate::text;
use vstd::prelude::*;

verus! {

broadcast use vstd::string::group_string_axioms;

/// Capacity of the queue between the collector and the writer; when the writer
/// falls behind, it bounds the buffered events.
pub const QUEUE_CAPACITY: usize = 1024;

/// Kind of the marker event recorded when the store misses events because it
/// lagged behind the bus.
pub const LAGGED_KIND: &'static str = "store.lagged";

/// The statement that stores one event.
pub const INSERT_EVENT_SQL: &'static str =
    "INSERT INTO events
    (id, source, specversion, type, time, event)
    VALUES (?1, ?2, ?3, ?4, ?5, ?6)";

/// The statement of the first migration.
pub const CREATE_EVENTS_SQL: &'static str =
    "CREATE TABLE events (
        seq         INTEGER PRIMARY KEY,
        id          TEXT    NOT NULL,
        source      TEXT    NOT NULL,
        specversion TEXT    NOT NULL,
        type        TEXT    NOT NULL,
        time        TEXT,
        event       TEXT    NOT NULL
    ) STRICT";

/// Errors returned when opening the store.
#[derive(Debug)]
pub enum StoreError {
    /// The database schema is newer than the migrations this build supports.
    UnsupportedSchema {
        /// The schema version recorded in the database.
        stored: u32,
        /// The highest schema version this build supports.
        latest: u32,
    },
    /// Opening, configuring, or migrating the database failed.
    Sql(String),
    /// Spawning the writer failed.
    Io(String),
}

/// The error in words.
pub open spec fn store_error_text(error: StoreError) -> Seq<char> {
    match error {
        StoreError::UnsupportedSchema { stored, latest } => {
            "event store schema version "@ + text::decimal(stored as nat)
                + " is newer than the supported version "@ + text::decimal(latest as nat)
        },
        StoreError::Sql(error) => error@,
        StoreError::Io(error) => error@,
    }
}

impl StoreError {
    /// The error in words.
    pub fn to_string(&self) -> (r: String)
        ensures
            r@ == match *self {
                StoreError::UnsupportedSchema { stored, latest } => {
                    "event store schema version "@ + text::decimal(stored as nat)
                        + " is newer than the supported version "@ + text::decimal(latest as nat)
                },
                StoreError::Sql(error) => error@,
                StoreError::Io(error) => error@,
            },
            r@ == store_error_text(*self),
    {
        match self {
            StoreError::UnsupportedSchema { stored, latest } => {
                let mut message = "event store schema version ".to_owned();
                message.append(text::decimal_text(*stored as u64).as_str());
                message.append(" is newer than the supported version ");
                message.append(text::decimal_text(*latest as u64).as_str());
                message
            },
            StoreError::Sql(error) => error.clone(),
            StoreError::Io(error) => error.clone(),
        }
    }
}

/// One schema migration: the version it leads to, and its statements.
#[derive(Debug)]
pub struct Migration {
    /// The schema version after the migration.
    pub version: u32,
    /// The statements of the migration.
    pub sql: String,
}

/// A migration, as plain values.
pub open spec fn migration_view(migration: Migration) -> (u32, Seq<char>) {
    (migration.version, migration.sql@)
}

/// The migrations, as plain values.
pub open spec fn migration_views(migrations: Seq<Migration>) -> Seq<(u32, Seq<char>)> {
    Seq::new(migrations.len(), |i: int| migration_view(migrations[i]))
}

/// The forward-only schema migrations, applied in order at startup.
pub fn migrations() -> (r: Vec<Migration>)
    ensures
        migration_views(r@) == seq![(1u32, CREATE_EVENTS_SQL@)],
{
    let mut list: Vec<Migration> = Vec::new();
    list.push(Migration { version: 1, sql: CREATE_EVENTS_SQL.to_owned() });
    proof {
        assert(migration_views(list@) =~= seq![(1u32, CREATE_EVENTS_SQL@)]);
    }
    list
}

/// The highest version the migrations lead to, or zero without any.
pub open spec fn latest_version(migrations: Seq<(u32, Seq<char>)>) -> u32
    decreases migrations.len(),
{
    if migrations.len() == 0 {
        0
    } else {
        let before = latest_version(migrations.drop_last());
        if migrations.last().0 > before {
            migrations.last().0
        } else {
            before
        }
    }
}

/// The migrations a database at version `stored` still needs, in order.
pub open spec fn pending(migrations: Seq<(u32, Seq<char>)>, stored: u32) -> Seq<(u32, Seq<char>)>
    decreases migrations.len(),
{
    if migrations.len() == 0 {
        Seq::empty()
    } else {
        let before = pending(migrations.drop_last(), stored);
        if migrations.last().0 > stored {
            before.push(migrations.last())
        } else {
            before
        }
    }
}

/// Whether a result is the answer to migrating a database: a newer one is refused, and
/// any other gets what it still needs.
pub open spec fn migration_answer(
    known: Seq<(u32, Seq<char>)>,
    stored: u32,
    r: Result<Vec<Migration>, StoreError>,
) -> bool {
    if stored > latest_version(known) {
        r == Err::<Vec<Migration>, StoreError>(
            StoreError::UnsupportedSchema { stored, latest: latest_version(known) },
        )
    } else {
        r is Ok && migration_views(r->Ok_0@) == pending(known, stored)
    }
}

/// The migrations a database at version `stored` still needs. A database that
/// is newer than every migration is refused.
pub fn migrate(migrations: Vec<Migration>, stored: u32) -> (r: Result<Vec<Migration>, StoreError>)
    ensures
        ({
            let known = migration_views(migrations@);
            if stored > latest_version(known) {
                r == Err::<Vec<Migration>, StoreError>(
                    StoreError::UnsupportedSchema { stored, latest: latest_version(known) },
                )
            } else {
                r is Ok && migration_views(r->Ok_0@) == pending(known, stored)
            }
        }),
        migration_answer(migration_views(migrations@), stored, r),
{
    let ghost known = migration_views(migrations@);
    let mut latest: u32 = 0;
    let mut needed: Vec<Migration> = Vec::new();
    let mut i: usize = 0;
    proof {
        assert(migration_views(needed@) =~= Seq::<(u32, Seq<char>)>::empty());
    }
    while i < migrations.len()
        invariant
            i <= migrations@.len(),
            known == migration_views(migrations@),
            latest == latest_version(known.take(i as int)),
            migration_views(needed@) == pending(known.take(i as int), stored),
        decreases migrations@.len() - i,
    {
        let version: u32 = migrations[i].version;
        proof {
            assert(known.take(i + 1).drop_last() =~= known.take(i as int));
            assert(known.take(i + 1).last() == migration_view(migrations@[i as int]));
        }
        if version > latest {
            latest = version;
        }
        if version > stored {
            let ghost before = needed@;
            needed.push(Migration { version, sql: migrations[i].sql.clone() });
            proof {
                assert(migration_views(needed@) =~= migration_views(before).push(
                    migration_view(migrations@[i as int]),
                ));
            }
        }
        i = i + 1;
    }
    proof {
        assert(known.take(i as int) =~= known);
    }
    if stored > latest {
        return Err(StoreError::UnsupportedSchema { stored, latest });
    }
    Ok(needed)
}

/// A database at the latest version needs no migration, so opening it again
/// changes nothing.
pub proof fn migrating_again_changes_nothing(migrations: Seq<(u32, Seq<char>)>)
    ensures
        pending(migrations, latest_version(migrations)).len() == 0,
{
    lemma_nothing_pending(migrations, latest_version(migrations));
}

proof fn lemma_nothing_pending(migrations: Seq<(u32, Seq<char>)>, stored: u32)
    requires
        stored >= latest_version(migrations),
    ensures
        pending(migrations, stored).len() == 0,
    decreases migrations.len(),
{
    if migrations.len() > 0 {
        lemma_nothing_pending(migrations.drop_last(), stored);
    }
}

/// What the store received from the bus.
pub enum Received {
    /// An event.
    Event(Event),
    /// This many events were missed.
    Lagged(u64),
    /// The bus closed.
    Closed,
}

/// Whether an event is what is persisted for what was received.
pub open spec fn collected(received: Received, r: Option<Event>) -> bool {
    match received {
        Received::Event(event) => r == Some(event),
        Received::Lagged(missed) => r is Some && r->0@ == event_of(
            LAGGED_KIND@,
            json::with_field(
                json::empty_object(),
                "missed"@,
                JsonValue::Number(text::decimal(missed as nat)),
            ),
        ),
        Received::Closed => r is None,
    }
}

/// The event to persist for what was received: the event itself, a marker for
/// missed ones, or none when the bus closed and the collection ends.
pub fn collect(received: Received) -> (r: Option<Event>)
    ensures
        match received {
            Received::Event(event) => r == Some(event),
            Received::Lagged(missed) => r is Some && r->0@ == event_of(
                LAGGED_KIND@,
                json::with_field(
                    json::empty_object(),
                    "missed"@,
                    JsonValue::Number(text::decimal(missed as nat)),
                ),
            ),
            Received::Closed => r is None,
        },
        collected(received, r),
{
    match received {
        Received::Event(event) => Some(event),
        Received::Lagged(missed) => Some(
            Event::new(LAGGED_KIND, Json::object().with("missed", Json::unsigned(missed))),
        ),
        Received::Closed => None,
    }
}

} // verus!
