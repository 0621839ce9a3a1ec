//! What the migrations of the event store promise.

use crate::events::{Event, EventValue};
use crate::eventstore::{self, Migration, Received, StoreError};
use crate::json::JsonValue;
use crate::text;
use vstd::prelude::*;

verus! {

broadcast use vstd::string::group_string_axioms;

/// The latest version is the highest that a migration leads to.
pub proof fn the_latest_version_is_the_highest(migrations: Seq<(u32, Seq<char>)>, i: int)
    ensures
        0 <= i < migrations.len() ==> migrations[i].0 <= eventstore::latest_version(migrations),
        eventstore::latest_version(migrations) == 0 || exists|k: int|
            0 <= k < migrations.len() && (#[trigger] migrations[k]).0
                == eventstore::latest_version(migrations),
    decreases migrations.len(),
{
    if migrations.len() > 0 {
        let init = migrations.drop_last();
        the_latest_version_is_the_highest(init, i);
        if 0 <= i < init.len() {
            assert(init[i] == migrations[i]);
        }
        if migrations.last().0 > eventstore::latest_version(init) {
            assert(migrations[migrations.len() - 1].0 == eventstore::latest_version(migrations));
        } else if eventstore::latest_version(init) != 0 {
            let k = choose|k: int|
                0 <= k < init.len() && (#[trigger] init[k]).0 == eventstore::latest_version(init);
            assert(migrations[k].0 == eventstore::latest_version(migrations));
        }
    }
}

/// A database needs each migration to a version past its own, in order, and no
/// other.
pub proof fn every_later_migration_is_needed(
    before: Seq<(u32, Seq<char>)>,
    migration: (u32, Seq<char>),
    after: Seq<(u32, Seq<char>)>,
    stored: u32,
)
    ensures
        eventstore::pending(Seq::empty(), stored) == Seq::<(u32, Seq<char>)>::empty(),
        migration.0 > stored ==> eventstore::pending(before.push(migration) + after, stored)
            == eventstore::pending(before, stored).push(migration) + eventstore::pending(
            after,
            stored,
        ),
        migration.0 <= stored ==> eventstore::pending(before.push(migration) + after, stored)
            == eventstore::pending(before, stored) + eventstore::pending(after, stored),
    decreases after.len(),
{
    let head = before.push(migration);
    let all = head + after;
    if after.len() == 0 {
        assert(all =~= head);
        assert(head.drop_last() =~= before);
        assert(eventstore::pending(after, stored) =~= Seq::empty());
        assert(eventstore::pending(before, stored).push(migration) + Seq::<(u32, Seq<char>)>::empty()
            =~= eventstore::pending(before, stored).push(migration));
        assert(eventstore::pending(before, stored) + Seq::<(u32, Seq<char>)>::empty()
            =~= eventstore::pending(before, stored));
    } else {
        assert(all.drop_last() =~= head + after.drop_last());
        assert(all.last() == after.last());
        every_later_migration_is_needed(before, migration, after.drop_last(), stored);
        if migration.0 > stored {
            let first = eventstore::pending(before, stored).push(migration);
            assert(eventstore::pending(all, stored) =~= first + eventstore::pending(after, stored));
        } else {
            let first = eventstore::pending(before, stored);
            assert(eventstore::pending(all, stored) =~= first + eventstore::pending(after, stored));
        }
    }
}

/// A database newer than every migration is refused, with both versions; any other is
/// brought up to date.
pub proof fn newer_databases_are_refused(
    known: Seq<(u32, Seq<char>)>,
    stored: u32,
    r: Result<Vec<Migration>, StoreError>,
    i: int,
)
    requires
        eventstore::migration_answer(known, stored, r),
    ensures
        0 <= i < known.len() && stored <= known[i].0 ==> r is Ok,
        stored == 0 ==> r is Ok,
        r is Ok ==> eventstore::migration_views(r->Ok_0@) == eventstore::pending(known, stored),
        r is Err ==> r->Err_0 == (StoreError::UnsupportedSchema {
            stored,
            latest: eventstore::latest_version(known),
        }),
        stored > 0 && (forall|k: int| 0 <= k < known.len() ==> (#[trigger] known[k]).0 < stored)
            ==> r is Err,
{
    the_latest_version_is_the_highest(known, i);
}

/// What is received is stored as it is, a gap is marked with the number of events that
/// it swallowed, and the end of the events stores nothing.
pub proof fn every_event_is_stored(received: Received, stored: Option<Event>)
    requires
        eventstore::collected(received, stored),
    ensures
        received is Event ==> stored == Some(received->Event_0),
        received is Closed ==> stored is None,
        received is Lagged ==> stored is Some && stored->0@ == (EventValue {
            kind: "store.lagged"@,
            subject: None,
            traceparent: None,
            data: JsonValue::Object(
                map!["missed"@ => JsonValue::Number(text::decimal(received->Lagged_0 as nat))],
            ),
        }),
{
}

/// A migration stands for its version and its statements.
pub proof fn migrations_stand_for_their_statements(migrations: Seq<Migration>, i: int)
    requires
        0 <= i < migrations.len(),
    ensures
        eventstore::migration_views(migrations).len() == migrations.len(),
        eventstore::migration_views(migrations)[i] == (migrations[i].version, migrations[i].sql@),
{
}

} // verus!
