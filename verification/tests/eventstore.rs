use agentd::events::Event;
use agentd::eventstore::{
    collect, migrate, migrations, Received, StoreError, CREATE_EVENTS_SQL, LAGGED_KIND,
};
use agentd::json::Json;

#[test]
fn open_applies_the_initial_migration_idempotently() {
    let pending = migrate(migrations(), 0).expect("supported");
    assert_eq!(pending.len(), 1);
    assert_eq!(pending[0].version, 1);
    assert_eq!(pending[0].sql, CREATE_EVENTS_SQL);
    assert!(migrate(migrations(), 1).expect("supported").is_empty());
}

#[test]
fn open_rejects_newer_schemas() {
    match migrate(migrations(), 2) {
        Err(error) => {
            assert!(matches!(error, StoreError::UnsupportedSchema { stored: 2, latest: 1 }));
            assert_eq!(
                error.to_string(),
                "event store schema version 2 is newer than the supported version 1"
            );
        }
        Ok(_) => panic!("a newer schema must be refused"),
    }
}

#[test]
fn open_records_missed_events_as_a_lagged_marker() {
    let marker = collect(Received::Lagged(3)).expect("a marker");
    assert_eq!(marker.kind, LAGGED_KIND);
    assert_eq!(marker.data.get_u64("missed"), Some(3));
}

#[test]
fn open_persists_events_published_on_the_bus() {
    let event = Event::new("test.event", Json::object().with("value", Json::unsigned(1)));
    let kept = collect(Received::Event(event)).expect("an event");
    assert_eq!(kept.kind, "test.event");
    assert!(collect(Received::Closed).is_none());
    assert_eq!(StoreError::Sql(String::from("s")).to_string(), "s");
    assert_eq!(StoreError::Io(String::from("i")).to_string(), "i");
}
