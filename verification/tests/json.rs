use agentd::events::Event;
use agentd::json::Json;

#[test]
fn values_are_written_and_parsed() {
    let value = Json::object()
        .with("text", Json::text("a\"b\n"))
        .with("number", Json::unsigned(u64::MAX))
        .with("negative", Json::integer(-5))
        .with("list", Json::Array(vec![Json::Null, Json::Bool(true)]));
    let written = value.to_string();
    assert!(!written.contains('\n'));
    let parsed = Json::parse(&written).expect("valid JSON");
    assert_eq!(parsed.get_str("text"), Some("a\"b\n"));
    assert_eq!(parsed.get_u64("number"), Some(u64::MAX));
    assert_eq!(parsed.get_u64("negative"), None);
    assert_eq!(parsed.to_string(), written);
    let reference: serde_json::Value = serde_json::from_str(&written).expect("valid JSON");
    assert_eq!(reference["negative"], -5);
    assert_eq!(reference["list"][1], true);
}

#[test]
fn what_is_no_json_is_not_parsed() {
    for text in ["", "not json", "{", "{}x"] {
        assert!(Json::parse(text).is_none());
    }
}

#[test]
fn a_later_field_replaces_an_earlier_one() {
    let value = Json::object().with("a", Json::unsigned(1)).with("a", Json::unsigned(2));
    assert_eq!(value.get_u64("a"), Some(2));
    assert_eq!(Json::parse(&value.to_string()).expect("valid").get_u64("a"), Some(2));
}

#[test]
fn values_of_other_shapes_have_no_fields() {
    assert!(Json::text("x").get("a").is_none());
    assert!(Json::Null.is_null());
    assert!(Json::object().copy_field("missing").is_null());
    assert_eq!(Json::text("x").as_str(), Some("x"));
    assert_eq!(Json::unsigned(7).as_u64(), Some(7));
}

#[test]
fn events_keep_what_they_are_given() {
    let event = Event::new("k", Json::text("d"))
        .with_subject(String::from("s"))
        .with_traceparent(String::from("t"));
    let copy = event.clone();
    assert_eq!(copy.kind, "k");
    assert_eq!(copy.subject.as_deref(), Some("s"));
    assert_eq!(copy.traceparent.as_deref(), Some("t"));
    assert_eq!(copy.data.as_str(), Some("d"));
}
