//! Events: what components publish and react to.

use crate::json::{Json, JsonValue};
use crate::text;
use vstd::prelude::*;

verus! {

broadcast use vstd::string::group_string_axioms;

/// The version of the envelope that carries an event.
pub const SPECVERSION: &'static str = "1.0";

/// Why an envelope of version `specversion` is refused, if it is: only
/// [`SPECVERSION`] is spoken.
pub fn unsupported_specversion(specversion: &str) -> (r: Option<String>)
    ensures
        text::opt_view(r) == if specversion@ == SPECVERSION@ {
            None
        } else {
            Some("specversion must be 1.0"@)
        },
{
    if text::same(specversion, SPECVERSION) {
        None
    } else {
        Some("specversion must be 1.0".to_owned())
    }
}

/// An event exchanged between components and connected clients.
#[derive(Debug)]
pub struct Event {
    /// The event kind, e.g. `error.lagged`.
    pub kind: String,
    /// What the event is about, e.g. one session.
    pub subject: Option<String>,
    /// The trace the event belongs to.
    pub traceparent: Option<String>,
    /// The event payload.
    pub data: Json,
}

/// What an event is, as plain values.
#[verifier::ext_equal]
pub struct EventValue {
    pub kind: Seq<char>,
    pub subject: Option<Seq<char>>,
    pub traceparent: Option<Seq<char>>,
    pub data: JsonValue,
}

impl View for Event {
    type V = EventValue;

    open spec fn view(&self) -> EventValue {
        EventValue {
            kind: self.kind@,
            subject: text::opt_view(self.subject),
            traceparent: text::opt_view(self.traceparent),
            data: self.data@,
        }
    }
}

/// The event of a kind with a payload, about nothing in particular.
pub open spec fn event_of(kind: Seq<char>, data: JsonValue) -> EventValue {
    EventValue { kind, subject: None, traceparent: None, data }
}

impl Event {
    /// Creates an event with `kind` and `payload`.
    pub fn new(kind: &str, payload: Json) -> (r: Event)
        ensures
            r@ == event_of(kind@, payload@),
    {
        Event { kind: kind.to_owned(), subject: None, traceparent: None, data: payload }
    }

    /// The event, about `subject`.
    #[must_use]
    pub fn with_subject(self, subject: String) -> (r: Event)
        ensures
            r@ == (EventValue { subject: Some(subject@), ..self@ }),
    {
        Event { subject: Some(subject), ..self }
    }

    /// The event, belonging to the trace `traceparent`.
    #[must_use]
    pub fn with_traceparent(self, traceparent: String) -> (r: Event)
        ensures
            r@ == (EventValue { traceparent: Some(traceparent@), ..self@ }),
    {
        Event { traceparent: Some(traceparent), ..self }
    }
}

impl Clone for Event {
    fn clone(&self) -> (r: Event)
        ensures
            r@ == self@,
    {
        let subject = match &self.subject {
            Some(subject) => Some(subject.clone()),
            None => None,
        };
        let traceparent = match &self.traceparent {
            Some(traceparent) => Some(traceparent.clone()),
            None => None,
        };
        Event { kind: self.kind.clone(), subject, traceparent, data: self.data.clone() }
    }
}

} // verus!
