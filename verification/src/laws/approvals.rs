//! What the timing of approvals promises.

use crate::approvals::{self, KeyValue, RequestKey};
use crate::events::EventValue;
use crate::json::JsonValue;
use crate::order;
use vstd::prelude::*;

verus! {

broadcast use vstd::string::group_string_axioms;

/// A request is timed by whom it is about and its id; without an id it is not timed.
pub proof fn requests_are_timed_by_their_id(
    event: EventValue,
    fields: Map<Seq<char>, JsonValue>,
    id: Seq<char>,
)
    requires
        event.data == JsonValue::Object(fields),
    ensures
        fields.contains_key("request_id"@) && fields["request_id"@] == JsonValue::Text(id)
            ==> approvals::key_of(event) == Some(
            KeyValue { subject: event.subject, request_id: id },
        ),
        !fields.contains_key("request_id"@) ==> approvals::key_of(event) is None,
        fields.contains_key("request_id"@) && !(fields["request_id"@] is Text)
            ==> approvals::key_of(event) is None,
{
}

/// A request that nobody decided in time is cancelled, under its id, to the session
/// that asked; so is each of several.
pub proof fn a_cancellation_reaches_who_asked(keys: Seq<KeyValue>, i: int)
    requires
        0 <= i < keys.len(),
    ensures
        approvals::cancellations(keys).len() == keys.len(),
        approvals::cancellations(keys)[i] == approvals::cancellation_of(keys[i]),
        approvals::cancellation_of(keys[i]) == (EventValue {
            kind: "session.permission.cancelled"@,
            subject: keys[i].subject,
            traceparent: None,
            data: JsonValue::Object(
                map![
                    "request_id"@ => JsonValue::Text(keys[i].request_id),
                    "decision"@ => JsonValue::Text("cancelled"@),
                    "cancelled"@ => JsonValue::Bool(true),
                ],
            ),
        }),
{
}

/// A cancellation is timed under the key of the request that it cancels.
pub proof fn a_cancellation_names_its_request(key: KeyValue)
    ensures
        approvals::key_of(approvals::cancellation_of(key)) == Some(key),
{
    reveal_strlit("request_id");
    reveal_strlit("decision");
    reveal_strlit("cancelled");
    assert("request_id"@.len() == 10 && "decision"@.len() == 8 && "cancelled"@.len() == 9);
}

/// At any time a pending request either has expired or goes on with its deadline,
/// and it expires from its deadline on; each expires once.
pub proof fn a_request_expires_at_its_deadline(
    pending: Map<KeyValue, u64>,
    now: u64,
    keys: Seq<KeyValue>,
    key: KeyValue,
)
    requires
        approvals::are_expired(pending, now, keys),
    ensures
        ({
            let left = approvals::unexpired(pending, now);
            &&& keys.contains(key) <==> pending.contains_key(key) && now >= pending[key]
            &&& left.contains_key(key) <==> pending.contains_key(key) && now < pending[key]
            &&& left.contains_key(key) ==> left[key] == pending[key]
            &&& keys.no_duplicates()
        }),
{
    assert forall|i: int, j: int| 0 <= i < keys.len() && 0 <= j < keys.len() && i
        != j implies keys[i] != keys[j] by {
        if i < j {
            assert(approvals::key_before(keys[i], keys[j]));
            requests_go_by_subject_and_id(keys[i], keys[j]);
        } else {
            assert(approvals::key_before(keys[j], keys[i]));
            requests_go_by_subject_and_id(keys[j], keys[i]);
        }
    }
}

/// Expired requests are told in order: those that address nobody first, and then by
/// subject, and those of one subject by id.
pub proof fn requests_go_by_subject_and_id(a: KeyValue, b: KeyValue)
    ensures
        !approvals::key_before(a, a),
        a.subject is None && b.subject is Some ==> approvals::key_before(a, b),
        a.subject is Some && b.subject is None ==> !approvals::key_before(a, b),
        a.subject == b.subject ==> approvals::key_before(a, b) == order::text_before(
            a.request_id,
            b.request_id,
        ),
        a.subject is Some && b.subject is Some && a.subject != b.subject ==> approvals::key_before(
            a,
            b,
        ) == order::text_before(a.subject->0, b.subject->0),
{
    order::lemma_text_total(a.request_id, a.request_id);
}

/// The next deadline is that of a pending request, and no other is earlier; there is
/// one as long as a request is pending. Until then nothing expires, and then something
/// does.
pub proof fn the_earliest_deadline_is_next(
    pending: Map<KeyValue, u64>,
    next: Option<u64>,
    key: KeyValue,
    now: u64,
    keys: Seq<KeyValue>,
)
    requires
        approvals::is_next(pending, next),
        approvals::are_expired(pending, now, keys),
    ensures
        pending.contains_key(key) ==> next is Some && next->0 <= pending[key],
        next is Some ==> exists|first: KeyValue|
            pending.contains_key(first) && #[trigger] pending[first] == next->0,
        keys.len() > 0 <==> next is Some && now >= next->0,
{
    if keys.len() > 0 {
        assert(keys.contains(keys[0]));
    }
    if next is Some && now >= next->0 {
        let first = choose|first: KeyValue|
            pending.contains_key(first) && #[trigger] pending[first] == next->0;
        assert(keys.contains(first));
    }
}

/// A list of keys stands for each of them, in order.
pub proof fn keys_stand_for_themselves(keys: Seq<RequestKey>, i: int)
    requires
        0 <= i < keys.len(),
    ensures
        approvals::key_views(keys).len() == keys.len(),
        approvals::key_views(keys)[i].request_id == keys[i].request_id@,
        keys[i].subject is None ==> approvals::key_views(keys)[i].subject is None,
        keys[i].subject is Some ==> approvals::key_views(keys)[i].subject == Some(
            keys[i].subject->0@,
        ),
{
}

} // verus!
