//! The permission requests that await an approver, and their deadlines.

use crate::bridge::permission_cancelled;
use crate::events::{event_of, Event, EventValue};
use crate::json::{self, JsonValue};
use crate::order;
use crate::text;
use crate::textmap;
use vstd::prelude::*;

verus! {

broadcast use vstd::string::group_string_axioms;

/// What a pending permission request is identified by.
///
/// A bridged child numbers its own requests, so its `request_id` is unique only
/// within that child: the session the request is addressed to is part of the
/// identity, or two sessions asking under the same id would share one deadline
/// and one cancellation.
#[derive(Debug)]
pub struct RequestKey {
    /// The `subject` the request carried, which routes an answer to the child
    /// that asked. Absent when nothing can be addressed.
    pub subject: Option<String>,
    /// The id the child correlated its request by.
    pub request_id: String,
}

/// What a request is identified by, as plain values.
#[verifier::ext_equal]
pub struct KeyValue {
    pub subject: Option<Seq<char>>,
    pub request_id: Seq<char>,
}

impl View for RequestKey {
    type V = KeyValue;

    open spec fn view(&self) -> KeyValue {
        KeyValue { subject: text::opt_view(self.subject), request_id: self.request_id@ }
    }
}

/// The key of a permission request or decision: none without a request id.
pub open spec fn key_of(event: EventValue) -> Option<KeyValue> {
    match json::text_field(event.data, "request_id"@) {
        Some(request_id) => Some(KeyValue { subject: event.subject, request_id }),
        None => None,
    }
}

/// The keys, as plain values.
pub open spec fn key_views(keys: Seq<RequestKey>) -> Seq<KeyValue> {
    Seq::new(keys.len(), |i: int| keys[i]@)
}

/// The event that cancels the request under a key: it is addressed to the
/// session that asked, because that is how it is routed back to the child.
pub open spec fn cancellation_of(key: KeyValue) -> EventValue {
    EventValue {
        subject: key.subject,
        ..event_of(
            crate::bridge::SESSION_PERMISSION_CANCELLED@,
            json::empty_object().set("request_id"@, JsonValue::Text(key.request_id)).set(
                "decision"@,
                JsonValue::Text("cancelled"@),
            ).set("cancelled"@, JsonValue::Bool(true)),
        )
    }
}

/// The events that cancel the requests under the keys, in order.
pub open spec fn cancellations(keys: Seq<KeyValue>) -> Seq<EventValue> {
    Seq::new(keys.len(), |i: int| cancellation_of(keys[i]))
}

impl RequestKey {
    /// The key a permission request or decision event is timed by.
    pub fn of(event: &Event) -> (r: Option<RequestKey>)
        ensures
            match r {
                Some(key) => key_of(event@) == Some(key@),
                None => key_of(event@) is None,
            },
    {
        match event.data.get_str("request_id") {
            Some(request_id) => {
                let subject = match &event.subject {
                    Some(subject) => Some(subject.clone()),
                    None => None,
                };
                Some(RequestKey { subject, request_id: request_id.to_owned() })
            },
            None => None,
        }
    }

    fn same(&self, other: &RequestKey) -> (r: bool)
        ensures
            r == (self@ == other@),
    {
        let subjects = match (&self.subject, &other.subject) {
            (Some(a), Some(b)) => text::same(a.as_str(), b.as_str()),
            (None, None) => true,
            _ => false,
        };
        subjects && text::same(self.request_id.as_str(), other.request_id.as_str())
    }

    fn is_before(&self, other: &RequestKey) -> (r: bool)
        ensures
            r == key_before(self@, other@),
    {
        match (&self.subject, &other.subject) {
            (Some(a), Some(b)) => if text::same(a.as_str(), b.as_str()) {
                order::text_is_before(self.request_id.as_str(), other.request_id.as_str())
            } else {
                order::text_is_before(a.as_str(), b.as_str())
            },
            (None, None) => order::text_is_before(
                self.request_id.as_str(),
                other.request_id.as_str(),
            ),
            (None, Some(_)) => true,
            (Some(_), None) => false,
        }
    }

    /// The event that cancels the request.
    pub fn cancellation(&self) -> (r: Event)
        ensures
            r@ == cancellation_of(self@),
    {
        let event = permission_cancelled(self.request_id.as_str());
        match &self.subject {
            Some(subject) => event.with_subject(subject.clone()),
            None => event,
        }
    }
}

/// Whether a key comes before another: requests that address nobody come first,
/// then requests go by subject, and those of one subject by id.
pub open spec fn key_before(a: KeyValue, b: KeyValue) -> bool {
    match (a.subject, b.subject) {
        (Some(x), Some(y)) => if x == y {
            order::text_before(a.request_id, b.request_id)
        } else {
            order::text_before(x, y)
        },
        (None, None) => order::text_before(a.request_id, b.request_id),
        (None, Some(_)) => true,
        (Some(_), None) => false,
    }
}

proof fn lemma_key_total(a: KeyValue, b: KeyValue)
    ensures
        a == b ==> !key_before(a, b),
        a != b ==> (key_before(a, b) <==> !key_before(b, a)),
{
    order::lemma_text_total(a.request_id, b.request_id);
    if let (Some(x), Some(y)) = (a.subject, b.subject) {
        order::lemma_text_total(x, y);
    }
}

proof fn lemma_key_transitive(a: KeyValue, b: KeyValue, c: KeyValue)
    requires
        key_before(a, b),
        key_before(b, c),
    ensures
        key_before(a, c),
{
    if order::text_before(a.request_id, b.request_id) && order::text_before(
        b.request_id,
        c.request_id,
    ) {
        order::lemma_text_transitive(a.request_id, b.request_id, c.request_id);
    }
    if let (Some(x), Some(y), Some(z)) = (a.subject, b.subject, c.subject) {
        if x != y && y != z {
            order::lemma_text_transitive(x, y, z);
            order::lemma_text_total(x, y);
        }
    }
}

/// Whether the keys come in order, each once.
pub open spec fn ascending(keys: Seq<KeyValue>) -> bool {
    forall|i: int, j: int|
        #![trigger keys[i], keys[j]]
        0 <= i < j < keys.len() ==> key_before(keys[i], keys[j])
}

/// The requests whose deadline has not passed at `now`.
pub open spec fn unexpired(pending: Map<KeyValue, u64>, now: u64) -> Map<KeyValue, u64> {
    pending.restrict(Set::new(|key: KeyValue| pending.contains_key(key) && pending[key] > now))
}

/// Whether `keys` are the requests whose deadline has passed at `now`, in order.
pub open spec fn are_expired(pending: Map<KeyValue, u64>, now: u64, keys: Seq<KeyValue>) -> bool {
    &&& ascending(keys)
    &&& forall|key: KeyValue| #[trigger]
        keys.contains(key) <==> pending.contains_key(key) && pending[key] <= now
}

/// Expiring again at the same time finds nothing: a request is cancelled once.
pub proof fn a_request_expires_once(
    pending: Map<KeyValue, u64>,
    now: u64,
    keys: Seq<KeyValue>,
    again: Seq<KeyValue>,
)
    requires
        are_expired(pending, now, keys),
        are_expired(unexpired(pending, now), now, again),
    ensures
        again.len() == 0,
{
    if again.len() > 0 {
        assert(again.contains(again[0]));
    }
}

/// A request that was decided is not expired at any time.
pub proof fn a_decided_request_never_expires(
    pending: Map<KeyValue, u64>,
    key: KeyValue,
    now: u64,
    keys: Seq<KeyValue>,
)
    requires
        are_expired(pending.remove(key), now, keys),
    ensures
        !keys.contains(key),
{
}

/// Requests that two sessions make under one id are timed apart: whatever is
/// done about the one leaves the other as it was.
pub proof fn sessions_are_timed_apart(
    pending: Map<KeyValue, u64>,
    a: Seq<char>,
    b: Seq<char>,
    request_id: Seq<char>,
    deadline: u64,
)
    requires
        a != b,
    ensures
        ({
            let ours = KeyValue { subject: Some(a), request_id };
            let theirs = KeyValue { subject: Some(b), request_id };
            &&& pending.insert(ours, deadline).contains_key(theirs) == pending.contains_key(theirs)
            &&& pending.remove(ours).contains_key(theirs) == pending.contains_key(theirs)
            &&& pending.contains_key(theirs) ==> pending.insert(ours, deadline)[theirs]
                == pending[theirs] && pending.remove(ours)[theirs] == pending[theirs]
        }),
{
    assert(KeyValue { subject: Some(a), request_id }.subject != KeyValue {
        subject: Some(b),
        request_id,
    }.subject);
}

/// The permission requests awaiting an approver, each with its deadline.
#[derive(Debug)]
pub struct PendingApprovals {
    entries: Vec<(RequestKey, u64)>,
}

impl View for PendingApprovals {
    type V = Map<KeyValue, u64>;

    closed spec fn view(&self) -> Map<KeyValue, u64> {
        textmap::as_map(self.entries@)
    }
}

/// Whether a time is when the next request expires: the earliest deadline.
pub open spec fn is_next(pending: Map<KeyValue, u64>, r: Option<u64>) -> bool {
    match r {
        Some(deadline) => {
            &&& exists|key: KeyValue| pending.contains_key(key) && #[trigger] pending[key] == deadline
            &&& forall|key: KeyValue| pending.contains_key(key) ==> #[trigger] pending[key]
                >= deadline
        },
        None => pending == Map::<KeyValue, u64>::empty(),
    }
}

impl PendingApprovals {
    #[verifier::type_invariant]
    spec fn keyed(&self) -> bool {
        textmap::distinct(self.entries@)
    }

    /// No requests.
    pub fn new() -> (r: PendingApprovals)
        ensures
            r@ == Map::<KeyValue, u64>::empty(),
    {
        let pending = PendingApprovals { entries: Vec::new() };
        proof {
            assert(pending@ =~= Map::<KeyValue, u64>::empty());
        }
        pending
    }

    fn take_at(&mut self, i: usize) -> (r: (RequestKey, u64))
        requires
            i < old(self).entries@.len(),
        ensures
            r == old(self).entries@[i as int],
            final(self).entries@ == old(self).entries@.remove(i as int),
            old(self)@.contains_key(r.0@),
            old(self)@[r.0@] == r.1,
            final(self)@ == old(self)@.remove(r.0@),
    {
        proof {
            use_type_invariant(&*self);
            textmap::lemma_position(self.entries@, i as int);
            textmap::lemma_removed(self.entries@, i as int);
        }
        let mut entries: Vec<(RequestKey, u64)> = Vec::new();
        std::mem::swap(&mut entries, &mut self.entries);
        let taken = entries.remove(i);
        self.entries = entries;
        taken
    }

    /// Forgets a request: it was decided.
    pub fn decided(&mut self, key: &RequestKey)
        ensures
            final(self)@ == old(self)@.remove(key@),
    {
        proof {
            use_type_invariant(&*self);
        }
        let mut i: usize = 0;
        while i < self.entries.len()
            invariant
                i <= self.entries@.len(),
                self@ == old(self)@,
                forall|k: int| 0 <= k < i ==> (#[trigger] self.entries@[k]).0@ != key@,
            decreases self.entries@.len() - i,
        {
            if self.entries[i].0.same(key) {
                let _ = self.take_at(i);
                return ;
            }
            i = i + 1;
        }
        proof {
            assert(!textmap::holds(self.entries@, key@));
            assert(self@.remove(key@) =~= self@);
        }
    }

    /// Starts timing a request. One that is asked again is timed anew.
    pub fn awaited(&mut self, key: RequestKey, deadline: u64)
        ensures
            final(self)@ == old(self)@.insert(key@, deadline),
    {
        let ghost before = self@;
        self.decided(&key);
        proof {
            use_type_invariant(&*self);
            assert(!self@.contains_key(key@));
        }
        let mut entries: Vec<(RequestKey, u64)> = Vec::new();
        std::mem::swap(&mut entries, &mut self.entries);
        proof {
            assert(!textmap::holds(entries@, key@)) by {
                assert(!textmap::as_map(entries@).contains_key(key@));
            }
            textmap::lemma_pushed(entries@, (key, deadline));
        }
        entries.push((key, deadline));
        self.entries = entries;
        proof {
            assert(before.remove(key@).insert(key@, deadline) =~= before.insert(key@, deadline));
        }
    }

    /// The earliest deadline, while a request is pending.
    pub fn next_deadline(&self) -> (r: Option<u64>)
        ensures
            match r {
                Some(deadline) => {
                    &&& exists|key: KeyValue|
                        self@.contains_key(key) && #[trigger] self@[key] == deadline
                    &&& forall|key: KeyValue|
                        self@.contains_key(key) ==> #[trigger] self@[key] >= deadline
                },
                None => self@ == Map::<KeyValue, u64>::empty(),
            },
            is_next(self@, r),
    {
        proof {
            use_type_invariant(self);
        }
        if self.entries.len() == 0 {
            proof {
                assert(self@ =~= Map::<KeyValue, u64>::empty());
            }
            return None;
        }
        let mut least: usize = 0;
        let mut i: usize = 1;
        while i < self.entries.len()
            invariant
                1 <= i <= self.entries@.len(),
                least < i,
                forall|k: int| 0 <= k < i ==> (#[trigger] self.entries@[k]).1
                    >= self.entries@[least as int].1,
            decreases self.entries@.len() - i,
        {
            if self.entries[i].1 < self.entries[least].1 {
                least = i;
            }
            i = i + 1;
        }
        proof {
            textmap::lemma_position(self.entries@, least as int);
            assert(self@.contains_key(self.entries@[least as int].0@));
            assert(self@[self.entries@[least as int].0@] == self.entries@[least as int].1);
            assert forall|key: KeyValue| self@.contains_key(key) implies #[trigger] self@[key]
                >= self.entries@[least as int].1 by {
                let p = textmap::position(self.entries@, key);
                assert(self.entries@[p].0@ == key);
                textmap::lemma_position(self.entries@, p);
            }
        }
        Some(self.entries[least].1)
    }

    fn least_expired(&self, now: u64) -> (r: Option<usize>)
        ensures
            match r {
                Some(i) => {
                    &&& i < self.entries@.len()
                    &&& self.entries@[i as int].1 <= now
                    &&& forall|k: int|
                        0 <= k < self.entries@.len() && k != i && (#[trigger] self.entries@[k]).1
                            <= now ==> key_before(self.entries@[i as int].0@, self.entries@[k].0@)
                },
                None => forall|k: int|
                    0 <= k < self.entries@.len() ==> (#[trigger] self.entries@[k]).1 > now,
            },
    {
        proof {
            use_type_invariant(self);
        }
        let mut least: Option<usize> = None;
        let mut i: usize = 0;
        while i < self.entries.len()
            invariant
                i <= self.entries@.len(),
                textmap::distinct(self.entries@),
                match least {
                    Some(l) => {
                        &&& l < i
                        &&& self.entries@[l as int].1 <= now
                        &&& forall|k: int|
                            0 <= k < i && k != l && (#[trigger] self.entries@[k]).1 <= now
                                ==> key_before(self.entries@[l as int].0@, self.entries@[k].0@)
                    },
                    None => forall|k: int| 0 <= k < i ==> (#[trigger] self.entries@[k]).1 > now,
                },
            decreases self.entries@.len() - i,
        {
            if self.entries[i].1 <= now {
                let better = match least {
                    Some(l) => self.entries[i].0.is_before(&self.entries[l].0),
                    None => true,
                };
                proof {
                    if let Some(l) = least {
                        lemma_key_total(self.entries@[i as int].0@, self.entries@[l as int].0@);
                        assert(self.entries@[l as int].0@ != self.entries@[i as int].0@);
                        if better {
                            assert forall|k: int|
                                0 <= k < i && k != l && (#[trigger] self.entries@[k]).1
                                    <= now implies key_before(
                                self.entries@[i as int].0@,
                                self.entries@[k].0@,
                            ) by {
                                lemma_key_transitive(
                                    self.entries@[i as int].0@,
                                    self.entries@[l as int].0@,
                                    self.entries@[k].0@,
                                );
                            }
                        }
                    }
                }
                if better {
                    least = Some(i);
                }
            }
            i = i + 1;
        }
        least
    }

    /// Takes out every request whose deadline has passed at `now`, in order.
    pub fn expire(&mut self, now: u64) -> (r: Vec<RequestKey>)
        ensures
            final(self)@ == unexpired(old(self)@, now),
            are_expired(old(self)@, now, key_views(r@)),
    {
        let ghost before = self@;
        let mut keys: Vec<RequestKey> = Vec::new();
        loop
            invariant
                ascending(key_views(keys@)),
                forall|key: KeyValue| #[trigger]
                    key_views(keys@).contains(key) ==> before.contains_key(key) && before[key]
                        <= now && !self@.contains_key(key),
                forall|key: KeyValue| #[trigger]
                    before.contains_key(key) ==> self@.contains_key(key) || key_views(
                        keys@,
                    ).contains(key),
                forall|key: KeyValue| #[trigger]
                    self@.contains_key(key) ==> before.contains_key(key) && before[key]
                        == self@[key],
                forall|i: int, key: KeyValue|
                    #![trigger keys@[i], self@.contains_key(key)]
                    0 <= i < keys@.len() && self@.contains_key(key) && self@[key] <= now
                        ==> key_before(keys@[i]@, key),
            ensures
                self@ == unexpired(before, now),
                are_expired(before, now, key_views(keys@)),
            decreases self.entries@.len(),
        {
            proof {
                use_type_invariant(&*self);
            }
            let ghost entries = self.entries@;
            let ghost current = self@;
            match self.least_expired(now) {
                None => {
                    proof {
                        assert forall|key: KeyValue| #[trigger]
                            self@.contains_key(key) implies self@[key] > now by {
                            let p = textmap::position(self.entries@, key);
                            assert(self.entries@[p].0@ == key);
                            textmap::lemma_position(self.entries@, p);
                        }
                        assert(self@ =~= unexpired(before, now));
                    }
                    break ;
                },
                Some(i) => {
                    let (key, _) = self.take_at(i);
                    let ghost held = keys@;
                    keys.push(key);
                    proof {
                        let old_views = key_views(held);
                        let views = key_views(keys@);
                        assert(views =~= old_views.push(key@));
                        assert(self@ =~= current.remove(key@));
                        assert(current.contains_key(key@));
                        assert forall|a: int, b: int|
                            #![trigger views[a], views[b]]
                            0 <= a < b < views.len() implies key_before(views[a], views[b]) by {
                            if b == old_views.len() {
                                assert(held[a]@ == views[a]);
                                assert(key_before(held[a]@, key@));
                            } else {
                                assert(views[a] == old_views[a] && views[b] == old_views[b]);
                            }
                        }
                        assert forall|k: KeyValue| #[trigger]
                            views.contains(k) implies before.contains_key(k) && before[k] <= now
                            && !self@.contains_key(k) by {
                            let p = choose|p: int| 0 <= p < views.len() && views[p] == k;
                            if p < old_views.len() {
                                assert(old_views[p] == k);
                                assert(old_views.contains(k));
                            }
                        }
                        assert forall|k: KeyValue| #[trigger]
                            before.contains_key(k) implies self@.contains_key(k) || views.contains(
                            k,
                        ) by {
                            if k == key@ {
                                assert(views[old_views.len() as int] == k);
                            } else if !current.contains_key(k) {
                                assert(old_views.contains(k));
                                let p = choose|p: int|
                                    0 <= p < old_views.len() && old_views[p] == k;
                                assert(views[p] == k);
                            }
                        }
                        assert forall|a: int, k: KeyValue|
                            #![trigger keys@[a], self@.contains_key(k)]
                            0 <= a < keys@.len() && self@.contains_key(k) && self@[k]
                                <= now implies key_before(keys@[a]@, k) by {
                            assert(current.contains_key(k));
                            if a < held.len() {
                                assert(held[a] == keys@[a]);
                            } else {
                                let p = textmap::position(entries, k);
                                assert(entries[p].0@ == k);
                                textmap::lemma_position(entries, p);
                                assert(p != i);
                            }
                        }
                    }
                },
            }
        }
        keys
    }
}

} // verus!
