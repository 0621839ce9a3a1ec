//! What the readings of JSON values promise.

use crate::json::{self, Json, JsonValue};
use crate::text;
use vstd::prelude::*;

verus! {

/// An object has the fields it holds and no others; any other value has none.
pub proof fn objects_have_their_fields(
    fields: Map<Seq<char>, JsonValue>,
    name: Seq<char>,
    other: JsonValue,
)
    requires
        !(other is Object),
    ensures
        ({
            let object = JsonValue::Object(fields);
            let held = fields.contains_key(name);
            &&& held ==> json::field(object, name) == Some(fields[name])
            &&& !held ==> json::field(object, name) is None
            &&& held ==> json::field_or_null(object, name) == fields[name]
            &&& !held ==> json::field_or_null(object, name) == JsonValue::Null
            &&& json::field(other, name) is None
            &&& json::field_or_null(other, name) == JsonValue::Null
            &&& json::text_field(other, name) is None
            &&& json::unsigned_field(other, name) is None
            &&& !held ==> json::text_field(object, name) is None && json::unsigned_field(
                object,
                name,
            ) is None
        }),
{
}

/// A field that was set is read back, and setting it leaves the others alone.
pub proof fn a_field_that_was_set_is_read_back(
    fields: Map<Seq<char>, JsonValue>,
    name: Seq<char>,
    value: JsonValue,
    other: Seq<char>,
)
    ensures
        ({
            let after = json::with_field(JsonValue::Object(fields), name, value);
            &&& after == JsonValue::Object(fields.insert(name, value))
            &&& json::field(after, name) == Some(value)
            &&& other != name ==> json::field(after, other) == json::field(
                JsonValue::Object(fields),
                other,
            )
            &&& json::field(json::empty_object(), name) is None
        }),
{
}

/// A string is read as its text and a number as the integer it writes; nothing else
/// is either.
pub proof fn values_are_read_as_what_they_are(
    fields: Map<Seq<char>, JsonValue>,
    name: Seq<char>,
    text: Seq<char>,
    n: u64,
    value: JsonValue,
)
    ensures
        ({
            let object = JsonValue::Object(fields);
            let held = fields.contains_key(name);
            let digits = JsonValue::Number(text::decimal(n as nat));
            &&& json::as_text(JsonValue::Text(text)) == Some(text)
            &&& json::as_text(value) is Some ==> value is Text
            &&& json::as_unsigned(digits) == Some(n)
            &&& json::as_unsigned(value) is Some ==> value is Number
            &&& json::as_unsigned(JsonValue::Number(text)) == Some(n) ==> text::all_digits(text)
                && text.len() > 0 && text::digits_value(text) == n
            &&& text.len() > 0 && text::all_digits(text) && text::digits_value(text) <= u64::MAX
                ==> json::as_unsigned(JsonValue::Number(text)) == Some(
                text::digits_value(text) as u64,
            )
            &&& held && fields[name] == JsonValue::Text(text) ==> json::text_field(object, name)
                == Some(text)
            &&& held && !(fields[name] is Text) ==> json::text_field(object, name) is None
            &&& held && fields[name] == digits ==> json::unsigned_field(object, name) == Some(n)
            &&& held && !(fields[name] is Number) ==> json::unsigned_field(object, name) is None
        }),
{
    json::integers_read_back(n);
}

/// An integer is written in digits, a negative one behind a minus.
pub proof fn integers_are_written_in_digits(n: nat)
    ensures
        json::integer_text(n as int) == text::decimal(n),
        n > 0 ==> json::integer_text(-(n as int)) == seq!['-'] + text::decimal(n),
{
}

/// A list of fields stands for an object in which the later of two fields of one name
/// counts; an array has its items, in order.
pub proof fn the_later_field_counts(
    fields: Seq<(String, Json)>,
    added: (String, Json),
    items: Vec<Json>,
    i: int,
)
    ensures
        json::fields_map(Seq::empty()) == Map::<Seq<char>, JsonValue>::empty(),
        json::fields_map(fields.push(added)) == json::fields_map(fields).insert(
            added.0@,
            added.1.view(),
        ),
        Json::Array(items).view() is Array,
        Json::Array(items).view()->Array_0.len() == items@.len(),
        0 <= i < items@.len() ==> Json::Array(items).view()->Array_0[i] == items@[i].view(),
{
    assert(fields.push(added).drop_last() =~= fields);
}

} // verus!
