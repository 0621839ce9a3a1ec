//! JSON values as plain data, and their text through `serde_json`.

use crate::text;
use vstd::prelude::*;

verus! {

broadcast use vstd::string::group_string_axioms;

/// `serde_json::Value`, a parsed JSON document.
#[verifier::external_type_specification]
#[verifier::external_body]
pub struct ExValue(serde_json::Value);

/// `serde_json::Number`, a JSON number.
#[verifier::external_type_specification]
#[verifier::external_body]
pub struct ExNumber(serde_json::Number);

/// `serde_json::Error`, why a text is not JSON.
#[verifier::external_type_specification]
#[verifier::external_body]
pub struct ExError(serde_json::Error);

/// A JSON value.
///
/// An object is a list of fields; a later field replaces an earlier one of the
/// same name.
#[derive(Debug)]
pub enum Json {
    /// `null`.
    Null,
    /// `true` or `false`.
    Bool(bool),
    /// A number.
    Number(serde_json::Number),
    /// A string.
    Text(String),
    /// An array.
    Array(Vec<Json>),
    /// An object.
    Object(Vec<(String, Json)>),
}

/// What a JSON value is: its shape, with numbers by their text and objects by
/// their fields.
pub enum JsonValue {
    Null,
    Bool(bool),
    Number(Seq<char>),
    Text(Seq<char>),
    Array(Seq<JsonValue>),
    Object(Map<Seq<char>, JsonValue>),
}

impl Json {
    /// What the value is.
    pub open spec fn view(&self) -> JsonValue
        decreases self,
    {
        match self {
            Json::Null => JsonValue::Null,
            Json::Bool(value) => JsonValue::Bool(*value),
            Json::Number(number) => JsonValue::Number(number_text(*number)),
            Json::Text(text) => JsonValue::Text(text@),
            Json::Array(items) => JsonValue::Array(
                Seq::new(
                    items@.len(),
                    |i: int|
                        if 0 <= i < items@.len() {
                            items@[i].view()
                        } else {
                            JsonValue::Null
                        },
                ),
            ),
            Json::Object(fields) => JsonValue::Object(fields_map(fields@)),
        }
    }
}

/// The fields of an object by name; a later field replaces an earlier one.
pub open spec fn fields_map(fields: Seq<(String, Json)>) -> Map<Seq<char>, JsonValue>
    decreases fields,
{
    if fields.len() == 0 {
        Map::empty()
    } else {
        fields_map(fields.drop_last()).insert(fields.last().0@, fields.last().1.view())
    }
}

/// The text `serde_json` writes for a number.
pub uninterp spec fn number_text(number: serde_json::Number) -> Seq<char>;

/// What a parsed JSON document holds.
pub uninterp spec fn value_contents(value: serde_json::Value) -> JsonValue;

/// What `serde_json` parses a text into, or `None` for a text that is not
/// JSON.
pub uninterp spec fn json_parsed(text: Seq<char>) -> Option<JsonValue>;

/// The compact text `serde_json` writes for a value.
pub uninterp spec fn json_rendered(value: JsonValue) -> Seq<char>;

/// The text of a signed integer.
pub open spec fn integer_text(n: int) -> Seq<char> {
    if n < 0 {
        seq!['-'] + text::decimal((-n) as nat)
    } else {
        text::decimal(n as nat)
    }
}

/// The unsigned 64-bit integer a number text writes, if it writes one.
pub open spec fn text_u64(text: Seq<char>) -> Option<u64> {
    if text.len() >= 1 && text::all_digits(text) && text::digits_value(text) <= u64::MAX {
        Some(text::digits_value(text) as u64)
    } else {
        None
    }
}

/// `serde_json::from_str` into a `Value`: the text is parsed, or rejected;
/// which of the two, and the value, depend on the text alone.
#[verifier::external_body]
fn parse_value(text: &str) -> (r: Result<serde_json::Value, serde_json::Error>)
    ensures
        match r {
            Ok(value) => json_parsed(text@) == Some(value_contents(value)),
            Err(_) => json_parsed(text@) is None,
        },
{
    serde_json::from_str(text)
}

/// `serde_json::Value`, converted variant by variant: the result holds what the
/// document holds.
#[verifier::external_body]
fn from_value(value: serde_json::Value) -> (r: Json)
    ensures
        r@ == value_contents(value),
{
    match value {
        serde_json::Value::Null => Json::Null,
        serde_json::Value::Bool(value) => Json::Bool(value),
        serde_json::Value::Number(number) => Json::Number(number),
        serde_json::Value::String(text) => Json::Text(text),
        serde_json::Value::Array(items) => {
            Json::Array(items.into_iter().map(from_value).collect())
        },
        serde_json::Value::Object(fields) => Json::Object(
            fields.into_iter().map(|(name, value)| (name, from_value(value))).collect(),
        ),
    }
}

/// `serde_json::Value`, built variant by variant: the document holds what the
/// value holds. Inserting the fields in order lets a later one replace an
/// earlier one.
#[verifier::external_body]
fn to_value(json: &Json) -> (r: serde_json::Value)
    ensures
        value_contents(r) == json@,
{
    match json {
        Json::Null => serde_json::Value::Null,
        Json::Bool(value) => serde_json::Value::Bool(*value),
        Json::Number(number) => serde_json::Value::Number(number.clone()),
        Json::Text(text) => serde_json::Value::String(text.clone()),
        Json::Array(items) => serde_json::Value::Array(items.iter().map(to_value).collect()),
        Json::Object(fields) => serde_json::Value::Object(
            fields.iter().map(|(name, value)| (name.clone(), to_value(value))).collect(),
        ),
    }
}

/// `serde_json::Value`'s `Display`: the compact text of the document, which
/// depends on what it holds alone. A number is written as its own `Display`
/// writes it. Line breaks inside strings are escaped and none are written between
/// values, so the text is a single line.
#[verifier::external_body]
fn value_text(value: &serde_json::Value) -> (r: String)
    ensures
        r@ == json_rendered(value_contents(*value)),
        value_contents(*value) matches JsonValue::Number(text) ==> r@ == text,
        !r@.contains('\n') && !r@.contains('\r'),
{
    value.to_string()
}

/// `serde_json::Number` from an `i64`: a number written as the integer.
#[verifier::external_body]
fn number_from_i64(n: i64) -> (r: serde_json::Number)
    ensures
        number_text(r) == integer_text(n as int),
{
    serde_json::Number::from(n)
}

/// `serde_json::Number` from a `u64`: a number written as the integer.
#[verifier::external_body]
fn number_from_u64(n: u64) -> (r: serde_json::Number)
    ensures
        number_text(r) == text::decimal(n as nat),
{
    serde_json::Number::from(n)
}

/// `serde_json::Number::as_u64`: the integer of a number that is a
/// non-negative integer of 64 bits. Only such a number is written in digits
/// alone.
#[verifier::external_body]
fn number_as_u64(number: &serde_json::Number) -> (r: Option<u64>)
    ensures
        r == text_u64(number_text(*number)),
{
    number.as_u64()
}

/// `serde_json::Number::clone`: a number written the same.
#[verifier::external_body]
fn copy_number(number: &serde_json::Number) -> (r: serde_json::Number)
    ensures
        number_text(r) == number_text(*number),
{
    number.clone()
}

/// The field `name` of a value, if the value is an object that has it.
pub open spec fn field(value: JsonValue, name: Seq<char>) -> Option<JsonValue> {
    match value {
        JsonValue::Object(fields) => if fields.contains_key(name) {
            Some(fields[name])
        } else {
            None
        },
        _ => None,
    }
}

/// The field `name` of a value, or null.
pub open spec fn field_or_null(value: JsonValue, name: Seq<char>) -> JsonValue {
    match field(value, name) {
        Some(value) => value,
        None => JsonValue::Null,
    }
}

/// The string a value is, if it is one.
pub open spec fn as_text(value: JsonValue) -> Option<Seq<char>> {
    match value {
        JsonValue::Text(text) => Some(text),
        _ => None,
    }
}

/// The string field `name` of a value, if it has one.
pub open spec fn text_field(value: JsonValue, name: Seq<char>) -> Option<Seq<char>> {
    match field(value, name) {
        Some(value) => as_text(value),
        None => None,
    }
}

/// The unsigned integer a value is, if it is one.
pub open spec fn as_unsigned(value: JsonValue) -> Option<u64> {
    match value {
        JsonValue::Number(text) => text_u64(text),
        _ => None,
    }
}

/// The unsigned integer field `name` of a value, if it has one.
pub open spec fn unsigned_field(value: JsonValue, name: Seq<char>) -> Option<u64> {
    match field(value, name) {
        Some(value) => as_unsigned(value),
        None => None,
    }
}

/// The value with a field set.
pub open spec fn with_field(value: JsonValue, name: Seq<char>, new: JsonValue) -> JsonValue {
    match value {
        JsonValue::Object(fields) => JsonValue::Object(fields.insert(name, new)),
        other => other,
    }
}

/// The empty object.
pub open spec fn empty_object() -> JsonValue {
    JsonValue::Object(Map::empty())
}

/// The integer a value was made from is the integer it is.
pub proof fn integers_read_back(n: u64)
    ensures
        as_unsigned(JsonValue::Number(text::decimal(n as nat))) == Some(n),
{
    text::lemma_decimal_value(n as nat);
}

impl Json {
    /// Parses a text.
    pub fn parse(text: &str) -> (r: Option<Json>)
        ensures
            match r {
                Some(json) => json_parsed(text@) == Some(json@),
                None => json_parsed(text@) is None,
            },
    {
        match parse_value(text) {
            Ok(value) => Some(from_value(value)),
            Err(_) => None,
        }
    }

    /// The compact text of the value, on a single line.
    pub fn to_string(&self) -> (r: String)
        ensures
            r@ == json_rendered(self@),
            self@ matches JsonValue::Number(text) ==> r@ == text,
            !r@.contains('\n'),
            !r@.contains('\r'),
    {
        let value = to_value(self);
        value_text(&value)
    }

    /// A string value.
    pub fn text(text: &str) -> (r: Json)
        ensures
            r@ == JsonValue::Text(text@),
    {
        Json::Text(text.to_owned())
    }

    /// An integer value.
    pub fn unsigned(n: u64) -> (r: Json)
        ensures
            r@ == JsonValue::Number(text::decimal(n as nat)),
    {
        Json::Number(number_from_u64(n))
    }

    /// A signed integer value.
    pub fn integer(n: i64) -> (r: Json)
        ensures
            r@ == JsonValue::Number(integer_text(n as int)),
    {
        Json::Number(number_from_i64(n))
    }

    /// The empty object.
    pub fn object() -> (r: Json)
        ensures
            r@ == empty_object(),
    {
        let fields: Vec<(String, Json)> = Vec::new();
        proof {
            assert(fields_map(fields@) =~= Map::empty());
        }
        Json::Object(fields)
    }

    /// An object with one more field; any other value is unchanged.
    pub fn with(self, name: &str, value: Json) -> (r: Json)
        ensures
            r@ == with_field(self@, name@, value@),
    {
        match self {
            Json::Object(fields) => {
                let mut fields = fields;
                let ghost before = fields@;
                fields.push((name.to_owned(), value));
                proof {
                    assert(fields@.drop_last() =~= before);
                    assert(fields_map(fields@) == fields_map(before).insert(name@, value@));
                }
                Json::Object(fields)
            },
            other => other,
        }
    }

    /// The field `name`, if the value is an object that has it.
    pub fn get(&self, name: &str) -> (r: Option<&Json>)
        ensures
            match r {
                Some(value) => field(self@, name@) == Some(value@),
                None => field(self@, name@) is None,
            },
    {
        match self {
            Json::Object(fields) => {
                let mut i: usize = fields.len();
                proof {
                    assert(fields@.take(fields@.len() as int) =~= fields@);
                }
                while i > 0
                    invariant
                        i <= fields@.len(),
                        self@ == JsonValue::Object(fields_map(fields@)),
                        fields_map(fields@).contains_key(name@) == fields_map(
                            fields@.take(i as int),
                        ).contains_key(name@),
                        fields_map(fields@).contains_key(name@) ==> fields_map(fields@)[name@]
                            == fields_map(fields@.take(i as int))[name@],
                    decreases i,
                {
                    i = i - 1;
                    proof {
                        assert(fields@.take(i + 1).drop_last() =~= fields@.take(i as int));
                        assert(fields@.take(i + 1).last() == fields@[i as int]);
                        assert(fields_map(fields@.take(i + 1)) == fields_map(
                            fields@.take(i as int),
                        ).insert(fields@[i as int].0@, fields@[i as int].1@));
                    }
                    if text::same(fields[i].0.as_str(), name) {
                        return Some(&fields[i].1);
                    }
                }
                None
            },
            _ => None,
        }
    }

    /// The string the value is, if it is one.
    pub fn as_str(&self) -> (r: Option<&str>)
        ensures
            match r {
                Some(text) => as_text(self@) == Some(text@),
                None => as_text(self@) is None,
            },
    {
        match self {
            Json::Text(text) => Some(text.as_str()),
            _ => None,
        }
    }

    /// The string field `name`, if there is one.
    pub fn get_str(&self, name: &str) -> (r: Option<&str>)
        ensures
            match r {
                Some(text) => text_field(self@, name@) == Some(text@),
                None => text_field(self@, name@) is None,
            },
    {
        match self.get(name) {
            Some(value) => value.as_str(),
            None => None,
        }
    }

    /// The unsigned integer the value is, if it is one.
    pub fn as_u64(&self) -> (r: Option<u64>)
        ensures
            r == as_unsigned(self@),
    {
        match self {
            Json::Number(number) => number_as_u64(number),
            _ => None,
        }
    }

    /// The unsigned integer field `name`, if there is one.
    pub fn get_u64(&self, name: &str) -> (r: Option<u64>)
        ensures
            r == unsigned_field(self@, name@),
    {
        match self.get(name) {
            Some(value) => value.as_u64(),
            None => None,
        }
    }

    /// Whether the value is null.
    pub fn is_null(&self) -> (r: bool)
        ensures
            r == (self@ is Null),
    {
        match self {
            Json::Null => true,
            _ => false,
        }
    }

    /// A copy of the field `name`, or null.
    pub fn copy_field(&self, name: &str) -> (r: Json)
        ensures
            r@ == field_or_null(self@, name@),
    {
        match self.get(name) {
            Some(value) => value.clone(),
            None => Json::Null,
        }
    }
}

impl Clone for Json {
    fn clone(&self) -> (r: Json)
        ensures
            r@ == self@,
        decreases self,
    {
        match self {
            Json::Null => Json::Null,
            Json::Bool(value) => Json::Bool(*value),
            Json::Number(number) => Json::Number(copy_number(number)),
            Json::Text(text) => Json::Text(text.clone()),
            Json::Array(items) => {
                let mut copy: Vec<Json> = Vec::new();
                let mut i: usize = 0;
                while i < items.len()
                    invariant
                        i <= items@.len(),
                        copy@.len() == i,
                        *self == Json::Array(*items),
                        forall|k: int| 0 <= k < i ==> (#[trigger] copy@[k])@ == items@[k]@,
                    decreases items@.len() - i,
                {
                    proof {
                        assert(decreases_to!(*self => self->Array_0));
                        assert(decreases_to!(self->Array_0 => self->Array_0@));
                        assert(decreases_to!(self->Array_0@ => self->Array_0@[i as int]));
                    }
                    copy.push(items[i].clone());
                    i = i + 1;
                }
                let json = Json::Array(copy);
                proof {
                    assert(json@->Array_0 =~= self@->Array_0);
                }
                json
            },
            Json::Object(fields) => {
                let mut copy: Vec<(String, Json)> = Vec::new();
                let mut i: usize = 0;
                proof {
                    assert(fields@.take(0) =~= Seq::<(String, Json)>::empty());
                }
                while i < fields.len()
                    invariant
                        i <= fields@.len(),
                        *self == Json::Object(*fields),
                        fields_map(copy@) == fields_map(fields@.take(i as int)),
                    decreases fields@.len() - i,
                {
                    let ghost before = copy@;
                    proof {
                        assert(decreases_to!(*self => self->Object_0));
                        assert(decreases_to!(self->Object_0 => self->Object_0@));
                        assert(decreases_to!(self->Object_0@ => self->Object_0@[i as int]));
                        assert(decreases_to!(self->Object_0@[i as int] => self->Object_0@[i as int].1));
                    }
                    copy.push((fields[i].0.clone(), fields[i].1.clone()));
                    proof {
                        assert(copy@.drop_last() =~= before);
                        assert(fields@.take(i + 1).drop_last() =~= fields@.take(i as int));
                        assert(fields@.take(i + 1).last() == fields@[i as int]);
                    }
                    i = i + 1;
                }
                proof {
                    assert(fields@.take(i as int) =~= fields@);
                }
                Json::Object(copy)
            },
        }
    }
}

} // verus!
