//! JSON documents as plain data, with a mathematical model.

use crate::error::ReportError;
use vstd::prelude::*;

verus! {

/// A JSON document held as plain data.
#[derive(Debug, PartialEq, Eq)]
pub enum Json {
    Null,
    Bool(bool),
    /// A number that is an integer in the range of `i64`.
    Int(i64),
    /// Any other number.
    Number,
    Str(String),
    Array(Vec<Json>),
    /// The members. A name is looked up among them from the front, so
    /// where a name occurs twice its first member counts.
    Object(Vec<(String, Json)>),
}

/// The mathematical value of a JSON document.
pub enum JsonValue {
    Null,
    Bool(bool),
    Int(int),
    Number,
    Str(Seq<char>),
    Array(Seq<JsonValue>),
    Object(Seq<Member>),
}

/// The mathematical value of one member of a JSON object.
pub struct Member {
    pub name: Seq<char>,
    pub value: JsonValue,
}

impl View for Json {
    type V = JsonValue;

    open spec fn view(&self) -> JsonValue
        decreases self,
    {
        match self {
            Json::Null => JsonValue::Null,
            Json::Bool(b) => JsonValue::Bool(*b),
            Json::Int(i) => JsonValue::Int(*i as int),
            Json::Number => JsonValue::Number,
            Json::Str(s) => JsonValue::Str(s@),
            Json::Array(items) => JsonValue::Array(
                Seq::new(
                    items@.len(),
                    |i: int|
                        if 0 <= i < items@.len() {
                            items@[i].view()
                        } else {
                            JsonValue::Null
                        },
                ),
            ),
            Json::Object(members) => JsonValue::Object(
                Seq::new(
                    members@.len(),
                    |i: int|
                        if 0 <= i < members@.len() {
                            Member { name: members@[i].0@, value: members@[i].1.view() }
                        } else {
                            Member { name: Seq::empty(), value: JsonValue::Null }
                        },
                ),
            ),
        }
    }
}

/// The names and values of a sequence of object members.
pub open spec fn member_views(members: Seq<(String, Json)>) -> Seq<Member> {
    Seq::new(members.len(), |i: int| Member { name: members[i].0@, value: members[i].1@ })
}

/// The values of a sequence of documents.
pub open spec fn views(items: Seq<Json>) -> Seq<JsonValue> {
    Seq::new(items.len(), |i: int| items[i]@)
}

/// The value of the first member named `key`, if there is one.
pub open spec fn first_member(members: Seq<Member>, key: Seq<char>) -> Option<JsonValue>
    decreases members.len(),
{
    if members.len() == 0 {
        None
    } else if members[0].name == key {
        Some(members[0].value)
    } else {
        first_member(members.drop_first(), key)
    }
}

impl JsonValue {
    /// The boolean, if this is one.
    pub open spec fn as_bool(self) -> Option<bool> {
        match self {
            JsonValue::Bool(b) => Some(b),
            _ => None,
        }
    }

    /// The integer, if this is a number in the range of `i64`.
    pub open spec fn as_int(self) -> Option<int> {
        match self {
            JsonValue::Int(i) => Some(i),
            _ => None,
        }
    }

    /// The text, if this is a string.
    pub open spec fn as_text(self) -> Option<Seq<char>> {
        match self {
            JsonValue::Str(s) => Some(s),
            _ => None,
        }
    }

    /// The elements, if this is an array.
    pub open spec fn as_items(self) -> Option<Seq<JsonValue>> {
        match self {
            JsonValue::Array(items) => Some(items),
            _ => None,
        }
    }

    /// The value of the first member named `key`, if this is an object that
    /// has one.
    pub open spec fn member(self, key: Seq<char>) -> Option<JsonValue> {
        match self {
            JsonValue::Object(members) => first_member(members, key),
            _ => None,
        }
    }

    /// The member named `key`, or `Null` where there is none: absent
    /// members and members of non-objects read as `Null`.
    pub open spec fn at(self, key: Seq<char>) -> JsonValue {
        match self.member(key) {
            Some(v) => v,
            None => JsonValue::Null,
        }
    }
}

/// An array's value holds the values of its elements, in order.
pub proof fn lemma_array_view(items: Vec<Json>)
    ensures
        Json::Array(items)@ == JsonValue::Array(views(items@)),
{
    let j = Json::Array(items);
    assert(j@ is Array);
    let seen = j@->Array_0;
    assert(seen.len() == items@.len());
    assert forall|i: int| 0 <= i < seen.len() implies seen[i] == views(items@)[i] by {}
    assert(seen =~= views(items@));
}

/// An object's value holds the names and values of its members, in order.
pub proof fn lemma_object_view(members: Vec<(String, Json)>)
    ensures
        Json::Object(members)@ == JsonValue::Object(member_views(members@)),
{
    let j = Json::Object(members);
    assert(j@ is Object);
    let seen = j@->Object_0;
    assert(seen.len() == members@.len());
    assert forall|i: int| 0 <= i < seen.len() implies seen[i] == member_views(members@)[i] by {}
    assert(seen =~= member_views(members@));
}

impl Json {
    /// The boolean, if this is one.
    pub fn as_bool(&self) -> (r: Option<bool>)
        ensures
            r == self@.as_bool(),
    {
        match self {
            Json::Bool(b) => Some(*b),
            _ => None,
        }
    }

    /// The integer, if this is a number in the range of `i64`.
    pub fn as_i64(&self) -> (r: Option<i64>)
        ensures
            r is Some <==> self@.as_int() is Some,
            r matches Some(i) ==> self@.as_int() == Some(i as int),
    {
        match self {
            Json::Int(i) => Some(*i),
            _ => None,
        }
    }

    /// The text, if this is a string.
    pub fn as_str(&self) -> (r: Option<&String>)
        ensures
            r is Some <==> self@.as_text() is Some,
            r matches Some(s) ==> self@.as_text() == Some(s@),
    {
        match self {
            Json::Str(s) => Some(s),
            _ => None,
        }
    }

    /// The elements, if this is an array.
    pub fn as_array(&self) -> (r: Option<&Vec<Json>>)
        ensures
            r is Some <==> self@.as_items() is Some,
            r matches Some(items) ==> self@.as_items() == Some(views(items@)),
    {
        match self {
            Json::Array(items) => {
                proof {
                    lemma_array_view(*items);
                }
                Some(items)
            },
            _ => None,
        }
    }

    /// Whether this is an object.
    pub fn is_object(&self) -> (r: bool)
        ensures
            r == (self@ is Object),
    {
        match self {
            Json::Object(_) => true,
            _ => false,
        }
    }

    /// The value of the first member named `key`, if this is an object that
    /// has one.
    pub fn get(&self, key: &str) -> (r: Option<&Json>)
        ensures
            r is Some <==> self@.member(key@) is Some,
            r matches Some(j) ==> self@.member(key@) == Some(j@),
    {
        match self {
            Json::Object(members) => {
                let wanted = key.to_owned();
                let ghost all = member_views(members@);
                proof {
                    lemma_object_view(*members);
                }
                assert(all.skip(0) =~= all);
                let mut i: usize = 0;
                while i < members.len()
                    invariant
                        i <= members.len(),
                        wanted@ == key@,
                        all == member_views(members@),
                        self@ == JsonValue::Object(all),
                        first_member(all, key@) == first_member(all.skip(i as int), key@),
                    decreases members.len() - i,
                {
                    let ghost rest = all.skip(i as int);
                    assert(rest[0] == all[i as int]);
                    assert(rest.drop_first() =~= all.skip(i + 1));
                    if members[i].0 == wanted {
                        return Some(&members[i].1);
                    }
                    i += 1;
                }
                None
            },
            _ => None,
        }
    }
}

/// The value that an optional document stands for: an absent document
/// reads as `Null`.
pub open spec fn value_of(doc: Option<&Json>) -> JsonValue {
    match doc {
        Some(j) => j@,
        None => JsonValue::Null,
    }
}

/// The member `key` of an optional document.
pub fn member_of<'a>(doc: Option<&'a Json>, key: &str) -> (r: Option<&'a Json>)
    ensures
        value_of(r) == value_of(doc).at(key@),
        r is Some <==> value_of(doc).member(key@) is Some,
{
    match doc {
        Some(j) => j.get(key),
        None => None,
    }
}

/// Makes `serde_json::Value` known as an opaque type.
#[verifier::external_type_specification]
#[verifier::external_body]
pub struct ExValue(serde_json::Value);

/// What a `serde_json::Value` holds, as the value of a document.
pub uninterp spec fn value_json(value: serde_json::Value) -> JsonValue;

/// The document that a text denotes, where it is JSON.
pub uninterp spec fn parsed_json(text: Seq<char>) -> Option<JsonValue>;

/// Reads a text as one JSON value.
///
/// Trusted: `serde_json::from_str` at the type `serde_json::Value`. What
/// it returns depends on the text alone; the contract gives that result a
/// name and claims nothing else of it.
#[verifier::external_body]
fn parse_value(text: &str) -> (r: Option<serde_json::Value>)
    ensures
        r is Some <==> parsed_json(text@) is Some,
        r matches Some(v) ==> parsed_json(text@) == Some(value_json(v)),
{
    serde_json::from_str::<serde_json::Value>(text).ok()
}

/// Copies a `serde_json::Value` into a `Json`, variant by variant.
///
/// Trusted: the variants of `serde_json::Value` and `Number::as_i64`. A
/// number becomes `Int` where `as_i64` gives an integer and `Number`
/// where it gives none; the members of an object come in the order in
/// which its map hands them out.
#[verifier::external_body]
fn json_of_value(value: &serde_json::Value) -> (r: Json)
    ensures
        r@ == value_json(*value),
{
    match value {
        serde_json::Value::Null => Json::Null,
        serde_json::Value::Bool(b) => Json::Bool(*b),
        serde_json::Value::Number(n) => n.as_i64().map_or(Json::Number, Json::Int),
        serde_json::Value::String(s) => Json::Str(s.clone()),
        serde_json::Value::Array(a) => Json::Array(a.iter().map(json_of_value).collect()),
        serde_json::Value::Object(m) => Json::Object(
            m.iter().map(|(k, v)| (k.clone(), json_of_value(v))).collect(),
        ),
    }
}

/// Reads a text as a JSON document. A text that is not JSON is malformed
/// input.
pub fn parse_document(text: &str) -> (r: Result<Json, ReportError>)
    ensures
        match parsed_json(text@) {
            Some(value) => r matches Ok(document) && document@ == value,
            None => r == Err::<Json, ReportError>(ReportError::MalformedInput),
        },
{
    match parse_value(text) {
        Some(value) => Ok(json_of_value(&value)),
        None => Err(ReportError::MalformedInput),
    }
}

} // verus!
