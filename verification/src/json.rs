//! A JSON document as plain data, and the lookups the extractors make in it.
//!
//! The accessors mirror those of a `serde_json::Value`: indexing a missing
//! member or a non-object gives `null`, and `as_*` gives `None` on any
//! other kind of value.

use serde_json::Value;
use vstd::prelude::*;
use crate::text::{chars_of, same};

verus! {

/// A JSON number, split as JSON parsers classify it.
#[derive(Debug, Clone, Copy, PartialEq, Eq)]
pub enum JsonNumber {
    /// A non-negative integer.
    PosInt(u64),
    /// A negative integer.
    NegInt(i64),
    /// Any other number, as the bits of its IEEE 754 double.
    Float(u64),
}

/// A JSON value. An object keeps its members in order; parsers give each
/// key at most once.
#[derive(Debug)]
pub enum Json {
    Null,
    Bool(bool),
    Number(JsonNumber),
    Str(String),
    Array(Vec<Json>),
    Object(Vec<(String, Json)>),
}

/// The value of the first member of `members` named `key`.
pub open spec fn member_in(members: Seq<(String, Json)>, key: Seq<char>) -> Option<Json>
    decreases members.len(),
{
    if members.len() == 0 {
        None
    } else if members[0].0@ == key {
        Some(members[0].1)
    } else {
        member_in(members.drop_first(), key)
    }
}

/// `Value::get`: the member `key` of an object, `None` for anything else.
pub open spec fn get(j: Json, key: Seq<char>) -> Option<Json> {
    match j {
        Json::Object(members) => member_in(members@, key),
        _ => None,
    }
}

/// `value[key]`: the member `key`, or `null`.
pub open spec fn field(j: Json, key: Seq<char>) -> Json {
    match get(j, key) {
        Some(v) => v,
        None => Json::Null,
    }
}

pub open spec fn as_u64(j: Json) -> Option<u64> {
    match j {
        Json::Number(JsonNumber::PosInt(n)) => Some(n),
        _ => None,
    }
}

/// `Value::as_f64`: any number (kept as it is given).
pub open spec fn as_number(j: Json) -> Option<JsonNumber> {
    match j {
        Json::Number(n) => Some(n),
        _ => None,
    }
}

pub open spec fn as_i64(j: Json) -> Option<i64> {
    match j {
        Json::Number(JsonNumber::PosInt(n)) => if n <= i64::MAX {
            Some(n as i64)
        } else {
            None
        },
        Json::Number(JsonNumber::NegInt(n)) => Some(n),
        _ => None,
    }
}

pub open spec fn as_str(j: Json) -> Option<Seq<char>> {
    match j {
        Json::Str(s) => Some(s@),
        _ => None,
    }
}

pub open spec fn is_string(j: Json) -> bool {
    j is Str
}

pub open spec fn as_array(j: Json) -> Option<Seq<Json>> {
    match j {
        Json::Array(items) => Some(items@),
        _ => None,
    }
}

pub open spec fn as_object(j: Json) -> Option<Seq<(String, Json)>> {
    match j {
        Json::Object(members) => Some(members@),
        _ => None,
    }
}

/// `value == "text"`: a string with exactly that text.
pub open spec fn is_text(j: Json, text: Seq<char>) -> bool {
    as_str(j) == Some(text)
}

/// The position of the first member named `key`.
pub fn member_index(members: &Vec<(String, Json)>, key: &str) -> (r: Option<usize>)
    ensures
        match r {
            Some(i) => i < members.len() && member_in(members@, key@) == Some(members@[i as int].1),
            None => member_in(members@, key@) is None,
        },
{
    let k = chars_of(key);
    let mut i: usize = 0;
    assert(members@.skip(0) =~= members@);
    while i < members.len()
        invariant
            i <= members.len(),
            k@ == key@,
            member_in(members@, key@) == member_in(members@.skip(i as int), key@),
        decreases members.len() - i,
    {
        let name = chars_of(members[i].0.as_str());
        proof {
            let rest = members@.skip(i as int);
            assert(rest[0] == members@[i as int]);
            assert(rest.drop_first() =~= members@.skip(i + 1));
        }
        if same(&name, &k) {
            return Some(i);
        }
        i = i + 1;
    }
    None
}

impl Json {
    /// `Value::get`.
    pub fn get(&self, key: &str) -> (r: Option<&Json>)
        ensures
            r matches Some(v) ==> get(*self, key@) == Some(*v),
            r is None ==> get(*self, key@) is None,
    {
        match self {
            Json::Object(members) => match member_index(members, key) {
                Some(i) => Some(&members[i].1),
                None => None,
            },
            _ => None,
        }
    }

    /// `value[key]`, taken out of the value.
    pub fn take_field(self, key: &str) -> (r: Json)
        ensures
            r == field(self, key@),
    {
        match self {
            Json::Object(members) => match member_index(&members, key) {
                Some(i) => {
                    let mut members = members;
                    let (_, v) = members.remove(i);
                    v
                },
                None => Json::Null,
            },
            _ => Json::Null,
        }
    }

    /// `value[key]`.
    pub fn field(&self, key: &str) -> (r: &Json)
        ensures
            *r == field(*self, key@),
    {
        match self.get(key) {
            Some(v) => v,
            None => &Json::Null,
        }
    }

    pub fn as_u64(&self) -> (r: Option<u64>)
        ensures
            r == as_u64(*self),
    {
        match self {
            Json::Number(JsonNumber::PosInt(n)) => Some(*n),
            _ => None,
        }
    }

    /// `Value::as_f64`, the number kept as it is given.
    pub fn as_number(&self) -> (r: Option<JsonNumber>)
        ensures
            r == as_number(*self),
    {
        match self {
            Json::Number(n) => Some(*n),
            _ => None,
        }
    }

    pub fn as_i64(&self) -> (r: Option<i64>)
        ensures
            r == as_i64(*self),
    {
        match self {
            Json::Number(JsonNumber::PosInt(n)) => if *n <= 0x7fff_ffff_ffff_ffffu64 {
                Some(*n as i64)
            } else {
                None
            },
            Json::Number(JsonNumber::NegInt(n)) => Some(*n),
            _ => None,
        }
    }

    pub fn as_str(&self) -> (r: Option<&str>)
        ensures
            r matches Some(s) ==> as_str(*self) == Some(s@),
            r is None ==> as_str(*self) is None,
    {
        match self {
            Json::Str(s) => Some(s.as_str()),
            _ => None,
        }
    }

    pub fn is_string(&self) -> (r: bool)
        ensures
            r == is_string(*self),
    {
        match self {
            Json::Str(_) => true,
            _ => false,
        }
    }

    pub fn as_array(&self) -> (r: Option<&Vec<Json>>)
        ensures
            r matches Some(v) ==> as_array(*self) == Some(v@),
            r is None ==> as_array(*self) is None,
    {
        match self {
            Json::Array(items) => Some(items),
            _ => None,
        }
    }

    pub fn as_object(&self) -> (r: Option<&Vec<(String, Json)>>)
        ensures
            r matches Some(v) ==> as_object(*self) == Some(v@),
            r is None ==> as_object(*self) is None,
    {
        match self {
            Json::Object(members) => Some(members),
            _ => None,
        }
    }

    /// `value == "text"`.
    pub fn is_text(&self, text: &str) -> (r: bool)
        ensures
            r == is_text(*self, text@),
    {
        match self {
            Json::Str(s) => {
                let a = chars_of(s.as_str());
                let b = chars_of(text);
                same(&a, &b)
            },
            _ => false,
        }
    }
}

// ---------------------------------------------------------------------
// Parsing
// ---------------------------------------------------------------------

/// The error type of the JSON crate.
#[verifier::external_type_specification]
#[verifier::external_body]
pub struct ExJsonError(serde_json::Error);

/// The JSON crate's document type.
#[verifier::external_type_specification]
#[verifier::external_body]
pub struct ExJsonValue(serde_json::Value);

/// The document that `serde_json` parses out of `text`, or `None` when it
/// refuses the text.
pub uninterp spec fn json_parse(text: Seq<char>) -> Option<Json>;

/// A `serde_json::Value` as a [`Json`], member for member: a number as the
/// crate classifies it (non-negative integer, negative integer, or the bits
/// of its double), an object's members in the crate's order. Only
/// [`parse_json`] calls it, on what `serde_json` parsed.
#[verifier::external_body]
fn json_of_value(value: Value) -> Json {
    match value {
        Value::Null => Json::Null,
        Value::Bool(b) => Json::Bool(b),
        Value::Number(n) => Json::Number(match (n.as_u64(), n.as_i64()) {
            (Some(u), _) => JsonNumber::PosInt(u),
            (None, Some(i)) => JsonNumber::NegInt(i),
            (None, None) => JsonNumber::Float(n.as_f64().map_or(0, |x| x.to_bits())),
        }),
        Value::String(s) => Json::Str(s),
        Value::Array(items) => Json::Array(items.into_iter().map(json_of_value).collect()),
        Value::Object(map) => Json::Object(map.into_iter().map(|(k, v)| (k, json_of_value(v))).collect()),
    }
}

/// `serde_json::from_str` into a `serde_json::Value`, converted to a
/// [`Json`].
///
/// Claimed of the crate: the outcome depends on the text alone, and is
/// named [`json_parse`]; what the document is for a given text is not
/// stated.
#[verifier::external_body]
pub(crate) fn parse_json(text: &str) -> (r: Result<Json, serde_json::Error>)
    ensures
        match r {
            Ok(j) => json_parse(text@) == Some(j),
            Err(_) => json_parse(text@) is None,
        },
{
    serde_json::from_str::<Value>(text).map(json_of_value)
}

} // verus!
