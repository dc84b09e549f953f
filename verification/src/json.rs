use vstd::prelude::*;

use crate::text::str_eq;

verus! {

broadcast use vstd::string::group_string_axioms;

/// A JSON number: its value where it is a non-negative integer that fits
/// in `u64`, its value where it is an integer that fits in `i64`, the bits
/// of the IEEE 754 double that serde_json reads it as, and its text as
/// serde_json writes it.
#[derive(Debug)]
pub struct JsonNumber {
    pub unsigned: Option<u64>,
    pub signed: Option<i64>,
    pub bits: u64,
    pub text: String,
}

/// A JSON value.  An object lists its members in key order, each key once.
#[derive(Debug)]
pub enum JsonValue {
    Null,
    Bool(bool),
    Number(JsonNumber),
    String(String),
    Array(Vec<JsonValue>),
    Object(Vec<(String, JsonValue)>),
}

#[verifier::external_type_specification]
#[verifier::external_body]
pub struct ExSerdeJsonValue(serde_json::Value);

#[verifier::external_type_specification]
#[verifier::external_body]
pub struct ExSerdeJsonError(serde_json::Error);

/// What `serde_json::from_str` gives for a text: the JSON value, or the
/// message of the error.
pub uninterp spec fn json_text_value(source: Seq<char>) -> Result<JsonValue, Seq<char>>;

/// `serde_json::from_str::<serde_json::Value>`: parses JSON text.  The value,
/// or the error message, is named `json_text_value`; nothing more is claimed
/// of it.
#[verifier::external_body]
pub(crate) fn parse_json(source: &str) -> (r: Result<JsonValue, String>)
    ensures
        match (r, json_text_value(source@)) {
            (Ok(v), Ok(w)) => v == w,
            (Err(e), Err(m)) => e@ == m,
            _ => false,
        },
{
    match serde_json::from_str::<serde_json::Value>(source) {
        Ok(value) => Ok(json_from_serde(value)),
        Err(error) => Err(error.to_string()),
    }
}

/// Turns a `serde_json::Value` into a `JsonValue`, one for one: members
/// and elements in the order serde_json holds them.
#[verifier::external_body]
pub(crate) fn json_from_serde(value: serde_json::Value) -> JsonValue {
    match value {
        serde_json::Value::Null => JsonValue::Null,
        serde_json::Value::Bool(b) => JsonValue::Bool(b),
        serde_json::Value::Number(n) => JsonValue::Number(JsonNumber {
            unsigned: n.as_u64(),
            signed: n.as_i64(),
            bits: n.as_f64().map(|x| x.to_bits()).unwrap_or_default(),
            text: n.to_string(),
        }),
        serde_json::Value::String(s) => JsonValue::String(s),
        serde_json::Value::Array(items) => JsonValue::Array(items.into_iter().map(json_from_serde).collect()),
        serde_json::Value::Object(members) => JsonValue::Object(members.into_iter().map(|(k, v)| (k, json_from_serde(v))).collect()),
    }
}

/// The member `key` of an object: the first one with that key.
pub open spec fn member_of(members: Seq<(String, JsonValue)>, key: Seq<char>, from: int) -> Option<JsonValue>
    decreases members.len() - from,
{
    if from < 0 || from >= members.len() {
        None
    } else if members[from].0@ == key {
        Some(members[from].1)
    } else {
        member_of(members, key, from + 1)
    }
}

/// The member `key` of a value, where it is an object that has one.
pub open spec fn json_member(v: JsonValue, key: Seq<char>) -> Option<JsonValue> {
    match v {
        JsonValue::Object(members) => member_of(members@, key, 0),
        _ => None,
    }
}

/// The text of a string value.
pub open spec fn json_str(v: Option<JsonValue>) -> Option<Seq<char>> {
    match v {
        Some(JsonValue::String(s)) => Some(s@),
        _ => None,
    }
}

/// The value of a number that is an integer fitting in `i64`.
pub open spec fn json_i64(v: Option<JsonValue>) -> Option<i64> {
    match v {
        Some(JsonValue::Number(n)) => n.signed,
        _ => None,
    }
}

/// `serde_json::Value::from(i64)`: the JSON number of an integer.  Its
/// value as `i64`, and as `u64` where it is not negative, is the integer;
/// its text and double are not stated.
#[verifier::external_body]
pub(crate) fn json_integer(value: i64) -> (r: JsonValue)
    ensures
        r is Number,
        r->Number_0.signed == Some(value),
        r->Number_0.unsigned == (if value >= 0 { Some(value as u64) } else { None }),
{
    json_from_serde(serde_json::Value::from(value))
}

/// The value of a boolean.
pub open spec fn json_bool(v: Option<JsonValue>) -> Option<bool> {
    match v {
        Some(JsonValue::Bool(b)) => Some(b),
        _ => None,
    }
}

/// The value of a number that is a non-negative integer fitting in `u64`.
pub open spec fn json_u64(v: Option<JsonValue>) -> Option<u64> {
    match v {
        Some(JsonValue::Number(n)) => n.unsigned,
        _ => None,
    }
}

impl JsonValue {
    /// Parses JSON text (with serde_json): the value, or the message of the
    /// error.
    pub fn parse(source: &str) -> (r: Result<JsonValue, String>)
        ensures
            match (r, json_text_value(source@)) {
                (Ok(v), Ok(w)) => v == w,
                (Err(e), Err(m)) => e@ == m,
                _ => false,
            },
    {
        parse_json(source)
    }

    /// The member `key`, where this is an object that has one.
    pub fn get(&self, key: &str) -> (r: Option<&JsonValue>)
        ensures
            match r {
                Some(m) => json_member(*self, key@) == Some(*m),
                None => json_member(*self, key@) is None,
            },
    {
        match self {
            JsonValue::Object(members) => {
                let mut i: usize = 0;
                while i < members.len()
                    invariant
                        i <= members.len(),
                        *self == JsonValue::Object(*members),
                        member_of(members@, key@, 0) == member_of(members@, key@, i as int),
                    decreases members.len() - i,
                {
                    if str_eq(members[i].0.as_str(), key) {
                        return Some(&members[i].1);
                    }
                    i += 1;
                }
                None
            },
            _ => None,
        }
    }

    /// The text, where this is a string.
    pub fn as_str(&self) -> (r: Option<&str>)
        ensures
            match r {
                Some(s) => json_str(Some(*self)) == Some(s@),
                None => json_str(Some(*self)) is None,
            },
    {
        match self {
            JsonValue::String(s) => Some(s.as_str()),
            _ => None,
        }
    }

    /// The value, where this is a boolean.
    pub fn as_bool(&self) -> (r: Option<bool>)
        ensures
            r == json_bool(Some(*self)),
    {
        match self {
            JsonValue::Bool(b) => Some(*b),
            _ => None,
        }
    }

    /// The value, where this is a number that is a non-negative integer
    /// fitting in `u64`.
    pub fn as_u64(&self) -> (r: Option<u64>)
        ensures
            r == json_u64(Some(*self)),
    {
        match self {
            JsonValue::Number(n) => n.unsigned,
            _ => None,
        }
    }
}

} // verus!
