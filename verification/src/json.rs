//! A JSON document as plain values, as the feeds deliver it.
use vstd::prelude::*;

use crate::text::{chars_eq, chars_of};

verus! {

/// A JSON number: its text as serde_json renders it (the decimal form for an
/// integer), and its value where it fits an unsigned or signed 64-bit integer.
#[derive(Clone, Debug)]
pub struct JsonNumber {
    pub text: String,
    pub as_u64: Option<u64>,
    pub as_i64: Option<i64>,
}

/// A JSON value. An object keeps its members in the order the document gives
/// them, each key once.
#[derive(Debug)]
pub enum JsonValue {
    Null,
    Bool(bool),
    Number(JsonNumber),
    Str(String),
    Array(Vec<JsonValue>),
    Object(Vec<(String, JsonValue)>),
}

/// The member `key` of an object's members (the first one so named).
pub open spec fn members_get(members: Seq<(String, JsonValue)>, key: Seq<char>) -> Option<JsonValue>
    decreases members.len(),
{
    if members.len() == 0 {
        None
    } else if members[0].0@ == key {
        Some(members[0].1)
    } else {
        members_get(members.drop_first(), key)
    }
}

/// The member `key` of a value: `None` unless the value is an object holding it
/// (what `serde_json::Value::get` does with a string index).
pub open spec fn value_get(v: JsonValue, key: Seq<char>) -> Option<JsonValue> {
    match v {
        JsonValue::Object(m) => members_get(m@, key),
        _ => None,
    }
}

/// The elements of an array value.
pub open spec fn as_array_spec(v: JsonValue) -> Option<Seq<JsonValue>> {
    match v {
        JsonValue::Array(a) => Some(a@),
        _ => None,
    }
}

/// The member `key` of an object's members.
pub fn members_lookup<'a>(members: &'a Vec<(String, JsonValue)>, key: &str) -> (r: Option<
    &'a JsonValue,
>)
    ensures
        match r {
            Some(v) => members_get(members@, key@) == Some(*v),
            None => members_get(members@, key@) is None,
        },
{
    let k = chars_of(key);
    let mut i: usize = 0;
    assert(members@.subrange(0, members@.len() as int) == members@);
    while i < members.len()
        invariant
            i <= members.len(),
            k@ == key@,
            members_get(members@, key@) == members_get(members@.subrange(i as int, members@.len() as int), key@),
        decreases members.len() - i,
    {
        let ghost rest = members@.subrange(i as int, members@.len() as int);
        assert(rest[0] == members@[i as int]);
        assert(rest.drop_first() == members@.subrange(i + 1, members@.len() as int));
        let mk = chars_of(members[i].0.as_str());
        if chars_eq(&mk, &k) {
            return Some(&members[i].1);
        }
        i = i + 1;
    }
    None
}

impl JsonValue {
    /// The member `key`, if this is an object holding one.
    pub fn get(&self, key: &str) -> (r: Option<&JsonValue>)
        ensures
            match r {
                Some(v) => value_get(*self, key@) == Some(*v),
                None => value_get(*self, key@) is None,
            },
    {
        match self {
            JsonValue::Object(m) => members_lookup(m, key),
            _ => None,
        }
    }

    /// The elements, if this is an array.
    pub fn as_array(&self) -> (r: Option<&Vec<JsonValue>>)
        ensures
            match r {
                Some(a) => as_array_spec(*self) == Some(a@),
                None => as_array_spec(*self) is None,
            },
    {
        match self {
            JsonValue::Array(a) => Some(a),
            _ => None,
        }
    }

    /// The text, if this is a string.
    pub fn as_str(&self) -> (r: Option<&str>)
        ensures
            match r {
                Some(s) => *self matches JsonValue::Str(t) && t@ == s@,
                None => !(*self is Str),
            },
    {
        match self {
            JsonValue::Str(s) => Some(s.as_str()),
            _ => None,
        }
    }
}

} // verus!
