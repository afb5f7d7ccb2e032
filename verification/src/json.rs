//! The JSON document model the scene parser reads.
//!
//! A scene collection arrives as JSON; the library holds it in its own value
//! type. A number keeps what the parser asks of it: its value as an `i64` when
//! it is one, and its value as a double, carried by its IEEE-754 bit pattern.

use vstd::prelude::*;
use crate::text::str_eq;

verus! {

/// A JSON number: `as_i64` is its value when it is an integer that fits in an
/// `i64`; `as_f64_bits` is the bit pattern of its value as a double.
#[derive(Clone, Copy)]
pub struct JsonNumber {
    pub as_i64: Option<i64>,
    pub as_f64_bits: u64,
}

/// A JSON value. An object lists its members in order, each key once.
pub enum JsonValue {
    Null,
    Bool(bool),
    Number(JsonNumber),
    Str(String),
    Array(Vec<JsonValue>),
    Object(Vec<(String, JsonValue)>),
}

/// Reads an optional reference as an optional value.
pub open spec fn deref_opt(o: Option<&JsonValue>) -> Option<JsonValue> {
    match o {
        Some(v) => Some(*v),
        None => None,
    }
}

/// The index of the first member of `entries`, from `i` on, whose key is `key`.
pub open spec fn key_index_from(entries: Seq<(String, JsonValue)>, key: Seq<char>, i: int) -> Option<int>
    decreases entries.len() - i,
{
    if i < 0 || i >= entries.len() {
        None
    } else if entries[i].0@ == key {
        Some(i)
    } else {
        key_index_from(entries, key, i + 1)
    }
}

/// The member `key` of `v`, when `v` is an object that has it.
pub open spec fn j_field(v: Option<JsonValue>, key: Seq<char>) -> Option<JsonValue> {
    match v {
        Some(JsonValue::Object(entries)) => match key_index_from(entries@, key, 0) {
            Some(i) => Some(entries@[i].1),
            None => None,
        },
        _ => None,
    }
}

/// `v` as a string, when it is one.
pub open spec fn j_str(v: Option<JsonValue>) -> Option<Seq<char>> {
    match v {
        Some(JsonValue::Str(s)) => Some(s@),
        _ => None,
    }
}

/// `v` as a boolean, when it is one.
pub open spec fn j_bool(v: Option<JsonValue>) -> Option<bool> {
    match v {
        Some(JsonValue::Bool(b)) => Some(b),
        _ => None,
    }
}

/// `v` as an `i64`, when it is a number that is one.
pub open spec fn j_i64(v: Option<JsonValue>) -> Option<i64> {
    match v {
        Some(JsonValue::Number(n)) => n.as_i64,
        _ => None,
    }
}

/// The bit pattern of `v` as a double, when it is a number.
pub open spec fn j_f64(v: Option<JsonValue>) -> Option<u64> {
    match v {
        Some(JsonValue::Number(n)) => Some(n.as_f64_bits),
        _ => None,
    }
}

/// The elements of `v`, when it is an array.
pub open spec fn j_array(v: Option<JsonValue>) -> Option<Seq<JsonValue>> {
    match v {
        Some(JsonValue::Array(a)) => Some(a@),
        _ => None,
    }
}

/// The member `key` of `v`, when `v` is an object that has it.
pub fn field<'a>(v: Option<&'a JsonValue>, key: &str) -> (r: Option<&'a JsonValue>)
    ensures
        deref_opt(r) == j_field(deref_opt(v), key@),
{
    match v {
        Some(JsonValue::Object(entries)) => {
            let mut i: usize = 0;
            while i < entries.len()
                invariant
                    i <= entries.len(),
                    deref_opt(v) == Some(JsonValue::Object(*entries)),
                    key_index_from(entries@, key@, 0) == key_index_from(entries@, key@, i as int),
                decreases entries.len() - i,
            {
                if str_eq(entries[i].0.as_str(), key) {
                    assert(key_index_from(entries@, key@, i as int) == Some(i as int));
                    return Some(&entries[i].1);
                }
                i = i + 1;
            }
            None
        },
        _ => None,
    }
}

/// `v` as a string slice, when it is a string.
pub fn as_str<'a>(v: Option<&'a JsonValue>) -> (r: Option<&'a str>)
    ensures
        r is Some <==> j_str(deref_opt(v)) is Some,
        r matches Some(s) ==> s@ == j_str(deref_opt(v))->0,
{
    match v {
        Some(JsonValue::Str(s)) => Some(s.as_str()),
        _ => None,
    }
}

/// `v` as a boolean, when it is one.
pub fn as_bool(v: Option<&JsonValue>) -> (r: Option<bool>)
    ensures
        r == j_bool(deref_opt(v)),
{
    match v {
        Some(JsonValue::Bool(b)) => Some(*b),
        _ => None,
    }
}

/// `v` as an `i64`, when it is a number that is one.
pub fn as_i64(v: Option<&JsonValue>) -> (r: Option<i64>)
    ensures
        r == j_i64(deref_opt(v)),
{
    match v {
        Some(JsonValue::Number(n)) => n.as_i64,
        _ => None,
    }
}

/// The bit pattern of `v` as a double, when it is a number.
pub fn as_f64_bits(v: Option<&JsonValue>) -> (r: Option<u64>)
    ensures
        r == j_f64(deref_opt(v)),
{
    match v {
        Some(JsonValue::Number(n)) => Some(n.as_f64_bits),
        _ => None,
    }
}

/// The elements of `v`, when it is an array.
pub fn as_array<'a>(v: Option<&'a JsonValue>) -> (r: Option<&'a Vec<JsonValue>>)
    ensures
        r is Some <==> j_array(deref_opt(v)) is Some,
        r matches Some(a) ==> a@ == j_array(deref_opt(v))->0,
{
    match v {
        Some(JsonValue::Array(a)) => Some(a),
        _ => None,
    }
}

} // verus!
