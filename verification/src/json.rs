//! JSON documents as plain library values, read by `serde_json`, and the
//! lookups the library performs on them.
use vstd::prelude::*;

use crate::text::{chars_of, eq_chars};

verus! {

/// The mathematical form of a JSON value; object members keep the order in
/// which they are held.
pub enum JsonSpec {
    Null,
    Bool(bool),
    /// A number, by its JSON text.
    Number(Seq<char>),
    Str(Seq<char>),
    Array(Seq<JsonSpec>),
    Object(Seq<(Seq<char>, JsonSpec)>),
}

/// A JSON value.
#[derive(Debug)]
pub enum JsonValue {
    Null,
    Bool(bool),
    /// A number, by its JSON text.
    Number(String),
    Str(String),
    Array(Vec<JsonValue>),
    Object(Vec<(String, JsonValue)>),
}

/// The mathematical form of a JSON value.
pub open spec fn json_view(v: JsonValue) -> JsonSpec
    decreases v,
{
    match v {
        JsonValue::Null => JsonSpec::Null,
        JsonValue::Bool(b) => JsonSpec::Bool(b),
        JsonValue::Number(n) => JsonSpec::Number(n@),
        JsonValue::Str(s) => JsonSpec::Str(s@),
        JsonValue::Array(items) => JsonSpec::Array(
            Seq::new(
                items@.len(),
                |i: int|
                    if 0 <= i < items@.len() {
                        json_view(items@[i])
                    } else {
                        JsonSpec::Null
                    },
            ),
        ),
        JsonValue::Object(fields) => JsonSpec::Object(
            Seq::new(
                fields@.len(),
                |i: int|
                    if 0 <= i < fields@.len() {
                        (fields@[i].0@, json_view(fields@[i].1))
                    } else {
                        (Seq::<char>::empty(), JsonSpec::Null)
                    },
            ),
        ),
    }
}

/// The JSON value `serde_json` reads from `bytes`, or `None` when they are
/// not one JSON document.
pub uninterp spec fn json_of(bytes: Seq<u8>) -> Option<JsonSpec>;

/// Declares `serde_json::Value` so that the reader can hand one over.
#[verifier::external_type_specification]
#[verifier::external_body]
pub struct ExJsonValue(serde_json::Value);

/// Converts a `serde_json::Value` into a `JsonValue`, variant for variant:
/// numbers by their `Display` text (`Number`'s `to_string`), arrays element
/// by element, objects member by member in the map's order. Nothing is
/// stated here; `parse_json` states the result of reading and converting.
#[verifier::external_body]
fn json_value_from(v: serde_json::Value) -> JsonValue {
    match v {
        serde_json::Value::Null => JsonValue::Null,
        serde_json::Value::Bool(b) => JsonValue::Bool(b),
        serde_json::Value::Number(n) => JsonValue::Number(n.to_string()),
        serde_json::Value::String(s) => JsonValue::Str(s),
        serde_json::Value::Array(a) => JsonValue::Array(a.into_iter().map(json_value_from).collect()),
        serde_json::Value::Object(o) => JsonValue::Object(
            o.into_iter().map(|(k, x)| (k, json_value_from(x))).collect(),
        ),
    }
}

/// Calls `serde_json::from_slice::<serde_json::Value>`, which parses one JSON
/// document from the bytes, and converts the value. Stated: the result is
/// the named reading of the bytes, `None` exactly when `serde_json` reports an
/// error. Which JSON text yields which value is left to `serde_json`.
#[verifier::external_body]
fn parse_json(bytes: &[u8]) -> (res: Option<JsonValue>)
    ensures
        match res {
            Some(v) => json_of(bytes@) == Some(json_view(v)),
            None => json_of(bytes@) is None,
        },
{
    match serde_json::from_slice::<serde_json::Value>(bytes) {
        Ok(v) => Some(json_value_from(v)),
        Err(_) => None,
    }
}

/// Reads a JSON document from bytes.
pub fn read_json(bytes: &[u8]) -> (res: Option<JsonValue>)
    ensures
        match res {
            Some(v) => json_of(bytes@) == Some(json_view(v)),
            None => json_of(bytes@) is None,
        },
{
    parse_json(bytes)
}

/// The value of the first member named `key`, as `Value::get` looks up an
/// object's member; `None` for a missing member or a value that is not an
/// object.
pub open spec fn json_get(j: JsonSpec, key: Seq<char>) -> Option<JsonSpec> {
    match j {
        JsonSpec::Object(fields) => member(fields, key, 0),
        _ => None,
    }
}

/// The value of the first member named `key` at or after index `from`.
pub open spec fn member(fields: Seq<(Seq<char>, JsonSpec)>, key: Seq<char>, from: int) -> Option<
    JsonSpec,
>
    decreases fields.len() - from,
{
    if from < 0 || from >= fields.len() {
        None
    } else if fields[from].0 == key {
        Some(fields[from].1)
    } else {
        member(fields, key, from + 1)
    }
}

/// The text of a JSON string value, as `Value::as_str` gives it.
pub open spec fn json_str(j: Option<JsonSpec>) -> Option<Seq<char>> {
    match j {
        Some(JsonSpec::Str(s)) => Some(s),
        _ => None,
    }
}

/// The member named `key` of an object value.
pub fn get_member<'a>(v: &'a JsonValue, key: &str) -> (res: Option<&'a JsonValue>)
    ensures
        match res {
            Some(m) => json_get(json_view(*v), key@) == Some(json_view(*m)),
            None => json_get(json_view(*v), key@) is None,
        },
{
    let k = chars_of(key);
    match v {
        JsonValue::Object(fields) => {
            let ghost fs = Seq::new(
                fields@.len(),
                |i: int|
                    if 0 <= i < fields@.len() {
                        (fields@[i].0@, json_view(fields@[i].1))
                    } else {
                        (Seq::<char>::empty(), JsonSpec::Null)
                    },
            );
            assert(*v == JsonValue::Object(*fields));
            assert(json_view(*v) matches JsonSpec::Object(f) && f =~= fs);
            let n = fields.len();
            let mut i: usize = 0;
            while i < n
                invariant
                    n == fields@.len(),
                    fs.len() == n,
                    forall|q: int|
                        0 <= q < n ==> #[trigger] fs[q] == (fields@[q].0@, json_view(
                            fields@[q].1,
                        )),
                    k@ == key@,
                    i <= n,
                    json_view(*v) == JsonSpec::Object(fs),
                    member(fs, key@, 0) == member(fs, key@, i as int),
                decreases n - i,
            {
                let (name, value) = &fields[i];
                assert(fs[i as int] == (fields@[i as int].0@, json_view(fields@[i as int].1)));
                if eq_chars(&chars_of(name.as_str()), &k) {
                    assert(fs[i as int].0 == key@);
                    assert(member(fs, key@, i as int) == Some(fs[i as int].1));
                    return Some(value);
                }
                i = i + 1;
            }
            None
        },
        _ => None,
    }
}

/// The text of a string value.
pub fn as_text(v: Option<&JsonValue>) -> (res: Option<String>)
    ensures
        match v {
            Some(x) => match res {
                Some(s) => json_str(Some(json_view(*x))) == Some(s@),
                None => json_str(Some(json_view(*x))) is None,
            },
            None => res is None,
        },
{
    match v {
        Some(JsonValue::Str(s)) => Some(s.clone()),
        _ => None,
    }
}

} // verus!
