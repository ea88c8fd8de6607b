//! JSON values as plain data.
//!
//! Tool schemas and tool arguments are JSON documents.  The library keeps
//! them in its own tree type, so that the rules that read them (which keys a
//! tool accepts, which string an argument holds) are stated and proved over
//! plain values.  Turning text into such a tree is done by `serde_json`.

use vstd::prelude::*;
use crate::text::chars_of;

verus! {

/// A JSON document.  Numbers keep the text that `serde_json` prints for them;
/// an object keeps its members in order.
#[derive(Debug, PartialEq)]
pub enum JsonValue {
    Null,
    Bool(bool),
    Number(String),
    Str(String),
    Array(Vec<JsonValue>),
    Object(Vec<(String, JsonValue)>),
}

/// Two documents with the same content.
pub open spec fn json_same(a: JsonValue, b: JsonValue) -> bool
    decreases a,
{
    match (a, b) {
        (JsonValue::Null, JsonValue::Null) => true,
        (JsonValue::Bool(x), JsonValue::Bool(y)) => x == y,
        (JsonValue::Number(x), JsonValue::Number(y)) => x@ == y@,
        (JsonValue::Str(x), JsonValue::Str(y)) => x@ == y@,
        (JsonValue::Array(x), JsonValue::Array(y)) => x@.len() == y@.len() && forall|i: int|
            0 <= i < x@.len() ==> json_same(#[trigger] x@[i], y@[i]),
        (JsonValue::Object(x), JsonValue::Object(y)) => x@.len() == y@.len() && forall|i: int|
            0 <= i < x@.len() ==> (#[trigger] x@[i]).0@ == y@[i].0@ && json_same(x@[i].1, y@[i].1),
        _ => false,
    }
}

impl Clone for JsonValue {
    fn clone(&self) -> (r: Self)
        ensures
            json_same(*self, r),
        decreases self,
    {
        match self {
            JsonValue::Null => JsonValue::Null,
            JsonValue::Bool(b) => JsonValue::Bool(*b),
            JsonValue::Number(n) => JsonValue::Number(n.clone()),
            JsonValue::Str(s) => JsonValue::Str(s.clone()),
            JsonValue::Array(items) => {
                let mut out: Vec<JsonValue> = Vec::new();
                let mut i: usize = 0;
                while i < items.len()
                    invariant
                        i <= items@.len(),
                        *self == JsonValue::Array(*items),
                        out@.len() == i,
                        forall|k: int| 0 <= k < i ==> json_same(#[trigger] items@[k], out@[k]),
                    decreases items@.len() - i,
                {
                    assert(decreases_to!(*self => self->Array_0));
                    assert(decreases_to!(self->Array_0 => items@));
                    assert(decreases_to!(items@ => items@[i as int]));
                    out.push(items[i].clone());
                    i = i + 1;
                }
                JsonValue::Array(out)
            },
            JsonValue::Object(entries) => {
                let mut out: Vec<(String, JsonValue)> = Vec::new();
                let mut i: usize = 0;
                while i < entries.len()
                    invariant
                        i <= entries@.len(),
                        *self == JsonValue::Object(*entries),
                        out@.len() == i,
                        forall|k: int| 0 <= k < i ==> (#[trigger] entries@[k]).0@ == out@[k].0@ && json_same(entries@[k].1, out@[k].1),
                    decreases entries@.len() - i,
                {
                    assert(decreases_to!(*self => self->Object_0));
                    assert(decreases_to!(self->Object_0 => entries@));
                    assert(decreases_to!(entries@ => entries@[i as int]));
                    assert(decreases_to!(entries@[i as int] => entries@[i as int].1));
                    let value = entries[i].1.clone();
                    out.push((entries[i].0.clone(), value));
                    i = i + 1;
                }
                JsonValue::Object(out)
            },
        }
    }
}

/// The value of the first member named `key` among `entries`.
pub open spec fn entries_get(entries: Seq<(String, JsonValue)>, key: Seq<char>) -> Option<JsonValue>
    decreases entries.len(),
{
    if entries.len() == 0 {
        None
    } else if entries[0].0@ == key {
        Some(entries[0].1)
    } else {
        entries_get(entries.drop_first(), key)
    }
}

/// What `serde_json::from_str::<serde_json::Value>` makes of a text: the
/// document it denotes, or the text of the error it reports.
pub uninterp spec fn json_parse(text: Seq<char>) -> Result<JsonValue, Seq<char>>;

/// A document as `serde_json` holds it.
#[verifier::external_type_specification]
#[verifier::external_body]
pub struct ExSerdeValue(serde_json::Value);

/// Turns a `serde_json::Value` into a `JsonValue`, one variant for one,
/// members and items in the order `serde_json` keeps them (its number
/// printed with `Display`).  Nothing is stated of it: it serves the body of
/// `parse_json`, whose contract covers the whole reading.
#[verifier::external_body]
fn from_serde(v: serde_json::Value) -> (r: JsonValue) {
    match v {
        serde_json::Value::Null => JsonValue::Null,
        serde_json::Value::Bool(b) => JsonValue::Bool(b),
        serde_json::Value::Number(n) => JsonValue::Number(n.to_string()),
        serde_json::Value::String(s) => JsonValue::Str(s),
        serde_json::Value::Array(a) => JsonValue::Array(a.into_iter().map(|x| from_serde(x)).collect()),
        serde_json::Value::Object(m) => JsonValue::Object(m.into_iter().map(|(k, x)| (k, from_serde(x))).collect()),
    }
}

/// Reads `text` with `serde_json::from_str::<serde_json::Value>`: the
/// document, as a `JsonValue`, or the `Display` text of the error.  The
/// contract claims only that the outcome is a function of the text (named
/// `json_parse`); what JSON text denotes is left to `serde_json`.
#[verifier::external_body]
pub(crate) fn parse_json(text: &str) -> (r: Result<JsonValue, String>)
    ensures
        match r {
            Ok(v) => json_parse(text@) == Ok::<JsonValue, Seq<char>>(v),
            Err(e) => json_parse(text@) == Err::<JsonValue, Seq<char>>(e@),
        },
{
    match serde_json::from_str::<serde_json::Value>(text) {
        Ok(v) => Ok(from_serde(v)),
        Err(e) => Err(e.to_string()),
    }
}

impl JsonValue {
    /// The member `key` of an object; nothing for any other value
    /// (`serde_json::Value::get` with a string index).
    pub open spec fn get_spec(self, key: Seq<char>) -> Option<JsonValue> {
        match self {
            JsonValue::Object(entries) => entries_get(entries@, key),
            _ => None,
        }
    }

    /// The text of a string value (`serde_json::Value::as_str`).
    pub open spec fn as_str_spec(self) -> Option<Seq<char>> {
        match self {
            JsonValue::Str(s) => Some(s@),
            _ => None,
        }
    }

    /// The number of members of an object (`as_object().map(len)`).
    pub open spec fn object_len_spec(self) -> Option<nat> {
        match self {
            JsonValue::Object(entries) => Some(entries@.len()),
            _ => None,
        }
    }

    pub fn get(&self, key: &str) -> (r: Option<&JsonValue>)
        ensures
            match r {
                Some(v) => self.get_spec(key@) == Some(*v),
                None => self.get_spec(key@) is None,
            },
    {
        match self {
            JsonValue::Object(entries) => {
                let mut i: usize = 0;
                assert(entries@.skip(0) =~= entries@);
                while i < entries.len()
                    invariant
                        i <= entries@.len(),
                        self.get_spec(key@) == entries_get(entries@, key@),
                        entries_get(entries@, key@) == entries_get(entries@.skip(i as int), key@),
                    decreases entries@.len() - i,
                {
                    assert(entries@.skip(i as int)[0] == entries@[i as int]);
                    if str_eq(entries[i].0.as_str(), key) {
                        assert(entries@.skip(i as int)[0].0@ == key@);
                        assert(entries_get(entries@.skip(i as int), key@) == Some(entries@[i as int].1));
                        return Some(&entries[i].1);
                    }
                    assert(entries@.skip(i as int).drop_first() =~= entries@.skip(i + 1));
                    i = i + 1;
                }
                None
            },
            _ => None,
        }
    }

    pub fn as_str(&self) -> (r: Option<&str>)
        ensures
            match r {
                Some(s) => self.as_str_spec() == Some(s@),
                None => self.as_str_spec() is None,
            },
    {
        match self {
            JsonValue::Str(s) => Some(s.as_str()),
            _ => None,
        }
    }

    pub fn object_len(&self) -> (r: Option<usize>)
        ensures
            match r {
                Some(n) => self.object_len_spec() == Some(n as nat),
                None => self.object_len_spec() is None,
            },
    {
        match self {
            JsonValue::Object(entries) => Some(entries.len()),
            _ => None,
        }
    }

    /// An object with no members (`json!({})`).
    pub fn empty_object() -> (r: JsonValue)
        ensures
            r.object_len_spec() == Some(0nat),
            forall|key: Seq<char>| r.get_spec(key) is None,
    {
        JsonValue::Object(Vec::new())
    }

    /// A string value.
    pub fn string(s: &str) -> (r: JsonValue)
        ensures
            r.as_str_spec() == Some(s@),
    {
        JsonValue::Str(s.to_owned())
    }
}

/// Whether two strings are equal.
pub fn str_eq(a: &str, b: &str) -> (r: bool)
    ensures
        r == (a@ == b@),
{
    let va = chars_of(a);
    let vb = chars_of(b);
    if va.len() != vb.len() {
        return false;
    }
    let mut i: usize = 0;
    while i < va.len()
        invariant
            i <= va@.len() == vb@.len(),
            va@ == a@,
            vb@ == b@,
            forall|k: int| 0 <= k < i ==> #[trigger] va@[k] == vb@[k],
        decreases va@.len() - i,
    {
        if va[i] != vb[i] {
            return false;
        }
        i = i + 1;
    }
    assert(va@ =~= vb@);
    true
}

} // verus!
