//! JSON documents as read by the manifest parsers.
//!
//! Parsing is serde_json's; the tree it yields is held here as a
//! [`JsonValue`], whose lookups (`get`, `as_str`, `as_array`) are the few
//! lines that serde_json's own accessors amount to.
use vstd::prelude::*;

use crate::text;

verus! {

/// A parsed JSON value. Numbers keep no value: nothing here reads them.
/// An object holds its members in serde_json's iteration order (sorted by
/// key, each key once).
#[derive(Debug)]
pub enum JsonValue {
    Null,
    Bool(bool),
    Number,
    Str(String),
    Array(Vec<JsonValue>),
    Object(Vec<(String, JsonValue)>),
}

#[verifier::external_type_specification]
#[verifier::external_body]
pub struct ExJsonValue(serde_json::Value);

/// The outcome of parsing `text` as one JSON document: the value, or the
/// parser's error message.
pub uninterp spec fn json_document(text: Seq<char>) -> Result<JsonValue, Seq<char>>;

/// `serde_json::Value` to [`JsonValue`], variant for variant; numbers keep
/// no value. Called only by [`parse_json`] on what serde_json parsed.
#[verifier::external_body]
fn from_serde(v: &serde_json::Value) -> JsonValue {
    match v {
        serde_json::Value::Null => JsonValue::Null,
        serde_json::Value::Bool(b) => JsonValue::Bool(*b),
        serde_json::Value::Number(_) => JsonValue::Number,
        serde_json::Value::String(s) => JsonValue::Str(s.clone()),
        serde_json::Value::Array(a) => JsonValue::Array(a.iter().map(from_serde).collect()),
        serde_json::Value::Object(m) => JsonValue::Object(
            m.iter().map(|(k, x)| (k.clone(), from_serde(x))).collect(),
        ),
    }
}

/// `serde_json::from_str::<serde_json::Value>`: the value that `raw` holds,
/// or the error's message (its `Display` form). The outcome is named
/// `json_document` and depends on `raw` alone; what it is on given text is
/// serde_json's JSON grammar and is not written out here.
#[verifier::external_body]
pub(crate) fn parse_json(raw: &str) -> (r: Result<JsonValue, String>)
    ensures
        match r {
            Ok(v) => json_document(raw@) == Ok::<JsonValue, Seq<char>>(v),
            Err(e) => json_document(raw@) == Err::<JsonValue, Seq<char>>(e@),
        },
{
    match serde_json::from_str::<serde_json::Value>(raw) {
        Ok(v) => Ok(from_serde(&v)),
        Err(e) => Err(e.to_string()),
    }
}

/// The first member of `entries` named `key`.
pub open spec fn member(entries: Seq<(String, JsonValue)>, key: Seq<char>) -> Option<JsonValue>
    decreases entries.len(),
{
    if entries.len() == 0 {
        None
    } else if entries[0].0@ == key {
        Some(entries[0].1)
    } else {
        member(entries.drop_first(), key)
    }
}

/// `value.get(key)`: the member `key` of an object, `None` for any other
/// value.
pub open spec fn get(v: JsonValue, key: Seq<char>) -> Option<JsonValue> {
    match v {
        JsonValue::Object(entries) => member(entries@, key),
        _ => None,
    }
}

/// `value.as_str()`.
pub open spec fn as_str(v: JsonValue) -> Option<Seq<char>> {
    match v {
        JsonValue::Str(s) => Some(s@),
        _ => None,
    }
}

/// `value.get(key).and_then(as_str)`.
pub open spec fn get_str(v: JsonValue, key: Seq<char>) -> Option<Seq<char>> {
    match get(v, key) {
        Some(x) => as_str(x),
        None => None,
    }
}

/// `value.get(key).and_then(as_array)`.
pub open spec fn get_array(v: JsonValue, key: Seq<char>) -> Option<Seq<JsonValue>> {
    match get(v, key) {
        Some(JsonValue::Array(items)) => Some(items@),
        _ => None,
    }
}

/// The member `key` of `entries`.
fn member_exec<'a>(entries: &'a Vec<(String, JsonValue)>, key: &str) -> (r: Option<&'a JsonValue>)
    ensures
        match r {
            Some(x) => member(entries@, key@) == Some(*x),
            None => member(entries@, key@) is None,
        },
{
    let k = text::to_chars(key);
    let mut i: usize = 0;
    assert(entries@.skip(0) =~= entries@);
    while i < entries.len()
        invariant
            i <= entries.len(),
            k@ == key@,
            member(entries@, key@) == member(entries@.skip(i as int), key@),
        decreases entries.len() - i,
    {
        assert(entries@.skip(i as int).drop_first() =~= entries@.skip(i + 1));
        let name = text::to_chars(entries[i].0.as_str());
        if text::eq_chars(&name, &k) {
            return Some(&entries[i].1);
        }
        i += 1;
    }
    None
}

impl JsonValue {
    /// `value.get(key)`.
    pub fn get(&self, key: &str) -> (r: Option<&JsonValue>)
        ensures
            match r {
                Some(x) => get(*self, key@) == Some(*x),
                None => get(*self, key@) is None,
            },
    {
        match self {
            JsonValue::Object(entries) => member_exec(entries, key),
            _ => None,
        }
    }

    /// `value.as_str()`.
    pub fn as_str(&self) -> (r: Option<&String>)
        ensures
            match r {
                Some(s) => as_str(*self) == Some(s@),
                None => as_str(*self) is None,
            },
    {
        match self {
            JsonValue::Str(s) => Some(s),
            _ => None,
        }
    }

    /// `value.as_array()`.
    pub fn as_array(&self) -> (r: Option<&Vec<JsonValue>>)
        ensures
            match r {
                Some(a) => *self == JsonValue::Array(*a),
                None => !(*self is Array),
            },
    {
        match self {
            JsonValue::Array(a) => Some(a),
            _ => None,
        }
    }

    /// `value.as_object()`, as its members.
    pub fn as_object(&self) -> (r: Option<&Vec<(String, JsonValue)>>)
        ensures
            match r {
                Some(m) => *self == JsonValue::Object(*m),
                None => !(*self is Object),
            },
    {
        match self {
            JsonValue::Object(m) => Some(m),
            _ => None,
        }
    }

    /// `value.get(key).and_then(as_str)`.
    pub fn get_str(&self, key: &str) -> (r: Option<&String>)
        ensures
            match r {
                Some(s) => get_str(*self, key@) == Some(s@),
                None => get_str(*self, key@) is None,
            },
    {
        match self.get(key) {
            Some(x) => x.as_str(),
            None => None,
        }
    }

    /// `value.get(key).and_then(as_array)`.
    pub fn get_array(&self, key: &str) -> (r: Option<&Vec<JsonValue>>)
        ensures
            match r {
                Some(a) => get_array(*self, key@) == Some(a@),
                None => get_array(*self, key@) is None,
            },
    {
        match self.get(key) {
            Some(x) => x.as_array(),
            None => None,
        }
    }
}


/// The strings among `items`, in order (`filter_map(as_str)`).
pub open spec fn strings(items: Seq<JsonValue>) -> Seq<Seq<char>>
    decreases items.len(),
{
    if items.len() == 0 {
        Seq::empty()
    } else {
        let rest = strings(items.drop_last());
        match items.last() {
            JsonValue::Str(s) => rest.push(s@),
            _ => rest,
        }
    }
}

/// The strings among `items`, in order.
pub fn collect_strings(items: &Vec<JsonValue>) -> (r: Vec<Vec<char>>)
    ensures
        text::views(r@) == strings(items@),
{
    let mut r: Vec<Vec<char>> = Vec::new();
    let mut i: usize = 0;
    assert(items@.take(0) =~= Seq::<JsonValue>::empty());
    while i < items.len()
        invariant
            i <= items.len(),
            text::views(r@) == strings(items@.take(i as int)),
        decreases items.len() - i,
    {
        assert(items@.take(i + 1).drop_last() =~= items@.take(i as int));
        match &items[i] {
            JsonValue::Str(s) => {
                let ghost before = text::views(r@);
                r.push(text::to_chars(s.as_str()));
                assert(text::views(r@) =~= before.push(s@));
            },
            _ => {},
        }
        i += 1;
    }
    assert(items@.take(items.len() as int) =~= items@);
    r
}
} // verus!
