//! JSON values as plain data, and the parser that produces them.

use crate::text::str_eq;
use vstd::prelude::*;

verus! {

/// A JSON number: its value as a signed 64-bit integer, where it is one, and
/// the text that writes it.
#[derive(Clone, Debug, PartialEq)]
pub struct JsonNumber {
    /// The number as an `i64`, where it is an integer in that range.
    pub integer: Option<i64>,
    /// The number as JSON text.
    pub text: String,
}

/// A JSON value. An object keeps its members as a list of pairs; a lookup
/// finds the first member with the key.
#[derive(Debug, PartialEq)]
pub enum JsonValue {
    Null,
    Bool(bool),
    Number(JsonNumber),
    String(String),
    Array(Vec<JsonValue>),
    Object(Vec<(String, JsonValue)>),
}

#[verifier::external_type_specification]
#[verifier::external_body]
pub struct ExOutsideValue(serde_json::Value);

/// What `serde_json::from_str` makes of a text at the type
/// `serde_json::Value`: the value it parses to, or nothing where the text is
/// not JSON.
pub uninterp spec fn json_parsed(text: Seq<char>) -> Option<serde_json::Value>;

/// A `serde_json::Value` as a [`JsonValue`]: the same variant with the same
/// contents. A number keeps what `Number::as_i64` and its `Display` give; an
/// object's members come in the order in which its map hands them out.
pub uninterp spec fn json_copied(v: serde_json::Value) -> JsonValue;

/// Wraps `serde_json::from_str` at the type `serde_json::Value`: the parsed
/// value, or `None` where the parser reports an error.
#[verifier::external_body]
pub(crate) fn parse_json(text: &str) -> (r: Option<serde_json::Value>)
    ensures
        r == json_parsed(text@),
{
    serde_json::from_str::<serde_json::Value>(text).ok()
}

/// Copies a `serde_json::Value` into a [`JsonValue`], variant by variant,
/// with `Number::as_i64` and the number's `Display` for a number.
#[verifier::external_body]
pub(crate) fn copy_json(v: serde_json::Value) -> (r: JsonValue)
    ensures
        r == json_copied(v),
{
    match v {
        serde_json::Value::Null => JsonValue::Null,
        serde_json::Value::Bool(b) => JsonValue::Bool(b),
        serde_json::Value::Number(n) => JsonValue::Number(
            JsonNumber { integer: n.as_i64(), text: n.to_string() },
        ),
        serde_json::Value::String(s) => JsonValue::String(s),
        serde_json::Value::Array(a) => JsonValue::Array(a.into_iter().map(copy_json).collect()),
        serde_json::Value::Object(m) => JsonValue::Object(
            m.into_iter().map(|(k, v)| (k, copy_json(v))).collect(),
        ),
    }
}

/// The value of the first member with the key `key`.
pub open spec fn member(m: Seq<(String, JsonValue)>, key: Seq<char>) -> Option<JsonValue>
    decreases m.len(),
{
    if m.len() == 0 {
        None
    } else if m[0].0@ == key {
        Some(m[0].1)
    } else {
        member(m.drop_first(), key)
    }
}

/// The position of the first member with the key `key`.
pub open spec fn member_index(m: Seq<(String, JsonValue)>, key: Seq<char>) -> Option<int>
    decreases m.len(),
{
    if m.len() == 0 {
        None
    } else if m[0].0@ == key {
        Some(0)
    } else {
        match member_index(m.drop_first(), key) {
            Some(i) => Some(i + 1),
            None => None,
        }
    }
}

/// The first member with a key is the one at the first position with it.
pub proof fn lemma_member_index(m: Seq<(String, JsonValue)>, key: Seq<char>)
    ensures
        match member_index(m, key) {
            Some(i) => {
                &&& 0 <= i < m.len()
                &&& m[i].0@ == key
                &&& member(m, key) == Some(m[i].1)
                &&& forall|j: int| 0 <= j < i ==> (#[trigger] m[j]).0@ != key
            },
            None => {
                &&& member(m, key) is None
                &&& forall|j: int| 0 <= j < m.len() ==> (#[trigger] m[j]).0@ != key
            },
        },
    decreases m.len(),
{
    if m.len() > 0 && m[0].0@ != key {
        let rest = m.drop_first();
        lemma_member_index(rest, key);
        match member_index(rest, key) {
            Some(i) => {
                assert forall|j: int| 0 <= j < i + 1 implies (#[trigger] m[j]).0@ != key by {
                    if j > 0 {
                        assert(rest[j - 1] == m[j]);
                    }
                }
            },
            None => {
                assert forall|j: int| 0 <= j < m.len() implies (#[trigger] m[j]).0@ != key by {
                    if j > 0 {
                        assert(rest[j - 1] == m[j]);
                    }
                }
            },
        }
    }
}

/// Finds the position of the first member with the key `key`.
pub fn find_member(m: &Vec<(String, JsonValue)>, key: &str) -> (r: Option<usize>)
    ensures
        match r {
            Some(i) => member_index(m@, key@) == Some(i as int),
            None => member_index(m@, key@) is None,
        },
{
    let mut i: usize = 0;
    while i < m.len()
        invariant
            i <= m@.len(),
            forall|j: int| 0 <= j < i ==> (#[trigger] m@[j]).0@ != key@,
        decreases m@.len() - i,
    {
        if str_eq(m[i].0.as_str(), key) {
            proof {
                lemma_member_index(m@, key@);
            }
            return Some(i);
        }
        i += 1;
    }
    proof {
        lemma_member_index(m@, key@);
    }
    None
}

/// Whether two values hold the same: the same variant, with equal numbers
/// and texts, and with elements and members that hold the same, one by one.
pub open spec fn same_json(a: JsonValue, b: JsonValue) -> bool
    decreases a,
{
    match (a, b) {
        (JsonValue::Null, JsonValue::Null) => true,
        (JsonValue::Bool(x), JsonValue::Bool(y)) => x == y,
        (JsonValue::Number(m), JsonValue::Number(n)) => m.integer == n.integer && m.text@
            == n.text@,
        (JsonValue::String(s), JsonValue::String(t)) => s@ == t@,
        (JsonValue::Array(x), JsonValue::Array(y)) => {
            &&& x@.len() == y@.len()
            &&& forall|i: int| 0 <= i < x@.len() ==> same_json(#[trigger] x@[i], y@[i])
        },
        (JsonValue::Object(m), JsonValue::Object(n)) => {
            &&& m@.len() == n@.len()
            &&& forall|i: int|
                0 <= i < m@.len() ==> (#[trigger] m@[i]).0@ == n@[i].0@ && same_json(
                    m@[i].1,
                    n@[i].1,
                )
        },
        _ => false,
    }
}

impl Clone for JsonValue {
    fn clone(&self) -> (r: Self)
        ensures
            same_json(*self, r),
    {
        self.duplicate()
    }
}

impl JsonValue {
    /// A copy of the value, with copies of all that it holds.
    pub fn duplicate(&self) -> (r: Self)
        ensures
            same_json(*self, r),
        decreases *self,
    {
        match self {
            JsonValue::Null => JsonValue::Null,
            JsonValue::Bool(b) => JsonValue::Bool(*b),
            JsonValue::Number(n) => JsonValue::Number(
                JsonNumber { integer: n.integer, text: n.text.clone() },
            ),
            JsonValue::String(s) => JsonValue::String(s.clone()),
            JsonValue::Array(a) => {
                let mut out: Vec<JsonValue> = Vec::new();
                let mut i: usize = 0;
                while i < a.len()
                    invariant
                        decreases_to!(*self => *a),
                        i <= a@.len(),
                        out@.len() == i,
                        forall|j: int| 0 <= j < i ==> same_json(#[trigger] a@[j], out@[j]),
                    decreases a@.len() - i,
                {
                    proof {
                        vstd::std_specs::vec::axiom_vec_index_decreases(*a, i as int);
                    }
                    let item = a[i].duplicate();
                    out.push(item);
                    i += 1;
                }
                JsonValue::Array(out)
            },
            JsonValue::Object(m) => {
                let mut out: Vec<(String, JsonValue)> = Vec::new();
                let mut i: usize = 0;
                while i < m.len()
                    invariant
                        decreases_to!(*self => *m),
                        i <= m@.len(),
                        out@.len() == i,
                        forall|j: int|
                            0 <= j < i ==> (#[trigger] m@[j]).0@ == out@[j].0@ && same_json(
                                m@[j].1,
                                out@[j].1,
                            ),
                    decreases m@.len() - i,
                {
                    proof {
                        vstd::std_specs::vec::axiom_vec_index_decreases(*m, i as int);
                        assert(decreases_to!(m@[i as int] => m@[i as int].1));
                    }
                    let key = m[i].0.clone();
                    let item = m[i].1.duplicate();
                    out.push((key, item));
                    i += 1;
                }
                JsonValue::Object(out)
            },
        }
    }

    /// What `get` finds: the first member with the key, where the value is an
    /// object.
    pub open spec fn lookup(self, key: Seq<char>) -> Option<JsonValue> {
        match self {
            JsonValue::Object(m) => member(m@, key),
            _ => None,
        }
    }

    /// The value under `key`, where this is an object that has the key.
    pub fn get(&self, key: &str) -> (r: Option<&JsonValue>)
        ensures
            match r {
                Some(v) => self.lookup(key@) == Some(*v),
                None => self.lookup(key@) is None,
            },
    {
        match self {
            JsonValue::Object(m) => {
                proof {
                    lemma_member_index(m@, key@);
                }
                match find_member(m, key) {
                    Some(i) => Some(&m[i].1),
                    None => None,
                }
            },
            _ => None,
        }
    }

    /// Whether this is an object.
    pub fn is_object(&self) -> (r: bool)
        ensures
            r == (self is Object),
    {
        match self {
            JsonValue::Object(_) => true,
            _ => false,
        }
    }

    /// The string, where this is one.
    pub fn as_str(&self) -> (r: Option<&str>)
        ensures
            match r {
                Some(s) => self is String && s@ == self->String_0@,
                None => !(self is String),
            },
    {
        match self {
            JsonValue::String(s) => Some(s.as_str()),
            _ => None,
        }
    }

    /// The number as an `i64`, where this is an integer in that range.
    pub fn as_i64(&self) -> (r: Option<i64>)
        ensures
            r == (match *self {
                JsonValue::Number(n) => n.integer,
                _ => None,
            }),
    {
        match self {
            JsonValue::Number(n) => n.integer,
            _ => None,
        }
    }

    /// The elements, where this is an array.
    pub fn as_array(&self) -> (r: Option<&Vec<JsonValue>>)
        ensures
            match r {
                Some(a) => self is Array && *a == self->Array_0,
                None => !(self is Array),
            },
    {
        match self {
            JsonValue::Array(a) => Some(a),
            _ => None,
        }
    }
}

} // verus!
