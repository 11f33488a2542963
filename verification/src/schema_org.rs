//! Schema.org items from JSON-LD: a payload in any of its top-level shapes
//! becomes a flat list of typed items.

use crate::json::{
    copy_json, find_member, json_copied, json_parsed, lemma_member_index, member, parse_json,
    JsonValue,
};
use vstd::prelude::*;

verus! {

/// One Schema.org item: its type and the whole JSON object that states it.
#[derive(Clone, Debug)]
pub struct SchemaOrg {
    /// The `@type` of the item, such as `Article` or `Product`.
    pub schema_type: String,
    /// The JSON object of the item, with all its properties.
    pub value: JsonValue,
}

/// What a [`SchemaOrg`] holds.
pub struct SchemaOrgView {
    pub schema_type: Seq<char>,
    pub value: JsonValue,
}

impl View for SchemaOrg {
    type V = SchemaOrgView;

    open spec fn view(&self) -> SchemaOrgView {
        SchemaOrgView { schema_type: self.schema_type@, value: self.value }
    }
}

/// The views of a list of items.
pub open spec fn schema_views(items: Seq<SchemaOrg>) -> Seq<SchemaOrgView> {
    items.map_values(|s: SchemaOrg| s@)
}

/// The values that a payload offers as items: the elements of a top-level
/// array; the elements of the `@graph` array of a top-level object; else a
/// top-level object itself; nothing for any other value.
pub open spec fn candidates(node: JsonValue) -> Seq<JsonValue> {
    match node {
        JsonValue::Array(a) => a@,
        JsonValue::Object(m) => match member(m@, "@graph"@) {
            Some(JsonValue::Array(g)) => g@,
            _ => seq![node],
        },
        _ => seq![],
    }
}

/// The type that a candidate states: its `@type` where that is a string, the
/// first element of its `@type` where that is an array that begins with a
/// string. A value that is no object states none.
pub open spec fn stated_type(v: JsonValue) -> Option<Seq<char>> {
    match v {
        JsonValue::Object(m) => match member(m@, "@type"@) {
            Some(JsonValue::String(s)) => Some(s@),
            Some(JsonValue::Array(a)) => if a@.len() > 0 {
                match a@[0] {
                    JsonValue::String(s) => Some(s@),
                    _ => None,
                }
            } else {
                None
            },
            _ => None,
        },
        _ => None,
    }
}

/// The items among a list of candidates, in the candidates' order: each
/// candidate that states a type, with that type.
pub open spec fn flattened(cands: Seq<JsonValue>) -> Seq<SchemaOrgView>
    decreases cands.len(),
{
    if cands.len() == 0 {
        seq![]
    } else {
        let rest = flattened(cands.drop_last());
        match stated_type(cands.last()) {
            Some(t) => rest.push(SchemaOrgView { schema_type: t, value: cands.last() }),
            None => rest,
        }
    }
}

/// The items of a JSON-LD text: those of the value it parses to, none where
/// it is not JSON.
pub open spec fn items_of_text(text: Seq<char>) -> Seq<SchemaOrgView> {
    match json_parsed(text) {
        Some(node) => flattened(candidates(json_copied(node))),
        None => seq![],
    }
}

/// Every item comes from a candidate: an item's value is a JSON object, and
/// its type is the one that this object states.
pub proof fn lemma_items_are_typed_objects(cands: Seq<JsonValue>, i: int)
    requires
        0 <= i < flattened(cands).len(),
    ensures
        flattened(cands)[i].value is Object,
        stated_type(flattened(cands)[i].value) == Some(flattened(cands)[i].schema_type),
        cands.contains(flattened(cands)[i].value),
    decreases cands.len(),
{
    if cands.len() > 0 {
        let rest = flattened(cands.drop_last());
        if i < rest.len() {
            lemma_items_are_typed_objects(cands.drop_last(), i);
            let v = rest[i].value;
            let j = choose|j: int| 0 <= j < cands.drop_last().len() && cands.drop_last()[j] == v;
            assert(cands[j] == v);
        } else {
            assert(cands[cands.len() - 1] == cands.last());
        }
    }
}

/// Where no candidate states the empty string as its type, every item's type
/// is a non-empty string.
pub proof fn lemma_item_types_nonempty(cands: Seq<JsonValue>, i: int)
    requires
        0 <= i < flattened(cands).len(),
        forall|j: int|
            0 <= j < cands.len() ==> stated_type(#[trigger] cands[j]) != Some(Seq::<char>::empty()),
    ensures
        flattened(cands)[i].schema_type.len() > 0,
{
    lemma_items_are_typed_objects(cands, i);
    let v = flattened(cands)[i].value;
    let j = choose|j: int| 0 <= j < cands.len() && cands[j] == v;
    assert(stated_type(cands[j]) != Some(Seq::<char>::empty()));
    if flattened(cands)[i].schema_type.len() == 0 {
        assert(flattened(cands)[i].schema_type =~= Seq::<char>::empty());
    }
}

/// The type that a candidate states, if any.
pub fn stated_type_of(v: &JsonValue) -> (r: Option<String>)
    ensures
        crate::text::opt_view(r) == stated_type(*v),
{
    match v {
        JsonValue::Object(m) => {
            proof {
                lemma_member_index(m@, "@type"@);
            }
            match find_member(m, "@type") {
                Some(i) => match &m[i].1 {
                    JsonValue::String(s) => Some(s.clone()),
                    JsonValue::Array(a) => {
                        if a.len() > 0 {
                            match &a[0] {
                                JsonValue::String(s) => Some(s.clone()),
                                _ => None,
                            }
                        } else {
                            None
                        }
                    },
                    _ => None,
                },
                None => None,
            }
        },
        _ => None,
    }
}

impl SchemaOrg {
    /// Parses a JSON-LD text into its items. A text that is not JSON has
    /// none.
    pub fn parse(content: &str) -> (r: Vec<SchemaOrg>)
        ensures
            schema_views(r@) == items_of_text(content@),
    {
        match parse_json(content) {
            Some(node) => Self::extract_from_value(copy_json(node)),
            None => {
                let r: Vec<SchemaOrg> = Vec::new();
                assert(schema_views(r@) =~= seq![]);
                r
            },
        }
    }

    /// The candidates of a payload, moved out of it.
    fn take_candidates(node: JsonValue) -> (r: Vec<JsonValue>)
        ensures
            r@ == candidates(node),
    {
        match node {
            JsonValue::Array(a) => a,
            JsonValue::Object(m) => {
                proof {
                    lemma_member_index(m@, "@graph"@);
                }
                let graph_at = match find_member(&m, "@graph") {
                    Some(i) => match &m[i].1 {
                        JsonValue::Array(_) => Some(i),
                        _ => None,
                    },
                    None => None,
                };
                match graph_at {
                    Some(i) => {
                        let mut members = m;
                        let (_, graph) = members.swap_remove(i);
                        match graph {
                            JsonValue::Array(g) => g,
                            _ => Vec::new(),
                        }
                    },
                    None => {
                        let mut r: Vec<JsonValue> = Vec::new();
                        r.push(JsonValue::Object(m));
                        assert(r@ =~= seq![node]);
                        r
                    },
                }
            },
            _ => Vec::new(),
        }
    }

    /// The items of a parsed JSON-LD payload.
    pub fn extract_from_value(node: JsonValue) -> (r: Vec<SchemaOrg>)
        ensures
            schema_views(r@) == flattened(candidates(node)),
    {
        let values = Self::take_candidates(node);
        let ghost all = values@;
        let mut out: Vec<SchemaOrg> = Vec::new();
        assert(schema_views(out@) =~= flattened(all.subrange(0, 0)));
        for v in it: values
            invariant
                it.seq() == all,
                schema_views(out@) == flattened(all.subrange(0, it.index() as int)),
        {
            let ghost k = it.index() as int;
            assert(all.subrange(0, k + 1).drop_last() =~= all.subrange(0, k));
            assert(all.subrange(0, k + 1).last() == v);
            match stated_type_of(&v) {
                Some(schema_type) => {
                    out.push(SchemaOrg { schema_type, value: v });
                    assert(schema_views(out@) =~= flattened(all.subrange(0, k + 1)));
                },
                None => {},
            }
        }
        assert(all.subrange(0, all.len() as int) =~= all);
        out
    }

    /// The string under `key`, where the item has one there.
    pub fn get_str(&self, key: &str) -> (r: Option<&str>)
        ensures
            match r {
                Some(s) => self.value.lookup(key@) matches Some(JsonValue::String(t)) && s@ == t@,
                None => !(self.value.lookup(key@) matches Some(JsonValue::String(_))),
            },
    {
        match self.value.get(key) {
            Some(v) => v.as_str(),
            None => None,
        }
    }

    /// The integer under `key`, where the item has a number there that is an
    /// integer within `i64`.
    pub fn get_i64(&self, key: &str) -> (r: Option<i64>)
        ensures
            r == (match self.value.lookup(key@) {
                Some(JsonValue::Number(n)) => n.integer,
                _ => None,
            }),
    {
        match self.value.get(key) {
            Some(v) => v.as_i64(),
            None => None,
        }
    }

    /// The object under `key`, where the item has one there.
    pub fn get_object(&self, key: &str) -> (r: Option<&JsonValue>)
        ensures
            match r {
                Some(v) => *v is Object && self.value.lookup(key@) == Some(*v),
                None => !(self.value.lookup(key@) matches Some(JsonValue::Object(_))),
            },
    {
        match self.value.get(key) {
            Some(v) => if v.is_object() {
                Some(v)
            } else {
                None
            },
            None => None,
        }
    }

    /// The array under `key`, where the item has one there.
    pub fn get_array(&self, key: &str) -> (r: Option<&Vec<JsonValue>>)
        ensures
            match r {
                Some(a) => self.value.lookup(key@) == Some(JsonValue::Array(*a)),
                None => !(self.value.lookup(key@) matches Some(JsonValue::Array(_))),
            },
    {
        match self.value.get(key) {
            Some(v) => v.as_array(),
            None => None,
        }
    }
}

} // verus!
