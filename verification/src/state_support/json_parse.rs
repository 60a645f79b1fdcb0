//! What `serde_json` reads in a text.

use vstd::prelude::*;
use crate::state_support::json_ref::Node;
use crate::state_support::json_serde::{at, given, json, map_json, to_serde, value_json, Json};

verus! {

/// What a text means to `serde_json`, where it is JSON.
pub uninterp spec fn parsed_json(text: Seq<char>) -> Option<Json>;

/// `serde_json::from_str` into a `serde_json::Value`: whether a text is JSON,
/// and what it means, depends on the text alone.
#[verifier::external_body]
fn value_from_text(text: &str) -> (r: Option<serde_json::Value>)
    ensures
        parsed_json(text@) == (match r {
            Some(v) => Some(value_json(v)),
            None => None,
        }),
{
    serde_json::from_str::<serde_json::Value>(text).ok()
}

/// `==` of `serde_json::Value`: two values are equal where they mean the same.
/// Integers and floats are told apart, floats by their own `==`; the order of
/// the entries of an object does not count.
#[verifier::external_body]
fn values_equal(a: &serde_json::Value, b: &serde_json::Value) -> (r: bool)
    ensures
        r == (value_json(*a) == value_json(*b)),
{
    a == b
}

/// `serde_json::Value::get` with a text gives the value of a key of an object,
/// where it has one; any other value has no keys.
#[verifier::external_body]
pub(crate) fn value_get<'a>(v: &'a serde_json::Value, k: &str) -> (r: Option<&'a serde_json::Value>)
    ensures
        match r {
            Some(x) => given(value_json(*v), k@) && value_json(*x) == at(value_json(*v), k@),
            None => !given(value_json(*v), k@),
        },
{
    v.get(k)
}

/// `serde_json::Value::as_str` gives the text of a value that is one.
#[verifier::external_body]
pub(crate) fn value_as_str(v: &serde_json::Value) -> (r: Option<&str>)
    ensures
        match r {
            Some(s) => value_json(*v) == Json::Str(s@),
            None => !(value_json(*v) is Str),
        },
{
    v.as_str()
}

/// `serde_json::Value::as_array` gives the values of an array, in order.
#[verifier::external_body]
pub(crate) fn value_as_array(v: &serde_json::Value) -> (r: Option<&Vec<serde_json::Value>>)
    ensures
        match r {
            Some(items) => value_json(*v) == Json::Array(Seq::new(items@.len(), |i: int| value_json(items@[i]))),
            None => !(value_json(*v) is Array),
        },
{
    v.as_array()
}

/// `serde_json::Value::as_object` gives the map of an object.
#[verifier::external_body]
pub(crate) fn value_as_object(v: &serde_json::Value) -> (r: Option<&serde_json::Map<String, serde_json::Value>>)
    ensures
        match r {
            Some(m) => value_json(*v) == Json::Object(map_json(*m)),
            None => !(value_json(*v) is Object),
        },
{
    v.as_object()
}

/// `serde_json::Map::iter` visits every entry of a map once. In which order,
/// is left open.
#[verifier::external_body]
pub(crate) fn map_entries(m: &serde_json::Map<String, serde_json::Value>) -> (r: Vec<(&String, &serde_json::Value)>)
    ensures
        forall|i: int|
            0 <= i < r@.len() ==> map_json(*m).contains_key((#[trigger] r@[i]).0@) && map_json(*m)[r@[i].0@]
                == value_json(*r@[i].1),
        forall|i: int, j: int| 0 <= i < j < r@.len() ==> (#[trigger] r@[i]).0@ != (#[trigger] r@[j]).0@,
        forall|k: Seq<char>| #[trigger]
            map_json(*m).contains_key(k) ==> exists|i: int| 0 <= i < r@.len() && (#[trigger] r@[i]).0@ == k,
{
    m.iter().collect()
}

/// A map has as many entries as there are distinct keys that cover it.
pub proof fn lemma_entries(m: Map<Seq<char>, Json>, keys: Seq<Seq<char>>)
    requires
        keys.no_duplicates(),
        forall|k: Seq<char>| #[trigger] m.contains_key(k) <==> keys.contains(k),
    ensures
        m.dom().finite(),
        m.len() == keys.len(),
{
    vstd::seq_lib::seq_to_set_is_finite(keys);
    assert(m.dom() =~= keys.to_set());
    keys.unique_seq_to_set();
}

/// The keys of a walk over the entries of a map.
pub open spec fn entry_keys(entries: Seq<(&String, &serde_json::Value)>) -> Seq<Seq<char>> {
    Seq::new(entries.len(), |i: int| entries[i].0@)
}

/// The entries of an object, in some order; nothing of any other value.
pub fn entries_of(value: &serde_json::Value) -> (r: Option<Vec<(&String, &serde_json::Value)>>)
    ensures
        match r {
            Some(v) => {
                &&& value_json(*value) matches Json::Object(m)
                &&& m.dom().finite()
                &&& m.len() == v@.len()
                &&& forall|i: int|
                    0 <= i < v@.len() ==> m.contains_key((#[trigger] v@[i]).0@) && m[v@[i].0@] == value_json(*v@[i].1)
                &&& forall|k: Seq<char>| #[trigger]
                    m.contains_key(k) ==> exists|i: int| 0 <= i < v@.len() && (#[trigger] v@[i]).0@ == k
            },
            None => !(value_json(*value) is Object),
        },
{
    match value_as_object(value) {
        Some(map) => {
            let v = map_entries(map);
            proof {
                let m = map_json(*map);
                let keys = entry_keys(v@);
                assert forall|k: Seq<char>| #[trigger] m.contains_key(k) <==> keys.contains(k) by {
                    if m.contains_key(k) {
                        let i = choose|i: int| 0 <= i < v@.len() && (#[trigger] v@[i]).0@ == k;
                        assert(keys[i] == k);
                    }
                    if keys.contains(k) {
                        let i = choose|i: int| 0 <= i < keys.len() && keys[i] == k;
                        assert(v@[i].0@ == k);
                    }
                }
                assert forall|i: int, j: int| 0 <= i < keys.len() && 0 <= j < keys.len() && i != j implies keys[i]
                    != keys[j] by {
                    if i < j {
                        assert(v@[i].0@ != v@[j].0@);
                    } else {
                        assert(v@[j].0@ != v@[i].0@);
                    }
                }
                lemma_entries(m, keys);
            }
            Some(v)
        },
        None => None,
    }
}

/// Whether a value means what a tree means.
pub fn value_is(value: &serde_json::Value, want: &Node) -> (r: bool)
    ensures
        r == (value_json(*value) == json(*want)),
{
    values_equal(value, &to_serde(want))
}

/// Whether the values of two keys mean the same, where `null` stands for no
/// value.
pub fn same_or_null(a: Option<&serde_json::Value>, b: Option<&serde_json::Value>) -> (r: bool)
    ensures
        r == (meant(a) == meant(b)),
{
    match (a, b) {
        (Some(x), Some(y)) => values_equal(x, y),
        (Some(x), None) => value_is(x, &Node::Null),
        (None, Some(y)) => value_is(y, &Node::Null),
        (None, None) => true,
    }
}

/// What a value means, where `null` stands for none.
pub open spec fn meant(v: Option<&serde_json::Value>) -> Json {
    match v {
        Some(x) => value_json(*x),
        None => Json::Null,
    }
}

/// What `serde_json` reads a text as, where that is an object.
pub fn parse(text: &str) -> (r: Option<serde_json::Value>)
    ensures
        match r {
            Some(v) => parsed_json(text@) == Some(value_json(v)) && value_json(v) is Object,
            None => !(parsed_json(text@) matches Some(j) && j is Object),
        },
{
    match value_from_text(text) {
        Some(v) => if value_as_object(&v).is_some() {
            Some(v)
        } else {
            None
        },
        None => None,
    }
}

/// Whether the text of a tree is read back to what the tree means.
pub fn check_parsed(tree: &Node, text: &str) -> (r: bool)
    ensures
        r == (parsed_json(text@) == Some(json(*tree))),
{
    match value_from_text(text) {
        Some(v) => value_is(&v, tree),
        None => false,
    }
}

} // verus!
