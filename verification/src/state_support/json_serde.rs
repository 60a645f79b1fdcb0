//! A tree as a value of `serde_json`.

use vstd::prelude::*;
use crate::state_support::json_ref::Node;
use crate::text::chars_of;
use crate::text::string_from_chars;

verus! {

/// What a JSON text means: objects are maps, numbers integers.
pub ghost enum Json {
    /// `null`
    Null,
    /// `true`/`false`
    Bool(bool),
    /// An integer.
    Number(int),
    /// A number that is no integer of 64 bits; equal ones have one mark.
    Real(int),
    /// A string.
    Str(Seq<char>),
    /// An array.
    Array(Seq<Json>),
    /// An object.
    Object(Map<Seq<char>, Json>),
}

/// The meaning of the first `n` items.
pub open spec fn items_json(v: Seq<Node>, n: nat) -> Seq<Json>
    decreases v, n,
{
    if n == 0 || n > v.len() {
        Seq::empty()
    } else {
        items_json(v, (n - 1) as nat).push(json(v[n - 1]))
    }
}

/// No entries.
pub open spec fn no_entries() -> Map<Seq<char>, Json> {
    Map::empty()
}

/// The meaning of the first `n` fields: of fields with one key the last counts.
pub open spec fn fields_json(v: Seq<(String, Node)>, n: nat) -> Map<Seq<char>, Json>
    decreases v, n,
{
    if n == 0 || n > v.len() {
        no_entries()
    } else {
        fields_json(v, (n - 1) as nat).insert(v[n - 1].0@, json(v[n - 1].1))
    }
}

/// The meaning of a tree.
pub open spec fn json(n: Node) -> Json
    decreases n, 0nat,
{
    match n {
        Node::Null => Json::Null,
        Node::Bool(b) => Json::Bool(b),
        Node::UInt(u) => Json::Number(u as int),
        Node::Int(i) => Json::Number(i as int),
        Node::Str(s) => Json::Str(s@),
        Node::Array(v) => Json::Array(items_json(v@, v@.len())),
        Node::Object(v) => Json::Object(fields_json(v@, v@.len())),
    }
}

/// What the items mean, one by one.
pub proof fn lemma_items(v: Seq<Node>, n: nat)
    requires
        n <= v.len(),
    ensures
        items_json(v, n).len() == n,
        forall|i: int| 0 <= i < n ==> #[trigger] items_json(v, n)[i] == json(v[i]),
    decreases n,
{
    if n > 0 {
        lemma_items(v, (n - 1) as nat);
    }
}

/// The value of a key: `null` where there is none.
pub open spec fn at(j: Json, k: Seq<char>) -> Json {
    match j {
        Json::Object(m) => if m.contains_key(k) {
            m[k]
        } else {
            Json::Null
        },
        _ => Json::Null,
    }
}

/// The value of a key is given.
pub open spec fn given(j: Json, k: Seq<char>) -> bool {
    j matches Json::Object(m) && m.contains_key(k)
}

/// `serde_json::Value`.
#[verifier::external_type_specification]
#[verifier::external_body]
pub struct ExValue(serde_json::Value);

/// `serde_json::Map`.
#[verifier::external_type_specification]
#[verifier::external_body]
#[verifier::reject_recursive_types(K)]
#[verifier::reject_recursive_types(V)]
pub struct ExMap<K, V>(serde_json::Map<K, V>);

/// The meaning of a `serde_json::Value`.
pub uninterp spec fn value_json(v: serde_json::Value) -> Json;

/// The entries of a `serde_json::Map`.
pub uninterp spec fn map_json(m: serde_json::Map<String, serde_json::Value>) -> Map<Seq<char>, Json>;

/// `serde_json::Value::Null` means `null`.
#[verifier::external_body]
fn null_value() -> (r: serde_json::Value)
    ensures
        value_json(r) == Json::Null,
{
    serde_json::Value::Null
}

/// `serde_json::Value::Bool` means the Boolean that it holds.
#[verifier::external_body]
fn bool_value(b: bool) -> (r: serde_json::Value)
    ensures
        value_json(r) == Json::Bool(b),
{
    serde_json::Value::Bool(b)
}

/// `serde_json::Value::from` takes an unsigned integer as the number it is.
#[verifier::external_body]
fn unsigned_value(n: u64) -> (r: serde_json::Value)
    ensures
        value_json(r) == Json::Number(n as int),
{
    serde_json::Value::from(n)
}

/// `serde_json::Value::from` takes a signed integer as the number it is: one
/// that is not negative like the unsigned integer.
#[verifier::external_body]
fn signed_value(n: i64) -> (r: serde_json::Value)
    ensures
        value_json(r) == Json::Number(n as int),
{
    serde_json::Value::from(n)
}

/// `serde_json::Value::String` means the text that it holds.
#[verifier::external_body]
fn string_value(s: String) -> (r: serde_json::Value)
    ensures
        value_json(r) == Json::Str(s@),
{
    serde_json::Value::String(s)
}

/// `serde_json::Value::Array` means the values that it holds, in order.
#[verifier::external_body]
fn array_value(items: Vec<serde_json::Value>) -> (r: serde_json::Value)
    ensures
        value_json(r) == Json::Array(Seq::new(items@.len(), |i: int| value_json(items@[i]))),
{
    serde_json::Value::Array(items)
}

/// `serde_json::Value::Object` means the entries that it holds.
#[verifier::external_body]
fn object_value(fields: serde_json::Map<String, serde_json::Value>) -> (r: serde_json::Value)
    ensures
        value_json(r) == Json::Object(map_json(fields)),
{
    serde_json::Value::Object(fields)
}

/// `serde_json::Map::new` makes a map without entries.
#[verifier::external_body]
fn new_map() -> (r: serde_json::Map<String, serde_json::Value>)
    ensures
        map_json(r) == no_entries(),
{
    serde_json::Map::new()
}

/// `serde_json::Map::insert` sets the entry of a key, also where it had one.
#[verifier::external_body]
fn insert_entry(m: &mut serde_json::Map<String, serde_json::Value>, k: String, v: serde_json::Value)
    ensures
        map_json(*final(m)) == map_json(*old(m)).insert(k@, value_json(v)),
{
    m.insert(k, v);
}

/// A tree as a value of `serde_json`: of fields with one key the last counts.
pub fn to_serde(node: &Node) -> (r: serde_json::Value)
    ensures
        value_json(r) == json(*node),
    decreases node,
{
    match node {
        Node::Null => null_value(),
        Node::Bool(b) => bool_value(*b),
        Node::UInt(n) => unsigned_value(*n),
        Node::Int(n) => signed_value(*n),
        Node::Str(s) => string_value(string_from_chars(chars_of(s.as_str()))),
        Node::Array(items) => {
            let mut out: Vec<serde_json::Value> = Vec::new();
            let mut i: usize = 0;
            while i < items.len()
                invariant
                    i <= items@.len(),
                    *node == Node::Array(*items),
                    out@.len() == i,
                    items_json(items@, i as nat).len() == i,
                    forall|k: int| 0 <= k < i ==> value_json(#[trigger] out@[k]) == items_json(items@, i as nat)[k],
                decreases items@.len() - i,
            {
                proof {
                    assert(decreases_to!(*node => node->Array_0));
                    assert(decreases_to!(*items => items@));
                    assert(decreases_to!(items@ => items@[i as int]));
                }
                out.push(to_serde(&items[i]));
                i = i + 1;
            }
            proof {
                assert(Seq::new(out@.len(), |k: int| value_json(out@[k])) =~= items_json(items@, items@.len()));
            }
            array_value(out)
        },
        Node::Object(fields) => {
            let mut map = new_map();
            let mut i: usize = 0;
            while i < fields.len()
                invariant
                    i <= fields@.len(),
                    *node == Node::Object(*fields),
                    map_json(map) == fields_json(fields@, i as nat),
                decreases fields@.len() - i,
            {
                proof {
                    assert(decreases_to!(*node => node->Object_0));
                    assert(decreases_to!(*fields => fields@));
                    assert(decreases_to!(fields@ => fields@[i as int]));
                    assert(decreases_to!(fields@[i as int] => fields@[i as int].1));
                }
                let f = &fields[i];
                let v = to_serde(&f.1);
                insert_entry(&mut map, string_from_chars(chars_of(f.0.as_str())), v);
                i = i + 1;
            }
            object_value(map)
        },
    }
}

} // verus!
