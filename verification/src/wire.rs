//! JSON text: reading and writing values with `serde_json`.

use crate::json;
use crate::json::{Json, JsonView};
use crate::table;
use crate::table::Table;
use vstd::prelude::*;

verus! {

broadcast use vstd::string::group_string_axioms;

/// A JSON value of `serde_json`.
#[verifier::external_type_specification]
#[verifier::external_body]
pub struct ExValue(serde_json::Value);

/// An error of `serde_json`.
#[verifier::external_type_specification]
#[verifier::external_body]
pub struct ExJsonError(serde_json::Error);

/// What a value of `serde_json` holds.
pub uninterp spec fn value_tree(v: serde_json::Value) -> JsonView;

/// The value that `serde_json::from_slice` reads in `bytes`; `None` where they
/// are not the text of one JSON value.
pub uninterp spec fn parsed_json(bytes: Seq<u8>) -> Option<JsonView>;

/// The text that `serde_json::to_vec` writes for a value.
pub uninterp spec fn json_bytes(v: JsonView) -> Seq<u8>;

/// The number of levels of arrays and objects, one inside the other, that
/// `serde_json` reads.
pub const MAX_LEVELS: usize = 127;

/// The outermost layer of a value of `serde_json`.
pub enum Node {
    Null,
    Bool(bool),
    Number(serde_json::Number),
    Text(String),
    Array(Vec<serde_json::Value>),
    Object(Vec<(String, serde_json::Value)>),
}

/// The fields of an object with what their values hold.
pub open spec fn node_fields(fields: Seq<(String, serde_json::Value)>) -> Seq<
    (Seq<char>, JsonView),
> {
    fields.map_values(|f: (String, serde_json::Value)| (f.0@, value_tree(f.1)))
}

impl Node {
    /// The value whose outermost layer this is.
    pub open spec fn tree(self) -> JsonView {
        match self {
            Node::Null => JsonView::Null,
            Node::Bool(b) => JsonView::Bool(b),
            Node::Number(n) => JsonView::Number(json::number_value(n)),
            Node::Text(s) => JsonView::Text(s@),
            Node::Array(items) => JsonView::Array(
                items@.map_values(|v: serde_json::Value| value_tree(v)),
            ),
            Node::Object(fields) => JsonView::Object(table::map_of(node_fields(fields@))),
        }
    }

    /// No name occurs twice in an object.
    pub open spec fn names_differ(self) -> bool {
        self matches Node::Object(fields) ==> table::distinct_keys(node_fields(fields@))
    }
}

/// The variant of a `serde_json::Value` with its fields. The names of an
/// object are the keys of a `serde_json::Map`, so none occurs twice.
#[verifier::external_body]
fn open_value(v: serde_json::Value) -> (r: Node)
    ensures
        r.tree() == value_tree(v),
        r.names_differ(),
{
    match v {
        serde_json::Value::Null => Node::Null,
        serde_json::Value::Bool(b) => Node::Bool(b),
        serde_json::Value::Number(n) => Node::Number(n),
        serde_json::Value::String(s) => Node::Text(s),
        serde_json::Value::Array(items) => Node::Array(items),
        serde_json::Value::Object(fields) => Node::Object(fields.into_iter().collect()),
    }
}

/// The `serde_json::Value` of a variant and its fields. The fields of an
/// object are collected into a `serde_json::Map`.
#[verifier::external_body]
fn close_value(node: Node) -> (r: serde_json::Value)
    requires
        node.names_differ(),
    ensures
        value_tree(r) == node.tree(),
{
    match node {
        Node::Null => serde_json::Value::Null,
        Node::Bool(b) => serde_json::Value::Bool(b),
        Node::Number(n) => serde_json::Value::Number(n),
        Node::Text(s) => serde_json::Value::String(s),
        Node::Array(items) => serde_json::Value::Array(items),
        Node::Object(fields) => serde_json::Value::Object(fields.into_iter().collect()),
    }
}

/// `serde_json::from_slice` into a `serde_json::Value`: what it reads depends
/// on the bytes alone.
#[verifier::external_body]
fn read_value(bytes: &[u8]) -> (r: Result<serde_json::Value, serde_json::Error>)
    ensures
        match r {
            Ok(v) => parsed_json(bytes@) == Some(value_tree(v)),
            Err(_) => parsed_json(bytes@) is None,
        },
{
    serde_json::from_slice(bytes)
}

/// What was written for `v` reads as `read`, where that is `None` if it cannot
/// be read. A value without floating-point numbers reads as itself. With them
/// it reads, if at all, as the same value but for those numbers. Neither is
/// said of a value with a field that has the name of raw JSON text, or with
/// more levels than are read.
pub open spec fn reads_back(read: Option<JsonView>, v: JsonView) -> bool {
    &&& json::is_exact(v, MAX_LEVELS as nat) ==> read == Some(v)
    &&& json::is_plain(v, MAX_LEVELS as nat) ==> (read matches Some(t)
        ==> json::same_but_fractions(t, v, MAX_LEVELS as nat))
}

/// `serde_json::to_vec` of a `serde_json::Value`. It writes into memory, and
/// the names in a value are strings, so it does not fail. What it writes
/// depends on what the value holds alone, the fields of an object coming in
/// the order of their names. `serde_json::from_slice` reads it as the same
/// value where that holds no floating-point number, is not nested deeper than
/// the reader goes, and has no field with the name by which the reader, built
/// with the feature `raw_value`, knows raw JSON text. A floating-point number
/// is written with a point or an exponent, and so is read as one; the reader
/// may be off by the last digit, and refuses what it takes to be out of range.
/// Of an object with a raw field nothing is said: where the field comes first,
/// the text in it is read in place of the object.
#[verifier::external_body]
fn write_value(v: &serde_json::Value) -> (r: Result<Vec<u8>, serde_json::Error>)
    ensures
        r is Ok,
        r->Ok_0@ == json_bytes(value_tree(*v)),
        reads_back(parsed_json(r->Ok_0@), value_tree(*v)),
{
    serde_json::to_vec(v)
}

/// The value that a `serde_json::Value` holds.
pub fn from_value(v: serde_json::Value) -> (r: Json)
    ensures
        r.tree() == value_tree(v),
    decreases value_tree(v),
{
    let ghost whole = value_tree(v);
    match open_value(v) {
        Node::Null => Json::Null,
        Node::Bool(b) => Json::Bool(b),
        Node::Number(n) => Json::Number(n),
        Node::Text(s) => Json::Text(s),
        Node::Array(items) => {
            let ghost all = items@;
            let mut out: Vec<Json> = Vec::new();
            for item in it: items
                invariant
                    it.seq() == all,
                    whole == value_tree(v),
                    whole == JsonView::Array(
                        all.map_values(|v: serde_json::Value| value_tree(v)),
                    ),
                    out@.len() == it.index(),
                    forall|j: int|
                        0 <= j < out@.len() ==> (#[trigger] out@[j]).tree() == value_tree(all[j]),
            {
                proof {
                    let seq = whole->Array_0;
                    assert(decreases_to!(whole => seq));
                    assert(decreases_to!(seq => seq[it.index()]));
                    assert(seq[it.index()] == value_tree(item));
                }
                out.push(from_value(item));
            }
            proof {
                json::lemma_array_tree(out);
                assert(out@.map_values(|j: Json| j.tree()) =~= all.map_values(
                    |v: serde_json::Value| value_tree(v),
                ));
            }
            Json::Array(out)
        },
        Node::Object(fields) => {
            let ghost all = node_fields(fields@);
            let ghost given = fields@;
            let mut out: Table<Json> = Table::new();
            proof {
                table::lemma_map_of_none(all);
                assert(json::fields(out) =~= table::map_of(all.take(0)));
            }
            for field in it: fields
                invariant
                    it.seq() == given,
                    whole == value_tree(v),
                    all == node_fields(given),
                    whole == JsonView::Object(table::map_of(all)),
                    table::distinct_keys(all),
                    json::fields(out) == table::map_of(all.take(it.index())),
            {
                let (name, value) = field;
                let ghost i = it.index();
                proof {
                    let map = whole->Object_0;
                    table::lemma_map_of_finite(all);
                    table::lemma_map_of(all, i);
                    table::lemma_map_of_take(all, i);
                    assert(decreases_to!(whole => map));
                    assert(decreases_to!(map => map[name@]));
                    assert(map[name@] == value_tree(value));
                }
                let inner = from_value(value);
                let ghost before = out@;
                out.insert(name, inner);
                proof {
                    json::lemma_trees_insert(before, name@, inner);
                }
            }
            proof {
                json::lemma_object_tree(out);
                table::lemma_map_of_none(all);
            }
            Json::Object(out)
        },
    }
}

/// The `serde_json::Value` that holds a value.
pub fn to_value(j: Json) -> (r: serde_json::Value)
    ensures
        value_tree(r) == j.tree(),
    decreases j,
{
    match j {
        Json::Null => close_value(Node::Null),
        Json::Bool(b) => close_value(Node::Bool(b)),
        Json::Number(n) => close_value(Node::Number(n)),
        Json::Text(s) => close_value(Node::Text(s)),
        Json::Array(items) => {
            let ghost given = items;
            let mut out: Vec<serde_json::Value> = Vec::new();
            for item in it: items
                invariant
                    it.seq() == given@,
                    j == Json::Array(given),
                    out@.len() == it.index(),
                    forall|i: int|
                        0 <= i < out@.len() ==> value_tree(#[trigger] out@[i]) == given@[i].tree(),
            {
                proof {
                    assert(decreases_to!(j => j->Array_0));
                    assert(decreases_to!(given => given@[it.index()]));
                }
                out.push(to_value(item));
            }
            proof {
                json::lemma_array_tree(given);
                assert(given@.map_values(|j: Json| j.tree()) =~= out@.map_values(
                    |v: serde_json::Value| value_tree(v),
                ));
            }
            close_value(Node::Array(out))
        },
        Json::Object(t) => {
            let ghost given = t;
            let entries = t.into_entries();
            let ghost all = entries@;
            let mut out: Vec<(String, serde_json::Value)> = Vec::new();
            for entry in it: entries
                invariant
                    it.seq() == all,
                    j == Json::Object(given),
                    all.len() == given.pairs().len(),
                    table::distinct_keys(given.pairs()),
                    forall|i: int|
                        0 <= i < all.len() ==> (#[trigger] all[i]).0@ == given.pairs()[i].0
                            && all[i].1 == given.pairs()[i].1,
                    out@.len() == it.index(),
                    forall|i: int|
                        0 <= i < out@.len() ==> (#[trigger] out@[i]).0@ == given.pairs()[i].0
                            && value_tree(out@[i].1) == given.pairs()[i].1.tree(),
            {
                let (name, value) = entry;
                proof {
                    let i = it.index();
                    assert(all[i] == (name, value));
                    table::lemma_map_of(given.pairs(), i);
                    table::lemma_value_is_part(given, name@);
                    assert(decreases_to!(j => j->Object_0));
                }
                out.push((name, to_value(value)));
            }
            proof {
                json::lemma_object_tree(given);
                let named = node_fields(out@);
                assert(table::distinct_keys(named)) by {
                    assert forall|a: int, b: int| 0 <= a < b < named.len() implies (
                    #[trigger] named[a]).0 != (#[trigger] named[b]).0 by {
                        assert(named[a].0 == given.pairs()[a].0);
                        assert(named[b].0 == given.pairs()[b].0);
                    }
                }
                assert forall|k: Seq<char>|
                    table::has_pair(named, k) == table::has_pair(given.pairs(), k) by {
                    if table::has_pair(named, k) {
                        let i = table::pair_index(named, k);
                        assert(given.pairs()[i].0 == k);
                    }
                    if table::has_pair(given.pairs(), k) {
                        let i = table::pair_index(given.pairs(), k);
                        assert(named[i].0 == k);
                    }
                }
                assert forall|k: Seq<char>| table::has_pair(named, k) implies table::map_of(
                    named,
                )[k] == given@[k].tree() by {
                    let i = table::pair_index(named, k);
                    table::lemma_map_of(named, i);
                    table::lemma_map_of(given.pairs(), i);
                }
                assert(table::map_of(named) =~= json::fields(given));
            }
            close_value(Node::Object(out))
        },
    }
}

/// Reads the JSON value in `bytes`.
pub fn parse_json(bytes: &[u8]) -> (r: Option<Json>)
    ensures
        match r {
            Some(j) => parsed_json(bytes@) == Some(j.tree()),
            None => parsed_json(bytes@) is None,
        },
{
    match read_value(bytes) {
        Ok(v) => Some(from_value(v)),
        Err(_) => None,
    }
}

/// Writes a JSON value, which reads back as [`reads_back`] says.
pub fn print_json(j: Json) -> (r: Vec<u8>)
    ensures
        r@ == json_bytes(j.tree()),
        reads_back(parsed_json(r@), j.tree()),
{
    match write_value(&to_value(j)) {
        Ok(bytes) => bytes,
        Err(_) => Vec::new(),
    }
}

} // verus!
