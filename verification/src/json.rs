//! JSON values.

use crate::table;
use crate::table::Table;
use vstd::prelude::*;

verus! {

broadcast use vstd::string::group_string_axioms;

/// A number of `serde_json`, which is carried through as it is.
#[verifier::external_type_specification]
#[verifier::external_body]
pub struct ExNumber(serde_json::Number);

/// What a JSON number is.
pub enum NumberView {
    /// An integer.
    Integer(int),
    /// A floating-point number, by its JSON text.
    Fraction(Seq<char>),
}

/// What a number holds.
pub uninterp spec fn number_value(n: serde_json::Number) -> NumberView;

/// The JSON text of the finite floating-point number that `s` spells for
/// `str::parse`; `None` where it spells none.
pub uninterp spec fn float_text(s: Seq<char>) -> Option<Seq<char>>;

/// `serde_json::Number::from_i128`: the number that is the integer `n`, for
/// the integers that fit in an `i64` or a `u64`.
#[verifier::external_body]
pub(crate) fn integer_number(n: i128) -> (r: Option<serde_json::Number>)
    ensures
        match r {
            Some(x) => i64::MIN <= n <= u64::MAX && number_value(x) == NumberView::Integer(
                n as int,
            ),
            None => !(i64::MIN <= n <= u64::MAX),
        },
{
    serde_json::Number::from_i128(n)
}

/// `serde_json::Number::from_f64` on what `str::parse` reads in `text`: a
/// floating-point number where `text` spells a finite one, and nothing where
/// it spells none, an infinity or not-a-number.
#[verifier::external_body]
pub(crate) fn float_number(text: &str) -> (r: Option<serde_json::Number>)
    ensures
        match r {
            Some(x) => float_text(text@) matches Some(t) && number_value(x)
                == NumberView::Fraction(t),
            None => float_text(text@) is None,
        },
{
    text.parse().ok().and_then(serde_json::Number::from_f64)
}

/// The clone of a number holds what the number holds.
pub assume_specification[ <serde_json::Number as Clone>::clone ](
    n: &serde_json::Number,
) -> (r: serde_json::Number)
    ensures
        number_value(r) == number_value(*n),
;

/// A JSON value.
#[derive(Debug, PartialEq)]
pub enum Json {
    Null,
    Bool(bool),
    Number(serde_json::Number),
    Text(String),
    Array(Vec<Json>),
    Object(Table<Json>),
}

/// A JSON value as mathematics.
#[verifier::ext_equal]
pub enum JsonView {
    Null,
    Bool(bool),
    Number(NumberView),
    Text(Seq<char>),
    Array(Seq<JsonView>),
    Object(Map<Seq<char>, JsonView>),
}

impl Json {
    /// The value that a `Json` stands for.
    pub open spec fn tree(self) -> JsonView
        decreases self,
    {
        proof {
            if let Json::Object(t) = self {
                assert forall|k: Seq<char>| t@.contains_key(k) implies decreases_to!(
                    self => #[trigger] t@[k]
                ) by {
                    table::lemma_value_is_part(t, k);
                    assert(decreases_to!(self => t));
                }
            }
        }
        match self {
            Json::Null => JsonView::Null,
            Json::Bool(b) => JsonView::Bool(b),
            Json::Number(n) => JsonView::Number(number_value(n)),
            Json::Text(s) => JsonView::Text(s@),
            Json::Array(v) => JsonView::Array(
                Seq::new(
                    v@.len(),
                    |i: int|
                        if 0 <= i < v@.len() {
                            v@[i].tree()
                        } else {
                            arbitrary()
                        },
                ),
            ),
            Json::Object(t) => JsonView::Object(
                Map::new(
                    |k: Seq<char>| t@.contains_key(k),
                    |k: Seq<char>|
                        if t@.contains_key(k) {
                            t@[k].tree()
                        } else {
                            arbitrary()
                        },
                ),
            ),
        }
    }
}

/// The values of an object by their names.
pub open spec fn fields(t: Table<Json>) -> Map<Seq<char>, JsonView> {
    trees(t@)
}

/// The values of a map of JSON values.
pub open spec fn trees(m: Map<Seq<char>, Json>) -> Map<Seq<char>, JsonView> {
    m.map_values(|j: Json| j.tree())
}

/// The items of an array.
pub open spec fn items(v: Seq<Json>) -> Seq<JsonView> {
    v.map_values(|j: Json| j.tree())
}

/// The field `name` of an object; nothing where `v` is not one or has none.
pub open spec fn member_of(v: JsonView, name: Seq<char>) -> Option<JsonView> {
    match v {
        JsonView::Object(m) => if m.contains_key(name) {
            Some(m[name])
        } else {
            None
        },
        _ => None,
    }
}

/// The text in the field `name` of an object; nothing where there is none.
pub open spec fn text_of(v: JsonView, name: Seq<char>) -> Option<Seq<char>> {
    match member_of(v, name) {
        Some(JsonView::Text(t)) => Some(t),
        _ => None,
    }
}

/// The text in the field `inner` of the object in the field `outer`.
pub open spec fn inner_text_of(v: JsonView, outer: Seq<char>, inner: Seq<char>) -> Option<
    Seq<char>,
> {
    match member_of(v, outer) {
        Some(o) => text_of(o, inner),
        None => None,
    }
}

/// The name of a field that `serde_json` gives a meaning of its own: an object
/// that starts with it is read as the JSON text that the field holds.
pub open spec fn raw_name() -> Seq<char> {
    "$serde_json::private::RawValue"@
}

/// `v` holds no field with the name that stands for raw JSON text, and at most
/// `levels` arrays and objects one inside the other.
pub open spec fn is_plain(v: JsonView, levels: nat) -> bool
    decreases levels,
{
    match v {
        JsonView::Array(items) => levels > 0 && forall|i: int|
            0 <= i < items.len() ==> is_plain(#[trigger] items[i], (levels - 1) as nat),
        JsonView::Object(m) => levels > 0 && !m.contains_key(raw_name()) && forall|
            k: Seq<char>,
        | #[trigger]
            m.contains_key(k) ==> is_plain(m[k], (levels - 1) as nat),
        _ => true,
    }
}

/// `a` and `b` are the same value, up to `levels` arrays and objects one inside
/// the other, but that a floating-point number of one may stand where the
/// other has another one.
pub open spec fn same_but_fractions(a: JsonView, b: JsonView, levels: nat) -> bool
    decreases levels,
{
    match (a, b) {
        (
            JsonView::Number(NumberView::Fraction(_)),
            JsonView::Number(NumberView::Fraction(_)),
        ) => true,
        (JsonView::Array(x), JsonView::Array(y)) => levels > 0 && x.len() == y.len() && forall|
            i: int,
        |
            0 <= i < x.len() ==> same_but_fractions(
                #[trigger] x[i],
                y[i],
                (levels - 1) as nat,
            ),
        (JsonView::Object(x), JsonView::Object(y)) => levels > 0 && x.dom() == y.dom() && forall|
            k: Seq<char>,
        | #[trigger]
            x.contains_key(k) ==> same_but_fractions(x[k], y[k], (levels - 1) as nat),
        _ => a == b,
    }
}

/// `v` holds no floating-point number, no field with the name that stands for
/// raw JSON text, and at most `levels` arrays and objects one inside the other.
pub open spec fn is_exact(v: JsonView, levels: nat) -> bool
    decreases levels,
{
    match v {
        JsonView::Number(NumberView::Fraction(_)) => false,
        JsonView::Array(items) => levels > 0 && forall|i: int|
            0 <= i < items.len() ==> is_exact(#[trigger] items[i], (levels - 1) as nat),
        JsonView::Object(m) => levels > 0 && !m.contains_key(raw_name()) && forall|
            k: Seq<char>,
        | #[trigger]
            m.contains_key(k) ==> is_exact(m[k], (levels - 1) as nat),
        _ => true,
    }
}

/// A value without floating-point numbers is plain, and only it is the same but
/// for those.
pub proof fn law_exact_values(a: JsonView, b: JsonView, levels: nat)
    requires
        is_exact(b, levels),
    ensures
        is_plain(b, levels),
        same_but_fractions(a, b, levels) == (a == b),
    decreases levels,
{
    match b {
        JsonView::Array(y) => {
            assert forall|i: int| 0 <= i < y.len() implies is_plain(
                #[trigger] y[i],
                (levels - 1) as nat,
            ) && same_but_fractions(y[i], y[i], (levels - 1) as nat) by {
                law_exact_values(y[i], y[i], (levels - 1) as nat);
            }
            if let JsonView::Array(x) = a {
                if same_but_fractions(a, b, levels) {
                    assert forall|i: int| 0 <= i < x.len() implies #[trigger] x[i] == y[i] by {
                        law_exact_values(x[i], y[i], (levels - 1) as nat);
                    }
                    assert(x =~= y);
                }
            }
        },
        JsonView::Object(y) => {
            assert forall|k: Seq<char>| #[trigger] y.contains_key(k) implies is_plain(
                y[k],
                (levels - 1) as nat,
            ) && same_but_fractions(y[k], y[k], (levels - 1) as nat) by {
                law_exact_values(y[k], y[k], (levels - 1) as nat);
            }
            if let JsonView::Object(x) = a {
                if same_but_fractions(a, b, levels) {
                    assert forall|k: Seq<char>| #[trigger] x.contains_key(k) implies x[k]
                        == y[k] by {
                        assert(x.dom().contains(k));
                        assert(y.contains_key(k));
                        law_exact_values(x[k], y[k], (levels - 1) as nat);
                    }
                    assert(x =~= y);
                }
            }
        },
        _ => {},
    }
}

/// One more value.
pub proof fn lemma_trees_insert(m: Map<Seq<char>, Json>, k: Seq<char>, v: Json)
    ensures
        trees(m.insert(k, v)) == trees(m).insert(k, v.tree()),
{
    assert(trees(m.insert(k, v)) =~= trees(m).insert(k, v.tree()));
}

/// The keys stay, and a map without entries stands for itself.
pub proof fn lemma_trees_keys(m: Map<Seq<char>, Json>)
    ensures
        forall|k: Seq<char>| #[trigger] trees(m).contains_key(k) == m.contains_key(k),
        (trees(m) == Map::<Seq<char>, JsonView>::empty()) == (m == Map::<Seq<char>, Json>::empty()),
{
    if trees(m) == Map::<Seq<char>, JsonView>::empty() {
        assert forall|k: Seq<char>| !m.contains_key(k) by {
            assert(!trees(m).contains_key(k));
        }
        assert(m =~= Map::<Seq<char>, Json>::empty());
    }
    if m == Map::<Seq<char>, Json>::empty() {
        assert(trees(m) =~= Map::<Seq<char>, JsonView>::empty());
    }
}

/// An object stands for its fields.
pub proof fn lemma_object_tree(t: Table<Json>)
    ensures
        Json::Object(t).tree() == JsonView::Object(fields(t)),
{
    assert(Json::Object(t).tree()->Object_0 =~= fields(t));
}

/// An array stands for its items.
pub proof fn lemma_array_tree(v: Vec<Json>)
    ensures
        Json::Array(v).tree() == JsonView::Array(items(v@)),
{
    assert(Json::Array(v).tree()->Array_0 =~= items(v@));
}

impl Json {
    /// The same value once more.
    pub fn copy(&self) -> (r: Json)
        ensures
            r.tree() == self.tree(),
        decreases self,
    {
        match self {
            Json::Null => Json::Null,
            Json::Bool(b) => Json::Bool(*b),
            Json::Number(n) => Json::Number(n.clone()),
            Json::Text(s) => Json::Text(s.clone()),
            Json::Array(items) => {
                let mut out: Vec<Json> = Vec::new();
                let mut i: usize = 0;
                while i < items.len()
                    invariant
                        i == out@.len(),
                        i <= items@.len(),
                        self == Json::Array(*items),
                        forall|j: int| 0 <= j < i ==> (#[trigger] out@[j]).tree() == items@[j].tree(),
                    decreases items@.len() - i,
                {
                    proof {
                        assert(decreases_to!(*self => (*self)->Array_0));
                        assert(decreases_to!(*items => items@[i as int]));
                    }
                    out.push(items[i].copy());
                    i += 1;
                }
                proof {
                    lemma_array_tree(out);
                    lemma_array_tree(*items);
                    assert(self::items(out@) =~= self::items(items@));
                }
                Json::Array(out)
            },
            Json::Object(t) => {
                let out = copy_fields(t);
                proof {
                    lemma_object_tree(out);
                    lemma_object_tree(*t);
                }
                Json::Object(out)
            },
        }
    }
}

/// The same fields once more.
pub fn copy_fields(t: &Table<Json>) -> (r: Table<Json>)
    ensures
        fields(r) == fields(*t),
    decreases t,
{
    let mut out: Table<Json> = Table::new();
    let len = t.len();
    let mut i: usize = 0;
    proof {
        table::lemma_map_of_none(t.pairs());
        assert(fields(out) =~= trees(table::map_of(t.pairs().take(0))));
    }
    while i < len
        invariant
            i <= len == t.pairs().len(),
            table::distinct_keys(t.pairs()),
            fields(out) == trees(table::map_of(t.pairs().take(i as int))),
        decreases len - i,
    {
        let key = t.key_at(i);
        let value = t.value_at(i);
        proof {
            table::lemma_value_is_part(*t, key@);
            table::lemma_map_of_take(t.pairs(), i as int);
        }
        let ghost before = out@;
        let twin = value.copy();
        out.insert(key.to_owned(), twin);
        proof {
            lemma_trees_insert(before, key@, twin);
            lemma_trees_insert(table::map_of(t.pairs().take(i as int)), key@, *value);
        }
        i += 1;
    }
    proof {
        table::lemma_map_of_none(t.pairs());
    }
    out
}

impl Json {
    /// The field `name`; nothing where this is no object or has none.
    pub fn member(&self, name: &str) -> (r: Option<&Json>)
        ensures
            match r {
                Some(v) => member_of(self.tree(), name@) == Some(v.tree()),
                None => member_of(self.tree(), name@) is None,
            },
    {
        match self {
            Json::Object(t) => {
                proof {
                    lemma_object_tree(*t);
                }
                t.get(name)
            },
            _ => None,
        }
    }

    /// The text in the field `name`; nothing where there is none.
    pub fn text(&self, name: &str) -> (r: Option<&str>)
        ensures
            match r {
                Some(t) => text_of(self.tree(), name@) == Some(t@),
                None => text_of(self.tree(), name@) is None,
            },
    {
        match self.member(name) {
            Some(Json::Text(t)) => Some(t.as_str()),
            _ => None,
        }
    }

    /// The text in the field `inner` of the object in the field `outer`.
    pub fn inner_text(&self, outer: &str, inner: &str) -> (r: Option<&str>)
        ensures
            match r {
                Some(t) => inner_text_of(self.tree(), outer@, inner@) == Some(t@),
                None => inner_text_of(self.tree(), outer@, inner@) is None,
            },
    {
        match self.member(outer) {
            Some(o) => o.text(inner),
            None => None,
        }
    }
}

} // verus!
