//! A JSON document model for the requests that the library sends.

use vstd::prelude::*;
use std::collections::HashMap;

verus! {

#[verifier::external_type_specification]
#[verifier::external_body]
pub struct ExJsonValue(serde_json::Value);

/// A JSON value. An object is a list of entries; `Raw` carries a value that
/// `serde_json` has already built.
pub enum Json {
    Null,
    Bool(bool),
    Int(i64),
    Str(String),
    Array(Vec<Json>),
    Object(Vec<(String, Json)>),
    Raw(serde_json::Value),
}

/// The model of a [`Json`] value: text is seen as its characters.
pub enum JsonView {
    Null,
    Bool(bool),
    Int(i64),
    Str(Seq<char>),
    Array(Seq<JsonView>),
    Object(Seq<(Seq<char>, JsonView)>),
    Raw(serde_json::Value),
}

/// The model of a JSON value.
pub open spec fn json_view(j: Json) -> JsonView
    decreases j,
{
    match j {
        Json::Null => JsonView::Null,
        Json::Bool(b) => JsonView::Bool(b),
        Json::Int(n) => JsonView::Int(n),
        Json::Str(s) => JsonView::Str(s@),
        Json::Array(items) => JsonView::Array(
            Seq::new(
                items@.len(),
                |i: int|
                    if 0 <= i < items@.len() {
                        json_view(items@[i])
                    } else {
                        JsonView::Null
                    },
            ),
        ),
        Json::Object(entries) => JsonView::Object(
            Seq::new(
                entries@.len(),
                |i: int|
                    if 0 <= i < entries@.len() {
                        (entries@[i].0@, json_view(entries@[i].1))
                    } else {
                        (Seq::empty(), JsonView::Null)
                    },
            ),
        ),
        Json::Raw(v) => JsonView::Raw(v),
    }
}

impl View for Json {
    type V = JsonView;

    open spec fn view(&self) -> JsonView {
        json_view(*self)
    }
}

/// A JSON string.
pub open spec fn jstr(s: Seq<char>) -> JsonView {
    JsonView::Str(s)
}

/// A JSON array of integers.
pub open spec fn int_array_view(xs: Seq<i64>) -> JsonView {
    JsonView::Array(xs.map_values(|x: i64| JsonView::Int(x)))
}

/// A JSON array of strings.
pub open spec fn str_array_view(xs: Seq<Seq<char>>) -> JsonView {
    JsonView::Array(xs.map_values(|x: Seq<char>| JsonView::Str(x)))
}

/// `e` is the entry of some key of `m`, with the string that `m` maps it to.
pub open spec fn entry_of_string_map(e: (Seq<char>, JsonView), m: Map<String, String>) -> bool {
    exists|k: String| m.contains_key(k) && e == (k@, JsonView::Str(m[k]@))
}

/// `obj` has the entry `(key, Str(value))`.
pub open spec fn has_string_entry(obj: Seq<(Seq<char>, JsonView)>, key: Seq<char>, value: Seq<char>) -> bool {
    exists|i: int| 0 <= i < obj.len() && obj[i] == (key, JsonView::Str(value))
}

/// `obj` holds, in some order, exactly one entry `(k, v)` for each key `k`
/// of `m`, with `v` the string that `m` maps `k` to.
pub open spec fn object_of_string_map(obj: Seq<(Seq<char>, JsonView)>, m: Map<String, String>) -> bool {
    &&& obj.len() == m.dom().len()
    &&& forall|i: int| 0 <= i < obj.len() ==> entry_of_string_map(#[trigger] obj[i], m)
    &&& forall|k: String| #[trigger] m.contains_key(k) ==> has_string_entry(obj, k@, m[k]@)
}

/// An object with one entry.
pub open spec fn obj1(k1: Seq<char>, v1: JsonView) -> JsonView {
    JsonView::Object(seq![(k1, v1)])
}

/// An object with two entries, in this order.
pub open spec fn obj2(k1: Seq<char>, v1: JsonView, k2: Seq<char>, v2: JsonView) -> JsonView {
    JsonView::Object(seq![(k1, v1), (k2, v2)])
}

/// A JSON string holding `s`.
pub fn text(s: &str) -> (j: Json)
    ensures
        j@ == jstr(s@),
{
    Json::Str(String::from_str(s))
}

/// An object entry: `key` and its value.
pub fn entry(key: &str, value: Json) -> (e: (String, Json))
    ensures
        e.0@ == key@,
        e.1 == value,
{
    (String::from_str(key), value)
}

/// A JSON object with the given entries, in order.
pub fn object(entries: Vec<(String, Json)>) -> (j: Json)
    ensures
        j@ == JsonView::Object(
            entries@.map_values(|e: (String, Json)| (e.0@, e.1@)),
        ),
{
    let ghost es = entries@;
    let j = Json::Object(entries);
    assert(j@->Object_0 =~= es.map_values(|e: (String, Json)| (e.0@, e.1@)));
    j
}

/// An object with the one entry `key: value`.
pub fn object1(key: &str, value: Json) -> (j: Json)
    ensures
        j@ == obj1(key@, value@),
{
    let ghost v = value@;
    let j = object(vec![entry(key, value)]);
    assert(j@->Object_0 =~= seq![(key@, v)]);
    j
}

/// An object with the entries `key1: value1` and `key2: value2`, in this order.
pub fn object2(key1: &str, value1: Json, key2: &str, value2: Json) -> (j: Json)
    ensures
        j@ == obj2(key1@, value1@, key2@, value2@),
{
    let ghost v1 = value1@;
    let ghost v2 = value2@;
    let j = object(vec![entry(key1, value1), entry(key2, value2)]);
    assert(j@->Object_0 =~= seq![(key1@, v1), (key2@, v2)]);
    j
}

/// A JSON array of the given integers.
pub fn int_array(xs: &[i64]) -> (j: Json)
    ensures
        j@ == int_array_view(xs@),
{
    let mut items: Vec<Json> = Vec::new();
    let n = xs.len();
    let mut i: usize = 0;
    while i < n
        invariant
            i <= n,
            n == xs@.len(),
            items@.len() == i,
            forall|k: int| 0 <= k < i ==> #[trigger] items@[k]@ == JsonView::Int(xs@[k]),
        decreases n - i,
    {
        items.push(Json::Int(xs[i]));
        i = i + 1;
    }
    let ghost its = items@;
    let j = Json::Array(items);
    assert forall|k: int| 0 <= k < its.len() implies j@->Array_0[k] == JsonView::Int(xs@[k]) by {
        assert(its[k]@ == JsonView::Int(xs@[k]));
    }
    assert(j@->Array_0 =~= xs@.map_values(|x: i64| JsonView::Int(x)));
    j
}

/// A JSON array of the given strings.
pub fn string_array(xs: &[String]) -> (j: Json)
    ensures
        j@ == str_array_view(xs@.map_values(|x: String| x@)),
{
    let mut items: Vec<Json> = Vec::new();
    let n = xs.len();
    let mut i: usize = 0;
    while i < n
        invariant
            i <= n,
            n == xs@.len(),
            items@.len() == i,
            forall|k: int| 0 <= k < i ==> #[trigger] items@[k]@ == JsonView::Str(xs@[k]@),
        decreases n - i,
    {
        items.push(Json::Str(xs[i].clone()));
        i = i + 1;
    }
    let ghost its = items@;
    let j = Json::Array(items);
    assert forall|k: int| 0 <= k < its.len() implies j@->Array_0[k] == JsonView::Str(xs@[k]@) by {
        assert(its[k]@ == JsonView::Str(xs@[k]@));
    }
    assert(j@->Array_0 =~= xs@.map_values(|x: String| x@).map_values(|x: Seq<char>| JsonView::Str(x)));
    j
}

/// A JSON array of the given string slices.
pub fn str_array(xs: &[&str]) -> (j: Json)
    ensures
        j@ == str_array_view(xs@.map_values(|x: &str| x@)),
{
    let mut items: Vec<Json> = Vec::new();
    let n = xs.len();
    let mut i: usize = 0;
    while i < n
        invariant
            i <= n,
            n == xs@.len(),
            items@.len() == i,
            forall|k: int| 0 <= k < i ==> #[trigger] items@[k]@ == JsonView::Str(xs@[k]@),
        decreases n - i,
    {
        items.push(text(xs[i]));
        i = i + 1;
    }
    let ghost its = items@;
    let j = Json::Array(items);
    assert forall|k: int| 0 <= k < its.len() implies j@->Array_0[k] == JsonView::Str(xs@[k]@) by {
        assert(its[k]@ == JsonView::Str(xs@[k]@));
    }
    assert(j@->Array_0 =~= xs@.map_values(|x: &str| x@).map_values(|x: Seq<char>| JsonView::Str(x)));
    j
}

/// The entries of a map of strings, in the order in which `HashMap::iter`
/// visits them.
/// Trusted: `HashMap::iter` visits every entry of the map once, in an order
/// that is left open.
#[verifier::external_body]
fn string_map_entries<'a>(m: &'a HashMap<String, String>) -> (es: Vec<(&'a String, &'a String)>)
    ensures
        es@.len() == m@.dom().len(),
        forall|i: int|
            0 <= i < es@.len() ==> #[trigger] m@.contains_key(*es@[i].0) && m@[*es@[i].0]
                == *es@[i].1,
        forall|k: String|
            #[trigger] m@.contains_key(k) ==> exists|i: int| 0 <= i < es@.len() && *es@[i].0 == k,
{
    m.iter().collect()
}

/// A JSON object with one string entry for each entry of `m`.
pub fn string_map_object(m: &HashMap<String, String>) -> (j: Json)
    ensures
        j@ is Object,
        object_of_string_map(j@->Object_0, m@),
{
    let es = string_map_entries(m);
    let mut entries: Vec<(String, Json)> = Vec::new();
    let n = es.len();
    let mut i: usize = 0;
    while i < n
        invariant
            i <= n,
            n == es@.len(),
            entries@.len() == i,
            forall|k: int|
                0 <= k < i ==> #[trigger] entries@[k].0 == *es@[k].0 && entries@[k].1@ == JsonView::Str(
                    es@[k].1@,
                ),
        decreases n - i,
    {
        entries.push((es[i].0.clone(), Json::Str(es[i].1.clone())));
        i = i + 1;
    }
    let ghost ents = entries@;
    let j = object(entries);
    let ghost obj = ents.map_values(|e: (String, Json)| (e.0@, e.1@));
    assert(j@->Object_0 == obj);
    assert(obj.len() == m@.dom().len());
    assert forall|i: int| 0 <= i < obj.len() implies entry_of_string_map(#[trigger] obj[i], m@) by {
        assert(m@.contains_key(*es@[i].0));
        assert(obj[i] == (es@[i].0@, JsonView::Str(m@[*es@[i].0]@)));
    }
    assert forall|k: String| #[trigger] m@.contains_key(k) implies has_string_entry(obj, k@, m@[k]@) by {
        let i = choose|i: int| 0 <= i < es@.len() && *es@[i].0 == k;
        assert(obj[i] == (k@, JsonView::Str(m@[k]@)));
    }
    j
}

} // verus!
