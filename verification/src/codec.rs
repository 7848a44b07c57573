//! JSON values as text and bytes, by way of `serde_json`.
use crate::json::{number_view, Json, JsonView, NumberView, Object};
use crate::text::{before, before_is_irreflexive, blank};
use vstd::prelude::*;
use vstd::utf8::*;

verus! {

/// A JSON value of `serde_json`.
#[verifier::external_type_specification]
#[verifier::external_body]
pub struct ExOutside(serde_json::Value);

/// What a value of `serde_json` holds.
pub uninterp spec fn contents(v: serde_json::Value) -> JsonView;

/// A value of `serde_json` taken apart by one level.
enum Parts {
    Null,
    Bool(bool),
    Num(serde_json::Number),
    Text(String),
    Array(Vec<serde_json::Value>),
    Object(Vec<(String, serde_json::Value)>),
}

/// What the members of a taken apart object hold.
spec fn outside_members(entries: Seq<(String, serde_json::Value)>) -> Map<Seq<char>, JsonView>
    decreases entries.len(),
{
    if entries.len() == 0 {
        Map::empty()
    } else {
        outside_members(entries.drop_last()).insert(entries.last().0@, contents(entries.last().1))
    }
}

/// What a taken apart value holds.
spec fn parts_view(parts: Parts) -> JsonView {
    match parts {
        Parts::Null => JsonView::Null,
        Parts::Bool(b) => JsonView::Bool(b),
        Parts::Num(n) => JsonView::Num(number_view(n)),
        Parts::Text(text) => JsonView::Text(text@),
        Parts::Array(items) => JsonView::Array(
            items@.map_values(|item: serde_json::Value| contents(item)),
        ),
        Parts::Object(entries) => JsonView::Object(outside_members(entries@)),
    }
}

/// No key occurs twice.
spec fn distinct(entries: Seq<(String, serde_json::Value)>) -> bool {
    forall|i: int, j: int|
        0 <= i < j < entries.len() ==> #[trigger] entries[i].0@ != #[trigger] entries[j].0@
}

/// Takes a `serde_json::Value` apart: the variant it is, with its fields. The
/// members of an object come as pairs, each key once.
#[verifier::external_body]
fn open(v: serde_json::Value) -> (r: Parts)
    ensures
        contents(v) == parts_view(r),
        r matches Parts::Object(entries) ==> distinct(entries@),
{
    match v {
        serde_json::Value::Null => Parts::Null,
        serde_json::Value::Bool(b) => Parts::Bool(b),
        serde_json::Value::Number(n) => Parts::Num(n),
        serde_json::Value::String(text) => Parts::Text(text),
        serde_json::Value::Array(items) => Parts::Array(items),
        serde_json::Value::Object(map) => Parts::Object(map.into_iter().collect()),
    }
}

/// Makes a `serde_json::Value` of the variant and fields given. An object is
/// collected from its pairs, of which a later one replaces an earlier one with
/// the same key.
#[verifier::external_body]
fn close(parts: Parts) -> (r: serde_json::Value)
    ensures
        contents(r) == parts_view(parts),
{
    match parts {
        Parts::Null => serde_json::Value::Null,
        Parts::Bool(b) => serde_json::Value::Bool(b),
        Parts::Num(n) => serde_json::Value::Number(n),
        Parts::Text(text) => serde_json::Value::String(text),
        Parts::Array(items) => serde_json::Value::Array(items),
        Parts::Object(entries) => serde_json::Value::Object(entries.into_iter().collect()),
    }
}

/// The members that pairs with distinct keys hold.
proof fn lemma_outside_members(entries: Seq<(String, serde_json::Value)>)
    requires
        distinct(entries),
    ensures
        outside_members(entries).dom().finite(),
        forall|i: int|
            0 <= i < entries.len() ==> outside_members(entries).dom().contains(
                #[trigger] entries[i].0@,
            ) && outside_members(entries)[entries[i].0@] == contents(entries[i].1),
    decreases entries.len(),
{
    if entries.len() > 0 {
        let rest = entries.drop_last();
        assert(distinct(rest)) by {
            assert forall|i: int, j: int| 0 <= i < j < rest.len() implies #[trigger] rest[i].0@
                != #[trigger] rest[j].0@ by {
                assert(entries[i].0@ != entries[j].0@);
            }
        }
        lemma_outside_members(rest);
        assert forall|i: int| 0 <= i < entries.len() implies outside_members(
            entries,
        ).dom().contains(#[trigger] entries[i].0@) && outside_members(entries)[entries[i].0@]
            == contents(entries[i].1) by {
            if i < rest.len() {
                assert(rest[i] == entries[i]);
                assert(entries[i].0@ != entries[entries.len() - 1].0@);
            }
        }
    }
}

/// The value that a value of `serde_json` holds.
fn import(v: serde_json::Value) -> (r: Json)
    ensures
        r@ == contents(v),
    decreases contents(v),
{
    match open(v) {
        Parts::Null => Json::Null,
        Parts::Bool(b) => Json::Bool(b),
        Parts::Num(n) => Json::Num(n),
        Parts::Text(text) => Json::Text(text),
        Parts::Array(items) => {
            let ghost all = items@;
            let mut list: Vec<Json> = Vec::new();
            for item in it: items
                invariant
                    it.seq() == all,
                    contents(v) == JsonView::Array(
                        all.map_values(|item: serde_json::Value| contents(item)),
                    ),
                    list@.len() == it.index(),
                    forall|k: int|
                        0 <= k < list@.len() ==> (#[trigger] list@[k])@ == contents(all[k]),
            {
                assert(contents(v)->Array_0[it.index()] == contents(item));
                list.push(import(item));
            }
            let r = Json::Array(list);
            assert(r@->Array_0 =~= contents(v)->Array_0);
            r
        },
        Parts::Object(entries) => {
            let ghost all = entries@;
            let mut object = Object::new();
            proof {
                lemma_outside_members(all);
                assert(all.take(0) =~= Seq::empty());
            }
            for entry in it: entries
                invariant
                    it.seq() == all,
                    contents(v) == JsonView::Object(outside_members(all)),
                    outside_members(all).dom().finite(),
                    forall|i: int|
                        0 <= i < all.len() ==> outside_members(all).dom().contains(
                            #[trigger] all[i].0@,
                        ) && outside_members(all)[all[i].0@] == contents(all[i].1),
                    object@ == outside_members(all.take(it.index() as int)),
            {
                proof {
                    let i = it.index() as int;
                    assert(all[i] == entry);
                    assert(contents(v)->Object_0[entry.0@] == contents(entry.1));
                    assert(all.take(i + 1).drop_last() =~= all.take(i));
                }
                let (key, value) = entry;
                object.insert(key, import(value));
            }
            assert(all.take(all.len() as int) =~= all);
            Json::Object(object)
        },
    }
}

/// The value of `serde_json` that holds a value.
fn export(value: &Json) -> (r: serde_json::Value)
    ensures
        contents(r) == value@,
    decreases value@,
{
    match value {
        Json::Null => close(Parts::Null),
        Json::Bool(b) => close(Parts::Bool(*b)),
        Json::Num(n) => close(Parts::Num(n.clone())),
        Json::Text(text) => close(Parts::Text(text.clone())),
        Json::Array(items) => {
            let mut list: Vec<serde_json::Value> = Vec::new();
            for i in 0..items.len()
                invariant
                    *value == Json::Array(*items),
                    list@.len() == i,
                    forall|k: int|
                        0 <= k < i ==> contents(#[trigger] list@[k]) == value@->Array_0[k],
            {
                assert(value@->Array_0[i as int] == items@[i as int]@);
                list.push(export(&items[i]));
            }
            assert(parts_view(Parts::Array(list))->Array_0 =~= value@->Array_0);
            close(Parts::Array(list))
        },
        Json::Object(object) => {
            let mut entries: Vec<(String, serde_json::Value)> = Vec::new();
            let count = object.len();
            for i in 0..count
                invariant
                    value@ == JsonView::Object(object@),
                    count == object.keys().len(),
                    object@.dom().finite(),
                    entries@.len() == i,
                    forall|k: int|
                        0 <= k < i ==> (#[trigger] entries@[k]).0@ == object.keys()[k]
                            && object@.dom().contains(object.keys()[k]) && contents(entries@[k].1)
                            == object@[object.keys()[k]],
            {
                let (key, member) = object.entry(i);
                assert(decreases_to!(value@ => value@->Object_0));
                entries.push((key.clone(), export(member)));
            }
            proof {
                lemma_same_members(*object, entries@);
            }
            close(Parts::Object(entries))
        },
    }
}

/// Pairs with the keys and members of an object hold that object.
proof fn lemma_same_members(object: Object, entries: Seq<(String, serde_json::Value)>)
    requires
        entries.len() == object.keys().len(),
        forall|i: int, j: int|
            0 <= i < j < entries.len() ==> before(
                #[trigger] object.keys()[i],
                #[trigger] object.keys()[j],
            ),
        forall|k: Seq<char>| #[trigger]
            object@.dom().contains(k) <==> exists|i: int|
                0 <= i < entries.len() && #[trigger] object.keys()[i] == k,
        forall|k: int|
            0 <= k < entries.len() ==> (#[trigger] entries[k]).0@ == object.keys()[k] && contents(
                entries[k].1,
            ) == object@[object.keys()[k]],
    ensures
        outside_members(entries) == object@,
{
    assert forall|i: int, j: int| 0 <= i < j < entries.len() implies #[trigger] entries[i].0@
        != #[trigger] entries[j].0@ by {
        assert(before(object.keys()[i], object.keys()[j]));
        before_is_irreflexive(object.keys()[i]);
    }
    lemma_outside_members(entries);
    assert forall|k: Seq<char>|
        outside_members(entries).dom().contains(k) <==> object@.dom().contains(k) by {
        if outside_members(entries).dom().contains(k) {
            lemma_outside_key(entries, k);
            let i = choose|i: int| 0 <= i < entries.len() && #[trigger] entries[i].0@ == k;
            assert(object.keys()[i] == k);
        }
        if object@.dom().contains(k) {
            let i = choose|i: int| 0 <= i < entries.len() && #[trigger] object.keys()[i] == k;
            assert(entries[i].0@ == k);
        }
    }
    assert forall|k: Seq<char>| object@.dom().contains(k) implies outside_members(entries)[k]
        == object@[k] by {
        let i = choose|i: int| 0 <= i < entries.len() && #[trigger] object.keys()[i] == k;
        assert(entries[i].0@ == k);
    }
    assert(outside_members(entries) =~= object@);
}

/// A key among the members is the key of a pair.
proof fn lemma_outside_key(entries: Seq<(String, serde_json::Value)>, k: Seq<char>)
    requires
        outside_members(entries).dom().contains(k),
    ensures
        exists|i: int| 0 <= i < entries.len() && #[trigger] entries[i].0@ == k,
    decreases entries.len(),
{
    if entries.len() > 0 {
        if entries.last().0@ == k {
            assert(entries[entries.len() - 1].0@ == k);
        } else {
            let rest = entries.drop_last();
            lemma_outside_key(rest, k);
            let i = choose|i: int| 0 <= i < rest.len() && #[trigger] rest[i].0@ == k;
            assert(entries[i].0@ == k);
        }
    }
}

// ---------------------------------------------------------------------------
// Writing
// ---------------------------------------------------------------------------

/// A value as JSON text over several lines, with indentation.
pub uninterp spec fn pretty_text(v: JsonView) -> Seq<char>;

/// A value as JSON text on one line.
pub uninterp spec fn compact_text(v: JsonView) -> Seq<char>;

/// A value as the bytes of JSON text on one line.
pub uninterp spec fn encoded(v: JsonView) -> Seq<u8>;

/// `serde_json::to_string_pretty` on a `Value` gives its indented text; it has
/// no reason to fail there, as every key is a text.
#[verifier::external_body]
fn outside_pretty(v: &serde_json::Value) -> (r: Option<String>)
    ensures
        r is Some,
        r->Some_0@ == pretty_text(contents(*v)),
{
    serde_json::to_string_pretty(v).ok()
}

/// `Value::to_string` gives the text of a value on one line.
#[verifier::external_body]
fn outside_compact(v: &serde_json::Value) -> (r: String)
    ensures
        r@ == compact_text(contents(*v)),
{
    v.to_string()
}

/// `serde_json::to_vec` on a `Value` gives its text on one line as bytes; it
/// has no reason to fail there, and a line feed inside a text is escaped.
#[verifier::external_body]
fn outside_encode(v: &serde_json::Value) -> (r: Option<Vec<u8>>)
    ensures
        r is Some,
        r->Some_0@ == encoded(contents(*v)),
        !r->Some_0@.contains(10u8),
{
    serde_json::to_vec(v).ok()
}

/// A value as indented JSON text.
pub fn pretty(value: &Json) -> (r: String)
    ensures
        r@ == pretty_text(value@),
{
    let outside = export(value);
    outside_pretty(&outside).unwrap()
}

/// A value as JSON text on one line.
pub fn compact(value: &Json) -> (r: String)
    ensures
        r@ == compact_text(value@),
{
    let outside = export(value);
    outside_compact(&outside)
}

/// A value as the bytes of JSON text on one line.
pub fn encode(value: &Json) -> (r: Vec<u8>)
    ensures
        r@ == encoded(value@),
        !r@.contains(10u8),
{
    let outside = export(value);
    outside_encode(&outside).unwrap()
}

// ---------------------------------------------------------------------------
// Reading
// ---------------------------------------------------------------------------

/// A value, or the reason why there is none.
pub type Reading = Result<JsonView, Seq<char>>;

/// What a value or the reason why there is none holds.
pub open spec fn reading(r: Result<Json, String>) -> Reading {
    match r {
        Ok(value) => Ok(value@),
        Err(reason) => Err(reason@),
    }
}

/// What JSON text denotes, or the reason why it denotes nothing.
pub uninterp spec fn parsed(text: Seq<char>) -> Result<JsonView, Seq<char>>;

/// What the bytes of JSON text denote, or the reason why they denote nothing.
pub uninterp spec fn decoded(bytes: Seq<u8>) -> Result<JsonView, Seq<char>>;

/// The values that are written without loss: no fractions, and at most `depth`
/// arrays and objects inside one another.
pub open spec fn exact(v: JsonView, depth: nat) -> bool
    decreases v,
{
    match v {
        JsonView::Num(NumberView::Float(_)) => false,
        JsonView::Num(NumberView::Neg(i)) => i < 0,
        JsonView::Array(items) => {
            &&& depth > 0
            &&& forall|i: int| 0 <= i < items.len() ==> exact(#[trigger] items[i], (depth - 1) as nat)
        },
        JsonView::Object(members) => {
            &&& depth > 0
            &&& members.dom().finite()
            &&& forall|k: Seq<char>| #[trigger]
                members.dom().contains(k) ==> exact(members[k], (depth - 1) as nat)
        },
        _ => true,
    }
}

/// `serde_json::from_str` into a `Value`: the value that the text denotes, or
/// the text of the error. White space alone denotes nothing. Reading gives back
/// what `to_vec` wrote, where the value has no fractions and is not nested more
/// deeply than the reader goes.
#[verifier::external_body]
fn outside_parse(text: &str) -> (r: Result<serde_json::Value, String>)
    ensures
        match r {
            Ok(v) => parsed(text@) == Ok::<JsonView, Seq<char>>(contents(v)),
            Err(error) => parsed(text@) == Err::<JsonView, Seq<char>>(error@),
        },
        blank(text@) ==> r is Err,
        forall|v: JsonView|
            exact(v, 127) && encode_utf8(text@) == #[trigger] encoded(v) ==> r is Ok && contents(
                r->Ok_0,
            ) == v,
{
    serde_json::from_str(text).map_err(|error| error.to_string())
}

/// `serde_json::from_slice` into a `Value`: the value that the bytes denote,
/// or the text of the error. Reading gives back what `to_vec` wrote, with or
/// without a line feed behind it, where the value has no fractions and is not
/// nested more deeply than the reader goes.
#[verifier::external_body]
fn outside_decode(bytes: &Vec<u8>) -> (r: Result<serde_json::Value, String>)
    ensures
        match r {
            Ok(v) => decoded(bytes@) == Ok::<JsonView, Seq<char>>(contents(v)),
            Err(error) => decoded(bytes@) == Err::<JsonView, Seq<char>>(error@),
        },
        forall|v: JsonView|
            exact(v, 127) && (bytes@ == #[trigger] encoded(v) || bytes@ == encoded(v).push(10u8))
                ==> r is Ok && contents(r->Ok_0) == v,
{
    serde_json::from_slice(bytes).map_err(|error| error.to_string())
}

/// What JSON text denotes. White space alone denotes nothing, and a value that was written is read as
/// it was.
pub fn parse(text: &str) -> (r: Result<Json, String>)
    ensures
        reading(r) == parsed(text@),
        blank(text@) ==> r is Err,
        forall|v: JsonView|
            exact(v, 127) && encode_utf8(text@) == #[trigger] encoded(v) ==> r is Ok && r->Ok_0@
                == v,
{
    match outside_parse(text) {
        Ok(v) => Ok(import(v)),
        Err(error) => Err(error),
    }
}

/// What the bytes of JSON text denote.
pub fn decode(bytes: &Vec<u8>) -> (r: Result<Json, String>)
    ensures
        reading(r) == decoded(bytes@),
        forall|v: JsonView|
            exact(v, 127) && (bytes@ == #[trigger] encoded(v) || bytes@ == encoded(v).push(10u8))
                ==> r is Ok && r->Ok_0@ == v,
{
    match outside_decode(bytes) {
        Ok(v) => Ok(import(v)),
        Err(error) => Err(error),
    }
}

} // verus!
