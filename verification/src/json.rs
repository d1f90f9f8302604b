//! JSON values built from plain parts, for the editor documents.
use crate::ast::join2;
use vstd::prelude::*;

verus! {

/// A JSON value; object members keep their order.
#[derive(Debug, PartialEq)]
pub enum JsonValue {
    Null,
    Bool(bool),
    Str(String),
    Arr(Vec<JsonValue>),
    Obj(Vec<(String, JsonValue)>),
}

/// The mathematical form of a [`JsonValue`].
pub enum JsonV {
    Null,
    Bool(bool),
    Str(Seq<char>),
    Arr(Seq<JsonV>),
    Obj(Seq<(Seq<char>, JsonV)>),
}

impl JsonValue {
    pub open spec fn view_json(&self) -> JsonV
        decreases self, 0int,
    {
        match self {
            JsonValue::Null => JsonV::Null,
            JsonValue::Bool(b) => JsonV::Bool(*b),
            JsonValue::Str(s) => JsonV::Str(s@),
            JsonValue::Arr(xs) => JsonV::Arr(items_v(xs@)),
            JsonValue::Obj(ms) => JsonV::Obj(members_v(ms@)),
        }
    }
}

/// The views of array items.
pub open spec fn items_v(xs: Seq<JsonValue>) -> Seq<JsonV>
    decreases xs, 1int,
{
    Seq::new(
        xs.len(),
        |i: int|
            if 0 <= i < xs.len() {
                xs[i].view_json()
            } else {
                JsonV::Null
            },
    )
}

/// The views of object members.
pub open spec fn members_v(ms: Seq<(String, JsonValue)>) -> Seq<(Seq<char>, JsonV)>
    decreases ms, 1int,
{
    Seq::new(
        ms.len(),
        |i: int|
            if 0 <= i < ms.len() {
                (ms[i].0@, ms[i].1.view_json())
            } else {
                (Seq::empty(), JsonV::Null)
            },
    )
}

impl View for JsonValue {
    type V = JsonV;

    open spec fn view(&self) -> JsonV {
        self.view_json()
    }
}

/// A JSON string.
pub fn jstr(s: &str) -> (r: JsonValue)
    ensures
        r@ == JsonV::Str(s@),
{
    JsonValue::Str(s.to_owned())
}

/// The JSON string `prefix.slug`.
pub fn jscoped(prefix: &str, slug: &str) -> (r: JsonValue)
    ensures
        r@ == JsonV::Str(prefix@ + "."@ + slug@),
{
    let a = join2(prefix, ".");
    JsonValue::Str(join2(a.as_str(), slug))
}

/// An empty member list.
pub fn members() -> (r: Vec<(String, JsonValue)>)
    ensures
        members_v(r@) == Seq::<(Seq<char>, JsonV)>::empty(),
{
    let r: Vec<(String, JsonValue)> = Vec::new();
    assert(members_v(r@) =~= Seq::<(Seq<char>, JsonV)>::empty());
    r
}

/// Append the member `k: v`.
pub fn push_member(ms: &mut Vec<(String, JsonValue)>, k: &str, v: JsonValue)
    ensures
        members_v(final(ms)@) == members_v(old(ms)@).push((k@, v@)),
{
    let ghost vv = v@;
    ms.push((k.to_owned(), v));
    assert(members_v(ms@) =~= members_v(old(ms)@).push((k@, vv)));
}

/// An empty item list.
pub fn items() -> (r: Vec<JsonValue>)
    ensures
        items_v(r@) == Seq::<JsonV>::empty(),
{
    let r: Vec<JsonValue> = Vec::new();
    assert(items_v(r@) =~= Seq::<JsonV>::empty());
    r
}

/// Append the item `v`.
pub fn push_item(xs: &mut Vec<JsonValue>, v: JsonValue)
    ensures
        items_v(final(xs)@) == items_v(old(xs)@).push(v@),
{
    let ghost vv = v@;
    xs.push(v);
    assert(items_v(xs@) =~= items_v(old(xs)@).push(vv));
}

} // verus!
