//! JSON values, as `serde_json` builds and reads them.

use vstd::prelude::*;

verus! {

/// What a JSON value says: the tree that its text would show.
#[verifier::ext_equal]
pub enum JsonView {
    Null,
    Bool(bool),
    /// A number that is held as an integer.
    Integer(int),
    /// A number that is held as a floating point number.
    Float,
    Text(Seq<char>),
    Array(Seq<JsonView>),
    Object(Map<Seq<char>, JsonView>),
}

/// `serde_json::Value`, a JSON value.
#[verifier::external_type_specification]
#[verifier::external_body]
pub struct ExValue(serde_json::Value);

/// What a `serde_json::Value` holds. Its six variants are those of [`JsonView`], with
/// numbers told apart by whether they are held as integers.
pub uninterp spec fn json_view(value: serde_json::Value) -> JsonView;

/// `serde_json::Value::from` on a string slice: the JSON string of these
/// characters.
#[verifier::external_body]
pub(crate) fn json_text(text: &str) -> (value: serde_json::Value)
    ensures
        json_view(value) == JsonView::Text(text@),
{
    serde_json::Value::from(text)
}

/// `serde_json::Value::from` on an `i64`: the JSON number of this integer.
#[verifier::external_body]
pub(crate) fn json_integer(number: i64) -> (value: serde_json::Value)
    ensures
        json_view(value) == JsonView::Integer(number as int),
{
    serde_json::Value::from(number)
}

/// `serde_json::Value::from` on a `usize`: the JSON number of this integer.
#[verifier::external_body]
pub(crate) fn json_size(number: usize) -> (value: serde_json::Value)
    ensures
        json_view(value) == JsonView::Integer(number as int),
{
    serde_json::Value::from(number)
}

/// `serde_json::Value::from` on a vector of values: the JSON array of these
/// values, in order.
#[verifier::external_body]
pub(crate) fn json_array(items: Vec<serde_json::Value>) -> (value: serde_json::Value)
    ensures
        json_view(value) == JsonView::Array(
            items@.map_values(|item: serde_json::Value| json_view(item)),
        ),
{
    serde_json::Value::from(items)
}

/// `serde_json::Map::new`: the JSON object without members.
#[verifier::external_body]
pub(crate) fn json_object() -> (value: serde_json::Value)
    ensures
        json_view(value) == JsonView::Object(Map::empty()),
{
    serde_json::Value::Object(serde_json::Map::new())
}

/// Assignment through `serde_json::Value::index_mut` with a string key: on an
/// object it sets the member of that name and leaves the other members alone.
/// On a value that is neither an object nor null it would panic.
#[verifier::external_body]
pub(crate) fn json_set(object: &mut serde_json::Value, key: &str, member: serde_json::Value)
    requires
        json_view(*old(object)) is Object,
    ensures
        json_view(*final(object)) == JsonView::Object(
            json_view(*old(object))->Object_0.insert(key@, json_view(member)),
        ),
{
    object[key] = member;
}

/// `serde_json::Value::get` with a string key: the member of that name, where
/// the value is an object and has one.
#[verifier::external_body]
pub(crate) fn json_get<'a>(value: &'a serde_json::Value, key: &str) -> (member: Option<
    &'a serde_json::Value,
>)
    ensures
        match member {
            Some(found) => json_view(*value) is Object
                && json_view(*value)->Object_0.contains_pair(key@, json_view(*found)),
            None => json_view(*value) is Object
                ==> !json_view(*value)->Object_0.dom().contains(key@),
        },
{
    value.get(key)
}

/// `serde_json::Value::as_i64`: the integer that the value is, where it is one
/// and an `i64` can hold it.
#[verifier::external_body]
pub(crate) fn json_as_i64(value: &serde_json::Value) -> (number: Option<i64>)
    ensures
        match number {
            Some(n) => json_view(*value) == JsonView::Integer(n as int),
            None => json_view(*value) is Integer ==> !(i64::MIN
                <= json_view(*value)->Integer_0 <= i64::MAX),
        },
{
    value.as_i64()
}

} // verus!
