//! What the library asks of `serde_json`: parsing a text, and reading a parsed value.
use serde_json::Value;
use vstd::prelude::*;

verus! {

/// The mathematical content of a JSON value.
///
/// An integer is a number that the parser keeps as a whole number (between `i64::MIN` and
/// `u64::MAX`); any other number is kept as a double, given here by its bits.
pub enum Json {
    Null,
    Bool(bool),
    Integer(int),
    Double(u64),
    Text(Seq<char>),
    Array(Seq<Json>),
    Object(Map<Seq<char>, Json>),
}

impl Json {
    /// The member of that name, where this is an object that has one.
    pub open spec fn member(self, name: Seq<char>) -> Option<Json> {
        match self {
            Json::Object(members) if members.contains_key(name) => Some(members[name]),
            _ => None,
        }
    }

    /// The value as an `i64`, where it is an integer in that range.
    pub open spec fn integer(self) -> Option<i64> {
        match self {
            Json::Integer(n) if i64::MIN <= n <= i64::MAX => Some(n as i64),
            _ => None,
        }
    }

    /// The characters of a JSON string.
    pub open spec fn text(self) -> Option<Seq<char>> {
        match self {
            Json::Text(s) => Some(s),
            _ => None,
        }
    }
}

/// A member is what an object holds under its name, and nothing else has members.
pub proof fn members_are_held_by_objects(value: Json, name: Seq<char>)
    ensures
        value matches Json::Object(held) ==> held.contains_key(name) ==> value.member(name) == Some(
            held[name],
        ),
        value.member(name) is Some ==> value is Object && value->Object_0.contains_key(name),
        value.integer() matches Some(n) ==> value == Json::Integer(n as int),
        value matches Json::Integer(n) ==> i64::MIN <= n <= i64::MAX ==> value.integer() is Some,
        value matches Json::Text(s) ==> value.text() == Some(s),
        value.text() is Some ==> value is Text,
{
}

/// Trusted: `serde_json::Value`, one parsed JSON value.
#[verifier::external_type_specification]
#[verifier::external_body]
pub struct ExValue(serde_json::Value);

/// What a `serde_json::Value` holds: its members, where it is an object, its characters, where it
/// is a string, and so on.
pub uninterp spec fn content(value: serde_json::Value) -> Json;

/// The value that a text denotes, where `serde_json` takes it for JSON.
pub uninterp spec fn parsed(text: Seq<char>) -> Option<Json>;

/// The compact JSON text that `serde_json` gives a value.
pub uninterp spec fn rendered(value: Json) -> Seq<char>;

/// Trusted: `serde_json::from_str`, read as a `Value`. What comes back is a function of the text
/// alone; `None` stands for a text that the parser refuses.
#[verifier::external_body]
pub(crate) fn parse(text: &str) -> (r: Option<Value>)
    ensures
        r is Some <==> parsed(text@) is Some,
        r matches Some(value) ==> parsed(text@) == Some(content(value)),
{
    serde_json::from_str::<Value>(text).ok()
}

/// Trusted: `Value::get` with a string index gives the member of that name, and nothing where
/// the value is no object or has no such member.
#[verifier::external_body]
pub(crate) fn member<'a>(value: &'a Value, name: &str) -> (r: Option<&'a Value>)
    ensures
        r is Some <==> content(*value).member(name@) is Some,
        r matches Some(found) ==> content(*value).member(name@) == Some(content(*found)),
{
    value.get(name)
}

/// Trusted: `Value::as_i64` gives an integer that fits, and nothing for any other value.
#[verifier::external_body]
pub(crate) fn as_integer(value: &Value) -> (r: Option<i64>)
    ensures
        r == content(*value).integer(),
{
    value.as_i64()
}

/// Trusted: `Value::as_str` gives the characters of a string, and nothing for any other value.
#[verifier::external_body]
pub(crate) fn as_text(value: &Value) -> (r: Option<&str>)
    ensures
        r is Some <==> content(*value).text() is Some,
        r matches Some(s) ==> content(*value).text() == Some(s@),
{
    value.as_str()
}

/// Trusted: the `Display` form of a `Value` is its compact JSON text, which depends on what the
/// value holds and on nothing else; the members of an object come in the order of their names.
#[verifier::external_body]
pub(crate) fn render(value: &Value) -> (r: String)
    ensures
        r@ == rendered(content(*value)),
{
    value.to_string()
}

/// Trusted: `Value::Object` over `serde_json::Map::new` is an object without members.
#[verifier::external_body]
pub(crate) fn empty_object() -> (r: Value)
    ensures
        content(r) == Json::Object(Map::empty()),
{
    Value::Object(serde_json::Map::new())
}

/// Trusted: assigning through `Value`'s `IndexMut` with a string index gives an object the member
/// of that name, in place of the one that it had, and leaves the other members alone.
#[verifier::external_body]
pub(crate) fn set_member(object: &mut Value, name: &str, value: Value)
    requires
        content(*old(object)) is Object,
    ensures
        content(*final(object)) == Json::Object(
            content(*old(object))->Object_0.insert(name@, content(value)),
        ),
{
    object[name] = value;
}

/// Trusted: `Value::Null` is the JSON null.
#[verifier::external_body]
pub(crate) fn null_value() -> (r: Value)
    ensures
        content(r) == Json::Null,
{
    Value::Null
}

/// Trusted: `Value::Bool` is the JSON value of that boolean.
#[verifier::external_body]
pub(crate) fn bool_value(b: bool) -> (r: Value)
    ensures
        content(r) == Json::Bool(b),
{
    Value::Bool(b)
}

/// Trusted: `Value::from` makes of an `i64` the JSON number that is that integer.
#[verifier::external_body]
pub(crate) fn integer_value(n: i64) -> (r: Value)
    ensures
        content(r) == Json::Integer(n as int),
{
    Value::from(n)
}

/// Trusted: `Value::String` is the JSON string of those characters.
#[verifier::external_body]
pub(crate) fn text_value(s: &str) -> (r: Value)
    ensures
        content(r) == Json::Text(s@),
{
    Value::String(s.to_string())
}

/// Trusted: `Value::clone` gives a value that holds the same.
#[verifier::external_body]
pub(crate) fn copy_of(value: &Value) -> (r: Value)
    ensures
        content(r) == content(*value),
{
    value.clone()
}

} // verus!
