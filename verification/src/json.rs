//! JSON documents as the host reads and writes them.
//!
//! Parsing and printing are done by `serde_json`; this module gives the
//! library a mathematical picture of a `serde_json::Value` (`JsonView`) and
//! the few accessors and constructors that the host's logic uses, each with
//! a contract stated over that picture.
use vstd::prelude::*;

verus! {

/// A JSON number as `serde_json` holds it: a non-negative integer that fits
/// in a `u64`, a negative integer that fits in an `i64`, or a floating-point
/// number, identified by its printed form.
pub enum NumberView {
    UInt(u64),
    NegInt(i64),
    Other(Seq<char>),
}

/// The mathematical content of a JSON value.
pub enum JsonView {
    Null,
    Bool(bool),
    Number(NumberView),
    Str(Seq<char>),
    Array(Seq<JsonView>),
    Object(Map<Seq<char>, JsonView>),
}

#[verifier::external_type_specification]
#[verifier::external_body]
pub struct ExJsonValue(serde_json::Value);

/// What a `serde_json::Value` holds.
pub uninterp spec fn json_view(v: serde_json::Value) -> JsonView;

/// What `serde_json::from_str::<serde_json::Value>` yields on a text.
pub uninterp spec fn parsed_text(text: Seq<char>) -> Option<JsonView>;

/// What `serde_json::from_slice::<serde_json::Value>` yields on bytes.
pub uninterp spec fn parsed_bytes(bytes: Seq<u8>) -> Option<JsonView>;

/// The compact text that `serde_json` prints for a value.
pub uninterp spec fn printed(v: JsonView) -> Seq<char>;

/// The field `key` of an object; `None` for a missing key or a non-object.
pub open spec fn field(v: JsonView, key: Seq<char>) -> Option<JsonView> {
    match v {
        JsonView::Object(m) => if m.contains_key(key) {
            Some(m[key])
        } else {
            None
        },
        _ => None,
    }
}

pub open spec fn str_of(v: JsonView) -> Option<Seq<char>> {
    match v {
        JsonView::Str(s) => Some(s),
        _ => None,
    }
}

pub open spec fn u64_of(v: JsonView) -> Option<u64> {
    match v {
        JsonView::Number(NumberView::UInt(u)) => Some(u),
        _ => None,
    }
}

pub open spec fn array_of(v: JsonView) -> Option<Seq<JsonView>> {
    match v {
        JsonView::Array(a) => Some(a),
        _ => None,
    }
}

pub open spec fn field_str(v: JsonView, key: Seq<char>) -> Option<Seq<char>> {
    match field(v, key) {
        Some(f) => str_of(f),
        None => None,
    }
}

pub open spec fn field_u64(v: JsonView, key: Seq<char>) -> Option<u64> {
    match field(v, key) {
        Some(f) => u64_of(f),
        None => None,
    }
}

pub open spec fn views_of(vs: Seq<serde_json::Value>) -> Seq<JsonView> {
    vs.map_values(|x: serde_json::Value| json_view(x))
}

/// The object whose fields are the given pairs.
pub open spec fn object_of(pairs: Seq<(Seq<char>, JsonView)>) -> Map<Seq<char>, JsonView>
    decreases pairs.len(),
{
    if pairs.len() == 0 {
        Map::empty()
    } else {
        object_of(pairs.drop_last()).insert(pairs.last().0, pairs.last().1)
    }
}

pub open spec fn keys_distinct(keys: Seq<Seq<char>>) -> bool {
    forall|i: int, j: int| 0 <= i < j < keys.len() ==> keys[i] != keys[j]
}

/// The message of the error `serde_json::from_str::<serde_json::Value>`
/// reports on a text it cannot parse (its `Display`, with line and column).
pub uninterp spec fn parse_error_text(text: Seq<char>) -> Seq<char>;

/// Parses a text with `serde_json::from_str`; the error is carried as its
/// message. Claims: the value is the one `parsed_text` names, the call
/// fails exactly where `parsed_text` is `None`, and the message is the one
/// `parse_error_text` names.
#[verifier::external_body]
pub(crate) fn parse_text(text: &str) -> (r: Result<serde_json::Value, String>)
    ensures
        r is Ok <==> parsed_text(text@) is Some,
        r matches Ok(v) ==> parsed_text(text@) == Some(json_view(v)),
        r matches Err(m) ==> m@ == parse_error_text(text@),
{
    serde_json::from_str::<serde_json::Value>(text).map_err(|e| e.to_string())
}

/// Parses bytes with `serde_json::from_slice`. Claims: the value is the
/// one `parsed_bytes` names, and `None` exactly where that is `None`.
#[verifier::external_body]
pub(crate) fn parse_bytes(bytes: &[u8]) -> (r: Option<serde_json::Value>)
    ensures
        r is Some <==> parsed_bytes(bytes@) is Some,
        r matches Some(v) ==> parsed_bytes(bytes@) == Some(json_view(v)),
{
    serde_json::from_slice::<serde_json::Value>(bytes).ok()
}

/// `Value::get` with a string key. Claims: the field of an object, `None`
/// for a missing key or a value that is not an object.
#[verifier::external_body]
pub(crate) fn get<'a>(v: &'a serde_json::Value, key: &str) -> (r: Option<&'a serde_json::Value>)
    ensures
        r is Some <==> field(json_view(*v), key@) is Some,
        r matches Some(f) ==> field(json_view(*v), key@) == Some(json_view(*f)),
{
    v.get(key)
}

/// `Value::as_str`. Claims: the text of a string value, `None` otherwise.
#[verifier::external_body]
pub(crate) fn as_str(v: &serde_json::Value) -> (r: Option<&str>)
    ensures
        r is Some <==> str_of(json_view(*v)) is Some,
        r matches Some(s) ==> str_of(json_view(*v)) == Some(s@),
{
    v.as_str()
}

/// `Value::as_u64`. Claims: the integer of a number held as a
/// non-negative integer, `None` for any other value.
#[verifier::external_body]
pub(crate) fn as_u64(v: &serde_json::Value) -> (r: Option<u64>)
    ensures
        r == u64_of(json_view(*v)),
{
    v.as_u64()
}

/// `Value::as_array`. Claims: the elements of an array, `None` otherwise.
#[verifier::external_body]
pub(crate) fn as_array(v: &serde_json::Value) -> (r: Option<&Vec<serde_json::Value>>)
    ensures
        r is Some <==> array_of(json_view(*v)) is Some,
        r matches Some(a) ==> array_of(json_view(*v)) == Some(views_of(a@)),
{
    v.as_array()
}

/// A value that `serde_json` reads back exactly as it printed it: integers
/// only (no floating-point number), and arrays and objects nested at most
/// `depth` deep.
pub open spec fn json_ok(v: JsonView, depth: nat) -> bool
    decreases depth,
{
    match v {
        JsonView::Number(NumberView::Other(_)) => false,
        JsonView::Array(a) => depth > 0 && forall|i: int|
            0 <= i < a.len() ==> json_ok(#[trigger] a[i], (depth - 1) as nat),
        JsonView::Object(m) => depth > 0 && forall|k: Seq<char>|
            #[trigger] m.contains_key(k) ==> json_ok(m[k], (depth - 1) as nat),
        _ => true,
    }
}

/// The compact text of a value (`Display` of `serde_json::Value`, the
/// same text as `serde_json::to_string`). Claims: the text `printed` names;
/// it holds no raw line feed or carriage return (the compact printer writes
/// no whitespace and escapes control characters in strings); and
/// `serde_json::from_str` reads it back to the same value when the value
/// holds no floating-point number and is nested at most 127 deep (the
/// parser refuses the 128th level; the printer writes strings and integers
/// exactly, and a printed negative integer is read back as that `i64`).
#[verifier::external_body]
pub(crate) fn print(v: &serde_json::Value) -> (r: String)
    ensures
        r@ == printed(json_view(*v)),
        forall|i: int| 0 <= i < r@.len() ==> #[trigger] r@[i] != '\n' && r@[i] != '\r',
        json_ok(json_view(*v), 127) ==> parsed_text(r@) == Some(json_view(*v)),
{
    v.to_string()
}

/// `Value::String`. Claims: a string value with the given text.
#[verifier::external_body]
pub(crate) fn string(s: &str) -> (r: serde_json::Value)
    ensures
        json_view(r) == JsonView::Str(s@),
{
    serde_json::Value::String(s.to_string())
}

/// `Value::from(u64)`. Claims: a number held as that integer.
#[verifier::external_body]
pub(crate) fn uint(u: u64) -> (r: serde_json::Value)
    ensures
        json_view(r) == JsonView::Number(NumberView::UInt(u)),
{
    serde_json::Value::from(u)
}

/// `Value::Bool`. Claims: the boolean value.
#[verifier::external_body]
pub(crate) fn boolean(b: bool) -> (r: serde_json::Value)
    ensures
        json_view(r) == JsonView::Bool(b),
{
    serde_json::Value::Bool(b)
}

/// `Value::Array`. Claims: an array of the given elements, in order.
#[verifier::external_body]
pub(crate) fn array(items: Vec<serde_json::Value>) -> (r: serde_json::Value)
    ensures
        json_view(r) == JsonView::Array(views_of(items@)),
{
    serde_json::Value::Array(items)
}

/// `Value::Object` collected from pairs with distinct keys. Claims: the
/// object with exactly those fields.
#[verifier::external_body]
pub(crate) fn object(pairs: Vec<(String, serde_json::Value)>) -> (r: serde_json::Value)
    requires
        keys_distinct(pairs@.map_values(|p: (String, serde_json::Value)| p.0@)),
    ensures
        json_view(r) == JsonView::Object(
            object_of(
                pairs@.map_values(|p: (String, serde_json::Value)| (p.0@, json_view(p.1))),
            ),
        ),
{
    serde_json::Value::Object(pairs.into_iter().collect())
}

/// Sets a field of an object (`Map::insert` on `as_object_mut`).
/// Claims: an object gains or replaces that key; any other value is left
/// as it was.
#[verifier::external_body]
pub(crate) fn insert_field(v: &mut serde_json::Value, key: &str, val: serde_json::Value)
    ensures
        json_view(*final(v)) == (match json_view(*old(v)) {
            JsonView::Object(m) => JsonView::Object(m.insert(key@, json_view(val))),
            other => other,
        }),
{
    if let Some(m) = v.as_object_mut() {
        m.insert(key.to_string(), val);
    }
}

/// Removes a field from an object (`Map::remove` on `as_object_mut`).
/// Claims: an object loses that key; any other value is left as it was.
#[verifier::external_body]
pub(crate) fn remove_field(v: &mut serde_json::Value, key: &str)
    ensures
        json_view(*final(v)) == (match json_view(*old(v)) {
            JsonView::Object(m) => JsonView::Object(m.remove(key@)),
            other => other,
        }),
{
    if let Some(m) = v.as_object_mut() {
        m.remove(key);
    }
}

} // verus!
