use vstd::prelude::*;

verus! {

#[verifier::external_type_specification]
#[verifier::external_body]
pub struct ExValue(serde_json::Value);

#[verifier::external_type_specification]
#[verifier::external_body]
pub struct ExJsonError(serde_json::Error);

/// A lower-case hexadecimal digit, for `n < 16`.
pub open spec fn hex_digit(n: nat) -> char {
    if n < 10 {
        (n + 48) as char
    } else {
        (n + 87) as char
    }
}

/// How a JSON string literal writes `c`: `"` and `\` and the control characters are
/// escaped, the latter by a short form where one exists and else as `\u00xx`.
pub open spec fn escaped_char(c: char) -> Seq<char> {
    let n = c as nat;
    if c == '"' {
        seq!['\\', '"']
    } else if c == '\\' {
        seq!['\\', '\\']
    } else if n == 8 {
        seq!['\\', 'b']
    } else if n == 9 {
        seq!['\\', 't']
    } else if n == 10 {
        seq!['\\', 'n']
    } else if n == 12 {
        seq!['\\', 'f']
    } else if n == 13 {
        seq!['\\', 'r']
    } else if n < 32 {
        seq!['\\', 'u', '0', '0', hex_digit(n / 16), hex_digit(n % 16)]
    } else {
        seq![c]
    }
}

/// The characters of `s`, each escaped.
pub open spec fn escaped(s: Seq<char>) -> Seq<char>
    decreases s.len(),
{
    if s.len() == 0 {
        Seq::empty()
    } else {
        escaped(s.drop_last()) + escaped_char(s.last())
    }
}

/// The JSON string literal that writes `s`, quotes and escapes included.
pub open spec fn json_quoted(s: Seq<char>) -> Seq<char> {
    seq!['"'] + escaped(s) + seq!['"']
}

/// The compact JSON text of a value.
pub uninterp spec fn json_written(v: serde_json::Value) -> Seq<char>;

/// The value that a JSON text writes, if it is valid JSON.
pub uninterp spec fn json_parsed(s: Seq<char>) -> Option<serde_json::Value>;

/// The items of a value, if it is an array.
pub uninterp spec fn array_items(v: serde_json::Value) -> Option<Seq<serde_json::Value>>;

/// The text of a value, if it is a string.
pub uninterp spec fn string_text(v: serde_json::Value) -> Option<Seq<char>>;

/// The field `key` of a value, if it is an object that has that field.
pub uninterp spec fn field_value(v: serde_json::Value, key: Seq<char>) -> Option<serde_json::Value>;

/// Relies on `serde_json::to_string` for a `str`: the string literal, with the escapes
/// of its `ESCAPE` table; writing into a `Vec` does not fail.
#[verifier::external_body]
pub(crate) fn quote(s: &str) -> (r: Result<String, serde_json::Error>)
    ensures
        r is Ok,
        r->Ok_0@ == json_quoted(s@),
{
    serde_json::to_string(s)
}

/// Relies on `serde_json::to_string` for a `Value`: its compact JSON text; a `Value`
/// has string keys only, so writing it does not fail.
#[verifier::external_body]
pub(crate) fn value_text(v: &serde_json::Value) -> (r: Result<String, serde_json::Error>)
    ensures
        r is Ok,
        r->Ok_0@ == json_written(*v),
{
    serde_json::to_string(v)
}

/// Relies on `serde_json::from_str` for a `Value`: the value that the JSON text writes.
#[verifier::external_body]
pub(crate) fn parse_value(s: &str) -> (r: Result<serde_json::Value, serde_json::Error>)
    ensures
        (r is Ok) == (json_parsed(s@) is Some),
        r is Ok ==> r->Ok_0 == json_parsed(s@)->Some_0,
{
    serde_json::from_str(s)
}

/// Relies on the variants of `serde_json::Value`: the items of an array, or the value
/// itself when it is no array.
#[verifier::external_body]
pub(crate) fn into_array(v: serde_json::Value) -> (r: Result<Vec<serde_json::Value>, serde_json::Value>)
    ensures
        (r is Ok) == (array_items(v) is Some),
        r is Ok ==> r->Ok_0@ == array_items(v)->Some_0,
{
    match v {
        serde_json::Value::Array(items) => Ok(items),
        other => Err(other),
    }
}

/// Relies on the variants of `serde_json::Value`: the text of a string, or the value
/// itself when it is no string.
#[verifier::external_body]
pub(crate) fn into_string(v: serde_json::Value) -> (r: Result<String, serde_json::Value>)
    ensures
        (r is Ok) == (string_text(v) is Some),
        r is Ok ==> r->Ok_0@ == string_text(v)->Some_0,
{
    match v {
        serde_json::Value::String(s) => Ok(s),
        other => Err(other),
    }
}

/// Relies on `serde_json::Value::Array`: the array of those items.
#[verifier::external_body]
pub(crate) fn array_value(items: Vec<serde_json::Value>) -> (r: serde_json::Value)
    ensures
        array_items(r) == Some(items@),
{
    serde_json::Value::Array(items)
}

/// Relies on `serde_json::Value::get`: the field `key` of an object, if present.
#[verifier::external_body]
pub(crate) fn field(v: &serde_json::Value, key: &str) -> (r: Option<serde_json::Value>)
    ensures
        r == field_value(*v, key@),
{
    v.get(key).cloned()
}

} // verus!
