//! What the library takes on trust: calls into `serde_json`, `axum` and `reqwest`, and the
//! functions of the standard library that have no specification of their own. Each item says what
//! it claims of the function it calls.

use crate::text;
use vstd::prelude::*;
use vstd::utf8::*;

verus! {

// ---------------------------------------------------------------------------
// Standard library
// ---------------------------------------------------------------------------

/// The lower-case form of a text, as `str::to_lowercase` gives it.
pub uninterp spec fn lowercase(s: Seq<char>) -> Seq<char>;

/// The upper-case form of a text, as `str::to_uppercase` gives it.
pub uninterp spec fn uppercase(s: Seq<char>) -> Seq<char>;

/// The text of a byte sequence, as `String::from_utf8_lossy` gives it.
pub uninterp spec fn utf8_lossy(b: Seq<u8>) -> Seq<char>;

/// A list of texts in the form that `{:?}` prints.
pub uninterp spec fn debug_list(v: Seq<Seq<char>>) -> Seq<char>;

/// `str::to_lowercase`: the Unicode lower-case form, a function of the text alone. On an ASCII
/// text it lower-cases the letters one by one and leaves the rest.
#[verifier::external_body]
pub(crate) fn to_lowercase(s: &str) -> (r: String)
    ensures
        r@ == lowercase(s@),
        is_ascii_chars(s@) ==> r@ == text::lower_ascii(s@),
{
    s.to_lowercase()
}

/// `str::to_uppercase`: the Unicode upper-case form, a function of the text alone. An ASCII letter
/// has one upper-case form, whichever case it is given in, so the case of the ASCII letters does
/// not matter. On an ASCII text it upper-cases the letters one by one and leaves the rest.
#[verifier::external_body]
pub(crate) fn to_uppercase(s: &str) -> (r: String)
    ensures
        r@ == uppercase(s@),
        r@ == uppercase(text::lower_ascii(s@)),
        is_ascii_chars(s@) ==> r@ == text::upper_ascii(s@),
{
    s.to_uppercase()
}

/// `String::from_utf8_lossy`: the text that the bytes encode where they are valid UTF-8, and
/// otherwise one that depends on the bytes alone.
#[verifier::external_body]
pub(crate) fn from_utf8_lossy(b: &[u8]) -> (r: String)
    ensures
        r@ == utf8_lossy(b@),
        valid_utf8(b@) ==> r@ == decode_utf8(b@),
{
    String::from_utf8_lossy(b).into_owned()
}

/// `format!` with `{:?}` on a list of strings: a function of the strings alone.
#[verifier::external_body]
pub(crate) fn format_list(v: &Vec<String>) -> (r: String)
    ensures
        r@ == debug_list(text::texts(v@)),
{
    format!("{v:?}")
}

// ---------------------------------------------------------------------------
// serde_json
// ---------------------------------------------------------------------------

/// A JSON value of `serde_json`.
#[verifier::external_type_specification]
#[verifier::external_body]
pub struct ExValue(serde_json::Value);

/// An error of `serde_json`.
#[verifier::external_type_specification]
#[verifier::external_body]
pub struct ExError(serde_json::Error);

/// The members of a JSON object whose values are strings, by key. A value that is no object has
/// none.
pub uninterp spec fn json_strings(v: serde_json::Value) -> Map<Seq<char>, Seq<char>>;

/// The string members of the JSON value that a text holds, as `serde_json::from_str` reads it;
/// `None` where it finds no JSON value.
pub uninterp spec fn json_value(text: Seq<char>) -> Option<Map<Seq<char>, Seq<char>>>;

/// The string members of each element of the JSON array that a text holds, as
/// `serde_json::from_str` reads it; `None` where it finds no JSON array.
pub uninterp spec fn json_array(text: Seq<char>) -> Option<Seq<Map<Seq<char>, Seq<char>>>>;

/// The bytes that `serde_json::to_vec_pretty` gives for an object with these members, all of
/// them strings; `None` where it fails.
pub uninterp spec fn json_pretty(members: Seq<(Seq<char>, Seq<char>)>) -> Option<Seq<u8>>;

/// The pairs of a list as texts.
pub open spec fn text_pairs(v: Seq<(String, String)>) -> Seq<(Seq<char>, Seq<char>)> {
    v.map_values(|p: (String, String)| (p.0@, p.1@))
}

/// The string members of each of the given JSON values.
pub open spec fn json_rows(v: Seq<serde_json::Value>) -> Seq<Map<Seq<char>, Seq<char>>> {
    v.map_values(|x: serde_json::Value| json_strings(x))
}

/// The characters that JSON counts as white space.
pub open spec fn json_spaces() -> spec_fn(char) -> bool {
    |c: char| c == ' ' || c == '\n' || c == '\t' || c == '\r'
}

/// A text without the JSON white space at its end.
pub open spec fn json_trimmed(text: Seq<char>) -> Seq<char> {
    text::drop_back(text, json_spaces())
}

/// `serde_json::from_str` into a `Value`: whether it succeeds, and the string members of what
/// it reads, depend on the text alone, and not on the JSON white space at its end.
#[verifier::external_body]
pub(crate) fn parse_value(s: &str) -> (r: Result<serde_json::Value, serde_json::Error>)
    ensures
        match r {
            Ok(v) => json_value(s@) == Some(json_strings(v)) && json_value(json_trimmed(s@))
                == Some(json_strings(v)),
            Err(_) => json_value(s@) is None && json_value(json_trimmed(s@)) is None,
        },
{
    serde_json::from_str(s)
}

/// `serde_json::from_str` into a `Vec<Value>`: whether it succeeds, and the string members of
/// the elements it reads, depend on the text alone.
#[verifier::external_body]
pub(crate) fn parse_array(s: &str) -> (r: Result<Vec<serde_json::Value>, serde_json::Error>)
    ensures
        match r {
            Ok(v) => json_array(s@) == Some(json_rows(v@)),
            Err(_) => json_array(s@) is None,
        },
{
    serde_json::from_str(s)
}

/// `serde_json::Value::get` with a string key, then `as_str`: the text of that member where the
/// value is an object that has it and it is a string, and `None` otherwise.
#[verifier::external_body]
pub(crate) fn member(v: &serde_json::Value, key: &str) -> (r: Option<String>)
    ensures
        match r {
            Some(t) => json_strings(*v).contains_key(key@) && json_strings(*v)[key@] == t@,
            None => !json_strings(*v).contains_key(key@),
        },
{
    v.get(key).and_then(|x| x.as_str()).map(|t| t.to_string())
}

/// `serde_json::to_vec_pretty` on an object whose members are the given strings: whether it
/// succeeds, and the bytes, depend on the members alone.
#[verifier::external_body]
pub(crate) fn to_vec_pretty(members: &Vec<(String, String)>) -> (r: Result<
    Vec<u8>,
    serde_json::Error,
>)
    ensures
        match r {
            Ok(b) => json_pretty(text_pairs(members@)) == Some(b@),
            Err(_) => json_pretty(text_pairs(members@)) is None,
        },
{
    let object: serde_json::Map<String, serde_json::Value> = members.iter().map(
        |p| (p.0.clone(), serde_json::Value::String(p.1.clone())),
    ).collect();
    serde_json::to_vec_pretty(&serde_json::Value::Object(object))
}

// ---------------------------------------------------------------------------
// HTTP
// ---------------------------------------------------------------------------

/// Whether a text is an address, as `axum::http::Uri` reads it.
pub uninterp spec fn uri_text(s: Seq<char>) -> bool;

/// An HTTP status with its reason, as `reqwest::StatusCode` displays it.
pub uninterp spec fn status_shown(code: u16) -> Seq<char>;

/// `str::parse` into an `axum::http::Uri`: whether it succeeds depends on the text alone.
#[verifier::external_body]
pub(crate) fn is_uri(s: &str) -> (r: bool)
    ensures
        r == uri_text(s@),
{
    s.parse::<axum::http::Uri>().is_ok()
}

/// `reqwest::StatusCode::from_u16`, then `Display`: succeeds from 100 to 999, and what it displays
/// depends on the code alone.
#[verifier::external_body]
pub(crate) fn status_text(code: u16) -> (r: Option<String>)
    ensures
        match r {
            Some(s) => 100 <= code <= 999 && s@ == status_shown(code),
            None => !(100 <= code <= 999),
        },
{
    reqwest::StatusCode::from_u16(code).ok().map(|s| s.to_string())
}

}
