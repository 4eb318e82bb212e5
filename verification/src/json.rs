//! What the library reads from and writes into JSON text through
//! `serde_json`: string literals, and the values found at a JSON pointer.

use vstd::prelude::*;

verus! {

/// The lower-case hexadecimal digit of `d`, below 16.
pub open spec fn hex_digit(d: int) -> char {
    seq!['0', '1', '2', '3', '4', '5', '6', '7', '8', '9', 'a', 'b', 'c', 'd', 'e', 'f'][d]
}

/// How `serde_json` writes one character inside a string literal: a quote
/// and a backslash get a backslash, backspace, tab, line feed, form feed and
/// carriage return their short escapes, the other control characters below
/// 0x20 a `\u00XX` escape in lower-case hex, and every other character
/// stands as it is.
pub open spec fn json_char(c: char) -> Seq<char> {
    let u = c as u32;
    if c == '"' || c == '\\' {
        seq!['\\', c]
    } else if u == 8 {
        seq!['\\', 'b']
    } else if u == 9 {
        seq!['\\', 't']
    } else if u == 10 {
        seq!['\\', 'n']
    } else if u == 12 {
        seq!['\\', 'f']
    } else if u == 13 {
        seq!['\\', 'r']
    } else if u < 0x20 {
        seq!['\\', 'u', '0', '0', hex_digit((u / 16) as int), hex_digit((u % 16) as int)]
    } else {
        seq![c]
    }
}

/// The characters of `s`, each written as [`json_char`] writes it.
pub open spec fn json_escaped(s: Seq<char>) -> Seq<char>
    decreases s.len(),
{
    if s.len() == 0 {
        Seq::empty()
    } else {
        json_escaped(s.drop_last()) + json_char(s.last())
    }
}

/// What `serde_json::to_string` writes for the string `s`: the escaped
/// characters between double quotes.
pub open spec fn json_string(s: Seq<char>) -> Seq<char> {
    seq!['"'] + json_escaped(s) + seq!['"']
}

/// Calls `serde_json::to_string` on a string slice. Trusted: the result is
/// [`json_string`] of the characters, as the escape table and writer in
/// `serde_json`'s serializer produce it. Serializing a string into memory
/// cannot fail, so the error arm is never taken.
#[verifier::external_body]
pub(crate) fn json_quote(s: &str) -> (r: String)
    ensures
        r@ == json_string(s@),
{
    match serde_json::to_string(s) {
        Ok(t) => t,
        Err(_) => String::new(),
    }
}

/// What `serde_json` finds in the JSON text `body` at the JSON pointer
/// `pointer`: the string there, `None` when there is no string there, or the
/// parse error's description when `body` is not JSON.
pub uninterp spec fn json_string_at(body: Seq<char>, pointer: Seq<char>) -> Result<Option<Seq<char>>, Seq<char>>;

/// Calls `serde_json::from_str` into a `Value`, then `Value::pointer` and
/// `Value::as_str`. Trusted: the outcome is what [`json_string_at`] names
/// for the same body and pointer; JSON parsing is not spelled out.
#[verifier::external_body]
pub(crate) fn read_json_string(body: &str, pointer: &str) -> (r: Result<Option<String>, String>)
    ensures
        match r {
            Ok(Some(t)) => json_string_at(body@, pointer@) == Ok::<Option<Seq<char>>, Seq<char>>(Some(t@)),
            Ok(None) => json_string_at(body@, pointer@) == Ok::<Option<Seq<char>>, Seq<char>>(None),
            Err(d) => json_string_at(body@, pointer@) == Err::<Option<Seq<char>>, Seq<char>>(d@),
        },
{
    match serde_json::from_str::<serde_json::Value>(body) {
        Ok(v) => Ok(v.pointer(pointer).and_then(serde_json::Value::as_str).map(str::to_owned)),
        Err(e) => Err(e.to_string()),
    }
}

/// What `serde_json` finds in the JSON text `body` at `pointer`: the boolean
/// there, `None` when there is no boolean there, or the parse error's
/// description when `body` is not JSON.
pub uninterp spec fn json_bool_at(body: Seq<char>, pointer: Seq<char>) -> Result<Option<bool>, Seq<char>>;

/// Calls `serde_json::from_str` into a `Value`, then `Value::pointer` and
/// `Value::as_bool`. Trusted: the outcome is what [`json_bool_at`] names for
/// the same body and pointer.
#[verifier::external_body]
pub(crate) fn read_json_bool(body: &str, pointer: &str) -> (r: Result<Option<bool>, String>)
    ensures
        match r {
            Ok(b) => json_bool_at(body@, pointer@) == Ok::<Option<bool>, Seq<char>>(b),
            Err(d) => json_bool_at(body@, pointer@) == Err::<Option<bool>, Seq<char>>(d@),
        },
{
    match serde_json::from_str::<serde_json::Value>(body) {
        Ok(v) => Ok(v.pointer(pointer).and_then(serde_json::Value::as_bool)),
        Err(e) => Err(e.to_string()),
    }
}

/// What `serde_json` finds in the JSON text `body`: whether any value sits
/// at `pointer`, or the parse error's description when `body` is not JSON.
pub uninterp spec fn json_present_at(body: Seq<char>, pointer: Seq<char>) -> Result<bool, Seq<char>>;

/// Calls `serde_json::from_str` into a `Value`, then `Value::pointer`.
/// Trusted: the outcome is what [`json_present_at`] names for the same body
/// and pointer.
#[verifier::external_body]
pub(crate) fn read_json_present(body: &str, pointer: &str) -> (r: Result<bool, String>)
    ensures
        match r {
            Ok(b) => json_present_at(body@, pointer@) == Ok::<bool, Seq<char>>(b),
            Err(d) => json_present_at(body@, pointer@) == Err::<bool, Seq<char>>(d@),
        },
{
    match serde_json::from_str::<serde_json::Value>(body) {
        Ok(v) => Ok(v.pointer(pointer).is_some()),
        Err(e) => Err(e.to_string()),
    }
}

/// The characters the bytes `b` encode in UTF-8, or `None` when they are
/// not valid UTF-8.
pub uninterp spec fn utf8_chars(b: Seq<u8>) -> Option<Seq<char>>;

/// Calls `std::str::from_utf8`. Trusted: the text is what [`utf8_chars`]
/// names for the bytes, and there is none exactly when it names none.
#[verifier::external_body]
pub(crate) fn utf8_text(b: &[u8]) -> (r: Option<String>)
    ensures
        match r {
            Some(t) => utf8_chars(b@) == Some(t@),
            None => utf8_chars(b@) is None,
        },
{
    match std::str::from_utf8(b) {
        Ok(t) => Some(t.to_owned()),
        Err(_) => None,
    }
}

} // verus!
