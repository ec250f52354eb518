//! JSON encoding of strings and string lists, done by `serde_json`.
use vstd::prelude::*;

use crate::credentials::opt_view;
use crate::text::views;

verus! {

/// The items of a list of strings as JSON, each a JSON string, separated
/// by commas.
pub open spec fn json_items(items: Seq<Seq<char>>) -> Seq<char>
    decreases items.len(),
{
    if items.len() == 0 {
        Seq::empty()
    } else if items.len() == 1 {
        json_string_text(items[0])
    } else {
        json_items(items.drop_last()) + seq![','] + json_string_text(items.last())
    }
}

/// The JSON text that `serde_json::to_string` writes for a list of
/// strings: in brackets, the items as JSON strings separated by commas,
/// with no white space.
pub open spec fn json_string_list(items: Seq<Seq<char>>) -> Seq<char> {
    seq!['['] + json_items(items) + seq![']']
}

/// The list of strings that `serde_json::from_str` reads from a JSON text,
/// or `None` where it refuses the text.
pub uninterp spec fn json_parsed_string_list(text: Seq<char>) -> Option<Seq<Seq<char>>>;

/// `serde_json::to_string` on a list of strings; its result is
/// `json_string_list` of them. It succeeds: serde_json fails only where a value's
/// `Serialize` fails or a map has keys that are not strings, and a list of
/// strings written into a `Vec<u8>` does neither.
#[verifier::external_body]
pub(crate) fn encode_string_list(items: &Vec<String>) -> (r: Result<String, String>)
    ensures
        r is Ok,
        r matches Ok(s) ==> s@ == json_string_list(views(items@)),
{
    serde_json::to_string(items).map_err(|e| e.to_string())
}

/// `serde_json::from_str` into a list of strings. What it reads, or that it
/// refuses the text, is named by `json_parsed_string_list`; the error is
/// returned as text.
#[verifier::external_body]
pub(crate) fn decode_string_list(text: &str) -> (r: Result<Vec<String>, String>)
    ensures
        match r {
            Ok(v) => json_parsed_string_list(text@) == Some(views(v@)),
            Err(_) => json_parsed_string_list(text@) is None,
        },
{
    serde_json::from_str::<Vec<String>>(text).map_err(|e| e.to_string())
}

/// A lower-case hexadecimal digit.
pub open spec fn hex_digit(d: int) -> char {
    if d < 10 {
        ('0' as int + d) as char
    } else {
        ('a' as int + d - 10) as char
    }
}

/// How `serde_json` writes a character inside a JSON string: `"` and `\`
/// escaped by a backslash; backspace, tab, line feed, form feed and
/// carriage return as `\b`, `\t`, `\n`, `\f`, `\r`; any other character
/// below U+0020 as `\u00` and two lower-case hex digits; anything else as
/// it is.
pub open spec fn escaped_char(c: char) -> Seq<char> {
    let x = c as int;
    if c == '"' {
        seq!['\\', '"']
    } else if c == '\\' {
        seq!['\\', '\\']
    } else if x == 8 {
        seq!['\\', 'b']
    } else if x == 9 {
        seq!['\\', 't']
    } else if x == 10 {
        seq!['\\', 'n']
    } else if x == 12 {
        seq!['\\', 'f']
    } else if x == 13 {
        seq!['\\', 'r']
    } else if x < 32 {
        seq!['\\', 'u', '0', '0', hex_digit(x / 16), hex_digit(x % 16)]
    } else {
        seq![c]
    }
}

/// A string with each character written as `escaped_char` writes it.
pub open spec fn escaped(s: Seq<char>) -> Seq<char>
    decreases s.len(),
{
    if s.len() == 0 {
        Seq::empty()
    } else {
        escaped(s.drop_last()) + escaped_char(s.last())
    }
}

/// The JSON text that `serde_json::to_string` writes for a string: the
/// string, escaped, in double quotes.
pub open spec fn json_string_text(s: Seq<char>) -> Seq<char> {
    seq!['"'] + escaped(s) + seq!['"']
}

/// The string that `serde_json::from_str` reads from a JSON text, or `None`
/// where the text is not a JSON string.
pub uninterp spec fn json_string_content(text: Seq<char>) -> Option<Seq<char>>;

/// `serde_json::to_string` on a string. Its result is `json_string_text`
/// of it: a quoted JSON string, which
/// `serde_json::from_str` reads back as the same string. It succeeds, as
/// a string's `Serialize` does not fail and writing into a `Vec<u8>` cannot.
#[verifier::external_body]
pub(crate) fn encode_string(s: &str) -> (r: Result<String, String>)
    ensures
        r is Ok,
        r matches Ok(t) ==> t@ == json_string_text(s@),
        r matches Ok(t) ==> t@.len() > 0 && t@[0] == '"',
        r matches Ok(t) ==> json_string_content(t@) == Some(s@),
{
    serde_json::to_string(s).map_err(|e| e.to_string())
}

/// `serde_json::from_str` into a string; `None` where the text is not a
/// JSON string. What it reads is named by `json_string_content`.
#[verifier::external_body]
pub(crate) fn decode_string(text: &str) -> (r: Option<String>)
    ensures
        opt_view(r) == json_string_content(text@),
{
    serde_json::from_str::<String>(text).ok()
}

} // verus!
