//! The calls this library makes into `serde_json`.
//!
//! Each item here is trusted: its contract restates what the crate's source
//! shows, and is not proved.
use vstd::prelude::*;

verus! {

/// The lowercase hexadecimal digit of `n` (below 16).
pub open spec fn hex_digit(n: int) -> char {
    seq!['0', '1', '2', '3', '4', '5', '6', '7', '8', '9', 'a', 'b', 'c', 'd', 'e', 'f'][n]
}

/// How serde_json writes a character inside a JSON string: `"` and `\` get a
/// backslash, backspace, tab, line feed, form feed and carriage return get their
/// short escapes, the other control characters below U+0020 become `\u00XX`
/// (lowercase hex), and everything else stands as it is.
pub open spec fn json_escape_char(c: char) -> Seq<char> {
    if c == '"' {
        seq!['\\', '"']
    } else if c == '\\' {
        seq!['\\', '\\']
    } else if c == '\x08' {
        seq!['\\', 'b']
    } else if c == '\t' {
        seq!['\\', 't']
    } else if c == '\n' {
        seq!['\\', 'n']
    } else if c == '\x0C' {
        seq!['\\', 'f']
    } else if c == '\r' {
        seq!['\\', 'r']
    } else if (c as u32) < 0x20 {
        seq!['\\', 'u', '0', '0', hex_digit((c as u32) as int / 16), hex_digit((c as u32) as int % 16)]
    } else {
        seq![c]
    }
}

/// The characters of a string as serde_json escapes them, in order.
pub open spec fn json_escaped(s: Seq<char>) -> Seq<char>
    decreases s.len(),
{
    if s.len() == 0 {
        seq![]
    } else {
        json_escaped(s.drop_last()) + json_escape_char(s.last())
    }
}

/// What `serde_json::to_string` gives for a string slice: the JSON string
/// literal for it, the escaped characters between double quotes. Serialising a
/// string into memory never fails, so it is always `Some`.
pub open spec fn json_quoted(s: Seq<char>) -> Option<Seq<char>> {
    Some(seq!['"'] + json_escaped(s) + seq!['"'])
}

/// What parsing `line` as a `serde_json::Value` and reading its member `key`
/// as a string gives: `None` when the line is no JSON, is no object, has no
/// such member, or the member is no string.
pub uninterp spec fn json_string_member(line: Seq<char>, key: Seq<char>) -> Option<Seq<char>>;

/// The character view of an optional string.
pub open spec fn opt_view(o: Option<String>) -> Option<Seq<char>> {
    match o {
        Some(s) => Some(s@),
        None => None,
    }
}

/// `serde_json::to_string` on a string slice: the JSON string literal for it
/// (`format_escaped_str` with the escape table of `ser.rs`); writing into a
/// `Vec` cannot fail, so there is no error to turn into `None`.
#[verifier::external_body]
pub(crate) fn json_quote(s: &str) -> (r: Option<String>)
    ensures
        opt_view(r) == json_quoted(s@),
{
    serde_json::to_string(s).ok()
}

/// `serde_json::from_str::<serde_json::Value>`, then `Value::get(key)` and
/// `Value::as_str`; a parse error or a missing or non-string member gives `None`.
#[verifier::external_body]
pub(crate) fn json_string_field(line: &str, key: &str) -> (r: Option<String>)
    ensures
        opt_view(r) == json_string_member(line@, key@),
{
    let value: serde_json::Value = serde_json::from_str(line).ok()?;
    let member = value.get(key)?.as_str()?;
    Some(member.to_string())
}

} // verus!
