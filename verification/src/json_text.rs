//! JSON text as the command-line tools write it: strings quoted and
//! escaped, integers in decimal, and the fixed punctuation and literals.
//!
//! Quoting and integer formatting are done by the `json_writer` crate;
//! their contracts state exactly what it appends.

use crate::placeholder::decimal;
use vstd::prelude::*;
use vstd::string::StringExecFns;

verus! {

/// The upper-case hexadecimal digit for `d` (`0 <= d < 16`).
pub open spec fn hex_digit(d: int) -> char {
    if d < 10 {
        crate::placeholder::digit_char(d as nat)
    } else if d == 10 {
        'A'
    } else if d == 11 {
        'B'
    } else if d == 12 {
        'C'
    } else if d == 13 {
        'D'
    } else if d == 14 {
        'E'
    } else {
        'F'
    }
}

/// How one character is written inside a JSON string: `"`, `\` and `/`
/// and the control characters are escaped (with the short escapes where
/// JSON has one, else `\u00XX`); every other character stands for itself.
pub open spec fn json_escape_char(c: char) -> Seq<char> {
    let v = c as int;
    if c == '"' {
        seq!['\\', '"']
    } else if c == '\\' {
        seq!['\\', '\\']
    } else if c == '/' {
        seq!['\\', '/']
    } else if v == 8 {
        seq!['\\', 'b']
    } else if v == 12 {
        seq!['\\', 'f']
    } else if v == 10 {
        seq!['\\', 'n']
    } else if v == 13 {
        seq!['\\', 'r']
    } else if v == 9 {
        seq!['\\', 't']
    } else if v < 32 {
        seq!['\\', 'u', '0', '0', hex_digit(v / 16), hex_digit(v % 16)]
    } else {
        seq![c]
    }
}

/// The characters of `s`, each escaped as inside a JSON string.
pub open spec fn json_escaped(s: Seq<char>) -> Seq<char>
    decreases s.len(),
{
    if s.len() == 0 {
        Seq::empty()
    } else {
        json_escaped(s.drop_last()) + json_escape_char(s.last())
    }
}

/// `s` as a JSON string literal: escaped, between double quotes.
pub open spec fn json_quoted(s: Seq<char>) -> Seq<char> {
    seq!['"'] + json_escaped(s) + seq!['"']
}

/// The decimal text of an integer, with a leading `-` when negative.
pub open spec fn signed_decimal(v: int) -> Seq<char> {
    if v < 0 {
        seq!['-'] + decimal((-v) as nat)
    } else {
        decimal(v as nat)
    }
}

/// Appends `s` as a JSON string literal, through
/// `json_writer::JSONWriter::json_string` on a `String`. Claimed: it
/// appends exactly `json_quoted(s)`, as that crate's escape table
/// (`write_string`) shows.
#[verifier::external_body]
pub(crate) fn push_json_string(out: &mut String, s: &str)
    ensures
        final(out)@ == old(out)@ + json_quoted(s@),
{
    json_writer::JSONWriter::json_string(out, s);
}

/// Appends the decimal text of `v`, through
/// `json_writer::JSONWriterValue::write_json` for `i128` (an `itoa`
/// rendering). Claimed: it appends exactly `signed_decimal(v)`.
#[verifier::external_body]
pub(crate) fn push_json_integer(out: &mut String, v: i128)
    ensures
        final(out)@ == old(out)@ + signed_decimal(v as int),
{
    json_writer::JSONWriterValue::write_json(v, out);
}

/// Appends `{`.
pub fn push_begin_object(out: &mut String)
    ensures
        final(out)@ == old(out)@ + seq!['{'],
{
    proof {
        reveal_strlit("{");
    }
    out.append("{");
}

/// Appends `}`.
pub fn push_end_object(out: &mut String)
    ensures
        final(out)@ == old(out)@ + seq!['}'],
{
    proof {
        reveal_strlit("}");
    }
    out.append("}");
}

/// Appends `[`.
pub fn push_begin_array(out: &mut String)
    ensures
        final(out)@ == old(out)@ + seq!['['],
{
    proof {
        reveal_strlit("[");
    }
    out.append("[");
}

/// Appends `]`.
pub fn push_end_array(out: &mut String)
    ensures
        final(out)@ == old(out)@ + seq![']'],
{
    proof {
        reveal_strlit("]");
    }
    out.append("]");
}

/// The separator written before an array item or object member: a comma
/// unless it is the first one.
pub open spec fn separator(first: bool) -> Seq<char> {
    if first {
        Seq::empty()
    } else {
        seq![',']
    }
}

/// Appends the separator before an array item or object member.
pub fn push_separator(out: &mut String, first: bool)
    ensures
        final(out)@ == old(out)@ + separator(first),
{
    if !first {
        proof {
            reveal_strlit(",");
        }
        out.append(",");
    }
}

/// Appends an object member's key: the separator, the quoted key and `:`.
pub fn push_object_key(out: &mut String, key: &str, first: bool)
    ensures
        final(out)@ == old(out)@ + separator(first) + json_quoted(key@) + seq![':'],
{
    push_separator(out, first);
    push_json_string(out, key);
    proof {
        reveal_strlit(":");
    }
    out.append(":");
}

/// Appends the literal `null`.
pub fn push_null(out: &mut String)
    ensures
        final(out)@ == old(out)@ + seq!['n', 'u', 'l', 'l'],
{
    proof {
        reveal_strlit("null");
    }
    out.append("null");
}

/// The JSON literal of a boolean.
pub open spec fn bool_text(b: bool) -> Seq<char> {
    if b {
        seq!['t', 'r', 'u', 'e']
    } else {
        seq!['f', 'a', 'l', 's', 'e']
    }
}

/// Appends the literal `true` or `false`.
pub fn push_bool(out: &mut String, b: bool)
    ensures
        final(out)@ == old(out)@ + bool_text(b),
{
    if b {
        proof {
            reveal_strlit("true");
        }
        out.append("true");
    } else {
        proof {
            reveal_strlit("false");
        }
        out.append("false");
    }
}

} // verus!
