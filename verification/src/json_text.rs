//! JSON values as text.
use vstd::prelude::*;
use vstd::string::*;
use crate::name_table::{resolve, resolved, table};
use crate::text::{hex_digits, join, join_with, texts};
use rage_formats::NameTable;

verus! {

/// What stands for a character inside a quoted text.
pub open spec fn quoted_char(c: char) -> Seq<char> {
    if c == '"' {
        seq!['\\', '"']
    } else if c == '\\' {
        seq!['\\', '\\']
    } else if c == '\u{8}' {
        seq!['\\', 'b']
    } else if c == '\t' {
        seq!['\\', 't']
    } else if c == '\n' {
        seq!['\\', 'n']
    } else if c == '\u{c}' {
        seq!['\\', 'f']
    } else if c == '\r' {
        seq!['\\', 'r']
    } else if (c as u32) < 0x20 {
        seq!['\\', 'u'] + hex_digits(c as nat, 4)
    } else {
        seq![c]
    }
}

/// What stands for a text between the quotes.
pub open spec fn quoted_chars(s: Seq<char>) -> Seq<char>
    decreases s.len(),
{
    if s.len() == 0 {
        Seq::empty()
    } else {
        quoted_chars(s.drop_last()) + quoted_char(s.last())
    }
}

/// A text as a JSON value.
pub open spec fn quoted(s: Seq<char>) -> Seq<char> {
    seq!['"'] + quoted_chars(s) + seq!['"']
}

/// `json::stringify` of a text: the text in quotes, with quotes, backslashes
/// and control characters escaped.
#[verifier::external_body]
pub(crate) fn quote(s: &str) -> (out: String)
    ensures
        out@ == quoted(s@),
{
    json::stringify(s)
}

/// A JSON array of values.
pub open spec fn array(values: Seq<Seq<char>>) -> Seq<char> {
    "["@ + join(values, ","@) + "]"@
}

/// A JSON array of values.
pub fn array_of(values: &Vec<String>) -> (out: String)
    ensures
        out@ == array(texts(values@)),
{
    let mut out = String::from_str("[");
    out.append(join_with(values, ",").as_str());
    out.append("]");
    out
}

/// The name of a hash as a JSON value: `null` for the hash 0.
pub open spec fn json_hash_name(hash: u32, names: Map<u32, Seq<char>>) -> Seq<char> {
    if hash == 0 {
        "null"@
    } else {
        quoted(resolved(names, hash))
    }
}

/// The name of a hash as a JSON value: `null` for the hash 0.
pub fn json_name(hash: u32, names: &NameTable) -> (out: String)
    ensures
        out@ == json_hash_name(hash, table(*names)),
{
    if hash == 0 {
        String::from_str("null")
    } else {
        quote(resolve(names, hash).as_str())
    }
}

} // verus!
