//! The JSON that is written.
use vstd::prelude::*;
use vstd::utf8::encode_utf8;

use crate::text::{hex, text_less};

verus! {

/// A character inside a JSON string: the quotation mark, the backslash and the control
/// characters are escaped, every other character stands for itself.
pub open spec fn json_escaped(c: char) -> Seq<char> {
    if c == '"' {
        "\\\""@
    } else if c == '\\' {
        "\\\\"@
    } else if c as u32 == 8 {
        "\\b"@
    } else if c as u32 == 9 {
        "\\t"@
    } else if c as u32 == 10 {
        "\\n"@
    } else if c as u32 == 12 {
        "\\f"@
    } else if c as u32 == 13 {
        "\\r"@
    } else if (c as u32) < 32 {
        "\\u00"@ + hex(seq![c as u8])
    } else {
        seq![c]
    }
}

/// A text as a JSON string.
pub open spec fn json_quoted(text: Seq<char>) -> Seq<char> {
    "\""@ + text.map_values(|c: char| json_escaped(c)).flatten() + "\""@
}

/// `serde_json::to_string` for a `str`: the text as a JSON string. It does not fail on a
/// text.
#[verifier::external_body]
pub(crate) fn quote_json(text: &str) -> (quoted: String)
    ensures
        quoted@ == json_quoted(text@),
{
    serde_json::to_string(text).expect("a text has a JSON form")
}

/// The model of a list of entries.
pub open spec fn entry_views(entries: Seq<(String, String)>) -> Seq<(Seq<char>, Seq<char>)> {
    entries.map_values(|entry: (String, String)| (entry.0@, entry.1@))
}

/// Whether entries stand in the order of their keys, no key twice.
pub open spec fn in_key_order(entries: Seq<(Seq<char>, Seq<char>)>) -> bool {
    forall|i: int, j: int|
        0 <= i < j < entries.len() ==> text_less((#[trigger] entries[i]).0, (
        #[trigger] entries[j]).0)
}

/// One member of an object.
pub open spec fn object_member(entry: (Seq<char>, Seq<char>)) -> Seq<char> {
    json_quoted(entry.0) + ":"@ + json_quoted(entry.1)
}

/// The members of an object, with a comma between each two.
pub open spec fn object_members(entries: Seq<(Seq<char>, Seq<char>)>) -> Seq<char>
    decreases entries.len(),
{
    if entries.len() == 0 {
        Seq::empty()
    } else if entries.len() == 1 {
        object_member(entries[0])
    } else {
        object_members(entries.drop_last()) + ","@ + object_member(entries.last())
    }
}

/// The JSON object of entries, without white space.
pub open spec fn object_text(entries: Seq<(Seq<char>, Seq<char>)>) -> Seq<char> {
    "{"@ + object_members(entries) + "}"@
}

/// `serde_json::to_string` of a map of texts: the members in the order of their keys, each
/// key and value as a JSON string, without white space. It does not fail on texts. The
/// entries stand in the order of a `BTreeMap` already, no key twice, so that the map holds
/// them one for one.
#[verifier::external_body]
pub(crate) fn entries_to_string(entries: &[(String, String)]) -> (result: Result<String, String>)
    requires
        in_key_order(entry_views(entries@)),
    ensures
        result is Ok,
        result->Ok_0@ == object_text(entry_views(entries@)),
{
    let map: std::collections::BTreeMap<&str, &str> = entries.iter().map(
        |entry| (entry.0.as_str(), entry.1.as_str()),
    ).collect();
    serde_json::to_string(&map).map_err(|error| error.to_string())
}

/// `serde_json::to_vec` of a map of texts: the UTF-8 bytes of the text that
/// `serde_json::to_string` gives. It does not fail on texts. The entries stand in the order
/// of a `BTreeMap` already, no key twice, so that the map holds them one for one.
#[verifier::external_body]
pub(crate) fn entries_to_vec(entries: &[(String, String)]) -> (result: Result<Vec<u8>, String>)
    requires
        in_key_order(entry_views(entries@)),
    ensures
        result is Ok,
        result->Ok_0@ == encode_utf8(object_text(entry_views(entries@))),
{
    let map: std::collections::BTreeMap<&str, &str> = entries.iter().map(
        |entry| (entry.0.as_str(), entry.1.as_str()),
    ).collect();
    serde_json::to_vec(&map).map_err(|error| error.to_string())
}

} // verus!
