//! Decoding metadata values. A header stores every value as a string; a
//! value that is JSON text stands for what the text says, and the spellings
//! `True`, `False` and `None` stand for the two booleans and null.

use vstd::prelude::*;
use crate::error::FormatError;
use crate::header::{distinct_keys, lemma_pairs_map_holds, pairs_map, pairs_view};
use crate::reader::{parsed, read_container};
use crate::text::str_eq;

verus! {

/// `serde_json::Value`, a parsed JSON value. The library carries such a
/// value through and never looks inside.
#[verifier::external_type_specification]
#[verifier::external_body]
pub struct ExJsonValue(serde_json::Value);

/// A decoded metadata value.
#[derive(Debug, PartialEq)]
pub enum MetaValue {
    /// What the JSON text of the value says.
    Json(serde_json::Value),
    /// One of the spellings `True` and `False`.
    Bool(bool),
    /// The spelling `None`.
    Null,
    /// Any other text, kept as it is.
    Text(String),
}

/// What `serde_json` reads from a text: the value, where the text is one
/// JSON value, else `None`.
pub uninterp spec fn json_value(text: Seq<char>) -> Option<serde_json::Value>;

/// Parses JSON text with `serde_json::from_str` into a `serde_json::Value`;
/// `None` where the parser rejects the text.
///
/// Trusted: the outcome depends on the text alone.
#[verifier::external_body]
fn parse_json(text: &str) -> (r: Option<serde_json::Value>)
    ensures
        r == json_value(text@),
{
    serde_json::from_str(text).ok()
}

/// `value` is what a raw metadata string stands for where it is no JSON
/// text.
pub open spec fn is_literal(raw: Seq<char>, value: MetaValue) -> bool {
    if raw == "True"@ {
        value == MetaValue::Bool(true)
    } else if raw == "False"@ {
        value == MetaValue::Bool(false)
    } else if raw == "None"@ {
        value == MetaValue::Null
    } else {
        value matches MetaValue::Text(s) && s@ == raw
    }
}

/// `value` is the decoding of the raw metadata string: what the JSON
/// parser read from it where it is JSON text, else its literal.
pub open spec fn is_decoding(raw: Seq<char>, value: MetaValue) -> bool {
    match json_value(raw) {
        Some(v) => value == MetaValue::Json(v),
        None => is_literal(raw, value),
    }
}

/// Decodes a raw metadata string of which the JSON parser has already
/// spoken: a parsed value is taken as it is; without one, `True`, `False`
/// and `None` become the booleans and null, and any other text is kept.
pub fn decode_with(raw: &str, parsed: Option<serde_json::Value>) -> (value: MetaValue)
    ensures
        match parsed {
            Some(v) => value == MetaValue::Json(v),
            None => is_literal(raw@, value),
        },
{
    match parsed {
        Some(v) => MetaValue::Json(v),
        None => {
            if str_eq(raw, "True") {
                MetaValue::Bool(true)
            } else if str_eq(raw, "False") {
                MetaValue::Bool(false)
            } else if str_eq(raw, "None") {
                MetaValue::Null
            } else {
                MetaValue::Text(raw.to_owned())
            }
        },
    }
}

/// Decodes a raw metadata string: to what the JSON parser reads from it
/// where it is JSON text, else by the literal spellings. There is always a
/// value.
pub fn decode_metadata_value(raw: &str) -> (value: MetaValue)
    ensures
        is_decoding(raw@, value),
{
    decode_with(raw, parse_json(raw))
}

/// `entries` decode the metadata `map`: one entry per key, each with a
/// decoding of the key's value.
pub open spec fn decodes(
    map: Map<Seq<char>, Seq<char>>,
    entries: Seq<(String, MetaValue)>,
) -> bool {
    &&& forall|i: int|
        0 <= i < entries.len() ==> map.dom().contains((#[trigger] entries[i]).0@) && is_decoding(
            map[entries[i].0@],
            entries[i].1,
        )
    &&& forall|k: Seq<char>|
        map.dom().contains(k) ==> exists|i: int|
            0 <= i < entries.len() && (#[trigger] entries[i]).0@ == k
    &&& forall|i: int, j: int|
        0 <= i < j < entries.len() ==> (#[trigger] entries[i]).0@ != (#[trigger] entries[j]).0@
}

/// Reads the metadata of a container file and decodes every value: one
/// entry per key. A header without metadata has none, and gives no entry.
///
/// Fails only where the bytes hold no valid container.
pub fn get_json_metadata(bytes: &[u8]) -> (r: Result<Vec<(String, MetaValue)>, FormatError>)
    ensures
        match parsed(bytes@) {
            Err(f) => r matches Err(e) && e@ == f,
            Ok(m) => match m.metadata {
                None => r matches Ok(entries) && entries@.len() == 0,
                Some(map) => r matches Ok(entries) && decodes(map, entries@),
            },
        },
{
    let c = match read_container(bytes) {
        Ok(c) => c,
        Err(e) => {
            return Err(e);
        },
    };
    let pairs = match c.metadata() {
        Some(pairs) => pairs,
        None => {
            return Ok(Vec::new());
        },
    };
    let ghost pv = pairs_view(pairs@);
    let ghost map = pairs_map(pv);
    let mut entries: Vec<(String, MetaValue)> = Vec::new();
    let mut i: usize = 0;
    while i < pairs.len()
        invariant
            i <= pairs@.len(),
            pv == pairs_view(pairs@),
            map == pairs_map(pv),
            distinct_keys(pv),
            entries@.len() == i,
            forall|j: int| 0 <= j < i ==> (#[trigger] entries@[j]).0@ == pv[j].0,
            forall|j: int| 0 <= j < i ==> is_decoding(pv[j].1, (#[trigger] entries@[j]).1),
        decreases pairs@.len() - i,
    {
        let value = decode_metadata_value(pairs[i].1.as_str());
        entries.push((pairs[i].0.clone(), value));
        i += 1;
    }
    proof {
        assert forall|j: int| 0 <= j < entries@.len() implies map.dom().contains(
            (#[trigger] entries@[j]).0@,
        ) && is_decoding(map[entries@[j].0@], entries@[j].1) by {
            lemma_pairs_map_holds(pv, j);
        }
        assert forall|k: Seq<char>| map.dom().contains(k) implies exists|j: int|
            0 <= j < entries@.len() && (#[trigger] entries@[j]).0@ == k by {
            let j = choose|j: int| 0 <= j < pv.len() && #[trigger] pv[j].0 == k;
            assert(entries@[j].0@ == k);
        }
    }
    Ok(entries)
}

} // verus!
