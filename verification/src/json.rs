//! The JSON text of a header map, as `serde_json` writes it.

use crate::headers::HeaderMap;
use std::collections::BTreeMap;
use vstd::prelude::*;

verus! {

/// `serde_json::Error`, carried through as an opaque value.
#[verifier::external_type_specification]
#[verifier::external_body]
pub struct ExJsonError(serde_json::Error);

/// What `serde_json::to_string` returns for a map of strings to strings whose
/// entries it meets in the order of their keys: the text of a JSON object, or
/// `None` where it reports an error.
pub uninterp spec fn json_encoding(headers: Map<Seq<char>, Seq<char>>) -> Option<Seq<char>>;

/// The JSON text sent for a header map: its encoding, or the empty object
/// where there is none.
pub open spec fn json_text(headers: Map<Seq<char>, Seq<char>>) -> Seq<char> {
    match json_encoding(headers) {
        Some(json) => json,
        None => "{}"@,
    }
}

/// Calls `serde_json::to_string` on the entries of `headers`, handed over as a
/// `BTreeMap` from name to value. Not proved: that the call's outcome is the
/// one that `json_encoding` names for the map. A `BTreeMap` yields its entries
/// by ascending key, so the outcome depends on the map alone.
#[verifier::external_body]
pub(crate) fn encode_headers(headers: &HeaderMap) -> (encoded: Result<String, serde_json::Error>)
    ensures
        match encoded {
            Ok(json) => json_encoding(headers@) == Some(json@),
            Err(_) => json_encoding(headers@) is None,
        },
{
    let object: BTreeMap<&str, &str> = headers.entries.iter().map(
        |entry| (entry.name.as_str(), entry.value.as_str()),
    ).collect();
    serde_json::to_string(&object)
}

/// The text of an encoder's outcome: the JSON it gave, or the empty object
/// `{}` where it failed.
pub fn json_or_empty(encoded: Result<String, serde_json::Error>) -> (json: String)
    ensures
        json@ == match encoded {
            Ok(text) => text@,
            Err(_) => "{}"@,
        },
{
    match encoded {
        Ok(text) => text,
        Err(_) => "{}".to_owned(),
    }
}

/// The JSON object that mirrors `headers`.
pub fn headers_json(headers: &HeaderMap) -> (json: String)
    ensures
        json@ == json_text(headers@),
{
    json_or_empty(encode_headers(headers))
}

} // verus!
