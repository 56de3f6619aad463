//! The JSON texts that records carry.

use vstd::prelude::*;
use vstd::string::*;

use crate::error::{Fault, StoreError, fault_of};
use crate::text::{optional_text, text4};

verus! {

/// What `serde_json` says of a text that is not a JSON value; nothing where it is one.
pub uninterp spec fn json_refusal(text: Seq<char>) -> Option<Seq<char>>;

/// The JSON array of strings that `serde_json` writes for a list of texts, or what it says where
/// it writes none.
pub uninterp spec fn json_array(texts: Seq<Seq<char>>) -> Result<Seq<char>, Seq<char>>;

/// The texts that a list of strings holds.
pub open spec fn texts(values: Seq<String>) -> Seq<Seq<char>> {
    values.map_values(|value: String| value@)
}

/// The text that either side of a result holds.
pub open spec fn written_text(value: Result<String, String>) -> Result<Seq<char>, Seq<char>> {
    match value {
        Ok(text) => Ok(text@),
        Err(text) => Err(text@),
    }
}

/// Calls `serde_json::from_str` for a `serde_json::Value` and gives the text of its error, none
/// where it accepts the text.
#[verifier::external_body]
fn parse_json(text: &str) -> (refusal: Option<String>)
    ensures
        optional_text(refusal) == json_refusal(text@),
{
    serde_json::from_str::<serde_json::Value>(text).err().map(|error| error.to_string())
}

/// Calls `serde_json::to_string` for a list of strings and gives its text, or the text of its
/// error.
#[verifier::external_body]
pub(crate) fn write_json_array(values: &Vec<String>) -> (text: Result<String, String>)
    ensures
        written_text(text) == json_array(texts(values@)),
{
    serde_json::to_string(values).map_err(|error| error.to_string())
}

/// The fault of a text that is not a JSON value.
pub open spec fn json_fault(text: Seq<char>, label: Seq<char>) -> Option<Fault> {
    json_verdict(json_refusal(text), label)
}

/// The fault that a refusal of a labelled JSON text gives.
pub open spec fn json_verdict(refusal: Option<Seq<char>>, label: Seq<char>) -> Option<Fault> {
    match refusal {
        Some(refusal) => Some(
            Fault::Integrity("invalid "@ + label + " JSON: "@ + refusal),
        ),
        None => None,
    }
}

/// Judges a labelled JSON text by what the parser said of it.
pub fn judge_json(refusal: Option<String>, label: &str) -> (verdict: Result<(), StoreError>)
    ensures
        fault_of(verdict) == json_verdict(optional_text(refusal), label@),
{
    match refusal {
        Some(refusal) => Err(
            StoreError::Integrity(text4("invalid ", label, " JSON: ", refusal.as_str())),
        ),
        None => Ok(()),
    }
}

/// Accepts a text that is a JSON value.
pub fn validate_json(text: &str, label: &str) -> (verdict: Result<(), StoreError>)
    ensures
        fault_of(verdict) == json_fault(text@, label@),
{
    judge_json(parse_json(text), label)
}

} // verus!
