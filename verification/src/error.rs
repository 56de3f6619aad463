//! The error boundary of the store.

use vstd::prelude::*;
use vstd::string::*;

use crate::text::{decimal, decimal_text, text2, text4};

verus! {

/// Every way in which a store operation can fail. Failures of the memory core, of the database,
/// of the file system and of JSON decoding carry the text that their source gave.
#[derive(Debug)]
pub enum StoreError {
    Core(String),
    Sqlite(String),
    Io(String),
    Json(String),
    IntegerOutOfRange { field: &'static str, value: u64 },
    InvalidDigestLength { field: &'static str, actual: usize },
    UnsupportedSchema { found: u32, expected: u32 },
    Integrity(String),
    ArtifactTooLarge { actual: u64 },
    ArtifactDigestMismatch { path: String },
    ArtifactMissing { path: String },
    InvalidArtifactPath(String),
    StalePlan { expected: String, actual: String },
    RetirementConflict,
    InvalidRetirementPlan(String),
    DraftConflict(String),
    ImmutableConflict(String),
    InvalidInput(String),
}

/// The mathematical content of a [`StoreError`].
#[verifier::ext_equal]
pub enum Fault {
    Core(Seq<char>),
    Sqlite(Seq<char>),
    Io(Seq<char>),
    Json(Seq<char>),
    IntegerOutOfRange { field: Seq<char>, value: u64 },
    InvalidDigestLength { field: Seq<char>, actual: nat },
    UnsupportedSchema { found: u32, expected: u32 },
    Integrity(Seq<char>),
    ArtifactTooLarge { actual: u64 },
    ArtifactDigestMismatch { path: Seq<char> },
    ArtifactMissing { path: Seq<char> },
    InvalidArtifactPath(Seq<char>),
    StalePlan { expected: Seq<char>, actual: Seq<char> },
    RetirementConflict,
    InvalidRetirementPlan(Seq<char>),
    DraftConflict(Seq<char>),
    ImmutableConflict(Seq<char>),
    InvalidInput(Seq<char>),
}

impl View for StoreError {
    type V = Fault;

    open spec fn view(&self) -> Fault {
        match *self {
            StoreError::Core(text) => Fault::Core(text@),
            StoreError::Sqlite(text) => Fault::Sqlite(text@),
            StoreError::Io(text) => Fault::Io(text@),
            StoreError::Json(text) => Fault::Json(text@),
            StoreError::IntegerOutOfRange { field, value } => Fault::IntegerOutOfRange {
                field: field@,
                value,
            },
            StoreError::InvalidDigestLength { field, actual } => Fault::InvalidDigestLength {
                field: field@,
                actual: actual as nat,
            },
            StoreError::UnsupportedSchema { found, expected } => Fault::UnsupportedSchema {
                found,
                expected,
            },
            StoreError::Integrity(text) => Fault::Integrity(text@),
            StoreError::ArtifactTooLarge { actual } => Fault::ArtifactTooLarge { actual },
            StoreError::ArtifactDigestMismatch { path } => Fault::ArtifactDigestMismatch {
                path: path@,
            },
            StoreError::ArtifactMissing { path } => Fault::ArtifactMissing { path: path@ },
            StoreError::InvalidArtifactPath(text) => Fault::InvalidArtifactPath(text@),
            StoreError::StalePlan { expected, actual } => Fault::StalePlan {
                expected: expected@,
                actual: actual@,
            },
            StoreError::RetirementConflict => Fault::RetirementConflict,
            StoreError::InvalidRetirementPlan(text) => Fault::InvalidRetirementPlan(text@),
            StoreError::DraftConflict(text) => Fault::DraftConflict(text@),
            StoreError::ImmutableConflict(text) => Fault::ImmutableConflict(text@),
            StoreError::InvalidInput(text) => Fault::InvalidInput(text@),
        }
    }
}

/// The fault that a result carries: none when the operation succeeded.
pub open spec fn fault_of<T>(result: Result<T, StoreError>) -> Option<Fault> {
    match result {
        Ok(_) => None,
        Err(error) => Some(error@),
    }
}

/// The first of two checks that fails.
pub open spec fn either_fault<E>(first: Option<E>, second: Option<E>) -> Option<E> {
    match first {
        Some(fault) => Some(fault),
        None => second,
    }
}

/// The fault `fault` when `failed` holds.
pub open spec fn fault_when<E>(failed: bool, fault: E) -> Option<E> {
    if failed {
        Some(fault)
    } else {
        None
    }
}

/// An integrity failure with a fixed text.
pub fn integrity(text: &str) -> (error: StoreError)
    ensures
        error@ == Fault::Integrity(text@),
{
    StoreError::Integrity(text.to_owned())
}

/// A rejected input with a fixed text.
pub fn invalid_input(text: &str) -> (error: StoreError)
    ensures
        error@ == Fault::InvalidInput(text@),
{
    StoreError::InvalidInput(text.to_owned())
}

/// A rejected retirement plan with a fixed text.
pub fn invalid_plan(text: &str) -> (error: StoreError)
    ensures
        error@ == Fault::InvalidRetirementPlan(text@),
{
    StoreError::InvalidRetirementPlan(text.to_owned())
}

impl Fault {
    /// The line that describes the fault to a person.
    pub open spec fn line(self) -> Seq<char> {
        match self {
            Fault::Core(text) => "memory core contract error: "@ + text,
            Fault::Sqlite(text) => "SQLite error: "@ + text,
            Fault::Io(text) => "I/O error: "@ + text,
            Fault::Json(text) => "JSON error: "@ + text,
            Fault::IntegerOutOfRange { field, value } =>
                "integer is outside SQLite's signed 64-bit range: "@ + field + "="@ + decimal(
                    value as nat,
                ),
            Fault::InvalidDigestLength { field, actual } => "invalid digest length for "@ + field
                + ": expected 32 bytes, got "@ + decimal(actual),
            Fault::UnsupportedSchema { found, expected } => "unsupported schema version "@
                + decimal(found as nat) + "; expected "@ + decimal(expected as nat),
            Fault::Integrity(text) => "database integrity failure: "@ + text,
            Fault::ArtifactTooLarge { actual } => "artifact exceeds the 64 MiB limit: "@ + decimal(
                actual as nat,
            ) + " bytes"@,
            Fault::ArtifactDigestMismatch { path } =>
                "artifact content does not match its digest: "@ + path,
            Fault::ArtifactMissing { path } => "artifact is missing: "@ + path,
            Fault::InvalidArtifactPath(text) => "artifact path stored in SQLite is invalid: "@
                + text,
            Fault::StalePlan { expected, actual } =>
                "stale retirement plan: expected input digest "@ + expected + ", current digest "@
                    + actual,
            Fault::RetirementConflict => "retirement plan conflicts with an existing run"@,
            Fault::InvalidRetirementPlan(text) => "retirement plan is internally invalid: "@ + text,
            Fault::DraftConflict(text) => "episode draft conflict: "@ + text,
            Fault::ImmutableConflict(text) =>
                "record already exists with different immutable content: "@ + text,
            Fault::InvalidInput(text) => "invalid store input: "@ + text,
        }
    }
}

impl StoreError {
    /// Writes the line that describes the error to a person.
    pub fn to_text(&self) -> (line: String)
        ensures
            line@ == self@.line(),
    {
        match self {
            StoreError::Core(text) => text2("memory core contract error: ", text.as_str()),
            StoreError::Sqlite(text) => text2("SQLite error: ", text.as_str()),
            StoreError::Io(text) => text2("I/O error: ", text.as_str()),
            StoreError::Json(text) => text2("JSON error: ", text.as_str()),
            StoreError::IntegerOutOfRange { field, value } => text4(
                "integer is outside SQLite's signed 64-bit range: ",
                field,
                "=",
                decimal_text(*value).as_str(),
            ),
            StoreError::InvalidDigestLength { field, actual } => text4(
                "invalid digest length for ",
                field,
                ": expected 32 bytes, got ",
                decimal_text(*actual as u64).as_str(),
            ),
            StoreError::UnsupportedSchema { found, expected } => text4(
                "unsupported schema version ",
                decimal_text(*found as u64).as_str(),
                "; expected ",
                decimal_text(*expected as u64).as_str(),
            ),
            StoreError::Integrity(text) => text2("database integrity failure: ", text.as_str()),
            StoreError::ArtifactTooLarge { actual } => {
                let mut line = text2(
                    "artifact exceeds the 64 MiB limit: ",
                    decimal_text(*actual).as_str(),
                );
                line.append(" bytes");
                line
            },
            StoreError::ArtifactDigestMismatch { path } => text2(
                "artifact content does not match its digest: ",
                path.as_str(),
            ),
            StoreError::ArtifactMissing { path } => text2("artifact is missing: ", path.as_str()),
            StoreError::InvalidArtifactPath(text) => text2(
                "artifact path stored in SQLite is invalid: ",
                text.as_str(),
            ),
            StoreError::StalePlan { expected, actual } => text4(
                "stale retirement plan: expected input digest ",
                expected.as_str(),
                ", current digest ",
                actual.as_str(),
            ),
            StoreError::RetirementConflict =>
                "retirement plan conflicts with an existing run".to_owned(),
            StoreError::InvalidRetirementPlan(text) => text2(
                "retirement plan is internally invalid: ",
                text.as_str(),
            ),
            StoreError::DraftConflict(text) => text2("episode draft conflict: ", text.as_str()),
            StoreError::ImmutableConflict(text) => text2(
                "record already exists with different immutable content: ",
                text.as_str(),
            ),
            StoreError::InvalidInput(text) => text2("invalid store input: ", text.as_str()),
        }
    }
}

/// A fault decides before all that would come after it, and is the one that is reported.
pub proof fn law_first_fault_is_reported<E>(first: Option<E>, second: Option<E>, failed: bool, fault: E)
    ensures
        first is Some ==> either_fault(first, second) == first,
        first is None ==> either_fault(first, second) == second,
        fault_when(failed, fault) is Some <==> failed,
        failed ==> fault_when(failed, fault) == Some(fault),
{
}

/// What a fault says stands at the end of its line.
pub proof fn law_line_says_what_the_fault_says(text: Seq<char>)
    ensures
        ends_with(Fault::Core(text).line(), text),
        ends_with(Fault::Sqlite(text).line(), text),
        ends_with(Fault::Io(text).line(), text),
        ends_with(Fault::Json(text).line(), text),
        ends_with(Fault::Integrity(text).line(), text),
        ends_with(Fault::ArtifactDigestMismatch { path: text }.line(), text),
        ends_with(Fault::ArtifactMissing { path: text }.line(), text),
        ends_with(Fault::InvalidArtifactPath(text).line(), text),
        ends_with(Fault::InvalidRetirementPlan(text).line(), text),
        ends_with(Fault::DraftConflict(text).line(), text),
        ends_with(Fault::ImmutableConflict(text).line(), text),
        ends_with(Fault::InvalidInput(text).line(), text),
{
    lemma_ends_with("memory core contract error: "@, text);
    lemma_ends_with("SQLite error: "@, text);
    lemma_ends_with("I/O error: "@, text);
    lemma_ends_with("JSON error: "@, text);
    lemma_ends_with("database integrity failure: "@, text);
    lemma_ends_with("artifact content does not match its digest: "@, text);
    lemma_ends_with("artifact is missing: "@, text);
    lemma_ends_with("artifact path stored in SQLite is invalid: "@, text);
    lemma_ends_with("retirement plan is internally invalid: "@, text);
    lemma_ends_with("episode draft conflict: "@, text);
    lemma_ends_with("record already exists with different immutable content: "@, text);
    lemma_ends_with("invalid store input: "@, text);
}

/// Whether a line is something and then a text.
pub open spec fn ends_with(line: Seq<char>, text: Seq<char>) -> bool {
    line.len() >= text.len() && line.subrange(line.len() - text.len(), line.len() as int) == text
}

proof fn lemma_ends_with(prefix: Seq<char>, text: Seq<char>)
    ensures
        ends_with(prefix + text, text),
{
    let line = prefix + text;
    assert(line.subrange(line.len() - text.len(), line.len() as int) =~= text);
}

} // verus!
