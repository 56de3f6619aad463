//! Feedback on atoms, and the counting of retrievals.

use vstd::prelude::*;
use vstd::string::*;

use crate::error::{
    Fault, StoreError, either_fault, fault_of, fault_when, integrity, invalid_input,
};
use crate::hexadecimal::{digest_hex, hex_text};
use crate::messages::{integrity_about, integrity_fault};
use crate::receipt_outputs::collect_ids;
use crate::stored::{digest_seq, sqlite_integer, sqlite_integer_fault};
use crate::text::{same_bytes, same_text, text2};

verus! {

/// One piece of feedback on an atom.
#[derive(Clone, Debug)]
pub struct Feedback {
    pub feedback_id: [u8; 32],
    pub atom_id: [u8; 32],
    pub as_of_us: u64,
    pub positive: bool,
    pub source: String,
    pub evidence_digest: [u8; 32],
}

/// The row of a piece of feedback.
#[derive(Clone, Debug)]
pub struct FeedbackRow {
    pub atom_id: Vec<u8>,
    pub as_of_us: i64,
    pub outcome: i64,
    pub source: String,
    pub evidence_digest: Vec<u8>,
}

/// The stored form of an outcome.
pub open spec fn outcome_column(positive: bool) -> int {
    if positive {
        1
    } else {
        -1
    }
}

/// Whether a row is that of a piece of feedback.
pub open spec fn is_feedback_row(row: FeedbackRow, feedback: Feedback) -> bool {
    &&& row.atom_id@ == feedback.atom_id@
    &&& row.as_of_us == feedback.as_of_us
    &&& row.outcome == outcome_column(feedback.positive)
    &&& row.source@ == feedback.source@
    &&& row.evidence_digest@ == feedback.evidence_digest@
}

/// Which counter of an atom a piece of feedback moves.
#[derive(Clone, Copy, Debug, PartialEq, Eq, Structural)]
pub enum FeedbackEffect {
    CountPositive,
    CountNegative,
    AlreadyCounted,
}

/// The fault of feedback that cannot be taken.
pub open spec fn feedback_input_fault(feedback: Feedback) -> Option<Fault> {
    either_fault(
        fault_when(
            feedback.source@.len() == 0,
            Fault::InvalidInput("feedback source must not be empty"@),
        ),
        sqlite_integer_fault(feedback.as_of_us, "as_of_us"@),
    )
}

/// The fault of feedback under whose identity something stands already.
pub open spec fn repeated_feedback_fault(
    feedback: Feedback,
    persisted: Option<FeedbackRow>,
) -> Option<Fault> {
    match persisted {
        None => Some(Fault::Sqlite("Query returned no rows"@)),
        Some(row) => fault_when(
            !is_feedback_row(row, feedback),
            Fault::ImmutableConflict("feedback "@ + hex_text(feedback.feedback_id@)),
        ),
    }
}

/// Decides what a piece of feedback does: the first time it moves a counter of its atom; the same
/// feedback again does nothing; other feedback under its identity conflicts.
pub fn add_feedback(feedback: &Feedback, inserted: usize, persisted: &Option<FeedbackRow>) -> (effect:
    Result<FeedbackEffect, StoreError>)
    ensures
        fault_of(effect) == adding_fault(*feedback, inserted as nat, *persisted),
        effect matches Ok(effect) ==> effect == effect_of(*feedback, inserted as nat),
{
    if feedback.source.as_str().is_empty() {
        return Err(invalid_input("feedback source must not be empty"));
    }
    let as_of_us: i64 = sqlite_integer(feedback.as_of_us, "as_of_us")?;
    if inserted == 0 {
        let row = match persisted {
            Some(row) => row,
            None => return Err(StoreError::Sqlite("Query returned no rows".to_owned())),
        };
        let outcome: i64 = if feedback.positive {
            1
        } else {
            -1
        };
        if !same_bytes(row.atom_id.as_slice(), feedback.atom_id.as_slice()) || row.as_of_us
            != as_of_us || row.outcome != outcome || !same_text(
            row.source.as_str(),
            feedback.source.as_str(),
        ) || !same_bytes(row.evidence_digest.as_slice(), feedback.evidence_digest.as_slice()) {
            let hex = digest_hex(&feedback.feedback_id);
            return Err(StoreError::ImmutableConflict(text2("feedback ", hex.as_str())));
        }
        return Ok(FeedbackEffect::AlreadyCounted);
    }
    if feedback.positive {
        Ok(FeedbackEffect::CountPositive)
    } else {
        Ok(FeedbackEffect::CountNegative)
    }
}

/// Confirms that a counter was moved: the atom has a state.
pub fn confirm_feedback(changed: usize) -> (verdict: Result<(), StoreError>)
    ensures
        fault_of(verdict) == counting_fault(changed as nat),
{
    if changed != 1 {
        return Err(integrity("feedback target atom state is missing"));
    }
    Ok(())
}

/// The same feedback counts once: where its row stands, giving it again is accepted and moves no
/// counter.
pub proof fn law_feedback_counts_once(feedback: Feedback, row: FeedbackRow)
    requires
        feedback_input_fault(feedback) is None,
        is_feedback_row(row, feedback),
    ensures
        repeated_feedback_fault(feedback, Some(row)) is None,
{
}

// ---------------------------------------------------------------------------------------------
// Retrievals

/// Accepts a list of retrieved atoms that names none twice.
pub fn check_retrievals(atom_ids: &Vec<[u8; 32]>) -> (verdict: Result<(), StoreError>)
    ensures
        fault_of(verdict) == retrievals_fault(digest_seq(atom_ids@)),
{
    let set = collect_ids(atom_ids);
    if !set.distinct {
        return Err(invalid_input("retrieval atom IDs must be unique"));
    }
    Ok(())
}

/// Confirms that a retrieval was counted: the atom is there and its content present.
pub fn confirm_retrieval(atom_id: &[u8; 32], changed: usize) -> (verdict: Result<(), StoreError>)
    ensures
        fault_of(verdict) == retrieval_fault(atom_id@, changed as nat),
{
    if changed != 1 {
        return Err(integrity_about("retrieval target ", atom_id, " is unavailable"));
    }
    Ok(())
}

/// Feedback that stands already is accepted again exactly where it is the same: about the same
/// atom, of the same time, outcome, source and evidence; positive feedback stands as one, negative
/// feedback as minus one.
pub proof fn law_feedback_is_repeated_exactly(feedback: Feedback, row: FeedbackRow)
    ensures
        repeated_feedback_fault(feedback, Some(row)) is None <==> {
            &&& row.atom_id@ == feedback.atom_id@
            &&& row.as_of_us == feedback.as_of_us
            &&& (feedback.positive ==> row.outcome == 1)
            &&& (!feedback.positive ==> row.outcome == -1)
            &&& row.source@ == feedback.source@
            &&& row.evidence_digest@ == feedback.evidence_digest@
        },
        repeated_feedback_fault(feedback, None) is Some,
{
}

/// Feedback is taken exactly where it names its source and its time fits a column.
pub proof fn law_feedback_is_taken_exactly_with_a_source(feedback: Feedback)
    ensures
        feedback_input_fault(feedback) is None <==> feedback.source@.len() > 0 && feedback.as_of_us
            <= i64::MAX,
{
}

/// Feedback that contradicts what stands is a conflict of immutable content.
pub proof fn law_contradicting_feedback_is_a_conflict(feedback: Feedback, row: FeedbackRow)
    ensures
        repeated_feedback_fault(feedback, Some(row)) matches Some(fault)
            ==> fault is ImmutableConflict,
{
}

/// The fault of adding feedback, of which so many rows were inserted.
pub open spec fn adding_fault(
    feedback: Feedback,
    inserted: nat,
    persisted: Option<FeedbackRow>,
) -> Option<Fault> {
    either_fault(
        feedback_input_fault(feedback),
        if inserted == 0 {
            repeated_feedback_fault(feedback, persisted)
        } else {
            None
        },
    )
}

/// What added feedback counts for.
pub open spec fn effect_of(feedback: Feedback, inserted: nat) -> FeedbackEffect {
    if inserted == 0 {
        FeedbackEffect::AlreadyCounted
    } else if feedback.positive {
        FeedbackEffect::CountPositive
    } else {
        FeedbackEffect::CountNegative
    }
}

/// The fault of feedback whose atom has no state to count it.
pub open spec fn counting_fault(changed: nat) -> Option<Fault> {
    fault_when(changed != 1, Fault::Integrity("feedback target atom state is missing"@))
}

/// The fault of a retrieval that names an atom twice.
pub open spec fn retrievals_fault(atom_ids: Seq<Seq<u8>>) -> Option<Fault> {
    fault_when(
        !atom_ids.no_duplicates(),
        Fault::InvalidInput("retrieval atom IDs must be unique"@),
    )
}

/// The fault of a retrieval whose atom is not there to be counted.
pub open spec fn retrieval_fault(atom_id: Seq<u8>, changed: nat) -> Option<Fault> {
    fault_when(changed != 1, integrity_fault("retrieval target "@, atom_id, " is unavailable"@))
}

/// Feedback counts once: new feedback counts for its outcome, feedback that stands already counts
/// for nothing and must be the same.
pub proof fn law_added_feedback_counts_for_its_outcome(
    feedback: Feedback,
    inserted: nat,
    persisted: Option<FeedbackRow>,
)
    ensures
        effect_of(feedback, inserted) is CountPositive <==> inserted > 0 && feedback.positive,
        effect_of(feedback, inserted) is CountNegative <==> inserted > 0 && !feedback.positive,
        effect_of(feedback, inserted) is AlreadyCounted <==> inserted == 0,
        adding_fault(feedback, inserted, persisted) is None <==> {
            &&& feedback.source@.len() > 0
            &&& feedback.as_of_us <= i64::MAX
            &&& inserted == 0 ==> repeated_feedback_fault(feedback, persisted) is None
        },
{
}

/// Feedback and retrievals each count at one atom: exactly one state changes, and no atom counts
/// twice for one retrieval.
pub proof fn law_counting_changes_one_state(
    atom_id: Seq<u8>,
    changed: nat,
    atom_ids: Seq<Seq<u8>>,
    i: int,
    j: int,
)
    ensures
        counting_fault(changed) is None <==> changed == 1,
        retrieval_fault(atom_id, changed) is None <==> changed == 1,
        retrievals_fault(atom_ids) is None && 0 <= i < j < atom_ids.len() ==> atom_ids[i]
            != atom_ids[j],
        (forall|m: int, n: int|
            0 <= m < n < atom_ids.len() ==> #[trigger] atom_ids[m] != #[trigger] atom_ids[n])
            ==> retrievals_fault(atom_ids) is None,
{
}

} // verus!
