//! The points of the transactions at which a crash can be simulated.

use vstd::prelude::*;
use vstd::string::*;

verus! {

/// A point between two writes of a transaction. Identifiers and order are part of the evidence of
/// a crash campaign.
#[derive(Clone, Copy, Debug, PartialEq, Eq, Structural)]
pub enum RepositoryFaultPointV1 {
    DraftAppendAfterSequenceClaim,
    DraftAppendAfterEventInsert,
    DraftSealAfterAtomInsert,
    DraftSealAfterStatusUpdate,
    RetirementAfterRunCreation,
    RetirementAfterSemanticInsertion,
    RetirementAfterDecisionPersistence,
    RetirementAfterStateMutation,
    RetirementAfterForgetting,
    RetirementAfterArtifactPins,
    RetirementAfterReceiptInsertion,
    RetirementAfterRunCompletion,
    RetirementBeforeCommit,
}

impl RepositoryFaultPointV1 {
    /// The place of the point in the order of all points.
    pub open spec fn place(self) -> int {
        match self {
            RepositoryFaultPointV1::DraftAppendAfterSequenceClaim => 0,
            RepositoryFaultPointV1::DraftAppendAfterEventInsert => 1,
            RepositoryFaultPointV1::DraftSealAfterAtomInsert => 2,
            RepositoryFaultPointV1::DraftSealAfterStatusUpdate => 3,
            RepositoryFaultPointV1::RetirementAfterRunCreation => 4,
            RepositoryFaultPointV1::RetirementAfterSemanticInsertion => 5,
            RepositoryFaultPointV1::RetirementAfterDecisionPersistence => 6,
            RepositoryFaultPointV1::RetirementAfterStateMutation => 7,
            RepositoryFaultPointV1::RetirementAfterForgetting => 8,
            RepositoryFaultPointV1::RetirementAfterArtifactPins => 9,
            RepositoryFaultPointV1::RetirementAfterReceiptInsertion => 10,
            RepositoryFaultPointV1::RetirementAfterRunCompletion => 11,
            RepositoryFaultPointV1::RetirementBeforeCommit => 12,
        }
    }

    /// The identifier of the point.
    pub open spec fn label(self) -> Seq<char> {
        match self {
            RepositoryFaultPointV1::DraftAppendAfterSequenceClaim =>
                "draft_append_after_sequence_claim"@,
            RepositoryFaultPointV1::DraftAppendAfterEventInsert =>
                "draft_append_after_event_insert"@,
            RepositoryFaultPointV1::DraftSealAfterAtomInsert => "draft_seal_after_atom_insert"@,
            RepositoryFaultPointV1::DraftSealAfterStatusUpdate => "draft_seal_after_status_update"@,
            RepositoryFaultPointV1::RetirementAfterRunCreation => "retirement_after_run_creation"@,
            RepositoryFaultPointV1::RetirementAfterSemanticInsertion =>
                "retirement_after_semantic_insertion"@,
            RepositoryFaultPointV1::RetirementAfterDecisionPersistence =>
                "retirement_after_decision_persistence"@,
            RepositoryFaultPointV1::RetirementAfterStateMutation =>
                "retirement_after_state_mutation"@,
            RepositoryFaultPointV1::RetirementAfterForgetting => "retirement_after_forgetting"@,
            RepositoryFaultPointV1::RetirementAfterArtifactPins =>
                "retirement_after_artifact_pins"@,
            RepositoryFaultPointV1::RetirementAfterReceiptInsertion =>
                "retirement_after_receipt_insertion"@,
            RepositoryFaultPointV1::RetirementAfterRunCompletion =>
                "retirement_after_run_completion"@,
            RepositoryFaultPointV1::RetirementBeforeCommit => "retirement_before_commit"@,
        }
    }

    /// All points in order.
    pub fn ordered() -> (points: Vec<Self>)
        ensures
            points@.len() == 13,
            forall|point: Self| (#[trigger] points@[point.place()]) == point,
            forall|i: int| 0 <= i < 13 ==> (#[trigger] points@[i]).place() == i,
    {
        let mut points: Vec<Self> = Vec::new();
        points.push(RepositoryFaultPointV1::DraftAppendAfterSequenceClaim);
        points.push(RepositoryFaultPointV1::DraftAppendAfterEventInsert);
        points.push(RepositoryFaultPointV1::DraftSealAfterAtomInsert);
        points.push(RepositoryFaultPointV1::DraftSealAfterStatusUpdate);
        points.push(RepositoryFaultPointV1::RetirementAfterRunCreation);
        points.push(RepositoryFaultPointV1::RetirementAfterSemanticInsertion);
        points.push(RepositoryFaultPointV1::RetirementAfterDecisionPersistence);
        points.push(RepositoryFaultPointV1::RetirementAfterStateMutation);
        points.push(RepositoryFaultPointV1::RetirementAfterForgetting);
        points.push(RepositoryFaultPointV1::RetirementAfterArtifactPins);
        points.push(RepositoryFaultPointV1::RetirementAfterReceiptInsertion);
        points.push(RepositoryFaultPointV1::RetirementAfterRunCompletion);
        points.push(RepositoryFaultPointV1::RetirementBeforeCommit);
        points
    }

    /// Writes the identifier of the point.
    pub fn identifier(self) -> (text: &'static str)
        ensures
            text@ == self.label(),
    {
        match self {
            RepositoryFaultPointV1::DraftAppendAfterSequenceClaim =>
                "draft_append_after_sequence_claim",
            RepositoryFaultPointV1::DraftAppendAfterEventInsert =>
                "draft_append_after_event_insert",
            RepositoryFaultPointV1::DraftSealAfterAtomInsert => "draft_seal_after_atom_insert",
            RepositoryFaultPointV1::DraftSealAfterStatusUpdate => "draft_seal_after_status_update",
            RepositoryFaultPointV1::RetirementAfterRunCreation => "retirement_after_run_creation",
            RepositoryFaultPointV1::RetirementAfterSemanticInsertion =>
                "retirement_after_semantic_insertion",
            RepositoryFaultPointV1::RetirementAfterDecisionPersistence =>
                "retirement_after_decision_persistence",
            RepositoryFaultPointV1::RetirementAfterStateMutation =>
                "retirement_after_state_mutation",
            RepositoryFaultPointV1::RetirementAfterForgetting => "retirement_after_forgetting",
            RepositoryFaultPointV1::RetirementAfterArtifactPins =>
                "retirement_after_artifact_pins",
            RepositoryFaultPointV1::RetirementAfterReceiptInsertion =>
                "retirement_after_receipt_insertion",
            RepositoryFaultPointV1::RetirementAfterRunCompletion =>
                "retirement_after_run_completion",
            RepositoryFaultPointV1::RetirementBeforeCommit => "retirement_before_commit",
        }
    }
}

proof fn lemma_labels()
    ensures
        "draft_append_after_sequence_claim"@.len() == 33,
        "draft_append_after_event_insert"@.len() == 31,
        "draft_seal_after_atom_insert"@.len() == 28,
        "draft_seal_after_status_update"@.len() == 30,
        "retirement_after_run_creation"@.len() == 29,
        "retirement_after_semantic_insertion"@.len() == 35,
        "retirement_after_decision_persistence"@.len() == 37,
        "retirement_after_state_mutation"@.len() == 31,
        "retirement_after_forgetting"@.len() == 27,
        "retirement_after_artifact_pins"@.len() == 30,
        "retirement_after_receipt_insertion"@.len() == 34,
        "retirement_after_run_completion"@.len() == 31,
        "retirement_before_commit"@.len() == 24,
        "draft_append_after_event_insert"@[0] == 'd',
        "draft_seal_after_status_update"@[0] == 'd',
        "retirement_after_state_mutation"@[0] == 'r',
        "retirement_after_artifact_pins"@[0] == 'r',
        "retirement_after_run_completion"@[0] == 'r',
        "retirement_after_state_mutation"@[17] == 's',
        "retirement_after_run_completion"@[17] == 'r',
{
    reveal_strlit("draft_append_after_sequence_claim");
    reveal_strlit("draft_append_after_event_insert");
    reveal_strlit("draft_seal_after_atom_insert");
    reveal_strlit("draft_seal_after_status_update");
    reveal_strlit("retirement_after_run_creation");
    reveal_strlit("retirement_after_semantic_insertion");
    reveal_strlit("retirement_after_decision_persistence");
    reveal_strlit("retirement_after_state_mutation");
    reveal_strlit("retirement_after_forgetting");
    reveal_strlit("retirement_after_artifact_pins");
    reveal_strlit("retirement_after_receipt_insertion");
    reveal_strlit("retirement_after_run_completion");
    reveal_strlit("retirement_before_commit");
}

/// Different points have different identifiers.
pub proof fn law_identifiers_differ(a: RepositoryFaultPointV1, b: RepositoryFaultPointV1)
    requires
        a.label() == b.label(),
    ensures
        a == b,
{
    lemma_labels();
}

} // verus!
