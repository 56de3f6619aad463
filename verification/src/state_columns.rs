//! Reading the mutable state of an atom from its columns.

use vstd::prelude::*;
use vstd::string::*;

use crate::error::{Fault, StoreError, either_fault, fault_of};
use crate::model::{
    AtomState, StateView, content_status_from_store, retention_tier_from_store, status_fault,
    status_named, tier_fault, tier_named,
};
use crate::stored::{
    optional_digest_array, optional_digest_fault, optional_unsigned, optional_unsigned_fault,
    optional_unsigned_integer, unsigned_fault, unsigned_integer,
};
use crate::text::optional_bytes;

verus! {

/// The state columns of an atom.
#[derive(Clone, Debug)]
pub struct StateColumns {
    pub retention_tier: String,
    pub content_status: String,
    pub expires_at_us: Option<i64>,
    pub superseded_by: Option<Vec<u8>>,
    pub feedback_positive: i64,
    pub feedback_negative: i64,
    pub retrieval_count: i64,
    pub retirement_run_id: Option<Vec<u8>>,
}

/// The names under which faults of the state columns are reported.
#[derive(Clone, Debug)]
pub struct StateLabels {
    pub expires_at_us: &'static str,
    pub superseded_by: &'static str,
    pub feedback_positive: &'static str,
    pub feedback_negative: &'static str,
    pub retrieval_count: &'static str,
    pub retirement_run_id: &'static str,
}

/// The mathematical content of [`StateLabels`].
#[verifier::ext_equal]
pub struct LabelNames {
    pub expires_at_us: Seq<char>,
    pub superseded_by: Seq<char>,
    pub feedback_positive: Seq<char>,
    pub feedback_negative: Seq<char>,
    pub retrieval_count: Seq<char>,
    pub retirement_run_id: Seq<char>,
}

impl View for StateLabels {
    type V = LabelNames;

    open spec fn view(&self) -> LabelNames {
        LabelNames {
            expires_at_us: self.expires_at_us@,
            superseded_by: self.superseded_by@,
            feedback_positive: self.feedback_positive@,
            feedback_negative: self.feedback_negative@,
            retrieval_count: self.retrieval_count@,
            retirement_run_id: self.retirement_run_id@,
        }
    }
}

/// The names of the columns themselves.
pub open spec fn column_names() -> LabelNames {
    LabelNames {
        expires_at_us: "expires_at_us"@,
        superseded_by: "superseded_by"@,
        feedback_positive: "feedback_positive"@,
        feedback_negative: "feedback_negative"@,
        retrieval_count: "retrieval_count"@,
        retirement_run_id: "retirement_run_id"@,
    }
}

/// The names of the columns themselves.
pub fn column_labels() -> (labels: StateLabels)
    ensures
        labels@ == column_names(),
{
    StateLabels {
        expires_at_us: "expires_at_us",
        superseded_by: "superseded_by",
        feedback_positive: "feedback_positive",
        feedback_negative: "feedback_negative",
        retrieval_count: "retrieval_count",
        retirement_run_id: "retirement_run_id",
    }
}

/// The names of the columns of a state after retirement.
pub open spec fn post_state_names() -> LabelNames {
    LabelNames {
        expires_at_us: "post-state expires_at_us"@,
        superseded_by: "post-state superseded_by"@,
        feedback_positive: "post-state feedback_positive"@,
        feedback_negative: "post-state feedback_negative"@,
        retrieval_count: "post-state retrieval_count"@,
        retirement_run_id: "post-state retirement_run_id"@,
    }
}

/// The names of the columns of a state after retirement.
pub fn post_state_labels() -> (labels: StateLabels)
    ensures
        labels@ == post_state_names(),
{
    StateLabels {
        expires_at_us: "post-state expires_at_us",
        superseded_by: "post-state superseded_by",
        feedback_positive: "post-state feedback_positive",
        feedback_negative: "post-state feedback_negative",
        retrieval_count: "post-state retrieval_count",
        retirement_run_id: "post-state retirement_run_id",
    }
}

/// The fault of state columns that hold no state, under the given names of the columns.
pub open spec fn columns_fault(columns: StateColumns, names: LabelNames) -> Option<Fault> {
    either_fault(
        tier_fault(columns.retention_tier@),
        either_fault(
            status_fault(columns.content_status@),
            either_fault(
                optional_unsigned_fault(columns.expires_at_us, names.expires_at_us),
                either_fault(
                    optional_digest_fault(
                        optional_bytes(columns.superseded_by),
                        names.superseded_by,
                    ),
                    either_fault(
                        unsigned_fault(columns.feedback_positive, names.feedback_positive),
                        either_fault(
                            unsigned_fault(columns.feedback_negative, names.feedback_negative),
                            either_fault(
                                unsigned_fault(columns.retrieval_count, names.retrieval_count),
                                optional_digest_fault(
                                    optional_bytes(columns.retirement_run_id),
                                    names.retirement_run_id,
                                ),
                            ),
                        ),
                    ),
                ),
            ),
        ),
    )
}

/// The state that state columns hold.
pub open spec fn columns_state(columns: StateColumns) -> StateView {
    StateView {
        retention_tier: tier_named(columns.retention_tier@)->0,
        content_status: status_named(columns.content_status@)->0,
        expires_at_us: optional_unsigned(columns.expires_at_us),
        superseded_by: optional_bytes(columns.superseded_by),
        feedback_positive: columns.feedback_positive as u64,
        feedback_negative: columns.feedback_negative as u64,
        retrieval_count: columns.retrieval_count as u64,
        retirement_run_id: optional_bytes(columns.retirement_run_id),
    }
}

/// Reads the state of an atom from its columns.
pub fn read_state(columns: &StateColumns, labels: &StateLabels) -> (state: Result<
    AtomState,
    StoreError,
>)
    ensures
        fault_of(state) == columns_fault(*columns, labels@),
        state matches Ok(state) ==> state@ == columns_state(*columns),
{
    let retention_tier = retention_tier_from_store(columns.retention_tier.as_str())?;
    let content_status = content_status_from_store(columns.content_status.as_str())?;
    let expires_at_us = optional_unsigned_integer(columns.expires_at_us, labels.expires_at_us)?;
    let superseded_by = optional_digest_array(&columns.superseded_by, labels.superseded_by)?;
    let feedback_positive: u64 = unsigned_integer(
        columns.feedback_positive,
        labels.feedback_positive,
    )?;
    let feedback_negative: u64 = unsigned_integer(
        columns.feedback_negative,
        labels.feedback_negative,
    )?;
    let retrieval_count: u64 = unsigned_integer(columns.retrieval_count, labels.retrieval_count)?;
    let retirement_run_id = optional_digest_array(
        &columns.retirement_run_id,
        labels.retirement_run_id,
    )?;
    Ok(
        AtomState {
            retention_tier,
            content_status,
            expires_at_us,
            superseded_by,
            feedback_positive,
            feedback_negative,
            retrieval_count,
            retirement_run_id,
        },
    )
}

/// A state is read exactly from columns whose tier and status are known, whose numbers are not
/// negative and whose digests are digests, and then says what the columns say.
pub proof fn law_state_is_read_exactly(columns: StateColumns, names: LabelNames)
    ensures
        columns_fault(columns, names) is None <==> {
            &&& tier_named(columns.retention_tier@) is Some
            &&& status_named(columns.content_status@) is Some
            &&& (columns.expires_at_us matches Some(expiry) ==> expiry >= 0)
            &&& (columns.superseded_by matches Some(successor) ==> successor@.len() == 32)
            &&& (columns.retirement_run_id matches Some(run) ==> run@.len() == 32)
            &&& columns.feedback_positive >= 0
            &&& columns.feedback_negative >= 0
            &&& columns.retrieval_count >= 0
        },
        columns_fault(columns, names) is None ==> {
            let state = columns_state(columns);
            &&& tier_named(columns.retention_tier@) == Some(state.retention_tier)
            &&& status_named(columns.content_status@) == Some(state.content_status)
            &&& state.feedback_positive == columns.feedback_positive
            &&& state.feedback_negative == columns.feedback_negative
            &&& state.retrieval_count == columns.retrieval_count
            &&& state.expires_at_us is Some <==> columns.expires_at_us is Some
            &&& columns.expires_at_us matches Some(expiry) ==> state.expires_at_us->0 == expiry
            &&& state.superseded_by is Some <==> columns.superseded_by is Some
            &&& columns.superseded_by matches Some(successor) ==> state.superseded_by == Some(
                successor@,
            )
            &&& state.retirement_run_id is Some <==> columns.retirement_run_id is Some
            &&& columns.retirement_run_id matches Some(run) ==> state.retirement_run_id == Some(
                run@,
            )
        },
{
}

} // verus!
