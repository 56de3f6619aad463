//! What is written can be read back: the rows of an atom that was stored pass the checks of every
//! reader.

use vstd::prelude::*;

use crate::body::body_fault;
use crate::candidates::{
    DeclaredArtifact, FtsSummary, StoredRetrievalAtom, artifacts_status, fts_closed,
    retrieval_candidate_fault,
};
use crate::closure::{
    declared_links, declared_relations, lemma_all_links_kept, link_key, pin_keys, relation_key,
};
use crate::digest::sha256_of;
use crate::edges::{
    FtsView, LinkView, RelationView, group_of, link_views, pin_views, relation_views,
};
use crate::error::Fault;
use crate::folding::{first_fault, lemma_no_first_fault};
use crate::framing::utf8;
use crate::insertion::{AtomRows, is_rows_of, new_record_fault};
use crate::integrity::{Authorities, StoredIntegrityAtom, stored_atom_fault, stored_state};
use crate::lifecycle::law_admitted_state_stays_valid;
use crate::model::{
    AtomState, CoreAtom, IntegrityStatus, MemoryAtomBody, Policy, RetentionTier,
    law_status_names_round_trip, law_tier_names_round_trip, status_name, tier_name,
};
use crate::plan::{
    OutcomeView, PersistedDecision, PlannedSemantic, ReceiptAuthority, RetirementCommit,
    RetirementPlan, is_commit_of, is_output_record, is_persisted, planned_outcome, pre_states,
};
use crate::receipt::{
    PostStateReading, PostStateRow, RunEvidence, closes_over_plan, evidence_only_counted,
    is_planned, is_same_closure, law_counting_keeps_a_receipt_valid, lemma_replayed_receipt,
    planned_output_fault, post_state_row_fault, receipt_fault, replay_fault,
};
use crate::receipt_closure::{RunDecisionRow, decision_row_fault, row_decisions};
use crate::receipt_fields::{ProofReceipt, ReceiptRow, StoredAppliedRun, binding_fault};
use crate::receipt_outputs::OutputRow;
use crate::records::{AtomRecord, ProjectedProvenance, atom_fault, is_record_of};
use crate::retirement::{PriorRun, prior_fault};
use crate::snapshot::{CohortSnapshot, KeyView, SnapshotRow, snapshot_atom_of, snapshot_row_fault};
use crate::sorting::lemma_mapped_bags;
use crate::state_columns::{StateColumns, columns_state};
use crate::stored::digest_seq;
use crate::tables::{HeaderView, ProvenanceView, header_views, provenance_views};
use crate::text::{optional_bytes, optional_text};

verus! {

/// Whether state columns are those of written rows that nothing has touched since.
pub open spec fn fresh_state(columns: StateColumns, rows: AtomRows) -> bool {
    &&& columns.retention_tier@ == rows.retention_tier@
    &&& columns.content_status@ == rows.content_status@
    &&& columns.expires_at_us == rows.expires_at_us
    &&& columns.superseded_by is None
    &&& columns.feedback_positive == 0
    &&& columns.feedback_negative == 0
    &&& columns.retrieval_count == 0
    &&& columns.retirement_run_id is None
}

/// Whether a recall reads the rows that were written for an atom.
pub open spec fn recalls_rows(stored: StoredRetrievalAtom, rows: AtomRows) -> bool {
    &&& stored.atom_kind@ == rows.atom_kind@
    &&& stored.memory_space_id@ == rows.memory_space_id@
    &&& optional_text(stored.repository_id) == optional_text(rows.repository_id)
    &&& optional_text(stored.task_id) == optional_text(rows.task_id)
    &&& optional_text(stored.agent_id) == optional_text(rows.agent_id)
    &&& optional_text(stored.session_id) == optional_text(rows.session_id)
    &&& stored.recorded_at_us == rows.recorded_at_us
    &&& stored.body_digest@ == rows.body_digest@
    &&& stored.body_bytes == rows.body_bytes
    &&& stored.retention_permission@ == rows.retention_permission@
    &&& stored.provenance_digest@ == rows.provenance_digest@
    &&& stored.canonical_body@ == rows.canonical_body@
    &&& stored.json_projection@ == rows.json_projection@
    &&& fresh_state(stored.state, rows)
    &&& stored.searchable_text@ == rows.searchable_text@
    &&& stored.topic_keys_json@ == rows.topic_keys_json@
    &&& stored.entity_ids_json@ == rows.entity_ids_json@
    &&& optional_text(stored.outcome_class) == optional_text(rows.outcome_class)
    &&& stored.projection_digest@ == rows.projection_digest@
}

/// An atom that was stored can be recalled, in the state that it was stored with: the rows that
/// were written for it, its one full-text row and its complete artifacts pass every check of a
/// recall.
pub proof fn law_stored_atom_can_be_recalled(
    atom: CoreAtom,
    state: AtomState,
    policy: Policy,
    record: AtomRecord,
    rows: AtomRows,
    root: Seq<char>,
    stored: StoredRetrievalAtom,
    fts: FtsSummary,
    evidence: Map<Seq<u8>, DeclaredArtifact>,
)
    requires
        new_record_fault(atom, state, policy) is None,
        is_record_of(record, atom, state),
        is_rows_of(rows, record),
        recalls_rows(stored, rows),
        fts_closed(fts, rows.searchable_text@),
        artifacts_status(
            root,
            atom.body.artifacts@,
            evidence,
            state.retention_tier == RetentionTier::ShortTerm,
            0,
        ) == Ok::<IntegrityStatus, Fault>(IntegrityStatus::Complete),
    ensures
        retrieval_candidate_fault(root, rows.atom_id@, Some(stored), Ok(atom), fts, evidence)
            is None,
        columns_state(stored.state) == state@,
{
    law_tier_names_round_trip(state.retention_tier, tier_name(state.retention_tier));
    law_status_names_round_trip(state.content_status, status_name(state.content_status));
    assert(columns_state(stored.state) == state@);
}

/// An episode that was stored into short-term memory can be retired: its row passes every check of
/// the snapshot of its cohort and stands in it under the identity and with the sizes that were
/// written.
pub proof fn law_stored_episode_joins_its_cohort(
    record: AtomRecord,
    projected: Result<ProjectedProvenance, String>,
    policy: Policy,
    rows: AtomRows,
    row: SnapshotRow,
)
    requires
        atom_fault(record, projected, policy) is None,
        is_rows_of(rows, record),
        row.atom_id@ == rows.atom_id@,
        row.body_digest@ == rows.body_digest@,
        row.body_bytes == rows.body_bytes,
        optional_bytes(row.canonical_body) == Some(rows.canonical_body@),
        row.artifact_bytes >= 0,
    ensures
        snapshot_row_fault(row, policy.atom_hash_domain@) is None,
        snapshot_atom_of(row).atom_id == record.atom_id@,
        snapshot_atom_of(row).body_bytes == record.canonical_body@.len(),
{
}

/// Whether an integrity scan reads the rows that were written for an atom, and no feedback yet.
pub open spec fn scans_rows(stored: StoredIntegrityAtom, rows: AtomRows) -> bool {
    &&& stored.atom_id@ == rows.atom_id@
    &&& stored.atom_kind@ == rows.atom_kind@
    &&& stored.memory_space_id@ == rows.memory_space_id@
    &&& optional_text(stored.repository_id) == optional_text(rows.repository_id)
    &&& optional_text(stored.task_id) == optional_text(rows.task_id)
    &&& optional_text(stored.agent_id) == optional_text(rows.agent_id)
    &&& optional_text(stored.session_id) == optional_text(rows.session_id)
    &&& stored.recorded_at_us == rows.recorded_at_us
    &&& stored.body_digest@ == rows.body_digest@
    &&& stored.body_bytes == rows.body_bytes
    &&& stored.retention_permission@ == rows.retention_permission@
    &&& stored.provenance_digest@ == rows.provenance_digest@
    &&& optional_bytes(stored.canonical_body) == Some(rows.canonical_body@)
    &&& optional_text(stored.json_projection) == Some(rows.json_projection@)
    &&& optional_text(stored.retention_tier) == Some(rows.retention_tier@)
    &&& optional_text(stored.content_status) == Some(rows.content_status@)
    &&& stored.expires_at_us == rows.expires_at_us
    &&& stored.superseded_by is None
    &&& stored.feedback_positive == Some(0i64)
    &&& stored.feedback_negative == Some(0i64)
    &&& stored.retrieval_count == Some(0i64)
    &&& stored.retirement_run_id is None
    &&& stored.observed_feedback_positive == 0
    &&& stored.observed_feedback_negative == 0
    &&& optional_bytes(stored.search_atom_id) == Some(rows.atom_id@)
    &&& optional_text(stored.search_memory_space_id) == Some(rows.memory_space_id@)
    &&& optional_text(stored.search_repository_id) == optional_text(rows.repository_id)
    &&& optional_text(stored.searchable_text) == Some(rows.searchable_text@)
    &&& optional_text(stored.topic_keys_json) == Some(rows.topic_keys_json@)
    &&& optional_text(stored.entity_ids_json) == Some(rows.entity_ids_json@)
    &&& optional_text(stored.outcome_class) == optional_text(rows.outcome_class)
    &&& optional_bytes(stored.projection_digest) == Some(rows.projection_digest@)
}

/// Whether the authority tables hold what was written for an atom: its header, its provenance, the
/// links and relations that its body declares, and no pin.
pub open spec fn holds_atom(authorities: Authorities, rows: AtomRows, body: MemoryAtomBody) -> bool {
    let atom_id = rows.atom_id@;
    let headers = header_views(authorities.headers);
    let provenance = provenance_views(authorities.provenance);
    &&& headers.contains_key(atom_id)
    &&& headers[atom_id] == (HeaderView {
        memory_space_id: rows.memory_space_id@,
        atom_kind: rows.atom_kind@,
        body_digest: rows.body_digest@,
    })
    &&& provenance.contains_key(atom_id)
    &&& provenance[atom_id] == (ProvenanceView {
        producer: rows.provenance_producer@,
        policy_digest: rows.provenance_policy_digest@,
        canonical_provenance: rows.canonical_provenance@,
        json_projection: rows.provenance_json_projection@,
        provenance_digest: rows.provenance_digest@,
        source_event_digests: digest_seq(rows.provenance_sources@),
    })
    &&& group_of(link_views(authorities.artifact_refs), atom_id).to_multiset() == declared_links(
        body.artifacts@,
    ).to_multiset()
    &&& group_of(link_views(authorities.artifact_provenance), atom_id).to_multiset()
        == declared_links(body.artifacts@).to_multiset()
    &&& group_of(relation_views(authorities.relations), atom_id).to_multiset()
        == declared_relations(body.relations@).to_multiset()
    &&& group_of(pin_views(authorities.artifact_pins), atom_id).len() == 0
}

/// An atom that was stored passes the integrity check: what was written for it, with its full-text
/// row and the links and relations that it declares, closes over its body. Its body must be valid
/// against the stored headers and artifacts and within the limits of the policy, and it must have
/// been stored into short-term memory or as a semantic atom.
pub proof fn law_stored_atom_passes_the_integrity_check(
    atom: CoreAtom,
    state: AtomState,
    policy: Policy,
    record: AtomRecord,
    projected: Result<ProjectedProvenance, String>,
    rows: AtomRows,
    stored: StoredIntegrityAtom,
    authorities: Authorities,
    fts: Map<Seq<u8>, FtsView>,
)
    requires
        new_record_fault(atom, state, policy) is None,
        is_record_of(record, atom, state),
        atom_fault(record, projected, policy) is None,
        is_rows_of(rows, record),
        scans_rows(stored, rows),
        holds_atom(authorities, rows, atom.body),
        fts.contains_key(rows.atom_id@),
        fts[rows.atom_id@] == (FtsView {
            row_count: 1,
            searchable_text_digest: sha256_of(utf8(rows.searchable_text@)),
            has_conflicting_text: false,
        }),
        body_fault(atom, rows.atom_id@, authorities.headers, authorities.artifacts, policy)
            is None,
        0 < record.canonical_body@.len() <= policy.atom_hard_max_bytes,
        state.retention_tier == RetentionTier::ShortTerm || state.retention_tier
            == RetentionTier::SemanticLongTerm,
    ensures
        stored_atom_fault(stored, Ok(atom), authorities, fts, policy) is None,
        stored_state(stored) == state@,
{
    law_tier_names_round_trip(state.retention_tier, tier_name(state.retention_tier));
    law_status_names_round_trip(state.content_status, status_name(state.content_status));
    assert(stored_state(stored) == state@);
    law_admitted_state_stays_valid(
        atom.body.payload.kind(),
        atom.body.interval.recorded_at_us,
        state@,
        policy.stm_horizon_us,
        rows.atom_id@,
        rows.memory_space_id@,
        authorities.headers,
        authorities.retirement_runs,
        authorities.retirement_decisions,
    );
    let declared = declared_links(atom.body.artifacts@);
    lemma_all_links_kept(declared);
    lemma_mapped_bags(
        group_of(link_views(authorities.artifact_refs), rows.atom_id@),
        declared,
        |link: LinkView| link_key(link),
    );
    lemma_mapped_bags(
        group_of(link_views(authorities.artifact_provenance), rows.atom_id@),
        declared,
        |link: LinkView| link_key(link),
    );
    lemma_mapped_bags(
        group_of(relation_views(authorities.relations), rows.atom_id@),
        declared_relations(atom.body.relations@),
        |relation: RelationView| relation_key(relation),
    );
    let pins = pin_keys(group_of(pin_views(authorities.artifact_pins), rows.atom_id@));
    assert(pins.to_set() =~= Set::empty());
}

/// Whether the rows of a run and its receipt are those that a commit writes.
pub open spec fn writes_run(
    run: StoredAppliedRun,
    receipt: ReceiptRow,
    commit: RetirementCommit,
) -> bool {
    &&& run.memory_space_id@ == commit.key.memory_space_id@
    &&& run.cohort_day == commit.key.cohort_day
    &&& run.as_of_us == commit.key.as_of_us
    &&& run.policy_id@ == commit.policy_id@
    &&& run.policy_digest@ == commit.policy_digest@
    &&& run.seed@ == commit.seed@
    &&& run.rng_identifier@ == commit.rng_id@
    &&& run.input_set_digest@ == commit.proof_input_set_digest@
    &&& run.population_digest@ == commit.population_digest@
    &&& run.plan_digest@ == commit.plan_digest@
    &&& run.projected_state_digest@ == commit.projected_state_digest@
    &&& run.status@ == "applied"@
    &&& optional_bytes(run.receipt_digest) == Some(commit.receipt.receipt_digest@)
    &&& receipt.receipt_digest@ == commit.receipt.receipt_digest@
    &&& receipt.canonical_receipt@ == commit.receipt.canonical_receipt@
    &&& receipt.json_projection@ == commit.receipt.json_projection@
    &&& receipt.closure_digest@ == commit.receipt.closure_digest@
    &&& receipt.created_at_us == commit.key.as_of_us
}

/// Whether the row of a decision is the one that a commit writes.
pub open spec fn writes_decision(row: RunDecisionRow, decision: PersistedDecision) -> bool {
    &&& row.atom_id@ == decision.atom_id@
    &&& row.decision@ == decision.decision@
    &&& row.canonical_details@ == decision.canonical_details@
    &&& row.details_digest@ == decision.details_digest@
}

/// The decisions that a commit writes for a plan are those of the plan in the same order.
proof fn lemma_written_decisions(
    plan: RetirementPlan,
    authority: ReceiptAuthority,
    snapshot: CohortSnapshot,
    commit: RetirementCommit,
    decisions: Seq<RunDecisionRow>,
)
    requires
        is_commit_of(commit, plan, authority, snapshot),
        decisions.len() == commit.decisions@.len(),
        forall|i: int|
            0 <= i < decisions.len() ==> writes_decision(
                #[trigger] decisions[i],
                commit.decisions@[i],
            ),
    ensures
        first_fault(decisions, |row: RunDecisionRow| decision_row_fault(row)) is None,
        forall|i: int|
            0 <= i < decisions.len() ==> is_planned(
                #[trigger] row_decisions(decisions)[i],
                plan.decisions@[i],
            ),
{
    let fault = |row: RunDecisionRow| decision_row_fault(row);
    assert forall|i: int| 0 <= i < decisions.len() implies is_planned(
        #[trigger] row_decisions(decisions)[i],
        plan.decisions@[i],
    ) && fault(decisions[i]) is None by {
        assert(writes_decision(decisions[i], commit.decisions@[i]));
        assert(is_persisted(
            commit.decisions@[i],
            plan.decisions@[i],
            pre_states(snapshot.atoms@),
        ));
    }
    assert forall|i: int| 0 <= i < decisions.len() implies fault(#[trigger] decisions[i])
        is None by {
        assert(is_planned(row_decisions(decisions)[i], plan.decisions@[i]));
    }
    lemma_no_first_fault(decisions, fault);
}

/// What a retirement writes for a plan is what its verification reads: its run is bound to its
/// receipt, the decisions are those of the plan in the same order, the projected state is accepted
/// where the memory core reads it as it wrote it, and the plan is found again as applied.
pub proof fn law_applied_plan_reads_back(
    plan: RetirementPlan,
    authority: ReceiptAuthority,
    snapshot: CohortSnapshot,
    commit: RetirementCommit,
    run: StoredAppliedRun,
    receipt: ReceiptRow,
    decisions: Seq<RunDecisionRow>,
    post_state: PostStateRow,
    reading: PostStateReading,
    prior: PriorRun,
    cohort_has_run: bool,
)
    requires
        is_commit_of(commit, plan, authority, snapshot),
        writes_run(run, receipt, commit),
        decisions.len() == commit.decisions@.len(),
        forall|i: int|
            0 <= i < decisions.len() ==> writes_decision(
                #[trigger] decisions[i],
                commit.decisions@[i],
            ),
        post_state.state_digest@ == commit.post_state.digest@,
        post_state.canonical_state@ == commit.post_state.canonical_state@,
        post_state.json_projection@ == commit.post_state.json_projection@,
        reading.digest@ == plan.post_state_authority.digest@,
        reading.canonical_state@ == plan.post_state_authority.canonical_state@,
        reading.json_projection@ == plan.post_state_authority.json_projection@,
        prior.run_id@ == commit.run_id@,
        prior.projected_state_digest@ == run.projected_state_digest@,
        prior.status@ == run.status@,
    ensures
        binding_fault(commit.run_id@, Some(run), Some(receipt)) is None,
        first_fault(decisions, |row: RunDecisionRow| decision_row_fault(row)) is None,
        forall|i: int|
            0 <= i < decisions.len() ==> is_planned(
                #[trigger] row_decisions(decisions)[i],
                plan.decisions@[i],
            ),
        post_state_row_fault(commit.run_id@, Some(post_state), Ok(reading)) is None,
        prior_fault(plan, Some(prior), cohort_has_run) is None,
{
    lemma_written_decisions(plan, authority, snapshot, commit, decisions);
}

/// What the memory core puts into the receipt of a plan beside what the row of the run repeats.
pub open spec fn is_receipt_of(receipt: ProofReceipt, plan: RetirementPlan) -> bool {
    &&& receipt.episodic_population_count == plan.episodic_population_count
    &&& receipt.episodic_winner_budget == plan.episodic_winner_budget
    &&& receipt.episodic_winner_bytes == plan.episodic_winner_bytes
    &&& receipt.semantic_count_budget == plan.semantic_count_budget
    &&& receipt.semantic_body_bytes == plan.semantic_body_bytes
    &&& receipt.decision_digest@ == plan.decision_digest@
    &&& is_same_closure(receipt.closure, plan.closure)
}

/// Whether the row of a semantic output holds the body of its record.
pub open spec fn writes_output(rows: Map<Seq<u8>, OutputRow>, record: AtomRecord) -> bool {
    &&& rows.contains_key(record.atom_id@)
    &&& rows[record.atom_id@].canonical_body@ == record.canonical_body@
    &&& rows[record.atom_id@].json_projection@ == record.json_projection@
}

/// Whether a store holds for a run what a commit writes for a plan, as the memory core reads it:
/// the receipt is that of the plan, and the projected state is the one that was planned.
pub open spec fn holds_commit(
    evidence: RunEvidence,
    commit: RetirementCommit,
    plan: RetirementPlan,
) -> bool {
    &&& evidence.run matches Some(run)
    &&& evidence.receipt_row matches Some(receipt)
    &&& writes_run(run, receipt, commit)
    &&& evidence.decisions@.len() == commit.decisions@.len()
    &&& forall|i: int|
        0 <= i < evidence.decisions@.len() ==> writes_decision(
            #[trigger] evidence.decisions@[i],
            commit.decisions@[i],
        )
    &&& forall|i: int|
        0 <= i < commit.semantic_atoms@.len() ==> writes_output(
            evidence.outputs@,
            #[trigger] commit.semantic_atoms@[i],
        )
    &&& evidence.reading matches Ok(reading)
    &&& is_receipt_of(reading.receipt, plan)
    &&& evidence.post_state matches Ok(post_state)
    &&& post_state.state@ == plan.projected_post_state@
}

/// Whether a plan names each of its outputs by the identity of the atom.
pub open spec fn names_outputs(plan: RetirementPlan) -> bool {
    forall|i: int|
        0 <= i < plan.semantic_atoms@.len() ==> (#[trigger] plan.semantic_atoms@[i]).atom_id@
            == plan.semantic_atoms@[i].atom.authority.atom_id@
}

/// Applying a plan once more changes nothing and reports the same. Where an application has
/// written its commit for the cohort of the plan and has verified its receipt, and nothing but
/// counters of the atoms has moved since, the run is found again by the plan, the whole receipt
/// verifies as that of the plan, and the report differs only in saying that the plan was applied
/// already. Any other plan for the same cohort is refused as a conflict.
pub proof fn law_applying_a_plan_again_reports_the_same(
    plan: RetirementPlan,
    other: RetirementPlan,
    authority: ReceiptAuthority,
    snapshot: CohortSnapshot,
    commit: RetirementCommit,
    written: RunEvidence,
    later: RunEvidence,
    prior: PriorRun,
    policy: Policy,
)
    requires
        is_commit_of(commit, plan, authority, snapshot),
        snapshot.key@ == (KeyView {
            memory_space_id: plan.memory_space_id@,
            cohort_day: plan.cohort_day,
            as_of_us: plan.as_of_us,
        }),
        names_outputs(plan),
        holds_commit(written, commit, plan),
        receipt_fault(commit.run_id@, written, policy, None) is None,
        evidence_only_counted(written, later),
        prior.run_id@ == commit.run_id@,
        prior.projected_state_digest@ == later.run->0.projected_state_digest@,
        prior.status@ == later.run->0.status@,
        other.memory_space_id@ == plan.memory_space_id@,
        other.cohort_day == plan.cohort_day,
    ensures
        prior_fault(plan, Some(prior), true) is None,
        receipt_fault(prior.run_id@, later, policy, Some(plan)) is None,
        planned_outcome(plan, true) == (OutcomeView {
            already_applied: true,
            ..planned_outcome(plan, false)
        }),
        prior_fault(other, None, true) == Some(Fault::RetirementConflict),
{
    let receipt = written.reading->Ok_0.receipt;
    let decisions = row_decisions(written.decisions@);
    let outputs = written.outputs@;
    assert(closes_over_plan(receipt, plan.projected_post_state@, decisions.len(), plan));
    lemma_written_decisions(plan, authority, snapshot, commit, written.decisions@);
    let fault = |planned: PlannedSemantic| planned_output_fault(outputs, planned);
    assert forall|i: int| 0 <= i < plan.semantic_atoms@.len() implies fault(
        #[trigger] plan.semantic_atoms@[i],
    ) is None by {
        let record = commit.semantic_atoms@[i];
        assert(writes_output(outputs, record));
        assert(is_output_record(record, plan.semantic_atoms@[i]));
    }
    lemma_no_first_fault(plan.semantic_atoms@, fault);
    assert(replay_fault(receipt, plan.projected_post_state@, decisions, outputs, plan) is None);
    lemma_replayed_receipt(commit.run_id@, written, policy, plan);
    law_counting_keeps_a_receipt_valid(commit.run_id@, written, later, policy, Some(plan));
}

} // verus!
