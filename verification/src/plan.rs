//! Retirement plans, and what the store commits for one.

use vstd::prelude::*;
use vstd::string::*;

use crate::artifact::ArtifactDigest;
use crate::bytemap::ByteMap;
use crate::digest::{sha256, sha256_of};
use crate::error::{Fault, StoreError, either_fault, fault_of, fault_when, invalid_plan};
use crate::folding::{first_indexed, lemma_first_indexed_stops};
use crate::groups::{DigestGroups, group_views, set_group};
use crate::model::{AtomState, ContentStatus, CoreAtom, RetentionTier, StateView};
use crate::post_state::RetirementPostState;
use crate::records::{AtomRecord, copy_digests, is_record_of, record_fault};
use crate::snapshot::{CohortKey, CohortSnapshot, SnapshotAtom, copy_key};
use crate::stored::digest_seq;
use crate::text::copy_bytes;

verus! {

/// The decision of a plan about one atom, with its canonical bytes.
#[derive(Clone, Debug)]
pub struct PlanDecision {
    pub atom_id: [u8; 32],
    pub exact_retained: bool,
    pub forget_episode_body: bool,
    pub semantic_atom_ids: Vec<[u8; 32]>,
    pub exact_artifact_digests: Vec<[u8; 32]>,
    pub canonical: Vec<u8>,
}

/// A semantic atom that a plan puts out.
#[derive(Clone, Debug)]
pub struct PlannedSemantic {
    pub atom_id: [u8; 32],
    pub atom: CoreAtom,
}

/// What a receipt closes over.
pub struct ReceiptClosure {
    pub source_atom_ids: Vec<[u8; 32]>,
    pub semantic_atom_ids: Vec<[u8; 32]>,
    pub exact_episode_ids: Vec<[u8; 32]>,
    pub exact_artifact_digests: DigestGroups,
}

/// What the memory core says of the projected state of a plan.
#[derive(Clone, Debug)]
pub struct PostStateAuthority {
    pub digest: [u8; 32],
    pub canonical_state: Vec<u8>,
    pub json_projection: String,
}

/// A retirement plan, with the digests and the closure that the memory core gives to it.
pub struct RetirementPlan {
    pub digest: [u8; 32],
    pub decision_digest: [u8; 32],
    pub closure: ReceiptClosure,
    pub memory_space_id: String,
    pub cohort_day: u64,
    pub as_of_us: u64,
    pub policy_id: String,
    pub policy_digest: [u8; 32],
    pub seed: [u8; 32],
    pub rng_identifier: String,
    pub input_set_digest: [u8; 32],
    pub episodic_population_digest: [u8; 32],
    pub episodic_population_count: usize,
    pub episodic_winner_budget: usize,
    pub episodic_winner_bytes: u64,
    pub semantic_count_budget: usize,
    pub semantic_body_bytes: u64,
    pub projected_state_digest: [u8; 32],
    pub projected_post_state: RetirementPostState,
    pub post_state_authority: PostStateAuthority,
    pub decisions: Vec<PlanDecision>,
    pub semantic_atoms: Vec<PlannedSemantic>,
    pub episodic_winners: Vec<[u8; 32]>,
}

/// The stored name of a decision.
pub open spec fn decision_name(decision: PlanDecision) -> Seq<char> {
    let has_outputs = decision.semantic_atom_ids@.len() != 0;
    if decision.exact_retained && has_outputs {
        "semantic_and_episodic"@
    } else if decision.exact_retained {
        "episodic_winner"@
    } else if decision.forget_episode_body && has_outputs {
        "semantic_source"@
    } else if decision.forget_episode_body {
        "forgotten"@
    } else {
        "unchanged"@
    }
}

/// Writes the stored name of a decision.
pub fn decision_text(decision: &PlanDecision) -> (name: &'static str)
    ensures
        name@ == decision_name(*decision),
{
    let has_outputs = decision.semantic_atom_ids.len() != 0;
    if decision.exact_retained && has_outputs {
        "semantic_and_episodic"
    } else if decision.exact_retained {
        "episodic_winner"
    } else if decision.forget_episode_body && has_outputs {
        "semantic_source"
    } else if decision.forget_episode_body {
        "forgotten"
    } else {
        "unchanged"
    }
}

/// What applying a plan reports.
pub struct ApplyRetirementOutcome {
    pub observed_input_digest: [u8; 32],
    pub state_digest: [u8; 32],
    pub applied_decision_count: usize,
    pub semantic_atom_ids: Vec<[u8; 32]>,
    pub episodic_atom_ids: Vec<[u8; 32]>,
    pub exact_artifact_digests: DigestGroups,
    pub already_applied: bool,
}

/// The mathematical content of an [`ApplyRetirementOutcome`].
#[verifier::ext_equal]
pub struct OutcomeView {
    pub observed_input_digest: Seq<u8>,
    pub state_digest: Seq<u8>,
    pub applied_decision_count: nat,
    pub semantic_atom_ids: Seq<Seq<u8>>,
    pub episodic_atom_ids: Seq<Seq<u8>>,
    pub exact_artifact_digests: Map<Seq<u8>, Seq<Seq<u8>>>,
    pub already_applied: bool,
}

impl View for ApplyRetirementOutcome {
    type V = OutcomeView;

    open spec fn view(&self) -> OutcomeView {
        OutcomeView {
            observed_input_digest: self.observed_input_digest@,
            state_digest: self.state_digest@,
            applied_decision_count: self.applied_decision_count as nat,
            semantic_atom_ids: digest_seq(self.semantic_atom_ids@),
            episodic_atom_ids: digest_seq(self.episodic_atom_ids@),
            exact_artifact_digests: group_views(self.exact_artifact_digests),
            already_applied: self.already_applied,
        }
    }
}

/// The artifacts that the exactly kept atoms of a plan keep. A later decision about an atom
/// replaces an earlier one.
pub open spec fn kept_artifacts(decisions: Seq<PlanDecision>) -> Map<Seq<u8>, Seq<Seq<u8>>>
    decreases decisions.len(),
{
    if decisions.len() == 0 {
        Map::empty()
    } else {
        let earlier = kept_artifacts(decisions.drop_last());
        let last = decisions.last();
        if last.exact_retained {
            earlier.insert(last.atom_id@, digest_seq(last.exact_artifact_digests@))
        } else {
            earlier
        }
    }
}

/// The atoms that a plan puts out, in order.
pub open spec fn planned_ids(atoms: Seq<PlannedSemantic>) -> Seq<Seq<u8>> {
    atoms.map_values(|atom: PlannedSemantic| atom.atom_id@)
}

/// What applying a plan reports.
pub open spec fn planned_outcome(plan: RetirementPlan, already_applied: bool) -> OutcomeView {
    OutcomeView {
        observed_input_digest: plan.input_set_digest@,
        state_digest: plan.projected_state_digest@,
        applied_decision_count: plan.decisions@.len(),
        semantic_atom_ids: planned_ids(plan.semantic_atoms@),
        episodic_atom_ids: digest_seq(plan.episodic_winners@),
        exact_artifact_digests: kept_artifacts(plan.decisions@),
        already_applied,
    }
}

/// Reports the application of a plan.
pub fn outcome_from_plan(plan: &RetirementPlan, already_applied: bool) -> (outcome:
    ApplyRetirementOutcome)
    ensures
        outcome@ == planned_outcome(*plan, already_applied),
{
    let mut exact_artifact_digests: DigestGroups = ByteMap::new();
    let mut i: usize = 0;
    assert(group_views(exact_artifact_digests) =~= kept_artifacts(plan.decisions@.subrange(0, 0)));
    while i < plan.decisions.len()
        invariant
            i <= plan.decisions@.len(),
            group_views(exact_artifact_digests) == kept_artifacts(
                plan.decisions@.subrange(0, i as int),
            ),
        decreases plan.decisions@.len() - i,
    {
        let decision = &plan.decisions[i];
        proof {
            let longer = plan.decisions@.subrange(0, i + 1);
            assert(longer.drop_last() =~= plan.decisions@.subrange(0, i as int));
            assert(longer.last() == plan.decisions@[i as int]);
        }
        if decision.exact_retained {
            set_group(
                &mut exact_artifact_digests,
                &decision.atom_id,
                &decision.exact_artifact_digests,
            );
        }
        i += 1;
    }
    assert(plan.decisions@.subrange(0, i as int) =~= plan.decisions@);
    let mut semantic_atom_ids: Vec<[u8; 32]> = Vec::new();
    let mut j: usize = 0;
    while j < plan.semantic_atoms.len()
        invariant
            j <= plan.semantic_atoms@.len(),
            semantic_atom_ids@.len() == j,
            forall|k: int|
                0 <= k < j ==> (#[trigger] semantic_atom_ids@[k])@
                    == plan.semantic_atoms@[k].atom_id@,
        decreases plan.semantic_atoms@.len() - j,
    {
        semantic_atom_ids.push(plan.semantic_atoms[j].atom_id);
        j += 1;
    }
    assert(digest_seq(semantic_atom_ids@) =~= planned_ids(plan.semantic_atoms@));
    ApplyRetirementOutcome {
        observed_input_digest: plan.input_set_digest,
        state_digest: plan.projected_state_digest,
        applied_decision_count: plan.decisions.len(),
        semantic_atom_ids,
        episodic_atom_ids: copy_digests(&plan.episodic_winners),
        exact_artifact_digests,
        already_applied,
    }
}

/// A decision as the store persists it.
#[derive(Clone, Debug)]
pub struct PersistedDecision {
    pub atom_id: [u8; 32],
    pub pre_state_digest: [u8; 32],
    pub decision: String,
    pub canonical_details: Vec<u8>,
    pub details_digest: [u8; 32],
}

/// An artifact that a commit pins for an atom.
#[derive(Clone, Copy, Debug)]
pub struct ArtifactPin {
    pub atom_id: [u8; 32],
    pub artifact_digest: ArtifactDigest,
}

/// A receipt as the store persists it.
#[derive(Clone, Debug)]
pub struct PersistedReceipt {
    pub receipt_digest: [u8; 32],
    pub canonical_receipt: Vec<u8>,
    pub json_projection: String,
    pub closure_digest: [u8; 32],
}

/// What the memory core says of the receipt of a plan.
#[derive(Clone, Debug)]
pub struct ReceiptAuthority {
    pub run_id: [u8; 32],
    pub receipt_id: [u8; 32],
    pub canonical_receipt: Vec<u8>,
    pub canonical_closure: Vec<u8>,
    pub json_projection: String,
}

/// The projected state of a commit as the store persists it.
#[derive(Clone, Debug)]
pub struct PersistedPostState {
    pub memory_space_id: String,
    pub source_count: usize,
    pub semantic_count: usize,
    pub digest: [u8; 32],
    pub canonical_state: Vec<u8>,
    pub json_projection: String,
}

/// What one retirement writes.
#[derive(Clone, Debug)]
pub struct RetirementCommit {
    pub run_id: [u8; 32],
    pub key: CohortKey,
    pub policy_id: String,
    pub policy_digest: [u8; 32],
    pub seed: [u8; 32],
    pub rng_id: String,
    pub proof_input_set_digest: [u8; 32],
    pub expected_input_set_digest: [u8; 32],
    pub population_digest: [u8; 32],
    pub plan_digest: [u8; 32],
    pub projected_state_digest: [u8; 32],
    pub post_state: PersistedPostState,
    pub decisions: Vec<PersistedDecision>,
    pub semantic_atoms: Vec<AtomRecord>,
    pub artifact_pins: Vec<ArtifactPin>,
    pub receipt: PersistedReceipt,
}

/// The state digests of the atoms of a cohort. A later atom replaces an earlier one.
pub open spec fn pre_states(atoms: Seq<SnapshotAtom>) -> Map<Seq<u8>, Seq<u8>>
    decreases atoms.len(),
{
    if atoms.len() == 0 {
        Map::empty()
    } else {
        pre_states(atoms.drop_last()).insert(atoms.last().atom_id@, atoms.last().state_digest@)
    }
}

/// The state digests by atom.
pub open spec fn pre_state_views(states: ByteMap<[u8; 32]>) -> Map<Seq<u8>, Seq<u8>> {
    states@.map_values(|digest: [u8; 32]| digest@)
}

fn collect_pre_states(atoms: &Vec<SnapshotAtom>) -> (states: ByteMap<[u8; 32]>)
    ensures
        pre_state_views(states) == pre_states(atoms@),
{
    let mut states: ByteMap<[u8; 32]> = ByteMap::new();
    let mut i: usize = 0;
    assert(pre_state_views(states) =~= pre_states(atoms@.subrange(0, 0)));
    while i < atoms.len()
        invariant
            i <= atoms@.len(),
            pre_state_views(states) == pre_states(atoms@.subrange(0, i as int)),
        decreases atoms@.len() - i,
    {
        let ghost before = pre_state_views(states);
        states.insert(copy_bytes(atoms[i].atom_id.as_slice()), atoms[i].state_digest);
        proof {
            let longer = atoms@.subrange(0, i + 1);
            assert(longer.drop_last() =~= atoms@.subrange(0, i as int));
            assert(longer.last() == atoms@[i as int]);
            assert(pre_state_views(states) =~= before.insert(
                atoms@[i as int].atom_id@,
                atoms@[i as int].state_digest@,
            ));
        }
        i += 1;
    }
    assert(atoms@.subrange(0, i as int) =~= atoms@);
    states
}

/// Whether a persisted decision is what is written for a decision of a plan.
pub open spec fn is_persisted(
    persisted: PersistedDecision,
    decision: PlanDecision,
    states: Map<Seq<u8>, Seq<u8>>,
) -> bool {
    &&& persisted.atom_id@ == decision.atom_id@
    &&& persisted.pre_state_digest@ == states[decision.atom_id@]
    &&& persisted.decision@ == decision_name(decision)
    &&& persisted.canonical_details@ == decision.canonical@
    &&& persisted.details_digest@ == sha256_of(decision.canonical@)
}

/// An artifact pin: atom and artifact.
pub struct CommitPinView {
    pub atom_id: Seq<u8>,
    pub artifact_digest: Seq<u8>,
}

/// The mathematical content of a list of pins.
pub open spec fn commit_pins(pins: Seq<ArtifactPin>) -> Seq<CommitPinView> {
    pins.map_values(
        |pin: ArtifactPin|
            CommitPinView { atom_id: pin.atom_id@, artifact_digest: pin.artifact_digest@ },
    )
}

/// The pins of one decision: one for each artifact that it keeps.
pub open spec fn decision_pins(decision: PlanDecision) -> Seq<CommitPinView> {
    decision.exact_artifact_digests@.map_values(
        |digest: [u8; 32]|
            CommitPinView { atom_id: decision.atom_id@, artifact_digest: digest@ },
    )
}

/// The pins of a list of decisions, in order.
pub open spec fn planned_pins(decisions: Seq<PlanDecision>) -> Seq<CommitPinView>
    decreases decisions.len(),
{
    if decisions.len() == 0 {
        Seq::empty()
    } else {
        planned_pins(decisions.drop_last()) + decision_pins(decisions.last())
    }
}

fn add_pins(pins: Vec<ArtifactPin>, decision: &PlanDecision) -> (more: Vec<ArtifactPin>)
    ensures
        commit_pins(more@) == commit_pins(pins@) + decision_pins(*decision),
{
    let ghost start = commit_pins(pins@);
    let ghost added = decision_pins(*decision);
    let mut more = pins;
    let mut i: usize = 0;
    assert(commit_pins(more@) =~= start + added.subrange(0, 0));
    while i < decision.exact_artifact_digests.len()
        invariant
            added == decision_pins(*decision),
            i <= decision.exact_artifact_digests@.len(),
            commit_pins(more@) == start + added.subrange(0, i as int),
        decreases decision.exact_artifact_digests@.len() - i,
    {
        let ghost before = more@;
        more.push(
            ArtifactPin {
                atom_id: decision.atom_id,
                artifact_digest: ArtifactDigest(decision.exact_artifact_digests[i]),
            },
        );
        proof {
            assert(commit_pins(more@) =~= commit_pins(before).push(added[i as int]));
            assert(start + added.subrange(0, i + 1) =~= (start + added.subrange(0, i as int)).push(
                added[i as int],
            ));
        }
        i += 1;
    }
    assert(added.subrange(0, i as int) =~= added);
    more
}

/// The state that a semantic output of a plan is stored with.
pub open spec fn output_state() -> StateView {
    StateView {
        retention_tier: RetentionTier::SemanticLongTerm,
        content_status: ContentStatus::Present,
        expires_at_us: None,
        superseded_by: None,
        feedback_positive: 0,
        feedback_negative: 0,
        retrieval_count: 0,
        retirement_run_id: None,
    }
}

/// Writes the record of a semantic output of a plan.
pub fn semantic_record(semantic: &PlannedSemantic) -> (record: Result<AtomRecord, StoreError>)
    ensures
        fault_of(record) == record_fault(semantic.atom),
        record matches Ok(record) ==> exists|state: AtomState|
            state@ == output_state() && #[trigger] is_record_of(record, semantic.atom, state),
{
    let state = AtomState {
        retention_tier: RetentionTier::SemanticLongTerm,
        content_status: ContentStatus::Present,
        expires_at_us: None,
        superseded_by: None,
        feedback_positive: 0,
        feedback_negative: 0,
        retrieval_count: 0,
        retirement_run_id: None,
    };
    let record = AtomRecord::from_core(&semantic.atom, &state)?;
    assert(state@ == output_state());
    assert(is_record_of(record, semantic.atom, state));
    Ok(record)
}

/// Whether a record is that of a semantic output of a plan.
pub open spec fn is_output_record(record: AtomRecord, semantic: PlannedSemantic) -> bool {
    exists|state: AtomState|
        state@ == output_state() && #[trigger] is_record_of(record, semantic.atom, state)
}

/// The fault of a plan for which nothing can be committed: a decision about an atom outside the
/// cohort, or an output without a record.
pub open spec fn commit_building_fault(plan: RetirementPlan, snapshot: CohortSnapshot) -> Option<
    Fault,
> {
    let states = pre_states(snapshot.atoms@);
    either_fault(
        first_indexed(
            plan.decisions@.len(),
            |i: int|
                fault_when(
                    !states.contains_key(plan.decisions@[i].atom_id@),
                    Fault::InvalidRetirementPlan(
                        "core decision is outside the local cohort snapshot"@,
                    ),
                ),
        ),
        first_indexed(
            plan.semantic_atoms@.len(),
            |i: int| record_fault(plan.semantic_atoms@[i].atom),
        ),
    )
}

/// Whether a commit is what is written for a plan, its receipt and the snapshot of its cohort.
pub open spec fn is_commit_of(
    commit: RetirementCommit,
    plan: RetirementPlan,
    receipt: ReceiptAuthority,
    snapshot: CohortSnapshot,
) -> bool {
    let states = pre_states(snapshot.atoms@);
    &&& commit.run_id@ == receipt.run_id@
    &&& commit.key@ == snapshot.key@
    &&& commit.policy_id@ == plan.policy_id@
    &&& commit.policy_digest@ == plan.policy_digest@
    &&& commit.seed@ == plan.seed@
    &&& commit.rng_id@ == plan.rng_identifier@
    &&& commit.expected_input_set_digest@ == snapshot.input_set_digest@
    &&& commit.proof_input_set_digest@ == plan.input_set_digest@
    &&& commit.population_digest@ == plan.episodic_population_digest@
    &&& commit.plan_digest@ == plan.digest@
    &&& commit.projected_state_digest@ == plan.projected_state_digest@
    &&& commit.post_state.memory_space_id@ == plan.projected_post_state.memory_space_id@
    &&& commit.post_state.source_count == plan.projected_post_state.source_atoms@.len()
    &&& commit.post_state.semantic_count == plan.projected_post_state.semantic_atoms@.len()
    &&& commit.post_state.digest@ == plan.post_state_authority.digest@
    &&& commit.post_state.canonical_state@ == plan.post_state_authority.canonical_state@
    &&& commit.post_state.json_projection@ == plan.post_state_authority.json_projection@
    &&& commit.decisions@.len() == plan.decisions@.len()
    &&& forall|i: int|
        0 <= i < commit.decisions@.len() ==> is_persisted(
            #[trigger] commit.decisions@[i],
            plan.decisions@[i],
            states,
        )
    &&& commit.semantic_atoms@.len() == plan.semantic_atoms@.len()
    &&& forall|i: int|
        0 <= i < commit.semantic_atoms@.len() ==> is_output_record(
            #[trigger] commit.semantic_atoms@[i],
            plan.semantic_atoms@[i],
        )
    &&& commit_pins(commit.artifact_pins@) == planned_pins(plan.decisions@)
    &&& commit.receipt.receipt_digest@ == receipt.receipt_id@
    &&& commit.receipt.canonical_receipt@ == receipt.canonical_receipt@
    &&& commit.receipt.json_projection@ == receipt.json_projection@
    &&& commit.receipt.closure_digest@ == sha256_of(receipt.canonical_closure@)
}

/// Builds what is written for a plan, its receipt and the snapshot of its cohort.
#[verifier::loop_isolation(false)]
pub fn build_core_commit(
    plan: &RetirementPlan,
    receipt: &ReceiptAuthority,
    snapshot: &CohortSnapshot,
) -> (commit: Result<RetirementCommit, StoreError>)
    ensures
        fault_of(commit) == commit_building_fault(*plan, *snapshot),
        commit matches Ok(commit) ==> is_commit_of(commit, *plan, *receipt, *snapshot),
{
    let states = collect_pre_states(&snapshot.atoms);
    let ghost known = pre_states(snapshot.atoms@);
    let ghost outside = |i: int|
        fault_when(
            !known.contains_key(plan.decisions@[i].atom_id@),
            Fault::InvalidRetirementPlan("core decision is outside the local cohort snapshot"@),
        );
    let mut decisions: Vec<PersistedDecision> = Vec::new();
    let mut artifact_pins: Vec<ArtifactPin> = Vec::new();
    let mut i: usize = 0;
    assert(commit_pins(artifact_pins@) =~= planned_pins(plan.decisions@.subrange(0, 0)));
    while i < plan.decisions.len()
        invariant
            i <= plan.decisions@.len(),
            first_indexed(i as nat, outside) is None,
            decisions@.len() == i,
            forall|k: int|
                0 <= k < i ==> is_persisted(#[trigger] decisions@[k], plan.decisions@[k], known),
            commit_pins(artifact_pins@) == planned_pins(plan.decisions@.subrange(0, i as int)),
        decreases plan.decisions@.len() - i,
    {
        let decision = &plan.decisions[i];
        let pre_state_digest: [u8; 32] = match states.get(decision.atom_id.as_slice()) {
            Some(digest) => *digest,
            None => {
                proof {
                    assert(!pre_state_views(states).contains_key(decision.atom_id@));
                    lemma_first_indexed_stops(plan.decisions@.len(), outside, (i + 1) as nat);
                }
                return Err(invalid_plan("core decision is outside the local cohort snapshot"));
            },
        };
        assert(pre_state_views(states)[decision.atom_id@] == pre_state_digest@);
        decisions.push(
            PersistedDecision {
                atom_id: decision.atom_id,
                pre_state_digest,
                decision: decision_text(decision).to_owned(),
                canonical_details: copy_bytes(decision.canonical.as_slice()),
                details_digest: sha256(decision.canonical.as_slice()),
            },
        );
        artifact_pins = add_pins(artifact_pins, decision);
        proof {
            let longer = plan.decisions@.subrange(0, i + 1);
            assert(longer.drop_last() =~= plan.decisions@.subrange(0, i as int));
            assert(longer.last() == plan.decisions@[i as int]);
        }
        i += 1;
    }
    assert(plan.decisions@.subrange(0, i as int) =~= plan.decisions@);
    let ghost unrecorded = |i: int| record_fault(plan.semantic_atoms@[i].atom);
    let mut semantic_atoms: Vec<AtomRecord> = Vec::new();
    let mut j: usize = 0;
    while j < plan.semantic_atoms.len()
        invariant
            j <= plan.semantic_atoms@.len(),
            first_indexed(j as nat, unrecorded) is None,
            semantic_atoms@.len() == j,
            forall|k: int|
                0 <= k < j ==> is_output_record(
                    #[trigger] semantic_atoms@[k],
                    plan.semantic_atoms@[k],
                ),
        decreases plan.semantic_atoms@.len() - j,
    {
        match semantic_record(&plan.semantic_atoms[j]) {
            Ok(record) => {
                semantic_atoms.push(record);
            },
            Err(error) => {
                proof {
                    lemma_first_indexed_stops(
                        plan.semantic_atoms@.len(),
                        unrecorded,
                        (j + 1) as nat,
                    );
                }
                return Err(error);
            },
        }
        j += 1;
    }
    Ok(
        RetirementCommit {
            run_id: receipt.run_id,
            key: copy_key(&snapshot.key),
            policy_id: plan.policy_id.clone(),
            policy_digest: plan.policy_digest,
            seed: plan.seed,
            rng_id: plan.rng_identifier.clone(),
            proof_input_set_digest: plan.input_set_digest,
            expected_input_set_digest: snapshot.input_set_digest,
            population_digest: plan.episodic_population_digest,
            plan_digest: plan.digest,
            projected_state_digest: plan.projected_state_digest,
            post_state: PersistedPostState {
                memory_space_id: plan.projected_post_state.memory_space_id.clone(),
                source_count: plan.projected_post_state.source_atoms.len(),
                semantic_count: plan.projected_post_state.semantic_atoms.len(),
                digest: plan.post_state_authority.digest,
                canonical_state: copy_bytes(plan.post_state_authority.canonical_state.as_slice()),
                json_projection: plan.post_state_authority.json_projection.clone(),
            },
            decisions,
            semantic_atoms,
            artifact_pins,
            receipt: PersistedReceipt {
                receipt_digest: receipt.receipt_id,
                canonical_receipt: copy_bytes(receipt.canonical_receipt.as_slice()),
                json_projection: receipt.json_projection.clone(),
                closure_digest: sha256(receipt.canonical_closure.as_slice()),
            },
        },
    )
}

/// The name of a decision says what was decided: an atom is kept under a winning name exactly where
/// the plan keeps it exactly, is forgotten under a forgetting name exactly where it is not kept and
/// its body is to be forgotten, and the names that speak of a semantic atom are given exactly where
/// one comes of it.
pub proof fn law_decision_name_says_what_was_decided(decision: PlanDecision)
    ensures
        ({
            let name = decision_name(decision);
            let has_outputs = decision.semantic_atom_ids@.len() > 0;
            &&& decision.exact_retained <==> name == "episodic_winner"@ || name
                == "semantic_and_episodic"@
            &&& !decision.exact_retained && decision.forget_episode_body <==> name
                == "semantic_source"@ || name == "forgotten"@
            &&& !decision.exact_retained && !decision.forget_episode_body <==> name
                == "unchanged"@
            &&& name == "semantic_and_episodic"@ || name == "semantic_source"@ ==> has_outputs
            &&& name == "episodic_winner"@ || name == "forgotten"@ ==> !has_outputs
        }),
{
    reveal_strlit("episodic_winner");
    reveal_strlit("semantic_and_episodic");
    reveal_strlit("semantic_source");
    reveal_strlit("forgotten");
    reveal_strlit("unchanged");
    assert("episodic_winner"@.len() == 15);
    assert("semantic_and_episodic"@.len() == 21);
    assert("semantic_source"@.len() == 15);
    assert("forgotten"@.len() == 9);
    assert("unchanged"@.len() == 9);
    assert("episodic_winner"@[0] == 'e');
    assert("semantic_source"@[0] == 's');
    assert("forgotten"@[0] == 'f');
    assert("unchanged"@[0] == 'u');
}

/// What applying a plan reports is of the plan: its input, the state that it projects, how many
/// decisions it made, the identities of its outputs and its winners in order, and for every atom
/// that it keeps exactly the artifacts that are kept with it, for no other atom any.
pub proof fn law_outcome_reports_the_plan(
    plan: RetirementPlan,
    already_applied: bool,
    i: int,
    atom_id: Seq<u8>,
)
    ensures
        ({
            let outcome = planned_outcome(plan, already_applied);
            &&& outcome.observed_input_digest == plan.input_set_digest@
            &&& outcome.state_digest == plan.projected_state_digest@
            &&& outcome.applied_decision_count == plan.decisions@.len()
            &&& outcome.semantic_atom_ids.len() == plan.semantic_atoms@.len()
            &&& 0 <= i < plan.semantic_atoms@.len() ==> outcome.semantic_atom_ids[i]
                == plan.semantic_atoms@[i].atom_id@
            &&& outcome.episodic_atom_ids.len() == plan.episodic_winners@.len()
            &&& 0 <= i < plan.episodic_winners@.len() ==> outcome.episodic_atom_ids[i]
                == plan.episodic_winners@[i]@
            &&& outcome.already_applied == already_applied
            &&& outcome.exact_artifact_digests.contains_key(atom_id) <==> exists|k: int|
                0 <= k < plan.decisions@.len() && (#[trigger] plan.decisions@[k]).atom_id@ == atom_id
                    && plan.decisions@[k].exact_retained
        }),
{
    lemma_kept_artifacts(plan.decisions@, atom_id);
}

proof fn lemma_kept_artifacts(decisions: Seq<PlanDecision>, atom_id: Seq<u8>)
    ensures
        kept_artifacts(decisions).contains_key(atom_id) <==> exists|k: int|
            0 <= k < decisions.len() && (#[trigger] decisions[k]).atom_id@ == atom_id
                && decisions[k].exact_retained,
    decreases decisions.len(),
{
    if decisions.len() > 0 {
        let shorter = decisions.drop_last();
        let last = decisions.len() - 1;
        lemma_kept_artifacts(shorter, atom_id);
        assert(decisions.last() == decisions[last]);
        assert forall|k: int| 0 <= k < shorter.len() implies #[trigger] shorter[k]
            == decisions[k] by {}
        assert forall|k: int| 0 <= k < last implies #[trigger] decisions[k] == shorter[k] by {}
    }
}

/// Where a plan decides every atom once, the artifacts reported for an exactly kept atom are those
/// of its decision.
pub proof fn law_outcome_reports_the_artifacts_of_each_decision(
    decisions: Seq<PlanDecision>,
    i: int,
)
    requires
        0 <= i < decisions.len(),
        decisions[i].exact_retained,
        forall|k: int|
            0 <= k < decisions.len() && k != i ==> (#[trigger] decisions[k]).atom_id@
                != decisions[i].atom_id@,
    ensures
        kept_artifacts(decisions)[decisions[i].atom_id@] == digest_seq(
            decisions[i].exact_artifact_digests@,
        ),
    decreases decisions.len(),
{
    let shorter = decisions.drop_last();
    let last = decisions.len() - 1;
    assert(decisions.last() == decisions[last]);
    if i < last {
        assert(shorter[i] == decisions[i]);
        assert forall|k: int| 0 <= k < shorter.len() && k != i implies (#[trigger] shorter[k]).atom_id@
            != shorter[i].atom_id@ by {
            assert(shorter[k] == decisions[k]);
        }
        law_outcome_reports_the_artifacts_of_each_decision(shorter, i);
    }
}

/// A commit writes its plan: run and receipt are those of the receipt of the plan, the cohort and
/// the state that it was seen in are those of the snapshot, and everything else is of the plan.
pub proof fn law_commit_writes_its_plan(
    commit: RetirementCommit,
    plan: RetirementPlan,
    receipt: ReceiptAuthority,
    snapshot: CohortSnapshot,
    i: int,
)
    requires
        is_commit_of(commit, plan, receipt, snapshot),
    ensures
        commit.run_id@ == receipt.run_id@,
        commit.receipt.receipt_digest@ == receipt.receipt_id@,
        commit.receipt.canonical_receipt@ == receipt.canonical_receipt@,
        commit.receipt.json_projection@ == receipt.json_projection@,
        commit.receipt.closure_digest@ == sha256_of(receipt.canonical_closure@),
        commit.key.memory_space_id@ == snapshot.key.memory_space_id@,
        commit.key.cohort_day == snapshot.key.cohort_day,
        commit.key.as_of_us == snapshot.key.as_of_us,
        commit.expected_input_set_digest@ == snapshot.input_set_digest@,
        commit.proof_input_set_digest@ == plan.input_set_digest@,
        commit.policy_id@ == plan.policy_id@,
        commit.policy_digest@ == plan.policy_digest@,
        commit.seed@ == plan.seed@,
        commit.rng_id@ == plan.rng_identifier@,
        commit.population_digest@ == plan.episodic_population_digest@,
        commit.plan_digest@ == plan.digest@,
        commit.projected_state_digest@ == plan.projected_state_digest@,
        commit.post_state.digest@ == plan.post_state_authority.digest@,
        commit.post_state.canonical_state@ == plan.post_state_authority.canonical_state@,
        commit.post_state.json_projection@ == plan.post_state_authority.json_projection@,
        commit.post_state.memory_space_id@ == plan.projected_post_state.memory_space_id@,
        commit.post_state.source_count == plan.projected_post_state.source_atoms@.len(),
        commit.post_state.semantic_count == plan.projected_post_state.semantic_atoms@.len(),
        commit.decisions@.len() == plan.decisions@.len(),
        0 <= i < plan.decisions@.len() ==> {
            &&& commit.decisions@[i].atom_id@ == plan.decisions@[i].atom_id@
            &&& commit.decisions@[i].canonical_details@ == plan.decisions@[i].canonical@
            &&& commit.decisions@[i].details_digest@ == sha256_of(plan.decisions@[i].canonical@)
            &&& plan.decisions@[i].exact_retained <==> commit.decisions@[i].decision@
                == "episodic_winner"@ || commit.decisions@[i].decision@
                == "semantic_and_episodic"@
        },
        commit.semantic_atoms@.len() == plan.semantic_atoms@.len(),
        0 <= i < plan.semantic_atoms@.len() ==> {
            &&& commit.semantic_atoms@[i].canonical_body@
                == plan.semantic_atoms@[i].atom.authority.canonical_body@
            &&& commit.semantic_atoms@[i].atom_id@
                == plan.semantic_atoms@[i].atom.authority.atom_id@
            &&& commit.semantic_atoms@[i].expires_at_us is None
            &&& commit.semantic_atoms@[i].retention_tier@ == "ltm_semantic"@
            &&& commit.semantic_atoms@[i].content_status@ == "present"@
        },
{
    if 0 <= i < plan.decisions@.len() {
        assert(is_persisted(
            commit.decisions@[i],
            plan.decisions@[i],
            pre_states(snapshot.atoms@),
        ));
        law_decision_name_says_what_was_decided(plan.decisions@[i]);
    }
    if 0 <= i < plan.semantic_atoms@.len() {
        assert(is_output_record(commit.semantic_atoms@[i], plan.semantic_atoms@[i]));
    }
}

/// A commit decides every atom in the state in which the snapshot saw it.
pub proof fn law_commit_decides_the_state_that_was_seen(
    commit: RetirementCommit,
    plan: RetirementPlan,
    receipt: ReceiptAuthority,
    snapshot: CohortSnapshot,
    i: int,
    k: int,
)
    requires
        is_commit_of(commit, plan, receipt, snapshot),
        0 <= i < commit.decisions@.len(),
        0 <= k < snapshot.atoms@.len(),
        commit.decisions@[i].atom_id@ == snapshot.atoms@[k].atom_id@,
        forall|j: int|
            0 <= j < snapshot.atoms@.len() && j != k ==> (#[trigger] snapshot.atoms@[j]).atom_id@
                != snapshot.atoms@[k].atom_id@,
    ensures
        commit.decisions@[i].pre_state_digest@ == snapshot.atoms@[k].state_digest@,
{
    assert(is_persisted(commit.decisions@[i], plan.decisions@[i], pre_states(snapshot.atoms@)));
    lemma_pre_state(snapshot.atoms@, k);
}

proof fn lemma_pre_state(atoms: Seq<SnapshotAtom>, k: int)
    requires
        0 <= k < atoms.len(),
        forall|j: int|
            0 <= j < atoms.len() && j != k ==> (#[trigger] atoms[j]).atom_id@ != atoms[k].atom_id@,
    ensures
        pre_states(atoms)[atoms[k].atom_id@] == atoms[k].state_digest@,
    decreases atoms.len(),
{
    let shorter = atoms.drop_last();
    let last = atoms.len() - 1;
    assert(atoms.last() == atoms[last]);
    if k < last {
        assert(shorter[k] == atoms[k]);
        assert forall|j: int| 0 <= j < shorter.len() && j != k implies (#[trigger] shorter[j]).atom_id@
            != shorter[k].atom_id@ by {
            assert(shorter[j] == atoms[j]);
        }
        lemma_pre_state(shorter, k);
    }
}

/// A commit pins exactly what its plan keeps: every artifact that a decision names is pinned for
/// its atom, and every pin is one of those.
pub proof fn law_commit_pins_what_its_plan_keeps(
    decisions: Seq<PlanDecision>,
    atom_id: Seq<u8>,
    digest: Seq<u8>,
)
    ensures
        planned_pins(decisions).contains(
            CommitPinView { atom_id, artifact_digest: digest },
        ) <==> exists|i: int, k: int|
            0 <= i < decisions.len() && (#[trigger] decisions[i]).atom_id@ == atom_id && 0 <= k
                < decisions[i].exact_artifact_digests@.len() && (
            #[trigger] decisions[i].exact_artifact_digests@[k])@ == digest,
    decreases decisions.len(),
{
    let pin = CommitPinView { atom_id, artifact_digest: digest };
    if decisions.len() > 0 {
        let shorter = decisions.drop_last();
        let last = decisions.len() - 1;
        let early = planned_pins(shorter);
        let late = decision_pins(decisions[last]);
        let all = planned_pins(decisions);
        assert(all == early + late);
        law_commit_pins_what_its_plan_keeps(shorter, atom_id, digest);
        if all.contains(pin) {
            let p = all.index_of(pin);
            if p < early.len() {
                assert(early[p] == pin);
                let (i, k) = choose|i: int, k: int|
                    0 <= i < shorter.len() && (#[trigger] shorter[i]).atom_id@ == atom_id && 0 <= k
                        < shorter[i].exact_artifact_digests@.len() && (
                    #[trigger] shorter[i].exact_artifact_digests@[k])@ == digest;
                assert(decisions[i] == shorter[i]);
                assert(decisions[i].exact_artifact_digests@[k]@ == digest);
            } else {
                let k = p - early.len();
                assert(late[k] == pin);
                assert(decisions[last].exact_artifact_digests@[k]@ == digest);
            }
        }
        if exists|i: int, k: int|
            0 <= i < decisions.len() && (#[trigger] decisions[i]).atom_id@ == atom_id && 0 <= k
                < decisions[i].exact_artifact_digests@.len() && (
            #[trigger] decisions[i].exact_artifact_digests@[k])@ == digest {
            let (i, k) = choose|i: int, k: int|
                0 <= i < decisions.len() && (#[trigger] decisions[i]).atom_id@ == atom_id && 0 <= k
                    < decisions[i].exact_artifact_digests@.len() && (
                #[trigger] decisions[i].exact_artifact_digests@[k])@ == digest;
            if i < last {
                assert(shorter[i] == decisions[i]);
                assert(shorter[i].exact_artifact_digests@[k]@ == digest);
                let p = early.index_of(pin);
                assert(all[p] == pin);
            } else {
                assert(late[k] == pin);
                assert(all[early.len() + k] == pin);
            }
        }
    }
}

/// A commit is built exactly where every decision is about an atom of the snapshot and every output
/// has a record.
pub proof fn law_commit_is_built_exactly_within_its_snapshot(
    plan: RetirementPlan,
    snapshot: CohortSnapshot,
)
    ensures
        commit_building_fault(plan, snapshot) is None <==> {
            &&& forall|i: int|
                0 <= i < plan.decisions@.len() ==> pre_states(snapshot.atoms@).contains_key(
                    (#[trigger] plan.decisions@[i]).atom_id@,
                )
            &&& forall|i: int|
                0 <= i < plan.semantic_atoms@.len() ==> record_fault(
                    (#[trigger] plan.semantic_atoms@[i]).atom,
                ) is None
        },
{
    let states = pre_states(snapshot.atoms@);
    let outside = |i: int|
        fault_when(
            !states.contains_key(plan.decisions@[i].atom_id@),
            Fault::InvalidRetirementPlan("core decision is outside the local cohort snapshot"@),
        );
    let unrecorded = |i: int| record_fault(plan.semantic_atoms@[i].atom);
    crate::folding::lemma_no_first_indexed(plan.decisions@.len(), outside);
    crate::folding::lemma_no_first_indexed(plan.semantic_atoms@.len(), unrecorded);
    if commit_building_fault(plan, snapshot) is None {
        assert forall|i: int| 0 <= i < plan.decisions@.len() implies states.contains_key(
            (#[trigger] plan.decisions@[i]).atom_id@,
        ) by {
            assert(outside(i) is None);
        }
        assert forall|i: int| 0 <= i < plan.semantic_atoms@.len() implies record_fault(
            (#[trigger] plan.semantic_atoms@[i]).atom,
        ) is None by {
            assert(unrecorded(i) is None);
        }
    }
    if forall|i: int|
        0 <= i < plan.decisions@.len() ==> states.contains_key(
            (#[trigger] plan.decisions@[i]).atom_id@,
        ) {
        assert forall|i: int| 0 <= i < plan.decisions@.len() implies #[trigger] outside(
            i,
        ) is None by {
            assert(states.contains_key(plan.decisions@[i].atom_id@));
        }
    }
    if forall|i: int|
        0 <= i < plan.semantic_atoms@.len() ==> record_fault(
            (#[trigger] plan.semantic_atoms@[i]).atom,
        ) is None {
        assert forall|i: int| 0 <= i < plan.semantic_atoms@.len() implies #[trigger] unrecorded(
            i,
        ) is None by {
            assert(record_fault(plan.semantic_atoms@[i].atom) is None);
        }
    }
}

/// The states that a snapshot saw are those of its atoms and of no others.
pub proof fn law_snapshot_saw_the_states_of_its_atoms(atoms: Seq<SnapshotAtom>, atom_id: Seq<u8>)
    ensures
        pre_states(atoms).contains_key(atom_id) <==> exists|i: int|
            0 <= i < atoms.len() && (#[trigger] atoms[i]).atom_id@ == atom_id,
    decreases atoms.len(),
{
    if atoms.len() > 0 {
        let shorter = atoms.drop_last();
        let last = atoms.len() - 1;
        law_snapshot_saw_the_states_of_its_atoms(shorter, atom_id);
        assert(atoms.last() == atoms[last]);
        assert forall|i: int| 0 <= i < shorter.len() implies #[trigger] shorter[i] == atoms[i] by {}
        assert forall|i: int| 0 <= i < last implies #[trigger] atoms[i] == shorter[i] by {}
    }
}

/// A commit has one pin for every artifact that its plan keeps, and no other.
pub proof fn law_commit_has_the_planned_pins(
    commit: RetirementCommit,
    plan: RetirementPlan,
    receipt: ReceiptAuthority,
    snapshot: CohortSnapshot,
    i: int,
)
    requires
        is_commit_of(commit, plan, receipt, snapshot),
        0 <= i < commit.artifact_pins@.len(),
    ensures
        commit.artifact_pins@.len() == planned_pins(plan.decisions@).len(),
        exists|j: int, k: int|
            0 <= j < plan.decisions@.len() && (#[trigger] plan.decisions@[j]).atom_id@
                == commit.artifact_pins@[i].atom_id@ && 0 <= k
                < plan.decisions@[j].exact_artifact_digests@.len() && (
            #[trigger] plan.decisions@[j].exact_artifact_digests@[k])@
                == commit.artifact_pins@[i].artifact_digest@,
{
    let pins = commit_pins(commit.artifact_pins@);
    assert(pins == planned_pins(plan.decisions@));
    assert(pins.len() == commit.artifact_pins@.len());
    assert(planned_pins(plan.decisions@).contains(pins[i]));
    law_commit_pins_what_its_plan_keeps(
        plan.decisions@,
        commit.artifact_pins@[i].atom_id@,
        commit.artifact_pins@[i].artifact_digest@,
    );
}

} // verus!
