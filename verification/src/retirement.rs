//! Applying a retirement plan: when it may be applied, what is written in which order, and how
//! many rows each write must change.

use vstd::prelude::*;
use vstd::string::*;

use crate::artifact::ArtifactStore;
use crate::bytemap::ByteMap;
use crate::closure::declared_links;
use crate::commit_rules::{
    commit_fault, decision_closure_fault, is_decision_name, is_winner_name,
    validate_decision_closure, validate_retirement_commit, winner_decision,
};
use crate::error::{
    Fault, StoreError, either_fault, fault_of, fault_when, invalid_plan,
};
use crate::fault_points::RepositoryFaultPointV1;
use crate::hexadecimal::{bytes_hex, digest_hex, hex_text};
use crate::insertion::{AtomRows, ExistingAtom, insertion_fault, is_rows_of, put_atom};
use crate::links::{
    AtomArtifactLink, AtomRelationLink, artifact_link_list, prepare_relation_links,
    relation_link_list, relation_links_of, validate_declared_core_link_closure,
};
use crate::model::{CoreAtom, IntegrityStatus, Policy};
use crate::pin_rules::{
    PinAuthorities, count_eligible, count_permitted, eligible_count, lemma_eligible_permit,
    permitted_count, pins_fault, validate_pins,
};
use crate::plan::{PersistedDecision, RetirementCommit, RetirementPlan};
use crate::policy::{PolicyRow, persisted_policy_fault, verify_persisted_poc_policy};
use crate::receipt_closure::{LotteryPopulation, is_population};
use crate::records::{AtomRecord, ProjectedProvenance};
use crate::snapshot::{CohortKey, CohortSnapshot, SnapshotAtom};
use crate::stored::{
    digest_array, digest_fault, same_digest, sqlite_integer, sqlite_integer_fault,
};
use crate::text::{
    decimal, decimal_text, lemma_decimal_tells_apart, optional_bytes, optional_text, same_bytes,
    same_text, text2,
};

verus! {

/// The row of a run with the digest of a plan.
#[derive(Clone, Debug)]
pub struct PriorRun {
    pub run_id: Vec<u8>,
    pub projected_state_digest: Vec<u8>,
    pub status: String,
}

/// Whether a prior run applied a plan.
pub open spec fn applied_plan(prior: PriorRun, plan: RetirementPlan) -> bool {
    prior.projected_state_digest@ == plan.projected_state_digest@ && prior.status@ == "applied"@
}

/// The fault of a plan that another run or another plan of its cohort stands against.
pub open spec fn prior_fault(
    plan: RetirementPlan,
    prior: Option<PriorRun>,
    cohort_has_run: bool,
) -> Option<Fault> {
    match prior {
        Some(prior) => if applied_plan(prior, plan) {
            digest_fault(prior.run_id@, "run_id"@)
        } else {
            Some(Fault::RetirementConflict)
        },
        None => either_fault(
            sqlite_integer_fault(plan.cohort_day, "cohort_day"@),
            fault_when(cohort_has_run, Fault::RetirementConflict),
        ),
    }
}

/// Finds the run that applied a plan before; none where the plan is still to be applied.
pub fn find_prior_run(
    plan: &RetirementPlan,
    prior: &Option<PriorRun>,
    cohort_has_run: bool,
) -> (run: Result<Option<[u8; 32]>, StoreError>)
    ensures
        fault_of(run) == prior_fault(*plan, *prior, cohort_has_run),
        run matches Ok(run) ==> match (run, *prior) {
            (Some(run), Some(prior)) => run@ == prior.run_id@,
            (None, None) => true,
            _ => false,
        },
{
    match prior {
        Some(prior) => {
            if same_bytes(
                prior.projected_state_digest.as_slice(),
                plan.projected_state_digest.as_slice(),
            ) && same_text(prior.status.as_str(), "applied") {
                let run = digest_array(prior.run_id.as_slice(), "run_id")?;
                return Ok(Some(run));
            }
            Err(StoreError::RetirementConflict)
        },
        None => {
            sqlite_integer(plan.cohort_day, "cohort_day")?;
            if cohort_has_run {
                return Err(StoreError::RetirementConflict);
            }
            Ok(None)
        },
    }
}

/// The fault of a plan that was made for another state of its cohort, or not by the planner.
pub open spec fn current_plan_fault(
    plan: RetirementPlan,
    observed_input_digest: Seq<u8>,
    recomputation_agrees: bool,
) -> Option<Fault> {
    either_fault(
        fault_when(
            observed_input_digest != plan.input_set_digest@,
            Fault::StalePlan {
                expected: hex_text(plan.input_set_digest@),
                actual: hex_text(observed_input_digest),
            },
        ),
        fault_when(
            !recomputation_agrees,
            Fault::InvalidRetirementPlan(
                "plan does not match deterministic recomputation from the current cohort"@,
            ),
        ),
    )
}

/// Accepts a plan that was made for the present state of its cohort and that planning once more
/// gives again.
pub fn check_current_plan(
    plan: &RetirementPlan,
    observed_input_digest: &[u8; 32],
    recomputation_agrees: bool,
) -> (verdict: Result<(), StoreError>)
    ensures
        fault_of(verdict) == current_plan_fault(
            *plan,
            observed_input_digest@,
            recomputation_agrees,
        ),
{
    if !same_digest(observed_input_digest, &plan.input_set_digest) {
        return Err(
            StoreError::StalePlan {
                expected: digest_hex(&plan.input_set_digest),
                actual: digest_hex(observed_input_digest),
            },
        );
    }
    if !recomputation_agrees {
        return Err(
            invalid_plan(
                "plan does not match deterministic recomputation from the current cohort",
            ),
        );
    }
    Ok(())
}

/// The row of a run with the identity of a commit.
#[derive(Clone, Debug)]
pub struct ExistingRun {
    pub plan_digest: Vec<u8>,
    pub receipt_digest: Option<Vec<u8>>,
    pub status: String,
}

/// What applying a commit found.
#[derive(Clone, Copy, Debug, PartialEq, Eq, Structural)]
pub enum ApplyOutcome {
    Applied,
    AlreadyApplied,
}

/// Whether an existing run applied a commit.
pub open spec fn applied_commit(run: ExistingRun, commit: RetirementCommit) -> bool {
    &&& run.plan_digest@ == commit.plan_digest@
    &&& optional_bytes(run.receipt_digest) == Some(commit.receipt.receipt_digest@)
    &&& run.status@ == "applied"@
}

/// The fault of a commit that cannot begin.
pub open spec fn begin_fault(
    commit: RetirementCommit,
    policy_row: Option<PolicyRow>,
    policy_count: i64,
    policy: Policy,
    existing: Option<ExistingRun>,
    cohort_has_run: bool,
) -> Option<Fault> {
    either_fault(
        commit_fault(commit),
        either_fault(
            persisted_policy_fault(policy_row, policy_count, policy),
            match existing {
                Some(run) => fault_when(!applied_commit(run, commit), Fault::RetirementConflict),
                None => either_fault(
                    sqlite_integer_fault(commit.key.cohort_day, "cohort_day"@),
                    fault_when(cohort_has_run, Fault::RetirementConflict),
                ),
            },
        ),
    )
}

/// Decides whether a commit is to be applied or was applied before.
pub fn begin_retirement(
    commit: &RetirementCommit,
    policy_row: &Option<PolicyRow>,
    policy_count: i64,
    policy: &Policy,
    existing: &Option<ExistingRun>,
    cohort_has_run: bool,
) -> (outcome: Result<ApplyOutcome, StoreError>)
    ensures
        fault_of(outcome) == begin_fault(
            *commit,
            *policy_row,
            policy_count,
            *policy,
            *existing,
            cohort_has_run,
        ),
        outcome matches Ok(outcome) ==> outcome == outcome_of(*existing),
{
    validate_retirement_commit(commit)?;
    verify_persisted_poc_policy(policy_row, policy_count, policy)?;
    match existing {
        Some(run) => {
            let receipt_agrees = match &run.receipt_digest {
                Some(digest) => same_bytes(
                    digest.as_slice(),
                    commit.receipt.receipt_digest.as_slice(),
                ),
                None => false,
            };
            if same_bytes(run.plan_digest.as_slice(), commit.plan_digest.as_slice())
                && receipt_agrees && same_text(run.status.as_str(), "applied") {
                return Ok(ApplyOutcome::AlreadyApplied);
            }
            Err(StoreError::RetirementConflict)
        },
        None => {
            sqlite_integer(commit.key.cohort_day, "cohort_day")?;
            if cohort_has_run {
                return Err(StoreError::RetirementConflict);
            }
            Ok(ApplyOutcome::Applied)
        },
    }
}

/// The fault of a commit that does not fit the cohort as it stands now.
pub open spec fn admission_fault(
    root: Seq<char>,
    commit: RetirementCommit,
    current: CohortSnapshot,
    authorities: PinAuthorities,
    integrity: Map<Seq<u8>, IntegrityStatus>,
) -> Option<Fault> {
    either_fault(
        fault_when(
            current.input_set_digest@ != commit.expected_input_set_digest@,
            Fault::StalePlan {
                expected: hex_text(commit.expected_input_set_digest@),
                actual: hex_text(current.input_set_digest@),
            },
        ),
        either_fault(
            decision_closure_fault(current, commit),
            either_fault(
                pins_fault(root, current, commit, authorities, integrity),
                either_fault(
                    sqlite_integer_fault(commit.key.cohort_day, "cohort_day"@),
                    sqlite_integer_fault(commit.key.as_of_us, "as_of_us"@),
                ),
            ),
        ),
    )
}

/// The cohort day and the time of an admitted commit as columns hold them, and the number of atoms
/// that took part in the lottery where that is to be recorded.
#[derive(Clone, Debug)]
pub struct Admission {
    pub cohort_day: i64,
    pub as_of_us: i64,
    pub population: Option<String>,
}

/// What is recorded of the lottery of a cohort: how many complete atoms took part, unless all did
/// that permit exact retention.
pub open spec fn population_record(
    atoms: Seq<SnapshotAtom>,
    integrity: Map<Seq<u8>, IntegrityStatus>,
) -> Option<Seq<char>> {
    if eligible_count(atoms, integrity) == permitted_count(atoms) {
        None
    } else {
        Some(decimal(eligible_count(atoms, integrity)))
    }
}

/// The number of atoms that took part in a lottery is the only one that a receipt may state later:
/// where it was recorded on admission, or where no record was due, the population that is checked
/// against is the one that was counted, whatever has become of the atoms since.
pub proof fn law_counted_population_is_the_only_one(
    atoms: Seq<SnapshotAtom>,
    integrity: Map<Seq<u8>, IntegrityStatus>,
    population: LotteryPopulation,
    count: nat,
)
    requires
        population.permitted == permitted_count(atoms),
        optional_text(population.recorded) == population_record(atoms, integrity),
    ensures
        is_population(count, population) <==> count == eligible_count(atoms, integrity),
{
    let counted = eligible_count(atoms, integrity);
    lemma_eligible_permit(atoms, integrity);
    if counted != permitted_count(atoms) && decimal(count) == decimal(counted) {
        lemma_decimal_tells_apart(count, counted);
    }
}

/// Names the record of the lottery of a run.
pub fn population_key(run_id: &[u8]) -> (key: String)
    ensures
        key@ == "retirement_population:"@ + hex_text(run_id@),
{
    let hex = bytes_hex(run_id);
    text2("retirement_population:", hex.as_str())
}

/// Admits a commit to the cohort as it stands now: it was made for exactly this cohort, decides
/// each of its atoms, stays within all budgets and pins what it must.
pub fn admit_retirement(
    store: &ArtifactStore,
    commit: &RetirementCommit,
    current: &CohortSnapshot,
    authorities: &PinAuthorities,
    integrity: &ByteMap<IntegrityStatus>,
) -> (admission: Result<Admission, StoreError>)
    ensures
        fault_of(admission) == admission_fault(
            store@,
            *commit,
            *current,
            *authorities,
            integrity@,
        ),
        admission matches Ok(admission) ==> {
            &&& admission.cohort_day == commit.key.cohort_day
            &&& admission.as_of_us == commit.key.as_of_us
            &&& optional_text(admission.population) == population_record(
                current.atoms@,
                integrity@,
            )
        },
{
    if !same_digest(&current.input_set_digest, &commit.expected_input_set_digest) {
        return Err(
            StoreError::StalePlan {
                expected: digest_hex(&commit.expected_input_set_digest),
                actual: digest_hex(&current.input_set_digest),
            },
        );
    }
    validate_decision_closure(current, commit)?;
    validate_pins(store, current, commit, authorities, integrity)?;
    let cohort_day: i64 = sqlite_integer(commit.key.cohort_day, "cohort_day")?;
    let as_of_us: i64 = sqlite_integer(commit.key.as_of_us, "as_of_us")?;
    let complete: usize = count_eligible(&current.atoms, integrity);
    let population: Option<String> = if complete == count_permitted(&current.atoms) {
        None
    } else {
        Some(decimal_text(complete as u64))
    };
    Ok(Admission { cohort_day, as_of_us, population })
}

/// A commit that was applied is not applied again: where its run stands, it begins as applied
/// before, whatever became of its cohort.
pub proof fn law_applied_commit_is_not_applied_again(
    commit: RetirementCommit,
    policy_row: Option<PolicyRow>,
    policy_count: i64,
    policy: Policy,
    run: ExistingRun,
    cohort_has_run: bool,
)
    requires
        commit_fault(commit) is None,
        persisted_policy_fault(policy_row, policy_count, policy) is None,
        applied_commit(run, commit),
    ensures
        begin_fault(commit, policy_row, policy_count, policy, Some(run), cohort_has_run) is None,
{
}

/// A cohort is retired at most once: once it has a run, a commit of any other run conflicts.
pub proof fn law_cohort_retires_at_most_once(
    commit: RetirementCommit,
    policy_row: Option<PolicyRow>,
    policy_count: i64,
    policy: Policy,
)
    ensures
        begin_fault(commit, policy_row, policy_count, policy, None, true) is Some,
{
}

/// A commit that was made for another state of its cohort is refused as stale before anything is
/// written.
pub proof fn law_stale_commit_is_refused(
    root: Seq<char>,
    commit: RetirementCommit,
    current: CohortSnapshot,
    authorities: PinAuthorities,
    integrity: Map<Seq<u8>, IntegrityStatus>,
)
    requires
        current.input_set_digest@ != commit.expected_input_set_digest@,
    ensures
        admission_fault(root, commit, current, authorities, integrity) == Some(
            Fault::StalePlan {
                expected: hex_text(commit.expected_input_set_digest@),
                actual: hex_text(current.input_set_digest@),
            },
        ),
{
}

// ---------------------------------------------------------------------------------------------
// Semantic outputs

/// The fault of a semantic output that does not belong to the cohort or declares artifacts.
pub open spec fn output_fault(
    key: CohortKey,
    record: AtomRecord,
    parsed: Result<CoreAtom, String>,
) -> Option<Fault> {
    if record.atom_kind@ != "semantic"@ || record.memory_space_id@ != key.memory_space_id@
        || record.retention_tier@ != "ltm_semantic"@ || record.content_status@ != "present"@ {
        Some(
            Fault::InvalidRetirementPlan(
                "semantic output has invalid kind, scope, tier, or state"@,
            ),
        )
    } else {
        match parsed {
            Err(text) => Some(Fault::Json(text@)),
            Ok(typed) => if typed.body.artifacts@.len() != 0 {
                Some(
                    Fault::InvalidRetirementPlan(
                        "poc-v1 semantic output cannot declare artifacts"@,
                    ),
                )
            } else {
                fault_when(
                    typed.authority.canonical_body@ != record.canonical_body@
                        || typed.authority.atom_id@ != record.atom_id@ || typed.authority.atom_id@
                        != record.body_digest@,
                    Fault::Integrity(
                        "typed atom projection does not match its canonical authority body"@,
                    ),
                )
            },
        }
    }
}

/// What a semantic output is stored as.
#[derive(Clone, Debug)]
pub struct SemanticOutput {
    pub rows: AtomRows,
    pub relation_links: Vec<AtomRelationLink>,
}

/// The fault of a semantic output that cannot be stored, or that stands there already.
pub open spec fn output_insertion_fault(
    key: CohortKey,
    record: AtomRecord,
    parsed: Result<CoreAtom, String>,
    projected: Result<ProjectedProvenance, String>,
    policy: Policy,
    existing: Option<ExistingAtom>,
    cohort_retired: bool,
) -> Option<Fault> {
    either_fault(
        output_fault(key, record, parsed),
        either_fault(
            insertion_fault(record, projected, policy, existing, cohort_retired),
            fault_when(existing is Some, Fault::RetirementConflict),
        ),
    )
}

/// Decides what a semantic output is stored as: new rows and the relations that it declares.
pub fn store_semantic_output(
    key: &CohortKey,
    record: &AtomRecord,
    parsed: &Result<CoreAtom, String>,
    projected: &Result<ProjectedProvenance, String>,
    policy: &Policy,
    existing: &Option<ExistingAtom>,
    cohort_retired: bool,
) -> (output: Result<SemanticOutput, StoreError>)
    ensures
        fault_of(output) == output_insertion_fault(
            *key,
            *record,
            *parsed,
            *projected,
            *policy,
            *existing,
            cohort_retired,
        ),
        output matches Ok(output) ==> {
            &&& is_rows_of(output.rows, *record)
            &&& *parsed matches Ok(typed) && relation_link_list(output.relation_links@)
                == relation_links_of(typed.body.relations@)
        },
{
    if !same_text(record.atom_kind.as_str(), "semantic") || !same_text(
        record.memory_space_id.as_str(),
        key.memory_space_id.as_str(),
    ) || !same_text(record.retention_tier.as_str(), "ltm_semantic") || !same_text(
        record.content_status.as_str(),
        "present",
    ) {
        return Err(invalid_plan("semantic output has invalid kind, scope, tier, or state"));
    }
    let typed = match parsed {
        Ok(typed) => typed,
        Err(text) => return Err(StoreError::Json(text.clone())),
    };
    if typed.body.artifacts.len() != 0 {
        return Err(invalid_plan("poc-v1 semantic output cannot declare artifacts"));
    }
    let relation_links = prepare_relation_links(&typed.body.relations);
    let artifact_links: Vec<AtomArtifactLink> = Vec::new();
    assert(artifact_link_list(artifact_links@) =~= declared_links(typed.body.artifacts@));
    validate_declared_core_link_closure(record, parsed, &artifact_links, &relation_links)?;
    match put_atom(record, projected, policy, existing, cohort_retired)? {
        Some(rows) => Ok(SemanticOutput { rows, relation_links }),
        None => Err(StoreError::RetirementConflict),
    }
}

// ---------------------------------------------------------------------------------------------
// The writes of a retirement

/// How many atoms are kept exactly, forgotten and left as they are.
#[derive(Clone, Copy, Debug, PartialEq, Eq, Structural)]
pub struct DecisionCounts {
    pub kept: usize,
    pub forgotten: usize,
    pub unchanged: usize,
}

/// The name of a decision that forgets the body of an atom.
pub open spec fn is_forgetting_name(name: Seq<char>) -> bool {
    name == "semantic_source"@ || name == "forgotten"@
}

/// How many of a list of decisions keep an atom exactly.
pub open spec fn kept_count(decisions: Seq<PersistedDecision>) -> nat
    decreases decisions.len(),
{
    if decisions.len() == 0 {
        0
    } else {
        kept_count(decisions.drop_last()) + (if is_winner_name(decisions.last().decision@) {
            1nat
        } else {
            0
        })
    }
}

/// How many of a list of decisions forget an atom.
pub open spec fn forgotten_count(decisions: Seq<PersistedDecision>) -> nat
    decreases decisions.len(),
{
    if decisions.len() == 0 {
        0
    } else {
        forgotten_count(decisions.drop_last()) + (if is_forgetting_name(
            decisions.last().decision@,
        ) {
            1nat
        } else {
            0
        })
    }
}

/// Counts decisions by what they do to an atom. Each does one thing.
pub fn count_decisions(decisions: &Vec<PersistedDecision>) -> (counts: Result<
    DecisionCounts,
    StoreError,
>)
    ensures
        fault_of(counts) == counts_fault(decisions@),
        counts matches Ok(counts) ==> {
            &&& counts.kept == kept_count(decisions@)
            &&& counts.forgotten == forgotten_count(decisions@)
            &&& counts.kept + counts.forgotten + counts.unchanged == decisions@.len()
        },
{
    let mut kept: usize = 0;
    let mut forgotten: usize = 0;
    let mut unchanged: usize = 0;
    let mut i: usize = 0;
    assert(decisions@.subrange(0, 0) =~= Seq::<PersistedDecision>::empty());
    while i < decisions.len()
        invariant
            i <= decisions@.len(),
            forall|k: int| 0 <= k < i ==> is_decision_name((#[trigger] decisions@[k]).decision@),
            kept == kept_count(decisions@.subrange(0, i as int)),
            forgotten == forgotten_count(decisions@.subrange(0, i as int)),
            kept + forgotten + unchanged == i,
        decreases decisions@.len() - i,
    {
        proof {
            let longer = decisions@.subrange(0, i + 1);
            assert(longer.drop_last() =~= decisions@.subrange(0, i as int));
            assert(longer.last() == decisions@[i as int]);
            lemma_decision_names();
        }
        let name = decisions[i].decision.as_str();
        if winner_decision(name) {
            kept += 1;
        } else if same_text(name, "semantic_source") || same_text(name, "forgotten") {
            forgotten += 1;
        } else if same_text(name, "unchanged") {
            unchanged += 1;
        } else {
            assert(!is_decision_name(decisions@[i as int].decision@));
            return Err(invalid_plan("unknown retirement decision"));
        }
        i += 1;
    }
    assert(decisions@.subrange(0, i as int) =~= decisions@);
    Ok(DecisionCounts { kept, forgotten, unchanged })
}

proof fn lemma_decision_names()
    ensures
        "episodic_winner"@ != "semantic_source"@,
        "episodic_winner"@ != "forgotten"@,
        "semantic_and_episodic"@ != "semantic_source"@,
        "semantic_and_episodic"@ != "forgotten"@,
        "unchanged"@ != "semantic_source"@,
        "unchanged"@ != "forgotten"@,
        "unchanged"@ != "episodic_winner"@,
        "unchanged"@ != "semantic_and_episodic"@,
{
    reveal_strlit("episodic_winner");
    reveal_strlit("semantic_and_episodic");
    reveal_strlit("semantic_source");
    reveal_strlit("forgotten");
    reveal_strlit("unchanged");
    assert("episodic_winner"@.len() == 15);
    assert("semantic_and_episodic"@.len() == 21);
    assert("semantic_source"@.len() == 15);
    assert("forgotten"@.len() == 9);
    assert("unchanged"@.len() == 9);
    assert("episodic_winner"@[0] == 'e');
    assert("semantic_source"@[0] == 's');
    assert("forgotten"@[0] == 'f');
    assert("unchanged"@[0] == 'u');
}

/// One step of a retirement.
#[derive(Clone, Copy, Debug, PartialEq, Eq, Structural)]
pub enum RetirementStep {
    InsertRun,
    InsertPostState,
    RecordPopulation,
    InsertSemanticAtom(usize),
    InsertMember(usize),
    InsertDecision(usize),
    KeepWinners,
    ForgetSources,
    BindUnchanged,
    DeleteBodies,
    DeleteProjections,
    DeleteSearchRows,
    DeleteReferences,
    InsertPin(usize),
    ClearMark(usize),
    InsertReceipt,
    CompleteRun,
    VerifyReceipt,
    Observe(RepositoryFaultPointV1),
    Commit,
}

/// The steps that insert the semantic atoms.
pub open spec fn atom_steps(count: nat) -> Seq<RetirementStep> {
    Seq::new(count, |i: int| RetirementStep::InsertSemanticAtom(i as usize))
}

/// The steps that insert members and decisions, one of each in turn.
pub open spec fn decision_steps(count: nat) -> Seq<RetirementStep> {
    Seq::new(
        2 * count,
        |i: int|
            if i % 2 == 0 {
                RetirementStep::InsertMember((i / 2) as usize)
            } else {
                RetirementStep::InsertDecision((i / 2) as usize)
            },
    )
}

/// The steps that insert pins and take back collection marks, one of each in turn.
pub open spec fn pin_steps(count: nat) -> Seq<RetirementStep> {
    Seq::new(
        2 * count,
        |i: int|
            if i % 2 == 0 {
                RetirementStep::InsertPin((i / 2) as usize)
            } else {
                RetirementStep::ClearMark((i / 2) as usize)
            },
    )
}

/// The steps that create the run, with those that took part in its lottery where that is recorded.
pub open spec fn opening_steps(recorded: bool) -> Seq<RetirementStep> {
    if recorded {
        seq![
            RetirementStep::InsertRun,
            RetirementStep::InsertPostState,
            RetirementStep::RecordPopulation,
            RetirementStep::Observe(RepositoryFaultPointV1::RetirementAfterRunCreation),
        ]
    } else {
        seq![
            RetirementStep::InsertRun,
            RetirementStep::InsertPostState,
            RetirementStep::Observe(RepositoryFaultPointV1::RetirementAfterRunCreation),
        ]
    }
}

/// The steps that change the state of the decided atoms and forget what is to be forgotten.
pub open spec fn state_steps() -> Seq<RetirementStep> {
    seq![
        RetirementStep::Observe(RepositoryFaultPointV1::RetirementAfterDecisionPersistence),
        RetirementStep::KeepWinners,
        RetirementStep::ForgetSources,
        RetirementStep::BindUnchanged,
        RetirementStep::Observe(RepositoryFaultPointV1::RetirementAfterStateMutation),
        RetirementStep::DeleteBodies,
        RetirementStep::DeleteProjections,
        RetirementStep::DeleteSearchRows,
        RetirementStep::DeleteReferences,
        RetirementStep::Observe(RepositoryFaultPointV1::RetirementAfterForgetting),
    ]
}

/// The steps that write the receipt, complete the run and commit.
pub open spec fn closing_steps() -> Seq<RetirementStep> {
    seq![
        RetirementStep::Observe(RepositoryFaultPointV1::RetirementAfterArtifactPins),
        RetirementStep::InsertReceipt,
        RetirementStep::Observe(RepositoryFaultPointV1::RetirementAfterReceiptInsertion),
        RetirementStep::CompleteRun,
        RetirementStep::Observe(RepositoryFaultPointV1::RetirementAfterRunCompletion),
        RetirementStep::VerifyReceipt,
        RetirementStep::Observe(RepositoryFaultPointV1::RetirementBeforeCommit),
        RetirementStep::Commit,
    ]
}

/// All the steps of a retirement with so many semantic atoms, decisions and pins.
pub open spec fn retirement_steps(
    recorded: bool,
    atoms: nat,
    decisions: nat,
    pins: nat,
) -> Seq<RetirementStep> {
    opening_steps(recorded) + atom_steps(atoms) + seq![
        RetirementStep::Observe(RepositoryFaultPointV1::RetirementAfterSemanticInsertion),
    ] + decision_steps(decisions) + state_steps() + pin_steps(pins) + closing_steps()
}

fn add_atom_steps(steps: Vec<RetirementStep>, count: usize) -> (more: Vec<RetirementStep>)
    ensures
        more@ == steps@ + atom_steps(count as nat),
{
    let ghost start = steps@;
    let mut more = steps;
    let mut i: usize = 0;
    assert(more@ =~= start + atom_steps(0));
    while i < count
        invariant
            i <= count,
            more@ == start + atom_steps(i as nat),
        decreases count - i,
    {
        more.push(RetirementStep::InsertSemanticAtom(i));
        i += 1;
        assert(more@ =~= start + atom_steps(i as nat));
    }
    more
}

fn add_decision_steps(steps: Vec<RetirementStep>, count: usize) -> (more: Vec<RetirementStep>)
    ensures
        more@ == steps@ + decision_steps(count as nat),
{
    let ghost start = steps@;
    let mut more = steps;
    let mut i: usize = 0;
    assert(more@ =~= start + decision_steps(0));
    while i < count
        invariant
            i <= count,
            more@ == start + decision_steps(i as nat),
        decreases count - i,
    {
        more.push(RetirementStep::InsertMember(i));
        more.push(RetirementStep::InsertDecision(i));
        i += 1;
        proof {
            assert((2 * (i - 1)) % 2 == 0 && (2 * (i - 1)) / 2 == i - 1);
            assert((2 * (i - 1) + 1) % 2 == 1 && (2 * (i - 1) + 1) / 2 == i - 1);
            assert(more@ =~= start + decision_steps(i as nat));
        }
    }
    more
}

fn add_pin_steps(steps: Vec<RetirementStep>, count: usize) -> (more: Vec<RetirementStep>)
    ensures
        more@ == steps@ + pin_steps(count as nat),
{
    let ghost start = steps@;
    let mut more = steps;
    let mut i: usize = 0;
    assert(more@ =~= start + pin_steps(0));
    while i < count
        invariant
            i <= count,
            more@ == start + pin_steps(i as nat),
        decreases count - i,
    {
        more.push(RetirementStep::InsertPin(i));
        more.push(RetirementStep::ClearMark(i));
        i += 1;
        proof {
            assert((2 * (i - 1)) % 2 == 0 && (2 * (i - 1)) / 2 == i - 1);
            assert((2 * (i - 1) + 1) % 2 == 1 && (2 * (i - 1) + 1) / 2 == i - 1);
            assert(more@ =~= start + pin_steps(i as nat));
        }
    }
    more
}

/// Lists the steps of applying an admitted commit, in order.
pub fn apply_steps(commit: &RetirementCommit, admission: &Admission) -> (steps: Vec<
    RetirementStep,
>)
    ensures
        steps@ == retirement_steps(
            admission.population is Some,
            commit.semantic_atoms@.len(),
            commit.decisions@.len(),
            commit.artifact_pins@.len(),
        ),
{
    let mut steps: Vec<RetirementStep> = Vec::new();
    steps.push(RetirementStep::InsertRun);
    steps.push(RetirementStep::InsertPostState);
    if admission.population.is_some() {
        steps.push(RetirementStep::RecordPopulation);
    }
    steps.push(RetirementStep::Observe(RepositoryFaultPointV1::RetirementAfterRunCreation));
    assert(steps@ =~= opening_steps(admission.population is Some));
    let mut steps = add_atom_steps(steps, commit.semantic_atoms.len());
    let ghost before = steps@;
    steps.push(RetirementStep::Observe(RepositoryFaultPointV1::RetirementAfterSemanticInsertion));
    assert(steps@ =~= before + seq![
        RetirementStep::Observe(RepositoryFaultPointV1::RetirementAfterSemanticInsertion),
    ]);
    let mut steps = add_decision_steps(steps, commit.decisions.len());
    let ghost before = steps@;
    steps.push(RetirementStep::Observe(RepositoryFaultPointV1::RetirementAfterDecisionPersistence));
    steps.push(RetirementStep::KeepWinners);
    steps.push(RetirementStep::ForgetSources);
    steps.push(RetirementStep::BindUnchanged);
    steps.push(RetirementStep::Observe(RepositoryFaultPointV1::RetirementAfterStateMutation));
    steps.push(RetirementStep::DeleteBodies);
    steps.push(RetirementStep::DeleteProjections);
    steps.push(RetirementStep::DeleteSearchRows);
    steps.push(RetirementStep::DeleteReferences);
    steps.push(RetirementStep::Observe(RepositoryFaultPointV1::RetirementAfterForgetting));
    assert(steps@ =~= before + state_steps());
    let mut steps = add_pin_steps(steps, commit.artifact_pins.len());
    let ghost before = steps@;
    steps.push(RetirementStep::Observe(RepositoryFaultPointV1::RetirementAfterArtifactPins));
    steps.push(RetirementStep::InsertReceipt);
    steps.push(RetirementStep::Observe(RepositoryFaultPointV1::RetirementAfterReceiptInsertion));
    steps.push(RetirementStep::CompleteRun);
    steps.push(RetirementStep::Observe(RepositoryFaultPointV1::RetirementAfterRunCompletion));
    steps.push(RetirementStep::VerifyReceipt);
    steps.push(RetirementStep::Observe(RepositoryFaultPointV1::RetirementBeforeCommit));
    steps.push(RetirementStep::Commit);
    assert(steps@ =~= before + closing_steps());
    steps
}

/// How many rows a step must change; any number where it says nothing.
pub open spec fn required_changes(step: RetirementStep, counts: DecisionCounts) -> Option<usize> {
    match step {
        RetirementStep::InsertRun => Some(1usize),
        RetirementStep::InsertPostState => Some(1usize),
        RetirementStep::RecordPopulation => Some(1usize),
        RetirementStep::InsertMember(_) => Some(1usize),
        RetirementStep::InsertDecision(_) => Some(1usize),
        RetirementStep::KeepWinners => Some(counts.kept),
        RetirementStep::ForgetSources => Some(counts.forgotten),
        RetirementStep::BindUnchanged => Some(counts.unchanged),
        RetirementStep::DeleteBodies => Some(counts.forgotten),
        RetirementStep::DeleteProjections => Some(counts.forgotten),
        RetirementStep::DeleteSearchRows => Some(counts.forgotten),
        RetirementStep::InsertPin(_) => Some(1usize),
        RetirementStep::ClearMark(_) => Some(1usize),
        RetirementStep::InsertReceipt => Some(1usize),
        RetirementStep::CompleteRun => Some(1usize),
        _ => None,
    }
}

/// Confirms that a step changed as many rows as it must.
pub fn confirm_step(step: RetirementStep, counts: DecisionCounts, changed: usize) -> (verdict:
    Result<(), StoreError>)
    ensures
        fault_of(verdict) == step_fault(step, counts, changed),
{
    let expected: usize = match step {
        RetirementStep::InsertRun => 1,
        RetirementStep::InsertPostState => 1,
        RetirementStep::RecordPopulation => 1,
        RetirementStep::InsertMember(_) => 1,
        RetirementStep::InsertDecision(_) => 1,
        RetirementStep::KeepWinners => counts.kept,
        RetirementStep::ForgetSources => counts.forgotten,
        RetirementStep::BindUnchanged => counts.unchanged,
        RetirementStep::DeleteBodies => counts.forgotten,
        RetirementStep::DeleteProjections => counts.forgotten,
        RetirementStep::DeleteSearchRows => counts.forgotten,
        RetirementStep::InsertPin(_) => 1,
        RetirementStep::ClearMark(_) => 1,
        RetirementStep::InsertReceipt => 1,
        RetirementStep::CompleteRun => 1,
        _ => return Ok(()),
    };
    ensure_exact_change_count(changed, expected)
}

/// Confirms that a write changed as many rows as it must.
pub fn ensure_exact_change_count(actual: usize, expected: usize) -> (verdict: Result<
    (),
    StoreError,
>)
    ensures
        fault_of(verdict) == fault_when(actual != expected, Fault::RetirementConflict),
{
    if actual != expected {
        return Err(StoreError::RetirementConflict);
    }
    Ok(())
}

/// A retirement commits last and only once, right after the receipt was verified against
/// everything that was written.
pub proof fn law_retirement_commits_last(
    recorded: bool,
    atoms: nat,
    decisions: nat,
    pins: nat,
    i: int,
)
    requires
        0 <= i < retirement_steps(recorded, atoms, decisions, pins).len(),
    ensures
        retirement_steps(recorded, atoms, decisions, pins)[i] == RetirementStep::Commit <==> i
            == retirement_steps(recorded, atoms, decisions, pins).len() - 1,
        retirement_steps(recorded, atoms, decisions, pins)[i] == RetirementStep::VerifyReceipt <==> i
            == retirement_steps(recorded, atoms, decisions, pins).len() - 3,
{
    let early = opening_steps(recorded) + atom_steps(atoms) + seq![
        RetirementStep::Observe(RepositoryFaultPointV1::RetirementAfterSemanticInsertion),
    ] + decision_steps(decisions) + state_steps() + pin_steps(pins);
    let steps = retirement_steps(recorded, atoms, decisions, pins);
    assert(steps == early + closing_steps());
    assert(closing_steps().len() == 8);
    if i < early.len() {
        assert(steps[i] == early[i]);
        let first = opening_steps(recorded) + atom_steps(atoms);
        let second = first + seq![
            RetirementStep::Observe(RepositoryFaultPointV1::RetirementAfterSemanticInsertion),
        ];
        let third = second + decision_steps(decisions);
        let fourth = third + state_steps();
        let opened = opening_steps(recorded).len() as int;
        assert(opened == if recorded { 4int } else { 3int });
        assert(state_steps().len() == 10);
        if i < opened {
            assert(steps[i] == opening_steps(recorded)[i]);
        } else if i < first.len() {
            assert(steps[i] == atom_steps(atoms)[i - opened]);
        } else if i < second.len() {
            assert(steps[i] == second[i]);
        } else if i < third.len() {
            assert(steps[i] == decision_steps(decisions)[i - second.len()]);
        } else if i < fourth.len() {
            assert(steps[i] == state_steps()[i - third.len()]);
        } else {
            assert(steps[i] == pin_steps(pins)[i - fourth.len()]);
        }
    } else {
        assert(steps[i] == closing_steps()[i - early.len()]);
    }
}

/// At which step a retirement with so many semantic atoms, decisions and pins comes to a point.
pub open spec fn place_of_point(
    recorded: bool,
    atoms: nat,
    decisions: nat,
    pins: nat,
    point: RepositoryFaultPointV1,
) -> int {
    let opened: int = opening_steps(recorded).len() as int;
    let decided: int = opened + 1 + atoms as int + 2 * decisions as int;
    let pinned: int = decided + 10 + 2 * pins as int;
    match point {
        RepositoryFaultPointV1::RetirementAfterRunCreation => opened - 1,
        RepositoryFaultPointV1::RetirementAfterSemanticInsertion => opened + atoms as int,
        RepositoryFaultPointV1::RetirementAfterDecisionPersistence => decided,
        RepositoryFaultPointV1::RetirementAfterStateMutation => decided + 4,
        RepositoryFaultPointV1::RetirementAfterForgetting => decided + 9,
        RepositoryFaultPointV1::RetirementAfterArtifactPins => pinned,
        RepositoryFaultPointV1::RetirementAfterReceiptInsertion => pinned + 2,
        RepositoryFaultPointV1::RetirementAfterRunCompletion => pinned + 4,
        RepositoryFaultPointV1::RetirementBeforeCommit => pinned + 6,
        _ => -1,
    }
}

/// Every point of a retirement comes exactly once and before the commit, each after those that
/// stand before it in the order of all points; no point of a draft comes at all.
pub proof fn law_retirement_points_come_in_order(
    recorded: bool,
    atoms: nat,
    decisions: nat,
    pins: nat,
    point: RepositoryFaultPointV1,
    later: RepositoryFaultPointV1,
    i: int,
)
    requires
        0 <= i < retirement_steps(recorded, atoms, decisions, pins).len(),
    ensures
        retirement_steps(recorded, atoms, decisions, pins)[i] == RetirementStep::Observe(point) <==> i
            == place_of_point(recorded, atoms, decisions, pins, point),
        4 <= point.place() < later.place() ==> place_of_point(recorded, atoms, decisions, pins, point)
            < place_of_point(recorded, atoms, decisions, pins, later),
        4 <= point.place() ==> 0 <= place_of_point(recorded, atoms, decisions, pins, point)
            < retirement_steps(recorded, atoms, decisions, pins).len() - 1,
{
    let steps = retirement_steps(recorded, atoms, decisions, pins);
    let first = opening_steps(recorded) + atom_steps(atoms);
    let second = first + seq![
        RetirementStep::Observe(RepositoryFaultPointV1::RetirementAfterSemanticInsertion),
    ];
    let third = second + decision_steps(decisions);
    let fourth = third + state_steps();
    let fifth = fourth + pin_steps(pins);
    assert(steps == fifth + closing_steps());
    let opened = opening_steps(recorded).len() as int;
    assert(opened == if recorded { 4int } else { 3int });
    assert(atom_steps(atoms).len() == atoms);
    assert(decision_steps(decisions).len() == 2 * decisions);
    assert(state_steps().len() == 10);
    assert(pin_steps(pins).len() == 2 * pins);
    assert(closing_steps().len() == 8);
    if i < opened {
        assert(steps[i] == opening_steps(recorded)[i]);
    } else if i < first.len() {
        assert(steps[i] == atom_steps(atoms)[i - opened]);
    } else if i < second.len() {
        assert(steps[i] == second[i]);
    } else if i < third.len() {
        assert(steps[i] == decision_steps(decisions)[i - second.len()]);
    } else if i < fourth.len() {
        assert(steps[i] == state_steps()[i - third.len()]);
    } else if i < fifth.len() {
        assert(steps[i] == pin_steps(pins)[i - fourth.len()]);
    } else {
        assert(steps[i] == closing_steps()[i - fifth.len()]);
    }
}

/// Whether a list of steps takes a step exactly once, at a place.
pub open spec fn taken_once_at(steps: Seq<RetirementStep>, step: RetirementStep, place: int) -> bool {
    &&& 0 <= place < steps.len()
    &&& forall|i: int| 0 <= i < steps.len() ==> (#[trigger] steps[i] == step <==> i == place)
}

/// Whether a list of steps takes a step exactly once.
pub open spec fn taken_once(steps: Seq<RetirementStep>, step: RetirementStep) -> bool {
    exists|place: int| taken_once_at(steps, step, place)
}

/// Whether a list of steps never takes one step after another, wherever it takes the two.
pub open spec fn taken_before(
    steps: Seq<RetirementStep>,
    first: RetirementStep,
    second: RetirementStep,
) -> bool {
    forall|i: int, j: int|
        0 <= i < steps.len() && 0 <= j < steps.len() && #[trigger] steps[i] == first
            && #[trigger] steps[j] == second ==> i < j
}

/// Where a retirement takes a step; nowhere if it does not take it.
spec fn place_of_step(
    recorded: bool,
    atoms: nat,
    decisions: nat,
    pins: nat,
    step: RetirementStep,
) -> int {
    let opened: int = if recorded {
        4
    } else {
        3
    };
    let decided: int = opened + 1 + atoms as int + 2 * decisions as int;
    let pinned: int = decided + 10 + 2 * pins as int;
    match step {
        RetirementStep::InsertRun => 0,
        RetirementStep::InsertPostState => 1,
        RetirementStep::RecordPopulation => if recorded {
            2
        } else {
            -1
        },
        RetirementStep::InsertSemanticAtom(k) => if k < atoms {
            opened + k
        } else {
            -1
        },
        RetirementStep::InsertMember(k) => if k < decisions {
            opened + 1 + atoms as int + 2 * k
        } else {
            -1
        },
        RetirementStep::InsertDecision(k) => if k < decisions {
            opened + 1 + atoms as int + 2 * k + 1
        } else {
            -1
        },
        RetirementStep::KeepWinners => decided + 1,
        RetirementStep::ForgetSources => decided + 2,
        RetirementStep::BindUnchanged => decided + 3,
        RetirementStep::DeleteBodies => decided + 5,
        RetirementStep::DeleteProjections => decided + 6,
        RetirementStep::DeleteSearchRows => decided + 7,
        RetirementStep::DeleteReferences => decided + 8,
        RetirementStep::InsertPin(k) => if k < pins {
            decided + 10 + 2 * k
        } else {
            -1
        },
        RetirementStep::ClearMark(k) => if k < pins {
            decided + 10 + 2 * k + 1
        } else {
            -1
        },
        RetirementStep::InsertReceipt => pinned + 1,
        RetirementStep::CompleteRun => pinned + 3,
        RetirementStep::VerifyReceipt => pinned + 5,
        RetirementStep::Commit => pinned + 7,
        RetirementStep::Observe(point) => match point {
            RepositoryFaultPointV1::RetirementAfterRunCreation => opened - 1,
            RepositoryFaultPointV1::RetirementAfterSemanticInsertion => opened + atoms as int,
            RepositoryFaultPointV1::RetirementAfterDecisionPersistence => decided,
            RepositoryFaultPointV1::RetirementAfterStateMutation => decided + 4,
            RepositoryFaultPointV1::RetirementAfterForgetting => decided + 9,
            RepositoryFaultPointV1::RetirementAfterArtifactPins => pinned,
            RepositoryFaultPointV1::RetirementAfterReceiptInsertion => pinned + 2,
            RepositoryFaultPointV1::RetirementAfterRunCompletion => pinned + 4,
            RepositoryFaultPointV1::RetirementBeforeCommit => pinned + 6,
            _ => -1,
        },
    }
}

proof fn lemma_step_at(
    recorded: bool,
    atoms: nat,
    decisions: nat,
    pins: nat,
    step: RetirementStep,
    i: int,
)
    requires
        atoms <= usize::MAX,
        decisions <= usize::MAX,
        pins <= usize::MAX,
        0 <= i < retirement_steps(recorded, atoms, decisions, pins).len(),
    ensures
        retirement_steps(recorded, atoms, decisions, pins)[i] == step <==> i == place_of_step(
            recorded,
            atoms,
            decisions,
            pins,
            step,
        ),
        place_of_step(recorded, atoms, decisions, pins, step) < retirement_steps(
            recorded,
            atoms,
            decisions,
            pins,
        ).len(),
{
    let steps = retirement_steps(recorded, atoms, decisions, pins);
    let first = opening_steps(recorded) + atom_steps(atoms);
    let second = first + seq![
        RetirementStep::Observe(RepositoryFaultPointV1::RetirementAfterSemanticInsertion),
    ];
    let third = second + decision_steps(decisions);
    let fourth = third + state_steps();
    let fifth = fourth + pin_steps(pins);
    assert(steps == fifth + closing_steps());
    let opened = opening_steps(recorded).len() as int;
    assert(opened == if recorded { 4int } else { 3int });
    assert(atom_steps(atoms).len() == atoms);
    assert(decision_steps(decisions).len() == 2 * decisions);
    assert(state_steps().len() == 10);
    assert(pin_steps(pins).len() == 2 * pins);
    assert(closing_steps().len() == 8);
    if i < opened {
        assert(steps[i] == opening_steps(recorded)[i]);
    } else if i < first.len() {
        assert(steps[i] == atom_steps(atoms)[i - opened]);
    } else if i < second.len() {
        assert(steps[i] == second[i]);
    } else if i < third.len() {
        assert(steps[i] == decision_steps(decisions)[i - second.len()]);
    } else if i < fourth.len() {
        assert(steps[i] == state_steps()[i - third.len()]);
    } else if i < fifth.len() {
        assert(steps[i] == pin_steps(pins)[i - fourth.len()]);
    } else {
        assert(steps[i] == closing_steps()[i - fifth.len()]);
    }
}

proof fn lemma_step_taken(
    recorded: bool,
    atoms: nat,
    decisions: nat,
    pins: nat,
    step: RetirementStep,
)
    requires
        atoms <= usize::MAX,
        decisions <= usize::MAX,
        pins <= usize::MAX,
    ensures
        place_of_step(recorded, atoms, decisions, pins, step) >= 0 ==> taken_once(
            retirement_steps(recorded, atoms, decisions, pins),
            step,
        ),
        place_of_step(recorded, atoms, decisions, pins, step) < 0 ==> !retirement_steps(
            recorded,
            atoms,
            decisions,
            pins,
        ).contains(step),
{
    let steps = retirement_steps(recorded, atoms, decisions, pins);
    let place = place_of_step(recorded, atoms, decisions, pins, step);
    assert(opening_steps(recorded).len() > 0);
    assert(steps.len() > 0);
    lemma_step_at(recorded, atoms, decisions, pins, step, 0);
    assert forall|i: int| 0 <= i < steps.len() implies (#[trigger] steps[i] == step <==> i
        == place) by {
        lemma_step_at(recorded, atoms, decisions, pins, step, i);
    }
    if place >= 0 {
        assert(taken_once_at(steps, step, place));
    }
}

proof fn lemma_steps_in_order(
    recorded: bool,
    atoms: nat,
    decisions: nat,
    pins: nat,
    first: RetirementStep,
    second: RetirementStep,
)
    requires
        atoms <= usize::MAX,
        decisions <= usize::MAX,
        pins <= usize::MAX,
        place_of_step(recorded, atoms, decisions, pins, first) < place_of_step(
            recorded,
            atoms,
            decisions,
            pins,
            second,
        ),
    ensures
        taken_before(retirement_steps(recorded, atoms, decisions, pins), first, second),
{
    let steps = retirement_steps(recorded, atoms, decisions, pins);
    assert forall|i: int, j: int|
        0 <= i < steps.len() && 0 <= j < steps.len() && #[trigger] steps[i] == first
            && #[trigger] steps[j] == second implies i < j by {
        lemma_step_at(recorded, atoms, decisions, pins, first, i);
        lemma_step_at(recorded, atoms, decisions, pins, second, j);
    }
}

/// A retirement does all of its work, and each part once: it creates its run, changes the state of
/// the winners, of the forgotten and of the unchanged atoms, deletes the bodies, the search
/// projections, the full-text rows and the references of what is forgotten, writes its receipt,
/// completes its run, verifies the receipt and commits.
pub proof fn law_retirement_does_each_part_once(
    recorded: bool,
    atoms: nat,
    decisions: nat,
    pins: nat,
)
    requires
        atoms <= usize::MAX,
        decisions <= usize::MAX,
        pins <= usize::MAX,
    ensures
        ({
            let steps = retirement_steps(recorded, atoms, decisions, pins);
            &&& taken_once(steps, RetirementStep::InsertRun)
            &&& taken_once(steps, RetirementStep::InsertPostState)
            &&& recorded ==> taken_once(steps, RetirementStep::RecordPopulation)
            &&& !recorded ==> !steps.contains(RetirementStep::RecordPopulation)
            &&& taken_once(steps, RetirementStep::KeepWinners)
            &&& taken_once(steps, RetirementStep::ForgetSources)
            &&& taken_once(steps, RetirementStep::BindUnchanged)
            &&& taken_once(steps, RetirementStep::DeleteBodies)
            &&& taken_once(steps, RetirementStep::DeleteProjections)
            &&& taken_once(steps, RetirementStep::DeleteSearchRows)
            &&& taken_once(steps, RetirementStep::DeleteReferences)
            &&& taken_once(steps, RetirementStep::InsertReceipt)
            &&& taken_once(steps, RetirementStep::CompleteRun)
            &&& taken_once(steps, RetirementStep::VerifyReceipt)
            &&& taken_once(steps, RetirementStep::Commit)
        }),
{
    let n = RetirementStep::InsertRun;
    lemma_step_taken(recorded, atoms, decisions, pins, n);
    lemma_step_taken(recorded, atoms, decisions, pins, RetirementStep::InsertPostState);
    lemma_step_taken(recorded, atoms, decisions, pins, RetirementStep::RecordPopulation);
    lemma_step_taken(recorded, atoms, decisions, pins, RetirementStep::KeepWinners);
    lemma_step_taken(recorded, atoms, decisions, pins, RetirementStep::ForgetSources);
    lemma_step_taken(recorded, atoms, decisions, pins, RetirementStep::BindUnchanged);
    lemma_step_taken(recorded, atoms, decisions, pins, RetirementStep::DeleteBodies);
    lemma_step_taken(recorded, atoms, decisions, pins, RetirementStep::DeleteProjections);
    lemma_step_taken(recorded, atoms, decisions, pins, RetirementStep::DeleteSearchRows);
    lemma_step_taken(recorded, atoms, decisions, pins, RetirementStep::DeleteReferences);
    lemma_step_taken(recorded, atoms, decisions, pins, RetirementStep::InsertReceipt);
    lemma_step_taken(recorded, atoms, decisions, pins, RetirementStep::CompleteRun);
    lemma_step_taken(recorded, atoms, decisions, pins, RetirementStep::VerifyReceipt);
    lemma_step_taken(recorded, atoms, decisions, pins, RetirementStep::Commit);
}

/// A retirement writes every semantic atom, every member, every decision and every pin exactly
/// once, and nothing beyond them: a place has its steps exactly where the commit has something at
/// that place. The collection mark of every pinned artifact is taken back once.
pub proof fn law_retirement_writes_everything_of_its_commit_once(
    recorded: bool,
    atoms: nat,
    decisions: nat,
    pins: nat,
    place: usize,
)
    requires
        atoms <= usize::MAX,
        decisions <= usize::MAX,
        pins <= usize::MAX,
    ensures
        ({
            let steps = retirement_steps(recorded, atoms, decisions, pins);
            &&& place < atoms ==> taken_once(steps, RetirementStep::InsertSemanticAtom(place))
            &&& place >= atoms ==> !steps.contains(RetirementStep::InsertSemanticAtom(place))
            &&& place < decisions ==> taken_once(steps, RetirementStep::InsertMember(place))
            &&& place < decisions ==> taken_once(steps, RetirementStep::InsertDecision(place))
            &&& place >= decisions ==> !steps.contains(RetirementStep::InsertMember(place))
            &&& place >= decisions ==> !steps.contains(RetirementStep::InsertDecision(place))
            &&& place < pins ==> taken_once(steps, RetirementStep::InsertPin(place))
            &&& place < pins ==> taken_once(steps, RetirementStep::ClearMark(place))
            &&& place >= pins ==> !steps.contains(RetirementStep::InsertPin(place))
            &&& place >= pins ==> !steps.contains(RetirementStep::ClearMark(place))
        }),
{
    lemma_step_taken(recorded, atoms, decisions, pins, RetirementStep::InsertSemanticAtom(place));
    lemma_step_taken(recorded, atoms, decisions, pins, RetirementStep::InsertMember(place));
    lemma_step_taken(recorded, atoms, decisions, pins, RetirementStep::InsertDecision(place));
    lemma_step_taken(recorded, atoms, decisions, pins, RetirementStep::InsertPin(place));
    lemma_step_taken(recorded, atoms, decisions, pins, RetirementStep::ClearMark(place));
}

/// The parts of a retirement come in the order that they need: the run first; a member before its
/// decision, and all decisions before any state changes; what is forgotten is deleted only after
/// its state has changed, between the point after the changes and the point after forgetting; pins
/// after that, then the receipt, the completed run, the verification and the commit.
pub proof fn law_retirement_parts_come_in_order(
    recorded: bool,
    atoms: nat,
    decisions: nat,
    pins: nat,
    place: usize,
    change: RetirementStep,
    deletion: RetirementStep,
)
    requires
        atoms <= usize::MAX,
        decisions <= usize::MAX,
        pins <= usize::MAX,
        change == RetirementStep::KeepWinners || change == RetirementStep::ForgetSources || change
            == RetirementStep::BindUnchanged,
        deletion == RetirementStep::DeleteBodies || deletion == RetirementStep::DeleteProjections
            || deletion == RetirementStep::DeleteSearchRows || deletion
            == RetirementStep::DeleteReferences,
    ensures
        ({
            let steps = retirement_steps(recorded, atoms, decisions, pins);
            let decided = RetirementStep::Observe(
                RepositoryFaultPointV1::RetirementAfterDecisionPersistence,
            );
            let changed = RetirementStep::Observe(
                RepositoryFaultPointV1::RetirementAfterStateMutation,
            );
            let forgotten = RetirementStep::Observe(
                RepositoryFaultPointV1::RetirementAfterForgetting,
            );
            &&& steps[0] == RetirementStep::InsertRun
            &&& steps[1] == RetirementStep::InsertPostState
            &&& place < decisions ==> taken_before(
                steps,
                RetirementStep::InsertMember(place),
                RetirementStep::InsertDecision(place),
            )
            &&& taken_before(steps, RetirementStep::InsertSemanticAtom(place), decided)
            &&& taken_before(steps, RetirementStep::InsertDecision(place), decided)
            &&& taken_before(steps, decided, change)
            &&& taken_before(steps, change, changed)
            &&& taken_before(steps, changed, deletion)
            &&& taken_before(steps, deletion, forgotten)
            &&& place < pins ==> taken_before(steps, forgotten, RetirementStep::InsertPin(place))
            &&& taken_before(
                steps,
                RetirementStep::InsertPin(place),
                RetirementStep::InsertReceipt,
            )
            &&& taken_before(
                steps,
                RetirementStep::ClearMark(place),
                RetirementStep::InsertReceipt,
            )
            &&& taken_before(steps, RetirementStep::InsertReceipt, RetirementStep::CompleteRun)
            &&& taken_before(steps, RetirementStep::CompleteRun, RetirementStep::VerifyReceipt)
            &&& taken_before(steps, RetirementStep::VerifyReceipt, RetirementStep::Commit)
        }),
{
    let steps = retirement_steps(recorded, atoms, decisions, pins);
    let decided = RetirementStep::Observe(
        RepositoryFaultPointV1::RetirementAfterDecisionPersistence,
    );
    let changed = RetirementStep::Observe(RepositoryFaultPointV1::RetirementAfterStateMutation);
    let forgotten = RetirementStep::Observe(RepositoryFaultPointV1::RetirementAfterForgetting);
    assert(opening_steps(recorded).len() > 1);
    assert(steps.len() > 1);
    lemma_step_at(recorded, atoms, decisions, pins, RetirementStep::InsertRun, 0);
    lemma_step_at(recorded, atoms, decisions, pins, RetirementStep::InsertPostState, 1);
    let member = RetirementStep::InsertMember(place);
    let decision = RetirementStep::InsertDecision(place);
    let atom = RetirementStep::InsertSemanticAtom(place);
    let pin = RetirementStep::InsertPin(place);
    let mark = RetirementStep::ClearMark(place);
    let receipt = RetirementStep::InsertReceipt;
    let complete = RetirementStep::CompleteRun;
    let verify = RetirementStep::VerifyReceipt;
    if place < decisions {
        lemma_steps_in_order(recorded, atoms, decisions, pins, member, decision);
    }
    lemma_steps_in_order(recorded, atoms, decisions, pins, atom, decided);
    lemma_steps_in_order(recorded, atoms, decisions, pins, decision, decided);
    lemma_steps_in_order(recorded, atoms, decisions, pins, decided, change);
    lemma_steps_in_order(recorded, atoms, decisions, pins, change, changed);
    lemma_steps_in_order(recorded, atoms, decisions, pins, changed, deletion);
    lemma_steps_in_order(recorded, atoms, decisions, pins, deletion, forgotten);
    if place < pins {
        lemma_steps_in_order(recorded, atoms, decisions, pins, forgotten, pin);
    }
    lemma_steps_in_order(recorded, atoms, decisions, pins, pin, receipt);
    lemma_steps_in_order(recorded, atoms, decisions, pins, mark, receipt);
    lemma_steps_in_order(recorded, atoms, decisions, pins, receipt, complete);
    lemma_steps_in_order(recorded, atoms, decisions, pins, complete, verify);
    lemma_steps_in_order(recorded, atoms, decisions, pins, verify, RetirementStep::Commit);
}

/// Whether a list holds the places of exactly those decisions that have one of two names.
pub open spec fn are_places_named(
    places: Set<int>,
    decisions: Seq<PersistedDecision>,
    one: Seq<char>,
    other: Seq<char>,
) -> bool {
    forall|i: int|
        places.contains(i) <==> {
            &&& 0 <= i < decisions.len()
            &&& (decisions[i].decision@ == one || decisions[i].decision@ == other)
        }
}

proof fn lemma_places_named(
    decisions: Seq<PersistedDecision>,
    one: Seq<char>,
    other: Seq<char>,
) -> (places: Set<int>)
    ensures
        places.finite(),
        are_places_named(places, decisions, one, other),
        decisions.len() == 0 ==> places.len() == 0,
        decisions.len() > 0 ==> exists|shorter: Set<int>|
            #![trigger shorter.len()]
            are_places_named(shorter, decisions.drop_last(), one, other) && shorter.finite()
                && places.len() == shorter.len() + (if decisions.last().decision@ == one
                || decisions.last().decision@ == other {
                1nat
            } else {
                0
            }),
    decreases decisions.len(),
{
    if decisions.len() == 0 {
        let places = Set::<int>::empty();
        assert(are_places_named(places, decisions, one, other));
        places
    } else {
        let shorter = lemma_places_named(decisions.drop_last(), one, other);
        let last = decisions.len() - 1;
        let named = decisions.last().decision@ == one || decisions.last().decision@ == other;
        let places = if named {
            shorter.insert(last)
        } else {
            shorter
        };
        assert forall|i: int|
            places.contains(i) <==> {
                &&& 0 <= i < decisions.len()
                &&& (decisions[i].decision@ == one || decisions[i].decision@ == other)
            } by {
            assert(shorter.contains(i) <==> 0 <= i < last && (decisions.drop_last()[i].decision@
                == one || decisions.drop_last()[i].decision@ == other));
        }
        assert(!shorter.contains(last));
        assert(places.len() == shorter.len() + (if named {
            1nat
        } else {
            0
        }));
        places
    }
}

proof fn lemma_same_places(
    a: Set<int>,
    b: Set<int>,
    decisions: Seq<PersistedDecision>,
    one: Seq<char>,
    other: Seq<char>,
)
    requires
        are_places_named(a, decisions, one, other),
        are_places_named(b, decisions, one, other),
    ensures
        a == b,
{
    assert(a =~= b);
}

/// The numbers of kept and forgotten atoms are those of the places where a decision has a name
/// that keeps or that forgets.
pub proof fn law_decisions_are_counted_by_their_names(
    decisions: Seq<PersistedDecision>,
    kept: Set<int>,
    forgotten: Set<int>,
)
    requires
        are_places_named(kept, decisions, "episodic_winner"@, "semantic_and_episodic"@),
        are_places_named(forgotten, decisions, "semantic_source"@, "forgotten"@),
    ensures
        kept_count(decisions) == kept.len(),
        forgotten_count(decisions) == forgotten.len(),
    decreases decisions.len(),
{
    let winners = lemma_places_named(
        decisions,
        "episodic_winner"@,
        "semantic_and_episodic"@,
    );
    let losers = lemma_places_named(decisions, "semantic_source"@, "forgotten"@);
    lemma_same_places(kept, winners, decisions, "episodic_winner"@, "semantic_and_episodic"@);
    lemma_same_places(forgotten, losers, decisions, "semantic_source"@, "forgotten"@);
    if decisions.len() > 0 {
        let shorter = decisions.drop_last();
        let fewer_winners = choose|places: Set<int>|
            #![trigger places.len()]
            are_places_named(places, shorter, "episodic_winner"@, "semantic_and_episodic"@)
                && places.finite() && winners.len() == places.len() + (if decisions.last().decision@
                == "episodic_winner"@ || decisions.last().decision@ == "semantic_and_episodic"@ {
                1nat
            } else {
                0
            });
        let fewer_losers = choose|places: Set<int>|
            #![trigger places.len()]
            are_places_named(places, shorter, "semantic_source"@, "forgotten"@)
                && places.finite() && losers.len() == places.len() + (if decisions.last().decision@
                == "semantic_source"@ || decisions.last().decision@ == "forgotten"@ {
                1nat
            } else {
                0
            });
        law_decisions_are_counted_by_their_names(shorter, fewer_winners, fewer_losers);
    }
}

/// A retirement that was confirmed step by step has touched every atom as it was decided: as many
/// states were set to kept as there are winners, as many to forgotten as there are forgotten
/// atoms, as many were bound as there are unchanged ones, and a body, a search projection and a
/// full-text row was deleted for every forgotten atom. Every single row was written.
pub proof fn law_confirmed_retirement_touches_every_decided_atom(
    counts: DecisionCounts,
    step: RetirementStep,
    changed: usize,
)
    requires
        required_changes(step, counts) is None || required_changes(step, counts) == Some(changed),
    ensures
        step == RetirementStep::KeepWinners ==> changed == counts.kept,
        step == RetirementStep::ForgetSources ==> changed == counts.forgotten,
        step == RetirementStep::BindUnchanged ==> changed == counts.unchanged,
        step == RetirementStep::DeleteBodies ==> changed == counts.forgotten,
        step == RetirementStep::DeleteProjections ==> changed == counts.forgotten,
        step == RetirementStep::DeleteSearchRows ==> changed == counts.forgotten,
        step == RetirementStep::InsertRun || step == RetirementStep::InsertPostState || step
            == RetirementStep::RecordPopulation || step == RetirementStep::InsertReceipt || step
            == RetirementStep::CompleteRun ==> changed == 1,
        step matches RetirementStep::InsertMember(_) ==> changed == 1,
        step matches RetirementStep::InsertDecision(_) ==> changed == 1,
        step matches RetirementStep::InsertPin(_) ==> changed == 1,
        step matches RetirementStep::ClearMark(_) ==> changed == 1,
        step == RetirementStep::DeleteReferences ==> required_changes(step, counts) is None,
{
}

/// A prior run is taken for an application of a plan exactly where it is applied and left the
/// state that the plan projects; any other run under the digest of the plan is a conflict, and so
/// is a fresh plan for a cohort that has a run.
pub proof fn law_prior_run_decides_whether_a_plan_is_applied(
    plan: RetirementPlan,
    prior: PriorRun,
    cohort_has_run: bool,
)
    requires
        prior.run_id@.len() == 32,
        plan.cohort_day <= i64::MAX,
    ensures
        prior_fault(plan, Some(prior), cohort_has_run) == (if prior.status@ == "applied"@
            && prior.projected_state_digest@ == plan.projected_state_digest@ {
            None
        } else {
            Some(Fault::RetirementConflict)
        }),
        prior_fault(plan, None, cohort_has_run) == (if cohort_has_run {
            Some(Fault::RetirementConflict)
        } else {
            None
        }),
{
}

/// A commit begins exactly where it is well formed under the installed policy and either its own
/// run was applied with its plan and its receipt, or neither its run nor its cohort has one.
pub proof fn law_commit_begins_exactly_where_it_may(
    commit: RetirementCommit,
    policy_row: Option<PolicyRow>,
    policy_count: i64,
    policy: Policy,
    existing: Option<ExistingRun>,
    cohort_has_run: bool,
)
    ensures
        begin_fault(commit, policy_row, policy_count, policy, existing, cohort_has_run) is None <==> {
            &&& commit_fault(commit) is None
            &&& persisted_policy_fault(policy_row, policy_count, policy) is None
            &&& match existing {
                Some(run) => {
                    &&& run.status@ == "applied"@
                    &&& run.plan_digest@ == commit.plan_digest@
                    &&& run.receipt_digest matches Some(receipt)
                    &&& receipt@ == commit.receipt.receipt_digest@
                },
                None => !cohort_has_run && commit.key.cohort_day <= i64::MAX,
            }
        },
{
}

/// A semantic output is stored exactly where it is a present long-term semantic atom of the memory
/// space of its cohort, reads as its own record, declares no artifact, may be stored and does not
/// stand there yet.
pub proof fn law_semantic_output_is_a_new_atom_of_its_cohort(
    key: CohortKey,
    record: AtomRecord,
    parsed: Result<CoreAtom, String>,
    projected: Result<ProjectedProvenance, String>,
    policy: Policy,
    existing: Option<ExistingAtom>,
    cohort_retired: bool,
)
    ensures
        output_insertion_fault(
            key,
            record,
            parsed,
            projected,
            policy,
            existing,
            cohort_retired,
        ) is None <==> {
            &&& record.atom_kind@ == "semantic"@
            &&& record.memory_space_id@ == key.memory_space_id@
            &&& record.retention_tier@ == "ltm_semantic"@
            &&& record.content_status@ == "present"@
            &&& parsed matches Ok(typed)
            &&& typed.body.artifacts@.len() == 0
            &&& typed.authority.canonical_body@ == record.canonical_body@
            &&& typed.authority.atom_id@ == record.atom_id@
            &&& typed.authority.atom_id@ == record.body_digest@
            &&& insertion_fault(record, projected, policy, existing, cohort_retired) is None
            &&& existing is None
        },
{
}

/// A plan is applied to the cohort exactly where the cohort is still the one that it was made for
/// and the plan comes out again; a plan for another cohort is stale, with both digests named.
pub proof fn law_plan_must_be_of_the_present_cohort(
    plan: RetirementPlan,
    observed_input_digest: Seq<u8>,
    recomputation_agrees: bool,
)
    ensures
        current_plan_fault(plan, observed_input_digest, recomputation_agrees) is None
            <==> observed_input_digest == plan.input_set_digest@ && recomputation_agrees,
        observed_input_digest != plan.input_set_digest@ ==> current_plan_fault(
            plan,
            observed_input_digest,
            recomputation_agrees,
        ) == Some(
            Fault::StalePlan {
                expected: hex_text(plan.input_set_digest@),
                actual: hex_text(observed_input_digest),
            },
        ),
{
}

/// A commit is written exactly where the cohort is the one that it was planned for, its decisions
/// close over it, its winners and pins are accepted, and its times fit their columns.
pub proof fn law_commit_is_written_exactly_over_its_cohort(
    root: Seq<char>,
    commit: RetirementCommit,
    current: CohortSnapshot,
    authorities: PinAuthorities,
    integrity: Map<Seq<u8>, IntegrityStatus>,
)
    ensures
        admission_fault(root, commit, current, authorities, integrity) is None <==> {
            &&& current.input_set_digest@ == commit.expected_input_set_digest@
            &&& decision_closure_fault(current, commit) is None
            &&& pins_fault(root, current, commit, authorities, integrity) is None
            &&& commit.key.cohort_day <= i64::MAX
            &&& commit.key.as_of_us <= i64::MAX
        },
{
}

/// The population of a lottery is recorded exactly where it is not simply the atoms that may be kept
/// exactly, and then as the number of those that are also complete.
pub proof fn law_population_is_recorded_where_it_cannot_be_counted_again(
    atoms: Seq<SnapshotAtom>,
    integrity: Map<Seq<u8>, IntegrityStatus>,
)
    ensures
        population_record(atoms, integrity) is Some <==> eligible_count(atoms, integrity)
            != permitted_count(atoms),
        population_record(atoms, integrity) matches Some(text) ==> crate::text::decimal_value(text)
            == eligible_count(atoms, integrity),
{
    crate::text::law_decimal_stands_for_its_number(eligible_count(atoms, integrity));
}

/// What becomes of a commit whose run is there or not.
pub open spec fn outcome_of(existing: Option<ExistingRun>) -> ApplyOutcome {
    if existing is Some {
        ApplyOutcome::AlreadyApplied
    } else {
        ApplyOutcome::Applied
    }
}

/// The fault of counting decisions of which one is unknown.
pub open spec fn counts_fault(decisions: Seq<PersistedDecision>) -> Option<Fault> {
    fault_when(
        exists|i: int|
            0 <= i < decisions.len() && !is_decision_name((#[trigger] decisions[i]).decision@),
        Fault::InvalidRetirementPlan("unknown retirement decision"@),
    )
}

/// The fault of a step that changed another number of rows than it must.
pub open spec fn step_fault(
    step: RetirementStep,
    counts: DecisionCounts,
    changed: usize,
) -> Option<Fault> {
    fault_when(
        required_changes(step, counts) is Some && required_changes(step, counts) != Some(changed),
        Fault::RetirementConflict,
    )
}

/// A commit is applied once: where its run is there it was applied already, and where it is not it
/// is applied now.
pub proof fn law_commit_is_applied_once(existing: Option<ExistingRun>)
    ensures
        outcome_of(existing) is AlreadyApplied <==> existing is Some,
        outcome_of(existing) is Applied <==> existing is None,
{
}

/// Decisions are counted exactly where each is one of the five.
pub proof fn law_known_decisions_are_counted(decisions: Seq<PersistedDecision>)
    ensures
        counts_fault(decisions) is None <==> forall|i: int|
            0 <= i < decisions.len() ==> {
                let name = (#[trigger] decisions[i]).decision@;
                name == "semantic_source"@ || name == "episodic_winner"@ || name
                    == "semantic_and_episodic"@ || name == "forgotten"@ || name == "unchanged"@
            },
{
}

/// A step is confirmed exactly where it changed as many rows as it must: one for every row that it
/// writes, as many as were kept, forgotten or left unchanged for the states, and as many as were
/// forgotten for everything that is deleted with a body; any other number is a conflict.
pub proof fn law_step_changes_exactly_its_rows(
    step: RetirementStep,
    counts: DecisionCounts,
    changed: usize,
)
    ensures
        step is InsertRun || step is InsertPostState || step is RecordPopulation
            || step is InsertMember || step is InsertDecision || step is InsertPin
            || step is ClearMark || step is InsertReceipt || step is CompleteRun ==> (step_fault(
            step,
            counts,
            changed,
        ) is None <==> changed == 1),
        step is KeepWinners ==> (step_fault(step, counts, changed) is None <==> changed
            == counts.kept),
        step is ForgetSources || step is DeleteBodies || step is DeleteProjections
            || step is DeleteSearchRows ==> (step_fault(step, counts, changed) is None <==> changed
            == counts.forgotten),
        step is BindUnchanged ==> (step_fault(step, counts, changed) is None <==> changed
            == counts.unchanged),
        step is DeleteReferences || step is InsertSemanticAtom || step is VerifyReceipt
            || step is Observe || step is Commit ==> step_fault(step, counts, changed) is None,
        step_fault(step, counts, changed) matches Some(fault) ==> fault is RetirementConflict,
{
}

} // verus!
