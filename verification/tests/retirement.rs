//! Retiring a cohort, and the receipt that proves it.

use naome_memory::artifact::ArtifactStore;
use naome_memory::bytemap::ByteMap;
use naome_memory::commit_rules::{validate_decision_closure, validate_retirement_commit};
use naome_memory::digest::sha256;
use naome_memory::error::StoreError;
use naome_memory::fault_points::RepositoryFaultPointV1;
use naome_memory::model::{
    AtomState, ContentStatus, CoreAtom, CoreAuthority, EpisodePayload, IntegrityStatus, Interval,
    MemoryAtomBody, MemoryKind, Observation, Payload, Policy, Provenance, RetentionPermission, RetentionTier,
    Scope,
};
use naome_memory::pin_rules::{PinAuthorities, count_eligible, validate_pins};
use naome_memory::plan::{
    PersistedDecision, PersistedPostState, PersistedReceipt, PlanDecision, PostStateAuthority,
    ReceiptClosure, RetirementCommit, RetirementPlan, outcome_from_plan,
};
use naome_memory::policy::PolicyRow;
use naome_memory::post_state::{
    RetirementPostState, RetirementPostStateAtom, StoredPostStateAtom,
};
use naome_memory::receipt::{
    LiveAtomRow, LiveEvidence, PostStateReading, PostStateRow, RunEvidence,
    verify_persisted_core_receipt,
};
use naome_memory::receipt_closure::{
    LotteryPopulation, RunDecisionRow, WinnerRow, persisted_decision_digest, read_decisions,
};
use naome_memory::receipt_fields::{
    InvariantEntry, ProofReceipt, ReceiptReading, ReceiptRow, StoredAppliedRun,
};
use naome_memory::records::{AtomRecord, hash_prefixed, sha256_projection};
use naome_memory::retirement::{
    Admission, ApplyOutcome, ExistingRun, PriorRun, RetirementStep, admit_retirement, apply_steps,
    begin_retirement, confirm_step, count_decisions, ensure_exact_change_count, find_prior_run,
    population_key,
};
use naome_memory::snapshot::{CohortKey, CohortSnapshot, SnapshotRow, take_snapshot};
use naome_memory::state_columns::StateColumns;

const DAY: u64 = 86_400_000_000;

fn policy() -> Policy {
    Policy {
        policy_id: "poc-v1".to_owned(),
        digest: [5; 32],
        canonical_body: b"policy".to_vec(),
        json_projection: "{\"policy\":1}".to_owned(),
        atom_hash_domain: b"naome-memory:atom:v1\0".to_vec(),
        stm_horizon_us: 7 * DAY,
        atom_hard_max_bytes: 262_144,
        inline_payload_max_bytes: 65_536,
        artifact_max_bytes: 67_108_864,
        min_semantic_sources: 3,
        consensus_numerator: 2,
        consensus_denominator: 3,
        semantic_rate_ppm: 20_000,
        semantic_count_max: 100,
        episodic_rate_ppm: 5_000,
        episodic_count_max: 25,
        retrieval_candidate_max: 512,
    }
}

fn core_body() -> MemoryAtomBody {
    MemoryAtomBody {
        contract_version: "atom-v1".to_owned(),
        scope: Scope {
            memory_space_id: "space-a".to_owned(),
            repository_id: Some("repo-a".to_owned()),
            task_id: Some("task-a".to_owned()),
            agent_id: Some("agent-a".to_owned()),
            session_id: "session-a".to_owned(),
        },
        interval: Interval { started_at_us: 1, ended_at_us: 2, recorded_at_us: 3 },
        trigger: "test episode".to_owned(),
        goal: Some("verify store integration".to_owned()),
        plan: Vec::new(),
        observations: vec![Observation {
            at_us: 1,
            content: "typed storage fixture".to_owned(),
            artifact_digest: None,
        }],
        interpretations: Vec::new(),
        beliefs: Vec::new(),
        decisions: Vec::new(),
        actions: Vec::new(),
        outcome_summary: None,
        outcome_class: None,
        topic_keys: vec!["store".to_owned()],
        entity_ids: Vec::new(),
        artifacts: Vec::new(),
        relations: Vec::new(),
        provenance: Provenance {
            producer: "sqlite-test".to_owned(),
            policy_digest: [5; 32],
            source_event_digests: vec![[9; 32]],
        },
        retention_permission: RetentionPermission::SemanticAndExactAllowed,
        payload: Payload::Episode(EpisodePayload {
            continues: None,
            event_sequence_start: 0,
            event_sequence_end: 0,
        }),
    }
}

fn core_atom(body: MemoryAtomBody) -> CoreAtom {
    let canonical_body = format!("{body:?}").into_bytes();
    let atom_id = hash_prefixed(&policy().atom_hash_domain, &canonical_body);
    let retained: Vec<[u8; 32]> = body
        .artifacts
        .iter()
        .filter(|artifact| artifact.retention_allowed)
        .map(|artifact| artifact.digest)
        .collect();
    let exact_package_bytes = canonical_body.len() as u64;
    CoreAtom {
        authority: CoreAuthority {
            rejection: None,
            atom_id,
            json_projection: format!("{{\"body\":\"{}\"}}", hex::encode(&canonical_body)),
            canonical_body,
            canonical_provenance: format!("{:?}", body.provenance).into_bytes(),
            provenance_json_projection: format!("{{\"producer\":{:?}}}", body.provenance.producer),
            retained_artifact_digests: retained,
            exact_package_bytes,
        },
        body,
    }
}

fn exact_stm_state(body: &MemoryAtomBody) -> AtomState {
    AtomState {
        retention_tier: RetentionTier::ShortTerm,
        content_status: ContentStatus::Present,
        expires_at_us: Some(body.interval.recorded_at_us + policy().stm_horizon_us),
        superseded_by: None,
        feedback_positive: 0,
        feedback_negative: 0,
        retrieval_count: 0,
        retirement_run_id: None,
    }
}

fn stm_state(expires_at_us: u64) -> AtomState {
    let mut state = exact_stm_state(&core_body());
    state.expires_at_us = Some(expires_at_us);
    state
}

fn numbered(id: u8) -> CoreAtom {
    let mut body = core_body();
    body.scope.session_id = format!("session-{id}");
    body.trigger = format!("memory {id}");
    body.interval.recorded_at_us = 10;
    core_atom(body)
}

fn key() -> CohortKey {
    CohortKey { memory_space_id: "space-a".to_owned(), cohort_day: 1, as_of_us: DAY * 2 }
}

fn snapshot(atoms: &[CoreAtom]) -> CohortSnapshot {
    let mut rows: Vec<SnapshotRow> = atoms
        .iter()
        .map(|atom| {
            let record = AtomRecord::from_core(atom, &stm_state(DAY + 1)).unwrap();
            SnapshotRow {
                atom_id: record.atom_id.to_vec(),
                body_digest: record.body_digest.to_vec(),
                body_bytes: record.canonical_body.len() as i64,
                retention_permission: record.retention_permission,
                session_id: record.session_id,
                retention_tier: record.retention_tier,
                content_status: record.content_status,
                expires_at_us: Some(DAY as i64 + 1),
                superseded_by: None,
                feedback_positive: 0,
                feedback_negative: 0,
                retrieval_count: 0,
                retirement_run_id: None,
                artifact_bytes: 0,
                canonical_body: Some(record.canonical_body),
            }
        })
        .collect();
    rows.sort_by(|left, right| left.atom_id.cmp(&right.atom_id));
    take_snapshot(&key(), &rows, &policy().atom_hash_domain).unwrap()
}

fn run_id() -> [u8; 32] {
    hash_prefixed(b"naome-memory:retirement-run:v1\0", &[35; 32])
}

fn is_exact(atom: &CoreAtom) -> bool {
    matches!(atom.body.retention_permission, RetentionPermission::SemanticAndExactAllowed)
}

fn commit_for(snapshot: &CohortSnapshot, exact: bool) -> RetirementCommit {
    let details = b"decision".to_vec();
    let decisions: Vec<PersistedDecision> = snapshot
        .atoms
        .iter()
        .map(|candidate| PersistedDecision {
            atom_id: candidate.atom_id,
            pre_state_digest: candidate.state_digest,
            decision: if exact {
                "episodic_winner".to_owned()
            } else {
                "forgotten".to_owned()
            },
            canonical_details: details.clone(),
            details_digest: sha256(&details),
        })
        .collect();
    RetirementCommit {
        run_id: run_id(),
        key: snapshot.key.clone(),
        policy_id: "poc-v1".to_owned(),
        policy_digest: policy().digest,
        seed: [33; 32],
        rng_id: "chacha20-rand_chacha-0.3/partial-fisher-yates-v1".to_owned(),
        proof_input_set_digest: snapshot.input_set_digest,
        expected_input_set_digest: snapshot.input_set_digest,
        population_digest: [34; 32],
        plan_digest: [35; 32],
        projected_state_digest: [36; 32],
        post_state: PersistedPostState {
            memory_space_id: snapshot.key.memory_space_id.clone(),
            source_count: decisions.len(),
            semantic_count: 0,
            digest: [36; 32],
            canonical_state: b"state".to_vec(),
            json_projection: "{}".to_owned(),
        },
        decisions,
        semantic_atoms: Vec::new(),
        artifact_pins: Vec::new(),
        receipt: PersistedReceipt {
            receipt_digest: [37; 32],
            canonical_receipt: b"receipt".to_vec(),
            json_projection: "{}".to_owned(),
            closure_digest: sha256(b"closure"),
        },
    }
}

fn policy_row() -> Option<PolicyRow> {
    Some(PolicyRow {
        policy_digest: policy().digest.to_vec(),
        canonical_body: policy().canonical_body,
        json_projection: policy().json_projection,
        installed_at_us: 1,
    })
}

fn begin(
    commit: &RetirementCommit,
    existing: Option<ExistingRun>,
    cohort_has_run: bool,
) -> Result<ApplyOutcome, StoreError> {
    begin_retirement(commit, &policy_row(), 1, &policy(), &existing, cohort_has_run)
}

fn check_admission(
    commit: &RetirementCommit,
    current: &CohortSnapshot,
) -> Result<Admission, StoreError> {
    admission_of(commit, current, &complete(current))
}

fn admission_of(
    commit: &RetirementCommit,
    current: &CohortSnapshot,
    integrity: &ByteMap<IntegrityStatus>,
) -> Result<Admission, StoreError> {
    let store = ArtifactStore::open("/artifacts".to_owned());
    let mut references = ByteMap::new();
    for atom in &current.atoms {
        references.insert(atom.atom_id.to_vec(), Vec::new());
    }
    let authorities = PinAuthorities { references, artifacts: ByteMap::new() };
    let admission = admit_retirement(&store, commit, current, &authorities, integrity)?;
    assert_eq!(admission.as_of_us as u64, commit.key.as_of_us);
    Ok(admission)
}

/// A cohort whose atoms are all complete.
fn complete(current: &CohortSnapshot) -> ByteMap<IntegrityStatus> {
    let mut integrity = ByteMap::new();
    for atom in &current.atoms {
        integrity.insert(atom.atom_id.to_vec(), IntegrityStatus::Complete);
    }
    integrity
}

fn applied_run(commit: &RetirementCommit) -> ExistingRun {
    ExistingRun {
        plan_digest: commit.plan_digest.to_vec(),
        receipt_digest: Some(commit.receipt.receipt_digest.to_vec()),
        status: "applied".to_owned(),
    }
}

#[test]
fn retirement_apply_is_atomic_and_idempotent() {
    let snapshot = snapshot(&[numbered(1)]);
    let commit = commit_for(&snapshot, true);
    assert!(matches!(begin(&commit, None, false).unwrap(), ApplyOutcome::Applied));
    check_admission(&commit, &snapshot).unwrap();
    assert!(matches!(
        begin(&commit, Some(applied_run(&commit)), true).unwrap(),
        ApplyOutcome::AlreadyApplied
    ));
    let mut conflicting = commit.clone();
    conflicting.run_id = [91; 32];
    conflicting.plan_digest = [92; 32];
    assert!(matches!(
        begin(&conflicting, None, true),
        Err(StoreError::RetirementConflict)
    ));
    assert!(matches!(
        begin(&conflicting, Some(applied_run(&commit)), true),
        Err(StoreError::RetirementConflict)
    ));
}

#[test]
fn retirement_forgets_a_batch_with_complete_persisted_closure() {
    let atoms: Vec<CoreAtom> = (0u8..128)
        .map(|id| {
            let mut body = numbered(id).body;
            body.retention_permission = RetentionPermission::TransientOnly;
            core_atom(body)
        })
        .collect();
    let snapshot = snapshot(&atoms);
    let commit = commit_for(&snapshot, false);
    assert!(matches!(begin(&commit, None, false).unwrap(), ApplyOutcome::Applied));
    let admission = check_admission(&commit, &snapshot).unwrap();
    let counts = count_decisions(&commit.decisions).unwrap();
    assert_eq!((counts.kept, counts.forgotten, counts.unchanged), (0, 128, 0));
    let steps = apply_steps(&commit, &admission);
    let members = steps
        .iter()
        .filter(|step| matches!(step, RetirementStep::InsertMember(_)))
        .count();
    let decisions = steps
        .iter()
        .filter(|step| matches!(step, RetirementStep::InsertDecision(_)))
        .count();
    assert_eq!((members, decisions), (128, 128));
    assert!(matches!(steps[steps.len() - 1], RetirementStep::Commit));
    for step in [
        RetirementStep::ForgetSources,
        RetirementStep::DeleteBodies,
        RetirementStep::DeleteProjections,
        RetirementStep::DeleteSearchRows,
    ] {
        confirm_step(step, counts, 128).unwrap();
    }
    assert!(matches!(
        begin(&commit, Some(applied_run(&commit)), true).unwrap(),
        ApplyOutcome::AlreadyApplied
    ));
}

#[test]
fn retirement_projection_count_mismatch_rolls_back_set_based_apply() {
    let mut body = numbered(1).body;
    body.retention_permission = RetentionPermission::TransientOnly;
    let snapshot = snapshot(&[core_atom(body)]);
    let commit = commit_for(&snapshot, false);
    let counts = count_decisions(&commit.decisions).unwrap();
    confirm_step(RetirementStep::DeleteSearchRows, counts, 1).unwrap();
    assert!(matches!(
        confirm_step(RetirementStep::DeleteSearchRows, counts, 0),
        Err(StoreError::RetirementConflict)
    ));
    ensure_exact_change_count(1, 1).unwrap();
    assert!(ensure_exact_change_count(0, 1).is_err());
}

#[test]
fn retirement_rejects_stale_snapshot_without_writes() {
    let first = snapshot(&[numbered(1)]);
    let commit = commit_for(&first, true);
    let current = snapshot(&[numbered(1), numbered(2)]);
    match check_admission(&commit, &current) {
        Err(StoreError::StalePlan { expected, actual }) => {
            assert_eq!(expected, hex::encode(first.input_set_digest));
            assert_eq!(actual, hex::encode(current.input_set_digest));
        }
        _ => panic!("a stale plan was admitted"),
    }
}

#[test]
fn commits_are_checked_before_they_are_applied() {
    let snapshot = snapshot(&[numbered(1), numbered(2)]);
    validate_retirement_commit(&commit_for(&snapshot, false)).unwrap();
    let mut unordered = commit_for(&snapshot, false);
    unordered.decisions.swap(0, 1);
    assert!(matches!(
        validate_retirement_commit(&unordered),
        Err(StoreError::InvalidRetirementPlan(_))
    ));
    let mut unknown = commit_for(&snapshot, false);
    unknown.decisions[0].decision = "ignored".to_owned();
    assert!(validate_retirement_commit(&unknown).is_err());
    let mut digest = commit_for(&snapshot, false);
    digest.decisions[0].details_digest = [0; 32];
    assert!(validate_retirement_commit(&digest).is_err());
    let mut open = commit_for(&snapshot, false);
    open.post_state.source_count = 1;
    assert!(validate_retirement_commit(&open).is_err());
    let mut missing = commit_for(&snapshot, false);
    missing.decisions.pop();
    assert!(validate_decision_closure(&snapshot, &missing).is_err());
}

fn cohort() -> Vec<CoreAtom> {
    let exact = core_atom(core_body());
    let mut body = core_body();
    body.scope.session_id = "session-forgotten".to_owned();
    body.trigger = "forgotten test episode".to_owned();
    body.retention_permission = RetentionPermission::SemanticAllowed;
    let mut atoms = vec![exact, core_atom(body)];
    atoms.sort_by_key(|atom| atom.authority.atom_id);
    atoms
}

fn post_atom(atom: &CoreAtom, record: &AtomRecord) -> RetirementPostStateAtom {
    let exact = is_exact(atom);
    RetirementPostStateAtom {
        atom_id: record.atom_id,
        atom_kind: MemoryKind::Episode,
        repository_id: record.repository_id.clone(),
        task_id: record.task_id.clone(),
        agent_id: record.agent_id.clone(),
        session_id: record.session_id.clone(),
        recorded_at_us: record.recorded_at_us,
        header_body_digest: record.body_digest,
        header_body_bytes: record.canonical_body.len() as u64,
        retention_permission: atom.body.retention_permission,
        provenance_digest: record.provenance_digest,
        stored_body_digest: if exact { Some(record.body_digest) } else { None },
        retention_tier: if exact {
            RetentionTier::EpisodicLongTerm
        } else {
            RetentionTier::HeaderOnly
        },
        content_status: if exact {
            ContentStatus::Present
        } else {
            ContentStatus::Forgotten
        },
        expires_at_us: None,
        superseded_by: None,
        feedback_positive: 0,
        feedback_negative: 0,
        retrieval_count: 0,
        retirement_run_bound: true,
        search_projection_present: exact,
        pinned_artifact_digests: Vec::new(),
    }
}

fn live_row(atom: &CoreAtom, record: &AtomRecord) -> LiveAtomRow {
    let exact = is_exact(atom);
    let kept = |text: &str| if exact { Some(text.to_owned()) } else { None };
    LiveAtomRow {
        stored: StoredPostStateAtom {
            atom_id: record.atom_id.to_vec(),
            atom_kind: record.atom_kind.clone(),
            memory_space_id: record.memory_space_id.clone(),
            repository_id: record.repository_id.clone(),
            task_id: record.task_id.clone(),
            agent_id: record.agent_id.clone(),
            session_id: record.session_id.clone(),
            recorded_at_us: record.recorded_at_us as i64,
            body_digest: record.body_digest.to_vec(),
            body_bytes: record.canonical_body.len() as i64,
            retention_permission: record.retention_permission.clone(),
            provenance_digest: record.provenance_digest.to_vec(),
            canonical_body: if exact { Some(record.canonical_body.clone()) } else { None },
            json_projection: kept(&record.json_projection),
            state: StateColumns {
                retention_tier: if exact {
                    "ltm_episodic".to_owned()
                } else {
                    "forgotten".to_owned()
                },
                content_status: if exact {
                    "present".to_owned()
                } else {
                    "forgotten".to_owned()
                },
                expires_at_us: None,
                superseded_by: None,
                feedback_positive: 0,
                feedback_negative: 0,
                retrieval_count: 0,
                retirement_run_id: Some(run_id().to_vec()),
            },
            search_atom_id: if exact { Some(record.atom_id.to_vec()) } else { None },
            searchable_text: kept(&record.searchable_text),
            topic_keys_json: kept(&record.topic_keys_json),
            entity_ids_json: kept(&record.entity_ids_json),
            outcome_class: None,
            projection_digest: if exact {
                Some(sha256_projection(record).to_vec())
            } else {
                None
            },
        },
        parsed: if exact {
            Ok(atom.clone())
        } else {
            Err("the body is gone".to_owned())
        },
        fts_rows: i64::from(exact),
    }
}

fn evidence() -> RunEvidence {
    let atoms = cohort();
    let snapshot = snapshot(&atoms);
    let records: Vec<AtomRecord> = atoms
        .iter()
        .map(|atom| AtomRecord::from_core(atom, &exact_stm_state(&atom.body)).unwrap())
        .collect();
    let decisions: Vec<RunDecisionRow> = atoms
        .iter()
        .map(|atom| RunDecisionRow {
            atom_id: atom.authority.atom_id.to_vec(),
            decision: if is_exact(atom) {
                "episodic_winner".to_owned()
            } else {
                "forgotten".to_owned()
            },
            canonical_details: b"decision".to_vec(),
            details_digest: sha256(b"decision").to_vec(),
        })
        .collect();
    let winner_index = atoms.iter().position(is_exact).unwrap();
    let winner = atoms[winner_index].authority.atom_id;
    let winner_bytes = atoms[winner_index].authority.canonical_body.len() as u64;
    let mut kept = ByteMap::new();
    kept.insert(winner.to_vec(), Vec::new());
    let receipt = ProofReceipt {
        contract_version: "proof-receipt-v1".to_owned(),
        receipt_id: [37; 32],
        run_id: run_id(),
        memory_space_id: "space-a".to_owned(),
        cohort_day: 1,
        as_of_us: DAY * 2,
        policy_id: "poc-v1".to_owned(),
        policy_digest: policy().digest,
        rng_identifier: "chacha20-rand_chacha-0.3/partial-fisher-yates-v1".to_owned(),
        seed: [33; 32],
        input_set_digest: snapshot.input_set_digest,
        population_digest: [34; 32],
        episodic_population_count: 1,
        episodic_winner_budget: 1,
        episodic_winner_bytes: winner_bytes,
        semantic_count_budget: 1,
        semantic_body_bytes: 0,
        plan_digest: [35; 32],
        decision_digest: persisted_decision_digest(&read_decisions(&decisions).unwrap()),
        state_digest: [36; 32],
        passed: true,
        invariants: [
            "budgets_structurally_bounded",
            "plan_structure_verified",
            "repository_outcome_closure_verified",
        ]
        .iter()
        .map(|name| InvariantEntry { name: (*name).to_owned(), verified: true })
        .collect(),
        closure: ReceiptClosure {
            source_atom_ids: atoms.iter().map(|atom| atom.authority.atom_id).collect(),
            semantic_atom_ids: Vec::new(),
            exact_episode_ids: vec![winner],
            exact_artifact_digests: kept,
        },
    };
    let mut winners = ByteMap::new();
    winners.insert(
        winner.to_vec(),
        WinnerRow {
            body_bytes: winner_bytes as i64,
            canonical_body: atoms[winner_index].authority.canonical_body.clone(),
            artifact_bytes: 0,
        },
    );
    let mut header_digests = ByteMap::new();
    for record in &records {
        header_digests.insert(record.atom_id.to_vec(), record.body_digest.to_vec());
    }
    RunEvidence {
        run: Some(StoredAppliedRun {
            memory_space_id: "space-a".to_owned(),
            cohort_day: 1,
            as_of_us: DAY as i64 * 2,
            policy_id: "poc-v1".to_owned(),
            policy_digest: policy().digest.to_vec(),
            seed: vec![33; 32],
            rng_identifier: "chacha20-rand_chacha-0.3/partial-fisher-yates-v1".to_owned(),
            input_set_digest: snapshot.input_set_digest.to_vec(),
            population_digest: vec![34; 32],
            plan_digest: vec![35; 32],
            projected_state_digest: vec![36; 32],
            status: "applied".to_owned(),
            receipt_digest: Some(vec![37; 32]),
        }),
        receipt_row: Some(ReceiptRow {
            receipt_digest: vec![37; 32],
            canonical_receipt: b"receipt".to_vec(),
            json_projection: "{}".to_owned(),
            closure_digest: sha256(b"closure").to_vec(),
            created_at_us: DAY as i64 * 2,
        }),
        reading: Ok(ReceiptReading {
            receipt,
            recomputed_id: [37; 32],
            canonical_receipt: b"receipt".to_vec(),
            canonical_closure: b"closure".to_vec(),
            json_projection: "{}".to_owned(),
        }),
        members: atoms.iter().map(|atom| atom.authority.atom_id.to_vec()).collect(),
        decisions,
        pins: Vec::new(),
        population: LotteryPopulation { permitted: 1, recorded: None },
        winners,
        outputs: ByteMap::new(),
        header_digests,
        post_state_row: Some(PostStateRow {
            state_digest: vec![36; 32],
            canonical_state: b"state".to_vec(),
            json_projection: "{\"state\":1}".to_owned(),
        }),
        post_state: Ok(PostStateReading {
            state: RetirementPostState {
                memory_space_id: "space-a".to_owned(),
                source_atoms: atoms
                    .iter()
                    .zip(&records)
                    .map(|(atom, record)| post_atom(atom, record))
                    .collect(),
                semantic_atoms: Vec::new(),
            },
            digest: [36; 32],
            canonical_state: b"state".to_vec(),
            json_projection: "{\"state\":1}".to_owned(),
        }),
        live: LiveEvidence {
            sources: atoms
                .iter()
                .zip(&records)
                .map(|(atom, record)| live_row(atom, record))
                .collect(),
            forgotten_fts_rows: 0,
            forgotten_artifact_refs: 0,
            outputs: ByteMap::new(),
        },
    }
}

fn verify(evidence: &RunEvidence) -> Result<(), StoreError> {
    verify_persisted_core_receipt(&run_id(), evidence, &policy(), &None)
}

/// The plan that the run of the evidence applied.
fn applied_plan() -> RetirementPlan {
    let evidence = evidence();
    let receipt = evidence.reading.unwrap().receipt;
    let decisions = cohort()
        .iter()
        .map(|atom| PlanDecision {
            atom_id: atom.authority.atom_id,
            exact_retained: is_exact(atom),
            forget_episode_body: !is_exact(atom),
            semantic_atom_ids: Vec::new(),
            exact_artifact_digests: Vec::new(),
            canonical: b"decision".to_vec(),
        })
        .collect();
    RetirementPlan {
        digest: receipt.plan_digest,
        decision_digest: receipt.decision_digest,
        memory_space_id: receipt.memory_space_id,
        cohort_day: receipt.cohort_day,
        as_of_us: receipt.as_of_us,
        policy_id: receipt.policy_id,
        policy_digest: receipt.policy_digest,
        seed: receipt.seed,
        rng_identifier: receipt.rng_identifier,
        input_set_digest: receipt.input_set_digest,
        episodic_population_digest: receipt.population_digest,
        episodic_population_count: receipt.episodic_population_count,
        episodic_winner_budget: receipt.episodic_winner_budget,
        episodic_winner_bytes: receipt.episodic_winner_bytes,
        semantic_count_budget: receipt.semantic_count_budget,
        semantic_body_bytes: receipt.semantic_body_bytes,
        projected_state_digest: receipt.state_digest,
        projected_post_state: evidence.post_state.unwrap().state,
        post_state_authority: PostStateAuthority {
            digest: receipt.state_digest,
            canonical_state: b"state".to_vec(),
            json_projection: "{}".to_owned(),
        },
        decisions,
        semantic_atoms: Vec::new(),
        episodic_winners: receipt.closure.exact_episode_ids.clone(),
        closure: receipt.closure,
    }
}

fn replay(evidence: &RunEvidence, plan: RetirementPlan) -> Result<(), StoreError> {
    verify_persisted_core_receipt(&run_id(), evidence, &policy(), &Some(plan))
}

fn places() -> (usize, usize) {
    let exact = cohort().iter().position(is_exact).unwrap();
    (exact, 1 - exact)
}

#[test]
fn core_apply_contract_persists_and_replays_same_receipt() {
    let (exact, forgotten) = places();
    verify(&evidence()).unwrap();

    // The plan is replayed against the receipt of its run, and applies only once.
    let plan = applied_plan();
    let prior = PriorRun {
        run_id: run_id().to_vec(),
        projected_state_digest: plan.projected_state_digest.to_vec(),
        status: "applied".to_owned(),
    };
    assert_eq!(find_prior_run(&plan, &Some(prior), true).unwrap(), Some(run_id()));
    let first = outcome_from_plan(&plan, false);
    let again = outcome_from_plan(&plan, true);
    assert_eq!(first.state_digest, again.state_digest);
    assert_eq!(first.observed_input_digest, again.observed_input_digest);
    assert_eq!(first.applied_decision_count, again.applied_decision_count);
    assert_eq!(first.episodic_atom_ids, again.episodic_atom_ids);
    let atoms = cohort();
    assert!(plan.episodic_winners.contains(&atoms[exact].authority.atom_id));
    assert!(!plan.episodic_winners.contains(&atoms[forgotten].authority.atom_id));
    replay(&evidence(), plan).unwrap();

    let mut conflicting = applied_plan();
    conflicting.seed = [45; 32];
    conflicting.digest = [46; 32];
    assert!(matches!(
        find_prior_run(&conflicting, &None, true),
        Err(StoreError::RetirementConflict)
    ));
    assert!(matches!(replay(&evidence(), conflicting), Err(StoreError::Integrity(_))));
    let mut redecided = applied_plan();
    redecided.decisions[forgotten].canonical = b"another decision".to_vec();
    assert!(matches!(replay(&evidence(), redecided), Err(StoreError::Integrity(_))));
    let mut reprojected = applied_plan();
    reprojected.projected_post_state.source_atoms[exact].retrieval_count = 1;
    assert!(matches!(replay(&evidence(), reprojected), Err(StoreError::Integrity(_))));

    let mut counted = evidence();
    counted.live.sources[exact].stored.state.feedback_positive = 1;
    counted.live.sources[exact].stored.state.retrieval_count = 1;
    verify(&counted).unwrap();
    replay(&counted, applied_plan()).unwrap();

    let mut promoted = evidence();
    promoted.live.sources[exact].stored.state.retention_tier = "ltm_dual".to_owned();
    assert!(verify(&promoted).is_err());

    let mut body = evidence();
    body.live.sources[exact].stored.canonical_body = Some(vec![0]);
    assert!(verify(&body).is_err());

    let mut restored = evidence();
    restored.live.sources[forgotten].stored.canonical_body = Some(b"body".to_vec());
    restored.live.sources[forgotten].stored.json_projection = Some("{}".to_owned());
    assert!(verify(&restored).is_err());

    let mut searchable = evidence();
    searchable.live.sources[forgotten].stored.search_atom_id =
        Some(searchable.live.sources[forgotten].stored.atom_id.clone());
    assert!(verify(&searchable).is_err());

    let mut revived = evidence();
    revived.live.sources[forgotten].stored.state.retention_tier = "stm".to_owned();
    revived.live.sources[forgotten].stored.state.content_status = "present".to_owned();
    assert!(verify(&revived).is_err());

    let mut reclassified = evidence();
    reclassified.decisions[forgotten].decision = "semantic_source".to_owned();
    assert!(verify(&reclassified).is_err());

    let mut header = evidence();
    header.live.sources[forgotten].stored.repository_id = Some("tampered-repo".to_owned());
    assert!(verify(&header).is_err());

    let mut json = evidence();
    json.receipt_row.as_mut().unwrap().json_projection = "{\"tampered\":1}".to_owned();
    assert!(matches!(verify(&json), Err(StoreError::Integrity(_))));

    let mut historical = evidence();
    historical.post_state_row.as_mut().unwrap().canonical_state = vec![0];
    assert!(verify(&historical).is_err());

    let mut removed = evidence();
    removed.receipt_row = None;
    assert!(verify(&removed).is_err());

    let mut open = evidence();
    open.run.as_mut().unwrap().status = "pending".to_owned();
    assert!(verify(&open).is_err());

    let mut unread = evidence();
    unread.reading = Err("not JSON".to_owned());
    assert!(matches!(verify(&unread), Err(StoreError::Json(_))));

    let mut lingering = evidence();
    lingering.live.forgotten_artifact_refs = 1;
    assert!(verify(&lingering).is_err());
}

/// A cohort of as many atoms that permit exact retention, and a commit that keeps the first
/// `winners` of them.
fn lottery(atoms: usize, winners: usize) -> (CohortSnapshot, RetirementCommit) {
    let atoms: Vec<CoreAtom> = (0..atoms)
        .map(|place| {
            let mut body = core_body();
            body.trigger = format!("memory {place}");
            body.interval.recorded_at_us = 10;
            core_atom(body)
        })
        .collect();
    let snapshot = snapshot(&atoms);
    let mut commit = commit_for(&snapshot, false);
    for decision in &mut commit.decisions[..winners] {
        decision.decision = "episodic_winner".to_owned();
    }
    (snapshot, commit)
}

fn judge_lottery(
    snapshot: &CohortSnapshot,
    commit: &RetirementCommit,
    integrity: &ByteMap<IntegrityStatus>,
) -> Result<(), StoreError> {
    let store = ArtifactStore::open("/artifacts".to_owned());
    let authorities = PinAuthorities { references: ByteMap::new(), artifacts: ByteMap::new() };
    validate_pins(&store, snapshot, commit, &authorities, integrity)
}

#[test]
fn lottery_is_held_among_complete_atoms() {
    let (snapshot, two) = lottery(201, 2);
    let (_, one) = lottery(201, 1);
    let integrity = complete(&snapshot);
    assert_eq!(count_eligible(&snapshot.atoms, &integrity), 201);
    judge_lottery(&snapshot, &two, &integrity).unwrap();
    let error = judge_lottery(&snapshot, &one, &integrity).unwrap_err();
    assert!(error.to_text().contains(
        "episodic winner count 1 does not match required lottery count 2"
    ));

    // One incomplete atom takes no part: the share of two hundred atoms is one.
    for status in [IntegrityStatus::MissingArtifact, IntegrityStatus::DigestMismatch] {
        let mut incomplete = complete(&snapshot);
        incomplete.insert(snapshot.atoms[200].atom_id.to_vec(), status);
        assert_eq!(count_eligible(&snapshot.atoms, &incomplete), 200);
        judge_lottery(&snapshot, &one, &incomplete).unwrap();
        let error = judge_lottery(&snapshot, &two, &incomplete).unwrap_err();
        assert!(error.to_text().contains(
            "episodic winner count 2 does not match required lottery count 1"
        ));

        // Nor can it win.
        let mut lost = complete(&snapshot);
        lost.insert(snapshot.atoms[0].atom_id.to_vec(), status);
        let error = judge_lottery(&snapshot, &one, &lost).unwrap_err();
        assert!(error.to_text().contains("episodic winner is not exact-retention eligible"));
    }
    let mut unknown = complete(&snapshot);
    unknown.remove(&snapshot.atoms[200].atom_id);
    assert_eq!(count_eligible(&snapshot.atoms, &unknown), 200);
}

#[test]
fn receipts_state_the_population_that_was_counted() {
    let with = |permitted: i64, recorded: Option<&str>| {
        let mut evidence = evidence();
        evidence.population =
            LotteryPopulation { permitted, recorded: recorded.map(|text| text.to_owned()) };
        verify(&evidence)
    };
    with(1, None).unwrap();
    // Another atom permits exact retention; it took no part where one atom is recorded.
    with(2, Some("1")).unwrap();
    for (permitted, recorded) in [
        (2, None),
        (0, None),
        (2, Some("2")),
        (2, Some("01")),
        (2, Some("")),
        (1, Some("1")),
    ] {
        let error = with(permitted, recorded).unwrap_err();
        assert!(error.to_text().contains(
            "receipt episodic population, budget, or byte closure mismatch"
        ));
    }
    let error = with(-1, None).unwrap_err();
    assert!(error.to_text().contains("negative or oversized episodic population count"));
}

#[test]
fn incomplete_atoms_are_recorded_on_admission() {
    let (snapshot, commit) = lottery(201, 1);
    let mut integrity = complete(&snapshot);
    integrity.insert(snapshot.atoms[200].atom_id.to_vec(), IntegrityStatus::MissingArtifact);
    let admission = admission_of(&commit, &snapshot, &integrity).unwrap();
    assert_eq!(admission.population.as_deref(), Some("200"));
    let steps = apply_steps(&commit, &admission);
    assert_eq!(steps[2], RetirementStep::RecordPopulation);
    let counts = count_decisions(&commit.decisions).unwrap();
    confirm_step(RetirementStep::RecordPopulation, counts, 1).unwrap();
    assert!(confirm_step(RetirementStep::RecordPopulation, counts, 0).is_err());

    // Where every atom that permits exact retention takes part, nothing is recorded.
    let (snapshot, commit) = lottery(201, 2);
    let admission = check_admission(&commit, &snapshot).unwrap();
    assert_eq!(admission.population, None);
    let steps = apply_steps(&commit, &admission);
    assert!(!steps.contains(&RetirementStep::RecordPopulation));

    assert_eq!(population_key(&[0xab, 0x01]), "retirement_population:ab01");
}

#[test]
fn applying_a_plan_again_reports_the_same() {
    let plan = applied_plan();
    let first = outcome_from_plan(&plan, false);
    let again = outcome_from_plan(&plan, true);
    assert!(!first.already_applied && again.already_applied);
    assert_eq!(first.observed_input_digest, again.observed_input_digest);
    assert_eq!(first.state_digest, again.state_digest);
    assert_eq!(first.applied_decision_count, again.applied_decision_count);
    assert_eq!(first.semantic_atom_ids, again.semantic_atom_ids);
    assert_eq!(first.episodic_atom_ids, again.episodic_atom_ids);
    assert_eq!(first.exact_artifact_digests.len(), again.exact_artifact_digests.len());

    // Feedback and retrieval move the counters of every atom; the receipt goes on verifying.
    let mut later = evidence();
    for row in &mut later.live.sources {
        row.stored.state.feedback_positive += 3;
        row.stored.state.feedback_negative += 2;
        row.stored.state.retrieval_count += 7;
    }
    verify(&later).unwrap();
    replay(&later, plan).unwrap();

    // A counter that has gone back is no later state.
    let (exact, _) = places();
    let mut back = evidence();
    back.post_state.as_mut().unwrap().state.source_atoms[exact].retrieval_count = 1;
    let error = verify(&back).unwrap_err();
    assert!(error.to_text().contains("moved behind retirement history"));
}

#[test]
fn retirement_points_come_once_and_in_order() {
    let (snapshot, commit) = lottery(3, 1);
    let admission = check_admission(&commit, &snapshot).unwrap();
    let steps = apply_steps(&commit, &admission);
    let points: Vec<&str> = steps
        .iter()
        .filter_map(|step| match step {
            RetirementStep::Observe(point) => Some(point.identifier()),
            _ => None,
        })
        .collect();
    let all: Vec<&str> =
        RepositoryFaultPointV1::ordered().iter().map(|point| point.identifier()).collect();
    assert_eq!(points, all[4..].to_vec());
    assert_eq!(steps.last(), Some(&RetirementStep::Commit));
}
