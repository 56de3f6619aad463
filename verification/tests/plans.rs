//! Plans, the commits that are made of them, and the links of their atoms.

use naome_memory::artifact::{ArtifactDigest, ArtifactStore, ObservedPath};
use naome_memory::artifact_rows::ArtifactFileRow;
use naome_memory::bytemap::ByteMap;
use naome_memory::digest::sha256;
use naome_memory::error::StoreError;
use naome_memory::groups::set_group;
use naome_memory::links::{
    AtomArtifactLink, DeclaredEvidence, confirm_artifact_link, confirm_artifact_provenance,
    confirm_relation, prepare_artifact_link,
};
use naome_memory::model::{
    ArtifactDeclaration, AtomState, ContentStatus, CoreAtom, CoreAuthority, EpisodePayload,
    Interval, MemoryAtomBody, Observation, Payload, Policy, Provenance, RelationDeclaration,
    RelationKind, RetentionPermission, RetentionTier, Scope, SemanticPayload, SourceDigest,
};
use naome_memory::plan::{
    PlanDecision, PlannedSemantic, PostStateAuthority, ReceiptAuthority, ReceiptClosure,
    RetirementPlan, build_core_commit, decision_text, outcome_from_plan,
};
use naome_memory::post_state::RetirementPostState;
use naome_memory::records::{AtomRecord, ProjectedProvenance, hash_prefixed};
use naome_memory::retirement::{
    PriorRun, check_current_plan, find_prior_run, store_semantic_output,
};
use naome_memory::scale::prepare_scale_body;
use naome_memory::snapshot::{CohortKey, CohortSnapshot, SnapshotRow, take_snapshot};

const DAY: u64 = 86_400_000_000;

fn policy() -> Policy {
    Policy {
        policy_id: "poc-v1".to_owned(),
        digest: [5; 32],
        canonical_body: b"policy".to_vec(),
        json_projection: "{\"policy\":1}".to_owned(),
        atom_hash_domain: b"naome-memory:atom:v1\0".to_vec(),
        stm_horizon_us: 7 * DAY,
        atom_hard_max_bytes: 262_144,
        inline_payload_max_bytes: 65_536,
        artifact_max_bytes: 67_108_864,
        min_semantic_sources: 3,
        consensus_numerator: 2,
        consensus_denominator: 3,
        semantic_rate_ppm: 20_000,
        semantic_count_max: 100,
        episodic_rate_ppm: 5_000,
        episodic_count_max: 25,
        retrieval_candidate_max: 512,
    }
}

fn core_body() -> MemoryAtomBody {
    MemoryAtomBody {
        contract_version: "atom-v1".to_owned(),
        scope: Scope {
            memory_space_id: "space-a".to_owned(),
            repository_id: Some("repo-a".to_owned()),
            task_id: Some("task-a".to_owned()),
            agent_id: Some("agent-a".to_owned()),
            session_id: "session-a".to_owned(),
        },
        interval: Interval { started_at_us: 1, ended_at_us: 2, recorded_at_us: 3 },
        trigger: "test episode".to_owned(),
        goal: Some("verify store integration".to_owned()),
        plan: Vec::new(),
        observations: vec![Observation {
            at_us: 1,
            content: "typed storage fixture".to_owned(),
            artifact_digest: None,
        }],
        interpretations: Vec::new(),
        beliefs: Vec::new(),
        decisions: Vec::new(),
        actions: Vec::new(),
        outcome_summary: None,
        outcome_class: None,
        topic_keys: vec!["store".to_owned()],
        entity_ids: Vec::new(),
        artifacts: Vec::new(),
        relations: Vec::new(),
        provenance: Provenance {
            producer: "sqlite-test".to_owned(),
            policy_digest: [5; 32],
            source_event_digests: vec![[9; 32]],
        },
        retention_permission: RetentionPermission::SemanticAndExactAllowed,
        payload: Payload::Episode(EpisodePayload {
            continues: None,
            event_sequence_start: 0,
            event_sequence_end: 0,
        }),
    }
}

fn core_atom(body: MemoryAtomBody) -> CoreAtom {
    let canonical_body = format!("{body:?}").into_bytes();
    let atom_id = hash_prefixed(&policy().atom_hash_domain, &canonical_body);
    let retained: Vec<[u8; 32]> = body
        .artifacts
        .iter()
        .filter(|artifact| artifact.retention_allowed)
        .map(|artifact| artifact.digest)
        .collect();
    let exact_package_bytes = canonical_body.len() as u64;
    CoreAtom {
        authority: CoreAuthority {
            rejection: None,
            atom_id,
            json_projection: format!("{{\"body\":\"{}\"}}", hex::encode(&canonical_body)),
            canonical_body,
            canonical_provenance: format!("{:?}", body.provenance).into_bytes(),
            provenance_json_projection: format!("{{\"producer\":{:?}}}", body.provenance.producer),
            retained_artifact_digests: retained,
            exact_package_bytes,
        },
        body,
    }
}

fn exact_stm_state(body: &MemoryAtomBody) -> AtomState {
    AtomState {
        retention_tier: RetentionTier::ShortTerm,
        content_status: ContentStatus::Present,
        expires_at_us: Some(body.interval.recorded_at_us + policy().stm_horizon_us),
        superseded_by: None,
        feedback_positive: 0,
        feedback_negative: 0,
        retrieval_count: 0,
        retirement_run_id: None,
    }
}

fn stm_state(expires_at_us: u64) -> AtomState {
    let mut state = exact_stm_state(&core_body());
    state.expires_at_us = Some(expires_at_us);
    state
}

fn numbered(id: u8) -> CoreAtom {
    let mut body = core_body();
    body.scope.session_id = format!("session-{id}");
    body.trigger = format!("memory {id}");
    body.interval.recorded_at_us = 10;
    core_atom(body)
}

fn projected(atom: &CoreAtom) -> Result<ProjectedProvenance, String> {
    Ok(ProjectedProvenance {
        producer: atom.body.provenance.producer.clone(),
        policy_digest: atom.body.provenance.policy_digest,
        source_event_digests: atom.body.provenance.source_event_digests.clone(),
        canonical: atom.authority.canonical_provenance.clone(),
    })
}

fn key() -> CohortKey {
    CohortKey { memory_space_id: "space-a".to_owned(), cohort_day: 1, as_of_us: DAY * 2 }
}

fn snapshot(atoms: &[CoreAtom]) -> CohortSnapshot {
    let mut rows: Vec<SnapshotRow> = atoms
        .iter()
        .map(|atom| {
            let record = AtomRecord::from_core(atom, &stm_state(DAY + 1)).unwrap();
            SnapshotRow {
                atom_id: record.atom_id.to_vec(),
                body_digest: record.body_digest.to_vec(),
                body_bytes: record.canonical_body.len() as i64,
                retention_permission: record.retention_permission,
                session_id: record.session_id,
                retention_tier: record.retention_tier,
                content_status: record.content_status,
                expires_at_us: Some(DAY as i64 + 1),
                superseded_by: None,
                feedback_positive: 0,
                feedback_negative: 0,
                retrieval_count: 0,
                retirement_run_id: None,
                artifact_bytes: 0,
                canonical_body: Some(record.canonical_body),
            }
        })
        .collect();
    rows.sort_by(|left, right| left.atom_id.cmp(&right.atom_id));
    take_snapshot(&key(), &rows, &policy().atom_hash_domain).unwrap()
}

fn semantic(source: &CoreAtom) -> CoreAtom {
    let mut body = core_body();
    body.trigger = "a lesson".to_owned();
    body.relations = vec![RelationDeclaration {
        kind: RelationKind::DerivedFrom,
        target: source.authority.atom_id,
        canonical: b"derived".to_vec(),
    }];
    body.payload = Payload::Semantic(SemanticPayload {
        source_ids: vec![source.authority.atom_id],
        source_body_digests: vec![SourceDigest {
            atom_id: source.authority.atom_id,
            body_digest: source.authority.atom_id,
        }],
        consensus_numerator: 1,
        consensus_denominator: 1,
    });
    core_atom(body)
}

fn plan(snapshot: &CohortSnapshot, output: &CoreAtom) -> RetirementPlan {
    let winner = snapshot.atoms[0].atom_id;
    let mut kept = ByteMap::new();
    set_group(&mut kept, &winner, &vec![[8; 32]]);
    RetirementPlan {
        digest: [35; 32],
        decision_digest: [40; 32],
        closure: ReceiptClosure {
            source_atom_ids: vec![winner],
            semantic_atom_ids: vec![output.authority.atom_id],
            exact_episode_ids: vec![winner],
            exact_artifact_digests: kept,
        },
        memory_space_id: "space-a".to_owned(),
        cohort_day: 1,
        as_of_us: DAY * 2,
        policy_id: "poc-v1".to_owned(),
        policy_digest: policy().digest,
        seed: [33; 32],
        rng_identifier: "rng".to_owned(),
        input_set_digest: [41; 32],
        episodic_population_digest: [34; 32],
        episodic_population_count: 1,
        episodic_winner_budget: 1,
        episodic_winner_bytes: 1,
        semantic_count_budget: 1,
        semantic_body_bytes: 1,
        projected_state_digest: [36; 32],
        projected_post_state: RetirementPostState {
            memory_space_id: "space-a".to_owned(),
            source_atoms: Vec::new(),
            semantic_atoms: Vec::new(),
        },
        post_state_authority: PostStateAuthority {
            digest: [36; 32],
            canonical_state: b"state".to_vec(),
            json_projection: "{}".to_owned(),
        },
        decisions: vec![PlanDecision {
            atom_id: winner,
            exact_retained: true,
            forget_episode_body: false,
            semantic_atom_ids: vec![output.authority.atom_id],
            exact_artifact_digests: vec![[8; 32]],
            canonical: b"decision".to_vec(),
        }],
        semantic_atoms: vec![PlannedSemantic {
            atom_id: output.authority.atom_id,
            atom: output.clone(),
        }],
        episodic_winners: vec![winner],
    }
}

#[test]
fn commits_are_made_of_plans() {
    let source = numbered(1);
    let snapshot = snapshot(&[source.clone()]);
    let output = semantic(&source);
    let plan = plan(&snapshot, &output);
    assert_eq!(decision_text(&plan.decisions[0]), "semantic_and_episodic");
    let receipt = ReceiptAuthority {
        run_id: [42; 32],
        receipt_id: [37; 32],
        canonical_receipt: b"receipt".to_vec(),
        canonical_closure: b"closure".to_vec(),
        json_projection: "{}".to_owned(),
    };
    let commit = build_core_commit(&plan, &receipt, &snapshot).unwrap();
    assert_eq!(commit.run_id, [42; 32]);
    assert_eq!(commit.expected_input_set_digest, snapshot.input_set_digest);
    assert_eq!(commit.proof_input_set_digest, [41; 32]);
    assert_eq!(commit.decisions[0].decision, "semantic_and_episodic");
    assert_eq!(commit.decisions[0].pre_state_digest, snapshot.atoms[0].state_digest);
    assert_eq!(commit.decisions[0].details_digest, sha256(b"decision"));
    assert_eq!(commit.artifact_pins.len(), 1);
    assert_eq!(commit.artifact_pins[0].artifact_digest.0, [8; 32]);
    assert_eq!(commit.semantic_atoms[0].retention_tier, "ltm_semantic");
    assert_eq!(commit.receipt.closure_digest, sha256(b"closure"));

    let outcome = outcome_from_plan(&plan, true);
    assert_eq!(outcome.observed_input_digest, [41; 32]);
    assert_eq!(outcome.applied_decision_count, 1);
    assert_eq!(outcome.semantic_atom_ids, vec![output.authority.atom_id]);
    assert_eq!(outcome.exact_artifact_digests.len(), 1);
    assert!(outcome.already_applied);
}

#[test]
fn plans_are_applied_once_and_to_their_own_cohort() {
    let source = numbered(1);
    let snapshot = snapshot(&[source.clone()]);
    let plan = plan(&snapshot, &semantic(&source));
    assert_eq!(find_prior_run(&plan, &None, false).unwrap(), None);
    assert!(matches!(
        find_prior_run(&plan, &None, true),
        Err(StoreError::RetirementConflict)
    ));
    let prior = PriorRun {
        run_id: vec![42; 32],
        projected_state_digest: vec![36; 32],
        status: "applied".to_owned(),
    };
    assert_eq!(find_prior_run(&plan, &Some(prior.clone()), true).unwrap(), Some([42; 32]));
    let mut unfinished = prior;
    unfinished.status = "running".to_owned();
    assert!(matches!(
        find_prior_run(&plan, &Some(unfinished), true),
        Err(StoreError::RetirementConflict)
    ));
    check_current_plan(&plan, &[41; 32], true).unwrap();
    assert!(matches!(
        check_current_plan(&plan, &[0; 32], true),
        Err(StoreError::StalePlan { .. })
    ));
    assert!(matches!(
        check_current_plan(&plan, &[41; 32], false),
        Err(StoreError::InvalidRetirementPlan(_))
    ));
}

#[test]
fn semantic_outputs_are_stored_with_their_relations() {
    let output = semantic(&numbered(1));
    let mut state = stm_state(DAY);
    state.retention_tier = RetentionTier::SemanticLongTerm;
    state.expires_at_us = None;
    let record = AtomRecord::from_core(&output, &state).unwrap();
    let stored = store_semantic_output(
        &key(),
        &record,
        &Ok(output.clone()),
        &projected(&output),
        &policy(),
        &None,
        false,
    )
    .unwrap();
    assert_eq!(stored.rows.atom_id, output.authority.atom_id);
    assert_eq!(stored.relation_links.len(), 1);
    assert_eq!(stored.relation_links[0].relation_kind, "derived_from");
    let mut episode = record.clone();
    episode.atom_kind = "episode".to_owned();
    assert!(matches!(
        store_semantic_output(
            &key(),
            &episode,
            &Ok(output.clone()),
            &projected(&output),
            &policy(),
            &None,
            false,
        ),
        Err(StoreError::InvalidRetirementPlan(_))
    ));
}

#[test]
fn declared_artifacts_are_linked_when_their_bytes_are_there() {
    let store = ArtifactStore::open("/artifacts".to_owned());
    let record = store.ingest_bytes(b"inline").unwrap();
    let file =
        || ObservedPath::File { byte_len: 6, chunks: vec![b"in".to_vec(), b"line".to_vec()] };
    let row = ArtifactFileRow {
        artifact_digest: record.digest.0.to_vec(),
        byte_len: 6,
        relative_path: record.relative_path.clone(),
    };
    let artifact = ArtifactDeclaration {
        digest: record.digest.0,
        media_type: "text/plain".to_owned(),
        size_bytes: 6,
        retention_allowed: true,
        inline_payload: Some(b"inline".to_vec()),
    };
    let evidence =
        DeclaredEvidence { placed: ObservedPath::Missing, observed: file(), row: Some(row) };
    let link = prepare_artifact_link(&store, &artifact, 3, &evidence).unwrap();
    assert_eq!(link.artifact_digest.0, record.digest.0);
    assert_eq!(link.role, "text/plain");
    let mut other = artifact;
    other.inline_payload = Some(b"other!".to_vec());
    assert!(prepare_artifact_link(&store, &other, 3, &evidence).is_err());
    assert_eq!(
        store.required_directories(),
        vec!["/artifacts", "/artifacts/sha256", "/artifacts/.tmp"]
    );
    assert_eq!(store.temporary_path(7, 3), "/artifacts/.tmp/ingest-7-3.partial");
}

#[test]
fn stored_links_are_immutable() {
    let link = AtomArtifactLink {
        artifact_digest: ArtifactDigest([1; 32]),
        role: "text/plain".to_owned(),
        retention_allowed: true,
    };
    confirm_artifact_link(&link, &[2; 32], 1).unwrap();
    confirm_artifact_provenance(&link, &[2; 32], 1).unwrap();
    assert!(matches!(
        confirm_artifact_link(&link, &[2; 32], 0),
        Err(StoreError::ImmutableConflict(_))
    ));
    assert!(confirm_artifact_provenance(&link, &[2; 32], 0).is_err());
    confirm_relation(&[1; 32], &[2; 32], "supports", b"relation", &sha256(b"relation")).unwrap();
    match confirm_relation(&[1; 32], &[2; 32], "supports", b"relation", &sha256(b"other")) {
        Err(error) => assert_eq!(
            error.to_text(),
            format!(
                "record already exists with different immutable content: relation {} -> {} \
                 (supports)",
                "01".repeat(32),
                "02".repeat(32)
            )
        ),
        Ok(()) => panic!("a changed relation was confirmed"),
    }
}

#[test]
fn scale_bodies_are_stripped_and_timed() {
    let mut body = core_body();
    body.observations[0].artifact_digest = Some([1; 32]);
    body.artifacts.push(ArtifactDeclaration {
        digest: [1; 32],
        media_type: "text/plain".to_owned(),
        size_bytes: 1,
        retention_allowed: true,
        inline_payload: None,
    });
    let kept = prepare_scale_body(body.clone(), 99);
    assert!(kept.artifacts.is_empty());
    assert_eq!(kept.observations[0].artifact_digest, None);
    assert_eq!(kept.observations[0].at_us, 92);
    assert_eq!(kept.interval.recorded_at_us, 100);
    assert_eq!(kept.retention_permission, RetentionPermission::SemanticAndExactAllowed);
    let transient = prepare_scale_body(body, 100);
    assert_eq!(transient.retention_permission, RetentionPermission::TransientOnly);
}
