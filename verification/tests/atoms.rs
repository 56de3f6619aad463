//! Storing atoms: drafts, batches, relations, snapshots and feedback.

use naome_memory::artifact::ArtifactStore;
use naome_memory::bytemap::ByteMap;
use naome_memory::digest::sha256;
use naome_memory::drafts::{
    DraftEvent, DraftScope, DraftStep, append_event, append_steps, chain_record,
    check_chain_seal, check_seal, claim_sequence, confirm_sealed, create_draft, load_events,
    seal_draft, seal_steps, sealing_atom, validate_core_episode_chain,
};
use naome_memory::error::StoreError;
use naome_memory::feedback::{
    Feedback, FeedbackEffect, FeedbackRow, add_feedback, check_retrievals, confirm_feedback,
    confirm_retrieval,
};
use naome_memory::insertion::{
    BatchAtom, ExistingAtom, MAX_ATOM_INSERT_BATCH, StoredProvenance, batch_outcome, check_batch,
    new_record, put_atom,
};
use naome_memory::lifecycle::validate_initial_atom_state;
use naome_memory::links::{
    AtomRelationLink, add_relation, prepare_relation_links, validate_atom_links_with_batch,
    validate_relation_memory_space,
};
use naome_memory::model::{
    AtomState, ContentStatus, CoreAtom, CoreAuthority, EpisodePayload, Interval, MemoryAtomBody,
    Observation, Payload, Policy, Provenance, RelationDeclaration, RelationKind,
    RetentionPermission, RetentionTier, Scope, SemanticPayload,
};
use naome_memory::records::{AtomRecord, ProjectedProvenance, hash_prefixed, validate_atom};
use naome_memory::snapshot::{
    CohortKey, CohortSnapshot, SnapshotRow, cohort_bounds, take_snapshot,
};

const DAY: u64 = 86_400_000_000;

fn policy() -> Policy {
    Policy {
        policy_id: "poc-v1".to_owned(),
        digest: [5; 32],
        canonical_body: b"policy".to_vec(),
        json_projection: "{\"policy\":1}".to_owned(),
        atom_hash_domain: b"naome-memory:atom:v1\0".to_vec(),
        stm_horizon_us: 7 * DAY,
        atom_hard_max_bytes: 262_144,
        inline_payload_max_bytes: 65_536,
        artifact_max_bytes: 67_108_864,
        min_semantic_sources: 3,
        consensus_numerator: 2,
        consensus_denominator: 3,
        semantic_rate_ppm: 20_000,
        semantic_count_max: 100,
        episodic_rate_ppm: 5_000,
        episodic_count_max: 25,
        retrieval_candidate_max: 512,
    }
}

fn core_body() -> MemoryAtomBody {
    MemoryAtomBody {
        contract_version: "atom-v1".to_owned(),
        scope: Scope {
            memory_space_id: "space-a".to_owned(),
            repository_id: Some("repo-a".to_owned()),
            task_id: Some("task-a".to_owned()),
            agent_id: Some("agent-a".to_owned()),
            session_id: "session-a".to_owned(),
        },
        interval: Interval { started_at_us: 1, ended_at_us: 2, recorded_at_us: 3 },
        trigger: "test episode".to_owned(),
        goal: Some("verify store integration".to_owned()),
        plan: Vec::new(),
        observations: vec![Observation {
            at_us: 1,
            content: "typed storage fixture".to_owned(),
            artifact_digest: None,
        }],
        interpretations: Vec::new(),
        beliefs: Vec::new(),
        decisions: Vec::new(),
        actions: Vec::new(),
        outcome_summary: None,
        outcome_class: None,
        topic_keys: vec!["store".to_owned()],
        entity_ids: Vec::new(),
        artifacts: Vec::new(),
        relations: Vec::new(),
        provenance: Provenance {
            producer: "sqlite-test".to_owned(),
            policy_digest: [5; 32],
            source_event_digests: vec![[9; 32]],
        },
        retention_permission: RetentionPermission::SemanticAndExactAllowed,
        payload: Payload::Episode(EpisodePayload {
            continues: None,
            event_sequence_start: 0,
            event_sequence_end: 0,
        }),
    }
}

fn core_atom(body: MemoryAtomBody) -> CoreAtom {
    let canonical_body = format!("{body:?}").into_bytes();
    let atom_id = hash_prefixed(&policy().atom_hash_domain, &canonical_body);
    let retained: Vec<[u8; 32]> = body
        .artifacts
        .iter()
        .filter(|artifact| artifact.retention_allowed)
        .map(|artifact| artifact.digest)
        .collect();
    let exact_package_bytes = canonical_body.len() as u64;
    CoreAtom {
        authority: CoreAuthority {
            rejection: None,
            atom_id,
            json_projection: format!("{{\"body\":\"{}\"}}", hex::encode(&canonical_body)),
            canonical_body,
            canonical_provenance: format!("{:?}", body.provenance).into_bytes(),
            provenance_json_projection: format!("{{\"producer\":{:?}}}", body.provenance.producer),
            retained_artifact_digests: retained,
            exact_package_bytes,
        },
        body,
    }
}

fn exact_stm_state(body: &MemoryAtomBody) -> AtomState {
    AtomState {
        retention_tier: RetentionTier::ShortTerm,
        content_status: ContentStatus::Present,
        expires_at_us: Some(body.interval.recorded_at_us + policy().stm_horizon_us),
        superseded_by: None,
        feedback_positive: 0,
        feedback_negative: 0,
        retrieval_count: 0,
        retirement_run_id: None,
    }
}

fn stm_state(expires_at_us: u64) -> AtomState {
    let mut state = exact_stm_state(&core_body());
    state.expires_at_us = Some(expires_at_us);
    state
}

fn numbered(id: u8) -> CoreAtom {
    let mut body = core_body();
    body.scope.session_id = format!("session-{id}");
    body.trigger = format!("memory {id}");
    body.interval.recorded_at_us = 10;
    core_atom(body)
}

fn projected(atom: &CoreAtom) -> Result<ProjectedProvenance, String> {
    Ok(ProjectedProvenance {
        producer: atom.body.provenance.producer.clone(),
        policy_digest: atom.body.provenance.policy_digest,
        source_event_digests: atom.body.provenance.source_event_digests.clone(),
        canonical: atom.authority.canonical_provenance.clone(),
    })
}

fn stored_provenance(record: &AtomRecord) -> StoredProvenance {
    StoredProvenance {
        producer: record.provenance_producer.clone(),
        policy_digest: record.provenance_policy_digest.to_vec(),
        canonical: record.canonical_provenance.clone(),
        json: record.provenance_json_projection.clone(),
        provenance_digest: record.provenance_digest.to_vec(),
        sources: record.provenance_source_digests.iter().map(|digest| digest.to_vec()).collect(),
    }
}

/// The atoms of a store, by identity, as a table would hold them.
struct Shelf {
    records: Vec<(AtomRecord, CoreAtom)>,
    cohort_retired: bool,
}

impl Shelf {
    fn new() -> Self {
        Shelf { records: Vec::new(), cohort_retired: false }
    }

    fn existing(&self, record: &AtomRecord) -> Option<ExistingAtom> {
        self.records.iter().find(|(stored, _)| stored.atom_id == record.atom_id).map(
            |(stored, _)| ExistingAtom {
                body_digest: stored.body_digest.to_vec(),
                canonical_body: Some(stored.canonical_body.clone()),
                provenance: Some(stored_provenance(stored)),
            },
        )
    }

    fn put(&mut self, record: &AtomRecord, atom: &CoreAtom) -> Result<bool, StoreError> {
        let rows = put_atom(
            record,
            &projected(atom),
            &policy(),
            &self.existing(record),
            self.cohort_retired,
        )?;
        match rows {
            Some(_) => {
                self.records.push((record.clone(), atom.clone()));
                Ok(true)
            }
            None => Ok(false),
        }
    }

    fn put_batch(&mut self, batch: &[(AtomRecord, CoreAtom)]) -> Result<Vec<bool>, StoreError> {
        let kept = self.records.len();
        let mut inserted = Vec::new();
        for (record, atom) in batch {
            match self.put(record, atom) {
                Ok(fresh) => inserted.push(fresh),
                Err(error) => {
                    self.records.truncate(kept);
                    return Err(error);
                }
            }
        }
        Ok(inserted)
    }

    fn spaces(&self) -> ByteMap<String> {
        let mut spaces = ByteMap::new();
        for (record, _) in &self.records {
            spaces.insert(record.atom_id.to_vec(), record.memory_space_id.clone());
        }
        spaces
    }

    fn snapshot(&self, key: &CohortKey) -> Result<CohortSnapshot, StoreError> {
        let (lower, upper) = cohort_bounds(key.cohort_day)?;
        let mut rows: Vec<SnapshotRow> = self
            .records
            .iter()
            .filter(|(record, _)| record.memory_space_id == key.memory_space_id)
            .filter(|(record, _)| {
                let expiry = record.expires_at_us.unwrap_or(0) as i64;
                lower <= expiry && expiry < upper
            })
            .map(|(record, _)| SnapshotRow {
                atom_id: record.atom_id.to_vec(),
                body_digest: record.body_digest.to_vec(),
                body_bytes: record.canonical_body.len() as i64,
                retention_permission: record.retention_permission.clone(),
                session_id: record.session_id.clone(),
                retention_tier: record.retention_tier.clone(),
                content_status: record.content_status.clone(),
                expires_at_us: record.expires_at_us.map(|value| value as i64),
                superseded_by: None,
                feedback_positive: 0,
                feedback_negative: 0,
                retrieval_count: 0,
                retirement_run_id: None,
                artifact_bytes: 0,
                canonical_body: Some(record.canonical_body.clone()),
            })
            .collect();
        rows.sort_by(|left, right| left.atom_id.cmp(&right.atom_id));
        take_snapshot(key, &rows, &policy().atom_hash_domain)
    }
}

fn record(id: u8, expires_at_us: u64) -> (AtomRecord, CoreAtom) {
    let atom = numbered(id);
    (AtomRecord::from_core(&atom, &stm_state(expires_at_us)).unwrap(), atom)
}

fn open_draft(session_id: &str) -> Option<DraftScope> {
    Some(DraftScope {
        memory_space_id: "space-a".to_owned(),
        repository_id: Some("repo-a".to_owned()),
        task_id: Some("task-a".to_owned()),
        agent_id: Some("agent-a".to_owned()),
        session_id: session_id.to_owned(),
        status: "open".to_owned(),
    })
}

#[test]
fn draft_append_is_sequence_guarded_and_seals_atomically() {
    create_draft("draft-1", 1, 1).unwrap();
    assert!(matches!(create_draft("draft-1", 1, 0), Err(StoreError::DraftConflict(_))));
    let payload = b"event".to_vec();
    let event = DraftEvent {
        sequence: 0,
        event_at_us: 2,
        event_kind: "observation".to_owned(),
        payload_digest: sha256(&payload),
        canonical_payload: payload,
    };
    let row = append_event(&event).unwrap();
    claim_sequence("draft-1", 0, 1).unwrap();
    let duplicate = DraftEvent {
        sequence: 0,
        event_at_us: 3,
        event_kind: "duplicate".to_owned(),
        canonical_payload: Vec::new(),
        payload_digest: sha256(&[]),
    };
    append_event(&duplicate).unwrap();
    let error = claim_sequence("draft-1", duplicate.sequence, 0).unwrap_err();
    assert_eq!(
        error.to_text(),
        "episode draft conflict: draft draft-1 is not open at sequence 0"
    );
    let (sealed, _) = record(1, DAY + 1);
    check_seal("draft-1", &open_draft("session-1"), &sealed).unwrap();
    confirm_sealed("draft-1", 1).unwrap();
    assert!(confirm_sealed("draft-1", 0).is_err());
    assert!(check_seal("draft-1", &open_draft("session-2"), &sealed).is_err());
    assert!(check_seal("draft-1", &None, &sealed).is_err());
    let events = load_events(&vec![row]).unwrap();
    assert_eq!(events.len(), 1);
    assert_eq!(events[0].canonical_payload, b"event");
    assert_eq!(events[0].payload_digest, sha256(b"event"));
}

#[test]
fn empty_draft_payload_is_integral_after_required_policy_install() {
    let event = DraftEvent {
        sequence: 0,
        event_at_us: 2,
        event_kind: "empty".to_owned(),
        canonical_payload: Vec::new(),
        payload_digest: sha256(&[]),
    };
    let row = append_event(&event).unwrap();
    let loaded = load_events(&vec![row]).unwrap();
    assert_eq!(loaded[0].canonical_payload, Vec::<u8>::new());
    assert_eq!(loaded[0].event_kind, "empty");

    let mut tampered = event;
    tampered.payload_digest = [0; 32];
    assert!(matches!(append_event(&tampered), Err(StoreError::Integrity(_))));
    let mut late = tampered;
    late.payload_digest = sha256(&[]);
    late.sequence = u64::MAX;
    assert!(matches!(append_event(&late), Err(StoreError::IntegerOutOfRange { .. })));
}

fn chain() -> (CoreAtom, CoreAtom, AtomState) {
    let first = core_atom(core_body());
    let first_id = first.authority.atom_id;
    let mut body = core_body();
    body.interval.started_at_us = 2;
    body.observations[0].at_us = 2;
    body.trigger = "test episode continuation".to_owned();
    body.payload = Payload::Episode(EpisodePayload {
        event_sequence_start: 1,
        event_sequence_end: 1,
        continues: Some(first_id),
    });
    body.relations = vec![RelationDeclaration {
        kind: RelationKind::Continues,
        target: first_id,
        canonical: b"continues".to_vec(),
    }];
    let state = exact_stm_state(&first.body);
    (first, core_atom(body), state)
}

#[test]
fn typed_episode_chain_is_one_atomic_seal_and_points_to_newest_atom() {
    let (first, second, state) = chain();
    let atoms = vec![
        BatchAtom { atom: first.clone(), state },
        BatchAtom { atom: second.clone(), state },
    ];
    validate_core_episode_chain(&atoms, policy().stm_horizon_us).unwrap();
    let mut spaces: ByteMap<String> = ByteMap::new();
    let records: Vec<AtomRecord> =
        atoms.iter().map(|entry| chain_record(entry, &mut spaces).unwrap()).collect();
    check_chain_seal("chain-draft", &open_draft("session-a"), &records).unwrap();
    let draft = seal_draft(&records).unwrap();
    assert_eq!(draft.status, "sealed");
    assert_eq!(draft.sealed_atom_id, second.authority.atom_id);
    assert_eq!(sealing_atom(&records).unwrap(), second.authority.atom_id);
    let mut shelf = Shelf::new();
    shelf.put(&records[0], &first).unwrap();
    shelf.put(&records[1], &second).unwrap();
    assert_eq!(shelf.records.len(), 2);
    let links = prepare_relation_links(&second.body.relations);
    assert_eq!(links.len(), 1);
    assert_eq!(links[0].relation_kind, "continues");
    assert_eq!(links[0].target_atom_id, first.authority.atom_id);
    assert!(matches!(
        chain_record(&atoms[0], &mut spaces),
        Err(StoreError::InvalidInput(_))
    ));
    let error = sealing_atom(&Vec::new()).unwrap_err();
    assert!(error.to_text().contains("episode chain must not be empty"));
}

#[test]
fn draft_steps_come_in_the_order_of_their_points() {
    let points = |steps: Vec<DraftStep>| {
        assert_eq!(steps.last(), Some(&DraftStep::Commit));
        steps
            .iter()
            .filter_map(|step| match step {
                DraftStep::Observe(point) => Some(point.identifier()),
                _ => None,
            })
            .collect::<Vec<_>>()
    };
    assert_eq!(
        points(append_steps()),
        vec!["draft_append_after_sequence_claim", "draft_append_after_event_insert"]
    );
    assert_eq!(
        points(seal_steps()),
        vec!["draft_seal_after_atom_insert", "draft_seal_after_status_update"]
    );
    assert_eq!(append_steps()[0], DraftStep::ClaimSequence);
    assert_eq!(append_steps()[2], DraftStep::InsertEvent);
    assert_eq!(seal_steps()[0], DraftStep::InsertAtoms);
    assert_eq!(seal_steps()[2], DraftStep::MarkSealed);
}

#[test]
fn typed_episode_chain_rolls_back_when_a_later_atom_is_invalid() {
    let (first, second, _) = chain();
    let mut body = second.body.clone();
    body.trigger = "oversized continuation".to_owned();
    body.goal = Some("x".repeat(262_145));
    let oversized = core_atom(body);
    let state = stm_state(DAY + 1);
    let atoms = vec![
        BatchAtom { atom: first.clone(), state },
        BatchAtom { atom: oversized.clone(), state },
    ];
    assert!(validate_core_episode_chain(&atoms, policy().stm_horizon_us).is_err());
    let mut shelf = Shelf::new();
    let batch = [
        (AtomRecord::from_core(&first, &state).unwrap(), first),
        (AtomRecord::from_core(&oversized, &state).unwrap(), oversized),
    ];
    assert!(shelf.put_batch(&batch).is_err());
    assert_eq!(shelf.records.len(), 0);
}

#[test]
fn episode_chains_are_contiguous() {
    let (first, second, state) = chain();
    let pair = |body: MemoryAtomBody| {
        vec![
            BatchAtom { atom: first.clone(), state },
            BatchAtom { atom: core_atom(body), state },
        ]
    };
    let mut gap = second.body.clone();
    gap.payload = Payload::Episode(EpisodePayload {
        event_sequence_start: 2,
        event_sequence_end: 2,
        continues: Some(first.authority.atom_id),
    });
    let error = validate_core_episode_chain(&pair(gap), policy().stm_horizon_us).unwrap_err();
    assert!(error.to_text().contains("contiguous"));
    let mut unrelated = second.body.clone();
    unrelated.relations = Vec::new();
    assert!(validate_core_episode_chain(&pair(unrelated), policy().stm_horizon_us).is_err());
    let mut moved = second.body.clone();
    moved.scope.session_id = "session-b".to_owned();
    assert!(validate_core_episode_chain(&pair(moved), policy().stm_horizon_us).is_err());
    assert!(validate_core_episode_chain(&Vec::new(), policy().stm_horizon_us).is_err());
}

#[test]
fn seal_with_bad_relation_rolls_back_atom_links_and_draft_status() {
    let (sealed, _) = record(1, DAY + 1);
    check_seal("draft-1", &open_draft("session-1"), &sealed).unwrap();
    let bad_relation = AtomRelationLink {
        target_atom_id: [99; 32],
        relation_kind: "continues".to_owned(),
        canonical_relation: b"missing-target-relation".to_vec(),
    };
    let store = ArtifactStore::open("/artifacts".to_owned());
    let mut batch: ByteMap<String> = ByteMap::new();
    batch.insert(sealed.atom_id.to_vec(), sealed.memory_space_id.clone());
    assert!(
        validate_atom_links_with_batch(
            &store,
            &sealed.memory_space_id,
            &Vec::new(),
            &vec![bad_relation],
            &ByteMap::new(),
            &batch,
            &ByteMap::new(),
        )
        .is_err()
    );
    // The links are judged before anything is written: the draft stays open and can be sealed.
    let draft = open_draft("session-1");
    assert_eq!(draft.as_ref().unwrap().status, "open");
    check_seal("draft-1", &draft, &sealed).unwrap();
    assert_eq!(seal_draft(&vec![sealed.clone()]).unwrap().sealed_atom_id, sealed.atom_id);
}

#[test]
fn relations_cannot_cross_memory_spaces_on_any_write_path() {
    let mut shelf = Shelf::new();
    let (source, source_atom) = record(1, DAY + 1);
    let (mut target, target_atom) = record(2, DAY + 1);
    target.memory_space_id = "space-b".to_owned();
    shelf.put(&source, &source_atom).unwrap();
    shelf.put(&target, &target_atom).unwrap();
    assert!(matches!(
        add_relation(&shelf.spaces(), &source.atom_id, &target.atom_id, "supports"),
        Err(StoreError::InvalidInput(_))
    ));
    assert!(matches!(
        validate_relation_memory_space(&shelf.spaces(), &source.atom_id, &target.atom_id),
        Err(StoreError::InvalidInput(_))
    ));
    let mut near = shelf.spaces();
    near.insert(target.atom_id.to_vec(), "space-a".to_owned());
    add_relation(&near, &source.atom_id, &target.atom_id, "supports").unwrap();
    assert!(add_relation(&near, &source.atom_id, &target.atom_id, "").is_err());
}

#[test]
fn bounded_batch_insert_is_atomic_and_idempotent() {
    let mut shelf = Shelf::new();
    let first = record(1, DAY + 1);
    let second = record(2, DAY + 2);
    let mut invalid = second.clone();
    invalid.0.body_digest = [0; 32];
    assert!(shelf.put_batch(&[first.clone(), invalid]).is_err());
    assert_eq!(shelf.records.len(), 0);

    let inserted = batch_outcome(&shelf.put_batch(&[first.clone(), second.clone()]).unwrap());
    assert_eq!(inserted.requested, 2);
    assert_eq!(inserted.inserted, 2);
    assert_eq!(inserted.already_present, 0);
    let replay = batch_outcome(&shelf.put_batch(&[first, second]).unwrap());
    assert_eq!(replay.requested, 2);
    assert_eq!(replay.inserted, 0);
    assert_eq!(replay.already_present, 2);
}

#[test]
fn batches_are_bounded_and_unlinked() {
    let (first, second, state) = chain();
    check_batch(&vec![BatchAtom { atom: first.clone(), state }]).unwrap();
    assert!(matches!(
        check_batch(&vec![BatchAtom { atom: second, state }]),
        Err(StoreError::InvalidInput(_))
    ));
    let many: Vec<BatchAtom> = (0..MAX_ATOM_INSERT_BATCH + 1)
        .map(|_| BatchAtom { atom: first.clone(), state })
        .collect();
    assert!(check_batch(&many).unwrap_err().to_text().contains("maximum is"));
}

#[test]
fn typed_insertion_rejects_invalid_body_and_initial_lifecycle_state() {
    let atom = core_atom(core_body());
    let state = exact_stm_state(&atom.body);
    new_record(&atom, &state, &policy()).unwrap();

    let mut wrong_expiry = state;
    wrong_expiry.expires_at_us = wrong_expiry.expires_at_us.map(|value| value + 1);
    assert!(matches!(
        new_record(&atom, &wrong_expiry, &policy()),
        Err(StoreError::InvalidInput(_))
    ));

    let mut forgotten = state;
    forgotten.content_status = ContentStatus::Forgotten;
    assert!(matches!(
        new_record(&atom, &forgotten, &policy()),
        Err(StoreError::InvalidInput(_))
    ));

    let mut counted = state;
    counted.feedback_positive = 1;
    assert!(matches!(
        new_record(&atom, &counted, &policy()),
        Err(StoreError::InvalidInput(_))
    ));

    let mut invalid = atom.clone();
    invalid.authority.rejection = Some("observation outside the interval".to_owned());
    assert!(matches!(new_record(&invalid, &state, &policy()), Err(StoreError::Core(_))));
}

#[test]
fn stored_bodies_are_immutable() {
    let mut shelf = Shelf::new();
    let (first, atom) = record(1, DAY + 1);
    assert!(shelf.put(&first, &atom).unwrap());
    assert!(!shelf.put(&first, &atom).unwrap());
    let changed = put_atom(
        &first,
        &projected(&atom),
        &policy(),
        &Some(ExistingAtom {
            body_digest: first.body_digest.to_vec(),
            canonical_body: Some(b"other".to_vec()),
            provenance: Some(stored_provenance(&first)),
        }),
        false,
    );
    assert!(matches!(changed, Err(StoreError::ImmutableConflict(_))));
    let mut foreign = stored_provenance(&first);
    foreign.producer = "other".to_owned();
    let changed = put_atom(
        &first,
        &projected(&atom),
        &policy(),
        &Some(ExistingAtom {
            body_digest: first.body_digest.to_vec(),
            canonical_body: Some(first.canonical_body.clone()),
            provenance: Some(foreign),
        }),
        false,
    );
    assert!(matches!(changed, Err(StoreError::ImmutableConflict(_))));
    shelf.cohort_retired = true;
    let (second, other) = record(2, DAY + 1);
    assert!(matches!(shelf.put(&second, &other), Err(StoreError::RetirementConflict)));
    assert!(!shelf.put(&first, &atom).unwrap());
}

#[test]
fn records_are_checked_before_they_are_stored() {
    let (good, atom) = record(1, DAY + 1);
    let cases: Vec<(&str, AtomRecord)> = vec![
        ("invalid atom JSON", {
            let mut bad = good.clone();
            bad.json_projection = "{".to_owned();
            bad
        }),
        ("invalid topic keys JSON", {
            let mut bad = good.clone();
            bad.topic_keys_json = "[".to_owned();
            bad
        }),
        ("invalid atom kind", {
            let mut bad = good.clone();
            bad.atom_kind = "other".to_owned();
            bad
        }),
        ("invalid retention permission", {
            let mut bad = good.clone();
            bad.retention_permission = "other".to_owned();
            bad
        }),
        ("invalid atom state", {
            let mut bad = good.clone();
            bad.retention_tier = "other".to_owned();
            bad
        }),
        ("provenance authority is inconsistent", {
            let mut bad = good.clone();
            bad.provenance_producer = "other".to_owned();
            bad
        }),
    ];
    for (expected, bad) in cases {
        let error = Shelf::new().put(&bad, &atom).unwrap_err();
        assert!(error.to_text().contains(expected), "{}", error.to_text());
    }
    let error = put_atom(&good, &Err("no JSON".to_owned()), &policy(), &None, false);
    assert!(matches!(error, Err(StoreError::Json(_))));
    assert_eq!(good.searchable_text.lines().next(), Some("memory 1"));
    assert_eq!(good.topic_keys_json, "[\"store\"]");
}

#[test]
fn snapshot_is_stable_sorted_and_space_isolated() {
    let mut shelf = Shelf::new();
    let second = record(2, DAY + 1);
    let first = record(1, DAY + 2);
    let mut other = record(3, DAY + 3);
    other.0.memory_space_id = "space-b".to_owned();
    shelf.put(&second.0, &second.1).unwrap();
    shelf.put(&first.0, &first.1).unwrap();
    shelf.put(&other.0, &other.1).unwrap();

    let key = CohortKey {
        memory_space_id: "space-a".to_owned(),
        cohort_day: 1,
        as_of_us: DAY * 2,
    };
    let one = shelf.snapshot(&key).unwrap();
    let two = shelf.snapshot(&key).unwrap();
    assert_eq!(one.input_set_digest, two.input_set_digest);
    assert_eq!(one.atoms.len(), 2);
    assert!(one.atoms[0].atom_id < one.atoms[1].atom_id);
    assert_eq!(
        one.atoms[0].exact_package_bytes(),
        one.atoms[0].body_bytes + one.atoms[0].artifact_bytes
    );
}

#[test]
fn feedback_counts_once() {
    let feedback = Feedback {
        feedback_id: [41; 32],
        atom_id: [1; 32],
        as_of_us: 100,
        positive: true,
        source: "test".to_owned(),
        evidence_digest: [42; 32],
    };
    let row = FeedbackRow {
        atom_id: vec![1; 32],
        as_of_us: 100,
        outcome: 1,
        source: "test".to_owned(),
        evidence_digest: vec![42; 32],
    };
    assert!(matches!(
        add_feedback(&feedback, 1, &None).unwrap(),
        FeedbackEffect::CountPositive
    ));
    assert!(matches!(
        add_feedback(&feedback, 0, &Some(row.clone())).unwrap(),
        FeedbackEffect::AlreadyCounted
    ));
    let mut changed = row;
    changed.outcome = 0;
    assert!(matches!(
        add_feedback(&feedback, 0, &Some(changed)),
        Err(StoreError::ImmutableConflict(_))
    ));
    confirm_feedback(1).unwrap();
    assert!(confirm_feedback(0).is_err());
    check_retrievals(&vec![[1; 32], [2; 32]]).unwrap();
    confirm_retrieval(&[1; 32], 1).unwrap();
    assert!(confirm_retrieval(&[1; 32], 0).is_err());
}

#[test]
fn atoms_keep_their_initial_lifecycle() {
    let payload = Payload::Semantic(SemanticPayload {
        source_ids: Vec::new(),
        source_body_digests: Vec::new(),
        consensus_numerator: 1,
        consensus_denominator: 1,
    });
    let mut state = stm_state(DAY);
    state.retention_tier = RetentionTier::SemanticLongTerm;
    state.expires_at_us = None;
    validate_initial_atom_state(&payload, 3, &state, 30 * DAY).unwrap();
    state.expires_at_us = Some(1);
    assert!(validate_initial_atom_state(&payload, 3, &state, 30 * DAY).is_err());
    let episode = core_body().payload;
    let mut overflow = stm_state(DAY);
    overflow.expires_at_us = Some(u64::MAX);
    assert!(validate_initial_atom_state(&episode, u64::MAX, &overflow, 1).is_err());
}

#[test]
fn records_stand_under_the_hash_of_their_body() {
    let atom = core_atom(core_body());
    let fresh = AtomRecord::from_core(&atom, &exact_stm_state(&atom.body)).unwrap();
    let expected = hash_prefixed(b"naome-memory:atom:v1\0", &fresh.canonical_body);
    assert_eq!(fresh.atom_id, expected);
    assert_eq!(fresh.body_digest, expected);

    let mut retired = exact_stm_state(&atom.body);
    retired.retention_tier = RetentionTier::EpisodicLongTerm;
    retired.expires_at_us = None;
    let kept = AtomRecord::from_core(&atom, &retired).unwrap();
    assert_eq!((fresh.retention_tier.as_str(), kept.retention_tier.as_str()), ("stm", "ltm_episodic"));
    assert_eq!((fresh.content_status.as_str(), kept.content_status.as_str()), ("present", "present"));
    assert_eq!(kept.expires_at_us, None);
    let mut same = kept.clone();
    same.retention_tier = fresh.retention_tier.clone();
    same.expires_at_us = fresh.expires_at_us;
    assert_eq!(format!("{same:?}"), format!("{fresh:?}"));

    let mut renamed = fresh.clone();
    renamed.atom_id = [1; 32];
    assert!(matches!(
        validate_atom(&renamed, &projected(&atom), &policy()),
        Err(StoreError::Integrity(_))
    ));
    validate_atom(&fresh, &projected(&atom), &policy()).unwrap();
}
