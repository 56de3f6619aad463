//! The scan of a whole store.

use naome_memory::artifact::{ArtifactRecord, ArtifactStore, ObservedPath};
use naome_memory::bytemap::ByteMap;
use naome_memory::check::{
    ForeignKeyViolation, check_database, check_integrity, scan_store, violation_text,
};
use naome_memory::digest::sha256;
use naome_memory::edges::{
    DecisionRow, FtsRow, LinkRow, LinkTable, PinRow, RelationRow, RunRow, load_artifact_links,
    load_artifact_pins, load_fts_authorities, load_relation_authorities,
    load_retirement_decision_authorities, load_retirement_run_authorities,
};
use naome_memory::error::StoreError;
use naome_memory::gc::{GcAction, begin_collection, decide, settle};
use naome_memory::integrity::{Authorities, ScannedAtom, StoredIntegrityAtom};
use naome_memory::model::{
    ArtifactDeclaration, AtomState, ContentStatus, CoreAtom, CoreAuthority, EpisodePayload,
    Interval, MemoryAtomBody, Observation, Payload, Policy, Provenance, RelationDeclaration,
    RelationKind, RetentionPermission, RetentionTier, Scope,
};
use naome_memory::policy::{PolicyRow, install_policy, verify_persisted_poc_policy};
use naome_memory::records::{
    AtomRecord, ProjectedProvenance, hash_prefixed, sha256_projection,
};
use naome_memory::tables::{
    ArtifactRow, HeaderRow, ProvenanceRow, SourceRow, load_artifact_authorities,
    load_header_authorities, load_provenance_authorities,
};

const DAY: u64 = 86_400_000_000;

fn policy() -> Policy {
    Policy {
        policy_id: "poc-v1".to_owned(),
        digest: [5; 32],
        canonical_body: b"policy".to_vec(),
        json_projection: "{\"policy\":1}".to_owned(),
        atom_hash_domain: b"naome-memory:atom:v1\0".to_vec(),
        stm_horizon_us: 7 * DAY,
        atom_hard_max_bytes: 262_144,
        inline_payload_max_bytes: 65_536,
        artifact_max_bytes: 67_108_864,
        min_semantic_sources: 3,
        consensus_numerator: 2,
        consensus_denominator: 3,
        semantic_rate_ppm: 20_000,
        semantic_count_max: 100,
        episodic_rate_ppm: 5_000,
        episodic_count_max: 25,
        retrieval_candidate_max: 512,
    }
}

fn core_body() -> MemoryAtomBody {
    MemoryAtomBody {
        contract_version: "atom-v1".to_owned(),
        scope: Scope {
            memory_space_id: "space-a".to_owned(),
            repository_id: Some("repo-a".to_owned()),
            task_id: Some("task-a".to_owned()),
            agent_id: Some("agent-a".to_owned()),
            session_id: "session-a".to_owned(),
        },
        interval: Interval { started_at_us: 1, ended_at_us: 2, recorded_at_us: 3 },
        trigger: "test episode".to_owned(),
        goal: Some("verify store integration".to_owned()),
        plan: Vec::new(),
        observations: vec![Observation {
            at_us: 1,
            content: "typed storage fixture".to_owned(),
            artifact_digest: None,
        }],
        interpretations: Vec::new(),
        beliefs: Vec::new(),
        decisions: Vec::new(),
        actions: Vec::new(),
        outcome_summary: None,
        outcome_class: None,
        topic_keys: vec!["store".to_owned()],
        entity_ids: Vec::new(),
        artifacts: Vec::new(),
        relations: Vec::new(),
        provenance: Provenance {
            producer: "sqlite-test".to_owned(),
            policy_digest: [5; 32],
            source_event_digests: vec![[9; 32]],
        },
        retention_permission: RetentionPermission::SemanticAndExactAllowed,
        payload: Payload::Episode(EpisodePayload {
            continues: None,
            event_sequence_start: 0,
            event_sequence_end: 0,
        }),
    }
}

fn core_atom(body: MemoryAtomBody) -> CoreAtom {
    let canonical_body = format!("{body:?}").into_bytes();
    let atom_id = hash_prefixed(&policy().atom_hash_domain, &canonical_body);
    let retained: Vec<[u8; 32]> = body
        .artifacts
        .iter()
        .filter(|artifact| artifact.retention_allowed)
        .map(|artifact| artifact.digest)
        .collect();
    let exact_package_bytes = canonical_body.len() as u64;
    CoreAtom {
        authority: CoreAuthority {
            rejection: None,
            atom_id,
            json_projection: format!("{{\"body\":\"{}\"}}", hex::encode(&canonical_body)),
            canonical_body,
            canonical_provenance: format!("{:?}", body.provenance).into_bytes(),
            provenance_json_projection: format!("{{\"producer\":{:?}}}", body.provenance.producer),
            retained_artifact_digests: retained,
            exact_package_bytes,
        },
        body,
    }
}

fn exact_stm_state(body: &MemoryAtomBody) -> AtomState {
    AtomState {
        retention_tier: RetentionTier::ShortTerm,
        content_status: ContentStatus::Present,
        expires_at_us: Some(body.interval.recorded_at_us + policy().stm_horizon_us),
        superseded_by: None,
        feedback_positive: 0,
        feedback_negative: 0,
        retrieval_count: 0,
        retirement_run_id: None,
    }
}

fn projected(atom: &CoreAtom) -> Result<ProjectedProvenance, String> {
    Ok(ProjectedProvenance {
        producer: atom.body.provenance.producer.clone(),
        policy_digest: atom.body.provenance.policy_digest,
        source_event_digests: atom.body.provenance.source_event_digests.clone(),
        canonical: atom.authority.canonical_provenance.clone(),
    })
}

fn policy_row() -> PolicyRow {
    PolicyRow {
        policy_digest: policy().digest.to_vec(),
        canonical_body: policy().canonical_body,
        json_projection: policy().json_projection,
        installed_at_us: 1,
    }
}

#[test]
fn policy_installation_is_exact_and_integrity_checked() {
    assert!(matches!(
        install_policy(&policy(), &Some("policy mismatch".to_owned()), 1, &policy_row()),
        Err(StoreError::Core(_))
    ));
    install_policy(&policy(), &None, 1, &policy_row()).unwrap();
    verify_persisted_poc_policy(&Some(policy_row()), 1, &policy()).unwrap();
    let mut tampered = policy_row();
    tampered.canonical_body = vec![0];
    assert!(matches!(
        verify_persisted_poc_policy(&Some(tampered), 1, &policy()),
        Err(StoreError::Integrity(_))
    ));
    assert!(verify_persisted_poc_policy(&None, 0, &policy()).is_err());
    assert!(verify_persisted_poc_policy(&Some(policy_row()), 2, &policy()).is_err());
}

/// The tables of a store.
struct World {
    atoms: Vec<ScannedAtom>,
    headers: Vec<HeaderRow>,
    provenance: Vec<ProvenanceRow>,
    relations: Vec<RelationRow>,
    refs: Vec<LinkRow>,
    edges: Vec<LinkRow>,
    artifacts: Vec<ArtifactRow>,
    fts: Vec<FtsRow>,
    pins: Vec<PinRow>,
    runs: Vec<RunRow>,
    decisions: Vec<DecisionRow>,
    files: ByteMap<ObservedPath>,
}

impl World {
    fn new() -> Self {
        World {
            atoms: Vec::new(),
            headers: Vec::new(),
            provenance: Vec::new(),
            relations: Vec::new(),
            refs: Vec::new(),
            edges: Vec::new(),
            artifacts: Vec::new(),
            fts: Vec::new(),
            pins: Vec::new(),
            runs: Vec::new(),
            decisions: Vec::new(),
            files: ByteMap::new(),
        }
    }

    fn put(&mut self, atom: &CoreAtom, state: &AtomState) {
        let record = AtomRecord::from_core(atom, state).unwrap();
        self.headers.push(HeaderRow {
            atom_id: record.atom_id.to_vec(),
            memory_space_id: record.memory_space_id.clone(),
            atom_kind: record.atom_kind.clone(),
            body_digest: record.body_digest.to_vec(),
        });
        self.provenance.push(ProvenanceRow {
            atom_id: record.atom_id.to_vec(),
            producer: record.provenance_producer.clone(),
            policy_digest: record.provenance_policy_digest.to_vec(),
            canonical: record.canonical_provenance.clone(),
            json: record.provenance_json_projection.clone(),
            provenance_digest: record.provenance_digest.to_vec(),
            sources: record
                .provenance_source_digests
                .iter()
                .enumerate()
                .map(|(ordinal, digest)| SourceRow {
                    ordinal: ordinal as i64,
                    digest: digest.to_vec(),
                })
                .collect(),
            projected: projected(atom),
        });
        self.fts.push(FtsRow {
            atom_id: hex::encode(record.atom_id),
            searchable_text: record.searchable_text.clone(),
        });
        for relation in &atom.body.relations {
            self.relations.push(RelationRow {
                source_atom_id: record.atom_id.to_vec(),
                target_atom_id: relation.target.to_vec(),
                relation_kind: "supports".to_owned(),
                relation_digest: sha256(&relation.canonical).to_vec(),
            });
        }
        for artifact in &atom.body.artifacts {
            let row = LinkRow {
                atom_id: record.atom_id.to_vec(),
                artifact_digest: artifact.digest.to_vec(),
                role: artifact.media_type.clone(),
                retention_allowed: i64::from(artifact.retention_allowed),
            };
            self.refs.push(row.clone());
            self.edges.push(row);
        }
        let projection = sha256_projection(&record).to_vec();
        self.atoms.push(ScannedAtom {
            stored: StoredIntegrityAtom {
                atom_id: record.atom_id.to_vec(),
                atom_kind: record.atom_kind,
                memory_space_id: record.memory_space_id.clone(),
                repository_id: record.repository_id.clone(),
                task_id: record.task_id,
                agent_id: record.agent_id,
                session_id: record.session_id,
                recorded_at_us: record.recorded_at_us as i64,
                body_digest: record.body_digest.to_vec(),
                body_bytes: record.canonical_body.len() as i64,
                retention_permission: record.retention_permission,
                provenance_digest: record.provenance_digest.to_vec(),
                canonical_body: Some(record.canonical_body),
                json_projection: Some(record.json_projection),
                retention_tier: Some(record.retention_tier),
                content_status: Some(record.content_status),
                expires_at_us: record.expires_at_us.map(|value| value as i64),
                superseded_by: None,
                feedback_positive: Some(0),
                feedback_negative: Some(0),
                retrieval_count: Some(0),
                retirement_run_id: None,
                observed_feedback_positive: 0,
                observed_feedback_negative: 0,
                search_atom_id: Some(record.atom_id.to_vec()),
                search_memory_space_id: Some(record.memory_space_id),
                search_repository_id: record.repository_id,
                searchable_text: Some(record.searchable_text),
                topic_keys_json: Some(record.topic_keys_json),
                entity_ids_json: Some(record.entity_ids_json),
                outcome_class: record.outcome_class,
                projection_digest: Some(projection),
            },
            parsed: Ok(atom.clone()),
        });
    }

    fn register(&mut self, bytes: &[u8]) -> ArtifactRecord {
        let store = ArtifactStore::open("/artifacts".to_owned());
        let record = store.ingest_bytes(bytes).unwrap();
        self.artifacts.push(ArtifactRow {
            record: store.ingest_bytes(bytes).unwrap(),
            integrity_status: "verified".to_owned(),
        });
        self.files.insert(
            record.digest.0.to_vec(),
            ObservedPath::File { byte_len: bytes.len() as u64, chunks: vec![bytes.to_vec()] },
        );
        record
    }

    fn scan(&self, verify_artifacts: bool) -> Result<u64, StoreError> {
        let headers = load_header_authorities(&self.headers)?;
        let artifacts = load_artifact_authorities(&self.artifacts)?;
        let artifact_refs = load_artifact_links(&self.refs, LinkTable::References)?;
        let artifact_provenance = load_artifact_links(&self.edges, LinkTable::ProvenanceEdges)?;
        let provenance = load_provenance_authorities(&self.provenance, &headers)?;
        let relations = load_relation_authorities(&self.relations, &headers)?;
        let artifact_pins = load_artifact_pins(&self.pins)?;
        let retirement_runs = load_retirement_run_authorities(&self.runs)?;
        let retirement_decisions = load_retirement_decision_authorities(&self.decisions)?;
        let fts = load_fts_authorities(&self.fts)?;
        let authorities = Authorities {
            headers,
            artifacts,
            artifact_refs,
            artifact_provenance,
            provenance,
            relations,
            artifact_pins,
            retirement_runs,
            retirement_decisions,
        };
        let store = ArtifactStore::open("/artifacts".to_owned());
        scan_store(
            &store,
            &self.atoms,
            &authorities,
            fts,
            &policy(),
            verify_artifacts,
            &self.files,
        )
    }

    fn check(&self, verify_artifacts: bool) -> Result<u64, StoreError> {
        check_integrity(
            "ok",
            &Vec::new(),
            &Some(policy_row()),
            1,
            &policy(),
            self.scan(verify_artifacts),
            &Vec::new(),
        )
        .map(|report| report.verified_artifacts)
    }
}

fn simple_world() -> World {
    let mut world = World::new();
    let atom = core_atom(core_body());
    world.put(&atom, &exact_stm_state(&atom.body));
    world
}

#[test]
fn full_integrity_scan_rejects_unretired_body_projection_search_and_state_tampering() {
    simple_world().check(false).unwrap();

    let mut world = simple_world();
    world.atoms[0].stored.canonical_body = Some(vec![0]);
    assert!(world.check(false).is_err());

    let mut world = simple_world();
    world.atoms[0].stored.json_projection = Some("{\"body\":\"tampered\"}".to_owned());
    assert!(world.check(false).is_err());

    let mut world = simple_world();
    world.atoms[0].stored.searchable_text = Some("tampered search".to_owned());
    assert!(world.check(false).is_err());

    let mut world = simple_world();
    world.fts.clear();
    assert!(world.check(false).is_err());

    let mut world = simple_world();
    world.atoms[0].stored.feedback_positive = Some(1);
    assert!(world.check(false).is_err());

    let mut world = simple_world();
    world.atoms[0].stored.repository_id = Some("tampered-repo".to_owned());
    assert!(world.check(false).is_err());

    let mut world = simple_world();
    world.provenance[0].sources.clear();
    assert!(world.check(false).is_err());

    let mut world = simple_world();
    world.atoms[0].parsed = Err("not JSON".to_owned());
    assert!(world.check(false).is_err());
}

fn linked_world() -> World {
    let mut world = World::new();
    let mut target = core_body();
    target.scope.session_id = "integrity-target".to_owned();
    target.trigger = "integrity relation target".to_owned();
    let target = core_atom(target);
    world.put(&target, &exact_stm_state(&target.body));

    let inline = b"integrity artifact bytes".to_vec();
    let record = world.register(&inline);
    let mut source = core_body();
    source.scope.session_id = "integrity-source".to_owned();
    source.trigger = "integrity relation source".to_owned();
    source.relations.push(RelationDeclaration {
        kind: RelationKind::Supports,
        target: target.authority.atom_id,
        canonical: b"supports".to_vec(),
    });
    source.artifacts.push(ArtifactDeclaration {
        digest: record.digest.0,
        size_bytes: record.byte_len,
        media_type: "application/octet-stream".to_owned(),
        retention_allowed: true,
        inline_payload: Some(inline),
    });
    let source = core_atom(source);
    world.put(&source, &exact_stm_state(&source.body));
    world
}

#[test]
fn full_integrity_scan_rejects_relation_and_artifact_closure_tampering() {
    assert_eq!(linked_world().check(true).unwrap(), 1);
    assert_eq!(linked_world().check(false).unwrap(), 0);

    let mut world = linked_world();
    world.relations.clear();
    assert!(world.check(false).is_err());

    let mut world = linked_world();
    world.refs.clear();
    assert!(world.check(false).is_err());

    let mut world = linked_world();
    world.edges.clear();
    assert!(world.check(false).is_err());

    let mut world = linked_world();
    world.relations[0].relation_digest = vec![0; 32];
    assert!(world.check(false).is_err());

    let mut world = linked_world();
    world.artifacts[0].record.byte_len += 1;
    assert!(world.check(false).is_err());
}

#[test]
fn integrity_check_detects_artifact_tampering() {
    let mut world = World::new();
    let record = world.register(b"original");
    assert_eq!(world.check(true).unwrap(), 1);
    world.files.insert(
        record.digest.0.to_vec(),
        ObservedPath::File { byte_len: 8, chunks: vec![b"changed!".to_vec()] },
    );
    assert!(matches!(world.check(true), Err(StoreError::ArtifactDigestMismatch { .. })));
    world.files.insert(record.digest.0.to_vec(), ObservedPath::Missing);
    assert!(matches!(world.check(true), Err(StoreError::ArtifactMissing { .. })));
}

#[test]
fn database_checks_come_first() {
    check_database("ok", &Vec::new()).unwrap();
    assert!(matches!(
        check_database("row 1 missing", &Vec::new()),
        Err(StoreError::Integrity(_))
    ));
    let violation = ForeignKeyViolation {
        table: "artifact_refs".to_owned(),
        rowid: Some(7),
        parent: "artifacts".to_owned(),
        key: 0,
    };
    assert!(violation_text(&violation).contains("artifact_refs"));
    assert!(matches!(
        check_database("ok", &vec![violation]),
        Err(StoreError::Integrity(_))
    ));
}

#[test]
fn episodic_retirement_drops_retention_disallowed_external_bytes_but_keeps_provenance() {
    let mut world = World::new();
    let record = world.register(b"transient external detail");
    let mut body = core_body();
    body.observations[0].artifact_digest = Some(record.digest.0);
    body.artifacts.push(ArtifactDeclaration {
        digest: record.digest.0,
        size_bytes: record.byte_len,
        media_type: "application/x-naome-transient".to_owned(),
        retention_allowed: false,
        inline_payload: None,
    });
    let atom = core_atom(body);
    let atom_id = atom.authority.atom_id;
    world.put(&atom, &exact_stm_state(&atom.body));
    assert_eq!(world.check(true).unwrap(), 1);

    let expiry = atom.body.interval.recorded_at_us + policy().stm_horizon_us;
    let as_of_us = (expiry / DAY + 1) * DAY;
    let run_id = [71_u8; 32];
    world.runs.push(RunRow {
        run_id: run_id.to_vec(),
        memory_space_id: atom.body.scope.memory_space_id.clone(),
        status: "applied".to_owned(),
    });
    world.decisions.push(DecisionRow {
        run_id: run_id.to_vec(),
        atom_id: atom_id.to_vec(),
        decision: "episodic_winner".to_owned(),
    });
    let stored = &mut world.atoms[0].stored;
    stored.retention_tier = Some("ltm_episodic".to_owned());
    stored.expires_at_us = None;
    stored.retirement_run_id = Some(run_id.to_vec());

    // The live link without permission to be kept has to go; its provenance has to stay.
    assert!(world.check(true).is_err());
    world.refs.clear();
    assert_eq!(world.check(true).unwrap(), 1);
    assert_eq!((world.refs.len(), world.edges.len(), world.pins.len()), (0, 1, 0));
    world.pins.push(PinRow {
        atom_id: atom_id.to_vec(),
        artifact_digest: record.digest.0.to_vec(),
        run_id: run_id.to_vec(),
    });
    assert!(world.check(true).is_err());
    world.pins.clear();
    let edges = std::mem::take(&mut world.edges);
    assert!(world.check(true).is_err());
    world.edges = edges;
    world.check(true).unwrap();

    begin_collection(as_of_us, DAY).unwrap();
    let decision = decide(false, None, as_of_us, DAY).unwrap();
    assert_eq!(settle(decision, 1).unwrap(), GcAction::Marked);
}
