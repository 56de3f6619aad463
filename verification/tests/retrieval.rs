//! Searching and recalling atoms.

use naome_memory::artifact::ArtifactStore;
use naome_memory::bytemap::ByteMap;
use naome_memory::candidates::{
    FtsSummary, StoredRetrievalAtom, admit_to_pool, load_core_candidate,
    load_retrieval_candidate,
};
use naome_memory::error::StoreError;
use naome_memory::feedback::check_retrievals;
use naome_memory::insertion::{batch_outcome, new_record, put_atom};
use naome_memory::model::{
    AtomState, ContentStatus, CoreAtom, CoreAuthority, EpisodePayload, Interval, MemoryAtomBody,
    Observation, Payload, Policy, Provenance, RetentionPermission, RetentionTier, Scope,
};
use naome_memory::recall::{CandidateEvidence, RecallCandidates, RecallProgress};
use naome_memory::records::{
    AtomRecord, ProjectedProvenance, hash_prefixed, sha256_projection,
};
use naome_memory::retrieval::{
    RankOrder, RecallPlan, RetrievalSignals, ScoredAtom, SearchRow, SearchScope, SignalKind, Signals,
    check_search, collect_matches, coverage, plan_recall, rank, recalled_ids, search_candidates,
    select_candidates, signal_coverage,
};
use naome_memory::state_columns::StateColumns;
use naome_memory::tokens::{normalized_query_tokens, quoted_text};

const DAY: u64 = 86_400_000_000;

fn policy() -> Policy {
    Policy {
        policy_id: "poc-v1".to_owned(),
        digest: [5; 32],
        canonical_body: b"policy".to_vec(),
        json_projection: "{\"policy\":1}".to_owned(),
        atom_hash_domain: b"naome-memory:atom:v1\0".to_vec(),
        stm_horizon_us: 7 * DAY,
        atom_hard_max_bytes: 262_144,
        inline_payload_max_bytes: 65_536,
        artifact_max_bytes: 67_108_864,
        min_semantic_sources: 3,
        consensus_numerator: 2,
        consensus_denominator: 3,
        semantic_rate_ppm: 20_000,
        semantic_count_max: 100,
        episodic_rate_ppm: 5_000,
        episodic_count_max: 25,
        retrieval_candidate_max: 512,
    }
}

fn core_body() -> MemoryAtomBody {
    MemoryAtomBody {
        contract_version: "atom-v1".to_owned(),
        scope: Scope {
            memory_space_id: "space-a".to_owned(),
            repository_id: Some("repo-a".to_owned()),
            task_id: Some("task-a".to_owned()),
            agent_id: Some("agent-a".to_owned()),
            session_id: "session-a".to_owned(),
        },
        interval: Interval { started_at_us: 1, ended_at_us: 2, recorded_at_us: 3 },
        trigger: "test episode".to_owned(),
        goal: Some("verify store integration".to_owned()),
        plan: Vec::new(),
        observations: vec![Observation {
            at_us: 1,
            content: "typed storage fixture".to_owned(),
            artifact_digest: None,
        }],
        interpretations: Vec::new(),
        beliefs: Vec::new(),
        decisions: Vec::new(),
        actions: Vec::new(),
        outcome_summary: None,
        outcome_class: None,
        topic_keys: vec!["store".to_owned()],
        entity_ids: Vec::new(),
        artifacts: Vec::new(),
        relations: Vec::new(),
        provenance: Provenance {
            producer: "sqlite-test".to_owned(),
            policy_digest: [5; 32],
            source_event_digests: vec![[9; 32]],
        },
        retention_permission: RetentionPermission::SemanticAndExactAllowed,
        payload: Payload::Episode(EpisodePayload {
            continues: None,
            event_sequence_start: 0,
            event_sequence_end: 0,
        }),
    }
}

fn core_atom(body: MemoryAtomBody) -> CoreAtom {
    let canonical_body = format!("{body:?}").into_bytes();
    let atom_id = hash_prefixed(&policy().atom_hash_domain, &canonical_body);
    let retained: Vec<[u8; 32]> = body
        .artifacts
        .iter()
        .filter(|artifact| artifact.retention_allowed)
        .map(|artifact| artifact.digest)
        .collect();
    let exact_package_bytes = canonical_body.len() as u64;
    CoreAtom {
        authority: CoreAuthority {
            rejection: None,
            atom_id,
            json_projection: format!("{{\"body\":\"{}\"}}", hex::encode(&canonical_body)),
            canonical_body,
            canonical_provenance: format!("{:?}", body.provenance).into_bytes(),
            provenance_json_projection: format!("{{\"producer\":{:?}}}", body.provenance.producer),
            retained_artifact_digests: retained,
            exact_package_bytes,
        },
        body,
    }
}

fn exact_stm_state(body: &MemoryAtomBody) -> AtomState {
    AtomState {
        retention_tier: RetentionTier::ShortTerm,
        content_status: ContentStatus::Present,
        expires_at_us: Some(body.interval.recorded_at_us + policy().stm_horizon_us),
        superseded_by: None,
        feedback_positive: 0,
        feedback_negative: 0,
        retrieval_count: 0,
        retirement_run_id: None,
    }
}

fn stored(record: &AtomRecord) -> StoredRetrievalAtom {
    StoredRetrievalAtom {
        atom_kind: record.atom_kind.clone(),
        memory_space_id: record.memory_space_id.clone(),
        repository_id: record.repository_id.clone(),
        task_id: record.task_id.clone(),
        agent_id: record.agent_id.clone(),
        session_id: record.session_id.clone(),
        recorded_at_us: record.recorded_at_us as i64,
        body_digest: record.body_digest.to_vec(),
        body_bytes: record.canonical_body.len() as i64,
        retention_permission: record.retention_permission.clone(),
        provenance_digest: record.provenance_digest.to_vec(),
        canonical_body: record.canonical_body.clone(),
        json_projection: record.json_projection.clone(),
        state: columns(record),
        searchable_text: record.searchable_text.clone(),
        topic_keys_json: record.topic_keys_json.clone(),
        entity_ids_json: record.entity_ids_json.clone(),
        outcome_class: record.outcome_class.clone(),
        projection_digest: sha256_projection(record).to_vec(),
    }
}

fn columns(record: &AtomRecord) -> StateColumns {
    StateColumns {
        retention_tier: record.retention_tier.clone(),
        content_status: record.content_status.clone(),
        expires_at_us: record.expires_at_us.map(|value| value as i64),
        superseded_by: None,
        feedback_positive: 0,
        feedback_negative: 0,
        retrieval_count: 0,
        retirement_run_id: None,
    }
}

fn fts(record: &AtomRecord) -> FtsSummary {
    FtsSummary {
        row_count: 1,
        least_text: Some(record.searchable_text.clone()),
        greatest_text: Some(record.searchable_text.clone()),
    }
}

#[test]
fn selected_candidate_search_projection_tampering_fails_closed() {
    let store = ArtifactStore::open("/artifacts".to_owned());
    let atom = core_atom(core_body());
    let record = AtomRecord::from_core(&atom, &exact_stm_state(&atom.body)).unwrap();
    let id = record.atom_id;
    let parsed: Result<CoreAtom, String> = Ok(atom);
    let candidate = load_retrieval_candidate(
        &store,
        &id,
        7,
        &Some(stored(&record)),
        &parsed,
        &fts(&record),
        &ByteMap::new(),
    )
    .unwrap();
    assert_eq!(candidate.atom_id, id);
    assert_eq!(candidate.lexical_score, 7);

    let mut tampered = stored(&record);
    tampered.searchable_text = "tampered".to_owned();
    assert!(matches!(
        load_retrieval_candidate(
            &store,
            &id,
            7,
            &Some(tampered),
            &parsed,
            &fts(&record),
            &ByteMap::new(),
        ),
        Err(StoreError::Integrity(_))
    ));
    let mut twice = fts(&record);
    twice.row_count = 2;
    assert!(matches!(
        load_retrieval_candidate(
            &store,
            &id,
            7,
            &Some(stored(&record)),
            &parsed,
            &twice,
            &ByteMap::new(),
        ),
        Err(StoreError::Integrity(_))
    ));
    assert!(matches!(
        load_retrieval_candidate(
            &store,
            &id,
            7,
            &None,
            &parsed,
            &fts(&record),
            &ByteMap::new(),
        ),
        Err(StoreError::Sqlite(_))
    ));
    let loaded =
        load_core_candidate(&store, &id, &parsed, &columns(&record), &ByteMap::new()).unwrap();
    assert_eq!(loaded.atom_id, id);
    admit_to_pool(&id, RetentionPermission::SemanticAndExactAllowed).unwrap();
    assert!(matches!(
        admit_to_pool(&id, RetentionPermission::TransientOnly),
        Err(StoreError::Integrity(_))
    ));
}

#[test]
fn candidate_generation_is_deterministic_and_hard_capped_at_512() {
    let mut atoms = Vec::new();
    for discriminator in 1..=520u32 {
        let mut body = core_body();
        body.trigger = format!("cap-token {discriminator}");
        atoms.push(ScoredAtom {
            atom_id: core_atom(body).authority.atom_id,
            lexical_score: 1_000_000,
            lexical_part: 1,
            topic_part: 1,
            entity_part: 1,
        });
    }
    assert_eq!(batch_outcome(&vec![true; 520]).inserted, 520);
    let plan = || plan_recall(&atoms, 512, false, &Vec::new()).unwrap();
    let first = plan().ranked;
    let second = plan().ranked;
    let mut all_ids: Vec<[u8; 32]> = atoms.iter().map(|atom| atom.atom_id).collect();
    all_ids.sort_unstable();
    let ids = |list: &[ScoredAtom]| list.iter().map(|atom| atom.atom_id).collect::<Vec<_>>();
    assert_eq!(ids(&first), ids(&second));
    assert_eq!(first.len(), 512);
    assert_eq!(ids(&first), all_ids[..512].to_vec());
    assert_eq!(ids(&select_candidates(&atoms, 512)), all_ids[..512].to_vec());
}

#[test]
fn recall_is_repeatable_and_draws_on_a_pool_only_when_asked() {
    let atom = |id: u8, score: u32| ScoredAtom {
        atom_id: [id; 32],
        lexical_score: score,
        lexical_part: score,
        topic_part: 0,
        entity_part: 0,
    };
    let ids = |list: &[ScoredAtom]| list.iter().map(|atom| atom.atom_id[0]).collect::<Vec<_>>();
    let pool = vec![vec![8; 32], vec![9; 32]];
    let found = vec![atom(3, 5), atom(1, 5), atom(2, 9), atom(4, 1)];
    let mut shuffled = found.clone();
    shuffled.reverse();
    for atoms in [found, shuffled] {
        let silent = plan_recall(&atoms, 3, false, &pool).unwrap();
        assert_eq!(ids(&silent.loaded), vec![2, 1, 3]);
        assert_eq!(ids(&silent.ranked), vec![1, 2, 3]);
        assert!(silent.episodic_pool.is_empty());
        let asked = plan_recall(&atoms, 3, true, &pool).unwrap();
        assert_eq!(ids(&asked.ranked), vec![1, 2, 3]);
        assert_eq!(asked.episodic_pool, vec![[8; 32], [9; 32]]);
    }
    let torn = vec![vec![8; 31]];
    assert!(plan_recall(&Vec::new(), 3, false, &torn).is_ok());
    assert!(matches!(
        plan_recall(&Vec::new(), 3, true, &torn),
        Err(StoreError::InvalidDigestLength { .. })
    ));
    let once = recalled_ids(&vec![[2; 32], [1; 32]], &vec![[1; 32]]);
    assert_eq!(once, vec![[1; 32], [2; 32]]);
    check_retrievals(&once).unwrap();
}

#[test]
fn retrieval_counts_do_not_decide_what_is_recalled() {
    let store = ArtifactStore::open("/artifacts".to_owned());
    let atom = core_atom(core_body());
    let record = AtomRecord::from_core(&atom, &exact_stm_state(&atom.body)).unwrap();
    let load = |retrieval_count: i64| {
        let mut row = stored(&record);
        row.state.retrieval_count = retrieval_count;
        load_retrieval_candidate(
            &store,
            &record.atom_id,
            7,
            &Some(row),
            &Ok(atom.clone()),
            &fts(&record),
            &ByteMap::new(),
        )
        .unwrap()
    };
    let (fresh, often) = (load(0), load(41));
    assert_eq!(fresh.atom_id, often.atom_id);
    assert_eq!(fresh.lexical_score, often.lexical_score);
    assert_eq!(fresh.state.retrieval_count, 0);
    assert_eq!(often.state.retrieval_count, 41);
    assert_eq!(fresh.state.expires_at_us, often.state.expires_at_us);
}

#[test]
fn fts_candidates_are_scope_filtered_and_feedback_is_idempotent() {
    let local = SearchScope {
        memory_space_id: "space-a".to_owned(),
        repository_id: Some("repo-a".to_owned()),
        memory_space_wide: false,
    };
    check_search(&local, "memory", 10).unwrap();
    let wide = SearchScope {
        memory_space_id: "space-a".to_owned(),
        repository_id: None,
        memory_space_wide: true,
    };
    check_search(&wide, "memory", 10).unwrap();
    let unscoped = SearchScope {
        memory_space_id: "space-a".to_owned(),
        repository_id: None,
        memory_space_wide: false,
    };
    assert!(matches!(
        check_search(&unscoped, "memory", 10),
        Err(StoreError::InvalidInput(_))
    ));
    assert!(check_search(&local, " \t\u{2003}", 10).is_err());
    assert!(check_search(&local, "memory", 0).is_err());
    let row = SearchRow {
        atom_id: vec![1; 32],
        atom_kind: "episode".to_owned(),
        json_projection: "{}".to_owned(),
        feedback_positive: 1,
        feedback_negative: 0,
        retrieval_count: 1,
    };
    let found = search_candidates(&vec![row.clone()]).unwrap();
    assert_eq!(found[0].atom_id, [1; 32]);
    assert_eq!(found[0].feedback_positive, 1);
    assert_eq!(found[0].retrieval_count, 1);
    let mut negative = row;
    negative.retrieval_count = -1;
    assert!(search_candidates(&vec![negative]).is_err());
}

#[test]
fn query_tokens_are_lowered_runs() {
    let terms = vec!["Build-Proof".to_owned(), "\u{c4}pfel 42".to_owned(), "build".to_owned()];
    let tokens = normalized_query_tokens(&terms);
    let list: Vec<String> =
        (0..tokens.len()).map(|i| tokens.entry_at(i).1.clone()).collect();
    assert_eq!(list, vec!["42", "build", "proof", "\u{e4}pfel"]);
    assert_eq!(quoted_text("say \"hi\""), "\"say \"\"hi\"\"\"");
}

#[test]
fn matches_add_up_by_kind() {
    let mut signals: Signals = ByteMap::new();
    signals =
        collect_matches(signals, SignalKind::Lexical, &vec![vec![1; 32], vec![2; 32]]).unwrap();
    signals = collect_matches(signals, SignalKind::Lexical, &vec![vec![1; 32]]).unwrap();
    signals = collect_matches(signals, SignalKind::Topic, &vec![vec![1; 32]]).unwrap();
    signals = collect_matches(signals, SignalKind::Entity, &vec![vec![2; 32]]).unwrap();
    let first = signals.get(&[1; 32]).unwrap();
    assert_eq!((first.lexical, first.topics, first.entities), (2, 1, 0));
    let second = signals.get(&[2; 32]).unwrap();
    assert_eq!((second.lexical, second.topics, second.entities), (1, 0, 1));
    assert!(collect_matches(ByteMap::new(), SignalKind::Topic, &vec![vec![1; 31]]).is_err());
    assert!(coverage(3, 0).is_none());
    let part = coverage(5, 3).unwrap();
    assert_eq!((part.hits, part.population), (3, 3));
}

#[test]
fn rankings_put_scores_before_identities() {
    let atom = |id: u8, score: u32| ScoredAtom {
        atom_id: [id; 32],
        lexical_score: score,
        lexical_part: score,
        topic_part: 0,
        entity_part: 0,
    };
    let atoms = vec![atom(3, 5), atom(1, 5), atom(2, 9)];
    let ids = |list: Vec<ScoredAtom>| list.iter().map(|atom| atom.atom_id[0]).collect::<Vec<_>>();
    assert_eq!(ids(rank(RankOrder::ByScore, &atoms)), vec![2, 1, 3]);
    assert_eq!(ids(rank(RankOrder::ByIdentity, &atoms)), vec![1, 2, 3]);
    assert_eq!(
        recalled_ids(&vec![[3; 32], [1; 32]], &vec![[2; 32], [1; 32]]),
        vec![[1; 32], [2; 32], [3; 32]]
    );
}

#[test]
fn written_rows_can_be_recalled() {
    let store = ArtifactStore::open("/artifacts".to_owned());
    let atom = core_atom(core_body());
    let state = exact_stm_state(&atom.body);
    let record = new_record(&atom, &state, &policy()).unwrap();
    let projected: Result<ProjectedProvenance, String> = Ok(ProjectedProvenance {
        producer: atom.body.provenance.producer.clone(),
        policy_digest: atom.body.provenance.policy_digest,
        source_event_digests: atom.body.provenance.source_event_digests.clone(),
        canonical: atom.authority.canonical_provenance.clone(),
    });
    let rows = put_atom(&record, &projected, &policy(), &None, false).unwrap().unwrap();
    let summary = FtsSummary {
        row_count: 1,
        least_text: Some(rows.searchable_text.clone()),
        greatest_text: Some(rows.searchable_text.clone()),
    };
    let read = StoredRetrievalAtom {
        atom_kind: rows.atom_kind,
        memory_space_id: rows.memory_space_id,
        repository_id: rows.repository_id,
        task_id: rows.task_id,
        agent_id: rows.agent_id,
        session_id: rows.session_id,
        recorded_at_us: rows.recorded_at_us,
        body_digest: rows.body_digest.to_vec(),
        body_bytes: rows.body_bytes,
        retention_permission: rows.retention_permission,
        provenance_digest: rows.provenance_digest.to_vec(),
        canonical_body: rows.canonical_body,
        json_projection: rows.json_projection,
        state: StateColumns {
            retention_tier: rows.retention_tier,
            content_status: rows.content_status,
            expires_at_us: rows.expires_at_us,
            superseded_by: None,
            feedback_positive: 0,
            feedback_negative: 0,
            retrieval_count: 0,
            retirement_run_id: None,
        },
        searchable_text: rows.searchable_text,
        topic_keys_json: rows.topic_keys_json,
        entity_ids_json: rows.entity_ids_json,
        outcome_class: rows.outcome_class,
        projection_digest: rows.projection_digest.to_vec(),
    };
    let candidate = load_retrieval_candidate(
        &store,
        &rows.atom_id,
        3,
        &Some(read),
        &Ok(atom),
        &summary,
        &ByteMap::new(),
    )
    .unwrap();
    assert_eq!(candidate.atom_id, record.atom_id);
    assert_eq!(candidate.lexical_score, 3);
    assert_eq!(candidate.state.expires_at_us, state.expires_at_us);
}

fn held(atom: &CoreAtom, retrieval_count: i64) -> CandidateEvidence {
    let record = AtomRecord::from_core(atom, &exact_stm_state(&atom.body)).unwrap();
    let mut row = stored(&record);
    row.state.retrieval_count = retrieval_count;
    CandidateEvidence {
        stored: Some(row),
        parsed: Ok(atom.clone()),
        fts: fts(&record),
        artifacts: ByteMap::new(),
    }
}

fn triggered(trigger: &str) -> CoreAtom {
    let mut body = core_body();
    body.trigger = trigger.to_owned();
    core_atom(body)
}

fn recall(
    plan: RecallPlan,
    atoms: &[CoreAtom],
    retrieval_count: i64,
) -> Result<RecallCandidates, StoreError> {
    let store = ArtifactStore::open("/artifacts".to_owned());
    let mut progress = RecallProgress::new(plan);
    while let Some(atom_id) = progress.next_atom() {
        let atom = atoms.iter().find(|atom| atom.authority.atom_id == atom_id).unwrap();
        progress = progress.take(&store, &held(atom, retrieval_count))?;
    }
    progress.finish()
}

#[test]
fn whole_retrieval_is_repeatable() {
    let atoms = vec![triggered("first"), triggered("second"), triggered("third")];
    let found: Vec<ScoredAtom> = atoms
        .iter()
        .zip([4, 9, 4])
        .map(|(atom, score)| ScoredAtom {
            atom_id: atom.authority.atom_id,
            lexical_score: score,
            lexical_part: score,
            topic_part: 0,
            entity_part: 0,
        })
        .collect();
    let mut shuffled = found.clone();
    shuffled.reverse();
    let pool = vec![atoms[2].authority.atom_id.to_vec()];
    let plan = |found: &Vec<ScoredAtom>| plan_recall(found, 512, true, &pool).unwrap();
    let first = recall(plan(&found), &atoms, 0).unwrap();
    let again = recall(plan(&shuffled), &atoms, 6).unwrap();

    let mut ids: Vec<[u8; 32]> = atoms.iter().map(|atom| atom.authority.atom_id).collect();
    ids.sort_unstable();
    for (recalled, count) in [(&first, 0), (&again, 6)] {
        let ranked: Vec<[u8; 32]> = recalled.ranked.iter().map(|atom| atom.atom_id).collect();
        assert_eq!(ranked, ids);
        for candidate in &recalled.ranked {
            let expected = if candidate.atom_id == atoms[1].authority.atom_id { 9 } else { 4 };
            assert_eq!(candidate.lexical_score, expected);
            assert_eq!(candidate.state.retrieval_count, count);
        }
        assert_eq!(recalled.episodic_pool.len(), 1);
        assert_eq!(recalled.episodic_pool[0].atom_id, atoms[2].authority.atom_id);
        assert_eq!(recalled.episodic_pool[0].lexical_score, 0);
    }
}

#[test]
fn retrievals_stop_at_the_first_fault() {
    let store = ArtifactStore::open("/artifacts".to_owned());
    let atom = triggered("first");
    let found = vec![ScoredAtom {
        atom_id: atom.authority.atom_id,
        lexical_score: 1,
        lexical_part: 1,
        topic_part: 0,
        entity_part: 0,
    }];
    let plan = plan_recall(&found, 512, false, &Vec::new()).unwrap();
    let progress = RecallProgress::new(plan);
    assert_eq!(progress.next_atom(), Some(atom.authority.atom_id));
    let mut torn = held(&atom, 0);
    torn.stored.as_mut().unwrap().searchable_text = "tampered".to_owned();
    assert!(matches!(progress.take(&store, &torn), Err(StoreError::Integrity(_))));

    // An atom of the pool must permit exact retention.
    let mut body = core_body();
    body.retention_permission = RetentionPermission::SemanticAllowed;
    let closed = core_atom(body);
    let pool = vec![closed.authority.atom_id.to_vec()];
    let plan = plan_recall(&Vec::new(), 512, true, &pool).unwrap();
    let error = match recall(plan, &[closed], 0) {
        Err(error) => error.to_text(),
        Ok(_) => panic!("an atom without permission came up by itself"),
    };
    assert!(error.contains("lacks exact-retention permission"));

    let unread = RecallProgress::new(plan_recall(&found, 512, false, &Vec::new()).unwrap());
    assert!(matches!(unread.finish(), Err(StoreError::Sqlite(_))));
}

#[test]
fn signals_are_related_to_what_a_query_asks_for() {
    let found = RetrievalSignals { lexical: 2, topics: 1, entities: 7 };
    let parts = signal_coverage(&found, 4, 0, 5);
    let part = parts.lexical.unwrap();
    assert_eq!((part.hits, part.population), (2, 4));
    assert!(parts.topics.is_none());
    let part = parts.entities.unwrap();
    assert_eq!((part.hits, part.population), (5, 5));
}
