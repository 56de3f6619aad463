//! The scale run and its report.

use naome_memory::bytemap::ByteMap;
use naome_memory::digest::sha256;
use naome_memory::evidence::{
    DEEP_SCALE_ATOM_COUNT, EvidenceStatusV1, SCALE_MAX_DISK_BYTES, SCALE_MAX_WALL_MILLIS,
    hash_prefixed_hex,
};
use naome_memory::hexadecimal::digest_hex;
use naome_memory::insertion::AtomBatchInsertOutcome;
use naome_memory::model::{ContentStatus, RetentionTier};
use naome_memory::plan::ReceiptClosure;
use naome_memory::receipt_fields::{InvariantEntry, ProofReceipt};
use naome_memory::release::{ClaimEntry, ProofClaims, ReleaseEvidence, release_preflight};
use naome_memory::scale::{
    ScaleStream, check_scale_batch, check_scale_size, measure_sizes, percentile,
    scale_cohort, scale_padding, scale_state, scale_target, sort_numbers,
};
use naome_memory::scale_report::{
    Generality, RecallHit, RecallReason, ScaleDigests, ScaleFacts, ScaleObservation,
    ScaleReceiptV1, ScaleStep, admit_scale_evidence, advance_scale,
    recompute_scale_logical_digest, scale_evidence_digest, scale_report, verify_scale_receipt,
    verify_scale_receipt_structure,
};
use naome_memory::tool_receipts::{RetainedRoot, ToolReceiptV1};

fn prefixed(domain: &str, bytes: &[u8]) -> [u8; 32] {
    let mut message = domain.as_bytes().to_vec();
    message.extend_from_slice(bytes);
    sha256(&message)
}

fn read(text: &str) -> Result<[u8; 32], String> {
    let bytes = hex::decode(text).map_err(|error| error.to_string())?;
    <[u8; 32]>::try_from(bytes.as_slice()).map_err(|error| error.to_string())
}

fn closure_bytes(report: &ScaleReceiptV1) -> Vec<u8> {
    format!(
        "{} {} {} {} {} {} {} {} {} {}",
        report.atom_count,
        report.p50_body_bytes,
        report.p95_body_bytes,
        report.maximum_body_bytes,
        report.logical_body_bytes,
        report.atom_stream_digest,
        report.input_set_digest,
        report.plan_digest,
        report.receipt_digest,
        report.retrieval_digest,
    )
    .into_bytes()
}

fn digests(report: &ScaleReceiptV1) -> ScaleDigests {
    ScaleDigests {
        atom_stream: read(&report.atom_stream_digest),
        input_set: read(&report.input_set_digest),
        plan: read(&report.plan_digest),
        receipt: read(&report.receipt_digest),
        retrieval: read(&report.retrieval_digest),
        logical: read(&report.logical_digest),
        canonical_closure: closure_bytes(report),
    }
}

fn encoded(report: &ScaleReceiptV1) -> Vec<u8> {
    let mut authority = report.clone();
    authority.evidence_digest = String::new();
    format!("{authority:?}").into_bytes()
}

fn close(report: &mut ScaleReceiptV1) {
    report.evidence_digest = scale_evidence_digest(&encoded(report));
}

fn close_logically(report: &mut ScaleReceiptV1) {
    let digest = recompute_scale_logical_digest(&digests(report)).unwrap();
    report.logical_digest = digest_hex(&digest);
    close(report);
}

fn core_receipt() -> ProofReceipt {
    ProofReceipt {
        contract_version: "proof-receipt-v1".to_owned(),
        receipt_id: [3; 32],
        run_id: [4; 32],
        memory_space_id: "synthetic-space-v1".to_owned(),
        cohort_day: 1,
        as_of_us: 172_800_000_000,
        policy_id: "poc-v1".to_owned(),
        policy_digest: [5; 32],
        rng_identifier: "rng".to_owned(),
        seed: [0x5a; 32],
        input_set_digest: [1; 32],
        population_digest: [6; 32],
        episodic_population_count: 100,
        episodic_winner_budget: 1,
        episodic_winner_bytes: 16_384,
        semantic_count_budget: 1,
        semantic_body_bytes: 100,
        plan_digest: [2; 32],
        decision_digest: [7; 32],
        state_digest: [8; 32],
        passed: true,
        invariants: [
            "budgets_structurally_bounded",
            "plan_structure_verified",
            "repository_outcome_closure_verified",
        ]
        .iter()
        .map(|name| InvariantEntry { name: (*name).to_owned(), verified: true })
        .collect(),
        closure: ReceiptClosure {
            source_atom_ids: (0..100u8).map(|i| [i; 32]).collect(),
            semantic_atom_ids: vec![[200; 32]],
            exact_episode_ids: vec![[0; 32]],
            exact_artifact_digests: ByteMap::new(),
        },
    }
}

fn scale_fixture() -> (ScaleReceiptV1, ProofReceipt) {
    let mut stream = ScaleStream::new();
    for index in 0..100 {
        let target = scale_target(index, 100);
        let body = vec![index as u8; target as usize];
        stream = stream.push(b"atom\0", &body, target).unwrap();
    }
    let logical = stream.finish();
    let sizes = measure_sizes(logical.sizes.clone()).unwrap();
    let facts = ScaleFacts {
        atom_count: 100,
        sizes,
        logical_body_bytes: logical.logical_body_bytes,
        atom_stream_digest: logical.atom_stream_digest.clone(),
        canonical_closure: Vec::new(),
        input_set_digest: [1; 32],
        plan_digest: [2; 32],
        receipt_digest: [3; 32],
        canonical_retrieval: b"retrieval".to_vec(),
        semantic_atom_count: 1,
        episodic_winner_count: 1,
        normal_hit_count: 1,
        spontaneous_hit_count: 1,
        observed_phase_millis: Vec::new(),
        observed_wall_millis: 10,
        observed_max_rss_bytes: Some(1),
        observed_disk_bytes: Some(1),
    };
    let commit = "a".repeat(40);
    let commit = Some(commit.as_str());
    assert!(scale_report(ScaleStep::CheckIntegrity, facts.clone(), commit, commit).is_none());
    let mut report = scale_report(ScaleStep::Publish, facts, commit, commit).unwrap();
    close_logically(&mut report);
    (report, core_receipt())
}

fn verify(report: &ScaleReceiptV1, atoms: usize) -> Result<(), String> {
    verify_scale_receipt(report, atoms, &encoded(report), &digests(report))
        .map_err(|error| error.message)
}

fn structure(report: &ScaleReceiptV1, atoms: usize) -> Result<(), String> {
    verify_scale_receipt_structure(report, atoms, &encoded(report), &digests(report))
        .map_err(|error| error.message)
}

fn publish(core: &ProofReceipt, id: [u8; 32], report: &ScaleReceiptV1) -> Result<(), String> {
    admit_scale_evidence(core, &Ok(id), report, 100, &encoded(report), &digests(report))
        .map_err(|error| error.message)?;
    verify(report, 100)
}

#[test]
fn representative_scale_smoke_runs_the_full_path() {
    let (report, _core_receipt) = scale_fixture();
    assert_eq!(report.status, EvidenceStatusV1::Passed);
    assert_eq!(report.atom_count, 100);
    assert!(report.plan_replay_verified);
    assert!(report.receipt_verified);
    assert!(report.apply_idempotent);
    assert!(report.semantic_atom_count > 0);
    assert!(report.episodic_winner_count > 0);
    assert!(report.normal_hit_count > 0);
    assert!(report.spontaneous_hit_count > 0);
    verify(&report, 100).unwrap();

    let mut tampered = report.clone();
    tampered.observed_wall_millis = tampered.observed_wall_millis.saturating_add(1);
    let error = verify(&tampered, 100).unwrap_err();
    assert!(error.contains("unknown or tampered"));

    let error = verify(&report, 101).unwrap_err();
    assert!(error.contains("atom count"));
    assert_eq!(error, "scale atom count 100 differs from expected 101");

    let mut mislabeled = report.clone();
    mislabeled.observed_wall_millis = SCALE_MAX_WALL_MILLIS + 1;
    close(&mut mislabeled);
    let error = verify(&mislabeled, 100).unwrap_err();
    assert!(error.contains("inconsistent"));

    let mut inconclusive = report.clone();
    inconclusive.atom_count = DEEP_SCALE_ATOM_COUNT;
    inconclusive.source_commit = "uncommitted".to_owned();
    inconclusive.status = EvidenceStatusV1::Inconclusive;
    inconclusive.observed_wall_millis = SCALE_MAX_WALL_MILLIS;
    inconclusive.observed_max_rss_bytes = None;
    inconclusive.observed_disk_bytes = Some(SCALE_MAX_DISK_BYTES);
    close_logically(&mut inconclusive);
    structure(&inconclusive, DEEP_SCALE_ATOM_COUNT).unwrap();
    let error = verify(&inconclusive, DEEP_SCALE_ATOM_COUNT).unwrap_err();
    assert!(error.contains("status Inconclusive"));
    assert_eq!(
        error,
        "scale evidence status Inconclusive is not passed (source=uncommitted, wall=1800000ms, \
         rss=None, disk=Some(10737418240))"
    );
}

#[test]
fn rejected_scale_evidence_publishes_only_after_structural_validation() {
    let (report, core_receipt) = scale_fixture();
    let mut failed = report.clone();
    failed.status = EvidenceStatusV1::Failed;
    failed.observed_wall_millis = SCALE_MAX_WALL_MILLIS + 1;
    close(&mut failed);
    structure(&failed, 100).unwrap();
    let error = verify(&failed, 100).unwrap_err();
    assert!(error.contains("status Failed"));

    let id = core_receipt.receipt_id;
    admit_scale_evidence(
        &core_receipt,
        &Ok(id),
        &failed,
        100,
        &encoded(&failed),
        &digests(&failed),
    )
    .unwrap();
    let error = publish(&core_receipt, id, &failed).unwrap_err();
    assert!(error.contains("status Failed"));

    let mut invalid_logical = failed.clone();
    invalid_logical.logical_digest =
        hash_prefixed_hex("naome-memory:test:invalid-scale\0", b"invalid");
    close(&mut invalid_logical);
    let error = admit_scale_evidence(
        &core_receipt,
        &Ok(id),
        &invalid_logical,
        100,
        &encoded(&invalid_logical),
        &digests(&invalid_logical),
    )
    .unwrap_err();
    assert!(error.message.contains("logical digest"));
}

#[test]
fn scale_core_binding_rejects_mismatched_or_nonpassed_receipts() {
    let (report, receipt) = scale_fixture();
    publish(&receipt, receipt.receipt_id, &report).unwrap();
    let mut invalid_core = core_receipt();
    invalid_core.receipt_id = prefixed("naome-memory:test:invalid-core\0", b"invalid");
    let error = publish(&invalid_core, [3; 32], &report).unwrap_err();
    assert!(error.contains("core retirement receipt id"));

    let mut mismatched_report = report.clone();
    mismatched_report.input_set_digest =
        hash_prefixed_hex("naome-memory:test:mismatched-input\0", b"input");
    close_logically(&mut mismatched_report);
    let error = publish(&receipt, [3; 32], &mismatched_report).unwrap_err();
    assert!(error.contains("not bound"));

    let mut rejected_core = core_receipt();
    rejected_core.passed = false;
    rejected_core.receipt_id = [9; 32];
    let mut rejected_core_report = report.clone();
    rejected_core_report.receipt_digest = digest_hex(&rejected_core.receipt_id);
    close_logically(&mut rejected_core_report);
    let error = publish(&rejected_core, [9; 32], &rejected_core_report).unwrap_err();
    assert!(error.contains("required verified invariants"));

    let mut short = core_receipt();
    short.closure.source_atom_ids.pop();
    let error = publish(&short, [3; 32], &report).unwrap_err();
    assert!(error.contains("counts do not match"));
}

#[test]
fn scale_reports_close_over_their_digests() {
    let (report, _) = scale_fixture();
    let mut incomplete = report.clone();
    incomplete.normal_hit_count = 0;
    close(&mut incomplete);
    assert_eq!(structure(&incomplete, 100).unwrap_err(), "scale full-path closure is incomplete");

    let mut small = report.clone();
    small.atom_count = 99;
    close(&mut small);
    assert_eq!(
        structure(&small, 99).unwrap_err(),
        "scale atom count is outside the supported proof envelope"
    );

    let mut garbled = report.clone();
    garbled.plan_digest = "zz".to_owned();
    close(&mut garbled);
    assert!(structure(&garbled, 100).is_err());
}

#[test]
fn scale_runs_are_bounded() {
    check_scale_size(100).unwrap();
    check_scale_size(100_000).unwrap();
    assert!(check_scale_size(99).unwrap_err().message.contains("at least 100 atoms"));
    assert!(check_scale_size(100_001).unwrap_err().message.contains("100,000-atom"));

    let key = scale_cohort(30 * 86_400_000_000).unwrap();
    assert_eq!(key.memory_space_id, "synthetic-space-v1");
    assert_eq!(key.cohort_day, 30);
    assert_eq!(key.as_of_us, 31 * 86_400_000_000);
    assert_eq!(
        scale_cohort(u64::MAX).unwrap_err().message,
        "scale STM expiry overflow"
    );
    assert_eq!(
        scale_cohort(u64::MAX - 100).unwrap_err().message,
        "scale retirement cohort boundary overflow"
    );

    let state = scale_state(5);
    assert_eq!(state.expires_at_us, Some(105));
    assert!(matches!(state.retention_tier, RetentionTier::ShortTerm));
    assert!(matches!(state.content_status, ContentStatus::Present));
    assert_eq!(scale_state(u64::MAX).expires_at_us, Some(u64::MAX));
}

#[test]
fn scale_sizes_follow_the_distribution() {
    for count in [100, 101, 5_000, 100_000] {
        let sizes: Vec<u64> = (0..count).map(|index| scale_target(index, count)).collect();
        let measured = measure_sizes(sizes).unwrap();
        assert_eq!(measured.p50_body_bytes, 16 * 1024);
        assert_eq!(measured.p95_body_bytes, 64 * 1024);
        assert_eq!(measured.maximum_body_bytes, 256 * 1024);
    }
}

#[test]
fn percentiles_index_ascending_lists() {
    assert_eq!(sort_numbers(vec![3, 1, 2, 1]), vec![1, 1, 2, 3]);
    assert_eq!(percentile(&[1, 2, 3, 4, 5], 50).unwrap(), 3);
    assert_eq!(percentile(&[1, 2, 3, 4, 5], 95).unwrap(), 4);
    assert_eq!(percentile(&[7], 95).unwrap(), 7);
    assert_eq!(percentile(&[], 50).unwrap_err().message, "empty percentile input");
    assert_eq!(
        percentile(&[1, 2], 200).unwrap_err().message,
        "percentile index is outside input"
    );
    assert!(measure_sizes(Vec::new()).is_err());
}

#[test]
fn scale_streams_remember_identities_and_sizes() {
    let stream = ScaleStream::new().push(b"domain", b"abc", 3).unwrap();
    assert_eq!(
        ScaleStream::new().push(b"domain", b"abc", 4).err().unwrap().message,
        "scale atom did not reach its exact target size"
    );
    let logical = stream.push(b"domain", b"de", 2).unwrap().finish();
    assert_eq!(logical.sizes, vec![3, 2]);
    assert_eq!(logical.logical_body_bytes, 5);
    let mut message = b"naome-memory:scale-atom-stream:v1\0".to_vec();
    message.extend_from_slice(&sha256(b"domainabc"));
    message.extend_from_slice(&3u64.to_be_bytes());
    message.extend_from_slice(&sha256(b"domainde"));
    message.extend_from_slice(&2u64.to_be_bytes());
    assert_eq!(logical.atom_stream_digest, digest_hex(&sha256(&message)));

    let full = ScaleStream {
        sizes: Vec::new(),
        logical_body_bytes: u64::MAX,
        transcript: ScaleStream::new().transcript,
    };
    assert_eq!(
        full.push(b"", b"a", 1).err().unwrap().message,
        "scale byte total overflow"
    );
    assert_eq!(scale_padding(10, 16).unwrap(), 6);
    assert_eq!(
        scale_padding(17, 16).unwrap_err().message,
        "scale atom framing exceeds target size"
    );
    let outcome = AtomBatchInsertOutcome { requested: 2, inserted: 2, already_present: 0 };
    check_scale_batch(&outcome, 2).unwrap();
    assert!(check_scale_batch(&outcome, 3).is_err());
}

fn whole_path() -> Vec<ScaleObservation> {
    vec![
        ScaleObservation::Persisted,
        ScaleObservation::Snapshot { atom_count: 100 },
        ScaleObservation::Planned { semantic_atoms: 1, episodic_winners: 1 },
        ScaleObservation::PlanReplayed { same_plan: true, same_digest: true },
        ScaleObservation::ReceiptVerified { verified_id: [1; 32], expected_id: [1; 32] },
        ScaleObservation::Applied { same_receipt: true },
        ScaleObservation::ApplyReplayed { same_receipt: true },
        ScaleObservation::Retrieved {
            hits: vec![RecallHit {
                recall_reason: RecallReason::QueryRanked,
                generality: Generality::Semantic,
            }],
            spontaneous: Some(vec![RecallHit {
                recall_reason: RecallReason::Spontaneous,
                generality: Generality::SingleEpisode,
            }]),
        },
        ScaleObservation::IntegrityChecked,
    ]
}

fn walk(trace: &[ScaleObservation]) -> Result<ScaleStep, String> {
    let mut step = ScaleStep::Persist;
    for seen in trace {
        step = advance_scale(step, 100, seen).map_err(|error| error.message)?;
    }
    Ok(step)
}

#[test]
fn scale_path_ends_in_publication() {
    assert_eq!(walk(&whole_path()).unwrap(), ScaleStep::Publish);
    for (place, bad, expected) in [
        (
            1,
            ScaleObservation::Snapshot { atom_count: 99 },
            "persisted cohort count differs from generated count",
        ),
        (
            2,
            ScaleObservation::Planned { semantic_atoms: 0, episodic_winners: 1 },
            "representative scale cohort produced no semantic atom",
        ),
        (
            2,
            ScaleObservation::Planned { semantic_atoms: 1, episodic_winners: 0 },
            "representative scale cohort produced no episodic winner",
        ),
        (
            3,
            ScaleObservation::PlanReplayed { same_plan: false, same_digest: true },
            "scale plan replay diverged",
        ),
        (
            3,
            ScaleObservation::PlanReplayed { same_plan: true, same_digest: false },
            "scale plan digest replay diverged",
        ),
        (
            4,
            ScaleObservation::ReceiptVerified { verified_id: [1; 32], expected_id: [2; 32] },
            "scale receipt verification returned a different receipt id",
        ),
        (
            5,
            ScaleObservation::Applied { same_receipt: false },
            "real SQLite apply produced a receipt different from the verified closure",
        ),
        (
            6,
            ScaleObservation::ApplyReplayed { same_receipt: false },
            "idempotent SQLite apply replay changed the receipt",
        ),
        (
            7,
            ScaleObservation::Retrieved { hits: Vec::new(), spontaneous: None },
            "scale retrieval produced no ordinary semantic hit",
        ),
        (
            7,
            ScaleObservation::Retrieved {
                hits: vec![RecallHit {
                    recall_reason: RecallReason::QueryRanked,
                    generality: Generality::Semantic,
                }],
                spontaneous: Some(Vec::new()),
            },
            "scale retrieval produced no explicit single-episode flashback",
        ),
        (8, ScaleObservation::Persisted, "scale observation does not belong to the step"),
    ] {
        let mut trace = whole_path();
        trace[place] = bad;
        assert_eq!(walk(&trace).unwrap_err(), expected);
    }
}

#[test]
fn release_refuses_a_shallow_or_unfinished_proof() {
    let (scale, scale_core) = scale_fixture();
    let tool = ToolReceiptV1 {
        contract_version: "mutation-receipt-v1".to_owned(),
        tool: String::new(),
        tool_version: String::new(),
        toolchain: String::new(),
        source_commit: String::new(),
        status: EvidenceStatusV1::Passed,
        targets: Vec::new(),
        note: String::new(),
        receipt_digest: String::new(),
    };
    let mut evidence = ReleaseEvidence {
        claims: ProofClaims {
            deep: false,
            passed: false,
            invariants: vec![ClaimEntry { name: "other".to_owned(), holds: true }],
            hypotheses: Vec::new(),
        },
        scale_encoded: encoded(&scale),
        scale_digests: digests(&scale),
        scale,
        scale_core_id: Ok(scale_core.receipt_id),
        scale_core,
        mutation: tool.clone(),
        mutation_encoded: Vec::new(),
        fuzz: tool,
        fuzz_encoded: Vec::new(),
        files: ByteMap::new(),
        retained: RetainedRoot::Absent,
        source_commit: "a".repeat(40),
    };
    assert_eq!(
        release_preflight(&evidence).unwrap_err().message,
        "release receipt is not deep profile"
    );
    evidence.claims.deep = true;
    assert_eq!(
        release_preflight(&evidence).unwrap_err().message,
        "release proof is not passed"
    );
    evidence.claims.passed = true;
    assert!(release_preflight(&evidence).unwrap_err().message.contains("invariant set"));
}
