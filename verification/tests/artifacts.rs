//! Content-addressed artifacts and their collection.

use naome_memory::artifact::{
    ArtifactDigest, ArtifactRecord, ArtifactStore, ArtifactStream, MAX_ARTIFACT_BYTES,
    ObservedPath, Publication, discovered_record, lowercase_hex_component, require_entry,
};
use naome_memory::artifact_rows::{ArtifactFileRow, artifact_record_from_row};
use naome_memory::bytemap::ByteSet;
use naome_memory::error::StoreError;
use naome_memory::gc::{
    CandidateRow, Collection, GcAction, GcDecision, begin_collection, decide,
    ensure_single_gc_change, find_orphans, gc_dry_run_entries, load_all_artifact_records,
    load_unreferenced_artifacts, order_records, settle, validate_discovered_artifact_metadata,
};
use naome_memory::links::register_artifact;

const DAY: u64 = 86_400_000_000;

fn store() -> ArtifactStore {
    ArtifactStore::open("/artifacts".to_owned())
}

fn file(bytes: &[u8]) -> ObservedPath {
    ObservedPath::File { byte_len: bytes.len() as u64, chunks: vec![bytes.to_vec()] }
}

fn row(record: &ArtifactRecord) -> ArtifactFileRow {
    ArtifactFileRow {
        artifact_digest: record.digest.0.to_vec(),
        byte_len: record.byte_len as i64,
        relative_path: record.relative_path.clone(),
    }
}

fn hash(record: &ArtifactRecord) -> String {
    record.digest.to_hex()
}

#[test]
fn round_trip_is_content_addressed_and_deduplicated() {
    let store = store();
    let first = store.ingest_bytes(b"stable bytes").unwrap();
    let second = store.ingest_bytes(b"stable bytes").unwrap();
    let chunked =
        store.ingest(&vec![b"stable".to_vec(), Vec::new(), b" bytes".to_vec()]).unwrap();
    for other in [&second, &chunked] {
        assert_eq!(first.digest.0, other.digest.0);
        assert_eq!(first.byte_len, other.byte_len);
        assert_eq!(first.relative_path, other.relative_path);
    }
    assert_eq!(first.byte_len, 12);
    let digest = hash(&first);
    assert_eq!(
        first.relative_path,
        format!("sha256/{}/{}/{digest}", &digest[..2], &digest[2..4])
    );
    assert!(matches!(
        store.publish(&first, &ObservedPath::Missing).unwrap(),
        Publication::Rename
    ));
    assert!(matches!(
        store.publish(&first, &file(b"stable bytes")).unwrap(),
        Publication::KeepExisting
    ));
    store.verify(&first, &file(b"stable bytes")).unwrap();
    assert_eq!(store.root(), "/artifacts");
}

#[test]
fn oversize_stream_fails_and_leaves_no_partial_file() {
    let mut stream = ArtifactStream::new();
    let chunk = vec![0u8; 8 * 1024 * 1024];
    for _ in 0..8 {
        stream = stream.absorb(&chunk).unwrap();
    }
    assert_eq!(MAX_ARTIFACT_BYTES, 64 * 1024 * 1024);
    match stream.absorb(b"x") {
        Err(StoreError::ArtifactTooLarge { actual }) => {
            assert_eq!(actual, 64 * 1024 * 1024 + 1);
        }
        _ => panic!("an oversize stream was accepted"),
    }
}

#[test]
fn tampering_is_detected() {
    let store = store();
    let record = store.ingest_bytes(b"original").unwrap();
    assert!(matches!(
        store.verify(&record, &file(b"tampered")),
        Err(StoreError::ArtifactDigestMismatch { .. })
    ));
    assert!(matches!(
        store.verify(&record, &ObservedPath::Missing),
        Err(StoreError::ArtifactMissing { .. })
    ));
    assert!(matches!(
        store.verify(&record, &ObservedPath::Irregular),
        Err(StoreError::ArtifactDigestMismatch { .. })
    ));
    let mut moved = store.ingest_bytes(b"original").unwrap();
    moved.relative_path = "sha256/../escape".to_owned();
    assert!(matches!(
        store.verify(&moved, &file(b"original")),
        Err(StoreError::InvalidArtifactPath(_))
    ));
    assert!(store.removal(&record, &file(b"original")).unwrap());
    assert!(!store.removal(&record, &ObservedPath::Missing).unwrap());
    assert!(matches!(
        store.removal(&record, &file(b"tampered")),
        Err(StoreError::ArtifactDigestMismatch { .. })
    ));
}

/// What discovery makes of the file of a record.
fn discovered(record: &ArtifactRecord) -> ArtifactRecord {
    let digest = hash(record);
    let first = lowercase_hex_component(&digest[..2], 2).unwrap();
    let second = lowercase_hex_component(&digest[2..4], 2).unwrap();
    let object = lowercase_hex_component(&digest, 64).unwrap();
    discovered_record(&first, &second, &object, &record.relative_path, record.byte_len).unwrap()
}

#[test]
fn finalized_objects_are_discovered_from_canonical_paths() {
    let second = store().ingest_bytes(b"second").unwrap();
    let first = store().ingest_bytes(b"first").unwrap();
    let found = order_records(vec![discovered(&second), discovered(&first)]);
    let mut expected = vec![first, second];
    expected.sort_unstable_by_key(|record| record.digest.0);
    assert_eq!(found.len(), expected.len());
    for (found, expected) in found.iter().zip(&expected) {
        assert_eq!(found.digest.0, expected.digest.0);
        assert_eq!(found.byte_len, expected.byte_len);
        assert_eq!(found.relative_path, expected.relative_path);
    }
}

#[test]
fn discovery_rejects_noncanonical_cas_entries() {
    assert!(matches!(
        lowercase_hex_component("unexpected", 2),
        Err(StoreError::InvalidArtifactPath(_))
    ));
    assert!(matches!(
        require_entry(false, "sha256/unexpected"),
        Err(StoreError::InvalidArtifactPath(_))
    ));
    for name in ["AB", "abc", "zz"] {
        assert!(matches!(
            lowercase_hex_component(name, 2),
            Err(StoreError::InvalidArtifactPath(_))
        ));
    }
    let digest = hash(&store().ingest_bytes(b"first").unwrap());
    assert!(matches!(
        discovered_record("00", "11", &digest, "sha256/00/11/x", 1),
        Err(StoreError::InvalidArtifactPath(_))
    ));
    require_entry(true, "sha256").unwrap();
}

#[test]
fn digests_have_thirty_two_bytes() {
    let digest = ArtifactDigest::from_slice(&[7; 32], "artifact_digest").unwrap();
    assert_eq!(digest.to_hex(), "07".repeat(32));
    match ArtifactDigest::from_slice(&[7; 31], "artifact_digest") {
        Err(error) => assert_eq!(
            error.to_text(),
            "invalid digest length for artifact_digest: expected 32 bytes, got 31"
        ),
        Ok(_) => panic!("a short digest was accepted"),
    }
}

#[test]
fn registered_artifacts_match_their_files() {
    let store = store();
    let record = store.ingest_bytes(b"registered").unwrap();
    register_artifact(&store, &record, 100, &file(b"registered"), &Some(row(&record))).unwrap();
    let mut other = row(&record);
    other.byte_len = 11;
    assert!(
        register_artifact(&store, &record, 100, &file(b"registered"), &Some(other)).is_err()
    );
    let mut negative = row(&record);
    negative.byte_len = -1;
    assert!(artifact_record_from_row(&negative).is_err());
}

fn collect(marked_at: Option<i64>, as_of_us: u64, changed: usize) -> GcAction {
    let decision = decide(false, marked_at, as_of_us, DAY).unwrap();
    settle(decision, changed).unwrap()
}

#[test]
fn artifact_gc_requires_grace_and_dry_run_does_not_mutate() {
    let record = store().ingest_bytes(b"garbage").unwrap();
    assert!(matches!(begin_collection(200, DAY - 1), Err(StoreError::InvalidInput(_))));
    assert_eq!(begin_collection(200, DAY).unwrap(), 200);
    let found = vec![store().ingest_bytes(b"garbage").unwrap()];
    let candidate = |marked_at: Option<i64>| vec![CandidateRow { row: row(&record), marked_at }];
    let dry = |marked_at: Option<i64>, as_of_us: u64| {
        gc_dry_run_entries(
            &vec![row(&record)],
            &candidate(marked_at),
            &found,
            as_of_us,
            DAY,
        )
        .unwrap()[0]
            .action
    };
    assert_eq!(dry(None, 200), GcAction::WouldMark);
    assert_eq!(collect(None, 200, 1), GcAction::Marked);
    assert_eq!(dry(Some(200), 200 + DAY - 1), GcAction::WaitingForGrace);
    assert_eq!(collect(Some(200), 200 + DAY - 1, 0), GcAction::WaitingForGrace);
    assert_eq!(dry(Some(200), 200 + DAY), GcAction::WouldDelete);
    assert_eq!(collect(Some(200), 200 + DAY, 1), GcAction::Deleted);
    assert!(store().removal(&record, &file(b"garbage")).unwrap());
    assert_eq!(collect(Some(200), 200 + DAY, 0), GcAction::WaitingForGrace);
    assert!(decide(false, Some(-1), 200, DAY).is_err());
}

#[test]
fn artifact_gc_adopts_and_collects_a_finalized_unregistered_orphan() {
    let found = vec![store().ingest_bytes(b"renamed before registration").unwrap()];
    let dry = gc_dry_run_entries(&Vec::new(), &Vec::new(), &found, 200, DAY).unwrap();
    assert_eq!(dry.len(), 1);
    assert_eq!(dry[0].digest.0, found[0].digest.0);
    assert_eq!(dry[0].byte_len, 27);
    assert_eq!(dry[0].action, GcAction::WouldMark);

    let persisted = load_all_artifact_records(&Vec::new()).unwrap();
    let orphans = find_orphans(&persisted, &found);
    assert_eq!(orphans.len(), 1);
    ensure_single_gc_change("orphan artifact recovery mark", 1).unwrap();
    match ensure_single_gc_change("orphan artifact recovery mark", 0) {
        Err(error) => assert!(
            error
                .to_text()
                .contains("orphan artifact recovery mark changed 0 rows; expected exactly one")
        ),
        Ok(()) => panic!("a lost mark was accepted"),
    }
    let fresh = decide(true, Some(200), 200, DAY).unwrap();
    assert_eq!(fresh, GcDecision::KeepNewMark);
    assert_eq!(settle(fresh, 0).unwrap(), GcAction::Marked);
    assert_eq!(collect(Some(200), 200 + DAY, 1), GcAction::Deleted);
}

#[test]
fn artifact_gc_recovers_when_unlink_preceded_sqlite_commit() {
    let record = store().ingest_bytes(b"interrupted sweep").unwrap();
    let decision = decide(false, Some(200), 200 + DAY, DAY).unwrap();
    assert_eq!(decision, GcDecision::Delete);
    assert!(!store().removal(&record, &ObservedPath::Missing).unwrap());
    assert_eq!(settle(decision, 1).unwrap(), GcAction::Deleted);
}

#[test]
fn collections_refuse_rows_that_disagree_with_files() {
    let record = store().ingest_bytes(b"kept").unwrap();
    let persisted = load_all_artifact_records(&vec![row(&record)]).unwrap();
    let mut longer = store().ingest_bytes(b"kept").unwrap();
    longer.byte_len = 5;
    assert!(validate_discovered_artifact_metadata(&persisted, &vec![longer]).is_err());
    assert!(load_all_artifact_records(&vec![row(&record), row(&record)]).is_err());
    let twice = vec![
        CandidateRow { row: row(&record), marked_at: None },
        CandidateRow { row: row(&record), marked_at: None },
    ];
    assert!(gc_dry_run_entries(&vec![row(&record)], &twice, &Vec::new(), 200, DAY).is_err());
    assert!(settle(GcDecision::Mark, 2).is_err());
}

#[test]
fn collections_report_what_came_of_each_artifact() {
    let kept: Vec<ArtifactRecord> = [&b"orphan"[..], b"unmarked", b"waiting", b"due", b"taken up"]
        .iter()
        .map(|bytes| store().ingest_bytes(bytes).unwrap())
        .collect();
    let marks = [Some(900), None, Some(900), Some(0), Some(0)];
    let rows: Vec<CandidateRow> = kept
        .iter()
        .zip(marks)
        .map(|(record, marked_at)| CandidateRow { row: row(record), marked_at })
        .collect();
    let mut newly_marked = ByteSet::new();
    newly_marked.insert(&kept[0].digest.0);
    let candidates = load_unreferenced_artifacts(&rows).unwrap();
    let mut collection = Collection::new(candidates, newly_marked, DAY, DAY);
    let mut decided = Vec::new();
    loop {
        let (digest, decision) = match collection.next_decision().unwrap() {
            Some((candidate, decision)) => (candidate.record.digest, decision),
            None => break,
        };
        // The row of the last artifact was taken up again before it could be deleted.
        let changed = match decision {
            GcDecision::KeepNewMark | GcDecision::Wait => 0,
            GcDecision::Mark => 1,
            GcDecision::Delete => usize::from(digest.0 == kept[3].digest.0),
        };
        if decision == GcDecision::Mark {
            let error = collection.take(2).unwrap_err();
            assert!(error.to_text().contains("artifact GC mark changed 2 rows"));
        }
        decided.push((digest.0, collection.take(changed).unwrap()));
    }
    let expected = [
        GcAction::Marked,
        GcAction::Marked,
        GcAction::WaitingForGrace,
        GcAction::Deleted,
        GcAction::WaitingForGrace,
    ];
    assert_eq!(collection.entries.len(), 5);
    for (record, action) in kept.iter().zip(expected) {
        let entry = collection
            .entries
            .iter()
            .find(|entry| entry.digest.0 == record.digest.0)
            .unwrap();
        assert_eq!((entry.byte_len, entry.action), (record.byte_len, action));
    }
    let reported: Vec<([u8; 32], GcAction)> =
        collection.entries.iter().map(|entry| (entry.digest.0, entry.action)).collect();
    assert_eq!(reported, decided);
    assert!(reported.windows(2).all(|pair| pair[0].0 < pair[1].0));

    let broken = vec![CandidateRow { row: row(&kept[0]), marked_at: Some(-1) }];
    let candidates = load_unreferenced_artifacts(&broken).unwrap();
    let mut collection = Collection::new(candidates, ByteSet::new(), DAY, DAY);
    assert!(collection.next_decision().is_err());
    assert!(collection.take(0).is_err());
    assert!(collection.entries.is_empty());
}
