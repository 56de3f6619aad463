//! Receipts of mutation and fuzz campaigns.

use naome_memory::bytemap::ByteMap;
use naome_memory::campaigns::{
    CrashEntry, ProcessOutcome, capture_tool_target, check_fuzz_duration, check_log_stem,
    fuzz_receipt, mutation_receipt, preserve_fuzz_artifacts, require_passed_tool_receipt,
    stale_fuzz_files, stale_mutation_files, stale_scale_files, verify_fuzz_receipt,
    verify_fuzz_receipt_evidence, verify_mutation_receipt, verify_tool_receipt,
};
use naome_memory::evidence::{
    EvidenceStatusV1, FUZZ_NIGHTLY, FUZZ_RECEIPT_FILE, MUTATION_LOG_STEM, MUTATION_RECEIPT_FILE,
    SCALE_CORE_RECEIPT_FILE, SCALE_RECEIPT_FILE, fuzz_target_command, fuzz_targets,
    mutation_target_command, sha256_hex,
};
use naome_memory::tool_receipts::{
    ProofFile, ProofFiles, RetainedFile, RetainedRoot, RetainedTarget, ToolArtifactEvidenceV1,
    ToolReceiptV1, ToolTargetEvidenceV1, retained_fuzz_artifact_paths, tool_receipt_digest,
};

fn file(bytes: &[u8]) -> ProofFile {
    ProofFile {
        is_file: true,
        is_symlink: false,
        byte_len: bytes.len() as u64,
        content: Ok(bytes.to_vec()),
    }
}

fn write(files: &mut ProofFiles, path: &str, bytes: &[u8]) {
    files.insert(path.as_bytes().to_vec(), file(bytes));
}

fn encoded(receipt: &ToolReceiptV1) -> Vec<u8> {
    let mut authority = receipt.clone();
    authority.receipt_digest = String::new();
    format!("{authority:?}").into_bytes()
}

fn close(receipt: &mut ToolReceiptV1) {
    receipt.receipt_digest = tool_receipt_digest(&encoded(receipt));
}

fn fuzz_fixture(files: &mut ProofFiles, failing: Option<&str>) -> ToolReceiptV1 {
    let mut targets = Vec::new();
    for (target, log_stem) in fuzz_targets() {
        let stdout = format!("{target} stdout").into_bytes();
        let stderr = format!("{target} stderr").into_bytes();
        write(files, &format!("tool-logs/{log_stem}.stdout.log"), &stdout);
        write(files, &format!("tool-logs/{log_stem}.stderr.log"), &stderr);
        targets.push(ToolTargetEvidenceV1 {
            target: target.to_owned(),
            command: fuzz_target_command(target, 120),
            requested_duration_seconds: Some(120),
            observed_duration_millis: 1,
            exit_code: Some(if failing == Some(target) { 77 } else { 0 }),
            log_stem: log_stem.to_owned(),
            stdout_digest: sha256_hex(&stdout),
            stderr_digest: sha256_hex(&stderr),
            artifacts: Vec::new(),
        });
    }
    let mut receipt = ToolReceiptV1 {
        contract_version: "fuzz-receipt-v1".to_owned(),
        tool: "cargo-fuzz/libFuzzer".to_owned(),
        tool_version: "cargo-fuzz 0.13.2".to_owned(),
        toolchain: FUZZ_NIGHTLY.to_owned(),
        source_commit: "a".repeat(40),
        status: if failing.is_some() {
            EvidenceStatusV1::Failed
        } else {
            EvidenceStatusV1::Passed
        },
        targets,
        note: "Each of four fuzz targets requested 120 seconds.".to_owned(),
        receipt_digest: String::new(),
    };
    close(&mut receipt);
    receipt
}

fn mutation_fixture() -> ToolReceiptV1 {
    let empty_digest = sha256_hex(&[]);
    let mut receipt = ToolReceiptV1 {
        contract_version: "mutation-receipt-v1".to_owned(),
        tool: "cargo-mutants".to_owned(),
        tool_version: "cargo-mutants 27.1.0".to_owned(),
        toolchain: "1.95.0".to_owned(),
        source_commit: "a".repeat(40),
        status: EvidenceStatusV1::Passed,
        targets: vec![ToolTargetEvidenceV1 {
            target: "naome-memory-core".to_owned(),
            command: mutation_target_command("1.95.0"),
            requested_duration_seconds: None,
            observed_duration_millis: 1,
            exit_code: Some(0),
            log_stem: "mutation-naome-memory-core".to_owned(),
            stdout_digest: empty_digest.clone(),
            stderr_digest: empty_digest,
            artifacts: Vec::new(),
        }],
        note: "Mutation evidence covers the decision core and receipt verifier.".to_owned(),
        receipt_digest: String::new(),
    };
    close(&mut receipt);
    receipt
}

#[test]
fn fuzz_receipt_binds_the_exact_supported_command_and_all_logs() {
    let mut files: ProofFiles = ByteMap::new();
    let commit = "a".repeat(40);
    let mut receipt = fuzz_fixture(&mut files, None);
    let root = RetainedRoot::Absent;
    verify_fuzz_receipt(&receipt, &encoded(&receipt), &files, &root, &commit).unwrap();
    verify_tool_receipt(&receipt, &encoded(&receipt), &files, &root, &commit).unwrap();

    receipt.targets[0].command.insert(5, "--locked".to_owned());
    close(&mut receipt);
    let error =
        verify_fuzz_receipt(&receipt, &encoded(&receipt), &files, &root, &commit).unwrap_err();
    assert!(error.message.contains("target or command"));
}

#[test]
fn fuzz_receipt_binds_zero_byte_crash_artifacts_and_exact_directory_closure() {
    let mut files: ProofFiles = ByteMap::new();
    let commit = "a".repeat(40);
    let crash = CrashEntry {
        name: b"crash-empty".to_vec(),
        text: Some("crash-empty".to_owned()),
        is_file: true,
        bytes: Vec::new(),
    };
    let artifacts = preserve_fuzz_artifacts(vec![crash], "sqlite_ingest").unwrap();
    assert_eq!(
        artifacts,
        vec![ToolArtifactEvidenceV1 {
            relative_path: "fuzz-artifacts/sqlite_ingest/crash-empty".to_owned(),
            byte_len: 0,
            sha256: sha256_hex(&[]),
        }]
    );

    let mut receipt = fuzz_fixture(&mut files, Some("sqlite_ingest"));
    receipt.targets[3].artifacts = artifacts;
    close(&mut receipt);
    write(&mut files, "fuzz-artifacts/sqlite_ingest/crash-empty", &[]);
    let kept = RetainedFile {
        is_file: true,
        name: Some("crash-empty".to_owned()),
        byte_len: 0,
    };
    let directory = |names: Vec<RetainedFile>| {
        RetainedRoot::Directory(vec![RetainedTarget {
            is_dir: true,
            name: Some("sqlite_ingest".to_owned()),
            files: names,
        }])
    };
    let root = directory(vec![kept.clone()]);
    let bytes = encoded(&receipt);
    verify_fuzz_receipt_evidence(&receipt, &bytes, &files, &root, &commit).unwrap();
    let release_error =
        verify_fuzz_receipt(&receipt, &bytes, &files, &root, &commit).unwrap_err();
    assert!(release_error.message.contains("did not pass"));

    write(&mut files, "fuzz-artifacts/sqlite_ingest/crash-empty", b"tampered");
    assert!(verify_fuzz_receipt_evidence(&receipt, &bytes, &files, &root, &commit).is_err());
    write(&mut files, "fuzz-artifacts/sqlite_ingest/crash-empty", &[]);
    let unbound = RetainedFile {
        is_file: true,
        name: Some("crash-unbound".to_owned()),
        byte_len: 7,
    };
    let mut twice = receipt.clone();
    let again = twice.targets[3].artifacts[0].clone();
    twice.targets[3].artifacts.push(again);
    close(&mut twice);
    let error = verify_fuzz_receipt_evidence(&twice, &encoded(&twice), &files, &root, &commit)
        .unwrap_err();
    assert!(error.message.contains("duplicate fuzz artifact evidence"));
    let error = verify_fuzz_receipt_evidence(
        &receipt,
        &bytes,
        &files,
        &directory(vec![kept, unbound]),
        &commit,
    )
    .unwrap_err();
    assert!(error.message.contains("exactly match"));

    let error = verify_fuzz_receipt_evidence(
        &receipt,
        &bytes,
        &files,
        &RetainedRoot::NotADirectory,
        &commit,
    )
    .unwrap_err();
    assert!(error.message.contains("self-contained directory"));
}

#[test]
fn rehashed_tool_receipt_without_bound_logs_is_rejected() {
    let files: ProofFiles = ByteMap::new();
    let commit = "a".repeat(40);
    let receipt = mutation_fixture();
    let error =
        verify_mutation_receipt(&receipt, &encoded(&receipt), &files, &commit).unwrap_err();
    assert!(error.message.contains("No such file"));
}

#[test]
fn mutation_receipt_binds_its_logs_and_its_command() {
    let mut files: ProofFiles = ByteMap::new();
    let commit = "a".repeat(40);
    let mut receipt = mutation_fixture();
    write(&mut files, "tool-logs/mutation-naome-memory-core.stdout.log", b"out");
    write(&mut files, "tool-logs/mutation-naome-memory-core.stderr.log", b"");
    let error =
        verify_mutation_receipt(&receipt, &encoded(&receipt), &files, &commit).unwrap_err();
    assert_eq!(error.message, "tool target output digest does not match its retained log");

    receipt.targets[0].stdout_digest = sha256_hex(b"out");
    close(&mut receipt);
    let bytes = encoded(&receipt);
    verify_mutation_receipt(&receipt, &bytes, &files, &commit).unwrap();
    verify_tool_receipt(&receipt, &bytes, &files, &RetainedRoot::Absent, &commit).unwrap();
    assert!(verify_mutation_receipt(&receipt, &bytes, &files, &"b".repeat(40)).is_err());
    assert!(verify_mutation_receipt(&receipt, b"other", &files, &commit).is_err());

    let mut slow = receipt.clone();
    slow.targets[0].command[6] = "240".to_owned();
    close(&mut slow);
    let error = verify_mutation_receipt(&slow, &encoded(&slow), &files, &commit).unwrap_err();
    assert_eq!(error.message, "mutation receipt target or command differs from the release gate");

    let mut instant = receipt.clone();
    instant.targets[0].observed_duration_millis = 0;
    close(&mut instant);
    let error =
        verify_mutation_receipt(&instant, &encoded(&instant), &files, &commit).unwrap_err();
    assert!(error.message.contains("did not pass"));
    assert!(require_passed_tool_receipt(&receipt).is_ok());

    let mut unknown = receipt;
    unknown.contract_version = "other".to_owned();
    let error = verify_tool_receipt(
        &unknown,
        &encoded(&unknown),
        &files,
        &RetainedRoot::Absent,
        &commit,
    )
    .unwrap_err();
    assert_eq!(error.message, "unknown tool receipt contract version");

    write(&mut files, "tool-logs/mutation-naome-memory-core.stdout.log", b"");
    let mut silent = mutation_fixture();
    close(&mut silent);
    let error =
        verify_mutation_receipt(&silent, &encoded(&silent), &files, &commit).unwrap_err();
    assert_eq!(error.message, "tool target retained no process output");
}

#[test]
fn artifact_evidence_is_bounded() {
    let commit = "a".repeat(40);
    let cases: [(&str, u64, &[u8], &str); 4] = [
        ("../escape", 3, b"abc", "path or size is outside"),
        ("fuzz-artifacts/decoder/crash-a", 1_048_577, b"abc", "path or size is outside"),
        ("fuzz-artifacts/decoder/crash-a", 4, b"abc", "self-contained file"),
        ("fuzz-artifacts/decoder/crash-b", 3, b"abd", "digest or size does not match"),
    ];
    for (path, byte_len, content, expected) in cases {
        let mut files: ProofFiles = ByteMap::new();
        let mut receipt = fuzz_fixture(&mut files, Some("decoder"));
        receipt.targets[0].artifacts.push(ToolArtifactEvidenceV1 {
            relative_path: path.to_owned(),
            byte_len,
            sha256: sha256_hex(b"abc"),
        });
        close(&mut receipt);
        write(&mut files, path, content);
        let error = verify_fuzz_receipt_evidence(
            &receipt,
            &encoded(&receipt),
            &files,
            &RetainedRoot::Absent,
            &commit,
        )
        .unwrap_err();
        assert!(error.message.contains(expected), "{}", error.message);
    }
}

#[test]
fn fuzz_artifacts_belong_to_their_target_once() {
    let commit = "a".repeat(40);
    let artifact = |path: &str| ToolArtifactEvidenceV1 {
        relative_path: path.to_owned(),
        byte_len: 3,
        sha256: sha256_hex(b"abc"),
    };
    for (paths, expected) in [
        (vec!["fuzz-artifacts/canonical/crash-a"], "not bound to its producing target"),
        (vec!["fuzz-artifacts/decoder/.crash"], "not bound to its producing target"),
        (
            vec!["fuzz-artifacts/decoder/crash-a", "fuzz-artifacts/decoder/crash-a"],
            "duplicate fuzz artifact evidence",
        ),
    ] {
        let mut files: ProofFiles = ByteMap::new();
        let mut receipt = fuzz_fixture(&mut files, Some("decoder"));
        for path in paths {
            receipt.targets[0].artifacts.push(artifact(path));
            write(&mut files, path, b"abc");
        }
        close(&mut receipt);
        let error = verify_fuzz_receipt_evidence(
            &receipt,
            &encoded(&receipt),
            &files,
            &RetainedRoot::Absent,
            &commit,
        )
        .unwrap_err();
        assert!(error.message.contains(expected), "{}", error.message);
    }
}

#[test]
fn retained_artifacts_are_listed_and_bounded() {
    let listed = |target: RetainedTarget| {
        retained_fuzz_artifact_paths(&RetainedRoot::Directory(vec![target]))
    };
    let plain = |name: &str| RetainedFile {
        is_file: true,
        name: Some(name.to_owned()),
        byte_len: 1,
    };
    let target = |files: Vec<RetainedFile>| RetainedTarget {
        is_dir: true,
        name: Some("decoder".to_owned()),
        files,
    };
    let paths = listed(target(vec![plain("crash-b"), plain("crash-a")])).unwrap();
    assert_eq!(paths.len(), 2);
    assert_eq!(paths.member_at(0).as_slice(), b"fuzz-artifacts/decoder/crash-a");
    assert_eq!(retained_fuzz_artifact_paths(&RetainedRoot::Absent).unwrap().len(), 0);

    let mut not_a_directory = target(Vec::new());
    not_a_directory.is_dir = false;
    let mut unnamed = target(Vec::new());
    unnamed.name = None;
    let mut unknown = target(Vec::new());
    unknown.name = Some("other".to_owned());
    let mut link = plain("crash-a");
    link.is_file = false;
    let mut nameless = plain("crash-a");
    nameless.name = None;
    let mut large = plain("crash-a");
    large.byte_len = 1_048_577;
    let many: Vec<RetainedFile> = (0..17).map(|i| plain(&format!("crash-{i}"))).collect();
    for (bad, expected) in [
        (not_a_directory, "fuzz artifact root contains a non-directory entry"),
        (unnamed, "fuzz artifact target is not UTF-8"),
        (unknown, "fuzz artifact belongs to an unknown target"),
        (target(vec![link]), "fuzz artifact target contains a non-file entry"),
        (target(vec![nameless]), "fuzz artifact name is not UTF-8"),
        (target(vec![plain(".hidden")]), "fuzz artifact name is unsafe"),
        (target(vec![large]), "fuzz artifact exceeds the bounded evidence limit"),
        (target(many), "fuzz target retained too many crash artifacts"),
        (
            target(vec![plain("crash-a"), plain("crash-a")]),
            "duplicate fuzz artifact path",
        ),
    ] {
        assert_eq!(listed(bad).err().unwrap().message, expected);
    }
}

#[test]
fn crash_inputs_are_preserved_in_order() {
    let entry = |name: &str, bytes: &[u8]| CrashEntry {
        name: name.as_bytes().to_vec(),
        text: Some(name.to_owned()),
        is_file: true,
        bytes: bytes.to_vec(),
    };
    let kept =
        preserve_fuzz_artifacts(vec![entry("oom-2", b"two"), entry("crash-1", b"one")], "decoder")
            .unwrap();
    assert_eq!(kept[0].relative_path, "fuzz-artifacts/decoder/crash-1");
    assert_eq!(kept[0].sha256, sha256_hex(b"one"));
    assert_eq!(kept[1].relative_path, "fuzz-artifacts/decoder/oom-2");
    assert_eq!(kept[1].byte_len, 3);
    assert!(preserve_fuzz_artifacts(Vec::new(), "decoder").unwrap().is_empty());

    let mut link = entry("crash-1", b"");
    link.is_file = false;
    let mut nameless = entry("crash-1", b"");
    nameless.text = None;
    let large = entry("crash-1", &vec![0; 1_048_577]);
    let many: Vec<CrashEntry> = (0..17).map(|i| entry(&format!("crash-{i}"), b"")).collect();
    for (bad, expected) in [
        (vec![link], "fuzz crash artifact is not a regular file"),
        (vec![nameless], "fuzz crash artifact name is not UTF-8"),
        (vec![entry("-crash", b"")], "unsafe fuzz crash artifact name"),
        (vec![large], "fuzz crash artifact exceeds the bounded evidence limit"),
        (many, "fuzz target produced too many crash artifacts"),
    ] {
        assert_eq!(preserve_fuzz_artifacts(bad, "decoder").unwrap_err().message, expected);
    }
}

#[test]
fn campaigns_write_their_receipts() {
    check_log_stem(MUTATION_LOG_STEM).unwrap();
    assert_eq!(check_log_stem("a/b").unwrap_err().message, "unsafe tool log stem");
    check_fuzz_duration(1).unwrap();
    assert_eq!(
        check_fuzz_duration(0).unwrap_err().message,
        "fuzz duration must be greater than zero"
    );
    let outcome = ProcessOutcome {
        observed_duration_millis: 5,
        exit_code: Some(0),
        stdout: b"out".to_vec(),
        stderr: b"err".to_vec(),
    };
    let target = capture_tool_target(
        MUTATION_LOG_STEM,
        "naome-memory-core",
        mutation_target_command("1.95.0"),
        None,
        &outcome,
    )
    .unwrap();
    assert_eq!(target.stdout_digest, sha256_hex(b"out"));
    assert_eq!(target.stderr_digest, sha256_hex(b"err"));
    let commit = "c".repeat(40);
    let receipt =
        mutation_receipt("cargo-mutants 27.1.0".to_owned(), target.clone(), Some(commit.clone()));
    assert_eq!(receipt.status, EvidenceStatusV1::Passed);
    assert_eq!(receipt.source_commit, commit);
    let unbound = mutation_receipt("cargo-mutants 27.1.0".to_owned(), target.clone(), None);
    assert_eq!(unbound.status, EvidenceStatusV1::Inconclusive);
    assert_eq!(unbound.source_commit, "uncommitted");
    let old = mutation_receipt("cargo-mutants 26.0.0".to_owned(), target, Some(commit.clone()));
    assert_eq!(old.status, EvidenceStatusV1::Inconclusive);
    let fuzz = fuzz_receipt("cargo-fuzz 0.13.2".to_owned(), Vec::new(), 120, Some(commit));
    assert_eq!(fuzz.status, EvidenceStatusV1::Inconclusive);
    assert_eq!(fuzz.note, "Each of four fuzz targets requested 120 seconds.");
    assert_eq!(fuzz.toolchain, FUZZ_NIGHTLY);
}

#[test]
fn stale_evidence_is_named_completely() {
    assert_eq!(
        stale_scale_files(),
        vec![SCALE_CORE_RECEIPT_FILE.to_owned(), SCALE_RECEIPT_FILE.to_owned()]
    );
    assert_eq!(
        stale_mutation_files(),
        vec![
            MUTATION_RECEIPT_FILE.to_owned(),
            format!("tool-logs/{MUTATION_LOG_STEM}.stdout.log"),
            format!("tool-logs/{MUTATION_LOG_STEM}.stderr.log"),
        ]
    );
    let mut expected = vec![FUZZ_RECEIPT_FILE.to_owned()];
    for (_, log_stem) in fuzz_targets() {
        expected.push(format!("tool-logs/{log_stem}.stdout.log"));
        expected.push(format!("tool-logs/{log_stem}.stderr.log"));
    }
    assert_eq!(stale_fuzz_files(), expected);
}
