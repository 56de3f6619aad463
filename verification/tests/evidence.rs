//! Statuses, names, commands and the measurements of a run.

use naome_memory::evidence::{
    DEEP_SCALE_ATOM_COUNT, EvidenceStatusV1, FUZZ_NIGHTLY, SCALE_MAX_DISK_BYTES,
    SCALE_MAX_RSS_BYTES, SCALE_MAX_WALL_MILLIS, bound_clean_source_commit,
    classify_scale_evidence, fuzz_target_command, fuzz_targets, hash_prefixed_hex,
    mutation_target_command, safe_artifact_file_name, safe_log_stem, safe_proof_relative_path,
    sha256_hex, valid_git_commit,
};
use naome_memory::fixtures::{fixture_cohort, schema_binding};
use naome_memory::measurements::{
    directory_bytes, reported_peak, rss_from_ps, rss_from_status,
};
use naome_memory::release::{
    ClaimEntry, ProofClaims, ReplayStep, assert_claims, check_crash_attachment, check_manifest_copy,
    check_repetition, check_repetitions, check_version_given, check_workspace_version,
    check_worktree, ensure_required_claims, judge_version, next_replay_step,
};
use naome_memory::tool_receipts::{
    ToolTargetEvidenceV1, classify_tool_evidence, contains_part,
};

#[test]
fn source_binding_requires_the_same_clean_full_commit() {
    let first = "a".repeat(40);
    let second = "b".repeat(40);
    assert_eq!(
        bound_clean_source_commit(Some(first.as_str()), Some(first.as_str())),
        Some(first.clone())
    );
    assert_eq!(
        bound_clean_source_commit(Some(first.as_str()), Some(second.as_str())),
        None
    );
    assert_eq!(bound_clean_source_commit(Some(first.as_str()), None), None);
    assert_eq!(bound_clean_source_commit(None, Some(first.as_str())), None);
    assert_eq!(
        bound_clean_source_commit(Some("uncommitted"), Some("uncommitted")),
        None
    );
}

#[test]
fn deep_scale_status_distinguishes_pass_failure_and_missing_evidence() {
    assert_eq!(
        classify_scale_evidence(
            DEEP_SCALE_ATOM_COUNT,
            true,
            SCALE_MAX_WALL_MILLIS,
            Some(SCALE_MAX_RSS_BYTES),
            Some(SCALE_MAX_DISK_BYTES),
            true,
        ),
        EvidenceStatusV1::Passed
    );
    assert_eq!(
        classify_scale_evidence(
            DEEP_SCALE_ATOM_COUNT,
            true,
            SCALE_MAX_WALL_MILLIS,
            None,
            Some(SCALE_MAX_DISK_BYTES),
            true,
        ),
        EvidenceStatusV1::Inconclusive
    );
    assert_eq!(
        classify_scale_evidence(
            DEEP_SCALE_ATOM_COUNT,
            true,
            SCALE_MAX_WALL_MILLIS,
            Some(SCALE_MAX_RSS_BYTES),
            None,
            true,
        ),
        EvidenceStatusV1::Inconclusive
    );

    for (wall, rss, disk, distribution_matches) in [
        (
            SCALE_MAX_WALL_MILLIS + 1,
            Some(SCALE_MAX_RSS_BYTES),
            Some(SCALE_MAX_DISK_BYTES),
            true,
        ),
        (
            SCALE_MAX_WALL_MILLIS,
            Some(SCALE_MAX_RSS_BYTES + 1),
            Some(SCALE_MAX_DISK_BYTES),
            true,
        ),
        (
            SCALE_MAX_WALL_MILLIS,
            Some(SCALE_MAX_RSS_BYTES),
            Some(SCALE_MAX_DISK_BYTES + 1),
            true,
        ),
        (
            SCALE_MAX_WALL_MILLIS,
            Some(SCALE_MAX_RSS_BYTES),
            Some(SCALE_MAX_DISK_BYTES),
            false,
        ),
        (SCALE_MAX_WALL_MILLIS + 1, None, None, true),
    ] {
        assert_eq!(
            classify_scale_evidence(
                DEEP_SCALE_ATOM_COUNT,
                distribution_matches,
                wall,
                rss,
                disk,
                true,
            ),
            EvidenceStatusV1::Failed
        );
    }

    assert_eq!(
        classify_scale_evidence(5_000, true, SCALE_MAX_WALL_MILLIS, None, None, false),
        EvidenceStatusV1::Passed
    );
    assert_eq!(
        classify_scale_evidence(
            DEEP_SCALE_ATOM_COUNT,
            true,
            SCALE_MAX_WALL_MILLIS,
            Some(SCALE_MAX_RSS_BYTES),
            Some(SCALE_MAX_DISK_BYTES),
            false,
        ),
        EvidenceStatusV1::Inconclusive
    );
}

#[test]
fn fuzz_commands_and_log_stems_match_the_pinned_cli_contract() {
    for (target, log_stem) in fuzz_targets() {
        assert_eq!(
            fuzz_target_command(target, 120),
            vec![
                "cargo".to_owned(),
                format!("+{FUZZ_NIGHTLY}"),
                "fuzz".to_owned(),
                "run".to_owned(),
                target.to_owned(),
                "--".to_owned(),
                "-max_total_time=120".to_owned(),
            ]
        );
        assert!(safe_log_stem(log_stem));
    }
    for unsafe_stem in ["", ".", "../fuzz", "fuzz/log", "fuzz_receipt"] {
        assert!(!safe_log_stem(unsafe_stem));
    }
    for safe_artifact in ["crash-a", "oom-123", "slow.unit"] {
        assert!(safe_artifact_file_name(safe_artifact));
    }
    for unsafe_artifact in ["", ".", "..", ".crash-a", "crash/a", "crash\\a"] {
        assert!(!safe_artifact_file_name(unsafe_artifact));
    }
}

#[test]
fn tool_evidence_distinguishes_execution_failure_from_missing_closure() {
    let mut target = ToolTargetEvidenceV1 {
        target: "target".to_owned(),
        command: vec!["tool".to_owned()],
        requested_duration_seconds: None,
        observed_duration_millis: 1,
        exit_code: Some(0),
        log_stem: "tool-target".to_owned(),
        stdout_digest: sha256_hex(&[]),
        stderr_digest: sha256_hex(&[]),
        artifacts: Vec::new(),
    };
    assert_eq!(
        classify_tool_evidence(std::slice::from_ref(&target), 1, true, true),
        EvidenceStatusV1::Passed
    );
    assert_eq!(
        classify_tool_evidence(std::slice::from_ref(&target), 1, false, true),
        EvidenceStatusV1::Inconclusive
    );
    assert_eq!(
        classify_tool_evidence(std::slice::from_ref(&target), 1, true, false),
        EvidenceStatusV1::Inconclusive
    );
    assert_eq!(
        classify_tool_evidence(&[], 1, true, true),
        EvidenceStatusV1::Inconclusive
    );
    target.exit_code = None;
    assert_eq!(
        classify_tool_evidence(std::slice::from_ref(&target), 1, true, true),
        EvidenceStatusV1::Inconclusive
    );
    target.exit_code = Some(2);
    assert_eq!(
        classify_tool_evidence(std::slice::from_ref(&target), 1, false, false),
        EvidenceStatusV1::Failed
    );
}

#[test]
fn mutation_command_routes_tool_output_under_ignored_proof_storage() {
    assert_eq!(
        mutation_target_command("1.95.0"),
        vec![
            "cargo".to_owned(),
            "+1.95.0".to_owned(),
            "mutants".to_owned(),
            "--package".to_owned(),
            "naome-memory-core".to_owned(),
            "--timeout".to_owned(),
            "120".to_owned(),
            "--output".to_owned(),
            "target/proofs/mutation-tool".to_owned(),
        ]
    );
}

#[test]
fn git_commits_are_forty_lowercase_digits() {
    assert!(valid_git_commit(&"0123456789abcdef0123".repeat(2)));
    assert!(!valid_git_commit(&"a".repeat(39)));
    assert!(!valid_git_commit(&"a".repeat(41)));
    assert!(!valid_git_commit(&"A".repeat(40)));
    assert!(!valid_git_commit(&"\u{e4}".repeat(40)));
}

#[test]
fn relative_paths_stay_below_their_directory() {
    for path in ["a", "fuzz-artifacts/decoder/crash-a", "a/./b", "a//b", "a/", "a/...", "..a"] {
        assert!(safe_proof_relative_path(path), "{path}");
    }
    for path in ["", "/a", ".", "./a", "..", "../a", "a/../b", "a/..", "a\\b"] {
        assert!(!safe_proof_relative_path(path), "{path}");
    }
}

#[test]
fn prefixed_digests_hash_the_domain_first() {
    assert_eq!(
        sha256_hex(b""),
        "e3b0c44298fc1c149afbf4c8996fb92427ae41e4649b934ca495991b7852b855"
    );
    assert_eq!(
        sha256_hex(b"abc"),
        "ba7816bf8f01cfea414140de5dae2223b00361a396177a9cb410ff61f20015ad"
    );
    assert_eq!(hash_prefixed_hex("a", b"bc"), sha256_hex(b"abc"));
}

#[test]
fn parts_of_texts_are_found() {
    assert!(contains_part("cargo-fuzz 0.13.2", "0.13.2"));
    assert!(contains_part("0.13.2", "0.13.2"));
    assert!(contains_part("abc", ""));
    assert!(!contains_part("0.13", "0.13.2"));
    assert!(!contains_part("0.13.12", "0.13.2"));
}

#[test]
fn memory_is_read_from_both_sources() {
    let status = "Name:\tnaome\nVmPeak:\t 9 kB\nVmRSS:\t  2048 kB\nVmRSS: 1 kB\n";
    assert_eq!(rss_from_status(status), Some(2_097_152));
    assert_eq!(rss_from_status("VmRSS: many\r\nVmRSS: +3\r\n"), Some(3_072));
    assert_eq!(rss_from_status("Name: VmRSS: 3 kB\n"), None);
    assert_eq!(rss_from_status("VmRSS:"), None);
    assert_eq!(rss_from_status(""), None);
    assert_eq!(rss_from_status("VmRSS: 18446744073709551615 kB"), None);
    assert_eq!(rss_from_ps("  12\n"), Some(12_288));
    assert_eq!(rss_from_ps("\u{2003}12\u{2003}"), Some(12_288));
    assert_eq!(rss_from_ps("18446744073709551616"), None);
    assert_eq!(rss_from_ps("-1"), None);
    assert_eq!(rss_from_ps("+"), None);
    assert_eq!(reported_peak(0), None);
    assert_eq!(reported_peak(7), Some(7));
}

#[test]
fn directory_sizes_are_summed_without_overflow() {
    assert_eq!(directory_bytes(&vec![1, 2, 3]).unwrap(), 6);
    assert_eq!(directory_bytes(&Vec::new()).unwrap(), 0);
    assert_eq!(
        directory_bytes(&vec![u64::MAX, 1]).unwrap_err().message,
        "directory byte count overflow"
    );
}

fn claims(names: &[&str]) -> Vec<ClaimEntry> {
    names
        .iter()
        .map(|name| ClaimEntry { name: (*name).to_owned(), holds: true })
        .collect()
}

fn deep_claims() -> ProofClaims {
    ProofClaims {
        deep: true,
        passed: true,
        invariants: claims(&[
            "apply_atomic_and_idempotent",
            "budgets_respected",
            "deterministic_replay",
            "episode_generality_preserved",
            "episodic_exactness",
            "golden_four_fates",
            "memory_space_isolation",
            "receipt_closure",
            "sealed_atom_immutability",
            "semantic_provenance",
            "separate_flashback_channel",
            "tamper_fail_closed",
        ]),
        hypotheses: claims(&[
            "episodic_rare_recovery",
            "ordinary_utility_preserved",
            "semantic_utility",
        ]),
    }
}

#[test]
fn release_claims_are_exactly_the_required_ones() {
    ensure_required_claims(&deep_claims()).unwrap();
    assert_claims(&deep_claims()).unwrap();

    let mut shallow = deep_claims();
    shallow.deep = false;
    assert!(assert_claims(&shallow).unwrap_err().message.contains("not all supported"));

    let mut missing = deep_claims();
    missing.invariants.pop();
    assert_eq!(
        ensure_required_claims(&missing).unwrap_err().message,
        "release invariant set is incomplete or unexpected"
    );
    let mut unexpected = deep_claims();
    unexpected.invariants.push(ClaimEntry { name: "more".to_owned(), holds: true });
    assert_eq!(
        ensure_required_claims(&unexpected).unwrap_err().message,
        "release invariant set is incomplete or unexpected"
    );
    let mut unverified = deep_claims();
    unverified.invariants[3].holds = false;
    assert_eq!(
        ensure_required_claims(&unverified).unwrap_err().message,
        "not every release invariant is verified"
    );
    let mut untested = deep_claims();
    untested.hypotheses.remove(0);
    assert_eq!(
        ensure_required_claims(&untested).unwrap_err().message,
        "release hypothesis set is incomplete or unexpected"
    );
    let mut unsupported = deep_claims();
    unsupported.hypotheses[2].holds = false;
    assert_eq!(
        ensure_required_claims(&unsupported).unwrap_err().message,
        "not every release hypothesis is supported"
    );
}

#[test]
fn release_versions_come_from_the_workspace_manifest() {
    let manifest = "[workspace.package]\nversion = \"0.1.0\"\n";
    check_version_given("0.1.0").unwrap();
    assert_eq!(check_version_given("").unwrap_err().message, "version must not be empty");
    check_workspace_version(manifest, "0.1.0").unwrap();
    assert_eq!(
        check_workspace_version(manifest, "0.2.0").unwrap_err().message,
        "tag version does not match Cargo workspace version"
    );
    assert_eq!(
        check_workspace_version("[package]\nversion = \"0.1.0\"\n", "0.1.0")
            .unwrap_err()
            .message,
        "workspace.package.version is missing"
    );
    assert_eq!(
        check_workspace_version("[workspace.package]\nversion = 1\n", "1").unwrap_err().message,
        "workspace.package.version is missing"
    );
    assert!(check_workspace_version("[workspace", "0.1.0").is_err());
    assert_eq!(
        judge_version(Err("refused".to_owned()), "0.1.0").unwrap_err().message,
        "refused"
    );
    check_worktree(true, b"").unwrap();
    assert_eq!(check_worktree(false, b"").unwrap_err().message, "git status failed");
    assert_eq!(
        check_worktree(true, b" M x").unwrap_err().message,
        "release worktree is not clean"
    );
}

#[test]
fn replays_and_attachments_must_match() {
    check_repetitions(1).unwrap();
    assert_eq!(
        check_repetitions(0).unwrap_err().message,
        "repetitions must be greater than zero"
    );
    check_repetition(1, true, true).unwrap();
    assert_eq!(
        check_repetition(2, false, true).unwrap_err().message,
        "fresh crash campaign 2 differs from the supplied closure"
    );
    assert_eq!(
        check_repetition(10, true, false).unwrap_err().message,
        "proof replay 10 differs from the supplied closure"
    );
    check_manifest_copy(b"same", b"same").unwrap();
    assert!(check_manifest_copy(b"same", b"other").is_err());
    check_crash_attachment(true).unwrap();
    assert!(check_crash_attachment(false).is_err());
}

#[test]
fn replays_run_as_often_as_asked() {
    for repetitions in [1, 2, 7] {
        let mut done = 0;
        let mut numbers = Vec::new();
        while let ReplayStep::Repeat(number) = next_replay_step(done, repetitions) {
            numbers.push(number);
            done = number;
        }
        assert_eq!(numbers, (1..=repetitions).collect::<Vec<_>>());
    }
    assert_eq!(next_replay_step(3, 3), ReplayStep::Finish);
}

#[test]
fn schema_instances_are_bound_to_their_schemas() {
    let binding = schema_binding("episode-event-v1");
    assert_eq!(binding.schema, "schemas/episode-event-v1.schema.json");
    assert_eq!(binding.instance, "episode-event-v1.json");

    let boundary = fixture_cohort(&vec![5, 86_400_000_001, 7], 10).unwrap();
    assert_eq!(boundary.cohort_day, 1);
    assert_eq!(boundary.as_of_us, 172_800_000_000);
    assert_eq!(
        fixture_cohort(&Vec::new(), 10).unwrap_err().message,
        "synthetic schema world has no atoms"
    );
    assert_eq!(
        fixture_cohort(&vec![u64::MAX], 10).unwrap_err().message,
        "typed fixture retirement cohort boundary overflow"
    );
}
