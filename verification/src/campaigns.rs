//! Mutation and fuzz campaigns: what they leave behind, how their receipts are written, and what
//! a release asks of them.

use vstd::prelude::*;
use vstd::string::*;

use crate::bytemap::{ByteSet, same_members};
use crate::chars::characters;
use crate::digest::sha256_of;
use crate::error::{either_fault, fault_when};
use crate::evidence::{
    EvidenceError, EvidenceStatusV1, FUZZ_ARTIFACT_DIR, FUZZ_MAX_ARTIFACT_BYTES,
    FUZZ_MAX_ARTIFACT_COUNT, FUZZ_NIGHTLY, FUZZ_RECEIPT_FILE, MUTATION_LOG_STEM,
    MUTATION_RECEIPT_FILE, SCALE_CORE_RECEIPT_FILE, SCALE_RECEIPT_FILE, command_texts,
    fuzz_command, fuzz_target_command, fuzz_target_names, fuzz_targets, is_artifact_file_name,
    is_log_stem, refusal_of, refuse, safe_artifact_file_name, safe_log_stem, sha256_hex,
};
use crate::folding::{
    first_fault, folded, lemma_first_fault_step, lemma_first_fault_stops, lemma_folded_step,
    lemma_folded_stops, lemma_no_first_fault,
};
use crate::framing::utf8;
use crate::hexadecimal::hex_text;
use crate::sorting::{Keyed, is_sorted_form, sort_by_key, views};
use crate::text::{decimal, decimal_text, optional_text, same_text, text3, text4};
use crate::tokens::text_of;
use crate::tool_receipts::{
    ProofFile, ProofFiles, RetainedRoot, ToolArtifactEvidenceV1, ToolReceiptExpectationV1,
    ToolReceiptV1, ToolTargetEvidenceV1, artifact_file, artifact_path, classify_tool_evidence,
    common_refusal, contains_part, has_part, log_file, log_path, mutation_refusal,
    retained_fuzz_artifact_paths, retained_paths, same_texts, target_succeeded, tool_status,
    verify_mutation_receipt_evidence, verify_tool_receipt_common,
};

verus! {

// ---------------------------------------------------------------------------------------------
// Fuzz receipts

/// What the receipt of a fuzz campaign must say.
pub open spec fn fuzz_expectation() -> ToolReceiptExpectationV1<'static> {
    ToolReceiptExpectationV1 {
        contract: "fuzz-receipt-v1",
        tool: "cargo-fuzz/libFuzzer",
        version: "0.13.2",
        toolchain: FUZZ_NIGHTLY,
        target_count: 4,
    }
}

/// Whether a path is that of an artifact of a fuzz target.
pub open spec fn is_path_of(path: Seq<char>, target: Seq<char>) -> bool {
    exists|name: Seq<char>|
        is_artifact_file_name(name) && path == #[trigger] artifact_path(target, name)
}

/// Takes one more artifact of a target in.
pub open spec fn recorded_step(
    target: Seq<char>,
    paths: Set<Seq<u8>>,
    artifact: ToolArtifactEvidenceV1,
) -> Result<Set<Seq<u8>>, Seq<char>> {
    if !is_path_of(artifact.relative_path@, target) {
        Err("fuzz artifact is not bound to its producing target"@)
    } else if paths.contains(utf8(artifact.relative_path@)) {
        Err("duplicate fuzz artifact evidence"@)
    } else {
        Ok(paths.insert(utf8(artifact.relative_path@)))
    }
}

/// Whether a target of a receipt is the expected one, run as expected.
pub open spec fn is_expected_target(
    target: ToolTargetEvidenceV1,
    expected: (Seq<char>, Seq<char>),
) -> bool {
    &&& target.target@ == expected.0
    &&& target.log_stem@ == expected.1
    &&& target.requested_duration_seconds == Some(120u64)
    &&& command_texts(target.command@) == fuzz_command(expected.0, 120)
}

/// Takes the artifacts of one more target in.
pub open spec fn recorded_target_step(
    targets: Seq<ToolTargetEvidenceV1>,
    paths: Set<Seq<u8>>,
    i: int,
) -> Result<Set<Seq<u8>>, Seq<char>> {
    let expected = fuzz_target_names()[i];
    if !is_expected_target(targets[i], expected) {
        Err("fuzz receipt target or command differs from the release gate"@)
    } else {
        folded(
            targets[i].artifacts@,
            paths,
            |paths: Set<Seq<u8>>, artifact: ToolArtifactEvidenceV1|
                recorded_step(expected.0, paths, artifact),
        )
    }
}

/// The places of the targets of a fuzz campaign.
pub open spec fn target_places() -> Seq<int> {
    seq![0, 1, 2, 3]
}

/// The paths of the artifacts that a receipt speaks of.
pub open spec fn recorded_paths(targets: Seq<ToolTargetEvidenceV1>) -> Result<
    Set<Seq<u8>>,
    Seq<char>,
> {
    folded(
        target_places(),
        Set::empty(),
        |paths: Set<Seq<u8>>, i: int| recorded_target_step(targets, paths, i),
    )
}

/// Why the receipt of a fuzz campaign is refused.
pub open spec fn fuzz_refusal(
    receipt: ToolReceiptV1,
    encoded: Seq<u8>,
    files: Map<Seq<u8>, ProofFile>,
    root: RetainedRoot,
    expected_commit: Seq<char>,
) -> Option<Seq<char>> {
    match retained_paths(root) {
        Err(reason) => Some(reason),
        Ok(retained) => either_fault(
            common_refusal(receipt, encoded, files, fuzz_expectation(), expected_commit),
            if receipt.targets@.len() != 4 {
                Some("fuzz receipt target count differs from the release gate"@)
            } else {
                match recorded_paths(receipt.targets@) {
                    Err(reason) => Some(reason),
                    Ok(recorded) => fault_when(
                        recorded != retained,
                        "fuzz artifact directory does not exactly match the receipt closure"@,
                    ),
                }
            },
        ),
    }
}

fn belongs_to(path: &str, target: &str) -> (yes: bool)
    ensures
        yes == is_path_of(path@, target@),
{
    let prefix_text = text4(FUZZ_ARTIFACT_DIR, "/", target, "/");
    let prefix = characters(prefix_text.as_str());
    let list = characters(path);
    let ghost head = prefix@;
    proof {
        assert forall|name: Seq<char>| #[trigger] artifact_path(target@, name) == head + name by {
            assert(artifact_path(target@, name) =~= head + name);
        }
    }
    if list.len() < prefix.len() {
        proof {
            assert forall|name: Seq<char>| path@ != #[trigger] artifact_path(target@, name) by {
                assert(artifact_path(target@, name).len() == head.len() + name.len());
            }
        }
        return false;
    }
    let mut i: usize = 0;
    while i < prefix.len()
        invariant
            prefix@ == head,
            list@ == path@,
            prefix@.len() <= list@.len(),
            i <= prefix@.len(),
            forall|name: Seq<char>| #[trigger] artifact_path(target@, name) == head + name,
            forall|k: int| 0 <= k < i ==> #[trigger] list@[k] == head[k],
        decreases prefix@.len() - i,
    {
        if list[i] != prefix[i] {
            proof {
                assert forall|name: Seq<char>| path@ != #[trigger] artifact_path(
                    target@,
                    name,
                ) by {
                    assert((head + name)[i as int] == head[i as int]);
                }
            }
            return false;
        }
        i += 1;
    }
    let mut rest: Vec<char> = Vec::new();
    let ghost tail = path@.subrange(head.len() as int, path@.len() as int);
    let mut j: usize = prefix.len();
    while j < list.len()
        invariant
            prefix@ == head,
            list@ == path@,
            head.len() <= j <= list@.len(),
            rest@ == path@.subrange(head.len() as int, j as int),
        decreases list@.len() - j,
    {
        rest.push(list[j]);
        j += 1;
        assert(rest@ =~= path@.subrange(head.len() as int, j as int));
    }
    let name = text_of(&rest);
    let safe = safe_artifact_file_name(name.as_str());
    proof {
        assert(name@ == tail);
        assert(path@ =~= head + tail);
        assert(artifact_path(target@, tail) == path@);
        if is_path_of(path@, target@) {
            let other = choose|name: Seq<char>|
                is_artifact_file_name(name) && path@ == #[trigger] artifact_path(target@, name);
            assert(head + other == head + tail);
            assert(other =~= (head + other).subrange(
                head.len() as int,
                (head + other).len() as int,
            ));
            assert(tail =~= (head + tail).subrange(head.len() as int, (head + tail).len() as int));
        }
    }
    safe
}

fn take_recorded(target: &str, paths: &mut ByteSet, artifact: &ToolArtifactEvidenceV1) -> (verdict:
    Result<(), EvidenceError>)
    ensures
        match verdict {
            Ok(_) => recorded_step(target@, old(paths)@, *artifact) == Ok::<
                Set<Seq<u8>>,
                Seq<char>,
            >(final(paths)@),
            Err(error) => recorded_step(target@, old(paths)@, *artifact) == Err::<
                Set<Seq<u8>>,
                Seq<char>,
            >(error@),
        },
{
    if !belongs_to(artifact.relative_path.as_str(), target) {
        return Err(refuse("fuzz artifact is not bound to its producing target"));
    }
    if !paths.insert(artifact.relative_path.as_str().as_bytes()) {
        return Err(refuse("duplicate fuzz artifact evidence"));
    }
    Ok(())
}

#[verifier::loop_isolation(false)]
fn take_recorded_target(
    paths: &mut ByteSet,
    targets: &Vec<ToolTargetEvidenceV1>,
    place: usize,
    expected: &str,
    expected_log_stem: &str,
) -> (verdict: Result<(), EvidenceError>)
    requires
        place < targets@.len() == 4,
        fuzz_target_names()[place as int] == (expected@, expected_log_stem@),
    ensures
        match verdict {
            Ok(_) => recorded_target_step(targets@, old(paths)@, place as int) == Ok::<
                Set<Seq<u8>>,
                Seq<char>,
            >(final(paths)@),
            Err(error) => recorded_target_step(targets@, old(paths)@, place as int) == Err::<
                Set<Seq<u8>>,
                Seq<char>,
            >(error@),
        },
{
    let target = &targets[place];
    let command = fuzz_target_command(expected, 120);
    let asked = match target.requested_duration_seconds {
        Some(seconds) => seconds == 120,
        None => false,
    };
    if !same_text(target.target.as_str(), expected) || !same_text(
        target.log_stem.as_str(),
        expected_log_stem,
    ) || !asked || !same_texts(&target.command, &command) {
        return Err(refuse("fuzz receipt target or command differs from the release gate"));
    }
    let ghost all = target.artifacts@;
    let ghost start = paths@;
    let ghost step = |paths: Set<Seq<u8>>, artifact: ToolArtifactEvidenceV1|
        recorded_step(fuzz_target_names()[place as int].0, paths, artifact);
    let mut i: usize = 0;
    assert(all.subrange(0, 0) =~= Seq::<ToolArtifactEvidenceV1>::empty());
    while i < target.artifacts.len()
        invariant
            i <= all.len() == target.artifacts@.len(),
            folded(all.subrange(0, i as int), start, step) == Ok::<Set<Seq<u8>>, Seq<char>>(
                paths@,
            ),
        decreases all.len() - i,
    {
        proof {
            lemma_folded_step(all, start, step, i as int);
        }
        match take_recorded(expected, paths, &target.artifacts[i]) {
            Ok(_) => {},
            Err(error) => {
                proof {
                    lemma_folded_stops(all, start, step, i + 1);
                }
                return Err(error);
            },
        }
        i += 1;
    }
    assert(all.subrange(0, i as int) =~= all);
    Ok(())
}

#[verifier::loop_isolation(false)]
fn collect_recorded(targets: &Vec<ToolTargetEvidenceV1>) -> (recorded: Result<
    ByteSet,
    EvidenceError,
>)
    requires
        targets@.len() == 4,
    ensures
        match recorded {
            Ok(paths) => recorded_paths(targets@) == Ok::<Set<Seq<u8>>, Seq<char>>(paths@),
            Err(error) => recorded_paths(targets@) == Err::<Set<Seq<u8>>, Seq<char>>(error@),
        },
{
    let expected = fuzz_targets();
    let ghost pairs = expected@.map_values(
        |target: (&'static str, &'static str)| (target.0@, target.1@),
    );
    let ghost places = target_places();
    let ghost start = Set::<Seq<u8>>::empty();
    let ghost step = |paths: Set<Seq<u8>>, i: int| recorded_target_step(targets@, paths, i);
    let mut paths = ByteSet::new();
    let mut i: usize = 0;
    assert(places.subrange(0, 0) =~= Seq::<int>::empty());
    while i < 4
        invariant
            i <= 4 == places.len(),
            folded(places.subrange(0, i as int), start, step) == Ok::<Set<Seq<u8>>, Seq<char>>(
                paths@,
            ),
        decreases 4 - i,
    {
        proof {
            lemma_folded_step(places, start, step, i as int);
            assert(places[i as int] == i);
        }
        let (target, log_stem) = expected[i];
        assert(pairs[i as int] == (target@, log_stem@));
        match take_recorded_target(&mut paths, targets, i, target, log_stem) {
            Ok(_) => {},
            Err(error) => {
                proof {
                    lemma_folded_stops(places, start, step, i + 1);
                }
                return Err(error);
            },
        }
        i += 1;
    }
    assert(places.subrange(0, i as int) =~= places);
    Ok(paths)
}

/// Checks the receipt of a fuzz campaign, however the campaign ended: its artifacts are exactly
/// those that were kept.
pub fn verify_fuzz_receipt_evidence(
    receipt: &ToolReceiptV1,
    encoded: &[u8],
    files: &ProofFiles,
    root: &RetainedRoot,
    expected_commit: &str,
) -> (verdict: Result<(), EvidenceError>)
    ensures
        refusal_of(verdict) == fuzz_refusal(
            *receipt,
            encoded@,
            files@,
            *root,
            expected_commit@,
        ),
{
    let retained = match retained_fuzz_artifact_paths(root) {
        Ok(paths) => paths,
        Err(error) => {
            return Err(error);
        },
    };
    let expected = ToolReceiptExpectationV1 {
        contract: "fuzz-receipt-v1",
        tool: "cargo-fuzz/libFuzzer",
        version: "0.13.2",
        toolchain: FUZZ_NIGHTLY,
        target_count: 4,
    };
    verify_tool_receipt_common(receipt, encoded, files, &expected, expected_commit)?;
    if receipt.targets.len() != 4 {
        return Err(refuse("fuzz receipt target count differs from the release gate"));
    }
    let recorded = match collect_recorded(&receipt.targets) {
        Ok(paths) => paths,
        Err(error) => {
            return Err(error);
        },
    };
    if !same_members(&recorded, &retained) {
        return Err(refuse("fuzz artifact directory does not exactly match the receipt closure"));
    }
    Ok(())
}

// ---------------------------------------------------------------------------------------------
// What a release asks

/// Whether every target of a receipt ran, took time and succeeded, and the campaign passed.
pub open spec fn campaign_passed(receipt: ToolReceiptV1) -> bool {
    &&& receipt.status == EvidenceStatusV1::Passed
    &&& forall|i: int|
        0 <= i < receipt.targets@.len() ==> target_succeeded(#[trigger] receipt.targets@[i])
            && receipt.targets@[i].observed_duration_millis > 0
}

/// Why a receipt that closes is refused by a release.
pub open spec fn passed_refusal(receipt: ToolReceiptV1) -> Option<Seq<char>> {
    fault_when(
        !campaign_passed(receipt),
        "tool receipt is closed but did not pass its bounded campaign"@,
    )
}

/// Accepts the receipt of a campaign that passed.
pub fn require_passed_tool_receipt(receipt: &ToolReceiptV1) -> (verdict: Result<(), EvidenceError>)
    ensures
        refusal_of(verdict) == passed_refusal(*receipt),
{
    if receipt.status != EvidenceStatusV1::Passed {
        return Err(refuse("tool receipt is closed but did not pass its bounded campaign"));
    }
    let mut i: usize = 0;
    while i < receipt.targets.len()
        invariant
            receipt.status == EvidenceStatusV1::Passed,
            i <= receipt.targets@.len(),
            forall|k: int|
                0 <= k < i ==> target_succeeded(#[trigger] receipt.targets@[k])
                    && receipt.targets@[k].observed_duration_millis > 0,
        decreases receipt.targets@.len() - i,
    {
        let succeeded = match receipt.targets[i].exit_code {
            Some(code) => code == 0,
            None => false,
        };
        assert(succeeded == target_succeeded(receipt.targets@[i as int]));
        if !succeeded || receipt.targets[i].observed_duration_millis == 0 {
            return Err(refuse("tool receipt is closed but did not pass its bounded campaign"));
        }
        i += 1;
    }
    Ok(())
}

/// Checks the receipt of a mutation campaign for a release.
pub fn verify_mutation_receipt(
    receipt: &ToolReceiptV1,
    encoded: &[u8],
    files: &ProofFiles,
    expected_commit: &str,
) -> (verdict: Result<(), EvidenceError>)
    ensures
        refusal_of(verdict) == either_fault(
            mutation_refusal(*receipt, encoded@, files@, expected_commit@),
            passed_refusal(*receipt),
        ),
{
    verify_mutation_receipt_evidence(receipt, encoded, files, expected_commit)?;
    require_passed_tool_receipt(receipt)
}

/// Whether a target of a receipt keeps no artifacts.
pub open spec fn keeps_nothing(receipt: ToolReceiptV1) -> bool {
    forall|i: int|
        0 <= i < receipt.targets@.len() ==> (#[trigger] receipt.targets@[i]).artifacts@.len() == 0
}

/// Why the receipt of a fuzz campaign is refused by a release.
pub open spec fn fuzz_release_refusal(
    receipt: ToolReceiptV1,
    encoded: Seq<u8>,
    files: Map<Seq<u8>, ProofFile>,
    root: RetainedRoot,
    expected_commit: Seq<char>,
) -> Option<Seq<char>> {
    either_fault(
        fuzz_refusal(receipt, encoded, files, root, expected_commit),
        either_fault(
            passed_refusal(receipt),
            fault_when(
                !keeps_nothing(receipt),
                "a passed fuzz campaign must not retain crash reproducers"@,
            ),
        ),
    )
}

/// Checks the receipt of a fuzz campaign for a release.
pub fn verify_fuzz_receipt(
    receipt: &ToolReceiptV1,
    encoded: &[u8],
    files: &ProofFiles,
    root: &RetainedRoot,
    expected_commit: &str,
) -> (verdict: Result<(), EvidenceError>)
    ensures
        refusal_of(verdict) == fuzz_release_refusal(
            *receipt,
            encoded@,
            files@,
            *root,
            expected_commit@,
        ),
{
    verify_fuzz_receipt_evidence(receipt, encoded, files, root, expected_commit)?;
    require_passed_tool_receipt(receipt)?;
    let mut i: usize = 0;
    while i < receipt.targets.len()
        invariant
            fuzz_refusal(*receipt, encoded@, files@, *root, expected_commit@) is None,
            passed_refusal(*receipt) is None,
            i <= receipt.targets@.len(),
            forall|k: int|
                0 <= k < i ==> (#[trigger] receipt.targets@[k]).artifacts@.len() == 0,
        decreases receipt.targets@.len() - i,
    {
        if receipt.targets[i].artifacts.len() != 0 {
            return Err(refuse("a passed fuzz campaign must not retain crash reproducers"));
        }
        i += 1;
    }
    Ok(())
}

/// Why a receipt of either campaign is refused, by the contract that it names.
pub open spec fn tool_refusal(
    receipt: ToolReceiptV1,
    encoded: Seq<u8>,
    files: Map<Seq<u8>, ProofFile>,
    root: RetainedRoot,
    expected_commit: Seq<char>,
) -> Option<Seq<char>> {
    if receipt.contract_version@ == "mutation-receipt-v1"@ {
        mutation_refusal(receipt, encoded, files, expected_commit)
    } else if receipt.contract_version@ == "fuzz-receipt-v1"@ {
        fuzz_refusal(receipt, encoded, files, root, expected_commit)
    } else {
        Some("unknown tool receipt contract version"@)
    }
}

/// Checks a receipt of either campaign.
pub fn verify_tool_receipt(
    receipt: &ToolReceiptV1,
    encoded: &[u8],
    files: &ProofFiles,
    root: &RetainedRoot,
    expected_commit: &str,
) -> (verdict: Result<(), EvidenceError>)
    ensures
        refusal_of(verdict) == tool_refusal(*receipt, encoded@, files@, *root, expected_commit@),
{
    if same_text(receipt.contract_version.as_str(), "mutation-receipt-v1") {
        verify_mutation_receipt_evidence(receipt, encoded, files, expected_commit)
    } else if same_text(receipt.contract_version.as_str(), "fuzz-receipt-v1") {
        verify_fuzz_receipt_evidence(receipt, encoded, files, root, expected_commit)
    } else {
        Err(refuse("unknown tool receipt contract version"))
    }
}

/// A receipt that a release accepts is bound: it names the commit that is checked out, its digest
/// is that of its own bytes, and every log that it names is there with the digest that it states.
pub proof fn law_accepted_receipt_is_bound_to_its_logs(
    receipt: ToolReceiptV1,
    encoded: Seq<u8>,
    files: Map<Seq<u8>, ProofFile>,
    expected: ToolReceiptExpectationV1<'_>,
    expected_commit: Seq<char>,
    i: int,
)
    requires
        common_refusal(receipt, encoded, files, expected, expected_commit) is None,
        0 <= i < receipt.targets@.len(),
    ensures
        receipt.source_commit@ == expected_commit,
        receipt.receipt_digest@ == crate::evidence::prefixed_hex(
            "naome-memory:tool-receipt:v1\0"@,
            encoded,
        ),
        is_log_stem(receipt.targets@[i].log_stem@),
        crate::tool_receipts::content_at(
            files,
            log_path(receipt.targets@[i].log_stem@, "stdout"@),
        ) matches Ok(bytes) && receipt.targets@[i].stdout_digest@ == hex_text(sha256_of(bytes)),
        crate::tool_receipts::content_at(
            files,
            log_path(receipt.targets@[i].log_stem@, "stderr"@),
        ) matches Ok(bytes) && receipt.targets@[i].stderr_digest@ == hex_text(sha256_of(bytes)),
{
    let refused = |target: ToolTargetEvidenceV1|
        crate::tool_receipts::target_refusal(target, files);
    lemma_no_first_fault(receipt.targets@, refused);
    assert(refused(receipt.targets@[i]) is None);
}

/// The paths of the artifacts of a target, in the order in which they are recorded.
pub open spec fn artifact_paths(artifacts: Seq<ToolArtifactEvidenceV1>) -> Seq<Seq<u8>> {
    artifacts.map_values(|artifact: ToolArtifactEvidenceV1| utf8(artifact.relative_path@))
}

/// The paths of the artifacts of all targets, in the order in which they are recorded.
pub open spec fn listed_paths(targets: Seq<ToolTargetEvidenceV1>) -> Seq<Seq<u8>>
    decreases targets.len(),
{
    if targets.len() == 0 {
        Seq::empty()
    } else {
        listed_paths(targets.drop_last()) + artifact_paths(targets.last().artifacts@)
    }
}

proof fn lemma_recorded_artifacts(
    target: Seq<char>,
    before: Seq<Seq<u8>>,
    artifacts: Seq<ToolArtifactEvidenceV1>,
)
    requires
        before.no_duplicates(),
        folded(
            artifacts,
            before.to_set(),
            |paths: Set<Seq<u8>>, artifact: ToolArtifactEvidenceV1|
                recorded_step(target, paths, artifact),
        ) is Ok,
    ensures
        (before + artifact_paths(artifacts)).no_duplicates(),
        folded(
            artifacts,
            before.to_set(),
            |paths: Set<Seq<u8>>, artifact: ToolArtifactEvidenceV1|
                recorded_step(target, paths, artifact),
        )->Ok_0 == (before + artifact_paths(artifacts)).to_set(),
    decreases artifacts.len(),
{
    let all = before + artifact_paths(artifacts);
    if artifacts.len() == 0 {
        assert(all =~= before);
    } else {
        lemma_recorded_artifacts(target, before, artifacts.drop_last());
        let shorter = before + artifact_paths(artifacts.drop_last());
        let path = utf8(artifacts.last().relative_path@);
        assert(all =~= shorter.push(path));
        assert(!shorter.to_set().contains(path));
        assert(!shorter.contains(path));
        assert(all.to_set() =~= shorter.to_set().insert(path)) by {
            assert(all[all.len() - 1] == path);
            assert forall|member: Seq<u8>| #[trigger] all.to_set().contains(member) <==> (
            shorter.to_set().contains(member) || member == path) by {
                if shorter.contains(member) {
                    let k = shorter.index_of(member);
                    assert(all[k] == member);
                }
            }
        }
    }
}

proof fn lemma_recorded_targets(targets: Seq<ToolTargetEvidenceV1>, count: int)
    requires
        0 <= count <= 4,
        targets.len() == 4,
        folded(
            target_places().subrange(0, count),
            Set::empty(),
            |paths: Set<Seq<u8>>, i: int| recorded_target_step(targets, paths, i),
        ) is Ok,
    ensures
        listed_paths(targets.subrange(0, count)).no_duplicates(),
        folded(
            target_places().subrange(0, count),
            Set::empty(),
            |paths: Set<Seq<u8>>, i: int| recorded_target_step(targets, paths, i),
        )->Ok_0 == listed_paths(targets.subrange(0, count)).to_set(),
    decreases count,
{
    let places = target_places();
    let step = |paths: Set<Seq<u8>>, i: int| recorded_target_step(targets, paths, i);
    if count == 0 {
        assert(listed_paths(targets.subrange(0, 0)).to_set() =~= Set::<Seq<u8>>::empty());
    } else {
        lemma_folded_step(places, Set::<Seq<u8>>::empty(), step, count - 1);
        lemma_recorded_targets(targets, count - 1);
        let before = listed_paths(targets.subrange(0, count - 1));
        let shorter = targets.subrange(0, count);
        assert(shorter.drop_last() =~= targets.subrange(0, count - 1));
        assert(shorter.last() == targets[count - 1]);
        assert(places[count - 1] == count - 1);
        lemma_recorded_artifacts(
            fuzz_target_names()[count - 1].0,
            before,
            targets[count - 1].artifacts@,
        );
    }
}

/// An accepted receipt of a fuzz campaign records every artifact once, and exactly the files that
/// were retained.
pub proof fn law_accepted_fuzz_receipt_closes_over_its_artifacts(
    receipt: ToolReceiptV1,
    encoded: Seq<u8>,
    files: Map<Seq<u8>, ProofFile>,
    root: RetainedRoot,
    expected_commit: Seq<char>,
)
    requires
        fuzz_refusal(receipt, encoded, files, root, expected_commit) is None,
    ensures
        listed_paths(receipt.targets@).no_duplicates(),
        retained_paths(root) == Ok::<Set<Seq<u8>>, Seq<char>>(
            listed_paths(receipt.targets@).to_set(),
        ),
{
    assert(target_places().subrange(0, 4) =~= target_places());
    assert(receipt.targets@.subrange(0, 4) =~= receipt.targets@);
    lemma_recorded_targets(receipt.targets@, 4);
}

/// A release accepts a fuzz campaign only when it kept nothing: no artifact is recorded, and the
/// directory of artifacts is empty.
pub proof fn law_released_fuzz_campaign_keeps_nothing(
    receipt: ToolReceiptV1,
    encoded: Seq<u8>,
    files: Map<Seq<u8>, ProofFile>,
    root: RetainedRoot,
    expected_commit: Seq<char>,
)
    requires
        fuzz_release_refusal(receipt, encoded, files, root, expected_commit) is None,
    ensures
        keeps_nothing(receipt),
        retained_paths(root) == Ok::<Set<Seq<u8>>, Seq<char>>(Set::empty()),
{
    let targets = receipt.targets@;
    assert forall|paths: Set<Seq<u8>>, i: int|
        0 <= i < 4 && (#[trigger] recorded_target_step(targets, paths, i)) is Ok implies
        recorded_target_step(targets, paths, i) == Ok::<Set<Seq<u8>>, Seq<char>>(paths) by {
        assert(targets[i].artifacts@.len() == 0);
    }
    lemma_nothing_recorded(targets, target_places());
}

proof fn lemma_nothing_recorded(targets: Seq<ToolTargetEvidenceV1>, places: Seq<int>)
    requires
        forall|i: int| 0 <= i < places.len() ==> 0 <= #[trigger] places[i] < 4,
        forall|paths: Set<Seq<u8>>, i: int|
            0 <= i < 4 && (#[trigger] recorded_target_step(targets, paths, i)) is Ok
                ==> recorded_target_step(targets, paths, i) == Ok::<Set<Seq<u8>>, Seq<char>>(
                paths,
            ),
        folded(
            places,
            Set::empty(),
            |paths: Set<Seq<u8>>, i: int| recorded_target_step(targets, paths, i),
        ) is Ok,
    ensures
        folded(
            places,
            Set::empty(),
            |paths: Set<Seq<u8>>, i: int| recorded_target_step(targets, paths, i),
        ) == Ok::<Set<Seq<u8>>, Seq<char>>(Set::empty()),
    decreases places.len(),
{
    if places.len() > 0 {
        let shorter = places.drop_last();
        assert forall|i: int| 0 <= i < shorter.len() implies 0 <= #[trigger] shorter[i] < 4 by {
            assert(shorter[i] == places[i]);
        }
        assert(0 <= places[places.len() - 1] < 4);
        lemma_nothing_recorded(targets, shorter);
    }
}

// ---------------------------------------------------------------------------------------------
// What a campaign leaves behind

/// An input that made a fuzz target fail, as its directory holds it. The text of the name is
/// missing where it is not UTF-8.
#[derive(Clone, Debug)]
pub struct CrashEntry {
    pub name: Vec<u8>,
    pub text: Option<String>,
    pub is_file: bool,
    pub bytes: Vec<u8>,
}

/// The mathematical content of a [`CrashEntry`].
#[verifier::ext_equal]
pub struct CrashView {
    pub name: Seq<u8>,
    pub text: Option<Seq<char>>,
    pub is_file: bool,
    pub bytes: Seq<u8>,
}

impl View for CrashEntry {
    type V = CrashView;

    open spec fn view(&self) -> CrashView {
        CrashView {
            name: self.name@,
            text: optional_text(self.text),
            is_file: self.is_file,
            bytes: self.bytes@,
        }
    }
}

impl Keyed for CrashEntry {
    open spec fn key(value: CrashView) -> Seq<u8> {
        value.name
    }

    fn key_bytes(&self) -> (key: &[u8]) {
        self.name.as_slice()
    }
}

/// Whether `ordered` holds the failing inputs of a target in the order of their names.
pub open spec fn is_ordered_crashes(entries: Seq<CrashView>, ordered: Seq<CrashView>) -> bool {
    is_sorted_form(entries, ordered, |entry: CrashView| <CrashEntry as Keyed>::key(entry))
}

/// Why a failing input is not kept.
pub open spec fn crash_refusal(entry: CrashView) -> Option<Seq<char>> {
    if !entry.is_file {
        Some("fuzz crash artifact is not a regular file"@)
    } else if entry.text is None {
        Some("fuzz crash artifact name is not UTF-8"@)
    } else if !is_artifact_file_name(entry.text->0) {
        Some("unsafe fuzz crash artifact name"@)
    } else if entry.bytes.len() > FUZZ_MAX_ARTIFACT_BYTES {
        Some("fuzz crash artifact exceeds the bounded evidence limit"@)
    } else {
        None
    }
}

/// Why failing inputs are not kept.
pub open spec fn preserve_refusal(ordered: Seq<CrashView>) -> Option<Seq<char>> {
    either_fault(
        fault_when(
            ordered.len() > FUZZ_MAX_ARTIFACT_COUNT,
            "fuzz target produced too many crash artifacts"@,
        ),
        first_fault(ordered, |entry: CrashView| crash_refusal(entry)),
    )
}

/// Whether evidence is that of a failing input of a target.
pub open spec fn is_evidence_of(
    artifact: ToolArtifactEvidenceV1,
    target: Seq<char>,
    entry: CrashView,
) -> bool {
    &&& artifact.relative_path@ == artifact_path(target, entry.text->0)
    &&& artifact.byte_len == entry.bytes.len()
    &&& artifact.sha256@ == hex_text(sha256_of(entry.bytes))
}

fn preserve_crash(entry: &CrashEntry, target: &str) -> (artifact: Result<
    ToolArtifactEvidenceV1,
    EvidenceError,
>)
    ensures
        refusal_of(artifact) == crash_refusal(entry@),
        artifact matches Ok(artifact) ==> is_evidence_of(artifact, target@, entry@),
{
    if !entry.is_file {
        return Err(refuse("fuzz crash artifact is not a regular file"));
    }
    match &entry.text {
        None => Err(refuse("fuzz crash artifact name is not UTF-8")),
        Some(name) => {
            if !safe_artifact_file_name(name.as_str()) {
                return Err(refuse("unsafe fuzz crash artifact name"));
            }
            let byte_len: u64 = entry.bytes.len() as u64;
            if byte_len > FUZZ_MAX_ARTIFACT_BYTES {
                return Err(refuse("fuzz crash artifact exceeds the bounded evidence limit"));
            }
            Ok(
                ToolArtifactEvidenceV1 {
                    relative_path: artifact_file(target, name.as_str()),
                    byte_len,
                    sha256: sha256_hex(entry.bytes.as_slice()),
                },
            )
        },
    }
}

/// Writes the evidence for the inputs that made a fuzz target fail, in the order of their names.
#[verifier::loop_isolation(false)]
pub fn preserve_fuzz_artifacts(entries: Vec<CrashEntry>, target: &str) -> (artifacts: Result<
    Vec<ToolArtifactEvidenceV1>,
    EvidenceError,
>)
    ensures
        exists|ordered: Seq<CrashView>|
            #[trigger] is_ordered_crashes(views(entries@), ordered) && refusal_of(artifacts)
                == preserve_refusal(ordered) && (artifacts matches Ok(artifacts) ==> (
            artifacts@.len() == ordered.len() && forall|i: int|
                0 <= i < ordered.len() ==> is_evidence_of(
                    #[trigger] artifacts@[i],
                    target@,
                    ordered[i],
                ))),
{
    let ghost found = views(entries@);
    let ordered = sort_by_key(entries);
    let ghost all = views(ordered@);
    assert(is_ordered_crashes(found, all));
    if ordered.len() > FUZZ_MAX_ARTIFACT_COUNT {
        return Err(refuse("fuzz target produced too many crash artifacts"));
    }
    let ghost refused = |entry: CrashView| crash_refusal(entry);
    let mut artifacts: Vec<ToolArtifactEvidenceV1> = Vec::new();
    let mut i: usize = 0;
    assert(all.subrange(0, 0) =~= Seq::<CrashView>::empty());
    while i < ordered.len()
        invariant
            i <= all.len() == ordered@.len(),
            artifacts@.len() == i,
            first_fault(all.subrange(0, i as int), refused) is None,
            forall|k: int|
                0 <= k < i ==> is_evidence_of(#[trigger] artifacts@[k], target@, all[k]),
        decreases all.len() - i,
    {
        proof {
            lemma_first_fault_step(all, refused, i as int);
            assert(all[i as int] == ordered@[i as int]@);
        }
        match preserve_crash(&ordered[i], target) {
            Ok(artifact) => {
                artifacts.push(artifact);
            },
            Err(error) => {
                proof {
                    lemma_first_fault_stops(all, refused, i + 1);
                }
                return Err(error);
            },
        }
        i += 1;
    }
    assert(all.subrange(0, i as int) =~= all);
    Ok(artifacts)
}

/// What a process gave: how it ended, how long it took, and what it wrote.
#[derive(Clone, Debug)]
pub struct ProcessOutcome {
    pub observed_duration_millis: u64,
    pub exit_code: Option<i32>,
    pub stdout: Vec<u8>,
    pub stderr: Vec<u8>,
}

/// Why no target is run under a name for its logs.
pub open spec fn stem_refusal(log_stem: Seq<char>) -> Option<Seq<char>> {
    fault_when(!is_log_stem(log_stem), "unsafe tool log stem"@)
}

/// Accepts a name for the logs of a target.
pub fn check_log_stem(log_stem: &str) -> (verdict: Result<(), EvidenceError>)
    ensures
        refusal_of(verdict) == stem_refusal(log_stem@),
{
    if !safe_log_stem(log_stem) {
        return Err(refuse("unsafe tool log stem"));
    }
    Ok(())
}

/// Writes the evidence for a target that was run.
pub fn capture_tool_target(
    log_stem: &str,
    target: &str,
    command: Vec<String>,
    requested_duration_seconds: Option<u64>,
    outcome: &ProcessOutcome,
) -> (evidence: Result<ToolTargetEvidenceV1, EvidenceError>)
    ensures
        refusal_of(evidence) == stem_refusal(log_stem@),
        evidence matches Ok(evidence) ==> {
            &&& evidence.target@ == target@
            &&& evidence.command == command
            &&& evidence.requested_duration_seconds == requested_duration_seconds
            &&& evidence.observed_duration_millis == outcome.observed_duration_millis
            &&& evidence.exit_code == outcome.exit_code
            &&& evidence.log_stem@ == log_stem@
            &&& evidence.stdout_digest@ == hex_text(sha256_of(outcome.stdout@))
            &&& evidence.stderr_digest@ == hex_text(sha256_of(outcome.stderr@))
            &&& evidence.artifacts@.len() == 0
        },
{
    check_log_stem(log_stem)?;
    Ok(
        ToolTargetEvidenceV1 {
            target: target.to_owned(),
            command,
            requested_duration_seconds,
            observed_duration_millis: outcome.observed_duration_millis,
            exit_code: outcome.exit_code,
            log_stem: log_stem.to_owned(),
            stdout_digest: sha256_hex(outcome.stdout.as_slice()),
            stderr_digest: sha256_hex(outcome.stderr.as_slice()),
            artifacts: Vec::new(),
        },
    )
}

/// The commit that a receipt names: the one it is bound to, if it is.
pub open spec fn named_commit(source_commit: Option<Seq<char>>) -> Seq<char> {
    match source_commit {
        Some(commit) => commit,
        None => "uncommitted"@,
    }
}

/// Writes the commit that a receipt names.
pub fn commit_name(source_commit: Option<String>) -> (name: String)
    ensures
        name@ == named_commit(optional_text(source_commit)),
{
    match source_commit {
        Some(commit) => commit,
        None => "uncommitted".to_owned(),
    }
}

/// Writes the receipt of a mutation campaign, still without its digest.
pub fn mutation_receipt(
    tool_version: String,
    target: ToolTargetEvidenceV1,
    source_commit: Option<String>,
) -> (receipt: ToolReceiptV1)
    ensures
        receipt.contract_version@ == "mutation-receipt-v1"@,
        receipt.tool@ == "cargo-mutants"@,
        receipt.tool_version == tool_version,
        receipt.toolchain@ == "1.95.0"@,
        receipt.source_commit@ == named_commit(optional_text(source_commit)),
        receipt.status == tool_status(
            seq![target],
            1,
            has_part(tool_version@, "27.1.0"@),
            source_commit is Some,
        ),
        receipt.targets@ == seq![target],
        receipt.note@
            == "Mutation evidence covers the decision core and receipt verifier."@,
        receipt.receipt_digest@.len() == 0,
{
    let supported = contains_part(tool_version.as_str(), "27.1.0");
    let bound = source_commit.is_some();
    let ghost only = target;
    let mut targets: Vec<ToolTargetEvidenceV1> = Vec::new();
    targets.push(target);
    assert(targets@ =~= seq![only]);
    let status = classify_tool_evidence(targets.as_slice(), 1, supported, bound);
    ToolReceiptV1 {
        contract_version: "mutation-receipt-v1".to_owned(),
        tool: "cargo-mutants".to_owned(),
        tool_version,
        toolchain: "1.95.0".to_owned(),
        source_commit: commit_name(source_commit),
        status,
        targets,
        note: "Mutation evidence covers the decision core and receipt verifier.".to_owned(),
        receipt_digest: String::new(),
    }
}

/// Why no fuzz campaign is run for a time.
pub open spec fn fuzz_duration_refusal(seconds: u64) -> Option<Seq<char>> {
    fault_when(seconds == 0, "fuzz duration must be greater than zero"@)
}

/// Accepts the time that a fuzz campaign is to take.
pub fn check_fuzz_duration(seconds: u64) -> (verdict: Result<(), EvidenceError>)
    ensures
        refusal_of(verdict) == fuzz_duration_refusal(seconds),
{
    if seconds == 0 {
        return Err(refuse("fuzz duration must be greater than zero"));
    }
    Ok(())
}

/// Writes the receipt of a fuzz campaign, still without its digest.
pub fn fuzz_receipt(
    tool_version: String,
    targets: Vec<ToolTargetEvidenceV1>,
    seconds: u64,
    source_commit: Option<String>,
) -> (receipt: ToolReceiptV1)
    ensures
        receipt.contract_version@ == "fuzz-receipt-v1"@,
        receipt.tool@ == "cargo-fuzz/libFuzzer"@,
        receipt.tool_version == tool_version,
        receipt.toolchain@ == FUZZ_NIGHTLY@,
        receipt.source_commit@ == named_commit(optional_text(source_commit)),
        receipt.status == tool_status(
            targets@,
            4,
            has_part(tool_version@, "0.13.2"@),
            source_commit is Some,
        ),
        receipt.targets == targets,
        receipt.note@ == "Each of four fuzz targets requested "@ + decimal(seconds as nat)
            + " seconds."@,
        receipt.receipt_digest@.len() == 0,
{
    let supported = contains_part(tool_version.as_str(), "0.13.2");
    let bound = source_commit.is_some();
    let status = classify_tool_evidence(targets.as_slice(), 4, supported, bound);
    let duration = decimal_text(seconds);
    ToolReceiptV1 {
        contract_version: "fuzz-receipt-v1".to_owned(),
        tool: "cargo-fuzz/libFuzzer".to_owned(),
        tool_version,
        toolchain: FUZZ_NIGHTLY.to_owned(),
        source_commit: commit_name(source_commit),
        status,
        targets,
        note: text3("Each of four fuzz targets requested ", duration.as_str(), " seconds."),
        receipt_digest: String::new(),
    }
}

/// The files of an earlier scale run.
pub fn stale_scale_files() -> (files: Vec<String>)
    ensures
        command_texts(files@) == seq![SCALE_CORE_RECEIPT_FILE@, SCALE_RECEIPT_FILE@],
{
    let mut files: Vec<String> = Vec::new();
    files.push(SCALE_CORE_RECEIPT_FILE.to_owned());
    files.push(SCALE_RECEIPT_FILE.to_owned());
    assert(command_texts(files@) =~= seq![SCALE_CORE_RECEIPT_FILE@, SCALE_RECEIPT_FILE@]);
    files
}

/// The receipt and the logs of an earlier mutation campaign.
pub fn stale_mutation_files() -> (files: Vec<String>)
    ensures
        command_texts(files@) == seq![
            MUTATION_RECEIPT_FILE@,
            log_path(MUTATION_LOG_STEM@, "stdout"@),
            log_path(MUTATION_LOG_STEM@, "stderr"@),
        ],
{
    let mut files: Vec<String> = Vec::new();
    files.push(MUTATION_RECEIPT_FILE.to_owned());
    files.push(log_file(MUTATION_LOG_STEM, "stdout"));
    files.push(log_file(MUTATION_LOG_STEM, "stderr"));
    assert(command_texts(files@) =~= seq![
        MUTATION_RECEIPT_FILE@,
        log_path(MUTATION_LOG_STEM@, "stdout"@),
        log_path(MUTATION_LOG_STEM@, "stderr"@),
    ]);
    files
}

/// The receipt and the logs of an earlier fuzz campaign.
pub open spec fn stale_fuzz_paths() -> Seq<Seq<char>> {
    seq![
        FUZZ_RECEIPT_FILE@,
        log_path("fuzz-decoder"@, "stdout"@),
        log_path("fuzz-decoder"@, "stderr"@),
        log_path("fuzz-canonical"@, "stdout"@),
        log_path("fuzz-canonical"@, "stderr"@),
        log_path("fuzz-receipt-verifier"@, "stdout"@),
        log_path("fuzz-receipt-verifier"@, "stderr"@),
        log_path("fuzz-sqlite-ingest"@, "stdout"@),
        log_path("fuzz-sqlite-ingest"@, "stderr"@),
    ]
}

/// Lists the receipt and the logs of an earlier fuzz campaign.
pub fn stale_fuzz_files() -> (files: Vec<String>)
    ensures
        command_texts(files@) == stale_fuzz_paths(),
{
    let mut files: Vec<String> = Vec::new();
    files.push(FUZZ_RECEIPT_FILE.to_owned());
    files.push(log_file("fuzz-decoder", "stdout"));
    files.push(log_file("fuzz-decoder", "stderr"));
    files.push(log_file("fuzz-canonical", "stdout"));
    files.push(log_file("fuzz-canonical", "stderr"));
    files.push(log_file("fuzz-receipt-verifier", "stdout"));
    files.push(log_file("fuzz-receipt-verifier", "stderr"));
    files.push(log_file("fuzz-sqlite-ingest", "stdout"));
    files.push(log_file("fuzz-sqlite-ingest", "stderr"));
    assert(command_texts(files@) =~= stale_fuzz_paths());
    files
}

/// The targets of a fuzz receipt are accepted exactly where each is the one of its place, ran by the
/// command of a release for 120 seconds, and every file that it kept is its own and listed once.
pub proof fn law_fuzz_target_is_accepted_exactly(
    targets: Seq<ToolTargetEvidenceV1>,
    paths: Set<Seq<u8>>,
    i: int,
)
    requires
        0 <= i < 4,
    ensures
        recorded_target_step(targets, paths, i) is Ok ==> {
            let expected = fuzz_target_names()[i];
            &&& targets[i].target@ == expected.0
            &&& targets[i].log_stem@ == expected.1
            &&& targets[i].requested_duration_seconds == Some(120u64)
            &&& command_texts(targets[i].command@) == fuzz_command(expected.0, 120)
        },
        targets[i].artifacts@.len() == 0 ==> (recorded_target_step(targets, paths, i) is Ok <==> {
            let expected = fuzz_target_names()[i];
            &&& targets[i].target@ == expected.0
            &&& targets[i].log_stem@ == expected.1
            &&& targets[i].requested_duration_seconds == Some(120u64)
            &&& command_texts(targets[i].command@) == fuzz_command(expected.0, 120)
        }),
{
}

/// A file is recorded exactly where it is one of its target and was not recorded yet.
pub proof fn law_fuzz_artifact_is_recorded_exactly(
    target: Seq<char>,
    paths: Set<Seq<u8>>,
    artifact: ToolArtifactEvidenceV1,
)
    ensures
        recorded_step(target, paths, artifact) is Ok <==> {
            &&& exists|name: Seq<char>|
                is_artifact_file_name(name) && artifact.relative_path@
                    == #[trigger] artifact_path(target, name)
            &&& !paths.contains(utf8(artifact.relative_path@))
        },
        recorded_step(target, paths, artifact) matches Ok(after) ==> after == paths.insert(
            utf8(artifact.relative_path@),
        ),
{
}

/// A fuzz receipt is accepted exactly where it is that of `cargo-fuzz` 0.13.2 under its nightly
/// toolchain, has four targets, and the files that are there are those that it records.
pub proof fn law_fuzz_receipt_is_accepted_exactly(
    receipt: ToolReceiptV1,
    encoded: Seq<u8>,
    files: Map<Seq<u8>, ProofFile>,
    root: RetainedRoot,
    expected_commit: Seq<char>,
)
    ensures
        fuzz_refusal(receipt, encoded, files, root, expected_commit) is None <==> {
            let expected = ToolReceiptExpectationV1 {
                contract: "fuzz-receipt-v1",
                tool: "cargo-fuzz/libFuzzer",
                version: "0.13.2",
                toolchain: FUZZ_NIGHTLY,
                target_count: 4,
            };
            &&& retained_paths(root) is Ok
            &&& common_refusal(receipt, encoded, files, expected, expected_commit) is None
            &&& receipt.targets@.len() == 4
            &&& recorded_paths(receipt.targets@) is Ok
            &&& recorded_paths(receipt.targets@)->Ok_0 == retained_paths(root)->Ok_0
        },
{
}

/// A campaign passed exactly where its receipt says so and every target ended well after some time.
pub proof fn law_campaign_passed_exactly(receipt: ToolReceiptV1)
    ensures
        passed_refusal(receipt) is None <==> {
            &&& receipt.status is Passed
            &&& forall|i: int|
                0 <= i < receipt.targets@.len() ==> (#[trigger] receipt.targets@[i]).exit_code
                    == Some(0i32) && receipt.targets@[i].observed_duration_millis > 0
        },
{
    if passed_refusal(receipt) is None {
        assert forall|i: int| 0 <= i < receipt.targets@.len() implies (
        #[trigger] receipt.targets@[i]).exit_code == Some(0i32)
            && receipt.targets@[i].observed_duration_millis > 0 by {
            assert(target_succeeded(receipt.targets@[i]));
        }
    }
    if receipt.status is Passed && forall|i: int|
        0 <= i < receipt.targets@.len() ==> (#[trigger] receipt.targets@[i]).exit_code == Some(0i32)
            && receipt.targets@[i].observed_duration_millis > 0 {
        assert forall|i: int| 0 <= i < receipt.targets@.len() implies target_succeeded(
            #[trigger] receipt.targets@[i],
        ) && receipt.targets@[i].observed_duration_millis > 0 by {}
    }
}

/// A fuzz campaign may be released exactly where its receipt is accepted, it passed and it kept no
/// file.
pub proof fn law_fuzz_campaign_is_released_exactly(
    receipt: ToolReceiptV1,
    encoded: Seq<u8>,
    files: Map<Seq<u8>, ProofFile>,
    root: RetainedRoot,
    expected_commit: Seq<char>,
)
    ensures
        fuzz_release_refusal(receipt, encoded, files, root, expected_commit) is None <==> {
            &&& fuzz_refusal(receipt, encoded, files, root, expected_commit) is None
            &&& passed_refusal(receipt) is None
            &&& forall|i: int|
                0 <= i < receipt.targets@.len() ==> (
                #[trigger] receipt.targets@[i]).artifacts@.len() == 0
        },
{
}

/// A receipt is judged by the contract that it names, and one of another contract is refused.
pub proof fn law_receipt_is_judged_by_its_contract(
    receipt: ToolReceiptV1,
    encoded: Seq<u8>,
    files: Map<Seq<u8>, ProofFile>,
    root: RetainedRoot,
    expected_commit: Seq<char>,
)
    ensures
        receipt.contract_version@ == "mutation-receipt-v1"@ ==> tool_refusal(
            receipt,
            encoded,
            files,
            root,
            expected_commit,
        ) == mutation_refusal(receipt, encoded, files, expected_commit),
        receipt.contract_version@ == "fuzz-receipt-v1"@ ==> tool_refusal(
            receipt,
            encoded,
            files,
            root,
            expected_commit,
        ) == fuzz_refusal(receipt, encoded, files, root, expected_commit),
        receipt.contract_version@ != "mutation-receipt-v1"@ && receipt.contract_version@
            != "fuzz-receipt-v1"@ ==> tool_refusal(
            receipt,
            encoded,
            files,
            root,
            expected_commit,
        ) is Some,
{
    reveal_strlit("mutation-receipt-v1");
    reveal_strlit("fuzz-receipt-v1");
    assert("mutation-receipt-v1"@.len() == 19);
    assert("fuzz-receipt-v1"@.len() == 15);
}

/// Crash files are kept exactly where there are no more than 16 and each is a file with a plain name
/// of no more than 1 MiB.
pub proof fn law_crash_files_are_kept_exactly(ordered: Seq<CrashView>)
    ensures
        preserve_refusal(ordered) is None <==> {
            &&& ordered.len() <= 16
            &&& forall|i: int|
                0 <= i < ordered.len() ==> {
                    let entry = #[trigger] ordered[i];
                    &&& entry.is_file
                    &&& entry.text matches Some(name)
                    &&& is_artifact_file_name(name)
                    &&& entry.bytes.len() <= 1024 * 1024
                }
        },
{
    let refused = |entry: CrashView| crash_refusal(entry);
    lemma_no_first_fault(ordered, refused);
    if first_fault(ordered, refused) is None {
        assert forall|i: int| 0 <= i < ordered.len() implies ({
            let entry = #[trigger] ordered[i];
            &&& entry.is_file
            &&& entry.text matches Some(name)
            &&& is_artifact_file_name(name)
            &&& entry.bytes.len() <= 1024 * 1024
        }) by {
            assert(refused(ordered[i]) is None);
        }
    }
}

/// The evidence of a crash file names its path, its size and its hash.
pub proof fn law_crash_evidence_names_its_file(
    artifact: ToolArtifactEvidenceV1,
    target: Seq<char>,
    entry: CrashView,
)
    ensures
        is_evidence_of(artifact, target, entry) <==> {
            &&& artifact.relative_path@ == "fuzz-artifacts"@ + "/"@ + target + "/"@ + entry.text->0
            &&& artifact.byte_len == entry.bytes.len()
            &&& artifact.sha256@ == hex_text(sha256_of(entry.bytes))
        },
{
}

/// A fuzz campaign takes some time, and logs stand under plain names.
pub proof fn law_campaign_input_is_bounded(seconds: u64, log_stem: Seq<char>)
    ensures
        fuzz_duration_refusal(seconds) is None <==> seconds > 0,
        stem_refusal(log_stem) is None <==> is_log_stem(log_stem),
{
}

/// Before a campaign its receipt and both logs of every target are removed.
pub proof fn law_stale_evidence_of_every_target_is_removed(i: int)
    requires
        0 <= i < 4,
    ensures
        stale_fuzz_paths().len() == 9,
        stale_fuzz_paths()[0] == "fuzz-receipt.json"@,
        stale_fuzz_paths()[1 + 2 * i] == log_path(fuzz_target_names()[i].1, "stdout"@),
        stale_fuzz_paths()[2 + 2 * i] == log_path(fuzz_target_names()[i].1, "stderr"@),
{
}

} // verus!
