//! Receipts of mutation and fuzz campaigns, and what they must agree with.

use vstd::prelude::*;
use vstd::string::*;

use crate::bytemap::{ByteMap, ByteSet};
use crate::chars::characters;
use crate::digest::sha256_of;
use crate::error::{either_fault, fault_when};
use crate::evidence::{
    EvidenceError, EvidenceStatusV1, FUZZ_ARTIFACT_DIR, FUZZ_MAX_ARTIFACT_BYTES,
    FUZZ_MAX_ARTIFACT_COUNT, MUTATION_LOG_STEM, command_texts, fuzz_target_names, fuzz_targets,
    hash_prefixed_hex, is_artifact_file_name, is_log_stem, is_relative_path, mutation_command,
    mutation_target_command, prefixed_hex, refusal_of, refuse, safe_artifact_file_name,
    safe_log_stem, safe_proof_relative_path, sha256_hex,
};
use crate::folding::{
    first_fault, folded, lemma_first_fault_step, lemma_first_fault_stops, lemma_folded_step,
    lemma_folded_stops,
};
use crate::framing::utf8;
use crate::hexadecimal::hex_text;
use crate::text::{same_text, text5};

verus! {

/// A file that a campaign keeps.
#[derive(Clone, Debug, PartialEq, Eq)]
pub struct ToolArtifactEvidenceV1 {
    pub relative_path: String,
    pub byte_len: u64,
    pub sha256: String,
}

/// What came of one target of a campaign.
#[derive(Clone, Debug, PartialEq, Eq)]
pub struct ToolTargetEvidenceV1 {
    pub target: String,
    pub command: Vec<String>,
    pub requested_duration_seconds: Option<u64>,
    pub observed_duration_millis: u64,
    pub exit_code: Option<i32>,
    pub log_stem: String,
    pub stdout_digest: String,
    pub stderr_digest: String,
    pub artifacts: Vec<ToolArtifactEvidenceV1>,
}

/// The receipt of a campaign.
#[derive(Clone, Debug, PartialEq, Eq)]
pub struct ToolReceiptV1 {
    pub contract_version: String,
    pub tool: String,
    pub tool_version: String,
    pub toolchain: String,
    pub source_commit: String,
    pub status: EvidenceStatusV1,
    pub targets: Vec<ToolTargetEvidenceV1>,
    pub note: String,
    pub receipt_digest: String,
}

// ---------------------------------------------------------------------------------------------
// Texts

/// Whether a part stands at a place of a text.
pub open spec fn stands_at(text: Seq<char>, part: Seq<char>, i: int) -> bool {
    0 <= i && i + part.len() <= text.len() && text.subrange(i, i + part.len()) == part
}

/// Whether a part stands somewhere in a text.
pub open spec fn has_part(text: Seq<char>, part: Seq<char>) -> bool {
    exists|i: int| stands_at(text, part, i)
}

fn stands(list: &Vec<char>, part: &Vec<char>, place: usize) -> (yes: bool)
    requires
        place + part@.len() <= list@.len(),
    ensures
        yes == stands_at(list@, part@, place as int),
{
    let ghost found = list@.subrange(place as int, place + part@.len());
    let total: usize = list.len();
    let mut k: usize = 0;
    while k < part.len()
        invariant
            total == list@.len(),
            found == list@.subrange(place as int, place + part@.len()),
            place + part@.len() <= list@.len(),
            k <= part@.len(),
            forall|m: int| 0 <= m < k ==> #[trigger] found[m] == part@[m],
        decreases part@.len() - k,
    {
        if list[place + k] != part[k] {
            assert(found[k as int] != part@[k as int]);
            return false;
        }
        assert(found[k as int] == part@[k as int]);
        k += 1;
    }
    assert(found =~= part@);
    true
}

/// Recognises a text with a part in it.
pub fn contains_part(text: &str, part: &str) -> (yes: bool)
    ensures
        yes == has_part(text@, part@),
{
    let list = characters(text);
    let wanted = characters(part);
    if wanted.len() > list.len() {
        assert(forall|i: int| !stands_at(text@, part@, i));
        return false;
    }
    let last: usize = list.len() - wanted.len();
    let mut i: usize = 0;
    while i <= last
        invariant
            list@ == text@,
            wanted@ == part@,
            last + wanted@.len() == list@.len(),
            i <= last + 1,
            forall|k: int| 0 <= k < i ==> !stands_at(text@, part@, k),
        decreases last + 1 - i,
    {
        if stands(&list, &wanted, i) {
            return true;
        }
        if i == last {
            assert(forall|k: int| k > last ==> !stands_at(text@, part@, k));
            return false;
        }
        i += 1;
    }
    false
}

/// Compares two lists of texts.
pub fn same_texts(a: &Vec<String>, b: &Vec<String>) -> (same: bool)
    ensures
        same == (command_texts(a@) == command_texts(b@)),
{
    let ghost left = command_texts(a@);
    let ghost right = command_texts(b@);
    if a.len() != b.len() {
        assert(left.len() != right.len());
        return false;
    }
    let mut i: usize = 0;
    while i < a.len()
        invariant
            left == command_texts(a@),
            right == command_texts(b@),
            a@.len() == b@.len(),
            i <= a@.len(),
            forall|k: int| 0 <= k < i ==> #[trigger] left[k] == right[k],
        decreases a@.len() - i,
    {
        if !same_text(a[i].as_str(), b[i].as_str()) {
            assert(left[i as int] != right[i as int]);
            return false;
        }
        i += 1;
    }
    assert(left =~= right);
    true
}

// ---------------------------------------------------------------------------------------------
// Status and digest

/// Whether a target ran and failed.
pub open spec fn target_failed(target: ToolTargetEvidenceV1) -> bool {
    target.exit_code matches Some(code) && code != 0
}

/// Whether a target ran and succeeded.
pub open spec fn target_succeeded(target: ToolTargetEvidenceV1) -> bool {
    target.exit_code == Some(0i32)
}

/// How a campaign ended: a target that ran and failed makes it fail, and it passes where every
/// expected target ran and succeeded, with the supported tool, on a bound source.
pub open spec fn tool_status(
    targets: Seq<ToolTargetEvidenceV1>,
    expected_target_count: nat,
    supported_tool_version: bool,
    source_binding_complete: bool,
) -> EvidenceStatusV1 {
    if exists|i: int| 0 <= i < targets.len() && target_failed(#[trigger] targets[i]) {
        EvidenceStatusV1::Failed
    } else if targets.len() == expected_target_count && (forall|i: int|
        0 <= i < targets.len() ==> target_succeeded(#[trigger] targets[i]))
        && supported_tool_version && source_binding_complete {
        EvidenceStatusV1::Passed
    } else {
        EvidenceStatusV1::Inconclusive
    }
}

/// Judges a campaign.
pub fn classify_tool_evidence(
    targets: &[ToolTargetEvidenceV1],
    expected_target_count: usize,
    supported_tool_version: bool,
    source_binding_complete: bool,
) -> (status: EvidenceStatusV1)
    ensures
        status == tool_status(
            targets@,
            expected_target_count as nat,
            supported_tool_version,
            source_binding_complete,
        ),
{
    let mut all_succeeded = true;
    let mut i: usize = 0;
    while i < targets.len()
        invariant
            i <= targets@.len(),
            forall|k: int| 0 <= k < i ==> !target_failed(#[trigger] targets@[k]),
            all_succeeded == forall|k: int|
                0 <= k < i ==> target_succeeded(#[trigger] targets@[k]),
        decreases targets@.len() - i,
    {
        match targets[i].exit_code {
            Some(code) => {
                if code != 0 {
                    assert(target_failed(targets@[i as int]));
                    return EvidenceStatusV1::Failed;
                }
                assert(target_succeeded(targets@[i as int]));
            },
            None => {
                assert(!target_succeeded(targets@[i as int]));
                all_succeeded = false;
            },
        }
        i += 1;
    }
    if targets.len() == expected_target_count && all_succeeded && supported_tool_version
        && source_binding_complete {
        EvidenceStatusV1::Passed
    } else {
        EvidenceStatusV1::Inconclusive
    }
}

/// The digest of a receipt, from the bytes of everything in it but the digest.
pub fn tool_receipt_digest(encoded: &[u8]) -> (digest: String)
    ensures
        digest@ == prefixed_hex("naome-memory:tool-receipt:v1\0"@, encoded@),
{
    hash_prefixed_hex("naome-memory:tool-receipt:v1\0", encoded)
}

// ---------------------------------------------------------------------------------------------
// Files

/// A file below the directory that evidence is kept in: what the file system says of it, and its
/// bytes or why they could not be read.
#[derive(Debug)]
pub struct ProofFile {
    pub is_file: bool,
    pub is_symlink: bool,
    pub byte_len: u64,
    pub content: Result<Vec<u8>, String>,
}

/// The files that a receipt speaks of, by the bytes of their paths.
pub type ProofFiles = ByteMap<ProofFile>;

/// What a file system says of a file that is not there.
pub open spec fn missing_file() -> Seq<char> {
    "No such file or directory (os error 2)"@
}

/// The bytes of a file, or why they could not be read.
pub open spec fn content_at(files: Map<Seq<u8>, ProofFile>, path: Seq<char>) -> Result<
    Seq<u8>,
    Seq<char>,
> {
    if files.contains_key(utf8(path)) {
        match files[utf8(path)].content {
            Ok(bytes) => Ok(bytes@),
            Err(reason) => Err(reason@),
        }
    } else {
        Err(missing_file())
    }
}

fn read_file<'a>(files: &'a ProofFiles, path: &str) -> (content: Result<&'a Vec<u8>, EvidenceError>)
    ensures
        match content {
            Ok(bytes) => content_at(files@, path@) == Ok::<Seq<u8>, Seq<char>>(bytes@),
            Err(error) => content_at(files@, path@) == Err::<Seq<u8>, Seq<char>>(error@),
        },
{
    match files.get(path.as_bytes()) {
        Some(file) => match &file.content {
            Ok(bytes) => Ok(bytes),
            Err(reason) => Err(EvidenceError { message: reason.clone() }),
        },
        None => Err(refuse("No such file or directory (os error 2)")),
    }
}

/// Where the log of one stream of a target is kept.
pub open spec fn log_path(log_stem: Seq<char>, stream: Seq<char>) -> Seq<char> {
    "tool-logs/"@ + log_stem + "."@ + stream + ".log"@
}

/// Writes where the log of one stream of a target is kept.
pub fn log_file(log_stem: &str, stream: &str) -> (path: String)
    ensures
        path@ == log_path(log_stem@, stream@),
{
    text5("tool-logs/", log_stem, ".", stream, ".log")
}

/// Why an artifact of a target is refused.
pub open spec fn artifact_refusal(
    artifact: ToolArtifactEvidenceV1,
    files: Map<Seq<u8>, ProofFile>,
) -> Option<Seq<char>> {
    let key = utf8(artifact.relative_path@);
    either_fault(
        fault_when(
            !(is_relative_path(artifact.relative_path@) && artifact.byte_len
                <= FUZZ_MAX_ARTIFACT_BYTES),
            "tool target artifact path or size is outside the bounded contract"@,
        ),
        if !files.contains_key(key) {
            Some(missing_file())
        } else {
            let file = files[key];
            either_fault(
                fault_when(
                    !(file.is_file && !file.is_symlink && file.byte_len == artifact.byte_len),
                    "tool target artifact is not a bounded self-contained file"@,
                ),
                match file.content {
                    Err(reason) => Some(reason@),
                    Ok(bytes) => fault_when(
                        !(artifact.byte_len == bytes@.len() && artifact.sha256@ == hex_text(
                            sha256_of(bytes@),
                        )),
                        "tool target artifact digest or size does not match retained evidence"@,
                    ),
                },
            )
        },
    )
}

fn check_artifact(artifact: &ToolArtifactEvidenceV1, files: &ProofFiles) -> (verdict: Result<
    (),
    EvidenceError,
>)
    ensures
        refusal_of(verdict) == artifact_refusal(*artifact, files@),
{
    if !safe_proof_relative_path(artifact.relative_path.as_str()) || artifact.byte_len
        > FUZZ_MAX_ARTIFACT_BYTES {
        return Err(refuse("tool target artifact path or size is outside the bounded contract"));
    }
    match files.get(artifact.relative_path.as_str().as_bytes()) {
        None => Err(refuse("No such file or directory (os error 2)")),
        Some(file) => {
            if !file.is_file || file.is_symlink || file.byte_len != artifact.byte_len {
                return Err(refuse("tool target artifact is not a bounded self-contained file"));
            }
            match &file.content {
                Err(reason) => Err(EvidenceError { message: reason.clone() }),
                Ok(bytes) => {
                    let digest = sha256_hex(bytes.as_slice());
                    if artifact.byte_len != bytes.len() as u64 || !same_text(
                        artifact.sha256.as_str(),
                        digest.as_str(),
                    ) {
                        return Err(
                            refuse(
                                "tool target artifact digest or size does not match retained evidence",
                            ),
                        );
                    }
                    Ok(())
                },
            }
        },
    }
}

/// Why what a target left behind is refused.
pub open spec fn target_refusal(
    target: ToolTargetEvidenceV1,
    files: Map<Seq<u8>, ProofFile>,
) -> Option<Seq<char>> {
    if !is_log_stem(target.log_stem@) {
        Some("tool target log path is outside the bounded contract"@)
    } else {
        match content_at(files, log_path(target.log_stem@, "stdout"@)) {
            Err(reason) => Some(reason),
            Ok(stdout) => match content_at(files, log_path(target.log_stem@, "stderr"@)) {
                Err(reason) => Some(reason),
                Ok(stderr) => either_fault(
                    fault_when(
                        stdout.len() == 0 && stderr.len() == 0,
                        "tool target retained no process output"@,
                    ),
                    either_fault(
                        fault_when(
                            !(target.stdout_digest@ == hex_text(sha256_of(stdout))
                                && target.stderr_digest@ == hex_text(sha256_of(stderr))),
                            "tool target output digest does not match its retained log"@,
                        ),
                        either_fault(
                            fault_when(
                                target.artifacts@.len() > FUZZ_MAX_ARTIFACT_COUNT,
                                "tool target retained too many bounded artifacts"@,
                            ),
                            first_fault(
                                target.artifacts@,
                                |artifact: ToolArtifactEvidenceV1|
                                    artifact_refusal(artifact, files),
                            ),
                        ),
                    ),
                ),
            },
        }
    }
}

#[verifier::loop_isolation(false)]
fn check_target(target: &ToolTargetEvidenceV1, files: &ProofFiles) -> (verdict: Result<
    (),
    EvidenceError,
>)
    ensures
        refusal_of(verdict) == target_refusal(*target, files@),
{
    if !safe_log_stem(target.log_stem.as_str()) {
        return Err(refuse("tool target log path is outside the bounded contract"));
    }
    let stdout_path = log_file(target.log_stem.as_str(), "stdout");
    let stdout = match read_file(files, stdout_path.as_str()) {
        Ok(bytes) => bytes,
        Err(error) => {
            return Err(error);
        },
    };
    let stderr_path = log_file(target.log_stem.as_str(), "stderr");
    let stderr = match read_file(files, stderr_path.as_str()) {
        Ok(bytes) => bytes,
        Err(error) => {
            return Err(error);
        },
    };
    if stdout.len() == 0 && stderr.len() == 0 {
        return Err(refuse("tool target retained no process output"));
    }
    let stdout_digest = sha256_hex(stdout.as_slice());
    let stderr_digest = sha256_hex(stderr.as_slice());
    if !same_text(target.stdout_digest.as_str(), stdout_digest.as_str()) || !same_text(
        target.stderr_digest.as_str(),
        stderr_digest.as_str(),
    ) {
        return Err(refuse("tool target output digest does not match its retained log"));
    }
    if target.artifacts.len() > FUZZ_MAX_ARTIFACT_COUNT {
        return Err(refuse("tool target retained too many bounded artifacts"));
    }
    let ghost all = target.artifacts@;
    let ghost refused = |artifact: ToolArtifactEvidenceV1| artifact_refusal(artifact, files@);
    let mut i: usize = 0;
    assert(all.subrange(0, 0) =~= Seq::<ToolArtifactEvidenceV1>::empty());
    while i < target.artifacts.len()
        invariant
            i <= all.len() == target.artifacts@.len(),
            first_fault(all.subrange(0, i as int), refused) is None,
        decreases all.len() - i,
    {
        proof {
            lemma_first_fault_step(all, refused, i as int);
        }
        match check_artifact(&target.artifacts[i], files) {
            Ok(_) => {},
            Err(error) => {
                proof {
                    lemma_first_fault_stops(all, refused, i + 1);
                }
                return Err(error);
            },
        }
        i += 1;
    }
    assert(all.subrange(0, i as int) =~= all);
    Ok(())
}

// ---------------------------------------------------------------------------------------------
// Receipts

/// What a receipt must say of the campaign.
#[derive(Clone, Debug)]
pub struct ToolReceiptExpectationV1<'a> {
    pub contract: &'a str,
    pub tool: &'a str,
    pub version: &'a str,
    pub toolchain: &'a str,
    pub target_count: usize,
}

/// Whether what a receipt says of its campaign closes.
pub open spec fn metadata_closes(
    receipt: ToolReceiptV1,
    encoded: Seq<u8>,
    expected: ToolReceiptExpectationV1<'_>,
    expected_commit: Seq<char>,
) -> bool {
    &&& receipt.contract_version@ == expected.contract@
    &&& receipt.tool@ == expected.tool@
    &&& has_part(receipt.tool_version@, expected.version@)
    &&& receipt.toolchain@ == expected.toolchain@
    &&& receipt.source_commit@ == expected_commit
    &&& receipt.status == tool_status(
        receipt.targets@,
        expected.target_count as nat,
        true,
        true,
    )
    &&& receipt.receipt_digest@ == prefixed_hex("naome-memory:tool-receipt:v1\0"@, encoded)
}

/// Why a receipt is refused, whatever its campaign.
pub open spec fn common_refusal(
    receipt: ToolReceiptV1,
    encoded: Seq<u8>,
    files: Map<Seq<u8>, ProofFile>,
    expected: ToolReceiptExpectationV1<'_>,
    expected_commit: Seq<char>,
) -> Option<Seq<char>> {
    either_fault(
        fault_when(
            !metadata_closes(receipt, encoded, expected, expected_commit),
            "tool receipt metadata, source, status, or digest does not close"@,
        ),
        first_fault(receipt.targets@, |target: ToolTargetEvidenceV1| target_refusal(target, files)),
    )
}

/// Checks a receipt, whatever its campaign: against the bytes of everything in it but the digest,
/// against the files that it speaks of, and against the commit that is checked out.
#[verifier::loop_isolation(false)]
pub fn verify_tool_receipt_common(
    receipt: &ToolReceiptV1,
    encoded: &[u8],
    files: &ProofFiles,
    expected: &ToolReceiptExpectationV1<'_>,
    expected_commit: &str,
) -> (verdict: Result<(), EvidenceError>)
    ensures
        refusal_of(verdict) == common_refusal(
            *receipt,
            encoded@,
            files@,
            *expected,
            expected_commit@,
        ),
{
    let status = classify_tool_evidence(
        receipt.targets.as_slice(),
        expected.target_count,
        true,
        true,
    );
    let digest = tool_receipt_digest(encoded);
    if !same_text(receipt.contract_version.as_str(), expected.contract) || !same_text(
        receipt.tool.as_str(),
        expected.tool,
    ) || !contains_part(receipt.tool_version.as_str(), expected.version) || !same_text(
        receipt.toolchain.as_str(),
        expected.toolchain,
    ) || !same_text(receipt.source_commit.as_str(), expected_commit) || receipt.status != status
        || !same_text(receipt.receipt_digest.as_str(), digest.as_str()) {
        return Err(refuse("tool receipt metadata, source, status, or digest does not close"));
    }
    let ghost all = receipt.targets@;
    let ghost refused = |target: ToolTargetEvidenceV1| target_refusal(target, files@);
    let mut i: usize = 0;
    assert(all.subrange(0, 0) =~= Seq::<ToolTargetEvidenceV1>::empty());
    while i < receipt.targets.len()
        invariant
            i <= all.len() == receipt.targets@.len(),
            first_fault(all.subrange(0, i as int), refused) is None,
        decreases all.len() - i,
    {
        proof {
            lemma_first_fault_step(all, refused, i as int);
        }
        match check_target(&receipt.targets[i], files) {
            Ok(_) => {},
            Err(error) => {
                proof {
                    lemma_first_fault_stops(all, refused, i + 1);
                }
                return Err(error);
            },
        }
        i += 1;
    }
    assert(all.subrange(0, i as int) =~= all);
    Ok(())
}

/// What the receipt of a mutation campaign must say.
pub open spec fn mutation_expectation() -> ToolReceiptExpectationV1<'static> {
    ToolReceiptExpectationV1 {
        contract: "mutation-receipt-v1",
        tool: "cargo-mutants",
        version: "27.1.0",
        toolchain: "1.95.0",
        target_count: 1,
    }
}

/// Whether a receipt has the one target of a mutation campaign.
pub open spec fn has_mutation_target(receipt: ToolReceiptV1) -> bool {
    &&& receipt.targets@.len() == 1
    &&& receipt.targets@[0].target@ == "naome-memory-core"@
    &&& receipt.targets@[0].log_stem@ == MUTATION_LOG_STEM@
    &&& receipt.targets@[0].requested_duration_seconds is None
    &&& command_texts(receipt.targets@[0].command@) == mutation_command("1.95.0"@)
    &&& receipt.targets@[0].artifacts@.len() == 0
}

/// Why the receipt of a mutation campaign is refused.
pub open spec fn mutation_refusal(
    receipt: ToolReceiptV1,
    encoded: Seq<u8>,
    files: Map<Seq<u8>, ProofFile>,
    expected_commit: Seq<char>,
) -> Option<Seq<char>> {
    either_fault(
        common_refusal(receipt, encoded, files, mutation_expectation(), expected_commit),
        fault_when(
            !has_mutation_target(receipt),
            "mutation receipt target or command differs from the release gate"@,
        ),
    )
}

/// Checks the receipt of a mutation campaign, however the campaign ended.
pub fn verify_mutation_receipt_evidence(
    receipt: &ToolReceiptV1,
    encoded: &[u8],
    files: &ProofFiles,
    expected_commit: &str,
) -> (verdict: Result<(), EvidenceError>)
    ensures
        refusal_of(verdict) == mutation_refusal(*receipt, encoded@, files@, expected_commit@),
{
    let expected = ToolReceiptExpectationV1 {
        contract: "mutation-receipt-v1",
        tool: "cargo-mutants",
        version: "27.1.0",
        toolchain: "1.95.0",
        target_count: 1,
    };
    verify_tool_receipt_common(receipt, encoded, files, &expected, expected_commit)?;
    let command = mutation_target_command("1.95.0");
    if receipt.targets.len() != 1 {
        return Err(refuse("mutation receipt target or command differs from the release gate"));
    }
    let target = &receipt.targets[0];
    if !same_text(target.target.as_str(), "naome-memory-core") || !same_text(
        target.log_stem.as_str(),
        MUTATION_LOG_STEM,
    ) || target.requested_duration_seconds.is_some() || !same_texts(&target.command, &command)
        || target.artifacts.len() != 0 {
        return Err(refuse("mutation receipt target or command differs from the release gate"));
    }
    Ok(())
}

// ---------------------------------------------------------------------------------------------
// The artifacts of fuzz targets

/// A file among the artifacts of a fuzz target. The name is missing where it is not UTF-8.
#[derive(Clone, Debug)]
pub struct RetainedFile {
    pub is_file: bool,
    pub name: Option<String>,
    pub byte_len: u64,
}

/// A directory among the artifacts of a fuzz campaign. The name is missing where it is not UTF-8.
#[derive(Clone, Debug)]
pub struct RetainedTarget {
    pub is_dir: bool,
    pub name: Option<String>,
    pub files: Vec<RetainedFile>,
}

/// Where a fuzz campaign keeps its artifacts.
#[derive(Clone, Debug)]
pub enum RetainedRoot {
    Absent,
    NotADirectory,
    Directory(Vec<RetainedTarget>),
}

/// The path of an artifact of a fuzz target.
pub open spec fn artifact_path(target: Seq<char>, name: Seq<char>) -> Seq<char> {
    FUZZ_ARTIFACT_DIR@ + "/"@ + target + "/"@ + name
}

/// Writes the path of an artifact of a fuzz target.
pub fn artifact_file(target: &str, name: &str) -> (path: String)
    ensures
        path@ == artifact_path(target@, name@),
{
    text5(FUZZ_ARTIFACT_DIR, "/", target, "/", name)
}

/// Whether a name is that of a fuzz target.
pub open spec fn is_fuzz_target(name: Seq<char>) -> bool {
    exists|i: int|
        0 <= i < fuzz_target_names().len() && (#[trigger] fuzz_target_names()[i]).0 == name
}

fn known_fuzz_target(name: &str) -> (known: bool)
    ensures
        known == is_fuzz_target(name@),
{
    let targets = fuzz_targets();
    let ghost names = fuzz_target_names();
    let ghost pairs = targets@.map_values(
        |target: (&'static str, &'static str)| (target.0@, target.1@),
    );
    let mut i: usize = 0;
    while i < 4
        invariant
            names == fuzz_target_names(),
            names.len() == 4,
            pairs == names,
            pairs == targets@.map_values(
                |target: (&'static str, &'static str)| (target.0@, target.1@),
            ),
            i <= 4,
            forall|k: int| 0 <= k < i ==> (#[trigger] names[k]).0 != name@,
        decreases 4 - i,
    {
        let (target, log_stem) = targets[i];
        assert(pairs[i as int] == (target@, log_stem@));
        if same_text(target, name) {
            assert(names[i as int].0 == name@);
            return true;
        }
        i += 1;
    }
    false
}

/// The paths found so far, and how many of them belong to the target at hand.
#[verifier::ext_equal]
pub struct RetainedState {
    pub paths: Set<Seq<u8>>,
    pub count: nat,
}

/// Takes one more file of a target in.
pub open spec fn retained_file_step(
    target: Seq<char>,
    state: RetainedState,
    file: RetainedFile,
) -> Result<RetainedState, Seq<char>> {
    if !file.is_file {
        Err("fuzz artifact target contains a non-file entry"@)
    } else if file.name is None {
        Err("fuzz artifact name is not UTF-8"@)
    } else if !is_artifact_file_name(file.name->0@) {
        Err("fuzz artifact name is unsafe"@)
    } else if file.byte_len > FUZZ_MAX_ARTIFACT_BYTES {
        Err("fuzz artifact exceeds the bounded evidence limit"@)
    } else if state.count + 1 > FUZZ_MAX_ARTIFACT_COUNT {
        Err("fuzz target retained too many crash artifacts"@)
    } else if state.paths.contains(utf8(artifact_path(target, file.name->0@))) {
        Err("duplicate fuzz artifact path"@)
    } else {
        Ok(
            RetainedState {
                paths: state.paths.insert(utf8(artifact_path(target, file.name->0@))),
                count: state.count + 1,
            },
        )
    }
}

/// Takes the files of one more target in.
pub open spec fn retained_target_step(paths: Set<Seq<u8>>, target: RetainedTarget) -> Result<
    Set<Seq<u8>>,
    Seq<char>,
> {
    if !target.is_dir {
        Err("fuzz artifact root contains a non-directory entry"@)
    } else if target.name is None {
        Err("fuzz artifact target is not UTF-8"@)
    } else if !is_fuzz_target(target.name->0@) {
        Err("fuzz artifact belongs to an unknown target"@)
    } else {
        match folded(
            target.files@,
            RetainedState { paths, count: 0 },
            |state: RetainedState, file: RetainedFile|
                retained_file_step(target.name->0@, state, file),
        ) {
            Ok(state) => Ok(state.paths),
            Err(reason) => Err(reason),
        }
    }
}

/// The paths of the artifacts that a fuzz campaign keeps.
pub open spec fn retained_paths(root: RetainedRoot) -> Result<Set<Seq<u8>>, Seq<char>> {
    match root {
        RetainedRoot::Absent => Ok(Set::empty()),
        RetainedRoot::NotADirectory => Err(
            "fuzz artifact root is not a self-contained directory"@,
        ),
        RetainedRoot::Directory(targets) => folded(
            targets@,
            Set::empty(),
            |paths: Set<Seq<u8>>, target: RetainedTarget| retained_target_step(paths, target),
        ),
    }
}

fn take_retained_file(
    target: &str,
    paths: &mut ByteSet,
    count: usize,
    file: &RetainedFile,
) -> (next: Result<usize, EvidenceError>)
    ensures
        match next {
            Ok(next) => retained_file_step(
                target@,
                (RetainedState { paths: old(paths)@, count: count as nat }),
                *file,
            ) == Ok::<RetainedState, Seq<char>>(
                (RetainedState { paths: final(paths)@, count: next as nat }),
            ),
            Err(error) => retained_file_step(
                target@,
                (RetainedState { paths: old(paths)@, count: count as nat }),
                *file,
            ) == Err::<RetainedState, Seq<char>>(error@),
        },
{
    if !file.is_file {
        return Err(refuse("fuzz artifact target contains a non-file entry"));
    }
    match &file.name {
        None => Err(refuse("fuzz artifact name is not UTF-8")),
        Some(name) => {
            if !safe_artifact_file_name(name.as_str()) {
                return Err(refuse("fuzz artifact name is unsafe"));
            }
            if file.byte_len > FUZZ_MAX_ARTIFACT_BYTES {
                return Err(refuse("fuzz artifact exceeds the bounded evidence limit"));
            }
            if count >= FUZZ_MAX_ARTIFACT_COUNT {
                return Err(refuse("fuzz target retained too many crash artifacts"));
            }
            let path = artifact_file(target, name.as_str());
            if !paths.insert(path.as_str().as_bytes()) {
                return Err(refuse("duplicate fuzz artifact path"));
            }
            Ok(count + 1)
        },
    }
}

#[verifier::loop_isolation(false)]
fn take_retained_target(paths: &mut ByteSet, target: &RetainedTarget) -> (verdict: Result<
    (),
    EvidenceError,
>)
    ensures
        match verdict {
            Ok(_) => retained_target_step(old(paths)@, *target) == Ok::<Set<Seq<u8>>, Seq<char>>(
                final(paths)@,
            ),
            Err(error) => retained_target_step(old(paths)@, *target) == Err::<
                Set<Seq<u8>>,
                Seq<char>,
            >(error@),
        },
{
    if !target.is_dir {
        return Err(refuse("fuzz artifact root contains a non-directory entry"));
    }
    match &target.name {
        None => Err(refuse("fuzz artifact target is not UTF-8")),
        Some(name) => {
            if !known_fuzz_target(name.as_str()) {
                return Err(refuse("fuzz artifact belongs to an unknown target"));
            }
            let ghost files = target.files@;
            let ghost start = RetainedState { paths: paths@, count: 0 };
            let ghost step = |state: RetainedState, file: RetainedFile|
                retained_file_step(target.name->0@, state, file);
            let mut count: usize = 0;
            let mut i: usize = 0;
            assert(files.subrange(0, 0) =~= Seq::<RetainedFile>::empty());
            while i < target.files.len()
                invariant
                    i <= files.len() == target.files@.len(),
                    folded(files.subrange(0, i as int), start, step) == Ok::<
                        RetainedState,
                        Seq<char>,
                    >((RetainedState { paths: paths@, count: count as nat })),
                decreases files.len() - i,
            {
                proof {
                    lemma_folded_step(files, start, step, i as int);
                }
                match take_retained_file(name.as_str(), paths, count, &target.files[i]) {
                    Ok(next) => {
                        count = next;
                    },
                    Err(error) => {
                        proof {
                            lemma_folded_stops(files, start, step, i + 1);
                        }
                        return Err(error);
                    },
                }
                i += 1;
            }
            assert(files.subrange(0, i as int) =~= files);
            Ok(())
        },
    }
}

/// Lists the artifacts that a fuzz campaign keeps.
#[verifier::loop_isolation(false)]
pub fn retained_fuzz_artifact_paths(root: &RetainedRoot) -> (retained: Result<
    ByteSet,
    EvidenceError,
>)
    ensures
        match retained {
            Ok(paths) => retained_paths(*root) == Ok::<Set<Seq<u8>>, Seq<char>>(paths@),
            Err(error) => retained_paths(*root) == Err::<Set<Seq<u8>>, Seq<char>>(error@),
        },
{
    match root {
        RetainedRoot::Absent => Ok(ByteSet::new()),
        RetainedRoot::NotADirectory => Err(
            refuse("fuzz artifact root is not a self-contained directory"),
        ),
        RetainedRoot::Directory(targets) => {
            let ghost all = targets@;
            let ghost start = Set::<Seq<u8>>::empty();
            let ghost step = |paths: Set<Seq<u8>>, target: RetainedTarget|
                retained_target_step(paths, target);
            let mut paths = ByteSet::new();
            let mut i: usize = 0;
            assert(all.subrange(0, 0) =~= Seq::<RetainedTarget>::empty());
            while i < targets.len()
                invariant
                    i <= all.len() == targets@.len(),
                    folded(all.subrange(0, i as int), start, step) == Ok::<
                        Set<Seq<u8>>,
                        Seq<char>,
                    >(paths@),
                decreases all.len() - i,
            {
                proof {
                    lemma_folded_step(all, start, step, i as int);
                }
                match take_retained_target(&mut paths, &targets[i]) {
                    Ok(_) => {},
                    Err(error) => {
                        proof {
                            lemma_folded_stops(all, start, step, i + 1);
                        }
                        return Err(error);
                    },
                }
                i += 1;
            }
            assert(all.subrange(0, i as int) =~= all);
            Ok(paths)
        },
    }
}

/// A campaign is failed exactly where a target ended with an error, and passed exactly where every
/// expected target ended well, the tool is of a supported version and the source is bound.
pub proof fn law_campaign_is_classified_exactly(
    targets: Seq<ToolTargetEvidenceV1>,
    expected_target_count: nat,
    supported_tool_version: bool,
    source_binding_complete: bool,
)
    ensures
        ({
            let status = tool_status(
                targets,
                expected_target_count,
                supported_tool_version,
                source_binding_complete,
            );
            &&& status is Failed <==> exists|i: int|
                0 <= i < targets.len() && (#[trigger] targets[i]).exit_code is Some
                    && targets[i].exit_code->0 != 0
            &&& status is Passed <==> {
                &&& targets.len() == expected_target_count
                &&& supported_tool_version
                &&& source_binding_complete
                &&& forall|i: int|
                    0 <= i < targets.len() ==> (#[trigger] targets[i]).exit_code == Some(0i32)
            }
        }),
{
    if exists|i: int|
        0 <= i < targets.len() && (#[trigger] targets[i]).exit_code is Some
            && targets[i].exit_code->0 != 0 {
        let i = choose|i: int|
            0 <= i < targets.len() && (#[trigger] targets[i]).exit_code is Some
                && targets[i].exit_code->0 != 0;
        assert(target_failed(targets[i]));
    }
    if exists|i: int| 0 <= i < targets.len() && target_failed(#[trigger] targets[i]) {
        let i = choose|i: int| 0 <= i < targets.len() && target_failed(#[trigger] targets[i]);
        assert(targets[i].exit_code->0 != 0);
    }
    if forall|i: int| 0 <= i < targets.len() ==> (#[trigger] targets[i]).exit_code == Some(0i32) {
        assert forall|i: int| 0 <= i < targets.len() implies target_succeeded(
            #[trigger] targets[i],
        ) by {}
    }
    if forall|i: int| 0 <= i < targets.len() ==> target_succeeded(#[trigger] targets[i]) {
        assert forall|i: int| 0 <= i < targets.len() implies (#[trigger] targets[i]).exit_code
            == Some(0i32) by {
            assert(target_succeeded(targets[i]));
        }
    }
}

/// A kept file is accepted exactly where it stays below its directory, is no larger than 1 MiB, is a
/// file and no link, and its bytes have the size and the hash of the evidence.
pub proof fn law_kept_file_is_accepted_exactly(
    artifact: ToolArtifactEvidenceV1,
    files: Map<Seq<u8>, ProofFile>,
)
    ensures
        artifact_refusal(artifact, files) is None <==> {
            let file = files[utf8(artifact.relative_path@)];
            &&& is_relative_path(artifact.relative_path@)
            &&& artifact.byte_len <= 1024 * 1024
            &&& files.contains_key(utf8(artifact.relative_path@))
            &&& file.is_file
            &&& !file.is_symlink
            &&& file.byte_len == artifact.byte_len
            &&& file.content matches Ok(bytes)
            &&& bytes@.len() == artifact.byte_len
            &&& artifact.sha256@ == hex_text(sha256_of(bytes@))
        },
{
}

/// The evidence of a target is accepted exactly where both of its logs are there, not both are
/// empty, they have the hashes of the evidence, and no more than 16 files were kept, each accepted.
pub proof fn law_target_is_accepted_exactly(
    target: ToolTargetEvidenceV1,
    files: Map<Seq<u8>, ProofFile>,
)
    ensures
        target_refusal(target, files) is None <==> {
            let stdout = content_at(files, log_path(target.log_stem@, "stdout"@));
            let stderr = content_at(files, log_path(target.log_stem@, "stderr"@));
            &&& is_log_stem(target.log_stem@)
            &&& stdout is Ok
            &&& stderr is Ok
            &&& stdout->Ok_0.len() > 0 || stderr->Ok_0.len() > 0
            &&& target.stdout_digest@ == hex_text(sha256_of(stdout->Ok_0))
            &&& target.stderr_digest@ == hex_text(sha256_of(stderr->Ok_0))
            &&& target.artifacts@.len() <= 16
            &&& forall|i: int|
                0 <= i < target.artifacts@.len() ==> artifact_refusal(
                    #[trigger] target.artifacts@[i],
                    files,
                ) is None
        },
{
    let refused = |artifact: ToolArtifactEvidenceV1| artifact_refusal(artifact, files);
    crate::folding::lemma_no_first_fault(target.artifacts@, refused);
    if first_fault(target.artifacts@, refused) is None {
        assert forall|i: int| 0 <= i < target.artifacts@.len() implies artifact_refusal(
            #[trigger] target.artifacts@[i],
            files,
        ) is None by {
            assert(refused(target.artifacts@[i]) is None);
        }
    }
}

/// A log is there exactly where it could be read, and is what was read.
pub proof fn law_log_is_what_was_read(files: Map<Seq<u8>, ProofFile>, path: Seq<char>)
    ensures
        content_at(files, path) is Ok <==> files.contains_key(utf8(path)) && files[utf8(
            path,
        )].content is Ok,
        content_at(files, path) matches Ok(bytes) ==> bytes == files[utf8(path)].content->Ok_0@,
{
}

/// A receipt is accepted exactly where it is of the expected contract, tool, version, toolchain and
/// commit, has the status of its targets, its own digest, and every target is accepted.
pub proof fn law_tool_receipt_is_accepted_exactly(
    receipt: ToolReceiptV1,
    encoded: Seq<u8>,
    files: Map<Seq<u8>, ProofFile>,
    expected: ToolReceiptExpectationV1<'_>,
    expected_commit: Seq<char>,
)
    ensures
        common_refusal(receipt, encoded, files, expected, expected_commit) is None <==> {
            &&& receipt.contract_version@ == expected.contract@
            &&& receipt.tool@ == expected.tool@
            &&& has_part(receipt.tool_version@, expected.version@)
            &&& receipt.toolchain@ == expected.toolchain@
            &&& receipt.source_commit@ == expected_commit
            &&& receipt.status == tool_status(
                receipt.targets@,
                expected.target_count as nat,
                true,
                true,
            )
            &&& receipt.receipt_digest@ == hex_text(
                sha256_of(utf8("naome-memory:tool-receipt:v1\0"@) + encoded),
            )
            &&& forall|i: int|
                0 <= i < receipt.targets@.len() ==> target_refusal(
                    #[trigger] receipt.targets@[i],
                    files,
                ) is None
        },
{
    let refused = |target: ToolTargetEvidenceV1| target_refusal(target, files);
    crate::folding::lemma_no_first_fault(receipt.targets@, refused);
    if first_fault(receipt.targets@, refused) is None {
        assert forall|i: int| 0 <= i < receipt.targets@.len() implies target_refusal(
            #[trigger] receipt.targets@[i],
            files,
        ) is None by {
            assert(refused(receipt.targets@[i]) is None);
        }
    }
}

/// A mutation receipt is accepted exactly where it is that of `cargo-mutants` 27.1.0 under the
/// toolchain 1.95.0 and its one target is the decision core, run by the command of a release with no
/// time limit and keeping nothing.
pub proof fn law_mutation_receipt_is_accepted_exactly(
    receipt: ToolReceiptV1,
    encoded: Seq<u8>,
    files: Map<Seq<u8>, ProofFile>,
    expected_commit: Seq<char>,
)
    ensures
        mutation_refusal(receipt, encoded, files, expected_commit) is None <==> {
            let expected = ToolReceiptExpectationV1 {
                contract: "mutation-receipt-v1",
                tool: "cargo-mutants",
                version: "27.1.0",
                toolchain: "1.95.0",
                target_count: 1,
            };
            &&& common_refusal(receipt, encoded, files, expected, expected_commit) is None
            &&& receipt.targets@.len() == 1
            &&& receipt.targets@[0].target@ == "naome-memory-core"@
            &&& receipt.targets@[0].log_stem@ == "mutation-naome-memory-core"@
            &&& receipt.targets@[0].requested_duration_seconds is None
            &&& command_texts(receipt.targets@[0].command@) == mutation_command("1.95.0"@)
            &&& receipt.targets@[0].artifacts@.len() == 0
        },
{
}

/// A text has a part exactly where it is something, the part and something.
pub proof fn law_part_stands_within_its_text(
    before: Seq<char>,
    part: Seq<char>,
    after: Seq<char>,
)
    ensures
        has_part(before + part + after, part),
        part.len() > before.len() ==> !has_part(before, part),
{
    let text = before + part + after;
    assert(text.subrange(
        before.len() as int,
        before.len() as int + part.len() as int,
    ) =~= part);
    assert(stands_at(text, part, before.len() as int));
}

/// The kept files of a target are listed exactly: one more is taken where it is a file with a plain
/// name of no more than 1 MiB, is at most the sixteenth and is not there yet.
pub proof fn law_kept_files_are_listed_exactly(
    target: Seq<char>,
    state: RetainedState,
    file: RetainedFile,
)
    ensures
        retained_file_step(target, state, file) is Ok <==> {
            &&& file.is_file
            &&& file.name matches Some(name)
            &&& is_artifact_file_name(name@)
            &&& file.byte_len <= 1024 * 1024
            &&& state.count < 16
            &&& !state.paths.contains(
                utf8("fuzz-artifacts"@ + "/"@ + target + "/"@ + name@),
            )
        },
        retained_file_step(target, state, file) matches Ok(after) ==> {
            &&& after.count == state.count + 1
            &&& after.paths == state.paths.insert(
                utf8("fuzz-artifacts"@ + "/"@ + target + "/"@ + file.name->0@),
            )
        },
{
}

/// Nothing is kept where there is no directory; what is no directory is refused; and a directory of
/// a target is taken exactly where it is one of the four.
pub proof fn law_kept_directories_are_of_known_targets(
    paths: Set<Seq<u8>>,
    target: RetainedTarget,
)
    ensures
        retained_paths(RetainedRoot::Absent) == Ok::<_, Seq<char>>(Set::<Seq<u8>>::empty()),
        retained_paths(RetainedRoot::NotADirectory) is Err,
        retained_target_step(paths, target) is Ok ==> {
            &&& target.is_dir
            &&& target.name matches Some(name)
            &&& name@ == "decoder"@ || name@ == "canonical"@ || name@ == "receipt_verifier"@
                || name@ == "sqlite_ingest"@
        },
        target.is_dir && target.files@.len() == 0 && (target.name matches Some(name) && (name@
            == "decoder"@ || name@ == "canonical"@ || name@ == "receipt_verifier"@ || name@
            == "sqlite_ingest"@)) ==> retained_target_step(paths, target) == Ok::<_, Seq<char>>(
            paths,
        ),
{
    let names = fuzz_target_names();
    assert(names[0].0 == "decoder"@);
    assert(names[1].0 == "canonical"@);
    assert(names[2].0 == "receipt_verifier"@);
    assert(names[3].0 == "sqlite_ingest"@);
}

} // verus!
