//! What a release asks: the claims of the deep proof, and evidence that is all of one commit.

use vstd::prelude::*;
use vstd::string::*;

use crate::campaigns::{
    fuzz_refusal, fuzz_release_refusal, keeps_nothing, passed_refusal, verify_fuzz_receipt,
    verify_mutation_receipt,
};
use crate::error::{either_fault, fault_when};
use crate::evidence::{EvidenceError, EvidenceStatusV1, refusal_of, refuse};
use crate::receipt_fields::ProofReceipt;
use crate::scale_report::{
    ReadDigest, ScaleDigests, ScaleReceiptV1, binding_refusal, status_refusal, structure_refusal,
    verify_scale_core_binding, verify_scale_receipt,
};
use crate::text::{decimal, decimal_text, optional_text, same_bytes, same_text, text3};
use crate::tool_receipts::{ProofFiles, RetainedRoot, ToolReceiptV1, mutation_refusal};

verus! {

// ---------------------------------------------------------------------------------------------
// The version

/// The text that `toml` finds in a document under three keys, each within the table under the one
/// before, or what it says of a document that it refuses.
pub uninterp spec fn toml_text(
    document: Seq<char>,
    table: Seq<char>,
    inner: Seq<char>,
    key: Seq<char>,
) -> Result<Option<Seq<char>>, Seq<char>>;

/// The mathematical content of what `toml` finds.
pub open spec fn found_text(found: Result<Option<String>, String>) -> Result<
    Option<Seq<char>>,
    Seq<char>,
> {
    match found {
        Ok(text) => Ok(optional_text(text)),
        Err(reason) => Err(reason@),
    }
}

/// Calls `toml::from_str` for a `toml::Value`, follows three keys with `toml::Value::get`, and
/// gives the text that `toml::Value::as_str` finds there, or the text of the parser's error.
#[verifier::external_body]
fn toml_text_at(document: &str, table: &str, inner: &str, key: &str) -> (found: Result<
    Option<String>,
    String,
>)
    ensures
        found_text(found) == toml_text(document@, table@, inner@, key@),
{
    let value = toml::from_str::<toml::Value>(document).map_err(|error| error.to_string())?;
    let outer = value.get(table).and_then(|value| value.get(inner));
    Ok(outer.and_then(|value| value.get(key)).and_then(toml::Value::as_str).map(str::to_owned))
}

/// Why a version is refused for what a manifest says.
pub open spec fn version_refusal(
    found: Result<Option<Seq<char>>, Seq<char>>,
    version: Seq<char>,
) -> Option<Seq<char>> {
    match found {
        Err(reason) => Some(reason),
        Ok(None) => Some("workspace.package.version is missing"@),
        Ok(Some(workspace_version)) => fault_when(
            workspace_version != version,
            "tag version does not match Cargo workspace version"@,
        ),
    }
}

/// Accepts a version by what was found in a manifest.
pub fn judge_version(found: Result<Option<String>, String>, version: &str) -> (verdict: Result<
    (),
    EvidenceError,
>)
    ensures
        refusal_of(verdict) == version_refusal(found_text(found), version@),
{
    match found {
        Err(reason) => Err(EvidenceError { message: reason }),
        Ok(None) => Err(refuse("workspace.package.version is missing")),
        Ok(Some(workspace_version)) => {
            if !same_text(workspace_version.as_str(), version) {
                return Err(refuse("tag version does not match Cargo workspace version"));
            }
            Ok(())
        },
    }
}

/// Accepts a version that is not empty.
pub fn check_version_given(version: &str) -> (verdict: Result<(), EvidenceError>)
    ensures
        refusal_of(verdict) == fault_when(version@.len() == 0, "version must not be empty"@),
{
    if version.is_empty() {
        return Err(refuse("version must not be empty"));
    }
    Ok(())
}

/// Accepts a version that the manifest of the workspace states.
pub fn check_workspace_version(manifest: &str, version: &str) -> (verdict: Result<
    (),
    EvidenceError,
>)
    ensures
        refusal_of(verdict) == version_refusal(
            toml_text(manifest@, "workspace"@, "package"@, "version"@),
            version@,
        ),
{
    judge_version(toml_text_at(manifest, "workspace", "package", "version"), version)
}

/// Why a worktree is refused.
pub open spec fn worktree_refusal(success: bool, listed: Seq<u8>) -> Option<Seq<char>> {
    if !success {
        Some("git status failed"@)
    } else if listed.len() != 0 {
        Some("release worktree is not clean"@)
    } else {
        None
    }
}

/// Accepts a worktree without changes, by what Git lists of it.
pub fn check_worktree(success: bool, listed: &[u8]) -> (verdict: Result<(), EvidenceError>)
    ensures
        refusal_of(verdict) == worktree_refusal(success, listed@),
{
    if !success {
        return Err(refuse("git status failed"));
    }
    if listed.len() != 0 {
        return Err(refuse("release worktree is not clean"));
    }
    Ok(())
}

// ---------------------------------------------------------------------------------------------
// Claims

/// A claim of a proof: an invariant that is verified or not, or a hypothesis that is supported or
/// not.
#[derive(Clone, Debug)]
pub struct ClaimEntry {
    pub name: String,
    pub holds: bool,
}

/// What a proof claims.
#[derive(Clone, Debug)]
pub struct ProofClaims {
    pub deep: bool,
    pub passed: bool,
    pub invariants: Vec<ClaimEntry>,
    pub hypotheses: Vec<ClaimEntry>,
}

/// The invariants that a release asks for.
pub open spec fn required_invariants() -> Seq<Seq<char>> {
    seq![
        "apply_atomic_and_idempotent"@,
        "budgets_respected"@,
        "deterministic_replay"@,
        "episode_generality_preserved"@,
        "episodic_exactness"@,
        "golden_four_fates"@,
        "memory_space_isolation"@,
        "receipt_closure"@,
        "sealed_atom_immutability"@,
        "semantic_provenance"@,
        "separate_flashback_channel"@,
        "tamper_fail_closed"@,
    ]
}

fn invariant_names() -> (names: Vec<&'static str>)
    ensures
        names@.map_values(|name: &'static str| name@) == required_invariants(),
{
    let mut names: Vec<&'static str> = Vec::new();
    names.push("apply_atomic_and_idempotent");
    names.push("budgets_respected");
    names.push("deterministic_replay");
    names.push("episode_generality_preserved");
    names.push("episodic_exactness");
    names.push("golden_four_fates");
    names.push("memory_space_isolation");
    names.push("receipt_closure");
    names.push("sealed_atom_immutability");
    names.push("semantic_provenance");
    names.push("separate_flashback_channel");
    names.push("tamper_fail_closed");
    assert(names@.map_values(|name: &'static str| name@) =~= required_invariants());
    names
}

/// The hypotheses that a release asks for.
pub open spec fn required_hypotheses() -> Seq<Seq<char>> {
    seq!["episodic_rare_recovery"@, "ordinary_utility_preserved"@, "semantic_utility"@]
}

fn hypothesis_names() -> (names: Vec<&'static str>)
    ensures
        names@.map_values(|name: &'static str| name@) == required_hypotheses(),
{
    let mut names: Vec<&'static str> = Vec::new();
    names.push("episodic_rare_recovery");
    names.push("ordinary_utility_preserved");
    names.push("semantic_utility");
    assert(names@.map_values(|name: &'static str| name@) =~= required_hypotheses());
    names
}

/// Whether claims of a name are among those listed.
pub open spec fn is_claimed(entries: Seq<ClaimEntry>, name: Seq<char>) -> bool {
    exists|i: int| 0 <= i < entries.len() && (#[trigger] entries[i]).name@ == name
}

/// Whether the names of claims are exactly the required ones.
pub open spec fn claims_exactly(entries: Seq<ClaimEntry>, required: Seq<Seq<char>>) -> bool {
    &&& forall|i: int|
        0 <= i < entries.len() ==> required.contains((#[trigger] entries[i]).name@)
    &&& forall|i: int| 0 <= i < required.len() ==> is_claimed(entries, #[trigger] required[i])
}

/// Whether every claim holds.
pub open spec fn all_hold(entries: Seq<ClaimEntry>) -> bool {
    forall|i: int| 0 <= i < entries.len() ==> (#[trigger] entries[i]).holds
}

fn is_required(name: &str, required: &Vec<&'static str>) -> (yes: bool)
    ensures
        yes == required@.map_values(|name: &'static str| name@).contains(name@),
{
    let ghost names = required@.map_values(|name: &'static str| name@);
    let mut i: usize = 0;
    while i < required.len()
        invariant
            names == required@.map_values(|name: &'static str| name@),
            i <= required@.len(),
            forall|k: int| 0 <= k < i ==> #[trigger] names[k] != name@,
        decreases required@.len() - i,
    {
        if same_text(required[i], name) {
            assert(names[i as int] == name@);
            return true;
        }
        i += 1;
    }
    false
}

fn claimed(entries: &Vec<ClaimEntry>, name: &str) -> (yes: bool)
    ensures
        yes == is_claimed(entries@, name@),
{
    let mut i: usize = 0;
    while i < entries.len()
        invariant
            i <= entries@.len(),
            forall|k: int| 0 <= k < i ==> (#[trigger] entries@[k]).name@ != name@,
        decreases entries@.len() - i,
    {
        if same_text(entries[i].name.as_str(), name) {
            return true;
        }
        i += 1;
    }
    false
}

fn exactly_claimed(entries: &Vec<ClaimEntry>, required: &Vec<&'static str>) -> (yes: bool)
    ensures
        yes == claims_exactly(
            entries@,
            required@.map_values(|name: &'static str| name@),
        ),
{
    let ghost names = required@.map_values(|name: &'static str| name@);
    let mut i: usize = 0;
    while i < entries.len()
        invariant
            names == required@.map_values(|name: &'static str| name@),
            i <= entries@.len(),
            forall|k: int| 0 <= k < i ==> names.contains((#[trigger] entries@[k]).name@),
        decreases entries@.len() - i,
    {
        if !is_required(entries[i].name.as_str(), required) {
            assert(!names.contains(entries@[i as int].name@));
            return false;
        }
        i += 1;
    }
    let mut j: usize = 0;
    while j < required.len()
        invariant
            names == required@.map_values(|name: &'static str| name@),
            j <= required@.len(),
            forall|k: int| 0 <= k < j ==> is_claimed(entries@, #[trigger] names[k]),
        decreases required@.len() - j,
    {
        assert(names[j as int] == required@[j as int]@);
        if !claimed(entries, required[j]) {
            assert(!is_claimed(entries@, names[j as int]));
            return false;
        }
        j += 1;
    }
    true
}

fn every_claim_holds(entries: &Vec<ClaimEntry>) -> (yes: bool)
    ensures
        yes == all_hold(entries@),
{
    let mut i: usize = 0;
    while i < entries.len()
        invariant
            i <= entries@.len(),
            forall|k: int| 0 <= k < i ==> (#[trigger] entries@[k]).holds,
        decreases entries@.len() - i,
    {
        if !entries[i].holds {
            return false;
        }
        i += 1;
    }
    true
}

/// Why the claims of a proof are refused.
pub open spec fn claims_refusal(claims: ProofClaims) -> Option<Seq<char>> {
    if !claims_exactly(claims.invariants@, required_invariants()) {
        Some("release invariant set is incomplete or unexpected"@)
    } else if !all_hold(claims.invariants@) {
        Some("not every release invariant is verified"@)
    } else if !claims_exactly(claims.hypotheses@, required_hypotheses()) {
        Some("release hypothesis set is incomplete or unexpected"@)
    } else if !all_hold(claims.hypotheses@) {
        Some("not every release hypothesis is supported"@)
    } else {
        None
    }
}

/// Accepts the claims of a proof: exactly the required ones, and all of them hold.
pub fn ensure_required_claims(claims: &ProofClaims) -> (verdict: Result<(), EvidenceError>)
    ensures
        refusal_of(verdict) == claims_refusal(*claims),
{
    let invariants = invariant_names();
    if !exactly_claimed(&claims.invariants, &invariants) {
        return Err(refuse("release invariant set is incomplete or unexpected"));
    }
    if !every_claim_holds(&claims.invariants) {
        return Err(refuse("not every release invariant is verified"));
    }
    let hypotheses = hypothesis_names();
    if !exactly_claimed(&claims.hypotheses, &hypotheses) {
        return Err(refuse("release hypothesis set is incomplete or unexpected"));
    }
    if !every_claim_holds(&claims.hypotheses) {
        return Err(refuse("not every release hypothesis is supported"));
    }
    Ok(())
}

/// Accepts a deep proof that passed with all required claims.
pub fn assert_claims(claims: &ProofClaims) -> (verdict: Result<(), EvidenceError>)
    ensures
        refusal_of(verdict) == either_fault(
            fault_when(
                !(claims.deep && claims.passed),
                "deep proof is valid but its required claims are not all supported"@,
            ),
            claims_refusal(*claims),
        ),
{
    if !claims.deep || !claims.passed {
        return Err(refuse("deep proof is valid but its required claims are not all supported"));
    }
    ensure_required_claims(claims)
}

// ---------------------------------------------------------------------------------------------
// Replays and attachments

/// Accepts a number of repetitions.
pub fn check_repetitions(repetitions: usize) -> (verdict: Result<(), EvidenceError>)
    ensures
        refusal_of(verdict) == fault_when(
            repetitions == 0,
            "repetitions must be greater than zero"@,
        ),
{
    if repetitions == 0 {
        return Err(refuse("repetitions must be greater than zero"));
    }
    Ok(())
}

/// What a replay does next: it runs the repetition with this number, or it is done.
#[derive(Clone, Copy, Debug, PartialEq, Eq, Structural)]
pub enum ReplayStep {
    Repeat(usize),
    Finish,
}

/// What a replay that has run so many repetitions does next.
pub open spec fn replay_step(done: nat, repetitions: nat) -> ReplayStep {
    if done < repetitions {
        ReplayStep::Repeat((done + 1) as usize)
    } else {
        ReplayStep::Finish
    }
}

/// Says what a replay that has run so many repetitions does next.
pub fn next_replay_step(done: usize, repetitions: usize) -> (step: ReplayStep)
    ensures
        step == replay_step(done as nat, repetitions as nat),
{
    if done < repetitions {
        ReplayStep::Repeat(done + 1)
    } else {
        ReplayStep::Finish
    }
}

/// The numbers of the repetitions that a replay still runs after so many of them.
pub open spec fn replayed(done: nat, repetitions: nat) -> Seq<usize>
    decreases repetitions - done,
{
    match replay_step(done, repetitions) {
        ReplayStep::Repeat(number) => if done < repetitions {
            seq![number] + replayed(done + 1, repetitions)
        } else {
            Seq::empty()
        },
        ReplayStep::Finish => Seq::empty(),
    }
}

/// A replay runs as often as asked: the first repetition, the second, and so on to the last, each
/// once.
pub proof fn law_replay_runs_as_often_as_asked(done: nat, repetitions: nat)
    requires
        done <= repetitions <= usize::MAX,
    ensures
        replayed(done, repetitions) == Seq::new(
            (repetitions - done) as nat,
            |i: int| (done + i + 1) as usize,
        ),
    decreases repetitions - done,
{
    if done < repetitions {
        law_replay_runs_as_often_as_asked(done + 1, repetitions);
    }
    assert(replayed(done, repetitions) =~= Seq::new(
        (repetitions - done) as nat,
        |i: int| (done + i + 1) as usize,
    ));
}

/// Why a repetition is refused, by its number.
pub open spec fn repetition_refusal(
    number: usize,
    same_campaign: bool,
    same_proof: bool,
) -> Option<Seq<char>> {
    either_fault(
        fault_when(
            !same_campaign,
            "fresh crash campaign "@ + decimal(number as nat)
                + " differs from the supplied closure"@,
        ),
        fault_when(
            !same_proof,
            "proof replay "@ + decimal(number as nat) + " differs from the supplied closure"@,
        ),
    )
}

/// Accepts a repetition that gave the same crash campaign and the same proof.
pub fn check_repetition(number: usize, same_campaign: bool, same_proof: bool) -> (verdict: Result<
    (),
    EvidenceError,
>)
    ensures
        refusal_of(verdict) == repetition_refusal(number, same_campaign, same_proof),
{
    let place = decimal_text(number as u64);
    if !same_campaign {
        return Err(
            EvidenceError {
                message: text3(
                    "fresh crash campaign ",
                    place.as_str(),
                    " differs from the supplied closure",
                ),
            },
        );
    }
    if !same_proof {
        return Err(
            EvidenceError {
                message: text3(
                    "proof replay ",
                    place.as_str(),
                    " differs from the supplied closure",
                ),
            },
        );
    }
    Ok(())
}

/// Accepts a copy of the dataset manifest.
pub fn check_manifest_copy(observed: &[u8], expected: &[u8]) -> (verdict: Result<
    (),
    EvidenceError,
>)
    ensures
        refusal_of(verdict) == fault_when(
            observed@ != expected@,
            "dataset manifest attachment does not match committed authority"@,
        ),
{
    if !same_bytes(observed, expected) {
        return Err(refuse("dataset manifest attachment does not match committed authority"));
    }
    Ok(())
}

/// Accepts crash evidence that is attached to the ledger it belongs to.
pub fn check_crash_attachment(same: bool) -> (verdict: Result<(), EvidenceError>)
    ensures
        refusal_of(verdict) == fault_when(
            !same,
            "crash campaign attachment does not match the decision ledger"@,
        ),
{
    if !same {
        return Err(refuse("crash campaign attachment does not match the decision ledger"));
    }
    Ok(())
}

// ---------------------------------------------------------------------------------------------
// The release

/// All evidence of a release: the report of the scale run with the core receipt that is attached
/// to it, and the receipts of the campaigns, each with the bytes that its digest covers.
pub struct ReleaseEvidence {
    pub claims: ProofClaims,
    pub scale: ScaleReceiptV1,
    pub scale_encoded: Vec<u8>,
    pub scale_digests: ScaleDigests,
    pub scale_core: ProofReceipt,
    pub scale_core_id: ReadDigest,
    pub mutation: ToolReceiptV1,
    pub mutation_encoded: Vec<u8>,
    pub fuzz: ToolReceiptV1,
    pub fuzz_encoded: Vec<u8>,
    pub files: ProofFiles,
    pub retained: RetainedRoot,
    pub source_commit: String,
}

/// Why the evidence of a release is refused.
pub open spec fn release_refusal(evidence: ReleaseEvidence) -> Option<Seq<char>> {
    let commit = evidence.source_commit@;
    if !evidence.claims.deep {
        Some("release receipt is not deep profile"@)
    } else if !evidence.claims.passed {
        Some("release proof is not passed"@)
    } else {
        either_fault(
            claims_refusal(evidence.claims),
            either_fault(
                either_fault(
                    structure_refusal(
                        evidence.scale,
                        100_000,
                        evidence.scale_encoded@,
                        evidence.scale_digests,
                    ),
                    status_refusal(evidence.scale),
                ),
                either_fault(
                    binding_refusal(
                        evidence.scale_core,
                        evidence.scale_core_id,
                        evidence.scale,
                        evidence.scale_digests,
                    ),
                    either_fault(
                        fault_when(
                            evidence.scale.source_commit@ != commit,
                            "scale evidence belongs to a different source commit"@,
                        ),
                        either_fault(
                            either_fault(
                                mutation_refusal(
                                    evidence.mutation,
                                    evidence.mutation_encoded@,
                                    evidence.files@,
                                    commit,
                                ),
                                passed_refusal(evidence.mutation),
                            ),
                            fuzz_release_refusal(
                                evidence.fuzz,
                                evidence.fuzz_encoded@,
                                evidence.files@,
                                evidence.retained,
                                commit,
                            ),
                        ),
                    ),
                ),
            ),
        )
    }
}

/// Accepts the evidence of a release.
pub fn release_preflight(evidence: &ReleaseEvidence) -> (verdict: Result<(), EvidenceError>)
    ensures
        refusal_of(verdict) == release_refusal(*evidence),
{
    if !evidence.claims.deep {
        return Err(refuse("release receipt is not deep profile"));
    }
    if !evidence.claims.passed {
        return Err(refuse("release proof is not passed"));
    }
    ensure_required_claims(&evidence.claims)?;
    verify_scale_receipt(
        &evidence.scale,
        100_000,
        evidence.scale_encoded.as_slice(),
        &evidence.scale_digests,
    )?;
    verify_scale_core_binding(
        &evidence.scale_core,
        &evidence.scale_core_id,
        &evidence.scale,
        &evidence.scale_digests,
    )?;
    if !same_text(evidence.scale.source_commit.as_str(), evidence.source_commit.as_str()) {
        return Err(refuse("scale evidence belongs to a different source commit"));
    }
    verify_mutation_receipt(
        &evidence.mutation,
        evidence.mutation_encoded.as_slice(),
        &evidence.files,
        evidence.source_commit.as_str(),
    )?;
    verify_fuzz_receipt(
        &evidence.fuzz,
        evidence.fuzz_encoded.as_slice(),
        &evidence.files,
        &evidence.retained,
        evidence.source_commit.as_str(),
    )
}

/// A release rests on evidence of one commit that all passed: the scale run, the mutation campaign
/// and the fuzz campaign name the commit that is checked out, and each of them passed.
pub proof fn law_released_evidence_is_of_one_commit(evidence: ReleaseEvidence)
    requires
        release_refusal(evidence) is None,
    ensures
        evidence.scale.source_commit@ == evidence.source_commit@,
        evidence.mutation.source_commit@ == evidence.source_commit@,
        evidence.fuzz.source_commit@ == evidence.source_commit@,
        evidence.scale.status == EvidenceStatusV1::Passed,
        evidence.mutation.status == EvidenceStatusV1::Passed,
        evidence.fuzz.status == EvidenceStatusV1::Passed,
        evidence.scale.atom_count == 100_000,
        keeps_nothing(evidence.fuzz),
        claims_refusal(evidence.claims) is None,
{
    assert(fuzz_refusal(
        evidence.fuzz,
        evidence.fuzz_encoded@,
        evidence.files@,
        evidence.retained,
        evidence.source_commit@,
    ) is None);
}

/// A version is accepted exactly where it is that of the workspace.
pub proof fn law_version_is_that_of_the_workspace(
    found: Result<Option<Seq<char>>, Seq<char>>,
    version: Seq<char>,
)
    ensures
        version_refusal(found, version) is None <==> found == Ok::<Option<Seq<char>>, Seq<char>>(
            Some(version),
        ),
{
}

/// A worktree is clean exactly where it could be listed and nothing was listed.
pub proof fn law_worktree_is_clean_exactly(success: bool, listed: Seq<u8>)
    ensures
        worktree_refusal(success, listed) is None <==> success && listed.len() == 0,
{
}

/// Claims are accepted exactly where those that are made are the twelve invariants and the three
/// hypotheses, no other and none missing, and every one of them holds.
pub proof fn law_claims_are_accepted_exactly(claims: ProofClaims)
    ensures
        claims_refusal(claims) is None <==> {
            &&& claims_exactly(claims.invariants@, required_invariants())
            &&& claims_exactly(claims.hypotheses@, required_hypotheses())
            &&& forall|i: int|
                0 <= i < claims.invariants@.len() ==> (#[trigger] claims.invariants@[i]).holds
            &&& forall|i: int|
                0 <= i < claims.hypotheses@.len() ==> (#[trigger] claims.hypotheses@[i]).holds
        },
        required_invariants().len() == 12,
        required_hypotheses().len() == 3,
{
}

/// What is claimed is what is required: a name is claimed exactly where it is required.
pub proof fn law_claimed_is_what_is_required(
    entries: Seq<ClaimEntry>,
    required: Seq<Seq<char>>,
    name: Seq<char>,
)
    requires
        claims_exactly(entries, required),
    ensures
        required.contains(name) <==> exists|i: int|
            0 <= i < entries.len() && (#[trigger] entries[i]).name@ == name,
{
    if required.contains(name) {
        let i = required.index_of(name);
        assert(is_claimed(entries, required[i]));
    }
}

/// A repetition is accepted exactly where it gave the same campaign and the same proof.
pub proof fn law_repetition_is_accepted_exactly(
    number: usize,
    same_campaign: bool,
    same_proof: bool,
)
    ensures
        repetition_refusal(number, same_campaign, same_proof) is None <==> same_campaign
            && same_proof,
{
}

/// Evidence is released exactly where it is deep and passed, its claims are accepted, its scale
/// receipt of 100000 atoms closes, passed and is bound to its core receipt, and its mutation and
/// fuzz receipts are accepted and passed, all of one commit.
pub proof fn law_evidence_is_released_exactly(evidence: ReleaseEvidence)
    ensures
        release_refusal(evidence) is None <==> {
            let commit = evidence.source_commit@;
            &&& evidence.claims.deep
            &&& evidence.claims.passed
            &&& claims_refusal(evidence.claims) is None
            &&& structure_refusal(
                evidence.scale,
                100_000,
                evidence.scale_encoded@,
                evidence.scale_digests,
            ) is None
            &&& evidence.scale.status is Passed
            &&& binding_refusal(
                evidence.scale_core,
                evidence.scale_core_id,
                evidence.scale,
                evidence.scale_digests,
            ) is None
            &&& evidence.scale.source_commit@ == commit
            &&& mutation_refusal(
                evidence.mutation,
                evidence.mutation_encoded@,
                evidence.files@,
                commit,
            ) is None
            &&& passed_refusal(evidence.mutation) is None
            &&& fuzz_release_refusal(
                evidence.fuzz,
                evidence.fuzz_encoded@,
                evidence.files@,
                evidence.retained,
                commit,
            ) is None
        },
{
}

/// The invariants and the hypotheses that a release must claim are these.
pub proof fn law_required_claims_are_named()
    ensures
        required_invariants().contains("apply_atomic_and_idempotent"@),
        required_invariants().contains("budgets_respected"@),
        required_invariants().contains("deterministic_replay"@),
        required_invariants().contains("episode_generality_preserved"@),
        required_invariants().contains("episodic_exactness"@),
        required_invariants().contains("golden_four_fates"@),
        required_invariants().contains("memory_space_isolation"@),
        required_invariants().contains("receipt_closure"@),
        required_invariants().contains("sealed_atom_immutability"@),
        required_invariants().contains("semantic_provenance"@),
        required_invariants().contains("separate_flashback_channel"@),
        required_invariants().contains("tamper_fail_closed"@),
        required_hypotheses().contains("episodic_rare_recovery"@),
        required_hypotheses().contains("ordinary_utility_preserved"@),
        required_hypotheses().contains("semantic_utility"@),
{
    let invariants = required_invariants();
    let hypotheses = required_hypotheses();
    assert(invariants[0] == "apply_atomic_and_idempotent"@);
    assert(invariants[1] == "budgets_respected"@);
    assert(invariants[2] == "deterministic_replay"@);
    assert(invariants[3] == "episode_generality_preserved"@);
    assert(invariants[4] == "episodic_exactness"@);
    assert(invariants[5] == "golden_four_fates"@);
    assert(invariants[6] == "memory_space_isolation"@);
    assert(invariants[7] == "receipt_closure"@);
    assert(invariants[8] == "sealed_atom_immutability"@);
    assert(invariants[9] == "semantic_provenance"@);
    assert(invariants[10] == "separate_flashback_channel"@);
    assert(invariants[11] == "tamper_fail_closed"@);
    assert(hypotheses[0] == "episodic_rare_recovery"@);
    assert(hypotheses[1] == "ordinary_utility_preserved"@);
    assert(hypotheses[2] == "semantic_utility"@);
}

} // verus!
