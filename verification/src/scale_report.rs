//! The path of a scale run, and the report that is published at its end.

use vstd::prelude::*;
use vstd::string::*;

use crate::campaigns::{commit_name, named_commit};
use crate::digest::sha256_of;
use crate::error::{either_fault, fault_when};
use crate::evidence::{
    DEEP_SCALE_ATOM_COUNT, EvidenceError, EvidenceStatusV1, bound_clean_source_commit,
    bound_commit, classify_scale_evidence, hash_prefixed_hex, is_git_commit, prefixed_hex,
    refusal_of, refuse, scale_status, valid_git_commit,
};
use crate::folding::folded;
use crate::framing::{domain_hasher, utf8};
use crate::hexadecimal::{digest_hex, hex_text};
use crate::receipt_fields::{ProofReceipt, all_invariants, has_all_invariants};
use crate::scale::{ScaleSizes, is_distributed};
use crate::text::{decimal, decimal_text, same_bytes, same_text, text4};

verus! {

// ---------------------------------------------------------------------------------------------
// The path

/// Why an atom is recalled.
#[derive(Clone, Copy, Debug, PartialEq, Eq, Structural)]
pub enum RecallReason {
    QueryRanked,
    Spontaneous,
}

/// What a recalled atom speaks of.
#[derive(Clone, Copy, Debug, PartialEq, Eq, Structural)]
pub enum Generality {
    SingleEpisode,
    Semantic,
}

/// A recalled atom.
#[derive(Clone, Copy, Debug)]
pub struct RecallHit {
    pub recall_reason: RecallReason,
    pub generality: Generality,
}

/// What a scale run does next.
#[derive(Clone, Copy, Debug, PartialEq, Eq, Structural)]
pub enum ScaleStep {
    Persist,
    Snapshot,
    Plan,
    ReplayPlan,
    VerifyReceipt,
    Apply,
    ReplayApply,
    Retrieve,
    CheckIntegrity,
    Publish,
}

/// What came of a step.
#[derive(Debug)]
pub enum ScaleObservation {
    Persisted,
    Snapshot { atom_count: usize },
    Planned { semantic_atoms: usize, episodic_winners: usize },
    PlanReplayed { same_plan: bool, same_digest: bool },
    ReceiptVerified { verified_id: [u8; 32], expected_id: [u8; 32] },
    Applied { same_receipt: bool },
    ApplyReplayed { same_receipt: bool },
    Retrieved { hits: Vec<RecallHit>, spontaneous: Option<Vec<RecallHit>> },
    IntegrityChecked,
}

/// Whether an ordinary recall found something general.
pub open spec fn has_semantic_hit(hits: Seq<RecallHit>) -> bool {
    exists|i: int|
        0 <= i < hits.len() && (#[trigger] hits[i]).recall_reason == RecallReason::QueryRanked
            && hits[i].generality == Generality::Semantic
}

/// Whether a spontaneous recall gave exactly one flashback, to a single episode.
pub open spec fn is_flashback(spontaneous: Option<Vec<RecallHit>>) -> bool {
    spontaneous matches Some(hits) && hits@.len() == 1 && hits@[0].recall_reason
        == RecallReason::Spontaneous && hits@[0].generality == Generality::SingleEpisode
}

/// The step behind a step, or why the run ends there.
pub open spec fn next_step(step: ScaleStep, atoms: usize, seen: ScaleObservation) -> Result<
    ScaleStep,
    Seq<char>,
> {
    match (step, seen) {
        (ScaleStep::Persist, ScaleObservation::Persisted) => Ok(ScaleStep::Snapshot),
        (ScaleStep::Snapshot, ScaleObservation::Snapshot { atom_count }) => if atom_count
            != atoms {
            Err("persisted cohort count differs from generated count"@)
        } else {
            Ok(ScaleStep::Plan)
        },
        (ScaleStep::Plan, ScaleObservation::Planned { semantic_atoms, episodic_winners }) => if semantic_atoms
            == 0 {
            Err("representative scale cohort produced no semantic atom"@)
        } else if episodic_winners == 0 {
            Err("representative scale cohort produced no episodic winner"@)
        } else {
            Ok(ScaleStep::ReplayPlan)
        },
        (ScaleStep::ReplayPlan, ScaleObservation::PlanReplayed { same_plan, same_digest }) => if !same_plan {
            Err("scale plan replay diverged"@)
        } else if !same_digest {
            Err("scale plan digest replay diverged"@)
        } else {
            Ok(ScaleStep::VerifyReceipt)
        },
        (
            ScaleStep::VerifyReceipt,
            ScaleObservation::ReceiptVerified { verified_id, expected_id },
        ) => if verified_id@ != expected_id@ {
            Err("scale receipt verification returned a different receipt id"@)
        } else {
            Ok(ScaleStep::Apply)
        },
        (ScaleStep::Apply, ScaleObservation::Applied { same_receipt }) => if !same_receipt {
            Err("real SQLite apply produced a receipt different from the verified closure"@)
        } else {
            Ok(ScaleStep::ReplayApply)
        },
        (ScaleStep::ReplayApply, ScaleObservation::ApplyReplayed { same_receipt }) => if !same_receipt {
            Err("idempotent SQLite apply replay changed the receipt"@)
        } else {
            Ok(ScaleStep::Retrieve)
        },
        (ScaleStep::Retrieve, ScaleObservation::Retrieved { hits, spontaneous }) => if !has_semantic_hit(
            hits@,
        ) {
            Err("scale retrieval produced no ordinary semantic hit"@)
        } else if !is_flashback(spontaneous) {
            Err("scale retrieval produced no explicit single-episode flashback"@)
        } else {
            Ok(ScaleStep::CheckIntegrity)
        },
        (ScaleStep::CheckIntegrity, ScaleObservation::IntegrityChecked) => Ok(ScaleStep::Publish),
        _ => Err("scale observation does not belong to the step"@),
    }
}

fn semantic_hit(hits: &Vec<RecallHit>) -> (found: bool)
    ensures
        found == has_semantic_hit(hits@),
{
    let mut i: usize = 0;
    while i < hits.len()
        invariant
            i <= hits@.len(),
            forall|k: int|
                0 <= k < i ==> !((#[trigger] hits@[k]).recall_reason == RecallReason::QueryRanked
                    && hits@[k].generality == Generality::Semantic),
        decreases hits@.len() - i,
    {
        if hits[i].recall_reason == RecallReason::QueryRanked && hits[i].generality
            == Generality::Semantic {
            assert(hits@[i as int].generality == Generality::Semantic);
            return true;
        }
        i += 1;
    }
    false
}

fn flashback(spontaneous: &Option<Vec<RecallHit>>) -> (yes: bool)
    ensures
        yes == is_flashback(*spontaneous),
{
    match spontaneous {
        Some(hits) => hits.len() == 1 && hits[0].recall_reason == RecallReason::Spontaneous
            && hits[0].generality == Generality::SingleEpisode,
        None => false,
    }
}

/// Takes what came of a step and says what to do next.
pub fn advance_scale(step: ScaleStep, atoms: usize, seen: &ScaleObservation) -> (next: Result<
    ScaleStep,
    EvidenceError,
>)
    ensures
        match next {
            Ok(next) => next_step(step, atoms, *seen) == Ok::<ScaleStep, Seq<char>>(next),
            Err(error) => next_step(step, atoms, *seen) == Err::<ScaleStep, Seq<char>>(error@),
        },
{
    match (step, seen) {
        (ScaleStep::Persist, ScaleObservation::Persisted) => Ok(ScaleStep::Snapshot),
        (ScaleStep::Snapshot, ScaleObservation::Snapshot { atom_count }) => {
            if *atom_count != atoms {
                return Err(refuse("persisted cohort count differs from generated count"));
            }
            Ok(ScaleStep::Plan)
        },
        (ScaleStep::Plan, ScaleObservation::Planned { semantic_atoms, episodic_winners }) => {
            if *semantic_atoms == 0 {
                return Err(refuse("representative scale cohort produced no semantic atom"));
            }
            if *episodic_winners == 0 {
                return Err(refuse("representative scale cohort produced no episodic winner"));
            }
            Ok(ScaleStep::ReplayPlan)
        },
        (ScaleStep::ReplayPlan, ScaleObservation::PlanReplayed { same_plan, same_digest }) => {
            if !*same_plan {
                return Err(refuse("scale plan replay diverged"));
            }
            if !*same_digest {
                return Err(refuse("scale plan digest replay diverged"));
            }
            Ok(ScaleStep::VerifyReceipt)
        },
        (
            ScaleStep::VerifyReceipt,
            ScaleObservation::ReceiptVerified { verified_id, expected_id },
        ) => {
            if !same_bytes(verified_id.as_slice(), expected_id.as_slice()) {
                return Err(refuse("scale receipt verification returned a different receipt id"));
            }
            Ok(ScaleStep::Apply)
        },
        (ScaleStep::Apply, ScaleObservation::Applied { same_receipt }) => {
            if !*same_receipt {
                return Err(
                    refuse(
                        "real SQLite apply produced a receipt different from the verified closure",
                    ),
                );
            }
            Ok(ScaleStep::ReplayApply)
        },
        (ScaleStep::ReplayApply, ScaleObservation::ApplyReplayed { same_receipt }) => {
            if !*same_receipt {
                return Err(refuse("idempotent SQLite apply replay changed the receipt"));
            }
            Ok(ScaleStep::Retrieve)
        },
        (ScaleStep::Retrieve, ScaleObservation::Retrieved { hits, spontaneous }) => {
            if !semantic_hit(hits) {
                return Err(refuse("scale retrieval produced no ordinary semantic hit"));
            }
            if !flashback(spontaneous) {
                return Err(refuse("scale retrieval produced no explicit single-episode flashback"));
            }
            Ok(ScaleStep::CheckIntegrity)
        },
        (ScaleStep::CheckIntegrity, ScaleObservation::IntegrityChecked) => Ok(ScaleStep::Publish),
        _ => Err(refuse("scale observation does not belong to the step")),
    }
}

/// How many steps lie before a step.
pub open spec fn steps_before(step: ScaleStep) -> nat {
    match step {
        ScaleStep::Persist => 0,
        ScaleStep::Snapshot => 1,
        ScaleStep::Plan => 2,
        ScaleStep::ReplayPlan => 3,
        ScaleStep::VerifyReceipt => 4,
        ScaleStep::Apply => 5,
        ScaleStep::ReplayApply => 6,
        ScaleStep::Retrieve => 7,
        ScaleStep::CheckIntegrity => 8,
        ScaleStep::Publish => 9,
    }
}

/// Where a scale run stands after what it has seen.
pub open spec fn scale_path(atoms: usize, trace: Seq<ScaleObservation>) -> Result<
    ScaleStep,
    Seq<char>,
> {
    folded(
        trace,
        ScaleStep::Persist,
        |step: ScaleStep, seen: ScaleObservation| next_step(step, atoms, seen),
    )
}

proof fn lemma_path_length(atoms: usize, trace: Seq<ScaleObservation>)
    requires
        scale_path(atoms, trace) is Ok,
    ensures
        trace.len() == steps_before(scale_path(atoms, trace)->Ok_0),
    decreases trace.len(),
{
    if trace.len() > 0 {
        assert(scale_path(atoms, trace.drop_last()) is Ok);
        lemma_path_length(atoms, trace.drop_last());
    }
}

/// A report is published only at the end of the whole path: the cohort was stored in full and
/// planned, the plan and the applied receipt were replayed without a difference, the receipt was
/// verified, and both kinds of recall worked.
pub proof fn law_publication_follows_the_whole_path(atoms: usize, trace: Seq<ScaleObservation>)
    requires
        scale_path(atoms, trace) == Ok::<ScaleStep, Seq<char>>(ScaleStep::Publish),
    ensures
        trace.len() == 9,
        trace[1] matches ScaleObservation::Snapshot { atom_count } && atom_count == atoms,
        trace[2] matches ScaleObservation::Planned { semantic_atoms, episodic_winners }
            && semantic_atoms > 0 && episodic_winners > 0,
        trace[3] matches ScaleObservation::PlanReplayed { same_plan, same_digest } && same_plan
            && same_digest,
        trace[4] matches ScaleObservation::ReceiptVerified { verified_id, expected_id }
            && verified_id@ == expected_id@,
        trace[5] matches ScaleObservation::Applied { same_receipt } && same_receipt,
        trace[6] matches ScaleObservation::ApplyReplayed { same_receipt } && same_receipt,
        trace[7] matches ScaleObservation::Retrieved { hits, spontaneous } && has_semantic_hit(
            hits@,
        ) && is_flashback(spontaneous),
{
    lemma_path_length(atoms, trace);
    let t8 = trace.drop_last();
    let t7 = t8.drop_last();
    let t6 = t7.drop_last();
    let t5 = t6.drop_last();
    let t4 = t5.drop_last();
    let t3 = t4.drop_last();
    let t2 = t3.drop_last();
    assert(scale_path(atoms, t8) == Ok::<ScaleStep, Seq<char>>(ScaleStep::CheckIntegrity));
    assert(scale_path(atoms, t7) == Ok::<ScaleStep, Seq<char>>(ScaleStep::Retrieve));
    assert(scale_path(atoms, t6) == Ok::<ScaleStep, Seq<char>>(ScaleStep::ReplayApply));
    assert(scale_path(atoms, t5) == Ok::<ScaleStep, Seq<char>>(ScaleStep::Apply));
    assert(scale_path(atoms, t4) == Ok::<ScaleStep, Seq<char>>(ScaleStep::VerifyReceipt));
    assert(scale_path(atoms, t3) == Ok::<ScaleStep, Seq<char>>(ScaleStep::ReplayPlan));
    assert(scale_path(atoms, t2) == Ok::<ScaleStep, Seq<char>>(ScaleStep::Plan));
    assert(t2.last() == trace[1]);
    assert(t3.last() == trace[2]);
    assert(t4.last() == trace[3]);
    assert(t5.last() == trace[4]);
    assert(t6.last() == trace[5]);
    assert(t7.last() == trace[6]);
    assert(t8.last() == trace[7]);
}

// ---------------------------------------------------------------------------------------------
// The report

/// How long a phase of a scale run took.
#[derive(Clone, Debug, PartialEq, Eq)]
pub struct PhaseTime {
    pub name: String,
    pub millis: u64,
}

/// The report of a scale run.
#[derive(Clone, Debug, PartialEq, Eq)]
pub struct ScaleReceiptV1 {
    pub contract_version: String,
    pub source_commit: String,
    pub status: EvidenceStatusV1,
    pub atom_count: usize,
    pub p50_body_bytes: u64,
    pub p95_body_bytes: u64,
    pub maximum_body_bytes: u64,
    pub logical_body_bytes: u64,
    pub atom_stream_digest: String,
    pub logical_digest: String,
    pub input_set_digest: String,
    pub plan_digest: String,
    pub receipt_digest: String,
    pub retrieval_digest: String,
    pub semantic_atom_count: usize,
    pub episodic_winner_count: usize,
    pub normal_hit_count: usize,
    pub spontaneous_hit_count: usize,
    pub plan_replay_verified: bool,
    pub receipt_verified: bool,
    pub apply_idempotent: bool,
    pub observed_phase_millis: Vec<PhaseTime>,
    pub observed_wall_millis: u64,
    pub observed_max_rss_bytes: Option<u64>,
    pub observed_disk_bytes: Option<u64>,
    pub note: String,
    pub evidence_digest: String,
}

/// What a scale run saw, for its report.
#[derive(Clone, Debug)]
pub struct ScaleFacts {
    pub atom_count: usize,
    pub sizes: ScaleSizes,
    pub logical_body_bytes: u64,
    pub atom_stream_digest: String,
    pub canonical_closure: Vec<u8>,
    pub input_set_digest: [u8; 32],
    pub plan_digest: [u8; 32],
    pub receipt_digest: [u8; 32],
    pub canonical_retrieval: Vec<u8>,
    pub semantic_atom_count: usize,
    pub episodic_winner_count: usize,
    pub normal_hit_count: usize,
    pub spontaneous_hit_count: usize,
    pub observed_phase_millis: Vec<PhaseTime>,
    pub observed_wall_millis: u64,
    pub observed_max_rss_bytes: Option<u64>,
    pub observed_disk_bytes: Option<u64>,
}

/// The note of a report.
pub open spec fn scale_note(source_binding_complete: bool) -> Seq<char> {
    "Phase timing, sampled peak RSS, persisted temporary-directory bytes, and source-binding stability are observational fields excluded from logical_digest. Missing required 100,000-atom resource measurements or source binding make evidence inconclusive; observed threshold breaches make it failed. source_binding_complete="@
        + (if source_binding_complete {
        "true"@
    } else {
        "false"@
    }) + "."@
}

fn scale_note_text(source_binding_complete: bool) -> (note: String)
    ensures
        note@ == scale_note(source_binding_complete),
{
    crate::text::text3(
        "Phase timing, sampled peak RSS, persisted temporary-directory bytes, and source-binding stability are observational fields excluded from logical_digest. Missing required 100,000-atom resource measurements or source binding make evidence inconclusive; observed threshold breaches make it failed. source_binding_complete=",
        if source_binding_complete {
            "true"
        } else {
            "false"
        },
        ".",
    )
}

/// The digest of what a recall gave.
pub fn scale_retrieval_digest(canonical_retrieval: &[u8]) -> (digest: String)
    ensures
        digest@ == prefixed_hex("naome-memory:scale-retrieval:v1\0"@, canonical_retrieval@),
{
    hash_prefixed_hex("naome-memory:scale-retrieval:v1\0", canonical_retrieval)
}

/// The digest of a report, from the bytes of the report with an empty digest.
pub fn scale_evidence_digest(encoded: &[u8]) -> (digest: String)
    ensures
        digest@ == prefixed_hex("naome-memory:scale-evidence:v1\0"@, encoded@),
{
    hash_prefixed_hex("naome-memory:scale-evidence:v1\0", encoded)
}

/// Whether a report says what a scale run saw.
pub open spec fn is_report_of(
    report: ScaleReceiptV1,
    facts: ScaleFacts,
    source_commit: Option<Seq<char>>,
) -> bool {
    &&& report.contract_version@ == "scale-receipt-v1"@
    &&& report.source_commit@ == named_commit(source_commit)
    &&& report.status == scale_status(
        facts.atom_count,
        is_distributed(
            facts.sizes.p50_body_bytes,
            facts.sizes.p95_body_bytes,
            facts.sizes.maximum_body_bytes,
        ),
        facts.observed_wall_millis,
        facts.observed_max_rss_bytes,
        facts.observed_disk_bytes,
        source_commit is Some,
    )
    &&& report.atom_count == facts.atom_count
    &&& report.p50_body_bytes == facts.sizes.p50_body_bytes
    &&& report.p95_body_bytes == facts.sizes.p95_body_bytes
    &&& report.maximum_body_bytes == facts.sizes.maximum_body_bytes
    &&& report.logical_body_bytes == facts.logical_body_bytes
    &&& report.atom_stream_digest == facts.atom_stream_digest
    &&& report.logical_digest@ == prefixed_hex(
        "naome-memory:scale-logical-closure:v1\0"@,
        facts.canonical_closure@,
    )
    &&& report.input_set_digest@ == hex_text(facts.input_set_digest@)
    &&& report.plan_digest@ == hex_text(facts.plan_digest@)
    &&& report.receipt_digest@ == hex_text(facts.receipt_digest@)
    &&& report.retrieval_digest@ == prefixed_hex(
        "naome-memory:scale-retrieval:v1\0"@,
        facts.canonical_retrieval@,
    )
    &&& report.semantic_atom_count == facts.semantic_atom_count
    &&& report.episodic_winner_count == facts.episodic_winner_count
    &&& report.normal_hit_count == facts.normal_hit_count
    &&& report.spontaneous_hit_count == facts.spontaneous_hit_count
    &&& report.plan_replay_verified
    &&& report.receipt_verified
    &&& report.apply_idempotent
    &&& report.observed_phase_millis == facts.observed_phase_millis
    &&& report.observed_wall_millis == facts.observed_wall_millis
    &&& report.observed_max_rss_bytes == facts.observed_max_rss_bytes
    &&& report.observed_disk_bytes == facts.observed_disk_bytes
    &&& report.note@ == scale_note(source_commit is Some)
    &&& report.evidence_digest@.len() == 0
}

/// Writes the report of a scale run that has come to a step, still without its digest. Only a run
/// that went the whole path has one.
pub fn scale_report(
    step: ScaleStep,
    facts: ScaleFacts,
    source_commit_at_start: Option<&str>,
    source_commit_at_publication: Option<&str>,
) -> (report: Option<ScaleReceiptV1>)
    ensures
        report is Some <==> step == ScaleStep::Publish,
        report matches Some(report) ==> is_report_of(
            report,
            facts,
            bound_commit(source_commit_at_start, source_commit_at_publication),
        ),
{
    match step {
        ScaleStep::Publish => {},
        _ => return None,
    }
    let source_commit = bound_clean_source_commit(
        source_commit_at_start,
        source_commit_at_publication,
    );
    let bound = source_commit.is_some();
    let sizes = facts.sizes;
    let distributed = sizes.p50_body_bytes == 16384 && sizes.p95_body_bytes == 65536
        && sizes.maximum_body_bytes == 262144;
    let status = classify_scale_evidence(
        facts.atom_count,
        distributed,
        facts.observed_wall_millis,
        facts.observed_max_rss_bytes,
        facts.observed_disk_bytes,
        bound,
    );
    let logical_digest = hash_prefixed_hex(
        "naome-memory:scale-logical-closure:v1\0",
        facts.canonical_closure.as_slice(),
    );
    let retrieval_digest = scale_retrieval_digest(facts.canonical_retrieval.as_slice());
    Some(
        ScaleReceiptV1 {
            contract_version: "scale-receipt-v1".to_owned(),
            source_commit: commit_name(source_commit),
            status,
            atom_count: facts.atom_count,
            p50_body_bytes: sizes.p50_body_bytes,
            p95_body_bytes: sizes.p95_body_bytes,
            maximum_body_bytes: sizes.maximum_body_bytes,
            logical_body_bytes: facts.logical_body_bytes,
            atom_stream_digest: facts.atom_stream_digest,
            logical_digest,
            input_set_digest: digest_hex(&facts.input_set_digest),
            plan_digest: digest_hex(&facts.plan_digest),
            receipt_digest: digest_hex(&facts.receipt_digest),
            retrieval_digest,
            semantic_atom_count: facts.semantic_atom_count,
            episodic_winner_count: facts.episodic_winner_count,
            normal_hit_count: facts.normal_hit_count,
            spontaneous_hit_count: facts.spontaneous_hit_count,
            plan_replay_verified: true,
            receipt_verified: true,
            apply_idempotent: true,
            observed_phase_millis: facts.observed_phase_millis,
            observed_wall_millis: facts.observed_wall_millis,
            observed_max_rss_bytes: facts.observed_max_rss_bytes,
            observed_disk_bytes: facts.observed_disk_bytes,
            note: scale_note_text(bound),
            evidence_digest: String::new(),
        },
    )
}

// ---------------------------------------------------------------------------------------------
// Checking a report

/// A digest that a report states, as the memory core reads it, or what it says of a text that is
/// no digest.
pub type ReadDigest = Result<[u8; 32], String>;

/// The digests that a report states, and the canonical bytes of its logical closure.
#[derive(Debug)]
pub struct ScaleDigests {
    pub atom_stream: ReadDigest,
    pub input_set: ReadDigest,
    pub plan: ReadDigest,
    pub receipt: ReadDigest,
    pub retrieval: ReadDigest,
    pub logical: ReadDigest,
    pub canonical_closure: Vec<u8>,
}

/// What the memory core says of a text that is no digest.
pub open spec fn digest_refusal(read: ReadDigest) -> Option<Seq<char>> {
    match read {
        Ok(_) => None,
        Err(reason) => Some(reason@),
    }
}

fn read_digest(read: &ReadDigest) -> (digest: Result<[u8; 32], EvidenceError>)
    ensures
        refusal_of(digest) == digest_refusal(*read),
        digest matches Ok(digest) ==> *read matches Ok(bytes) && bytes@ == digest@,
{
    match read {
        Ok(digest) => Ok(*digest),
        Err(reason) => Err(EvidenceError { message: reason.clone() }),
    }
}

/// The first text among those of the logical closure that is no digest.
pub open spec fn closure_refusal(digests: ScaleDigests) -> Option<Seq<char>> {
    either_fault(
        digest_refusal(digests.input_set),
        either_fault(
            digest_refusal(digests.plan),
            either_fault(digest_refusal(digests.receipt), digest_refusal(digests.retrieval)),
        ),
    )
}

/// The digest of the logical closure of a report, from its canonical bytes.
pub fn recompute_scale_logical_digest(digests: &ScaleDigests) -> (digest: Result<
    [u8; 32],
    EvidenceError,
>)
    ensures
        refusal_of(digest) == closure_refusal(*digests),
        digest matches Ok(digest) ==> digest@ == sha256_of(
            utf8("naome-memory:scale-logical-closure:v1\0"@) + digests.canonical_closure@,
        ),
{
    read_digest(&digests.input_set)?;
    read_digest(&digests.plan)?;
    read_digest(&digests.receipt)?;
    read_digest(&digests.retrieval)?;
    Ok(
        domain_hasher("naome-memory:scale-logical-closure:v1\0").update(
            digests.canonical_closure.as_slice(),
        ).finish(),
    )
}

/// Whether a report says that the whole path was gone.
pub open spec fn is_complete(receipt: ScaleReceiptV1) -> bool {
    &&& receipt.plan_replay_verified
    &&& receipt.receipt_verified
    &&& receipt.apply_idempotent
    &&& receipt.semantic_atom_count > 0
    &&& receipt.episodic_winner_count > 0
    &&& receipt.normal_hit_count > 0
    &&& receipt.spontaneous_hit_count > 0
}

/// The status that the measurements of a report give.
pub open spec fn recomputed_status(receipt: ScaleReceiptV1) -> EvidenceStatusV1 {
    scale_status(
        receipt.atom_count,
        is_distributed(
            receipt.p50_body_bytes,
            receipt.p95_body_bytes,
            receipt.maximum_body_bytes,
        ),
        receipt.observed_wall_millis,
        receipt.observed_max_rss_bytes,
        receipt.observed_disk_bytes,
        is_git_commit(receipt.source_commit@),
    )
}

/// Why the structure of a report is refused.
pub open spec fn structure_refusal(
    receipt: ScaleReceiptV1,
    expected_atoms: usize,
    encoded: Seq<u8>,
    digests: ScaleDigests,
) -> Option<Seq<char>> {
    if !(receipt.contract_version@ == "scale-receipt-v1"@ && receipt.evidence_digest@
        == prefixed_hex("naome-memory:scale-evidence:v1\0"@, encoded)) {
        Some("unknown or tampered scale receipt"@)
    } else if receipt.atom_count != expected_atoms {
        Some(
            "scale atom count "@ + decimal(receipt.atom_count as nat) + " differs from expected "@
                + decimal(expected_atoms as nat),
        )
    } else if !(100 <= receipt.atom_count <= DEEP_SCALE_ATOM_COUNT) {
        Some("scale atom count is outside the supported proof envelope"@)
    } else if !is_complete(receipt) {
        Some("scale full-path closure is incomplete"@)
    } else {
        either_fault(
            digest_refusal(digests.atom_stream),
            either_fault(
                closure_refusal(digests),
                match digests.logical {
                    Err(reason) => Some(reason@),
                    Ok(logical) => either_fault(
                        fault_when(
                            logical@ != sha256_of(
                                utf8("naome-memory:scale-logical-closure:v1\0"@)
                                    + digests.canonical_closure@,
                            ),
                            "scale logical digest does not close"@,
                        ),
                        fault_when(
                            receipt.status != recomputed_status(receipt),
                            "scale evidence status "@ + receipt.status.name()
                                + " is inconsistent with recomputed status "@ + recomputed_status(
                                receipt,
                            ).name(),
                        ),
                    ),
                },
            ),
        )
    }
}

/// Checks the structure of a report, however the run ended.
pub fn verify_scale_receipt_structure(
    receipt: &ScaleReceiptV1,
    expected_atoms: usize,
    encoded: &[u8],
    digests: &ScaleDigests,
) -> (verdict: Result<(), EvidenceError>)
    ensures
        refusal_of(verdict) == structure_refusal(*receipt, expected_atoms, encoded@, *digests),
{
    let evidence_digest = scale_evidence_digest(encoded);
    if !same_text(receipt.contract_version.as_str(), "scale-receipt-v1") || !same_text(
        receipt.evidence_digest.as_str(),
        evidence_digest.as_str(),
    ) {
        return Err(refuse("unknown or tampered scale receipt"));
    }
    if receipt.atom_count != expected_atoms {
        let found = decimal_text(receipt.atom_count as u64);
        let expected = decimal_text(expected_atoms as u64);
        return Err(
            EvidenceError {
                message: text4(
                    "scale atom count ",
                    found.as_str(),
                    " differs from expected ",
                    expected.as_str(),
                ),
            },
        );
    }
    if receipt.atom_count < 100 || receipt.atom_count > DEEP_SCALE_ATOM_COUNT {
        return Err(refuse("scale atom count is outside the supported proof envelope"));
    }
    if !receipt.plan_replay_verified || !receipt.receipt_verified || !receipt.apply_idempotent
        || receipt.semantic_atom_count == 0 || receipt.episodic_winner_count == 0
        || receipt.normal_hit_count == 0 || receipt.spontaneous_hit_count == 0 {
        return Err(refuse("scale full-path closure is incomplete"));
    }
    read_digest(&digests.atom_stream)?;
    let expected_logical = recompute_scale_logical_digest(digests)?;
    let logical = read_digest(&digests.logical)?;
    if !same_bytes(logical.as_slice(), expected_logical.as_slice()) {
        return Err(refuse("scale logical digest does not close"));
    }
    let distributed = receipt.p50_body_bytes == 16384 && receipt.p95_body_bytes == 65536
        && receipt.maximum_body_bytes == 262144;
    let status = classify_scale_evidence(
        receipt.atom_count,
        distributed,
        receipt.observed_wall_millis,
        receipt.observed_max_rss_bytes,
        receipt.observed_disk_bytes,
        valid_git_commit(receipt.source_commit.as_str()),
    );
    if receipt.status != status {
        return Err(
            EvidenceError {
                message: text4(
                    "scale evidence status ",
                    receipt.status.name_text(),
                    " is inconsistent with recomputed status ",
                    status.name_text(),
                ),
            },
        );
    }
    Ok(())
}

/// How a measurement that may be missing is written.
pub open spec fn measured_text(value: Option<u64>) -> Seq<char> {
    match value {
        Some(value) => "Some("@ + decimal(value as nat) + ")"@,
        None => "None"@,
    }
}

fn write_measured(value: Option<u64>) -> (text: String)
    ensures
        text@ == measured_text(value),
{
    match value {
        Some(value) => {
            let number = decimal_text(value);
            crate::text::text3("Some(", number.as_str(), ")")
        },
        None => "None".to_owned(),
    }
}

/// Why a report of a run that did not pass is refused.
pub open spec fn status_refusal(receipt: ScaleReceiptV1) -> Option<Seq<char>> {
    fault_when(
        receipt.status != EvidenceStatusV1::Passed,
        "scale evidence status "@ + receipt.status.name() + " is not passed (source="@
            + receipt.source_commit@ + (", wall="@ + decimal(receipt.observed_wall_millis as nat)
            + "ms, rss="@ + measured_text(receipt.observed_max_rss_bytes) + (", disk="@
            + measured_text(receipt.observed_disk_bytes) + ")"@)),
    )
}

/// Checks the report of a scale run that must have passed.
pub fn verify_scale_receipt(
    receipt: &ScaleReceiptV1,
    expected_atoms: usize,
    encoded: &[u8],
    digests: &ScaleDigests,
) -> (verdict: Result<(), EvidenceError>)
    ensures
        refusal_of(verdict) == either_fault(
            structure_refusal(*receipt, expected_atoms, encoded@, *digests),
            status_refusal(*receipt),
        ),
{
    verify_scale_receipt_structure(receipt, expected_atoms, encoded, digests)?;
    if receipt.status != EvidenceStatusV1::Passed {
        let wall = decimal_text(receipt.observed_wall_millis);
        let rss = write_measured(receipt.observed_max_rss_bytes);
        let disk = write_measured(receipt.observed_disk_bytes);
        let head = text4(
            "scale evidence status ",
            receipt.status.name_text(),
            " is not passed (source=",
            receipt.source_commit.as_str(),
        );
        let middle = text4(", wall=", wall.as_str(), "ms, rss=", rss.as_str());
        let tail = crate::text::text3(", disk=", disk.as_str(), ")");
        let rest = crate::text::text2(middle.as_str(), tail.as_str());
        return Err(
            EvidenceError { message: crate::text::text2(head.as_str(), rest.as_str()) },
        );
    }
    Ok(())
}

/// Why a report is refused for the core receipt that is attached to it.
pub open spec fn binding_refusal(
    core: ProofReceipt,
    recomputed_id: ReadDigest,
    report: ScaleReceiptV1,
    digests: ScaleDigests,
) -> Option<Seq<char>> {
    if core.contract_version@ != "proof-receipt-v1"@ {
        Some("scale core retirement receipt id does not close"@)
    } else {
        match recomputed_id {
            Err(reason) => Some(reason@),
            Ok(recomputed) => if recomputed@ != core.receipt_id@ {
                Some("scale core retirement receipt id does not close"@)
            } else {
                either_fault(
                    either_fault(
                        digest_refusal(digests.receipt),
                        either_fault(
                            digest_refusal(digests.input_set),
                            digest_refusal(digests.plan),
                        ),
                    ),
                    if !(digests.receipt->Ok_0@ == core.receipt_id@ && digests.input_set->Ok_0@
                        == core.input_set_digest@ && digests.plan->Ok_0@ == core.plan_digest@) {
                        Some("scale report is not bound to the attached core retirement receipt"@)
                    } else if !(core.closure.source_atom_ids@.len() == report.atom_count
                        && core.closure.semantic_atom_ids@.len() == report.semantic_atom_count
                        && core.closure.exact_episode_ids@.len() == report.episodic_winner_count) {
                        Some(
                            "scale report counts do not match the attached core retirement closure"@,
                        )
                    } else if !(core.passed && has_all_invariants(core.invariants@)) {
                        Some(
                            "scale core retirement receipt does not claim the required verified invariants"@,
                        )
                    } else {
                        None
                    },
                )
            },
        }
    }
}

/// Checks that a report is bound to the core receipt that is attached to it.
pub fn verify_scale_core_binding(
    core: &ProofReceipt,
    recomputed_id: &ReadDigest,
    report: &ScaleReceiptV1,
    digests: &ScaleDigests,
) -> (verdict: Result<(), EvidenceError>)
    ensures
        refusal_of(verdict) == binding_refusal(*core, *recomputed_id, *report, *digests),
{
    if !same_text(core.contract_version.as_str(), "proof-receipt-v1") {
        return Err(refuse("scale core retirement receipt id does not close"));
    }
    let recomputed = read_digest(recomputed_id)?;
    if !same_bytes(recomputed.as_slice(), core.receipt_id.as_slice()) {
        return Err(refuse("scale core retirement receipt id does not close"));
    }
    let receipt_digest = read_digest(&digests.receipt)?;
    let input_set_digest = read_digest(&digests.input_set)?;
    let plan_digest = read_digest(&digests.plan)?;
    if !same_bytes(receipt_digest.as_slice(), core.receipt_id.as_slice()) || !same_bytes(
        input_set_digest.as_slice(),
        core.input_set_digest.as_slice(),
    ) || !same_bytes(plan_digest.as_slice(), core.plan_digest.as_slice()) {
        return Err(refuse("scale report is not bound to the attached core retirement receipt"));
    }
    if core.closure.source_atom_ids.len() != report.atom_count
        || core.closure.semantic_atom_ids.len() != report.semantic_atom_count
        || core.closure.exact_episode_ids.len() != report.episodic_winner_count {
        return Err(
            refuse("scale report counts do not match the attached core retirement closure"),
        );
    }
    if !core.passed || !all_invariants(&core.invariants) {
        return Err(
            refuse(
                "scale core retirement receipt does not claim the required verified invariants",
            ),
        );
    }
    Ok(())
}

/// Why a report is not published with the core receipt that is attached to it.
pub open spec fn publication_refusal(
    core: ProofReceipt,
    recomputed_id: ReadDigest,
    report: ScaleReceiptV1,
    expected_atoms: usize,
    encoded: Seq<u8>,
    digests: ScaleDigests,
) -> Option<Seq<char>> {
    either_fault(
        binding_refusal(core, recomputed_id, report, digests),
        structure_refusal(report, expected_atoms, encoded, digests),
    )
}

/// Accepts a report for publication with the core receipt that is attached to it. A report of a
/// run that did not pass is published too, as long as it is bound and closes.
pub fn admit_scale_evidence(
    core: &ProofReceipt,
    recomputed_id: &ReadDigest,
    report: &ScaleReceiptV1,
    expected_atoms: usize,
    encoded: &[u8],
    digests: &ScaleDigests,
) -> (verdict: Result<(), EvidenceError>)
    ensures
        refusal_of(verdict) == publication_refusal(
            *core,
            *recomputed_id,
            *report,
            expected_atoms,
            encoded@,
            *digests,
        ),
{
    verify_scale_core_binding(core, recomputed_id, report, digests)?;
    verify_scale_receipt_structure(report, expected_atoms, encoded, digests)
}

/// The status of a published report follows from its measurements: no report claims to have
/// passed over a limit that it broke or, for the deepest run, without a measurement.
pub proof fn law_published_status_follows_from_measurements(
    core: ProofReceipt,
    recomputed_id: ReadDigest,
    report: ScaleReceiptV1,
    expected_atoms: usize,
    encoded: Seq<u8>,
    digests: ScaleDigests,
)
    requires
        publication_refusal(core, recomputed_id, report, expected_atoms, encoded, digests) is None,
    ensures
        report.atom_count == expected_atoms,
        100 <= report.atom_count <= DEEP_SCALE_ATOM_COUNT,
        is_complete(report),
        report.status == recomputed_status(report),
        report.semantic_atom_count == core.closure.semantic_atom_ids@.len(),
        report.episodic_winner_count == core.closure.exact_episode_ids@.len(),
{
}

/// A path goes on exactly where what was seen belongs to the step and shows what the step is for: a
/// cohort of every atom, a plan with outputs and winners, the same plan and digest again, the very
/// receipt, the same receipt from the store and from the store again, an ordinary semantic hit with
/// one spontaneous episode, and a sound store.
pub proof fn law_scale_step_is_passed_exactly(
    step: ScaleStep,
    atoms: usize,
    seen: ScaleObservation,
)
    ensures
        next_step(step, atoms, seen) is Ok <==> (match step {
            ScaleStep::Persist => seen is Persisted,
            ScaleStep::Snapshot => seen matches ScaleObservation::Snapshot { atom_count }
                && atom_count == atoms,
            ScaleStep::Plan => seen matches ScaleObservation::Planned {
                semantic_atoms,
                episodic_winners,
            } && semantic_atoms > 0 && episodic_winners > 0,
            ScaleStep::ReplayPlan => seen matches ScaleObservation::PlanReplayed {
                same_plan,
                same_digest,
            } && same_plan && same_digest,
            ScaleStep::VerifyReceipt => seen matches ScaleObservation::ReceiptVerified {
                verified_id,
                expected_id,
            } && verified_id@ == expected_id@,
            ScaleStep::Apply => seen matches ScaleObservation::Applied { same_receipt }
                && same_receipt,
            ScaleStep::ReplayApply => seen matches ScaleObservation::ApplyReplayed {
                same_receipt,
            } && same_receipt,
            ScaleStep::Retrieve => seen matches ScaleObservation::Retrieved { hits, spontaneous }
                && (exists|i: int|
                0 <= i < hits@.len() && (#[trigger] hits@[i]).recall_reason is QueryRanked
                    && hits@[i].generality is Semantic) && (spontaneous matches Some(flashback)
                && flashback@.len() == 1 && flashback@[0].recall_reason is Spontaneous
                && flashback@[0].generality is SingleEpisode),
            ScaleStep::CheckIntegrity => seen is IntegrityChecked,
            ScaleStep::Publish => false,
        }),
        next_step(step, atoms, seen) matches Ok(next) ==> steps_before(next) == steps_before(step)
            + 1,
{
}

/// A report says what was measured, of the commit that it is bound to.
pub proof fn law_report_says_what_was_measured(
    report: ScaleReceiptV1,
    facts: ScaleFacts,
    source_commit: Option<Seq<char>>,
)
    requires
        is_report_of(report, facts, source_commit),
    ensures
        report.contract_version@ == "scale-receipt-v1"@,
        source_commit matches Some(commit) ==> report.source_commit@ == commit,
        source_commit is None ==> report.source_commit@ == "uncommitted"@,
        report.status == scale_status(
            facts.atom_count,
            facts.sizes.p50_body_bytes == 16 * 1024 && facts.sizes.p95_body_bytes == 64 * 1024
                && facts.sizes.maximum_body_bytes == 256 * 1024,
            facts.observed_wall_millis,
            facts.observed_max_rss_bytes,
            facts.observed_disk_bytes,
            source_commit is Some,
        ),
        report.atom_count == facts.atom_count,
        report.p50_body_bytes == facts.sizes.p50_body_bytes,
        report.p95_body_bytes == facts.sizes.p95_body_bytes,
        report.maximum_body_bytes == facts.sizes.maximum_body_bytes,
        report.logical_body_bytes == facts.logical_body_bytes,
        report.atom_stream_digest == facts.atom_stream_digest,
        report.logical_digest@ == hex_text(
            sha256_of(
                utf8("naome-memory:scale-logical-closure:v1\0"@) + facts.canonical_closure@,
            ),
        ),
        report.retrieval_digest@ == hex_text(
            sha256_of(utf8("naome-memory:scale-retrieval:v1\0"@) + facts.canonical_retrieval@),
        ),
        report.input_set_digest@ == hex_text(facts.input_set_digest@),
        report.plan_digest@ == hex_text(facts.plan_digest@),
        report.receipt_digest@ == hex_text(facts.receipt_digest@),
        report.semantic_atom_count == facts.semantic_atom_count,
        report.episodic_winner_count == facts.episodic_winner_count,
        report.normal_hit_count == facts.normal_hit_count,
        report.spontaneous_hit_count == facts.spontaneous_hit_count,
        report.plan_replay_verified && report.receipt_verified && report.apply_idempotent,
        report.observed_wall_millis == facts.observed_wall_millis,
        report.observed_max_rss_bytes == facts.observed_max_rss_bytes,
        report.observed_disk_bytes == facts.observed_disk_bytes,
        report.evidence_digest@.len() == 0,
{
}

/// A scale receipt closes exactly where it is of its contract and has its own digest, is of the
/// expected and a supported number of atoms, saw the whole path with outputs, winners and hits, its
/// digests can be read, its logical digest is that of its closure, and its status is that of its
/// measurements.
pub proof fn law_scale_receipt_closes_exactly(
    receipt: ScaleReceiptV1,
    expected_atoms: usize,
    encoded: Seq<u8>,
    digests: ScaleDigests,
)
    ensures
        structure_refusal(receipt, expected_atoms, encoded, digests) is None <==> {
            &&& receipt.contract_version@ == "scale-receipt-v1"@
            &&& receipt.evidence_digest@ == hex_text(
                sha256_of(utf8("naome-memory:scale-evidence:v1\0"@) + encoded),
            )
            &&& receipt.atom_count == expected_atoms
            &&& 100 <= receipt.atom_count <= 100_000
            &&& receipt.plan_replay_verified
            &&& receipt.receipt_verified
            &&& receipt.apply_idempotent
            &&& receipt.semantic_atom_count > 0
            &&& receipt.episodic_winner_count > 0
            &&& receipt.normal_hit_count > 0
            &&& receipt.spontaneous_hit_count > 0
            &&& digests.atom_stream is Ok
            &&& digests.input_set is Ok
            &&& digests.plan is Ok
            &&& digests.receipt is Ok
            &&& digests.retrieval is Ok
            &&& digests.logical matches Ok(logical)
            &&& logical@ == sha256_of(
                utf8("naome-memory:scale-logical-closure:v1\0"@) + digests.canonical_closure@,
            )
            &&& receipt.status == scale_status(
                receipt.atom_count,
                receipt.p50_body_bytes == 16 * 1024 && receipt.p95_body_bytes == 64 * 1024
                    && receipt.maximum_body_bytes == 256 * 1024,
                receipt.observed_wall_millis,
                receipt.observed_max_rss_bytes,
                receipt.observed_disk_bytes,
                is_git_commit(receipt.source_commit@),
            )
        },
        status_refusal(receipt) is None <==> receipt.status is Passed,
{
}

/// A scale report is bound to a core receipt exactly where that receipt has its own identity, the
/// report names its receipt, its input and its plan, counts its sources, its outputs and its
/// winners, and it passed with all of its invariants.
pub proof fn law_report_is_bound_to_its_receipt_exactly(
    core: ProofReceipt,
    recomputed_id: ReadDigest,
    report: ScaleReceiptV1,
    digests: ScaleDigests,
)
    ensures
        binding_refusal(core, recomputed_id, report, digests) is None <==> {
            &&& core.contract_version@ == "proof-receipt-v1"@
            &&& recomputed_id matches Ok(recomputed)
            &&& recomputed@ == core.receipt_id@
            &&& digests.receipt matches Ok(receipt)
            &&& receipt@ == core.receipt_id@
            &&& digests.input_set matches Ok(input_set)
            &&& input_set@ == core.input_set_digest@
            &&& digests.plan matches Ok(plan)
            &&& plan@ == core.plan_digest@
            &&& report.atom_count == core.closure.source_atom_ids@.len()
            &&& report.semantic_atom_count == core.closure.semantic_atom_ids@.len()
            &&& report.episodic_winner_count == core.closure.exact_episode_ids@.len()
            &&& core.passed
            &&& has_all_invariants(core.invariants@)
        },
{
}

} // verus!
