//! Verifying a persisted proof receipt against everything that the store holds for its run.

use vstd::prelude::*;
use vstd::string::*;

use crate::bags::byte_strings;
use crate::bytemap::ByteMap;
use crate::digest::{sha256, sha256_of};
use crate::edges::group_of;
use crate::error::{Fault, StoreError, either_fault, fault_of, fault_when, integrity};
use crate::folding::{
    first_fault, first_indexed, lemma_first_fault_step, lemma_first_fault_stops,
    lemma_first_indexed_stops, lemma_no_first_fault, lemma_no_first_indexed,
};
use crate::groups::{DigestGroups, group_views, same_groups};
use crate::messages::{integrity_about, integrity_fault};
use crate::model::{CoreAtom, Policy};
use crate::plan::{
    PlanDecision, PlannedSemantic, ReceiptClosure, RetirementPlan, decision_name, decision_text,
};
use crate::post_state::{
    BoundDecision, PostStateView, RetirementPostState, RetirementPostStateAtom, SourceDecision,
    StoredPostStateAtom, bound_decision, expected_state, forgets_source, has_nothing_left,
    law_live_state_transition_is_transitive, lemma_counting_goes_on, lemma_transitions,
    live_state_fault, only_counted, post_atom_fault, post_atom_of, post_atoms,
    post_state_atom_from_stored, same_structure, transition_fault,
    validate_live_post_state_transition,
};
use crate::receipt_closure::{
    DecisionView, LotteryPopulation, RunDecision, RunDecisionRow, RunPinRow, WinnerRow,
    capped_share, check_lottery, check_pins, check_sources, decision_list, decision_row_fault,
    is_population, lottery_closure_fault, pins_closure_fault, read_decisions, read_digests,
    row_decisions, sources_fault,
};
use crate::receipt_fields::{
    ProofReceipt, ReceiptReading, ReceiptRow, StoredAppliedRun, binding_fault, check_binding,
    check_fields, fields_fault,
};
use crate::receipt_outputs::{
    OutputRow, check_outputs, classification_fault, closed_decision, outputs_fault, output_totals,
};
use crate::records::copy_digests;
use crate::stored::{digest_array, digest_fault, digest_seq, same_digest, same_digests};
use crate::text::{same_bytes, same_text};

verus! {

/// The row of the state that a run projected.
#[derive(Clone, Debug)]
pub struct PostStateRow {
    pub state_digest: Vec<u8>,
    pub canonical_state: Vec<u8>,
    pub json_projection: String,
}

/// A projected state as its JSON projection reads, with what the memory core says of it.
#[derive(Clone, Debug)]
pub struct PostStateReading {
    pub state: RetirementPostState,
    pub digest: [u8; 32],
    pub canonical_state: Vec<u8>,
    pub json_projection: String,
}

/// The fault of the row of a projected state.
pub open spec fn post_state_row_fault(
    run_id: Seq<u8>,
    row: Option<PostStateRow>,
    reading: Result<PostStateReading, String>,
) -> Option<Fault> {
    let invalid = integrity_fault(
        "retirement run "@,
        run_id,
        " has invalid immutable post-state evidence"@,
    );
    match row {
        None => Some(
            integrity_fault(
                "retirement run "@,
                run_id,
                " is missing immutable post-state evidence"@,
            ),
        ),
        Some(row) => match reading {
            Err(text) => Some(Fault::Json(text@)),
            Ok(reading) => either_fault(
                fault_when(reading.canonical_state@ != row.canonical_state@, invalid),
                either_fault(
                    digest_fault(row.state_digest@, "retirement state_digest"@),
                    fault_when(
                        reading.digest@ != row.state_digest@ || reading.json_projection@
                            != row.json_projection@,
                        invalid,
                    ),
                ),
            ),
        },
    }
}

/// Accepts the state that a run projected as its row holds it.
pub fn load_retirement_post_state<'a>(
    run_id: &[u8; 32],
    row: &Option<PostStateRow>,
    reading: &'a Result<PostStateReading, String>,
) -> (state: Result<&'a PostStateReading, StoreError>)
    ensures
        fault_of(state) == post_state_row_fault(run_id@, *row, *reading),
        state matches Ok(state) ==> *reading == Ok::<PostStateReading, String>(*state),
{
    let row = match row {
        Some(row) => row,
        None => return Err(
            integrity_about(
                "retirement run ",
                run_id,
                " is missing immutable post-state evidence",
            ),
        ),
    };
    let reading = match reading {
        Ok(reading) => reading,
        Err(text) => return Err(StoreError::Json(text.clone())),
    };
    if !same_bytes(reading.canonical_state.as_slice(), row.canonical_state.as_slice()) {
        return Err(
            integrity_about(
                "retirement run ",
                run_id,
                " has invalid immutable post-state evidence",
            ),
        );
    }
    let digest = digest_array(row.state_digest.as_slice(), "retirement state_digest")?;
    if !same_digest(&reading.digest, &digest) || !same_text(
        reading.json_projection.as_str(),
        row.json_projection.as_str(),
    ) {
        return Err(
            integrity_about(
                "retirement run ",
                run_id,
                " has invalid immutable post-state evidence",
            ),
        );
    }
    Ok(reading)
}

// ---------------------------------------------------------------------------------------------
// The live state of a retired cohort

/// The rows of an atom of a retired cohort, what its JSON projection reads as, and how many
/// full-text rows it has.
#[derive(Debug)]
pub struct LiveAtomRow {
    pub stored: StoredPostStateAtom,
    pub parsed: Result<CoreAtom, String>,
    pub fts_rows: i64,
}

/// What the store holds now for the atoms of a retired cohort.
pub struct LiveEvidence {
    pub sources: Vec<LiveAtomRow>,
    pub forgotten_fts_rows: i64,
    pub forgotten_artifact_refs: i64,
    pub outputs: ByteMap<LiveAtomRow>,
}

/// The decision about the source at place `i`.
pub open spec fn source_decision(
    receipt: ProofReceipt,
    decisions: Seq<DecisionView>,
    i: int,
) -> Option<BoundDecision> {
    Some(BoundDecision { decision: decisions[i].decision, run_id: receipt.run_id@ })
}

/// The fault of the source at place `i`.
pub open spec fn live_source_fault(
    receipt: ProofReceipt,
    decisions: Seq<DecisionView>,
    pins: Map<Seq<u8>, Seq<Seq<u8>>>,
    sources: Seq<LiveAtomRow>,
    i: int,
) -> Option<Fault> {
    let row = sources[i];
    either_fault(
        digest_fault(row.stored.atom_id@, "post-state atom_id"@),
        either_fault(
            fault_when(
                row.stored.atom_id@ != decisions[i].atom_id,
                Fault::Integrity("persisted post-state order does not match decisions"@),
            ),
            post_atom_fault(
                row.stored,
                row.parsed,
                row.fts_rows,
                receipt.memory_space_id@,
                source_decision(receipt, decisions, i),
                group_of(pins, row.stored.atom_id@),
            ),
        ),
    )
}

/// The fault of an output of a run.
pub open spec fn live_output_fault(
    receipt: ProofReceipt,
    rows: Map<Seq<u8>, LiveAtomRow>,
    output: Seq<u8>,
) -> Option<Fault> {
    if !rows.contains_key(output) {
        Some(integrity_fault("semantic post-state atom "@, output, " is missing"@))
    } else {
        let row = rows[output];
        post_atom_fault(
            row.stored,
            row.parsed,
            row.fts_rows,
            receipt.memory_space_id@,
            None,
            Seq::empty(),
        )
    }
}

/// The fault of a retired cohort whose live state is not what its decisions call for.
pub open spec fn live_fault(
    receipt: ProofReceipt,
    decisions: Seq<DecisionView>,
    pins: Map<Seq<u8>, Seq<Seq<u8>>>,
    live: LiveEvidence,
) -> Option<Fault> {
    if live.sources@.len() != decisions.len() {
        Some(Fault::Integrity("persisted post-state does not close over every decision"@))
    } else {
        either_fault(
            first_indexed(
                decisions.len(),
                |i: int| live_source_fault(receipt, decisions, pins, live.sources@, i),
            ),
            either_fault(
                fault_when(
                    live.forgotten_fts_rows != 0 || live.forgotten_artifact_refs != 0,
                    Fault::Integrity(
                        "forgotten source retains FTS or live artifact-reference state"@,
                    ),
                ),
                first_fault(
                    receipt.closure.semantic_atom_ids@,
                    |output: [u8; 32]| live_output_fault(receipt, live.outputs@, output@),
                ),
            ),
        )
    }
}

/// The live state of a retired cohort.
pub open spec fn live_state(
    receipt: ProofReceipt,
    decisions: Seq<DecisionView>,
    pins: Map<Seq<u8>, Seq<Seq<u8>>>,
    live: LiveEvidence,
    atom_hash_domain: Seq<u8>,
) -> PostStateView {
    PostStateView {
        memory_space_id: receipt.memory_space_id@,
        source_atoms: Seq::new(
            decisions.len(),
            |i: int|
                post_atom_of(
                    live.sources@[i].stored,
                    source_decision(receipt, decisions, i),
                    group_of(pins, live.sources@[i].stored.atom_id@),
                    atom_hash_domain,
                ),
        ),
        semantic_atoms: Seq::new(
            receipt.closure.semantic_atom_ids@.len(),
            |i: int|
                post_atom_of(
                    live.outputs@[receipt.closure.semantic_atom_ids@[i]@].stored,
                    None,
                    Seq::empty(),
                    atom_hash_domain,
                ),
        ),
    }
}

fn pins_of(pins: &DigestGroups, atom_id: &[u8]) -> (digests: Vec<[u8; 32]>)
    ensures
        digest_seq(digests@) == group_of(group_views(*pins), atom_id@),
{
    match pins.get(atom_id) {
        Some(digests) => {
            let copy = copy_digests(digests);
            assert(group_views(*pins).contains_key(atom_id@));
            copy
        },
        None => {
            assert(!group_views(*pins).contains_key(atom_id@));
            let digests: Vec<[u8; 32]> = Vec::new();
            assert(digest_seq(digests@) =~= Seq::<Seq<u8>>::empty());
            digests
        },
    }
}

fn read_live_source(
    receipt: &ProofReceipt,
    decisions: &Vec<RunDecision>,
    pins: &DigestGroups,
    sources: &Vec<LiveAtomRow>,
    i: usize,
    atom_hash_domain: &[u8],
) -> (atom: Result<RetirementPostStateAtom, StoreError>)
    requires
        i < decisions@.len(),
        i < sources@.len(),
    ensures
        fault_of(atom) == live_source_fault(
            *receipt,
            decision_list(decisions@),
            group_views(*pins),
            sources@,
            i as int,
        ),
        atom matches Ok(atom) ==> atom@ == post_atom_of(
            sources@[i as int].stored,
            source_decision(*receipt, decision_list(decisions@), i as int),
            group_of(group_views(*pins), sources@[i as int].stored.atom_id@),
            atom_hash_domain@,
        ),
{
    let row = &sources[i];
    let atom_id = digest_array(row.stored.atom_id.as_slice(), "post-state atom_id")?;
    if !same_digest(&atom_id, &decisions[i].atom_id) {
        return Err(integrity("persisted post-state order does not match decisions"));
    }
    let decision = Some(
        SourceDecision { decision: decisions[i].decision.clone(), run_id: receipt.run_id },
    );
    assert(bound_decision(decision) == source_decision(
        *receipt,
        decision_list(decisions@),
        i as int,
    ));
    let kept = pins_of(pins, row.stored.atom_id.as_slice());
    post_state_atom_from_stored(
        &row.stored,
        &row.parsed,
        row.fts_rows,
        receipt.memory_space_id.as_str(),
        &decision,
        kept,
        atom_hash_domain,
    )
}

#[verifier::loop_isolation(false)]
fn read_live_sources(
    receipt: &ProofReceipt,
    decisions: &Vec<RunDecision>,
    pins: &DigestGroups,
    sources: &Vec<LiveAtomRow>,
    atom_hash_domain: &[u8],
) -> (atoms: Result<Vec<RetirementPostStateAtom>, StoreError>)
    requires
        sources@.len() == decisions@.len(),
    ensures
        fault_of(atoms) == first_indexed(
            decisions@.len(),
            |i: int| live_source_fault(*receipt, decision_list(decisions@), group_views(*pins), sources@, i),
        ),
        atoms matches Ok(atoms) ==> atoms@.len() == decisions@.len() && forall|i: int|
            0 <= i < atoms@.len() ==> (#[trigger] atoms@[i])@ == post_atom_of(
                sources@[i].stored,
                source_decision(*receipt, decision_list(decisions@), i),
                group_of(group_views(*pins), sources@[i].stored.atom_id@),
                atom_hash_domain@,
            ),
{
    let ghost faulty = |i: int|
        live_source_fault(*receipt, decision_list(decisions@), group_views(*pins), sources@, i);
    let mut atoms: Vec<RetirementPostStateAtom> = Vec::new();
    let mut i: usize = 0;
    while i < decisions.len()
        invariant
            i <= decisions@.len(),
            first_indexed(i as nat, faulty) is None,
            atoms@.len() == i,
            forall|k: int|
                0 <= k < i ==> (#[trigger] atoms@[k])@ == post_atom_of(
                    sources@[k].stored,
                    source_decision(*receipt, decision_list(decisions@), k),
                    group_of(group_views(*pins), sources@[k].stored.atom_id@),
                    atom_hash_domain@,
                ),
        decreases decisions@.len() - i,
    {
        match read_live_source(receipt, decisions, pins, sources, i, atom_hash_domain) {
            Ok(atom) => {
                atoms.push(atom);
            },
            Err(error) => {
                proof {
                    lemma_first_indexed_stops(decisions@.len(), faulty, (i + 1) as nat);
                }
                return Err(error);
            },
        }
        i += 1;
    }
    Ok(atoms)
}

fn read_live_output(
    receipt: &ProofReceipt,
    rows: &ByteMap<LiveAtomRow>,
    output: &[u8; 32],
    atom_hash_domain: &[u8],
) -> (atom: Result<RetirementPostStateAtom, StoreError>)
    ensures
        fault_of(atom) == live_output_fault(*receipt, rows@, output@),
        atom matches Ok(atom) ==> atom@ == post_atom_of(
            rows@[output@].stored,
            None,
            Seq::empty(),
            atom_hash_domain@,
        ),
{
    let row = match rows.get(output.as_slice()) {
        Some(row) => row,
        None => return Err(integrity_about("semantic post-state atom ", output, " is missing")),
    };
    let kept: Vec<[u8; 32]> = Vec::new();
    assert(digest_seq(kept@) =~= Seq::<Seq<u8>>::empty());
    post_state_atom_from_stored(
        &row.stored,
        &row.parsed,
        row.fts_rows,
        receipt.memory_space_id.as_str(),
        &None,
        kept,
        atom_hash_domain,
    )
}

#[verifier::loop_isolation(false)]
fn read_live_outputs(
    receipt: &ProofReceipt,
    rows: &ByteMap<LiveAtomRow>,
    atom_hash_domain: &[u8],
) -> (atoms: Result<Vec<RetirementPostStateAtom>, StoreError>)
    ensures
        fault_of(atoms) == first_fault(
            receipt.closure.semantic_atom_ids@,
            |output: [u8; 32]| live_output_fault(*receipt, rows@, output@),
        ),
        atoms matches Ok(atoms) ==> atoms@.len() == receipt.closure.semantic_atom_ids@.len()
            && forall|i: int|
            0 <= i < atoms@.len() ==> (#[trigger] atoms@[i])@ == post_atom_of(
                rows@[receipt.closure.semantic_atom_ids@[i]@].stored,
                None,
                Seq::empty(),
                atom_hash_domain@,
            ),
{
    let ghost faulty = |output: [u8; 32]| live_output_fault(*receipt, rows@, output@);
    let ghost outputs = receipt.closure.semantic_atom_ids@;
    let mut atoms: Vec<RetirementPostStateAtom> = Vec::new();
    let mut i: usize = 0;
    assert(outputs.subrange(0, 0) =~= Seq::<[u8; 32]>::empty());
    while i < receipt.closure.semantic_atom_ids.len()
        invariant
            i <= outputs.len(),
            first_fault(outputs.subrange(0, i as int), faulty) is None,
            atoms@.len() == i,
            forall|k: int|
                0 <= k < i ==> (#[trigger] atoms@[k])@ == post_atom_of(
                    rows@[outputs[k]@].stored,
                    None,
                    Seq::empty(),
                    atom_hash_domain@,
                ),
        decreases outputs.len() - i,
    {
        proof {
            lemma_first_fault_step(outputs, faulty, i as int);
        }
        match read_live_output(
            receipt,
            rows,
            &receipt.closure.semantic_atom_ids[i],
            atom_hash_domain,
        ) {
            Ok(atom) => {
                atoms.push(atom);
            },
            Err(error) => {
                proof {
                    lemma_first_fault_stops(outputs, faulty, i + 1);
                }
                return Err(error);
            },
        }
        i += 1;
    }
    assert(outputs.subrange(0, i as int) =~= outputs);
    Ok(atoms)
}

/// Reads the live state of a retired cohort and checks that every atom is what its decision calls
/// for.
pub fn recompute_persisted_post_state(
    receipt: &ProofReceipt,
    decisions: &Vec<RunDecision>,
    pins: &DigestGroups,
    live: &LiveEvidence,
    atom_hash_domain: &[u8],
) -> (state: Result<RetirementPostState, StoreError>)
    ensures
        fault_of(state) == live_fault(*receipt, decision_list(decisions@), group_views(*pins), *live),
        state matches Ok(state) ==> state@ == live_state(
            *receipt,
            decision_list(decisions@),
            group_views(*pins),
            *live,
            atom_hash_domain@,
        ),
{
    if live.sources.len() != decisions.len() {
        return Err(integrity("persisted post-state does not close over every decision"));
    }
    let source_atoms = read_live_sources(
        receipt,
        decisions,
        pins,
        &live.sources,
        atom_hash_domain,
    )?;
    if live.forgotten_fts_rows != 0 || live.forgotten_artifact_refs != 0 {
        return Err(integrity("forgotten source retains FTS or live artifact-reference state"));
    }
    let semantic_atoms = read_live_outputs(receipt, &live.outputs, atom_hash_domain)?;
    let state = RetirementPostState {
        memory_space_id: receipt.memory_space_id.clone(),
        source_atoms,
        semantic_atoms,
    };
    proof {
        let expected = live_state(
            *receipt,
            decision_list(decisions@),
            group_views(*pins),
            *live,
            atom_hash_domain@,
        );
        assert(post_atoms(state.source_atoms@) =~= expected.source_atoms);
        assert(post_atoms(state.semantic_atoms@) =~= expected.semantic_atoms);
    }
    Ok(state)
}

// ---------------------------------------------------------------------------------------------
// The plan of a run

#[verifier::loop_isolation(false)]
fn same_post_atoms(a: &Vec<RetirementPostStateAtom>, b: &Vec<RetirementPostStateAtom>) -> (same:
    bool)
    ensures
        same == (post_atoms(a@) == post_atoms(b@)),
{
    let ghost left = post_atoms(a@);
    let ghost right = post_atoms(b@);
    if a.len() != b.len() {
        assert(left.len() != right.len());
        return false;
    }
    let mut i: usize = 0;
    while i < a.len()
        invariant
            i <= a@.len(),
            forall|k: int| 0 <= k < i ==> #[trigger] left[k] == right[k],
        decreases a@.len() - i,
    {
        if !same_structure(&a[i], &b[i]) || a[i].feedback_positive != b[i].feedback_positive
            || a[i].feedback_negative != b[i].feedback_negative || a[i].retrieval_count
            != b[i].retrieval_count {
            assert(left[i as int] != right[i as int]);
            return false;
        }
        assert(left[i as int] == right[i as int]);
        i += 1;
    }
    assert(left =~= right);
    true
}

fn same_post_state(a: &RetirementPostState, b: &RetirementPostState) -> (same: bool)
    ensures
        same == (a@ == b@),
{
    same_text(a.memory_space_id.as_str(), b.memory_space_id.as_str()) && same_post_atoms(
        &a.source_atoms,
        &b.source_atoms,
    ) && same_post_atoms(&a.semantic_atoms, &b.semantic_atoms)
}

/// Whether two receipts close over the same atoms and artifacts.
pub open spec fn is_same_closure(a: ReceiptClosure, b: ReceiptClosure) -> bool {
    &&& digest_seq(a.source_atom_ids@) == digest_seq(b.source_atom_ids@)
    &&& digest_seq(a.semantic_atom_ids@) == digest_seq(b.semantic_atom_ids@)
    &&& digest_seq(a.exact_episode_ids@) == digest_seq(b.exact_episode_ids@)
    &&& group_views(a.exact_artifact_digests) == group_views(b.exact_artifact_digests)
}

fn same_closure(a: &ReceiptClosure, b: &ReceiptClosure) -> (same: bool)
    ensures
        same == is_same_closure(*a, *b),
{
    same_digests(a.source_atom_ids.as_slice(), b.source_atom_ids.as_slice()) && same_digests(
        a.semantic_atom_ids.as_slice(),
        b.semantic_atom_ids.as_slice(),
    ) && same_digests(a.exact_episode_ids.as_slice(), b.exact_episode_ids.as_slice())
        && same_groups(&a.exact_artifact_digests, &b.exact_artifact_digests)
}

/// Whether a receipt and the state that its run projected are those of a plan.
pub open spec fn closes_over_plan(
    receipt: ProofReceipt,
    historical: PostStateView,
    decision_count: nat,
    plan: RetirementPlan,
) -> bool {
    &&& receipt.memory_space_id@ == plan.memory_space_id@
    &&& receipt.cohort_day == plan.cohort_day
    &&& receipt.as_of_us == plan.as_of_us
    &&& receipt.policy_id@ == plan.policy_id@
    &&& receipt.policy_digest@ == plan.policy_digest@
    &&& receipt.seed@ == plan.seed@
    &&& receipt.input_set_digest@ == plan.input_set_digest@
    &&& receipt.rng_identifier@ == plan.rng_identifier@
    &&& receipt.population_digest@ == plan.episodic_population_digest@
    &&& receipt.episodic_population_count == plan.episodic_population_count
    &&& receipt.episodic_winner_budget == plan.episodic_winner_budget
    &&& receipt.episodic_winner_bytes == plan.episodic_winner_bytes
    &&& receipt.semantic_count_budget == plan.semantic_count_budget
    &&& receipt.semantic_body_bytes == plan.semantic_body_bytes
    &&& receipt.plan_digest@ == plan.digest@
    &&& receipt.decision_digest@ == plan.decision_digest@
    &&& receipt.state_digest@ == plan.projected_state_digest@
    &&& historical == plan.projected_post_state@
    &&& is_same_closure(receipt.closure, plan.closure)
    &&& decision_count == plan.decisions@.len()
}

fn plan_closed(
    receipt: &ProofReceipt,
    historical: &RetirementPostState,
    decision_count: usize,
    plan: &RetirementPlan,
) -> (closed: bool)
    ensures
        closed == closes_over_plan(*receipt, historical@, decision_count as nat, *plan),
{
    same_text(receipt.memory_space_id.as_str(), plan.memory_space_id.as_str())
        && receipt.cohort_day == plan.cohort_day && receipt.as_of_us == plan.as_of_us && same_text(
        receipt.policy_id.as_str(),
        plan.policy_id.as_str(),
    ) && same_digest(&receipt.policy_digest, &plan.policy_digest) && same_digest(
        &receipt.seed,
        &plan.seed,
    ) && same_digest(&receipt.input_set_digest, &plan.input_set_digest) && same_text(
        receipt.rng_identifier.as_str(),
        plan.rng_identifier.as_str(),
    ) && same_digest(&receipt.population_digest, &plan.episodic_population_digest)
        && receipt.episodic_population_count == plan.episodic_population_count
        && receipt.episodic_winner_budget == plan.episodic_winner_budget
        && receipt.episodic_winner_bytes == plan.episodic_winner_bytes
        && receipt.semantic_count_budget == plan.semantic_count_budget
        && receipt.semantic_body_bytes == plan.semantic_body_bytes && same_digest(
        &receipt.plan_digest,
        &plan.digest,
    ) && same_digest(&receipt.decision_digest, &plan.decision_digest) && same_digest(
        &receipt.state_digest,
        &plan.projected_state_digest,
    ) && same_post_state(historical, &plan.projected_post_state) && same_closure(
        &receipt.closure,
        &plan.closure,
    ) && decision_count == plan.decisions.len()
}

/// Whether a persisted decision is the one that a plan made.
pub open spec fn is_planned(decision: DecisionView, planned: PlanDecision) -> bool {
    &&& decision.atom_id == planned.atom_id@
    &&& decision.decision == decision_name(planned)
    &&& decision.canonical_details == planned.canonical@
    &&& decision.details_digest == sha256_of(planned.canonical@)
}

/// The fault of a planned output whose stored body is not the planned one.
pub open spec fn planned_output_fault(
    rows: Map<Seq<u8>, OutputRow>,
    planned: PlannedSemantic,
) -> Option<Fault> {
    if !rows.contains_key(planned.atom_id@) {
        Some(Fault::Sqlite("Query returned no rows"@))
    } else {
        let row = rows[planned.atom_id@];
        fault_when(
            row.canonical_body@ != planned.atom.authority.canonical_body@ || row.json_projection@
                != planned.atom.authority.json_projection@,
            Fault::Integrity("persisted semantic body does not match the replayed core plan"@),
        )
    }
}

/// The fault of a receipt that is not that of a plan.
pub open spec fn replay_fault(
    receipt: ProofReceipt,
    historical: PostStateView,
    decisions: Seq<DecisionView>,
    rows: Map<Seq<u8>, OutputRow>,
    plan: RetirementPlan,
) -> Option<Fault> {
    if !closes_over_plan(receipt, historical, decisions.len(), plan) {
        Some(Fault::Integrity("persisted receipt does not close over the replayed core plan"@))
    } else {
        either_fault(
            fault_when(
                exists|i: int|
                    0 <= i < decisions.len() && !is_planned(
                        #[trigger] decisions[i],
                        plan.decisions@[i],
                    ),
                Fault::Integrity(
                    "persisted decision details do not match the replayed core plan"@,
                ),
            ),
            first_fault(
                plan.semantic_atoms@,
                |planned: PlannedSemantic| planned_output_fault(rows, planned),
            ),
        )
    }
}

fn follows_plan(decision: &RunDecision, planned: &PlanDecision) -> (follows: bool)
    ensures
        follows == is_planned(decision@, *planned),
{
    let digest = sha256(planned.canonical.as_slice());
    same_digest(&decision.atom_id, &planned.atom_id) && same_text(
        decision.decision.as_str(),
        decision_text(planned),
    ) && same_bytes(decision.canonical_details.as_slice(), planned.canonical.as_slice())
        && same_digest(&decision.details_digest, &digest)
}

fn check_planned_output(rows: &ByteMap<OutputRow>, planned: &PlannedSemantic) -> (verdict: Result<
    (),
    StoreError,
>)
    ensures
        fault_of(verdict) == planned_output_fault(rows@, *planned),
{
    let row = match rows.get(planned.atom_id.as_slice()) {
        Some(row) => row,
        None => return Err(StoreError::Sqlite("Query returned no rows".to_owned())),
    };
    if !same_bytes(
        row.canonical_body.as_slice(),
        planned.atom.authority.canonical_body.as_slice(),
    ) || !same_text(
        row.json_projection.as_str(),
        planned.atom.authority.json_projection.as_str(),
    ) {
        return Err(integrity("persisted semantic body does not match the replayed core plan"));
    }
    Ok(())
}

/// Checks that a receipt, its decisions and its outputs are those of a plan.
#[verifier::loop_isolation(false)]
pub fn check_replay(
    receipt: &ProofReceipt,
    historical: &RetirementPostState,
    decisions: &Vec<RunDecision>,
    rows: &ByteMap<OutputRow>,
    plan: &RetirementPlan,
) -> (verdict: Result<(), StoreError>)
    ensures
        fault_of(verdict) == replay_fault(
            *receipt,
            historical@,
            decision_list(decisions@),
            rows@,
            *plan,
        ),
{
    if !plan_closed(receipt, historical, decisions.len(), plan) {
        return Err(integrity("persisted receipt does not close over the replayed core plan"));
    }
    let mut i: usize = 0;
    while i < decisions.len()
        invariant
            i <= decisions@.len() == plan.decisions@.len(),
            forall|k: int|
                0 <= k < i ==> is_planned(
                    #[trigger] decision_list(decisions@)[k],
                    plan.decisions@[k],
                ),
        decreases decisions@.len() - i,
    {
        if !follows_plan(&decisions[i], &plan.decisions[i]) {
            assert(!is_planned(
                decision_list(decisions@)[i as int],
                plan.decisions@[i as int],
            ));
            return Err(
                integrity("persisted decision details do not match the replayed core plan"),
            );
        }
        i += 1;
    }
    let ghost faulty = |planned: PlannedSemantic| planned_output_fault(rows@, planned);
    let ghost outputs = plan.semantic_atoms@;
    let mut j: usize = 0;
    assert(outputs.subrange(0, 0) =~= Seq::<PlannedSemantic>::empty());
    while j < plan.semantic_atoms.len()
        invariant
            j <= outputs.len(),
            first_fault(outputs.subrange(0, j as int), faulty) is None,
        decreases outputs.len() - j,
    {
        proof {
            lemma_first_fault_step(outputs, faulty, j as int);
        }
        match check_planned_output(rows, &plan.semantic_atoms[j]) {
            Ok(_) => {},
            Err(error) => {
                proof {
                    lemma_first_fault_stops(outputs, faulty, j + 1);
                }
                return Err(error);
            },
        }
        j += 1;
    }
    assert(outputs.subrange(0, j as int) =~= outputs);
    Ok(())
}

// ---------------------------------------------------------------------------------------------
// The whole receipt

/// Everything that the store holds for a run.
pub struct RunEvidence {
    pub run: Option<StoredAppliedRun>,
    pub receipt_row: Option<ReceiptRow>,
    pub reading: Result<ReceiptReading, String>,
    pub decisions: Vec<RunDecisionRow>,
    pub members: Vec<Vec<u8>>,
    pub pins: Vec<RunPinRow>,
    pub population: LotteryPopulation,
    pub winners: ByteMap<WinnerRow>,
    pub outputs: ByteMap<OutputRow>,
    pub header_digests: ByteMap<Vec<u8>>,
    pub post_state_row: Option<PostStateRow>,
    pub post_state: Result<PostStateReading, String>,
    pub live: LiveEvidence,
}

/// The fault of what a receipt closes over, once its decisions are read.
pub open spec fn closure_fault(
    receipt: ProofReceipt,
    decisions: Seq<DecisionView>,
    evidence: RunEvidence,
    policy: Policy,
    plan: Option<RetirementPlan>,
) -> Option<Fault> {
    let pins = group_views(receipt.closure.exact_artifact_digests);
    either_fault(
        sources_fault(receipt, decisions, byte_strings(evidence.members@)),
        either_fault(
            pins_closure_fault(receipt, evidence.pins@),
            either_fault(
                lottery_closure_fault(
                    receipt,
                    evidence.population,
                    evidence.winners@,
                    policy,
                ),
                either_fault(
                    outputs_fault(
                        receipt,
                        decisions,
                        evidence.outputs@,
                        evidence.header_digests@,
                        policy,
                    ),
                    state_closure_fault(receipt, decisions, pins, evidence, policy, plan),
                ),
            ),
        ),
    )
}

/// The fault of the states of the atoms of a run, and of the plan that the run is to be that of.
pub open spec fn state_closure_fault(
    receipt: ProofReceipt,
    decisions: Seq<DecisionView>,
    pins: Map<Seq<u8>, Seq<Seq<u8>>>,
    evidence: RunEvidence,
    policy: Policy,
    plan: Option<RetirementPlan>,
) -> Option<Fault> {
    let historical = evidence.post_state->Ok_0;
    either_fault(
        post_state_row_fault(receipt.run_id@, evidence.post_state_row, evidence.post_state),
        either_fault(
            fault_when(
                historical.digest@ != receipt.state_digest@,
                Fault::Integrity(
                    "receipt state digest does not match immutable retirement post-state evidence"@,
                ),
            ),
            either_fault(
                live_fault(receipt, decisions, pins, evidence.live),
                either_fault(
                    live_state_fault(
                        historical.state@,
                        live_state(
                            receipt,
                            decisions,
                            pins,
                            evidence.live,
                            policy.atom_hash_domain@,
                        ),
                    ),
                    match plan {
                        Some(plan) => replay_fault(
                            receipt,
                            historical.state@,
                            decisions,
                            evidence.outputs@,
                            plan,
                        ),
                        None => None,
                    },
                ),
            ),
        ),
    )
}

/// The fault of an applied run whose receipt does not agree with everything that the store holds
/// for the run, or that is not that of a plan.
pub open spec fn receipt_fault(
    run_id: Seq<u8>,
    evidence: RunEvidence,
    policy: Policy,
    plan: Option<RetirementPlan>,
) -> Option<Fault> {
    either_fault(
        binding_fault(run_id, evidence.run, evidence.receipt_row),
        match evidence.reading {
            Err(text) => Some(Fault::Json(text@)),
            Ok(reading) => either_fault(
                fields_fault(
                    run_id,
                    evidence.run->Some_0,
                    evidence.receipt_row->Some_0,
                    reading,
                    policy,
                ),
                either_fault(
                    first_fault(
                        evidence.decisions@,
                        |row: RunDecisionRow| decision_row_fault(row),
                    ),
                    either_fault(
                        first_fault(
                            evidence.members@,
                            |row: Vec<u8>| digest_fault(row@, "retirement member atom_id"@),
                        ),
                        closure_fault(
                            reading.receipt,
                            row_decisions(evidence.decisions@),
                            evidence,
                            policy,
                            plan,
                        ),
                    ),
                ),
            ),
        },
    )
}

fn check_states(
    receipt: &ProofReceipt,
    decisions: &Vec<RunDecision>,
    pins: &DigestGroups,
    evidence: &RunEvidence,
    policy: &Policy,
    plan: &Option<RetirementPlan>,
) -> (verdict: Result<(), StoreError>)
    ensures
        fault_of(verdict) == state_closure_fault(
            *receipt,
            decision_list(decisions@),
            group_views(*pins),
            *evidence,
            *policy,
            *plan,
        ),
{
    let historical = load_retirement_post_state(
        &receipt.run_id,
        &evidence.post_state_row,
        &evidence.post_state,
    )?;
    if !same_digest(&historical.digest, &receipt.state_digest) {
        return Err(
            integrity(
                "receipt state digest does not match immutable retirement post-state evidence",
            ),
        );
    }
    let current = recompute_persisted_post_state(
        receipt,
        decisions,
        pins,
        &evidence.live,
        policy.atom_hash_domain.as_slice(),
    )?;
    validate_live_post_state_transition(&historical.state, &current)?;
    match plan {
        Some(plan) => check_replay(
            receipt,
            &historical.state,
            decisions,
            &evidence.outputs,
            plan,
        ),
        None => Ok(()),
    }
}

/// Verifies the receipt of an applied run against everything that the store holds for the run,
/// and, where a plan is given, that the run is that of the plan.
pub fn verify_persisted_core_receipt(
    run_id: &[u8; 32],
    evidence: &RunEvidence,
    policy: &Policy,
    plan: &Option<RetirementPlan>,
) -> (verdict: Result<(), StoreError>)
    ensures
        fault_of(verdict) == receipt_fault(run_id@, *evidence, *policy, *plan),
{
    let digests = check_binding(run_id, &evidence.run, &evidence.receipt_row)?;
    let reading = match &evidence.reading {
        Ok(reading) => reading,
        Err(text) => return Err(StoreError::Json(text.clone())),
    };
    let (run, row) = match (&evidence.run, &evidence.receipt_row) {
        (Some(run), Some(row)) => (run, row),
        _ => return Err(integrity_about("applied retirement run ", run_id, " is missing")),
    };
    check_fields(run_id, run, row, &digests, reading, policy)?;
    let decisions = read_decisions(&evidence.decisions)?;
    let members = read_digests(&evidence.members, "retirement member atom_id")?;
    let receipt = &reading.receipt;
    check_sources(receipt, &decisions, &members)?;
    let pins = check_pins(receipt, &evidence.pins)?;
    check_lottery(receipt, &evidence.population, &evidence.winners, policy)?;
    check_outputs(
        receipt,
        &decisions,
        &evidence.outputs,
        &evidence.header_digests,
        policy,
    )?;
    check_states(receipt, &decisions, &pins, evidence, policy, plan)
}

/// Whether the row of an atom of a retired cohort is that of an earlier time, but for counters that
/// have gone on.
pub open spec fn row_only_counted(before: LiveAtomRow, after: LiveAtomRow) -> bool {
    &&& only_counted(before.stored, after.stored)
    &&& after.parsed == before.parsed
    &&& after.fts_rows == before.fts_rows
}

/// Whether the atoms of a retired cohort are those of an earlier time, but for counters that have
/// gone on.
pub open spec fn live_only_counted(before: LiveEvidence, after: LiveEvidence) -> bool {
    &&& after.sources@.len() == before.sources@.len()
    &&& forall|i: int|
        0 <= i < before.sources@.len() ==> row_only_counted(
            #[trigger] before.sources@[i],
            after.sources@[i],
        )
    &&& after.forgotten_fts_rows == before.forgotten_fts_rows
    &&& after.forgotten_artifact_refs == before.forgotten_artifact_refs
    &&& after.outputs@.dom() == before.outputs@.dom()
    &&& forall|output: Seq<u8>|
        before.outputs@.contains_key(output) ==> row_only_counted(
            #[trigger] before.outputs@[output],
            after.outputs@[output],
        )
}

/// Whether a store holds for a run what it held earlier, but for counters of its atoms that have
/// gone on: what feedback and retrieval change.
pub open spec fn evidence_only_counted(before: RunEvidence, after: RunEvidence) -> bool {
    &&& after == (RunEvidence { live: after.live, ..before })
    &&& live_only_counted(before.live, after.live)
}

/// A cohort that is what its decisions call for stays so while its counters go on, and its state
/// goes on from the earlier one.
proof fn lemma_live_counting_goes_on(
    receipt: ProofReceipt,
    decisions: Seq<DecisionView>,
    pins: Map<Seq<u8>, Seq<Seq<u8>>>,
    before: LiveEvidence,
    after: LiveEvidence,
    atom_hash_domain: Seq<u8>,
)
    requires
        live_only_counted(before, after),
        live_fault(receipt, decisions, pins, before) is None,
    ensures
        live_fault(receipt, decisions, pins, after) is None,
        live_state_fault(
            live_state(receipt, decisions, pins, before, atom_hash_domain),
            live_state(receipt, decisions, pins, after, atom_hash_domain),
        ) is None,
{
    let old_state = live_state(receipt, decisions, pins, before, atom_hash_domain);
    let new_state = live_state(receipt, decisions, pins, after, atom_hash_domain);
    let outputs = receipt.closure.semantic_atom_ids@;
    let old_source = |i: int| live_source_fault(receipt, decisions, pins, before.sources@, i);
    let new_source = |i: int| live_source_fault(receipt, decisions, pins, after.sources@, i);
    lemma_no_first_indexed(decisions.len(), old_source);
    lemma_no_first_indexed(decisions.len(), new_source);
    assert forall|i: int| 0 <= i < decisions.len() implies #[trigger] new_source(i) is None
        && transition_fault(old_state.source_atoms[i], new_state.source_atoms[i]) is None by {
        assert(old_source(i) is None);
        assert(row_only_counted(before.sources@[i], after.sources@[i]));
        lemma_counting_goes_on(
            before.sources@[i].stored,
            after.sources@[i].stored,
            before.sources@[i].parsed,
            before.sources@[i].fts_rows,
            receipt.memory_space_id@,
            source_decision(receipt, decisions, i),
            group_of(pins, before.sources@[i].stored.atom_id@),
            atom_hash_domain,
        );
    }
    let old_output = |output: [u8; 32]| live_output_fault(receipt, before.outputs@, output@);
    let new_output = |output: [u8; 32]| live_output_fault(receipt, after.outputs@, output@);
    lemma_no_first_fault(outputs, old_output);
    lemma_no_first_fault(outputs, new_output);
    assert forall|i: int| 0 <= i < outputs.len() implies new_output(#[trigger] outputs[i]) is None
        && transition_fault(old_state.semantic_atoms[i], new_state.semantic_atoms[i]) is None by {
        assert(old_output(outputs[i]) is None);
        let output = outputs[i]@;
        assert(before.outputs@.dom().contains(output));
        assert(row_only_counted(before.outputs@[output], after.outputs@[output]));
        lemma_counting_goes_on(
            before.outputs@[output].stored,
            after.outputs@[output].stored,
            before.outputs@[output].parsed,
            before.outputs@[output].fts_rows,
            receipt.memory_space_id@,
            None,
            Seq::empty(),
            atom_hash_domain,
        );
    }
    assert forall|i: int| 0 <= i < old_state.source_atoms.len() implies transition_fault(
        #[trigger] old_state.source_atoms[i],
        new_state.source_atoms[i],
    ) is None by {
        assert(new_source(i) is None);
    }
    assert forall|i: int| 0 <= i < old_state.semantic_atoms.len() implies transition_fault(
        #[trigger] old_state.semantic_atoms[i],
        new_state.semantic_atoms[i],
    ) is None by {
        assert(new_output(outputs[i]) is None);
    }
    lemma_transitions(old_state.source_atoms, new_state.source_atoms);
    lemma_transitions(old_state.semantic_atoms, new_state.semantic_atoms);
}

/// A receipt that verifies goes on verifying, with or without its plan, while feedback and
/// retrieval move the counters of the atoms of its run.
pub proof fn law_counting_keeps_a_receipt_valid(
    run_id: Seq<u8>,
    before: RunEvidence,
    after: RunEvidence,
    policy: Policy,
    plan: Option<RetirementPlan>,
)
    requires
        receipt_fault(run_id, before, policy, plan) is None,
        evidence_only_counted(before, after),
    ensures
        receipt_fault(run_id, after, policy, plan) is None,
{
    let receipt = before.reading->Ok_0.receipt;
    let decisions = row_decisions(before.decisions@);
    let pins = group_views(receipt.closure.exact_artifact_digests);
    let domain = policy.atom_hash_domain@;
    lemma_live_counting_goes_on(receipt, decisions, pins, before.live, after.live, domain);
    law_live_state_transition_is_transitive(
        before.post_state->Ok_0.state@,
        live_state(receipt, decisions, pins, before.live, domain),
        live_state(receipt, decisions, pins, after.live, domain),
    );
}

/// A receipt verifies as that of a plan exactly where it verifies without one and is the receipt
/// of the plan.
pub proof fn lemma_replayed_receipt(
    run_id: Seq<u8>,
    evidence: RunEvidence,
    policy: Policy,
    plan: RetirementPlan,
)
    ensures
        receipt_fault(run_id, evidence, policy, Some(plan)) is None <==> receipt_fault(
            run_id,
            evidence,
            policy,
            None,
        ) is None && replay_fault(
            evidence.reading->Ok_0.receipt,
            evidence.post_state->Ok_0.state@,
            row_decisions(evidence.decisions@),
            evidence.outputs@,
            plan,
        ) is None,
{
}

/// A run whose receipt verifies keeps exactly as many atoms as the lottery of its population asks
/// for: of as many atoms as are recorded for it, or of all that permit exact retention. Every
/// decision of it follows from its outputs and its winners: an atom is forgotten exactly where it
/// is not kept.
pub proof fn law_verified_decisions_follow_from_outputs_and_winners(
    run_id: Seq<u8>,
    evidence: RunEvidence,
    policy: Policy,
    plan: Option<RetirementPlan>,
    i: int,
)
    requires
        receipt_fault(run_id, evidence, policy, plan) is None,
        0 <= i < evidence.decisions@.len(),
    ensures
        ({
            let receipt = evidence.reading->Ok_0.receipt;
            let decisions = row_decisions(evidence.decisions@);
            let kept = digest_seq(receipt.closure.exact_episode_ids@);
            let totals = output_totals(
                evidence.outputs@,
                evidence.header_digests@,
                receipt.memory_space_id@,
                digest_seq(receipt.closure.source_atom_ids@).to_set(),
                receipt.closure.semantic_atom_ids@,
            );
            &&& totals is Ok
            &&& decisions[i].decision == closed_decision(
                totals->Ok_0.sources.contains(decisions[i].atom_id),
                kept.to_set().contains(decisions[i].atom_id),
            )
            &&& kept.len() == capped_share(
                policy.episodic_rate_ppm,
                receipt.episodic_population_count as nat,
                policy.episodic_count_max,
            )
            &&& is_population(receipt.episodic_population_count as nat, evidence.population)
        }),
{
    let receipt = evidence.reading->Ok_0.receipt;
    let decisions = row_decisions(evidence.decisions@);
    let kept = digest_seq(receipt.closure.exact_episode_ids@).to_set();
    let totals = output_totals(
        evidence.outputs@,
        evidence.header_digests@,
        receipt.memory_space_id@,
        digest_seq(receipt.closure.source_atom_ids@).to_set(),
        receipt.closure.semantic_atom_ids@,
    );
    let sources = totals->Ok_0.sources;
    let faulty = |decision: DecisionView| classification_fault(sources, kept, decision);
    lemma_no_first_fault(decisions, faulty);
    assert(faulty(decisions[i]) is None);
}

/// A source that a verified run has forgotten holds nothing any more but its header: no body, no
/// search projection and no pin.
pub proof fn law_forgotten_source_holds_nothing(
    run_id: Seq<u8>,
    evidence: RunEvidence,
    policy: Policy,
    plan: Option<RetirementPlan>,
    i: int,
)
    requires
        receipt_fault(run_id, evidence, policy, plan) is None,
        0 <= i < evidence.decisions@.len(),
        forgets_source(evidence.decisions@[i].decision@),
    ensures
        ({
            let receipt = evidence.reading->Ok_0.receipt;
            let stored = evidence.live.sources@[i].stored;
            &&& stored.atom_id@ == evidence.decisions@[i].atom_id@
            &&& has_nothing_left(
                stored,
                group_of(
                    group_views(receipt.closure.exact_artifact_digests),
                    stored.atom_id@,
                ),
            )
        }),
{
    let receipt = evidence.reading->Ok_0.receipt;
    let decisions = row_decisions(evidence.decisions@);
    let pins = group_views(receipt.closure.exact_artifact_digests);
    let faulty = |i: int|
        live_source_fault(receipt, decisions, pins, evidence.live.sources@, i);
    lemma_no_first_indexed(decisions.len(), faulty);
    assert(faulty(i) is None);
    lemma_forgetting_is_not_keeping();
    let decision = source_decision(receipt, decisions, i);
    assert(expected_state(decision) is Some);
    assert(!expected_state(decision)->0.body_required);
}

proof fn lemma_forgetting_is_not_keeping()
    ensures
        "episodic_winner"@ != "semantic_source"@,
        "episodic_winner"@ != "forgotten"@,
        "semantic_and_episodic"@ != "semantic_source"@,
        "semantic_and_episodic"@ != "forgotten"@,
{
    reveal_strlit("episodic_winner");
    reveal_strlit("semantic_and_episodic");
    reveal_strlit("semantic_source");
    reveal_strlit("forgotten");
    assert("episodic_winner"@.len() == 15);
    assert("semantic_and_episodic"@.len() == 21);
    assert("semantic_source"@.len() == 15);
    assert("forgotten"@.len() == 9);
    assert("episodic_winner"@[0] == 'e');
    assert("semantic_source"@[0] == 's');
}

/// The state after retirement is accepted exactly where it was stored and is what was stored, by its
/// bytes, its digest and its projection.
pub proof fn law_post_state_is_accepted_exactly_as_stored(
    run_id: Seq<u8>,
    row: Option<PostStateRow>,
    reading: Result<PostStateReading, String>,
)
    ensures
        post_state_row_fault(run_id, row, reading) is None <==> {
            &&& row matches Some(row)
            &&& reading matches Ok(reading)
            &&& reading.canonical_state@ == row.canonical_state@
            &&& reading.digest@ == row.state_digest@
            &&& reading.json_projection@ == row.json_projection@
        },
{
}

/// The live rows of a run are accepted exactly where there is one for every decision and in their
/// order, each is what was decided, nothing is left of a forgotten source, and every output is
/// there and is one.
pub proof fn law_live_rows_are_accepted_exactly(
    receipt: ProofReceipt,
    decisions: Seq<DecisionView>,
    pins: Map<Seq<u8>, Seq<Seq<u8>>>,
    live: LiveEvidence,
)
    ensures
        live_fault(receipt, decisions, pins, live) is None <==> {
            &&& live.sources@.len() == decisions.len()
            &&& forall|i: int|
                0 <= i < decisions.len() ==> {
                    let row = #[trigger] live.sources@[i];
                    &&& row.stored.atom_id@ == decisions[i].atom_id
                    &&& post_atom_fault(
                        row.stored,
                        row.parsed,
                        row.fts_rows,
                        receipt.memory_space_id@,
                        Some(
                            BoundDecision {
                                decision: decisions[i].decision,
                                run_id: receipt.run_id@,
                            },
                        ),
                        group_of(pins, row.stored.atom_id@),
                    ) is None
                }
            &&& live.forgotten_fts_rows == 0
            &&& live.forgotten_artifact_refs == 0
            &&& forall|i: int|
                0 <= i < receipt.closure.semantic_atom_ids@.len() ==> {
                    let output = (#[trigger] receipt.closure.semantic_atom_ids@[i])@;
                    let row = live.outputs@[output];
                    &&& live.outputs@.contains_key(output)
                    &&& post_atom_fault(
                        row.stored,
                        row.parsed,
                        row.fts_rows,
                        receipt.memory_space_id@,
                        None,
                        Seq::empty(),
                    ) is None
                }
        },
{
    let outputs = receipt.closure.semantic_atom_ids@;
    let source_faulty = |i: int| live_source_fault(receipt, decisions, pins, live.sources@, i);
    let output_faulty = |output: [u8; 32]| live_output_fault(receipt, live.outputs@, output@);
    lemma_no_first_indexed(decisions.len(), source_faulty);
    lemma_no_first_fault(outputs, output_faulty);
    if live_fault(receipt, decisions, pins, live) is None {
        assert forall|i: int| 0 <= i < decisions.len() implies ({
            let row = #[trigger] live.sources@[i];
            &&& row.stored.atom_id@ == decisions[i].atom_id
            &&& post_atom_fault(
                row.stored,
                row.parsed,
                row.fts_rows,
                receipt.memory_space_id@,
                Some(BoundDecision { decision: decisions[i].decision, run_id: receipt.run_id@ }),
                group_of(pins, row.stored.atom_id@),
            ) is None
        }) by {
            assert(source_faulty(i) is None);
        }
        assert forall|i: int| 0 <= i < outputs.len() implies ({
            let output = (#[trigger] outputs[i])@;
            let row = live.outputs@[output];
            &&& live.outputs@.contains_key(output)
            &&& post_atom_fault(
                row.stored,
                row.parsed,
                row.fts_rows,
                receipt.memory_space_id@,
                None,
                Seq::empty(),
            ) is None
        }) by {
            assert(output_faulty(outputs[i]) is None);
        }
    }
    if live.sources@.len() == decisions.len() && forall|i: int|
        0 <= i < decisions.len() ==> {
            let row = #[trigger] live.sources@[i];
            &&& row.stored.atom_id@ == decisions[i].atom_id
            &&& post_atom_fault(
                row.stored,
                row.parsed,
                row.fts_rows,
                receipt.memory_space_id@,
                Some(BoundDecision { decision: decisions[i].decision, run_id: receipt.run_id@ }),
                group_of(pins, row.stored.atom_id@),
            ) is None
        } {
        assert forall|i: int| 0 <= i < decisions.len() implies #[trigger] source_faulty(i) is None by {
            assert(live.sources@[i].stored.atom_id@ == decisions[i].atom_id);
        }
    }
}

/// A receipt stands against the plan that is made again exactly where both say the same of the run,
/// every decision is the planned one and every output has the planned body.
pub proof fn law_replayed_plan_must_say_the_same(
    receipt: ProofReceipt,
    historical: PostStateView,
    decisions: Seq<DecisionView>,
    rows: Map<Seq<u8>, OutputRow>,
    plan: RetirementPlan,
)
    ensures
        replay_fault(receipt, historical, decisions, rows, plan) is None <==> {
            &&& receipt.memory_space_id@ == plan.memory_space_id@
            &&& receipt.cohort_day == plan.cohort_day
            &&& receipt.as_of_us == plan.as_of_us
            &&& receipt.policy_id@ == plan.policy_id@
            &&& receipt.policy_digest@ == plan.policy_digest@
            &&& receipt.seed@ == plan.seed@
            &&& receipt.input_set_digest@ == plan.input_set_digest@
            &&& receipt.rng_identifier@ == plan.rng_identifier@
            &&& receipt.population_digest@ == plan.episodic_population_digest@
            &&& receipt.episodic_population_count == plan.episodic_population_count
            &&& receipt.episodic_winner_budget == plan.episodic_winner_budget
            &&& receipt.episodic_winner_bytes == plan.episodic_winner_bytes
            &&& receipt.semantic_count_budget == plan.semantic_count_budget
            &&& receipt.semantic_body_bytes == plan.semantic_body_bytes
            &&& receipt.plan_digest@ == plan.digest@
            &&& receipt.decision_digest@ == plan.decision_digest@
            &&& receipt.state_digest@ == plan.projected_state_digest@
            &&& historical == plan.projected_post_state@
            &&& digest_seq(receipt.closure.source_atom_ids@) == digest_seq(
                plan.closure.source_atom_ids@,
            )
            &&& digest_seq(receipt.closure.semantic_atom_ids@) == digest_seq(
                plan.closure.semantic_atom_ids@,
            )
            &&& digest_seq(receipt.closure.exact_episode_ids@) == digest_seq(
                plan.closure.exact_episode_ids@,
            )
            &&& group_views(receipt.closure.exact_artifact_digests) == group_views(
                plan.closure.exact_artifact_digests,
            )
            &&& decisions.len() == plan.decisions@.len()
            &&& forall|i: int|
                0 <= i < decisions.len() ==> {
                    let planned = plan.decisions@[i];
                    &&& (#[trigger] decisions[i]).atom_id == planned.atom_id@
                    &&& decisions[i].decision == decision_name(planned)
                    &&& decisions[i].canonical_details == planned.canonical@
                    &&& decisions[i].details_digest == sha256_of(planned.canonical@)
                }
            &&& forall|i: int|
                0 <= i < plan.semantic_atoms@.len() ==> {
                    let planned = #[trigger] plan.semantic_atoms@[i];
                    let row = rows[planned.atom_id@];
                    &&& rows.contains_key(planned.atom_id@)
                    &&& row.canonical_body@ == planned.atom.authority.canonical_body@
                    &&& row.json_projection@ == planned.atom.authority.json_projection@
                }
        },
{
    let missing = |planned: PlannedSemantic| planned_output_fault(rows, planned);
    lemma_no_first_fault(plan.semantic_atoms@, missing);
    if replay_fault(receipt, historical, decisions, rows, plan) is None {
        assert forall|i: int| 0 <= i < decisions.len() implies ({
            let planned = plan.decisions@[i];
            &&& (#[trigger] decisions[i]).atom_id == planned.atom_id@
            &&& decisions[i].decision == decision_name(planned)
            &&& decisions[i].canonical_details == planned.canonical@
            &&& decisions[i].details_digest == sha256_of(planned.canonical@)
        }) by {
            assert(is_planned(decisions[i], plan.decisions@[i]));
        }
        assert forall|i: int| 0 <= i < plan.semantic_atoms@.len() implies ({
            let planned = #[trigger] plan.semantic_atoms@[i];
            let row = rows[planned.atom_id@];
            &&& rows.contains_key(planned.atom_id@)
            &&& row.canonical_body@ == planned.atom.authority.canonical_body@
            &&& row.json_projection@ == planned.atom.authority.json_projection@
        }) by {
            assert(missing(plan.semantic_atoms@[i]) is None);
        }
    }
}

/// A receipt is accepted exactly where it belongs to its run, says what the run says, its decisions
/// and members can be read, and its sources, its pins, its lottery, its outputs and its states close
/// and, where the plan is made again, say what the plan says.
pub proof fn law_receipt_is_accepted_exactly(
    run_id: Seq<u8>,
    evidence: RunEvidence,
    policy: Policy,
    plan: Option<RetirementPlan>,
)
    ensures
        receipt_fault(run_id, evidence, policy, plan) is None <==> {
            let decisions = row_decisions(evidence.decisions@);
            let receipt = evidence.reading->Ok_0.receipt;
            let pins = group_views(receipt.closure.exact_artifact_digests);
            let historical = evidence.post_state->Ok_0;
            &&& binding_fault(run_id, evidence.run, evidence.receipt_row) is None
            &&& evidence.reading is Ok
            &&& fields_fault(
                run_id,
                evidence.run->Some_0,
                evidence.receipt_row->Some_0,
                evidence.reading->Ok_0,
                policy,
            ) is None
            &&& forall|i: int|
                0 <= i < evidence.decisions@.len() ==> decision_row_fault(
                    #[trigger] evidence.decisions@[i],
                ) is None
            &&& forall|i: int|
                0 <= i < evidence.members@.len() ==> (#[trigger] evidence.members@[i])@.len() == 32
            &&& sources_fault(receipt, decisions, byte_strings(evidence.members@)) is None
            &&& pins_closure_fault(receipt, evidence.pins@) is None
            &&& lottery_closure_fault(
                receipt,
                evidence.population,
                evidence.winners@,
                policy,
            ) is None
            &&& outputs_fault(
                receipt,
                decisions,
                evidence.outputs@,
                evidence.header_digests@,
                policy,
            ) is None
            &&& post_state_row_fault(
                receipt.run_id@,
                evidence.post_state_row,
                evidence.post_state,
            ) is None
            &&& historical.digest@ == receipt.state_digest@
            &&& live_fault(receipt, decisions, pins, evidence.live) is None
            &&& live_state_fault(
                historical.state@,
                live_state(receipt, decisions, pins, evidence.live, policy.atom_hash_domain@),
            ) is None
            &&& plan matches Some(plan) ==> replay_fault(
                receipt,
                historical.state@,
                decisions,
                evidence.outputs@,
                plan,
            ) is None
        },
{
    let undecided = |row: RunDecisionRow| decision_row_fault(row);
    let unnamed = |row: Vec<u8>| digest_fault(row@, "retirement member atom_id"@);
    lemma_no_first_fault(evidence.decisions@, undecided);
    lemma_no_first_fault(evidence.members@, unnamed);
    if receipt_fault(run_id, evidence, policy, plan) is None {
        assert forall|i: int| 0 <= i < evidence.decisions@.len() implies decision_row_fault(
            #[trigger] evidence.decisions@[i],
        ) is None by {
            assert(undecided(evidence.decisions@[i]) is None);
        }
        assert forall|i: int| 0 <= i < evidence.members@.len() implies (
        #[trigger] evidence.members@[i])@.len() == 32 by {
            assert(unnamed(evidence.members@[i]) is None);
        }
    }
}

/// The live state of a run is of its memory space, has one atom for every decision and one for
/// every output, in their order, each with the identity, the state and the counters of its row.
pub proof fn law_live_state_is_that_of_the_rows(
    receipt: ProofReceipt,
    decisions: Seq<DecisionView>,
    pins: Map<Seq<u8>, Seq<Seq<u8>>>,
    live: LiveEvidence,
    atom_hash_domain: Seq<u8>,
    i: int,
)
    ensures
        ({
            let state = live_state(receipt, decisions, pins, live, atom_hash_domain);
            let outputs = receipt.closure.semantic_atom_ids@;
            &&& state.memory_space_id == receipt.memory_space_id@
            &&& state.source_atoms.len() == decisions.len()
            &&& state.semantic_atoms.len() == outputs.len()
            &&& 0 <= i < decisions.len() ==> {
                let atom = state.source_atoms[i];
                let row = live.sources@[i].stored;
                &&& atom.structure.atom_id == row.atom_id@
                &&& atom.structure.header_body_digest == row.body_digest@
                &&& atom.structure.provenance_digest == row.provenance_digest@
                &&& atom.structure.session_id == crate::text::optional_text(row.session_id)
                &&& atom.structure.search_projection_present == row.search_atom_id is Some
                &&& atom.structure.retirement_run_bound == row.state.retirement_run_id is Some
                &&& atom.structure.pinned_artifact_digests == group_of(pins, row.atom_id@)
                &&& row.state.retrieval_count >= 0 ==> atom.counters.retrieval_count
                    == row.state.retrieval_count
                &&& row.state.feedback_positive >= 0 ==> atom.counters.feedback_positive
                    == row.state.feedback_positive
                &&& row.state.feedback_negative >= 0 ==> atom.counters.feedback_negative
                    == row.state.feedback_negative
            }
            &&& 0 <= i < outputs.len() ==> {
                let atom = state.semantic_atoms[i];
                let row = live.outputs@[outputs[i]@].stored;
                &&& atom.structure.atom_id == row.atom_id@
                &&& atom.structure.pinned_artifact_digests.len() == 0
                &&& atom.structure.stored_body_digest == Some(
                    crate::records::domain_digest(atom_hash_domain, row.canonical_body->0@),
                )
            }
        }),
{
}

} // verus!
