//! What a retirement commit must obey: closed over its cohort, within its budgets, and keeping
//! exactly the winners of the lottery with all the artifacts that they may keep.

use vstd::prelude::*;
use vstd::string::*;

use crate::bytemap::{precedes, side_of, Side};
use crate::digest::{sha256, sha256_of};
use crate::error::{Fault, StoreError, either_fault, fault_of, fault_when, invalid_plan};
use crate::folding::{first_indexed, lemma_first_indexed_stops};
use crate::json::{json_fault, validate_json};
use crate::plan::{PersistedDecision, RetirementCommit};
use crate::records::AtomRecord;
use crate::snapshot::{CohortSnapshot, MAX_COHORT_ATOMS, SnapshotAtom};
use crate::stored::same_digest;
use crate::text::{decimal, decimal_text, same_text, text2, text3, text5};

verus! {

/// The largest package that is kept exactly.
pub const MAX_EXACT_PACKAGE_BYTES: u64 = 67108864;

/// The most bytes of artifacts that one cohort pins.
pub const MAX_PINNED_BYTES_PER_COHORT: u64 = 268435456;

/// The most bytes of semantic bodies that one cohort puts out.
pub const MAX_SEMANTIC_BYTES_PER_COHORT: u64 = 8388608;

/// The most semantic atoms that one cohort puts out.
pub const MAX_SEMANTIC_ATOMS_PER_COHORT: usize = 100;

/// The most atoms that one cohort keeps exactly.
pub const MAX_WINNERS_PER_COHORT: usize = 25;

/// The name of a decision that the store knows.
pub open spec fn is_decision_name(name: Seq<char>) -> bool {
    name == "semantic_source"@ || name == "episodic_winner"@ || name == "semantic_and_episodic"@
        || name == "forgotten"@ || name == "unchanged"@
}

/// The name of a decision that keeps an atom exactly.
pub open spec fn is_winner_name(name: Seq<char>) -> bool {
    name == "episodic_winner"@ || name == "semantic_and_episodic"@
}

fn known_decision(name: &str) -> (known: bool)
    ensures
        known == is_decision_name(name@),
{
    same_text(name, "semantic_source") || same_text(name, "episodic_winner") || same_text(
        name,
        "semantic_and_episodic",
    ) || same_text(name, "forgotten") || same_text(name, "unchanged")
}

pub(crate) fn winner_decision(name: &str) -> (winner: bool)
    ensures
        winner == is_winner_name(name@),
{
    same_text(name, "episodic_winner") || same_text(name, "semantic_and_episodic")
}

/// The fault of the decision at place `i`: out of order, of an unknown name, or with a digest
/// that is not that of its details.
pub open spec fn decision_fault(decisions: Seq<PersistedDecision>, i: int) -> Option<Fault> {
    either_fault(
        fault_when(
            i > 0 && !precedes(decisions[i - 1].atom_id@, decisions[i].atom_id@),
            Fault::InvalidRetirementPlan("decisions must be unique and sorted by atom_id"@),
        ),
        either_fault(
            fault_when(
                !is_decision_name(decisions[i].decision@),
                Fault::InvalidRetirementPlan("unknown decision "@ + decisions[i].decision@),
            ),
            fault_when(
                sha256_of(decisions[i].canonical_details@) != decisions[i].details_digest@,
                Fault::InvalidRetirementPlan("decision details digest mismatch"@),
            ),
        ),
    )
}

/// Whether the projected state of a commit closes over the commit.
pub open spec fn post_state_closed(commit: RetirementCommit) -> bool {
    &&& commit.post_state.memory_space_id@ == commit.key.memory_space_id@
    &&& commit.post_state.digest@ == commit.projected_state_digest@
    &&& commit.post_state.source_count == commit.decisions@.len()
    &&& commit.post_state.semantic_count == commit.semantic_atoms@.len()
}

/// The fault of a commit that is not well formed.
pub open spec fn commit_fault(commit: RetirementCommit) -> Option<Fault> {
    either_fault(
        json_fault(commit.receipt.json_projection@, "receipt"@),
        either_fault(
            fault_when(
                !post_state_closed(commit),
                Fault::InvalidRetirementPlan(
                    "projected post-state does not close over the retirement commit"@,
                ),
            ),
            either_fault(
                fault_when(
                    commit.decisions@.len() > MAX_COHORT_ATOMS,
                    Fault::InvalidRetirementPlan("decision count exceeds cohort limit"@),
                ),
                first_indexed(
                    commit.decisions@.len(),
                    |i: int| decision_fault(commit.decisions@, i),
                ),
            ),
        ),
    )
}

fn check_decision(decisions: &Vec<PersistedDecision>, i: usize) -> (verdict: Result<(), StoreError>)
    requires
        i < decisions@.len(),
    ensures
        fault_of(verdict) == decision_fault(decisions@, i as int),
{
    let decision = &decisions[i];
    if i > 0 {
        match side_of(decisions[i - 1].atom_id.as_slice(), decision.atom_id.as_slice()) {
            Side::Before => {},
            _ => {
                proof {
                    crate::bytemap::lemma_precedes_asymmetric(
                        decisions@[i - 1].atom_id@,
                        decisions@[i as int].atom_id@,
                    );
                }
                return Err(invalid_plan("decisions must be unique and sorted by atom_id"));
            },
        }
    }
    if !known_decision(decision.decision.as_str()) {
        return Err(
            StoreError::InvalidRetirementPlan(
                text2("unknown decision ", decision.decision.as_str()),
            ),
        );
    }
    let digest = sha256(decision.canonical_details.as_slice());
    if !same_digest(&digest, &decision.details_digest) {
        return Err(invalid_plan("decision details digest mismatch"));
    }
    Ok(())
}

/// Accepts a commit that is well formed.
#[verifier::loop_isolation(false)]
pub fn validate_retirement_commit(commit: &RetirementCommit) -> (verdict: Result<(), StoreError>)
    ensures
        fault_of(verdict) == commit_fault(*commit),
{
    validate_json(commit.receipt.json_projection.as_str(), "receipt")?;
    if !same_text(
        commit.post_state.memory_space_id.as_str(),
        commit.key.memory_space_id.as_str(),
    ) || !same_digest(&commit.post_state.digest, &commit.projected_state_digest)
        || commit.post_state.source_count != commit.decisions.len()
        || commit.post_state.semantic_count != commit.semantic_atoms.len() {
        return Err(
            invalid_plan("projected post-state does not close over the retirement commit"),
        );
    }
    if commit.decisions.len() > MAX_COHORT_ATOMS {
        return Err(invalid_plan("decision count exceeds cohort limit"));
    }
    let ghost faulty = |i: int| decision_fault(commit.decisions@, i);
    let mut i: usize = 0;
    while i < commit.decisions.len()
        invariant
            i <= commit.decisions@.len(),
            first_indexed(i as nat, faulty) is None,
        decreases commit.decisions@.len() - i,
    {
        match check_decision(&commit.decisions, i) {
            Ok(_) => {},
            Err(error) => {
                proof {
                    lemma_first_indexed_stops(commit.decisions@.len(), faulty, (i + 1) as nat);
                }
                return Err(error);
            },
        }
        i += 1;
    }
    Ok(())
}

/// A share of a population in millionths, rounded up.
pub open spec fn ceil_share(rate_ppm: nat, population: nat) -> nat {
    ((population * rate_ppm + 999_999) / 1_000_000) as nat
}

/// The most semantic atoms that a cohort of a size may put out: two in a hundred, rounded up, and
/// never more than the cap.
pub open spec fn semantic_count_budget(population: nat) -> nat {
    let share = ((2 * population + 99) / 100) as nat;
    if share < MAX_SEMANTIC_ATOMS_PER_COHORT {
        share
    } else {
        MAX_SEMANTIC_ATOMS_PER_COHORT as nat
    }
}

/// How many of a population are kept exactly: five in a thousand, rounded up, and never more than
/// the cap.
pub open spec fn winner_budget(population: nat) -> nat {
    let share = ((5 * population + 999) / 1000) as nat;
    if share < MAX_WINNERS_PER_COHORT {
        share
    } else {
        MAX_WINNERS_PER_COHORT as nat
    }
}

/// The budgets are those of a policy with a semantic rate of 20000 and an episodic rate of 5000
/// millionths.
pub proof fn law_budgets_follow_the_policy_rates(population: nat)
    ensures
        semantic_count_budget(population) <= ceil_share(20_000, population),
        ceil_share(20_000, population) <= 100 ==> semantic_count_budget(population) == ceil_share(
            20_000,
            population,
        ),
        winner_budget(population) <= ceil_share(5_000, population),
        ceil_share(5_000, population) <= 25 ==> winner_budget(population) == ceil_share(
            5_000,
            population,
        ),
{
}

/// A cohort that is not empty may put out a semantic atom and keeps one of a population that is
/// not empty; neither budget is ever larger than the population.
pub proof fn law_budgets_are_positive_and_bounded(population: nat)
    requires
        population > 0,
    ensures
        1 <= semantic_count_budget(population) <= population,
        semantic_count_budget(population) <= 100,
        1 <= winner_budget(population) <= population,
        winner_budget(population) <= 25,
{
}

fn semantic_budget(population: usize) -> (budget: usize)
    ensures
        budget == semantic_count_budget(population as nat),
{
    let share: u128 = (2 * (population as u128) + 99) / 100;
    if share < MAX_SEMANTIC_ATOMS_PER_COHORT as u128 {
        share as usize
    } else {
        MAX_SEMANTIC_ATOMS_PER_COHORT
    }
}

pub(crate) fn required_winners(population: usize) -> (budget: usize)
    ensures
        budget == winner_budget(population as nat),
{
    let share: u128 = (5 * (population as u128) + 999) / 1000;
    if share < MAX_WINNERS_PER_COHORT as u128 {
        share as usize
    } else {
        MAX_WINNERS_PER_COHORT
    }
}

/// The bytes of all the bodies of a list of atoms.
pub open spec fn body_bytes(atoms: Seq<AtomRecord>) -> nat
    decreases atoms.len(),
{
    if atoms.len() == 0 {
        0
    } else {
        body_bytes(atoms.drop_last()) + atoms.last().canonical_body@.len()
    }
}

/// Whether a decision is about an atom of a snapshot in the state that the snapshot saw.
pub open spec fn decides(atom: SnapshotAtom, decision: PersistedDecision) -> bool {
    atom.atom_id@ == decision.atom_id@ && atom.state_digest@ == decision.pre_state_digest@
}

/// The fault of a list of decisions that does not decide exactly the atoms of a snapshot.
pub open spec fn membership_fault(
    atoms: Seq<SnapshotAtom>,
    decisions: Seq<PersistedDecision>,
) -> Option<Fault> {
    if atoms.len() != decisions.len() {
        Some(
            Fault::InvalidRetirementPlan(
                "decision closure has "@ + decimal(decisions.len()) + " decisions for "@ + decimal(
                    atoms.len(),
                ) + " input atoms"@,
            ),
        )
    } else {
        fault_when(
            exists|i: int| 0 <= i < atoms.len() && !decides(#[trigger] atoms[i], decisions[i]),
            Fault::InvalidRetirementPlan(
                "decision closure does not match cohort membership and state"@,
            ),
        )
    }
}

/// The fault of a list of semantic outputs that is too long or holds too many bytes.
pub open spec fn semantic_budget_fault(population: nat, outputs: Seq<AtomRecord>) -> Option<Fault> {
    if outputs.len() > semantic_count_budget(population) {
        Some(
            Fault::InvalidRetirementPlan(
                decimal(outputs.len()) + " semantic atoms exceed count budget "@ + decimal(
                    semantic_count_budget(population),
                ),
            ),
        )
    } else if body_bytes(outputs) > u64::MAX {
        Some(Fault::InvalidRetirementPlan("semantic byte budget overflow"@))
    } else {
        fault_when(
            body_bytes(outputs) > MAX_SEMANTIC_BYTES_PER_COHORT,
            Fault::InvalidRetirementPlan(
                "semantic body bytes "@ + decimal(body_bytes(outputs)) + " exceed 8 MiB budget"@,
            ),
        )
    }
}

/// The fault of a commit that does not decide exactly the cohort or puts out too much.
pub open spec fn decision_closure_fault(
    snapshot: CohortSnapshot,
    commit: RetirementCommit,
) -> Option<Fault> {
    either_fault(
        membership_fault(snapshot.atoms@, commit.decisions@),
        semantic_budget_fault(snapshot.atoms@.len(), commit.semantic_atoms@),
    )
}

proof fn lemma_body_bytes_grow(atoms: Seq<AtomRecord>, i: int)
    requires
        0 <= i <= atoms.len(),
    ensures
        body_bytes(atoms.subrange(0, i)) <= body_bytes(atoms),
    decreases atoms.len() - i,
{
    if i == atoms.len() {
        assert(atoms.subrange(0, i) =~= atoms);
    } else {
        lemma_body_bytes_grow(atoms, i + 1);
        assert(atoms.subrange(0, i + 1).drop_last() =~= atoms.subrange(0, i));
    }
}

fn total_body_bytes(atoms: &Vec<AtomRecord>) -> (total: Option<u64>)
    ensures
        match total {
            Some(total) => total == body_bytes(atoms@),
            None => body_bytes(atoms@) > u64::MAX,
        },
{
    let mut total: u64 = 0;
    let mut i: usize = 0;
    while i < atoms.len()
        invariant
            i <= atoms@.len(),
            total == body_bytes(atoms@.subrange(0, i as int)),
        decreases atoms@.len() - i,
    {
        proof {
            lemma_body_bytes_grow(atoms@, i + 1);
            assert(atoms@.subrange(0, i + 1).drop_last() =~= atoms@.subrange(0, i as int));
            assert(atoms@.subrange(0, i + 1).last() == atoms@[i as int]);
        }
        match total.checked_add(atoms[i].canonical_body.len() as u64) {
            Some(sum) => {
                total = sum;
            },
            None => return None,
        }
        i += 1;
    }
    assert(atoms@.subrange(0, i as int) =~= atoms@);
    Some(total)
}

/// Accepts a commit that decides exactly the atoms of a cohort and stays within the budgets of
/// what it puts out.
pub fn validate_decision_closure(
    snapshot: &CohortSnapshot,
    commit: &RetirementCommit,
) -> (verdict: Result<(), StoreError>)
    ensures
        fault_of(verdict) == decision_closure_fault(*snapshot, *commit),
{
    if snapshot.atoms.len() != commit.decisions.len() {
        let decisions = decimal_text(commit.decisions.len() as u64);
        let atoms = decimal_text(snapshot.atoms.len() as u64);
        return Err(
            StoreError::InvalidRetirementPlan(
                text5(
                    "decision closure has ",
                    decisions.as_str(),
                    " decisions for ",
                    atoms.as_str(),
                    " input atoms",
                ),
            ),
        );
    }
    let mut i: usize = 0;
    while i < snapshot.atoms.len()
        invariant
            i <= snapshot.atoms@.len() == commit.decisions@.len(),
            forall|k: int|
                0 <= k < i ==> decides(#[trigger] snapshot.atoms@[k], commit.decisions@[k]),
        decreases snapshot.atoms@.len() - i,
    {
        let atom = &snapshot.atoms[i];
        let decision = &commit.decisions[i];
        if !same_digest(&atom.atom_id, &decision.atom_id) || !same_digest(
            &atom.state_digest,
            &decision.pre_state_digest,
        ) {
            assert(!decides(snapshot.atoms@[i as int], commit.decisions@[i as int]));
            return Err(
                invalid_plan("decision closure does not match cohort membership and state"),
            );
        }
        i += 1;
    }
    let budget: usize = semantic_budget(snapshot.atoms.len());
    if commit.semantic_atoms.len() > budget {
        let count = decimal_text(commit.semantic_atoms.len() as u64);
        let limit = decimal_text(budget as u64);
        return Err(
            StoreError::InvalidRetirementPlan(
                text3(count.as_str(), " semantic atoms exceed count budget ", limit.as_str()),
            ),
        );
    }
    let bytes: u64 = match total_body_bytes(&commit.semantic_atoms) {
        Some(bytes) => bytes,
        None => return Err(invalid_plan("semantic byte budget overflow")),
    };
    if bytes > MAX_SEMANTIC_BYTES_PER_COHORT {
        let total = decimal_text(bytes);
        return Err(
            StoreError::InvalidRetirementPlan(
                text3("semantic body bytes ", total.as_str(), " exceed 8 MiB budget"),
            ),
        );
    }
    Ok(())
}

/// The budgets of a cohort are shares, rounded up and capped: a semantic atom for every fifty atoms
/// and at most a hundred; a winner for every two hundred that take part and at most twenty-five.
pub proof fn law_budgets_are_rounded_up(population: nat)
    ensures
        semantic_count_budget(population) <= 100,
        semantic_count_budget(population) < 100 ==> 50 * semantic_count_budget(population)
            >= population,
        population > 0 ==> 50 * (semantic_count_budget(population) - 1) < population,
        winner_budget(population) <= 25,
        winner_budget(population) < 25 ==> 200 * winner_budget(population) >= population,
        population > 0 ==> 200 * (winner_budget(population) - 1) < population,
        semantic_count_budget(0) == 0,
        winner_budget(0) == 0,
{
}

/// A share in millionths is rounded up.
pub proof fn law_share_in_millionths_is_rounded_up(rate_ppm: nat, population: nat)
    ensures
        1_000_000 * ceil_share(rate_ppm, population) >= population * rate_ppm,
        1_000_000 * ceil_share(rate_ppm, population) < population * rate_ppm + 1_000_000,
{
}

/// A commit is well formed exactly where its receipt is JSON, its projected state is that of its
/// memory space, its decisions and its outputs, and its decisions, no more than a cohort may have,
/// stand in strict order of their atoms, have a known name each and the digest of their details.
pub proof fn law_commit_is_well_formed_exactly(commit: RetirementCommit)
    ensures
        commit_fault(commit) is None <==> {
            &&& json_fault(commit.receipt.json_projection@, "receipt"@) is None
            &&& commit.post_state.memory_space_id@ == commit.key.memory_space_id@
            &&& commit.post_state.digest@ == commit.projected_state_digest@
            &&& commit.post_state.source_count == commit.decisions@.len()
            &&& commit.post_state.semantic_count == commit.semantic_atoms@.len()
            &&& commit.decisions@.len() <= 100_000
            &&& forall|i: int|
                0 <= i < commit.decisions@.len() ==> {
                    let decision = #[trigger] commit.decisions@[i];
                    let name = decision.decision@;
                    &&& i > 0 ==> precedes(commit.decisions@[i - 1].atom_id@, decision.atom_id@)
                    &&& name == "semantic_source"@ || name == "episodic_winner"@ || name
                        == "semantic_and_episodic"@ || name == "forgotten"@ || name
                        == "unchanged"@
                    &&& decision.details_digest@ == sha256_of(decision.canonical_details@)
                }
        },
{
    let faulty = |i: int| decision_fault(commit.decisions@, i);
    crate::folding::lemma_no_first_indexed(commit.decisions@.len(), faulty);
    if commit_fault(commit) is None {
        assert forall|i: int| 0 <= i < commit.decisions@.len() implies {
            let decision = #[trigger] commit.decisions@[i];
            let name = decision.decision@;
            &&& i > 0 ==> precedes(commit.decisions@[i - 1].atom_id@, decision.atom_id@)
            &&& name == "semantic_source"@ || name == "episodic_winner"@ || name
                == "semantic_and_episodic"@ || name == "forgotten"@ || name == "unchanged"@
            &&& decision.details_digest@ == sha256_of(decision.canonical_details@)
        } by {
            assert(faulty(i) is None);
        }
    }
    if forall|i: int|
        0 <= i < commit.decisions@.len() ==> {
            let decision = #[trigger] commit.decisions@[i];
            let name = decision.decision@;
            &&& i > 0 ==> precedes(commit.decisions@[i - 1].atom_id@, decision.atom_id@)
            &&& name == "semantic_source"@ || name == "episodic_winner"@ || name
                == "semantic_and_episodic"@ || name == "forgotten"@ || name == "unchanged"@
            &&& decision.details_digest@ == sha256_of(decision.canonical_details@)
        } {
        assert forall|i: int| 0 <= i < commit.decisions@.len() implies #[trigger] faulty(i)
            is None by {
            let decision = commit.decisions@[i];
        }
    }
}

/// The bytes of the bodies of a list of atoms add up.
pub proof fn law_body_bytes_add_up(atoms: Seq<AtomRecord>, more: AtomRecord)
    ensures
        body_bytes(Seq::<AtomRecord>::empty()) == 0,
        body_bytes(atoms.push(more)) == body_bytes(atoms) + more.canonical_body@.len(),
{
    assert(atoms.push(more).drop_last() =~= atoms);
}

/// The decisions of a commit are accepted exactly where they decide every atom of the cohort, in
/// the state in which it was seen and in its order, and the outputs are within their budgets: no
/// more than the cohort allows and no more than 8 MiB together.
pub proof fn law_decisions_close_over_the_cohort_exactly(
    snapshot: CohortSnapshot,
    commit: RetirementCommit,
)
    ensures
        decision_closure_fault(snapshot, commit) is None <==> {
            &&& commit.decisions@.len() == snapshot.atoms@.len()
            &&& forall|i: int|
                0 <= i < snapshot.atoms@.len() ==> {
                    &&& commit.decisions@[i].atom_id@ == (#[trigger] snapshot.atoms@[i]).atom_id@
                    &&& commit.decisions@[i].pre_state_digest@ == snapshot.atoms@[i].state_digest@
                }
            &&& commit.semantic_atoms@.len() <= semantic_count_budget(snapshot.atoms@.len())
            &&& body_bytes(commit.semantic_atoms@) <= 8 * 1024 * 1024
        },
{
    if commit.decisions@.len() == snapshot.atoms@.len() && forall|i: int|
        0 <= i < snapshot.atoms@.len() ==> {
            &&& commit.decisions@[i].atom_id@ == (#[trigger] snapshot.atoms@[i]).atom_id@
            &&& commit.decisions@[i].pre_state_digest@ == snapshot.atoms@[i].state_digest@
        } {
        assert forall|i: int| 0 <= i < snapshot.atoms@.len() implies decides(
            #[trigger] snapshot.atoms@[i],
            commit.decisions@[i],
        ) by {}
    }
    if decision_closure_fault(snapshot, commit) is None {
        assert forall|i: int| 0 <= i < snapshot.atoms@.len() implies {
            &&& commit.decisions@[i].atom_id@ == (#[trigger] snapshot.atoms@[i]).atom_id@
            &&& commit.decisions@[i].pre_state_digest@ == snapshot.atoms@[i].state_digest@
        } by {
            assert(decides(snapshot.atoms@[i], commit.decisions@[i]));
        }
    }
}

/// A commit that does not close is an invalid plan, and nothing else.
pub proof fn law_open_commit_is_an_invalid_plan(
    snapshot: CohortSnapshot,
    commit: RetirementCommit,
    i: int,
)
    ensures
        decision_closure_fault(snapshot, commit) matches Some(fault)
            ==> fault is InvalidRetirementPlan,
        decision_fault(commit.decisions@, i) matches Some(fault) ==> fault is InvalidRetirementPlan,
{
}

} // verus!
