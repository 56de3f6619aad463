//! Proof receipts: the binding of a receipt to its run, and the agreement of its fields with the
//! run and the committed policy.

use vstd::prelude::*;
use vstd::string::*;

use crate::digest::{sha256, sha256_of};
use crate::error::{Fault, StoreError, either_fault, fault_of, fault_when, integrity};
use crate::framing::utf8;
use crate::messages::{integrity_about, integrity_fault};
use crate::model::Policy;
use crate::plan::ReceiptClosure;
use crate::records::{domain_digest, hash_prefixed};
use crate::stored::{
    digest_array, digest_fault, same_digest, unsigned_fault, unsigned_integer,
};
use crate::text::{same_bytes, same_text};

verus! {

/// The row of a retirement run.
#[derive(Clone, Debug)]
pub struct StoredAppliedRun {
    pub memory_space_id: String,
    pub cohort_day: i64,
    pub as_of_us: i64,
    pub policy_id: String,
    pub policy_digest: Vec<u8>,
    pub seed: Vec<u8>,
    pub rng_identifier: String,
    pub input_set_digest: Vec<u8>,
    pub population_digest: Vec<u8>,
    pub plan_digest: Vec<u8>,
    pub projected_state_digest: Vec<u8>,
    pub status: String,
    pub receipt_digest: Option<Vec<u8>>,
}

/// The row of a proof receipt.
#[derive(Clone, Debug)]
pub struct ReceiptRow {
    pub receipt_digest: Vec<u8>,
    pub canonical_receipt: Vec<u8>,
    pub json_projection: String,
    pub closure_digest: Vec<u8>,
    pub created_at_us: i64,
}

/// One invariant that a receipt reports.
#[derive(Clone, Debug)]
pub struct InvariantEntry {
    pub name: String,
    pub verified: bool,
}

/// A proof receipt. Its invariants stand in the order of their names.
pub struct ProofReceipt {
    pub contract_version: String,
    pub receipt_id: [u8; 32],
    pub run_id: [u8; 32],
    pub memory_space_id: String,
    pub cohort_day: u64,
    pub as_of_us: u64,
    pub policy_id: String,
    pub policy_digest: [u8; 32],
    pub rng_identifier: String,
    pub seed: [u8; 32],
    pub input_set_digest: [u8; 32],
    pub population_digest: [u8; 32],
    pub episodic_population_count: usize,
    pub episodic_winner_budget: usize,
    pub episodic_winner_bytes: u64,
    pub semantic_count_budget: usize,
    pub semantic_body_bytes: u64,
    pub plan_digest: [u8; 32],
    pub decision_digest: [u8; 32],
    pub state_digest: [u8; 32],
    pub passed: bool,
    pub invariants: Vec<InvariantEntry>,
    pub closure: ReceiptClosure,
}

/// A receipt as its JSON projection reads, with what the memory core says of it: the identity and
/// the canonical bytes that it recomputes, and the JSON text that it writes.
pub struct ReceiptReading {
    pub receipt: ProofReceipt,
    pub recomputed_id: [u8; 32],
    pub canonical_receipt: Vec<u8>,
    pub canonical_closure: Vec<u8>,
    pub json_projection: String,
}

/// The run of a plan.
pub open spec fn run_of_plan(plan_digest: Seq<u8>) -> Seq<u8> {
    domain_digest(utf8("naome-memory:retirement-run:v1\0"@), plan_digest)
}

/// The identifier of the generator that draws the winners.
pub open spec fn lottery_generator() -> Seq<char> {
    "chacha20-rand_chacha-0.3/partial-fisher-yates-v1"@
}

/// The fault of a run and a receipt that are not there or do not belong together.
pub open spec fn binding_fault(
    run_id: Seq<u8>,
    run: Option<StoredAppliedRun>,
    row: Option<ReceiptRow>,
) -> Option<Fault> {
    match run {
        None => Some(integrity_fault("applied retirement run "@, run_id, " is missing"@)),
        Some(run) => if run.status@ != "applied"@ {
            Some(integrity_fault("retirement run "@, run_id, " is not applied"@))
        } else {
            match run.receipt_digest {
                None => Some(Fault::Integrity("applied run is missing receipt_digest"@)),
                Some(expected) => match row {
                    None => Some(
                        integrity_fault(
                            "applied retirement run "@,
                            run_id,
                            " has no proof receipt"@,
                        ),
                    ),
                    Some(row) => row_binding_fault(run, expected@, row),
                },
            }
        },
    }
}

/// The fault of a receipt row that does not belong to its run.
pub open spec fn row_binding_fault(
    run: StoredAppliedRun,
    expected: Seq<u8>,
    row: ReceiptRow,
) -> Option<Fault> {
    let unbound = Fault::Integrity("retirement run and proof receipt binding mismatch"@);
    either_fault(
        digest_fault(row.receipt_digest@, "receipt_digest"@),
        either_fault(
            digest_fault(row.closure_digest@, "closure_digest"@),
            either_fault(
                fault_when(expected != row.receipt_digest@, unbound),
                either_fault(
                    unsigned_fault(row.created_at_us, "receipt created_at_us"@),
                    either_fault(
                        unsigned_fault(run.as_of_us, "run as_of_us"@),
                        fault_when(row.created_at_us != run.as_of_us, unbound),
                    ),
                ),
            ),
        ),
    )
}

/// The digests that a receipt row holds.
#[derive(Clone, Debug)]
pub struct ReceiptDigests {
    pub receipt_digest: [u8; 32],
    pub closure_digest: [u8; 32],
}

/// Checks that a run was applied and that its receipt is there and belongs to it.
pub fn check_binding(
    run_id: &[u8; 32],
    run: &Option<StoredAppliedRun>,
    row: &Option<ReceiptRow>,
) -> (digests: Result<ReceiptDigests, StoreError>)
    ensures
        fault_of(digests) == binding_fault(run_id@, *run, *row),
        digests matches Ok(digests) ==> {
            &&& run is Some
            &&& *row matches Some(row) && digests.receipt_digest@ == row.receipt_digest@
                && digests.closure_digest@ == row.closure_digest@
        },
{
    let run = match run {
        Some(run) => run,
        None => return Err(integrity_about("applied retirement run ", run_id, " is missing")),
    };
    if !same_text(run.status.as_str(), "applied") {
        return Err(integrity_about("retirement run ", run_id, " is not applied"));
    }
    let expected = match &run.receipt_digest {
        Some(digest) => digest,
        None => return Err(integrity("applied run is missing receipt_digest")),
    };
    let row = match row {
        Some(row) => row,
        None => return Err(
            integrity_about("applied retirement run ", run_id, " has no proof receipt"),
        ),
    };
    let receipt_digest = digest_array(row.receipt_digest.as_slice(), "receipt_digest")?;
    let closure_digest = digest_array(row.closure_digest.as_slice(), "closure_digest")?;
    if !same_bytes(expected.as_slice(), receipt_digest.as_slice()) {
        return Err(integrity("retirement run and proof receipt binding mismatch"));
    }
    let created: u64 = unsigned_integer(row.created_at_us, "receipt created_at_us")?;
    let as_of: u64 = unsigned_integer(run.as_of_us, "run as_of_us")?;
    if created != as_of {
        return Err(integrity("retirement run and proof receipt binding mismatch"));
    }
    Ok(ReceiptDigests { receipt_digest, closure_digest })
}

/// Whether the invariants of a receipt are exactly the three that a retirement proves, all
/// verified.
pub open spec fn has_all_invariants(invariants: Seq<InvariantEntry>) -> bool {
    &&& invariants.len() == 3
    &&& invariants[0].name@ == "budgets_structurally_bounded"@
    &&& invariants[1].name@ == "plan_structure_verified"@
    &&& invariants[2].name@ == "repository_outcome_closure_verified"@
    &&& invariants[0].verified
    &&& invariants[1].verified
    &&& invariants[2].verified
}

/// Recognises the three invariants that a retirement proves.
pub fn all_invariants(invariants: &Vec<InvariantEntry>) -> (all: bool)
    ensures
        all == has_all_invariants(invariants@),
{
    invariants.len() == 3 && same_text(
        invariants[0].name.as_str(),
        "budgets_structurally_bounded",
    ) && same_text(invariants[1].name.as_str(), "plan_structure_verified") && same_text(
        invariants[2].name.as_str(),
        "repository_outcome_closure_verified",
    ) && invariants[0].verified && invariants[1].verified && invariants[2].verified
}

/// Whether a receipt is what its row holds, and of the run and the memory space it is stored for.
pub open spec fn is_authentic(
    run_id: Seq<u8>,
    run: StoredAppliedRun,
    row: ReceiptRow,
    reading: ReceiptReading,
) -> bool {
    let receipt = reading.receipt;
    &&& receipt.contract_version@ == "proof-receipt-v1"@
    &&& receipt.receipt_id@ == row.receipt_digest@
    &&& reading.recomputed_id@ == receipt.receipt_id@
    &&& reading.canonical_receipt@ == row.canonical_receipt@
    &&& reading.json_projection@ == row.json_projection@
    &&& sha256_of(reading.canonical_closure@) == row.closure_digest@
    &&& receipt.run_id@ == run_id
    &&& receipt.run_id@ == run_of_plan(receipt.plan_digest@)
    &&& receipt.memory_space_id@ == run.memory_space_id@
}

/// The fault of a receipt that is not what its row, its run and the committed policy say.
pub open spec fn fields_fault(
    run_id: Seq<u8>,
    run: StoredAppliedRun,
    row: ReceiptRow,
    reading: ReceiptReading,
    policy: Policy,
) -> Option<Fault> {
    let receipt = reading.receipt;
    let failed = integrity_fault(
        "proof receipt "@,
        row.receipt_digest@,
        " failed authority or run-field verification"@,
    );
    either_fault(
        fault_when(!is_authentic(run_id, run, row, reading), failed),
        either_fault(
            unsigned_fault(run.cohort_day, "cohort_day"@),
            either_fault(
                fault_when(receipt.cohort_day != run.cohort_day, failed),
                either_fault(
                    unsigned_fault(run.as_of_us, "as_of_us"@),
                    either_fault(
                        fault_when(
                            receipt.as_of_us != run.as_of_us || receipt.policy_id@
                                != run.policy_id@,
                            failed,
                        ),
                        policy_fields_fault(run, receipt, policy, failed),
                    ),
                ),
            ),
        ),
    )
}

/// The fault of a receipt whose policy, seed or digests are not those of its run.
pub open spec fn policy_fields_fault(
    run: StoredAppliedRun,
    receipt: ProofReceipt,
    policy: Policy,
    failed: Fault,
) -> Option<Fault> {
    either_fault(
        digest_fault(run.policy_digest@, "policy_digest"@),
        either_fault(
            fault_when(
                receipt.policy_digest@ != run.policy_digest@ || receipt.policy_id@
                    != policy.policy_id@ || receipt.policy_digest@ != policy.digest@
                    || receipt.rng_identifier@ != lottery_generator(),
                failed,
            ),
            either_fault(
                digest_fault(run.seed@, "seed"@),
                either_fault(
                    fault_when(
                        receipt.seed@ != run.seed@ || receipt.rng_identifier@
                            != run.rng_identifier@,
                        failed,
                    ),
                    digest_fields_fault(run, receipt, failed),
                ),
            ),
        ),
    )
}

/// The fault of a receipt whose digests are not those of its run, or that did not pass.
pub open spec fn digest_fields_fault(
    run: StoredAppliedRun,
    receipt: ProofReceipt,
    failed: Fault,
) -> Option<Fault> {
    either_fault(
        digest_fault(run.input_set_digest@, "input_set_digest"@),
        either_fault(
            fault_when(receipt.input_set_digest@ != run.input_set_digest@, failed),
            either_fault(
                digest_fault(run.population_digest@, "population_digest"@),
                either_fault(
                    fault_when(receipt.population_digest@ != run.population_digest@, failed),
                    either_fault(
                        digest_fault(run.plan_digest@, "plan_digest"@),
                        either_fault(
                            fault_when(receipt.plan_digest@ != run.plan_digest@, failed),
                            either_fault(
                                digest_fault(
                                    run.projected_state_digest@,
                                    "projected_state_digest"@,
                                ),
                                fault_when(
                                    receipt.state_digest@ != run.projected_state_digest@
                                        || !receipt.passed || !has_all_invariants(
                                        receipt.invariants@,
                                    ),
                                    failed,
                                ),
                            ),
                        ),
                    ),
                ),
            ),
        ),
    )
}

fn authentic(
    run_id: &[u8; 32],
    run: &StoredAppliedRun,
    row: &ReceiptRow,
    digests: &ReceiptDigests,
    reading: &ReceiptReading,
) -> (is: bool)
    requires
        digests.receipt_digest@ == row.receipt_digest@,
        digests.closure_digest@ == row.closure_digest@,
    ensures
        is == is_authentic(run_id@, *run, *row, *reading),
{
    let receipt = &reading.receipt;
    let expected_run_id = hash_prefixed(
        "naome-memory:retirement-run:v1\0".as_bytes(),
        receipt.plan_digest.as_slice(),
    );
    let closure_digest = sha256(reading.canonical_closure.as_slice());
    same_text(receipt.contract_version.as_str(), "proof-receipt-v1") && same_digest(
        &receipt.receipt_id,
        &digests.receipt_digest,
    ) && same_digest(&reading.recomputed_id, &receipt.receipt_id) && same_bytes(
        reading.canonical_receipt.as_slice(),
        row.canonical_receipt.as_slice(),
    ) && same_text(reading.json_projection.as_str(), row.json_projection.as_str()) && same_digest(
        &closure_digest,
        &digests.closure_digest,
    ) && same_digest(&receipt.run_id, run_id) && same_digest(&receipt.run_id, &expected_run_id)
        && same_text(receipt.memory_space_id.as_str(), run.memory_space_id.as_str())
}

fn fields_failed(digests: &ReceiptDigests) -> (error: StoreError)
    ensures
        error@ == integrity_fault(
            "proof receipt "@,
            digests.receipt_digest@,
            " failed authority or run-field verification"@,
        ),
{
    integrity_about(
        "proof receipt ",
        &digests.receipt_digest,
        " failed authority or run-field verification",
    )
}

fn check_digest_fields(run: &StoredAppliedRun, receipt: &ProofReceipt, digests: &ReceiptDigests) -> (verdict:
    Result<(), StoreError>)
    ensures
        fault_of(verdict) == digest_fields_fault(
            *run,
            *receipt,
            integrity_fault(
                "proof receipt "@,
                digests.receipt_digest@,
                " failed authority or run-field verification"@,
            ),
        ),
{
    let input = digest_array(run.input_set_digest.as_slice(), "input_set_digest")?;
    if !same_digest(&receipt.input_set_digest, &input) {
        return Err(fields_failed(digests));
    }
    let population = digest_array(run.population_digest.as_slice(), "population_digest")?;
    if !same_digest(&receipt.population_digest, &population) {
        return Err(fields_failed(digests));
    }
    let plan = digest_array(run.plan_digest.as_slice(), "plan_digest")?;
    if !same_digest(&receipt.plan_digest, &plan) {
        return Err(fields_failed(digests));
    }
    let state = digest_array(run.projected_state_digest.as_slice(), "projected_state_digest")?;
    if !same_digest(&receipt.state_digest, &state) || !receipt.passed || !all_invariants(
        &receipt.invariants,
    ) {
        return Err(fields_failed(digests));
    }
    Ok(())
}

fn check_policy_fields(
    run: &StoredAppliedRun,
    receipt: &ProofReceipt,
    policy: &Policy,
    digests: &ReceiptDigests,
) -> (verdict: Result<(), StoreError>)
    ensures
        fault_of(verdict) == policy_fields_fault(
            *run,
            *receipt,
            *policy,
            integrity_fault(
                "proof receipt "@,
                digests.receipt_digest@,
                " failed authority or run-field verification"@,
            ),
        ),
{
    let policy_digest = digest_array(run.policy_digest.as_slice(), "policy_digest")?;
    if !same_digest(&receipt.policy_digest, &policy_digest) || !same_text(
        receipt.policy_id.as_str(),
        policy.policy_id.as_str(),
    ) || !same_digest(&receipt.policy_digest, &policy.digest) || !same_text(
        receipt.rng_identifier.as_str(),
        "chacha20-rand_chacha-0.3/partial-fisher-yates-v1",
    ) {
        return Err(fields_failed(digests));
    }
    let seed = digest_array(run.seed.as_slice(), "seed")?;
    if !same_digest(&receipt.seed, &seed) || !same_text(
        receipt.rng_identifier.as_str(),
        run.rng_identifier.as_str(),
    ) {
        return Err(fields_failed(digests));
    }
    check_digest_fields(run, receipt, digests)
}

/// Checks that a receipt is what its row, its run and the committed policy say.
pub fn check_fields(
    run_id: &[u8; 32],
    run: &StoredAppliedRun,
    row: &ReceiptRow,
    digests: &ReceiptDigests,
    reading: &ReceiptReading,
    policy: &Policy,
) -> (verdict: Result<(), StoreError>)
    requires
        digests.receipt_digest@ == row.receipt_digest@,
        digests.closure_digest@ == row.closure_digest@,
    ensures
        fault_of(verdict) == fields_fault(run_id@, *run, *row, *reading, *policy),
{
    let receipt = &reading.receipt;
    if !authentic(run_id, run, row, digests, reading) {
        return Err(fields_failed(digests));
    }
    let cohort_day: u64 = unsigned_integer(run.cohort_day, "cohort_day")?;
    if receipt.cohort_day != cohort_day {
        return Err(fields_failed(digests));
    }
    let as_of_us: u64 = unsigned_integer(run.as_of_us, "as_of_us")?;
    if receipt.as_of_us != as_of_us || !same_text(
        receipt.policy_id.as_str(),
        run.policy_id.as_str(),
    ) {
        return Err(fields_failed(digests));
    }
    check_policy_fields(run, receipt, policy, digests)
}

/// A run and its receipt belong together exactly where the run was applied, names the receipt, and
/// the receipt was made at the time of the run.
pub proof fn law_receipt_belongs_to_its_run_exactly(
    run_id: Seq<u8>,
    run: Option<StoredAppliedRun>,
    row: Option<ReceiptRow>,
)
    ensures
        binding_fault(run_id, run, row) is None <==> {
            &&& run matches Some(run)
            &&& row matches Some(row)
            &&& run.status@ == "applied"@
            &&& run.receipt_digest matches Some(expected)
            &&& expected@ == row.receipt_digest@
            &&& row.receipt_digest@.len() == 32
            &&& row.closure_digest@.len() == 32
            &&& row.created_at_us == run.as_of_us
            &&& row.created_at_us >= 0
        },
{
}

/// A receipt is accepted against its run exactly where it is the one that was stored, says of the
/// run, the cohort, the policy, the lottery, the input, the plan and the state what the run says,
/// and passed with all three invariants.
pub proof fn law_receipt_says_what_its_run_says(
    run_id: Seq<u8>,
    run: StoredAppliedRun,
    row: ReceiptRow,
    reading: ReceiptReading,
    policy: Policy,
)
    ensures
        fields_fault(run_id, run, row, reading, policy) is None <==> {
            let receipt = reading.receipt;
            &&& receipt.contract_version@ == "proof-receipt-v1"@
            &&& receipt.receipt_id@ == row.receipt_digest@
            &&& reading.recomputed_id@ == receipt.receipt_id@
            &&& reading.canonical_receipt@ == row.canonical_receipt@
            &&& reading.json_projection@ == row.json_projection@
            &&& sha256_of(reading.canonical_closure@) == row.closure_digest@
            &&& receipt.run_id@ == run_id
            &&& receipt.run_id@ == domain_digest(
                utf8("naome-memory:retirement-run:v1\0"@),
                receipt.plan_digest@,
            )
            &&& receipt.memory_space_id@ == run.memory_space_id@
            &&& receipt.cohort_day == run.cohort_day
            &&& receipt.as_of_us == run.as_of_us
            &&& receipt.policy_id@ == run.policy_id@
            &&& receipt.policy_id@ == policy.policy_id@
            &&& receipt.policy_digest@ == run.policy_digest@
            &&& receipt.policy_digest@ == policy.digest@
            &&& receipt.rng_identifier@ == "chacha20-rand_chacha-0.3/partial-fisher-yates-v1"@
            &&& receipt.rng_identifier@ == run.rng_identifier@
            &&& receipt.seed@ == run.seed@
            &&& receipt.input_set_digest@ == run.input_set_digest@
            &&& receipt.population_digest@ == run.population_digest@
            &&& receipt.plan_digest@ == run.plan_digest@
            &&& receipt.state_digest@ == run.projected_state_digest@
            &&& receipt.passed
            &&& receipt.invariants@.len() == 3
            &&& receipt.invariants@[0].name@ == "budgets_structurally_bounded"@
            &&& receipt.invariants@[1].name@ == "plan_structure_verified"@
            &&& receipt.invariants@[2].name@ == "repository_outcome_closure_verified"@
            &&& forall|i: int| 0 <= i < 3 ==> (#[trigger] receipt.invariants@[i]).verified
        },
{
    let invariants = reading.receipt.invariants@;
    if invariants.len() == 3 && forall|i: int| 0 <= i < 3 ==> (#[trigger] invariants[i]).verified {
        assert(invariants[0].verified && invariants[1].verified && invariants[2].verified);
    }
}

} // verus!
