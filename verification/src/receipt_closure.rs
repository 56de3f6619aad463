//! Proof receipts: what a receipt closes over. Its decisions, winners, pins and outputs must be
//! exactly those that the tables hold for its run.

use vstd::prelude::*;
use vstd::string::*;

use crate::bags::byte_strings;
use crate::bytemap::ByteMap;
use crate::commit_rules::{ceil_share, is_winner_name, winner_decision};
use crate::digest::{sha256, sha256_of};
use crate::edges::group_of;
use crate::error::{Fault, StoreError, either_fault, fault_of, fault_when, integrity};
use crate::folding::{
    first_fault, folded, lemma_first_fault_step, lemma_first_fault_stops, lemma_folded_step,
    lemma_folded_stops,
};
use crate::framing::{be64, be64_bytes, frame, utf8};
use crate::groups::{DigestGroups, add_to_group, group_views, same_groups, set_group};
use crate::messages::{integrity_about, integrity_fault};
use crate::model::Policy;
use crate::receipt_fields::ProofReceipt;
use crate::records::{domain_digest, hash_prefixed};
use crate::stored::{
    digest_array, digest_fault, digest_seq, same_digest, same_digests, unsigned_fault,
    unsigned_integer,
};
use crate::text::{append_bytes, copy_bytes, decimal, decimal_text, same_text};

verus! {

/// The row of a decision of a run.
#[derive(Clone, Debug)]
pub struct RunDecisionRow {
    pub atom_id: Vec<u8>,
    pub decision: String,
    pub canonical_details: Vec<u8>,
    pub details_digest: Vec<u8>,
}

/// A decision of a run.
#[derive(Clone, Debug)]
pub struct RunDecision {
    pub atom_id: [u8; 32],
    pub decision: String,
    pub canonical_details: Vec<u8>,
    pub details_digest: [u8; 32],
}

/// The mathematical content of a decision of a run.
#[verifier::ext_equal]
pub struct DecisionView {
    pub atom_id: Seq<u8>,
    pub decision: Seq<char>,
    pub canonical_details: Seq<u8>,
    pub details_digest: Seq<u8>,
}

impl View for RunDecision {
    type V = DecisionView;

    open spec fn view(&self) -> DecisionView {
        DecisionView {
            atom_id: self.atom_id@,
            decision: self.decision@,
            canonical_details: self.canonical_details@,
            details_digest: self.details_digest@,
        }
    }
}

/// The mathematical content of a list of decisions.
pub open spec fn decision_list(decisions: Seq<RunDecision>) -> Seq<DecisionView> {
    decisions.map_values(|decision: RunDecision| decision@)
}

/// The decision that a row holds.
pub open spec fn row_decision(row: RunDecisionRow) -> DecisionView {
    DecisionView {
        atom_id: row.atom_id@,
        decision: row.decision@,
        canonical_details: row.canonical_details@,
        details_digest: row.details_digest@,
    }
}

/// The decisions that a list of rows holds.
pub open spec fn row_decisions(rows: Seq<RunDecisionRow>) -> Seq<DecisionView> {
    rows.map_values(|row: RunDecisionRow| row_decision(row))
}

/// The fault of the row of a decision.
pub open spec fn decision_row_fault(row: RunDecisionRow) -> Option<Fault> {
    either_fault(
        digest_fault(row.atom_id@, "decision atom_id"@),
        either_fault(
            digest_fault(row.details_digest@, "decision details_digest"@),
            fault_when(
                sha256_of(row.canonical_details@) != row.details_digest@,
                integrity_fault(
                    "retirement decision "@,
                    row.atom_id@,
                    " details digest mismatch"@,
                ),
            ),
        ),
    )
}

fn read_decision(row: &RunDecisionRow) -> (decision: Result<RunDecision, StoreError>)
    ensures
        fault_of(decision) == decision_row_fault(*row),
        decision matches Ok(decision) ==> decision@ == row_decision(*row),
{
    let atom_id = digest_array(row.atom_id.as_slice(), "decision atom_id")?;
    let details_digest = digest_array(row.details_digest.as_slice(), "decision details_digest")?;
    let computed = sha256(row.canonical_details.as_slice());
    if !same_digest(&computed, &details_digest) {
        return Err(
            integrity_about("retirement decision ", &atom_id, " details digest mismatch"),
        );
    }
    Ok(
        RunDecision {
            atom_id,
            decision: row.decision.clone(),
            canonical_details: copy_bytes(row.canonical_details.as_slice()),
            details_digest,
        },
    )
}

/// Reads the decisions of a run.
#[verifier::loop_isolation(false)]
pub fn read_decisions(rows: &Vec<RunDecisionRow>) -> (decisions: Result<
    Vec<RunDecision>,
    StoreError,
>)
    ensures
        fault_of(decisions) == first_fault(rows@, |row: RunDecisionRow| decision_row_fault(row)),
        decisions matches Ok(decisions) ==> decision_list(decisions@) == row_decisions(rows@),
{
    let ghost faulty = |row: RunDecisionRow| decision_row_fault(row);
    let mut decisions: Vec<RunDecision> = Vec::new();
    let mut i: usize = 0;
    assert(rows@.subrange(0, 0) =~= Seq::<RunDecisionRow>::empty());
    while i < rows.len()
        invariant
            i <= rows@.len(),
            first_fault(rows@.subrange(0, i as int), faulty) is None,
            decisions@.len() == i,
            forall|k: int| 0 <= k < i ==> (#[trigger] decisions@[k])@ == row_decision(rows@[k]),
        decreases rows@.len() - i,
    {
        proof {
            lemma_first_fault_step(rows@, faulty, i as int);
        }
        match read_decision(&rows[i]) {
            Ok(decision) => {
                decisions.push(decision);
            },
            Err(error) => {
                proof {
                    lemma_first_fault_stops(rows@, faulty, i + 1);
                }
                return Err(error);
            },
        }
        i += 1;
    }
    assert(rows@.subrange(0, i as int) =~= rows@);
    assert(decision_list(decisions@) =~= row_decisions(rows@));
    Ok(decisions)
}

/// Reads a list of digests from their rows.
#[verifier::loop_isolation(false)]
pub fn read_digests(rows: &Vec<Vec<u8>>, field: &'static str) -> (digests: Result<
    Vec<[u8; 32]>,
    StoreError,
>)
    ensures
        fault_of(digests) == first_fault(rows@, |row: Vec<u8>| digest_fault(row@, field@)),
        digests matches Ok(digests) ==> digest_seq(digests@) == byte_strings(rows@),
{
    let ghost faulty = |row: Vec<u8>| digest_fault(row@, field@);
    let mut digests: Vec<[u8; 32]> = Vec::new();
    let mut i: usize = 0;
    assert(rows@.subrange(0, 0) =~= Seq::<Vec<u8>>::empty());
    while i < rows.len()
        invariant
            i <= rows@.len(),
            first_fault(rows@.subrange(0, i as int), faulty) is None,
            digests@.len() == i,
            forall|k: int| 0 <= k < i ==> (#[trigger] digests@[k])@ == rows@[k]@,
        decreases rows@.len() - i,
    {
        proof {
            lemma_first_fault_step(rows@, faulty, i as int);
        }
        match digest_array(rows[i].as_slice(), field) {
            Ok(digest) => {
                digests.push(digest);
            },
            Err(error) => {
                proof {
                    lemma_first_fault_stops(rows@, faulty, i + 1);
                }
                return Err(error);
            },
        }
        i += 1;
    }
    assert(rows@.subrange(0, i as int) =~= rows@);
    assert(digest_seq(digests@) =~= byte_strings(rows@));
    Ok(digests)
}

// ---------------------------------------------------------------------------------------------
// The digest of the decisions

/// The frames of the details of a list of decisions.
pub open spec fn detail_frames(details: Seq<Seq<u8>>) -> Seq<u8>
    decreases details.len(),
{
    if details.len() == 0 {
        Seq::empty()
    } else {
        detail_frames(details.drop_last()) + frame(details.last())
    }
}

/// The canonical array of the details of a list of decisions: its mark, its length and its frames.
pub open spec fn detail_array(details: Seq<Seq<u8>>) -> Seq<u8> {
    seq![6u8] + be64(details.len() as int) + detail_frames(details)
}

/// The details of a list of decisions.
pub open spec fn details_of(decisions: Seq<DecisionView>) -> Seq<Seq<u8>> {
    decisions.map_values(|decision: DecisionView| decision.canonical_details)
}

/// The digest of the details of a list of decisions.
pub open spec fn decisions_digest(details: Seq<Seq<u8>>) -> Seq<u8> {
    domain_digest(utf8("naome-memory:retirement-decisions:v1\0"@), detail_array(details))
}

/// Hashes the details of a list of decisions.
pub fn persisted_decision_digest(decisions: &Vec<RunDecision>) -> (digest: [u8; 32])
    ensures
        digest@ == decisions_digest(details_of(decision_list(decisions@))),
{
    let ghost details = details_of(decision_list(decisions@));
    let mut array: Vec<u8> = Vec::new();
    array.push(6u8);
    let count = be64_bytes(decisions.len() as u64);
    append_bytes(&mut array, count.as_slice());
    let ghost start = seq![6u8] + be64(details.len() as int);
    assert(array@ =~= start);
    let mut i: usize = 0;
    assert(details.subrange(0, 0) =~= Seq::<Seq<u8>>::empty());
    assert(array@ =~= start + detail_frames(details.subrange(0, 0)));
    while i < decisions.len()
        invariant
            details == details_of(decision_list(decisions@)),
            i <= decisions@.len(),
            array@ == start + detail_frames(details.subrange(0, i as int)),
        decreases decisions@.len() - i,
    {
        let bytes = decisions[i].canonical_details.as_slice();
        let length = be64_bytes(bytes.len() as u64);
        let ghost before = array@;
        append_bytes(&mut array, length.as_slice());
        append_bytes(&mut array, bytes);
        proof {
            let longer = details.subrange(0, i + 1);
            assert(longer.drop_last() =~= details.subrange(0, i as int));
            assert(longer.last() == bytes@);
            assert(array@ =~= start + (detail_frames(longer.drop_last()) + frame(bytes@)));
        }
        i += 1;
    }
    assert(details.subrange(0, i as int) =~= details);
    hash_prefixed("naome-memory:retirement-decisions:v1\0".as_bytes(), array.as_slice())
}

// ---------------------------------------------------------------------------------------------
// Sources and winners

/// The atoms of a list of decisions.
pub open spec fn decided_ids(decisions: Seq<DecisionView>) -> Seq<Seq<u8>> {
    decisions.map_values(|decision: DecisionView| decision.atom_id)
}

fn decision_ids(decisions: &Vec<RunDecision>) -> (ids: Vec<[u8; 32]>)
    ensures
        digest_seq(ids@) == decided_ids(decision_list(decisions@)),
{
    let mut ids: Vec<[u8; 32]> = Vec::new();
    let mut i: usize = 0;
    while i < decisions.len()
        invariant
            i <= decisions@.len(),
            ids@.len() == i,
            forall|k: int| 0 <= k < i ==> (#[trigger] ids@[k])@ == decisions@[k].atom_id@,
        decreases decisions@.len() - i,
    {
        ids.push(decisions[i].atom_id);
        i += 1;
    }
    assert(digest_seq(ids@) =~= decided_ids(decision_list(decisions@)));
    ids
}

/// The atoms that a list of decisions keeps exactly, in order.
pub open spec fn kept_ids(decisions: Seq<DecisionView>) -> Seq<Seq<u8>>
    decreases decisions.len(),
{
    if decisions.len() == 0 {
        Seq::empty()
    } else if is_winner_name(decisions.last().decision) {
        kept_ids(decisions.drop_last()).push(decisions.last().atom_id)
    } else {
        kept_ids(decisions.drop_last())
    }
}

fn collect_kept(decisions: &Vec<RunDecision>) -> (ids: Vec<[u8; 32]>)
    ensures
        digest_seq(ids@) == kept_ids(decision_list(decisions@)),
{
    let ghost all = decision_list(decisions@);
    let mut ids: Vec<[u8; 32]> = Vec::new();
    let mut i: usize = 0;
    assert(all.subrange(0, 0) =~= Seq::<DecisionView>::empty());
    assert(digest_seq(ids@) =~= kept_ids(all.subrange(0, 0)));
    while i < decisions.len()
        invariant
            all == decision_list(decisions@),
            i <= decisions@.len(),
            digest_seq(ids@) == kept_ids(all.subrange(0, i as int)),
        decreases decisions@.len() - i,
    {
        proof {
            let longer = all.subrange(0, i + 1);
            assert(longer.drop_last() =~= all.subrange(0, i as int));
            assert(longer.last() == decisions@[i as int]@);
        }
        if winner_decision(decisions[i].decision.as_str()) {
            let ghost before = ids@;
            ids.push(decisions[i].atom_id);
            assert(digest_seq(ids@) =~= digest_seq(before).push(decisions@[i as int].atom_id@));
        }
        i += 1;
    }
    assert(all.subrange(0, i as int) =~= all);
    ids
}

/// The fault of a receipt whose sources or winners are not those of the decisions of its run.
pub open spec fn sources_fault(
    receipt: ProofReceipt,
    decisions: Seq<DecisionView>,
    members: Seq<Seq<u8>>,
) -> Option<Fault> {
    if decisions_digest(details_of(decisions)) != receipt.decision_digest@ {
        Some(
            Fault::Integrity("receipt decision digest does not match persisted decision details"@),
        )
    } else if decided_ids(decisions) != members || decided_ids(decisions) != digest_seq(
        receipt.closure.source_atom_ids@,
    ) {
        Some(
            Fault::Integrity(
                "receipt source closure does not match persisted retirement decisions"@,
            ),
        )
    } else {
        fault_when(
            kept_ids(decisions) != digest_seq(receipt.closure.exact_episode_ids@),
            Fault::Integrity("receipt episodic closure does not match persisted decisions"@),
        )
    }
}

/// Checks that the sources and the winners of a receipt are those of the decisions of its run.
pub fn check_sources(
    receipt: &ProofReceipt,
    decisions: &Vec<RunDecision>,
    members: &Vec<[u8; 32]>,
) -> (verdict: Result<(), StoreError>)
    ensures
        fault_of(verdict) == sources_fault(
            *receipt,
            decision_list(decisions@),
            digest_seq(members@),
        ),
{
    let digest = persisted_decision_digest(decisions);
    if !same_digest(&digest, &receipt.decision_digest) {
        return Err(
            integrity("receipt decision digest does not match persisted decision details"),
        );
    }
    let ids = decision_ids(decisions);
    if !same_digests(ids.as_slice(), members.as_slice()) || !same_digests(
        ids.as_slice(),
        receipt.closure.source_atom_ids.as_slice(),
    ) {
        return Err(
            integrity("receipt source closure does not match persisted retirement decisions"),
        );
    }
    let kept = collect_kept(decisions);
    if !same_digests(kept.as_slice(), receipt.closure.exact_episode_ids.as_slice()) {
        return Err(integrity("receipt episodic closure does not match persisted decisions"));
    }
    Ok(())
}

// ---------------------------------------------------------------------------------------------
// Pins

/// The row of a pin of a run.
#[derive(Clone, Debug)]
pub struct RunPinRow {
    pub atom_id: Vec<u8>,
    pub artifact_digest: Vec<u8>,
}

/// An empty list for each of a list of atoms.
pub open spec fn empty_groups(ids: Seq<Seq<u8>>) -> Map<Seq<u8>, Seq<Seq<u8>>>
    decreases ids.len(),
{
    if ids.len() == 0 {
        Map::empty()
    } else {
        empty_groups(ids.drop_last()).insert(ids.last(), Seq::empty())
    }
}

/// The pins with one more row.
pub open spec fn add_pin_row(
    pins: Map<Seq<u8>, Seq<Seq<u8>>>,
    row: RunPinRow,
) -> Result<Map<Seq<u8>, Seq<Seq<u8>>>, Fault> {
    match either_fault(
        digest_fault(row.atom_id@, "pin atom_id"@),
        digest_fault(row.artifact_digest@, "pin artifact_digest"@),
    ) {
        Some(fault) => Err(fault),
        None => Ok(
            pins.insert(row.atom_id@, group_of(pins, row.atom_id@).push(row.artifact_digest@)),
        ),
    }
}

/// The pins of a run by atom: those of its winners, none of them missing.
pub open spec fn run_pins(winners: Seq<Seq<u8>>, rows: Seq<RunPinRow>) -> Result<
    Map<Seq<u8>, Seq<Seq<u8>>>,
    Fault,
> {
    folded(
        rows,
        empty_groups(winners),
        |pins: Map<Seq<u8>, Seq<Seq<u8>>>, row: RunPinRow| add_pin_row(pins, row),
    )
}

fn start_groups(ids: &Vec<[u8; 32]>) -> (groups: DigestGroups)
    ensures
        group_views(groups) == empty_groups(digest_seq(ids@)),
{
    let ghost all = digest_seq(ids@);
    let mut groups: DigestGroups = ByteMap::new();
    let empty: Vec<[u8; 32]> = Vec::new();
    let mut i: usize = 0;
    assert(all.subrange(0, 0) =~= Seq::<Seq<u8>>::empty());
    assert(group_views(groups) =~= empty_groups(all.subrange(0, 0)));
    while i < ids.len()
        invariant
            all == digest_seq(ids@),
            empty@.len() == 0,
            i <= ids@.len(),
            group_views(groups) == empty_groups(all.subrange(0, i as int)),
        decreases ids@.len() - i,
    {
        set_group(&mut groups, &ids[i], &empty);
        proof {
            let longer = all.subrange(0, i + 1);
            assert(longer.drop_last() =~= all.subrange(0, i as int));
            assert(longer.last() == ids@[i as int]@);
            assert(digest_seq(empty@) =~= Seq::<Seq<u8>>::empty());
        }
        i += 1;
    }
    assert(all.subrange(0, i as int) =~= all);
    groups
}

/// Reads the pins of a run by atom.
#[verifier::loop_isolation(false)]
pub fn read_pins(winners: &Vec<[u8; 32]>, rows: &Vec<RunPinRow>) -> (pins: Result<
    DigestGroups,
    StoreError,
>)
    ensures
        match pins {
            Ok(pins) => run_pins(digest_seq(winners@), rows@) == Ok::<
                Map<Seq<u8>, Seq<Seq<u8>>>,
                Fault,
            >(group_views(pins)),
            Err(error) => run_pins(digest_seq(winners@), rows@) == Err::<
                Map<Seq<u8>, Seq<Seq<u8>>>,
                Fault,
            >(error@),
        },
{
    let ghost step = |pins: Map<Seq<u8>, Seq<Seq<u8>>>, row: RunPinRow| add_pin_row(pins, row);
    let ghost start = empty_groups(digest_seq(winners@));
    let mut pins = start_groups(winners);
    let mut i: usize = 0;
    assert(rows@.subrange(0, 0) =~= Seq::<RunPinRow>::empty());
    while i < rows.len()
        invariant
            i <= rows@.len(),
            folded(rows@.subrange(0, i as int), start, step) == Ok::<
                Map<Seq<u8>, Seq<Seq<u8>>>,
                Fault,
            >(group_views(pins)),
        decreases rows@.len() - i,
    {
        proof {
            lemma_folded_step(rows@, start, step, i as int);
        }
        let atom_id = match digest_array(rows[i].atom_id.as_slice(), "pin atom_id") {
            Ok(digest) => digest,
            Err(error) => {
                proof {
                    lemma_folded_stops(rows@, start, step, i + 1);
                }
                return Err(error);
            },
        };
        let artifact_digest = match digest_array(
            rows[i].artifact_digest.as_slice(),
            "pin artifact_digest",
        ) {
            Ok(digest) => digest,
            Err(error) => {
                proof {
                    lemma_folded_stops(rows@, start, step, i + 1);
                }
                return Err(error);
            },
        };
        add_to_group(&mut pins, &atom_id, artifact_digest);
        i += 1;
    }
    assert(rows@.subrange(0, i as int) =~= rows@);
    Ok(pins)
}

/// The fault of a receipt whose artifacts are not those that its run pins.
pub open spec fn pins_closure_fault(receipt: ProofReceipt, rows: Seq<RunPinRow>) -> Option<Fault> {
    match run_pins(digest_seq(receipt.closure.exact_episode_ids@), rows) {
        Err(fault) => Some(fault),
        Ok(pins) => fault_when(
            pins != group_views(receipt.closure.exact_artifact_digests),
            Fault::Integrity("receipt artifact closure does not match persisted pins"@),
        ),
    }
}

/// Reads the pins of a run and checks that they are those of its receipt.
pub fn check_pins(receipt: &ProofReceipt, rows: &Vec<RunPinRow>) -> (pins: Result<
    DigestGroups,
    StoreError,
>)
    ensures
        fault_of(pins) == pins_closure_fault(*receipt, rows@),
        pins matches Ok(pins) ==> group_views(pins) == group_views(
            receipt.closure.exact_artifact_digests,
        ),
{
    let pins = read_pins(&receipt.closure.exact_episode_ids, rows)?;
    if !same_groups(&pins, &receipt.closure.exact_artifact_digests) {
        return Err(integrity("receipt artifact closure does not match persisted pins"));
    }
    Ok(pins)
}

// ---------------------------------------------------------------------------------------------
// The lottery

/// The stored body of a winner and the bytes of the artifacts that it keeps.
#[derive(Clone, Debug)]
pub struct WinnerRow {
    pub body_bytes: i64,
    pub canonical_body: Vec<u8>,
    pub artifact_bytes: i64,
}

/// A share of a population, never more than a cap.
pub open spec fn capped_share(rate_ppm: u64, population: nat, cap: usize) -> nat {
    if ceil_share(rate_ppm as nat, population) < cap {
        ceil_share(rate_ppm as nat, population)
    } else {
        cap as nat
    }
}

/// Takes a share of a population, never more than a cap.
pub fn ceil_count(rate_ppm: u64, population: usize, cap: usize) -> (count: usize)
    ensures
        count == capped_share(rate_ppm, population as nat, cap),
{
    let population_wide: u128 = population as u128;
    let rate_wide: u128 = rate_ppm as u128;
    assert(population_wide * rate_wide <= 0xffff_ffff_ffff_ffff * 0xffff_ffff_ffff_ffff)
        by (nonlinear_arith)
        requires
            population_wide <= 0xffff_ffff_ffff_ffff,
            rate_wide <= 0xffff_ffff_ffff_ffff,
    ;
    let share: u128 = (population_wide * rate_wide + 999_999) / 1_000_000;
    if share < cap as u128 {
        share as usize
    } else {
        cap
    }
}

/// The bytes of one more winner.
pub open spec fn add_winner(
    rows: Map<Seq<u8>, WinnerRow>,
    atom_hash_domain: Seq<u8>,
    bytes: nat,
    winner: Seq<u8>,
) -> Result<nat, Fault> {
    if !rows.contains_key(winner) {
        Err(Fault::Sqlite("Query returned no rows"@))
    } else {
        let row = rows[winner];
        let total = bytes + row.canonical_body@.len() + row.artifact_bytes;
        match either_fault(
            unsigned_fault(row.body_bytes, "episodic body_bytes"@),
            either_fault(
                fault_when(
                    row.body_bytes != row.canonical_body@.len() || domain_digest(
                        atom_hash_domain,
                        row.canonical_body@,
                    ) != winner,
                    integrity_fault(
                        "episodic winner "@,
                        winner,
                        " failed exact body authority verification"@,
                    ),
                ),
                either_fault(
                    unsigned_fault(row.artifact_bytes, "episodic artifact_bytes"@),
                    fault_when(
                        total > u64::MAX,
                        Fault::Integrity("episodic winner byte count overflow"@),
                    ),
                ),
            ),
        ) {
            Some(fault) => Err(fault),
            None => Ok(total as nat),
        }
    }
}

/// The bytes of a list of winners.
pub open spec fn winner_bytes(
    rows: Map<Seq<u8>, WinnerRow>,
    atom_hash_domain: Seq<u8>,
    winners: Seq<[u8; 32]>,
) -> Result<nat, Fault> {
    folded(
        winners,
        0nat,
        |bytes: nat, winner: [u8; 32]| add_winner(rows, atom_hash_domain, bytes, winner@),
    )
}

fn add_winner_bytes(
    rows: &ByteMap<WinnerRow>,
    atom_hash_domain: &[u8],
    bytes: u64,
    winner: &[u8; 32],
) -> (sum: Result<u64, StoreError>)
    ensures
        match sum {
            Ok(sum) => add_winner(rows@, atom_hash_domain@, bytes as nat, winner@) == Ok::<
                nat,
                Fault,
            >(sum as nat),
            Err(error) => add_winner(rows@, atom_hash_domain@, bytes as nat, winner@) == Err::<
                nat,
                Fault,
            >(error@),
        },
{
    let row = match rows.get(winner.as_slice()) {
        Some(row) => row,
        None => return Err(StoreError::Sqlite("Query returned no rows".to_owned())),
    };
    let header_bytes: u64 = unsigned_integer(row.body_bytes, "episodic body_bytes")?;
    let body_bytes: u64 = row.canonical_body.len() as u64;
    let identity = hash_prefixed(atom_hash_domain, row.canonical_body.as_slice());
    if header_bytes != body_bytes || !same_digest(&identity, winner) {
        return Err(
            integrity_about(
                "episodic winner ",
                winner,
                " failed exact body authority verification",
            ),
        );
    }
    let artifact_bytes: u64 = unsigned_integer(row.artifact_bytes, "episodic artifact_bytes")?;
    let with_body: u64 = match bytes.checked_add(body_bytes) {
        Some(sum) => sum,
        None => return Err(integrity("episodic winner byte count overflow")),
    };
    match with_body.checked_add(artifact_bytes) {
        Some(sum) => Ok(sum),
        None => Err(integrity("episodic winner byte count overflow")),
    }
}

#[verifier::loop_isolation(false)]
fn sum_winner_bytes(
    rows: &ByteMap<WinnerRow>,
    atom_hash_domain: &[u8],
    winners: &Vec<[u8; 32]>,
) -> (sum: Result<u64, StoreError>)
    ensures
        match sum {
            Ok(sum) => winner_bytes(rows@, atom_hash_domain@, winners@) == Ok::<nat, Fault>(
                sum as nat,
            ),
            Err(error) => winner_bytes(rows@, atom_hash_domain@, winners@) == Err::<nat, Fault>(
                error@,
            ),
        },
{
    let ghost step = |bytes: nat, winner: [u8; 32]|
        add_winner(rows@, atom_hash_domain@, bytes, winner@);
    let mut bytes: u64 = 0;
    let mut i: usize = 0;
    assert(winners@.subrange(0, 0) =~= Seq::<[u8; 32]>::empty());
    while i < winners.len()
        invariant
            i <= winners@.len(),
            folded(winners@.subrange(0, i as int), 0nat, step) == Ok::<nat, Fault>(bytes as nat),
        decreases winners@.len() - i,
    {
        proof {
            lemma_folded_step(winners@, 0nat, step, i as int);
        }
        match add_winner_bytes(rows, atom_hash_domain, bytes, &winners[i]) {
            Ok(sum) => {
                bytes = sum;
            },
            Err(error) => {
                proof {
                    lemma_folded_stops(winners@, 0nat, step, i + 1);
                }
                return Err(error);
            },
        }
        i += 1;
    }
    assert(winners@.subrange(0, i as int) =~= winners@);
    Ok(bytes)
}

/// What the store holds about the lottery of a run: how many atoms of the run permit exact
/// retention, and the number of those that were found complete, which is recorded where it is
/// another one.
#[derive(Clone, Debug)]
pub struct LotteryPopulation {
    pub permitted: i64,
    pub recorded: Option<String>,
}

/// Whether so many atoms took part in the lottery of a run: as many as are recorded, or, without a
/// record, all that permit exact retention.
pub open spec fn is_population(count: nat, population: LotteryPopulation) -> bool {
    match population.recorded {
        Some(text) => text@ == decimal(count) && count < population.permitted,
        None => count == population.permitted,
    }
}

/// The fault of a receipt whose lottery is not that of its population.
pub open spec fn lottery_closure_fault(
    receipt: ProofReceipt,
    population: LotteryPopulation,
    rows: Map<Seq<u8>, WinnerRow>,
    policy: Policy,
) -> Option<Fault> {
    if population.permitted < 0 || population.permitted > usize::MAX {
        Some(Fault::Integrity("negative or oversized episodic population count"@))
    } else {
        let budget = capped_share(
            policy.episodic_rate_ppm,
            receipt.episodic_population_count as nat,
            policy.episodic_count_max,
        );
        let kept = receipt.closure.exact_episode_ids@;
        match winner_bytes(rows, policy.atom_hash_domain@, kept) {
            Err(fault) => Some(fault),
            Ok(bytes) => fault_when(
                !is_population(receipt.episodic_population_count as nat, population)
                    || receipt.episodic_winner_budget != budget || kept.len() != budget
                    || receipt.episodic_winner_bytes != bytes,
                Fault::Integrity("receipt episodic population, budget, or byte closure mismatch"@),
            ),
        }
    }
}

/// Checks that the lottery of a receipt is that of its population.
pub fn check_lottery(
    receipt: &ProofReceipt,
    population: &LotteryPopulation,
    rows: &ByteMap<WinnerRow>,
    policy: &Policy,
) -> (verdict: Result<(), StoreError>)
    ensures
        fault_of(verdict) == lottery_closure_fault(*receipt, *population, rows@, *policy),
{
    if population.permitted < 0 || population.permitted as u128 > usize::MAX as u128 {
        return Err(integrity("negative or oversized episodic population count"));
    }
    let permitted: usize = population.permitted as usize;
    let count: usize = receipt.episodic_population_count;
    let kept: usize = receipt.closure.exact_episode_ids.len();
    let budget: usize = ceil_count(policy.episodic_rate_ppm, count, policy.episodic_count_max);
    let bytes: u64 = sum_winner_bytes(
        rows,
        policy.atom_hash_domain.as_slice(),
        &receipt.closure.exact_episode_ids,
    )?;
    let counted = match &population.recorded {
        Some(text) => same_text(text.as_str(), decimal_text(count as u64).as_str()) && count
            < permitted,
        None => count == permitted,
    };
    if !counted || receipt.episodic_winner_budget != budget || kept != budget
        || receipt.episodic_winner_bytes != bytes {
        return Err(integrity("receipt episodic population, budget, or byte closure mismatch"));
    }
    Ok(())
}

// ---------------------------------------------------------------------------------------------
// What an accepted receipt says

/// The bytes of the packages of winners: their stored bodies and the artifacts that they keep.
pub open spec fn kept_bytes(rows: Map<Seq<u8>, WinnerRow>, winners: Seq<[u8; 32]>) -> int
    decreases winners.len(),
{
    if winners.len() == 0 {
        0
    } else {
        let row = rows[winners.last()@];
        kept_bytes(rows, winners.drop_last()) + (row.canonical_body@.len() + row.artifact_bytes)
    }
}

/// Whether the row of a winner holds the body that its identity is the hash of.
pub open spec fn is_winner_row(
    rows: Map<Seq<u8>, WinnerRow>,
    atom_hash_domain: Seq<u8>,
    winner: Seq<u8>,
) -> bool {
    &&& rows.contains_key(winner)
    &&& rows[winner].body_bytes == rows[winner].canonical_body@.len()
    &&& rows[winner].artifact_bytes >= 0
    &&& winner == domain_digest(atom_hash_domain, rows[winner].canonical_body@)
}

proof fn lemma_winner_bytes(
    rows: Map<Seq<u8>, WinnerRow>,
    atom_hash_domain: Seq<u8>,
    winners: Seq<[u8; 32]>,
)
    ensures
        winner_bytes(rows, atom_hash_domain, winners) matches Ok(bytes) ==> {
            &&& bytes == kept_bytes(rows, winners)
            &&& bytes <= u64::MAX
            &&& forall|i: int|
                0 <= i < winners.len() ==> is_winner_row(
                    rows,
                    atom_hash_domain,
                    #[trigger] winners[i]@,
                )
        },
        (forall|i: int|
            0 <= i < winners.len() ==> is_winner_row(
                rows,
                atom_hash_domain,
                #[trigger] winners[i]@,
            )) && kept_bytes(rows, winners) <= u64::MAX ==> winner_bytes(
            rows,
            atom_hash_domain,
            winners,
        ) is Ok,
        (forall|i: int|
            0 <= i < winners.len() ==> is_winner_row(
                rows,
                atom_hash_domain,
                #[trigger] winners[i]@,
            )) ==> kept_bytes(rows, winners) >= 0,
    decreases winners.len(),
{
    if winners.len() > 0 {
        let shorter = winners.drop_last();
        lemma_winner_bytes(rows, atom_hash_domain, shorter);
        assert(winners.last() == winners[winners.len() - 1]);
        assert forall|i: int| 0 <= i < shorter.len() implies shorter[i] == winners[i] by {}
        if winner_bytes(rows, atom_hash_domain, winners) is Ok {
            assert forall|i: int| 0 <= i < winners.len() implies is_winner_row(
                rows,
                atom_hash_domain,
                #[trigger] winners[i]@,
            ) by {
                if i < shorter.len() {
                    assert(shorter[i] == winners[i]);
                }
            }
        }
        if forall|i: int|
            0 <= i < winners.len() ==> is_winner_row(
                rows,
                atom_hash_domain,
                #[trigger] winners[i]@,
            ) {
            assert forall|i: int| 0 <= i < shorter.len() implies is_winner_row(
                rows,
                atom_hash_domain,
                #[trigger] shorter[i]@,
            ) by {
                assert(shorter[i] == winners[i]);
            }
            assert(is_winner_row(rows, atom_hash_domain, winners[winners.len() - 1]@));
        }
    }
}

/// The lottery of a receipt is accepted exactly where the receipt states what the store shows: the
/// number of atoms that took part, the share of them that the policy keeps, as many winners as
/// that, each with the body that its identity is the hash of, and as many bytes as the bodies and
/// the kept artifacts of all the winners have together.
pub proof fn law_lottery_is_accepted_exactly_for_its_winners(
    receipt: ProofReceipt,
    population: LotteryPopulation,
    rows: Map<Seq<u8>, WinnerRow>,
    policy: Policy,
)
    requires
        0 <= population.permitted <= usize::MAX,
    ensures
        ({
            let winners = receipt.closure.exact_episode_ids@;
            lottery_closure_fault(receipt, population, rows, policy) is None <==> {
                &&& match population.recorded {
                    None => receipt.episodic_population_count == population.permitted,
                    Some(text) => text@ == decimal(receipt.episodic_population_count as nat)
                        && receipt.episodic_population_count < population.permitted,
                }
                &&& winners.len() == capped_share(
                    policy.episodic_rate_ppm,
                    receipt.episodic_population_count as nat,
                    policy.episodic_count_max,
                )
                &&& receipt.episodic_winner_budget == winners.len()
                &&& forall|i: int|
                    0 <= i < winners.len() ==> is_winner_row(
                        rows,
                        policy.atom_hash_domain@,
                        #[trigger] winners[i]@,
                    )
                &&& receipt.episodic_winner_bytes == kept_bytes(rows, winners)
            }
        }),
{
    lemma_winner_bytes(rows, policy.atom_hash_domain@, receipt.closure.exact_episode_ids@);
}

/// A share of a population is rounded up and capped: it is the least number of atoms that are at
/// least that part of the population, or the cap where that number is larger.
pub proof fn law_share_is_rounded_up(rate_ppm: u64, population: nat, cap: usize)
    ensures
        capped_share(rate_ppm, population, cap) <= cap,
        capped_share(rate_ppm, population, cap) < cap ==> 1_000_000 * capped_share(
            rate_ppm,
            population,
            cap,
        ) >= population * rate_ppm,
        capped_share(rate_ppm, population, cap) > 0 ==> 1_000_000 * (capped_share(
            rate_ppm,
            population,
            cap,
        ) - 1) < population * rate_ppm,
{
}

/// The sources of a receipt are accepted exactly where it names, in order, the atoms of all the
/// decisions of its run, which are its members; where its winners are, in order, those that were
/// decided to be kept; and where its decision digest is that of the details.
pub proof fn law_sources_are_accepted_exactly_for_the_decisions(
    receipt: ProofReceipt,
    decisions: Seq<DecisionView>,
    members: Seq<Seq<u8>>,
)
    ensures
        sources_fault(receipt, decisions, members) is None ==> {
            &&& members.len() == decisions.len() == receipt.closure.source_atom_ids@.len()
            &&& forall|i: int|
                0 <= i < decisions.len() ==> (#[trigger] decisions[i]).atom_id == members[i]
                    && decisions[i].atom_id == receipt.closure.source_atom_ids@[i]@
            &&& forall|i: int|
                0 <= i < decisions.len() && ((#[trigger] decisions[i]).decision
                    == "episodic_winner"@ || decisions[i].decision == "semantic_and_episodic"@)
                    ==> digest_seq(receipt.closure.exact_episode_ids@).contains(
                    decisions[i].atom_id,
                )
            &&& forall|k: int|
                0 <= k < receipt.closure.exact_episode_ids@.len() ==> exists|i: int|
                    0 <= i < decisions.len() && (#[trigger] decisions[i]).atom_id
                        == (#[trigger] receipt.closure.exact_episode_ids@[k])@ && (
                    decisions[i].decision == "episodic_winner"@ || decisions[i].decision
                        == "semantic_and_episodic"@)
        },
{
    if sources_fault(receipt, decisions, members) is None {
        let ids = decided_ids(decisions);
        assert(ids.len() == decisions.len());
        assert(digest_seq(receipt.closure.source_atom_ids@).len()
            == receipt.closure.source_atom_ids@.len());
        assert forall|i: int| 0 <= i < decisions.len() implies (#[trigger] decisions[i]).atom_id
            == members[i] && decisions[i].atom_id == receipt.closure.source_atom_ids@[i]@ by {
            assert(ids[i] == decisions[i].atom_id);
            assert(digest_seq(receipt.closure.source_atom_ids@)[i]
                == receipt.closure.source_atom_ids@[i]@);
        }
        lemma_kept_ids(decisions);
        let kept = kept_ids(decisions);
        assert(kept.len() == receipt.closure.exact_episode_ids@.len());
        assert forall|k: int| 0 <= k < receipt.closure.exact_episode_ids@.len() implies exists|i: int|
            0 <= i < decisions.len() && (#[trigger] decisions[i]).atom_id
                == (#[trigger] receipt.closure.exact_episode_ids@[k])@ && (decisions[i].decision
                == "episodic_winner"@ || decisions[i].decision == "semantic_and_episodic"@) by {
            assert(kept[k] == receipt.closure.exact_episode_ids@[k]@);
        }
    }
}

proof fn lemma_kept_ids(decisions: Seq<DecisionView>)
    ensures
        forall|i: int|
            0 <= i < decisions.len() && ((#[trigger] decisions[i]).decision == "episodic_winner"@
                || decisions[i].decision == "semantic_and_episodic"@) ==> kept_ids(
                decisions,
            ).contains(decisions[i].atom_id),
        forall|k: int|
            0 <= k < kept_ids(decisions).len() ==> exists|i: int|
                0 <= i < decisions.len() && (#[trigger] decisions[i]).atom_id == #[trigger] kept_ids(
                    decisions,
                )[k] && (decisions[i].decision == "episodic_winner"@ || decisions[i].decision
                    == "semantic_and_episodic"@),
    decreases decisions.len(),
{
    if decisions.len() > 0 {
        let shorter = decisions.drop_last();
        let last = decisions.len() - 1;
        lemma_kept_ids(shorter);
        let few = kept_ids(shorter);
        let all = kept_ids(decisions);
        assert forall|i: int|
            0 <= i < decisions.len() && ((#[trigger] decisions[i]).decision == "episodic_winner"@
                || decisions[i].decision == "semantic_and_episodic"@) implies all.contains(
            decisions[i].atom_id,
        ) by {
            if i < last {
                assert(shorter[i] == decisions[i]);
                assert(few.contains(decisions[i].atom_id));
                let k = few.index_of(decisions[i].atom_id);
                assert(all[k] == few[k]);
            } else {
                assert(all[all.len() - 1] == decisions[i].atom_id);
            }
        }
        assert forall|k: int| 0 <= k < all.len() implies exists|i: int|
            0 <= i < decisions.len() && (#[trigger] decisions[i]).atom_id == #[trigger] all[k] && (
            decisions[i].decision == "episodic_winner"@ || decisions[i].decision
                == "semantic_and_episodic"@) by {
            if k < few.len() {
                assert(all[k] == few[k]);
                let i = choose|i: int|
                    0 <= i < shorter.len() && (#[trigger] shorter[i]).atom_id == few[k] && (
                    shorter[i].decision == "episodic_winner"@ || shorter[i].decision
                        == "semantic_and_episodic"@);
                assert(decisions[i] == shorter[i]);
            } else {
                assert(decisions[last].atom_id == all[k]);
            }
        }
    }
}

/// The decisions of a run are read only where every row names an atom and holds details of the
/// digest that it states, and are then those of the rows in the same order.
pub proof fn law_decision_row_is_read_exactly_with_its_digest(row: RunDecisionRow)
    ensures
        decision_row_fault(row) is None <==> {
            &&& row.atom_id@.len() == 32
            &&& row.details_digest@.len() == 32
            &&& row.details_digest@ == sha256_of(row.canonical_details@)
        },
        row_decision(row).atom_id == row.atom_id@,
        row_decision(row).decision == row.decision@,
        row_decision(row).canonical_details == row.canonical_details@,
{
}

/// The pins of a run are grouped by its winners: without rows every winner has an empty group and no
/// other atom has one; a row more is taken where it names an atom and an artifact, and stands behind
/// the others of its atom.
pub proof fn law_run_pins_are_grouped_by_winner(
    winners: Seq<Seq<u8>>,
    rows: Seq<RunPinRow>,
    row: RunPinRow,
    atom_id: Seq<u8>,
)
    ensures
        run_pins(winners, Seq::<RunPinRow>::empty()) matches Ok(pins) && (pins.contains_key(atom_id)
            <==> winners.contains(atom_id)) && (winners.contains(atom_id) ==> pins[atom_id].len()
            == 0),
        run_pins(winners, rows.push(row)) is Ok <==> run_pins(winners, rows) is Ok
            && row.atom_id@.len() == 32 && row.artifact_digest@.len() == 32,
        run_pins(winners, rows.push(row)) matches Ok(after) ==> {
            let before = run_pins(winners, rows)->Ok_0;
            let now = group_of(after, row.atom_id@);
            &&& after.contains_key(row.atom_id@)
            &&& now.len() == group_of(before, row.atom_id@).len() + 1
            &&& now.drop_last() == group_of(before, row.atom_id@)
            &&& now.last() == row.artifact_digest@
            &&& atom_id != row.atom_id@ ==> group_of(after, atom_id) == group_of(before, atom_id)
        },
{
    let step = |pins: Map<Seq<u8>, Seq<Seq<u8>>>, row: RunPinRow| add_pin_row(pins, row);
    crate::folding::lemma_folded_push(rows, row, empty_groups(winners), step);
    lemma_empty_groups(winners, atom_id);
    if let Ok(after) = run_pins(winners, rows.push(row)) {
        assert(group_of(after, row.atom_id@).drop_last() =~= group_of(
            run_pins(winners, rows)->Ok_0,
            row.atom_id@,
        ));
    }
}

proof fn lemma_empty_groups(ids: Seq<Seq<u8>>, id: Seq<u8>)
    ensures
        empty_groups(ids).contains_key(id) <==> ids.contains(id),
        ids.contains(id) ==> empty_groups(ids)[id].len() == 0,
    decreases ids.len(),
{
    if ids.len() > 0 {
        let shorter = ids.drop_last();
        lemma_empty_groups(shorter, id);
        assert(ids.contains(id) <==> shorter.contains(id) || ids.last() == id) by {
            if shorter.contains(id) {
                assert(ids[shorter.index_of(id)] == id);
            }
            if ids.last() == id {
                assert(ids[ids.len() - 1] == id);
            }
            if ids.contains(id) {
                let i = ids.index_of(id);
                if i < shorter.len() {
                    assert(shorter[i] == id);
                }
            }
        }
    }
}

/// The pins of a run are accepted exactly where they can be read and are those that its receipt
/// lists, winner by winner.
pub proof fn law_pins_are_accepted_exactly_as_listed(receipt: ProofReceipt, rows: Seq<RunPinRow>)
    ensures
        pins_closure_fault(receipt, rows) is None <==> run_pins(
            digest_seq(receipt.closure.exact_episode_ids@),
            rows,
        ) == Ok::<Map<Seq<u8>, Seq<Seq<u8>>>, Fault>(
            group_views(receipt.closure.exact_artifact_digests),
        ),
{
}

/// The sources of a run are accepted exactly where its decisions have the digest of the receipt, its
/// members and the sources of the receipt are the decided atoms in order, and the episodes that the
/// receipt keeps are those whose decision keeps them, in order.
pub proof fn law_sources_are_accepted_exactly(
    receipt: ProofReceipt,
    decisions: Seq<DecisionView>,
    members: Seq<Seq<u8>>,
)
    ensures
        sources_fault(receipt, decisions, members) is None <==> {
            &&& receipt.decision_digest@ == sha256_of(
                utf8("naome-memory:retirement-decisions:v1\0"@) + (seq![6u8] + be64(
                    decisions.len() as int,
                ) + detail_frames(details_of(decisions))),
            )
            &&& members.len() == decisions.len()
            &&& receipt.closure.source_atom_ids@.len() == decisions.len()
            &&& forall|i: int|
                0 <= i < decisions.len() ==> (#[trigger] decisions[i]).atom_id == members[i]
                    && decisions[i].atom_id == receipt.closure.source_atom_ids@[i]@
            &&& kept_ids(decisions) == digest_seq(receipt.closure.exact_episode_ids@)
        },
{
    let ids = decided_ids(decisions);
    let sources = digest_seq(receipt.closure.source_atom_ids@);
    assert(details_of(decisions).len() == decisions.len());
    assert(ids.len() == decisions.len());
    assert(sources.len() == receipt.closure.source_atom_ids@.len());
    if ids == members && ids == sources {
        assert forall|i: int| 0 <= i < decisions.len() implies (#[trigger] decisions[i]).atom_id
            == members[i] && decisions[i].atom_id == receipt.closure.source_atom_ids@[i]@ by {
            assert(ids[i] == decisions[i].atom_id);
            assert(sources[i] == receipt.closure.source_atom_ids@[i]@);
        }
    }
    if members.len() == decisions.len() && sources.len() == decisions.len() && forall|i: int|
        0 <= i < decisions.len() ==> (#[trigger] decisions[i]).atom_id == members[i]
            && decisions[i].atom_id == receipt.closure.source_atom_ids@[i]@ {
        assert forall|i: int| 0 <= i < ids.len() implies ids[i] == members[i] && ids[i]
            == sources[i] by {
            assert(decisions[i].atom_id == members[i]);
        }
        assert(ids =~= members);
        assert(ids =~= sources);
    }
}

/// The details of every decision are hashed, each in a frame and in order.
pub proof fn law_details_are_hashed_in_order(details: Seq<Seq<u8>>, more: Seq<u8>)
    ensures
        detail_frames(Seq::<Seq<u8>>::empty()).len() == 0,
        detail_frames(details.push(more)) == detail_frames(details) + frame(more),
{
    assert(details.push(more).drop_last() =~= details);
}

} // verus!
