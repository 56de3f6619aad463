//! Which artifacts a retirement commit must pin: all that its winners may keep, and no others.

use vstd::prelude::*;
use vstd::string::*;

use crate::artifact::{ArtifactStore, ObservedPath, joined_path, metadata_fault, path_fault};
use crate::artifact_rows::{
    ArtifactFileRow, artifact_record_from_row, record_row_fault, row_record,
};
use crate::bytemap::{
    ByteMap, ByteSet, ascending, in_order, lemma_finite_set_has_order, same_members,
};
use crate::commit_rules::{
    MAX_EXACT_PACKAGE_BYTES, MAX_PINNED_BYTES_PER_COHORT, is_winner_name, required_winners,
    winner_budget, winner_decision,
};
use crate::error::{Fault, StoreError, either_fault, fault_of, fault_when, invalid_plan};
use crate::folding::{
    first_fault, first_indexed, folded, lemma_first_fault_step, lemma_first_fault_stops,
    lemma_first_indexed_stops, lemma_folded_step, lemma_folded_stops, lemma_no_first_fault,
    lemma_no_first_indexed,
};
use crate::model::IntegrityStatus;
use crate::plan::{ArtifactPin, PersistedDecision, RetirementCommit};
use crate::snapshot::{CohortSnapshot, SnapshotAtom, package_bytes};
use crate::stored::{digest_array, digest_fault, unsigned_fault, unsigned_integer};
use crate::text::{copy_bytes, decimal, decimal_text, same_bytes, same_text, text4};

verus! {

/// A registered artifact and what was found at its path.
#[derive(Clone, Debug)]
pub struct ArtifactEvidence {
    pub row: ArtifactFileRow,
    pub observed: ObservedPath,
}

/// What the store holds about the artifacts of a cohort: for each atom the artifacts that it may
/// keep, and for each artifact its record and its file.
pub struct PinAuthorities {
    pub references: ByteMap<Vec<Vec<u8>>>,
    pub artifacts: ByteMap<ArtifactEvidence>,
}

/// The atoms that a list of decisions keeps exactly.
pub open spec fn winner_ids(decisions: Seq<PersistedDecision>) -> Set<Seq<u8>>
    decreases decisions.len(),
{
    if decisions.len() == 0 {
        Set::empty()
    } else if is_winner_name(decisions.last().decision@) {
        winner_ids(decisions.drop_last()).insert(decisions.last().atom_id@)
    } else {
        winner_ids(decisions.drop_last())
    }
}

/// Whether an atom takes part in the lottery: it permits exact retention, and every artifact that
/// it declares was found complete.
pub open spec fn is_eligible(atom: SnapshotAtom, integrity: Map<Seq<u8>, IntegrityStatus>) -> bool {
    &&& atom.retention_permission@ == "semantic_and_exact_allowed"@
    &&& integrity.contains_key(atom.atom_id@)
    &&& integrity[atom.atom_id@] == IntegrityStatus::Complete
}

/// How many of a list of atoms take part in the lottery.
pub open spec fn eligible_count(
    atoms: Seq<SnapshotAtom>,
    integrity: Map<Seq<u8>, IntegrityStatus>,
) -> nat
    decreases atoms.len(),
{
    if atoms.len() == 0 {
        0
    } else {
        eligible_count(atoms.drop_last(), integrity) + (if is_eligible(atoms.last(), integrity) {
            1nat
        } else {
            0
        })
    }
}

/// How many of a list of atoms permit exact retention.
pub open spec fn permitted_count(atoms: Seq<SnapshotAtom>) -> nat
    decreases atoms.len(),
{
    if atoms.len() == 0 {
        0
    } else {
        permitted_count(atoms.drop_last()) + (if atoms.last().retention_permission@
            == "semantic_and_exact_allowed"@ {
            1nat
        } else {
            0
        })
    }
}

/// The atoms of a cohort by their identity. A later atom replaces an earlier one.
pub open spec fn atom_places(atoms: Seq<SnapshotAtom>) -> Map<Seq<u8>, int>
    decreases atoms.len(),
{
    if atoms.len() == 0 {
        Map::empty()
    } else {
        atom_places(atoms.drop_last()).insert(atoms.last().atom_id@, atoms.len() - 1)
    }
}

/// The artifacts that an atom may keep.
pub open spec fn allowed_artifacts(
    references: Map<Seq<u8>, Vec<Vec<u8>>>,
    atom_id: Seq<u8>,
) -> Seq<Vec<u8>> {
    if references.contains_key(atom_id) {
        references[atom_id]@
    } else {
        Seq::empty()
    }
}

/// Whether a byte string is in a list.
pub open spec fn lists(list: Seq<Vec<u8>>, bytes: Seq<u8>) -> bool {
    exists|i: int| 0 <= i < list.len() && (#[trigger] list[i])@ == bytes
}

/// The fault of a registered artifact that is not intact.
pub open spec fn evidence_fault(root: Seq<char>, evidence: ArtifactEvidence) -> Option<Fault> {
    let record = row_record(evidence.row);
    either_fault(
        record_row_fault(evidence.row),
        either_fault(
            metadata_fault(record),
            path_fault(
                joined_path(root, record.relative_path),
                record.digest,
                record.byte_len,
                evidence.observed,
            ),
        ),
    )
}

/// Whether the pin at place `i` repeats an earlier one.
pub open spec fn is_repeated_pin(pins: Seq<ArtifactPin>, i: int) -> bool {
    exists|j: int|
        0 <= j < i && (#[trigger] pins[j]).atom_id@ == pins[i].atom_id@ && pins[j].artifact_digest@
            == pins[i].artifact_digest@
}

/// The fault of the pin at place `i`.
pub open spec fn pin_fault(
    root: Seq<char>,
    winners: Set<Seq<u8>>,
    pins: Seq<ArtifactPin>,
    authorities: PinAuthorities,
    i: int,
) -> Option<Fault> {
    let pin = pins[i];
    if !winners.contains(pin.atom_id@) || is_repeated_pin(pins, i) {
        Some(
            Fault::InvalidRetirementPlan(
                "artifact pin is duplicated or does not belong to an episodic winner"@,
            ),
        )
    } else if !lists(
        allowed_artifacts(authorities.references@, pin.atom_id@),
        pin.artifact_digest@,
    ) {
        Some(
            Fault::InvalidRetirementPlan(
                "artifact pin lacks a retention-allowed source reference"@,
            ),
        )
    } else if !authorities.artifacts@.contains_key(pin.artifact_digest@) {
        Some(Fault::InvalidRetirementPlan("pinned artifact record is missing"@))
    } else {
        evidence_fault(root, authorities.artifacts@[pin.artifact_digest@])
    }
}

/// The artifacts that a list of pins keeps for an atom.
pub open spec fn pinned_for(pins: Seq<ArtifactPin>, atom_id: Seq<u8>) -> Set<Seq<u8>>
    decreases pins.len(),
{
    if pins.len() == 0 {
        Set::empty()
    } else if pins.last().atom_id@ == atom_id {
        pinned_for(pins.drop_last(), atom_id).insert(pins.last().artifact_digest@)
    } else {
        pinned_for(pins.drop_last(), atom_id)
    }
}

/// The artifacts that a list of pins keeps.
pub open spec fn pinned_artifacts(pins: Seq<ArtifactPin>) -> Set<Seq<u8>>
    decreases pins.len(),
{
    if pins.len() == 0 {
        Set::empty()
    } else {
        pinned_artifacts(pins.drop_last()).insert(pins.last().artifact_digest@)
    }
}

/// The members of a list.
pub open spec fn listed(list: Seq<Vec<u8>>) -> Set<Seq<u8>>
    decreases list.len(),
{
    if list.len() == 0 {
        Set::empty()
    } else {
        listed(list.drop_last()).insert(list.last()@)
    }
}

/// The fault of a winner: outside the cohort, not eligible, too large, or without the pins of all
/// that it may keep.
pub open spec fn winner_fault(
    atoms: Seq<SnapshotAtom>,
    integrity: Map<Seq<u8>, IntegrityStatus>,
    pins: Seq<ArtifactPin>,
    references: Map<Seq<u8>, Vec<Vec<u8>>>,
    winner: Seq<u8>,
) -> Option<Fault> {
    let places = atom_places(atoms);
    let allowed = allowed_artifacts(references, winner);
    if !places.contains_key(winner) {
        Some(Fault::InvalidRetirementPlan("episodic winner is outside cohort"@))
    } else if !is_eligible(atoms[places[winner]], integrity) {
        Some(Fault::InvalidRetirementPlan("episodic winner is not exact-retention eligible"@))
    } else if package_bytes(
        atoms[places[winner]].body_bytes,
        atoms[places[winner]].artifact_bytes,
    ) > MAX_EXACT_PACKAGE_BYTES {
        Some(Fault::InvalidRetirementPlan("episodic winner exceeds exact package size limit"@))
    } else {
        either_fault(
            first_fault(allowed, |digest: Vec<u8>| digest_fault(digest@, "artifact_digest"@)),
            fault_when(
                pinned_for(pins, winner) != listed(allowed),
                Fault::InvalidRetirementPlan(
                    "episodic winner does not pin complete retention-allowed artifact closure"@,
                ),
            ),
        )
    }
}

/// The bytes of one more pinned artifact.
pub open spec fn add_pinned(
    artifacts: Map<Seq<u8>, ArtifactEvidence>,
    bytes: nat,
    digest: Seq<u8>,
) -> Result<nat, Fault> {
    if !artifacts.contains_key(digest) {
        Err(Fault::Sqlite("Query returned no rows"@))
    } else {
        let byte_len = artifacts[digest].row.byte_len;
        match unsigned_fault(byte_len, "artifact byte_len"@) {
            Some(fault) => Err(fault),
            None => if bytes + byte_len > u64::MAX {
                Err(Fault::InvalidRetirementPlan("pinned byte budget overflow"@))
            } else {
                Ok((bytes + byte_len) as nat)
            },
        }
    }
}

/// The bytes of a set of pinned artifacts, each counted once.
pub open spec fn pinned_bytes(
    artifacts: Map<Seq<u8>, ArtifactEvidence>,
    digests: Set<Seq<u8>>,
) -> Result<nat, Fault> {
    folded(
        in_order(digests),
        0nat,
        |bytes: nat, digest: Seq<u8>| add_pinned(artifacts, bytes, digest),
    )
}

/// The fault of a lottery whose winners are not as many as they must be.
pub open spec fn lottery_fault(winners: nat, expected: nat) -> Option<Fault> {
    fault_when(
        winners != expected,
        Fault::InvalidRetirementPlan(
            "episodic winner count "@ + decimal(winners)
                + " does not match required lottery count "@ + decimal(expected),
        ),
    )
}

/// The fault of pinning too many bytes.
pub open spec fn pinned_budget_fault(bytes: Result<nat, Fault>) -> Option<Fault> {
    match bytes {
        Err(fault) => Some(fault),
        Ok(bytes) => fault_when(
            bytes > MAX_PINNED_BYTES_PER_COHORT,
            Fault::InvalidRetirementPlan(
                "pinned artifact bytes "@ + decimal(bytes) + " exceed cohort budget "@ + decimal(
                    MAX_PINNED_BYTES_PER_COHORT as nat,
                ),
            ),
        ),
    }
}

/// The fault of a commit that keeps the wrong atoms or pins the wrong artifacts.
pub open spec fn pins_fault(
    root: Seq<char>,
    snapshot: CohortSnapshot,
    commit: RetirementCommit,
    authorities: PinAuthorities,
    integrity: Map<Seq<u8>, IntegrityStatus>,
) -> Option<Fault> {
    let winners = winner_ids(commit.decisions@);
    let pins = commit.artifact_pins@;
    either_fault(
        lottery_fault(winners.len(), winner_budget(eligible_count(snapshot.atoms@, integrity))),
        either_fault(
            first_indexed(
                pins.len(),
                |i: int| pin_fault(root, winners, pins, authorities, i),
            ),
            either_fault(
                first_fault(
                    in_order(winners),
                    |winner: Seq<u8>|
                        winner_fault(
                            snapshot.atoms@,
                            integrity,
                            pins,
                            authorities.references@,
                            winner,
                        ),
                ),
                pinned_budget_fault(
                    pinned_bytes(authorities.artifacts@, pinned_artifacts(pins)),
                ),
            ),
        ),
    )
}

fn collect_winners(decisions: &Vec<PersistedDecision>) -> (winners: ByteSet)
    ensures
        winners@ == winner_ids(decisions@),
{
    let mut winners = ByteSet::new();
    let mut i: usize = 0;
    assert(decisions@.subrange(0, 0) =~= Seq::<PersistedDecision>::empty());
    while i < decisions.len()
        invariant
            i <= decisions@.len(),
            winners@ == winner_ids(decisions@.subrange(0, i as int)),
        decreases decisions@.len() - i,
    {
        proof {
            let longer = decisions@.subrange(0, i + 1);
            assert(longer.drop_last() =~= decisions@.subrange(0, i as int));
            assert(longer.last() == decisions@[i as int]);
        }
        if winner_decision(decisions[i].decision.as_str()) {
            winners.insert(decisions[i].atom_id.as_slice());
        }
        i += 1;
    }
    assert(decisions@.subrange(0, i as int) =~= decisions@);
    winners
}

fn takes_part(atom: &SnapshotAtom, integrity: &ByteMap<IntegrityStatus>) -> (eligible: bool)
    ensures
        eligible == is_eligible(*atom, integrity@),
{
    if !same_text(atom.retention_permission.as_str(), "semantic_and_exact_allowed") {
        return false;
    }
    match integrity.get(atom.atom_id.as_slice()) {
        Some(status) => matches!(status, IntegrityStatus::Complete),
        None => false,
    }
}

/// Counts the atoms of a cohort that take part in the lottery.
pub fn count_eligible(atoms: &Vec<SnapshotAtom>, integrity: &ByteMap<IntegrityStatus>) -> (count:
    usize)
    ensures
        count == eligible_count(atoms@, integrity@),
{
    let mut count: usize = 0;
    let mut i: usize = 0;
    assert(atoms@.subrange(0, 0) =~= Seq::<SnapshotAtom>::empty());
    while i < atoms.len()
        invariant
            i <= atoms@.len(),
            count <= i,
            count == eligible_count(atoms@.subrange(0, i as int), integrity@),
        decreases atoms@.len() - i,
    {
        proof {
            let longer = atoms@.subrange(0, i + 1);
            assert(longer.drop_last() =~= atoms@.subrange(0, i as int));
            assert(longer.last() == atoms@[i as int]);
        }
        if takes_part(&atoms[i], integrity) {
            count += 1;
        }
        i += 1;
    }
    assert(atoms@.subrange(0, i as int) =~= atoms@);
    count
}

/// Counts the atoms of a cohort that permit exact retention.
pub fn count_permitted(atoms: &Vec<SnapshotAtom>) -> (count: usize)
    ensures
        count == permitted_count(atoms@),
{
    let mut count: usize = 0;
    let mut i: usize = 0;
    assert(atoms@.subrange(0, 0) =~= Seq::<SnapshotAtom>::empty());
    while i < atoms.len()
        invariant
            i <= atoms@.len(),
            count <= i,
            count == permitted_count(atoms@.subrange(0, i as int)),
        decreases atoms@.len() - i,
    {
        proof {
            let longer = atoms@.subrange(0, i + 1);
            assert(longer.drop_last() =~= atoms@.subrange(0, i as int));
            assert(longer.last() == atoms@[i as int]);
        }
        if same_text(atoms[i].retention_permission.as_str(), "semantic_and_exact_allowed") {
            count += 1;
        }
        i += 1;
    }
    assert(atoms@.subrange(0, i as int) =~= atoms@);
    count
}

/// No more atoms take part in the lottery than permit exact retention.
pub proof fn lemma_eligible_permit(
    atoms: Seq<SnapshotAtom>,
    integrity: Map<Seq<u8>, IntegrityStatus>,
)
    ensures
        eligible_count(atoms, integrity) <= permitted_count(atoms),
    decreases atoms.len(),
{
    if atoms.len() > 0 {
        lemma_eligible_permit(atoms.drop_last(), integrity);
    }
}

/// The places of the atoms of a cohort by their identity.
pub open spec fn place_views(places: ByteMap<usize>) -> Map<Seq<u8>, int> {
    places@.map_values(|place: usize| place as int)
}

proof fn lemma_places_in_range(atoms: Seq<SnapshotAtom>, atom_id: Seq<u8>)
    requires
        atom_places(atoms).contains_key(atom_id),
    ensures
        0 <= atom_places(atoms)[atom_id] < atoms.len(),
        atoms[atom_places(atoms)[atom_id]].atom_id@ == atom_id,
    decreases atoms.len(),
{
    if atoms.len() > 0 && atoms.last().atom_id@ != atom_id {
        lemma_places_in_range(atoms.drop_last(), atom_id);
    }
}

fn collect_places(atoms: &Vec<SnapshotAtom>) -> (places: ByteMap<usize>)
    ensures
        place_views(places) == atom_places(atoms@),
{
    let mut places: ByteMap<usize> = ByteMap::new();
    let mut i: usize = 0;
    assert(place_views(places) =~= atom_places(atoms@.subrange(0, 0)));
    while i < atoms.len()
        invariant
            i <= atoms@.len(),
            place_views(places) == atom_places(atoms@.subrange(0, i as int)),
        decreases atoms@.len() - i,
    {
        let ghost before = place_views(places);
        places.insert(copy_bytes(atoms[i].atom_id.as_slice()), i);
        proof {
            let longer = atoms@.subrange(0, i + 1);
            assert(longer.drop_last() =~= atoms@.subrange(0, i as int));
            assert(longer.last() == atoms@[i as int]);
            assert(place_views(places) =~= before.insert(atoms@[i as int].atom_id@, i as int));
        }
        i += 1;
    }
    assert(atoms@.subrange(0, i as int) =~= atoms@);
    places
}

fn is_listed(list: &Vec<Vec<u8>>, bytes: &[u8]) -> (found: bool)
    ensures
        found == lists(list@, bytes@),
{
    let mut i: usize = 0;
    while i < list.len()
        invariant
            i <= list@.len(),
            forall|k: int| 0 <= k < i ==> (#[trigger] list@[k])@ != bytes@,
        decreases list@.len() - i,
    {
        if same_bytes(list[i].as_slice(), bytes) {
            assert(list@[i as int]@ == bytes@);
            return true;
        }
        i += 1;
    }
    false
}

fn may_keep(references: &ByteMap<Vec<Vec<u8>>>, pin: &ArtifactPin) -> (allowed: bool)
    ensures
        allowed == lists(allowed_artifacts(references@, pin.atom_id@), pin.artifact_digest@),
{
    match references.get(pin.atom_id.as_slice()) {
        Some(list) => is_listed(list, pin.artifact_digest.0.as_slice()),
        None => false,
    }
}

/// Checks a registered artifact and its file.
pub fn verify_evidence(store: &ArtifactStore, evidence: &ArtifactEvidence) -> (verdict: Result<
    (),
    StoreError,
>)
    ensures
        fault_of(verdict) == evidence_fault(store@, *evidence),
{
    let record = artifact_record_from_row(&evidence.row)?;
    store.verify(&record, &evidence.observed)
}

fn repeated_pin(pins: &Vec<ArtifactPin>, i: usize) -> (repeated: bool)
    requires
        i < pins@.len(),
    ensures
        repeated == is_repeated_pin(pins@, i as int),
{
    let mut j: usize = 0;
    while j < i
        invariant
            j <= i < pins@.len(),
            forall|k: int|
                0 <= k < j ==> !((#[trigger] pins@[k]).atom_id@ == pins@[i as int].atom_id@
                    && pins@[k].artifact_digest@ == pins@[i as int].artifact_digest@),
        decreases i - j,
    {
        if same_bytes(pins[j].atom_id.as_slice(), pins[i].atom_id.as_slice()) && same_bytes(
            pins[j].artifact_digest.0.as_slice(),
            pins[i].artifact_digest.0.as_slice(),
        ) {
            assert(pins@[j as int].atom_id@ == pins@[i as int].atom_id@);
            return true;
        }
        j += 1;
    }
    false
}

fn check_pin(
    store: &ArtifactStore,
    winners: &ByteSet,
    pins: &Vec<ArtifactPin>,
    authorities: &PinAuthorities,
    i: usize,
) -> (verdict: Result<(), StoreError>)
    requires
        i < pins@.len(),
    ensures
        fault_of(verdict) == pin_fault(store@, winners@, pins@, *authorities, i as int),
{
    let pin = &pins[i];
    if !winners.contains(pin.atom_id.as_slice()) || repeated_pin(pins, i) {
        return Err(
            invalid_plan("artifact pin is duplicated or does not belong to an episodic winner"),
        );
    }
    if !may_keep(&authorities.references, pin) {
        return Err(invalid_plan("artifact pin lacks a retention-allowed source reference"));
    }
    match authorities.artifacts.get(pin.artifact_digest.0.as_slice()) {
        Some(evidence) => verify_evidence(store, evidence),
        None => Err(invalid_plan("pinned artifact record is missing")),
    }
}

#[verifier::loop_isolation(false)]
fn collect_listed(list: &Vec<Vec<u8>>) -> (members: Result<ByteSet, StoreError>)
    ensures
        fault_of(members) == first_fault(
            list@,
            |digest: Vec<u8>| digest_fault(digest@, "artifact_digest"@),
        ),
        members matches Ok(members) ==> members@ == listed(list@),
{
    let ghost faulty = |digest: Vec<u8>| digest_fault(digest@, "artifact_digest"@);
    let mut members = ByteSet::new();
    let mut i: usize = 0;
    assert(list@.subrange(0, 0) =~= Seq::<Vec<u8>>::empty());
    while i < list.len()
        invariant
            i <= list@.len(),
            first_fault(list@.subrange(0, i as int), faulty) is None,
            members@ == listed(list@.subrange(0, i as int)),
        decreases list@.len() - i,
    {
        proof {
            lemma_first_fault_step(list@, faulty, i as int);
            let longer = list@.subrange(0, i + 1);
            assert(longer.drop_last() =~= list@.subrange(0, i as int));
            assert(longer.last() == list@[i as int]);
        }
        match digest_array(list[i].as_slice(), "artifact_digest") {
            Ok(digest) => {
                members.insert(digest.as_slice());
            },
            Err(error) => {
                proof {
                    lemma_first_fault_stops(list@, faulty, i + 1);
                }
                return Err(error);
            },
        }
        i += 1;
    }
    assert(list@.subrange(0, i as int) =~= list@);
    Ok(members)
}

fn collect_pinned_for(pins: &Vec<ArtifactPin>, atom_id: &[u8]) -> (members: ByteSet)
    ensures
        members@ == pinned_for(pins@, atom_id@),
{
    let mut members = ByteSet::new();
    let mut i: usize = 0;
    assert(pins@.subrange(0, 0) =~= Seq::<ArtifactPin>::empty());
    while i < pins.len()
        invariant
            i <= pins@.len(),
            members@ == pinned_for(pins@.subrange(0, i as int), atom_id@),
        decreases pins@.len() - i,
    {
        proof {
            let longer = pins@.subrange(0, i + 1);
            assert(longer.drop_last() =~= pins@.subrange(0, i as int));
            assert(longer.last() == pins@[i as int]);
        }
        if same_bytes(pins[i].atom_id.as_slice(), atom_id) {
            members.insert(pins[i].artifact_digest.0.as_slice());
        }
        i += 1;
    }
    assert(pins@.subrange(0, i as int) =~= pins@);
    members
}

fn collect_pinned(pins: &Vec<ArtifactPin>) -> (members: ByteSet)
    ensures
        members@ == pinned_artifacts(pins@),
{
    let mut members = ByteSet::new();
    let mut i: usize = 0;
    assert(pins@.subrange(0, 0) =~= Seq::<ArtifactPin>::empty());
    while i < pins.len()
        invariant
            i <= pins@.len(),
            members@ == pinned_artifacts(pins@.subrange(0, i as int)),
        decreases pins@.len() - i,
    {
        proof {
            let longer = pins@.subrange(0, i + 1);
            assert(longer.drop_last() =~= pins@.subrange(0, i as int));
            assert(longer.last() == pins@[i as int]);
        }
        members.insert(pins[i].artifact_digest.0.as_slice());
        i += 1;
    }
    assert(pins@.subrange(0, i as int) =~= pins@);
    members
}

fn check_winner(
    atoms: &Vec<SnapshotAtom>,
    integrity: &ByteMap<IntegrityStatus>,
    places: &ByteMap<usize>,
    pins: &Vec<ArtifactPin>,
    references: &ByteMap<Vec<Vec<u8>>>,
    winner: &[u8],
) -> (verdict: Result<(), StoreError>)
    requires
        place_views(*places) == atom_places(atoms@),
    ensures
        fault_of(verdict) == winner_fault(atoms@, integrity@, pins@, references@, winner@),
{
    let place: usize = match places.get(winner) {
        Some(place) => *place,
        None => {
            assert(!place_views(*places).contains_key(winner@));
            return Err(invalid_plan("episodic winner is outside cohort"));
        },
    };
    proof {
        assert(place_views(*places)[winner@] == place);
        lemma_places_in_range(atoms@, winner@);
    }
    let atom = &atoms[place];
    if !takes_part(atom, integrity) {
        return Err(invalid_plan("episodic winner is not exact-retention eligible"));
    }
    if atom.exact_package_bytes() > MAX_EXACT_PACKAGE_BYTES {
        return Err(invalid_plan("episodic winner exceeds exact package size limit"));
    }
    let empty: Vec<Vec<u8>> = Vec::new();
    let allowed: &Vec<Vec<u8>> = match references.get(winner) {
        Some(list) => list,
        None => &empty,
    };
    assert(allowed@ =~= allowed_artifacts(references@, winner@));
    let expected = collect_listed(allowed)?;
    let actual = collect_pinned_for(pins, winner);
    if !same_members(&actual, &expected) {
        return Err(
            invalid_plan(
                "episodic winner does not pin complete retention-allowed artifact closure",
            ),
        );
    }
    Ok(())
}

#[verifier::loop_isolation(false)]
fn check_winners(
    atoms: &Vec<SnapshotAtom>,
    integrity: &ByteMap<IntegrityStatus>,
    pins: &Vec<ArtifactPin>,
    references: &ByteMap<Vec<Vec<u8>>>,
    winners: &ByteSet,
) -> (verdict: Result<(), StoreError>)
    ensures
        fault_of(verdict) == first_fault(
            in_order(winners@),
            |winner: Seq<u8>| winner_fault(atoms@, integrity@, pins@, references@, winner),
        ),
{
    let ghost faulty = |winner: Seq<u8>| winner_fault(atoms@, integrity@, pins@, references@, winner);
    let places = collect_places(atoms);
    let count: usize = winners.count();
    let ghost ordered = in_order(winners@);
    let mut i: usize = 0;
    assert(ordered.subrange(0, 0) =~= Seq::<Seq<u8>>::empty());
    while i < count
        invariant
            i <= count == ordered.len(),
            ordered == winners.ordered(),
            first_fault(ordered.subrange(0, i as int), faulty) is None,
        decreases count - i,
    {
        proof {
            lemma_first_fault_step(ordered, faulty, i as int);
        }
        let winner = winners.member_at(i);
        match check_winner(atoms, integrity, &places, pins, references, winner.as_slice()) {
            Ok(_) => {},
            Err(error) => {
                proof {
                    lemma_first_fault_stops(ordered, faulty, i + 1);
                }
                return Err(error);
            },
        }
        i += 1;
    }
    assert(ordered.subrange(0, i as int) =~= ordered);
    Ok(())
}

fn add_pinned_bytes(artifacts: &ByteMap<ArtifactEvidence>, bytes: u64, digest: &[u8]) -> (sum:
    Result<u64, StoreError>)
    ensures
        match sum {
            Ok(sum) => add_pinned(artifacts@, bytes as nat, digest@) == Ok::<nat, Fault>(
                sum as nat,
            ),
            Err(error) => add_pinned(artifacts@, bytes as nat, digest@) == Err::<nat, Fault>(
                error@,
            ),
        },
{
    match artifacts.get(digest) {
        Some(evidence) => {
            let byte_len: u64 = unsigned_integer(evidence.row.byte_len, "artifact byte_len")?;
            match bytes.checked_add(byte_len) {
                Some(sum) => Ok(sum),
                None => Err(invalid_plan("pinned byte budget overflow")),
            }
        },
        None => Err(StoreError::Sqlite("Query returned no rows".to_owned())),
    }
}

#[verifier::loop_isolation(false)]
fn check_pinned_budget(artifacts: &ByteMap<ArtifactEvidence>, digests: &ByteSet) -> (verdict:
    Result<(), StoreError>)
    ensures
        fault_of(verdict) == pinned_budget_fault(pinned_bytes(artifacts@, digests@)),
{
    let ghost step = |bytes: nat, digest: Seq<u8>| add_pinned(artifacts@, bytes, digest);
    let count: usize = digests.count();
    let ghost ordered = in_order(digests@);
    let mut bytes: u64 = 0;
    let mut i: usize = 0;
    assert(ordered.subrange(0, 0) =~= Seq::<Seq<u8>>::empty());
    while i < count
        invariant
            i <= count == ordered.len(),
            ordered == digests.ordered(),
            folded(ordered.subrange(0, i as int), 0nat, step) == Ok::<nat, Fault>(bytes as nat),
        decreases count - i,
    {
        proof {
            lemma_folded_step(ordered, 0nat, step, i as int);
        }
        let digest = digests.member_at(i);
        match add_pinned_bytes(artifacts, bytes, digest.as_slice()) {
            Ok(sum) => {
                bytes = sum;
            },
            Err(error) => {
                proof {
                    lemma_folded_stops(ordered, 0nat, step, i + 1);
                }
                return Err(error);
            },
        }
        i += 1;
    }
    assert(ordered.subrange(0, i as int) =~= ordered);
    if bytes > MAX_PINNED_BYTES_PER_COHORT {
        let total = decimal_text(bytes);
        let limit = decimal_text(MAX_PINNED_BYTES_PER_COHORT);
        return Err(
            StoreError::InvalidRetirementPlan(
                text4(
                    "pinned artifact bytes ",
                    total.as_str(),
                    " exceed cohort budget ",
                    limit.as_str(),
                ),
            ),
        );
    }
    Ok(())
}

/// Accepts a commit that keeps as many atoms as the lottery over the complete atoms that permit
/// exact retention asks for, all of them such atoms and small enough, and pins exactly the artifacts that they may keep, all of them intact and
/// together within the budget.
#[verifier::loop_isolation(false)]
pub fn validate_pins(
    store: &ArtifactStore,
    snapshot: &CohortSnapshot,
    commit: &RetirementCommit,
    authorities: &PinAuthorities,
    integrity: &ByteMap<IntegrityStatus>,
) -> (verdict: Result<(), StoreError>)
    ensures
        fault_of(verdict) == pins_fault(store@, *snapshot, *commit, *authorities, integrity@),
{
    let winners = collect_winners(&commit.decisions);
    let found: usize = winners.count();
    let expected: usize = required_winners(count_eligible(&snapshot.atoms, integrity));
    if found != expected {
        let count = decimal_text(found as u64);
        let budget = decimal_text(expected as u64);
        return Err(
            StoreError::InvalidRetirementPlan(
                text4(
                    "episodic winner count ",
                    count.as_str(),
                    " does not match required lottery count ",
                    budget.as_str(),
                ),
            ),
        );
    }
    let ghost pins = commit.artifact_pins@;
    let ghost faulty = |i: int| pin_fault(store@, winners@, pins, *authorities, i);
    let mut i: usize = 0;
    while i < commit.artifact_pins.len()
        invariant
            i <= pins.len(),
            first_indexed(i as nat, faulty) is None,
        decreases pins.len() - i,
    {
        match check_pin(store, &winners, &commit.artifact_pins, authorities, i) {
            Ok(_) => {},
            Err(error) => {
                proof {
                    lemma_first_indexed_stops(pins.len(), faulty, (i + 1) as nat);
                }
                return Err(error);
            },
        }
        i += 1;
    }
    check_winners(
        &snapshot.atoms,
        integrity,
        &commit.artifact_pins,
        &authorities.references,
        &winners,
    )?;
    let pinned = collect_pinned(&commit.artifact_pins);
    check_pinned_budget(&authorities.artifacts, &pinned)
}

proof fn lemma_winners_ordered(decisions: Seq<PersistedDecision>)
    ensures
        ascending(in_order(winner_ids(decisions))),
        in_order(winner_ids(decisions)).to_set() == winner_ids(decisions),
{
    lemma_winners_finite(decisions);
    lemma_finite_set_has_order(winner_ids(decisions));
}

proof fn lemma_winners_finite(decisions: Seq<PersistedDecision>)
    ensures
        winner_ids(decisions).finite(),
    decreases decisions.len(),
{
    if decisions.len() > 0 {
        lemma_winners_finite(decisions.drop_last());
    }
}

/// A commit that passes keeps as many atoms as the lottery over the complete atoms that permit
/// exact retention asks for, and pins no more bytes than the budget of a cohort.
pub proof fn law_accepted_commit_meets_its_budgets(
    root: Seq<char>,
    snapshot: CohortSnapshot,
    commit: RetirementCommit,
    authorities: PinAuthorities,
    integrity: Map<Seq<u8>, IntegrityStatus>,
)
    requires
        pins_fault(root, snapshot, commit, authorities, integrity) is None,
    ensures
        winner_ids(commit.decisions@).len() == winner_budget(
            eligible_count(snapshot.atoms@, integrity),
        ),
        pinned_bytes(authorities.artifacts@, pinned_artifacts(commit.artifact_pins@)) matches Ok(
            bytes,
        ) && bytes <= MAX_PINNED_BYTES_PER_COHORT,
{
}

/// Every atom that a passing commit keeps is an atom of the cohort that permits exact retention,
/// is complete and is small enough, and has exactly the artifacts that it may keep pinned.
pub proof fn law_accepted_winner_is_complete(
    root: Seq<char>,
    snapshot: CohortSnapshot,
    commit: RetirementCommit,
    authorities: PinAuthorities,
    integrity: Map<Seq<u8>, IntegrityStatus>,
    winner: Seq<u8>,
)
    requires
        pins_fault(root, snapshot, commit, authorities, integrity) is None,
        winner_ids(commit.decisions@).contains(winner),
    ensures
        exists|k: int|
            0 <= k < snapshot.atoms@.len() && (#[trigger] snapshot.atoms@[k]).atom_id@ == winner
                && is_eligible(snapshot.atoms@[k], integrity) && package_bytes(
                snapshot.atoms@[k].body_bytes,
                snapshot.atoms@[k].artifact_bytes,
            ) <= MAX_EXACT_PACKAGE_BYTES,
        pinned_for(commit.artifact_pins@, winner) == listed(
            allowed_artifacts(authorities.references@, winner),
        ),
{
    let winners = winner_ids(commit.decisions@);
    let losing = |winner: Seq<u8>|
        winner_fault(
            snapshot.atoms@,
            integrity,
            commit.artifact_pins@,
            authorities.references@,
            winner,
        );
    lemma_no_first_fault(in_order(winners), losing);
    lemma_winners_ordered(commit.decisions@);
    assert(in_order(winners).contains(winner));
    let k = in_order(winners).index_of(winner);
    assert(losing(in_order(winners)[k]) is None);
    lemma_places_in_range(snapshot.atoms@, winner);
    let place = atom_places(snapshot.atoms@)[winner];
    assert(snapshot.atoms@[place].atom_id@ == winner);
}

/// Every pin of a passing commit is made once, belongs to an atom that the commit keeps and that
/// may keep the artifact, and is on an artifact that is intact.
pub proof fn law_accepted_pin_is_intact(
    root: Seq<char>,
    snapshot: CohortSnapshot,
    commit: RetirementCommit,
    authorities: PinAuthorities,
    integrity: Map<Seq<u8>, IntegrityStatus>,
    i: int,
)
    requires
        pins_fault(root, snapshot, commit, authorities, integrity) is None,
        0 <= i < commit.artifact_pins@.len(),
    ensures
        winner_ids(commit.decisions@).contains(commit.artifact_pins@[i].atom_id@),
        !is_repeated_pin(commit.artifact_pins@, i),
        lists(
            allowed_artifacts(authorities.references@, commit.artifact_pins@[i].atom_id@),
            commit.artifact_pins@[i].artifact_digest@,
        ),
        authorities.artifacts@.contains_key(commit.artifact_pins@[i].artifact_digest@),
        evidence_fault(
            root,
            authorities.artifacts@[commit.artifact_pins@[i].artifact_digest@],
        ) is None,
{
    let winners = winner_ids(commit.decisions@);
    let pins = commit.artifact_pins@;
    let faulty = |i: int| pin_fault(root, winners, pins, authorities, i);
    lemma_no_first_indexed(pins.len(), faulty);
    assert(faulty(i) is None);
}

/// The number of atoms that take part in a lottery is that of the places where an atom permits
/// exact retention and was found complete; the number that permit it is that of the places where
/// an atom does.
pub proof fn law_lottery_counts_complete_permitting_atoms(
    atoms: Seq<SnapshotAtom>,
    integrity: Map<Seq<u8>, IntegrityStatus>,
    complete: Set<int>,
    permitting: Set<int>,
)
    requires
        forall|i: int| #[trigger]
            permitting.contains(i) <==> {
                &&& 0 <= i < atoms.len()
                &&& atoms[i].retention_permission@ == "semantic_and_exact_allowed"@
            },
        forall|i: int| #[trigger]
            complete.contains(i) <==> {
                &&& 0 <= i < atoms.len()
                &&& atoms[i].retention_permission@ == "semantic_and_exact_allowed"@
                &&& integrity.contains_key(atoms[i].atom_id@)
                &&& integrity[atoms[i].atom_id@] == IntegrityStatus::Complete
            },
    ensures
        eligible_count(atoms, integrity) == complete.len(),
        permitted_count(atoms) == permitting.len(),
    decreases atoms.len(),
{
    if atoms.len() == 0 {
        assert(complete =~= Set::empty());
        assert(permitting =~= Set::empty());
    } else {
        let shorter = atoms.drop_last();
        let last = atoms.len() - 1;
        vstd::set_lib::lemma_int_range(0, atoms.len() as int);
        let places = vstd::set_lib::set_int_range(0, atoms.len() as int);
        assert(complete.subset_of(places));
        assert(permitting.subset_of(places));
        vstd::set_lib::lemma_len_subset(complete, places);
        vstd::set_lib::lemma_len_subset(permitting, places);
        let fewer = complete.remove(last);
        let fewer_permitting = permitting.remove(last);
        assert forall|i: int| #[trigger]
            fewer.contains(i) <==> {
                &&& 0 <= i < shorter.len()
                &&& shorter[i].retention_permission@ == "semantic_and_exact_allowed"@
                &&& integrity.contains_key(shorter[i].atom_id@)
                &&& integrity[shorter[i].atom_id@] == IntegrityStatus::Complete
            } by {
            assert(complete.contains(i) == complete.contains(i));
            if 0 <= i < shorter.len() {
                assert(shorter[i] == atoms[i]);
            }
        }
        assert forall|i: int| #[trigger]
            fewer_permitting.contains(i) <==> {
                &&& 0 <= i < shorter.len()
                &&& shorter[i].retention_permission@ == "semantic_and_exact_allowed"@
            } by {
            assert(permitting.contains(i) == permitting.contains(i));
            if 0 <= i < shorter.len() {
                assert(shorter[i] == atoms[i]);
            }
        }
        law_lottery_counts_complete_permitting_atoms(shorter, integrity, fewer, fewer_permitting);
        assert(complete.contains(last) <==> is_eligible(atoms.last(), integrity));
        assert(permitting.contains(last) == permitting.contains(last));
    }
}

/// The winners of a commit are the atoms that it decides to keep, whether or not a semantic atom
/// comes of them, and no others.
pub proof fn law_winners_are_those_decided_to_be_kept(
    decisions: Seq<PersistedDecision>,
    atom_id: Seq<u8>,
)
    ensures
        winner_ids(decisions).contains(atom_id) <==> exists|i: int|
            0 <= i < decisions.len() && (#[trigger] decisions[i]).atom_id@ == atom_id && (
            decisions[i].decision@ == "episodic_winner"@ || decisions[i].decision@
                == "semantic_and_episodic"@),
    decreases decisions.len(),
{
    if decisions.len() > 0 {
        let shorter = decisions.drop_last();
        let last = decisions.len() - 1;
        law_winners_are_those_decided_to_be_kept(shorter, atom_id);
        assert(decisions.last() == decisions[last]);
        if exists|i: int|
            0 <= i < decisions.len() && (#[trigger] decisions[i]).atom_id@ == atom_id && (
            decisions[i].decision@ == "episodic_winner"@ || decisions[i].decision@
                == "semantic_and_episodic"@) {
            let i = choose|i: int|
                0 <= i < decisions.len() && (#[trigger] decisions[i]).atom_id@ == atom_id && (
                decisions[i].decision@ == "episodic_winner"@ || decisions[i].decision@
                    == "semantic_and_episodic"@);
            if i < last {
                assert(shorter[i] == decisions[i]);
            }
        }
        if exists|i: int|
            0 <= i < shorter.len() && (#[trigger] shorter[i]).atom_id@ == atom_id && (
            shorter[i].decision@ == "episodic_winner"@ || shorter[i].decision@
                == "semantic_and_episodic"@) {
            let i = choose|i: int|
                0 <= i < shorter.len() && (#[trigger] shorter[i]).atom_id@ == atom_id && (
                shorter[i].decision@ == "episodic_winner"@ || shorter[i].decision@
                    == "semantic_and_episodic"@);
            assert(decisions[i] == shorter[i]);
        }
    }
}

/// The artifacts that are pinned for an atom are those of its pins, and all pinned artifacts are
/// those of any pin; what an atom may keep is what is listed for it.
pub proof fn law_pinned_artifacts_are_those_of_the_pins(
    pins: Seq<ArtifactPin>,
    list: Seq<Vec<u8>>,
    atom_id: Seq<u8>,
    digest: Seq<u8>,
)
    ensures
        pinned_for(pins, atom_id).contains(digest) <==> exists|i: int|
            0 <= i < pins.len() && (#[trigger] pins[i]).atom_id@ == atom_id
                && pins[i].artifact_digest@ == digest,
        pinned_artifacts(pins).contains(digest) <==> exists|i: int|
            0 <= i < pins.len() && (#[trigger] pins[i]).artifact_digest@ == digest,
        listed(list).contains(digest) <==> exists|i: int|
            0 <= i < list.len() && (#[trigger] list[i])@ == digest,
    decreases pins.len() + list.len(),
{
    if pins.len() > 0 {
        let shorter = pins.drop_last();
        let last = pins.len() - 1;
        law_pinned_artifacts_are_those_of_the_pins(shorter, list, atom_id, digest);
        assert(pins.last() == pins[last]);
        assert forall|i: int| 0 <= i < shorter.len() implies #[trigger] shorter[i] == pins[i] by {}
        assert forall|i: int| 0 <= i < last implies #[trigger] pins[i] == shorter[i] by {}
    } else if list.len() > 0 {
        let shorter = list.drop_last();
        let last = list.len() - 1;
        law_pinned_artifacts_are_those_of_the_pins(pins, shorter, atom_id, digest);
        assert(list.last() == list[last]);
        assert forall|i: int| 0 <= i < shorter.len() implies #[trigger] shorter[i] == list[i] by {}
        assert forall|i: int| 0 <= i < last implies #[trigger] list[i] == shorter[i] by {}
    }
}

/// The bytes of a list of artifacts.
pub open spec fn artifact_sum(
    artifacts: Map<Seq<u8>, ArtifactEvidence>,
    digests: Seq<Seq<u8>>,
) -> int
    decreases digests.len(),
{
    if digests.len() == 0 {
        0
    } else {
        artifact_sum(artifacts, digests.drop_last()) + artifacts[digests.last()].row.byte_len
    }
}

proof fn lemma_artifact_sum(
    artifacts: Map<Seq<u8>, ArtifactEvidence>,
    digests: Seq<Seq<u8>>,
)
    ensures
        ({
            let step = |bytes: nat, digest: Seq<u8>| add_pinned(artifacts, bytes, digest);
            let known = forall|i: int|
                0 <= i < digests.len() ==> artifacts.contains_key(#[trigger] digests[i])
                    && artifacts[digests[i]].row.byte_len >= 0;
            &&& folded(digests, 0nat, step) matches Ok(bytes) ==> bytes == artifact_sum(
                artifacts,
                digests,
            ) && bytes <= u64::MAX && known
            &&& known ==> artifact_sum(artifacts, digests) >= 0
            &&& known && artifact_sum(artifacts, digests) <= u64::MAX ==> folded(
                digests,
                0nat,
                step,
            ) is Ok
        }),
    decreases digests.len(),
{
    if digests.len() > 0 {
        let shorter = digests.drop_last();
        lemma_artifact_sum(artifacts, shorter);
        assert(digests.last() == digests[digests.len() - 1]);
        assert forall|i: int| 0 <= i < shorter.len() implies #[trigger] shorter[i]
            == digests[i] by {}
        assert forall|i: int| 0 <= i < digests.len() - 1 implies #[trigger] digests[i]
            == shorter[i] by {}
    }
}

/// A commit keeps the right atoms and pins the right artifacts exactly where it has as many winners
/// as the lottery asks for; each pin is made once, for a winner, on an artifact that the winner may
/// keep and that is registered and intact; each winner is a complete atom of the cohort that
/// permits exact retention, takes no more than 64 MiB and has all it may keep pinned and nothing
/// else; and all pinned artifacts together, each counted once, take no more than 256 MiB.
pub proof fn law_kept_atoms_and_pins_are_accepted_exactly(
    root: Seq<char>,
    snapshot: CohortSnapshot,
    commit: RetirementCommit,
    authorities: PinAuthorities,
    integrity: Map<Seq<u8>, IntegrityStatus>,
)
    ensures
        pins_fault(root, snapshot, commit, authorities, integrity) is None <==> {
            let winners = winner_ids(commit.decisions@);
            let pins = commit.artifact_pins@;
            let digests = in_order(pinned_artifacts(pins));
            &&& winners.len() == winner_budget(eligible_count(snapshot.atoms@, integrity))
            &&& forall|i: int|
                0 <= i < pins.len() ==> {
                    let pin = #[trigger] pins[i];
                    &&& winners.contains(pin.atom_id@)
                    &&& forall|j: int|
                        0 <= j < i ==> (#[trigger] pins[j]).atom_id@ != pin.atom_id@
                            || pins[j].artifact_digest@ != pin.artifact_digest@
                    &&& authorities.references@.contains_key(pin.atom_id@)
                    &&& lists(authorities.references@[pin.atom_id@]@, pin.artifact_digest@)
                    &&& authorities.artifacts@.contains_key(pin.artifact_digest@)
                    &&& evidence_fault(
                        root,
                        authorities.artifacts@[pin.artifact_digest@],
                    ) is None
                }
            &&& forall|winner: Seq<u8>| #[trigger]
                winners.contains(winner) ==> {
                    let places = atom_places(snapshot.atoms@);
                    let atom = snapshot.atoms@[places[winner]];
                    let allowed = allowed_artifacts(authorities.references@, winner);
                    &&& places.contains_key(winner)
                    &&& atom.retention_permission@ == "semantic_and_exact_allowed"@
                    &&& integrity.contains_key(atom.atom_id@)
                    &&& integrity[atom.atom_id@] == IntegrityStatus::Complete
                    &&& atom.body_bytes + atom.artifact_bytes <= 64 * 1024 * 1024
                    &&& forall|i: int|
                        0 <= i < allowed.len() ==> (#[trigger] allowed[i])@.len() == 32
                    &&& pinned_for(pins, winner) == listed(allowed)
                }
            &&& forall|i: int|
                0 <= i < digests.len() ==> authorities.artifacts@.contains_key(
                    #[trigger] digests[i],
                ) && authorities.artifacts@[digests[i]].row.byte_len >= 0
            &&& artifact_sum(authorities.artifacts@, digests) <= 256 * 1024 * 1024
        },
{
    let winners = winner_ids(commit.decisions@);
    let pins = commit.artifact_pins@;
    let digests = in_order(pinned_artifacts(pins));
    let ordered = in_order(winners);
    lemma_winners_ordered(commit.decisions@);
    lemma_artifact_sum(authorities.artifacts@, digests);
    let bad_pin = |i: int| pin_fault(root, winners, pins, authorities, i);
    lemma_no_first_indexed(pins.len(), bad_pin);
    let bad_winner = |winner: Seq<u8>|
        winner_fault(snapshot.atoms@, integrity, pins, authorities.references@, winner);
    lemma_no_first_fault(ordered, bad_winner);
    assert forall|i: int| 0 <= i < pins.len() implies (bad_pin(i) is None <==> {
        let pin = #[trigger] pins[i];
        &&& winners.contains(pin.atom_id@)
        &&& forall|j: int|
            0 <= j < i ==> (#[trigger] pins[j]).atom_id@ != pin.atom_id@
                || pins[j].artifact_digest@ != pin.artifact_digest@
        &&& authorities.references@.contains_key(pin.atom_id@)
        &&& lists(authorities.references@[pin.atom_id@]@, pin.artifact_digest@)
        &&& authorities.artifacts@.contains_key(pin.artifact_digest@)
        &&& evidence_fault(root, authorities.artifacts@[pin.artifact_digest@]) is None
    }) by {}
    assert forall|winner: Seq<u8>| #[trigger] winners.contains(winner) implies (bad_winner(winner)
        is None <==> {
        let places = atom_places(snapshot.atoms@);
        let atom = snapshot.atoms@[places[winner]];
        let allowed = allowed_artifacts(authorities.references@, winner);
        &&& places.contains_key(winner)
        &&& atom.retention_permission@ == "semantic_and_exact_allowed"@
        &&& integrity.contains_key(atom.atom_id@)
        &&& integrity[atom.atom_id@] == IntegrityStatus::Complete
        &&& atom.body_bytes + atom.artifact_bytes <= 64 * 1024 * 1024
        &&& forall|i: int| 0 <= i < allowed.len() ==> (#[trigger] allowed[i])@.len() == 32
        &&& pinned_for(pins, winner) == listed(allowed)
    }) by {
        let allowed = allowed_artifacts(authorities.references@, winner);
        let short = |digest: Vec<u8>| digest_fault(digest@, "artifact_digest"@);
        lemma_no_first_fault(allowed, short);
        if first_fault(allowed, short) is None {
            assert forall|i: int| 0 <= i < allowed.len() implies (#[trigger] allowed[i])@.len()
                == 32 by {
                assert(short(allowed[i]) is None);
            }
        }
    }
    assert forall|winner: Seq<u8>| #[trigger] winners.contains(winner) <==> ordered.contains(
        winner,
    ) by {
        assert(ordered.to_set().contains(winner) <==> ordered.contains(winner));
    }
    if forall|i: int| 0 <= i < ordered.len() ==> bad_winner(#[trigger] ordered[i]) is None {
        assert forall|winner: Seq<u8>| #[trigger] winners.contains(winner) implies bad_winner(
            winner,
        ) is None by {
            let k = ordered.index_of(winner);
            assert(bad_winner(ordered[k]) is None);
        }
    }
    if forall|winner: Seq<u8>| #[trigger] winners.contains(winner) ==> bad_winner(winner) is None {
        assert forall|i: int| 0 <= i < ordered.len() implies bad_winner(#[trigger] ordered[i])
            is None by {
            assert(ordered.contains(ordered[i]));
            assert(winners.contains(ordered[i]));
        }
    }
    if forall|i: int| 0 <= i < pins.len() ==> #[trigger] bad_pin(i) is None {
        assert forall|i: int| 0 <= i < pins.len() implies bad_pin(i) is None && #[trigger] pins[i]
            == pins[i] by {
            assert(bad_pin(i) is None);
        }
    }
}

/// The atoms that may be kept exactly are counted by their permission alone: one atom more counts
/// exactly where it has it, and no atom is eligible without it.
pub proof fn law_permitted_atoms_are_counted(
    atoms: Seq<SnapshotAtom>,
    atom: SnapshotAtom,
    integrity: Map<Seq<u8>, IntegrityStatus>,
)
    ensures
        permitted_count(Seq::<SnapshotAtom>::empty()) == 0,
        atom.retention_permission@ == "semantic_and_exact_allowed"@ ==> permitted_count(
            atoms.push(atom),
        ) == permitted_count(atoms) + 1,
        atom.retention_permission@ != "semantic_and_exact_allowed"@ ==> permitted_count(
            atoms.push(atom),
        ) == permitted_count(atoms),
        eligible_count(atoms, integrity) <= permitted_count(atoms),
    decreases atoms.len(),
{
    assert(atoms.push(atom).drop_last() =~= atoms);
    if atoms.len() > 0 {
        law_permitted_atoms_are_counted(atoms.drop_last(), atom, integrity);
    }
}

/// Every atom of a cohort is found at its place: an atom has a place exactly where it is one of the
/// cohort, and stands there.
pub proof fn law_atoms_are_found_at_their_places(atoms: Seq<SnapshotAtom>, atom_id: Seq<u8>)
    ensures
        atom_places(atoms).contains_key(atom_id) <==> exists|i: int|
            0 <= i < atoms.len() && (#[trigger] atoms[i]).atom_id@ == atom_id,
        atom_places(atoms).contains_key(atom_id) ==> {
            let place = atom_places(atoms)[atom_id];
            0 <= place < atoms.len() && atoms[place].atom_id@ == atom_id
        },
    decreases atoms.len(),
{
    if atoms.len() > 0 {
        let shorter = atoms.drop_last();
        let last = atoms.len() - 1;
        law_atoms_are_found_at_their_places(shorter, atom_id);
        assert(atoms.last() == atoms[last]);
        assert forall|i: int| 0 <= i < shorter.len() implies #[trigger] shorter[i] == atoms[i] by {}
        assert forall|i: int| 0 <= i < last implies #[trigger] atoms[i] == shorter[i] by {}
        if atom_places(atoms).contains_key(atom_id) && atoms[last].atom_id@ != atom_id {
            let place = atom_places(shorter)[atom_id];
            assert(shorter[place] == atoms[place]);
        }
    }
}

} // verus!
