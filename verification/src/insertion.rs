//! Storing an atom: what is written the first time, and what must already be there the second.

use vstd::prelude::*;
use vstd::string::*;

use crate::error::{Fault, StoreError, either_fault, fault_of, fault_when, invalid_input};
use crate::folding::{
    first_fault, lemma_first_fault_step, lemma_first_fault_stops, lemma_no_first_fault,
};
use crate::hexadecimal::{digest_hex, hex_text};
use crate::lifecycle::{initial_state_fault, validate_initial_atom_state};
use crate::messages::{integrity_about, integrity_fault};
use crate::model::{AtomState, CoreAtom, Policy};
use crate::records::{
    AtomRecord, MAX_ATOM_BYTES, ProjectedProvenance, atom_fault, copy_digests, is_record_of,
    projection_digest_of, record_fault, sha256_projection, validate_atom,
};
use crate::snapshot::MICROSECONDS_PER_DAY;
use crate::stored::{
    digest_array, digest_fault, digest_seq, same_digests, sqlite_integer, sqlite_integer_fault,
};
use crate::text::{
    copy_bytes, copy_optional_text, decimal, decimal_text, optional_bytes, optional_text,
    same_bytes, same_text, text2, text4,
};

verus! {

/// The most atoms that one batch stores.
pub const MAX_ATOM_INSERT_BATCH: usize = 1000;

/// The provenance that is stored for an atom.
#[derive(Clone, Debug)]
pub struct StoredProvenance {
    pub producer: String,
    pub policy_digest: Vec<u8>,
    pub canonical: Vec<u8>,
    pub json: String,
    pub provenance_digest: Vec<u8>,
    pub sources: Vec<Vec<u8>>,
}

/// What is stored under the identity of an atom.
#[derive(Clone, Debug)]
pub struct ExistingAtom {
    pub body_digest: Vec<u8>,
    pub canonical_body: Option<Vec<u8>>,
    pub provenance: Option<StoredProvenance>,
}

/// The rows that are written for a new atom. The counters of its state start at zero.
#[derive(Clone, Debug)]
pub struct AtomRows {
    pub atom_id: [u8; 32],
    pub atom_kind: String,
    pub memory_space_id: String,
    pub repository_id: Option<String>,
    pub task_id: Option<String>,
    pub agent_id: Option<String>,
    pub session_id: Option<String>,
    pub recorded_at_us: i64,
    pub body_digest: [u8; 32],
    pub body_bytes: i64,
    pub retention_permission: String,
    pub provenance_digest: [u8; 32],
    pub canonical_body: Vec<u8>,
    pub json_projection: String,
    pub provenance_producer: String,
    pub provenance_policy_digest: [u8; 32],
    pub canonical_provenance: Vec<u8>,
    pub provenance_json_projection: String,
    pub provenance_sources: Vec<[u8; 32]>,
    pub retention_tier: String,
    pub content_status: String,
    pub expires_at_us: Option<i64>,
    pub searchable_text: String,
    pub topic_keys_json: String,
    pub entity_ids_json: String,
    pub outcome_class: Option<String>,
    pub projection_digest: [u8; 32],
    pub search_atom_id: String,
}

/// Whether rows are those of a record.
pub open spec fn is_rows_of(rows: AtomRows, atom: AtomRecord) -> bool {
    &&& rows.atom_id@ == atom.atom_id@
    &&& rows.atom_kind@ == atom.atom_kind@
    &&& rows.memory_space_id@ == atom.memory_space_id@
    &&& optional_text(rows.repository_id) == optional_text(atom.repository_id)
    &&& optional_text(rows.task_id) == optional_text(atom.task_id)
    &&& optional_text(rows.agent_id) == optional_text(atom.agent_id)
    &&& optional_text(rows.session_id) == optional_text(atom.session_id)
    &&& rows.recorded_at_us == atom.recorded_at_us
    &&& rows.body_digest@ == atom.body_digest@
    &&& rows.body_bytes == atom.canonical_body@.len()
    &&& rows.retention_permission@ == atom.retention_permission@
    &&& rows.provenance_digest@ == atom.provenance_digest@
    &&& rows.canonical_body@ == atom.canonical_body@
    &&& rows.json_projection@ == atom.json_projection@
    &&& rows.provenance_producer@ == atom.provenance_producer@
    &&& rows.provenance_policy_digest@ == atom.provenance_policy_digest@
    &&& rows.canonical_provenance@ == atom.canonical_provenance@
    &&& rows.provenance_json_projection@ == atom.provenance_json_projection@
    &&& rows.provenance_sources@ == atom.provenance_source_digests@
    &&& rows.retention_tier@ == atom.retention_tier@
    &&& rows.content_status@ == atom.content_status@
    &&& match (rows.expires_at_us, atom.expires_at_us) {
        (Some(stored), Some(expiry)) => stored == expiry,
        (None, None) => true,
        _ => false,
    }
    &&& rows.searchable_text@ == atom.searchable_text@
    &&& rows.topic_keys_json@ == atom.topic_keys_json@
    &&& rows.entity_ids_json@ == atom.entity_ids_json@
    &&& optional_text(rows.outcome_class) == optional_text(atom.outcome_class)
    &&& rows.projection_digest@ == projection_digest_of(atom)
    &&& rows.search_atom_id@ == hex_text(atom.atom_id@)
}

/// Whether stored provenance is that of a record.
pub open spec fn same_provenance(stored: StoredProvenance, atom: AtomRecord) -> bool {
    &&& stored.producer@ == atom.provenance_producer@
    &&& stored.policy_digest@ == atom.provenance_policy_digest@
    &&& stored.canonical@ == atom.canonical_provenance@
    &&& stored.json@ == atom.provenance_json_projection@
    &&& stored.provenance_digest@ == atom.provenance_digest@
    &&& crate::bags::byte_strings(stored.sources@) == digest_seq(atom.provenance_source_digests@)
}

/// The fault of stored provenance that is not that of a record.
pub open spec fn stored_provenance_fault(
    atom: AtomRecord,
    stored: Option<StoredProvenance>,
) -> Option<Fault> {
    match stored {
        None => Some(
            integrity_fault("atom "@, atom.atom_id@, " is missing immutable provenance"@),
        ),
        Some(stored) => either_fault(
            first_fault(
                stored.sources@,
                |digest: Vec<u8>| digest_fault(digest@, "provenance source_event_digest"@),
            ),
            fault_when(
                !same_provenance(stored, atom),
                Fault::ImmutableConflict("atom provenance "@ + hex_text(atom.atom_id@)),
            ),
        ),
    }
}

#[verifier::loop_isolation(false)]
fn read_sources(sources: &Vec<Vec<u8>>) -> (digests: Result<Vec<[u8; 32]>, StoreError>)
    ensures
        fault_of(digests) == first_fault(
            sources@,
            |digest: Vec<u8>| digest_fault(digest@, "provenance source_event_digest"@),
        ),
        digests matches Ok(digests) ==> digest_seq(digests@) == crate::bags::byte_strings(
            sources@,
        ),
{
    let ghost faulty = |digest: Vec<u8>| digest_fault(digest@, "provenance source_event_digest"@);
    let mut digests: Vec<[u8; 32]> = Vec::new();
    let mut i: usize = 0;
    assert(sources@.subrange(0, 0) =~= Seq::<Vec<u8>>::empty());
    while i < sources.len()
        invariant
            i <= sources@.len(),
            first_fault(sources@.subrange(0, i as int), faulty) is None,
            digests@.len() == i,
            forall|k: int| 0 <= k < i ==> (#[trigger] digests@[k])@ == sources@[k]@,
        decreases sources@.len() - i,
    {
        proof {
            lemma_first_fault_step(sources@, faulty, i as int);
        }
        match digest_array(sources[i].as_slice(), "provenance source_event_digest") {
            Ok(digest) => {
                digests.push(digest);
            },
            Err(error) => {
                proof {
                    lemma_first_fault_stops(sources@, faulty, i + 1);
                }
                return Err(error);
            },
        }
        i += 1;
    }
    assert(sources@.subrange(0, i as int) =~= sources@);
    assert(digest_seq(digests@) =~= crate::bags::byte_strings(sources@));
    Ok(digests)
}

/// Confirms that stored provenance is that of a record.
pub fn verify_atom_provenance(atom: &AtomRecord, stored: &Option<StoredProvenance>) -> (verdict:
    Result<(), StoreError>)
    ensures
        fault_of(verdict) == stored_provenance_fault(*atom, *stored),
{
    let stored = match stored {
        Some(stored) => stored,
        None => return Err(
            integrity_about("atom ", &atom.atom_id, " is missing immutable provenance"),
        ),
    };
    let sources = read_sources(&stored.sources)?;
    if !same_text(stored.producer.as_str(), atom.provenance_producer.as_str()) || !same_bytes(
        stored.policy_digest.as_slice(),
        atom.provenance_policy_digest.as_slice(),
    ) || !same_bytes(stored.canonical.as_slice(), atom.canonical_provenance.as_slice())
        || !same_text(stored.json.as_str(), atom.provenance_json_projection.as_str())
        || !same_bytes(stored.provenance_digest.as_slice(), atom.provenance_digest.as_slice())
        || !same_digests(sources.as_slice(), atom.provenance_source_digests.as_slice()) {
        let hex = digest_hex(&atom.atom_id);
        return Err(StoreError::ImmutableConflict(text2("atom provenance ", hex.as_str())));
    }
    Ok(())
}

/// The fault of an atom that is stored already, but not as the record says.
pub open spec fn existing_fault(atom: AtomRecord, existing: ExistingAtom) -> Option<Fault> {
    either_fault(
        fault_when(
            existing.body_digest@ != atom.body_digest@ || optional_bytes(existing.canonical_body)
                != Some(atom.canonical_body@),
            Fault::ImmutableConflict("atom "@ + hex_text(atom.atom_id@)),
        ),
        stored_provenance_fault(atom, existing.provenance),
    )
}

/// The fault of a short-term atom that comes after its cohort was retired.
pub open spec fn cohort_fault(atom: AtomRecord, cohort_retired: bool) -> Option<Fault> {
    if atom.retention_tier@ != "stm"@ {
        None
    } else {
        match atom.expires_at_us {
            None => Some(Fault::InvalidInput("STM atom insertion requires an expiry"@)),
            Some(expiry) => either_fault(
                sqlite_integer_fault((expiry / MICROSECONDS_PER_DAY) as u64, "cohort_day"@),
                fault_when(cohort_retired, Fault::RetirementConflict),
            ),
        }
    }
}

/// The fault of a record with a number that no column can hold.
pub open spec fn row_numbers_fault(atom: AtomRecord) -> Option<Fault> {
    either_fault(
        sqlite_integer_fault(atom.recorded_at_us, "recorded_at_us"@),
        either_fault(
            fault_when(
                atom.provenance_source_digests@.len() > i64::MAX + 1,
                Fault::InvalidInput("atom provenance source ordinal exceeds i64"@),
            ),
            match atom.expires_at_us {
                Some(expiry) => sqlite_integer_fault(expiry, "expires_at_us"@),
                None => None,
            },
        ),
    )
}

/// The fault of an atom that cannot be stored.
pub open spec fn insertion_fault(
    atom: AtomRecord,
    projected: Result<ProjectedProvenance, String>,
    policy: Policy,
    existing: Option<ExistingAtom>,
    cohort_retired: bool,
) -> Option<Fault> {
    either_fault(
        atom_fault(atom, projected, policy),
        match existing {
            Some(existing) => existing_fault(atom, existing),
            None => either_fault(cohort_fault(atom, cohort_retired), row_numbers_fault(atom)),
        },
    )
}

fn atom_rows(atom: &AtomRecord) -> (rows: Result<AtomRows, StoreError>)
    requires
        atom.canonical_body@.len() <= MAX_ATOM_BYTES,
    ensures
        fault_of(rows) == row_numbers_fault(*atom),
        rows matches Ok(rows) ==> is_rows_of(rows, *atom),
{
    let recorded_at_us: i64 = sqlite_integer(atom.recorded_at_us, "recorded_at_us")?;
    let body_bytes: i64 = atom.canonical_body.len() as i64;
    if atom.provenance_source_digests.len() as u128 > 9223372036854775808 {
        return Err(invalid_input("atom provenance source ordinal exceeds i64"));
    }
    let expires_at_us: Option<i64> = match atom.expires_at_us {
        Some(expiry) => Some(sqlite_integer(expiry, "expires_at_us")?),
        None => None,
    };
    Ok(
        AtomRows {
            atom_id: atom.atom_id,
            atom_kind: atom.atom_kind.clone(),
            memory_space_id: atom.memory_space_id.clone(),
            repository_id: copy_optional_text(&atom.repository_id),
            task_id: copy_optional_text(&atom.task_id),
            agent_id: copy_optional_text(&atom.agent_id),
            session_id: copy_optional_text(&atom.session_id),
            recorded_at_us,
            body_digest: atom.body_digest,
            body_bytes,
            retention_permission: atom.retention_permission.clone(),
            provenance_digest: atom.provenance_digest,
            canonical_body: copy_bytes(atom.canonical_body.as_slice()),
            json_projection: atom.json_projection.clone(),
            provenance_producer: atom.provenance_producer.clone(),
            provenance_policy_digest: atom.provenance_policy_digest,
            canonical_provenance: copy_bytes(atom.canonical_provenance.as_slice()),
            provenance_json_projection: atom.provenance_json_projection.clone(),
            provenance_sources: copy_digests(&atom.provenance_source_digests),
            retention_tier: atom.retention_tier.clone(),
            content_status: atom.content_status.clone(),
            expires_at_us,
            searchable_text: atom.searchable_text.clone(),
            topic_keys_json: atom.topic_keys_json.clone(),
            entity_ids_json: atom.entity_ids_json.clone(),
            outcome_class: copy_optional_text(&atom.outcome_class),
            projection_digest: sha256_projection(atom),
            search_atom_id: digest_hex(&atom.atom_id),
        },
    )
}

/// Decides what storing an atom writes: all its rows the first time, nothing where it is stored
/// already as the record says.
pub fn put_atom(
    atom: &AtomRecord,
    projected: &Result<ProjectedProvenance, String>,
    policy: &Policy,
    existing: &Option<ExistingAtom>,
    cohort_retired: bool,
) -> (rows: Result<Option<AtomRows>, StoreError>)
    ensures
        fault_of(rows) == insertion_fault(*atom, *projected, *policy, *existing, cohort_retired),
        rows matches Ok(rows) ==> match rows {
            Some(rows) => existing is None && is_rows_of(rows, *atom),
            None => existing is Some,
        },
{
    validate_atom(atom, projected, policy)?;
    if let Some(existing) = existing {
        let same_body = match &existing.canonical_body {
            Some(body) => same_bytes(body.as_slice(), atom.canonical_body.as_slice()),
            None => false,
        };
        if !same_bytes(existing.body_digest.as_slice(), atom.body_digest.as_slice())
            || !same_body {
            let hex = digest_hex(&atom.atom_id);
            return Err(StoreError::ImmutableConflict(text2("atom ", hex.as_str())));
        }
        verify_atom_provenance(atom, &existing.provenance)?;
        return Ok(None);
    }
    if same_text(atom.retention_tier.as_str(), "stm") {
        let expiry: u64 = match atom.expires_at_us {
            Some(expiry) => expiry,
            None => return Err(invalid_input("STM atom insertion requires an expiry")),
        };
        sqlite_integer(expiry / MICROSECONDS_PER_DAY, "cohort_day")?;
        if cohort_retired {
            return Err(StoreError::RetirementConflict);
        }
    }
    Ok(Some(atom_rows(atom)?))
}

/// What is stored under the identity of an atom once its rows are written.
pub open spec fn stores_rows(existing: ExistingAtom, rows: AtomRows) -> bool {
    &&& existing.body_digest@ == rows.body_digest@
    &&& optional_bytes(existing.canonical_body) == Some(rows.canonical_body@)
    &&& existing.provenance matches Some(stored) && {
        &&& stored.producer@ == rows.provenance_producer@
        &&& stored.policy_digest@ == rows.provenance_policy_digest@
        &&& stored.canonical@ == rows.canonical_provenance@
        &&& stored.json@ == rows.provenance_json_projection@
        &&& stored.provenance_digest@ == rows.provenance_digest@
        &&& crate::bags::byte_strings(stored.sources@) == digest_seq(rows.provenance_sources@)
    }
}

/// Storing an atom twice is storing it once: where its rows stand, storing it again succeeds and
/// writes nothing, also after its cohort was retired.
pub proof fn law_storing_an_atom_is_idempotent(
    atom: AtomRecord,
    projected: Result<ProjectedProvenance, String>,
    policy: Policy,
    rows: AtomRows,
    existing: ExistingAtom,
    cohort_retired: bool,
)
    requires
        atom_fault(atom, projected, policy) is None,
        is_rows_of(rows, atom),
        stores_rows(existing, rows),
    ensures
        insertion_fault(atom, projected, policy, Some(existing), cohort_retired) is None,
{
    let stored = existing.provenance->Some_0;
    let faulty = |digest: Vec<u8>| digest_fault(digest@, "provenance source_event_digest"@);
    lemma_no_first_fault(stored.sources@, faulty);
    let strings = crate::bags::byte_strings(stored.sources@);
    let digests = digest_seq(rows.provenance_sources@);
    assert(strings == digests);
    assert(strings.len() == stored.sources@.len());
    assert(digests.len() == rows.provenance_sources@.len());
    assert forall|i: int| 0 <= i < stored.sources@.len() implies faulty(
        #[trigger] stored.sources@[i],
    ) is None by {
        assert(strings[i] == stored.sources@[i]@);
        assert(digests[i] == rows.provenance_sources@[i]@);
    }
}

/// An atom is immutable: where other bytes stand under its identity, storing it conflicts.
pub proof fn law_stored_body_cannot_be_replaced(
    atom: AtomRecord,
    projected: Result<ProjectedProvenance, String>,
    policy: Policy,
    existing: ExistingAtom,
    cohort_retired: bool,
)
    requires
        atom_fault(atom, projected, policy) is None,
        optional_bytes(existing.canonical_body) != Some(atom.canonical_body@),
    ensures
        insertion_fault(atom, projected, policy, Some(existing), cohort_retired) == Some(
            Fault::ImmutableConflict("atom "@ + hex_text(atom.atom_id@)),
        ),
{
}

/// No short-term atom joins a cohort that was retired.
pub proof fn law_retired_cohort_takes_no_atoms(
    atom: AtomRecord,
    projected: Result<ProjectedProvenance, String>,
    policy: Policy,
)
    requires
        atom.retention_tier@ == "stm"@,
    ensures
        insertion_fault(atom, projected, policy, None, true) is Some,
{
}

/// What storing a batch of atoms reports.
#[derive(Clone, Copy, Debug, PartialEq, Eq, Structural)]
pub struct AtomBatchInsertOutcome {
    pub requested: usize,
    pub inserted: usize,
    pub already_present: usize,
}

/// An atom of a batch.
#[derive(Clone, Debug)]
pub struct BatchAtom {
    pub atom: CoreAtom,
    pub state: AtomState,
}

/// Whether an atom of a batch has no links.
pub open spec fn is_unlinked(entry: BatchAtom) -> bool {
    entry.atom.body.artifacts@.len() == 0 && entry.atom.body.relations@.len() == 0
}

/// The fault of a batch that is too large or has links.
pub open spec fn batch_fault(atoms: Seq<BatchAtom>) -> Option<Fault> {
    if atoms.len() > MAX_ATOM_INSERT_BATCH {
        Some(
            Fault::InvalidInput(
                "atom batch contains "@ + decimal(atoms.len()) + "; maximum is "@ + decimal(
                    MAX_ATOM_INSERT_BATCH as nat,
                ),
            ),
        )
    } else {
        fault_when(
            exists|i: int| 0 <= i < atoms.len() && !is_unlinked(#[trigger] atoms[i]),
            Fault::InvalidInput("typed batch insertion accepts only unlinked atoms"@),
        )
    }
}

/// Accepts a batch of atoms that is small enough and has no links.
pub fn check_batch(atoms: &Vec<BatchAtom>) -> (verdict: Result<(), StoreError>)
    ensures
        fault_of(verdict) == batch_fault(atoms@),
{
    if atoms.len() > MAX_ATOM_INSERT_BATCH {
        let count = decimal_text(atoms.len() as u64);
        let limit = decimal_text(MAX_ATOM_INSERT_BATCH as u64);
        return Err(
            StoreError::InvalidInput(
                text4("atom batch contains ", count.as_str(), "; maximum is ", limit.as_str()),
            ),
        );
    }
    let mut i: usize = 0;
    while i < atoms.len()
        invariant
            i <= atoms@.len() <= MAX_ATOM_INSERT_BATCH,
            forall|k: int| 0 <= k < i ==> is_unlinked(#[trigger] atoms@[k]),
        decreases atoms@.len() - i,
    {
        if atoms[i].atom.body.artifacts.len() != 0 || atoms[i].atom.body.relations.len() != 0 {
            assert(!is_unlinked(atoms@[i as int]));
            return Err(invalid_input("typed batch insertion accepts only unlinked atoms"));
        }
        i += 1;
    }
    Ok(())
}

/// The fault of a typed atom that has no record or cannot be stored in the given state for the
/// first time.
pub open spec fn new_record_fault(atom: CoreAtom, state: AtomState, policy: Policy) -> Option<
    Fault,
> {
    either_fault(
        initial_state_fault(
            atom.body.payload.kind(),
            atom.body.interval.recorded_at_us,
            state@,
            policy.stm_horizon_us,
        ),
        record_fault(atom),
    )
}

/// Writes the record of a typed atom that is to be stored for the first time.
pub fn new_record(atom: &CoreAtom, state: &AtomState, policy: &Policy) -> (record: Result<
    AtomRecord,
    StoreError,
>)
    ensures
        fault_of(record) == new_record_fault(*atom, *state, *policy),
        record matches Ok(record) ==> is_record_of(record, *atom, *state),
{
    validate_initial_atom_state(
        &atom.body.payload,
        atom.body.interval.recorded_at_us,
        state,
        policy.stm_horizon_us,
    )?;
    AtomRecord::from_core(atom, state)
}

/// How many of a list of flags are set.
pub open spec fn set_count(flags: Seq<bool>) -> nat
    decreases flags.len(),
{
    if flags.len() == 0 {
        0
    } else {
        set_count(flags.drop_last()) + (if flags.last() {
            1nat
        } else {
            0
        })
    }
}

/// Reports a batch: each atom was either inserted or present already.
pub fn batch_outcome(inserted: &Vec<bool>) -> (outcome: AtomBatchInsertOutcome)
    ensures
        outcome.requested == inserted@.len(),
        outcome.inserted == set_count(inserted@),
        outcome.requested == outcome.inserted + outcome.already_present,
{
    let mut count: usize = 0;
    let mut i: usize = 0;
    assert(inserted@.subrange(0, 0) =~= Seq::<bool>::empty());
    while i < inserted.len()
        invariant
            i <= inserted@.len(),
            count <= i,
            count == set_count(inserted@.subrange(0, i as int)),
        decreases inserted@.len() - i,
    {
        proof {
            let longer = inserted@.subrange(0, i + 1);
            assert(longer.drop_last() =~= inserted@.subrange(0, i as int));
            assert(longer.last() == inserted@[i as int]);
        }
        if inserted[i] {
            count += 1;
        }
        i += 1;
    }
    assert(inserted@.subrange(0, i as int) =~= inserted@);
    AtomBatchInsertOutcome {
        requested: inserted.len(),
        inserted: count,
        already_present: inserted.len() - count,
    }
}

/// An atom is stored for the first time exactly where its record is admitted, its numbers fit their
/// columns and, where it is short-term, it has an expiry in a cohort that was not retired.
pub proof fn law_new_atom_is_stored_exactly_into_an_open_cohort(
    atom: AtomRecord,
    projected: Result<ProjectedProvenance, String>,
    policy: Policy,
    cohort_retired: bool,
)
    requires
        atom.provenance_source_digests@.len() <= i64::MAX,
    ensures
        insertion_fault(atom, projected, policy, None, cohort_retired) is None <==> {
            &&& atom_fault(atom, projected, policy) is None
            &&& atom.recorded_at_us <= i64::MAX
            &&& (atom.expires_at_us matches Some(expiry) ==> expiry <= i64::MAX)
            &&& (atom.retention_tier@ == "stm"@ ==> atom.expires_at_us is Some && !cohort_retired)
        },
{
}

/// An atom that stands already is accepted again exactly where body, digest and the whole
/// provenance are the same, whatever became of its cohort.
pub proof fn law_standing_atom_is_accepted_exactly_unchanged(
    atom: AtomRecord,
    projected: Result<ProjectedProvenance, String>,
    policy: Policy,
    existing: ExistingAtom,
    cohort_retired: bool,
)
    ensures
        insertion_fault(atom, projected, policy, Some(existing), cohort_retired) is None <==> {
            &&& atom_fault(atom, projected, policy) is None
            &&& existing.body_digest@ == atom.body_digest@
            &&& existing.canonical_body matches Some(body)
            &&& body@ == atom.canonical_body@
            &&& existing.provenance matches Some(stored)
            &&& stored.producer@ == atom.provenance_producer@
            &&& stored.policy_digest@ == atom.provenance_policy_digest@
            &&& stored.canonical@ == atom.canonical_provenance@
            &&& stored.json@ == atom.provenance_json_projection@
            &&& stored.provenance_digest@ == atom.provenance_digest@
            &&& stored.sources@.len() == atom.provenance_source_digests@.len()
            &&& forall|i: int|
                0 <= i < stored.sources@.len() ==> (#[trigger] stored.sources@[i])@
                    == atom.provenance_source_digests@[i]@
        },
{
    if existing.provenance is Some {
        let stored = existing.provenance->0;
        let faulty = |digest: Vec<u8>| digest_fault(digest@, "provenance source_event_digest"@);
        lemma_no_first_fault(stored.sources@, faulty);
        let strings = crate::bags::byte_strings(stored.sources@);
        let digests = digest_seq(atom.provenance_source_digests@);
        assert(strings.len() == stored.sources@.len());
        assert(digests.len() == atom.provenance_source_digests@.len());
        if strings == digests {
            assert forall|i: int| 0 <= i < stored.sources@.len() implies (
            #[trigger] stored.sources@[i])@ == atom.provenance_source_digests@[i]@ by {
                assert(strings[i] == stored.sources@[i]@);
                assert(digests[i] == atom.provenance_source_digests@[i]@);
            }
        }
        if stored.sources@.len() == atom.provenance_source_digests@.len() && forall|i: int|
            0 <= i < stored.sources@.len() ==> (#[trigger] stored.sources@[i])@
                == atom.provenance_source_digests@[i]@ {
            assert forall|i: int| 0 <= i < strings.len() implies strings[i] == digests[i] by {
                assert(strings[i] == stored.sources@[i]@);
                assert(digests[i] == atom.provenance_source_digests@[i]@);
            }
            assert(strings =~= digests);
            assert forall|i: int| 0 <= i < stored.sources@.len() implies faulty(
                #[trigger] stored.sources@[i],
            ) is None by {}
        }
    }
}

/// The rows that are written for an atom hold its record: the body and its length, the scope, the
/// times, the state and the provenance, and a full-text row under the hexadecimal name of the atom.
pub proof fn law_written_rows_hold_the_record(rows: AtomRows, atom: AtomRecord)
    requires
        is_rows_of(rows, atom),
    ensures
        rows.atom_id@ == atom.atom_id@,
        rows.body_digest@ == atom.body_digest@,
        rows.canonical_body@ == atom.canonical_body@,
        rows.body_bytes == rows.canonical_body@.len(),
        rows.json_projection@ == atom.json_projection@,
        rows.atom_kind@ == atom.atom_kind@,
        rows.memory_space_id@ == atom.memory_space_id@,
        optional_text(rows.repository_id) == optional_text(atom.repository_id),
        optional_text(rows.task_id) == optional_text(atom.task_id),
        optional_text(rows.agent_id) == optional_text(atom.agent_id),
        optional_text(rows.session_id) == optional_text(atom.session_id),
        rows.recorded_at_us == atom.recorded_at_us,
        rows.retention_permission@ == atom.retention_permission@,
        rows.retention_tier@ == atom.retention_tier@,
        rows.content_status@ == atom.content_status@,
        rows.expires_at_us is Some <==> atom.expires_at_us is Some,
        rows.expires_at_us matches Some(stored) ==> stored == atom.expires_at_us->0,
        rows.provenance_digest@ == atom.provenance_digest@,
        rows.provenance_producer@ == atom.provenance_producer@,
        rows.provenance_policy_digest@ == atom.provenance_policy_digest@,
        rows.canonical_provenance@ == atom.canonical_provenance@,
        rows.provenance_json_projection@ == atom.provenance_json_projection@,
        rows.provenance_sources@ == atom.provenance_source_digests@,
        rows.searchable_text@ == atom.searchable_text@,
        rows.topic_keys_json@ == atom.topic_keys_json@,
        rows.entity_ids_json@ == atom.entity_ids_json@,
        optional_text(rows.outcome_class) == optional_text(atom.outcome_class),
        rows.search_atom_id@ == hex_text(atom.atom_id@),
{
}

/// A batch is stored exactly where it holds no more than 1000 atoms and none of them has artifacts
/// or relations.
pub proof fn law_batch_is_taken_exactly_without_links(atoms: Seq<BatchAtom>)
    ensures
        batch_fault(atoms) is None <==> {
            &&& atoms.len() <= 1000
            &&& forall|i: int|
                0 <= i < atoms.len() ==> (#[trigger] atoms[i]).atom.body.artifacts@.len() == 0
                    && atoms[i].atom.body.relations@.len() == 0
        },
{
    if atoms.len() <= 1000 && forall|i: int|
        0 <= i < atoms.len() ==> (#[trigger] atoms[i]).atom.body.artifacts@.len() == 0
            && atoms[i].atom.body.relations@.len() == 0 {
        assert forall|i: int| 0 <= i < atoms.len() implies is_unlinked(#[trigger] atoms[i]) by {}
    }
    if batch_fault(atoms) is None {
        assert forall|i: int| 0 <= i < atoms.len() implies (
        #[trigger] atoms[i]).atom.body.artifacts@.len() == 0 && atoms[i].atom.body.relations@.len()
            == 0 by {
            assert(is_unlinked(atoms[i]));
        }
    }
}

/// The report of a batch counts: one more atom is one more inserted exactly where it was inserted.
pub proof fn law_batch_report_counts(flags: Seq<bool>, inserted: bool)
    ensures
        set_count(Seq::<bool>::empty()) == 0,
        inserted ==> set_count(flags.push(inserted)) == set_count(flags) + 1,
        !inserted ==> set_count(flags.push(inserted)) == set_count(flags),
{
    assert(flags.push(inserted).drop_last() =~= flags);
}

/// A typed atom is stored for the first time only in a fresh state and only where the memory core
/// accepts it.
pub proof fn law_new_record_is_fresh_and_accepted(
    atom: CoreAtom,
    state: AtomState,
    policy: Policy,
)
    ensures
        new_record_fault(atom, state, policy) is None ==> {
            &&& atom.authority.rejection is None
            &&& state@.feedback_positive == 0
            &&& state@.feedback_negative == 0
            &&& state@.retrieval_count == 0
            &&& state@.retirement_run_id is None
            &&& state@.superseded_by is None
        },
{
}

} // verus!
