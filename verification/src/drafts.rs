//! Episode drafts: the events that are appended to one, and the atoms that seal it.

use vstd::prelude::*;
use vstd::string::*;

use crate::body::{continues_closed, continues_is_closed};
use crate::bytemap::ByteMap;
use crate::digest::{sha256, sha256_of};
use crate::error::{
    Fault, StoreError, either_fault, fault_of, fault_when, integrity, invalid_input,
};
use crate::fault_points::RepositoryFaultPointV1;
use crate::folding::{
    first_fault, first_indexed, lemma_first_fault_step, lemma_first_fault_stops,
    lemma_first_indexed_stops, lemma_no_first_indexed,
};
use crate::insertion::BatchAtom;
use crate::lifecycle::{initial_state_fault, validate_initial_atom_state};
use crate::model::{CoreAtom, EpisodePayload, Payload, Scope, same_state};
use crate::records::{AtomRecord, is_record_of, record_fault};
use crate::stored::{
    digest_array, digest_fault, optional_digest, same_digest, same_optional_digest, sqlite_integer,
    sqlite_integer_fault, unsigned_fault, unsigned_integer,
};
use crate::text::{
    copy_bytes, decimal, decimal_text, holds_text, optional_text, same_optional_text, same_text,
    text3, text4,
};

verus! {

/// An event of an episode draft.
#[derive(Clone, Debug)]
pub struct DraftEvent {
    pub sequence: u64,
    pub event_at_us: u64,
    pub event_kind: String,
    pub canonical_payload: Vec<u8>,
    pub payload_digest: [u8; 32],
}

/// The mathematical content of a [`DraftEvent`].
#[verifier::ext_equal]
pub struct EventView {
    pub sequence: u64,
    pub event_at_us: u64,
    pub event_kind: Seq<char>,
    pub canonical_payload: Seq<u8>,
    pub payload_digest: Seq<u8>,
}

impl View for DraftEvent {
    type V = EventView;

    open spec fn view(&self) -> EventView {
        EventView {
            sequence: self.sequence,
            event_at_us: self.event_at_us,
            event_kind: self.event_kind@,
            canonical_payload: self.canonical_payload@,
            payload_digest: self.payload_digest@,
        }
    }
}

/// The row of an event.
#[derive(Clone, Debug)]
pub struct EventRow {
    pub sequence: i64,
    pub event_at_us: i64,
    pub event_kind: String,
    pub canonical_payload: Vec<u8>,
    pub payload_digest: Vec<u8>,
}

/// The mathematical content of a list of events.
pub open spec fn event_list(events: Seq<DraftEvent>) -> Seq<EventView> {
    events.map_values(|event: DraftEvent| event@)
}

/// The fault of creating a draft.
pub open spec fn draft_creation_fault(draft_id: Seq<char>, created_at_us: u64, inserted: nat) -> Option<
    Fault,
> {
    either_fault(
        sqlite_integer_fault(created_at_us, "created_at_us"@),
        fault_when(
            inserted == 0,
            Fault::DraftConflict("draft "@ + draft_id + " already exists"@),
        ),
    )
}

/// Confirms that a draft was created: a row was inserted for it.
pub fn create_draft(draft_id: &str, created_at_us: u64, inserted: usize) -> (verdict: Result<
    (),
    StoreError,
>)
    ensures
        fault_of(verdict) == draft_creation_fault(draft_id@, created_at_us, inserted as nat),
{
    sqlite_integer(created_at_us, "created_at_us")?;
    if inserted == 0 {
        return Err(StoreError::DraftConflict(text3("draft ", draft_id, " already exists")));
    }
    Ok(())
}

/// The fault of an event that cannot be appended to any draft.
pub open spec fn event_fault(event: EventView) -> Option<Fault> {
    either_fault(
        sqlite_integer_fault(event.sequence, "sequence"@),
        either_fault(
            sqlite_integer_fault(event.event_at_us, "event_at_us"@),
            fault_when(
                sha256_of(event.canonical_payload) != event.payload_digest,
                Fault::Integrity("episode event payload digest mismatch"@),
            ),
        ),
    )
}

/// Whether a row is that of an event.
pub open spec fn is_event_row(row: EventRow, event: EventView) -> bool {
    &&& row.sequence == event.sequence
    &&& row.event_at_us == event.event_at_us
    &&& row.event_kind@ == event.event_kind
    &&& row.canonical_payload@ == event.canonical_payload
    &&& row.payload_digest@ == event.payload_digest
}

/// Writes the row of an event whose payload has the digest that the event says.
pub fn append_event(event: &DraftEvent) -> (row: Result<EventRow, StoreError>)
    ensures
        fault_of(row) == event_fault(event@),
        row matches Ok(row) ==> is_event_row(row, event@),
{
    let sequence: i64 = sqlite_integer(event.sequence, "sequence")?;
    let event_at_us: i64 = sqlite_integer(event.event_at_us, "event_at_us")?;
    let computed = sha256(event.canonical_payload.as_slice());
    if !same_digest(&computed, &event.payload_digest) {
        return Err(integrity("episode event payload digest mismatch"));
    }
    Ok(
        EventRow {
            sequence,
            event_at_us,
            event_kind: event.event_kind.clone(),
            canonical_payload: copy_bytes(event.canonical_payload.as_slice()),
            payload_digest: copy_bytes(event.payload_digest.as_slice()),
        },
    )
}

/// Confirms that an event took its place in a draft: exactly one open draft stood at its sequence
/// number.
pub fn claim_sequence(draft_id: &str, sequence: u64, changed: usize) -> (verdict: Result<
    (),
    StoreError,
>)
    ensures
        fault_of(verdict) == claim_fault(draft_id@, sequence, changed as nat),
{
    if changed != 1 {
        let number = decimal_text(sequence);
        return Err(
            StoreError::DraftConflict(
                text4("draft ", draft_id, " is not open at sequence ", number.as_str()),
            ),
        );
    }
    Ok(())
}

/// The fault of the row of an event.
pub open spec fn event_row_fault(row: EventRow) -> Option<Fault> {
    either_fault(
        unsigned_fault(row.sequence, "sequence"@),
        either_fault(
            unsigned_fault(row.event_at_us, "event_at_us"@),
            digest_fault(row.payload_digest@, "payload_digest"@),
        ),
    )
}

/// The event that a row holds.
pub open spec fn row_event(row: EventRow) -> EventView {
    EventView {
        sequence: row.sequence as u64,
        event_at_us: row.event_at_us as u64,
        event_kind: row.event_kind@,
        canonical_payload: row.canonical_payload@,
        payload_digest: row.payload_digest@,
    }
}

/// Reads the event that a row holds.
pub fn read_event(row: &EventRow) -> (event: Result<DraftEvent, StoreError>)
    ensures
        fault_of(event) == event_row_fault(*row),
        event matches Ok(event) ==> event@ == row_event(*row),
{
    let sequence: u64 = unsigned_integer(row.sequence, "sequence")?;
    let event_at_us: u64 = unsigned_integer(row.event_at_us, "event_at_us")?;
    let payload_digest = digest_array(row.payload_digest.as_slice(), "payload_digest")?;
    Ok(
        DraftEvent {
            sequence,
            event_at_us,
            event_kind: row.event_kind.clone(),
            canonical_payload: copy_bytes(row.canonical_payload.as_slice()),
            payload_digest,
        },
    )
}

/// Reads the events of a draft.
#[verifier::loop_isolation(false)]
pub fn load_events(rows: &Vec<EventRow>) -> (events: Result<Vec<DraftEvent>, StoreError>)
    ensures
        fault_of(events) == first_fault(rows@, |row: EventRow| event_row_fault(row)),
        events matches Ok(events) ==> event_list(events@) == rows@.map_values(
            |row: EventRow| row_event(row),
        ),
{
    let ghost faulty = |row: EventRow| event_row_fault(row);
    let mut events: Vec<DraftEvent> = Vec::new();
    let mut i: usize = 0;
    assert(rows@.subrange(0, 0) =~= Seq::<EventRow>::empty());
    while i < rows.len()
        invariant
            i <= rows@.len(),
            first_fault(rows@.subrange(0, i as int), faulty) is None,
            events@.len() == i,
            forall|k: int| 0 <= k < i ==> (#[trigger] events@[k])@ == row_event(rows@[k]),
        decreases rows@.len() - i,
    {
        proof {
            lemma_first_fault_step(rows@, faulty, i as int);
        }
        match read_event(&rows[i]) {
            Ok(event) => {
                events.push(event);
            },
            Err(error) => {
                proof {
                    lemma_first_fault_stops(rows@, faulty, i + 1);
                }
                return Err(error);
            },
        }
        i += 1;
    }
    assert(rows@.subrange(0, i as int) =~= rows@);
    assert(event_list(events@) =~= rows@.map_values(|row: EventRow| row_event(row)));
    Ok(events)
}

/// Loading gives back what was appended: the row of an event reads as the event.
pub proof fn law_loading_gives_back_an_appended_event(event: EventView, row: EventRow)
    requires
        event.payload_digest.len() == 32,
        event_fault(event) is None,
        is_event_row(row, event),
    ensures
        event_row_fault(row) is None,
        row_event(row) == event,
{
}

// ---------------------------------------------------------------------------------------------
// Sealing

/// The scope and the status of a draft.
#[derive(Clone, Debug)]
pub struct DraftScope {
    pub memory_space_id: String,
    pub repository_id: Option<String>,
    pub task_id: Option<String>,
    pub agent_id: Option<String>,
    pub session_id: String,
    pub status: String,
}

/// Whether a draft is open and has the scope of an atom.
pub open spec fn is_open_for(scope: DraftScope, atom: AtomRecord) -> bool {
    &&& scope.status@ == "open"@
    &&& scope.memory_space_id@ == atom.memory_space_id@
    &&& optional_text(scope.repository_id) == optional_text(atom.repository_id)
    &&& optional_text(scope.task_id) == optional_text(atom.task_id)
    &&& optional_text(scope.agent_id) == optional_text(atom.agent_id)
    &&& Some(scope.session_id@) == optional_text(atom.session_id)
}

fn open_for(scope: &DraftScope, atom: &AtomRecord) -> (open: bool)
    ensures
        open == is_open_for(*scope, *atom),
{
    same_text(scope.status.as_str(), "open") && same_text(
        scope.memory_space_id.as_str(),
        atom.memory_space_id.as_str(),
    ) && same_optional_text(&scope.repository_id, &atom.repository_id) && same_optional_text(
        &scope.task_id,
        &atom.task_id,
    ) && same_optional_text(&scope.agent_id, &atom.agent_id) && holds_text(
        &atom.session_id,
        scope.session_id.as_str(),
    )
}

/// The fault of sealing a draft with an atom.
pub open spec fn seal_fault(draft_id: Seq<char>, scope: Option<DraftScope>, atom: AtomRecord) -> Option<
    Fault,
> {
    match scope {
        None => Some(Fault::DraftConflict("unknown draft "@ + draft_id)),
        Some(scope) => fault_when(
            !is_open_for(scope, atom),
            Fault::DraftConflict(
                "draft "@ + draft_id + " status or scope does not match sealed atom"@,
            ),
        ),
    }
}

/// Accepts an open draft with the scope of the atom that seals it.
pub fn check_seal(draft_id: &str, scope: &Option<DraftScope>, atom: &AtomRecord) -> (verdict:
    Result<(), StoreError>)
    ensures
        fault_of(verdict) == seal_fault(draft_id@, *scope, *atom),
{
    match scope {
        None => Err(StoreError::DraftConflict(crate::text::text2("unknown draft ", draft_id))),
        Some(scope) => {
            if !open_for(scope, atom) {
                return Err(
                    StoreError::DraftConflict(
                        text3("draft ", draft_id, " status or scope does not match sealed atom"),
                    ),
                );
            }
            Ok(())
        },
    }
}

/// The fault of sealing a draft with a chain of atoms.
pub open spec fn chain_seal_fault(
    draft_id: Seq<char>,
    scope: Option<DraftScope>,
    atoms: Seq<AtomRecord>,
) -> Option<Fault> {
    match scope {
        None => Some(Fault::DraftConflict("unknown draft "@ + draft_id)),
        Some(scope) => fault_when(
            exists|i: int| 0 <= i < atoms.len() && !is_open_for(scope, #[trigger] atoms[i]),
            Fault::DraftConflict(
                "draft "@ + draft_id
                    + " status or scope does not match every episode-chain atom"@,
            ),
        ),
    }
}

/// Accepts an open draft with the scope of every atom of the chain that seals it.
#[verifier::loop_isolation(false)]
pub fn check_chain_seal(draft_id: &str, scope: &Option<DraftScope>, atoms: &Vec<AtomRecord>) -> (verdict:
    Result<(), StoreError>)
    ensures
        fault_of(verdict) == chain_seal_fault(draft_id@, *scope, atoms@),
{
    match scope {
        None => Err(StoreError::DraftConflict(crate::text::text2("unknown draft ", draft_id))),
        Some(scope) => {
            let mut i: usize = 0;
            while i < atoms.len()
                invariant
                    i <= atoms@.len(),
                    forall|k: int| 0 <= k < i ==> is_open_for(*scope, #[trigger] atoms@[k]),
                decreases atoms@.len() - i,
            {
                if !open_for(scope, &atoms[i]) {
                    assert(!is_open_for(*scope, atoms@[i as int]));
                    return Err(
                        StoreError::DraftConflict(
                            text3(
                                "draft ",
                                draft_id,
                                " status or scope does not match every episode-chain atom",
                            ),
                        ),
                    );
                }
                i += 1;
            }
            Ok(())
        },
    }
}

/// Names the atom that a sealed draft points at: the newest of the atoms that seal it.
pub fn sealing_atom(records: &Vec<AtomRecord>) -> (id: Result<[u8; 32], StoreError>)
    ensures
        fault_of(id) == sealing_fault(records@),
        id matches Ok(id) ==> id@ == records@.last().atom_id@,
{
    if records.len() == 0 {
        return Err(invalid_input("episode chain must not be empty"));
    }
    Ok(records[records.len() - 1].atom_id)
}

/// What sealing leaves in the row of a draft.
#[derive(Clone, Debug)]
pub struct SealedDraft {
    pub status: String,
    pub sealed_atom_id: [u8; 32],
}

/// Writes what sealing leaves in the row of a draft: it is sealed, with the newest of the atoms
/// that seal it.
pub fn seal_draft(records: &Vec<AtomRecord>) -> (draft: Result<SealedDraft, StoreError>)
    ensures
        fault_of(draft) == sealing_fault(records@),
        draft matches Ok(draft) ==> draft.status@ == "sealed"@ && draft.sealed_atom_id@
            == records@.last().atom_id@,
{
    let sealed_atom_id = sealing_atom(records)?;
    Ok(SealedDraft { status: "sealed".to_owned(), sealed_atom_id })
}

/// Confirms that a draft was sealed: exactly one open draft changed.
pub fn confirm_sealed(draft_id: &str, changed: usize) -> (verdict: Result<(), StoreError>)
    ensures
        fault_of(verdict) == sealed_fault(draft_id@, changed as nat),
{
    if changed != 1 {
        return Err(
            StoreError::DraftConflict(text3("draft ", draft_id, " was concurrently sealed")),
        );
    }
    Ok(())
}

// ---------------------------------------------------------------------------------------------
// Steps

/// A step of the transaction that appends an event to a draft or seals one.
#[derive(Clone, Copy, Debug, PartialEq, Eq, Structural)]
pub enum DraftStep {
    ClaimSequence,
    InsertEvent,
    InsertAtoms,
    MarkSealed,
    Observe(RepositoryFaultPointV1),
    Commit,
}

/// The steps of appending an event: its place is claimed before its row is written.
pub open spec fn append_order() -> Seq<DraftStep> {
    seq![
        DraftStep::ClaimSequence,
        DraftStep::Observe(RepositoryFaultPointV1::DraftAppendAfterSequenceClaim),
        DraftStep::InsertEvent,
        DraftStep::Observe(RepositoryFaultPointV1::DraftAppendAfterEventInsert),
        DraftStep::Commit,
    ]
}

/// The steps of sealing a draft: its atoms are written before it is marked.
pub open spec fn seal_order() -> Seq<DraftStep> {
    seq![
        DraftStep::InsertAtoms,
        DraftStep::Observe(RepositoryFaultPointV1::DraftSealAfterAtomInsert),
        DraftStep::MarkSealed,
        DraftStep::Observe(RepositoryFaultPointV1::DraftSealAfterStatusUpdate),
        DraftStep::Commit,
    ]
}

/// Lists the steps of appending an event, in order.
pub fn append_steps() -> (steps: Vec<DraftStep>)
    ensures
        steps@ == append_order(),
{
    let mut steps: Vec<DraftStep> = Vec::new();
    steps.push(DraftStep::ClaimSequence);
    steps.push(DraftStep::Observe(RepositoryFaultPointV1::DraftAppendAfterSequenceClaim));
    steps.push(DraftStep::InsertEvent);
    steps.push(DraftStep::Observe(RepositoryFaultPointV1::DraftAppendAfterEventInsert));
    steps.push(DraftStep::Commit);
    assert(steps@ =~= append_order());
    steps
}

/// Lists the steps of sealing a draft, in order.
pub fn seal_steps() -> (steps: Vec<DraftStep>)
    ensures
        steps@ == seal_order(),
{
    let mut steps: Vec<DraftStep> = Vec::new();
    steps.push(DraftStep::InsertAtoms);
    steps.push(DraftStep::Observe(RepositoryFaultPointV1::DraftSealAfterAtomInsert));
    steps.push(DraftStep::MarkSealed);
    steps.push(DraftStep::Observe(RepositoryFaultPointV1::DraftSealAfterStatusUpdate));
    steps.push(DraftStep::Commit);
    assert(steps@ =~= seal_order());
    steps
}

/// Every point of a draft comes exactly once in appending or in sealing, in the order of all
/// points, right after the write that it is named after and before the commit, which comes last
/// and once.
pub proof fn law_draft_points_come_in_order(point: RepositoryFaultPointV1, i: int)
    requires
        0 <= i < 5,
    ensures
        append_order()[i] == DraftStep::Observe(point) <==> {
            &&& point.place() < 2
            &&& i == 2 * point.place() + 1
        },
        seal_order()[i] == DraftStep::Observe(point) <==> {
            &&& 2 <= point.place() < 4
            &&& i == 2 * (point.place() - 2) + 1
        },
        append_order()[i] == DraftStep::Commit <==> i == 4,
        seal_order()[i] == DraftStep::Commit <==> i == 4,
        append_order().len() == 5,
        seal_order().len() == 5,
{
}

// ---------------------------------------------------------------------------------------------
// Chains

/// Whether two scopes are equal.
pub open spec fn is_same_scope(a: Scope, b: Scope) -> bool {
    &&& a.memory_space_id@ == b.memory_space_id@
    &&& optional_text(a.repository_id) == optional_text(b.repository_id)
    &&& optional_text(a.task_id) == optional_text(b.task_id)
    &&& optional_text(a.agent_id) == optional_text(b.agent_id)
    &&& a.session_id@ == b.session_id@
}

fn same_scope(a: &Scope, b: &Scope) -> (same: bool)
    ensures
        same == is_same_scope(*a, *b),
{
    same_text(a.memory_space_id.as_str(), b.memory_space_id.as_str()) && same_optional_text(
        &a.repository_id,
        &b.repository_id,
    ) && same_optional_text(&a.task_id, &b.task_id) && same_optional_text(&a.agent_id, &b.agent_id)
        && same_text(a.session_id.as_str(), b.session_id.as_str())
}

/// The last event of an atom of a chain.
pub open spec fn sequence_end(entry: BatchAtom) -> u64 {
    match entry.atom.body.payload {
        Payload::Episode(payload) => payload.event_sequence_end,
        Payload::Semantic(_) => 0,
    }
}

/// The fault of an episode that does not go on where the atom before it ends.
pub open spec fn continuation_fault(previous: BatchAtom, payload: EpisodePayload) -> Option<Fault> {
    if sequence_end(previous) == u64::MAX {
        Some(Fault::InvalidInput("episode-chain sequence overflows u64"@))
    } else {
        fault_when(
            optional_digest(payload.continues) != Some(previous.atom.authority.atom_id@)
                || payload.event_sequence_start != sequence_end(previous) + 1,
            Fault::InvalidInput(
                "episode-chain members are not a contiguous newest-to-previous sequence"@,
            ),
        )
    }
}

/// The fault of the atom at place `i` of a chain.
pub open spec fn member_fault(atoms: Seq<BatchAtom>, stm_horizon_us: u64, i: int) -> Option<Fault> {
    let body = atoms[i].atom.body;
    let first = atoms[0];
    either_fault(
        initial_state_fault(
            body.payload.kind(),
            body.interval.recorded_at_us,
            atoms[i].state@,
            stm_horizon_us,
        ),
        if !is_same_scope(body.scope, first.atom.body.scope) || body.interval.recorded_at_us
            != first.atom.body.interval.recorded_at_us || atoms[i].state@ != first.state@ {
            Some(
                Fault::InvalidInput(
                    "episode-chain scope, recorded time, and initial state must be identical"@,
                ),
            )
        } else {
            match body.payload {
                Payload::Semantic(_) => Some(
                    Fault::InvalidInput("episode chain contains a semantic atom"@),
                ),
                Payload::Episode(payload) => if !continues_closed(body.relations@, payload) {
                    Some(
                        Fault::InvalidInput(
                            "episode payload and declared continues relation do not match exactly"@,
                        ),
                    )
                } else {
                    either_fault(
                        if i > 0 {
                            continuation_fault(atoms[i - 1], payload)
                        } else {
                            None
                        },
                        fault_when(
                            payload.event_sequence_start > payload.event_sequence_end,
                            Fault::InvalidInput(
                                "episode-chain member has an inverted event sequence"@,
                            ),
                        ),
                    )
                },
            }
        },
    )
}

/// The fault of a chain of atoms.
pub open spec fn chain_fault(atoms: Seq<BatchAtom>, stm_horizon_us: u64) -> Option<Fault> {
    if atoms.len() == 0 {
        Some(Fault::InvalidInput("episode chain must not be empty"@))
    } else {
        first_indexed(atoms.len(), |i: int| member_fault(atoms, stm_horizon_us, i))
    }
}

fn previous_end(entry: &BatchAtom) -> (end: u64)
    ensures
        end == sequence_end(*entry),
{
    match &entry.atom.body.payload {
        Payload::Episode(payload) => payload.event_sequence_end,
        Payload::Semantic(_) => 0,
    }
}

fn check_continuation(previous: &BatchAtom, payload: &EpisodePayload) -> (verdict: Result<
    (),
    StoreError,
>)
    ensures
        fault_of(verdict) == continuation_fault(*previous, *payload),
{
    let expected_start: u64 = match previous_end(previous).checked_add(1) {
        Some(start) => start,
        None => return Err(invalid_input("episode-chain sequence overflows u64")),
    };
    let expected: Option<[u8; 32]> = Some(previous.atom.authority.atom_id);
    if !same_optional_digest(&payload.continues, &expected) || payload.event_sequence_start
        != expected_start {
        return Err(
            invalid_input("episode-chain members are not a contiguous newest-to-previous sequence"),
        );
    }
    Ok(())
}

fn check_member(atoms: &Vec<BatchAtom>, stm_horizon_us: u64, i: usize) -> (verdict: Result<
    (),
    StoreError,
>)
    requires
        i < atoms@.len(),
    ensures
        fault_of(verdict) == member_fault(atoms@, stm_horizon_us, i as int),
{
    let entry = &atoms[i];
    let first = &atoms[0];
    let body = &entry.atom.body;
    validate_initial_atom_state(
        &body.payload,
        body.interval.recorded_at_us,
        &entry.state,
        stm_horizon_us,
    )?;
    if !same_scope(&body.scope, &first.atom.body.scope) || body.interval.recorded_at_us
        != first.atom.body.interval.recorded_at_us || !same_state(&entry.state, &first.state) {
        return Err(
            invalid_input("episode-chain scope, recorded time, and initial state must be identical"),
        );
    }
    match &body.payload {
        Payload::Semantic(_) => Err(invalid_input("episode chain contains a semantic atom")),
        Payload::Episode(payload) => {
            if !continues_is_closed(&body.relations, payload) {
                return Err(
                    invalid_input(
                        "episode payload and declared continues relation do not match exactly",
                    ),
                );
            }
            if i > 0 {
                check_continuation(&atoms[i - 1], payload)?;
            }
            if payload.event_sequence_start > payload.event_sequence_end {
                return Err(invalid_input("episode-chain member has an inverted event sequence"));
            }
            Ok(())
        },
    }
}

/// Accepts a chain of episodes of one scope, time and state, each continuing the one before it
/// with the event after its last.
#[verifier::loop_isolation(false)]
pub fn validate_core_episode_chain(atoms: &Vec<BatchAtom>, stm_horizon_us: u64) -> (verdict: Result<
    (),
    StoreError,
>)
    ensures
        fault_of(verdict) == chain_fault(atoms@, stm_horizon_us),
{
    if atoms.len() == 0 {
        return Err(invalid_input("episode chain must not be empty"));
    }
    let ghost faulty = |i: int| member_fault(atoms@, stm_horizon_us, i);
    let mut i: usize = 0;
    while i < atoms.len()
        invariant
            i <= atoms@.len(),
            first_indexed(i as nat, faulty) is None,
        decreases atoms@.len() - i,
    {
        match check_member(atoms, stm_horizon_us, i) {
            Ok(_) => {},
            Err(error) => {
                proof {
                    lemma_first_indexed_stops(atoms@.len(), faulty, (i + 1) as nat);
                }
                return Err(error);
            },
        }
        i += 1;
    }
    Ok(())
}

/// The memory spaces by atom.
pub open spec fn space_views(spaces: ByteMap<String>) -> Map<Seq<u8>, Seq<char>> {
    spaces@.map_values(|space: String| space@)
}

/// The fault of an atom of a chain without a record, or with the identity of an earlier one.
pub open spec fn chain_record_fault(
    atom: CoreAtom,
    spaces: Map<Seq<u8>, Seq<char>>,
) -> Option<Fault> {
    either_fault(
        record_fault(atom),
        fault_when(
            spaces.contains_key(atom.authority.atom_id@),
            Fault::InvalidInput("episode chain contains a duplicate atom ID"@),
        ),
    )
}

/// Writes the record of an atom of a chain and notes its memory space.
pub fn chain_record(entry: &BatchAtom, spaces: &mut ByteMap<String>) -> (record: Result<
    AtomRecord,
    StoreError,
>)
    ensures
        fault_of(record) == chain_record_fault(entry.atom, space_views(*old(spaces))),
        record matches Ok(record) ==> is_record_of(record, entry.atom, entry.state)
            && space_views(*final(spaces)) == space_views(*old(spaces)).insert(
            entry.atom.authority.atom_id@,
            entry.atom.body.scope.memory_space_id@,
        ),
        record is Err ==> space_views(*final(spaces)) == space_views(*old(spaces)),
{
    let record = AtomRecord::from_core(&entry.atom, &entry.state)?;
    if spaces.contains_key(record.atom_id.as_slice()) {
        return Err(invalid_input("episode chain contains a duplicate atom ID"));
    }
    spaces.insert(copy_bytes(record.atom_id.as_slice()), record.memory_space_id.clone());
    assert(space_views(*spaces) =~= space_views(*old(spaces)).insert(
        entry.atom.authority.atom_id@,
        entry.atom.body.scope.memory_space_id@,
    ));
    Ok(record)
}

/// An accepted chain is contiguous: every atom after the first is an episode of the scope of the
/// first that continues the atom before it, and its events come right after the last event of
/// that atom.
pub proof fn law_accepted_chain_is_contiguous(atoms: Seq<BatchAtom>, stm_horizon_us: u64, i: int)
    requires
        chain_fault(atoms, stm_horizon_us) is None,
        0 < i < atoms.len(),
    ensures
        is_same_scope(atoms[i].atom.body.scope, atoms[0].atom.body.scope),
        atoms[i].atom.body.payload matches Payload::Episode(payload) && {
            &&& optional_digest(payload.continues) == Some(atoms[i - 1].atom.authority.atom_id@)
            &&& payload.event_sequence_start == sequence_end(atoms[i - 1]) + 1
            &&& payload.event_sequence_start <= payload.event_sequence_end
        },
{
    let faulty = |i: int| member_fault(atoms, stm_horizon_us, i);
    lemma_no_first_indexed(atoms.len(), faulty);
    assert(faulty(i) is None);
}

/// The events of an accepted chain stand in order: those of an atom come after those of every
/// earlier atom.
pub proof fn law_accepted_chain_is_ordered(
    atoms: Seq<BatchAtom>,
    stm_horizon_us: u64,
    i: int,
    j: int,
)
    requires
        chain_fault(atoms, stm_horizon_us) is None,
        0 <= i < j < atoms.len(),
    ensures
        atoms[j].atom.body.payload matches Payload::Episode(payload) && sequence_end(atoms[i])
            < payload.event_sequence_start,
    decreases j - i,
{
    law_accepted_chain_is_contiguous(atoms, stm_horizon_us, j);
    if i < j - 1 {
        law_accepted_chain_is_ordered(atoms, stm_horizon_us, i, j - 1);
        law_accepted_chain_is_contiguous(atoms, stm_horizon_us, j - 1);
    }
}

/// A draft that a chain seals points at the newest of its atoms: the last of the chain, whose
/// events come after those of every other.
pub proof fn law_sealed_draft_points_at_the_newest_atom(
    atoms: Seq<BatchAtom>,
    records: Seq<AtomRecord>,
    stm_horizon_us: u64,
    i: int,
)
    requires
        chain_fault(atoms, stm_horizon_us) is None,
        records.len() == atoms.len(),
        forall|k: int|
            0 <= k < atoms.len() ==> is_record_of(
                #[trigger] records[k],
                atoms[k].atom,
                atoms[k].state,
            ),
        0 <= i < atoms.len() - 1,
    ensures
        records.last().atom_id@ == atoms.last().atom.authority.atom_id@,
        atoms.last().atom.body.payload matches Payload::Episode(payload) && sequence_end(atoms[i])
            < payload.event_sequence_start,
{
    assert(is_record_of(records[atoms.len() - 1], atoms.last().atom, atoms.last().state));
    law_accepted_chain_is_ordered(atoms, stm_horizon_us, i, atoms.len() - 1);
}

/// A draft is sealed with an atom exactly where it stands open and all parts of its scope are those
/// of the atom; a part that the draft does not have must be one that the atom does not have.
pub proof fn law_draft_is_sealed_exactly_in_its_own_scope(
    draft_id: Seq<char>,
    scope: DraftScope,
    atom: AtomRecord,
)
    ensures
        seal_fault(draft_id, None, atom) is Some,
        seal_fault(draft_id, Some(scope), atom) is None <==> {
            &&& scope.status@ == "open"@
            &&& scope.memory_space_id@ == atom.memory_space_id@
            &&& (scope.repository_id is None <==> atom.repository_id is None)
            &&& (scope.repository_id is Some ==> scope.repository_id->0@ == atom.repository_id->0@)
            &&& (scope.task_id is None <==> atom.task_id is None)
            &&& (scope.task_id is Some ==> scope.task_id->0@ == atom.task_id->0@)
            &&& (scope.agent_id is None <==> atom.agent_id is None)
            &&& (scope.agent_id is Some ==> scope.agent_id->0@ == atom.agent_id->0@)
            &&& atom.session_id is Some
            &&& scope.session_id@ == atom.session_id->0@
        },
{
}

/// A chain seals a draft exactly where each of its atoms alone would.
pub proof fn law_chain_seals_exactly_where_each_atom_would(
    draft_id: Seq<char>,
    scope: Option<DraftScope>,
    atoms: Seq<AtomRecord>,
)
    requires
        atoms.len() > 0,
    ensures
        chain_seal_fault(draft_id, scope, atoms) is None <==> forall|i: int|
            0 <= i < atoms.len() ==> seal_fault(draft_id, scope, #[trigger] atoms[i]) is None,
{
    if scope is Some && forall|i: int|
        0 <= i < atoms.len() ==> seal_fault(draft_id, scope, #[trigger] atoms[i]) is None {
        assert forall|i: int| 0 <= i < atoms.len() implies is_open_for(
            scope->0,
            #[trigger] atoms[i],
        ) by {
            assert(seal_fault(draft_id, scope, atoms[i]) is None);
        }
    }
    if scope is None {
        assert(seal_fault(draft_id, scope, atoms[0]) is Some);
    }
}

/// An event is appended exactly where its numbers fit a column and its payload has the digest that
/// it states, and takes its own place only in one open draft.
pub proof fn law_event_is_appended_exactly_with_its_digest(event: EventView)
    ensures
        event_fault(event) is None <==> {
            &&& event.sequence <= i64::MAX
            &&& event.event_at_us <= i64::MAX
            &&& event.payload_digest == sha256_of(event.canonical_payload)
        },
{
}

/// A draft is created exactly where its time fits a column and no draft had its name.
pub proof fn law_draft_is_created_once(draft_id: Seq<char>, created_at_us: u64, inserted: nat)
    ensures
        draft_creation_fault(draft_id, created_at_us, inserted) is None <==> created_at_us
            <= i64::MAX && inserted > 0,
        created_at_us <= i64::MAX && inserted == 0 ==> draft_creation_fault(
            draft_id,
            created_at_us,
            inserted,
        ) == Some(Fault::DraftConflict("draft "@ + draft_id + " already exists"@)),
{
}

/// Appending claims the place of an event before it writes the event, and sealing writes the atoms
/// before it marks the draft; both do each of these once.
pub proof fn law_draft_writes_come_once_and_in_order(i: int)
    requires
        0 <= i < 5,
    ensures
        append_order()[i] == DraftStep::ClaimSequence <==> i == 0,
        append_order()[i] == DraftStep::InsertEvent <==> i == 2,
        append_order()[i] != DraftStep::InsertAtoms,
        append_order()[i] != DraftStep::MarkSealed,
        seal_order()[i] == DraftStep::InsertAtoms <==> i == 0,
        seal_order()[i] == DraftStep::MarkSealed <==> i == 2,
        seal_order()[i] != DraftStep::ClaimSequence,
        seal_order()[i] != DraftStep::InsertEvent,
{
}

/// The scopes of a chain are one scope: every part of the scope of an atom of an accepted chain is
/// that of the first atom, and so are its recorded time and its state.
pub proof fn law_accepted_chain_has_one_scope_time_and_state(
    atoms: Seq<BatchAtom>,
    stm_horizon_us: u64,
    i: int,
)
    requires
        chain_fault(atoms, stm_horizon_us) is None,
        0 <= i < atoms.len(),
    ensures
        ({
            let scope = atoms[i].atom.body.scope;
            let first = atoms[0].atom.body.scope;
            &&& scope.memory_space_id@ == first.memory_space_id@
            &&& scope.session_id@ == first.session_id@
            &&& (scope.repository_id is Some <==> first.repository_id is Some)
            &&& (scope.repository_id is Some ==> scope.repository_id->0@
                == first.repository_id->0@)
            &&& (scope.task_id is Some <==> first.task_id is Some)
            &&& (scope.task_id is Some ==> scope.task_id->0@ == first.task_id->0@)
            &&& (scope.agent_id is Some <==> first.agent_id is Some)
            &&& (scope.agent_id is Some ==> scope.agent_id->0@ == first.agent_id->0@)
            &&& atoms[i].atom.body.interval.recorded_at_us
                == atoms[0].atom.body.interval.recorded_at_us
            &&& atoms[i].state@ == atoms[0].state@
            &&& atoms[i].atom.body.payload is Episode
            &&& initial_state_fault(
                atoms[i].atom.body.payload.kind(),
                atoms[i].atom.body.interval.recorded_at_us,
                atoms[i].state@,
                stm_horizon_us,
            ) is None
        }),
{
    let faulty = |i: int| member_fault(atoms, stm_horizon_us, i);
    lemma_no_first_indexed(atoms.len(), faulty);
    assert(faulty(i) is None);
}

/// A chain of episodes of one scope, time and state that each continue the one before it with the
/// next event, and declare just that, is accepted.
pub proof fn law_contiguous_chain_is_accepted(atoms: Seq<BatchAtom>, stm_horizon_us: u64)
    requires
        atoms.len() > 0,
        forall|i: int|
            0 <= i < atoms.len() ==> {
                let body = (#[trigger] atoms[i]).atom.body;
                let first = atoms[0].atom.body;
                &&& body.scope == first.scope
                &&& body.interval.recorded_at_us == first.interval.recorded_at_us
                &&& atoms[i].state@ == atoms[0].state@
                &&& initial_state_fault(
                    body.payload.kind(),
                    body.interval.recorded_at_us,
                    atoms[i].state@,
                    stm_horizon_us,
                ) is None
                &&& body.payload matches Payload::Episode(payload)
                &&& payload.event_sequence_start <= payload.event_sequence_end
                &&& continues_closed(body.relations@, payload)
            },
        forall|i: int|
            0 < i < atoms.len() ==> {
                let before = atoms[i - 1].atom;
                let payload = (#[trigger] atoms[i]).atom.body.payload->Episode_0;
                &&& payload.continues == Some(before.authority.atom_id)
                &&& payload.event_sequence_start
                    == before.body.payload->Episode_0.event_sequence_end + 1
            },
    ensures
        chain_fault(atoms, stm_horizon_us) is None,
{
    let faulty = |i: int| member_fault(atoms, stm_horizon_us, i);
    lemma_no_first_indexed(atoms.len(), faulty);
    assert forall|i: int| 0 <= i < atoms.len() implies #[trigger] faulty(i) is None by {
        assert(atoms[i].atom.body.scope == atoms[0].atom.body.scope);
        if i > 0 {
            assert(atoms[i - 1].atom.body.payload is Episode);
        }
    }
}

/// An event is read exactly where its numbers are not negative and its digest is one, and is then
/// what its row says.
pub proof fn law_event_is_read_exactly(row: EventRow)
    ensures
        event_row_fault(row) is None <==> row.sequence >= 0 && row.event_at_us >= 0
            && row.payload_digest@.len() == 32,
        event_row_fault(row) is None ==> {
            let event = row_event(row);
            &&& event.sequence == row.sequence
            &&& event.event_at_us == row.event_at_us
            &&& event.event_kind == row.event_kind@
            &&& event.canonical_payload == row.canonical_payload@
            &&& event.payload_digest == row.payload_digest@
        },
{
}

/// A draft that does not fit is a conflict, and nothing else: whether it is unknown, of another
/// scope, no longer open or there already.
pub proof fn law_refused_draft_is_a_conflict(
    draft_id: Seq<char>,
    scope: Option<DraftScope>,
    atom: AtomRecord,
    created_at_us: u64,
)
    ensures
        seal_fault(draft_id, scope, atom) matches Some(fault) ==> fault is DraftConflict,
        created_at_us <= i64::MAX ==> (draft_creation_fault(draft_id, created_at_us, 0) matches Some(
            fault,
        ) && fault is DraftConflict),
{
}

/// A chain that does not hold together is refused as invalid input.
pub proof fn law_refused_chain_is_invalid_input(atoms: Seq<BatchAtom>, stm_horizon_us: u64, i: int)
    ensures
        atoms.len() == 0 ==> (chain_fault(atoms, stm_horizon_us) matches Some(fault)
            && fault is InvalidInput),
        0 <= i < atoms.len() ==> (member_fault(atoms, stm_horizon_us, i) matches Some(fault)
            ==> fault is InvalidInput),
{
}

/// An atom joins the records of a chain exactly where it has a record and is not there yet.
pub proof fn law_chain_atom_is_recorded_exactly_once(
    atom: CoreAtom,
    spaces: Map<Seq<u8>, Seq<char>>,
)
    ensures
        chain_record_fault(atom, spaces) is None <==> record_fault(atom) is None
            && !spaces.contains_key(atom.authority.atom_id@),
{
}

/// The fault of claiming a sequence number that is not the next one of an open draft.
pub open spec fn claim_fault(draft_id: Seq<char>, sequence: u64, changed: nat) -> Option<Fault> {
    fault_when(
        changed != 1,
        Fault::DraftConflict(
            "draft "@ + draft_id + " is not open at sequence "@ + decimal(sequence as nat),
        ),
    )
}

/// The fault of sealing a draft with no atom.
pub open spec fn sealing_fault(records: Seq<AtomRecord>) -> Option<Fault> {
    fault_when(records.len() == 0, Fault::InvalidInput("episode chain must not be empty"@))
}

/// The fault of a draft that was not sealed by this transaction.
pub open spec fn sealed_fault(draft_id: Seq<char>, changed: nat) -> Option<Fault> {
    fault_when(
        changed != 1,
        Fault::DraftConflict("draft "@ + draft_id + " was concurrently sealed"@),
    )
}

/// A sequence number is claimed, and a draft sealed, exactly by changing one row, and anything else
/// is a conflict; a draft is sealed with at least one atom.
pub proof fn law_draft_changes_one_row(
    draft_id: Seq<char>,
    sequence: u64,
    changed: nat,
    records: Seq<AtomRecord>,
)
    ensures
        claim_fault(draft_id, sequence, changed) is None <==> changed == 1,
        claim_fault(draft_id, sequence, changed) matches Some(fault) ==> fault is DraftConflict,
        sealed_fault(draft_id, changed) is None <==> changed == 1,
        sealed_fault(draft_id, changed) matches Some(fault) ==> fault is DraftConflict,
        sealing_fault(records) is None <==> records.len() > 0,
{
}

} // verus!
