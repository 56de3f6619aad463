//! Cohort snapshots: the short-term atoms that expire on one day, and the digest that binds a
//! retirement plan to them.

use vstd::prelude::*;
use vstd::string::*;

use crate::digest::{Transcript, sha256_of};
use crate::error::{Fault, StoreError, either_fault, fault_of, fault_when, integrity};
use crate::folding::{first_fault, lemma_first_fault_step, lemma_first_fault_stops};
use crate::framing::{
    be64, be64_signed, domain_hasher, frame, hash_i64, hash_optional, hash_optional_i64,
    hash_optional_text, hash_text, hash_u64, law_frame_is_self_delimiting,
    law_optional_frame_is_self_delimiting, law_optional_signed_frame_is_self_delimiting,
    lemma_be64_determines, lemma_be64_length,
    lemma_be64_signed_determines, lemma_regroup, lemma_split,
    lemma_utf8_determines, optional_frame, optional_signed_frame, optional_utf8, utf8,
};
use crate::messages::{integrity_about, integrity_fault};
use crate::records::{domain_digest, hash_prefixed};
use crate::stored::{
    digest_array, digest_fault, same_digest, sqlite_integer, sqlite_integer_fault, unsigned_fault,
    unsigned_integer,
};
use crate::text::{copy_optional_text, optional_bytes, optional_text};

verus! {

/// The length of a day.
pub const MICROSECONDS_PER_DAY: u64 = 86400000000;

/// The largest cohort that the store retires at once.
pub const MAX_COHORT_ATOMS: usize = 100000;

/// Which atoms of a memory space retire together: those that expire on one day.
#[derive(Clone, Debug)]
pub struct CohortKey {
    pub memory_space_id: String,
    pub cohort_day: u64,
    pub as_of_us: u64,
}

/// The mathematical content of a [`CohortKey`].
#[verifier::ext_equal]
pub struct KeyView {
    pub memory_space_id: Seq<char>,
    pub cohort_day: u64,
    pub as_of_us: u64,
}

impl View for CohortKey {
    type V = KeyView;

    open spec fn view(&self) -> KeyView {
        KeyView {
            memory_space_id: self.memory_space_id@,
            cohort_day: self.cohort_day,
            as_of_us: self.as_of_us,
        }
    }
}

/// Copies a cohort key.
pub fn copy_key(key: &CohortKey) -> (copy: CohortKey)
    ensures
        copy@ == key@,
{
    CohortKey {
        memory_space_id: key.memory_space_id.clone(),
        cohort_day: key.cohort_day,
        as_of_us: key.as_of_us,
    }
}

/// One atom of a cohort.
#[derive(Clone, Debug)]
pub struct SnapshotAtom {
    pub atom_id: [u8; 32],
    pub body_digest: [u8; 32],
    pub state_digest: [u8; 32],
    pub body_bytes: u64,
    pub artifact_bytes: u64,
    pub retention_permission: String,
    pub session_id: Option<String>,
}

/// The mathematical content of a [`SnapshotAtom`].
#[verifier::ext_equal]
pub struct SnapshotAtomView {
    pub atom_id: Seq<u8>,
    pub body_digest: Seq<u8>,
    pub state_digest: Seq<u8>,
    pub body_bytes: u64,
    pub artifact_bytes: u64,
    pub retention_permission: Seq<char>,
    pub session_id: Option<Seq<char>>,
}

impl View for SnapshotAtom {
    type V = SnapshotAtomView;

    open spec fn view(&self) -> SnapshotAtomView {
        SnapshotAtomView {
            atom_id: self.atom_id@,
            body_digest: self.body_digest@,
            state_digest: self.state_digest@,
            body_bytes: self.body_bytes,
            artifact_bytes: self.artifact_bytes,
            retention_permission: self.retention_permission@,
            session_id: optional_text(self.session_id),
        }
    }
}

/// The bytes that keeping an atom exactly takes, at most the largest 64-bit integer.
pub open spec fn package_bytes(body_bytes: u64, artifact_bytes: u64) -> u64 {
    if body_bytes + artifact_bytes > u64::MAX {
        u64::MAX
    } else {
        (body_bytes + artifact_bytes) as u64
    }
}

impl SnapshotAtom {
    /// The bytes that keeping the atom exactly takes.
    pub fn exact_package_bytes(&self) -> (bytes: u64)
        ensures
            bytes == package_bytes(self.body_bytes, self.artifact_bytes),
    {
        self.body_bytes.saturating_add(self.artifact_bytes)
    }
}

/// A cohort as it stood when it was read.
#[derive(Clone, Debug)]
pub struct CohortSnapshot {
    pub key: CohortKey,
    pub atoms: Vec<SnapshotAtom>,
    pub input_set_digest: [u8; 32],
}

/// The mathematical content of a list of cohort atoms.
pub open spec fn snapshot_atoms(atoms: Seq<SnapshotAtom>) -> Seq<SnapshotAtomView> {
    atoms.map_values(|atom: SnapshotAtom| atom@)
}

/// The row of a cohort atom.
#[derive(Clone, Debug)]
pub struct SnapshotRow {
    pub atom_id: Vec<u8>,
    pub body_digest: Vec<u8>,
    pub body_bytes: i64,
    pub retention_permission: String,
    pub session_id: Option<String>,
    pub retention_tier: String,
    pub content_status: String,
    pub expires_at_us: Option<i64>,
    pub superseded_by: Option<Vec<u8>>,
    pub feedback_positive: i64,
    pub feedback_negative: i64,
    pub retrieval_count: i64,
    pub retirement_run_id: Option<Vec<u8>>,
    pub artifact_bytes: i64,
    pub canonical_body: Option<Vec<u8>>,
}

/// The mutable state columns of a cohort atom.
pub struct RowState {
    pub retention_tier: Seq<char>,
    pub content_status: Seq<char>,
    pub expires_at_us: Option<i64>,
    pub superseded_by: Option<Seq<u8>>,
    pub feedback_positive: i64,
    pub feedback_negative: i64,
    pub retrieval_count: i64,
    pub retirement_run_id: Option<Seq<u8>>,
}

impl SnapshotRow {
    /// The mutable state columns of the row.
    pub open spec fn state(self) -> RowState {
        RowState {
            retention_tier: self.retention_tier@,
            content_status: self.content_status@,
            expires_at_us: self.expires_at_us,
            superseded_by: optional_bytes(self.superseded_by),
            feedback_positive: self.feedback_positive,
            feedback_negative: self.feedback_negative,
            retrieval_count: self.retrieval_count,
            retirement_run_id: optional_bytes(self.retirement_run_id),
        }
    }
}

/// The transcript of the mutable state of an atom.
pub open spec fn state_transcript(state: RowState) -> Seq<u8> {
    utf8("naome-memory:sqlite:atom-state:v1\0"@) + frame(utf8(state.retention_tier)) + frame(
        utf8(state.content_status),
    ) + optional_signed_frame(state.expires_at_us) + optional_frame(state.superseded_by)
        + be64_signed(state.feedback_positive as int) + be64_signed(state.feedback_negative as int)
        + be64_signed(state.retrieval_count as int) + optional_frame(state.retirement_run_id)
}

impl SnapshotRow {
    /// The digest of the mutable state of the row.
    pub fn state_digest(&self) -> (digest: [u8; 32])
        ensures
            digest@ == sha256_of(state_transcript(self.state())),
    {
        let transcript = domain_hasher("naome-memory:sqlite:atom-state:v1\0");
        let transcript = hash_text(transcript, self.retention_tier.as_str());
        let transcript = hash_text(transcript, self.content_status.as_str());
        let transcript = hash_optional_i64(transcript, self.expires_at_us);
        let transcript = hash_optional(transcript, &self.superseded_by);
        let transcript = hash_i64(transcript, self.feedback_positive);
        let transcript = hash_i64(transcript, self.feedback_negative);
        let transcript = hash_i64(transcript, self.retrieval_count);
        let transcript = hash_optional(transcript, &self.retirement_run_id);
        transcript.finish()
    }
}

/// The part of a cohort transcript that one atom takes.
#[verifier::opaque]
pub open spec fn atom_transcript(atom: SnapshotAtomView) -> Seq<u8> {
    atom.atom_id + (atom.body_digest + (atom.state_digest + (be64(atom.body_bytes as int) + (be64(
        atom.artifact_bytes as int,
    ) + (frame(utf8(atom.retention_permission)) + optional_frame(
        optional_utf8(atom.session_id),
    ))))))
}

/// The parts of a cohort transcript that its atoms take.
pub open spec fn atoms_transcript(atoms: Seq<SnapshotAtomView>) -> Seq<u8>
    decreases atoms.len(),
{
    if atoms.len() == 0 {
        Seq::empty()
    } else {
        atoms_transcript(atoms.drop_last()) + atom_transcript(atoms.last())
    }
}

/// The transcript of a cohort.
pub open spec fn cohort_transcript(key: KeyView, atoms: Seq<SnapshotAtomView>) -> Seq<u8> {
    utf8("naome-memory:sqlite:cohort-snapshot:v1\0"@) + frame(utf8(key.memory_space_id)) + be64(
        key.cohort_day as int,
    ) + be64(key.as_of_us as int) + be64(atoms.len() as int) + atoms_transcript(atoms)
}

fn hash_snapshot_atom(transcript: Transcript, atom: &SnapshotAtom) -> (next: Transcript)
    ensures
        next@ == transcript@ + atom_transcript(atom@),
{
    let ghost start = transcript@;
    let next = transcript.update(atom.atom_id.as_slice());
    let next = next.update(atom.body_digest.as_slice());
    let next = next.update(atom.state_digest.as_slice());
    let next = hash_u64(next, atom.body_bytes);
    let next = hash_u64(next, atom.artifact_bytes);
    let next = hash_text(next, atom.retention_permission.as_str());
    let next = hash_optional_text(next, &atom.session_id);
    proof {
        reveal(atom_transcript);
        let v = atom@;
        lemma_regroup_six(
            start,
            v.atom_id,
            v.body_digest,
            v.state_digest,
            be64(v.body_bytes as int),
            be64(v.artifact_bytes as int),
            frame(utf8(v.retention_permission)),
            optional_frame(optional_utf8(v.session_id)),
        );
    }
    next
}

proof fn lemma_regroup_six(
    s: Seq<u8>,
    a: Seq<u8>,
    b: Seq<u8>,
    c: Seq<u8>,
    d: Seq<u8>,
    e: Seq<u8>,
    f: Seq<u8>,
    g: Seq<u8>,
)
    ensures
        s + a + b + c + d + e + f + g == s + (a + (b + (c + (d + (e + (f + g)))))),
{
    lemma_regroup(s + a + b + c + d + e, f, g);
    lemma_regroup(s + a + b + c + d, e, f + g);
    lemma_regroup(s + a + b + c, d, e + (f + g));
    lemma_regroup(s + a + b, c, d + (e + (f + g)));
    lemma_regroup(s + a, b, c + (d + (e + (f + g))));
    lemma_regroup(s, a, b + (c + (d + (e + (f + g)))));
}

/// The digest of a cohort.
pub fn digest_snapshot(key: &CohortKey, atoms: &Vec<SnapshotAtom>) -> (digest: [u8; 32])
    ensures
        digest@ == sha256_of(cohort_transcript(key@, snapshot_atoms(atoms@))),
{
    let transcript = domain_hasher("naome-memory:sqlite:cohort-snapshot:v1\0");
    let transcript = hash_text(transcript, key.memory_space_id.as_str());
    let transcript = hash_u64(transcript, key.cohort_day);
    let transcript = hash_u64(transcript, key.as_of_us);
    let mut transcript = hash_u64(transcript, atoms.len() as u64);
    let ghost start = transcript@;
    let ghost all = snapshot_atoms(atoms@);
    let mut i: usize = 0;
    assert(start + atoms_transcript(all.subrange(0, 0)) =~= start);
    while i < atoms.len()
        invariant
            all == snapshot_atoms(atoms@),
            i <= atoms@.len(),
            transcript@ == start + atoms_transcript(all.subrange(0, i as int)),
        decreases atoms@.len() - i,
    {
        transcript = hash_snapshot_atom(transcript, &atoms[i]);
        proof {
            let longer = all.subrange(0, i + 1);
            assert(longer.drop_last() =~= all.subrange(0, i as int));
            assert(longer.last() == atoms@[i as int]@);
            lemma_regroup(
                start,
                atoms_transcript(all.subrange(0, i as int)),
                atom_transcript(atoms@[i as int]@),
            );
        }
        i += 1;
    }
    assert(all.subrange(0, i as int) =~= all);
    transcript.finish()
}

/// The fault of a cohort day whose bounds no column holds.
pub open spec fn bounds_fault(cohort_day: u64) -> Option<Fault> {
    if cohort_day * MICROSECONDS_PER_DAY > u64::MAX {
        Some(
            Fault::IntegerOutOfRange { field: "cohort lower bound"@, value: cohort_day },
        )
    } else {
        let lower = (cohort_day * MICROSECONDS_PER_DAY) as u64;
        if lower + MICROSECONDS_PER_DAY > u64::MAX {
            Some(Fault::IntegerOutOfRange { field: "cohort upper bound"@, value: lower })
        } else {
            either_fault(
                sqlite_integer_fault(lower, "cohort lower bound"@),
                sqlite_integer_fault(
                    (lower + MICROSECONDS_PER_DAY) as u64,
                    "cohort upper bound"@,
                ),
            )
        }
    }
}

/// The expiry times of a cohort: the first of its day and the first of the next day.
pub fn cohort_bounds(cohort_day: u64) -> (bounds: Result<(i64, i64), StoreError>)
    ensures
        fault_of(bounds) == bounds_fault(cohort_day),
        bounds matches Ok(bounds) ==> bounds.0 == cohort_day * MICROSECONDS_PER_DAY && bounds.1
            == (cohort_day + 1) * MICROSECONDS_PER_DAY,
{
    let lower: u64 = match cohort_day.checked_mul(MICROSECONDS_PER_DAY) {
        Some(lower) => lower,
        None => return Err(
            StoreError::IntegerOutOfRange { field: "cohort lower bound", value: cohort_day },
        ),
    };
    let upper: u64 = match lower.checked_add(MICROSECONDS_PER_DAY) {
        Some(upper) => upper,
        None => return Err(
            StoreError::IntegerOutOfRange { field: "cohort upper bound", value: lower },
        ),
    };
    let lower: i64 = sqlite_integer(lower, "cohort lower bound")?;
    let upper: i64 = sqlite_integer(upper, "cohort upper bound")?;
    Ok((lower, upper))
}

/// The fault of the row of a cohort atom.
pub open spec fn snapshot_row_fault(row: SnapshotRow, atom_hash_domain: Seq<u8>) -> Option<Fault> {
    let atom_id = row.atom_id@;
    either_fault(
        digest_fault(atom_id, "atom_id"@),
        either_fault(
            digest_fault(row.body_digest@, "body_digest"@),
            match row.canonical_body {
                None => Some(integrity_fault("STM atom "@, atom_id, " is missing its body"@)),
                Some(body) => {
                    let identity = domain_digest(atom_hash_domain, body@);
                    if identity != atom_id || identity != row.body_digest@ {
                        Some(
                            integrity_fault(
                                "STM atom "@,
                                atom_id,
                                " failed body authority verification"@,
                            ),
                        )
                    } else {
                        either_fault(
                            unsigned_fault(row.body_bytes, "body_bytes"@),
                            unsigned_fault(row.artifact_bytes, "artifact_bytes"@),
                        )
                    }
                },
            },
        ),
    )
}

/// The cohort atom that a row holds.
pub open spec fn snapshot_atom_of(row: SnapshotRow) -> SnapshotAtomView {
    SnapshotAtomView {
        atom_id: row.atom_id@,
        body_digest: row.body_digest@,
        state_digest: sha256_of(state_transcript(row.state())),
        body_bytes: row.body_bytes as u64,
        artifact_bytes: row.artifact_bytes as u64,
        retention_permission: row.retention_permission@,
        session_id: optional_text(row.session_id),
    }
}

/// The cohort atoms that rows hold.
pub open spec fn snapshot_atoms_of(rows: Seq<SnapshotRow>) -> Seq<SnapshotAtomView> {
    rows.map_values(|row: SnapshotRow| snapshot_atom_of(row))
}

fn read_snapshot_atom(row: &SnapshotRow, atom_hash_domain: &[u8]) -> (atom: Result<
    SnapshotAtom,
    StoreError,
>)
    ensures
        fault_of(atom) == snapshot_row_fault(*row, atom_hash_domain@),
        atom matches Ok(atom) ==> atom@ == snapshot_atom_of(*row),
{
    let atom_id = digest_array(row.atom_id.as_slice(), "atom_id")?;
    let body_digest = digest_array(row.body_digest.as_slice(), "body_digest")?;
    let state_digest = row.state_digest();
    let canonical_body = match &row.canonical_body {
        Some(body) => body,
        None => return Err(integrity_about("STM atom ", &atom_id, " is missing its body")),
    };
    let identity = hash_prefixed(atom_hash_domain, canonical_body.as_slice());
    if !same_digest(&identity, &atom_id) || !same_digest(&identity, &body_digest) {
        return Err(
            integrity_about("STM atom ", &atom_id, " failed body authority verification"),
        );
    }
    let body_bytes: u64 = unsigned_integer(row.body_bytes, "body_bytes")?;
    let artifact_bytes: u64 = unsigned_integer(row.artifact_bytes, "artifact_bytes")?;
    Ok(
        SnapshotAtom {
            atom_id,
            body_digest,
            state_digest,
            body_bytes,
            artifact_bytes,
            retention_permission: row.retention_permission.clone(),
            session_id: copy_optional_text(&row.session_id),
        },
    )
}

/// The fault of a cohort, given the rows of the atoms that expire on its day.
pub open spec fn snapshot_fault(
    key: KeyView,
    rows: Seq<SnapshotRow>,
    atom_hash_domain: Seq<u8>,
) -> Option<Fault> {
    either_fault(
        bounds_fault(key.cohort_day),
        either_fault(
            first_fault(rows, |row: SnapshotRow| snapshot_row_fault(row, atom_hash_domain)),
            fault_when(
                rows.len() > MAX_COHORT_ATOMS,
                Fault::Integrity("cohort exceeds the fail-closed limit of 100000 atoms"@),
            ),
        ),
    )
}

/// Whether a snapshot is that of a cohort with the given rows.
pub open spec fn is_snapshot_of(
    snapshot: CohortSnapshot,
    key: KeyView,
    rows: Seq<SnapshotRow>,
) -> bool {
    &&& snapshot.key@ == key
    &&& snapshot_atoms(snapshot.atoms@) == snapshot_atoms_of(rows)
    &&& snapshot.input_set_digest@ == sha256_of(cohort_transcript(key, snapshot_atoms_of(rows)))
}

/// Takes the snapshot of a cohort from the rows of the atoms that expire on its day.
#[verifier::loop_isolation(false)]
pub fn take_snapshot(key: &CohortKey, rows: &Vec<SnapshotRow>, atom_hash_domain: &[u8]) -> (snapshot:
    Result<CohortSnapshot, StoreError>)
    ensures
        fault_of(snapshot) == snapshot_fault(key@, rows@, atom_hash_domain@),
        snapshot matches Ok(snapshot) ==> is_snapshot_of(snapshot, key@, rows@),
{
    let bounds = cohort_bounds(key.cohort_day)?;
    let ghost fault = |row: SnapshotRow| snapshot_row_fault(row, atom_hash_domain@);
    let mut atoms: Vec<SnapshotAtom> = Vec::new();
    let mut i: usize = 0;
    while i < rows.len()
        invariant
            i <= rows@.len(),
            first_fault(rows@.subrange(0, i as int), fault) is None,
            atoms@.len() == i,
            forall|k: int| 0 <= k < i ==> (#[trigger] atoms@[k])@ == snapshot_atom_of(rows@[k]),
        decreases rows@.len() - i,
    {
        proof {
            lemma_first_fault_step(rows@, fault, i as int);
        }
        match read_snapshot_atom(&rows[i], atom_hash_domain) {
            Ok(atom) => {
                atoms.push(atom);
            },
            Err(error) => {
                proof {
                    lemma_first_fault_stops(rows@, fault, i + 1);
                }
                return Err(error);
            },
        }
        i += 1;
    }
    assert(rows@.subrange(0, i as int) =~= rows@);
    if atoms.len() > MAX_COHORT_ATOMS {
        return Err(integrity("cohort exceeds the fail-closed limit of 100000 atoms"));
    }
    assert(snapshot_atoms(atoms@) =~= snapshot_atoms_of(rows@));
    let input_set_digest = digest_snapshot(key, &atoms);
    Ok(CohortSnapshot { key: copy_key(key), atoms, input_set_digest })
}

// ---------------------------------------------------------------------------------------------
// What the digests bind

/// Whether the texts and blobs of a state have lengths that fit in 64 bits.
pub open spec fn is_storable_state(state: RowState) -> bool {
    &&& utf8(state.retention_tier).len() <= u64::MAX
    &&& utf8(state.content_status).len() <= u64::MAX
    &&& (state.superseded_by matches Some(bytes) ==> bytes.len() <= u64::MAX)
    &&& (state.retirement_run_id matches Some(bytes) ==> bytes.len() <= u64::MAX)
}

/// The mutable state of an atom is determined by its transcript: two states that are hashed alike
/// are equal.
pub proof fn law_state_transcript_determines_state(a: RowState, b: RowState)
    requires
        is_storable_state(a),
        is_storable_state(b),
        state_transcript(a) == state_transcript(b),
    ensures
        a == b,
{
    let domain = utf8("naome-memory:sqlite:atom-state:v1\0"@);
    let a8 = optional_frame(a.retirement_run_id);
    let b8 = optional_frame(b.retirement_run_id);
    let a7 = be64_signed(a.retrieval_count as int) + a8;
    let b7 = be64_signed(b.retrieval_count as int) + b8;
    let a6 = be64_signed(a.feedback_negative as int) + a7;
    let b6 = be64_signed(b.feedback_negative as int) + b7;
    let a5 = be64_signed(a.feedback_positive as int) + a6;
    let b5 = be64_signed(b.feedback_positive as int) + b6;
    let a4 = optional_frame(a.superseded_by) + a5;
    let b4 = optional_frame(b.superseded_by) + b5;
    let a3 = optional_signed_frame(a.expires_at_us) + a4;
    let b3 = optional_signed_frame(b.expires_at_us) + b4;
    let a2 = frame(utf8(a.content_status)) + a3;
    let b2 = frame(utf8(b.content_status)) + b3;
    let a1 = frame(utf8(a.retention_tier)) + a2;
    let b1 = frame(utf8(b.retention_tier)) + b2;
    lemma_regroup_state(a);
    lemma_regroup_state(b);
    lemma_split(domain, a1, domain, b1);
    law_frame_is_self_delimiting(utf8(a.retention_tier), a2, utf8(b.retention_tier), b2);
    law_frame_is_self_delimiting(utf8(a.content_status), a3, utf8(b.content_status), b3);
    law_optional_signed_frame_is_self_delimiting(a.expires_at_us, a4, b.expires_at_us, b4);
    law_optional_frame_is_self_delimiting(a.superseded_by, a5, b.superseded_by, b5);
    lemma_be64_length(a.feedback_positive as int);
    lemma_be64_length(b.feedback_positive as int);
    lemma_be64_length(a.feedback_negative as int);
    lemma_be64_length(b.feedback_negative as int);
    lemma_be64_length(a.retrieval_count as int);
    lemma_be64_length(b.retrieval_count as int);
    lemma_split(
        be64_signed(a.feedback_positive as int),
        a6,
        be64_signed(b.feedback_positive as int),
        b6,
    );
    lemma_split(
        be64_signed(a.feedback_negative as int),
        a7,
        be64_signed(b.feedback_negative as int),
        b7,
    );
    lemma_split(
        be64_signed(a.retrieval_count as int),
        a8,
        be64_signed(b.retrieval_count as int),
        b8,
    );
    lemma_be64_signed_determines(a.feedback_positive, b.feedback_positive);
    lemma_be64_signed_determines(a.feedback_negative, b.feedback_negative);
    lemma_be64_signed_determines(a.retrieval_count, b.retrieval_count);
    let empty = Seq::<u8>::empty();
    assert(a8 + empty =~= a8);
    assert(b8 + empty =~= b8);
    law_optional_frame_is_self_delimiting(a.retirement_run_id, empty, b.retirement_run_id, empty);
    lemma_utf8_determines(a.retention_tier, b.retention_tier);
    lemma_utf8_determines(a.content_status, b.content_status);
}

proof fn lemma_regroup_state(s: RowState)
    ensures
        state_transcript(s) == utf8("naome-memory:sqlite:atom-state:v1\0"@) + (frame(
            utf8(s.retention_tier),
        ) + (frame(utf8(s.content_status)) + (optional_signed_frame(s.expires_at_us) + (
        optional_frame(s.superseded_by) + (be64_signed(s.feedback_positive as int) + (be64_signed(
            s.feedback_negative as int,
        ) + (be64_signed(s.retrieval_count as int) + optional_frame(s.retirement_run_id)))))))),
{
    let domain = utf8("naome-memory:sqlite:atom-state:v1\0"@);
    let p1 = frame(utf8(s.retention_tier));
    let p2 = frame(utf8(s.content_status));
    let p3 = optional_signed_frame(s.expires_at_us);
    let p4 = optional_frame(s.superseded_by);
    let p5 = be64_signed(s.feedback_positive as int);
    let p6 = be64_signed(s.feedback_negative as int);
    let p7 = be64_signed(s.retrieval_count as int);
    let p8 = optional_frame(s.retirement_run_id);
    lemma_regroup_six(domain, p1, p2, p3, p4, p5, p6, p7);
    lemma_regroup(domain, p1 + (p2 + (p3 + (p4 + (p5 + (p6 + p7))))), p8);
    lemma_regroup(p1, p2 + (p3 + (p4 + (p5 + (p6 + p7)))), p8);
    lemma_regroup(p2, p3 + (p4 + (p5 + (p6 + p7))), p8);
    lemma_regroup(p3, p4 + (p5 + (p6 + p7)), p8);
    lemma_regroup(p4, p5 + (p6 + p7), p8);
    lemma_regroup(p5, p6 + p7, p8);
    lemma_regroup(p6, p7, p8);
}

/// Whether the digests of a cohort atom are digests and its texts have lengths that fit in 64
/// bits.
pub open spec fn is_storable_atom(atom: SnapshotAtomView) -> bool {
    &&& atom.atom_id.len() == 32
    &&& atom.body_digest.len() == 32
    &&& atom.state_digest.len() == 32
    &&& utf8(atom.retention_permission).len() <= u64::MAX
    &&& (atom.session_id matches Some(text) ==> utf8(text).len() <= u64::MAX)
}

proof fn lemma_atom_transcript_delimits(
    a: SnapshotAtomView,
    x: Seq<u8>,
    b: SnapshotAtomView,
    y: Seq<u8>,
)
    requires
        is_storable_atom(a),
        is_storable_atom(b),
        atom_transcript(a) + x == atom_transcript(b) + y,
    ensures
        a == b,
        x == y,
{
    let a7 = optional_frame(optional_utf8(a.session_id)) + x;
    let b7 = optional_frame(optional_utf8(b.session_id)) + y;
    let a6 = frame(utf8(a.retention_permission)) + a7;
    let b6 = frame(utf8(b.retention_permission)) + b7;
    let a5 = be64(a.artifact_bytes as int) + a6;
    let b5 = be64(b.artifact_bytes as int) + b6;
    let a4 = be64(a.body_bytes as int) + a5;
    let b4 = be64(b.body_bytes as int) + b5;
    let a3 = a.state_digest + a4;
    let b3 = b.state_digest + b4;
    let a2 = a.body_digest + a3;
    let b2 = b.body_digest + b3;
    lemma_atom_regroup(a, x);
    lemma_atom_regroup(b, y);
    lemma_split(a.atom_id, a2, b.atom_id, b2);
    lemma_split(a.body_digest, a3, b.body_digest, b3);
    lemma_split(a.state_digest, a4, b.state_digest, b4);
    lemma_be64_length(a.body_bytes as int);
    lemma_be64_length(b.body_bytes as int);
    lemma_be64_length(a.artifact_bytes as int);
    lemma_be64_length(b.artifact_bytes as int);
    lemma_split(be64(a.body_bytes as int), a5, be64(b.body_bytes as int), b5);
    lemma_split(be64(a.artifact_bytes as int), a6, be64(b.artifact_bytes as int), b6);
    lemma_be64_determines(a.body_bytes as int, b.body_bytes as int);
    lemma_be64_determines(a.artifact_bytes as int, b.artifact_bytes as int);
    law_frame_is_self_delimiting(
        utf8(a.retention_permission),
        a7,
        utf8(b.retention_permission),
        b7,
    );
    law_optional_frame_is_self_delimiting(
        optional_utf8(a.session_id),
        x,
        optional_utf8(b.session_id),
        y,
    );
    lemma_utf8_determines(a.retention_permission, b.retention_permission);
    if let (Some(p), Some(q)) = (a.session_id, b.session_id) {
        lemma_utf8_determines(p, q);
    }
}

proof fn lemma_atom_regroup(a: SnapshotAtomView, x: Seq<u8>)
    ensures
        atom_transcript(a) + x == a.atom_id + (a.body_digest + (a.state_digest + (be64(
            a.body_bytes as int,
        ) + (be64(a.artifact_bytes as int) + (frame(utf8(a.retention_permission)) + (optional_frame(
            optional_utf8(a.session_id),
        ) + x)))))),
{
    reveal(atom_transcript);
    let p7 = optional_frame(optional_utf8(a.session_id));
    let p6 = frame(utf8(a.retention_permission));
    let p5 = be64(a.artifact_bytes as int);
    let p4 = be64(a.body_bytes as int);
    lemma_regroup(p6, p7, x);
    lemma_regroup(p5, p6 + p7, x);
    lemma_regroup(p4, p5 + (p6 + p7), x);
    lemma_regroup(a.state_digest, p4 + (p5 + (p6 + p7)), x);
    lemma_regroup(a.body_digest, a.state_digest + (p4 + (p5 + (p6 + p7))), x);
    lemma_regroup(a.atom_id, a.body_digest + (a.state_digest + (p4 + (p5 + (p6 + p7)))), x);
}

proof fn lemma_atoms_transcript_front(atoms: Seq<SnapshotAtomView>)
    requires
        atoms.len() > 0,
    ensures
        atoms_transcript(atoms) == atom_transcript(atoms[0]) + atoms_transcript(atoms.drop_first()),
    decreases atoms.len(),
{
    let first = atom_transcript(atoms[0]);
    let last = atom_transcript(atoms.last());
    if atoms.len() == 1 {
        assert(atoms.drop_last() =~= Seq::<SnapshotAtomView>::empty());
        assert(atoms.drop_first() =~= Seq::<SnapshotAtomView>::empty());
        assert(atoms_transcript(atoms.drop_last()) == Seq::<u8>::empty());
        assert(atoms_transcript(atoms.drop_first()) == Seq::<u8>::empty());
        assert(atoms.last() == atoms[0]);
        assert(Seq::<u8>::empty() + first =~= first);
        assert(first + atoms_transcript(atoms.drop_first()) =~= first);
    } else {
        lemma_atoms_transcript_front(atoms.drop_last());
        assert(atoms.drop_last().drop_first() =~= atoms.drop_first().drop_last());
        assert(atoms.drop_first().last() == atoms.last());
        lemma_regroup(first, atoms_transcript(atoms.drop_first().drop_last()), last);
    }
}

proof fn lemma_atoms_transcript_determines(a: Seq<SnapshotAtomView>, b: Seq<SnapshotAtomView>)
    requires
        a.len() == b.len(),
        forall|i: int| 0 <= i < a.len() ==> is_storable_atom(#[trigger] a[i]),
        forall|i: int| 0 <= i < b.len() ==> is_storable_atom(#[trigger] b[i]),
        atoms_transcript(a) == atoms_transcript(b),
    ensures
        a == b,
    decreases a.len(),
{
    if a.len() == 0 {
        assert(a =~= b);
    } else {
        lemma_atoms_transcript_front(a);
        lemma_atoms_transcript_front(b);
        assert(is_storable_atom(a[0]));
        assert(is_storable_atom(b[0]));
        lemma_atom_transcript_delimits(
            a[0],
            atoms_transcript(a.drop_first()),
            b[0],
            atoms_transcript(b.drop_first()),
        );
        lemma_atoms_transcript_determines(a.drop_first(), b.drop_first());
        assert(a =~= seq![a[0]] + a.drop_first());
        assert(b =~= seq![b[0]] + b.drop_first());
    }
}

/// A cohort is determined by its transcript: two cohorts that are hashed alike have the same key
/// and the same atoms in the same states, in the same order. A plan that names the digest of one
/// cohort fits no other, unless SHA-256 itself gives two transcripts one digest.
pub proof fn law_cohort_transcript_determines_cohort(
    key: KeyView,
    atoms: Seq<SnapshotAtomView>,
    other_key: KeyView,
    other_atoms: Seq<SnapshotAtomView>,
)
    requires
        utf8(key.memory_space_id).len() <= u64::MAX,
        utf8(other_key.memory_space_id).len() <= u64::MAX,
        atoms.len() <= u64::MAX,
        other_atoms.len() <= u64::MAX,
        forall|i: int| 0 <= i < atoms.len() ==> is_storable_atom(#[trigger] atoms[i]),
        forall|i: int| 0 <= i < other_atoms.len() ==> is_storable_atom(#[trigger] other_atoms[i]),
        cohort_transcript(key, atoms) == cohort_transcript(other_key, other_atoms),
    ensures
        key == other_key,
        atoms == other_atoms,
{
    let domain = utf8("naome-memory:sqlite:cohort-snapshot:v1\0"@);
    lemma_cohort_regroup(key, atoms);
    lemma_cohort_regroup(other_key, other_atoms);
    let a4 = be64(atoms.len() as int) + atoms_transcript(atoms);
    let b4 = be64(other_atoms.len() as int) + atoms_transcript(other_atoms);
    let a3 = be64(key.as_of_us as int) + a4;
    let b3 = be64(other_key.as_of_us as int) + b4;
    let a2 = be64(key.cohort_day as int) + a3;
    let b2 = be64(other_key.cohort_day as int) + b3;
    let a1 = frame(utf8(key.memory_space_id)) + a2;
    let b1 = frame(utf8(other_key.memory_space_id)) + b2;
    lemma_split(domain, a1, domain, b1);
    law_frame_is_self_delimiting(
        utf8(key.memory_space_id),
        a2,
        utf8(other_key.memory_space_id),
        b2,
    );
    lemma_be64_length(key.cohort_day as int);
    lemma_be64_length(other_key.cohort_day as int);
    lemma_be64_length(key.as_of_us as int);
    lemma_be64_length(other_key.as_of_us as int);
    lemma_be64_length(atoms.len() as int);
    lemma_be64_length(other_atoms.len() as int);
    lemma_split(be64(key.cohort_day as int), a3, be64(other_key.cohort_day as int), b3);
    lemma_split(be64(key.as_of_us as int), a4, be64(other_key.as_of_us as int), b4);
    lemma_split(
        be64(atoms.len() as int),
        atoms_transcript(atoms),
        be64(other_atoms.len() as int),
        atoms_transcript(other_atoms),
    );
    lemma_be64_determines(key.cohort_day as int, other_key.cohort_day as int);
    lemma_be64_determines(key.as_of_us as int, other_key.as_of_us as int);
    lemma_be64_determines(atoms.len() as int, other_atoms.len() as int);
    lemma_utf8_determines(key.memory_space_id, other_key.memory_space_id);
    lemma_atoms_transcript_determines(atoms, other_atoms);
}

proof fn lemma_cohort_regroup(key: KeyView, atoms: Seq<SnapshotAtomView>)
    ensures
        cohort_transcript(key, atoms) == utf8("naome-memory:sqlite:cohort-snapshot:v1\0"@) + (frame(
            utf8(key.memory_space_id),
        ) + (be64(key.cohort_day as int) + (be64(key.as_of_us as int) + (be64(atoms.len() as int)
            + atoms_transcript(atoms))))),
{
    let domain = utf8("naome-memory:sqlite:cohort-snapshot:v1\0"@);
    let p1 = frame(utf8(key.memory_space_id));
    let p2 = be64(key.cohort_day as int);
    let p3 = be64(key.as_of_us as int);
    let p4 = be64(atoms.len() as int);
    let p5 = atoms_transcript(atoms);
    lemma_regroup(domain + p1 + p2 + p3, p4, p5);
    lemma_regroup(domain + p1 + p2, p3, p4 + p5);
    lemma_regroup(domain + p1, p2, p3 + (p4 + p5));
    lemma_regroup(domain, p1, p2 + (p3 + (p4 + p5)));
}

/// Every atom that expires at a time belongs to exactly one cohort day.
pub proof fn law_expiry_belongs_to_one_cohort(expires_at_us: u64, cohort_day: u64)
    ensures
        cohort_day * MICROSECONDS_PER_DAY <= expires_at_us < (cohort_day + 1)
            * MICROSECONDS_PER_DAY <==> cohort_day == expires_at_us / MICROSECONDS_PER_DAY,
{
}

/// A row joins the snapshot of its cohort exactly where its atom stands under the hash of the body
/// that is there, and no size is negative; it joins with the identity, the sizes, the permission
/// and the session of the row.
pub proof fn law_cohort_atom_is_read_exactly_with_its_body(
    row: SnapshotRow,
    atom_hash_domain: Seq<u8>,
)
    ensures
        snapshot_row_fault(row, atom_hash_domain) is None <==> {
            &&& row.atom_id@.len() == 32
            &&& row.body_digest@.len() == 32
            &&& row.canonical_body matches Some(body)
            &&& row.atom_id@ == domain_digest(atom_hash_domain, body@)
            &&& row.body_digest@ == row.atom_id@
            &&& row.body_bytes >= 0
            &&& row.artifact_bytes >= 0
        },
        snapshot_row_fault(row, atom_hash_domain) is None ==> {
            let atom = snapshot_atom_of(row);
            &&& atom.atom_id == row.atom_id@
            &&& atom.body_digest == row.body_digest@
            &&& atom.body_bytes == row.body_bytes
            &&& atom.artifact_bytes == row.artifact_bytes
            &&& atom.retention_permission == row.retention_permission@
            &&& row.session_id is Some <==> atom.session_id is Some
            &&& row.session_id matches Some(session) ==> atom.session_id == Some(session@)
        },
{
}

/// The package of an atom is its body with its artifacts: no smaller than either, and their sum
/// where that fits.
pub proof fn law_package_is_body_with_artifacts(body_bytes: u64, artifact_bytes: u64)
    ensures
        body_bytes + artifact_bytes <= u64::MAX ==> package_bytes(body_bytes, artifact_bytes)
            == body_bytes + artifact_bytes,
        package_bytes(body_bytes, artifact_bytes) >= body_bytes,
        package_bytes(body_bytes, artifact_bytes) >= artifact_bytes,
{
}

/// A cohort is the atoms of its day: a snapshot has one atom for every row, in the order of the
/// rows, under the key that was asked for; it is taken of any day whose bounds fit a column and of
/// no more than 100000 atoms.
pub proof fn law_snapshot_holds_every_row_in_order(
    snapshot: CohortSnapshot,
    key: KeyView,
    rows: Seq<SnapshotRow>,
    atom_hash_domain: Seq<u8>,
    i: int,
)
    requires
        is_snapshot_of(snapshot, key, rows),
        snapshot_fault(key, rows, atom_hash_domain) is None,
    ensures
        snapshot.key.memory_space_id@ == key.memory_space_id,
        snapshot.key.cohort_day == key.cohort_day,
        snapshot.key.as_of_us == key.as_of_us,
        snapshot.atoms@.len() == rows.len(),
        rows.len() <= 100_000,
        0 <= i < rows.len() ==> {
            &&& snapshot.atoms@[i].atom_id@ == rows[i].atom_id@
            &&& snapshot.atoms@[i].body_bytes == rows[i].body_bytes
            &&& snapshot.atoms@[i].artifact_bytes == rows[i].artifact_bytes
            &&& snapshot.atoms@[i].retention_permission@ == rows[i].retention_permission@
            &&& snapshot.atoms@[i].state_digest@ == sha256_of(state_transcript(rows[i].state()))
        },
{
    let fault = |row: SnapshotRow| snapshot_row_fault(row, atom_hash_domain);
    crate::folding::lemma_no_first_fault(rows, fault);
    let views = snapshot_atoms(snapshot.atoms@);
    assert(views.len() == snapshot.atoms@.len());
    assert(snapshot_atoms_of(rows).len() == rows.len());
    if 0 <= i < rows.len() {
        assert(fault(rows[i]) is None);
        assert(views[i] == snapshot.atoms@[i]@);
        assert(snapshot_atoms_of(rows)[i] == snapshot_atom_of(rows[i]));
        law_cohort_atom_is_read_exactly_with_its_body(rows[i], atom_hash_domain);
    }
}

/// The bounds of a cohort are a day apart: a day has bounds exactly where both fit a column.
pub proof fn law_cohort_day_has_bounds_exactly(cohort_day: u64)
    ensures
        bounds_fault(cohort_day) is None <==> (cohort_day + 1) * 86_400_000_000 <= i64::MAX,
{
}

/// A cohort is seen with every column of the state of its atoms: two rows with the same transcript
/// have the same tier, status, expiry, successor, counters and run.
pub proof fn law_snapshot_sees_every_column_of_the_state(a: SnapshotRow, b: SnapshotRow)
    requires
        is_storable_state(a.state()),
        is_storable_state(b.state()),
        state_transcript(a.state()) == state_transcript(b.state()),
    ensures
        a.retention_tier@ == b.retention_tier@,
        a.content_status@ == b.content_status@,
        a.expires_at_us == b.expires_at_us,
        optional_bytes(a.superseded_by) == optional_bytes(b.superseded_by),
        a.feedback_positive == b.feedback_positive,
        a.feedback_negative == b.feedback_negative,
        a.retrieval_count == b.retrieval_count,
        optional_bytes(a.retirement_run_id) == optional_bytes(b.retirement_run_id),
{
    law_state_transcript_determines_state(a.state(), b.state());
}

} // verus!
