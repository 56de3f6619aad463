//! Collecting artifacts that nothing refers to: first they are marked, and after a time of grace
//! they are deleted.

use vstd::prelude::*;
use vstd::string::*;

use crate::artifact::{
    ArtifactDigest, ArtifactRecord, ArtifactStore, RecordView, copy_record, metadata_fault,
    same_record,
};
use crate::artifact_rows::{
    ArtifactFileRow, artifact_record_from_row, record_row_fault, row_record,
};
use crate::bytemap::{ByteMap, ByteSet, in_order, lemma_in_order, precedes};
use crate::error::{Fault, StoreError, either_fault, fault_of, fault_when, integrity};
use crate::folding::{
    first_fault, folded, lemma_first_fault_step, lemma_first_fault_stops, lemma_folded_step,
    lemma_folded_stops,
};
use crate::messages::{integrity_about, integrity_fault};
use crate::snapshot::MICROSECONDS_PER_DAY;
use crate::sorting::{Keyed, in_key_order, sort_by_key, views};
use crate::stored::{sqlite_integer, sqlite_integer_fault, unsigned_fault, unsigned_integer};
use crate::text::{copy_bytes, decimal, decimal_text, text3, text4};

verus! {

/// What a collection does, or would do, with an artifact.
#[derive(Clone, Copy, Debug, PartialEq, Eq, Structural)]
pub enum GcAction {
    WouldMark,
    Marked,
    WaitingForGrace,
    WouldDelete,
    Deleted,
}

/// An artifact that a collection looked at.
#[derive(Clone, Copy, Debug)]
pub struct GcEntry {
    pub digest: ArtifactDigest,
    pub byte_len: u64,
    pub action: GcAction,
}

/// The mathematical content of a [`GcEntry`].
#[verifier::ext_equal]
pub struct EntryView {
    pub digest: Seq<u8>,
    pub byte_len: u64,
    pub action: GcAction,
}

impl View for GcEntry {
    type V = EntryView;

    open spec fn view(&self) -> EntryView {
        EntryView { digest: self.digest@, byte_len: self.byte_len, action: self.action }
    }
}

/// What a collection reports.
#[derive(Clone, Debug)]
pub struct GcReport {
    pub dry_run: bool,
    pub as_of_us: u64,
    pub grace_period_us: u64,
    pub entries: Vec<GcEntry>,
}

/// The fault of a collection that would not wait long enough, or whose time no column can hold.
pub open spec fn collection_fault(as_of_us: u64, grace_period_us: u64) -> Option<Fault> {
    either_fault(
        fault_when(
            grace_period_us < MICROSECONDS_PER_DAY,
            Fault::InvalidInput(
                "artifact GC grace period must be at least "@ + decimal(
                    MICROSECONDS_PER_DAY as nat,
                ) + " microseconds"@,
            ),
        ),
        sqlite_integer_fault(as_of_us, "as_of_us"@),
    )
}

/// Accepts a collection with a time of grace of at least one day. Gives its time as a column holds
/// it.
pub fn begin_collection(as_of_us: u64, grace_period_us: u64) -> (as_of: Result<i64, StoreError>)
    ensures
        fault_of(as_of) == collection_fault(as_of_us, grace_period_us),
        as_of matches Ok(as_of) ==> as_of == as_of_us,
{
    if grace_period_us < MICROSECONDS_PER_DAY {
        let least = decimal_text(MICROSECONDS_PER_DAY);
        return Err(
            StoreError::InvalidInput(
                text3(
                    "artifact GC grace period must be at least ",
                    least.as_str(),
                    " microseconds",
                ),
            ),
        );
    }
    sqlite_integer(as_of_us, "as_of_us")
}

// ---------------------------------------------------------------------------------------------
// The tables

/// The registered artifacts by digest.
pub type Records = ByteMap<ArtifactRecord>;

/// The mathematical content of registered artifacts.
pub open spec fn record_views(records: Records) -> Map<Seq<u8>, RecordView> {
    records@.map_values(|record: ArtifactRecord| record@)
}

/// Takes one more row in.
pub open spec fn record_step(table: Map<Seq<u8>, RecordView>, row: ArtifactFileRow) -> Result<
    Map<Seq<u8>, RecordView>,
    Fault,
> {
    match record_row_fault(row) {
        Some(fault) => Err(fault),
        None => if table.contains_key(row.artifact_digest@) {
            Err(Fault::Integrity("duplicate artifact digest escaped the primary key"@))
        } else {
            Ok(table.insert(row.artifact_digest@, row_record(row)))
        },
    }
}

/// The registered artifacts that rows hold.
pub open spec fn record_table(rows: Seq<ArtifactFileRow>) -> Result<Map<Seq<u8>, RecordView>, Fault> {
    folded(
        rows,
        Map::empty(),
        |table: Map<Seq<u8>, RecordView>, row: ArtifactFileRow| record_step(table, row),
    )
}

fn take_record(table: &mut Records, row: &ArtifactFileRow) -> (verdict: Result<(), StoreError>)
    ensures
        match verdict {
            Ok(_) => record_step(record_views(*old(table)), *row) == Ok::<
                Map<Seq<u8>, RecordView>,
                Fault,
            >(record_views(*final(table))),
            Err(error) => record_step(record_views(*old(table)), *row) == Err::<
                Map<Seq<u8>, RecordView>,
                Fault,
            >(error@),
        },
{
    let record = artifact_record_from_row(row)?;
    if table.contains_key(row.artifact_digest.as_slice()) {
        return Err(integrity("duplicate artifact digest escaped the primary key"));
    }
    table.insert(copy_bytes(row.artifact_digest.as_slice()), record);
    assert(record_views(*table) =~= record_views(*old(table)).insert(
        row.artifact_digest@,
        row_record(*row),
    ));
    Ok(())
}

/// Loads the registered artifacts.
#[verifier::loop_isolation(false)]
pub fn load_all_artifact_records(rows: &Vec<ArtifactFileRow>) -> (records: Result<
    Records,
    StoreError,
>)
    ensures
        match records {
            Ok(records) => record_table(rows@) == Ok::<Map<Seq<u8>, RecordView>, Fault>(
                record_views(records),
            ),
            Err(error) => record_table(rows@) == Err::<Map<Seq<u8>, RecordView>, Fault>(error@),
        },
{
    let ghost start = Map::<Seq<u8>, RecordView>::empty();
    let ghost step = |table: Map<Seq<u8>, RecordView>, row: ArtifactFileRow|
        record_step(table, row);
    let mut records: Records = ByteMap::new();
    let mut i: usize = 0;
    assert(record_views(records) =~= start);
    assert(rows@.subrange(0, 0) =~= Seq::<ArtifactFileRow>::empty());
    while i < rows.len()
        invariant
            i <= rows@.len(),
            folded(rows@.subrange(0, i as int), start, step) == Ok::<
                Map<Seq<u8>, RecordView>,
                Fault,
            >(record_views(records)),
        decreases rows@.len() - i,
    {
        proof {
            lemma_folded_step(rows@, start, step, i as int);
        }
        match take_record(&mut records, &rows[i]) {
            Ok(_) => {},
            Err(error) => {
                proof {
                    lemma_folded_stops(rows@, start, step, i + 1);
                }
                return Err(error);
            },
        }
        i += 1;
    }
    assert(rows@.subrange(0, i as int) =~= rows@);
    Ok(records)
}

/// The row of an artifact that nothing refers to, and when it was marked.
#[derive(Clone, Debug)]
pub struct CandidateRow {
    pub row: ArtifactFileRow,
    pub marked_at: Option<i64>,
}

/// An artifact that nothing refers to, and when it was marked.
#[derive(Clone, Debug)]
pub struct Candidate {
    pub record: ArtifactRecord,
    pub marked_at: Option<i64>,
}

/// The mathematical content of a [`Candidate`].
#[verifier::ext_equal]
pub struct CandidateView {
    pub record: RecordView,
    pub marked_at: Option<i64>,
}

/// The artifacts that nothing refers to, by digest.
pub type Candidates = ByteMap<Candidate>;

/// The mathematical content of artifacts that nothing refers to.
pub open spec fn candidate_views(candidates: Candidates) -> Map<Seq<u8>, CandidateView> {
    candidates@.map_values(
        |candidate: Candidate|
            CandidateView { record: candidate.record@, marked_at: candidate.marked_at },
    )
}

/// Takes one more row in.
pub open spec fn candidate_step(table: Map<Seq<u8>, CandidateView>, row: CandidateRow) -> Result<
    Map<Seq<u8>, CandidateView>,
    Fault,
> {
    match record_row_fault(row.row) {
        Some(fault) => Err(fault),
        None => if table.contains_key(row.row.artifact_digest@) {
            Err(Fault::Integrity("duplicate GC candidate escaped the primary key"@))
        } else {
            Ok(
                table.insert(
                    row.row.artifact_digest@,
                    CandidateView { record: row_record(row.row), marked_at: row.marked_at },
                ),
            )
        },
    }
}

/// The artifacts that nothing refers to, as rows hold them.
pub open spec fn candidate_table(rows: Seq<CandidateRow>) -> Result<
    Map<Seq<u8>, CandidateView>,
    Fault,
> {
    folded(
        rows,
        Map::empty(),
        |table: Map<Seq<u8>, CandidateView>, row: CandidateRow| candidate_step(table, row),
    )
}

fn take_candidate(table: &mut Candidates, row: &CandidateRow) -> (verdict: Result<(), StoreError>)
    ensures
        match verdict {
            Ok(_) => candidate_step(candidate_views(*old(table)), *row) == Ok::<
                Map<Seq<u8>, CandidateView>,
                Fault,
            >(candidate_views(*final(table))),
            Err(error) => candidate_step(candidate_views(*old(table)), *row) == Err::<
                Map<Seq<u8>, CandidateView>,
                Fault,
            >(error@),
        },
{
    let record = artifact_record_from_row(&row.row)?;
    if table.contains_key(row.row.artifact_digest.as_slice()) {
        return Err(integrity("duplicate GC candidate escaped the primary key"));
    }
    table.insert(
        copy_bytes(row.row.artifact_digest.as_slice()),
        Candidate { record, marked_at: row.marked_at },
    );
    assert(candidate_views(*table) =~= candidate_views(*old(table)).insert(
        row.row.artifact_digest@,
        CandidateView { record: row_record(row.row), marked_at: row.marked_at },
    ));
    Ok(())
}

/// Loads the artifacts that nothing refers to.
#[verifier::loop_isolation(false)]
pub fn load_unreferenced_artifacts(rows: &Vec<CandidateRow>) -> (candidates: Result<
    Candidates,
    StoreError,
>)
    ensures
        match candidates {
            Ok(candidates) => candidate_table(rows@) == Ok::<Map<Seq<u8>, CandidateView>, Fault>(
                candidate_views(candidates),
            ),
            Err(error) => candidate_table(rows@) == Err::<Map<Seq<u8>, CandidateView>, Fault>(
                error@,
            ),
        },
{
    let ghost start = Map::<Seq<u8>, CandidateView>::empty();
    let ghost step = |table: Map<Seq<u8>, CandidateView>, row: CandidateRow|
        candidate_step(table, row);
    let mut candidates: Candidates = ByteMap::new();
    let mut i: usize = 0;
    assert(candidate_views(candidates) =~= start);
    assert(rows@.subrange(0, 0) =~= Seq::<CandidateRow>::empty());
    while i < rows.len()
        invariant
            i <= rows@.len(),
            folded(rows@.subrange(0, i as int), start, step) == Ok::<
                Map<Seq<u8>, CandidateView>,
                Fault,
            >(candidate_views(candidates)),
        decreases rows@.len() - i,
    {
        proof {
            lemma_folded_step(rows@, start, step, i as int);
        }
        match take_candidate(&mut candidates, &rows[i]) {
            Ok(_) => {},
            Err(error) => {
                proof {
                    lemma_folded_stops(rows@, start, step, i + 1);
                }
                return Err(error);
            },
        }
        i += 1;
    }
    assert(rows@.subrange(0, i as int) =~= rows@);
    Ok(candidates)
}

// ---------------------------------------------------------------------------------------------
// The artifact tree

/// The mathematical content of a list of records.
pub open spec fn record_list(records: Seq<ArtifactRecord>) -> Seq<RecordView> {
    records.map_values(|record: ArtifactRecord| record@)
}

/// The fault of a file whose record disagrees with the registered one.
pub open spec fn disagreement_fault(
    persisted: Map<Seq<u8>, RecordView>,
    record: RecordView,
) -> Option<Fault> {
    fault_when(
        persisted.contains_key(record.digest) && persisted[record.digest] != record,
        integrity_fault("artifact "@, record.digest, " CAS metadata disagrees with SQLite"@),
    )
}

/// The fault of registered artifacts and files that disagree.
pub open spec fn discovered_fault(
    persisted: Map<Seq<u8>, RecordView>,
    discovered: Seq<RecordView>,
) -> Option<Fault> {
    either_fault(
        first_fault(
            in_order(persisted.dom()),
            |digest: Seq<u8>| metadata_fault(persisted[digest]),
        ),
        first_fault(discovered, |record: RecordView| disagreement_fault(persisted, record)),
    )
}

/// Checks that the registered artifacts have valid records and that the files that were found
/// agree with them.
#[verifier::loop_isolation(false)]
pub fn validate_discovered_artifact_metadata(
    persisted: &Records,
    discovered: &Vec<ArtifactRecord>,
) -> (verdict: Result<(), StoreError>)
    ensures
        fault_of(verdict) == discovered_fault(
            record_views(*persisted),
            record_list(discovered@),
        ),
{
    let ghost views = record_views(*persisted);
    let ghost invalid = |digest: Seq<u8>| metadata_fault(views[digest]);
    let count: usize = persisted.len();
    let ghost ordered = in_order(views.dom());
    proof {
        assert(views.dom() =~= persisted@.dom());
        lemma_in_order(persisted.keys(), views.dom());
    }
    let mut i: usize = 0;
    assert(ordered.subrange(0, 0) =~= Seq::<Seq<u8>>::empty());
    while i < count
        invariant
            i <= count == ordered.len(),
            ordered == persisted.keys(),
            first_fault(ordered.subrange(0, i as int), invalid) is None,
        decreases count - i,
    {
        proof {
            lemma_first_fault_step(ordered, invalid, i as int);
        }
        let (digest, record) = persisted.entry_at(i);
        assert(views[digest@] == record@);
        match ArtifactStore::validate_record_metadata(record) {
            Ok(_) => {},
            Err(error) => {
                proof {
                    lemma_first_fault_stops(ordered, invalid, i + 1);
                }
                return Err(error);
            },
        }
        i += 1;
    }
    assert(ordered.subrange(0, i as int) =~= ordered);
    let ghost found = record_list(discovered@);
    let ghost disagrees = |record: RecordView| disagreement_fault(views, record);
    let mut j: usize = 0;
    assert(found.subrange(0, 0) =~= Seq::<RecordView>::empty());
    while j < discovered.len()
        invariant
            j <= discovered@.len() == found.len(),
            first_fault(found.subrange(0, j as int), disagrees) is None,
        decreases discovered@.len() - j,
    {
        proof {
            lemma_first_fault_step(found, disagrees, j as int);
        }
        let record = &discovered[j];
        let agrees = match persisted.get(record.digest.0.as_slice()) {
            Some(expected) => {
                assert(views.contains_key(record.digest@));
                same_record(expected, record)
            },
            None => {
                assert(!views.contains_key(record.digest@));
                true
            },
        };
        if !agrees {
            proof {
                lemma_first_fault_stops(found, disagrees, j + 1);
            }
            return Err(
                integrity_about(
                    "artifact ",
                    &record.digest.0,
                    " CAS metadata disagrees with SQLite",
                ),
            );
        }
        j += 1;
    }
    assert(found.subrange(0, j as int) =~= found);
    Ok(())
}

/// The files that are not registered, in order.
pub open spec fn orphans(
    persisted: Map<Seq<u8>, RecordView>,
    discovered: Seq<RecordView>,
) -> Seq<RecordView>
    decreases discovered.len(),
{
    if discovered.len() == 0 {
        Seq::empty()
    } else if persisted.contains_key(discovered.last().digest) {
        orphans(persisted, discovered.drop_last())
    } else {
        orphans(persisted, discovered.drop_last()).push(discovered.last())
    }
}

/// Lists the files that are not registered.
#[verifier::loop_isolation(false)]
pub fn find_orphans(persisted: &Records, discovered: &Vec<ArtifactRecord>) -> (found: Vec<
    ArtifactRecord,
>)
    ensures
        record_list(found@) == orphans(record_views(*persisted), record_list(discovered@)),
{
    let ghost views = record_views(*persisted);
    let ghost all = record_list(discovered@);
    let mut found: Vec<ArtifactRecord> = Vec::new();
    let mut i: usize = 0;
    assert(all.subrange(0, 0) =~= Seq::<RecordView>::empty());
    assert(record_list(found@) =~= orphans(views, all.subrange(0, 0)));
    while i < discovered.len()
        invariant
            i <= discovered@.len() == all.len(),
            record_list(found@) == orphans(views, all.subrange(0, i as int)),
        decreases discovered@.len() - i,
    {
        proof {
            let longer = all.subrange(0, i + 1);
            assert(longer.drop_last() =~= all.subrange(0, i as int));
            assert(longer.last() == discovered@[i as int]@);
            assert(views.contains_key(discovered@[i as int].digest@)
                == persisted@.contains_key(discovered@[i as int].digest@));
        }
        if !persisted.contains_key(discovered[i].digest.0.as_slice()) {
            let ghost before = found@;
            let copy = copy_record(&discovered[i]);
            found.push(copy);
            assert(record_list(found@) =~= record_list(before).push(discovered@[i as int]@));
        }
        i += 1;
    }
    assert(all.subrange(0, i as int) =~= all);
    found
}

// ---------------------------------------------------------------------------------------------
// Decisions

/// What is to be done with an artifact that nothing refers to.
#[derive(Clone, Copy, Debug, PartialEq, Eq, Structural)]
pub enum GcDecision {
    KeepNewMark,
    Wait,
    Delete,
    Mark,
}

/// Whether the time of grace of a mark is over.
pub open spec fn grace_is_over(marked_at_us: u64, as_of_us: u64, grace_period_us: u64) -> bool {
    let waited = if as_of_us < marked_at_us {
        0
    } else {
        as_of_us - marked_at_us
    };
    waited >= grace_period_us
}

/// The fault of a mark of a negative time.
pub open spec fn mark_fault(newly_marked: bool, marked_at: Option<i64>) -> Option<Fault> {
    if newly_marked {
        None
    } else {
        match marked_at {
            Some(marked_at) => unsigned_fault(marked_at, "gc_marked_at_us"@),
            None => None,
        }
    }
}

/// What is to be done with an artifact that nothing refers to: an artifact without a mark is
/// marked, one with a mark waits until its grace is over, and is then deleted.
pub open spec fn gc_decision(
    newly_marked: bool,
    marked_at: Option<i64>,
    as_of_us: u64,
    grace_period_us: u64,
) -> GcDecision {
    if newly_marked {
        GcDecision::KeepNewMark
    } else {
        match marked_at {
            None => GcDecision::Mark,
            Some(marked_at) => if grace_is_over(marked_at as u64, as_of_us, grace_period_us) {
                GcDecision::Delete
            } else {
                GcDecision::Wait
            },
        }
    }
}

/// Decides what is to be done with an artifact that nothing refers to.
pub fn decide(
    newly_marked: bool,
    marked_at: Option<i64>,
    as_of_us: u64,
    grace_period_us: u64,
) -> (decision: Result<GcDecision, StoreError>)
    ensures
        fault_of(decision) == mark_fault(newly_marked, marked_at),
        decision matches Ok(decision) ==> decision == gc_decision(
            newly_marked,
            marked_at,
            as_of_us,
            grace_period_us,
        ),
{
    if newly_marked {
        return Ok(GcDecision::KeepNewMark);
    }
    match marked_at {
        None => Ok(GcDecision::Mark),
        Some(marked_at) => {
            let marked_at_us: u64 = unsigned_integer(marked_at, "gc_marked_at_us")?;
            if as_of_us.saturating_sub(marked_at_us) < grace_period_us {
                Ok(GcDecision::Wait)
            } else {
                Ok(GcDecision::Delete)
            }
        },
    }
}

/// The fault of a write that did not change exactly one row.
pub open spec fn single_change_fault(operation: Seq<char>, actual: nat) -> Option<Fault> {
    fault_when(
        actual != 1,
        Fault::Integrity(
            operation + " changed "@ + decimal(actual) + " rows; expected exactly one"@,
        ),
    )
}

/// Confirms that a write changed exactly one row.
pub fn ensure_single_gc_change(operation: &str, actual: usize) -> (verdict: Result<
    (),
    StoreError,
>)
    ensures
        fault_of(verdict) == single_change_fault(operation@, actual as nat),
{
    if actual != 1 {
        let count = decimal_text(actual as u64);
        return Err(
            StoreError::Integrity(
                text4(operation, " changed ", count.as_str(), " rows; expected exactly one"),
            ),
        );
    }
    Ok(())
}

/// The fault of a mark that did not change exactly one row.
pub open spec fn settling_fault(decision: GcDecision, changed: nat) -> Option<Fault> {
    if decision == GcDecision::Mark {
        single_change_fault("artifact GC mark"@, changed)
    } else {
        None
    }
}

/// What came of a decision, by how many rows its write changed. A row that was taken up again in
/// the meantime is not deleted.
pub open spec fn settled(decision: GcDecision, changed: nat) -> GcAction {
    match decision {
        GcDecision::KeepNewMark => GcAction::Marked,
        GcDecision::Wait => GcAction::WaitingForGrace,
        GcDecision::Delete => if changed == 1 {
            GcAction::Deleted
        } else {
            GcAction::WaitingForGrace
        },
        GcDecision::Mark => GcAction::Marked,
    }
}

/// Settles a decision by how many rows its write changed.
pub fn settle(decision: GcDecision, changed: usize) -> (action: Result<GcAction, StoreError>)
    ensures
        fault_of(action) == settling_fault(decision, changed as nat),
        action matches Ok(action) ==> action == settled(decision, changed as nat),
{
    match decision {
        GcDecision::KeepNewMark => Ok(GcAction::Marked),
        GcDecision::Wait => Ok(GcAction::WaitingForGrace),
        GcDecision::Delete => {
            if changed == 1 {
                Ok(GcAction::Deleted)
            } else {
                Ok(GcAction::WaitingForGrace)
            }
        },
        GcDecision::Mark => {
            ensure_single_gc_change("artifact GC mark", changed)?;
            Ok(GcAction::Marked)
        },
    }
}

/// What a dry run reports for a decision.
pub open spec fn predicted(decision: GcDecision) -> GcAction {
    match decision {
        GcDecision::KeepNewMark => GcAction::WouldMark,
        GcDecision::Wait => GcAction::WaitingForGrace,
        GcDecision::Delete => GcAction::WouldDelete,
        GcDecision::Mark => GcAction::WouldMark,
    }
}

/// Nothing is deleted before its grace is over: an artifact that is to be deleted was marked in an
/// earlier collection, at least the time of grace ago, which is at least a day.
pub proof fn law_nothing_is_deleted_before_its_grace_is_over(
    newly_marked: bool,
    marked_at: Option<i64>,
    as_of_us: u64,
    grace_period_us: u64,
)
    requires
        collection_fault(as_of_us, grace_period_us) is None,
        mark_fault(newly_marked, marked_at) is None,
        gc_decision(newly_marked, marked_at, as_of_us, grace_period_us) == GcDecision::Delete,
    ensures
        !newly_marked,
        marked_at matches Some(mark) && 0 <= mark && mark + grace_period_us <= as_of_us && mark
            + MICROSECONDS_PER_DAY <= as_of_us,
{
}

/// A file that came into the store without being registered is not lost: the collection that finds
/// it registers and marks it, and never deletes it in the same run.
pub proof fn law_orphan_is_marked_before_it_is_deleted(
    marked_at: Option<i64>,
    as_of_us: u64,
    grace_period_us: u64,
)
    ensures
        gc_decision(true, marked_at, as_of_us, grace_period_us) == GcDecision::KeepNewMark,
{
}

// ---------------------------------------------------------------------------------------------
// Dry runs

/// What a dry run reports for an artifact that nothing refers to.
pub open spec fn dry_entry(
    digest: Seq<u8>,
    candidate: CandidateView,
    as_of_us: u64,
    grace_period_us: u64,
) -> EntryView {
    EntryView {
        digest,
        byte_len: candidate.record.byte_len,
        action: predicted(
            gc_decision(false, candidate.marked_at, as_of_us, grace_period_us),
        ),
    }
}

/// What a dry run reports for the artifacts that nothing refers to.
pub open spec fn dry_entries(
    candidates: Map<Seq<u8>, CandidateView>,
    as_of_us: u64,
    grace_period_us: u64,
) -> Map<Seq<u8>, EntryView> {
    Map::new(
        |digest: Seq<u8>| candidates.contains_key(digest),
        |digest: Seq<u8>| dry_entry(digest, candidates[digest], as_of_us, grace_period_us),
    )
}

/// Entries with files that are not registered: a collection would mark them.
pub open spec fn with_orphans(
    entries: Map<Seq<u8>, EntryView>,
    found: Seq<RecordView>,
) -> Map<Seq<u8>, EntryView>
    decreases found.len(),
{
    if found.len() == 0 {
        entries
    } else {
        with_orphans(entries, found.drop_last()).insert(
            found.last().digest,
            EntryView {
                digest: found.last().digest,
                byte_len: found.last().byte_len,
                action: GcAction::WouldMark,
            },
        )
    }
}

/// What a dry run reports, by digest.
pub open spec fn dry_run(
    persisted: Map<Seq<u8>, RecordView>,
    candidates: Map<Seq<u8>, CandidateView>,
    discovered: Seq<RecordView>,
    as_of_us: u64,
    grace_period_us: u64,
) -> Map<Seq<u8>, EntryView> {
    with_orphans(
        dry_entries(candidates, as_of_us, grace_period_us),
        orphans(persisted, discovered),
    )
}

/// The mathematical content of entries by digest.
pub open spec fn entry_views(entries: ByteMap<GcEntry>) -> Map<Seq<u8>, EntryView> {
    entries@.map_values(|entry: GcEntry| entry@)
}

/// The fault of the first mark of a negative time.
pub open spec fn marks_fault(candidates: Map<Seq<u8>, CandidateView>) -> Option<Fault> {
    first_fault(
        in_order(candidates.dom()),
        |digest: Seq<u8>| mark_fault(false, candidates[digest].marked_at),
    )
}

fn predict(decision: GcDecision) -> (action: GcAction)
    ensures
        action == predicted(decision),
{
    match decision {
        GcDecision::KeepNewMark => GcAction::WouldMark,
        GcDecision::Wait => GcAction::WaitingForGrace,
        GcDecision::Delete => GcAction::WouldDelete,
        GcDecision::Mark => GcAction::WouldMark,
    }
}

#[verifier::loop_isolation(false)]
fn collect_dry_entries(candidates: &Candidates, as_of_us: u64, grace_period_us: u64) -> (entries:
    Result<ByteMap<GcEntry>, StoreError>)
    requires
        forall|digest: Seq<u8>|
            #[trigger] candidate_views(*candidates).contains_key(digest) ==> candidate_views(
                *candidates,
            )[digest].record.digest == digest,
    ensures
        fault_of(entries) == marks_fault(candidate_views(*candidates)),
        entries matches Ok(entries) ==> entry_views(entries) == dry_entries(
            candidate_views(*candidates),
            as_of_us,
            grace_period_us,
        ),
{
    let ghost views = candidate_views(*candidates);
    let ghost faulty = |digest: Seq<u8>| mark_fault(false, views[digest].marked_at);
    let ghost all = dry_entries(views, as_of_us, grace_period_us);
    let count: usize = candidates.len();
    let ghost ordered = in_order(views.dom());
    proof {
        assert(views.dom() =~= candidates@.dom());
        lemma_in_order(candidates.keys(), views.dom());
    }
    let mut entries: ByteMap<GcEntry> = ByteMap::new();
    let mut i: usize = 0;
    assert(ordered.subrange(0, 0) =~= Seq::<Seq<u8>>::empty());
    while i < count
        invariant
            i <= count == ordered.len(),
            ordered == candidates.keys(),
            first_fault(ordered.subrange(0, i as int), faulty) is None,
            forall|digest: Seq<u8>|
                #[trigger] entry_views(entries).contains_key(digest) <==> ordered.subrange(
                    0,
                    i as int,
                ).contains(digest),
            forall|digest: Seq<u8>|
                #[trigger] entry_views(entries).contains_key(digest) ==> entry_views(
                    entries,
                )[digest] == all[digest],
        decreases count - i,
    {
        proof {
            lemma_first_fault_step(ordered, faulty, i as int);
        }
        let (digest, candidate) = candidates.entry_at(i);
        assert(views.contains_key(digest@));
        assert(views[digest@].record == candidate.record@);
        let decision = match decide(false, candidate.marked_at, as_of_us, grace_period_us) {
            Ok(decision) => decision,
            Err(error) => {
                proof {
                    lemma_first_fault_stops(ordered, faulty, i + 1);
                }
                return Err(error);
            },
        };
        let entry = GcEntry {
            digest: candidate.record.digest,
            byte_len: candidate.record.byte_len,
            action: predict(decision),
        };
        let ghost before = entry_views(entries);
        entries.insert(copy_bytes(digest.as_slice()), entry);
        proof {
            let shorter = ordered.subrange(0, i as int);
            let longer = ordered.subrange(0, i + 1);
            assert(longer =~= shorter.push(digest@));
            assert(entry_views(entries) =~= before.insert(digest@, entry@));
            assert(entry@ == all[digest@]);
            assert forall|other: Seq<u8>|
                #[trigger] entry_views(entries).contains_key(other) <==> longer.contains(
                    other,
                ) by {
                if longer.contains(other) {
                    let k = longer.index_of(other);
                    if k < i {
                        assert(shorter[k] == other);
                    }
                }
                if shorter.contains(other) {
                    assert(longer[shorter.index_of(other)] == other);
                }
                if other == digest@ {
                    assert(longer[i as int] == other);
                }
            }
        }
        i += 1;
    }
    proof {
        assert(ordered.subrange(0, i as int) =~= ordered);
        assert forall|digest: Seq<u8>|
            entry_views(entries).contains_key(digest) <==> all.contains_key(digest) by {
            assert(candidates@.contains_key(digest) <==> candidates.keys().contains(digest));
        }
        assert(entry_views(entries) =~= all);
    }
    Ok(entries)
}

#[verifier::loop_isolation(false)]
fn add_orphans(entries: ByteMap<GcEntry>, found: &Vec<ArtifactRecord>) -> (more: ByteMap<GcEntry>)
    ensures
        entry_views(more) == with_orphans(entry_views(entries), record_list(found@)),
{
    let ghost start = entry_views(entries);
    let ghost all = record_list(found@);
    let mut more = entries;
    let mut i: usize = 0;
    assert(all.subrange(0, 0) =~= Seq::<RecordView>::empty());
    while i < found.len()
        invariant
            i <= found@.len() == all.len(),
            entry_views(more) == with_orphans(start, all.subrange(0, i as int)),
        decreases found@.len() - i,
    {
        let entry = GcEntry {
            digest: found[i].digest,
            byte_len: found[i].byte_len,
            action: GcAction::WouldMark,
        };
        let ghost before = entry_views(more);
        more.insert(copy_bytes(found[i].digest.0.as_slice()), entry);
        proof {
            let longer = all.subrange(0, i + 1);
            assert(longer.drop_last() =~= all.subrange(0, i as int));
            assert(longer.last() == found@[i as int]@);
            assert(entry_views(more) =~= before.insert(found@[i as int].digest@, entry@));
        }
        i += 1;
    }
    assert(all.subrange(0, i as int) =~= all);
    more
}

/// The mathematical content of a list of entries.
pub open spec fn entry_list(entries: Seq<GcEntry>) -> Seq<EntryView> {
    entries.map_values(|entry: GcEntry| entry@)
}

#[verifier::loop_isolation(false)]
fn list_entries(entries: &ByteMap<GcEntry>) -> (list: Vec<GcEntry>)
    ensures
        entry_list(list@) == in_order(entry_views(*entries).dom()).map_values(
            |digest: Seq<u8>| entry_views(*entries)[digest],
        ),
{
    let ghost views = entry_views(*entries);
    let count: usize = entries.len();
    let ghost ordered = in_order(views.dom());
    proof {
        assert(views.dom() =~= entries@.dom());
        lemma_in_order(entries.keys(), views.dom());
    }
    let mut list: Vec<GcEntry> = Vec::new();
    let mut i: usize = 0;
    while i < count
        invariant
            i <= count == ordered.len(),
            ordered == entries.keys(),
            list@.len() == i,
            forall|k: int| 0 <= k < i ==> (#[trigger] list@[k])@ == views[ordered[k]],
        decreases count - i,
    {
        let (digest, entry) = entries.entry_at(i);
        assert(views[digest@] == entry@);
        list.push(*entry);
        i += 1;
    }
    assert(entry_list(list@) =~= ordered.map_values(|digest: Seq<u8>| views[digest]));
    list
}

/// The fault of a dry run.
pub open spec fn dry_run_fault(
    rows: Seq<ArtifactFileRow>,
    candidate_rows: Seq<CandidateRow>,
    discovered: Seq<RecordView>,
) -> Option<Fault> {
    match record_table(rows) {
        Err(fault) => Some(fault),
        Ok(persisted) => either_fault(
            discovered_fault(persisted, discovered),
            match candidate_table(candidate_rows) {
                Err(fault) => Some(fault),
                Ok(candidates) => marks_fault(candidates),
            },
        ),
    }
}

proof fn lemma_candidates_keyed(rows: Seq<CandidateRow>, digest: Seq<u8>)
    requires
        candidate_table(rows) is Ok,
        candidate_table(rows)->Ok_0.contains_key(digest),
    ensures
        candidate_table(rows)->Ok_0[digest].record.digest == digest,
    decreases rows.len(),
{
    if rows.len() > 0 {
        let step = |table: Map<Seq<u8>, CandidateView>, row: CandidateRow|
            candidate_step(table, row);
        assert(candidate_table(rows.drop_last()) is Ok);
        if rows.last().row.artifact_digest@ != digest {
            lemma_candidates_keyed(rows.drop_last(), digest);
        }
    }
}

/// Reports what a collection would do, by digest: what is not referred to is marked, waits or is
/// deleted, and files that are not registered are marked.
pub fn gc_dry_run_entries(
    rows: &Vec<ArtifactFileRow>,
    candidate_rows: &Vec<CandidateRow>,
    discovered: &Vec<ArtifactRecord>,
    as_of_us: u64,
    grace_period_us: u64,
) -> (entries: Result<Vec<GcEntry>, StoreError>)
    ensures
        fault_of(entries) == dry_run_fault(rows@, candidate_rows@, record_list(discovered@)),
        entries matches Ok(entries) ==> ({
            let report = dry_run(
                record_table(rows@)->Ok_0,
                candidate_table(candidate_rows@)->Ok_0,
                record_list(discovered@),
                as_of_us,
                grace_period_us,
            );
            entry_list(entries@) == in_order(report.dom()).map_values(
                |digest: Seq<u8>| report[digest],
            )
        }),
{
    let persisted = load_all_artifact_records(rows)?;
    validate_discovered_artifact_metadata(&persisted, discovered)?;
    let candidates = load_unreferenced_artifacts(candidate_rows)?;
    proof {
        assert forall|digest: Seq<u8>|
            #[trigger] candidate_views(candidates).contains_key(digest) implies candidate_views(
            candidates,
        )[digest].record.digest == digest by {
            lemma_candidates_keyed(candidate_rows@, digest);
        }
    }
    let entries = collect_dry_entries(&candidates, as_of_us, grace_period_us)?;
    let found = find_orphans(&persisted, discovered);
    let all = add_orphans(entries, &found);
    Ok(list_entries(&all))
}

proof fn lemma_orphans_kept(
    entries: Map<Seq<u8>, EntryView>,
    found: Seq<RecordView>,
    digest: Seq<u8>,
)
    requires
        forall|i: int| 0 <= i < found.len() ==> (#[trigger] found[i]).digest != digest,
    ensures
        with_orphans(entries, found).contains_key(digest) == entries.contains_key(digest),
        entries.contains_key(digest) ==> with_orphans(entries, found)[digest] == entries[digest],
    decreases found.len(),
{
    if found.len() > 0 {
        let shorter = found.drop_last();
        assert forall|i: int| 0 <= i < shorter.len() implies (#[trigger] shorter[i]).digest
            != digest by {
            assert(shorter[i] == found[i]);
        }
        lemma_orphans_kept(entries, shorter, digest);
        assert(found[found.len() - 1].digest != digest);
    }
}

proof fn lemma_orphans_unregistered(
    persisted: Map<Seq<u8>, RecordView>,
    discovered: Seq<RecordView>,
)
    ensures
        forall|i: int|
            0 <= i < orphans(persisted, discovered).len() ==> !persisted.contains_key(
                (#[trigger] orphans(persisted, discovered)[i]).digest,
            ),
    decreases discovered.len(),
{
    if discovered.len() > 0 {
        lemma_orphans_unregistered(persisted, discovered.drop_last());
        let shorter = orphans(persisted, discovered.drop_last());
        let longer = orphans(persisted, discovered);
        assert forall|i: int| 0 <= i < longer.len() implies !persisted.contains_key(
            (#[trigger] longer[i]).digest,
        ) by {
            if i < shorter.len() {
                assert(longer[i] == shorter[i]);
            }
        }
    }
}

/// A dry run predicts the collection: for every registered artifact that nothing refers to it
/// reports what the collection at the same time would decide.
pub proof fn law_dry_run_predicts_the_collection(
    persisted: Map<Seq<u8>, RecordView>,
    candidates: Map<Seq<u8>, CandidateView>,
    discovered: Seq<RecordView>,
    as_of_us: u64,
    grace_period_us: u64,
    digest: Seq<u8>,
)
    requires
        candidates.contains_key(digest),
        persisted.contains_key(digest),
    ensures
        ({
            let report = dry_run(persisted, candidates, discovered, as_of_us, grace_period_us);
            &&& report.contains_key(digest)
            &&& report[digest].action == predicted(
                gc_decision(false, candidates[digest].marked_at, as_of_us, grace_period_us),
            )
        }),
{
    lemma_orphans_unregistered(persisted, discovered);
    let found = orphans(persisted, discovered);
    assert forall|i: int| 0 <= i < found.len() implies (#[trigger] found[i]).digest != digest by {
        assert(!persisted.contains_key(found[i].digest));
    }
    lemma_orphans_kept(dry_entries(candidates, as_of_us, grace_period_us), found, digest);
}

// ---------------------------------------------------------------------------------------------
// Writing collections

/// A collection that writes: the artifacts that nothing refers to, those that were found and
/// marked just now, and what came of the ones that it has looked at so far.
pub struct Collection {
    pub candidates: Candidates,
    pub newly_marked: ByteSet,
    pub as_of_us: u64,
    pub grace_period_us: u64,
    pub changes: Vec<usize>,
    pub entries: Vec<GcEntry>,
}

/// What a collection decides about an artifact that nothing refers to.
pub open spec fn collection_decision(collection: Collection, digest: Seq<u8>) -> GcDecision {
    gc_decision(
        collection.newly_marked@.contains(digest),
        candidate_views(collection.candidates)[digest].marked_at,
        collection.as_of_us,
        collection.grace_period_us,
    )
}

/// The fault of what a collection found about an artifact that nothing refers to.
pub open spec fn candidate_mark_fault(collection: Collection, digest: Seq<u8>) -> Option<Fault> {
    mark_fault(
        collection.newly_marked@.contains(digest),
        candidate_views(collection.candidates)[digest].marked_at,
    )
}

/// What a collection reports for an artifact whose write changed so many rows.
pub open spec fn collected_entry(
    collection: Collection,
    digest: Seq<u8>,
    changed: nat,
) -> EntryView {
    let record = candidate_views(collection.candidates)[digest].record;
    EntryView {
        digest: record.digest,
        byte_len: record.byte_len,
        action: settled(collection_decision(collection, digest), changed),
    }
}

/// What a collection reports where the writes for its artifacts, by ascending digest, changed so
/// many rows each.
pub open spec fn collected_entries(collection: Collection, changes: Seq<usize>) -> Seq<EntryView> {
    Seq::new(
        changes.len(),
        |i: int| collected_entry(collection, collection.candidates.keys()[i], changes[i] as nat),
    )
}

impl Collection {
    /// Whether the entries are those of the artifacts that were looked at so far.
    pub open spec fn wf(self) -> bool {
        &&& self.changes@.len() <= self.candidates.keys().len()
        &&& entry_list(self.entries@) == collected_entries(self, self.changes@)
    }

    /// A collection that has looked at nothing yet.
    pub fn new(
        candidates: Candidates,
        newly_marked: ByteSet,
        as_of_us: u64,
        grace_period_us: u64,
    ) -> (collection: Self)
        ensures
            collection.wf(),
            collection.candidates == candidates,
            collection.newly_marked == newly_marked,
            collection.as_of_us == as_of_us,
            collection.grace_period_us == grace_period_us,
            collection.changes@.len() == 0,
    {
        let collection = Collection {
            candidates,
            newly_marked,
            as_of_us,
            grace_period_us,
            changes: Vec::new(),
            entries: Vec::new(),
        };
        assert(entry_list(collection.entries@) =~= collected_entries(
            collection,
            collection.changes@,
        ));
        collection
    }

    /// The artifact to look at next and what is to be done with it, while there is one.
    pub fn next_decision(&self) -> (next: Result<Option<(&Candidate, GcDecision)>, StoreError>)
        ensures
            ({
                let place = self.changes@.len() as int;
                let keys = self.candidates.keys();
                if place < keys.len() {
                    &&& fault_of(next) == candidate_mark_fault(*self, keys[place])
                    &&& next matches Ok(next) ==> next matches Some((candidate, decision)) && *candidate
                        == self.candidates@[keys[place]] && decision == collection_decision(
                        *self,
                        keys[place],
                    )
                } else {
                    next matches Ok(next) && next is None
                }
            }),
    {
        if self.changes.len() >= self.candidates.len() {
            return Ok(None);
        }
        let (digest, candidate) = self.candidates.entry_at(self.changes.len());
        let decision = decide(
            self.newly_marked.contains(digest.as_slice()),
            candidate.marked_at,
            self.as_of_us,
            self.grace_period_us,
        )?;
        Ok(Some((candidate, decision)))
    }

    /// Takes in how many rows the write for the next artifact changed. Reports what came of it.
    pub fn take(&mut self, changed: usize) -> (action: Result<GcAction, StoreError>)
        requires
            old(self).wf(),
            old(self).changes@.len() < old(self).candidates.keys().len(),
        ensures
            final(self).wf(),
            final(self).candidates == old(self).candidates,
            final(self).newly_marked == old(self).newly_marked,
            final(self).as_of_us == old(self).as_of_us,
            final(self).grace_period_us == old(self).grace_period_us,
            ({
                let digest = old(self).candidates.keys()[old(self).changes@.len() as int];
                let decision = collection_decision(*old(self), digest);
                &&& fault_of(action) == either_fault(
                    candidate_mark_fault(*old(self), digest),
                    settling_fault(decision, changed as nat),
                )
                &&& match action {
                    Ok(action) => action == settled(decision, changed as nat)
                        && final(self).changes@ == old(self).changes@.push(changed),
                    Err(_) => final(self).changes@ == old(self).changes@,
                }
            }),
    {
        let (digest, candidate) = self.candidates.entry_at(self.changes.len());
        let decision = decide(
            self.newly_marked.contains(digest.as_slice()),
            candidate.marked_at,
            self.as_of_us,
            self.grace_period_us,
        )?;
        let action = settle(decision, changed)?;
        let entry = GcEntry {
            digest: candidate.record.digest,
            byte_len: candidate.record.byte_len,
            action,
        };
        self.entries.push(entry);
        self.changes.push(changed);
        proof {
            let before = collected_entries(*old(self), old(self).changes@);
            assert(entry_list(self.entries@) =~= entry_list(old(self).entries@).push(entry@));
            assert(collected_entries(*self, self.changes@) =~= before.push(entry@));
        }
        Ok(action)
    }
}

/// A collection does what a dry run at the same time predicts: for an artifact that was not found
/// just now and whose row nobody else has changed, it reports the deed for the prediction.
pub proof fn law_collection_does_what_the_dry_run_predicts(collection: Collection, digest: Seq<u8>)
    requires
        candidate_views(collection.candidates).contains_key(digest),
        !collection.newly_marked@.contains(digest),
    ensures
        collected_entry(collection, digest, 1).action == (match dry_entry(
            digest,
            candidate_views(collection.candidates)[digest],
            collection.as_of_us,
            collection.grace_period_us,
        ).action {
            GcAction::WouldMark => GcAction::Marked,
            GcAction::WouldDelete => GcAction::Deleted,
            action => action,
        }),
{
}

impl Keyed for ArtifactRecord {
    open spec fn key(value: RecordView) -> Seq<u8> {
        value.digest
    }

    fn key_bytes(&self) -> (key: &[u8]) {
        self.digest.0.as_slice()
    }
}

/// Orders the records of files by digest.
pub fn order_records(records: Vec<ArtifactRecord>) -> (ordered: Vec<ArtifactRecord>)
    ensures
        record_list(ordered@).to_multiset() == record_list(records@).to_multiset(),
        in_key_order(record_list(ordered@), |record: RecordView| record.digest),
{
    let ghost before = records@;
    let ordered = sort_by_key(records);
    proof {
        assert(views(before) =~= record_list(before));
        assert(views(ordered@) =~= record_list(ordered@));
        let list = record_list(ordered@);
        let key = |record: RecordView| record.digest;
        assert forall|i: int, j: int| 0 <= i < j < list.len() implies key(#[trigger] list[i])
            == key(#[trigger] list[j]) || precedes(key(list[i]), key(list[j])) by {
            let other = |record: RecordView| <ArtifactRecord as Keyed>::key(record);
            assert(other(list[i]) == other(list[j]) || precedes(other(list[i]), other(list[j])));
        }
    }
    ordered
}

/// A collection begins exactly with a grace of at least a day and a time that fits a column.
pub proof fn law_grace_is_at_least_a_day(as_of_us: u64, grace_period_us: u64)
    ensures
        collection_fault(as_of_us, grace_period_us) is None <==> grace_period_us >= 86_400_000_000
            && as_of_us <= i64::MAX,
{
}

/// An artifact is deleted exactly where it was marked before this collection and has been so for
/// the whole grace, is marked exactly where it had no mark, and waits otherwise.
pub proof fn law_artifact_is_deleted_exactly_after_its_grace(
    newly_marked: bool,
    marked_at: Option<i64>,
    as_of_us: u64,
    grace_period_us: u64,
)
    requires
        mark_fault(newly_marked, marked_at) is None,
        grace_period_us > 0,
    ensures
        ({
            let decision = gc_decision(newly_marked, marked_at, as_of_us, grace_period_us);
            &&& decision is Delete <==> !newly_marked && marked_at is Some && marked_at->0
                + grace_period_us <= as_of_us
            &&& decision is Mark <==> !newly_marked && marked_at is None
            &&& decision is KeepNewMark <==> newly_marked
            &&& decision is Wait <==> !newly_marked && marked_at is Some && marked_at->0
                + grace_period_us > as_of_us
        }),
{
}

/// What is reported was done: an artifact is reported as deleted exactly where it was to be deleted
/// and one row went, and as marked exactly where it was to be marked or has its mark from this
/// collection.
pub proof fn law_report_says_what_was_done(decision: GcDecision, changed: nat)
    ensures
        settled(decision, changed) is Deleted <==> decision is Delete && changed == 1,
        settled(decision, changed) is Marked <==> decision is Mark || decision is KeepNewMark,
        settled(decision, changed) is WaitingForGrace <==> decision is Wait || (decision is Delete
            && changed != 1),
        settling_fault(decision, changed) is None <==> (decision is Mark ==> changed == 1),
        predicted(decision) is WouldDelete <==> decision is Delete,
        predicted(decision) is WouldMark <==> decision is Mark || decision is KeepNewMark,
        predicted(decision) is WaitingForGrace <==> decision is Wait,
{
}

/// The orphans are the discovered artifacts without a row, each as it was discovered.
pub proof fn law_orphans_have_no_row(
    persisted: Map<Seq<u8>, RecordView>,
    discovered: Seq<RecordView>,
    record: RecordView,
)
    ensures
        orphans(persisted, discovered).contains(record) <==> discovered.contains(record)
            && !persisted.contains_key(record.digest),
    decreases discovered.len(),
{
    let found = orphans(persisted, discovered);
    if discovered.len() > 0 {
        let shorter = discovered.drop_last();
        let earlier = orphans(persisted, shorter);
        let last = discovered.last();
        law_orphans_have_no_row(persisted, shorter, record);
        assert(discovered == shorter.push(last));
        assert(discovered.contains(record) <==> shorter.contains(record) || record == last) by {
            if shorter.contains(record) {
                let i = shorter.index_of(record);
                assert(discovered[i] == record);
            }
            if record == last {
                assert(discovered[discovered.len() - 1] == record);
            }
            if discovered.contains(record) {
                let i = discovered.index_of(record);
                if i < shorter.len() {
                    assert(shorter[i] == record);
                }
            }
        }
        if !persisted.contains_key(last.digest) {
            assert(found == earlier.push(last));
            assert(found.contains(record) <==> earlier.contains(record) || record == last) by {
                if earlier.contains(record) {
                    let i = earlier.index_of(record);
                    assert(found[i] == record);
                }
                if record == last {
                    assert(found[found.len() - 1] == record);
                }
                if found.contains(record) {
                    let i = found.index_of(record);
                    if i < earlier.len() {
                        assert(earlier[i] == record);
                    }
                }
            }
        }
    }
}

/// A dry run reports exactly the artifacts that nothing refers to and those without a row.
pub proof fn law_dry_run_reports_every_candidate_and_orphan(
    persisted: Map<Seq<u8>, RecordView>,
    candidates: Map<Seq<u8>, CandidateView>,
    discovered: Seq<RecordView>,
    as_of_us: u64,
    grace_period_us: u64,
    digest: Seq<u8>,
)
    ensures
        ({
            let entries = dry_run(persisted, candidates, discovered, as_of_us, grace_period_us);
            &&& entries.contains_key(digest) <==> candidates.contains_key(digest) || exists|
                record: RecordView,
            |
                #[trigger] discovered.contains(record) && record.digest == digest
                    && !persisted.contains_key(digest)
            &&& entries.contains_key(digest) ==> entries[digest].digest == digest
            &&& candidates.contains_key(digest) && persisted.contains_key(digest) ==> {
                &&& entries[digest].byte_len == candidates[digest].record.byte_len
                &&& entries[digest].action is WouldMark <==> candidates[digest].marked_at is None
                &&& entries[digest].action is WouldDelete ==> candidates[digest].marked_at is Some
            }
            &&& entries.contains_key(digest) && !candidates.contains_key(digest)
                ==> entries[digest].action is WouldMark
        }),
{
    let entries = dry_entries(candidates, as_of_us, grace_period_us);
    let found = orphans(persisted, discovered);
    lemma_orphans_are_entered(entries, found, digest);
    assert forall|record: RecordView| found.contains(record) <==> (#[trigger] discovered.contains(
        record,
    ) && !persisted.contains_key(record.digest)) by {
        law_orphans_have_no_row(persisted, discovered, record);
    }
    if exists|i: int| 0 <= i < found.len() && (#[trigger] found[i]).digest == digest {
        let i = choose|i: int| 0 <= i < found.len() && (#[trigger] found[i]).digest == digest;
        assert(found.contains(found[i]));
        law_orphans_have_no_row(persisted, discovered, found[i]);
        assert(discovered.contains(found[i]));
    }
    if exists|record: RecordView|
        #[trigger] discovered.contains(record) && record.digest == digest
            && !persisted.contains_key(digest) {
        let record = choose|record: RecordView|
            #[trigger] discovered.contains(record) && record.digest == digest
                && !persisted.contains_key(digest);
        law_orphans_have_no_row(persisted, discovered, record);
        let i = found.index_of(record);
        assert(found[i].digest == digest);
    }
}

proof fn lemma_orphans_are_entered(
    entries: Map<Seq<u8>, EntryView>,
    found: Seq<RecordView>,
    digest: Seq<u8>,
)
    ensures
        with_orphans(entries, found).contains_key(digest) <==> entries.contains_key(digest)
            || exists|i: int| 0 <= i < found.len() && (#[trigger] found[i]).digest == digest,
        (forall|i: int| 0 <= i < found.len() ==> (#[trigger] found[i]).digest != digest)
            && entries.contains_key(digest) ==> with_orphans(entries, found)[digest]
            == entries[digest],
        (exists|i: int| 0 <= i < found.len() && (#[trigger] found[i]).digest == digest) ==> {
            &&& with_orphans(entries, found)[digest].digest == digest
            &&& with_orphans(entries, found)[digest].action is WouldMark
        },
    decreases found.len(),
{
    if found.len() > 0 {
        let shorter = found.drop_last();
        let last = found.len() - 1;
        lemma_orphans_are_entered(entries, shorter, digest);
        assert(found.last() == found[last]);
        assert forall|i: int| 0 <= i < shorter.len() implies #[trigger] shorter[i] == found[i] by {}
        assert forall|i: int| 0 <= i < last implies #[trigger] found[i] == shorter[i] by {}
    }
}

/// Artifact files and rows agree exactly where the metadata of every row are accepted and no
/// discovered file has other metadata than its row.
pub proof fn law_files_agree_with_their_rows(
    persisted: Map<Seq<u8>, RecordView>,
    discovered: Seq<RecordView>,
)
    ensures
        discovered_fault(persisted, discovered) is None <==> {
            &&& forall|i: int|
                0 <= i < in_order(persisted.dom()).len() ==> metadata_fault(
                    persisted[#[trigger] in_order(persisted.dom())[i]],
                ) is None
            &&& forall|i: int|
                0 <= i < discovered.len() && persisted.contains_key(
                    (#[trigger] discovered[i]).digest,
                ) ==> persisted[discovered[i].digest] == discovered[i]
        },
{
    let unfit = |digest: Seq<u8>| metadata_fault(persisted[digest]);
    let other = |record: RecordView| disagreement_fault(persisted, record);
    crate::folding::lemma_no_first_fault(in_order(persisted.dom()), unfit);
    crate::folding::lemma_no_first_fault(discovered, other);
    if discovered_fault(persisted, discovered) is None {
        assert forall|i: int| 0 <= i < in_order(persisted.dom()).len() implies metadata_fault(
            persisted[#[trigger] in_order(persisted.dom())[i]],
        ) is None by {
            assert(unfit(in_order(persisted.dom())[i]) is None);
        }
        assert forall|i: int|
            0 <= i < discovered.len() && persisted.contains_key(
                (#[trigger] discovered[i]).digest,
            ) implies persisted[discovered[i].digest] == discovered[i] by {
            assert(other(discovered[i]) is None);
        }
    }
}

/// Artifact rows are indexed exactly: one more is taken where it can be read and its artifact is not
/// there yet, and then stands under its digest.
pub proof fn law_artifact_rows_are_indexed_exactly(rows: Seq<ArtifactFileRow>, row: ArtifactFileRow)
    ensures
        record_table(Seq::<ArtifactFileRow>::empty()) == Ok::<_, Fault>(
            Map::<Seq<u8>, RecordView>::empty(),
        ),
        record_table(rows.push(row)) is Ok <==> {
            &&& record_table(rows) matches Ok(table)
            &&& row.artifact_digest@.len() == 32
            &&& row.byte_len >= 0
            &&& !table.contains_key(row.artifact_digest@)
        },
        record_table(rows.push(row)) matches Ok(after) ==> {
            &&& after.remove(row.artifact_digest@) == record_table(rows)->Ok_0
            &&& after.contains_key(row.artifact_digest@)
            &&& after[row.artifact_digest@].digest == row.artifact_digest@
            &&& after[row.artifact_digest@].byte_len == row.byte_len
            &&& after[row.artifact_digest@].relative_path == row.relative_path@
        },
{
    let step = |table: Map<Seq<u8>, RecordView>, row: ArtifactFileRow| record_step(table, row);
    crate::folding::lemma_folded_push(rows, row, Map::<Seq<u8>, RecordView>::empty(), step);
    if let Ok(after) = record_table(rows.push(row)) {
        assert(after.remove(row.artifact_digest@) =~= record_table(rows)->Ok_0);
    }
}

/// Candidates are indexed exactly: one more is taken where its row can be read and it is not there
/// yet, and then stands under its digest with its mark.
pub proof fn law_collection_candidates_are_indexed_exactly(
    rows: Seq<CandidateRow>,
    row: CandidateRow,
)
    ensures
        candidate_table(Seq::<CandidateRow>::empty()) == Ok::<_, Fault>(
            Map::<Seq<u8>, CandidateView>::empty(),
        ),
        candidate_table(rows.push(row)) is Ok <==> {
            &&& candidate_table(rows) matches Ok(table)
            &&& row.row.artifact_digest@.len() == 32
            &&& row.row.byte_len >= 0
            &&& !table.contains_key(row.row.artifact_digest@)
        },
        candidate_table(rows.push(row)) matches Ok(after) ==> {
            let digest = row.row.artifact_digest@;
            &&& after.remove(digest) == candidate_table(rows)->Ok_0
            &&& after.contains_key(digest)
            &&& after[digest].record.digest == digest
            &&& after[digest].record.byte_len == row.row.byte_len
            &&& after[digest].record.relative_path == row.row.relative_path@
            &&& after[digest].marked_at == row.marked_at
        },
{
    let step = |table: Map<Seq<u8>, CandidateView>, row: CandidateRow| candidate_step(table, row);
    crate::folding::lemma_folded_push(rows, row, Map::<Seq<u8>, CandidateView>::empty(), step);
    if let Ok(after) = candidate_table(rows.push(row)) {
        assert(after.remove(row.row.artifact_digest@) =~= candidate_table(rows)->Ok_0);
    }
}

/// A dry run is made exactly where both tables can be read, files and rows agree and no mark is
/// negative.
pub proof fn law_dry_run_is_made_exactly(
    rows: Seq<ArtifactFileRow>,
    candidate_rows: Seq<CandidateRow>,
    discovered: Seq<RecordView>,
)
    ensures
        dry_run_fault(rows, candidate_rows, discovered) is None <==> {
            &&& record_table(rows) matches Ok(persisted)
            &&& discovered_fault(persisted, discovered) is None
            &&& candidate_table(candidate_rows) matches Ok(candidates)
            &&& forall|i: int|
                0 <= i < in_order(candidates.dom()).len() ==> {
                    let digest = #[trigger] in_order(candidates.dom())[i];
                    candidates[digest].marked_at matches Some(marked_at) ==> marked_at >= 0
                }
        },
{
    if let Ok(candidates) = candidate_table(candidate_rows) {
        let unread = |digest: Seq<u8>| mark_fault(false, candidates[digest].marked_at);
        crate::folding::lemma_no_first_fault(in_order(candidates.dom()), unread);
        if marks_fault(candidates) is None {
            assert forall|i: int| 0 <= i < in_order(candidates.dom()).len() implies ({
                let digest = #[trigger] in_order(candidates.dom())[i];
                candidates[digest].marked_at matches Some(marked_at) ==> marked_at >= 0
            }) by {
                assert(unread(in_order(candidates.dom())[i]) is None);
            }
        }
    }
}

/// A collection reports every candidate that it has settled, in order, each with its digest, its
/// size and what was done to it.
pub proof fn law_collection_reports_in_order(collection: Collection, changes: Seq<usize>, i: int)
    requires
        0 <= i < changes.len(),
    ensures
        ({
            let entries = collected_entries(collection, changes);
            let digest = collection.candidates.keys()[i];
            let candidate = candidate_views(collection.candidates)[digest];
            &&& entries.len() == changes.len()
            &&& entries[i].digest == candidate.record.digest
            &&& entries[i].byte_len == candidate.record.byte_len
            &&& entries[i].action == settled(
                gc_decision(
                    collection.newly_marked@.contains(digest),
                    candidate.marked_at,
                    collection.as_of_us,
                    collection.grace_period_us,
                ),
                changes[i] as nat,
            )
            &&& candidate_mark_fault(collection, digest) is None <==> (
            collection.newly_marked@.contains(digest) || candidate.marked_at is None
                || candidate.marked_at->0 >= 0)
        }),
{
}

} // verus!
