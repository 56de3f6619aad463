//! Checking a whole store: the database itself, the committed policy, every atom, every artifact
//! and every applied run.

use vstd::prelude::*;
use vstd::string::*;

use crate::artifact::{ArtifactStore, ObservedPath, joined_path, metadata_fault, path_fault};
use crate::bytemap::{ByteMap, in_order, lemma_in_order};
use crate::config::SCHEMA_VERSION;
use crate::edges::{FtsRows, fts_views};
use crate::error::{Fault, StoreError, either_fault, fault_of, fault_when};
use crate::folding::{
    first_fault, lemma_first_fault_step, lemma_first_fault_stops,
};
use crate::integrity::{
    Authorities, ScannedAtom, scan_fault, verify_all_atom_closure, verify_artifact_authority,
};
use crate::model::Policy;
use crate::policy::{PolicyRow, persisted_policy_fault, verify_persisted_poc_policy};
use crate::receipt::{RunEvidence, receipt_fault, verify_persisted_core_receipt};
use crate::stored::{digest_array, digest_fault};
use crate::tables::{ArtifactAuthorityView, Artifacts, artifact_views};
use crate::text::{same_text, signed_decimal, signed_decimal_text, text2, text4, text5};

verus! {

/// A row of the database that refers to a row that is not there.
#[derive(Clone, Debug)]
pub struct ForeignKeyViolation {
    pub table: String,
    pub rowid: Option<i64>,
    pub parent: String,
    pub key: i64,
}

/// The line that describes a violation.
pub open spec fn violation_line(violation: ForeignKeyViolation) -> Seq<char> {
    "table="@ + violation.table@ + " rowid="@ + (match violation.rowid {
        Some(rowid) => signed_decimal(rowid as int),
        None => "none"@,
    }) + " parent="@ + violation.parent@ + " fk="@ + signed_decimal(violation.key as int)
}

/// Writes the line that describes a violation.
pub fn violation_text(violation: &ForeignKeyViolation) -> (line: String)
    ensures
        line@ == violation_line(*violation),
{
    let rowid = match violation.rowid {
        Some(rowid) => signed_decimal_text(rowid),
        None => "none".to_owned(),
    };
    let key = signed_decimal_text(violation.key);
    let start = text5(
        "table=",
        violation.table.as_str(),
        " rowid=",
        rowid.as_str(),
        " parent=",
    );
    text4(start.as_str(), violation.parent.as_str(), " fk=", key.as_str())
}

/// The lines of a list of violations in one text.
pub open spec fn violation_lines(violations: Seq<ForeignKeyViolation>) -> Seq<char>
    decreases violations.len(),
{
    if violations.len() == 0 {
        Seq::empty()
    } else if violations.len() == 1 {
        violation_line(violations[0])
    } else {
        violation_lines(violations.drop_last()) + "; "@ + violation_line(violations.last())
    }
}

fn join_violations(violations: &Vec<ForeignKeyViolation>) -> (text: String)
    requires
        violations@.len() > 0,
    ensures
        text@ == violation_lines(violations@),
{
    let mut text = violation_text(&violations[0]);
    let mut i: usize = 1;
    proof {
        let first = violations@.subrange(0, 1);
        assert(first.len() == 1 && first[0] == violations@[0]);
    }
    while i < violations.len()
        invariant
            1 <= i <= violations@.len(),
            text@ == violation_lines(violations@.subrange(0, i as int)),
        decreases violations@.len() - i,
    {
        let line = violation_text(&violations[i]);
        text.append("; ");
        text.append(line.as_str());
        proof {
            let longer = violations@.subrange(0, i + 1);
            assert(longer.drop_last() =~= violations@.subrange(0, i as int));
            assert(longer.last() == violations@[i as int]);
        }
        i += 1;
    }
    assert(violations@.subrange(0, i as int) =~= violations@);
    text
}

/// The fault of a database that its own checks do not pass.
pub open spec fn database_fault(
    sqlite_integrity: Seq<char>,
    violations: Seq<ForeignKeyViolation>,
) -> Option<Fault> {
    either_fault(
        fault_when(
            sqlite_integrity != "ok"@,
            Fault::Integrity("PRAGMA integrity_check returned "@ + sqlite_integrity),
        ),
        fault_when(
            violations.len() != 0,
            Fault::Integrity("foreign key violations: "@ + violation_lines(violations)),
        ),
    )
}

/// Accepts a database that its own checks pass.
pub fn check_database(sqlite_integrity: &str, violations: &Vec<ForeignKeyViolation>) -> (verdict:
    Result<(), StoreError>)
    ensures
        fault_of(verdict) == database_fault(sqlite_integrity@, violations@),
{
    if !same_text(sqlite_integrity, "ok") {
        return Err(
            StoreError::Integrity(text2("PRAGMA integrity_check returned ", sqlite_integrity)),
        );
    }
    if violations.len() != 0 {
        let lines = join_violations(violations);
        return Err(StoreError::Integrity(text2("foreign key violations: ", lines.as_str())));
    }
    Ok(())
}

/// What was found at the path of an artifact; nothing where it was not looked at.
pub open spec fn observation(observed: Map<Seq<u8>, ObservedPath>, digest: Seq<u8>) -> ObservedPath {
    if observed.contains_key(digest) {
        observed[digest]
    } else {
        ObservedPath::Missing
    }
}

/// The fault of a registered artifact that is marked as verified and is not intact.
pub open spec fn registered_fault(
    root: Seq<char>,
    artifacts: Map<Seq<u8>, ArtifactAuthorityView>,
    observed: Map<Seq<u8>, ObservedPath>,
    digest: Seq<u8>,
) -> Option<Fault> {
    let record = artifacts[digest].record;
    if artifacts[digest].integrity_status == "verified"@ {
        either_fault(
            metadata_fault(record),
            path_fault(
                joined_path(root, record.relative_path),
                record.digest,
                record.byte_len,
                observation(observed, digest),
            ),
        )
    } else {
        None
    }
}

/// How many of a list of artifacts are marked as verified.
pub open spec fn verified_count(artifacts: Map<Seq<u8>, ArtifactAuthorityView>, digests: Seq<Seq<u8>>) -> nat
    decreases digests.len(),
{
    if digests.len() == 0 {
        0
    } else {
        verified_count(artifacts, digests.drop_last()) + (if artifacts[digests.last()].integrity_status
            == "verified"@ {
            1nat
        } else {
            0
        })
    }
}

/// Checks the file of every artifact that is marked as verified, and counts them.
#[verifier::loop_isolation(false)]
pub fn verify_artifact_files(
    store: &ArtifactStore,
    artifacts: &Artifacts,
    observed: &ByteMap<ObservedPath>,
) -> (count: Result<u64, StoreError>)
    ensures
        fault_of(count) == first_fault(
            in_order(artifact_views(*artifacts).dom()),
            |digest: Seq<u8>|
                registered_fault(store@, artifact_views(*artifacts), observed@, digest),
        ),
        count matches Ok(count) ==> count == verified_count(
            artifact_views(*artifacts),
            in_order(artifact_views(*artifacts).dom()),
        ),
{
    let ghost views = artifact_views(*artifacts);
    let ghost faulty = |digest: Seq<u8>| registered_fault(store@, views, observed@, digest);
    let total: usize = artifacts.len();
    let ghost ordered = in_order(views.dom());
    proof {
        assert(views.dom() =~= artifacts@.dom());
        lemma_in_order(artifacts.keys(), views.dom());
    }
    let mut count: u64 = 0;
    let mut i: usize = 0;
    assert(ordered.subrange(0, 0) =~= Seq::<Seq<u8>>::empty());
    while i < total
        invariant
            i <= total == ordered.len(),
            ordered == artifacts.keys(),
            count <= i,
            first_fault(ordered.subrange(0, i as int), faulty) is None,
            count == verified_count(views, ordered.subrange(0, i as int)),
        decreases total - i,
    {
        proof {
            lemma_first_fault_step(ordered, faulty, i as int);
            let longer = ordered.subrange(0, i + 1);
            assert(longer.drop_last() =~= ordered.subrange(0, i as int));
            assert(longer.last() == ordered[i as int]);
        }
        let (digest, authority) = artifacts.entry_at(i);
        assert(views[digest@] == authority@);
        let missing = ObservedPath::Missing;
        let found: &ObservedPath = match observed.get(digest.as_slice()) {
            Some(found) => found,
            None => &missing,
        };
        match verify_artifact_authority(store, authority, found) {
            Ok(checked) => {
                if checked {
                    count += 1;
                }
            },
            Err(error) => {
                proof {
                    lemma_first_fault_stops(ordered, faulty, i + 1);
                }
                return Err(error);
            },
        }
        i += 1;
    }
    assert(ordered.subrange(0, i as int) =~= ordered);
    Ok(count)
}

/// The fault of a scan of all atoms, and of all artifacts where they are to be verified.
pub open spec fn store_scan_fault(
    root: Seq<char>,
    rows: Seq<ScannedAtom>,
    authorities: Authorities,
    fts: FtsRows,
    policy: Policy,
    verify_artifacts: bool,
    observed: Map<Seq<u8>, ObservedPath>,
) -> Option<Fault> {
    let artifacts = artifact_views(authorities.artifacts);
    either_fault(
        scan_fault(rows, authorities, fts_views(fts), policy),
        if verify_artifacts {
            first_fault(
                in_order(artifacts.dom()),
                |digest: Seq<u8>| registered_fault(root, artifacts, observed, digest),
            )
        } else {
            None
        },
    )
}

/// Scans all atoms, and all artifacts where they are to be verified. Gives the number of verified
/// artifacts.
pub fn scan_store(
    store: &ArtifactStore,
    rows: &Vec<ScannedAtom>,
    authorities: &Authorities,
    fts: FtsRows,
    policy: &Policy,
    verify_artifacts: bool,
    observed: &ByteMap<ObservedPath>,
) -> (count: Result<u64, StoreError>)
    ensures
        fault_of(count) == store_scan_fault(
            store@,
            rows@,
            *authorities,
            fts,
            *policy,
            verify_artifacts,
            observed@,
        ),
        count matches Ok(count) ==> count == (if verify_artifacts {
            verified_count(
                artifact_views(authorities.artifacts),
                in_order(artifact_views(authorities.artifacts).dom()),
            )
        } else {
            0
        }),
{
    verify_all_atom_closure(rows, authorities, fts, policy)?;
    if verify_artifacts {
        verify_artifact_files(store, &authorities.artifacts, observed)
    } else {
        Ok(0)
    }
}

/// What a check of the store found.
#[derive(Clone, Debug)]
pub struct IntegrityReport {
    pub schema_version: u32,
    pub sqlite_integrity: String,
    pub foreign_key_violations: Vec<String>,
    pub verified_artifacts: u64,
}

/// An applied run and everything that the store holds for it.
pub struct AppliedRun {
    pub run_id: Vec<u8>,
    pub evidence: RunEvidence,
}

/// The fault of a store.
pub open spec fn store_fault(
    sqlite_integrity: Seq<char>,
    violations: Seq<ForeignKeyViolation>,
    policy_row: Option<PolicyRow>,
    policy_count: i64,
    policy: Policy,
    scan: Option<Fault>,
    runs: Seq<AppliedRun>,
) -> Option<Fault> {
    either_fault(
        database_fault(sqlite_integrity, violations),
        either_fault(
            persisted_policy_fault(policy_row, policy_count, policy),
            either_fault(
                scan,
                either_fault(
                    first_fault(runs, |run: AppliedRun| digest_fault(run.run_id@, "run_id"@)),
                    first_fault(
                        runs,
                        |run: AppliedRun| receipt_fault(run.run_id@, run.evidence, policy, None),
                    ),
                ),
            ),
        ),
    )
}

#[verifier::loop_isolation(false)]
fn check_runs(runs: &Vec<AppliedRun>, policy: &Policy) -> (verdict: Result<(), StoreError>)
    ensures
        fault_of(verdict) == either_fault(
            first_fault(runs@, |run: AppliedRun| digest_fault(run.run_id@, "run_id"@)),
            first_fault(
                runs@,
                |run: AppliedRun| receipt_fault(run.run_id@, run.evidence, *policy, None),
            ),
        ),
{
    let ghost unnamed = |run: AppliedRun| digest_fault(run.run_id@, "run_id"@);
    let ghost unproved = |run: AppliedRun| receipt_fault(run.run_id@, run.evidence, *policy, None);
    let mut run_ids: Vec<[u8; 32]> = Vec::new();
    let mut i: usize = 0;
    assert(runs@.subrange(0, 0) =~= Seq::<AppliedRun>::empty());
    while i < runs.len()
        invariant
            i <= runs@.len(),
            first_fault(runs@.subrange(0, i as int), unnamed) is None,
            run_ids@.len() == i,
            forall|k: int| 0 <= k < i ==> (#[trigger] run_ids@[k])@ == runs@[k].run_id@,
        decreases runs@.len() - i,
    {
        proof {
            lemma_first_fault_step(runs@, unnamed, i as int);
        }
        match digest_array(runs[i].run_id.as_slice(), "run_id") {
            Ok(run_id) => {
                run_ids.push(run_id);
            },
            Err(error) => {
                proof {
                    lemma_first_fault_stops(runs@, unnamed, i + 1);
                }
                return Err(error);
            },
        }
        i += 1;
    }
    assert(runs@.subrange(0, i as int) =~= runs@);
    let mut j: usize = 0;
    while j < runs.len()
        invariant
            j <= runs@.len(),
            run_ids@.len() == runs@.len(),
            forall|k: int| 0 <= k < runs@.len() ==> (#[trigger] run_ids@[k])@ == runs@[k].run_id@,
            first_fault(runs@.subrange(0, j as int), unproved) is None,
        decreases runs@.len() - j,
    {
        proof {
            lemma_first_fault_step(runs@, unproved, j as int);
        }
        match verify_persisted_core_receipt(&run_ids[j], &runs[j].evidence, policy, &None) {
            Ok(_) => {},
            Err(error) => {
                proof {
                    lemma_first_fault_stops(runs@, unproved, j + 1);
                }
                return Err(error);
            },
        }
        j += 1;
    }
    assert(runs@.subrange(0, j as int) =~= runs@);
    Ok(())
}

/// Checks a store, given what scanning its atoms and artifacts found, and reports what was found.
pub fn check_integrity(
    sqlite_integrity: &str,
    violations: &Vec<ForeignKeyViolation>,
    policy_row: &Option<PolicyRow>,
    policy_count: i64,
    policy: &Policy,
    scan: Result<u64, StoreError>,
    runs: &Vec<AppliedRun>,
) -> (report: Result<IntegrityReport, StoreError>)
    ensures
        fault_of(report) == store_fault(
            sqlite_integrity@,
            violations@,
            *policy_row,
            policy_count,
            *policy,
            fault_of(scan),
            runs@,
        ),
        report matches Ok(report) ==> {
            &&& report.schema_version == SCHEMA_VERSION
            &&& report.sqlite_integrity@ == "ok"@
            &&& report.foreign_key_violations@.len() == 0
            &&& scan matches Ok(count) && report.verified_artifacts == count
        },
{
    check_database(sqlite_integrity, violations)?;
    verify_persisted_poc_policy(policy_row, policy_count, policy)?;
    let verified_artifacts: u64 = scan?;
    check_runs(runs, policy)?;
    Ok(
        IntegrityReport {
            schema_version: SCHEMA_VERSION,
            sqlite_integrity: sqlite_integrity.to_owned(),
            foreign_key_violations: Vec::new(),
            verified_artifacts,
        },
    )
}

/// A database is sound exactly where it says so and no row refers to a row that is not there.
pub proof fn law_database_is_sound_exactly(
    sqlite_integrity: Seq<char>,
    violations: Seq<ForeignKeyViolation>,
)
    ensures
        database_fault(sqlite_integrity, violations) is None <==> sqlite_integrity == "ok"@
            && violations.len() == 0,
{
}

/// A registered artifact is accepted exactly where it is not verified, or its metadata are its own
/// and the file under its path holds it.
pub proof fn law_verified_artifact_must_be_there(
    root: Seq<char>,
    artifacts: Map<Seq<u8>, ArtifactAuthorityView>,
    observed: Map<Seq<u8>, ObservedPath>,
    digest: Seq<u8>,
)
    ensures
        registered_fault(root, artifacts, observed, digest) is None <==> (
        artifacts[digest].integrity_status == "verified"@ ==> {
            let record = artifacts[digest].record;
            &&& metadata_fault(record) is None
            &&& observed.contains_key(digest)
            &&& path_fault(
                joined_path(root, record.relative_path),
                record.digest,
                record.byte_len,
                observed[digest],
            ) is None
        }),
{
}

/// Verified artifacts are counted: one more counts exactly where it is verified.
pub proof fn law_verified_artifacts_are_counted(
    artifacts: Map<Seq<u8>, ArtifactAuthorityView>,
    digests: Seq<Seq<u8>>,
    digest: Seq<u8>,
)
    ensures
        verified_count(artifacts, Seq::<Seq<u8>>::empty()) == 0,
        artifacts[digest].integrity_status == "verified"@ ==> verified_count(
            artifacts,
            digests.push(digest),
        ) == verified_count(artifacts, digests) + 1,
        artifacts[digest].integrity_status != "verified"@ ==> verified_count(
            artifacts,
            digests.push(digest),
        ) == verified_count(artifacts, digests),
{
    assert(digests.push(digest).drop_last() =~= digests);
}

/// A store passes its scan exactly where its atoms close and, where files are to be looked at, every
/// registered artifact is accepted.
pub proof fn law_store_passes_its_scan_exactly(
    root: Seq<char>,
    rows: Seq<ScannedAtom>,
    authorities: Authorities,
    fts: FtsRows,
    policy: Policy,
    verify_artifacts: bool,
    observed: Map<Seq<u8>, ObservedPath>,
)
    ensures
        store_scan_fault(
            root,
            rows,
            authorities,
            fts,
            policy,
            verify_artifacts,
            observed,
        ) is None <==> {
            let artifacts = artifact_views(authorities.artifacts);
            let digests = in_order(artifacts.dom());
            &&& scan_fault(rows, authorities, fts_views(fts), policy) is None
            &&& verify_artifacts ==> forall|i: int|
                0 <= i < digests.len() ==> registered_fault(
                    root,
                    artifacts,
                    observed,
                    #[trigger] digests[i],
                ) is None
        },
{
    let artifacts = artifact_views(authorities.artifacts);
    let digests = in_order(artifacts.dom());
    let lost = |digest: Seq<u8>| registered_fault(root, artifacts, observed, digest);
    crate::folding::lemma_no_first_fault(digests, lost);
    if first_fault(digests, lost) is None {
        assert forall|i: int| 0 <= i < digests.len() implies registered_fault(
            root,
            artifacts,
            observed,
            #[trigger] digests[i],
        ) is None by {
            assert(lost(digests[i]) is None);
        }
    }
}

/// A store is sound exactly where its database is, it holds the committed policy and no other, its
/// scan passed, and every applied run has a receipt that is accepted.
pub proof fn law_store_is_sound_exactly(
    sqlite_integrity: Seq<char>,
    violations: Seq<ForeignKeyViolation>,
    policy_row: Option<PolicyRow>,
    policy_count: i64,
    policy: Policy,
    scan: Option<Fault>,
    runs: Seq<AppliedRun>,
)
    ensures
        store_fault(
            sqlite_integrity,
            violations,
            policy_row,
            policy_count,
            policy,
            scan,
            runs,
        ) is None <==> {
            &&& sqlite_integrity == "ok"@
            &&& violations.len() == 0
            &&& persisted_policy_fault(policy_row, policy_count, policy) is None
            &&& scan is None
            &&& forall|i: int|
                0 <= i < runs.len() ==> {
                    let run = #[trigger] runs[i];
                    &&& run.run_id@.len() == 32
                    &&& receipt_fault(run.run_id@, run.evidence, policy, None) is None
                }
        },
{
    let unnamed = |run: AppliedRun| digest_fault(run.run_id@, "run_id"@);
    let refused = |run: AppliedRun| receipt_fault(run.run_id@, run.evidence, policy, None);
    crate::folding::lemma_no_first_fault(runs, unnamed);
    crate::folding::lemma_no_first_fault(runs, refused);
    if first_fault(runs, unnamed) is None && first_fault(runs, refused) is None {
        assert forall|i: int| 0 <= i < runs.len() implies ({
            let run = #[trigger] runs[i];
            &&& run.run_id@.len() == 32
            &&& receipt_fault(run.run_id@, run.evidence, policy, None) is None
        }) by {
            assert(unnamed(runs[i]) is None);
            assert(refused(runs[i]) is None);
        }
    }
}

/// A violation is written with everything that it names, in order.
pub proof fn law_violation_is_written_whole(violation: ForeignKeyViolation)
    ensures
        violation_line(violation) == "table="@ + violation.table@ + " rowid="@ + (
        if violation.rowid is Some {
            signed_decimal(violation.rowid->0 as int)
        } else {
            "none"@
        }) + " parent="@ + violation.parent@ + " fk="@ + signed_decimal(violation.key as int),
{
}

} // verus!
