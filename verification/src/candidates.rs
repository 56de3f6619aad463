//! Candidates: atoms that are read back whole, for retirement and for retrieval, only where all
//! their rows agree.

use vstd::prelude::*;
use vstd::string::*;

use crate::artifact::{ArtifactStore, ObservedPath, joined_path, metadata_fault, path_fault};
use crate::artifact_rows::{
    ArtifactFileRow, artifact_record_from_row, record_row_fault, row_record,
};
use crate::bytemap::ByteMap;
use crate::digest::{sha256, sha256_of};
use crate::error::{Fault, StoreError, either_fault, fault_of, fault_when};
use crate::json::{json_array, texts};
use crate::messages::{about, integrity_about, integrity_fault, text_about};
use crate::model::{
    ArtifactDeclaration, AtomState, CoreAtom, IntegrityStatus, RetentionPermission, RetentionTier,
    StateView, kind_name, permission_name, status_name, tier_name,
};
use crate::records::{
    AtomRecord, domain_digest, lines, projection_transcript, provenance_domain, record_fault,
    searchable_fields, sha256_projection,
};
use crate::state_columns::{
    StateColumns, column_labels, column_names, columns_fault, columns_state, read_state,
};
use crate::stored::{
    digest_array, digest_fault, same_digest, unsigned_fault, unsigned_integer,
};
use crate::text::{holds_text, optional_text, same_bytes, same_optional_text, same_text};

verus! {

/// What the store holds about an artifact that an atom declares.
#[derive(Clone, Debug)]
pub struct DeclaredArtifact {
    pub linked: bool,
    pub row: Option<ArtifactFileRow>,
    pub observed: ObservedPath,
}

/// What comes of a failed check of an artifact: it is missing, it is another one, or the check
/// itself failed.
pub open spec fn status_of_fault(fault: Option<Fault>) -> Result<IntegrityStatus, Fault> {
    match fault {
        None => Ok(IntegrityStatus::Complete),
        Some(Fault::ArtifactMissing { path }) => Ok(IntegrityStatus::MissingArtifact),
        Some(Fault::ArtifactDigestMismatch { path }) => Ok(IntegrityStatus::DigestMismatch),
        Some(fault) => Err(fault),
    }
}

/// The status of an artifact that is kept outside the body.
pub open spec fn stored_artifact_status(
    root: Seq<char>,
    artifact: ArtifactDeclaration,
    found: DeclaredArtifact,
    require_all: bool,
) -> Result<IntegrityStatus, Fault> {
    if !require_all && !artifact.retention_allowed {
        if found.linked {
            Ok(IntegrityStatus::DigestMismatch)
        } else {
            Ok(IntegrityStatus::Complete)
        }
    } else {
        match found.row {
            None => Ok(IntegrityStatus::MissingArtifact),
            Some(row) => match record_row_fault(row) {
                Some(fault) => Err(fault),
                None => {
                    let record = row_record(row);
                    if !found.linked || record.byte_len != artifact.size_bytes {
                        Ok(IntegrityStatus::MissingArtifact)
                    } else {
                        status_of_fault(
                            either_fault(
                                metadata_fault(record),
                                path_fault(
                                    joined_path(root, record.relative_path),
                                    record.digest,
                                    record.byte_len,
                                    found.observed,
                                ),
                            ),
                        )
                    }
                },
            },
        }
    }
}

/// What the store holds about an artifact; nothing where it knows nothing of it.
pub open spec fn declared_artifact(
    evidence: Map<Seq<u8>, DeclaredArtifact>,
    digest: Seq<u8>,
) -> DeclaredArtifact {
    if evidence.contains_key(digest) {
        evidence[digest]
    } else {
        DeclaredArtifact { linked: false, row: None, observed: ObservedPath::Missing }
    }
}

/// The status of a declared artifact. One within the body must have its declared length and
/// digest; one outside must be linked, registered and intact, unless the atom need not have it
/// any more: then it must not be linked.
pub open spec fn artifact_status(
    root: Seq<char>,
    artifact: ArtifactDeclaration,
    evidence: Map<Seq<u8>, DeclaredArtifact>,
    require_all: bool,
) -> Result<IntegrityStatus, Fault> {
    match artifact.inline_payload {
        Some(inline) => if inline@.len() != artifact.size_bytes || sha256_of(inline@)
            != artifact.digest@ {
            Ok(IntegrityStatus::DigestMismatch)
        } else {
            Ok(IntegrityStatus::Complete)
        },
        None => stored_artifact_status(
            root,
            artifact,
            declared_artifact(evidence, artifact.digest@),
            require_all,
        ),
    }
}

/// The status of the artifacts from place `i` on: that of the first that is not complete.
pub open spec fn artifacts_status(
    root: Seq<char>,
    artifacts: Seq<ArtifactDeclaration>,
    evidence: Map<Seq<u8>, DeclaredArtifact>,
    require_all: bool,
    i: int,
) -> Result<IntegrityStatus, Fault>
    decreases artifacts.len() - i,
{
    if i < 0 || i >= artifacts.len() {
        Ok(IntegrityStatus::Complete)
    } else {
        match artifact_status(root, artifacts[i], evidence, require_all) {
            Ok(IntegrityStatus::Complete) => artifacts_status(
                root,
                artifacts,
                evidence,
                require_all,
                i + 1,
            ),
            other => other,
        }
    }
}

/// The outcome that either side of a result holds.
pub open spec fn status_outcome(result: Result<IntegrityStatus, StoreError>) -> Result<
    IntegrityStatus,
    Fault,
> {
    match result {
        Ok(status) => Ok(status),
        Err(error) => Err(error@),
    }
}

fn check_stored_artifact(
    store: &ArtifactStore,
    artifact: &ArtifactDeclaration,
    found: &DeclaredArtifact,
    require_all: bool,
) -> (status: Result<IntegrityStatus, StoreError>)
    ensures
        status_outcome(status) == stored_artifact_status(store@, *artifact, *found, require_all),
{
    if !require_all && !artifact.retention_allowed {
        if found.linked {
            return Ok(IntegrityStatus::DigestMismatch);
        }
        return Ok(IntegrityStatus::Complete);
    }
    let row = match &found.row {
        Some(row) => row,
        None => return Ok(IntegrityStatus::MissingArtifact),
    };
    let record = artifact_record_from_row(row)?;
    if !found.linked || record.byte_len != artifact.size_bytes {
        return Ok(IntegrityStatus::MissingArtifact);
    }
    match store.verify(&record, &found.observed) {
        Ok(_) => Ok(IntegrityStatus::Complete),
        Err(StoreError::ArtifactMissing { path }) => Ok(IntegrityStatus::MissingArtifact),
        Err(StoreError::ArtifactDigestMismatch { path }) => Ok(IntegrityStatus::DigestMismatch),
        Err(error) => Err(error),
    }
}

fn check_artifact(
    store: &ArtifactStore,
    artifact: &ArtifactDeclaration,
    evidence: &ByteMap<DeclaredArtifact>,
    require_all: bool,
) -> (status: Result<IntegrityStatus, StoreError>)
    ensures
        status_outcome(status) == artifact_status(store@, *artifact, evidence@, require_all),
{
    match &artifact.inline_payload {
        Some(inline) => {
            let digest = sha256(inline.as_slice());
            if inline.len() as u64 != artifact.size_bytes || !same_digest(
                &digest,
                &artifact.digest,
            ) {
                return Ok(IntegrityStatus::DigestMismatch);
            }
            Ok(IntegrityStatus::Complete)
        },
        None => {
            let unknown = DeclaredArtifact {
                linked: false,
                row: None,
                observed: ObservedPath::Missing,
            };
            let found: &DeclaredArtifact = match evidence.get(artifact.digest.as_slice()) {
                Some(found) => found,
                None => &unknown,
            };
            check_stored_artifact(store, artifact, found, require_all)
        },
    }
}

/// Finds the status of the artifacts that an atom declares.
#[verifier::loop_isolation(false)]
pub fn core_artifact_integrity(
    store: &ArtifactStore,
    artifacts: &Vec<ArtifactDeclaration>,
    evidence: &ByteMap<DeclaredArtifact>,
    require_all: bool,
) -> (status: Result<IntegrityStatus, StoreError>)
    ensures
        status_outcome(status) == artifacts_status(store@, artifacts@, evidence@, require_all, 0),
{
    let mut i: usize = 0;
    while i < artifacts.len()
        invariant
            i <= artifacts@.len(),
            artifacts_status(store@, artifacts@, evidence@, require_all, 0) == artifacts_status(
                store@,
                artifacts@,
                evidence@,
                require_all,
                i as int,
            ),
        decreases artifacts@.len() - i,
    {
        match check_artifact(store, &artifacts[i], evidence, require_all) {
            Ok(IntegrityStatus::Complete) => {},
            Ok(status) => return Ok(status),
            Err(error) => return Err(error),
        }
        i += 1;
    }
    Ok(IntegrityStatus::Complete)
}

// ---------------------------------------------------------------------------------------------
// Candidates of a retirement

/// A candidate of a retirement, without its body.
#[derive(Clone, Debug)]
pub struct RetirementCandidate {
    pub atom_id: [u8; 32],
    pub body_digest: [u8; 32],
    pub state: AtomState,
    pub integrity: IntegrityStatus,
    pub exact_package_bytes: u64,
}

/// The fault of a candidate of a retirement.
pub open spec fn core_candidate_fault(
    root: Seq<char>,
    atom_id: Seq<u8>,
    parsed: Result<CoreAtom, String>,
    columns: StateColumns,
    evidence: Map<Seq<u8>, DeclaredArtifact>,
) -> Option<Fault> {
    match parsed {
        Err(text) => Some(Fault::Json(text@)),
        Ok(typed) => either_fault(
            fault_when(
                typed.authority.atom_id@ != atom_id,
                integrity_fault(
                    "atom "@,
                    atom_id,
                    " JSON projection failed authority verification"@,
                ),
            ),
            either_fault(
                columns_fault(columns, column_names()),
                match artifacts_status(root, typed.body.artifacts@, evidence, true, 0) {
                    Ok(_) => None,
                    Err(fault) => Some(fault),
                },
            ),
        ),
    }
}

/// Reads a candidate of a retirement from its projection and its state columns, with the status
/// of all the artifacts that it declares.
pub fn load_core_candidate(
    store: &ArtifactStore,
    atom_id: &[u8; 32],
    parsed: &Result<CoreAtom, String>,
    columns: &StateColumns,
    evidence: &ByteMap<DeclaredArtifact>,
) -> (candidate: Result<RetirementCandidate, StoreError>)
    ensures
        fault_of(candidate) == core_candidate_fault(
            store@,
            atom_id@,
            *parsed,
            *columns,
            evidence@,
        ),
        candidate matches Ok(candidate) ==> {
            &&& candidate.atom_id@ == atom_id@
            &&& candidate.body_digest@ == atom_id@
            &&& candidate.state@ == columns_state(*columns)
            &&& *parsed matches Ok(typed) && artifacts_status(
                store@,
                typed.body.artifacts@,
                evidence@,
                true,
                0,
            ) == Ok::<IntegrityStatus, Fault>(candidate.integrity)
                && candidate.exact_package_bytes == typed.authority.exact_package_bytes
        },
{
    let typed = match parsed {
        Ok(typed) => typed,
        Err(text) => return Err(StoreError::Json(text.clone())),
    };
    if !same_digest(&typed.authority.atom_id, atom_id) {
        return Err(
            integrity_about("atom ", atom_id, " JSON projection failed authority verification"),
        );
    }
    let labels = column_labels();
    let state = read_state(columns, &labels)?;
    let integrity = core_artifact_integrity(store, &typed.body.artifacts, evidence, true)?;
    Ok(
        RetirementCandidate {
            atom_id: typed.authority.atom_id,
            body_digest: typed.authority.atom_id,
            state,
            integrity,
            exact_package_bytes: typed.authority.exact_package_bytes,
        },
    )
}

// ---------------------------------------------------------------------------------------------
// Candidates of a retrieval

/// The rows of an atom that a retrieval looks at.
#[derive(Clone, Debug)]
pub struct StoredRetrievalAtom {
    pub atom_kind: String,
    pub memory_space_id: String,
    pub repository_id: Option<String>,
    pub task_id: Option<String>,
    pub agent_id: Option<String>,
    pub session_id: Option<String>,
    pub recorded_at_us: i64,
    pub body_digest: Vec<u8>,
    pub body_bytes: i64,
    pub retention_permission: String,
    pub provenance_digest: Vec<u8>,
    pub canonical_body: Vec<u8>,
    pub json_projection: String,
    pub state: StateColumns,
    pub searchable_text: String,
    pub topic_keys_json: String,
    pub entity_ids_json: String,
    pub outcome_class: Option<String>,
    pub projection_digest: Vec<u8>,
}

/// The full-text rows of an atom: how many there are, and the least and the greatest of their
/// texts.
#[derive(Clone, Debug)]
pub struct FtsSummary {
    pub row_count: i64,
    pub least_text: Option<String>,
    pub greatest_text: Option<String>,
}

/// A candidate of a retrieval, without its body.
#[derive(Clone, Copy, Debug)]
pub struct RetrievalCandidate {
    pub atom_id: [u8; 32],
    pub state: AtomState,
    pub lexical_score: u32,
    pub integrity: IntegrityStatus,
}

/// Whether kind and scope of a stored atom are those of its typed body.
pub open spec fn scope_agrees(atom_id: Seq<u8>, stored: StoredRetrievalAtom, typed: CoreAtom) -> bool {
    let scope = typed.body.scope;
    &&& typed.authority.atom_id@ == atom_id
    &&& kind_name(typed.body.payload.kind()) == stored.atom_kind@
    &&& scope.memory_space_id@ == stored.memory_space_id@
    &&& optional_text(scope.repository_id) == optional_text(stored.repository_id)
    &&& optional_text(scope.task_id) == optional_text(stored.task_id)
    &&& optional_text(scope.agent_id) == optional_text(stored.agent_id)
    &&& Some(scope.session_id@) == optional_text(stored.session_id)
}

/// Whether body, state and search projection of a stored atom are those of its typed body.
pub open spec fn content_agrees(stored: StoredRetrievalAtom, typed: CoreAtom) -> bool {
    let body = typed.body;
    let authority = typed.authority;
    let state = columns_state(stored.state);
    let searchable = lines(searchable_fields(body));
    &&& body.interval.recorded_at_us == stored.recorded_at_us
    &&& authority.atom_id@ == stored.body_digest@
    &&& authority.canonical_body@.len() == stored.body_bytes
    &&& permission_name(body.retention_permission) == stored.retention_permission@
    &&& domain_digest(provenance_domain(), authority.canonical_provenance@)
        == stored.provenance_digest@
    &&& authority.canonical_body@ == stored.canonical_body@
    &&& authority.json_projection@ == stored.json_projection@
    &&& tier_name(state.retention_tier) == stored.state.retention_tier@
    &&& status_name(state.content_status) == stored.state.content_status@
    &&& searchable == stored.searchable_text@
    &&& json_array(texts(body.topic_keys@)) == Ok::<Seq<char>, Seq<char>>(stored.topic_keys_json@)
    &&& json_array(texts(body.entity_ids@)) == Ok::<Seq<char>, Seq<char>>(stored.entity_ids_json@)
    &&& optional_text(body.outcome_class) == optional_text(stored.outcome_class)
    &&& sha256_of(
        projection_transcript(
            searchable,
            stored.topic_keys_json@,
            stored.entity_ids_json@,
            optional_text(body.outcome_class),
        ),
    ) == stored.projection_digest@
}

/// The fault of a stored atom whose rows do not agree with its typed body.
pub open spec fn retrieval_rows_fault(
    atom_id: Seq<u8>,
    stored: StoredRetrievalAtom,
    typed: CoreAtom,
) -> Option<Fault> {
    let open = integrity_fault(
        "retrieval atom "@,
        atom_id,
        " failed body, state, header, or search-projection closure"@,
    );
    either_fault(
        columns_fault(stored.state, column_names()),
        either_fault(
            record_fault(typed),
            either_fault(
                digest_fault(stored.body_digest@, "body_digest"@),
                either_fault(
                    digest_fault(stored.provenance_digest@, "provenance_digest"@),
                    either_fault(
                        digest_fault(stored.projection_digest@, "projection_digest"@),
                        either_fault(
                            unsigned_fault(stored.body_bytes, "body_bytes"@),
                            either_fault(
                                fault_when(!scope_agrees(atom_id, stored, typed), open),
                                either_fault(
                                    unsigned_fault(stored.recorded_at_us, "recorded_at_us"@),
                                    fault_when(!content_agrees(stored, typed), open),
                                ),
                            ),
                        ),
                    ),
                ),
            ),
        ),
    )
}

/// Whether an atom has exactly one full-text row, with its searchable text.
pub open spec fn fts_closed(fts: FtsSummary, searchable: Seq<char>) -> bool {
    &&& fts.row_count == 1
    &&& optional_text(fts.least_text) == Some(searchable)
    &&& optional_text(fts.greatest_text) == Some(searchable)
}

/// The name of an integrity status.
pub open spec fn integrity_name(status: IntegrityStatus) -> Seq<char> {
    match status {
        IntegrityStatus::Complete => "Complete"@,
        IntegrityStatus::MissingArtifact => "MissingArtifact"@,
        IntegrityStatus::DigestMismatch => "DigestMismatch"@,
    }
}

fn integrity_text(status: IntegrityStatus) -> (name: &'static str)
    ensures
        name@ == integrity_name(status),
{
    match status {
        IntegrityStatus::Complete => "Complete",
        IntegrityStatus::MissingArtifact => "MissingArtifact",
        IntegrityStatus::DigestMismatch => "DigestMismatch",
    }
}

/// The fault of an atom with artifacts that are not complete.
pub open spec fn completeness_fault(
    atom_id: Seq<u8>,
    status: Result<IntegrityStatus, Fault>,
) -> Option<Fault> {
    match status {
        Err(fault) => Some(fault),
        Ok(status) => fault_when(
            status != IntegrityStatus::Complete,
            Fault::Integrity(
                about("retrieval atom "@, atom_id, " is not integrity-complete: "@)
                    + integrity_name(status),
            ),
        ),
    }
}

/// The fault of a candidate of a retrieval.
pub open spec fn retrieval_candidate_fault(
    root: Seq<char>,
    atom_id: Seq<u8>,
    stored: Option<StoredRetrievalAtom>,
    parsed: Result<CoreAtom, String>,
    fts: FtsSummary,
    evidence: Map<Seq<u8>, DeclaredArtifact>,
) -> Option<Fault> {
    match stored {
        None => Some(Fault::Sqlite("Query returned no rows"@)),
        Some(stored) => match parsed {
            Err(text) => Some(Fault::Json(text@)),
            Ok(typed) => either_fault(
                retrieval_rows_fault(atom_id, stored, typed),
                either_fault(
                    fault_when(
                        !fts_closed(fts, stored.searchable_text@),
                        integrity_fault(
                            "retrieval atom "@,
                            atom_id,
                            " failed FTS projection closure"@,
                        ),
                    ),
                    completeness_fault(
                        atom_id,
                        artifacts_status(
                            root,
                            typed.body.artifacts@,
                            evidence,
                            columns_state(stored.state).retention_tier
                                == RetentionTier::ShortTerm,
                            0,
                        ),
                    ),
                ),
            ),
        },
    }
}

fn closure_open(atom_id: &[u8; 32]) -> (error: StoreError)
    ensures
        error@ == integrity_fault(
            "retrieval atom "@,
            atom_id@,
            " failed body, state, header, or search-projection closure"@,
        ),
{
    integrity_about(
        "retrieval atom ",
        atom_id,
        " failed body, state, header, or search-projection closure",
    )
}

fn check_retrieval_rows(atom_id: &[u8; 32], stored: &StoredRetrievalAtom, typed: &CoreAtom) -> (state:
    Result<AtomState, StoreError>)
    ensures
        fault_of(state) == retrieval_rows_fault(atom_id@, *stored, *typed),
        state matches Ok(state) ==> state@ == columns_state(stored.state),
{
    let labels = column_labels();
    let state = read_state(&stored.state, &labels)?;
    let expected = AtomRecord::from_core(typed, &state)?;
    let body_digest = digest_array(stored.body_digest.as_slice(), "body_digest")?;
    let provenance_digest = digest_array(
        stored.provenance_digest.as_slice(),
        "provenance_digest",
    )?;
    let projection_digest = digest_array(
        stored.projection_digest.as_slice(),
        "projection_digest",
    )?;
    let body_bytes: u64 = unsigned_integer(stored.body_bytes, "body_bytes")?;
    if !same_digest(&expected.atom_id, atom_id) || !same_text(
        expected.atom_kind.as_str(),
        stored.atom_kind.as_str(),
    ) || !same_text(expected.memory_space_id.as_str(), stored.memory_space_id.as_str())
        || !same_optional_text(&expected.repository_id, &stored.repository_id)
        || !same_optional_text(&expected.task_id, &stored.task_id) || !same_optional_text(
        &expected.agent_id,
        &stored.agent_id,
    ) || !same_optional_text(&expected.session_id, &stored.session_id) {
        return Err(closure_open(atom_id));
    }
    let recorded_at_us: u64 = unsigned_integer(stored.recorded_at_us, "recorded_at_us")?;
    let expected_projection = sha256_projection(&expected);
    let agrees = expected.recorded_at_us == recorded_at_us && same_digest(
        &expected.body_digest,
        &body_digest,
    ) && expected.canonical_body.len() as u64 == body_bytes && same_text(
        expected.retention_permission.as_str(),
        stored.retention_permission.as_str(),
    ) && same_digest(&expected.provenance_digest, &provenance_digest) && same_bytes(
        expected.canonical_body.as_slice(),
        stored.canonical_body.as_slice(),
    ) && same_text(expected.json_projection.as_str(), stored.json_projection.as_str())
        && same_text(expected.retention_tier.as_str(), stored.state.retention_tier.as_str())
        && same_text(expected.content_status.as_str(), stored.state.content_status.as_str())
        && same_text(expected.searchable_text.as_str(), stored.searchable_text.as_str())
        && same_text(expected.topic_keys_json.as_str(), stored.topic_keys_json.as_str())
        && same_text(expected.entity_ids_json.as_str(), stored.entity_ids_json.as_str())
        && same_optional_text(&expected.outcome_class, &stored.outcome_class) && same_digest(
        &expected_projection,
        &projection_digest,
    );
    if !agrees {
        return Err(closure_open(atom_id));
    }
    Ok(state)
}

/// Reads a candidate of a retrieval: all its rows agree with its typed body, it is found by
/// exactly one full-text row, and its artifacts are complete.
pub fn load_retrieval_candidate(
    store: &ArtifactStore,
    atom_id: &[u8; 32],
    lexical_score: u32,
    stored: &Option<StoredRetrievalAtom>,
    parsed: &Result<CoreAtom, String>,
    fts: &FtsSummary,
    evidence: &ByteMap<DeclaredArtifact>,
) -> (candidate: Result<RetrievalCandidate, StoreError>)
    ensures
        fault_of(candidate) == retrieval_candidate_fault(
            store@,
            atom_id@,
            *stored,
            *parsed,
            *fts,
            evidence@,
        ),
        candidate matches Ok(candidate) ==> {
            &&& candidate.atom_id@ == atom_id@
            &&& candidate.lexical_score == lexical_score
            &&& candidate.integrity == IntegrityStatus::Complete
            &&& *stored matches Some(stored) && candidate.state@ == columns_state(stored.state)
        },
{
    let stored = match stored {
        Some(stored) => stored,
        None => return Err(StoreError::Sqlite("Query returned no rows".to_owned())),
    };
    let typed = match parsed {
        Ok(typed) => typed,
        Err(text) => return Err(StoreError::Json(text.clone())),
    };
    let state = check_retrieval_rows(atom_id, stored, typed)?;
    if fts.row_count != 1 || !holds_text(&fts.least_text, stored.searchable_text.as_str())
        || !holds_text(&fts.greatest_text, stored.searchable_text.as_str()) {
        return Err(
            integrity_about("retrieval atom ", atom_id, " failed FTS projection closure"),
        );
    }
    let require_all = match state.retention_tier {
        RetentionTier::ShortTerm => true,
        _ => false,
    };
    let integrity = core_artifact_integrity(store, &typed.body.artifacts, evidence, require_all)?;
    match integrity {
        IntegrityStatus::Complete => {},
        _ => {
            let mut text = text_about(
                "retrieval atom ",
                atom_id,
                " is not integrity-complete: ",
            );
            text.append(integrity_text(integrity));
            return Err(StoreError::Integrity(text));
        },
    }
    Ok(RetrievalCandidate { atom_id: *atom_id, state, lexical_score, integrity })
}

/// Accepts an episodic long-term atom for the pool that spontaneous recall draws from: it must be
/// allowed to be kept exactly.
pub fn admit_to_pool(atom_id: &[u8; 32], permission: RetentionPermission) -> (verdict: Result<
    (),
    StoreError,
>)
    ensures
        fault_of(verdict) == fault_when(
            permission != RetentionPermission::SemanticAndExactAllowed,
            integrity_fault(
                "episodic LTM atom "@,
                atom_id@,
                " lacks exact-retention permission"@,
            ),
        ),
{
    match permission {
        RetentionPermission::SemanticAndExactAllowed => Ok(()),
        _ => Err(
            integrity_about("episodic LTM atom ", atom_id, " lacks exact-retention permission"),
        ),
    }
}

/// What a retrieval gives is what was stored: the stored body, header and search projection of a
/// candidate are those of its typed body, and its identity is that of the body.
pub proof fn law_retrieved_atom_is_its_body(
    root: Seq<char>,
    atom_id: Seq<u8>,
    stored: StoredRetrievalAtom,
    typed: CoreAtom,
    fts: FtsSummary,
    evidence: Map<Seq<u8>, DeclaredArtifact>,
)
    requires
        retrieval_candidate_fault(
            root,
            atom_id,
            Some(stored),
            Ok::<CoreAtom, String>(typed),
            fts,
            evidence,
        ) is None,
    ensures
        typed.authority.atom_id@ == atom_id,
        stored.body_digest@ == atom_id,
        stored.canonical_body@ == typed.authority.canonical_body@,
        stored.memory_space_id@ == typed.body.scope.memory_space_id@,
        stored.searchable_text@ == lines(searchable_fields(typed.body)),
        fts_closed(fts, lines(searchable_fields(typed.body))),
{
}

/// How often an atom was retrieved decides nothing about its retrieval: where only that counter
/// moved, the atom is loaded or refused as before, and what is loaded differs in the counter alone.
pub proof fn law_retrieval_count_decides_nothing(
    root: Seq<char>,
    atom_id: Seq<u8>,
    stored: StoredRetrievalAtom,
    retrieval_count: i64,
    parsed: Result<CoreAtom, String>,
    fts: FtsSummary,
    evidence: Map<Seq<u8>, DeclaredArtifact>,
)
    requires
        stored.state.retrieval_count >= 0,
        retrieval_count >= 0,
    ensures
        ({
            let counted = StoredRetrievalAtom {
                state: StateColumns { retrieval_count, ..stored.state },
                ..stored
            };
            &&& retrieval_candidate_fault(root, atom_id, Some(counted), parsed, fts, evidence)
                == retrieval_candidate_fault(root, atom_id, Some(stored), parsed, fts, evidence)
            &&& columns_state(counted.state) == (StateView {
                retrieval_count: retrieval_count as u64,
                ..columns_state(stored.state)
            })
        }),
{
}

/// A declared artifact is complete exactly where its bytes stand in the body with its size and its
/// hash; or where it need not be there and is not linked; or where it is linked and registered with
/// its size and the file under its path holds it.
pub proof fn law_artifact_is_complete_exactly(
    root: Seq<char>,
    artifact: ArtifactDeclaration,
    evidence: Map<Seq<u8>, DeclaredArtifact>,
    require_all: bool,
)
    ensures
        artifact_status(root, artifact, evidence, require_all) == Ok::<_, Fault>(
            IntegrityStatus::Complete,
        ) <==> (match artifact.inline_payload {
            Some(inline) => inline@.len() == artifact.size_bytes && sha256_of(inline@)
                == artifact.digest@,
            None => {
                let known = evidence.contains_key(artifact.digest@);
                let found = evidence[artifact.digest@];
                if artifact.retention_allowed || require_all {
                    &&& known
                    &&& found.linked
                    &&& found.row matches Some(row)
                    &&& row.artifact_digest@.len() == 32
                    &&& row.byte_len == artifact.size_bytes
                    &&& metadata_fault(row_record(row)) is None
                    &&& path_fault(
                        joined_path(root, row.relative_path@),
                        row.artifact_digest@,
                        artifact.size_bytes,
                        found.observed,
                    ) is None
                } else {
                    known ==> !found.linked
                }
            },
        }),
{
}

/// An artifact that is missing from the store is reported as missing, never as complete; one whose
/// file is not what it should be is reported as a mismatch.
pub proof fn law_missing_artifact_is_reported(
    root: Seq<char>,
    artifact: ArtifactDeclaration,
    evidence: Map<Seq<u8>, DeclaredArtifact>,
    require_all: bool,
)
    requires
        artifact.inline_payload is None,
        artifact.retention_allowed || require_all,
    ensures
        !evidence.contains_key(artifact.digest@) ==> artifact_status(
            root,
            artifact,
            evidence,
            require_all,
        ) == Ok::<_, Fault>(IntegrityStatus::MissingArtifact),
        evidence.contains_key(artifact.digest@) && evidence[artifact.digest@].row is None
            ==> artifact_status(root, artifact, evidence, require_all) == Ok::<_, Fault>(
            IntegrityStatus::MissingArtifact,
        ),
        evidence.contains_key(artifact.digest@) && (evidence[artifact.digest@].row matches Some(
            row,
        ) && record_row_fault(row) is None && metadata_fault(row_record(row)) is None
            && row.byte_len == artifact.size_bytes) && evidence[artifact.digest@].linked ==> {
            &&& evidence[artifact.digest@].observed is Missing ==> artifact_status(
                root,
                artifact,
                evidence,
                require_all,
            ) == Ok::<_, Fault>(IntegrityStatus::MissingArtifact)
            &&& evidence[artifact.digest@].observed is Irregular ==> artifact_status(
                root,
                artifact,
                evidence,
                require_all,
            ) == Ok::<_, Fault>(IntegrityStatus::DigestMismatch)
        },
{
}

/// An atom is complete exactly where every artifact that it declares is.
pub proof fn law_atom_is_complete_artifact_by_artifact(
    root: Seq<char>,
    artifacts: Seq<ArtifactDeclaration>,
    evidence: Map<Seq<u8>, DeclaredArtifact>,
    require_all: bool,
    i: int,
)
    requires
        0 <= i <= artifacts.len(),
    ensures
        artifacts_status(root, artifacts, evidence, require_all, i) == Ok::<_, Fault>(
            IntegrityStatus::Complete,
        ) <==> forall|k: int|
            i <= k < artifacts.len() ==> artifact_status(
                root,
                #[trigger] artifacts[k],
                evidence,
                require_all,
            ) == Ok::<_, Fault>(IntegrityStatus::Complete),
    decreases artifacts.len() - i,
{
    if i < artifacts.len() {
        law_atom_is_complete_artifact_by_artifact(root, artifacts, evidence, require_all, i + 1);
        if artifacts_status(root, artifacts, evidence, require_all, i) == Ok::<_, Fault>(
            IntegrityStatus::Complete,
        ) {
            assert(artifact_status(root, artifacts[i], evidence, require_all) == Ok::<_, Fault>(
                IntegrityStatus::Complete,
            ));
        }
    }
}

/// An atom is recalled exactly where its rows are there, its body is read back as what was stored,
/// every column says what the body says, one full-text row has its text and every artifact is
/// complete; a short-term atom must have all of its artifacts.
pub proof fn law_atom_is_recalled_exactly(
    root: Seq<char>,
    atom_id: Seq<u8>,
    stored: StoredRetrievalAtom,
    typed: CoreAtom,
    fts: FtsSummary,
    evidence: Map<Seq<u8>, DeclaredArtifact>,
)
    requires
        record_fault(typed) is None,
    ensures
        retrieval_candidate_fault(
            root,
            atom_id,
            Some(stored),
            Ok::<CoreAtom, String>(typed),
            fts,
            evidence,
        ) is None <==> {
            let body = typed.body;
            let authority = typed.authority;
            let state = columns_state(stored.state);
            let searchable = lines(searchable_fields(body));
            &&& columns_fault(stored.state, column_names()) is None
            &&& stored.body_digest@.len() == 32
            &&& stored.provenance_digest@.len() == 32
            &&& stored.projection_digest@.len() == 32
            &&& authority.atom_id@ == atom_id
            &&& authority.atom_id@ == stored.body_digest@
            &&& stored.atom_kind@ == kind_name(body.payload.kind())
            &&& stored.memory_space_id@ == body.scope.memory_space_id@
            &&& optional_text(stored.repository_id) == optional_text(body.scope.repository_id)
            &&& optional_text(stored.task_id) == optional_text(body.scope.task_id)
            &&& optional_text(stored.agent_id) == optional_text(body.scope.agent_id)
            &&& optional_text(stored.session_id) == Some(body.scope.session_id@)
            &&& stored.recorded_at_us == body.interval.recorded_at_us
            &&& stored.body_bytes == authority.canonical_body@.len()
            &&& stored.retention_permission@ == permission_name(body.retention_permission)
            &&& stored.provenance_digest@ == domain_digest(
                provenance_domain(),
                authority.canonical_provenance@,
            )
            &&& stored.canonical_body@ == authority.canonical_body@
            &&& stored.json_projection@ == authority.json_projection@
            &&& stored.state.retention_tier@ == tier_name(state.retention_tier)
            &&& stored.state.content_status@ == status_name(state.content_status)
            &&& stored.searchable_text@ == searchable
            &&& json_array(texts(body.topic_keys@)) == Ok::<Seq<char>, Seq<char>>(
                stored.topic_keys_json@,
            )
            &&& json_array(texts(body.entity_ids@)) == Ok::<Seq<char>, Seq<char>>(
                stored.entity_ids_json@,
            )
            &&& optional_text(stored.outcome_class) == optional_text(body.outcome_class)
            &&& stored.projection_digest@ == sha256_of(
                projection_transcript(
                    searchable,
                    stored.topic_keys_json@,
                    stored.entity_ids_json@,
                    optional_text(body.outcome_class),
                ),
            )
            &&& fts.row_count == 1
            &&& optional_text(fts.least_text) == Some(searchable)
            &&& optional_text(fts.greatest_text) == Some(searchable)
            &&& artifacts_status(
                root,
                body.artifacts@,
                evidence,
                state.retention_tier is ShortTerm,
                0,
            ) == Ok::<_, Fault>(IntegrityStatus::Complete)
        },
{
}

/// An atom becomes a candidate of retirement exactly where its projection is its own, its state can
/// be read and the integrity of all of its artifacts can be told.
pub proof fn law_cohort_candidate_is_accepted_exactly(
    root: Seq<char>,
    atom_id: Seq<u8>,
    parsed: Result<CoreAtom, String>,
    columns: StateColumns,
    evidence: Map<Seq<u8>, DeclaredArtifact>,
)
    ensures
        core_candidate_fault(root, atom_id, parsed, columns, evidence) is None <==> {
            &&& parsed matches Ok(typed)
            &&& typed.authority.atom_id@ == atom_id
            &&& columns_fault(columns, column_names()) is None
            &&& artifacts_status(root, typed.body.artifacts@, evidence, true, 0) is Ok
        },
{
}

} // verus!
