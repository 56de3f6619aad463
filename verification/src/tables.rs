//! The immutable authority tables, loaded and checked row by row.

use vstd::prelude::*;
use vstd::string::*;

use crate::artifact::{
    ArtifactRecord, ArtifactStore, MAX_ARTIFACT_BYTES, RecordView, artifact_path, copy_record,
};
use crate::bytemap::ByteMap;
use crate::error::{Fault, StoreError, either_fault, fault_of, fault_when, integrity};
use crate::folding::{folded, lemma_folded_step, lemma_folded_stops};
use crate::messages::{integrity_about, integrity_fault};
use crate::model::{kind_from_store, kind_named};
use crate::records::{ProjectedProvenance, domain_digest, hash_provenance, provenance_domain};
use crate::stored::{digest_array, digest_fault, digest_seq, same_digest, same_digests};
use crate::text::{copy_bytes, same_bytes, same_text};

verus! {

/// The error of a fold, or the view of the table that it gave.
pub open spec fn loaded<T, M>(result: Result<T, StoreError>, view: spec_fn(T) -> M) -> Result<M, Fault> {
    match result {
        Ok(table) => Ok(view(table)),
        Err(error) => Err(error@),
    }
}

// ---------------------------------------------------------------------------------------------
// Headers

/// A row of the header table.
#[derive(Clone, Debug)]
pub struct HeaderRow {
    pub atom_id: Vec<u8>,
    pub memory_space_id: String,
    pub atom_kind: String,
    pub body_digest: Vec<u8>,
}

/// What the header of an atom says.
#[derive(Clone, Debug)]
pub struct HeaderAuthority {
    pub memory_space_id: String,
    pub atom_kind: String,
    pub body_digest: [u8; 32],
}

/// The mathematical content of a [`HeaderAuthority`].
#[verifier::ext_equal]
pub struct HeaderView {
    pub memory_space_id: Seq<char>,
    pub atom_kind: Seq<char>,
    pub body_digest: Seq<u8>,
}

impl View for HeaderAuthority {
    type V = HeaderView;

    open spec fn view(&self) -> HeaderView {
        HeaderView {
            memory_space_id: self.memory_space_id@,
            atom_kind: self.atom_kind@,
            body_digest: self.body_digest@,
        }
    }
}

/// The headers by atom.
pub type Headers = ByteMap<HeaderAuthority>;

/// The mathematical content of a header table.
pub open spec fn header_views(headers: Headers) -> Map<Seq<u8>, HeaderView> {
    headers@.map_values(|header: HeaderAuthority| header@)
}

/// The fault of a header row.
pub open spec fn header_row_fault(row: HeaderRow) -> Option<Fault> {
    either_fault(
        digest_fault(row.atom_id@, "integrity atom_id"@),
        either_fault(
            digest_fault(row.body_digest@, "integrity body_digest"@),
            fault_when(
                row.atom_id@ != row.body_digest@ || row.memory_space_id@.len() == 0 || kind_named(
                    row.atom_kind@,
                ) is None,
                integrity_fault("atom "@, row.atom_id@, " has an invalid immutable header"@),
            ),
        ),
    )
}

/// Takes one header row in. An atom has one header.
pub open spec fn header_step(table: Map<Seq<u8>, HeaderView>, row: HeaderRow) -> Result<
    Map<Seq<u8>, HeaderView>,
    Fault,
> {
    match header_row_fault(row) {
        Some(fault) => Err(fault),
        None => if table.contains_key(row.atom_id@) {
            Err(Fault::Integrity("duplicate atom header authority"@))
        } else {
            Ok(
                table.insert(
                    row.atom_id@,
                    HeaderView {
                        memory_space_id: row.memory_space_id@,
                        atom_kind: row.atom_kind@,
                        body_digest: row.body_digest@,
                    },
                ),
            )
        },
    }
}

/// The header table that rows give.
pub open spec fn header_table(rows: Seq<HeaderRow>) -> Result<Map<Seq<u8>, HeaderView>, Fault> {
    folded(
        rows,
        Map::<Seq<u8>, HeaderView>::empty(),
        |table: Map<Seq<u8>, HeaderView>, row: HeaderRow| header_step(table, row),
    )
}

fn take_header(headers: &mut Headers, row: &HeaderRow) -> (verdict: Result<(), StoreError>)
    ensures
        match verdict {
            Ok(_) => header_step(header_views(*old(headers)), *row) == Ok::<
                Map<Seq<u8>, HeaderView>,
                Fault,
            >(header_views(*final(headers))),
            Err(error) => header_step(header_views(*old(headers)), *row) == Err::<
                Map<Seq<u8>, HeaderView>,
                Fault,
            >(error@),
        },
{
    let atom_id = digest_array(row.atom_id.as_slice(), "integrity atom_id")?;
    let body_digest = digest_array(row.body_digest.as_slice(), "integrity body_digest")?;
    if !same_digest(&atom_id, &body_digest) || row.memory_space_id.as_str().is_empty()
        || kind_from_store(row.atom_kind.as_str()).is_none() {
        return Err(integrity_about("atom ", &atom_id, " has an invalid immutable header"));
    }
    if headers.contains_key(row.atom_id.as_slice()) {
        return Err(integrity("duplicate atom header authority"));
    }
    let header = HeaderAuthority {
        memory_space_id: row.memory_space_id.clone(),
        atom_kind: row.atom_kind.clone(),
        body_digest,
    };
    let ghost view = header@;
    headers.insert(copy_bytes(row.atom_id.as_slice()), header);
    assert(header_views(*headers) =~= header_views(*old(headers)).insert(row.atom_id@, view));
    Ok(())
}

/// Loads the header table.
#[verifier::loop_isolation(false)]
pub fn load_header_authorities(rows: &Vec<HeaderRow>) -> (headers: Result<Headers, StoreError>)
    ensures
        loaded(headers, |headers: Headers| header_views(headers)) == header_table(rows@),
{
    let ghost start = Map::<Seq<u8>, HeaderView>::empty();
    let ghost step = |table: Map<Seq<u8>, HeaderView>, row: HeaderRow| header_step(table, row);
    let mut headers: Headers = ByteMap::new();
    assert(header_views(headers) =~= start);
    let mut i: usize = 0;
    while i < rows.len()
        invariant
            i <= rows@.len(),
            folded(rows@.subrange(0, i as int), start, step) == Ok::<Map<Seq<u8>, HeaderView>, Fault>(
                header_views(headers),
            ),
        decreases rows@.len() - i,
    {
        proof {
            lemma_folded_step(rows@, start, step, i as int);
        }
        match take_header(&mut headers, &rows[i]) {
            Ok(()) => {},
            Err(error) => {
                proof {
                    lemma_folded_stops(rows@, start, step, i + 1);
                }
                return Err(error);
            },
        }
        i += 1;
    }
    assert(rows@.subrange(0, i as int) =~= rows@);
    Ok(headers)
}

// ---------------------------------------------------------------------------------------------
// Artifacts

/// A row of the artifact table.
#[derive(Clone, Debug)]
pub struct ArtifactRow {
    pub record: ArtifactRecord,
    pub integrity_status: String,
}

/// What the metadata of an artifact says.
#[derive(Clone, Debug)]
pub struct ArtifactAuthority {
    pub record: ArtifactRecord,
    pub integrity_status: String,
}

/// The mathematical content of an [`ArtifactAuthority`].
#[verifier::ext_equal]
pub struct ArtifactAuthorityView {
    pub record: RecordView,
    pub integrity_status: Seq<char>,
}

impl View for ArtifactAuthority {
    type V = ArtifactAuthorityView;

    open spec fn view(&self) -> ArtifactAuthorityView {
        ArtifactAuthorityView { record: self.record@, integrity_status: self.integrity_status@ }
    }
}

/// The artifacts by digest.
pub type Artifacts = ByteMap<ArtifactAuthority>;

/// The mathematical content of an artifact table.
pub open spec fn artifact_views(artifacts: Artifacts) -> Map<Seq<u8>, ArtifactAuthorityView> {
    artifacts@.map_values(|artifact: ArtifactAuthority| artifact@)
}

/// The fault of an artifact row.
pub open spec fn artifact_row_fault(row: ArtifactRow) -> Option<Fault> {
    fault_when(
        row.record.byte_len > MAX_ARTIFACT_BYTES || row.record.relative_path@ != artifact_path(
            row.record.digest@,
        ) || !(row.integrity_status@ == "verified"@ || row.integrity_status@ == "quarantined"@),
        integrity_fault("artifact "@, row.record.digest@, " has invalid metadata authority"@),
    )
}

/// Takes one artifact row in. An artifact has one row.
pub open spec fn artifact_step(table: Map<Seq<u8>, ArtifactAuthorityView>, row: ArtifactRow) -> Result<
    Map<Seq<u8>, ArtifactAuthorityView>,
    Fault,
> {
    match artifact_row_fault(row) {
        Some(fault) => Err(fault),
        None => if table.contains_key(row.record.digest@) {
            Err(Fault::Integrity("duplicate artifact authority"@))
        } else {
            Ok(
                table.insert(
                    row.record.digest@,
                    ArtifactAuthorityView {
                        record: row.record@,
                        integrity_status: row.integrity_status@,
                    },
                ),
            )
        },
    }
}

fn take_artifact(table: &mut Artifacts, row: &ArtifactRow) -> (verdict: Result<(), StoreError>)
    ensures
        match verdict {
            Ok(_) => artifact_step(artifact_views(*old(table)), *row) == Ok::<Map<Seq<u8>, ArtifactAuthorityView>, Fault>(
                artifact_views(*final(table)),
            ),
            Err(error) => artifact_step(artifact_views(*old(table)), *row) == Err::<Map<Seq<u8>, ArtifactAuthorityView>, Fault>(
                error@,
            ),
        },
{
    let digest = row.record.digest;
    let expected_path = ArtifactStore::relative_path_for(digest);
    if row.record.byte_len > MAX_ARTIFACT_BYTES || !same_text(
        row.record.relative_path.as_str(),
        expected_path.as_str(),
    ) || !(same_text(row.integrity_status.as_str(), "verified") || same_text(
        row.integrity_status.as_str(),
        "quarantined",
    )) {
        return Err(integrity_about("artifact ", &digest.0, " has invalid metadata authority"));
    }
    if table.contains_key(digest.0.as_slice()) {
        return Err(integrity("duplicate artifact authority"));
    }
    let authority = ArtifactAuthority {
        record: copy_record(&row.record),
        integrity_status: row.integrity_status.clone(),
    };
    let ghost view = authority@;
    table.insert(copy_bytes(digest.0.as_slice()), authority);
    assert(artifact_views(*table) =~= artifact_views(*old(table)).insert(digest@, view));
    Ok(())
}

/// The artifact table that rows give.
pub open spec fn artifact_table(rows: Seq<ArtifactRow>) -> Result<Map<Seq<u8>, ArtifactAuthorityView>, Fault> {
    folded(
        rows,
        Map::<Seq<u8>, ArtifactAuthorityView>::empty(),
        |table: Map<Seq<u8>, ArtifactAuthorityView>, row: ArtifactRow| artifact_step(table, row),
    )
}

/// Loads the artifact table.
#[verifier::loop_isolation(false)]
pub fn load_artifact_authorities(rows: &Vec<ArtifactRow>) -> (table: Result<Artifacts, StoreError>)
    ensures
        loaded(table, |table: Artifacts| artifact_views(table)) == artifact_table(rows@),
{
    let ghost start = Map::<Seq<u8>, ArtifactAuthorityView>::empty();
    let ghost step = |table: Map<Seq<u8>, ArtifactAuthorityView>, row: ArtifactRow| artifact_step(table, row);
    let mut table: Artifacts = ByteMap::new();
    assert(artifact_views(table) =~= start);
    let mut i: usize = 0;
    while i < rows.len()
        invariant
            i <= rows@.len(),
            folded(rows@.subrange(0, i as int), start, step) == Ok::<Map<Seq<u8>, ArtifactAuthorityView>, Fault>(
                artifact_views(table),
            ),
        decreases rows@.len() - i,
    {
        proof {
            lemma_folded_step(rows@, start, step, i as int);
        }
        match take_artifact(&mut table, &rows[i]) {
            Ok(()) => {},
            Err(error) => {
                proof {
                    lemma_folded_stops(rows@, start, step, i + 1);
                }
                return Err(error);
            },
        }
        i += 1;
    }
    assert(rows@.subrange(0, i as int) =~= rows@);
    Ok(table)
}

// ---------------------------------------------------------------------------------------------
// Provenance

/// One source event of a provenance row.
#[derive(Clone, Debug)]
pub struct SourceRow {
    pub ordinal: i64,
    pub digest: Vec<u8>,
}

/// A row of the provenance table with its source events and what its JSON projection reads as.
#[derive(Debug)]
pub struct ProvenanceRow {
    pub atom_id: Vec<u8>,
    pub producer: String,
    pub policy_digest: Vec<u8>,
    pub canonical: Vec<u8>,
    pub json: String,
    pub provenance_digest: Vec<u8>,
    pub sources: Vec<SourceRow>,
    pub projected: Result<ProjectedProvenance, String>,
}

/// What the provenance of an atom says.
#[derive(Clone, Debug)]
pub struct ProvenanceAuthority {
    pub producer: String,
    pub policy_digest: [u8; 32],
    pub canonical_provenance: Vec<u8>,
    pub json_projection: String,
    pub provenance_digest: [u8; 32],
    pub source_event_digests: Vec<[u8; 32]>,
}

/// The mathematical content of a [`ProvenanceAuthority`].
#[verifier::ext_equal]
pub struct ProvenanceView {
    pub producer: Seq<char>,
    pub policy_digest: Seq<u8>,
    pub canonical_provenance: Seq<u8>,
    pub json_projection: Seq<char>,
    pub provenance_digest: Seq<u8>,
    pub source_event_digests: Seq<Seq<u8>>,
}

impl View for ProvenanceAuthority {
    type V = ProvenanceView;

    open spec fn view(&self) -> ProvenanceView {
        ProvenanceView {
            producer: self.producer@,
            policy_digest: self.policy_digest@,
            canonical_provenance: self.canonical_provenance@,
            json_projection: self.json_projection@,
            provenance_digest: self.provenance_digest@,
            source_event_digests: digest_seq(self.source_event_digests@),
        }
    }
}

/// The provenance by atom.
pub type Provenances = ByteMap<ProvenanceAuthority>;

/// The mathematical content of a provenance table.
pub open spec fn provenance_views(provenance: Provenances) -> Map<Seq<u8>, ProvenanceView> {
    provenance@.map_values(|authority: ProvenanceAuthority| authority@)
}

/// The digests of a list of source rows.
pub open spec fn source_digests(rows: Seq<SourceRow>) -> Seq<Seq<u8>> {
    rows.map_values(|row: SourceRow| row.digest@)
}

/// The ordinal of the source at a place, at most the largest signed 64-bit integer.
pub open spec fn ordinal_at(place: int) -> int {
    if place > i64::MAX {
        i64::MAX as int
    } else {
        place
    }
}

/// The fault of the first source row whose ordinal is not its place or whose digest is none.
pub open spec fn sources_fault(rows: Seq<SourceRow>, atom_id: Seq<u8>) -> Option<Fault>
    decreases rows.len(),
{
    if rows.len() == 0 {
        None
    } else {
        either_fault(
            sources_fault(rows.drop_last(), atom_id),
            if rows.last().ordinal != ordinal_at(rows.len() - 1) {
                Some(
                    integrity_fault(
                        "atom provenance "@,
                        atom_id,
                        " source ordinals are not contiguous"@,
                    ),
                )
            } else {
                digest_fault(rows.last().digest@, "source_event_digest"@)
            },
        )
    }
}

proof fn lemma_sources_fault_stops(rows: Seq<SourceRow>, atom_id: Seq<u8>, i: int)
    requires
        0 <= i <= rows.len(),
        sources_fault(rows.subrange(0, i), atom_id) is Some,
    ensures
        sources_fault(rows, atom_id) == sources_fault(rows.subrange(0, i), atom_id),
    decreases rows.len() - i,
{
    if i == rows.len() {
        assert(rows.subrange(0, i) =~= rows);
    } else {
        assert(rows.subrange(0, i + 1).drop_last() =~= rows.subrange(0, i));
        lemma_sources_fault_stops(rows, atom_id, i + 1);
    }
}

#[verifier::loop_isolation(false)]
fn read_sources(rows: &Vec<SourceRow>, atom_id: &[u8; 32]) -> (sources: Result<
    Vec<[u8; 32]>,
    StoreError,
>)
    ensures
        fault_of(sources) == sources_fault(rows@, atom_id@),
        sources matches Ok(sources) ==> digest_seq(sources@) == source_digests(rows@),
{
    let mut sources: Vec<[u8; 32]> = Vec::new();
    let mut i: usize = 0;
    while i < rows.len()
        invariant
            i <= rows@.len(),
            sources_fault(rows@.subrange(0, i as int), atom_id@) is None,
            digest_seq(sources@) == source_digests(rows@.subrange(0, i as int)),
        decreases rows@.len() - i,
    {
        proof {
            assert(rows@.subrange(0, i + 1).drop_last() =~= rows@.subrange(0, i as int));
            assert(rows@.subrange(0, i + 1).last() == rows@[i as int]);
        }
        let expected: i64 = if i as u64 > i64::MAX as u64 {
            i64::MAX
        } else {
            i as i64
        };
        if rows[i].ordinal != expected {
            proof {
                lemma_sources_fault_stops(rows@, atom_id@, i + 1);
            }
            return Err(
                integrity_about(
                    "atom provenance ",
                    atom_id,
                    " source ordinals are not contiguous",
                ),
            );
        }
        match digest_array(rows[i].digest.as_slice(), "source_event_digest") {
            Ok(digest) => {
                let ghost before = sources@;
                sources.push(digest);
                assert(digest_seq(sources@) =~= digest_seq(before).push(digest@));
            },
            Err(error) => {
                proof {
                    lemma_sources_fault_stops(rows@, atom_id@, i + 1);
                }
                return Err(error);
            },
        }
        assert(source_digests(rows@.subrange(0, i + 1)) =~= source_digests(
            rows@.subrange(0, i as int),
        ).push(rows@[i as int].digest@));
        i += 1;
    }
    assert(rows@.subrange(0, i as int) =~= rows@);
    Ok(sources)
}

/// Whether a projected provenance agrees with its row.
pub open spec fn projection_agrees(projected: ProjectedProvenance, row: ProvenanceRow) -> bool {
    &&& projected.producer@ == row.producer@
    &&& projected.policy_digest@ == row.policy_digest@
    &&& projected.canonical@ == row.canonical@
    &&& digest_seq(projected.source_event_digests@) == source_digests(row.sources@)
    &&& domain_digest(provenance_domain(), row.canonical@) == row.provenance_digest@
}

/// The fault of a provenance row.
pub open spec fn provenance_row_fault(row: ProvenanceRow, headers: Headers) -> Option<Fault> {
    either_fault(
        digest_fault(row.atom_id@, "provenance atom_id"@),
        if !headers@.contains_key(row.atom_id@) || row.producer@.len() == 0 {
            Some(
                integrity_fault("atom provenance "@, row.atom_id@, " has no header or producer"@),
            )
        } else {
            either_fault(
                sources_fault(row.sources@, row.atom_id@),
                match row.projected {
                    Err(text) => Some(Fault::Json(text@)),
                    Ok(projected) => either_fault(
                        digest_fault(row.policy_digest@, "provenance policy_digest"@),
                        either_fault(
                            digest_fault(row.provenance_digest@, "provenance_digest"@),
                            fault_when(
                                !projection_agrees(projected, row),
                                integrity_fault(
                                    "atom provenance "@,
                                    row.atom_id@,
                                    " failed canonical closure"@,
                                ),
                            ),
                        ),
                    ),
                },
            )
        },
    )
}

/// Takes one provenance row in. An atom has one provenance.
pub open spec fn provenance_step(
    table: Map<Seq<u8>, ProvenanceView>,
    row: ProvenanceRow,
    headers: Headers,
) -> Result<Map<Seq<u8>, ProvenanceView>, Fault> {
    match provenance_row_fault(row, headers) {
        Some(fault) => Err(fault),
        None => if table.contains_key(row.atom_id@) {
            Err(Fault::Integrity("duplicate atom provenance authority"@))
        } else {
            Ok(
                table.insert(
                    row.atom_id@,
                    ProvenanceView {
                        producer: row.producer@,
                        policy_digest: row.policy_digest@,
                        canonical_provenance: row.canonical@,
                        json_projection: row.json@,
                        provenance_digest: row.provenance_digest@,
                        source_event_digests: source_digests(row.sources@),
                    },
                ),
            )
        },
    }
}

fn take_provenance(table: &mut Provenances, row: &ProvenanceRow, headers: &Headers) -> (verdict: Result<(), StoreError>)
    ensures
        match verdict {
            Ok(_) => provenance_step(provenance_views(*old(table)), *row, *headers) == Ok::<Map<Seq<u8>, ProvenanceView>, Fault>(
                provenance_views(*final(table)),
            ),
            Err(error) => provenance_step(provenance_views(*old(table)), *row, *headers) == Err::<Map<Seq<u8>, ProvenanceView>, Fault>(
                error@,
            ),
        },
{
    let atom_id = digest_array(row.atom_id.as_slice(), "provenance atom_id")?;
    if !headers.contains_key(row.atom_id.as_slice()) || row.producer.as_str().is_empty() {
        return Err(integrity_about("atom provenance ", &atom_id, " has no header or producer"));
    }
    let sources = read_sources(&row.sources, &atom_id)?;
    let projected = match &row.projected {
        Ok(projected) => projected,
        Err(text) => return Err(StoreError::Json(text.clone())),
    };
    let policy_digest = digest_array(row.policy_digest.as_slice(), "provenance policy_digest")?;
    let provenance_digest = digest_array(row.provenance_digest.as_slice(), "provenance_digest")?;
    let expected_digest = hash_provenance(row.canonical.as_slice());
    if !same_text(projected.producer.as_str(), row.producer.as_str()) || !same_digest(
        &projected.policy_digest,
        &policy_digest,
    ) || !same_bytes(projected.canonical.as_slice(), row.canonical.as_slice()) || !same_digests(
        projected.source_event_digests.as_slice(),
        sources.as_slice(),
    ) || !same_digest(&expected_digest, &provenance_digest) {
        return Err(integrity_about("atom provenance ", &atom_id, " failed canonical closure"));
    }
    if table.contains_key(row.atom_id.as_slice()) {
        return Err(integrity("duplicate atom provenance authority"));
    }
    let authority = ProvenanceAuthority {
        producer: row.producer.clone(),
        policy_digest,
        canonical_provenance: copy_bytes(row.canonical.as_slice()),
        json_projection: row.json.clone(),
        provenance_digest,
        source_event_digests: sources,
    };
    let ghost view = authority@;
    table.insert(copy_bytes(row.atom_id.as_slice()), authority);
    assert(provenance_views(*table) =~= provenance_views(*old(table)).insert(row.atom_id@, view));
    Ok(())
}

/// The provenance table that rows give.
pub open spec fn provenance_table(rows: Seq<ProvenanceRow>, headers: Headers) -> Result<Map<Seq<u8>, ProvenanceView>, Fault> {
    folded(
        rows,
        Map::<Seq<u8>, ProvenanceView>::empty(),
        |table: Map<Seq<u8>, ProvenanceView>, row: ProvenanceRow| provenance_step(table, row, headers),
    )
}

/// Loads the provenance table.
#[verifier::loop_isolation(false)]
pub fn load_provenance_authorities(rows: &Vec<ProvenanceRow>, headers: &Headers) -> (table: Result<Provenances, StoreError>)
    ensures
        loaded(table, |table: Provenances| provenance_views(table)) == provenance_table(rows@, *headers),
{
    let ghost start = Map::<Seq<u8>, ProvenanceView>::empty();
    let ghost step = |table: Map<Seq<u8>, ProvenanceView>, row: ProvenanceRow| provenance_step(table, row, *headers);
    let mut table: Provenances = ByteMap::new();
    assert(provenance_views(table) =~= start);
    let mut i: usize = 0;
    while i < rows.len()
        invariant
            i <= rows@.len(),
            folded(rows@.subrange(0, i as int), start, step) == Ok::<Map<Seq<u8>, ProvenanceView>, Fault>(
                provenance_views(table),
            ),
        decreases rows@.len() - i,
    {
        proof {
            lemma_folded_step(rows@, start, step, i as int);
        }
        match take_provenance(&mut table, &rows[i], headers) {
            Ok(()) => {},
            Err(error) => {
                proof {
                    lemma_folded_stops(rows@, start, step, i + 1);
                }
                return Err(error);
            },
        }
        i += 1;
    }
    assert(rows@.subrange(0, i as int) =~= rows@);
    Ok(table)
}

/// Headers are indexed exactly: a header more is taken where it is of a known kind, in a memory
/// space, under the digest of its body and not there yet, and then stands under its identity with
/// nothing else changed.
pub proof fn law_headers_are_indexed_exactly(rows: Seq<HeaderRow>, row: HeaderRow)
    ensures
        header_table(Seq::<HeaderRow>::empty()) == Ok::<_, Fault>(
            Map::<Seq<u8>, HeaderView>::empty(),
        ),
        header_table(rows.push(row)) is Ok <==> {
            &&& header_table(rows) matches Ok(table)
            &&& row.atom_id@.len() == 32
            &&& row.body_digest@ == row.atom_id@
            &&& row.memory_space_id@.len() > 0
            &&& row.atom_kind@ == "episode"@ || row.atom_kind@ == "semantic"@
            &&& !table.contains_key(row.atom_id@)
        },
        header_table(rows.push(row)) matches Ok(after) ==> {
            &&& header_table(rows) matches Ok(table)
            &&& after.remove(row.atom_id@) == table
            &&& after.contains_key(row.atom_id@)
            &&& after[row.atom_id@].memory_space_id == row.memory_space_id@
            &&& after[row.atom_id@].atom_kind == row.atom_kind@
            &&& after[row.atom_id@].body_digest == row.body_digest@
        },
{
    let step = |table: Map<Seq<u8>, HeaderView>, row: HeaderRow| header_step(table, row);
    crate::folding::lemma_folded_push(rows, row, Map::<Seq<u8>, HeaderView>::empty(), step);
    if let Ok(after) = header_table(rows.push(row)) {
        assert(after.remove(row.atom_id@) =~= header_table(rows)->Ok_0);
    }
}

/// Artifacts are indexed exactly: one more is taken where it is no larger than 64 MiB, stands under
/// the path of its digest, is verified or quarantined and is not there yet.
pub proof fn law_artifacts_are_indexed_exactly(rows: Seq<ArtifactRow>, row: ArtifactRow)
    ensures
        artifact_table(Seq::<ArtifactRow>::empty()) == Ok::<_, Fault>(
            Map::<Seq<u8>, ArtifactAuthorityView>::empty(),
        ),
        artifact_table(rows.push(row)) is Ok <==> {
            &&& artifact_table(rows) matches Ok(table)
            &&& row.record.byte_len <= 64 * 1024 * 1024
            &&& row.record.relative_path@ == artifact_path(row.record.digest@)
            &&& row.integrity_status@ == "verified"@ || row.integrity_status@ == "quarantined"@
            &&& !table.contains_key(row.record.digest@)
        },
        artifact_table(rows.push(row)) matches Ok(after) ==> {
            &&& artifact_table(rows) matches Ok(table)
            &&& after.remove(row.record.digest@) == table
            &&& after.contains_key(row.record.digest@)
            &&& after[row.record.digest@].record == row.record@
            &&& after[row.record.digest@].integrity_status == row.integrity_status@
        },
{
    let step = |table: Map<Seq<u8>, ArtifactAuthorityView>, row: ArtifactRow|
        artifact_step(table, row);
    crate::folding::lemma_folded_push(
        rows,
        row,
        Map::<Seq<u8>, ArtifactAuthorityView>::empty(),
        step,
    );
    if let Ok(after) = artifact_table(rows.push(row)) {
        assert(after.remove(row.record.digest@) =~= artifact_table(rows)->Ok_0);
    }
}

/// The sources of a provenance are accepted exactly where they are digests numbered from zero.
pub proof fn law_sources_are_numbered_from_zero(rows: Seq<SourceRow>, atom_id: Seq<u8>)
    requires
        rows.len() <= i64::MAX,
    ensures
        sources_fault(rows, atom_id) is None <==> forall|i: int|
            0 <= i < rows.len() ==> (#[trigger] rows[i]).ordinal == i && rows[i].digest@.len()
                == 32,
    decreases rows.len(),
{
    if rows.len() > 0 {
        let shorter = rows.drop_last();
        let last = rows.len() - 1;
        law_sources_are_numbered_from_zero(shorter, atom_id);
        assert(rows.last() == rows[last]);
        if sources_fault(rows, atom_id) is None {
            assert forall|i: int| 0 <= i < rows.len() implies (#[trigger] rows[i]).ordinal == i
                && rows[i].digest@.len() == 32 by {
                if i < last {
                    assert(shorter[i] == rows[i]);
                }
            }
        }
        if forall|i: int|
            0 <= i < rows.len() ==> (#[trigger] rows[i]).ordinal == i && rows[i].digest@.len()
                == 32 {
            assert forall|i: int| 0 <= i < shorter.len() implies (#[trigger] shorter[i]).ordinal
                == i && shorter[i].digest@.len() == 32 by {
                assert(shorter[i] == rows[i]);
            }
        }
    }
}

/// Provenance is indexed exactly: one more is taken where its atom has a header, it has a producer,
/// its sources are in order, its projection says the same, its digest is its own and it is not
/// there yet.
pub proof fn law_provenance_is_indexed_exactly(
    rows: Seq<ProvenanceRow>,
    row: ProvenanceRow,
    headers: Headers,
)
    ensures
        provenance_table(rows.push(row), headers) is Ok <==> {
            &&& provenance_table(rows, headers) matches Ok(table)
            &&& row.atom_id@.len() == 32
            &&& headers@.contains_key(row.atom_id@)
            &&& row.producer@.len() > 0
            &&& sources_fault(row.sources@, row.atom_id@) is None
            &&& row.projected matches Ok(projected)
            &&& projected.producer@ == row.producer@
            &&& projected.policy_digest@ == row.policy_digest@
            &&& projected.canonical@ == row.canonical@
            &&& digest_seq(projected.source_event_digests@) == source_digests(row.sources@)
            &&& row.provenance_digest@ == domain_digest(provenance_domain(), row.canonical@)
            &&& row.provenance_digest@.len() == 32
            &&& !table.contains_key(row.atom_id@)
        },
        provenance_table(rows.push(row), headers) matches Ok(after) ==> {
            &&& provenance_table(rows, headers) matches Ok(table)
            &&& after.remove(row.atom_id@) == table
            &&& after.contains_key(row.atom_id@)
            &&& after[row.atom_id@].producer == row.producer@
            &&& after[row.atom_id@].policy_digest == row.policy_digest@
            &&& after[row.atom_id@].canonical_provenance == row.canonical@
            &&& after[row.atom_id@].json_projection == row.json@
            &&& after[row.atom_id@].provenance_digest == row.provenance_digest@
            &&& after[row.atom_id@].source_event_digests.len() == row.sources@.len()
            &&& forall|i: int|
                0 <= i < row.sources@.len() ==> #[trigger] after[row.atom_id@].source_event_digests[i]
                    == row.sources@[i].digest@
        },
{
    let step = |table: Map<Seq<u8>, ProvenanceView>, row: ProvenanceRow|
        provenance_step(table, row, headers);
    crate::folding::lemma_folded_push(rows, row, Map::<Seq<u8>, ProvenanceView>::empty(), step);
    if let Ok(after) = provenance_table(rows.push(row), headers) {
        assert(after.remove(row.atom_id@) =~= provenance_table(rows, headers)->Ok_0);
    }
}

} // verus!
