//! The links of an atom to artifacts and to other atoms: preparing them, checking them and
//! confirming that they were stored.

use vstd::prelude::*;
use vstd::string::*;

use crate::artifact::{
    ArtifactDigest, ArtifactRecord, ArtifactStore, ObservedPath, artifact_path, join_path,
    joined_path, metadata_fault, path_fault, record_of, same_record,
};
use crate::artifact_rows::{
    ArtifactFileRow, artifact_record_from_row, record_row_fault, row_record,
};
use crate::bags::{byte_strings, same_bag};
use crate::bytemap::ByteMap;
use crate::closure::{
    declared_link_keys, declared_links, lemma_all_links_kept, link_key_bytes, link_keys,
};
use crate::digest::{sha256, sha256_of};
use crate::edges::LinkView;
use crate::error::{
    Fault, StoreError, either_fault, fault_of, fault_when, integrity, invalid_input,
};
use crate::folding::{
    first_indexed, lemma_first_indexed_stops, lemma_no_first_indexed,
};
use crate::framing::{
    be64_bytes, frame, law_frame_is_self_delimiting, lemma_split, lemma_utf8_determines, utf8,
};
use crate::hexadecimal::{digest_hex, hex_text};
use crate::messages::{about, about_pair, integrity_about, integrity_fault, text_about, text_about_pair};
use crate::model::{
    ArtifactDeclaration, CoreAtom, MemoryAtomBody, RelationDeclaration, relation_kind_text,
    relation_name,
};
use crate::records::AtomRecord;
use crate::stored::{same_digest, sqlite_integer, sqlite_integer_fault, stored_bool};
use crate::text::{append_bytes, copy_bytes, same_bytes, same_text, text2, text3};

verus! {

/// The largest artifact that an atom may carry within its body.
pub const MAX_INLINE_BYTES: usize = 4096;

/// A link of an atom to an artifact.
#[derive(Clone, Debug)]
pub struct AtomArtifactLink {
    pub artifact_digest: ArtifactDigest,
    pub role: String,
    pub retention_allowed: bool,
}

impl View for AtomArtifactLink {
    type V = LinkView;

    open spec fn view(&self) -> LinkView {
        LinkView {
            digest: self.artifact_digest@,
            role: self.role@,
            retention_allowed: self.retention_allowed,
        }
    }
}

/// A link of an atom to another atom.
#[derive(Clone, Debug)]
pub struct AtomRelationLink {
    pub target_atom_id: [u8; 32],
    pub relation_kind: String,
    pub canonical_relation: Vec<u8>,
}

/// The mathematical content of an [`AtomRelationLink`].
#[verifier::ext_equal]
pub struct RelationLinkView {
    pub target_atom_id: Seq<u8>,
    pub relation_kind: Seq<char>,
    pub canonical_relation: Seq<u8>,
}

impl View for AtomRelationLink {
    type V = RelationLinkView;

    open spec fn view(&self) -> RelationLinkView {
        RelationLinkView {
            target_atom_id: self.target_atom_id@,
            relation_kind: self.relation_kind@,
            canonical_relation: self.canonical_relation@,
        }
    }
}

/// The mathematical content of a list of artifact links.
pub open spec fn artifact_link_list(links: Seq<AtomArtifactLink>) -> Seq<LinkView> {
    links.map_values(|link: AtomArtifactLink| link@)
}

/// The mathematical content of a list of relation links.
pub open spec fn relation_link_list(links: Seq<AtomRelationLink>) -> Seq<RelationLinkView> {
    links.map_values(|link: AtomRelationLink| link@)
}

/// The relation link that a declared relation stands for.
pub open spec fn relation_link(relation: RelationDeclaration) -> RelationLinkView {
    RelationLinkView {
        target_atom_id: relation.target@,
        relation_kind: relation_name(relation.kind),
        canonical_relation: relation.canonical@,
    }
}

/// The relation links that declared relations stand for.
pub open spec fn relation_links_of(relations: Seq<RelationDeclaration>) -> Seq<RelationLinkView> {
    relations.map_values(|relation: RelationDeclaration| relation_link(relation))
}

/// Lists the relation links of a body.
pub fn prepare_relation_links(relations: &Vec<RelationDeclaration>) -> (links: Vec<
    AtomRelationLink,
>)
    ensures
        relation_link_list(links@) == relation_links_of(relations@),
{
    let mut links: Vec<AtomRelationLink> = Vec::new();
    let mut i: usize = 0;
    while i < relations.len()
        invariant
            i <= relations@.len(),
            links@.len() == i,
            forall|k: int| 0 <= k < i ==> (#[trigger] links@[k])@ == relation_link(relations@[k]),
        decreases relations@.len() - i,
    {
        links.push(
            AtomRelationLink {
                target_atom_id: relations[i].target,
                relation_kind: relation_kind_text(relations[i].kind).to_owned(),
                canonical_relation: copy_bytes(relations[i].canonical.as_slice()),
            },
        );
        i += 1;
    }
    assert(relation_link_list(links@) =~= relation_links_of(relations@));
    links
}

// ---------------------------------------------------------------------------------------------
// Declared artifacts

/// What the store found while it prepared a declared artifact: what stood at its place before,
/// what stands at its place now, and its registered record.
#[derive(Clone, Debug)]
pub struct DeclaredEvidence {
    pub placed: ObservedPath,
    pub observed: ObservedPath,
    pub row: Option<ArtifactFileRow>,
}

/// The path that a missing artifact is reported with.
pub open spec fn missing_path(root: Seq<char>, digest: Seq<u8>) -> Seq<char> {
    joined_path(root, "digest:"@ + hex_text(digest))
}

/// Reports an artifact without a record.
pub fn missing_artifact(store: &ArtifactStore, digest: &[u8; 32]) -> (error: StoreError)
    ensures
        error@ == (Fault::ArtifactMissing { path: missing_path(store@, digest@) }),
{
    let hex = digest_hex(digest);
    let name = text2("digest:", hex.as_str());
    StoreError::ArtifactMissing { path: join_path(store.root(), name.as_str()) }
}

/// The fault of registering an artifact: it is not intact, its numbers do not fit, or another
/// record stands under its digest.
pub open spec fn registration_fault(
    root: Seq<char>,
    record: ArtifactRecord,
    created_at_us: u64,
    observed: ObservedPath,
    persisted: Option<ArtifactFileRow>,
) -> Option<Fault> {
    either_fault(
        metadata_fault(record@),
        either_fault(
            path_fault(
                joined_path(root, record@.relative_path),
                record@.digest,
                record@.byte_len,
                observed,
            ),
            either_fault(
                sqlite_integer_fault(record.byte_len, "artifact byte_len"@),
                either_fault(
                    sqlite_integer_fault(created_at_us, "created_at_us"@),
                    match persisted {
                        None => Some(Fault::Integrity("artifact insert disappeared"@)),
                        Some(row) => either_fault(
                            record_row_fault(row),
                            fault_when(
                                row_record(row) != record@,
                                Fault::ImmutableConflict(
                                    "artifact "@ + hex_text(record@.digest),
                                ),
                            ),
                        ),
                    },
                ),
            ),
        ),
    )
}

/// Confirms that an artifact is registered: what is at its path is the artifact, and the record
/// that was inserted or stood there before is its record.
pub fn register_artifact(
    store: &ArtifactStore,
    record: &ArtifactRecord,
    created_at_us: u64,
    observed: &ObservedPath,
    persisted: &Option<ArtifactFileRow>,
) -> (verdict: Result<(), StoreError>)
    ensures
        fault_of(verdict) == registration_fault(
            store@,
            *record,
            created_at_us,
            *observed,
            *persisted,
        ),
{
    store.verify(record, observed)?;
    sqlite_integer(record.byte_len, "artifact byte_len")?;
    sqlite_integer(created_at_us, "created_at_us")?;
    let row = match persisted {
        Some(row) => row,
        None => return Err(integrity("artifact insert disappeared")),
    };
    let stored = artifact_record_from_row(row)?;
    if !same_record(&stored, record) {
        let hex = digest_hex(&record.digest.0);
        return Err(StoreError::ImmutableConflict(text2("artifact ", hex.as_str())));
    }
    Ok(())
}

/// The fault of a declared artifact that the atom carries within its body.
pub open spec fn inline_artifact_fault(
    root: Seq<char>,
    artifact: ArtifactDeclaration,
    inline: Seq<u8>,
    recorded_at_us: u64,
    evidence: DeclaredEvidence,
) -> Option<Fault> {
    let record = record_of(inline);
    if inline.len() > MAX_INLINE_BYTES {
        Some(Fault::InvalidInput("inline artifact exceeds 4 KiB"@))
    } else {
        either_fault(
            if evidence.placed is Missing {
                None
            } else {
                path_fault(
                    joined_path(root, artifact_path(record.digest)),
                    record.digest,
                    record.byte_len,
                    evidence.placed,
                )
            },
            if record.digest != artifact.digest@ || record.byte_len != artifact.size_bytes {
                Some(Fault::Integrity("inline artifact digest or declared size mismatch"@))
            } else {
                inline_registration_fault(root, record, recorded_at_us, evidence)
            },
        )
    }
}

/// The fault of registering a record that was just ingested.
pub open spec fn inline_registration_fault(
    root: Seq<char>,
    record: crate::artifact::RecordView,
    recorded_at_us: u64,
    evidence: DeclaredEvidence,
) -> Option<Fault> {
    either_fault(
        metadata_fault(record),
        either_fault(
            path_fault(
                joined_path(root, record.relative_path),
                record.digest,
                record.byte_len,
                evidence.observed,
            ),
            either_fault(
                sqlite_integer_fault(record.byte_len, "artifact byte_len"@),
                either_fault(
                    sqlite_integer_fault(recorded_at_us, "created_at_us"@),
                    match evidence.row {
                        None => Some(Fault::Integrity("artifact insert disappeared"@)),
                        Some(row) => either_fault(
                            record_row_fault(row),
                            fault_when(
                                row_record(row) != record,
                                Fault::ImmutableConflict("artifact "@ + hex_text(record.digest)),
                            ),
                        ),
                    },
                ),
            ),
        ),
    )
}

/// The fault of a declared artifact that was registered before.
pub open spec fn registered_artifact_fault(
    root: Seq<char>,
    artifact: ArtifactDeclaration,
    evidence: DeclaredEvidence,
) -> Option<Fault> {
    match evidence.row {
        None => Some(Fault::ArtifactMissing { path: missing_path(root, artifact.digest@) }),
        Some(row) => {
            let record = row_record(row);
            either_fault(
                record_row_fault(row),
                if record.byte_len != artifact.size_bytes {
                    Some(Fault::Integrity("artifact declared size does not match CAS metadata"@))
                } else {
                    either_fault(
                        metadata_fault(record),
                        path_fault(
                            joined_path(root, record.relative_path),
                            record.digest,
                            record.byte_len,
                            evidence.observed,
                        ),
                    )
                },
            )
        },
    }
}

/// The fault of a declared artifact that cannot be linked.
pub open spec fn declared_artifact_fault(
    root: Seq<char>,
    artifact: ArtifactDeclaration,
    recorded_at_us: u64,
    evidence: DeclaredEvidence,
) -> Option<Fault> {
    match artifact.inline_payload {
        Some(inline) => inline_artifact_fault(root, artifact, inline@, recorded_at_us, evidence),
        None => registered_artifact_fault(root, artifact, evidence),
    }
}

/// Prepares the link of a declared artifact. One that the atom carries within its body is placed
/// in the store and registered; any other must already be registered, of the declared size and
/// intact.
pub fn prepare_artifact_link(
    store: &ArtifactStore,
    artifact: &ArtifactDeclaration,
    recorded_at_us: u64,
    evidence: &DeclaredEvidence,
) -> (link: Result<AtomArtifactLink, StoreError>)
    ensures
        fault_of(link) == declared_artifact_fault(store@, *artifact, recorded_at_us, *evidence),
        link matches Ok(link) ==> link@ == (LinkView {
            digest: artifact.digest@,
            role: artifact.media_type@,
            retention_allowed: artifact.retention_allowed,
        }),
{
    match &artifact.inline_payload {
        Some(inline) => {
            if inline.len() > MAX_INLINE_BYTES {
                return Err(invalid_input("inline artifact exceeds 4 KiB"));
            }
            let record = store.ingest_bytes(inline.as_slice())?;
            store.publish(&record, &evidence.placed)?;
            if !same_digest(&record.digest.0, &artifact.digest) || record.byte_len
                != artifact.size_bytes {
                return Err(integrity("inline artifact digest or declared size mismatch"));
            }
            register_artifact(
                store,
                &record,
                recorded_at_us,
                &evidence.observed,
                &evidence.row,
            )?;
        },
        None => {
            let row = match &evidence.row {
                Some(row) => row,
                None => return Err(missing_artifact(store, &artifact.digest)),
            };
            let record = artifact_record_from_row(row)?;
            if record.byte_len != artifact.size_bytes {
                return Err(integrity("artifact declared size does not match CAS metadata"));
            }
            store.verify(&record, &evidence.observed)?;
        },
    }
    Ok(
        AtomArtifactLink {
            artifact_digest: ArtifactDigest(artifact.digest),
            role: artifact.media_type.clone(),
            retention_allowed: artifact.retention_allowed,
        },
    )
}

// ---------------------------------------------------------------------------------------------
// Links against the store

/// A registered artifact, its integrity status and what was found at its path.
#[derive(Clone, Debug)]
pub struct LinkEvidence {
    pub row: ArtifactFileRow,
    pub integrity_status: String,
    pub observed: ObservedPath,
}

/// Whether an earlier link has the artifact and the role of the one at place `i`.
pub open spec fn repeats_link(links: Seq<AtomArtifactLink>, i: int) -> bool {
    exists|j: int|
        0 <= j < i && (#[trigger] links[j]).artifact_digest@ == links[i].artifact_digest@
            && links[j].role@ == links[i].role@
}

/// The fault of the artifact link at place `i`.
pub open spec fn artifact_link_fault(
    root: Seq<char>,
    links: Seq<AtomArtifactLink>,
    evidence: Map<Seq<u8>, LinkEvidence>,
    i: int,
) -> Option<Fault> {
    let digest = links[i].artifact_digest@;
    if links[i].role@.len() == 0 || repeats_link(links, i) {
        Some(Fault::InvalidInput("artifact links require non-empty, unique digest/role pairs"@))
    } else if !evidence.contains_key(digest) {
        Some(Fault::ArtifactMissing { path: missing_path(root, digest) })
    } else {
        let found = evidence[digest];
        let record = row_record(found.row);
        either_fault(
            record_row_fault(found.row),
            if found.integrity_status@ != "verified"@ {
                Some(integrity_fault("artifact "@, digest, " is not verified"@))
            } else {
                either_fault(
                    metadata_fault(record),
                    path_fault(
                        joined_path(root, record.relative_path),
                        record.digest,
                        record.byte_len,
                        found.observed,
                    ),
                )
            },
        )
    }
}

/// Whether an earlier link has the target and the kind of the one at place `i`.
pub open spec fn repeats_relation_link(links: Seq<AtomRelationLink>, i: int) -> bool {
    exists|j: int|
        0 <= j < i && (#[trigger] links[j]).target_atom_id@ == links[i].target_atom_id@
            && links[j].relation_kind@ == links[i].relation_kind@
}

/// The memory space of an atom, among those that are stored together first.
pub open spec fn space_of(
    batch: Map<Seq<u8>, String>,
    persisted: Map<Seq<u8>, String>,
    atom_id: Seq<u8>,
) -> Option<Seq<char>> {
    if batch.contains_key(atom_id) {
        Some(batch[atom_id]@)
    } else if persisted.contains_key(atom_id) {
        Some(persisted[atom_id]@)
    } else {
        None
    }
}

/// The fault of the relation link at place `i`.
pub open spec fn relation_link_fault(
    source_space: Seq<char>,
    links: Seq<AtomRelationLink>,
    batch: Map<Seq<u8>, String>,
    persisted: Map<Seq<u8>, String>,
    i: int,
) -> Option<Fault> {
    let link = links[i];
    if link.relation_kind@.len() == 0 || link.canonical_relation@.len() == 0
        || repeats_relation_link(links, i) {
        Some(
            Fault::InvalidInput(
                "relation links require non-empty, unique target/kind pairs and authority bytes"@,
            ),
        )
    } else {
        match space_of(batch, persisted, link.target_atom_id@) {
            None => Some(
                integrity_fault("relation target atom "@, link.target_atom_id@, " does not exist"@),
            ),
            Some(space) => fault_when(
                space != source_space,
                Fault::InvalidInput(
                    about(
                        "relation target "@,
                        link.target_atom_id@,
                        " belongs to a different memory space"@,
                    ),
                ),
            ),
        }
    }
}

/// The fault of a list of links that do not hold in the store.
pub open spec fn atom_links_fault(
    root: Seq<char>,
    source_space: Seq<char>,
    artifact_links: Seq<AtomArtifactLink>,
    relation_links: Seq<AtomRelationLink>,
    evidence: Map<Seq<u8>, LinkEvidence>,
    batch: Map<Seq<u8>, String>,
    persisted: Map<Seq<u8>, String>,
) -> Option<Fault> {
    either_fault(
        first_indexed(
            artifact_links.len(),
            |i: int| artifact_link_fault(root, artifact_links, evidence, i),
        ),
        first_indexed(
            relation_links.len(),
            |i: int| relation_link_fault(source_space, relation_links, batch, persisted, i),
        ),
    )
}

fn link_repeats(links: &Vec<AtomArtifactLink>, i: usize) -> (repeats: bool)
    requires
        i < links@.len(),
    ensures
        repeats == repeats_link(links@, i as int),
{
    let mut j: usize = 0;
    while j < i
        invariant
            j <= i < links@.len(),
            forall|k: int|
                0 <= k < j ==> !((#[trigger] links@[k]).artifact_digest@
                    == links@[i as int].artifact_digest@ && links@[k].role@
                    == links@[i as int].role@),
        decreases i - j,
    {
        if same_digest(&links[j].artifact_digest.0, &links[i].artifact_digest.0) && same_text(
            links[j].role.as_str(),
            links[i].role.as_str(),
        ) {
            assert(links@[j as int].role@ == links@[i as int].role@);
            return true;
        }
        j += 1;
    }
    false
}

fn relation_link_repeats(links: &Vec<AtomRelationLink>, i: usize) -> (repeats: bool)
    requires
        i < links@.len(),
    ensures
        repeats == repeats_relation_link(links@, i as int),
{
    let mut j: usize = 0;
    while j < i
        invariant
            j <= i < links@.len(),
            forall|k: int|
                0 <= k < j ==> !((#[trigger] links@[k]).target_atom_id@
                    == links@[i as int].target_atom_id@ && links@[k].relation_kind@
                    == links@[i as int].relation_kind@),
        decreases i - j,
    {
        if same_digest(&links[j].target_atom_id, &links[i].target_atom_id) && same_text(
            links[j].relation_kind.as_str(),
            links[i].relation_kind.as_str(),
        ) {
            assert(links@[j as int].relation_kind@ == links@[i as int].relation_kind@);
            return true;
        }
        j += 1;
    }
    false
}

fn check_artifact_link(
    store: &ArtifactStore,
    links: &Vec<AtomArtifactLink>,
    evidence: &ByteMap<LinkEvidence>,
    i: usize,
) -> (verdict: Result<(), StoreError>)
    requires
        i < links@.len(),
    ensures
        fault_of(verdict) == artifact_link_fault(store@, links@, evidence@, i as int),
{
    let link = &links[i];
    if link.role.as_str().is_empty() || link_repeats(links, i) {
        return Err(
            invalid_input("artifact links require non-empty, unique digest/role pairs"),
        );
    }
    let found = match evidence.get(link.artifact_digest.0.as_slice()) {
        Some(found) => found,
        None => return Err(missing_artifact(store, &link.artifact_digest.0)),
    };
    let record = artifact_record_from_row(&found.row)?;
    if !same_text(found.integrity_status.as_str(), "verified") {
        return Err(integrity_about("artifact ", &link.artifact_digest.0, " is not verified"));
    }
    store.verify(&record, &found.observed)
}

fn check_relation_link(
    source_space: &str,
    links: &Vec<AtomRelationLink>,
    batch: &ByteMap<String>,
    persisted: &ByteMap<String>,
    i: usize,
) -> (verdict: Result<(), StoreError>)
    requires
        i < links@.len(),
    ensures
        fault_of(verdict) == relation_link_fault(
            source_space@,
            links@,
            batch@,
            persisted@,
            i as int,
        ),
{
    let link = &links[i];
    if link.relation_kind.as_str().is_empty() || link.canonical_relation.len() == 0
        || relation_link_repeats(links, i) {
        return Err(
            invalid_input(
                "relation links require non-empty, unique target/kind pairs and authority bytes",
            ),
        );
    }
    let space: &String = match batch.get(link.target_atom_id.as_slice()) {
        Some(space) => space,
        None => match persisted.get(link.target_atom_id.as_slice()) {
            Some(space) => space,
            None => return Err(
                integrity_about(
                    "relation target atom ",
                    &link.target_atom_id,
                    " does not exist",
                ),
            ),
        },
    };
    if !same_text(space.as_str(), source_space) {
        return Err(
            StoreError::InvalidInput(
                text_about(
                    "relation target ",
                    &link.target_atom_id,
                    " belongs to a different memory space",
                ),
            ),
        );
    }
    Ok(())
}

/// Checks the links of an atom against the store: every artifact is registered, verified and
/// intact, and every target is in the memory space of the atom, whether it is stored already or
/// together with the atom.
#[verifier::loop_isolation(false)]
pub fn validate_atom_links_with_batch(
    store: &ArtifactStore,
    source_space: &str,
    artifact_links: &Vec<AtomArtifactLink>,
    relation_links: &Vec<AtomRelationLink>,
    evidence: &ByteMap<LinkEvidence>,
    batch: &ByteMap<String>,
    persisted: &ByteMap<String>,
) -> (verdict: Result<(), StoreError>)
    ensures
        fault_of(verdict) == atom_links_fault(
            store@,
            source_space@,
            artifact_links@,
            relation_links@,
            evidence@,
            batch@,
            persisted@,
        ),
{
    let ghost unlinked = |i: int| artifact_link_fault(store@, artifact_links@, evidence@, i);
    let mut i: usize = 0;
    while i < artifact_links.len()
        invariant
            i <= artifact_links@.len(),
            first_indexed(i as nat, unlinked) is None,
        decreases artifact_links@.len() - i,
    {
        match check_artifact_link(store, artifact_links, evidence, i) {
            Ok(_) => {},
            Err(error) => {
                proof {
                    lemma_first_indexed_stops(artifact_links@.len(), unlinked, (i + 1) as nat);
                }
                return Err(error);
            },
        }
        i += 1;
    }
    let ghost unrelated = |j: int|
        relation_link_fault(source_space@, relation_links@, batch@, persisted@, j);
    let mut j: usize = 0;
    while j < relation_links.len()
        invariant
            j <= relation_links@.len(),
            first_indexed(j as nat, unrelated) is None,
        decreases relation_links@.len() - j,
    {
        match check_relation_link(source_space, relation_links, batch, persisted, j) {
            Ok(_) => {},
            Err(error) => {
                proof {
                    lemma_first_indexed_stops(relation_links@.len(), unrelated, (j + 1) as nat);
                }
                return Err(error);
            },
        }
        j += 1;
    }
    Ok(())
}

/// Links that hold in the store never lead out of the memory space of their atom.
pub proof fn law_links_stay_in_their_memory_space(
    root: Seq<char>,
    source_space: Seq<char>,
    artifact_links: Seq<AtomArtifactLink>,
    relation_links: Seq<AtomRelationLink>,
    evidence: Map<Seq<u8>, LinkEvidence>,
    batch: Map<Seq<u8>, String>,
    persisted: Map<Seq<u8>, String>,
    i: int,
)
    requires
        atom_links_fault(
            root,
            source_space,
            artifact_links,
            relation_links,
            evidence,
            batch,
            persisted,
        ) is None,
        0 <= i < relation_links.len(),
    ensures
        space_of(batch, persisted, relation_links[i].target_atom_id@) == Some(source_space),
{
    let unrelated = |j: int|
        relation_link_fault(source_space, relation_links, batch, persisted, j);
    lemma_no_first_indexed(relation_links.len(), unrelated);
    assert(unrelated(i) is None);
}

// ---------------------------------------------------------------------------------------------
// Links against the body

/// The key of a relation link: target, kind and canonical bytes.
pub open spec fn relation_link_key(link: RelationLinkView) -> Seq<u8> {
    link.target_atom_id + (frame(utf8(link.relation_kind)) + link.canonical_relation)
}

/// The keys of a list of relation links.
pub open spec fn relation_link_keys(links: Seq<RelationLinkView>) -> Seq<Seq<u8>> {
    links.map_values(|link: RelationLinkView| relation_link_key(link))
}

/// Relation links with the same key are the same link.
pub proof fn law_relation_link_key_determines_link(a: RelationLinkView, b: RelationLinkView)
    requires
        a.target_atom_id.len() == 32,
        b.target_atom_id.len() == 32,
        utf8(a.relation_kind).len() <= u64::MAX,
        utf8(b.relation_kind).len() <= u64::MAX,
        relation_link_key(a) == relation_link_key(b),
    ensures
        a == b,
{
    lemma_split(
        a.target_atom_id,
        frame(utf8(a.relation_kind)) + a.canonical_relation,
        b.target_atom_id,
        frame(utf8(b.relation_kind)) + b.canonical_relation,
    );
    law_frame_is_self_delimiting(
        utf8(a.relation_kind),
        a.canonical_relation,
        utf8(b.relation_kind),
        b.canonical_relation,
    );
    lemma_utf8_determines(a.relation_kind, b.relation_kind);
}

fn relation_link_key_bytes(target: &[u8; 32], kind: &str, canonical: &[u8]) -> (key: Vec<u8>)
    ensures
        key@ == relation_link_key(
            (RelationLinkView {
                target_atom_id: target@,
                relation_kind: kind@,
                canonical_relation: canonical@,
            }),
        ),
{
    let length = be64_bytes(kind.as_bytes().len() as u64);
    let mut key = copy_bytes(target.as_slice());
    append_bytes(&mut key, length.as_slice());
    append_bytes(&mut key, kind.as_bytes());
    append_bytes(&mut key, canonical);
    assert(key@ =~= target@ + (frame(utf8(kind@)) + canonical@));
    key
}

fn link_view_keys(links: &Vec<AtomArtifactLink>) -> (keys: Vec<Vec<u8>>)
    ensures
        byte_strings(keys@) == link_keys(artifact_link_list(links@)),
{
    let mut keys: Vec<Vec<u8>> = Vec::new();
    let mut i: usize = 0;
    while i < links.len()
        invariant
            i <= links@.len(),
            keys@.len() == i,
            forall|k: int|
                0 <= k < i ==> (#[trigger] keys@[k])@ == crate::closure::link_key(links@[k]@),
        decreases links@.len() - i,
    {
        keys.push(
            link_key_bytes(
                &links[i].artifact_digest.0,
                links[i].role.as_str(),
                links[i].retention_allowed,
            ),
        );
        i += 1;
    }
    assert(byte_strings(keys@) =~= link_keys(artifact_link_list(links@)));
    keys
}

fn relation_view_keys(links: &Vec<AtomRelationLink>) -> (keys: Vec<Vec<u8>>)
    ensures
        byte_strings(keys@) == relation_link_keys(relation_link_list(links@)),
{
    let mut keys: Vec<Vec<u8>> = Vec::new();
    let mut i: usize = 0;
    while i < links.len()
        invariant
            i <= links@.len(),
            keys@.len() == i,
            forall|k: int| 0 <= k < i ==> (#[trigger] keys@[k])@ == relation_link_key(links@[k]@),
        decreases links@.len() - i,
    {
        keys.push(
            relation_link_key_bytes(
                &links[i].target_atom_id,
                links[i].relation_kind.as_str(),
                links[i].canonical_relation.as_slice(),
            ),
        );
        i += 1;
    }
    assert(byte_strings(keys@) =~= relation_link_keys(relation_link_list(links@)));
    keys
}

/// Whether artifact links are exactly those that a body declares, in any order.
pub open spec fn artifacts_closed(body: MemoryAtomBody, links: Seq<AtomArtifactLink>) -> bool {
    link_keys(declared_links(body.artifacts@)).to_multiset() == link_keys(
        artifact_link_list(links),
    ).to_multiset()
}

/// Whether relation links are exactly those that a body declares, in any order.
pub open spec fn relations_closed(body: MemoryAtomBody, links: Seq<AtomRelationLink>) -> bool {
    relation_link_keys(relation_links_of(body.relations@)).to_multiset() == relation_link_keys(
        relation_link_list(links),
    ).to_multiset()
}

/// The fault of links that are not those of the typed body that a record projects. A record whose
/// projection is no typed body has none.
pub open spec fn declared_links_fault(
    atom: AtomRecord,
    parsed: Result<CoreAtom, String>,
    artifact_links: Seq<AtomArtifactLink>,
    relation_links: Seq<AtomRelationLink>,
) -> Option<Fault> {
    match parsed {
        Err(_) => None,
        Ok(typed) => if typed.authority.canonical_body@ != atom.canonical_body@
            || typed.authority.atom_id@ != atom.atom_id@ || typed.authority.atom_id@
            != atom.body_digest@ {
            Some(
                Fault::Integrity(
                    "typed atom projection does not match its canonical authority body"@,
                ),
            )
        } else if !artifacts_closed(typed.body, artifact_links) {
            Some(Fault::InvalidInput("artifact links do not close over the typed atom body"@))
        } else {
            fault_when(
                !relations_closed(typed.body, relation_links),
                Fault::InvalidInput("relation links do not close over the typed atom body"@),
            )
        },
    }
}

/// Accepts links that are exactly those that the typed body of a record declares.
pub fn validate_declared_core_link_closure(
    atom: &AtomRecord,
    parsed: &Result<CoreAtom, String>,
    artifact_links: &Vec<AtomArtifactLink>,
    relation_links: &Vec<AtomRelationLink>,
) -> (verdict: Result<(), StoreError>)
    ensures
        fault_of(verdict) == declared_links_fault(
            *atom,
            *parsed,
            artifact_links@,
            relation_links@,
        ),
{
    let typed = match parsed {
        Ok(typed) => typed,
        Err(_) => return Ok(()),
    };
    if !same_bytes(typed.authority.canonical_body.as_slice(), atom.canonical_body.as_slice())
        || !same_digest(&typed.authority.atom_id, &atom.atom_id) || !same_digest(
        &typed.authority.atom_id,
        &atom.body_digest,
    ) {
        return Err(
            integrity("typed atom projection does not match its canonical authority body"),
        );
    }
    let expected_artifacts = declared_link_keys(&typed.body.artifacts, false);
    let observed_artifacts = link_view_keys(artifact_links);
    proof {
        lemma_all_links_kept(declared_links(typed.body.artifacts@));
    }
    if !same_bag(&expected_artifacts, &observed_artifacts) {
        return Err(invalid_input("artifact links do not close over the typed atom body"));
    }
    let expected_links = prepare_relation_links(&typed.body.relations);
    let expected_relations = relation_view_keys(&expected_links);
    let observed_relations = relation_view_keys(relation_links);
    if !same_bag(&expected_relations, &observed_relations) {
        return Err(invalid_input("relation links do not close over the typed atom body"));
    }
    Ok(())
}

/// The links that are prepared for a body close over it, whatever record carries it with its
/// identity and canonical bytes.
pub proof fn law_prepared_links_close_over_their_body(
    atom: AtomRecord,
    typed: CoreAtom,
    artifact_links: Seq<AtomArtifactLink>,
    relation_links: Seq<AtomRelationLink>,
)
    requires
        atom.atom_id@ == typed.authority.atom_id@,
        atom.body_digest@ == typed.authority.atom_id@,
        atom.canonical_body@ == typed.authority.canonical_body@,
        artifact_link_list(artifact_links) == declared_links(typed.body.artifacts@),
        relation_link_list(relation_links) == relation_links_of(typed.body.relations@),
    ensures
        declared_links_fault(
            atom,
            Ok::<CoreAtom, String>(typed),
            artifact_links,
            relation_links,
        ) is None,
{
}

// ---------------------------------------------------------------------------------------------
// Links as they were stored

/// A text around the hexadecimal forms of an artifact and an atom, and a role.
pub open spec fn link_label(
    before: Seq<char>,
    digest: Seq<u8>,
    atom_id: Seq<u8>,
    role: Seq<char>,
) -> Seq<char> {
    about_pair(before, digest, " / "@, atom_id, " / "@) + role
}

fn link_conflict(before: &str, link: &AtomArtifactLink, atom_id: &[u8; 32]) -> (error: StoreError)
    ensures
        error@ == Fault::ImmutableConflict(
            link_label(before@, link.artifact_digest@, atom_id@, link.role@),
        ),
{
    let label = text_about_pair(before, &link.artifact_digest.0, " / ", atom_id, " / ");
    StoreError::ImmutableConflict(text2(label.as_str(), link.role.as_str()))
}

/// The stored form of a flag.
pub open spec fn flag_column(flag: bool) -> i64 {
    if flag {
        1
    } else {
        0
    }
}

/// Confirms that a stored artifact link says what the link says.
pub fn confirm_artifact_link(link: &AtomArtifactLink, atom_id: &[u8; 32], persisted: i64) -> (verdict:
    Result<(), StoreError>)
    ensures
        fault_of(verdict) == link_standing_fault("artifact link "@, *link, atom_id@, persisted),
{
    if persisted != stored_bool(link.retention_allowed) {
        return Err(link_conflict("artifact link ", link, atom_id));
    }
    Ok(())
}

/// Confirms that a stored provenance edge says what the link says.
pub fn confirm_artifact_provenance(link: &AtomArtifactLink, atom_id: &[u8; 32], persisted: i64) -> (verdict:
    Result<(), StoreError>)
    ensures
        fault_of(verdict) == link_standing_fault("artifact provenance "@, *link, atom_id@, persisted),
{
    if persisted != stored_bool(link.retention_allowed) {
        return Err(link_conflict("artifact provenance ", link, atom_id));
    }
    Ok(())
}

/// The fault of a relation between atoms that are not in one memory space.
pub open spec fn relation_space_fault(
    spaces: Map<Seq<u8>, String>,
    source: Seq<u8>,
    target: Seq<u8>,
) -> Option<Fault> {
    if !spaces.contains_key(source) {
        Some(integrity_fault("relation source atom "@, source, " does not exist"@))
    } else if !spaces.contains_key(target) {
        Some(integrity_fault("relation target atom "@, target, " does not exist"@))
    } else {
        fault_when(
            spaces[source]@ != spaces[target]@,
            Fault::InvalidInput(
                about_pair("relation "@, source, " -> "@, target, " crosses memory spaces"@),
            ),
        )
    }
}

/// Accepts a relation between two stored atoms of one memory space.
pub fn validate_relation_memory_space(
    spaces: &ByteMap<String>,
    source: &[u8; 32],
    target: &[u8; 32],
) -> (verdict: Result<(), StoreError>)
    ensures
        fault_of(verdict) == relation_space_fault(spaces@, source@, target@),
{
    let source_space = match spaces.get(source.as_slice()) {
        Some(space) => space,
        None => return Err(integrity_about("relation source atom ", source, " does not exist")),
    };
    let target_space = match spaces.get(target.as_slice()) {
        Some(space) => space,
        None => return Err(integrity_about("relation target atom ", target, " does not exist")),
    };
    if !same_text(source_space.as_str(), target_space.as_str()) {
        return Err(
            StoreError::InvalidInput(
                text_about_pair("relation ", source, " -> ", target, " crosses memory spaces"),
            ),
        );
    }
    Ok(())
}

/// Confirms that a stored relation has the digest of the canonical bytes of the link.
pub fn confirm_relation(
    source: &[u8; 32],
    target: &[u8; 32],
    relation_kind: &str,
    canonical_relation: &[u8],
    persisted: &[u8],
) -> (verdict: Result<(), StoreError>)
    ensures
        fault_of(verdict) == relation_standing_fault(
            source@,
            target@,
            relation_kind@,
            canonical_relation@,
            persisted@,
        ),
{
    let expected = sha256(canonical_relation);
    if !same_bytes(persisted, expected.as_slice()) {
        let label = text_about_pair("relation ", source, " -> ", target, " (");
        return Err(
            StoreError::ImmutableConflict(text3(label.as_str(), relation_kind, ")")),
        );
    }
    Ok(())
}

/// The fault of a relation that may not be added.
pub open spec fn added_relation_fault(
    spaces: Map<Seq<u8>, String>,
    source: Seq<u8>,
    target: Seq<u8>,
    relation_kind: Seq<char>,
) -> Option<Fault> {
    either_fault(
        fault_when(
            relation_kind.len() == 0,
            Fault::InvalidInput("relation kind must not be empty"@),
        ),
        relation_space_fault(spaces, source, target),
    )
}

/// Accepts a relation with a kind between two stored atoms of one memory space.
pub fn add_relation(
    spaces: &ByteMap<String>,
    source: &[u8; 32],
    target: &[u8; 32],
    relation_kind: &str,
) -> (verdict: Result<(), StoreError>)
    ensures
        fault_of(verdict) == added_relation_fault(spaces@, source@, target@, relation_kind@),
{
    if relation_kind.is_empty() {
        return Err(invalid_input("relation kind must not be empty"));
    }
    validate_relation_memory_space(spaces, source, target)
}

/// A link to an artifact stands exactly where it has a role of its own, the artifact is registered
/// and verified under its path, and the file that is there is the artifact.
pub proof fn law_artifact_link_stands_exactly_for_a_verified_file(
    root: Seq<char>,
    links: Seq<AtomArtifactLink>,
    evidence: Map<Seq<u8>, LinkEvidence>,
    i: int,
)
    ensures
        artifact_link_fault(root, links, evidence, i) is None <==> {
            let digest = links[i].artifact_digest@;
            let row = evidence[digest].row;
            &&& links[i].role@.len() > 0
            &&& forall|j: int|
                0 <= j < i ==> (#[trigger] links[j]).artifact_digest@ != digest || links[j].role@
                    != links[i].role@
            &&& evidence.contains_key(digest)
            &&& row.artifact_digest@.len() == 32
            &&& 0 <= row.byte_len <= 64 * 1024 * 1024
            &&& evidence[digest].integrity_status@ == "verified"@
            &&& row.relative_path@ == artifact_path(row.artifact_digest@)
            &&& evidence[digest].observed matches ObservedPath::File { byte_len, chunks }
            &&& byte_len == row.byte_len
            &&& crate::artifact::stream_fault(chunks@) is None
            &&& crate::artifact::fed(chunks@).len() == row.byte_len
            &&& sha256_of(crate::artifact::fed(chunks@)) == row.artifact_digest@
        },
{
    let row = evidence[links[i].artifact_digest@].row;
    if row.artifact_digest@.len() == 32 {
        crate::artifact::law_artifact_path_is_safe(row.artifact_digest@);
    }
}

/// A link to another atom stands exactly where it has a kind of its own and authority bytes, and
/// its target is known in the memory space of its source, from the batch before the store.
pub proof fn law_relation_link_stands_exactly_within_its_space(
    source_space: Seq<char>,
    links: Seq<AtomRelationLink>,
    batch: Map<Seq<u8>, String>,
    persisted: Map<Seq<u8>, String>,
    i: int,
)
    ensures
        relation_link_fault(source_space, links, batch, persisted, i) is None <==> {
            let target = links[i].target_atom_id@;
            &&& links[i].relation_kind@.len() > 0
            &&& links[i].canonical_relation@.len() > 0
            &&& forall|j: int|
                0 <= j < i ==> (#[trigger] links[j]).target_atom_id@ != target
                    || links[j].relation_kind@ != links[i].relation_kind@
            &&& batch.contains_key(target) || persisted.contains_key(target)
            &&& batch.contains_key(target) ==> batch[target]@ == source_space
            &&& !batch.contains_key(target) ==> persisted[target]@ == source_space
        },
{
}

/// The links of an atom stand exactly where each of them does.
pub proof fn law_links_stand_exactly_one_by_one(
    root: Seq<char>,
    source_space: Seq<char>,
    artifact_links: Seq<AtomArtifactLink>,
    relation_links: Seq<AtomRelationLink>,
    evidence: Map<Seq<u8>, LinkEvidence>,
    batch: Map<Seq<u8>, String>,
    persisted: Map<Seq<u8>, String>,
)
    ensures
        atom_links_fault(
            root,
            source_space,
            artifact_links,
            relation_links,
            evidence,
            batch,
            persisted,
        ) is None <==> {
            &&& forall|i: int|
                0 <= i < artifact_links.len() ==> #[trigger] artifact_link_fault(
                    root,
                    artifact_links,
                    evidence,
                    i,
                ) is None
            &&& forall|i: int|
                0 <= i < relation_links.len() ==> #[trigger] relation_link_fault(
                    source_space,
                    relation_links,
                    batch,
                    persisted,
                    i,
                ) is None
        },
{
    let unlinked = |i: int| artifact_link_fault(root, artifact_links, evidence, i);
    let unrelated = |i: int|
        relation_link_fault(source_space, relation_links, batch, persisted, i);
    lemma_no_first_indexed(artifact_links.len(), unlinked);
    lemma_no_first_indexed(relation_links.len(), unrelated);
    if atom_links_fault(
        root,
        source_space,
        artifact_links,
        relation_links,
        evidence,
        batch,
        persisted,
    ) is None {
        assert forall|i: int| 0 <= i < artifact_links.len() implies #[trigger] artifact_link_fault(
            root,
            artifact_links,
            evidence,
            i,
        ) is None by {
            assert(unlinked(i) is None);
        }
        assert forall|i: int| 0 <= i < relation_links.len() implies #[trigger] relation_link_fault(
            source_space,
            relation_links,
            batch,
            persisted,
            i,
        ) is None by {
            assert(unrelated(i) is None);
        }
    }
}

/// A relation is added exactly where it has a kind and both atoms stand in one memory space.
pub proof fn law_relation_is_added_exactly_within_one_space(
    spaces: Map<Seq<u8>, String>,
    source: Seq<u8>,
    target: Seq<u8>,
    relation_kind: Seq<char>,
)
    ensures
        added_relation_fault(spaces, source, target, relation_kind) is None <==> {
            &&& relation_kind.len() > 0
            &&& spaces.contains_key(source)
            &&& spaces.contains_key(target)
            &&& spaces[source]@ == spaces[target]@
        },
{
}

/// An artifact within a body is registered exactly where it is no larger than 4 KiB, is the declared
/// one to the byte, its times and sizes fit their columns, whatever stood in its place already was
/// the artifact, and what was then read back is it.
pub proof fn law_inline_artifact_is_registered_exactly_as_declared(
    root: Seq<char>,
    artifact: ArtifactDeclaration,
    inline: Seq<u8>,
    recorded_at_us: u64,
    evidence: DeclaredEvidence,
)
    requires
        sha256_of(inline).len() == 32,
    ensures
        inline_artifact_fault(root, artifact, inline, recorded_at_us, evidence) is None <==> {
            let path = joined_path(root, artifact_path(artifact.digest@));
            &&& inline.len() <= 4096
            &&& sha256_of(inline) == artifact.digest@
            &&& inline.len() == artifact.size_bytes
            &&& recorded_at_us <= i64::MAX
            &&& (evidence.placed is Missing || path_fault(
                path,
                artifact.digest@,
                artifact.size_bytes,
                evidence.placed,
            ) is None)
            &&& path_fault(
                path,
                artifact.digest@,
                artifact.size_bytes,
                evidence.observed,
            ) is None
            &&& evidence.row matches Some(row)
            &&& row.artifact_digest@ == artifact.digest@
            &&& row.byte_len == artifact.size_bytes
            &&& row.relative_path@ == artifact_path(artifact.digest@)
        },
{
    crate::artifact::law_artifact_path_is_safe(sha256_of(inline));
}

/// An artifact outside of the body is accepted exactly where it is registered with the declared size
/// and its file is there.
pub proof fn law_declared_artifact_is_accepted_exactly_as_registered(
    root: Seq<char>,
    artifact: ArtifactDeclaration,
    evidence: DeclaredEvidence,
)
    ensures
        registered_artifact_fault(root, artifact, evidence) is None <==> {
            &&& evidence.row matches Some(row)
            &&& row.artifact_digest@.len() == 32
            &&& row.byte_len == artifact.size_bytes
            &&& row.byte_len <= 64 * 1024 * 1024
            &&& row.relative_path@ == artifact_path(row.artifact_digest@)
            &&& path_fault(
                joined_path(root, row.relative_path@),
                row.artifact_digest@,
                artifact.size_bytes,
                evidence.observed,
            ) is None
        },
{
    if let Some(row) = evidence.row {
        if row.artifact_digest@.len() == 32 {
            crate::artifact::law_artifact_path_is_safe(row.artifact_digest@);
        }
    }
}

/// The fault of a link that stands already with another permission.
pub open spec fn link_standing_fault(
    before: Seq<char>,
    link: AtomArtifactLink,
    atom_id: Seq<u8>,
    persisted: i64,
) -> Option<Fault> {
    fault_when(
        persisted != flag_column(link.retention_allowed),
        Fault::ImmutableConflict(
            link_label(before, link.artifact_digest@, atom_id, link.role@),
        ),
    )
}

/// The fault of a relation that stands already with other authority bytes.
pub open spec fn relation_standing_fault(
    source: Seq<u8>,
    target: Seq<u8>,
    relation_kind: Seq<char>,
    canonical_relation: Seq<u8>,
    persisted: Seq<u8>,
) -> Option<Fault> {
    fault_when(
        persisted != sha256_of(canonical_relation),
        Fault::ImmutableConflict(
            about_pair("relation "@, source, " -> "@, target, " ("@) + relation_kind + ")"@,
        ),
    )
}

/// A link stands as it was written: with its permission as one or zero; a relation with the digest of
/// its authority bytes. Anything else that stands there is a conflict of immutable content.
pub proof fn law_links_stand_as_written(
    before: Seq<char>,
    link: AtomArtifactLink,
    atom_id: Seq<u8>,
    persisted: i64,
    target: Seq<u8>,
    relation_kind: Seq<char>,
    canonical_relation: Seq<u8>,
    digest: Seq<u8>,
)
    ensures
        link.retention_allowed ==> (link_standing_fault(before, link, atom_id, persisted) is None
            <==> persisted == 1),
        !link.retention_allowed ==> (link_standing_fault(before, link, atom_id, persisted) is None
            <==> persisted == 0),
        link_standing_fault(before, link, atom_id, persisted) matches Some(fault)
            ==> fault is ImmutableConflict,
        relation_standing_fault(atom_id, target, relation_kind, canonical_relation, digest) is None
            <==> digest == sha256_of(canonical_relation),
        relation_standing_fault(atom_id, target, relation_kind, canonical_relation, digest) matches Some(
            fault,
        ) ==> fault is ImmutableConflict,
{
}

/// An artifact is registered exactly where its metadata are its own, the file under its path holds
/// it, its numbers fit their columns and what stands then is it; another one under its digest is a
/// conflict of immutable content.
pub proof fn law_artifact_is_registered_exactly(
    root: Seq<char>,
    record: ArtifactRecord,
    created_at_us: u64,
    observed: ObservedPath,
    persisted: Option<ArtifactFileRow>,
)
    ensures
        registration_fault(root, record, created_at_us, observed, persisted) is None <==> {
            &&& metadata_fault(record@) is None
            &&& path_fault(
                joined_path(root, record.relative_path@),
                record.digest@,
                record.byte_len,
                observed,
            ) is None
            &&& created_at_us <= i64::MAX
            &&& persisted matches Some(row)
            &&& row.artifact_digest@ == record.digest@
            &&& row.byte_len == record.byte_len
            &&& row.relative_path@ == record.relative_path@
        },
{
}

/// A declared artifact is accepted by its bytes where it has them within the body, and by its row
/// and its file where it has not.
pub proof fn law_declared_artifact_is_judged_by_where_it_is(
    root: Seq<char>,
    artifact: ArtifactDeclaration,
    recorded_at_us: u64,
    evidence: DeclaredEvidence,
)
    ensures
        artifact.inline_payload matches Some(inline) ==> declared_artifact_fault(
            root,
            artifact,
            recorded_at_us,
            evidence,
        ) == inline_artifact_fault(root, artifact, inline@, recorded_at_us, evidence),
        artifact.inline_payload is None ==> declared_artifact_fault(
            root,
            artifact,
            recorded_at_us,
            evidence,
        ) == registered_artifact_fault(root, artifact, evidence),
{
}

/// The links that are given close over a body exactly where they are, in whatever order, the links
/// that the body declares, and the body is the one that is stored.
pub proof fn law_links_close_over_their_body_exactly(
    atom: AtomRecord,
    typed: CoreAtom,
    artifact_links: Seq<AtomArtifactLink>,
    relation_links: Seq<AtomRelationLink>,
)
    ensures
        declared_links_fault(
            atom,
            Ok::<CoreAtom, String>(typed),
            artifact_links,
            relation_links,
        ) is None <==> {
            &&& typed.authority.canonical_body@ == atom.canonical_body@
            &&& typed.authority.atom_id@ == atom.atom_id@
            &&& typed.authority.atom_id@ == atom.body_digest@
            &&& link_keys(declared_links(typed.body.artifacts@)).to_multiset() == link_keys(
                artifact_link_list(artifact_links),
            ).to_multiset()
            &&& relation_link_keys(relation_links_of(typed.body.relations@)).to_multiset()
                == relation_link_keys(relation_link_list(relation_links)).to_multiset()
        },
{
}

} // verus!
