//! The structure of a typed atom body and its closure over headers and artifacts.

use vstd::prelude::*;
use vstd::string::*;

use crate::bytemap::{
    ByteSet, Side, ascending, lemma_precedes_asymmetric, lemma_precedes_transitive, precedes,
    side_of,
};
use crate::digest::{sha256, sha256_of};
use crate::error::{Fault, StoreError, either_fault, fault_of, fault_when};
use crate::folding::{first_indexed, lemma_first_indexed_stops, lemma_no_first_indexed};
use crate::messages::{
    about, about_pair, integrity_about, integrity_about_pair, integrity_fault, text_about,
};
use crate::model::{
    ArtifactDeclaration, CoreAtom, EpisodePayload, MemoryAtomBody, Payload, Policy,
    RelationDeclaration, RelationKind, RetentionPermission, SemanticPayload, SourceDigest,
};
use crate::stored::{digest_seq, same_digest, same_digests};
use crate::tables::{Artifacts, Headers, artifact_views, header_views};
use crate::text::{same_text, text2};

verus! {

/// The targets of the declared relations of one kind, in order.
pub open spec fn targets_of(relations: Seq<RelationDeclaration>, kind: RelationKind) -> Seq<Seq<u8>>
    decreases relations.len(),
{
    if relations.len() == 0 {
        Seq::empty()
    } else {
        let earlier = targets_of(relations.drop_last(), kind);
        if relations.last().kind == kind {
            earlier.push(relations.last().target@)
        } else {
            earlier
        }
    }
}

/// Lists the targets of the declared relations of one kind.
pub fn relation_targets(relations: &Vec<RelationDeclaration>, kind: RelationKind) -> (targets: Vec<
    [u8; 32],
>)
    ensures
        digest_seq(targets@) == targets_of(relations@, kind),
{
    let mut targets: Vec<[u8; 32]> = Vec::new();
    let mut i: usize = 0;
    assert(digest_seq(targets@) =~= targets_of(relations@.subrange(0, 0), kind));
    while i < relations.len()
        invariant
            i <= relations@.len(),
            digest_seq(targets@) == targets_of(relations@.subrange(0, i as int), kind),
        decreases relations@.len() - i,
    {
        let ghost before = targets@;
        proof {
            let longer = relations@.subrange(0, i + 1);
            assert(longer.drop_last() =~= relations@.subrange(0, i as int));
            assert(longer.last() == relations@[i as int]);
        }
        if relations[i].kind == kind {
            targets.push(relations[i].target);
            assert(digest_seq(targets@) =~= digest_seq(before).push(
                relations@[i as int].target@,
            ));
        }
        i += 1;
    }
    assert(relations@.subrange(0, i as int) =~= relations@);
    targets
}

/// The atom that an episode continues, as a list.
pub open spec fn continued(payload: EpisodePayload) -> Seq<Seq<u8>> {
    match payload.continues {
        Some(previous) => seq![previous@],
        None => Seq::empty(),
    }
}

/// Whether an episode declares exactly one relation to the atom that it continues, and none where
/// it continues no atom.
pub open spec fn continues_closed(
    relations: Seq<RelationDeclaration>,
    payload: EpisodePayload,
) -> bool {
    targets_of(relations, RelationKind::Continues) == continued(payload)
}

/// Whether an episode declares exactly the relation to the atom that it continues.
pub fn continues_is_closed(relations: &Vec<RelationDeclaration>, payload: &EpisodePayload) -> (closed:
    bool)
    ensures
        closed == continues_closed(relations@, *payload),
{
    let targets = relation_targets(relations, RelationKind::Continues);
    let mut expected: Vec<[u8; 32]> = Vec::new();
    if let Some(previous) = payload.continues {
        expected.push(previous);
    }
    assert(digest_seq(expected@) =~= continued(*payload));
    same_digests(targets.as_slice(), expected.as_slice())
}

/// Whether an optional text is present and empty.
pub open spec fn is_blank(value: Option<String>) -> bool {
    value matches Some(text) && text@.len() == 0
}

/// Whether an optional text is present and empty.
pub fn blank(value: &Option<String>) -> (is: bool)
    ensures
        is == is_blank(*value),
{
    match value {
        Some(text) => text.as_str().is_empty(),
        None => false,
    }
}

/// Whether every observation lies between the start and the end of the body.
pub open spec fn observed_in_time(body: MemoryAtomBody) -> bool {
    forall|i: int|
        0 <= i < body.observations@.len() ==> body.interval.started_at_us <= (
        #[trigger] body.observations@[i]).at_us <= body.interval.ended_at_us
}

/// Whether version, scope, times and provenance of a body are in order.
pub open spec fn is_well_formed(body: MemoryAtomBody, policy: Policy) -> bool {
    &&& body.contract_version@ == "atom-v1"@
    &&& body.scope.memory_space_id@.len() != 0
    &&& body.scope.session_id@.len() != 0
    &&& body.trigger@.len() != 0
    &&& body.provenance.producer@.len() != 0
    &&& body.provenance.policy_digest@ == policy.digest@
    &&& body.interval.started_at_us <= body.interval.ended_at_us <= body.interval.recorded_at_us
    &&& !is_blank(body.scope.repository_id)
    &&& !is_blank(body.scope.task_id)
    &&& !is_blank(body.scope.agent_id)
    &&& observed_in_time(body)
}

fn well_formed(body: &MemoryAtomBody, policy: &Policy) -> (well: bool)
    ensures
        well == is_well_formed(*body, *policy),
{
    if !same_text(body.contract_version.as_str(), "atom-v1")
        || body.scope.memory_space_id.as_str().is_empty()
        || body.scope.session_id.as_str().is_empty() || body.trigger.as_str().is_empty()
        || body.provenance.producer.as_str().is_empty() || !same_digest(
        &body.provenance.policy_digest,
        &policy.digest,
    ) || body.interval.started_at_us > body.interval.ended_at_us || body.interval.ended_at_us
        > body.interval.recorded_at_us || blank(&body.scope.repository_id) || blank(
        &body.scope.task_id,
    ) || blank(&body.scope.agent_id) {
        return false;
    }
    let mut i: usize = 0;
    while i < body.observations.len()
        invariant
            i <= body.observations@.len(),
            forall|k: int|
                0 <= k < i ==> body.interval.started_at_us <= (
                #[trigger] body.observations@[k]).at_us <= body.interval.ended_at_us,
        decreases body.observations@.len() - i,
    {
        let at_us = body.observations[i].at_us;
        if at_us < body.interval.started_at_us || at_us > body.interval.ended_at_us {
            assert(!observed_in_time(*body));
            return false;
        }
        i += 1;
    }
    true
}

/// Whether an earlier declaration names the same artifact with the same media type.
pub open spec fn repeats_declaration(artifacts: Seq<ArtifactDeclaration>, i: int) -> bool {
    exists|j: int|
        0 <= j < i && (#[trigger] artifacts[j]).digest@ == artifacts[i].digest@
            && artifacts[j].media_type@ == artifacts[i].media_type@
}

fn declaration_repeats(artifacts: &Vec<ArtifactDeclaration>, i: usize) -> (repeats: bool)
    requires
        i < artifacts@.len(),
    ensures
        repeats == repeats_declaration(artifacts@, i as int),
{
    let mut j: usize = 0;
    while j < i
        invariant
            j <= i < artifacts@.len(),
            forall|k: int|
                0 <= k < j ==> !((#[trigger] artifacts@[k]).digest@ == artifacts@[i as int].digest@
                    && artifacts@[k].media_type@ == artifacts@[i as int].media_type@),
        decreases i - j,
    {
        if same_digest(&artifacts[j].digest, &artifacts[i].digest) && same_text(
            artifacts[j].media_type.as_str(),
            artifacts[i].media_type.as_str(),
        ) {
            assert(artifacts@[j as int].digest@ == artifacts@[i as int].digest@);
            return true;
        }
        j += 1;
    }
    false
}

/// Whether an inline payload is not what its declaration says, or too large.
pub open spec fn inline_invalid(artifact: ArtifactDeclaration, inline_max: u64) -> bool {
    artifact.inline_payload matches Some(inline) && (inline@.len() > inline_max || inline@.len()
        != artifact.size_bytes || sha256_of(inline@) != artifact.digest@)
}

/// The fault of the artifact declaration at a place.
pub open spec fn declaration_fault(
    atom_id: Seq<u8>,
    declared: Seq<ArtifactDeclaration>,
    i: int,
    artifacts: Artifacts,
    policy: Policy,
) -> Option<Fault> {
    let artifact = declared[i];
    let known = artifact_views(artifacts);
    if !known.contains_key(artifact.digest@) {
        Some(
            Fault::Integrity(
                about_pair("atom "@, atom_id, " declares missing artifact "@, artifact.digest@, ""@),
            ),
        )
    } else if artifact.media_type@.len() == 0 || artifact.size_bytes > policy.artifact_max_bytes
        || known[artifact.digest@].record.byte_len != artifact.size_bytes
        || known[artifact.digest@].integrity_status != "verified"@ || repeats_declaration(
        declared,
        i,
    ) {
        Some(
            Fault::Integrity(
                about_pair(
                    "atom "@,
                    atom_id,
                    " has invalid artifact declaration "@,
                    artifact.digest@,
                    ""@,
                ),
            ),
        )
    } else {
        fault_when(
            inline_invalid(artifact, policy.inline_payload_max_bytes),
            integrity_fault("atom "@, atom_id, " has invalid inline artifact authority"@),
        )
    }
}

fn check_declaration(
    atom_id: &[u8; 32],
    declared: &Vec<ArtifactDeclaration>,
    i: usize,
    artifacts: &Artifacts,
    policy: &Policy,
) -> (verdict: Result<(), StoreError>)
    requires
        i < declared@.len(),
    ensures
        fault_of(verdict) == declaration_fault(atom_id@, declared@, i as int, *artifacts, *policy),
{
    let artifact = &declared[i];
    let authority = match artifacts.get(artifact.digest.as_slice()) {
        Some(authority) => authority,
        None => return Err(
            integrity_about_pair(
                "atom ",
                atom_id,
                " declares missing artifact ",
                &artifact.digest,
                "",
            ),
        ),
    };
    if artifact.media_type.as_str().is_empty() || artifact.size_bytes > policy.artifact_max_bytes
        || authority.record.byte_len != artifact.size_bytes || !same_text(
        authority.integrity_status.as_str(),
        "verified",
    ) || declaration_repeats(declared, i) {
        return Err(
            integrity_about_pair(
                "atom ",
                atom_id,
                " has invalid artifact declaration ",
                &artifact.digest,
                "",
            ),
        );
    }
    if let Some(inline) = &artifact.inline_payload {
        let length: u64 = inline.len() as u64;
        let digest = sha256(inline.as_slice());
        if length > policy.inline_payload_max_bytes || length != artifact.size_bytes
            || !same_digest(&digest, &artifact.digest) {
            return Err(
                integrity_about("atom ", atom_id, " has invalid inline artifact authority"),
            );
        }
    }
    Ok(())
}

/// Whether some declaration names the artifact.
pub open spec fn declares(artifacts: Seq<ArtifactDeclaration>, digest: Seq<u8>) -> bool {
    exists|j: int| 0 <= j < artifacts.len() && (#[trigger] artifacts[j]).digest@ == digest
}

/// Whether every artifact that an observation names is declared.
pub open spec fn observations_declared(body: MemoryAtomBody) -> bool {
    forall|i: int|
        0 <= i < body.observations@.len() ==> (
        (#[trigger] body.observations@[i]).artifact_digest matches Some(digest) ==> declares(
            body.artifacts@,
            digest@,
        ))
}

fn all_observations_declared(body: &MemoryAtomBody) -> (declared: bool)
    ensures
        declared == observations_declared(*body),
{
    let mut digests = ByteSet::new();
    let mut j: usize = 0;
    while j < body.artifacts.len()
        invariant
            j <= body.artifacts@.len(),
            forall|digest: Seq<u8>|
                digests@.contains(digest) <==> exists|k: int|
                    0 <= k < j && (#[trigger] body.artifacts@[k]).digest@ == digest,
        decreases body.artifacts@.len() - j,
    {
        let ghost before = digests@;
        digests.insert(body.artifacts[j].digest.as_slice());
        assert forall|digest: Seq<u8>|
            digests@.contains(digest) <==> exists|k: int|
                0 <= k < j + 1 && (#[trigger] body.artifacts@[k]).digest@ == digest by {
            if before.contains(digest) {
                let k = choose|k: int|
                    0 <= k < j && (#[trigger] body.artifacts@[k]).digest@ == digest;
                assert(body.artifacts@[k].digest@ == digest);
            }
            assert(body.artifacts@[j as int].digest@ == body.artifacts@[j as int].digest@);
        }
        j += 1;
    }
    let mut i: usize = 0;
    while i < body.observations.len()
        invariant
            i <= body.observations@.len(),
            forall|digest: Seq<u8>|
                digests@.contains(digest) <==> declares(body.artifacts@, digest),
            forall|k: int|
                0 <= k < i ==> ((#[trigger] body.observations@[k]).artifact_digest matches Some(
                    digest,
                ) ==> declares(body.artifacts@, digest@)),
        decreases body.observations@.len() - i,
    {
        if let Some(digest) = &body.observations[i].artifact_digest {
            if !digests.contains(digest.as_slice()) {
                assert(!declares(body.artifacts@, digest@));
                return false;
            }
        }
        i += 1;
    }
    true
}

/// Whether an earlier relation has the same target and the same kind.
pub open spec fn repeats_relation(relations: Seq<RelationDeclaration>, i: int) -> bool {
    exists|j: int|
        0 <= j < i && (#[trigger] relations[j]).target@ == relations[i].target@ && relations[j].kind
            == relations[i].kind
}

fn relation_repeats(relations: &Vec<RelationDeclaration>, i: usize) -> (repeats: bool)
    requires
        i < relations@.len(),
    ensures
        repeats == repeats_relation(relations@, i as int),
{
    let mut j: usize = 0;
    while j < i
        invariant
            j <= i < relations@.len(),
            forall|k: int|
                0 <= k < j ==> !((#[trigger] relations@[k]).target@ == relations@[i as int].target@
                    && relations@[k].kind == relations@[i as int].kind),
        decreases i - j,
    {
        if same_digest(&relations[j].target, &relations[i].target) && relations[j].kind
            == relations[i].kind {
            assert(relations@[j as int].target@ == relations@[i as int].target@);
            return true;
        }
        j += 1;
    }
    false
}

/// The fault of the relation declaration at a place.
pub open spec fn relation_fault(
    atom_id: Seq<u8>,
    memory_space_id: Seq<char>,
    relations: Seq<RelationDeclaration>,
    i: int,
    headers: Headers,
) -> Option<Fault> {
    let target = relations[i].target@;
    let known = header_views(headers);
    if !known.contains_key(target) {
        Some(
            Fault::Integrity(
                about_pair("atom "@, atom_id, " declares missing relation target "@, target, ""@),
            ),
        )
    } else {
        fault_when(
            target == atom_id || known[target].memory_space_id != memory_space_id
                || repeats_relation(relations, i),
            integrity_fault(
                "atom "@,
                atom_id,
                " has an invalid or duplicate relation declaration"@,
            ),
        )
    }
}

fn check_relation(
    atom_id: &[u8; 32],
    memory_space_id: &str,
    relations: &Vec<RelationDeclaration>,
    i: usize,
    headers: &Headers,
) -> (verdict: Result<(), StoreError>)
    requires
        i < relations@.len(),
    ensures
        fault_of(verdict) == relation_fault(
            atom_id@,
            memory_space_id@,
            relations@,
            i as int,
            *headers,
        ),
{
    let target = &relations[i].target;
    let header = match headers.get(target.as_slice()) {
        Some(header) => header,
        None => return Err(
            integrity_about_pair("atom ", atom_id, " declares missing relation target ", target, ""),
        ),
    };
    if same_digest(target, atom_id) || !same_text(header.memory_space_id.as_str(), memory_space_id)
        || relation_repeats(relations, i) {
        return Err(
            integrity_about("atom ", atom_id, " has an invalid or duplicate relation declaration"),
        );
    }
    Ok(())
}

/// The atoms whose body digests a semantic payload carries, in order.
pub open spec fn digest_keys(digests: Seq<SourceDigest>) -> Seq<Seq<u8>> {
    digests.map_values(|digest: SourceDigest| digest.atom_id@)
}

/// Lists the atoms whose body digests a semantic payload carries.
pub fn source_digest_keys(digests: &Vec<SourceDigest>) -> (keys: Vec<[u8; 32]>)
    ensures
        digest_seq(keys@) == digest_keys(digests@),
{
    let mut keys: Vec<[u8; 32]> = Vec::new();
    let mut i: usize = 0;
    while i < digests.len()
        invariant
            i <= digests@.len(),
            keys@.len() == i,
            forall|k: int| 0 <= k < i ==> (#[trigger] keys@[k])@ == digests@[k].atom_id@,
        decreases digests@.len() - i,
    {
        keys.push(digests[i].atom_id);
        i += 1;
    }
    assert(digest_seq(keys@) =~= digest_keys(digests@));
    keys
}

/// Whether digests stand in strictly ascending order.
pub fn is_ascending(digests: &Vec<[u8; 32]>) -> (is: bool)
    ensures
        is == ascending(digest_seq(digests@)),
{
    let ghost keys = digest_seq(digests@);
    if digests.len() == 0 {
        return true;
    }
    let mut i: usize = 1;
    while i < digests.len()
        invariant
            keys == digest_seq(digests@),
            1 <= i <= digests@.len(),
            forall|m: int, n: int| 0 <= m < n < i ==> precedes(#[trigger] keys[m], #[trigger] keys[n]),
        decreases digests@.len() - i,
    {
        match side_of(digests[i - 1].as_slice(), digests[i].as_slice()) {
            Side::Before => {
                assert forall|m: int, n: int| 0 <= m < n < i + 1 implies precedes(
                    #[trigger] keys[m],
                    #[trigger] keys[n],
                ) by {
                    if n == i && m < i - 1 {
                        lemma_precedes_transitive(keys[m], keys[i - 1], keys[i as int]);
                    }
                }
            },
            Side::Same | Side::After => {
                proof {
                    lemma_precedes_asymmetric(keys[i - 1], keys[i as int]);
                    assert(!precedes(keys[i - 1], keys[i as int]));
                }
                return false;
            },
        }
        i += 1;
    }
    true
}

/// Whether the sources of a semantic atom are complete: enough of them, in ascending order, each
/// with its body digest, each the target of a derivation and each a source event, under the
/// consensus and the permission that the policy sets.
pub open spec fn sources_complete(
    body: MemoryAtomBody,
    payload: SemanticPayload,
    policy: Policy,
) -> bool {
    let sources = digest_seq(payload.source_ids@);
    &&& sources.len() >= policy.min_semantic_sources
    &&& ascending(sources)
    &&& digest_keys(payload.source_body_digests@) == sources
    &&& targets_of(body.relations@, RelationKind::DerivedFrom) == sources
    &&& digest_seq(body.provenance.source_event_digests@) == sources
    &&& payload.consensus_numerator == policy.consensus_numerator
    &&& payload.consensus_denominator == policy.consensus_denominator
    &&& body.retention_permission == RetentionPermission::SemanticAllowed
}

fn has_complete_sources(body: &MemoryAtomBody, payload: &SemanticPayload, policy: &Policy) -> (complete:
    bool)
    ensures
        complete == sources_complete(*body, *payload, *policy),
{
    let keys = source_digest_keys(&payload.source_body_digests);
    let derived_from = relation_targets(&body.relations, RelationKind::DerivedFrom);
    payload.source_ids.len() >= policy.min_semantic_sources && is_ascending(&payload.source_ids)
        && same_digests(keys.as_slice(), payload.source_ids.as_slice()) && same_digests(
        derived_from.as_slice(),
        payload.source_ids.as_slice(),
    ) && same_digests(
        body.provenance.source_event_digests.as_slice(),
        payload.source_ids.as_slice(),
    ) && payload.consensus_numerator == policy.consensus_numerator && payload.consensus_denominator
        == policy.consensus_denominator && body.retention_permission
        == RetentionPermission::SemanticAllowed
}

/// The fault of the source of a semantic atom at a place: it must be a stored episode of the same
/// memory space with the body digest that the payload carries.
pub open spec fn source_fault(
    atom_id: Seq<u8>,
    memory_space_id: Seq<char>,
    payload: SemanticPayload,
    i: int,
    headers: Headers,
) -> Option<Fault> {
    let source = payload.source_ids@[i]@;
    let known = header_views(headers);
    if !known.contains_key(source) {
        Some(integrity_fault("semantic atom "@, atom_id, " has a missing source"@))
    } else {
        fault_when(
            known[source].atom_kind != "episode"@ || known[source].memory_space_id
                != memory_space_id || payload.source_body_digests@[i].body_digest@
                != known[source].body_digest,
            integrity_fault(
                "semantic atom "@,
                atom_id,
                " has invalid source digest or scope provenance"@,
            ),
        )
    }
}

fn check_source(
    atom_id: &[u8; 32],
    memory_space_id: &str,
    payload: &SemanticPayload,
    i: usize,
    headers: &Headers,
) -> (verdict: Result<(), StoreError>)
    requires
        i < payload.source_ids@.len(),
        i < payload.source_body_digests@.len(),
    ensures
        fault_of(verdict) == source_fault(
            atom_id@,
            memory_space_id@,
            *payload,
            i as int,
            *headers,
        ),
{
    let header = match headers.get(payload.source_ids[i].as_slice()) {
        Some(header) => header,
        None => return Err(integrity_about("semantic atom ", atom_id, " has a missing source")),
    };
    if !same_text(header.atom_kind.as_str(), "episode") || !same_text(
        header.memory_space_id.as_str(),
        memory_space_id,
    ) || !same_digest(&payload.source_body_digests[i].body_digest, &header.body_digest) {
        return Err(
            integrity_about(
                "semantic atom ",
                atom_id,
                " has invalid source digest or scope provenance",
            ),
        );
    }
    Ok(())
}

/// The fault of the payload of a body.
pub open spec fn payload_fault(
    body: MemoryAtomBody,
    atom_id: Seq<u8>,
    headers: Headers,
    policy: Policy,
) -> Option<Fault> {
    match body.payload {
        Payload::Episode(payload) => fault_when(
            payload.event_sequence_start > payload.event_sequence_end || !continues_closed(
                body.relations@,
                payload,
            ),
            integrity_fault(
                "episode atom "@,
                atom_id,
                " has invalid sequence or continues closure"@,
            ),
        ),
        Payload::Semantic(payload) => if !sources_complete(body, payload, policy) {
            Some(
                integrity_fault(
                    "semantic atom "@,
                    atom_id,
                    " has incomplete source provenance"@,
                ),
            )
        } else {
            first_indexed(
                payload.source_ids@.len(),
                |i: int|
                    source_fault(atom_id, body.scope.memory_space_id@, payload, i, headers),
            )
        },
    }
}

#[verifier::loop_isolation(false)]
fn check_payload(body: &MemoryAtomBody, atom_id: &[u8; 32], headers: &Headers, policy: &Policy) -> (verdict:
    Result<(), StoreError>)
    ensures
        fault_of(verdict) == payload_fault(*body, atom_id@, *headers, *policy),
{
    match &body.payload {
        Payload::Episode(payload) => {
            if payload.event_sequence_start > payload.event_sequence_end || !continues_is_closed(
                &body.relations,
                payload,
            ) {
                return Err(
                    integrity_about(
                        "episode atom ",
                        atom_id,
                        " has invalid sequence or continues closure",
                    ),
                );
            }
            Ok(())
        },
        Payload::Semantic(payload) => {
            if !has_complete_sources(body, payload, policy) {
                return Err(
                    integrity_about(
                        "semantic atom ",
                        atom_id,
                        " has incomplete source provenance",
                    ),
                );
            }
            assert(digest_keys(payload.source_body_digests@).len() == digest_seq(
                payload.source_ids@,
            ).len());
            let ghost fault = |i: int|
                source_fault(atom_id@, body.scope.memory_space_id@, *payload, i, *headers);
            let mut i: usize = 0;
            while i < payload.source_ids.len()
                invariant
                    i <= payload.source_ids@.len(),
                    first_indexed(i as nat, fault) is None,
                decreases payload.source_ids@.len() - i,
            {
                match check_source(
                    atom_id,
                    body.scope.memory_space_id.as_str(),
                    payload,
                    i,
                    headers,
                ) {
                    Ok(()) => {},
                    Err(error) => {
                        proof {
                            lemma_first_indexed_stops(
                                payload.source_ids@.len(),
                                fault,
                                (i + 1) as nat,
                            );
                        }
                        return Err(error);
                    },
                }
                i += 1;
            }
            Ok(())
        },
    }
}

/// The fault of a typed body that is not valid on its own or not closed over the stored headers
/// and artifacts.
pub open spec fn body_fault(
    atom: CoreAtom,
    atom_id: Seq<u8>,
    headers: Headers,
    artifacts: Artifacts,
    policy: Policy,
) -> Option<Fault> {
    let body = atom.body;
    match atom.authority.rejection {
        Some(text) => Some(
            Fault::Integrity(
                about("atom "@, atom_id, " failed canonical core body validation: "@) + text@,
            ),
        ),
        None => if !is_well_formed(body, policy) {
            Some(
                integrity_fault(
                    "atom "@,
                    atom_id,
                    " has invalid typed body structure, scope, time, or provenance"@,
                ),
            )
        } else {
            either_fault(
                first_indexed(
                    body.artifacts@.len(),
                    |i: int| declaration_fault(atom_id, body.artifacts@, i, artifacts, policy),
                ),
                either_fault(
                    fault_when(
                        !observations_declared(body),
                        integrity_fault(
                            "atom "@,
                            atom_id,
                            " observation artifact provenance is not declared"@,
                        ),
                    ),
                    either_fault(
                        first_indexed(
                            body.relations@.len(),
                            |i: int|
                                relation_fault(
                                    atom_id,
                                    body.scope.memory_space_id@,
                                    body.relations@,
                                    i,
                                    headers,
                                ),
                        ),
                        payload_fault(body, atom_id, headers, policy),
                    ),
                ),
            )
        },
    }
}

#[verifier::loop_isolation(false)]
fn check_declarations(
    atom_id: &[u8; 32],
    declared: &Vec<ArtifactDeclaration>,
    artifacts: &Artifacts,
    policy: &Policy,
) -> (verdict: Result<(), StoreError>)
    ensures
        fault_of(verdict) == first_indexed(
            declared@.len(),
            |i: int| declaration_fault(atom_id@, declared@, i, *artifacts, *policy),
        ),
{
    let ghost fault = |i: int| declaration_fault(atom_id@, declared@, i, *artifacts, *policy);
    let mut i: usize = 0;
    while i < declared.len()
        invariant
            i <= declared@.len(),
            first_indexed(i as nat, fault) is None,
        decreases declared@.len() - i,
    {
        match check_declaration(atom_id, declared, i, artifacts, policy) {
            Ok(()) => {},
            Err(error) => {
                proof {
                    lemma_first_indexed_stops(declared@.len(), fault, (i + 1) as nat);
                }
                return Err(error);
            },
        }
        i += 1;
    }
    Ok(())
}

#[verifier::loop_isolation(false)]
fn check_relations(
    atom_id: &[u8; 32],
    memory_space_id: &str,
    relations: &Vec<RelationDeclaration>,
    headers: &Headers,
) -> (verdict: Result<(), StoreError>)
    ensures
        fault_of(verdict) == first_indexed(
            relations@.len(),
            |i: int| relation_fault(atom_id@, memory_space_id@, relations@, i, *headers),
        ),
{
    let ghost fault = |i: int| relation_fault(atom_id@, memory_space_id@, relations@, i, *headers);
    let mut i: usize = 0;
    while i < relations.len()
        invariant
            i <= relations@.len(),
            first_indexed(i as nat, fault) is None,
        decreases relations@.len() - i,
    {
        match check_relation(atom_id, memory_space_id, relations, i, headers) {
            Ok(()) => {},
            Err(error) => {
                proof {
                    lemma_first_indexed_stops(relations@.len(), fault, (i + 1) as nat);
                }
                return Err(error);
            },
        }
        i += 1;
    }
    Ok(())
}

/// Checks a typed body: its own structure, its artifacts, its relations and its payload.
pub fn validate_typed_body_structure(
    atom: &CoreAtom,
    atom_id: &[u8; 32],
    headers: &Headers,
    artifacts: &Artifacts,
    policy: &Policy,
) -> (verdict: Result<(), StoreError>)
    ensures
        fault_of(verdict) == body_fault(*atom, atom_id@, *headers, *artifacts, *policy),
{
    let body = &atom.body;
    if let Some(rejection) = &atom.authority.rejection {
        let start = text_about("atom ", atom_id, " failed canonical core body validation: ");
        return Err(StoreError::Integrity(text2(start.as_str(), rejection.as_str())));
    }
    if !well_formed(body, policy) {
        return Err(
            integrity_about(
                "atom ",
                atom_id,
                " has invalid typed body structure, scope, time, or provenance",
            ),
        );
    }
    check_declarations(atom_id, &body.artifacts, artifacts, policy)?;
    if !all_observations_declared(body) {
        return Err(
            integrity_about("atom ", atom_id, " observation artifact provenance is not declared"),
        );
    }
    check_relations(atom_id, body.scope.memory_space_id.as_str(), &body.relations, headers)?;
    check_payload(body, atom_id, headers, policy)
}

/// A body that passes stays within its memory space: the targets of its relations, and the sources
/// of a semantic atom, are stored atoms of the same memory space.
pub proof fn law_valid_body_stays_in_its_memory_space(
    atom: CoreAtom,
    atom_id: Seq<u8>,
    headers: Headers,
    artifacts: Artifacts,
    policy: Policy,
)
    requires
        body_fault(atom, atom_id, headers, artifacts, policy) is None,
    ensures
        forall|i: int|
            0 <= i < atom.body.relations@.len() ==> {
                let target = (#[trigger] atom.body.relations@[i]).target@;
                header_views(headers).contains_key(target) && header_views(
                    headers,
                )[target].memory_space_id == atom.body.scope.memory_space_id@ && target != atom_id
            },
        atom.body.payload matches Payload::Semantic(payload) ==> forall|i: int|
            0 <= i < payload.source_ids@.len() ==> {
                let source = (#[trigger] payload.source_ids@[i])@;
                header_views(headers).contains_key(source) && header_views(
                    headers,
                )[source].memory_space_id == atom.body.scope.memory_space_id@ && header_views(
                    headers,
                )[source].atom_kind == "episode"@
            },
{
    let body = atom.body;
    let fault = |i: int|
        relation_fault(atom_id, body.scope.memory_space_id@, body.relations@, i, headers);
    lemma_no_first_indexed(body.relations@.len(), fault);
    assert forall|i: int| 0 <= i < body.relations@.len() implies {
        let target = (#[trigger] body.relations@[i]).target@;
        header_views(headers).contains_key(target) && header_views(headers)[target].memory_space_id
            == body.scope.memory_space_id@ && target != atom_id
    } by {
        assert(fault(i) is None);
    }
    if let Payload::Semantic(payload) = body.payload {
        let broken = |i: int|
            source_fault(atom_id, body.scope.memory_space_id@, payload, i, headers);
        lemma_no_first_indexed(payload.source_ids@.len(), broken);
        assert forall|i: int| 0 <= i < payload.source_ids@.len() implies {
            let source = (#[trigger] payload.source_ids@[i])@;
            header_views(headers).contains_key(source) && header_views(
                headers,
            )[source].memory_space_id == body.scope.memory_space_id@ && header_views(
                headers,
            )[source].atom_kind == "episode"@
        } by {
            assert(broken(i) is None);
        }
    }
}

/// An artifact may be declared exactly where it is registered and verified with the declared size,
/// has a media type, is no larger than the policy allows, was not declared before with the same
/// media type and, where its bytes stand in the body, those are few enough and are the artifact.
pub proof fn law_artifact_is_declared_exactly_as_registered(
    atom_id: Seq<u8>,
    declared: Seq<ArtifactDeclaration>,
    i: int,
    artifacts: Artifacts,
    policy: Policy,
)
    ensures
        declaration_fault(atom_id, declared, i, artifacts, policy) is None <==> {
            let known = artifact_views(artifacts);
            &&& known.contains_key(declared[i].digest@)
            &&& declared[i].media_type@.len() > 0
            &&& declared[i].size_bytes <= policy.artifact_max_bytes
            &&& known[declared[i].digest@].record.byte_len == declared[i].size_bytes
            &&& known[declared[i].digest@].integrity_status == "verified"@
            &&& forall|j: int|
                0 <= j < i ==> (#[trigger] declared[j]).digest@ != declared[i].digest@
                    || declared[j].media_type@ != declared[i].media_type@
            &&& (declared[i].inline_payload matches Some(inline) ==> inline@.len()
                <= policy.inline_payload_max_bytes && inline@.len() == declared[i].size_bytes
                && sha256_of(inline@) == declared[i].digest@)
        },
{
}

/// A relation may be declared exactly where its target is another stored atom of the same memory
/// space and was not declared before with the same kind.
pub proof fn law_relation_is_declared_exactly_within_its_space(
    atom_id: Seq<u8>,
    memory_space_id: Seq<char>,
    relations: Seq<RelationDeclaration>,
    i: int,
    headers: Headers,
)
    ensures
        relation_fault(atom_id, memory_space_id, relations, i, headers) is None <==> {
            let known = header_views(headers);
            &&& known.contains_key(relations[i].target@)
            &&& relations[i].target@ != atom_id
            &&& known[relations[i].target@].memory_space_id == memory_space_id
            &&& forall|j: int|
                0 <= j < i ==> (#[trigger] relations[j]).target@ != relations[i].target@
                    || relations[j].kind != relations[i].kind
        },
{
}

/// The targets of a kind are those of the relations of that kind: a relation more adds its target
/// exactly where it is of the kind.
pub proof fn law_targets_are_those_of_the_kind(
    relations: Seq<RelationDeclaration>,
    relation: RelationDeclaration,
    kind: RelationKind,
)
    ensures
        targets_of(Seq::<RelationDeclaration>::empty(), kind).len() == 0,
        relation.kind == kind ==> targets_of(relations.push(relation), kind) == targets_of(
            relations,
            kind,
        ).push(relation.target@),
        relation.kind != kind ==> targets_of(relations.push(relation), kind) == targets_of(
            relations,
            kind,
        ),
{
    assert(relations.push(relation).drop_last() =~= relations);
}

/// An episode closes exactly where its events run forward and it continues the one atom that its
/// relations name, or none.
pub proof fn law_episode_closes_over_what_it_continues(
    body: MemoryAtomBody,
    payload: EpisodePayload,
    atom_id: Seq<u8>,
    headers: Headers,
    policy: Policy,
)
    requires
        body.payload == Payload::Episode(payload),
    ensures
        payload_fault(body, atom_id, headers, policy) is None <==> {
            let targets = targets_of(body.relations@, RelationKind::Continues);
            &&& payload.event_sequence_start <= payload.event_sequence_end
            &&& targets.len() <= 1
            &&& payload.continues is Some <==> targets.len() == 1
            &&& payload.continues matches Some(previous) ==> targets[0] == previous@
        },
{
    let targets = targets_of(body.relations@, RelationKind::Continues);
    if targets.len() <= 1 && (payload.continues is Some <==> targets.len() == 1) && (
    payload.continues matches Some(previous) ==> targets[0] == previous@) {
        assert(targets =~= continued(payload));
    }
}

/// A semantic atom closes exactly where it has enough sources, each once, its digests, relations
/// and events name exactly them, the consensus is that of the policy, it may be kept as a semantic
/// atom, and every source is a stored episode of the same memory space with the digest it carries.
pub proof fn law_semantic_atom_closes_over_its_sources(
    body: MemoryAtomBody,
    payload: SemanticPayload,
    atom_id: Seq<u8>,
    headers: Headers,
    policy: Policy,
)
    requires
        body.payload == Payload::Semantic(payload),
    ensures
        payload_fault(body, atom_id, headers, policy) is None <==> {
            let sources = digest_seq(payload.source_ids@);
            let known = header_views(headers);
            &&& payload.source_ids@.len() >= policy.min_semantic_sources
            &&& ascending(sources)
            &&& payload.source_body_digests@.len() == payload.source_ids@.len()
            &&& targets_of(body.relations@, RelationKind::DerivedFrom) == sources
            &&& digest_seq(body.provenance.source_event_digests@) == sources
            &&& payload.consensus_numerator == policy.consensus_numerator
            &&& payload.consensus_denominator == policy.consensus_denominator
            &&& body.retention_permission == RetentionPermission::SemanticAllowed
            &&& forall|i: int|
                0 <= i < payload.source_ids@.len() ==> {
                    let source = (#[trigger] payload.source_ids@[i])@;
                    &&& payload.source_body_digests@[i].atom_id@ == source
                    &&& known.contains_key(source)
                    &&& known[source].atom_kind == "episode"@
                    &&& known[source].memory_space_id == body.scope.memory_space_id@
                    &&& known[source].body_digest == payload.source_body_digests@[i].body_digest@
                }
        },
{
    let sources = digest_seq(payload.source_ids@);
    let keys = digest_keys(payload.source_body_digests@);
    let known = header_views(headers);
    let broken = |i: int| source_fault(atom_id, body.scope.memory_space_id@, payload, i, headers);
    lemma_no_first_indexed(payload.source_ids@.len(), broken);
    assert(sources.len() == payload.source_ids@.len());
    assert(keys.len() == payload.source_body_digests@.len());
    if payload_fault(body, atom_id, headers, policy) is None {
        assert forall|i: int| 0 <= i < payload.source_ids@.len() implies {
            let source = (#[trigger] payload.source_ids@[i])@;
            &&& payload.source_body_digests@[i].atom_id@ == source
            &&& known.contains_key(source)
            &&& known[source].atom_kind == "episode"@
            &&& known[source].memory_space_id == body.scope.memory_space_id@
            &&& known[source].body_digest == payload.source_body_digests@[i].body_digest@
        } by {
            assert(broken(i) is None);
            assert(keys[i] == sources[i]);
        }
    }
    if payload.source_body_digests@.len() == payload.source_ids@.len() && forall|i: int|
        0 <= i < payload.source_ids@.len() ==> {
            let source = (#[trigger] payload.source_ids@[i])@;
            &&& payload.source_body_digests@[i].atom_id@ == source
            &&& known.contains_key(source)
            &&& known[source].atom_kind == "episode"@
            &&& known[source].memory_space_id == body.scope.memory_space_id@
            &&& known[source].body_digest == payload.source_body_digests@[i].body_digest@
        } {
        assert forall|i: int| 0 <= i < keys.len() implies keys[i] == sources[i] by {
            assert(payload.source_ids@[i]@ == payload.source_body_digests@[i].atom_id@);
        }
        assert(keys =~= sources);
        assert forall|i: int| 0 <= i < payload.source_ids@.len() implies #[trigger] broken(
            i,
        ) is None by {
            assert(payload.source_ids@[i]@ == sources[i]);
        }
    }
}

/// A body is accepted exactly where the memory core accepts it, it says who, where, when and why,
/// its times are in order, every observation lies within its interval and names a declared artifact
/// or none, and its declarations, its relations and its payload close.
pub proof fn law_body_is_accepted_exactly(
    atom: CoreAtom,
    atom_id: Seq<u8>,
    headers: Headers,
    artifacts: Artifacts,
    policy: Policy,
)
    ensures
        body_fault(atom, atom_id, headers, artifacts, policy) is None <==> {
            let body = atom.body;
            &&& atom.authority.rejection is None
            &&& body.contract_version@ == "atom-v1"@
            &&& body.scope.memory_space_id@.len() > 0
            &&& body.scope.session_id@.len() > 0
            &&& body.trigger@.len() > 0
            &&& body.provenance.producer@.len() > 0
            &&& body.provenance.policy_digest@ == policy.digest@
            &&& body.interval.started_at_us <= body.interval.ended_at_us
            &&& body.interval.ended_at_us <= body.interval.recorded_at_us
            &&& (body.scope.repository_id matches Some(name) ==> name@.len() > 0)
            &&& (body.scope.task_id matches Some(name) ==> name@.len() > 0)
            &&& (body.scope.agent_id matches Some(name) ==> name@.len() > 0)
            &&& forall|i: int|
                0 <= i < body.observations@.len() ==> {
                    let observation = #[trigger] body.observations@[i];
                    &&& body.interval.started_at_us <= observation.at_us
                    &&& observation.at_us <= body.interval.ended_at_us
                    &&& observation.artifact_digest matches Some(digest) ==> exists|j: int|
                        0 <= j < body.artifacts@.len() && (
                        #[trigger] body.artifacts@[j]).digest@ == digest@
                }
            &&& forall|i: int|
                0 <= i < body.artifacts@.len() ==> #[trigger] declaration_fault(
                    atom_id,
                    body.artifacts@,
                    i,
                    artifacts,
                    policy,
                ) is None
            &&& forall|i: int|
                0 <= i < body.relations@.len() ==> #[trigger] relation_fault(
                    atom_id,
                    body.scope.memory_space_id@,
                    body.relations@,
                    i,
                    headers,
                ) is None
            &&& payload_fault(body, atom_id, headers, policy) is None
        },
{
    let body = atom.body;
    let undeclared = |i: int| declaration_fault(atom_id, body.artifacts@, i, artifacts, policy);
    let unrelated = |i: int|
        relation_fault(atom_id, body.scope.memory_space_id@, body.relations@, i, headers);
    lemma_no_first_indexed(body.artifacts@.len(), undeclared);
    lemma_no_first_indexed(body.relations@.len(), unrelated);
    if body_fault(atom, atom_id, headers, artifacts, policy) is None {
        assert forall|i: int| 0 <= i < body.artifacts@.len() implies #[trigger] declaration_fault(
            atom_id,
            body.artifacts@,
            i,
            artifacts,
            policy,
        ) is None by {
            assert(undeclared(i) is None);
        }
        assert forall|i: int| 0 <= i < body.relations@.len() implies #[trigger] relation_fault(
            atom_id,
            body.scope.memory_space_id@,
            body.relations@,
            i,
            headers,
        ) is None by {
            assert(unrelated(i) is None);
        }
        assert forall|i: int| 0 <= i < body.observations@.len() implies {
            let observation = #[trigger] body.observations@[i];
            &&& body.interval.started_at_us <= observation.at_us
            &&& observation.at_us <= body.interval.ended_at_us
            &&& observation.artifact_digest matches Some(digest) ==> exists|j: int|
                0 <= j < body.artifacts@.len() && (#[trigger] body.artifacts@[j]).digest@
                    == digest@
        } by {
            if let Some(digest) = body.observations@[i].artifact_digest {
                assert(declares(body.artifacts@, digest@));
            }
        }
    }
}

} // verus!
