//! Atom records as the store writes them, and the checks that admit one.

use vstd::prelude::*;
use vstd::string::*;

use crate::digest::{Transcript, sha256_of};
use crate::error::{Fault, StoreError, either_fault, fault_of, fault_when, integrity};
use crate::framing::{
    domain_hasher, frame, hash_optional_text, hash_text, law_frame_is_self_delimiting,
    law_optional_frame_is_self_delimiting, lemma_regroup, lemma_split, lemma_utf8_determines, optional_frame,
    optional_utf8, utf8,
};
use crate::json::{json_array, json_fault, texts, validate_json, write_json_array};
use crate::model::{
    AtomState, CoreAtom, MemoryAtomBody, Observation, Policy, content_status_from_store,
    kind_from_store, kind_name, kind_named, law_status_names_round_trip, law_tier_names_round_trip,
    payload_kind_text, permission_name, permission_named, permission_text,
    retention_permission_from_store, retention_tier_from_store, status_name, status_named,
    status_text, tier_name, tier_named, tier_text,
};
use crate::stored::{digest_seq, same_digest, same_digests};
use crate::text::{copy_bytes, copy_optional_text, optional_text, same_bytes, same_text};

verus! {

/// The largest canonical body that an atom may have.
pub const MAX_ATOM_BYTES: usize = 262144;

/// The domain of a provenance digest.
pub open spec fn provenance_domain() -> Seq<u8> {
    utf8("naome-memory:provenance:v1\0"@)
}

/// An atom as its rows hold it.
#[derive(Clone, Debug)]
pub struct AtomRecord {
    pub atom_id: [u8; 32],
    pub atom_kind: String,
    pub memory_space_id: String,
    pub repository_id: Option<String>,
    pub task_id: Option<String>,
    pub agent_id: Option<String>,
    pub session_id: Option<String>,
    pub recorded_at_us: u64,
    pub body_digest: [u8; 32],
    pub canonical_body: Vec<u8>,
    pub json_projection: String,
    pub retention_permission: String,
    pub provenance_digest: [u8; 32],
    pub provenance_producer: String,
    pub provenance_policy_digest: [u8; 32],
    pub canonical_provenance: Vec<u8>,
    pub provenance_json_projection: String,
    pub provenance_source_digests: Vec<[u8; 32]>,
    pub retention_tier: String,
    pub content_status: String,
    pub expires_at_us: Option<u64>,
    pub searchable_text: String,
    pub topic_keys_json: String,
    pub entity_ids_json: String,
    pub outcome_class: Option<String>,
}

/// Texts one after the other, a line break between each two.
pub open spec fn lines(fields: Seq<Seq<char>>) -> Seq<char>
    decreases fields.len(),
{
    if fields.len() == 0 {
        Seq::empty()
    } else if fields.len() == 1 {
        fields[0]
    } else {
        lines(fields.drop_last()) + "\n"@ + fields.last()
    }
}

/// An optional field as a list.
pub open spec fn listed(field: Option<Seq<char>>) -> Seq<Seq<char>> {
    match field {
        Some(field) => seq![field],
        None => Seq::empty(),
    }
}

/// The contents of a list of observations.
pub open spec fn observed(observations: Seq<Observation>) -> Seq<Seq<char>> {
    observations.map_values(|observation: Observation| observation.content@)
}

/// The fields of a body that a search looks at, in order.
pub open spec fn searchable_fields(body: MemoryAtomBody) -> Seq<Seq<char>> {
    seq![body.trigger@] + listed(optional_text(body.goal)) + texts(body.plan@) + observed(
        body.observations@,
    ) + texts(body.interpretations@) + texts(body.beliefs@) + texts(body.decisions@) + texts(
        body.actions@,
    ) + listed(optional_text(body.outcome_summary)) + texts(body.topic_keys@) + texts(
        body.entity_ids@,
    )
}

fn add_line(text: String, field: &str, Ghost(fields): Ghost<Seq<Seq<char>>>) -> (joined: String)
    requires
        fields.len() > 0,
        text@ == lines(fields),
    ensures
        joined@ == lines(fields + seq![field@]),
{
    let mut joined = text;
    joined.append("\n");
    joined.append(field);
    proof {
        let next = fields + seq![field@];
        assert(next.drop_last() =~= fields);
        assert(next.last() == field@);
    }
    joined
}

fn add_optional_line(
    text: String,
    field: &Option<String>,
    Ghost(fields): Ghost<Seq<Seq<char>>>,
) -> (joined: String)
    requires
        fields.len() > 0,
        text@ == lines(fields),
    ensures
        joined@ == lines(fields + listed(optional_text(*field))),
{
    match field {
        Some(field) => add_line(text, field.as_str(), Ghost(fields)),
        None => {
            assert(fields + listed(None) =~= fields);
            text
        },
    }
}

fn add_lines(text: String, values: &Vec<String>, Ghost(fields): Ghost<Seq<Seq<char>>>) -> (joined:
    String)
    requires
        fields.len() > 0,
        text@ == lines(fields),
    ensures
        joined@ == lines(fields + texts(values@)),
{
    let mut joined = text;
    let mut i: usize = 0;
    assert(fields + texts(values@).subrange(0, 0) =~= fields);
    while i < values.len()
        invariant
            fields.len() > 0,
            i <= values@.len(),
            joined@ == lines(fields + texts(values@).subrange(0, i as int)),
        decreases values@.len() - i,
    {
        let ghost before = fields + texts(values@).subrange(0, i as int);
        joined = add_line(joined, values[i].as_str(), Ghost(before));
        i += 1;
        assert(before + seq![values@[i - 1]@] =~= fields + texts(values@).subrange(0, i as int));
    }
    assert(texts(values@).subrange(0, i as int) =~= texts(values@));
    joined
}

fn add_observed(
    text: String,
    values: &Vec<Observation>,
    Ghost(fields): Ghost<Seq<Seq<char>>>,
) -> (joined: String)
    requires
        fields.len() > 0,
        text@ == lines(fields),
    ensures
        joined@ == lines(fields + observed(values@)),
{
    let mut joined = text;
    let mut i: usize = 0;
    assert(fields + observed(values@).subrange(0, 0) =~= fields);
    while i < values.len()
        invariant
            fields.len() > 0,
            i <= values@.len(),
            joined@ == lines(fields + observed(values@).subrange(0, i as int)),
        decreases values@.len() - i,
    {
        let ghost before = fields + observed(values@).subrange(0, i as int);
        joined = add_line(joined, values[i].content.as_str(), Ghost(before));
        i += 1;
        assert(before + seq![values@[i - 1].content@] =~= fields + observed(values@).subrange(
            0,
            i as int,
        ));
    }
    assert(observed(values@).subrange(0, i as int) =~= observed(values@));
    joined
}

/// Writes what a search looks at: every searchable field on lines of its own.
pub fn searchable_text(body: &MemoryAtomBody) -> (text: String)
    ensures
        text@ == lines(searchable_fields(*body)),
{
    let ghost f0: Seq<Seq<char>> = seq![body.trigger@];
    let text = body.trigger.clone();
    assert(lines(f0) == body.trigger@);
    let text = add_optional_line(text, &body.goal, Ghost(f0));
    let ghost f1 = f0 + listed(optional_text(body.goal));
    let text = add_lines(text, &body.plan, Ghost(f1));
    let ghost f2 = f1 + texts(body.plan@);
    let text = add_observed(text, &body.observations, Ghost(f2));
    let ghost f3 = f2 + observed(body.observations@);
    let text = add_lines(text, &body.interpretations, Ghost(f3));
    let ghost f4 = f3 + texts(body.interpretations@);
    let text = add_lines(text, &body.beliefs, Ghost(f4));
    let ghost f5 = f4 + texts(body.beliefs@);
    let text = add_lines(text, &body.decisions, Ghost(f5));
    let ghost f6 = f5 + texts(body.decisions@);
    let text = add_lines(text, &body.actions, Ghost(f6));
    let ghost f7 = f6 + texts(body.actions@);
    let text = add_optional_line(text, &body.outcome_summary, Ghost(f7));
    let ghost f8 = f7 + listed(optional_text(body.outcome_summary));
    let text = add_lines(text, &body.topic_keys, Ghost(f8));
    let ghost f9 = f8 + texts(body.topic_keys@);
    add_lines(text, &body.entity_ids, Ghost(f9))
}

/// The digest of `bytes` behind `domain`.
pub open spec fn domain_digest(domain: Seq<u8>, bytes: Seq<u8>) -> Seq<u8> {
    sha256_of(domain + bytes)
}

/// Hashes `bytes` behind `domain`.
pub fn hash_prefixed(domain: &[u8], bytes: &[u8]) -> (digest: [u8; 32])
    ensures
        digest@ == domain_digest(domain@, bytes@),
{
    let transcript = Transcript::new().update(domain).update(bytes);
    assert(transcript@ =~= domain@ + bytes@);
    transcript.finish()
}

/// Hashes the canonical bytes of a provenance.
pub fn hash_provenance(bytes: &[u8]) -> (digest: [u8; 32])
    ensures
        digest@ == domain_digest(provenance_domain(), bytes@),
{
    hash_prefixed("naome-memory:provenance:v1\0".as_bytes(), bytes)
}

/// Copies a list of digests.
pub fn copy_digests(digests: &Vec<[u8; 32]>) -> (copy: Vec<[u8; 32]>)
    ensures
        copy@ == digests@,
{
    let mut copy: Vec<[u8; 32]> = Vec::new();
    let mut i: usize = 0;
    while i < digests.len()
        invariant
            i <= digests@.len(),
            copy@ == digests@.subrange(0, i as int),
        decreases digests@.len() - i,
    {
        copy.push(digests[i]);
        i += 1;
        assert(copy@ =~= digests@.subrange(0, i as int));
    }
    assert(copy@ =~= digests@);
    copy
}

/// The fault of a body that the memory core rejects.
pub open spec fn core_fault(atom: CoreAtom) -> Option<Fault> {
    match atom.authority.rejection {
        Some(text) => Some(Fault::Core(text@)),
        None => None,
    }
}

/// The fault of a list of texts that has no JSON array.
pub open spec fn json_array_fault(values: Seq<Seq<char>>) -> Option<Fault> {
    match json_array(values) {
        Ok(_) => None,
        Err(text) => Some(Fault::Json(text)),
    }
}

/// The fault of a typed atom that has no record.
pub open spec fn record_fault(atom: CoreAtom) -> Option<Fault> {
    either_fault(
        core_fault(atom),
        either_fault(
            json_array_fault(texts(atom.body.topic_keys@)),
            json_array_fault(texts(atom.body.entity_ids@)),
        ),
    )
}

/// Whether `record` is what the store writes for a typed atom in a state.
pub open spec fn is_record_of(record: AtomRecord, atom: CoreAtom, state: AtomState) -> bool {
    let body = atom.body;
    let authority = atom.authority;
    &&& record.atom_id@ == authority.atom_id@
    &&& record.atom_kind@ == kind_name(body.payload.kind())
    &&& record.memory_space_id@ == body.scope.memory_space_id@
    &&& optional_text(record.repository_id) == optional_text(body.scope.repository_id)
    &&& optional_text(record.task_id) == optional_text(body.scope.task_id)
    &&& optional_text(record.agent_id) == optional_text(body.scope.agent_id)
    &&& optional_text(record.session_id) == Some(body.scope.session_id@)
    &&& record.recorded_at_us == body.interval.recorded_at_us
    &&& record.body_digest@ == authority.atom_id@
    &&& record.canonical_body@ == authority.canonical_body@
    &&& record.json_projection@ == authority.json_projection@
    &&& record.retention_permission@ == permission_name(body.retention_permission)
    &&& record.provenance_digest@ == domain_digest(
        provenance_domain(),
        authority.canonical_provenance@,
    )
    &&& record.provenance_producer@ == body.provenance.producer@
    &&& record.provenance_policy_digest@ == body.provenance.policy_digest@
    &&& record.canonical_provenance@ == authority.canonical_provenance@
    &&& record.provenance_json_projection@ == authority.provenance_json_projection@
    &&& record.provenance_source_digests@ == body.provenance.source_event_digests@
    &&& record.retention_tier@ == tier_name(state.retention_tier)
    &&& record.content_status@ == status_name(state.content_status)
    &&& record.expires_at_us == state.expires_at_us
    &&& record.searchable_text@ == lines(searchable_fields(body))
    &&& json_array(texts(body.topic_keys@)) == Ok::<Seq<char>, Seq<char>>(record.topic_keys_json@)
    &&& json_array(texts(body.entity_ids@)) == Ok::<Seq<char>, Seq<char>>(record.entity_ids_json@)
    &&& optional_text(record.outcome_class) == optional_text(body.outcome_class)
}

impl AtomRecord {
    /// Writes the record of a typed atom in a state.
    pub fn from_core(atom: &CoreAtom, state: &AtomState) -> (record: Result<AtomRecord, StoreError>)
        ensures
            fault_of(record) == record_fault(*atom),
            record matches Ok(record) ==> is_record_of(record, *atom, *state),
    {
        let body = &atom.body;
        let authority = &atom.authority;
        if let Some(rejection) = &authority.rejection {
            return Err(StoreError::Core(rejection.clone()));
        }
        let provenance_digest = hash_provenance(authority.canonical_provenance.as_slice());
        let topic_keys_json = match write_json_array(&body.topic_keys) {
            Ok(text) => text,
            Err(text) => return Err(StoreError::Json(text)),
        };
        let entity_ids_json = match write_json_array(&body.entity_ids) {
            Ok(text) => text,
            Err(text) => return Err(StoreError::Json(text)),
        };
        Ok(
            AtomRecord {
                atom_id: authority.atom_id,
                atom_kind: payload_kind_text(&body.payload).to_owned(),
                memory_space_id: body.scope.memory_space_id.clone(),
                repository_id: copy_optional_text(&body.scope.repository_id),
                task_id: copy_optional_text(&body.scope.task_id),
                agent_id: copy_optional_text(&body.scope.agent_id),
                session_id: Some(body.scope.session_id.clone()),
                recorded_at_us: body.interval.recorded_at_us,
                body_digest: authority.atom_id,
                canonical_body: copy_bytes(authority.canonical_body.as_slice()),
                json_projection: authority.json_projection.clone(),
                retention_permission: permission_text(body.retention_permission).to_owned(),
                provenance_digest,
                provenance_producer: body.provenance.producer.clone(),
                provenance_policy_digest: body.provenance.policy_digest,
                canonical_provenance: copy_bytes(authority.canonical_provenance.as_slice()),
                provenance_json_projection: authority.provenance_json_projection.clone(),
                provenance_source_digests: copy_digests(&body.provenance.source_event_digests),
                retention_tier: tier_text(state.retention_tier).to_owned(),
                content_status: status_text(state.content_status).to_owned(),
                expires_at_us: state.expires_at_us,
                searchable_text: searchable_text(body),
                topic_keys_json,
                entity_ids_json,
                outcome_class: copy_optional_text(&body.outcome_class),
            },
        )
    }
}

/// The transcript of a search projection.
pub open spec fn projection_transcript(
    searchable: Seq<char>,
    topics: Seq<char>,
    entities: Seq<char>,
    outcome: Option<Seq<char>>,
) -> Seq<u8> {
    utf8("naome-memory:sqlite:search-projection:v1\0"@) + frame(utf8(searchable)) + frame(
        utf8(topics),
    ) + frame(utf8(entities)) + optional_frame(optional_utf8(outcome))
}

/// The digest of the search projection of a record.
pub open spec fn projection_digest_of(record: AtomRecord) -> Seq<u8> {
    sha256_of(
        projection_transcript(
            record.searchable_text@,
            record.topic_keys_json@,
            record.entity_ids_json@,
            optional_text(record.outcome_class),
        ),
    )
}

/// Hashes the search projection of a record.
pub fn sha256_projection(atom: &AtomRecord) -> (digest: [u8; 32])
    ensures
        digest@ == projection_digest_of(*atom),
{
    let transcript = domain_hasher("naome-memory:sqlite:search-projection:v1\0");
    let transcript = hash_text(transcript, atom.searchable_text.as_str());
    let transcript = hash_text(transcript, atom.topic_keys_json.as_str());
    let transcript = hash_text(transcript, atom.entity_ids_json.as_str());
    let transcript = hash_optional_text(transcript, &atom.outcome_class);
    transcript.finish()
}

/// The provenance that a JSON projection of it reads as, with its canonical bytes.
#[derive(Clone, Debug)]
pub struct ProjectedProvenance {
    pub producer: String,
    pub policy_digest: [u8; 32],
    pub source_event_digests: Vec<[u8; 32]>,
    pub canonical: Vec<u8>,
}

/// Whether a projected provenance agrees with a record and the committed policy.
pub open spec fn provenance_agrees(
    record: AtomRecord,
    projected: ProjectedProvenance,
    policy: Policy,
) -> bool {
    &&& projected.canonical@ == record.canonical_provenance@
    &&& projected.producer@ == record.provenance_producer@
    &&& projected.policy_digest@ == record.provenance_policy_digest@
    &&& record.provenance_policy_digest@ == policy.digest@
    &&& domain_digest(provenance_domain(), record.canonical_provenance@)
        == record.provenance_digest@
    &&& digest_seq(projected.source_event_digests@) == digest_seq(record.provenance_source_digests@)
}

/// The fault of a record that the store does not admit.
pub open spec fn atom_fault(
    atom: AtomRecord,
    projected: Result<ProjectedProvenance, String>,
    policy: Policy,
) -> Option<Fault> {
    let identity = domain_digest(policy.atom_hash_domain@, atom.canonical_body@);
    if atom.canonical_body@.len() > MAX_ATOM_BYTES {
        Some(Fault::Integrity("atom body exceeds 262144 bytes"@))
    } else if identity != atom.body_digest@ || identity != atom.atom_id@ {
        Some(
            Fault::Integrity("atom ID or body digest does not match canonical authority bytes"@),
        )
    } else if json_fault(atom.json_projection@, "atom"@) is Some {
        json_fault(atom.json_projection@, "atom"@)
    } else if json_fault(atom.provenance_json_projection@, "atom provenance"@) is Some {
        json_fault(atom.provenance_json_projection@, "atom provenance"@)
    } else if json_fault(atom.topic_keys_json@, "topic keys"@) is Some {
        json_fault(atom.topic_keys_json@, "topic keys"@)
    } else if json_fault(atom.entity_ids_json@, "entity ids"@) is Some {
        json_fault(atom.entity_ids_json@, "entity ids"@)
    } else if kind_named(atom.atom_kind@) is None {
        Some(Fault::Integrity("invalid atom kind"@))
    } else if permission_named(atom.retention_permission@) is None {
        Some(Fault::Integrity("invalid retention permission"@))
    } else if tier_named(atom.retention_tier@) is None || status_named(atom.content_status@) is None {
        Some(Fault::Integrity("invalid atom state"@))
    } else {
        match projected {
            Err(text) => Some(Fault::Json(text@)),
            Ok(projected) => fault_when(
                !provenance_agrees(atom, projected, policy),
                Fault::Integrity("atom provenance authority is inconsistent"@),
            ),
        }
    }
}

/// Admits a record: its identity is the hash of its body, its texts are JSON, its names are known
/// and its provenance agrees with its projection and the committed policy.
pub fn validate_atom(
    atom: &AtomRecord,
    projected: &Result<ProjectedProvenance, String>,
    policy: &Policy,
) -> (verdict: Result<(), StoreError>)
    ensures
        fault_of(verdict) == atom_fault(*atom, *projected, *policy),
{
    if atom.canonical_body.len() > MAX_ATOM_BYTES {
        return Err(integrity("atom body exceeds 262144 bytes"));
    }
    let identity = hash_prefixed(policy.atom_hash_domain.as_slice(), atom.canonical_body.as_slice());
    if !same_digest(&identity, &atom.body_digest) || !same_digest(&identity, &atom.atom_id) {
        return Err(integrity("atom ID or body digest does not match canonical authority bytes"));
    }
    validate_json(atom.json_projection.as_str(), "atom")?;
    validate_json(atom.provenance_json_projection.as_str(), "atom provenance")?;
    validate_json(atom.topic_keys_json.as_str(), "topic keys")?;
    validate_json(atom.entity_ids_json.as_str(), "entity ids")?;
    if kind_from_store(atom.atom_kind.as_str()).is_none() {
        return Err(integrity("invalid atom kind"));
    }
    if retention_permission_from_store(atom.retention_permission.as_str()).is_err() {
        return Err(integrity("invalid retention permission"));
    }
    if retention_tier_from_store(atom.retention_tier.as_str()).is_err()
        || content_status_from_store(atom.content_status.as_str()).is_err() {
        return Err(integrity("invalid atom state"));
    }
    let projected = match projected {
        Ok(projected) => projected,
        Err(text) => return Err(StoreError::Json(text.clone())),
    };
    let expected_provenance_digest = hash_provenance(atom.canonical_provenance.as_slice());
    if !same_bytes(projected.canonical.as_slice(), atom.canonical_provenance.as_slice())
        || !same_text(projected.producer.as_str(), atom.provenance_producer.as_str())
        || !same_digest(&projected.policy_digest, &atom.provenance_policy_digest) || !same_digest(
        &atom.provenance_policy_digest,
        &policy.digest,
    ) || !same_digest(&expected_provenance_digest, &atom.provenance_digest) || !same_digests(
        projected.source_event_digests.as_slice(),
        atom.provenance_source_digests.as_slice(),
    ) {
        return Err(integrity("atom provenance authority is inconsistent"));
    }
    Ok(())
}

/// Whether a typed atom stands under its own content: its identity is the hash of its canonical
/// body in the domain of atoms.
pub open spec fn is_content_addressed(atom: CoreAtom, atom_hash_domain: Seq<u8>) -> bool {
    atom.authority.atom_id@ == domain_digest(atom_hash_domain, atom.authority.canonical_body@)
}

/// The record of an atom stands under the content of the atom: identity and body digest are the
/// hash of its canonical body, whatever the state. The names of tier and status read back as those
/// of the state.
pub proof fn law_record_identity_is_the_hash_of_its_body(
    record: AtomRecord,
    atom: CoreAtom,
    state: AtomState,
    atom_hash_domain: Seq<u8>,
)
    requires
        is_record_of(record, atom, state),
        is_content_addressed(atom, atom_hash_domain),
    ensures
        record.atom_id@ == domain_digest(atom_hash_domain, record.canonical_body@),
        record.body_digest@ == record.atom_id@,
        tier_named(record.retention_tier@) == Some(state.retention_tier),
        status_named(record.content_status@) == Some(state.content_status),
        record.expires_at_us == state.expires_at_us,
{
    law_tier_names_round_trip(state.retention_tier, record.retention_tier@);
    law_status_names_round_trip(state.content_status, record.content_status@);
}

/// The store admits the record of an atom only under the content of the atom, in the domain of the
/// committed policy.
pub proof fn law_admitted_atom_is_content_addressed(
    record: AtomRecord,
    atom: CoreAtom,
    state: AtomState,
    projected: Result<ProjectedProvenance, String>,
    policy: Policy,
)
    requires
        is_record_of(record, atom, state),
        atom_fault(record, projected, policy) is None,
    ensures
        is_content_addressed(atom, policy.atom_hash_domain@),
{
}

/// Whether two records differ in nothing but tier, status and expiry.
pub open spec fn same_but_state(a: AtomRecord, b: AtomRecord) -> bool {
    &&& a.atom_id@ == b.atom_id@
    &&& a.atom_kind@ == b.atom_kind@
    &&& a.memory_space_id@ == b.memory_space_id@
    &&& optional_text(a.repository_id) == optional_text(b.repository_id)
    &&& optional_text(a.task_id) == optional_text(b.task_id)
    &&& optional_text(a.agent_id) == optional_text(b.agent_id)
    &&& optional_text(a.session_id) == optional_text(b.session_id)
    &&& a.recorded_at_us == b.recorded_at_us
    &&& a.body_digest@ == b.body_digest@
    &&& a.canonical_body@ == b.canonical_body@
    &&& a.json_projection@ == b.json_projection@
    &&& a.retention_permission@ == b.retention_permission@
    &&& a.provenance_digest@ == b.provenance_digest@
    &&& a.provenance_producer@ == b.provenance_producer@
    &&& a.provenance_policy_digest@ == b.provenance_policy_digest@
    &&& a.canonical_provenance@ == b.canonical_provenance@
    &&& a.provenance_json_projection@ == b.provenance_json_projection@
    &&& a.provenance_source_digests@ == b.provenance_source_digests@
    &&& a.searchable_text@ == b.searchable_text@
    &&& a.topic_keys_json@ == b.topic_keys_json@
    &&& a.entity_ids_json@ == b.entity_ids_json@
    &&& optional_text(a.outcome_class) == optional_text(b.outcome_class)
}

/// State is no part of identity: the records of one atom in two states differ in nothing but tier,
/// status and expiry, and not even in those where the states agree on them.
pub proof fn law_records_of_one_body_differ_only_in_state(
    a: AtomRecord,
    b: AtomRecord,
    atom: CoreAtom,
    state: AtomState,
    other: AtomState,
)
    requires
        is_record_of(a, atom, state),
        is_record_of(b, atom, other),
    ensures
        same_but_state(a, b),
        a.retention_tier@ == b.retention_tier@ <==> state.retention_tier == other.retention_tier,
        a.content_status@ == b.content_status@ <==> state.content_status == other.content_status,
        a.expires_at_us == b.expires_at_us <==> state.expires_at_us == other.expires_at_us,
{
    law_tier_names_round_trip(state.retention_tier, a.retention_tier@);
    law_tier_names_round_trip(other.retention_tier, b.retention_tier@);
    law_status_names_round_trip(state.content_status, a.content_status@);
    law_status_names_round_trip(other.content_status, b.content_status@);
}

proof fn lemma_regroup_four(a: Seq<u8>, b: Seq<u8>, c: Seq<u8>, d: Seq<u8>, e: Seq<u8>)
    ensures
        a + b + c + d + e == a + (b + (c + (d + e))),
{
    lemma_regroup(c, d, e);
    lemma_regroup(b, c, d + e);
    lemma_regroup(a, b, c + (d + e));
    lemma_regroup(a + b, c, d + e);
    lemma_regroup(a + b + c, d, e);
}

/// A search projection is determined by its transcript: two projections that are hashed alike
/// hold the same text, topics, entities and outcome class.
pub proof fn law_projection_transcript_determines_projection(
    searchable: Seq<char>,
    topics: Seq<char>,
    entities: Seq<char>,
    outcome: Option<Seq<char>>,
    other_searchable: Seq<char>,
    other_topics: Seq<char>,
    other_entities: Seq<char>,
    other_outcome: Option<Seq<char>>,
)
    requires
        utf8(searchable).len() <= u64::MAX,
        utf8(topics).len() <= u64::MAX,
        utf8(entities).len() <= u64::MAX,
        outcome matches Some(text) ==> utf8(text).len() <= u64::MAX,
        utf8(other_searchable).len() <= u64::MAX,
        utf8(other_topics).len() <= u64::MAX,
        utf8(other_entities).len() <= u64::MAX,
        other_outcome matches Some(text) ==> utf8(text).len() <= u64::MAX,
        projection_transcript(searchable, topics, entities, outcome) == projection_transcript(
            other_searchable,
            other_topics,
            other_entities,
            other_outcome,
        ),
    ensures
        searchable == other_searchable,
        topics == other_topics,
        entities == other_entities,
        outcome == other_outcome,
{
    let domain = utf8("naome-memory:sqlite:search-projection:v1\0"@);
    let last = optional_frame(optional_utf8(outcome));
    let other_last = optional_frame(optional_utf8(other_outcome));
    let third = frame(utf8(entities)) + last;
    let other_third = frame(utf8(other_entities)) + other_last;
    let second = frame(utf8(topics)) + third;
    let other_second = frame(utf8(other_topics)) + other_third;
    let first = frame(utf8(searchable)) + second;
    let other_first = frame(utf8(other_searchable)) + other_second;
    lemma_regroup_four(domain, frame(utf8(searchable)), frame(utf8(topics)), frame(utf8(entities)), last);
    lemma_regroup_four(
        domain,
        frame(utf8(other_searchable)),
        frame(utf8(other_topics)),
        frame(utf8(other_entities)),
        other_last,
    );
    lemma_split(domain, first, domain, other_first);
    law_frame_is_self_delimiting(
        utf8(searchable),
        second,
        utf8(other_searchable),
        other_second,
    );
    law_frame_is_self_delimiting(utf8(topics), third, utf8(other_topics), other_third);
    law_frame_is_self_delimiting(utf8(entities), last, utf8(other_entities), other_last);
    let empty = Seq::<u8>::empty();
    assert(last + empty =~= last);
    assert(other_last + empty =~= other_last);
    law_optional_frame_is_self_delimiting(
        optional_utf8(outcome),
        empty,
        optional_utf8(other_outcome),
        empty,
    );
    lemma_utf8_determines(searchable, other_searchable);
    lemma_utf8_determines(topics, other_topics);
    lemma_utf8_determines(entities, other_entities);
    if let (Some(text), Some(other)) = (outcome, other_outcome) {
        lemma_utf8_determines(text, other);
    }
}

/// A record is admitted exactly where its body is no larger than 256 KiB, its identity and its body
/// digest are the hash of the body, its texts are JSON, its names are known, and its provenance is
/// that of its projection, of its own digest and of the committed policy.
pub proof fn law_record_is_admitted_exactly(
    atom: AtomRecord,
    projected: Result<ProjectedProvenance, String>,
    policy: Policy,
)
    ensures
        atom_fault(atom, projected, policy) is None <==> {
            &&& atom.canonical_body@.len() <= 256 * 1024
            &&& atom.atom_id@ == domain_digest(policy.atom_hash_domain@, atom.canonical_body@)
            &&& atom.body_digest@ == atom.atom_id@
            &&& json_fault(atom.json_projection@, "atom"@) is None
            &&& json_fault(atom.provenance_json_projection@, "atom provenance"@) is None
            &&& json_fault(atom.topic_keys_json@, "topic keys"@) is None
            &&& json_fault(atom.entity_ids_json@, "entity ids"@) is None
            &&& kind_named(atom.atom_kind@) is Some
            &&& permission_named(atom.retention_permission@) is Some
            &&& tier_named(atom.retention_tier@) is Some
            &&& status_named(atom.content_status@) is Some
            &&& projected matches Ok(projected)
            &&& projected.canonical@ == atom.canonical_provenance@
            &&& projected.producer@ == atom.provenance_producer@
            &&& projected.policy_digest@ == atom.provenance_policy_digest@
            &&& atom.provenance_policy_digest@ == policy.digest@
            &&& atom.provenance_digest@ == domain_digest(
                utf8("naome-memory:provenance:v1\0"@),
                atom.canonical_provenance@,
            )
            &&& digest_seq(projected.source_event_digests@) == digest_seq(
                atom.provenance_source_digests@,
            )
        },
{
}

/// Everything that a body says can be searched for: its trigger, goal and plan, what was observed,
/// interpreted, believed, decided and done, its outcome, its topics and its entities.
pub proof fn law_everything_said_is_searchable(body: MemoryAtomBody, i: int)
    ensures
        ({
            let fields = searchable_fields(body);
            &&& fields.contains(body.trigger@)
            &&& body.goal matches Some(goal) ==> fields.contains(goal@)
            &&& 0 <= i < body.plan@.len() ==> fields.contains(body.plan@[i]@)
            &&& 0 <= i < body.observations@.len() ==> fields.contains(
                body.observations@[i].content@,
            )
            &&& 0 <= i < body.interpretations@.len() ==> fields.contains(
                body.interpretations@[i]@,
            )
            &&& 0 <= i < body.beliefs@.len() ==> fields.contains(body.beliefs@[i]@)
            &&& 0 <= i < body.decisions@.len() ==> fields.contains(body.decisions@[i]@)
            &&& 0 <= i < body.actions@.len() ==> fields.contains(body.actions@[i]@)
            &&& body.outcome_summary matches Some(summary) ==> fields.contains(summary@)
            &&& 0 <= i < body.topic_keys@.len() ==> fields.contains(body.topic_keys@[i]@)
            &&& 0 <= i < body.entity_ids@.len() ==> fields.contains(body.entity_ids@[i]@)
            &&& fields.len() == 1 + (if body.goal is Some {
                1nat
            } else {
                0
            }) + body.plan@.len() + body.observations@.len() + body.interpretations@.len()
                + body.beliefs@.len() + body.decisions@.len() + body.actions@.len() + (
            if body.outcome_summary is Some {
                1nat
            } else {
                0
            }) + body.topic_keys@.len() + body.entity_ids@.len()
        }),
{
    let fields = searchable_fields(body);
    let p0: Seq<Seq<char>> = seq![body.trigger@];
    let p1 = p0 + listed(optional_text(body.goal));
    let p2 = p1 + texts(body.plan@);
    let p3 = p2 + observed(body.observations@);
    let p4 = p3 + texts(body.interpretations@);
    let p5 = p4 + texts(body.beliefs@);
    let p6 = p5 + texts(body.decisions@);
    let p7 = p6 + texts(body.actions@);
    let p8 = p7 + listed(optional_text(body.outcome_summary));
    let p9 = p8 + texts(body.topic_keys@);
    assert(fields == p9 + texts(body.entity_ids@));
    assert(fields[0] == body.trigger@);
    if body.goal is Some {
        assert(fields[1] == listed(optional_text(body.goal))[0]);
    }
    if 0 <= i < body.plan@.len() {
        assert(fields[p1.len() + i] == texts(body.plan@)[i]);
    }
    if 0 <= i < body.observations@.len() {
        assert(fields[p2.len() + i] == observed(body.observations@)[i]);
    }
    if 0 <= i < body.interpretations@.len() {
        assert(fields[p3.len() + i] == texts(body.interpretations@)[i]);
    }
    if 0 <= i < body.beliefs@.len() {
        assert(fields[p4.len() + i] == texts(body.beliefs@)[i]);
    }
    if 0 <= i < body.decisions@.len() {
        assert(fields[p5.len() + i] == texts(body.decisions@)[i]);
    }
    if 0 <= i < body.actions@.len() {
        assert(fields[p6.len() + i] == texts(body.actions@)[i]);
    }
    if body.outcome_summary is Some {
        assert(fields[p7.len() as int] == listed(optional_text(body.outcome_summary))[0]);
    }
    if 0 <= i < body.topic_keys@.len() {
        assert(fields[p8.len() + i] == texts(body.topic_keys@)[i]);
    }
    if 0 <= i < body.entity_ids@.len() {
        assert(fields[p9.len() + i] == texts(body.entity_ids@)[i]);
    }
}

/// Every field stands on a line of its own: a field more is a line break and the field.
pub proof fn law_fields_stand_on_their_own_lines(fields: Seq<Seq<char>>, field: Seq<char>)
    ensures
        lines(seq![field]) == field,
        fields.len() > 0 ==> lines(fields.push(field)) == lines(fields) + "\n"@ + field,
{
    assert(fields.push(field).drop_last() =~= fields);
}

/// A typed atom has a record exactly where the memory core accepts it and its topics and entities
/// can be written as JSON.
pub proof fn law_accepted_atom_has_a_record(atom: CoreAtom)
    ensures
        record_fault(atom) is None <==> {
            &&& atom.authority.rejection is None
            &&& json_array(texts(atom.body.topic_keys@)) is Ok
            &&& json_array(texts(atom.body.entity_ids@)) is Ok
        },
{
}

/// The record of an atom says what its body says: kind, scope, time, permission and provenance.
pub proof fn law_record_says_what_its_body_says(
    record: AtomRecord,
    atom: CoreAtom,
    state: AtomState,
)
    requires
        is_record_of(record, atom, state),
    ensures
        record.atom_kind@ == (match atom.body.payload {
            crate::model::Payload::Episode(_) => "episode"@,
            crate::model::Payload::Semantic(_) => "semantic"@,
        }),
        record.memory_space_id@ == atom.body.scope.memory_space_id@,
        optional_text(record.repository_id) == optional_text(atom.body.scope.repository_id),
        optional_text(record.task_id) == optional_text(atom.body.scope.task_id),
        optional_text(record.agent_id) == optional_text(atom.body.scope.agent_id),
        optional_text(record.session_id) == Some(atom.body.scope.session_id@),
        record.recorded_at_us == atom.body.interval.recorded_at_us,
        record.canonical_body@ == atom.authority.canonical_body@,
        record.json_projection@ == atom.authority.json_projection@,
        record.provenance_producer@ == atom.body.provenance.producer@,
        record.provenance_policy_digest@ == atom.body.provenance.policy_digest@,
        record.provenance_source_digests@ == atom.body.provenance.source_event_digests@,
        record.canonical_provenance@ == atom.authority.canonical_provenance@,
        record.provenance_json_projection@ == atom.authority.provenance_json_projection@,
        record.searchable_text@ == lines(searchable_fields(atom.body)),
        optional_text(record.outcome_class) == optional_text(atom.body.outcome_class),
        permission_named(record.retention_permission@) == Some(atom.body.retention_permission),
        record.atom_id@ == atom.authority.atom_id@,
        record.body_digest@ == atom.authority.atom_id@,
        record.provenance_digest@ == domain_digest(
            utf8("naome-memory:provenance:v1\0"@),
            atom.authority.canonical_provenance@,
        ),
        json_array(texts(atom.body.topic_keys@)) == Ok::<Seq<char>, Seq<char>>(
            record.topic_keys_json@,
        ),
        json_array(texts(atom.body.entity_ids@)) == Ok::<Seq<char>, Seq<char>>(
            record.entity_ids_json@,
        ),
        tier_named(record.retention_tier@) == Some(state.retention_tier),
        status_named(record.content_status@) == Some(state.content_status),
        record.expires_at_us == state.expires_at_us,
{
    crate::model::law_permission_names_round_trip(
        atom.body.retention_permission,
        record.retention_permission@,
    );
    crate::model::law_tier_names_round_trip(state.retention_tier, record.retention_tier@);
    crate::model::law_status_names_round_trip(state.content_status, record.content_status@);
}

} // verus!
