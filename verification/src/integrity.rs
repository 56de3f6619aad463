//! The integrity scan: every stored atom is closed over its header, body, state, search
//! projection, full-text row, links, relations and pins.

use vstd::prelude::*;
use vstd::string::*;

use crate::artifact::{ArtifactStore, ObservedPath, joined_path, metadata_fault, path_fault};
use crate::bags::{byte_strings, same_bag};
use crate::body::{blank, body_fault, is_blank, validate_typed_body_structure};
use crate::bytemap::{ByteSet, lemma_precedes_asymmetric, precedes};
use crate::closure::{
    declared_link_keys, declared_links, declared_relation_keys, declared_relations,
    expected_artifact_pins, expected_pins, expected_pins_fault, is_exact_tier, kept_links,
    link_keys, pins_are_closed, pins_closed, relation_keys, stored_link_keys,
    stored_relation_keys,
};
use crate::digest::{sha256, sha256_of};
use crate::edges::{
    ArtifactLinkAuthority, ArtifactLinks, ArtifactPins, FtsRows, FtsView, LinkView, PinAuthority,
    PinView, Relations, RetirementDecisions, RetirementRuns, fts_views, group_of, link_list,
    link_views, pin_list, pin_views, relation_views, run_views,
};
use crate::error::{Fault, StoreError, either_fault, fault_of, fault_when, integrity};
use crate::folding::{
    first_fault, folded, lemma_first_fault_step, lemma_first_fault_stops, lemma_folded_step,
    lemma_folded_stops,
};
use crate::framing::utf8;
use crate::hexadecimal::bytes_hex;
use crate::json::{json_array, texts};
use crate::lifecycle::{state_fault, validate_complete_mutable_state};
use crate::messages::{about, integrity_about, integrity_fault, text_about};
use crate::model::{
    AtomState, ContentStatus, CoreAtom, MemoryAtomBody, Policy, RetentionTier, StateView,
    content_status_from_store, kind_name, permission_name, retention_tier_from_store, status_fault,
    status_name, status_named, tier_fault, tier_name, tier_named,
};
use crate::records::{
    AtomRecord, domain_digest, is_record_of, lines, projection_transcript, provenance_domain,
    record_fault, searchable_fields, sha256_projection,
};
use crate::stored::{
    digest_array, digest_fault, digest_seq, optional_digest, optional_digest_array,
    optional_digest_fault, optional_unsigned, optional_unsigned_fault, optional_unsigned_integer,
    same_digest, same_digests, same_optional_digest, unsigned_fault, unsigned_integer,
};
use crate::tables::{
    ArtifactAuthority, Artifacts, Headers, ProvenanceAuthority, Provenances, artifact_views,
    header_views, provenance_views,
};
use crate::text::{
    holds_text, optional_bytes, optional_text, same_bytes, same_optional_text, same_text, text2,
    text3,
};

verus! {

/// The rows of one atom, joined over all tables that hold one row for it. Columns of tables that
/// may lack the row are optional.
#[derive(Clone, Debug)]
pub struct StoredIntegrityAtom {
    pub atom_id: Vec<u8>,
    pub atom_kind: String,
    pub memory_space_id: String,
    pub repository_id: Option<String>,
    pub task_id: Option<String>,
    pub agent_id: Option<String>,
    pub session_id: Option<String>,
    pub recorded_at_us: i64,
    pub body_digest: Vec<u8>,
    pub body_bytes: i64,
    pub retention_permission: String,
    pub provenance_digest: Vec<u8>,
    pub canonical_body: Option<Vec<u8>>,
    pub json_projection: Option<String>,
    pub retention_tier: Option<String>,
    pub content_status: Option<String>,
    pub expires_at_us: Option<i64>,
    pub superseded_by: Option<Vec<u8>>,
    pub feedback_positive: Option<i64>,
    pub feedback_negative: Option<i64>,
    pub retrieval_count: Option<i64>,
    pub retirement_run_id: Option<Vec<u8>>,
    pub observed_feedback_positive: i64,
    pub observed_feedback_negative: i64,
    pub search_atom_id: Option<Vec<u8>>,
    pub search_memory_space_id: Option<String>,
    pub search_repository_id: Option<String>,
    pub searchable_text: Option<String>,
    pub topic_keys_json: Option<String>,
    pub entity_ids_json: Option<String>,
    pub outcome_class: Option<String>,
    pub projection_digest: Option<Vec<u8>>,
}

/// The authority tables of the store, without the full-text index.
pub struct Authorities {
    pub headers: Headers,
    pub artifacts: Artifacts,
    pub artifact_refs: ArtifactLinks,
    pub artifact_provenance: ArtifactLinks,
    pub provenance: Provenances,
    pub relations: Relations,
    pub artifact_pins: ArtifactPins,
    pub retirement_runs: RetirementRuns,
    pub retirement_decisions: RetirementDecisions,
}

/// The fault of a live artifact reference: the artifact is unknown or was not verified.
pub open spec fn live_link_fault(link: LinkView, artifacts: Artifacts) -> Option<Fault> {
    let known = artifact_views(artifacts);
    if !known.contains_key(link.digest) {
        Some(
            integrity_fault(
                "live artifact reference "@,
                link.digest,
                " has no metadata authority"@,
            ),
        )
    } else {
        fault_when(
            known[link.digest].integrity_status != "verified"@,
            integrity_fault("live artifact reference "@, link.digest, " is not verified"@),
        )
    }
}

/// The fault of the first live reference, in the order of atoms and of links, that is not to a
/// verified artifact.
pub open spec fn live_links_fault(links: ArtifactLinks, artifacts: Artifacts) -> Option<Fault> {
    first_fault(
        links.keys(),
        |key: Seq<u8>|
            first_fault(
                link_views(links)[key],
                |link: LinkView| live_link_fault(link, artifacts),
            ),
    )
}

#[verifier::loop_isolation(false)]
fn check_live_links(links: &Vec<ArtifactLinkAuthority>, artifacts: &Artifacts) -> (verdict: Result<
    (),
    StoreError,
>)
    ensures
        fault_of(verdict) == first_fault(
            link_list(links@),
            |link: LinkView| live_link_fault(link, *artifacts),
        ),
{
    let ghost all = link_list(links@);
    let ghost fault = |link: LinkView| live_link_fault(link, *artifacts);
    let mut i: usize = 0;
    while i < links.len()
        invariant
            i <= links@.len(),
            first_fault(all.subrange(0, i as int), fault) is None,
        decreases links@.len() - i,
    {
        proof {
            lemma_first_fault_step(all, fault, i as int);
        }
        let digest = &links[i].digest.0;
        let broken: Option<StoreError> = match artifacts.get(digest.as_slice()) {
            None => Some(
                integrity_about("live artifact reference ", digest, " has no metadata authority"),
            ),
            Some(artifact) => if same_text(artifact.integrity_status.as_str(), "verified") {
                None
            } else {
                Some(integrity_about("live artifact reference ", digest, " is not verified"))
            },
        };
        if let Some(error) = broken {
            proof {
                lemma_first_fault_stops(all, fault, i + 1);
            }
            return Err(error);
        }
        i += 1;
    }
    assert(all.subrange(0, i as int) =~= all);
    Ok(())
}

/// Checks that every live artifact reference is to a verified artifact.
#[verifier::loop_isolation(false)]
pub fn validate_live_artifact_authorities(links: &ArtifactLinks, artifacts: &Artifacts) -> (verdict:
    Result<(), StoreError>)
    ensures
        fault_of(verdict) == live_links_fault(*links, *artifacts),
{
    let ghost fault = |key: Seq<u8>|
        first_fault(
            link_views(*links)[key],
            |link: LinkView| live_link_fault(link, *artifacts),
        );
    let ghost keys = links.keys();
    let count: usize = links.len();
    let mut i: usize = 0;
    while i < count
        invariant
            i <= count == keys.len(),
            first_fault(keys.subrange(0, i as int), fault) is None,
        decreases count - i,
    {
        proof {
            lemma_first_fault_step(keys, fault, i as int);
        }
        let (key, list) = links.entry_at(i);
        match check_live_links(list, artifacts) {
            Ok(()) => {},
            Err(error) => {
                proof {
                    lemma_first_fault_stops(keys, fault, i + 1);
                }
                return Err(error);
            },
        }
        i += 1;
    }
    assert(keys.subrange(0, i as int) =~= keys);
    Ok(())
}

/// The fault of a pin of an atom in a memory space.
pub open spec fn pin_fault(
    pin: PinView,
    memory_space_id: Seq<char>,
    artifacts: Artifacts,
    runs: RetirementRuns,
) -> Option<Fault> {
    let known = artifact_views(artifacts);
    let retired = run_views(runs);
    if !known.contains_key(pin.digest) {
        Some(integrity_fault("artifact pin "@, pin.digest, " has no metadata authority"@))
    } else if !retired.contains_key(pin.run_id) {
        Some(integrity_fault("artifact pin references missing run "@, pin.run_id, ""@))
    } else {
        fault_when(
            known[pin.digest].integrity_status != "verified"@ || retired[pin.run_id].status
                != "applied"@ || retired[pin.run_id].memory_space_id != memory_space_id,
            integrity_fault(
                "artifact pin "@,
                pin.digest,
                " failed run, scope, or integrity closure"@,
            ),
        )
    }
}

/// The fault of the pins of an atom.
pub open spec fn atom_pins_fault(
    atom_id: Seq<u8>,
    pins: ArtifactPins,
    artifacts: Artifacts,
    headers: Headers,
    runs: RetirementRuns,
) -> Option<Fault> {
    let known = header_views(headers);
    if !known.contains_key(atom_id) {
        Some(integrity_fault("artifact pin references missing atom "@, atom_id, ""@))
    } else {
        first_fault(
            pin_views(pins)[atom_id],
            |pin: PinView| pin_fault(pin, known[atom_id].memory_space_id, artifacts, runs),
        )
    }
}

/// The fault of the first pin, in the order of atoms and of pins, that is not closed.
pub open spec fn pins_fault(
    pins: ArtifactPins,
    artifacts: Artifacts,
    headers: Headers,
    runs: RetirementRuns,
) -> Option<Fault> {
    first_fault(
        pins.keys(),
        |key: Seq<u8>| atom_pins_fault(key, pins, artifacts, headers, runs),
    )
}

#[verifier::loop_isolation(false)]
fn check_pins(
    pins: &Vec<PinAuthority>,
    memory_space_id: &str,
    artifacts: &Artifacts,
    runs: &RetirementRuns,
) -> (verdict: Result<(), StoreError>)
    ensures
        fault_of(verdict) == first_fault(
            pin_list(pins@),
            |pin: PinView| pin_fault(pin, memory_space_id@, *artifacts, *runs),
        ),
{
    let ghost all = pin_list(pins@);
    let ghost fault = |pin: PinView| pin_fault(pin, memory_space_id@, *artifacts, *runs);
    let mut i: usize = 0;
    while i < pins.len()
        invariant
            i <= pins@.len(),
            first_fault(all.subrange(0, i as int), fault) is None,
        decreases pins@.len() - i,
    {
        proof {
            lemma_first_fault_step(all, fault, i as int);
        }
        let digest = &pins[i].digest.0;
        let run_id = &pins[i].run_id;
        let broken: Option<StoreError> = match artifacts.get(digest.as_slice()) {
            None => Some(integrity_about("artifact pin ", digest, " has no metadata authority")),
            Some(artifact) => match runs.get(run_id.as_slice()) {
                None => Some(integrity_about("artifact pin references missing run ", run_id, "")),
                Some(run) => if !same_text(artifact.integrity_status.as_str(), "verified")
                    || !same_text(run.status.as_str(), "applied") || !same_text(
                    run.memory_space_id.as_str(),
                    memory_space_id,
                ) {
                    Some(
                        integrity_about(
                            "artifact pin ",
                            digest,
                            " failed run, scope, or integrity closure",
                        ),
                    )
                } else {
                    None
                },
            },
        };
        if let Some(error) = broken {
            proof {
                lemma_first_fault_stops(all, fault, i + 1);
            }
            return Err(error);
        }
        i += 1;
    }
    assert(all.subrange(0, i as int) =~= all);
    Ok(())
}

/// Checks that every pin belongs to a stored atom, a verified artifact and an applied run of the
/// atom's memory space.
#[verifier::loop_isolation(false)]
pub fn validate_artifact_pin_authorities(
    pins: &ArtifactPins,
    artifacts: &Artifacts,
    headers: &Headers,
    runs: &RetirementRuns,
) -> (verdict: Result<(), StoreError>)
    ensures
        fault_of(verdict) == pins_fault(*pins, *artifacts, *headers, *runs),
{
    let ghost fault = |key: Seq<u8>| atom_pins_fault(key, *pins, *artifacts, *headers, *runs);
    let ghost keys = pins.keys();
    let count: usize = pins.len();
    let mut i: usize = 0;
    while i < count
        invariant
            i <= count == keys.len(),
            first_fault(keys.subrange(0, i as int), fault) is None,
        decreases count - i,
    {
        proof {
            lemma_first_fault_step(keys, fault, i as int);
        }
        let (key, list) = pins.entry_at(i);
        let verdict = match headers.get(key.as_slice()) {
            None => {
                let hex = bytes_hex(key.as_slice());
                Err(
                    StoreError::Integrity(
                        text3("artifact pin references missing atom ", hex.as_str(), ""),
                    ),
                )
            },
            Some(header) => check_pins(list, header.memory_space_id.as_str(), artifacts, runs),
        };
        match verdict {
            Ok(()) => {},
            Err(error) => {
                proof {
                    lemma_first_fault_stops(keys, fault, i + 1);
                }
                return Err(error);
            },
        }
        i += 1;
    }
    assert(keys.subrange(0, i as int) =~= keys);
    Ok(())
}

// ---------------------------------------------------------------------------------------------
// One stored atom

/// Whether the header columns of an atom agree with the header and provenance tables and the
/// limits of the policy.
pub open spec fn header_agrees(
    stored: StoredIntegrityAtom,
    authorities: Authorities,
    policy: Policy,
) -> bool {
    let header = header_views(authorities.headers)[stored.atom_id@];
    let provenance = provenance_views(authorities.provenance)[stored.atom_id@];
    &&& stored.body_digest@ == stored.atom_id@
    &&& header.body_digest == stored.atom_id@
    &&& stored.atom_kind@ == header.atom_kind
    &&& stored.memory_space_id@ == header.memory_space_id
    &&& 0 < stored.body_bytes <= policy.atom_hard_max_bytes
    &&& stored.memory_space_id@.len() != 0
    &&& provenance.provenance_digest == stored.provenance_digest@
    &&& provenance.policy_digest == policy.digest@
    &&& provenance.producer.len() != 0
    &&& stored.session_id is Some && !is_blank(stored.session_id)
    &&& !is_blank(stored.repository_id)
    &&& !is_blank(stored.task_id)
    &&& !is_blank(stored.agent_id)
}

/// The fault of the header columns of an atom.
pub open spec fn stored_header_fault(
    stored: StoredIntegrityAtom,
    authorities: Authorities,
    policy: Policy,
) -> Option<Fault> {
    let atom_id = stored.atom_id@;
    either_fault(
        digest_fault(atom_id, "integrity atom_id"@),
        if !header_views(authorities.headers).contains_key(atom_id) {
            Some(
                integrity_fault("atom "@, atom_id, " is absent from the header authority index"@),
            )
        } else {
            either_fault(
                digest_fault(stored.body_digest@, "integrity body_digest"@),
                either_fault(
                    digest_fault(stored.provenance_digest@, "provenance_digest"@),
                    if !provenance_views(authorities.provenance).contains_key(atom_id) {
                        Some(
                            integrity_fault(
                                "atom "@,
                                atom_id,
                                " is missing immutable provenance authority"@,
                            ),
                        )
                    } else {
                        either_fault(
                            unsigned_fault(stored.body_bytes, "body_bytes"@),
                            either_fault(
                                unsigned_fault(stored.recorded_at_us, "recorded_at_us"@),
                                fault_when(
                                    !header_agrees(stored, authorities, policy),
                                    integrity_fault(
                                        "atom "@,
                                        atom_id,
                                        " failed immutable header or scope authority"@,
                                    ),
                                ),
                            ),
                        )
                    },
                ),
            )
        },
    )
}

fn check_stored_header(
    stored: &StoredIntegrityAtom,
    authorities: &Authorities,
    policy: &Policy,
) -> (verdict: Result<[u8; 32], StoreError>)
    ensures
        fault_of(verdict) == stored_header_fault(*stored, *authorities, *policy),
        verdict matches Ok(atom_id) ==> atom_id@ == stored.atom_id@,
{
    let atom_id = digest_array(stored.atom_id.as_slice(), "integrity atom_id")?;
    let header = match authorities.headers.get(atom_id.as_slice()) {
        Some(header) => header,
        None => return Err(
            integrity_about("atom ", &atom_id, " is absent from the header authority index"),
        ),
    };
    let body_digest = digest_array(stored.body_digest.as_slice(), "integrity body_digest")?;
    let provenance_digest = digest_array(
        stored.provenance_digest.as_slice(),
        "provenance_digest",
    )?;
    let provenance = match authorities.provenance.get(atom_id.as_slice()) {
        Some(provenance) => provenance,
        None => return Err(
            integrity_about("atom ", &atom_id, " is missing immutable provenance authority"),
        ),
    };
    let body_bytes: u64 = unsigned_integer(stored.body_bytes, "body_bytes")?;
    let recorded_at_us: u64 = unsigned_integer(stored.recorded_at_us, "recorded_at_us")?;
    if !same_digest(&body_digest, &atom_id) || !same_digest(&header.body_digest, &atom_id)
        || !same_text(stored.atom_kind.as_str(), header.atom_kind.as_str()) || !same_text(
        stored.memory_space_id.as_str(),
        header.memory_space_id.as_str(),
    ) || body_bytes == 0 || body_bytes > policy.atom_hard_max_bytes
        || stored.memory_space_id.as_str().is_empty() || !same_digest(
        &provenance.provenance_digest,
        &provenance_digest,
    ) || !same_digest(&provenance.policy_digest, &policy.digest)
        || provenance.producer.as_str().is_empty() || stored.session_id.is_none() || blank(
        &stored.session_id,
    ) || blank(&stored.repository_id) || blank(&stored.task_id) || blank(&stored.agent_id) {
        return Err(
            integrity_about("atom ", &atom_id, " failed immutable header or scope authority"),
        );
    }
    Ok(atom_id)
}

/// The fault of an atom that has no state row.
pub open spec fn stateless(atom_id: Seq<u8>) -> Fault {
    integrity_fault("atom "@, atom_id, " is missing mutable state"@)
}

/// The fault of a counter column.
pub open spec fn counter_fault(value: Option<i64>, atom_id: Seq<u8>, field: Seq<char>) -> Option<
    Fault,
> {
    match value {
        Some(value) => unsigned_fault(value, field),
        None => Some(stateless(atom_id)),
    }
}

/// The fault of the state columns of an atom.
pub open spec fn stored_state_fault(stored: StoredIntegrityAtom) -> Option<Fault> {
    let atom_id = stored.atom_id@;
    if stored.retention_tier is None || stored.content_status is None {
        Some(stateless(atom_id))
    } else {
        either_fault(
            tier_fault(stored.retention_tier->0@),
            either_fault(
                status_fault(stored.content_status->0@),
                either_fault(
                    counter_fault(stored.feedback_positive, atom_id, "feedback_positive"@),
                    either_fault(
                        counter_fault(stored.feedback_negative, atom_id, "feedback_negative"@),
                        either_fault(
                            counter_fault(stored.retrieval_count, atom_id, "retrieval_count"@),
                            either_fault(
                                optional_unsigned_fault(stored.expires_at_us, "expires_at_us"@),
                                either_fault(
                                    optional_digest_fault(
                                        optional_bytes(stored.superseded_by),
                                        "superseded_by"@,
                                    ),
                                    optional_digest_fault(
                                        optional_bytes(stored.retirement_run_id),
                                        "retirement_run_id"@,
                                    ),
                                ),
                            ),
                        ),
                    ),
                ),
            ),
        )
    }
}

/// The state that the state columns of an atom hold.
pub open spec fn stored_state(stored: StoredIntegrityAtom) -> StateView {
    StateView {
        retention_tier: tier_named(stored.retention_tier->0@)->0,
        content_status: status_named(stored.content_status->0@)->0,
        expires_at_us: optional_unsigned(stored.expires_at_us),
        superseded_by: optional_bytes(stored.superseded_by),
        feedback_positive: stored.feedback_positive->0 as u64,
        feedback_negative: stored.feedback_negative->0 as u64,
        retrieval_count: stored.retrieval_count->0 as u64,
        retirement_run_id: optional_bytes(stored.retirement_run_id),
    }
}

fn read_counter(value: Option<i64>, atom_id: &[u8; 32], field: &'static str) -> (counter: Result<
    u64,
    StoreError,
>)
    ensures
        fault_of(counter) == counter_fault(value, atom_id@, field@),
        counter matches Ok(counter) ==> counter == value->0,
{
    match value {
        Some(value) => unsigned_integer(value, field),
        None => Err(integrity_about("atom ", atom_id, " is missing mutable state")),
    }
}

fn read_stored_state(stored: &StoredIntegrityAtom, atom_id: &[u8; 32]) -> (state: Result<
    AtomState,
    StoreError,
>)
    requires
        atom_id@ == stored.atom_id@,
    ensures
        fault_of(state) == stored_state_fault(*stored),
        state matches Ok(state) ==> state@ == stored_state(*stored),
{
    let tier_text = match &stored.retention_tier {
        Some(text) => text,
        None => return Err(integrity_about("atom ", atom_id, " is missing mutable state")),
    };
    let status_text = match &stored.content_status {
        Some(text) => text,
        None => return Err(integrity_about("atom ", atom_id, " is missing mutable state")),
    };
    let retention_tier = retention_tier_from_store(tier_text.as_str())?;
    let content_status = content_status_from_store(status_text.as_str())?;
    let feedback_positive: u64 = read_counter(
        stored.feedback_positive,
        atom_id,
        "feedback_positive",
    )?;
    let feedback_negative: u64 = read_counter(
        stored.feedback_negative,
        atom_id,
        "feedback_negative",
    )?;
    let retrieval_count: u64 = read_counter(stored.retrieval_count, atom_id, "retrieval_count")?;
    let expires_at_us = optional_unsigned_integer(stored.expires_at_us, "expires_at_us")?;
    let superseded_by = optional_digest_array(&stored.superseded_by, "superseded_by")?;
    let retirement_run_id = optional_digest_array(&stored.retirement_run_id, "retirement_run_id")?;
    Ok(
        AtomState {
            retention_tier,
            content_status,
            expires_at_us,
            superseded_by,
            feedback_positive,
            feedback_negative,
            retrieval_count,
            retirement_run_id,
        },
    )
}

/// The fault of feedback counters that are not the numbers of feedback rows.
pub open spec fn feedback_fault(stored: StoredIntegrityAtom) -> Option<Fault> {
    either_fault(
        unsigned_fault(stored.observed_feedback_positive, "observed feedback_positive"@),
        either_fault(
            unsigned_fault(stored.observed_feedback_negative, "observed feedback_negative"@),
            fault_when(
                stored.feedback_positive->0 != stored.observed_feedback_positive
                    || stored.feedback_negative->0 != stored.observed_feedback_negative,
                integrity_fault(
                    "atom "@,
                    stored.atom_id@,
                    " feedback counters do not close over feedback authority rows"@,
                ),
            ),
        ),
    )
}

fn check_feedback(stored: &StoredIntegrityAtom, atom_id: &[u8; 32], state: &AtomState) -> (verdict:
    Result<(), StoreError>)
    requires
        atom_id@ == stored.atom_id@,
        stored_state_fault(*stored) is None,
        state@ == stored_state(*stored),
    ensures
        fault_of(verdict) == feedback_fault(*stored),
{
    let positive: u64 = unsigned_integer(
        stored.observed_feedback_positive,
        "observed feedback_positive",
    )?;
    let negative: u64 = unsigned_integer(
        stored.observed_feedback_negative,
        "observed feedback_negative",
    )?;
    assert(state.feedback_positive == state@.feedback_positive);
    assert(state.feedback_negative == state@.feedback_negative);
    if state.feedback_positive != positive || state.feedback_negative != negative {
        return Err(
            integrity_about(
                "atom ",
                atom_id,
                " feedback counters do not close over feedback authority rows",
            ),
        );
    }
    Ok(())
}

/// Whether a forgotten atom has kept nothing but its header.
pub open spec fn is_forgotten(
    stored: StoredIntegrityAtom,
    authorities: Authorities,
    fts: Map<Seq<u8>, FtsView>,
) -> bool {
    let atom_id = stored.atom_id@;
    &&& stored_state(stored).retention_tier == RetentionTier::HeaderOnly
    &&& stored.canonical_body is None
    &&& stored.json_projection is None
    &&& stored.search_atom_id is None
    &&& stored.search_memory_space_id is None
    &&& stored.searchable_text is None
    &&& stored.topic_keys_json is None
    &&& stored.entity_ids_json is None
    &&& stored.projection_digest is None
    &&& group_of(link_views(authorities.artifact_refs), atom_id).len() == 0
    &&& group_of(pin_views(authorities.artifact_pins), atom_id).len() == 0
    &&& !fts.contains_key(atom_id)
}

/// Whether the columns of a present atom are those of the record of its typed body and state.
pub open spec fn columns_agree(
    stored: StoredIntegrityAtom,
    atom: CoreAtom,
    authorities: Authorities,
) -> bool {
    let body = atom.body;
    let authority = atom.authority;
    let provenance = provenance_views(authorities.provenance)[stored.atom_id@];
    let topics = json_array(texts(body.topic_keys@))->Ok_0;
    let entities = json_array(texts(body.entity_ids@))->Ok_0;
    let searchable = lines(searchable_fields(body));
    &&& authority.atom_id@ == stored.atom_id@
    &&& kind_name(body.payload.kind()) == stored.atom_kind@
    &&& body.scope.memory_space_id@ == stored.memory_space_id@
    &&& optional_text(body.scope.repository_id) == optional_text(stored.repository_id)
    &&& optional_text(body.scope.task_id) == optional_text(stored.task_id)
    &&& optional_text(body.scope.agent_id) == optional_text(stored.agent_id)
    &&& Some(body.scope.session_id@) == optional_text(stored.session_id)
    &&& body.interval.recorded_at_us == stored.recorded_at_us
    &&& authority.atom_id@ == stored.body_digest@
    &&& stored.canonical_body->0@.len() == stored.body_bytes
    &&& permission_name(body.retention_permission) == stored.retention_permission@
    &&& domain_digest(provenance_domain(), authority.canonical_provenance@)
        == stored.provenance_digest@
    &&& body.provenance.producer@ == provenance.producer
    &&& body.provenance.policy_digest@ == provenance.policy_digest
    &&& authority.canonical_provenance@ == provenance.canonical_provenance
    &&& authority.provenance_json_projection@ == provenance.json_projection
    &&& digest_seq(body.provenance.source_event_digests@) == provenance.source_event_digests
    &&& authority.canonical_body@ == stored.canonical_body->0@
    &&& authority.json_projection@ == stored.json_projection->0@
    &&& tier_name(stored_state(stored).retention_tier) == stored.retention_tier->0@
    &&& status_name(stored_state(stored).content_status) == stored.content_status->0@
    &&& optional_bytes(stored.search_atom_id) == Some(stored.atom_id@)
    &&& optional_text(stored.search_memory_space_id) == Some(body.scope.memory_space_id@)
    &&& optional_text(stored.search_repository_id) == optional_text(body.scope.repository_id)
    &&& optional_text(stored.searchable_text) == Some(searchable)
    &&& optional_text(stored.topic_keys_json) == Some(topics)
    &&& optional_text(stored.entity_ids_json) == Some(entities)
    &&& optional_text(stored.outcome_class) == optional_text(body.outcome_class)
    &&& optional_bytes(stored.projection_digest) == Some(
        sha256_of(
            projection_transcript(searchable, topics, entities, optional_text(body.outcome_class)),
        ),
    )
}

/// Whether the full-text index holds exactly one row with the searchable text of an atom.
pub open spec fn fts_agrees(row: FtsView, searchable: Seq<char>) -> bool {
    row.row_count == 1 && !row.has_conflicting_text && row.searchable_text_digest == sha256_of(
        utf8(searchable),
    )
}

/// Whether the link tables hold exactly the links that a body declares: the provenance table all
/// of them, the live table those that an atom of the tier keeps.
pub open spec fn links_agree(
    atom_id: Seq<u8>,
    body: MemoryAtomBody,
    tier: RetentionTier,
    authorities: Authorities,
) -> bool {
    let declared = declared_links(body.artifacts@);
    &&& link_keys(kept_links(declared, is_exact_tier(tier))).to_multiset() == link_keys(
        group_of(link_views(authorities.artifact_refs), atom_id),
    ).to_multiset()
    &&& link_keys(kept_links(declared, false)).to_multiset() == link_keys(
        group_of(link_views(authorities.artifact_provenance), atom_id),
    ).to_multiset()
}

/// Whether the relation table holds exactly the relations that a body declares.
pub open spec fn relations_agree(
    atom_id: Seq<u8>,
    body: MemoryAtomBody,
    relations: Relations,
) -> bool {
    relation_keys(declared_relations(body.relations@)).to_multiset() == relation_keys(
        group_of(relation_views(relations), atom_id),
    ).to_multiset()
}

/// The fault of a present atom, given what its JSON projection reads as.
pub open spec fn present_fault(
    stored: StoredIntegrityAtom,
    parsed: Result<CoreAtom, String>,
    authorities: Authorities,
    fts: Map<Seq<u8>, FtsView>,
    policy: Policy,
) -> Option<Fault> {
    let atom_id = stored.atom_id@;
    let state = stored_state(stored);
    if stored.canonical_body is None {
        Some(integrity_fault("present atom "@, atom_id, " is missing its body"@))
    } else if stored.json_projection is None {
        Some(integrity_fault("present atom "@, atom_id, " is missing its JSON projection"@))
    } else {
        match parsed {
            Err(text) => Some(
                Fault::Integrity(
                    about("atom "@, atom_id, " has an invalid typed JSON projection: "@) + text@,
                ),
            ),
            Ok(atom) => either_fault(
                body_fault(atom, atom_id, authorities.headers, authorities.artifacts, policy),
                either_fault(
                    record_fault(atom),
                    either_fault(
                        optional_digest_fault(
                            optional_bytes(stored.search_atom_id),
                            "search projection atom_id"@,
                        ),
                        either_fault(
                            optional_digest_fault(
                                optional_bytes(stored.projection_digest),
                                "projection_digest"@,
                            ),
                            closure_fault(stored, atom, state, authorities, fts),
                        ),
                    ),
                ),
            ),
        }
    }
}

/// The fault of a present atom whose columns can be read and whose body is valid: something that
/// its record, its body or its state calls for is not what the tables hold.
pub open spec fn closure_fault(
    stored: StoredIntegrityAtom,
    atom: CoreAtom,
    state: StateView,
    authorities: Authorities,
    fts: Map<Seq<u8>, FtsView>,
) -> Option<Fault> {
    let atom_id = stored.atom_id@;
    if !columns_agree(stored, atom, authorities) {
        Some(
            integrity_fault(
                "atom "@,
                atom_id,
                " failed body, JSON, header, state, or search-projection closure"@,
            ),
        )
    } else if !fts.contains_key(atom_id) {
        Some(integrity_fault("atom "@, atom_id, " is missing its FTS row"@))
    } else if !fts_agrees(fts[atom_id], lines(searchable_fields(atom.body))) {
        Some(integrity_fault("atom "@, atom_id, " failed exact FTS closure"@))
    } else if !links_agree(atom_id, atom.body, state.retention_tier, authorities) {
        Some(integrity_fault("atom "@, atom_id, " failed declared artifact-link closure"@))
    } else if !relations_agree(atom_id, atom.body, authorities.relations) {
        Some(integrity_fault("atom "@, atom_id, " failed declared relation closure"@))
    } else {
        either_fault(
            expected_pins_fault(state.retention_tier, state.retirement_run_id),
            fault_when(
                !pins_closed(
                    group_of(pin_views(authorities.artifact_pins), atom_id),
                    expected_pins(
                        atom.body.artifacts@,
                        state.retention_tier,
                        state.retirement_run_id,
                    ),
                ),
                integrity_fault("atom "@, atom_id, " failed exact artifact-pin closure"@),
            ),
        )
    }
}

fn columns_are_closed(
    stored: &StoredIntegrityAtom,
    atom_id: &[u8; 32],
    state: &AtomState,
    expected: &AtomRecord,
    search_atom_id: &Option<[u8; 32]>,
    projection_digest: &Option<[u8; 32]>,
    provenance: &ProvenanceAuthority,
    Ghost(atom): Ghost<CoreAtom>,
    Ghost(authorities): Ghost<Authorities>,
) -> (agree: bool)
    requires
        atom_id@ == stored.atom_id@,
        stored_state_fault(*stored) is None,
        state@ == stored_state(*stored),
        stored.canonical_body is Some,
        stored.json_projection is Some,
        unsigned_fault(stored.body_bytes, "body_bytes"@) is None,
        unsigned_fault(stored.recorded_at_us, "recorded_at_us"@) is None,
        is_record_of(*expected, atom, *state),
        optional_digest(*search_atom_id) == optional_bytes(stored.search_atom_id),
        optional_digest(*projection_digest) == optional_bytes(stored.projection_digest),
        provenance_views(authorities.provenance)[stored.atom_id@] == provenance@,
    ensures
        agree == columns_agree(*stored, atom, authorities),
{
    let canonical_body = match &stored.canonical_body {
        Some(body) => body,
        None => return false,
    };
    let json_projection = match &stored.json_projection {
        Some(json) => json,
        None => return false,
    };
    let expected_projection = sha256_projection(expected);
    let ghost digests_before = digest_seq(expected.provenance_source_digests@);
    same_digest(&expected.atom_id, atom_id) && same_text(
        expected.atom_kind.as_str(),
        stored.atom_kind.as_str(),
    ) && same_text(expected.memory_space_id.as_str(), stored.memory_space_id.as_str())
        && same_optional_text(&expected.repository_id, &stored.repository_id)
        && same_optional_text(&expected.task_id, &stored.task_id) && same_optional_text(
        &expected.agent_id,
        &stored.agent_id,
    ) && same_optional_text(&expected.session_id, &stored.session_id) && expected.recorded_at_us
        == stored.recorded_at_us as u64 && same_bytes(
        expected.body_digest.as_slice(),
        stored.body_digest.as_slice(),
    ) && canonical_body.len() as u64 == stored.body_bytes as u64 && same_text(
        expected.retention_permission.as_str(),
        stored.retention_permission.as_str(),
    ) && same_bytes(expected.provenance_digest.as_slice(), stored.provenance_digest.as_slice())
        && same_text(expected.provenance_producer.as_str(), provenance.producer.as_str())
        && same_digest(&expected.provenance_policy_digest, &provenance.policy_digest)
        && same_bytes(
        expected.canonical_provenance.as_slice(),
        provenance.canonical_provenance.as_slice(),
    ) && same_text(
        expected.provenance_json_projection.as_str(),
        provenance.json_projection.as_str(),
    ) && same_digests(
        expected.provenance_source_digests.as_slice(),
        provenance.source_event_digests.as_slice(),
    ) && same_bytes(expected.canonical_body.as_slice(), canonical_body.as_slice()) && same_text(
        expected.json_projection.as_str(),
        json_projection.as_str(),
    ) && holds_text(&stored.retention_tier, expected.retention_tier.as_str()) && holds_text(
        &stored.content_status,
        expected.content_status.as_str(),
    ) && same_optional_digest(search_atom_id, &Some(*atom_id)) && holds_text(
        &stored.search_memory_space_id,
        expected.memory_space_id.as_str(),
    ) && same_optional_text(&stored.search_repository_id, &expected.repository_id) && holds_text(
        &stored.searchable_text,
        expected.searchable_text.as_str(),
    ) && holds_text(&stored.topic_keys_json, expected.topic_keys_json.as_str()) && holds_text(
        &stored.entity_ids_json,
        expected.entity_ids_json.as_str(),
    ) && same_optional_text(&stored.outcome_class, &expected.outcome_class)
        && same_optional_digest(projection_digest, &Some(expected_projection))
}

fn link_keys_of(links: &ArtifactLinks, atom_id: &[u8; 32]) -> (keys: Vec<Vec<u8>>)
    ensures
        byte_strings(keys@) == link_keys(group_of(link_views(*links), atom_id@)),
{
    match links.get(atom_id.as_slice()) {
        Some(list) => stored_link_keys(list.as_slice()),
        None => {
            let keys: Vec<Vec<u8>> = Vec::new();
            assert(byte_strings(keys@) =~= link_keys(group_of(link_views(*links), atom_id@)));
            keys
        },
    }
}

fn relation_keys_of(relations: &Relations, atom_id: &[u8; 32]) -> (keys: Vec<Vec<u8>>)
    ensures
        byte_strings(keys@) == relation_keys(group_of(relation_views(*relations), atom_id@)),
{
    match relations.get(atom_id.as_slice()) {
        Some(list) => stored_relation_keys(list.as_slice()),
        None => {
            let keys: Vec<Vec<u8>> = Vec::new();
            assert(byte_strings(keys@) =~= relation_keys(
                group_of(relation_views(*relations), atom_id@),
            ));
            keys
        },
    }
}

fn pins_of_are_closed(pins: &ArtifactPins, atom_id: &[u8; 32], expected: &ByteSet) -> (closed: bool)
    ensures
        closed == pins_closed(group_of(pin_views(*pins), atom_id@), expected@),
{
    match pins.get(atom_id.as_slice()) {
        Some(list) => pins_are_closed(list.as_slice(), expected),
        None => {
            let none: Vec<PinAuthority> = Vec::new();
            assert(pin_list(none@) =~= group_of(pin_views(*pins), atom_id@));
            pins_are_closed(none.as_slice(), expected)
        },
    }
}

fn has_no_live_state(authorities: &Authorities, fts: &FtsRows, atom_id: &[u8; 32]) -> (none: bool)
    ensures
        none == (group_of(link_views(authorities.artifact_refs), atom_id@).len() == 0 && group_of(
            pin_views(authorities.artifact_pins),
            atom_id@,
        ).len() == 0 && !fts_views(*fts).contains_key(atom_id@)),
{
    let no_links = match authorities.artifact_refs.get(atom_id.as_slice()) {
        Some(list) => list.len() == 0,
        None => true,
    };
    let no_pins = match authorities.artifact_pins.get(atom_id.as_slice()) {
        Some(list) => list.len() == 0,
        None => true,
    };
    no_links && no_pins && !fts.contains_key(atom_id.as_slice())
}

fn check_closure(
    stored: &StoredIntegrityAtom,
    atom_id: &[u8; 32],
    atom: &CoreAtom,
    state: &AtomState,
    authorities: &Authorities,
    fts: &FtsRows,
    expected: &AtomRecord,
    search_atom_id: &Option<[u8; 32]>,
    projection_digest: &Option<[u8; 32]>,
) -> (verdict: Result<(), StoreError>)
    requires
        atom_id@ == stored.atom_id@,
        stored_state_fault(*stored) is None,
        state@ == stored_state(*stored),
        stored.canonical_body is Some,
        stored.json_projection is Some,
        unsigned_fault(stored.body_bytes, "body_bytes"@) is None,
        unsigned_fault(stored.recorded_at_us, "recorded_at_us"@) is None,
        is_record_of(*expected, *atom, *state),
        optional_digest(*search_atom_id) == optional_bytes(stored.search_atom_id),
        optional_digest(*projection_digest) == optional_bytes(stored.projection_digest),
        provenance_views(authorities.provenance).contains_key(stored.atom_id@),
    ensures
        fault_of(verdict) == closure_fault(*stored, *atom, state@, *authorities, fts_views(*fts)),
{
    let provenance = authorities.provenance.get(atom_id.as_slice()).unwrap();
    if !columns_are_closed(
        stored,
        atom_id,
        state,
        expected,
        search_atom_id,
        projection_digest,
        provenance,
        Ghost(*atom),
        Ghost(*authorities),
    ) {
        return Err(
            integrity_about(
                "atom ",
                atom_id,
                " failed body, JSON, header, state, or search-projection closure",
            ),
        );
    }
    let row = match fts.get(atom_id.as_slice()) {
        Some(row) => row,
        None => return Err(integrity_about("atom ", atom_id, " is missing its FTS row")),
    };
    let text_digest = sha256(expected.searchable_text.as_str().as_bytes());
    if row.row_count != 1 || row.has_conflicting_text || !same_digest(
        &row.searchable_text_digest,
        &text_digest,
    ) {
        return Err(integrity_about("atom ", atom_id, " failed exact FTS closure"));
    }
    let exact = state.retention_tier == RetentionTier::EpisodicLongTerm || state.retention_tier
        == RetentionTier::DualLongTerm;
    let expected_live = declared_link_keys(&atom.body.artifacts, exact);
    let expected_provenance = declared_link_keys(&atom.body.artifacts, false);
    let observed_live = link_keys_of(&authorities.artifact_refs, atom_id);
    let observed_provenance = link_keys_of(&authorities.artifact_provenance, atom_id);
    if !same_bag(&expected_live, &observed_live) || !same_bag(
        &expected_provenance,
        &observed_provenance,
    ) {
        return Err(integrity_about("atom ", atom_id, " failed declared artifact-link closure"));
    }
    let expected_relations = declared_relation_keys(&atom.body.relations);
    let observed_relations = relation_keys_of(&authorities.relations, atom_id);
    if !same_bag(&expected_relations, &observed_relations) {
        return Err(integrity_about("atom ", atom_id, " failed declared relation closure"));
    }
    let expected_pins = expected_artifact_pins(
        &atom.body.artifacts,
        state.retention_tier,
        &state.retirement_run_id,
    )?;
    if !pins_of_are_closed(&authorities.artifact_pins, atom_id, &expected_pins) {
        return Err(integrity_about("atom ", atom_id, " failed exact artifact-pin closure"));
    }
    Ok(())
}

fn check_present(
    stored: &StoredIntegrityAtom,
    atom_id: &[u8; 32],
    parsed: &Result<CoreAtom, String>,
    state: &AtomState,
    authorities: &Authorities,
    fts: &FtsRows,
    policy: &Policy,
) -> (verdict: Result<(), StoreError>)
    requires
        atom_id@ == stored.atom_id@,
        stored_state_fault(*stored) is None,
        state@ == stored_state(*stored),
        unsigned_fault(stored.body_bytes, "body_bytes"@) is None,
        unsigned_fault(stored.recorded_at_us, "recorded_at_us"@) is None,
        provenance_views(authorities.provenance).contains_key(stored.atom_id@),
    ensures
        fault_of(verdict) == present_fault(*stored, *parsed, *authorities, fts_views(*fts), *policy),
{
    if stored.canonical_body.is_none() {
        return Err(integrity_about("present atom ", atom_id, " is missing its body"));
    }
    if stored.json_projection.is_none() {
        return Err(integrity_about("present atom ", atom_id, " is missing its JSON projection"));
    }
    let atom = match parsed {
        Ok(atom) => atom,
        Err(text) => {
            let start = text_about("atom ", atom_id, " has an invalid typed JSON projection: ");
            return Err(StoreError::Integrity(text2(start.as_str(), text.as_str())));
        },
    };
    validate_typed_body_structure(
        atom,
        atom_id,
        &authorities.headers,
        &authorities.artifacts,
        policy,
    )?;
    let expected = AtomRecord::from_core(atom, state)?;
    let search_atom_id = optional_digest_array(
        &stored.search_atom_id,
        "search projection atom_id",
    )?;
    let projection_digest = optional_digest_array(&stored.projection_digest, "projection_digest")?;
    check_closure(
        stored,
        atom_id,
        atom,
        state,
        authorities,
        fts,
        &expected,
        &search_atom_id,
        &projection_digest,
    )
}

/// The fault of a stored atom, given what its JSON projection reads as: its header columns, its
/// state, its feedback counters, and then the closure of a forgotten or of a present atom.
pub open spec fn stored_atom_fault(
    stored: StoredIntegrityAtom,
    parsed: Result<CoreAtom, String>,
    authorities: Authorities,
    fts: Map<Seq<u8>, FtsView>,
    policy: Policy,
) -> Option<Fault> {
    let state = stored_state(stored);
    either_fault(
        stored_header_fault(stored, authorities, policy),
        either_fault(
            stored_state_fault(stored),
            either_fault(
                state_fault(
                    stored.atom_id@,
                    stored.atom_kind@,
                    stored.memory_space_id@,
                    stored.recorded_at_us as u64,
                    state,
                    authorities.headers,
                    authorities.retirement_runs,
                    authorities.retirement_decisions,
                    policy.stm_horizon_us,
                ),
                either_fault(
                    feedback_fault(stored),
                    if state.content_status == ContentStatus::Forgotten {
                        fault_when(
                            !is_forgotten(stored, authorities, fts),
                            integrity_fault(
                                "forgotten atom "@,
                                stored.atom_id@,
                                " retains body, search, FTS, live artifact, or pin state"@,
                            ),
                        )
                    } else {
                        present_fault(stored, parsed, authorities, fts, policy)
                    },
                ),
            ),
        ),
    )
}

/// Checks one stored atom against all tables. `parsed` is what its JSON projection reads as; it
/// is looked at only where the atom is present and has a projection.
pub fn verify_stored_atom_closure(
    stored: &StoredIntegrityAtom,
    parsed: &Result<CoreAtom, String>,
    authorities: &Authorities,
    fts: &FtsRows,
    policy: &Policy,
) -> (verdict: Result<[u8; 32], StoreError>)
    ensures
        fault_of(verdict) == stored_atom_fault(
            *stored,
            *parsed,
            *authorities,
            fts_views(*fts),
            *policy,
        ),
        verdict matches Ok(atom_id) ==> atom_id@ == stored.atom_id@,
{
    let atom_id = check_stored_header(stored, authorities, policy)?;
    let state = read_stored_state(stored, &atom_id)?;
    validate_complete_mutable_state(
        &atom_id,
        stored.atom_kind.as_str(),
        stored.memory_space_id.as_str(),
        stored.recorded_at_us as u64,
        &state,
        &authorities.headers,
        &authorities.retirement_runs,
        &authorities.retirement_decisions,
        policy.stm_horizon_us,
    )?;
    check_feedback(stored, &atom_id, &state)?;
    assert(state.content_status == state@.content_status);
    assert(state.retention_tier == state@.retention_tier);
    if state.content_status == ContentStatus::Forgotten {
        if state.retention_tier != RetentionTier::HeaderOnly || stored.canonical_body.is_some()
            || stored.json_projection.is_some() || stored.search_atom_id.is_some()
            || stored.search_memory_space_id.is_some() || stored.searchable_text.is_some()
            || stored.topic_keys_json.is_some() || stored.entity_ids_json.is_some()
            || stored.projection_digest.is_some() || !has_no_live_state(authorities, fts, &atom_id) {
            return Err(
                integrity_about(
                    "forgotten atom ",
                    &atom_id,
                    " retains body, search, FTS, live artifact, or pin state",
                ),
            );
        }
        return Ok(atom_id);
    }
    check_present(stored, &atom_id, parsed, &state, authorities, fts, policy)?;
    Ok(atom_id)
}

// ---------------------------------------------------------------------------------------------
// The whole scan

/// A stored atom with what its JSON projection reads as.
#[derive(Debug)]
pub struct ScannedAtom {
    pub stored: StoredIntegrityAtom,
    pub parsed: Result<CoreAtom, String>,
}

/// Takes one atom of the scan. The full-text row of an atom is accounted for once.
pub open spec fn scan_step(
    fts: Map<Seq<u8>, FtsView>,
    row: ScannedAtom,
    authorities: Authorities,
    policy: Policy,
) -> Result<Map<Seq<u8>, FtsView>, Fault> {
    match stored_atom_fault(row.stored, row.parsed, authorities, fts, policy) {
        Some(fault) => Err(fault),
        None => Ok(fts.remove(row.stored.atom_id@)),
    }
}

/// The full-text rows that no atom of the scan accounts for, or the first fault of an atom.
pub open spec fn scanned(
    rows: Seq<ScannedAtom>,
    authorities: Authorities,
    fts: Map<Seq<u8>, FtsView>,
    policy: Policy,
) -> Result<Map<Seq<u8>, FtsView>, Fault> {
    folded(
        rows,
        fts,
        |left: Map<Seq<u8>, FtsView>, row: ScannedAtom|
            scan_step(left, row, authorities, policy),
    )
}

/// Whether `key` is the first of the keys of a map.
pub open spec fn is_first_key<V>(map: Map<Seq<u8>, V>, key: Seq<u8>) -> bool {
    map.contains_key(key) && forall|other: Seq<u8>|
        #[trigger] map.contains_key(other) && other != key ==> precedes(key, other)
}

/// The fault of what is left after a scan without faults.
pub open spec fn remainder_fault(
    count: nat,
    authorities: Authorities,
    left: Map<Seq<u8>, FtsView>,
) -> Option<Fault> {
    if count != authorities.headers.keys().len() {
        Some(Fault::Integrity("atom header scan did not close over every header"@))
    } else if authorities.provenance.keys().len() != authorities.headers.keys().len() {
        Some(Fault::Integrity("immutable provenance does not close over every atom header"@))
    } else {
        let first = choose|key: Seq<u8>| is_first_key(left, key);
        fault_when(
            exists|key: Seq<u8>| left.contains_key(key),
            integrity_fault("orphan or unaccounted FTS row remains for atom "@, first, ""@),
        )
    }
}

/// The fault of a scan over all atoms.
pub open spec fn scan_fault(
    rows: Seq<ScannedAtom>,
    authorities: Authorities,
    fts: Map<Seq<u8>, FtsView>,
    policy: Policy,
) -> Option<Fault> {
    either_fault(
        live_links_fault(authorities.artifact_refs, authorities.artifacts),
        either_fault(
            pins_fault(
                authorities.artifact_pins,
                authorities.artifacts,
                authorities.headers,
                authorities.retirement_runs,
            ),
            match scanned(rows, authorities, fts, policy) {
                Err(fault) => Some(fault),
                Ok(left) => remainder_fault(rows.len(), authorities, left),
            },
        ),
    )
}

#[verifier::loop_isolation(false)]
fn scan_atoms(
    rows: &Vec<ScannedAtom>,
    authorities: &Authorities,
    fts: FtsRows,
    policy: &Policy,
) -> (left: Result<FtsRows, StoreError>)
    ensures
        match left {
            Ok(left) => scanned(rows@, *authorities, fts_views(fts), *policy) == Ok::<
                Map<Seq<u8>, FtsView>,
                Fault,
            >(fts_views(left)),
            Err(error) => scanned(rows@, *authorities, fts_views(fts), *policy) == Err::<
                Map<Seq<u8>, FtsView>,
                Fault,
            >(error@),
        },
{
    let ghost start = fts_views(fts);
    let ghost step = |left: Map<Seq<u8>, FtsView>, row: ScannedAtom|
        scan_step(left, row, *authorities, *policy);
    let mut left = fts;
    let mut i: usize = 0;
    while i < rows.len()
        invariant
            i <= rows@.len(),
            folded(rows@.subrange(0, i as int), start, step) == Ok::<Map<Seq<u8>, FtsView>, Fault>(
                fts_views(left),
            ),
        decreases rows@.len() - i,
    {
        proof {
            lemma_folded_step(rows@, start, step, i as int);
        }
        let ghost before = fts_views(left);
        match verify_stored_atom_closure(
            &rows[i].stored,
            &rows[i].parsed,
            authorities,
            &left,
            policy,
        ) {
            Ok(atom_id) => {
                left.remove(atom_id.as_slice());
                assert(fts_views(left) =~= before.remove(atom_id@));
            },
            Err(error) => {
                proof {
                    lemma_folded_stops(rows@, start, step, i + 1);
                }
                return Err(error);
            },
        }
        i += 1;
    }
    assert(rows@.subrange(0, i as int) =~= rows@);
    Ok(left)
}

/// Checks every stored atom and that nothing is left over: no header without an atom, no
/// provenance without a header, no full-text row without an atom.
pub fn verify_all_atom_closure(
    rows: &Vec<ScannedAtom>,
    authorities: &Authorities,
    fts: FtsRows,
    policy: &Policy,
) -> (verdict: Result<(), StoreError>)
    ensures
        fault_of(verdict) == scan_fault(rows@, *authorities, fts_views(fts), *policy),
{
    validate_live_artifact_authorities(&authorities.artifact_refs, &authorities.artifacts)?;
    validate_artifact_pin_authorities(
        &authorities.artifact_pins,
        &authorities.artifacts,
        &authorities.headers,
        &authorities.retirement_runs,
    )?;
    let left = scan_atoms(rows, authorities, fts, policy)?;
    let header_count: usize = authorities.headers.len();
    if rows.len() != header_count {
        return Err(integrity("atom header scan did not close over every header"));
    }
    if authorities.provenance.len() != header_count {
        return Err(integrity("immutable provenance does not close over every atom header"));
    }
    let left_count: usize = left.len();
    if left_count != 0 {
        let (first, _) = left.entry_at(0);
        let hex = bytes_hex(first.as_slice());
        proof {
            let remaining = fts_views(left);
            let keys = left.keys();
            assert(remaining.contains_key(first@));
            assert forall|other: Seq<u8>| #[trigger]
                remaining.contains_key(other) && other != first@ implies precedes(
                first@,
                other,
            ) by {
                assert(keys.contains(other));
                let k = keys.index_of(other);
                assert(precedes(keys[0], keys[k]));
            }
            assert(is_first_key(remaining, first@));
            let chosen = choose|key: Seq<u8>| is_first_key(remaining, key);
            if chosen != first@ {
                lemma_precedes_asymmetric(chosen, first@);
            }
        }
        return Err(
            StoreError::Integrity(
                text3("orphan or unaccounted FTS row remains for atom ", hex.as_str(), ""),
            ),
        );
    }
    proof {
        let remaining = fts_views(left);
        assert forall|key: Seq<u8>| !remaining.contains_key(key) by {
            if remaining.contains_key(key) {
                assert(left.keys().contains(key));
            }
        }
    }
    Ok(())
}

/// Checks the file of an artifact whose metadata says that it is verified. Says whether there was
/// anything to check.
pub fn verify_artifact_authority(
    store: &ArtifactStore,
    authority: &ArtifactAuthority,
    observed: &ObservedPath,
) -> (checked: Result<bool, StoreError>)
    ensures
        fault_of(checked) == (if authority@.integrity_status == "verified"@ {
            either_fault(
                metadata_fault(authority@.record),
                path_fault(
                    joined_path(store@, authority@.record.relative_path),
                    authority@.record.digest,
                    authority@.record.byte_len,
                    *observed,
                ),
            )
        } else {
            None
        }),
        checked matches Ok(checked) ==> checked == (authority@.integrity_status == "verified"@),
{
    if !same_text(authority.integrity_status.as_str(), "verified") {
        return Ok(false);
    }
    store.verify(&authority.record, observed)?;
    Ok(true)
}

/// A scan without faults leaves no full-text row of a forgotten atom: whoever was forgotten is not
/// found again.
pub proof fn law_forgotten_atom_keeps_only_its_header(
    stored: StoredIntegrityAtom,
    parsed: Result<CoreAtom, String>,
    authorities: Authorities,
    fts: Map<Seq<u8>, FtsView>,
    policy: Policy,
)
    requires
        stored_atom_fault(stored, parsed, authorities, fts, policy) is None,
        stored_state(stored).content_status == ContentStatus::Forgotten,
    ensures
        is_forgotten(stored, authorities, fts),
        stored_state(stored).retirement_run_id is Some,
        stored_state(stored).expires_at_us is None,
{
}

/// An atom that passes the scan and is present has the identity of its body: its identifier is its
/// header's body digest and the identity that the memory core gives to the stored bytes.
pub proof fn law_present_atom_is_its_body(
    stored: StoredIntegrityAtom,
    atom: CoreAtom,
    authorities: Authorities,
    fts: Map<Seq<u8>, FtsView>,
    policy: Policy,
)
    requires
        stored_atom_fault(stored, Ok(atom), authorities, fts, policy) is None,
        stored_state(stored).content_status != ContentStatus::Forgotten,
    ensures
        stored.canonical_body is Some,
        atom.authority.atom_id@ == stored.atom_id@,
        atom.authority.canonical_body@ == stored.canonical_body->0@,
        header_views(authorities.headers)[stored.atom_id@].body_digest == stored.atom_id@,
        stored.canonical_body->0@.len() == stored.body_bytes,
        stored.body_bytes <= policy.atom_hard_max_bytes,
{
}

/// Live links are sound exactly where every artifact that one names is registered and verified.
pub proof fn law_live_links_name_verified_artifacts(links: ArtifactLinks, artifacts: Artifacts)
    ensures
        live_links_fault(links, artifacts) is None <==> forall|i: int, k: int|
            0 <= i < links.keys().len() && 0 <= k < link_views(links)[links.keys()[i]].len() ==> {
                let digest = (#[trigger] link_views(links)[links.keys()[i]][k]).digest;
                &&& artifact_views(artifacts).contains_key(digest)
                &&& artifact_views(artifacts)[digest].integrity_status == "verified"@
            },
{
    let keys = links.keys();
    let dead = |link: LinkView| live_link_fault(link, artifacts);
    let group_dead = |key: Seq<u8>| first_fault(link_views(links)[key], dead);
    assert(live_links_fault(links, artifacts) == first_fault(keys, group_dead)) by {
        let inner = |key: Seq<u8>|
            first_fault(
                link_views(links)[key],
                |link: LinkView| live_link_fault(link, artifacts),
            );
        assert(inner =~= group_dead);
    }
    crate::folding::lemma_no_first_fault(keys, group_dead);
    assert forall|i: int| 0 <= i < keys.len() implies (group_dead(#[trigger] keys[i]) is None
        <==> forall|k: int|
        0 <= k < link_views(links)[keys[i]].len() ==> dead(
            #[trigger] link_views(links)[keys[i]][k],
        ) is None) by {
        crate::folding::lemma_no_first_fault(link_views(links)[keys[i]], dead);
    }
    if live_links_fault(links, artifacts) is None {
        assert forall|i: int, k: int|
            0 <= i < keys.len() && 0 <= k < link_views(links)[keys[i]].len() implies ({
            let digest = (#[trigger] link_views(links)[keys[i]][k]).digest;
            &&& artifact_views(artifacts).contains_key(digest)
            &&& artifact_views(artifacts)[digest].integrity_status == "verified"@
        }) by {
            assert(group_dead(keys[i]) is None);
            assert(dead(link_views(links)[keys[i]][k]) is None);
        }
    }
    if forall|i: int, k: int|
        0 <= i < keys.len() && 0 <= k < link_views(links)[keys[i]].len() ==> {
            let digest = (#[trigger] link_views(links)[keys[i]][k]).digest;
            &&& artifact_views(artifacts).contains_key(digest)
            &&& artifact_views(artifacts)[digest].integrity_status == "verified"@
        } {
        assert forall|i: int| 0 <= i < keys.len() implies group_dead(#[trigger] keys[i]) is None by {
            assert forall|k: int| 0 <= k < link_views(links)[keys[i]].len() implies dead(
                #[trigger] link_views(links)[keys[i]][k],
            ) is None by {}
        }
    }
}

/// A pin is sound exactly where its artifact is registered and verified and its run was applied in
/// the memory space of its atom.
pub proof fn law_pin_is_of_an_applied_run(
    pin: PinView,
    memory_space_id: Seq<char>,
    artifacts: Artifacts,
    runs: RetirementRuns,
)
    ensures
        pin_fault(pin, memory_space_id, artifacts, runs) is None <==> {
            &&& artifact_views(artifacts).contains_key(pin.digest)
            &&& artifact_views(artifacts)[pin.digest].integrity_status == "verified"@
            &&& run_views(runs).contains_key(pin.run_id)
            &&& run_views(runs)[pin.run_id].status == "applied"@
            &&& run_views(runs)[pin.run_id].memory_space_id == memory_space_id
        },
{
}

/// Pins are sound exactly where every atom that has one has a header and each of its pins is sound.
pub proof fn law_pins_are_sound_one_by_one(
    pins: ArtifactPins,
    artifacts: Artifacts,
    headers: Headers,
    runs: RetirementRuns,
)
    ensures
        pins_fault(pins, artifacts, headers, runs) is None <==> forall|i: int|
            0 <= i < pins.keys().len() ==> {
                let atom_id = #[trigger] pins.keys()[i];
                &&& header_views(headers).contains_key(atom_id)
                &&& forall|k: int|
                    0 <= k < pin_views(pins)[atom_id].len() ==> pin_fault(
                        #[trigger] pin_views(pins)[atom_id][k],
                        header_views(headers)[atom_id].memory_space_id,
                        artifacts,
                        runs,
                    ) is None
            },
{
    let unsound = |key: Seq<u8>| atom_pins_fault(key, pins, artifacts, headers, runs);
    crate::folding::lemma_no_first_fault(pins.keys(), unsound);
    assert forall|atom_id: Seq<u8>| (#[trigger] unsound(atom_id) is None <==> header_views(
        headers,
    ).contains_key(atom_id) && forall|k: int|
        0 <= k < pin_views(pins)[atom_id].len() ==> pin_fault(
            #[trigger] pin_views(pins)[atom_id][k],
            header_views(headers)[atom_id].memory_space_id,
            artifacts,
            runs,
        ) is None) by {
        let space = header_views(headers)[atom_id].memory_space_id;
        let loose = |pin: PinView| pin_fault(pin, space, artifacts, runs);
        crate::folding::lemma_no_first_fault(pin_views(pins)[atom_id], loose);
        if first_fault(pin_views(pins)[atom_id], loose) is None {
            assert forall|k: int| 0 <= k < pin_views(pins)[atom_id].len() implies pin_fault(
                #[trigger] pin_views(pins)[atom_id][k],
                space,
                artifacts,
                runs,
            ) is None by {
                assert(loose(pin_views(pins)[atom_id][k]) is None);
            }
        }
    }
}

/// The header of an atom is accepted exactly where it is indexed, has a provenance, says what both
/// say, names its memory space and its session and leaves no optional name blank.
pub proof fn law_stored_header_is_accepted_exactly(
    stored: StoredIntegrityAtom,
    authorities: Authorities,
    policy: Policy,
)
    ensures
        stored_header_fault(stored, authorities, policy) is None <==> {
            let header = header_views(authorities.headers)[stored.atom_id@];
            let provenance = provenance_views(authorities.provenance)[stored.atom_id@];
            &&& header_views(authorities.headers).contains_key(stored.atom_id@)
            &&& provenance_views(authorities.provenance).contains_key(stored.atom_id@)
            &&& stored.atom_id@.len() == 32
            &&& stored.body_digest@ == stored.atom_id@
            &&& header.body_digest == stored.atom_id@
            &&& header.atom_kind == stored.atom_kind@
            &&& header.memory_space_id == stored.memory_space_id@
            &&& stored.memory_space_id@.len() > 0
            &&& 0 < stored.body_bytes <= policy.atom_hard_max_bytes
            &&& stored.recorded_at_us >= 0
            &&& stored.provenance_digest@.len() == 32
            &&& provenance.provenance_digest == stored.provenance_digest@
            &&& provenance.policy_digest == policy.digest@
            &&& provenance.producer.len() > 0
            &&& (stored.session_id matches Some(name) && name@.len() > 0)
            &&& (stored.repository_id matches Some(name) ==> name@.len() > 0)
            &&& (stored.task_id matches Some(name) ==> name@.len() > 0)
            &&& (stored.agent_id matches Some(name) ==> name@.len() > 0)
        },
{
}

/// The state of an atom is accepted exactly where it is there whole and can be read, and then is
/// what the columns say.
pub proof fn law_stored_state_is_accepted_exactly(stored: StoredIntegrityAtom)
    ensures
        stored_state_fault(stored) is None <==> {
            &&& stored.retention_tier matches Some(tier)
            &&& tier_named(tier@) is Some
            &&& stored.content_status matches Some(status)
            &&& status_named(status@) is Some
            &&& (stored.feedback_positive matches Some(count) && count >= 0)
            &&& (stored.feedback_negative matches Some(count) && count >= 0)
            &&& (stored.retrieval_count matches Some(count) && count >= 0)
            &&& (stored.expires_at_us matches Some(expiry) ==> expiry >= 0)
            &&& (stored.superseded_by matches Some(successor) ==> successor@.len() == 32)
            &&& (stored.retirement_run_id matches Some(run) ==> run@.len() == 32)
        },
        stored_state_fault(stored) is None ==> {
            let state = stored_state(stored);
            &&& tier_named(stored.retention_tier->0@) == Some(state.retention_tier)
            &&& status_named(stored.content_status->0@) == Some(state.content_status)
            &&& state.feedback_positive == stored.feedback_positive->0
            &&& state.feedback_negative == stored.feedback_negative->0
            &&& state.retrieval_count == stored.retrieval_count->0
            &&& state.expires_at_us is Some <==> stored.expires_at_us is Some
            &&& stored.expires_at_us matches Some(expiry) ==> state.expires_at_us->0 == expiry
            &&& state.superseded_by == optional_bytes(stored.superseded_by)
            &&& state.retirement_run_id == optional_bytes(stored.retirement_run_id)
        },
{
}

/// Feedback is counted exactly: both counters are the numbers of the feedback rows.
pub proof fn law_feedback_counters_are_the_rows(stored: StoredIntegrityAtom)
    requires
        stored_state_fault(stored) is None,
    ensures
        feedback_fault(stored) is None <==> {
            &&& stored.feedback_positive->0 == stored.observed_feedback_positive
            &&& stored.feedback_negative->0 == stored.observed_feedback_negative
        },
{
}

/// An atom that is there is closed exactly where every column and every index says what its body
/// says: header, scope, times, provenance, state, search projection and its one full-text row; its
/// links and its relations are those that it declares, and its pins those of its tier.
pub proof fn law_present_atom_is_closed_exactly(
    stored: StoredIntegrityAtom,
    atom: CoreAtom,
    state: StateView,
    authorities: Authorities,
    fts: Map<Seq<u8>, FtsView>,
)
    requires
        record_fault(atom) is None,
        stored.canonical_body is Some,
        stored.json_projection is Some,
        state == stored_state(stored),
    ensures
        closure_fault(stored, atom, state, authorities, fts) is None <==> {
            let atom_id = stored.atom_id@;
            let body = atom.body;
            let authority = atom.authority;
            let provenance = provenance_views(authorities.provenance)[atom_id];
            let topics = json_array(texts(body.topic_keys@))->Ok_0;
            let entities = json_array(texts(body.entity_ids@))->Ok_0;
            let searchable = lines(searchable_fields(body));
            let exact = state.retention_tier is EpisodicLongTerm || state.retention_tier is DualLongTerm;
            &&& authority.atom_id@ == atom_id
            &&& authority.atom_id@ == stored.body_digest@
            &&& stored.atom_kind@ == kind_name(body.payload.kind())
            &&& stored.memory_space_id@ == body.scope.memory_space_id@
            &&& optional_text(stored.repository_id) == optional_text(body.scope.repository_id)
            &&& optional_text(stored.task_id) == optional_text(body.scope.task_id)
            &&& optional_text(stored.agent_id) == optional_text(body.scope.agent_id)
            &&& optional_text(stored.session_id) == Some(body.scope.session_id@)
            &&& stored.recorded_at_us == body.interval.recorded_at_us
            &&& stored.body_bytes == stored.canonical_body->0@.len()
            &&& stored.retention_permission@ == permission_name(body.retention_permission)
            &&& stored.provenance_digest@ == domain_digest(
                provenance_domain(),
                authority.canonical_provenance@,
            )
            &&& provenance.producer == body.provenance.producer@
            &&& provenance.policy_digest == body.provenance.policy_digest@
            &&& provenance.canonical_provenance == authority.canonical_provenance@
            &&& provenance.json_projection == authority.provenance_json_projection@
            &&& provenance.source_event_digests == digest_seq(
                body.provenance.source_event_digests@,
            )
            &&& stored.canonical_body->0@ == authority.canonical_body@
            &&& stored.json_projection->0@ == authority.json_projection@
            &&& stored.retention_tier->0@ == tier_name(state.retention_tier)
            &&& stored.content_status->0@ == status_name(state.content_status)
            &&& optional_bytes(stored.search_atom_id) == Some(atom_id)
            &&& optional_text(stored.search_memory_space_id) == Some(body.scope.memory_space_id@)
            &&& optional_text(stored.search_repository_id) == optional_text(
                body.scope.repository_id,
            )
            &&& optional_text(stored.searchable_text) == Some(searchable)
            &&& optional_text(stored.topic_keys_json) == Some(topics)
            &&& optional_text(stored.entity_ids_json) == Some(entities)
            &&& optional_text(stored.outcome_class) == optional_text(body.outcome_class)
            &&& optional_bytes(stored.projection_digest) == Some(
                sha256_of(
                    projection_transcript(
                        searchable,
                        topics,
                        entities,
                        optional_text(body.outcome_class),
                    ),
                ),
            )
            &&& fts.contains_key(atom_id)
            &&& fts[atom_id].row_count == 1
            &&& !fts[atom_id].has_conflicting_text
            &&& fts[atom_id].searchable_text_digest == sha256_of(utf8(searchable))
            &&& link_keys(kept_links(declared_links(body.artifacts@), exact)).to_multiset()
                == link_keys(group_of(link_views(authorities.artifact_refs), atom_id)).to_multiset()
            &&& link_keys(declared_links(body.artifacts@)).to_multiset() == link_keys(
                group_of(link_views(authorities.artifact_provenance), atom_id),
            ).to_multiset()
            &&& relation_keys(declared_relations(body.relations@)).to_multiset()
                == relation_keys(
                group_of(relation_views(authorities.relations), atom_id),
            ).to_multiset()
            &&& exact ==> state.retirement_run_id is Some
            &&& pins_closed(
                group_of(pin_views(authorities.artifact_pins), atom_id),
                expected_pins(body.artifacts@, state.retention_tier, state.retirement_run_id),
            )
        },
{
    let declared = declared_links(atom.body.artifacts@);
    if declared.len() > 0 {
        crate::closure::law_kept_links_are_the_permitted_ones(declared, declared[0]);
    } else {
        assert(kept_links(declared, false) =~= declared);
    }
}

/// A stored atom is accepted exactly where its header, its state, its course and its feedback are,
/// and it is either forgotten with nothing left, or there with a body that is accepted and closed.
pub proof fn law_stored_atom_is_accepted_exactly(
    stored: StoredIntegrityAtom,
    parsed: Result<CoreAtom, String>,
    authorities: Authorities,
    fts: Map<Seq<u8>, FtsView>,
    policy: Policy,
)
    ensures
        stored_atom_fault(stored, parsed, authorities, fts, policy) is None <==> {
            let atom_id = stored.atom_id@;
            let state = stored_state(stored);
            &&& stored_header_fault(stored, authorities, policy) is None
            &&& stored_state_fault(stored) is None
            &&& state_fault(
                atom_id,
                stored.atom_kind@,
                stored.memory_space_id@,
                stored.recorded_at_us as u64,
                state,
                authorities.headers,
                authorities.retirement_runs,
                authorities.retirement_decisions,
                policy.stm_horizon_us,
            ) is None
            &&& feedback_fault(stored) is None
            &&& state.content_status is Forgotten ==> {
                &&& state.retention_tier is HeaderOnly
                &&& stored.canonical_body is None
                &&& stored.json_projection is None
                &&& stored.search_atom_id is None
                &&& stored.search_memory_space_id is None
                &&& stored.searchable_text is None
                &&& stored.topic_keys_json is None
                &&& stored.entity_ids_json is None
                &&& stored.projection_digest is None
                &&& group_of(link_views(authorities.artifact_refs), atom_id).len() == 0
                &&& group_of(pin_views(authorities.artifact_pins), atom_id).len() == 0
                &&& !fts.contains_key(atom_id)
            }
            &&& !(state.content_status is Forgotten) ==> {
                &&& stored.canonical_body is Some
                &&& stored.json_projection is Some
                &&& parsed matches Ok(atom)
                &&& body_fault(
                    atom,
                    atom_id,
                    authorities.headers,
                    authorities.artifacts,
                    policy,
                ) is None
                &&& record_fault(atom) is None
                &&& (stored.search_atom_id matches Some(id) ==> id@.len() == 32)
                &&& (stored.projection_digest matches Some(digest) ==> digest@.len() == 32)
                &&& closure_fault(stored, atom, state, authorities, fts) is None
            }
        },
{
}

/// A scan takes the full-text row of every atom that it accepts, and no other: one atom more is
/// scanned where it is accepted against what the others left.
pub proof fn law_scan_takes_each_full_text_row_once(
    rows: Seq<ScannedAtom>,
    row: ScannedAtom,
    authorities: Authorities,
    fts: Map<Seq<u8>, FtsView>,
    policy: Policy,
)
    ensures
        scanned(Seq::<ScannedAtom>::empty(), authorities, fts, policy) == Ok::<_, Fault>(fts),
        scanned(rows.push(row), authorities, fts, policy) is Ok <==> {
            &&& scanned(rows, authorities, fts, policy) matches Ok(left)
            &&& stored_atom_fault(row.stored, row.parsed, authorities, left, policy) is None
        },
        scanned(rows.push(row), authorities, fts, policy) matches Ok(after) ==> after == scanned(
            rows,
            authorities,
            fts,
            policy,
        )->Ok_0.remove(row.stored.atom_id@),
{
    let step = |left: Map<Seq<u8>, FtsView>, row: ScannedAtom|
        scan_step(left, row, authorities, policy);
    crate::folding::lemma_folded_push(rows, row, fts, step);
}

/// A store closes exactly where its links and its pins are sound, every atom is accepted, there is
/// one atom and one provenance for every header, and no full-text row is left over.
pub proof fn law_store_closes_exactly(
    rows: Seq<ScannedAtom>,
    authorities: Authorities,
    fts: Map<Seq<u8>, FtsView>,
    policy: Policy,
)
    ensures
        scan_fault(rows, authorities, fts, policy) is None <==> {
            &&& live_links_fault(authorities.artifact_refs, authorities.artifacts) is None
            &&& pins_fault(
                authorities.artifact_pins,
                authorities.artifacts,
                authorities.headers,
                authorities.retirement_runs,
            ) is None
            &&& scanned(rows, authorities, fts, policy) matches Ok(left)
            &&& rows.len() == authorities.headers.keys().len()
            &&& authorities.provenance.keys().len() == authorities.headers.keys().len()
            &&& forall|key: Seq<u8>| !left.contains_key(key)
        },
{
}

} // verus!
