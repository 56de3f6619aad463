//! The memory model as the store sees it: atom bodies, their mutable state and the committed
//! policy, as plain values.

use vstd::prelude::*;
use vstd::string::*;

use crate::error::{Fault, StoreError, fault_of};
use crate::stored::{optional_digest, same_optional_digest};
use crate::text::{same_text, text2};

verus! {

/// The context an atom belongs to.
#[derive(Clone, Debug)]
pub struct Scope {
    pub memory_space_id: String,
    pub repository_id: Option<String>,
    pub task_id: Option<String>,
    pub agent_id: Option<String>,
    pub session_id: String,
}

/// When an atom's events happened and when the atom was recorded.
#[derive(Clone, Copy, Debug, PartialEq, Eq, Structural)]
pub struct Interval {
    pub started_at_us: u64,
    pub ended_at_us: u64,
    pub recorded_at_us: u64,
}

/// One observation of an atom.
#[derive(Clone, Debug)]
pub struct Observation {
    pub at_us: u64,
    pub content: String,
    pub artifact_digest: Option<[u8; 32]>,
}

/// An artifact that an atom declares.
#[derive(Clone, Debug)]
pub struct ArtifactDeclaration {
    pub digest: [u8; 32],
    pub media_type: String,
    pub size_bytes: u64,
    pub retention_allowed: bool,
    pub inline_payload: Option<Vec<u8>>,
}

/// How one atom relates to another.
#[derive(Clone, Copy, Debug, PartialEq, Eq, Structural)]
pub enum RelationKind {
    Continues,
    Supports,
    Contradicts,
    Supersedes,
    DerivedFrom,
}

/// A relation that an atom declares, with its canonical bytes.
#[derive(Clone, Debug)]
pub struct RelationDeclaration {
    pub target: [u8; 32],
    pub kind: RelationKind,
    pub canonical: Vec<u8>,
}

/// Where an atom comes from.
#[derive(Clone, Debug)]
pub struct Provenance {
    pub producer: String,
    pub policy_digest: [u8; 32],
    pub source_event_digests: Vec<[u8; 32]>,
}

/// How long an atom may be kept.
#[derive(Clone, Copy, Debug, PartialEq, Eq, Structural)]
pub enum RetentionPermission {
    TransientOnly,
    SemanticAllowed,
    SemanticAndExactAllowed,
}

/// What an episode atom carries.
#[derive(Clone, Copy, Debug)]
pub struct EpisodePayload {
    pub continues: Option<[u8; 32]>,
    pub event_sequence_start: u64,
    pub event_sequence_end: u64,
}

/// The body digest of one source of a semantic atom.
#[derive(Clone, Copy, Debug)]
pub struct SourceDigest {
    pub atom_id: [u8; 32],
    pub body_digest: [u8; 32],
}

/// What a semantic atom carries. The source body digests stand in the order of their atoms.
#[derive(Clone, Debug)]
pub struct SemanticPayload {
    pub source_ids: Vec<[u8; 32]>,
    pub source_body_digests: Vec<SourceDigest>,
    pub consensus_numerator: u64,
    pub consensus_denominator: u64,
}

/// The payload of an atom.
#[derive(Clone, Debug)]
pub enum Payload {
    Episode(EpisodePayload),
    Semantic(SemanticPayload),
}

/// The kind of an atom.
#[derive(Clone, Copy, Debug, PartialEq, Eq, Structural)]
pub enum MemoryKind {
    Episode,
    Semantic,
}

/// An immutable atom body. Topic keys and entity identifiers stand in ascending order, each once.
#[derive(Clone, Debug)]
pub struct MemoryAtomBody {
    pub contract_version: String,
    pub scope: Scope,
    pub interval: Interval,
    pub trigger: String,
    pub goal: Option<String>,
    pub plan: Vec<String>,
    pub observations: Vec<Observation>,
    pub interpretations: Vec<String>,
    pub beliefs: Vec<String>,
    pub decisions: Vec<String>,
    pub actions: Vec<String>,
    pub outcome_summary: Option<String>,
    pub outcome_class: Option<String>,
    pub topic_keys: Vec<String>,
    pub entity_ids: Vec<String>,
    pub artifacts: Vec<ArtifactDeclaration>,
    pub relations: Vec<RelationDeclaration>,
    pub provenance: Provenance,
    pub retention_permission: RetentionPermission,
    pub payload: Payload,
}

/// What the memory core says of a body: whether it is valid, its identity, its canonical bytes
/// and its JSON projections. Where `rejection` is present the other fields mean nothing.
#[derive(Clone, Debug)]
pub struct CoreAuthority {
    pub rejection: Option<String>,
    pub atom_id: [u8; 32],
    pub canonical_body: Vec<u8>,
    pub json_projection: String,
    pub canonical_provenance: Vec<u8>,
    pub provenance_json_projection: String,
    pub retained_artifact_digests: Vec<[u8; 32]>,
    pub exact_package_bytes: u64,
}

/// A body together with what the memory core says of it.
#[derive(Clone, Debug)]
pub struct CoreAtom {
    pub body: MemoryAtomBody,
    pub authority: CoreAuthority,
}

/// Where an atom is kept.
#[derive(Clone, Copy, Debug, PartialEq, Eq, Structural)]
pub enum RetentionTier {
    ShortTerm,
    SemanticLongTerm,
    EpisodicLongTerm,
    DualLongTerm,
    HeaderOnly,
}

/// Whether the content of an atom is there.
#[derive(Clone, Copy, Debug, PartialEq, Eq, Structural)]
pub enum ContentStatus {
    Present,
    Forgotten,
    Corrupt,
}

/// The mutable state of an atom.
#[derive(Clone, Copy, Debug)]
pub struct AtomState {
    pub retention_tier: RetentionTier,
    pub content_status: ContentStatus,
    pub expires_at_us: Option<u64>,
    pub superseded_by: Option<[u8; 32]>,
    pub feedback_positive: u64,
    pub feedback_negative: u64,
    pub retrieval_count: u64,
    pub retirement_run_id: Option<[u8; 32]>,
}

/// The mathematical content of an [`AtomState`].
pub struct StateView {
    pub retention_tier: RetentionTier,
    pub content_status: ContentStatus,
    pub expires_at_us: Option<u64>,
    pub superseded_by: Option<Seq<u8>>,
    pub feedback_positive: u64,
    pub feedback_negative: u64,
    pub retrieval_count: u64,
    pub retirement_run_id: Option<Seq<u8>>,
}

impl View for AtomState {
    type V = StateView;

    open spec fn view(&self) -> StateView {
        StateView {
            retention_tier: self.retention_tier,
            content_status: self.content_status,
            expires_at_us: self.expires_at_us,
            superseded_by: optional_digest(self.superseded_by),
            feedback_positive: self.feedback_positive,
            feedback_negative: self.feedback_negative,
            retrieval_count: self.retrieval_count,
            retirement_run_id: optional_digest(self.retirement_run_id),
        }
    }
}

/// Whether two mutable states are equal.
pub fn same_state(a: &AtomState, b: &AtomState) -> (same: bool)
    ensures
        same == (a@ == b@),
{
    a.retention_tier == b.retention_tier && a.content_status == b.content_status
        && same_optional_u64(a.expires_at_us, b.expires_at_us) && same_optional_digest(
        &a.superseded_by,
        &b.superseded_by,
    ) && a.feedback_positive == b.feedback_positive && a.feedback_negative == b.feedback_negative
        && a.retrieval_count == b.retrieval_count && same_optional_digest(
        &a.retirement_run_id,
        &b.retirement_run_id,
    )
}

/// Whether two optional integers are equal.
pub fn same_optional_u64(a: Option<u64>, b: Option<u64>) -> (same: bool)
    ensures
        same == (a == b),
{
    match (a, b) {
        (Some(a), Some(b)) => a == b,
        (None, None) => true,
        _ => false,
    }
}

/// Whether the artifacts and bodies of an atom are complete.
#[derive(Clone, Copy, Debug, PartialEq, Eq, Structural)]
pub enum IntegrityStatus {
    Complete,
    MissingArtifact,
    DigestMismatch,
}

/// The committed policy: its limits, its rates in parts per million, and its identity.
#[derive(Clone, Debug)]
pub struct Policy {
    pub policy_id: String,
    pub digest: [u8; 32],
    pub canonical_body: Vec<u8>,
    pub json_projection: String,
    pub atom_hash_domain: Vec<u8>,
    pub stm_horizon_us: u64,
    pub atom_hard_max_bytes: u64,
    pub inline_payload_max_bytes: u64,
    pub artifact_max_bytes: u64,
    pub min_semantic_sources: usize,
    pub consensus_numerator: u64,
    pub consensus_denominator: u64,
    pub semantic_rate_ppm: u64,
    pub semantic_count_max: usize,
    pub episodic_rate_ppm: u64,
    pub episodic_count_max: usize,
    pub retrieval_candidate_max: usize,
}

impl Payload {
    /// The kind of atom that carries this payload.
    pub open spec fn kind(self) -> MemoryKind {
        match self {
            Payload::Episode(_) => MemoryKind::Episode,
            Payload::Semantic(_) => MemoryKind::Semantic,
        }
    }
}

/// The stored name of an atom kind.
pub open spec fn kind_name(kind: MemoryKind) -> Seq<char> {
    match kind {
        MemoryKind::Episode => "episode"@,
        MemoryKind::Semantic => "semantic"@,
    }
}

/// Writes the stored name of the kind of a payload.
pub fn payload_kind_text(payload: &Payload) -> (name: &'static str)
    ensures
        name@ == kind_name(payload.kind()),
{
    match payload {
        Payload::Episode(_) => "episode",
        Payload::Semantic(_) => "semantic",
    }
}

/// The kind that a stored name stands for.
pub open spec fn kind_named(name: Seq<char>) -> Option<MemoryKind> {
    if name == "episode"@ {
        Some(MemoryKind::Episode)
    } else if name == "semantic"@ {
        Some(MemoryKind::Semantic)
    } else {
        None
    }
}

/// Reads the stored name of an atom kind.
pub fn kind_from_store(name: &str) -> (kind: Option<MemoryKind>)
    ensures
        kind == kind_named(name@),
{
    if same_text(name, "episode") {
        Some(MemoryKind::Episode)
    } else if same_text(name, "semantic") {
        Some(MemoryKind::Semantic)
    } else {
        None
    }
}

/// The stored name of a retention permission.
pub open spec fn permission_name(permission: RetentionPermission) -> Seq<char> {
    match permission {
        RetentionPermission::TransientOnly => "transient_only"@,
        RetentionPermission::SemanticAllowed => "semantic_allowed"@,
        RetentionPermission::SemanticAndExactAllowed => "semantic_and_exact_allowed"@,
    }
}

/// Writes the stored name of a retention permission.
pub fn permission_text(permission: RetentionPermission) -> (name: &'static str)
    ensures
        name@ == permission_name(permission),
{
    match permission {
        RetentionPermission::TransientOnly => "transient_only",
        RetentionPermission::SemanticAllowed => "semantic_allowed",
        RetentionPermission::SemanticAndExactAllowed => "semantic_and_exact_allowed",
    }
}

/// The permission that a stored name stands for.
pub open spec fn permission_named(name: Seq<char>) -> Option<RetentionPermission> {
    if name == "transient_only"@ {
        Some(RetentionPermission::TransientOnly)
    } else if name == "semantic_allowed"@ {
        Some(RetentionPermission::SemanticAllowed)
    } else if name == "semantic_and_exact_allowed"@ {
        Some(RetentionPermission::SemanticAndExactAllowed)
    } else {
        None
    }
}

/// The fault of a name that no permission has.
pub open spec fn permission_fault(name: Seq<char>) -> Option<Fault> {
    match permission_named(name) {
        Some(_) => None,
        None => Some(Fault::Integrity("unknown retention permission "@ + name)),
    }
}

/// Reads the stored name of a retention permission.
pub fn retention_permission_from_store(name: &str) -> (permission: Result<
    RetentionPermission,
    StoreError,
>)
    ensures
        fault_of(permission) == permission_fault(name@),
        permission matches Ok(permission) ==> permission_named(name@) == Some(permission),
{
    if same_text(name, "transient_only") {
        Ok(RetentionPermission::TransientOnly)
    } else if same_text(name, "semantic_allowed") {
        Ok(RetentionPermission::SemanticAllowed)
    } else if same_text(name, "semantic_and_exact_allowed") {
        Ok(RetentionPermission::SemanticAndExactAllowed)
    } else {
        Err(StoreError::Integrity(text2("unknown retention permission ", name)))
    }
}

/// The stored name of a retention tier.
pub open spec fn tier_name(tier: RetentionTier) -> Seq<char> {
    match tier {
        RetentionTier::ShortTerm => "stm"@,
        RetentionTier::SemanticLongTerm => "ltm_semantic"@,
        RetentionTier::EpisodicLongTerm => "ltm_episodic"@,
        RetentionTier::DualLongTerm => "ltm_dual"@,
        RetentionTier::HeaderOnly => "forgotten"@,
    }
}

/// Writes the stored name of a retention tier.
pub fn tier_text(tier: RetentionTier) -> (name: &'static str)
    ensures
        name@ == tier_name(tier),
{
    match tier {
        RetentionTier::ShortTerm => "stm",
        RetentionTier::SemanticLongTerm => "ltm_semantic",
        RetentionTier::EpisodicLongTerm => "ltm_episodic",
        RetentionTier::DualLongTerm => "ltm_dual",
        RetentionTier::HeaderOnly => "forgotten",
    }
}

/// The tier that a stored name stands for.
pub open spec fn tier_named(name: Seq<char>) -> Option<RetentionTier> {
    if name == "stm"@ {
        Some(RetentionTier::ShortTerm)
    } else if name == "ltm_semantic"@ {
        Some(RetentionTier::SemanticLongTerm)
    } else if name == "ltm_episodic"@ {
        Some(RetentionTier::EpisodicLongTerm)
    } else if name == "ltm_dual"@ {
        Some(RetentionTier::DualLongTerm)
    } else if name == "forgotten"@ {
        Some(RetentionTier::HeaderOnly)
    } else {
        None
    }
}

/// The fault of a name that no tier has.
pub open spec fn tier_fault(name: Seq<char>) -> Option<Fault> {
    match tier_named(name) {
        Some(_) => None,
        None => Some(Fault::Integrity("unknown persisted retention tier "@ + name)),
    }
}

/// Reads the stored name of a retention tier.
pub fn retention_tier_from_store(name: &str) -> (tier: Result<RetentionTier, StoreError>)
    ensures
        fault_of(tier) == tier_fault(name@),
        tier matches Ok(tier) ==> tier_named(name@) == Some(tier),
{
    if same_text(name, "stm") {
        Ok(RetentionTier::ShortTerm)
    } else if same_text(name, "ltm_semantic") {
        Ok(RetentionTier::SemanticLongTerm)
    } else if same_text(name, "ltm_episodic") {
        Ok(RetentionTier::EpisodicLongTerm)
    } else if same_text(name, "ltm_dual") {
        Ok(RetentionTier::DualLongTerm)
    } else if same_text(name, "forgotten") {
        Ok(RetentionTier::HeaderOnly)
    } else {
        Err(StoreError::Integrity(text2("unknown persisted retention tier ", name)))
    }
}

/// The stored name of a content status.
pub open spec fn status_name(status: ContentStatus) -> Seq<char> {
    match status {
        ContentStatus::Present => "present"@,
        ContentStatus::Forgotten => "forgotten"@,
        ContentStatus::Corrupt => "quarantined"@,
    }
}

/// Writes the stored name of a content status.
pub fn status_text(status: ContentStatus) -> (name: &'static str)
    ensures
        name@ == status_name(status),
{
    match status {
        ContentStatus::Present => "present",
        ContentStatus::Forgotten => "forgotten",
        ContentStatus::Corrupt => "quarantined",
    }
}

/// The status that a stored name stands for.
pub open spec fn status_named(name: Seq<char>) -> Option<ContentStatus> {
    if name == "present"@ {
        Some(ContentStatus::Present)
    } else if name == "forgotten"@ {
        Some(ContentStatus::Forgotten)
    } else if name == "quarantined"@ {
        Some(ContentStatus::Corrupt)
    } else {
        None
    }
}

/// The fault of a name that no status has.
pub open spec fn status_fault(name: Seq<char>) -> Option<Fault> {
    match status_named(name) {
        Some(_) => None,
        None => Some(Fault::Integrity("unknown persisted content status "@ + name)),
    }
}

/// Reads the stored name of a content status.
pub fn content_status_from_store(name: &str) -> (status: Result<ContentStatus, StoreError>)
    ensures
        fault_of(status) == status_fault(name@),
        status matches Ok(status) ==> status_named(name@) == Some(status),
{
    if same_text(name, "present") {
        Ok(ContentStatus::Present)
    } else if same_text(name, "forgotten") {
        Ok(ContentStatus::Forgotten)
    } else if same_text(name, "quarantined") {
        Ok(ContentStatus::Corrupt)
    } else {
        Err(StoreError::Integrity(text2("unknown persisted content status ", name)))
    }
}

/// The stored name of a relation kind.
pub open spec fn relation_name(kind: RelationKind) -> Seq<char> {
    match kind {
        RelationKind::Continues => "continues"@,
        RelationKind::Supports => "supports"@,
        RelationKind::Contradicts => "contradicts"@,
        RelationKind::Supersedes => "supersedes"@,
        RelationKind::DerivedFrom => "derived_from"@,
    }
}

/// Writes the stored name of a relation kind.
pub fn relation_kind_text(kind: RelationKind) -> (name: &'static str)
    ensures
        name@ == relation_name(kind),
{
    match kind {
        RelationKind::Continues => "continues",
        RelationKind::Supports => "supports",
        RelationKind::Contradicts => "contradicts",
        RelationKind::Supersedes => "supersedes",
        RelationKind::DerivedFrom => "derived_from",
    }
}

/// Whether some relation kind has the stored name `name`.
pub open spec fn names_relation(name: Seq<char>) -> bool {
    exists|kind: RelationKind| relation_name(kind) == name
}

/// Whether a stored name is that of a relation kind.
pub fn is_relation_kind(name: &str) -> (known: bool)
    ensures
        known == names_relation(name@),
{
    let known = same_text(name, "continues") || same_text(name, "supports") || same_text(
        name,
        "contradicts",
    ) || same_text(name, "supersedes") || same_text(name, "derived_from");
    proof {
        assert(relation_name(RelationKind::Continues) == "continues"@);
        assert(relation_name(RelationKind::Supports) == "supports"@);
        assert(relation_name(RelationKind::Contradicts) == "contradicts"@);
        assert(relation_name(RelationKind::Supersedes) == "supersedes"@);
        assert(relation_name(RelationKind::DerivedFrom) == "derived_from"@);
    }
    known
}

proof fn lemma_names_differ()
    ensures
        "stm"@ != "ltm_semantic"@,
        "stm"@ != "ltm_episodic"@,
        "stm"@ != "ltm_dual"@,
        "stm"@ != "forgotten"@,
        "ltm_semantic"@ != "ltm_episodic"@,
        "ltm_semantic"@ != "ltm_dual"@,
        "ltm_semantic"@ != "forgotten"@,
        "ltm_episodic"@ != "ltm_dual"@,
        "ltm_episodic"@ != "forgotten"@,
        "ltm_dual"@ != "forgotten"@,
        "present"@ != "forgotten"@,
        "present"@ != "quarantined"@,
        "forgotten"@ != "quarantined"@,
        "transient_only"@ != "semantic_allowed"@,
        "transient_only"@ != "semantic_and_exact_allowed"@,
        "semantic_allowed"@ != "semantic_and_exact_allowed"@,
        "episode"@ != "semantic"@,
{
    reveal_strlit("stm");
    reveal_strlit("ltm_semantic");
    reveal_strlit("ltm_episodic");
    reveal_strlit("ltm_dual");
    reveal_strlit("forgotten");
    reveal_strlit("present");
    reveal_strlit("quarantined");
    reveal_strlit("transient_only");
    reveal_strlit("semantic_allowed");
    reveal_strlit("semantic_and_exact_allowed");
    reveal_strlit("episode");
    reveal_strlit("semantic");
    assert("stm"@.len() == 3);
    assert("ltm_semantic"@.len() == 12);
    assert("ltm_episodic"@.len() == 12);
    assert("ltm_dual"@.len() == 8);
    assert("forgotten"@.len() == 9);
    assert("present"@.len() == 7);
    assert("quarantined"@.len() == 11);
    assert("transient_only"@.len() == 14);
    assert("semantic_allowed"@.len() == 16);
    assert("semantic_and_exact_allowed"@.len() == 26);
    assert("episode"@.len() == 7);
    assert("semantic"@.len() == 8);
    assert("ltm_semantic"@[4] == 's');
    assert("ltm_episodic"@[4] == 'e');
}

/// The name written for a tier reads back as that tier, and a name that reads as a tier is the
/// name written for it.
pub proof fn law_tier_names_round_trip(tier: RetentionTier, name: Seq<char>)
    ensures
        tier_named(tier_name(tier)) == Some(tier),
        tier_named(name) matches Some(read) ==> tier_name(read) == name,
{
    lemma_names_differ();
}

/// The name written for a status reads back as that status, and a name that reads as a status is
/// the name written for it.
pub proof fn law_status_names_round_trip(status: ContentStatus, name: Seq<char>)
    ensures
        status_named(status_name(status)) == Some(status),
        status_named(name) matches Some(read) ==> status_name(read) == name,
{
    lemma_names_differ();
}

/// The name written for a permission reads back as that permission, and a name that reads as a
/// permission is the name written for it.
pub proof fn law_permission_names_round_trip(permission: RetentionPermission, name: Seq<char>)
    ensures
        permission_named(permission_name(permission)) == Some(permission),
        permission_named(name) matches Some(read) ==> permission_name(read) == name,
{
    lemma_names_differ();
}

/// The name written for an atom kind reads back as that kind, and a name that reads as a kind is
/// the name written for it.
pub proof fn law_kind_names_round_trip(kind: MemoryKind, name: Seq<char>)
    ensures
        kind_named(kind_name(kind)) == Some(kind),
        kind_named(name) matches Some(read) ==> kind_name(read) == name,
{
    lemma_names_differ();
}

/// Different relation kinds have different names.
pub proof fn law_relation_names_differ(a: RelationKind, b: RelationKind)
    requires
        relation_name(a) == relation_name(b),
    ensures
        a == b,
{
    reveal_strlit("continues");
    reveal_strlit("supports");
    reveal_strlit("contradicts");
    reveal_strlit("supersedes");
    reveal_strlit("derived_from");
    assert("continues"@.len() == 9);
    assert("supports"@.len() == 8);
    assert("contradicts"@.len() == 11);
    assert("supersedes"@.len() == 10);
    assert("derived_from"@.len() == 12);
}

/// Every kind, permission, tier, status and relation is stored under its own name.
pub proof fn law_names_are_those_of_the_columns(
    kind: MemoryKind,
    permission: RetentionPermission,
    tier: RetentionTier,
    status: ContentStatus,
    relation: RelationKind,
)
    ensures
        kind is Episode ==> kind_name(kind) == "episode"@,
        kind is Semantic ==> kind_name(kind) == "semantic"@,
        permission is TransientOnly ==> permission_name(permission) == "transient_only"@,
        permission is SemanticAllowed ==> permission_name(permission) == "semantic_allowed"@,
        permission is SemanticAndExactAllowed ==> permission_name(permission)
            == "semantic_and_exact_allowed"@,
        tier is ShortTerm ==> tier_name(tier) == "stm"@,
        tier is SemanticLongTerm ==> tier_name(tier) == "ltm_semantic"@,
        tier is EpisodicLongTerm ==> tier_name(tier) == "ltm_episodic"@,
        tier is DualLongTerm ==> tier_name(tier) == "ltm_dual"@,
        tier is HeaderOnly ==> tier_name(tier) == "forgotten"@,
        status is Present ==> status_name(status) == "present"@,
        status is Forgotten ==> status_name(status) == "forgotten"@,
        status is Corrupt ==> status_name(status) == "quarantined"@,
        relation is Continues ==> relation_name(relation) == "continues"@,
        relation is Supports ==> relation_name(relation) == "supports"@,
        relation is Contradicts ==> relation_name(relation) == "contradicts"@,
        relation is Supersedes ==> relation_name(relation) == "supersedes"@,
        relation is DerivedFrom ==> relation_name(relation) == "derived_from"@,
{
}

} // verus!
