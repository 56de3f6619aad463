//! The state of a cohort after its retirement: what each atom must have become, and how its live
//! state may go on from there.

use vstd::prelude::*;
use vstd::string::*;

use crate::digest::sha256_of;
use crate::error::{Fault, StoreError, either_fault, fault_of, fault_when, integrity};
use crate::folding::{first_indexed, lemma_first_indexed_stops, lemma_no_first_indexed};
use crate::json::{json_array, texts};
use crate::messages::{integrity_about, integrity_fault};
use crate::model::{
    AtomState, ContentStatus, CoreAtom, MemoryKind, RetentionPermission, RetentionTier, StateView,
    kind_from_store, kind_name, kind_named, permission_fault, permission_name, permission_named,
    retention_permission_from_store, same_optional_u64, status_name, tier_name,
};
use crate::records::{
    AtomRecord, domain_digest, hash_prefixed, is_record_of, lines, projection_transcript,
    provenance_domain, record_fault, searchable_fields, sha256_projection,
};
use crate::state_columns::{
    StateColumns, columns_fault, columns_state, post_state_labels, post_state_names, read_state,
};
use crate::stored::{
    digest_array, digest_fault, digest_seq, optional_digest, same_digest, same_digests,
    same_optional_digest, unsigned_fault, unsigned_integer,
};
use crate::text::{
    copy_optional_text, holds_text, optional_bytes, optional_text, same_bytes, same_optional_text,
    same_text, text2,
};

verus! {

/// The rows of an atom of a retired cohort.
#[derive(Clone, Debug)]
pub struct StoredPostStateAtom {
    pub atom_id: Vec<u8>,
    pub atom_kind: String,
    pub memory_space_id: String,
    pub repository_id: Option<String>,
    pub task_id: Option<String>,
    pub agent_id: Option<String>,
    pub session_id: Option<String>,
    pub recorded_at_us: i64,
    pub body_digest: Vec<u8>,
    pub body_bytes: i64,
    pub retention_permission: String,
    pub provenance_digest: Vec<u8>,
    pub canonical_body: Option<Vec<u8>>,
    pub json_projection: Option<String>,
    pub state: StateColumns,
    pub search_atom_id: Option<Vec<u8>>,
    pub searchable_text: Option<String>,
    pub topic_keys_json: Option<String>,
    pub entity_ids_json: Option<String>,
    pub outcome_class: Option<String>,
    pub projection_digest: Option<Vec<u8>>,
}

/// The state of one atom after retirement.
#[derive(Clone, Debug)]
pub struct RetirementPostStateAtom {
    pub atom_id: [u8; 32],
    pub atom_kind: MemoryKind,
    pub repository_id: Option<String>,
    pub task_id: Option<String>,
    pub agent_id: Option<String>,
    pub session_id: Option<String>,
    pub recorded_at_us: u64,
    pub header_body_digest: [u8; 32],
    pub header_body_bytes: u64,
    pub retention_permission: RetentionPermission,
    pub provenance_digest: [u8; 32],
    pub stored_body_digest: Option<[u8; 32]>,
    pub retention_tier: RetentionTier,
    pub content_status: ContentStatus,
    pub expires_at_us: Option<u64>,
    pub superseded_by: Option<[u8; 32]>,
    pub feedback_positive: u64,
    pub feedback_negative: u64,
    pub retrieval_count: u64,
    pub retirement_run_bound: bool,
    pub search_projection_present: bool,
    pub pinned_artifact_digests: Vec<[u8; 32]>,
}

/// The counters of an atom that go on counting after retirement.
pub struct CounterView {
    pub feedback_positive: u64,
    pub feedback_negative: u64,
    pub retrieval_count: u64,
}

/// Everything about an atom after retirement that may not change any more.
#[verifier::ext_equal]
pub struct StructureView {
    pub atom_id: Seq<u8>,
    pub atom_kind: MemoryKind,
    pub repository_id: Option<Seq<char>>,
    pub task_id: Option<Seq<char>>,
    pub agent_id: Option<Seq<char>>,
    pub session_id: Option<Seq<char>>,
    pub recorded_at_us: u64,
    pub header_body_digest: Seq<u8>,
    pub header_body_bytes: u64,
    pub retention_permission: RetentionPermission,
    pub provenance_digest: Seq<u8>,
    pub stored_body_digest: Option<Seq<u8>>,
    pub retention_tier: RetentionTier,
    pub content_status: ContentStatus,
    pub expires_at_us: Option<u64>,
    pub superseded_by: Option<Seq<u8>>,
    pub retirement_run_bound: bool,
    pub search_projection_present: bool,
    pub pinned_artifact_digests: Seq<Seq<u8>>,
}

/// The mathematical content of a [`RetirementPostStateAtom`].
#[verifier::ext_equal]
pub struct PostAtomView {
    pub structure: StructureView,
    pub counters: CounterView,
}

impl View for RetirementPostStateAtom {
    type V = PostAtomView;

    open spec fn view(&self) -> PostAtomView {
        PostAtomView {
            structure: StructureView {
                atom_id: self.atom_id@,
                atom_kind: self.atom_kind,
                repository_id: optional_text(self.repository_id),
                task_id: optional_text(self.task_id),
                agent_id: optional_text(self.agent_id),
                session_id: optional_text(self.session_id),
                recorded_at_us: self.recorded_at_us,
                header_body_digest: self.header_body_digest@,
                header_body_bytes: self.header_body_bytes,
                retention_permission: self.retention_permission,
                provenance_digest: self.provenance_digest@,
                stored_body_digest: optional_digest(self.stored_body_digest),
                retention_tier: self.retention_tier,
                content_status: self.content_status,
                expires_at_us: self.expires_at_us,
                superseded_by: optional_digest(self.superseded_by),
                retirement_run_bound: self.retirement_run_bound,
                search_projection_present: self.search_projection_present,
                pinned_artifact_digests: digest_seq(self.pinned_artifact_digests@),
            },
            counters: CounterView {
                feedback_positive: self.feedback_positive,
                feedback_negative: self.feedback_negative,
                retrieval_count: self.retrieval_count,
            },
        }
    }
}

/// Whether nothing but counters differs between two atoms after retirement.
pub fn same_structure(a: &RetirementPostStateAtom, b: &RetirementPostStateAtom) -> (same: bool)
    ensures
        same == (a@.structure == b@.structure),
{
    same_digest(&a.atom_id, &b.atom_id) && a.atom_kind == b.atom_kind && same_optional_text(
        &a.repository_id,
        &b.repository_id,
    ) && same_optional_text(&a.task_id, &b.task_id) && same_optional_text(&a.agent_id, &b.agent_id)
        && same_optional_text(&a.session_id, &b.session_id) && a.recorded_at_us == b.recorded_at_us
        && same_digest(&a.header_body_digest, &b.header_body_digest) && a.header_body_bytes
        == b.header_body_bytes && a.retention_permission == b.retention_permission && same_digest(
        &a.provenance_digest,
        &b.provenance_digest,
    ) && same_optional_digest(&a.stored_body_digest, &b.stored_body_digest) && a.retention_tier
        == b.retention_tier && a.content_status == b.content_status && same_optional_u64(
        a.expires_at_us,
        b.expires_at_us,
    ) && same_optional_digest(&a.superseded_by, &b.superseded_by) && a.retirement_run_bound
        == b.retirement_run_bound && a.search_projection_present == b.search_projection_present
        && same_digests(
        a.pinned_artifact_digests.as_slice(),
        b.pinned_artifact_digests.as_slice(),
    )
}

/// The state of a cohort after retirement.
#[derive(Clone, Debug)]
pub struct RetirementPostState {
    pub memory_space_id: String,
    pub source_atoms: Vec<RetirementPostStateAtom>,
    pub semantic_atoms: Vec<RetirementPostStateAtom>,
}

/// The mathematical content of a list of atoms after retirement.
pub open spec fn post_atoms(atoms: Seq<RetirementPostStateAtom>) -> Seq<PostAtomView> {
    atoms.map_values(|atom: RetirementPostStateAtom| atom@)
}

/// The mathematical content of a [`RetirementPostState`].
#[verifier::ext_equal]
pub struct PostStateView {
    pub memory_space_id: Seq<char>,
    pub source_atoms: Seq<PostAtomView>,
    pub semantic_atoms: Seq<PostAtomView>,
}

impl View for RetirementPostState {
    type V = PostStateView;

    open spec fn view(&self) -> PostStateView {
        PostStateView {
            memory_space_id: self.memory_space_id@,
            source_atoms: post_atoms(self.source_atoms@),
            semantic_atoms: post_atoms(self.semantic_atoms@),
        }
    }
}

// ---------------------------------------------------------------------------------------------
// How the live state may go on

/// Whether no counter has gone back.
pub open spec fn counters_advanced(before: CounterView, after: CounterView) -> bool {
    &&& before.feedback_positive <= after.feedback_positive
    &&& before.feedback_negative <= after.feedback_negative
    &&& before.retrieval_count <= after.retrieval_count
}

/// The fault of an atom that has gone back or changed since retirement.
pub open spec fn transition_fault(historical: PostAtomView, current: PostAtomView) -> Option<Fault> {
    if !counters_advanced(historical.counters, current.counters) {
        Some(
            integrity_fault(
                "live mutable counters for "@,
                current.structure.atom_id,
                " moved behind retirement history"@,
            ),
        )
    } else {
        fault_when(
            historical.structure != current.structure,
            integrity_fault(
                "live structural state for "@,
                current.structure.atom_id,
                " diverges from retirement history"@,
            ),
        )
    }
}

/// The fault of the first atom of a list that has gone back or changed.
pub open spec fn transitions_fault(
    historical: Seq<PostAtomView>,
    current: Seq<PostAtomView>,
) -> Option<Fault> {
    first_indexed(historical.len(), |i: int| transition_fault(historical[i], current[i]))
}

/// The fault of a live state that does not go on from the state after retirement.
pub open spec fn live_state_fault(historical: PostStateView, current: PostStateView) -> Option<
    Fault,
> {
    if historical.memory_space_id != current.memory_space_id || historical.source_atoms.len()
        != current.source_atoms.len() || historical.semantic_atoms.len()
        != current.semantic_atoms.len() {
        Some(
            Fault::Integrity(
                "live retirement state no longer closes over the historical atom set"@,
            ),
        )
    } else {
        either_fault(
            transitions_fault(historical.source_atoms, current.source_atoms),
            transitions_fault(historical.semantic_atoms, current.semantic_atoms),
        )
    }
}

fn check_transition(
    historical: &RetirementPostStateAtom,
    current: &RetirementPostStateAtom,
) -> (verdict: Result<(), StoreError>)
    ensures
        fault_of(verdict) == transition_fault(historical@, current@),
{
    if current.feedback_positive < historical.feedback_positive || current.feedback_negative
        < historical.feedback_negative || current.retrieval_count < historical.retrieval_count {
        return Err(
            integrity_about(
                "live mutable counters for ",
                &current.atom_id,
                " moved behind retirement history",
            ),
        );
    }
    if !same_structure(historical, current) {
        return Err(
            integrity_about(
                "live structural state for ",
                &current.atom_id,
                " diverges from retirement history",
            ),
        );
    }
    Ok(())
}

#[verifier::loop_isolation(false)]
fn check_transitions(
    historical: &Vec<RetirementPostStateAtom>,
    current: &Vec<RetirementPostStateAtom>,
) -> (verdict: Result<(), StoreError>)
    requires
        historical@.len() == current@.len(),
    ensures
        fault_of(verdict) == transitions_fault(post_atoms(historical@), post_atoms(current@)),
{
    let ghost before = post_atoms(historical@);
    let ghost after = post_atoms(current@);
    let ghost fault = |i: int| transition_fault(before[i], after[i]);
    let mut i: usize = 0;
    while i < historical.len()
        invariant
            i <= historical@.len(),
            first_indexed(i as nat, fault) is None,
        decreases historical@.len() - i,
    {
        match check_transition(&historical[i], &current[i]) {
            Ok(()) => {},
            Err(error) => {
                proof {
                    lemma_first_indexed_stops(historical@.len(), fault, (i + 1) as nat);
                }
                return Err(error);
            },
        }
        i += 1;
    }
    Ok(())
}

/// Checks that the live state of a retired cohort goes on from its state after retirement: the
/// same atoms, nothing changed but counters, and no counter gone back.
pub fn validate_live_post_state_transition(
    historical: &RetirementPostState,
    current: &RetirementPostState,
) -> (verdict: Result<(), StoreError>)
    ensures
        fault_of(verdict) == live_state_fault(historical@, current@),
{
    if !same_text(historical.memory_space_id.as_str(), current.memory_space_id.as_str())
        || historical.source_atoms.len() != current.source_atoms.len()
        || historical.semantic_atoms.len() != current.semantic_atoms.len() {
        return Err(
            integrity("live retirement state no longer closes over the historical atom set"),
        );
    }
    check_transitions(&historical.source_atoms, &current.source_atoms)?;
    check_transitions(&historical.semantic_atoms, &current.semantic_atoms)
}

/// A list of atoms goes on from another exactly where each of its atoms does.
pub proof fn lemma_transitions(historical: Seq<PostAtomView>, current: Seq<PostAtomView>)
    requires
        historical.len() == current.len(),
    ensures
        transitions_fault(historical, current) is None <==> forall|i: int|
            0 <= i < historical.len() ==> transition_fault(
                #[trigger] historical[i],
                current[i],
            ) is None,
{
    let fault = |i: int| transition_fault(historical[i], current[i]);
    lemma_no_first_indexed(historical.len(), fault);
    if transitions_fault(historical, current) is None {
        assert forall|i: int| 0 <= i < historical.len() implies transition_fault(
            #[trigger] historical[i],
            current[i],
        ) is None by {
            assert(fault(i) is None);
        }
    }
    if forall|i: int|
        0 <= i < historical.len() ==> transition_fault(#[trigger] historical[i], current[i]) is None {
        assert forall|i: int| 0 <= i < historical.len() implies #[trigger] fault(i) is None by {
            assert(transition_fault(historical[i], current[i]) is None);
        }
    }
}

/// Every state goes on from itself: right after retirement the live state is accepted.
pub proof fn law_live_state_transition_is_reflexive(state: PostStateView)
    ensures
        live_state_fault(state, state) is None,
{
    lemma_transitions(state.source_atoms, state.source_atoms);
    lemma_transitions(state.semantic_atoms, state.semantic_atoms);
}

/// Going on in two steps is going on: what was accepted before stays accepted against the first
/// history.
pub proof fn law_live_state_transition_is_transitive(
    first: PostStateView,
    second: PostStateView,
    third: PostStateView,
)
    requires
        live_state_fault(first, second) is None,
        live_state_fault(second, third) is None,
    ensures
        live_state_fault(first, third) is None,
{
    lemma_transitions(first.source_atoms, second.source_atoms);
    lemma_transitions(second.source_atoms, third.source_atoms);
    lemma_transitions(first.source_atoms, third.source_atoms);
    lemma_transitions(first.semantic_atoms, second.semantic_atoms);
    lemma_transitions(second.semantic_atoms, third.semantic_atoms);
    lemma_transitions(first.semantic_atoms, third.semantic_atoms);
    assert forall|i: int| 0 <= i < first.source_atoms.len() implies transition_fault(
        #[trigger] first.source_atoms[i],
        third.source_atoms[i],
    ) is None by {
        assert(transition_fault(first.source_atoms[i], second.source_atoms[i]) is None);
        assert(transition_fault(second.source_atoms[i], third.source_atoms[i]) is None);
    }
    assert forall|i: int| 0 <= i < first.semantic_atoms.len() implies transition_fault(
        #[trigger] first.semantic_atoms[i],
        third.semantic_atoms[i],
    ) is None by {
        assert(transition_fault(first.semantic_atoms[i], second.semantic_atoms[i]) is None);
        assert(transition_fault(second.semantic_atoms[i], third.semantic_atoms[i]) is None);
    }
}

// ---------------------------------------------------------------------------------------------
// What each atom must have become

/// The decision of a retirement run about one of its sources.
#[derive(Clone, Debug)]
pub struct SourceDecision {
    pub decision: String,
    pub run_id: [u8; 32],
}

/// The mathematical content of a [`SourceDecision`].
#[verifier::ext_equal]
pub struct BoundDecision {
    pub decision: Seq<char>,
    pub run_id: Seq<u8>,
}

/// The mathematical content of an optional decision.
pub open spec fn bound_decision(decision: Option<SourceDecision>) -> Option<BoundDecision> {
    match decision {
        Some(decision) => Some(
            BoundDecision { decision: decision.decision@, run_id: decision.run_id@ },
        ),
        None => None,
    }
}

/// What an atom must be after retirement.
pub struct ExpectedState {
    pub retention_tier: RetentionTier,
    pub content_status: ContentStatus,
    pub body_required: bool,
}

/// Whether a decision keeps the source exactly.
pub open spec fn keeps_source(decision: Seq<char>) -> bool {
    decision == "episodic_winner"@ || decision == "semantic_and_episodic"@
}

/// Whether a decision forgets the source.
pub open spec fn forgets_source(decision: Seq<char>) -> bool {
    decision == "semantic_source"@ || decision == "forgotten"@
}

/// What an atom must be after retirement: a source by its decision, an output by being one.
pub open spec fn expected_state(decision: Option<BoundDecision>) -> Option<ExpectedState> {
    match decision {
        None => Some(
            ExpectedState {
                retention_tier: RetentionTier::SemanticLongTerm,
                content_status: ContentStatus::Present,
                body_required: true,
            },
        ),
        Some(decision) => if keeps_source(decision.decision) {
            Some(
                ExpectedState {
                    retention_tier: RetentionTier::EpisodicLongTerm,
                    content_status: ContentStatus::Present,
                    body_required: true,
                },
            )
        } else if forgets_source(decision.decision) {
            Some(
                ExpectedState {
                    retention_tier: RetentionTier::HeaderOnly,
                    content_status: ContentStatus::Forgotten,
                    body_required: false,
                },
            )
        } else {
            None
        },
    }
}

/// The run that an atom must be bound to after retirement.
pub open spec fn expected_run(decision: Option<BoundDecision>) -> Option<Seq<u8>> {
    match decision {
        None => None,
        Some(decision) => Some(decision.run_id),
    }
}

/// The fault of the header columns of an atom after retirement.
pub open spec fn post_header_fault(
    stored: StoredPostStateAtom,
    memory_space_id: Seq<char>,
) -> Option<Fault> {
    let atom_id = stored.atom_id@;
    either_fault(
        digest_fault(atom_id, "post-state atom_id"@),
        either_fault(
            digest_fault(stored.body_digest@, "post-state body_digest"@),
            either_fault(
                unsigned_fault(stored.body_bytes, "post-state body_bytes"@),
                if kind_named(stored.atom_kind@) is None {
                    Some(integrity_fault("post-state atom "@, atom_id, " has invalid kind"@))
                } else {
                    fault_when(
                        stored.memory_space_id@ != memory_space_id || stored.body_digest@ != atom_id
                            || stored.body_bytes == 0,
                        integrity_fault(
                            "post-state atom "@,
                            atom_id,
                            " failed header or scope authority"@,
                        ),
                    )
                },
            ),
        ),
    )
}

/// The fault of an atom whose state is not what its retirement calls for.
pub open spec fn post_decision_fault(
    stored: StoredPostStateAtom,
    state: StateView,
    decision: Option<BoundDecision>,
) -> Option<Fault> {
    let atom_id = stored.atom_id@;
    let kind = kind_named(stored.atom_kind@)->0;
    match expected_state(decision) {
        None => Some(
            Fault::Integrity(
                "core receipt contains unsupported persisted decision "@ + decision->0.decision,
            ),
        ),
        Some(expected) => if (decision is Some && kind != MemoryKind::Episode) || (decision is None
            && kind != MemoryKind::Semantic) {
            Some(
                integrity_fault("post-state atom "@, atom_id, " has the wrong source/output kind"@),
            )
        } else {
            fault_when(
                state.retention_tier != expected.retention_tier || state.content_status
                    != expected.content_status || state.expires_at_us is Some
                    || state.superseded_by is Some || state.retirement_run_id != expected_run(
                    decision,
                ),
                integrity_fault("post-state atom "@, atom_id, " failed state authority"@),
            )
        },
    }
}

/// The fault of an atom whose columns are not those of the record of its body.
pub open spec fn post_columns_fault(
    stored: StoredPostStateAtom,
    atom: CoreAtom,
    state: StateView,
) -> Option<Fault> {
    let atom_id = stored.atom_id@;
    let body = atom.body;
    let authority = atom.authority;
    let topics = json_array(texts(body.topic_keys@))->Ok_0;
    let entities = json_array(texts(body.entity_ids@))->Ok_0;
    let searchable = lines(searchable_fields(body));
    let mismatch = integrity_fault(
        "post-state atom "@,
        atom_id,
        " failed body, header, or search authority"@,
    );
    if optional_bytes(stored.search_atom_id) != Some(atom_id) || optional_text(
        stored.searchable_text,
    ) != Some(searchable) || optional_text(stored.topic_keys_json) != Some(topics) || optional_text(
        stored.entity_ids_json,
    ) != Some(entities) || optional_text(stored.outcome_class) != optional_text(body.outcome_class)
        || authority.atom_id@ != atom_id || kind_name(body.payload.kind()) != stored.atom_kind@
        || body.scope.memory_space_id@ != stored.memory_space_id@ || optional_text(
        body.scope.repository_id,
    ) != optional_text(stored.repository_id) || optional_text(body.scope.task_id) != optional_text(
        stored.task_id,
    ) || optional_text(body.scope.agent_id) != optional_text(stored.agent_id) || Some(
        body.scope.session_id@,
    ) != optional_text(stored.session_id) {
        Some(mismatch)
    } else {
        either_fault(
            unsigned_fault(stored.recorded_at_us, "post-state recorded_at_us"@),
            if body.interval.recorded_at_us != stored.recorded_at_us || authority.atom_id@
                != stored.body_digest@ || stored.canonical_body->0@.len() != stored.body_bytes
                || permission_name(body.retention_permission) != stored.retention_permission@ {
                Some(mismatch)
            } else {
                either_fault(
                    digest_fault(stored.provenance_digest@, "post-state provenance_digest"@),
                    fault_when(
                        domain_digest(provenance_domain(), authority.canonical_provenance@)
                            != stored.provenance_digest@ || authority.canonical_body@
                            != stored.canonical_body->0@ || authority.json_projection@
                            != stored.json_projection->0@ || tier_name(state.retention_tier)
                            != stored.state.retention_tier@ || status_name(state.content_status)
                            != stored.state.content_status@ || sha256_of(
                            projection_transcript(
                                searchable,
                                topics,
                                entities,
                                optional_text(body.outcome_class),
                            ),
                        ) != stored.projection_digest->0@,
                        mismatch,
                    ),
                )
            },
        )
    }
}

/// The fault of an atom that must have its body. `fts_rows` is the number of full-text rows of the
/// atom with its searchable text.
pub open spec fn post_body_fault(
    stored: StoredPostStateAtom,
    parsed: Result<CoreAtom, String>,
    fts_rows: i64,
    state: StateView,
    is_source: bool,
    pins: Seq<Seq<u8>>,
) -> Option<Fault> {
    let atom_id = stored.atom_id@;
    if stored.canonical_body is None {
        Some(integrity_fault("post-state atom "@, atom_id, " is missing its body"@))
    } else if stored.json_projection is None {
        Some(integrity_fault("post-state atom "@, atom_id, " is missing its JSON projection"@))
    } else {
        match parsed {
            Err(text) => Some(Fault::Json(text@)),
            Ok(atom) => either_fault(
                record_fault(atom),
                if stored.projection_digest is None {
                    Some(
                        integrity_fault(
                            "post-state atom "@,
                            atom_id,
                            " is missing its projection digest"@,
                        ),
                    )
                } else {
                    either_fault(
                        digest_fault(
                            stored.projection_digest->0@,
                            "post-state projection_digest"@,
                        ),
                        either_fault(
                            post_columns_fault(stored, atom, state),
                            if fts_rows != 1 {
                                Some(
                                    integrity_fault(
                                        "post-state atom "@,
                                        atom_id,
                                        " failed FTS closure"@,
                                    ),
                                )
                            } else {
                                fault_when(
                                    is_source && digest_seq(
                                        atom.authority.retained_artifact_digests@,
                                    ) != pins,
                                    integrity_fault(
                                        "episodic winner "@,
                                        atom_id,
                                        " body does not match pinned artifact closure"@,
                                    ),
                                )
                            },
                        ),
                    )
                },
            ),
        }
    }
}

/// Whether an atom has kept neither body nor search projection nor pins.
pub open spec fn has_nothing_left(stored: StoredPostStateAtom, pins: Seq<Seq<u8>>) -> bool {
    &&& stored.canonical_body is None
    &&& stored.json_projection is None
    &&& stored.search_atom_id is None
    &&& stored.searchable_text is None
    &&& stored.topic_keys_json is None
    &&& stored.entity_ids_json is None
    &&& stored.projection_digest is None
    &&& pins.len() == 0
}

/// The fault of an atom that is not what its retirement calls for.
pub open spec fn post_atom_fault(
    stored: StoredPostStateAtom,
    parsed: Result<CoreAtom, String>,
    fts_rows: i64,
    memory_space_id: Seq<char>,
    decision: Option<BoundDecision>,
    pins: Seq<Seq<u8>>,
) -> Option<Fault> {
    let state = columns_state(stored.state);
    either_fault(
        post_header_fault(stored, memory_space_id),
        either_fault(
            columns_fault(stored.state, post_state_names()),
            either_fault(
                post_decision_fault(stored, state, decision),
                either_fault(
                    if expected_state(decision)->0.body_required {
                        post_body_fault(stored, parsed, fts_rows, state, decision is Some, pins)
                    } else {
                        fault_when(
                            !has_nothing_left(stored, pins),
                            integrity_fault(
                                "forgotten source "@,
                                stored.atom_id@,
                                " retains body, search, or pin state"@,
                            ),
                        )
                    },
                    either_fault(
                        unsigned_fault(stored.recorded_at_us, "post-state recorded_at_us"@),
                        either_fault(
                            permission_fault(stored.retention_permission@),
                            digest_fault(
                                stored.provenance_digest@,
                                "post-state provenance_digest"@,
                            ),
                        ),
                    ),
                ),
            ),
        ),
    )
}

/// The state of an atom after retirement that its rows give.
pub open spec fn post_atom_of(
    stored: StoredPostStateAtom,
    decision: Option<BoundDecision>,
    pins: Seq<Seq<u8>>,
    atom_hash_domain: Seq<u8>,
) -> PostAtomView {
    let state = columns_state(stored.state);
    PostAtomView {
        structure: StructureView {
            atom_id: stored.atom_id@,
            atom_kind: kind_named(stored.atom_kind@)->0,
            repository_id: optional_text(stored.repository_id),
            task_id: optional_text(stored.task_id),
            agent_id: optional_text(stored.agent_id),
            session_id: optional_text(stored.session_id),
            recorded_at_us: stored.recorded_at_us as u64,
            header_body_digest: stored.body_digest@,
            header_body_bytes: stored.body_bytes as u64,
            retention_permission: permission_named(stored.retention_permission@)->0,
            provenance_digest: stored.provenance_digest@,
            stored_body_digest: if expected_state(decision)->0.body_required {
                Some(domain_digest(atom_hash_domain, stored.canonical_body->0@))
            } else {
                None
            },
            retention_tier: state.retention_tier,
            content_status: state.content_status,
            expires_at_us: state.expires_at_us,
            superseded_by: state.superseded_by,
            retirement_run_bound: state.retirement_run_id is Some,
            search_projection_present: stored.search_atom_id is Some,
            pinned_artifact_digests: pins,
        },
        counters: CounterView {
            feedback_positive: state.feedback_positive,
            feedback_negative: state.feedback_negative,
            retrieval_count: state.retrieval_count,
        },
    }
}

/// Whether the rows of an atom are those of an earlier time, but for counters that have gone on.
pub open spec fn only_counted(before: StoredPostStateAtom, after: StoredPostStateAtom) -> bool {
    &&& after == (StoredPostStateAtom { state: after.state, ..before })
    &&& after.state == (StateColumns {
        feedback_positive: after.state.feedback_positive,
        feedback_negative: after.state.feedback_negative,
        retrieval_count: after.state.retrieval_count,
        ..before.state
    })
    &&& before.state.feedback_positive <= after.state.feedback_positive
    &&& before.state.feedback_negative <= after.state.feedback_negative
    &&& before.state.retrieval_count <= after.state.retrieval_count
}

/// An atom that is what its retirement calls for stays so while its counters go on, and its state
/// goes on from the earlier one.
pub proof fn lemma_counting_goes_on(
    before: StoredPostStateAtom,
    after: StoredPostStateAtom,
    parsed: Result<CoreAtom, String>,
    fts_rows: i64,
    memory_space_id: Seq<char>,
    decision: Option<BoundDecision>,
    pins: Seq<Seq<u8>>,
    atom_hash_domain: Seq<u8>,
)
    requires
        only_counted(before, after),
        post_atom_fault(before, parsed, fts_rows, memory_space_id, decision, pins) is None,
    ensures
        post_atom_fault(after, parsed, fts_rows, memory_space_id, decision, pins) is None,
        transition_fault(
            post_atom_of(before, decision, pins, atom_hash_domain),
            post_atom_of(after, decision, pins, atom_hash_domain),
        ) is None,
{
    let old_state = columns_state(before.state);
    let new_state = columns_state(after.state);
    assert(post_header_fault(after, memory_space_id) == post_header_fault(before, memory_space_id));
    assert(columns_fault(after.state, post_state_names()) is None);
    assert(post_decision_fault(after, new_state, decision) == post_decision_fault(
        before,
        old_state,
        decision,
    ));
    assert(post_body_fault(after, parsed, fts_rows, new_state, decision is Some, pins)
        == post_body_fault(before, parsed, fts_rows, old_state, decision is Some, pins));
}

fn check_post_header(stored: &StoredPostStateAtom, memory_space_id: &str) -> (checked: Result<
    ([u8; 32], [u8; 32], u64, MemoryKind),
    StoreError,
>)
    ensures
        fault_of(checked) == post_header_fault(*stored, memory_space_id@),
        checked matches Ok(checked) ==> checked.0@ == stored.atom_id@ && checked.1@
            == stored.body_digest@ && checked.2 == stored.body_bytes && Some(checked.3)
            == kind_named(stored.atom_kind@),
{
    let atom_id = digest_array(stored.atom_id.as_slice(), "post-state atom_id")?;
    let body_digest = digest_array(stored.body_digest.as_slice(), "post-state body_digest")?;
    let body_bytes: u64 = unsigned_integer(stored.body_bytes, "post-state body_bytes")?;
    let kind = match kind_from_store(stored.atom_kind.as_str()) {
        Some(kind) => kind,
        None => return Err(integrity_about("post-state atom ", &atom_id, " has invalid kind")),
    };
    if !same_text(stored.memory_space_id.as_str(), memory_space_id) || !same_digest(
        &body_digest,
        &atom_id,
    ) || body_bytes == 0 {
        return Err(
            integrity_about("post-state atom ", &atom_id, " failed header or scope authority"),
        );
    }
    Ok((atom_id, body_digest, body_bytes, kind))
}

fn check_post_decision(
    stored: &StoredPostStateAtom,
    atom_id: &[u8; 32],
    kind: MemoryKind,
    state: &AtomState,
    decision: &Option<SourceDecision>,
) -> (body_required: Result<bool, StoreError>)
    requires
        atom_id@ == stored.atom_id@,
        Some(kind) == kind_named(stored.atom_kind@),
    ensures
        fault_of(body_required) == post_decision_fault(*stored, state@, bound_decision(*decision)),
        body_required matches Ok(body_required) ==> expected_state(bound_decision(*decision)) is Some
            && body_required == expected_state(bound_decision(*decision))->0.body_required,
{
    let (tier, status, body_required): (RetentionTier, ContentStatus, bool) = match decision {
        None => (RetentionTier::SemanticLongTerm, ContentStatus::Present, true),
        Some(decision) => {
            let name = decision.decision.as_str();
            if same_text(name, "episodic_winner") || same_text(name, "semantic_and_episodic") {
                (RetentionTier::EpisodicLongTerm, ContentStatus::Present, true)
            } else if same_text(name, "semantic_source") || same_text(name, "forgotten") {
                (RetentionTier::HeaderOnly, ContentStatus::Forgotten, false)
            } else {
                return Err(
                    StoreError::Integrity(
                        text2("core receipt contains unsupported persisted decision ", name),
                    ),
                );
            }
        },
    };
    if (decision.is_some() && kind != MemoryKind::Episode) || (decision.is_none() && kind
        != MemoryKind::Semantic) {
        return Err(
            integrity_about("post-state atom ", atom_id, " has the wrong source/output kind"),
        );
    }
    let expected_run: Option<[u8; 32]> = match decision {
        Some(decision) => Some(decision.run_id),
        None => None,
    };
    assert(optional_digest(expected_run) == self::expected_run(bound_decision(*decision)));
    if state.retention_tier != tier || state.content_status != status
        || state.expires_at_us.is_some() || state.superseded_by.is_some() || !same_optional_digest(
        &state.retirement_run_id,
        &expected_run,
    ) {
        return Err(integrity_about("post-state atom ", atom_id, " failed state authority"));
    }
    Ok(body_required)
}

fn check_post_columns(
    stored: &StoredPostStateAtom,
    atom_id: &[u8; 32],
    state: &AtomState,
    expected: &AtomRecord,
    canonical_body: &Vec<u8>,
    json_projection: &String,
    projection_digest: &[u8; 32],
    Ghost(atom): Ghost<CoreAtom>,
) -> (verdict: Result<(), StoreError>)
    requires
        atom_id@ == stored.atom_id@,
        is_record_of(*expected, atom, *state),
        stored.canonical_body == Some(*canonical_body),
        stored.json_projection == Some(*json_projection),
        optional_bytes(stored.projection_digest) == Some(projection_digest@),
        unsigned_fault(stored.body_bytes, "post-state body_bytes"@) is None,
    ensures
        fault_of(verdict) == post_columns_fault(*stored, atom, state@),
{
    let mismatch = integrity_about(
        "post-state atom ",
        atom_id,
        " failed body, header, or search authority",
    );
    let holds_own_id = match &stored.search_atom_id {
        Some(id) => same_bytes(id.as_slice(), atom_id.as_slice()),
        None => false,
    };
    if !holds_own_id || !holds_text(&stored.searchable_text, expected.searchable_text.as_str())
        || !holds_text(&stored.topic_keys_json, expected.topic_keys_json.as_str()) || !holds_text(
        &stored.entity_ids_json,
        expected.entity_ids_json.as_str(),
    ) || !same_optional_text(&stored.outcome_class, &expected.outcome_class) || !same_digest(
        &expected.atom_id,
        atom_id,
    ) || !same_text(expected.atom_kind.as_str(), stored.atom_kind.as_str()) || !same_text(
        expected.memory_space_id.as_str(),
        stored.memory_space_id.as_str(),
    ) || !same_optional_text(&expected.repository_id, &stored.repository_id)
        || !same_optional_text(&expected.task_id, &stored.task_id) || !same_optional_text(
        &expected.agent_id,
        &stored.agent_id,
    ) || !same_optional_text(&expected.session_id, &stored.session_id) {
        return Err(mismatch);
    }
    let recorded_at_us: u64 = unsigned_integer(
        stored.recorded_at_us,
        "post-state recorded_at_us",
    )?;
    if expected.recorded_at_us != recorded_at_us || !same_bytes(
        expected.body_digest.as_slice(),
        stored.body_digest.as_slice(),
    ) || canonical_body.len() as u64 != stored.body_bytes as u64 || !same_text(
        expected.retention_permission.as_str(),
        stored.retention_permission.as_str(),
    ) {
        return Err(mismatch);
    }
    let provenance_digest = digest_array(
        stored.provenance_digest.as_slice(),
        "post-state provenance_digest",
    )?;
    let expected_projection = sha256_projection(expected);
    if !same_digest(&expected.provenance_digest, &provenance_digest) || !same_bytes(
        expected.canonical_body.as_slice(),
        canonical_body.as_slice(),
    ) || !same_text(expected.json_projection.as_str(), json_projection.as_str()) || !same_text(
        expected.retention_tier.as_str(),
        stored.state.retention_tier.as_str(),
    ) || !same_text(
        expected.content_status.as_str(),
        stored.state.content_status.as_str(),
    ) || !same_digest(&expected_projection, projection_digest) {
        return Err(mismatch);
    }
    Ok(())
}

fn check_post_body(
    stored: &StoredPostStateAtom,
    atom_id: &[u8; 32],
    parsed: &Result<CoreAtom, String>,
    fts_rows: i64,
    state: &AtomState,
    is_source: bool,
    pins: &Vec<[u8; 32]>,
    atom_hash_domain: &[u8],
) -> (body_digest: Result<[u8; 32], StoreError>)
    requires
        atom_id@ == stored.atom_id@,
        unsigned_fault(stored.body_bytes, "post-state body_bytes"@) is None,
    ensures
        fault_of(body_digest) == post_body_fault(
            *stored,
            *parsed,
            fts_rows,
            state@,
            is_source,
            digest_seq(pins@),
        ),
        body_digest matches Ok(digest) ==> stored.canonical_body is Some && digest@
            == domain_digest(atom_hash_domain@, stored.canonical_body->0@),
{
    let canonical_body = match &stored.canonical_body {
        Some(body) => body,
        None => return Err(integrity_about("post-state atom ", atom_id, " is missing its body")),
    };
    let json_projection = match &stored.json_projection {
        Some(json) => json,
        None => return Err(
            integrity_about("post-state atom ", atom_id, " is missing its JSON projection"),
        ),
    };
    let atom = match parsed {
        Ok(atom) => atom,
        Err(text) => return Err(StoreError::Json(text.clone())),
    };
    let expected = AtomRecord::from_core(atom, state)?;
    let projection_digest = match &stored.projection_digest {
        Some(digest) => digest,
        None => return Err(
            integrity_about("post-state atom ", atom_id, " is missing its projection digest"),
        ),
    };
    let projection_digest = digest_array(
        projection_digest.as_slice(),
        "post-state projection_digest",
    )?;
    check_post_columns(
        stored,
        atom_id,
        state,
        &expected,
        canonical_body,
        json_projection,
        &projection_digest,
        Ghost(*atom),
    )?;
    if fts_rows != 1 {
        return Err(integrity_about("post-state atom ", atom_id, " failed FTS closure"));
    }
    if is_source && !same_digests(
        atom.authority.retained_artifact_digests.as_slice(),
        pins.as_slice(),
    ) {
        return Err(
            integrity_about(
                "episodic winner ",
                atom_id,
                " body does not match pinned artifact closure",
            ),
        );
    }
    Ok(hash_prefixed(atom_hash_domain, canonical_body.as_slice()))
}

/// Reads the state of an atom after retirement and checks that it is what its retirement calls
/// for. `parsed` is what the JSON projection reads as, and `fts_rows` the number of full-text rows
/// of the atom with its searchable text; both are looked at only where the atom must have its
/// body.
pub fn post_state_atom_from_stored(
    stored: &StoredPostStateAtom,
    parsed: &Result<CoreAtom, String>,
    fts_rows: i64,
    memory_space_id: &str,
    decision: &Option<SourceDecision>,
    pins: Vec<[u8; 32]>,
    atom_hash_domain: &[u8],
) -> (atom: Result<RetirementPostStateAtom, StoreError>)
    ensures
        fault_of(atom) == post_atom_fault(
            *stored,
            *parsed,
            fts_rows,
            memory_space_id@,
            bound_decision(*decision),
            digest_seq(pins@),
        ),
        atom matches Ok(atom) ==> atom@ == post_atom_of(
            *stored,
            bound_decision(*decision),
            digest_seq(pins@),
            atom_hash_domain@,
        ),
{
    let (atom_id, header_body_digest, header_body_bytes, atom_kind) = check_post_header(
        stored,
        memory_space_id,
    )?;
    let labels = post_state_labels();
    let state = read_state(&stored.state, &labels)?;
    let body_required = check_post_decision(stored, &atom_id, atom_kind, &state, decision)?;
    let stored_body_digest: Option<[u8; 32]> = if body_required {
        Some(
            check_post_body(
                stored,
                &atom_id,
                parsed,
                fts_rows,
                &state,
                decision.is_some(),
                &pins,
                atom_hash_domain,
            )?,
        )
    } else {
        if stored.canonical_body.is_some() || stored.json_projection.is_some()
            || stored.search_atom_id.is_some() || stored.searchable_text.is_some()
            || stored.topic_keys_json.is_some() || stored.entity_ids_json.is_some()
            || stored.projection_digest.is_some() || pins.len() != 0 {
            return Err(
                integrity_about(
                    "forgotten source ",
                    &atom_id,
                    " retains body, search, or pin state",
                ),
            );
        }
        None
    };
    let recorded_at_us: u64 = unsigned_integer(
        stored.recorded_at_us,
        "post-state recorded_at_us",
    )?;
    let retention_permission = retention_permission_from_store(
        stored.retention_permission.as_str(),
    )?;
    let provenance_digest = digest_array(
        stored.provenance_digest.as_slice(),
        "post-state provenance_digest",
    )?;
    Ok(
        RetirementPostStateAtom {
            atom_id,
            atom_kind,
            repository_id: copy_optional_text(&stored.repository_id),
            task_id: copy_optional_text(&stored.task_id),
            agent_id: copy_optional_text(&stored.agent_id),
            session_id: copy_optional_text(&stored.session_id),
            recorded_at_us,
            header_body_digest,
            header_body_bytes,
            retention_permission,
            provenance_digest,
            stored_body_digest,
            retention_tier: state.retention_tier,
            content_status: state.content_status,
            expires_at_us: state.expires_at_us,
            superseded_by: state.superseded_by,
            feedback_positive: state.feedback_positive,
            feedback_negative: state.feedback_negative,
            retrieval_count: state.retrieval_count,
            retirement_run_bound: state.retirement_run_id.is_some(),
            search_projection_present: stored.search_atom_id.is_some(),
            pinned_artifact_digests: pins,
        },
    )
}

/// An atom goes on from its state after retirement exactly where nothing but its counters has
/// changed and none of them has gone back.
pub proof fn law_only_counters_go_on(
    historical: RetirementPostStateAtom,
    current: RetirementPostStateAtom,
)
    ensures
        transition_fault(historical@, current@) is None <==> {
            &&& historical.feedback_positive <= current.feedback_positive
            &&& historical.feedback_negative <= current.feedback_negative
            &&& historical.retrieval_count <= current.retrieval_count
            &&& historical.atom_id@ == current.atom_id@
            &&& historical.atom_kind == current.atom_kind
            &&& optional_text(historical.repository_id) == optional_text(current.repository_id)
            &&& optional_text(historical.task_id) == optional_text(current.task_id)
            &&& optional_text(historical.agent_id) == optional_text(current.agent_id)
            &&& optional_text(historical.session_id) == optional_text(current.session_id)
            &&& historical.recorded_at_us == current.recorded_at_us
            &&& historical.header_body_digest@ == current.header_body_digest@
            &&& historical.header_body_bytes == current.header_body_bytes
            &&& historical.retention_permission == current.retention_permission
            &&& historical.provenance_digest@ == current.provenance_digest@
            &&& optional_digest(historical.stored_body_digest) == optional_digest(
                current.stored_body_digest,
            )
            &&& historical.retention_tier == current.retention_tier
            &&& historical.content_status == current.content_status
            &&& historical.expires_at_us == current.expires_at_us
            &&& optional_digest(historical.superseded_by) == optional_digest(current.superseded_by)
            &&& historical.retirement_run_bound == current.retirement_run_bound
            &&& historical.search_projection_present == current.search_projection_present
            &&& digest_seq(historical.pinned_artifact_digests@) == digest_seq(
                current.pinned_artifact_digests@,
            )
        },
{
}

/// A live state goes on from the state after retirement exactly where it is of the same memory
/// space and has the same atoms, each of which goes on.
pub proof fn law_live_state_goes_on_atom_by_atom(historical: PostStateView, current: PostStateView)
    ensures
        live_state_fault(historical, current) is None <==> {
            &&& historical.memory_space_id == current.memory_space_id
            &&& historical.source_atoms.len() == current.source_atoms.len()
            &&& historical.semantic_atoms.len() == current.semantic_atoms.len()
            &&& forall|i: int|
                0 <= i < historical.source_atoms.len() ==> transition_fault(
                    #[trigger] historical.source_atoms[i],
                    current.source_atoms[i],
                ) is None
            &&& forall|i: int|
                0 <= i < historical.semantic_atoms.len() ==> transition_fault(
                    #[trigger] historical.semantic_atoms[i],
                    current.semantic_atoms[i],
                ) is None
        },
{
    if historical.source_atoms.len() == current.source_atoms.len()
        && historical.semantic_atoms.len() == current.semantic_atoms.len() {
        lemma_transitions(historical.source_atoms, current.source_atoms);
        lemma_transitions(historical.semantic_atoms, current.semantic_atoms);
    }
}

/// A retired source is what was decided of it: kept whole by a winning decision, a header without
/// anything else by a forgetting one, and bound to the run that decided it, with neither expiry nor
/// successor.
pub proof fn law_retired_source_is_what_was_decided(
    stored: StoredPostStateAtom,
    parsed: Result<CoreAtom, String>,
    fts_rows: i64,
    memory_space_id: Seq<char>,
    decision: BoundDecision,
    pins: Seq<Seq<u8>>,
)
    requires
        post_atom_fault(stored, parsed, fts_rows, memory_space_id, Some(decision), pins) is None,
    ensures
        ({
            let kept = decision.decision == "episodic_winner"@ || decision.decision
                == "semantic_and_episodic"@;
            let forgotten = decision.decision == "semantic_source"@ || decision.decision
                == "forgotten"@;
            let state = columns_state(stored.state);
            &&& kept || forgotten
            &&& kind_named(stored.atom_kind@) == Some(MemoryKind::Episode)
            &&& stored.memory_space_id@ == memory_space_id
            &&& stored.atom_id@.len() == 32
            &&& stored.body_digest@ == stored.atom_id@
            &&& stored.body_bytes > 0
            &&& stored.recorded_at_us >= 0
            &&& permission_named(stored.retention_permission@) is Some
            &&& stored.provenance_digest@.len() == 32
            &&& state.retirement_run_id == Some(decision.run_id)
            &&& state.expires_at_us is None
            &&& state.superseded_by is None
            &&& kept ==> {
                &&& state.retention_tier == RetentionTier::EpisodicLongTerm
                &&& state.content_status == ContentStatus::Present
                &&& stored.canonical_body is Some
                &&& stored.json_projection is Some
                &&& fts_rows == 1
                &&& parsed matches Ok(atom)
                &&& digest_seq(atom.authority.retained_artifact_digests@) == pins
            }
            &&& forgotten ==> {
                &&& state.retention_tier == RetentionTier::HeaderOnly
                &&& state.content_status == ContentStatus::Forgotten
                &&& stored.canonical_body is None
                &&& stored.json_projection is None
                &&& stored.search_atom_id is None
                &&& stored.searchable_text is None
                &&& stored.topic_keys_json is None
                &&& stored.entity_ids_json is None
                &&& stored.projection_digest is None
                &&& pins.len() == 0
            }
        }),
{
    lemma_decisions_differ();
}

proof fn lemma_decisions_differ()
    ensures
        "episodic_winner"@ != "semantic_source"@,
        "episodic_winner"@ != "forgotten"@,
        "semantic_and_episodic"@ != "semantic_source"@,
        "semantic_and_episodic"@ != "forgotten"@,
{
    reveal_strlit("episodic_winner");
    reveal_strlit("semantic_and_episodic");
    reveal_strlit("semantic_source");
    reveal_strlit("forgotten");
    assert("episodic_winner"@[0] == 'e');
    assert("semantic_source"@[0] == 's');
    assert("semantic_and_episodic"@.len() == 21);
    assert("semantic_source"@.len() == 15);
    assert("episodic_winner"@.len() == 15);
    assert("forgotten"@.len() == 9);
}

/// A forgotten source is accepted exactly as a header of its run with nothing else left.
pub proof fn law_forgotten_source_is_accepted_exactly_as_a_header(
    stored: StoredPostStateAtom,
    parsed: Result<CoreAtom, String>,
    fts_rows: i64,
    memory_space_id: Seq<char>,
    decision: BoundDecision,
    pins: Seq<Seq<u8>>,
)
    requires
        decision.decision == "semantic_source"@ || decision.decision == "forgotten"@,
        columns_fault(stored.state, post_state_names()) is None,
    ensures
        post_atom_fault(stored, parsed, fts_rows, memory_space_id, Some(decision), pins) is None
            <==> {
            let state = columns_state(stored.state);
            &&& kind_named(stored.atom_kind@) == Some(MemoryKind::Episode)
            &&& stored.memory_space_id@ == memory_space_id
            &&& stored.atom_id@.len() == 32
            &&& stored.body_digest@ == stored.atom_id@
            &&& stored.body_bytes > 0
            &&& stored.recorded_at_us >= 0
            &&& permission_named(stored.retention_permission@) is Some
            &&& stored.provenance_digest@.len() == 32
            &&& state.retention_tier == RetentionTier::HeaderOnly
            &&& state.content_status == ContentStatus::Forgotten
            &&& state.expires_at_us is None
            &&& state.superseded_by is None
            &&& state.retirement_run_id == Some(decision.run_id)
            &&& stored.canonical_body is None
            &&& stored.json_projection is None
            &&& stored.search_atom_id is None
            &&& stored.searchable_text is None
            &&& stored.topic_keys_json is None
            &&& stored.entity_ids_json is None
            &&& stored.projection_digest is None
            &&& pins.len() == 0
        },
{
    lemma_decisions_differ();
}

/// An output of a retirement is a present semantic atom with its body, bound to no run.
pub proof fn law_retirement_output_is_a_present_semantic_atom(
    stored: StoredPostStateAtom,
    parsed: Result<CoreAtom, String>,
    fts_rows: i64,
    memory_space_id: Seq<char>,
    pins: Seq<Seq<u8>>,
)
    requires
        post_atom_fault(stored, parsed, fts_rows, memory_space_id, None, pins) is None,
    ensures
        ({
            let state = columns_state(stored.state);
            &&& kind_named(stored.atom_kind@) == Some(MemoryKind::Semantic)
            &&& stored.memory_space_id@ == memory_space_id
            &&& stored.body_digest@ == stored.atom_id@
            &&& stored.body_bytes > 0
            &&& state.retention_tier == RetentionTier::SemanticLongTerm
            &&& state.content_status == ContentStatus::Present
            &&& state.expires_at_us is None
            &&& state.superseded_by is None
            &&& state.retirement_run_id is None
            &&& stored.canonical_body is Some
            &&& stored.json_projection is Some
            &&& fts_rows == 1
            &&& parsed is Ok
        }),
{
}

/// An atom that kept its body is accepted exactly where every column says what its body says.
pub proof fn law_kept_atom_says_what_its_body_says(
    stored: StoredPostStateAtom,
    atom: CoreAtom,
    state: StateView,
)
    requires
        stored.canonical_body is Some,
        stored.json_projection is Some,
        stored.projection_digest is Some,
        record_fault(atom) is None,
    ensures
        post_columns_fault(stored, atom, state) is None <==> {
            let body = atom.body;
            let topics = json_array(texts(body.topic_keys@))->Ok_0;
            let entities = json_array(texts(body.entity_ids@))->Ok_0;
            let searchable = lines(searchable_fields(body));
            &&& optional_bytes(stored.search_atom_id) == Some(stored.atom_id@)
            &&& optional_text(stored.searchable_text) == Some(searchable)
            &&& optional_text(stored.topic_keys_json) == Some(topics)
            &&& optional_text(stored.entity_ids_json) == Some(entities)
            &&& optional_text(stored.outcome_class) == optional_text(body.outcome_class)
            &&& atom.authority.atom_id@ == stored.atom_id@
            &&& atom.authority.atom_id@ == stored.body_digest@
            &&& stored.atom_kind@ == kind_name(body.payload.kind())
            &&& stored.memory_space_id@ == body.scope.memory_space_id@
            &&& optional_text(stored.repository_id) == optional_text(body.scope.repository_id)
            &&& optional_text(stored.task_id) == optional_text(body.scope.task_id)
            &&& optional_text(stored.agent_id) == optional_text(body.scope.agent_id)
            &&& optional_text(stored.session_id) == Some(body.scope.session_id@)
            &&& stored.recorded_at_us == body.interval.recorded_at_us
            &&& stored.body_bytes == stored.canonical_body->0@.len()
            &&& stored.retention_permission@ == permission_name(body.retention_permission)
            &&& stored.provenance_digest@.len() == 32
            &&& stored.provenance_digest@ == domain_digest(
                provenance_domain(),
                atom.authority.canonical_provenance@,
            )
            &&& stored.canonical_body->0@ == atom.authority.canonical_body@
            &&& stored.json_projection->0@ == atom.authority.json_projection@
            &&& stored.state.retention_tier@ == tier_name(state.retention_tier)
            &&& stored.state.content_status@ == status_name(state.content_status)
            &&& stored.projection_digest->0@ == sha256_of(
                projection_transcript(
                    searchable,
                    topics,
                    entities,
                    optional_text(body.outcome_class),
                ),
            )
        },
{
}

} // verus!
