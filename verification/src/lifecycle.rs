//! The states that an atom may be in: when it is first stored, and at any later time.

use vstd::prelude::*;
use vstd::string::*;

use crate::edges::{
    RetirementDecisions, RetirementRuns, decision_views, pair_key, run_views,
};
use crate::error::{Fault, StoreError, either_fault, fault_of, fault_when, invalid_input};
use crate::messages::{about_pair, integrity_about, integrity_about_pair, integrity_fault};
use crate::model::{
    AtomState, ContentStatus, MemoryKind, Payload, RetentionTier, StateView, kind_name,
    same_optional_u64,
};
use crate::stored::same_digest;
use crate::tables::{Headers, header_views};
use crate::text::same_text;

verus! {

/// The fault of a state that an atom cannot be stored with for the first time.
pub open spec fn initial_state_fault(
    kind: MemoryKind,
    recorded_at_us: u64,
    state: StateView,
    stm_horizon_us: u64,
) -> Option<Fault> {
    if state.superseded_by is Some || state.feedback_positive != 0 || state.feedback_negative != 0
        || state.retrieval_count != 0 || state.retirement_run_id is Some {
        Some(
            Fault::InvalidInput(
                "initial typed atom insertion cannot import mutable counters, supersession, or a retirement-run binding"@,
            ),
        )
    } else if state.content_status != ContentStatus::Present {
        Some(Fault::InvalidInput("typed atom insertion requires present immutable content"@))
    } else {
        match (kind, state.retention_tier) {
            (MemoryKind::Episode, RetentionTier::ShortTerm) => if recorded_at_us + stm_horizon_us
                > u64::MAX {
                Some(
                    Fault::InvalidInput("episode recorded time plus STM horizon overflows u64"@),
                )
            } else {
                fault_when(
                    state.expires_at_us != Some((recorded_at_us + stm_horizon_us) as u64),
                    Fault::InvalidInput(
                        "STM episode expiry must equal recorded_at_us plus the policy horizon"@,
                    ),
                )
            },
            (MemoryKind::Episode, RetentionTier::EpisodicLongTerm)
            | (MemoryKind::Episode, RetentionTier::DualLongTerm)
            | (MemoryKind::Semantic, RetentionTier::SemanticLongTerm) => fault_when(
                state.expires_at_us is Some,
                Fault::InvalidInput("initial long-term atom state must not carry an STM expiry"@),
            ),
            _ => Some(
                Fault::InvalidInput("atom kind and initial retention tier are incoherent"@),
            ),
        }
    }
}

/// Checks the state that an atom is stored with for the first time.
pub fn validate_initial_atom_state(
    payload: &Payload,
    recorded_at_us: u64,
    state: &AtomState,
    stm_horizon_us: u64,
) -> (verdict: Result<(), StoreError>)
    ensures
        fault_of(verdict) == initial_state_fault(
            payload.kind(),
            recorded_at_us,
            state@,
            stm_horizon_us,
        ),
{
    if state.superseded_by.is_some() || state.feedback_positive != 0 || state.feedback_negative != 0
        || state.retrieval_count != 0 || state.retirement_run_id.is_some() {
        return Err(
            invalid_input(
                "initial typed atom insertion cannot import mutable counters, supersession, or a retirement-run binding",
            ),
        );
    }
    if state.content_status != ContentStatus::Present {
        return Err(invalid_input("typed atom insertion requires present immutable content"));
    }
    match (payload, state.retention_tier) {
        (Payload::Episode(_), RetentionTier::ShortTerm) => {
            let expected_expiry: u64 = match recorded_at_us.checked_add(stm_horizon_us) {
                Some(expiry) => expiry,
                None => return Err(
                    invalid_input("episode recorded time plus STM horizon overflows u64"),
                ),
            };
            if !same_optional_u64(state.expires_at_us, Some(expected_expiry)) {
                return Err(
                    invalid_input(
                        "STM episode expiry must equal recorded_at_us plus the policy horizon",
                    ),
                );
            }
        },
        (Payload::Episode(_), RetentionTier::EpisodicLongTerm)
        | (Payload::Episode(_), RetentionTier::DualLongTerm)
        | (Payload::Semantic(_), RetentionTier::SemanticLongTerm) => {
            if state.expires_at_us.is_some() {
                return Err(
                    invalid_input("initial long-term atom state must not carry an STM expiry"),
                );
            }
        },
        _ => {
            return Err(invalid_input("atom kind and initial retention tier are incoherent"));
        },
    }
    Ok(())
}

/// Whether an atom with a body can have the status.
pub open spec fn bears_body(status: ContentStatus) -> bool {
    status == ContentStatus::Present || status == ContentStatus::Corrupt
}

/// Whether the parts of a state fit each other and the kind of the atom.
pub open spec fn is_coherent_state(
    kind: Seq<char>,
    recorded_at_us: u64,
    state: StateView,
    stm_horizon_us: u64,
) -> bool {
    match state.retention_tier {
        RetentionTier::ShortTerm => {
            &&& kind == "episode"@
            &&& bears_body(state.content_status)
            &&& state.retirement_run_id is None
            &&& state.superseded_by is None
            &&& state.expires_at_us == (if recorded_at_us + stm_horizon_us > u64::MAX {
                None
            } else {
                Some((recorded_at_us + stm_horizon_us) as u64)
            })
        },
        RetentionTier::SemanticLongTerm => {
            &&& kind == "semantic"@
            &&& bears_body(state.content_status)
            &&& state.expires_at_us is None
            &&& state.retirement_run_id is None
        },
        RetentionTier::EpisodicLongTerm | RetentionTier::DualLongTerm => {
            &&& kind == "episode"@
            &&& bears_body(state.content_status)
            &&& state.expires_at_us is None
            &&& state.superseded_by is None
            &&& state.retirement_run_id is Some
        },
        RetentionTier::HeaderOnly => {
            &&& state.content_status == ContentStatus::Forgotten
            &&& state.expires_at_us is None
            &&& state.superseded_by is None
            &&& state.retirement_run_id is Some
        },
    }
}

/// Whether a retirement decision leads to a tier.
pub open spec fn decision_leads_to(decision: Seq<char>, tier: RetentionTier) -> bool {
    match tier {
        RetentionTier::EpisodicLongTerm => decision == "episodic_winner"@ || decision
            == "semantic_and_episodic"@,
        RetentionTier::DualLongTerm => decision == "semantic_and_episodic"@,
        RetentionTier::HeaderOnly => decision == "semantic_source"@ || decision == "forgotten"@,
        RetentionTier::ShortTerm | RetentionTier::SemanticLongTerm => false,
    }
}

/// The fault of a supersession: its target must be another semantic atom of the memory space.
pub open spec fn supersession_fault(
    atom_id: Seq<u8>,
    kind: Seq<char>,
    memory_space_id: Seq<char>,
    target: Seq<u8>,
    headers: Headers,
) -> Option<Fault> {
    let known = header_views(headers);
    if !known.contains_key(target) {
        Some(integrity_fault("atom "@, atom_id, " supersession target is missing"@))
    } else {
        fault_when(
            target == atom_id || kind != "semantic"@ || known[target].atom_kind != "semantic"@
                || known[target].memory_space_id != memory_space_id,
            integrity_fault("atom "@, atom_id, " has an invalid supersession boundary"@),
        )
    }
}

/// The fault of a binding to a retirement run: the run must be applied, belong to the memory space
/// and have decided that the atom has the tier it has.
pub open spec fn run_binding_fault(
    atom_id: Seq<u8>,
    memory_space_id: Seq<char>,
    tier: RetentionTier,
    run_id: Seq<u8>,
    runs: RetirementRuns,
    decisions: RetirementDecisions,
) -> Option<Fault> {
    let known = run_views(runs);
    let decided = decision_views(decisions);
    if !known.contains_key(run_id) {
        Some(
            Fault::Integrity(
                about_pair(
                    "atom "@,
                    atom_id,
                    " references missing retirement run "@,
                    run_id,
                    ""@,
                ),
            ),
        )
    } else if !decided.contains_key(run_id + atom_id) {
        Some(integrity_fault("atom "@, atom_id, " has no decision in its retirement run"@))
    } else {
        fault_when(
            known[run_id].status != "applied"@ || known[run_id].memory_space_id != memory_space_id
                || !decision_leads_to(decided[run_id + atom_id], tier),
            integrity_fault("atom "@, atom_id, " failed retirement-run state closure"@),
        )
    }
}

/// The fault of a mutable state: incoherent, wrongly superseded or wrongly bound to a run.
pub open spec fn state_fault(
    atom_id: Seq<u8>,
    kind: Seq<char>,
    memory_space_id: Seq<char>,
    recorded_at_us: u64,
    state: StateView,
    headers: Headers,
    runs: RetirementRuns,
    decisions: RetirementDecisions,
    stm_horizon_us: u64,
) -> Option<Fault> {
    if !is_coherent_state(kind, recorded_at_us, state, stm_horizon_us) {
        Some(integrity_fault("atom "@, atom_id, " has an invalid complete mutable state"@))
    } else {
        either_fault(
            match state.superseded_by {
                Some(target) => supersession_fault(atom_id, kind, memory_space_id, target, headers),
                None => None,
            },
            match state.retirement_run_id {
                Some(run_id) => run_binding_fault(
                    atom_id,
                    memory_space_id,
                    state.retention_tier,
                    run_id,
                    runs,
                    decisions,
                ),
                None => None,
            },
        )
    }
}

fn coherent_state(kind: &str, recorded_at_us: u64, state: &AtomState, stm_horizon_us: u64) -> (coherent:
    bool)
    ensures
        coherent == is_coherent_state(kind@, recorded_at_us, state@, stm_horizon_us),
{
    let bears_body = state.content_status == ContentStatus::Present || state.content_status
        == ContentStatus::Corrupt;
    match state.retention_tier {
        RetentionTier::ShortTerm => same_text(kind, "episode") && bears_body
            && state.retirement_run_id.is_none() && state.superseded_by.is_none()
            && same_optional_u64(state.expires_at_us, recorded_at_us.checked_add(stm_horizon_us)),
        RetentionTier::SemanticLongTerm => same_text(kind, "semantic") && bears_body
            && state.expires_at_us.is_none() && state.retirement_run_id.is_none(),
        RetentionTier::EpisodicLongTerm | RetentionTier::DualLongTerm => same_text(kind, "episode")
            && bears_body && state.expires_at_us.is_none() && state.superseded_by.is_none()
            && state.retirement_run_id.is_some(),
        RetentionTier::HeaderOnly => state.content_status == ContentStatus::Forgotten
            && state.expires_at_us.is_none() && state.superseded_by.is_none()
            && state.retirement_run_id.is_some(),
    }
}

fn leads_to(decision: &str, tier: RetentionTier) -> (leads: bool)
    ensures
        leads == decision_leads_to(decision@, tier),
{
    match tier {
        RetentionTier::EpisodicLongTerm => same_text(decision, "episodic_winner") || same_text(
            decision,
            "semantic_and_episodic",
        ),
        RetentionTier::DualLongTerm => same_text(decision, "semantic_and_episodic"),
        RetentionTier::HeaderOnly => same_text(decision, "semantic_source") || same_text(
            decision,
            "forgotten",
        ),
        RetentionTier::ShortTerm | RetentionTier::SemanticLongTerm => false,
    }
}

/// Checks the complete mutable state of a stored atom.
pub fn validate_complete_mutable_state(
    atom_id: &[u8; 32],
    kind: &str,
    memory_space_id: &str,
    recorded_at_us: u64,
    state: &AtomState,
    headers: &Headers,
    runs: &RetirementRuns,
    decisions: &RetirementDecisions,
    stm_horizon_us: u64,
) -> (verdict: Result<(), StoreError>)
    ensures
        fault_of(verdict) == state_fault(
            atom_id@,
            kind@,
            memory_space_id@,
            recorded_at_us,
            state@,
            *headers,
            *runs,
            *decisions,
            stm_horizon_us,
        ),
{
    if !coherent_state(kind, recorded_at_us, state, stm_horizon_us) {
        return Err(integrity_about("atom ", atom_id, " has an invalid complete mutable state"));
    }
    if let Some(target) = &state.superseded_by {
        let header = match headers.get(target.as_slice()) {
            Some(header) => header,
            None => return Err(
                integrity_about("atom ", atom_id, " supersession target is missing"),
            ),
        };
        if same_digest(target, atom_id) || !same_text(kind, "semantic") || !same_text(
            header.atom_kind.as_str(),
            "semantic",
        ) || !same_text(header.memory_space_id.as_str(), memory_space_id) {
            return Err(
                integrity_about("atom ", atom_id, " has an invalid supersession boundary"),
            );
        }
    }
    if let Some(run_id) = &state.retirement_run_id {
        let run = match runs.get(run_id.as_slice()) {
            Some(run) => run,
            None => return Err(
                integrity_about_pair(
                    "atom ",
                    atom_id,
                    " references missing retirement run ",
                    run_id,
                    "",
                ),
            ),
        };
        let key = pair_key(run_id, atom_id);
        let decision = match decisions.get(key.as_slice()) {
            Some(decision) => decision,
            None => return Err(
                integrity_about("atom ", atom_id, " has no decision in its retirement run"),
            ),
        };
        if !same_text(run.status.as_str(), "applied") || !same_text(
            run.memory_space_id.as_str(),
            memory_space_id,
        ) || !leads_to(decision.as_str(), state.retention_tier) {
            return Err(integrity_about("atom ", atom_id, " failed retirement-run state closure"));
        }
    }
    Ok(())
}

/// A short-term episode or a long-term semantic atom that may be stored for the first time is in a
/// state that later passes the check of stored states, whatever headers, runs and decisions there
/// are by then.
pub proof fn law_admitted_state_stays_valid(
    kind: MemoryKind,
    recorded_at_us: u64,
    state: StateView,
    stm_horizon_us: u64,
    atom_id: Seq<u8>,
    memory_space_id: Seq<char>,
    headers: Headers,
    runs: RetirementRuns,
    decisions: RetirementDecisions,
)
    requires
        initial_state_fault(kind, recorded_at_us, state, stm_horizon_us) is None,
        state.retention_tier == RetentionTier::ShortTerm || state.retention_tier
            == RetentionTier::SemanticLongTerm,
    ensures
        state_fault(
            atom_id,
            kind_name(kind),
            memory_space_id,
            recorded_at_us,
            state,
            headers,
            runs,
            decisions,
            stm_horizon_us,
        ) is None,
{
}

/// What a retirement leaves of an atom passes the check of stored states, and nothing else does: an
/// atom that is bound to an applied run of its memory space may be a present long-term episode
/// where it was decided to be kept, whether or not a semantic atom came of it, and may be forgotten
/// where a semantic atom came of it or where it was just forgotten; under no decision may it be
/// both or anything else.
pub proof fn law_retired_state_is_what_was_decided(
    atom_id: Seq<u8>,
    memory_space_id: Seq<char>,
    tier: RetentionTier,
    run_id: Seq<u8>,
    runs: RetirementRuns,
    decisions: RetirementDecisions,
)
    ensures
        run_binding_fault(atom_id, memory_space_id, tier, run_id, runs, decisions) is None <==> {
            &&& run_views(runs).contains_key(run_id)
            &&& run_views(runs)[run_id].status == "applied"@
            &&& run_views(runs)[run_id].memory_space_id == memory_space_id
            &&& decision_views(decisions).contains_key(run_id + atom_id)
            &&& ({
                let name = decision_views(decisions)[run_id + atom_id];
                ||| tier == RetentionTier::EpisodicLongTerm && name == "episodic_winner"@
                ||| tier == RetentionTier::EpisodicLongTerm && name == "semantic_and_episodic"@
                ||| tier == RetentionTier::DualLongTerm && name == "semantic_and_episodic"@
                ||| tier == RetentionTier::HeaderOnly && name == "semantic_source"@
                ||| tier == RetentionTier::HeaderOnly && name == "forgotten"@
            })
        },
{
}

/// The state that applying a decision leaves is valid: a winner is a present long-term episode
/// without an expiry, a source of a semantic atom and a forgotten atom are forgotten headers, and
/// both are bound to the run, whatever their counters. The same names lead to no other tier.
pub proof fn law_applied_decision_leaves_a_valid_state(
    atom_id: Seq<u8>,
    memory_space_id: Seq<char>,
    recorded_at_us: u64,
    state: StateView,
    headers: Headers,
    runs: RetirementRuns,
    decisions: RetirementDecisions,
    stm_horizon_us: u64,
    run_id: Seq<u8>,
)
    requires
        run_views(runs).contains_key(run_id),
        run_views(runs)[run_id].status == "applied"@,
        run_views(runs)[run_id].memory_space_id == memory_space_id,
        decision_views(decisions).contains_key(run_id + atom_id),
        state.retirement_run_id == Some(run_id),
        state.expires_at_us is None,
        state.superseded_by is None,
    ensures
        ({
            let name = decision_views(decisions)[run_id + atom_id];
            let fault = state_fault(
                atom_id,
                "episode"@,
                memory_space_id,
                recorded_at_us,
                state,
                headers,
                runs,
                decisions,
                stm_horizon_us,
            );
            &&& name == "episodic_winner"@ ==> (fault is None <==> state.retention_tier
                == RetentionTier::EpisodicLongTerm && state.content_status
                != ContentStatus::Forgotten)
            &&& name == "semantic_and_episodic"@ ==> (fault is None <==> (state.retention_tier
                == RetentionTier::EpisodicLongTerm || state.retention_tier
                == RetentionTier::DualLongTerm) && state.content_status
                != ContentStatus::Forgotten)
            &&& name == "semantic_source"@ || name == "forgotten"@ ==> (fault is None
                <==> state.retention_tier == RetentionTier::HeaderOnly && state.content_status
                == ContentStatus::Forgotten)
        }),
{
    reveal_strlit("episodic_winner");
    reveal_strlit("semantic_and_episodic");
    reveal_strlit("semantic_source");
    reveal_strlit("forgotten");
    assert("episodic_winner"@.len() == 15);
    assert("semantic_and_episodic"@.len() == 21);
    assert("semantic_source"@.len() == 15);
    assert("forgotten"@.len() == 9);
    assert("episodic_winner"@[0] == 'e');
    assert("semantic_source"@[0] == 's');
    assert(kind_name(MemoryKind::Episode) == "episode"@);
}

/// An atom that no run has retired is a short-term episode that expires exactly one horizon after
/// it was recorded, or a long-term semantic atom without an expiry; both have a body.
pub proof fn law_unretired_state_is_short_term_or_semantic(
    atom_id: Seq<u8>,
    kind: Seq<char>,
    memory_space_id: Seq<char>,
    recorded_at_us: u64,
    state: StateView,
    headers: Headers,
    runs: RetirementRuns,
    decisions: RetirementDecisions,
    stm_horizon_us: u64,
)
    requires
        state.retirement_run_id is None,
        state.superseded_by is None,
        recorded_at_us + stm_horizon_us <= u64::MAX,
    ensures
        state_fault(
            atom_id,
            kind,
            memory_space_id,
            recorded_at_us,
            state,
            headers,
            runs,
            decisions,
            stm_horizon_us,
        ) is None <==> {
            &&& state.content_status != ContentStatus::Forgotten
            &&& {
                ||| {
                    &&& kind == "episode"@
                    &&& state.retention_tier == RetentionTier::ShortTerm
                    &&& state.expires_at_us matches Some(expiry)
                    &&& expiry - recorded_at_us == stm_horizon_us
                }
                ||| {
                    &&& kind == "semantic"@
                    &&& state.retention_tier == RetentionTier::SemanticLongTerm
                    &&& state.expires_at_us is None
                }
            }
        },
{
}

/// A semantic atom is superseded only by another semantic atom of its memory space, and a
/// superseded atom is valid exactly then.
pub proof fn law_supersession_stays_among_semantic_atoms(
    atom_id: Seq<u8>,
    kind: Seq<char>,
    memory_space_id: Seq<char>,
    target: Seq<u8>,
    headers: Headers,
)
    ensures
        supersession_fault(atom_id, kind, memory_space_id, target, headers) is None <==> {
            &&& header_views(headers).contains_key(target)
            &&& target != atom_id
            &&& kind == "semantic"@
            &&& header_views(headers)[target].atom_kind == "semantic"@
            &&& header_views(headers)[target].memory_space_id == memory_space_id
        },
{
}

/// An atom is first stored exactly in a fresh state: present, never counted, superseded or bound;
/// a short-term episode with the expiry of its horizon, a long-term episode or a semantic atom
/// without one, and no other tier for its kind.
pub proof fn law_first_state_is_fresh(
    kind: MemoryKind,
    recorded_at_us: u64,
    state: StateView,
    stm_horizon_us: u64,
)
    ensures
        initial_state_fault(kind, recorded_at_us, state, stm_horizon_us) is None <==> {
            &&& state.content_status == ContentStatus::Present
            &&& state.feedback_positive == 0
            &&& state.feedback_negative == 0
            &&& state.retrieval_count == 0
            &&& state.superseded_by is None
            &&& state.retirement_run_id is None
            &&& {
                ||| {
                    &&& kind == MemoryKind::Episode
                    &&& state.retention_tier == RetentionTier::ShortTerm
                    &&& state.expires_at_us matches Some(expiry)
                    &&& expiry - recorded_at_us == stm_horizon_us
                }
                ||| {
                    &&& kind == MemoryKind::Episode
                    &&& (state.retention_tier == RetentionTier::EpisodicLongTerm
                        || state.retention_tier == RetentionTier::DualLongTerm)
                    &&& state.expires_at_us is None
                }
                ||| {
                    &&& kind == MemoryKind::Semantic
                    &&& state.retention_tier == RetentionTier::SemanticLongTerm
                    &&& state.expires_at_us is None
                }
            }
        },
{
}

/// The state of an atom is valid exactly in one of five courses: a short-term episode until its
/// horizon, a semantic atom, an episode that a run kept, one that a run kept both ways, or a header
/// that a run left; with a body for as long as it is not a header, superseded only as a semantic
/// atom by another one, and bound to a run exactly where a run decided it.
pub proof fn law_state_is_valid_exactly_in_its_course(
    atom_id: Seq<u8>,
    kind: Seq<char>,
    memory_space_id: Seq<char>,
    recorded_at_us: u64,
    state: StateView,
    headers: Headers,
    runs: RetirementRuns,
    decisions: RetirementDecisions,
    stm_horizon_us: u64,
)
    requires
        recorded_at_us + stm_horizon_us <= u64::MAX,
    ensures
        state_fault(
            atom_id,
            kind,
            memory_space_id,
            recorded_at_us,
            state,
            headers,
            runs,
            decisions,
            stm_horizon_us,
        ) is None <==> {
            let retired = state.retirement_run_id is Some;
            let superseded = state.superseded_by is Some;
            let bears = state.content_status is Present || state.content_status is Corrupt;
            &&& {
                ||| {
                    &&& state.retention_tier is ShortTerm
                    &&& kind == "episode"@
                    &&& bears && !retired && !superseded
                    &&& state.expires_at_us matches Some(expiry)
                    &&& expiry == recorded_at_us + stm_horizon_us
                }
                ||| {
                    &&& state.retention_tier is SemanticLongTerm
                    &&& kind == "semantic"@
                    &&& bears && !retired
                    &&& state.expires_at_us is None
                }
                ||| {
                    &&& state.retention_tier is EpisodicLongTerm
                        || state.retention_tier is DualLongTerm
                    &&& kind == "episode"@
                    &&& bears && retired && !superseded
                    &&& state.expires_at_us is None
                }
                ||| {
                    &&& state.retention_tier is HeaderOnly
                    &&& state.content_status is Forgotten
                    &&& retired && !superseded
                    &&& state.expires_at_us is None
                }
            }
            &&& state.superseded_by matches Some(target) ==> {
                &&& header_views(headers).contains_key(target)
                &&& target != atom_id
                &&& header_views(headers)[target].atom_kind == "semantic"@
                &&& header_views(headers)[target].memory_space_id == memory_space_id
            }
            &&& state.retirement_run_id matches Some(run_id) ==> run_binding_fault(
                atom_id,
                memory_space_id,
                state.retention_tier,
                run_id,
                runs,
                decisions,
            ) is None
        },
{
    reveal_strlit("episode");
    reveal_strlit("semantic");
    assert("episode"@.len() == 7);
    assert("semantic"@.len() == 8);
}

} // verus!
