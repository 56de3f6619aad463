//! The scale run: a cohort of synthetic atoms goes through storing, planning, proving, applying
//! and recall, and a report says what was seen.

use vstd::prelude::*;
use vstd::string::*;

use crate::digest::{Transcript, sha256_of};
use crate::error::fault_when;
use crate::evidence::{DEEP_SCALE_ATOM_COUNT, EvidenceError, refusal_of, refuse};
use crate::framing::{be64, be64_bytes, domain_hasher, utf8};
use crate::hexadecimal::{digest_hex, hex_text};
use crate::insertion::AtomBatchInsertOutcome;
use crate::model::{
    AtomState, ContentStatus, MemoryAtomBody, Observation, RetentionPermission, RetentionTier,
};
use crate::snapshot::{CohortKey, MICROSECONDS_PER_DAY};

verus! {

// ---------------------------------------------------------------------------------------------
// The cohort

/// Why a scale run of so many atoms is refused.
pub open spec fn scale_size_refusal(atoms: usize) -> Option<Seq<char>> {
    if atoms < 100 {
        Some("representative scale proof requires at least 100 atoms"@)
    } else if atoms > DEEP_SCALE_ATOM_COUNT {
        Some("atom count exceeds the 100,000-atom PoC envelope"@)
    } else {
        None
    }
}

/// Accepts the size of a scale run.
pub fn check_scale_size(atoms: usize) -> (verdict: Result<(), EvidenceError>)
    ensures
        refusal_of(verdict) == scale_size_refusal(atoms),
{
    if atoms < 100 {
        return Err(refuse("representative scale proof requires at least 100 atoms"));
    }
    if atoms > DEEP_SCALE_ATOM_COUNT {
        return Err(refuse("atom count exceeds the 100,000-atom PoC envelope"));
    }
    Ok(())
}

/// The day on which the atoms of a scale run expire.
pub open spec fn scale_cohort_day(stm_horizon_us: u64) -> int {
    (100 + stm_horizon_us) as int / MICROSECONDS_PER_DAY as int
}

/// Why a scale run with a horizon has no cohort: a time does not fit.
pub open spec fn scale_cohort_refusal(stm_horizon_us: u64) -> Option<Seq<char>> {
    if 100 + stm_horizon_us > u64::MAX {
        Some("scale STM expiry overflow"@)
    } else if (scale_cohort_day(stm_horizon_us) + 1) * MICROSECONDS_PER_DAY > u64::MAX {
        Some("scale retirement cohort boundary overflow"@)
    } else {
        None
    }
}

/// The cohort of a scale run: it retires at the end of the day on which its atoms expire.
pub fn scale_cohort(stm_horizon_us: u64) -> (key: Result<CohortKey, EvidenceError>)
    ensures
        refusal_of(key) == scale_cohort_refusal(stm_horizon_us),
        key matches Ok(key) ==> {
            &&& key.memory_space_id@ == "synthetic-space-v1"@
            &&& key.cohort_day == scale_cohort_day(stm_horizon_us)
            &&& key.as_of_us == (key.cohort_day + 1) * MICROSECONDS_PER_DAY
        },
{
    let expires_at_us: u64 = match 100u64.checked_add(stm_horizon_us) {
        Some(expires_at_us) => expires_at_us,
        None => {
            return Err(refuse("scale STM expiry overflow"));
        },
    };
    let cohort_day: u64 = expires_at_us / MICROSECONDS_PER_DAY;
    let as_of_us: u64 = match (cohort_day + 1).checked_mul(MICROSECONDS_PER_DAY) {
        Some(as_of_us) => as_of_us,
        None => {
            return Err(refuse("scale retirement cohort boundary overflow"));
        },
    };
    Ok(CohortKey { memory_space_id: "synthetic-space-v1".to_owned(), cohort_day, as_of_us })
}

/// The state of a new atom of a scale run.
pub fn scale_state(stm_horizon_us: u64) -> (state: AtomState)
    ensures
        state.retention_tier == RetentionTier::ShortTerm,
        state.content_status == ContentStatus::Present,
        state.expires_at_us == Some(
            if 100 + stm_horizon_us > u64::MAX {
                u64::MAX
            } else {
                (100 + stm_horizon_us) as u64
            },
        ),
        state.superseded_by is None,
        state.feedback_positive == 0,
        state.feedback_negative == 0,
        state.retrieval_count == 0,
        state.retirement_run_id is None,
{
    AtomState {
        retention_tier: RetentionTier::ShortTerm,
        content_status: ContentStatus::Present,
        expires_at_us: Some(100u64.saturating_add(stm_horizon_us)),
        superseded_by: None,
        feedback_positive: 0,
        feedback_negative: 0,
        retrieval_count: 0,
        retirement_run_id: None,
    }
}

/// Whether a body is a synthetic one made ready for a scale run: without artifacts, at fixed
/// times, and only the first hundred may be kept.
pub open spec fn is_scale_body(body: MemoryAtomBody, source: MemoryAtomBody, index: usize) -> bool {
    &&& body.artifacts@.len() == 0
    &&& body.observations@.len() == source.observations@.len()
    &&& forall|i: int|
        0 <= i < body.observations@.len() ==> {
            &&& (#[trigger] body.observations@[i]).artifact_digest is None
            &&& body.observations@[i].at_us == 92
            &&& body.observations@[i].content == source.observations@[i].content
        }
    &&& body.retention_permission == (if index < 100 {
        RetentionPermission::SemanticAndExactAllowed
    } else {
        RetentionPermission::TransientOnly
    })
    &&& body.interval.started_at_us == 90
    &&& body.interval.ended_at_us == 95
    &&& body.interval.recorded_at_us == 100
    &&& body.contract_version == source.contract_version
    &&& body.scope == source.scope
    &&& body.trigger == source.trigger
    &&& body.goal == source.goal
    &&& body.plan == source.plan
    &&& body.interpretations == source.interpretations
    &&& body.beliefs == source.beliefs
    &&& body.decisions == source.decisions
    &&& body.actions == source.actions
    &&& body.outcome_summary == source.outcome_summary
    &&& body.outcome_class == source.outcome_class
    &&& body.topic_keys == source.topic_keys
    &&& body.entity_ids == source.entity_ids
    &&& body.relations == source.relations
    &&& body.provenance == source.provenance
    &&& body.payload == source.payload
}

/// Makes a synthetic body ready for a scale run.
pub fn prepare_scale_body(source: MemoryAtomBody, index: usize) -> (body: MemoryAtomBody)
    ensures
        is_scale_body(body, source, index),
{
    let mut body = source;
    body.artifacts = Vec::new();
    let mut observations: Vec<Observation> = Vec::new();
    let mut i: usize = 0;
    while i < body.observations.len()
        invariant
            body == (MemoryAtomBody { artifacts: body.artifacts, ..source }),
            body.artifacts@.len() == 0,
            i <= source.observations@.len(),
            observations@.len() == i,
            forall|k: int|
                0 <= k < i ==> {
                    &&& (#[trigger] observations@[k]).artifact_digest is None
                    &&& observations@[k].at_us == 92
                    &&& observations@[k].content == source.observations@[k].content
                },
        decreases source.observations@.len() - i,
    {
        observations.push(
            Observation {
                at_us: 92,
                content: body.observations[i].content.clone(),
                artifact_digest: None,
            },
        );
        i += 1;
    }
    body.observations = observations;
    body.retention_permission = if index < 100 {
        RetentionPermission::SemanticAndExactAllowed
    } else {
        RetentionPermission::TransientOnly
    };
    body.interval.started_at_us = 90;
    body.interval.ended_at_us = 95;
    body.interval.recorded_at_us = 100;
    body
}

// ---------------------------------------------------------------------------------------------
// Sizes

/// A count times a percentage, as far as a machine word holds it, over a hundred.
pub open spec fn hundredths(count: int, percentage: int) -> int {
    if count * percentage > usize::MAX {
        usize::MAX as int / 100
    } else {
        count * percentage / 100
    }
}

fn hundredths_of(count: usize, percentage: usize) -> (share: usize)
    ensures
        share == hundredths(count as int, percentage as int),
{
    assert(count * percentage <= 0xffff_ffff_ffff_ffff * 0xffff_ffff_ffff_ffff)
        by (nonlinear_arith)
        requires
            0 <= count <= 0xffff_ffff_ffff_ffff,
            0 <= percentage <= 0xffff_ffff_ffff_ffff,
    ;
    let product: u128 = (count as u128) * (percentage as u128);
    if product > usize::MAX as u128 {
        usize::MAX / 100
    } else {
        (product / 100) as usize
    }
}

/// How large an atom of a scale run is: most have sixteen kibibytes, those from the ninety-fifth
/// percentile on sixty-four, and the last two hundred and fifty-six.
pub open spec fn target_size(index: int, atom_count: int) -> u64 {
    let last = if atom_count == 0 {
        0
    } else {
        atom_count - 1
    };
    if index < hundredths(last, 95) {
        16384
    } else if index < last {
        65536
    } else {
        262144
    }
}

/// How large an atom of a scale run is to be.
pub fn scale_target(index: usize, atom_count: usize) -> (target: u64)
    ensures
        target == target_size(index as int, atom_count as int),
{
    let last: usize = atom_count.saturating_sub(1);
    let p95_index: usize = hundredths_of(last, 95);
    if index < p95_index {
        16384
    } else if index < last {
        65536
    } else {
        262144
    }
}

/// Why no percentile is taken.
pub open spec fn percentile_refusal(count: nat, percentage: usize) -> Option<Seq<char>> {
    if count == 0 {
        Some("empty percentile input"@)
    } else if hundredths(count - 1, percentage as int) >= count {
        Some("percentile index is outside input"@)
    } else {
        None
    }
}

/// A percentile of an ascending list.
pub fn percentile(sorted: &[u64], percentage: usize) -> (value: Result<u64, EvidenceError>)
    ensures
        refusal_of(value) == percentile_refusal(sorted@.len(), percentage),
        value matches Ok(value) ==> value == sorted@[hundredths(
            sorted@.len() - 1,
            percentage as int,
        )],
{
    if sorted.len() == 0 {
        return Err(refuse("empty percentile input"));
    }
    let index: usize = hundredths_of(sorted.len() - 1, percentage);
    if index >= sorted.len() {
        return Err(refuse("percentile index is outside input"));
    }
    Ok(sorted[index])
}

/// Whether numbers stand in ascending order.
pub open spec fn ascends(list: Seq<u64>) -> bool {
    forall|i: int, j: int| 0 <= i < j < list.len() ==> #[trigger] list[i] <= #[trigger] list[j]
}

/// Puts numbers in ascending order.
#[verifier::loop_isolation(false)]
pub fn sort_numbers(list: Vec<u64>) -> (ordered: Vec<u64>)
    ensures
        ascends(ordered@),
        ordered@.to_multiset() == list@.to_multiset(),
{
    let mut ordered: Vec<u64> = Vec::new();
    let mut i: usize = 0;
    assert(ordered@ =~= list@.subrange(0, 0));
    while i < list.len()
        invariant
            i <= list@.len(),
            ascends(ordered@),
            ordered@.to_multiset() == list@.subrange(0, i as int).to_multiset(),
        decreases list@.len() - i,
    {
        let item: u64 = list[i];
        let ghost before = ordered@;
        let mut place: usize = ordered.len();
        while place > 0 && ordered[place - 1] > item
            invariant
                ordered@ == before,
                place <= ordered@.len(),
                forall|k: int| place <= k < ordered@.len() ==> #[trigger] ordered@[k] >= item,
            decreases place,
        {
            place -= 1;
        }
        ordered.insert(place, item);
        proof {
            let after = ordered@;
            let shorter = list@.subrange(0, i as int);
            let longer = list@.subrange(0, i + 1);
            assert(after =~= before.insert(place as int, item));
            assert(longer =~= shorter.push(item));
            vstd::seq_lib::to_multiset_insert(before, place as int, item);
            shorter.to_multiset_ensures();
            assert(after.to_multiset() =~= longer.to_multiset());
            assert forall|x: int, y: int| 0 <= x < y < after.len() implies #[trigger] after[x]
                <= #[trigger] after[y] by {
                let source_x = if x < place {
                    x
                } else {
                    x - 1
                };
                let source_y = if y < place {
                    y
                } else {
                    y - 1
                };
                if x != place {
                    assert(after[x] == before[source_x]);
                }
                if y != place {
                    assert(after[y] == before[source_y]);
                }
                if y == place && place > 0 {
                    assert(before[source_x] <= before[place - 1]);
                }
            }
        }
        i += 1;
    }
    assert(list@.subrange(0, i as int) =~= list@);
    ordered
}

/// The sizes that a scale run reports.
#[derive(Clone, Copy, Debug)]
pub struct ScaleSizes {
    pub p50_body_bytes: u64,
    pub p95_body_bytes: u64,
    pub maximum_body_bytes: u64,
}

/// Whether the sizes of a scale run are distributed as they should be.
pub open spec fn is_distributed(p50: u64, p95: u64, maximum: u64) -> bool {
    p50 == 16384 && p95 == 65536 && maximum == 262144
}

/// The sizes of atoms are those of an ascending list that holds each as often.
pub open spec fn are_sizes_of(measured: ScaleSizes, sizes: Seq<u64>, ordered: Seq<u64>) -> bool {
    &&& ascends(ordered)
    &&& ordered.to_multiset() == sizes.to_multiset()
    &&& measured.p50_body_bytes == ordered[hundredths(ordered.len() - 1, 50)]
    &&& measured.p95_body_bytes == ordered[hundredths(ordered.len() - 1, 95)]
    &&& measured.maximum_body_bytes == ordered.last()
}

/// Whether sizes are those of the atoms of a scale run.
pub open spec fn is_measure_of(measured: ScaleSizes, sizes: Seq<u64>) -> bool {
    exists|ordered: Seq<u64>| are_sizes_of(measured, sizes, ordered)
}

/// Measures the sizes of the atoms of a scale run.
pub fn measure_sizes(sizes: Vec<u64>) -> (measured: Result<ScaleSizes, EvidenceError>)
    ensures
        refusal_of(measured) == fault_when(sizes@.len() == 0, "empty percentile input"@),
        measured matches Ok(measured) ==> is_measure_of(measured, sizes@),
{
    let ghost all = sizes@;
    let ordered = sort_numbers(sizes);
    proof {
        all.to_multiset_ensures();
        ordered@.to_multiset_ensures();
        if ordered@.len() > 0 {
            lemma_share_is_within(ordered@.len() - 1, 50);
            lemma_share_is_within(ordered@.len() - 1, 95);
        }
    }
    let p50_body_bytes: u64 = percentile(ordered.as_slice(), 50)?;
    let p95_body_bytes: u64 = percentile(ordered.as_slice(), 95)?;
    let maximum_body_bytes: u64 = ordered[ordered.len() - 1];
    let measured = ScaleSizes { p50_body_bytes, p95_body_bytes, maximum_body_bytes };
    let ghost form = ordered@;
    assert(are_sizes_of(measured, all, form));
    Ok(measured)
}

proof fn lemma_share_is_within(count: int, percentage: int)
    requires
        0 <= count,
        0 <= percentage <= 100,
    ensures
        0 <= hundredths(count, percentage) <= count,
{
    assert(0 <= count * percentage <= count * 100) by (nonlinear_arith)
        requires
            0 <= count,
            0 <= percentage <= 100,
    ;
}

/// The sizes that the atoms of a scale run get are distributed as they should be: half have at
/// most sixteen kibibytes, the ninety-fifth percentile is sixty-four, and the largest has two
/// hundred and fifty-six.
pub proof fn law_target_sizes_are_distributed(atom_count: usize)
    requires
        scale_size_refusal(atom_count) is None,
    ensures
        ({
            let sizes = Seq::new(
                atom_count as nat,
                |i: int| target_size(i, atom_count as int),
            );
            &&& ascends(sizes)
            &&& is_distributed(
                sizes[hundredths(sizes.len() - 1, 50)],
                sizes[hundredths(sizes.len() - 1, 95)],
                sizes.last(),
            )
        }),
{
}

// ---------------------------------------------------------------------------------------------
// The stream of atoms

/// What a scale run remembers of the atoms it stored.
pub struct ScaleStream {
    pub sizes: Vec<u64>,
    pub logical_body_bytes: u64,
    pub transcript: Transcript,
}

/// What a scale run reports of the atoms it stored.
#[derive(Clone, Debug)]
pub struct ScaleLogicalV1 {
    pub sizes: Vec<u64>,
    pub logical_body_bytes: u64,
    pub atom_stream_digest: String,
}

/// Why an atom of a scale run is refused.
pub open spec fn scale_atom_refusal(total: u64, actual: nat, target: u64) -> Option<Seq<char>> {
    if actual != target {
        Some("scale atom did not reach its exact target size"@)
    } else if total + actual > u64::MAX {
        Some("scale byte total overflow"@)
    } else {
        None
    }
}

impl ScaleStream {
    /// A stream without atoms.
    pub fn new() -> (stream: Self)
        ensures
            stream.sizes@.len() == 0,
            stream.logical_body_bytes == 0,
            stream.transcript@ == utf8("naome-memory:scale-atom-stream:v1\0"@),
    {
        ScaleStream {
            sizes: Vec::new(),
            logical_body_bytes: 0,
            transcript: domain_hasher("naome-memory:scale-atom-stream:v1\0"),
        }
    }

    /// Takes the body of one more atom in: its identity, from the domain of atom identities, and
    /// its size.
    pub fn push(self, atom_hash_domain: &[u8], canonical_body: &[u8], target: u64) -> (next: Result<
        Self,
        EvidenceError,
    >)
        ensures
            refusal_of(next) == scale_atom_refusal(
                self.logical_body_bytes,
                canonical_body@.len(),
                target,
            ),
            next matches Ok(next) ==> {
                &&& next.sizes@ == self.sizes@.push(target)
                &&& next.logical_body_bytes == self.logical_body_bytes + target
                &&& next.transcript@ == self.transcript@ + sha256_of(
                    atom_hash_domain@ + canonical_body@,
                ) + be64(target as int)
            },
    {
        let ScaleStream { sizes, logical_body_bytes, transcript } = self;
        let actual: u64 = canonical_body.len() as u64;
        if actual != target {
            return Err(refuse("scale atom did not reach its exact target size"));
        }
        let hasher = Transcript::new().update(atom_hash_domain).update(canonical_body);
        assert(hasher@ =~= atom_hash_domain@ + canonical_body@);
        let atom_id = hasher.finish();
        let next_transcript = transcript.update(atom_id.as_slice()).update(
            be64_bytes(actual).as_slice(),
        );
        let total: u64 = match logical_body_bytes.checked_add(actual) {
            Some(total) => total,
            None => {
                return Err(refuse("scale byte total overflow"));
            },
        };
        let mut more = sizes;
        more.push(actual);
        Ok(ScaleStream { sizes: more, logical_body_bytes: total, transcript: next_transcript })
    }

    /// Closes the stream.
    pub fn finish(self) -> (logical: ScaleLogicalV1)
        ensures
            logical.sizes == self.sizes,
            logical.logical_body_bytes == self.logical_body_bytes,
            logical.atom_stream_digest@ == hex_text(sha256_of(self.transcript@)),
    {
        let ScaleStream { sizes, logical_body_bytes, transcript } = self;
        let digest = transcript.finish();
        ScaleLogicalV1 { sizes, logical_body_bytes, atom_stream_digest: digest_hex(&digest) }
    }
}

/// Why a body cannot be filled up to a size.
pub open spec fn padding_refusal(fixed_bytes: u64, target: u64) -> Option<Seq<char>> {
    fault_when(fixed_bytes > target, "scale atom framing exceeds target size"@)
}

/// How many characters fill a body up to its size.
pub fn scale_padding(fixed_bytes: u64, target: u64) -> (padding: Result<u64, EvidenceError>)
    ensures
        refusal_of(padding) == padding_refusal(fixed_bytes, target),
        padding matches Ok(padding) ==> fixed_bytes + padding == target,
{
    if fixed_bytes > target {
        return Err(refuse("scale atom framing exceeds target size"));
    }
    Ok(target - fixed_bytes)
}

/// Why the outcome of storing a batch of a scale run is refused.
pub open spec fn scale_batch_refusal(
    outcome: AtomBatchInsertOutcome,
    batch: usize,
) -> Option<Seq<char>> {
    fault_when(
        !(outcome.requested == batch && outcome.inserted == batch && outcome.already_present == 0),
        "scale batch was not inserted exactly once"@,
    )
}

/// Accepts the outcome of storing a batch of a scale run.
pub fn check_scale_batch(outcome: &AtomBatchInsertOutcome, batch: usize) -> (verdict: Result<
    (),
    EvidenceError,
>)
    ensures
        refusal_of(verdict) == scale_batch_refusal(*outcome, batch),
{
    if outcome.requested != batch || outcome.inserted != batch || outcome.already_present != 0 {
        return Err(refuse("scale batch was not inserted exactly once"));
    }
    Ok(())
}

/// A scale proof is of 100 to 100000 atoms.
pub proof fn law_scale_proof_has_its_size(atoms: usize)
    ensures
        scale_size_refusal(atoms) is None <==> 100 <= atoms <= 100_000,
{
}

/// The cohort of a scale proof is the day on which its atoms expire, and it can be retired exactly
/// where that expiry and the end of that day are times.
pub proof fn law_scale_cohort_is_the_day_of_expiry(stm_horizon_us: u64)
    ensures
        ({
            let day = scale_cohort_day(stm_horizon_us);
            &&& day * 86_400_000_000 <= 100 + stm_horizon_us < (day + 1) * 86_400_000_000
            &&& scale_cohort_refusal(stm_horizon_us) is None <==> 100 + stm_horizon_us <= u64::MAX
                && (day + 1) * 86_400_000_000 <= u64::MAX
        }),
{
}

/// A percentile is taken exactly of a list that is not empty, for a percentage of at most a hundred,
/// and is then at that share of the way from the first to the last place.
pub proof fn law_percentile_is_taken_by_place(count: nat, percentage: usize)
    requires
        0 < count,
        percentage <= 100,
        (count - 1) * percentage <= usize::MAX,
    ensures
        percentile_refusal(count, percentage) is None,
        100 * hundredths(count - 1, percentage as int) <= (count - 1) * percentage,
        (count - 1) * percentage < 100 * (hundredths(count - 1, percentage as int) + 1),
        percentile_refusal(0, percentage) is Some,
{
    let product = (count - 1) * percentage;
    assert(product <= (count - 1) * 100) by (nonlinear_arith)
        requires
            product == (count - 1) * percentage,
            percentage <= 100,
            count > 0,
    ;
}

/// An atom is taken into the stream exactly at its exact size, as long as the total is a number.
pub proof fn law_scale_atom_has_its_exact_size(total: u64, actual: nat, target: u64)
    ensures
        scale_atom_refusal(total, actual, target) is None <==> actual == target && total + actual
            <= u64::MAX,
        padding_refusal(total, target) is None <==> total <= target,
{
}

/// A batch of a scale proof is accepted exactly where every atom of it was inserted and none was
/// there.
pub proof fn law_scale_batch_is_inserted_exactly_once(
    outcome: AtomBatchInsertOutcome,
    batch: usize,
)
    ensures
        scale_batch_refusal(outcome, batch) is None <==> outcome.requested == batch
            && outcome.inserted == batch && outcome.already_present == 0,
{
}

/// The sizes of a scale proof are three: small for 95 of a hundred atoms, the greatest for the last
/// and the middle one for the rest.
pub proof fn law_target_size_is_one_of_three(index: int, atom_count: int)
    requires
        0 <= index < atom_count <= 100_000,
    ensures
        index == atom_count - 1 ==> target_size(index, atom_count) == 256 * 1024,
        index < atom_count - 1 && 100 * (index + 1) <= 95 * (atom_count - 1) ==> target_size(
            index,
            atom_count,
        ) == 16 * 1024,
        index < atom_count - 1 && 100 * index >= 95 * (atom_count - 1) ==> target_size(
            index,
            atom_count,
        ) == 64 * 1024,
{
}

/// In a scale proof exactly the first hundred atoms may be kept exactly, no atom has an artifact,
/// and every observation lies within the interval of its atom.
pub proof fn law_scale_body_is_bounded(
    body: MemoryAtomBody,
    source: MemoryAtomBody,
    index: usize,
    i: int,
)
    requires
        is_scale_body(body, source, index),
    ensures
        body.retention_permission is SemanticAndExactAllowed <==> index < 100,
        body.retention_permission is TransientOnly <==> index >= 100,
        body.artifacts@.len() == 0,
        body.interval.started_at_us < body.interval.ended_at_us,
        body.interval.ended_at_us < body.interval.recorded_at_us,
        body.observations@.len() == source.observations@.len(),
        0 <= i < body.observations@.len() ==> {
            &&& body.observations@[i].content == source.observations@[i].content
            &&& body.observations@[i].artifact_digest is None
            &&& body.interval.started_at_us <= body.observations@[i].at_us
            &&& body.observations@[i].at_us <= body.interval.ended_at_us
        },
        body.scope == source.scope,
        body.payload == source.payload,
        body.provenance == source.provenance,
        body.relations == source.relations,
        body.topic_keys == source.topic_keys,
        body.entity_ids == source.entity_ids,
{
}

/// What is measured of some sizes are sizes that occur, in order: the median, the 95th percentile
/// and the greatest, than which none is greater.
pub proof fn law_measured_sizes_occur(measured: ScaleSizes, sizes: Seq<u64>, i: int)
    requires
        is_measure_of(measured, sizes),
        sizes.len() <= 100_000,
        0 <= i < sizes.len(),
    ensures
        sizes.contains(measured.p50_body_bytes),
        sizes.contains(measured.p95_body_bytes),
        sizes.contains(measured.maximum_body_bytes),
        measured.p50_body_bytes <= measured.p95_body_bytes,
        measured.p95_body_bytes <= measured.maximum_body_bytes,
        sizes[i] <= measured.maximum_body_bytes,
{
    broadcast use vstd::seq_lib::group_to_multiset_ensures;

    let ordered = choose|ordered: Seq<u64>| are_sizes_of(measured, sizes, ordered);
    assert(ordered.len() == ordered.to_multiset().len());
    assert(sizes.len() == sizes.to_multiset().len());
    let half = hundredths(ordered.len() - 1, 50);
    let most = hundredths(ordered.len() - 1, 95);
    let last = ordered.len() - 1;
    assert(0 <= half <= most <= last);
    assert forall|k: int| 0 <= k < ordered.len() implies sizes.contains(#[trigger] ordered[k]) by {
        assert(ordered.contains(ordered[k]));
        assert(ordered.to_multiset().count(ordered[k]) > 0);
        assert(sizes.to_multiset().count(ordered[k]) > 0);
    }
    assert(sizes.contains(ordered[half]));
    assert(sizes.contains(ordered[most]));
    assert(sizes.contains(ordered[last]));
    assert(sizes.contains(sizes[i]));
    assert(sizes.to_multiset().count(sizes[i]) > 0);
    assert(ordered.to_multiset().count(sizes[i]) > 0);
    assert(ordered.contains(sizes[i]));
    let k = ordered.index_of(sizes[i]);
    if k < last {
        assert(ordered[k] <= ordered[last]);
    }
}

} // verus!
