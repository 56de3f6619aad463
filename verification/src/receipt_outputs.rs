//! Proof receipts: the semantic outputs of a run, the sources that they were made from, and the
//! decisions that follow from both.

use vstd::prelude::*;
use vstd::string::*;

use crate::body::{digest_keys, source_digest_keys};
use crate::bytemap::{ByteMap, ByteSet, same_members};
use crate::error::{Fault, StoreError, either_fault, fault_of, fault_when, integrity};
use crate::folding::{
    first_fault, folded, lemma_first_fault_step, lemma_first_fault_stops, lemma_folded_step,
    lemma_folded_stops,
};
use crate::messages::{about_pair, integrity_about, integrity_about_pair, integrity_fault};
use crate::model::{CoreAtom, Payload, Policy, SemanticPayload, SourceDigest};
use crate::receipt_closure::{
    DecisionView, RunDecision, capped_share, ceil_count, decision_list,
};
use crate::receipt_fields::ProofReceipt;
use crate::stored::{digest_seq, same_digest};
use crate::text::{same_bytes, same_text};

verus! {

/// The stored header and body of a semantic output, and what its JSON projection reads as.
#[derive(Debug)]
pub struct OutputRow {
    pub atom_kind: String,
    pub memory_space_id: String,
    pub body_digest: Vec<u8>,
    pub canonical_body: Vec<u8>,
    pub json_projection: String,
    pub parsed: Result<CoreAtom, String>,
}

pub proof fn lemma_pushed_set(list: Seq<Seq<u8>>, item: Seq<u8>)
    ensures
        list.push(item).to_set() == list.to_set().insert(item),
{
    let longer = list.push(item);
    assert forall|member: Seq<u8>|
        longer.to_set().contains(member) <==> list.to_set().insert(item).contains(member) by {
        if longer.contains(member) {
            let i = longer.index_of(member);
            if i < list.len() {
                assert(list[i] == member);
            }
        }
        if list.contains(member) {
            assert(longer[list.index_of(member)] == member);
        }
        if member == item {
            assert(longer[list.len() as int] == item);
        }
    }
    assert(longer.to_set() =~= list.to_set().insert(item));
}

/// A set of atoms, and whether none was listed twice.
pub struct IdSet {
    pub members: ByteSet,
    pub distinct: bool,
}

/// Collects a list of atoms as a set.
pub fn collect_ids(ids: &Vec<[u8; 32]>) -> (set: IdSet)
    ensures
        set.members@ == digest_seq(ids@).to_set(),
        set.distinct == digest_seq(ids@).no_duplicates(),
{
    let ghost all = digest_seq(ids@);
    let mut members = ByteSet::new();
    let mut distinct = true;
    let mut i: usize = 0;
    assert(all.subrange(0, 0) =~= Seq::<Seq<u8>>::empty());
    assert(members@ =~= all.subrange(0, 0).to_set());
    while i < ids.len()
        invariant
            all == digest_seq(ids@),
            i <= ids@.len(),
            members@ == all.subrange(0, i as int).to_set(),
            distinct == all.subrange(0, i as int).no_duplicates(),
        decreases ids@.len() - i,
    {
        let ghost before = all.subrange(0, i as int);
        let ghost after = all.subrange(0, i + 1);
        proof {
            assert(after =~= before.push(all[i as int]));
            lemma_pushed_set(before, all[i as int]);
            if before.no_duplicates() && !before.contains(all[i as int]) {
                assert forall|m: int, n: int|
                    0 <= m < after.len() && 0 <= n < after.len() && m != n implies after[m]
                    != after[n] by {
                    if m < i && n < i {
                        assert(before[m] == after[m] && before[n] == after[n]);
                    } else if m < i {
                        assert(before[m] == after[m]);
                        assert(before.contains(before[m]));
                    } else if n < i {
                        assert(before[n] == after[n]);
                        assert(before.contains(before[n]));
                    }
                }
            }
            if after.no_duplicates() {
                assert forall|m: int, n: int|
                    0 <= m < before.len() && 0 <= n < before.len() && m != n implies before[m]
                    != before[n] by {
                    assert(before[m] == after[m] && before[n] == after[n]);
                }
                if before.contains(all[i as int]) {
                    let m = before.index_of(all[i as int]);
                    assert(after[m] == after[i as int]);
                }
            }
        }
        let fresh = members.insert(ids[i].as_slice());
        if !fresh {
            distinct = false;
        }
        i += 1;
    }
    assert(all.subrange(0, i as int) =~= all);
    IdSet { members, distinct }
}

/// Whether every member of one set is one of another.
#[verifier::loop_isolation(false)]
fn is_subset(a: &ByteSet, b: &ByteSet) -> (subset: bool)
    ensures
        subset == a@.subset_of(b@),
{
    let count: usize = a.len();
    let mut i: usize = 0;
    while i < count
        invariant
            i <= count == a.ordered().len(),
            forall|k: int| 0 <= k < i ==> b@.contains(#[trigger] a.ordered()[k]),
        decreases count - i,
    {
        let member = a.member_at(i);
        if !b.contains(member.as_slice()) {
            return false;
        }
        i += 1;
    }
    assert forall|key: Seq<u8>| a@.contains(key) implies b@.contains(key) by {
        assert(a.ordered().contains(key));
        assert(b@.contains(a.ordered()[a.ordered().index_of(key)]));
    }
    true
}

/// Adds a list of atoms to a set.
pub fn add_ids(set: ByteSet, ids: &Vec<[u8; 32]>) -> (joined: ByteSet)
    ensures
        joined@ == set@.union(digest_seq(ids@).to_set()),
{
    let ghost all = digest_seq(ids@);
    let ghost start = set@;
    let mut joined = set;
    let mut i: usize = 0;
    assert(all.subrange(0, 0) =~= Seq::<Seq<u8>>::empty());
    assert(joined@ =~= start.union(all.subrange(0, 0).to_set()));
    while i < ids.len()
        invariant
            all == digest_seq(ids@),
            i <= ids@.len(),
            joined@ == start.union(all.subrange(0, i as int).to_set()),
        decreases ids@.len() - i,
    {
        joined.insert(ids[i].as_slice());
        proof {
            let before = all.subrange(0, i as int);
            assert(all.subrange(0, i + 1) =~= before.push(all[i as int]));
            lemma_pushed_set(before, all[i as int]);
            assert(joined@ =~= start.union(all.subrange(0, i + 1).to_set()));
        }
        i += 1;
    }
    assert(all.subrange(0, i as int) =~= all);
    joined
}

/// The bytes of the outputs so far, and the atoms that they were made from.
#[verifier::ext_equal]
pub struct OutputTotals {
    pub bytes: nat,
    pub sources: Set<Seq<u8>>,
}

/// The fault of an output whose stored form is not that of a semantic atom of the memory space.
pub open spec fn output_authority_fault(
    row: OutputRow,
    typed: CoreAtom,
    space: Seq<char>,
    output: Seq<u8>,
) -> Option<Fault> {
    if row.atom_kind@ != "semantic"@ || row.memory_space_id@ != space
        || typed.authority.atom_id@ != output || row.body_digest@ != output
        || row.canonical_body@ != typed.authority.canonical_body@ {
        Some(
            integrity_fault(
                "receipt semantic atom "@,
                output,
                " failed authority or scope verification"@,
            ),
        )
    } else {
        fault_when(
            typed.body.payload is Episode,
            integrity_fault("receipt semantic atom "@, output, " has episode payload"@),
        )
    }
}

/// The fault of a source whose stored body is not the one that an output was made from.
pub open spec fn source_digest_fault(
    headers: Map<Seq<u8>, Vec<u8>>,
    output: Seq<u8>,
    source: SourceDigest,
) -> Option<Fault> {
    if !headers.contains_key(source.atom_id@) {
        Some(Fault::Sqlite("Query returned no rows"@))
    } else {
        fault_when(
            headers[source.atom_id@]@ != source.body_digest@,
            Fault::Integrity(
                about_pair(
                    "semantic atom "@,
                    output,
                    " source digest mismatch for "@,
                    source.atom_id@,
                    ""@,
                ),
            ),
        )
    }
}

/// The fault of an output whose sources are not sources of the run, each once and with its digest.
pub open spec fn output_sources_fault(
    headers: Map<Seq<u8>, Vec<u8>>,
    sources: Set<Seq<u8>>,
    payload: SemanticPayload,
    output: Seq<u8>,
) -> Option<Fault> {
    let ids = digest_seq(payload.source_ids@);
    either_fault(
        fault_when(
            ids.to_set() != digest_keys(payload.source_body_digests@).to_set()
                || !ids.to_set().subset_of(sources) || !ids.no_duplicates(),
            integrity_fault("receipt semantic atom "@, output, " has incomplete source provenance"@),
        ),
        first_fault(
            payload.source_body_digests@,
            |source: SourceDigest| source_digest_fault(headers, output, source),
        ),
    )
}

/// The totals with one more output.
pub open spec fn add_output(
    rows: Map<Seq<u8>, OutputRow>,
    headers: Map<Seq<u8>, Vec<u8>>,
    space: Seq<char>,
    sources: Set<Seq<u8>>,
    totals: OutputTotals,
    output: Seq<u8>,
) -> Result<OutputTotals, Fault> {
    if !rows.contains_key(output) {
        Err(integrity_fault("receipt semantic atom "@, output, " is missing"@))
    } else {
        let row = rows[output];
        match row.parsed {
            Err(text) => Err(Fault::Json(text@)),
            Ok(typed) => if totals.bytes + row.canonical_body@.len() > u64::MAX {
                Err(Fault::Integrity("semantic body byte count overflow"@))
            } else {
                match output_authority_fault(row, typed, space, output) {
                    Some(fault) => Err(fault),
                    None => match output_sources_fault(
                        headers,
                        sources,
                        typed.body.payload->Semantic_0,
                        output,
                    ) {
                        Some(fault) => Err(fault),
                        None => Ok(
                            OutputTotals {
                                bytes: totals.bytes + row.canonical_body@.len(),
                                sources: totals.sources.union(
                                    digest_seq(
                                        typed.body.payload->Semantic_0.source_ids@,
                                    ).to_set(),
                                ),
                            },
                        ),
                    },
                }
            },
        }
    }
}

/// The totals of a list of outputs.
pub open spec fn output_totals(
    rows: Map<Seq<u8>, OutputRow>,
    headers: Map<Seq<u8>, Vec<u8>>,
    space: Seq<char>,
    sources: Set<Seq<u8>>,
    outputs: Seq<[u8; 32]>,
) -> Result<OutputTotals, Fault> {
    folded(
        outputs,
        OutputTotals { bytes: 0, sources: Set::empty() },
        |totals: OutputTotals, output: [u8; 32]|
            add_output(rows, headers, space, sources, totals, output@),
    )
}

fn check_source_digest(headers: &ByteMap<Vec<u8>>, output: &[u8; 32], source: &SourceDigest) -> (verdict:
    Result<(), StoreError>)
    ensures
        fault_of(verdict) == source_digest_fault(headers@, output@, *source),
{
    let stored = match headers.get(source.atom_id.as_slice()) {
        Some(stored) => stored,
        None => return Err(StoreError::Sqlite("Query returned no rows".to_owned())),
    };
    if !same_bytes(stored.as_slice(), source.body_digest.as_slice()) {
        return Err(
            integrity_about_pair(
                "semantic atom ",
                output,
                " source digest mismatch for ",
                &source.atom_id,
                "",
            ),
        );
    }
    Ok(())
}

#[verifier::loop_isolation(false)]
fn check_output_sources(
    headers: &ByteMap<Vec<u8>>,
    sources: &ByteSet,
    payload: &SemanticPayload,
    output: &[u8; 32],
) -> (verdict: Result<(), StoreError>)
    ensures
        fault_of(verdict) == output_sources_fault(headers@, sources@, *payload, output@),
{
    let ids = collect_ids(&payload.source_ids);
    let keys = source_digest_keys(&payload.source_body_digests);
    let digests = collect_ids(&keys);
    if !same_members(&ids.members, &digests.members) || !is_subset(&ids.members, sources)
        || !ids.distinct {
        return Err(
            integrity_about(
                "receipt semantic atom ",
                output,
                " has incomplete source provenance",
            ),
        );
    }
    let ghost faulty = |source: SourceDigest| source_digest_fault(headers@, output@, source);
    let ghost all = payload.source_body_digests@;
    let mut i: usize = 0;
    assert(all.subrange(0, 0) =~= Seq::<SourceDigest>::empty());
    while i < payload.source_body_digests.len()
        invariant
            i <= all.len(),
            first_fault(all.subrange(0, i as int), faulty) is None,
        decreases all.len() - i,
    {
        proof {
            lemma_first_fault_step(all, faulty, i as int);
        }
        match check_source_digest(headers, output, &payload.source_body_digests[i]) {
            Ok(_) => {},
            Err(error) => {
                proof {
                    lemma_first_fault_stops(all, faulty, i + 1);
                }
                return Err(error);
            },
        }
        i += 1;
    }
    assert(all.subrange(0, i as int) =~= all);
    Ok(())
}

/// The bytes of the outputs of a run, and the atoms that they were made from.
pub struct Outputs {
    pub bytes: u64,
    pub sources: ByteSet,
}

impl View for Outputs {
    type V = OutputTotals;

    open spec fn view(&self) -> OutputTotals {
        OutputTotals { bytes: self.bytes as nat, sources: self.sources@ }
    }
}

fn take_output(
    rows: &ByteMap<OutputRow>,
    headers: &ByteMap<Vec<u8>>,
    space: &str,
    sources: &ByteSet,
    totals: Outputs,
    output: &[u8; 32],
) -> (next: Result<Outputs, StoreError>)
    ensures
        match next {
            Ok(next) => add_output(rows@, headers@, space@, sources@, totals@, output@) == Ok::<
                OutputTotals,
                Fault,
            >(next@),
            Err(error) => add_output(rows@, headers@, space@, sources@, totals@, output@) == Err::<
                OutputTotals,
                Fault,
            >(error@),
        },
{
    let row = match rows.get(output.as_slice()) {
        Some(row) => row,
        None => return Err(integrity_about("receipt semantic atom ", output, " is missing")),
    };
    let typed = match &row.parsed {
        Ok(typed) => typed,
        Err(text) => return Err(StoreError::Json(text.clone())),
    };
    let bytes: u64 = match totals.bytes.checked_add(row.canonical_body.len() as u64) {
        Some(sum) => sum,
        None => return Err(integrity("semantic body byte count overflow")),
    };
    if !same_text(row.atom_kind.as_str(), "semantic") || !same_text(
        row.memory_space_id.as_str(),
        space,
    ) || !same_digest(&typed.authority.atom_id, output) || !same_bytes(
        row.body_digest.as_slice(),
        output.as_slice(),
    ) || !same_bytes(
        row.canonical_body.as_slice(),
        typed.authority.canonical_body.as_slice(),
    ) {
        return Err(
            integrity_about(
                "receipt semantic atom ",
                output,
                " failed authority or scope verification",
            ),
        );
    }
    match &typed.body.payload {
        Payload::Episode(_) => Err(
            integrity_about("receipt semantic atom ", output, " has episode payload"),
        ),
        Payload::Semantic(payload) => {
            check_output_sources(headers, sources, payload, output)?;
            let joined = add_ids(totals.sources, &payload.source_ids);
            Ok(Outputs { bytes, sources: joined })
        },
    }
}

/// Totals the outputs of a run and checks each.
#[verifier::loop_isolation(false)]
pub fn total_outputs(
    rows: &ByteMap<OutputRow>,
    headers: &ByteMap<Vec<u8>>,
    space: &str,
    sources: &ByteSet,
    outputs: &Vec<[u8; 32]>,
) -> (totals: Result<Outputs, StoreError>)
    ensures
        match totals {
            Ok(totals) => output_totals(rows@, headers@, space@, sources@, outputs@) == Ok::<
                OutputTotals,
                Fault,
            >(totals@),
            Err(error) => output_totals(rows@, headers@, space@, sources@, outputs@) == Err::<
                OutputTotals,
                Fault,
            >(error@),
        },
{
    let ghost start = OutputTotals { bytes: 0, sources: Set::empty() };
    let ghost step = |totals: OutputTotals, output: [u8; 32]|
        add_output(rows@, headers@, space@, sources@, totals, output@);
    let mut totals = Outputs { bytes: 0, sources: ByteSet::new() };
    let mut i: usize = 0;
    assert(totals@ =~= start);
    assert(outputs@.subrange(0, 0) =~= Seq::<[u8; 32]>::empty());
    while i < outputs.len()
        invariant
            i <= outputs@.len(),
            folded(outputs@.subrange(0, i as int), start, step) == Ok::<OutputTotals, Fault>(
                totals@,
            ),
        decreases outputs@.len() - i,
    {
        proof {
            lemma_folded_step(outputs@, start, step, i as int);
        }
        match take_output(rows, headers, space, sources, totals, &outputs[i]) {
            Ok(next) => {
                totals = next;
            },
            Err(error) => {
                proof {
                    lemma_folded_stops(outputs@, start, step, i + 1);
                }
                return Err(error);
            },
        }
        i += 1;
    }
    assert(outputs@.subrange(0, i as int) =~= outputs@);
    Ok(totals)
}

// ---------------------------------------------------------------------------------------------
// What the decisions must be

/// The decision about an atom that follows from being a source of an output and from being kept.
pub open spec fn closed_decision(is_source: bool, is_kept: bool) -> Seq<char> {
    if is_source && is_kept {
        "semantic_and_episodic"@
    } else if is_source {
        "semantic_source"@
    } else if is_kept {
        "episodic_winner"@
    } else {
        "forgotten"@
    }
}

/// The fault of a decision that does not follow from the outputs and the winners.
pub open spec fn classification_fault(
    sources: Set<Seq<u8>>,
    kept: Set<Seq<u8>>,
    decision: DecisionView,
) -> Option<Fault> {
    fault_when(
        decision.decision != closed_decision(
            sources.contains(decision.atom_id),
            kept.contains(decision.atom_id),
        ),
        integrity_fault(
            "persisted decision classification for "@,
            decision.atom_id,
            " is not closed by outputs"@,
        ),
    )
}

fn check_classification(sources: &ByteSet, kept: &ByteSet, decision: &RunDecision) -> (verdict:
    Result<(), StoreError>)
    ensures
        fault_of(verdict) == classification_fault(sources@, kept@, decision@),
{
    let is_source = sources.contains(decision.atom_id.as_slice());
    let is_kept = kept.contains(decision.atom_id.as_slice());
    let expected = if is_source && is_kept {
        "semantic_and_episodic"
    } else if is_source {
        "semantic_source"
    } else if is_kept {
        "episodic_winner"
    } else {
        "forgotten"
    };
    if !same_text(decision.decision.as_str(), expected) {
        return Err(
            integrity_about(
                "persisted decision classification for ",
                &decision.atom_id,
                " is not closed by outputs",
            ),
        );
    }
    Ok(())
}

/// The fault of a receipt whose outputs, decisions or semantic budget do not follow from each
/// other.
pub open spec fn outputs_fault(
    receipt: ProofReceipt,
    decisions: Seq<DecisionView>,
    rows: Map<Seq<u8>, OutputRow>,
    headers: Map<Seq<u8>, Vec<u8>>,
    policy: Policy,
) -> Option<Fault> {
    let sources = digest_seq(receipt.closure.source_atom_ids@);
    let outputs = digest_seq(receipt.closure.semantic_atom_ids@);
    let kept = digest_seq(receipt.closure.exact_episode_ids@).to_set();
    let budget = capped_share(
        policy.semantic_rate_ppm,
        decisions.len(),
        policy.semantic_count_max,
    );
    if !sources.no_duplicates() || !outputs.no_duplicates() {
        Some(Fault::Integrity("receipt closure contains duplicate atom IDs"@))
    } else {
        match output_totals(
            rows,
            headers,
            receipt.memory_space_id@,
            sources.to_set(),
            receipt.closure.semantic_atom_ids@,
        ) {
            Err(fault) => Some(fault),
            Ok(totals) => either_fault(
                first_fault(
                    decisions,
                    |decision: DecisionView| classification_fault(totals.sources, kept, decision),
                ),
                fault_when(
                    receipt.semantic_count_budget != budget || outputs.len() > budget
                        || receipt.semantic_body_bytes != totals.bytes,
                    Fault::Integrity("receipt semantic count or byte closure mismatch"@),
                ),
            ),
        }
    }
}

/// Checks that the outputs of a receipt are stored, that its decisions follow from them and from
/// the winners, and that they are within the semantic budget.
#[verifier::loop_isolation(false)]
pub fn check_outputs(
    receipt: &ProofReceipt,
    decisions: &Vec<RunDecision>,
    rows: &ByteMap<OutputRow>,
    headers: &ByteMap<Vec<u8>>,
    policy: &Policy,
) -> (verdict: Result<(), StoreError>)
    ensures
        fault_of(verdict) == outputs_fault(
            *receipt,
            decision_list(decisions@),
            rows@,
            headers@,
            *policy,
        ),
{
    let sources = collect_ids(&receipt.closure.source_atom_ids);
    let outputs = collect_ids(&receipt.closure.semantic_atom_ids);
    if !sources.distinct || !outputs.distinct {
        return Err(integrity("receipt closure contains duplicate atom IDs"));
    }
    let totals = total_outputs(
        rows,
        headers,
        receipt.memory_space_id.as_str(),
        &sources.members,
        &receipt.closure.semantic_atom_ids,
    )?;
    let kept = collect_ids(&receipt.closure.exact_episode_ids);
    let ghost faulty = |decision: DecisionView|
        classification_fault(totals.sources@, kept.members@, decision);
    let ghost all = decision_list(decisions@);
    let mut i: usize = 0;
    assert(all.subrange(0, 0) =~= Seq::<DecisionView>::empty());
    while i < decisions.len()
        invariant
            i <= decisions@.len(),
            first_fault(all.subrange(0, i as int), faulty) is None,
        decreases decisions@.len() - i,
    {
        proof {
            lemma_first_fault_step(all, faulty, i as int);
        }
        match check_classification(&totals.sources, &kept.members, &decisions[i]) {
            Ok(_) => {},
            Err(error) => {
                proof {
                    lemma_first_fault_stops(all, faulty, i + 1);
                }
                return Err(error);
            },
        }
        i += 1;
    }
    assert(all.subrange(0, i as int) =~= all);
    let budget: usize = ceil_count(
        policy.semantic_rate_ppm,
        decisions.len(),
        policy.semantic_count_max,
    );
    if receipt.semantic_count_budget != budget || receipt.closure.semantic_atom_ids.len() > budget
        || receipt.semantic_body_bytes != totals.bytes {
        return Err(integrity("receipt semantic count or byte closure mismatch"));
    }
    Ok(())
}

/// The bytes of the bodies of some outputs.
pub open spec fn output_bytes(rows: Map<Seq<u8>, OutputRow>, outputs: Seq<[u8; 32]>) -> nat
    decreases outputs.len(),
{
    if outputs.len() == 0 {
        0
    } else {
        output_bytes(rows, outputs.drop_last()) + rows[outputs.last()@].canonical_body@.len()
    }
}

/// Whether a row holds a semantic output: its body to the byte, of the memory space, with sources
/// that are each named once, are among the sources of the run and have the digests it carries.
pub open spec fn is_output_row(
    rows: Map<Seq<u8>, OutputRow>,
    headers: Map<Seq<u8>, Vec<u8>>,
    space: Seq<char>,
    sources: Set<Seq<u8>>,
    output: Seq<u8>,
) -> bool {
    let row = rows[output];
    &&& rows.contains_key(output)
    &&& row.atom_kind@ == "semantic"@
    &&& row.memory_space_id@ == space
    &&& row.body_digest@ == output
    &&& row.parsed matches Ok(typed)
    &&& typed.authority.atom_id@ == output
    &&& typed.authority.canonical_body@ == row.canonical_body@
    &&& typed.body.payload matches Payload::Semantic(payload)
    &&& digest_seq(payload.source_ids@).no_duplicates()
    &&& digest_seq(payload.source_ids@).to_set() == digest_keys(
        payload.source_body_digests@,
    ).to_set()
    &&& forall|i: int|
        0 <= i < payload.source_ids@.len() ==> sources.contains(
            (#[trigger] payload.source_ids@[i])@,
        )
    &&& forall|i: int|
        0 <= i < payload.source_body_digests@.len() ==> {
            let source = #[trigger] payload.source_body_digests@[i];
            headers.contains_key(source.atom_id@) && headers[source.atom_id@]@
                == source.body_digest@
        }
}

/// Whether an atom is a source of an output.
pub open spec fn is_source_of(
    rows: Map<Seq<u8>, OutputRow>,
    output: Seq<u8>,
    atom_id: Seq<u8>,
) -> bool {
    &&& rows[output].parsed matches Ok(typed)
    &&& typed.body.payload matches Payload::Semantic(payload)
    &&& digest_seq(payload.source_ids@).contains(atom_id)
}

proof fn lemma_output_row(
    rows: Map<Seq<u8>, OutputRow>,
    headers: Map<Seq<u8>, Vec<u8>>,
    space: Seq<char>,
    sources: Set<Seq<u8>>,
    totals: OutputTotals,
    output: Seq<u8>,
)
    ensures
        add_output(rows, headers, space, sources, totals, output) is Ok <==> is_output_row(
            rows,
            headers,
            space,
            sources,
            output,
        ) && totals.bytes + rows[output].canonical_body@.len() <= u64::MAX,
{
    if rows.contains_key(output) {
        if let Ok(typed) = rows[output].parsed {
            if let Payload::Semantic(payload) = typed.body.payload {
                let ids = digest_seq(payload.source_ids@);
                let broken = |source: SourceDigest| source_digest_fault(headers, output, source);
                crate::folding::lemma_no_first_fault(payload.source_body_digests@, broken);
                if ids.to_set().subset_of(sources) {
                    assert forall|i: int| 0 <= i < payload.source_ids@.len() implies sources.contains(
                        (#[trigger] payload.source_ids@[i])@,
                    ) by {
                        assert(ids[i] == payload.source_ids@[i]@);
                        assert(ids.to_set().contains(ids[i]));
                    }
                }
                if forall|i: int|
                    0 <= i < payload.source_ids@.len() ==> sources.contains(
                        (#[trigger] payload.source_ids@[i])@,
                    ) {
                    assert forall|id: Seq<u8>| ids.to_set().contains(id) implies sources.contains(
                        id,
                    ) by {
                        let i = ids.index_of(id);
                        assert(ids[i] == payload.source_ids@[i]@);
                    }
                }
                if first_fault(payload.source_body_digests@, broken) is None {
                    assert forall|i: int| 0 <= i < payload.source_body_digests@.len() implies ({
                        let source = #[trigger] payload.source_body_digests@[i];
                        headers.contains_key(source.atom_id@) && headers[source.atom_id@]@
                            == source.body_digest@
                    }) by {
                        assert(broken(payload.source_body_digests@[i]) is None);
                    }
                }
            }
        }
    }
}

/// The outputs of a run are totalled exactly where every one of them is there whole, and then their
/// bytes are the sum of their bodies and their sources are those that any of them names.
pub proof fn law_outputs_are_totalled_exactly(
    rows: Map<Seq<u8>, OutputRow>,
    headers: Map<Seq<u8>, Vec<u8>>,
    space: Seq<char>,
    sources: Set<Seq<u8>>,
    outputs: Seq<[u8; 32]>,
    atom_id: Seq<u8>,
)
    ensures
        output_totals(rows, headers, space, sources, outputs) is Ok <==> output_bytes(rows, outputs)
            <= u64::MAX && forall|i: int|
            0 <= i < outputs.len() ==> is_output_row(
                rows,
                headers,
                space,
                sources,
                #[trigger] outputs[i]@,
            ),
        output_totals(rows, headers, space, sources, outputs) matches Ok(totals) ==> {
            &&& totals.bytes == output_bytes(rows, outputs)
            &&& totals.sources.contains(atom_id) <==> exists|i: int|
                0 <= i < outputs.len() && is_source_of(rows, #[trigger] outputs[i]@, atom_id)
        },
    decreases outputs.len(),
{
    if outputs.len() > 0 {
        let shorter = outputs.drop_last();
        let last = outputs.len() - 1;
        law_outputs_are_totalled_exactly(rows, headers, space, sources, shorter, atom_id);
        assert(outputs.last() == outputs[last]);
        assert forall|i: int| 0 <= i < shorter.len() implies #[trigger] shorter[i] == outputs[i] by {}
        assert forall|i: int| 0 <= i < last implies #[trigger] outputs[i] == shorter[i] by {}
        let earlier = output_totals(rows, headers, space, sources, shorter);
        if let Ok(totals) = earlier {
            lemma_output_row(rows, headers, space, sources, totals, outputs[last]@);
            if let Ok(more) = add_output(rows, headers, space, sources, totals, outputs[last]@) {
                let payload = rows[outputs[last]@].parsed->Ok_0.body.payload->Semantic_0;
                let ids = digest_seq(payload.source_ids@);
                assert(more.sources.contains(atom_id) <==> totals.sources.contains(atom_id)
                    || ids.to_set().contains(atom_id));
                assert(ids.to_set().contains(atom_id) <==> ids.contains(atom_id));
                assert(ids.contains(atom_id) <==> is_source_of(rows, outputs[last]@, atom_id));
                if exists|i: int|
                    0 <= i < shorter.len() && is_source_of(rows, #[trigger] shorter[i]@, atom_id) {
                    let i = choose|i: int|
                        0 <= i < shorter.len() && is_source_of(
                            rows,
                            #[trigger] shorter[i]@,
                            atom_id,
                        );
                    assert(is_source_of(rows, outputs[i]@, atom_id));
                }
                if exists|i: int|
                    0 <= i < outputs.len() && is_source_of(rows, #[trigger] outputs[i]@, atom_id) {
                    let i = choose|i: int|
                        0 <= i < outputs.len() && is_source_of(
                            rows,
                            #[trigger] outputs[i]@,
                            atom_id,
                        );
                    if i < last {
                        assert(is_source_of(rows, shorter[i]@, atom_id));
                    }
                }
            }
        }
        if forall|i: int|
            0 <= i < outputs.len() ==> is_output_row(
                rows,
                headers,
                space,
                sources,
                #[trigger] outputs[i]@,
            ) {
            assert forall|i: int| 0 <= i < shorter.len() implies is_output_row(
                rows,
                headers,
                space,
                sources,
                #[trigger] shorter[i]@,
            ) by {
                assert(is_output_row(rows, headers, space, sources, outputs[i]@));
            }
            assert(is_output_row(rows, headers, space, sources, outputs[last]@));
        }
        if output_totals(rows, headers, space, sources, outputs) is Ok {
            assert forall|i: int| 0 <= i < outputs.len() implies is_output_row(
                rows,
                headers,
                space,
                sources,
                #[trigger] outputs[i]@,
            ) by {
                if i < last {
                    assert(is_output_row(rows, headers, space, sources, shorter[i]@));
                }
            }
        }
    }
}

/// A decision is closed exactly where it names what became of its atom: kept by winning, a source
/// by being named by an output, both, or neither.
pub proof fn law_decision_is_closed_exactly(
    sources: Set<Seq<u8>>,
    kept: Set<Seq<u8>>,
    decision: DecisionView,
)
    ensures
        classification_fault(sources, kept, decision) is None ==> {
            &&& kept.contains(decision.atom_id) <==> decision.decision == "episodic_winner"@
                || decision.decision == "semantic_and_episodic"@
            &&& sources.contains(decision.atom_id) <==> decision.decision == "semantic_source"@
                || decision.decision == "semantic_and_episodic"@
            &&& decision.decision == "forgotten"@ <==> !kept.contains(decision.atom_id)
                && !sources.contains(decision.atom_id)
        },
        kept.contains(decision.atom_id) && sources.contains(decision.atom_id) && decision.decision
            == "semantic_and_episodic"@ ==> classification_fault(sources, kept, decision) is None,
        kept.contains(decision.atom_id) && !sources.contains(decision.atom_id) && decision.decision
            == "episodic_winner"@ ==> classification_fault(sources, kept, decision) is None,
        !kept.contains(decision.atom_id) && sources.contains(decision.atom_id) && decision.decision
            == "semantic_source"@ ==> classification_fault(sources, kept, decision) is None,
        !kept.contains(decision.atom_id) && !sources.contains(decision.atom_id)
            && decision.decision == "forgotten"@ ==> classification_fault(
            sources,
            kept,
            decision,
        ) is None,
{
    reveal_strlit("episodic_winner");
    reveal_strlit("semantic_and_episodic");
    reveal_strlit("semantic_source");
    reveal_strlit("forgotten");
    assert("episodic_winner"@[0] == 'e');
    assert("semantic_source"@[0] == 's');
    assert("semantic_and_episodic"@.len() == 21);
    assert("semantic_source"@.len() == 15);
    assert("episodic_winner"@.len() == 15);
    assert("forgotten"@.len() == 9);
}

/// The outputs of a run are accepted exactly where no atom is listed twice, every output is there
/// whole, every decision names what became of its atom, there are no more outputs than the share of
/// the decisions that the policy gives, and the receipt counts both the share and the bytes.
pub proof fn law_outputs_are_accepted_exactly(
    receipt: ProofReceipt,
    decisions: Seq<DecisionView>,
    rows: Map<Seq<u8>, OutputRow>,
    headers: Map<Seq<u8>, Vec<u8>>,
    policy: Policy,
)
    ensures
        outputs_fault(receipt, decisions, rows, headers, policy) is None <==> {
            let sources = digest_seq(receipt.closure.source_atom_ids@);
            let outputs = receipt.closure.semantic_atom_ids@;
            let kept = digest_seq(receipt.closure.exact_episode_ids@).to_set();
            let totals = output_totals(
                rows,
                headers,
                receipt.memory_space_id@,
                sources.to_set(),
                outputs,
            );
            let budget = capped_share(
                policy.semantic_rate_ppm,
                decisions.len(),
                policy.semantic_count_max,
            );
            &&& sources.no_duplicates()
            &&& digest_seq(outputs).no_duplicates()
            &&& totals is Ok
            &&& forall|i: int|
                0 <= i < decisions.len() ==> classification_fault(
                    totals->Ok_0.sources,
                    kept,
                    #[trigger] decisions[i],
                ) is None
            &&& receipt.semantic_count_budget == budget
            &&& outputs.len() <= receipt.semantic_count_budget
            &&& receipt.semantic_body_bytes == output_bytes(rows, outputs)
        },
{
    let sources = digest_seq(receipt.closure.source_atom_ids@);
    let outputs = receipt.closure.semantic_atom_ids@;
    let kept = digest_seq(receipt.closure.exact_episode_ids@).to_set();
    let totals = output_totals(rows, headers, receipt.memory_space_id@, sources.to_set(), outputs);
    law_outputs_are_totalled_exactly(
        rows,
        headers,
        receipt.memory_space_id@,
        sources.to_set(),
        outputs,
        Seq::empty(),
    );
    assert(digest_seq(outputs).len() == outputs.len());
    if totals is Ok {
        let open = |decision: DecisionView|
            classification_fault(totals->Ok_0.sources, kept, decision);
        crate::folding::lemma_no_first_fault(decisions, open);
        if first_fault(decisions, open) is None {
            assert forall|i: int| 0 <= i < decisions.len() implies classification_fault(
                totals->Ok_0.sources,
                kept,
                #[trigger] decisions[i],
            ) is None by {
                assert(open(decisions[i]) is None);
            }
        }
    }
}

} // verus!
