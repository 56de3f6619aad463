//! Retrieval: which atoms a query finds, how they are scored and ordered, and which of them are
//! recalled.

use vstd::multiset::*;
use vstd::prelude::*;
use vstd::string::*;

use crate::bags::byte_strings;
use crate::bytemap::{
    ByteMap, ByteSet, Side, ascending, in_order, lemma_finite_set_has_order,
    lemma_precedes_asymmetric, lemma_precedes_transitive, precedes, side_of,
};
use crate::chars::{trim, trimmed};
use crate::error::{Fault, StoreError, either_fault, fault_of, fault_when, invalid_input};
use crate::folding::{first_fault, lemma_first_fault_step, lemma_first_fault_stops};
use crate::sorting::lemma_distinct_keys_move;
use crate::stored::{digest_array, digest_fault, digest_seq, unsigned_fault, unsigned_integer};
use crate::text::copy_bytes;

verus! {

/// The most candidates that one search gives.
pub const MAX_CANDIDATES: u16 = 512;

/// Where a search looks.
#[derive(Clone, Debug)]
pub struct SearchScope {
    pub memory_space_id: String,
    pub repository_id: Option<String>,
    pub memory_space_wide: bool,
}

/// What a search finds.
#[derive(Clone, Debug)]
pub struct SearchCandidate {
    pub atom_id: [u8; 32],
    pub atom_kind: String,
    pub json_projection: String,
    pub feedback_positive: u64,
    pub feedback_negative: u64,
    pub retrieval_count: u64,
}

/// A row that a search finds.
#[derive(Clone, Debug)]
pub struct SearchRow {
    pub atom_id: Vec<u8>,
    pub atom_kind: String,
    pub json_projection: String,
    pub feedback_positive: i64,
    pub feedback_negative: i64,
    pub retrieval_count: i64,
}

/// The fault of a search that cannot be made.
pub open spec fn search_fault(
    memory_space_wide: bool,
    has_repository: bool,
    query_is_blank: bool,
    limit: u16,
) -> Option<Fault> {
    if limit == 0 || limit > MAX_CANDIDATES {
        Some(Fault::InvalidInput("candidate limit must be in 1..=512"@))
    } else if !memory_space_wide && !has_repository {
        Some(Fault::InvalidInput("repository-local search requires repository_id"@))
    } else {
        fault_when(query_is_blank, Fault::InvalidInput("FTS query must not be empty"@))
    }
}

/// Judges a search by its scope, its limit and whether anything is left of its query.
pub fn judge_search(scope: &SearchScope, query_is_blank: bool, limit: u16) -> (verdict: Result<
    (),
    StoreError,
>)
    ensures
        fault_of(verdict) == search_fault(
            scope.memory_space_wide,
            scope.repository_id is Some,
            query_is_blank,
            limit,
        ),
{
    if limit == 0 || limit > MAX_CANDIDATES {
        return Err(invalid_input("candidate limit must be in 1..=512"));
    }
    if !scope.memory_space_wide && scope.repository_id.is_none() {
        return Err(invalid_input("repository-local search requires repository_id"));
    }
    if query_is_blank {
        return Err(invalid_input("FTS query must not be empty"));
    }
    Ok(())
}

/// Accepts a search with a query that is not blank, within a repository or a whole memory space,
/// for a number of candidates within the limit.
pub fn check_search(scope: &SearchScope, fts_query: &str, limit: u16) -> (verdict: Result<
    (),
    StoreError,
>)
    ensures
        fault_of(verdict) == search_fault(
            scope.memory_space_wide,
            scope.repository_id is Some,
            trimmed(fts_query@).len() == 0,
            limit,
        ),
{
    let rest = trim(fts_query);
    judge_search(scope, rest.len() == 0, limit)
}

/// The fault of a row that a search finds.
pub open spec fn search_row_fault(row: SearchRow) -> Option<Fault> {
    either_fault(
        digest_fault(row.atom_id@, "atom_id"@),
        either_fault(
            unsigned_fault(row.feedback_positive, "feedback_positive"@),
            either_fault(
                unsigned_fault(row.feedback_negative, "feedback_negative"@),
                unsigned_fault(row.retrieval_count, "retrieval_count"@),
            ),
        ),
    )
}

/// Whether a candidate is that of a row.
pub open spec fn is_candidate_of(candidate: SearchCandidate, row: SearchRow) -> bool {
    &&& candidate.atom_id@ == row.atom_id@
    &&& candidate.atom_kind@ == row.atom_kind@
    &&& candidate.json_projection@ == row.json_projection@
    &&& candidate.feedback_positive == row.feedback_positive
    &&& candidate.feedback_negative == row.feedback_negative
    &&& candidate.retrieval_count == row.retrieval_count
}

fn read_search_row(row: &SearchRow) -> (candidate: Result<SearchCandidate, StoreError>)
    ensures
        fault_of(candidate) == search_row_fault(*row),
        candidate matches Ok(candidate) ==> is_candidate_of(candidate, *row),
{
    let atom_id = digest_array(row.atom_id.as_slice(), "atom_id")?;
    let feedback_positive: u64 = unsigned_integer(row.feedback_positive, "feedback_positive")?;
    let feedback_negative: u64 = unsigned_integer(row.feedback_negative, "feedback_negative")?;
    let retrieval_count: u64 = unsigned_integer(row.retrieval_count, "retrieval_count")?;
    Ok(
        SearchCandidate {
            atom_id,
            atom_kind: row.atom_kind.clone(),
            json_projection: row.json_projection.clone(),
            feedback_positive,
            feedback_negative,
            retrieval_count,
        },
    )
}

/// Reads the candidates that a search finds.
#[verifier::loop_isolation(false)]
pub fn search_candidates(rows: &Vec<SearchRow>) -> (candidates: Result<
    Vec<SearchCandidate>,
    StoreError,
>)
    ensures
        fault_of(candidates) == first_fault(rows@, |row: SearchRow| search_row_fault(row)),
        candidates matches Ok(candidates) ==> candidates@.len() == rows@.len() && forall|i: int|
            0 <= i < rows@.len() ==> is_candidate_of(#[trigger] candidates@[i], rows@[i]),
{
    let ghost faulty = |row: SearchRow| search_row_fault(row);
    let mut candidates: Vec<SearchCandidate> = Vec::new();
    let mut i: usize = 0;
    assert(rows@.subrange(0, 0) =~= Seq::<SearchRow>::empty());
    while i < rows.len()
        invariant
            i <= rows@.len(),
            first_fault(rows@.subrange(0, i as int), faulty) is None,
            candidates@.len() == i,
            forall|k: int| 0 <= k < i ==> is_candidate_of(#[trigger] candidates@[k], rows@[k]),
        decreases rows@.len() - i,
    {
        proof {
            lemma_first_fault_step(rows@, faulty, i as int);
        }
        match read_search_row(&rows[i]) {
            Ok(candidate) => {
                candidates.push(candidate);
            },
            Err(error) => {
                proof {
                    lemma_first_fault_stops(rows@, faulty, i + 1);
                }
                return Err(error);
            },
        }
        i += 1;
    }
    assert(rows@.subrange(0, i as int) =~= rows@);
    Ok(candidates)
}

// ---------------------------------------------------------------------------------------------
// Signals

/// In which ways a query found an atom, and how often.
#[derive(Clone, Copy, Debug, PartialEq, Eq, Structural)]
pub struct RetrievalSignals {
    pub lexical: u64,
    pub topics: u64,
    pub entities: u64,
}

/// One way in which a query finds atoms.
#[derive(Clone, Copy, Debug, PartialEq, Eq, Structural)]
pub enum SignalKind {
    Lexical,
    Topic,
    Entity,
}

/// The signals by atom.
pub type Signals = ByteMap<RetrievalSignals>;

/// One more, up to the largest 64-bit integer.
pub open spec fn counted(count: u64) -> u64 {
    if count == u64::MAX {
        count
    } else {
        (count + 1) as u64
    }
}

/// Signals with one more match of a kind.
pub open spec fn with_match(signals: RetrievalSignals, kind: SignalKind) -> RetrievalSignals {
    match kind {
        SignalKind::Lexical => RetrievalSignals { lexical: counted(signals.lexical), ..signals },
        SignalKind::Topic => RetrievalSignals { topics: counted(signals.topics), ..signals },
        SignalKind::Entity => RetrievalSignals { entities: counted(signals.entities), ..signals },
    }
}

/// The signals of an atom; none where the query has not found it.
pub open spec fn signals_of(signals: Map<Seq<u8>, RetrievalSignals>, atom_id: Seq<u8>) -> RetrievalSignals {
    if signals.contains_key(atom_id) {
        signals[atom_id]
    } else {
        RetrievalSignals { lexical: 0, topics: 0, entities: 0 }
    }
}

/// The signals after one more key of a kind found the atoms of a set.
pub open spec fn matched(
    signals: Map<Seq<u8>, RetrievalSignals>,
    kind: SignalKind,
    found: Set<Seq<u8>>,
) -> Map<Seq<u8>, RetrievalSignals> {
    Map::new(
        |atom_id: Seq<u8>| signals.contains_key(atom_id) || found.contains(atom_id),
        |atom_id: Seq<u8>|
            if found.contains(atom_id) {
                with_match(signals_of(signals, atom_id), kind)
            } else {
                signals[atom_id]
            },
    )
}

fn count_match(signals: RetrievalSignals, kind: SignalKind) -> (next: RetrievalSignals)
    ensures
        next == with_match(signals, kind),
{
    match kind {
        SignalKind::Lexical => RetrievalSignals {
            lexical: signals.lexical.saturating_add(1),
            topics: signals.topics,
            entities: signals.entities,
        },
        SignalKind::Topic => RetrievalSignals {
            lexical: signals.lexical,
            topics: signals.topics.saturating_add(1),
            entities: signals.entities,
        },
        SignalKind::Entity => RetrievalSignals {
            lexical: signals.lexical,
            topics: signals.topics,
            entities: signals.entities.saturating_add(1),
        },
    }
}

#[verifier::loop_isolation(false)]
fn read_found(rows: &Vec<Vec<u8>>) -> (found: Result<ByteSet, StoreError>)
    ensures
        fault_of(found) == first_fault(rows@, |row: Vec<u8>| digest_fault(row@, "atom_id"@)),
        found matches Ok(found) ==> found@ == byte_strings(rows@).to_set(),
{
    let ghost faulty = |row: Vec<u8>| digest_fault(row@, "atom_id"@);
    let ghost all = byte_strings(rows@);
    let mut found = ByteSet::new();
    let mut i: usize = 0;
    assert(rows@.subrange(0, 0) =~= Seq::<Vec<u8>>::empty());
    assert(found@ =~= all.subrange(0, 0).to_set());
    while i < rows.len()
        invariant
            i <= rows@.len(),
            first_fault(rows@.subrange(0, i as int), faulty) is None,
            found@ == all.subrange(0, i as int).to_set(),
        decreases rows@.len() - i,
    {
        proof {
            lemma_first_fault_step(rows@, faulty, i as int);
        }
        match digest_array(rows[i].as_slice(), "atom_id") {
            Ok(digest) => {
                found.insert(digest.as_slice());
                proof {
                    let before = all.subrange(0, i as int);
                    let after = all.subrange(0, i + 1);
                    assert(after =~= before.push(all[i as int]));
                    crate::receipt_outputs::lemma_pushed_set(before, all[i as int]);
                }
            },
            Err(error) => {
                proof {
                    lemma_first_fault_stops(rows@, faulty, i + 1);
                }
                return Err(error);
            },
        }
        i += 1;
    }
    assert(rows@.subrange(0, i as int) =~= rows@);
    assert(all.subrange(0, i as int) =~= all);
    Ok(found)
}

/// Counts the atoms that one key of a query found, each once.
#[verifier::loop_isolation(false)]
pub fn collect_matches(signals: Signals, kind: SignalKind, rows: &Vec<Vec<u8>>) -> (next: Result<
    Signals,
    StoreError,
>)
    ensures
        fault_of(next) == first_fault(rows@, |row: Vec<u8>| digest_fault(row@, "atom_id"@)),
        next matches Ok(next) ==> next@ == matched(
            signals@,
            kind,
            byte_strings(rows@).to_set(),
        ),
{
    let found = read_found(rows)?;
    let ghost before = signals@;
    let mut next = signals;
    let count: usize = found.len();
    let ghost ordered = found.ordered();
    let mut i: usize = 0;
    assert(next@ =~= matched(before, kind, ordered.subrange(0, 0).to_set())) by {
        assert(ordered.subrange(0, 0) =~= Seq::<Seq<u8>>::empty());
    }
    while i < count
        invariant
            i <= count == ordered.len(),
            ordered == found.ordered(),
            next@ == matched(before, kind, ordered.subrange(0, i as int).to_set()),
        decreases count - i,
    {
        let atom_id = found.member_at(i);
        let ghost done = ordered.subrange(0, i as int);
        let current: RetrievalSignals = match next.get(atom_id.as_slice()) {
            Some(current) => *current,
            None => RetrievalSignals { lexical: 0, topics: 0, entities: 0 },
        };
        proof {
            assert(!done.contains(atom_id@)) by {
                if done.contains(atom_id@) {
                    let k = done.index_of(atom_id@);
                    assert(precedes(ordered[k], ordered[i as int]));
                    lemma_precedes_asymmetric(ordered[k], ordered[i as int]);
                }
            }
            assert(current == signals_of(before, atom_id@));
        }
        let counted_signals = count_match(current, kind);
        next.insert(copy_bytes(atom_id.as_slice()), counted_signals);
        proof {
            let after = ordered.subrange(0, i + 1);
            assert(after =~= done.push(atom_id@));
            crate::receipt_outputs::lemma_pushed_set(done, atom_id@);
            assert(next@ =~= matched(before, kind, after.to_set()));
        }
        i += 1;
    }
    proof {
        assert(ordered.subrange(0, i as int) =~= ordered);
        assert(ordered.to_set() =~= found@);
    }
    Ok(next)
}

/// A part of a population, never more than the population; nothing of an empty one.
#[derive(Clone, Copy, Debug, PartialEq, Eq, Structural)]
pub struct Coverage {
    pub hits: u64,
    pub population: u64,
}

/// Which part of a population of keys found an atom. Nothing covers an empty population.
pub fn coverage(hits: u64, population: u64) -> (part: Option<Coverage>)
    ensures
        part == covered(hits, population as nat),
{
    if population == 0 {
        return None;
    }
    let covered: u64 = if hits < population {
        hits
    } else {
        population
    };
    Some(Coverage { hits: covered, population })
}

/// Which parts of the tokens, the topics and the entities of a query found an atom.
#[derive(Clone, Copy, Debug, PartialEq, Eq, Structural)]
pub struct SignalCoverage {
    pub lexical: Option<Coverage>,
    pub topics: Option<Coverage>,
    pub entities: Option<Coverage>,
}

/// The part of a population of keys that a number of hits covers.
pub open spec fn covered(hits: u64, population: nat) -> Option<Coverage> {
    if population == 0 {
        None
    } else {
        Some(
            Coverage {
                hits: if hits < population {
                    hits
                } else {
                    population as u64
                },
                population: population as u64,
            },
        )
    }
}

/// Relates what found an atom to all that a query asks for: its lexical signals to the tokens, its
/// topic signals to the topics, and its entity signals to the entities.
pub fn signal_coverage(
    found: &RetrievalSignals,
    tokens: usize,
    topics: usize,
    entities: usize,
) -> (parts: SignalCoverage)
    ensures
        parts.lexical == covered(found.lexical, tokens as nat),
        parts.topics == covered(found.topics, topics as nat),
        parts.entities == covered(found.entities, entities as nat),
{
    SignalCoverage {
        lexical: coverage(found.lexical, tokens as u64),
        topics: coverage(found.topics, topics as u64),
        entities: coverage(found.entities, entities as u64),
    }
}

// ---------------------------------------------------------------------------------------------
// Ranking

/// An atom with its lexical score and the weighted parts of its generation score.
#[derive(Clone, Copy, Debug)]
pub struct ScoredAtom {
    pub atom_id: [u8; 32],
    pub lexical_score: u32,
    pub lexical_part: u32,
    pub topic_part: u32,
    pub entity_part: u32,
}

/// The score by which atoms are selected.
pub open spec fn generation_score(atom: ScoredAtom) -> int {
    atom.lexical_part + atom.topic_part + atom.entity_part
}

/// An order of atoms.
#[derive(Clone, Copy, Debug, PartialEq, Eq, Structural)]
pub enum RankOrder {
    ByScore,
    ByIdentity,
}

/// Whether one atom stands before another: by its score, the higher first, and by its identity
/// where the scores are equal; or by its identity alone.
pub open spec fn outranks(order: RankOrder, a: ScoredAtom, b: ScoredAtom) -> bool {
    match order {
        RankOrder::ByScore => {
            ||| generation_score(a) > generation_score(b)
            ||| generation_score(a) == generation_score(b) && precedes(a.atom_id@, b.atom_id@)
        },
        RankOrder::ByIdentity => precedes(a.atom_id@, b.atom_id@),
    }
}

/// Whether a list is a ranking of another: the same atoms, none before one that outranks it.
pub open spec fn is_ranking(
    order: RankOrder,
    list: Seq<ScoredAtom>,
    atoms: Seq<ScoredAtom>,
) -> bool {
    &&& list.to_multiset() == atoms.to_multiset()
    &&& forall|i: int, j: int|
        0 <= i < j < list.len() ==> !outranks(order, #[trigger] list[j], #[trigger] list[i])
}

fn stands_before(order: RankOrder, a: &ScoredAtom, b: &ScoredAtom) -> (before: bool)
    ensures
        before == outranks(order, *a, *b),
{
    let left: u64 = a.lexical_part as u64 + a.topic_part as u64 + a.entity_part as u64;
    let right: u64 = b.lexical_part as u64 + b.topic_part as u64 + b.entity_part as u64;
    if order == RankOrder::ByScore && left != right {
        return left > right;
    }
    match side_of(a.atom_id.as_slice(), b.atom_id.as_slice()) {
        Side::Before => true,
        _ => {
            proof {
                lemma_precedes_asymmetric(a.atom_id@, b.atom_id@);
            }
            false
        },
    }
}

proof fn lemma_outranks_transitive(order: RankOrder, a: ScoredAtom, b: ScoredAtom, c: ScoredAtom)
    requires
        outranks(order, a, b),
        outranks(order, b, c),
    ensures
        outranks(order, a, c),
{
    if order == RankOrder::ByIdentity || generation_score(a) == generation_score(c) {
        lemma_precedes_transitive(a.atom_id@, b.atom_id@, c.atom_id@);
    }
}

proof fn lemma_outranks_asymmetric(order: RankOrder, a: ScoredAtom, b: ScoredAtom)
    requires
        outranks(order, a, b),
    ensures
        !outranks(order, b, a),
{
    lemma_precedes_asymmetric(a.atom_id@, b.atom_id@);
}

proof fn lemma_not_outranked_transitive(order: RankOrder, a: ScoredAtom, b: ScoredAtom, c: ScoredAtom)
    requires
        !outranks(order, b, a),
        !outranks(order, c, b),
    ensures
        !outranks(order, c, a),
{
    if outranks(order, c, a) {
        crate::bytemap::lemma_precedes_total(b.atom_id@, a.atom_id@);
        if outranks(order, a, b) {
            lemma_outranks_transitive(order, c, a, b);
        } else {
            assert(order == RankOrder::ByScore ==> generation_score(a) == generation_score(b));
            assert(a.atom_id@ == b.atom_id@);
        }
    }
}

proof fn lemma_longer_bags(a: Seq<ScoredAtom>, b: Seq<ScoredAtom>, i: int, j: int)
    requires
        0 <= i <= a.len(),
        0 <= j <= b.len(),
    ensures
        i < a.len() ==> (a.subrange(0, i + 1) + b.subrange(0, j)).to_multiset() == (a.subrange(0, i)
            + b.subrange(0, j)).to_multiset().insert(a[i]),
        j < b.len() ==> (a.subrange(0, i) + b.subrange(0, j + 1)).to_multiset() == (a.subrange(0, i)
            + b.subrange(0, j)).to_multiset().insert(b[j]),
{
    let left = a.subrange(0, i);
    let right = b.subrange(0, j);
    vstd::seq_lib::lemma_multiset_commutative(left, right);
    left.to_multiset_ensures();
    right.to_multiset_ensures();
    if i < a.len() {
        assert(a.subrange(0, i + 1) =~= left.push(a[i]));
        vstd::seq_lib::lemma_multiset_commutative(left.push(a[i]), right);
        assert((left.push(a[i]) + right).to_multiset() =~= (left + right).to_multiset().insert(
            a[i],
        ));
    }
    if j < b.len() {
        assert(b.subrange(0, j + 1) =~= right.push(b[j]));
        vstd::seq_lib::lemma_multiset_commutative(left, right.push(b[j]));
        assert((left + right.push(b[j])).to_multiset() =~= (left + right).to_multiset().insert(
            b[j],
        ));
    }
}

/// Merges two rankings.
fn merge(order: RankOrder, a: &Vec<ScoredAtom>, b: &Vec<ScoredAtom>) -> (ranking: Vec<ScoredAtom>)
    requires
        is_ranking(order, a@, a@),
        is_ranking(order, b@, b@),
    ensures
        is_ranking(order, ranking@, a@ + b@),
{
    let mut ranking: Vec<ScoredAtom> = Vec::new();
    let mut i: usize = 0;
    let mut j: usize = 0;
    assert(ranking@ =~= a@.subrange(0, 0) + b@.subrange(0, 0));
    while i < a.len() || j < b.len()
        invariant
            is_ranking(order, a@, a@),
            is_ranking(order, b@, b@),
            i <= a@.len(),
            j <= b@.len(),
            is_ranking(order, ranking@, a@.subrange(0, i as int) + b@.subrange(0, j as int)),
            forall|p: int, q: int|
                0 <= p < ranking@.len() && i <= q < a@.len() ==> !outranks(
                    order,
                    #[trigger] a@[q],
                    #[trigger] ranking@[p],
                ),
            forall|p: int, q: int|
                0 <= p < ranking@.len() && j <= q < b@.len() ==> !outranks(
                    order,
                    #[trigger] b@[q],
                    #[trigger] ranking@[p],
                ),
        decreases a@.len() - i + b@.len() - j,
    {
        let ghost before = ranking@;
        proof {
            before.to_multiset_ensures();
            lemma_longer_bags(a@, b@, i as int, j as int);
        }
        if j == b.len() || (i < a.len() && !stands_before(order, &b[j], &a[i])) {
            ranking.push(a[i]);
            proof {
                let next = a@[i as int];
                assert forall|q: int| j <= q < b@.len() implies !outranks(
                    order,
                    #[trigger] b@[q],
                    next,
                ) by {
                    if q > j {
                        lemma_not_outranked_transitive(order, next, b@[j as int], b@[q]);
                    }
                }
                assert forall|q: int| i + 1 <= q < a@.len() implies !outranks(
                    order,
                    #[trigger] a@[q],
                    next,
                ) by {
                    assert(!outranks(order, a@[q], a@[i as int]));
                }
            }
            i += 1;
        } else {
            ranking.push(b[j]);
            proof {
                let next = b@[j as int];
                assert forall|q: int| i <= q < a@.len() implies !outranks(
                    order,
                    #[trigger] a@[q],
                    next,
                ) by {
                    lemma_outranks_asymmetric(order, next, a@[i as int]);
                    if q > i {
                        lemma_not_outranked_transitive(order, next, a@[i as int], a@[q]);
                    }
                }
                assert forall|q: int| j + 1 <= q < b@.len() implies !outranks(
                    order,
                    #[trigger] b@[q],
                    next,
                ) by {
                    assert(!outranks(order, b@[q], b@[j as int]));
                }
            }
            j += 1;
        }
        assert(ranking@ =~= before.push(ranking@.last()));
    }
    assert(a@.subrange(0, i as int) =~= a@);
    assert(b@.subrange(0, j as int) =~= b@);
    ranking
}

fn rank_part(order: RankOrder, atoms: &Vec<ScoredAtom>, start: usize, end: usize) -> (ranking: Vec<
    ScoredAtom,
>)
    requires
        start <= end <= atoms@.len(),
    ensures
        is_ranking(order, ranking@, atoms@.subrange(start as int, end as int)),
    decreases end - start,
{
    let mut ranking: Vec<ScoredAtom> = Vec::new();
    if end - start <= 1 {
        if start < end {
            ranking.push(atoms[start]);
        }
        assert(ranking@ =~= atoms@.subrange(start as int, end as int));
        return ranking;
    }
    let middle: usize = start + (end - start) / 2;
    let left = rank_part(order, atoms, start, middle);
    let right = rank_part(order, atoms, middle, end);
    let ranking = merge(order, &left, &right);
    proof {
        let low = atoms@.subrange(start as int, middle as int);
        let high = atoms@.subrange(middle as int, end as int);
        assert(atoms@.subrange(start as int, end as int) =~= low + high);
        vstd::seq_lib::lemma_multiset_commutative(left@, right@);
        vstd::seq_lib::lemma_multiset_commutative(low, high);
    }
    ranking
}

/// Puts atoms in an order.
pub fn rank(order: RankOrder, atoms: &Vec<ScoredAtom>) -> (ranking: Vec<ScoredAtom>)
    ensures
        is_ranking(order, ranking@, atoms@),
        ranking@.len() == atoms@.len(),
{
    let ranking = rank_part(order, atoms, 0, atoms.len());
    proof {
        assert(atoms@.subrange(0, atoms@.len() as int) =~= atoms@);
        ranking@.to_multiset_ensures();
        atoms@.to_multiset_ensures();
    }
    ranking
}

/// How many candidates a retrieval takes.
pub open spec fn candidate_limit(candidate_max: usize, found: nat) -> nat {
    let cap = if candidate_max < MAX_CANDIDATES {
        candidate_max as nat
    } else {
        MAX_CANDIDATES as nat
    };
    if found < cap {
        found
    } else {
        cap
    }
}

/// Whether a list holds the candidates of a retrieval: the first of the ranking by score, up to
/// the limit.
pub open spec fn is_selection(
    selected: Seq<ScoredAtom>,
    atoms: Seq<ScoredAtom>,
    candidate_max: usize,
) -> bool {
    &&& selected.len() == candidate_limit(candidate_max, atoms.len())
    &&& exists|ranking: Seq<ScoredAtom>| #[trigger]
        is_ranking(RankOrder::ByScore, ranking, atoms) && ranking.len() == atoms.len() && selected
            == ranking.subrange(0, selected.len() as int)
}

/// Selects the candidates of a retrieval.
pub fn select_candidates(atoms: &Vec<ScoredAtom>, candidate_max: usize) -> (selected: Vec<
    ScoredAtom,
>)
    ensures
        is_selection(selected@, atoms@, candidate_max),
{
    let cap: usize = if candidate_max < MAX_CANDIDATES as usize {
        candidate_max
    } else {
        MAX_CANDIDATES as usize
    };
    let mut ranking = rank(RankOrder::ByScore, atoms);
    let ghost all = ranking@;
    if ranking.len() > cap {
        ranking.truncate(cap);
    }
    assert(is_ranking(RankOrder::ByScore, all, atoms@));
    assert(ranking@ =~= all.subrange(0, ranking@.len() as int));
    ranking
}

/// Whether no two of a list of atoms are the same.
pub open spec fn distinct_atoms(atoms: Seq<ScoredAtom>) -> bool {
    forall|i: int, j: int|
        0 <= i < j < atoms.len() ==> (#[trigger] atoms[i]).atom_id@ != (#[trigger] atoms[j]).atom_id@
}

/// Different atoms have one ranking only: which candidates a retrieval takes, and in which order,
/// depends on nothing but their scores and identities.
pub proof fn law_ranking_is_unique(
    order: RankOrder,
    a: Seq<ScoredAtom>,
    b: Seq<ScoredAtom>,
    atoms: Seq<ScoredAtom>,
)
    requires
        is_ranking(order, a, atoms),
        is_ranking(order, b, atoms),
        distinct_atoms(a),
        distinct_atoms(b),
    ensures
        a == b,
    decreases a.len(),
{
    a.to_multiset_ensures();
    b.to_multiset_ensures();
    assert(a.len() == b.len());
    if a.len() > 0 {
        let last = a.last();
        let other = b.last();
        assert(a.to_multiset().count(last) > 0);
        assert(b.contains(last));
        assert(b.to_multiset().count(other) > 0);
        assert(a.contains(other));
        let i = b.index_of(last);
        let j = a.index_of(other);
        if i < b.len() - 1 {
            assert(!outranks(order, b[b.len() - 1], b[i]));
            if j < a.len() - 1 {
                assert(!outranks(order, a[a.len() - 1], a[j]));
                assert(a[j].atom_id@ != a[a.len() - 1].atom_id@);
                crate::bytemap::lemma_precedes_total(last.atom_id@, other.atom_id@);
                assert(false);
            }
        }
        assert(last == other);
        let left = a.drop_last();
        let right = b.drop_last();
        left.to_multiset_ensures();
        right.to_multiset_ensures();
        assert(a =~= left.push(last));
        assert(b =~= right.push(last));
        assert(left.to_multiset().insert(last) =~= right.to_multiset().insert(last));
        assert(left.to_multiset() =~= left.to_multiset().insert(last).remove(last));
        assert(right.to_multiset() =~= right.to_multiset().insert(last).remove(last));
        assert forall|m: int, n: int| 0 <= m < n < left.len() implies !outranks(order, #[trigger] left[n],
            #[trigger] left[m],
        ) by {
            assert(left[m] == a[m] && left[n] == a[n]);
        }
        assert forall|m: int, n: int| 0 <= m < n < right.len() implies !outranks(order, #[trigger] right[n],
            #[trigger] right[m],
        ) by {
            assert(right[m] == b[m] && right[n] == b[n]);
        }
        law_ranking_is_unique(order, left, right, left);
    } else {
        assert(a =~= b);
    }
}

// ---------------------------------------------------------------------------------------------
// Recall

/// What a retrieval reads: its candidates in the order in which they are loaded, the best first;
/// the same in the order in which they are handed on, that of their identities; and the pool that
/// spontaneous recall draws from.
#[derive(Clone, Debug)]
pub struct RecallPlan {
    pub loaded: Vec<ScoredAtom>,
    pub ranked: Vec<ScoredAtom>,
    pub episodic_pool: Vec<[u8; 32]>,
}

/// Whether a plan is that of a retrieval which found these atoms with these scores, in a store
/// whose episodic long-term atoms have these identities.
pub open spec fn is_recall_plan(
    plan: RecallPlan,
    atoms: Seq<ScoredAtom>,
    candidate_max: usize,
    wants_spontaneous: bool,
    pool: Seq<Seq<u8>>,
) -> bool {
    &&& is_selection(plan.loaded@, atoms, candidate_max)
    &&& is_ranking(RankOrder::ByIdentity, plan.ranked@, plan.loaded@)
    &&& digest_seq(plan.episodic_pool@) == (if wants_spontaneous {
        pool
    } else {
        Seq::empty()
    })
}

/// Plans a retrieval. Where no spontaneous recall is asked for, nothing is drawn from.
#[verifier::loop_isolation(false)]
pub fn plan_recall(
    atoms: &Vec<ScoredAtom>,
    candidate_max: usize,
    wants_spontaneous: bool,
    pool: &Vec<Vec<u8>>,
) -> (plan: Result<RecallPlan, StoreError>)
    ensures
        fault_of(plan) == pool_rows_fault(wants_spontaneous, pool@),
        plan matches Ok(plan) ==> is_recall_plan(
            plan,
            atoms@,
            candidate_max,
            wants_spontaneous,
            byte_strings(pool@),
        ),
{
    let loaded = select_candidates(atoms, candidate_max);
    let ranked = rank(RankOrder::ByIdentity, &loaded);
    let mut episodic_pool: Vec<[u8; 32]> = Vec::new();
    assert(digest_seq(episodic_pool@) =~= Seq::<Seq<u8>>::empty());
    if wants_spontaneous {
        let ghost faulty = |row: Vec<u8>| digest_fault(row@, "atom_id"@);
        let mut i: usize = 0;
        assert(pool@.subrange(0, 0) =~= Seq::<Vec<u8>>::empty());
        while i < pool.len()
            invariant
                i <= pool@.len(),
                episodic_pool@.len() == i,
                forall|k: int| 0 <= k < i ==> (#[trigger] episodic_pool@[k])@ == pool@[k]@,
                first_fault(pool@.subrange(0, i as int), faulty) is None,
            decreases pool@.len() - i,
        {
            proof {
                lemma_first_fault_step(pool@, faulty, i as int);
            }
            match digest_array(pool[i].as_slice(), "atom_id") {
                Ok(atom_id) => {
                    episodic_pool.push(atom_id);
                },
                Err(error) => {
                    proof {
                        lemma_first_fault_stops(pool@, faulty, i + 1);
                    }
                    return Err(error);
                },
            }
            i += 1;
        }
        assert(pool@.subrange(0, i as int) =~= pool@);
        assert(digest_seq(episodic_pool@) =~= byte_strings(pool@));
    }
    Ok(RecallPlan { loaded, ranked, episodic_pool })
}

proof fn lemma_distinct_atoms_move(a: Seq<ScoredAtom>, b: Seq<ScoredAtom>)
    requires
        a.to_multiset() == b.to_multiset(),
        distinct_atoms(a),
    ensures
        distinct_atoms(b),
{
    let key = |atom: ScoredAtom| atom.atom_id@;
    assert forall|i: int, j: int| 0 <= i < j < a.len() implies key(#[trigger] a[i]) != key(
        #[trigger] a[j],
    ) by {
        assert(a[i].atom_id@ != a[j].atom_id@);
    }
    lemma_distinct_keys_move(a, b, key);
    assert forall|i: int, j: int| 0 <= i < j < b.len() implies (#[trigger] b[i]).atom_id@ != (
    #[trigger] b[j]).atom_id@ by {
        assert(key(b[i]) != key(b[j]));
    }
}

/// A retrieval is repeatable: where it finds the same atoms with the same scores, in whatever
/// order, and the same pool, it loads the same candidates in the same order, hands them on in the
/// same order and draws from the same pool. How often an atom was retrieved before is nothing that
/// it looks at.
pub proof fn law_recall_is_repeatable(
    a: RecallPlan,
    a_atoms: Seq<ScoredAtom>,
    b: RecallPlan,
    b_atoms: Seq<ScoredAtom>,
    candidate_max: usize,
    wants_spontaneous: bool,
    pool: Seq<Seq<u8>>,
)
    requires
        distinct_atoms(a_atoms),
        a_atoms.to_multiset() == b_atoms.to_multiset(),
        is_recall_plan(a, a_atoms, candidate_max, wants_spontaneous, pool),
        is_recall_plan(b, b_atoms, candidate_max, wants_spontaneous, pool),
    ensures
        a.loaded@ == b.loaded@,
        a.ranked@ == b.ranked@,
        digest_seq(a.episodic_pool@) == digest_seq(b.episodic_pool@),
{
    let x = choose|ranking: Seq<ScoredAtom>| #[trigger]
        is_ranking(RankOrder::ByScore, ranking, a_atoms) && ranking.len() == a_atoms.len()
            && a.loaded@ == ranking.subrange(0, a.loaded@.len() as int);
    let y = choose|ranking: Seq<ScoredAtom>| #[trigger]
        is_ranking(RankOrder::ByScore, ranking, b_atoms) && ranking.len() == b_atoms.len()
            && b.loaded@ == ranking.subrange(0, b.loaded@.len() as int);
    lemma_distinct_atoms_move(a_atoms, x);
    lemma_distinct_atoms_move(a_atoms, y);
    a_atoms.to_multiset_ensures();
    b_atoms.to_multiset_ensures();
    law_ranking_is_unique(RankOrder::ByScore, x, y, a_atoms);
    assert(a.loaded@ == b.loaded@);
    assert(distinct_atoms(a.loaded@));
    lemma_distinct_atoms_move(a.loaded@, a.ranked@);
    lemma_distinct_atoms_move(a.loaded@, b.ranked@);
    law_ranking_is_unique(RankOrder::ByIdentity, a.ranked@, b.ranked@, a.loaded@);
}

/// The candidates of a retrieval are handed on in strictly ascending order of their identities,
/// and are among the atoms that it found; without a request for spontaneous recall there is
/// nothing to draw from.
pub proof fn law_recall_plan_is_ordered(
    plan: RecallPlan,
    atoms: Seq<ScoredAtom>,
    candidate_max: usize,
    wants_spontaneous: bool,
    pool: Seq<Seq<u8>>,
    i: int,
    j: int,
)
    requires
        distinct_atoms(atoms),
        is_recall_plan(plan, atoms, candidate_max, wants_spontaneous, pool),
    ensures
        0 <= i < j < plan.ranked@.len() ==> precedes(
            plan.ranked@[i].atom_id@,
            plan.ranked@[j].atom_id@,
        ),
        0 <= i < plan.ranked@.len() ==> atoms.contains(plan.ranked@[i]),
        !wants_spontaneous ==> plan.episodic_pool@.len() == 0,
{
    let x = choose|ranking: Seq<ScoredAtom>| #[trigger]
        is_ranking(RankOrder::ByScore, ranking, atoms) && ranking.len() == atoms.len()
            && plan.loaded@ == ranking.subrange(0, plan.loaded@.len() as int);
    lemma_distinct_atoms_move(atoms, x);
    assert(distinct_atoms(plan.loaded@));
    lemma_distinct_atoms_move(plan.loaded@, plan.ranked@);
    if 0 <= i < j < plan.ranked@.len() {
        assert(!outranks(RankOrder::ByIdentity, plan.ranked@[j], plan.ranked@[i]));
        assert(plan.ranked@[i].atom_id@ != plan.ranked@[j].atom_id@);
        crate::bytemap::lemma_precedes_total(plan.ranked@[i].atom_id@, plan.ranked@[j].atom_id@);
    }
    if 0 <= i < plan.ranked@.len() {
        let atom = plan.ranked@[i];
        plan.ranked@.to_multiset_ensures();
        plan.loaded@.to_multiset_ensures();
        x.to_multiset_ensures();
        atoms.to_multiset_ensures();
        assert(plan.ranked@.to_multiset().count(atom) > 0);
        assert(plan.loaded@.contains(atom));
        let k = plan.loaded@.index_of(atom);
        assert(x[k] == atom);
        assert(x.to_multiset().count(atom) > 0);
    }
    assert(digest_seq(plan.episodic_pool@).len() == plan.episodic_pool@.len());
}

/// Lists the atoms that a retrieval recalls, those that were found and those that came up by
/// themselves, each once and in order.
#[verifier::loop_isolation(false)]
pub fn recalled_ids(hits: &Vec<[u8; 32]>, spontaneous: &Vec<[u8; 32]>) -> (ids: Vec<[u8; 32]>)
    ensures
        digest_seq(ids@) == in_order(
            digest_seq(hits@).to_set().union(digest_seq(spontaneous@).to_set()),
        ),
{
    let found = crate::receipt_outputs::collect_ids(hits);
    let all = crate::receipt_outputs::add_ids(found.members, spontaneous);
    let count: usize = all.count();
    let ghost members = digest_seq(hits@).to_set().union(digest_seq(spontaneous@).to_set());
    let mut ids: Vec<[u8; 32]> = Vec::new();
    let mut i: usize = 0;
    while i < count
        invariant
            i <= count == all.ordered().len(),
            all.ordered() == in_order(members),
            all@ == members,
            ids@.len() == i,
            forall|k: int| 0 <= k < i ==> (#[trigger] ids@[k])@ == all.ordered()[k],
        decreases count - i,
    {
        let member = all.member_at(i);
        proof {
            if digest_seq(hits@).to_set().contains(member@) {
                let k = digest_seq(hits@).index_of(member@);
                assert(member@ == hits@[k]@);
            } else {
                assert(digest_seq(spontaneous@).to_set().contains(member@));
                let k = digest_seq(spontaneous@).index_of(member@);
                assert(member@ == spontaneous@[k]@);
            }
        }
        if let Ok(digest) = digest_array(member.as_slice(), "atom_id") {
            ids.push(digest);
        }
        i += 1;
    }
    assert(digest_seq(ids@) =~= in_order(members));
    ids
}

/// Every atom that a retrieval recalls is counted exactly once, also where it was both found and
/// came up by itself, and no other atom is counted.
pub proof fn law_recalled_atom_is_counted_once(
    ids: Seq<[u8; 32]>,
    hits: Seq<[u8; 32]>,
    spontaneous: Seq<[u8; 32]>,
    atom_id: Seq<u8>,
)
    requires
        digest_seq(ids) == in_order(
            digest_seq(hits).to_set().union(digest_seq(spontaneous).to_set()),
        ),
    ensures
        digest_seq(ids).no_duplicates(),
        digest_seq(ids).to_multiset().count(atom_id) == (if digest_seq(hits).contains(atom_id)
            || digest_seq(spontaneous).contains(atom_id) {
            1nat
        } else {
            0
        }),
{
    let members = digest_seq(hits).to_set().union(digest_seq(spontaneous).to_set());
    let list = digest_seq(ids);
    digest_seq(hits).lemma_cardinality_of_set();
    digest_seq(spontaneous).lemma_cardinality_of_set();
    lemma_finite_set_has_order(members);
    assert(ascending(list) && list.to_set() == members);
    assert forall|i: int, j: int| 0 <= i < list.len() && 0 <= j < list.len() && i != j implies list[i]
        != list[j] by {
        if i < j {
            assert(precedes(list[i], list[j]));
            lemma_precedes_asymmetric(list[i], list[j]);
        } else {
            assert(precedes(list[j], list[i]));
            lemma_precedes_asymmetric(list[j], list[i]);
        }
    }
    list.to_multiset_ensures();
    list.lemma_multiset_has_no_duplicates();
    assert(members.contains(atom_id) <==> list.contains(atom_id));
}

/// The candidates of a retrieval are the best of what it found: they stand by the sum of what
/// terms, topics and entities give them, the larger first and the smaller identity first where the
/// sums are equal, and no atom that was left out has a larger sum than one that was taken.
pub proof fn law_best_candidates_are_taken(
    selected: Seq<ScoredAtom>,
    atoms: Seq<ScoredAtom>,
    candidate_max: usize,
    i: int,
    j: int,
    left_out: ScoredAtom,
)
    requires
        is_selection(selected, atoms, candidate_max),
        0 <= i < selected.len(),
    ensures
        atoms.contains(selected[i]),
        i < j < selected.len() ==> {
            let first = selected[i].lexical_part + selected[i].topic_part + selected[i].entity_part;
            let second = selected[j].lexical_part + selected[j].topic_part
                + selected[j].entity_part;
            &&& first >= second
            &&& first == second ==> !precedes(selected[j].atom_id@, selected[i].atom_id@)
        },
        atoms.contains(left_out) && !selected.contains(left_out) ==> {
            let taken = selected[i].lexical_part + selected[i].topic_part + selected[i].entity_part;
            let other = left_out.lexical_part + left_out.topic_part + left_out.entity_part;
            &&& taken >= other
            &&& taken == other ==> !precedes(left_out.atom_id@, selected[i].atom_id@)
        },
{
    let ranking = choose|ranking: Seq<ScoredAtom>| #[trigger]
        is_ranking(RankOrder::ByScore, ranking, atoms) && ranking.len() == atoms.len() && selected
            == ranking.subrange(0, selected.len() as int);
    ranking.to_multiset_ensures();
    atoms.to_multiset_ensures();
    assert(selected[i] == ranking[i]);
    assert(ranking.to_multiset().count(ranking[i]) > 0);
    if i < j < selected.len() {
        assert(selected[j] == ranking[j]);
        assert(!outranks(RankOrder::ByScore, ranking[j], ranking[i]));
    }
    if atoms.contains(left_out) && !selected.contains(left_out) {
        assert(atoms.to_multiset().count(left_out) > 0);
        assert(ranking.contains(left_out));
        let place = ranking.index_of(left_out);
        if place < selected.len() {
            assert(selected[place] == left_out);
        }
        assert(!outranks(RankOrder::ByScore, ranking[place], ranking[i]));
    }
}

/// Of two atoms that were found alike but for one of the three parts of their scores, the one with
/// the larger part comes first, and is taken where the other is.
pub proof fn law_every_part_of_a_score_counts(
    selected: Seq<ScoredAtom>,
    atoms: Seq<ScoredAtom>,
    candidate_max: usize,
    better: ScoredAtom,
    worse: ScoredAtom,
    i: int,
    j: int,
)
    requires
        is_selection(selected, atoms, candidate_max),
        atoms.contains(better),
        better.lexical_part >= worse.lexical_part,
        better.topic_part >= worse.topic_part,
        better.entity_part >= worse.entity_part,
        better.lexical_part > worse.lexical_part || better.topic_part > worse.topic_part
            || better.entity_part > worse.entity_part,
        0 <= j < selected.len(),
        selected[j] == worse,
    ensures
        selected.contains(better),
        0 <= i < selected.len() && selected[i] == better ==> i < j,
{
    law_best_candidates_are_taken(selected, atoms, candidate_max, j, i, better);
    if 0 <= i < selected.len() {
        law_best_candidates_are_taken(selected, atoms, candidate_max, j, i, better);
    }
}

/// What a retrieval hands on are its candidates and no others, in the order of their identities.
pub proof fn law_handed_on_are_the_candidates(
    plan: RecallPlan,
    atoms: Seq<ScoredAtom>,
    candidate_max: usize,
    wants_spontaneous: bool,
    pool: Seq<Seq<u8>>,
    i: int,
    j: int,
)
    requires
        is_recall_plan(plan, atoms, candidate_max, wants_spontaneous, pool),
    ensures
        plan.ranked@.to_multiset() == plan.loaded@.to_multiset(),
        0 <= i < j < plan.ranked@.len() ==> !precedes(
            plan.ranked@[j].atom_id@,
            plan.ranked@[i].atom_id@,
        ),
        wants_spontaneous ==> plan.episodic_pool@.len() == pool.len(),
        wants_spontaneous && 0 <= i < pool.len() ==> plan.episodic_pool@[i]@ == pool[i],
        !wants_spontaneous ==> plan.episodic_pool@.len() == 0,
{
    assert(digest_seq(plan.episodic_pool@).len() == plan.episodic_pool@.len());
    if wants_spontaneous && 0 <= i < pool.len() {
        assert(digest_seq(plan.episodic_pool@)[i] == plan.episodic_pool@[i]@);
    }
    if 0 <= i < j < plan.ranked@.len() {
        assert(!outranks(RankOrder::ByIdentity, plan.ranked@[j], plan.ranked@[i]));
    }
}

/// As many candidates are taken as may be: all that were found, up to the limit asked for and never
/// more than 512.
pub proof fn law_as_many_candidates_are_taken_as_may_be(
    selected: Seq<ScoredAtom>,
    atoms: Seq<ScoredAtom>,
    candidate_max: usize,
)
    requires
        is_selection(selected, atoms, candidate_max),
    ensures
        selected.len() <= candidate_max,
        selected.len() <= 512,
        selected.len() <= atoms.len(),
        selected.len() == candidate_max || selected.len() == 512 || selected.len() == atoms.len(),
{
}

/// A search is made exactly where it asks for 1 to 512 candidates, names a repository or looks
/// through a whole memory space, and has a query that is not blank.
pub proof fn law_search_is_made_exactly_in_a_scope(
    memory_space_wide: bool,
    has_repository: bool,
    query_is_blank: bool,
    limit: u16,
)
    ensures
        search_fault(memory_space_wide, has_repository, query_is_blank, limit) is None <==> {
            &&& 1 <= limit <= 512
            &&& memory_space_wide || has_repository
            &&& !query_is_blank
        },
{
}

/// A row that a search finds is read exactly where it names an atom and no counter is negative.
pub proof fn law_found_row_is_read_exactly_with_counters(row: SearchRow)
    ensures
        search_row_fault(row) is None <==> row.atom_id@.len() == 32 && row.feedback_positive >= 0
            && row.feedback_negative >= 0 && row.retrieval_count >= 0,
{
}

/// A key of a query counts once for every atom that it found, in the signal of its own kind, and
/// changes nothing else: no other signal, and no other atom.
pub proof fn law_a_key_counts_once_for_each_atom_it_found(
    signals: Map<Seq<u8>, RetrievalSignals>,
    kind: SignalKind,
    found: Set<Seq<u8>>,
    atom_id: Seq<u8>,
)
    ensures
        ({
            let next = matched(signals, kind, found);
            let old_count = if signals.contains_key(atom_id) {
                signals[atom_id]
            } else {
                RetrievalSignals { lexical: 0, topics: 0, entities: 0 }
            };
            &&& next.contains_key(atom_id) <==> signals.contains_key(atom_id) || found.contains(
                atom_id,
            )
            &&& signals.contains_key(atom_id) && !found.contains(atom_id) ==> next[atom_id]
                == signals[atom_id]
            &&& found.contains(atom_id) && kind == SignalKind::Lexical ==> {
                &&& old_count.lexical < u64::MAX ==> next[atom_id].lexical == old_count.lexical + 1
                &&& next[atom_id].topics == old_count.topics
                &&& next[atom_id].entities == old_count.entities
            }
            &&& found.contains(atom_id) && kind == SignalKind::Topic ==> {
                &&& old_count.topics < u64::MAX ==> next[atom_id].topics == old_count.topics + 1
                &&& next[atom_id].lexical == old_count.lexical
                &&& next[atom_id].entities == old_count.entities
            }
            &&& found.contains(atom_id) && kind == SignalKind::Entity ==> {
                &&& old_count.entities < u64::MAX ==> next[atom_id].entities == old_count.entities
                    + 1
                &&& next[atom_id].lexical == old_count.lexical
                &&& next[atom_id].topics == old_count.topics
            }
        }),
{
}

/// Coverage is a part: never more than the population, the hits where they are fewer, and nothing
/// of an empty population.
pub proof fn law_coverage_is_a_part(hits: u64, population: nat)
    requires
        population <= u64::MAX,
    ensures
        covered(hits, population) is None <==> population == 0,
        covered(hits, population) matches Some(part) ==> {
            &&& part.population == population
            &&& part.hits <= population
            &&& part.hits <= hits
            &&& part.hits == hits || part.hits == population
        },
{
}

/// The fault of a pool of atoms that is wanted and cannot be read.
pub open spec fn pool_rows_fault(wants_spontaneous: bool, pool: Seq<Vec<u8>>) -> Option<Fault> {
    if wants_spontaneous {
        first_fault(pool, |row: Vec<u8>| digest_fault(row@, "atom_id"@))
    } else {
        None
    }
}

/// A pool is read exactly where it is not wanted or every atom of it has an identity.
pub proof fn law_pool_is_read_exactly(wants_spontaneous: bool, pool: Seq<Vec<u8>>)
    ensures
        pool_rows_fault(wants_spontaneous, pool) is None <==> (wants_spontaneous ==> forall|i: int|
            0 <= i < pool.len() ==> (#[trigger] pool[i])@.len() == 32),
{
    let unread = |row: Vec<u8>| digest_fault(row@, "atom_id"@);
    crate::folding::lemma_no_first_fault(pool, unread);
    if first_fault(pool, unread) is None {
        assert forall|i: int| 0 <= i < pool.len() implies (#[trigger] pool[i])@.len() == 32 by {
            assert(unread(pool[i]) is None);
        }
    }
}

/// A found atom is handed on as its row says.
pub proof fn law_found_atom_is_handed_on_as_found(candidate: SearchCandidate, row: SearchRow)
    ensures
        is_candidate_of(candidate, row) <==> {
            &&& candidate.atom_id@ == row.atom_id@
            &&& candidate.atom_kind@ == row.atom_kind@
            &&& candidate.json_projection@ == row.json_projection@
            &&& candidate.feedback_positive == row.feedback_positive
            &&& candidate.feedback_negative == row.feedback_negative
            &&& candidate.retrieval_count == row.retrieval_count
        },
{
}

} // verus!
