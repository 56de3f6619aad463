//! Loading what a retrieval recalls: its candidates, the best first, and the pool that spontaneous
//! recall draws from.

use vstd::prelude::*;
use vstd::string::*;

use crate::artifact::ArtifactStore;
use crate::bytemap::ByteMap;
use crate::candidates::{
    DeclaredArtifact, FtsSummary, RetrievalCandidate, StoredRetrievalAtom, admit_to_pool,
    law_retrieval_count_decides_nothing, load_retrieval_candidate, retrieval_candidate_fault,
};
use crate::error::{Fault, StoreError, either_fault, fault_of, fault_when};
use crate::folding::first_indexed;
use crate::messages::integrity_fault;
use crate::model::{CoreAtom, IntegrityStatus, RetentionPermission, StateView};
use crate::retrieval::{
    RecallPlan, ScoredAtom, distinct_atoms, is_recall_plan, law_recall_is_repeatable,
};
use crate::sorting::views;
use crate::state_columns::{StateColumns, columns_state};
use crate::stored::digest_seq;
use crate::text::copy_bytes;

verus! {

/// What the store holds about an atom that may be recalled.
pub struct CandidateEvidence {
    pub stored: Option<StoredRetrievalAtom>,
    pub parsed: Result<CoreAtom, String>,
    pub fts: FtsSummary,
    pub artifacts: ByteMap<DeclaredArtifact>,
}

/// The mathematical content of a [`RetrievalCandidate`].
#[verifier::ext_equal]
pub struct CandidateView {
    pub atom_id: Seq<u8>,
    pub state: StateView,
    pub lexical_score: u32,
    pub integrity: IntegrityStatus,
}

impl View for RetrievalCandidate {
    type V = CandidateView;

    open spec fn view(&self) -> CandidateView {
        CandidateView {
            atom_id: self.atom_id@,
            state: self.state@,
            lexical_score: self.lexical_score,
            integrity: self.integrity,
        }
    }
}

/// The candidate that the rows of an atom give.
pub open spec fn candidate_of(
    atom_id: Seq<u8>,
    lexical_score: u32,
    evidence: CandidateEvidence,
) -> CandidateView {
    CandidateView {
        atom_id,
        state: columns_state(evidence.stored->Some_0.state),
        lexical_score,
        integrity: IntegrityStatus::Complete,
    }
}

/// The fault of a candidate, from what the store holds about it.
pub open spec fn evidence_fault(
    root: Seq<char>,
    atom_id: Seq<u8>,
    evidence: CandidateEvidence,
) -> Option<Fault> {
    retrieval_candidate_fault(
        root,
        atom_id,
        evidence.stored,
        evidence.parsed,
        evidence.fts,
        evidence.artifacts@,
    )
}

/// The fault of an atom of the pool: that of a candidate, or that it may not be kept exactly.
pub open spec fn pool_fault(
    root: Seq<char>,
    atom_id: Seq<u8>,
    evidence: CandidateEvidence,
) -> Option<Fault> {
    either_fault(
        evidence_fault(root, atom_id, evidence),
        fault_when(
            evidence.parsed->Ok_0.body.retention_permission
                != RetentionPermission::SemanticAndExactAllowed,
            integrity_fault(
                "episodic LTM atom "@,
                atom_id,
                " lacks exact-retention permission"@,
            ),
        ),
    )
}

/// What a retrieval offers to the ranker.
#[derive(Clone, Debug)]
pub struct RecallCandidates {
    pub ranked: Vec<RetrievalCandidate>,
    pub episodic_pool: Vec<RetrievalCandidate>,
}

/// A retrieval that is loading its atoms.
pub struct RecallProgress {
    pub plan: RecallPlan,
    pub loaded: Vec<RetrievalCandidate>,
    pub pool: Vec<RetrievalCandidate>,
}

/// The atom that a retrieval looks at after so many candidates and atoms of the pool.
pub open spec fn next_recalled(plan: RecallPlan, loaded: nat, pool: nat) -> Option<Seq<u8>> {
    if loaded < plan.loaded@.len() {
        Some(plan.loaded@[loaded as int].atom_id@)
    } else if pool < plan.episodic_pool@.len() {
        Some(plan.episodic_pool@[pool as int]@)
    } else {
        None
    }
}

/// Candidates by their identity. A later one replaces an earlier one.
pub open spec fn by_identity(loaded: Seq<CandidateView>) -> Map<Seq<u8>, CandidateView>
    decreases loaded.len(),
{
    if loaded.len() == 0 {
        Map::empty()
    } else {
        by_identity(loaded.drop_last()).insert(loaded.last().atom_id, loaded.last())
    }
}

/// The candidates of a ranking, each with the score that the ranking gives to it.
pub open spec fn ranked_candidates(
    ranked: Seq<ScoredAtom>,
    loaded: Seq<CandidateView>,
) -> Seq<CandidateView> {
    ranked.map_values(
        |atom: ScoredAtom|
            CandidateView {
                lexical_score: atom.lexical_score,
                ..by_identity(loaded)[atom.atom_id@]
            },
    )
}

fn index_candidates(loaded: &Vec<RetrievalCandidate>) -> (found: ByteMap<RetrievalCandidate>)
    ensures
        found@.map_values(|candidate: RetrievalCandidate| candidate@) == by_identity(
            views(loaded@),
        ),
{
    let ghost all = views(loaded@);
    let ghost view = |candidate: RetrievalCandidate| candidate@;
    let mut found: ByteMap<RetrievalCandidate> = ByteMap::new();
    let mut i: usize = 0;
    assert(all.subrange(0, 0) =~= Seq::<CandidateView>::empty());
    assert(found@.map_values(view) =~= by_identity(all.subrange(0, 0)));
    while i < loaded.len()
        invariant
            all == views(loaded@),
            view == (|candidate: RetrievalCandidate| candidate@),
            i <= loaded@.len(),
            found@.map_values(view) == by_identity(all.subrange(0, i as int)),
        decreases loaded@.len() - i,
    {
        let ghost before = found@.map_values(view);
        found.insert(copy_bytes(loaded[i].atom_id.as_slice()), loaded[i]);
        proof {
            let longer = all.subrange(0, i + 1);
            assert(longer.drop_last() =~= all.subrange(0, i as int));
            assert(longer.last() == loaded@[i as int]@);
            assert(found@.map_values(view) =~= before.insert(
                loaded@[i as int].atom_id@,
                loaded@[i as int]@,
            ));
        }
        i += 1;
    }
    assert(all.subrange(0, i as int) =~= all);
    found
}

/// The candidates of a retrieval in the order in which they are loaded.
pub open spec fn loaded_candidates(
    plan: RecallPlan,
    evidence: Map<Seq<u8>, CandidateEvidence>,
) -> Seq<CandidateView> {
    plan.loaded@.map_values(
        |atom: ScoredAtom|
            candidate_of(atom.atom_id@, atom.lexical_score, evidence[atom.atom_id@]),
    )
}

/// The atoms of the pool of a retrieval.
pub open spec fn pool_candidates(
    pool: Seq<Seq<u8>>,
    evidence: Map<Seq<u8>, CandidateEvidence>,
) -> Seq<CandidateView> {
    pool.map_values(|atom_id: Seq<u8>| candidate_of(atom_id, 0, evidence[atom_id]))
}

/// What a retrieval offers to the ranker: the candidates in the order of their identities, and the
/// pool.
pub open spec fn offered(
    plan: RecallPlan,
    evidence: Map<Seq<u8>, CandidateEvidence>,
) -> (Seq<CandidateView>, Seq<CandidateView>) {
    (
        ranked_candidates(plan.ranked@, loaded_candidates(plan, evidence)),
        pool_candidates(digest_seq(plan.episodic_pool@), evidence),
    )
}

/// Whether a retrieval has loaded its first atoms as a store holds them.
pub open spec fn has_loaded(
    progress: RecallProgress,
    held: Map<Seq<u8>, CandidateEvidence>,
) -> bool {
    let loaded = loaded_candidates(progress.plan, held);
    let pool = pool_candidates(digest_seq(progress.plan.episodic_pool@), held);
    &&& progress.loaded@.len() <= loaded.len()
    &&& progress.pool@.len() <= pool.len()
    &&& views(progress.loaded@) == loaded.subrange(0, progress.loaded@.len() as int)
    &&& views(progress.pool@) == pool.subrange(0, progress.pool@.len() as int)
}

proof fn lemma_loading_goes_on(
    before: RecallProgress,
    after: RecallProgress,
    evidence: CandidateEvidence,
    held: Map<Seq<u8>, CandidateEvidence>,
)
    requires
        has_loaded(before, held),
        after.plan == before.plan,
        next_recalled(before.plan, before.loaded@.len(), before.pool@.len()) matches Some(
            atom_id,
        ) && held[atom_id] == evidence,
        before.loaded@.len() < before.plan.loaded@.len() ==> after.pool == before.pool && views(
            after.loaded@,
        ) == views(before.loaded@).push(
            candidate_of(
                before.plan.loaded@[before.loaded@.len() as int].atom_id@,
                before.plan.loaded@[before.loaded@.len() as int].lexical_score,
                evidence,
            ),
        ),
        before.loaded@.len() >= before.plan.loaded@.len() ==> after.loaded == before.loaded && views(
            after.pool@,
        ) == views(before.pool@).push(
            candidate_of(
                before.plan.episodic_pool@[before.pool@.len() as int]@,
                0,
                evidence,
            ),
        ),
    ensures
        has_loaded(after, held),
{
    let loaded = loaded_candidates(before.plan, held);
    let ids = digest_seq(before.plan.episodic_pool@);
    let pool = pool_candidates(ids, held);
    assert(views(before.loaded@).len() == before.loaded@.len());
    assert(views(before.pool@).len() == before.pool@.len());
    assert(views(after.loaded@).len() == after.loaded@.len());
    assert(views(after.pool@).len() == after.pool@.len());
    assert(ids.len() == before.plan.episodic_pool@.len());
    if before.loaded@.len() < before.plan.loaded@.len() {
        let place = before.loaded@.len() as int;
        assert(loaded.subrange(0, place + 1) =~= loaded.subrange(0, place).push(loaded[place]));
    } else {
        let place = before.pool@.len() as int;
        assert(ids[place] == before.plan.episodic_pool@[place]@);
        assert(pool.subrange(0, place + 1) =~= pool.subrange(0, place).push(pool[place]));
    }
}

impl RecallProgress {
    /// A retrieval that has loaded nothing yet.
    pub fn new(plan: RecallPlan) -> (progress: Self)
        ensures
            progress.plan == plan,
            progress.loaded@.len() == 0,
            progress.pool@.len() == 0,
            forall|held: Map<Seq<u8>, CandidateEvidence>| #[trigger] has_loaded(progress, held),
    {
        let progress = RecallProgress { plan, loaded: Vec::new(), pool: Vec::new() };
        assert forall|held: Map<Seq<u8>, CandidateEvidence>| #[trigger]
            has_loaded(progress, held) by {
            let loaded = loaded_candidates(plan, held);
            let pool = pool_candidates(digest_seq(plan.episodic_pool@), held);
            assert(views(progress.loaded@) =~= loaded.subrange(0, 0));
            assert(views(progress.pool@) =~= pool.subrange(0, 0));
        }
        progress
    }

    /// The atom to look at next: the candidates, the best first, and then the pool.
    pub fn next_atom(&self) -> (atom_id: Option<[u8; 32]>)
        ensures
            match atom_id {
                Some(atom_id) => next_recalled(
                    self.plan,
                    self.loaded@.len(),
                    self.pool@.len(),
                ) == Some(atom_id@),
                None => next_recalled(self.plan, self.loaded@.len(), self.pool@.len()) is None,
            },
    {
        if self.loaded.len() < self.plan.loaded.len() {
            Some(self.plan.loaded[self.loaded.len()].atom_id)
        } else if self.pool.len() < self.plan.episodic_pool.len() {
            Some(self.plan.episodic_pool[self.pool.len()])
        } else {
            None
        }
    }

    /// Loads the next atom from what the store holds about it.
    pub fn take(self, store: &ArtifactStore, evidence: &CandidateEvidence) -> (next: Result<
        Self,
        StoreError,
    >)
        ensures
            fault_of(next) == (match next_recalled(
                self.plan,
                self.loaded@.len(),
                self.pool@.len(),
            ) {
                None => None,
                Some(atom_id) => if self.loaded@.len() < self.plan.loaded@.len() {
                    evidence_fault(store@, atom_id, *evidence)
                } else {
                    pool_fault(store@, atom_id, *evidence)
                },
            }),
            next matches Ok(next) ==> next.plan == self.plan && views(next.loaded@) == (
            if self.loaded@.len() < self.plan.loaded@.len() {
                views(self.loaded@).push(
                    candidate_of(
                        self.plan.loaded@[self.loaded@.len() as int].atom_id@,
                        self.plan.loaded@[self.loaded@.len() as int].lexical_score,
                        *evidence,
                    ),
                )
            } else {
                views(self.loaded@)
            }) && views(next.pool@) == (if self.loaded@.len() < self.plan.loaded@.len()
                || self.pool@.len() >= self.plan.episodic_pool@.len() {
                views(self.pool@)
            } else {
                views(self.pool@).push(
                    candidate_of(
                        self.plan.episodic_pool@[self.pool@.len() as int]@,
                        0,
                        *evidence,
                    ),
                )
            }),
            next matches Ok(next) ==> forall|held: Map<Seq<u8>, CandidateEvidence>| #[trigger]
                has_loaded(self, held) && (next_recalled(
                    self.plan,
                    self.loaded@.len(),
                    self.pool@.len(),
                ) matches Some(atom_id) && held[atom_id] == *evidence) ==> has_loaded(next, held),
    {
        let RecallProgress { plan, loaded, pool } = self;
        let ghost before = views(loaded@);
        let ghost before_pool = views(pool@);
        let mut loaded = loaded;
        let mut pool = pool;
        if loaded.len() < plan.loaded.len() {
            let atom = plan.loaded[loaded.len()];
            let candidate = load_retrieval_candidate(
                store,
                &atom.atom_id,
                atom.lexical_score,
                &evidence.stored,
                &evidence.parsed,
                &evidence.fts,
                &evidence.artifacts,
            )?;
            loaded.push(candidate);
            assert(views(loaded@) =~= before.push(candidate@));
        } else if pool.len() < plan.episodic_pool.len() {
            let atom_id = plan.episodic_pool[pool.len()];
            let candidate = load_retrieval_candidate(
                store,
                &atom_id,
                0,
                &evidence.stored,
                &evidence.parsed,
                &evidence.fts,
                &evidence.artifacts,
            )?;
            if let Ok(typed) = &evidence.parsed {
                admit_to_pool(&atom_id, typed.body.retention_permission)?;
            }
            pool.push(candidate);
            assert(views(pool@) =~= before_pool.push(candidate@));
        }
        let next = RecallProgress { plan, loaded, pool };
        assert forall|held: Map<Seq<u8>, CandidateEvidence>| #[trigger]
            has_loaded(self, held) && (next_recalled(
                self.plan,
                self.loaded@.len(),
                self.pool@.len(),
            ) matches Some(atom_id) && held[atom_id] == *evidence) implies has_loaded(
            next,
            held,
        ) by {
            lemma_loading_goes_on(self, next, *evidence, held);
        }
        Ok(next)
    }

    /// Hands on what was loaded, the candidates in the order of their identities.
    #[verifier::loop_isolation(false)]
    pub fn finish(self) -> (found: Result<RecallCandidates, StoreError>)
        ensures
            fault_of(found) == fault_when(
                exists|i: int|
                    0 <= i < self.plan.ranked@.len() && !by_identity(
                        views(self.loaded@),
                    ).contains_key((#[trigger] self.plan.ranked@[i]).atom_id@),
                Fault::Sqlite("Query returned no rows"@),
            ),
            found matches Ok(found) ==> found.episodic_pool == self.pool && views(found.ranked@)
                == ranked_candidates(self.plan.ranked@, views(self.loaded@)),
            found matches Ok(found) ==> forall|held: Map<Seq<u8>, CandidateEvidence>| #[trigger]
                has_loaded(self, held) && next_recalled(
                    self.plan,
                    self.loaded@.len(),
                    self.pool@.len(),
                ) is None ==> (views(found.ranked@), views(found.episodic_pool@)) == offered(
                    self.plan,
                    held,
                ),
    {
        let RecallProgress { plan, loaded, pool } = self;
        let ghost known = by_identity(views(loaded@));
        let found = index_candidates(&loaded);
        let mut ranked: Vec<RetrievalCandidate> = Vec::new();
        let mut i: usize = 0;
        while i < plan.ranked.len()
            invariant
                known == by_identity(views(loaded@)),
                found@.map_values(|candidate: RetrievalCandidate| candidate@) == known,
                i <= plan.ranked@.len(),
                ranked@.len() == i,
                forall|k: int|
                    0 <= k < i ==> known.contains_key((#[trigger] plan.ranked@[k]).atom_id@),
                forall|k: int|
                    0 <= k < i ==> (#[trigger] ranked@[k])@ == ranked_candidates(
                        plan.ranked@,
                        views(loaded@),
                    )[k],
            decreases plan.ranked@.len() - i,
        {
            let atom = plan.ranked[i];
            match found.get(atom.atom_id.as_slice()) {
                Some(candidate) => {
                    assert(known[atom.atom_id@] == candidate@);
                    ranked.push(
                        RetrievalCandidate {
                            atom_id: candidate.atom_id,
                            state: candidate.state,
                            lexical_score: atom.lexical_score,
                            integrity: candidate.integrity,
                        },
                    );
                },
                None => {
                    assert(!known.contains_key(plan.ranked@[i as int].atom_id@));
                    return Err(StoreError::Sqlite("Query returned no rows".to_owned()));
                },
            }
            i += 1;
        }
        assert(views(ranked@) =~= ranked_candidates(plan.ranked@, views(loaded@)));
        assert forall|held: Map<Seq<u8>, CandidateEvidence>| #[trigger]
            has_loaded(self, held) && next_recalled(plan, loaded@.len(), pool@.len())
                is None implies (views(ranked@), views(pool@)) == offered(plan, held) by {
            let all = loaded_candidates(plan, held);
            let rest = pool_candidates(digest_seq(plan.episodic_pool@), held);
            assert(all.subrange(0, all.len() as int) =~= all);
            assert(rest.subrange(0, rest.len() as int) =~= rest);
            assert(digest_seq(plan.episodic_pool@).len() == plan.episodic_pool@.len());
        }
        Ok(RecallCandidates { ranked, episodic_pool: pool })
    }
}

// ---------------------------------------------------------------------------------------------
// The whole retrieval

/// The first fault of a retrieval in a store that holds this about its atoms.
pub open spec fn recall_fault(
    root: Seq<char>,
    plan: RecallPlan,
    evidence: Map<Seq<u8>, CandidateEvidence>,
) -> Option<Fault> {
    either_fault(
        first_indexed(
            plan.loaded@.len(),
            |i: int|
                evidence_fault(
                    root,
                    plan.loaded@[i].atom_id@,
                    evidence[plan.loaded@[i].atom_id@],
                ),
        ),
        first_indexed(
            plan.episodic_pool@.len(),
            |i: int|
                pool_fault(
                    root,
                    plan.episodic_pool@[i]@,
                    evidence[plan.episodic_pool@[i]@],
                ),
        ),
    )
}

/// Candidates without their retrieval counts.
pub open spec fn uncounted(candidates: Seq<CandidateView>) -> Seq<CandidateView> {
    candidates.map_values(|candidate: CandidateView| uncounted_candidate(candidate))
}

/// A candidate without its retrieval count.
pub open spec fn uncounted_candidate(candidate: CandidateView) -> CandidateView {
    CandidateView {
        state: StateView { retrieval_count: 0, ..candidate.state },
        ..candidate
    }
}

/// Whether a store holds the same about an atom as before, apart from how often it was retrieved.
pub open spec fn same_but_count(a: CandidateEvidence, b: CandidateEvidence) -> bool {
    &&& a.parsed == b.parsed
    &&& a.fts == b.fts
    &&& a.artifacts@ == b.artifacts@
    &&& match (a.stored, b.stored) {
        (Some(x), Some(y)) => {
            &&& x.state.retrieval_count >= 0
            &&& y.state.retrieval_count >= 0
            &&& y == (StoredRetrievalAtom {
                state: StateColumns {
                    retrieval_count: y.state.retrieval_count,
                    ..x.state
                },
                ..x
            })
        },
        (None, None) => true,
        _ => false,
    }
}

proof fn lemma_same_candidate(
    root: Seq<char>,
    atom_id: Seq<u8>,
    lexical_score: u32,
    a: CandidateEvidence,
    b: CandidateEvidence,
)
    requires
        same_but_count(a, b),
    ensures
        evidence_fault(root, atom_id, a) == evidence_fault(root, atom_id, b),
        pool_fault(root, atom_id, a) == pool_fault(root, atom_id, b),
        a.stored is Some ==> uncounted_candidate(candidate_of(atom_id, lexical_score, a))
            == uncounted_candidate(candidate_of(atom_id, lexical_score, b)),
        evidence_fault(root, atom_id, a) is None ==> a.stored is Some,
{
    match (a.stored, b.stored) {
        (Some(x), Some(y)) => {
            law_retrieval_count_decides_nothing(
                root,
                atom_id,
                x,
                y.state.retrieval_count,
                a.parsed,
                a.fts,
                a.artifacts@,
            );
        },
        _ => {},
    }
}

proof fn lemma_same_first_fault(
    count: nat,
    a: spec_fn(int) -> Option<Fault>,
    b: spec_fn(int) -> Option<Fault>,
)
    requires
        forall|i: int| 0 <= i < count ==> #[trigger] a(i) == b(i),
    ensures
        first_indexed(count, a) == first_indexed(count, b),
        first_indexed(count, a) is None ==> forall|i: int| 0 <= i < count ==> #[trigger] a(i)
            is None,
    decreases count,
{
    if count > 0 {
        lemma_same_first_fault((count - 1) as nat, a, b);
        assert(a(count - 1) == b(count - 1));
    }
}

proof fn lemma_same_by_identity(a: Seq<CandidateView>, b: Seq<CandidateView>, atom_id: Seq<u8>)
    requires
        uncounted(a) == uncounted(b),
    ensures
        by_identity(a).contains_key(atom_id) == by_identity(b).contains_key(atom_id),
        by_identity(a).contains_key(atom_id) ==> uncounted_candidate(by_identity(a)[atom_id])
            == uncounted_candidate(by_identity(b)[atom_id]),
    decreases a.len(),
{
    assert(a.len() == uncounted(a).len());
    assert(b.len() == uncounted(b).len());
    if a.len() > 0 {
        let place = a.len() - 1;
        assert(uncounted(a)[place] == uncounted_candidate(a[place]));
        assert(uncounted(b)[place] == uncounted_candidate(b[place]));
        assert(uncounted(a.drop_last()) =~= uncounted(a).drop_last());
        assert(uncounted(b.drop_last()) =~= uncounted(b).drop_last());
        lemma_same_by_identity(a.drop_last(), b.drop_last(), atom_id);
    }
}

proof fn lemma_loaded_is_known(loaded: Seq<CandidateView>, i: int)
    requires
        0 <= i < loaded.len(),
    ensures
        by_identity(loaded).contains_key(loaded[i].atom_id),
    decreases loaded.len(),
{
    if i < loaded.len() - 1 {
        lemma_loaded_is_known(loaded.drop_last(), i);
        assert(loaded.drop_last()[i] == loaded[i]);
    }
}

/// Whether two stores hold the same about the atoms of a retrieval, apart from how often the atoms
/// were retrieved.
pub open spec fn same_evidence(
    plan: RecallPlan,
    a: Map<Seq<u8>, CandidateEvidence>,
    b: Map<Seq<u8>, CandidateEvidence>,
) -> bool {
    &&& forall|i: int|
        0 <= i < plan.loaded@.len() ==> same_but_count(
            a[(#[trigger] plan.loaded@[i]).atom_id@],
            b[plan.loaded@[i].atom_id@],
        )
    &&& forall|i: int|
        0 <= i < plan.episodic_pool@.len() ==> same_but_count(
            a[(#[trigger] plan.episodic_pool@[i])@],
            b[plan.episodic_pool@[i]@],
        )
}

/// A whole retrieval is repeatable. Where it finds the same atoms with the same scores and the
/// same pool, and the store holds the same rows apart from how often their atoms were retrieved,
/// it is refused with the same error or offers the same candidates and the same pool to the
/// ranker, in the same order; nothing in them differs but the retrieval counts.
pub proof fn law_retrieval_is_repeatable(
    root: Seq<char>,
    a: RecallPlan,
    a_atoms: Seq<ScoredAtom>,
    a_evidence: Map<Seq<u8>, CandidateEvidence>,
    b: RecallPlan,
    b_atoms: Seq<ScoredAtom>,
    b_evidence: Map<Seq<u8>, CandidateEvidence>,
    candidate_max: usize,
    wants_spontaneous: bool,
    pool: Seq<Seq<u8>>,
)
    requires
        distinct_atoms(a_atoms),
        a_atoms.to_multiset() == b_atoms.to_multiset(),
        is_recall_plan(a, a_atoms, candidate_max, wants_spontaneous, pool),
        is_recall_plan(b, b_atoms, candidate_max, wants_spontaneous, pool),
        same_evidence(a, a_evidence, b_evidence),
    ensures
        recall_fault(root, a, a_evidence) == recall_fault(root, b, b_evidence),
        recall_fault(root, a, a_evidence) is None ==> {
            &&& uncounted(loaded_candidates(a, a_evidence)) == uncounted(
                loaded_candidates(b, b_evidence),
            )
            &&& uncounted(ranked_candidates(a.ranked@, loaded_candidates(a, a_evidence)))
                == uncounted(ranked_candidates(b.ranked@, loaded_candidates(b, b_evidence)))
            &&& uncounted(pool_candidates(digest_seq(a.episodic_pool@), a_evidence)) == uncounted(
                pool_candidates(digest_seq(b.episodic_pool@), b_evidence),
            )
        },
{
    law_recall_is_repeatable(a, a_atoms, b, b_atoms, candidate_max, wants_spontaneous, pool);
    let count = a.loaded@.len();
    let pool_count = a.episodic_pool@.len();
    assert(digest_seq(a.episodic_pool@).len() == pool_count);
    assert(digest_seq(b.episodic_pool@).len() == b.episodic_pool@.len());
    assert forall|i: int| 0 <= i < pool_count implies a.episodic_pool@[i]@
        == #[trigger] b.episodic_pool@[i]@ by {
        assert(digest_seq(a.episodic_pool@)[i] == a.episodic_pool@[i]@);
        assert(digest_seq(b.episodic_pool@)[i] == b.episodic_pool@[i]@);
    }
    let left = |i: int|
        evidence_fault(root, a.loaded@[i].atom_id@, a_evidence[a.loaded@[i].atom_id@]);
    let right = |i: int|
        evidence_fault(root, b.loaded@[i].atom_id@, b_evidence[b.loaded@[i].atom_id@]);
    assert forall|i: int| 0 <= i < count implies #[trigger] left(i) == right(i) by {
        let atom_id = a.loaded@[i].atom_id@;
        lemma_same_candidate(root, atom_id, 0, a_evidence[atom_id], b_evidence[atom_id]);
    }
    lemma_same_first_fault(count, left, right);
    let pool_left = |i: int|
        pool_fault(root, a.episodic_pool@[i]@, a_evidence[a.episodic_pool@[i]@]);
    let pool_right = |i: int|
        pool_fault(root, b.episodic_pool@[i]@, b_evidence[b.episodic_pool@[i]@]);
    assert forall|i: int| 0 <= i < pool_count implies #[trigger] pool_left(i) == pool_right(i) by {
        let atom_id = a.episodic_pool@[i]@;
        assert(atom_id == b.episodic_pool@[i]@);
        lemma_same_candidate(root, atom_id, 0, a_evidence[atom_id], b_evidence[atom_id]);
    }
    lemma_same_first_fault(pool_count, pool_left, pool_right);
    if recall_fault(root, a, a_evidence) is None {
        let x = loaded_candidates(a, a_evidence);
        let y = loaded_candidates(b, b_evidence);
        assert forall|i: int| 0 <= i < count implies uncounted(x)[i] == #[trigger] uncounted(
            y,
        )[i] by {
            let atom = a.loaded@[i];
            assert(left(i) is None);
            lemma_same_candidate(
                root,
                atom.atom_id@,
                atom.lexical_score,
                a_evidence[atom.atom_id@],
                b_evidence[atom.atom_id@],
            );
            assert(uncounted(x)[i] == uncounted_candidate(x[i]));
            assert(uncounted(y)[i] == uncounted_candidate(y[i]));
        }
        assert(uncounted(x) =~= uncounted(y));
        let p = ranked_candidates(a.ranked@, x);
        let q = ranked_candidates(b.ranked@, y);
        assert forall|i: int| 0 <= i < p.len() implies uncounted(p)[i] == #[trigger] uncounted(
            q,
        )[i] by {
            let atom = a.ranked@[i];
            a.ranked@.to_multiset_ensures();
            a.loaded@.to_multiset_ensures();
            assert(a.ranked@.to_multiset().count(atom) > 0);
            assert(a.loaded@.contains(atom));
            let k = a.loaded@.index_of(atom);
            assert(x[k].atom_id == atom.atom_id@);
            lemma_loaded_is_known(x, k);
            lemma_same_by_identity(x, y, atom.atom_id@);
            assert(uncounted(p)[i] == uncounted_candidate(p[i]));
            assert(uncounted(q)[i] == uncounted_candidate(q[i]));
        }
        assert(uncounted(p) =~= uncounted(q));
        let ids = digest_seq(a.episodic_pool@);
        let m = pool_candidates(ids, a_evidence);
        let n = pool_candidates(ids, b_evidence);
        assert forall|i: int| 0 <= i < m.len() implies uncounted(m)[i] == #[trigger] uncounted(
            n,
        )[i] by {
            assert(ids[i] == a.episodic_pool@[i]@);
            assert(pool_left(i) is None);
            lemma_same_candidate(root, ids[i], 0, a_evidence[ids[i]], b_evidence[ids[i]]);
            assert(uncounted(m)[i] == uncounted_candidate(m[i]));
            assert(uncounted(n)[i] == uncounted_candidate(n[i]));
        }
        assert(uncounted(m) =~= uncounted(n));
    }
}

/// Whether a ranker ranks alike what differs in nothing but retrieval counts.
pub open spec fn ignores_counts<R>(
    rank: spec_fn((Seq<CandidateView>, Seq<CandidateView>)) -> R,
) -> bool {
    forall|a: (Seq<CandidateView>, Seq<CandidateView>), b: (Seq<CandidateView>, Seq<CandidateView>)|
        uncounted(a.0) == uncounted(b.0) && uncounted(a.1) == uncounted(b.1) ==> #[trigger] rank(a)
            == #[trigger] rank(b)
}

/// Retrieving once more recalls the same: under a ranker that does not read retrieval counts, a
/// retrieval after which nothing was written but its counts has the same result.
pub proof fn law_retrieving_again_recalls_the_same<R>(
    root: Seq<char>,
    a: RecallPlan,
    a_atoms: Seq<ScoredAtom>,
    a_evidence: Map<Seq<u8>, CandidateEvidence>,
    b: RecallPlan,
    b_atoms: Seq<ScoredAtom>,
    b_evidence: Map<Seq<u8>, CandidateEvidence>,
    candidate_max: usize,
    wants_spontaneous: bool,
    pool: Seq<Seq<u8>>,
    rank: spec_fn((Seq<CandidateView>, Seq<CandidateView>)) -> R,
)
    requires
        distinct_atoms(a_atoms),
        a_atoms.to_multiset() == b_atoms.to_multiset(),
        is_recall_plan(a, a_atoms, candidate_max, wants_spontaneous, pool),
        is_recall_plan(b, b_atoms, candidate_max, wants_spontaneous, pool),
        same_evidence(a, a_evidence, b_evidence),
        recall_fault(root, a, a_evidence) is None,
        ignores_counts(rank),
    ensures
        recall_fault(root, b, b_evidence) is None,
        rank(offered(a, a_evidence)) == rank(offered(b, b_evidence)),
{
    law_retrieval_is_repeatable(
        root,
        a,
        a_atoms,
        a_evidence,
        b,
        b_atoms,
        b_evidence,
        candidate_max,
        wants_spontaneous,
        pool,
    );
}

/// An atom may recur spontaneously exactly where it could be recalled and may be kept exactly.
pub proof fn law_spontaneous_atom_may_be_kept_exactly(
    root: Seq<char>,
    atom_id: Seq<u8>,
    evidence: CandidateEvidence,
)
    ensures
        pool_fault(root, atom_id, evidence) is None <==> {
            &&& evidence_fault(root, atom_id, evidence) is None
            &&& evidence.parsed matches Ok(typed)
            &&& typed.body.retention_permission is SemanticAndExactAllowed
        },
{
}

/// A recall is made exactly where every candidate can be recalled and every atom of the pool may
/// recur.
pub proof fn law_recall_is_made_exactly(
    root: Seq<char>,
    plan: RecallPlan,
    evidence: Map<Seq<u8>, CandidateEvidence>,
)
    ensures
        recall_fault(root, plan, evidence) is None <==> {
            &&& forall|i: int|
                0 <= i < plan.loaded@.len() ==> evidence_fault(
                    root,
                    (#[trigger] plan.loaded@[i]).atom_id@,
                    evidence[plan.loaded@[i].atom_id@],
                ) is None
            &&& forall|i: int|
                0 <= i < plan.episodic_pool@.len() ==> pool_fault(
                    root,
                    (#[trigger] plan.episodic_pool@[i])@,
                    evidence[plan.episodic_pool@[i]@],
                ) is None
        },
{
    let unloaded = |i: int|
        evidence_fault(root, plan.loaded@[i].atom_id@, evidence[plan.loaded@[i].atom_id@]);
    let unfit = |i: int|
        pool_fault(root, plan.episodic_pool@[i]@, evidence[plan.episodic_pool@[i]@]);
    crate::folding::lemma_no_first_indexed(plan.loaded@.len(), unloaded);
    crate::folding::lemma_no_first_indexed(plan.episodic_pool@.len(), unfit);
    if recall_fault(root, plan, evidence) is None {
        assert forall|i: int| 0 <= i < plan.loaded@.len() implies evidence_fault(
            root,
            (#[trigger] plan.loaded@[i]).atom_id@,
            evidence[plan.loaded@[i].atom_id@],
        ) is None by {
            assert(unloaded(i) is None);
        }
        assert forall|i: int| 0 <= i < plan.episodic_pool@.len() implies pool_fault(
            root,
            (#[trigger] plan.episodic_pool@[i])@,
            evidence[plan.episodic_pool@[i]@],
        ) is None by {
            assert(unfit(i) is None);
        }
    }
    if forall|i: int|
        0 <= i < plan.loaded@.len() ==> evidence_fault(
            root,
            (#[trigger] plan.loaded@[i]).atom_id@,
            evidence[plan.loaded@[i].atom_id@],
        ) is None {
        assert forall|i: int| 0 <= i < plan.loaded@.len() implies #[trigger] unloaded(i) is None by {
            assert(evidence_fault(
                root,
                plan.loaded@[i].atom_id@,
                evidence[plan.loaded@[i].atom_id@],
            ) is None);
        }
    }
    if forall|i: int|
        0 <= i < plan.episodic_pool@.len() ==> pool_fault(
            root,
            (#[trigger] plan.episodic_pool@[i])@,
            evidence[plan.episodic_pool@[i]@],
        ) is None {
        assert forall|i: int| 0 <= i < plan.episodic_pool@.len() implies #[trigger] unfit(
            i,
        ) is None by {
            assert(pool_fault(
                root,
                plan.episodic_pool@[i]@,
                evidence[plan.episodic_pool@[i]@],
            ) is None);
        }
    }
}

proof fn lemma_found_by_identity(loaded: Seq<CandidateView>, k: int)
    requires
        0 <= k < loaded.len(),
    ensures
        exists|j: int|
            0 <= j < loaded.len() && loaded[j].atom_id == loaded[k].atom_id && by_identity(
                loaded,
            )[loaded[k].atom_id] == #[trigger] loaded[j],
    decreases loaded.len(),
{
    let shorter = loaded.drop_last();
    let last = loaded.len() - 1;
    assert(loaded.last() == loaded[last]);
    if loaded[last].atom_id != loaded[k].atom_id {
        assert(shorter[k] == loaded[k]);
        lemma_found_by_identity(shorter, k);
        let j = choose|j: int|
            0 <= j < shorter.len() && shorter[j].atom_id == shorter[k].atom_id && by_identity(
                shorter,
            )[shorter[k].atom_id] == #[trigger] shorter[j];
        assert(loaded[j] == shorter[j]);
    }
}

/// What is offered to the ranking is the candidates in the order of their ranks: each with its
/// identity, its lexical score and the state that the store has of it, and complete; behind them
/// the pool, which has no lexical score.
pub proof fn law_offered_are_the_ranked_candidates(
    plan: RecallPlan,
    evidence: Map<Seq<u8>, CandidateEvidence>,
    i: int,
    k: int,
)
    requires
        0 <= i < plan.ranked@.len(),
        0 <= k < plan.loaded@.len(),
        plan.loaded@[k].atom_id@ == plan.ranked@[i].atom_id@,
    ensures
        ({
            let ranked = offered(plan, evidence).0;
            let atom_id = plan.ranked@[i].atom_id@;
            &&& ranked.len() == plan.ranked@.len()
            &&& ranked[i].atom_id == atom_id
            &&& ranked[i].lexical_score == plan.ranked@[i].lexical_score
            &&& ranked[i].state == columns_state(evidence[atom_id].stored->0.state)
            &&& ranked[i].integrity is Complete
        }),
{
    let loaded = loaded_candidates(plan, evidence);
    let atom_id = plan.ranked@[i].atom_id@;
    assert(loaded[k].atom_id == atom_id);
    lemma_found_by_identity(loaded, k);
    let j = choose|j: int|
        0 <= j < loaded.len() && loaded[j].atom_id == loaded[k].atom_id && by_identity(
            loaded,
        )[loaded[k].atom_id] == #[trigger] loaded[j];
    assert(loaded[j] == candidate_of(
        plan.loaded@[j].atom_id@,
        plan.loaded@[j].lexical_score,
        evidence[plan.loaded@[j].atom_id@],
    ));
}

/// The pool is offered as planned: its atoms in order, each with its state and no lexical score.
pub proof fn law_pool_is_offered_as_planned(
    plan: RecallPlan,
    evidence: Map<Seq<u8>, CandidateEvidence>,
    i: int,
)
    ensures
        ({
            let pool = offered(plan, evidence).1;
            &&& pool.len() == plan.episodic_pool@.len()
            &&& 0 <= i < pool.len() ==> {
                let atom_id = plan.episodic_pool@[i]@;
                &&& pool[i].atom_id == atom_id
                &&& pool[i].lexical_score == 0
                &&& pool[i].state == columns_state(evidence[atom_id].stored->0.state)
                &&& pool[i].integrity is Complete
            }
        }),
{
}

/// Candidates are asked for one by one: first those that were selected, then the pool, then none.
pub proof fn law_candidates_are_asked_for_in_order(plan: RecallPlan, loaded: nat, pool: nat)
    ensures
        loaded < plan.loaded@.len() ==> next_recalled(plan, loaded, pool) == Some(
            plan.loaded@[loaded as int].atom_id@,
        ),
        loaded >= plan.loaded@.len() && pool < plan.episodic_pool@.len() ==> next_recalled(
            plan,
            loaded,
            pool,
        ) == Some(plan.episodic_pool@[pool as int]@),
        next_recalled(plan, loaded, pool) is None <==> loaded >= plan.loaded@.len() && pool
            >= plan.episodic_pool@.len(),
{
}

} // verus!
