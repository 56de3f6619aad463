//! Loading tables row by row: the first row that fails decides.

use vstd::prelude::*;

verus! {

/// Takes rows one after the other, starting from `start`, until one fails.
pub open spec fn folded<R, M, E>(
    rows: Seq<R>,
    start: M,
    step: spec_fn(M, R) -> Result<M, E>,
) -> Result<M, E>
    decreases rows.len(),
{
    if rows.len() == 0 {
        Ok(start)
    } else {
        match folded(rows.drop_last(), start, step) {
            Ok(table) => step(table, rows.last()),
            Err(fault) => Err(fault),
        }
    }
}

/// The fault of the first row that has one.
pub open spec fn first_fault<R, E>(rows: Seq<R>, fault: spec_fn(R) -> Option<E>) -> Option<E>
    decreases rows.len(),
{
    if rows.len() == 0 {
        None
    } else {
        match first_fault(rows.drop_last(), fault) {
            Some(found) => Some(found),
            None => fault(rows.last()),
        }
    }
}

/// One more row: the fold over a prefix determines the fold over the next longer prefix.
pub proof fn lemma_folded_step<R, M, E>(
    rows: Seq<R>,
    start: M,
    step: spec_fn(M, R) -> Result<M, E>,
    i: int,
)
    requires
        0 <= i < rows.len(),
    ensures
        folded(rows.subrange(0, i + 1), start, step) == (match folded(
            rows.subrange(0, i),
            start,
            step,
        ) {
            Ok(table) => step(table, rows[i]),
            Err(fault) => Err(fault),
        }),
{
    assert(rows.subrange(0, i + 1).drop_last() =~= rows.subrange(0, i));
    assert(rows.subrange(0, i + 1).last() == rows[i]);
}

/// A row that fails decides, whatever comes after it.
pub proof fn lemma_folded_stops<R, M, E>(
    rows: Seq<R>,
    start: M,
    step: spec_fn(M, R) -> Result<M, E>,
    i: int,
)
    requires
        0 <= i <= rows.len(),
        folded(rows.subrange(0, i), start, step) is Err,
    ensures
        folded(rows, start, step) == folded(rows.subrange(0, i), start, step),
    decreases rows.len() - i,
{
    if i == rows.len() {
        assert(rows.subrange(0, i) =~= rows);
    } else {
        lemma_folded_step(rows, start, step, i);
        lemma_folded_stops(rows, start, step, i + 1);
    }
}

/// One more row: the first fault of a prefix determines that of the next longer prefix.
pub proof fn lemma_first_fault_step<R, E>(rows: Seq<R>, fault: spec_fn(R) -> Option<E>, i: int)
    requires
        0 <= i < rows.len(),
    ensures
        first_fault(rows.subrange(0, i + 1), fault) == (match first_fault(
            rows.subrange(0, i),
            fault,
        ) {
            Some(found) => Some(found),
            None => fault(rows[i]),
        }),
{
    assert(rows.subrange(0, i + 1).drop_last() =~= rows.subrange(0, i));
    assert(rows.subrange(0, i + 1).last() == rows[i]);
}

/// A fault decides, whatever comes after it.
pub proof fn lemma_first_fault_stops<R, E>(rows: Seq<R>, fault: spec_fn(R) -> Option<E>, i: int)
    requires
        0 <= i <= rows.len(),
        first_fault(rows.subrange(0, i), fault) is Some,
    ensures
        first_fault(rows, fault) == first_fault(rows.subrange(0, i), fault),
    decreases rows.len() - i,
{
    if i == rows.len() {
        assert(rows.subrange(0, i) =~= rows);
    } else {
        lemma_first_fault_step(rows, fault, i);
        lemma_first_fault_stops(rows, fault, i + 1);
    }
}

/// No row has a fault exactly when there is no first one.
pub proof fn lemma_no_first_fault<R, E>(rows: Seq<R>, fault: spec_fn(R) -> Option<E>)
    ensures
        first_fault(rows, fault) is None <==> forall|i: int|
            0 <= i < rows.len() ==> fault(#[trigger] rows[i]) is None,
    decreases rows.len(),
{
    if rows.len() > 0 {
        let shorter = rows.drop_last();
        lemma_no_first_fault(shorter, fault);
        if first_fault(rows, fault) is None {
            assert forall|i: int| 0 <= i < rows.len() implies fault(#[trigger] rows[i]) is None by {
                if i < shorter.len() {
                    assert(shorter[i] == rows[i]);
                }
            }
        }
        if forall|i: int| 0 <= i < rows.len() ==> fault(#[trigger] rows[i]) is None {
            assert forall|i: int| 0 <= i < shorter.len() implies fault(
                #[trigger] shorter[i],
            ) is None by {
                assert(shorter[i] == rows[i]);
            }
            assert(fault(rows[rows.len() - 1]) is None);
        }
    }
}

/// The fault at the first of `count` places that has one.
pub open spec fn first_indexed<E>(count: nat, fault: spec_fn(int) -> Option<E>) -> Option<E>
    decreases count,
{
    if count == 0 {
        None
    } else {
        match first_indexed((count - 1) as nat, fault) {
            Some(found) => Some(found),
            None => fault(count - 1),
        }
    }
}

/// A fault decides, whatever stands at later places.
pub proof fn lemma_first_indexed_stops<E>(
    count: nat,
    fault: spec_fn(int) -> Option<E>,
    reached: nat,
)
    requires
        reached <= count,
        first_indexed(reached, fault) is Some,
    ensures
        first_indexed(count, fault) == first_indexed(reached, fault),
    decreases count,
{
    if reached < count {
        lemma_first_indexed_stops((count - 1) as nat, fault, reached);
    }
}

/// No place has a fault exactly when there is no first one.
pub proof fn lemma_no_first_indexed<E>(count: nat, fault: spec_fn(int) -> Option<E>)
    ensures
        first_indexed(count, fault) is None <==> forall|i: int|
            0 <= i < count ==> #[trigger] fault(i) is None,
    decreases count,
{
    if count > 0 {
        lemma_no_first_indexed((count - 1) as nat, fault);
        assert(fault(count - 1) == fault(count - 1));
    }
}

/// One row more: the fold over the rest determines the fold over all.
pub proof fn lemma_folded_push<R, M, E>(
    rows: Seq<R>,
    row: R,
    start: M,
    step: spec_fn(M, R) -> Result<M, E>,
)
    ensures
        folded(rows.push(row), start, step) == (match folded(rows, start, step) {
            Ok(table) => step(table, row),
            Err(fault) => Err(fault),
        }),
{
    assert(rows.push(row).drop_last() =~= rows);
}

} // verus!
