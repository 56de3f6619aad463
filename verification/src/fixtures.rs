//! The instances that are written for the public schemas.

use vstd::prelude::*;
use vstd::string::*;

use crate::evidence::{EvidenceError, refusal_of, refuse};
use crate::snapshot::MICROSECONDS_PER_DAY;
use crate::text::{text2, text3};

verus! {

/// Which schema an instance belongs to.
#[derive(Clone, Debug)]
pub struct BindingV1 {
    pub schema: String,
    pub instance: String,
}

/// The files of a contract: its schema, and the instance that is written for it.
pub fn schema_binding(contract: &str) -> (binding: BindingV1)
    ensures
        binding.schema@ == "schemas/"@ + contract@ + ".schema.json"@,
        binding.instance@ == contract@ + ".json"@,
{
    BindingV1 {
        schema: text3("schemas/", contract, ".schema.json"),
        instance: text2(contract, ".json"),
    }
}

/// A time plus a horizon, as far as eight bytes hold it.
pub open spec fn expiry(recorded_at_us: u64, horizon_us: u64) -> int {
    if recorded_at_us + horizon_us > u64::MAX {
        u64::MAX as int
    } else {
        recorded_at_us + horizon_us
    }
}

/// Whether a time is the latest at which one of some atoms expires.
pub open spec fn is_latest_expiry(latest: u64, recorded: Seq<u64>, horizon_us: u64) -> bool {
    &&& exists|i: int| 0 <= i < recorded.len() && expiry(#[trigger] recorded[i], horizon_us)
        == latest
    &&& forall|i: int|
        0 <= i < recorded.len() ==> expiry(#[trigger] recorded[i], horizon_us) <= latest
}

/// The day of a cohort, and when it retires.
#[derive(Clone, Copy, Debug)]
pub struct CohortBoundary {
    pub cohort_day: u64,
    pub as_of_us: u64,
}

/// The boundary of the cohort of some atoms: it retires at the end of the day on which the last of
/// them expires.
pub fn fixture_cohort(recorded: &Vec<u64>, horizon_us: u64) -> (boundary: Result<
    CohortBoundary,
    EvidenceError,
>)
    ensures
        recorded@.len() == 0 ==> refusal_of(boundary) == Some(
            "synthetic schema world has no atoms"@,
        ),
        recorded@.len() > 0 ==> exists|latest: u64| {
            let day = latest as int / MICROSECONDS_PER_DAY as int;
            &&& #[trigger] is_latest_expiry(latest, recorded@, horizon_us)
            &&& (day + 1) * MICROSECONDS_PER_DAY > u64::MAX ==> refusal_of(boundary) == Some(
                "typed fixture retirement cohort boundary overflow"@,
            )
            &&& (day + 1) * MICROSECONDS_PER_DAY <= u64::MAX ==> (boundary matches Ok(boundary)
                && boundary.cohort_day == day && boundary.as_of_us == (day + 1)
                * MICROSECONDS_PER_DAY)
        },
{
    if recorded.len() == 0 {
        return Err(refuse("synthetic schema world has no atoms"));
    }
    let mut latest: u64 = recorded[0].saturating_add(horizon_us);
    let mut i: usize = 1;
    assert(expiry(recorded@[0], horizon_us) == latest);
    while i < recorded.len()
        invariant
            1 <= i <= recorded@.len(),
            exists|k: int| 0 <= k < i && expiry(#[trigger] recorded@[k], horizon_us) == latest,
            forall|k: int| 0 <= k < i ==> expiry(#[trigger] recorded@[k], horizon_us) <= latest,
        decreases recorded@.len() - i,
    {
        let expires: u64 = recorded[i].saturating_add(horizon_us);
        assert(expiry(recorded@[i as int], horizon_us) == expires);
        if expires > latest {
            latest = expires;
        }
        i += 1;
    }
    assert(is_latest_expiry(latest, recorded@, horizon_us));
    let cohort_day: u64 = latest / MICROSECONDS_PER_DAY;
    match (cohort_day + 1).checked_mul(MICROSECONDS_PER_DAY) {
        Some(as_of_us) => Ok(CohortBoundary { cohort_day, as_of_us }),
        None => Err(refuse("typed fixture retirement cohort boundary overflow")),
    }
}

/// An atom expires a horizon after it was recorded, or at the end of time.
pub proof fn law_atom_expires_after_its_horizon(recorded_at_us: u64, horizon_us: u64)
    ensures
        recorded_at_us + horizon_us <= u64::MAX ==> expiry(recorded_at_us, horizon_us)
            == recorded_at_us + horizon_us,
        expiry(recorded_at_us, horizon_us) <= u64::MAX,
        expiry(recorded_at_us, horizon_us) >= recorded_at_us,
        expiry(recorded_at_us, horizon_us) >= horizon_us,
{
}

/// There is one latest expiry: no atom expires later, and some atom expires then.
pub proof fn law_latest_expiry_is_one(
    a: u64,
    b: u64,
    recorded: Seq<u64>,
    horizon_us: u64,
    i: int,
)
    requires
        is_latest_expiry(a, recorded, horizon_us),
        is_latest_expiry(b, recorded, horizon_us),
        0 <= i < recorded.len(),
    ensures
        a == b,
        recorded[i] + horizon_us <= u64::MAX ==> recorded[i] + horizon_us <= a,
{
    assert(expiry(recorded[i], horizon_us) <= a);
    let x = choose|x: int|
        0 <= x < recorded.len() && expiry(#[trigger] recorded[x], horizon_us) == a;
    let y = choose|y: int|
        0 <= y < recorded.len() && expiry(#[trigger] recorded[y], horizon_us) == b;
    assert(expiry(recorded[x], horizon_us) <= b);
    assert(expiry(recorded[y], horizon_us) <= a);
}

} // verus!
