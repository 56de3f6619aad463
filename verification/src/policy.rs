//! The committed policy as the database holds it.

use vstd::prelude::*;
use vstd::string::*;

use crate::error::{Fault, StoreError, either_fault, fault_of, fault_when, integrity};
use crate::model::Policy;
use crate::stored::{sqlite_integer, sqlite_integer_fault};
use crate::text::{same_bytes, same_text, text2};

verus! {

/// The row of the committed policy.
#[derive(Clone, Debug)]
pub struct PolicyRow {
    pub policy_digest: Vec<u8>,
    pub canonical_body: Vec<u8>,
    pub json_projection: String,
    pub installed_at_us: i64,
}

/// Whether a row holds a policy.
pub open spec fn holds_policy(row: PolicyRow, policy: Policy) -> bool {
    &&& row.policy_digest@ == policy.digest@
    &&& row.canonical_body@ == policy.canonical_body@
    &&& row.json_projection@ == policy.json_projection@
}

fn row_holds(row: &PolicyRow, policy: &Policy) -> (holds: bool)
    ensures
        holds == holds_policy(*row, *policy),
{
    same_bytes(row.policy_digest.as_slice(), policy.digest.as_slice()) && same_bytes(
        row.canonical_body.as_slice(),
        policy.canonical_body.as_slice(),
    ) && same_text(row.json_projection.as_str(), policy.json_projection.as_str())
}

/// The fault of a database that does not hold the committed policy and nothing else.
pub open spec fn persisted_policy_fault(
    row: Option<PolicyRow>,
    policy_count: i64,
    policy: Policy,
) -> Option<Fault> {
    match row {
        None => Some(Fault::Integrity("poc-v1 policy authority is missing"@)),
        Some(row) => fault_when(
            policy_count != 1 || !holds_policy(row, policy) || row.installed_at_us < 0,
            Fault::Integrity("persisted poc-v1 policy does not match committed authority"@),
        ),
    }
}

/// Accepts a database that holds the committed policy and no other.
pub fn verify_persisted_poc_policy(row: &Option<PolicyRow>, policy_count: i64, policy: &Policy) -> (verdict:
    Result<(), StoreError>)
    ensures
        fault_of(verdict) == persisted_policy_fault(*row, policy_count, *policy),
{
    match row {
        None => Err(integrity("poc-v1 policy authority is missing")),
        Some(row) => {
            if policy_count != 1 || !row_holds(row, policy) || row.installed_at_us < 0 {
                return Err(
                    integrity("persisted poc-v1 policy does not match committed authority"),
                );
            }
            Ok(())
        },
    }
}

/// The fault of installing a policy: the memory core rejects it, its time does not fit, or another
/// policy stands under its name.
pub open spec fn installation_fault(
    policy: Policy,
    rejection: Option<String>,
    installed_at_us: u64,
    persisted: PolicyRow,
) -> Option<Fault> {
    either_fault(
        match rejection {
            Some(text) => Some(Fault::Core(text@)),
            None => None,
        },
        either_fault(
            sqlite_integer_fault(installed_at_us, "installed_at_us"@),
            fault_when(
                !holds_policy(persisted, policy),
                Fault::ImmutableConflict("policy "@ + policy.policy_id@),
            ),
        ),
    )
}

/// Confirms that a policy is installed: the row that was inserted or stood there before holds it.
pub fn install_policy(
    policy: &Policy,
    rejection: &Option<String>,
    installed_at_us: u64,
    persisted: &PolicyRow,
) -> (verdict: Result<(), StoreError>)
    ensures
        fault_of(verdict) == installation_fault(*policy, *rejection, installed_at_us, *persisted),
{
    if let Some(text) = rejection {
        return Err(StoreError::Core(text.clone()));
    }
    sqlite_integer(installed_at_us, "installed_at_us")?;
    if !row_holds(persisted, policy) {
        return Err(
            StoreError::ImmutableConflict(text2("policy ", policy.policy_id.as_str())),
        );
    }
    Ok(())
}

/// A policy that was installed at some time into a database without another one verifies.
pub proof fn law_installed_policy_verifies(
    policy: Policy,
    rejection: Option<String>,
    installed_at_us: u64,
    persisted: PolicyRow,
)
    requires
        installation_fault(policy, rejection, installed_at_us, persisted) is None,
        persisted.installed_at_us >= 0,
    ensures
        persisted_policy_fault(Some(persisted), 1, policy) is None,
{
}

/// A database is accepted exactly where it holds one policy, the committed one to the byte,
/// installed at a time that is not negative.
pub proof fn law_policy_is_accepted_exactly_as_committed(
    row: Option<PolicyRow>,
    policy_count: i64,
    policy: Policy,
)
    ensures
        persisted_policy_fault(row, policy_count, policy) is None <==> {
            &&& row matches Some(row)
            &&& policy_count == 1
            &&& row.policy_digest@ == policy.digest@
            &&& row.canonical_body@ == policy.canonical_body@
            &&& row.json_projection@ == policy.json_projection@
            &&& row.installed_at_us >= 0
        },
{
}

/// A policy is installed exactly where the memory core does not reject it, its time fits a column
/// and what stands under its name then is the policy itself.
pub proof fn law_policy_is_installed_exactly_once(
    policy: Policy,
    rejection: Option<String>,
    installed_at_us: u64,
    persisted: PolicyRow,
)
    ensures
        installation_fault(policy, rejection, installed_at_us, persisted) is None <==> {
            &&& rejection is None
            &&& installed_at_us <= i64::MAX
            &&& persisted.policy_digest@ == policy.digest@
            &&& persisted.canonical_body@ == policy.canonical_body@
            &&& persisted.json_projection@ == policy.json_projection@
        },
{
}

/// Another policy under the name of the committed one is a conflict of immutable content; a policy
/// that the memory core rejects is reported in the words of the core.
pub proof fn law_other_policy_is_a_conflict(
    policy: Policy,
    rejection: Option<String>,
    installed_at_us: u64,
    persisted: PolicyRow,
)
    ensures
        rejection matches Some(text) ==> installation_fault(
            policy,
            rejection,
            installed_at_us,
            persisted,
        ) == Some(Fault::Core(text@)),
        rejection is None && installed_at_us <= i64::MAX ==> (installation_fault(
            policy,
            rejection,
            installed_at_us,
            persisted,
        ) matches Some(fault) ==> fault is ImmutableConflict),
{
}

} // verus!
