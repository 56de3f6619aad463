//! Conversions between stored column values and the values the store reasons about.

use vstd::array::*;
use vstd::prelude::*;
use vstd::string::*;

use crate::error::{Fault, StoreError, fault_of, fault_when};
use crate::text::{optional_bytes, signed_decimal, signed_decimal_text, text4};

verus! {

/// The fault of a blob that is not a digest.
pub open spec fn digest_fault(bytes: Seq<u8>, field: Seq<char>) -> Option<Fault> {
    fault_when(
        bytes.len() != 32,
        Fault::InvalidDigestLength { field, actual: bytes.len() },
    )
}

/// Reads a blob of exactly 32 bytes as a digest.
pub fn digest_array(bytes: &[u8], field: &'static str) -> (digest: Result<[u8; 32], StoreError>)
    ensures
        fault_of(digest) == digest_fault(bytes@, field@),
        digest matches Ok(digest) ==> digest@ == bytes@,
{
    if bytes.len() != 32 {
        return Err(StoreError::InvalidDigestLength { field, actual: bytes.len() });
    }
    let mut digest: [u8; 32] = [0u8; 32];
    let mut i: usize = 0;
    while i < 32
        invariant
            i <= 32,
            bytes@.len() == 32,
            digest@.len() == 32,
            forall|j: int| 0 <= j < i ==> digest@[j] == bytes@[j],
        decreases 32 - i,
    {
        digest.set(i, bytes[i]);
        i += 1;
    }
    assert(digest@ =~= bytes@);
    Ok(digest)
}

/// Whether two digests are equal.
pub fn same_digest(a: &[u8; 32], b: &[u8; 32]) -> (same: bool)
    ensures
        same == (a@ == b@),
{
    crate::text::same_bytes(a.as_slice(), b.as_slice())
}

/// The bytes that an optional digest holds.
pub open spec fn optional_digest(value: Option<[u8; 32]>) -> Option<Seq<u8>> {
    match value {
        Some(digest) => Some(digest@),
        None => None,
    }
}

/// Whether two optional digests are equal.
pub fn same_optional_digest(a: &Option<[u8; 32]>, b: &Option<[u8; 32]>) -> (same: bool)
    ensures
        same == (optional_digest(*a) == optional_digest(*b)),
{
    match (a, b) {
        (Some(a), Some(b)) => same_digest(a, b),
        (None, None) => true,
        _ => false,
    }
}

/// The fault of an optional blob that is present and not a digest.
pub open spec fn optional_digest_fault(bytes: Option<Seq<u8>>, field: Seq<char>) -> Option<Fault> {
    match bytes {
        Some(bytes) => digest_fault(bytes, field),
        None => None,
    }
}

/// Reads an optional blob as an optional digest.
pub fn optional_digest_array(bytes: &Option<Vec<u8>>, field: &'static str) -> (digest: Result<
    Option<[u8; 32]>,
    StoreError,
>)
    ensures
        fault_of(digest) == optional_digest_fault(optional_bytes(*bytes), field@),
        digest matches Ok(digest) ==> optional_digest(digest) == optional_bytes(*bytes),
{
    match bytes {
        Some(bytes) => Ok(Some(digest_array(bytes.as_slice(), field)?)),
        None => Ok(None),
    }
}

/// The fault of an unsigned value that no signed 64-bit column holds.
pub open spec fn sqlite_integer_fault(value: u64, field: Seq<char>) -> Option<Fault> {
    fault_when(value > i64::MAX, Fault::IntegerOutOfRange { field, value })
}

/// Turns an unsigned value into the value of a signed 64-bit column.
pub fn sqlite_integer(value: u64, field: &'static str) -> (stored: Result<i64, StoreError>)
    ensures
        fault_of(stored) == sqlite_integer_fault(value, field@),
        stored matches Ok(stored) ==> stored == value,
{
    if value > i64::MAX as u64 {
        return Err(StoreError::IntegerOutOfRange { field, value });
    }
    Ok(value as i64)
}

/// The fault of a column value that is negative.
pub open spec fn unsigned_fault(value: i64, field: Seq<char>) -> Option<Fault> {
    fault_when(
        value < 0,
        Fault::Integrity(
            "negative SQLite integer for "@ + field + ": "@ + signed_decimal(value as int),
        ),
    )
}

/// Turns a column value that must not be negative into an unsigned value.
pub fn unsigned_integer(value: i64, field: &'static str) -> (unsigned: Result<u64, StoreError>)
    ensures
        fault_of(unsigned) == unsigned_fault(value, field@),
        unsigned matches Ok(unsigned) ==> unsigned == value,
{
    if value < 0 {
        let text = signed_decimal_text(value);
        return Err(
            StoreError::Integrity(
                text4("negative SQLite integer for ", field, ": ", text.as_str()),
            ),
        );
    }
    Ok(value as u64)
}

/// The fault of an optional column value that is present and negative.
pub open spec fn optional_unsigned_fault(value: Option<i64>, field: Seq<char>) -> Option<Fault> {
    match value {
        Some(value) => unsigned_fault(value, field),
        None => None,
    }
}

/// The unsigned value that an optional column holds.
pub open spec fn optional_unsigned(value: Option<i64>) -> Option<u64> {
    match value {
        Some(value) => Some(value as u64),
        None => None,
    }
}

/// Turns an optional column value into an optional unsigned value.
pub fn optional_unsigned_integer(value: Option<i64>, field: &'static str) -> (unsigned: Result<
    Option<u64>,
    StoreError,
>)
    ensures
        fault_of(unsigned) == optional_unsigned_fault(value, field@),
        unsigned matches Ok(unsigned) ==> unsigned == optional_unsigned(value),
{
    match value {
        Some(value) => Ok(Some(unsigned_integer(value, field)?)),
        None => Ok(None),
    }
}

/// The fault of a column value that is neither zero nor one.
pub open spec fn bool_fault(value: i64, field: Seq<char>) -> Option<Fault> {
    fault_when(
        value != 0 && value != 1,
        Fault::Integrity(
            "invalid SQLite boolean for "@ + field + ": "@ + signed_decimal(value as int),
        ),
    )
}

/// Reads a column that holds zero or one.
pub fn sqlite_bool(value: i64, field: &'static str) -> (flag: Result<bool, StoreError>)
    ensures
        fault_of(flag) == bool_fault(value, field@),
        flag matches Ok(flag) ==> flag == (value == 1),
{
    if value == 0 {
        Ok(false)
    } else if value == 1 {
        Ok(true)
    } else {
        let text = signed_decimal_text(value);
        Err(
            StoreError::Integrity(
                text4("invalid SQLite boolean for ", field, ": ", text.as_str()),
            ),
        )
    }
}

/// Writes a flag as the column value zero or one.
pub fn stored_bool(flag: bool) -> (value: i64)
    ensures
        value == (if flag {
            1int
        } else {
            0
        }),
{
    if flag {
        1
    } else {
        0
    }
}

/// What is written to an integer column reads back unchanged, under any pair of field names.
pub proof fn law_integer_column_round_trip(value: u64, written: Seq<char>, read: Seq<char>)
    requires
        sqlite_integer_fault(value, written) is None,
    ensures
        unsigned_fault(value as i64, read) is None,
        (value as i64) as u64 == value,
{
}

/// What reads back as an unsigned value can be written again, under any pair of field names.
pub proof fn law_unsigned_column_can_be_rewritten(value: i64, read: Seq<char>, written: Seq<char>)
    requires
        unsigned_fault(value, read) is None,
    ensures
        sqlite_integer_fault(value as u64, written) is None,
        (value as u64) as i64 == value,
{
}

/// The bytes of each digest of a list.
pub open spec fn digest_seq(digests: Seq<[u8; 32]>) -> Seq<Seq<u8>> {
    digests.map_values(|digest: [u8; 32]| digest@)
}

/// Whether two lists of digests are equal.
pub fn same_digests(a: &[[u8; 32]], b: &[[u8; 32]]) -> (same: bool)
    ensures
        same == (digest_seq(a@) == digest_seq(b@)),
{
    if a.len() != b.len() {
        assert(digest_seq(a@).len() != digest_seq(b@).len());
        return false;
    }
    let mut i: usize = 0;
    while i < a.len()
        invariant
            a@.len() == b@.len(),
            i <= a@.len(),
            forall|j: int| 0 <= j < i ==> (#[trigger] a@[j])@ == b@[j]@,
        decreases a@.len() - i,
    {
        if !same_digest(&a[i], &b[i]) {
            assert(digest_seq(a@)[i as int] != digest_seq(b@)[i as int]);
            return false;
        }
        i += 1;
    }
    assert(digest_seq(a@) =~= digest_seq(b@));
    true
}

/// A truth value is stored as one or zero, and read exactly from those.
pub proof fn law_truth_value_is_read_exactly(value: i64, field: Seq<char>)
    ensures
        bool_fault(value, field) is None <==> value == 0 || value == 1,
{
}

/// A digest is read exactly from 32 bytes.
pub proof fn law_digest_is_read_exactly(bytes: Seq<u8>, field: Seq<char>)
    ensures
        digest_fault(bytes, field) is None <==> bytes.len() == 32,
{
}

} // verus!
