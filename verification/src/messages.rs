//! Failure texts that name a digest.

use vstd::prelude::*;
use vstd::string::*;

use crate::error::{Fault, StoreError};
use crate::hexadecimal::{digest_hex, hex_text};
use crate::text::{text3, text5};

verus! {

/// A text around the hexadecimal form of a digest.
pub open spec fn about(before: Seq<char>, digest: Seq<u8>, after: Seq<char>) -> Seq<char> {
    before + hex_text(digest) + after
}

/// A text around the hexadecimal forms of two digests.
pub open spec fn about_pair(
    before: Seq<char>,
    first: Seq<u8>,
    between: Seq<char>,
    second: Seq<u8>,
    after: Seq<char>,
) -> Seq<char> {
    before + hex_text(first) + between + hex_text(second) + after
}

/// Writes a text around the hexadecimal form of a digest.
pub fn text_about(before: &str, digest: &[u8; 32], after: &str) -> (text: String)
    ensures
        text@ == about(before@, digest@, after@),
{
    let hex = digest_hex(digest);
    text3(before, hex.as_str(), after)
}

/// Writes a text around the hexadecimal forms of two digests.
pub fn text_about_pair(
    before: &str,
    first: &[u8; 32],
    between: &str,
    second: &[u8; 32],
    after: &str,
) -> (text: String)
    ensures
        text@ == about_pair(before@, first@, between@, second@, after@),
{
    let left = digest_hex(first);
    let right = digest_hex(second);
    text5(before, left.as_str(), between, right.as_str(), after)
}

/// The integrity fault of a digest.
pub open spec fn integrity_fault(before: Seq<char>, digest: Seq<u8>, after: Seq<char>) -> Fault {
    Fault::Integrity(about(before, digest, after))
}

/// An integrity failure of a digest.
pub fn integrity_about(before: &str, digest: &[u8; 32], after: &str) -> (error: StoreError)
    ensures
        error@ == integrity_fault(before@, digest@, after@),
{
    StoreError::Integrity(text_about(before, digest, after))
}

/// An integrity failure of two digests.
pub fn integrity_about_pair(
    before: &str,
    first: &[u8; 32],
    between: &str,
    second: &[u8; 32],
    after: &str,
) -> (error: StoreError)
    ensures
        error@ == Fault::Integrity(about_pair(before@, first@, between@, second@, after@)),
{
    StoreError::Integrity(text_about_pair(before, first, between, second, after))
}

/// A message about something names it: the hexadecimal name of its digest stands between what comes
/// before and what comes after.
pub proof fn law_message_names_what_it_is_about(
    before: Seq<char>,
    digest: Seq<u8>,
    after: Seq<char>,
)
    ensures
        about(before, digest, after).len() == before.len() + 2 * digest.len() + after.len(),
        about(before, digest, after).subrange(
            before.len() as int,
            before.len() as int + 2 * digest.len() as int,
        ) == hex_text(digest),
        integrity_fault(before, digest, after) == Fault::Integrity(about(before, digest, after)),
{
    assert(about(before, digest, after).subrange(
        before.len() as int,
        before.len() as int + 2 * digest.len() as int,
    ) =~= hex_text(digest));
}

} // verus!
