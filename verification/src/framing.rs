//! Length-framed byte transcripts: what is hashed, and why two different contents never share
//! one transcript.

use vstd::prelude::*;
use vstd::string::*;
use vstd::utf8::*;

use crate::digest::Transcript;

verus! {

/// The UTF-8 bytes of a text.
pub open spec fn utf8(text: Seq<char>) -> Seq<u8> {
    encode_utf8(text)
}

/// The eight bytes of `value`, most significant first.
#[verifier::opaque]
pub open spec fn be64(value: int) -> Seq<u8> {
    seq![
        ((value / 0x100_0000_0000_0000) % 256) as u8,
        ((value / 0x1_0000_0000_0000) % 256) as u8,
        ((value / 0x100_0000_0000) % 256) as u8,
        ((value / 0x1_0000_0000) % 256) as u8,
        ((value / 0x100_0000) % 256) as u8,
        ((value / 0x1_0000) % 256) as u8,
        ((value / 0x100) % 256) as u8,
        (value % 256) as u8,
    ]
}

/// The eight bytes of the two's complement of `value`, most significant first.
pub open spec fn be64_signed(value: int) -> Seq<u8> {
    if value < 0 {
        be64(value + 0x1_0000_0000_0000_0000)
    } else {
        be64(value)
    }
}

/// A byte string behind its length.
pub open spec fn frame(bytes: Seq<u8>) -> Seq<u8> {
    be64(bytes.len() as int) + bytes
}

/// A framed byte string behind the byte one, or the byte zero where there is none.
pub open spec fn optional_frame(bytes: Option<Seq<u8>>) -> Seq<u8> {
    match bytes {
        Some(bytes) => seq![1u8] + frame(bytes),
        None => seq![0u8],
    }
}

/// A signed integer behind the byte one, or the byte zero where there is none.
pub open spec fn optional_signed_frame(value: Option<i64>) -> Seq<u8> {
    match value {
        Some(value) => seq![1u8] + be64_signed(value as int),
        None => seq![0u8],
    }
}

/// Writes `value` as eight bytes, most significant first.
pub fn be64_bytes(value: u64) -> (bytes: [u8; 8])
    ensures
        bytes@ == be64(value as int),
{
    let bytes: [u8; 8] = [
        ((value / 0x100_0000_0000_0000) % 256) as u8,
        ((value / 0x1_0000_0000_0000) % 256) as u8,
        ((value / 0x100_0000_0000) % 256) as u8,
        ((value / 0x1_0000_0000) % 256) as u8,
        ((value / 0x100_0000) % 256) as u8,
        ((value / 0x1_0000) % 256) as u8,
        ((value / 0x100) % 256) as u8,
        (value % 256) as u8,
    ];
    proof {
        reveal(be64);
    }
    assert(bytes@ =~= be64(value as int));
    bytes
}

/// Writes the two's complement of `value` as eight bytes, most significant first.
pub fn be64_signed_bytes(value: i64) -> (bytes: [u8; 8])
    ensures
        bytes@ == be64_signed(value as int),
{
    if value < 0 {
        be64_bytes((value as i128 + 0x1_0000_0000_0000_0000) as u64)
    } else {
        be64_bytes(value as u64)
    }
}

/// A transcript that starts with a domain text.
pub fn domain_hasher(domain: &str) -> (transcript: Transcript)
    ensures
        transcript@ == utf8(domain@),
{
    let transcript = Transcript::new().update(domain.as_bytes());
    assert(transcript@ =~= utf8(domain@));
    transcript
}

/// Appends an unsigned integer.
pub fn hash_u64(transcript: Transcript, value: u64) -> (next: Transcript)
    ensures
        next@ == transcript@ + be64(value as int),
{
    transcript.update(be64_bytes(value).as_slice())
}

/// Appends a framed byte string.
pub fn hash_frame(transcript: Transcript, bytes: &[u8]) -> (next: Transcript)
    ensures
        next@ == transcript@ + frame(bytes@),
{
    let next = hash_u64(transcript, bytes.len() as u64).update(bytes);
    assert(next@ =~= transcript@ + frame(bytes@));
    next
}

/// Appends a framed text.
pub fn hash_text(transcript: Transcript, text: &str) -> (next: Transcript)
    ensures
        next@ == transcript@ + frame(utf8(text@)),
{
    hash_frame(transcript, text.as_bytes())
}

/// Appends an optional framed byte string.
pub fn hash_optional(transcript: Transcript, bytes: &Option<Vec<u8>>) -> (next: Transcript)
    ensures
        next@ == transcript@ + optional_frame(crate::text::optional_bytes(*bytes)),
{
    match bytes {
        Some(bytes) => {
            let tagged = transcript.update([1u8].as_slice());
            let next = hash_frame(tagged, bytes.as_slice());
            assert(next@ =~= transcript@ + (seq![1u8] + frame(bytes@)));
            next
        },
        None => {
            let next = transcript.update([0u8].as_slice());
            assert(next@ =~= transcript@ + seq![0u8]);
            next
        },
    }
}

/// The UTF-8 bytes of an optional text.
pub open spec fn optional_utf8(text: Option<Seq<char>>) -> Option<Seq<u8>> {
    match text {
        Some(text) => Some(utf8(text)),
        None => None,
    }
}

/// Appends an optional framed text.
pub fn hash_optional_text(transcript: Transcript, text: &Option<String>) -> (next: Transcript)
    ensures
        next@ == transcript@ + optional_frame(optional_utf8(crate::text::optional_text(*text))),
{
    match text {
        Some(text) => {
            let tagged = transcript.update([1u8].as_slice());
            let next = hash_text(tagged, text.as_str());
            assert(next@ =~= transcript@ + (seq![1u8] + frame(utf8(text@))));
            next
        },
        None => {
            let next = transcript.update([0u8].as_slice());
            assert(next@ =~= transcript@ + seq![0u8]);
            next
        },
    }
}

/// Appends a signed integer.
pub fn hash_i64(transcript: Transcript, value: i64) -> (next: Transcript)
    ensures
        next@ == transcript@ + be64_signed(value as int),
{
    transcript.update(be64_signed_bytes(value).as_slice())
}

/// Appends an optional signed integer.
pub fn hash_optional_i64(transcript: Transcript, value: Option<i64>) -> (next: Transcript)
    ensures
        next@ == transcript@ + optional_signed_frame(value),
{
    match value {
        Some(value) => {
            let next = hash_i64(transcript.update([1u8].as_slice()), value);
            assert(next@ =~= transcript@ + (seq![1u8] + be64_signed(value as int)));
            next
        },
        None => {
            let next = transcript.update([0u8].as_slice());
            assert(next@ =~= transcript@ + seq![0u8]);
            next
        },
    }
}

/// An integer takes eight bytes.
pub proof fn lemma_be64_length(value: int)
    ensures
        be64(value).len() == 8,
        be64_signed(value).len() == 8,
{
    reveal(be64);
}

/// Eight bytes determine the unsigned integer that they hold.
pub proof fn lemma_be64_determines(a: int, b: int)
    requires
        0 <= a <= u64::MAX,
        0 <= b <= u64::MAX,
        be64(a) == be64(b),
    ensures
        a == b,
{
    reveal(be64);
    let left = be64(a);
    let right = be64(b);
    assert(left[0] == right[0] && left[1] == right[1] && left[2] == right[2] && left[3] == right[3]
        && left[4] == right[4] && left[5] == right[5] && left[6] == right[6] && left[7]
        == right[7]);
    lemma_be64_value(a);
    lemma_be64_value(b);
}

proof fn lemma_be64_value(value: int)
    requires
        0 <= value <= u64::MAX,
    ensures
        value == be64(value)[0] * 0x100_0000_0000_0000 + be64(value)[1] * 0x1_0000_0000_0000
            + be64(value)[2] * 0x100_0000_0000 + be64(value)[3] * 0x1_0000_0000 + be64(value)[4]
            * 0x100_0000 + be64(value)[5] * 0x1_0000 + be64(value)[6] * 0x100 + be64(value)[7],
{
    reveal(be64);
    let q1 = value / 0x100;
    let q2 = value / 0x1_0000;
    let q3 = value / 0x100_0000;
    let q4 = value / 0x1_0000_0000;
    let q5 = value / 0x100_0000_0000;
    let q6 = value / 0x1_0000_0000_0000;
    let q7 = value / 0x100_0000_0000_0000;
    assert(value == q1 * 256 + value % 256);
    assert(q1 == q2 * 256 + q1 % 256);
    assert(q2 == q3 * 256 + q2 % 256);
    assert(q3 == q4 * 256 + q3 % 256);
    assert(q4 == q5 * 256 + q4 % 256);
    assert(q5 == q6 * 256 + q5 % 256);
    assert(q6 == q7 * 256 + q6 % 256);
    assert(0 <= q7 < 256);
}

/// Eight bytes determine the signed integer whose two's complement they hold.
pub proof fn lemma_be64_signed_determines(a: i64, b: i64)
    requires
        be64_signed(a as int) == be64_signed(b as int),
    ensures
        a == b,
{
    let left = if a < 0 {
        a + 0x1_0000_0000_0000_0000
    } else {
        a as int
    };
    let right = if b < 0 {
        b + 0x1_0000_0000_0000_0000
    } else {
        b as int
    };
    lemma_be64_determines(left, right);
}

/// Two equal concatenations whose first parts have one length agree part by part.
pub proof fn lemma_split(a: Seq<u8>, x: Seq<u8>, b: Seq<u8>, y: Seq<u8>)
    requires
        a.len() == b.len(),
        a + x == b + y,
    ensures
        a == b,
        x == y,
{
    assert((a + x).subrange(0, a.len() as int) =~= a);
    assert((b + y).subrange(0, b.len() as int) =~= b);
    assert((a + x).subrange(a.len() as int, (a + x).len() as int) =~= x);
    assert((b + y).subrange(b.len() as int, (b + y).len() as int) =~= y);
}

/// Concatenations may be grouped from the right.
pub proof fn lemma_regroup(a: Seq<u8>, b: Seq<u8>, c: Seq<u8>)
    ensures
        (a + b) + c == a + (b + c),
{
    assert((a + b) + c =~= a + (b + c));
}

/// A frame says where it ends: two transcripts that start with frames and are equal hold the
/// same framed bytes and go on equally.
pub proof fn law_frame_is_self_delimiting(a: Seq<u8>, x: Seq<u8>, b: Seq<u8>, y: Seq<u8>)
    requires
        a.len() <= u64::MAX,
        b.len() <= u64::MAX,
        frame(a) + x == frame(b) + y,
    ensures
        a == b,
        x == y,
{
    lemma_regroup(be64(a.len() as int), a, x);
    lemma_regroup(be64(b.len() as int), b, y);
    lemma_be64_length(a.len() as int);
    lemma_be64_length(b.len() as int);
    lemma_split(be64(a.len() as int), a + x, be64(b.len() as int), b + y);
    lemma_be64_determines(a.len() as int, b.len() as int);
    lemma_split(a, x, b, y);
}

/// An optional frame says whether there is one and where it ends.
pub proof fn law_optional_frame_is_self_delimiting(
    a: Option<Seq<u8>>,
    x: Seq<u8>,
    b: Option<Seq<u8>>,
    y: Seq<u8>,
)
    requires
        a matches Some(bytes) ==> bytes.len() <= u64::MAX,
        b matches Some(bytes) ==> bytes.len() <= u64::MAX,
        optional_frame(a) + x == optional_frame(b) + y,
    ensures
        a == b,
        x == y,
{
    let left = optional_frame(a) + x;
    let right = optional_frame(b) + y;
    assert(left[0] == right[0]);
    match (a, b) {
        (Some(p), Some(q)) => {
            assert(left =~= seq![1u8] + (frame(p) + x));
            assert(right =~= seq![1u8] + (frame(q) + y));
            lemma_split(seq![1u8], frame(p) + x, seq![1u8], frame(q) + y);
            law_frame_is_self_delimiting(p, x, q, y);
        },
        (None, None) => {
            lemma_split(seq![0u8], x, seq![0u8], y);
        },
        (Some(p), None) => {
            assert(left[0] == 1u8);
            assert(right[0] == 0u8);
        },
        (None, Some(q)) => {
            assert(left[0] == 0u8);
            assert(right[0] == 1u8);
        },
    }
}

/// An optional signed integer says whether there is one and where it ends.
pub proof fn law_optional_signed_frame_is_self_delimiting(
    a: Option<i64>,
    x: Seq<u8>,
    b: Option<i64>,
    y: Seq<u8>,
)
    requires
        optional_signed_frame(a) + x == optional_signed_frame(b) + y,
    ensures
        a == b,
        x == y,
{
    let left = optional_signed_frame(a) + x;
    let right = optional_signed_frame(b) + y;
    assert(left[0] == right[0]);
    match (a, b) {
        (Some(p), Some(q)) => {
            assert(left =~= seq![1u8] + (be64_signed(p as int) + x));
            assert(right =~= seq![1u8] + (be64_signed(q as int) + y));
            lemma_split(
                seq![1u8],
                be64_signed(p as int) + x,
                seq![1u8],
                be64_signed(q as int) + y,
            );
            lemma_be64_length(p as int);
            lemma_be64_length(q as int);
            lemma_split(be64_signed(p as int), x, be64_signed(q as int), y);
            lemma_be64_signed_determines(p, q);
        },
        (None, None) => {
            lemma_split(seq![0u8], x, seq![0u8], y);
        },
        (Some(p), None) => {
            assert(left[0] == 1u8);
            assert(right[0] == 0u8);
        },
        (None, Some(q)) => {
            assert(left[0] == 0u8);
            assert(right[0] == 1u8);
        },
    }
}

/// The UTF-8 bytes of a text determine the text.
pub proof fn lemma_utf8_determines(a: Seq<char>, b: Seq<char>)
    requires
        utf8(a) == utf8(b),
    ensures
        a == b,
{
    encode_utf8_decode_utf8(a);
    encode_utf8_decode_utf8(b);
}

} // verus!
