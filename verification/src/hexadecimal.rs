//! Lowercase hexadecimal text of byte strings.

use vstd::prelude::*;
use vstd::string::*;

verus! {

/// The lowercase hexadecimal digit for `value`, which is below sixteen.
pub open spec fn hex_digit(value: int) -> char {
    if value < 10 {
        (('0' as int) + value) as char
    } else {
        (('a' as int) + (value - 10)) as char
    }
}

/// The lowercase hexadecimal text of `bytes`, high half first.
pub open spec fn hex_text(bytes: Seq<u8>) -> Seq<char> {
    Seq::new(
        2 * bytes.len(),
        |i: int|
            if i % 2 == 0 {
                hex_digit(bytes[i / 2] as int / 16)
            } else {
                hex_digit(bytes[i / 2] as int % 16)
            },
    )
}

/// Whether `c` is a decimal digit or one of the lowercase letters `a` to `f`.
pub open spec fn is_lower_hex_digit(c: char) -> bool {
    ('0' <= c && c <= '9') || ('a' <= c && c <= 'f')
}

/// Whether `c` is a hexadecimal digit of either case.
pub open spec fn is_hex_digit(c: char) -> bool {
    ('0' <= c && c <= '9') || ('a' <= c && c <= 'f') || ('A' <= c && c <= 'F')
}

/// The value of the hexadecimal digit `c`, of either case.
pub open spec fn hex_value(c: char) -> int {
    if '0' <= c && c <= '9' {
        (c as int) - ('0' as int)
    } else if 'a' <= c && c <= 'f' {
        (c as int) - ('a' as int) + 10
    } else {
        (c as int) - ('A' as int) + 10
    }
}

/// Whether `text` holds an even number of characters, each a hexadecimal digit of either case.
pub open spec fn is_hex_text(text: Seq<char>) -> bool {
    text.len() % 2 == 0 && forall|i: int| 0 <= i < text.len() ==> is_hex_digit(#[trigger] text[i])
}

/// The bytes that hexadecimal text stands for.
pub open spec fn hex_bytes(text: Seq<char>) -> Seq<u8> {
    Seq::new(
        text.len() / 2,
        |i: int| (16 * hex_value(text[2 * i]) + hex_value(text[2 * i + 1])) as u8,
    )
}

/// What `hex::decode` says of a text that it refuses.
pub uninterp spec fn hex_refusal(text: Seq<char>) -> Seq<char>;

/// Calls `hex::encode`: two lowercase digits for each byte, in order. The text of more than
/// `usize::MAX / 2` bytes does not exist.
#[verifier::external_body]
pub(crate) fn hex_encode(bytes: &[u8]) -> (text: String)
    requires
        2 * bytes@.len() <= usize::MAX,
    ensures
        text@ == hex_text(bytes@),
{
    hex::encode(bytes)
}

/// Calls `hex::decode`: the bytes where the text is an even number of hexadecimal digits, of
/// either case, and otherwise the text of the error.
#[verifier::external_body]
pub(crate) fn hex_decode(text: &str) -> (bytes: Result<Vec<u8>, String>)
    ensures
        bytes is Ok <==> is_hex_text(text@),
        bytes matches Ok(decoded) ==> decoded@ == hex_bytes(text@),
        bytes matches Err(refusal) ==> refusal@ == hex_refusal(text@),
{
    hex::decode(text).map_err(|error| error.to_string())
}

/// Writes a digest in lowercase hexadecimal.
pub fn digest_hex(digest: &[u8; 32]) -> (text: String)
    ensures
        text@ == hex_text(digest@),
{
    hex_encode(digest.as_slice())
}

/// Writes bytes in lowercase hexadecimal.
pub fn bytes_hex(bytes: &[u8]) -> (text: String)
    ensures
        text@ == hex_text(bytes@),
{
    let mut text = String::new();
    let mut i: usize = 0;
    assert(text@ =~= hex_text(bytes@.subrange(0, 0)));
    while i < bytes.len()
        invariant
            i <= bytes@.len(),
            text@ == hex_text(bytes@.subrange(0, i as int)),
        decreases bytes@.len() - i,
    {
        let byte: [u8; 1] = [bytes[i]];
        let digits = hex_encode(byte.as_slice());
        text.append(digits.as_str());
        proof {
            let shorter = bytes@.subrange(0, i as int);
            let longer = bytes@.subrange(0, i + 1);
            assert forall|k: int| 0 <= k < 2 * (i + 1) implies (hex_text(shorter) + hex_text(
                byte@,
            ))[k] == #[trigger] hex_text(longer)[k] by {
                if k < 2 * i {
                    assert(k / 2 < i);
                    assert(hex_text(longer)[k] == hex_text(shorter)[k]);
                } else {
                    assert(k / 2 == i);
                    assert((k - 2 * i) / 2 == 0);
                }
            }
            assert(hex_text(shorter) + hex_text(byte@) =~= hex_text(longer));
        }
        i += 1;
    }
    assert(bytes@.subrange(0, i as int) =~= bytes@);
    text
}

/// Every character of a hexadecimal text is a lowercase hexadecimal digit.
pub proof fn lemma_hex_text_digits(bytes: Seq<u8>)
    ensures
        hex_text(bytes).len() == 2 * bytes.len(),
        forall|i: int|
            0 <= i < hex_text(bytes).len() ==> is_lower_hex_digit(#[trigger] hex_text(bytes)[i]),
{
}

/// Decoding undoes encoding: the text of any bytes is hexadecimal text that stands for them.
pub proof fn law_decoding_undoes_encoding(bytes: Seq<u8>)
    ensures
        is_hex_text(hex_text(bytes)),
        hex_bytes(hex_text(bytes)) == bytes,
{
    let text = hex_text(bytes);
    assert forall|i: int| 0 <= i < bytes.len() implies #[trigger] hex_bytes(text)[i]
        == bytes[i] by {
        assert((2 * i) / 2 == i);
        assert((2 * i + 1) / 2 == i);
        assert(hex_value(text[2 * i]) == bytes[i] as int / 16);
        assert(hex_value(text[2 * i + 1]) == bytes[i] as int % 16);
    }
    assert(hex_bytes(text) =~= bytes);
}

/// Encoding undoes decoding for text in lowercase digits, and for no other text: a text is the
/// canonical text of the bytes it stands for exactly when all its digits are lowercase.
pub proof fn law_canonical_hex_is_lowercase(text: Seq<char>)
    requires
        is_hex_text(text),
    ensures
        hex_text(hex_bytes(text)) == text <==> forall|i: int|
            0 <= i < text.len() ==> is_lower_hex_digit(#[trigger] text[i]),
{
    let back = hex_text(hex_bytes(text));
    assert(back.len() == text.len());
    assert forall|i: int| 0 <= i < text.len() implies is_lower_hex_digit(#[trigger] back[i]) && (
    is_lower_hex_digit(text[i]) ==> back[i] == text[i]) by {
        let k = i / 2;
        assert(is_hex_digit(text[2 * k]));
        assert(is_hex_digit(text[2 * k + 1]));
        let high = hex_value(text[2 * k]);
        let low = hex_value(text[2 * k + 1]);
        assert(0 <= high < 16 && 0 <= low < 16);
        assert(hex_bytes(text)[k] as int == 16 * high + low);
        assert((16 * high + low) / 16 == high);
        assert((16 * high + low) % 16 == low);
        if i % 2 == 0 {
            assert(i == 2 * k);
        } else {
            assert(i == 2 * k + 1);
        }
    }
    if forall|i: int| 0 <= i < text.len() ==> is_lower_hex_digit(#[trigger] text[i]) {
        assert(back =~= text);
    } else if back == text {
        assert(forall|i: int| 0 <= i < text.len() ==> is_lower_hex_digit(#[trigger] text[i]));
    }
}

} // verus!
