//! Texts as lists of characters.

use vstd::prelude::*;
use vstd::string::*;

verus! {

/// The characters of a text.
pub fn characters(text: &str) -> (list: Vec<char>)
    ensures
        list@ == text@,
{
    let mut list: Vec<char> = Vec::new();
    for c in it: text.chars()
        invariant
            list@ == text@.subrange(0, it.index() as int),
            it.seq() == text@,
    {
        list.push(c);
        assert(list@ =~= text@.subrange(0, it.index() as int + 1));
    }
    assert(list@ =~= text@);
    list
}

/// Whether Unicode counts a character as white space.
pub uninterp spec fn is_white(c: char) -> bool;

/// Calls `char::is_whitespace` and gives its answer.
#[verifier::external_body]
pub(crate) fn char_is_whitespace(c: char) -> (is: bool)
    ensures
        is == is_white(c),
{
    c.is_whitespace()
}

/// The first place from `i` on that does not hold white space.
pub open spec fn token_start(text: Seq<char>, i: int) -> int
    decreases text.len() - i,
{
    if 0 <= i < text.len() && is_white(text[i]) {
        token_start(text, i + 1)
    } else {
        i
    }
}

/// The last place up to `i` that does not stand behind white space.
pub open spec fn text_end(text: Seq<char>, i: int) -> int
    decreases i,
{
    if 0 < i <= text.len() && is_white(text[i - 1]) {
        text_end(text, i - 1)
    } else {
        i
    }
}

/// A text without the white space at its start and at its end.
pub open spec fn trimmed(text: Seq<char>) -> Seq<char> {
    if token_start(text, 0) >= text.len() {
        Seq::empty()
    } else {
        text.subrange(token_start(text, 0), text_end(text, text.len() as int))
    }
}

/// Removes the white space at the start and at the end of a text.
pub fn trim(text: &str) -> (rest: Vec<char>)
    ensures
        rest@ == trimmed(text@),
{
    let list = characters(text);
    let mut first: usize = 0;
    while first < list.len() && char_is_whitespace(list[first])
        invariant
            list@ == text@,
            first <= list@.len(),
            token_start(text@, 0) == token_start(text@, first as int),
        decreases list@.len() - first,
    {
        first += 1;
    }
    assert(token_start(text@, 0) == first);
    let mut rest: Vec<char> = Vec::new();
    if first == list.len() {
        assert(rest@ =~= trimmed(text@));
        return rest;
    }
    let mut end: usize = list.len();
    while end > first + 1 && char_is_whitespace(list[end - 1])
        invariant
            list@ == text@,
            first < end <= list@.len(),
            text_end(text@, text@.len() as int) == text_end(text@, end as int),
        decreases end,
    {
        end -= 1;
    }
    assert(!is_white(text@[first as int]));
    assert(text_end(text@, text@.len() as int) == end);
    let mut i: usize = first;
    while i < end
        invariant
            list@ == text@,
            first <= i <= end <= list@.len(),
            rest@ == text@.subrange(first as int, i as int),
        decreases end - i,
    {
        rest.push(list[i]);
        i += 1;
        assert(rest@ =~= text@.subrange(first as int, i as int));
    }
    rest
}

/// A trimmed text begins and ends with something, and is a part of the text; a text of white space
/// alone is trimmed to nothing, and one without white space at either end stays as it is.
pub proof fn law_trimmed_text_has_no_white_ends(text: Seq<char>)
    ensures
        trimmed(text).len() > 0 ==> !is_white(trimmed(text).first()) && !is_white(
            trimmed(text).last(),
        ),
        trimmed(text).len() <= text.len(),
        text.len() > 0 && !is_white(text.first()) && !is_white(text.last()) ==> trimmed(text)
            == text,
        (forall|i: int| 0 <= i < text.len() ==> is_white(#[trigger] text[i])) <==> trimmed(
            text,
        ).len() == 0,
{
    lemma_token_start(text, 0);
    lemma_text_end(text, text.len() as int);
    let start = token_start(text, 0);
    let end = text_end(text, text.len() as int);
    if start < text.len() {
        if end <= start {
            assert(is_white(text[start]));
        }
        assert(start < end);
        assert(trimmed(text).first() == text[start]);
        assert(trimmed(text).last() == text[end - 1]);
        if !is_white(text.first()) && !is_white(text.last()) {
            assert(trimmed(text) =~= text);
        }
    }
}

proof fn lemma_token_start(text: Seq<char>, i: int)
    requires
        0 <= i <= text.len(),
    ensures
        i <= token_start(text, i) <= text.len(),
        forall|k: int| i <= k < token_start(text, i) ==> is_white(#[trigger] text[k]),
        token_start(text, i) < text.len() ==> !is_white(text[token_start(text, i)]),
    decreases text.len() - i,
{
    if i < text.len() && is_white(text[i]) {
        lemma_token_start(text, i + 1);
    }
}

proof fn lemma_text_end(text: Seq<char>, i: int)
    requires
        0 <= i <= text.len(),
    ensures
        0 <= text_end(text, i) <= i,
        forall|k: int| text_end(text, i) <= k < i ==> is_white(#[trigger] text[k]),
        text_end(text, i) > 0 ==> !is_white(text[text_end(text, i) - 1]),
    decreases i,
{
    if 0 < i && is_white(text[i - 1]) {
        lemma_text_end(text, i - 1);
    }
}

} // verus!
