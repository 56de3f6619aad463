//! Query tokens: the runs of letters and digits of a query, in lower case.

use vstd::prelude::*;
use vstd::string::*;

use crate::bytemap::ByteMap;
use crate::chars::characters;
use crate::framing::{lemma_utf8_determines, utf8};
use crate::json::texts;
use crate::text::copy_bytes;

verus! {

/// Whether Unicode counts a character among letters and numbers.
pub uninterp spec fn is_alphanumeric(c: char) -> bool;

/// The lower case of a character, which may be several characters.
pub uninterp spec fn lowercase(c: char) -> Seq<char>;

/// Calls `char::is_alphanumeric` and gives its answer.
#[verifier::external_body]
fn char_is_alphanumeric(c: char) -> (is: bool)
    ensures
        is == is_alphanumeric(c),
{
    c.is_alphanumeric()
}

/// Calls `char::to_lowercase` and gives the characters that it yields.
#[verifier::external_body]
fn char_lowercase(c: char) -> (lower: Vec<char>)
    ensures
        lower@ == lowercase(c),
{
    c.to_lowercase().collect()
}

/// The lower case of a text, character by character.
pub open spec fn lowered(text: Seq<char>) -> Seq<char>
    decreases text.len(),
{
    if text.len() == 0 {
        Seq::empty()
    } else {
        lowered(text.drop_last()) + lowercase(text.last())
    }
}

/// Whether the text from `i` to `j` is a whole run of letters and numbers.
pub open spec fn is_run(text: Seq<char>, i: int, j: int) -> bool {
    &&& 0 <= i < j <= text.len()
    &&& forall|k: int| i <= k < j ==> is_alphanumeric(#[trigger] text[k])
    &&& i == 0 || !is_alphanumeric(text[i - 1])
    &&& j == text.len() || !is_alphanumeric(text[j])
}

/// Whether a text is the lower case of a run of a term.
pub open spec fn is_term_token(term: Seq<char>, token: Seq<char>) -> bool {
    exists|i: int, j: int| #[trigger] is_run(term, i, j) && token == lowered(term.subrange(i, j))
}

/// Whether a text is a token of one of a list of terms.
pub open spec fn is_token(terms: Seq<Seq<char>>, token: Seq<char>) -> bool {
    exists|k: int| 0 <= k < terms.len() && is_term_token(#[trigger] terms[k], token)
}

/// A set of texts in the order of their bytes.
pub type TextSet = ByteMap<String>;

/// Whether a set of texts holds a text.
pub open spec fn has_text(set: TextSet, text: Seq<char>) -> bool {
    set@.contains_key(utf8(text))
}

/// Whether every text of a set stands under its own bytes.
pub open spec fn is_text_set(set: TextSet) -> bool {
    forall|key: Seq<u8>| #[trigger] set@.contains_key(key) ==> utf8(set@[key]@) == key
}

fn lower_run(list: &Vec<char>, start: usize, end: usize) -> (token: String)
    requires
        start <= end <= list@.len(),
    ensures
        token@ == lowered(list@.subrange(start as int, end as int)),
{
    let ghost run = list@.subrange(start as int, end as int);
    let mut lower: Vec<char> = Vec::new();
    let mut i: usize = start;
    assert(run.subrange(0, 0) =~= Seq::<char>::empty());
    while i < end
        invariant
            start <= i <= end <= list@.len(),
            run == list@.subrange(start as int, end as int),
            lower@ == lowered(run.subrange(0, i - start)),
        decreases end - i,
    {
        let mut more = char_lowercase(list[i]);
        let ghost before = lower@;
        let ghost added = more@;
        lower.append(&mut more);
        proof {
            let longer = run.subrange(0, i - start + 1);
            assert(longer.drop_last() =~= run.subrange(0, i - start));
            assert(longer.last() == list@[i as int]);
            assert(lower@ =~= before + added);
        }
        i += 1;
    }
    assert(run.subrange(0, end - start) =~= run);
    text_of(&lower)
}

/// `String::push` appends one character.
pub assume_specification[ std::string::String::push ](text: &mut String, c: char)
    ensures
        final(text)@ == old(text)@.push(c),
;

/// Joins characters to a text.
pub fn text_of(list: &Vec<char>) -> (text: String)
    ensures
        text@ == list@,
{
    let mut text = String::new();
    let mut i: usize = 0;
    assert(text@ =~= list@.subrange(0, 0));
    while i < list.len()
        invariant
            i <= list@.len(),
            text@ == list@.subrange(0, i as int),
        decreases list@.len() - i,
    {
        text.push(list[i]);
        i += 1;
        assert(text@ =~= list@.subrange(0, i as int));
    }
    assert(list@.subrange(0, i as int) =~= list@);
    text
}


proof fn lemma_runs_before(term: Seq<char>, p: int, i: int, j: int)
    requires
        0 <= p < term.len(),
        !is_alphanumeric(term[p]),
        is_run(term, i, j),
        j <= p + 1,
    ensures
        j <= p,
{
    if j == p + 1 {
        assert(is_alphanumeric(term[p]));
    }
}

proof fn lemma_run_between(term: Seq<char>, p: int, q: int, i: int, j: int)
    requires
        is_run(term, p, q),
        is_run(term, i, j),
        p < j <= q,
    ensures
        i == p,
        j == q,
{
    if i > p {
        assert(is_alphanumeric(term[i - 1]));
    }
    if i < p {
        assert(is_alphanumeric(term[p - 1]));
    }
    if j < q {
        assert(is_alphanumeric(term[j]));
    }
}

/// Whether a text is the lower case of a run of a term that ends at `p` or before.
spec fn is_token_before(term: Seq<char>, p: int, token: Seq<char>) -> bool {
    exists|i: int, j: int|
        #[trigger] is_run(term, i, j) && j <= p && token == lowered(term.subrange(i, j))
}

/// Adds the tokens of a term to a set of texts.
#[verifier::loop_isolation(false)]
fn add_term(set: TextSet, term: &str) -> (more: TextSet)
    requires
        is_text_set(set),
    ensures
        is_text_set(more),
        forall|token: Seq<char>|
            #[trigger] has_text(more, token) <==> has_text(set, token) || is_term_token(
                term@,
                token,
            ),
{
    let list = characters(term);
    let ghost start = set;
    let mut more = set;
    let mut p: usize = 0;
    assert forall|token: Seq<char>| !is_token_before(term@, 0, token) by {}
    while p < list.len()
        invariant
            p <= list@.len(),
            p == 0 || p == list@.len() || !is_alphanumeric(term@[p - 1]) || !is_alphanumeric(
                term@[p as int],
            ),
            is_text_set(more),
            forall|token: Seq<char>|
                #[trigger] has_text(more, token) <==> has_text(start, token) || is_token_before(
                    term@,
                    p as int,
                    token,
                ),
        decreases list@.len() - p,
    {
        if !char_is_alphanumeric(list[p]) {
            proof {
                assert forall|token: Seq<char>|
                    is_token_before(term@, p + 1, token) <==> is_token_before(
                        term@,
                        p as int,
                        token,
                    ) by {
                    if is_token_before(term@, p + 1, token) {
                        let (i, j) = choose|i: int, j: int|
                            #[trigger] is_run(term@, i, j) && j <= p + 1 && token == lowered(
                                term@.subrange(i, j),
                            );
                        lemma_runs_before(term@, p as int, i, j);
                    }
                }
            }
            p += 1;
        } else {
            let mut q: usize = p + 1;
            let mut inside = q < list.len() && char_is_alphanumeric(list[q]);
            while inside
                invariant
                    p < q <= list@.len(),
                    forall|k: int| p <= k < q ==> is_alphanumeric(#[trigger] term@[k]),
                    inside == (q < list@.len() && is_alphanumeric(term@[q as int])),
                decreases list@.len() - q,
            {
                q += 1;
                inside = q < list.len() && char_is_alphanumeric(list[q]);
            }
            assert(is_run(term@, p as int, q as int));
            let token = lower_run(&list, p, q);
            let ghost found = token@;
            let ghost before = more;
            let key = copy_bytes(token.as_str().as_bytes());
            more.insert(key, token);
            proof {
                assert(found == lowered(term@.subrange(p as int, q as int)));
                assert(is_token_before(term@, q as int, found));
                assert(forall|key: Seq<u8>| #[trigger]
                    more@.contains_key(key) <==> before@.contains_key(key) || key == utf8(found));
                assert forall|other: Seq<char>|
                    #[trigger] has_text(more, other) <==> has_text(start, other)
                        || is_token_before(term@, q as int, other) by {
                    assert(has_text(more, other) <==> has_text(before, other) || utf8(other)
                        == utf8(found));
                    if has_text(more, other) && !has_text(before, other) {
                        lemma_utf8_determines(other, found);
                        assert(other == found);
                    }
                    if has_text(before, other) && is_token_before(term@, p as int, other) {
                        let (i, j) = choose|i: int, j: int|
                            #[trigger] is_run(term@, i, j) && j <= p && other == lowered(
                                term@.subrange(i, j),
                            );
                        assert(is_run(term@, i, j) && j <= q);
                    }
                    if is_token_before(term@, q as int, other) {
                        let (i, j) = choose|i: int, j: int|
                            #[trigger] is_run(term@, i, j) && j <= q && other == lowered(
                                term@.subrange(i, j),
                            );
                        if j > p {
                            lemma_run_between(term@, p as int, q as int, i, j);
                            assert(other == found);
                        } else {
                            assert(is_token_before(term@, p as int, other));
                            assert(has_text(before, other));
                        }
                    }
                }
                assert(is_text_set(more));
            }
            p = q;
        }
    }
    proof {
        assert forall|token: Seq<char>|
            is_token_before(term@, p as int, token) <==> is_term_token(term@, token) by {
            if is_term_token(term@, token) {
                let (i, j) = choose|i: int, j: int|
                    #[trigger] is_run(term@, i, j) && token == lowered(term@.subrange(i, j));
                assert(is_run(term@, i, j) && j <= p);
            }
        }
    }
    more
}

/// Collects the tokens of a query: the runs of letters and numbers of its terms, in lower case,
/// each once and in the order of their bytes.
#[verifier::loop_isolation(false)]
pub fn normalized_query_tokens(terms: &Vec<String>) -> (tokens: TextSet)
    ensures
        is_text_set(tokens),
        forall|token: Seq<char>|
            #[trigger] has_text(tokens, token) <==> is_token(texts(terms@), token),
{
    let ghost all = texts(terms@);
    let mut tokens: TextSet = ByteMap::new();
    let mut k: usize = 0;
    while k < terms.len()
        invariant
            k <= terms@.len(),
            is_text_set(tokens),
            forall|token: Seq<char>|
                #[trigger] has_text(tokens, token) <==> exists|m: int|
                    0 <= m < k && is_term_token(#[trigger] all[m], token),
        decreases terms@.len() - k,
    {
        let ghost before = tokens;
        tokens = add_term(tokens, terms[k].as_str());
        proof {
            assert(all[k as int] == terms@[k as int]@);
            assert forall|token: Seq<char>|
                #[trigger] has_text(tokens, token) <==> exists|m: int|
                    0 <= m < k + 1 && is_term_token(#[trigger] all[m], token) by {
                if has_text(before, token) {
                    let m = choose|m: int|
                        0 <= m < k && is_term_token(#[trigger] all[m], token);
                    assert(0 <= m < k + 1 && is_term_token(all[m], token));
                }
                if is_term_token(all[k as int], token) {
                    assert(0 <= k < k + 1 && is_term_token(all[k as int], token));
                }
            }
        }
        k += 1;
    }
    tokens
}

/// A text with every quotation mark doubled.
pub open spec fn doubled_quotes(text: Seq<char>) -> Seq<char>
    decreases text.len(),
{
    if text.len() == 0 {
        Seq::empty()
    } else if text.last() == '"' {
        doubled_quotes(text.drop_last()).push('"').push('"')
    } else {
        doubled_quotes(text.drop_last()).push(text.last())
    }
}

/// A text as a full-text phrase: in quotation marks, with every mark inside doubled.
pub open spec fn quoted(text: Seq<char>) -> Seq<char> {
    seq!['"'] + doubled_quotes(text) + seq!['"']
}

/// Writes a text as a full-text phrase.
pub fn quoted_text(text: &str) -> (phrase: String)
    ensures
        phrase@ == quoted(text@),
{
    let list = characters(text);
    let mut phrase = String::new();
    phrase.push('"');
    let mut i: usize = 0;
    assert(phrase@ =~= seq!['"'] + doubled_quotes(list@.subrange(0, 0)));
    while i < list.len()
        invariant
            i <= list@.len(),
            phrase@ == seq!['"'] + doubled_quotes(list@.subrange(0, i as int)),
        decreases list@.len() - i,
    {
        proof {
            let longer = list@.subrange(0, i + 1);
            assert(longer.drop_last() =~= list@.subrange(0, i as int));
            assert(longer.last() == list@[i as int]);
        }
        let ghost before = phrase@;
        if list[i] == '"' {
            phrase.push('"');
        }
        phrase.push(list[i]);
        assert(phrase@ =~= seq!['"'] + doubled_quotes(list@.subrange(0, i + 1)));
        i += 1;
    }
    assert(list@.subrange(0, i as int) =~= list@);
    phrase.push('"');
    assert(phrase@ =~= quoted(text@));
    phrase
}

proof fn lemma_doubling_determines(a: Seq<char>, b: Seq<char>)
    requires
        doubled_quotes(a) == doubled_quotes(b),
    ensures
        a == b,
    decreases a.len() + b.len(),
{
    let left = doubled_quotes(a);
    let right = doubled_quotes(b);
    if a.len() == 0 || b.len() == 0 {
        assert(a =~= b);
    } else {
        assert(left.last() == a.last());
        assert(right.last() == b.last());
        let shorter = doubled_quotes(a.drop_last());
        let other = doubled_quotes(b.drop_last());
        if a.last() == '"' {
            assert(left.subrange(0, left.len() - 2) =~= shorter);
            assert(right.subrange(0, right.len() - 2) =~= other);
        } else {
            assert(left.subrange(0, left.len() - 1) =~= shorter);
            assert(right.subrange(0, right.len() - 1) =~= other);
        }
        lemma_doubling_determines(a.drop_last(), b.drop_last());
        assert(a =~= a.drop_last().push(a.last()));
        assert(b =~= b.drop_last().push(b.last()));
    }
}

/// A phrase determines its text: two texts that are quoted alike are the same text.
pub proof fn law_phrase_determines_its_text(a: Seq<char>, b: Seq<char>)
    requires
        quoted(a) == quoted(b),
    ensures
        a == b,
{
    let left = doubled_quotes(a);
    let right = doubled_quotes(b);
    assert(quoted(a).subrange(1, quoted(a).len() - 1) =~= left);
    assert(quoted(b).subrange(1, quoted(b).len() - 1) =~= right);
    lemma_doubling_determines(a, b);
}

/// A query term without a letter or a digit has no token; one of nothing else, and not empty, is
/// one token: its lower case.
pub proof fn law_tokens_are_runs_of_letters_and_digits(term: Seq<char>, token: Seq<char>)
    ensures
        (forall|k: int| 0 <= k < term.len() ==> !is_alphanumeric(#[trigger] term[k]))
            ==> !is_term_token(term, token),
        term.len() > 0 && (forall|k: int|
            0 <= k < term.len() ==> is_alphanumeric(#[trigger] term[k])) ==> (is_term_token(
            term,
            token,
        ) <==> token == lowered(term)),
{
    if forall|k: int| 0 <= k < term.len() ==> !is_alphanumeric(#[trigger] term[k]) {
        assert forall|i: int, j: int| !#[trigger] is_run(term, i, j) by {
            if 0 <= i < j <= term.len() {
                assert(!is_alphanumeric(term[i]));
            }
        }
    }
    if term.len() > 0 && forall|k: int| 0 <= k < term.len() ==> is_alphanumeric(#[trigger] term[k]) {
        assert(term.subrange(0, term.len() as int) =~= term);
        assert(is_run(term, 0, term.len() as int));
        assert forall|i: int, j: int| #[trigger] is_run(term, i, j) implies i == 0 && j
            == term.len() by {
            if i > 0 {
                assert(is_alphanumeric(term[i - 1]));
            }
            if j < term.len() {
                assert(is_alphanumeric(term[j]));
            }
        }
    }
}

/// Two terms that nothing but a separator joins have the tokens of both.
pub proof fn law_separated_terms_keep_their_tokens(
    first: Seq<char>,
    separator: char,
    second: Seq<char>,
    token: Seq<char>,
)
    requires
        !is_alphanumeric(separator),
        is_term_token(first, token) || is_term_token(second, token),
    ensures
        is_term_token(first.push(separator) + second, token),
{
    let whole = first.push(separator) + second;
    let shift = first.len() + 1;
    if is_term_token(first, token) {
        let (i, j) = choose|i: int, j: int|
            #[trigger] is_run(first, i, j) && token == lowered(first.subrange(i, j));
        assert(whole[first.len() as int] == separator);
        assert forall|k: int| 0 <= k < first.len() implies whole[k] == first[k] by {}
        assert(is_run(whole, i, j));
        assert(whole.subrange(i, j) =~= first.subrange(i, j));
    } else {
        let (i, j) = choose|i: int, j: int|
            #[trigger] is_run(second, i, j) && token == lowered(second.subrange(i, j));
        assert(whole[first.len() as int] == separator);
        assert forall|k: int| 0 <= k < second.len() implies whole[shift + k] == second[k] by {}
        assert forall|k: int| shift + i <= k < shift + j implies is_alphanumeric(
            #[trigger] whole[k],
        ) by {
            assert(whole[k] == second[k - shift]);
            assert(is_alphanumeric(second[k - shift]));
        }
        assert(is_run(whole, shift + i, shift + j));
        assert(whole.subrange(shift + i, shift + j) =~= second.subrange(i, j));
    }
}

/// Lower case is taken character by character.
pub proof fn law_lower_case_goes_character_by_character(text: Seq<char>, c: char)
    ensures
        lowered(Seq::<char>::empty()).len() == 0,
        lowered(text.push(c)) == lowered(text) + lowercase(c),
{
    assert(text.push(c).drop_last() =~= text);
}

/// A quoted phrase stands between quotes with its own quotes doubled.
pub proof fn law_quotes_of_a_phrase_are_doubled(text: Seq<char>, c: char)
    ensures
        quoted(text).first() == '"',
        quoted(text).last() == '"',
        quoted(text).len() == doubled_quotes(text).len() + 2,
        quoted(text).subrange(1, quoted(text).len() - 1) == doubled_quotes(text),
        c != '"' ==> doubled_quotes(text.push(c)) == doubled_quotes(text).push(c),
        c == '"' ==> doubled_quotes(text.push(c)) == doubled_quotes(text).push('"').push('"'),
{
    assert(text.push(c).drop_last() =~= text);
    assert(quoted(text).subrange(1, quoted(text).len() - 1) =~= doubled_quotes(text));
}

/// The tokens of a query are those of its terms: one term more adds its own and takes none away.
pub proof fn law_query_has_the_tokens_of_its_terms(
    terms: Seq<Seq<char>>,
    term: Seq<char>,
    token: Seq<char>,
)
    ensures
        !is_token(Seq::<Seq<char>>::empty(), token),
        is_token(terms.push(term), token) <==> is_token(terms, token) || is_term_token(term, token),
{
    let more = terms.push(term);
    if is_token(terms, token) {
        let k = choose|k: int| 0 <= k < terms.len() && is_term_token(#[trigger] terms[k], token);
        assert(is_term_token(more[k], token));
    }
    if is_term_token(term, token) {
        assert(is_term_token(more[terms.len() as int], token));
    }
    if is_token(more, token) {
        let k = choose|k: int| 0 <= k < more.len() && is_term_token(#[trigger] more[k], token);
        if k < terms.len() {
            assert(is_term_token(terms[k], token));
        }
    }
}

} // verus!
