//! What a run measures of itself: memory and disk space.

use vstd::prelude::*;
use vstd::string::*;

use crate::chars::{char_is_whitespace, characters, is_white, token_start, trim, trimmed};
use crate::error::fault_when;
use crate::evidence::{EvidenceError, refusal_of, refuse};

verus! {

/// Whether `c` is a decimal digit.
pub open spec fn is_digit(c: char) -> bool {
    '0' <= c && c <= '9'
}

/// The number that decimal digits stand for.
pub open spec fn digits_value(digits: Seq<char>) -> nat
    decreases digits.len(),
{
    if digits.len() == 0 {
        0
    } else {
        10 * digits_value(digits.drop_last()) + (digits.last() as nat - '0' as nat) as nat
    }
}

/// The digits of a number that may stand behind a plus sign.
pub open spec fn unsigned_digits(text: Seq<char>) -> Seq<char> {
    if text.len() > 0 && text[0] == '+' {
        text.subrange(1, text.len() as int)
    } else {
        text
    }
}

/// The number that a text stands for: decimal digits, behind a plus sign or not, as far as eight
/// bytes hold it.
pub open spec fn parsed_number(text: Seq<char>) -> Option<u64> {
    let digits = unsigned_digits(text);
    if digits.len() == 0 || !(forall|i: int| 0 <= i < digits.len() ==> is_digit(#[trigger] digits[i]))
        || digits_value(digits) > u64::MAX {
        None
    } else {
        Some(digits_value(digits) as u64)
    }
}

/// Reads the number that the characters from `start` up to `end` stand for.
#[verifier::loop_isolation(false)]
fn parse_number(list: &Vec<char>, start: usize, end: usize) -> (number: Option<u64>)
    requires
        start <= end <= list@.len(),
    ensures
        number == parsed_number(list@.subrange(start as int, end as int)),
{
    let ghost text = list@.subrange(start as int, end as int);
    let ghost digits = unsigned_digits(text);
    let first: usize = if start < end && list[start] == '+' {
        start + 1
    } else {
        start
    };
    assert(digits =~= list@.subrange(first as int, end as int));
    if first == end {
        return None;
    }
    let mut value: u64 = 0;
    let mut fits = true;
    let mut i: usize = first;
    assert(digits.subrange(0, 0) =~= Seq::<char>::empty());
    while i < end
        invariant
            first <= i <= end <= list@.len(),
            digits == list@.subrange(first as int, end as int),
            forall|k: int| 0 <= k < i - first ==> is_digit(#[trigger] digits[k]),
            fits ==> value == digits_value(digits.subrange(0, i - first)),
            !fits ==> digits_value(digits.subrange(0, i - first)) > u64::MAX,
        decreases end - i,
    {
        let c: char = list[i];
        assert(c == digits[i - first]);
        if !('0' <= c && c <= '9') {
            assert(!is_digit(digits[i - first]));
            return None;
        }
        proof {
            let longer = digits.subrange(0, i - first + 1);
            assert(longer.drop_last() =~= digits.subrange(0, i - first));
            assert(longer.last() == c);
        }
        let digit: u64 = (c as u32 - '0' as u32) as u64;
        let next: u128 = (value as u128) * 10 + digit as u128;
        if fits && next > u64::MAX as u128 {
            fits = false;
        } else if fits {
            value = next as u64;
        }
        i += 1;
    }
    assert(digits.subrange(0, i - first) =~= digits);
    if fits {
        Some(value)
    } else {
        None
    }
}

/// The first place from `i` on that holds white space, or the end.
pub open spec fn token_end(text: Seq<char>, i: int) -> int
    decreases text.len() - i,
{
    if 0 <= i < text.len() && !is_white(text[i]) {
        token_end(text, i + 1)
    } else {
        i
    }
}

/// The first place from `i` on that holds a line break, or the end.
pub open spec fn line_end(text: Seq<char>, i: int) -> int
    decreases text.len() - i,
{
    if 0 <= i < text.len() && text[i] != '\n' {
        line_end(text, i + 1)
    } else {
        i
    }
}

/// The number in a line on the resident memory of a process: the first word behind the name.
pub open spec fn resident_kilobytes(line: Seq<char>) -> Option<u64> {
    if line.len() < 6 || line.subrange(0, 6) != "VmRSS:"@ {
        None
    } else {
        let rest = line.subrange(6, line.len() as int);
        let start = token_start(rest, 0);
        if start == rest.len() {
            None
        } else {
            parsed_number(rest.subrange(start, token_end(rest, start)))
        }
    }
}

/// The number in the first line from `i` on that has one on the resident memory of a process.
pub open spec fn status_kilobytes(status: Seq<char>, i: int) -> Option<u64>
    decreases status.len() - i,
    when 0 <= i <= status.len()
    via status_kilobytes_shrinks
{
    let end = line_end(status, i);
    match resident_kilobytes(status.subrange(i, end)) {
        Some(kilobytes) => Some(kilobytes),
        None => if end >= status.len() {
            None
        } else {
            status_kilobytes(status, end + 1)
        },
    }
}

#[via_fn]
proof fn status_kilobytes_shrinks(status: Seq<char>, i: int) {
    lemma_line_end(status, i);
}

proof fn lemma_line_end(text: Seq<char>, i: int)
    requires
        0 <= i <= text.len(),
    ensures
        i <= line_end(text, i) <= text.len(),
        line_end(text, i) < text.len() ==> text[line_end(text, i)] == '\n',
    decreases text.len() - i,
{
    if i < text.len() && text[i] != '\n' {
        lemma_line_end(text, i + 1);
    }
}

/// Kilobytes as bytes, as far as eight bytes hold them.
pub open spec fn in_bytes(kilobytes: Option<u64>) -> Option<u64> {
    match kilobytes {
        Some(kilobytes) => if kilobytes * 1024 > u64::MAX {
            None
        } else {
            Some((kilobytes * 1024) as u64)
        },
        None => None,
    }
}

fn to_bytes(kilobytes: Option<u64>) -> (bytes: Option<u64>)
    ensures
        bytes == in_bytes(kilobytes),
{
    match kilobytes {
        Some(kilobytes) => kilobytes.checked_mul(1024),
        None => None,
    }
}

#[verifier::loop_isolation(false)]
fn line_kilobytes(list: &Vec<char>, start: usize, end: usize) -> (kilobytes: Option<u64>)
    requires
        start <= end <= list@.len(),
    ensures
        kilobytes == resident_kilobytes(list@.subrange(start as int, end as int)),
{
    let ghost line = list@.subrange(start as int, end as int);
    proof {
        reveal_strlit("VmRSS:");
    }
    if end - start < 6 {
        return None;
    }
    if list[start] != 'V' || list[start + 1] != 'm' || list[start + 2] != 'R' || list[start + 3]
        != 'S' || list[start + 4] != 'S' || list[start + 5] != ':' {
        proof {
            if line.subrange(0, 6) == "VmRSS:"@ {
                assert(line.subrange(0, 6)[0] == list@[start as int]);
                assert(line.subrange(0, 6)[1] == list@[start + 1]);
                assert(line.subrange(0, 6)[2] == list@[start + 2]);
                assert(line.subrange(0, 6)[3] == list@[start + 3]);
                assert(line.subrange(0, 6)[4] == list@[start + 4]);
                assert(line.subrange(0, 6)[5] == list@[start + 5]);
            }
        }
        return None;
    }
    assert(line.subrange(0, 6) =~= "VmRSS:"@);
    let head: usize = start + 6;
    let ghost rest = line.subrange(6, line.len() as int);
    assert(rest =~= list@.subrange(head as int, end as int));
    let mut first: usize = head;
    while first < end && char_is_whitespace(list[first])
        invariant
            head <= first <= end <= list@.len(),
            rest == list@.subrange(head as int, end as int),
            token_start(rest, 0) == token_start(rest, first - head),
        decreases end - first,
    {
        assert(rest[first - head] == list@[first as int]);
        first += 1;
    }
    proof {
        if first < end {
            assert(rest[first - head] == list@[first as int]);
        }
        assert(token_start(rest, 0) == first - head);
    }
    if first == end {
        return None;
    }
    let mut last: usize = first;
    while last < end && !char_is_whitespace(list[last])
        invariant
            head <= first <= last <= end <= list@.len(),
            rest == list@.subrange(head as int, end as int),
            token_end(rest, first - head) == token_end(rest, last - head),
        decreases end - last,
    {
        assert(rest[last - head] == list@[last as int]);
        last += 1;
    }
    proof {
        if last < end {
            assert(rest[last - head] == list@[last as int]);
        }
        assert(token_end(rest, first - head) == last - head);
        assert(rest.subrange(first - head, last - head) =~= list@.subrange(
            first as int,
            last as int,
        ));
    }
    parse_number(list, first, last)
}

/// The resident memory of a process in bytes, from the text in which the system describes it.
#[verifier::loop_isolation(false)]
pub fn rss_from_status(status: &str) -> (bytes: Option<u64>)
    ensures
        bytes == in_bytes(status_kilobytes(status@, 0)),
{
    let list = characters(status);
    let mut start: usize = 0;
    while start <= list.len()
        invariant
            list@ == status@,
            start <= list@.len(),
            status_kilobytes(status@, 0) == status_kilobytes(status@, start as int),
        decreases list@.len() - start,
    {
        let mut end: usize = start;
        while end < list.len() && list[end] != '\n'
            invariant
                list@ == status@,
                start <= end <= list@.len(),
                line_end(status@, start as int) == line_end(status@, end as int),
            decreases list@.len() - end,
        {
            end += 1;
        }
        assert(line_end(status@, start as int) == end);
        let found = line_kilobytes(&list, start, end);
        if found.is_some() || end >= list.len() {
            return to_bytes(found);
        }
        start = end + 1;
    }
    None
}

/// The resident memory of a process in bytes, from what `ps` writes of it in kilobytes.
pub fn rss_from_ps(output: &str) -> (bytes: Option<u64>)
    ensures
        bytes == in_bytes(parsed_number(trimmed(output@))),
{
    let list = trim(output);
    let end: usize = list.len();
    assert(list@.subrange(0, end as int) =~= list@);
    to_bytes(parse_number(&list, 0, end))
}

/// The peak that a sampler reports: none where no sample was taken.
pub fn reported_peak(maximum: u64) -> (peak: Option<u64>)
    ensures
        peak == peak_of(maximum),
{
    if maximum > 0 {
        Some(maximum)
    } else {
        None
    }
}

/// The sum of numbers.
pub open spec fn sum_of(list: Seq<u64>) -> nat
    decreases list.len(),
{
    if list.len() == 0 {
        0
    } else {
        sum_of(list.drop_last()) + list.last() as nat
    }
}

proof fn lemma_sum_of_prefix(list: Seq<u64>, i: int)
    requires
        0 <= i <= list.len(),
    ensures
        sum_of(list.subrange(0, i)) <= sum_of(list),
    decreases list.len() - i,
{
    if i == list.len() {
        assert(list.subrange(0, i) =~= list);
    } else {
        lemma_sum_of_prefix(list, i + 1);
        assert(list.subrange(0, i + 1).drop_last() =~= list.subrange(0, i));
    }
}

/// How many bytes the files below a directory have.
pub fn directory_bytes(lengths: &Vec<u64>) -> (total: Result<u64, EvidenceError>)
    ensures
        refusal_of(total) == fault_when(
            sum_of(lengths@) > u64::MAX,
            "directory byte count overflow"@,
        ),
        total matches Ok(total) ==> total == sum_of(lengths@),
{
    let mut total: u64 = 0;
    let mut i: usize = 0;
    assert(lengths@.subrange(0, 0) =~= Seq::<u64>::empty());
    while i < lengths.len()
        invariant
            i <= lengths@.len(),
            total == sum_of(lengths@.subrange(0, i as int)),
        decreases lengths@.len() - i,
    {
        proof {
            let longer = lengths@.subrange(0, i + 1);
            assert(longer.drop_last() =~= lengths@.subrange(0, i as int));
            assert(longer.last() == lengths@[i as int]);
        }
        match total.checked_add(lengths[i]) {
            Some(more) => {
                total = more;
            },
            None => {
                proof {
                    lemma_sum_of_prefix(lengths@, i + 1);
                }
                return Err(refuse("directory byte count overflow"));
            },
        }
        i += 1;
    }
    assert(lengths@.subrange(0, i as int) =~= lengths@);
    Ok(total)
}

/// A number is read exactly from decimal digits, with a plus before them or without, and is what
/// they stand for.
pub proof fn law_written_number_is_read_back(value: u64)
    ensures
        parsed_number(crate::text::decimal(value as nat)) == Some(value),
        parsed_number(seq!['+'] + crate::text::decimal(value as nat)) == Some(value),
        parsed_number(seq!['-'] + crate::text::decimal(value as nat)) is None,
        parsed_number(Seq::<char>::empty()) is None,
{
    let digits = crate::text::decimal(value as nat);
    lemma_decimal_digits(value as nat);
    assert((seq!['+'] + digits).subrange(1, 1 + digits.len() as int) =~= digits);
    assert((seq!['-'] + digits)[0] == '-');
    assert(!is_digit('-'));
    assert(unsigned_digits(seq!['-'] + digits) == seq!['-'] + digits);
}

proof fn lemma_decimal_digits(value: nat)
    ensures
        ({
            let digits = crate::text::decimal(value);
            &&& digits.len() > 0
            &&& digits_value(digits) == value
            &&& forall|i: int| 0 <= i < digits.len() ==> is_digit(#[trigger] digits[i])
            &&& digits[0] != '+'
        }),
    decreases value,
{
    let digits = crate::text::decimal(value);
    if value < 10 {
        assert(digits.drop_last() =~= Seq::<char>::empty());
        assert(digits_value(digits.drop_last()) == 0);
        assert(digits.last() == crate::text::digit(value));
    } else {
        lemma_decimal_digits(value / 10);
        assert(digits.drop_last() =~= crate::text::decimal(value / 10));
        assert(digits.last() == crate::text::digit(value % 10));
        assert(digits[0] == crate::text::decimal(value / 10)[0]);
        assert forall|i: int| 0 <= i < digits.len() implies is_digit(#[trigger] digits[i]) by {
            if i < digits.len() - 1 {
                assert(digits[i] == crate::text::decimal(value / 10)[i]);
            }
        }
    }
}

/// Memory is measured in bytes: 1024 for every kilobyte, where that is a number.
pub proof fn law_kilobytes_are_1024_bytes(kilobytes: u64)
    ensures
        in_bytes(None) is None,
        in_bytes(Some(kilobytes)) matches Some(bytes) ==> bytes == 1024 * kilobytes,
        in_bytes(Some(kilobytes)) is Some <==> 1024 * kilobytes <= u64::MAX,
{
}

/// A directory is as large as its files together: one file more adds its bytes.
pub proof fn law_directory_is_as_large_as_its_files(lengths: Seq<u64>, length: u64)
    ensures
        sum_of(Seq::<u64>::empty()) == 0,
        sum_of(lengths.push(length)) == sum_of(lengths) + length,
{
    assert(lengths.push(length).drop_last() =~= lengths);
}

/// The resident memory of a process is what the line about it says, wherever it stands among lines
/// that are about something else.
pub proof fn law_lines_about_something_else_do_not_count(before: Seq<char>, after: Seq<char>)
    requires
        forall|i: int| 0 <= i < before.len() ==> before[i] != '\n',
        resident_kilobytes(before) is None,
    ensures
        status_kilobytes(before.push('\n') + after, 0) == status_kilobytes(
            before.push('\n') + after,
            before.len() as int + 1,
        ),
{
    let status = before.push('\n') + after;
    lemma_line_ends(status, before.len() as int, 0);
    assert(status.subrange(0, before.len() as int) =~= before);
}

proof fn lemma_line_ends(text: Seq<char>, end: int, i: int)
    requires
        0 <= i <= end < text.len(),
        text[end] == '\n',
        forall|k: int| i <= k < end ==> text[k] != '\n',
    ensures
        line_end(text, i) == end,
    decreases end - i,
{
    if i < end {
        lemma_line_ends(text, end, i + 1);
    }
}

/// The peak that is reported of the greatest value that was seen.
pub open spec fn peak_of(maximum: u64) -> Option<u64> {
    if maximum > 0 {
        Some(maximum)
    } else {
        None
    }
}

/// A peak is reported exactly where something was seen, and is what was seen.
pub proof fn law_peak_is_reported_where_seen(maximum: u64)
    ensures
        peak_of(maximum) is Some <==> maximum > 0,
        peak_of(maximum) matches Some(peak) ==> peak == maximum,
{
}

/// The resident memory is the number between white space behind its name: a line that begins with
/// the name, goes on with white space and a number and then ends or goes on with white space, says
/// that number of kilobytes.
pub proof fn law_resident_memory_is_the_number_behind_its_name(
    gap: Seq<char>,
    value: u64,
    unit: Seq<char>,
)
    requires
        forall|i: int| 0 <= i < gap.len() ==> is_white(#[trigger] gap[i]),
        forall|c: char| is_digit(c) ==> !#[trigger] is_white(c),
        unit.len() > 0 ==> is_white(unit[0]),
    ensures
        resident_kilobytes(
            "VmRSS:"@ + (gap + crate::text::decimal(value as nat) + unit),
        ) == Some(value),
{
    reveal_strlit("VmRSS:");
    let digits = crate::text::decimal(value as nat);
    let rest = gap + digits + unit;
    let line = "VmRSS:"@ + rest;
    lemma_decimal_digits(value as nat);
    law_written_number_is_read_back(value);
    assert(line.subrange(0, 6) =~= "VmRSS:"@);
    assert(line.subrange(6, line.len() as int) =~= rest);
    let start = gap.len() as int;
    let end = start + digits.len() as int;
    lemma_white_run(rest, start, 0);
    assert forall|k: int| start <= k < end implies !is_white(#[trigger] rest[k]) by {
        assert(rest[k] == digits[k - start]);
        assert(is_digit(digits[k - start]));
    }
    lemma_token_run(rest, end, start);
    assert(rest.subrange(start, end) =~= digits);
}

proof fn lemma_white_run(text: Seq<char>, start: int, i: int)
    requires
        0 <= i <= start < text.len(),
        forall|k: int| i <= k < start ==> is_white(#[trigger] text[k]),
        !is_white(text[start]),
    ensures
        token_start(text, i) == start,
    decreases start - i,
{
    if i < start {
        lemma_white_run(text, start, i + 1);
    }
}

proof fn lemma_token_run(text: Seq<char>, end: int, i: int)
    requires
        0 <= i <= end <= text.len(),
        forall|k: int| i <= k < end ==> !is_white(#[trigger] text[k]),
        end < text.len() ==> is_white(text[end]),
    ensures
        token_end(text, i) == end,
    decreases end - i,
{
    if i < end {
        lemma_token_run(text, end, i + 1);
    }
}

} // verus!
