//! Choosing a scheme by its number in the list of names.

use vstd::prelude::*;

use crate::error::RecolourError;
use crate::text::chars_of;

verus! {

/// `c` is white space, as Unicode defines it.
pub open spec fn is_whitespace(c: char) -> bool {
    let n = c as u32;
    ||| 0x09 <= n <= 0x0d
    ||| n == 0x20
    ||| n == 0x85
    ||| n == 0xa0
    ||| n == 0x1680
    ||| 0x2000 <= n <= 0x200a
    ||| n == 0x2028
    ||| n == 0x2029
    ||| n == 0x202f
    ||| n == 0x205f
    ||| n == 0x3000
}

/// `text` without the white space at its start.
pub open spec fn trim_start(text: Seq<char>) -> Seq<char>
    decreases text.len(),
{
    if text.len() > 0 && is_whitespace(text[0]) {
        trim_start(text.skip(1))
    } else {
        text
    }
}

/// `text` without the white space at its end.
pub open spec fn trim_end(text: Seq<char>) -> Seq<char>
    decreases text.len(),
{
    if text.len() > 0 && is_whitespace(text.last()) {
        trim_end(text.drop_last())
    } else {
        text
    }
}

/// `text` without the white space at its start and at its end.
pub open spec fn trimmed(text: Seq<char>) -> Seq<char> {
    trim_end(trim_start(text))
}

/// `c` is a decimal digit.
pub open spec fn is_digit(c: char) -> bool {
    '0' <= c <= '9'
}

/// The number that decimal digits stand for.
pub open spec fn decimal_value(digits: Seq<char>) -> nat
    decreases digits.len(),
{
    if digits.len() == 0 {
        0
    } else {
        10 * decimal_value(digits.drop_last()) + (digits.last() as u32 - '0' as u32) as nat
    }
}

/// `text` without its leading `+`, if it has one.
pub open spec fn unsigned(text: Seq<char>) -> Seq<char> {
    if text.len() > 0 && text[0] == '+' {
        text.skip(1)
    } else {
        text
    }
}

/// `text` is a number: one decimal digit or more, after one `+` or none.
pub open spec fn is_number(text: Seq<char>) -> bool {
    let digits = unsigned(text);
    &&& digits.len() > 0
    &&& forall|i: int| 0 <= i < digits.len() ==> is_digit(#[trigger] digits[i])
}

/// The place in a list of `count` entries that `line` selects: white space
/// around it aside, `line` is the number of an entry, counted from one. The
/// place is counted from zero. `None` where `line` is no such number.
pub open spec fn selection(line: Seq<char>, count: nat) -> Option<nat> {
    let text = trimmed(line);
    let number = decimal_value(unsigned(text));
    if is_number(text) && 1 <= number <= count {
        Some((number - 1) as nat)
    } else {
        None
    }
}

/// Whether `c` is white space.
fn whitespace(c: char) -> (r: bool)
    ensures
        r == is_whitespace(c),
{
    let n = c as u32;
    (0x09 <= n && n <= 0x0d) || n == 0x20 || n == 0x85 || n == 0xa0 || n == 0x1680 || (0x2000 <= n
        && n <= 0x200a) || n == 0x2028 || n == 0x2029 || n == 0x202f || n == 0x205f || n == 0x3000
}

/// Reads the number of an entry in a list of `count` entries, as a user
/// types it: a number from one to `count`, which may have a `+` before it
/// and white space around it. The place of the entry, counted from zero, is
/// returned. Any other line is refused, and handed back in the error.
pub fn parse_selection(line: &str, count: usize) -> (r: Result<usize, RecolourError>)
    ensures
        selection(line@, count as nat) matches Some(place) ==> r == Ok::<usize, RecolourError>(
            place as usize,
        ),
        selection(line@, count as nat) is None ==> (r matches Err(
            RecolourError::InvalidSelection(refused),
        ) && refused@ == line@),
        r matches Ok(place) ==> place < count,
{
    let chars = chars_of(line);
    let mut start: usize = 0;
    assert(chars@.skip(0) =~= chars@);
    while start < chars.len() && whitespace(chars[start])
        invariant
            start <= chars@.len(),
            trim_start(chars@) == trim_start(chars@.skip(start as int)),
        decreases chars@.len() - start,
    {
        assert(chars@.skip(start as int).skip(1) =~= chars@.skip(start + 1));
        start += 1;
    }
    let ghost tail = chars@.skip(start as int);
    assert(trim_start(chars@) == tail);
    let mut end: usize = chars.len();
    while end > start && whitespace(chars[end - 1])
        invariant
            start <= end <= chars@.len(),
            tail == chars@.skip(start as int),
            trim_end(tail) == trim_end(chars@.subrange(start as int, end as int)),
        decreases end,
    {
        assert(chars@.subrange(start as int, end as int).drop_last() =~= chars@.subrange(
            start as int,
            end - 1,
        ));
        end -= 1;
    }
    assert(chars@.subrange(start as int, chars@.len() as int) =~= tail);
    let ghost text = chars@.subrange(start as int, end as int);
    assert(trimmed(line@) == text);
    let first: usize = if start < end && chars[start] == '+' {
        start + 1
    } else {
        start
    };
    let ghost digits = chars@.subrange(first as int, end as int);
    assert(unsigned(text) =~= digits);
    if first == end {
        return Err(RecolourError::InvalidSelection(line.to_owned()));
    }
    let mut number: u128 = 0;
    let mut beyond = false;
    let mut k: usize = first;
    while k < end
        invariant
            first <= k <= end <= chars@.len(),
            digits == chars@.subrange(first as int, end as int),
            digits == unsigned(trimmed(line@)),
            forall|i: int| 0 <= i < k - first ==> is_digit(#[trigger] digits[i]),
            !beyond ==> number == decimal_value(digits.take(k - first)) && number <= count,
            beyond ==> decimal_value(digits.take(k - first)) > count,
        decreases end - k,
    {
        let c = chars[k];
        if !('0' <= c && c <= '9') {
            assert(!is_digit(digits[k - first]));
            return Err(RecolourError::InvalidSelection(line.to_owned()));
        }
        assert(digits.take(k - first + 1).drop_last() =~= digits.take(k - first));
        assert(digits.take(k - first + 1).last() == c);
        if !beyond {
            number = 10 * number + (c as u32 - '0' as u32) as u128;
            if number > count as u128 {
                beyond = true;
            }
        }
        k += 1;
    }
    assert(digits.take(end - first) =~= digits);
    if beyond || number == 0 {
        Err(RecolourError::InvalidSelection(line.to_owned()))
    } else {
        Ok((number - 1) as usize)
    }
}

/// The name that `line` selects from `names`: the entry whose number,
/// counted from one, `line` holds.
pub fn select_scheme(names: &Vec<String>, line: &str) -> (r: Result<String, RecolourError>)
    ensures
        selection(line@, names@.len()) matches Some(place) ==> (r matches Ok(name) && name@
            == names@[place as int]@),
        selection(line@, names@.len()) is None ==> (r matches Err(
            RecolourError::InvalidSelection(refused),
        ) && refused@ == line@),
{
    match parse_selection(line, names.len()) {
        Ok(place) => Ok(names[place].clone()),
        Err(error) => Err(error),
    }
}

} // verus!
