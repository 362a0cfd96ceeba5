//! Colours written as six hexadecimal digits.

use vstd::prelude::*;
use vstd::string::StrSliceExecFns;

use crate::color::Color;
use crate::error::RecolourError;

verus! {

/// The value of a hexadecimal digit, of either case; `None` for any other
/// character.
pub open spec fn hex_value(c: char) -> Option<u8> {
    if '0' <= c <= '9' {
        Some((c as u32 - '0' as u32) as u8)
    } else if 'a' <= c <= 'f' {
        Some((c as u32 - 'a' as u32 + 10) as u8)
    } else if 'A' <= c <= 'F' {
        Some((c as u32 - 'A' as u32 + 10) as u8)
    } else {
        None
    }
}

/// `text` without its leading `#`, if it has one.
pub open spec fn hex_digits(text: Seq<char>) -> Seq<char> {
    if text.len() > 0 && text[0] == '#' {
        text.skip(1)
    } else {
        text
    }
}

/// `text` is a colour: six hexadecimal digits, after one `#` or none.
pub open spec fn is_hex_color(text: Seq<char>) -> bool {
    let digits = hex_digits(text);
    &&& digits.len() == 6
    &&& forall|i: int| 0 <= i < 6 ==> hex_value(#[trigger] digits[i]) is Some
}

/// The number that the two digits at `at` and `at + 1` stand for.
pub open spec fn hex_pair(digits: Seq<char>, at: int) -> u8 {
    (16 * hex_value(digits[at]).unwrap() + hex_value(digits[at + 1]).unwrap()) as u8
}

/// The colour that `text` stands for, where it is one: two digits each for
/// red, green and blue.
pub open spec fn hex_color(text: Seq<char>) -> Color {
    let digits = hex_digits(text);
    Color { r: hex_pair(digits, 0), g: hex_pair(digits, 2), b: hex_pair(digits, 4) }
}

/// The value of the hexadecimal digit `c`.
fn digit_value(c: char) -> (r: Option<u8>)
    ensures
        r == hex_value(c),
        r matches Some(v) ==> v < 16,
{
    if '0' <= c && c <= '9' {
        Some((c as u32 - '0' as u32) as u8)
    } else if 'a' <= c && c <= 'f' {
        Some((c as u32 - 'a' as u32 + 10) as u8)
    } else if 'A' <= c && c <= 'F' {
        Some((c as u32 - 'A' as u32 + 10) as u8)
    } else {
        None
    }
}

/// The number that the two characters of `text` at `at` and `at + 1` stand
/// for, if both are hexadecimal digits.
fn pair_value(text: &str, at: usize) -> (r: Option<u8>)
    requires
        at + 1 < text@.len() <= usize::MAX,
    ensures
        r is Some <==> hex_value(text@[at as int]) is Some && hex_value(text@[at + 1]) is Some,
        r matches Some(v) ==> v == (16 * hex_value(text@[at as int]).unwrap() + hex_value(
            text@[at + 1],
        ).unwrap()) as u8,
{
    let high = digit_value(text.get_char(at));
    let low = digit_value(text.get_char(at + 1));
    match (high, low) {
        (Some(h), Some(l)) => Some(16 * h + l),
        _ => None,
    }
}

/// Reads a colour written as `#RRGGBB` or `RRGGBB`, in hexadecimal digits of
/// either case. Any other text is refused, and handed back in the error.
pub fn parse_hex_color(text: &str) -> (r: Result<Color, RecolourError>)
    ensures
        is_hex_color(text@) ==> r == Ok::<Color, RecolourError>(hex_color(text@)),
        !is_hex_color(text@) ==> (r matches Err(RecolourError::InvalidColor(refused)) && refused@
            == text@),
{
    let len: usize = text.unicode_len();
    let start: usize = if len > 0 && text.get_char(0) == '#' {
        1
    } else {
        0
    };
    if len - start != 6 {
        return Err(RecolourError::InvalidColor(text.to_owned()));
    }
    let ghost digits = hex_digits(text@);
    assert(forall|i: int| 0 <= i < 6 ==> digits[i] == text@[start + i]);
    let red = pair_value(text, start);
    let green = pair_value(text, start + 2);
    let blue = pair_value(text, start + 4);
    match (red, green, blue) {
        (Some(r), Some(g), Some(b)) => {
            assert(is_hex_color(text@));
            Ok(Color { r, g, b })
        },
        _ => {
            assert(!is_hex_color(text@)) by {
                if is_hex_color(text@) {
                    assert(hex_value(digits[0]) is Some);
                    assert(hex_value(digits[1]) is Some);
                    assert(hex_value(digits[2]) is Some);
                    assert(hex_value(digits[3]) is Some);
                    assert(hex_value(digits[4]) is Some);
                    assert(hex_value(digits[5]) is Some);
                }
            }
            Err(RecolourError::InvalidColor(text.to_owned()))
        },
    }
}

} // verus!
