//! Numeric literals, read by `nom`.

use crate::text::{text_from, text_len};
use vstd::prelude::*;

verus! {

/// What `nom::number::complete::double` makes of a text: `None` where it
/// reports an error, else the byte length of the input that it leaves
/// unread and the IEEE-754 bit pattern of the number that it read.
pub uninterp spec fn double_reading(text: Seq<char>) -> Option<(usize, u64)>;

/// Calls `nom::number::complete::double` on `text`.
///
/// Nothing is claimed but that the outcome is a function of the text:
/// an error of either kind becomes `None`, a success the length of the
/// remaining input and the bits of the value.
#[verifier::external_body]
pub(crate) fn read_double(text: &str) -> (reading: Option<(usize, u64)>)
    ensures
        reading == double_reading(text@),
{
    match nom::number::complete::double::<&str, (&str, nom::error::ErrorKind)>(text) {
        Ok((rest, number)) => Some((rest.len(), number.to_bits())),
        Err(_) => None,
    }
}

/// The number rule, given what the reader made of the text: the reading
/// counts when it leaves strictly less than the whole text.
pub open spec fn number_given(s: Seq<char>, reading: Option<(usize, u64)>) -> Option<
    (u64, Seq<char>),
> {
    match reading {
        Some((left, bits)) => if left < s.len() {
            Some((bits, s.skip(s.len() - left)))
        } else {
            None
        },
        None => None,
    }
}

/// The number rule: a floating-point literal at the start of `s`.
pub open spec fn number(s: Seq<char>) -> Option<(u64, Seq<char>)> {
    number_given(s, double_reading(s))
}

/// Turns a reading of `i` into the outcome of the number rule: the bits of
/// the value and the text after the literal.
pub fn number_from_reading<'a>(i: &'a str, reading: Option<(usize, u64)>) -> (r: Option<
    (&'a str, u64),
>)
    requires
        i.is_ascii(),
    ensures
        match r {
            Some((rest, bits)) => number_given(i@, reading) == Some((bits, rest@))
                && rest.is_ascii() && rest@.len() < i@.len(),
            None => number_given(i@, reading) is None,
        },
{
    let len = text_len(i);
    match reading {
        Some((left, bits)) => {
            if left < len {
                let rest = text_from(i, len - left);
                Some((rest, bits))
            } else {
                None
            }
        },
        None => None,
    }
}

/// The number rule on `i`.
pub fn parse_number<'a>(i: &'a str) -> (r: Option<(&'a str, u64)>)
    requires
        i.is_ascii(),
    ensures
        match r {
            Some((rest, bits)) => number(i@) == Some((bits, rest@)) && rest.is_ascii()
                && rest@.len() < i@.len(),
            None => number(i@) is None,
        },
{
    let reading = read_double(i);
    number_from_reading(i, reading)
}

} // verus!
