//! The grammar, as mathematical functions on text.
//!
//! A rule takes the text that is still unread. Where it matches it gives
//! what it read and the text after the match; where it does not, `None`.
//!
//! The value, member and list rules compare lengths before they go on:
//! that bounds their recursion and excludes nothing, since a rule that
//! matches always leaves less text than it was given (see `laws`).

use crate::number::number;
use crate::value::JsonModel;
use vstd::prelude::*;

verus! {

/// Space, tab, carriage return and line feed.
pub open spec fn is_blank(c: char) -> bool {
    c == ' ' || c == '\t' || c == '\r' || c == '\n'
}

/// The ASCII letters and digits.
pub open spec fn is_alnum(c: char) -> bool {
    ('0' <= c && c <= '9') || ('a' <= c && c <= 'z') || ('A' <= c && c <= 'Z')
}

/// The end of the run of blanks that starts at position `k`.
pub open spec fn blank_end(s: Seq<char>, k: int) -> int
    decreases s.len() - k,
{
    if 0 <= k < s.len() && is_blank(s[k]) {
        blank_end(s, k + 1)
    } else {
        k
    }
}

/// The end of the run of letters and digits that starts at position `k`.
pub open spec fn alnum_end(s: Seq<char>, k: int) -> int
    decreases s.len() - k,
{
    if 0 <= k < s.len() && is_alnum(s[k]) {
        alnum_end(s, k + 1)
    } else {
        k
    }
}

/// The text without its leading blanks.
pub open spec fn skip_blanks(s: Seq<char>) -> Seq<char> {
    s.skip(blank_end(s, 0))
}

/// Whether the text, after leading blanks, begins with `c`.
pub open spec fn next_is(s: Seq<char>, c: char) -> bool {
    skip_blanks(s).len() > 0 && skip_blanks(s)[0] == c
}

/// The text after leading blanks and one further character.
pub open spec fn after_next(s: Seq<char>) -> Seq<char> {
    skip_blanks(s).skip(1)
}

/// The string rule: a quote, one or more letters and digits, a quote.
pub open spec fn quoted(s: Seq<char>) -> Option<(Seq<char>, Seq<char>)> {
    let end = alnum_end(s, 1);
    if s.len() > 0 && s[0] == '"' && 1 < end && end < s.len() && s[end] == '"' {
        Some((s.subrange(1, end), s.skip(end + 1)))
    } else {
        None
    }
}

/// The text begins with `null`.
pub open spec fn null_literal(s: Seq<char>) -> bool {
    s.len() >= 4 && s[0] == 'n' && s[1] == 'u' && s[2] == 'l' && s[3] == 'l'
}

/// The text begins with `true`.
pub open spec fn true_literal(s: Seq<char>) -> bool {
    s.len() >= 4 && s[0] == 't' && s[1] == 'r' && s[2] == 'u' && s[3] == 'e'
}

/// The text begins with `false`.
pub open spec fn false_literal(s: Seq<char>) -> bool {
    s.len() >= 5 && s[0] == 'f' && s[1] == 'a' && s[2] == 'l' && s[3] == 's' && s[4] == 'e'
}

/// The boolean rule.
pub open spec fn boolean(s: Seq<char>) -> Option<(bool, Seq<char>)> {
    if true_literal(s) {
        Some((true, s.skip(4)))
    } else if false_literal(s) {
        Some((false, s.skip(5)))
    } else {
        None
    }
}

/// The value rule: leading blanks, then the first of object, array,
/// `null`, boolean, number and string that matches.
pub open spec fn value(s: Seq<char>) -> Option<(JsonModel, Seq<char>)>
    decreases s.len(), 5nat,
{
    let t = skip_blanks(s);
    if t.len() > s.len() {
        None
    } else if let Some(r) = root(t) {
        Some(r)
    } else if let Some((b, rest)) = boolean(t) {
        Some((JsonModel::Boolean(b), rest))
    } else if let Some((bits, rest)) = number(t) {
        Some((JsonModel::Number(bits), rest))
    } else if let Some((text, rest)) = quoted(t) {
        Some((JsonModel::String(text), rest))
    } else {
        None
    }
}

/// The root rule: the first of object, array and `null` that matches.
pub open spec fn root(s: Seq<char>) -> Option<(JsonModel, Seq<char>)>
    decreases s.len(), 4nat,
{
    if let Some((members, rest)) = object(s) {
        Some((JsonModel::Object(members), rest))
    } else if let Some((items, rest)) = array(s) {
        Some((JsonModel::Array(items), rest))
    } else if null_literal(s) {
        Some((JsonModel::Null, s.skip(4)))
    } else {
        None
    }
}

/// The array rule: `[`, values with commas between them, `]`.
pub open spec fn array(s: Seq<char>) -> Option<(Seq<JsonModel>, Seq<char>)>
    decreases s.len(), 3nat,
{
    if s.len() > 0 && s[0] == '[' {
        let (items, rest) = items_from(s.skip(1), Seq::empty(), true);
        if next_is(rest, ']') {
            Some((items, after_next(rest)))
        } else {
            None
        }
    } else {
        None
    }
}

/// The values of a list, added to `acc`, and the text after the last of
/// them. Every value but the first of a list follows a comma; a comma with
/// no value behind it is left unread.
pub open spec fn items_from(s: Seq<char>, acc: Seq<JsonModel>, first: bool) -> (
    Seq<JsonModel>,
    Seq<char>,
)
    decreases s.len(), 6nat,
{
    if first || next_is(s, ',') {
        let t = if first {
            s
        } else {
            after_next(s)
        };
        if t.len() <= s.len() {
            match value(t) {
                Some((v, rest)) => if rest.len() < s.len() {
                    items_from(rest, acc.push(v), false)
                } else {
                    (acc, s)
                },
                None => (acc, s),
            }
        } else {
            (acc, s)
        }
    } else {
        (acc, s)
    }
}

/// One member of an object: a key, a colon, a value, with blanks allowed
/// before each.
pub open spec fn member(s: Seq<char>) -> Option<((Seq<char>, JsonModel), Seq<char>)>
    decreases s.len(), 6nat,
{
    match quoted(skip_blanks(s)) {
        Some((key, after_key)) => if next_is(after_key, ':') && after_next(after_key).len()
            < s.len() {
            match value(after_next(after_key)) {
                Some((v, rest)) => Some(((key, v), rest)),
                None => None,
            }
        } else {
            None
        },
        None => None,
    }
}

/// The members of a list, written into `acc` in turn, and the text after
/// the last of them.
pub open spec fn members_from(s: Seq<char>, acc: Map<Seq<char>, JsonModel>, first: bool) -> (
    Map<Seq<char>, JsonModel>,
    Seq<char>,
)
    decreases s.len(), 7nat,
{
    if first || next_is(s, ',') {
        let t = if first {
            s
        } else {
            after_next(s)
        };
        if t.len() <= s.len() {
            match member(t) {
                Some(((key, v), rest)) => if rest.len() < s.len() {
                    members_from(rest, acc.insert(key, v), false)
                } else {
                    (acc, s)
                },
                None => (acc, s),
            }
        } else {
            (acc, s)
        }
    } else {
        (acc, s)
    }
}

/// The object rule: `{`, members with commas between them, `}`.
pub open spec fn object(s: Seq<char>) -> Option<(Map<Seq<char>, JsonModel>, Seq<char>)>
    decreases s.len(), 3nat,
{
    if s.len() > 0 && s[0] == '{' {
        let (members, rest) = members_from(s.skip(1), Map::empty(), true);
        if next_is(rest, '}') {
            Some((members, after_next(rest)))
        } else {
            None
        }
    } else {
        None
    }
}

/// A document: blanks, the root rule, blanks, and nothing more.
pub open spec fn document(s: Seq<char>) -> Option<JsonModel> {
    match root(skip_blanks(s)) {
        Some((v, rest)) => if skip_blanks(rest).len() == 0 {
            Some(v)
        } else {
            None
        },
        None => None,
    }
}

} // verus!
