//! The rules of the grammar, executable.

use crate::error::{message_text, JsonError};
use crate::grammar::{
    after_next, alnum_end, array, blank_end, boolean, document, is_alnum, is_blank, items_from,
    member, members_from, next_is, null_literal, object, quoted, root, skip_blanks, value,
};
use crate::laws::{lemma_alnum_end, lemma_blank_end, lemma_root_consumes};
use crate::number::parse_number;
use crate::text::{char_at, text_from, text_len};
use crate::value::{
    alnum_text, insert_member, lemma_array_view, lemma_object_view, members_map, members_wf,
    models_of, pairs_of, JsonValue,
};
use vstd::prelude::*;

verus! {

fn is_blank_char(c: char) -> (b: bool)
    ensures
        b == is_blank(c),
{
    c == ' ' || c == '\t' || c == '\r' || c == '\n'
}

fn is_alnum_char(c: char) -> (b: bool)
    ensures
        b == is_alnum(c),
{
    ('0' <= c && c <= '9') || ('a' <= c && c <= 'z') || ('A' <= c && c <= 'Z')
}

/// Splits the leading blanks off a text: gives the rest and the blanks.
pub fn split<'a>(i: &'a str) -> (r: (&'a str, &'a str))
    requires
        i.is_ascii(),
    ensures
        r.1@ + r.0@ == i@,
        forall|j: int| 0 <= j < r.1@.len() ==> is_blank(#[trigger] r.1@[j]),
        r.0@.len() == 0 || !is_blank(r.0@[0]),
        r.0@ == skip_blanks(i@),
        r.0.is_ascii(),
{
    let n = text_len(i);
    let mut k: usize = 0;
    while k < n && is_blank_char(char_at(i, k))
        invariant
            i.is_ascii(),
            n == i@.len(),
            k <= n,
            blank_end(i@, 0) == blank_end(i@, k as int),
        decreases n - k,
    {
        k += 1;
    }
    proof {
        lemma_blank_end(i@, 0);
    }
    let blanks = i.substring_ascii(0, k);
    let rest = text_from(i, k);
    assert(blanks@ + rest@ =~= i@);
    (rest, blanks)
}

/// Reads the character `c` after any blanks: gives the text behind it.
pub fn symbol<'a>(i: &'a str, c: char) -> (r: Option<&'a str>)
    requires
        i.is_ascii(),
    ensures
        match r {
            Some(rest) => next_is(i@, c) && rest@ == after_next(i@) && rest.is_ascii()
                && rest@.len() < i@.len(),
            None => !next_is(i@, c),
        },
{
    let (t, _) = split(i);
    proof {
        lemma_blank_end(i@, 0);
    }
    if text_len(t) > 0 && char_at(t, 0) == c {
        Some(text_from(t, 1))
    } else {
        None
    }
}

/// The string rule: gives the text behind the closing quote and the text
/// between the quotes.
pub fn parse_string<'a>(i: &'a str) -> (r: Option<(&'a str, &'a str)>)
    requires
        i.is_ascii(),
    ensures
        match r {
            Some((rest, text)) => quoted(i@) == Some((text@, rest@)) && rest.is_ascii()
                && rest@.len() < i@.len() && alnum_text(text@),
            None => quoted(i@) is None,
        },
{
    let n = text_len(i);
    proof {
        if n > 0 {
            lemma_alnum_end(i@, 1);
        }
    }
    if n == 0 || char_at(i, 0) != '"' {
        return None;
    }
    let mut k: usize = 1;
    while k < n && is_alnum_char(char_at(i, k))
        invariant
            i.is_ascii(),
            n == i@.len(),
            1 <= k <= n,
            alnum_end(i@, 1) == alnum_end(i@, k as int),
        decreases n - k,
    {
        k += 1;
    }
    if k == 1 || k >= n || char_at(i, k) != '"' {
        return None;
    }
    let text = i.substring_ascii(1, k);
    let rest = text_from(i, k + 1);
    Some((rest, text))
}

/// The boolean rule: `true` or `false`.
pub fn parse_boolean<'a>(i: &'a str) -> (r: Option<(&'a str, bool)>)
    requires
        i.is_ascii(),
    ensures
        match r {
            Some((rest, b)) => boolean(i@) == Some((b, rest@)) && rest.is_ascii() && rest@.len()
                < i@.len(),
            None => boolean(i@) is None,
        },
{
    let n = text_len(i);
    if n >= 4 && char_at(i, 0) == 't' && char_at(i, 1) == 'r' && char_at(i, 2) == 'u' && char_at(
        i,
        3,
    ) == 'e' {
        Some((text_from(i, 4), true))
    } else if n >= 5 && char_at(i, 0) == 'f' && char_at(i, 1) == 'a' && char_at(i, 2) == 'l'
        && char_at(i, 3) == 's' && char_at(i, 4) == 'e' {
        Some((text_from(i, 5), false))
    } else {
        None
    }
}

/// The null rule: gives the text behind `null`.
pub fn parse_null<'a>(i: &'a str) -> (r: Option<&'a str>)
    requires
        i.is_ascii(),
    ensures
        match r {
            Some(rest) => null_literal(i@) && rest@ == i@.skip(4) && rest.is_ascii()
                && rest@.len() < i@.len(),
            None => !null_literal(i@),
        },
{
    let n = text_len(i);
    if n >= 4 && char_at(i, 0) == 'n' && char_at(i, 1) == 'u' && char_at(i, 2) == 'l' && char_at(
        i,
        3,
    ) == 'l' {
        Some(text_from(i, 4))
    } else {
        None
    }
}

/// The value rule: blanks, then an object, an array, `null`, a boolean, a
/// number or a string, tried in that order on the same text.
pub fn parse_json_value<'a>(i: &'a str) -> (r: Option<(&'a str, JsonValue)>)
    requires
        i.is_ascii(),
    ensures
        match r {
            Some((rest, v)) => value(i@) == Some((v@, rest@)) && rest.is_ascii() && rest@.len()
                < i@.len() && v.wf(),
            None => value(i@) is None,
        },
    decreases i@.len(), 5nat,
{
    let (t, _) = split(i);
    proof {
        lemma_blank_end(i@, 0);
    }
    if let Some(found) = parse_json_root(t) {
        return Some(found);
    }
    if let Some((rest, b)) = parse_boolean(t) {
        return Some((rest, JsonValue::Boolean(b)));
    }
    if let Some((rest, bits)) = parse_number(t) {
        return Some((rest, JsonValue::Number(bits)));
    }
    if let Some((rest, text)) = parse_string(t) {
        return Some((rest, JsonValue::String(String::from_str(text))));
    }
    None
}

/// The root rule: an object, an array or `null`, tried in that order.
pub fn parse_json_root<'a>(i: &'a str) -> (r: Option<(&'a str, JsonValue)>)
    requires
        i.is_ascii(),
    ensures
        match r {
            Some((rest, v)) => root(i@) == Some((v@, rest@)) && rest.is_ascii() && rest@.len()
                < i@.len() && v.wf() && !(v is Boolean) && !(v is Number) && !(v is String),
            None => root(i@) is None,
        },
    decreases i@.len(), 4nat,
{
    if let Some((rest, members)) = parse_json_map(i) {
        proof {
            lemma_object_view(members);
        }
        return Some((rest, JsonValue::Object(members)));
    }
    if let Some((rest, items)) = parse_json_array(i) {
        proof {
            lemma_array_view(items);
        }
        return Some((rest, JsonValue::Array(items)));
    }
    if let Some(rest) = parse_null(i) {
        return Some((rest, JsonValue::Null));
    }
    None
}

/// The array rule: `[`, values with commas between them, `]`. Gives the
/// text behind the bracket and the values in order.
pub fn parse_json_array<'a>(i: &'a str) -> (r: Option<(&'a str, Vec<JsonValue>)>)
    requires
        i.is_ascii(),
    ensures
        match r {
            Some((rest, items)) => array(i@) == Some((models_of(items@), rest@))
                && rest.is_ascii() && rest@.len() < i@.len() && forall|k: int|
                0 <= k < items@.len() ==> (#[trigger] items@[k]).wf(),
            None => array(i@) is None,
        },
    decreases i@.len(), 3nat,
{
    let n = text_len(i);
    if n == 0 || char_at(i, 0) != '[' {
        return None;
    }
    let mut items: Vec<JsonValue> = Vec::new();
    let mut cur = text_from(i, 1);
    let mut first = true;
    let mut done = false;
    assert(models_of(items@) =~= Seq::empty());
    while !done
        invariant
            i.is_ascii(),
            cur.is_ascii(),
            cur@.len() < i@.len(),
            items_from(i@.skip(1), Seq::empty(), true) == items_from(
                cur@,
                models_of(items@),
                first,
            ),
            done ==> items_from(cur@, models_of(items@), first) == (models_of(items@), cur@),
            forall|k: int| 0 <= k < items@.len() ==> (#[trigger] items@[k]).wf(),
        decreases cur@.len(), (if done { 0nat } else { 1nat }),
    {
        let next = if first {
            Some(cur)
        } else {
            symbol(cur, ',')
        };
        match next {
            Some(t) => {
                match parse_json_value(t) {
                    Some((rest, v)) => {
                        let ghost before = items@;
                        items.push(v);
                        assert(models_of(items@) =~= models_of(before).push(v@));
                        cur = rest;
                        first = false;
                    },
                    None => {
                        done = true;
                    },
                }
            },
            None => {
                done = true;
            },
        }
    }
    match symbol(cur, ']') {
        Some(rest) => Some((rest, items)),
        None => None,
    }
}

/// One member of an object: a key, a colon and a value, with blanks
/// allowed before each. Gives the text behind the value, the key and the
/// value.
pub fn parse_member<'a>(i: &'a str) -> (r: Option<(&'a str, String, JsonValue)>)
    requires
        i.is_ascii(),
    ensures
        match r {
            Some((rest, key, v)) => member(i@) == Some(((key@, v@), rest@)) && rest.is_ascii()
                && rest@.len() < i@.len() && alnum_text(key@) && v.wf(),
            None => member(i@) is None,
        },
    decreases i@.len(), 6nat,
{
    let (t, _) = split(i);
    proof {
        lemma_blank_end(i@, 0);
    }
    match parse_string(t) {
        Some((after_key, key)) => {
            match symbol(after_key, ':') {
                Some(after_colon) => {
                    match parse_json_value(after_colon) {
                        Some((rest, v)) => Some((rest, String::from_str(key), v)),
                        None => None,
                    }
                },
                None => None,
            }
        },
        None => None,
    }
}

/// The object rule: `{`, members with commas between them, `}`. Gives the
/// text behind the brace and the members, each key once: a key written
/// again replaces the value it had.
pub fn parse_json_map<'a>(i: &'a str) -> (r: Option<(&'a str, Vec<(String, JsonValue)>)>)
    requires
        i.is_ascii(),
    ensures
        match r {
            Some((rest, members)) => object(i@) == Some((members_map(pairs_of(members@)), rest@))
                && rest.is_ascii() && rest@.len() < i@.len() && members_wf(members@),
            None => object(i@) is None,
        },
    decreases i@.len(), 3nat,
{
    let n = text_len(i);
    if n == 0 || char_at(i, 0) != '{' {
        return None;
    }
    let mut members: Vec<(String, JsonValue)> = Vec::new();
    let mut cur = text_from(i, 1);
    let mut first = true;
    let mut done = false;
    assert(pairs_of(members@) =~= Seq::empty());
    while !done
        invariant
            i.is_ascii(),
            cur.is_ascii(),
            cur@.len() < i@.len(),
            members_from(i@.skip(1), Map::empty(), true) == members_from(
                cur@,
                members_map(pairs_of(members@)),
                first,
            ),
            done ==> members_from(cur@, members_map(pairs_of(members@)), first) == (
                members_map(pairs_of(members@)),
                cur@,
            ),
            members_wf(members@),
        decreases cur@.len(), (if done { 0nat } else { 1nat }),
    {
        let next = if first {
            Some(cur)
        } else {
            symbol(cur, ',')
        };
        match next {
            Some(t) => {
                match parse_member(t) {
                    Some((rest, key, v)) => {
                        insert_member(&mut members, key, v);
                        cur = rest;
                        first = false;
                    },
                    None => {
                        done = true;
                    },
                }
            },
            None => {
                done = true;
            },
        }
    }
    match symbol(cur, '}') {
        Some(rest) => Some((rest, members)),
        None => None,
    }
}

/// A root value between blanks: gives the text behind the trailing blanks
/// and the value.
pub fn parse_json_str<'a>(i: &'a str) -> (r: Option<(&'a str, JsonValue)>)
    requires
        i.is_ascii(),
    ensures
        match r {
            Some((rest, v)) => {
                &&& root(skip_blanks(i@)) matches Some((model, after))
                &&& model == v@
                &&& rest@ == skip_blanks(after)
                &&& rest.is_ascii()
                &&& v.wf()
                &&& v is Null || v is Array || v is Object
            },
            None => root(skip_blanks(i@)) is None,
        },
{
    let (t, _) = split(i);
    match parse_json_root(t) {
        Some((after, v)) => {
            let (rest, _) = split(after);
            Some((rest, v))
        },
        None => None,
    }
}

/// The error that a text which is no document is refused with: for a
/// character outside ASCII its encoding, whatever else the text holds;
/// else the position behind the leading blanks where no root value
/// begins, or the position behind the root value and the blanks after it
/// where the text goes on.
pub open spec fn failure(s: Seq<char>) -> JsonError {
    if !vstd::utf8::is_ascii_chars(s) {
        JsonError::Encoding
    } else {
        match root(skip_blanks(s)) {
            None => JsonError::Root { at: blank_end(s, 0) as usize },
            Some((_, after)) => JsonError::Trailing {
                at: (s.len() - skip_blanks(after).len()) as usize,
            },
        }
    }
}

impl JsonValue {
    /// Parses a document.
    ///
    /// A text with a character outside ASCII is refused for its encoding,
    /// whatever else it holds. An ASCII text is a document when it is a
    /// root value between blanks and nothing else; the tree of that value
    /// is returned. Any other text is refused with the position at which
    /// the root value or the end of the text was expected.
    pub fn parse(s: &str) -> (r: Result<JsonValue, JsonError>)
        ensures
            r is Ok <==> s.is_ascii() && document(s@) is Some,
            !s.is_ascii() ==> r matches Err(JsonError::Encoding),
            match r {
                Ok(v) => document(s@) == Some(v@) && v.wf() && (v is Null || v is Array
                    || v is Object),
                Err(error) => error == failure(s@),
            },
    {
        if !s.is_ascii() {
            return Err(JsonError::Encoding);
        }
        let n = text_len(s);
        proof {
            lemma_blank_end(s@, 0);
            lemma_root_consumes(skip_blanks(s@));
        }
        match parse_json_str(s) {
            Some((rest, v)) => {
                let left = text_len(rest);
                proof {
                    let found = root(skip_blanks(s@))->0;
                    lemma_blank_end(found.1, 0);
                }
                if left == 0 {
                    Ok(v)
                } else {
                    Err(JsonError::Trailing { at: n - left })
                }
            },
            None => {
                let (start, _) = split(s);
                Err(JsonError::Root { at: n - text_len(start) })
            },
        }
    }

    /// Parses a document, and describes a failure in words.
    pub fn from_str(s: &str) -> (r: Result<JsonValue, String>)
        ensures
            r is Ok <==> s.is_ascii() && document(s@) is Some,
            match r {
                Ok(v) => document(s@) == Some(v@) && v.wf() && (v is Null || v is Array
                    || v is Object),
                Err(text) => text@ == message_text(failure(s@)),
            },
    {
        match JsonValue::parse(s) {
            Ok(v) => Ok(v),
            Err(error) => Err(error.message()),
        }
    }
}

} // verus!
