//! What holds of the grammar on every text.

use crate::grammar::{
    after_next, alnum_end, blank_end, boolean, document, is_alnum, is_blank, items_from,
    member, members_from, next_is, quoted, root, skip_blanks, value,
};
use crate::number::number;
use crate::value::{alnum_text, JsonModel};
use vstd::prelude::*;

verus! {

/// From `k` on, the run of blanks ends inside the text, holds blanks only,
/// and stops at the end of the text or before a character that is no blank.
pub proof fn lemma_blank_end(s: Seq<char>, k: int)
    requires
        0 <= k <= s.len(),
    ensures
        k <= blank_end(s, k) <= s.len(),
        forall|j: int| k <= j < blank_end(s, k) ==> is_blank(#[trigger] s[j]),
        blank_end(s, k) == s.len() || !is_blank(s[blank_end(s, k)]),
    decreases s.len() - k,
{
    if k < s.len() && is_blank(s[k]) {
        lemma_blank_end(s, k + 1);
    }
}

/// From `k` on, the run of letters and digits ends inside the text, holds
/// letters and digits only, and stops at the end of the text or before a
/// character that is neither.
pub proof fn lemma_alnum_end(s: Seq<char>, k: int)
    requires
        0 <= k <= s.len(),
    ensures
        k <= alnum_end(s, k) <= s.len(),
        forall|j: int| k <= j < alnum_end(s, k) ==> is_alnum(#[trigger] s[j]),
        alnum_end(s, k) == s.len() || !is_alnum(s[alnum_end(s, k)]),
    decreases s.len() - k,
{
    if k < s.len() && is_alnum(s[k]) {
        lemma_alnum_end(s, k + 1);
    }
}

/// The run of letters and digits from `k` ends at `end` when everything
/// before `end` is a letter or digit and `end` is the end of the text or
/// holds another character.
pub proof fn lemma_alnum_end_is(s: Seq<char>, k: int, end: int)
    requires
        0 <= k <= end <= s.len(),
        forall|j: int| k <= j < end ==> is_alnum(#[trigger] s[j]),
        end == s.len() || !is_alnum(s[end]),
    ensures
        alnum_end(s, k) == end,
    decreases end - k,
{
    if k < end {
        lemma_alnum_end_is(s, k + 1, end);
    }
}

/// The string rule reads exactly the texts that are a quote, one or more
/// letters and digits, and a quote; it gives what stands between the
/// quotes and what follows them.
pub proof fn lemma_quoted_reads(s: Seq<char>, text: Seq<char>, rest: Seq<char>)
    ensures
        quoted(s) == Some((text, rest)) <==> alnum_text(text) && s == seq!['"'] + text + seq![
            '"',
        ] + rest,
{
    let whole = seq!['"'] + text + seq!['"'] + rest;
    if quoted(s) == Some((text, rest)) {
        lemma_alnum_end(s, 1);
        assert(s =~= whole);
    }
    if alnum_text(text) && s == whole {
        let end = (text.len() + 1) as int;
        assert forall|j: int| 1 <= j < end implies is_alnum(#[trigger] s[j]) by {
            assert(s[j] == text[j - 1]);
        }
        assert(s[end] == '"');
        lemma_alnum_end_is(s, 1, end);
        assert(s.subrange(1, end) =~= text);
        assert(s.skip(end + 1) =~= rest);
    }
}

/// A quoted text that holds, before its closing quote, a character that is
/// neither letter nor digit is no string.
pub proof fn lemma_quoted_refuses_other_characters(s: Seq<char>, k: int)
    requires
        1 <= k < s.len(),
        !is_alnum(s[k]),
        forall|j: int| 1 <= j <= k ==> s[j] != '"',
    ensures
        quoted(s) is None,
{
    lemma_alnum_end(s, 1);
}

/// A text without letters or digits between its quotes is no string.
pub proof fn lemma_quoted_refuses_empty(s: Seq<char>)
    requires
        s.len() >= 2,
        s[1] == '"',
    ensures
        quoted(s) is None,
{
}

/// Where a character follows the leading blanks, the text behind it is
/// shorter than the whole.
pub proof fn lemma_after_next_is_shorter(s: Seq<char>, c: char)
    requires
        next_is(s, c),
    ensures
        after_next(s).len() < s.len(),
{
    lemma_blank_end(s, 0);
}

/// A list of values leaves no more text than it was given.
pub proof fn lemma_items_from_leaves(s: Seq<char>, acc: Seq<JsonModel>, first: bool)
    ensures
        items_from(s, acc, first).1.len() <= s.len(),
        items_from(s, acc, first).0.len() >= acc.len(),
    decreases s.len(),
{
    if first || next_is(s, ',') {
        let t = if first {
            s
        } else {
            after_next(s)
        };
        if t.len() <= s.len() {
            match value(t) {
                Some((v, rest)) => {
                    if rest.len() < s.len() {
                        lemma_items_from_leaves(rest, acc.push(v), false);
                    }
                },
                None => {},
            }
        }
    }
}

/// A list of members leaves no more text than it was given.
pub proof fn lemma_members_from_leaves(
    s: Seq<char>,
    acc: Map<Seq<char>, JsonModel>,
    first: bool,
)
    ensures
        members_from(s, acc, first).1.len() <= s.len(),
    decreases s.len(),
{
    if first || next_is(s, ',') {
        let t = if first {
            s
        } else {
            after_next(s)
        };
        if t.len() <= s.len() {
            match member(t) {
                Some(((key, v), rest)) => {
                    if rest.len() < s.len() {
                        lemma_members_from_leaves(rest, acc.insert(key, v), false);
                    }
                },
                None => {},
            }
        }
    }
}

/// The root rule reads at least one character.
pub proof fn lemma_root_consumes(s: Seq<char>)
    ensures
        root(s) matches Some((_, rest)) ==> rest.len() < s.len(),
{
    if s.len() > 0 && s[0] == '{' {
        lemma_members_from_leaves(s.skip(1), Map::empty(), true);
        let rest = members_from(s.skip(1), Map::empty(), true).1;
        if next_is(rest, '}') {
            lemma_after_next_is_shorter(rest, '}');
        }
    }
    if s.len() > 0 && s[0] == '[' {
        lemma_items_from_leaves(s.skip(1), Seq::empty(), true);
        let rest = items_from(s.skip(1), Seq::empty(), true).1;
        if next_is(rest, ']') {
            lemma_after_next_is_shorter(rest, ']');
        }
    }
}

/// The value rule reads at least one character: the length tests in the
/// list rules, which bound their recursion, hold of every text.
pub proof fn lemma_value_consumes(s: Seq<char>)
    ensures
        skip_blanks(s).len() <= s.len(),
        value(s) matches Some((_, rest)) ==> rest.len() < s.len(),
{
    lemma_blank_end(s, 0);
    let t = skip_blanks(s);
    lemma_root_consumes(t);
    if t.len() > 0 {
        lemma_alnum_end(t, 1);
    }
}

/// A member reads at least one character.
pub proof fn lemma_member_consumes(s: Seq<char>)
    ensures
        member(s) matches Some((_, rest)) ==> rest.len() < s.len(),
{
    lemma_blank_end(s, 0);
    let t = skip_blanks(s);
    if t.len() > 0 {
        lemma_alnum_end(t, 1);
    }
    match quoted(t) {
        Some((key, after_key)) => {
            if next_is(after_key, ':') {
                lemma_after_next_is_shorter(after_key, ':');
                lemma_value_consumes(after_next(after_key));
            }
        },
        None => {},
    }
}

/// The value rule without its length test: after the leading blanks, the
/// first of root value, boolean, number and string that matches.
pub proof fn lemma_value_alternatives(s: Seq<char>)
    ensures
        value(s) == ({
            let t = skip_blanks(s);
            if let Some(found) = root(t) {
                Some(found)
            } else if let Some((b, rest)) = boolean(t) {
                Some((JsonModel::Boolean(b), rest))
            } else if let Some((bits, rest)) = number(t) {
                Some((JsonModel::Number(bits), rest))
            } else if let Some((text, rest)) = quoted(t) {
                Some((JsonModel::String(text), rest))
            } else {
                None
            }
        }),
{
    lemma_blank_end(s, 0);
}

/// The list of values without its length tests: the first value stands at
/// the start, every further one behind a comma; the list ends where no
/// comma follows or no value follows the comma, and that comma stays
/// unread.
pub proof fn lemma_items_from_step(s: Seq<char>, acc: Seq<JsonModel>, first: bool)
    ensures
        items_from(s, acc, first) == (if first || next_is(s, ',') {
            match value(
                if first {
                    s
                } else {
                    after_next(s)
                },
            ) {
                Some((v, rest)) => items_from(rest, acc.push(v), false),
                None => (acc, s),
            }
        } else {
            (acc, s)
        }),
{
    if first {
        lemma_value_consumes(s);
    } else if next_is(s, ',') {
        lemma_after_next_is_shorter(s, ',');
        lemma_value_consumes(after_next(s));
    }
}

/// The member rule without its length test: a key, a colon and a value,
/// with blanks allowed before each.
pub proof fn lemma_member_parts(s: Seq<char>)
    ensures
        member(s) == (match quoted(skip_blanks(s)) {
            Some((key, after_key)) => if next_is(after_key, ':') {
                match value(after_next(after_key)) {
                    Some((v, rest)) => Some(((key, v), rest)),
                    None => None,
                }
            } else {
                None
            },
            None => None,
        }),
{
    lemma_blank_end(s, 0);
    let t = skip_blanks(s);
    if t.len() > 0 {
        lemma_alnum_end(t, 1);
    }
    match quoted(t) {
        Some((key, after_key)) => {
            if next_is(after_key, ':') {
                lemma_after_next_is_shorter(after_key, ':');
            }
        },
        None => {},
    }
}

/// The list of members without its length tests: as the list of values,
/// with each member written into the mapping in turn, so that a key
/// written again gets the later value.
pub proof fn lemma_members_from_step(s: Seq<char>, acc: Map<Seq<char>, JsonModel>, first: bool)
    ensures
        members_from(s, acc, first) == (if first || next_is(s, ',') {
            match member(
                if first {
                    s
                } else {
                    after_next(s)
                },
            ) {
                Some(((key, v), rest)) => members_from(rest, acc.insert(key, v), false),
                None => (acc, s),
            }
        } else {
            (acc, s)
        }),
{
    if first {
        lemma_member_consumes(s);
    } else if next_is(s, ',') {
        lemma_after_next_is_shorter(s, ',');
        lemma_member_consumes(after_next(s));
    }
}

/// Behind a text `b`, the run of blanks in `s` ends where it ends in `s`
/// alone.
pub proof fn lemma_blank_end_behind(b: Seq<char>, s: Seq<char>, k: int)
    requires
        0 <= k <= s.len(),
    ensures
        blank_end(b + s, b.len() + k) == b.len() + blank_end(s, k),
    decreases s.len() - k,
{
    if k < s.len() {
        assert((b + s)[b.len() + k] == s[k]);
        if is_blank(s[k]) {
            lemma_blank_end_behind(b, s, k + 1);
        }
    }
}

/// Blanks before a text are skipped with the blanks that begin it.
pub proof fn lemma_blank_end_through(b: Seq<char>, s: Seq<char>, k: int)
    requires
        forall|j: int| 0 <= j < b.len() ==> is_blank(#[trigger] b[j]),
        0 <= k <= b.len(),
    ensures
        blank_end(b + s, k) == b.len() + blank_end(s, 0),
    decreases b.len() - k,
{
    if k < b.len() {
        assert((b + s)[k] == b[k]);
        lemma_blank_end_through(b, s, k + 1);
    } else {
        lemma_blank_end_behind(b, s, 0);
    }
}

/// Blanks before a text change neither the value read from it nor
/// whether it is a document, nor which.
pub proof fn lemma_leading_blanks(b: Seq<char>, s: Seq<char>)
    requires
        forall|j: int| 0 <= j < b.len() ==> is_blank(#[trigger] b[j]),
    ensures
        skip_blanks(b + s) == skip_blanks(s),
        value(b + s) == value(s),
        document(b + s) == document(s),
{
    lemma_blank_end_through(b, s, 0);
    lemma_blank_end(s, 0);
    assert(skip_blanks(b + s) =~= skip_blanks(s));
    lemma_value_alternatives(b + s);
    lemma_value_alternatives(s);
}

/// `rest` is what is left of `s` when some of its characters have been
/// read from the front.
pub open spec fn is_tail_of(rest: Seq<char>, s: Seq<char>) -> bool {
    rest.len() <= s.len() && rest == s.skip(s.len() - rest.len())
}

/// What follows any position of a text is a tail of it.
pub proof fn lemma_skip_is_tail(s: Seq<char>, k: int)
    requires
        0 <= k <= s.len(),
    ensures
        is_tail_of(s.skip(k), s),
{
    assert(s.skip(k) =~= s.skip(s.len() - s.skip(k).len()));
}

/// A tail of a tail is a tail.
pub proof fn lemma_tail_of_tail(a: Seq<char>, b: Seq<char>, c: Seq<char>)
    requires
        is_tail_of(a, b),
        is_tail_of(b, c),
    ensures
        is_tail_of(a, c),
{
    assert(a =~= c.skip(c.len() - a.len()));
}

/// What stands behind the leading blanks, and behind the character after
/// them, is a tail of the text.
pub proof fn lemma_blanks_leave_tail(s: Seq<char>)
    ensures
        is_tail_of(skip_blanks(s), s),
        skip_blanks(s).len() > 0 ==> is_tail_of(after_next(s), s),
{
    lemma_blank_end(s, 0);
    lemma_skip_is_tail(s, blank_end(s, 0));
    if skip_blanks(s).len() > 0 {
        lemma_skip_is_tail(skip_blanks(s), 1);
        lemma_tail_of_tail(after_next(s), skip_blanks(s), s);
    }
}

/// The boolean, number and string rules leave a tail of their text.
pub proof fn lemma_atoms_leave_tail(s: Seq<char>)
    ensures
        boolean(s) matches Some((_, rest)) ==> is_tail_of(rest, s),
        number(s) matches Some((_, rest)) ==> is_tail_of(rest, s),
        quoted(s) matches Some((_, rest)) ==> is_tail_of(rest, s),
{
    if let Some((b, rest)) = boolean(s) {
        lemma_skip_is_tail(
            s,
            if b {
                4
            } else {
                5
            },
        );
    }
    if let Some((_, rest)) = number(s) {
        lemma_skip_is_tail(s, s.len() - rest.len());
    }
    if quoted(s) is Some {
        lemma_alnum_end(s, 1);
        lemma_skip_is_tail(s, alnum_end(s, 1) + 1);
    }
}

/// The value rule reads from the front: what it leaves is a tail of its
/// text.
pub proof fn lemma_value_leaves_tail(s: Seq<char>)
    ensures
        value(s) matches Some((_, rest)) ==> is_tail_of(rest, s),
    decreases s.len(), 5nat,
{
    let t = skip_blanks(s);
    lemma_blanks_leave_tail(s);
    lemma_root_leaves_tail(t);
    lemma_atoms_leave_tail(t);
    if let Some((_, rest)) = value(s) {
        lemma_tail_of_tail(rest, t, s);
    }
}

/// The root rule reads from the front.
pub proof fn lemma_root_leaves_tail(s: Seq<char>)
    ensures
        root(s) matches Some((_, rest)) ==> is_tail_of(rest, s),
    decreases s.len(), 4nat,
{
    if s.len() > 0 && s[0] == '{' {
        let inside = s.skip(1);
        lemma_skip_is_tail(s, 1);
        lemma_members_from_leave_tail(inside, Map::empty(), true);
        let rest = members_from(inside, Map::empty(), true).1;
        lemma_tail_of_tail(rest, inside, s);
        if next_is(rest, '}') {
            lemma_blanks_leave_tail(rest);
            lemma_tail_of_tail(after_next(rest), rest, s);
        }
    } else if s.len() > 0 && s[0] == '[' {
        let inside = s.skip(1);
        lemma_skip_is_tail(s, 1);
        lemma_items_from_leave_tail(inside, Seq::empty(), true);
        let rest = items_from(inside, Seq::empty(), true).1;
        lemma_tail_of_tail(rest, inside, s);
        if next_is(rest, ']') {
            lemma_blanks_leave_tail(rest);
            lemma_tail_of_tail(after_next(rest), rest, s);
        }
    } else if s.len() >= 4 {
        lemma_skip_is_tail(s, 4);
    }
}

/// A list of values reads from the front.
pub proof fn lemma_items_from_leave_tail(s: Seq<char>, acc: Seq<JsonModel>, first: bool)
    ensures
        is_tail_of(items_from(s, acc, first).1, s),
    decreases s.len(), 6nat,
{
    lemma_skip_is_tail(s, 0);
    assert(s.skip(0) =~= s);
    if first || next_is(s, ',') {
        let t = if first {
            s
        } else {
            after_next(s)
        };
        lemma_blanks_leave_tail(s);
        if t.len() <= s.len() {
            lemma_value_leaves_tail(t);
            if let Some((v, rest)) = value(t) {
                if rest.len() < s.len() {
                    lemma_items_from_leave_tail(rest, acc.push(v), false);
                    lemma_tail_of_tail(rest, t, s);
                    lemma_tail_of_tail(items_from(rest, acc.push(v), false).1, rest, s);
                }
            }
        }
    }
}

/// A member reads from the front.
pub proof fn lemma_member_leaves_tail(s: Seq<char>)
    ensures
        member(s) matches Some((_, rest)) ==> is_tail_of(rest, s),
    decreases s.len(), 6nat,
{
    let t = skip_blanks(s);
    lemma_blanks_leave_tail(s);
    lemma_atoms_leave_tail(t);
    if let Some((key, after_key)) = quoted(t) {
        lemma_tail_of_tail(after_key, t, s);
        if next_is(after_key, ':') && after_next(after_key).len() < s.len() {
            let behind = after_next(after_key);
            lemma_blanks_leave_tail(after_key);
            lemma_tail_of_tail(behind, after_key, s);
            lemma_value_leaves_tail(behind);
            if let Some((_, rest)) = value(behind) {
                lemma_tail_of_tail(rest, behind, s);
            }
        }
    }
}

/// A list of members reads from the front.
pub proof fn lemma_members_from_leave_tail(
    s: Seq<char>,
    acc: Map<Seq<char>, JsonModel>,
    first: bool,
)
    ensures
        is_tail_of(members_from(s, acc, first).1, s),
    decreases s.len(), 7nat,
{
    lemma_skip_is_tail(s, 0);
    assert(s.skip(0) =~= s);
    if first || next_is(s, ',') {
        let t = if first {
            s
        } else {
            after_next(s)
        };
        lemma_blanks_leave_tail(s);
        if t.len() <= s.len() {
            lemma_member_leaves_tail(t);
            if let Some(((key, v), rest)) = member(t) {
                if rest.len() < s.len() {
                    lemma_members_from_leave_tail(rest, acc.insert(key, v), false);
                    lemma_tail_of_tail(rest, t, s);
                    lemma_tail_of_tail(members_from(rest, acc.insert(key, v), false).1, rest, s);
                }
            }
        }
    }
}

/// Every string and every key in the value is one or more ASCII letters
/// and digits.
pub open spec fn plain_texts(v: JsonModel) -> bool
    decreases v,
{
    match v {
        JsonModel::String(text) => alnum_text(text),
        JsonModel::Array(items) => forall|k: int|
            0 <= k < items.len() ==> plain_texts(#[trigger] items[k]),
        JsonModel::Object(members) => forall|key: Seq<char>| #[trigger]
            members.contains_key(key) ==> alnum_text(key) && plain_texts(members[key]),
        _ => true,
    }
}

/// The value rule reads letters and digits only as strings and keys.
pub proof fn lemma_value_plain_texts(s: Seq<char>)
    ensures
        value(s) matches Some((v, _)) ==> plain_texts(v),
    decreases s.len(), 5nat,
{
    let t = skip_blanks(s);
    if t.len() <= s.len() {
        lemma_root_plain_texts(t);
        if t.len() > 0 {
            lemma_alnum_end(t, 1);
        }
    }
}

/// The root rule reads letters and digits only as strings and keys.
pub proof fn lemma_root_plain_texts(s: Seq<char>)
    ensures
        root(s) matches Some((v, _)) ==> plain_texts(v),
    decreases s.len(), 4nat,
{
    if s.len() > 0 && s[0] == '{' {
        let none = Map::<Seq<char>, JsonModel>::empty();
        assert(JsonModel::Object(none)->Object_0 == none);
        lemma_members_from_plain_texts(s.skip(1), none, true);
    } else if s.len() > 0 && s[0] == '[' {
        let none = Seq::<JsonModel>::empty();
        assert(JsonModel::Array(none)->Array_0 == none);
        lemma_items_from_plain_texts(s.skip(1), none, true);
    }
}

/// A list of values adds to such values only values of that kind.
pub proof fn lemma_items_from_plain_texts(s: Seq<char>, acc: Seq<JsonModel>, first: bool)
    requires
        plain_texts(JsonModel::Array(acc)),
    ensures
        plain_texts(JsonModel::Array(items_from(s, acc, first).0)),
    decreases s.len(), 6nat,
{
    assert(JsonModel::Array(acc)->Array_0 == acc);
    if first || next_is(s, ',') {
        let t = if first {
            s
        } else {
            after_next(s)
        };
        if t.len() <= s.len() {
            lemma_value_plain_texts(t);
            if let Some((v, rest)) = value(t) {
                if rest.len() < s.len() {
                    let more = acc.push(v);
                    assert forall|k: int| 0 <= k < more.len() implies plain_texts(
                        #[trigger] more[k],
                    ) by {
                        if k < acc.len() {
                            assert(more[k] == acc[k]);
                        }
                    }
                    assert(JsonModel::Array(more)->Array_0 == more);
                    lemma_items_from_plain_texts(rest, acc.push(v), false);
                }
            }
        }
    }
}

/// A member has a key of letters and digits and a value with such texts.
pub proof fn lemma_member_plain_texts(s: Seq<char>)
    ensures
        member(s) matches Some(((key, v), _)) ==> alnum_text(key) && plain_texts(v),
    decreases s.len(), 6nat,
{
    let t = skip_blanks(s);
    if t.len() > 0 {
        lemma_alnum_end(t, 1);
    }
    if let Some((key, after_key)) = quoted(t) {
        if next_is(after_key, ':') && after_next(after_key).len() < s.len() {
            lemma_value_plain_texts(after_next(after_key));
        }
    }
}

/// A list of members writes into such a mapping only members of that
/// kind.
pub proof fn lemma_members_from_plain_texts(
    s: Seq<char>,
    acc: Map<Seq<char>, JsonModel>,
    first: bool,
)
    requires
        plain_texts(JsonModel::Object(acc)),
    ensures
        plain_texts(JsonModel::Object(members_from(s, acc, first).0)),
    decreases s.len(), 7nat,
{
    assert(JsonModel::Object(acc)->Object_0 == acc);
    if first || next_is(s, ',') {
        let t = if first {
            s
        } else {
            after_next(s)
        };
        if t.len() <= s.len() {
            lemma_member_plain_texts(t);
            if let Some(((key, v), rest)) = member(t) {
                if rest.len() < s.len() {
                    let more = acc.insert(key, v);
                    assert forall|k: Seq<char>| #[trigger] more.contains_key(k) implies alnum_text(
                        k,
                    ) && plain_texts(more[k]) by {
                        if k != key {
                            assert(acc.contains_key(k));
                        }
                    }
                    assert(JsonModel::Object(more)->Object_0 == more);
                    lemma_members_from_plain_texts(rest, acc.insert(key, v), false);
                }
            }
        }
    }
}

/// No document holds a string or a key with a character that is neither
/// letter nor digit, or an empty one.
pub proof fn lemma_document_plain_texts(s: Seq<char>)
    ensures
        document(s) matches Some(v) ==> plain_texts(v),
{
    lemma_root_plain_texts(skip_blanks(s));
}

/// The root of a document is an object, an array or `null`: no boolean,
/// number or string is a document by itself.
pub proof fn lemma_document_root(s: Seq<char>)
    ensures
        document(s) matches Some(v) ==> v is Null || v is Array || v is Object,
{
}

/// A text that begins, after blanks, with a boolean or a string is no
/// document; nor is one that begins with a number, unless the number
/// begins as a root value does.
pub proof fn lemma_bare_atom_is_no_document(s: Seq<char>)
    requires
        ({
            let t = skip_blanks(s);
            boolean(t) is Some || quoted(t) is Some || (number(t) is Some && t.len() > 0 && t[0]
                != '{' && t[0] != '[' && t[0] != 'n')
        }),
    ensures
        document(s) is None,
{
}

} // verus!
