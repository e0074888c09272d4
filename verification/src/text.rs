//! Access to ASCII text by position.

use vstd::prelude::*;

verus! {

/// The number of characters of an ASCII text.
pub fn text_len(i: &str) -> (n: usize)
    requires
        i.is_ascii(),
    ensures
        n == i@.len(),
{
    proof {
        vstd::string::is_ascii_spec_bytes(i);
    }
    i.as_bytes().len()
}

/// The character at position `k` of an ASCII text.
pub fn char_at(i: &str, k: usize) -> (c: char)
    requires
        i.is_ascii(),
        k < i@.len(),
    ensures
        c == i@[k as int],
{
    let b = i.get_ascii(k);
    assert(i@[k as int] <= '\u{7f}');
    b as char
}

/// The text from position `k` on.
pub fn text_from<'a>(i: &'a str, k: usize) -> (rest: &'a str)
    requires
        i.is_ascii(),
        k <= i@.len(),
    ensures
        rest@ == i@.skip(k as int),
        rest.is_ascii(),
        rest@.len() == i@.len() - k,
{
    let n = text_len(i);
    i.substring_ascii(k, n)
}

} // verus!
