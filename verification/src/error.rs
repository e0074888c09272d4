//! Why a text was refused, and how that is put in words.

use vstd::prelude::*;

verus! {

/// The ways in which a text fails to be a document.
#[derive(Debug, Clone, Copy, PartialEq, Eq, Structural)]
pub enum JsonError {
    /// The text holds a character outside ASCII.
    Encoding,
    /// No object, array or `null` begins at position `at`, the first
    /// position behind the leading blanks.
    Root { at: usize },
    /// A root value was read, and at position `at` behind it stands
    /// something that is no blank.
    Trailing { at: usize },
}

/// The character of a decimal digit.
pub open spec fn digit(d: nat) -> char {
    if d == 0 {
        '0'
    } else if d == 1 {
        '1'
    } else if d == 2 {
        '2'
    } else if d == 3 {
        '3'
    } else if d == 4 {
        '4'
    } else if d == 5 {
        '5'
    } else if d == 6 {
        '6'
    } else if d == 7 {
        '7'
    } else if d == 8 {
        '8'
    } else {
        '9'
    }
}

/// A number in decimal digits, without leading zeros.
pub open spec fn decimal(n: nat) -> Seq<char>
    decreases n,
{
    if n < 10 {
        seq![digit(n)]
    } else {
        decimal(n / 10).push(digit(n % 10))
    }
}

/// The description of an error: for a text that is not ASCII a fixed
/// sentence, else what is wrong and the position at which it is.
pub open spec fn message_text(error: JsonError) -> Seq<char> {
    match error {
        JsonError::Encoding =>
            "only support ASCII alphanumeric, does not support string contains Unicode"@,
        JsonError::Root { at } => "expected an object, an array or null at position "@ + decimal(
            at as nat,
        ),
        JsonError::Trailing { at } => "unexpected text after the root value at position "@
            + decimal(at as nat),
    }
}

/// One decimal digit as text.
pub fn digit_text(d: usize) -> (text: &'static str)
    requires
        d < 10,
    ensures
        text@ == seq![digit(d as nat)],
{
    proof {
        reveal_strlit("0");
        reveal_strlit("1");
        reveal_strlit("2");
        reveal_strlit("3");
        reveal_strlit("4");
        reveal_strlit("5");
        reveal_strlit("6");
        reveal_strlit("7");
        reveal_strlit("8");
        reveal_strlit("9");
    }
    let text = if d == 0 {
        "0"
    } else if d == 1 {
        "1"
    } else if d == 2 {
        "2"
    } else if d == 3 {
        "3"
    } else if d == 4 {
        "4"
    } else if d == 5 {
        "5"
    } else if d == 6 {
        "6"
    } else if d == 7 {
        "7"
    } else if d == 8 {
        "8"
    } else {
        "9"
    };
    assert(text@ =~= seq![digit(d as nat)]);
    text
}

/// A number written in decimal digits.
pub fn decimal_text(n: usize) -> (text: String)
    ensures
        text@ == decimal(n as nat),
    decreases n,
{
    if n < 10 {
        String::from_str(digit_text(n))
    } else {
        let front = decimal_text(n / 10);
        let text = front.concat(digit_text(n % 10));
        assert(text@ =~= decimal(n as nat));
        text
    }
}

impl JsonError {
    /// A description for people to read.
    pub fn message(&self) -> (text: String)
        ensures
            text@ == message_text(*self),
    {
        match self {
            JsonError::Encoding => String::from_str(
                "only support ASCII alphanumeric, does not support string contains Unicode",
            ),
            JsonError::Root { at } => {
                let number = decimal_text(*at);
                String::from_str("expected an object, an array or null at position ").concat(
                    number.as_str(),
                )
            },
            JsonError::Trailing { at } => {
                let number = decimal_text(*at);
                String::from_str("unexpected text after the root value at position ").concat(
                    number.as_str(),
                )
            },
        }
    }
}

} // verus!
