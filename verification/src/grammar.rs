//! The grammar of format strings, as functions on a sequence of characters.
//!
//! A format string is read from left to right as a row of items. An item is
//! either a token (a character that stands for itself, or a directive that
//! starts with `%`) or a whole conditional: the opening `%?k?`, a first
//! branch, an optional `&` with a second branch, and the closing `?`.
//! Nothing here looks at registered values: how long an item is depends on
//! the characters alone.

use vstd::prelude::*;

verus! {

/// What a scan is reading: the format string itself, the first branch of a
/// conditional, or its second branch.
#[derive(Clone, Copy, Debug, PartialEq, Eq)]
pub enum Mode {
    Top,
    Then,
    Else,
}

/// One token of a format string.
#[derive(Clone, Copy, Debug, PartialEq, Eq)]
pub enum Token {
    /// A character that stands for itself. A `%` that ends the string is one.
    Literal { c: char },
    /// `%%`, which writes one `%`.
    Percent,
    /// `%`, an optional `-`, optional digits, and the key `key`, which is no
    /// `%`: the value of `key` in a field of at least `width` characters, at
    /// the left of the field if `left`, else at its right.
    Field { key: char, width: u32, left: bool },
    /// `%?k?`, which opens a conditional on the key `key`.
    Open { key: char },
    /// A `%` that starts no directive, and the character `c` after it: both
    /// stand for themselves.
    Raw { c: char },
}

/// Whether `c` ends a branch that is read in `mode`: `?` ends either branch,
/// `&` the first only, and nothing ends the format string but its end.
pub open spec fn stops(mode: Mode, c: char) -> bool {
    match mode {
        Mode::Top => false,
        Mode::Then => c == '?' || c == '&',
        Mode::Else => c == '?',
    }
}

/// Whether `c` is one of the ten ASCII decimal digits.
pub open spec fn is_digit(c: char) -> bool {
    '0' <= c && c <= '9'
}

/// The number from 0 to 9 that the digit `c` stands for.
pub open spec fn digit_value(c: char) -> nat
    recommends
        is_digit(c),
{
    (c as int - '0' as int) as nat
}

/// How many digits stand in a row in `t` from position `j` on.
pub open spec fn digit_run(t: Seq<char>, j: int) -> nat
    decreases t.len() - j,
{
    if 0 <= j < t.len() && is_digit(t[j]) {
        1 + digit_run(t, j + 1)
    } else {
        0
    }
}

/// The number that the digits `t[from..to)` write in base ten; 0 where the
/// range is empty.
pub open spec fn decimal(t: Seq<char>, from: int, to: int) -> nat
    decreases to - from,
{
    if from >= to {
        0
    } else {
        decimal(t, from, to - 1) * 10 + digit_value(t[to - 1])
    }
}

/// 1 if a `-` follows the `%` at `i`, else 0.
pub open spec fn sign_len(t: Seq<char>, i: int) -> nat {
    if i + 1 < t.len() && t[i + 1] == '-' {
        1
    } else {
        0
    }
}

/// The position of the first digit that the width of the `%` at `i` could
/// have.
pub open spec fn digits_start(t: Seq<char>, i: int) -> int {
    i + 1 + sign_len(t, i)
}

/// How many characters the sign and the digits after the `%` at `i` take.
pub open spec fn width_len(t: Seq<char>, i: int) -> nat {
    sign_len(t, i) + digit_run(t, digits_start(t, i))
}

/// The width that the digits after the `%` at `i` ask for: the number they
/// write, or `u32::MAX` where that number is larger; 0 without digits.
pub open spec fn field_width(t: Seq<char>, i: int) -> nat {
    let from = digits_start(t, i);
    let n = decimal(t, from, from + digit_run(t, from));
    if n > u32::MAX {
        u32::MAX as nat
    } else {
        n
    }
}

/// The token that starts at position `i` of `t`.
///
/// After a `%`: a second `%` makes the pair one percent sign; a `?` opens a
/// conditional if the character after the next is a `?` too; otherwise a
/// `-` and digits are read as far as they go, and the character after them
/// is the key of a field, whatever it is, unless it is a `%`, which always
/// starts a token of its own. Where no key is found, and after a `?` that
/// opens nothing, the `%` and the character behind it stand for themselves.
pub open spec fn token_at(t: Seq<char>, i: int) -> Token
    recommends
        0 <= i < t.len(),
{
    if t[i] != '%' || i + 1 >= t.len() {
        Token::Literal { c: t[i] }
    } else if t[i + 1] == '%' {
        Token::Percent
    } else if t[i + 1] == '?' {
        if i + 3 < t.len() && t[i + 3] == '?' {
            Token::Open { key: t[i + 2] }
        } else {
            Token::Raw { c: '?' }
        }
    } else {
        let k = i + 1 + width_len(t, i);
        if k < t.len() && t[k] != '%' {
            Token::Field { key: t[k], width: field_width(t, i) as u32, left: sign_len(t, i) == 1 }
        } else {
            Token::Raw { c: t[i + 1] }
        }
    }
}

/// How many characters the token at position `i` of `t` takes: at least one.
pub open spec fn token_len(t: Seq<char>, i: int) -> nat
    recommends
        0 <= i < t.len(),
{
    match token_at(t, i) {
        Token::Literal { .. } => 1,
        Token::Percent => 2,
        Token::Field { .. } => 2 + width_len(t, i),
        Token::Open { .. } => 4,
        Token::Raw { .. } => 2,
    }
}

/// How many characters the branch that starts at `i` takes when read in
/// `mode`: those before the first character that ends it and belongs to no
/// item of the branch, or all that are left.
pub open spec fn branch_len(t: Seq<char>, i: int, mode: Mode) -> nat
    decreases t.len() - i, 0nat,
{
    if i < 0 || i >= t.len() || stops(mode, t[i]) {
        0
    } else {
        let n = if token_at(t, i) is Open {
            4 + body_len(t, i + 4)
        } else {
            token_len(t, i)
        };
        if i + n >= t.len() {
            n
        } else {
            n + branch_len(t, i + n, mode)
        }
    }
}

/// How many characters a conditional takes behind its opening, where `j` is
/// the position after the opening: the first branch, the `&` and the second
/// branch if there is one, and the closing `?` unless the string ends
/// before it.
pub open spec fn body_len(t: Seq<char>, j: int) -> nat
    decreases t.len() - j, 1nat,
{
    let a = branch_len(t, j, Mode::Then);
    if j + a < t.len() && t[j + a] == '&' {
        let b = branch_len(t, j + a + 1, Mode::Else);
        a + 1 + b + closer_len(t, j + a + 1 + b)
    } else {
        a + closer_len(t, j + a)
    }
}

/// 1 if position `e`, at which a conditional's last branch ends, holds a
/// character (the closing `?`), and 0 if the string ends there.
pub open spec fn closer_len(t: Seq<char>, e: int) -> nat {
    if e < t.len() {
        1
    } else {
        0
    }
}

/// How many characters the item at position `i` of `t` takes: a whole
/// conditional from its opening to its closing `?`, or one token.
pub open spec fn item_len(t: Seq<char>, i: int) -> nat
    recommends
        0 <= i < t.len(),
{
    if token_at(t, i) is Open {
        4 + body_len(t, i + 4)
    } else {
        token_len(t, i)
    }
}

/// Whether the items of the format string `t`, read one after another from
/// position `i` on, come to stand at position `p`: an item starts there, or
/// the string ends there.
pub open spec fn item_boundary(t: Seq<char>, i: int, p: int) -> bool
    decreases p - i,
{
    if i >= p {
        i == p
    } else if i < 0 || i >= t.len() || i + item_len(t, i) > p {
        false
    } else {
        item_boundary(t, i + item_len(t, i), p)
    }
}

/// The position at which the first branch of a conditional ends, where `j`
/// is the position after the opening.
pub open spec fn then_end(t: Seq<char>, j: int) -> int {
    j + branch_len(t, j, Mode::Then)
}

/// Whether the first branch that starts at `j` ends in a `&`, so that a
/// second branch follows.
pub open spec fn has_else(t: Seq<char>, j: int) -> bool {
    then_end(t, j) < t.len() && t[then_end(t, j)] == '&'
}

} // verus!
