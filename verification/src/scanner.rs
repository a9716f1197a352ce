//! Reading the tokens of a format string.

use crate::grammar::{
    decimal, digit_run, digit_value, is_digit, stops, token_at, token_len, Mode, Token,
};
use vstd::prelude::*;

verus! {

/// Tells whether `c` is an ASCII decimal digit.
pub fn is_digit_char(c: char) -> (r: bool)
    ensures
        r == is_digit(c),
{
    '0' <= c && c <= '9'
}

/// Tells whether `c` ends a branch that is read in `mode`.
pub fn stops_at(mode: Mode, c: char) -> (r: bool)
    ensures
        r == stops(mode, c),
{
    match mode {
        Mode::Top => false,
        Mode::Then => c == '?' || c == '&',
        Mode::Else => c == '?',
    }
}

/// Reads the digits of `t` from position `from` on and returns the position
/// behind the last of them, with the number they write; a number over
/// `u32::MAX` is returned as `u32::MAX`.
pub fn read_width(t: &[char], from: usize) -> (r: (usize, u32))
    requires
        from <= t.len(),
    ensures
        r.0 == from + digit_run(t@, from as int),
        r.0 <= t.len(),
        r.1 as nat == if decimal(t@, from as int, r.0 as int) > u32::MAX {
            u32::MAX as nat
        } else {
            decimal(t@, from as int, r.0 as int)
        },
{
    let mut j: usize = from;
    let mut width: u64 = 0;
    while j < t.len() && is_digit_char(t[j])
        invariant
            from <= j <= t.len(),
            from + digit_run(t@, from as int) == j + digit_run(t@, j as int),
            width <= u32::MAX,
            width as nat == if decimal(t@, from as int, j as int) > u32::MAX {
                u32::MAX as nat
            } else {
                decimal(t@, from as int, j as int)
            },
        decreases t.len() - j,
    {
        let d: u64 = (t[j] as u32 - '0' as u32) as u64;
        assert(d == digit_value(t@[j as int]));
        width = width * 10 + d;
        if width > u32::MAX as u64 {
            width = u32::MAX as u64;
        }
        j = j + 1;
    }
    (j, width as u32)
}

/// Reads the token that starts at position `i` of `t` and returns it with
/// the number of characters it takes.
pub fn next_token(t: &[char], i: usize) -> (r: (Token, usize))
    requires
        i < t.len(),
    ensures
        r.0 == token_at(t@, i as int),
        r.1 == token_len(t@, i as int),
        1 <= r.1,
        i + r.1 <= t.len(),
{
    let c = t[i];
    if c != '%' || i + 1 >= t.len() {
        return (Token::Literal { c }, 1);
    }
    let d = t[i + 1];
    if d == '%' {
        (Token::Percent, 2)
    } else if d == '?' {
        if t.len() - i > 3 && t[i + 3] == '?' {
            (Token::Open { key: t[i + 2] }, 4)
        } else {
            (Token::Raw { c: '?' }, 2)
        }
    } else {
        let left = d == '-';
        let from: usize = if left {
            i + 2
        } else {
            i + 1
        };
        let (k, width) = read_width(t, from);
        if k < t.len() && t[k] != '%' {
            (Token::Field { key: t[k], width, left }, k + 1 - i)
        } else {
            (Token::Raw { c: d }, 2)
        }
    }
}

} // verus!
