//! Moving between strings and rows of characters.

use crate::render::spaces;
use vstd::prelude::*;

verus! {

/// `String::push` appends the one character it is given to the end of the
/// string and leaves the rest as it was.
pub assume_specification[ String::push ](s: &mut String, ch: char)
    ensures
        final(s)@ == old(s)@.push(ch),
;

/// The characters of `s`, in order.
pub fn chars_of(s: &str) -> (v: Vec<char>)
    ensures
        v@ == s@,
{
    let mut v: Vec<char> = Vec::new();
    for c in it: s.chars()
        invariant
            it.seq() == s@,
            v@ == it.seq().take(it.index()),
    {
        v.push(c);
    }
    v
}

/// The first character of `s`, if it has one.
pub fn first_char(s: &str) -> (r: Option<char>)
    ensures
        r == if s@.len() > 0 {
            Some(s@[0])
        } else {
            None
        },
{
    let mut it = s.chars();
    it.next()
}

/// Appends `n` spaces to `out`.
pub fn push_spaces(out: &mut String, n: usize)
    ensures
        final(out)@ == old(out)@ + spaces(n as nat),
{
    let mut i: usize = 0;
    while i < n
        invariant
            i <= n,
            out@ == old(out)@ + spaces(i as nat),
        decreases n - i,
    {
        out.push(' ');
        i = i + 1;
    }
}

} // verus!
