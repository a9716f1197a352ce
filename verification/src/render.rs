//! What a format string writes, given the registered values.

use crate::bounds::lemma_item_bound;
use crate::grammar::{branch_len, has_else, item_len, stops, then_end, token_at, Mode, Token};
use vstd::prelude::*;

verus! {

/// The registered values, as contracts see them: each key with the
/// characters of its value.
pub type Values = Map<char, Seq<char>>;

/// The value registered for `key`, or the empty string if there is none.
pub open spec fn value_of(values: Values, key: char) -> Seq<char> {
    if values.contains_key(key) {
        values[key]
    } else {
        Seq::empty()
    }
}

/// Whether a conditional on `key` takes its first branch: `key` is
/// registered and its value is not empty.
pub open spec fn truthy(values: Values, key: char) -> bool {
    values.contains_key(key) && values[key].len() > 0
}

/// `n` spaces.
pub open spec fn spaces(n: nat) -> Seq<char> {
    Seq::new(n, |i: int| ' ')
}

/// `text` in a field of at least `width` characters: filled up with spaces
/// behind it if `left`, else in front of it, and unchanged if it is as long
/// as the field or longer.
pub open spec fn pad(text: Seq<char>, width: nat, left: bool) -> Seq<char> {
    if text.len() >= width {
        text
    } else if left {
        text + spaces((width - text.len()) as nat)
    } else {
        spaces((width - text.len()) as nat) + text
    }
}

/// What a token writes. The opening of a conditional writes nothing by
/// itself.
pub open spec fn token_text(values: Values, token: Token) -> Seq<char> {
    match token {
        Token::Literal { c } => seq![c],
        Token::Percent => seq!['%'],
        Token::Field { key, width, left } => pad(value_of(values, key), width as nat, left),
        Token::Open { .. } => Seq::empty(),
        Token::Raw { c } => seq!['%', c],
    }
}

/// What the branch that starts at position `i` of `t` writes when read in
/// `mode`: what its items write, one after another, up to the branch's end.
pub open spec fn render_branch(values: Values, t: Seq<char>, i: int, mode: Mode) -> Seq<char>
    decreases t.len() - i, 1nat,
{
    if i < 0 || i >= t.len() || stops(mode, t[i]) {
        Seq::empty()
    } else {
        proof {
            lemma_item_bound(t, i);
        }
        item_text(values, t, i) + render_branch(values, t, i + item_len(t, i), mode)
    }
}

/// What the item at position `i` of `t` writes. A conditional writes its
/// first branch if its key is registered with a value that is not empty;
/// otherwise its second branch, or nothing if it has none. A token writes
/// what `token_text` says.
pub open spec fn item_text(values: Values, t: Seq<char>, i: int) -> Seq<char>
    recommends
        0 <= i < t.len(),
    decreases t.len() - i, 0nat,
{
    match token_at(t, i) {
        Token::Open { key } => {
            if truthy(values, key) {
                render_branch(values, t, i + 4, Mode::Then)
            } else if has_else(t, i + 4) {
                render_branch(values, t, then_end(t, i + 4) + 1, Mode::Else)
            } else {
                Seq::empty()
            }
        },
        token => token_text(values, token),
    }
}

/// What the items of the format string `t` write, from its first character
/// to its last.
pub open spec fn written(values: Values, t: Seq<char>) -> Seq<char> {
    render_branch(values, t, 0, Mode::Top)
}

/// What the format string `t` writes in a line of at least `total`
/// characters: what its items write, filled up with spaces at the end if
/// that is shorter than `total`, and never cut. A `total` of 0 asks for
/// nothing.
pub open spec fn render(values: Values, t: Seq<char>, total: nat) -> Seq<char> {
    pad(written(values, t), total, true)
}

/// A branch is its first item followed by the rest of the branch, and
/// writes what the item writes followed by what the rest writes.
pub proof fn lemma_branch_step(values: Values, t: Seq<char>, i: int, mode: Mode)
    requires
        0 <= i < t.len(),
        !stops(mode, t[i]),
    ensures
        branch_len(t, i, mode) == item_len(t, i) + branch_len(t, i + item_len(t, i), mode),
        render_branch(values, t, i, mode) == item_text(values, t, i) + render_branch(
            values,
            t,
            i + item_len(t, i),
            mode,
        ),
{
    lemma_item_bound(t, i);
}

} // verus!
