//! What is read from a position on depends only on the characters from that
//! position on: the same items are found, and the same text is written,
//! when the characters before it are cut off.

use crate::bounds::{lemma_digit_run_bound, lemma_item_bound};
use crate::grammar::{
    body_len, branch_len, decimal, digit_run, digits_start, has_else, is_digit, item_len,
    sign_len, stops, then_end, token_at, token_len, Mode,
};
use crate::render::{item_text, lemma_branch_step, render_branch, Values};
use vstd::prelude::*;

verus! {

/// A run of digits is as long in `t.skip(m)` as in `t`.
pub proof fn lemma_skip_digit_run(t: Seq<char>, m: int, j: int)
    requires
        0 <= m <= t.len(),
        0 <= j,
    ensures
        digit_run(t.skip(m), j) == digit_run(t, m + j),
    decreases t.len() - m - j,
{
    let s = t.skip(m);
    if j < s.len() && is_digit(s[j]) {
        lemma_skip_digit_run(t, m, j + 1);
    }
}

/// The same digits write the same number, wherever they stand.
pub proof fn lemma_same_decimal(t: Seq<char>, from: int, s: Seq<char>, at: int, n: nat)
    requires
        forall|j: int| from <= j < from + n ==> #[trigger] t[j] == s[j - from + at],
    ensures
        decimal(t, from, from + n) == decimal(s, at, at + n),
    decreases n,
{
    if n > 0 {
        lemma_same_decimal(t, from, s, at, (n - 1) as nat);
    }
}

/// The token at position `i` of `t.skip(m)` is the token at position
/// `m + i` of `t`.
pub proof fn lemma_skip_token(t: Seq<char>, m: int, i: int)
    requires
        0 <= m <= t.len(),
        0 <= i < t.len() - m,
    ensures
        token_at(t.skip(m), i) == token_at(t, m + i),
        token_len(t.skip(m), i) == token_len(t, m + i),
{
    let s = t.skip(m);
    assert(sign_len(s, i) == sign_len(t, m + i));
    let from = digits_start(s, i);
    assert(digits_start(t, m + i) == m + from);
    if i + 1 < s.len() {
        lemma_skip_digit_run(t, m, from);
        lemma_digit_run_bound(t, m + from);
        lemma_same_decimal(s, from, t, m + from, digit_run(s, from));
    }
}

/// A branch is as long in `t.skip(m)` as in `t`.
pub proof fn lemma_skip_branch(t: Seq<char>, m: int, i: int, mode: Mode)
    requires
        0 <= m <= t.len(),
        0 <= i,
    ensures
        branch_len(t.skip(m), i, mode) == branch_len(t, m + i, mode),
    decreases t.len() - m - i, 0nat,
{
    let s = t.skip(m);
    if i < s.len() && !stops(mode, s[i]) {
        lemma_skip_token(t, m, i);
        let n = if token_at(s, i) is Open {
            4 + body_len(s, i + 4)
        } else {
            token_len(s, i)
        };
        if token_at(s, i) is Open {
            lemma_skip_body(t, m, i + 4);
        }
        if i + n < s.len() {
            lemma_skip_branch(t, m, i + n, mode);
        }
    }
}

/// A conditional is as long in `t.skip(m)` as in `t`.
pub proof fn lemma_skip_body(t: Seq<char>, m: int, j: int)
    requires
        0 <= m <= t.len(),
        0 <= j,
    ensures
        body_len(t.skip(m), j) == body_len(t, m + j),
    decreases t.len() - m - j, 1nat,
{
    let s = t.skip(m);
    lemma_skip_branch(t, m, j, Mode::Then);
    let a = branch_len(s, j, Mode::Then);
    if j + a < s.len() && s[j + a] == '&' {
        lemma_skip_branch(t, m, j + a + 1, Mode::Else);
    }
}

/// A branch writes the same in `t.skip(m)` as in `t`.
pub proof fn lemma_skip_render(values: Values, t: Seq<char>, m: int, i: int, mode: Mode)
    requires
        0 <= m <= t.len(),
        0 <= i,
    ensures
        render_branch(values, t.skip(m), i, mode) == render_branch(values, t, m + i, mode),
    decreases t.len() - m - i, 1nat,
{
    let s = t.skip(m);
    if i < s.len() && !stops(mode, s[i]) {
        lemma_branch_step(values, s, i, mode);
        lemma_branch_step(values, t, m + i, mode);
        lemma_item_bound(s, i);
        lemma_skip_item(values, t, m, i);
        lemma_skip_render(values, t, m, i + item_len(s, i), mode);
    }
}

/// An item is as long in `t.skip(m)` as in `t` and writes the same.
pub proof fn lemma_skip_item(values: Values, t: Seq<char>, m: int, i: int)
    requires
        0 <= m <= t.len(),
        0 <= i < t.len() - m,
    ensures
        item_len(t.skip(m), i) == item_len(t, m + i),
        item_text(values, t.skip(m), i) == item_text(values, t, m + i),
    decreases t.len() - m - i, 0nat,
{
    let s = t.skip(m);
    lemma_skip_token(t, m, i);
    if token_at(s, i) is Open {
        lemma_skip_body(t, m, i + 4);
        lemma_skip_branch(t, m, i + 4, Mode::Then);
        lemma_skip_render(values, t, m, i + 4, Mode::Then);
        if has_else(s, i + 4) {
            lemma_skip_render(values, t, m, then_end(s, i + 4) + 1, Mode::Else);
        }
    }
}

} // verus!
