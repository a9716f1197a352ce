//! No item of a format string reaches past the string's end.

use crate::grammar::{
    body_len, branch_len, digit_run, digits_start, is_digit, item_len, stops, token_at,
    token_len, Mode,
};
use vstd::prelude::*;

verus! {

/// A run of digits ends within the string.
pub proof fn lemma_digit_run_bound(t: Seq<char>, j: int)
    requires
        0 <= j <= t.len(),
    ensures
        j + digit_run(t, j) <= t.len(),
    decreases t.len() - j,
{
    if j < t.len() && is_digit(t[j]) {
        lemma_digit_run_bound(t, j + 1);
    }
}

/// A token takes at least one character and ends within the string.
pub proof fn lemma_token_bound(t: Seq<char>, i: int)
    requires
        0 <= i < t.len(),
    ensures
        1 <= token_len(t, i),
        i + token_len(t, i) <= t.len(),
{
    if t[i] == '%' && i + 1 < t.len() {
        lemma_digit_run_bound(t, digits_start(t, i));
    }
}

/// A branch ends within the string, at a character that ends it or at the
/// string's end.
pub proof fn lemma_branch_bound(t: Seq<char>, i: int, mode: Mode)
    requires
        0 <= i <= t.len(),
    ensures
        i + branch_len(t, i, mode) <= t.len(),
        i + branch_len(t, i, mode) < t.len() ==> stops(mode, t[i + branch_len(t, i, mode)]),
    decreases t.len() - i, 0nat,
{
    if i < t.len() && !stops(mode, t[i]) {
        let n = if token_at(t, i) is Open {
            4 + body_len(t, i + 4)
        } else {
            token_len(t, i)
        };
        if token_at(t, i) is Open {
            lemma_body_bound(t, i + 4);
        } else {
            lemma_token_bound(t, i);
        }
        if i + n < t.len() {
            lemma_branch_bound(t, i + n, mode);
        }
    }
}

/// A conditional ends within the string.
pub proof fn lemma_body_bound(t: Seq<char>, j: int)
    requires
        0 <= j <= t.len(),
    ensures
        j + body_len(t, j) <= t.len(),
    decreases t.len() - j, 1nat,
{
    lemma_branch_bound(t, j, Mode::Then);
    let a = branch_len(t, j, Mode::Then);
    if j + a < t.len() && t[j + a] == '&' {
        lemma_branch_bound(t, j + a + 1, Mode::Else);
    }
}

/// An item takes at least one character and ends within the string.
pub proof fn lemma_item_bound(t: Seq<char>, i: int)
    requires
        0 <= i < t.len(),
    ensures
        1 <= item_len(t, i),
        i + item_len(t, i) <= t.len(),
{
    if token_at(t, i) is Open {
        lemma_body_bound(t, i + 4);
    } else {
        lemma_token_bound(t, i);
    }
}

} // verus!
