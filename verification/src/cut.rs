//! A format string can be cut where an item starts: the part before the cut
//! and the part behind it write, each as a format string of its own, what
//! the whole writes.

use crate::bounds::{lemma_branch_bound, lemma_digit_run_bound};
use crate::grammar::{
    branch_len, digit_run, digits_start, has_else, is_digit, item_boundary, item_len, sign_len,
    stops, then_end, token_at, token_len, Mode,
};
use crate::render::{item_text, lemma_branch_step, render_branch, written, Values};
use crate::suffix::{lemma_same_decimal, lemma_skip_render};
use vstd::prelude::*;

verus! {

/// A run of digits in `t.take(p)` is the run in `t`, as far as it fits.
pub proof fn lemma_take_digit_run(t: Seq<char>, p: int, j: int)
    requires
        0 <= j <= p <= t.len(),
    ensures
        digit_run(t.take(p), j) == if j + digit_run(t, j) <= p {
            digit_run(t, j)
        } else {
            (p - j) as nat
        },
    decreases p - j,
{
    if j < p && is_digit(t[j]) {
        lemma_take_digit_run(t, p, j + 1);
    }
}

/// A token that ends before the cut is the same token in `t.take(p)`.
pub proof fn lemma_take_token(t: Seq<char>, p: int, i: int)
    requires
        0 <= i < p <= t.len(),
        i + token_len(t, i) <= p,
    ensures
        token_at(t.take(p), i) == token_at(t, i),
        token_len(t.take(p), i) == token_len(t, i),
{
    let s = t.take(p);
    if t[i] == '%' && i + 1 < t.len() {
        assert(s[i + 1] == t[i + 1]);
        if t[i + 1] != '%' && t[i + 1] != '?' {
            let from = digits_start(t, i);
            assert(sign_len(s, i) == sign_len(t, i));
            lemma_take_digit_run(t, p, from);
            lemma_digit_run_bound(t, from);
            if token_at(t, i) is Field {
                lemma_same_decimal(s, from, t, from, digit_run(t, from));
            }
        }
    }
}

/// A branch that ends before the cut, or at it, is as long in `t.take(p)`
/// and writes the same.
pub proof fn lemma_take_branch(values: Values, t: Seq<char>, p: int, i: int, mode: Mode)
    requires
        0 <= i <= p <= t.len(),
        i + branch_len(t, i, mode) <= p,
    ensures
        branch_len(t.take(p), i, mode) == branch_len(t, i, mode),
        render_branch(values, t.take(p), i, mode) == render_branch(values, t, i, mode),
    decreases t.len() - i, 1nat,
{
    let s = t.take(p);
    if i < p && !stops(mode, t[i]) {
        lemma_branch_step(values, t, i, mode);
        lemma_branch_step(values, s, i, mode);
        lemma_take_item(values, t, p, i);
        lemma_take_branch(values, t, p, i + item_len(t, i), mode);
    }
}

/// An item that ends before the cut, or at it, is as long in `t.take(p)` and
/// writes the same.
pub proof fn lemma_take_item(values: Values, t: Seq<char>, p: int, i: int)
    requires
        0 <= i < p <= t.len(),
        i + item_len(t, i) <= p,
    ensures
        item_len(t.take(p), i) == item_len(t, i),
        item_text(values, t.take(p), i) == item_text(values, t, i),
    decreases t.len() - i, 0nat,
{
    lemma_take_token(t, p, i);
    if token_at(t, i) is Open {
        let j = i + 4;
        lemma_take_branch(values, t, p, j, Mode::Then);
        if has_else(t, j) {
            lemma_take_branch(values, t, p, then_end(t, j) + 1, Mode::Else);
        }
    }
}

/// Behind the items of `t` from position `i` up to the cut, which write the
/// same in `t.take(p)`, the rest of `t` writes what is left.
pub proof fn lemma_cut_from(values: Values, t: Seq<char>, p: int, i: int)
    requires
        0 <= i <= p <= t.len(),
        item_boundary(t, i, p),
    ensures
        render_branch(values, t, i, Mode::Top) == render_branch(values, t.take(p), i, Mode::Top)
            + render_branch(values, t, p, Mode::Top),
    decreases p - i,
{
    let s = t.take(p);
    if i < p {
        lemma_branch_step(values, t, i, Mode::Top);
        lemma_branch_step(values, s, i, Mode::Top);
        lemma_take_item(values, t, p, i);
        lemma_cut_from(values, t, p, i + item_len(t, i));
        assert(render_branch(values, t, i, Mode::Top) =~= render_branch(values, s, i, Mode::Top)
            + render_branch(values, t, p, Mode::Top));
    } else {
        assert(render_branch(values, s, i, Mode::Top) =~= Seq::<char>::empty());
        assert(render_branch(values, t, i, Mode::Top) =~= render_branch(values, s, i, Mode::Top)
            + render_branch(values, t, p, Mode::Top));
    }
}

/// Where a format string is cut at the start of one of its items, the two
/// parts write, one after the other, what the whole writes.
pub proof fn lemma_cut(values: Values, t: Seq<char>, p: int)
    requires
        0 <= p <= t.len(),
        item_boundary(t, 0, p),
    ensures
        written(values, t) == written(values, t.take(p)) + written(values, t.skip(p)),
{
    lemma_cut_from(values, t, p, 0);
    lemma_skip_render(values, t, p, 0, Mode::Top);
}

/// A branch that runs to the end of the string without meeting a character
/// that ends it writes what the same characters write at top level.
pub proof fn lemma_whole_branch(values: Values, t: Seq<char>, i: int, mode: Mode)
    requires
        0 <= i <= t.len(),
        i + branch_len(t, i, mode) == t.len(),
    ensures
        render_branch(values, t, i, mode) == render_branch(values, t, i, Mode::Top),
    decreases t.len() - i,
{
    if i < t.len() {
        lemma_branch_step(values, t, i, mode);
        lemma_branch_step(values, t, i, Mode::Top);
        lemma_whole_branch(values, t, i + item_len(t, i), mode);
    }
}

/// The characters of the branch that starts at position `j` of `t` when
/// read in `mode`.
pub open spec fn branch_text(t: Seq<char>, j: int, mode: Mode) -> Seq<char> {
    t.subrange(j, j + branch_len(t, j, mode))
}

/// A branch writes what its characters write as a format string of their
/// own.
pub proof fn lemma_branch_alone(values: Values, t: Seq<char>, j: int, mode: Mode)
    requires
        0 <= j <= t.len(),
    ensures
        render_branch(values, t, j, mode) == written(values, branch_text(t, j, mode)),
{
    let e = j + branch_len(t, j, mode);
    lemma_branch_bound(t, j, mode);
    let s = t.take(e);
    lemma_take_branch(values, t, e, j, mode);
    lemma_whole_branch(values, s, j, mode);
    lemma_skip_render(values, s, j, 0, Mode::Top);
    assert(s.skip(j) =~= branch_text(t, j, mode));
}

} // verus!
