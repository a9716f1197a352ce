//! What holds of every format string and every set of registered values.

use crate::bounds::lemma_item_bound;
use crate::cut::{branch_text, lemma_branch_alone, lemma_cut};
use crate::grammar::{
    body_len, branch_len, decimal, digit_run, digits_start, field_width, has_else, is_digit,
    item_boundary, item_len, sign_len, stops, then_end, token_at, token_len, Mode, Token,
};
use crate::render::{
    item_text, lemma_branch_step, pad, render, render_branch, truthy, value_of, written, Values,
};
use crate::suffix::{lemma_same_decimal, lemma_skip_render};
use vstd::prelude::*;

verus! {

/// Whether `c`, standing directly behind a `%`, is read as the key of a
/// field: it is no `%`, `?` or `-` and no digit.
pub open spec fn is_bare_key(c: char) -> bool {
    c != '%' && c != '?' && c != '-' && !is_digit(c)
}

/// Whether no character of `text` is a `%`.
pub open spec fn has_no_percent(text: Seq<char>) -> bool {
    forall|j: int| 0 <= j < text.len() ==> text[j] != '%'
}

/// Whether every character of `text` stands for itself in a branch read in
/// `mode`: none is a `%`, and none ends the branch.
pub open spec fn is_plain(text: Seq<char>, mode: Mode) -> bool {
    forall|j: int| 0 <= j < text.len() ==> text[j] != '%' && !stops(mode, #[trigger] text[j])
}

/// Whether every character of `digits` is a digit.
pub open spec fn all_digits(digits: Seq<char>) -> bool {
    forall|j: int| 0 <= j < digits.len() ==> is_digit(#[trigger] digits[j])
}

/// The opening of a conditional on `key`.
pub open spec fn opening(key: char) -> Seq<char> {
    seq!['%', '?', key, '?']
}

/// The start of a field directive: `%`, a `-` if `left`, and the digits.
pub open spec fn field_start(left: bool, digits: Seq<char>) -> Seq<char> {
    (if left {
        seq!['%', '-']
    } else {
        seq!['%']
    }) + digits
}

/// A field directive: `%`, a `-` if `left`, the digits, and the key.
pub open spec fn field(left: bool, digits: Seq<char>, key: char) -> Seq<char> {
    field_start(left, digits) + seq![key]
}

/// The width that `digits` ask for: the number they write, or `u32::MAX`
/// where that is larger.
pub open spec fn width_of(digits: Seq<char>) -> nat {
    let n = decimal(digits, 0, digits.len() as int);
    if n > u32::MAX {
        u32::MAX as nat
    } else {
        n
    }
}

/// Characters that stand for themselves are written as they are, and the
/// branch goes on behind them.
pub proof fn lemma_plain_run(values: Values, t: Seq<char>, i: int, n: nat, mode: Mode)
    requires
        0 <= i,
        i + n <= t.len(),
        forall|j: int| i <= j < i + n ==> t[j] != '%' && !stops(mode, #[trigger] t[j]),
    ensures
        branch_len(t, i, mode) == n + branch_len(t, i + n, mode),
        render_branch(values, t, i, mode) == t.subrange(i, i + n) + render_branch(
            values,
            t,
            i + n,
            mode,
        ),
    decreases n,
{
    if n > 0 {
        assert(!stops(mode, t[i]));
        lemma_branch_step(values, t, i, mode);
        lemma_plain_run(values, t, i + 1, (n - 1) as nat, mode);
        assert(t.subrange(i, i + n) =~= seq![t[i]] + t.subrange(i + 1, i + n));
    } else {
        assert(t.subrange(i, i + n) =~= Seq::<char>::empty());
    }
}

/// A run of `n` digits that a character other than a digit follows, or the
/// string's end, is `n` digits long.
pub proof fn lemma_digit_run_exact(t: Seq<char>, from: int, n: nat)
    requires
        0 <= from,
        from + n <= t.len(),
        forall|j: int| from <= j < from + n ==> is_digit(#[trigger] t[j]),
        from + n < t.len() ==> !is_digit(t[from + n]),
    ensures
        digit_run(t, from) == n,
    decreases n,
{
    if n > 0 {
        assert(is_digit(t[from]));
        lemma_digit_run_exact(t, from + 1, (n - 1) as nat);
    }
}

/// A format string writes what its first item writes, and then what the
/// rest writes as a format string of its own.
pub proof fn lemma_first_item(values: Values, t: Seq<char>)
    requires
        t.len() > 0,
    ensures
        item_len(t, 0) <= t.len(),
        written(values, t) == item_text(values, t, 0) + written(values, t.skip(item_len(t, 0) as int)),
{
    lemma_item_bound(t, 0);
    lemma_branch_step(values, t, 0, Mode::Top);
    lemma_skip_render(values, t, item_len(t, 0) as int, 0, Mode::Top);
}

/// The empty format string writes nothing.
pub proof fn lemma_empty_format(values: Values)
    ensures
        written(values, Seq::empty()) == Seq::<char>::empty(),
{
}

/// A key that is registered, written as `%` and the key, gives its value.
pub proof fn lemma_registered_key_gives_value(values: Values, key: char)
    requires
        values.contains_key(key),
        is_bare_key(key),
    ensures
        render(values, seq!['%', key], 0) == values[key],
{
    lemma_field(values, false, Seq::empty(), key, Seq::empty());
    assert(field(false, Seq::empty(), key) + Seq::<char>::empty() =~= seq!['%', key]);
    assert(values[key] + Seq::<char>::empty() =~= values[key]);
}

/// A key that is not registered, written as `%` and the key, gives the
/// empty string.
pub proof fn lemma_unregistered_key_gives_nothing(values: Values, key: char)
    requires
        !values.contains_key(key),
        is_bare_key(key),
    ensures
        render(values, seq!['%', key], 0) == Seq::<char>::empty(),
{
    lemma_field(values, false, Seq::empty(), key, Seq::empty());
    assert(field(false, Seq::empty(), key) + Seq::<char>::empty() =~= seq!['%', key]);
}

/// The token that a field directive is read as, whatever follows it.
proof fn lemma_field_token(left: bool, digits: Seq<char>, key: char, tail: Seq<char>)
    requires
        all_digits(digits),
        !is_digit(key),
        key != '%',
        left || digits.len() > 0 || is_bare_key(key),
    ensures
        token_at(field(left, digits, key) + tail, 0) == (Token::Field {
            key,
            width: width_of(digits) as u32,
            left,
        }),
        token_len(field(left, digits, key) + tail, 0) == field(left, digits, key).len(),
{
    let t = field(left, digits, key) + tail;
    let from: int = if left {
        2
    } else {
        1
    };
    let n = digits.len();
    assert(t.len() == from + n + 1 + tail.len());
    assert(t[0] == '%');
    assert(forall|j: int| from <= j < from + n ==> #[trigger] t[j] == digits[j - from]);
    assert(t[from + n] == key);
    if left {
        assert(t[1] == '-');
    } else if n > 0 {
        assert(t[1] == digits[0]);
        assert(is_digit(digits[0]));
    } else {
        assert(t[1] == key);
    }
    assert(sign_len(t, 0) == from - 1);
    assert(digits_start(t, 0) == from);
    assert forall|j: int| from <= j < from + n implies is_digit(#[trigger] t[j]) by {
        assert(is_digit(digits[j - from]));
    }
    lemma_digit_run_exact(t, from, n);
    lemma_same_decimal(t, from, digits, 0, n);
    assert(field_width(t, 0) == width_of(digits));
}

/// A field directive writes the value of its key, or nothing if the key is
/// not registered, filled up with spaces to the width that its digits ask
/// for: in front of the value, or behind it after a `-`. A value as long as
/// the width or longer is written whole. The format string behind the
/// directive writes what it writes alone. The key may be any character but
/// a `%` or a digit; directly behind the `%` it may not be `?` or `-`
/// either.
pub proof fn lemma_field(
    values: Values,
    left: bool,
    digits: Seq<char>,
    key: char,
    tail: Seq<char>,
)
    requires
        all_digits(digits),
        !is_digit(key),
        key != '%',
        left || digits.len() > 0 || is_bare_key(key),
    ensures
        written(values, field(left, digits, key) + tail) == pad(
            value_of(values, key),
            width_of(digits),
            left,
        ) + written(values, tail),
{
    let t = field(left, digits, key) + tail;
    lemma_field_token(left, digits, key, tail);
    lemma_first_item(values, t);
    assert(t.skip(field(left, digits, key).len() as int) =~= tail);
}

/// A `%`, alone or with a `-` or digits behind it, and then the end of the
/// string where the key should stand, is no directive: all of it stands for
/// itself.
pub proof fn lemma_width_without_key(values: Values, left: bool, digits: Seq<char>)
    requires
        all_digits(digits),
    ensures
        written(values, field_start(left, digits)) == field_start(left, digits),
{
    let t = field_start(left, digits);
    let from: int = if left {
        2
    } else {
        1
    };
    let n = digits.len();
    assert(t.len() == from + n);
    assert(t[0] == '%');
    assert(forall|j: int| from <= j < from + n ==> #[trigger] t[j] == digits[j - from]);
    assert forall|j: int| from <= j < from + n implies is_digit(#[trigger] t[j]) by {
        assert(is_digit(digits[j - from]));
    }
    lemma_first_item(values, t);
    if t.len() == 1 {
        assert(token_at(t, 0) == Token::Literal { c: '%' });
        assert(t.skip(1) =~= Seq::<char>::empty());
        assert(written(values, t) =~= t);
    } else {
        if left {
            assert(t[1] == '-');
        } else {
            assert(t[1] == digits[0]);
            assert(is_digit(digits[0]));
        }
        assert(sign_len(t, 0) == from - 1);
        lemma_digit_run_exact(t, from, n);
        assert(token_at(t, 0) == Token::Raw { c: t[1] });
        let rest = t.skip(2);
        assert forall|j: int| 0 <= j < rest.len() implies rest[j] != '%' by {
            assert(rest[j] == t[j + 2]);
            assert(is_digit(t[j + 2]));
        }
        lemma_text_then(values, rest, Seq::empty());
        assert(rest + Seq::<char>::empty() =~= rest);
        assert(seq!['%', t[1]] + rest =~= t);
    }
}

/// At the start of an item, `%%` writes one `%`, whatever stands before and
/// behind it and whichever branch it stands in.
pub proof fn lemma_percent_pair(values: Values, t: Seq<char>, i: int, mode: Mode)
    requires
        0 <= i,
        i + 1 < t.len(),
        t[i] == '%',
        t[i + 1] == '%',
    ensures
        render_branch(values, t, i, mode) == seq!['%'] + render_branch(values, t, i + 2, mode),
{
    lemma_branch_step(values, t, i, mode);
}

/// Where an item of the format string starts with `%%`, the pair writes one
/// `%`, whatever stands before it and behind it: the whole writes what the
/// part before the pair writes, a `%`, and what the part behind it writes.
pub proof fn lemma_percent_pair_at_boundary(values: Values, t: Seq<char>, p: int)
    requires
        0 <= p,
        p + 1 < t.len(),
        t[p] == '%',
        t[p + 1] == '%',
        item_boundary(t, 0, p),
    ensures
        written(values, t) == written(values, t.take(p)) + seq!['%'] + written(
            values,
            t.skip(p + 2),
        ),
{
    lemma_cut(values, t, p);
    let s = t.skip(p);
    lemma_first_item(values, s);
    assert(s.skip(2) =~= t.skip(p + 2));
}

/// Between text without a `%` and any format string, `%%` writes one `%`:
/// the text, the `%`, and what the format string writes.
pub proof fn lemma_percent_pair_between(values: Values, head: Seq<char>, tail: Seq<char>)
    requires
        has_no_percent(head),
    ensures
        written(values, head + seq!['%', '%'] + tail) == head + seq!['%'] + written(values, tail),
{
    let s = seq!['%', '%'] + tail;
    lemma_text_then(values, head, s);
    lemma_first_item(values, s);
    assert(s.skip(2) =~= tail);
    assert(head + seq!['%', '%'] + tail =~= head + s);
}

/// Text without a `%` is written as it is, and the format string behind it
/// writes what it writes alone.
pub proof fn lemma_text_then(values: Values, head: Seq<char>, tail: Seq<char>)
    requires
        has_no_percent(head),
    ensures
        written(values, head + tail) == head + written(values, tail),
{
    let t = head + tail;
    let h = head.len() as int;
    assert(forall|j: int| 0 <= j < h ==> #[trigger] t[j] == head[j]);
    lemma_plain_run(values, t, 0, head.len(), Mode::Top);
    assert(t.subrange(0, h) =~= head);
    lemma_skip_render(values, t, h, 0, Mode::Top);
    assert(t.skip(h) =~= tail);
}

/// A conditional writes what the characters of one of its branches write as
/// a format string of their own: those of the first branch if its key is
/// registered with a value that is not empty; otherwise those of the second
/// branch, or nothing if it has none. This holds in every branch, however
/// deep it lies.
pub proof fn lemma_conditional_item(values: Values, t: Seq<char>, i: int, key: char)
    requires
        0 <= i < t.len(),
        token_at(t, i) == (Token::Open { key }),
    ensures
        item_text(values, t, i) == if truthy(values, key) {
            written(values, branch_text(t, i + 4, Mode::Then))
        } else if has_else(t, i + 4) {
            written(values, branch_text(t, then_end(t, i + 4) + 1, Mode::Else))
        } else {
            Seq::empty()
        },
{
    lemma_branch_alone(values, t, i + 4, Mode::Then);
    if has_else(t, i + 4) {
        lemma_branch_alone(values, t, then_end(t, i + 4) + 1, Mode::Else);
    }
}

/// Text that stands for itself, with a character behind it that ends the
/// branch or with the end of the string, is a whole branch, which writes
/// the text.
proof fn lemma_plain_branch(values: Values, t: Seq<char>, j: int, text: Seq<char>, mode: Mode)
    requires
        0 <= j,
        j + text.len() <= t.len(),
        is_plain(text, mode),
        t.subrange(j, j + text.len()) == text,
        j + text.len() < t.len() ==> stops(mode, t[j + text.len()]),
    ensures
        branch_len(t, j, mode) == text.len(),
        render_branch(values, t, j, mode) == text,
{
    let n = text.len();
    assert forall|k: int| j <= k < j + n implies t[k] != '%' && !stops(mode, #[trigger] t[k]) by {
        assert(t[k] == t.subrange(j, j + n)[k - j]);
    }
    lemma_plain_run(values, t, j, n, mode);
    assert(branch_len(t, j + n, mode) == 0);
    assert(render_branch(values, t, j + n, mode) =~= Seq::<char>::empty());
    assert(text + Seq::<char>::empty() =~= text);
}

/// A conditional with both branches writes the first if its key is
/// registered with a value that is not empty, and the second otherwise,
/// whether the key is registered or not; the format string behind it writes
/// what it writes alone. The branches hold text that stands for itself.
pub proof fn lemma_conditional(
    values: Values,
    key: char,
    yes: Seq<char>,
    no: Seq<char>,
    tail: Seq<char>,
)
    requires
        is_plain(yes, Mode::Then),
        is_plain(no, Mode::Else),
    ensures
        written(values, opening(key) + yes + seq!['&'] + no + seq!['?'] + tail) == (if truthy(
            values,
            key,
        ) {
            yes
        } else {
            no
        }) + written(values, tail),
{
    let t = opening(key) + yes + seq!['&'] + no + seq!['?'] + tail;
    let a = yes.len() as int;
    let b = no.len() as int;
    assert(t[0] == '%' && t[1] == '?' && t[2] == key && t[3] == '?');
    assert(t[4 + a] == '&');
    assert(t[5 + a + b] == '?');
    assert(t.subrange(4, 4 + a) =~= yes);
    assert(t.subrange(5 + a, 5 + a + b) =~= no);
    assert(token_at(t, 0) == Token::Open { key });
    lemma_plain_branch(values, t, 4, yes, Mode::Then);
    lemma_plain_branch(values, t, 5 + a, no, Mode::Else);
    assert(then_end(t, 4) == 4 + a);
    assert(has_else(t, 4));
    assert(body_len(t, 4) == a + 1 + b + 1);
    assert(item_len(t, 0) == 6 + a + b);
    lemma_first_item(values, t);
    assert(t.skip(6 + a + b) =~= tail);
}

/// A conditional without a second branch writes its branch if its key is
/// registered with a value that is not empty, and nothing otherwise.
pub proof fn lemma_conditional_without_else(
    values: Values,
    key: char,
    yes: Seq<char>,
    tail: Seq<char>,
)
    requires
        is_plain(yes, Mode::Then),
    ensures
        written(values, opening(key) + yes + seq!['?'] + tail) == (if truthy(values, key) {
            yes
        } else {
            Seq::empty()
        }) + written(values, tail),
{
    let t = opening(key) + yes + seq!['?'] + tail;
    let a = yes.len() as int;
    assert(t[0] == '%' && t[1] == '?' && t[2] == key && t[3] == '?');
    assert(t[4 + a] == '?');
    assert(t.subrange(4, 4 + a) =~= yes);
    assert(token_at(t, 0) == Token::Open { key });
    lemma_plain_branch(values, t, 4, yes, Mode::Then);
    assert(then_end(t, 4) == 4 + a);
    assert(!has_else(t, 4));
    assert(body_len(t, 4) == a + 1);
    assert(item_len(t, 0) == 5 + a);
    lemma_first_item(values, t);
    assert(t.skip(5 + a) =~= tail);
}

/// A conditional that the end of the string cuts off in its first branch
/// is read as if it were closed there: it writes what was read of the
/// branch if its key is registered with a value that is not empty, and
/// nothing otherwise.
pub proof fn lemma_unterminated_conditional(values: Values, key: char, yes: Seq<char>)
    requires
        is_plain(yes, Mode::Then),
    ensures
        written(values, opening(key) + yes) == if truthy(values, key) {
            yes
        } else {
            Seq::empty()
        },
{
    let t = opening(key) + yes;
    let a = yes.len() as int;
    assert(t[0] == '%' && t[1] == '?' && t[2] == key && t[3] == '?');
    assert(t.subrange(4, 4 + a) =~= yes);
    assert(token_at(t, 0) == Token::Open { key });
    lemma_plain_branch(values, t, 4, yes, Mode::Then);
    assert(then_end(t, 4) == 4 + a);
    assert(!has_else(t, 4));
    assert(body_len(t, 4) == a);
    assert(item_len(t, 0) == 4 + a);
    lemma_first_item(values, t);
    assert(t.skip(4 + a) =~= Seq::<char>::empty());
    assert(item_text(values, t, 0) + Seq::<char>::empty() =~= item_text(values, t, 0));
}

/// A conditional that the end of the string cuts off in its second branch
/// is read as if it were closed there.
pub proof fn lemma_unterminated_else(values: Values, key: char, yes: Seq<char>, no: Seq<char>)
    requires
        is_plain(yes, Mode::Then),
        is_plain(no, Mode::Else),
    ensures
        written(values, opening(key) + yes + seq!['&'] + no) == if truthy(values, key) {
            yes
        } else {
            no
        },
{
    let t = opening(key) + yes + seq!['&'] + no;
    let a = yes.len() as int;
    let b = no.len() as int;
    assert(t[0] == '%' && t[1] == '?' && t[2] == key && t[3] == '?');
    assert(t[4 + a] == '&');
    assert(t.subrange(4, 4 + a) =~= yes);
    assert(t.subrange(5 + a, 5 + a + b) =~= no);
    assert(token_at(t, 0) == Token::Open { key });
    lemma_plain_branch(values, t, 4, yes, Mode::Then);
    lemma_plain_branch(values, t, 5 + a, no, Mode::Else);
    assert(then_end(t, 4) == 4 + a);
    assert(has_else(t, 4));
    assert(body_len(t, 4) == a + 1 + b);
    assert(item_len(t, 0) == 5 + a + b);
    lemma_first_item(values, t);
    assert(t.skip(5 + a + b) =~= Seq::<char>::empty());
    assert(item_text(values, t, 0) + Seq::<char>::empty() =~= item_text(values, t, 0));
}

/// The total width fills up and never cuts: the line starts with all that
/// the items write, only spaces follow, and it is as long as the longer of
/// the two, what was written and the total width.
pub proof fn lemma_total_width_only_pads(values: Values, t: Seq<char>, total: nat)
    ensures
        render(values, t, 0) == written(values, t),
        render(values, t, total).len() == if written(values, t).len() >= total {
            written(values, t).len()
        } else {
            total
        },
        render(values, t, total).subrange(0, written(values, t).len() as int) == written(
            values,
            t,
        ),
        forall|j: int|
            written(values, t).len() <= j < render(values, t, total).len() ==> render(
                values,
                t,
                total,
            )[j] == ' ',
        written(values, t).len() >= total ==> render(values, t, total) == written(values, t),
{
    let w = written(values, t);
    let r = render(values, t, total);
    assert(r.subrange(0, w.len() as int) =~= w);
}

/// Writing the same format string twice with the same values in the same
/// width gives the same line twice.
pub proof fn lemma_same_line_twice(
    values: Values,
    t: Seq<char>,
    total: nat,
    first: Seq<char>,
    second: Seq<char>,
)
    requires
        first == render(values, t, total),
        second == render(values, t, total),
    ensures
        first == second,
{
}

/// Registering a key again replaces its value: only the value registered
/// last is kept.
pub proof fn lemma_last_value_wins(values: Values, key: char, a: Seq<char>, b: Seq<char>)
    ensures
        values.insert(key, a).insert(key, b) == values.insert(key, b),
        value_of(values.insert(key, a).insert(key, b), key) == b,
{
    assert(values.insert(key, a).insert(key, b) =~= values.insert(key, b));
}

} // verus!
