//! The formatter: a registry of values and the interpreter that writes a
//! format string with them.

use crate::grammar::{branch_len, has_else, item_len, then_end, token_at, Mode, Token};
use crate::registry::Registry;
use crate::render::{
    item_text, lemma_branch_step, pad, render, render_branch, token_text, Values,
};
use crate::scanner::{next_token, stops_at};
use crate::text::{chars_of, first_char, push_spaces};
use vstd::prelude::*;
use vstd::string::*;

verus! {

/// A formatter: the values registered so far, ready to write format strings
/// with them.
pub struct FmtStrFormatter {
    registry: Registry,
}

impl View for FmtStrFormatter {
    type V = Values;

    closed spec fn view(&self) -> Values {
        self.registry@
    }
}

/// The values after `value` was registered under the key that `key` names:
/// its first character. An empty `key` names none, and `values` stay as they
/// are.
pub open spec fn with_key(values: Values, key: Seq<char>, value: Seq<char>) -> Values {
    if key.len() > 0 {
        values.insert(key[0], value)
    } else {
        values
    }
}

impl FmtStrFormatter {
    /// A formatter with no value registered.
    pub fn new() -> (r: FmtStrFormatter)
        ensures
            r@ == Map::<char, Seq<char>>::empty(),
    {
        FmtStrFormatter { registry: Registry::new() }
    }

    /// Registers `value` for `key`. A value registered for `key` before is
    /// replaced; the other keys keep theirs.
    pub fn register_fmt(&mut self, key: char, value: String)
        ensures
            final(self)@ == old(self)@.insert(key, value@),
    {
        self.registry.register(key, value);
    }

    /// Registers `value` for the first character of `key`; the characters
    /// after it are not looked at. With an empty `key` nothing is
    /// registered.
    pub fn register_key(&mut self, key: &str, value: String)
        ensures
            final(self)@ == with_key(old(self)@, key@, value@),
    {
        match first_char(key) {
            Some(c) => self.register_fmt(c, value),
            None => {},
        }
    }

    /// The value registered for `key`, or `None` if there is none.
    pub fn lookup(&self, key: char) -> (r: Option<&String>)
        ensures
            r is Some <==> self@.contains_key(key),
            r matches Some(value) ==> value@ == self@[key],
    {
        self.registry.lookup(key)
    }

    /// Appends to `out` what `token` writes.
    fn write_token(&self, token: Token, out: &mut String)
        ensures
            final(out)@ == old(out)@ + token_text(self@, token),
    {
        match token {
            Token::Literal { c } => {
                out.push(c);
                assert(out@ =~= old(out)@ + seq![c]);
            },
            Token::Percent => {
                out.push('%');
                assert(out@ =~= old(out)@ + seq!['%']);
            },
            Token::Raw { c } => {
                out.push('%');
                out.push(c);
                assert(out@ =~= old(out)@ + seq!['%', c]);
            },
            Token::Open { .. } => {
                assert(out@ =~= old(out)@ + Seq::<char>::empty());
            },
            Token::Field { key, width, left } => {
                match self.registry.lookup(key) {
                    Some(value) => {
                        let n = value.as_str().unicode_len();
                        let fill: usize = if n < width as usize {
                            width as usize - n
                        } else {
                            0
                        };
                        if !left {
                            push_spaces(out, fill);
                        }
                        out.append(value.as_str());
                        if left {
                            push_spaces(out, fill);
                        }
                        assert(out@ =~= old(out)@ + pad(value@, width as nat, left));
                    },
                    None => {
                        push_spaces(out, width as usize);
                        assert(out@ =~= old(out)@ + pad(Seq::empty(), width as nat, left));
                    },
                }
            },
        }
    }

    /// Reads the conditional whose opening, on the key `key`, stands at
    /// position `pos` of `t`; appends to `out` what it writes if `emit` is
    /// set; and returns the position behind the conditional.
    fn walk_conditional(
        &self,
        t: &[char],
        pos: usize,
        key: char,
        emit: bool,
        out: &mut String,
    ) -> (next: usize)
        requires
            pos < t.len(),
            token_at(t@, pos as int) == (Token::Open { key }),
        ensures
            next == pos + item_len(t@, pos as int),
            next <= t.len(),
            emit ==> final(out)@ == old(out)@ + item_text(self@, t@, pos as int),
            !emit ==> final(out)@ == old(out)@,
        decreases t.len() - pos, 0nat,
    {
        let chosen = self.registry.is_truthy(key);
        let mut end = self.walk(t, pos + 4, Mode::Then, emit && chosen, out);
        assert(end == then_end(t@, pos + 4));
        if end < t.len() && t[end] == '&' {
            assert(has_else(t@, pos + 4));
            end = self.walk(t, end + 1, Mode::Else, emit && !chosen, out);
        } else {
            assert(!has_else(t@, pos + 4));
        }
        assert(emit ==> out@ =~= old(out)@ + item_text(self@, t@, pos as int));
        assert(!emit ==> out@ =~= old(out)@);
        if end < t.len() {
            end + 1
        } else {
            end
        }
    }

    /// Reads the branch that starts at position `start` of `t` in `mode`,
    /// appends to `out` what it writes if `emit` is set, and returns the
    /// position at which the branch ends.
    fn walk(&self, t: &[char], start: usize, mode: Mode, emit: bool, out: &mut String) -> (end:
        usize)
        requires
            start <= t.len(),
        ensures
            end == start + branch_len(t@, start as int, mode),
            end <= t.len(),
            emit ==> final(out)@ == old(out)@ + render_branch(self@, t@, start as int, mode),
            !emit ==> final(out)@ == old(out)@,
        decreases t.len() - start, 1nat,
    {
        let mut pos: usize = start;
        let ghost mut done: Seq<char> = Seq::empty();
        while pos < t.len() && !stops_at(mode, t[pos])
            invariant
                start <= pos <= t.len(),
                start + branch_len(t@, start as int, mode) == pos + branch_len(
                    t@,
                    pos as int,
                    mode,
                ),
                render_branch(self@, t@, start as int, mode) == done + render_branch(
                    self@,
                    t@,
                    pos as int,
                    mode,
                ),
                emit ==> out@ == old(out)@ + done,
                !emit ==> out@ == old(out)@,
            decreases t.len() - pos,
        {
            let ghost item = item_text(self@, t@, pos as int);
            let ghost rest = render_branch(self@, t@, pos + item_len(t@, pos as int), mode);
            let ghost before = out@;
            proof {
                lemma_branch_step(self@, t@, pos as int, mode);
                assert(done + (item + rest) =~= (done + item) + rest);
            }
            let (token, len) = next_token(t, pos);
            match token {
                Token::Open { key } => {
                    pos = self.walk_conditional(t, pos, key, emit, out);
                },
                _ => {
                    if emit {
                        self.write_token(token, out);
                    }
                    pos = pos + len;
                },
            }
            proof {
                if emit {
                    assert(out@ == before + item);
                    assert(before + item =~= old(out)@ + (done + item));
                }
                done = done + item;
            }
        }
        proof {
            assert(render_branch(self@, t@, pos as int, mode) =~= Seq::<char>::empty());
            assert(done + Seq::<char>::empty() =~= done);
        }
        pos
    }

    /// Writes the format string `format` with the registered values, in a
    /// line of at least `width` characters. Every format string is written:
    /// what is no directive stands for itself.
    pub fn do_format(&self, format: &str, width: u32) -> (r: String)
        ensures
            r@ == render(self@, format@, width as nat),
    {
        let t = chars_of(format);
        let mut out = String::new();
        self.walk(t.as_slice(), 0, Mode::Top, true, &mut out);
        let n = out.as_str().unicode_len();
        if n < width as usize {
            push_spaces(&mut out, width as usize - n);
        }
        out
    }
}

} // verus!
