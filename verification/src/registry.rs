//! The values registered with a formatter, one for each key.

use crate::render::{truthy, Values};
use std::collections::BTreeMap;
use vstd::prelude::*;

verus! {

/// An ordered table from a key, which is one character, to the value that
/// stands for it. A key has at most one value: registering it again
/// replaces the value.
pub struct Registry {
    entries: BTreeMap<u32, String>,
}

impl View for Registry {
    type V = Values;

    closed spec fn view(&self) -> Values {
        Map::new(
            |key: char| self.entries@.contains_key(key as u32),
            |key: char| self.entries@[key as u32]@,
        )
    }
}

/// Two characters with the same code are the same character.
proof fn lemma_code_of_char(a: char, b: char)
    ensures
        a as u32 == b as u32 <==> a == b,
{
}

impl Registry {
    /// A table without entries.
    pub fn new() -> (r: Registry)
        ensures
            r@ == Map::<char, Seq<char>>::empty(),
    {
        Registry { entries: BTreeMap::new() }
    }

    /// Makes `value` the value of `key`, whether or not `key` had one, and
    /// leaves every other key as it was.
    pub fn register(&mut self, key: char, value: String)
        ensures
            final(self)@ == old(self)@.insert(key, value@),
    {
        self.entries.insert(key as u32, value);
        proof {
            assert forall|other: char| #[trigger]
                self@.contains_key(other) == old(self)@.insert(key, value@).contains_key(
                    other,
                ) by {
                lemma_code_of_char(other, key);
            }
            assert forall|other: char| self@.contains_key(other) implies #[trigger] self@[other]
                == old(self)@.insert(key, value@)[other] by {
                lemma_code_of_char(other, key);
            }
            assert(self@ =~= old(self)@.insert(key, value@));
        }
    }

    /// The value of `key`, or `None` if `key` has none.
    pub fn lookup(&self, key: char) -> (r: Option<&String>)
        ensures
            r is Some <==> self@.contains_key(key),
            r matches Some(value) ==> value@ == self@[key],
    {
        let code: u32 = key as u32;
        self.entries.get(&code)
    }

    /// Tells whether `key` has a value that is not empty.
    pub fn is_truthy(&self, key: char) -> (r: bool)
        ensures
            r == truthy(self@, key),
    {
        match self.lookup(key) {
            Some(value) => !value.as_str().is_empty(),
            None => false,
        }
    }
}

} // verus!
