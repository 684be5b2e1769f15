//! A cursor over the characters of a text, with one character of lookahead.

use vstd::prelude::*;

verus! {

/// The characters of a text that are still to be read.
pub struct CharCursor {
    chars: Vec<char>,
    position: usize,
}

impl CharCursor {
    #[verifier::type_invariant]
    spec fn in_bounds(&self) -> bool {
        self.position <= self.chars.len()
    }

    /// The characters that have not been consumed yet, next one first.
    pub closed spec fn remaining(&self) -> Seq<char> {
        self.chars@.skip(self.position as int)
    }

    /// A cursor at the start of `text`.
    pub fn new(text: &str) -> (cursor: Self)
        ensures
            cursor.remaining() == text@,
    {
        let mut chars: Vec<char> = Vec::new();
        for c in it: text.chars()
            invariant
                it.seq() == text@,
                chars@ == it.seq().take(it.index() as int),
        {
            chars.push(c);
        }
        CharCursor { chars, position: 0 }
    }

    /// Whether every character has been consumed.
    pub fn is_empty(&self) -> (empty: bool)
        ensures
            empty == (self.remaining().len() == 0),
    {
        proof {
            use_type_invariant(self);
        }
        self.position >= self.chars.len()
    }

    /// The next character, which stays in place.
    pub fn peek(&self) -> (next: Option<char>)
        ensures
            next == if self.remaining().len() > 0 {
                Some(self.remaining()[0])
            } else {
                None
            },
    {
        proof {
            use_type_invariant(self);
        }
        if self.position < self.chars.len() {
            Some(self.chars[self.position])
        } else {
            None
        }
    }

    /// The character after the next one, which stays in place too.
    pub fn peek_second(&self) -> (second: Option<char>)
        ensures
            second == if self.remaining().len() > 1 {
                Some(self.remaining()[1])
            } else {
                None
            },
    {
        proof {
            use_type_invariant(self);
        }
        if self.position < self.chars.len() && self.position + 1 < self.chars.len() {
            Some(self.chars[self.position + 1])
        } else {
            None
        }
    }

    /// Consumes and returns the next character.
    pub fn next(&mut self) -> (next: Option<char>)
        ensures
            next == if old(self).remaining().len() > 0 {
                Some(old(self).remaining()[0])
            } else {
                None
            },
            final(self).remaining() == if old(self).remaining().len() > 0 {
                old(self).remaining().skip(1)
            } else {
                old(self).remaining()
            },
    {
        proof {
            use_type_invariant(&*self);
        }
        if self.position < self.chars.len() {
            let c = self.chars[self.position];
            self.position = self.position + 1;
            assert(self.chars@.skip(self.position as int) =~= self.chars@.skip(
                self.position - 1,
            ).skip(1));
            Some(c)
        } else {
            None
        }
    }
}

} // verus!
