//! The forward-only, peekable cursor that every recognizer consumes from.
//!
//! A cursor borrows the whole input and carries only a position, so taking a
//! snapshot (`clone_position`) is O(1); a recognizer that fails mid-construct
//! rewinds by assigning the snapshot back over the cursor.

use vstd::prelude::*;

verus! {

/// A forward-only, peekable position over the input character sequence.
pub struct Cursor<'a> {
    text: &'a Vec<char>,
    pos: usize,
}

impl<'a> Cursor<'a> {
    /// The whole input as a sequence of characters (never changed by reads).
    pub closed spec fn src(&self) -> Seq<char> {
        self.text@
    }

    /// The current position: all characters before it have been consumed.
    pub closed spec fn at(&self) -> int {
        self.pos as int
    }

    /// The position never runs past the end of the input, whose length fits
    /// in a machine word.
    pub open spec fn wf(&self) -> bool {
        0 <= self.at() <= self.src().len() <= usize::MAX
    }

    /// What `peek` and `advance` see at the current position.
    pub open spec fn spec_peek(&self) -> Option<char> {
        if self.at() < self.src().len() {
            Some(self.src()[self.at()])
        } else {
            None
        }
    }

    /// A cursor standing at the start of `text`.
    pub fn new(text: &'a Vec<char>) -> (c: Cursor<'a>)
        ensures
            c.src() == text@,
            c.at() == 0,
            c.wf(),
    {
        proof {
            assert(text.len() == text@.len());
        }
        Cursor { text, pos: 0 }
    }

    /// Reads the next character without consuming it.
    pub fn peek(&self) -> (r: Option<char>)
        requires
            self.wf(),
        ensures
            r == self.spec_peek(),
    {
        if self.pos < self.text.len() {
            Some(self.text[self.pos])
        } else {
            None
        }
    }

    /// Consumes and returns the next character, if any.
    pub fn advance(&mut self) -> (r: Option<char>)
        requires
            old(self).wf(),
        ensures
            final(self).src() == old(self).src(),
            final(self).wf(),
            r == old(self).spec_peek(),
            old(self).at() < old(self).src().len() ==> final(self).at() == old(self).at() + 1,
            old(self).at() == old(self).src().len() ==> final(self).at() == old(self).at(),
    {
        if self.pos < self.text.len() {
            let c = self.text[self.pos];
            self.pos = self.pos + 1;
            Some(c)
        } else {
            None
        }
    }

    /// True when the next character is exactly `c`.
    pub fn peek_is(&self, c: char) -> (r: bool)
        requires
            self.wf(),
        ensures
            r == (self.spec_peek() == Some(c)),
    {
        match self.peek() {
            Some(d) => d == c,
            None => false,
        }
    }

    /// An O(1) snapshot of the current position, for speculative rewind.
    pub fn clone_position(&self) -> (c: Cursor<'a>)
        ensures
            c == *self,
    {
        Cursor { text: self.text, pos: self.pos }
    }
}

} // verus!
