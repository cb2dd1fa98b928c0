//! One line of text with a cursor in it.

use vstd::prelude::*;
use crate::text;

verus! {

/// The line and the cursor.  The cursor counts characters and stands before
/// the character it names, or behind the last one.
#[derive(Debug)]
pub struct OneLineBuffer {
    text: Vec<char>,
    cursor: usize,
}

impl OneLineBuffer {
    /// The characters of the line.
    pub closed spec fn view(&self) -> Seq<char> {
        self.text@
    }

    /// The place of the cursor.
    pub closed spec fn position(&self) -> nat {
        self.cursor as nat
    }

    /// The cursor stands in the line or at its end.
    pub closed spec fn wf(&self) -> bool {
        self.cursor <= self.text@.len()
    }

    /// A buffer that holds `text`, the cursor before its first character.
    pub fn new(text: &str) -> (r: OneLineBuffer)
        ensures
            r.wf(),
            r@ == text@,
            r.position() == 0,
    {
        OneLineBuffer { text: text::chars_of(text), cursor: 0 }
    }

    /// The text of the line.
    pub fn text(&self) -> (r: String)
        ensures
            r@ == self@,
    {
        text::string_of(&self.text)
    }

    /// The text as it is shown.
    pub fn display(&self) -> (r: String)
        ensures
            r@ == self@,
    {
        text::string_of(&self.text)
    }

    /// The place of the cursor.
    pub fn cursor(&self) -> (r: usize)
        ensures
            r == self.position(),
    {
        self.cursor
    }

    /// Empties the line.
    pub fn clear(&mut self)
        ensures
            final(self).wf(),
            final(self)@ == Seq::<char>::empty(),
            final(self).position() == 0,
    {
        self.text.clear();
        self.cursor = 0;
    }

    /// Takes out the character before the cursor, if there is one.
    pub fn backspace(&mut self)
        requires
            old(self).wf(),
        ensures
            final(self).wf(),
            old(self).position() > 0 ==> final(self)@ == old(self)@.remove(old(self).position() - 1)
                && final(self).position() == old(self).position() - 1,
            old(self).position() == 0 ==> final(self)@ == old(self)@ && final(self).position() == 0,
    {
        if self.cursor > 0 {
            self.text.remove(self.cursor - 1);
            self.cursor -= 1;
        }
    }

    /// Takes out the character under the cursor, if there is one.
    pub fn delete(&mut self)
        requires
            old(self).wf(),
        ensures
            final(self).wf(),
            final(self).position() == old(self).position(),
            old(self).position() < old(self)@.len() ==> final(self)@ == old(self)@.remove(
                old(self).position() as int,
            ),
            old(self).position() >= old(self)@.len() ==> final(self)@ == old(self)@,
    {
        if self.cursor < self.text.len() {
            self.text.remove(self.cursor);
        }
    }

    /// Puts the cursor before the first character.
    pub fn home(&mut self)
        requires
            old(self).wf(),
        ensures
            final(self).wf(),
            final(self)@ == old(self)@,
            final(self).position() == 0,
    {
        self.cursor = 0;
    }

    /// Puts the cursor behind the last character.
    pub fn end(&mut self)
        requires
            old(self).wf(),
        ensures
            final(self).wf(),
            final(self)@ == old(self)@,
            final(self).position() == old(self)@.len(),
    {
        self.cursor = self.text.len();
    }

    /// Moves the cursor one character to the left, unless it stands at the
    /// start.
    pub fn left(&mut self)
        requires
            old(self).wf(),
        ensures
            final(self).wf(),
            final(self)@ == old(self)@,
            final(self).position() == if old(self).position() > 0 {
                (old(self).position() - 1) as nat
            } else {
                0
            },
    {
        if self.cursor > 0 {
            self.cursor -= 1;
        }
    }

    /// Moves the cursor one character to the right, unless it stands at the
    /// end.
    pub fn right(&mut self)
        requires
            old(self).wf(),
        ensures
            final(self).wf(),
            final(self)@ == old(self)@,
            final(self).position() == if old(self).position() < old(self)@.len() {
                old(self).position() + 1
            } else {
                old(self).position()
            },
    {
        if self.cursor < self.text.len() {
            self.cursor += 1;
        }
    }

    /// Puts `c` where the cursor stands and the cursor behind it.
    pub fn insert(&mut self, c: char)
        requires
            old(self).wf(),
        ensures
            final(self).wf(),
            final(self)@ == old(self)@.insert(old(self).position() as int, c),
            final(self).position() == old(self).position() + 1,
    {
        self.text.insert(self.cursor, c);
        assert(self.text@.len() == self.text.len());
        self.cursor += 1;
    }
}

} // verus!
