//! A prompt for one line of text, as far as it decides: the state of the
//! line and what an event does to it.

use vstd::prelude::*;
use vstd::string::StringExecFns;
use crate::events::Key;
use crate::text;

verus! {

/// What the user did to the line.
#[derive(Clone, Copy, Debug, PartialEq, Eq, Structural)]
pub enum EditorEvent {
    Add(char),
    Left,
    Right,
    Delete,
    Backspace,
    Accept,
    Cancel,
    Idle,
}

/// What came of an event.
#[derive(Debug)]
pub enum PromptResult {
    /// The line was accepted as it stands.
    Accept(String),
    /// The prompt was left.
    Cancel,
    /// The prompt goes on.
    Pending,
}

/// The prompt with its state, ready to be drawn.
#[derive(Debug)]
pub struct Prompt {
    pub state: PromptState,
}

/// The question, the line so far and the cursor in it.  The cursor counts
/// characters.
#[derive(Debug)]
pub struct PromptState {
    prompt: String,
    input: Vec<char>,
    cursor_pos: usize,
}

/// The event that a key stands for.
pub open spec fn editor_event(key: Key) -> EditorEvent {
    match key {
        Key::Char(c) => EditorEvent::Add(c),
        Key::Left => EditorEvent::Left,
        Key::Right => EditorEvent::Right,
        Key::Enter => EditorEvent::Accept,
        Key::Esc => EditorEvent::Cancel,
        Key::Backspace => EditorEvent::Backspace,
        Key::Delete => EditorEvent::Delete,
        _ => EditorEvent::Idle,
    }
}

impl EditorEvent {
    /// The event that a key stands for: a character is added, the arrows
    /// move, Enter accepts and Esc cancels; other keys mean nothing.
    pub fn from_key(key: Key) -> (r: EditorEvent)
        ensures
            r == editor_event(key),
    {
        match key {
            Key::Char(c) => EditorEvent::Add(c),
            Key::Left => EditorEvent::Left,
            Key::Right => EditorEvent::Right,
            Key::Enter => EditorEvent::Accept,
            Key::Esc => EditorEvent::Cancel,
            Key::Backspace => EditorEvent::Backspace,
            Key::Delete => EditorEvent::Delete,
            _ => EditorEvent::Idle,
        }
    }
}

impl Prompt {
    /// The prompt in that state.
    pub fn new(state: PromptState) -> (r: Prompt)
        ensures
            r.state == state,
    {
        Prompt { state }
    }

    /// The line that is drawn: the question, a colon and the input.
    pub fn line(&self) -> (r: String)
        ensures
            r@ == self.state.question() + ": "@ + self.state@,
    {
        let input = text::string_of(&self.state.input);
        text::concat3(self.state.prompt.as_str(), ": ", input.as_str())
    }
}

impl PromptState {
    /// The input so far.
    pub closed spec fn view(&self) -> Seq<char> {
        self.input@
    }

    /// The question.
    pub closed spec fn question(&self) -> Seq<char> {
        self.prompt@
    }

    /// The place of the cursor.
    pub closed spec fn position(&self) -> nat {
        self.cursor_pos as nat
    }

    /// The cursor stands in the input or at its end.
    pub closed spec fn wf(&self) -> bool {
        self.cursor_pos <= self.input@.len()
    }

    /// A prompt that asks `prompt` and starts with `input`, the cursor
    /// behind it.
    pub fn new(prompt: &str, input: &str) -> (r: PromptState)
        ensures
            r.wf(),
            r.question() == prompt@,
            r@ == input@,
            r.position() == input@.len(),
    {
        let chars = text::chars_of(input);
        let cursor_pos = chars.len();
        PromptState { prompt: String::from_str(prompt), input: chars, cursor_pos }
    }

    /// The input so far.
    pub fn input(&self) -> (r: String)
        ensures
            r@ == self@,
    {
        text::string_of(&self.input)
    }

    /// The place of the cursor.
    pub fn cursor(&self) -> (r: usize)
        ensures
            r == self.position(),
    {
        self.cursor_pos
    }

    /// Takes in an event.  Accepting gives the input, cancelling gives
    /// nothing; every other event acts on the input and the prompt goes on.
    pub fn handle_input(&mut self, event: EditorEvent) -> (r: PromptResult)
        requires
            old(self).wf(),
        ensures
            final(self).wf(),
            final(self).question() == old(self).question(),
            event == EditorEvent::Accept ==> r is Accept && r->Accept_0@ == old(self)@,
            event == EditorEvent::Cancel ==> r is Cancel,
            event != EditorEvent::Accept && event != EditorEvent::Cancel ==> r is Pending,
            final(self)@ == match event {
                EditorEvent::Add(c) => old(self)@.insert(old(self).position() as int, c),
                EditorEvent::Delete => if old(self).position() < old(self)@.len() {
                    old(self)@.remove(old(self).position() as int)
                } else {
                    old(self)@
                },
                EditorEvent::Backspace => if old(self).position() > 0 {
                    old(self)@.remove(old(self).position() - 1)
                } else {
                    old(self)@
                },
                _ => old(self)@,
            },
            final(self).position() == match event {
                EditorEvent::Add(c) => old(self).position() + 1,
                EditorEvent::Left | EditorEvent::Backspace => if old(self).position() > 0 {
                    (old(self).position() - 1) as nat
                } else {
                    0
                },
                EditorEvent::Right => if old(self).position() < old(self)@.len() {
                    old(self).position() + 1
                } else {
                    old(self).position()
                },
                _ => old(self).position(),
            },
    {
        match event {
            EditorEvent::Add(c) => self.add(c),
            EditorEvent::Left => self.left(),
            EditorEvent::Right => self.right(),
            EditorEvent::Delete => self.delete(),
            EditorEvent::Backspace => self.backspace(),
            EditorEvent::Accept => {
                return PromptResult::Accept(self.input());
            },
            EditorEvent::Cancel => {
                return PromptResult::Cancel;
            },
            EditorEvent::Idle => {},
        }
        PromptResult::Pending
    }

    /// Puts `c` where the cursor stands and the cursor behind it.
    pub fn add(&mut self, c: char)
        requires
            old(self).wf(),
        ensures
            final(self).wf(),
            final(self).question() == old(self).question(),
            final(self)@ == old(self)@.insert(old(self).position() as int, c),
            final(self).position() == old(self).position() + 1,
    {
        self.input.insert(self.cursor_pos, c);
        assert(self.input@.len() == self.input.len());
        self.cursor_pos += 1;
    }

    /// Moves the cursor one character to the left, unless it stands at the
    /// start.
    pub fn left(&mut self)
        requires
            old(self).wf(),
        ensures
            final(self).wf(),
            final(self).question() == old(self).question(),
            final(self)@ == old(self)@,
            final(self).position() == if old(self).position() > 0 {
                (old(self).position() - 1) as nat
            } else {
                0
            },
    {
        if self.cursor_pos > 0 {
            self.cursor_pos -= 1;
        }
    }

    /// Moves the cursor one character to the right, unless it stands at the
    /// end.
    pub fn right(&mut self)
        requires
            old(self).wf(),
        ensures
            final(self).wf(),
            final(self).question() == old(self).question(),
            final(self)@ == old(self)@,
            final(self).position() == if old(self).position() < old(self)@.len() {
                old(self).position() + 1
            } else {
                old(self).position()
            },
    {
        if self.cursor_pos < self.input.len() {
            self.cursor_pos += 1;
        }
    }

    /// Takes out the character under the cursor, if there is one.
    pub fn delete(&mut self)
        requires
            old(self).wf(),
        ensures
            final(self).wf(),
            final(self).question() == old(self).question(),
            final(self).position() == old(self).position(),
            final(self)@ == if old(self).position() < old(self)@.len() {
                old(self)@.remove(old(self).position() as int)
            } else {
                old(self)@
            },
    {
        if self.cursor_pos < self.input.len() && self.input.len() > 0 {
            self.input.remove(self.cursor_pos);
        }
    }

    /// Takes out the character before the cursor, if there is one.
    pub fn backspace(&mut self)
        requires
            old(self).wf(),
        ensures
            final(self).wf(),
            final(self).question() == old(self).question(),
            final(self)@ == if old(self).position() > 0 {
                old(self)@.remove(old(self).position() - 1)
            } else {
                old(self)@
            },
            final(self).position() == if old(self).position() > 0 {
                (old(self).position() - 1) as nat
            } else {
                0
            },
    {
        if self.cursor_pos > 0 {
            self.input.remove(self.cursor_pos - 1);
            self.cursor_pos -= 1;
        }
    }
}

/// What a prompt leaves behind when it ends: the accepted line, or nothing
/// where it was cancelled.
pub fn one_liner(result: PromptResult, current: String) -> (r: Option<String>)
    ensures
        r is Some <==> !(result is Pending),
        result is Accept ==> r->0@ == result->Accept_0@,
        result is Cancel ==> r->0@ == Seq::<char>::empty(),
{
    match result {
        PromptResult::Accept(s) => Some(s),
        PromptResult::Cancel => Some(String::new()),
        PromptResult::Pending => None,
    }
}

} // verus!
