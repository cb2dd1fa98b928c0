//! What the terminal tells a prompt and what a prompt tells its caller.

use vstd::prelude::*;

verus! {

/// How a prompt ended.
#[derive(Debug)]
pub enum CandyEvent {
    /// A line of text was entered.
    Submit(String),
    /// A question was answered.
    Confirm(Option<String>),
    /// Options were chosen.
    Select(Vec<String>),
    /// The prompt was left without an answer.
    Cancel,
}

/// A key of the keyboard, as far as the prompts care.
#[derive(Clone, Copy, Debug, PartialEq, Eq, Structural)]
pub enum Key {
    Char(char),
    Home,
    End,
    Left,
    Right,
    Up,
    Down,
    PageUp,
    PageDown,
    Backspace,
    Delete,
    Enter,
    Esc,
    Other,
}

} // verus!
