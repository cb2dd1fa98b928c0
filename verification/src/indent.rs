//! Indenting a text line by line.

use vstd::prelude::*;
use vstd::string::StringExecFns;
use crate::text;

verus! {

/// `unit` written `count` times.
pub open spec fn repeat_spec(unit: Seq<char>, count: nat) -> Seq<char>
    decreases count,
{
    if count == 0 {
        Seq::empty()
    } else {
        repeat_spec(unit, (count - 1) as nat) + unit
    }
}

/// Every line with `prefix` before it.
pub open spec fn prefixed(lines: Seq<Seq<char>>, prefix: Seq<char>) -> Seq<Seq<char>> {
    Seq::new(lines.len(), |i: int| prefix + lines[i])
}

/// The text with `prefix` before each of its lines.
pub open spec fn prefix_lines(text: Seq<char>, prefix: Seq<char>) -> Seq<char> {
    text::join_spec(prefixed(text::split_spec(text, '\n'), prefix), "\n"@)
}

/// The text with `unit`, written `depth` times, before each of its lines.
pub open spec fn indent_with_spec(text: Seq<char>, unit: Seq<char>, depth: nat) -> Seq<char> {
    prefix_lines(text, repeat_spec(unit, depth))
}

/// `unit` written `count` times.
pub fn repeat(unit: &str, count: usize) -> (r: String)
    ensures
        r@ == repeat_spec(unit@, count as nat),
{
    let mut out = String::new();
    let mut i: usize = 0;
    while i < count
        invariant
            i <= count,
            out@ == repeat_spec(unit@, i as nat),
        decreases count - i,
    {
        out.append(unit);
        i += 1;
    }
    out
}

/// The text with `prefix` before each of its lines.
pub fn prefix_each_line(text: &str, prefix: &str) -> (r: String)
    ensures
        r@ == prefix_lines(text@, prefix@),
{
    let lines = text::split(text, '\n');
    let mut out: Vec<String> = Vec::new();
    let mut i: usize = 0;
    while i < lines.len()
        invariant
            i <= lines.len(),
            text::views(out@) =~= prefixed(text::views(lines@), prefix@).take(i as int),
        decreases lines.len() - i,
    {
        let ghost before = text::views(out@);
        let line = text::concat(prefix, lines[i].as_str());
        out.push(line);
        assert(text::views(out@) =~= before.push(prefix@ + lines@[i as int]@));
        i += 1;
    }
    assert(text::views(out@) =~= prefixed(text::views(lines@), prefix@));
    text::join(&out, "\n")
}

/// A text that can be indented.
pub trait Indentable {
    /// The text that is indented.
    spec fn shown(&self) -> Seq<char>;

    /// The text with so many spaces before each of its lines.
    fn indent(&self, spaces: usize) -> (r: String)
        ensures
            r@ == indent_with_spec(self.shown(), " "@, spaces as nat),
    ;

    /// The text with `indent_str`, written `depth` times, before each of
    /// its lines.
    fn indent_with(&self, indent_str: &str, depth: usize) -> (r: String)
        ensures
            r@ == indent_with_spec(self.shown(), indent_str@, depth as nat),
    ;
}

impl Indentable for String {
    open spec fn shown(&self) -> Seq<char> {
        self@
    }

    fn indent(&self, spaces: usize) -> (r: String) {
        self.indent_with(" ", spaces)
    }

    fn indent_with(&self, indent_str: &str, depth: usize) -> (r: String) {
        let prefix = repeat(indent_str, depth);
        prefix_each_line(self.as_str(), prefix.as_str())
    }
}

impl Indentable for &str {
    open spec fn shown(&self) -> Seq<char> {
        self@
    }

    fn indent(&self, spaces: usize) -> (r: String) {
        self.indent_with(" ", spaces)
    }

    fn indent_with(&self, indent_str: &str, depth: usize) -> (r: String) {
        let prefix = repeat(indent_str, depth);
        prefix_each_line(*self, prefix.as_str())
    }
}

} // verus!
