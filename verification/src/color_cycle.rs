//! The colours that tell the branches of a stack apart.

use vstd::prelude::*;
use vstd::string::StringExecFns;

verus! {

/// A colour of the palette.
#[derive(Clone, Copy, Debug, PartialEq, Eq, Structural)]
pub enum Color {
    Cyan,
    Magenta,
    BrightGreen,
    BrightRed,
    Blue,
    Yellow,
    BrightYellow,
}

/// How many colours the palette has.
pub const PALETTE_SIZE: usize = 7;

/// The escape sequence that ends every colour.
pub const RESET: &'static str = "\x1b[0m";

/// The palette, in the order in which the cycle walks it.
pub open spec fn palette() -> Seq<Color> {
    seq![
        Color::Cyan,
        Color::Magenta,
        Color::BrightGreen,
        Color::BrightRed,
        Color::Blue,
        Color::Yellow,
        Color::BrightYellow,
    ]
}

/// The place of a colour in the palette.
pub open spec fn shade_of(color: Color) -> int {
    match color {
        Color::Cyan => 0,
        Color::Magenta => 1,
        Color::BrightGreen => 2,
        Color::BrightRed => 3,
        Color::Blue => 4,
        Color::Yellow => 5,
        Color::BrightYellow => 6,
    }
}

impl Color {
    /// The escape sequence that switches the terminal to this colour.
    pub open spec fn code_spec(self) -> Seq<char> {
        match self {
            Color::Cyan => "\x1b[36m"@,
            Color::Magenta => "\x1b[35m"@,
            Color::BrightGreen => "\x1b[92m"@,
            Color::BrightRed => "\x1b[91m"@,
            Color::Blue => "\x1b[34m"@,
            Color::Yellow => "\x1b[33m"@,
            Color::BrightYellow => "\x1b[93m"@,
        }
    }

    /// `text` between this colour's escape sequence and the reset.
    pub open spec fn paint_spec(self, text: Seq<char>) -> Seq<char> {
        self.code_spec() + text + RESET@
    }

    /// The escape sequence that switches the terminal to this colour.
    pub fn code(&self) -> (r: &'static str)
        ensures
            r@ == self.code_spec(),
    {
        match self {
            Color::Cyan => "\x1b[36m",
            Color::Magenta => "\x1b[35m",
            Color::BrightGreen => "\x1b[92m",
            Color::BrightRed => "\x1b[91m",
            Color::Blue => "\x1b[34m",
            Color::Yellow => "\x1b[33m",
            Color::BrightYellow => "\x1b[93m",
        }
    }

    /// The text in this colour.
    pub fn paint(&self, text: &str) -> (r: String)
        ensures
            r@ == self.paint_spec(text@),
    {
        String::from_str(self.code()).concat(text).concat(RESET)
    }

    /// The colour at a place of the palette, counted round and round.
    pub fn at(index: usize) -> (r: Color)
        ensures
            r == palette()[(index % PALETTE_SIZE) as int],
            shade_of(r) == index % PALETTE_SIZE,
    {
        let i = index % PALETTE_SIZE;
        if i == 0 {
            Color::Cyan
        } else if i == 1 {
            Color::Magenta
        } else if i == 2 {
            Color::BrightGreen
        } else if i == 3 {
            Color::BrightRed
        } else if i == 4 {
            Color::Blue
        } else if i == 5 {
            Color::Yellow
        } else {
            Color::BrightYellow
        }
    }
}

/// A walk round the palette that never ends.
#[derive(Debug)]
pub struct ColorCycle {
    cycle: Vec<Color>,
    index: usize,
}

impl ColorCycle {
    /// The cycle holds the palette and stands on one of its colours.
    pub closed spec fn wf(&self) -> bool {
        self.cycle@ == palette() && self.index < PALETTE_SIZE
    }

    /// The place in the palette on which the cycle stands.
    pub closed spec fn position(&self) -> int {
        self.index as int
    }

    /// A cycle that stands on the first colour.
    pub fn new() -> (r: Self)
        ensures
            r.wf(),
            r.position() == 0,
    {
        let mut cycle: Vec<Color> = Vec::new();
        cycle.push(Color::Cyan);
        cycle.push(Color::Magenta);
        cycle.push(Color::BrightGreen);
        cycle.push(Color::BrightRed);
        cycle.push(Color::Blue);
        cycle.push(Color::Yellow);
        cycle.push(Color::BrightYellow);
        assert(cycle@ =~= palette());
        Self { cycle, index: 0 }
    }

    /// The text in the colour on which the cycle stands.
    pub fn colorize(self, text: &str) -> (r: String)
        requires
            self.wf(),
        ensures
            r@ == palette()[self.position()].paint_spec(text@),
    {
        self.color().paint(text)
    }

    /// Steps to the next colour, the first one after the last, and gives it.
    pub fn advance(&mut self) -> (r: Color)
        requires
            old(self).wf(),
        ensures
            final(self).wf(),
            final(self).position() == (old(self).position() + 1) % (PALETTE_SIZE as int),
            r == palette()[final(self).position()],
    {
        self.index = (self.index + 1) % self.cycle.len();
        self.color()
    }

    /// The colour on which the cycle stands.
    pub fn color(&self) -> (r: Color)
        requires
            self.wf(),
        ensures
            r == palette()[self.position()],
    {
        self.cycle[self.index]
    }
}

} // verus!
