//! Styled text and the lines that a screen keeps of it.

use vstd::prelude::*;
use vstd::string::StringExecFns;
use crate::indent;
use crate::text;

verus! {

/// A colour of the screen.
#[derive(Clone, Copy, Debug, PartialEq, Eq, Structural)]
pub enum TuiColor {
    Red,
    Green,
    Blue,
    Cyan,
    White,
    Yellow,
    Reset,
}

/// A piece of text in one style.
#[derive(Debug)]
pub struct Span {
    pub content: String,
    pub fg: Option<TuiColor>,
    pub bg: Option<TuiColor>,
}

/// A text made of pieces in their styles.
#[derive(Debug)]
pub struct GrString {
    pub spans: Vec<Span>,
}

/// The lines that the screen keeps.
#[derive(Debug)]
pub struct Tui {
    pub scrollback: Vec<Vec<Span>>,
}

/// How many lines the screen keeps.
pub const SCROLLBACK_LINES: usize = 100;

/// A piece as plain values: its text, its colour and its background.
pub type SpanView = (Seq<char>, Option<TuiColor>, Option<TuiColor>);

/// The pieces as plain values.
pub open spec fn span_views(v: Seq<Span>) -> Seq<SpanView> {
    Seq::new(v.len(), |i: int| (v[i].content@, v[i].fg, v[i].bg))
}

/// The lines as plain values.
pub open spec fn line_views(v: Seq<Vec<Span>>) -> Seq<Seq<SpanView>> {
    Seq::new(v.len(), |i: int| span_views(v[i]@))
}

/// The lines that the first `n` pieces fill, and the pieces of the line
/// that is still open.  A piece with a line feed in it ends its line.
pub open spec fn grouped(spans: Seq<SpanView>, n: int) -> (Seq<Seq<SpanView>>, Seq<SpanView>)
    decreases n,
{
    if n <= 0 {
        (Seq::empty(), Seq::empty())
    } else {
        let (lines, open) = grouped(spans, n - 1);
        if spans[n - 1].0.contains('\n') {
            (lines.push(open.push(spans[n - 1])), Seq::empty())
        } else {
            (lines, open.push(spans[n - 1]))
        }
    }
}

/// The newest lines, as many as the screen keeps.
pub open spec fn newest(lines: Seq<Seq<SpanView>>) -> Seq<Seq<SpanView>> {
    if lines.len() > SCROLLBACK_LINES {
        lines.skip(lines.len() - SCROLLBACK_LINES)
    } else {
        lines
    }
}

/// What the screen keeps once the pieces are printed: the lines it had and
/// the lines that the pieces fill, a last one that no line feed ends among
/// them; of all these the newest.
pub open spec fn printed(scrollback: Seq<Seq<SpanView>>, spans: Seq<SpanView>) -> Seq<Seq<SpanView>> {
    let (lines, open) = grouped(spans, spans.len() as int);
    newest(
        scrollback + lines + if open.len() > 0 {
            seq![open]
        } else {
            Seq::empty()
        },
    )
}

impl Span {
    /// The same piece once more.
    pub fn copy(&self) -> (r: Span)
        ensures
            r.content@ == self.content@,
            r.fg == self.fg,
            r.bg == self.bg,
    {
        Span { content: self.content.clone(), fg: self.fg, bg: self.bg }
    }
}

impl GrString {
    pub open spec fn view(&self) -> Seq<SpanView> {
        span_views(self.spans@)
    }

    /// The plain text as one piece.
    pub fn from(s: String) -> (r: GrString)
        ensures
            r@ == seq![(s@, None::<TuiColor>, None::<TuiColor>)],
    {
        let mut spans: Vec<Span> = Vec::new();
        spans.push(Span { content: s, fg: None, bg: None });
        let out = GrString { spans };
        assert(out@ =~= seq![(s@, None::<TuiColor>, None::<TuiColor>)]);
        out
    }

    /// The text in one style.
    pub fn styled(s: String, fg: Option<TuiColor>, bg: Option<TuiColor>) -> (r: GrString)
        ensures
            r@ == seq![(s@, fg, bg)],
    {
        let mut spans: Vec<Span> = Vec::new();
        spans.push(Span { content: s, fg, bg });
        let out = GrString { spans };
        assert(out@ =~= seq![(s@, fg, bg)]);
        out
    }

    /// The text behind so many blanks.
    pub fn indent(&self, depth: usize) -> (r: GrString)
        ensures
            r@ == seq![(indent::repeat_spec(" "@, depth as nat), None::<TuiColor>, None::<TuiColor>)]
                + self@,
    {
        GrString::from(indent::repeat(" ", depth)).add(self)
    }

    /// This text and then the other.
    pub fn add(self, rhs: &GrString) -> (r: GrString)
        ensures
            r@ == self@ + rhs@,
    {
        let mut spans = self.spans;
        let ghost start = span_views(spans@);
        let mut i: usize = 0;
        assert(span_views(spans@) =~= start + rhs@.take(0));
        while i < rhs.spans.len()
            invariant
                i <= rhs.spans@.len(),
                span_views(spans@) == start + rhs@.take(i as int),
            decreases rhs.spans@.len() - i,
        {
            let ghost before = span_views(spans@);
            spans.push(rhs.spans[i].copy());
            assert(span_views(spans@) =~= before.push(rhs@[i as int]));
            assert(span_views(spans@) =~= start + rhs@.take(i + 1));
            i += 1;
        }
        assert(rhs@.take(rhs@.len() as int) =~= rhs@);
        GrString { spans }
    }

    /// This text and then the plain text.
    pub fn add_str(self, rhs: &str) -> (r: GrString)
        ensures
            r@ == self@ + seq![(rhs@, None::<TuiColor>, None::<TuiColor>)],
    {
        let tail = GrString::from(String::from_str(rhs));
        self.add(&tail)
    }
}

/// A text that can be given a colour.
pub trait Colorize {
    /// The text that is coloured.
    spec fn uncoloured(&self) -> Seq<char>;

    fn fg(&self, color: TuiColor) -> (r: GrString)
        ensures
            r@ == seq![(self.uncoloured(), Some(color), None::<TuiColor>)],
    ;

    fn bg(&self, color: TuiColor) -> (r: GrString)
        ensures
            r@ == seq![(self.uncoloured(), None::<TuiColor>, Some(color))],
    ;

    fn red(&self) -> (r: GrString)
        ensures
            r@ == seq![(self.uncoloured(), Some(TuiColor::Red), None::<TuiColor>)],
    ;

    fn green(&self) -> (r: GrString)
        ensures
            r@ == seq![(self.uncoloured(), Some(TuiColor::Green), None::<TuiColor>)],
    ;

    fn blue(&self) -> (r: GrString)
        ensures
            r@ == seq![(self.uncoloured(), Some(TuiColor::Blue), None::<TuiColor>)],
    ;

    fn cyan(&self) -> (r: GrString)
        ensures
            r@ == seq![(self.uncoloured(), Some(TuiColor::Cyan), None::<TuiColor>)],
    ;

    fn white(&self) -> (r: GrString)
        ensures
            r@ == seq![(self.uncoloured(), Some(TuiColor::White), None::<TuiColor>)],
    ;

    fn gold(&self) -> (r: GrString)
        ensures
            r@ == seq![(self.uncoloured(), Some(TuiColor::Yellow), None::<TuiColor>)],
    ;

    fn default(&self) -> (r: GrString)
        ensures
            r@ == seq![(self.uncoloured(), Some(TuiColor::Reset), None::<TuiColor>)],
    ;
}

impl Colorize for String {
    open spec fn uncoloured(&self) -> Seq<char> {
        self@
    }

    fn fg(&self, color: TuiColor) -> (r: GrString) {
        GrString::styled(self.clone(), Some(color), None)
    }

    fn bg(&self, color: TuiColor) -> (r: GrString) {
        GrString::styled(self.clone(), None, Some(color))
    }

    fn red(&self) -> (r: GrString) {
        self.fg(TuiColor::Red)
    }

    fn green(&self) -> (r: GrString) {
        self.fg(TuiColor::Green)
    }

    fn blue(&self) -> (r: GrString) {
        self.fg(TuiColor::Blue)
    }

    fn cyan(&self) -> (r: GrString) {
        self.fg(TuiColor::Cyan)
    }

    fn white(&self) -> (r: GrString) {
        self.fg(TuiColor::White)
    }

    fn gold(&self) -> (r: GrString) {
        self.fg(TuiColor::Yellow)
    }

    fn default(&self) -> (r: GrString) {
        self.fg(TuiColor::Reset)
    }
}

impl Colorize for &str {
    open spec fn uncoloured(&self) -> Seq<char> {
        self@
    }

    fn fg(&self, color: TuiColor) -> (r: GrString) {
        GrString::styled(String::from_str(*self), Some(color), None)
    }

    fn bg(&self, color: TuiColor) -> (r: GrString) {
        GrString::styled(String::from_str(*self), None, Some(color))
    }

    fn red(&self) -> (r: GrString) {
        self.fg(TuiColor::Red)
    }

    fn green(&self) -> (r: GrString) {
        self.fg(TuiColor::Green)
    }

    fn blue(&self) -> (r: GrString) {
        self.fg(TuiColor::Blue)
    }

    fn cyan(&self) -> (r: GrString) {
        self.fg(TuiColor::Cyan)
    }

    fn white(&self) -> (r: GrString) {
        self.fg(TuiColor::White)
    }

    fn gold(&self) -> (r: GrString) {
        self.fg(TuiColor::Yellow)
    }

    fn default(&self) -> (r: GrString) {
        self.fg(TuiColor::Reset)
    }
}

/// Whether the text has a line feed in it.
pub fn has_line_feed(s: &str) -> (r: bool)
    ensures
        r == s@.contains('\n'),
{
    let v = text::chars_of(s);
    let at = text::find(&v, '\n', 0);
    proof {
        text::lemma_find_bounds(v@, '\n', 0);
    }
    if at < v.len() {
        assert(v@[at as int] == '\n');
        true
    } else {
        false
    }
}

impl Tui {
    /// A screen that keeps nothing yet.
    pub fn new() -> (r: Tui)
        ensures
            r.scrollback@.len() == 0,
    {
        Tui { scrollback: Vec::new() }
    }

    /// Prints the text and ends the line.
    pub fn println(&mut self, s: GrString)
        ensures
            line_views(final(self).scrollback@) == printed(
                line_views(old(self).scrollback@),
                s@ + seq![("\n"@, None::<TuiColor>, None::<TuiColor>)],
            ),
    {
        self.print(s.add_str("\n"));
    }

    /// Prints the text: its pieces go to the line that is open, a piece
    /// with a line feed in it ends the line, and what is left at the end is
    /// a line of its own.  The screen keeps the newest lines only.
    pub fn print(&mut self, s: GrString)
        ensures
            line_views(final(self).scrollback@) == printed(line_views(old(self).scrollback@), s@),
    {
        let ghost start = line_views(self.scrollback@);
        let ghost spans = s@;
        let mut group: Vec<Span> = Vec::new();
        let mut i: usize = 0;
        assert(line_views(self.scrollback@) =~= start + grouped(spans, 0).0);
        assert(span_views(group@) =~= grouped(spans, 0).1);
        while i < s.spans.len()
            invariant
                i <= s.spans@.len(),
                spans == s@,
                line_views(self.scrollback@) == start + grouped(spans, i as int).0,
                span_views(group@) == grouped(spans, i as int).1,
            decreases s.spans@.len() - i,
        {
            let ghost lines = line_views(self.scrollback@);
            let ghost open = span_views(group@);
            let span = &s.spans[i];
            group.push(span.copy());
            assert(span_views(group@) =~= open.push(spans[i as int]));
            if has_line_feed(span.content.as_str()) {
                let ghost full = span_views(group@);
                self.scrollback.push(group);
                group = Vec::new();
                assert(line_views(self.scrollback@) =~= lines.push(full));
                assert(span_views(group@) =~= Seq::empty());
                assert(line_views(self.scrollback@) =~= start + grouped(spans, i + 1).0);
            }
            i += 1;
        }
        let ghost filled = line_views(self.scrollback@);
        let ghost open = span_views(group@);
        if group.len() > 0 {
            self.scrollback.push(group);
            assert(line_views(self.scrollback@) =~= filled + seq![open]);
        } else {
            assert(line_views(self.scrollback@) =~= filled + Seq::empty());
        }
        let ghost all = line_views(self.scrollback@);
        let n = self.scrollback.len();
        if n > SCROLLBACK_LINES {
            let mut kept: Vec<Vec<Span>> = self.scrollback.split_off(n - SCROLLBACK_LINES);
            self.scrollback = kept;
            assert(line_views(self.scrollback@) =~= all.skip(all.len() - SCROLLBACK_LINES));
        }
    }
}

} // verus!
