//! Text dressed in ANSI escape sequences.
//!
//! A dressed text is the escape sequence of a style or colour, the text, and
//! the sequence that clears every style again.

use vstd::prelude::*;
use vstd::string::StringExecFns;
use crate::text;

verus! {

/// Clears every style and colour.
pub const CLEAR: &'static str = "\x1b[0m";

/// The default text colour.
pub const DEFAULT: &'static str = "\x1b[39m";

/// The grey that recedes behind the text proper.
pub const BRIGHT_BLACK: &'static str = "\x1b[90m";

pub const BRIGHT_CYAN: &'static str = "\x1b[96m";

pub const BRIGHT_GREEN: &'static str = "\x1b[92m";

pub const BRIGHT_YELLOW: &'static str = "\x1b[93m";

/// The default background colour.
pub const BG_DEFAULT: &'static str = "\x1b[49m";

pub const BLINK: &'static str = "\x1b[5m";

pub const BOLD: &'static str = "\x1b[1m";

pub const UNDERLINE: &'static str = "\x1b[4m";

pub const ITALIC: &'static str = "\x1b[3m";

pub const BLACK: &'static str = "\x1b[30m";

pub const RED: &'static str = "\x1b[31m";

pub const GREEN: &'static str = "\x1b[32m";

pub const YELLOW: &'static str = "\x1b[33m";

pub const BLUE: &'static str = "\x1b[34m";

pub const MAGENTA: &'static str = "\x1b[35m";

pub const CYAN: &'static str = "\x1b[36m";

pub const WHITE: &'static str = "\x1b[37m";

pub const BG_BLACK: &'static str = "\x1b[40m";

pub const BG_RED: &'static str = "\x1b[41m";

pub const BG_GREEN: &'static str = "\x1b[42m";

pub const BG_YELLOW: &'static str = "\x1b[43m";

pub const BG_BLUE: &'static str = "\x1b[44m";

pub const BG_MAGENTA: &'static str = "\x1b[45m";

pub const BG_CYAN: &'static str = "\x1b[46m";

pub const BG_WHITE: &'static str = "\x1b[47m";

/// `text` between an escape sequence and the one that clears it.
pub open spec fn wrapped(ansi_esc_seq: Seq<char>, text: Seq<char>) -> Seq<char> {
    ansi_esc_seq + text + CLEAR@
}

/// A text that can be shown in a style or a colour.
pub trait AnsiWrapper {
    /// The text that is dressed.
    spec fn plain(&self) -> Seq<char>;

    /// The text between the given escape sequence and the clearing one.
    fn wrap(&self, ansi_esc_seq: &str) -> (r: String)
        ensures
            r@ == wrapped(ansi_esc_seq@, self.plain()),
    ;

    /// The text blinking.
    fn blink(&self) -> (r: String)
        ensures
            r@ == wrapped(BLINK@, self.plain()),
    ;

    /// The text bold.
    fn bold(&self) -> (r: String)
        ensures
            r@ == wrapped(BOLD@, self.plain()),
    ;

    /// The text underlined.
    fn underline(&self) -> (r: String)
        ensures
            r@ == wrapped(UNDERLINE@, self.plain()),
    ;

    /// The text in italics.
    fn italic(&self) -> (r: String)
        ensures
            r@ == wrapped(ITALIC@, self.plain()),
    ;

    /// The text in black.
    fn black(&self) -> (r: String)
        ensures
            r@ == wrapped(BLACK@, self.plain()),
    ;

    /// The text in red.
    fn red(&self) -> (r: String)
        ensures
            r@ == wrapped(RED@, self.plain()),
    ;

    /// The text in green.
    fn green(&self) -> (r: String)
        ensures
            r@ == wrapped(GREEN@, self.plain()),
    ;

    /// The text in yellow.
    fn yellow(&self) -> (r: String)
        ensures
            r@ == wrapped(YELLOW@, self.plain()),
    ;

    /// The text in blue.
    fn blue(&self) -> (r: String)
        ensures
            r@ == wrapped(BLUE@, self.plain()),
    ;

    /// The text in magenta.
    fn magenta(&self) -> (r: String)
        ensures
            r@ == wrapped(MAGENTA@, self.plain()),
    ;

    /// The text in cyan.
    fn cyan(&self) -> (r: String)
        ensures
            r@ == wrapped(CYAN@, self.plain()),
    ;

    /// The text in white.
    fn white(&self) -> (r: String)
        ensures
            r@ == wrapped(WHITE@, self.plain()),
    ;

    /// The text on black.
    fn on_black(&self) -> (r: String)
        ensures
            r@ == wrapped(BG_BLACK@, self.plain()),
    ;

    /// The text on red.
    fn on_red(&self) -> (r: String)
        ensures
            r@ == wrapped(BG_RED@, self.plain()),
    ;

    /// The text on green.
    fn on_green(&self) -> (r: String)
        ensures
            r@ == wrapped(BG_GREEN@, self.plain()),
    ;

    /// The text on yellow.
    fn on_yellow(&self) -> (r: String)
        ensures
            r@ == wrapped(BG_YELLOW@, self.plain()),
    ;

    /// The text on blue.
    fn on_blue(&self) -> (r: String)
        ensures
            r@ == wrapped(BG_BLUE@, self.plain()),
    ;

    /// The text on magenta.
    fn on_magenta(&self) -> (r: String)
        ensures
            r@ == wrapped(BG_MAGENTA@, self.plain()),
    ;

    /// The text on cyan.
    fn on_cyan(&self) -> (r: String)
        ensures
            r@ == wrapped(BG_CYAN@, self.plain()),
    ;

    /// The text on white.
    fn on_white(&self) -> (r: String)
        ensures
            r@ == wrapped(BG_WHITE@, self.plain()),
    ;

}

impl AnsiWrapper for String {
    open spec fn plain(&self) -> Seq<char> {
        self@
    }

    fn wrap(&self, ansi_esc_seq: &str) -> (r: String) {
        String::from_str(ansi_esc_seq).concat(self.as_str()).concat(CLEAR)
    }

    fn blink(&self) -> (r: String) {
        self.wrap(BLINK)
    }

    fn bold(&self) -> (r: String) {
        self.wrap(BOLD)
    }

    fn underline(&self) -> (r: String) {
        self.wrap(UNDERLINE)
    }

    fn italic(&self) -> (r: String) {
        self.wrap(ITALIC)
    }

    fn black(&self) -> (r: String) {
        self.wrap(BLACK)
    }

    fn red(&self) -> (r: String) {
        self.wrap(RED)
    }

    fn green(&self) -> (r: String) {
        self.wrap(GREEN)
    }

    fn yellow(&self) -> (r: String) {
        self.wrap(YELLOW)
    }

    fn blue(&self) -> (r: String) {
        self.wrap(BLUE)
    }

    fn magenta(&self) -> (r: String) {
        self.wrap(MAGENTA)
    }

    fn cyan(&self) -> (r: String) {
        self.wrap(CYAN)
    }

    fn white(&self) -> (r: String) {
        self.wrap(WHITE)
    }

    fn on_black(&self) -> (r: String) {
        self.wrap(BG_BLACK)
    }

    fn on_red(&self) -> (r: String) {
        self.wrap(BG_RED)
    }

    fn on_green(&self) -> (r: String) {
        self.wrap(BG_GREEN)
    }

    fn on_yellow(&self) -> (r: String) {
        self.wrap(BG_YELLOW)
    }

    fn on_blue(&self) -> (r: String) {
        self.wrap(BG_BLUE)
    }

    fn on_magenta(&self) -> (r: String) {
        self.wrap(BG_MAGENTA)
    }

    fn on_cyan(&self) -> (r: String) {
        self.wrap(BG_CYAN)
    }

    fn on_white(&self) -> (r: String) {
        self.wrap(BG_WHITE)
    }

}

impl AnsiWrapper for &str {
    open spec fn plain(&self) -> Seq<char> {
        self@
    }

    fn wrap(&self, ansi_esc_seq: &str) -> (r: String) {
        String::from_str(ansi_esc_seq).concat(*self).concat(CLEAR)
    }

    fn blink(&self) -> (r: String) {
        self.wrap(BLINK)
    }

    fn bold(&self) -> (r: String) {
        self.wrap(BOLD)
    }

    fn underline(&self) -> (r: String) {
        self.wrap(UNDERLINE)
    }

    fn italic(&self) -> (r: String) {
        self.wrap(ITALIC)
    }

    fn black(&self) -> (r: String) {
        self.wrap(BLACK)
    }

    fn red(&self) -> (r: String) {
        self.wrap(RED)
    }

    fn green(&self) -> (r: String) {
        self.wrap(GREEN)
    }

    fn yellow(&self) -> (r: String) {
        self.wrap(YELLOW)
    }

    fn blue(&self) -> (r: String) {
        self.wrap(BLUE)
    }

    fn magenta(&self) -> (r: String) {
        self.wrap(MAGENTA)
    }

    fn cyan(&self) -> (r: String) {
        self.wrap(CYAN)
    }

    fn white(&self) -> (r: String) {
        self.wrap(WHITE)
    }

    fn on_black(&self) -> (r: String) {
        self.wrap(BG_BLACK)
    }

    fn on_red(&self) -> (r: String) {
        self.wrap(BG_RED)
    }

    fn on_green(&self) -> (r: String) {
        self.wrap(BG_GREEN)
    }

    fn on_yellow(&self) -> (r: String) {
        self.wrap(BG_YELLOW)
    }

    fn on_blue(&self) -> (r: String) {
        self.wrap(BG_BLUE)
    }

    fn on_magenta(&self) -> (r: String) {
        self.wrap(BG_MAGENTA)
    }

    fn on_cyan(&self) -> (r: String) {
        self.wrap(BG_CYAN)
    }

    fn on_white(&self) -> (r: String) {
        self.wrap(BG_WHITE)
    }

}

/// An escape sequence starts at place `i` of the text.
pub open spec fn escape_at(s: Seq<char>, i: int) -> bool {
    0 <= i && i + 1 < s.len() && s[i] == '\u{1b}' && s[i + 1] == '['
}

/// The place behind the escape sequence whose body starts at `from`: behind
/// the first `m` at or after `from`, or the end of the text where no `m`
/// follows.
pub open spec fn escape_end(s: Seq<char>, from: int) -> int {
    let at = text::find_spec(s, 'm', from);
    if at < s.len() {
        at + 1
    } else {
        s.len() as int
    }
}

/// The text from place `i` on without its escape sequences.
pub open spec fn bare_from(s: Seq<char>, i: int) -> Seq<char>
    decreases s.len() - i,
{
    if i < 0 || i >= s.len() {
        Seq::empty()
    } else if escape_at(s, i) {
        let end = escape_end(s, i + 2);
        if end > i {
            bare_from(s, end)
        } else {
            Seq::empty()
        }
    } else {
        seq![s[i]] + bare_from(s, i + 1)
    }
}

/// The text without its escape sequences: what a terminal shows of it when
/// it shows no styles and no colours.
pub open spec fn bare_spec(s: Seq<char>) -> Seq<char> {
    bare_from(s, 0)
}

/// A text without an escape is bare as it stands.
pub proof fn lemma_bare_of_plain(s: Seq<char>, i: int)
    requires
        0 <= i <= s.len(),
        forall|j: int| 0 <= j < s.len() ==> #[trigger] s[j] != '\u{1b}',
    ensures
        bare_from(s, i) == s.skip(i),
    decreases s.len() - i,
{
    if i < s.len() {
        assert(s[i] != '\u{1b}');
        lemma_bare_of_plain(s, i + 1);
        assert(seq![s[i]] + s.skip(i + 1) =~= s.skip(i));
    } else {
        assert(s.skip(i) =~= Seq::<char>::empty());
    }
}

/// The text without its escape sequences.
pub fn bare(s: &str) -> (r: String)
    ensures
        r@ == bare_spec(s@),
{
    let v = text::chars_of(s);
    let n = v.len();
    let mut kept: Vec<char> = Vec::new();
    let mut i: usize = 0;
    while i < n
        invariant
            i <= n,
            n == v@.len(),
            bare_spec(v@) == kept@ + bare_from(v@, i as int),
        decreases n - i,
    {
        if n - i >= 2 && v[i] == '\u{1b}' && v[i + 1] == '[' {
            let at = text::find(&v, 'm', i + 2);
            let end = if at < n {
                at + 1
            } else {
                n
            };
            assert(end == escape_end(v@, i + 2));
            i = end;
        } else {
            assert(!escape_at(v@, i as int));
            kept.push(v[i]);
            assert(kept@ + bare_from(v@, i + 1) =~= kept@.drop_last() + (seq![v@[i as int]]
                + bare_from(v@, i + 1)));
            i += 1;
        }
    }
    assert(kept@ + bare_from(v@, n as int) =~= kept@);
    text::string_of(&kept)
}

} // verus!
