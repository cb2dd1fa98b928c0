//! A list of options with a cursor, shown a page at a time, in which options
//! can be marked.

use vstd::prelude::*;
use vstd::string::StringExecFns;
use crate::ansi;
use crate::ansi::AnsiWrapper;
use crate::text;

verus! {

/// The options, their marks, the cursor and the page that is shown.
#[derive(Debug)]
pub struct Selector {
    options: Vec<String>,
    selections: Vec<bool>,
    multiselect: bool,
    cursor: usize,
    page: usize,
    page_size: usize,
}

/// A selector as plain values.
pub ghost struct SelectorView {
    pub options: Seq<Seq<char>>,
    /// Which options are marked.
    pub selections: Seq<bool>,
    /// Whether several options can be marked at a time.
    pub multiselect: bool,
    pub cursor: nat,
    pub page: nat,
    pub page_size: nat,
}

/// The number of marks among the first `n`.
pub open spec fn count_marked(marks: Seq<bool>, n: int) -> nat
    decreases n,
{
    if n <= 0 {
        0
    } else {
        count_marked(marks, n - 1) + if marks[n - 1] {
            1nat
        } else {
            0nat
        }
    }
}

/// The marked options among the first `n`, in their order.
pub open spec fn chosen(options: Seq<Seq<char>>, marks: Seq<bool>, n: int) -> Seq<Seq<char>>
    decreases n,
{
    if n <= 0 {
        Seq::empty()
    } else if marks[n - 1] {
        chosen(options, marks, n - 1).push(options[n - 1])
    } else {
        chosen(options, marks, n - 1)
    }
}

impl SelectorView {
    /// Whether option `i` is on the page that is shown.
    pub open spec fn shows(self, i: int) -> bool {
        i / (self.page_size as int) == self.page
    }

    /// The line of option `i`: a `>` where the cursor stands, and the
    /// option, in bold if it is marked.
    pub open spec fn line(self, i: int) -> Seq<char> {
        (if i == self.cursor {
            ">"@
        } else {
            " "@
        }) + " "@ + if self.selections[i] {
            ansi::wrapped(ansi::BOLD@, self.options[i])
        } else {
            self.options[i]
        }
    }

    /// The lines of the options among the first `n` that are on the page.
    pub open spec fn lines(self, n: int) -> Seq<Seq<char>>
        decreases n,
    {
        if n <= 0 {
            Seq::empty()
        } else if self.shows(n - 1) {
            self.lines(n - 1).push(self.line(n - 1))
        } else {
            self.lines(n - 1)
        }
    }

    /// Where a move to option `i` ends: at `i`, or at the last option where
    /// `i` lies behind it.
    pub open spec fn target(self, i: nat) -> nat {
        if i >= self.options.len() && self.options.len() > 0 {
            (self.options.len() - 1) as nat
        } else {
            i
        }
    }

    /// The selector with the cursor on option `i`, or on the last option
    /// where `i` lies behind it, and the page that shows the cursor.
    pub open spec fn moved_to(self, i: nat) -> SelectorView {
        SelectorView {
            cursor: self.target(i),
            page: (self.target(i) / self.page_size) as nat,
            ..self
        }
    }

    /// The marks once the option under the cursor is toggled.  Where only
    /// one option can be marked, marking one takes the mark off all others.
    pub open spec fn toggled(self) -> Seq<bool> {
        if self.cursor >= self.selections.len() {
            self.selections
        } else if self.selections[self.cursor as int] {
            self.selections.update(self.cursor as int, false)
        } else if self.multiselect {
            self.selections.update(self.cursor as int, true)
        } else {
            Seq::new(self.selections.len(), |i: int| i == self.cursor)
        }
    }
}

impl Selector {
    pub closed spec fn view(&self) -> SelectorView {
        SelectorView {
            options: text::views(self.options@),
            selections: self.selections@,
            multiselect: self.multiselect,
            cursor: self.cursor as nat,
            page: self.page as nat,
            page_size: self.page_size as nat,
        }
    }

    /// There is a mark for every option, and a page holds at least one
    /// option.
    spec fn sized(&self) -> bool {
        &&& self.selections@.len() == self.options@.len()
        &&& self.page_size > 0
    }

    /// The selector is sized, and the page shown is the one with the cursor.
    pub closed spec fn wf(&self) -> bool {
        &&& self.sized()
        &&& self.page == self.cursor / self.page_size
    }



    /// A selector over the options, nothing marked, the cursor on the first
    /// option.
    pub fn new(options: Vec<&str>, multiselect: bool, page_size: usize) -> (r: Selector)
        requires
            page_size > 0,
        ensures
            r.wf(),
            r@ == (SelectorView {
                options: text::slice_views(options@),
                selections: Seq::new(options@.len(), |i: int| false),
                multiselect,
                cursor: 0,
                page: 0,
                page_size: page_size as nat,
            }),
    {
        let mut owned: Vec<String> = Vec::new();
        let mut selections: Vec<bool> = Vec::new();
        let mut i: usize = 0;
        while i < options.len()
            invariant
                i <= options.len(),
                selections@ =~= Seq::new(i as nat, |k: int| false),
                text::views(owned@) =~= text::slice_views(options@).take(i as int),
            decreases options.len() - i,
        {
            let ghost before = text::views(owned@);
            owned.push(String::from_str(options[i]));
            assert(text::views(owned@) =~= before.push(options@[i as int]@));
            selections.push(false);
            i += 1;
        }
        assert(text::views(owned@) =~= text::slice_views(options@));
        Selector { options: owned, selections, multiselect, cursor: 0, page: 0, page_size }
    }

    /// The option on which the cursor stands.
    pub fn cursor(&self) -> (r: usize)
        ensures
            r == self@.cursor,
    {
        self.cursor
    }

    /// The page that is shown.
    pub fn page(&self) -> (r: usize)
        ensures
            r == self@.page,
    {
        self.page
    }

    /// Puts the cursor on option `i`, or on the last option where `i` lies
    /// behind it, and shows the page with the cursor.
    pub fn move_to(&mut self, i: usize)
        requires
            old(self).wf(),
        ensures
            final(self).wf(),
            final(self)@ == old(self)@.moved_to(i as nat),
    {
        if i >= self.options.len() && self.options.len() > 0 {
            return self.move_to_end();
        }
        self.cursor = i;
        if !self.shows_option(self.cursor) {
            self.page_to_cursor();
        }
    }

    /// Puts the cursor on the first option.
    pub fn move_to_beginning(&mut self)
        requires
            old(self).wf(),
        ensures
            final(self).wf(),
            final(self)@ == old(self)@.moved_to(0),
    {
        self.move_to(0)
    }

    /// Puts the cursor on the last option.
    pub fn move_to_end(&mut self)
        requires
            old(self).wf(),
        ensures
            final(self).wf(),
            final(self)@ == old(self)@.moved_to(
                if old(self)@.options.len() == 0 {
                    0
                } else {
                    (old(self)@.options.len() - 1) as nat
                },
            ),
    {
        let i = if self.options.len() == 0 {
            0
        } else {
            self.options.len() - 1
        };
        self.cursor = i;
        if !self.shows_option(self.cursor) {
            self.page_to_cursor();
        }
    }

    /// Moves the cursor one option up, unless it stands on the first.
    pub fn up(&mut self)
        requires
            old(self).wf(),
        ensures
            final(self).wf(),
            final(self)@ == if old(self)@.cursor > 0 {
                old(self)@.moved_to((old(self)@.cursor - 1) as nat)
            } else {
                old(self)@
            },
    {
        if self.cursor > 0 {
            self.move_to(self.cursor - 1);
        }
    }

    /// Moves the cursor one option down, unless it stands on the last.
    pub fn down(&mut self)
        requires
            old(self).wf(),
        ensures
            final(self).wf(),
            final(self)@ == if old(self)@.cursor + 1 < old(self)@.options.len() {
                old(self)@.moved_to(old(self)@.cursor + 1)
            } else {
                old(self)@
            },
    {
        if self.options.len() > 0 && self.cursor < self.options.len() - 1 {
            self.move_to(self.cursor + 1);
        }
    }

    /// Moves the cursor a page up, or to the first option where less than a
    /// page lies above it.
    pub fn page_up(&mut self)
        requires
            old(self).wf(),
        ensures
            final(self).wf(),
            final(self)@ == old(self)@.moved_to(
                if old(self)@.cursor > old(self)@.page_size {
                    (old(self)@.cursor - old(self)@.page_size) as nat
                } else {
                    0
                },
            ),
    {
        if self.cursor > self.page_size {
            self.move_to(self.cursor - self.page_size);
        } else {
            self.move_to_beginning();
        }
    }

    /// Moves the cursor a page down, or to the last option where less than a
    /// page lies below it.
    pub fn page_down(&mut self)
        requires
            old(self).wf(),
        ensures
            final(self).wf(),
            final(self)@ == old(self)@.moved_to(
                if old(self)@.cursor + old(self)@.page_size < old(self)@.options.len() {
                    old(self)@.cursor + old(self)@.page_size
                } else if old(self)@.options.len() == 0 {
                    0
                } else {
                    (old(self)@.options.len() - 1) as nat
                },
            ),
    {
        let n = self.options.len();
        if self.cursor < n && self.page_size < n - self.cursor {
            self.move_to(self.cursor + self.page_size);
        } else {
            self.move_to_end();
        }
    }

    /// Marks the option under the cursor, or takes its mark off.
    pub fn toggle(&mut self)
        requires
            old(self).wf(),
        ensures
            final(self).wf(),
            final(self)@ == (SelectorView { selections: old(self)@.toggled(), ..old(self)@ }),
    {
        if self.cursor >= self.selections.len() {
            return ;
        }
        let toggling_on = !self.selections[self.cursor];
        if toggling_on && !self.multiselect {
            self.delesect_all();
        }
        self.selections.set(self.cursor, toggling_on);
        assert(self.selections@ =~= old(self)@.toggled());
    }

    /// Takes every mark off.
    pub fn delesect_all(&mut self)
        requires
            old(self).wf(),
        ensures
            final(self).wf(),
            final(self)@ == (SelectorView {
                selections: Seq::new(old(self)@.selections.len(), |i: int| false),
                ..old(self)@
            }),
    {
        let n = self.selections.len();
        let mut i: usize = 0;
        while i < n
            invariant
                i <= n,
                n == self.selections@.len(),
                self.options == old(self).options,
                self.multiselect == old(self).multiselect,
                self.cursor == old(self).cursor,
                self.page == old(self).page,
                self.page_size == old(self).page_size,
                forall|k: int| 0 <= k < i ==> !self.selections@[k],
            decreases n - i,
        {
            self.selections.set(i, false);
            i += 1;
        }
        assert(self.selections@ =~= Seq::new(n as nat, |i: int| false));
    }

    /// The marked options, in their order.
    pub fn selections(&self) -> (r: Vec<String>)
        requires
            self.wf(),
        ensures
            text::views(r@) == chosen(
                self@.options,
                self@.selections,
                self@.options.len() as int,
            ),
    {
        let mut out: Vec<String> = Vec::new();
        let mut i: usize = 0;
        assert(text::views(out@) =~= Seq::empty());
        while i < self.selections.len()
            invariant
                i <= self.selections@.len(),
                self.wf(),
                text::views(out@) == chosen(self@.options, self@.selections, i as int),
            decreases self.selections@.len() - i,
        {
            let ghost before = text::views(out@);
            if self.selections[i] {
                out.push(self.options[i].clone());
                assert(text::views(out@) =~= before.push(self@.options[i as int]));
            }
            i += 1;
        }
        out
    }

    /// The page that is shown: a line for each of its options, with a `>`
    /// before the one under the cursor and the marked ones in bold.
    pub fn display(&self) -> (r: String)
        requires
            self.wf(),
        ensures
            r@ == text::join_spec(self@.lines(self@.options.len() as int), "\n"@),
    {
        let mut parts: Vec<String> = Vec::new();
        let mut i: usize = 0;
        assert(text::views(parts@) =~= Seq::empty());
        while i < self.options.len()
            invariant
                i <= self.options@.len(),
                self.wf(),
                text::views(parts@) == self@.lines(i as int),
            decreases self.options@.len() - i,
        {
            let ghost before = text::views(parts@);
            if self.on_current_page(i) {
                let option = if self.selections[i] {
                    self.options[i].bold()
                } else {
                    self.options[i].clone()
                };
                let prefix = if i == self.cursor {
                    ">"
                } else {
                    " "
                };
                parts.push(text::concat3(prefix, " ", option.as_str()));
                assert(text::views(parts@) =~= before.push(self@.line(i as int)));
            }
            i += 1;
        }
        text::join(&parts, "\n")
    }

    /// How many options are marked.
    pub fn selected_count(&self) -> (r: usize)
        ensures
            r == count_marked(self@.selections, self@.selections.len() as int),
    {
        let mut count: usize = 0;
        let mut i: usize = 0;
        while i < self.selections.len()
            invariant
                i <= self.selections@.len(),
                count <= i,
                count == count_marked(self@.selections, i as int),
            decreases self.selections@.len() - i,
        {
            if self.selections[i] {
                count += 1;
            }
            i += 1;
        }
        count
    }

    /// Whether option `i` is on the page that is shown.
    pub fn on_current_page(&self, i: usize) -> (r: bool)
        requires
            self.wf(),
        ensures
            r == self@.shows(i as int),
    {
        self.shows_option(i)
    }

    fn shows_option(&self, i: usize) -> (r: bool)
        requires
            self.sized(),
        ensures
            r == self@.shows(i as int),
    {
        i / self.page_size == self.page
    }

    /// The first option of the page that is shown and the first one behind
    /// it; the latter stops at the greatest number there is.
    pub fn page_range(&self) -> (r: (usize, usize))
        requires
            self.wf(),
        ensures
            r.0 == self@.page * self@.page_size,
            r.1 == if self@.page * self@.page_size + self@.page_size <= usize::MAX {
                self@.page * self@.page_size + self@.page_size
            } else {
                usize::MAX as nat
            },
    {
        proof {
            vstd::arithmetic::div_mod::lemma_fundamental_div_mod(
                self.cursor as int,
                self.page_size as int,
            );
            vstd::arithmetic::div_mod::lemma_mod_bound(self.cursor as int, self.page_size as int);
            assert(self.page_size * self.page == self.page * self.page_size) by (nonlinear_arith);
        }
        let start = self.page * self.page_size;
        (start, start.saturating_add(self.page_size))
    }

    /// Shows the page with the cursor.
    fn page_to_cursor(&mut self)
        requires
            old(self).sized(),
        ensures
            final(self).wf(),
            final(self)@ == (SelectorView {
                page: (old(self)@.cursor / old(self)@.page_size) as nat,
                ..old(self)@
            }),
    {
        self.page = self.cursor / self.page_size;
    }
}

} // verus!
