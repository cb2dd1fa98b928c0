//! A menu of options with a caret, as far as it decides: which options are
//! selected and what an event does to that.

use vstd::prelude::*;
use vstd::string::StringExecFns;
use crate::events::Key;
use crate::symbols;
use crate::text;

verus! {

/// The state of a menu: where the caret stands and what is selected.
#[derive(Debug)]
pub struct SelectionState {
    pub allow_multiple: bool,
    pub auto_select: bool,
    pub caret_at: usize,
    /// The selected options, in the order in which they were selected.
    pub selected_options: Vec<usize>,
    pub num_options: usize,
}

/// What the user did to the menu.
#[derive(Clone, Copy, Debug, PartialEq, Eq, Structural)]
pub enum SelectionEvent {
    Up,
    Down,
    Toggle(usize),
    Accept,
    Idle,
}

/// The event that a key stands for in a menu whose caret stands at `caret`.
pub open spec fn selection_event(key: Key, caret: usize) -> SelectionEvent {
    match key {
        Key::Down => SelectionEvent::Down,
        Key::Up => SelectionEvent::Up,
        Key::Char(c) => if c == ' ' {
            SelectionEvent::Toggle(caret)
        } else {
            SelectionEvent::Idle
        },
        Key::Enter => SelectionEvent::Accept,
        _ => SelectionEvent::Idle,
    }
}

/// The selection once `index` is selected: where only one option can be
/// selected it replaces the others, and an option is never selected twice.
pub open spec fn with_selected(selected: Seq<usize>, multiple: bool, index: usize) -> Seq<usize> {
    let kept = if multiple {
        selected
    } else {
        Seq::empty()
    };
    if kept.contains(index) {
        kept
    } else {
        kept.push(index)
    }
}

/// The selection without `index`.
pub open spec fn without(selected: Seq<usize>, index: usize) -> Seq<usize>
    decreases selected.len(),
{
    if selected.len() == 0 {
        Seq::empty()
    } else if selected.last() != index {
        without(selected.drop_last(), index).push(selected.last())
    } else {
        without(selected.drop_last(), index)
    }
}

/// The options that are selected, in the order of their selection.  A
/// selected place that is no option is passed over.
pub open spec fn picked(options: Seq<Seq<char>>, selected: Seq<usize>) -> Seq<Seq<char>>
    decreases selected.len(),
{
    if selected.len() == 0 {
        Seq::empty()
    } else if selected.last() < options.len() {
        picked(options, selected.drop_last()).push(options[selected.last() as int])
    } else {
        picked(options, selected.drop_last())
    }
}

/// The caret one option up, unless it stands on the first.
pub open spec fn caret_up(caret: usize) -> usize {
    if caret > 0 {
        (caret - 1) as usize
    } else {
        0
    }
}

/// The caret one option down, unless it stands on the last of so many.
pub open spec fn caret_down(caret: usize, count: usize) -> usize {
    if caret + 1 < count {
        (caret + 1) as usize
    } else {
        caret
    }
}

/// The selection once the caret has moved to `caret`: where the option
/// under the caret is selected by itself it is selected now.
pub open spec fn followed(selected: Seq<usize>, multiple: bool, auto: bool, caret: usize) -> Seq<
    usize,
> {
    if auto {
        with_selected(selected, multiple, caret)
    } else {
        selected
    }
}

/// The selection once `index` is toggled.
pub open spec fn toggled(selected: Seq<usize>, multiple: bool, index: usize) -> Seq<usize> {
    if selected.contains(index) {
        without(selected, index)
    } else {
        with_selected(selected, multiple, index)
    }
}

/// The line of an option: the caret where it stands, a check mark where the
/// option is selected, and the option.
pub open spec fn option_line(option: Seq<char>, careted: bool, selected: bool) -> Seq<char> {
    (if careted {
        symbols::RIGHT_TRIANGLE@
    } else {
        " "@
    }) + " "@ + (if selected {
        symbols::CHECK@
    } else {
        " "@
    }) + " "@ + option
}

impl SelectionEvent {
    /// The event that a key stands for: the arrows move the caret, the
    /// space bar toggles the option under it, Enter accepts.
    pub fn from_key(key: Key, selection_state: &SelectionState) -> (r: SelectionEvent)
        ensures
            r == selection_event(key, selection_state.caret_at),
    {
        match key {
            Key::Down => SelectionEvent::Down,
            Key::Up => SelectionEvent::Up,
            Key::Char(c) => if c == ' ' {
                SelectionEvent::Toggle(selection_state.caret_at)
            } else {
                SelectionEvent::Idle
            },
            Key::Enter => SelectionEvent::Accept,
            _ => SelectionEvent::Idle,
        }
    }
}

impl SelectionState {
    /// The state of a menu of so many options before the first key.  Where
    /// the option under the caret is selected by itself, the first option
    /// is selected from the start.
    pub fn new(num_options: usize, allow_multiple: bool, auto_select: bool) -> (r: SelectionState)
        ensures
            r.num_options == num_options,
            r.allow_multiple == allow_multiple,
            r.auto_select == auto_select,
            r.caret_at == 0,
            r.selected_options@ == if auto_select {
                seq![0usize]
            } else {
                Seq::<usize>::empty()
            },
    {
        let mut selected_options: Vec<usize> = Vec::new();
        if auto_select {
            selected_options.push(0);
        }
        SelectionState { allow_multiple, auto_select, caret_at: 0, selected_options, num_options }
    }

    /// Moves the caret one option up, unless it stands on the first.
    pub fn up(&mut self)
        ensures
            final(self).allow_multiple == old(self).allow_multiple,
            final(self).auto_select == old(self).auto_select,
            final(self).num_options == old(self).num_options,
            final(self).caret_at == caret_up(old(self).caret_at),
            final(self).selected_options@ == followed(
                old(self).selected_options@,
                old(self).allow_multiple,
                old(self).auto_select,
                caret_up(old(self).caret_at),
            ),
    {
        if self.caret_at > 0 {
            self.caret_at -= 1;
        }
        if self.auto_select {
            self.select(self.caret_at);
        }
    }

    /// Moves the caret one option down, unless it stands on the last.
    pub fn down(&mut self)
        ensures
            final(self).allow_multiple == old(self).allow_multiple,
            final(self).auto_select == old(self).auto_select,
            final(self).num_options == old(self).num_options,
            final(self).caret_at == caret_down(old(self).caret_at, old(self).num_options),
            final(self).selected_options@ == followed(
                old(self).selected_options@,
                old(self).allow_multiple,
                old(self).auto_select,
                caret_down(old(self).caret_at, old(self).num_options),
            ),
    {
        if self.num_options > 0 && self.caret_at < self.num_options - 1 {
            self.caret_at += 1;
        }
        if self.auto_select {
            self.select(self.caret_at);
        }
    }

    /// Selects option `index`.
    pub fn select(&mut self, index: usize)
        ensures
            final(self).allow_multiple == old(self).allow_multiple,
            final(self).auto_select == old(self).auto_select,
            final(self).num_options == old(self).num_options,
            final(self).caret_at == old(self).caret_at,
            final(self).selected_options@ == with_selected(
                old(self).selected_options@,
                old(self).allow_multiple,
                index,
            ),
    {
        if !self.allow_multiple {
            self.selected_options.clear();
        }
        if !self.selected(index) {
            self.selected_options.push(index);
        }
    }

    /// Takes option `index` out of the selection.
    pub fn unselect(&mut self, index: usize)
        ensures
            final(self).allow_multiple == old(self).allow_multiple,
            final(self).auto_select == old(self).auto_select,
            final(self).num_options == old(self).num_options,
            final(self).caret_at == old(self).caret_at,
            final(self).selected_options@ == without(old(self).selected_options@, index),
    {
        let ghost all = self.selected_options@;
        let mut kept: Vec<usize> = Vec::new();
        let mut k: usize = 0;
        assert(all.take(0).len() == 0);
        while k < self.selected_options.len()
            invariant
                k <= all.len(),
                all == self.selected_options@,
                self.allow_multiple == old(self).allow_multiple,
                self.auto_select == old(self).auto_select,
                self.num_options == old(self).num_options,
                self.caret_at == old(self).caret_at,
                kept@ == without(all.take(k as int), index),
            decreases all.len() - k,
        {
            proof {
                assert(all.take(k + 1).drop_last() =~= all.take(k as int));
            }
            if self.selected_options[k] != index {
                kept.push(self.selected_options[k]);
            }
            k += 1;
        }
        assert(all.take(all.len() as int) =~= all);
        self.selected_options = kept;
    }

    /// Selects option `index` if it is not selected, and takes it out of
    /// the selection if it is.
    pub fn toggle(&mut self, index: usize)
        ensures
            final(self).allow_multiple == old(self).allow_multiple,
            final(self).auto_select == old(self).auto_select,
            final(self).num_options == old(self).num_options,
            final(self).caret_at == old(self).caret_at,
            final(self).selected_options@ == toggled(
                old(self).selected_options@,
                old(self).allow_multiple,
                index,
            ),
    {
        if self.selected(index) {
            self.unselect(index);
        } else {
            self.select(index);
        }
    }

    /// Whether option `index` is selected.
    pub fn selected(&self, index: usize) -> (r: bool)
        ensures
            r == self.selected_options@.contains(index),
    {
        let mut k: usize = 0;
        while k < self.selected_options.len()
            invariant
                k <= self.selected_options@.len(),
                forall|j: int| 0 <= j < k ==> self.selected_options@[j] != index,
            decreases self.selected_options@.len() - k,
        {
            if self.selected_options[k] == index {
                return true;
            }
            k += 1;
        }
        false
    }

    /// What an event does to the menu, and whether the menu is over.
    /// Accepting and events that mean nothing leave the menu as it is.
    pub fn apply(&mut self, event: SelectionEvent) -> (r: bool)
        ensures
            r == (event == SelectionEvent::Accept),
            final(self).allow_multiple == old(self).allow_multiple,
            final(self).auto_select == old(self).auto_select,
            final(self).num_options == old(self).num_options,
            final(self).caret_at == match event {
                SelectionEvent::Up => caret_up(old(self).caret_at),
                SelectionEvent::Down => caret_down(old(self).caret_at, old(self).num_options),
                _ => old(self).caret_at,
            },
            final(self).selected_options@ == match event {
                SelectionEvent::Up => followed(
                    old(self).selected_options@,
                    old(self).allow_multiple,
                    old(self).auto_select,
                    caret_up(old(self).caret_at),
                ),
                SelectionEvent::Down => followed(
                    old(self).selected_options@,
                    old(self).allow_multiple,
                    old(self).auto_select,
                    caret_down(old(self).caret_at, old(self).num_options),
                ),
                SelectionEvent::Toggle(index) => toggled(
                    old(self).selected_options@,
                    old(self).allow_multiple,
                    index,
                ),
                _ => old(self).selected_options@,
            },
    {
        match event {
            SelectionEvent::Up => {
                self.up();
                false
            },
            SelectionEvent::Down => {
                self.down();
                false
            },
            SelectionEvent::Toggle(index) => {
                self.toggle(index);
                false
            },
            SelectionEvent::Accept => true,
            SelectionEvent::Idle => false,
        }
    }

    /// The options that the menu ends with, in the order of their
    /// selection, or nothing where none is selected.  A selected place that
    /// is no option of the menu is passed over.
    pub fn chosen(&self, options: &Vec<String>) -> (r: Option<Vec<String>>)
        ensures
            r is Some <==> self.selected_options@.len() > 0,
            r is Some ==> text::views(r->0@) == picked(
                text::views(options@),
                self.selected_options@,
            ),
    {
        if self.selected_options.len() == 0 {
            return None;
        }
        let ghost all = self.selected_options@;
        let mut out: Vec<String> = Vec::new();
        let mut k: usize = 0;
        assert(all.take(0) =~= Seq::empty());
        assert(text::views(out@) =~= Seq::empty());
        while k < self.selected_options.len()
            invariant
                k <= all.len(),
                all == self.selected_options@,
                text::views(out@) == picked(text::views(options@), all.take(k as int)),
            decreases all.len() - k,
        {
            let i = self.selected_options[k];
            let ghost before = text::views(out@);
            proof {
                assert(all.take(k + 1).drop_last() =~= all.take(k as int));
                assert(all.take(k + 1).last() == i);
            }
            if i < options.len() {
                out.push(options[i].clone());
                assert(text::views(out@) =~= before.push(options@[i as int]@));
            }
            k += 1;
        }
        assert(all.take(all.len() as int) =~= all);
        Some(out)
    }
}

/// The lines of a menu: one for each option, with the caret and the check
/// marks.
pub fn format_options(options: &Vec<String>, selection_state: &SelectionState) -> (r: Vec<String>)
    ensures
        r@.len() == options@.len(),
        forall|i: int|
            0 <= i < options@.len() ==> (#[trigger] r@[i])@ == option_line(
                options@[i]@,
                i == selection_state.caret_at,
                selection_state.selected_options@.contains(i as usize),
            ),
{
    let mut out: Vec<String> = Vec::new();
    let mut index: usize = 0;
    while index < options.len()
        invariant
            index <= options@.len(),
            out@.len() == index,
            forall|i: int|
                0 <= i < index ==> (#[trigger] out@[i])@ == option_line(
                    options@[i]@,
                    i == selection_state.caret_at,
                    selection_state.selected_options@.contains(i as usize),
                ),
        decreases options@.len() - index,
    {
        let caret = if index == selection_state.caret_at {
            symbols::RIGHT_TRIANGLE
        } else {
            " "
        };
        let checkmark = if selection_state.selected(index) {
            symbols::CHECK
        } else {
            " "
        };
        let line = String::from_str(caret).concat(" ").concat(checkmark).concat(" ").concat(
            options[index].as_str(),
        );
        out.push(line);
        index += 1;
    }
    out
}

/// Whether a question was answered with yes.
pub fn yn(selection: &Option<String>) -> (r: bool)
    ensures
        r == (selection is Some && selection->0@ == "Yes"@),
{
    match selection {
        Some(choice) => *choice.as_str() == *"Yes",
        None => false,
    }
}

/// The one option that a menu ended with: the last of those it gave.
pub fn select_one(selections: Option<Vec<String>>) -> (r: Option<String>)
    ensures
        r is Some <==> selections is Some && selections->0@.len() > 0,
        r is Some ==> r->0 == selections->0@.last(),
{
    match selections {
        Some(mut selections) => selections.pop(),
        None => None,
    }
}

} // verus!
