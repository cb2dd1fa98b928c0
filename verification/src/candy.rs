//! The prompts: a line editor and a chooser, as far as they decide.
//!
//! Nothing here touches the terminal.  The caller reads a key, hands it to
//! the prompt and draws what the prompt has become, until the prompt gives
//! the event it ended with.

use vstd::prelude::*;
use vstd::string::StringExecFns;
use crate::ansi;
use crate::ansi::AnsiWrapper;
use crate::events::CandyEvent;
use crate::events::Key;
use crate::line_editor::OneLineBuffer;
use crate::selector;
use crate::selector::Selector;
use crate::selector::SelectorView;
use crate::text;

verus! {

/// The prompts of the terminal.
pub struct Candy {}

/// Something that can be offered for choice.
pub trait CandyOption {
    spec fn id_spec(&self) -> Seq<char>;

    spec fn render_spec(&self, index: int, cursor_at: int, selections: Seq<bool>) -> Seq<char>;

    /// What stands for the option in the answer.
    fn id(&self) -> (r: String)
        ensures
            r@ == self.id_spec(),
    ;

    /// How the option is shown as the `index`-th of a list in which the
    /// cursor stands at `cursor_at` and the options are marked as
    /// `selections` says.
    fn render(&self, index: usize, cursor_at: usize, selections: &Vec<bool>) -> (r: String)
        requires
            index < selections@.len(),
        ensures
            r@ == self.render_spec(index as int, cursor_at as int, selections@),
    ;
}

/// A plain option: in bold under the cursor, in green when it is marked.
pub open spec fn plain_render(text: Seq<char>, index: int, cursor_at: int, selections: Seq<bool>) -> Seq<
    char,
> {
    let shown = if index == cursor_at {
        ansi::wrapped(ansi::BOLD@, text)
    } else {
        text
    };
    if selections[index] {
        ansi::wrapped(ansi::GREEN@, shown)
    } else {
        shown
    }
}

impl CandyOption for String {
    open spec fn id_spec(&self) -> Seq<char> {
        self@
    }

    open spec fn render_spec(&self, index: int, cursor_at: int, selections: Seq<bool>) -> Seq<char> {
        plain_render(self@, index, cursor_at, selections)
    }

    fn id(&self) -> (r: String) {
        self.clone()
    }

    fn render(&self, index: usize, cursor_at: usize, selections: &Vec<bool>) -> (r: String) {
        let mut out = self.clone();
        if index == cursor_at {
            out = out.bold();
        }
        if selections[index] {
            out = out.green();
        }
        out
    }
}

impl CandyOption for &str {
    open spec fn id_spec(&self) -> Seq<char> {
        self@
    }

    open spec fn render_spec(&self, index: int, cursor_at: int, selections: Seq<bool>) -> Seq<char> {
        plain_render(self@, index, cursor_at, selections)
    }

    fn id(&self) -> (r: String) {
        String::from_str(*self)
    }

    fn render(&self, index: usize, cursor_at: usize, selections: &Vec<bool>) -> (r: String) {
        String::from_str(*self).render(index, cursor_at, selections)
    }
}

/// What a key does to a chooser.
pub open spec fn chooser_after(s: SelectorView, key: Key) -> SelectorView {
    match key {
        Key::Home => s.moved_to(0),
        Key::Up => if s.cursor > 0 {
            s.moved_to((s.cursor - 1) as nat)
        } else {
            s
        },
        Key::Down => if s.cursor + 1 < s.options.len() {
            s.moved_to(s.cursor + 1)
        } else {
            s
        },
        Key::Left | Key::PageUp => s.moved_to(
            if s.cursor > s.page_size {
                (s.cursor - s.page_size) as nat
            } else {
                0
            },
        ),
        Key::Right | Key::PageDown => s.moved_to(
            if s.cursor + s.page_size < s.options.len() {
                s.cursor + s.page_size
            } else if s.options.len() == 0 {
                0
            } else {
                (s.options.len() - 1) as nat
            },
        ),
        Key::End => s.moved_to(
            if s.options.len() == 0 {
                0
            } else {
                (s.options.len() - 1) as nat
            },
        ),
        Key::Char(c) => if c == ' ' {
            SelectorView { selections: s.toggled(), ..s }
        } else {
            s
        },
        _ => s,
    }
}

impl Candy {
    pub fn new() -> Candy {
        Candy {  }
    }

    /// What is drawn for a line prompt: the prompt, a blank and the line.
    pub fn prompt_line(&self, prompt: &str, input: &OneLineBuffer) -> (r: String)
        ensures
            r@ == prompt@ + " "@ + input@,
    {
        text::concat3(prompt, " ", input.display().as_str())
    }

    /// One key of a line prompt.  A character goes into the line, the
    /// movement and deletion keys act on it, Enter ends the prompt with the
    /// line and Esc ends it without an answer; any other key does nothing.
    pub fn edit_line(&self, input: &mut OneLineBuffer, key: Key) -> (r: Option<CandyEvent>)
        requires
            old(input).wf(),
        ensures
            final(input).wf(),
            r is Some <==> key == Key::Enter || key == Key::Esc,
            key == Key::Enter ==> r->0 is Submit && r->0->Submit_0@ == old(input)@,
            key == Key::Esc ==> r->0 is Cancel,
            final(input)@ == match key {
                Key::Char(c) => old(input)@.insert(old(input).position() as int, c),
                Key::Backspace => if old(input).position() > 0 {
                    old(input)@.remove(old(input).position() - 1)
                } else {
                    old(input)@
                },
                Key::Delete => if old(input).position() < old(input)@.len() {
                    old(input)@.remove(old(input).position() as int)
                } else {
                    old(input)@
                },
                _ => old(input)@,
            },
            final(input).position() == match key {
                Key::Char(c) => old(input).position() + 1,
                Key::Home => 0,
                Key::End => old(input)@.len(),
                Key::Left | Key::Backspace => if old(input).position() > 0 {
                    (old(input).position() - 1) as nat
                } else {
                    0
                },
                Key::Right => if old(input).position() < old(input)@.len() {
                    old(input).position() + 1
                } else {
                    old(input).position()
                },
                _ => old(input).position(),
            },
    {
        match key {
            Key::Char(c) => {
                input.insert(c);
                None
            },
            Key::Home => {
                input.home();
                None
            },
            Key::Left => {
                input.left();
                None
            },
            Key::Right => {
                input.right();
                None
            },
            Key::End => {
                input.end();
                None
            },
            Key::Backspace => {
                input.backspace();
                None
            },
            Key::Delete => {
                input.delete();
                None
            },
            Key::Enter => Some(CandyEvent::Submit(input.text())),
            Key::Esc => Some(CandyEvent::Cancel),
            _ => None,
        }
    }

    /// Whether a question was answered with yes.
    pub fn yn(&self, event: &CandyEvent) -> (r: bool)
        ensures
            r == (event is Submit && event->Submit_0@ == "y"@),
    {
        match event {
            CandyEvent::Submit(selected) => *selected.as_str() == *"y",
            _ => false,
        }
    }

    /// The end of a prompt for one option out of several: the first option
    /// that was chosen is the answer.  A choice of nothing is no answer.
    pub fn select_one(&self, event: CandyEvent) -> (r: CandyEvent)
        ensures
            event is Select && event->Select_0@.len() > 0 ==> r is Submit && r->Submit_0@
                == event->Select_0@[0]@,
            event is Select && event->Select_0@.len() == 0 ==> r is Cancel,
            !(event is Select) ==> r == event,
    {
        match event {
            CandyEvent::Select(selections) => {
                if selections.len() > 0 {
                    CandyEvent::Submit(selections[0].clone())
                } else {
                    CandyEvent::Cancel
                }
            },
            e => e,
        }
    }

    /// One key of a chooser.  The movement keys move the cursor, the space
    /// bar marks the option under it, Enter ends the prompt with the marked
    /// options and Esc ends it without an answer.
    pub fn choose_option(&self, selector: &mut Selector, key: Key) -> (r: Option<CandyEvent>)
        requires
            old(selector).wf(),
        ensures
            final(selector).wf(),
            final(selector)@ == chooser_after(old(selector)@, key),
            r is Some <==> key == Key::Enter || key == Key::Esc,
            key == Key::Esc ==> r->0 is Cancel,
            key == Key::Enter ==> r->0 is Select && text::views(r->0->Select_0@) == selector::chosen(
                old(selector)@.options,
                old(selector)@.selections,
                old(selector)@.options.len() as int,
            ),
    {
        match key {
            Key::Home => {
                selector.move_to_beginning();
                None
            },
            Key::Up => {
                selector.up();
                None
            },
            Key::Down => {
                selector.down();
                None
            },
            Key::Left | Key::PageUp => {
                selector.page_up();
                None
            },
            Key::Right | Key::PageDown => {
                selector.page_down();
                None
            },
            Key::End => {
                selector.move_to_end();
                None
            },
            Key::Char(c) => {
                if c == ' ' {
                    selector.toggle();
                }
                None
            },
            Key::Enter => Some(CandyEvent::Select(selector.selections())),
            Key::Esc => Some(CandyEvent::Cancel),
            _ => None,
        }
    }
}

/// The line that a prompt ended with; nothing where it was left.
pub fn gets(event: CandyEvent) -> (r: String)
    ensures
        r@ == if event is Submit {
            event->Submit_0@
        } else {
            Seq::<char>::empty()
        },
{
    match event {
        CandyEvent::Submit(v) => v,
        _ => String::new(),
    }
}

/// The answer of a prompt that lets the user choose: the first option that
/// was chosen, the default where the chooser was left, and nothing in any
/// other case.
pub fn choice(event: CandyEvent, default: Option<String>) -> (r: String)
    ensures
        r@ == if event is Select && event->Select_0@.len() > 0 {
            event->Select_0@[0]@
        } else if event is Cancel && default is Some {
            default->0@
        } else {
            Seq::<char>::empty()
        },
{
    match event {
        CandyEvent::Select(v) => {
            if v.len() > 0 {
                v[0].clone()
            } else {
                String::new()
            }
        },
        CandyEvent::Cancel => match default {
            Some(d) => d,
            None => String::new(),
        },
        _ => String::new(),
    }
}

} // verus!
