use gr::candy::{choice, gets, Candy, CandyOption};
use gr::events::{CandyEvent, Key};
use gr::line_editor::OneLineBuffer;
use gr::prompt::{one_liner, EditorEvent, Prompt, PromptResult, PromptState};
use gr::select::{format_options, select_one, yn, SelectionEvent, SelectionState};
use gr::selector::Selector;

fn strs(v: &[&str]) -> Vec<String> {
    v.iter().map(|s| s.to_string()).collect()
}

#[test]
fn test_edit_line_types_and_submits() {
    let candy = Candy::new();
    let mut input = OneLineBuffer::new("ab");
    let keys = [
        Key::End,
        Key::Char('d'),
        Key::Left,
        Key::Char('c'),
        Key::Home,
        Key::Delete,
        Key::Right,
        Key::Backspace,
        Key::Up,
        Key::Other,
    ];
    for key in keys {
        assert!(candy.edit_line(&mut input, key).is_none());
    }
    assert_eq!(input.text(), "cd");
    assert_eq!(input.cursor(), 0);
    assert_eq!(candy.prompt_line("Title", &input), "Title cd");
    assert!(matches!(candy.edit_line(&mut input, Key::Enter), Some(CandyEvent::Submit(s)) if s == "cd"));
    assert!(matches!(candy.edit_line(&mut input, Key::Esc), Some(CandyEvent::Cancel)));
}

#[test]
fn test_choose_option_moves_marks_and_selects() {
    let candy = Candy::new();
    let mut selector = Selector::new(vec!["a", "b", "c", "d", "e"], true, 2);
    for key in [Key::Char(' '), Key::Down, Key::PageDown, Key::Char(' '), Key::End, Key::Up, Key::Char('x')] {
        assert!(candy.choose_option(&mut selector, key).is_none());
    }
    assert_eq!(selector.cursor(), 3);
    assert!(matches!(
        candy.choose_option(&mut selector, Key::Enter),
        Some(CandyEvent::Select(v)) if v == strs(&["a", "d"])
    ));
    for key in [Key::Home, Key::Right, Key::Left, Key::PageUp] {
        candy.choose_option(&mut selector, key);
    }
    assert_eq!(selector.cursor(), 0);
    assert!(matches!(candy.choose_option(&mut selector, Key::Esc), Some(CandyEvent::Cancel)));
}

#[test]
fn test_answers_of_prompts() {
    let candy = Candy::new();
    assert!(candy.yn(&CandyEvent::Submit("y".to_string())));
    assert!(!candy.yn(&CandyEvent::Submit("n".to_string())));
    assert!(!candy.yn(&CandyEvent::Cancel));
    assert!(matches!(
        candy.select_one(CandyEvent::Select(strs(&["b", "c"]))),
        CandyEvent::Submit(s) if s == "b"
    ));
    assert!(matches!(candy.select_one(CandyEvent::Select(Vec::new())), CandyEvent::Cancel));
    assert!(matches!(candy.select_one(CandyEvent::Cancel), CandyEvent::Cancel));
    assert!(matches!(
        candy.select_one(CandyEvent::Confirm(None)),
        CandyEvent::Confirm(None)
    ));
    assert_eq!(gets(CandyEvent::Submit("line".to_string())), "line");
    assert_eq!(gets(CandyEvent::Cancel), "");
    assert_eq!(gets(CandyEvent::Select(strs(&["a"]))), "");
    assert_eq!(choice(CandyEvent::Select(strs(&["a", "b"])), None), "a");
    assert_eq!(choice(CandyEvent::Cancel, Some("dflt".to_string())), "dflt");
    assert_eq!(choice(CandyEvent::Cancel, None), "");
    assert_eq!(choice(CandyEvent::Submit("x".to_string()), Some("d".to_string())), "");
}

#[test]
fn test_plain_options_render() {
    let marks = vec![false, true];
    assert_eq!("opt".id(), "opt");
    assert_eq!("opt".to_string().id(), "opt");
    assert_eq!("opt".render(0, 1, &marks), "opt");
    assert_eq!("opt".render(0, 0, &marks), "\u{1b}[1mopt\u{1b}[0m");
    assert_eq!("opt".render(1, 0, &marks), "\u{1b}[32mopt\u{1b}[0m");
    assert_eq!(
        "opt".to_string().render(1, 1, &marks),
        "\u{1b}[32m\u{1b}[1mopt\u{1b}[0m\u{1b}[0m"
    );
}

#[test]
fn test_prompt_state_edits_the_input() {
    let mut state = PromptState::new("Name", "abc");
    assert_eq!(state.cursor(), 3);
    state.left();
    state.add('X');
    assert_eq!(state.input(), "abXc");
    assert_eq!(state.cursor(), 3);
    state.delete();
    assert_eq!(state.input(), "abX");
    state.delete();
    assert_eq!(state.input(), "abX");
    state.backspace();
    assert_eq!(state.input(), "ab");
    state.right();
    assert_eq!(state.cursor(), 2);
    state.left();
    state.left();
    state.left();
    state.backspace();
    assert_eq!((state.input().as_str(), state.cursor()), ("ab", 0));
    assert_eq!(Prompt::new(state).line(), "Name: ab");
}

#[test]
fn test_prompt_handles_events() {
    let mut state = PromptState::new("Name", "");
    for key in [Key::Char('h'), Key::Char('i'), Key::Up, Key::Left, Key::Right, Key::Char('!'), Key::Backspace] {
        assert!(matches!(state.handle_input(EditorEvent::from_key(key)), PromptResult::Pending));
    }
    assert!(matches!(
        state.handle_input(EditorEvent::from_key(Key::Enter)),
        PromptResult::Accept(s) if s == "hi"
    ));
    assert!(matches!(state.handle_input(EditorEvent::from_key(Key::Esc)), PromptResult::Cancel));
    assert_eq!(EditorEvent::from_key(Key::Delete), EditorEvent::Delete);
    assert_eq!(EditorEvent::from_key(Key::PageUp), EditorEvent::Idle);
    assert_eq!(one_liner(PromptResult::Accept("x".to_string()), String::new()), Some("x".to_string()));
    assert_eq!(one_liner(PromptResult::Cancel, "kept".to_string()), Some(String::new()));
    assert_eq!(one_liner(PromptResult::Pending, "kept".to_string()), None);
}

#[test]
fn test_selection_state_single_choice_follows_the_caret() {
    let mut state = SelectionState::new(3, false, true);
    assert_eq!(state.selected_options, vec![0]);
    state.down();
    state.down();
    state.down();
    assert_eq!((state.caret_at, state.selected_options.clone()), (2, vec![2]));
    state.up();
    assert_eq!((state.caret_at, state.selected_options.clone()), (1, vec![1]));
    assert!(state.selected(1));
    assert!(!state.selected(2));
    assert_eq!(state.chosen(&strs(&["Yes", "No", "Maybe"])), Some(strs(&["No"])));
}

#[test]
fn test_selection_state_multiple_choice_toggles() {
    let mut state = SelectionState::new(4, true, false);
    assert!(state.selected_options.is_empty());
    assert_eq!(state.chosen(&strs(&["a", "b", "c", "d"])), None);
    state.toggle(2);
    state.toggle(0);
    state.toggle(2);
    state.toggle(3);
    state.select(3);
    assert_eq!(state.selected_options, vec![0, 3]);
    state.unselect(0);
    state.unselect(7);
    assert_eq!(state.selected_options, vec![3]);
    assert_eq!(state.chosen(&strs(&["a", "b", "c", "d"])), Some(strs(&["d"])));
    let mut empty = SelectionState::new(0, true, false);
    empty.down();
    empty.up();
    assert_eq!(empty.caret_at, 0);
}

#[test]
fn test_selection_events() {
    let mut state = SelectionState::new(3, true, false);
    assert_eq!(SelectionEvent::from_key(Key::Down, &state), SelectionEvent::Down);
    assert_eq!(SelectionEvent::from_key(Key::Up, &state), SelectionEvent::Up);
    assert_eq!(SelectionEvent::from_key(Key::Enter, &state), SelectionEvent::Accept);
    assert_eq!(SelectionEvent::from_key(Key::Char('x'), &state), SelectionEvent::Idle);
    assert_eq!(SelectionEvent::from_key(Key::Esc, &state), SelectionEvent::Idle);
    assert!(!state.apply(SelectionEvent::Down));
    assert_eq!(SelectionEvent::from_key(Key::Char(' '), &state), SelectionEvent::Toggle(1));
    assert!(!state.apply(SelectionEvent::Toggle(1)));
    assert!(!state.apply(SelectionEvent::Idle));
    assert!(!state.apply(SelectionEvent::Up));
    assert!(state.apply(SelectionEvent::Accept));
    assert_eq!((state.caret_at, state.selected_options.clone()), (0, vec![1]));
    assert_eq!(
        format_options(&strs(&["a", "b"]), &state),
        strs(&["\u{25b6}   a", "  \u{2713} b"])
    );
}

#[test]
fn test_answers_of_menus() {
    assert!(yn(&Some("Yes".to_string())));
    assert!(!yn(&Some("No".to_string())));
    assert!(!yn(&None));
    assert_eq!(select_one(Some(strs(&["a", "b"]))), Some("b".to_string()));
    assert_eq!(select_one(Some(Vec::new())), None);
    assert_eq!(select_one(None), None);
}
