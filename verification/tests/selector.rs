use gr::selector::Selector;

#[test]
fn test_pagination_moves_cursor() {
    let mut selector = Selector::new(vec!["a", "b", "c", "d"], false, 2);
    assert_eq!(selector.cursor(), 0);
    assert_eq!(selector.page(), 0);

    selector.page_down();
    assert_eq!(selector.cursor(), 2);
    assert_eq!(selector.page(), 1);

    selector.page_up();
    assert_eq!(selector.cursor(), 0);
    assert_eq!(selector.page(), 0);
}

#[test]
fn test_page_follows_cursor() {
    let mut selector = Selector::new(vec!["a", "b", "c", "d"], false, 2);
    assert_eq!(selector.page(), 0);
    assert_eq!(selector.cursor(), 0);

    selector.down();
    assert_eq!(selector.page(), 0);
    assert_eq!(selector.cursor(), 1);

    selector.down();
    selector.down();
    assert_eq!(selector.cursor(), 3);
    assert_eq!(selector.page(), 1);

    selector.up();
    selector.up();
    assert_eq!(selector.cursor(), 1);
    assert_eq!(selector.page(), 0);
}

#[test]
fn test_selection() {
    let mut selector = Selector::new(vec!["a", "b", "c", "d"], false, 2);
    selector.down(); // move to 'b'
    selector.toggle(); // select 'b'

    assert_eq!(selector.selections(), vec!["b"]);
    assert_eq!(selector.selected_count(), 1);
}

#[test]
fn test_deselection() {
    let mut selector = Selector::new(vec!["a", "b", "c", "d"], false, 2);
    selector.down(); // move to 'b'
    selector.toggle(); // select 'b'
    selector.toggle(); // deselect 'b'

    assert!(selector.selections().is_empty());
    assert_eq!(selector.selected_count(), 0);
}

#[test]
fn test_single_selection_moves_the_mark() {
    let mut selector = Selector::new(vec!["a", "b", "c", "d"], false, 2);
    selector.toggle();
    selector.down();
    selector.toggle();
    assert_eq!(selector.selections(), vec!["b"]);
}

#[test]
fn test_multiselect_keeps_marks() {
    let mut selector = Selector::new(vec!["a", "b", "c", "d"], true, 2);
    selector.toggle();
    selector.move_to_end();
    selector.toggle();
    assert_eq!(selector.selections(), vec!["a", "d"]);
    assert_eq!(selector.selected_count(), 2);
    selector.delesect_all();
    assert!(selector.selections().is_empty());
}

#[test]
fn test_display_shows_current_page() {
    let mut selector = Selector::new(vec!["a", "b", "c", "d"], false, 2);
    assert_eq!(selector.display(), "> a\n  b");
    selector.move_to(3);
    assert_eq!(selector.display(), "  c\n> d");
    selector.toggle();
    assert_eq!(selector.display(), "  c\n> \u{1b}[1md\u{1b}[0m");
    assert_eq!(selector.page_range(), (2, 4));
    assert!(selector.on_current_page(2));
    assert!(!selector.on_current_page(1));
}

#[test]
fn test_moves_stop_at_the_ends() {
    let mut selector = Selector::new(vec!["a", "b", "c"], false, 2);
    selector.up();
    assert_eq!(selector.cursor(), 0);
    selector.move_to(17);
    assert_eq!(selector.cursor(), 2);
    assert_eq!(selector.page(), 1);
    selector.down();
    assert_eq!(selector.cursor(), 2);
    selector.move_to_beginning();
    assert_eq!(selector.cursor(), 0);
    assert_eq!(selector.page(), 0);
    let mut empty = Selector::new(Vec::new(), false, 5);
    empty.down();
    empty.toggle();
    empty.page_down();
    assert_eq!(empty.cursor(), 0);
    assert_eq!(empty.display(), "");
}
