use gr::line_editor::OneLineBuffer;

#[test]
fn test_insert() {
    let mut buffer = OneLineBuffer::new("");
    assert_eq!(buffer.cursor(), 0);

    buffer.insert('a');
    assert_eq!(buffer.cursor(), 1);

    buffer.insert('b');
    assert_eq!(buffer.cursor(), 2);

    buffer.insert('c');
    assert_eq!(buffer.cursor(), 3);

    assert_eq!(buffer.text(), "abc");
}

#[test]
fn test_delete() {
    let mut buffer = OneLineBuffer::new("");
    buffer.insert('a');
    buffer.insert('b');
    buffer.insert('c');
    buffer.left();
    buffer.delete();
    assert_eq!(buffer.text(), "ab");
    assert_eq!(buffer.cursor(), 2);
}

#[test]
fn test_delete_at_end() {
    let mut buffer = OneLineBuffer::new("");
    buffer.insert('a');
    buffer.insert('b');
    buffer.insert('c');
    buffer.delete(); // Nothing to delete under the cursor
    assert_eq!(buffer.text(), "abc");
    assert_eq!(buffer.cursor(), 3);
}

#[test]
fn test_backspace() {
    let mut buffer = OneLineBuffer::new("");
    buffer.insert('a');
    buffer.insert('b');
    buffer.insert('c');
    buffer.backspace();
    assert_eq!(buffer.text(), "ab");
    assert_eq!(buffer.cursor(), 2);
}

#[test]
fn test_home() {
    let mut buffer = OneLineBuffer::new("");
    buffer.insert('a');
    buffer.insert('b');
    buffer.insert('c');
    buffer.home();
    assert_eq!(buffer.text(), "abc");
    assert_eq!(buffer.cursor(), 0);
}

#[test]
fn test_end() {
    let mut buffer = OneLineBuffer::new("");
    buffer.insert('a');
    buffer.insert('b');
    buffer.insert('c');
    buffer.end();
    assert_eq!(buffer.text(), "abc");
    assert_eq!(buffer.cursor(), 3);
}

#[test]
fn test_left() {
    let mut buffer = OneLineBuffer::new("");
    buffer.insert('a');
    buffer.insert('b');
    buffer.insert('c');
    buffer.left();
    assert_eq!(buffer.text(), "abc");
    assert_eq!(buffer.cursor(), 2);
}

#[test]
fn test_right() {
    let mut buffer = OneLineBuffer::new("");
    buffer.insert('a');
    buffer.insert('b');
    buffer.insert('c');
    buffer.right();
    assert_eq!(buffer.text(), "abc");
    assert_eq!(buffer.cursor(), 3);
}

#[test]
fn test_new_keeps_text_and_starts_at_front() {
    let mut buffer = OneLineBuffer::new("héllo");
    assert_eq!(buffer.cursor(), 0);
    assert_eq!(buffer.display(), "héllo");
    buffer.right();
    buffer.right();
    buffer.delete();
    assert_eq!(buffer.text(), "hélo");
    buffer.backspace();
    assert_eq!(buffer.text(), "hlo");
    assert_eq!(buffer.cursor(), 1);
    buffer.clear();
    assert_eq!(buffer.text(), "");
    assert_eq!(buffer.cursor(), 0);
    buffer.left();
    buffer.backspace();
    assert_eq!(buffer.cursor(), 0);
}
