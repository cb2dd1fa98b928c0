use gr::str_tools::{StrTools, Triple};

#[test]
fn test_divide_at() {
    let s = "hello";
    let t = s.divide_at(3);
    assert_eq!(t.left, Some("hel".to_owned()));
    assert_eq!(t.middle, Some("l".to_owned()));
    assert_eq!(t.right, Some("o".to_owned()));
}

#[test]
fn test_dividing_out_of_bounds() {
    let s = "hello";
    let t = s.divide_at(5);
    assert_eq!(t.left, Some("hello".to_owned()));
    assert_eq!(t.middle, None);
    assert_eq!(t.right, None);
}

#[test]
fn test_dividing_at_end() {
    let s = "hello";
    let t = s.divide_at(4);
    assert_eq!(t.left, Some("hell".to_owned()));
    assert_eq!(t.middle, Some("o".to_owned()));
    assert_eq!(t.right, None);
}

#[test]
fn test_dividing_empty_str() {
    let s = "";
    let t = s.divide_at(0);
    assert_eq!(t.left, Some("".to_owned()));
    assert_eq!(t.middle, None);
    assert_eq!(t.right, None);
}

#[test]
fn test_combining_triple() {
    let t = Triple::new(Some("hello".to_owned()), Some(" ".to_owned()), Some("world".to_owned()));
    assert_eq!(t.join(), "hello world".to_owned());
}

#[test]
fn test_dividing_before_a_wide_character() {
    let t = "h\u{e9}llo".to_owned().divide_at(1);
    assert_eq!(t.left, Some("h".to_owned()));
    assert_eq!(t.middle, None);
    assert_eq!(t.right, None);
    assert_eq!("abc".car(), Some("a".to_owned()));
    assert_eq!("abc".cdr(), Some("bc".to_owned()));
    assert_eq!("".car(), None);
    assert_eq!("\u{e9}".cdr(), None);
    let partly = Triple::new(Some("a".to_owned()), None, Some("c".to_owned()));
    assert_eq!(partly.join(), "ac");
}
