use gr::ansi::bare;
use gr::color_cycle::Color;
use gr::tree::{Tree, WithChildren};

#[derive(Clone)]
struct Leafy {
    name: String,
    children: Vec<Leafy>,
}

impl WithChildren for Leafy {
    fn label_spec(&self) -> vstd::seq::Seq<char> {
        unreachable!()
    }

    fn children_spec(&self) -> vstd::seq::Seq<Self> {
        unreachable!()
    }

    fn label(&self) -> String {
        self.name.clone()
    }

    fn children(&self) -> Vec<Leafy> {
        self.children.clone()
    }
}

#[test]
fn test_bare_removes_escape_sequences() {
    assert_eq!(bare("\u{1b}[36m| \u{1b}[0mx"), "| x");
    assert_eq!(bare("\u{1b}[1;31mbold red\u{1b}[0m"), "bold red");
    assert_eq!(bare("plain"), "plain");
    assert_eq!(bare(""), "");
}

#[test]
fn test_bare_keeps_an_escape_that_opens_no_sequence() {
    assert_eq!(bare("a\u{1b}b"), "a\u{1b}b");
    assert_eq!(bare("a\u{1b}"), "a\u{1b}");
}

#[test]
fn test_bare_drops_a_sequence_that_never_ends() {
    assert_eq!(bare("ab\u{1b}[12"), "ab");
    assert_eq!(bare("ab\u{1b}["), "ab");
}

#[test]
fn test_bare_gives_a_painted_text_back() {
    assert_eq!(bare(&Color::Cyan.paint("name")), "name");
    assert_eq!(bare(&Color::BrightYellow.paint("")), "");
}

#[test]
fn test_bare_picture_keeps_connectors_and_bars() {
    let tree = Tree::new(Leafy {
        name: "root".to_string(),
        children: vec![
            Leafy {
                name: "a\nmore".to_string(),
                children: vec![Leafy { name: "aa".to_string(), children: vec![] }],
            },
            Leafy { name: "b".to_string(), children: vec![] },
        ],
    });
    let expected = [
        "\u{250c}\u{2500}b",
        "| \u{250c}\u{2500}aa",
        "\u{251c}\u{2500}a",
        "| more",
        "root",
    ]
    .join("\n");
    assert_eq!(bare(&tree.to_string()), expected);
}
