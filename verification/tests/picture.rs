use gr::git::Git;
use gr::log_tree::{LogBranch, LogCommit};
use gr::outline::OutlineRow;
use gr::picture::{hang, indentation, read_picture};
use gr::stack::Stack;
use gr::tree::{Tree, WithChildren};

#[derive(Clone)]
struct Item {
    name: String,
    children: Vec<Item>,
}

impl WithChildren for Item {
    fn label_spec(&self) -> vstd::seq::Seq<char> {
        unreachable!()
    }

    fn children_spec(&self) -> vstd::seq::Seq<Self> {
        unreachable!()
    }

    fn label(&self) -> String {
        self.name.clone()
    }

    fn children(&self) -> Vec<Item> {
        self.children.clone()
    }
}

fn item(name: &str, children: Vec<Item>) -> Item {
    Item { name: String::from(name), children }
}

fn plain(rows: &Vec<OutlineRow>) -> Vec<(String, usize, Option<usize>)> {
    rows.iter().map(|r| (r.name.clone(), r.depth, r.parent)).collect()
}

fn row(name: &str, depth: usize, parent: Option<usize>) -> (String, usize, Option<usize>) {
    (name.to_string(), depth, parent)
}

#[test]
fn test_picture_of_a_tree_reads_back() {
    let tree = Tree::new(item(
        "root",
        vec![
            item(
                "a",
                vec![
                    item("aa", vec![]),
                    item("ab\nababab\nXyzzzay\ndfkai", vec![item("aba", vec![])]),
                    item("ac", vec![]),
                ],
            ),
            item("b", vec![item("ba", vec![])]),
        ],
    ));
    let rows = read_picture(&tree.to_string());
    assert_eq!(
        plain(&rows),
        vec![
            row("root", 0, None),
            row("a", 1, Some(0)),
            row("aa", 2, Some(1)),
            row("ab", 2, Some(1)),
            row("aba", 3, Some(3)),
            row("ac", 2, Some(1)),
            row("b", 1, Some(0)),
            row("ba", 2, Some(6)),
        ]
    );
}

#[test]
fn test_picture_of_a_chain_reads_back() {
    let tree = Tree::new(item("main", vec![item("one", vec![item("two", vec![item("three", vec![])])])]));
    let rows = read_picture(&tree.to_string());
    assert_eq!(
        plain(&rows),
        vec![
            row("main", 0, None),
            row("one", 1, Some(0)),
            row("two", 2, Some(1)),
            row("three", 3, Some(2)),
        ]
    );
}

#[test]
fn test_picture_of_a_log_reads_back() {
    let git = Git::open(
        "true",
        "a",
        "root\na\nb\nc",
        "  root 1111111 [origin/root] base\n* a 2222222 [root] one\n  b 3333333 [root] two\n  c 4444444 [a] three",
        "origin",
    );
    let mut stack = Stack::build(&git).unwrap();
    let place = |stack: &Stack, name: &str| stack.find(name).unwrap();
    let a = place(&stack, "a");
    let b = place(&stack, "b");
    let c = place(&stack, "c");
    stack.set_commits(
        a,
        LogCommit::oldest_first("2222222bbbb Newest of a\n1234567890 Oldest of a".to_string()),
    );
    stack.set_commits(b, LogCommit::oldest_first("3333333 Only of b".to_string()));
    stack.set_commits(c, LogCommit::oldest_first("4444444 Only of c".to_string()));
    let tree = Tree::of(LogBranch::from_branch(&stack, "root").unwrap().tree());
    let rows = read_picture(&tree.to_string());
    assert_eq!(
        plain(&rows),
        vec![
            row("root - ", 0, None),
            row("a - Newest of a", 1, Some(0)),
            row("c - Only of c", 2, Some(1)),
            row("b - Only of b", 1, Some(0)),
        ]
    );
}

#[test]
fn test_picture_of_a_single_label() {
    assert_eq!(plain(&read_picture("root")), vec![row("root", 0, None)]);
    assert_eq!(plain(&read_picture("root\n  more")), vec![row("root", 0, None)]);
    assert_eq!(plain(&read_picture("")), vec![row("", 0, None)]);
}

#[test]
fn test_picture_without_a_root() {
    let text = "\u{1b}[36m\u{250c}\u{2500}x\u{1b}[0m";
    assert_eq!(plain(&read_picture(text)), vec![row("x", 1, None)]);
    let two = "  \u{1b}[35m\u{250c}\u{2500}y\u{1b}[0m\n\u{1b}[36m\u{251c}\u{2500}x\u{1b}[0m";
    assert_eq!(plain(&read_picture(two)), vec![row("x", 1, None), row("y", 2, Some(0))]);
}

#[test]
fn test_indentation_counts_blanks_and_bars() {
    let chars = |s: &str| s.chars().collect::<Vec<char>>();
    assert_eq!(indentation(&chars("x")), (0, 0));
    assert_eq!(indentation(&chars("  x")), (1, 2));
    assert_eq!(indentation(&chars(" x")), (0, 0));
    assert_eq!(indentation(&chars("  \u{1b}[36m| \u{1b}[0m  x")), (3, 15));
    assert_eq!(indentation(&chars("\u{1b}[36m| \u{1b}[0mx")), (1, 11));
    assert_eq!(indentation(&chars("| x")), (0, 0));
    assert_eq!(indentation(&chars("")), (0, 0));
}

#[test]
fn test_hang_finds_the_nearest_row_less_deep() {
    let names: Vec<String> = ["r", "a", "b", "c", "d"].iter().map(|s| s.to_string()).collect();
    let rows = hang(&names, &vec![0, 1, 2, 1, 0]);
    assert_eq!(
        plain(&rows),
        vec![
            row("r", 0, None),
            row("a", 1, Some(0)),
            row("b", 2, Some(1)),
            row("c", 1, Some(0)),
            row("d", 0, None),
        ]
    );
}
