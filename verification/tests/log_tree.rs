use gr::git::Git;
use gr::log_tree::{GitBranch, LogBranch, LogCommit, NamedData};
use gr::stack::Stack;
use gr::tree::{Node, Tree, WithChildren};

fn stack() -> Stack {
    let git = Git::open(
        "true",
        "a",
        "root\na\nb",
        "  root 1111111 [origin/root] base\n* a 2222222 [root] one\n  b 3333333 [root] two",
        "origin",
    );
    let mut stack = Stack::build(&git).unwrap();
    stack.set_sha(0, "1111111aaaa".to_string());
    stack.set_commits(
        1,
        LogCommit::oldest_first("2222222bbbb Newest of a\n1234567890 Oldest of a".to_string()),
    );
    stack.set_commits(2, LogCommit::oldest_first("3333333 Only of b".to_string()));
    stack
}

#[test]
fn test_from_diff_reads_one_commit_per_line() {
    let commits = LogCommit::from_diff("abc123 First line here\ndef456 Second\n\nlonely".to_string());
    let seen: Vec<(String, String, usize)> =
        commits.into_iter().map(|c| (c.sha, c.title, c.index)).collect();
    assert_eq!(
        seen,
        vec![
            ("abc123".to_string(), "First line here".to_string(), 0),
            ("def456".to_string(), "Second".to_string(), 1),
            ("lonely".to_string(), "".to_string(), 2),
        ]
    );
    assert!(LogCommit::from_diff(String::new()).is_empty());
}

#[test]
fn test_from_diff_keeps_spaces_of_the_title() {
    let commits = LogCommit::from_diff("abc  two spaces".to_string());
    assert_eq!(commits[0].sha, "abc");
    assert_eq!(commits[0].title, " two spaces");
}

#[test]
fn test_oldest_first_turns_the_listing_round() {
    let shas: Vec<String> =
        LogCommit::oldest_first("c3 x\nc2 y\nc1 z".to_string()).into_iter().map(|c| c.sha).collect();
    assert_eq!(shas, vec!["c1", "c2", "c3"]);
}

#[test]
fn test_commit_line_shortens_the_id() {
    let long = LogCommit { sha: "0123456789abcdef".to_string(), title: "Fix things".to_string(), index: 0 };
    assert_eq!(long.to_string(), "\u{1b}[90m0123456\u{1b}[0m Fix things");
    let short = LogCommit { sha: "0123".to_string(), title: "t".to_string(), index: 0 };
    assert_eq!(short.to_string(), "\u{1b}[90m0123\u{1b}[0m t");
    let exact = LogCommit { sha: "0123456".to_string(), title: "".to_string(), index: 0 };
    assert_eq!(exact.to_string(), "\u{1b}[90m0123456\u{1b}[0m ");
}

#[test]
fn test_git_branch_root_is_the_first_root() {
    let stack = stack();
    let root = GitBranch::root(&stack).unwrap();
    assert_eq!(root.name, "root");
    assert_eq!(root.sha, "1111111aaaa");
    let made = GitBranch::new("n".to_string(), "s".to_string());
    assert_eq!((made.name.as_str(), made.sha.as_str()), ("n", "s"));
    let empty = Stack::build(&Git::open("true", "", "", "", "")).unwrap();
    assert!(GitBranch::root(&empty).is_none());
}

#[test]
fn test_log_branch_shows_newest_subject_and_commits() {
    let stack = stack();
    let a = LogBranch::from_branch(&stack, "a").unwrap();
    assert_eq!(a.name(), "a - Newest of a");
    assert_eq!(
        a.data(),
        "\u{1b}[90m2222222\u{1b}[0m Newest of a\n\u{1b}[90m1234567\u{1b}[0m Oldest of a"
    );
    assert_eq!(
        a.to_string(),
        "a - Newest of a\n  \u{1b}[90m2222222\u{1b}[0m Newest of a\n  \u{1b}[90m1234567\u{1b}[0m Oldest of a"
    );
    let root = LogBranch::from_branch(&stack, "root").unwrap();
    assert_eq!(root.name(), "root - ");
    assert_eq!(root.data(), "");
    assert_eq!(root.label(), "root - \n  ");
    assert!(LogBranch::from_branch(&stack, "nowhere").is_none());
    let b = LogBranch::from(&stack, &GitBranch::new("b".to_string(), String::new())).unwrap();
    assert_eq!(b.place, 2);
}

#[test]
fn test_log_branch_children_follow_the_stack() {
    let stack = stack();
    let root = LogBranch::from_branch(&stack, "root").unwrap();
    let places: Vec<usize> = root.children().iter().map(|c| c.place).collect();
    assert_eq!(places, vec![1, 2]);
    assert!(LogBranch::from_branch(&stack, "b").unwrap().children().is_empty());
    let stray = LogBranch { stack: &stack, place: 17 };
    assert!(stray.children().is_empty());
    assert_eq!(stray.label(), " - \n  ");
}

fn names(node: &Node<LogBranch>) -> Vec<(String, usize)> {
    let mut out = vec![(node.label.lines().next().unwrap().to_string(), node.children.len())];
    for child in &node.children {
        out.extend(names(child));
    }
    out
}

#[test]
fn test_tree_of_a_branch_matches_the_generic_tree() {
    let stack = stack();
    let root = LogBranch::from_branch(&stack, "root").unwrap();
    let exact = Tree::of(root.tree());
    let grown = Tree::new(LogBranch { stack: &stack, place: root.place });
    assert_eq!(exact.to_string(), grown.to_string());
    assert_eq!(
        names(&exact.root),
        vec![
            ("root - ".to_string(), 2),
            ("a - Newest of a".to_string(), 0),
            ("b - Only of b".to_string(), 0)
        ]
    );
}

#[test]
fn test_log_of_a_stack() {
    let stack = stack();
    let tree = Tree::of(LogBranch::from_branch(&stack, "root").unwrap().tree());
    let cyan = "\u{1b}[36m";
    let magenta = "\u{1b}[35m";
    let grey = "\u{1b}[90m";
    let reset = "\u{1b}[0m";
    let corner = "\u{250c}\u{2500}";
    let tee = "\u{251c}\u{2500}";
    let expected = [
        format!("{magenta}{corner}b - Only of b"),
        format!("{magenta}| {reset}  {grey}3333333{reset} Only of b{reset}"),
        format!("{cyan}{tee}a - Newest of a"),
        format!("{cyan}| {reset}  {grey}2222222{reset} Newest of a"),
        format!("{cyan}| {reset}  {grey}1234567{reset} Oldest of a{reset}"),
        "root - ".to_string(),
        "  ".to_string(),
    ]
    .join("\n");
    assert_eq!(tree.to_string(), expected);
}
