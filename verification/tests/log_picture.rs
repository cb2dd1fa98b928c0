use gr::git::Git;
use gr::log_picture::{branch_on, read_log};
use gr::log_tree::{LogBranch, LogCommit};
use gr::stack::Stack;
use gr::tree::Tree;

fn forest() -> Stack {
    let git = Git::open(
        "true",
        "c",
        "main\na\nb\nc\nd\nother",
        "  main 1111111 [origin/main] base\n  a 2222222 [main] one\n  b 3333333 [main: ahead 1] two\n* c 4444444 [a] three\n  d 5555555 [c] four\n  other 6666666 lonely",
        "origin",
    );
    let mut stack = Stack::build(&git).unwrap();
    for (name, diff) in [
        ("a", "2222222 Work on a\n2222221 Start of a"),
        ("b", "3333333 Work on b"),
        ("c", "4444444 Work on c"),
        ("d", "5555555 Work on d"),
    ] {
        let place = stack.find(name).unwrap();
        stack.set_commits(place, LogCommit::oldest_first(diff.to_string()));
    }
    stack
}

#[test]
fn test_branch_on_takes_what_stands_before_the_first_blank() {
    assert_eq!(branch_on("a - Newest of a"), "a");
    assert_eq!(branch_on("feature/x - "), "feature/x");
    assert_eq!(branch_on("name"), "name");
    assert_eq!(branch_on(" - title"), "");
    assert_eq!(branch_on(""), "");
}

#[test]
fn test_log_picture_gives_names_and_parents_back() {
    let stack = forest();
    let tree = Tree::of(LogBranch::from_branch(&stack, "main").unwrap().tree());
    let rows = read_log(&tree.to_string());
    let read: Vec<(String, usize, Option<usize>)> =
        rows.iter().map(|r| (r.name.clone(), r.depth, r.parent)).collect();
    assert_eq!(
        read,
        vec![
            ("main".to_string(), 0, None),
            ("a".to_string(), 1, Some(0)),
            ("c".to_string(), 2, Some(1)),
            ("d".to_string(), 3, Some(2)),
            ("b".to_string(), 1, Some(0)),
        ]
    );
    for row in &rows {
        let place = stack.find(&row.name).unwrap();
        let branch = &stack.branches[place];
        assert_eq!(row.depth, branch.depth);
        match row.parent {
            Some(q) => assert_eq!(Some(stack.find(&rows[q].name).unwrap()), branch.local_parent),
            None => assert_eq!(branch.local_parent, None),
        }
    }
}

#[test]
fn test_log_picture_of_a_side_branch_starts_at_depth_zero() {
    let stack = forest();
    let tree = Tree::of(LogBranch::from_branch(&stack, "a").unwrap().tree());
    let rows = read_log(&tree.to_string());
    let read: Vec<(String, usize, Option<usize>)> =
        rows.iter().map(|r| (r.name.clone(), r.depth, r.parent)).collect();
    assert_eq!(
        read,
        vec![
            ("a".to_string(), 0, None),
            ("c".to_string(), 1, Some(0)),
            ("d".to_string(), 2, Some(1)),
        ]
    );
}

#[test]
fn test_log_picture_of_a_lonely_root() {
    let stack = forest();
    let tree = Tree::of(LogBranch::from_branch(&stack, "other").unwrap().tree());
    let rows = read_log(&tree.to_string());
    assert_eq!(rows.len(), 1);
    assert_eq!(rows[0].name, "other");
    assert_eq!(rows[0].depth, 0);
    assert_eq!(rows[0].parent, None);
}
