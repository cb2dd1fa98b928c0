use gr::git::Git;
use gr::outline::{count_units, parse_outline};
use gr::stack::Stack;

fn wide() -> Stack {
    let git = Git::open(
        "true",
        "x",
        "root\na\nb\nx\ny\np\nother\n|odd",
        "root 1111111 base\na 2222222 [root] .\nb 3333333 [root] .\nx 4444444 [a] .\ny 5555555 [a] .\np 6666666 [y] .\nother 8888888 lonely\n|odd 9999999 [other] .",
        "",
    );
    Stack::build(&git).unwrap()
}

#[test]
fn test_outline_lists_every_root_with_what_hangs_below() {
    assert_eq!(
        wide().outline(),
        vec!["root", "| a", "| | x", "| | y", "| | | p", "| b", "other", "| |odd"]
    );
    let empty = Stack::build(&Git::open("true", "", "", "", "")).unwrap();
    assert!(empty.outline().is_empty());
}

#[test]
fn test_outline_read_back_gives_names_and_parents() {
    let stack = wide();
    let rows = parse_outline(&stack.outline());
    assert_eq!(rows.len(), stack.branches.len());
    let mut seen: Vec<String> = rows.iter().map(|r| r.name.clone()).collect();
    let mut names: Vec<String> = stack.branches.iter().map(|b| b.name.clone()).collect();
    seen.sort();
    names.sort();
    assert_eq!(seen, names);
    for row in &rows {
        let branch = &stack.branches[stack.find(&row.name).unwrap()];
        assert_eq!(row.depth, branch.depth);
        let parent = row.parent.map(|q| rows[q].name.clone());
        let expected = branch.local_parent.map(|p| stack.branches[p].name.clone());
        assert_eq!(parent, expected);
    }
}

#[test]
fn test_parse_outline_reads_depth_and_nearest_row_above() {
    let lines: Vec<String> =
        ["r", "| a", "| | | deep", "| b", "s", "|x", "| "].iter().map(|s| s.to_string()).collect();
    let rows: Vec<(String, usize, Option<usize>)> =
        parse_outline(&lines).into_iter().map(|r| (r.name, r.depth, r.parent)).collect();
    assert_eq!(
        rows,
        vec![
            ("r".to_string(), 0, None),
            ("a".to_string(), 1, Some(0)),
            ("deep".to_string(), 3, Some(1)),
            ("b".to_string(), 1, Some(0)),
            ("s".to_string(), 0, None),
            ("|x".to_string(), 0, None),
            ("".to_string(), 1, Some(5)),
        ]
    );
    assert_eq!(count_units(&"| | x".chars().collect()), 2);
    assert_eq!(count_units(&"|".chars().collect()), 0);
    assert!(parse_outline(&Vec::new()).is_empty());
}
