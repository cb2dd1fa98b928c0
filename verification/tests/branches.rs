use gr::branches::{extract_parent, parse_branch_line, parse_parents, BranchType};
use gr::errors::StackError;
use gr::git::Git;

const LISTING: &str = "  main      483f881 Add: Branch movement commands
* movements 483f881 [main] Add: Branch movement commands
  feature   0a1b2c3 [movements: ahead 2, behind 1] Work [in] progress
  tracking  99aa00f [origin/main] Track the remote
  loose     1234567 No upstream here";

fn repo() -> Git {
    Git::open(
        "true",
        "movements",
        "main\nmovements\nfeature\ntracking\nloose",
        LISTING,
        "origin",
    )
}

fn pairs(listing: &str) -> Vec<(String, String)> {
    parse_parents(listing).into_iter().map(|t| (t.branch, t.upstream)).collect()
}

fn pair(a: &str, b: &str) -> (String, String) {
    (a.to_string(), b.to_string())
}

#[test]
fn test_line_without_marker_names_a_branch_and_no_upstream() {
    let line = parse_branch_line("  main      483f881 Add: Branch movement commands").unwrap();
    assert_eq!(line.name, "main");
    assert_eq!(line.upstream, None);
}

#[test]
fn test_line_of_current_branch_skips_the_star() {
    let line = parse_branch_line("* movements 483f881 [main] Add: Branch movement commands").unwrap();
    assert_eq!(line.name, "movements");
    assert_eq!(line.upstream, Some("main".to_string()));
}

#[test]
fn test_marker_is_cut_at_the_first_colon() {
    let line = parse_branch_line("  feature 0a1b2c3 [movements: ahead 2, behind 1] Work").unwrap();
    assert_eq!(line.upstream, Some("movements".to_string()));
}

#[test]
fn test_extract_parent() {
    assert_eq!(extract_parent(Some("origin/main: ahead 1")), "origin/main");
    assert_eq!(extract_parent(Some("main")), "main");
    assert_eq!(extract_parent(Some(": gone")), "");
    assert_eq!(extract_parent(None), "");
}

#[test]
fn test_marker_ends_at_the_first_closing_bracket() {
    let line = parse_branch_line("feature 0a1b2c3 [main] Fix [bug] here").unwrap();
    assert_eq!(line.upstream, Some("main".to_string()));
}

#[test]
fn test_bracket_in_the_subject_is_no_marker() {
    let line = parse_branch_line("feature 0a1b2c3 Fix [bug] here").unwrap();
    assert_eq!(line.name, "feature");
    assert_eq!(line.upstream, None);
}

#[test]
fn test_malformed_lines_say_nothing() {
    assert!(parse_branch_line("").is_none());
    assert!(parse_branch_line("   ").is_none());
    assert!(parse_branch_line("lonely").is_none());
    assert!(parse_branch_line("name nothex subject").is_none());
    assert!(parse_branch_line("* (HEAD detached at 1234) abcd msg").is_none());
    assert!(parse_branch_line("name ABCDEF subject").is_none());
}

#[test]
fn test_unclosed_marker_is_no_marker() {
    let line = parse_branch_line("feature 0a1b2c3 [main never closed").unwrap();
    assert_eq!(line.upstream, None);
}

#[test]
fn test_parents_has_one_edge_per_marked_line() {
    assert_eq!(
        pairs(LISTING),
        vec![
            pair("movements", "main"),
            pair("feature", "movements"),
            pair("tracking", "origin/main"),
        ]
    );
}

#[test]
fn test_parents_skips_lines_that_do_not_match() {
    let listing = "garbage\n\n  a 1111111 [main] one\n??? !!!\n  b 2222222 [a] two\n";
    assert_eq!(pairs(listing), vec![pair("a", "main"), pair("b", "a")]);
    assert_eq!(pairs(""), Vec::new());
}

#[test]
fn test_parent_of_filters_by_scope() {
    let git = repo();
    assert_eq!(git.parent_of("movements", BranchType::All).unwrap(), Some("main".to_string()));
    assert_eq!(git.parent_of("movements", BranchType::Local).unwrap(), Some("main".to_string()));
    assert_eq!(git.parent_of("movements", BranchType::Remote).unwrap(), None);
    assert_eq!(
        git.parent_of("tracking", BranchType::All).unwrap(),
        Some("origin/main".to_string())
    );
    assert_eq!(git.parent_of("tracking", BranchType::Local).unwrap(), None);
    assert_eq!(
        git.parent_of("tracking", BranchType::Remote).unwrap(),
        Some("origin/main".to_string())
    );
    assert_eq!(git.parent_of("main", BranchType::All).unwrap(), None);
    assert_eq!(git.parent_of("loose", BranchType::Local).unwrap(), None);
    assert_eq!(git.parent_of("nowhere", BranchType::All).unwrap(), None);
}

#[test]
fn test_children_are_the_inverse_of_parents() {
    let git = repo();
    let names = ["main", "movements", "feature", "tracking", "loose", "origin/main"];
    for parent in names {
        let children = git.children_of(parent).unwrap();
        for child in names {
            let tracks = git.parent_of(child, BranchType::All).unwrap() == Some(parent.to_string());
            assert_eq!(children.contains(&child.to_string()), tracks);
        }
    }
    assert_eq!(git.children_of("main").unwrap(), vec!["movements"]);
    assert_eq!(git.children_of("origin/main").unwrap(), vec!["tracking"]);
    assert!(git.children_of("feature").unwrap().is_empty());
}

#[test]
fn test_later_edge_of_a_branch_decides() {
    let git = Git::open("true", "a", "a\nb\nc", "a 1111111 [b] x\na 1111111 [c] y", "");
    assert_eq!(git.parent_of("a", BranchType::All).unwrap(), Some("c".to_string()));
    assert!(git.children_of("b").unwrap().is_empty());
    assert_eq!(git.children_of("c").unwrap(), vec!["a"]);
}

#[test]
fn test_questions_outside_a_repository_are_refused() {
    let git = Git::open("", "", "", "", "");
    assert!(!git.in_repo());
    assert!(matches!(git.parent_of("a", BranchType::All), Err(StackError::NotARepository)));
    assert!(matches!(git.children_of("a"), Err(StackError::NotARepository)));
    assert!(matches!(git.branches(), Err(StackError::NotARepository)));
    assert!(matches!(git.parents(), Err(StackError::NotARepository)));
    assert!(matches!(git.current_branch(), Err(StackError::NotARepository)));
    assert!(matches!(git.remotes(), Err(StackError::NotARepository)));
    assert!(matches!(Git::new().switch("a"), Err(StackError::NotARepository)));
    assert!(matches!(git.assert_in_repo(), Err(StackError::NotARepository)));
    assert!(repo().assert_in_repo().is_ok());
}

#[test]
fn test_open_reads_the_answers() {
    let git = repo();
    assert!(git.in_repo());
    assert_eq!(git.current_branch().unwrap(), "movements");
    assert_eq!(
        git.branches().unwrap(),
        &vec!["main", "movements", "feature", "tracking", "loose"]
    );
    assert_eq!(git.remotes().unwrap(), &vec!["origin"]);
    assert_eq!(git.parents().unwrap().len(), 3);
}

/// What the pattern `<name> <sha> [<upstream>] <subject>` captures in a line, read with a regular expression.
fn by_pattern(line: &str) -> Option<(String, Option<String>)> {
    let pattern = regex::Regex::new(r"\s*(\S+\s+[a-f0-9]+)(\s+\[(.*)\])?\s+(.*)").unwrap();
    let found = pattern.captures(line)?;
    let name = found.get(1)?.as_str().split(' ').filter(|s| *s != "*").next()?.to_string();
    let upstream = found.get(3).map(|m| m.as_str().split(':').next().unwrap().to_string());
    Some((name, upstream))
}

#[test]
fn test_parser_agrees_with_the_pattern_on_ordinary_listings() {
    let lines = [
        "  main      483f881 Add: Branch movement commands",
        "* movements 483f881 [main] Add: Branch movement commands",
        "  feature   0a1b2c3 [movements: ahead 2, behind 1] Work in progress",
        "  tracking  99aa00f [origin/main] Track the remote",
        "  gone      1234567 [origin/gone: gone] Upstream is gone",
        "  deep/name abcdef0 [feature/x: behind 3] Subject: with colon",
        "main 483f881 trimmed line",
        "* current 00ff00f [main: ahead 1] x",
    ];
    for line in lines {
        let mine = parse_branch_line(line).map(|l| (l.name, l.upstream));
        assert_eq!(mine, by_pattern(line), "{}", line);
    }
}

