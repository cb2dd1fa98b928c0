use gr::candy::CandyOption;
use gr::errors::StackError;
use gr::git::Git;
use gr::split::{split_groups, split_plan, FormattedCommit};

fn commit(sha: &str) -> FormattedCommit {
    FormattedCommit { sha: sha.to_string(), title: format!("title of {}", sha) }
}

fn history(shas: &[&str]) -> Vec<FormattedCommit> {
    shas.iter().map(|s| commit(s)).collect()
}

fn shas(groups: &Vec<Vec<FormattedCommit>>) -> Vec<Vec<String>> {
    groups.iter().map(|g| g.iter().map(|c| c.sha.clone()).collect()).collect()
}

fn points(shas: &[&str]) -> Vec<String> {
    shas.iter().map(|s| s.to_string()).collect()
}

#[test]
fn test_no_split_point_gives_one_group_oldest_first() {
    let groups = split_groups(&history(&["c5", "c4", "c3", "c2", "c1"]), &Vec::new());
    assert_eq!(shas(&groups), vec![vec!["c1", "c2", "c3", "c4", "c5"]]);
}

#[test]
fn test_split_point_starts_a_group() {
    let groups = split_groups(&history(&["c5", "c4", "c3", "c2", "c1"]), &points(&["c3"]));
    assert_eq!(shas(&groups), vec![vec!["c1", "c2"], vec!["c3", "c4", "c5"]]);
    assert_eq!(groups[1][0].title, "title of c3");
}

#[test]
fn test_every_commit_a_split_point() {
    let groups = split_groups(&history(&["c3", "c2", "c1"]), &points(&["c1", "c2", "c3"]));
    assert_eq!(shas(&groups), vec![vec!["c1"], vec!["c2"], vec!["c3"]]);
}

#[test]
fn test_split_at_the_newest_and_at_the_oldest_commit() {
    let newest = split_groups(&history(&["c3", "c2", "c1"]), &points(&["c3"]));
    assert_eq!(shas(&newest), vec![vec!["c1", "c2"], vec!["c3"]]);
    let oldest = split_groups(&history(&["c3", "c2", "c1"]), &points(&["c1"]));
    assert_eq!(shas(&oldest), vec![vec!["c1", "c2", "c3"]]);
    let unknown = split_groups(&history(&["c2", "c1"]), &points(&["zz"]));
    assert_eq!(shas(&unknown), vec![vec!["c1", "c2"]]);
}

#[test]
fn test_split_of_nothing_gives_no_group() {
    assert!(split_groups(&Vec::new(), &points(&["c1"])).is_empty());
}

#[test]
fn test_groups_cover_the_history() {
    let commits = history(&["c7", "c6", "c5", "c4", "c3", "c2", "c1"]);
    let groups = split_groups(&commits, &points(&["c6", "c2", "c3"]));
    let flat: Vec<String> = shas(&groups).into_iter().flatten().collect();
    assert_eq!(flat, vec!["c1", "c2", "c3", "c4", "c5", "c6", "c7"]);
    assert!(groups.iter().all(|g| !g.is_empty()));
    assert_eq!(groups.len(), 4);
}

#[test]
fn test_from_line_reads_id_and_title() {
    let c = FormattedCommit::from_line("483f881 Add: Branch movement commands").unwrap();
    assert_eq!(c.sha, "483f881");
    assert_eq!(c.title, "Add: Branch movement commands");
    let decorated = FormattedCommit::from_line("abc1234 (HEAD -> main, origin/main) Fix it").unwrap();
    assert_eq!(decorated.sha, "abc1234");
    assert_eq!(decorated.title, "Fix it");
    let spaced = FormattedCommit::from_line("  abc1234    spaced out").unwrap();
    assert_eq!(spaced.sha, "abc1234");
    assert_eq!(spaced.title, "spaced out");
}

#[test]
fn test_from_line_of_no_commit_line() {
    assert!(FormattedCommit::from_line("").is_none());
    assert!(FormattedCommit::from_line("lonely").is_none());
    assert!(FormattedCommit::from_line("   ").is_none());
}

#[test]
fn test_from_captures_takes_first_and_third_group() {
    let found = Some(vec![
        Some("whole".to_string()),
        Some("id".to_string()),
        None,
        Some("title".to_string()),
    ]);
    let c = FormattedCommit::from_captures(found).unwrap();
    assert_eq!((c.sha.as_str(), c.title.as_str()), ("id", "title"));
    assert!(FormattedCommit::from_captures(None).is_none());
    assert!(FormattedCommit::from_captures(Some(vec![Some("a".to_string())])).is_none());
    assert!(FormattedCommit::from_captures(Some(vec![None, None, None, None])).is_none());
}

#[test]
fn test_split_plan_builds_the_parts_and_moves_the_children() {
    let git = Git::open(
        "true",
        "work",
        "main\nwork\nnext\nlast",
        "  main 1111111 base\n* work 2222222 [main] w\n  next 3333333 [work] n\n  last 4444444 [next] l",
        "",
    );
    let groups = split_groups(&history(&["c3", "c2", "c1"]), &points(&["c2"]));
    let plan: Vec<String> = split_plan(&git, &groups).unwrap().iter().map(|c| c.line()).collect();
    assert_eq!(
        plan,
        vec![
            "git checkout -t main -b work-1",
            "git cherry-pick c1",
            "git checkout -t work-1 -b work-2",
            "git cherry-pick c2",
            "git cherry-pick c3",
            "git switch next",
            "git branch --set-upstream-to=work-2",
            "git branch -D work",
            "git switch work-2",
            "git rebase ",
            "git switch next",
            "git rebase ",
            "git switch last",
            "git rebase ",
            "git switch work-2",
        ]
    );
}

#[test]
fn test_split_needs_a_repository_and_a_local_parent() {
    let groups = split_groups(&history(&["c1"]), &Vec::new());
    assert!(matches!(split_plan(&Git::new(), &groups), Err(StackError::NotARepository)));
    let rootless = Git::open("true", "main", "main", "* main 1111111 [origin/main] base", "origin");
    assert!(matches!(split_plan(&rootless, &groups), Err(StackError::NoTrackedParent)));
}

#[test]
fn test_part_names_count_in_decimal() {
    let git = Git::open("true", "w", "m\nw", "m 1111111 b\nw 2222222 [m] x", "");
    let shas: Vec<String> = (1..=12).rev().map(|i| format!("c{}", i)).collect();
    let commits: Vec<FormattedCommit> = shas.iter().map(|s| commit(s)).collect();
    let groups = split_groups(&commits, &shas);
    assert_eq!(groups.len(), 12);
    let plan: Vec<String> = split_plan(&git, &groups).unwrap().iter().map(|c| c.line()).collect();
    assert!(plan.contains(&"git checkout -t w-9 -b w-10".to_string()));
    assert!(plan.contains(&"git checkout -t w-11 -b w-12".to_string()));
    assert_eq!(plan.last().unwrap(), "git switch w-12");
}

#[test]
fn test_commit_as_an_option() {
    let c = FormattedCommit { sha: "0123456789".to_string(), title: "Fix".to_string() };
    assert_eq!(c.id(), "0123456789");
    assert_eq!(c.to_string(), "012345 Fix");
    assert!(c.filter("xiF"));
    assert!(!c.filter("Fox"));
    assert!(c.filter(""));
    let white = "\u{1b}[37m";
    let cyan = "\u{1b}[96m";
    let bold = "\u{1b}[1m";
    let reset = "\u{1b}[0m";
    // three commits, the first marked: the first and the last open a branch
    let marks = vec![true, false, false];
    assert_eq!(
        c.render(0, 1, &marks),
        format!("{cyan}{cyan}012345 Fix{reset} -- Branch 1{reset}")
    );
    assert_eq!(c.render(1, 1, &marks), format!("{bold}\u{1b}[92m012345 Fix{reset}{reset}"));
    assert_eq!(
        c.render(2, 0, &marks),
        format!("\u{1b}[92m\u{1b}[92m012345 Fix{reset} -- Branch 2{reset}")
    );
    let short = FormattedCommit { sha: "ab".to_string(), title: "t".to_string() };
    assert_eq!(short.to_string(), "ab t");
    let _ = white;
}
