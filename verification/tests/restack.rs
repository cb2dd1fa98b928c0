use gr::errors::StackError;
use gr::git::Git;
use gr::restack::{
    any_commit, ask_to_delete, ask_to_fix_conflicts, remote_tracking, restack, sync,
    sync_result_to_status_char, FollowUp, Sync, SyncPhase, SyncResult, SyncStatus,
};

fn repo() -> Git {
    Git::open(
        "true",
        "c",
        "root\na\nb\nc\nside",
        "  root 1111111 [origin/root] base\n  a 2222222 [root] one\n  b 3333333 [a] two\n* c 4444444 [b] three\n  side 5555555 [a] other",
        "origin\nupstream",
    )
}

/// Runs the engine against answers that are looked up by command line; a command without an answer succeeds and prints nothing.
fn run(engine: &mut Sync, answers: &[(&str, bool, &str)]) -> (Vec<String>, Option<StackError>) {
    let mut issued = Vec::new();
    while let Some(command) = engine.action() {
        let line = command.line();
        let (ok, output) = answers
            .iter()
            .find(|(l, _, _)| *l == line)
            .map(|(_, ok, output)| (*ok, *output))
            .unwrap_or((true, ""));
        issued.push(line);
        if let Err(e) = engine.record(ok, output) {
            return (issued, Some(e));
        }
    }
    (issued, None)
}

fn summary(results: &Vec<SyncResult>) -> Vec<(String, String)> {
    results
        .iter()
        .map(|r| {
            let status = match r.status() {
                SyncStatus::Success => "success".to_string(),
                SyncStatus::NoDiff => "nodiff".to_string(),
                SyncStatus::ConflictWith(parent) => format!("conflict:{}", parent),
            };
            (r.branch().to_string(), status)
        })
        .collect()
}

fn pair(a: &str, b: &str) -> (String, String) {
    (a.to_string(), b.to_string())
}

#[test]
fn test_sync_result_holds_branch_and_status() {
    let result = SyncResult::new("feature", SyncStatus::ConflictWith("main".to_string()));
    assert_eq!(result.branch(), "feature");
    assert!(matches!(result.status(), SyncStatus::ConflictWith(p) if p == "main"));
}

#[test]
fn test_conflict_as_an_error() {
    let result = SyncResult::new("feature", SyncStatus::ConflictWith("main".to_string()));
    assert!(matches!(
        result.error(),
        Some(StackError::RebaseConflict { branch, parent }) if branch == "feature" && parent == "main"
    ));
    assert!(SyncResult::new("feature", SyncStatus::NoDiff).error().is_none());
    assert!(SyncResult::new("feature", SyncStatus::Success).error().is_none());
}

#[test]
fn test_status_signs() {
    assert_eq!(sync_result_to_status_char(&SyncStatus::Success), "\u{1b}[32m\u{2713}\u{1b}[0m");
    assert_eq!(sync_result_to_status_char(&SyncStatus::NoDiff), "\u{1b}[32m\u{2713}\u{1b}[0m");
    assert_eq!(
        sync_result_to_status_char(&SyncStatus::ConflictWith("x".to_string())),
        "\u{1b}[31m\u{2715}\u{1b}[0m"
    );
}

#[test]
fn test_up_to_date_stack_syncs_root_first_without_conflict() {
    let mut engine = sync(&repo(), "c").unwrap();
    let (issued, error) = run(
        &mut engine,
        &[
            ("git log root..a --format=oneline", true, "2222222 one"),
            ("git log a..b --format=oneline", true, ""),
            ("git log b..c --format=oneline", true, "4444444 three\n4444443 more"),
        ],
    );
    assert!(error.is_none());
    assert_eq!(
        issued,
        vec![
            "git switch a",
            "git pull --rebase",
            "git rebase ",
            "git log root..a --format=oneline",
            "git switch b",
            "git pull --rebase",
            "git rebase ",
            "git log a..b --format=oneline",
            "git switch c",
            "git pull --rebase",
            "git rebase ",
            "git log b..c --format=oneline",
        ]
    );
    assert!(engine.done());
    assert_eq!(
        summary(&engine.results()),
        vec![pair("a", "success"), pair("b", "nodiff"), pair("c", "success")]
    );
}

#[test]
fn test_failed_rebase_is_aborted_before_the_conflict_is_reported() {
    let mut engine = sync(&repo(), "b").unwrap();
    let mut issued = Vec::new();
    let mut reported_after = Vec::new();
    while let Some(command) = engine.action() {
        let line = command.line();
        let in_b = issued.iter().any(|l: &String| l == "git switch b");
        let ok = !(in_b && line == "git rebase ");
        issued.push(line.clone());
        let before = engine.results.len();
        engine.record(ok, if line.starts_with("git log") { "abc one" } else { "" }).unwrap();
        if engine.results.len() > before {
            reported_after.push(line);
        }
    }
    assert_eq!(
        issued,
        vec![
            "git switch a",
            "git pull --rebase",
            "git rebase ",
            "git log root..a --format=oneline",
            "git switch b",
            "git pull --rebase",
            "git rebase ",
            "git rebase --abort",
        ]
    );
    assert_eq!(reported_after, vec!["git log root..a --format=oneline", "git rebase --abort"]);
    assert_eq!(summary(&engine.results()), vec![pair("a", "success"), pair("b", "conflict:a")]);
}

#[test]
fn test_failed_pull_leads_to_abort_even_if_the_rebase_passes() {
    let mut engine = sync(&repo(), "a").unwrap();
    let (issued, error) = run(&mut engine, &[("git pull --rebase", false, "conflict")]);
    assert!(error.is_none());
    assert_eq!(
        issued,
        vec!["git switch a", "git pull --rebase", "git rebase ", "git rebase --abort"]
    );
    assert_eq!(summary(&engine.results()), vec![pair("a", "conflict:root")]);
}

#[test]
fn test_failed_switch_ends_the_sync_with_the_command() {
    let mut engine = sync(&repo(), "b").unwrap();
    let (issued, error) = run(&mut engine, &[("git switch a", false, "error: no such branch")]);
    assert_eq!(issued, vec!["git switch a"]);
    match error {
        Some(StackError::CommandFailed { command, stderr }) => {
            assert_eq!(command, "git switch a");
            assert_eq!(stderr, "error: no such branch");
        }
        _ => panic!("the failed switch has to be the error"),
    }
    assert!(engine.done());
    assert!(engine.action().is_none());
    assert!(engine.results().is_empty());
}

#[test]
fn test_failed_abort_and_failed_comparison_end_the_sync() {
    let mut engine = sync(&repo(), "a").unwrap();
    let (_, error) = run(
        &mut engine,
        &[("git rebase ", false, ""), ("git rebase --abort", false, "no rebase in progress")],
    );
    assert!(matches!(error, Some(StackError::CommandFailed { .. })));
    assert!(engine.results().is_empty());
    let mut engine = sync(&repo(), "a").unwrap();
    let (_, error) = run(&mut engine, &[("git log root..a --format=oneline", false, "bad")]);
    assert!(matches!(error, Some(StackError::CommandFailed { .. })));
}

#[test]
fn test_base_of_the_stack_is_left_alone() {
    let mut engine = sync(&repo(), "root").unwrap();
    assert!(engine.done());
    assert!(engine.action().is_none());
    engine.record(true, "").unwrap();
    assert_eq!(engine.phase, SyncPhase::Done);
    assert!(engine.results().is_empty());
}

#[test]
fn test_remote_tracking_branch_counts_as_done() {
    let mut engine = sync(&repo(), "origin/root").unwrap();
    let (issued, _) = run(&mut engine, &[]);
    assert!(issued.is_empty());
    assert_eq!(summary(&engine.results()), vec![pair("origin/root", "success")]);
    assert!(remote_tracking(&vec!["origin".to_string()], "origin/x"));
    assert!(remote_tracking(&vec!["up".to_string(), "origin".to_string()], "origin"));
    assert!(!remote_tracking(&vec!["origin".to_string()], "orig"));
    assert!(!remote_tracking(&Vec::new(), "origin/x"));
}

#[test]
fn test_sync_outside_a_repository_is_refused() {
    assert!(matches!(sync(&Git::new(), "a"), Err(StackError::NotARepository)));
    assert!(matches!(ask_to_delete(&Git::new(), "a"), Err(StackError::NotARepository)));
    assert!(matches!(ask_to_fix_conflicts(&Git::new(), "a"), Err(StackError::NotARepository)));
}

#[test]
fn test_any_commit_looks_for_a_line_that_is_not_empty() {
    assert!(!any_commit(""));
    assert!(!any_commit("\n\n"));
    assert!(any_commit("abc one"));
    assert!(any_commit("\n \n"));
}

#[test]
fn test_follow_ups_put_conflicts_first() {
    let results = vec![
        SyncResult::new("a", SyncStatus::NoDiff),
        SyncResult::new("b", SyncStatus::ConflictWith("a".to_string())),
        SyncResult::new("c", SyncStatus::Success),
        SyncResult::new("d", SyncStatus::NoDiff),
        SyncResult::new("e", SyncStatus::ConflictWith("d".to_string())),
    ];
    let shown: Vec<String> = restack(&results)
        .iter()
        .map(|f| match f {
            FollowUp::FixConflict { parent, branch } => format!("fix {} <- {}", parent, branch),
            FollowUp::OfferDelete { branch } => format!("delete {}", branch),
        })
        .collect();
    assert_eq!(shown, vec!["fix a <- b", "fix d <- e", "delete a", "delete d"]);
    assert!(restack(&Vec::new()).is_empty());
}

#[test]
fn test_deleting_a_branch_moves_its_children_to_its_parent() {
    let lines = |branch: &str| -> Vec<String> {
        ask_to_delete(&repo(), branch).unwrap().iter().map(|c| c.line()).collect()
    };
    assert_eq!(
        lines("a"),
        vec![
            "git switch b",
            "git branch --set-upstream-to=root",
            "git switch side",
            "git branch --set-upstream-to=root",
            "git switch root",
            "git branch -d a",
        ]
    );
    assert_eq!(
        lines("b"),
        vec!["git switch c", "git branch --set-upstream-to=a", "git switch c", "git branch -d b"]
    );
    assert_eq!(lines("c"), vec!["git switch b", "git branch -d c"]);
    assert!(lines("root").is_empty());
}

#[test]
fn test_fixing_a_conflict_switches_and_hands_over_the_pull() {
    let (switch, pull) = ask_to_fix_conflicts(&repo(), "b").unwrap();
    assert_eq!(switch.line(), "git switch b");
    assert_eq!(pull.line(), "git pull --rebase");
}
