use gr::errors::StackError;
use gr::git::{combine_output, CommandOutput, ExecGit, Git, GitCommand};

fn repo() -> Git {
    Git::open(
        "true",
        "a",
        "root\na\nb\nc\nd",
        "  root 1111111 base\n* a 2222222 [root] one\n  b 3333333 [a] two\n  c 4444444 [a] three\n  d 5555555 [b] four",
        "origin",
    )
}

fn shown(commands: &Vec<GitCommand>) -> Vec<String> {
    commands.iter().map(|c| c.line()).collect()
}

fn strs(v: &[&str]) -> Vec<String> {
    v.iter().map(|s| s.to_string()).collect()
}

#[test]
fn test_commands_carry_subcommand_and_arguments() {
    let git = repo();
    let c = git.pull(vec!["--rebase"]).unwrap();
    assert_eq!(c.command, "pull");
    assert_eq!(c.args, vec!["--rebase"]);
    assert_eq!(git.push(vec!["origin", "a"]).unwrap().line(), "git push origin a");
    assert_eq!(git.rebase(vec!["--abort"]).unwrap().line(), "git rebase --abort");
    assert_eq!(git.merge(vec!["a"]).unwrap().line(), "git merge a");
    assert_eq!(git.cherry_pick(vec!["abc"]).unwrap().line(), "git cherry-pick abc");
    assert_eq!(git.checkout(vec!["-t", "a", "-b", "n"]).unwrap().line(), "git checkout -t a -b n");
    assert_eq!(git.switch("b").unwrap().line(), "git switch b");
    assert_eq!(git.branch(vec!["-d", "b"]).unwrap().line(), "git branch -d b");
    assert_eq!(git.log(vec!["--format=oneline"]).unwrap().line(), "git log --format=oneline");
    assert_eq!(git.revlist(vec!["HEAD"]).unwrap().line(), "git rev-list HEAD");
    assert_eq!(git.rev_parse(vec!["a"]).unwrap().line(), "git rev-parse a");
    assert_eq!(git.status().unwrap().line(), "git status ");
    assert_eq!(git.remote(vec!["-v"]).unwrap().line(), "git remote -v");
    assert_eq!(git.commit_diff("a", "root").unwrap().line(), "git log root..a --format=oneline");
}

#[test]
fn test_probes_ask_what_open_takes() {
    assert_eq!(
        shown(&Git::probes()),
        strs(&[
            "git rev-parse --is-inside-work-tree",
            "git rev-parse --abbrev-ref HEAD",
            "git for-each-ref --format=%(refname:short) refs/heads/",
            "git branch -vv",
            "git remote ",
        ])
    );
}

#[test]
fn test_recursive_rebase_goes_through_every_descendant() {
    let git = repo();
    assert_eq!(
        shown(&git.recursive_rebase("a", vec![]).unwrap()),
        strs(&[
            "git switch a",
            "git rebase ",
            "git switch b",
            "git rebase ",
            "git switch d",
            "git rebase ",
            "git switch c",
            "git rebase ",
        ])
    );
    assert_eq!(
        shown(&git.recursive_rebase("d", vec!["--onto", "x"]).unwrap()),
        strs(&["git switch d", "git rebase --onto x"])
    );
}

#[test]
fn test_sync_pulls_downstream_and_comes_back() {
    let git = repo();
    assert_eq!(
        shown(&git.sync("b").unwrap()),
        strs(&[
            "git switch b",
            "git pull --rebase",
            "git switch d",
            "git pull --rebase",
            "git switch d",
            "git switch b",
        ])
    );
}

#[test]
fn test_plans_end_on_cyclic_tracking() {
    let git = Git::open("true", "x", "x\ny", "x 1111111 [y] one\ny 2222222 [x] two", "");
    let plan = git.recursive_rebase("x", vec![]).unwrap();
    assert_eq!(plan.len(), 6);
    assert!(matches!(Git::new().sync("x"), Err(StackError::NotARepository)));
    assert!(matches!(Git::new().recursive_rebase("x", vec![]), Err(StackError::NotARepository)));
}

#[test]
fn test_output_is_trimmed_and_blank_lines_dropped() {
    assert_eq!(combine_output("  one  \n\n two\n", "\n  three\t\n"), "one\ntwo\nthree");
    assert_eq!(combine_output("", ""), "");
    assert_eq!(combine_output("a\r\nb", ""), "a\nb");
}

#[test]
fn test_outcome_of_a_failure_names_the_command() {
    let git = repo();
    let command = git.switch("gone").unwrap();
    let failed = CommandOutput {
        success: false,
        stdout: String::new(),
        stderr: "fatal: invalid reference: gone".to_string(),
    };
    match command.outcome(&failed) {
        Err(StackError::CommandFailed { command, stderr }) => {
            assert_eq!(command, "git switch gone");
            assert_eq!(stderr, "fatal: invalid reference: gone");
        }
        _ => panic!("a failed command has to be reported as such"),
    }
    let fine = CommandOutput {
        success: true,
        stdout: " Switched \n".to_string(),
        stderr: "note".to_string(),
    };
    assert_eq!(command.outcome(&fine).unwrap(), "Switched\nnote");
}

#[test]
fn test_exec_commands_are_built_as_given() {
    let exec = ExecGit::new();
    assert_eq!(exec.status().line(), "git status ");
    assert_eq!(exec.commit(strs(&["-m", "msg"])).line(), "git commit -m msg");
    assert_eq!(exec.pull(strs(&["--rebase"])).line(), "git pull --rebase");
}

#[test]
fn test_error_messages() {
    assert_eq!(StackError::NotARepository.message(), "Not in a git repository");
    assert_eq!(
        StackError::CommandFailed { command: "git x".to_string(), stderr: "boom".to_string() }
            .message(),
        "> git x\nboom"
    );
    assert_eq!(
        StackError::RebaseConflict { branch: "b".to_string(), parent: "a".to_string() }.message(),
        "Could not rebase branch a <- b"
    );
    assert_eq!(
        StackError::MergeabilityUndetermined { review_id: "17".to_string() }.message(),
        "Could not determine mergeability for PR: 17"
    );
    assert_eq!(StackError::NoTrackedParent.message(), "No tracked parent");
    assert_eq!(StackError::AmbiguousSelection.message(), "Cancelled");
    assert_eq!(StackError::ReviewServiceUnavailable.message(), "No review service available");
}

fn said(stdout: &str) -> CommandOutput {
    CommandOutput { success: true, stdout: stdout.to_string(), stderr: String::new() }
}

fn failed(stderr: &str) -> CommandOutput {
    CommandOutput { success: false, stdout: String::new(), stderr: stderr.to_string() }
}

#[test]
fn test_load_reads_the_answers_of_the_probes() {
    let git = Git::load(
        &said("true\n"),
        &said("a\n"),
        &said("root\na\n"),
        &said("  root 1111111 base\n* a 2222222 [root] one\n"),
        &said("origin\n"),
    )
    .unwrap();
    assert!(git.in_repo());
    assert_eq!(git.current_branch().unwrap(), "a");
    assert_eq!(git.branches().unwrap(), &vec!["root", "a"]);
    assert_eq!(git.children_of("root").unwrap(), vec!["a"]);
    assert_eq!(git.remotes().unwrap(), &vec!["origin"]);
}

#[test]
fn test_load_outside_a_repository_knows_nothing() {
    let nowhere = failed("fatal: not a git repository");
    let git = Git::load(&nowhere, &nowhere, &nowhere, &nowhere, &nowhere).unwrap();
    assert!(!git.in_repo());
    assert!(git.heads.is_empty() && git.tracking.is_empty() && git.remote_names.is_empty());
    let bare = Git::load(&said("false"), &said("a"), &said("a"), &said(""), &said("")).unwrap();
    assert!(!bare.in_repo());
    assert!(bare.heads.is_empty());
}

#[test]
fn test_load_reports_the_first_probe_that_failed() {
    let result = Git::load(
        &said("true"),
        &said("a"),
        &failed("fatal: bad ref"),
        &failed("fatal: later"),
        &said("origin"),
    );
    match result {
        Err(StackError::CommandFailed { command, stderr }) => {
            assert_eq!(command, "git for-each-ref --format=%(refname:short) refs/heads/");
            assert_eq!(stderr, "fatal: bad ref");
        }
        _ => panic!("a failed probe inside a repository is an error"),
    }
    let listing = Git::load(&said("true"), &said("a"), &said("a"), &failed("boom"), &said(""));
    assert!(matches!(
        listing,
        Err(StackError::CommandFailed { command, .. }) if command == "git branch -vv"
    ));
    let last = Git::load(&said("true"), &said("a"), &said("a"), &said(""), &failed("boom"));
    assert!(matches!(
        last,
        Err(StackError::CommandFailed { command, .. }) if command == "git remote "
    ));
    let first = Git::load(&said("true"), &failed("boom"), &said("a"), &said(""), &said(""));
    assert!(matches!(
        first,
        Err(StackError::CommandFailed { command, .. }) if command == "git rev-parse --abbrev-ref HEAD"
    ));
}
