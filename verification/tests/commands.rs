use gr::commands::{create_branch, process_command, Command};
use gr::config::{
    build_branch_conf, build_gr_conf_branch, config_dir_path, config_file_path, get_cr_auth,
    initialize_gr, select_remote, select_review_tool, select_root_branch, AuthFacts, AuthQuestion,
    CRAuth, ReviewTool,
};
use gr::errors::StackError;
use gr::events::CandyEvent;
use gr::git::Git;
use gr::help::{show_help, show_usage};
use gr::moves::move_relative;
use gr::reviews::{CodeReviewService, MergeState};
use gr::submit::{
    get_commit_message, merge_branch, needs_submitting, push_branch, review_draft, submit_branch,
    submit_one, track_mr_progress, Submit, SubmitAction, SubmitEvent, SubmitOutcome, SubmitPhase,
};
use gr::tui::{Colorize, GrString, Tui, TuiColor};

fn strs(v: &[&str]) -> Vec<String> {
    v.iter().map(|s| s.to_string()).collect()
}

fn repo(head: &str) -> Git {
    Git::open(
        "true",
        head,
        "root\na\nb\nc\nside",
        "  root 1111111 [origin/root] base\n  a 2222222 [root] one\n  b 3333333 [a] two\n  c 4444444 [b] three\n  side 5555555 [a] other",
        "origin",
    )
}

#[test]
fn test_commands_by_name() {
    assert!(matches!(process_command(&Vec::new()), Command::Missing));
    assert!(matches!(process_command(&strs(&["init"])), Command::Init));
    assert!(matches!(process_command(&strs(&["log"])), Command::Log));
    assert!(matches!(process_command(&strs(&["merge"])), Command::Merge));
    assert!(matches!(process_command(&strs(&["rv"])), Command::Reviews));
    assert!(matches!(process_command(&strs(&["reviews", "x"])), Command::Reviews));
    assert!(matches!(process_command(&strs(&["split"])), Command::Split));
    assert!(matches!(process_command(&strs(&["submit"])), Command::Submit));
    assert!(matches!(process_command(&strs(&["sync"])), Command::Sync));
    for direction in ["top", "up", "down", "bottom", "bu", "bd"] {
        assert!(matches!(
            process_command(&strs(&[direction])),
            Command::Move { direction: d } if d == direction
        ));
    }
    assert!(matches!(
        process_command(&strs(&["frobnicate", "x"])),
        Command::Unknown { command } if command == "frobnicate"
    ));
    assert!(matches!(process_command(&strs(&["bt"])), Command::Unknown { .. }));
}

#[test]
fn test_commands_take_their_arguments() {
    assert!(matches!(process_command(&strs(&["bco"])), Command::Switch { branch: None }));
    assert!(matches!(
        process_command(&strs(&["switch", "one", "two"])),
        Command::Switch { branch: Some(b) } if b == "two"
    ));
    assert!(matches!(process_command(&strs(&["bc"])), Command::Create { branch: None }));
    assert!(matches!(
        process_command(&strs(&["create", "one", "two"])),
        Command::Create { branch: Some(b) } if b == "one"
    ));
    assert!(matches!(
        process_command(&strs(&["cc", "-m", "a message", "--amend"])),
        Command::Commit { args } if args == strs(&["-m", "a message", "--amend"])
    ));
    assert!(matches!(process_command(&strs(&["commit"])), Command::Commit { args } if args.is_empty()));
    assert!(matches!(process_command(&strs(&["help"])), Command::Help { topic: None }));
    assert!(matches!(
        process_command(&strs(&["help", "sync"])),
        Command::Help { topic: Some(t) } if t == "sync"
    ));
    assert!(matches!(
        process_command(&strs(&["debug", "prompt", "x"])),
        Command::Debug { what: Some(w) } if w == "prompt"
    ));
    assert_eq!(create_branch("cur", "new"), strs(&["-t", "cur", "-b", "new"]));
}

#[test]
fn test_help_texts() {
    assert!(show_usage().starts_with("Usage: gq <command> [<args>]"));
    assert_eq!(show_help("help"), "You already got it, chief.");
    assert!(show_help("log").starts_with("gq log"));
    assert_eq!(show_help("create"), show_help("bc"));
    assert_eq!(show_help("switch"), show_help("bco"));
    assert_eq!(show_help("commit"), show_help("cc"));
    assert_eq!(show_help("reviews"), show_help("rv"));
    assert_eq!(show_help("up"), show_help("bu"));
    assert_eq!(show_help("down"), show_help("bd"));
    assert_eq!(show_help("bottom"), show_help("bb"));
    assert_eq!(show_help("top"), show_help("bt"));
    assert!(show_help("sync").contains("recursive pull and rebase"));
    assert!(show_help("submit").contains("force-update"));
    assert!(show_help("merge").starts_with("gq <merge>"));
    assert!(show_help("init").starts_with("gq init"));
    assert_eq!(show_help("nonsense"), "TODO");
}

#[test]
fn test_moves_along_the_stack() {
    let at = |head: &str, command: &str| -> (Vec<String>, Vec<String>, bool) {
        let plan = move_relative(&repo(head), command).unwrap();
        (plan.path, plan.choices, plan.known)
    };
    assert_eq!(at("b", "up"), (strs(&["c"]), Vec::new(), true));
    assert_eq!(at("b", "bu"), (strs(&["c"]), Vec::new(), true));
    assert_eq!(at("a", "up"), (Vec::new(), strs(&["b", "side"]), true));
    assert_eq!(at("c", "up"), (Vec::new(), Vec::new(), true));
    assert_eq!(at("b", "down"), (strs(&["a"]), Vec::new(), true));
    assert_eq!(at("b", "bd"), (strs(&["a"]), Vec::new(), true));
    assert_eq!(at("root", "down"), (Vec::new(), Vec::new(), true));
    assert_eq!(at("root", "top"), (strs(&["a"]), strs(&["b", "side"]), true));
    assert_eq!(at("b", "top"), (strs(&["c"]), Vec::new(), true));
    assert_eq!(at("c", "bottom"), (strs(&["b", "a", "root"]), Vec::new(), true));
    assert_eq!(at("root", "bottom"), (Vec::new(), Vec::new(), true));
    assert_eq!(at("b", "sideways"), (Vec::new(), Vec::new(), false));
    assert!(matches!(move_relative(&Git::new(), "up"), Err(StackError::NotARepository)));
}

#[test]
fn test_submission_goes_through_the_stack_root_first() {
    assert_eq!(submit_branch(&repo("c"), "c").unwrap(), strs(&["root", "a", "b", "c"]));
    assert_eq!(merge_branch(&repo("c"), "side").unwrap(), strs(&["root", "a", "side"]));
    assert_eq!(submit_branch(&repo("c"), "root").unwrap(), strs(&["root"]));
    assert_eq!(submit_branch(&repo("c"), "nowhere").unwrap(), strs(&["nowhere"]));
    assert!(matches!(submit_branch(&Git::new(), "c"), Err(StackError::NotARepository)));
}

#[test]
fn test_needs_submitting() {
    let parent = Some("main".to_string());
    assert!(needs_submitting(&parent, "abc one"));
    assert!(needs_submitting(&parent, "abc one\ndef two"));
    assert!(!needs_submitting(&parent, ""));
    assert!(!needs_submitting(&parent, "abc one\n"));
    assert!(!needs_submitting(&None, "abc one"));
}

#[test]
fn test_pushing_and_drafting() {
    let (plain, forced) = push_branch(&repo("c"), "origin", "c").unwrap();
    assert_eq!(plain.line(), "git push origin c");
    assert_eq!(forced.line(), "git push origin c -f");
    assert!(matches!(push_branch(&Git::new(), "o", "c"), Err(StackError::NotARepository)));
    assert_eq!(
        get_commit_message(&repo("c"), "c", "b").unwrap().line(),
        "git log b..c --format=%B --reverse"
    );
    assert_eq!(
        review_draft(&strs(&["Title line", "", "More text"])),
        ("Title line".to_string(), "Title line\n\nMore text".to_string())
    );
    assert_eq!(review_draft(&Vec::new()), (String::new(), String::new()));
    assert_eq!(Git::log_lines(" a \n\n  b\n"), strs(&["a", "", "b"]));
}

#[test]
fn test_merge_progress() {
    let frames: Vec<String> =
        (0..5).map(|tick| track_mr_progress(MergeState::Pending, tick).0).collect();
    let yellow = |s: &str| format!("\u{1b}[33m{}\u{1b}[0m", s);
    assert_eq!(frames, vec![yellow("-"), yellow("\\"), yellow("|"), yellow("/"), yellow("-")]);
    assert!(!track_mr_progress(MergeState::Pending, 3).1);
    assert_eq!(
        track_mr_progress(MergeState::Merged, 0),
        ("\u{1b}[32m\u{2713}\u{1b}[0m".to_string(), true)
    );
    assert_eq!(
        track_mr_progress(MergeState::Failed, 9),
        ("\u{1b}[31m\u{2715}\u{1b}[0m".to_string(), true)
    );
}

#[test]
fn test_config_paths() {
    assert_eq!(
        config_dir_path("/home/me", "/work/projects/gr"),
        "/home/me/.config/gr/gr//work/projects/gr"
    );
    assert_eq!(config_dir_path("/h", "/work/gr/"), "/h/.config/gr/gr//work/gr/");
    assert_eq!(config_dir_path("/h", "/"), "/h/.config/gr///");
    assert_eq!(config_dir_path("/h", "plain"), "/h/.config/gr/plain/plain");
    assert_eq!(config_file_path("/somewhere"), "/somewhere/config.toml");
    assert_eq!(ReviewTool::Github.to_string(), "Github");
    assert_eq!(ReviewTool::Unset.to_string(), "None");
}

#[test]
fn test_config_of_the_branches() {
    let git = repo("c");
    let seen: Vec<(String, Option<String>)> =
        build_branch_conf(&git).unwrap().into_iter().map(|b| (b.name, b.parent)).collect();
    assert_eq!(
        seen,
        vec![
            ("root".to_string(), None),
            ("a".to_string(), Some("root".to_string())),
            ("b".to_string(), Some("a".to_string())),
            ("c".to_string(), Some("b".to_string())),
            ("side".to_string(), Some("a".to_string())),
        ]
    );
    let one = build_gr_conf_branch(&git, "b").unwrap();
    assert_eq!((one.remote_branch, one.review_id), (None, None));
    assert!(matches!(build_branch_conf(&Git::new()), Err(StackError::NotARepository)));
    let auth = CRAuth { user: None, pass: None, token: Some("tok".to_string()) };
    let config = initialize_gr("root".to_string(), None, CodeReviewService::Github, auth, Vec::new());
    assert_eq!(config.origin, "");
    assert_eq!(config.root_branch, "root");
    assert_eq!(config.code_review_tool, "Github");
    assert_eq!(config.code_review_key, Some("tok".to_string()));
    assert_eq!(config.version, "1.0.0");
    let auth = CRAuth { user: None, pass: None, token: None };
    let with_remote = initialize_gr(
        "root".to_string(),
        Some("origin".to_string()),
        CodeReviewService::Local,
        auth,
        Vec::new(),
    );
    assert_eq!((with_remote.origin.as_str(), with_remote.code_review_tool.as_str()), ("origin", "None"));
}

#[test]
fn test_answers_of_the_initialisation() {
    assert_eq!(select_root_branch(CandyEvent::Submit("main".to_string())).unwrap(), "main");
    assert!(matches!(select_root_branch(CandyEvent::Cancel), Err(StackError::AmbiguousSelection)));
    assert_eq!(
        select_remote(CandyEvent::Submit("origin".to_string())).unwrap(),
        Some("origin".to_string())
    );
    assert_eq!(select_remote(CandyEvent::Cancel).unwrap(), None);
    assert!(matches!(
        select_remote(CandyEvent::Select(Vec::new())),
        Err(StackError::AmbiguousSelection)
    ));
    assert_eq!(
        select_review_tool(CandyEvent::Submit("Github".to_string())).unwrap(),
        CodeReviewService::Github
    );
    assert_eq!(
        select_review_tool(CandyEvent::Submit("None".to_string())).unwrap(),
        CodeReviewService::Local
    );
    assert!(matches!(select_review_tool(CandyEvent::Cancel), Err(StackError::AmbiguousSelection)));
}

fn blank() -> AuthFacts {
    AuthFacts {
        found_token: None,
        found_user: None,
        found_pass: None,
        use_found_token: None,
        use_found_login: None,
        have_token: None,
        token: None,
        user: None,
        pass: None,
    }
}

#[test]
fn test_login_questions() {
    let ask = |facts: AuthFacts| get_cr_auth(CodeReviewService::Github, facts);
    let none = get_cr_auth(CodeReviewService::Local, blank()).unwrap();
    assert_eq!((none.user, none.pass, none.token), (None, None, None));
    assert_eq!(ask(blank()).unwrap_err(), AuthQuestion::HaveToken);
    let found = AuthFacts { found_token: Some("env".to_string()), ..blank() };
    assert_eq!(ask(found).unwrap_err(), AuthQuestion::UseFoundToken);
    let taken =
        AuthFacts { found_token: Some("env".to_string()), use_found_token: Some(true), ..blank() };
    assert_eq!(ask(taken).unwrap().token, Some("env".to_string()));
    let declined = AuthFacts {
        found_token: Some("env".to_string()),
        use_found_token: Some(false),
        found_user: Some("u".to_string()),
        found_pass: Some("p".to_string()),
        ..blank()
    };
    assert_eq!(ask(declined).unwrap_err(), AuthQuestion::UseFoundLogin);
    let login = AuthFacts {
        found_user: Some("u".to_string()),
        found_pass: Some("p".to_string()),
        use_found_login: Some(true),
        ..blank()
    };
    let auth = ask(login).unwrap();
    assert_eq!((auth.user, auth.pass, auth.token), (Some("u".to_string()), Some("p".to_string()), None));
    let half = AuthFacts { found_user: Some("u".to_string()), ..blank() };
    assert_eq!(ask(half).unwrap_err(), AuthQuestion::HaveToken);
    assert_eq!(ask(AuthFacts { have_token: Some(true), ..blank() }).unwrap_err(), AuthQuestion::Token);
    let typed = AuthFacts { have_token: Some(true), token: Some("t".to_string()), ..blank() };
    assert_eq!(ask(typed).unwrap().token, Some("t".to_string()));
    assert_eq!(ask(AuthFacts { have_token: Some(false), ..blank() }).unwrap_err(), AuthQuestion::User);
    let named = AuthFacts { have_token: Some(false), user: Some("u".to_string()), ..blank() };
    assert_eq!(ask(named).unwrap_err(), AuthQuestion::Pass);
    let full = AuthFacts {
        have_token: Some(false),
        user: Some("u".to_string()),
        pass: Some("p".to_string()),
        ..blank()
    };
    assert_eq!(ask(full).unwrap().pass, Some("p".to_string()));
}

fn shown(tui: &Tui) -> Vec<Vec<String>> {
    tui.scrollback.iter().map(|l| l.iter().map(|s| s.content.clone()).collect()).collect()
}

#[test]
fn test_styled_text() {
    let text = "ab".red().add(&"cd".to_string().bg(TuiColor::Blue)).add_str("!");
    let seen: Vec<(String, Option<TuiColor>, Option<TuiColor>)> =
        text.spans.iter().map(|s| (s.content.clone(), s.fg, s.bg)).collect();
    assert_eq!(
        seen,
        vec![
            ("ab".to_string(), Some(TuiColor::Red), None),
            ("cd".to_string(), None, Some(TuiColor::Blue)),
            ("!".to_string(), None, None),
        ]
    );
    assert_eq!("x".green().spans[0].fg, Some(TuiColor::Green));
    assert_eq!("x".blue().spans[0].fg, Some(TuiColor::Blue));
    assert_eq!("x".cyan().spans[0].fg, Some(TuiColor::Cyan));
    assert_eq!("x".white().spans[0].fg, Some(TuiColor::White));
    assert_eq!("x".gold().spans[0].fg, Some(TuiColor::Yellow));
    assert_eq!("x".default().spans[0].fg, Some(TuiColor::Reset));
    assert_eq!("x".fg(TuiColor::Cyan).spans[0].bg, None);
    let indented = GrString::from("x".to_string()).indent(3);
    assert_eq!(indented.spans[0].content, "   ");
    assert_eq!(indented.spans[1].content, "x");
}

#[test]
fn test_screen_groups_pieces_into_lines() {
    let mut tui = Tui::new();
    tui.print("a".red().add_str("b\n").add_str("c").add_str("d\ne").add_str("f"));
    assert_eq!(
        shown(&tui),
        vec![strs(&["a", "b\n"]), strs(&["c", "d\ne"]), strs(&["f"])]
    );
    tui.println(GrString::from("g".to_string()));
    assert_eq!(shown(&tui).len(), 4);
    assert_eq!(shown(&tui)[3], strs(&["g", "\n"]));
    tui.print(GrString { spans: Vec::new() });
    assert_eq!(shown(&tui).len(), 4);
}

#[test]
fn test_screen_keeps_the_newest_hundred_lines() {
    let mut tui = Tui::new();
    for i in 0..130 {
        tui.println(GrString::from(format!("line {}", i)));
    }
    let lines = shown(&tui);
    assert_eq!(lines.len(), 100);
    assert_eq!(lines[0][0], "line 30");
    assert_eq!(lines[99][0], "line 129");
}

fn ran(ok: bool, output: &str) -> SubmitEvent {
    SubmitEvent::Ran { ok, output: output.to_string() }
}

/// Feeds the events to the submission and lists what it asked for before each of them.
fn drive(submission: &mut Submit, events: Vec<SubmitEvent>) -> (Vec<String>, Option<StackError>) {
    let mut asked = Vec::new();
    for event in events {
        asked.push(match submission.action() {
            SubmitAction::Run(command) => command.line(),
            SubmitAction::FindReview => "find".to_string(),
            SubmitAction::EditTitle => "title".to_string(),
            SubmitAction::AskToCreate => "ask".to_string(),
            SubmitAction::CreateReview => "create".to_string(),
            SubmitAction::Finished => "finished".to_string(),
        });
        if let Err(e) = submission.record(&event) {
            return (asked, Some(e));
        }
    }
    (asked, None)
}

#[test]
fn test_submission_creates_a_review_after_a_yes() {
    let mut s = submit_one(&repo("c"), "origin", "b").unwrap();
    let (asked, error) = drive(
        &mut s,
        vec![
            ran(true, "3333333 two"),
            ran(true, ""),
            SubmitEvent::Found(false),
            ran(true, "Two\n\nthe body of two"),
            SubmitEvent::Edited(Some("Two, edited".to_string())),
            SubmitEvent::Answered(true),
            SubmitEvent::Created,
        ],
    );
    assert!(error.is_none());
    assert_eq!(
        asked,
        vec![
            "git log a..b --format=oneline",
            "git push origin b",
            "find",
            "git log a..b --format=%B --reverse",
            "title",
            "ask",
            "create",
        ]
    );
    assert!(s.done());
    assert_eq!(s.outcome, SubmitOutcome::Created);
    assert_eq!(s.title, "Two, edited");
    assert_eq!(s.body, "Two\n\nthe body of two");
    assert_eq!(s.parent, "a");
    assert!(matches!(s.action(), SubmitAction::Finished));
}

#[test]
fn test_submission_skips_a_branch_with_nothing_to_submit() {
    let mut s = submit_one(&repo("c"), "origin", "b").unwrap();
    let (asked, error) = drive(&mut s, vec![ran(true, "")]);
    assert!(error.is_none());
    assert_eq!(asked, vec!["git log a..b --format=oneline"]);
    assert!(s.done());
    assert_eq!(s.outcome, SubmitOutcome::Nothing);
    let loose = submit_one(&repo("c"), "origin", "nowhere").unwrap();
    assert!(loose.done());
    assert!(matches!(submit_one(&Git::new(), "origin", "b"), Err(StackError::NotARepository)));
}

#[test]
fn test_submission_of_a_root_compares_with_its_remote_upstream() {
    let mut s = submit_one(&repo("c"), "origin", "root").unwrap();
    assert_eq!(s.parent, "");
    let (asked, _) = drive(&mut s, vec![ran(true, "1111111 base"), ran(true, "")]);
    assert_eq!(asked, vec!["git log origin/root..root --format=oneline", "git push origin root"]);
    assert_eq!(s.phase, SubmitPhase::Find);
}

#[test]
fn test_submission_pushes_by_force_when_the_push_fails() {
    let mut s = submit_one(&repo("c"), "origin", "b").unwrap();
    let (asked, error) = drive(
        &mut s,
        vec![ran(true, "x y"), ran(false, "rejected"), ran(true, ""), SubmitEvent::Found(true)],
    );
    assert!(error.is_none());
    assert_eq!(
        asked,
        vec!["git log a..b --format=oneline", "git push origin b", "git push origin b -f", "find"]
    );
    assert_eq!(s.outcome, SubmitOutcome::Existing);
    assert!(s.done());
    let mut t = submit_one(&repo("c"), "origin", "b").unwrap();
    let (_, error) = drive(&mut t, vec![ran(true, "x y"), ran(false, "no"), ran(false, "still no")]);
    match error {
        Some(StackError::CommandFailed { command, stderr }) => {
            assert_eq!(command, "git push origin b -f");
            assert_eq!(stderr, "still no");
        }
        _ => panic!("a push by force that fails is the error"),
    }
    assert!(t.done());
}

#[test]
fn test_submission_ends_on_a_left_title_or_a_no() {
    let start = || {
        let mut s = submit_one(&repo("c"), "origin", "b").unwrap();
        drive(&mut s, vec![ran(true, "x y"), ran(true, ""), SubmitEvent::Found(false), ran(true, "T")]);
        s
    };
    let mut left = start();
    assert_eq!(left.title, "T");
    let (_, error) = drive(&mut left, vec![SubmitEvent::Edited(None)]);
    assert!(matches!(error, Some(StackError::AmbiguousSelection)));
    assert!(left.done());
    let mut no = start();
    let (_, error) =
        drive(&mut no, vec![SubmitEvent::Edited(Some("T".to_string())), SubmitEvent::Answered(false)]);
    assert!(error.is_none());
    assert_eq!((no.done(), no.outcome), (true, SubmitOutcome::Nothing));
    let mut odd = start();
    let (_, error) = drive(&mut odd, vec![SubmitEvent::Created, SubmitEvent::Found(true), ran(true, "")]);
    assert!(error.is_none());
    assert_eq!(odd.phase, SubmitPhase::Title);
    let mut bad = submit_one(&repo("c"), "origin", "b").unwrap();
    let (_, error) = drive(&mut bad, vec![ran(false, "fatal")]);
    assert!(matches!(error, Some(StackError::CommandFailed { .. })));
}
