use gr::errors::StackError;
use gr::git::Git;
use gr::reviews::{
    await_mergability, backoff, get_github_reviewer, label_branch, mergeability_undetermined,
    review_service_for, state_of_review, CodeReviewService, MergeRequest, MergeState, NoneReviewer,
    PollStep, PullFacts, Review, ReviewState, ServiceChoice, TMergeRequest,
};

fn facts() -> PullFacts {
    PullFacts {
        number: 42,
        draft: Some(false),
        merged: false,
        closed: false,
        state_closed: false,
        mergeable: Some(true),
        head_label: Some("owner:feature".to_string()),
        base_label: Some("owner:main".to_string()),
        title: Some("Title".to_string()),
        body: None,
        url: Some("https://example.org/pull/42".to_string()),
    }
}

fn review(state: ReviewState) -> Review {
    let mut r = NoneReviewer::new().review_with_id("id".to_string(), "b", "a", "t", "body");
    r.state = state;
    r
}

#[test]
fn test_map_state() {
    assert_eq!(MergeRequest::map_state(&ReviewState::Pending), MergeState::Pending);
    assert_eq!(MergeRequest::map_state(&ReviewState::Approved), MergeState::Pending);
    assert_eq!(MergeRequest::map_state(&ReviewState::Merged), MergeState::Merged);
    assert_eq!(MergeRequest::map_state(&ReviewState::Conflicted), MergeState::Failed);
    assert_eq!(MergeRequest::map_state(&ReviewState::Closed), MergeState::Failed);
    assert_eq!(MergeRequest::map_state(&ReviewState::Rejected), MergeState::Failed);
}

#[test]
fn test_merge_request_follows_its_review() {
    let mut request = MergeRequest::new(review(ReviewState::Approved));
    assert_eq!(request.state(), MergeState::Pending);
    request.refresh(review(ReviewState::Merged));
    assert_eq!(request.state, MergeState::Merged);
    let mut forced = request.in_state(MergeState::Failed);
    assert_eq!(forced.state, MergeState::Failed);
    assert_eq!(forced.review.id, "id");
    forced.update_state();
    assert_eq!(forced.state, MergeState::Merged);
}

#[test]
fn test_state_names() {
    let names: Vec<String> = [
        ReviewState::Conflicted,
        ReviewState::Pending,
        ReviewState::Approved,
        ReviewState::Rejected,
        ReviewState::Merged,
        ReviewState::Closed,
    ]
    .iter()
    .map(|s| s.to_string())
    .collect();
    assert_eq!(names, vec!["Conflicted", "Pending", "Approved", "Rejected", "Merged", "Closed"]);
    assert_eq!(ReviewState::default(), ReviewState::Pending);
    assert_eq!(CodeReviewService::Github.to_string(), "Github");
    assert_eq!(CodeReviewService::Local.to_string(), "None");
    assert_eq!(CodeReviewService::from_name("Github"), CodeReviewService::Github);
    assert_eq!(CodeReviewService::from_name("None"), CodeReviewService::Local);
    assert_eq!(CodeReviewService::from_name("github"), CodeReviewService::Local);
}

#[test]
fn test_state_of_review_goes_by_precedence() {
    let mut f = facts();
    assert_eq!(state_of_review(&f), ReviewState::Pending);
    f.mergeable = Some(false);
    assert_eq!(state_of_review(&f), ReviewState::Conflicted);
    f.state_closed = true;
    assert_eq!(state_of_review(&f), ReviewState::Closed);
    f.merged = true;
    assert_eq!(state_of_review(&f), ReviewState::Merged);
    f.draft = Some(true);
    assert_eq!(state_of_review(&f), ReviewState::Pending);
    let mut unknown = facts();
    unknown.draft = None;
    unknown.mergeable = None;
    assert_eq!(state_of_review(&unknown), ReviewState::Pending);
}

#[test]
fn test_review_of_a_pull_request() {
    let r = Review::from(&facts());
    assert_eq!(r.id, "42");
    assert_eq!(r.branch, "feature");
    assert_eq!(r.base, "main");
    assert_eq!(r.title, "Title");
    assert_eq!(r.body, "");
    assert_eq!(r.service, CodeReviewService::Github);
    assert_eq!(r.state, ReviewState::Pending);
    assert_eq!(r.url, Some("https://example.org/pull/42".to_string()));
    assert!(r.reviewers.is_empty() && r.tests.is_empty());
    assert_eq!(label_branch("a:b:c"), "c");
    assert_eq!(label_branch("plain"), "plain");
    assert_eq!(label_branch(""), "");
    let mut bare = facts();
    bare.head_label = None;
    assert_eq!(Review::from(&bare).branch, "");
    let twin = r.copy();
    assert_eq!((twin.id.as_str(), twin.branch.as_str(), twin.url), ("42", "feature", r.url));
}

#[test]
fn test_wait_for_mergeability_backs_off_and_gives_up() {
    let mut f = facts();
    f.mergeable = None;
    let waits: Vec<PollStep> = (0..16).map(|asked| await_mergability(asked, &f)).collect();
    let seconds = [1, 5, 5, 5, 5, 10, 10, 10, 30, 60, 1, 5, 5, 5, 5];
    for (asked, s) in seconds.iter().enumerate() {
        assert_eq!(waits[asked], PollStep::Wait(*s));
        assert_eq!(backoff(asked), *s);
    }
    assert_eq!(waits[15], PollStep::GiveUp);
    assert_eq!(await_mergability(400, &f), PollStep::GiveUp);
    f.mergeable = Some(false);
    assert_eq!(await_mergability(3, &f), PollStep::Settled(false));
    assert_eq!(await_mergability(15, &f), PollStep::Settled(false));
}

#[test]
fn test_merged_and_closed_requests_do_not_wait() {
    let mut f = facts();
    f.mergeable = None;
    f.merged = true;
    assert_eq!(await_mergability(0, &f), PollStep::Settled(true));
    f.closed = true;
    assert_eq!(await_mergability(0, &f), PollStep::Settled(false));
    assert_eq!(await_mergability(15, &f), PollStep::GiveUp);
    assert!(matches!(
        mergeability_undetermined(42),
        StackError::MergeabilityUndetermined { review_id } if review_id == "42"
    ));
}

#[test]
fn test_review_without_a_service() {
    let none = NoneReviewer::new();
    let r = none.create_review("feature", "main", "Title", "Body");
    assert!(!r.id.is_empty() && r.id.len() <= 16);
    assert!(r.id.chars().all(|c| c.is_ascii_hexdigit() && !c.is_ascii_uppercase()));
    assert_ne!(r.id, "featuremain");
    assert_eq!(r.id, none.create_review("feature", "main", "Other", "").id);
    assert_eq!(
        (r.branch.as_str(), r.base.as_str(), r.title.as_str(), r.body.as_str()),
        ("feature", "main", "Title", "Body")
    );
    assert_eq!(r.service, CodeReviewService::Local);
    assert_eq!(r.state, ReviewState::Approved);
    assert_eq!(r.url, None);
    assert!(none.review("1").is_none());
    assert!(none.reviews().is_empty());
    assert!(none.reviews_for("feature").is_empty());
}

#[test]
fn test_merge_without_a_service() {
    let git = Git::open(
        "true",
        "b",
        "a\nb\nc",
        "  a 1111111 base\n* b 2222222 [a] one\n  c 3333333 [b] two",
        "",
    );
    let none = NoneReviewer::new();
    let r = none.create_review("b", "a", "t", "");
    let (plan, request) = none.merge(&git, &r).unwrap();
    let lines: Vec<String> = plan.iter().map(|c| c.line()).collect();
    assert_eq!(
        lines,
        vec![
            "git switch a",
            "git merge b",
            "git switch c",
            "git branch --set-upstream-to a",
            "git switch a",
            "git pull --rebase",
            "git switch b",
            "git pull --rebase",
            "git switch c",
            "git pull --rebase",
            "git switch c",
            "git switch b",
            "git switch a",
            "git branch -d b",
        ]
    );
    assert_eq!(request.state, MergeState::Merged);
    assert_eq!(request.review.branch, "b");
    assert!(matches!(none.merge(&Git::new(), &r), Err(StackError::NotARepository)));
}

#[test]
fn test_remote_names_owner_and_repository() {
    let listing = "upstream\thttps://example.org/x/y.git (fetch)\norigin\tgit@github.com:owner/repo.git (fetch)\norigin\tgit@github.com:owner/repo.git (push)";
    let name = get_github_reviewer(listing).unwrap();
    assert_eq!((name.owner.as_str(), name.repo.as_str()), ("owner", "repo"));
    let web = get_github_reviewer("origin\thttps://github.com/owner/repo.git (fetch)").unwrap();
    assert_eq!((web.owner.as_str(), web.repo.as_str()), ("", "owner"));
    assert!(get_github_reviewer("origin\tgit@example.org:owner/repo.git (fetch)").is_none());
    assert!(get_github_reviewer("origin github.com").is_none());
    assert!(get_github_reviewer("").is_none());
    let twice = get_github_reviewer("o git@github.com:a/b github.com:c/d").unwrap();
    assert_eq!((twice.owner.as_str(), twice.repo.as_str()), ("a", "b"));
}

#[test]
fn test_review_service_for() {
    assert!(matches!(
        review_service_for(&CodeReviewService::Local, ""),
        Ok(ServiceChoice::Local)
    ));
    assert!(matches!(
        review_service_for(&CodeReviewService::Github, "origin git@github.com:o/r.git (fetch)"),
        Ok(ServiceChoice::Github { owner, repo }) if owner == "o" && repo == "r"
    ));
    assert!(matches!(
        review_service_for(&CodeReviewService::Github, "origin git@example.org:o/r.git"),
        Err(StackError::ReviewServiceUnavailable)
    ));
}
