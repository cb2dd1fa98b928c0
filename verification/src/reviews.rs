//! Code reviews and the requests to merge them, as the stack operations see
//! them.  The review service itself is reached elsewhere; here are the
//! values it hands over and what follows from them.

use vstd::prelude::*;
use vstd::string::StringExecFns;
use crate::branches;
use crate::errors::StackError;
use crate::git;
use crate::git::Git;
use crate::git::GitCommand;
use crate::text;

verus! {

/// The review services that are known.
#[derive(Clone, Copy, Debug, PartialEq, Eq, Structural)]
pub enum CodeReviewService {
    Github,
    /// No service: reviews are merged in the repository itself.
    Local,
}

/// The state of a code review.
#[derive(Clone, Copy, Debug, PartialEq, Eq, Structural)]
pub enum ReviewState {
    Conflicted,
    Pending,
    Approved,
    Rejected,
    Merged,
    Closed,
}

/// The state of a test that may keep a review from being approved.
#[derive(Clone, Copy, Debug, PartialEq, Eq, Structural)]
pub enum ReviewTestState {
    Pending,
    Passed,
    Failed,
}

/// A test that may keep a review from being approved, such as the number of
/// approvals it has received.
#[derive(Debug)]
pub struct ReviewTest {
    pub name: String,
    pub state: ReviewTestState,
}

/// The tests as plain values.
pub open spec fn test_views(v: Seq<ReviewTest>) -> Seq<(Seq<char>, ReviewTestState)> {
    Seq::new(v.len(), |i: int| (v[i].name@, v[i].state))
}

/// A code review.
#[derive(Debug)]
pub struct Review {
    pub id: String,
    pub branch: String,
    pub base: String,
    pub title: String,
    pub body: String,
    pub service: CodeReviewService,
    pub reviewers: Vec<String>,
    pub state: ReviewState,
    pub tests: Vec<ReviewTest>,
    /// Where the review can be looked at.
    pub url: Option<String>,
}

/// Whether a review has been merged, as the request to merge it sees it.
#[derive(Clone, Copy, Debug, PartialEq, Eq, Structural)]
pub enum MergeState {
    Pending,
    Merged,
    Failed,
}

/// A request to merge a review.
#[derive(Debug)]
pub struct MergeRequest {
    pub state: MergeState,
    pub review: Review,
}

/// What every request to merge can say of itself.
pub trait TMergeRequest {
    fn state(&self) -> MergeState;
}

/// The review service that works without a service: a review is merged by
/// merging its branch into its base in the repository.
#[derive(Debug)]
pub struct NoneReviewer {}

/// What a review service tells of a pull request.
#[derive(Debug)]
pub struct PullFacts {
    pub number: u64,
    pub draft: Option<bool>,
    /// Whether the request has been merged.
    pub merged: bool,
    /// Whether the request has been closed at some time.
    pub closed: bool,
    /// Whether the request is in the state of a closed one.
    pub state_closed: bool,
    pub mergeable: Option<bool>,
    pub head_label: Option<String>,
    pub base_label: Option<String>,
    pub title: Option<String>,
    pub body: Option<String>,
    pub url: Option<String>,
}

/// How long to wait, in seconds, before a pull request is asked again
/// whether it can be merged.
pub open spec fn backoff_spec() -> Seq<u64> {
    seq![1u64, 5, 5, 5, 5, 10, 10, 10, 30, 60]
}

/// How often a pull request is asked at most.
pub const MAX_ATTEMPTS: usize = 15;

/// What the state of a review means for the request to merge it.  A review
/// that is pending or approved may still be merged; one that is conflicted,
/// closed or rejected never will be.
pub open spec fn merge_state_of(review_state: ReviewState) -> MergeState {
    match review_state {
        ReviewState::Pending => MergeState::Pending,
        ReviewState::Approved => MergeState::Pending,
        ReviewState::Merged => MergeState::Merged,
        ReviewState::Conflicted => MergeState::Failed,
        ReviewState::Closed => MergeState::Failed,
        ReviewState::Rejected => MergeState::Failed,
    }
}

/// The state of a review that a pull request stands for.  A draft is
/// pending; else a merged request is merged, a closed one is closed, and
/// one that cannot be merged is conflicted; anything else is pending.
pub open spec fn review_state_of(
    draft: Option<bool>,
    merged: bool,
    state_closed: bool,
    mergeable: Option<bool>,
) -> ReviewState {
    if draft == Some(true) {
        ReviewState::Pending
    } else if merged {
        ReviewState::Merged
    } else if state_closed {
        ReviewState::Closed
    } else if mergeable == Some(false) {
        ReviewState::Conflicted
    } else {
        ReviewState::Pending
    }
}

/// What is known of whether a pull request can be merged: a merged one
/// could, a closed one cannot, and else what the service says.
pub open spec fn settled(merged: bool, closed: bool, mergeable: Option<bool>) -> Option<bool> {
    if closed {
        Some(false)
    } else if merged {
        Some(true)
    } else {
        mergeable
    }
}

/// What stands behind the last colon of a label, the whole label if it has
/// none: the branch that a label of the form `owner:branch` names.
pub open spec fn branch_of_label(label: Seq<char>) -> Seq<char> {
    text::split_spec(label, ':').last()
}

/// The text of an optional string, nothing where there is none.
pub open spec fn option_text(s: Option<String>) -> Seq<char> {
    match s {
        Some(s) => s@,
        None => Seq::empty(),
    }
}

impl CodeReviewService {
    pub open spec fn name_spec(self) -> Seq<char> {
        match self {
            CodeReviewService::Local => "None"@,
            CodeReviewService::Github => "Github"@,
        }
    }

    /// The name of the service, as the configuration writes it.
    pub fn to_string(&self) -> (r: String)
        ensures
            r@ == self.name_spec(),
    {
        match self {
            CodeReviewService::Local => String::from_str("None"),
            CodeReviewService::Github => String::from_str("Github"),
        }
    }

    /// The service of that name; any name but `Github` names none.
    pub fn from_name(name: &str) -> (r: CodeReviewService)
        ensures
            r == if name@ == "Github"@ {
                CodeReviewService::Github
            } else {
                CodeReviewService::Local
            },
    {
        if *name == *"Github" {
            CodeReviewService::Github
        } else {
            CodeReviewService::Local
        }
    }
}

impl ReviewState {
    pub open spec fn name_spec(self) -> Seq<char> {
        match self {
            ReviewState::Conflicted => "Conflicted"@,
            ReviewState::Pending => "Pending"@,
            ReviewState::Approved => "Approved"@,
            ReviewState::Rejected => "Rejected"@,
            ReviewState::Merged => "Merged"@,
            ReviewState::Closed => "Closed"@,
        }
    }

    /// The name of the state.
    pub fn to_string(&self) -> (r: String)
        ensures
            r@ == self.name_spec(),
    {
        match self {
            ReviewState::Conflicted => String::from_str("Conflicted"),
            ReviewState::Pending => String::from_str("Pending"),
            ReviewState::Approved => String::from_str("Approved"),
            ReviewState::Rejected => String::from_str("Rejected"),
            ReviewState::Merged => String::from_str("Merged"),
            ReviewState::Closed => String::from_str("Closed"),
        }
    }
}

impl Default for ReviewState {
    fn default() -> (r: ReviewState)
        ensures
            r == ReviewState::Pending,
    {
        ReviewState::Pending
    }
}

/// The state of the review that a pull request stands for.
pub fn state_of_review(prc: &PullFacts) -> (r: ReviewState)
    ensures
        r == review_state_of(prc.draft, prc.merged, prc.state_closed, prc.mergeable),
{
    if let Some(true) = prc.draft {
        return ReviewState::Pending;
    }
    if prc.merged {
        return ReviewState::Merged;
    }
    if prc.state_closed {
        return ReviewState::Closed;
    }
    if let Some(false) = prc.mergeable {
        return ReviewState::Conflicted;
    }
    ReviewState::Pending
}

/// The text of an optional string, nothing where there is none.
pub fn text_or_empty(s: &Option<String>) -> (r: String)
    ensures
        r@ == option_text(*s),
{
    match s {
        Some(s) => s.clone(),
        None => String::new(),
    }
}

/// The branch that a label of the form `owner:branch` names.
pub fn label_branch(label: &str) -> (r: String)
    ensures
        r@ == branch_of_label(label@),
{
    let mut pieces = text::split(label, ':');
    proof {
        text::lemma_split_nonempty(label@, ':');
    }
    let ghost all = text::views(pieces@);
    let last = pieces.pop().unwrap();
    assert(last@ == all.last());
    last
}

impl Review {
    /// The review that a pull request stands for.  Its id is the number of
    /// the request; its branches are those that the labels name.
    pub fn from(prc: &PullFacts) -> (r: Review)
        ensures
            r.id@ == text::decimal_spec(prc.number as nat),
            r.branch@ == branch_of_label(option_text(prc.head_label)),
            r.base@ == branch_of_label(option_text(prc.base_label)),
            r.title@ == option_text(prc.title),
            r.body@ == option_text(prc.body),
            r.service == CodeReviewService::Github,
            r.state == review_state_of(prc.draft, prc.merged, prc.state_closed, prc.mergeable),
            r.reviewers@.len() == 0,
            r.tests@.len() == 0,
            r.url is Some <==> prc.url is Some,
            r.url is Some ==> r.url->0@ == prc.url->0@,
    {
        Review {
            id: text::decimal64(prc.number),
            branch: label_branch(text_or_empty(&prc.head_label).as_str()),
            base: label_branch(text_or_empty(&prc.base_label).as_str()),
            title: text_or_empty(&prc.title),
            body: text_or_empty(&prc.body),
            service: CodeReviewService::Github,
            url: match &prc.url {
                Some(u) => Some(u.clone()),
                None => None,
            },
            reviewers: Vec::new(),
            state: state_of_review(prc),
            tests: Vec::new(),
        }
    }

    /// Whether the two say the same of a review.
    pub open spec fn same(&self, other: &Review) -> bool {
        &&& self.id@ == other.id@
        &&& self.branch@ == other.branch@
        &&& self.base@ == other.base@
        &&& self.title@ == other.title@
        &&& self.body@ == other.body@
        &&& self.service == other.service
        &&& text::views(self.reviewers@) == text::views(other.reviewers@)
        &&& self.state == other.state
        &&& test_views(self.tests@) == test_views(other.tests@)
        &&& self.url is Some <==> other.url is Some
        &&& self.url is Some ==> self.url->0@ == other.url->0@
    }

    /// The review once more.
    pub fn copy(&self) -> (r: Review)
        ensures
            r.same(self),
    {
        let mut tests: Vec<ReviewTest> = Vec::new();
        let mut i: usize = 0;
        while i < self.tests.len()
            invariant
                i <= self.tests@.len(),
                test_views(tests@) =~= test_views(self.tests@).take(i as int),
            decreases self.tests@.len() - i,
        {
            let ghost before = test_views(tests@);
            let test = &self.tests[i];
            tests.push(ReviewTest { name: test.name.clone(), state: test.state });
            assert(test_views(tests@) =~= before.push((test.name@, test.state)));
            i += 1;
        }
        assert(test_views(tests@) =~= test_views(self.tests@));
        Review {
            id: self.id.clone(),
            branch: self.branch.clone(),
            base: self.base.clone(),
            title: self.title.clone(),
            body: self.body.clone(),
            service: self.service,
            url: match &self.url {
                Some(u) => Some(u.clone()),
                None => None,
            },
            reviewers: git::copy_strings(&self.reviewers),
            state: self.state,
            tests,
        }
    }
}

impl MergeRequest {
    /// The request to merge `review`, in the state that the review's state
    /// means for it.
    pub fn new(review: Review) -> (r: Self)
        ensures
            r.review == review,
            r.state == merge_state_of(review.state),
    {
        let state = Self::map_state(&review.state);
        Self { state, review }
    }

    /// The request in the given state.
    pub fn in_state(self, state: MergeState) -> (r: Self)
        ensures
            r.state == state,
            r.review == self.review,
    {
        Self { state, review: self.review }
    }

    /// Takes in the review as the service now shows it.
    pub fn refresh(&mut self, review: Review)
        ensures
            final(self).review == review,
            final(self).state == merge_state_of(review.state),
    {
        self.review = review;
        self.update_state();
    }

    /// Sets the state to what the review's state means for the request.
    pub fn update_state(&mut self)
        ensures
            final(self).review == old(self).review,
            final(self).state == merge_state_of(old(self).review.state),
    {
        self.state = Self::map_state(&self.review.state);
    }

    /// What the state of a review means for the request to merge it.
    pub fn map_state(review_state: &ReviewState) -> (r: MergeState)
        ensures
            r == merge_state_of(*review_state),
    {
        match review_state {
            ReviewState::Pending => MergeState::Pending,
            ReviewState::Approved => MergeState::Pending,
            ReviewState::Merged => MergeState::Merged,
            ReviewState::Conflicted | ReviewState::Closed | ReviewState::Rejected =>
                MergeState::Failed,
        }
    }
}

impl TMergeRequest for MergeRequest {
    fn state(&self) -> (r: MergeState)
        ensures
            r == self.state,
    {
        self.state
    }
}

/// What the wait for a pull request's mergeability does next.
#[derive(Clone, Copy, Debug, PartialEq, Eq, Structural)]
pub enum PollStep {
    /// It is known whether the request can be merged.
    Settled(bool),
    /// The request is to be asked again after so many seconds.
    Wait(u64),
    /// The request was asked as often as it may be and never said.
    GiveUp,
}

/// What the wait does when the request has been asked `asked` times and
/// now shows these facts.  As long as it may ask again, a merged request
/// counts as one that can be merged and a closed one as one that cannot;
/// where nothing is known it waits, longer and longer.  Once it has asked
/// as often as it may, only what the service says counts.
pub open spec fn poll_spec(asked: nat, merged: bool, closed: bool, mergeable: Option<bool>) -> PollStep {
    if asked < MAX_ATTEMPTS {
        match settled(merged, closed, mergeable) {
            Some(can) => PollStep::Settled(can),
            None => PollStep::Wait(backoff_spec()[(asked % backoff_spec().len()) as int]),
        }
    } else {
        match mergeable {
            Some(can) => PollStep::Settled(can),
            None => PollStep::GiveUp,
        }
    }
}

/// How long to wait before the `asked`-th repeat of the question.
pub fn backoff(asked: usize) -> (r: u64)
    ensures
        r == backoff_spec()[(asked % 10) as int],
{
    let i = asked % 10;
    if i == 0 {
        1
    } else if i <= 4 {
        5
    } else if i <= 7 {
        10
    } else if i == 8 {
        30
    } else {
        60
    }
}

/// The next step of the wait for a pull request's mergeability.
pub fn await_mergability(asked: usize, prc: &PullFacts) -> (r: PollStep)
    ensures
        r == poll_spec(asked as nat, prc.merged, prc.closed, prc.mergeable),
{
    if asked < MAX_ATTEMPTS {
        if prc.closed {
            PollStep::Settled(false)
        } else if prc.merged {
            PollStep::Settled(true)
        } else {
            match prc.mergeable {
                Some(can) => PollStep::Settled(can),
                None => PollStep::Wait(backoff(asked)),
            }
        }
    } else {
        match prc.mergeable {
            Some(can) => PollStep::Settled(can),
            None => PollStep::GiveUp,
        }
    }
}

/// The wait never goes on for ever: once the request has been asked as
/// often as it may be, the wait has ended, and every wait before that is
/// one of the schedule.
pub proof fn lemma_poll_is_bounded(asked: nat, merged: bool, closed: bool, mergeable: Option<bool>)
    ensures
        asked >= MAX_ATTEMPTS ==> !(poll_spec(asked, merged, closed, mergeable) is Wait),
        poll_spec(asked, merged, closed, mergeable) is Wait ==> backoff_spec().contains(
            poll_spec(asked, merged, closed, mergeable)->Wait_0,
        ) && 1 <= poll_spec(asked, merged, closed, mergeable)->Wait_0 <= 60,
{
    if poll_spec(asked, merged, closed, mergeable) is Wait {
        let i = (asked % backoff_spec().len()) as int;
        assert(backoff_spec()[i] == poll_spec(asked, merged, closed, mergeable)->Wait_0);
    }
}

/// The error of a wait that gave up.
pub fn mergeability_undetermined(number: u64) -> (r: StackError)
    ensures
        r is MergeabilityUndetermined,
        r->review_id@ == text::decimal_spec(number as nat),
{
    StackError::MergeabilityUndetermined { review_id: text::decimal64(number) }
}

/// `BuildHasher::hash_one` of std, with the default hasher: the hash of the
/// text.  Which number that is is left to std, so nothing is said of it.
#[verifier::external_body]
fn hash_text(text: &str) -> (r: u64) {
    std::hash::BuildHasher::hash_one(
        &std::hash::BuildHasherDefault::<std::hash::DefaultHasher>::default(),
        text,
    )
}

/// The commands that make each of the first `n` children track `parent`.
pub open spec fn adopt(children: Seq<Seq<char>>, parent: Seq<char>, n: int) -> Seq<git::CommandView>
    decreases n,
{
    if n <= 0 {
        Seq::empty()
    } else {
        adopt(children, parent, n - 1) + seq![
            git::switch_to(children[n - 1]),
            ("branch"@, seq!["--set-upstream-to"@, parent]),
        ]
    }
}

/// The commands that merge a review without a service: the base is
/// switched to and the branch merged into it, the children of the branch
/// are made to track the base, the base and everything above it is pulled,
/// and the branch is deleted.
pub open spec fn local_merge_plan(
    edges: Seq<(Seq<char>, Seq<char>)>,
    branch: Seq<char>,
    base: Seq<char>,
) -> Seq<git::CommandView> {
    let children = branches::children_spec(edges, branch);
    seq![git::switch_to(base), ("merge"@, seq![branch])] + adopt(
        children,
        base,
        children.len() as int,
    ) + git::pull_plan(edges, base, edges.len()) + seq![("branch"@, seq!["-d"@, branch])]
}

impl NoneReviewer {
    pub fn new() -> NoneReviewer {
        NoneReviewer {  }
    }

    /// The review of `branch` against `parent` once it has been given the
    /// id `id`.  Nobody has to approve it.
    pub fn review_with_id(&self, id: String, branch: &str, parent: &str, title: &str, body: &str) -> (r:
        Review)
        ensures
            r.id == id,
            r.branch@ == branch@,
            r.base@ == parent@,
            r.title@ == title@,
            r.body@ == body@,
            r.service == CodeReviewService::Local,
            r.state == ReviewState::Approved,
            r.reviewers@.len() == 0,
            r.tests@.len() == 0,
            r.url is None,
    {
        Review {
            id,
            branch: String::from_str(branch),
            base: String::from_str(parent),
            title: String::from_str(title),
            body: String::from_str(body),
            service: CodeReviewService::Local,
            reviewers: Vec::new(),
            state: ReviewState::Approved,
            tests: Vec::new(),
            url: None,
        }
    }

    /// A review of `branch` against `parent`.  Its id is a hash of the two
    /// names, written in hex digits.
    pub fn create_review(&self, branch: &str, parent: &str, title: &str, body: &str) -> (r: Review)
        ensures
            exists|hash: u64| r.id@ == text::hex_spec(hash as nat),
            r.branch@ == branch@,
            r.base@ == parent@,
            r.title@ == title@,
            r.body@ == body@,
            r.service == CodeReviewService::Local,
            r.state == ReviewState::Approved,
            r.reviewers@.len() == 0,
            r.tests@.len() == 0,
            r.url is None,
    {
        let hash = hash_text(text::concat(branch, parent).as_str());
        let id = text::hex64(hash);
        self.review_with_id(id, branch, parent, title, body)
    }

    /// No review is kept anywhere.
    pub fn review(&self, _id: &str) -> (r: Option<Review>)
        ensures
            r is None,
    {
        None
    }

    /// No review is kept anywhere.
    pub fn reviews(&self) -> (r: Vec<Review>)
        ensures
            r@.len() == 0,
    {
        Vec::new()
    }

    /// No review is kept anywhere.
    pub fn reviews_for(&self, _branch: &str) -> (r: Vec<Review>)
        ensures
            r@.len() == 0,
    {
        Vec::new()
    }

    /// The commands that merge the review's branch into its base, and the
    /// request to merge, which counts as merged once they have run.
    pub fn merge(&self, git: &Git, review: &Review) -> (r: Result<
        (Vec<GitCommand>, MergeRequest),
        StackError,
    >)
        ensures
            !git.inside ==> r is Err && r->Err_0 == StackError::NotARepository,
            git.inside ==> r is Ok && git::commands(r->Ok_0.0@) == local_merge_plan(
                git.edges(),
                review.branch@,
                review.base@,
            ) && r->Ok_0.1.state == MergeState::Merged && r->Ok_0.1.review.same(review),
    {
        if !git.inside {
            return Err(StackError::NotARepository);
        }
        let parent = review.base.as_str();
        let children = branches::find_children(&git.tracking, review.branch.as_str());
        let mut out: Vec<GitCommand> = Vec::new();
        assert(git::commands(out@) =~= Seq::empty());
        git::push_command(&mut out, "switch", git::args1(parent));
        git::push_command(&mut out, "merge", git::args1(review.branch.as_str()));
        let ghost head = git::commands(out@);
        let mut c: usize = 0;
        assert(git::commands(out@) =~= head + Seq::empty());
        while c < children.len()
            invariant
                c <= children.len(),
                git::commands(out@) == head + adopt(text::views(children@), parent@, c as int),
            decreases children.len() - c,
        {
            git::push_command(&mut out, "switch", git::args1(children[c].as_str()));
            git::push_command(&mut out, "branch", git::args2("--set-upstream-to", parent));
            assert(git::commands(out@) =~= head + adopt(text::views(children@), parent@, c + 1));
            c += 1;
        }
        git.pull_onto(parent, &mut out);
        git::push_command(&mut out, "branch", git::args2("-d", review.branch.as_str()));
        assert(git::commands(out@) =~= local_merge_plan(git.edges(), review.branch@, review.base@));
        Ok((out, MergeRequest { state: MergeState::Merged, review: review.copy() }))
    }
}

/// The host whose remotes the review service of that name serves.
pub const GITHUB_HOST: &'static str = "github.com";

/// The review service to work with.
#[derive(Debug)]
pub enum ServiceChoice {
    /// Reviews are merged in the repository itself.
    Local,
    /// The repository `repo` of `owner` on the review service.
    Github { owner: String, repo: String },
}

/// A repository on the review service.
#[derive(Debug)]
pub struct RepoName {
    pub owner: String,
    pub repo: String,
}

/// The first of the lines that names the host.
pub open spec fn host_line(lines: Seq<Seq<char>>, host: Seq<char>, from: int) -> Option<Seq<char>>
    decreases lines.len() - from,
{
    if from < 0 || from >= lines.len() {
        None
    } else if text::find_sub_spec(lines[from], host, 0) < lines[from].len() {
        Some(lines[from])
    } else {
        host_line(lines, host, from + 1)
    }
}

/// What stands in a line between the first occurrence of the host and the
/// next one.
pub open spec fn behind_host(line: Seq<char>, host: Seq<char>) -> Seq<char> {
    let rest = line.skip(text::find_sub_spec(line, host, 0) + host.len());
    rest.take(text::find_sub_spec(rest, host, 0))
}

/// The owner that a remote names: what stands before the first slash
/// behind the host, without white space at its ends and without colons.
pub open spec fn owner_spec(path: Seq<char>) -> Seq<char> {
    text::strip_spec(text::trim_spec(text::split_spec(path, '/')[0]), ":"@)
}

/// The repository that a remote names: the first word behind the first
/// slash, without the ending of a bare repository.
pub open spec fn repo_spec(path: Seq<char>) -> Seq<char> {
    text::strip_spec(
        text::trim_spec(text::split_spec(text::split_spec(path, '/')[1], ' ')[0]),
        ".git"@,
    )
}

/// The owner and the repository that the remotes name on the host, if any
/// of them names the host and a path with a slash behind it.
pub open spec fn github_spec(listing: Seq<char>) -> Option<(Seq<char>, Seq<char>)> {
    match host_line(text::lines_spec(listing), GITHUB_HOST@, 0) {
        None => None,
        Some(line) => {
            let path = behind_host(line, GITHUB_HOST@);
            if text::split_spec(path, '/').len() > 1 {
                Some((owner_spec(path), repo_spec(path)))
            } else {
                None
            }
        },
    }
}

/// The owner and the repository on the review service that the verbose
/// listing of the remotes names.
pub fn get_github_reviewer(listing: &str) -> (r: Option<RepoName>)
    ensures
        r is Some <==> github_spec(listing@) is Some,
        r is Some ==> (r->0.owner@, r->0.repo@) == github_spec(listing@)->0,
{
    let host = text::chars_of(GITHUB_HOST);
    let lines = text::lines(listing);
    let mut i: usize = 0;
    while i < lines.len()
        invariant
            i <= lines.len(),
            host@ == GITHUB_HOST@,
            text::views(lines@) == text::lines_spec(listing@),
            host_line(text::views(lines@), host@, 0) == host_line(
                text::views(lines@),
                host@,
                i as int,
            ),
        decreases lines.len() - i,
    {
        let line = text::chars_of(lines[i].as_str());
        let at = text::find_sub(&line, &host, 0);
        if at < line.len() {
            proof {
                text::lemma_find_sub_bounds(line@, host@, 0);
            }
            let rest_text = text::substring(&line, at + host.len(), line.len());
            let rest = text::chars_of(rest_text.as_str());
            assert(rest@ =~= line@.skip(at + host.len()));
            let next = text::find_sub(&rest, &host, 0);
            let path = text::substring(&rest, 0, next);
            assert(rest@.subrange(0, next as int) =~= rest@.take(next as int));
            assert(path@ == behind_host(line@, host@));
            let parts = text::split(path.as_str(), '/');
            if parts.len() > 1 {
                let owner = text::strip(text::trim(parts[0].as_str()).as_str(), ":");
                let words = text::split(parts[1].as_str(), ' ');
                proof {
                    text::lemma_split_nonempty(parts@[1]@, ' ');
                }
                let repo = text::strip(text::trim(words[0].as_str()).as_str(), ".git");
                return Some(RepoName { owner, repo });
            }
            return None;
        }
        i += 1;
    }
    None
}

/// The review service to work with.  The service on the host needs a
/// remote that names it.
pub fn review_service_for(service: &CodeReviewService, listing: &str) -> (r: Result<
    ServiceChoice,
    StackError,
>)
    ensures
        *service == CodeReviewService::Local ==> r is Ok && r->Ok_0 is Local,
        *service == CodeReviewService::Github && github_spec(listing@) is None ==> r is Err
            && r->Err_0 == StackError::ReviewServiceUnavailable,
        *service == CodeReviewService::Github && github_spec(listing@) is Some ==> r is Ok
            && r->Ok_0 is Github && (r->Ok_0->owner@, r->Ok_0->repo@) == github_spec(listing@)->0,
{
    match service {
        CodeReviewService::Local => Ok(ServiceChoice::Local),
        CodeReviewService::Github => match get_github_reviewer(listing) {
            Some(name) => Ok(ServiceChoice::Github { owner: name.owner, repo: name.repo }),
            None => Err(StackError::ReviewServiceUnavailable),
        },
    }
}

} // verus!
