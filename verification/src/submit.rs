//! Submitting a stack for review and merging its reviews, as far as the
//! stack decides: which branches are gone through, root first, which of
//! them have anything to submit, and how a review is drafted.

use vstd::prelude::*;
use vstd::string::StringExecFns;
use crate::ansi;
use crate::ansi::AnsiWrapper;
use crate::branches;
use crate::branches::BranchType;
use crate::errors::StackError;
use crate::git;
use crate::git::Git;
use crate::git::GitCommand;
use crate::reviews::MergeState;
use crate::symbols;
use crate::text;

verus! {

/// The branches that a submission of `branch` goes through, root first:
/// the ancestors of `branch` by their local parents, and `branch` itself at
/// the end.  The walk follows at most `fuel` parent links.
pub open spec fn stack_of(
    edges: Seq<(Seq<char>, Seq<char>)>,
    locals: Seq<Seq<char>>,
    branch: Seq<char>,
    fuel: nat,
) -> Seq<Seq<char>>
    decreases fuel,
{
    match branches::parent_spec(edges, locals, branch, BranchType::Local) {
        None => seq![branch],
        Some(parent) => if fuel == 0 {
            seq![branch]
        } else {
            stack_of(edges, locals, parent, (fuel - 1) as nat).push(branch)
        },
    }
}

/// A branch has something to submit if it tracks a parent and the listing
/// of what it has beyond that parent has no empty line.
pub open spec fn worth_submitting(parent: Option<Seq<char>>, diff: Seq<char>) -> bool {
    parent is Some && forall|i: int|
        0 <= i < text::split_spec(diff, '\n').len() ==> (#[trigger] text::split_spec(
            diff,
            '\n',
        )[i]).len() > 0
}

/// The title of a review: the first line of the commit messages.
pub open spec fn draft_title(messages: Seq<Seq<char>>) -> Seq<char> {
    if messages.len() > 0 {
        messages[0]
    } else {
        Seq::empty()
    }
}

/// The frames of the spinner, in their order.
pub open spec fn spinner_frames() -> Seq<Seq<char>> {
    seq!["-"@, "\\"@, "|"@, "/"@]
}

/// What is shown of a request to merge at the `tick`-th look at it: the
/// next frame of the spinner while it is pending, a green check once it is
/// merged and a red cross once it has failed.
pub open spec fn progress_spec(state: MergeState, tick: nat) -> (Seq<char>, bool) {
    match state {
        MergeState::Pending => (
            ansi::wrapped(ansi::YELLOW@, spinner_frames()[(tick % 4) as int]),
            false,
        ),
        MergeState::Merged => (ansi::wrapped(ansi::GREEN@, symbols::CHECK@), true),
        MergeState::Failed => (ansi::wrapped(ansi::RED@, symbols::CROSS@), true),
    }
}

fn stack_into(git: &Git, branch: &str, fuel: usize, out: &mut Vec<String>)
    requires
        git.inside,
    ensures
        text::views(final(out)@) == text::views(old(out)@) + stack_of(
            git.edges(),
            git.locals(),
            branch@,
            fuel as nat,
        ),
    decreases fuel,
{
    let ghost before = text::views(out@);
    match git.parent_of(branch, BranchType::Local) {
        Ok(Some(parent)) => {
            if fuel > 0 {
                stack_into(git, parent.as_str(), fuel - 1, out);
            }
            let ghost mid = text::views(out@);
            out.push(String::from_str(branch));
            assert(text::views(out@) =~= mid.push(branch@));
            assert(text::views(out@) =~= before + stack_of(
                git.edges(),
                git.locals(),
                branch@,
                fuel as nat,
            ));
        },
        _ => {
            out.push(String::from_str(branch));
            assert(text::views(out@) =~= before + seq![branch@]);
        },
    }
}

/// The branches that a submission or a merge of the stack of `branch` goes
/// through, root first.
pub fn submit_branch(git: &Git, branch: &str) -> (r: Result<Vec<String>, StackError>)
    ensures
        !git.inside ==> r is Err && r->Err_0 == StackError::NotARepository,
        git.inside ==> r is Ok && text::views(r->Ok_0@) == stack_of(
            git.edges(),
            git.locals(),
            branch@,
            git.edges().len(),
        ),
{
    if !git.inside {
        return Err(StackError::NotARepository);
    }
    let mut out: Vec<String> = Vec::new();
    assert(text::views(out@) =~= Seq::empty());
    stack_into(git, branch, git.tracking.len(), &mut out);
    assert(text::views(out@) =~= stack_of(
        git.edges(),
        git.locals(),
        branch@,
        git.edges().len(),
    ));
    Ok(out)
}

/// The branches that a merge of the stack of `branch` goes through, root
/// first: the same as for a submission.
pub fn merge_branch(git: &Git, branch: &str) -> (r: Result<Vec<String>, StackError>)
    ensures
        !git.inside ==> r is Err && r->Err_0 == StackError::NotARepository,
        git.inside ==> r is Ok && text::views(r->Ok_0@) == stack_of(
            git.edges(),
            git.locals(),
            branch@,
            git.edges().len(),
        ),
{
    submit_branch(git, branch)
}

/// Whether a branch has anything to submit, given the parent it tracks and
/// the listing of what it has beyond that parent.
pub fn needs_submitting(parent: &Option<String>, diff: &str) -> (r: bool)
    ensures
        r == worth_submitting(
            match parent {
                Some(p) => Some(p@),
                None => None,
            },
            diff@,
        ),
{
    match parent {
        None => false,
        Some(_) => {
            let lines = text::split(diff, '\n');
            let mut i: usize = 0;
            while i < lines.len()
                invariant
                    i <= lines.len(),
                    text::views(lines@) == text::split_spec(diff@, '\n'),
                    forall|k: int| 0 <= k < i ==> (#[trigger] text::views(lines@)[k]).len() > 0,
                decreases lines.len() - i,
            {
                if lines[i].as_str().unicode_len() == 0 {
                    assert(text::views(lines@)[i as int].len() == 0);
                    return false;
                }
                i += 1;
            }
            true
        },
    }
}

/// The two ways of pushing a branch: as it is, and by force where that
/// fails.
pub fn push_branch(git: &Git, remote: &str, branch: &str) -> (r: Result<
    (GitCommand, GitCommand),
    StackError,
>)
    ensures
        !git.inside ==> r is Err && r->Err_0 == StackError::NotARepository,
        git.inside ==> r is Ok && r->Ok_0.0@ == ("push"@, seq![remote@, branch@]) && r->Ok_0.1@ == (
            "push"@,
            seq![remote@, branch@, "-f"@],
        ),
{
    if !git.inside {
        return Err(StackError::NotARepository);
    }
    Ok(
        (
            GitCommand::new("push", git::args2(remote, branch)),
            GitCommand::new("push", git::args3(remote, branch, "-f")),
        ),
    )
}

/// The question for the commit messages of what `branch` has beyond
/// `parent`, oldest first.
pub fn get_commit_message(git: &Git, branch: &str, parent: &str) -> (r: Result<
    GitCommand,
    StackError,
>)
    ensures
        git.issues(r, "log"@, seq![parent@ + ".."@ + branch@, "--format=%B"@, "--reverse"@]),
{
    if !git.inside {
        return Err(StackError::NotARepository);
    }
    let range = text::concat3(parent, "..", branch);
    Ok(GitCommand::new("log", git::args3(range.as_str(), "--format=%B", "--reverse")))
}

/// The draft of a review from the commit messages: the first line is the
/// title, all of them are the body.
pub fn review_draft(messages: &Vec<String>) -> (r: (String, String))
    ensures
        r.0@ == draft_title(text::views(messages@)),
        r.1@ == text::join_spec(text::views(messages@), "\n"@),
{
    let title = if messages.len() > 0 {
        messages[0].clone()
    } else {
        String::new()
    };
    (title, text::join(messages, "\n"))
}

/// What is shown of a request to merge at the `tick`-th look at it, and
/// whether the watch is over.
pub fn track_mr_progress(state: MergeState, tick: usize) -> (r: (String, bool))
    ensures
        (r.0@, r.1) == progress_spec(state, tick as nat),
{
    match state {
        MergeState::Pending => {
            let i = tick % 4;
            let frame = if i == 0 {
                "-"
            } else if i == 1 {
                "\\"
            } else if i == 2 {
                "|"
            } else {
                "/"
            };
            (frame.yellow(), false)
        },
        MergeState::Merged => (symbols::CHECK.green(), true),
        MergeState::Failed => (symbols::CROSS.red(), true),
    }
}

/// What the submission of one branch waits for.
#[derive(Clone, Copy, Debug, PartialEq, Eq, Structural)]
pub enum SubmitPhase {
    /// The branch is being compared with the parent it tracks.
    Compare,
    /// The branch is being pushed.
    Push,
    /// The branch is being pushed by force, after the plain push failed.
    ForcePush,
    /// The review service is being asked for a review of the branch.
    Find,
    /// The commit messages of the branch are being read.
    Messages,
    /// The user is editing the title.
    Title,
    /// The user is asked whether to create the review.
    Confirm,
    /// The review is being created.
    Create,
    /// Nothing is left to do.
    Done,
}

/// How the submission of one branch ended.
#[derive(Clone, Copy, Debug, PartialEq, Eq, Structural)]
pub enum SubmitOutcome {
    /// The branch has no review from this submission.
    Nothing,
    /// The review that the service already had is the branch's review.
    Existing,
    /// The review that was created is the branch's review.
    Created,
}

/// What has to be done next for the submission.
#[derive(Debug)]
pub enum SubmitAction {
    /// Run the command on the repository.
    Run(GitCommand),
    /// Ask the review service for a review of the branch.
    FindReview,
    /// Let the user edit the title.
    EditTitle,
    /// Show title and body and ask whether to create the review.
    AskToCreate,
    /// Create the review of the branch against its parent, with the title
    /// and the body.
    CreateReview,
    /// Nothing.
    Finished,
}

/// What happened to the last action.
#[derive(Debug)]
pub enum SubmitEvent {
    /// The command has run: whether it succeeded, and what it printed.
    Ran { ok: bool, output: String },
    /// The service has answered: whether it has a review of the branch.
    Found(bool),
    /// The user has edited the title, or left the prompt.
    Edited(Option<String>),
    /// The user has said yes or no.
    Answered(bool),
    /// The review has been created.
    Created,
}

/// An event as plain values.
pub ghost enum SubmitEventView {
    Ran { ok: bool, output: Seq<char> },
    Found(bool),
    Edited(Option<Seq<char>>),
    Answered(bool),
    Created,
}

/// The submission of one branch.
#[derive(Debug)]
pub struct Submit {
    pub remote: String,
    pub branch: String,
    /// The upstream that the branch tracks, local or remote.
    pub upstream: Option<String>,
    /// The local parent of the branch; empty where it has none.
    pub parent: String,
    pub phase: SubmitPhase,
    pub title: String,
    pub body: String,
    pub outcome: SubmitOutcome,
}

/// A submission as plain values.
pub ghost struct SubmitModel {
    pub remote: Seq<char>,
    pub branch: Seq<char>,
    pub upstream: Option<Seq<char>>,
    pub parent: Seq<char>,
    pub phase: SubmitPhase,
    pub title: Seq<char>,
    pub body: Seq<char>,
    pub outcome: SubmitOutcome,
}

impl SubmitEvent {
    pub open spec fn view(&self) -> SubmitEventView {
        match self {
            SubmitEvent::Ran { ok, output } => SubmitEventView::Ran { ok: *ok, output: output@ },
            SubmitEvent::Found(found) => SubmitEventView::Found(*found),
            SubmitEvent::Edited(title) => SubmitEventView::Edited(
                match title {
                    Some(t) => Some(t@),
                    None => None,
                },
            ),
            SubmitEvent::Answered(yes) => SubmitEventView::Answered(*yes),
            SubmitEvent::Created => SubmitEventView::Created,
        }
    }
}

/// The commit messages that the answer to the question for them holds.
pub open spec fn messages_of(output: Seq<char>) -> Seq<Seq<char>> {
    git::trimmed_lines(text::lines_spec(output))
}

impl SubmitModel {
    /// The submission of `branch` before its first action.  A branch that
    /// tracks nothing has nothing to submit.
    pub open spec fn start(
        remote: Seq<char>,
        branch: Seq<char>,
        upstream: Option<Seq<char>>,
        local: Option<Seq<char>>,
    ) -> SubmitModel {
        SubmitModel {
            remote,
            branch,
            upstream,
            parent: match local {
                Some(p) => p,
                None => Seq::empty(),
            },
            phase: if upstream is Some {
                SubmitPhase::Compare
            } else {
                SubmitPhase::Done
            },
            title: Seq::empty(),
            body: Seq::empty(),
            outcome: SubmitOutcome::Nothing,
        }
    }

    /// While the branch is being compared it tracks a parent.
    pub open spec fn wf(self) -> bool {
        self.phase == SubmitPhase::Compare ==> self.upstream is Some
    }

    /// The command that the submission wants run, in the phases that want
    /// one.
    pub open spec fn command(self) -> Option<git::CommandView> {
        match self.phase {
            SubmitPhase::Compare => Some(
                ("log"@, seq![self.upstream->0 + ".."@ + self.branch, "--format=oneline"@]),
            ),
            SubmitPhase::Push => Some(("push"@, seq![self.remote, self.branch])),
            SubmitPhase::ForcePush => Some(("push"@, seq![self.remote, self.branch, "-f"@])),
            SubmitPhase::Messages => Some(
                (
                    "log"@,
                    seq![self.parent + ".."@ + self.branch, "--format=%B"@, "--reverse"@],
                ),
            ),
            _ => None,
        }
    }

    /// The command that the submission wants run, as a command line.
    pub open spec fn command_line(self) -> Seq<char> {
        match self.command() {
            Some((command, args)) => git::command_line(command, args),
            None => Seq::empty(),
        }
    }

    /// The submission is over, with that outcome.
    pub open spec fn end(self, outcome: SubmitOutcome) -> SubmitModel {
        SubmitModel { phase: SubmitPhase::Done, outcome, ..self }
    }

    /// The submission goes on in that phase.
    pub open spec fn go(self, phase: SubmitPhase) -> SubmitModel {
        SubmitModel { phase, ..self }
    }

    /// Whether the event is a command that failed.
    pub open spec fn failed(event: SubmitEventView) -> bool {
        event is Ran && !event->ok
    }

    /// Whether the submission ends in an error on this event: the
    /// comparison, the push by force or the reading of the messages failed,
    /// or the user left the title.
    pub open spec fn fails_on(self, event: SubmitEventView) -> bool {
        ||| Self::failed(event) && (self.phase == SubmitPhase::Compare || self.phase
            == SubmitPhase::ForcePush || self.phase == SubmitPhase::Messages)
        ||| self.phase == SubmitPhase::Title && event == SubmitEventView::Edited(None)
    }

    /// The submission after an event.  A branch with nothing to submit is
    /// done.  Else the branch is pushed, by force if the plain push fails.
    /// A review that the service already has is kept; else the review is
    /// drafted from the commit messages, the user edits the title, and the
    /// review is created if the user agrees.  An event that does not answer
    /// the action of the phase changes nothing.
    pub open spec fn step(self, event: SubmitEventView) -> SubmitModel {
        match (self.phase, event) {
            (SubmitPhase::Compare, SubmitEventView::Ran { ok, output }) => if !ok {
                self.end(SubmitOutcome::Nothing)
            } else if worth_submitting(self.upstream, output) {
                self.go(SubmitPhase::Push)
            } else {
                self.end(SubmitOutcome::Nothing)
            },
            (SubmitPhase::Push, SubmitEventView::Ran { ok, output }) => if ok {
                self.go(SubmitPhase::Find)
            } else {
                self.go(SubmitPhase::ForcePush)
            },
            (SubmitPhase::ForcePush, SubmitEventView::Ran { ok, output }) => if ok {
                self.go(SubmitPhase::Find)
            } else {
                self.end(SubmitOutcome::Nothing)
            },
            (SubmitPhase::Find, SubmitEventView::Found(found)) => if found {
                self.end(SubmitOutcome::Existing)
            } else {
                self.go(SubmitPhase::Messages)
            },
            (SubmitPhase::Messages, SubmitEventView::Ran { ok, output }) => if ok {
                SubmitModel {
                    phase: SubmitPhase::Title,
                    title: draft_title(messages_of(output)),
                    body: text::join_spec(messages_of(output), "\n"@),
                    ..self
                }
            } else {
                self.end(SubmitOutcome::Nothing)
            },
            (SubmitPhase::Title, SubmitEventView::Edited(title)) => match title {
                Some(t) => SubmitModel { phase: SubmitPhase::Confirm, title: t, ..self },
                None => self.end(SubmitOutcome::Nothing),
            },
            (SubmitPhase::Confirm, SubmitEventView::Answered(yes)) => if yes {
                self.go(SubmitPhase::Create)
            } else {
                self.end(SubmitOutcome::Nothing)
            },
            (SubmitPhase::Create, SubmitEventView::Created) => self.end(SubmitOutcome::Created),
            _ => self,
        }
    }
}

/// A submission never creates a review that the user has not agreed to,
/// and never without a push that succeeded: a step that ends in a created
/// review answers the creation, which only a yes leads to, and the search
/// for a review is reached from a successful push only.
pub proof fn lemma_review_needs_push_and_yes(m: SubmitModel, event: SubmitEventView)
    ensures
        m.step(event).outcome == SubmitOutcome::Created && m.outcome != SubmitOutcome::Created
            ==> m.phase == SubmitPhase::Create && event == SubmitEventView::Created,
        m.step(event).phase == SubmitPhase::Create && m.phase != SubmitPhase::Create ==> m.phase
            == SubmitPhase::Confirm && event == SubmitEventView::Answered(true),
        m.step(event).phase == SubmitPhase::Find && m.phase != SubmitPhase::Find ==> (m.phase
            == SubmitPhase::Push || m.phase == SubmitPhase::ForcePush) && event is Ran
            && event->ok,
{
}

impl Submit {
    pub open spec fn view(&self) -> SubmitModel {
        SubmitModel {
            remote: self.remote@,
            branch: self.branch@,
            upstream: match self.upstream {
                Some(t) => Some(t@),
                None => None,
            },
            parent: self.parent@,
            phase: self.phase,
            title: self.title@,
            body: self.body@,
            outcome: self.outcome,
        }
    }

    /// While the branch is being compared it tracks a parent.
    pub open spec fn wf(&self) -> bool {
        self@.wf()
    }

    /// Whether nothing is left to do.
    pub fn done(&self) -> (r: bool)
        ensures
            r == (self@.phase == SubmitPhase::Done),
    {
        self.phase == SubmitPhase::Done
    }

    /// What has to be done next.
    pub fn action(&self) -> (r: SubmitAction)
        requires
            self.wf(),
        ensures
            r is Run <==> self@.command() is Some,
            r is Run ==> r->Run_0@ == self@.command()->0,
            r is FindReview <==> self@.phase == SubmitPhase::Find,
            r is EditTitle <==> self@.phase == SubmitPhase::Title,
            r is AskToCreate <==> self@.phase == SubmitPhase::Confirm,
            r is CreateReview <==> self@.phase == SubmitPhase::Create,
            r is Finished <==> self@.phase == SubmitPhase::Done,
    {
        match self.phase {
            SubmitPhase::Compare => {
                let upstream = match &self.upstream {
                    Some(t) => t.as_str(),
                    None => "",
                };
                let range = text::concat3(upstream, "..", self.branch.as_str());
                SubmitAction::Run(
                    GitCommand::new("log", git::args2(range.as_str(), "--format=oneline")),
                )
            },
            SubmitPhase::Push => SubmitAction::Run(
                GitCommand::new("push", git::args2(self.remote.as_str(), self.branch.as_str())),
            ),
            SubmitPhase::ForcePush => SubmitAction::Run(
                GitCommand::new(
                    "push",
                    git::args3(self.remote.as_str(), self.branch.as_str(), "-f"),
                ),
            ),
            SubmitPhase::Messages => {
                let range = text::concat3(self.parent.as_str(), "..", self.branch.as_str());
                SubmitAction::Run(
                    GitCommand::new("log", git::args3(range.as_str(), "--format=%B", "--reverse")),
                )
            },
            SubmitPhase::Find => SubmitAction::FindReview,
            SubmitPhase::Title => SubmitAction::EditTitle,
            SubmitPhase::Confirm => SubmitAction::AskToCreate,
            SubmitPhase::Create => SubmitAction::CreateReview,
            SubmitPhase::Done => SubmitAction::Finished,
        }
    }

    /// Takes in what happened to the last action.  A comparison, a push by
    /// force or a reading of the messages that fails ends the submission
    /// with the failed command as the error; leaving the title ends it with
    /// the error of a prompt that was left.
    pub fn record(&mut self, event: &SubmitEvent) -> (r: Result<(), StackError>)
        requires
            old(self).wf(),
        ensures
            final(self).wf(),
            final(self)@ == old(self)@.step(event@),
            r is Err <==> old(self)@.fails_on(event@),
            r is Err && event is Ran ==> r->Err_0 is CommandFailed && r->Err_0->stderr@
                == event->output@ && r->Err_0->command@ == old(self)@.command_line(),
            r is Err && !(event is Ran) ==> r->Err_0 == StackError::AmbiguousSelection,
    {
        match event {
            SubmitEvent::Ran { ok, output } => {
                match self.phase {
                    SubmitPhase::Compare | SubmitPhase::ForcePush | SubmitPhase::Messages => {
                        if !*ok {
                            let command = match self.action() {
                                SubmitAction::Run(c) => c.line(),
                                _ => String::new(),
                            };
                            self.phase = SubmitPhase::Done;
                            self.outcome = SubmitOutcome::Nothing;
                            return Err(
                                StackError::CommandFailed { command, stderr: output.clone() },
                            );
                        }
                        match self.phase {
                            SubmitPhase::Compare => {
                                if needs_submitting(&self.upstream, output.as_str()) {
                                    self.phase = SubmitPhase::Push;
                                } else {
                                    self.phase = SubmitPhase::Done;
                                    self.outcome = SubmitOutcome::Nothing;
                                }
                            },
                            SubmitPhase::ForcePush => {
                                self.phase = SubmitPhase::Find;
                            },
                            _ => {
                                let messages = Git::log_lines(output.as_str());
                                let draft = review_draft(&messages);
                                self.title = draft.0;
                                self.body = draft.1;
                                self.phase = SubmitPhase::Title;
                            },
                        }
                    },
                    SubmitPhase::Push => {
                        if *ok {
                            self.phase = SubmitPhase::Find;
                        } else {
                            self.phase = SubmitPhase::ForcePush;
                        }
                    },
                    _ => {},
                }
                Ok(())
            },
            SubmitEvent::Found(found) => {
                if self.phase == SubmitPhase::Find {
                    if *found {
                        self.phase = SubmitPhase::Done;
                        self.outcome = SubmitOutcome::Existing;
                    } else {
                        self.phase = SubmitPhase::Messages;
                    }
                }
                Ok(())
            },
            SubmitEvent::Edited(title) => {
                if self.phase == SubmitPhase::Title {
                    match title {
                        Some(t) => {
                            self.title = t.clone();
                            self.phase = SubmitPhase::Confirm;
                        },
                        None => {
                            self.phase = SubmitPhase::Done;
                            self.outcome = SubmitOutcome::Nothing;
                            return Err(StackError::AmbiguousSelection);
                        },
                    }
                }
                Ok(())
            },
            SubmitEvent::Answered(yes) => {
                if self.phase == SubmitPhase::Confirm {
                    if *yes {
                        self.phase = SubmitPhase::Create;
                    } else {
                        self.phase = SubmitPhase::Done;
                        self.outcome = SubmitOutcome::Nothing;
                    }
                }
                Ok(())
            },
            SubmitEvent::Created => {
                if self.phase == SubmitPhase::Create {
                    self.phase = SubmitPhase::Done;
                    self.outcome = SubmitOutcome::Created;
                }
                Ok(())
            },
        }
    }
}

/// Prepares the submission of one branch to the remote: the branch with the
/// upstream it tracks and its local parent.
pub fn submit_one(git: &Git, remote: &str, branch: &str) -> (r: Result<Submit, StackError>)
    ensures
        !git.inside ==> r is Err && r->Err_0 == StackError::NotARepository,
        git.inside ==> r is Ok && r->Ok_0.wf() && r->Ok_0@ == SubmitModel::start(
            remote@,
            branch@,
            branches::parent_spec(git.edges(), git.locals(), branch@, BranchType::All),
            branches::parent_spec(git.edges(), git.locals(), branch@, BranchType::Local),
        ),
{
    let upstream = match git.parent_of(branch, BranchType::All) {
        Ok(t) => t,
        Err(e) => {
            return Err(e);
        },
    };
    let parent = match git.parent_of(branch, BranchType::Local) {
        Ok(Some(p)) => p,
        _ => String::new(),
    };
    let phase = if upstream.is_some() {
        SubmitPhase::Compare
    } else {
        SubmitPhase::Done
    };
    Ok(
        Submit {
            remote: String::from_str(remote),
            branch: String::from_str(branch),
            upstream,
            parent,
            phase,
            title: String::new(),
            body: String::new(),
            outcome: SubmitOutcome::Nothing,
        },
    )
}

} // verus!
