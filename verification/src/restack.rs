//! Synchronising a branch and its ancestors, root first.
//!
//! The engine decides; it runs nothing.  [`sync`] works out which branches
//! have to be brought up to date.  The caller then asks the engine for the
//! next command, has it run on the repository and tells the engine how
//! it went, until the engine has no command left.  For every branch the
//! engine has the branch switched to, pulled with rebase semantics and
//! rebased onto its parent.  Where the pull or the rebase fails it has the
//! rebase aborted and reports a conflict with the parent; else it has the
//! branch compared with the parent and reports whether anything is left on
//! it.

use vstd::prelude::*;
use vstd::string::StringExecFns;
use crate::ansi::AnsiWrapper;
use crate::ansi;
use crate::branches;
use crate::branches::BranchType;
use crate::errors::StackError;
use crate::git;
use crate::git::Git;
use crate::git::GitCommand;
use crate::symbols;
use crate::text;

verus! {

/// How the synchronisation of one branch ended.
#[derive(Debug)]
pub enum SyncStatus {
    /// The branch is up to date and has commits of its own.
    Success,
    /// The branch is up to date and has nothing that its parent lacks.
    NoDiff,
    /// The branch could not be rebased onto the named parent.
    ConflictWith(String),
}

/// Two values side by side.
#[derive(Debug)]
pub struct Pair<A, B> {
    pub a: A,
    pub b: B,
}

/// A branch and how its synchronisation ended.
pub type SyncResult = Pair<String, SyncStatus>;

/// A status as plain values.
pub ghost enum Status {
    Success,
    NoDiff,
    ConflictWith(Seq<char>),
}

impl SyncStatus {
    pub open spec fn view(&self) -> Status {
        match self {
            SyncStatus::Success => Status::Success,
            SyncStatus::NoDiff => Status::NoDiff,
            SyncStatus::ConflictWith(parent) => Status::ConflictWith(parent@),
        }
    }
}

impl SyncResult {
    /// The result of `branch`.
    pub fn new(branch: &str, status: SyncStatus) -> (r: Self)
        ensures
            r.a@ == branch@,
            r.b == status,
    {
        Self { a: String::from_str(branch), b: status }
    }

    /// The branch that the result is about.
    pub fn branch(&self) -> (r: &str)
        ensures
            r@ == self.a@,
    {
        self.a.as_str()
    }

    /// How the synchronisation of the branch ended.
    pub fn status(&self) -> (r: &SyncStatus)
        ensures
            r == &self.b,
    {
        &self.b
    }

    /// The error that the result amounts to: a conflict of the branch with
    /// its parent, if the result is one.
    pub fn error(&self) -> (r: Option<StackError>)
        ensures
            r is Some <==> self.b is ConflictWith,
            r is Some ==> r->0 is RebaseConflict && r->0->RebaseConflict_branch@ == self.a@
                && r->0->RebaseConflict_parent@ == self.b->ConflictWith_0@,
    {
        match &self.b {
            SyncStatus::ConflictWith(parent) => Some(
                StackError::RebaseConflict { branch: self.a.clone(), parent: parent.clone() },
            ),
            _ => None,
        }
    }
}

/// The sign that stands for a status in the report: a green check for a
/// branch that is up to date, a red cross for a conflict.
pub fn sync_result_to_status_char(status: &SyncStatus) -> (r: String)
    ensures
        r@ == match status {
            SyncStatus::Success => ansi::wrapped(ansi::GREEN@, symbols::CHECK@),
            SyncStatus::NoDiff => ansi::wrapped(ansi::GREEN@, symbols::CHECK@),
            SyncStatus::ConflictWith(_) => ansi::wrapped(ansi::RED@, symbols::CROSS@),
        },
{
    match status {
        SyncStatus::Success => symbols::CHECK.green(),
        SyncStatus::NoDiff => symbols::CHECK.green(),
        SyncStatus::ConflictWith(_) => symbols::CROSS.red(),
    }
}

/// A branch that is to be synchronised, with the parent it is rebased onto.
#[derive(Debug)]
pub struct SyncTarget {
    pub branch: String,
    pub parent: String,
}

/// What the engine waits for.
#[derive(Clone, Copy, Debug, PartialEq, Eq, Structural)]
pub enum SyncPhase {
    /// The working tree is being switched to the branch.
    Switch,
    /// The branch is being pulled.
    Pull,
    /// The branch is being rebased onto its parent.
    Rebase,
    /// The failed rebase is being aborted.
    Abort,
    /// The branch is being compared with its parent.
    Compare,
    /// Nothing is left to do.
    Done,
}

/// The engine's state as plain values.
pub ghost struct SyncModel {
    /// The branches to synchronise with their parents, root first.
    pub targets: Seq<(Seq<char>, Seq<char>)>,
    /// The results so far, root first.
    pub results: Seq<(Seq<char>, Status)>,
    /// How many branches are dealt with.
    pub at: nat,
    pub phase: SyncPhase,
    /// Whether the pull of the branch at hand went well.
    pub pulled: bool,
}

/// The engine.
#[derive(Debug)]
pub struct Sync {
    pub targets: Vec<SyncTarget>,
    pub results: Vec<SyncResult>,
    pub at: usize,
    pub phase: SyncPhase,
    pub pulled: bool,
}

/// The targets as plain values.
pub open spec fn target_views(v: Seq<SyncTarget>) -> Seq<(Seq<char>, Seq<char>)> {
    Seq::new(v.len(), |i: int| (v[i].branch@, v[i].parent@))
}

/// The results as plain values.
pub open spec fn result_views(v: Seq<SyncResult>) -> Seq<(Seq<char>, Status)> {
    Seq::new(v.len(), |i: int| (v[i].a@, v[i].b@))
}

/// The name is that of a remote-tracking branch: the name of a remote opens
/// it.
pub open spec fn is_remote_name(remotes: Seq<Seq<char>>, branch: Seq<char>) -> bool {
    exists|i: int| 0 <= i < remotes.len() && text::starts_with_spec(branch, #[trigger] remotes[i])
}

/// The branches that a synchronisation of `branch` touches, each with its
/// local parent, root first: `branch` and its ancestors, up to the first one
/// that is remote-tracking or has no local parent, which is not among them.
/// The walk follows at most `fuel` parent links.
pub open spec fn lineage(
    edges: Seq<(Seq<char>, Seq<char>)>,
    locals: Seq<Seq<char>>,
    remotes: Seq<Seq<char>>,
    branch: Seq<char>,
    fuel: nat,
) -> Seq<(Seq<char>, Seq<char>)>
    decreases fuel,
{
    if is_remote_name(remotes, branch) || fuel == 0 {
        Seq::empty()
    } else {
        match branches::parent_spec(edges, locals, branch, BranchType::Local) {
            None => Seq::empty(),
            Some(parent) => lineage(edges, locals, remotes, parent, (fuel - 1) as nat).push(
                (branch, parent),
            ),
        }
    }
}

/// The remote-tracking branch at which the walk up from `branch` ends, if it
/// ends at one.  Such a branch needs no synchronising and counts as done.
pub open spec fn lineage_base(
    edges: Seq<(Seq<char>, Seq<char>)>,
    locals: Seq<Seq<char>>,
    remotes: Seq<Seq<char>>,
    branch: Seq<char>,
    fuel: nat,
) -> Seq<(Seq<char>, Status)>
    decreases fuel,
{
    if is_remote_name(remotes, branch) {
        seq![(branch, Status::Success)]
    } else if fuel == 0 {
        Seq::empty()
    } else {
        match branches::parent_spec(edges, locals, branch, BranchType::Local) {
            None => Seq::empty(),
            Some(parent) => lineage_base(edges, locals, remotes, parent, (fuel - 1) as nat),
        }
    }
}

/// The comparison found commits: the listing has a line that is not empty.
pub open spec fn has_commits(listing: Seq<char>) -> bool {
    exists|i: int| 0 <= i < listing.len() && #[trigger] listing[i] != '\n'
}

impl SyncModel {
    /// The engine before its first command.
    pub open spec fn start(
        targets: Seq<(Seq<char>, Seq<char>)>,
        results: Seq<(Seq<char>, Status)>,
    ) -> SyncModel {
        SyncModel {
            targets,
            results,
            at: 0,
            phase: if targets.len() > 0 {
                SyncPhase::Switch
            } else {
                SyncPhase::Done
            },
            pulled: false,
        }
    }

    /// While anything is left to do there is a branch at hand.
    pub open spec fn wf(self) -> bool {
        self.phase != SyncPhase::Done ==> self.at < self.targets.len()
    }

    /// The command that the engine wants executed next.
    pub open spec fn action(self) -> Option<git::CommandView> {
        let branch = self.targets[self.at as int].0;
        let parent = self.targets[self.at as int].1;
        match self.phase {
            SyncPhase::Switch => Some(git::switch_to(branch)),
            SyncPhase::Pull => Some(("pull"@, seq!["--rebase"@])),
            SyncPhase::Rebase => Some(("rebase"@, Seq::<Seq<char>>::empty())),
            SyncPhase::Abort => Some(("rebase"@, seq!["--abort"@])),
            SyncPhase::Compare => Some(
                ("log"@, seq![parent + ".."@ + branch, "--format=oneline"@]),
            ),
            SyncPhase::Done => None,
        }
    }

    /// The command that the engine wants executed next, as a command line.
    pub open spec fn action_line(self) -> Seq<char> {
        match self.action() {
            Some((command, args)) => git::command_line(command, args),
            None => Seq::empty(),
        }
    }

    /// The branch at hand is dealt with and ended in `status`.
    pub open spec fn settle(self, status: Status) -> SyncModel {
        SyncModel {
            results: self.results.push((self.targets[self.at as int].0, status)),
            at: self.at + 1,
            phase: if self.at + 1 < self.targets.len() {
                SyncPhase::Switch
            } else {
                SyncPhase::Done
            },
            pulled: false,
            ..self
        }
    }

    /// The engine gives up: a command failed that has to succeed.
    pub open spec fn give_up(self) -> SyncModel {
        SyncModel { phase: SyncPhase::Done, ..self }
    }

    /// Whether the engine gives up on this outcome: the switch, the abort or
    /// the comparison failed.
    pub open spec fn fails_on(self, ok: bool) -> bool {
        !ok && (self.phase == SyncPhase::Switch || self.phase == SyncPhase::Abort || self.phase
            == SyncPhase::Compare)
    }

    /// The engine after it has learnt how its command went: whether it
    /// succeeded, and what it printed.
    pub open spec fn step(self, ok: bool, output: Seq<char>) -> SyncModel {
        match self.phase {
            SyncPhase::Done => self,
            SyncPhase::Switch => if ok {
                SyncModel { phase: SyncPhase::Pull, ..self }
            } else {
                self.give_up()
            },
            SyncPhase::Pull => SyncModel { phase: SyncPhase::Rebase, pulled: ok, ..self },
            SyncPhase::Rebase => if self.pulled && ok {
                SyncModel { phase: SyncPhase::Compare, ..self }
            } else {
                SyncModel { phase: SyncPhase::Abort, ..self }
            },
            SyncPhase::Abort => if ok {
                self.settle(Status::ConflictWith(self.targets[self.at as int].1))
            } else {
                self.give_up()
            },
            SyncPhase::Compare => if ok {
                self.settle(
                    if has_commits(output) {
                        Status::Success
                    } else {
                        Status::NoDiff
                    },
                )
            } else {
                self.give_up()
            },
        }
    }

    /// The engine after a run of commands that all succeeded, each with the
    /// output given for it.
    pub open spec fn run_clean(self, outputs: Seq<Seq<char>>) -> SyncModel
        decreases outputs.len(),
    {
        if outputs.len() == 0 {
            self
        } else {
            self.run_clean(outputs.drop_last()).step(true, outputs.last())
        }
    }

    /// No result so far is a conflict.
    pub open spec fn conflict_free(self) -> bool {
        forall|i: int| 0 <= i < self.results.len() ==> !((#[trigger] self.results[i]).1 is ConflictWith)
    }
}

/// A conflict is only ever reported once the rebase has been aborted: a step
/// that adds a conflict to the results is the answer to a successful
/// `rebase --abort`, so the working tree is never left in the middle of a
/// rebase.
pub proof fn lemma_conflict_follows_abort(m: SyncModel, ok: bool, output: Seq<char>)
    requires
        m.wf(),
        m.step(ok, output).results.len() > m.results.len(),
        m.step(ok, output).results.last().1 is ConflictWith,
    ensures
        ok,
        m.action() == Some(("rebase"@, seq!["--abort"@])),
        m.step(ok, output).results == m.results.push(
            (m.targets[m.at as int].0, Status::ConflictWith(m.targets[m.at as int].1)),
        ),
{
}

/// What holds of an engine that set out for `targets` and all of whose
/// commands have succeeded: it is in no phase that follows a failure, no
/// result is a conflict, and there is one result for each branch that is
/// dealt with, after those it started with.
pub open spec fn clean_so_far(
    m: SyncModel,
    targets: Seq<(Seq<char>, Seq<char>)>,
    started_with: nat,
) -> bool {
    &&& m.targets == targets
    &&& m.wf()
    &&& m.conflict_free()
    &&& m.phase != SyncPhase::Abort
    &&& m.phase == SyncPhase::Rebase ==> m.pulled
    &&& m.results.len() == started_with + m.at
    &&& m.phase == SyncPhase::Done ==> m.at == m.targets.len()
    &&& m.at <= m.targets.len()
}

/// On a stack that is up to date, where every command succeeds, the
/// synchronisation never reports a conflict, and once it is done it has
/// reported one result, `Success` or `NoDiff`, for every branch it had to
/// synchronise.
pub proof fn lemma_clean_run_has_no_conflict(
    targets: Seq<(Seq<char>, Seq<char>)>,
    base: Seq<(Seq<char>, Status)>,
    outputs: Seq<Seq<char>>,
)
    requires
        forall|i: int| 0 <= i < base.len() ==> !((#[trigger] base[i]).1 is ConflictWith),
    ensures
        SyncModel::start(targets, base).run_clean(outputs).conflict_free(),
        SyncModel::start(targets, base).run_clean(outputs).phase == SyncPhase::Done
            ==> SyncModel::start(targets, base).run_clean(outputs).results.len() == base.len()
            + targets.len(),
        clean_so_far(SyncModel::start(targets, base).run_clean(outputs), targets, base.len()),
    decreases outputs.len(),
{
    let start = SyncModel::start(targets, base);
    if outputs.len() > 0 {
        lemma_clean_run_has_no_conflict(targets, base, outputs.drop_last());
        let before = start.run_clean(outputs.drop_last());
        let after = before.step(true, outputs.last());
        assert(clean_so_far(before, targets, base.len()));
        assert(after.conflict_free()) by {
            assert forall|i: int| 0 <= i < after.results.len() implies !((
            #[trigger] after.results[i]).1 is ConflictWith) by {
                if i < before.results.len() {
                    assert(after.results[i] == before.results[i]);
                }
            }
        }
        assert(start.run_clean(outputs) == after);
        assert(clean_so_far(after, targets, base.len()));
    } else {
        assert(start.run_clean(outputs) == start);
        assert(clean_so_far(start, targets, base.len()));
    }
}

/// Whether the name of a remote opens `branch`.
pub fn remote_tracking(remotes: &Vec<String>, branch: &str) -> (r: bool)
    ensures
        r == is_remote_name(text::views(remotes@), branch@),
{
    let mut i: usize = 0;
    while i < remotes.len()
        invariant
            i <= remotes.len(),
            forall|j: int|
                0 <= j < i ==> !text::starts_with_spec(branch@, #[trigger] text::views(remotes@)[j]),
        decreases remotes.len() - i,
    {
        if text::starts_with(branch, remotes[i].as_str()) {
            assert(text::starts_with_spec(branch@, text::views(remotes@)[i as int]));
            return true;
        }
        i += 1;
    }
    false
}

/// Whether a listing of commits names any commit.
pub fn any_commit(listing: &str) -> (r: bool)
    ensures
        r == has_commits(listing@),
{
    let v = text::chars_of(listing);
    let mut i: usize = 0;
    while i < v.len()
        invariant
            i <= v.len(),
            v@ == listing@,
            forall|j: int| 0 <= j < i ==> v@[j] == '\n',
        decreases v.len() - i,
    {
        if v[i] != '\n' {
            return true;
        }
        i += 1;
    }
    false
}

fn collect(
    git: &Git,
    branch: &str,
    fuel: usize,
    targets: &mut Vec<SyncTarget>,
    results: &mut Vec<SyncResult>,
)
    requires
        git.inside,
    ensures
        target_views(final(targets)@) == target_views(old(targets)@) + lineage(
            git.edges(),
            git.locals(),
            text::views(git.remote_names@),
            branch@,
            fuel as nat,
        ),
        result_views(final(results)@) == result_views(old(results)@) + lineage_base(
            git.edges(),
            git.locals(),
            text::views(git.remote_names@),
            branch@,
            fuel as nat,
        ),
    decreases fuel,
{
    let ghost t0 = target_views(targets@);
    let ghost r0 = result_views(results@);
    if remote_tracking(&git.remote_names, branch) {
        results.push(SyncResult::new(branch, SyncStatus::Success));
        assert(result_views(results@) =~= r0 + seq![(branch@, Status::Success)]);
        assert(target_views(targets@) =~= t0 + Seq::empty());
        return ;
    }
    if fuel == 0 {
        assert(result_views(results@) =~= r0 + Seq::empty());
        assert(target_views(targets@) =~= t0 + Seq::empty());
        return ;
    }
    match git.parent_of(branch, BranchType::Local) {
        Ok(Some(parent)) => {
            collect(git, parent.as_str(), fuel - 1, targets, results);
            let ghost above = target_views(targets@);
            targets.push(SyncTarget { branch: String::from_str(branch), parent });
            assert(target_views(targets@) =~= above.push((branch@, parent@)));
            assert(target_views(targets@) =~= t0 + lineage(
                git.edges(),
                git.locals(),
                text::views(git.remote_names@),
                branch@,
                fuel as nat,
            ));
        },
        _ => {
            assert(result_views(results@) =~= r0 + Seq::empty());
            assert(target_views(targets@) =~= t0 + Seq::empty());
        },
    }
}

/// Prepares the synchronisation of `branch` and of every ancestor of it.  A
/// remote-tracking branch is up to date as it is and counts as done; a
/// branch without a local parent is the base of the stack and is left alone.
pub fn sync(git: &Git, branch: &str) -> (r: Result<Sync, StackError>)
    ensures
        !git.inside ==> r == Err::<Sync, StackError>(StackError::NotARepository),
        git.inside ==> r is Ok && r->Ok_0.wf() && r->Ok_0@ == SyncModel::start(
            lineage(
                git.edges(),
                git.locals(),
                text::views(git.remote_names@),
                branch@,
                git.tracking@.len(),
            ),
            lineage_base(
                git.edges(),
                git.locals(),
                text::views(git.remote_names@),
                branch@,
                git.tracking@.len(),
            ),
        ),
{
    if !git.inside {
        return Err(StackError::NotARepository);
    }
    let mut targets: Vec<SyncTarget> = Vec::new();
    let mut results: Vec<SyncResult> = Vec::new();
    assert(target_views(targets@) =~= Seq::empty());
    assert(result_views(results@) =~= Seq::empty());
    collect(git, branch, git.tracking.len(), &mut targets, &mut results);
    let phase = if targets.len() > 0 {
        SyncPhase::Switch
    } else {
        SyncPhase::Done
    };
    let engine = Sync { targets, results, at: 0, phase, pulled: false };
    assert(engine@.targets =~= lineage(
        git.edges(),
        git.locals(),
        text::views(git.remote_names@),
        branch@,
        git.tracking@.len(),
    ));
    assert(engine@.results =~= lineage_base(
        git.edges(),
        git.locals(),
        text::views(git.remote_names@),
        branch@,
        git.tracking@.len(),
    ));
    Ok(engine)
}

impl Sync {
    pub open spec fn view(&self) -> SyncModel {
        SyncModel {
            targets: target_views(self.targets@),
            results: result_views(self.results@),
            at: self.at as nat,
            phase: self.phase,
            pulled: self.pulled,
        }
    }

    /// While anything is left to do there is a branch at hand.
    pub open spec fn wf(&self) -> bool {
        self@.wf()
    }

    /// Whether nothing is left to do.
    pub fn done(&self) -> (r: bool)
        ensures
            r == (self@.phase == SyncPhase::Done),
    {
        self.phase == SyncPhase::Done
    }

    /// The command that has to be run on the repository next, or nothing
    /// when the synchronisation is over.
    pub fn action(&self) -> (r: Option<GitCommand>)
        requires
            self.wf(),
        ensures
            r is Some <==> self@.action() is Some,
            r is Some ==> r->0@ == self@.action()->0,
    {
        if self.phase == SyncPhase::Done {
            return None;
        }
        let target = &self.targets[self.at];
        let command = match self.phase {
            SyncPhase::Switch => {
                let args = git::owned_args(&vec![target.branch.as_str()]);
                assert(text::views(args@) =~= seq![target.branch@]);
                GitCommand::new("switch", args)
            },
            SyncPhase::Pull => {
                let args = git::owned_args(&vec!["--rebase"]);
                assert(text::views(args@) =~= seq!["--rebase"@]);
                GitCommand::new("pull", args)
            },
            SyncPhase::Rebase => {
                let args: Vec<String> = Vec::new();
                assert(text::views(args@) =~= Seq::<Seq<char>>::empty());
                GitCommand::new("rebase", args)
            },
            SyncPhase::Abort => {
                let args = git::owned_args(&vec!["--abort"]);
                assert(text::views(args@) =~= seq!["--abort"@]);
                GitCommand::new("rebase", args)
            },
            _ => {
                let range = text::concat3(target.parent.as_str(), "..", target.branch.as_str());
                let args = git::owned_args(&vec![range.as_str(), "--format=oneline"]);
                assert(text::views(args@) =~= seq![
                    target.parent@ + ".."@ + target.branch@,
                    "--format=oneline"@,
                ]);
                GitCommand::new("log", args)
            },
        };
        Some(command)
    }

    /// Takes in how the command went that [`Sync::action`] handed out:
    /// whether it succeeded, and what it printed.  A failed pull or rebase
    /// leads to the abort of the rebase and, once that is done, to a
    /// conflict with the parent.  A switch, an abort or a comparison that
    /// fails ends the synchronisation with the failed command as the error.
    pub fn record(&mut self, ok: bool, output: &str) -> (r: Result<(), StackError>)
        requires
            old(self).wf(),
        ensures
            final(self).wf(),
            final(self)@ == old(self)@.step(ok, output@),
            r is Err <==> old(self)@.fails_on(ok),
            r is Err ==> r->Err_0 is CommandFailed && r->Err_0->stderr@ == output@
                && r->Err_0->command@ == old(self)@.action_line(),
    {
        let ghost before = self@;
        match self.phase {
            SyncPhase::Done => Ok(()),
            SyncPhase::Pull => {
                self.pulled = ok;
                self.phase = SyncPhase::Rebase;
                Ok(())
            },
            SyncPhase::Rebase => {
                if self.pulled && ok {
                    self.phase = SyncPhase::Compare;
                } else {
                    self.phase = SyncPhase::Abort;
                }
                Ok(())
            },
            _ => {
                if !ok {
                    let command = self.action().unwrap().line();
                    self.phase = SyncPhase::Done;
                    return Err(
                        StackError::CommandFailed { command, stderr: String::from_str(output) },
                    );
                }
                if self.phase == SyncPhase::Switch {
                    self.phase = SyncPhase::Pull;
                    return Ok(());
                }
                let status = if self.phase == SyncPhase::Abort {
                    SyncStatus::ConflictWith(self.targets[self.at].parent.clone())
                } else if any_commit(output) {
                    SyncStatus::Success
                } else {
                    SyncStatus::NoDiff
                };
                let result = SyncResult::new(self.targets[self.at].branch.as_str(), status);
                let count = self.targets.len();
                self.results.push(result);
                self.at = self.at + 1;
                self.pulled = false;
                self.phase = if self.at < count {
                    SyncPhase::Switch
                } else {
                    SyncPhase::Done
                };
                assert(self@.results =~= before.results.push(
                    (before.targets[before.at as int].0, status@),
                ));
                Ok(())
            },
        }
    }

    /// The results, one for each branch that was dealt with, root first.
    pub fn results(self) -> (r: Vec<SyncResult>)
        ensures
            result_views(r@) == self@.results,
    {
        self.results
    }
}

/// What is left to do once a synchronisation has reported.
#[derive(Debug)]
pub enum FollowUp {
    /// `branch` could not be rebased onto `parent`: the user has to resolve
    /// the conflict.
    FixConflict { parent: String, branch: String },
    /// `branch` has nothing that its parent lacks: it can be deleted.
    OfferDelete { branch: String },
}

/// A follow-up as plain values.
pub ghost enum FollowUpView {
    FixConflict { parent: Seq<char>, branch: Seq<char> },
    OfferDelete { branch: Seq<char> },
}

impl FollowUp {
    pub open spec fn view(&self) -> FollowUpView {
        match self {
            FollowUp::FixConflict { parent, branch } => FollowUpView::FixConflict {
                parent: parent@,
                branch: branch@,
            },
            FollowUp::OfferDelete { branch } => FollowUpView::OfferDelete { branch: branch@ },
        }
    }
}

/// The follow-ups as plain values.
pub open spec fn follow_up_views(v: Seq<FollowUp>) -> Seq<FollowUpView> {
    Seq::new(v.len(), |i: int| v[i]@)
}

/// The conflicts among the first `n` results, in their order.
pub open spec fn conflicts_upto(results: Seq<(Seq<char>, Status)>, n: int) -> Seq<FollowUpView>
    decreases n,
{
    if n <= 0 {
        Seq::empty()
    } else {
        let init = conflicts_upto(results, n - 1);
        match results[n - 1].1 {
            Status::ConflictWith(parent) => init.push(
                FollowUpView::FixConflict { parent, branch: results[n - 1].0 },
            ),
            _ => init,
        }
    }
}

/// The branches without a difference among the first `n` results, in their
/// order.
pub open spec fn merged_upto(results: Seq<(Seq<char>, Status)>, n: int) -> Seq<FollowUpView>
    decreases n,
{
    if n <= 0 {
        Seq::empty()
    } else {
        let init = merged_upto(results, n - 1);
        match results[n - 1].1 {
            Status::NoDiff => init.push(FollowUpView::OfferDelete { branch: results[n - 1].0 }),
            _ => init,
        }
    }
}

/// What follows a synchronisation: first every conflict is put before the
/// user, root first; then every branch that has nothing of its own left is
/// offered for deletion, root first.
pub fn restack(results: &Vec<SyncResult>) -> (r: Vec<FollowUp>)
    ensures
        follow_up_views(r@) == conflicts_upto(result_views(results@), results@.len() as int)
            + merged_upto(result_views(results@), results@.len() as int),
{
    let ghost all = result_views(results@);
    let mut out: Vec<FollowUp> = Vec::new();
    let mut i: usize = 0;
    assert(follow_up_views(out@) =~= Seq::empty());
    while i < results.len()
        invariant
            i <= results.len(),
            all == result_views(results@),
            follow_up_views(out@) == conflicts_upto(all, i as int),
        decreases results.len() - i,
    {
        let ghost before = follow_up_views(out@);
        match results[i].status() {
            SyncStatus::ConflictWith(parent) => {
                let next = FollowUp::FixConflict {
                    parent: parent.clone(),
                    branch: String::from_str(results[i].branch()),
                };
                out.push(next);
                assert(follow_up_views(out@) =~= before.push(
                    FollowUpView::FixConflict { parent: parent@, branch: all[i as int].0 },
                ));
            },
            _ => {},
        }
        i += 1;
    }
    let ghost first = follow_up_views(out@);
    let mut i: usize = 0;
    assert(follow_up_views(out@) =~= first + Seq::empty());
    while i < results.len()
        invariant
            i <= results.len(),
            all == result_views(results@),
            follow_up_views(out@) == first + merged_upto(all, i as int),
        decreases results.len() - i,
    {
        let ghost before = follow_up_views(out@);
        match results[i].status() {
            SyncStatus::NoDiff => {
                out.push(FollowUp::OfferDelete { branch: String::from_str(results[i].branch()) });
                assert(follow_up_views(out@) =~= before.push(
                    FollowUpView::OfferDelete { branch: all[i as int].0 },
                ));
                assert(follow_up_views(out@) =~= first + merged_upto(all, i + 1));
            },
            _ => {},
        }
        i += 1;
    }
    out
}

/// The commands that put a conflict before the user: the working tree is
/// switched to `branch`, and the pull with rebase semantics is handed to the
/// user, in place of the running program.
pub fn ask_to_fix_conflicts(git: &Git, branch: &str) -> (r: Result<
    (GitCommand, GitCommand),
    StackError,
>)
    ensures
        !git.inside ==> r == Err::<(GitCommand, GitCommand), StackError>(
            StackError::NotARepository,
        ),
        git.inside ==> r is Ok && r->Ok_0.0@ == git::switch_to(branch@) && r->Ok_0.1@ == (
            "pull"@,
            seq!["--rebase"@],
        ),
{
    if !git.inside {
        return Err(StackError::NotARepository);
    }
    let switch = GitCommand::new("switch", git::args1(branch));
    let pull = git::ExecGit::new().pull(git::args1("--rebase"));
    Ok((switch, pull))
}

/// Where the working tree goes when a branch is deleted: to its only child
/// if it has exactly one, and else to its parent.
pub open spec fn landing(children: Seq<Seq<char>>, parent: Seq<char>) -> Seq<char> {
    if children.len() == 1 {
        children[0]
    } else {
        parent
    }
}

/// The commands that delete a branch with nothing of its own: its children
/// are made to track its parent, the working tree goes to the only child or
/// to the parent, and the branch is deleted.  Nothing is done to a branch
/// without a local parent.
pub open spec fn delete_plan(
    edges: Seq<(Seq<char>, Seq<char>)>,
    locals: Seq<Seq<char>>,
    branch: Seq<char>,
) -> Seq<git::CommandView> {
    match branches::parent_spec(edges, locals, branch, BranchType::Local) {
        None => Seq::empty(),
        Some(parent) => {
            let children = branches::children_spec(edges, branch);
            git::reparent(children, parent, children.len() as int) + seq![
                git::switch_to(landing(children, parent)),
                ("branch"@, seq!["-d"@, branch]),
            ]
        },
    }
}

/// The commands that delete `branch` once the user has agreed to it.
pub fn ask_to_delete(git: &Git, branch: &str) -> (r: Result<Vec<GitCommand>, StackError>)
    ensures
        !git.inside ==> r == Err::<Vec<GitCommand>, StackError>(StackError::NotARepository),
        git.inside ==> r is Ok && git::commands(r->Ok_0@) == delete_plan(
            git.edges(),
            git.locals(),
            branch@,
        ),
{
    if !git.inside {
        return Err(StackError::NotARepository);
    }
    let mut out: Vec<GitCommand> = Vec::new();
    assert(git::commands(out@) =~= Seq::empty());
    match git.parent_of(branch, BranchType::Local) {
        Ok(Some(parent)) => {
            let children = branches::find_children(&git.tracking, branch);
            git::reparent_onto(&children, parent.as_str(), &mut out);
            if children.len() == 1 {
                git::push_command(&mut out, "switch", git::args1(children[0].as_str()));
            } else {
                git::push_command(&mut out, "switch", git::args1(parent.as_str()));
            }
            git::push_command(&mut out, "branch", git::args2("-d", branch));
            assert(git::commands(out@) =~= delete_plan(git.edges(), git.locals(), branch@));
        },
        _ => {},
    }
    Ok(out)
}

} // verus!
