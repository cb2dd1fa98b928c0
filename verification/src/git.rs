//! The repository as the stack operations see it.
//!
//! Nothing here runs a command.  A [`Git`] holds what the repository
//! answered when it was asked about itself, and answers questions
//! from that; an operation that changes the repository is handed out as the
//! [`GitCommand`] that the caller has to run.  Every operation first makes
//! sure that the working directory is inside a repository.

use vstd::prelude::*;
use vstd::string::StringExecFns;
use crate::branches;
use crate::branches::Tracking;
use crate::errors::StackError;
use crate::text;

verus! {

/// One call of the repository's command line: a subcommand and its
/// arguments.
#[derive(Debug)]
pub struct GitCommand {
    pub command: String,
    pub args: Vec<String>,
}

/// What a command gave back when it was run.
#[derive(Debug)]
pub struct CommandOutput {
    pub success: bool,
    pub stdout: String,
    pub stderr: String,
}

/// A command as plain values: the subcommand and the arguments.
pub type CommandView = (Seq<char>, Seq<Seq<char>>);

/// The commands of a plan as plain values.
pub open spec fn commands(v: Seq<GitCommand>) -> Seq<CommandView> {
    Seq::new(v.len(), |i: int| (v[i].command@, text::views(v[i].args@)))
}

/// The lines that are left of a text when each is trimmed and the empty ones
/// are dropped.
pub open spec fn clean_lines(lines: Seq<Seq<char>>) -> Seq<Seq<char>>
    decreases lines.len(),
{
    if lines.len() == 0 {
        Seq::empty()
    } else {
        let init = clean_lines(lines.drop_last());
        let line = text::trim_spec(lines.last());
        if line.len() == 0 {
            init
        } else {
            init.push(line)
        }
    }
}

/// Every line without the white space at its ends.
pub open spec fn trimmed_lines(lines: Seq<Seq<char>>) -> Seq<Seq<char>> {
    Seq::new(lines.len(), |i: int| text::trim_spec(lines[i]))
}

/// What a successful command is taken to have said: its standard output and
/// its standard error, one after the other, as trimmed lines without the
/// blank ones.
pub open spec fn combined_output(stdout: Seq<char>, stderr: Seq<char>) -> Seq<char> {
    text::join_spec(clean_lines(text::lines_spec(stdout + "\n"@ + stderr)), "\n"@)
}

/// The command line that a failure is reported with.
pub open spec fn command_line(command: Seq<char>, args: Seq<Seq<char>>) -> Seq<char> {
    "git "@ + command + " "@ + text::join_spec(args, " "@)
}

/// The command that switches the working tree to `branch`.
pub open spec fn switch_to(branch: Seq<char>) -> CommandView {
    ("switch"@, seq![branch])
}

/// The commands that rebase `branch` and then, level by level, every branch
/// that tracks it, for at most `fuel` levels below it.
pub open spec fn rebase_plan(
    edges: Seq<(Seq<char>, Seq<char>)>,
    branch: Seq<char>,
    args: Seq<Seq<char>>,
    fuel: nat,
) -> Seq<CommandView>
    decreases fuel, 0nat,
{
    seq![switch_to(branch), ("rebase"@, args)] + if fuel == 0 {
        Seq::empty()
    } else {
        rebase_plans(edges, branches::children_spec(edges, branch), args, (fuel - 1) as nat)
    }
}

/// The rebase plans of several branches, one after the other.
pub open spec fn rebase_plans(
    edges: Seq<(Seq<char>, Seq<char>)>,
    names: Seq<Seq<char>>,
    args: Seq<Seq<char>>,
    fuel: nat,
) -> Seq<CommandView>
    decreases fuel, names.len(),
{
    if names.len() == 0 {
        Seq::empty()
    } else {
        rebase_plans(edges, names.drop_last(), args, fuel) + rebase_plan(
            edges,
            names.last(),
            args,
            fuel,
        )
    }
}

/// The commands that pull `branch` and then every branch that tracks it, for
/// at most `fuel` levels below it, and come back to `branch` at the end.
pub open spec fn pull_plan(edges: Seq<(Seq<char>, Seq<char>)>, branch: Seq<char>, fuel: nat) -> Seq<
    CommandView,
>
    decreases fuel, 0nat,
{
    seq![switch_to(branch), ("pull"@, seq!["--rebase"@])] + (if fuel == 0 {
        Seq::empty()
    } else {
        pull_plans(edges, branches::children_spec(edges, branch), (fuel - 1) as nat)
    }) + seq![switch_to(branch)]
}

/// The pull plans of several branches, one after the other.
pub open spec fn pull_plans(
    edges: Seq<(Seq<char>, Seq<char>)>,
    names: Seq<Seq<char>>,
    fuel: nat,
) -> Seq<CommandView>
    decreases fuel, names.len(),
{
    if names.len() == 0 {
        Seq::empty()
    } else {
        pull_plans(edges, names.drop_last(), fuel) + pull_plan(edges, names.last(), fuel)
    }
}

/// Owned copies of the arguments.
pub fn owned_args(args: &Vec<&str>) -> (r: Vec<String>)
    ensures
        text::views(r@) == text::slice_views(args@),
{
    let mut out: Vec<String> = Vec::new();
    let mut i: usize = 0;
    while i < args.len()
        invariant
            i <= args.len(),
            text::views(out@) =~= text::slice_views(args@).take(i as int),
        decreases args.len() - i,
    {
        let ghost before = text::views(out@);
        out.push(String::from_str(args[i]));
        assert(text::views(out@) =~= before.push(args@[i as int]@));
        i += 1;
    }
    out
}

/// No arguments.
pub fn args0() -> (r: Vec<String>)
    ensures
        text::views(r@) == Seq::<Seq<char>>::empty(),
{
    let out: Vec<String> = Vec::new();
    assert(text::views(out@) =~= Seq::<Seq<char>>::empty());
    out
}

/// One argument.
pub fn args1(a: &str) -> (r: Vec<String>)
    ensures
        text::views(r@) == seq![a@],
{
    let out = owned_args(&vec![a]);
    assert(text::views(out@) =~= seq![a@]);
    out
}

/// Two arguments.
pub fn args2(a: &str, b: &str) -> (r: Vec<String>)
    ensures
        text::views(r@) == seq![a@, b@],
{
    let out = owned_args(&vec![a, b]);
    assert(text::views(out@) =~= seq![a@, b@]);
    out
}

/// Three arguments.
pub fn args3(a: &str, b: &str, c: &str) -> (r: Vec<String>)
    ensures
        text::views(r@) == seq![a@, b@, c@],
{
    let out = owned_args(&vec![a, b, c]);
    assert(text::views(out@) =~= seq![a@, b@, c@]);
    out
}

/// Four arguments.
pub fn args4(a: &str, b: &str, c: &str, d: &str) -> (r: Vec<String>)
    ensures
        text::views(r@) == seq![a@, b@, c@, d@],
{
    let out = owned_args(&vec![a, b, c, d]);
    assert(text::views(out@) =~= seq![a@, b@, c@, d@]);
    out
}

/// Adds a command to a plan.
pub fn push_command(out: &mut Vec<GitCommand>, command: &str, args: Vec<String>)
    ensures
        commands(final(out)@) == commands(old(out)@).push((command@, text::views(args@))),
{
    let ghost before = commands(out@);
    out.push(GitCommand::new(command, args));
    assert(commands(out@) =~= before.push((command@, text::views(args@))));
}

/// A copy of the strings.
pub fn copy_strings(v: &Vec<String>) -> (r: Vec<String>)
    ensures
        text::views(r@) == text::views(v@),
{
    let mut out: Vec<String> = Vec::new();
    let mut i: usize = 0;
    while i < v.len()
        invariant
            i <= v.len(),
            text::views(out@) =~= text::views(v@).take(i as int),
        decreases v.len() - i,
    {
        let ghost before = text::views(out@);
        out.push(v[i].clone());
        assert(text::views(out@) =~= before.push(v@[i as int]@));
        i += 1;
    }
    out
}

impl GitCommand {
    pub open spec fn view(&self) -> CommandView {
        (self.command@, text::views(self.args@))
    }

    /// The command with that subcommand and those arguments.
    pub fn new(command: &str, args: Vec<String>) -> (r: GitCommand)
        ensures
            r@ == (command@, text::views(args@)),
    {
        GitCommand { command: String::from_str(command), args }
    }

    /// The command as the user would have typed it.
    pub fn line(&self) -> (r: String)
        ensures
            r@ == command_line(self.command@, text::views(self.args@)),
    {
        let joined = text::join(&self.args, " ");
        String::from_str("git ").concat(self.command.as_str()).concat(" ").concat(joined.as_str())
    }

    /// What the answer to this command means: the combined output of
    /// a success, and for a failure the error that names the command and
    /// carries its standard error.
    pub fn outcome(&self, output: &CommandOutput) -> (r: Result<String, StackError>)
        ensures
            output.success ==> r is Ok && r->Ok_0@ == combined_output(
                output.stdout@,
                output.stderr@,
            ),
            !output.success ==> r is Err && r->Err_0 is CommandFailed,
            !output.success ==> r->Err_0->command@ == command_line(
                self.command@,
                text::views(self.args@),
            ),
            !output.success ==> r->Err_0->stderr@ == output.stderr@,
    {
        if output.success {
            Ok(combine_output(output.stdout.as_str(), output.stderr.as_str()))
        } else {
            Err(StackError::CommandFailed { command: self.line(), stderr: output.stderr.clone() })
        }
    }
}

/// The text of a successful command: standard output, then standard error,
/// every line trimmed and the blank lines left out.
pub fn combine_output(stdout: &str, stderr: &str) -> (r: String)
    ensures
        r@ == combined_output(stdout@, stderr@),
{
    let whole = text::concat3(stdout, "\n", stderr);
    let lines = text::lines(whole.as_str());
    let mut kept: Vec<String> = Vec::new();
    let mut i: usize = 0;
    assert(text::views(lines@).take(0) =~= Seq::empty());
    while i < lines.len()
        invariant
            i <= lines.len(),
            text::views(kept@) =~= clean_lines(text::views(lines@).take(i as int)),
        decreases lines.len() - i,
    {
        let ghost seen = text::views(lines@).take(i + 1);
        assert(seen.drop_last() =~= text::views(lines@).take(i as int));
        assert(seen.last() == lines@[i as int]@);
        let ghost before = text::views(kept@);
        let line = text::trim(lines[i].as_str());
        if line.as_str().unicode_len() > 0 {
            kept.push(line);
            assert(text::views(kept@) =~= before.push(text::trim_spec(seen.last())));
        }
        i += 1;
    }
    assert(text::views(lines@).take(lines.len() as int) =~= text::views(lines@));
    text::join(&kept, "\n")
}

/// The five questions whose answers make up what is known of a repository.
pub open spec fn probe_views() -> Seq<CommandView> {
    seq![
        ("rev-parse"@, seq!["--is-inside-work-tree"@]),
        ("rev-parse"@, seq!["--abbrev-ref"@, "HEAD"@]),
        ("for-each-ref"@, seq!["--format=%(refname:short)"@, "refs/heads/"@]),
        ("branch"@, seq!["-vv"@]),
        ("remote"@, Seq::<Seq<char>>::empty()),
    ]
}

/// What a command said when it succeeded.
pub open spec fn said(output: CommandOutput) -> Seq<char> {
    combined_output(output.stdout@, output.stderr@)
}

/// The probe for the work tree succeeded and answered `true`.
pub open spec fn in_work_tree(output: CommandOutput) -> bool {
    output.success && said(output) == "true"@
}

/// The place of the first answer at or after `from` that is a failure, or
/// the number of answers.
pub open spec fn first_failed(answers: Seq<CommandOutput>, from: int) -> int
    decreases answers.len() - from,
{
    if from < 0 || from >= answers.len() {
        answers.len() as int
    } else if !answers[from].success {
        from
    } else {
        first_failed(answers, from + 1)
    }
}

/// What is known of the repository.
#[derive(Debug)]
pub struct Git {
    /// Whether the working directory is inside a work tree.
    pub inside: bool,
    /// The branch that is checked out.
    pub head: String,
    /// The local branches.
    pub heads: Vec<String>,
    /// Which branch tracks which upstream.
    pub tracking: Vec<Tracking>,
    /// The names of the remotes.
    pub remote_names: Vec<String>,
}

impl Git {
    /// A handle that knows of no repository: every operation on it reports
    /// that the working directory is not inside one.
    pub fn new() -> (r: Git)
        ensures
            !r.inside,
            r.head@.len() == 0,
            r.heads@.len() == 0,
            r.tracking@.len() == 0,
            r.remote_names@.len() == 0,
    {
        Git {
            inside: false,
            head: String::new(),
            heads: Vec::new(),
            tracking: Vec::new(),
            remote_names: Vec::new(),
        }
    }

    /// The questions whose answers make up a [`Git`], in the order in which
    /// [`Git::open`] takes the answers: whether this is a work tree, the
    /// current branch, the local branches, the verbose branch listing and
    /// the remotes.
    pub fn probes() -> (r: Vec<GitCommand>)
        ensures
            commands(r@) == seq![
                ("rev-parse"@, seq!["--is-inside-work-tree"@]),
                ("rev-parse"@, seq!["--abbrev-ref"@, "HEAD"@]),
                ("for-each-ref"@, seq!["--format=%(refname:short)"@, "refs/heads/"@]),
                ("branch"@, seq!["-vv"@]),
                ("remote"@, Seq::<Seq<char>>::empty()),
            ],
    {
        let mut out: Vec<GitCommand> = Vec::new();
        let a0 = owned_args(&vec!["--is-inside-work-tree"]);
        let a1 = owned_args(&vec!["--abbrev-ref", "HEAD"]);
        let a2 = owned_args(&vec!["--format=%(refname:short)", "refs/heads/"]);
        let a3 = owned_args(&vec!["-vv"]);
        let a4: Vec<String> = Vec::new();
        proof {
            assert(text::views(a0@) =~= seq!["--is-inside-work-tree"@]);
            assert(text::views(a1@) =~= seq!["--abbrev-ref"@, "HEAD"@]);
            assert(text::views(a2@) =~= seq!["--format=%(refname:short)"@, "refs/heads/"@]);
            assert(text::views(a3@) =~= seq!["-vv"@]);
            assert(text::views(a4@) =~= Seq::<Seq<char>>::empty());
        }
        out.push(GitCommand::new("rev-parse", a0));
        out.push(GitCommand::new("rev-parse", a1));
        out.push(GitCommand::new("for-each-ref", a2));
        out.push(GitCommand::new("branch", a3));
        out.push(GitCommand::new("remote", a4));
        assert(commands(out@) =~= seq![
            ("rev-parse"@, seq!["--is-inside-work-tree"@]),
            ("rev-parse"@, seq!["--abbrev-ref"@, "HEAD"@]),
            ("for-each-ref"@, seq!["--format=%(refname:short)"@, "refs/heads/"@]),
            ("branch"@, seq!["-vv"@]),
            ("remote"@, Seq::<Seq<char>>::empty()),
        ]);
        out
    }

    /// The repository as the answers to [`Git::probes`] describe it.  The
    /// working directory is inside a repository when the first answer reads
    /// `true`.
    pub fn open(work_tree: &str, head: &str, heads: &str, listing: &str, remotes: &str) -> (r: Git)
        ensures
            r.inside == (work_tree@ == "true"@),
            r.head@ == head@,
            text::views(r.heads@) == text::lines_spec(heads@),
            branches::pairs(r.tracking@) == branches::listed_edges(text::lines_spec(listing@)),
            text::views(r.remote_names@) == text::lines_spec(remotes@),
    {
        Git {
            inside: *work_tree == *"true",
            head: String::from_str(head),
            heads: text::lines(heads),
            tracking: branches::parse_parents(listing),
            remote_names: text::lines(remotes),
        }
    }

    /// The repository as the five probes found it, each with what it gave
    /// back.  Where the first probe failed or did not answer `true`, the
    /// working directory is not inside a repository and nothing else is
    /// known.  Inside a repository every other probe has to succeed: the
    /// first one that failed is the error.
    pub fn load(
        work_tree: &CommandOutput,
        head: &CommandOutput,
        heads: &CommandOutput,
        listing: &CommandOutput,
        remotes: &CommandOutput,
    ) -> (r: Result<Git, StackError>)
        ensures
            !in_work_tree(*work_tree) ==> r is Ok && !r->Ok_0.inside && r->Ok_0.head@.len() == 0
                && r->Ok_0.heads@.len() == 0 && r->Ok_0.tracking@.len() == 0
                && r->Ok_0.remote_names@.len() == 0,
            in_work_tree(*work_tree) ==> (r is Ok <==> first_failed(
                seq![*head, *heads, *listing, *remotes],
                0,
            ) == 4),
            in_work_tree(*work_tree) && r is Ok ==> {
                &&& r->Ok_0.inside
                &&& r->Ok_0.head@ == said(*head)
                &&& text::views(r->Ok_0.heads@) == text::lines_spec(said(*heads))
                &&& branches::pairs(r->Ok_0.tracking@) == branches::listed_edges(
                    text::lines_spec(said(*listing)),
                )
                &&& text::views(r->Ok_0.remote_names@) == text::lines_spec(said(*remotes))
            },
            in_work_tree(*work_tree) && r is Err ==> {
                let at = first_failed(seq![*head, *heads, *listing, *remotes], 0);
                &&& r->Err_0 is CommandFailed
                &&& r->Err_0->stderr@ == seq![*head, *heads, *listing, *remotes][at].stderr@
                &&& r->Err_0->command@ == command_line(
                    probe_views()[at + 1].0,
                    probe_views()[at + 1].1,
                )
            },
    {
        let probes = Git::probes();
        assert(commands(probes@) == probe_views());
        let inside = work_tree.success && *combine_output(
            work_tree.stdout.as_str(),
            work_tree.stderr.as_str(),
        ).as_str() == *"true";
        if !inside {
            return Ok(Git::new());
        }
        let ghost all = seq![*head, *heads, *listing, *remotes];
        let a = match probes[1].outcome(head) {
            Ok(text) => text,
            Err(e) => {
                assert(first_failed(all, 0) == 0);
                return Err(e);
            },
        };
        let b = match probes[2].outcome(heads) {
            Ok(text) => text,
            Err(e) => {
                assert(first_failed(all, 0) == first_failed(all, 1));
                assert(first_failed(all, 0) == 1);
                return Err(e);
            },
        };
        let c = match probes[3].outcome(listing) {
            Ok(text) => text,
            Err(e) => {
                assert(first_failed(all, 0) == first_failed(all, 1));
                assert(first_failed(all, 1) == first_failed(all, 2));
                assert(first_failed(all, 0) == 2);
                return Err(e);
            },
        };
        let d = match probes[4].outcome(remotes) {
            Ok(text) => text,
            Err(e) => {
                assert(first_failed(all, 0) == first_failed(all, 1));
                assert(first_failed(all, 1) == first_failed(all, 2));
                assert(first_failed(all, 2) == first_failed(all, 3));
                assert(first_failed(all, 0) == 3);
                return Err(e);
            },
        };
        assert(first_failed(all, 0) == first_failed(all, 1));
        assert(first_failed(all, 1) == first_failed(all, 2));
        assert(first_failed(all, 2) == first_failed(all, 3));
        assert(first_failed(all, 3) == first_failed(all, 4));
        assert(first_failed(all, 0) == 4);
        Ok(Git::open("true", a.as_str(), b.as_str(), c.as_str(), d.as_str()))
    }

    /// What a command handed out by this handle looks like: refused outside
    /// a repository, and else the subcommand with the arguments.
    pub open spec fn issues(
        &self,
        r: Result<GitCommand, StackError>,
        command: Seq<char>,
        args: Seq<Seq<char>>,
    ) -> bool {
        &&& !self.inside ==> r == Err::<GitCommand, StackError>(StackError::NotARepository)
        &&& self.inside ==> r is Ok && r->Ok_0@ == (command, args)
    }

    /// Makes sure that the working directory is inside a repository.
    pub fn assert_in_repo(&self) -> (r: Result<(), StackError>)
        ensures
            self.inside ==> r is Ok,
            !self.inside ==> r == Err::<(), StackError>(StackError::NotARepository),
    {
        if !self.in_repo() {
            return Err(StackError::NotARepository);
        }
        Ok(())
    }

    fn git(&self, command: &str, args: Vec<String>) -> (r: Result<GitCommand, StackError>)
        ensures
            self.issues(r, command@, text::views(args@)),
    {
        match self.assert_in_repo() {
            Ok(_) => Ok(GitCommand::new(command, args)),
            Err(e) => Err(e),
        }
    }

    /// Whether the working directory is inside a repository.
    pub fn in_repo(&self) -> (r: bool)
        ensures
            r == self.inside,
    {
        self.inside
    }

    /// Fetch from the remote and integrate.
    pub fn pull(&self, args: Vec<&str>) -> (r: Result<GitCommand, StackError>)
        ensures
            self.issues(r, "pull"@, text::slice_views(args@)),
    {
        self.git("pull", owned_args(&args))
    }

    /// Update the remote.
    pub fn push(&self, args: Vec<&str>) -> (r: Result<GitCommand, StackError>)
        ensures
            self.issues(r, "push"@, text::slice_views(args@)),
    {
        self.git("push", owned_args(&args))
    }

    /// Reapply the commits of the current branch on top of another base.
    pub fn rebase(&self, args: Vec<&str>) -> (r: Result<GitCommand, StackError>)
        ensures
            self.issues(r, "rebase"@, text::slice_views(args@)),
    {
        self.git("rebase", owned_args(&args))
    }

    /// Join another history into the current branch.
    pub fn merge(&self, args: Vec<&str>) -> (r: Result<GitCommand, StackError>)
        ensures
            self.issues(r, "merge"@, text::slice_views(args@)),
    {
        self.git("merge", owned_args(&args))
    }

    /// Apply the changes of existing commits.
    pub fn cherry_pick(&self, args: Vec<&str>) -> (r: Result<GitCommand, StackError>)
        ensures
            self.issues(r, "cherry-pick"@, text::slice_views(args@)),
    {
        self.git("cherry-pick", owned_args(&args))
    }

    /// Check out a branch, or create one.
    pub fn checkout(&self, args: Vec<&str>) -> (r: Result<GitCommand, StackError>)
        ensures
            self.issues(r, "checkout"@, text::slice_views(args@)),
    {
        self.git("checkout", owned_args(&args))
    }

    /// Switch the working tree to `branch`.
    pub fn switch(&self, branch: &str) -> (r: Result<GitCommand, StackError>)
        ensures
            self.issues(r, "switch"@, seq![branch@]),
    {
        let args = owned_args(&vec![branch]);
        assert(text::views(args@) =~= seq![branch@]);
        self.git("switch", args)
    }

    /// List, create, delete or configure branches.
    pub fn branch(&self, args: Vec<&str>) -> (r: Result<GitCommand, StackError>)
        ensures
            self.issues(r, "branch"@, text::slice_views(args@)),
    {
        self.git("branch", owned_args(&args))
    }

    /// Show the history.
    pub fn log(&self, args: Vec<&str>) -> (r: Result<GitCommand, StackError>)
        ensures
            self.issues(r, "log"@, text::slice_views(args@)),
    {
        self.git("log", owned_args(&args))
    }

    /// List commits.
    pub fn revlist(&self, args: Vec<&str>) -> (r: Result<GitCommand, StackError>)
        ensures
            self.issues(r, "rev-list"@, text::slice_views(args@)),
    {
        self.git("rev-list", owned_args(&args))
    }

    /// Resolve a name to a commit.
    pub fn rev_parse(&self, args: Vec<&str>) -> (r: Result<GitCommand, StackError>)
        ensures
            self.issues(r, "rev-parse"@, text::slice_views(args@)),
    {
        self.git("rev-parse", owned_args(&args))
    }

    /// Show the state of the working tree.
    pub fn status(&self) -> (r: Result<GitCommand, StackError>)
        ensures
            self.issues(r, "status"@, Seq::<Seq<char>>::empty()),
    {
        let args: Vec<String> = Vec::new();
        assert(text::views(args@) =~= Seq::<Seq<char>>::empty());
        self.git("status", args)
    }

    /// List or configure the remotes.
    pub fn remote(&self, args: Vec<&str>) -> (r: Result<GitCommand, StackError>)
        ensures
            self.issues(r, "remote"@, text::slice_views(args@)),
    {
        self.git("remote", owned_args(&args))
    }

    /// The lines that the answer to a question for the history holds, each
    /// without the white space at its ends.
    pub fn log_lines(output: &str) -> (r: Vec<String>)
        ensures
            text::views(r@) == trimmed_lines(text::lines_spec(output@)),
    {
        let lines = text::lines(output);
        let mut out: Vec<String> = Vec::new();
        let mut i: usize = 0;
        while i < lines.len()
            invariant
                i <= lines.len(),
                text::views(out@) =~= trimmed_lines(text::views(lines@)).take(i as int),
            decreases lines.len() - i,
        {
            let ghost before = text::views(out@);
            let line = text::trim(lines[i].as_str());
            out.push(line);
            assert(text::views(out@) =~= before.push(text::trim_spec(lines@[i as int]@)));
            i += 1;
        }
        assert(text::views(out@) =~= trimmed_lines(text::views(lines@)));
        out
    }

    /// The question for the commits that `branch` has and `parent` has not,
    /// newest first, one line each.
    pub fn commit_diff(&self, branch: &str, parent: &str) -> (r: Result<GitCommand, StackError>)
        ensures
            self.issues(r, "log"@, seq![parent@ + ".."@ + branch@, "--format=oneline"@]),
    {
        let range = text::concat3(parent, "..", branch);
        let args = owned_args(&vec![range.as_str(), "--format=oneline"]);
        assert(text::views(args@) =~= seq![parent@ + ".."@ + branch@, "--format=oneline"@]);
        self.git("log", args)
    }

    /// The names of the remotes.
    pub fn remotes(&self) -> (r: Result<&Vec<String>, StackError>)
        ensures
            !self.inside ==> r == Err::<&Vec<String>, StackError>(StackError::NotARepository),
            self.inside ==> r is Ok && r->Ok_0 == &self.remote_names,
    {
        if !self.inside {
            return Err(StackError::NotARepository);
        }
        Ok(&self.remote_names)
    }

    fn rebase_into(&self, branch: &str, args: &Vec<String>, fuel: usize, out: &mut Vec<GitCommand>)
        ensures
            commands(final(out)@) == commands(old(out)@) + rebase_plan(
                self.edges(),
                branch@,
                text::views(args@),
                fuel as nat,
            ),
        decreases fuel,
    {
        let ghost start = commands(out@);
        let ghost edges = self.edges();
        let ghost a = text::views(args@);
        let to = owned_args(&vec![branch]);
        assert(text::views(to@) =~= seq![branch@]);
        out.push(GitCommand::new("switch", to));
        out.push(GitCommand::new("rebase", copy_strings(args)));
        assert(commands(out@) =~= start + seq![switch_to(branch@), ("rebase"@, a)]);
        if fuel > 0 {
            let children = branches::find_children(&self.tracking, branch);
            let ghost head = commands(out@);
            let mut i: usize = 0;
            assert(text::views(children@).take(0) =~= Seq::empty());
            while i < children.len()
                invariant
                    i <= children.len(),
                    edges == self.edges(),
                    a == text::views(args@),
                    fuel > 0,
                    commands(out@) == head + rebase_plans(
                        edges,
                        text::views(children@).take(i as int),
                        a,
                        (fuel - 1) as nat,
                    ),
                decreases children.len() - i,
            {
                let ghost seen = text::views(children@).take(i + 1);
                assert(seen.drop_last() =~= text::views(children@).take(i as int));
                assert(seen.last() == children@[i as int]@);
                self.rebase_into(children[i].as_str(), args, fuel - 1, out);
                assert(commands(out@) =~= head + rebase_plans(edges, seen, a, (fuel - 1) as nat));
                i += 1;
            }
            assert(text::views(children@).take(children.len() as int) =~= text::views(
                children@,
            ));
            assert(commands(out@) =~= start + rebase_plan(edges, branch@, a, fuel as nat));
        } else {
            assert(commands(out@) =~= start + rebase_plan(edges, branch@, a, fuel as nat));
        }
    }

    /// Adds to `out` the commands that rebase `branch` and every branch
    /// above it.
    pub fn rebase_onto(&self, branch: &str, args: &Vec<String>, out: &mut Vec<GitCommand>)
        ensures
            commands(final(out)@) == commands(old(out)@) + rebase_plan(
                self.edges(),
                branch@,
                text::views(args@),
                self.edges().len(),
            ),
    {
        self.rebase_into(branch, args, self.tracking.len(), out);
    }

    /// The commands that rebase `branch` with the given arguments and then,
    /// in turn, every branch above it.  The plan follows the tracking edges
    /// for as many levels as there are edges, which no forest exceeds.
    pub fn recursive_rebase(&self, branch: &str, args: Vec<&str>) -> (r: Result<
        Vec<GitCommand>,
        StackError,
    >)
        ensures
            !self.inside ==> r == Err::<Vec<GitCommand>, StackError>(StackError::NotARepository),
            self.inside ==> r is Ok && commands(r->Ok_0@) == rebase_plan(
                self.edges(),
                branch@,
                text::slice_views(args@),
                self.tracking@.len(),
            ),
    {
        if !self.inside {
            return Err(StackError::NotARepository);
        }
        let mut out: Vec<GitCommand> = Vec::new();
        let owned = owned_args(&args);
        assert(commands(out@) =~= Seq::empty());
        self.rebase_into(branch, &owned, self.tracking.len(), &mut out);
        assert(commands(out@) =~= rebase_plan(
            self.edges(),
            branch@,
            text::slice_views(args@),
            self.tracking@.len(),
        ));
        Ok(out)
    }

    fn pull_into(&self, branch: &str, fuel: usize, out: &mut Vec<GitCommand>)
        ensures
            commands(final(out)@) == commands(old(out)@) + pull_plan(
                self.edges(),
                branch@,
                fuel as nat,
            ),
        decreases fuel,
    {
        let ghost start = commands(out@);
        let ghost edges = self.edges();
        let to = owned_args(&vec![branch]);
        let flags = owned_args(&vec!["--rebase"]);
        assert(text::views(to@) =~= seq![branch@]);
        assert(text::views(flags@) =~= seq!["--rebase"@]);
        out.push(GitCommand::new("switch", to));
        out.push(GitCommand::new("pull", flags));
        let ghost head = commands(out@);
        assert(head =~= start + seq![switch_to(branch@), ("pull"@, seq!["--rebase"@])]);
        let ghost below: Seq<CommandView> = Seq::empty();
        if fuel > 0 {
            let children = branches::find_children(&self.tracking, branch);
            let mut i: usize = 0;
            assert(text::views(children@).take(0) =~= Seq::empty());
            assert(commands(out@) =~= head + Seq::<CommandView>::empty());
            while i < children.len()
                invariant
                    i <= children.len(),
                    edges == self.edges(),
                    fuel > 0,
                    commands(out@) == head + pull_plans(
                        edges,
                        text::views(children@).take(i as int),
                        (fuel - 1) as nat,
                    ),
                decreases children.len() - i,
            {
                let ghost seen = text::views(children@).take(i + 1);
                assert(seen.drop_last() =~= text::views(children@).take(i as int));
                assert(seen.last() == children@[i as int]@);
                self.pull_into(children[i].as_str(), fuel - 1, out);
                assert(commands(out@) =~= head + pull_plans(edges, seen, (fuel - 1) as nat));
                i += 1;
            }
            assert(text::views(children@).take(children.len() as int) =~= text::views(
                children@,
            ));
            proof {
                below = pull_plans(edges, text::views(children@), (fuel - 1) as nat);
            }
        }
        assert(commands(out@) =~= head + below);
        let back = owned_args(&vec![branch]);
        assert(text::views(back@) =~= seq![branch@]);
        out.push(GitCommand::new("switch", back));
        assert(commands(out@) =~= (head + below).push(switch_to(branch@)));
        assert(pull_plan(edges, branch@, fuel as nat) =~= seq![
            switch_to(branch@),
            ("pull"@, seq!["--rebase"@]),
        ] + below + seq![switch_to(branch@)]);
        assert(commands(out@) =~= start + pull_plan(edges, branch@, fuel as nat));
    }

    /// Adds to `out` the commands that pull `branch` and every branch above
    /// it.
    pub fn pull_onto(&self, branch: &str, out: &mut Vec<GitCommand>)
        ensures
            commands(final(out)@) == commands(old(out)@) + pull_plan(
                self.edges(),
                branch@,
                self.edges().len(),
            ),
    {
        self.pull_into(branch, self.tracking.len(), out);
    }

    /// The commands that pull `branch` and every branch above it with rebase
    /// semantics, and end on `branch` again.
    pub fn sync(&self, branch: &str) -> (r: Result<Vec<GitCommand>, StackError>)
        ensures
            !self.inside ==> r == Err::<Vec<GitCommand>, StackError>(StackError::NotARepository),
            self.inside ==> r is Ok && commands(r->Ok_0@) == pull_plan(
                self.edges(),
                branch@,
                self.tracking@.len(),
            ),
    {
        if !self.inside {
            return Err(StackError::NotARepository);
        }
        let mut out: Vec<GitCommand> = Vec::new();
        assert(commands(out@) =~= Seq::empty());
        self.pull_into(branch, self.tracking.len(), &mut out);
        assert(commands(out@) =~= pull_plan(self.edges(), branch@, self.tracking@.len()));
        Ok(out)
    }
}

/// The commands that make each of the first `n` children track `parent`:
/// the child is switched to and told its new upstream.
pub open spec fn reparent(children: Seq<Seq<char>>, parent: Seq<char>, n: int) -> Seq<CommandView>
    decreases n,
{
    if n <= 0 {
        Seq::empty()
    } else {
        reparent(children, parent, n - 1) + seq![
            switch_to(children[n - 1]),
            ("branch"@, seq!["--set-upstream-to="@ + parent]),
        ]
    }
}

/// Adds to `out` the commands that make every child track `parent`.
pub fn reparent_onto(children: &Vec<String>, parent: &str, out: &mut Vec<GitCommand>)
    ensures
        commands(final(out)@) == commands(old(out)@) + reparent(
            text::views(children@),
            parent@,
            children@.len() as int,
        ),
{
    let ghost start = commands(out@);
    let mut c: usize = 0;
    assert(commands(out@) =~= start + Seq::empty());
    while c < children.len()
        invariant
            c <= children.len(),
            commands(out@) == start + reparent(text::views(children@), parent@, c as int),
        decreases children.len() - c,
    {
        let upstream = text::concat("--set-upstream-to=", parent);
        push_command(out, "switch", args1(children[c].as_str()));
        push_command(out, "branch", args1(upstream.as_str()));
        assert(commands(out@) =~= start + reparent(text::views(children@), parent@, c + 1));
        c += 1;
    }
}

/// Commands that take the place of the running program: once the caller has
/// started one, control never comes back.
#[derive(Debug)]
pub struct ExecGit;

impl ExecGit {
    /// A builder of commands that take over the process.
    pub fn new() -> ExecGit {
        ExecGit {  }
    }

    /// Show the state of the working tree.
    pub fn status(&self) -> (r: GitCommand)
        ensures
            r@ == ("status"@, Seq::<Seq<char>>::empty()),
    {
        GitCommand::new("status", args0())
    }

    /// Record the staged changes.
    pub fn commit(&self, args: Vec<String>) -> (r: GitCommand)
        ensures
            r@ == ("commit"@, text::views(args@)),
    {
        GitCommand::new("commit", args)
    }

    /// Fetch from the remote and integrate.
    pub fn pull(&self, args: Vec<String>) -> (r: GitCommand)
        ensures
            r@ == ("pull"@, text::views(args@)),
    {
        GitCommand::new("pull", args)
    }
}

} // verus!
