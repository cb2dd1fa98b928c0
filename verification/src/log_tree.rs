//! What the log shows of a branch: its name, the subject of its newest
//! commit, and its commits.

use vstd::prelude::*;
use vstd::string::StringExecFns;
use crate::ansi;
use crate::indent;
use crate::stack::Stack;
use crate::text;
use crate::tree::Node;
use crate::tree::WithChildren;

verus! {

/// Something with a headline and a body.
pub trait NamedData {
    fn name(&self) -> String;

    fn data(&self) -> String;
}

/// A commit of a branch, with its place in the listing it was read from.
#[derive(Debug)]
pub struct LogCommit {
    pub sha: String,
    pub title: String,
    pub index: usize,
}

/// A branch by its name and the commit at its tip.
#[derive(Debug)]
pub struct GitBranch {
    pub name: String,
    pub sha: String,
}

/// A branch of a stack, as the log shows it.
#[derive(Debug)]
pub struct LogBranch<'a> {
    pub stack: &'a Stack,
    pub place: usize,
}

/// How many characters of a commit's id the log shows.
pub const SHORT_SHA: usize = 7;

/// The commits as plain values: id and title.
pub open spec fn log_commit_views(v: Seq<LogCommit>) -> Seq<(Seq<char>, Seq<char>)> {
    Seq::new(v.len(), |i: int| (v[i].sha@, v[i].title@))
}

/// The id that a line of the history opens with: what stands before the
/// first space.
pub open spec fn line_sha(line: Seq<char>) -> Seq<char> {
    line.take(text::find_spec(line, ' ', 0))
}

/// The subject of a line of the history: what stands behind the first
/// space.
pub open spec fn line_title(line: Seq<char>) -> Seq<char> {
    if text::find_spec(line, ' ', 0) < line.len() {
        line.skip(text::find_spec(line, ' ', 0) + 1)
    } else {
        Seq::empty()
    }
}

/// The commits that the lines of a history name: one for each line that is
/// not empty, in the order of the lines.
pub open spec fn diff_commits(lines: Seq<Seq<char>>) -> Seq<(Seq<char>, Seq<char>)>
    decreases lines.len(),
{
    if lines.len() == 0 {
        Seq::empty()
    } else {
        let init = diff_commits(lines.drop_last());
        if lines.last().len() == 0 {
            init
        } else {
            init.push((line_sha(lines.last()), line_title(lines.last())))
        }
    }
}

/// The line that the log shows for a commit: the first characters of its id,
/// in grey, and its title.
pub open spec fn commit_line(sha: Seq<char>, title: Seq<char>) -> Seq<char> {
    ansi::wrapped(
        ansi::BRIGHT_BLACK@,
        if sha.len() <= SHORT_SHA {
            sha
        } else {
            sha.take(SHORT_SHA as int)
        },
    ) + " "@ + title
}

/// The lines of the commits from the `n`-th last on, newest first, for
/// commits that are kept oldest first.
pub open spec fn commit_lines(commits: Seq<(Seq<char>, Seq<char>)>, n: int) -> Seq<Seq<char>>
    decreases n,
{
    if n <= 0 {
        Seq::empty()
    } else {
        commit_lines(commits, n - 1).push(
            commit_line(commits[commits.len() - n].0, commits[commits.len() - n].1),
        )
    }
}

/// The headline of a branch: its name and the subject of its newest commit.
pub open spec fn headline(name: Seq<char>, commits: Seq<(Seq<char>, Seq<char>)>) -> Seq<char> {
    name + " - "@ + if commits.len() > 0 {
        commits.last().1
    } else {
        Seq::empty()
    }
}

/// The body of a branch: its commits, newest first, one to a line.
pub open spec fn body(commits: Seq<(Seq<char>, Seq<char>)>) -> Seq<char> {
    text::join_spec(commit_lines(commits, commits.len() as int), "\n"@)
}

impl GitBranch {
    /// The branch of that name with that commit at its tip.
    pub fn new(name: String, sha: String) -> (r: Self)
        ensures
            r.name == name,
            r.sha == sha,
    {
        Self { name, sha }
    }

    /// The first root of the stack, if it has a branch at all.
    pub fn root(stack: &Stack) -> (r: Option<Self>)
        requires
            stack.wf(),
        ensures
            r is Some <==> stack.roots@.len() > 0,
            r is Some ==> r->0.name@ == stack.branches@[stack.roots@[0] as int].name@ && r->0.sha@
                == stack.branches@[stack.roots@[0] as int].sha@,
    {
        proof {
            stack.lemma_wf_in_range();
        }
        if stack.roots.len() == 0 {
            None
        } else {
            let branch = &stack.branches[stack.roots[0]];
            Some(Self::new(branch.name.clone(), branch.sha.clone()))
        }
    }
}

impl LogCommit {
    /// The commits that a listing of the history names, in its order: each
    /// line gives the id up to its first space and the title behind it.  An
    /// empty line names no commit.
    pub fn from_diff(diff: String) -> (r: Vec<Self>)
        ensures
            log_commit_views(r@) == diff_commits(text::split_spec(diff@, '\n')),
            forall|i: int| 0 <= i < r@.len() ==> (#[trigger] r@[i]).index == i,
    {
        let lines = text::split(diff.as_str(), '\n');
        let mut commits: Vec<LogCommit> = Vec::new();
        let mut i: usize = 0;
        assert(text::views(lines@).take(0) =~= Seq::empty());
        assert(log_commit_views(commits@) =~= Seq::empty());
        while i < lines.len()
            invariant
                i <= lines.len(),
                log_commit_views(commits@) == diff_commits(text::views(lines@).take(i as int)),
                forall|k: int| 0 <= k < commits@.len() ==> (#[trigger] commits@[k]).index == k,
            decreases lines.len() - i,
        {
            let ghost seen = text::views(lines@).take(i + 1);
            assert(seen.drop_last() =~= text::views(lines@).take(i as int));
            assert(seen.last() == lines@[i as int]@);
            let ghost before = log_commit_views(commits@);
            let v = text::chars_of(lines[i].as_str());
            if v.len() > 0 {
                let space = text::find(&v, ' ', 0);
                let sha = text::substring(&v, 0, space);
                let title = if space < v.len() {
                    text::substring(&v, space + 1, v.len())
                } else {
                    String::new()
                };
                assert(v@.subrange(0, space as int) =~= v@.take(space as int));
                if space < v.len() {
                    assert(v@.subrange(space + 1, v.len() as int) =~= v@.skip(space + 1));
                }
                let index = commits.len();
                commits.push(LogCommit { sha, title, index });
                assert(log_commit_views(commits@) =~= before.push(
                    (line_sha(seen.last()), line_title(seen.last())),
                ));
            }
            i += 1;
        }
        assert(text::views(lines@).take(lines.len() as int) =~= text::views(lines@));
        commits
    }

    /// The commits of a listing, oldest first: the order in which a branch
    /// keeps its commits.
    pub fn oldest_first(diff: String) -> (r: Vec<Self>)
        ensures
            log_commit_views(r@) == diff_commits(text::split_spec(diff@, '\n')).reverse(),
            forall|i: int| 0 <= i < r@.len() ==> (#[trigger] r@[i]).index == r@.len() - 1 - i,
    {
        let mut listed = LogCommit::from_diff(diff);
        let ghost all = log_commit_views(listed@);
        let mut out: Vec<LogCommit> = Vec::new();
        assert(log_commit_views(out@) =~= all.skip(all.len() as int).reverse());
        while listed.len() > 0
            invariant
                listed@.len() <= all.len(),
                listed@.len() + out@.len() == all.len(),
                forall|i: int| 0 <= i < listed@.len() ==> (#[trigger] listed@[i]).index == i,
                forall|i: int|
                    0 <= i < out@.len() ==> (#[trigger] out@[i]).index == all.len() - 1 - i,
                log_commit_views(listed@) == all.take(listed@.len() as int),
                log_commit_views(out@) == all.skip(listed@.len() as int).reverse(),
            decreases listed@.len(),
        {
            let ghost n = listed@.len();
            let ghost before = log_commit_views(out@);
            let ghost whole = listed@;
            assert(log_commit_views(whole)[n - 1] == all[n - 1]);
            let commit = listed.pop().unwrap();
            assert(commit == whole[n - 1]);
            out.push(commit);
            assert(log_commit_views(listed@) =~= all.take(n - 1));
            assert(log_commit_views(out@) =~= before.push(all[n - 1]));
            assert(before.push(all[n - 1]) =~= all.skip(n - 1).reverse());
        }
        assert(all.skip(0) =~= all);
        out
    }

    /// The line that the log shows for the commit.
    pub fn to_string(&self) -> (r: String)
        ensures
            r@ == commit_line(self.sha@, self.title@),
    {
        let v = text::chars_of(self.sha.as_str());
        let short = if v.len() <= SHORT_SHA {
            self.sha.clone()
        } else {
            let s = text::substring(&v, 0, SHORT_SHA);
            assert(v@.subrange(0, SHORT_SHA as int) =~= v@.take(SHORT_SHA as int));
            s
        };
        let grey = text::concat3(ansi::BRIGHT_BLACK, short.as_str(), ansi::CLEAR);
        text::concat3(grey.as_str(), " ", self.title.as_str())
    }
}

/// The node shows the branch at `place` of the stack: it bears the label of
/// that branch, and its children show the children of the branch.
pub open spec fn shows(node: Node<LogBranch<'_>>, stack: &Stack, place: usize) -> bool
    decreases node,
{
    &&& node.data.stack == stack
    &&& node.data.place == place
    &&& node.label@ == node.data.text_spec()
    &&& node.children@.len() == stack.branches@[place as int].children@.len()
    &&& forall|i: int|
        0 <= i < node.children@.len() ==> shows(
            #[trigger] node.children@[i],
            stack,
            stack.branches@[place as int].children@[i],
        )
}

impl<'a> LogBranch<'a> {
    /// The branch is one of a forest.
    pub open spec fn wf(&self) -> bool {
        self.stack.wf() && self.place < self.stack.branches@.len()
    }

    /// The commits of the branch as plain values, oldest first.
    pub open spec fn commits(&self) -> Seq<(Seq<char>, Seq<char>)> {
        if self.place < self.stack.branches@.len() {
            log_commit_views(self.stack.branches@[self.place as int].commits@)
        } else {
            Seq::empty()
        }
    }

    /// The name of the branch.
    pub open spec fn branch_name(&self) -> Seq<char> {
        if self.place < self.stack.branches@.len() {
            self.stack.branches@[self.place as int].name@
        } else {
            Seq::empty()
        }
    }

    /// The headline: the branch's name and the subject of its newest commit.
    pub open spec fn name_spec(&self) -> Seq<char> {
        headline(self.branch_name(), self.commits())
    }

    /// The body: the commits of the branch, newest first.
    pub open spec fn data_spec(&self) -> Seq<char> {
        body(self.commits())
    }

    /// What the log shows of the branch: the headline, and below it the
    /// body, indented by two spaces.
    pub open spec fn text_spec(&self) -> Seq<char> {
        self.name_spec() + "\n"@ + indent::prefix_lines(self.data_spec(), "  "@)
    }

    /// The branch of that name, if the stack has it.
    pub fn from_branch(stack: &'a Stack, branch: &str) -> (r: Option<Self>)
        ensures
            r is Some <==> stack.place_of(branch@) is Some,
            r is Some ==> r->0.stack == stack && Some(r->0.place) == stack.place_of(branch@)
                && r->0.place < stack.branches@.len(),
    {
        match stack.find(branch) {
            Some(place) => Some(LogBranch { stack, place }),
            None => None,
        }
    }

    /// The branch of the stack that bears the name of `branch`.
    pub fn from(stack: &'a Stack, branch: &GitBranch) -> (r: Option<Self>)
        ensures
            r is Some <==> stack.place_of(branch.name@) is Some,
            r is Some ==> r->0.stack == stack && Some(r->0.place) == stack.place_of(branch.name@)
                && r->0.place < stack.branches@.len(),
    {
        LogBranch::from_branch(stack, branch.name.as_str())
    }

    /// What the log shows of the branch.
    pub fn to_string(&self) -> (r: String)
        ensures
            r@ == self.text_spec(),
    {
        let name = self.name();
        let data = self.data();
        let indented = indent::prefix_each_line(data.as_str(), "  ");
        text::concat3(name.as_str(), "\n", indented.as_str())
    }

    /// The tree of the branch and of everything that hangs below it.
    pub fn tree(&self) -> (r: Node<LogBranch<'a>>)
        requires
            self.wf(),
        ensures
            shows(r, self.stack, self.place),
        decreases self.stack.height - self.stack.branches@[self.place as int].depth,
    {
        let kids = &self.stack.branches[self.place].children;
        proof {
            self.stack.lemma_child_is_lower(self.place as int);
        }
        let mut nodes: Vec<Node<LogBranch<'a>>> = Vec::new();
        let mut k: usize = 0;
        while k < kids.len()
            invariant
                k <= kids.len(),
                self.wf(),
                kids == &self.stack.branches@[self.place as int].children,
                nodes@.len() == k,
                forall|i: int|
                    0 <= i < kids@.len() ==> {
                        &&& (#[trigger] kids@[i]) < self.stack.branches@.len()
                        &&& self.stack.branches@[kids@[i] as int].depth
                            == self.stack.branches@[self.place as int].depth + 1
                        &&& self.stack.branches@[self.place as int].depth < self.stack.height
                    },
                forall|i: int| 0 <= i < k ==> shows(#[trigger] nodes@[i], self.stack, kids@[i]),
            decreases kids.len() - k,
        {
            let child = LogBranch { stack: self.stack, place: kids[k] };
            assert(self.stack.depths()[kids@[k as int] as int] <= self.stack.height);
            nodes.push(child.tree());
            k += 1;
        }
        Node { data: LogBranch { stack: self.stack, place: self.place }, label: self.to_string(), children: nodes }
    }
}

impl<'a> NamedData for LogBranch<'a> {
    fn name(&self) -> (r: String)
        ensures
            r@ == self.name_spec(),
    {
        if self.place >= self.stack.branches.len() {
            proof {
                reveal_strlit("");
            }
            let out = text::concat3("", " - ", "");
            assert(out@ =~= self.name_spec());
            return out;
        }
        let branch = &self.stack.branches[self.place];
        let n = branch.commits.len();
        let title = if n > 0 {
            branch.commits[n - 1].title.clone()
        } else {
            String::new()
        };
        text::concat3(branch.name.as_str(), " - ", title.as_str())
    }

    fn data(&self) -> (r: String)
        ensures
            r@ == self.data_spec(),
    {
        let mut lines: Vec<String> = Vec::new();
        if self.place < self.stack.branches.len() {
            let commits = &self.stack.branches[self.place].commits;
            let ghost all = log_commit_views(commits@);
            let n = commits.len();
            let mut k: usize = 0;
            assert(text::views(lines@) =~= commit_lines(all, 0));
            while k < n
                invariant
                    k <= n,
                    n == commits@.len(),
                    all == log_commit_views(commits@),
                    text::views(lines@) == commit_lines(all, k as int),
                decreases n - k,
            {
                let ghost before = text::views(lines@);
                let line = commits[n - 1 - k].to_string();
                lines.push(line);
                assert(text::views(lines@) =~= before.push(
                    commit_line(all[n - (k + 1)].0, all[n - (k + 1)].1),
                ));
                k += 1;
            }
        } else {
            assert(text::views(lines@) =~= commit_lines(Seq::empty(), 0));
        }
        text::join(&lines, "\n")
    }
}

impl<'a> WithChildren for LogBranch<'a> {
    open spec fn label_spec(&self) -> Seq<char> {
        self.text_spec()
    }

    open spec fn children_spec(&self) -> Seq<Self> {
        if self.place < self.stack.branches@.len() {
            Seq::new(
                self.stack.branches@[self.place as int].children@.len(),
                |k: int|
                    LogBranch {
                        stack: self.stack,
                        place: self.stack.branches@[self.place as int].children@[k],
                    },
            )
        } else {
            Seq::empty()
        }
    }

    fn label(&self) -> (r: String) {
        self.to_string()
    }

    fn children(&self) -> (r: Vec<Self>) {
        let mut out: Vec<LogBranch<'a>> = Vec::new();
        if self.place < self.stack.branches.len() {
            let kids = &self.stack.branches[self.place].children;
            let mut k: usize = 0;
            while k < kids.len()
                invariant
                    k <= kids.len(),
                    self.place < self.stack.branches@.len(),
                    kids == &self.stack.branches@[self.place as int].children,
                    out@ =~= self.children_spec().take(k as int),
                decreases kids.len() - k,
            {
                out.push(LogBranch { stack: self.stack, place: kids[k] });
                k += 1;
            }
            assert(out@ =~= self.children_spec());
        }
        out
    }
}

} // verus!
