//! Splitting a branch: its commits are cut into groups that follow one
//! another, and each group becomes a branch of its own on top of the one
//! before.

use vstd::prelude::*;
use vstd::string::StringExecFns;
use crate::ansi;
use crate::branches;
use crate::branches::BranchType;
use crate::candy::CandyOption;
use crate::errors::StackError;
use crate::git;
use crate::git::Git;
use crate::git::GitCommand;
use crate::selector;
use crate::text;

verus! {

/// A commit of the branch that is split, as the history lists it.
#[derive(Debug)]
pub struct FormattedCommit {
    pub sha: String,
    pub title: String,
}

/// The pattern of a line of the history: the commit's id, the decoration in
/// round brackets that may follow it, and the subject.
pub const COMMIT_LINE: &'static str = r"(\S+)\s+(\(.*\)\s+)?(.*)";

/// What the regular expression `pattern` captures in `text` at its leftmost
/// match: for each group of the pattern, the whole match first, the text it
/// took part in the match with, if it took part.  Nothing where the text has
/// no match or the pattern is none.
pub uninterp spec fn captured(pattern: Seq<char>, text: Seq<char>) -> Option<Seq<Option<Seq<char>>>>;

/// The captures of a match as plain values.
pub open spec fn capture_views(groups: Option<Vec<Option<String>>>) -> Option<
    Seq<Option<Seq<char>>>,
> {
    match groups {
        None => None,
        Some(v) => Some(
            Seq::new(
                v@.len(),
                |i: int|
                    match v@[i] {
                        None => None,
                        Some(s) => Some(s@),
                    },
            ),
        ),
    }
}

/// `Regex::new` and `Regex::captures` of the regex crate: compiles the
/// pattern and searches the text for its leftmost match.  The result is what
/// the expression captures there, group by group, which depends on the
/// pattern and the text alone.
#[verifier::external_body]
fn regex_captures(pattern: &str, text: &str) -> (r: Option<Vec<Option<String>>>)
    ensures
        capture_views(r) == captured(pattern@, text@),
{
    match regex::Regex::new(pattern) {
        Ok(re) => re.captures(text).map(
            |found| found.iter().map(|group| group.map(|m| m.as_str().to_string())).collect(),
        ),
        Err(_) => None,
    }
}

/// A commit as plain values: its id and its title.
pub type CommitView = (Seq<char>, Seq<char>);

/// The commits as plain values.
pub open spec fn commit_views(v: Seq<FormattedCommit>) -> Seq<CommitView> {
    Seq::new(v.len(), |i: int| (v[i].sha@, v[i].title@))
}

/// The groups as plain values.
pub open spec fn group_views(v: Seq<Vec<FormattedCommit>>) -> Seq<Seq<CommitView>> {
    Seq::new(v.len(), |i: int| commit_views(v[i]@))
}

/// The commit that the captures of a history line describe: the first group
/// is its id and the third its title.
pub open spec fn commit_of(groups: Option<Seq<Option<Seq<char>>>>) -> Option<CommitView> {
    match groups {
        None => None,
        Some(g) => if g.len() > 3 && g[1] is Some && g[3] is Some {
            Some((g[1]->0, g[3]->0))
        } else {
            None
        },
    }
}

/// The groups and the group that is still open once the first `n` commits
/// are dealt with, newest first.  Each commit goes to the front of the open
/// group; a commit that is a split point, and the oldest commit of all,
/// closes the group, which goes to the front of the groups.
pub open spec fn split_upto(commits: Seq<CommitView>, points: Seq<Seq<char>>, n: int) -> (
    Seq<Seq<CommitView>>,
    Seq<CommitView>,
)
    decreases n,
{
    if n <= 0 {
        (Seq::empty(), Seq::empty())
    } else {
        let (groups, open) = split_upto(commits, points, n - 1);
        let grown = seq![commits[n - 1]] + open;
        if points.contains(commits[n - 1].0) || n == commits.len() {
            (seq![grown] + groups, Seq::empty())
        } else {
            (groups, grown)
        }
    }
}

/// The groups that the split points cut the commits into.  The commits come
/// newest first; the groups come oldest first, and so do the commits within
/// each.
pub open spec fn split_spec(commits: Seq<CommitView>, points: Seq<Seq<char>>) -> Seq<
    Seq<CommitView>,
> {
    split_upto(commits, points, commits.len() as int).0
}

/// The groups laid end to end.
pub open spec fn concat_all(groups: Seq<Seq<CommitView>>) -> Seq<CommitView>
    decreases groups.len(),
{
    if groups.len() == 0 {
        Seq::empty()
    } else {
        groups[0] + concat_all(groups.drop_first())
    }
}

/// The name of the `i`-th branch that a split of `branch` makes, counted
/// from 0: the branch's name, a hyphen and the number `i + 1`.
pub open spec fn part_name(branch: Seq<char>, i: nat) -> Seq<char> {
    branch + "-"@ + text::decimal_spec(i + 1)
}

/// The commands that pick the commits of one group, oldest first.
pub open spec fn picks(group: Seq<CommitView>) -> Seq<git::CommandView> {
    Seq::new(group.len(), |k: int| ("cherry-pick"@, seq![group[k].0]))
}

/// The commands that make a branch of each group from the `i`-th on: the
/// branch is created on top of `parent`, which it tracks, its commits are
/// picked onto it, and the next group goes on top of it.
pub open spec fn build_parts(
    branch: Seq<char>,
    parent: Seq<char>,
    groups: Seq<Seq<CommitView>>,
    i: int,
) -> Seq<git::CommandView>
    decreases groups.len() - i,
{
    if i < 0 || i >= groups.len() {
        Seq::empty()
    } else {
        seq![("checkout"@, seq!["-t"@, parent, "-b"@, part_name(branch, i as nat)])] + picks(
            groups[i],
        ) + build_parts(branch, part_name(branch, i as nat), groups, i + 1)
    }
}

/// The branch on which a split ends: the last one it made, or the parent
/// where it made none.
pub open spec fn top_part(branch: Seq<char>, parent: Seq<char>, count: nat) -> Seq<char> {
    if count == 0 {
        parent
    } else {
        part_name(branch, (count - 1) as nat)
    }
}

/// The whole split: a branch for every group, the children of the branch
/// that is split moved onto the last of them, the split branch deleted, the
/// last branch and what was moved onto it rebased, and the working tree left
/// on the last branch.
pub open spec fn split_plan_spec(
    edges: Seq<(Seq<char>, Seq<char>)>,
    branch: Seq<char>,
    parent: Seq<char>,
    groups: Seq<Seq<CommitView>>,
) -> Seq<git::CommandView> {
    let top = top_part(branch, parent, groups.len());
    let children = branches::children_spec(edges, branch);
    build_parts(branch, parent, groups, 0) + git::reparent(children, top, children.len() as int)
        + seq![
        ("branch"@, seq!["-D"@, branch]),
        git::switch_to(top),
        ("rebase"@, Seq::<Seq<char>>::empty()),
    ] + git::rebase_plans(edges, children, Seq::<Seq<char>>::empty(), edges.len()) + seq![
        git::switch_to(top),
    ]
}

/// Without a split point all commits stay together: there is exactly one
/// group, and it holds every commit, oldest first.
pub proof fn lemma_no_split_point_one_group(commits: Seq<CommitView>)
    requires
        commits.len() > 0,
    ensures
        split_spec(commits, Seq::empty()) == seq![commits.reverse()],
{
    let points = Seq::<Seq<char>>::empty();
    lemma_open_group_without_points(commits, commits.len() - 1);
    let (groups, open) = split_upto(commits, points, commits.len() - 1);
    let grown = seq![commits[commits.len() - 1]] + open;
    assert(grown =~= commits.reverse());
    assert(seq![grown] + groups =~= seq![commits.reverse()]);
}

/// Without a split point no group is closed before the oldest commit: the
/// open group holds all commits so far, oldest first.
pub proof fn lemma_open_group_without_points(commits: Seq<CommitView>, n: int)
    requires
        0 <= n < commits.len(),
    ensures
        split_upto(commits, Seq::empty(), n).0.len() == 0,
        split_upto(commits, Seq::empty(), n).1 == commits.take(n).reverse(),
    decreases n,
{
    let points = Seq::<Seq<char>>::empty();
    if n > 0 {
        lemma_open_group_without_points(commits, n - 1);
        let (groups, open) = split_upto(commits, points, n - 1);
        assert(!points.contains(commits[n - 1].0));
        assert(seq![commits[n - 1]] + open =~= commits.take(n).reverse());
    } else {
        assert(commits.take(0).reverse() =~= Seq::empty());
    }
}

/// A split loses no commit and invents none: the open group and the groups
/// behind it, laid end to end, are the commits dealt with so far, oldest
/// first, and no group is empty.
pub proof fn lemma_split_keeps_commits(commits: Seq<CommitView>, points: Seq<Seq<char>>, n: int)
    requires
        0 <= n <= commits.len(),
    ensures
        split_upto(commits, points, n).1 + concat_all(split_upto(commits, points, n).0)
            == commits.take(n).reverse(),
        forall|i: int|
            0 <= i < split_upto(commits, points, n).0.len() ==> (#[trigger] split_upto(
                commits,
                points,
                n,
            ).0[i]).len() > 0,
        n == commits.len() ==> split_upto(commits, points, n).1.len() == 0,
    decreases n,
{
    if n > 0 {
        lemma_split_keeps_commits(commits, points, n - 1);
        let (groups, open) = split_upto(commits, points, n - 1);
        let grown = seq![commits[n - 1]] + open;
        let before = commits.take(n - 1).reverse();
        assert(commits.take(n).reverse() =~= seq![commits[n - 1]] + before);
        if points.contains(commits[n - 1].0) || n == commits.len() {
            let all = seq![grown] + groups;
            assert(all[0] == grown);
            assert(all.drop_first() =~= groups);
            assert(Seq::<CommitView>::empty() + concat_all(all) =~= grown + concat_all(groups));
            assert(grown + concat_all(groups) =~= seq![commits[n - 1]] + (open + concat_all(
                groups,
            )));
        } else {
            assert(grown + concat_all(groups) =~= seq![commits[n - 1]] + (open + concat_all(
                groups,
            )));
        }
    } else {
        assert(commits.take(0).reverse() =~= Seq::empty());
        assert(Seq::<CommitView>::empty() + concat_all(Seq::<Seq<CommitView>>::empty())
            =~= Seq::empty());
    }
}

/// The groups of a split, laid end to end, are the commits of the branch,
/// oldest first; none of them is empty.
pub proof fn lemma_groups_cover_history(commits: Seq<CommitView>, points: Seq<Seq<char>>)
    ensures
        concat_all(split_spec(commits, points)) == commits.reverse(),
        forall|i: int|
            0 <= i < split_spec(commits, points).len() ==> (#[trigger] split_spec(
                commits,
                points,
            )[i]).len() > 0,
{
    lemma_split_keeps_commits(commits, points, commits.len() as int);
    assert(commits.take(commits.len() as int) =~= commits);
    let (groups, open) = split_upto(commits, points, commits.len() as int);
    assert(open + concat_all(groups) =~= concat_all(groups));
}

impl FormattedCommit {
    /// The commit that a match of the line pattern describes.
    pub fn from_captures(groups: Option<Vec<Option<String>>>) -> (r: Option<FormattedCommit>)
        ensures
            r is Some <==> commit_of(capture_views(groups)) is Some,
            r is Some ==> (r->0.sha@, r->0.title@) == commit_of(capture_views(groups))->0,
    {
        match groups {
            None => None,
            Some(found) => {
                if found.len() > 3 {
                    match (&found[1], &found[3]) {
                        (Some(sha), Some(title)) => Some(
                            FormattedCommit { sha: sha.clone(), title: title.clone() },
                        ),
                        _ => None,
                    }
                } else {
                    None
                }
            },
        }
    }

    /// The commit that a line of the history names, or nothing where the
    /// line is no such line.
    pub fn from_line(line: &str) -> (r: Option<FormattedCommit>)
        ensures
            r is Some <==> commit_of(captured(COMMIT_LINE@, line@)) is Some,
            r is Some ==> (r->0.sha@, r->0.title@) == commit_of(captured(COMMIT_LINE@, line@))->0,
    {
        FormattedCommit::from_captures(regex_captures(COMMIT_LINE, line))
    }

    /// A copy of the commit.
    pub fn copy(&self) -> (r: FormattedCommit)
        ensures
            r.sha@ == self.sha@,
            r.title@ == self.title@,
    {
        FormattedCommit { sha: self.sha.clone(), title: self.title.clone() }
    }
}

/// Cuts the commits of a branch, which come newest first, into groups at the
/// split points.  A commit whose id is a split point is the oldest commit of
/// its group, and the oldest commit of all always is.  The groups come
/// oldest first, as the branches will be stacked, and so do the commits in
/// each.
pub fn split_groups(commits: &Vec<FormattedCommit>, selections: &Vec<String>) -> (r: Vec<
    Vec<FormattedCommit>,
>)
    ensures
        group_views(r@) == split_spec(commit_views(commits@), text::views(selections@)),
{
    let ghost all = commit_views(commits@);
    let ghost points = text::views(selections@);
    let mut groups: Vec<Vec<FormattedCommit>> = Vec::new();
    let mut open: Vec<FormattedCommit> = Vec::new();
    let mut i: usize = 0;
    assert(group_views(groups@) =~= Seq::empty());
    assert(commit_views(open@) =~= Seq::empty());
    while i < commits.len()
        invariant
            i <= commits.len(),
            all == commit_views(commits@),
            points == text::views(selections@),
            group_views(groups@) == split_upto(all, points, i as int).0,
            commit_views(open@) == split_upto(all, points, i as int).1,
        decreases commits.len() - i,
    {
        let ghost old_groups = group_views(groups@);
        let ghost old_open = commit_views(open@);
        let commit = &commits[i];
        open.insert(0, commit.copy());
        let ghost grown = seq![all[i as int]] + old_open;
        assert(commit_views(open@) =~= grown);
        if i + 1 == commits.len() || branches::contains_name(selections, commit.sha.as_str()) {
            groups.insert(0, open);
            open = Vec::new();
            assert(group_views(groups@) =~= seq![grown] + old_groups);
            assert(commit_views(open@) =~= Seq::empty());
        } else {
            assert(group_views(groups@) =~= old_groups);
        }
        i += 1;
    }
    groups
}

/// The commands that split the current branch into the given groups.  They
/// make a branch of every group, the first on top of the current branch's
/// local parent and each further one on top of the one before; move the
/// children of the current branch onto the last of them; delete the current
/// branch; rebase what was moved; and leave the working tree on the last
/// branch.  The split needs a local parent to start from.
pub fn split_plan(git: &Git, groups: &Vec<Vec<FormattedCommit>>) -> (r: Result<
    Vec<GitCommand>,
    StackError,
>)
    ensures
        !git.inside ==> r == Err::<Vec<GitCommand>, StackError>(StackError::NotARepository),
        git.inside && branches::parent_spec(
            git.edges(),
            git.locals(),
            git.head@,
            BranchType::Local,
        ) is None ==> r == Err::<Vec<GitCommand>, StackError>(StackError::NoTrackedParent),
        git.inside && branches::parent_spec(
            git.edges(),
            git.locals(),
            git.head@,
            BranchType::Local,
        ) is Some ==> r is Ok && git::commands(r->Ok_0@) == split_plan_spec(
            git.edges(),
            git.head@,
            branches::parent_spec(git.edges(), git.locals(), git.head@, BranchType::Local)->0,
            group_views(groups@),
        ),
{
    if !git.inside {
        return Err(StackError::NotARepository);
    }
    let branch = git.head.as_str();
    let start = match git.parent_of(branch, BranchType::Local) {
        Ok(Some(parent)) => parent,
        _ => {
            return Err(StackError::NoTrackedParent);
        },
    };
    let ghost edges = git.edges();
    let ghost shape = group_views(groups@);
    let ghost goal = build_parts(branch@, start@, shape, 0);
    let mut out: Vec<GitCommand> = Vec::new();
    let mut parent = start.clone();
    let mut i: usize = 0;
    assert(git::commands(out@) =~= Seq::empty());
    while i < groups.len()
        invariant
            i <= groups.len(),
            shape == group_views(groups@),
            branch@ == git.head@,
            parent@ == top_part(branch@, start@, i as nat),
            git::commands(out@) + build_parts(branch@, parent@, shape, i as int) == goal,
        decreases groups.len() - i,
    {
        let ghost before = git::commands(out@);
        let name = text::concat3(branch, "-", text::decimal(i + 1).as_str());
        git::push_command(
            &mut out,
            "checkout",
            git::args4("-t", parent.as_str(), "-b", name.as_str()),
        );
        let ghost opened = git::commands(out@);
        let group = &groups[i];
        let mut k: usize = 0;
        while k < group.len()
            invariant
                k <= group.len(),
                group@ == groups@[i as int]@,
                shape == group_views(groups@),
                i < groups.len(),
                git::commands(out@) == opened + picks(shape[i as int]).take(k as int),
            decreases group.len() - k,
        {
            git::push_command(&mut out, "cherry-pick", git::args1(group[k].sha.as_str()));
            assert(git::commands(out@) =~= opened + picks(shape[i as int]).take(k + 1));
            k += 1;
        }
        assert(picks(shape[i as int]).take(group.len() as int) =~= picks(shape[i as int]));
        assert(git::commands(out@) + build_parts(branch@, name@, shape, i + 1) =~= before
            + build_parts(branch@, parent@, shape, i as int));
        parent = name;
        i += 1;
    }
    assert(git::commands(out@) =~= goal);
    let children = branches::find_children(&git.tracking, branch);
    git::reparent_onto(&children, parent.as_str(), &mut out);
    let ghost moved = git::commands(out@);
    git::push_command(&mut out, "branch", git::args2("-D", branch));
    git::push_command(&mut out, "switch", git::args1(parent.as_str()));
    git::push_command(&mut out, "rebase", git::args0());
    let ghost cleared = git::commands(out@);
    assert(cleared =~= moved + seq![
        ("branch"@, seq!["-D"@, branch@]),
        git::switch_to(parent@),
        ("rebase"@, Seq::<Seq<char>>::empty()),
    ]);
    let none = git::args0();
    let mut c: usize = 0;
    assert(text::views(children@).take(0) =~= Seq::empty());
    assert(git::commands(out@) =~= cleared + Seq::empty());
    while c < children.len()
        invariant
            c <= children.len(),
            edges == git.edges(),
            text::views(none@) == Seq::<Seq<char>>::empty(),
            git::commands(out@) == cleared + git::rebase_plans(
                edges,
                text::views(children@).take(c as int),
                Seq::<Seq<char>>::empty(),
                edges.len(),
            ),
        decreases children.len() - c,
    {
        let ghost seen = text::views(children@).take(c + 1);
        assert(seen.drop_last() =~= text::views(children@).take(c as int));
        assert(seen.last() == children@[c as int]@);
        git.rebase_onto(children[c].as_str(), &none, &mut out);
        assert(git::commands(out@) =~= cleared + git::rebase_plans(
            edges,
            seen,
            Seq::<Seq<char>>::empty(),
            edges.len(),
        ));
        c += 1;
    }
    assert(text::views(children@).take(children.len() as int) =~= text::views(children@));
    git::push_command(&mut out, "switch", git::args1(parent.as_str()));
    assert(git::commands(out@) =~= split_plan_spec(edges, branch@, start@, shape));
    Ok(out)
}

/// How many characters of a commit's id the chooser shows.
pub const SHOWN_SHA: usize = 6;

/// How many colours tell the branches of a split apart.
pub const COMMIT_COLORS: usize = 10;

/// The escape sequence of the colour at a place of the cycle that tells the
/// branches of a split apart.
pub open spec fn commit_color(place: int) -> Seq<char> {
    if place == 0 {
        ansi::WHITE@
    } else if place == 1 {
        ansi::BRIGHT_CYAN@
    } else if place == 2 {
        ansi::BRIGHT_GREEN@
    } else if place == 3 {
        ansi::BRIGHT_YELLOW@
    } else if place == 4 {
        ansi::BLUE@
    } else if place == 5 {
        ansi::GREEN@
    } else if place == 6 {
        ansi::MAGENTA@
    } else if place == 7 {
        ansi::RED@
    } else if place == 8 {
        ansi::YELLOW@
    } else {
        ansi::CYAN@
    }
}

/// The marks of a chooser as the split reads them: the last commit always
/// counts as marked.
pub open spec fn forced(selections: Seq<bool>) -> Seq<bool> {
    selections.update(selections.len() - 1, true)
}

/// The number of the branch that the `index`-th commit goes to: one more
/// than there are marks before it.
pub open spec fn branch_number(selections: Seq<bool>, index: int) -> nat {
    1 + selector::count_marked(forced(selections), index)
}

/// The short form of a commit: the first characters of its id and its
/// title.
pub open spec fn short_form(sha: Seq<char>, title: Seq<char>) -> Seq<char> {
    (if sha.len() <= SHOWN_SHA {
        sha
    } else {
        sha.take(SHOWN_SHA as int)
    }) + " "@ + title
}

/// How a commit is shown in the chooser of a split: in the colour of the
/// branch it goes to; with the number of that branch where the commit is
/// marked or the last one; in bold under the cursor.
pub open spec fn commit_render(
    sha: Seq<char>,
    title: Seq<char>,
    index: int,
    cursor_at: int,
    selections: Seq<bool>,
) -> Seq<char> {
    let number = branch_number(selections, index);
    let color = commit_color((number % COMMIT_COLORS as nat) as int);
    let plain = ansi::wrapped(color, short_form(sha, title));
    let tagged = if forced(selections)[index] {
        ansi::wrapped(color, plain + " -- Branch "@ + text::decimal_spec(number))
    } else {
        plain
    };
    if cursor_at == index {
        ansi::wrapped(ansi::BOLD@, tagged)
    } else {
        tagged
    }
}

/// The escape sequence of the colour at a place of the cycle.
pub fn color_at(place: usize) -> (r: &'static str)
    ensures
        r@ == commit_color(place as int),
{
    if place == 0 {
        ansi::WHITE
    } else if place == 1 {
        ansi::BRIGHT_CYAN
    } else if place == 2 {
        ansi::BRIGHT_GREEN
    } else if place == 3 {
        ansi::BRIGHT_YELLOW
    } else if place == 4 {
        ansi::BLUE
    } else if place == 5 {
        ansi::GREEN
    } else if place == 6 {
        ansi::MAGENTA
    } else if place == 7 {
        ansi::RED
    } else if place == 8 {
        ansi::YELLOW
    } else {
        ansi::CYAN
    }
}

impl FormattedCommit {
    /// The short form of the commit.
    pub fn to_string(&self) -> (r: String)
        ensures
            r@ == short_form(self.sha@, self.title@),
    {
        let v = text::chars_of(self.sha.as_str());
        let short = if v.len() <= SHOWN_SHA {
            self.sha.clone()
        } else {
            let s = text::substring(&v, 0, SHOWN_SHA);
            assert(v@.subrange(0, SHOWN_SHA as int) =~= v@.take(SHOWN_SHA as int));
            s
        };
        text::concat3(short.as_str(), " ", self.title.as_str())
    }

    /// Whether every character of `query` occurs in the title.
    pub fn filter(&self, query: &str) -> (r: bool)
        ensures
            r == forall|i: int| 0 <= i < query@.len() ==> self.title@.contains(#[trigger] query@[i]),
    {
        let q = text::chars_of(query);
        let t = text::chars_of(self.title.as_str());
        let mut i: usize = 0;
        while i < q.len()
            invariant
                i <= q.len(),
                q@ == query@,
                t@ == self.title@,
                forall|k: int| 0 <= k < i ==> t@.contains(#[trigger] q@[k]),
            decreases q.len() - i,
        {
            let at = text::find(&t, q[i], 0);
            proof {
                text::lemma_find_bounds(t@, q@[i as int], 0);
            }
            if at >= t.len() {
                assert(!t@.contains(q@[i as int]));
                return false;
            }
            assert(t@[at as int] == q@[i as int]);
            i += 1;
        }
        true
    }
}

impl CandyOption for FormattedCommit {
    open spec fn id_spec(&self) -> Seq<char> {
        self.sha@
    }

    open spec fn render_spec(&self, index: int, cursor_at: int, selections: Seq<bool>) -> Seq<char> {
        commit_render(self.sha@, self.title@, index, cursor_at, selections)
    }

    fn id(&self) -> (r: String) {
        self.sha.clone()
    }

    fn render(&self, index: usize, cursor_at: usize, selections: &Vec<bool>) -> (r: String) {
        let ghost marks = forced(selections@);
        let last_idx = selections.len() - 1;
        let mut branch_id: usize = 1;
        let mut k: usize = 0;
        while k < index
            invariant
                k <= index < selections@.len(),
                selections@.len() <= usize::MAX,
                last_idx == selections@.len() - 1,
                marks == forced(selections@),
                branch_id == 1 + selector::count_marked(marks, k as int),
                branch_id <= k + 1,
            decreases index - k,
        {
            if k == last_idx || selections[k] {
                branch_id += 1;
            }
            k += 1;
        }
        let color = color_at(branch_id % COMMIT_COLORS);
        let mut out = text::concat3(color, self.to_string().as_str(), ansi::CLEAR);
        if index == last_idx || selections[index] {
            let tagged = text::concat3(
                out.as_str(),
                " -- Branch ",
                text::decimal(branch_id).as_str(),
            );
            out = text::concat3(color, tagged.as_str(), ansi::CLEAR);
        }
        if cursor_at == index {
            out = text::concat3(ansi::BOLD, out.as_str(), ansi::CLEAR);
        }
        out
    }
}

} // verus!
