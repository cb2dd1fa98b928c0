//! The branch graph: which branch tracks which, read from the verbose branch
//! listing of the repository.
//!
//! A line of that listing reads `<branch-name> <sha> [<upstream>] <subject>`,
//! the current branch's line with a `*` before it.  The bracketed group is
//! there only for a branch that tracks an upstream; what follows a `:` in it
//! (how far ahead or behind the branch is) is no part of the upstream's name.

use vstd::prelude::*;
use crate::errors::StackError;
use crate::git::Git;
use crate::text;

verus! {

/// Which parents a question about lineage is meant to see.
#[derive(Clone, Copy, Debug, PartialEq, Eq, Structural)]
pub enum BranchType {
    /// Only a parent that is itself a local branch.
    Local,
    /// Only a parent that is no local branch.
    Remote,
    /// Any tracked parent.
    All,
}

/// One tracking edge of the listing: `branch` follows `upstream`.
#[derive(Debug)]
pub struct Tracking {
    pub branch: String,
    pub upstream: String,
}

/// What one line of the listing says.
#[derive(Debug)]
pub struct BranchLine {
    pub name: String,
    pub upstream: Option<String>,
}

/// A character of an abbreviated commit id.
pub open spec fn is_hex(c: char) -> bool {
    ('0' <= c && c <= '9') || ('a' <= c && c <= 'f')
}

/// Every character is one of an abbreviated commit id.
pub open spec fn all_hex(s: Seq<char>) -> bool {
    forall|i: int| 0 <= i < s.len() ==> is_hex(#[trigger] s[i])
}

/// Where the branch's name starts: at the first word, or at the second one
/// where the first is the `*` of the current branch.
pub open spec fn name_start(line: Seq<char>) -> int {
    let first = text::skip_spaces_spec(line, 0);
    let first_end = text::skip_word_spec(line, first);
    if first_end - first == 1 && line[first] == '*' {
        text::skip_spaces_spec(line, first_end)
    } else {
        first
    }
}

/// Where the branch's name ends.
pub open spec fn name_end(line: Seq<char>) -> int {
    text::skip_word_spec(line, name_start(line))
}

/// Where the commit id starts.
pub open spec fn sha_start(line: Seq<char>) -> int {
    text::skip_spaces_spec(line, name_end(line))
}

/// Where the commit id ends.
pub open spec fn sha_end(line: Seq<char>) -> int {
    text::skip_word_spec(line, sha_start(line))
}

/// Where the bracketed group starts, if the line has one.
pub open spec fn marker_start(line: Seq<char>) -> int {
    text::skip_spaces_spec(line, sha_end(line))
}

/// Where the bracketed group closes: at the first `]` behind its `[`.
pub open spec fn marker_end(line: Seq<char>) -> int {
    text::find_spec(line, ']', marker_start(line) + 1)
}

/// The line names a branch and a commit: a word, then a word of hex digits.
pub open spec fn is_branch_line(line: Seq<char>) -> bool {
    &&& name_start(line) < name_end(line)
    &&& sha_start(line) < sha_end(line)
    &&& all_hex(line.subrange(sha_start(line), sha_end(line)))
}

/// The line is a branch line with a bracketed upstream marker behind the
/// commit id.
pub open spec fn has_marker(line: Seq<char>) -> bool {
    &&& is_branch_line(line)
    &&& marker_start(line) < line.len()
    &&& line[marker_start(line)] == '['
    &&& marker_end(line) < line.len()
}

/// The branch that the line is about.
pub open spec fn line_name(line: Seq<char>) -> Seq<char> {
    line.subrange(name_start(line), name_end(line))
}

/// What stands in the brackets, up to the first `:`.
pub open spec fn bare_upstream(group: Seq<char>) -> Seq<char> {
    group.take(text::find_spec(group, ':', 0))
}

/// The upstream that a line with a marker names.
pub open spec fn line_upstream(line: Seq<char>) -> Seq<char> {
    bare_upstream(line.subrange(marker_start(line) + 1, marker_end(line)))
}

/// Whether the character is one of an abbreviated commit id.
pub fn hex_digit(c: char) -> (r: bool)
    ensures
        r == is_hex(c),
{
    ('0' <= c && c <= '9') || ('a' <= c && c <= 'f')
}

/// The bare name of the upstream that a bracketed group names: the group up
/// to its first `:`.  No group names nothing.
pub fn extract_parent(parent: Option<&str>) -> (r: String)
    ensures
        r@ == match parent {
            Some(group) => bare_upstream(group@),
            None => Seq::empty(),
        },
{
    match parent {
        Some(group) => {
            let g = text::chars_of(group);
            let colon = text::find(&g, ':', 0);
            assert(g@.subrange(0, colon as int) == g@.take(colon as int));
            text::substring(&g, 0, colon)
        },
        None => String::new(),
    }
}

/// Reads one line of the verbose branch listing.  A line that is no branch
/// line says nothing.
pub fn parse_branch_line(line: &str) -> (r: Option<BranchLine>)
    ensures
        r is Some <==> is_branch_line(line@),
        r is Some ==> r->0.name@ == line_name(line@),
        r is Some ==> (r->0.upstream is Some <==> has_marker(line@)),
        r is Some && r->0.upstream is Some ==> r->0.upstream->0@ == line_upstream(line@),
{
    let v = text::chars_of(line);
    let n = v.len();
    let first = text::skip_spaces(&v, 0);
    let first_end = text::skip_word(&v, first);
    let n0 = if first_end - first == 1 && v[first] == '*' {
        text::skip_spaces(&v, first_end)
    } else {
        first
    };
    let n1 = text::skip_word(&v, n0);
    let h0 = text::skip_spaces(&v, n1);
    let h1 = text::skip_word(&v, h0);
    if n0 >= n1 || h0 >= h1 {
        return None;
    }
    let mut i: usize = h0;
    while i < h1
        invariant
            h0 <= i <= h1 <= v.len(),
            v@ == line@,
            h0 == sha_start(line@),
            h1 == sha_end(line@),
            forall|j: int| h0 <= j < i ==> is_hex(#[trigger] v@[j]),
        decreases h1 - i,
    {
        if !hex_digit(v[i]) {
            assert(!is_hex(v@.subrange(h0 as int, h1 as int)[i - h0]));
            return None;
        }
        i += 1;
    }
    assert(all_hex(v@.subrange(h0 as int, h1 as int)));
    let name = text::substring(&v, n0, n1);
    let m0 = text::skip_spaces(&v, h1);
    if m0 < n && v[m0] == '[' {
        let m1 = text::find(&v, ']', m0 + 1);
        if m1 < n {
            let group = text::substring(&v, m0 + 1, m1);
            let upstream = extract_parent(Some(group.as_str()));
            return Some(BranchLine { name, upstream: Some(upstream) });
        }
    }
    Some(BranchLine { name, upstream: None })
}

/// The tracking edges as pairs of views.
pub open spec fn pairs(v: Seq<Tracking>) -> Seq<(Seq<char>, Seq<char>)> {
    Seq::new(v.len(), |i: int| (v[i].branch@, v[i].upstream@))
}

/// The tracking edges that a listing holds: one for each line with an
/// upstream marker, in the listing's order, and none for any other line.
pub open spec fn listed_edges(lines: Seq<Seq<char>>) -> Seq<(Seq<char>, Seq<char>)>
    decreases lines.len(),
{
    if lines.len() == 0 {
        Seq::empty()
    } else {
        let init = listed_edges(lines.drop_last());
        if has_marker(lines.last()) {
            init.push((line_name(lines.last()), line_upstream(lines.last())))
        } else {
            init
        }
    }
}

/// The upstream that `branch` tracks: what the last edge about it says.
pub open spec fn upstream_of(edges: Seq<(Seq<char>, Seq<char>)>, branch: Seq<char>) -> Option<
    Seq<char>,
>
    decreases edges.len(),
{
    if edges.len() == 0 {
        None
    } else if edges.last().0 == branch {
        Some(edges.last().1)
    } else {
        upstream_of(edges.drop_last(), branch)
    }
}

/// No later edge speaks of the branch of edge `i`.
pub open spec fn is_last_word(edges: Seq<(Seq<char>, Seq<char>)>, i: int) -> bool {
    forall|j: int| i < j < edges.len() ==> (#[trigger] edges[j]).0 != edges[i].0
}

/// The branches among the first `n` edges whose upstream is `parent`, in the
/// listing's order.
pub open spec fn children_upto(edges: Seq<(Seq<char>, Seq<char>)>, parent: Seq<char>, n: int) -> Seq<
    Seq<char>,
>
    decreases n,
{
    if n <= 0 {
        Seq::empty()
    } else {
        let init = children_upto(edges, parent, n - 1);
        if edges[n - 1].1 == parent && is_last_word(edges, n - 1) {
            init.push(edges[n - 1].0)
        } else {
            init
        }
    }
}

/// The branches whose upstream is `parent`.
pub open spec fn children_spec(edges: Seq<(Seq<char>, Seq<char>)>, parent: Seq<char>) -> Seq<
    Seq<char>,
> {
    children_upto(edges, parent, edges.len() as int)
}

/// The parent that a question of the given kind sees.
pub open spec fn parent_spec(
    edges: Seq<(Seq<char>, Seq<char>)>,
    locals: Seq<Seq<char>>,
    branch: Seq<char>,
    kind: BranchType,
) -> Option<Seq<char>> {
    match upstream_of(edges, branch) {
        None => None,
        Some(parent) => match kind {
            BranchType::All => Some(parent),
            BranchType::Local => if locals.contains(parent) {
                Some(parent)
            } else {
                None
            },
            BranchType::Remote => if locals.contains(parent) {
                None
            } else {
                Some(parent)
            },
        },
    }
}

/// A listing yields exactly one edge for each of its lines that has an
/// upstream marker, and none for the others: the edges are those lines, in
/// order, each read as its branch and its upstream.
pub proof fn lemma_one_parent_per_marked_line(lines: Seq<Seq<char>>)
    ensures
        listed_edges(lines).len() == lines.filter(|l: Seq<char>| has_marker(l)).len(),
        listed_edges(lines) == lines.filter(|l: Seq<char>| has_marker(l)).map_values(
            |l: Seq<char>| (line_name(l), line_upstream(l)),
        ),
    decreases lines.len(),
{
    reveal(Seq::filter);
    let marked = |l: Seq<char>| has_marker(l);
    let read = |l: Seq<char>| (line_name(l), line_upstream(l));
    if lines.len() > 0 {
        lemma_one_parent_per_marked_line(lines.drop_last());
        let init = lines.drop_last().filter(marked);
        if has_marker(lines.last()) {
            assert(lines.filter(marked) == init.push(lines.last()));
            assert(init.push(lines.last()).map_values(read) =~= init.map_values(read).push(
                read(lines.last()),
            ));
        } else {
            assert(lines.filter(marked) == init);
        }
    } else {
        assert(lines.filter(marked).map_values(read) =~= Seq::empty());
    }
}

/// The edge that decides a branch's upstream is the last one about it.
pub proof fn lemma_upstream_is_last_word(
    edges: Seq<(Seq<char>, Seq<char>)>,
    branch: Seq<char>,
    parent: Seq<char>,
)
    ensures
        upstream_of(edges, branch) == Some(parent) <==> exists|i: int|
            0 <= i < edges.len() && #[trigger] edges[i] == (branch, parent) && is_last_word(
                edges,
                i,
            ),
    decreases edges.len(),
{
    if edges.len() > 0 {
        let init = edges.drop_last();
        let last = edges.len() - 1;
        lemma_upstream_is_last_word(init, branch, parent);
        if edges.last().0 == branch {
            if edges.last().1 == parent {
                assert(edges[last] == (branch, parent) && is_last_word(edges, last));
            } else {
                assert forall|i: int|
                    0 <= i < edges.len() && #[trigger] edges[i] == (branch, parent) implies !is_last_word(
                    edges,
                    i,
                ) by {
                    assert(edges[last].0 == edges[i].0);
                }
            }
        } else {
            if upstream_of(init, branch) == Some(parent) {
                let i = choose|i: int|
                    0 <= i < init.len() && #[trigger] init[i] == (branch, parent) && is_last_word(
                        init,
                        i,
                    );
                assert(edges[i] == (branch, parent));
                assert forall|j: int| i < j < edges.len() implies (#[trigger] edges[j]).0
                    != edges[i].0 by {
                    if j < last {
                        assert(init[j].0 != init[i].0);
                    }
                }
            }
            if exists|i: int|
                0 <= i < edges.len() && #[trigger] edges[i] == (branch, parent) && is_last_word(
                    edges,
                    i,
                ) {
                let i = choose|i: int|
                    0 <= i < edges.len() && #[trigger] edges[i] == (branch, parent) && is_last_word(
                        edges,
                        i,
                    );
                assert(i < last);
                assert(init[i] == (branch, parent));
                assert forall|j: int| i < j < init.len() implies (#[trigger] init[j]).0
                    != init[i].0 by {
                    assert(edges[j].0 != edges[i].0);
                }
            }
        }
    }
}

/// What `children_upto` holds: the branches of the deciding edges among the
/// first `n` that name `parent`.
pub proof fn lemma_children_upto_contains(
    edges: Seq<(Seq<char>, Seq<char>)>,
    parent: Seq<char>,
    n: int,
    branch: Seq<char>,
)
    requires
        0 <= n <= edges.len(),
    ensures
        children_upto(edges, parent, n).contains(branch) <==> exists|i: int|
            0 <= i < n && #[trigger] edges[i] == (branch, parent) && is_last_word(edges, i),
    decreases n,
{
    if n > 0 {
        lemma_children_upto_contains(edges, parent, n - 1, branch);
        let init = children_upto(edges, parent, n - 1);
        if edges[n - 1].1 == parent && is_last_word(edges, n - 1) {
            let all = init.push(edges[n - 1].0);
            assert(all.contains(branch) <==> init.contains(branch) || edges[n - 1].0 == branch) by {
                if init.contains(branch) {
                    let k = choose|k: int| 0 <= k < init.len() && init[k] == branch;
                    assert(all[k] == branch);
                }
                if edges[n - 1].0 == branch {
                    assert(all[all.len() - 1] == branch);
                }
            }
            if edges[n - 1].0 == branch {
                assert(edges[n - 1] == (branch, parent));
            }
        }
    }
}

/// Children and parents are each other's inverse: `branch` is among the
/// children of `parent` exactly when `parent` is the upstream that `branch`
/// tracks.
pub proof fn lemma_children_inverse_of_parents(
    edges: Seq<(Seq<char>, Seq<char>)>,
    locals: Seq<Seq<char>>,
    branch: Seq<char>,
    parent: Seq<char>,
)
    ensures
        children_spec(edges, parent).contains(branch) <==> parent_spec(
            edges,
            locals,
            branch,
            BranchType::All,
        ) == Some(parent),
{
    lemma_children_upto_contains(edges, parent, edges.len() as int, branch);
    lemma_upstream_is_last_word(edges, branch, parent);
}

/// The tracking edges of a verbose branch listing.
pub fn parse_parents(listing: &str) -> (r: Vec<Tracking>)
    ensures
        pairs(r@) == listed_edges(text::lines_spec(listing@)),
{
    let lines = text::lines(listing);
    let mut edges: Vec<Tracking> = Vec::new();
    let mut i: usize = 0;
    assert(text::views(lines@).take(0) =~= Seq::empty());
    while i < lines.len()
        invariant
            i <= lines.len(),
            pairs(edges@) =~= listed_edges(text::views(lines@).take(i as int)),
        decreases lines.len() - i,
    {
        let ghost seen = text::views(lines@).take(i + 1);
        assert(seen.drop_last() =~= text::views(lines@).take(i as int));
        assert(seen.last() == lines@[i as int]@);
        let ghost before = pairs(edges@);
        match parse_branch_line(lines[i].as_str()) {
            Some(BranchLine { name, upstream: Some(upstream) }) => {
                edges.push(Tracking { branch: name, upstream });
                assert(pairs(edges@) =~= before.push(
                    (line_name(seen.last()), line_upstream(seen.last())),
                ));
            },
            _ => {},
        }
        i += 1;
    }
    assert(text::views(lines@).take(lines.len() as int) =~= text::views(lines@));
    edges
}

/// The upstream that `branch` tracks, if the edges name one.
pub fn find_upstream<'a>(edges: &'a Vec<Tracking>, branch: &str) -> (r: Option<&'a String>)
    ensures
        r is Some <==> upstream_of(pairs(edges@), branch@) is Some,
        r is Some ==> r->0@ == upstream_of(pairs(edges@), branch@)->0,
{
    let mut i: usize = edges.len();
    assert(pairs(edges@).take(edges.len() as int) =~= pairs(edges@));
    while i > 0
        invariant
            i <= edges.len(),
            upstream_of(pairs(edges@), branch@) == upstream_of(
                pairs(edges@).take(i as int),
                branch@,
            ),
        decreases i,
    {
        assert(pairs(edges@).take(i as int).drop_last() =~= pairs(edges@).take(i - 1));
        if *edges[i - 1].branch.as_str() == *branch {
            return Some(&edges[i - 1].upstream);
        }
        i -= 1;
    }
    None
}

/// Whether `name` is one of `names`.
pub fn contains_name(names: &Vec<String>, name: &str) -> (r: bool)
    ensures
        r == text::views(names@).contains(name@),
{
    let mut i: usize = 0;
    while i < names.len()
        invariant
            i <= names.len(),
            forall|j: int| 0 <= j < i ==> text::views(names@)[j] != name@,
        decreases names.len() - i,
    {
        if *names[i].as_str() == *name {
            assert(text::views(names@)[i as int] == name@);
            return true;
        }
        i += 1;
    }
    false
}

/// The branches whose tracked upstream is `parent`, in the listing's order.
pub fn find_children(edges: &Vec<Tracking>, parent: &str) -> (r: Vec<String>)
    ensures
        text::views(r@) == children_spec(pairs(edges@), parent@),
{
    let mut out: Vec<String> = Vec::new();
    let mut i: usize = 0;
    while i < edges.len()
        invariant
            i <= edges.len(),
            text::views(out@) =~= children_upto(pairs(edges@), parent@, i as int),
        decreases edges.len() - i,
    {
        let ghost before = text::views(out@);
        if *edges[i].upstream.as_str() == *parent {
            let mut j: usize = i + 1;
            let mut last_word = true;
            while j < edges.len()
                invariant
                    i < j <= edges.len(),
                    last_word == (forall|k: int|
                        i < k < j ==> (#[trigger] pairs(edges@)[k]).0 != pairs(edges@)[i as int].0),
                decreases edges.len() - j,
            {
                if edges[j].branch == edges[i].branch {
                    assert(pairs(edges@)[j as int].0 == pairs(edges@)[i as int].0);
                    last_word = false;
                }
                j += 1;
            }
            if last_word {
                out.push(edges[i].branch.clone());
                assert(text::views(out@) =~= before.push(pairs(edges@)[i as int].0));
            }
        }
        i += 1;
    }
    out
}

impl Git {
    /// The tracking edges of the repository.
    pub open spec fn edges(&self) -> Seq<(Seq<char>, Seq<char>)> {
        pairs(self.tracking@)
    }

    /// The names of the local branches.
    pub open spec fn locals(&self) -> Seq<Seq<char>> {
        text::views(self.heads@)
    }

    /// The branch that is checked out.
    pub fn current_branch(&self) -> (r: Result<String, StackError>)
        ensures
            !self.inside ==> r == Err::<String, StackError>(StackError::NotARepository),
            self.inside ==> r is Ok && r->Ok_0@ == self.head@,
    {
        if !self.inside {
            return Err(StackError::NotARepository);
        }
        Ok(self.head.clone())
    }

    /// All local branches.
    pub fn branches(&self) -> (r: Result<&Vec<String>, StackError>)
        ensures
            !self.inside ==> r == Err::<&Vec<String>, StackError>(StackError::NotARepository),
            self.inside ==> r is Ok && r->Ok_0 == &self.heads,
    {
        if !self.inside {
            return Err(StackError::NotARepository);
        }
        Ok(&self.heads)
    }

    /// Which branch tracks which upstream: one edge for each line of the
    /// listing that has an upstream marker.
    pub fn parents(&self) -> (r: Result<&Vec<Tracking>, StackError>)
        ensures
            !self.inside ==> r == Err::<&Vec<Tracking>, StackError>(StackError::NotARepository),
            self.inside ==> r is Ok && r->Ok_0 == &self.tracking,
    {
        if !self.inside {
            return Err(StackError::NotARepository);
        }
        Ok(&self.tracking)
    }

    /// The tracked parent of `branch` that a question of the given kind sees.
    /// A parent is remote when it is no local branch.
    pub fn parent_of(&self, branch: &str, branch_type: BranchType) -> (r: Result<
        Option<String>,
        StackError,
    >)
        ensures
            !self.inside ==> r == Err::<Option<String>, StackError>(StackError::NotARepository),
            self.inside ==> r is Ok && (r->Ok_0 is Some <==> parent_spec(
                self.edges(),
                self.locals(),
                branch@,
                branch_type,
            ) is Some),
            self.inside && r->Ok_0 is Some ==> r->Ok_0->0@ == parent_spec(
                self.edges(),
                self.locals(),
                branch@,
                branch_type,
            )->0,
    {
        if !self.inside {
            return Err(StackError::NotARepository);
        }
        match find_upstream(&self.tracking, branch) {
            None => Ok(None),
            Some(parent) => {
                let local = contains_name(&self.heads, parent.as_str());
                match branch_type {
                    BranchType::All => Ok(Some(parent.clone())),
                    BranchType::Local => if local {
                        Ok(Some(parent.clone()))
                    } else {
                        Ok(None)
                    },
                    BranchType::Remote => if local {
                        Ok(None)
                    } else {
                        Ok(Some(parent.clone()))
                    },
                }
            },
        }
    }

    /// All direct children of `branch`: the branches whose tracked upstream
    /// it is.
    pub fn children_of(&self, branch: &str) -> (r: Result<Vec<String>, StackError>)
        ensures
            !self.inside ==> r == Err::<Vec<String>, StackError>(StackError::NotARepository),
            self.inside ==> r is Ok && text::views(r->Ok_0@) == children_spec(
                self.edges(),
                branch@,
            ),
            self.inside ==> forall|child: Seq<char>|
                text::views(r->Ok_0@).contains(child) <==> parent_spec(
                    self.edges(),
                    self.locals(),
                    child,
                    BranchType::All,
                ) == Some(branch@),
    {
        if !self.inside {
            return Err(StackError::NotARepository);
        }
        let out = find_children(&self.tracking, branch);
        proof {
            assert forall|child: Seq<char>|
                text::views(out@).contains(child) <==> parent_spec(
                    self.edges(),
                    self.locals(),
                    child,
                    BranchType::All,
                ) == Some(branch@) by {
                lemma_children_inverse_of_parents(self.edges(), self.locals(), child, branch@);
            }
        }
        Ok(out)
    }
}

} // verus!
