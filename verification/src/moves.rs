//! Moving along the stack: one branch up or down, or all the way to the top
//! or the bottom.

use vstd::prelude::*;
use vstd::string::StringExecFns;
use crate::branches;
use crate::branches::BranchType;
use crate::errors::StackError;
use crate::git::Git;
use crate::text;

verus! {

/// Where a move leads.
#[derive(Debug)]
pub struct MovePlan {
    /// The branches to check out, one after the other.
    pub path: Vec<String>,
    /// The branches among which the user has to choose how to go on; none
    /// where the move is over.
    pub choices: Vec<String>,
    /// Whether the direction was understood.
    pub known: bool,
}

/// A move as plain values: the path, the choices, and whether the direction
/// was understood.
pub type MoveView = (Seq<Seq<char>>, Seq<Seq<char>>, bool);

/// The way up from `branch`, level by level for at most `fuel` levels, as
/// long as each branch has exactly one child; and the children among which
/// to choose where a branch has several.
pub open spec fn climb(edges: Seq<(Seq<char>, Seq<char>)>, branch: Seq<char>, fuel: nat) -> (
    Seq<Seq<char>>,
    Seq<Seq<char>>,
)
    decreases fuel,
{
    let children = branches::children_spec(edges, branch);
    if children.len() == 0 {
        (Seq::empty(), Seq::empty())
    } else if children.len() > 1 {
        (Seq::empty(), children)
    } else if fuel == 0 {
        (seq![children[0]], Seq::empty())
    } else {
        let (path, choices) = climb(edges, children[0], (fuel - 1) as nat);
        (seq![children[0]] + path, choices)
    }
}

/// The way down from `branch`: its local parent, the parent of that, and so
/// on to the root, for at most `fuel` further levels.
pub open spec fn descend(
    edges: Seq<(Seq<char>, Seq<char>)>,
    locals: Seq<Seq<char>>,
    branch: Seq<char>,
    fuel: nat,
) -> Seq<Seq<char>>
    decreases fuel,
{
    match branches::parent_spec(edges, locals, branch, BranchType::Local) {
        None => Seq::empty(),
        Some(parent) => if fuel == 0 {
            seq![parent]
        } else {
            seq![parent] + descend(edges, locals, parent, (fuel - 1) as nat)
        },
    }
}

/// Where a move in the given direction leads from the current branch.
pub open spec fn move_spec(
    edges: Seq<(Seq<char>, Seq<char>)>,
    locals: Seq<Seq<char>>,
    head: Seq<char>,
    command: Seq<char>,
) -> MoveView {
    if command == "bu"@ || command == "up"@ {
        let (path, choices) = climb(edges, head, 0);
        (path, choices, true)
    } else if command == "bd"@ || command == "down"@ {
        (descend(edges, locals, head, 0), Seq::empty(), true)
    } else if command == "top"@ {
        let (path, choices) = climb(edges, head, edges.len());
        (path, choices, true)
    } else if command == "bottom"@ {
        (descend(edges, locals, head, edges.len()), Seq::empty(), true)
    } else {
        (Seq::empty(), Seq::empty(), false)
    }
}

fn climb_into(git: &Git, branch: &str, fuel: usize, path: &mut Vec<String>) -> (r: Vec<String>)
    ensures
        text::views(final(path)@) == text::views(old(path)@) + climb(
            git.edges(),
            branch@,
            fuel as nat,
        ).0,
        text::views(r@) == climb(git.edges(), branch@, fuel as nat).1,
    decreases fuel,
{
    let ghost before = text::views(path@);
    let children = branches::find_children(&git.tracking, branch);
    if children.len() == 0 {
        assert(text::views(path@) =~= before + Seq::empty());
        let none: Vec<String> = Vec::new();
        assert(text::views(none@) =~= Seq::empty());
        none
    } else if children.len() > 1 {
        assert(text::views(path@) =~= before + Seq::empty());
        children
    } else {
        path.push(children[0].clone());
        assert(text::views(path@) =~= before + seq![children@[0]@]);
        if fuel == 0 {
            let none: Vec<String> = Vec::new();
            assert(text::views(none@) =~= Seq::empty());
            none
        } else {
            let choices = climb_into(git, children[0].as_str(), fuel - 1, path);
            assert(text::views(path@) =~= before + (seq![children@[0]@] + climb(
                git.edges(),
                children@[0]@,
                (fuel - 1) as nat,
            ).0));
            choices
        }
    }
}

fn descend_into(git: &Git, branch: &str, fuel: usize, path: &mut Vec<String>)
    requires
        git.inside,
    ensures
        text::views(final(path)@) == text::views(old(path)@) + descend(
            git.edges(),
            git.locals(),
            branch@,
            fuel as nat,
        ),
    decreases fuel,
{
    let ghost before = text::views(path@);
    match git.parent_of(branch, BranchType::Local) {
        Ok(Some(parent)) => {
            path.push(parent.clone());
            assert(text::views(path@) =~= before + seq![parent@]);
            if fuel > 0 {
                descend_into(git, parent.as_str(), fuel - 1, path);
                assert(text::views(path@) =~= before + (seq![parent@] + descend(
                    git.edges(),
                    git.locals(),
                    parent@,
                    (fuel - 1) as nat,
                )));
            }
        },
        _ => {
            assert(text::views(path@) =~= before + Seq::empty());
        },
    }
}

/// Where a move in the given direction leads from the current branch.
/// `up` goes to the only child, or asks which child where there are
/// several; `down` goes to the local parent; `top` goes up as far as each
/// branch has one child, and asks where the way forks; `bottom` goes down
/// to the root.  An empty path without choices means that the current
/// branch is already where the move would lead.
pub fn move_relative(git: &Git, command: &str) -> (r: Result<MovePlan, StackError>)
    ensures
        !git.inside ==> r is Err && r->Err_0 == StackError::NotARepository,
        git.inside ==> r is Ok && (
            text::views(r->Ok_0.path@),
            text::views(r->Ok_0.choices@),
            r->Ok_0.known,
        ) == move_spec(git.edges(), git.locals(), git.head@, command@),
{
    if !git.inside {
        return Err(StackError::NotARepository);
    }
    let mut path: Vec<String> = Vec::new();
    assert(text::views(path@) =~= Seq::empty());
    let head = git.head.as_str();
    if *command == *"bu" || *command == *"up" {
        let choices = climb_into(git, head, 0, &mut path);
        assert(text::views(path@) =~= climb(git.edges(), head@, 0).0);
        Ok(MovePlan { path, choices, known: true })
    } else if *command == *"bd" || *command == *"down" {
        descend_into(git, head, 0, &mut path);
        assert(text::views(path@) =~= descend(git.edges(), git.locals(), head@, 0));
        let choices: Vec<String> = Vec::new();
        assert(text::views(choices@) =~= Seq::empty());
        Ok(MovePlan { path, choices, known: true })
    } else if *command == *"top" {
        let choices = climb_into(git, head, git.tracking.len(), &mut path);
        assert(text::views(path@) =~= climb(git.edges(), head@, git.edges().len()).0);
        Ok(MovePlan { path, choices, known: true })
    } else if *command == *"bottom" {
        descend_into(git, head, git.tracking.len(), &mut path);
        assert(text::views(path@) =~= descend(
            git.edges(),
            git.locals(),
            head@,
            git.edges().len(),
        ));
        let choices: Vec<String> = Vec::new();
        assert(text::views(choices@) =~= Seq::empty());
        Ok(MovePlan { path, choices, known: true })
    } else {
        let choices: Vec<String> = Vec::new();
        assert(text::views(choices@) =~= Seq::empty());
        Ok(MovePlan { path, choices, known: false })
    }
}

} // verus!
