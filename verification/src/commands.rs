//! The command line: which operation the arguments ask for.

use vstd::prelude::*;
use vstd::string::StringExecFns;
use crate::git;
use crate::text;

verus! {

/// An operation of the command line.
#[derive(Debug)]
pub enum Command {
    /// No argument was given.
    Missing,
    /// Switch to a branch; without a name the user is asked for one.
    Switch { branch: Option<String> },
    /// Create a branch on top of the current one.
    Create { branch: Option<String> },
    /// Commit, with the arguments handed on as they are.
    Commit { args: Vec<String> },
    /// Show the usage, or the help for one command.
    Help { topic: Option<String> },
    Init,
    Log,
    Merge,
    Reviews,
    Split,
    Submit,
    Sync,
    /// Move along the stack.
    Move { direction: String },
    /// Internals, by name.
    Debug { what: Option<String> },
    /// Nothing that is known.
    Unknown { command: String },
}

/// A command as plain values.
pub ghost enum CommandView {
    Missing,
    Switch { branch: Option<Seq<char>> },
    Create { branch: Option<Seq<char>> },
    Commit { args: Seq<Seq<char>> },
    Help { topic: Option<Seq<char>> },
    Init,
    Log,
    Merge,
    Reviews,
    Split,
    Submit,
    Sync,
    Move { direction: Seq<char> },
    Debug { what: Option<Seq<char>> },
    Unknown { command: Seq<char> },
}

/// An optional string as a plain value.
pub open spec fn opt_view(s: Option<String>) -> Option<Seq<char>> {
    match s {
        Some(s) => Some(s@),
        None => None,
    }
}

impl Command {
    pub open spec fn view(&self) -> CommandView {
        match self {
            Command::Missing => CommandView::Missing,
            Command::Switch { branch } => CommandView::Switch { branch: opt_view(*branch) },
            Command::Create { branch } => CommandView::Create { branch: opt_view(*branch) },
            Command::Commit { args } => CommandView::Commit { args: text::views(args@) },
            Command::Help { topic } => CommandView::Help { topic: opt_view(*topic) },
            Command::Init => CommandView::Init,
            Command::Log => CommandView::Log,
            Command::Merge => CommandView::Merge,
            Command::Reviews => CommandView::Reviews,
            Command::Split => CommandView::Split,
            Command::Submit => CommandView::Submit,
            Command::Sync => CommandView::Sync,
            Command::Move { direction } => CommandView::Move { direction: direction@ },
            Command::Debug { what } => CommandView::Debug { what: opt_view(*what) },
            Command::Unknown { command } => CommandView::Unknown { command: command@ },
        }
    }
}

/// The first of the arguments behind the command.
pub open spec fn first_arg(argv: Seq<Seq<char>>) -> Option<Seq<char>> {
    if argv.len() > 1 {
        Some(argv[1])
    } else {
        None
    }
}

/// The last of the arguments behind the command.
pub open spec fn last_arg(argv: Seq<Seq<char>>) -> Option<Seq<char>> {
    if argv.len() > 1 {
        Some(argv.last())
    } else {
        None
    }
}

/// The operation that the arguments ask for.  The first argument names it;
/// what follows belongs to it.
pub open spec fn command_spec(argv: Seq<Seq<char>>) -> CommandView {
    if argv.len() == 0 {
        CommandView::Missing
    } else {
        let name = argv[0];
        if name == "bco"@ || name == "switch"@ {
            CommandView::Switch { branch: last_arg(argv) }
        } else if name == "bc"@ || name == "create"@ {
            CommandView::Create { branch: first_arg(argv) }
        } else if name == "cc"@ || name == "commit"@ {
            CommandView::Commit { args: argv.skip(1) }
        } else if name == "help"@ {
            CommandView::Help { topic: last_arg(argv) }
        } else if name == "init"@ {
            CommandView::Init
        } else if name == "log"@ {
            CommandView::Log
        } else if name == "merge"@ {
            CommandView::Merge
        } else if name == "rv"@ || name == "reviews"@ {
            CommandView::Reviews
        } else if name == "split"@ {
            CommandView::Split
        } else if name == "submit"@ {
            CommandView::Submit
        } else if name == "sync"@ {
            CommandView::Sync
        } else if name == "top"@ || name == "up"@ || name == "down"@ || name == "bottom"@ || name
            == "bu"@ || name == "bd"@ {
            CommandView::Move { direction: name }
        } else if name == "debug"@ {
            CommandView::Debug { what: first_arg(argv) }
        } else {
            CommandView::Unknown { command: name }
        }
    }
}

fn first_of(argv: &Vec<String>) -> (r: Option<String>)
    ensures
        opt_view(r) == first_arg(text::views(argv@)),
{
    if argv.len() > 1 {
        Some(argv[1].clone())
    } else {
        None
    }
}

fn last_of(argv: &Vec<String>) -> (r: Option<String>)
    ensures
        opt_view(r) == last_arg(text::views(argv@)),
{
    if argv.len() > 1 {
        Some(argv[argv.len() - 1].clone())
    } else {
        None
    }
}

/// The operation that the arguments of the command line ask for, the name
/// of the program left out.
pub fn process_command(argv: &Vec<String>) -> (r: Command)
    ensures
        r@ == command_spec(text::views(argv@)),
{
    if argv.len() == 0 {
        return Command::Missing;
    }
    let name = argv[0].as_str();
    if *name == *"bco" || *name == *"switch" {
        Command::Switch { branch: last_of(argv) }
    } else if *name == *"bc" || *name == *"create" {
        Command::Create { branch: first_of(argv) }
    } else if *name == *"cc" || *name == *"commit" {
        let mut args: Vec<String> = Vec::new();
        let mut i: usize = 1;
        assert(text::views(args@) =~= text::views(argv@).subrange(1, 1));
        while i < argv.len()
            invariant
                1 <= i <= argv.len(),
                text::views(args@) == text::views(argv@).subrange(1, i as int),
            decreases argv.len() - i,
        {
            let ghost before = text::views(args@);
            args.push(argv[i].clone());
            assert(text::views(args@) =~= before.push(argv@[i as int]@));
            assert(text::views(args@) =~= text::views(argv@).subrange(1, i + 1));
            i += 1;
        }
        assert(text::views(argv@).subrange(1, argv.len() as int) =~= text::views(argv@).skip(1));
        Command::Commit { args }
    } else if *name == *"help" {
        Command::Help { topic: last_of(argv) }
    } else if *name == *"init" {
        Command::Init
    } else if *name == *"log" {
        Command::Log
    } else if *name == *"merge" {
        Command::Merge
    } else if *name == *"rv" || *name == *"reviews" {
        Command::Reviews
    } else if *name == *"split" {
        Command::Split
    } else if *name == *"submit" {
        Command::Submit
    } else if *name == *"sync" {
        Command::Sync
    } else if *name == *"top" || *name == *"up" || *name == *"down" || *name == *"bottom" || *name
        == *"bu" || *name == *"bd" {
        Command::Move { direction: argv[0].clone() }
    } else if *name == *"debug" {
        Command::Debug { what: first_of(argv) }
    } else {
        Command::Unknown { command: argv[0].clone() }
    }
}

/// The arguments of the checkout that creates `branch` on top of `current`,
/// which it tracks.
pub fn create_branch(current: &str, branch: &str) -> (r: Vec<String>)
    ensures
        text::views(r@) == seq!["-t"@, current@, "-b"@, branch@],
{
    git::args4("-t", current, "-b", branch)
}

} // verus!
