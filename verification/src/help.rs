//! The help texts.

use vstd::prelude::*;

verus! {

pub const USAGE: &'static str =
    "Usage: gq <command> [<args>]

gq is a command line interface for managing stacked commits and code reviews.
type 'gq help <command>' for detailed help with a specific command.

General Commands:
    init            Configure (or reconfigure) gq
    help            Display this help message
    log             Display the commit log

Branch Commands:
    create, bc     Create a new branch
    switch, bco    Switch to a branch
    commit, cc     Commit changes
    submit         Submit current branch (and parents) for code review
    sync           Sync from remote (recursive pull and rebase)

Review Commands:
    reviews, rv    List open reviews
    merge          Merge approved reviews

Stack Commands:
    top, bt        Move to the top of the stack
    bottom, bb     Move to the bottom of the stack
    up, bu         Move up in the stack
    down, bd       Move down in the stack

Git Commands:
    Any keywords not listed above will be passed directly to git.
";

pub const HELP_USAGE: &'static str = "You already got it, chief.";

pub const INIT_USAGE: &'static str =
    "gq init

Configure (or reconfigure) gq for the current repository: the root branch,
the remote and the code review tool.";

pub const LOG_USAGE: &'static str =
    "gq log

Displays the commit log stack.

The log is displayed as a stack of branches, with each branch's unique commits listed
between them in stack order. The top of the stack is the latest changes, which will
be merged _downward_ to the root branch.";

pub const CREATE_USAGE: &'static str =
    "gq <create|bc> [branch name]

Creates a new branch. If no name is provided, you will be prompted for one.";

pub const SWITCH_USAGE: &'static str =
    "gq <switch|bco> [branch name]

Switch to the specified branch. If no name is provided, you will be prompted to select one.";

pub const COMMIT_USAGE: &'static str =
    "gq <commit|cc>

Commit changes. Follows 'git commit' syntax.
e.g. 'gq cc -m \"My commit message\"' or 'gq cc --amend' work.";

pub const SUBMIT_USAGE: &'static str =
    "gq <submit>

Submit the current branch (and parents) for code review.
Syncs the current stack with remote before submitting.

This will force-update the remote if there are any conflicts.";

pub const SYNC_USAGE: &'static str =
    "gq <sync>

Sync from remote (recursive pull and rebase).

Sync recursively pulls the latest changes from remote and local branches in order
to ensure that all branches in the current stack are up-to-date.";

pub const REVIEW_USAGE: &'static str =
    "gq <reviews|rv>

List the open code reviews of the repository.";

pub const MERGE_USAGE: &'static str =
    "gq <merge>

Merge the approved code reviews of the current stack, from the root up.";

pub const UP_USAGE: &'static str =
    "stk move <up | bu>

Move up in the stack. If the current branch has multiple children, you will be prompted to
select one.";

pub const DOWN_USAGE: &'static str = "stk move <down | bd>

Move down in the stack.";

pub const BOTTOM_USAGE: &'static str =
    "stk move <bottom | bb>

Move to the bottom of the stack - this is the root of the current repo.";

pub const TOP_USAGE: &'static str =
    "stk move <top | bt>

Move to the top of the stack - if any branch has multiple children, you will be prompted to
select which branch to follow.";

pub const NO_HELP: &'static str = "TODO";

/// The help text for a command, by any of its names.
pub open spec fn help_spec(cmd: Seq<char>) -> Seq<char> {
    if cmd == "help"@ {
        HELP_USAGE@
    } else if cmd == "init"@ {
        INIT_USAGE@
    } else if cmd == "log"@ {
        LOG_USAGE@
    } else if cmd == "create"@ || cmd == "bc"@ {
        CREATE_USAGE@
    } else if cmd == "switch"@ || cmd == "bco"@ {
        SWITCH_USAGE@
    } else if cmd == "commit"@ || cmd == "cc"@ {
        COMMIT_USAGE@
    } else if cmd == "submit"@ {
        SUBMIT_USAGE@
    } else if cmd == "sync"@ {
        SYNC_USAGE@
    } else if cmd == "reviews"@ || cmd == "rv"@ {
        REVIEW_USAGE@
    } else if cmd == "merge"@ {
        MERGE_USAGE@
    } else if cmd == "up"@ || cmd == "bu"@ {
        UP_USAGE@
    } else if cmd == "down"@ || cmd == "bd"@ {
        DOWN_USAGE@
    } else if cmd == "bottom"@ || cmd == "bb"@ {
        BOTTOM_USAGE@
    } else if cmd == "top"@ || cmd == "bt"@ {
        TOP_USAGE@
    } else {
        NO_HELP@
    }
}

/// The overview of all commands.
pub fn show_usage() -> (r: &'static str)
    ensures
        r@ == USAGE@,
{
    USAGE
}

/// The help text for a command.
pub fn show_help(cmd: &str) -> (r: &'static str)
    ensures
        r@ == help_spec(cmd@),
{
    if *cmd == *"help" {
        HELP_USAGE
    } else if *cmd == *"init" {
        INIT_USAGE
    } else if *cmd == *"log" {
        LOG_USAGE
    } else if *cmd == *"create" || *cmd == *"bc" {
        CREATE_USAGE
    } else if *cmd == *"switch" || *cmd == *"bco" {
        SWITCH_USAGE
    } else if *cmd == *"commit" || *cmd == *"cc" {
        COMMIT_USAGE
    } else if *cmd == *"submit" {
        SUBMIT_USAGE
    } else if *cmd == *"sync" {
        SYNC_USAGE
    } else if *cmd == *"reviews" || *cmd == *"rv" {
        REVIEW_USAGE
    } else if *cmd == *"merge" {
        MERGE_USAGE
    } else if *cmd == *"up" || *cmd == *"bu" {
        UP_USAGE
    } else if *cmd == *"down" || *cmd == *"bd" {
        DOWN_USAGE
    } else if *cmd == *"bottom" || *cmd == *"bb" {
        BOTTOM_USAGE
    } else if *cmd == *"top" || *cmd == *"bt" {
        TOP_USAGE
    } else {
        NO_HELP
    }
}

} // verus!
