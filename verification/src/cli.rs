//! The command that the arguments of one invocation ask for.

use vstd::prelude::*;
use crate::text::same_text;

verus! {

/// The subcommand of an invocation.
#[derive(Clone, Copy, Debug, PartialEq, Eq, Structural)]
pub enum Command {
    Nothing,
    Status,
    Diff,
    Down { no_switch: bool },
}

/// The subcommand of an invocation and the branch that it names.
#[derive(Clone, Debug, PartialEq, Eq)]
pub struct Options {
    pub command: Command,
    pub branch: Option<String>,
}

/// What stands behind a subcommand on the command line: the branch, and
/// whether the flag that asks for no branch switch is there.
#[derive(Clone, Debug, PartialEq, Eq)]
pub struct Arguments {
    pub branch: Option<String>,
    pub no_switch: bool,
}

/// The name of the subcommand that reports the status of all migrations.
pub const STATUS: &'static str = "status";

/// The name of the subcommand that reports what a branch switch would orphan.
pub const DIFF: &'static str = "diff";

/// The name of the subcommand that rolls back what a branch switch would
/// orphan.
pub const DOWN: &'static str = "down";

/// The command that a subcommand's name and arguments ask for.  `status` needs
/// no arguments; `diff` and `down` count only with theirs; anything else asks
/// for nothing.
pub open spec fn command_of(name: Seq<char>, arguments: Option<Arguments>) -> Command {
    if name == STATUS@ {
        Command::Status
    } else if name == DIFF@ && arguments is Some {
        Command::Diff
    } else if name == DOWN@ && arguments is Some {
        Command::Down { no_switch: arguments->0.no_switch }
    } else {
        Command::Nothing
    }
}

/// The branch that a subcommand's name and arguments name: that of the
/// arguments where they ask for `diff` or `down`, none otherwise.
pub open spec fn branch_of(name: Seq<char>, arguments: Option<Arguments>) -> Option<Seq<char>> {
    match command_of(name, arguments) {
        Command::Diff => arguments->0.branch.deep_view(),
        Command::Down { no_switch } => arguments->0.branch.deep_view(),
        _ => None,
    }
}

/// Reads the options of an invocation from the name of its subcommand and
/// what stands behind it.
pub fn parse_opts(name: &str, arguments: Option<Arguments>) -> (options: Options)
    ensures
        options.command == command_of(name@, arguments),
        options.branch.deep_view() == branch_of(name@, arguments),
{
    if same_text(name, STATUS) {
        return Options { command: Command::Status, branch: None };
    }
    let diff = same_text(name, DIFF);
    let down = same_text(name, DOWN);
    match arguments {
        Some(given) => {
            if diff {
                Options { command: Command::Diff, branch: given.branch }
            } else if down {
                Options { command: Command::Down { no_switch: given.no_switch }, branch: given.branch }
            } else {
                Options { command: Command::Nothing, branch: None }
            }
        },
        None => Options { command: Command::Nothing, branch: None },
    }
}

} // verus!
