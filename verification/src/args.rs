//! The command surface of the tool, as plain data.
//!
//! The binary's argument parser builds these values; the library only decides
//! with them (which direction a move defaults to, which command runs).

use vstd::prelude::*;

verus! {

/// The direction a card moves in: one column to the left or to the right.
#[derive(Clone, Copy, Debug, PartialEq, Eq, Structural)]
pub enum Direction {
    Left,
    Right,
}

/// The direction used when a move command names none.
pub fn default_direction() -> (d: Direction)
    ensures
        d == Direction::Right,
{
    Direction::Right
}

/// What a `show` command displays.
pub enum ShowObject {
    /// The cards whose headline starts with the given prefix.
    Card { headline: String },
}

/// A subcommand of the tool.
#[allow(inconsistent_fields)]
pub enum Command {
    /// Manage the current workspace kanban board interactively.
    Kanban,
    /// Add a card to the leftmost column of the kanban board.
    Card { headline: Option<String> },
    /// Move a card to the left or right.
    Move { headline: String, direction: Option<Direction> },
    /// Edit a card.
    Edit { headline: String },
    /// Show an object of the current workspace.
    Show { object: ShowObject },
    /// Initialize a workspace.
    Init { name: Option<String> },
}

/// The parsed command line: a subcommand, or none for the aggregate summary.
pub struct Args {
    pub command: Option<Command>,
}

} // verus!
