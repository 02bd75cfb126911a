//! The two sides and what a cell of the board can hold.

use vstd::prelude::*;

verus! {

/// One of the two sides. `First` moves first and is the side whose score
/// the search maximizes.
#[derive(Clone, Copy, PartialEq, Eq, Debug, Structural)]
pub enum Team {
    First,
    Second,
}

/// The contents of one cell of the board.
#[derive(Clone, Copy, PartialEq, Eq, Debug, Structural)]
pub enum Cell {
    Empty,
    First,
    Second,
}

/// The marker that `team` leaves in a cell.
pub open spec fn marker_of(team: Team) -> Cell {
    match team {
        Team::First => Cell::First,
        Team::Second => Cell::Second,
    }
}

/// The side that moves after `team`.
pub open spec fn opponent(team: Team) -> Team {
    match team {
        Team::First => Team::Second,
        Team::Second => Team::First,
    }
}

/// The character by which a cell is drawn.
pub open spec fn symbol_of(cell: Cell) -> char {
    match cell {
        Cell::Empty => '_',
        Cell::First => 'P',
        Cell::Second => 'S',
    }
}

impl Team {
    /// The marker that this side leaves in a cell.
    pub fn marker(self) -> (m: Cell)
        ensures
            m == marker_of(self),
            m != Cell::Empty,
    {
        match self {
            Team::First => Cell::First,
            Team::Second => Cell::Second,
        }
    }
}

impl Cell {
    /// The character by which this cell is drawn: `_` for an empty cell,
    /// `P` and `S` for the markers of the first and the second side.
    pub fn symbol(self) -> (ch: char)
        ensures
            ch == symbol_of(self),
    {
        match self {
            Cell::Empty => '_',
            Cell::First => 'P',
            Cell::Second => 'S',
        }
    }
}

/// Hands the turn to the other side.
pub fn change_to_next_team(actual_team: Team) -> (next: Team)
    ensures
        next == opponent(actual_team),
{
    if actual_team == Team::First {
        return Team::Second;
    }
    Team::First
}

} // verus!
