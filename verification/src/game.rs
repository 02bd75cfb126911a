//! The rules of a game in progress: whose turn it is, what a player may
//! enter, how a turn is played and when the game is over. Reading what the
//! players enter and showing the board is left to the caller.

use vstd::prelude::*;
use crate::board::GameMatrix;
use crate::cell::{change_to_next_team, opponent, Team};
use crate::grid::{column_open, valid, Grid, NUM_OF_COLS};
use crate::search::{lemma_search_column_on_board, lemma_search_proposes_open_column, search};
use crate::win::has_won;

verus! {

/// Number of plies that the machine looks ahead.
pub const MINIMAX_DEPTH: usize = 5;

/// What a player enters in place of a column to have the machine choose
/// the move.
pub const ASK_MACHINE: usize = 42;

/// Whether `choice` names a way to play: 0 for one player against the
/// machine, 1 for two players.
pub fn valid_mode(choice: usize) -> (accepted: bool)
    ensures
        accepted == (choice == 0 || choice == 1),
{
    choice == 0 || choice == 1
}

/// Whether the machine makes the next move by itself: it plays the second
/// side where one player plays alone, which `multiplayer == 0` says.
pub fn machine_to_move(actual_team: Team, multiplayer: usize) -> (machine: bool)
    ensures
        machine == (actual_team == Team::Second && multiplayer == 0),
{
    actual_team == Team::Second && multiplayer == 0
}

/// Whether a player may enter `number`: a column of the board, or the
/// request that the machine choose.
pub fn valid_entry(number: usize) -> (accepted: bool)
    ensures
        accepted == (number < NUM_OF_COLS || number == ASK_MACHINE),
{
    !(number > NUM_OF_COLS - 1 && number != ASK_MACHINE)
}

/// The column that the machine chooses for `actual_team`: the one that a
/// search of `MINIMAX_DEPTH` plies proposes.
pub open spec fn machine_choice(g: Grid, actual_team: Team) -> int {
    search(g, MINIMAX_DEPTH as nat, actual_team == Team::First).1 as int
}

/// The column into which the machine moves for `actual_team`: the one that
/// a search of `MINIMAX_DEPTH` plies proposes, the first side maximizing
/// the score and the second minimizing it. The board is left as it was.
/// While no side has won and some column is open, the column is an open
/// one.
pub fn best_column(board: &mut GameMatrix, actual_team: Team) -> (best_col: usize)
    ensures
        best_col == machine_choice(old(board)@, actual_team),
        best_col < NUM_OF_COLS,
        final(board)@ == old(board)@,
        valid(final(board)@),
        !has_won(old(board)@, Team::First) && !has_won(old(board)@, Team::Second) && (exists|c: int|
            column_open(old(board)@, c)) ==> column_open(old(board)@, best_col as int),
{
    let is_maximizing = actual_team == Team::First;
    proof {
        lemma_search_column_on_board(board@, MINIMAX_DEPTH as nat, is_maximizing);
        if !has_won(board@, Team::First) && !has_won(board@, Team::Second) && (exists|c: int|
            column_open(board@, c)) {
            lemma_search_proposes_open_column(board@, MINIMAX_DEPTH as nat, is_maximizing);
        }
    }
    let (_, best_col) = board.minimax(MINIMAX_DEPTH, is_maximizing);
    best_col
}

/// Ends the turn of `actual_team`: `None` where that side has won, which
/// ends the game, and otherwise the side that moves next.
pub fn finish_turn(board: &GameMatrix, actual_team: Team) -> (next: Option<Team>)
    ensures
        next == if has_won(board@, actual_team) {
            None
        } else {
            Some(opponent(actual_team))
        },
        valid(board@),
{
    if board.check_win(actual_team) {
        None
    } else {
        Some(change_to_next_team(actual_team))
    }
}

} // verus!
