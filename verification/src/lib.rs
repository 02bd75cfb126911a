//! A gravity-drop game for two sides on a board of twelve rows and nine
//! columns, won by four markers in a line, with a fixed-depth minimax
//! opponent.
//!
//! The functions carry contracts over a mathematical model of the board, a
//! sequence of rows of cells, and are proved against them. The work that is
//! spread over worker threads and the drawing of random numbers are done by
//! outside crates; what is taken on trust about those stands in `parallel`
//! and in `messages`, beside the functions that make the calls.

pub mod cell;
pub mod grid;
pub mod board;
pub mod win;
pub mod parallel;
pub mod score;
pub mod search;
pub mod messages;
pub mod game;

pub use board::{GameMatrix, MoveError};
pub use cell::{change_to_next_team, Cell, Team};
pub use game::{
    best_column, finish_turn, machine_to_move, valid_entry, valid_mode, ASK_MACHINE, MINIMAX_DEPTH,
};
pub use grid::{NUM_OF_COLS, NUM_OF_ROWS, SEQ_TO_WIN};
pub use messages::{get_ia_message, ia_message, NUM_OF_MESSAGES};
pub use score::{calculate_score, evaluate_line};
