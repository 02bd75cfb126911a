//! The board itself: a fixed grid of cells that moves fill from the bottom
//! edge upwards.

use vstd::prelude::*;
use vstd::array::spec_array_update;
use crate::cell::{marker_of, Cell, Team};
use crate::grid::{
    column_open, column_used, dropped, empty_grid, is_landing, is_top, lemma_landing_row,
    lemma_top_row, lifted, place, shaped, valid, Grid, NUM_OF_COLS, NUM_OF_ROWS,
};

verus! {

/// Why a move was not made.
#[derive(Clone, Copy, PartialEq, Eq, Debug, Structural)]
pub enum MoveError {
    /// The column index is not below the number of columns.
    OutOfRange,
    /// The column has no empty cell left.
    ColumnFull,
    /// The column holds no marker that could be taken away.
    ColumnEmpty,
}

/// What is said of a move that was not made because of `error`.
pub open spec fn message_of(error: MoveError) -> Seq<char> {
    match error {
        MoveError::OutOfRange => "Coluna estã fora dos limites"@,
        MoveError::ColumnFull => "Coluna está cheia"@,
        MoveError::ColumnEmpty => "Coluna está vazia"@,
    }
}

impl MoveError {
    /// The words in which this refusal is reported.
    pub fn message(&self) -> (text: &'static str)
        ensures
            text@ == message_of(*self),
    {
        match self {
            MoveError::OutOfRange => "Coluna estã fora dos limites",
            MoveError::ColumnFull => "Coluna está cheia",
            MoveError::ColumnEmpty => "Coluna está vazia",
        }
    }
}

/// The board of a game. Its cells are reached through [`GameMatrix::cell`];
/// moves are made with [`GameMatrix::add_value`] and taken back with
/// [`GameMatrix::remove_value`], so that gravity holds of every board.
#[derive(Clone, Copy)]
pub struct GameMatrix {
    matrix: [[Cell; NUM_OF_COLS]; NUM_OF_ROWS],
}

impl View for GameMatrix {
    type V = Grid;

    /// The rows of the board, top row first.
    closed spec fn view(&self) -> Grid {
        Seq::new(NUM_OF_ROWS as nat, |r: int| self.matrix[r]@)
    }
}

impl GameMatrix {
    /// Gravity holds of every board that executable code can hold.
    #[verifier::type_invariant]
    pub(crate) open spec fn gravity_holds(&self) -> bool {
        valid(self@)
    }

    /// Every board has twelve rows of nine cells.
    pub proof fn lemma_shaped(&self)
        ensures
            shaped(self@),
    {
    }

    /// The empty board.
    pub fn new() -> (board: GameMatrix)
        ensures
            board@ == empty_grid(),
            valid(board@),
    {
        let board = GameMatrix { matrix: [[Cell::Empty; NUM_OF_COLS]; NUM_OF_ROWS] };
        assert(board@ =~~= empty_grid());
        board
    }

    /// The contents of the cell in `row` and `column`.
    pub fn cell(&self, row: usize, column: usize) -> (held: Cell)
        requires
            row < NUM_OF_ROWS,
            column < NUM_OF_COLS,
        ensures
            held == self@[row as int][column as int],
            valid(self@),
    {
        proof {
            use_type_invariant(self);
        }
        self.matrix[row][column]
    }

    /// Drops a marker of `team` into `column`, where it comes to rest in the
    /// empty cell nearest the bottom edge. A column index out of range and a
    /// full column are refused, and the board is then left as it was.
    pub fn add_value(&mut self, column: usize, team: Team) -> (res: Result<(), MoveError>)
        ensures
            match res {
                Ok(()) => column_open(old(self)@, column as int) && final(self)@ == dropped(
                    old(self)@,
                    column as int,
                    team,
                ),
                Err(MoveError::OutOfRange) => column >= NUM_OF_COLS && final(self)@ == old(self)@,
                Err(MoveError::ColumnFull) => column < NUM_OF_COLS && !column_open(
                    old(self)@,
                    column as int,
                ) && final(self)@ == old(self)@,
                Err(MoveError::ColumnEmpty) => false,
            },
            valid(old(self)@),
            valid(final(self)@),
    {
        proof {
            use_type_invariant(&*self);
        }
        if column >= NUM_OF_COLS {
            return Err(MoveError::OutOfRange);
        }
        let mut row_index: Option<usize> = None;
        let mut i: usize = NUM_OF_ROWS;
        while i > 0
            invariant_except_break
                row_index is None,
                forall|k: int| i <= k < NUM_OF_ROWS ==> #[trigger] self@[k][column as int] != Cell::Empty,
            invariant
                i <= NUM_OF_ROWS,
                column < NUM_OF_COLS,
                *self == *old(self),
            ensures
                match row_index {
                    Some(r) => is_landing(self@, column as int, r as int),
                    None => forall|k: int|
                        0 <= k < NUM_OF_ROWS ==> #[trigger] self@[k][column as int] != Cell::Empty,
                },
            decreases i,
        {
            i = i - 1;
            if self.matrix[i][column] == Cell::Empty {
                row_index = Some(i);
                break ;
            }
        }
        if let Some(index) = row_index {
            proof {
                lemma_landing_row(self@, column as int, index as int);
                crate::grid::lemma_dropped_valid(self@, column as int, team);
            }
            let ghost before = self@;
            let marker = team.marker();
            proof {
                let rows = spec_array_update(
                    self.matrix,
                    index as int,
                    spec_array_update(self.matrix[index as int], column as int, marker),
                );
                let after = Seq::new(NUM_OF_ROWS as nat, |r: int| rows[r]@);
                assert(after =~~= place(before, index as int, column as int, marker));
            }
            self.matrix[index][column] = marker;
            assert(self@ =~~= place(before, index as int, column as int, marker));
            Ok(())
        } else {
            Err(MoveError::ColumnFull)
        }
    }

    /// Takes the topmost marker of `column` away. A column index out of range
    /// and a column without a marker are refused, and the board is then left
    /// as it was.
    pub fn remove_value(&mut self, column: usize) -> (res: Result<(), MoveError>)
        ensures
            match res {
                Ok(()) => column_used(old(self)@, column as int) && final(self)@ == lifted(
                    old(self)@,
                    column as int,
                ),
                Err(MoveError::OutOfRange) => column >= NUM_OF_COLS && final(self)@ == old(self)@,
                Err(MoveError::ColumnEmpty) => column < NUM_OF_COLS && !column_used(
                    old(self)@,
                    column as int,
                ) && final(self)@ == old(self)@,
                Err(MoveError::ColumnFull) => false,
            },
            valid(old(self)@),
            valid(final(self)@),
    {
        proof {
            use_type_invariant(&*self);
        }
        if column >= NUM_OF_COLS {
            return Err(MoveError::OutOfRange);
        }
        let mut row: usize = 0;
        while row < NUM_OF_ROWS
            invariant
                row <= NUM_OF_ROWS,
                column < NUM_OF_COLS,
                *self == *old(self),
                valid(self@),
                forall|k: int| 0 <= k < row ==> #[trigger] self@[k][column as int] == Cell::Empty,
            decreases NUM_OF_ROWS - row,
        {
            if self.matrix[row][column] != Cell::Empty {
                proof {
                    assert(is_top(self@, column as int, row as int));
                    lemma_top_row(self@, column as int, row as int);
                    crate::grid::lemma_lifted_valid(self@, column as int);
                }
                let ghost before = self@;
                proof {
                    let rows = spec_array_update(
                        self.matrix,
                        row as int,
                        spec_array_update(self.matrix[row as int], column as int, Cell::Empty),
                    );
                    let after = Seq::new(NUM_OF_ROWS as nat, |r: int| rows[r]@);
                    assert(after =~~= place(before, row as int, column as int, Cell::Empty));
                }
                self.matrix[row][column] = Cell::Empty;
                assert(self@ =~~= place(before, row as int, column as int, Cell::Empty));
                return Ok(());
            }
            row = row + 1;
        }
        Err(MoveError::ColumnEmpty)
    }
}

} // verus!
