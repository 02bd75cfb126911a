//! Win detection: four markers of one side in a line, along a row, a column
//! or either diagonal.

use vstd::prelude::*;
use crate::board::GameMatrix;
use crate::cell::{marker_of, Cell, Team};
use crate::grid::{on_board, valid, Grid, NUM_OF_COLS, NUM_OF_ROWS, SEQ_TO_WIN};

verus! {

/// Cell `(r, c)` lies on the board and holds `m`.
pub open spec fn holds(g: Grid, r: int, c: int, m: Cell) -> bool {
    on_board(r, c) && g[r][c] == m
}

/// The four cells that start at `(r, c)` and follow each other in steps of
/// `(dr, dc)` all lie on the board and hold `m`.
pub open spec fn four_in_line(g: Grid, m: Cell, r: int, c: int, dr: int, dc: int) -> bool {
    &&& holds(g, r, c, m)
    &&& holds(g, r + dr, c + dc, m)
    &&& holds(g, r + 2 * dr, c + 2 * dc, m)
    &&& holds(g, r + 3 * dr, c + 3 * dc, m)
}

/// A line of four cells that hold `m` starts at `(r, c)`: to the right along
/// the row, downwards along the column, or to the right along the diagonal
/// that falls or the one that rises.
pub open spec fn wins_from(g: Grid, m: Cell, r: int, c: int) -> bool {
    ||| four_in_line(g, m, r, c, 0, 1)
    ||| four_in_line(g, m, r, c, 1, 0)
    ||| four_in_line(g, m, r, c, 1, 1)
    ||| four_in_line(g, m, r, c, -1, 1)
}

/// `team` has four markers in a line somewhere on the board.
pub open spec fn has_won(g: Grid, team: Team) -> bool {
    exists|r: int, c: int| #[trigger] wins_from(g, marker_of(team), r, c)
}

impl GameMatrix {
    /// Whether some row holds four `m` side by side. Each row is scanned once
    /// with a counter of the run of `m` that ends at the current cell.
    fn four_in_a_row(&self, m: Cell) -> (found: bool)
        ensures
            found == exists|r: int, c: int| #[trigger] four_in_line(self@, m, r, c, 0, 1),
    {
        let mut row: usize = 0;
        while row < NUM_OF_ROWS
            invariant
                row <= NUM_OF_ROWS,
                forall|r: int, c: int| 0 <= r < row ==> !#[trigger] four_in_line(self@, m, r, c, 0, 1),
            decreases NUM_OF_ROWS - row,
        {
            let mut count: usize = 0;
            let mut col: usize = 0;
            while col < NUM_OF_COLS
                invariant
                    row < NUM_OF_ROWS,
                    col <= NUM_OF_COLS,
                    count <= col,
                    count < SEQ_TO_WIN,
                    forall|k: int| col - count <= k < col ==> #[trigger] self@[row as int][k] == m,
                    count == col || self@[row as int][col - count - 1] != m,
                    forall|c: int|
                        c + 3 < col ==> !#[trigger] four_in_line(self@, m, row as int, c, 0, 1),
                decreases NUM_OF_COLS - col,
            {
                if self.cell(row, col) == m {
                    count += 1;
                    if count >= SEQ_TO_WIN {
                        assert(four_in_line(self@, m, row as int, col - 3, 0, 1));
                        return true;
                    }
                } else {
                    count = 0;
                }
                col += 1;
            }
            row += 1;
        }
        false
    }

    /// Whether some column holds four `m` on top of each other, by the same
    /// scan from the top edge down.
    fn four_in_a_column(&self, m: Cell) -> (found: bool)
        ensures
            found == exists|r: int, c: int| #[trigger] four_in_line(self@, m, r, c, 1, 0),
    {
        let mut col: usize = 0;
        while col < NUM_OF_COLS
            invariant
                col <= NUM_OF_COLS,
                forall|r: int, c: int| 0 <= c < col ==> !#[trigger] four_in_line(self@, m, r, c, 1, 0),
            decreases NUM_OF_COLS - col,
        {
            let mut count: usize = 0;
            let mut row: usize = 0;
            while row < NUM_OF_ROWS
                invariant
                    col < NUM_OF_COLS,
                    row <= NUM_OF_ROWS,
                    count <= row,
                    count < SEQ_TO_WIN,
                    forall|k: int| row - count <= k < row ==> #[trigger] self@[k][col as int] == m,
                    count == row || self@[row - count - 1][col as int] != m,
                    forall|r: int|
                        r + 3 < row ==> !#[trigger] four_in_line(self@, m, r, col as int, 1, 0),
                decreases NUM_OF_ROWS - row,
            {
                if self.cell(row, col) == m {
                    count += 1;
                    if count >= SEQ_TO_WIN {
                        assert(four_in_line(self@, m, row - 3, col as int, 1, 0));
                        return true;
                    }
                } else {
                    count = 0;
                }
                row += 1;
            }
            col += 1;
        }
        false
    }

    /// Whether some diagonal that falls to the right holds four `m` in a line.
    /// Only the cells from which such a line stays on the board are tried.
    fn four_on_a_falling_diagonal(&self, m: Cell) -> (found: bool)
        ensures
            found == exists|r: int, c: int| #[trigger] four_in_line(self@, m, r, c, 1, 1),
    {
        let mut start_col: usize = 0;
        while start_col < NUM_OF_COLS - SEQ_TO_WIN + 1
            invariant
                start_col <= NUM_OF_COLS - SEQ_TO_WIN + 1,
                forall|r: int, c: int|
                    0 <= c < start_col ==> !#[trigger] four_in_line(self@, m, r, c, 1, 1),
            decreases NUM_OF_COLS - start_col,
        {
            let mut start_row: usize = 0;
            while start_row < NUM_OF_ROWS - SEQ_TO_WIN + 1
                invariant
                    start_col < NUM_OF_COLS - SEQ_TO_WIN + 1,
                    start_row <= NUM_OF_ROWS - SEQ_TO_WIN + 1,
                    forall|r: int|
                        0 <= r < start_row ==> !#[trigger] four_in_line(
                            self@,
                            m,
                            r,
                            start_col as int,
                            1,
                            1,
                        ),
                decreases NUM_OF_ROWS - start_row,
            {
                let mut count: usize = 0;
                let mut i: usize = 0;
                while i < SEQ_TO_WIN
                    invariant_except_break
                        count == i,
                        i < SEQ_TO_WIN,
                        forall|k: int|
                            0 <= k < i ==> #[trigger] self@[start_row + k][start_col + k] == m,
                    invariant
                        start_col < NUM_OF_COLS - SEQ_TO_WIN + 1,
                        start_row < NUM_OF_ROWS - SEQ_TO_WIN + 1,
                    ensures
                        !four_in_line(self@, m, start_row as int, start_col as int, 1, 1),
                    decreases SEQ_TO_WIN - i,
                {
                    if self.cell(start_row + i, start_col + i) == m {
                        count += 1;
                        if count >= SEQ_TO_WIN {
                            assert(self@[start_row + 0][start_col + 0] == m);
                            assert(self@[start_row + 1][start_col + 1] == m);
                            assert(self@[start_row + 2][start_col + 2] == m);
                            assert(four_in_line(self@, m, start_row as int, start_col as int, 1, 1));
                            return true;
                        }
                    } else {
                        count = 0;
                        break ;
                    }
                    i += 1;
                }
                start_row += 1;
            }
            start_col += 1;
        }
        false
    }

    /// Whether some diagonal that rises to the right holds four `m` in a line.
    /// The lines start far enough from the top edge to stay on the board.
    fn four_on_a_rising_diagonal(&self, m: Cell) -> (found: bool)
        ensures
            found == exists|r: int, c: int| #[trigger] four_in_line(self@, m, r, c, -1, 1),
    {
        let mut start_col: usize = 0;
        while start_col < NUM_OF_COLS - SEQ_TO_WIN + 1
            invariant
                start_col <= NUM_OF_COLS - SEQ_TO_WIN + 1,
                forall|r: int, c: int|
                    0 <= c < start_col ==> !#[trigger] four_in_line(self@, m, r, c, -1, 1),
            decreases NUM_OF_COLS - start_col,
        {
            let mut start_row: usize = SEQ_TO_WIN - 1;
            while start_row < NUM_OF_ROWS
                invariant
                    start_col < NUM_OF_COLS - SEQ_TO_WIN + 1,
                    SEQ_TO_WIN - 1 <= start_row <= NUM_OF_ROWS,
                    forall|r: int|
                        0 <= r < start_row ==> !#[trigger] four_in_line(
                            self@,
                            m,
                            r,
                            start_col as int,
                            -1,
                            1,
                        ),
                decreases NUM_OF_ROWS - start_row,
            {
                let mut count: usize = 0;
                let mut i: usize = 0;
                while i < SEQ_TO_WIN
                    invariant_except_break
                        count == i,
                        i < SEQ_TO_WIN,
                        forall|k: int|
                            0 <= k < i ==> #[trigger] self@[start_row - k][start_col + k] == m,
                    invariant
                        start_col < NUM_OF_COLS - SEQ_TO_WIN + 1,
                        SEQ_TO_WIN - 1 <= start_row < NUM_OF_ROWS,
                    ensures
                        !four_in_line(self@, m, start_row as int, start_col as int, -1, 1),
                    decreases SEQ_TO_WIN - i,
                {
                    if self.cell(start_row - i, start_col + i) == m {
                        count += 1;
                        if count >= SEQ_TO_WIN {
                            assert(self@[start_row - 0][start_col + 0] == m);
                            assert(self@[start_row - 1][start_col + 1] == m);
                            assert(self@[start_row - 2][start_col + 2] == m);
                            assert(four_in_line(self@, m, start_row as int, start_col as int, -1, 1));
                            return true;
                        }
                    } else {
                        count = 0;
                        break ;
                    }
                    i += 1;
                }
                start_row += 1;
            }
            start_col += 1;
        }
        false
    }

    /// Whether `team` has won: four of its markers lie in a line along a row,
    /// a column or a diagonal.
    pub fn check_win(&self, team: Team) -> (won: bool)
        ensures
            won == has_won(self@, team),
            valid(self@),
    {
        proof {
            use_type_invariant(self);
        }
        let m = team.marker();
        if self.four_in_a_row(m) {
            let ghost (r, c) = choose|r: int, c: int| #[trigger] four_in_line(self@, m, r, c, 0, 1);
            assert(wins_from(self@, m, r, c));
            return true;
        }
        if self.four_in_a_column(m) {
            let ghost (r, c) = choose|r: int, c: int| #[trigger] four_in_line(self@, m, r, c, 1, 0);
            assert(wins_from(self@, m, r, c));
            return true;
        }
        if self.four_on_a_falling_diagonal(m) {
            let ghost (r, c) = choose|r: int, c: int| #[trigger] four_in_line(self@, m, r, c, 1, 1);
            assert(wins_from(self@, m, r, c));
            return true;
        }
        if self.four_on_a_rising_diagonal(m) {
            let ghost (r, c) = choose|r: int, c: int| #[trigger] four_in_line(self@, m, r, c, -1, 1);
            assert(wins_from(self@, m, r, c));
            return true;
        }
        false
    }
}

} // verus!
