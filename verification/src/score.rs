//! The heuristic value of a position: runs of two, three and four markers
//! along the rows and columns, and complete lines of four along the
//! diagonals, counted for the first side and against the second.

use vstd::prelude::*;
use crate::board::GameMatrix;
use crate::cell::Cell;
use crate::grid::{shaped, valid, Grid, NUM_OF_COLS, NUM_OF_ROWS, SEQ_TO_WIN};
use crate::parallel::{par_sum, par_sum_grid, sum_of, sum_of_rows, sums_calls, sums_grid_calls};
use crate::win::{four_in_line, holds};

verus! {

/// What a run is worth at the cell where it reaches the length `run`: 10
/// for two, 50 for three, 100 for four, and nothing otherwise. A run that
/// grows past four earns nothing more.
pub open spec fn bonus(run: int) -> int {
    if run == 2 {
        10
    } else if run == 3 {
        50
    } else if run == 4 {
        100
    } else {
        0
    }
}

/// The length of the run of `m` that ends at index `i` of `line`: 0 where
/// the cell at `i` does not hold `m`.
pub open spec fn run_ending(line: Seq<Cell>, i: int, m: Cell) -> int
    decreases i + 1,
{
    if 0 <= i < line.len() && line[i] == m {
        1 + run_ending(line, i - 1, m)
    } else {
        0
    }
}

/// What the cell at index `i` adds to the score of `line`: the bonus of the
/// first side's run that ends there, less that of the second side's.
pub open spec fn credit_at(line: Seq<Cell>, i: int) -> int {
    bonus(run_ending(line, i, Cell::First)) - bonus(run_ending(line, i, Cell::Second))
}

/// The credits of the cells of `line`, by index.
pub open spec fn credits(line: Seq<Cell>) -> spec_fn(int) -> int {
    |i: int| credit_at(line, i)
}

/// The sum of `f(0)`, ..., `f(n - 1)`.
pub open spec fn sum_upto(f: spec_fn(int) -> int, n: int) -> int
    decreases n,
{
    if n <= 0 {
        0
    } else {
        sum_upto(f, n - 1) + f(n - 1)
    }
}

/// The score of one line of cells: the sum of the credits of its cells.
pub open spec fn line_score(line: Seq<Cell>) -> int {
    sum_upto(credits(line), line.len() as int)
}

/// Column `c` of the grid as a line, from the top edge down.
pub open spec fn column_of(g: Grid, c: int) -> Seq<Cell> {
    Seq::new(NUM_OF_ROWS as nat, |r: int| g[r][c])
}

/// The scores of the rows, by row index.
pub open spec fn row_scores(g: Grid) -> spec_fn(int) -> int {
    |r: int| line_score(g[r])
}

/// The scores of the columns, by column index.
pub open spec fn column_scores(g: Grid) -> spec_fn(int) -> int {
    |c: int| line_score(column_of(g, c))
}

/// The sum of the scores of all rows.
pub open spec fn rows_score(g: Grid) -> int {
    sum_upto(row_scores(g), NUM_OF_ROWS as int)
}

/// The sum of the scores of all columns.
pub open spec fn cols_score(g: Grid) -> int {
    sum_upto(column_scores(g), NUM_OF_COLS as int)
}

/// The value of a pair of counts of markers in a window of four cells: 100
/// where the first side holds all four, -100 where the second side does.
pub open spec fn window_value(count_p: int, count_s: int) -> int {
    if count_p == SEQ_TO_WIN {
        100
    } else if count_s == SEQ_TO_WIN {
        -100
    } else {
        0
    }
}

/// The score of the diagonal window of four cells that starts at `(r, c)`
/// and moves one column to the right and `dr` rows down with each cell: 100
/// where the first side holds all four cells, -100 where the second side
/// does, and 0 otherwise.
pub open spec fn window_score(g: Grid, r: int, c: int, dr: int) -> int {
    if four_in_line(g, Cell::First, r, c, dr, 1) {
        100
    } else if four_in_line(g, Cell::Second, r, c, dr, 1) {
        -100
    } else {
        0
    }
}

/// Number of rows in which the diagonal windows of one direction start.
pub open spec fn window_rows() -> int {
    NUM_OF_ROWS - SEQ_TO_WIN + 1
}

/// Number of columns in which the diagonal windows start.
pub open spec fn window_cols() -> int {
    NUM_OF_COLS - SEQ_TO_WIN + 1
}

/// The first row in which a window of direction `dr` starts and stays on
/// the board: the top row for a window that falls to the right, and the
/// fourth row for one that rises.
pub open spec fn first_window_row(dr: int) -> int {
    if dr < 0 {
        SEQ_TO_WIN - 1
    } else {
        0
    }
}

/// The scores of the windows of direction `dr` that start in row `r`, by
/// column index.
pub open spec fn window_scores(g: Grid, r: int, dr: int) -> spec_fn(int) -> int {
    |c: int| window_score(g, r, c, dr)
}

/// The scores of the windows of direction `dr`, by the number of their
/// starting row, counted from the first row in which such windows start,
/// and then by the column in which they start.
pub open spec fn windows(g: Grid, dr: int) -> spec_fn(int) -> spec_fn(int) -> int {
    |k: int| window_scores(g, first_window_row(dr) + k, dr)
}

/// The summed scores of the windows of direction `dr`, by the number of
/// their starting row, counted from the first row in which such windows
/// start.
pub open spec fn window_row_scores(g: Grid, dr: int) -> spec_fn(int) -> int {
    |k: int| sum_upto(window_scores(g, first_window_row(dr) + k, dr), window_cols())
}

/// The sum of the scores of all diagonal windows of direction `dr`, 1 for
/// those that fall to the right and -1 for those that rise: every window of
/// four cells that lies on the board counts once. The falling windows start
/// in the rows from the top row to the ninth, the rising windows in the rows
/// from the fourth to the bottom row, and both in the first six columns.
pub open spec fn diagonal_score(g: Grid, dr: int) -> int {
    sum_upto(window_row_scores(g, dr), window_rows())
}

/// The sum of the scores of the diagonal windows that fall to the right.
pub open spec fn falling_score(g: Grid) -> int {
    diagonal_score(g, 1)
}

/// The sum of the scores of the diagonal windows that rise to the right.
pub open spec fn rising_score(g: Grid) -> int {
    diagonal_score(g, -1)
}

/// The sum of the scores of the diagonal windows of both directions.
pub open spec fn diagonals_score(g: Grid) -> int {
    falling_score(g) + rising_score(g)
}

/// The heuristic value of a position: positive where it favours the first
/// side, negative where it favours the second.
pub open spec fn score(g: Grid) -> int {
    rows_score(g) + cols_score(g) + diagonals_score(g)
}

/// A sum of `n` terms that each lie between `-bound` and `bound` lies
/// between `-n * bound` and `n * bound`.
pub proof fn lemma_sum_upto_bounded(f: spec_fn(int) -> int, n: int, bound: int)
    requires
        0 <= n,
        forall|i: int| 0 <= i < n ==> -bound <= #[trigger] f(i) <= bound,
    ensures
        -n * bound <= sum_upto(f, n) <= n * bound,
    decreases n,
{
    if n > 0 {
        lemma_sum_upto_bounded(f, n - 1, bound);
        assert((n - 1) * bound + bound == n * bound) by (nonlinear_arith);
        assert(-(n - 1) * bound - bound == -n * bound) by (nonlinear_arith);
    }
}

/// Terms that agree with `f` index by index add up to the sum of `f`.
pub proof fn lemma_sum_of_terms(terms: Seq<isize>, f: spec_fn(int) -> int)
    requires
        forall|i: int| 0 <= i < terms.len() ==> #[trigger] terms[i] == f(i),
    ensures
        sum_of(terms) == sum_upto(f, terms.len() as int),
    decreases terms.len(),
{
    if terms.len() > 0 {
        lemma_sum_of_terms(terms.drop_last(), f);
    }
}

/// A table whose rows agree with `f` entry by entry adds up to the sum of
/// the row sums of `f`.
pub proof fn lemma_sum_of_table(
    table: Seq<Seq<isize>>,
    cols: int,
    f: spec_fn(int) -> spec_fn(int) -> int,
    row_sums: spec_fn(int) -> int,
)
    requires
        0 <= cols,
        forall|r: int| 0 <= r < table.len() ==> (#[trigger] table[r]).len() == cols,
        forall|r: int, c: int|
            0 <= r < table.len() && 0 <= c < cols ==> #[trigger] table[r][c] == f(r)(c),
        forall|r: int| 0 <= r < table.len() ==> #[trigger] row_sums(r) == sum_upto(f(r), cols),
    ensures
        sum_of_rows(table) == sum_upto(row_sums, table.len() as int),
    decreases table.len(),
{
    if table.len() > 0 {
        lemma_sum_of_table(table.drop_last(), cols, f, row_sums);
        lemma_sum_of_terms(table.last(), f(table.len() - 1));
    }
}

/// A sum of results of `f` is the sum of `g` where `g` says what `f`
/// returns for each index.
pub proof fn lemma_sum_of_calls<F: Fn(usize) -> isize>(
    f: F,
    n: usize,
    total: isize,
    g: spec_fn(int) -> int,
)
    requires
        sums_calls(f, n, total),
        forall|i: usize, term: isize| i < n && call_ensures(f, (i,), term) ==> term == g(i as int),
    ensures
        total == sum_upto(g, n as int),
{
    let terms = choose|terms: Seq<isize>|
        {
            &&& terms.len() == n
            &&& forall|i: int| 0 <= i < n ==> call_ensures(f, (i as usize,), #[trigger] terms[i])
            &&& total == sum_of(terms)
        };
    lemma_sum_of_terms(terms, g);
}

/// A sum of results of `f` over a grid is the sum of the row sums of `g`
/// where `g` says what `f` returns for each row and column.
pub proof fn lemma_sum_of_grid_calls<F: Fn(usize, usize) -> isize>(
    f: F,
    rows: usize,
    cols: usize,
    total: isize,
    g: spec_fn(int) -> spec_fn(int) -> int,
    row_sums: spec_fn(int) -> int,
)
    requires
        sums_grid_calls(f, rows, cols, total),
        forall|r: usize, c: usize, term: isize|
            r < rows && c < cols && call_ensures(f, (r, c), term) ==> term == g(r as int)(c as int),
        forall|r: int| 0 <= r < rows ==> #[trigger] row_sums(r) == sum_upto(g(r), cols as int),
    ensures
        total == sum_upto(row_sums, rows as int),
{
    let table = choose|table: Seq<Seq<isize>>|
        {
            &&& table.len() == rows
            &&& forall|r: int| 0 <= r < rows ==> (#[trigger] table[r]).len() == cols
            &&& forall|r: int, c: int|
                0 <= r < rows && 0 <= c < cols ==> call_ensures(
                    f,
                    (r as usize, c as usize),
                    #[trigger] table[r][c],
                )
            &&& total == sum_of_rows(table)
        };
    lemma_sum_of_table(table, cols as int, g, row_sums);
}

/// The score of a line is at most 100 for each of its cells, either way.
pub proof fn lemma_line_score_bounded(line: Seq<Cell>)
    ensures
        -100 * line.len() <= line_score(line) <= 100 * line.len(),
{
    lemma_sum_upto_bounded(credits(line), line.len() as int, 100);
}

/// The score of a board lies between -32400 and 32400: at most 10800 for
/// the rows, as much for the columns and as much for the diagonals.
pub proof fn lemma_score_bounded(g: Grid)
    requires
        shaped(g),
    ensures
        -10800 <= rows_score(g) <= 10800,
        -10800 <= cols_score(g) <= 10800,
        -5400 <= diagonal_score(g, 1) <= 5400,
        -5400 <= diagonal_score(g, -1) <= 5400,
        -32400 <= score(g) <= 32400,
{
    assert forall|r: int| 0 <= r < NUM_OF_ROWS implies -900 <= #[trigger] row_scores(g)(r)
        <= 900 by {
        lemma_line_score_bounded(g[r]);
    }
    lemma_sum_upto_bounded(row_scores(g), NUM_OF_ROWS as int, 900);
    assert forall|c: int| 0 <= c < NUM_OF_COLS implies -1200 <= #[trigger] column_scores(g)(c)
        <= 1200 by {
        lemma_line_score_bounded(column_of(g, c));
    }
    lemma_sum_upto_bounded(column_scores(g), NUM_OF_COLS as int, 1200);
    lemma_diagonal_score_bounded(g, 1);
    lemma_diagonal_score_bounded(g, -1);
}

/// The diagonal windows of one direction score at most 100 each.
pub proof fn lemma_diagonal_score_bounded(g: Grid, dr: int)
    ensures
        -5400 <= diagonal_score(g, dr) <= 5400,
{
    assert forall|r: int| 0 <= r < window_rows() implies -600 <= #[trigger] window_row_scores(
        g,
        dr,
    )(r) <= 600 by {
        lemma_sum_upto_bounded(window_scores(g, first_window_row(dr) + r, dr), window_cols(), 100);
    }
    lemma_sum_upto_bounded(window_row_scores(g, dr), window_rows(), 600);
}

/// The value of a window by the counts of the two sides' markers in it.
pub fn calculate_score(count_p: usize, count_s: usize) -> (score: isize)
    ensures
        score == window_value(count_p as int, count_s as int),
{
    let mut score: isize = 0;
    if count_p == SEQ_TO_WIN {
        score += 100;
    } else if count_s == SEQ_TO_WIN {
        score -= 100;
    }
    score
}

/// The score of one line of cells. Two counters follow the current run of
/// each side; after every cell the bonus of the first side's run is added
/// and that of the second side's taken off.
pub fn evaluate_line(line: Vec<Cell>) -> (score: isize)
    requires
        100 * line@.len() <= isize::MAX,
    ensures
        score == line_score(line@),
{
    let mut score: isize = 0;
    let mut count_p: usize = 0;
    let mut count_s: usize = 0;
    let mut i: usize = 0;
    while i < line.len()
        invariant
            i <= line.len(),
            100 * line@.len() <= isize::MAX,
            count_p <= i,
            count_s <= i,
            count_p == run_ending(line@, i - 1, Cell::First),
            count_s == run_ending(line@, i - 1, Cell::Second),
            score == sum_upto(credits(line@), i as int),
            -100 * i <= score <= 100 * i,
        decreases line.len() - i,
    {
        let value = line[i];
        if value == Cell::First {
            count_p += 1;
            count_s = 0;
        } else if value == Cell::Second {
            count_s += 1;
            count_p = 0;
        } else {
            count_p = 0;
            count_s = 0;
        }
        let gain: isize = match count_p {
            2 => 10,
            3 => 50,
            4 => 100,
            _ => 0,
        };
        let loss: isize = match count_s {
            2 => 10,
            3 => 50,
            4 => 100,
            _ => 0,
        };
        assert(gain - loss == credits(line@)(i as int));
        score += gain;
        score -= loss;
        i += 1;
    }
    score
}

impl GameMatrix {
    /// The cells of `row`, from the left edge to the right.
    fn row_line(&self, row: usize) -> (line: Vec<Cell>)
        requires
            row < NUM_OF_ROWS,
        ensures
            line@ == self@[row as int],
            line@.len() == NUM_OF_COLS,
    {
        proof {
            self.lemma_shaped();
        }
        let mut line: Vec<Cell> = Vec::new();
        let mut col: usize = 0;
        while col < NUM_OF_COLS
            invariant
                row < NUM_OF_ROWS,
                col <= NUM_OF_COLS,
                line@.len() == col,
                shaped(self@),
                forall|k: int| 0 <= k < col ==> #[trigger] line@[k] == self@[row as int][k],
            decreases NUM_OF_COLS - col,
        {
            line.push(self.cell(row, col));
            col += 1;
        }
        assert(line@ =~= self@[row as int]);
        line
    }

    /// The cells of `column`, from the top edge to the bottom.
    fn column_line(&self, column: usize) -> (line: Vec<Cell>)
        requires
            column < NUM_OF_COLS,
        ensures
            line@ == column_of(self@, column as int),
            line@.len() == NUM_OF_ROWS,
    {
        let mut line: Vec<Cell> = Vec::new();
        let mut row: usize = 0;
        while row < NUM_OF_ROWS
            invariant
                column < NUM_OF_COLS,
                row <= NUM_OF_ROWS,
                line@.len() == row,
                forall|k: int| 0 <= k < row ==> #[trigger] line@[k] == self@[k][column as int],
            decreases NUM_OF_ROWS - row,
        {
            line.push(self.cell(row, column));
            row += 1;
        }
        assert(line@ =~= column_of(self@, column as int));
        line
    }

    /// The sum of the scores of all rows, each row scored on its own worker.
    fn evaluate_rows(&self) -> (total: isize)
        ensures
            total == rows_score(self@),
    {
        let score_row = |row: usize| -> (s: isize)
            requires
                row < NUM_OF_ROWS,
            ensures
                s == line_score(self@[row as int]),
                -900 <= s <= 900,
            {
                let line = self.row_line(row);
                proof {
                    lemma_line_score_bounded(line@);
                }
                evaluate_line(line)
            };
        let total = par_sum(NUM_OF_ROWS, score_row);
        proof {
            lemma_sum_of_calls(score_row, NUM_OF_ROWS, total, row_scores(self@));
        }
        total
    }

    /// The sum of the scores of all columns, each column scored on its own
    /// worker.
    fn evaluate_cols(&self) -> (total: isize)
        ensures
            total == cols_score(self@),
    {
        let score_column = |col: usize| -> (s: isize)
            requires
                col < NUM_OF_COLS,
            ensures
                s == line_score(column_of(self@, col as int)),
                -1200 <= s <= 1200,
            {
                let col_vec = self.column_line(col);
                proof {
                    lemma_line_score_bounded(col_vec@);
                }
                evaluate_line(col_vec)
            };
        let total = par_sum(NUM_OF_COLS, score_column);
        proof {
            lemma_sum_of_calls(score_column, NUM_OF_COLS, total, column_scores(self@));
        }
        total
    }

    /// The score of the window of four cells that starts at `(row, col)` and
    /// falls to the right.
    fn falling_window(&self, row: usize, col: usize) -> (s: isize)
        requires
            row < NUM_OF_ROWS - SEQ_TO_WIN + 1,
            col < NUM_OF_COLS - SEQ_TO_WIN + 1,
        ensures
            s == window_score(self@, row as int, col as int, 1),
    {
        let mut count_p: usize = 0;
        let mut count_s: usize = 0;
        let mut i: usize = 0;
        while i < SEQ_TO_WIN
            invariant
                row < NUM_OF_ROWS - SEQ_TO_WIN + 1,
                col < NUM_OF_COLS - SEQ_TO_WIN + 1,
                i <= SEQ_TO_WIN,
                count_p <= i,
                count_s <= i,
                count_p == i <==> forall|k: int|
                    0 <= k < i ==> #[trigger] self@[row + k][col + k] == Cell::First,
                count_s == i <==> forall|k: int|
                    0 <= k < i ==> #[trigger] self@[row + k][col + k] == Cell::Second,
            decreases SEQ_TO_WIN - i,
        {
            match self.cell(row + i, col + i) {
                Cell::First => count_p += 1,
                Cell::Second => count_s += 1,
                Cell::Empty => {},
            }
            i += 1;
        }
        proof {
            if count_p == SEQ_TO_WIN {
                assert(self@[row + 0][col + 0] == Cell::First);
                assert(self@[row + 1][col + 1] == Cell::First);
                assert(self@[row + 2][col + 2] == Cell::First);
                assert(self@[row + 3][col + 3] == Cell::First);
            }
            if count_s == SEQ_TO_WIN {
                assert(self@[row + 0][col + 0] == Cell::Second);
                assert(self@[row + 1][col + 1] == Cell::Second);
                assert(self@[row + 2][col + 2] == Cell::Second);
                assert(self@[row + 3][col + 3] == Cell::Second);
            }
        }
        calculate_score(count_p, count_s)
    }

    /// The score of the window of four cells that starts at `(row, col)` and
    /// rises to the right.
    fn rising_window(&self, row: usize, col: usize) -> (s: isize)
        requires
            SEQ_TO_WIN - 1 <= row < NUM_OF_ROWS,
            col < NUM_OF_COLS - SEQ_TO_WIN + 1,
        ensures
            s == window_score(self@, row as int, col as int, -1),
    {
        let mut count_p: usize = 0;
        let mut count_s: usize = 0;
        let mut i: usize = 0;
        while i < SEQ_TO_WIN
            invariant
                SEQ_TO_WIN - 1 <= row < NUM_OF_ROWS,
                col < NUM_OF_COLS - SEQ_TO_WIN + 1,
                i <= SEQ_TO_WIN,
                count_p <= i,
                count_s <= i,
                count_p == i <==> forall|k: int|
                    0 <= k < i ==> #[trigger] holds(self@, row - k, col + k, Cell::First),
                count_s == i <==> forall|k: int|
                    0 <= k < i ==> #[trigger] holds(self@, row - k, col + k, Cell::Second),
            decreases SEQ_TO_WIN - i,
        {
            // whether the cell now read holds a marker of either side
            let ghost held_p = holds(self@, row - i, col + i, Cell::First);
            let ghost held_s = holds(self@, row - i, col + i, Cell::Second);
            match self.cell(row - i, col + i) {
                Cell::First => count_p += 1,
                Cell::Second => count_s += 1,
                Cell::Empty => {},
            }
            i += 1;
        }
        proof {
            if count_p == SEQ_TO_WIN {
                assert(holds(self@, row - 0, col + 0, Cell::First));
                assert(holds(self@, row - 1, col + 1, Cell::First));
                assert(holds(self@, row - 2, col + 2, Cell::First));
                assert(holds(self@, row - 3, col + 3, Cell::First));
            }
            if count_s == SEQ_TO_WIN {
                assert(holds(self@, row - 0, col + 0, Cell::Second));
                assert(holds(self@, row - 1, col + 1, Cell::Second));
                assert(holds(self@, row - 2, col + 2, Cell::Second));
                assert(holds(self@, row - 3, col + 3, Cell::Second));
            }
        }
        calculate_score(count_p, count_s)
    }

    /// The sum of the scores of the windows that fall to the right, each
    /// window scored on its own worker.
    fn evaluate_falling_diagonals(&self) -> (total: isize)
        ensures
            total == falling_score(self@),
    {
        let score_window = |row: usize, col: usize| -> (s: isize)
            requires
                row < NUM_OF_ROWS - SEQ_TO_WIN + 1,
                col < NUM_OF_COLS - SEQ_TO_WIN + 1,
            ensures
                s == window_score(self@, row as int, col as int, 1),
            { self.falling_window(row, col) };
        let rows: usize = NUM_OF_ROWS - SEQ_TO_WIN + 1;
        let cols: usize = NUM_OF_COLS - SEQ_TO_WIN + 1;
        let total = par_sum_grid(rows, cols, score_window);
        proof {
            lemma_sum_of_grid_calls(
                score_window,
                rows,
                cols,
                total,
                windows(self@, 1),
                window_row_scores(self@, 1),
            );
        }
        total
    }

    /// The sum of the scores of the windows that rise to the right, each
    /// window scored on its own worker. The windows are numbered by their
    /// starting rows from the fourth row down, the first row from which a
    /// rising window stays on the board.
    fn evaluate_rising_diagonals(&self) -> (total: isize)
        ensures
            total == rising_score(self@),
    {
        let score_window = |k: usize, col: usize| -> (s: isize)
            requires
                k < NUM_OF_ROWS - SEQ_TO_WIN + 1,
                col < NUM_OF_COLS - SEQ_TO_WIN + 1,
            ensures
                s == window_score(self@, SEQ_TO_WIN - 1 + k, col as int, -1),
            { self.rising_window(SEQ_TO_WIN - 1 + k, col) };
        let rows: usize = NUM_OF_ROWS - SEQ_TO_WIN + 1;
        let cols: usize = NUM_OF_COLS - SEQ_TO_WIN + 1;
        let total = par_sum_grid(rows, cols, score_window);
        proof {
            lemma_sum_of_grid_calls(
                score_window,
                rows,
                cols,
                total,
                windows(self@, -1),
                window_row_scores(self@, -1),
            );
        }
        total
    }

    /// The sum of the scores of the diagonal windows of both directions.
    fn evaluate_diagonals(&self) -> (total: isize)
        ensures
            total == diagonals_score(self@),
    {
        let falling = self.evaluate_falling_diagonals();
        let rising = self.evaluate_rising_diagonals();
        proof {
            lemma_diagonal_score_bounded(self@, 1);
            lemma_diagonal_score_bounded(self@, -1);
        }
        falling + rising
    }

    /// The heuristic value of the position: the scores of the rows, of the
    /// columns and of the diagonals, computed side by side and added up. The
    /// value is computed afresh from the cells at every call.
    pub fn evaluate_board(&self) -> (value: isize)
        ensures
            value == score(self@),
            -32400 <= value <= 32400,
            valid(self@),
    {
        proof {
            use_type_invariant(self);
        }
        let rows = || -> (s: isize)
            ensures
                s == rows_score(self@),
            { self.evaluate_rows() };
        let cols = || -> (s: isize)
            ensures
                s == cols_score(self@),
            { self.evaluate_cols() };
        let diagonals = || -> (s: isize)
            ensures
                s == diagonals_score(self@),
            { self.evaluate_diagonals() };
        let rest = || -> (pair: (isize, isize))
            ensures
                pair.0 == cols_score(self@),
                pair.1 == diagonals_score(self@),
            { rayon::join(cols, diagonals) };
        let (rows_score, (cols_score, diagonals_score)) = rayon::join(rows, rest);
        proof {
            self.lemma_shaped();
            lemma_score_bounded(self@);
        }
        rows_score + cols_score + diagonals_score
    }
}

/// Evaluation is repeatable: the value is computed afresh from the cells,
/// so two evaluations of boards with the same cells return the same value.
pub proof fn lemma_evaluation_repeats(a: &GameMatrix, b: &GameMatrix, first: isize, second: isize)
    requires
        a@ == b@,
        call_ensures(GameMatrix::evaluate_board, (a,), first),
        call_ensures(GameMatrix::evaluate_board, (b,), second),
    ensures
        first == second,
{
}

} // verus!
