//! The mathematical model of the board: a sequence of rows, each a sequence
//! of cells. Row 0 is the top edge and the last row the bottom edge, on which
//! the markers of a column pile up.

use vstd::prelude::*;
use crate::cell::{marker_of, Cell, Team};

verus! {

/// Number of rows of the board.
pub const NUM_OF_ROWS: usize = 12;

/// Number of columns of the board.
pub const NUM_OF_COLS: usize = 9;

/// Number of markers in a line that wins the game.
pub const SEQ_TO_WIN: usize = 4;

/// A board as a sequence of rows, top row first.
pub type Grid = Seq<Seq<Cell>>;

/// Whether `(r, c)` names a cell of the board.
pub open spec fn on_board(r: int, c: int) -> bool {
    0 <= r < NUM_OF_ROWS && 0 <= c < NUM_OF_COLS
}

/// The grid has the board's dimensions.
pub open spec fn shaped(g: Grid) -> bool {
    &&& g.len() == NUM_OF_ROWS
    &&& forall|r: int| 0 <= r < NUM_OF_ROWS ==> (#[trigger] g[r]).len() == NUM_OF_COLS
}

/// Gravity holds: below a marker there is no empty cell, so the markers of a
/// column form one block that rests on the bottom edge.
pub open spec fn settled(g: Grid) -> bool {
    forall|r: int, below: int, c: int|
        0 <= r <= below < NUM_OF_ROWS && 0 <= c < NUM_OF_COLS && #[trigger] g[r][c] != Cell::Empty
            ==> #[trigger] g[below][c] != Cell::Empty
}

/// A grid that a game can reach: the board's dimensions, and gravity holds.
pub open spec fn valid(g: Grid) -> bool {
    shaped(g) && settled(g)
}

/// The board before the first move.
pub open spec fn empty_grid() -> Grid {
    Seq::new(NUM_OF_ROWS as nat, |r: int| Seq::new(NUM_OF_COLS as nat, |c: int| Cell::Empty))
}

/// The grid `g` with cell `(r, c)` set to `m`.
pub open spec fn place(g: Grid, r: int, c: int, m: Cell) -> Grid {
    g.update(r, g[r].update(c, m))
}

/// Column `c` has an empty cell left, so that a marker can be dropped into it.
pub open spec fn column_open(g: Grid, c: int) -> bool {
    0 <= c < NUM_OF_COLS && exists|r: int| 0 <= r < NUM_OF_ROWS && #[trigger] g[r][c] == Cell::Empty
}

/// Column `c` holds at least one marker.
pub open spec fn column_used(g: Grid, c: int) -> bool {
    0 <= c < NUM_OF_COLS && exists|r: int| 0 <= r < NUM_OF_ROWS && #[trigger] g[r][c] != Cell::Empty
}

/// Row `r` is where a marker dropped into column `c` comes to rest: the
/// empty cell nearest the bottom edge.
pub open spec fn is_landing(g: Grid, c: int, r: int) -> bool {
    &&& 0 <= r < NUM_OF_ROWS
    &&& g[r][c] == Cell::Empty
    &&& forall|k: int| r < k < NUM_OF_ROWS ==> #[trigger] g[k][c] != Cell::Empty
}

/// The row in which a marker dropped into column `c` comes to rest.
pub open spec fn landing_row(g: Grid, c: int) -> int {
    choose|r: int| is_landing(g, c, r)
}

/// Row `r` holds the topmost marker of column `c`.
pub open spec fn is_top(g: Grid, c: int, r: int) -> bool {
    &&& 0 <= r < NUM_OF_ROWS
    &&& g[r][c] != Cell::Empty
    &&& forall|k: int| 0 <= k < r ==> #[trigger] g[k][c] == Cell::Empty
}

/// The row of the topmost marker of column `c`.
pub open spec fn top_row(g: Grid, c: int) -> int {
    choose|r: int| is_top(g, c, r)
}

/// The grid after `team` has dropped a marker into column `c`.
pub open spec fn dropped(g: Grid, c: int, team: Team) -> Grid {
    place(g, landing_row(g, c), c, marker_of(team))
}

/// The grid after the topmost marker of column `c` has been taken away.
pub open spec fn lifted(g: Grid, c: int) -> Grid {
    place(g, top_row(g, c), c, Cell::Empty)
}

/// A column has at most one landing row: `landing_row` is the row that
/// `is_landing` describes.
pub proof fn lemma_landing_row(g: Grid, c: int, r: int)
    requires
        is_landing(g, c, r),
    ensures
        landing_row(g, c) == r,
{
    let chosen = landing_row(g, c);
    assert(is_landing(g, c, chosen));
    if chosen < r {
        assert(g[r][c] != Cell::Empty);
    } else if r < chosen {
        assert(g[chosen][c] != Cell::Empty);
    }
}

/// A column has at most one topmost marker: `top_row` is the row that
/// `is_top` describes.
pub proof fn lemma_top_row(g: Grid, c: int, r: int)
    requires
        is_top(g, c, r),
    ensures
        top_row(g, c) == r,
{
    let chosen = top_row(g, c);
    assert(is_top(g, c, chosen));
    if chosen < r {
        assert(g[chosen][c] == Cell::Empty);
    } else if r < chosen {
        assert(g[r][c] == Cell::Empty);
    }
}

/// The landing row of column `c` among the rows above `below`, if one of
/// them is empty.
proof fn lemma_landing_below(g: Grid, c: int, below: int) -> (r: int)
    requires
        0 <= below <= NUM_OF_ROWS,
        forall|k: int| below <= k < NUM_OF_ROWS ==> #[trigger] g[k][c] != Cell::Empty,
        exists|k: int| 0 <= k < below && #[trigger] g[k][c] == Cell::Empty,
    ensures
        is_landing(g, c, r),
    decreases below,
{
    if g[below - 1][c] == Cell::Empty {
        below - 1
    } else {
        lemma_landing_below(g, c, below - 1)
    }
}

/// An open column has a landing row.
pub proof fn lemma_open_column_lands(g: Grid, c: int)
    requires
        column_open(g, c),
    ensures
        is_landing(g, c, landing_row(g, c)),
{
    let r = lemma_landing_below(g, c, NUM_OF_ROWS as int);
    lemma_landing_row(g, c, r);
}

/// The topmost marker of column `c` among the rows from `above` on, if one
/// of them holds a marker.
proof fn lemma_top_above(g: Grid, c: int, above: int) -> (r: int)
    requires
        0 <= above <= NUM_OF_ROWS,
        forall|k: int| 0 <= k < above ==> #[trigger] g[k][c] == Cell::Empty,
        exists|k: int| above <= k < NUM_OF_ROWS && #[trigger] g[k][c] != Cell::Empty,
    ensures
        is_top(g, c, r),
    decreases NUM_OF_ROWS - above,
{
    if g[above][c] != Cell::Empty {
        above
    } else {
        lemma_top_above(g, c, above + 1)
    }
}

/// A column that holds a marker has a topmost one.
pub proof fn lemma_used_column_tops(g: Grid, c: int)
    requires
        column_used(g, c),
    ensures
        is_top(g, c, top_row(g, c)),
{
    let r = lemma_top_above(g, c, 0);
    lemma_top_row(g, c, r);
}

/// The empty board is a valid grid.
pub proof fn lemma_empty_grid_valid()
    ensures
        valid(empty_grid()),
{
}

/// Setting a cell keeps the dimensions and changes that cell alone.
pub proof fn lemma_place(g: Grid, r: int, c: int, m: Cell)
    requires
        shaped(g),
        on_board(r, c),
    ensures
        shaped(place(g, r, c, m)),
        place(g, r, c, m)[r][c] == m,
        forall|i: int, j: int|
            on_board(i, j) && (i != r || j != c) ==> #[trigger] place(g, r, c, m)[i][j] == g[i][j],
{
}

/// Dropping a marker into an open column of a valid grid gives a valid grid
/// in which that marker is the topmost of its column.
pub proof fn lemma_dropped_valid(g: Grid, c: int, team: Team)
    requires
        valid(g),
        column_open(g, c),
    ensures
        valid(dropped(g, c, team)),
        column_used(dropped(g, c, team), c),
        top_row(dropped(g, c, team), c) == landing_row(g, c),
{
    lemma_open_column_lands(g, c);
    let r = landing_row(g, c);
    let h = dropped(g, c, team);
    lemma_place(g, r, c, marker_of(team));
    assert(h[r][c] != Cell::Empty);
    assert forall|k: int| 0 <= k < r implies #[trigger] h[k][c] == Cell::Empty by {
        if g[k][c] != Cell::Empty {
            assert(g[r][c] != Cell::Empty);
        }
    }
    assert(is_top(h, c, r));
    lemma_top_row(h, c, r);
    assert forall|i: int, below: int, j: int|
        0 <= i <= below < NUM_OF_ROWS && 0 <= j < NUM_OF_COLS && #[trigger] h[i][j]
            != Cell::Empty implies #[trigger] h[below][j] != Cell::Empty by {
        if j == c && i == r {
        } else {
            assert(g[i][j] != Cell::Empty);
            assert(g[below][j] != Cell::Empty);
        }
    }
}

/// Taking the topmost marker from a column of a valid grid gives a valid
/// grid.
pub proof fn lemma_lifted_valid(g: Grid, c: int)
    requires
        valid(g),
        column_used(g, c),
    ensures
        valid(lifted(g, c)),
        column_open(lifted(g, c), c),
{
    lemma_used_column_tops(g, c);
    let r = top_row(g, c);
    let h = lifted(g, c);
    lemma_place(g, r, c, Cell::Empty);
    assert(h[r][c] == Cell::Empty);
    assert forall|i: int, below: int, j: int|
        0 <= i <= below < NUM_OF_ROWS && 0 <= j < NUM_OF_COLS && #[trigger] h[i][j]
            != Cell::Empty implies #[trigger] h[below][j] != Cell::Empty by {
        assert(g[i][j] != Cell::Empty);
        assert(g[below][j] != Cell::Empty);
        if j == c && below == r {
            assert(i == r);
        }
    }
}

/// A move that is taken back leaves no trace: dropping a marker into an open
/// column of a valid grid and then taking the topmost marker of that column
/// away gives the grid back, cell for cell.
pub proof fn lemma_drop_then_lift(g: Grid, c: int, team: Team)
    requires
        valid(g),
        column_open(g, c),
    ensures
        lifted(dropped(g, c, team), c) == g,
{
    lemma_open_column_lands(g, c);
    lemma_dropped_valid(g, c, team);
    let r = landing_row(g, c);
    let h = dropped(g, c, team);
    lemma_place(g, r, c, marker_of(team));
    lemma_place(h, r, c, Cell::Empty);
    let back = lifted(h, c);
    assert(back.len() == g.len());
    assert forall|i: int| 0 <= i < g.len() implies back[i] == g[i] by {
        assert(back[i].len() == g[i].len());
        assert forall|j: int| 0 <= j < g[i].len() implies back[i][j] == g[i][j] by {
            if i == r && j == c {
            } else {
                assert(back[i][j] == h[i][j]);
            }
        }
        assert(back[i] =~= g[i]);
    }
    assert(back =~= g);
}

} // verus!
