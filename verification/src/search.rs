//! The search: minimax to a fixed depth over the positions that the moves
//! of the two sides lead to, the moves of one position explored side by
//! side.

use vstd::prelude::*;
use crate::board::GameMatrix;
use crate::cell::Team;
use crate::grid::{column_open, dropped, valid, Grid, NUM_OF_COLS};
use crate::parallel::{
    first_least, last_greatest, lemma_first_least, lemma_last_greatest, par_filter_map,
    par_max_by_score, par_min_by_score, somes,
};
use crate::score::score;
use crate::win::has_won;

verus! {

/// The side that moves at a node: the first side where the score is
/// maximized, the second where it is minimized.
pub open spec fn side_to_move(maximizing: bool) -> Team {
    if maximizing {
        Team::First
    } else {
        Team::Second
    }
}

/// The search stops at this position: no depth is left, or one side has
/// won already.
pub open spec fn terminal(g: Grid, depth: nat) -> bool {
    depth == 0 || has_won(g, Team::First) || has_won(g, Team::Second)
}

/// What the move into column `c` yields at a node with `depth` plies left:
/// for an open column the score that the search finds for the position
/// after the move, with one ply less and the other side to move, paired
/// with the column; `None` for a column that takes no marker.
pub open spec fn branch(g: Grid, depth: nat, maximizing: bool, c: int) -> Option<(isize, usize)>
    decreases depth, 0nat,
{
    if depth > 0 && column_open(g, c) {
        Some(
            (
                search(
                    dropped(g, c, side_to_move(maximizing)),
                    (depth - 1) as nat,
                    !maximizing,
                ).0,
                c as usize,
            ),
        )
    } else {
        None
    }
}

/// The branches of all columns, by column index.
pub open spec fn branches(g: Grid, depth: nat, maximizing: bool) -> Seq<Option<(isize, usize)>>
    decreases depth, 1nat,
{
    Seq::new(NUM_OF_COLS as nat, |c: int| branch(g, depth, maximizing, c))
}

/// The pairs of score and column of the legal moves, in ascending order of
/// the columns.
pub open spec fn candidates(g: Grid, depth: nat, maximizing: bool) -> Seq<(isize, usize)>
    decreases depth, 2nat,
{
    somes(branches(g, depth, maximizing))
}

/// The result of the search: at a terminal position its score, with column
/// 0; otherwise the candidate with the greatest score where the first side
/// moves, of several such the one with the highest column, and the
/// candidate with the least score where the second side moves, of several
/// such the one with the lowest column. A position without a legal move
/// gives the least score there is to the maximizing side and the greatest to
/// the minimizing side, with column 0.
pub open spec fn search(g: Grid, depth: nat, maximizing: bool) -> (isize, usize)
    decreases depth, 3nat,
{
    if terminal(g, depth) {
        (score(g) as isize, 0)
    } else if maximizing {
        match last_greatest(candidates(g, depth, maximizing)) {
            Some(best) => best,
            None => (isize::MIN, 0),
        }
    } else {
        match first_least(candidates(g, depth, maximizing)) {
            Some(best) => best,
            None => (isize::MAX, 0),
        }
    }
}

/// The `Some` entries among the first `n` of `outs`, where every entry
/// that is `Some` names its own index as its column: each kept pair is the
/// entry at its column, every `Some` entry is kept, and the columns of the
/// kept pairs ascend.
proof fn lemma_kept_branches(outs: Seq<Option<(isize, usize)>>, n: int)
    requires
        0 <= n <= outs.len(),
        forall|k: int| 0 <= k < outs.len() && outs[k] is Some ==> ((#[trigger] outs[k])->0).1 == k,
    ensures
        forall|i: int|
            0 <= i < somes(outs.take(n)).len() ==> 0 <= (#[trigger] somes(outs.take(n))[i]).1 < n
                && outs[somes(outs.take(n))[i].1 as int] == Some(somes(outs.take(n))[i]),
        forall|k: int|
            0 <= k < n && (#[trigger] outs[k]) is Some ==> somes(outs.take(n)).contains(outs[k]->0),
        forall|i: int, j: int|
            0 <= i < j < somes(outs.take(n)).len() ==> (#[trigger] somes(outs.take(n))[i]).1 < (
            #[trigger] somes(outs.take(n))[j]).1,
    decreases n,
{
    let kept = somes(outs.take(n));
    if n > 0 {
        let front = somes(outs.take(n - 1));
        lemma_kept_branches(outs, n - 1);
        assert(outs.take(n).drop_last() =~= outs.take(n - 1));
        assert(outs.take(n).last() == outs[n - 1]);
        match outs[n - 1] {
            Some(pair) => {
                assert(kept == front.push(pair));
                assert(kept[front.len() as int] == pair);
                assert forall|k: int| 0 <= k < n && (#[trigger] outs[k]) is Some implies kept.contains(
                    outs[k]->0,
                ) by {
                    if k < n - 1 {
                        let at = choose|at: int| 0 <= at < front.len() && front[at] == outs[k]->0;
                        assert(kept[at] == outs[k]->0);
                    }
                }
            },
            None => {
                assert(kept == front);
            },
        }
    }
}

/// What the candidates of a node are: each candidate pairs an open column
/// with the score of its branch, every open column has its candidate, and
/// the columns of the candidates ascend.
pub proof fn lemma_candidates(g: Grid, depth: nat, maximizing: bool)
    requires
        depth > 0,
    ensures
        forall|i: int|
            0 <= i < candidates(g, depth, maximizing).len() ==> column_open(
                g,
                (#[trigger] candidates(g, depth, maximizing)[i]).1 as int,
            ) && branch(g, depth, maximizing, candidates(g, depth, maximizing)[i].1 as int) == Some(
                candidates(g, depth, maximizing)[i],
            ),
        forall|c: int| #[trigger]
            column_open(g, c) ==> candidates(g, depth, maximizing).contains(
                branch(g, depth, maximizing, c)->0,
            ),
        forall|i: int, j: int|
            0 <= i < j < candidates(g, depth, maximizing).len() ==> (#[trigger] candidates(
                g,
                depth,
                maximizing,
            )[i]).1 < (#[trigger] candidates(g, depth, maximizing)[j]).1,
{
    let outs = branches(g, depth, maximizing);
    lemma_kept_branches(outs, NUM_OF_COLS as int);
    assert(outs.take(NUM_OF_COLS as int) =~= outs);
    assert forall|c: int| #[trigger] column_open(g, c) implies candidates(
        g,
        depth,
        maximizing,
    ).contains(branch(g, depth, maximizing, c)->0) by {
        assert(outs[c] is Some);
    }
}

/// The column that the search returns lies on the board.
pub proof fn lemma_search_column_on_board(g: Grid, depth: nat, maximizing: bool)
    ensures
        search(g, depth, maximizing).1 < NUM_OF_COLS,
{
    if !terminal(g, depth) {
        lemma_candidates(g, depth, maximizing);
        let pairs = candidates(g, depth, maximizing);
        if pairs.len() > 0 {
            if maximizing {
                let i = lemma_last_greatest(pairs);
            } else {
                let i = lemma_first_least(pairs);
            }
        }
    }
}

/// The search proposes a legal move: at a position where no side has won
/// and some column is open, a search of one ply or more returns an open
/// column.
pub proof fn lemma_search_proposes_open_column(g: Grid, depth: nat, maximizing: bool)
    requires
        depth >= 1,
        !has_won(g, Team::First),
        !has_won(g, Team::Second),
        exists|c: int| column_open(g, c),
    ensures
        column_open(g, search(g, depth, maximizing).1 as int),
{
    lemma_candidates(g, depth, maximizing);
    let open = choose|c: int| column_open(g, c);
    let pairs = candidates(g, depth, maximizing);
    assert(pairs.contains(branch(g, depth, maximizing, open)->0));
    if maximizing {
        let i = lemma_last_greatest(pairs);
    } else {
        let i = lemma_first_least(pairs);
    }
}

/// The search never proposes a full column: at a position where no side
/// has won, a search of one ply or more returns an open column, unless no
/// column is open, and then it returns column 0 with the least score there
/// is for the maximizing side and the greatest for the minimizing side.
pub proof fn lemma_search_avoids_full_columns(g: Grid, depth: nat, maximizing: bool)
    requires
        depth >= 1,
        !has_won(g, Team::First),
        !has_won(g, Team::Second),
    ensures
        column_open(g, search(g, depth, maximizing).1 as int) || {
            &&& forall|c: int| !column_open(g, c)
            &&& search(g, depth, maximizing) == if maximizing {
                (isize::MIN, 0usize)
            } else {
                (isize::MAX, 0usize)
            }
        },
{
    lemma_candidates(g, depth, maximizing);
    let pairs = candidates(g, depth, maximizing);
    if pairs.len() > 0 {
        if maximizing {
            let i = lemma_last_greatest(pairs);
        } else {
            let i = lemma_first_least(pairs);
        }
    } else {
        assert forall|c: int| !column_open(g, c) by {
            if column_open(g, c) {
                assert(pairs.contains(branch(g, depth, maximizing, c)->0));
            }
        }
    }
}

/// The score that the search returns at a position that is not terminal
/// and has a legal move is the best of the scores of its branches: no
/// branch scores more where the first side moves, none less where the
/// second side moves.
pub proof fn lemma_search_takes_best_branch(g: Grid, depth: nat, maximizing: bool, c: int)
    requires
        depth >= 1,
        !has_won(g, Team::First),
        !has_won(g, Team::Second),
        column_open(g, c),
    ensures
        maximizing ==> (branch(g, depth, maximizing, c)->0).0 <= search(g, depth, maximizing).0,
        !maximizing ==> (branch(g, depth, maximizing, c)->0).0 >= search(g, depth, maximizing).0,
        branch(g, depth, maximizing, search(g, depth, maximizing).1 as int) == Some(
            search(g, depth, maximizing),
        ),
{
    lemma_candidates(g, depth, maximizing);
    let pairs = candidates(g, depth, maximizing);
    let pair = branch(g, depth, maximizing, c)->0;
    assert(pairs.contains(pair));
    let at = choose|at: int| 0 <= at < pairs.len() && pairs[at] == pair;
    if maximizing {
        let i = lemma_last_greatest(pairs);
        assert(pairs[at].0 <= pairs[i].0);
    } else {
        let i = lemma_first_least(pairs);
        assert(pairs[at].0 >= pairs[i].0);
    }
}

impl GameMatrix {
    /// The best move for the side to move, by a search of `depth` plies:
    /// the score that the move leads to and its column. `is_maximizing`
    /// says that the first side moves, which seeks the greatest score; the
    /// second side seeks the least. The moves of a position are explored
    /// side by side, each on a copy of the board, and the board itself is
    /// left as it was. The result depends on the cells, the depth and the
    /// flag alone.
    pub fn minimax(&mut self, depth: usize, is_maximizing: bool) -> (best: (isize, usize))
        ensures
            best == search(old(self)@, depth as nat, is_maximizing),
            final(self)@ == old(self)@,
            valid(final(self)@),
        decreases depth,
    {
        proof {
            use_type_invariant(&*self);
        }
        if depth == 0 || self.check_win(Team::First) || self.check_win(Team::Second) {
            return (self.evaluate_board(), 0);
        }
        let board: GameMatrix = *self;
        let team = if is_maximizing {
            Team::First
        } else {
            Team::Second
        };
        let explore = |col: usize| -> (found: Option<(isize, usize)>)
            requires
                col < NUM_OF_COLS,
            ensures
                found == branch(board@, depth as nat, is_maximizing, col as int),
            {
                let mut new_game = board.clone();
                if new_game.add_value(col, team).is_ok() {
                    let score = if is_maximizing {
                        let (score, _) = new_game.minimax(depth - 1, false);
                        score
                    } else {
                        let (score, _) = new_game.minimax(depth - 1, true);
                        score
                    };
                    let _ = new_game.remove_value(col);
                    Some((score, col))
                } else {
                    None
                }
            };
        let moves_scores = par_filter_map(NUM_OF_COLS, explore);
        proof {
            let outs = choose|outs: Seq<Option<(isize, usize)>>|
                {
                    &&& outs.len() == NUM_OF_COLS
                    &&& forall|i: int|
                        0 <= i < NUM_OF_COLS ==> call_ensures(
                            explore,
                            (i as usize,),
                            #[trigger] outs[i],
                        )
                    &&& moves_scores@ == somes(outs)
                };
            assert(outs =~= branches(board@, depth as nat, is_maximizing));
        }
        if is_maximizing {
            par_max_by_score(&moves_scores).unwrap_or((isize::MIN, 0))
        } else {
            par_min_by_score(&moves_scores).unwrap_or((isize::MAX, 0))
        }
    }
}

/// Searching is repeatable: two searches of boards with the same cells, to
/// the same depth and for the same side, return the same score and the same
/// column, however the workers were scheduled.
pub proof fn lemma_search_repeats(
    a: &mut GameMatrix,
    b: &mut GameMatrix,
    depth: usize,
    is_maximizing: bool,
    first: (isize, usize),
    second: (isize, usize),
)
    requires
        old(a)@ == old(b)@,
        call_ensures(GameMatrix::minimax, (a, depth, is_maximizing), first),
        call_ensures(GameMatrix::minimax, (b, depth, is_maximizing), second),
    ensures
        first == second,
{
}

} // verus!
