//! The data-parallel steps of evaluation and search, run on rayon's worker
//! pool, and what is taken on trust about them.
//!
//! Each function here hands a closure to rayon. Its contract is stated over
//! the closure's own contract: what is summed or collected are results of
//! calls of the closure, one for each index, in the order of the indices.

use vstd::prelude::*;
use rayon::iter::{IntoParallelIterator, IntoParallelRefIterator, ParallelIterator};

verus! {

/// The sum of a sequence of scores.
pub open spec fn sum_of(terms: Seq<isize>) -> int
    decreases terms.len(),
{
    if terms.len() == 0 {
        0
    } else {
        sum_of(terms.drop_last()) + terms.last()
    }
}

/// The sum of the sums of the rows of a table of scores.
pub open spec fn sum_of_rows(table: Seq<Seq<isize>>) -> int
    decreases table.len(),
{
    if table.len() == 0 {
        0
    } else {
        sum_of_rows(table.drop_last()) + sum_of(table.last())
    }
}

/// The values of the `Some` entries of a sequence, in their order.
pub open spec fn somes<T>(outs: Seq<Option<T>>) -> Seq<T>
    decreases outs.len(),
{
    if outs.len() == 0 {
        Seq::empty()
    } else {
        match outs.last() {
            Some(item) => somes(outs.drop_last()).push(item),
            None => somes(outs.drop_last()),
        }
    }
}

/// Whether `count` terms as large as `term` can be added up, in any
/// grouping, within the range of `isize`.
pub open spec fn addable(term: isize, count: int) -> bool {
    -(isize::MAX as int / count) <= term <= isize::MAX as int / count
}

/// `total` is the sum of one result of `f` for each index below `n`.
pub open spec fn sums_calls<F: Fn(usize) -> isize>(f: F, n: usize, total: isize) -> bool {
    exists|terms: Seq<isize>|
        {
            &&& terms.len() == n
            &&& forall|i: int| 0 <= i < n ==> call_ensures(f, (i as usize,), #[trigger] terms[i])
            &&& total == sum_of(terms)
        }
}

/// `total` is the sum of one result of `f` for each pair of a row index
/// below `rows` and a column index below `cols`.
pub open spec fn sums_grid_calls<F: Fn(usize, usize) -> isize>(
    f: F,
    rows: usize,
    cols: usize,
    total: isize,
) -> bool {
    exists|table: Seq<Seq<isize>>|
        {
            &&& table.len() == rows
            &&& forall|r: int| 0 <= r < rows ==> (#[trigger] table[r]).len() == cols
            &&& forall|r: int, c: int|
                0 <= r < rows && 0 <= c < cols ==> call_ensures(
                    f,
                    (r as usize, c as usize),
                    #[trigger] table[r][c],
                )
            &&& total == sum_of_rows(table)
        }
}

/// `items` holds, in the order of the indices, the values of those results
/// of `f` for the indices below `n` that are `Some`.
pub open spec fn keeps_calls<T, F: Fn(usize) -> Option<T>>(f: F, n: usize, items: Seq<T>) -> bool {
    exists|outs: Seq<Option<T>>|
        {
            &&& outs.len() == n
            &&& forall|i: int| 0 <= i < n ==> call_ensures(f, (i as usize,), #[trigger] outs[i])
            &&& items == somes(outs)
        }
}

/// The pair with the greatest score, and of several such the last one.
pub open spec fn last_greatest(pairs: Seq<(isize, usize)>) -> Option<(isize, usize)>
    decreases pairs.len(),
{
    if pairs.len() == 0 {
        None
    } else {
        match last_greatest(pairs.drop_last()) {
            Some(before) => if before.0 > pairs.last().0 {
                Some(before)
            } else {
                Some(pairs.last())
            },
            None => Some(pairs.last()),
        }
    }
}

/// The pair with the least score, and of several such the first one.
pub open spec fn first_least(pairs: Seq<(isize, usize)>) -> Option<(isize, usize)>
    decreases pairs.len(),
{
    if pairs.len() == 0 {
        None
    } else {
        match first_least(pairs.drop_last()) {
            Some(before) => if before.0 > pairs.last().0 {
                Some(pairs.last())
            } else {
                Some(before)
            },
            None => Some(pairs.last()),
        }
    }
}

/// What `last_greatest` picks from a sequence that is not empty: the pair
/// at an index `i` whose score no pair exceeds and no later pair reaches.
pub proof fn lemma_last_greatest(pairs: Seq<(isize, usize)>) -> (i: int)
    requires
        pairs.len() > 0,
    ensures
        0 <= i < pairs.len(),
        last_greatest(pairs) == Some(pairs[i]),
        forall|j: int| 0 <= j < pairs.len() ==> (#[trigger] pairs[j]).0 <= pairs[i].0,
        forall|j: int| i < j < pairs.len() ==> (#[trigger] pairs[j]).0 < pairs[i].0,
    decreases pairs.len(),
{
    let front = pairs.drop_last();
    let last = pairs.len() - 1;
    if front.len() == 0 {
        last
    } else {
        let k = lemma_last_greatest(front);
        assert(front[k] == pairs[k]);
        assert forall|j: int| 0 <= j < front.len() implies (#[trigger] pairs[j]).0 <= pairs[k].0 by {
            assert(front[j] == pairs[j]);
        }
        assert forall|j: int| k < j < front.len() implies (#[trigger] pairs[j]).0 < pairs[k].0 by {
            assert(front[j] == pairs[j]);
        }
        if pairs[k].0 > pairs[last].0 {
            k
        } else {
            last
        }
    }
}

/// What `first_least` picks from a sequence that is not empty: the pair at
/// an index `i` below whose score no pair lies and which no earlier pair
/// reaches.
pub proof fn lemma_first_least(pairs: Seq<(isize, usize)>) -> (i: int)
    requires
        pairs.len() > 0,
    ensures
        0 <= i < pairs.len(),
        first_least(pairs) == Some(pairs[i]),
        forall|j: int| 0 <= j < pairs.len() ==> (#[trigger] pairs[j]).0 >= pairs[i].0,
        forall|j: int| 0 <= j < i ==> (#[trigger] pairs[j]).0 > pairs[i].0,
    decreases pairs.len(),
{
    let front = pairs.drop_last();
    let last = pairs.len() - 1;
    if front.len() == 0 {
        last
    } else {
        let k = lemma_first_least(front);
        assert(front[k] == pairs[k]);
        assert forall|j: int| 0 <= j < front.len() implies (#[trigger] pairs[j]).0 >= pairs[k].0 by {
            assert(front[j] == pairs[j]);
        }
        assert forall|j: int| 0 <= j < k implies (#[trigger] pairs[j]).0 > pairs[k].0 by {
            assert(front[j] == pairs[j]);
        }
        if pairs[k].0 > pairs[last].0 {
            last
        } else {
            k
        }
    }
}

/// `rayon::join`: runs both closures, possibly at the same time on two
/// worker threads, and returns when both are done. Taken on trust: each
/// closure is called once, and the pair holds what the first and what the
/// second returned.
pub assume_specification<A, B, RA, RB>[ rayon::join::<A, B, RA, RB> ](oper_a: A, oper_b: B) -> (pair: (
    RA,
    RB,
))
    where A: FnOnce() -> RA + Send, B: FnOnce() -> RB + Send, RA: Send, RB: Send
    requires
        call_requires(oper_a, ()),
        call_requires(oper_b, ()),
    ensures
        call_ensures(oper_a, (), pair.0),
        call_ensures(oper_b, (), pair.1),
;

/// The sum of `f(i)` over the indices `i` below `n`, by rayon's
/// `into_par_iter` on a range, `map` and `sum`. Taken on trust: `f` is
/// called once for each index and the results are added up. The terms must
/// be small enough that no partial sum, in whatever grouping the workers
/// add them, leaves the range of `isize`.
#[verifier::external_body]
pub(crate) fn par_sum<F: Fn(usize) -> isize + Sync + Send>(n: usize, f: F) -> (total: isize)
    requires
        forall|i: usize| i < n ==> call_requires(f, (i,)),
        forall|i: usize, term: isize|
            i < n && call_ensures(f, (i,), term) ==> addable(term, n as int),
    ensures
        sums_calls(f, n, total),
{
    (0..n).into_par_iter().map(f).sum()
}

/// The sum of `f(r, c)` over the row indices `r` below `rows` and the column
/// indices `c` below `cols`, by rayon's `flat_map` over the rows of a `map`
/// over the columns, and `sum`. Taken on trust: `f` is called once for each
/// pair and the results are added up. The terms must be small enough that
/// no partial sum leaves the range of `isize`.
#[verifier::external_body]
pub(crate) fn par_sum_grid<F: Fn(usize, usize) -> isize + Sync + Send>(
    rows: usize,
    cols: usize,
    f: F,
) -> (total: isize)
    requires
        forall|r: usize, c: usize| r < rows && c < cols ==> call_requires(f, (r, c)),
        forall|r: usize, c: usize, term: isize|
            r < rows && c < cols && call_ensures(f, (r, c), term) ==> addable(term, rows * cols),
    ensures
        sums_grid_calls(f, rows, cols, total),
{
    let f = &f;
    (0..rows).into_par_iter().flat_map(
        |row| (0..cols).into_par_iter().map(move |col| f(row, col)),
    ).sum()
}

/// The `Some` results of `f(i)` for the indices `i` below `n`, by rayon's
/// `into_par_iter` on a range, `filter_map` and `collect`. Taken on trust:
/// `f` is called once for each index, and the vector holds the kept values
/// in the order of their indices, whichever call ended first.
#[verifier::external_body]
pub(crate) fn par_filter_map<T: Send, F: Fn(usize) -> Option<T> + Sync + Send>(n: usize, f: F) -> (items:
    Vec<T>)
    requires
        forall|i: usize| i < n ==> call_requires(f, (i,)),
    ensures
        keeps_calls(f, n, items@),
{
    (0..n).into_par_iter().filter_map(f).collect()
}

/// The pair with the greatest score, by rayon's `par_iter` and
/// `max_by_key`. Taken on trust: an empty vector gives `None`; the pairs are
/// reduced in their order by an operation that keeps its left operand where
/// that has the greater score and its right operand otherwise, so of
/// several pairs with the greatest score the last one is returned.
#[verifier::external_body]
pub(crate) fn par_max_by_score(pairs: &Vec<(isize, usize)>) -> (best: Option<(isize, usize)>)
    ensures
        best == last_greatest(pairs@),
{
    pairs.par_iter().max_by_key(|k| k.0).cloned()
}

/// The pair with the least score, by rayon's `par_iter` and `min_by_key`.
/// Taken on trust: an empty vector gives `None`; the pairs are reduced in
/// their order by an operation that keeps its right operand where the left
/// one has the greater score and its left operand otherwise, so of several
/// pairs with the least score the first one is returned.
#[verifier::external_body]
pub(crate) fn par_min_by_score(pairs: &Vec<(isize, usize)>) -> (best: Option<(isize, usize)>)
    ensures
        best == first_least(pairs@),
{
    pairs.par_iter().min_by_key(|k| k.0).cloned()
}

} // verus!
