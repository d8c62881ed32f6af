//! Solving a batch of independent boards in parallel, results in input order.
use vstd::prelude::*;
use rayon::iter::{IntoParallelRefIterator, ParallelIterator};
use crate::grid::Grid;
use crate::solver::{solve, solve_spec, outcome_view};

verus! {

/// A board of the batch with the solver's outcome for it: `None` when the
/// board has no solution.
#[derive(Debug, Clone, Copy)]
pub struct SolveResult {
    pub puzzle: Grid,
    pub solution: Option<Grid>,
}

/// Relies on rayon's `par_iter().map(..).collect()` into a `Vec`: an indexed
/// parallel iterator collects one item per input, in input order, whatever
/// order the workers finish in.
#[verifier::external_body]
fn solve_each_parallel(puzzles: &Vec<Grid>) -> (r: Vec<Option<Grid>>)
    requires
        forall|i: int| 0 <= i < puzzles@.len() ==> (#[trigger] puzzles@[i]).wf(),
    ensures
        r@.len() == puzzles@.len(),
        forall|i: int|
            0 <= i < r@.len() ==> outcome_view(#[trigger] r@[i]) == solve_spec(puzzles@[i]@),
{
    puzzles.par_iter().map(|g| solve(g)).collect()
}

/// Solves the first `limit` boards of `puzzles` (all of them when there are
/// fewer), each on its own, and returns their results in input order.
pub fn solve_batch(puzzles: &Vec<Grid>, limit: usize) -> (r: Vec<SolveResult>)
    requires
        forall|i: int| 0 <= i < puzzles@.len() ==> (#[trigger] puzzles@[i]).wf(),
    ensures
        r@.len() == if limit < puzzles@.len() { limit as int } else { puzzles@.len() as int },
        forall|i: int|
            0 <= i < r@.len() ==> (#[trigger] r@[i]).puzzle == puzzles@[i] && outcome_view(
                r@[i].solution,
            ) == solve_spec(puzzles@[i]@),
{
    let n: usize = if limit < puzzles.len() {
        limit
    } else {
        puzzles.len()
    };
    let mut chosen: Vec<Grid> = Vec::new();
    let mut i: usize = 0;
    while i < n
        invariant
            n <= puzzles@.len(),
            i <= n,
            chosen@ == puzzles@.subrange(0, i as int),
        decreases n - i,
    {
        chosen.push(puzzles[i]);
        i = i + 1;
        assert(chosen@ =~= puzzles@.subrange(0, i as int));
    }
    let outcomes = solve_each_parallel(&chosen);
    let mut r: Vec<SolveResult> = Vec::new();
    let mut j: usize = 0;
    while j < n
        invariant
            n <= puzzles@.len(),
            chosen@ == puzzles@.subrange(0, n as int),
            outcomes@.len() == n,
            forall|k: int|
                0 <= k < n ==> outcome_view(#[trigger] outcomes@[k]) == solve_spec(chosen@[k]@),
            j <= n,
            r@.len() == j,
            forall|k: int|
                0 <= k < j ==> (#[trigger] r@[k]).puzzle == puzzles@[k] && outcome_view(
                    r@[k].solution,
                ) == solve_spec(puzzles@[k]@),
        decreases n - j,
    {
        r.push(SolveResult { puzzle: chosen[j], solution: outcomes[j] });
        j = j + 1;
    }
    r
}

} // verus!
