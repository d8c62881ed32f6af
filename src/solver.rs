//! Depth-first backtracking search: the first blank cell in row-major order
//! is the branch point, and digits are tried there in ascending order.
use vstd::prelude::*;
use crate::grid::{Grid, GridError, idx, on_board, cells_wf};
use crate::rules::{
    can_place, can_place_spec, no_conflict, sees, each_filled_cell_fits, in_row, in_col, in_box,
    lemma_place_keeps_no_conflict, lemma_fits_iff_no_conflict,
};

verus! {

/// `t` completes `s`: every cell holds a digit in `1..=9`, the filled cells
/// of `s` are kept, and no two cells that see each other hold the same digit.
pub open spec fn is_solution_of(t: Seq<u8>, s: Seq<u8>) -> bool {
    &&& t.len() == 81
    &&& s.len() == 81
    &&& forall|i: int| 0 <= i < 81 ==> 1 <= #[trigger] t[i] <= 9
    &&& forall|i: int| 0 <= i < 81 && #[trigger] s[i] != 0 ==> t[i] == s[i]
    &&& no_conflict(t)
}

/// Whether `s` has a solution at all.
pub open spec fn solvable(s: Seq<u8>) -> bool {
    exists|t: Seq<u8>| is_solution_of(t, s)
}

/// The search from scan position `p`, where digits `d..=9` are still to be
/// tried if cell `p` is blank: the first completion found, if any.
pub open spec fn search(s: Seq<u8>, p: int, d: int) -> Option<Seq<u8>>
    decreases 81 - p, 10 - d,
{
    if p < 0 || p >= 81 {
        Some(s)
    } else if s[p] != 0 {
        search(s, p + 1, 1)
    } else if d < 1 || d > 9 {
        None
    } else if can_place_spec(s, p % 9, p / 9, d as u8) && search(s.update(p, d as u8), p + 1, 1) is Some {
        search(s.update(p, d as u8), p + 1, 1)
    } else {
        search(s, p, d + 1)
    }
}

/// What the solver gives for board `s`: nothing when two of its given digits
/// already clash, otherwise the outcome of the search from the first cell.
pub open spec fn solve_spec(s: Seq<u8>) -> Option<Seq<u8>> {
    if each_filled_cell_fits(s) {
        search(s, 0, 1)
    } else {
        None
    }
}

/// The board content of a solver outcome.
pub open spec fn outcome_view(r: Option<Grid>) -> Option<Seq<u8>> {
    match r {
        Some(g) => Some(g@),
        None => None,
    }
}

/// A cell that a solution fills where the board is blank passes the
/// placement rule on that board.
proof fn lemma_solution_digit_fits(s: Seq<u8>, t: Seq<u8>, x: int, y: int)
    requires
        is_solution_of(t, s),
        on_board(x, y),
        s[idx(x, y)] == 0,
    ensures
        can_place_spec(s, x, y, t[idx(x, y)]),
{
    let v = t[idx(x, y)];
    assert(t[idx(x, y)] != 0);
    if in_row(s, y, v) {
        let a = choose|a: int| 0 <= a < 9 && #[trigger] s[idx(a, y)] == v;
        assert(t[idx(a, y)] == v);
    }
    if in_col(s, x, v) {
        let b = choose|b: int| 0 <= b < 9 && #[trigger] s[idx(x, b)] == v;
        assert(t[idx(x, b)] == v);
    }
    if in_box(s, x, y, v) {
        let (a, b) = choose|a: int, b: int|
            0 <= a < 9 && 0 <= b < 9 && a / 3 == x / 3 && b / 3 == y / 3 && #[trigger] s[idx(a, b)]
                == v;
        assert(t[idx(a, b)] == v);
    }
}

/// Whatever the search finds on a conflict-free board is a solution of it.
proof fn lemma_search_sound(s: Seq<u8>, p: int, d: int)
    requires
        cells_wf(s),
        no_conflict(s),
        0 <= p <= 81,
        1 <= d <= 10,
        forall|q: int| 0 <= q < p ==> #[trigger] s[q] != 0,
    ensures
        search(s, p, d) is Some ==> is_solution_of(search(s, p, d)->Some_0, s),
    decreases 81 - p, 10 - d,
{
    if p >= 81 {
        assert(is_solution_of(s, s));
    } else if s[p] != 0 {
        lemma_search_sound(s, p + 1, 1);
    } else if d > 9 {
    } else {
        let x = p % 9;
        let y = p / 9;
        assert(idx(x, y) == p);
        let u = s.update(p, d as u8);
        if can_place_spec(s, x, y, d as u8) && search(u, p + 1, 1) is Some {
            lemma_place_keeps_no_conflict(s, x, y, d as u8);
            lemma_search_sound(u, p + 1, 1);
            let t = search(u, p + 1, 1)->Some_0;
            assert forall|i: int| 0 <= i < 81 && #[trigger] s[i] != 0 implies t[i] == s[i] by {
                assert(u[i] == s[i]);
            }
        } else {
            lemma_search_sound(s, p, d + 1);
        }
    }
}

/// On a board that has a solution `t`, the search finds some solution, as long
/// as the digits still to try at the current blank include `t`'s.
proof fn lemma_search_complete(s: Seq<u8>, p: int, d: int, t: Seq<u8>)
    requires
        cells_wf(s),
        is_solution_of(t, s),
        0 <= p <= 81,
        1 <= d <= 10,
        forall|q: int| 0 <= q < p ==> #[trigger] s[q] != 0,
        p < 81 && s[p] == 0 ==> d <= t[p],
    ensures
        search(s, p, d) is Some,
    decreases 81 - p, 10 - d,
{
    if p >= 81 {
    } else if s[p] != 0 {
        lemma_search_complete(s, p + 1, 1, t);
    } else {
        let x = p % 9;
        let y = p / 9;
        assert(idx(x, y) == p);
        let u = s.update(p, d as u8);
        if t[p] == d {
            lemma_solution_digit_fits(s, t, x, y);
            assert(is_solution_of(t, u));
            lemma_search_complete(u, p + 1, 1, t);
        } else if !(can_place_spec(s, x, y, d as u8) && search(u, p + 1, 1) is Some) {
            lemma_search_complete(s, p, d + 1, t);
        }
    }
}

/// Search from scan position `p`; every cell before `p` is filled.
fn search_from(g: &Grid, p: usize) -> (r: Option<Grid>)
    requires
        g.wf(),
        p <= 81,
        forall|q: int| 0 <= q < p ==> #[trigger] g@[q] != 0,
    ensures
        outcome_view(r) == search(g@, p as int, 1),
        r matches Some(t) ==> t.wf(),
    decreases 81 - p,
{
    let mut q: usize = p;
    while q < 81 && g.cells[q] != 0
        invariant
            g.wf(),
            p <= q <= 81,
            forall|i: int| 0 <= i < q ==> #[trigger] g@[i] != 0,
            search(g@, p as int, 1) == search(g@, q as int, 1),
        decreases 81 - q,
    {
        q = q + 1;
    }
    if q == 81 {
        return Some(*g);
    }
    let x: usize = q % 9;
    let y: usize = q / 9;
    assert(idx(x as int, y as int) == q as int);
    let mut digit: u8 = 1;
    while digit <= 9
        invariant
            g.wf(),
            p <= q < 81,
            x == q % 9,
            y == q / 9,
            g@[q as int] == 0,
            forall|i: int| 0 <= i < q ==> #[trigger] g@[i] != 0,
            1 <= digit <= 10,
            search(g@, p as int, 1) == search(g@, q as int, digit as int),
        decreases 10 - digit,
    {
        if can_place(g, x, y, digit) {
            let mut next = *g;
            let placed: Result<(), GridError> = next.place(x, y, digit);
            assert(next@ == g@.update(q as int, digit));
            let found = search_from(&next, q + 1);
            if let Some(t) = found {
                return Some(t);
            }
        }
        digit = digit + 1;
    }
    None
}

/// Whether every filled cell of `g`, blanked again, passes the placement rule
/// with its own digit: false when two given digits already clash.
pub fn givens_consistent(g: &Grid) -> (r: bool)
    requires
        g.wf(),
    ensures
        r == each_filled_cell_fits(g@),
        r == no_conflict(g@),
{
    proof {
        lemma_fits_iff_no_conflict(g@);
    }
    let mut y: usize = 0;
    while y < 9
        invariant
            g.wf(),
            y <= 9,
            forall|a: int, b: int|
                0 <= a < 9 && 0 <= b < y && #[trigger] g@[idx(a, b)] != 0 ==> can_place_spec(
                    g@.update(idx(a, b), 0),
                    a,
                    b,
                    g@[idx(a, b)],
                ),
        decreases 9 - y,
    {
        let mut x: usize = 0;
        while x < 9
            invariant
                g.wf(),
                y < 9,
                x <= 9,
                forall|a: int, b: int|
                    0 <= a < 9 && 0 <= b < y && #[trigger] g@[idx(a, b)] != 0 ==> can_place_spec(
                        g@.update(idx(a, b), 0),
                        a,
                        b,
                        g@[idx(a, b)],
                    ),
                forall|a: int|
                    0 <= a < x && #[trigger] g@[idx(a, y as int)] != 0 ==> can_place_spec(
                        g@.update(idx(a, y as int), 0),
                        a,
                        y as int,
                        g@[idx(a, y as int)],
                    ),
            decreases 9 - x,
        {
            let v = g.at(x, y);
            if v != 0 {
                let mut blanked = *g;
                let cleared: Result<(), GridError> = blanked.place(x, y, 0);
                if !can_place(&blanked, x, y, v) {
                    return false;
                }
            }
            x = x + 1;
        }
        y = y + 1;
    }
    true
}

/// Solves `g`: the first completion that the search finds, or `None` when
/// the board has no solution (among others, when two givens clash).
pub fn solve(g: &Grid) -> (r: Option<Grid>)
    requires
        g.wf(),
    ensures
        outcome_view(r) == solve_spec(g@),
        r matches Some(t) ==> is_solution_of(t@, g@) && t.wf(),
        r is Some <==> solvable(g@),
{
    if !givens_consistent(g) {
        proof {
            if solvable(g@) {
                let t = choose|t: Seq<u8>| is_solution_of(t, g@);
                lemma_solution_keeps_givens_apart(g@, t);
            }
        }
        return None;
    }
    let r = search_from(g, 0);
    proof {
        lemma_search_sound(g@, 0, 1);
        if solvable(g@) {
            let t = choose|t: Seq<u8>| is_solution_of(t, g@);
            lemma_search_complete(g@, 0, 1, t);
        }
    }
    r
}

/// The givens of a solvable board never clash.
proof fn lemma_solution_keeps_givens_apart(s: Seq<u8>, t: Seq<u8>)
    requires
        is_solution_of(t, s),
    ensures
        no_conflict(s),
{
    assert forall|x1: int, y1: int, x2: int, y2: int|
        on_board(x1, y1) && on_board(x2, y2) && (x1 != x2 || y1 != y2) && sees(x1, y1, x2, y2)
            && #[trigger] s[idx(x1, y1)] != 0 implies s[idx(x1, y1)] != #[trigger] s[idx(
        x2,
        y2,
    )] by {
        assert(t[idx(x1, y1)] != t[idx(x2, y2)]);
    }
}

/// A solution found by the solver has no blank cell, and each of its cells,
/// blanked again, passes the placement rule with its own digit.
pub proof fn lemma_solution_is_consistent(s: Seq<u8>)
    requires
        cells_wf(s),
        solvable(s),
    ensures
        solve_spec(s) is Some,
        forall|i: int| 0 <= i < 81 ==> #[trigger] solve_spec(s)->Some_0[i] != 0,
        each_filled_cell_fits(solve_spec(s)->Some_0),
        is_solution_of(solve_spec(s)->Some_0, s),
{
    let t = choose|t: Seq<u8>| is_solution_of(t, s);
    lemma_solution_keeps_givens_apart(s, t);
    lemma_fits_iff_no_conflict(s);
    lemma_search_complete(s, 0, 1, t);
    lemma_search_sound(s, 0, 1);
    lemma_fits_iff_no_conflict(solve_spec(s)->Some_0);
}

/// Solving depends on the board's cells alone: equal boards get equal
/// outcomes, cell for cell.
pub proof fn lemma_solve_deterministic(a: Seq<u8>, b: Seq<u8>)
    requires
        a == b,
    ensures
        solve_spec(a) == solve_spec(b),
{
}

/// A board whose givens clash has no solution, and the solver says so.
pub proof fn lemma_clashing_givens_unsolved(s: Seq<u8>)
    requires
        cells_wf(s),
        !no_conflict(s),
    ensures
        solve_spec(s) is None,
        !solvable(s),
{
    lemma_fits_iff_no_conflict(s);
    if solvable(s) {
        let t = choose|t: Seq<u8>| is_solution_of(t, s);
        lemma_solution_keeps_givens_apart(s, t);
    }
}

/// The search leaves a board with no blank cell as it is.
proof fn lemma_search_full(s: Seq<u8>, p: int)
    requires
        cells_wf(s),
        0 <= p <= 81,
        forall|i: int| 0 <= i < 81 ==> #[trigger] s[i] != 0,
    ensures
        search(s, p, 1) == Some(s),
    decreases 81 - p,
{
    if p < 81 {
        lemma_search_full(s, p + 1);
    }
}

/// A complete board whose cells all pass the placement rule comes back from
/// the solver unchanged.
pub proof fn lemma_complete_board_unchanged(s: Seq<u8>)
    requires
        cells_wf(s),
        forall|i: int| 0 <= i < 81 ==> #[trigger] s[i] != 0,
        each_filled_cell_fits(s),
    ensures
        solve_spec(s) == Some(s),
{
    lemma_search_full(s, 0);
}

} // verus!
