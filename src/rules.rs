//! The placement rule: a digit may not repeat in a row, a column or a 3x3 box.
use vstd::prelude::*;
use crate::grid::{Grid, idx, on_board};

verus! {

/// Whether cells `(x1, y1)` and `(x2, y2)` share a row, a column or a box.
pub open spec fn sees(x1: int, y1: int, x2: int, y2: int) -> bool {
    y1 == y2 || x1 == x2 || (x1 / 3 == x2 / 3 && y1 / 3 == y2 / 3)
}

/// Whether `d` occurs in row `y` of `s`.
pub open spec fn in_row(s: Seq<u8>, y: int, d: u8) -> bool {
    exists|a: int| 0 <= a < 9 && #[trigger] s[idx(a, y)] == d
}

/// Whether `d` occurs in column `x` of `s`.
pub open spec fn in_col(s: Seq<u8>, x: int, d: u8) -> bool {
    exists|b: int| 0 <= b < 9 && #[trigger] s[idx(x, b)] == d
}

/// Whether `d` occurs in the 3x3 box of `s` that holds cell `(x, y)`.
pub open spec fn in_box(s: Seq<u8>, x: int, y: int, d: u8) -> bool {
    exists|a: int, b: int|
        0 <= a < 9 && 0 <= b < 9 && a / 3 == x / 3 && b / 3 == y / 3 && #[trigger] s[idx(a, b)]
            == d
}

/// Whether `d` may be written at `(x, y)`: it is in none of the cell's row,
/// column and box. The cell's own content takes part like any other.
pub open spec fn can_place_spec(s: Seq<u8>, x: int, y: int, d: u8) -> bool {
    !in_row(s, y, d) && !in_col(s, x, d) && !in_box(s, x, y, d)
}

/// No two filled cells that share a row, a column or a box hold the same digit.
pub open spec fn no_conflict(s: Seq<u8>) -> bool {
    forall|x1: int, y1: int, x2: int, y2: int|
        on_board(x1, y1) && on_board(x2, y2) && (x1 != x2 || y1 != y2) && sees(x1, y1, x2, y2)
            && #[trigger] s[idx(x1, y1)] != 0 ==> s[idx(x1, y1)] != #[trigger] s[idx(x2, y2)]
}

/// Every filled cell of `s` passes the placement rule once it is blanked again.
pub open spec fn each_filled_cell_fits(s: Seq<u8>) -> bool {
    forall|x: int, y: int|
        on_board(x, y) && #[trigger] s[idx(x, y)] != 0 ==> can_place_spec(
            s.update(idx(x, y), 0),
            x,
            y,
            s[idx(x, y)],
        )
}

/// Whether `d` may be written at `(x, y)` of `g`: false exactly when `d`
/// already stands in row `y`, column `x` or the box of `(x, y)`.
pub fn can_place(g: &Grid, x: usize, y: usize, digit: u8) -> (r: bool)
    requires
        x < 9,
        y < 9,
    ensures
        r == can_place_spec(g@, x as int, y as int, digit),
        r == !(in_row(g@, y as int, digit) || in_col(g@, x as int, digit) || in_box(
            g@,
            x as int,
            y as int,
            digit,
        )),
{
    let bx: usize = x / 3 * 3;
    let by: usize = y / 3 * 3;
    let mut i: usize = 0;
    while i < 9
        invariant
            i <= 9,
            g@.len() == 81,
            x < 9,
            y < 9,
            bx == x / 3 * 3,
            by == y / 3 * 3,
            forall|a: int| 0 <= a < i ==> #[trigger] g@[idx(a, y as int)] != digit,
            forall|b: int| 0 <= b < i ==> #[trigger] g@[idx(x as int, b)] != digit,
            forall|k: int|
                0 <= k < i ==> #[trigger] g@[idx(bx + k % 3, by + k / 3)] != digit,
        decreases 9 - i,
    {
        let row_i = g.at(i, y);
        let column_i = g.at(x, i);
        let box_i = g.at(bx + i % 3, by + i / 3);
        if row_i == digit || column_i == digit || box_i == digit {
            proof {
                if box_i == digit {
                    let a = bx + i % 3;
                    let b = by + i / 3;
                    assert(a / 3 == x / 3 && b / 3 == y / 3);
                    assert(g@[idx(a as int, b as int)] == digit);
                }
            }
            return false;
        }
        i = i + 1;
    }
    proof {
        assert forall|a: int, b: int|
            0 <= a < 9 && 0 <= b < 9 && a / 3 == x / 3 && b / 3 == y / 3 implies #[trigger] g@[idx(
            a,
            b,
        )] != digit by {
            assert(bx <= a < bx + 3 && by <= b < by + 3);
            let k = (b - by) * 3 + (a - bx);
            assert(0 <= k < 9);
            assert(k % 3 == a - bx && k / 3 == b - by);
            assert(g@[idx(bx + k % 3, by + k / 3)] != digit);
        }
    }
    true
}


/// Writing a digit that the rule allows into a blank cell keeps a board free
/// of conflicts.
pub proof fn lemma_place_keeps_no_conflict(s: Seq<u8>, x: int, y: int, d: u8)
    requires
        s.len() == 81,
        no_conflict(s),
        on_board(x, y),
        s[idx(x, y)] == 0,
        d != 0,
        can_place_spec(s, x, y, d),
    ensures
        no_conflict(s.update(idx(x, y), d)),
{
    let t = s.update(idx(x, y), d);
    assert forall|x1: int, y1: int, x2: int, y2: int|
        on_board(x1, y1) && on_board(x2, y2) && (x1 != x2 || y1 != y2) && sees(x1, y1, x2, y2)
            && #[trigger] t[idx(x1, y1)] != 0 implies t[idx(x1, y1)] != #[trigger] t[idx(
        x2,
        y2,
    )] by {
        if x1 == x && y1 == y {
            if s[idx(x2, y2)] == d {
                if y2 == y {
                    assert(s[idx(x2, y)] == d);
                } else if x2 == x {
                    assert(s[idx(x, y2)] == d);
                } else {
                    assert(s[idx(x2, y2)] == d);
                }
            }
        } else if x2 == x && y2 == y {
            if s[idx(x1, y1)] == d {
                if y1 == y {
                    assert(s[idx(x1, y)] == d);
                } else if x1 == x {
                    assert(s[idx(x, y1)] == d);
                } else {
                    assert(s[idx(x1, y1)] == d);
                }
            }
        } else {
            assert(t[idx(x1, y1)] == s[idx(x1, y1)]);
            assert(t[idx(x2, y2)] == s[idx(x2, y2)]);
        }
    }
}

/// The two readings of a consistent board agree: no two filled cells that see
/// each other hold the same digit exactly when every filled cell, blanked
/// again, passes the placement rule with its own digit.
pub proof fn lemma_fits_iff_no_conflict(s: Seq<u8>)
    requires
        s.len() == 81,
    ensures
        each_filled_cell_fits(s) <==> no_conflict(s),
{
    if no_conflict(s) {
        assert forall|x: int, y: int| on_board(x, y) && #[trigger] s[idx(x, y)] != 0 implies can_place_spec(
            s.update(idx(x, y), 0),
            x,
            y,
            s[idx(x, y)],
        ) by {
            let v = s[idx(x, y)];
            let u = s.update(idx(x, y), 0);
            if in_row(u, y, v) {
                let a = choose|a: int| 0 <= a < 9 && #[trigger] u[idx(a, y)] == v;
                assert(s[idx(a, y)] == v);
            }
            if in_col(u, x, v) {
                let b = choose|b: int| 0 <= b < 9 && #[trigger] u[idx(x, b)] == v;
                assert(s[idx(x, b)] == v);
            }
            if in_box(u, x, y, v) {
                let (a, b) = choose|a: int, b: int|
                    0 <= a < 9 && 0 <= b < 9 && a / 3 == x / 3 && b / 3 == y / 3 && #[trigger] u[idx(
                        a,
                        b,
                    )] == v;
                assert(s[idx(a, b)] == v);
            }
        }
    }
    if each_filled_cell_fits(s) {
        assert forall|x1: int, y1: int, x2: int, y2: int|
            on_board(x1, y1) && on_board(x2, y2) && (x1 != x2 || y1 != y2) && sees(x1, y1, x2, y2)
                && #[trigger] s[idx(x1, y1)] != 0 implies s[idx(x1, y1)] != #[trigger] s[idx(
            x2,
            y2,
        )] by {
            let v = s[idx(x1, y1)];
            let u = s.update(idx(x1, y1), 0);
            assert(can_place_spec(u, x1, y1, v));
            if s[idx(x2, y2)] == v {
                assert(u[idx(x2, y2)] == v);
                if y2 == y1 {
                    assert(in_row(u, y1, v));
                } else if x2 == x1 {
                    assert(in_col(u, x1, v));
                } else {
                    assert(in_box(u, x1, y1, v));
                }
            }
        }
    }
}

} // verus!
