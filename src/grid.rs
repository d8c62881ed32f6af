//! The board: 81 cells in row-major order, each holding a digit in `0..=9`,
//! where `0` is a blank cell.
use vstd::prelude::*;
use vstd::string::{StrSliceExecFns, StringExecFns};

verus! {

/// Linear index of cell `(x, y)`: column `x`, row `y`, row-major.
pub open spec fn idx(x: int, y: int) -> int {
    y * 9 + x
}

/// Whether `(x, y)` names a cell of the board.
pub open spec fn on_board(x: int, y: int) -> bool {
    0 <= x < 9 && 0 <= y < 9
}

/// A board view is well formed when it has 81 cells, each at most 9.
pub open spec fn cells_wf(s: Seq<u8>) -> bool {
    &&& s.len() == 81
    &&& forall|i: int| 0 <= i < 81 ==> #[trigger] s[i] <= 9
}

/// Linear index of cell `(x, y)`.
pub fn index(x: usize, y: usize) -> (r: usize)
    requires
        x < 9,
        y < 9,
    ensures
        r as int == idx(x as int, y as int),
        r < 81,
{
    y * 9 + x
}

/// The digit that character `c` writes, if it is an ASCII digit.
pub open spec fn char_digit(c: char) -> Option<u8> {
    if c == '0' {
        Some(0u8)
    } else if c == '1' {
        Some(1u8)
    } else if c == '2' {
        Some(2u8)
    } else if c == '3' {
        Some(3u8)
    } else if c == '4' {
        Some(4u8)
    } else if c == '5' {
        Some(5u8)
    } else if c == '6' {
        Some(6u8)
    } else if c == '7' {
        Some(7u8)
    } else if c == '8' {
        Some(8u8)
    } else if c == '9' {
        Some(9u8)
    } else {
        None
    }
}

/// The character that writes digit `d`, for `d <= 9`.
pub open spec fn digit_char(d: u8) -> char {
    if d == 0 {
        '0'
    } else if d == 1 {
        '1'
    } else if d == 2 {
        '2'
    } else if d == 3 {
        '3'
    } else if d == 4 {
        '4'
    } else if d == 5 {
        '5'
    } else if d == 6 {
        '6'
    } else if d == 7 {
        '7'
    } else if d == 8 {
        '8'
    } else {
        '9'
    }
}

/// Whether `t` is the text of a board: 81 ASCII digits.
pub open spec fn text_ok(t: Seq<char>) -> bool {
    t.len() == 81 && forall|i: int| 0 <= i < 81 ==> (#[trigger] char_digit(t[i])) is Some
}

/// The cells that a board text writes, one per character.
pub open spec fn parse_text(t: Seq<char>) -> Seq<u8> {
    t.map_values(|c: char| char_digit(c)->Some_0)
}

/// The raw text of a board: one digit character per cell, row-major.
pub open spec fn text_of(s: Seq<u8>) -> Seq<char> {
    s.map_values(|d: u8| digit_char(d))
}

/// The line printed between bands of three rows.
pub open spec fn separator_line() -> Seq<char> {
    Seq::new(17, |i: int| if i == 5 || i == 11 { '+' } else { '-' }).push('\n')
}

/// Row `y` of `s` as printed: digits one space apart within a group of
/// three columns, and `|` between groups.
pub open spec fn row_text(s: Seq<u8>, y: int) -> Seq<char> {
    let c = |x: int| digit_char(s[idx(x, y)]);
    seq![
        c(0), ' ', c(1), ' ', c(2), '|', c(3), ' ', c(4), ' ', c(5), '|', c(6), ' ', c(7), ' ', c(8),
    ]
}

/// The first `n` cells of row `y` as printed.
pub open spec fn row_prefix(s: Seq<u8>, y: int, n: int) -> Seq<char>
    decreases n,
{
    if n <= 0 {
        Seq::empty()
    } else {
        let x = n - 1;
        let bar: Seq<char> = if x % 3 == 0 && x != 0 { seq!['|'] } else { Seq::empty() };
        let space: Seq<char> = if x % 3 < 2 { seq![' '] } else { Seq::empty() };
        row_prefix(s, y, n - 1) + bar + seq![digit_char(s[idx(x, y)])] + space
    }
}

/// The first `n` rows of `s` as printed: a separator line before rows 3 and
/// 6, and a line break after every row but the last.
pub open spec fn display_rows(s: Seq<u8>, n: int) -> Seq<char>
    decreases n,
{
    if n <= 0 {
        Seq::empty()
    } else {
        let y = n - 1;
        let sep: Seq<char> = if y == 3 || y == 6 { separator_line() } else { Seq::empty() };
        let brk: Seq<char> = if y != 8 { seq!['\n'] } else { Seq::empty() };
        display_rows(s, n - 1) + sep + row_text(s, y) + brk
    }
}

/// The board as printed: nine rows in three bands.
pub open spec fn display_text(s: Seq<u8>) -> Seq<char> {
    display_rows(s, 9)
}

/// The digit that `c` writes, if it is an ASCII digit.
pub fn digit_value(c: char) -> (r: Option<u8>)
    ensures
        r == char_digit(c),
{
    match c {
        '0' => Some(0u8),
        '1' => Some(1u8),
        '2' => Some(2u8),
        '3' => Some(3u8),
        '4' => Some(4u8),
        '5' => Some(5u8),
        '6' => Some(6u8),
        '7' => Some(7u8),
        '8' => Some(8u8),
        '9' => Some(9u8),
        _ => None,
    }
}

/// The one-character text of digit `d`.
fn digit_text(d: u8) -> (r: &'static str)
    requires
        d <= 9,
    ensures
        r@ == seq![digit_char(d)],
{
    match d {
        0 => {
            proof {
                reveal_strlit("0");
            }
            "0"
        },
        1 => {
            proof {
                reveal_strlit("1");
            }
            "1"
        },
        2 => {
            proof {
                reveal_strlit("2");
            }
            "2"
        },
        3 => {
            proof {
                reveal_strlit("3");
            }
            "3"
        },
        4 => {
            proof {
                reveal_strlit("4");
            }
            "4"
        },
        5 => {
            proof {
                reveal_strlit("5");
            }
            "5"
        },
        6 => {
            proof {
                reveal_strlit("6");
            }
            "6"
        },
        7 => {
            proof {
                reveal_strlit("7");
            }
            "7"
        },
        8 => {
            proof {
                reveal_strlit("8");
            }
            "8"
        },
        _ => {
            proof {
                reveal_strlit("9");
            }
            "9"
        },
    }
}

/// Reading the raw text of a well-formed board gives the board back.
pub proof fn lemma_text_round_trip(s: Seq<u8>)
    requires
        cells_wf(s),
    ensures
        text_ok(text_of(s)),
        parse_text(text_of(s)) == s,
{
    assert forall|i: int| 0 <= i < 81 implies (#[trigger] char_digit(text_of(s)[i])) == Some(s[i]) by {
        assert(s[i] <= 9);
    }
    assert(parse_text(text_of(s)) =~= s);
}

/// What can go wrong when a board is built or addressed.
#[derive(Debug, Clone, Copy, PartialEq, Eq, Structural)]
pub enum GridError {
    /// The text is not 81 ASCII digits.
    Parse,
    /// A coordinate is 9 or more, or a digit is 10 or more.
    OutOfRange,
}

/// A 9x9 Sudoku board. Cell `(x, y)` is `cells[y * 9 + x]`; `wf` holds of
/// every board that `from_text`, `empty` and `place` hand out.
#[derive(Debug, Clone, Copy)]
pub struct Grid {
    pub cells: [u8; 81],
}

impl View for Grid {
    type V = Seq<u8>;

    open spec fn view(&self) -> Seq<u8> {
        self.cells@
    }
}

impl Grid {
    /// Whether every cell holds a digit in `0..=9`; every constructor and
    /// `place` keep this.
    pub open spec fn wf(&self) -> bool {
        cells_wf(self@)
    }

    /// The board with every cell blank.
    pub fn empty() -> (r: Grid)
        ensures
            r@ == Seq::new(81, |i: int| 0u8),
            r.wf(),
    {
        let r = Grid { cells: [0u8; 81] };
        assert(r@ =~= Seq::new(81, |i: int| 0u8));
        r
    }

    /// The digit at cell `(x, y)`, which the caller keeps on the board.
    pub fn at(&self, x: usize, y: usize) -> (r: u8)
        requires
            x < 9,
            y < 9,
        ensures
            r == self@[idx(x as int, y as int)],
    {
        self.cells[index(x, y)]
    }

    /// The digit at cell `(x, y)`, or `OutOfRange` off the board.
    pub fn get(&self, x: usize, y: usize) -> (r: Result<u8, GridError>)
        ensures
            x < 9 && y < 9 ==> r == Ok::<u8, GridError>(self@[idx(x as int, y as int)]),
            !(x < 9 && y < 9) ==> r == Err::<u8, GridError>(GridError::OutOfRange),
    {
        if x < 9 && y < 9 {
            Ok(self.at(x, y))
        } else {
            Err(GridError::OutOfRange)
        }
    }
    /// Writes `digit` at cell `(x, y)`; `OutOfRange`, and no change, when the
    /// cell is off the board or the digit is over 9.
    pub fn place(&mut self, x: usize, y: usize, digit: u8) -> (r: Result<(), GridError>)
        ensures
            x < 9 && y < 9 && digit <= 9 ==> r == Ok::<(), GridError>(()) && final(self)@ == old(
                self,
            )@.update(idx(x as int, y as int), digit),
            !(x < 9 && y < 9 && digit <= 9) ==> r == Err::<(), GridError>(GridError::OutOfRange)
                && final(self)@ == old(self)@,
            old(self).wf() ==> final(self).wf(),
    {
        if x < 9 && y < 9 && digit <= 9 {
            let mut cells = self.cells;
            cells[index(x, y)] = digit;
            *self = Grid { cells };
            Ok(())
        } else {
            Err(GridError::OutOfRange)
        }
    }

    /// Reads a board from its raw text, 81 ASCII digits in row-major order.
    /// `Parse` when the length is not 81 or a character is not a digit; the
    /// givens are not checked against each other.
    pub fn from_text(text: &str) -> (r: Result<Grid, GridError>)
        ensures
            r matches Ok(g) ==> text_ok(text@) && g@ == parse_text(text@) && g.wf(),
            r is Err ==> !text_ok(text@) && r == Err::<Grid, GridError>(GridError::Parse),
    {
        let n = text.unicode_len();
        if n != 81 {
            return Err(GridError::Parse);
        }
        let mut cells = [0u8; 81];
        let mut i: usize = 0;
        while i < 81
            invariant
                text@.len() == 81,
                i <= 81,
                forall|j: int| 0 <= j < i ==> (#[trigger] char_digit(text@[j])) is Some,
                forall|j: int| 0 <= j < i ==> #[trigger] cells@[j] == char_digit(text@[j])->Some_0,
                forall|j: int| 0 <= j < 81 ==> #[trigger] cells@[j] <= 9,
            decreases 81 - i,
        {
            let c = text.get_char(i);
            match digit_value(c) {
                Some(d) => {
                    cells[i] = d;
                },
                None => {
                    return Err(GridError::Parse);
                },
            }
            i = i + 1;
        }
        let g = Grid { cells };
        assert(g@ =~= parse_text(text@));
        Ok(g)
    }

    /// The raw text of the board: one digit per cell, row-major.
    pub fn to_text(&self) -> (r: String)
        requires
            self.wf(),
        ensures
            r@ == text_of(self@),
    {
        let mut r = String::new();
        let mut i: usize = 0;
        while i < 81
            invariant
                self.wf(),
                i <= 81,
                r@ == text_of(self@).subrange(0, i as int),
            decreases 81 - i,
        {
            r.append(digit_text(self.cells[i]));
            i = i + 1;
            assert(r@ =~= text_of(self@).subrange(0, i as int));
        }
        assert(text_of(self@).subrange(0, 81) =~= text_of(self@));
        r
    }

    /// The board as printed: rows of digits one space apart, `|` between
    /// groups of three columns, and a separator line between bands of three
    /// rows, with no trailing separator.
    pub fn to_display_string(&self) -> (r: String)
        requires
            self.wf(),
        ensures
            r@ == display_text(self@),
    {
        let mut r = String::new();
        let mut y: usize = 0;
        while y < 9
            invariant
                self.wf(),
                y <= 9,
                r@ == display_rows(self@, y as int),
            decreases 9 - y,
        {
            let ghost before = r@;
            if y == 3 || y == 6 {
                proof {
                    reveal_strlit("-----+-----+-----\n");
                }
                r.append("-----+-----+-----\n");
                assert(r@ =~= before + separator_line());
            }
            let ghost mid = r@;
            let mut x: usize = 0;
            while x < 9
                invariant
                    self.wf(),
                    y < 9,
                    x <= 9,
                    r@ == mid + row_prefix(self@, y as int, x as int),
                decreases 9 - x,
            {
                if x % 3 == 0 && x != 0 {
                    proof {
                        reveal_strlit("|");
                    }
                    r.append("|");
                }
                r.append(digit_text(self.at(x, y)));
                if x % 3 < 2 {
                    proof {
                        reveal_strlit(" ");
                    }
                    r.append(" ");
                }
                x = x + 1;
                assert(r@ =~= mid + row_prefix(self@, y as int, x as int));
            }
            assert(row_prefix(self@, y as int, 9) =~= row_text(self@, y as int)) by {
                reveal_with_fuel(row_prefix, 10);
            }
            if y != 8 {
                proof {
                    reveal_strlit("\n");
                }
                r.append("\n");
            }
            y = y + 1;
            assert(r@ =~= display_rows(self@, y as int));
        }
        r
    }

    /// Whether the board is the same, cell for cell, as `other`.
    pub fn same_as(&self, other: &Grid) -> (r: bool)
        ensures
            r == (self@ == other@),
    {
        let mut i: usize = 0;
        while i < 81
            invariant
                i <= 81,
                self@.len() == 81,
                other@.len() == 81,
                forall|j: int| 0 <= j < i ==> self@[j] == other@[j],
            decreases 81 - i,
        {
            if self.cells[i] != other.cells[i] {
                return false;
            }
            i = i + 1;
        }
        assert(self@ =~= other@);
        true
    }
}

} // verus!
