use sudoku_solver::batch::solve_batch;
use sudoku_solver::grid::{digit_value, index, Grid, GridError};
use sudoku_solver::rules::can_place;
use sudoku_solver::solver::{givens_consistent, solve};

const EASY: &str =
    "530070000600195000098000060800060003400803001700020006060000280000419005000080079";
const EASY_SOLVED: &str =
    "534678912672195348198342567859761423426853791713924856961537284287419635345286179";

fn board(text: &str) -> Grid {
    Grid::from_text(text).expect("valid board text")
}

#[test]
fn classic_puzzle_solves_to_known_grid() {
    let solution = solve(&board(EASY)).expect("solvable");
    let text = solution.to_text();
    assert_eq!(text, EASY_SOLVED);
    assert_eq!(text.len(), 81);
    assert!(!text.contains('0'));
}

#[test]
fn complete_board_comes_back_unchanged() {
    let solution = solve(&board(EASY_SOLVED)).expect("already solved");
    assert_eq!(solution.to_text(), EASY_SOLVED);
}

#[test]
fn eighty_characters_is_a_parse_error() {
    let short = &EASY[..80];
    assert_eq!(short.len(), 80);
    assert_eq!(Grid::from_text(short).unwrap_err(), GridError::Parse);
}

#[test]
fn eighty_two_characters_is_a_parse_error() {
    let long = format!("{}0", EASY);
    assert_eq!(Grid::from_text(&long).unwrap_err(), GridError::Parse);
}

#[test]
fn non_digit_is_a_parse_error() {
    let text = format!("x{}", &EASY[1..]);
    assert_eq!(Grid::from_text(&text).unwrap_err(), GridError::Parse);
    let text = format!("{}.", &EASY[..80]);
    assert_eq!(Grid::from_text(&text).unwrap_err(), GridError::Parse);
}

#[test]
fn text_round_trip() {
    for text in [EASY, EASY_SOLVED, &"0".repeat(81)] {
        let g = board(text);
        assert_eq!(g.to_text(), text);
        let again = board(&g.to_text());
        assert!(again.same_as(&g));
    }
}

#[test]
fn from_text_reads_row_major() {
    let g = board(EASY);
    assert_eq!(g.get(0, 0), Ok(5));
    assert_eq!(g.get(1, 0), Ok(3));
    assert_eq!(g.get(4, 0), Ok(7));
    assert_eq!(g.get(0, 1), Ok(6));
    assert_eq!(g.get(8, 8), Ok(9));
    assert_eq!(g.cells[index(4, 1)], 9);
    assert_eq!(index(8, 8), 80);
}

#[test]
fn get_off_the_board_is_out_of_range() {
    let g = board(EASY);
    assert_eq!(g.get(9, 0), Err(GridError::OutOfRange));
    assert_eq!(g.get(0, 9), Err(GridError::OutOfRange));
}

#[test]
fn place_writes_one_cell() {
    let mut g = Grid::empty();
    assert_eq!(g.place(3, 2, 7), Ok(()));
    assert_eq!(g.get(3, 2), Ok(7));
    let mut expected = "0".repeat(81);
    expected.replace_range(21..22, "7");
    assert_eq!(g.to_text(), expected);
    assert_eq!(g.place(3, 2, 0), Ok(()));
    assert_eq!(g.to_text(), "0".repeat(81));
}

#[test]
fn place_out_of_range_changes_nothing() {
    let mut g = board(EASY);
    assert_eq!(g.place(9, 0, 1), Err(GridError::OutOfRange));
    assert_eq!(g.place(0, 9, 1), Err(GridError::OutOfRange));
    assert_eq!(g.place(2, 0, 10), Err(GridError::OutOfRange));
    assert_eq!(g.to_text(), EASY);
}

#[test]
fn can_place_checks_row_column_and_box() {
    let g = board(EASY);
    // Cell (2, 0) is blank.
    assert!(!can_place(&g, 2, 0, 5)); // row 0 holds 5
    assert!(!can_place(&g, 2, 0, 8)); // column 2 holds 8
    assert!(!can_place(&g, 2, 0, 9)); // box holds 9 at (2, 2)
    assert!(!can_place(&g, 2, 0, 6)); // box holds 6 at (0, 1)
    assert!(can_place(&g, 2, 0, 1));
    assert!(can_place(&g, 2, 0, 2));
    assert!(can_place(&g, 2, 0, 4));
}

#[test]
fn can_place_on_every_blank_matches_presence() {
    let g = board(EASY);
    for y in 0..9 {
        for x in 0..9 {
            if g.get(x, y) != Ok(0) {
                continue;
            }
            for d in 1..=9u8 {
                let mut present = false;
                for i in 0..9 {
                    let bx = (x / 3) * 3 + i % 3;
                    let by = (y / 3) * 3 + i / 3;
                    if g.get(i, y) == Ok(d) || g.get(x, i) == Ok(d) || g.get(bx, by) == Ok(d) {
                        present = true;
                    }
                }
                assert_eq!(can_place(&g, x, y, d), !present);
            }
        }
    }
}

#[test]
fn solution_cells_all_fit() {
    let solution = solve(&board(EASY)).expect("solvable");
    for y in 0..9 {
        for x in 0..9 {
            let d = solution.get(x, y).unwrap();
            assert!((1..=9).contains(&d));
            let mut blanked = solution;
            blanked.place(x, y, 0).unwrap();
            assert!(can_place(&blanked, x, y, d));
        }
    }
    assert!(givens_consistent(&solution));
}

#[test]
fn solving_twice_gives_the_same_board() {
    let puzzle = format!("{}{}", "0".repeat(40), &EASY[40..]);
    let a = solve(&board(&puzzle)).expect("solvable");
    let b = solve(&board(&puzzle)).expect("solvable");
    assert_eq!(a.to_text(), b.to_text());
}

#[test]
fn empty_board_solves_to_first_completion() {
    let solution = solve(&Grid::empty()).expect("solvable");
    let text = solution.to_text();
    assert_eq!(&text[..9], "123456789");
    assert_eq!(&text[9..18], "456789123");
    assert!(givens_consistent(&solution));
}

#[test]
fn clashing_givens_are_unsolved() {
    // Two 5s in row 0.
    let puzzle = format!("55{}", "0".repeat(79));
    let g = board(&puzzle);
    assert!(!givens_consistent(&g));
    assert!(solve(&g).is_none());
}

#[test]
fn clashing_givens_in_a_full_board_are_unsolved() {
    // Swap two digits of a solution: each now repeats in its column.
    let mut text = EASY_SOLVED.to_string();
    text.replace_range(0..2, "35");
    let g = board(&text);
    assert!(!givens_consistent(&g));
    assert!(solve(&g).is_none());
}

#[test]
fn clashing_givens_in_a_box_are_unsolved() {
    let mut g = Grid::empty();
    g.place(0, 0, 4).unwrap();
    g.place(2, 2, 4).unwrap();
    assert!(solve(&g).is_none());
}

#[test]
fn blank_cell_with_no_candidate_is_unsolved() {
    // Cell (0, 0) sees 1..8 in its row and 9 in its column.
    let puzzle = format!("012345678{}9{}", "0".repeat(9), "0".repeat(62));
    let g = board(&puzzle);
    assert!(givens_consistent(&g));
    assert!(solve(&g).is_none());
}

#[test]
fn batch_keeps_input_order() {
    let unsolvable = format!("55{}", "0".repeat(79));
    let texts = [EASY, unsolvable.as_str(), EASY_SOLVED, EASY];
    let puzzles: Vec<Grid> = texts.iter().map(|t| board(t)).collect();
    let results = solve_batch(&puzzles, 100);
    assert_eq!(results.len(), 4);
    for (r, t) in results.iter().zip(texts.iter()) {
        assert_eq!(r.puzzle.to_text(), *t);
    }
    assert_eq!(results[0].solution.unwrap().to_text(), EASY_SOLVED);
    assert!(results[1].solution.is_none());
    assert_eq!(results[2].solution.unwrap().to_text(), EASY_SOLVED);
    assert_eq!(results[3].solution.unwrap().to_text(), EASY_SOLVED);
}

#[test]
fn batch_stops_at_limit() {
    let puzzles: Vec<Grid> = vec![board(EASY), board(EASY_SOLVED), board(EASY)];
    let results = solve_batch(&puzzles, 2);
    assert_eq!(results.len(), 2);
    assert_eq!(results[1].puzzle.to_text(), EASY_SOLVED);
    assert!(solve_batch(&puzzles, 0).is_empty());
    assert!(solve_batch(&Vec::new(), 5).is_empty());
}

#[test]
fn display_string_layout() {
    let expected = "5 3 0|0 7 0|0 0 0\n\
                    6 0 0|1 9 5|0 0 0\n\
                    0 9 8|0 0 0|0 6 0\n\
                    -----+-----+-----\n\
                    8 0 0|0 6 0|0 0 3\n\
                    4 0 0|8 0 3|0 0 1\n\
                    7 0 0|0 2 0|0 0 6\n\
                    -----+-----+-----\n\
                    0 6 0|0 0 0|2 8 0\n\
                    0 0 0|4 1 9|0 0 5\n\
                    0 0 0|0 8 0|0 7 9";
    assert_eq!(board(EASY).to_display_string(), expected);
}

#[test]
fn digit_value_reads_ascii_digits_only() {
    assert_eq!(digit_value('0'), Some(0));
    assert_eq!(digit_value('7'), Some(7));
    assert_eq!(digit_value('9'), Some(9));
    assert_eq!(digit_value('a'), None);
    assert_eq!(digit_value(' '), None);
    assert_eq!(digit_value('٣'), None);
}

#[test]
fn same_as_compares_every_cell() {
    let a = board(EASY);
    let mut b = board(EASY);
    assert!(a.same_as(&b));
    b.place(8, 8, 1).unwrap();
    assert!(!a.same_as(&b));
}
