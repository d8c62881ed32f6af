//! A Sudoku solver: a 9x9 board, the row/column/box placement rule, a
//! depth-first backtracking search, and a batch runner that solves many
//! boards in parallel while keeping their order.
pub mod grid;
pub mod rules;
pub mod solver;
pub mod batch;
