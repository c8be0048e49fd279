//! Sudoku as Boolean satisfiability: a bijection between (digit, row, column)
//! triples and propositional variables, the CNF encoding of the Sudoku rules
//! and of the given clues, and the decoding of a satisfying model into a board.
pub mod index;
pub mod cnf;
pub mod encode;
pub mod solver;
pub mod decode;
pub mod solve;
