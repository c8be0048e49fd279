use sudoku::cnf::{exactly_one_true, Literal};
use sudoku::decode::format_solution;
use sudoku::encode::{
    add_board_entries, encode_board, every_field_contains_one_number, group_variable,
    no_box_contains_duplicates, no_column_contains_duplicates, no_row_contains_duplicates,
    Family, SudokuError,
};
use sudoku::index::index;
use sudoku::solve::{solution_from_outcome, solve_board, sudoku_solver};
use varisat::solver::SolverError;
use varisat::Lit;

const HARD: &str =
    "4.....8.5.3..........7......2.....6.....8.4......1.......6.3.7.5..2.....1.4......";
const HARD_SOLUTION: &str =
    "417369825632158947958724316825437169791586432346912758289643571573291684164875293";

fn to_literals(model: &[Lit]) -> Vec<Literal> {
    model
        .iter()
        .map(|l| Literal { var: l.index(), positive: l.is_positive() })
        .collect()
}

fn assert_rule_valid(s: &str) {
    let b: Vec<u8> = s.bytes().collect();
    assert_eq!(b.len(), 81);
    for unit in 0..9 {
        let mut row: Vec<u8> = (0..9).map(|c| b[9 * unit + c]).collect();
        let mut col: Vec<u8> = (0..9).map(|r| b[9 * r + unit]).collect();
        let (br, bc) = (3 * (unit / 3), 3 * (unit % 3));
        let mut bx: Vec<u8> = (0..9).map(|k| b[9 * (br + k / 3) + bc + k % 3]).collect();
        row.sort();
        col.sort();
        bx.sort();
        let digits: Vec<u8> = b"123456789".to_vec();
        assert_eq!(row, digits);
        assert_eq!(col, digits);
        assert_eq!(bx, digits);
    }
}

#[test]
fn tests() {
    for (input, solution) in [(HARD, HARD_SOLUTION)] {
        let mut solver = sudoku_solver(input).unwrap();
        solver.solve().unwrap();
        let model = to_literals(&solver.model().unwrap());
        let result = format_solution(&model).unwrap();
        assert_eq!(result, solution);
    }
}

#[test]
fn hard_puzzle_through_solve_board() {
    assert_eq!(solve_board(HARD), Ok(Some(HARD_SOLUTION.to_string())));
}

#[test]
fn blank_board_is_satisfiable_and_valid() {
    let blank = "0".repeat(81);
    let s = solve_board(&blank).unwrap().unwrap();
    assert_rule_valid(&s);
    let dots = ".".repeat(81);
    assert_rule_valid(&solve_board(&dots).unwrap().unwrap());
}

#[test]
fn complete_solution_decodes_to_itself() {
    assert_eq!(solve_board(HARD_SOLUTION), Ok(Some(HARD_SOLUTION.to_string())));
}

#[test]
fn duplicate_clue_in_row_is_unsat() {
    let board = format!("11{}", "0".repeat(79));
    assert_eq!(solve_board(&board), Ok(None));
}

#[test]
fn duplicate_clue_in_column_and_box_is_unsat() {
    let mut column = vec![b'.'; 81];
    column[4] = b'7';
    column[9 * 8 + 4] = b'7';
    assert_eq!(solve_board(&String::from_utf8(column).unwrap()), Ok(None));
    let mut bx = vec![b'.'; 81];
    bx[0] = b'3';
    bx[9 + 1] = b'3';
    assert_eq!(solve_board(&String::from_utf8(bx).unwrap()), Ok(None));
}

#[test]
fn wrong_length_is_rejected() {
    assert_eq!(solve_board(&"0".repeat(80)), Err(SudokuError::InvalidLength));
    assert_eq!(solve_board(&"0".repeat(82)), Err(SudokuError::InvalidLength));
    assert_eq!(solve_board(""), Err(SudokuError::InvalidLength));
    assert!(matches!(sudoku_solver("123"), Err(SudokuError::InvalidLength)));
    assert!(matches!(encode_board(&"1".repeat(80)), Err(SudokuError::InvalidLength)));
}

#[test]
fn clues_are_preserved() {
    let s = solve_board(HARD).unwrap().unwrap();
    for (a, b) in HARD.chars().zip(s.chars()) {
        if a.is_ascii_digit() && a != '0' {
            assert_eq!(a, b);
        }
    }
    let board = format!("9{}5", ".".repeat(79));
    let s = solve_board(&board).unwrap().unwrap();
    assert_eq!(s.as_bytes()[0], b'9');
    assert_eq!(s.as_bytes()[80], b'5');
    assert_rule_valid(&s);
}

#[test]
fn index_formula_values() {
    assert_eq!(index(0, 0, 0), 0);
    assert_eq!(index(1, 2, 3), 102);
    assert_eq!(index(8, 8, 8), 728);
    assert_eq!(index(0, 0, 8), 8);
    assert_eq!(index(0, 1, 0), 9);
    assert_eq!(index(1, 0, 0), 81);
}

#[test]
fn index_is_bijective() {
    let mut seen = vec![false; 729];
    for d in 0..9 {
        for r in 0..9 {
            for c in 0..9 {
                let v = index(d, r, c);
                assert!(v < 729);
                assert!(!seen[v]);
                seen[v] = true;
            }
        }
    }
    assert!(seen.iter().all(|&b| b));
}

fn lits(n: usize) -> Vec<Literal> {
    (0..n).map(|v| Literal::pos(v)).collect()
}

fn holds(clauses: &[Vec<Literal>], assignment: u32) -> bool {
    clauses.iter().all(|c| {
        c.iter().any(|l| ((assignment >> l.var) & 1 == 1) == l.positive)
    })
}

#[test]
fn exactly_one_true_shape() {
    let l = lits(9);
    let f = exactly_one_true(&l);
    assert_eq!(f.len(), 37);
    assert_eq!(f[0], l);
    assert_eq!(f[1], vec![l[0].negated(), l[1].negated()]);
    assert_eq!(f[8], vec![l[0].negated(), l[8].negated()]);
    assert_eq!(f[9], vec![l[1].negated(), l[2].negated()]);
    assert_eq!(f[36], vec![l[7].negated(), l[8].negated()]);
    assert_eq!(exactly_one_true(&lits(1)), vec![lits(1)]);
    assert_eq!(exactly_one_true(&lits(3)).len(), 4);
}

#[test]
fn exactly_one_true_exhaustive() {
    let f = exactly_one_true(&lits(9));
    for a in 0u32..512 {
        assert_eq!(holds(&f, a), a.count_ones() == 1, "assignment {a}");
    }
    let mixed = vec![
        Literal { var: 0, positive: false },
        Literal { var: 1, positive: true },
        Literal { var: 2, positive: false },
    ];
    let g = exactly_one_true(&mixed);
    for a in 0u32..8 {
        let count = mixed.iter().filter(|l| ((a >> l.var) & 1 == 1) == l.positive).count();
        assert_eq!(holds(&g, a), count == 1);
    }
}

#[test]
fn structural_clause_count() {
    let blank = encode_board(&"0".repeat(81)).unwrap();
    assert_eq!(blank.len(), 11988);
    let hard = encode_board(HARD).unwrap();
    let clues = HARD.chars().filter(|c| ('1'..='9').contains(c)).count();
    assert_eq!(hard.len(), 11988 + clues);
    assert_eq!(&hard[..11988], &blank[..]);
    let mut f = Vec::new();
    no_row_contains_duplicates(&mut f);
    assert_eq!(f.len(), 2997);
    no_column_contains_duplicates(&mut f);
    no_box_contains_duplicates(&mut f);
    every_field_contains_one_number(&mut f);
    assert_eq!(f.len(), 11988);
}

#[test]
fn encoding_is_deterministic() {
    assert_eq!(encode_board(HARD).unwrap(), encode_board(HARD).unwrap());
    assert_eq!(encode_board(HARD_SOLUTION).unwrap(), encode_board(HARD_SOLUTION).unwrap());
}

#[test]
fn board_entries_are_unit_clauses() {
    let board = format!("5{}9", "0".repeat(79));
    let mut f = vec![vec![Literal::pos(1)]];
    add_board_entries(&mut f, &board);
    assert_eq!(f.len(), 3);
    assert_eq!(f[1], vec![Literal::pos(index(4, 0, 0))]);
    assert_eq!(f[2], vec![Literal::pos(index(8, 8, 8))]);
    let mut g = Vec::new();
    add_board_entries(&mut g, &"x".repeat(81));
    assert!(g.is_empty());
}

#[test]
fn groups_follow_the_families() {
    assert_eq!(group_variable(Family::Row, 9 * 2 + 3, 4), index(2, 3, 4));
    assert_eq!(group_variable(Family::Column, 9 * 2 + 3, 4), index(2, 4, 3));
    assert_eq!(group_variable(Family::Box, 9 * 1 + 5, 7), index(1, 5, 7));
    assert_eq!(group_variable(Family::Cell, 9 * 6 + 7, 8), index(8, 6, 7));
}

#[test]
fn format_solution_decodes_and_rejects_malformed_models() {
    let digits = HARD_SOLUTION.as_bytes();
    let mut model = Vec::new();
    for p in 0..81 {
        for d in 0..9 {
            let v = index(d, p / 9, p % 9);
            model.push(Literal { var: v, positive: (digits[p] - b'1') as usize == d });
        }
    }
    assert_eq!(format_solution(&model), Some(HARD_SOLUTION.to_string()));
    let mut two = model.clone();
    let first_wrong = if digits[0] == b'1' { 1 } else { 0 };
    two[first_wrong] = Literal::pos(index(first_wrong, 0, 0));
    assert_eq!(format_solution(&two), None);
    let none: Vec<Literal> = model.iter().map(|l| Literal { var: l.var, positive: false }).collect();
    assert_eq!(format_solution(&none), None);
    assert_eq!(format_solution(&Vec::new()), None);
}

fn model_of(solution: &str) -> Vec<Literal> {
    let digits = solution.as_bytes();
    let mut model = Vec::new();
    for p in 0..81 {
        for d in 0..9 {
            model.push(Literal { var: index(d, p / 9, p % 9), positive: (digits[p] - b'1') as usize == d });
        }
    }
    model
}

#[test]
fn solver_outcomes_are_interpreted() {
    assert_eq!(
        solution_from_outcome(&Err(SolverError::Interrupted), None),
        Err(SudokuError::SolverFailure("The solver was interrupted".to_string()))
    );
    assert_eq!(solution_from_outcome(&Ok(false), None), Ok(None));
    assert_eq!(solution_from_outcome(&Ok(true), None), Err(SudokuError::MalformedModel));
    assert_eq!(
        solution_from_outcome(&Ok(true), Some(model_of(HARD_SOLUTION))),
        Ok(Some(HARD_SOLUTION.to_string()))
    );
    assert_eq!(
        solution_from_outcome(&Ok(true), Some(Vec::new())),
        Err(SudokuError::MalformedModel)
    );
}
