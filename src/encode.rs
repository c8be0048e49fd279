//! The Sudoku rules and the given clues as a CNF formula over the variables
//! of the indexer.
use vstd::prelude::*;
use vstd::string::*;
use crate::index::{index, index_of, SIZE};
use crate::cnf::{
    Literal, exactly_one_clauses, exactly_one_true, view_clauses, lemma_view_clauses_add,
    lemma_view_clauses_push, lemma_exactly_one_clauses_len, vars_below, lemma_vars_below_add,
    lemma_exactly_one_vars_below,
};

verus! {

/// Number of cells of the board.
pub const CELLS: usize = 81;

/// Why a board could not be solved.
#[derive(Debug, PartialEq, Eq)]
pub enum SudokuError {
    /// The board does not hold exactly 81 characters.
    InvalidLength,
    /// The SAT solver failed while solving; its message.
    SolverFailure(String),
    /// The solver reported satisfiable but gave no usable model.
    MalformedModel,
}

/// The four families of groups: each group of a family holds nine variables
/// of which exactly one must be true.
#[derive(Clone, Copy, Debug, PartialEq, Eq, Structural)]
pub enum Family {
    /// Group `9 d + r`: digit `d` in the columns of row `r`.
    Row,
    /// Group `9 d + c`: digit `d` in the rows of column `c`.
    Column,
    /// Group `9 d + b`: digit `d` in the cells of box `b` (boxes row-major).
    Box,
    /// Group `9 r + c`: the digits of cell `(r, c)`.
    Cell,
}

/// The variable at position `k` of group `g` of a family.
pub open spec fn group_var(family: Family, g: int, k: int) -> int {
    match family {
        Family::Row => index_of(g / 9, g % 9, k),
        Family::Column => index_of(g / 9, k, g % 9),
        Family::Box => index_of(g / 9, 3 * ((g % 9) / 3) + k / 3, 3 * ((g % 9) % 3) + k % 3),
        Family::Cell => index_of(k, g / 9, g % 9),
    }
}

/// The positive literals of group `g` of a family.
pub open spec fn group_lits(family: Family, g: int) -> Seq<Literal> {
    Seq::new(9, |k: int| Literal { var: group_var(family, g, k) as usize, positive: true })
}

/// The clauses of the first `m` groups of a family.
pub open spec fn family_clauses(family: Family, m: nat) -> Seq<Seq<Literal>>
    decreases m,
{
    if m == 0 {
        seq![]
    } else {
        family_clauses(family, (m - 1) as nat) + exactly_one_clauses(group_lits(family, m - 1))
    }
}

/// All clauses of the Sudoku rules, family after family.
pub open spec fn structural_clauses() -> Seq<Seq<Literal>> {
    family_clauses(Family::Row, 81) + family_clauses(Family::Column, 81) + family_clauses(
        Family::Box,
        81,
    ) + family_clauses(Family::Cell, 81)
}

/// A character that gives a clue: a digit from '1' to '9'.
pub open spec fn is_clue(c: char) -> bool {
    '1' <= c <= '9'
}

/// The zero-based digit of a clue character.
pub open spec fn clue_digit(c: char) -> int {
    c as int - '1' as int
}

/// The unit clause that a clue at position `p` gives.
pub open spec fn clue_clause(board: Seq<char>, p: int) -> Seq<Literal> {
    seq![Literal { var: index_of(clue_digit(board[p]), p / 9, p % 9) as usize, positive: true }]
}

/// The unit clauses of the clues among the first `m` positions of the board.
pub open spec fn clue_clauses(board: Seq<char>, m: nat) -> Seq<Seq<Literal>>
    decreases m,
{
    if m == 0 {
        seq![]
    } else if is_clue(board[m - 1]) {
        clue_clauses(board, (m - 1) as nat).push(clue_clause(board, m - 1))
    } else {
        clue_clauses(board, (m - 1) as nat)
    }
}

/// The whole formula of a board: the rules, then one unit clause per clue.
pub open spec fn sudoku_formula(board: Seq<char>) -> Seq<Seq<Literal>> {
    structural_clauses() + clue_clauses(board, 81)
}

/// The variable at position `k` of group `g` of a family.
pub fn group_variable(family: Family, g: usize, k: usize) -> (r: usize)
    requires
        g < CELLS,
        k < SIZE,
    ensures
        r as int == group_var(family, g as int, k as int),
        r < 729,
{
    match family {
        Family::Row => index(g / 9, g % 9, k),
        Family::Column => index(g / 9, k, g % 9),
        Family::Box => index(g / 9, 3 * ((g % 9) / 3) + k / 3, 3 * ((g % 9) % 3) + k % 3),
        Family::Cell => index(k, g / 9, g % 9),
    }
}

/// Appends the exactly-one clauses of every group of a family.
pub fn add_family(formula: &mut Vec<Vec<Literal>>, family: Family)
    ensures
        view_clauses(final(formula)@) == view_clauses(old(formula)@) + family_clauses(family, 81),
{
    let ghost start = view_clauses(formula@);
    let mut g: usize = 0;
    assert(start =~= start + family_clauses(family, 0));
    while g < CELLS
        invariant
            g <= CELLS,
            view_clauses(formula@) == start + family_clauses(family, g as nat),
        decreases CELLS - g,
    {
        let mut group: Vec<Literal> = Vec::new();
        let mut k: usize = 0;
        while k < SIZE
            invariant
                g < CELLS,
                k <= SIZE,
                group@ == group_lits(family, g as int).take(k as int),
            decreases SIZE - k,
        {
            group.push(Literal::pos(group_variable(family, g, k)));
            k += 1;
            assert(group@ =~= group_lits(family, g as int).take(k as int));
        }
        assert(group@ =~= group_lits(family, g as int));
        let mut clauses = exactly_one_true(&group);
        proof {
            lemma_view_clauses_add(formula@, clauses@);
        }
        formula.append(&mut clauses);
        g += 1;
        assert(start + family_clauses(family, g as nat) =~= start + family_clauses(
            family,
            (g - 1) as nat,
        ) + exactly_one_clauses(group_lits(family, g - 1)));
    }
}

/// Appends the clauses that give each digit exactly one column in each row.
pub fn no_row_contains_duplicates(formula: &mut Vec<Vec<Literal>>)
    ensures
        view_clauses(final(formula)@) == view_clauses(old(formula)@) + family_clauses(
            Family::Row,
            81,
        ),
{
    add_family(formula, Family::Row);
}

/// Appends the clauses that give each digit exactly one row in each column.
pub fn no_column_contains_duplicates(formula: &mut Vec<Vec<Literal>>)
    ensures
        view_clauses(final(formula)@) == view_clauses(old(formula)@) + family_clauses(
            Family::Column,
            81,
        ),
{
    add_family(formula, Family::Column);
}

/// Appends the clauses that give each digit exactly one cell in each box.
pub fn no_box_contains_duplicates(formula: &mut Vec<Vec<Literal>>)
    ensures
        view_clauses(final(formula)@) == view_clauses(old(formula)@) + family_clauses(
            Family::Box,
            81,
        ),
{
    add_family(formula, Family::Box);
}

/// Appends the clauses that give each cell exactly one digit.
pub fn every_field_contains_one_number(formula: &mut Vec<Vec<Literal>>)
    ensures
        view_clauses(final(formula)@) == view_clauses(old(formula)@) + family_clauses(
            Family::Cell,
            81,
        ),
{
    add_family(formula, Family::Cell);
}

/// Appends one unit clause for each clue of the board, in board order.
pub fn add_board_entries(formula: &mut Vec<Vec<Literal>>, board: &str)
    requires
        board@.len() == CELLS,
    ensures
        view_clauses(final(formula)@) == view_clauses(old(formula)@) + clue_clauses(board@, 81),
{
    let ghost start = view_clauses(formula@);
    assert(start =~= start + clue_clauses(board@, 0));
    let mut i: usize = 0;
    while i < CELLS
        invariant
            i <= CELLS,
            board@.len() == CELLS,
            view_clauses(formula@) == start + clue_clauses(board@, i as nat),
        decreases CELLS - i,
    {
        let c = board.get_char(i);
        if '1' <= c && c <= '9' {
            let digit = (c as u32 - '1' as u32) as usize;
            let mut clause: Vec<Literal> = Vec::new();
            clause.push(Literal::pos(index(digit, i / 9, i % 9)));
            assert(clause@ =~= clue_clause(board@, i as int));
            proof {
                lemma_view_clauses_push(formula@, clause);
            }
            formula.push(clause);
            assert(start + clue_clauses(board@, (i + 1) as nat) =~= (start + clue_clauses(
                board@,
                i as nat,
            )).push(clue_clause(board@, i as int)));
        }
        i += 1;
    }
}

/// The CNF formula of a board: the four families of rules, then the clues.
/// A board of any length other than 81 characters is refused.
pub fn encode_board(board: &str) -> (r: Result<Vec<Vec<Literal>>, SudokuError>)
    ensures
        r is Err <==> board@.len() != CELLS,
        r is Err ==> r == Err::<Vec<Vec<Literal>>, SudokuError>(SudokuError::InvalidLength),
        r matches Ok(f) ==> view_clauses(f@) == sudoku_formula(board@),
{
    if board.unicode_len() != CELLS {
        return Err(SudokuError::InvalidLength);
    }
    let mut formula: Vec<Vec<Literal>> = Vec::new();
    assert(view_clauses(formula@) =~= seq![]);
    no_row_contains_duplicates(&mut formula);
    no_column_contains_duplicates(&mut formula);
    no_box_contains_duplicates(&mut formula);
    every_field_contains_one_number(&mut formula);
    add_board_entries(&mut formula, board);
    assert(view_clauses(formula@) =~= sudoku_formula(board@));
    Ok(formula)
}

proof fn lemma_family_clauses_len(family: Family, m: nat)
    ensures
        family_clauses(family, m).len() == 37 * m,
    decreases m,
{
    if m > 0 {
        lemma_family_clauses_len(family, (m - 1) as nat);
        lemma_exactly_one_clauses_len(group_lits(family, m - 1));
    }
}

/// The rules alone make 11,988 clauses, whatever the board; the clues add
/// at most one clause per cell.
pub proof fn lemma_structural_clause_count(board: Seq<char>)
    ensures
        structural_clauses().len() == 11988,
        sudoku_formula(board).len() - structural_clauses().len() == clue_clauses(board, 81).len(),
        sudoku_formula(board).subrange(0, 11988) == structural_clauses(),
{
    lemma_family_clauses_len(Family::Row, 81);
    lemma_family_clauses_len(Family::Column, 81);
    lemma_family_clauses_len(Family::Box, 81);
    lemma_family_clauses_len(Family::Cell, 81);
    assert(sudoku_formula(board).subrange(0, 11988) =~= structural_clauses());
}

proof fn lemma_family_vars_below(family: Family, m: nat)
    requires
        m <= 81,
    ensures
        vars_below(family_clauses(family, m), 729),
    decreases m,
{
    if m > 0 {
        lemma_family_vars_below(family, (m - 1) as nat);
        let g = m - 1;
        let lits = group_lits(family, g);
        assert forall|k: int| 0 <= k < lits.len() implies (#[trigger] lits[k]).var < 729 by {
            let v = group_var(family, g, k);
            assert(0 <= v < 729);
        }
        lemma_exactly_one_vars_below(lits, 729);
        lemma_vars_below_add(family_clauses(family, (m - 1) as nat), exactly_one_clauses(lits), 729);
    }
}

proof fn lemma_clue_vars_below(board: Seq<char>, m: nat)
    requires
        m <= board.len(),
        m <= 81,
    ensures
        vars_below(clue_clauses(board, m), 729),
    decreases m,
{
    if m > 0 {
        lemma_clue_vars_below(board, (m - 1) as nat);
        if is_clue(board[m - 1]) {
            let c = clue_clause(board, m - 1);
            assert(0 <= clue_digit(board[m - 1]) < 9);
            assert(vars_below(seq![c], 729));
            lemma_vars_below_add(clue_clauses(board, (m - 1) as nat), seq![c], 729);
            assert(clue_clauses(board, m) =~= clue_clauses(board, (m - 1) as nat) + seq![c]);
        }
    }
}

/// Every literal of a board's formula names one of the 729 variables.
pub proof fn lemma_formula_vars_below(board: Seq<char>)
    requires
        board.len() == 81,
    ensures
        vars_below(sudoku_formula(board), 729),
{
    lemma_family_vars_below(Family::Row, 81);
    lemma_family_vars_below(Family::Column, 81);
    lemma_family_vars_below(Family::Box, 81);
    lemma_family_vars_below(Family::Cell, 81);
    lemma_clue_vars_below(board, 81);
    lemma_vars_below_add(family_clauses(Family::Row, 81), family_clauses(Family::Column, 81), 729);
    lemma_vars_below_add(
        family_clauses(Family::Row, 81) + family_clauses(Family::Column, 81),
        family_clauses(Family::Box, 81),
        729,
    );
    lemma_vars_below_add(
        family_clauses(Family::Row, 81) + family_clauses(Family::Column, 81) + family_clauses(
            Family::Box,
            81,
        ),
        family_clauses(Family::Cell, 81),
        729,
    );
    lemma_vars_below_add(structural_clauses(), clue_clauses(board, 81), 729);
}

} // verus!
