//! Solving a board: its formula is handed to the SAT solver, and a model
//! that the solver finds is decoded into a filled board.
use vstd::prelude::*;
use varisat::Solver;
use varisat::solver::SolverError;
use crate::cnf::{
    Literal, clause_holds, formula_holds, exactly_one_holds, lit_holds, view_clauses, vars_below,
    lemma_formula_holds_add, lemma_exactly_one_true_correct, exactly_one_clauses, satisfiable,
};
use crate::encode::{
    Family, SudokuError, CELLS, encode_board, sudoku_formula, structural_clauses, family_clauses,
    clue_clauses, clue_clause, group_lits, group_var, is_clue, clue_digit,
    lemma_formula_vars_below,
};
use crate::decode::{true_vars, cell_var, cell_determined, decodes_to, digit_char, format_solution};
use crate::solver::{
    solver_clauses, model_consistent, clause_in_model, new_solver, add_clause, solve, model,
    solver_error_message, solver_plain,
};
use crate::index::{index_of, in_domain};

verus! {

/// `s` fills the board: a digit character at each of the 81 positions, and
/// at each clue of `board` that very clue.
pub open spec fn fills_board(board: Seq<char>, s: Seq<char>) -> bool {
    &&& s.len() == 81
    &&& forall|p: int| 0 <= p < 81 ==> is_clue(#[trigger] s[p])
    &&& forall|p: int| 0 <= p < 81 && is_clue(#[trigger] board[p]) ==> s[p] == board[p]
}

/// Positions `p` and `q` share a row, a column or a box.
pub open spec fn same_unit(p: int, q: int) -> bool {
    ||| p / 9 == q / 9
    ||| p % 9 == q % 9
    ||| (p / 27 == q / 27 && (p % 9) / 3 == (q % 9) / 3)
}

/// No two positions of a row, a column or a box hold the same character.
pub open spec fn rule_valid(s: Seq<char>) -> bool {
    forall|p: int, q: int|
        0 <= p < 81 && 0 <= q < 81 && p != q && same_unit(p, q) ==> #[trigger] s[p]
            != #[trigger] s[q]
}

/// A solver that holds the formula of the board, or `InvalidLength` when
/// the board does not hold exactly 81 characters.
pub fn sudoku_solver(board: &str) -> (r: Result<Solver<'static>, SudokuError>)
    ensures
        r is Err <==> board@.len() != CELLS,
        r is Err ==> r == Err::<Solver<'static>, SudokuError>(SudokuError::InvalidLength),
        r matches Ok(s) ==> solver_clauses(s) == sudoku_formula(board@) && solver_plain(s),
{
    let formula = match encode_board(board) {
        Ok(f) => f,
        Err(e) => return Err(e),
    };
    proof {
        lemma_formula_vars_below(board@);
    }
    let mut solver = new_solver();
    let mut i: usize = 0;
    while i < formula.len()
        invariant
            i <= formula@.len(),
            view_clauses(formula@) == sudoku_formula(board@),
            vars_below(sudoku_formula(board@), 729),
            solver_clauses(solver) == view_clauses(formula@).take(i as int),
            solver_plain(solver),
        decreases formula@.len() - i,
    {
        assert(formula@[i as int]@ == view_clauses(formula@)[i as int]);
        add_clause(&mut solver, &formula[i]);
        i += 1;
        assert(view_clauses(formula@).take(i as int) =~= view_clauses(formula@).take(
            (i - 1) as int,
        ).push(formula@[i - 1]@));
    }
    assert(view_clauses(formula@).take(i as int) =~= view_clauses(formula@));
    Ok(solver)
}

/// A clause with a literal in a consistent model holds under the model's
/// true variables.
proof fn lemma_model_clause_holds(m: Seq<Literal>, c: Seq<Literal>)
    requires
        model_consistent(m),
        clause_in_model(m, c),
    ensures
        clause_holds(true_vars(m), c),
{
    let t = true_vars(m);
    let i = choose|i: int| 0 <= i < c.len() && m.contains(#[trigger] c[i]);
    let l = c[i];
    let k = choose|k: int| 0 <= k < m.len() && m[k] == l;
    if l.positive {
        assert(m[k].positive && m[k].var == l.var as int);
        assert(t.contains(l.var as int));
    } else {
        if t.contains(l.var as int) {
            let k2 = choose|k2: int| 0 <= k2 < m.len() && m[k2].positive && #[trigger] m[k2].var
                == l.var as int;
            assert(m[k].var == m[k2].var);
        }
    }
    assert(lit_holds(t, c[i]));
}

/// The groups of a family whose clauses hold each have exactly one true
/// literal.
proof fn lemma_family_groups_hold(t: Set<int>, family: Family, m: nat)
    requires
        formula_holds(t, family_clauses(family, m)),
    ensures
        forall|g: int| 0 <= g < m ==> exactly_one_holds(t, #[trigger] group_lits(family, g)),
    decreases m,
{
    if m > 0 {
        let mm = (m - 1) as nat;
        let lits = group_lits(family, mm as int);
        lemma_formula_holds_add(t, family_clauses(family, mm), exactly_one_clauses(lits));
        lemma_family_groups_hold(t, family, mm);
        lemma_exactly_one_true_correct(t, lits);
    }
}

/// Where the clue clauses hold, the variable of each clue is true.
proof fn lemma_clues_hold(t: Set<int>, board: Seq<char>, m: nat)
    requires
        m <= board.len(),
        m <= 81,
        formula_holds(t, clue_clauses(board, m)),
    ensures
        forall|p: int|
            0 <= p < m && is_clue(#[trigger] board[p]) ==> t.contains(
                index_of(clue_digit(board[p]), p / 9, p % 9),
            ),
    decreases m,
{
    if m > 0 {
        let mm = (m - 1) as nat;
        let p = m - 1;
        if is_clue(board[p]) {
            let c = clue_clause(board, p);
            assert(clue_clauses(board, m) =~= clue_clauses(board, mm) + seq![c]);
            lemma_formula_holds_add(t, clue_clauses(board, mm), seq![c]);
            assert(0 <= clue_digit(board[p]) < 9);
            assert(0 <= index_of(clue_digit(board[p]), p / 9, p % 9) < 729);
            assert(clause_holds(t, seq![c][0]));
            assert(lit_holds(t, c[0]));
            lemma_clues_hold(t, board, mm);
        } else {
            assert(clue_clauses(board, m) == clue_clauses(board, mm));
            lemma_clues_hold(t, board, mm);
        }
    }
}

/// Under an assignment that satisfies a board's formula, every cell has
/// exactly one true digit, and every clue's variable is true.
proof fn lemma_formula_determines_board(t: Set<int>, board: Seq<char>)
    requires
        board.len() == 81,
        formula_holds(t, sudoku_formula(board)),
    ensures
        forall|p: int| 0 <= p < 81 ==> cell_determined(t, p),
        forall|p: int|
            0 <= p < 81 && is_clue(#[trigger] board[p]) ==> t.contains(
                cell_var(clue_digit(board[p]), p),
            ),
{
    let rcb = family_clauses(Family::Row, 81) + family_clauses(Family::Column, 81)
        + family_clauses(Family::Box, 81);
    lemma_formula_holds_add(t, structural_clauses(), clue_clauses(board, 81));
    lemma_formula_holds_add(t, rcb, family_clauses(Family::Cell, 81));
    lemma_family_groups_hold(t, Family::Cell, 81);
    lemma_clues_hold(t, board, 81);
    assert forall|p: int| 0 <= p < 81 implies cell_determined(t, p) by {
        let lits = group_lits(Family::Cell, p);
        assert(exactly_one_holds(t, lits));
        let d = choose|d: int|
            0 <= d < lits.len() && lit_holds(t, #[trigger] lits[d]) && (forall|j: int|
                0 <= j < lits.len() && j != d ==> !lit_holds(t, #[trigger] lits[j]));
        assert(group_var(Family::Cell, p, d) == cell_var(d, p));
        assert(0 <= cell_var(d, p) < 729);
        assert forall|e: int| 0 <= e < 9 && e != d implies !t.contains(#[trigger] cell_var(e, p)) by {
            assert(group_var(Family::Cell, p, e) == cell_var(e, p));
            assert(0 <= cell_var(e, p) < 729);
            assert(!lit_holds(t, lits[e]));
        }
        assert(t.contains(cell_var(d, p)));
    }
}

/// In a group with exactly one true literal, two true variables of the
/// group sit at the same position.
proof fn lemma_group_unique(t: Set<int>, family: Family, g: int, k1: int, k2: int)
    requires
        0 <= g < 81,
        0 <= k1 < 9,
        0 <= k2 < 9,
        exactly_one_holds(t, group_lits(family, g)),
        t.contains(group_var(family, g, k1)),
        t.contains(group_var(family, g, k2)),
    ensures
        k1 == k2,
{
    let lits = group_lits(family, g);
    assert(0 <= group_var(family, g, k1) < 729);
    assert(0 <= group_var(family, g, k2) < 729);
    assert(lit_holds(t, lits[k1]));
    assert(lit_holds(t, lits[k2]));
}

/// Box group of digit `d` that holds position `p`, and the place of `p` in it.
proof fn lemma_box_place(d: int, p: int)
    requires
        0 <= d < 9,
        0 <= p < 81,
    ensures
        0 <= 9 * d + 3 * (p / 27) + (p % 9) / 3 < 81,
        0 <= 3 * ((p / 9) % 3) + (p % 9) % 3 < 9,
        group_var(Family::Box, 9 * d + 3 * (p / 27) + (p % 9) / 3, 3 * ((p / 9) % 3) + (p % 9) % 3)
            == cell_var(d, p),
{
    let g = 9 * d + 3 * (p / 27) + (p % 9) / 3;
    let k = 3 * ((p / 9) % 3) + (p % 9) % 3;
    assert(g / 9 == d && g % 9 == 3 * (p / 27) + (p % 9) / 3);
    assert(3 * ((g % 9) / 3) + k / 3 == p / 9);
    assert(3 * ((g % 9) % 3) + k % 3 == p % 9);
}

/// Two distinct positions of one unit do not both hold digit `d`.
proof fn lemma_unit_distinct(t: Set<int>, d: int, p: int, q: int)
    requires
        0 <= d < 9,
        0 <= p < 81,
        0 <= q < 81,
        p != q,
        same_unit(p, q),
        forall|g: int| 0 <= g < 81 ==> exactly_one_holds(t, #[trigger] group_lits(Family::Row, g)),
        forall|g: int| 0 <= g < 81 ==> exactly_one_holds(t, #[trigger] group_lits(Family::Column, g)),
        forall|g: int| 0 <= g < 81 ==> exactly_one_holds(t, #[trigger] group_lits(Family::Box, g)),
    ensures
        !(t.contains(cell_var(d, p)) && t.contains(cell_var(d, q))),
{
    if t.contains(cell_var(d, p)) && t.contains(cell_var(d, q)) {
        if p / 9 == q / 9 {
            let g = 9 * d + p / 9;
            assert(group_var(Family::Row, g, p % 9) == cell_var(d, p));
            assert(group_var(Family::Row, g, q % 9) == cell_var(d, q));
            lemma_group_unique(t, Family::Row, g, p % 9, q % 9);
        } else if p % 9 == q % 9 {
            let g = 9 * d + p % 9;
            assert(group_var(Family::Column, g, p / 9) == cell_var(d, p));
            assert(group_var(Family::Column, g, q / 9) == cell_var(d, q));
            lemma_group_unique(t, Family::Column, g, p / 9, q / 9);
        } else {
            let g = 9 * d + 3 * (p / 27) + (p % 9) / 3;
            let kp = 3 * ((p / 9) % 3) + (p % 9) % 3;
            let kq = 3 * ((q / 9) % 3) + (q % 9) % 3;
            lemma_box_place(d, p);
            lemma_box_place(d, q);
            lemma_group_unique(t, Family::Box, g, kp, kq);
        }
    }
}

/// Where the formula holds, the decoded board obeys the rules of Sudoku.
proof fn lemma_decoded_rule_valid(t: Set<int>, board: Seq<char>, s: Seq<char>)
    requires
        board.len() == 81,
        formula_holds(t, sudoku_formula(board)),
        decodes_to(t, s),
    ensures
        rule_valid(s),
{
    let row = family_clauses(Family::Row, 81);
    let col = family_clauses(Family::Column, 81);
    let bx = family_clauses(Family::Box, 81);
    lemma_formula_holds_add(t, structural_clauses(), clue_clauses(board, 81));
    lemma_formula_holds_add(t, row + col + bx, family_clauses(Family::Cell, 81));
    lemma_formula_holds_add(t, row + col, bx);
    lemma_formula_holds_add(t, row, col);
    lemma_family_groups_hold(t, Family::Row, 81);
    lemma_family_groups_hold(t, Family::Column, 81);
    lemma_family_groups_hold(t, Family::Box, 81);
    lemma_formula_determines_board(t, board);
    assert forall|p: int, q: int|
        0 <= p < 81 && 0 <= q < 81 && p != q && same_unit(p, q) implies #[trigger] s[p]
        != #[trigger] s[q] by {
        assert(cell_determined(t, p));
        let d = choose|d: int|
            0 <= d < 9 && t.contains(#[trigger] cell_var(d, p)) && (forall|e: int|
                0 <= e < 9 && e != d ==> !t.contains(#[trigger] cell_var(e, p)));
        lemma_unit_distinct(t, d, p, q);
        assert(s[p] == digit_char(d));
    }
}

proof fn lemma_digit_char_of_clue(c: char)
    requires
        is_clue(c),
    ensures
        digit_char(clue_digit(c)) == c,
        0 <= clue_digit(c) < 9,
{
}

/// The digit (zero-based) of a fixed valid filling at cell `(r, c)`.
pub open spec fn pattern_digit(r: int, c: int) -> int {
    (3 * (r % 3) + r / 3 + c) % 9
}

/// The true variables of the fixed valid filling.
pub open spec fn pattern_vars() -> Set<int> {
    Set::new(|v: int| 0 <= v < 729 && pattern_digit((v / 9) % 9, v % 9) == v / 81)
}

proof fn lemma_pattern_contains(d: int, r: int, c: int)
    requires
        in_domain(d, r, c),
    ensures
        pattern_vars().contains(index_of(d, r, c)) == (pattern_digit(r, c) == d),
{
    let v = index_of(d, r, c);
    assert(v / 81 == d && (v / 9) % 9 == r && v % 9 == c);
}

/// The position in group `g` of a family where the fixed filling is true.
pub open spec fn pattern_place(family: Family, g: int) -> int {
    let d = g / 9;
    let b = g % 9;
    match family {
        Family::Row => (d - 3 * (b % 3) - b / 3 + 18) % 9,
        Family::Column => {
            let s = (d - b + 9) % 9;
            3 * (s % 3) + s / 3
        },
        Family::Box => (d - b / 3 - 3 * (b % 3) + 18) % 9,
        Family::Cell => pattern_digit(g / 9, g % 9),
    }
}

proof fn lemma_shift_unique(a: int, k: int, d: int)
    requires
        0 <= a < 9,
        0 <= k < 9,
        0 <= d < 9,
    ensures
        ((a + k) % 9 == d) == (k == (d - a + 18) % 9),
{
    if a + k < 9 {
        assert((a + k) % 9 == a + k);
    } else {
        assert((a + k) % 9 == a + k - 9);
    }
    if d - a + 18 < 18 {
        assert((d - a + 18) % 9 == d - a + 9);
    } else {
        assert((d - a + 18) % 9 == d - a);
    }
}

proof fn lemma_pattern_row(d: int, r: int, k: int)
    requires
        0 <= d < 9,
        0 <= r < 9,
        0 <= k < 9,
    ensures
        (pattern_digit(r, k) == d) == (k == pattern_place(Family::Row, 9 * d + r)),
{
    assert((9 * d + r) / 9 == d && (9 * d + r) % 9 == r);
    lemma_shift_unique(3 * (r % 3) + r / 3, k, d);
}

proof fn lemma_swap_thirds(k: int, s: int)
    requires
        0 <= k < 9,
        0 <= s < 9,
    ensures
        (3 * (k % 3) + k / 3 == s) == (k == 3 * (s % 3) + s / 3),
{
    let a = 3 * (k % 3) + k / 3;
    let w = 3 * (s % 3) + s / 3;
    assert(a / 3 == k % 3 && a % 3 == k / 3);
    assert(w / 3 == s % 3 && w % 3 == s / 3);
    assert(k == 3 * (k / 3) + k % 3);
    assert(s == 3 * (s / 3) + s % 3);
}

#[verifier::rlimit(30)]
proof fn lemma_pattern_column(d: int, c: int, k: int)
    requires
        0 <= d < 9,
        0 <= c < 9,
        0 <= k < 9,
    ensures
        (pattern_digit(k, c) == d) == (k == pattern_place(Family::Column, 9 * d + c)),
{
    assert((9 * d + c) / 9 == d && (9 * d + c) % 9 == c);
    let a = 3 * (k % 3) + k / 3;
    let s = (d - c + 9) % 9;
    assert(0 <= a < 9);
    lemma_shift_unique(c, a, d);
    assert((c + a) % 9 == pattern_digit(k, c));
    if d >= c {
        assert(s == d - c);
        assert((d - c + 18) % 9 == d - c);
    } else {
        assert(s == d - c + 9);
        assert((d - c + 18) % 9 == d - c + 9);
    }
    lemma_swap_thirds(k, s);
}

proof fn lemma_pattern_box(d: int, b: int, k: int)
    requires
        0 <= d < 9,
        0 <= b < 9,
        0 <= k < 9,
    ensures
        (pattern_digit(3 * (b / 3) + k / 3, 3 * (b % 3) + k % 3) == d) == (k == pattern_place(
            Family::Box,
            9 * d + b,
        )),
{
    assert((9 * d + b) / 9 == d && (9 * d + b) % 9 == b);
    let r = 3 * (b / 3) + k / 3;
    let c = 3 * (b % 3) + k % 3;
    assert(r % 3 == k / 3 && r / 3 == b / 3);
    assert(3 * (k / 3) + k % 3 == k);
    assert(pattern_digit(r, c) == (b / 3 + 3 * (b % 3) + k) % 9);
    lemma_shift_unique(b / 3 + 3 * (b % 3), k, d);
}

proof fn lemma_pattern_group(family: Family, g: int)
    requires
        0 <= g < 81,
    ensures
        exactly_one_holds(pattern_vars(), group_lits(family, g)),
{
    let t = pattern_vars();
    let lits = group_lits(family, g);
    let w = pattern_place(family, g);
    let d = g / 9;
    let b = g % 9;
    assert(g == 9 * d + b);
    assert forall|k: int| 0 <= k < 9 implies lit_holds(t, #[trigger] lits[k]) == (k == w) by {
        assert(0 <= group_var(family, g, k) < 729);
        match family {
            Family::Row => {
                lemma_pattern_contains(d, b, k);
                lemma_pattern_row(d, b, k);
            },
            Family::Column => {
                lemma_pattern_contains(d, k, b);
                lemma_pattern_column(d, b, k);
            },
            Family::Box => {
                lemma_pattern_contains(d, 3 * (b / 3) + k / 3, 3 * (b % 3) + k % 3);
                lemma_pattern_box(d, b, k);
            },
            Family::Cell => {
                lemma_pattern_contains(k, d, b);
            },
        }
    }
    assert(0 <= w < 9) by {
        if family == Family::Column {
            let s = (d - b + 9) % 9;
            assert(0 <= 3 * (s % 3) + s / 3 < 9);
        }
    }
    assert(lit_holds(t, lits[w]));
}

proof fn lemma_groups_give_family(t: Set<int>, family: Family, m: nat)
    requires
        m <= 81,
        forall|g: int| 0 <= g < m ==> exactly_one_holds(t, #[trigger] group_lits(family, g)),
    ensures
        formula_holds(t, family_clauses(family, m)),
    decreases m,
{
    if m > 0 {
        let mm = (m - 1) as nat;
        let lits = group_lits(family, mm as int);
        lemma_groups_give_family(t, family, mm);
        lemma_exactly_one_true_correct(t, lits);
        lemma_formula_holds_add(t, family_clauses(family, mm), exactly_one_clauses(lits));
    }
}

proof fn lemma_no_clues(board: Seq<char>, m: nat)
    requires
        m <= board.len(),
        forall|p: int| 0 <= p < board.len() ==> !is_clue(#[trigger] board[p]),
    ensures
        clue_clauses(board, m) == Seq::<Seq<Literal>>::empty(),
    decreases m,
{
    if m > 0 {
        lemma_no_clues(board, (m - 1) as nat);
    }
}

/// The formula of a board without clues is satisfiable.
pub proof fn lemma_blank_board_satisfiable(board: Seq<char>)
    requires
        board.len() == 81,
        forall|p: int| 0 <= p < 81 ==> !is_clue(#[trigger] board[p]),
    ensures
        satisfiable(sudoku_formula(board)),
{
    let t = pattern_vars();
    assert forall|g: int| 0 <= g < 81 implies exactly_one_holds(t, #[trigger] group_lits(Family::Row, g)) by {
        lemma_pattern_group(Family::Row, g);
    }
    assert forall|g: int| 0 <= g < 81 implies exactly_one_holds(t, #[trigger] group_lits(Family::Column, g)) by {
        lemma_pattern_group(Family::Column, g);
    }
    assert forall|g: int| 0 <= g < 81 implies exactly_one_holds(t, #[trigger] group_lits(Family::Box, g)) by {
        lemma_pattern_group(Family::Box, g);
    }
    assert forall|g: int| 0 <= g < 81 implies exactly_one_holds(t, #[trigger] group_lits(Family::Cell, g)) by {
        lemma_pattern_group(Family::Cell, g);
    }
    lemma_groups_give_family(t, Family::Row, 81);
    lemma_groups_give_family(t, Family::Column, 81);
    lemma_groups_give_family(t, Family::Box, 81);
    lemma_groups_give_family(t, Family::Cell, 81);
    let row = family_clauses(Family::Row, 81);
    let col = family_clauses(Family::Column, 81);
    let bx = family_clauses(Family::Box, 81);
    lemma_formula_holds_add(t, row, col);
    lemma_formula_holds_add(t, row + col, bx);
    lemma_formula_holds_add(t, row + col + bx, family_clauses(Family::Cell, 81));
    lemma_no_clues(board, 81);
    lemma_formula_holds_add(t, structural_clauses(), clue_clauses(board, 81));
    assert(formula_holds(t, sudoku_formula(board)));
}

/// What a solver's answer means for the board: `outcome` is what `solve`
/// returned, `model` the model read afterwards.
pub fn solution_from_outcome(outcome: &Result<bool, SolverError>, model: Option<Vec<Literal>>) -> (r:
    Result<Option<String>, SudokuError>)
    ensures
        outcome is Err ==> r matches Err(SudokuError::SolverFailure(_)),
        *outcome == Ok::<bool, SolverError>(false) ==> r == Ok::<Option<String>, SudokuError>(None),
        *outcome == Ok::<bool, SolverError>(true) && model is None ==> r == Err::<
            Option<String>,
            SudokuError,
        >(SudokuError::MalformedModel),
        model matches Some(m) ==> (*outcome == Ok::<bool, SolverError>(true) ==> {
            &&& (r is Ok <==> forall|p: int| 0 <= p < 81 ==> cell_determined(true_vars(m@), p))
            &&& (r is Err ==> r == Err::<Option<String>, SudokuError>(SudokuError::MalformedModel))
            &&& (r is Ok ==> r->Ok_0 is Some)
            &&& (r matches Ok(Some(s)) ==> decodes_to(true_vars(m@), s@))
        }),
{
    match outcome {
        Err(e) => Err(SudokuError::SolverFailure(solver_error_message(e))),
        Ok(false) => Ok(None),
        Ok(true) => match model {
            None => Err(SudokuError::MalformedModel),
            Some(m) => match format_solution(&m) {
                None => Err(SudokuError::MalformedModel),
                Some(s) => Ok(Some(s)),
            },
        },
    }
}

/// Solves a board. A board of 81 characters always gets an answer:
/// `Ok(Some(s))` exactly when its formula is satisfiable, and then `s` is
/// the decoding of a model, which fills the board, keeps every clue and
/// obeys the rules; otherwise `Ok(None)`. A board without clues is
/// always solved.
pub fn solve_board(board: &str) -> (r: Result<Option<String>, SudokuError>)
    ensures
        (r == Err::<Option<String>, SudokuError>(SudokuError::InvalidLength)) <==> board@.len()
            != CELLS,
        board@.len() == CELLS ==> (r is Ok && (r->Ok_0 is Some <==> satisfiable(
            sudoku_formula(board@),
        ))),
        board@.len() == CELLS && (forall|p: int| 0 <= p < 81 ==> !is_clue(#[trigger] board@[p]))
            ==> (r is Ok && r->Ok_0 is Some),
        r matches Ok(Some(s)) ==> exists|t: Set<int>|
            formula_holds(t, sudoku_formula(board@)) && #[trigger] decodes_to(t, s@),
        r matches Ok(Some(s)) ==> fills_board(board@, s@) && rule_valid(s@),
{
    proof {
        if board@.len() == CELLS && (forall|p: int| 0 <= p < 81 ==> !is_clue(#[trigger] board@[p])) {
            lemma_blank_board_satisfiable(board@);
        }
    }
    let mut solver = match sudoku_solver(board) {
        Ok(s) => s,
        Err(e) => return Err(e),
    };
    let outcome = solve(&mut solver);
    let found = match outcome {
        Ok(true) => model(&solver),
        _ => None,
    };
    let ghost m = found;
    let ghost sat = satisfiable(sudoku_formula(board@));
    proof {
        if sat {
            let m = m.unwrap();
            let t = true_vars(m@);
            let f = sudoku_formula(board@);
            assert forall|k: int| 0 <= k < f.len() implies clause_holds(t, #[trigger] f[k]) by {
                assert(clause_in_model(m@, solver_clauses(solver)[k]));
                lemma_model_clause_holds(m@, f[k]);
            }
            lemma_formula_determines_board(t, board@);
        }
    }
    let r = solution_from_outcome(&outcome, found);
    if let Ok(Some(s)) = &r {
        proof {
            let m = m.unwrap();
            let t = true_vars(m@);
            assert(decodes_to(t, s@));
            lemma_decoded_rule_valid(t, board@, s@);
            assert forall|p: int| 0 <= p < 81 implies is_clue(#[trigger] s@[p]) by {
                assert(cell_determined(t, p));
                let d = choose|d: int|
                    0 <= d < 9 && t.contains(#[trigger] cell_var(d, p)) && (forall|e: int|
                        0 <= e < 9 && e != d ==> !t.contains(#[trigger] cell_var(e, p)));
                assert(s@[p] == digit_char(d));
            }
            assert forall|p: int| 0 <= p < 81 && is_clue(#[trigger] board@[p]) implies s@[p]
                == board@[p] by {
                lemma_digit_char_of_clue(board@[p]);
                assert(t.contains(cell_var(clue_digit(board@[p]), p)));
            }
        }
    }
    r
}

} // verus!
