//! The SAT solver behind trusted items: varisat's `Solver`, the clauses
//! handed to it, and the model it finds.
use vstd::prelude::*;
use varisat::{ExtendFormula, Lit, Solver};
use varisat::solver::SolverError;
use crate::cnf::{Literal, satisfiable};

verus! {

#[verifier::external_type_specification]
#[verifier::external_body]
pub struct ExSolver<'a>(Solver<'a>);

#[verifier::external_type_specification]
#[verifier::external_body]
pub struct ExSolverError(SolverError);

/// The largest variable index that varisat accepts (`Var::max_var`).
pub const MAX_VAR: usize = 0x0fff_ffff;

/// The clauses handed to a solver so far, in order.
pub uninterp spec fn solver_clauses(s: Solver<'static>) -> Seq<Seq<Literal>>;

/// The solver is in its plain state: no proof output is attached and no
/// unrecoverable error has occurred, so `solve` neither fails nor panics.
pub uninterp spec fn solver_plain(s: Solver<'static>) -> bool;

/// The solver's last `solve` found a model, and no clause was added since.
pub uninterp spec fn solver_found(s: Solver<'static>) -> bool;

/// Every literal of the clause names a variable that varisat can hold.
pub open spec fn vars_in_range(c: Seq<Literal>) -> bool {
    forall|i: int| 0 <= i < c.len() ==> (#[trigger] c[i]).var <= MAX_VAR
}

/// Each variable occurs at most once in the model.
pub open spec fn model_consistent(m: Seq<Literal>) -> bool {
    forall|i: int, j: int|
        0 <= i < m.len() && 0 <= j < m.len() && i != j ==> (#[trigger] m[i]).var != (
        #[trigger] m[j]).var
}

/// One literal of the clause is in the model.
pub open spec fn clause_in_model(m: Seq<Literal>, c: Seq<Literal>) -> bool {
    exists|i: int| 0 <= i < c.len() && m.contains(#[trigger] c[i])
}

/// Relies on `Solver::new`: a new solver holds no clause, has no proof
/// output attached and has not solved yet.
#[verifier::external_body]
pub(crate) fn new_solver() -> (r: Solver<'static>)
    ensures
        solver_clauses(r) == Seq::<Seq<Literal>>::empty(),
        solver_plain(r),
        !solver_found(r),
{
    Solver::new()
}

/// Relies on `ExtendFormula::add_clause` of `Solver` (with `Lit::from_index`
/// for each literal): the clause is added to the solver's formula, which
/// leaves the satisfiable state (`load_clause`) and attaches nothing.
#[verifier::external_body]
pub(crate) fn add_clause(solver: &mut Solver<'static>, clause: &Vec<Literal>)
    requires
        vars_in_range(clause@),
    ensures
        solver_clauses(*final(solver)) == solver_clauses(*old(solver)).push(clause@),
        solver_plain(*old(solver)) ==> solver_plain(*final(solver)),
        !solver_found(*final(solver)),
{
    let lits: Vec<Lit> = clause.iter().map(|l| Lit::from_index(l.var, l.positive)).collect();
    solver.add_clause(&lits);
}

/// Relies on `Solver::solve`: "check the satisfiability of the current
/// formula", without changing it. Without proof output it returns an answer
/// (errors come only from proof processing); after `Ok(true)` the solver is
/// in its satisfiable state.
#[verifier::external_body]
pub(crate) fn solve(solver: &mut Solver<'static>) -> (r: Result<bool, SolverError>)
    requires
        solver_plain(*old(solver)),
    ensures
        solver_clauses(*final(solver)) == solver_clauses(*old(solver)),
        solver_plain(*final(solver)),
        r == Ok::<bool, SolverError>(satisfiable(solver_clauses(*old(solver)))),
        r == Ok::<bool, SolverError>(true) ==> solver_found(*final(solver)),
{
    solver.solve()
}

/// Relies on `Solver::model`: "set of literals that satisfy the formula",
/// one literal for each variable (by `Lit::index` and `Lit::is_positive`).
/// In the satisfiable state it returns a model.
#[verifier::external_body]
pub(crate) fn model(solver: &Solver<'static>) -> (r: Option<Vec<Literal>>)
    ensures
        solver_found(*solver) ==> r is Some,
        r matches Some(m) ==> model_consistent(m@) && forall|k: int|
            0 <= k < solver_clauses(*solver).len() ==> clause_in_model(
                m@,
                #[trigger] solver_clauses(*solver)[k],
            ),
{
    solver.model().map(
        |m| m.iter().map(|l| Literal { var: l.index(), positive: l.is_positive() }).collect(),
    )
}

/// Relies on the `Display` of `SolverError`: the error's message. Nothing is
/// assumed of its text.
#[verifier::external_body]
pub(crate) fn solver_error_message(e: &SolverError) -> String {
    e.to_string()
}

} // verus!
