//! Literals, clauses and formulas, their truth under an assignment, and the
//! exactly-one-true encoding of a group of literals.
use vstd::prelude::*;

verus! {

/// A variable together with a polarity: `positive` asserts the variable,
/// otherwise its negation is asserted.
#[derive(Clone, Copy, Debug, PartialEq, Eq, Structural)]
pub struct Literal {
    pub var: usize,
    pub positive: bool,
}

impl Literal {
    /// The positive literal of a variable.
    pub fn pos(var: usize) -> (r: Literal)
        ensures
            r == (Literal { var, positive: true }),
    {
        Literal { var, positive: true }
    }

    /// The literal of the same variable with the opposite polarity.
    pub fn negated(self) -> (r: Literal)
        ensures
            r == negation(self),
    {
        Literal { var: self.var, positive: !self.positive }
    }
}

pub open spec fn negation(l: Literal) -> Literal {
    Literal { var: l.var, positive: !l.positive }
}

/// A literal holds under the assignment whose true variables are `t`.
pub open spec fn lit_holds(t: Set<int>, l: Literal) -> bool {
    t.contains(l.var as int) == l.positive
}

/// A clause (a disjunction) holds when one of its literals does.
pub open spec fn clause_holds(t: Set<int>, c: Seq<Literal>) -> bool {
    exists|i: int| 0 <= i < c.len() && lit_holds(t, #[trigger] c[i])
}

/// A formula (a conjunction of clauses) holds when each of its clauses does.
pub open spec fn formula_holds(t: Set<int>, f: Seq<Seq<Literal>>) -> bool {
    forall|k: int| 0 <= k < f.len() ==> clause_holds(t, #[trigger] f[k])
}

/// Some assignment makes the formula hold.
pub open spec fn satisfiable(f: Seq<Seq<Literal>>) -> bool {
    exists|t: Set<int>| #[trigger] formula_holds(t, f)
}

/// Exactly one of the literals (counted by position) holds.
pub open spec fn exactly_one_holds(t: Set<int>, lits: Seq<Literal>) -> bool {
    exists|i: int|
        0 <= i < lits.len() && lit_holds(t, #[trigger] lits[i]) && (forall|j: int|
            0 <= j < lits.len() && j != i ==> !lit_holds(t, #[trigger] lits[j]))
}

/// The clause `¬lits[i] ∨ ¬lits[j]`.
pub open spec fn pair_clause(lits: Seq<Literal>, i: int, j: int) -> Seq<Literal> {
    seq![negation(lits[i]), negation(lits[j])]
}

/// The clauses that pair `lits[i]` with each later literal, in order.
pub open spec fn pairs_with(lits: Seq<Literal>, i: int) -> Seq<Seq<Literal>> {
    Seq::new((lits.len() - i - 1) as nat, |k: int| pair_clause(lits, i, i + 1 + k))
}

/// The pairwise clauses of the first `m` literals with their successors.
pub open spec fn pairs_before(lits: Seq<Literal>, m: nat) -> Seq<Seq<Literal>>
    decreases m,
{
    if m == 0 {
        seq![]
    } else {
        pairs_before(lits, (m - 1) as nat) + pairs_with(lits, m - 1)
    }
}

/// The exactly-one-true encoding: the full disjunction, then `¬a ∨ ¬b` for
/// every pair of positions `a < b`, ordered by `a`, then by `b`.
pub open spec fn exactly_one_clauses(lits: Seq<Literal>) -> Seq<Seq<Literal>> {
    seq![lits] + pairs_before(lits, lits.len())
}

/// Every literal of the formula names a variable below `n`.
pub open spec fn vars_below(f: Seq<Seq<Literal>>, n: int) -> bool {
    forall|k: int, i: int| 0 <= k < f.len() && 0 <= i < f[k].len() ==> (#[trigger] f[k][i]).var < n
}

pub proof fn lemma_vars_below_add(f: Seq<Seq<Literal>>, g: Seq<Seq<Literal>>, n: int)
    requires
        vars_below(f, n),
        vars_below(g, n),
    ensures
        vars_below(f + g, n),
{
    assert forall|k: int, i: int| 0 <= k < (f + g).len() && 0 <= i < (f + g)[k].len() implies (
    #[trigger] (f + g)[k][i]).var < n by {
        if k >= f.len() {
            assert((f + g)[k] == g[k - f.len()]);
        } else {
            assert((f + g)[k] == f[k]);
        }
    }
}

/// The exactly-one encoding names only the variables of its literals.
pub proof fn lemma_exactly_one_vars_below(lits: Seq<Literal>, n: int)
    requires
        forall|i: int| 0 <= i < lits.len() ==> (#[trigger] lits[i]).var < n,
    ensures
        vars_below(exactly_one_clauses(lits), n),
{
    lemma_pairs_before_vars_below(lits, lits.len(), n);
    assert(vars_below(seq![lits], n));
    lemma_vars_below_add(seq![lits], pairs_before(lits, lits.len()), n);
}

proof fn lemma_pairs_before_vars_below(lits: Seq<Literal>, m: nat, n: int)
    requires
        m <= lits.len(),
        forall|i: int| 0 <= i < lits.len() ==> (#[trigger] lits[i]).var < n,
    ensures
        vars_below(pairs_before(lits, m), n),
    decreases m,
{
    if m > 0 {
        lemma_pairs_before_vars_below(lits, (m - 1) as nat, n);
        let pw = pairs_with(lits, m - 1);
        assert forall|k: int, i: int| 0 <= k < pw.len() && 0 <= i < pw[k].len() implies (
        #[trigger] pw[k][i]).var < n by {
            assert(pw[k] == pair_clause(lits, m - 1, m + k));
        }
        lemma_vars_below_add(pairs_before(lits, (m - 1) as nat), pw, n);
    }
}

/// The contents of a formula of vectors, as sequences.
pub open spec fn view_clauses(f: Seq<Vec<Literal>>) -> Seq<Seq<Literal>> {
    f.map_values(|c: Vec<Literal>| c@)
}

pub proof fn lemma_view_clauses_push(f: Seq<Vec<Literal>>, c: Vec<Literal>)
    ensures
        view_clauses(f.push(c)) == view_clauses(f).push(c@),
{
    assert(view_clauses(f.push(c)) =~= view_clauses(f).push(c@));
}

pub proof fn lemma_view_clauses_add(f: Seq<Vec<Literal>>, g: Seq<Vec<Literal>>)
    ensures
        view_clauses(f + g) == view_clauses(f) + view_clauses(g),
{
    assert(view_clauses(f + g) =~= view_clauses(f) + view_clauses(g));
}

/// The clauses that make exactly one of `lits` true: one at-least-one clause
/// and one at-most-one clause per pair of positions.
pub fn exactly_one_true(lits: &Vec<Literal>) -> (r: Vec<Vec<Literal>>)
    ensures
        view_clauses(r@) == exactly_one_clauses(lits@),
{
    let n = lits.len();
    let mut formula: Vec<Vec<Literal>> = Vec::new();
    let mut all: Vec<Literal> = Vec::new();
    let mut k: usize = 0;
    while k < n
        invariant
            k <= n,
            n == lits@.len(),
            all@ == lits@.take(k as int),
        decreases n - k,
    {
        all.push(lits[k]);
        k += 1;
        assert(all@ =~= lits@.take(k as int));
    }
    assert(lits@.take(n as int) =~= lits@);
    proof {
        lemma_view_clauses_push(formula@, all);
    }
    formula.push(all);
    assert(view_clauses(formula@) =~= seq![lits@] + pairs_before(lits@, 0));
    let mut i: usize = 0;
    while i < n
        invariant
            i <= n,
            n == lits@.len(),
            view_clauses(formula@) == seq![lits@] + pairs_before(lits@, i as nat),
        decreases n - i,
    {
        let mut j: usize = i + 1;
        assert(pairs_with(lits@, i as int).take(0) =~= seq![]);
        assert(seq![lits@] + pairs_before(lits@, i as nat) =~= seq![lits@] + pairs_before(
            lits@,
            i as nat,
        ) + pairs_with(lits@, i as int).take(0));
        while j < n
            invariant
                i < n,
                i + 1 <= j <= n,
                n == lits@.len(),
                view_clauses(formula@) == seq![lits@] + pairs_before(lits@, i as nat) + pairs_with(
                    lits@,
                    i as int,
                ).take(j - i - 1),
            decreases n - j,
        {
            let mut clause: Vec<Literal> = Vec::new();
            clause.push(lits[i].negated());
            clause.push(lits[j].negated());
            assert(clause@ =~= pair_clause(lits@, i as int, j as int));
            proof {
                lemma_view_clauses_push(formula@, clause);
            }
            formula.push(clause);
            j += 1;
            assert(pairs_with(lits@, i as int).take(j - i - 1) =~= pairs_with(
                lits@,
                i as int,
            ).take(j - i - 2).push(pair_clause(lits@, i as int, j - 1)));
        }
        assert(pairs_with(lits@, i as int).take(n - i - 1) =~= pairs_with(lits@, i as int));
        i += 1;
        assert(pairs_before(lits@, i as nat) == pairs_before(lits@, (i - 1) as nat) + pairs_with(
            lits@,
            i - 1,
        ));
        assert(seq![lits@] + pairs_before(lits@, i as nat) =~= seq![lits@] + pairs_before(
            lits@,
            (i - 1) as nat,
        ) + pairs_with(lits@, i - 1));
    }
    formula
}

/// A formula made of two parts holds exactly when both parts hold.
pub proof fn lemma_formula_holds_add(t: Set<int>, f: Seq<Seq<Literal>>, g: Seq<Seq<Literal>>)
    ensures
        formula_holds(t, f + g) == (formula_holds(t, f) && formula_holds(t, g)),
{
    if formula_holds(t, f + g) {
        assert forall|k: int| 0 <= k < f.len() implies clause_holds(t, #[trigger] f[k]) by {
            assert((f + g)[k] == f[k]);
        }
        assert forall|k: int| 0 <= k < g.len() implies clause_holds(t, #[trigger] g[k]) by {
            assert((f + g)[f.len() + k] == g[k]);
        }
    }
    if formula_holds(t, f) && formula_holds(t, g) {
        assert forall|k: int| 0 <= k < (f + g).len() implies clause_holds(t, #[trigger] (f + g)[k]) by {
            if k < f.len() {
                assert((f + g)[k] == f[k]);
            } else {
                assert((f + g)[k] == g[k - f.len()]);
            }
        }
    }
}

proof fn lemma_pair_clause_holds(t: Set<int>, lits: Seq<Literal>, i: int, j: int)
    requires
        0 <= i < lits.len(),
        0 <= j < lits.len(),
    ensures
        clause_holds(t, pair_clause(lits, i, j)) == (!lit_holds(t, lits[i]) || !lit_holds(
            t,
            lits[j],
        )),
{
    let c = pair_clause(lits, i, j);
    if !lit_holds(t, lits[i]) {
        assert(lit_holds(t, c[0]));
    }
    if !lit_holds(t, lits[j]) {
        assert(lit_holds(t, c[1]));
    }
}

/// The pairwise clauses of the first `m` positions hold exactly when no two
/// positions `i < j` with `i < m` both hold.
proof fn lemma_pairs_before_holds(t: Set<int>, lits: Seq<Literal>, m: nat)
    requires
        m <= lits.len(),
    ensures
        formula_holds(t, pairs_before(lits, m)) == (forall|i: int, j: int|
            0 <= i < m && i < j < lits.len() ==> !(lit_holds(t, #[trigger] lits[i]) && lit_holds(
                t,
                #[trigger] lits[j],
            ))),
    decreases m,
{
    if m > 0 {
        let mm = (m - 1) as nat;
        lemma_pairs_before_holds(t, lits, mm);
        lemma_formula_holds_add(t, pairs_before(lits, mm), pairs_with(lits, mm as int));
        let pw = pairs_with(lits, mm as int);
        if formula_holds(t, pw) {
            assert forall|j: int| mm < j < lits.len() implies !(lit_holds(t, lits[mm as int])
                && lit_holds(t, #[trigger] lits[j])) by {
                assert(pw[j - mm - 1] == pair_clause(lits, mm as int, j));
                lemma_pair_clause_holds(t, lits, mm as int, j);
            }
        }
        if forall|j: int|
            mm < j < lits.len() ==> !(lit_holds(t, lits[mm as int]) && lit_holds(
                t,
                #[trigger] lits[j],
            )) {
            assert forall|k: int| 0 <= k < pw.len() implies clause_holds(t, #[trigger] pw[k]) by {
                lemma_pair_clause_holds(t, lits, mm as int, mm + 1 + k);
            }
        }
    }
}

/// The exactly-one-true encoding holds under an assignment if and only if
/// exactly one of the literals holds.
pub proof fn lemma_exactly_one_true_correct(t: Set<int>, lits: Seq<Literal>)
    ensures
        formula_holds(t, exactly_one_clauses(lits)) == exactly_one_holds(t, lits),
{
    let n = lits.len();
    let f = exactly_one_clauses(lits);
    lemma_formula_holds_add(t, seq![lits], pairs_before(lits, n));
    lemma_pairs_before_holds(t, lits, n);
    assert(seq![lits][0] == lits);
    if formula_holds(t, f) {
        assert(clause_holds(t, lits));
        let i = choose|i: int| 0 <= i < lits.len() && lit_holds(t, #[trigger] lits[i]);
        assert forall|j: int| 0 <= j < lits.len() && j != i implies !lit_holds(
            t,
            #[trigger] lits[j],
        ) by {
            if j < i {
                assert(!(lit_holds(t, lits[j]) && lit_holds(t, lits[i])));
            } else {
                assert(!(lit_holds(t, lits[i]) && lit_holds(t, lits[j])));
            }
        }
    }
    if exactly_one_holds(t, lits) {
        let i = choose|i: int|
            0 <= i < lits.len() && lit_holds(t, #[trigger] lits[i]) && (forall|j: int|
                0 <= j < lits.len() && j != i ==> !lit_holds(t, #[trigger] lits[j]));
        assert(clause_holds(t, lits));
        assert(formula_holds(t, seq![lits]));
    }
}

/// Length of the pairwise part: twice it is `m * (2n - m - 1)`.
proof fn lemma_pairs_before_len(lits: Seq<Literal>, m: nat)
    requires
        m <= lits.len(),
    ensures
        2 * pairs_before(lits, m).len() == m * (2 * lits.len() - m - 1),
    decreases m,
{
    if m > 0 {
        lemma_pairs_before_len(lits, (m - 1) as nat);
        let n = lits.len() as int;
        let mi = m as int;
        assert(pairs_with(lits, mi - 1).len() == n - mi);
        assert(2 * pairs_before(lits, (m - 1) as nat).len() == (mi - 1) * (2 * n - mi));
        assert(pairs_before(lits, m).len() == pairs_before(lits, (m - 1) as nat).len() + (n - mi));
        assert((mi - 1) * (2 * n - mi) + 2 * (n - mi) == mi * (2 * n - mi - 1)) by (nonlinear_arith);
        assert(2 * pairs_before(lits, m).len() == mi * (2 * n - mi - 1));
    } else {
        assert(pairs_before(lits, m).len() == 0);
    }
}

/// A group of `n` literals gives `1 + n (n - 1) / 2` clauses.
pub proof fn lemma_exactly_one_clauses_len(lits: Seq<Literal>)
    ensures
        2 * exactly_one_clauses(lits).len() == 2 + lits.len() * (lits.len() - 1),
{
    lemma_pairs_before_len(lits, lits.len());
    let n = lits.len() as int;
    assert(n * (2 * n - n - 1) == n * (n - 1)) by (nonlinear_arith);
}

} // verus!
