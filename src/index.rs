//! The variable indexer: a bijection between (digit, row, column) triples
//! and the variables `0 .. 729`.
use vstd::prelude::*;

verus! {

/// Side length of the board; also the number of digits.
pub const SIZE: usize = 9;

/// Number of propositional variables: one per (digit, row, column).
pub const NUM_VARS: usize = 729;

/// A triple lies in the indexer's domain.
pub open spec fn in_domain(digit: int, row: int, column: int) -> bool {
    0 <= digit < 9 && 0 <= row < 9 && 0 <= column < 9
}

/// The variable that stands for "cell (row, column) holds digit `digit`"
/// (digit zero-based).
pub open spec fn index_of(digit: int, row: int, column: int) -> int {
    81 * digit + 9 * row + column
}

/// The variable of a (zero-based) digit at a cell.
pub fn index(digit: usize, row: usize, column: usize) -> (r: usize)
    requires
        digit < SIZE,
        row < SIZE,
        column < SIZE,
    ensures
        r as int == index_of(digit as int, row as int, column as int),
        r < NUM_VARS,
{
    81 * digit + 9 * row + column
}

/// Every triple of the domain is sent into `0 .. 729`.
pub proof fn lemma_index_in_range(digit: int, row: int, column: int)
    requires
        in_domain(digit, row, column),
    ensures
        0 <= index_of(digit, row, column) < 729,
{
}

/// Two triples of the domain with the same variable are the same triple.
pub proof fn lemma_index_injective(d1: int, r1: int, c1: int, d2: int, r2: int, c2: int)
    requires
        in_domain(d1, r1, c1),
        in_domain(d2, r2, c2),
        index_of(d1, r1, c1) == index_of(d2, r2, c2),
    ensures
        d1 == d2,
        r1 == r2,
        c1 == c2,
{
    assert(d1 == d2) by (nonlinear_arith)
        requires
            0 <= r1 < 9, 0 <= c1 < 9, 0 <= r2 < 9, 0 <= c2 < 9,
            81 * d1 + 9 * r1 + c1 == 81 * d2 + 9 * r2 + c2,
    ;
    assert(r1 == r2) by (nonlinear_arith)
        requires
            0 <= c1 < 9, 0 <= c2 < 9,
            9 * r1 + c1 == 9 * r2 + c2,
    ;
}

/// Every variable of `0 .. 729` is the image of a triple of the domain,
/// namely of `(v / 81, (v / 9) % 9, v % 9)`.
pub proof fn lemma_index_surjective(v: int)
    requires
        0 <= v < 729,
    ensures
        in_domain(v / 81, (v / 9) % 9, v % 9),
        index_of(v / 81, (v / 9) % 9, v % 9) == v,
{
}

} // verus!
