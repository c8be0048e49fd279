//! Decoding a model of the solver into a filled board.
use vstd::prelude::*;
use crate::cnf::Literal;
use crate::index::{index, index_of, SIZE};
use crate::encode::CELLS;

verus! {

/// The variables that a model asserts true.
pub open spec fn true_vars(m: Seq<Literal>) -> Set<int> {
    Set::new(|v: int| exists|k: int| 0 <= k < m.len() && m[k].positive && #[trigger] m[k].var == v)
}

/// The character of a zero-based digit: '1' for 0, up to '9' for 8.
pub open spec fn digit_char(d: int) -> char {
    if d == 0 {
        '1'
    } else if d == 1 {
        '2'
    } else if d == 2 {
        '3'
    } else if d == 3 {
        '4'
    } else if d == 4 {
        '5'
    } else if d == 5 {
        '6'
    } else if d == 6 {
        '7'
    } else if d == 7 {
        '8'
    } else {
        '9'
    }
}

/// The variable of digit `d` at the cell of board position `p` (row-major).
pub open spec fn cell_var(d: int, p: int) -> int {
    index_of(d, p / 9, p % 9)
}

/// Exactly one digit is true at board position `p`.
pub open spec fn cell_determined(t: Set<int>, p: int) -> bool {
    exists|d: int|
        0 <= d < 9 && t.contains(#[trigger] cell_var(d, p)) && (forall|e: int|
            0 <= e < 9 && e != d ==> !t.contains(#[trigger] cell_var(e, p)))
}

/// `s` is the board of the true variables `t`: at each position the
/// character of the digit whose variable is true there.
pub open spec fn decodes_to(t: Set<int>, s: Seq<char>) -> bool {
    &&& s.len() == 81
    &&& forall|p: int, d: int|
        0 <= p < 81 && 0 <= d < 9 ==> (t.contains(#[trigger] cell_var(d, p)) <==> s[p]
            == digit_char(d))
}

/// The character of a zero-based digit.
pub fn digit_to_char(d: usize) -> (c: char)
    requires
        d < SIZE,
    ensures
        c == digit_char(d as int),
{
    match d {
        0 => '1',
        1 => '2',
        2 => '3',
        3 => '4',
        4 => '5',
        5 => '6',
        6 => '7',
        7 => '8',
        _ => '9',
    }
}

/// Whether the model asserts variable `v` true.
pub fn model_has(model: &Vec<Literal>, v: usize) -> (r: bool)
    ensures
        r == true_vars(model@).contains(v as int),
{
    let mut k: usize = 0;
    while k < model.len()
        invariant
            k <= model@.len(),
            forall|j: int| 0 <= j < k ==> !(model@[j].positive && #[trigger] model@[j].var == v),
        decreases model@.len() - k,
    {
        if model[k].positive && model[k].var == v {
            assert(model@[k as int].var == v as int);
            return true;
        }
        k += 1;
    }
    false
}

/// Relies on `String::from_iter` over `char`s: the string holds the
/// characters in order.
#[verifier::external_body]
fn string_of_chars(chars: Vec<char>) -> (r: String)
    ensures
        r@ == chars@,
{
    String::from_iter(chars)
}

/// The board of a model, row-major, one digit character per cell. `None`
/// when some cell has no true digit or more than one.
pub fn format_solution(model: &Vec<Literal>) -> (r: Option<String>)
    ensures
        r is Some <==> forall|p: int| 0 <= p < 81 ==> cell_determined(true_vars(model@), p),
        r matches Some(s) ==> decodes_to(true_vars(model@), s@),
{
    let ghost t = true_vars(model@);
    let mut out: Vec<char> = Vec::new();
    let mut p: usize = 0;
    while p < CELLS
        invariant
            p <= CELLS,
            t == true_vars(model@),
            out@.len() == p,
            forall|q: int| 0 <= q < p ==> cell_determined(t, q),
            forall|q: int, d: int|
                0 <= q < p && 0 <= d < 9 ==> (t.contains(#[trigger] cell_var(d, q)) <==> out@[q]
                    == digit_char(d)),
        decreases CELLS - p,
    {
        let mut found: Option<usize> = None;
        let mut d: usize = 0;
        while d < SIZE
            invariant
                p < CELLS,
                d <= SIZE,
                t == true_vars(model@),
                found matches Some(f) ==> f < d && t.contains(cell_var(f as int, p as int)),
                forall|e: int|
                    0 <= e < d && !(found matches Some(f) && e == f) ==> !t.contains(
                        #[trigger] cell_var(e, p as int),
                    ),
            decreases SIZE - d,
        {
            if model_has(model, index(d, p / 9, p % 9)) {
                if found.is_some() {
                    let f = found.unwrap();
                    assert(!cell_determined(t, p as int)) by {
                        if cell_determined(t, p as int) {
                            let w = choose|w: int|
                                0 <= w < 9 && t.contains(#[trigger] cell_var(w, p as int)) && (
                                forall|e: int|
                                    0 <= e < 9 && e != w ==> !t.contains(
                                        #[trigger] cell_var(e, p as int),
                                    ));
                            assert(t.contains(cell_var(d as int, p as int)));
                            assert(t.contains(cell_var(f as int, p as int)));
                        }
                    }
                    return None;
                }
                found = Some(d);
            }
            d += 1;
        }
        match found {
            None => {
                assert(!cell_determined(t, p as int));
                return None;
            },
            Some(f) => {
                assert(cell_determined(t, p as int)) by {
                    assert(t.contains(cell_var(f as int, p as int)));
                }
                let c = digit_to_char(f);
                out.push(c);
                assert forall|q: int, e: int|
                    0 <= q < p + 1 && 0 <= e < 9 implies (t.contains(#[trigger] cell_var(e, q))
                    <==> out@[q] == digit_char(e)) by {
                    if q == p {
                        if e != f {
                            assert(!t.contains(cell_var(e, q)));
                        }
                    }
                }
            },
        }
        p += 1;
    }
    Some(string_of_chars(out))
}

} // verus!
