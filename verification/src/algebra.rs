//! How expressions, and the polynomials that they write down, compose.
use crate::plonk::{Grid, Poly};
use vstd::arithmetic::div_mod::{
    lemma_add_mod_noop, lemma_mod_twice, lemma_mul_mod_noop, lemma_mul_mod_noop_right,
    lemma_small_mod,
    lemma_sub_mod_noop,
};
use vstd::prelude::*;

verus! {

/// The simple selectors of a sum are those of its parts.
pub broadcast proof fn lemma_simple_plus(a: Poly, b: Poly)
    ensures
        #[trigger] a.plus(b).contains_simple_selector() == (a.contains_simple_selector()
            || b.contains_simple_selector()),
{
}

/// The simple selectors of a difference are those of its parts.
pub broadcast proof fn lemma_simple_minus(a: Poly, b: Poly)
    ensures
        #[trigger] a.minus(b).contains_simple_selector() == (a.contains_simple_selector()
            || b.contains_simple_selector()),
{
    reveal_with_fuel(Poly::contains_simple_selector, 3);
}

/// The simple selectors of a product are those of its parts.
pub broadcast proof fn lemma_simple_times(a: Poly, b: Poly)
    ensures
        #[trigger] a.times(b).contains_simple_selector() == (a.contains_simple_selector()
            || b.contains_simple_selector()),
{
}

/// Where simple selectors occur, one operation at a time.
pub broadcast group group_simple_selectors {
    lemma_simple_plus,
    lemma_simple_minus,
    lemma_simple_times,
}

/// The values of polynomials at a row.
pub open spec fn values(polys: Seq<Poly>, grid: Grid, row: int, p: int) -> Seq<int> {
    polys.map_values(|a: Poly| a.eval(grid, row, p))
}

/// The value of a polynomial is a residue.
pub proof fn lemma_eval_range(a: Poly, grid: Grid, row: int, p: int)
    requires
        0 < p,
    ensures
        0 <= a.eval(grid, row, p) < p,
        a.eval(grid, row, p) % p == a.eval(grid, row, p),
{
    lemma_small_mod(a.eval(grid, row, p) as nat, p as nat);
}

/// The value of a sum is the sum of the values.
pub broadcast proof fn lemma_eval_plus(a: Poly, b: Poly, grid: Grid, row: int, p: int)
    ensures
        #[trigger] a.plus(b).eval(grid, row, p) == (a.eval(grid, row, p) + b.eval(grid, row, p))
            % p,
{
}

/// The value of a difference is the difference of the values.
pub broadcast proof fn lemma_eval_minus(a: Poly, b: Poly, grid: Grid, row: int, p: int)
    requires
        0 < p,
    ensures
        #[trigger] a.minus(b).eval(grid, row, p) == (a.eval(grid, row, p) - b.eval(grid, row, p))
            % p,
{
    reveal_with_fuel(Poly::eval, 3);
    let x = a.eval(grid, row, p);
    let y = b.eval(grid, row, p);
    lemma_add_mod_noop(x, -y, p);
    lemma_add_mod_noop(x, (-y) % p, p);
    lemma_mod_twice(-y, p);
}

/// The value of a product is the product of the values.
pub broadcast proof fn lemma_eval_times(a: Poly, b: Poly, grid: Grid, row: int, p: int)
    ensures
        #[trigger] a.times(b).eval(grid, row, p) == (a.eval(grid, row, p) * b.eval(grid, row, p))
            % p,
{
}

/// The values of polynomials, one operation at a time.
pub broadcast group group_eval {
    lemma_eval_plus,
    lemma_eval_minus,
    lemma_eval_times,
}

/// Residues may be taken of one summand, and of the factor of the other.
pub proof fn lemma_mul_add_mod(a: int, b: int, c: int, p: int)
    requires
        0 < p,
    ensures
        (a % p + (b * (c % p)) % p) % p == (a + b * c) % p,
        (a % p + ((b % p) * (c % p)) % p) % p == (a + b * c) % p,
{
    lemma_mul_mod_noop_right(b, c, p);
    lemma_mul_mod_noop(b, c, p);
    lemma_add_mod_noop(a, b * c, p);
}

/// The value of a sum, of polynomials whose values are the residues of `x` and `y`.
pub proof fn lemma_value_plus(a: Poly, b: Poly, x: int, y: int, grid: Grid, row: int, p: int)
    requires
        0 < p,
        a.eval(grid, row, p) == x % p,
        b.eval(grid, row, p) == y % p,
    ensures
        a.plus(b).eval(grid, row, p) == (x + y) % p,
{
    lemma_eval_plus(a, b, grid, row, p);
    lemma_add_mod_noop(x, y, p);
}

/// The value of a difference, of polynomials whose values are the residues of `x`
/// and `y`.
pub proof fn lemma_value_minus(a: Poly, b: Poly, x: int, y: int, grid: Grid, row: int, p: int)
    requires
        0 < p,
        a.eval(grid, row, p) == x % p,
        b.eval(grid, row, p) == y % p,
    ensures
        a.minus(b).eval(grid, row, p) == (x - y) % p,
{
    lemma_eval_minus(a, b, grid, row, p);
    lemma_sub_mod_noop(x, y, p);
}

/// The value of a product, of polynomials whose values are the residues of `x` and
/// `y`.
pub proof fn lemma_value_times(a: Poly, b: Poly, x: int, y: int, grid: Grid, row: int, p: int)
    requires
        0 < p,
        a.eval(grid, row, p) == x % p,
        b.eval(grid, row, p) == y % p,
    ensures
        a.times(b).eval(grid, row, p) == (x * y) % p,
{
    lemma_eval_times(a, b, grid, row, p);
    lemma_mul_mod_noop(x, y, p);
}

} // verus!
