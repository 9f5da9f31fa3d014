//! Random linear combinations of bytes, as field elements and as expressions.
use crate::algebra::{
    group_eval, group_simple_selectors, lemma_eval_range, lemma_mul_add_mod, lemma_value_plus,
    lemma_value_times, values,
};
use crate::field::FieldExt;
use crate::plonk::{polys, Expression, Grid, Poly};
use crate::sums::{ints, lemma_rlc_first, rlc, weighted_sum};
use vstd::arithmetic::div_mod::{lemma_add_mod_noop, lemma_mul_mod_noop_left};
use vstd::arithmetic::power::{lemma_pow0, pow};
use vstd::prelude::*;

verus! {

broadcast use {group_eval, group_simple_selectors};

/// Combines bytes into a field element, the first byte with weight one and each
/// other with that of the one before it times the randomness.
pub fn random_linear_combine<F: FieldExt, const N: usize>(bytes: [u8; N], randomness: F) -> (r: F)
    ensures
        r.value() == rlc(ints(bytes@), randomness.value()) % F::modulus(),
{
    let ghost p = F::modulus();
    let ghost b = ints(bytes@);
    let ghost x = randomness.value();
    proof {
        randomness.lemma_value_range();
        vstd::arithmetic::div_mod::lemma_small_mod(0, p as nat);
        assert(b.skip(N as int) =~= Seq::<int>::empty());
    }
    let mut acc = F::zero();
    let mut i: usize = N;
    while i > 0
        invariant
            i <= N,
            1 < p,
            p == F::modulus(),
            b == ints(bytes@),
            x == randomness.value(),
            acc.value() == rlc(b.skip(i as int), x) % p,
        decreases i,
    {
        i = i - 1;
        let ghost before = rlc(b.skip(i + 1), x);
        acc = acc.mul(randomness).add(F::from_u64(bytes[i] as u64));
        proof {
            lemma_rlc_first(b.skip(i as int), x);
            assert(b.skip(i as int).drop_first() =~= b.skip(i + 1));
            lemma_mul_mod_noop_left(before, x, p);
            lemma_add_mod_noop(before * x, b[i as int], p);
            assert(before * x == x * before) by (nonlinear_arith);
        }
    }
    assert(b.skip(0) =~= b);
    acc
}

/// The random linear combination of polynomials: the first, and each other times
/// its power of the randomness.
pub open spec fn rlc_expr_poly(bytes: Seq<Poly>, powers: Seq<Poly>) -> Poly
    decreases bytes.len(),
{
    if bytes.len() <= 1 {
        bytes[0]
    } else {
        rlc_expr_poly(bytes.drop_last(), powers).plus(
            bytes.last().times(powers[bytes.len() - 2]),
        )
    }
}

/// Combines expressions, the first with weight one, and the others with the
/// powers of the randomness from the first power on.
pub fn random_linear_combine_expr<F: FieldExt>(
    bytes: &Vec<Expression<F>>,
    power_of_randomness: &Vec<Expression<F>>,
) -> (r: Expression<F>)
    requires
        0 < bytes.len() <= power_of_randomness.len() + 1,
        forall|i: int|
            0 <= i < bytes.len() ==> !(#[trigger] bytes@[i])@.contains_simple_selector(),
        forall|i: int|
            0 <= i < bytes.len() - 1
                ==> !(#[trigger] power_of_randomness@[i])@.contains_simple_selector(),
    ensures
        r@ == rlc_expr_poly(polys(bytes@), polys(power_of_randomness@)),
        !r@.contains_simple_selector(),
{
    let ghost b = polys(bytes@);
    let ghost powers = polys(power_of_randomness@);
    let mut rlc = bytes[0].clone();
    let mut i: usize = 1;
    while i < bytes.len()
        invariant
            1 <= i <= bytes.len() <= power_of_randomness.len() + 1,
            b == polys(bytes@),
            powers == polys(power_of_randomness@),
            forall|i: int|
                0 <= i < bytes.len() ==> !(#[trigger] bytes@[i])@.contains_simple_selector(),
            forall|i: int|
                0 <= i < bytes.len() - 1
                    ==> !(#[trigger] power_of_randomness@[i])@.contains_simple_selector(),
            rlc@ == rlc_expr_poly(b.take(i as int), powers),
            !rlc@.contains_simple_selector(),
        decreases bytes.len() - i,
    {
        assert(b.take(i + 1).drop_last() =~= b.take(i as int));
        rlc = rlc + bytes[i].clone() * power_of_randomness[i - 1].clone();
        i = i + 1;
    }
    assert(b.take(i as int) =~= b);
    rlc
}

/// The combination of expressions has the value of the combination of their
/// values.
pub proof fn law_random_linear_combine_expr(
    bytes: Seq<Poly>,
    powers: Seq<Poly>,
    r: int,
    grid: Grid,
    row: int,
    p: int,
)
    requires
        1 < p,
        0 < bytes.len(),
        forall|i: int|
            0 <= i < bytes.len() - 1 ==> (#[trigger] powers[i]).eval(grid, row, p) == pow(
                r,
                (i + 1) as nat,
            ) % p,
    ensures
        rlc_expr_poly(bytes, powers).eval(grid, row, p) == rlc(values(bytes, grid, row, p), r) % p,
    decreases bytes.len(),
{
    let vals = values(bytes, grid, row, p);
    if bytes.len() == 1 {
        lemma_pow0(r);
        assert(vals.drop_last() =~= Seq::<int>::empty());
        assert(rlc(vals.drop_last(), r) == 0);
        assert(vals[0] * 1 == vals[0]);
        lemma_eval_range(bytes[0], grid, row, p);
    } else {
        let n = bytes.len();
        law_random_linear_combine_expr(bytes.drop_last(), powers, r, grid, row, p);
        assert(vals.drop_last() =~= values(bytes.drop_last(), grid, row, p));
        assert(powers[n - 2].eval(grid, row, p) == pow(r, (n - 1) as nat) % p);
        lemma_mul_add_mod(rlc(vals.drop_last(), r), vals.last(), pow(r, (n - 1) as nat), p);
    }
}

/// The combination of expressions is the first value and each other by its own
/// weight, whatever the weights are.
pub proof fn law_combined_by_weights(
    bytes: Seq<Poly>,
    powers: Seq<Poly>,
    held: Seq<int>,
    weights: Seq<int>,
    grid: Grid,
    row: int,
    p: int,
)
    requires
        0 < p,
        0 < bytes.len(),
        held.len() == bytes.len(),
        forall|i: int|
            0 <= i < bytes.len() ==> (#[trigger] bytes[i]).eval(grid, row, p) == held[i] % p,
        forall|i: int|
            0 <= i < bytes.len() - 1 ==> (#[trigger] powers[i]).eval(grid, row, p) == weights[i]
                % p,
    ensures
        rlc_expr_poly(bytes, powers).eval(grid, row, p) == (held[0] + weighted_sum(
            held.drop_first(),
            weights,
        )) % p,
    decreases bytes.len(),
{
    let rest = held.drop_first();
    if bytes.len() == 1 {
        assert(bytes[0].eval(grid, row, p) == held[0] % p);
        assert(weighted_sum(rest, weights) == 0);
    } else {
        let n = bytes.len() - 1;
        law_combined_by_weights(
            bytes.drop_last(),
            powers,
            held.drop_last(),
            weights,
            grid,
            row,
            p,
        );
        assert(held.drop_last().drop_first() =~= rest.drop_last());
        assert(powers[n - 1].eval(grid, row, p) == weights[n - 1] % p);
        assert(bytes[n].eval(grid, row, p) == held[n] % p);
        let term = bytes.last().times(powers[n - 1]);
        lemma_value_times(
            bytes.last(),
            powers[n - 1],
            held[n],
            weights[n - 1],
            grid,
            row,
            p,
        );
        lemma_value_plus(
            rlc_expr_poly(bytes.drop_last(), powers),
            term,
            held[0] + weighted_sum(rest.drop_last(), weights),
            held[n] * weights[n - 1],
            grid,
            row,
            p,
        );
    }
}

} // verus!
