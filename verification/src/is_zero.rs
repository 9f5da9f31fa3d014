//! The gadget that tells whether a value is zero.
use crate::algebra::{
    group_eval, group_simple_selectors, lemma_eval_range, lemma_value_minus, lemma_value_times,
};
use crate::circuit::{Error, EventView, Region};
use crate::field::FieldExt;
use crate::plonk::{
    polys, Advice, Column, ConstraintSystem, ConstraintSystemView, Expression, GateView, Grid, Poly,
    Rotation, VirtualCells,
};
use vstd::arithmetic::div_mod::{lemma_mul_mod_noop_right, lemma_small_mod};
use vstd::arithmetic::mul::lemma_mul_basics;
use vstd::prelude::*;

verus! {

broadcast use {group_eval, group_simple_selectors};

/// Whether two residues multiply to one.
pub open spec fn is_inverse(value: int, x: int, p: int) -> bool {
    0 <= x < p && (value * x) % p == 1
}

/// Whether a residue has an inverse.
pub open spec fn has_inverse(value: int, p: int) -> bool {
    exists|x: int| is_inverse(value, x, p)
}

/// The inverse of a residue, or zero if it has none.
pub open spec fn inverse_or_zero(value: int, p: int) -> int {
    if has_inverse(value, p) {
        choose|x: int| is_inverse(value, x, p)
    } else {
        0
    }
}

/// A residue has no more than one inverse.
proof fn lemma_inverse(value: int, inverse: int, p: int)
    requires
        1 < p,
        is_inverse(value, inverse, p),
    ensures
        has_inverse(value, p),
        inverse_or_zero(value, p) == inverse,
{
    let other = inverse_or_zero(value, p);
    assert(is_inverse(value, other, p));
    // Both are equal to the product of the two and of the value.
    lemma_mul_mod_noop_right(other, value * inverse, p);
    lemma_mul_mod_noop_right(inverse, value * other, p);
    assert(other * (value * inverse) == inverse * (value * other)) by (nonlinear_arith);
    assert(other * 1 == other && inverse * 1 == inverse);
    lemma_small_mod(other as nat, p as nat);
    lemma_small_mod(inverse as nat, p as nat);
}

/// The inverse of a residue is a residue.
pub proof fn lemma_inverse_range(value: int, p: int)
    requires
        1 < p,
    ensures
        0 <= inverse_or_zero(value, p) < p,
{
    if has_inverse(value, p) {
        assert(is_inverse(value, inverse_or_zero(value, p), p));
    }
}

/// Zero has no inverse.
proof fn lemma_zero_has_no_inverse(p: int)
    requires
        1 < p,
    ensures
        inverse_or_zero(0, p) == 0,
{
    assert forall|x: int| !is_inverse(0, x, p) by {
        assert(0 * x == 0);
        lemma_small_mod(0, p as nat);
    }
}

/// The polynomial that is one where `value` is zero and zero elsewhere, if
/// `value_inv` is the inverse of `value`.
pub open spec fn is_zero_poly(value: Poly, value_inv: Poly) -> Poly {
    Poly::Constant(1).minus(value.times(value_inv))
}

/// The constraint that makes `value_inv` the inverse of `value`, unless `value` is
/// zero.
pub open spec fn is_zero_gate(
    q_enable: Poly,
    value: Poly,
    value_inv: Poly,
    queried: Seq<Poly>,
) -> GateView {
    GateView {
        name: "is_zero gate"@,
        queried: queried.push(value_inv),
        polys: seq![q_enable.times(value).times(is_zero_poly(value, value_inv))],
    }
}

/// What the gadget is configured with.
#[derive(Debug)]
pub struct IsZeroConfig<F> {
    pub value_inv: Column<Advice>,
    /// One where the value is zero, and zero elsewhere.
    pub is_zero_expression: Expression<F>,
}

impl<F: FieldExt> Clone for IsZeroConfig<F> {
    fn clone(&self) -> (r: Self)
        ensures
            r == *self,
    {
        IsZeroConfig {
            value_inv: self.value_inv,
            is_zero_expression: self.is_zero_expression.clone(),
        }
    }
}

/// The gadget.
#[derive(Debug)]
pub struct IsZeroChip<F> {
    pub config: IsZeroConfig<F>,
}

impl<F: FieldExt> IsZeroChip<F> {
    /// Adds the constraint of the gadget: where `q_enable` is not zero, the expression
    /// that it returns tells whether `value` is zero. `cells` holds the queries
    /// that were made for `q_enable` and `value`.
    pub fn configure(
        meta: &mut ConstraintSystem<F>,
        cells: VirtualCells,
        q_enable: Expression<F>,
        value: Expression<F>,
        value_inv: Column<Advice>,
    ) -> (config: IsZeroConfig<F>)
        requires
            !value@.contains_simple_selector(),
        ensures
            config.value_inv == value_inv,
            config.is_zero_expression@ == is_zero_poly(
                value@,
                Poly::Advice(value_inv.index as int, 0),
            ),
            final(meta)@ == (ConstraintSystemView {
                gates: old(meta)@.gates.push(
                    is_zero_gate(
                        q_enable@,
                        value@,
                        Poly::Advice(value_inv.index as int, 0),
                        cells@,
                    ),
                ),
                ..old(meta)@
            }),
    {
        let mut cells = cells;
        let inverse = cells.query_advice(value_inv, Rotation::cur());
        let is_zero_expression = Expression::Constant(F::one()) - value.clone() * inverse;
        let mut constraints: Vec<Expression<F>> = Vec::new();
        constraints.push(q_enable * value * is_zero_expression.clone());
        assert(polys(constraints@) =~= is_zero_gate(
            q_enable@,
            value@,
            Poly::Advice(value_inv.index as int, 0),
            cells@,
        ).polys);
        meta.create_gate("is_zero gate", cells, constraints);
        IsZeroConfig { value_inv, is_zero_expression }
    }

    /// The gadget with a configuration.
    pub fn construct(config: IsZeroConfig<F>) -> (r: Self)
        ensures
            r.config == config,
    {
        IsZeroChip { config }
    }

    /// Assigns the inverse of the value, or zero if it has none.
    pub fn assign(&self, region: &mut Region<F>, offset: usize, value: Option<F>) -> (r: Result<
        (),
        Error,
    >)
        ensures
            r == (match value {
                Some(_) => Ok::<(), Error>(()),
                None => Err(Error::Synthesis),
            }),
            final(region)@ == (match value {
                Some(x) => old(region)@.then_do(
                    seq![
                        EventView::AssignAdvice {
                            column: self.config.value_inv.index as int,
                            offset: offset as int,
                            value: inverse_or_zero(x.value(), F::modulus()),
                        },
                    ],
                ),
                None => old(region)@,
            }),
            value matches Some(x) ==> x.value() == 0 || has_inverse(x.value(), F::modulus()),
            final(region).index == old(region).index,
    {
        let value_inv = match value {
            Some(x) => {
                let inverse = match x.invert() {
                    Some(inverse) => {
                        proof {
                            inverse.lemma_value_range();
                            lemma_inverse(x.value(), inverse.value(), F::modulus());
                        }
                        inverse
                    },
                    None => {
                        proof {
                            x.lemma_value_range();
                            lemma_zero_has_no_inverse(F::modulus());
                        }
                        F::zero()
                    },
                };
                Some(inverse)
            },
            None => None,
        };
        match region.assign_advice(self.config.value_inv, offset, value_inv) {
            Ok(_) => Ok(()),
            Err(e) => Err(e),
        }
    }
}

/// With the inverse that is assigned, the expression is one where the value is
/// zero, and zero where it has an inverse; and the constraint holds in both cases.
pub proof fn law_is_zero_assigned(
    q_enable: Poly,
    value: Poly,
    value_inv: Poly,
    queried: Seq<Poly>,
    grid: Grid,
    row: int,
    p: int,
)
    requires
        1 < p,
        value_inv.eval(grid, row, p) == inverse_or_zero(value.eval(grid, row, p), p),
        value.eval(grid, row, p) == 0 || has_inverse(value.eval(grid, row, p), p),
    ensures
        is_zero_poly(value, value_inv).eval(grid, row, p) == (if value.eval(grid, row, p) == 0 {
            1int
        } else {
            0
        }),
        is_zero_gate(q_enable, value, value_inv, queried).holds(grid, row, p),
{
    let v = value.eval(grid, row, p);
    let x = value_inv.eval(grid, row, p);
    lemma_small_mod(0, p as nat);
    lemma_small_mod(1, p as nat);
    if v == 0 {
        assert(v * x == 0) by (nonlinear_arith)
            requires
                v == 0,
        ;
        assert(q_enable.times(value).eval(grid, row, p) == 0) by {
            assert(q_enable.eval(grid, row, p) * 0 == 0);
        }
    } else {
        let y = choose|y: int| is_inverse(v, y, p);
        lemma_inverse(v, y, p);
        assert((v * x) % p == 1);
    }
    let is_zero = is_zero_poly(value, value_inv);
    let poly = q_enable.times(value).times(is_zero);
    let first = q_enable.times(value).eval(grid, row, p);
    let z = is_zero.eval(grid, row, p);
    assert(first * z == 0) by (nonlinear_arith)
        requires
            first == 0 || z == 0,
    ;
    assert(poly.eval(grid, row, p) == 0);
    assert(is_zero_gate(q_enable, value, value_inv, queried).polys[0] == poly);
}

/// The constraint forces the expression, whatever inverse is assigned: where the
/// gadget is enabled, it is one if the value is zero, and zero if the value has an
/// inverse.
pub proof fn law_is_zero_forced(
    q_enable: Poly,
    value: Poly,
    value_inv: Poly,
    queried: Seq<Poly>,
    grid: Grid,
    row: int,
    p: int,
)
    requires
        1 < p,
        value.eval(grid, row, p) == 0 || has_inverse(value.eval(grid, row, p), p),
        q_enable.eval(grid, row, p) == 1,
        is_zero_gate(q_enable, value, value_inv, queried).holds(grid, row, p),
    ensures
        is_zero_poly(value, value_inv).eval(grid, row, p) == (if value.eval(grid, row, p) == 0 {
            1int
        } else {
            0
        }),
{
    let v = value.eval(grid, row, p);
    let is_zero = is_zero_poly(value, value_inv);
    let z = is_zero.eval(grid, row, p);
    let poly = q_enable.times(value).times(is_zero);
    let gate = is_zero_gate(q_enable, value, value_inv, queried);
    assert(gate.polys[0] == poly);
    lemma_eval_range(value, grid, row, p);
    lemma_eval_range(is_zero, grid, row, p);
    assert(1 * v == v);
    assert(poly.eval(grid, row, p) == (v * z) % p);
    if v == 0 {
        assert(0 * value_inv.eval(grid, row, p) == 0);
        lemma_small_mod(0, p as nat);
        lemma_small_mod(1, p as nat);
    } else {
        // Multiplied by the inverse of the value, the product is the expression.
        let x = choose|x: int| is_inverse(v, x, p);
        lemma_mul_mod_noop_right(x, v * z, p);
        lemma_mul_mod_noop_right(z, v * x, p);
        assert(x * (v * z) == z * (v * x)) by (nonlinear_arith);
        lemma_mul_basics(x);
        lemma_mul_basics(z);
        lemma_small_mod(0, p as nat);
    }
}

/// The inverse that is assigned multiplies with the value to one, if there is such
/// a residue; if there is none, it is zero.
pub proof fn law_inverse(value: int, p: int)
    requires
        1 < p,
    ensures
        0 <= inverse_or_zero(value, p) < p,
        has_inverse(value, p) <==> exists|x: int|
            0 <= x < p && #[trigger] (value * x) % p == 1,
        has_inverse(value, p) ==> (value * inverse_or_zero(value, p)) % p == 1,
        !has_inverse(value, p) ==> inverse_or_zero(value, p) == 0,
{
    lemma_inverse_range(value, p);
    if has_inverse(value, p) {
        let x = inverse_or_zero(value, p);
        assert(is_inverse(value, x, p));
        assert((value * x) % p == 1);
    }
    if exists|x: int| 0 <= x < p && #[trigger] (value * x) % p == 1 {
        let x = choose|x: int| 0 <= x < p && #[trigger] (value * x) % p == 1;
        assert(is_inverse(value, x, p));
    }
}

/// What the gadget is, whatever the cells hold: the expression is one minus the
/// product of the value and the inverse, and the constraint is that the product of
/// the enabling expression, the value and that expression is zero.
pub proof fn law_is_zero_meaning(
    q_enable: Poly,
    value: Poly,
    value_inv: Poly,
    queried: Seq<Poly>,
    q: int,
    v: int,
    x: int,
    grid: Grid,
    row: int,
    p: int,
)
    requires
        1 < p,
        q_enable.eval(grid, row, p) == q % p,
        value.eval(grid, row, p) == v % p,
        value_inv.eval(grid, row, p) == x % p,
    ensures
        is_zero_poly(value, value_inv).eval(grid, row, p) == (1 - v * x) % p,
        is_zero_gate(q_enable, value, value_inv, queried).holds(grid, row, p) <==> ((q * v) * (1 - v
            * x)) % p == 0,
        is_zero_gate(q_enable, value, value_inv, queried).name == "is_zero gate"@,
        is_zero_gate(q_enable, value, value_inv, queried).queried == queried.push(value_inv),
{
    let is_zero = is_zero_poly(value, value_inv);
    let gate = is_zero_gate(q_enable, value, value_inv, queried);
    lemma_value_times(value, value_inv, v, x, grid, row, p);
    lemma_value_minus(Poly::Constant(1), value.times(value_inv), 1, v * x, grid, row, p);
    lemma_value_times(q_enable, value, q, v, grid, row, p);
    lemma_value_times(q_enable.times(value), is_zero, q * v, 1 - v * x, grid, row, p);
    let poly = q_enable.times(value).times(is_zero);
    assert(gate.polys.len() == 1 && gate.polys[0] == poly);
    assert(gate.holds(grid, row, p) <==> poly.eval(grid, row, p) == 0);
}

} // verus!
