//! What the constraints and the lookup of the transaction circuit say of the cells
//! of the columns that the gadget was configured with.
use crate::algebra::{lemma_value_minus, lemma_value_times};
use crate::field::{BaseExt, FieldExt};
use crate::is_zero::{is_zero_poly, law_is_zero_meaning};
use crate::plonk::{advice_cells, indices, Grid, LookupView, Poly};
use crate::rlc::{law_combined_by_weights, rlc_expr_poly};
use crate::sums::{lemma_rlc_weights, rlc, weighted_sum};
use crate::tx_circuit::{
    byte_weights, instance_cells, limb_part, limb_polys, reversed_halves, Secp256k1Affine,
    SignVerifyConfig,
};
use vstd::arithmetic::div_mod::lemma_mod_twice;
use vstd::arithmetic::power::pow;
use vstd::prelude::*;

verus! {

/// The point at infinity has zeros for coordinates, and no other point has.
pub proof fn law_identity(point: Secp256k1Affine)
    ensures
        point.is_identity() <==> point.x.value() == 0 && point.y.value() == 0,
{
}

/// The columns that the gadget is configured with: each has its own place behind
/// the columns that the circuit had before.
pub proof fn law_configured_columns<F: FieldExt>(config: SignVerifyConfig<F>, b: int, s: int)
    requires
        config.configured(b, s),
    ensures
        config.q_enable.index == s,
        !config.q_enable.simple,
        forall|i: int| 0 <= i < 64 ==> (#[trigger] config.pub_key@[i]).index == b + i,
        forall|i: int| 0 <= i < 4 ==> (#[trigger] config.pk_x_limbs@[i]).index == b + 64 + i,
        forall|i: int| 0 <= i < 4 ==> (#[trigger] config.pk_y_limbs@[i]).index == b + 68 + i,
        forall|i: int| 0 <= i < 32 ==> (#[trigger] config.msg_hash@[i]).index == b + 72 + i,
        forall|i: int| 0 <= i < 4 ==> (#[trigger] config.msg_hash_limbs@[i]).index == b + 104 + i,
        config.address.index == b + 108,
        forall|i: int| 0 <= i < 32 ==> (#[trigger] config.pub_key_hash@[i]).index == b + 109 + i,
        config.msg_hash_rlc.index == b + 141,
        config.msg_hash_rlc_inv.index == b + 142,
        config.msg_hash_rlc_is_zero.value_inv.index == b + 142,
        forall|i: int| 0 <= i < 4 ==> (#[trigger] config.keccak_table@[i]).index == b + 143 + i,
{
    assert forall|i: int| 0 <= i < 64 implies (#[trigger] config.pub_key@[i]).index == b + i by {
        assert(indices(config.pub_key@)[i] == b + i);
    }
    assert forall|i: int| 0 <= i < 4 implies (#[trigger] config.pk_x_limbs@[i]).index == b + 64
        + i by {
        assert(indices(config.pk_x_limbs@)[i] == b + 64 + i);
    }
    assert forall|i: int| 0 <= i < 4 implies (#[trigger] config.pk_y_limbs@[i]).index == b + 68
        + i by {
        assert(indices(config.pk_y_limbs@)[i] == b + 68 + i);
    }
    assert forall|i: int| 0 <= i < 32 implies (#[trigger] config.msg_hash@[i]).index == b + 72
        + i by {
        assert(indices(config.msg_hash@)[i] == b + 72 + i);
    }
    assert forall|i: int| 0 <= i < 4 implies (#[trigger] config.msg_hash_limbs@[i]).index == b + 104
        + i by {
        assert(indices(config.msg_hash_limbs@)[i] == b + 104 + i);
    }
    assert forall|i: int| 0 <= i < 32 implies (#[trigger] config.pub_key_hash@[i]).index == b + 109
        + i by {
        assert(indices(config.pub_key_hash@)[i] == b + 109 + i);
    }
    assert forall|i: int| 0 <= i < 4 implies (#[trigger] config.keccak_table@[i]).index == b + 143
        + i by {
        assert(indices(config.keccak_table@)[i] == b + 143 + i);
    }
}

/// The constraint on the message hash: the product of the selector, the combined
/// message hash and one less its product with its inverse is zero. And where the
/// gadget is enabled, and how much: by the product of the selector, the combined
/// message hash and its inverse.
pub proof fn law_message_hash_meaning<F: FieldExt>(
    config: SignVerifyConfig<F>,
    b: int,
    s: int,
    grid: Grid,
    row: int,
)
    requires
        1 < F::modulus(),
        config.configured(b, s),
    ensures
        ({
            let q = (grid.selector)(config.q_enable.index as int, row);
            let v = (grid.advice)(config.msg_hash_rlc.index as int, row);
            let x = (grid.advice)(config.msg_hash_rlc_inv.index as int, row);
            &&& config.is_zero_gate().name == "is_zero gate"@
            &&& config.is_zero_gate().holds(grid, row, F::modulus()) <==> ((q * v) * (1 - v * x))
                % F::modulus() == 0
            &&& config.selector_poly().eval(grid, row, F::modulus()) == (q * (v * x))
                % F::modulus()
        }),
{
    let p = F::modulus();
    let q = (grid.selector)(config.q_enable.index as int, row);
    let v = (grid.advice)(config.msg_hash_rlc.index as int, row);
    let x = (grid.advice)(config.msg_hash_rlc_inv.index as int, row);
    let queried = seq![config.q_enable_poly(), config.msg_hash_rlc_poly()];
    let is_zero = is_zero_poly(config.msg_hash_rlc_poly(), config.msg_hash_rlc_inv_poly());
    assert(row + 0 == row);
    law_is_zero_meaning(
        config.q_enable_poly(),
        config.msg_hash_rlc_poly(),
        config.msg_hash_rlc_inv_poly(),
        queried,
        q,
        v,
        x,
        grid,
        row,
        p,
    );
    lemma_value_minus(Poly::Constant(1), is_zero, 1, 1 - v * x, grid, row, p);
    assert(1 - (1 - v * x) == v * x);
    lemma_value_times(
        config.q_enable_poly(),
        Poly::Constant(1).minus(is_zero),
        q,
        v * x,
        grid,
        row,
        p,
    );
}

/// The value of the number that cells stand for, the least significant one first.
proof fn lemma_number(cells: Seq<Poly>, held: Seq<int>, grid: Grid, row: int, p: int)
    requires
        1 < p,
        0 < cells.len() <= 20,
        held.len() == cells.len(),
        forall|i: int|
            0 <= i < cells.len() ==> (#[trigger] cells[i]).eval(grid, row, p) == held[i] % p,
    ensures
        rlc_expr_poly(cells, byte_weights(p)).eval(grid, row, p) == rlc(held, 256) % p,
{
    let weights = Seq::new(19, |i: int| pow(256, (i + 1) as nat));
    assert forall|i: int| 0 <= i < 19 implies (#[trigger] byte_weights(p)[i]).eval(grid, row, p)
        == weights[i] % p by {
        lemma_mod_twice(pow(256, (i + 1) as nat), p);
    }
    law_combined_by_weights(cells, byte_weights(p), held, weights, grid, row, p);
    lemma_rlc_weights(held, weights, 256);
}

/// The value of a tie between two polynomials.
proof fn lemma_tie_value(
    selector: Poly,
    a: Poly,
    b: Poly,
    q: int,
    x: int,
    y: int,
    grid: Grid,
    row: int,
    p: int,
)
    requires
        1 < p,
        selector.eval(grid, row, p) == q % p,
        a.eval(grid, row, p) == x % p,
        b.eval(grid, row, p) == y % p,
    ensures
        selector.times(a.minus(b)).eval(grid, row, p) == (q * (x - y)) % p,
{
    lemma_value_minus(a, b, x, y, grid, row, p);
    lemma_value_times(selector, a.minus(b), q, x - y, grid, row, p);
}

/// The constraint on the address: where the gadget is enabled, the address is the
/// number that the last 20 bytes of the hash stand for, the last byte first.
pub proof fn law_address_meaning<F: FieldExt>(
    config: SignVerifyConfig<F>,
    b: int,
    s: int,
    grid: Grid,
    row: int,
)
    requires
        1 < F::modulus(),
        config.configured(b, s),
    ensures
        ({
            let q = (grid.selector)(config.q_enable.index as int, row) * ((grid.advice)(
                config.msg_hash_rlc.index as int,
                row,
            ) * (grid.advice)(config.msg_hash_rlc_inv.index as int, row));
            config.address_gate().holds(grid, row, F::modulus()) <==> (q * ((grid.advice)(
                config.address.index as int,
                row,
            ) - rlc(
                Seq::new(
                    20,
                    |i: int| (grid.advice)(config.pub_key_hash@[31 - i].index as int, row),
                ),
                256,
            ))) % F::modulus() == 0
        }),
        config.address_gate().name == "address"@,
        config.address_gate().queried == seq![
            Poly::Selector(config.q_enable.index as int, false),
            Poly::Advice(config.address.index as int, 0),
        ] + Seq::new(20, |i: int| Poly::Advice(config.pub_key_hash@[31 - i].index as int, 0)),
{
    let p = F::modulus();
    let q = (grid.selector)(config.q_enable.index as int, row) * ((grid.advice)(
                config.msg_hash_rlc.index as int,
                row,
            ) * (grid.advice)(config.msg_hash_rlc_inv.index as int, row));
    let held = Seq::new(20, |i: int| (grid.advice)(config.pub_key_hash@[31 - i].index as int, row));
    let gate = config.address_gate();
    let address = (grid.advice)(config.address.index as int, row);
    assert(row + 0 == row);
    law_message_hash_meaning(config, b, s, grid, row);
    lemma_number(config.address_cells(), held, grid, row, p);
    lemma_tie_value(
        config.selector_poly(),
        config.address_poly(),
        config.hash_address_poly(),
        q,
        address,
        rlc(held, 256),
        grid,
        row,
        p,
    );
    let poly = config.selector_poly().times(
        config.address_poly().minus(config.hash_address_poly()),
    );
    assert(gate.polys.len() == 1 && gate.polys[0] == poly);
    assert(gate.holds(grid, row, p) <==> poly.eval(grid, row, p) == 0);
    assert(gate.queried =~= seq![
        Poly::Selector(config.q_enable.index as int, false),
        Poly::Advice(config.address.index as int, 0),
    ] + Seq::new(20, |i: int| Poly::Advice(config.pub_key_hash@[31 - i].index as int, 0)));
}

/// The number of bytes of limb `j`.
spec fn limb_len(j: int) -> nat {
    if j < 3 {
        9
    } else {
        5
    }
}

/// The ties between limbs and bytes, by the cells.
proof fn lemma_limb_values(
    selector: Poly,
    limbs: Seq<Poly>,
    cells: Seq<Poly>,
    q: int,
    limb_values: Seq<int>,
    byte_values: Seq<int>,
    grid: Grid,
    row: int,
    p: int,
    j: int,
)
    requires
        1 < p,
        cells.len() == 32,
        byte_values.len() == 32,
        0 <= j < 4,
        selector.eval(grid, row, p) == q % p,
        limbs[j].eval(grid, row, p) == limb_values[j] % p,
        forall|i: int|
            0 <= i < 32 ==> (#[trigger] cells[i]).eval(grid, row, p) == byte_values[i] % p,
    ensures
        limb_polys(selector, limbs, cells, p)[j].eval(grid, row, p) == (q * (limb_values[j] - rlc(
            Seq::new(limb_len(j), |k: int| byte_values[9 * j + k]),
            256,
        ))) % p,
{
    let part = limb_part(cells, j);
    let held = Seq::new(limb_len(j), |k: int| byte_values[9 * j + k]);
    assert forall|i: int| 0 <= i < part.len() implies (#[trigger] part[i]).eval(grid, row, p)
        == held[i] % p by {
        assert(part[i] == cells[9 * j + i]);
    }
    lemma_number(part, held, grid, row, p);
    lemma_tie_value(
        selector,
        limbs[j],
        rlc_expr_poly(part, byte_weights(p)),
        q,
        limb_values[j],
        rlc(held, 256),
        grid,
        row,
        p,
    );
}

/// The constraint on the limbs: where the gadget is enabled, each limb of a
/// coordinate of the public key, or of the message hash, is the number that its
/// nine bytes stand for, five for the last limb. There are four polynomials for
/// each of the three numbers.
pub proof fn law_limbs_meaning<F: FieldExt>(
    config: SignVerifyConfig<F>,
    b: int,
    s: int,
    grid: Grid,
    row: int,
    j: int,
)
    requires
        1 < F::modulus(),
        config.configured(b, s),
        0 <= j < 4,
    ensures
        config.limbs_gate().name == "limbs"@,
        config.limbs_gate().polys.len() == 12,
        ({
            let q = (grid.selector)(config.q_enable.index as int, row) * ((grid.advice)(
                config.msg_hash_rlc.index as int,
                row,
            ) * (grid.advice)(config.msg_hash_rlc_inv.index as int, row));
            &&& config.limbs_gate().polys[j].eval(grid, row, F::modulus()) == (q * ((
            grid.advice)(
                config.pk_x_limbs@[j].index as int,
                row,
            ) - rlc(
                Seq::new(
                    if j < 3 {
                        9
                    } else {
                        5
                    },
                    |k: int| (grid.advice)(config.pub_key@[9 * j + k].index as int, row),
                ),
                256,
            ))) % F::modulus()
            &&& config.limbs_gate().polys[4 + j].eval(grid, row, F::modulus()) == (q * ((
            grid.advice)(
                config.pk_y_limbs@[j].index as int,
                row,
            ) - rlc(
                Seq::new(
                    if j < 3 {
                        9
                    } else {
                        5
                    },
                    |k: int| (grid.advice)(config.pub_key@[32 + 9 * j + k].index as int, row),
                ),
                256,
            ))) % F::modulus()
            &&& config.limbs_gate().polys[8 + j].eval(grid, row, F::modulus()) == (q * ((
            grid.advice)(
                config.msg_hash_limbs@[j].index as int,
                row,
            ) - rlc(
                Seq::new(
                    if j < 3 {
                        9
                    } else {
                        5
                    },
                    |k: int| (grid.advice)(config.msg_hash@[9 * j + k].index as int, row),
                ),
                256,
            ))) % F::modulus()
        }),
{
    let p = F::modulus();
    let q = (grid.selector)(config.q_enable.index as int, row) * ((grid.advice)(
                config.msg_hash_rlc.index as int,
                row,
            ) * (grid.advice)(config.msg_hash_rlc_inv.index as int, row));
    let gate = config.limbs_gate();
    let selector = config.selector_poly();
    let x_limbs = advice_cells(config.pk_x_limbs@, 0);
    let y_limbs = advice_cells(config.pk_y_limbs@, 0);
    let h_limbs = advice_cells(config.msg_hash_limbs@, 0);
    let x_cells = advice_cells(config.pub_key@, 0).subrange(0, 32);
    let y_cells = advice_cells(config.pub_key@, 0).subrange(32, 64);
    let h_cells = advice_cells(config.msg_hash@, 0).subrange(0, 32);
    let x_held = Seq::new(4, |j: int| (grid.advice)(config.pk_x_limbs@[j].index as int, row));
    let y_held = Seq::new(4, |j: int| (grid.advice)(config.pk_y_limbs@[j].index as int, row));
    let h_held = Seq::new(4, |j: int| (grid.advice)(config.msg_hash_limbs@[j].index as int, row));
    let x_bytes = Seq::new(32, |i: int| (grid.advice)(config.pub_key@[i].index as int, row));
    let y_bytes = Seq::new(32, |i: int| (grid.advice)(config.pub_key@[32 + i].index as int, row));
    let h_bytes = Seq::new(32, |i: int| (grid.advice)(config.msg_hash@[i].index as int, row));
    assert(row + 0 == row);
    law_message_hash_meaning(config, b, s, grid, row);
    lemma_limb_values(selector, x_limbs, x_cells, q, x_held, x_bytes, grid, row, p, j);
    lemma_limb_values(selector, y_limbs, y_cells, q, y_held, y_bytes, grid, row, p, j);
    lemma_limb_values(selector, h_limbs, h_cells, q, h_held, h_bytes, grid, row, p, j);
    assert(gate.polys[j] == limb_polys(selector, x_limbs, x_cells, p)[j]);
    assert(gate.polys[4 + j] == limb_polys(selector, y_limbs, y_cells, p)[j]);
    assert(gate.polys[8 + j] == limb_polys(selector, h_limbs, h_cells, p)[j]);
    assert(Seq::new(limb_len(j), |k: int| x_bytes[9 * j + k]) =~= Seq::new(
        if j < 3 {
            9
        } else {
            5
        },
        |k: int| (grid.advice)(config.pub_key@[9 * j + k].index as int, row),
    ));
    assert(Seq::new(limb_len(j), |k: int| y_bytes[9 * j + k]) =~= Seq::new(
        if j < 3 {
            9
        } else {
            5
        },
        |k: int| (grid.advice)(config.pub_key@[32 + 9 * j + k].index as int, row),
    ));
    assert(Seq::new(limb_len(j), |k: int| h_bytes[9 * j + k]) =~= Seq::new(
        if j < 3 {
            9
        } else {
            5
        },
        |k: int| (grid.advice)(config.msg_hash@[9 * j + k].index as int, row),
    ));
}

/// What cells of columns hold, taken by the weights that instance columns hold.
proof fn lemma_instance_weights<F: FieldExt>(
    config: SignVerifyConfig<F>,
    cells: Seq<Poly>,
    held: Seq<int>,
    grid: Grid,
    row: int,
)
    requires
        1 < F::modulus(),
        0 < cells.len() <= 64,
        held.len() == cells.len(),
        forall|i: int|
            0 <= i < cells.len() ==> (#[trigger] cells[i]).eval(grid, row, F::modulus()) == held[i]
                % F::modulus(),
    ensures
        rlc_expr_poly(cells, instance_cells(config.power_of_randomness@)).eval(
            grid,
            row,
            F::modulus(),
        ) == (held[0] + weighted_sum(
            held.drop_first(),
            Seq::new(
                63,
                |i: int| (grid.instance)(config.power_of_randomness@[i].index as int, row),
            ),
        )) % F::modulus(),
{
    let weights = Seq::new(
        63,
        |i: int| (grid.instance)(config.power_of_randomness@[i].index as int, row),
    );
    let powers = instance_cells(config.power_of_randomness@);
    assert(row + 0 == row);
    assert forall|i: int| 0 <= i < 63 implies (#[trigger] powers[i]).eval(grid, row, F::modulus())
        == weights[i] % F::modulus() by {
        assert(powers[i] == Poly::Instance(config.power_of_randomness@[i].index as int, 0));
    }
    law_combined_by_weights(cells, powers, held, weights, grid, row, F::modulus());
}

/// The constraint on the combined message hash: where the gadget is enabled, it is
/// the first byte and each other by what the instance columns of the powers hold,
/// from the first column on.
pub proof fn law_combined_hash_meaning<F: FieldExt>(
    config: SignVerifyConfig<F>,
    b: int,
    s: int,
    grid: Grid,
    row: int,
)
    requires
        1 < F::modulus(),
        config.configured(b, s),
    ensures
        ({
            let q = (grid.selector)(config.q_enable.index as int, row) * ((grid.advice)(
                config.msg_hash_rlc.index as int,
                row,
            ) * (grid.advice)(config.msg_hash_rlc_inv.index as int, row));
            config.msg_hash_gate().holds(grid, row, F::modulus()) <==> (q * ((grid.advice)(
                config.msg_hash_rlc.index as int,
                row,
            ) - ((grid.advice)(config.msg_hash@[0].index as int, row) + weighted_sum(
                Seq::new(31, |i: int| (grid.advice)(config.msg_hash@[i + 1].index as int, row)),
                Seq::new(
                    63,
                    |i: int| (grid.instance)(config.power_of_randomness@[i].index as int, row),
                ),
            )))) % F::modulus() == 0
        }),
        config.msg_hash_gate().name == "msg_hash_rlc"@,
{
    let p = F::modulus();
    let q = (grid.selector)(config.q_enable.index as int, row) * ((grid.advice)(
                config.msg_hash_rlc.index as int,
                row,
            ) * (grid.advice)(config.msg_hash_rlc_inv.index as int, row));
    let cells = advice_cells(config.msg_hash@, 0);
    let held = Seq::new(32, |i: int| (grid.advice)(config.msg_hash@[i].index as int, row));
    let weights = Seq::new(
        63,
        |i: int| (grid.instance)(config.power_of_randomness@[i].index as int, row),
    );
    let gate = config.msg_hash_gate();
    assert(row + 0 == row);
    law_message_hash_meaning(config, b, s, grid, row);
    lemma_instance_weights(config, cells, held, grid, row);
    assert(held.drop_first() =~= Seq::new(
        31,
        |i: int| (grid.advice)(config.msg_hash@[i + 1].index as int, row),
    ));
    lemma_tie_value(
        config.selector_poly(),
        config.msg_hash_rlc_poly(),
        config.msg_hash_bytes_rlc_poly(),
        q,
        (grid.advice)(config.msg_hash_rlc.index as int, row),
        held[0] + weighted_sum(held.drop_first(), weights),
        grid,
        row,
        p,
    );
    let poly = config.selector_poly().times(
        config.msg_hash_rlc_poly().minus(config.msg_hash_bytes_rlc_poly()),
    );
    assert(gate.polys.len() == 1 && gate.polys[0] == poly);
    assert(gate.holds(grid, row, p) <==> poly.eval(grid, row, p) == 0);
}

/// The lookup in the keccak table: some row of the table has, as residues, whether
/// the gadget is enabled, and times that: the bytes of the public key combined by
/// what the instance columns of the powers hold, the most significant byte of each
/// coordinate first; 64; and the bytes of the hash combined in the same way.
pub proof fn law_keccak_lookup_meaning<F: FieldExt>(
    config: SignVerifyConfig<F>,
    b: int,
    s: int,
    grid: Grid,
    row: int,
    rows: int,
)
    requires
        1 < F::modulus(),
        config.configured(b, s),
    ensures
        ({
            let q = (grid.selector)(config.q_enable.index as int, row) * ((grid.advice)(
                config.msg_hash_rlc.index as int,
                row,
            ) * (grid.advice)(config.msg_hash_rlc_inv.index as int, row));
            let weights = Seq::new(
                63,
                |i: int| (grid.instance)(config.power_of_randomness@[i].index as int, row),
            );
            let key = (grid.advice)(config.pub_key@[31].index as int, row) + weighted_sum(
                Seq::new(
                    63,
                    |i: int|
                        (grid.advice)(
                            config.pub_key@[if i < 31 {
                                30 - i
                            } else {
                                94 - i
                            }].index as int,
                            row,
                        ),
                ),
                weights,
            );
            let hash = (grid.advice)(config.pub_key_hash@[0].index as int, row) + weighted_sum(
                Seq::new(31, |i: int| (grid.advice)(config.pub_key_hash@[i + 1].index as int, row)),
                weights,
            );
            config.keccak_lookup().holds(grid, row, rows, F::modulus()) <==> exists|t: int|
                {
                    &&& 0 <= t < rows
                    &&& #[trigger] (grid.advice)(config.keccak_table@[0].index as int, t)
                        % F::modulus() == q % F::modulus()
                    &&& (grid.advice)(config.keccak_table@[1].index as int, t) % F::modulus() == (q
                        * key) % F::modulus()
                    &&& (grid.advice)(config.keccak_table@[2].index as int, t) % F::modulus() == (q
                        * 64) % F::modulus()
                    &&& (grid.advice)(config.keccak_table@[3].index as int, t) % F::modulus() == (q
                        * hash) % F::modulus()
                }
        }),
        config.keccak_lookup().name == Some("keccak"@),
{
    let p = F::modulus();
    let q = (grid.selector)(config.q_enable.index as int, row) * ((grid.advice)(
                config.msg_hash_rlc.index as int,
                row,
            ) * (grid.advice)(config.msg_hash_rlc_inv.index as int, row));
    let weights = Seq::new(
        63,
        |i: int| (grid.instance)(config.power_of_randomness@[i].index as int, row),
    );
    let key_held = Seq::new(
        64,
        |i: int|
            (grid.advice)(
                config.pub_key@[if i < 32 {
                    31 - i
                } else {
                    95 - i
                }].index as int,
                row,
            ),
    );
    let key_rest = Seq::new(
        63,
        |i: int|
            (grid.advice)(
                config.pub_key@[if i < 31 {
                    30 - i
                } else {
                    94 - i
                }].index as int,
                row,
            ),
    );
    let hash_held = Seq::new(32, |i: int| (grid.advice)(config.pub_key_hash@[i].index as int, row));
    let hash_rest = Seq::new(
        31,
        |i: int| (grid.advice)(config.pub_key_hash@[i + 1].index as int, row),
    );
    let key = key_held[0] + weighted_sum(key_rest, weights);
    let hash = hash_held[0] + weighted_sum(hash_rest, weights);
    let selector = config.selector_poly();
    let lookup = config.keccak_lookup();
    assert(row + 0 == row);
    law_message_hash_meaning(config, b, s, grid, row);
    let key_cells = reversed_halves(advice_cells(config.pub_key@, 0));
    assert forall|i: int| 0 <= i < 64 implies (#[trigger] key_cells[i]).eval(grid, row, p)
        == key_held[i] % p by {
        assert(key_cells[i] == advice_cells(config.pub_key@, 0)[if i < 32 {
            31 - i
        } else {
            95 - i
        }]);
    }
    lemma_instance_weights(config, key_cells, key_held, grid, row);
    assert(key_held.drop_first() =~= key_rest);
    lemma_instance_weights(config, advice_cells(config.pub_key_hash@, 0), hash_held, grid, row);
    assert(hash_held.drop_first() =~= hash_rest);
    lemma_value_times(selector, config.pub_key_rlc_poly(), q, key, grid, row, p);
    lemma_mod_twice(64, p);
    lemma_value_times(selector, Poly::Constant(64int % p), q, 64, grid, row, p);
    lemma_value_times(selector, config.pub_key_hash_rlc_poly(), q, hash, grid, row, p);
    lemma_four_columns(
        config,
        lookup,
        q % p,
        (q * key) % p,
        (q * 64) % p,
        (q * hash) % p,
        grid,
        row,
        rows,
    );
}

/// A lookup of four inputs in the keccak table, by the cells of the table.
proof fn lemma_four_columns<F: FieldExt>(
    config: SignVerifyConfig<F>,
    lookup: LookupView,
    v0: int,
    v1: int,
    v2: int,
    v3: int,
    grid: Grid,
    row: int,
    rows: int,
)
    requires
        lookup.table_map.len() == 4,
        forall|k: int|
            0 <= k < 4 ==> (#[trigger] lookup.table_map[k]).1 == Poly::Advice(
                config.keccak_table@[k].index as int,
                0,
            ),
        lookup.table_map[0].0.eval(grid, row, F::modulus()) == v0,
        lookup.table_map[1].0.eval(grid, row, F::modulus()) == v1,
        lookup.table_map[2].0.eval(grid, row, F::modulus()) == v2,
        lookup.table_map[3].0.eval(grid, row, F::modulus()) == v3,
    ensures
        lookup.holds(grid, row, rows, F::modulus()) <==> exists|t: int|
            {
                &&& 0 <= t < rows
                &&& #[trigger] (grid.advice)(config.keccak_table@[0].index as int, t) % F::modulus()
                    == v0
                &&& (grid.advice)(config.keccak_table@[1].index as int, t) % F::modulus() == v1
                &&& (grid.advice)(config.keccak_table@[2].index as int, t) % F::modulus() == v2
                &&& (grid.advice)(config.keccak_table@[3].index as int, t) % F::modulus() == v3
            },
{
    let p = F::modulus();
    if lookup.holds(grid, row, rows, p) {
        let t = choose|t: int| 0 <= t < rows && #[trigger] lookup.matches_at(grid, row, t, p);
        assert(t + 0 == t);
        assert(lookup.table_map[0].1.eval(grid, t, p) == v0);
        assert(lookup.table_map[1].1.eval(grid, t, p) == v1);
        assert(lookup.table_map[2].1.eval(grid, t, p) == v2);
        assert(lookup.table_map[3].1.eval(grid, t, p) == v3);
        assert((grid.advice)(config.keccak_table@[0].index as int, t) % p == v0);
    }
    if exists|t: int|
        {
            &&& 0 <= t < rows
            &&& #[trigger] (grid.advice)(config.keccak_table@[0].index as int, t) % p == v0
            &&& (grid.advice)(config.keccak_table@[1].index as int, t) % p == v1
            &&& (grid.advice)(config.keccak_table@[2].index as int, t) % p == v2
            &&& (grid.advice)(config.keccak_table@[3].index as int, t) % p == v3
        } {
        let t = choose|t: int|
            {
                &&& 0 <= t < rows
                &&& #[trigger] (grid.advice)(config.keccak_table@[0].index as int, t) % p == v0
                &&& (grid.advice)(config.keccak_table@[1].index as int, t) % p == v1
                &&& (grid.advice)(config.keccak_table@[2].index as int, t) % p == v2
                &&& (grid.advice)(config.keccak_table@[3].index as int, t) % p == v3
            };
        assert(t + 0 == t);
        assert(lookup.matches_at(grid, row, t, p)) by {
            assert forall|i: int| 0 <= i < lookup.table_map.len() implies (
            #[trigger] lookup.table_map[i]).0.eval(grid, row, p) == lookup.table_map[i].1.eval(
                grid,
                t,
                p,
            ) by {
                assert(i == 0 || i == 1 || i == 2 || i == 3);
            }
        }
    }
}

/// What the constraints and the lookup read, column by column.
pub proof fn law_reads<F: FieldExt>(config: SignVerifyConfig<F>)
    ensures
        config.is_zero_gate().queried == seq![
            Poly::Selector(config.q_enable.index as int, config.q_enable.simple),
            Poly::Advice(config.msg_hash_rlc.index as int, 0),
            Poly::Advice(config.msg_hash_rlc_inv.index as int, 0),
        ],
        config.limbs_gate().queried == seq![
            Poly::Selector(config.q_enable.index as int, config.q_enable.simple),
        ] + Seq::new(4, |i: int| Poly::Advice(config.pk_x_limbs@[i].index as int, 0)) + Seq::new(
            4,
            |i: int| Poly::Advice(config.pk_y_limbs@[i].index as int, 0),
        ) + Seq::new(4, |i: int| Poly::Advice(config.msg_hash_limbs@[i].index as int, 0))
            + Seq::new(64, |i: int| Poly::Advice(config.pub_key@[i].index as int, 0)) + Seq::new(
            32,
            |i: int| Poly::Advice(config.msg_hash@[i].index as int, 0),
        ),
        config.msg_hash_gate().queried == seq![
            Poly::Selector(config.q_enable.index as int, config.q_enable.simple),
            Poly::Advice(config.msg_hash_rlc.index as int, 0),
        ] + Seq::new(63, |i: int| Poly::Instance(config.power_of_randomness@[i].index as int, 0))
            + Seq::new(32, |i: int| Poly::Advice(config.msg_hash@[i].index as int, 0)),
        config.keccak_lookup().queried == seq![
            Poly::Selector(config.q_enable.index as int, config.q_enable.simple),
        ] + Seq::new(63, |i: int| Poly::Instance(config.power_of_randomness@[i].index as int, 0))
            + seq![
            Poly::Advice(config.keccak_table@[0].index as int, 0),
            Poly::Advice(config.keccak_table@[1].index as int, 0),
        ] + Seq::new(64, |i: int| Poly::Advice(config.pub_key@[i].index as int, 0)) + seq![
            Poly::Advice(config.keccak_table@[2].index as int, 0),
            Poly::Advice(config.keccak_table@[3].index as int, 0),
        ] + Seq::new(32, |i: int| Poly::Advice(config.pub_key_hash@[i].index as int, 0)),
{
    assert(instance_cells(config.power_of_randomness@) =~= Seq::new(
        63,
        |i: int| Poly::Instance(config.power_of_randomness@[i].index as int, 0),
    ));
    assert(advice_cells(config.pub_key@, 0) =~= Seq::new(
        64,
        |i: int| Poly::Advice(config.pub_key@[i].index as int, 0),
    ));
    assert(advice_cells(config.msg_hash@, 0) =~= Seq::new(
        32,
        |i: int| Poly::Advice(config.msg_hash@[i].index as int, 0),
    ));
    assert(advice_cells(config.pub_key_hash@, 0) =~= Seq::new(
        32,
        |i: int| Poly::Advice(config.pub_key_hash@[i].index as int, 0),
    ));
    assert(advice_cells(config.pk_x_limbs@, 0) =~= Seq::new(
        4,
        |i: int| Poly::Advice(config.pk_x_limbs@[i].index as int, 0),
    ));
    assert(advice_cells(config.pk_y_limbs@, 0) =~= Seq::new(
        4,
        |i: int| Poly::Advice(config.pk_y_limbs@[i].index as int, 0),
    ));
    assert(advice_cells(config.msg_hash_limbs@, 0) =~= Seq::new(
        4,
        |i: int| Poly::Advice(config.msg_hash_limbs@[i].index as int, 0),
    ));
    assert(config.is_zero_gate().queried =~= seq![
        Poly::Selector(config.q_enable.index as int, config.q_enable.simple),
        Poly::Advice(config.msg_hash_rlc.index as int, 0),
        Poly::Advice(config.msg_hash_rlc_inv.index as int, 0),
    ]);
}

} // verus!
