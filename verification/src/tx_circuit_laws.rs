//! What the transaction circuit amounts to: that an honest assignment satisfies
//! it, and what it forces of any assignment.
use crate::algebra::{group_eval, lemma_eval_range, values};
use crate::circuit::{all_placed, AssignedLimb, CellView, EventView, RegionView};
use crate::field::{BaseExt, FieldExt};
use crate::is_zero::{
    has_inverse, inverse_or_zero, is_zero_poly, law_is_zero_assigned, law_is_zero_forced,
    lemma_inverse_range,
};
use crate::plonk::{advice_cells, indices, with_equality, Advice, Column, Grid, Poly};
use crate::rlc::{law_random_linear_combine_expr, rlc_expr_poly};
use crate::sums::{
    ints, le_bytes, le_value, lemma_le_value, lemma_pow_256_32, lemma_rlc_residues, rlc,
};
use crate::tx_circuit::{
    address_value, assigned_regions, byte_events, byte_weights, copy_events, instance_cells,
    keccak_events, keccak_row, keccak_values, limb_part, limb_polys, msg_hash_rlc_value,
    pub_key_bytes, reversed_halves, signature_events, AssignedSignature, KeccakAux, Secp256k1Affine,
    SignVerifyConfig, TxSignData, POW_RAND_SIZE,
};
use vstd::arithmetic::div_mod::{lemma_fundamental_div_mod, lemma_mod_twice, lemma_small_mod};
use vstd::arithmetic::mul::lemma_mul_basics;
use vstd::arithmetic::power::pow;
use vstd::prelude::*;

verus! {

broadcast use group_eval;

/// Whether the instance columns hold the powers of the randomness at a row.
pub open spec fn powers_at<F: FieldExt>(
    config: SignVerifyConfig<F>,
    randomness: int,
    grid: Grid,
    row: int,
) -> bool {
    forall|i: int|
        0 <= i < POW_RAND_SIZE ==> (grid.instance)(
            (#[trigger] config.power_of_randomness@[i]).index as int,
            row,
        ) % F::modulus() == pow(randomness, (i + 1) as nat) % F::modulus()
}

/// The cells that are read for the powers of the randomness hold them.
proof fn lemma_powers<F: FieldExt>(
    config: SignVerifyConfig<F>,
    randomness: int,
    grid: Grid,
    row: int,
)
    requires
        powers_at(config, randomness, grid, row),
    ensures
        forall|i: int|
            0 <= i < POW_RAND_SIZE ==> (#[trigger] instance_cells(
                config.power_of_randomness@,
            )[i]).eval(grid, row, F::modulus()) == pow(randomness, (i + 1) as nat) % F::modulus(),
{
    assert forall|i: int| 0 <= i < POW_RAND_SIZE implies (#[trigger] instance_cells(
        config.power_of_randomness@,
    )[i]).eval(grid, row, F::modulus()) == pow(randomness, (i + 1) as nat) % F::modulus() by {
        assert(instance_cells(config.power_of_randomness@)[i] == Poly::Instance(
            config.power_of_randomness@[i].index as int,
            0,
        ));
    }
}

/// Steps that follow each other are placed if both are.
proof fn lemma_placed_both(a: Seq<EventView>, b: Seq<EventView>, grid: Grid, start: int)
    requires
        all_placed(a + b, grid, start),
    ensures
        all_placed(a, grid, start),
        all_placed(b, grid, start),
{
    assert forall|i: int| 0 <= i < a.len() implies (#[trigger] a[i]).placed(grid, start) by {
        assert((a + b)[i] == a[i]);
    }
    assert forall|i: int| 0 <= i < b.len() implies (#[trigger] b[i]).placed(grid, start) by {
        assert((a + b)[a.len() + i] == b[i]);
    }
}

/// The cells of a row that bytes were assigned to have the values of the bytes.
proof fn lemma_byte_cells(
    bytes: Seq<u8>,
    columns: Seq<Column<Advice>>,
    first: int,
    grid: Grid,
    row: int,
    p: int,
)
    requires
        1 < p,
        bytes.len() == 32,
        0 <= first,
        first + 32 <= columns.len(),
        all_placed(
            byte_events(bytes, indices(columns).subrange(first, first + 32), 0, p),
            grid,
            row,
        ),
    ensures
        forall|i: int|
            0 <= i < 32 ==> (#[trigger] advice_cells(columns, 0)[first + i]).eval(grid, row, p)
                == bytes[i] as int % p,
{
    let events = byte_events(bytes, indices(columns).subrange(first, first + 32), 0, p);
    assert forall|i: int| 0 <= i < 32 implies (#[trigger] advice_cells(columns, 0)[first + i]).eval(
        grid,
        row,
        p,
    ) == bytes[i] as int % p by {
        assert(events[i].placed(grid, row));
        lemma_mod_twice(bytes[i] as int, p);
    }
}

/// What the row of a signature holds, once it is assigned.
proof fn lemma_signature_row<F: FieldExt>(
    config: SignVerifyConfig<F>,
    signature: AssignedSignature<F>,
    tx: TxSignData,
    pub_key_hash: Seq<u8>,
    region_index: int,
    randomness: int,
    grid: Grid,
    row: int,
)
    requires
        1 < F::modulus(),
        config.msg_hash_rlc_is_zero.value_inv == config.msg_hash_rlc_inv,
        pub_key_hash.len() == 32,
        all_placed(
            signature_events(config, signature, tx, pub_key_hash, region_index, randomness),
            grid,
            row,
        ),
    ensures
        config.q_enable_poly().eval(grid, row, F::modulus()) == 1,
        config.msg_hash_rlc_poly().eval(grid, row, F::modulus()) == msg_hash_rlc_value(
            tx.msg_hash,
            randomness,
            F::modulus(),
        ),
        config.msg_hash_rlc_inv_poly().eval(grid, row, F::modulus()) == inverse_or_zero(
            msg_hash_rlc_value(tx.msg_hash, randomness, F::modulus()),
            F::modulus(),
        ),
        forall|i: int|
            0 <= i < 32 ==> (#[trigger] advice_cells(config.pub_key@, 0)[0 + i]).eval(
                grid,
                row,
                F::modulus(),
            ) == le_bytes(tx.pub_key.x.value(), 32)[i] as int % F::modulus(),
        forall|i: int|
            0 <= i < 32 ==> (#[trigger] advice_cells(config.pub_key@, 0)[32 + i]).eval(
                grid,
                row,
                F::modulus(),
            ) == le_bytes(tx.pub_key.y.value(), 32)[i] as int % F::modulus(),
        forall|i: int|
            0 <= i < 32 ==> (#[trigger] advice_cells(config.pub_key_hash@, 0)[0 + i]).eval(
                grid,
                row,
                F::modulus(),
            ) == pub_key_hash[i] as int % F::modulus(),
        config.address_poly().eval(grid, row, F::modulus()) == address_value(
            pub_key_hash,
            F::modulus(),
        ),
        forall|i: int|
            0 <= i < 32 ==> (#[trigger] advice_cells(config.msg_hash@, 0)[0 + i]).eval(
                grid,
                row,
                F::modulus(),
            ) == le_bytes(tx.msg_hash.value(), 32)[i] as int % F::modulus(),
        all_placed(
            copy_events(signature.pk_x.limbs@, indices(config.pk_x_limbs@), 0, region_index),
            grid,
            row,
        ),
        all_placed(
            copy_events(signature.pk_y.limbs@, indices(config.pk_y_limbs@), 0, region_index),
            grid,
            row,
        ),
        all_placed(
            copy_events(
                signature.msg_hash.limbs@,
                indices(config.msg_hash_limbs@),
                0,
                region_index,
            ),
            grid,
            row,
        ),
{
    let p = F::modulus();
    let combined = msg_hash_rlc_value(tx.msg_hash, randomness, p);
    let inverse = inverse_or_zero(combined, p);
    let x_le = le_bytes(tx.pub_key.x.value(), 32);
    let y_le = le_bytes(tx.pub_key.y.value(), 32);
    let x_limbs = copy_events(
        signature.pk_x.limbs@,
        indices(config.pk_x_limbs@),
        0,
        region_index,
    );
    let y_limbs = copy_events(
        signature.pk_y.limbs@,
        indices(config.pk_y_limbs@),
        0,
        region_index,
    );
    let h_limbs = copy_events(
        signature.msg_hash.limbs@,
        indices(config.msg_hash_limbs@),
        0,
        region_index,
    );
    let copies = x_limbs + y_limbs + h_limbs;
    let three = seq![
        EventView::EnableSelector {
            selector: config.q_enable.index as int,
            simple: config.q_enable.simple,
            offset: 0,
        },
        EventView::AssignAdvice {
            column: config.msg_hash_rlc.index as int,
            offset: 0,
            value: combined,
        },
        EventView::AssignAdvice {
            column: config.msg_hash_rlc_is_zero.value_inv.index as int,
            offset: 0,
            value: inverse,
        },
    ];
    let x = byte_events(x_le, indices(config.pub_key@).subrange(0, 32), 0, p);
    let y = byte_events(y_le, indices(config.pub_key@).subrange(32, 64), 0, p);
    let h = byte_events(pub_key_hash, indices(config.pub_key_hash@).subrange(0, 32), 0, p);
    let last = seq![
        EventView::AssignAdvice {
            column: config.address.index as int,
            offset: 0,
            value: address_value(pub_key_hash, p),
        },
    ];
    let m_le = le_bytes(tx.msg_hash.value(), 32);
    assert(indices(config.msg_hash@).take(32) =~= indices(config.msg_hash@).subrange(0, 32));
    let m = byte_events(m_le, indices(config.msg_hash@).take(32), 0, p);
    lemma_placed_both(copies + three + x + y + h + last, m, grid, row);
    lemma_placed_both(copies + three + x + y + h, last, grid, row);
    lemma_placed_both(copies + three + x + y, h, grid, row);
    lemma_placed_both(copies + three + x, y, grid, row);
    lemma_placed_both(copies + three, x, grid, row);
    lemma_placed_both(copies, three, grid, row);
    lemma_placed_both(x_limbs + y_limbs, h_limbs, grid, row);
    lemma_placed_both(x_limbs, y_limbs, grid, row);
    assert(three[0].placed(grid, row));
    assert(three[1].placed(grid, row));
    assert(three[2].placed(grid, row));
    assert(last[0].placed(grid, row));
    lemma_mod_twice(rlc(ints(pub_key_hash.subrange(12, 32).reverse()), 256), p);
    lemma_small_mod(1, p as nat);
    lemma_mod_twice(rlc(ints(le_bytes(tx.msg_hash.value(), 32)), randomness), p);
    lemma_inverse_range(combined, p);
    lemma_small_mod(inverse as nat, p as nat);
    lemma_byte_cells(x_le, config.pub_key@, 0, grid, row, p);
    lemma_byte_cells(y_le, config.pub_key@, 32, grid, row, p);
    lemma_byte_cells(pub_key_hash, config.pub_key_hash@, 0, grid, row, p);
    lemma_byte_cells(m_le, config.msg_hash@, 0, grid, row, p);
}

/// What a row of the keccak table holds, once residues are assigned to it.
proof fn lemma_keccak_row<F: FieldExt>(
    config: SignVerifyConfig<F>,
    offset: int,
    held: Seq<int>,
    grid: Grid,
    start: int,
)
    requires
        held.len() == 4,
        forall|k: int| 0 <= k < 4 ==> 0 <= #[trigger] held[k] < F::modulus(),
        all_placed(keccak_row(indices(config.keccak_table@), offset, held), grid, start),
    ensures
        forall|k: int|
            0 <= k < 4 ==> #[trigger] config.keccak_poly(k).eval(grid, start + offset, F::modulus())
                == held[k],
{
    let p = F::modulus();
    let events = keccak_row(indices(config.keccak_table@), offset, held);
    assert forall|k: int| 0 <= k < 4 implies #[trigger] config.keccak_poly(k).eval(
        grid,
        start + offset,
        p,
    ) == held[k] by {
        assert(events[k].placed(grid, start));
        lemma_small_mod(held[k] as nat, p as nat);
    }
}

/// The keccak table holds residues.
proof fn lemma_keccak_values(input: Seq<u8>, output: Seq<u8>, randomness: int, p: int)
    requires
        1 < p,
    ensures
        forall|k: int|
            0 <= k < 4 ==> 0 <= #[trigger] keccak_values(input, output, randomness, p)[k] < p,
{
}

/// What the first two rows of the keccak table hold, once they are assigned.
proof fn lemma_keccak_rows<F: FieldExt>(
    config: SignVerifyConfig<F>,
    input: Seq<u8>,
    output: Seq<u8>,
    randomness: int,
    grid: Grid,
    row: int,
)
    requires
        1 < F::modulus(),
        all_placed(
            keccak_row(indices(config.keccak_table@), 0, seq![0, 0, 0, 0]) + keccak_row(
                indices(config.keccak_table@),
                1,
                keccak_values(input, output, randomness, F::modulus()),
            ),
            grid,
            row,
        ),
    ensures
        forall|k: int|
            0 <= k < 4 ==> #[trigger] config.keccak_poly(k).eval(grid, row, F::modulus()) == 0,
        forall|k: int|
            0 <= k < 4 ==> #[trigger] config.keccak_poly(k).eval(grid, row + 1, F::modulus())
                == keccak_values(input, output, randomness, F::modulus())[k],
{
    let table = indices(config.keccak_table@);
    let zeros = seq![0int, 0, 0, 0];
    let held = keccak_values(input, output, randomness, F::modulus());
    lemma_placed_both(keccak_row(table, 0, zeros), keccak_row(table, 1, held), grid, row);
    assert(forall|k: int| 0 <= k < 4 ==> #[trigger] zeros[k] == 0);
    lemma_keccak_values(input, output, randomness, F::modulus());
    lemma_keccak_row(config, 0, zeros, grid, row);
    lemma_keccak_row(config, 1, held, grid, row);
}

/// The selector of the lookup is one on a row with a signature of a message hash
/// other than zero, and zero on a row with a zero message hash or none.
proof fn lemma_selector<F: FieldExt>(config: SignVerifyConfig<F>, grid: Grid, row: int)
    requires
        1 < F::modulus(),
        config.msg_hash_rlc_is_zero.is_zero_expression@.eval(grid, row, F::modulus()) == (
        if config.msg_hash_rlc_poly().eval(grid, row, F::modulus()) == 0 {
            1int
        } else {
            0
        }),
        config.q_enable_poly().eval(grid, row, F::modulus()) == 1,
    ensures
        config.selector_poly().eval(grid, row, F::modulus()) == (
        if config.msg_hash_rlc_poly().eval(grid, row, F::modulus()) == 0 {
            0int
        } else {
            1
        }),
{
    let p = F::modulus();
    lemma_small_mod(0, p as nat);
    lemma_small_mod(1, p as nat);
}

/// Where the selector of the lookup is zero, zeros are looked up.
proof fn lemma_disabled<F: FieldExt>(
    config: SignVerifyConfig<F>,
    grid: Grid,
    row: int,
    table_row: int,
)
    requires
        1 < F::modulus(),
        config.selector_poly().eval(grid, row, F::modulus()) == 0,
        forall|k: int|
            0 <= k < 4 ==> #[trigger] config.keccak_poly(k).eval(grid, table_row, F::modulus())
                == 0,
    ensures
        config.keccak_lookup().matches_at(grid, row, table_row, F::modulus()),
{
    let p = F::modulus();
    let lookup = config.keccak_lookup();
    lemma_small_mod(0, p as nat);
    assert forall|i: int| 0 <= i < lookup.table_map.len() implies (
    #[trigger] lookup.table_map[i]).0.eval(grid, row, p) == lookup.table_map[i].1.eval(
        grid,
        table_row,
        p,
    ) by {
        assert(i == 0 || i == 1 || i == 2 || i == 3);
        assert(lookup.table_map[i].1 == config.keccak_poly(i));
        lemma_mul_basics(config.pub_key_rlc_poly().eval(grid, row, p));
        lemma_mul_basics(Poly::Constant(64int % p).eval(grid, row, p));
        lemma_mul_basics(config.pub_key_hash_rlc_poly().eval(grid, row, p));
    }
}

/// The combined bytes of the public key and of its hash, on a row whose cells
/// hold them.
proof fn lemma_combined_bytes<F: FieldExt>(
    config: SignVerifyConfig<F>,
    tx: TxSignData,
    pub_key_hash: Seq<u8>,
    randomness: int,
    grid: Grid,
    row: int,
)
    requires
        1 < F::modulus(),
        pub_key_hash.len() == 32,
        powers_at(config, randomness, grid, row),
        forall|i: int|
            0 <= i < 32 ==> (#[trigger] advice_cells(config.pub_key@, 0)[0 + i]).eval(
                grid,
                row,
                F::modulus(),
            ) == le_bytes(tx.pub_key.x.value(), 32)[i] as int % F::modulus(),
        forall|i: int|
            0 <= i < 32 ==> (#[trigger] advice_cells(config.pub_key@, 0)[32 + i]).eval(
                grid,
                row,
                F::modulus(),
            ) == le_bytes(tx.pub_key.y.value(), 32)[i] as int % F::modulus(),
        forall|i: int|
            0 <= i < 32 ==> (#[trigger] advice_cells(config.pub_key_hash@, 0)[0 + i]).eval(
                grid,
                row,
                F::modulus(),
            ) == pub_key_hash[i] as int % F::modulus(),
    ensures
        config.pub_key_rlc_poly().eval(grid, row, F::modulus()) == rlc(
            ints(pub_key_bytes(tx.pub_key)),
            randomness,
        ) % F::modulus(),
        config.pub_key_hash_rlc_poly().eval(grid, row, F::modulus()) == rlc(
            ints(pub_key_hash),
            randomness,
        ) % F::modulus(),
{
    let p = F::modulus();
    let powers = instance_cells(config.power_of_randomness@);
    let cells = advice_cells(config.pub_key@, 0);
    let key = reversed_halves(cells);
    let key_bytes = pub_key_bytes(tx.pub_key);
    lemma_powers(config, randomness, grid, row);
    law_random_linear_combine_expr(key, powers, randomness, grid, row, p);
    assert forall|i: int| 0 <= i < 64 implies #[trigger] values(key, grid, row, p)[i] % p
        == #[trigger] ints(key_bytes)[i] % p by {
        lemma_mod_twice(key_bytes[i] as int, p);
        if i < 32 {
            assert(key[i] == cells[0 + (31 - i)]);
        } else {
            assert(key[i] == cells[32 + (63 - i)]);
        }
    }
    lemma_rlc_residues(values(key, grid, row, p), ints(key_bytes), randomness, p);

    let hash = advice_cells(config.pub_key_hash@, 0);
    law_random_linear_combine_expr(hash, powers, randomness, grid, row, p);
    assert forall|i: int| 0 <= i < 32 implies #[trigger] values(hash, grid, row, p)[i] % p
        == #[trigger] ints(pub_key_hash)[i] % p by {
        assert(hash[i] == hash[0 + i]);
        lemma_mod_twice(pub_key_hash[i] as int, p);
    }
    lemma_rlc_residues(values(hash, grid, row, p), ints(pub_key_hash), randomness, p);
}

/// The value of a polynomial for the number that bytes stand for, the least
/// significant one first.
proof fn lemma_weighted_bytes(cells: Seq<Poly>, grid: Grid, row: int, p: int)
    requires
        1 < p,
        0 < cells.len() <= 20,
    ensures
        rlc_expr_poly(cells, byte_weights(p)).eval(grid, row, p) == rlc(
            values(cells, grid, row, p),
            256,
        ) % p,
{
    let weights = byte_weights(p);
    assert forall|i: int| 0 <= i < 19 implies (#[trigger] weights[i]).eval(grid, row, p) == pow(
        256,
        (i + 1) as nat,
    ) % p by {
        lemma_mod_twice(pow(256, (i + 1) as nat), p);
    }
    law_random_linear_combine_expr(cells, weights, 256, grid, row, p);
}

/// A tie between two polynomials holds where its selector is zero, and where the
/// two are equal.
proof fn lemma_tie(selector: Poly, a: Poly, b: Poly, grid: Grid, row: int, p: int)
    requires
        1 < p,
        selector.eval(grid, row, p) == 0 || a.eval(grid, row, p) == b.eval(grid, row, p),
    ensures
        selector.times(a.minus(b)).eval(grid, row, p) == 0,
{
    let d = a.minus(b).eval(grid, row, p);
    lemma_small_mod(0, p as nat);
    lemma_mul_basics(selector.eval(grid, row, p));
    lemma_mul_basics(d);
    assert(selector.eval(grid, row, p) * d == 0);
}

/// A tie between two polynomials makes them equal where its selector is one.
proof fn lemma_tie_forced(selector: Poly, a: Poly, b: Poly, grid: Grid, row: int, p: int)
    requires
        1 < p,
        selector.eval(grid, row, p) == 1,
        selector.times(a.minus(b)).eval(grid, row, p) == 0,
    ensures
        a.eval(grid, row, p) == b.eval(grid, row, p),
{
    let difference = a.minus(b);
    let x = a.eval(grid, row, p);
    let y = b.eval(grid, row, p);
    lemma_mul_basics(difference.eval(grid, row, p));
    lemma_eval_range(difference, grid, row, p);
    lemma_eval_range(a, grid, row, p);
    lemma_eval_range(b, grid, row, p);
    assert((x - y) % p == 0);
    lemma_fundamental_div_mod(x - y, p);
    assert(x == y) by (nonlinear_arith)
        requires
            0 <= x < p,
            0 <= y < p,
            x - y == p * ((x - y) / p),
    ;
}

/// The ties between limbs and bytes hold where the selector is zero, and where the
/// limbs are those of the bytes.
proof fn lemma_limb_polys(
    selector: Poly,
    limbs: Seq<Poly>,
    cells: Seq<Poly>,
    bytes: Seq<u8>,
    grid: Grid,
    row: int,
    p: int,
)
    requires
        1 < p,
        cells.len() == 32,
        bytes.len() == 32,
        selector.eval(grid, row, p) == 0 || {
            &&& forall|i: int|
                0 <= i < 32 ==> (#[trigger] cells[i]).eval(grid, row, p) == bytes[i] as int % p
            &&& forall|j: int|
                0 <= j < 4 ==> (#[trigger] limbs[j]).eval(grid, row, p) == limb_number(bytes, j) % p
        },
    ensures
        forall|j: int|
            0 <= j < 4 ==> (#[trigger] limb_polys(selector, limbs, cells, p)[j]).eval(grid, row, p)
                == 0,
{
    assert forall|j: int| 0 <= j < 4 implies (#[trigger] limb_polys(
        selector,
        limbs,
        cells,
        p,
    )[j]).eval(grid, row, p) == 0 by {
        let part = limb_part(cells, j);
        let expected = rlc_expr_poly(part, byte_weights(p));
        if selector.eval(grid, row, p) != 0 {
            lemma_weighted_bytes(part, grid, row, p);
            let held = values(part, grid, row, p);
            let numbers = ints(limb_part(bytes, j));
            assert forall|i: int| 0 <= i < held.len() implies #[trigger] held[i] % p
                == #[trigger] numbers[i] % p by {
                assert(part[i] == cells[9 * j + i]);
                lemma_mod_twice(bytes[9 * j + i] as int, p);
            }
            lemma_rlc_residues(held, numbers, 256, p);
            assert(limbs[j].eval(grid, row, p) == expected.eval(grid, row, p));
        }
        lemma_tie(selector, limbs[j], expected, grid, row, p);
    }
}

/// The last 20 bytes of the hash, on a row whose cells hold it, stand for the
/// address that belongs to the hash.
proof fn lemma_assigned_address<F: FieldExt>(
    config: SignVerifyConfig<F>,
    pub_key_hash: Seq<u8>,
    grid: Grid,
    row: int,
)
    requires
        1 < F::modulus(),
        pub_key_hash.len() == 32,
        forall|i: int|
            0 <= i < 32 ==> (#[trigger] advice_cells(config.pub_key_hash@, 0)[0 + i]).eval(
                grid,
                row,
                F::modulus(),
            ) == pub_key_hash[i] as int % F::modulus(),
    ensures
        rlc(values(config.address_cells(), grid, row, F::modulus()), 256) % F::modulus()
            == address_value(pub_key_hash, F::modulus()),
{
    let p = F::modulus();
    let held = values(config.address_cells(), grid, row, p);
    let bytes = ints(pub_key_hash.subrange(12, 32).reverse());
    assert forall|i: int| 0 <= i < 20 implies #[trigger] held[i] % p == #[trigger] bytes[i]
        % p by {
        assert(config.address_cells()[i] == advice_cells(config.pub_key_hash@, 0)[0 + (31 - i)]);
        lemma_mod_twice(pub_key_hash[31 - i] as int, p);
    }
    lemma_rlc_residues(held, bytes, 256, p);
}

/// The number that limb `j` of 32 bytes stands for.
pub open spec fn limb_number(bytes: Seq<u8>, j: int) -> int {
    rlc(ints(limb_part(bytes, j)), 256)
}

/// Whether limbs are the four limbs of 32 bytes.
pub open spec fn are_limbs_of<F: FieldExt>(limbs: Seq<AssignedLimb<F>>, bytes: Seq<u8>) -> bool {
    &&& limbs.len() == 4
    &&& forall|j: int|
        0 <= j < 4 ==> (#[trigger] limbs[j]).value is Some && limbs[j].value->0.value()
            == limb_number(bytes, j) % F::modulus()
}

/// Whether the integers of a signature check are those of a transaction.
pub open spec fn is_signature_of<F: FieldExt>(
    signature: AssignedSignature<F>,
    tx: TxSignData,
) -> bool {
    &&& are_limbs_of(signature.pk_x.limbs@, le_bytes(tx.pub_key.x.value(), 32))
    &&& are_limbs_of(signature.pk_y.limbs@, le_bytes(tx.pub_key.y.value(), 32))
    &&& are_limbs_of(signature.msg_hash.limbs@, le_bytes(tx.msg_hash.value(), 32))
}

/// Whether all constraints and the lookup hold on a row, in a circuit with these
/// rows.
pub open spec fn row_satisfied<F: FieldExt>(
    config: SignVerifyConfig<F>,
    grid: Grid,
    row: int,
    rows: int,
) -> bool {
    &&& config.is_zero_gate().holds(grid, row, F::modulus())
    &&& config.address_gate().holds(grid, row, F::modulus())
    &&& config.limbs_gate().holds(grid, row, F::modulus())
    &&& config.msg_hash_gate().holds(grid, row, F::modulus())
    &&& config.keccak_lookup().holds(grid, row, rows, F::modulus())
}

/// The constraints on the address, the limbs and the message hash hold where the
/// selector is zero.
proof fn lemma_ties_disabled<F: FieldExt>(config: SignVerifyConfig<F>, grid: Grid, row: int)
    requires
        1 < F::modulus(),
        config.selector_poly().eval(grid, row, F::modulus()) == 0,
    ensures
        config.address_gate().holds(grid, row, F::modulus()),
        config.limbs_gate().holds(grid, row, F::modulus()),
        config.msg_hash_gate().holds(grid, row, F::modulus()),
{
    let p = F::modulus();
    let selector = config.selector_poly();
    let bytes = Seq::new(32, |i: int| 0u8);
    lemma_tie(selector, config.address_poly(), config.hash_address_poly(), grid, row, p);
    lemma_tie(
        selector,
        config.msg_hash_rlc_poly(),
        config.msg_hash_bytes_rlc_poly(),
        grid,
        row,
        p,
    );
    lemma_limbs_gate(config, bytes, bytes, bytes, grid, row);
}

/// The constraint on the limbs holds where the selector is zero, and where the
/// limbs are those of the bytes.
proof fn lemma_limbs_gate<F: FieldExt>(
    config: SignVerifyConfig<F>,
    x: Seq<u8>,
    y: Seq<u8>,
    h: Seq<u8>,
    grid: Grid,
    row: int,
)
    requires
        1 < F::modulus(),
        x.len() == 32,
        y.len() == 32,
        h.len() == 32,
        config.selector_poly().eval(grid, row, F::modulus()) == 0 || {
            &&& cells_hold(
                advice_cells(config.pub_key@, 0).subrange(0, 32),
                x,
                grid,
                row,
                F::modulus(),
            )
            &&& cells_hold(
                advice_cells(config.pub_key@, 0).subrange(32, 64),
                y,
                grid,
                row,
                F::modulus(),
            )
            &&& cells_hold(
                advice_cells(config.msg_hash@, 0).subrange(0, 32),
                h,
                grid,
                row,
                F::modulus(),
            )
            &&& limbs_hold(advice_cells(config.pk_x_limbs@, 0), x, grid, row, F::modulus())
            &&& limbs_hold(advice_cells(config.pk_y_limbs@, 0), y, grid, row, F::modulus())
            &&& limbs_hold(advice_cells(config.msg_hash_limbs@, 0), h, grid, row, F::modulus())
        },
    ensures
        config.limbs_gate().holds(grid, row, F::modulus()),
{
    let p = F::modulus();
    let selector = config.selector_poly();
    let gate = config.limbs_gate();
    let x_limbs = advice_cells(config.pk_x_limbs@, 0);
    let y_limbs = advice_cells(config.pk_y_limbs@, 0);
    let h_limbs = advice_cells(config.msg_hash_limbs@, 0);
    let x_cells = advice_cells(config.pub_key@, 0).subrange(0, 32);
    let y_cells = advice_cells(config.pub_key@, 0).subrange(32, 64);
    let h_cells = advice_cells(config.msg_hash@, 0).subrange(0, 32);
    lemma_limb_polys(selector, x_limbs, x_cells, x, grid, row, p);
    lemma_limb_polys(selector, y_limbs, y_cells, y, grid, row, p);
    lemma_limb_polys(selector, h_limbs, h_cells, h, grid, row, p);
    assert forall|i: int| 0 <= i < gate.polys.len() implies (#[trigger] gate.polys[i]).eval(
        grid,
        row,
        p,
    ) == 0 by {
        if i < 4 {
            assert(gate.polys[i] == limb_polys(selector, x_limbs, x_cells, p)[i]);
        } else if i < 8 {
            assert(gate.polys[i] == limb_polys(selector, y_limbs, y_cells, p)[i - 4]);
        } else {
            assert(gate.polys[i] == limb_polys(selector, h_limbs, h_cells, p)[i - 8]);
        }
    }
}

/// Whether cells hold bytes.
spec fn cells_hold(cells: Seq<Poly>, bytes: Seq<u8>, grid: Grid, row: int, p: int) -> bool {
    forall|i: int| 0 <= i < 32 ==> (#[trigger] cells[i]).eval(grid, row, p) == bytes[i] as int % p
}

/// Whether cells hold the four limbs of bytes.
spec fn limbs_hold(limbs: Seq<Poly>, bytes: Seq<u8>, grid: Grid, row: int, p: int) -> bool {
    forall|j: int|
        0 <= j < 4 ==> (#[trigger] limbs[j]).eval(grid, row, p) == limb_number(bytes, j) % p
}

/// The constraints on the address, the limbs and the message hash hold on the row
/// of a signature.
proof fn lemma_ties_assigned<F: FieldExt>(
    config: SignVerifyConfig<F>,
    signature: AssignedSignature<F>,
    tx: TxSignData,
    pub_key_hash: Seq<u8>,
    region_index: int,
    randomness: int,
    grid: Grid,
    row: int,
)
    requires
        1 < F::modulus(),
        config.msg_hash_rlc_is_zero.value_inv == config.msg_hash_rlc_inv,
        pub_key_hash.len() == 32,
        is_signature_of(signature, tx),
        powers_at(config, randomness, grid, row),
        all_placed(
            signature_events(config, signature, tx, pub_key_hash, region_index, randomness),
            grid,
            row,
        ),
    ensures
        config.address_gate().holds(grid, row, F::modulus()),
        config.limbs_gate().holds(grid, row, F::modulus()),
        config.msg_hash_gate().holds(grid, row, F::modulus()),
{
    let p = F::modulus();
    let selector = config.selector_poly();
    let x = le_bytes(tx.pub_key.x.value(), 32);
    let y = le_bytes(tx.pub_key.y.value(), 32);
    let h = le_bytes(tx.msg_hash.value(), 32);
    lemma_signature_row(
        config,
        signature,
        tx,
        pub_key_hash,
        region_index,
        randomness,
        grid,
        row,
    );
    lemma_weighted_bytes(config.address_cells(), grid, row, p);
    lemma_assigned_address(config, pub_key_hash, grid, row);
    lemma_tie(selector, config.address_poly(), config.hash_address_poly(), grid, row, p);

    let keys = advice_cells(config.pub_key@, 0);
    let hashes = advice_cells(config.msg_hash@, 0);
    assert forall|i: int| 0 <= i < 32 implies (#[trigger] keys.subrange(0, 32)[i]).eval(
        grid,
        row,
        p,
    ) == x[i] as int % p by {
        assert(keys.subrange(0, 32)[i] == keys[0 + i]);
    }
    assert forall|i: int| 0 <= i < 32 implies (#[trigger] keys.subrange(32, 64)[i]).eval(
        grid,
        row,
        p,
    ) == y[i] as int % p by {
        assert(keys.subrange(32, 64)[i] == keys[32 + i]);
    }
    assert forall|i: int| 0 <= i < 32 implies (#[trigger] hashes.subrange(0, 32)[i]).eval(
        grid,
        row,
        p,
    ) == h[i] as int % p by {
        assert(hashes.subrange(0, 32)[i] == hashes[0 + i]);
    }
    lemma_limb_cells(config.pk_x_limbs@, signature.pk_x.limbs@, x, region_index, grid, row);
    lemma_limb_cells(config.pk_y_limbs@, signature.pk_y.limbs@, y, region_index, grid, row);
    lemma_limb_cells(config.msg_hash_limbs@, signature.msg_hash.limbs@, h, region_index, grid, row);
    lemma_limbs_gate(config, x, y, h, grid, row);

    let powers = instance_cells(config.power_of_randomness@);
    lemma_powers(config, randomness, grid, row);
    law_random_linear_combine_expr(hashes, powers, randomness, grid, row, p);
    assert forall|i: int| 0 <= i < 32 implies #[trigger] values(hashes, grid, row, p)[i] % p
        == #[trigger] ints(h)[i] % p by {
        assert(hashes[i] == hashes[0 + i]);
        lemma_mod_twice(h[i] as int, p);
    }
    lemma_rlc_residues(values(hashes, grid, row, p), ints(h), randomness, p);
    lemma_tie(
        selector,
        config.msg_hash_rlc_poly(),
        config.msg_hash_bytes_rlc_poly(),
        grid,
        row,
        p,
    );
}

/// The limb columns of a row hold the limbs that were copied into them.
proof fn lemma_limb_cells<F: FieldExt>(
    columns: Seq<Column<Advice>>,
    limbs: Seq<AssignedLimb<F>>,
    bytes: Seq<u8>,
    region_index: int,
    grid: Grid,
    row: int,
)
    requires
        1 < F::modulus(),
        columns.len() == 4,
        are_limbs_of(limbs, bytes),
        all_placed(copy_events(limbs, indices(columns), 0, region_index), grid, row),
    ensures
        limbs_hold(advice_cells(columns, 0), bytes, grid, row, F::modulus()),
{
    let p = F::modulus();
    let events = copy_events(limbs, indices(columns), 0, region_index);
    assert forall|j: int| 0 <= j < 4 implies (#[trigger] advice_cells(columns, 0)[j]).eval(
        grid,
        row,
        p,
    ) == limb_number(bytes, j) % p by {
        law_copied(limbs, indices(columns), 0, region_index, j);
        assert(events[2 * j].placed(grid, row));
        assert(limbs[j].value->0.value() == limb_number(bytes, j) % p);
        lemma_mod_twice(limb_number(bytes, j), p);
    }
}

/// Whether the cells are as `assign` leaves them, if the row of the signature and
/// the keccak table are at the given rows: the selector is on at that row and
/// nowhere else, and the instance columns hold the powers of the randomness there.
pub open spec fn assigned_at<F: FieldExt>(
    config: SignVerifyConfig<F>,
    signature: AssignedSignature<F>,
    tx: TxSignData,
    pub_key_hash: Seq<u8>,
    randomness: int,
    regions: Seq<RegionView>,
    grid: Grid,
    signature_start: int,
    keccak_start: int,
) -> bool {
    let added = assigned_regions(config, signature, tx, pub_key_hash, randomness, regions);
    &&& added[regions.len() as int + 1].placed(grid, signature_start)
    &&& added[regions.len() as int + 2].placed(grid, keccak_start)
    &&& forall|row: int|
        row != signature_start ==> #[trigger] (grid.selector)(config.q_enable.index as int, row)
            == 0
    &&& powers_at(config, randomness, grid, signature_start)
}

/// An honest assignment satisfies the circuit, wherever its regions start: all
/// constraints and the lookup in the keccak table hold on every row. The integers
/// of the signature check are those of the transaction, unless the message hash is
/// zero.
pub proof fn law_assignment_satisfies<F: FieldExt>(
    config: SignVerifyConfig<F>,
    b: int,
    s: int,
    signature: AssignedSignature<F>,
    tx: TxSignData,
    pub_key_hash: Seq<u8>,
    randomness: int,
    regions: Seq<RegionView>,
    grid: Grid,
    signature_start: int,
    keccak_start: int,
    rows: int,
    row: int,
)
    requires
        1 < F::modulus(),
        config.configured(b, s),
        pub_key_hash.len() == 32,
        assigned_at(
            config,
            signature,
            tx,
            pub_key_hash,
            randomness,
            regions,
            grid,
            signature_start,
            keccak_start,
        ),
        ({
            let combined = msg_hash_rlc_value(tx.msg_hash, randomness, F::modulus());
            combined == 0 || (has_inverse(combined, F::modulus()) && is_signature_of(signature, tx))
        }),
        0 <= keccak_start,
        keccak_start + 1 < rows,
    ensures
        row_satisfied(config, grid, row, rows),
{
    let p = F::modulus();
    let n = regions.len() as int;
    let gate = config.is_zero_gate();
    let lookup = config.keccak_lookup();
    let signature_steps = signature_events(
        config,
        signature,
        tx,
        pub_key_hash,
        n + 1,
        randomness,
    );
    let input = pub_key_bytes(tx.pub_key);
    let keccak_steps = keccak_row(indices(config.keccak_table@), 0, seq![0, 0, 0, 0]) + keccak_row(
        indices(config.keccak_table@),
        1,
        keccak_values(input, pub_key_hash, randomness, p),
    );
    let added = assigned_regions(config, signature, tx, pub_key_hash, randomness, regions);
    assert(added[n + 1].events =~= signature_steps);
    assert(added[n + 2].events =~= keccak_steps);
    lemma_keccak_rows(config, input, pub_key_hash, randomness, grid, keccak_start);
    lemma_small_mod(0, p as nat);
    lemma_small_mod(1, p as nat);
    if row == signature_start {
        lemma_signature_row(
            config,
            signature,
            tx,
            pub_key_hash,
            n + 1,
            randomness,
            grid,
            row,
        );
        law_is_zero_assigned(
            config.q_enable_poly(),
            config.msg_hash_rlc_poly(),
            config.msg_hash_rlc_inv_poly(),
            seq![config.q_enable_poly(), config.msg_hash_rlc_poly()],
            grid,
            row,
            p,
        );
        lemma_selector(config, grid, row);
        if config.msg_hash_rlc_poly().eval(grid, row, p) == 0 {
            lemma_disabled(config, grid, row, keccak_start);
            assert(lookup.matches_at(grid, row, keccak_start, p));
            lemma_ties_disabled(config, grid, row);
        } else {
            lemma_ties_assigned(
                config,
                signature,
                tx,
                pub_key_hash,
                n + 1,
                randomness,
                grid,
                row,
            );
            lemma_combined_bytes(config, tx, pub_key_hash, randomness, grid, row);
            lemma_mod_twice(rlc(ints(input), randomness), p);
            lemma_mod_twice(64, p);
            lemma_mod_twice(rlc(ints(pub_key_hash), randomness), p);
            assert(lookup.matches_at(grid, row, keccak_start + 1, p)) by {
                assert forall|i: int| 0 <= i < lookup.table_map.len() implies (
                #[trigger] lookup.table_map[i]).0.eval(grid, row, p)
                    == lookup.table_map[i].1.eval(grid, keccak_start + 1, p) by {
                    assert(i == 0 || i == 1 || i == 2 || i == 3);
                    assert(lookup.table_map[i].1 == config.keccak_poly(i));
                }
            }
        }
    } else {
        let q = config.q_enable_poly();
        assert((grid.selector)(config.q_enable.index as int, row) == 0);
        assert(q.eval(grid, row, p) == 0);
        let value = config.msg_hash_rlc_poly();
        let not_zero = Poly::Constant(1).minus(config.msg_hash_rlc_is_zero.is_zero_expression@);
        lemma_mul_basics(not_zero.eval(grid, row, p));
        lemma_disabled(config, grid, row, keccak_start);
        assert(lookup.matches_at(grid, row, keccak_start, p));
        lemma_ties_disabled(config, grid, row);
        lemma_mul_basics(value.eval(grid, row, p));
        let is_zero = is_zero_poly(value, config.msg_hash_rlc_inv_poly());
        lemma_mul_basics(is_zero.eval(grid, row, p));
        assert(gate.polys[0] == q.times(value).times(is_zero));
    }
}

/// What the circuit forces. On a row that is enabled, where the instance columns
/// hold the powers of the randomness and the message hash is not zero (every field
/// element but zero has an inverse): if the constraint on the message hash and the
/// lookup hold, then some row of the keccak table is enabled and holds the combined
/// bytes of the public key, big-endian, with their number, and the combined bytes
/// of the hash of the public key.
pub proof fn law_lookup_forces<F: FieldExt>(
    config: SignVerifyConfig<F>,
    b: int,
    s: int,
    randomness: int,
    grid: Grid,
    rows: int,
    row: int,
)
    requires
        1 < F::modulus(),
        config.configured(b, s),
        config.q_enable_poly().eval(grid, row, F::modulus()) == 1,
        config.msg_hash_rlc_poly().eval(grid, row, F::modulus()) != 0,
        has_inverse(config.msg_hash_rlc_poly().eval(grid, row, F::modulus()), F::modulus()),
        powers_at(config, randomness, grid, row),
        config.is_zero_gate().holds(grid, row, F::modulus()),
        config.keccak_lookup().holds(grid, row, rows, F::modulus()),
    ensures
        exists|t: int|
            {
                &&& 0 <= t < rows
                &&& #[trigger] config.keccak_poly(0).eval(grid, t, F::modulus()) == 1
                &&& config.keccak_poly(1).eval(grid, t, F::modulus()) == rlc(
                    values(
                        reversed_halves(advice_cells(config.pub_key@, 0)),
                        grid,
                        row,
                        F::modulus(),
                    ),
                    randomness,
                ) % F::modulus()
                &&& config.keccak_poly(2).eval(grid, t, F::modulus()) == 64int % F::modulus()
                &&& config.keccak_poly(3).eval(grid, t, F::modulus()) == rlc(
                    values(advice_cells(config.pub_key_hash@, 0), grid, row, F::modulus()),
                    randomness,
                ) % F::modulus()
            },
{
    let p = F::modulus();
    let lookup = config.keccak_lookup();
    law_is_zero_forced(
        config.q_enable_poly(),
        config.msg_hash_rlc_poly(),
        config.msg_hash_rlc_inv_poly(),
        seq![config.q_enable_poly(), config.msg_hash_rlc_poly()],
        grid,
        row,
        p,
    );
    lemma_selector(config, grid, row);
    let powers = instance_cells(config.power_of_randomness@);
    let key = reversed_halves(advice_cells(config.pub_key@, 0));
    let hash = advice_cells(config.pub_key_hash@, 0);
    lemma_powers(config, randomness, grid, row);
    law_random_linear_combine_expr(key, powers, randomness, grid, row, p);
    law_random_linear_combine_expr(hash, powers, randomness, grid, row, p);
    lemma_mod_twice(rlc(values(key, grid, row, p), randomness), p);
    lemma_mod_twice(64, p);
    lemma_mod_twice(rlc(values(hash, grid, row, p), randomness), p);
    let t = choose|t: int| 0 <= t < rows && #[trigger] lookup.matches_at(grid, row, t, p);
    assert(lookup.table_map[0].1.eval(grid, t, p) == 1);
    assert(lookup.table_map[1].0.eval(grid, row, p) == lookup.table_map[1].1.eval(grid, t, p));
    assert(lookup.table_map[2].0.eval(grid, row, p) == lookup.table_map[2].1.eval(grid, t, p));
    assert(lookup.table_map[3].0.eval(grid, row, p) == lookup.table_map[3].1.eval(grid, t, p));
    assert(config.keccak_poly(0).eval(grid, t, p) == 1);
}

/// Whether a row of the keccak table is that of an input and its digest.
pub open spec fn is_keccak_row<F: FieldExt>(
    config: SignVerifyConfig<F>,
    input: Seq<u8>,
    output: Seq<u8>,
    randomness: int,
    grid: Grid,
    row: int,
) -> bool {
    forall|k: int|
        0 <= k < 4 ==> #[trigger] config.keccak_poly(k).eval(grid, row, F::modulus())
            == keccak_values(input, output, randomness, F::modulus())[k]
}

/// What the circuit forces if the keccak table is honest. If every enabled row of
/// the table is that of some input of 64 bytes and its digest, then an enabled row
/// with a message hash other than zero holds a public key and a hash that combine
/// as such an input and its digest do.
pub proof fn law_honest_table_forces<F: FieldExt>(
    config: SignVerifyConfig<F>,
    b: int,
    s: int,
    digest: spec_fn(Seq<u8>) -> Seq<u8>,
    randomness: int,
    grid: Grid,
    rows: int,
    row: int,
)
    requires
        1 < F::modulus(),
        config.configured(b, s),
        config.q_enable_poly().eval(grid, row, F::modulus()) == 1,
        config.msg_hash_rlc_poly().eval(grid, row, F::modulus()) != 0,
        has_inverse(config.msg_hash_rlc_poly().eval(grid, row, F::modulus()), F::modulus()),
        powers_at(config, randomness, grid, row),
        config.is_zero_gate().holds(grid, row, F::modulus()),
        config.keccak_lookup().holds(grid, row, rows, F::modulus()),
        forall|t: int|
            0 <= t < rows && #[trigger] config.keccak_poly(0).eval(grid, t, F::modulus()) == 1
                ==> exists|input: Seq<u8>|
                input.len() == 64 && #[trigger] is_keccak_row(
                    config,
                    input,
                    digest(input),
                    randomness,
                    grid,
                    t,
                ),
    ensures
        exists|input: Seq<u8>|
            {
                &&& input.len() == 64
                &&& #[trigger] rlc(ints(input), randomness) % F::modulus() == rlc(
                    values(
                        reversed_halves(advice_cells(config.pub_key@, 0)),
                        grid,
                        row,
                        F::modulus(),
                    ),
                    randomness,
                ) % F::modulus()
                &&& rlc(ints(digest(input)), randomness) % F::modulus() == rlc(
                    values(advice_cells(config.pub_key_hash@, 0), grid, row, F::modulus()),
                    randomness,
                ) % F::modulus()
            },
{
    let p = F::modulus();
    law_lookup_forces(config, b, s, randomness, grid, rows, row);
    let key = rlc(
        values(reversed_halves(advice_cells(config.pub_key@, 0)), grid, row, p),
        randomness,
    ) % p;
    let hash = rlc(values(advice_cells(config.pub_key_hash@, 0), grid, row, p), randomness) % p;
    let t = choose|t: int|
        {
            &&& 0 <= t < rows
            &&& #[trigger] config.keccak_poly(0).eval(grid, t, p) == 1
            &&& config.keccak_poly(1).eval(grid, t, p) == key
            &&& config.keccak_poly(2).eval(grid, t, p) == 64int % p
            &&& config.keccak_poly(3).eval(grid, t, p) == hash
        };
    let input = choose|input: Seq<u8>|
        input.len() == 64 && #[trigger] is_keccak_row(
            config,
            input,
            digest(input),
            randomness,
            grid,
            t,
        );
    assert(config.keccak_poly(1).eval(grid, t, p) == rlc(ints(input), randomness) % p);
    assert(config.keccak_poly(3).eval(grid, t, p) == rlc(ints(digest(input)), randomness) % p);
}

/// The address that the circuit forces. On a row that is enabled, with a message
/// hash other than zero (every field element but zero has an inverse): if the
/// constraints on the message hash and on the address hold, then the address is the
/// number that the last 20 bytes of the hash of the public key stand for,
/// big-endian.
pub proof fn law_address_forced<F: FieldExt>(
    config: SignVerifyConfig<F>,
    b: int,
    s: int,
    grid: Grid,
    row: int,
)
    requires
        1 < F::modulus(),
        config.configured(b, s),
        config.q_enable_poly().eval(grid, row, F::modulus()) == 1,
        config.msg_hash_rlc_poly().eval(grid, row, F::modulus()) != 0,
        has_inverse(config.msg_hash_rlc_poly().eval(grid, row, F::modulus()), F::modulus()),
        config.is_zero_gate().holds(grid, row, F::modulus()),
        config.address_gate().holds(grid, row, F::modulus()),
    ensures
        config.address_poly().eval(grid, row, F::modulus()) == rlc(
            Seq::new(
                20,
                |i: int|
                    advice_cells(config.pub_key_hash@, 0)[31 - i].eval(grid, row, F::modulus()),
            ),
            256,
        ) % F::modulus(),
{
    let p = F::modulus();
    law_is_zero_forced(
        config.q_enable_poly(),
        config.msg_hash_rlc_poly(),
        config.msg_hash_rlc_inv_poly(),
        seq![config.q_enable_poly(), config.msg_hash_rlc_poly()],
        grid,
        row,
        p,
    );
    lemma_selector(config, grid, row);
    lemma_weighted_bytes(config.address_cells(), grid, row, p);
    let address = config.address_poly();
    let expected = config.hash_address_poly();
    assert(config.address_gate().polys[0] == config.selector_poly().times(
        address.minus(expected),
    ));
    lemma_tie_forced(config.selector_poly(), address, expected, grid, row, p);
    assert(values(config.address_cells(), grid, row, p) =~= Seq::new(
        20,
        |i: int| advice_cells(config.pub_key_hash@, 0)[31 - i].eval(grid, row, p),
    ));
}

/// The limbs that the circuit forces. On a row that is enabled, with a message hash
/// other than zero: if the constraints on the message hash and on the limbs hold,
/// then the limbs that the signature is checked with are those of the bytes of the
/// public key and of the message hash, nine bytes to a limb.
pub proof fn law_limbs_forced<F: FieldExt>(
    config: SignVerifyConfig<F>,
    b: int,
    s: int,
    grid: Grid,
    row: int,
    j: int,
)
    requires
        1 < F::modulus(),
        config.configured(b, s),
        config.q_enable_poly().eval(grid, row, F::modulus()) == 1,
        config.msg_hash_rlc_poly().eval(grid, row, F::modulus()) != 0,
        has_inverse(config.msg_hash_rlc_poly().eval(grid, row, F::modulus()), F::modulus()),
        config.is_zero_gate().holds(grid, row, F::modulus()),
        config.limbs_gate().holds(grid, row, F::modulus()),
        0 <= j < 4,
    ensures
        advice_cells(config.pk_x_limbs@, 0)[j].eval(grid, row, F::modulus()) == rlc(
            values(
                limb_part(advice_cells(config.pub_key@, 0).subrange(0, 32), j),
                grid,
                row,
                F::modulus(),
            ),
            256,
        ) % F::modulus(),
        advice_cells(config.pk_y_limbs@, 0)[j].eval(grid, row, F::modulus()) == rlc(
            values(
                limb_part(advice_cells(config.pub_key@, 0).subrange(32, 64), j),
                grid,
                row,
                F::modulus(),
            ),
            256,
        ) % F::modulus(),
        advice_cells(config.msg_hash_limbs@, 0)[j].eval(grid, row, F::modulus()) == rlc(
            values(limb_part(advice_cells(config.msg_hash@, 0), j), grid, row, F::modulus()),
            256,
        ) % F::modulus(),
{
    let p = F::modulus();
    let selector = config.selector_poly();
    let gate = config.limbs_gate();
    law_is_zero_forced(
        config.q_enable_poly(),
        config.msg_hash_rlc_poly(),
        config.msg_hash_rlc_inv_poly(),
        seq![config.q_enable_poly(), config.msg_hash_rlc_poly()],
        grid,
        row,
        p,
    );
    lemma_selector(config, grid, row);
    let x_limbs = advice_cells(config.pk_x_limbs@, 0);
    let y_limbs = advice_cells(config.pk_y_limbs@, 0);
    let h_limbs = advice_cells(config.msg_hash_limbs@, 0);
    let x_cells = advice_cells(config.pub_key@, 0).subrange(0, 32);
    let y_cells = advice_cells(config.pub_key@, 0).subrange(32, 64);
    let h_cells = advice_cells(config.msg_hash@, 0).subrange(0, 32);
    assert(h_cells =~= advice_cells(config.msg_hash@, 0));
    assert(gate.polys[j] == limb_polys(selector, x_limbs, x_cells, p)[j]);
    assert(gate.polys[4 + j] == limb_polys(selector, y_limbs, y_cells, p)[j]);
    assert(gate.polys[8 + j] == limb_polys(selector, h_limbs, h_cells, p)[j]);
    lemma_weighted_bytes(limb_part(x_cells, j), grid, row, p);
    lemma_weighted_bytes(limb_part(y_cells, j), grid, row, p);
    lemma_weighted_bytes(limb_part(h_cells, j), grid, row, p);
    let weights = byte_weights(p);
    let for_x = rlc_expr_poly(limb_part(x_cells, j), weights);
    let for_y = rlc_expr_poly(limb_part(y_cells, j), weights);
    let for_h = rlc_expr_poly(limb_part(h_cells, j), weights);
    lemma_tie_forced(selector, x_limbs[j], for_x, grid, row, p);
    lemma_tie_forced(selector, y_limbs[j], for_y, grid, row, p);
    lemma_tie_forced(selector, h_limbs[j], for_h, grid, row, p);
}

/// The combined message hash that the circuit forces. On a row that is enabled,
/// where the instance columns hold the powers of the randomness and the combined
/// message hash is not zero: if the two constraints on it hold, then it is the
/// combination of the bytes of the message hash.
pub proof fn law_msg_hash_forced<F: FieldExt>(
    config: SignVerifyConfig<F>,
    b: int,
    s: int,
    randomness: int,
    grid: Grid,
    row: int,
)
    requires
        1 < F::modulus(),
        config.configured(b, s),
        config.q_enable_poly().eval(grid, row, F::modulus()) == 1,
        config.msg_hash_rlc_poly().eval(grid, row, F::modulus()) != 0,
        has_inverse(config.msg_hash_rlc_poly().eval(grid, row, F::modulus()), F::modulus()),
        powers_at(config, randomness, grid, row),
        config.is_zero_gate().holds(grid, row, F::modulus()),
        config.msg_hash_gate().holds(grid, row, F::modulus()),
    ensures
        config.msg_hash_rlc_poly().eval(grid, row, F::modulus()) == rlc(
            values(advice_cells(config.msg_hash@, 0), grid, row, F::modulus()),
            randomness,
        ) % F::modulus(),
{
    let p = F::modulus();
    law_is_zero_forced(
        config.q_enable_poly(),
        config.msg_hash_rlc_poly(),
        config.msg_hash_rlc_inv_poly(),
        seq![config.q_enable_poly(), config.msg_hash_rlc_poly()],
        grid,
        row,
        p,
    );
    lemma_selector(config, grid, row);
    let combined = config.msg_hash_rlc_poly();
    let expected = config.msg_hash_bytes_rlc_poly();
    assert(config.msg_hash_gate().polys[0] == config.selector_poly().times(
        combined.minus(expected),
    ));
    lemma_tie_forced(config.selector_poly(), combined, expected, grid, row, p);
    lemma_powers(config, randomness, grid, row);
    law_random_linear_combine_expr(
        advice_cells(config.msg_hash@, 0),
        instance_cells(config.power_of_randomness@),
        randomness,
        grid,
        row,
        p,
    );
}

/// Where the lookup is disabled, because the row holds no signature or its message
/// hash is zero, it holds whatever the keccak table was loaded with: the table has
/// a row of zeros.
pub proof fn law_disabled_lookup<F: FieldExt>(
    config: SignVerifyConfig<F>,
    b: int,
    s: int,
    auxs: Seq<KeccakAux>,
    randomness: int,
    grid: Grid,
    keccak_start: int,
    rows: int,
    row: int,
)
    requires
        1 < F::modulus(),
        config.configured(b, s),
        all_placed(
            keccak_events(indices(config.keccak_table@), auxs, randomness, F::modulus()),
            grid,
            keccak_start,
        ),
        0 <= keccak_start < rows,
        config.q_enable_poly().eval(grid, row, F::modulus()) == 0
            || config.msg_hash_rlc_poly().eval(grid, row, F::modulus()) == 0,
    ensures
        config.keccak_lookup().holds(grid, row, rows, F::modulus()),
{
    let p = F::modulus();
    let q = config.q_enable_poly().eval(grid, row, p);
    let inverse = config.msg_hash_rlc_inv_poly().eval(grid, row, p);
    let is_zero = config.msg_hash_rlc_is_zero.is_zero_expression@;
    let not_zero = Poly::Constant(1).minus(is_zero);
    law_keccak_table(config, auxs, randomness, grid, keccak_start);
    lemma_small_mod(0, p as nat);
    lemma_small_mod(1, p as nat);
    lemma_mul_basics(inverse);
    lemma_mul_basics(q);
    lemma_mul_basics(not_zero.eval(grid, row, p));
    if q != 0 {
        assert(is_zero.eval(grid, row, p) == 1);
        assert(not_zero.eval(grid, row, p) == 0);
    }
    lemma_disabled(config, grid, row, keccak_start);
    assert(config.keccak_lookup().matches_at(grid, row, keccak_start, p));
}

/// A step, `n` rows further down in its region.
pub open spec fn moved_down(event: EventView, n: int) -> EventView {
    match event {
        EventView::EnableSelector { selector, simple, offset } => EventView::EnableSelector {
            selector,
            simple,
            offset: offset + n,
        },
        EventView::AssignAdvice { column, offset, value } => EventView::AssignAdvice {
            column,
            offset: offset + n,
            value,
        },
        EventView::ConstrainEqual { left, right } => event,
    }
}

/// More inputs only add rows to the keccak table: the table for `a` and then `b` is
/// that for `a`, and below it that for `b` without its row of zeros.
pub proof fn law_keccak_appended(
    table: Seq<int>,
    a: Seq<KeccakAux>,
    b: Seq<KeccakAux>,
    randomness: int,
    p: int,
)
    ensures
        keccak_events(table, a + b, randomness, p) == keccak_events(table, a, randomness, p)
            + keccak_events(table, b, randomness, p).skip(4).map_values(
            |e: EventView| moved_down(e, a.len() as int),
        ),
    decreases b.len(),
{
    let n = a.len() as int;
    let first = keccak_events(table, a, randomness, p);
    let second = keccak_events(table, b, randomness, p);
    let moved = second.skip(4).map_values(|e: EventView| moved_down(e, n));
    if b.len() == 0 {
        assert(a + b =~= a);
        assert(moved =~= Seq::<EventView>::empty());
        assert(first + moved =~= first);
    } else {
        let before = b.drop_last();
        law_keccak_appended(table, a, before, randomness, p);
        lemma_keccak_events_len(table, before, randomness, p);
        let held = keccak_values(b.last().input@, b.last().output@, randomness, p);
        let events = keccak_events(table, before, randomness, p);
        assert((a + b).drop_last() =~= a + before);
        assert((a + b).last() == b.last());
        assert(keccak_row(table, n + b.len(), held) =~= keccak_row(
            table,
            b.len() as int,
            held,
        ).map_values(|e: EventView| moved_down(e, n)));
        assert(moved =~= events.skip(4).map_values(|e: EventView| moved_down(e, n)) + keccak_row(
            table,
            n + b.len(),
            held,
        ));
        assert(keccak_events(table, a + b, randomness, p) =~= first + moved);
    }
}

/// The keccak table takes four steps for its row of zeros and for each input.
proof fn lemma_keccak_events_len(table: Seq<int>, auxs: Seq<KeccakAux>, randomness: int, p: int)
    ensures
        keccak_events(table, auxs, randomness, p).len() == 4 * (auxs.len() + 1),
    decreases auxs.len(),
{
    if auxs.len() > 0 {
        lemma_keccak_events_len(table, auxs.drop_last(), randomness, p);
    }
}

/// The steps that copy limbs: each limb is assigned to its column, and its new
/// cell is constrained to equal the cell that it comes from.
pub proof fn law_copied<F: FieldExt>(
    limbs: Seq<AssignedLimb<F>>,
    dst: Seq<int>,
    offset: int,
    region_index: int,
    i: int,
)
    requires
        0 <= i < limbs.len(),
    ensures
        copy_events(limbs, dst, offset, region_index).len() == 2 * limbs.len(),
        copy_events(limbs, dst, offset, region_index)[2 * i] == (EventView::AssignAdvice {
            column: dst[i],
            offset,
            value: limbs[i].value->0.value(),
        }),
        copy_events(limbs, dst, offset, region_index)[2 * i + 1] == (EventView::ConstrainEqual {
            left: CellView { region_index, row_offset: offset, column: dst[i] },
            right: limbs[i].cell@,
        }),
    decreases limbs.len(),
{
    let before = limbs.drop_last();
    if before.len() == 0 {
        assert(copy_events(before, dst, offset, region_index).len() == 0);
    } else {
        law_copied(before, dst, offset, region_index, if i < before.len() {
            i
        } else {
            0
        });
    }
}

/// Once copy constraints are enabled on columns, they are enabled on those and
/// on the ones before, on no others, and on none twice.
pub proof fn law_with_equality(equality: Seq<int>, columns: Seq<int>)
    ensures
        forall|c: int|
            #[trigger] with_equality(equality, columns).contains(c) <==> equality.contains(c)
                || columns.contains(c),
        equality.no_duplicates() ==> with_equality(equality, columns).no_duplicates(),
    decreases columns.len(),
{
    if columns.len() == 0 {
        assert(forall|c: int| !columns.contains(c));
    } else {
        let before = with_equality(equality, columns.drop_last());
        let after = with_equality(equality, columns);
        let last = columns.last();
        law_with_equality(equality, columns.drop_last());
        assert(columns =~= columns.drop_last().push(last));
        assert forall|c: int| columns.contains(c) <==> columns.drop_last().contains(c) || c
            == last by {
            if columns.drop_last().contains(c) {
                let k = choose|k: int|
                    0 <= k < columns.drop_last().len() && columns.drop_last()[k] == c;
                assert(columns[k] == c);
            }
            assert(columns[columns.len() - 1] == last);
        }
        assert forall|c: int| #[trigger] after.contains(c) <==> before.contains(c) || c == last by {
            if !before.contains(last) {
                assert(after[before.len() as int] == last);
                if before.contains(c) {
                    let k = choose|k: int| 0 <= k < before.len() && before[k] == c;
                    assert(after[k] == c);
                }
            }
        }
    }
}

/// What the circuit is configured with lets every limb column take part in copy
/// constraints.
pub proof fn law_limbs_copyable<F: FieldExt>(
    config: SignVerifyConfig<F>,
    equality: Seq<int>,
    i: int,
)
    requires
        0 <= i < 4,
    ensures
        ({
            let enabled = with_equality(
                with_equality(
                    with_equality(equality, indices(config.pk_x_limbs@)),
                    indices(config.pk_y_limbs@),
                ),
                indices(config.msg_hash_limbs@),
            );
            &&& enabled.contains(config.pk_x_limbs@[i].index as int)
            &&& enabled.contains(config.pk_y_limbs@[i].index as int)
            &&& enabled.contains(config.msg_hash_limbs@[i].index as int)
        }),
{
    let x = indices(config.pk_x_limbs@);
    let y = indices(config.pk_y_limbs@);
    let h = indices(config.msg_hash_limbs@);
    law_with_equality(equality, x);
    law_with_equality(with_equality(equality, x), y);
    law_with_equality(with_equality(with_equality(equality, x), y), h);
    assert(x[i] == config.pk_x_limbs@[i].index);
    assert(y[i] == config.pk_y_limbs@[i].index);
    assert(h[i] == config.msg_hash_limbs@[i].index);
}

/// The bytes of a public key that are hashed are its two coordinates, big-endian.
pub proof fn law_pub_key_bytes(pub_key: Secp256k1Affine)
    ensures
        pub_key_bytes(pub_key).len() == 64,
        le_value(pub_key_bytes(pub_key).subrange(0, 32).reverse()) == pub_key.x.value(),
        le_value(pub_key_bytes(pub_key).subrange(32, 64).reverse()) == pub_key.y.value(),
{
    let bytes = pub_key_bytes(pub_key);
    let x = pub_key.x.value();
    let y = pub_key.y.value();
    assert(bytes.subrange(0, 32).reverse() =~= le_bytes(x, 32));
    assert(bytes.subrange(32, 64).reverse() =~= le_bytes(y, 32));
    pub_key.x.lemma_value_range();
    pub_key.y.lemma_value_range();
    lemma_pow_256_32();
    lemma_le_value(x, 32);
    lemma_le_value(y, 32);
}

/// The keccak table, once it is assigned: its first row holds zeros, and then
/// each input has a row with its combined bytes, its length, and the combined
/// bytes of its digest.
pub proof fn law_keccak_table<F: FieldExt>(
    config: SignVerifyConfig<F>,
    auxs: Seq<KeccakAux>,
    randomness: int,
    grid: Grid,
    start: int,
)
    requires
        1 < F::modulus(),
        all_placed(
            keccak_events(indices(config.keccak_table@), auxs, randomness, F::modulus()),
            grid,
            start,
        ),
    ensures
        forall|k: int|
            0 <= k < 4 ==> #[trigger] config.keccak_poly(k).eval(grid, start, F::modulus()) == 0,
        forall|i: int, k: int|
            0 <= i < auxs.len() && 0 <= k < 4 ==> #[trigger] config.keccak_poly(k).eval(
                grid,
                start + 1 + i,
                F::modulus(),
            ) == keccak_values(
                (#[trigger] auxs[i]).input@,
                auxs[i].output@,
                randomness,
                F::modulus(),
            )[k],
    decreases auxs.len(),
{
    let p = F::modulus();
    let table = indices(config.keccak_table@);
    if auxs.len() == 0 {
        let zeros = seq![0int, 0, 0, 0];
        assert(forall|k: int| 0 <= k < 4 ==> #[trigger] zeros[k] == 0);
        lemma_keccak_row(config, 0, zeros, grid, start);
    } else {
        let before = auxs.drop_last();
        let n = before.len() as int;
        let held = keccak_values(auxs.last().input@, auxs.last().output@, randomness, p);
        lemma_placed_both(
            keccak_events(table, before, randomness, p),
            keccak_row(table, n + 1, held),
            grid,
            start,
        );
        law_keccak_table(config, before, randomness, grid, start);
        lemma_keccak_values(auxs.last().input@, auxs.last().output@, randomness, p);
        lemma_keccak_row(config, n + 1, held, grid, start);
        assert forall|i: int, k: int| 0 <= i < auxs.len() && 0 <= k < 4 implies (
        #[trigger] config.keccak_poly(k).eval(grid, start + 1 + i, p)) == keccak_values(
            (#[trigger] auxs[i]).input@,
            auxs[i].output@,
            randomness,
            p,
        )[k] by {
            if i < n {
                assert(before[i] == auxs[i]);
            } else {
                assert(start + 1 + i == start + (n + 1));
            }
        }
    }
}

/// What a copied integer has in the column with number `i`.
spec fn limb_value<F: FieldExt>(limbs: Seq<AssignedLimb<F>>, i: int) -> int {
    limbs[i].value->0.value()
}

/// What the row of a signature has in the column with number `c`, counted from
/// the first column of the circuit.
spec fn signature_value<F: FieldExt>(
    signature: AssignedSignature<F>,
    tx: TxSignData,
    pub_key_hash: Seq<u8>,
    randomness: int,
    c: int,
) -> int {
    let p = F::modulus();
    let combined = msg_hash_rlc_value(tx.msg_hash, randomness, p);
    if 0 <= c < 32 {
        le_bytes(tx.pub_key.x.value(), 32)[c] as int % p
    } else if 32 <= c < 64 {
        le_bytes(tx.pub_key.y.value(), 32)[c - 32] as int % p
    } else if 64 <= c < 68 {
        limb_value(signature.pk_x.limbs@, c - 64)
    } else if 68 <= c < 72 {
        limb_value(signature.pk_y.limbs@, c - 68)
    } else if 72 <= c < 104 {
        le_bytes(tx.msg_hash.value(), 32)[c - 72] as int % p
    } else if 104 <= c < 108 {
        limb_value(signature.msg_hash.limbs@, c - 104)
    } else if c == 108 {
        address_value(pub_key_hash, p)
    } else if 109 <= c < 141 {
        pub_key_hash[c - 109] as int % p
    } else if c == 141 {
        combined
    } else {
        inverse_or_zero(combined, p)
    }
}

/// The cells of an honest assignment: the row of the signature, the keccak table,
/// and the powers of the randomness on every row.
spec fn honest_grid<F: FieldExt>(
    config: SignVerifyConfig<F>,
    b: int,
    s: int,
    signature: AssignedSignature<F>,
    tx: TxSignData,
    pub_key_hash: Seq<u8>,
    randomness: int,
    signature_start: int,
    keccak_start: int,
) -> Grid {
    let powers = indices(config.power_of_randomness@);
    Grid {
        selector: |c: int, row: int|
            if c == s && row == signature_start {
                1int
            } else {
                0
            },
        fixed: |c: int, row: int| 0int,
        advice: |c: int, row: int|
            if row == signature_start && b <= c < b + 143 {
                signature_value(signature, tx, pub_key_hash, randomness, c - b)
            } else if row == keccak_start + 1 && b + 143 <= c < b + 147 {
                keccak_values(
                    pub_key_bytes(tx.pub_key),
                    pub_key_hash,
                    randomness,
                    F::modulus(),
                )[c - b - 143]
            } else {
                0
            },
        instance: |c: int, row: int| pow(randomness, (powers.index_of(c) + 1) as nat),
    }
}

/// Steps that are placed both are placed one after the other.
proof fn lemma_placed_joined(a: Seq<EventView>, b: Seq<EventView>, grid: Grid, start: int)
    requires
        all_placed(a, grid, start),
        all_placed(b, grid, start),
    ensures
        all_placed(a + b, grid, start),
{
    assert forall|i: int| 0 <= i < (a + b).len() implies (#[trigger] (a + b)[i]).placed(
        grid,
        start,
    ) by {
        if i < a.len() {
            assert((a + b)[i] == a[i]);
        } else {
            assert((a + b)[i] == b[i - a.len()]);
        }
    }
}

/// Copied limbs are placed where their columns hold their values.
proof fn lemma_copies_placed<F: FieldExt>(
    limbs: Seq<AssignedLimb<F>>,
    dst: Seq<int>,
    region_index: int,
    grid: Grid,
    row: int,
)
    requires
        forall|i: int|
            0 <= i < limbs.len() ==> (grid.advice)(#[trigger] dst[i], row) == limb_value(limbs, i),
    ensures
        all_placed(copy_events(limbs, dst, 0, region_index), grid, row),
{
    let events = copy_events(limbs, dst, 0, region_index);
    assert forall|k: int| 0 <= k < events.len() implies (#[trigger] events[k]).placed(grid, row) by {
        if limbs.len() == 0 {
            assert(events.len() == 0);
        } else {
            law_copied(limbs, dst, 0, region_index, 0);
            let i = k / 2;
            law_copied(limbs, dst, 0, region_index, i);
            assert(k == 2 * i || k == 2 * i + 1);
            assert((grid.advice)(dst[i], row) == limb_value(limbs, i));
        }
    }
}

/// The two regions of an honest assignment fit into one grid.
proof fn lemma_honest_grid<F: FieldExt>(
    config: SignVerifyConfig<F>,
    b: int,
    s: int,
    signature: AssignedSignature<F>,
    tx: TxSignData,
    pub_key_hash: Seq<u8>,
    randomness: int,
    region_index: int,
    signature_start: int,
    keccak_start: int,
)
    requires
        1 < F::modulus(),
        config.configured(b, s),
        signature.pk_x.limbs.len() <= 4,
        signature.pk_y.limbs.len() <= 4,
        signature.msg_hash.limbs.len() <= 4,
        pub_key_hash.len() == 32,
    ensures
        ({
            let grid = honest_grid(
                config,
                b,
                s,
                signature,
                tx,
                pub_key_hash,
                randomness,
                signature_start,
                keccak_start,
            );
            &&& all_placed(
                signature_events(config, signature, tx, pub_key_hash, region_index, randomness),
                grid,
                signature_start,
            )
            &&& all_placed(
                keccak_row(indices(config.keccak_table@), 0, seq![0, 0, 0, 0]) + keccak_row(
                    indices(config.keccak_table@),
                    1,
                    keccak_values(
                        pub_key_bytes(tx.pub_key),
                        pub_key_hash,
                        randomness,
                        F::modulus(),
                    ),
                ),
                grid,
                keccak_start,
            )
        }),
{
    let p = F::modulus();
    let grid = honest_grid(
        config,
        b,
        s,
        signature,
        tx,
        pub_key_hash,
        randomness,
        signature_start,
        keccak_start,
    );
    let row = signature_start;
    let combined = msg_hash_rlc_value(tx.msg_hash, randomness, p);

    let x_limbs = copy_events(
        signature.pk_x.limbs@,
        indices(config.pk_x_limbs@),
        0,
        region_index,
    );
    let y_limbs = copy_events(
        signature.pk_y.limbs@,
        indices(config.pk_y_limbs@),
        0,
        region_index,
    );
    let h_limbs = copy_events(
        signature.msg_hash.limbs@,
        indices(config.msg_hash_limbs@),
        0,
        region_index,
    );
    lemma_copies_placed(
        signature.pk_x.limbs@,
        indices(config.pk_x_limbs@),
        region_index,
        grid,
        row,
    );
    lemma_copies_placed(
        signature.pk_y.limbs@,
        indices(config.pk_y_limbs@),
        region_index,
        grid,
        row,
    );
    lemma_copies_placed(
        signature.msg_hash.limbs@,
        indices(config.msg_hash_limbs@),
        region_index,
        grid,
        row,
    );
    let three = seq![
        EventView::EnableSelector {
            selector: config.q_enable.index as int,
            simple: config.q_enable.simple,
            offset: 0,
        },
        EventView::AssignAdvice {
            column: config.msg_hash_rlc.index as int,
            offset: 0,
            value: combined,
        },
        EventView::AssignAdvice {
            column: config.msg_hash_rlc_is_zero.value_inv.index as int,
            offset: 0,
            value: inverse_or_zero(combined, p),
        },
    ];
    assert(all_placed(three, grid, row));
    let x = byte_events(
        le_bytes(tx.pub_key.x.value(), 32),
        indices(config.pub_key@).subrange(0, 32),
        0,
        p,
    );
    let y = byte_events(
        le_bytes(tx.pub_key.y.value(), 32),
        indices(config.pub_key@).subrange(32, 64),
        0,
        p,
    );
    let h = byte_events(pub_key_hash, indices(config.pub_key_hash@).subrange(0, 32), 0, p);
    assert(all_placed(x, grid, row));
    assert(all_placed(y, grid, row));
    assert(all_placed(h, grid, row));
    lemma_placed_joined(x_limbs, y_limbs, grid, row);
    lemma_placed_joined(x_limbs + y_limbs, h_limbs, grid, row);
    lemma_placed_joined(x_limbs + y_limbs + h_limbs, three, grid, row);
    lemma_placed_joined(x_limbs + y_limbs + h_limbs + three, x, grid, row);
    lemma_placed_joined(x_limbs + y_limbs + h_limbs + three + x, y, grid, row);
    lemma_placed_joined(x_limbs + y_limbs + h_limbs + three + x + y, h, grid, row);
    let last = seq![
        EventView::AssignAdvice {
            column: config.address.index as int,
            offset: 0,
            value: address_value(pub_key_hash, p),
        },
    ];
    assert(all_placed(last, grid, row));
    lemma_placed_joined(x_limbs + y_limbs + h_limbs + three + x + y + h, last, grid, row);
    let m = byte_events(
        le_bytes(tx.msg_hash.value(), 32),
        indices(config.msg_hash@).take(32),
        0,
        p,
    );
    assert(all_placed(m, grid, row));
    lemma_placed_joined(x_limbs + y_limbs + h_limbs + three + x + y + h + last, m, grid, row);

    let table = indices(config.keccak_table@);
    let zeros = keccak_row(table, 0, seq![0, 0, 0, 0]);
    let held = keccak_row(
        table,
        1,
        keccak_values(pub_key_bytes(tx.pub_key), pub_key_hash, randomness, p),
    );
    assert forall|k: int| 0 <= k < zeros.len() implies (#[trigger] zeros[k]).placed(
        grid,
        keccak_start,
    ) by {
        assert(table[k] == b + 143 + k);
        assert(seq![0int, 0, 0, 0][k] == 0);
    }
    assert forall|k: int| 0 <= k < held.len() implies (#[trigger] held[k]).placed(
        grid,
        keccak_start,
    ) by {
        assert(table[k] == b + 143 + k);
    }
    lemma_placed_joined(zeros, held, grid, keccak_start);
}

/// Every transaction has an assignment that satisfies the circuit, given the
/// integers of its signature check. Wherever the regions start, the steps of
/// `assign` fit into one grid, and all constraints and the lookup hold on each of
/// its rows.
pub proof fn law_satisfiable<F: FieldExt>(
    config: SignVerifyConfig<F>,
    b: int,
    s: int,
    signature: AssignedSignature<F>,
    tx: TxSignData,
    pub_key_hash: Seq<u8>,
    randomness: int,
    regions: Seq<RegionView>,
    signature_start: int,
    keccak_start: int,
    rows: int,
)
    requires
        1 < F::modulus(),
        config.configured(b, s),
        indices(config.power_of_randomness@).no_duplicates(),
        signature.pk_x.limbs.len() <= 4,
        signature.pk_y.limbs.len() <= 4,
        signature.msg_hash.limbs.len() <= 4,
        pub_key_hash.len() == 32,
        ({
            let combined = msg_hash_rlc_value(tx.msg_hash, randomness, F::modulus());
            combined == 0 || (has_inverse(combined, F::modulus()) && is_signature_of(signature, tx))
        }),
        0 <= keccak_start,
        keccak_start + 1 < rows,
    ensures
        exists|grid: Grid|
            {
                &&& #[trigger] assigned_at(
                    config,
                    signature,
                    tx,
                    pub_key_hash,
                    randomness,
                    regions,
                    grid,
                    signature_start,
                    keccak_start,
                )
                &&& forall|row: int| #[trigger] row_satisfied(config, grid, row, rows)
            },
{
    let n = regions.len() as int;
    let added = assigned_regions(config, signature, tx, pub_key_hash, randomness, regions);
    let grid = honest_grid(
        config,
        b,
        s,
        signature,
        tx,
        pub_key_hash,
        randomness,
        signature_start,
        keccak_start,
    );
    lemma_honest_grid(
        config,
        b,
        s,
        signature,
        tx,
        pub_key_hash,
        randomness,
        n + 1,
        signature_start,
        keccak_start,
    );
    assert(added[n + 1].events =~= signature_events(
        config,
        signature,
        tx,
        pub_key_hash,
        n + 1,
        randomness,
    ));
    assert(added[n + 1].placed(grid, signature_start));
    assert(added[n + 2].placed(grid, keccak_start));
    assert(powers_at(config, randomness, grid, signature_start)) by {
        let powers = indices(config.power_of_randomness@);
        assert forall|i: int| 0 <= i < POW_RAND_SIZE implies (grid.instance)(
            (#[trigger] config.power_of_randomness@[i]).index as int,
            signature_start,
        ) % F::modulus() == pow(randomness, (i + 1) as nat) % F::modulus() by {
            assert(powers[i] == config.power_of_randomness@[i].index);
            assert(powers.contains(powers[i]));
            assert(powers.index_of(powers[i]) == i);
        }
    }
    assert(assigned_at(
        config,
        signature,
        tx,
        pub_key_hash,
        randomness,
        regions,
        grid,
        signature_start,
        keccak_start,
    ));
    assert forall|row: int| #[trigger] row_satisfied(config, grid, row, rows) by {
        law_assignment_satisfies(
            config,
            b,
            s,
            signature,
            tx,
            pub_key_hash,
            randomness,
            regions,
            grid,
            signature_start,
            keccak_start,
            rows,
            row,
        );
    }
}

} // verus!
