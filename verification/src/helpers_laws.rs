//! What the building blocks of the Merkle-Patricia-trie circuit amount to.
use crate::algebra::{
    group_eval, lemma_eval_range, lemma_mul_add_mod, lemma_value_minus, lemma_value_plus,
    lemma_value_times, values,
};
use crate::helpers::{
    byte_weight, key_len_lookup_view, mult_diff_lookup_view, r_index, r_wrapped, range_lookup,
    rlc_poly, rlc_term, word_poly, FixedTableTag, R_TABLE_LEN,
};
use crate::plonk::{advice_cells, Advice, Column, Grid, LookupView, Poly};
use crate::sums::{lemma_rlc_residues, rlc};
use vstd::arithmetic::div_mod::{
    lemma_add_mod_noop, lemma_mod_add_multiples_vanish, lemma_mul_mod_noop_left,
    lemma_mul_mod_noop_right, lemma_small_mod, lemma_sub_mod_noop,
};
use vstd::arithmetic::mul::lemma_mul_basics;
use vstd::arithmetic::power::{lemma_pow0, lemma_pow_adds, pow};
use vstd::prelude::*;

verus! {

broadcast use group_eval;

proof fn lemma_byte_weight(j: int, grid: Grid, row: int, p: int)
    requires
        1 < p,
        0 <= j,
    ensures
        byte_weight(j, p).eval(grid, row, p) == pow(256, j as nat) % p,
    decreases j,
{
    if j == 0 {
        lemma_pow0(256);
    } else {
        lemma_byte_weight(j - 1, grid, row, p);
        let before = pow(256, (j - 1) as nat);
        assert(pow(256, j as nat) == 256 * before) by {
            reveal(pow);
        }
        vstd::arithmetic::div_mod::lemma_mul_mod_noop(before, 256, p);
        vstd::arithmetic::div_mod::lemma_mod_twice(256, p);
    }
}

proof fn lemma_word(hash: Seq<Poly>, i: int, n: int, grid: Grid, row: int, p: int)
    requires
        1 < p,
        0 <= i < 4,
        0 <= n <= 8,
        hash.len() >= 32,
    ensures
        word_poly(hash, i, n, p).eval(grid, row, p) == rlc(
            values(hash.subrange(8 * i, 8 * i + n), grid, row, p),
            256,
        ) % p,
    decreases n,
{
    let bytes = values(hash.subrange(8 * i, 8 * i + n), grid, row, p);
    if n > 0 {
        lemma_word(hash, i, n - 1, grid, row, p);
        lemma_byte_weight(n - 1, grid, row, p);
        assert(bytes.drop_last() =~= values(hash.subrange(8 * i, 8 * i + n - 1), grid, row, p));
        lemma_mul_add_mod(
            rlc(bytes.drop_last(), 256),
            bytes.last(),
            pow(256, (n - 1) as nat),
            p,
        );
    }
}

/// Each of the four words is the little-endian number of its eight bytes.
pub proof fn law_words(hash: Seq<Poly>, i: int, grid: Grid, row: int, p: int)
    requires
        1 < p,
        0 <= i < 4,
        hash.len() >= 32,
    ensures
        word_poly(hash, i, 8, p).eval(grid, row, p) == rlc(
            values(hash.subrange(8 * i, 8 * i + 8), grid, row, p),
            256,
        ) % p,
{
    lemma_word(hash, i, 8, grid, row, p);
}

/// Residues may be taken after each of two factors.
proof fn lemma_mod_product(a: int, b: int, c: int, p: int)
    requires
        0 < p,
    ensures
        (((a * (b % p)) % p) * c) % p == (a * b * c) % p,
        (((a % p) * (b % p)) % p * c) % p == (a * b * c) % p,
{
    lemma_mul_mod_noop_right(a, b, p);
    vstd::arithmetic::div_mod::lemma_mul_mod_noop(a, b, p);
    lemma_mul_mod_noop_left(a * b, c, p);
}

/// The value of one summand, when the table holds the powers of `r`.
proof fn lemma_rlc_term(
    cell: Poly,
    j: int,
    rind: int,
    mult: Poly,
    r_table: Seq<Poly>,
    r: int,
    grid: Grid,
    row: int,
    p: int,
)
    requires
        1 < p,
        0 <= rind,
        0 <= j,
        rind < R_TABLE_LEN ==> rind + j < 2 * R_TABLE_LEN,
        r_index(rind, j) < r_table.len(),
        r_wrapped(rind, j) ==> r_table.len() >= R_TABLE_LEN,
        forall|k: int|
            0 <= k < r_table.len() ==> (#[trigger] r_table[k]).eval(grid, row, p) == pow(
                r,
                (k + 1) as nat,
            ) % p,
    ensures
        rlc_term(cell, j, rind, mult, r_table).eval(grid, row, p) == (cell.eval(grid, row, p) * pow(
            r,
            (rind + 1 + j) as nat,
        ) * mult.eval(grid, row, p)) % p,
{
    let s = cell.eval(grid, row, p);
    let m = mult.eval(grid, row, p);
    let k = r_index(rind, j);
    let at_k = pow(r, (k + 1) as nat);
    if r_wrapped(rind, j) {
        let last = pow(r, R_TABLE_LEN as nat);
        let scaled = cell.times(r_table[k]);
        let twice = scaled.times(r_table[R_TABLE_LEN - 1]);
        assert(r_table[R_TABLE_LEN - 1].eval(grid, row, p) == last % p);
        lemma_mod_product(s, at_k, last % p, p);
        assert(twice.eval(grid, row, p) == (s * at_k * (last % p)) % p);
        lemma_mul_mod_noop_right(s * at_k, last, p);
        lemma_mul_mod_noop_left(s * at_k * last, m, p);
        lemma_pow_adds(r, (k + 1) as nat, R_TABLE_LEN as nat);
        assert(s * at_k * last * m == s * (at_k * last) * m) by (nonlinear_arith);
    } else {
        lemma_mod_product(s, at_k, m, p);
    }
}

/// With a table of the powers `r`, `r^2`, ... of the randomness, the random
/// linear combination is that of the cells, scaled by the power that the first
/// cell starts with and by `mult`. It may run over the last power once.
pub proof fn law_compute_rlc(
    cells: Seq<Poly>,
    rind: int,
    mult: Poly,
    r_table: Seq<Poly>,
    r: int,
    grid: Grid,
    row: int,
    p: int,
)
    requires
        1 < p,
        0 <= rind,
        rind < R_TABLE_LEN ==> rind + cells.len() <= 2 * R_TABLE_LEN,
        forall|j: int| 0 <= j < cells.len() ==> #[trigger] r_index(rind, j) < r_table.len(),
        forall|k: int|
            0 <= k < r_table.len() ==> (#[trigger] r_table[k]).eval(grid, row, p) == pow(
                r,
                (k + 1) as nat,
            ) % p,
    ensures
        rlc_poly(cells, rind, mult, r_table).eval(grid, row, p) == (mult.eval(grid, row, p) * pow(
            r,
            (rind + 1) as nat,
        ) * rlc(values(cells, grid, row, p), r)) % p,
    decreases cells.len(),
{
    let m = mult.eval(grid, row, p);
    let first = pow(r, (rind + 1) as nat);
    let vals = values(cells, grid, row, p);
    if cells.len() == 0 {
        assert(m * first * 0 == 0);
    } else {
        let j = cells.len() - 1;
        if r_wrapped(rind, j) {
            // The last power was used for an earlier column.
            assert(r_index(rind, R_TABLE_LEN - 1 - rind) < r_table.len());
        }
        assert(r_index(rind, j) < r_table.len());
        law_compute_rlc(cells.drop_last(), rind, mult, r_table, r, grid, row, p);
        lemma_rlc_term(cells.last(), j, rind, mult, r_table, r, grid, row, p);
        assert(vals.drop_last() =~= values(cells.drop_last(), grid, row, p));
        let before = rlc(vals.drop_last(), r);
        let s = vals.last();
        let at_j = pow(r, j as nat);
        lemma_pow_adds(r, (rind + 1) as nat, j as nat);
        assert(m * first * (before + s * at_j) == m * first * before + s * (first * at_j) * m)
            by (nonlinear_arith);
        vstd::arithmetic::div_mod::lemma_add_mod_noop(
            m * first * before,
            s * (first * at_j) * m,
            p,
        );
    }
}

/// Whether a part of a table holds a value.
pub open spec fn table_holds(
    fixed_table: Seq<int>,
    tag: FixedTableTag,
    value: int,
    grid: Grid,
    rows: int,
    p: int,
) -> bool {
    exists|t: int|
        0 <= t < rows && #[trigger] Poly::Fixed(fixed_table[0], 0).eval(grid, t, p)
            == tag.spec_number() % p && Poly::Fixed(fixed_table[1], 0).eval(grid, t, p) == value
}

/// Whether a part of a table holds a pair of values.
pub open spec fn table_holds_pair(
    fixed_table: Seq<int>,
    tag: FixedTableTag,
    value: int,
    second: int,
    grid: Grid,
    rows: int,
    p: int,
) -> bool {
    exists|t: int|
        0 <= t < rows && #[trigger] Poly::Fixed(fixed_table[0], 0).eval(grid, t, p)
            == tag.spec_number() % p && Poly::Fixed(fixed_table[1], 0).eval(grid, t, p) == value
            && Poly::Fixed(fixed_table[2], 0).eval(grid, t, p) == second
}

/// A lookup of a tag and an input holds exactly if the part of the table with
/// that tag holds the input.
proof fn lemma_tagged_lookup(
    lookup: LookupView,
    fixed_table: Seq<int>,
    tag: FixedTableTag,
    grid: Grid,
    row: int,
    rows: int,
    p: int,
)
    requires
        1 < p,
        lookup.table_map.len() == 2,
        lookup.table_map[0] == (
            Poly::Constant(tag.spec_number() % p),
            Poly::Fixed(fixed_table[0], 0),
        ),
        lookup.table_map[1].1 == Poly::Fixed(fixed_table[1], 0),
    ensures
        lookup.holds(grid, row, rows, p) <==> table_holds(
            fixed_table,
            tag,
            lookup.table_map[1].0.eval(grid, row, p),
            grid,
            rows,
            p,
        ),
{
    let input = lookup.table_map[1].0.eval(grid, row, p);
    vstd::arithmetic::div_mod::lemma_mod_twice(tag.spec_number(), p);
    if lookup.holds(grid, row, rows, p) {
        let t = choose|t: int| 0 <= t < rows && #[trigger] lookup.matches_at(grid, row, t, p);
        assert(lookup.table_map[0].1.eval(grid, t, p) == tag.spec_number() % p);
        assert(lookup.table_map[1].1.eval(grid, t, p) == input);
    }
    if table_holds(fixed_table, tag, input, grid, rows, p) {
        let t = choose|t: int|
            0 <= t < rows && #[trigger] Poly::Fixed(fixed_table[0], 0).eval(grid, t, p)
                == tag.spec_number() % p && Poly::Fixed(fixed_table[1], 0).eval(grid, t, p)
                == input;
        assert(lookup.matches_at(grid, row, t, p)) by {
            assert forall|i: int| 0 <= i < lookup.table_map.len() implies (
            #[trigger] lookup.table_map[i]).0.eval(grid, row, p) == lookup.table_map[i].1.eval(
                grid,
                t,
                p,
            ) by {
                assert(i == 0 || i == 1);
            }
        }
    }
}

/// A lookup of a tag and two inputs holds exactly if the part of the table with
/// that tag holds the pair of inputs.
proof fn lemma_pair_lookup(
    lookup: LookupView,
    fixed_table: Seq<int>,
    tag: FixedTableTag,
    grid: Grid,
    row: int,
    rows: int,
    p: int,
)
    requires
        1 < p,
        lookup.table_map.len() == 3,
        lookup.table_map[0] == (
            Poly::Constant(tag.spec_number() % p),
            Poly::Fixed(fixed_table[0], 0),
        ),
        lookup.table_map[1].1 == Poly::Fixed(fixed_table[1], 0),
        lookup.table_map[2].1 == Poly::Fixed(fixed_table[2], 0),
    ensures
        lookup.holds(grid, row, rows, p) <==> table_holds_pair(
            fixed_table,
            tag,
            lookup.table_map[1].0.eval(grid, row, p),
            lookup.table_map[2].0.eval(grid, row, p),
            grid,
            rows,
            p,
        ),
{
    let first = lookup.table_map[1].0.eval(grid, row, p);
    let second = lookup.table_map[2].0.eval(grid, row, p);
    vstd::arithmetic::div_mod::lemma_mod_twice(tag.spec_number(), p);
    if lookup.holds(grid, row, rows, p) {
        let t = choose|t: int| 0 <= t < rows && #[trigger] lookup.matches_at(grid, row, t, p);
        assert(lookup.table_map[0].1.eval(grid, t, p) == tag.spec_number() % p);
        assert(lookup.table_map[1].1.eval(grid, t, p) == first);
        assert(lookup.table_map[2].1.eval(grid, t, p) == second);
    }
    if table_holds_pair(fixed_table, tag, first, second, grid, rows, p) {
        let t = choose|t: int|
            0 <= t < rows && #[trigger] Poly::Fixed(fixed_table[0], 0).eval(grid, t, p)
                == tag.spec_number() % p && Poly::Fixed(fixed_table[1], 0).eval(grid, t, p) == first
                && Poly::Fixed(fixed_table[2], 0).eval(grid, t, p) == second;
        assert(lookup.matches_at(grid, row, t, p)) by {
            assert forall|i: int| 0 <= i < lookup.table_map.len() implies (
            #[trigger] lookup.table_map[i]).0.eval(grid, row, p) == lookup.table_map[i].1.eval(
                grid,
                t,
                p,
            ) by {
                assert(i == 0 || i == 1 || i == 2);
            }
        }
    }
}

/// Where it is enabled, a range lookup holds exactly if the part of the table
/// holds the cell; where it is not, exactly if that part holds zero.
pub proof fn law_range_lookup(
    queried: Seq<Poly>,
    q_enable: Poly,
    column: int,
    tag: FixedTableTag,
    fixed_table: Seq<int>,
    grid: Grid,
    row: int,
    rows: int,
    p: int,
)
    requires
        1 < p,
    ensures
        q_enable.eval(grid, row, p) == 1 ==> (range_lookup(
            queried,
            q_enable,
            column,
            tag,
            fixed_table,
            p,
        ).holds(grid, row, rows, p) <==> table_holds(
            fixed_table,
            tag,
            Poly::Advice(column, 0).eval(grid, row, p),
            grid,
            rows,
            p,
        )),
        q_enable.eval(grid, row, p) == 0 ==> (range_lookup(
            queried,
            q_enable,
            column,
            tag,
            fixed_table,
            p,
        ).holds(grid, row, rows, p) <==> table_holds(fixed_table, tag, 0, grid, rows, p)),
{
    let lookup = range_lookup(queried, q_enable, column, tag, fixed_table, p);
    let s = Poly::Advice(column, 0);
    lemma_tagged_lookup(lookup, fixed_table, tag, grid, row, rows, p);
    lemma_eval_range(s, grid, row, p);
    lemma_small_mod(0, p as nat);
    lemma_mul_basics(s.eval(grid, row, p));
}

/// The largest number of bytes that a key takes.
pub open spec fn max_key_len() -> int {
    33
}

/// Where it is enabled, the lookup of the byte with number `ind`, counted from
/// one, holds exactly if the key reaches that far or the byte is zero: so all
/// bytes after the key ends are zero, and the bytes of the key are free.
pub proof fn law_key_len_lookup(
    queried: Seq<Poly>,
    q_enable: Poly,
    ind: int,
    key_len: int,
    key_len_col: int,
    column: int,
    fixed_table: Seq<int>,
    grid: Grid,
    row: int,
    rows: int,
    p: int,
)
    requires
        (max_key_len() + ind) * 255 <= p,
        1 <= ind,
        0 <= key_len <= max_key_len(),
        q_enable.eval(grid, row, p) == 1,
        Poly::Advice(key_len_col, 0).eval(grid, row, p) == 128 + key_len,
        Poly::Advice(column, 0).eval(grid, row, p) <= 255,
        // The part of the table is the range up to the product of the largest
        // key length and the largest byte.
        forall|v: int|
            0 <= v < p ==> (#[trigger] table_holds(
                fixed_table,
                FixedTableTag::RangeKeyLen256,
                v,
                grid,
                rows,
                p,
            ) <==> v < max_key_len() * 255),
    ensures
        key_len_lookup_view(queried, q_enable, ind, key_len_col, column, fixed_table, p).holds(
            grid,
            row,
            rows,
            p,
        ) <==> (ind <= key_len || Poly::Advice(column, 0).eval(grid, row, p) == 0),
{
    let lookup = key_len_lookup_view(queried, q_enable, ind, key_len_col, column, fixed_table, p);
    let s = Poly::Advice(column, 0);
    let prefix = Poly::Advice(key_len_col, 0);
    let byte = s.eval(grid, row, p);
    let d = key_len - ind;
    lemma_eval_range(s, grid, row, p);
    lemma_eval_range(prefix, grid, row, p);
    lemma_tagged_lookup(
        lookup,
        fixed_table,
        FixedTableTag::RangeKeyLen256,
        grid,
        row,
        rows,
        p,
    );
    lemma_small_mod(128, p as nat);
    lemma_small_mod(ind as nat, p as nat);
    lemma_small_mod(key_len as nat, p as nat);
    let key_len_poly = prefix.minus(Poly::Constant(128int % p));
    assert(key_len_poly.eval(grid, row, p) == key_len);
    let rem = key_len_poly.minus(Poly::Constant(ind % p));
    assert(rem.eval(grid, row, p) == d % p);
    assert(q_enable.times(s).eval(grid, row, p) == byte) by {
        assert(1 * byte == byte);
    }
    let input = q_enable.times(s).times(rem).eval(grid, row, p);
    lemma_mul_mod_noop_right(byte, d, p);
    assert(input == (byte * d) % p);
    assert(lookup.table_map[1].0.eval(grid, row, p) == input);
    if d >= 0 {
        assert(0 <= byte * d <= 255 * 32) by (nonlinear_arith)
            requires
                0 <= byte <= 255,
                0 <= d <= 32,
        ;
        lemma_small_mod((byte * d) as nat, p as nat);
    } else if byte == 0 {
        assert(byte * d == 0) by (nonlinear_arith)
            requires
                byte == 0,
        ;
        lemma_small_mod(0, p as nat);
    } else {
        assert(-255 * ind <= byte * d < 0) by (nonlinear_arith)
            requires
                0 < byte <= 255,
                -ind <= d < 0,
        ;
        lemma_mod_add_multiples_vanish(byte * d, p);
        lemma_small_mod((p + byte * d) as nat, p as nat);
    }
}

/// Where it is not enabled, the lookup of a byte of the key holds exactly if the
/// part of the table holds zero.
pub proof fn law_key_len_lookup_disabled(
    queried: Seq<Poly>,
    q_enable: Poly,
    ind: int,
    key_len_col: int,
    column: int,
    fixed_table: Seq<int>,
    grid: Grid,
    row: int,
    rows: int,
    p: int,
)
    requires
        1 < p,
        q_enable.eval(grid, row, p) == 0,
    ensures
        key_len_lookup_view(queried, q_enable, ind, key_len_col, column, fixed_table, p).holds(
            grid,
            row,
            rows,
            p,
        ) <==> table_holds(fixed_table, FixedTableTag::RangeKeyLen256, 0, grid, rows, p),
{
    let lookup = key_len_lookup_view(queried, q_enable, ind, key_len_col, column, fixed_table, p);
    let s = Poly::Advice(column, 0);
    let rem = Poly::Advice(key_len_col, 0).minus(Poly::Constant(128int % p)).minus(
        Poly::Constant(ind % p),
    );
    lemma_tagged_lookup(
        lookup,
        fixed_table,
        FixedTableTag::RangeKeyLen256,
        grid,
        row,
        rows,
        p,
    );
    lemma_small_mod(0, p as nat);
    lemma_mul_basics(s.eval(grid, row, p));
    lemma_mul_basics(rem.eval(grid, row, p));
    assert(lookup.table_map[1].0 == q_enable.times(s).times(rem));
}

/// Where it is enabled, and the table of multipliers holds `mults(i)` at `i` up
/// to `last`, the lookup holds exactly if the multiplier is the one for the key
/// length plus `addition`.
pub proof fn law_mult_diff_lookup(
    queried: Seq<Poly>,
    q_enable: Poly,
    addition: int,
    key_len: int,
    key_len_col: int,
    mult_diff_col: int,
    mults: spec_fn(int) -> int,
    last: int,
    fixed_table: Seq<int>,
    grid: Grid,
    row: int,
    rows: int,
    p: int,
)
    requires
        128 < p,
        0 <= key_len + addition <= last < p,
        q_enable.eval(grid, row, p) == 1,
        Poly::Advice(key_len_col, 0).eval(grid, row, p) == 128 + key_len,
        forall|i: int, m: int|
            0 <= i < p ==> (#[trigger] table_holds_pair(
                fixed_table,
                FixedTableTag::RMult,
                i,
                m,
                grid,
                rows,
                p,
            ) <==> i <= last && m == mults(i)),
    ensures
        mult_diff_lookup_view(
            queried,
            q_enable,
            addition,
            key_len_col,
            mult_diff_col,
            fixed_table,
            p,
        ).holds(grid, row, rows, p) <==> Poly::Advice(mult_diff_col, 0).eval(grid, row, p) == mults(
            key_len + addition,
        ),
{
    let tag = FixedTableTag::RMult;
    let lookup = mult_diff_lookup_view(
        queried,
        q_enable,
        addition,
        key_len_col,
        mult_diff_col,
        fixed_table,
        p,
    );
    let prefix = Poly::Advice(key_len_col, 0);
    let mult_diff = Poly::Advice(mult_diff_col, 0);
    let index = key_len + addition;
    let m = mult_diff.eval(grid, row, p);
    lemma_eval_range(prefix, grid, row, p);
    lemma_eval_range(mult_diff, grid, row, p);
    lemma_small_mod(128, p as nat);
    vstd::arithmetic::div_mod::lemma_mod_twice(addition, p);
    lemma_add_mod_noop(key_len, addition, p);
    lemma_small_mod(index as nat, p as nat);
    let key_len_poly = prefix.minus(Poly::Constant(128int % p));
    assert(key_len_poly.eval(grid, row, p) == key_len % p);
    let sum = key_len_poly.plus(Poly::Constant(addition % p));
    assert(sum.eval(grid, row, p) == index);
    assert(1 * index == index && 1 * m == m);
    assert(lookup.table_map[1].0.eval(grid, row, p) == index);
    assert(lookup.table_map[2].0.eval(grid, row, p) == m);
    lemma_pair_lookup(lookup, fixed_table, tag, grid, row, rows, p);
}

/// Where it is not enabled, the lookup of a multiplier holds exactly if the table
/// of multipliers holds a pair of zeros.
pub proof fn law_mult_diff_lookup_disabled(
    queried: Seq<Poly>,
    q_enable: Poly,
    addition: int,
    key_len_col: int,
    mult_diff_col: int,
    fixed_table: Seq<int>,
    grid: Grid,
    row: int,
    rows: int,
    p: int,
)
    requires
        1 < p,
        q_enable.eval(grid, row, p) == 0,
    ensures
        mult_diff_lookup_view(
            queried,
            q_enable,
            addition,
            key_len_col,
            mult_diff_col,
            fixed_table,
            p,
        ).holds(grid, row, rows, p) <==> table_holds_pair(
            fixed_table,
            FixedTableTag::RMult,
            0,
            0,
            grid,
            rows,
            p,
        ),
{
    let lookup = mult_diff_lookup_view(
        queried,
        q_enable,
        addition,
        key_len_col,
        mult_diff_col,
        fixed_table,
        p,
    );
    let sum = Poly::Advice(key_len_col, 0).minus(Poly::Constant(128int % p)).plus(
        Poly::Constant(addition % p),
    );
    let mult_diff = Poly::Advice(mult_diff_col, 0);
    lemma_small_mod(0, p as nat);
    lemma_mul_basics(sum.eval(grid, row, p));
    lemma_mul_basics(mult_diff.eval(grid, row, p));
    assert(lookup.table_map[1].0.eval(grid, row, p) == 0);
    assert(lookup.table_map[2].0.eval(grid, row, p) == 0);
    lemma_pair_lookup(lookup, fixed_table, FixedTableTag::RMult, grid, row, rows, p);
}

/// Raising `addition` is raising the key length: the lookup with `addition + d` at
/// a row looks up what the lookup with `addition` does at a row whose key length is
/// larger by `d`, if the rows are alike otherwise. So one holds exactly if the
/// other does.
pub proof fn law_mult_diff_addition(
    queried: Seq<Poly>,
    q_enable: Poly,
    addition: int,
    d: int,
    key_len_col: int,
    mult_diff_col: int,
    fixed_table: Seq<int>,
    grid: Grid,
    longer: int,
    row: int,
    rows: int,
    p: int,
)
    requires
        1 < p,
        Poly::Advice(key_len_col, 0).eval(grid, longer, p) == (Poly::Advice(key_len_col, 0).eval(
            grid,
            row,
            p,
        ) + d) % p,
        Poly::Advice(mult_diff_col, 0).eval(grid, longer, p) == Poly::Advice(mult_diff_col, 0).eval(
            grid,
            row,
            p,
        ),
        q_enable.eval(grid, longer, p) == q_enable.eval(grid, row, p),
    ensures
        ({
            let first = mult_diff_lookup_view(
                queried,
                q_enable,
                addition,
                key_len_col,
                mult_diff_col,
                fixed_table,
                p,
            );
            let second = mult_diff_lookup_view(
                queried,
                q_enable,
                addition + d,
                key_len_col,
                mult_diff_col,
                fixed_table,
                p,
            );
            &&& forall|i: int|
                0 <= i < 3 ==> (#[trigger] first.table_map[i]).0.eval(grid, longer, p)
                    == second.table_map[i].0.eval(grid, row, p)
            &&& first.holds(grid, longer, rows, p) <==> second.holds(grid, row, rows, p)
        }),
{
    let first = mult_diff_lookup_view(
        queried,
        q_enable,
        addition,
        key_len_col,
        mult_diff_col,
        fixed_table,
        p,
    );
    let second = mult_diff_lookup_view(
        queried,
        q_enable,
        addition + d,
        key_len_col,
        mult_diff_col,
        fixed_table,
        p,
    );
    let prefix = Poly::Advice(key_len_col, 0);
    lemma_shifted_sum(prefix.eval(grid, row, p), d, addition, p);
    let key_len = prefix.minus(Poly::Constant(128int % p));
    let with_addition = key_len.plus(Poly::Constant(addition % p));
    let with_more = key_len.plus(Poly::Constant((addition + d) % p));
    vstd::arithmetic::div_mod::lemma_mod_twice(128, p);
    vstd::arithmetic::div_mod::lemma_mod_twice(addition, p);
    vstd::arithmetic::div_mod::lemma_mod_twice(addition + d, p);
    assert(with_addition.eval(grid, longer, p) == with_more.eval(grid, row, p));
    assert(first.table_map[0].0.eval(grid, longer, p) == second.table_map[0].0.eval(grid, row, p));
    assert(first.table_map[1].0 == q_enable.times(with_addition));
    assert(second.table_map[1].0 == q_enable.times(with_more));
    assert forall|i: int| 0 <= i < 3 implies (#[trigger] first.table_map[i]).0.eval(grid, longer, p)
        == second.table_map[i].0.eval(grid, row, p) by {
        assert(i == 0 || i == 1 || i == 2);
    }
    lemma_pair_lookup(first, fixed_table, FixedTableTag::RMult, grid, longer, rows, p);
    lemma_pair_lookup(second, fixed_table, FixedTableTag::RMult, grid, row, rows, p);
    assert(first.table_map[1].0.eval(grid, longer, p) == second.table_map[1].0.eval(grid, row, p));
    assert(first.table_map[2].0.eval(grid, longer, p) == second.table_map[2].0.eval(grid, row, p));
}

/// A sum of residues, with one summand moved from the first to the last.
proof fn lemma_shifted_sum(v: int, d: int, addition: int, p: int)
    requires
        1 < p,
    ensures
        ((((v + d) % p - 128int % p) % p) + addition % p) % p == (((v - 128int % p) % p) + (addition
            + d) % p) % p,
{
    let c = 128int % p;
    lemma_sub_mod_noop_left(v + d, c, p);
    lemma_add_mod_noop(v + d - c, addition, p);
    lemma_add_mod_noop(v - c, addition + d, p);
    assert(v + d - c + addition == v - c + (addition + d));
}

/// The residue may be taken of what is subtracted from.
proof fn lemma_sub_mod_noop_left(a: int, b: int, p: int)
    requires
        0 < p,
    ensures
        (a % p - b) % p == (a - b) % p,
{
    lemma_sub_mod_noop(a % p, b, p);
    lemma_sub_mod_noop(a, b, p);
    vstd::arithmetic::div_mod::lemma_mod_twice(a, p);
}

/// The number of a part of the fixed table.
pub proof fn law_tag_numbers(tag: FixedTableTag)
    ensures
        tag is RMult ==> tag.spec_number() == 0,
        tag is Range16 ==> tag.spec_number() == 1,
        tag is Range256 ==> tag.spec_number() == 2,
        tag is RangeKeyLen256 ==> tag.spec_number() == 3,
{
}

/// The powers are taken one after the other from the one with index `rind` on, and
/// start again at the first behind the last, unless `rind` is behind it already.
pub proof fn law_power_indices(rind: int, j: int)
    requires
        0 <= rind,
        0 <= j,
    ensures
        r_index(rind, 0) == rind,
        r_index(rind, j + 1) == (if r_index(rind, j) == R_TABLE_LEN - 1 {
            0int
        } else {
            r_index(rind, j) + 1
        }),
        r_wrapped(rind, j) <==> rind < R_TABLE_LEN && R_TABLE_LEN <= rind + j,
{
    if rind < R_TABLE_LEN {
        lemma_small_mod(rind as nat, R_TABLE_LEN as nat);
    }
}

/// A random linear combination, column by column, whatever the table of powers
/// holds. One more column adds its cell by the next power and by `mult`; the power
/// behind the last one is the first, and from there on the last power is a factor
/// too.
pub proof fn law_compute_rlc_step(
    cells: Seq<Poly>,
    cell: Poly,
    rind: int,
    mult: Poly,
    r_table: Seq<Poly>,
    grid: Grid,
    row: int,
    p: int,
)
    requires
        1 < p,
        0 <= rind,
    ensures
        rlc_poly(Seq::empty(), rind, mult, r_table).eval(grid, row, p) == 0,
        rind + cells.len() < R_TABLE_LEN ==> rlc_poly(cells.push(cell), rind, mult, r_table).eval(
            grid,
            row,
            p,
        ) == (rlc_poly(cells, rind, mult, r_table).eval(grid, row, p) + cell.eval(grid, row, p)
            * r_table[rind + cells.len()].eval(grid, row, p) * mult.eval(grid, row, p)) % p,
        rind < R_TABLE_LEN <= rind + cells.len() ==> rlc_poly(
            cells.push(cell),
            rind,
            mult,
            r_table,
        ).eval(grid, row, p) == (rlc_poly(cells, rind, mult, r_table).eval(grid, row, p)
            + cell.eval(grid, row, p) * r_table[(rind + cells.len()) % (R_TABLE_LEN as int)].eval(
            grid,
            row,
            p,
        ) * r_table[R_TABLE_LEN - 1].eval(grid, row, p) * mult.eval(grid, row, p)) % p,
        R_TABLE_LEN <= rind ==> rlc_poly(cells.push(cell), rind, mult, r_table).eval(grid, row, p)
            == (rlc_poly(cells, rind, mult, r_table).eval(grid, row, p) + cell.eval(grid, row, p)
            * r_table[rind + cells.len()].eval(grid, row, p) * mult.eval(grid, row, p)) % p,
{
    let n = cells.len() as int;
    let all = cells.push(cell);
    assert(all.drop_last() =~= cells);
    lemma_small_mod(0, p as nat);
    let s = cell.eval(grid, row, p);
    let m = mult.eval(grid, row, p);
    let before = rlc_poly(cells, rind, mult, r_table);
    let k = r_index(rind, n);
    let x = r_table[k].eval(grid, row, p);
    let y = r_table[R_TABLE_LEN - 1].eval(grid, row, p);
    lemma_eval_range(cell, grid, row, p);
    lemma_eval_range(mult, grid, row, p);
    lemma_eval_range(before, grid, row, p);
    lemma_eval_range(r_table[k], grid, row, p);
    lemma_eval_range(r_table[R_TABLE_LEN - 1], grid, row, p);
    let once = cell.times(r_table[k]);
    lemma_value_times(cell, r_table[k], s, x, grid, row, p);
    let so_far = before.eval(grid, row, p);
    if r_wrapped(rind, n) {
        let twice = once.times(r_table[R_TABLE_LEN - 1]);
        lemma_value_times(once, r_table[R_TABLE_LEN - 1], s * x, y, grid, row, p);
        lemma_value_times(twice, mult, s * x * y, m, grid, row, p);
        lemma_value_plus(before, twice.times(mult), so_far, s * x * y * m, grid, row, p);
    } else {
        if rind < R_TABLE_LEN {
            lemma_small_mod((rind + n) as nat, R_TABLE_LEN as nat);
        }
        lemma_value_times(once, mult, s * x, m, grid, row, p);
        lemma_value_plus(before, once.times(mult), so_far, s * x * m, grid, row, p);
    }
}

/// What `compute_rlc` gives for columns at a rotation: the random linear
/// combination of what the columns hold that many rows away, scaled by the power
/// that the first column starts with and by `mult`. The table of powers reaches as
/// far as the columns need it, and holds the powers of `r`.
pub proof fn law_compute_rlc_columns(
    advices: Seq<Column<Advice>>,
    rind: int,
    mult: Poly,
    rotation: int,
    r_table: Seq<Poly>,
    r: int,
    grid: Grid,
    row: int,
    p: int,
)
    requires
        1 < p,
        0 <= rind,
        rind < R_TABLE_LEN ==> rind + advices.len() <= 2 * R_TABLE_LEN,
        rind < R_TABLE_LEN && rind + advices.len() <= R_TABLE_LEN ==> rind + advices.len()
            <= r_table.len(),
        rind < R_TABLE_LEN < rind + advices.len() ==> R_TABLE_LEN <= r_table.len(),
        R_TABLE_LEN <= rind ==> rind + advices.len() <= r_table.len(),
        forall|k: int|
            0 <= k < r_table.len() ==> (#[trigger] r_table[k]).eval(grid, row, p) == pow(
                r,
                (k + 1) as nat,
            ) % p,
    ensures
        rlc_poly(advice_cells(advices, rotation), rind, mult, r_table).eval(grid, row, p) == (
        mult.eval(grid, row, p) * pow(r, (rind + 1) as nat) * rlc(
            Seq::new(
                advices.len(),
                |j: int| (grid.advice)(advices[j].index as int, row + rotation),
            ),
            r,
        )) % p,
{
    let cells = advice_cells(advices, rotation);
    let held = Seq::new(
        advices.len(),
        |j: int| (grid.advice)(advices[j].index as int, row + rotation),
    );
    assert forall|j: int| 0 <= j < cells.len() implies #[trigger] r_index(rind, j)
        < r_table.len() by {
        if rind < R_TABLE_LEN && rind + j < R_TABLE_LEN {
            lemma_small_mod((rind + j) as nat, R_TABLE_LEN as nat);
        }
    }
    law_compute_rlc(cells, rind, mult, r_table, r, grid, row, p);
    let vals = values(cells, grid, row, p);
    assert forall|j: int| 0 <= j < vals.len() implies #[trigger] vals[j] % p == #[trigger] held[j]
        % p by {
        vstd::arithmetic::div_mod::lemma_mod_twice(held[j], p);
    }
    lemma_rlc_residues(vals, held, r, p);
    let scale = mult.eval(grid, row, p) * pow(r, (rind + 1) as nat);
    lemma_mul_mod_noop_right(scale, rlc(vals, r), p);
    lemma_mul_mod_noop_right(scale, rlc(held, r), p);
}

/// A range lookup holds at a row exactly if some row of the table has the number of
/// the part and, as the residue of its value, the product of the enabling
/// expression and the cell.
pub proof fn law_range_lookup_meaning(
    queried: Seq<Poly>,
    q_enable: Poly,
    column: int,
    tag: FixedTableTag,
    fixed_table: Seq<int>,
    grid: Grid,
    row: int,
    rows: int,
    p: int,
)
    requires
        1 < p,
    ensures
        range_lookup(queried, q_enable, column, tag, fixed_table, p).holds(grid, row, rows, p)
            <==> exists|t: int|
            {
                &&& 0 <= t < rows
                &&& #[trigger] (grid.fixed)(fixed_table[0], t) % p == tag.spec_number() % p
                &&& (grid.fixed)(fixed_table[1], t) % p == (q_enable.eval(grid, row, p) * (
                grid.advice)(column, row)) % p
            },
        range_lookup(queried, q_enable, column, tag, fixed_table, p).name is None,
        range_lookup(queried, q_enable, column, tag, fixed_table, p).queried == queried + seq![
            Poly::Advice(column, 0),
            Poly::Fixed(fixed_table[0], 0),
            Poly::Fixed(fixed_table[1], 0),
        ],
{
    let lookup = range_lookup(queried, q_enable, column, tag, fixed_table, p);
    let q = q_enable.eval(grid, row, p);
    let s = (grid.advice)(column, row);
    lemma_eval_range(q_enable, grid, row, p);
    lemma_value_times(q_enable, Poly::Advice(column, 0), q, s, grid, row, p);
    lemma_tagged_rows(lookup, fixed_table, tag, q * s, grid, row, rows, p);
}

/// A lookup of a tag and an input, in terms of the cells of the table.
proof fn lemma_tagged_rows(
    lookup: LookupView,
    fixed_table: Seq<int>,
    tag: FixedTableTag,
    input: int,
    grid: Grid,
    row: int,
    rows: int,
    p: int,
)
    requires
        1 < p,
        lookup.table_map.len() == 2,
        lookup.table_map[0] == (
            Poly::Constant(tag.spec_number() % p),
            Poly::Fixed(fixed_table[0], 0),
        ),
        lookup.table_map[1].1 == Poly::Fixed(fixed_table[1], 0),
        lookup.table_map[1].0.eval(grid, row, p) == input % p,
    ensures
        lookup.holds(grid, row, rows, p) <==> exists|t: int|
            {
                &&& 0 <= t < rows
                &&& #[trigger] (grid.fixed)(fixed_table[0], t) % p == tag.spec_number() % p
                &&& (grid.fixed)(fixed_table[1], t) % p == input % p
            },
{
    lemma_tagged_lookup(lookup, fixed_table, tag, grid, row, rows, p);
    if table_holds(fixed_table, tag, input % p, grid, rows, p) {
        let t = choose|t: int|
            0 <= t < rows && #[trigger] Poly::Fixed(fixed_table[0], 0).eval(grid, t, p)
                == tag.spec_number() % p && Poly::Fixed(fixed_table[1], 0).eval(grid, t, p) == input
                % p;
        assert(t + 0 == t);
        assert((grid.fixed)(fixed_table[0], t) % p == tag.spec_number() % p);
    }
    if exists|t: int|
        {
            &&& 0 <= t < rows
            &&& #[trigger] (grid.fixed)(fixed_table[0], t) % p == tag.spec_number() % p
            &&& (grid.fixed)(fixed_table[1], t) % p == input % p
        } {
        let t = choose|t: int|
            {
                &&& 0 <= t < rows
                &&& #[trigger] (grid.fixed)(fixed_table[0], t) % p == tag.spec_number() % p
                &&& (grid.fixed)(fixed_table[1], t) % p == input % p
            };
        assert(t + 0 == t);
        assert(Poly::Fixed(fixed_table[0], 0).eval(grid, t, p) == tag.spec_number() % p);
    }
}

/// The lookup of a byte of the key holds at a row exactly if some row of the part of
/// the table for key lengths has, as the residue of its value, the product of the
/// enabling expression, the byte, and the key length less the number of the byte.
pub proof fn law_key_len_lookup_meaning(
    queried: Seq<Poly>,
    q_enable: Poly,
    ind: int,
    key_len_col: int,
    column: int,
    fixed_table: Seq<int>,
    grid: Grid,
    row: int,
    rows: int,
    p: int,
)
    requires
        1 < p,
    ensures
        key_len_lookup_view(queried, q_enable, ind, key_len_col, column, fixed_table, p).holds(
            grid,
            row,
            rows,
            p,
        ) <==> exists|t: int|
            {
                &&& 0 <= t < rows
                &&& #[trigger] (grid.fixed)(fixed_table[0], t) % p == 3int % p
                &&& (grid.fixed)(fixed_table[1], t) % p == (q_enable.eval(grid, row, p) * (
                grid.advice)(column, row) * ((grid.advice)(key_len_col, row) - 128 - ind)) % p
            },
        key_len_lookup_view(queried, q_enable, ind, key_len_col, column, fixed_table, p).name
            is None,
        key_len_lookup_view(queried, q_enable, ind, key_len_col, column, fixed_table, p).queried
            == queried + seq![
            Poly::Advice(column, 0),
            Poly::Advice(key_len_col, 0),
            Poly::Fixed(fixed_table[0], 0),
            Poly::Fixed(fixed_table[1], 0),
        ],
{
    let lookup = key_len_lookup_view(queried, q_enable, ind, key_len_col, column, fixed_table, p);
    let q = q_enable.eval(grid, row, p);
    let s = (grid.advice)(column, row);
    let prefix = (grid.advice)(key_len_col, row);
    let byte = Poly::Advice(column, 0);
    let of_key = Poly::Advice(key_len_col, 0);
    let c128 = Poly::Constant(128int % p);
    let by_ind = Poly::Constant(ind % p);
    vstd::arithmetic::div_mod::lemma_mod_twice(128, p);
    vstd::arithmetic::div_mod::lemma_mod_twice(ind, p);
    lemma_eval_range(q_enable, grid, row, p);
    lemma_value_minus(of_key, c128, prefix, 128, grid, row, p);
    lemma_value_minus(of_key.minus(c128), by_ind, prefix - 128, ind, grid, row, p);
    lemma_value_times(q_enable, byte, q, s, grid, row, p);
    lemma_value_times(
        q_enable.times(byte),
        of_key.minus(c128).minus(by_ind),
        q * s,
        prefix - 128 - ind,
        grid,
        row,
        p,
    );
    lemma_tagged_rows(
        lookup,
        fixed_table,
        FixedTableTag::RangeKeyLen256,
        q * s * (prefix - 128 - ind),
        grid,
        row,
        rows,
        p,
    );
}

/// The lookup of a multiplier holds at a row exactly if some row of the part of the
/// table for multipliers has, as the residues of its two values, the products of the
/// enabling expression with the key length plus `addition` and with the multiplier.
pub proof fn law_mult_diff_lookup_meaning(
    queried: Seq<Poly>,
    q_enable: Poly,
    addition: int,
    key_len_col: int,
    mult_diff_col: int,
    fixed_table: Seq<int>,
    grid: Grid,
    row: int,
    rows: int,
    p: int,
)
    requires
        1 < p,
    ensures
        mult_diff_lookup_view(
            queried,
            q_enable,
            addition,
            key_len_col,
            mult_diff_col,
            fixed_table,
            p,
        ).holds(grid, row, rows, p) <==> exists|t: int|
            {
                &&& 0 <= t < rows
                &&& #[trigger] (grid.fixed)(fixed_table[0], t) % p == 0
                &&& (grid.fixed)(fixed_table[1], t) % p == (q_enable.eval(grid, row, p) * ((
                grid.advice)(key_len_col, row) - 128 + addition)) % p
                &&& (grid.fixed)(fixed_table[2], t) % p == (q_enable.eval(grid, row, p) * (
                grid.advice)(mult_diff_col, row)) % p
            },
        mult_diff_lookup_view(
            queried,
            q_enable,
            addition,
            key_len_col,
            mult_diff_col,
            fixed_table,
            p,
        ).name is None,
        mult_diff_lookup_view(
            queried,
            q_enable,
            addition,
            key_len_col,
            mult_diff_col,
            fixed_table,
            p,
        ).queried == queried + seq![
            Poly::Advice(key_len_col, 0),
            Poly::Advice(mult_diff_col, 0),
            Poly::Fixed(fixed_table[0], 0),
            Poly::Fixed(fixed_table[1], 0),
            Poly::Fixed(fixed_table[2], 0),
        ],
{
    let lookup = mult_diff_lookup_view(
        queried,
        q_enable,
        addition,
        key_len_col,
        mult_diff_col,
        fixed_table,
        p,
    );
    let tag = FixedTableTag::RMult;
    let q = q_enable.eval(grid, row, p);
    let prefix = (grid.advice)(key_len_col, row);
    let m = (grid.advice)(mult_diff_col, row);
    let of_key = Poly::Advice(key_len_col, 0);
    let c128 = Poly::Constant(128int % p);
    let by_addition = Poly::Constant(addition % p);
    vstd::arithmetic::div_mod::lemma_mod_twice(128, p);
    vstd::arithmetic::div_mod::lemma_mod_twice(addition, p);
    lemma_small_mod(0, p as nat);
    lemma_eval_range(q_enable, grid, row, p);
    lemma_value_minus(of_key, c128, prefix, 128, grid, row, p);
    lemma_value_plus(of_key.minus(c128), by_addition, prefix - 128, addition, grid, row, p);
    let sum = of_key.minus(c128).plus(by_addition);
    lemma_value_times(q_enable, sum, q, prefix - 128 + addition, grid, row, p);
    lemma_value_times(q_enable, Poly::Advice(mult_diff_col, 0), q, m, grid, row, p);
    lemma_pair_lookup(lookup, fixed_table, tag, grid, row, rows, p);
    let first = (q * (prefix - 128 + addition)) % p;
    let second = (q * m) % p;
    if table_holds_pair(fixed_table, tag, first, second, grid, rows, p) {
        let t = choose|t: int|
            0 <= t < rows && #[trigger] Poly::Fixed(fixed_table[0], 0).eval(grid, t, p)
                == tag.spec_number() % p && Poly::Fixed(fixed_table[1], 0).eval(grid, t, p) == first
                && Poly::Fixed(fixed_table[2], 0).eval(grid, t, p) == second;
        assert(t + 0 == t);
        assert((grid.fixed)(fixed_table[0], t) % p == 0);
    }
    if exists|t: int|
        {
            &&& 0 <= t < rows
            &&& #[trigger] (grid.fixed)(fixed_table[0], t) % p == 0
            &&& (grid.fixed)(fixed_table[1], t) % p == first
            &&& (grid.fixed)(fixed_table[2], t) % p == second
        } {
        let t = choose|t: int|
            {
                &&& 0 <= t < rows
                &&& #[trigger] (grid.fixed)(fixed_table[0], t) % p == 0
                &&& (grid.fixed)(fixed_table[1], t) % p == first
                &&& (grid.fixed)(fixed_table[2], t) % p == second
            };
        assert(t + 0 == t);
        assert(Poly::Fixed(fixed_table[0], 0).eval(grid, t, p) == tag.spec_number() % p);
    }
}

} // verus!
