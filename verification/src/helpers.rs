//! Building blocks of the Merkle-Patricia-trie circuit.
use crate::algebra::group_simple_selectors;
use crate::field::FieldExt;
use crate::plonk::{
    advice_cells, indices, poly_pairs, polys, Advice, Column, ConstraintSystem,
    ConstraintSystemView, Expression, Fixed, LookupView, Poly, Rotation, VirtualCells,
};
use vstd::prelude::*;

verus! {

broadcast use group_simple_selectors;

/// The number of powers of the randomness that the circuit holds.
pub const R_TABLE_LEN: usize = 32;

/// The part of the fixed table that a lookup goes to.
#[derive(Clone, Copy, Debug, PartialEq, Eq, Structural)]
pub enum FixedTableTag {
    RMult,
    Range16,
    Range256,
    RangeKeyLen256,
}

impl FixedTableTag {
    /// The number that stands for the tag in the table.
    pub open spec fn spec_number(self) -> int {
        match self {
            FixedTableTag::RMult => 0,
            FixedTableTag::Range16 => 1,
            FixedTableTag::Range256 => 2,
            FixedTableTag::RangeKeyLen256 => 3,
        }
    }

    /// The number that stands for the tag in the table.
    pub fn number(self) -> (r: u64)
        ensures
            r == self.spec_number(),
    {
        match self {
            FixedTableTag::RMult => 0,
            FixedTableTag::Range16 => 1,
            FixedTableTag::Range256 => 2,
            FixedTableTag::RangeKeyLen256 => 3,
        }
    }
}

/// The weight of byte `j` of a word, `256^j`, in the field with `p` elements.
pub open spec fn byte_weight(j: int, p: int) -> Poly
    decreases j,
{
    if j <= 0 {
        Poly::Constant(1)
    } else {
        byte_weight(j - 1, p).times(Poly::Constant(256int % p))
    }
}

/// The sum of the first `n` bytes of a word, each by its weight. The bytes of
/// word `i` start at `hash[8 * i]`.
pub open spec fn word_poly(hash: Seq<Poly>, i: int, n: int, p: int) -> Poly
    decreases n,
{
    if n <= 0 {
        Poly::Constant(0)
    } else {
        word_poly(hash, i, n - 1, p).plus(hash[i * 8 + n - 1].times(byte_weight(n - 1, p)))
    }
}

/// Weights of bytes hold no selector.
proof fn lemma_byte_weight_simple(j: int, p: int)
    ensures
        !byte_weight(j, p).contains_simple_selector(),
    decreases j,
{
    if j > 0 {
        lemma_byte_weight_simple(j - 1, p);
    }
}

/// Turns 32 hash cells into 4 cells containing keccak words.
pub fn into_words_expr<F: FieldExt>(hash: Vec<Expression<F>>) -> (words: Vec<Expression<F>>)
    requires
        hash.len() >= 32,
        forall|k: int| 0 <= k < 32 ==> !(#[trigger] hash@[k])@.contains_simple_selector(),
    ensures
        words.len() == 4,
        forall|i: int|
            0 <= i < 4 ==> (#[trigger] words@[i])@ == word_poly(
                polys(hash@),
                i,
                8,
                F::modulus(),
            ),
{
    let mut words: Vec<Expression<F>> = Vec::new();
    for i in 0..4usize
        invariant
            hash.len() >= 32,
            forall|k: int| 0 <= k < 32 ==> !(#[trigger] hash@[k])@.contains_simple_selector(),
            words.len() == i,
            forall|k: int|
                0 <= k < i ==> (#[trigger] words@[k])@ == word_poly(
                    polys(hash@),
                    k,
                    8,
                    F::modulus(),
                ),
    {
        let mut word = Expression::Constant(F::zero());
        let mut exp = Expression::Constant(F::one());
        for j in 0..8usize
            invariant
                i < 4,
                hash.len() >= 32,
                forall|k: int| 0 <= k < 32 ==> !(#[trigger] hash@[k])@.contains_simple_selector(),
                word@ == word_poly(polys(hash@), i as int, j as int, F::modulus()),
                !word@.contains_simple_selector(),
                exp@ == byte_weight(j as int, F::modulus()),
        {
            proof {
                lemma_byte_weight_simple(j as int, F::modulus());
                assert(polys(hash@)[i * 8 + j] == hash@[i * 8 + j]@);
            }
            word = word + hash[i * 8 + j].clone() * exp.clone();
            exp = exp * Expression::Constant(F::from_u64(256));
        }
        words.push(word);
    }
    words
}

/// The index into the powers of the randomness for column `j`, if column 0 has
/// `rind`: it starts again at zero behind the last power.
pub open spec fn r_index(rind: int, j: int) -> int {
    if rind < R_TABLE_LEN {
        (rind + j) % (R_TABLE_LEN as int)
    } else {
        rind + j
    }
}

/// Whether the powers of the randomness have started again before column `j`.
pub open spec fn r_wrapped(rind: int, j: int) -> bool {
    rind < R_TABLE_LEN && rind + j >= R_TABLE_LEN
}

/// The summand of column `j` in a random linear combination.
pub open spec fn rlc_term(cell: Poly, j: int, rind: int, mult: Poly, r_table: Seq<Poly>) -> Poly {
    if r_wrapped(rind, j) {
        cell.times(r_table[r_index(rind, j)]).times(r_table[R_TABLE_LEN - 1]).times(mult)
    } else {
        cell.times(r_table[r_index(rind, j)]).times(mult)
    }
}

/// The random linear combination of cells, the first with power `rind` of the
/// randomness, all of them scaled by `mult`.
pub open spec fn rlc_poly(cells: Seq<Poly>, rind: int, mult: Poly, r_table: Seq<Poly>) -> Poly
    decreases cells.len(),
{
    if cells.len() == 0 {
        Poly::Constant(0)
    } else {
        rlc_poly(cells.drop_last(), rind, mult, r_table).plus(
            rlc_term(cells.last(), cells.len() - 1, rind, mult, r_table),
        )
    }
}

/// Computes the random linear combination of the cells of `advices`, the first
/// of which has the power of the randomness with index `rind`.
pub fn compute_rlc<F: FieldExt>(
    meta: &mut VirtualCells,
    advices: Vec<Column<Advice>>,
    rind: usize,
    mult: Expression<F>,
    rotation: i32,
    r_table: Vec<Expression<F>>,
) -> (r: Expression<F>)
    requires
        forall|j: int|
            0 <= j < advices.len() ==> {
                &&& #[trigger] r_index(rind as int, j) < r_table.len()
                &&& !r_table@[r_index(rind as int, j)]@.contains_simple_selector()
            },
        advices.len() > 0 ==> !mult@.contains_simple_selector(),
    ensures
        r@ == rlc_poly(
            advice_cells(advices@, rotation as int),
            rind as int,
            mult@,
            polys(r_table@),
        ),
        final(meta)@ == old(meta)@ + advice_cells(advices@, rotation as int),
{
    let ghost cells = advice_cells(advices@, rotation as int);
    let mut index: usize = rind;
    let mut wrapped = false;
    let mut rlc = Expression::Constant(F::zero());
    proof {
        assert(cells.take(0) =~= Seq::<Poly>::empty());
        assert(meta@ =~= old(meta)@ + cells.take(0));
    }
    for i in 0..advices.len()
        invariant
            forall|j: int|
                0 <= j < advices.len() ==> {
                    &&& #[trigger] r_index(rind as int, j) < r_table.len()
                    &&& !r_table@[r_index(rind as int, j)]@.contains_simple_selector()
                },
            advices.len() > 0 ==> !mult@.contains_simple_selector(),
            cells == advice_cells(advices@, rotation as int),
            index == r_index(rind as int, i as int),
            wrapped == r_wrapped(rind as int, i as int),
            rlc@ == rlc_poly(cells.take(i as int), rind as int, mult@, polys(r_table@)),
            !rlc@.contains_simple_selector(),
            meta@ == old(meta)@ + cells.take(i as int),
    {
        let s = meta.query_advice(advices[i], Rotation(rotation));
        proof {
            assert(cells.take(i + 1).drop_last() =~= cells.take(i as int));
            assert(meta@ =~= old(meta)@ + cells.take(i + 1));
            assert(r_index(rind as int, i as int) < r_table.len());
            assert(polys(r_table@)[index as int] == r_table@[index as int]@);
        }
        if !wrapped {
            rlc = rlc + s * r_table[index].clone() * mult.clone();
        } else {
            proof {
                // The last power was used for an earlier column.
                let j = R_TABLE_LEN - 1 - rind;
                assert(r_index(rind as int, j) == R_TABLE_LEN - 1);
            }
            assert(polys(r_table@)[R_TABLE_LEN - 1] == r_table@[R_TABLE_LEN - 1]@);
            rlc = rlc
                + s * r_table[index].clone() * r_table[R_TABLE_LEN - 1].clone() * mult.clone();
        }
        if index == R_TABLE_LEN - 1 {
            index = 0;
            wrapped = true;
        } else {
            index = index + 1;
        }
    }
    assert(cells.take(advices.len() as int) =~= cells);
    rlc
}

/// The lookup that puts a column into the range of a part of the fixed table.
pub open spec fn range_lookup(
    queried: Seq<Poly>,
    q_enable: Poly,
    column: int,
    tag: FixedTableTag,
    fixed_table: Seq<int>,
    p: int,
) -> LookupView {
    let s = Poly::Advice(column, 0);
    let tags = Poly::Fixed(fixed_table[0], 0);
    let values = Poly::Fixed(fixed_table[1], 0);
    LookupView {
        name: None,
        queried: queried + seq![s, tags, values],
        table_map: seq![
            (Poly::Constant(tag.spec_number() % p), tags),
            (q_enable.times(s), values),
        ],
    }
}

/// Looks each of the columns up in a part of the fixed table, where `q_enable`
/// is one; where it is zero, zero is looked up. `cells` holds the queries that
/// were made for `q_enable`.
pub fn range_lookups<F: FieldExt>(
    meta: &mut ConstraintSystem<F>,
    cells: &VirtualCells,
    q_enable: &Expression<F>,
    columns: Vec<Column<Advice>>,
    tag: FixedTableTag,
    fixed_table: [Column<Fixed>; 3],
)
    ensures
        final(meta)@ == (ConstraintSystemView {
            lookups: old(meta)@.lookups + columns@.map_values(
                |c: Column<Advice>|
                    range_lookup(
                        cells@,
                        q_enable@,
                        c.index as int,
                        tag,
                        indices(fixed_table@),
                        F::modulus(),
                    ),
            ),
            ..old(meta)@
        }),
{
    let ghost added = columns@.map_values(
        |c: Column<Advice>|
            range_lookup(
                cells@,
                q_enable@,
                c.index as int,
                tag,
                indices(fixed_table@),
                F::modulus(),
            ),
    );
    assert(meta@.lookups =~= old(meta)@.lookups + added.take(0));
    for i in 0..columns.len()
        invariant
            added == columns@.map_values(
                |c: Column<Advice>|
                    range_lookup(
                        cells@,
                        q_enable@,
                        c.index as int,
                        tag,
                        indices(fixed_table@),
                        F::modulus(),
                    ),
            ),
            meta@ == (ConstraintSystemView {
                lookups: old(meta)@.lookups + added.take(i as int),
                ..old(meta)@
            }),
    {
        let mut cells = cells.repeat();
        let mut constraints: Vec<(Expression<F>, Expression<F>)> = Vec::new();

        let s = cells.query_advice(columns[i], Rotation::cur());
        constraints.push(
            (
                Expression::Constant(F::from_u64(tag.number())),
                cells.query_fixed(fixed_table[0], Rotation::cur()),
            ),
        );
        constraints.push(
            (q_enable.clone() * s, cells.query_fixed(fixed_table[1], Rotation::cur())),
        );
        proof {
            assert(cells@ =~= added[i as int].queried);
            assert(poly_pairs(constraints@) =~= added[i as int].table_map);
            assert(added.take(i + 1) =~= added.take(i as int).push(added[i as int]));
        }
        meta.lookup_any(None, cells, constraints);
        assert(meta@.lookups =~= old(meta)@.lookups + added.take(i + 1));
    }
    assert(added.take(columns.len() as int) =~= added);
}

/// The lookup that a byte is zero if it stands behind the end of the key.
pub open spec fn key_len_lookup_view(
    queried: Seq<Poly>,
    q_enable: Poly,
    ind: int,
    key_len_col: int,
    column: int,
    fixed_table: Seq<int>,
    p: int,
) -> LookupView {
    let s = Poly::Advice(column, 0);
    let prefix = Poly::Advice(key_len_col, 0);
    let tags = Poly::Fixed(fixed_table[0], 0);
    let values = Poly::Fixed(fixed_table[1], 0);
    let key_len = prefix.minus(Poly::Constant(128int % p));
    let key_len_rem = key_len.minus(Poly::Constant(ind % p));
    LookupView {
        name: None,
        queried: queried + seq![s, prefix, tags, values],
        table_map: seq![
            (Poly::Constant(FixedTableTag::RangeKeyLen256.spec_number() % p), tags),
            (q_enable.times(s).times(key_len_rem), values),
        ],
    }
}

/// The columns after the key stops have to be 0 to prevent attacks on RLC using
/// bytes that should be 0.
///
/// Say we have a key of length 3: `[248,112,131,59,158,123,0,0,0,...`. There
/// `131 - 128 = 3` is the key length, and all bytes after the key ends (after 59,
/// 158, 123) have to be 0. The following is looked up (33 is the maximal key
/// length):
/// ```text
/// (key_len - 1) * 59 < 33 * 255
/// (key_len - 2) * 158 < 33 * 255
/// (key_len - 3) * 123 < 33 * 255
/// ```
/// From there on the first factor is negative, and the product is in the range
/// only if the byte is 0:
/// ```text
/// (key_len - 4) * byte < 33 * 255
/// (key_len - 5) * byte < 33 * 255
/// ```
/// `cells` holds the queries that were made for `q_enable`.
pub fn key_len_lookup<F: FieldExt>(
    meta: &mut ConstraintSystem<F>,
    cells: &VirtualCells,
    q_enable: &Expression<F>,
    ind: usize,
    key_len_col: Column<Advice>,
    column: Column<Advice>,
    fixed_table: [Column<Fixed>; 3],
)
    ensures
        final(meta)@ == (ConstraintSystemView {
            lookups: old(meta)@.lookups.push(
                key_len_lookup_view(
                    cells@,
                    q_enable@,
                    ind as int,
                    key_len_col.index as int,
                    column.index as int,
                    indices(fixed_table@),
                    F::modulus(),
                ),
            ),
            ..old(meta)@
        }),
{
    let ghost queried = cells@;
    let mut cells = cells.repeat();
    let mut constraints: Vec<(Expression<F>, Expression<F>)> = Vec::new();

    let s = cells.query_advice(column, Rotation::cur());
    let c128 = Expression::Constant(F::from_u64(128));
    let key_len = cells.query_advice(key_len_col, Rotation::cur()) - c128;
    let key_len_rem = key_len - Expression::Constant(F::from_u64(ind as u64));
    constraints.push(
        (
            Expression::Constant(F::from_u64(FixedTableTag::RangeKeyLen256.number())),
            cells.query_fixed(fixed_table[0], Rotation::cur()),
        ),
    );
    constraints.push(
        (
            q_enable.clone() * s * key_len_rem,
            cells.query_fixed(fixed_table[1], Rotation::cur()),
        ),
    );
    proof {
        let lookup = key_len_lookup_view(
            queried,
            q_enable@,
            ind as int,
            key_len_col.index as int,
            column.index as int,
            indices(fixed_table@),
            F::modulus(),
        );
        assert(cells@ =~= lookup.queried);
        assert(poly_pairs(constraints@) =~= lookup.table_map);
    }
    meta.lookup_any(None, cells, constraints);
}

/// The lookup that a multiplier belongs to a key length.
pub open spec fn mult_diff_lookup_view(
    queried: Seq<Poly>,
    q_enable: Poly,
    addition: int,
    key_len_col: int,
    mult_diff_col: int,
    fixed_table: Seq<int>,
    p: int,
) -> LookupView {
    let prefix = Poly::Advice(key_len_col, 0);
    let mult_diff = Poly::Advice(mult_diff_col, 0);
    let tags = Poly::Fixed(fixed_table[0], 0);
    let values = Poly::Fixed(fixed_table[1], 0);
    let mults = Poly::Fixed(fixed_table[2], 0);
    let key_len = prefix.minus(Poly::Constant(128int % p));
    LookupView {
        name: None,
        queried: queried + seq![prefix, mult_diff, tags, values, mults],
        table_map: seq![
            (Poly::Constant(FixedTableTag::RMult.spec_number() % p), tags),
            (q_enable.times(key_len.plus(Poly::Constant(addition % p))), values),
            (q_enable.times(mult_diff), mults),
        ],
    }
}

/// Looks up, in the table of multipliers, the one for the key length plus
/// `addition`. `cells` holds the queries that were made for `q_enable`.
pub fn mult_diff_lookup<F: FieldExt>(
    meta: &mut ConstraintSystem<F>,
    cells: &VirtualCells,
    q_enable: &Expression<F>,
    addition: usize,
    key_len_col: Column<Advice>,
    mult_diff_col: Column<Advice>,
    fixed_table: [Column<Fixed>; 3],
)
    ensures
        final(meta)@ == (ConstraintSystemView {
            lookups: old(meta)@.lookups.push(
                mult_diff_lookup_view(
                    cells@,
                    q_enable@,
                    addition as int,
                    key_len_col.index as int,
                    mult_diff_col.index as int,
                    indices(fixed_table@),
                    F::modulus(),
                ),
            ),
            ..old(meta)@
        }),
{
    let ghost queried = cells@;
    let mut cells = cells.repeat();
    let mut constraints: Vec<(Expression<F>, Expression<F>)> = Vec::new();

    let c128 = Expression::Constant(F::from_u64(128));
    let key_len = cells.query_advice(key_len_col, Rotation::cur()) - c128;
    let mult_diff_nonce = cells.query_advice(mult_diff_col, Rotation::cur());
    let add_expr = Expression::Constant(F::from_u64(addition as u64));

    constraints.push(
        (
            Expression::Constant(F::from_u64(FixedTableTag::RMult.number())),
            cells.query_fixed(fixed_table[0], Rotation::cur()),
        ),
    );
    constraints.push(
        (
            q_enable.clone() * (key_len + add_expr),
            cells.query_fixed(fixed_table[1], Rotation::cur()),
        ),
    );
    constraints.push(
        (
            q_enable.clone() * mult_diff_nonce,
            cells.query_fixed(fixed_table[2], Rotation::cur()),
        ),
    );
    proof {
        let lookup = mult_diff_lookup_view(
            queried,
            q_enable@,
            addition as int,
            key_len_col.index as int,
            mult_diff_col.index as int,
            indices(fixed_table@),
            F::modulus(),
        );
        assert(cells@ =~= lookup.queried);
        assert(poly_pairs(constraints@) =~= lookup.table_map);
    }
    meta.lookup_any(None, cells, constraints);
}

} // verus!
