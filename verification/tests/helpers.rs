use group::ff::{Field, PrimeField};
use halo2curves::bn256::Fr as Scalar;
use zkevm_circuits::field::{BaseExt, FieldExt, Fr};
use zkevm_circuits::helpers::{
    compute_rlc, into_words_expr, key_len_lookup, mult_diff_lookup, range_lookups, FixedTableTag,
    R_TABLE_LEN,
};
use zkevm_circuits::plonk::{
    Advice, Column, ConstraintSystem, Expression, Fixed, Lookup, Query, Rotation, VirtualCells,
};

/// The cells of a circuit, by column and then by row.
struct Grid {
    advice: Vec<Vec<u64>>,
    fixed: Vec<Vec<u64>>,
}

fn eval(e: &Expression<Fr>, grid: &Grid, row: usize) -> Scalar {
    match e {
        Expression::Constant(c) => Scalar::from_repr(c.write()).unwrap(),
        Expression::Advice(c, at) => {
            Scalar::from(grid.advice[c.index][(row as i32 + at.0) as usize])
        }
        Expression::Fixed(c, at) => Scalar::from(grid.fixed[c.index][(row as i32 + at.0) as usize]),
        Expression::Negated(a) => -eval(a, grid, row),
        Expression::Sum(a, b) => eval(a, grid, row) + eval(b, grid, row),
        Expression::Product(a, b) => eval(a, grid, row) * eval(b, grid, row),
        _ => unreachable!(),
    }
}

/// Whether the inputs at a row are in the table.
fn holds(lookup: &Lookup<Fr>, grid: &Grid, row: usize) -> bool {
    (0..grid.fixed[0].len()).any(|table_row| {
        lookup
            .table_map
            .iter()
            .all(|(input, table)| eval(input, grid, row) == eval(table, grid, table_row))
    })
}

fn advice(index: usize) -> Column<Advice> {
    Column { index, column_type: Advice }
}

fn fixed_table() -> [Column<Fixed>; 3] {
    [0, 1, 2].map(|index| Column { index, column_type: Fixed })
}

fn cell(index: usize) -> Expression<Fr> {
    Expression::Advice(advice(index), Rotation::cur())
}

/// What is read, as `(kind, column, rotation)`.
fn reads(queried: &[Query]) -> Vec<(char, usize, i32)> {
    queried
        .iter()
        .map(|q| match q {
            Query::Selector(s) => ('s', s.index, 0),
            Query::Fixed(c, at) => ('f', c.index, at.0),
            Query::Advice(c, at) => ('a', c.index, at.0),
            Query::Instance(c, at) => ('i', c.index, at.0),
        })
        .collect()
}

/// An enabling column, with the query that reads it.
fn enabled_by(index: usize) -> (VirtualCells, Expression<Fr>) {
    let mut cells = VirtualCells::new();
    let q_enable = cells.query_advice(advice(index), Rotation::cur());
    (cells, q_enable)
}

#[test]
fn tag_numbers() {
    assert_eq!(FixedTableTag::RMult.number(), 0);
    assert_eq!(FixedTableTag::Range16.number(), 1);
    assert_eq!(FixedTableTag::Range256.number(), 2);
    assert_eq!(FixedTableTag::RangeKeyLen256.number(), 3);
}

#[test]
fn words_are_little_endian() {
    let hash: Vec<Expression<Fr>> = (0..32).map(cell).collect();
    let words = into_words_expr(hash);
    assert_eq!(words.len(), 4);
    let bytes: Vec<u64> = (0..32).map(|i| (i * 37 + 200) % 256).collect();
    let grid = Grid { advice: bytes.iter().map(|b| vec![*b]).collect(), fixed: vec![] };
    for i in 0..4 {
        let mut word = [0u8; 8];
        for j in 0..8 {
            word[j] = bytes[8 * i + j] as u8;
        }
        assert_eq!(eval(&words[i], &grid, 0), Scalar::from(u64::from_le_bytes(word)));
    }
}

#[test]
fn words_take_the_first_32_cells() {
    let hash: Vec<Expression<Fr>> = (0..40).map(cell).collect();
    assert_eq!(into_words_expr(hash).len(), 4);
}

/// A table of the powers of 3, from the first on.
fn r_table() -> Vec<Expression<Fr>> {
    let mut powers = Vec::new();
    let mut power = Fr::from_u64(3);
    for _ in 0..R_TABLE_LEN {
        powers.push(Expression::Constant(power));
        power = power.mul(Fr::from_u64(3));
    }
    powers
}

/// The combination of 2, 3, 4, ... in `n` columns, by `mult`.
fn combined(n: usize, rind: usize, mult: u64, rotation: i32) -> Scalar {
    let mut meta = VirtualCells::new();
    let e = compute_rlc(
        &mut meta,
        (0..n).map(advice).collect(),
        rind,
        Expression::Constant(Fr::from_u64(mult)),
        rotation,
        r_table(),
    );
    let expected: Vec<(char, usize, i32)> = (0..n).map(|i| ('a', i, rotation)).collect();
    assert_eq!(reads(&meta.queried), expected);
    let grid = Grid {
        advice: (0..n as u64).map(|i| vec![100 + i, i + 2, 200 + i]).collect(),
        fixed: vec![],
    };
    eval(&e, &grid, (1 - rotation) as usize)
}

#[test]
fn rlc_of_nothing_is_zero() {
    assert_eq!(combined(0, 0, 7, 0), Scalar::ZERO);
}

#[test]
fn rlc_starts_at_the_first_power() {
    // 2 * 3 + 3 * 9 + 4 * 27
    assert_eq!(combined(3, 0, 1, 0), Scalar::from(141));
    assert_eq!(combined(3, 0, 10, 0), Scalar::from(1410));
    // 2 * 9 + 3 * 27 + 4 * 81
    assert_eq!(combined(3, 1, 1, 0), Scalar::from(423));
    assert_eq!(combined(3, 1, 1, -1), Scalar::from(423));
}

#[test]
fn rlc_runs_over_the_end_of_the_table() {
    for (n, rind) in [(32, 0), (33, 0), (64, 0), (3, 30), (3, 31), (33, 31)] {
        let mut expected = Scalar::ZERO;
        for j in 0..n {
            let power = Scalar::from(3).pow([(rind + 1 + j) as u64]);
            expected += Scalar::from(j as u64 + 2) * power;
        }
        assert_eq!(combined(n, rind, 1, 0), expected);
        assert_eq!(combined(n, rind, 5, 0), expected * Scalar::from(5));
    }
}

#[test]
fn rlc_multiplies_by_the_last_power_only_once() {
    // After the second run over the end, powers repeat: column 64 has the power
    // of column 32.
    let mut expected = Scalar::ZERO;
    for j in 0..65 {
        let exponent = if j < 64 { j + 1 } else { j - 31 };
        expected += Scalar::from(j + 2) * Scalar::from(3).pow([exponent]);
    }
    assert_eq!(combined(65, 0, 1, 0), expected);
}

#[test]
fn rlc_with_an_index_behind_the_last_power() {
    let mut table = r_table();
    table.push(Expression::Constant(Fr::from_u64(1_000)));
    table.push(Expression::Constant(Fr::from_u64(100_000)));
    let mut meta = VirtualCells::new();
    let e = compute_rlc(
        &mut meta,
        vec![advice(0), advice(1)],
        32,
        Expression::Constant(Fr::from_u64(1)),
        0,
        table,
    );
    let grid = Grid { advice: vec![vec![7], vec![8]], fixed: vec![] };
    assert_eq!(eval(&e, &grid, 0), Scalar::from(807_000));
}

#[test]
fn range_lookups_put_columns_into_a_range() {
    let mut meta: ConstraintSystem<Fr> = ConstraintSystem::new();
    let (cells, q_enable) = enabled_by(2);
    range_lookups(
        &mut meta,
        &cells,
        &q_enable,
        vec![advice(0), advice(1)],
        FixedTableTag::Range16,
        fixed_table(),
    );
    assert_eq!(meta.lookups.len(), 2);
    assert_eq!(
        reads(&meta.lookups[1].queried),
        vec![('a', 2, 0), ('a', 1, 0), ('f', 0, 0), ('f', 1, 0)]
    );
    // 0 to 15, and a larger number in another part of the table.
    let mut tags = vec![FixedTableTag::Range16.number(); 16];
    let mut numbers: Vec<u64> = (0..16).collect();
    tags.push(FixedTableTag::Range256.number());
    numbers.push(200);
    let grid = Grid {
        advice: vec![vec![15, 16, 200, 16], vec![0, 1, 2, 3], vec![1, 1, 1, 0]],
        fixed: vec![tags, numbers, vec![0; 17]],
    };
    assert!(holds(&meta.lookups[0], &grid, 0));
    assert!(!holds(&meta.lookups[0], &grid, 1));
    assert!(!holds(&meta.lookups[0], &grid, 2));
    // Not enabled.
    assert!(holds(&meta.lookups[0], &grid, 3));
    for row in 0..4 {
        assert!(holds(&meta.lookups[1], &grid, row));
    }
}

#[test]
fn no_column_no_range_lookup() {
    let mut meta: ConstraintSystem<Fr> = ConstraintSystem::new();
    let (cells, q_enable) = enabled_by(0);
    range_lookups(&mut meta, &cells, &q_enable, vec![], FixedTableTag::Range256, fixed_table());
    assert!(meta.lookups.is_empty());
}

/// The lookup of a byte of the key, and a grid with rows
/// `(key length, byte, enabled)`.
fn key_len_grid(ind: usize, rows: &[(u64, u64, u64)]) -> (Lookup<Fr>, Grid) {
    let mut meta: ConstraintSystem<Fr> = ConstraintSystem::new();
    let (cells, q_enable) = enabled_by(2);
    key_len_lookup(&mut meta, &cells, &q_enable, ind, advice(0), advice(1), fixed_table());
    assert_eq!(meta.lookups.len(), 1);
    let lookup = meta.lookups.pop().unwrap();
    let range = 33 * 255;
    let grid = Grid {
        advice: vec![
            rows.iter().map(|row| 128 + row.0).collect(),
            rows.iter().map(|row| row.1).collect(),
            rows.iter().map(|row| row.2).collect(),
        ],
        fixed: vec![
            vec![FixedTableTag::RangeKeyLen256.number(); range],
            (0..range as u64).collect(),
            vec![0; range],
        ],
    };
    (lookup, grid)
}

#[test]
fn bytes_of_the_key_are_free() {
    // The key 59, 158, 123 has length 3.
    for (ind, byte) in [(1, 59), (2, 158), (3, 123)] {
        let (lookup, grid) = key_len_grid(ind, &[(3, byte, 1), (3, 255, 1), (3, 0, 1)]);
        for row in 0..3 {
            assert!(holds(&lookup, &grid, row));
        }
    }
}

#[test]
fn bytes_behind_the_key_are_zero() {
    for ind in [4, 5, 6, 32] {
        let (lookup, grid) = key_len_grid(ind, &[(3, 0, 1), (3, 1, 1), (3, 255, 1)]);
        assert!(holds(&lookup, &grid, 0));
        assert!(!holds(&lookup, &grid, 1));
        assert!(!holds(&lookup, &grid, 2));
    }
}

#[test]
fn key_len_lookup_is_zero_where_it_is_not_enabled() {
    let (lookup, grid) = key_len_grid(4, &[(3, 255, 0)]);
    assert!(holds(&lookup, &grid, 0));
    assert_eq!(
        reads(&lookup.queried),
        vec![('a', 2, 0), ('a', 1, 0), ('a', 0, 0), ('f', 0, 0), ('f', 1, 0)]
    );
    assert_eq!(lookup.name, None);
    assert_eq!(lookup.table_map.len(), 2);
}

#[test]
fn multiplier_belongs_to_the_key_length() {
    let mut meta: ConstraintSystem<Fr> = ConstraintSystem::new();
    let (cells, q_enable) = enabled_by(2);
    mult_diff_lookup(&mut meta, &cells, &q_enable, 2, advice(0), advice(1), fixed_table());
    assert_eq!(meta.lookups.len(), 1);
    let lookup = &meta.lookups[0];
    assert_eq!(
        reads(&lookup.queried),
        vec![('a', 2, 0), ('a', 0, 0), ('a', 1, 0), ('f', 0, 0), ('f', 1, 0), ('f', 2, 0)]
    );
    // The multiplier for i is 10^i. The last row is for where it is not enabled.
    let grid = Grid {
        advice: vec![
            vec![128 + 3, 128 + 3, 128, 128 + 9, 128 + 3],
            vec![100_000, 10_000, 100, 1, 10_000],
            vec![1, 1, 1, 1, 0],
        ],
        fixed: vec![
            vec![FixedTableTag::RMult.number(); 8],
            vec![0, 1, 2, 3, 4, 5, 6, 0],
            vec![1, 10, 100, 1_000, 10_000, 100_000, 1_000_000, 0],
        ],
    };
    assert!(holds(lookup, &grid, 0));
    assert!(!holds(lookup, &grid, 1));
    assert!(holds(lookup, &grid, 2));
    assert!(!holds(lookup, &grid, 3));
    assert!(holds(lookup, &grid, 4));
}

#[test]
fn raising_the_addition_is_raising_the_key_length() {
    let lookup = |addition: usize| {
        let mut meta: ConstraintSystem<Fr> = ConstraintSystem::new();
        let (cells, q_enable) = enabled_by(2);
        let (key_len_col, mult_diff_col) = (advice(0), advice(1));
        mult_diff_lookup(
            &mut meta,
            &cells,
            &q_enable,
            addition,
            key_len_col,
            mult_diff_col,
            fixed_table(),
        );
        meta.lookups.pop().unwrap()
    };
    // The key lengths of the two rows are 9 and 4.
    let grid = Grid {
        advice: vec![vec![128 + 9, 128 + 4], vec![77, 77], vec![1, 1]],
        fixed: vec![],
    };
    let (first, second) = (lookup(2), lookup(7));
    for i in 0..3 {
        assert_eq!(
            eval(&first.table_map[i].0, &grid, 0),
            eval(&second.table_map[i].0, &grid, 1)
        );
    }
    assert_eq!(eval(&first.table_map[1].0, &grid, 0), Scalar::from(11));
    assert_ne!(eval(&first.table_map[1].0, &grid, 1), Scalar::from(11));
}

#[test]
fn multiplier_of_a_prefix_below_128() {
    let mut meta: ConstraintSystem<Fr> = ConstraintSystem::new();
    let (cells, q_enable) = enabled_by(2);
    mult_diff_lookup(&mut meta, &cells, &q_enable, 5, advice(0), advice(1), fixed_table());
    // A key length of -2, and the multiplier for -2 + 5.
    let grid = Grid {
        advice: vec![vec![126], vec![1_000], vec![1]],
        fixed: vec![
            vec![FixedTableTag::RMult.number(); 4],
            vec![0, 1, 2, 3],
            vec![1, 10, 100, 1_000],
        ],
    };
    assert!(holds(&meta.lookups[0], &grid, 0));
}
