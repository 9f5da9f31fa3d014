use zkevm_circuits::circuit::{Error, Event, Region};
use zkevm_circuits::field::{BaseExt, FieldExt, Fr};
use zkevm_circuits::is_zero::IsZeroChip;
use zkevm_circuits::plonk::{
    Advice, Column, ConstraintSystem, Expression, Query, Rotation, VirtualCells,
};
use zkevm_circuits::rlc::{random_linear_combine, random_linear_combine_expr};

fn advice(index: usize) -> Column<Advice> {
    Column { index, column_type: Advice }
}

fn number(x: u64) -> Fr {
    Fr::from_u64(x)
}

fn minus_one() -> Fr {
    // minus one: the sum with one is zero
    let mut bytes = [0u8; 32];
    let digits = "30644e72e131a029b85045b68181585d2833e84879b9709143e1f593f0000000";
    for i in 0..32 {
        bytes[31 - i] = u8::from_str_radix(&digits[2 * i..2 * i + 2], 16).unwrap();
    }
    Fr::from_repr(bytes).unwrap()
}

/// The value of an expression over advice cells of one row.
fn eval(e: &Expression<Fr>, row: &[Fr]) -> Fr {
    match e {
        Expression::Constant(c) => *c,
        Expression::Advice(c, at) => {
            assert_eq!(at.0, 0);
            row[c.index]
        }
        Expression::Negated(a) => eval(a, row).mul(minus_one()),
        Expression::Sum(a, b) => eval(a, row).add(eval(b, row)),
        Expression::Product(a, b) => eval(a, row).mul(eval(b, row)),
        _ => unreachable!(),
    }
}

#[test]
fn bytes_combine_from_the_first() {
    let combined = random_linear_combine([3, 5, 7], number(10));
    assert_eq!(combined.write(), number(753).write());
    let none: [u8; 0] = [];
    assert_eq!(random_linear_combine(none, number(10)).write(), number(0).write());
    // With weight 256 the bytes are a little-endian number.
    let combined = random_linear_combine([0x78, 0x56, 0x34, 0x12], number(256));
    assert_eq!(combined.write(), number(0x12345678).write());
}

#[test]
fn expressions_combine_as_their_values_do() {
    let mut bytes: Vec<Expression<Fr>> = Vec::new();
    for i in 0..3 {
        bytes.push(Expression::Advice(advice(i), Rotation::cur()));
    }
    let powers: Vec<Expression<Fr>> = vec![
        Expression::Advice(advice(3), Rotation::cur()),
        Expression::Advice(advice(4), Rotation::cur()),
    ];
    let combined = random_linear_combine_expr(&bytes, &powers);
    let row = [number(3), number(5), number(7), number(10), number(100)];
    assert_eq!(eval(&combined, &row).write(), number(753).write());
    assert_eq!(eval(&combined, &row).write(), random_linear_combine([3, 5, 7], number(10)).write());
}

/// The gadget on the value in column 0, with its inverse in column 1, enabled by
/// column 2.
fn is_zero_chip() -> (ConstraintSystem<Fr>, IsZeroChip<Fr>) {
    let mut meta: ConstraintSystem<Fr> = ConstraintSystem::new();
    for _ in 0..3 {
        meta.advice_column();
    }
    let mut cells = VirtualCells::new();
    let q_enable = cells.query_advice(advice(2), Rotation::cur());
    let value = cells.query_advice(advice(0), Rotation::cur());
    let config = IsZeroChip::configure(&mut meta, cells, q_enable, value, advice(1));
    (meta, IsZeroChip::construct(config))
}

#[test]
fn is_zero_reads_three_cells() {
    let (meta, chip) = is_zero_chip();
    assert_eq!(chip.config.value_inv, advice(1));
    assert_eq!(meta.gates.len(), 1);
    assert_eq!(meta.gates[0].name, "is_zero gate");
    assert_eq!(meta.gates[0].polys.len(), 1);
    let read: Vec<usize> = meta.gates[0]
        .queried
        .iter()
        .map(|q| match q {
            Query::Advice(c, at) => {
                assert_eq!(*at, Rotation(0));
                c.index
            }
            _ => unreachable!(),
        })
        .collect();
    assert_eq!(read, vec![2, 0, 1]);
}

#[test]
fn is_zero_with_the_assigned_inverse() {
    let (meta, chip) = is_zero_chip();
    for (value, expected) in [(0u64, 1u64), (1, 0), (77, 0)] {
        let mut region = Region { index: 0, name: "row", events: Vec::new() };
        assert_eq!(chip.assign(&mut region, 4, Some(number(value))), Ok(()));
        assert_eq!(region.events.len(), 1);
        let inverse = match &region.events[0] {
            Event::AssignAdvice { column, offset, value } => {
                assert_eq!((column.index, *offset), (1, 4));
                *value
            }
            _ => unreachable!(),
        };
        let row = [number(value), inverse, number(1)];
        assert_eq!(eval(&chip.config.is_zero_expression, &row).write(), number(expected).write());
        assert_eq!(eval(&meta.gates[0].polys[0], &row).write(), number(0).write());
    }
}

#[test]
fn is_zero_refuses_a_wrong_inverse() {
    let (meta, _) = is_zero_chip();
    // 77 * 5 is not one, and 77 is not zero.
    let row = [number(77), number(5), number(1)];
    assert_ne!(eval(&meta.gates[0].polys[0], &row).write(), number(0).write());
    // Where it is not enabled, anything goes.
    let row = [number(77), number(5), number(0)];
    assert_eq!(eval(&meta.gates[0].polys[0], &row).write(), number(0).write());
    // Any inverse will do for zero.
    let row = [number(0), number(5), number(1)];
    assert_eq!(eval(&meta.gates[0].polys[0], &row).write(), number(0).write());
}

#[test]
fn is_zero_needs_a_value() {
    let (_, chip) = is_zero_chip();
    let mut region: Region<Fr> = Region { index: 0, name: "row", events: Vec::new() };
    assert_eq!(chip.assign(&mut region, 0, None), Err(Error::Synthesis));
    assert!(region.events.is_empty());
}
