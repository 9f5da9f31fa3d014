use std::marker::PhantomData;
use zkevm_circuits::circuit::{AssignedInteger, AssignedLimb, Cell, Error, Event, Layouter, Region};
use zkevm_circuits::field::{BaseExt, FieldExt, Fp, Fq, Fr};
use zkevm_circuits::plonk::{Advice, Column, ConstraintSystem, Instance};
use zkevm_circuits::tx_circuit::{
    assign_integer_bytes_le, copy_integer, overflow_bit_lengths, pub_key_bytes_be,
    AssignedSignature, KeccakAux, Secp256k1Affine, SignVerifyChip, SignVerifyConfig, TxSignData,
    BIT_LEN_LIMB, KECCAK_INPUT_LEN, KECCAK_INPUT_RLC, KECCAK_IS_ENABLED, KECCAK_OUTPUT_RLC,
    POW_RAND_SIZE,
};

/// Bytes from hexadecimal digits, in the order in which they are written.
fn hex(digits: &str) -> [u8; 32] {
    let mut bytes = [0u8; 32];
    for i in 0..32 {
        bytes[i] = u8::from_str_radix(&digits[2 * i..2 * i + 2], 16).unwrap();
    }
    bytes
}

fn reversed(bytes: [u8; 32]) -> [u8; 32] {
    let mut r = bytes;
    r.reverse();
    r
}

const GENERATOR_X: &str = "79be667ef9dcbbac55a06295ce870b07029bfcdb2dce28d959f2815b16f81798";
const GENERATOR_Y: &str = "483ada7726a3c4655da4fbfc0e1108a8fd17b448a68554199c47d08ffb10d4b8";
// The last 20 bytes are the address of the account whose secret key is one.
const GENERATOR_HASH: &str = "c0a6c424ac7157ae408398df7e5f4552091a69125d5dfcb7b8c2659029395bdf";

/// The generator of the curve.
fn generator() -> Secp256k1Affine {
    Secp256k1Affine {
        x: Fp::from_repr(reversed(hex(GENERATOR_X))).unwrap(),
        y: Fp::from_repr(reversed(hex(GENERATOR_Y))).unwrap(),
    }
}

fn scalar(first: u8) -> Fq {
    let mut bytes = [0u8; 32];
    bytes[0] = first;
    Fq::from_repr(bytes).unwrap()
}

fn tx() -> TxSignData {
    TxSignData { signature: (scalar(11), scalar(12)), pub_key: generator(), msg_hash: scalar(9) }
}

fn chip() -> SignVerifyChip<Fr> {
    SignVerifyChip { aux_generator: generator(), window_size: 2, _marker: PhantomData }
}

fn advice(index: usize) -> Column<Advice> {
    Column { index, column_type: Advice }
}

fn limb(value: Option<u64>, row_offset: usize) -> AssignedLimb<Fr> {
    let cell = Cell { region_index: 7, row_offset, column: advice(500) };
    AssignedLimb { value: value.map(Fr::from_u64), cell }
}

fn integer(values: &[Option<u64>]) -> AssignedInteger<Fr> {
    AssignedInteger { limbs: values.iter().enumerate().map(|(i, v)| limb(*v, i)).collect() }
}

fn known() -> AssignedSignature<Fr> {
    AssignedSignature {
        pk_x: integer(&[Some(1), Some(2), Some(3), Some(4)]),
        pk_y: integer(&[Some(5), Some(6), Some(7), Some(8)]),
        msg_hash: integer(&[Some(9), Some(10), Some(11), Some(12)]),
    }
}

fn region(index: usize) -> Region<Fr> {
    Region { index, name: "row", events: Vec::new() }
}

/// The assignments of a region, as `(column, offset, value)`.
fn assignments(region: &Region<Fr>) -> Vec<(usize, usize, [u8; 32])> {
    region
        .events
        .iter()
        .filter_map(|event| match event {
            Event::AssignAdvice { column, offset, value } => {
                Some((column.index, *offset, value.write()))
            }
            _ => None,
        })
        .collect()
}

/// The copy constraints of a region, as cells `(region, row, column)`.
fn copies(region: &Region<Fr>) -> Vec<((usize, usize, usize), (usize, usize, usize))> {
    let place = |cell: &Cell| (cell.region_index, cell.row_offset, cell.column.index);
    region
        .events
        .iter()
        .filter_map(|event| match event {
            Event::ConstrainEqual { left, right } => Some((place(left), place(right))),
            _ => None,
        })
        .collect()
}

fn number(x: u64) -> [u8; 32] {
    Fr::from_u64(x).write()
}

/// What is assigned to a cell.
fn held(region: &Region<Fr>, column: usize, offset: usize) -> [u8; 32] {
    let found: Vec<[u8; 32]> = assignments(region)
        .iter()
        .filter(|a| a.0 == column && a.1 == offset)
        .map(|a| a.2)
        .collect();
    assert_eq!(found.len(), 1);
    found[0]
}

fn configured(meta: &mut ConstraintSystem<Fr>) -> SignVerifyConfig<Fr> {
    SignVerifyChip::configure(meta, [Column { index: 0, column_type: Instance }; POW_RAND_SIZE])
}

#[test]
fn copied_integer() {
    let mut region = region(3);
    let src = integer(&[Some(21), Some(22), Some(23)]);
    let dst = [advice(30), advice(31), advice(32), advice(33)];
    assert_eq!(copy_integer(&mut region, &src, &dst, 5), Ok(()));
    assert_eq!(region.events.len(), 6);
    assert_eq!(
        assignments(&region),
        vec![(30, 5, number(21)), (31, 5, number(22)), (32, 5, number(23))]
    );
    assert_eq!(
        copies(&region),
        vec![
            ((3, 5, 30), (7, 0, 500)),
            ((3, 5, 31), (7, 1, 500)),
            ((3, 5, 32), (7, 2, 500))
        ]
    );
}

#[test]
fn unknown_limb_is_an_error() {
    let mut region = region(3);
    let src = integer(&[Some(21), None, Some(23)]);
    let dst = [advice(30), advice(31), advice(32), advice(33)];
    assert_eq!(copy_integer(&mut region, &src, &dst, 0), Err(Error::Synthesis));
    assert_eq!(assignments(&region), vec![(30, 0, number(21))]);
    assert_eq!(copies(&region), vec![((3, 0, 30), (7, 0, 500))]);
}

#[test]
fn integer_bytes_are_little_endian() {
    let mut region = region(0);
    let dst: Vec<Column<Advice>> = (100..140).map(advice).collect();
    assert_eq!(assign_integer_bytes_le(&mut region, generator().x, &dst, 2), Ok(()));
    let bytes = reversed(hex(GENERATOR_X));
    let expected: Vec<(usize, usize, [u8; 32])> =
        (0..32).map(|i| (100 + i, 2, number(bytes[i] as u64))).collect();
    assert_eq!(assignments(&region), expected);
    assert_eq!(expected[0].2, number(0x98));
}

#[test]
fn range_tables_are_for_a_part_of_a_limb() {
    let config = configured(&mut ConstraintSystem::new());
    assert_eq!(BIT_LEN_LIMB, 72);
    assert_eq!(config.load_range(4), 18);
    assert_eq!(config.load_range(5), 14);
    assert_eq!(config.load_range(100), 0);
}

#[test]
fn base_field_overflows_come_first() {
    assert_eq!(overflow_bit_lengths(vec![1, 2], vec![3]), vec![1, 2, 3]);
    assert_eq!(overflow_bit_lengths(vec![], vec![3]), vec![3]);
}

#[test]
fn defaults() {
    let chip: SignVerifyChip<Fr> = SignVerifyChip::default();
    assert_eq!(chip.window_size, 0);
    assert_eq!(chip.aux_generator.x.write(), [0; 32]);
    assert_eq!(chip.aux_generator.y.write(), [0; 32]);
}

#[test]
fn configured_columns() {
    let mut meta: ConstraintSystem<Fr> = ConstraintSystem::new();
    meta.advice_column();
    meta.complex_selector();
    let config = configured(&mut meta);
    assert_eq!(meta.num_advice_columns, 148);
    assert_eq!(meta.num_selectors, 2);
    assert_eq!(config.q_enable.index, 1);
    assert!(!config.q_enable.simple);
    assert_eq!(config.pub_key[0].index, 1);
    assert_eq!(config.pub_key[63].index, 64);
    assert_eq!(config.pk_x_limbs[0].index, 65);
    assert_eq!(config.pk_y_limbs[0].index, 69);
    assert_eq!(config.msg_hash[0].index, 73);
    assert_eq!(config.msg_hash_limbs[0].index, 105);
    assert_eq!(config.address.index, 109);
    assert_eq!(config.pub_key_hash[0].index, 110);
    assert_eq!(config.msg_hash_rlc.index, 142);
    assert_eq!(config.msg_hash_rlc_inv.index, 143);
    assert_eq!(config.keccak_table[3].index, 147);
    assert_eq!(meta.gates.len(), 4);
    assert_eq!(meta.gates[0].name, "is_zero gate");
    assert_eq!(meta.gates[1].name, "address");
    assert_eq!(meta.gates[1].polys.len(), 1);
    assert_eq!(meta.gates[1].queried.len(), 2 + 20);
    assert_eq!(meta.gates[2].name, "limbs");
    assert_eq!(meta.gates[2].polys.len(), 12);
    assert_eq!(meta.gates[2].queried.len(), 1 + 12 + 64 + 32);
    assert_eq!(meta.gates[3].name, "msg_hash_rlc");
    assert_eq!(meta.gates[3].polys.len(), 1);
    assert_eq!(meta.gates[3].queried.len(), 2 + 63 + 32);
    assert_eq!(meta.lookups.len(), 1);
    assert_eq!(meta.lookups[0].name, Some("keccak"));
    assert_eq!(meta.lookups[0].table_map.len(), 4);
    assert_eq!(meta.lookups[0].queried.len(), 1 + 63 + 2 + 64 + 2 + 32);
}

#[test]
fn limb_columns_take_part_in_copies() {
    let mut meta: ConstraintSystem<Fr> = ConstraintSystem::new();
    meta.enable_equality(advice(66));
    meta.enable_equality(advice(200));
    meta.enable_equality(advice(200));
    let config = configured(&mut meta);
    let equality: Vec<usize> = meta.equality.iter().map(|c| c.index).collect();
    for i in 0..4 {
        assert!(equality.contains(&config.pk_x_limbs[i].index));
        assert!(equality.contains(&config.pk_y_limbs[i].index));
        assert!(equality.contains(&config.msg_hash_limbs[i].index));
    }
    // Columns 66 and 200 were there before; 66 is one of the limb columns.
    assert_eq!(equality.len(), 13);
    assert!(equality.contains(&200));
}

#[test]
fn keccak_table_rows() {
    let config = configured(&mut ConstraintSystem::new());
    let mut layouter: Layouter<Fr> = Layouter::new();
    let mut input = [0u8; 64];
    input[0] = 3;
    input[1] = 5;
    let mut output = [0u8; 32];
    output[0] = 7;
    output[2] = 9;
    let aux = KeccakAux { input, output };
    let zeros = KeccakAux { input: [0; 64], output: [0; 32] };
    let result = config.load_keccak(&mut layouter, vec![aux, zeros], Fr::from_u64(10));
    assert_eq!(result, Ok(()));
    assert_eq!(layouter.regions.len(), 1);
    let region = &layouter.regions[0];
    assert_eq!(region.name, "keccak table");
    assert_eq!(region.index, 0);
    assert_eq!(region.events.len(), 12);
    let column = |k: usize| config.keccak_table[k].index;
    for k in 0..4 {
        assert_eq!(held(region, column(k), 0), number(0));
    }
    assert_eq!(held(region, column(KECCAK_IS_ENABLED), 1), number(1));
    assert_eq!(held(region, column(KECCAK_INPUT_RLC), 1), number(53));
    assert_eq!(held(region, column(KECCAK_INPUT_LEN), 1), number(64));
    assert_eq!(held(region, column(KECCAK_OUTPUT_RLC), 1), number(907));
    assert_eq!(held(region, column(KECCAK_IS_ENABLED), 2), number(1));
    assert_eq!(held(region, column(KECCAK_INPUT_RLC), 2), number(0));
    assert_eq!(held(region, column(KECCAK_INPUT_LEN), 2), number(64));
    assert_eq!(held(region, column(KECCAK_OUTPUT_RLC), 2), number(0));
}

#[test]
fn appended_inputs_only_add_rows() {
    let config = configured(&mut ConstraintSystem::new());
    let aux = |byte: u8| KeccakAux { input: [byte; 64], output: [byte + 1; 32] };
    let table = |auxs: Vec<KeccakAux>| {
        let mut layouter: Layouter<Fr> = Layouter::new();
        assert_eq!(config.load_keccak(&mut layouter, auxs, Fr::from_u64(7)), Ok(()));
        assignments(&layouter.regions[0])
    };
    let both = table(vec![aux(1), aux(2), aux(3), aux(4)]);
    let first = table(vec![aux(1), aux(2)]);
    let second = table(vec![aux(3), aux(4)]);
    let mut expected = first;
    expected.extend(second[4..].iter().map(|a| (a.0, a.1 + 2, a.2)));
    assert_eq!(both, expected);
    // Without inputs there is the row of zeros.
    assert_eq!(table(vec![]).len(), 4);
}

#[test]
fn hashed_bytes_are_big_endian() {
    let bytes = pub_key_bytes_be(&generator());
    assert_eq!(bytes[..32], hex(GENERATOR_X));
    assert_eq!(bytes[32..], hex(GENERATOR_Y));
}

#[test]
fn signature_check_inputs() {
    let second = TxSignData { msg_hash: scalar(99), ..tx() };
    let inputs = chip().ecdsa_inputs(&[tx(), second]);
    assert_eq!(inputs.bit_len_limb, 72);
    assert_eq!(inputs.window_size, 2);
    assert_eq!(inputs.number_of_pairs, 1);
    assert_eq!(inputs.aux_generator.x.write(), generator().x.write());
    assert_eq!(inputs.sig_r.write(), scalar(11).write());
    assert_eq!(inputs.sig_s.write(), scalar(12).write());
    assert_eq!(inputs.pub_key.y.write(), generator().y.write());
    assert_eq!(inputs.msg_hash.write(), scalar(9).write());
}

#[test]
fn assigned_rows() {
    let config = configured(&mut ConstraintSystem::new());
    let mut layouter: Layouter<Fr> = Layouter::new();
    layouter.assign_region(region(0));
    let randomness = Fr::from_u64(10);
    let result = chip().assign(&config, &mut layouter, randomness, &[tx()], &known());
    assert_eq!(result, Ok(()));
    assert_eq!(layouter.regions.len(), 4);

    assert_eq!(layouter.regions[1].name, "assign aux values");
    assert!(layouter.regions[1].events.is_empty());

    let row = &layouter.regions[2];
    assert_eq!(row.name, "signature verify + ecdsa chip verification witness");
    assert_eq!(row.index, 2);
    let enabled: Vec<(usize, usize)> = row
        .events
        .iter()
        .filter_map(|event| match event {
            Event::EnableSelector { selector, offset } => Some((selector.index, *offset)),
            _ => None,
        })
        .collect();
    assert_eq!(enabled, vec![(config.q_enable.index, 0)]);
    for i in 0..4 {
        assert_eq!(held(row, config.pk_x_limbs[i].index, 0), number(1 + i as u64));
        assert_eq!(held(row, config.pk_y_limbs[i].index, 0), number(5 + i as u64));
        assert_eq!(held(row, config.msg_hash_limbs[i].index, 0), number(9 + i as u64));
    }
    assert_eq!(copies(row).len(), 12);
    assert_eq!(held(row, config.msg_hash_rlc.index, 0), number(9));
    let inverse = Fr::from_u64(9).invert().unwrap();
    assert_eq!(held(row, config.msg_hash_rlc_inv.index, 0), inverse.write());
    let x_le = reversed(hex(GENERATOR_X));
    let y_le = reversed(hex(GENERATOR_Y));
    for i in 0..32 {
        assert_eq!(held(row, config.pub_key[i].index, 0), number(x_le[i] as u64));
        assert_eq!(held(row, config.pub_key[32 + i].index, 0), number(y_le[i] as u64));
        let digest = hex(GENERATOR_HASH);
        assert_eq!(held(row, config.pub_key_hash[i].index, 0), number(digest[i] as u64));
    }

    let msg_hash = scalar(9).write();
    for i in 0..32 {
        assert_eq!(held(row, config.msg_hash[i].index, 0), number(msg_hash[i] as u64));
    }
    // The address is the last 20 bytes of the hash, as a number.
    let mut address = [0u8; 32];
    for i in 0..20 {
        address[i] = hex(GENERATOR_HASH)[31 - i];
    }
    assert_eq!(held(row, config.address.index, 0), address);
    assert_eq!(address[19], 0x7e);
    assert_eq!(address[0], 0xdf);

    let table = &layouter.regions[3];
    assert_eq!(table.name, "keccak table");
    assert_eq!(table.events.len(), 8);
    assert_eq!(held(table, config.keccak_table[KECCAK_IS_ENABLED].index, 1), number(1));
}

#[test]
fn given_hash_is_assigned() {
    let config = configured(&mut ConstraintSystem::new());
    let mut layouter: Layouter<Fr> = Layouter::new();
    let mut digest = [0u8; 32];
    digest[1] = 6;
    digest[30] = 2;
    digest[31] = 3;
    let randomness = Fr::from_u64(10);
    let result =
        chip().assign_hashed(&config, &mut layouter, randomness, &[tx()], &known(), digest);
    assert_eq!(result, Ok(()));
    assert_eq!(held(&layouter.regions[1], config.pub_key_hash[1].index, 0), number(6));
    assert_eq!(held(&layouter.regions[1], config.address.index, 0), number(2 * 256 + 3));
    let output = config.keccak_table[KECCAK_OUTPUT_RLC].index;
    let mut combined = Fr::from_u64(0);
    for byte in digest.iter().rev() {
        combined = combined.mul(randomness).add(Fr::from_u64(*byte as u64));
    }
    assert_eq!(held(&layouter.regions[2], output, 1), combined.write());
}

#[test]
fn unknown_limb_stops_the_assignment() {
    let config = configured(&mut ConstraintSystem::new());
    for unknown in 0..3 {
        let mut signature = known();
        let integers = [&mut signature.pk_x, &mut signature.pk_y, &mut signature.msg_hash];
        for (i, integer) in integers.into_iter().enumerate() {
            if i == unknown {
                integer.limbs[2].value = None;
            }
        }
        let mut layouter: Layouter<Fr> = Layouter::new();
        let result =
            chip().assign(&config, &mut layouter, Fr::from_u64(10), &[tx()], &signature);
        assert_eq!(result, Err(Error::Synthesis));
        assert_eq!(layouter.regions.len(), 1);
        assert_eq!(layouter.regions[0].name, "assign aux values");
    }
}
