//! Runs the transaction circuit in halo2's mock prover.
use group::ff::{Field, FromUniformBytes, PrimeField};
use group::prime::PrimeCurveAffine;
use group::{Curve, Group};
use halo2_axiom::circuit::{Cell as HaloCell, Layouter as HaloLayouter, SimpleFloorPlanner, Value};
use halo2_axiom::dev::MockProver;
use halo2_axiom::halo2curves::bn256::Fr as HaloFr;
use halo2_axiom::plonk as halo;
use halo2_axiom::poly::Rotation as HaloRotation;
use halo2curves::secp256k1::{Fq as CurveFq, Secp256k1, Secp256k1Affine as CurvePoint};
use halo2curves::CurveAffine;
use rand_core::{RngCore, SeedableRng};
use rand_xorshift::XorShiftRng;
use std::marker::PhantomData;
use zkevm_circuits::circuit::{AssignedInteger, AssignedLimb, Cell, Event, Layouter, Region};
use zkevm_circuits::field::{BaseExt, Fp, Fq, Fr};
use zkevm_circuits::plonk::{Advice, Column, ConstraintSystem, Expression, Instance, Query};
use zkevm_circuits::tx_circuit::{
    AssignedSignature, Secp256k1Affine, SignVerifyChip, SignVerifyConfig, TxSignData, POW_RAND_SIZE,
};

/// The number of bytes of a limb.
const LIMB_BYTES: usize = 9;

/// The column, after those of the circuit, that holds the limbs which the
/// signature check would have assigned.
const LIMB_COLUMN: usize = 147;

fn to_halo(x: Fr) -> HaloFr {
    HaloFr::from_repr(x.write()).unwrap()
}

fn from_halo(x: HaloFr) -> Fr {
    Fr::from_repr(x.to_repr()).unwrap()
}

fn scalar(x: CurveFq) -> Fq {
    Fq::from_repr(x.to_repr()).unwrap()
}

fn point(p: CurvePoint) -> Secp256k1Affine {
    Secp256k1Affine {
        x: Fp::from_repr(p.x.to_repr()).unwrap(),
        y: Fp::from_repr(p.y.to_repr()).unwrap(),
    }
}

#[derive(Clone)]
struct Columns {
    advice: Vec<halo::Column<halo::Advice>>,
    instance: Vec<halo::Column<halo::Instance>>,
    selectors: Vec<halo::Selector>,
}

impl Columns {
    fn query(
        &self,
        cells: &mut halo::VirtualCells<'_, HaloFr>,
        query: &Query,
    ) -> halo::Expression<HaloFr> {
        match query {
            Query::Selector(s) => cells.query_selector(self.selectors[s.index]),
            Query::Advice(c, at) => cells.query_advice(self.advice[c.index], HaloRotation(at.0)),
            Query::Instance(c, at) => {
                cells.query_instance(self.instance[c.index], HaloRotation(at.0))
            }
            Query::Fixed(_, _) => unreachable!(),
        }
    }

    fn expression(
        &self,
        cells: &mut halo::VirtualCells<'_, HaloFr>,
        e: &Expression<Fr>,
    ) -> halo::Expression<HaloFr> {
        match e {
            Expression::Constant(c) => halo::Expression::Constant(to_halo(*c)),
            Expression::Selector(s) => self.query(cells, &Query::Selector(*s)),
            Expression::Fixed(c, at) => self.query(cells, &Query::Fixed(*c, *at)),
            Expression::Advice(c, at) => self.query(cells, &Query::Advice(*c, *at)),
            Expression::Instance(c, at) => self.query(cells, &Query::Instance(*c, *at)),
            Expression::Negated(a) => -self.expression(cells, a),
            Expression::Sum(a, b) => self.expression(cells, a) + self.expression(cells, b),
            Expression::Product(a, b) => self.expression(cells, a) * self.expression(cells, b),
        }
    }

    fn cell(&self, cell: Cell) -> HaloCell {
        HaloCell { row_offset: cell.row_offset, column: self.advice[cell.column.index].into() }
    }
}

#[derive(Clone)]
struct TestConfig {
    sign_verify: SignVerifyConfig<Fr>,
    columns: Columns,
}

fn configure(meta: &mut halo::ConstraintSystem<HaloFr>) -> TestConfig {
    let instance: Vec<halo::Column<halo::Instance>> =
        (0..POW_RAND_SIZE).map(|_| meta.instance_column()).collect();
    let mut cs: ConstraintSystem<Fr> = ConstraintSystem::new();
    let mut powers = [Column { index: 0, column_type: Instance }; POW_RAND_SIZE];
    for i in 0..POW_RAND_SIZE {
        powers[i].index = i;
    }
    let sign_verify = SignVerifyChip::configure(&mut cs, powers);
    assert_eq!(cs.num_advice_columns, LIMB_COLUMN);

    let columns = Columns {
        advice: (0..cs.num_advice_columns + 1).map(|_| meta.advice_column()).collect(),
        instance,
        selectors: (0..cs.num_selectors).map(|_| meta.complex_selector()).collect(),
    };
    meta.enable_equality(columns.advice[LIMB_COLUMN]);
    for column in &cs.equality {
        meta.enable_equality(columns.advice[column.index]);
    }
    for gate in &cs.gates {
        meta.create_gate(gate.name, |cells| {
            for query in &gate.queried {
                columns.query(cells, query);
            }
            gate.polys.iter().map(|e| columns.expression(cells, e)).collect::<Vec<_>>()
        });
    }
    for lookup in &cs.lookups {
        meta.lookup_any(lookup.name.unwrap_or(""), |cells| {
            for query in &lookup.queried {
                columns.query(cells, query);
            }
            lookup
                .table_map
                .iter()
                .map(|(input, table)| {
                    (columns.expression(cells, input), columns.expression(cells, table))
                })
                .collect()
        });
    }
    TestConfig { sign_verify, columns }
}

/// The limbs of a number, in cells of the region with the signature.
fn limbs(bytes: [u8; 32], first_row: usize) -> AssignedInteger<Fr> {
    let mut limbs = Vec::new();
    for (i, chunk) in bytes.chunks(LIMB_BYTES).enumerate() {
        let mut repr = [0u8; 32];
        repr[..chunk.len()].copy_from_slice(chunk);
        limbs.push(AssignedLimb {
            value: Fr::from_repr(repr),
            cell: Cell {
                region_index: 1,
                row_offset: first_row + i,
                column: Column { index: LIMB_COLUMN, column_type: Advice },
            },
        });
    }
    AssignedInteger { limbs }
}

/// What the signature check would have put into cells.
fn assigned(tx: &TxSignData) -> AssignedSignature<Fr> {
    AssignedSignature {
        pk_x: limbs(tx.pub_key.x.write(), 0),
        pk_y: limbs(tx.pub_key.y.write(), 4),
        msg_hash: limbs(tx.msg_hash.write(), 8),
    }
}

/// Puts one more into a cell of the first row of a region.
fn spoil(region: &mut Region<Fr>, column: usize) {
    for event in region.events.iter_mut() {
        if let Event::AssignAdvice { column: c, value, .. } = event {
            if c.index == column {
                *value = from_halo(to_halo(*value) + HaloFr::ONE);
            }
        }
    }
}

struct TestCircuit {
    sign_verify: SignVerifyChip<Fr>,
    randomness: HaloFr,
    txs: Vec<TxSignData>,
    /// The transaction whose integers the signature check has put into cells.
    checked: TxSignData,
    /// A region and a column of it whose cells are spoilt.
    spoilt: Option<(usize, usize)>,
}

impl halo::Circuit<HaloFr> for TestCircuit {
    type Config = TestConfig;
    type FloorPlanner = SimpleFloorPlanner;
    type Params = ();

    fn without_witnesses(&self) -> Self {
        TestCircuit {
            sign_verify: SignVerifyChip::default(),
            randomness: HaloFr::ZERO,
            txs: Vec::new(),
            checked: self.checked,
            spoilt: None,
        }
    }

    fn configure(meta: &mut halo::ConstraintSystem<HaloFr>) -> Self::Config {
        configure(meta)
    }

    fn synthesize(
        &self,
        config: Self::Config,
        mut layouter: impl HaloLayouter<HaloFr>,
    ) -> Result<(), halo::Error> {
        let signature = assigned(&self.checked);
        let mut regions: Layouter<Fr> = Layouter::new();
        let result = self.sign_verify.assign(
            &config.sign_verify,
            &mut regions,
            from_halo(self.randomness),
            &self.txs,
            &signature,
        );
        assert!(result.is_ok());
        assert_eq!(regions.regions.len(), 3);
        if let Some((region, column)) = self.spoilt {
            spoil(&mut regions.regions[region], column);
        }

        let columns = &config.columns;
        for region in &regions.regions {
            layouter.assign_region(
                || region.name,
                |mut to| {
                    if region.index == 1 {
                        let integers = [&signature.pk_x, &signature.pk_y, &signature.msg_hash];
                        for limb in integers.iter().flat_map(|integer| integer.limbs.iter()) {
                            let value = Value::known(to_halo(limb.value.unwrap()));
                            let column = columns.advice[LIMB_COLUMN];
                            to.assign_advice(column, limb.cell.row_offset, value);
                        }
                    }
                    for event in &region.events {
                        match event {
                            Event::EnableSelector { selector, offset } => {
                                columns.selectors[selector.index].enable(&mut to, *offset)?;
                            }
                            Event::AssignAdvice { column, offset, value } => {
                                let value = Value::known(to_halo(*value));
                                to.assign_advice(columns.advice[column.index], *offset, value);
                            }
                            Event::ConstrainEqual { left, right } => {
                                to.constrain_equal(columns.cell(*left), columns.cell(*right));
                            }
                        }
                    }
                    Ok(())
                },
            )?;
        }
        Ok(())
    }
}

const VERIF_HEIGHT: usize = 20_000;

fn run(txs: Vec<TxSignData>) {
    let k = 15;
    let checked = txs[0];
    assert!(proved(k, VERIF_HEIGHT, txs, checked, None));
}

/// Whether the mock prover accepts a transaction in a small circuit.
fn accepted(tx: TxSignData, spoilt: Option<(usize, usize)>) -> bool {
    proved(5, 20, vec![tx], tx, spoilt)
}

/// Whether the mock prover accepts the first transaction, if the signature of
/// `checked` was checked and the powers of the randomness are in the first `height`
/// rows of a circuit with `2^k`.
fn proved(
    k: u32,
    height: usize,
    txs: Vec<TxSignData>,
    checked: TxSignData,
    spoilt: Option<(usize, usize)>,
) -> bool {
    let mut rng = XorShiftRng::seed_from_u64(2);
    let aux_generator = Secp256k1::random(&mut rng).to_affine();

    let randomness = HaloFr::random(&mut rng);
    let power_of_randomness: Vec<Vec<HaloFr>> = (1..POW_RAND_SIZE + 1)
        .map(|exp| vec![randomness.pow([exp as u64, 0, 0, 0]); txs.len() * height])
        .collect();
    let circuit = TestCircuit {
        sign_verify: SignVerifyChip {
            aux_generator: point(aux_generator),
            window_size: 2,
            _marker: PhantomData,
        },
        randomness,
        txs,
        checked,
        spoilt,
    };

    let prover = match MockProver::run(k, &circuit, power_of_randomness) {
        Ok(prover) => prover,
        Err(e) => panic!("{:#?}", e),
    };
    prover.verify() == Ok(())
}

// Generate a test key pair
fn gen_key_pair(rng: impl RngCore) -> (CurveFq, CurvePoint) {
    // generate a valid signature
    let generator = CurvePoint::generator();
    let sk = CurveFq::random(rng);
    let pk = generator * sk;
    let pk = pk.to_affine();

    (sk, pk)
}

// Generate a test message hash
fn gen_msg_hash(rng: impl RngCore) -> CurveFq {
    CurveFq::random(rng)
}

// Returns (r, s)
fn sign(rng: impl RngCore, sk: CurveFq, msg_hash: CurveFq) -> (CurveFq, CurveFq) {
    let randomness = CurveFq::random(rng);
    let randomness_inv = randomness.invert().unwrap();
    let generator = CurvePoint::generator();
    let sig_point = generator * randomness;
    let coordinates = sig_point.to_affine().coordinates().unwrap();
    let x = coordinates.x();

    let mut x_bytes = [0u8; 64];
    x_bytes[..32].copy_from_slice(&x.to_repr()[..]);

    // get x coordinate (E::Base) on E::Scalar
    let x_bytes_on_n = CurveFq::from_uniform_bytes(&x_bytes);
    let sig_s = randomness_inv * (msg_hash + x_bytes_on_n * sk);
    (x_bytes_on_n, sig_s)
}

/// A transaction with a signature that is valid.
fn signed_tx() -> TxSignData {
    let mut rng = XorShiftRng::seed_from_u64(1);
    let (sk, pk) = gen_key_pair(&mut rng);
    let msg_hash = gen_msg_hash(&mut rng);
    let sig = sign(&mut rng, sk, msg_hash);
    TxSignData {
        signature: (scalar(sig.0), scalar(sig.1)),
        pub_key: point(pk),
        msg_hash: scalar(msg_hash),
    }
}

/// The configuration of the gadget in a circuit of its own.
fn configured() -> SignVerifyConfig<Fr> {
    configure(&mut halo::ConstraintSystem::default()).sign_verify
}

#[test]
fn test_sign_verify() {
    run(vec![signed_tx()]);
}

#[test]
fn zero_message_hash_is_padding() {
    let tx = TxSignData { msg_hash: Fq::from_repr([0; 32]).unwrap(), ..signed_tx() };
    assert!(accepted(tx, None));
    // Nothing is looked up then: neither the key, its hash nor the address matter.
    let config = configured();
    assert!(accepted(tx, Some((1, config.pub_key[5].index))));
    assert!(accepted(tx, Some((1, config.pub_key_hash[5].index))));
    assert!(accepted(tx, Some((1, config.pub_key_hash[31].index))));
    assert!(accepted(tx, Some((1, config.address.index))));
}

#[test]
fn spoilt_public_key_is_refused() {
    let config = configured();
    assert!(!accepted(signed_tx(), Some((1, config.pub_key[0].index))));
    assert!(!accepted(signed_tx(), Some((1, config.pub_key[63].index))));
}

#[test]
fn spoilt_hash_is_refused() {
    let config = configured();
    assert!(!accepted(signed_tx(), Some((1, config.pub_key_hash[31].index))));
}

#[test]
fn spoilt_address_is_refused() {
    let config = configured();
    assert!(!accepted(signed_tx(), Some((1, config.address.index))));
}

#[test]
fn spoilt_inverse_is_refused() {
    let config = configured();
    assert!(!accepted(signed_tx(), Some((1, config.msg_hash_rlc_inv.index))));
}

#[test]
fn spoilt_keccak_table_is_refused() {
    let config = configured();
    for column in config.keccak_table {
        assert!(!accepted(signed_tx(), Some((2, column.index))));
    }
}

#[test]
fn spoilt_limbs_are_refused() {
    let config = configured();
    for i in 0..4 {
        assert!(!accepted(signed_tx(), Some((1, config.pk_x_limbs[i].index))));
        assert!(!accepted(signed_tx(), Some((1, config.pk_y_limbs[i].index))));
        assert!(!accepted(signed_tx(), Some((1, config.msg_hash_limbs[i].index))));
    }
}

#[test]
fn spoilt_message_hash_is_refused() {
    let config = configured();
    assert!(!accepted(signed_tx(), Some((1, config.msg_hash[0].index))));
    assert!(!accepted(signed_tx(), Some((1, config.msg_hash[31].index))));
    assert!(!accepted(signed_tx(), Some((1, config.msg_hash_rlc.index))));
}

#[test]
fn signature_of_another_key_is_refused() {
    let tx = signed_tx();
    let other = TxSignData { pub_key: point(CurvePoint::generator()), ..tx };
    assert!(!proved(5, 20, vec![tx], other, None));
    assert!(!proved(5, 20, vec![other], tx, None));
    assert!(proved(5, 20, vec![other], other, None));
}

#[test]
fn signature_of_another_message_is_refused() {
    let tx = signed_tx();
    let other = TxSignData { msg_hash: scalar(CurveFq::from(5)), ..tx };
    assert!(!proved(5, 20, vec![tx], other, None));
    assert!(!proved(5, 20, vec![other], tx, None));
    // A zero message hash is padding, whatever was checked.
    let zero = TxSignData { msg_hash: scalar(CurveFq::ZERO), ..tx };
    assert!(proved(5, 20, vec![zero], tx, None));
}
