//! The part of the transaction circuit that ties the public key of a signed
//! transaction to its Ethereum address: the last 20 bytes of the hash of the key.
//!
//! The integers of the signature check are copied into limb columns, and the limbs
//! are those of the bytes of the public key and of the message hash.
use crate::algebra::group_simple_selectors;
use crate::circuit::{
    next_region, AssignedInteger, AssignedLimb, CellView, Error, EventView, Layouter, Region,
    RegionView,
};
use crate::field::{BaseExt, FieldExt, Fp, Fq};
use crate::is_zero::{
    has_inverse, inverse_or_zero, is_zero_gate, is_zero_poly, IsZeroChip, IsZeroConfig,
};
use crate::keccak::{keccak256, keccak256_digest};
use crate::plonk::{
    advice_cells, indices, poly_pairs, polys, with_equality, Advice, Column, ConstraintSystem,
    ConstraintSystemView, Expression, GateView, Instance, LookupView, Poly, Rotation, Selector,
    VirtualCells,
};
use crate::rlc::{random_linear_combine, random_linear_combine_expr, rlc_expr_poly};
use crate::sums::{ints, le_bytes, lemma_rlc_base_residue, rlc};
use core::marker::PhantomData;
use vstd::arithmetic::div_mod::lemma_mul_mod_noop;
use vstd::arithmetic::power::{lemma_pow1, lemma_pow_adds, pow};
use vstd::prelude::*;

verus! {

broadcast use group_simple_selectors;

/// The number of powers of the randomness that the instance columns hold, from
/// the first power on: as many as the bytes of a public key need.
pub const POW_RAND_SIZE: usize = 63;

/// The column of the keccak table that tells whether a row holds a digest.
pub const KECCAK_IS_ENABLED: usize = 0;

/// The column of the keccak table with the combined bytes of the input.
pub const KECCAK_INPUT_RLC: usize = 1;

/// The column of the keccak table with the number of bytes of the input.
pub const KECCAK_INPUT_LEN: usize = 2;

/// The column of the keccak table with the combined bytes of the digest.
pub const KECCAK_OUTPUT_RLC: usize = 3;

/// The number of bits of a limb of the integers that signatures are checked with.
pub const BIT_LEN_LIMB: usize = 72;

/// A point of the secp256k1 curve, by its affine coordinates. The point at
/// infinity has zeros for coordinates.
#[derive(Clone, Copy, Debug)]
pub struct Secp256k1Affine {
    pub x: Fp,
    pub y: Fp,
}

impl Secp256k1Affine {
    /// Whether this is the point at infinity.
    pub open spec fn is_identity(self) -> bool {
        self.x.value() == 0 && self.y.value() == 0
    }
}

impl Default for Secp256k1Affine {
    /// The point at infinity.
    fn default() -> (r: Self)
        ensures
            r.is_identity(),
    {
        Secp256k1Affine { x: Fp::default(), y: Fp::default() }
    }
}

/// A signed transaction: what is checked of it.
#[derive(Clone, Copy, Debug)]
pub struct TxSignData {
    /// The two numbers `r` and `s` of the signature.
    pub signature: (Fq, Fq),
    pub pub_key: Secp256k1Affine,
    pub msg_hash: Fq,
}

/// A row of the keccak table: an input with its digest.
#[derive(Clone, Copy, Debug)]
pub struct KeccakAux {
    pub input: [u8; 64],
    pub output: [u8; 32],
}

/// The integers that the signature check has put into cells.
#[derive(Debug)]
pub struct AssignedSignature<F> {
    pub pk_x: AssignedInteger<F>,
    pub pk_y: AssignedInteger<F>,
    pub msg_hash: AssignedInteger<F>,
}

/// The number of limbs before the first one whose value is not known.
pub open spec fn known_limbs<F>(limbs: Seq<AssignedLimb<F>>) -> int
    decreases limbs.len(),
{
    if limbs.len() == 0 {
        0
    } else {
        let before = known_limbs(limbs.drop_last());
        if before == limbs.len() - 1 && limbs.last().value is Some {
            limbs.len() as int
        } else {
            before
        }
    }
}

/// The steps that copy limbs into the columns `dst`, in the region with index
/// `region_index`.
pub open spec fn copy_events<F: FieldExt>(
    limbs: Seq<AssignedLimb<F>>,
    dst: Seq<int>,
    offset: int,
    region_index: int,
) -> Seq<EventView>
    decreases limbs.len(),
{
    if limbs.len() == 0 {
        Seq::empty()
    } else {
        let i = limbs.len() - 1;
        copy_events(limbs.drop_last(), dst, offset, region_index) + seq![
            EventView::AssignAdvice {
                column: dst[i],
                offset,
                value: limbs[i].value->0.value(),
            },
            EventView::ConstrainEqual {
                left: CellView { region_index, row_offset: offset, column: dst[i] },
                right: limbs[i].cell@,
            },
        ]
    }
}

/// Enables copy constraints between `src` integer limbs and `dst` limbs, and
/// assigns the `dst` limbs values from `src`. It stops with an error at the
/// first limb whose value is not known.
pub fn copy_integer<F: FieldExt>(
    region: &mut Region<F>,
    src: &AssignedInteger<F>,
    dst: &[Column<Advice>; 4],
    offset: usize,
) -> (r: Result<(), Error>)
    requires
        src.limbs.len() <= 4,
    ensures
        r == (if known_limbs(src.limbs@) == src.limbs.len() {
            Ok::<(), Error>(())
        } else {
            Err(Error::Synthesis)
        }),
        r is Ok <==> forall|i: int|
            0 <= i < src.limbs.len() ==> (#[trigger] src.limbs@[i]).value is Some,
        final(region)@ == old(region)@.then_do(
            copy_events(
                src.limbs@.take(known_limbs(src.limbs@)),
                indices(dst@),
                offset as int,
                old(region).index as int,
            ),
        ),
        final(region).index == old(region).index,
{
    let ghost limbs = src.limbs@;
    let ghost to = indices(dst@);
    let ghost index = region.index as int;
    proof {
        assert(limbs.take(0) =~= Seq::<AssignedLimb<F>>::empty());
        assert(region@ =~= old(region)@.then_do(
            copy_events(limbs.take(0), to, offset as int, index),
        ));
    }
    for i in 0..src.limbs.len()
        invariant
            src.limbs.len() <= 4,
            limbs == src.limbs@,
            to == indices(dst@),
            index == region.index,
            index == old(region).index,
            known_limbs(limbs.take(i as int)) == i,
            forall|j: int| 0 <= j < i ==> (#[trigger] limbs[j]).value is Some,
            region@ == old(region)@.then_do(
                copy_events(limbs.take(i as int), to, offset as int, index),
            ),
    {
        proof {
            assert(limbs.take(i + 1).drop_last() =~= limbs.take(i as int));
        }
        match region.assign_advice(dst[i], offset, src.limbs[i].value) {
            Ok(cell) => {
                region.constrain_equal(cell, src.limbs[i].cell);
                assert(region@.events =~= old(region)@.then_do(
                    copy_events(limbs.take(i + 1), to, offset as int, index),
                ).events);
            },
            Err(e) => {
                proof {
                    lemma_known_limbs(limbs, i + 1);
                }
                return Err(e);
            },
        }
    }
    assert(limbs.take(limbs.len() as int) =~= limbs);
    Ok(())
}

/// If a limb is not known, those after it do not count.
proof fn lemma_known_limbs<F>(limbs: Seq<AssignedLimb<F>>, n: int)
    requires
        0 < n <= limbs.len(),
        known_limbs(limbs.take(n)) == n - 1,
    ensures
        known_limbs(limbs) == n - 1,
    decreases limbs.len(),
{
    if n == limbs.len() {
        assert(limbs.take(n) =~= limbs);
    } else {
        assert(limbs.drop_last().take(n) =~= limbs.take(n));
        lemma_known_limbs(limbs.drop_last(), n);
    }
}

/// The steps that assign bytes to columns.
pub open spec fn byte_events(bytes: Seq<u8>, dst: Seq<int>, offset: int, p: int) -> Seq<EventView> {
    Seq::new(
        bytes.len(),
        |i: int|
            EventView::AssignAdvice { column: dst[i], offset, value: bytes[i] as int % p },
    )
}

/// Assigns 32 bytes to columns, from the column `first` on.
fn assign_bytes<F: FieldExt>(
    region: &mut Region<F>,
    bytes: &[u8; 32],
    dst: &[Column<Advice>],
    first: usize,
    offset: usize,
) -> (r: Result<(), Error>)
    requires
        first + 32 <= dst.len(),
    ensures
        r == Ok::<(), Error>(()),
        final(region)@ == old(region)@.then_do(
            byte_events(
                bytes@,
                indices(dst@).subrange(first as int, first + 32),
                offset as int,
                F::modulus(),
            ),
        ),
        final(region).index == old(region).index,
{
    let ghost events = byte_events(
        bytes@,
        indices(dst@).subrange(first as int, first + 32),
        offset as int,
        F::modulus(),
    );
    assert(region@ =~= old(region)@.then_do(events.take(0)));
    for i in 0..32usize
        invariant
            first + 32 <= dst.len(),
            events == byte_events(
                bytes@,
                indices(dst@).subrange(first as int, first + 32),
                offset as int,
                F::modulus(),
            ),
            region@ == old(region)@.then_do(events.take(i as int)),
            region.index == old(region).index,
    {
        match region.assign_advice(dst[first + i], offset, Some(F::from_u64(bytes[i] as u64))) {
            Ok(_) => {},
            Err(e) => {
                return Err(e);
            },
        }
        assert(region@.events =~= old(region)@.then_do(events.take(i + 1)).events);
    }
    assert(events.take(32) =~= events);
    Ok(())
}

/// Assigns the bytes of a field element to the first 32 columns of `dst`, the
/// least significant byte first.
pub fn assign_integer_bytes_le<F: FieldExt, W: BaseExt>(
    region: &mut Region<F>,
    src: W,
    dst: &[Column<Advice>],
    offset: usize,
) -> (r: Result<(), Error>)
    requires
        dst.len() >= 32,
    ensures
        r == Ok::<(), Error>(()),
        final(region)@ == old(region)@.then_do(
            byte_events(
                le_bytes(src.value(), 32),
                indices(dst@).take(32),
                offset as int,
                F::modulus(),
            ),
        ),
        final(region).index == old(region).index,
{
    let src_le = src.write();
    assert(indices(dst@).subrange(0, 32) =~= indices(dst@).take(32));
    assign_bytes(region, &src_le, dst, 0, offset)
}

/// The columns, and the expressions over them, that signatures are checked with.
#[derive(Debug)]
pub struct SignVerifyConfig<F> {
    pub q_enable: Selector,
    pub pub_key_hash: [Column<Advice>; 32],
    pub address: Column<Advice>,
    pub msg_hash_rlc: Column<Advice>,
    pub msg_hash_rlc_is_zero: IsZeroConfig<F>,
    pub msg_hash_rlc_inv: Column<Advice>,
    /// First 32 cells are coord x in little endian, following 32 cells are coord
    /// y in little endian.
    pub pub_key: [Column<Advice>; 64],
    pub pk_x_limbs: [Column<Advice>; 4],
    pub pk_y_limbs: [Column<Advice>; 4],
    pub msg_hash: [Column<Advice>; 32],
    pub msg_hash_limbs: [Column<Advice>; 4],
    pub power_of_randomness: [Column<Instance>; POW_RAND_SIZE],
    /// `[is_enabled, input_rlc, input_len, output_rlc]`
    pub keccak_table: [Column<Advice>; 4],
}

impl<F: FieldExt> Clone for SignVerifyConfig<F> {
    fn clone(&self) -> (r: Self)
        ensures
            r == *self,
    {
        SignVerifyConfig {
            q_enable: self.q_enable,
            pub_key_hash: self.pub_key_hash,
            address: self.address,
            msg_hash_rlc: self.msg_hash_rlc,
            msg_hash_rlc_is_zero: self.msg_hash_rlc_is_zero.clone(),
            msg_hash_rlc_inv: self.msg_hash_rlc_inv,
            pub_key: self.pub_key,
            pk_x_limbs: self.pk_x_limbs,
            pk_y_limbs: self.pk_y_limbs,
            msg_hash: self.msg_hash,
            msg_hash_limbs: self.msg_hash_limbs,
            power_of_randomness: self.power_of_randomness,
            keccak_table: self.keccak_table,
        }
    }
}

/// The cells of instance columns at the current row.
pub open spec fn instance_cells(columns: Seq<Column<Instance>>) -> Seq<Poly> {
    columns.map_values(|c: Column<Instance>| Poly::Instance(c.index as int, 0))
}

/// The weights of the bytes of a number behind the least significant one: 256,
/// 256^2, and so on, as many as an address needs.
pub open spec fn byte_weights(p: int) -> Seq<Poly> {
    Seq::new(19, |i: int| Poly::Constant(pow(256, (i + 1) as nat) % p))
}

/// The address that belongs to a hash of a public key: the number that its last 20
/// bytes stand for, big-endian, in the field with `p` elements.
pub open spec fn address_value(pub_key_hash: Seq<u8>, p: int) -> int {
    rlc(ints(pub_key_hash.subrange(12, 32).reverse()), 256) % p
}

/// What belongs to limb `j` of four, of 32 bytes from the least significant one
/// on: nine for each but the last limb, which has five.
pub open spec fn limb_part<A>(bytes: Seq<A>, j: int) -> Seq<A> {
    bytes.subrange(
        9 * j,
        if j < 3 {
            9 * j + 9
        } else {
            32
        },
    )
}

/// The polynomials that make four limbs those of 32 bytes, where `selector` is one.
pub open spec fn limb_polys(selector: Poly, limbs: Seq<Poly>, bytes: Seq<Poly>, p: int) -> Seq<
    Poly,
> {
    Seq::new(
        4,
        |j: int|
            selector.times(limbs[j].minus(rlc_expr_poly(limb_part(bytes, j), byte_weights(p)))),
    )
}

/// The two coordinates of a public key, with the bytes of each reversed.
pub open spec fn reversed_halves<A>(s: Seq<A>) -> Seq<A> {
    s.subrange(0, 32).reverse() + s.subrange(32, 64).reverse()
}

impl<F: FieldExt> SignVerifyConfig<F> {
    /// Whether the columns are those that follow the first `b` advice columns,
    /// in the order in which they are allocated.
    pub open spec fn columns_from(self, b: int) -> bool {
        &&& indices(self.pub_key@) == Seq::new(64, |i: int| b + i)
        &&& indices(self.pk_x_limbs@) == Seq::new(4, |i: int| b + 64 + i)
        &&& indices(self.pk_y_limbs@) == Seq::new(4, |i: int| b + 68 + i)
        &&& indices(self.msg_hash@) == Seq::new(32, |i: int| b + 72 + i)
        &&& indices(self.msg_hash_limbs@) == Seq::new(4, |i: int| b + 104 + i)
        &&& self.address.index == b + 108
        &&& indices(self.pub_key_hash@) == Seq::new(32, |i: int| b + 109 + i)
        &&& self.msg_hash_rlc.index == b + 141
        &&& self.msg_hash_rlc_inv.index == b + 142
        &&& indices(self.keccak_table@) == Seq::new(4, |i: int| b + 143 + i)
    }

    /// The selector of the rows that hold a signature.
    pub open spec fn q_enable_poly(self) -> Poly {
        Poly::Selector(self.q_enable.index as int, self.q_enable.simple)
    }

    /// The cell with the combined message hash.
    pub open spec fn msg_hash_rlc_poly(self) -> Poly {
        Poly::Advice(self.msg_hash_rlc.index as int, 0)
    }

    /// The cell with the inverse of the combined message hash.
    pub open spec fn msg_hash_rlc_inv_poly(self) -> Poly {
        Poly::Advice(self.msg_hash_rlc_inv.index as int, 0)
    }

    /// Whether this is what `configure` returns in a circuit with `b` advice
    /// columns and `s` selectors.
    pub open spec fn configured(self, b: int, s: int) -> bool {
        &&& self.q_enable.index == s
        &&& !self.q_enable.simple
        &&& self.columns_from(b)
        &&& self.msg_hash_rlc_is_zero.value_inv == self.msg_hash_rlc_inv
        &&& self.msg_hash_rlc_is_zero.is_zero_expression@ == is_zero_poly(
            self.msg_hash_rlc_poly(),
            self.msg_hash_rlc_inv_poly(),
        )
    }

    /// The constraint on the inverse of the combined message hash.
    pub open spec fn is_zero_gate(self) -> GateView {
        is_zero_gate(
            self.q_enable_poly(),
            self.msg_hash_rlc_poly(),
            self.msg_hash_rlc_inv_poly(),
            seq![self.q_enable_poly(), self.msg_hash_rlc_poly()],
        )
    }

    /// One where the row holds a signature of a message hash other than zero.
    pub open spec fn selector_poly(self) -> Poly {
        self.q_enable_poly().times(
            Poly::Constant(1).minus(self.msg_hash_rlc_is_zero.is_zero_expression@),
        )
    }

    /// The cells of a column of the keccak table.
    pub open spec fn keccak_poly(self, k: int) -> Poly {
        Poly::Advice(self.keccak_table@[k].index as int, 0)
    }

    /// The combined bytes of the public key, big-endian.
    pub open spec fn pub_key_rlc_poly(self) -> Poly {
        rlc_expr_poly(
            reversed_halves(advice_cells(self.pub_key@, 0)),
            instance_cells(self.power_of_randomness@),
        )
    }

    /// The combined bytes of the hash of the public key.
    pub open spec fn pub_key_hash_rlc_poly(self) -> Poly {
        rlc_expr_poly(
            advice_cells(self.pub_key_hash@, 0),
            instance_cells(self.power_of_randomness@),
        )
    }

    /// The cell with the address.
    pub open spec fn address_poly(self) -> Poly {
        Poly::Advice(self.address.index as int, 0)
    }

    /// The last 20 bytes of the hash of the public key, the last one first.
    pub open spec fn address_cells(self) -> Seq<Poly> {
        Seq::new(20, |i: int| advice_cells(self.pub_key_hash@, 0)[31 - i])
    }

    /// The number that the last 20 bytes of the hash of the public key stand for,
    /// big-endian.
    pub open spec fn hash_address_poly(self) -> Poly {
        rlc_expr_poly(self.address_cells(), byte_weights(F::modulus()))
    }

    /// The constraint that the address is that of the public key, on rows with a
    /// signature of a message hash other than zero.
    pub open spec fn address_gate(self) -> GateView {
        GateView {
            name: "address"@,
            queried: seq![self.q_enable_poly(), self.address_poly()] + self.address_cells(),
            polys: seq![
                self.selector_poly().times(self.address_poly().minus(self.hash_address_poly())),
            ],
        }
    }

    /// The constraint that the limbs of the signature check are those of the bytes
    /// of the public key and of the message hash, on rows with a signature of a
    /// message hash other than zero.
    pub open spec fn limbs_gate(self) -> GateView {
        let selector = self.selector_poly();
        let p = F::modulus();
        GateView {
            name: "limbs"@,
            queried: seq![self.q_enable_poly()] + advice_cells(self.pk_x_limbs@, 0)
                + advice_cells(self.pk_y_limbs@, 0) + advice_cells(self.msg_hash_limbs@, 0)
                + advice_cells(self.pub_key@, 0) + advice_cells(self.msg_hash@, 0),
            polys: limb_polys(
                selector,
                advice_cells(self.pk_x_limbs@, 0),
                advice_cells(self.pub_key@, 0).subrange(0, 32),
                p,
            ) + limb_polys(
                selector,
                advice_cells(self.pk_y_limbs@, 0),
                advice_cells(self.pub_key@, 0).subrange(32, 64),
                p,
            ) + limb_polys(
                selector,
                advice_cells(self.msg_hash_limbs@, 0),
                advice_cells(self.msg_hash@, 0).subrange(0, 32),
                p,
            ),
        }
    }

    /// The combined bytes of the message hash.
    pub open spec fn msg_hash_bytes_rlc_poly(self) -> Poly {
        rlc_expr_poly(
            advice_cells(self.msg_hash@, 0),
            instance_cells(self.power_of_randomness@),
        )
    }

    /// The constraint that the combined message hash is that of its bytes, where it
    /// is not zero.
    pub open spec fn msg_hash_gate(self) -> GateView {
        GateView {
            name: "msg_hash_rlc"@,
            queried: seq![self.q_enable_poly(), self.msg_hash_rlc_poly()] + instance_cells(
                self.power_of_randomness@,
            ) + advice_cells(self.msg_hash@, 0),
            polys: seq![
                self.selector_poly().times(
                    self.msg_hash_rlc_poly().minus(self.msg_hash_bytes_rlc_poly()),
                ),
            ],
        }
    }

    /// The lookup of the public key and its hash in the keccak table.
    pub open spec fn keccak_lookup(self) -> LookupView {
        LookupView {
            name: Some("keccak"@),
            queried: seq![self.q_enable_poly()] + instance_cells(self.power_of_randomness@) + seq![
                self.keccak_poly(0),
                self.keccak_poly(1),
            ] + advice_cells(self.pub_key@, 0) + seq![self.keccak_poly(2), self.keccak_poly(3)]
                + advice_cells(self.pub_key_hash@, 0),
            table_map: seq![
                (self.selector_poly(), self.keccak_poly(0)),
                (self.selector_poly().times(self.pub_key_rlc_poly()), self.keccak_poly(1)),
                (
                    self.selector_poly().times(Poly::Constant(64int % F::modulus())),
                    self.keccak_poly(2),
                ),
                (self.selector_poly().times(self.pub_key_hash_rlc_poly()), self.keccak_poly(3)),
            ],
        }
    }
}

impl<F: FieldExt> SignVerifyConfig<F> {
    /// The expression that is one where the row holds a signature of a message hash
    /// other than zero.
    fn selector(&self, cells: &mut VirtualCells) -> (r: Expression<F>)
        requires
            !self.q_enable.simple,
            !self.msg_hash_rlc_is_zero.is_zero_expression@.contains_simple_selector(),
        ensures
            r@ == self.selector_poly(),
            !r@.contains_simple_selector(),
            final(cells)@ == old(cells)@.push(self.q_enable_poly()),
    {
        let enabled: Expression<F> = cells.query_selector(self.q_enable);
        enabled * (Expression::Constant(F::one())
            - self.msg_hash_rlc_is_zero.is_zero_expression.clone())
    }

    /// Adds the constraint on the address.
    fn constrain_address(&self, meta: &mut ConstraintSystem<F>)
        requires
            !self.q_enable.simple,
            !self.msg_hash_rlc_is_zero.is_zero_expression@.contains_simple_selector(),
        ensures
            final(meta)@ == (ConstraintSystemView {
                gates: old(meta)@.gates.push(self.address_gate()),
                ..old(meta)@
            }),
    {
        let mut cells = VirtualCells::new();
        let selector = self.selector(&mut cells);
        let address: Expression<F> = cells.query_advice(self.address, Rotation::cur());
        let hash_address: Vec<Expression<F>> = query_address(&mut cells, &self.pub_key_hash);
        let weights: Vec<Expression<F>> = byte_weight_constants();
        let difference = address - random_linear_combine_expr(&hash_address, &weights);
        let mut constraints: Vec<Expression<F>> = Vec::new();
        constraints.push(selector * difference);
        proof {
            assert(cells@ =~= self.address_gate().queried);
            assert(polys(constraints@) =~= self.address_gate().polys);
        }
        meta.create_gate("address", cells, constraints);
    }

    /// Adds the constraint on the limbs of the signature check.
    fn constrain_limbs(&self, meta: &mut ConstraintSystem<F>)
        requires
            !self.q_enable.simple,
            !self.msg_hash_rlc_is_zero.is_zero_expression@.contains_simple_selector(),
        ensures
            final(meta)@ == (ConstraintSystemView {
                gates: old(meta)@.gates.push(self.limbs_gate()),
                ..old(meta)@
            }),
    {
        let mut cells = VirtualCells::new();
        let selector = self.selector(&mut cells);
        let pk_x_limbs: Vec<Expression<F>> = query_advices(&mut cells, &self.pk_x_limbs);
        let pk_y_limbs: Vec<Expression<F>> = query_advices(&mut cells, &self.pk_y_limbs);
        let msg_hash_limbs: Vec<Expression<F>> = query_advices(&mut cells, &self.msg_hash_limbs);
        let pub_key: Vec<Expression<F>> = query_advices(&mut cells, &self.pub_key);
        let msg_hash: Vec<Expression<F>> = query_advices(&mut cells, &self.msg_hash);
        let weights: Vec<Expression<F>> = byte_weight_constants();
        let mut constraints = limb_constraints(&selector, &pk_x_limbs, &pub_key, 0, &weights);
        let mut for_y = limb_constraints(&selector, &pk_y_limbs, &pub_key, 32, &weights);
        let mut for_hash = limb_constraints(&selector, &msg_hash_limbs, &msg_hash, 0, &weights);
        let ghost x = constraints@;
        let ghost y = for_y@;
        let ghost h = for_hash@;
        constraints.append(&mut for_y);
        constraints.append(&mut for_hash);
        proof {
            assert(cells@ =~= self.limbs_gate().queried);
            assert(polys(constraints@) =~= polys(x) + polys(y) + polys(h));
        }
        meta.create_gate("limbs", cells, constraints);
    }

    /// Adds the constraint on the combined message hash.
    fn constrain_msg_hash(&self, meta: &mut ConstraintSystem<F>)
        requires
            !self.q_enable.simple,
            !self.msg_hash_rlc_is_zero.is_zero_expression@.contains_simple_selector(),
        ensures
            final(meta)@ == (ConstraintSystemView {
                gates: old(meta)@.gates.push(self.msg_hash_gate()),
                ..old(meta)@
            }),
    {
        let mut cells = VirtualCells::new();
        let selector = self.selector(&mut cells);
        let combined: Expression<F> = cells.query_advice(self.msg_hash_rlc, Rotation::cur());
        let powers: Vec<Expression<F>> = query_instances(&mut cells, &self.power_of_randomness);
        let msg_hash: Vec<Expression<F>> = query_advices(&mut cells, &self.msg_hash);
        let mut constraints: Vec<Expression<F>> = Vec::new();
        constraints.push(selector * (combined - random_linear_combine_expr(&msg_hash, &powers)));
        proof {
            assert(cells@ =~= self.msg_hash_gate().queried);
            assert(polys(constraints@) =~= self.msg_hash_gate().polys);
        }
        meta.create_gate("msg_hash_rlc", cells, constraints);
    }
}

/// Allocates advice columns.
fn advice_columns<F: FieldExt, const N: usize>(meta: &mut ConstraintSystem<F>) -> (columns: [Column<
    Advice,
>; N])
    requires
        old(meta).num_advice_columns + N <= usize::MAX,
    ensures
        indices(columns@) == Seq::new(N as nat, |i: int| old(meta)@.num_advice_columns + i),
        final(meta)@ == (ConstraintSystemView {
            num_advice_columns: old(meta)@.num_advice_columns + N,
            ..old(meta)@
        }),
{
    let mut columns = [Column { index: 0, column_type: Advice }; N];
    for i in 0..N
        invariant
            old(meta).num_advice_columns + N <= usize::MAX,
            meta@ == (ConstraintSystemView {
                num_advice_columns: old(meta)@.num_advice_columns + i,
                ..old(meta)@
            }),
            forall|j: int|
                0 <= j < i ==> (#[trigger] columns@[j]).index == old(meta).num_advice_columns + j,
    {
        columns[i] = meta.advice_column();
    }
    assert(indices(columns@) =~= Seq::new(
        N as nat,
        |i: int| old(meta)@.num_advice_columns + i,
    ));
    columns
}

/// Enables copy constraints on columns.
fn enable_equalities<F: FieldExt, const N: usize>(
    meta: &mut ConstraintSystem<F>,
    columns: &[Column<Advice>; N],
)
    ensures
        final(meta)@ == (ConstraintSystemView {
            equality: with_equality(old(meta)@.equality, indices(columns@)),
            ..old(meta)@
        }),
{
    let ghost all = indices(columns@);
    assert(all.take(0) =~= Seq::<int>::empty());
    for i in 0..N
        invariant
            all == indices(columns@),
            meta@ == (ConstraintSystemView {
                equality: with_equality(old(meta)@.equality, all.take(i as int)),
                ..old(meta)@
            }),
    {
        proof {
            reveal_with_fuel(with_equality, 2);
            assert(seq![all[i as int]].drop_last() =~= Seq::<int>::empty());
            assert(all.take(i + 1).drop_last() =~= all.take(i as int));
        }
        meta.enable_equality(columns[i]);
    }
    assert(all.take(N as int) =~= all);
}

/// Reads advice columns at the current row.
fn query_advices<F: FieldExt, const N: usize>(
    cells: &mut VirtualCells,
    columns: &[Column<Advice>; N],
) -> (r: Vec<Expression<F>>)
    ensures
        polys(r@) == advice_cells(columns@, 0),
        forall|i: int| 0 <= i < r.len() ==> !(#[trigger] r@[i])@.contains_simple_selector(),
        final(cells)@ == old(cells)@ + advice_cells(columns@, 0),
{
    let ghost all = advice_cells(columns@, 0);
    let mut r: Vec<Expression<F>> = Vec::new();
    assert(polys(r@) =~= all.take(0));
    assert(cells@ =~= old(cells)@ + all.take(0));
    for i in 0..N
        invariant
            all == advice_cells(columns@, 0),
            polys(r@) == all.take(i as int),
            r.len() == i,
            forall|j: int| 0 <= j < r.len() ==> !(#[trigger] r@[j])@.contains_simple_selector(),
            cells@ == old(cells)@ + all.take(i as int),
    {
        let cell: Expression<F> = cells.query_advice(columns[i], Rotation::cur());
        let ghost before = r@;
        r.push(cell);
        proof {
            assert(polys(r@) =~= polys(before).push(cell@));
            assert(all.take(i + 1) =~= all.take(i as int).push(all[i as int]));
            assert(cells@ =~= old(cells)@ + all.take(i + 1));
        }
    }
    assert(all.take(N as int) =~= all);
    r
}

/// Reads instance columns at the current row.
fn query_instances<F: FieldExt, const N: usize>(
    cells: &mut VirtualCells,
    columns: &[Column<Instance>; N],
) -> (r: Vec<Expression<F>>)
    ensures
        polys(r@) == instance_cells(columns@),
        forall|i: int| 0 <= i < r.len() ==> !(#[trigger] r@[i])@.contains_simple_selector(),
        final(cells)@ == old(cells)@ + instance_cells(columns@),
{
    let ghost all = instance_cells(columns@);
    let mut r: Vec<Expression<F>> = Vec::new();
    assert(polys(r@) =~= all.take(0));
    assert(cells@ =~= old(cells)@ + all.take(0));
    for i in 0..N
        invariant
            all == instance_cells(columns@),
            polys(r@) == all.take(i as int),
            r.len() == i,
            forall|j: int| 0 <= j < r.len() ==> !(#[trigger] r@[j])@.contains_simple_selector(),
            cells@ == old(cells)@ + all.take(i as int),
    {
        let cell: Expression<F> = cells.query_instance(columns[i], Rotation::cur());
        let ghost before = r@;
        r.push(cell);
        proof {
            assert(polys(r@) =~= polys(before).push(cell@));
            assert(all.take(i + 1) =~= all.take(i as int).push(all[i as int]));
            assert(cells@ =~= old(cells)@ + all.take(i + 1));
        }
    }
    assert(all.take(N as int) =~= all);
    r
}

/// Reverses the order of the first 32 expressions, and that of the other 32.
fn reverse_halves<F: FieldExt>(le: &Vec<Expression<F>>) -> (be: Vec<Expression<F>>)
    requires
        le.len() == 64,
        forall|i: int| 0 <= i < 64 ==> !(#[trigger] le@[i])@.contains_simple_selector(),
    ensures
        polys(be@) == reversed_halves(polys(le@)),
        forall|i: int| 0 <= i < be.len() ==> !(#[trigger] be@[i])@.contains_simple_selector(),
{
    let mut be: Vec<Expression<F>> = Vec::new();
    for i in 0..64usize
        invariant
            le.len() == 64,
            forall|k: int| 0 <= k < 64 ==> !(#[trigger] le@[k])@.contains_simple_selector(),
            be.len() == i,
            forall|k: int|
                0 <= k < i ==> #[trigger] be@[k] == le@[if k < 32 { 31 - k } else { 95 - k }],
    {
        if i < 32 {
            be.push(le[31 - i].clone());
        } else {
            be.push(le[95 - i].clone());
        }
    }
    assert(polys(be@) =~= reversed_halves(polys(le@)));
    be
}

/// The weights of the bytes of a number behind the least significant one.
fn byte_weight_constants<F: FieldExt>() -> (r: Vec<Expression<F>>)
    ensures
        r.len() == 19,
        polys(r@) == byte_weights(F::modulus()),
        forall|i: int| 0 <= i < r.len() ==> !(#[trigger] r@[i])@.contains_simple_selector(),
{
    let ghost p = F::modulus();
    let base = F::from_u64(256);
    let mut weight = base;
    proof {
        lemma_pow1(256);
        base.lemma_value_range();
    }
    let mut r: Vec<Expression<F>> = Vec::new();
    for i in 0..19usize
        invariant
            1 < p,
            p == F::modulus(),
            base.value() == 256int % p,
            weight.value() == pow(256, (i + 1) as nat) % p,
            r.len() == i,
            forall|k: int|
                0 <= k < i ==> (#[trigger] r@[k])@ == Poly::Constant(pow(256, (k + 1) as nat) % p),
    {
        r.push(Expression::Constant(weight));
        let ghost before = pow(256, (i + 1) as nat);
        weight = weight.mul(base);
        proof {
            lemma_pow1(256);
            lemma_pow_adds(256, (i + 1) as nat, 1);
            lemma_mul_mod_noop(before, 256, p);
        }
    }
    assert(polys(r@) =~= byte_weights(p));
    r
}

/// The expressions that make four limbs those of the 32 bytes from `first` on,
/// where `selector` is one.
fn limb_constraints<F: FieldExt>(
    selector: &Expression<F>,
    limbs: &Vec<Expression<F>>,
    bytes: &Vec<Expression<F>>,
    first: usize,
    weights: &Vec<Expression<F>>,
) -> (r: Vec<Expression<F>>)
    requires
        limbs.len() == 4,
        first + 32 <= bytes.len(),
        weights.len() == 19,
        polys(weights@) == byte_weights(F::modulus()),
        forall|i: int| 0 <= i < limbs.len() ==> !(#[trigger] limbs@[i])@.contains_simple_selector(),
        forall|i: int| 0 <= i < bytes.len() ==> !(#[trigger] bytes@[i])@.contains_simple_selector(),
        forall|i: int|
            0 <= i < weights.len() ==> !(#[trigger] weights@[i])@.contains_simple_selector(),
    ensures
        polys(r@) == limb_polys(
            selector@,
            polys(limbs@),
            polys(bytes@).subrange(first as int, first + 32),
            F::modulus(),
        ),
{
    let ghost all = polys(bytes@).subrange(first as int, first + 32);
    let ghost expected = limb_polys(selector@, polys(limbs@), all, F::modulus());
    let mut r: Vec<Expression<F>> = Vec::new();
    assert(polys(r@) =~= expected.take(0));
    for j in 0..4usize
        invariant
            limbs.len() == 4,
            first + 32 <= bytes.len(),
            weights.len() == 19,
            polys(weights@) == byte_weights(F::modulus()),
            forall|i: int|
                0 <= i < limbs.len() ==> !(#[trigger] limbs@[i])@.contains_simple_selector(),
            forall|i: int|
                0 <= i < bytes.len() ==> !(#[trigger] bytes@[i])@.contains_simple_selector(),
            forall|i: int|
                0 <= i < weights.len() ==> !(#[trigger] weights@[i])@.contains_simple_selector(),
            all == polys(bytes@).subrange(first as int, first + 32),
            expected == limb_polys(selector@, polys(limbs@), all, F::modulus()),
            polys(r@) == expected.take(j as int),
    {
        let start: usize = 9 * j;
        let end: usize = if j < 3 {
            start + 9
        } else {
            32
        };
        let mut part: Vec<Expression<F>> = Vec::new();
        for i in start..end
            invariant
                start < end <= 32,
                first + 32 <= bytes.len(),
                forall|k: int|
                    0 <= k < bytes.len() ==> !(#[trigger] bytes@[k])@.contains_simple_selector(),
                part.len() == i - start,
                forall|k: int|
                    0 <= k < part.len() ==> #[trigger] part@[k] == bytes@[first + start + k],
        {
            part.push(bytes[first + i].clone());
        }
        assert(polys(part@) =~= limb_part(all, j as int));
        assert(polys(limbs@)[j as int] == limbs@[j as int]@);
        let constraint = selector.clone() * (limbs[j].clone() - random_linear_combine_expr(
            &part,
            weights,
        ));
        let ghost before = r@;
        r.push(constraint);
        proof {
            assert(polys(r@) =~= polys(before).push(constraint@));
            assert(expected.take(j + 1) =~= expected.take(j as int).push(expected[j as int]));
        }
    }
    assert(expected.take(4) =~= expected);
    r
}

/// Reads the last 20 of 32 advice columns at the current row, the last one first.
fn query_address<F: FieldExt>(
    cells: &mut VirtualCells,
    columns: &[Column<Advice>; 32],
) -> (r: Vec<Expression<F>>)
    ensures
        r.len() == 20,
        polys(r@) == Seq::new(20, |i: int| advice_cells(columns@, 0)[31 - i]),
        forall|i: int| 0 <= i < r.len() ==> !(#[trigger] r@[i])@.contains_simple_selector(),
        final(cells)@ == old(cells)@ + Seq::new(20, |i: int| advice_cells(columns@, 0)[31 - i]),
{
    let ghost all = Seq::new(20, |i: int| advice_cells(columns@, 0)[31 - i]);
    let mut r: Vec<Expression<F>> = Vec::new();
    assert(polys(r@) =~= all.take(0));
    assert(cells@ =~= old(cells)@ + all.take(0));
    for i in 0..20usize
        invariant
            all == Seq::new(20, |i: int| advice_cells(columns@, 0)[31 - i]),
            polys(r@) == all.take(i as int),
            r.len() == i,
            forall|j: int| 0 <= j < r.len() ==> !(#[trigger] r@[j])@.contains_simple_selector(),
            cells@ == old(cells)@ + all.take(i as int),
    {
        let cell: Expression<F> = cells.query_advice(columns[31 - i], Rotation::cur());
        let ghost before = r@;
        r.push(cell);
        proof {
            assert(polys(r@) =~= polys(before).push(cell@));
            assert(all.take(i + 1) =~= all.take(i as int).push(all[i as int]));
            assert(cells@ =~= old(cells)@ + all.take(i + 1));
        }
    }
    assert(all.take(20) =~= all);
    r
}

/// The address that belongs to a hash of a public key.
fn address_of_hash<F: FieldExt>(pub_key_hash: &[u8; 32]) -> (address: F)
    ensures
        address.value() == address_value(pub_key_hash@, F::modulus()),
{
    let mut bytes = [0u8; 20];
    for i in 0..20usize
        invariant
            forall|k: int| 0 <= k < i ==> #[trigger] bytes@[k] == pub_key_hash@[31 - k],
    {
        bytes[i] = pub_key_hash[31 - i];
    }
    let base = F::from_u64(256);
    proof {
        base.lemma_value_range();
        assert(bytes@ =~= pub_key_hash@.subrange(12, 32).reverse());
        lemma_rlc_base_residue(ints(bytes@), 256, F::modulus());
    }
    random_linear_combine(bytes, base)
}

/// The steps that assign a row of the keccak table.
pub open spec fn keccak_row(table: Seq<int>, offset: int, values: Seq<int>) -> Seq<EventView> {
    Seq::new(
        4,
        |k: int| EventView::AssignAdvice { column: table[k], offset, value: values[k] },
    )
}

/// What the keccak table holds of an input and its digest.
pub open spec fn keccak_values(
    input: Seq<u8>,
    output: Seq<u8>,
    randomness: int,
    p: int,
) -> Seq<int> {
    seq![1, rlc(ints(input), randomness) % p, 64int % p, rlc(ints(output), randomness) % p]
}

/// The steps that assign the keccak table: a row of zeros, and then one row for
/// each input.
pub open spec fn keccak_events(
    table: Seq<int>,
    auxs: Seq<KeccakAux>,
    randomness: int,
    p: int,
) -> Seq<EventView>
    decreases auxs.len(),
{
    if auxs.len() == 0 {
        keccak_row(table, 0, seq![0, 0, 0, 0])
    } else {
        keccak_events(table, auxs.drop_last(), randomness, p) + keccak_row(
            table,
            auxs.len() as int,
            keccak_values(auxs.last().input@, auxs.last().output@, randomness, p),
        )
    }
}

/// The region of the keccak table, if it comes after `regions`.
pub open spec fn keccak_region(
    regions: Seq<RegionView>,
    table: Seq<int>,
    auxs: Seq<KeccakAux>,
    randomness: int,
    p: int,
) -> RegionView {
    next_region(regions, "keccak table"@).then_do(keccak_events(table, auxs, randomness, p))
}

/// Assigns a row of the keccak table.
fn assign_keccak_row<F: FieldExt>(
    region: &mut Region<F>,
    table: &[Column<Advice>; 4],
    offset: usize,
    values: [F; 4],
) -> (r: Result<(), Error>)
    ensures
        r == Ok::<(), Error>(()),
        final(region)@ == old(region)@.then_do(
            keccak_row(
                indices(table@),
                offset as int,
                values@.map_values(|v: F| v.value()),
            ),
        ),
        final(region).index == old(region).index,
{
    let ghost events = keccak_row(
        indices(table@),
        offset as int,
        values@.map_values(|v: F| v.value()),
    );
    assert(region@ =~= old(region)@.then_do(events.take(0)));
    for k in 0..4usize
        invariant
            events == keccak_row(
                indices(table@),
                offset as int,
                values@.map_values(|v: F| v.value()),
            ),
            region@ == old(region)@.then_do(events.take(k as int)),
            region.index == old(region).index,
    {
        match region.assign_advice(table[k], offset, Some(values[k])) {
            Ok(_) => {},
            Err(e) => {
                return Err(e);
            },
        }
        assert(region@.events =~= old(region)@.then_do(events.take(k + 1)).events);
    }
    assert(events.take(4) =~= events);
    Ok(())
}

impl<F: FieldExt> SignVerifyConfig<F> {
    /// The number of bits that the range tables of the integer chip are loaded
    /// for: those of a limb, split among the lookups that a limb takes.
    pub fn load_range(&self, number_of_lookup_limbs: usize) -> (bit_len_lookup: usize)
        requires
            number_of_lookup_limbs != 0,
        ensures
            bit_len_lookup == BIT_LEN_LIMB as int / number_of_lookup_limbs as int,
    {
        BIT_LEN_LIMB / number_of_lookup_limbs
    }

    /// Loads the keccak table: a row of zeros, which the rows without a signature
    /// look up, and then a row for each of `auxs`.
    pub fn load_keccak(
        &self,
        layouter: &mut Layouter<F>,
        auxs: Vec<KeccakAux>,
        randomness: F,
    ) -> (r: Result<(), Error>)
        requires
            auxs.len() < usize::MAX,
        ensures
            r == Ok::<(), Error>(()),
            final(layouter)@ == old(layouter)@.push(
                keccak_region(
                    old(layouter)@,
                    indices(self.keccak_table@),
                    auxs@,
                    randomness.value(),
                    F::modulus(),
                ),
            ),
    {
        let ghost table = indices(self.keccak_table@);
        let mut region = layouter.begin_region("keccak table");
        let ghost empty = region@;

        // All zero row to allow simulating a disabled lookup.
        let zeros = [F::zero(), F::zero(), F::zero(), F::zero()];
        assert(zeros@.map_values(|v: F| v.value()) =~= seq![0int, 0, 0, 0]);
        match assign_keccak_row(&mut region, &self.keccak_table, 0, zeros) {
            Ok(_) => {},
            Err(e) => {
                return Err(e);
            },
        }
        assert(auxs@.take(0) =~= Seq::<KeccakAux>::empty());

        for i in 0..auxs.len()
            invariant
                auxs.len() < usize::MAX,
                table == indices(self.keccak_table@),
                empty == next_region(old(layouter)@, "keccak table"@),
                *layouter == *old(layouter),
                region@ == empty.then_do(
                    keccak_events(
                        table,
                        auxs@.take(i as int),
                        randomness.value(),
                        F::modulus(),
                    ),
                ),
        {
            let KeccakAux { input, output } = auxs[i];
            let input_rlc = random_linear_combine(input, randomness);
            let output_rlc = random_linear_combine(output, randomness);
            let values = [F::one(), input_rlc, F::from_u64(64), output_rlc];
            proof {
                assert(auxs@.take(i + 1).drop_last() =~= auxs@.take(i as int));
                assert(values@.map_values(|v: F| v.value()) =~= keccak_values(
                    auxs@[i as int].input@,
                    auxs@[i as int].output@,
                    randomness.value(),
                    F::modulus(),
                ));
            }
            match assign_keccak_row(&mut region, &self.keccak_table, i + 1, values) {
                Ok(_) => {},
                Err(e) => {
                    return Err(e);
                },
            }
            assert(region@.events =~= empty.then_do(
                keccak_events(table, auxs@.take(i + 1), randomness.value(), F::modulus()),
            ).events);
        }
        assert(auxs@.take(auxs.len() as int) =~= auxs@);
        layouter.assign_region(region);
        Ok(())
    }
}

/// The bytes of a public key that are hashed: both coordinates, the most
/// significant byte of each first.
pub open spec fn pub_key_bytes(pub_key: Secp256k1Affine) -> Seq<u8> {
    le_bytes(pub_key.x.value(), 32).reverse() + le_bytes(pub_key.y.value(), 32).reverse()
}

/// The bytes of a public key that are hashed.
pub fn pub_key_bytes_be(pub_key: &Secp256k1Affine) -> (bytes: [u8; 64])
    ensures
        bytes@ == pub_key_bytes(*pub_key),
{
    let pk_x_le = pub_key.x.write();
    let pk_y_le = pub_key.y.write();
    let mut bytes = [0u8; 64];
    for i in 0..32usize
        invariant
            forall|k: int| 0 <= k < i ==> #[trigger] bytes@[k] == pk_x_le@[31 - k],
            forall|k: int| 32 <= k < 32 + i ==> #[trigger] bytes@[k] == pk_y_le@[63 - k],
    {
        bytes[i] = pk_x_le[31 - i];
        bytes[32 + i] = pk_y_le[31 - i];
    }
    assert(bytes@ =~= pub_key_bytes(*pub_key));
    bytes
}

/// What the signature check in the circuit is made with.
#[derive(Clone, Copy, Debug)]
pub struct EcdsaInputs {
    pub bit_len_limb: usize,
    pub aux_generator: Secp256k1Affine,
    pub window_size: usize,
    pub number_of_pairs: usize,
    pub sig_r: Fq,
    pub sig_s: Fq,
    pub pub_key: Secp256k1Affine,
    pub msg_hash: Fq,
}

/// The combined bytes of a message hash.
pub open spec fn msg_hash_rlc_value(msg_hash: Fq, randomness: int, p: int) -> int {
    rlc(ints(le_bytes(msg_hash.value(), 32)), randomness) % p
}

/// Whether the values of all limbs are known.
pub open spec fn all_known<F>(signature: AssignedSignature<F>) -> bool {
    &&& known_limbs(signature.pk_x.limbs@) == signature.pk_x.limbs.len()
    &&& known_limbs(signature.pk_y.limbs@) == signature.pk_y.limbs.len()
    &&& known_limbs(signature.msg_hash.limbs@) == signature.msg_hash.limbs.len()
}

/// The steps that assign the row of a signature, whose public key has the hash
/// `pub_key_hash`.
pub open spec fn signature_events<F: FieldExt>(
    config: SignVerifyConfig<F>,
    signature: AssignedSignature<F>,
    tx: TxSignData,
    pub_key_hash: Seq<u8>,
    region_index: int,
    randomness: int,
) -> Seq<EventView> {
    let p = F::modulus();
    let combined = msg_hash_rlc_value(tx.msg_hash, randomness, p);
    copy_events(signature.pk_x.limbs@, indices(config.pk_x_limbs@), 0, region_index)
        + copy_events(signature.pk_y.limbs@, indices(config.pk_y_limbs@), 0, region_index)
        + copy_events(signature.msg_hash.limbs@, indices(config.msg_hash_limbs@), 0, region_index)
        + seq![
        EventView::EnableSelector {
            selector: config.q_enable.index as int,
            simple: config.q_enable.simple,
            offset: 0,
        },
        EventView::AssignAdvice {
            column: config.msg_hash_rlc.index as int,
            offset: 0,
            value: combined,
        },
        EventView::AssignAdvice {
            column: config.msg_hash_rlc_is_zero.value_inv.index as int,
            offset: 0,
            value: inverse_or_zero(combined, p),
        },
    ] + byte_events(
        le_bytes(tx.pub_key.x.value(), 32),
        indices(config.pub_key@).subrange(0, 32),
        0,
        p,
    ) + byte_events(
        le_bytes(tx.pub_key.y.value(), 32),
        indices(config.pub_key@).subrange(32, 64),
        0,
        p,
    ) + byte_events(pub_key_hash, indices(config.pub_key_hash@).subrange(0, 32), 0, p) + seq![
        EventView::AssignAdvice {
            column: config.address.index as int,
            offset: 0,
            value: address_value(pub_key_hash, p),
        },
    ] + byte_events(
        le_bytes(tx.msg_hash.value(), 32),
        indices(config.msg_hash@).take(32),
        0,
        p,
    )
}

/// The regions after those that were there: one for the signature check, one for
/// the row of the signature, and the keccak table.
pub open spec fn assigned_regions<F: FieldExt>(
    config: SignVerifyConfig<F>,
    signature: AssignedSignature<F>,
    tx: TxSignData,
    pub_key_hash: Seq<u8>,
    randomness: int,
    regions: Seq<RegionView>,
) -> Seq<RegionView> {
    let with_aux = regions.push(next_region(regions, "assign aux values"@));
    let with_signature = with_aux.push(
        next_region(with_aux, "signature verify + ecdsa chip verification witness"@).then_do(
            signature_events(
                config,
                signature,
                tx,
                pub_key_hash,
                with_aux.len() as int,
                randomness,
            ),
        ),
    );
    with_signature.push(
        next_region(with_signature, "keccak table"@).then_do(
            keccak_row(indices(config.keccak_table@), 0, seq![0, 0, 0, 0]) + keccak_row(
                indices(config.keccak_table@),
                1,
                keccak_values(pub_key_bytes(tx.pub_key), pub_key_hash, randomness, F::modulus()),
            ),
        ),
    )
}

/// The gadget for a message hash that is signed by the public key corresponding
/// to an Ethereum address. On a row with a message hash other than zero, the
/// public key and its hash are looked up in the keccak table, the address is that
/// of the hash, and the limbs that the signature is checked with are those of the
/// public key and of the message hash. The signature itself is checked by others.
/// That the cells of the message hash are bytes is not constrained here.
#[derive(Debug)]
pub struct SignVerifyChip<F> {
    pub aux_generator: Secp256k1Affine,
    pub window_size: usize,
    pub _marker: PhantomData<F>,
}

impl<F: FieldExt> Default for SignVerifyChip<F> {
    fn default() -> (r: Self)
        ensures
            r.aux_generator.is_identity(),
            r.window_size == 0,
    {
        SignVerifyChip {
            aux_generator: Secp256k1Affine::default(),
            window_size: 0,
            _marker: PhantomData,
        }
    }
}

/// The numbers of bits that integers may overflow by, for which range tables are
/// needed: those of the base field, and then those of the scalar field.
pub fn overflow_bit_lengths(base: Vec<usize>, scalar: Vec<usize>) -> (lengths: Vec<usize>)
    ensures
        lengths@ == base@ + scalar@,
{
    let mut lengths: Vec<usize> = base;
    let mut scalar = scalar;
    lengths.append(&mut scalar);
    lengths
}

impl<F: FieldExt> SignVerifyChip<F> {
    /// Allocates the columns of the gadget, and adds its constraints and its lookup.
    pub fn configure(
        meta: &mut ConstraintSystem<F>,
        power_of_randomness: [Column<Instance>; POW_RAND_SIZE],
    ) -> (config: SignVerifyConfig<F>)
        requires
            old(meta).num_advice_columns + 147 <= usize::MAX,
            old(meta).num_selectors < usize::MAX,
        ensures
            config.configured(old(meta)@.num_advice_columns, old(meta)@.num_selectors),
            config.power_of_randomness == power_of_randomness,
            final(meta)@ == (ConstraintSystemView {
                num_advice_columns: old(meta)@.num_advice_columns + 147,
                num_selectors: old(meta)@.num_selectors + 1,
                equality: with_equality(
                    with_equality(
                        with_equality(old(meta)@.equality, indices(config.pk_x_limbs@)),
                        indices(config.pk_y_limbs@),
                    ),
                    indices(config.msg_hash_limbs@),
                ),
                gates: old(meta)@.gates.push(config.is_zero_gate()).push(
                    config.address_gate(),
                ).push(config.limbs_gate()).push(config.msg_hash_gate()),
                lookups: old(meta)@.lookups.push(config.keccak_lookup()),
            }),
    {
        let q_enable = meta.complex_selector();

        let pub_key: [Column<Advice>; 64] = advice_columns(meta);
        let pk_x_limbs: [Column<Advice>; 4] = advice_columns(meta);
        enable_equalities(meta, &pk_x_limbs);
        let pk_y_limbs: [Column<Advice>; 4] = advice_columns(meta);
        enable_equalities(meta, &pk_y_limbs);
        let msg_hash: [Column<Advice>; 32] = advice_columns(meta);
        let msg_hash_limbs: [Column<Advice>; 4] = advice_columns(meta);
        enable_equalities(meta, &msg_hash_limbs);

        let address = meta.advice_column();
        let pub_key_hash: [Column<Advice>; 32] = advice_columns(meta);

        let msg_hash_rlc = meta.advice_column();

        // is_enabled === msg_hash_rlc != 0

        let msg_hash_rlc_inv = meta.advice_column();
        let mut cells = VirtualCells::new();
        let enabled: Expression<F> = cells.query_selector(q_enable);
        let value: Expression<F> = cells.query_advice(msg_hash_rlc, Rotation::cur());
        assert(cells@ =~= seq![enabled@, value@]);
        let msg_hash_rlc_is_zero = IsZeroChip::configure(
            meta,
            cells,
            enabled,
            value,
            msg_hash_rlc_inv,
        );

        let keccak_table: [Column<Advice>; 4] = advice_columns(meta);

        let config = SignVerifyConfig {
            q_enable,
            pub_key_hash,
            address,
            msg_hash_rlc,
            msg_hash_rlc_is_zero,
            msg_hash_rlc_inv,
            pub_key,
            pk_x_limbs,
            pk_y_limbs,
            msg_hash,
            msg_hash_limbs,
            power_of_randomness,
            keccak_table,
        };

        // address === last 20 bytes of pub_key_hash
        config.constrain_address(meta);

        // limbs === bytes
        config.constrain_limbs(meta);

        // msg_hash_rlc === combined bytes of msg_hash
        config.constrain_msg_hash(meta);

        // keccak lookup
        let mut cells = VirtualCells::new();
        let selector = config.selector(&mut cells);
        let mut table_map: Vec<(Expression<F>, Expression<F>)> = Vec::new();

        let powers: Vec<Expression<F>> = query_instances(&mut cells, &power_of_randomness);

        // Column 0: is_enabled
        let keccak_is_enabled = cells.query_advice(
            keccak_table[KECCAK_IS_ENABLED],
            Rotation::cur(),
        );
        table_map.push((selector.clone(), keccak_is_enabled));

        // Column 1: input_rlc (pub_key_rlc)
        let keccak_input_rlc = cells.query_advice(keccak_table[KECCAK_INPUT_RLC], Rotation::cur());
        let pub_key_le: Vec<Expression<F>> = query_advices(&mut cells, &pub_key);
        let pub_key_be = reverse_halves(&pub_key_le);
        let pub_key_rlc = random_linear_combine_expr(&pub_key_be, &powers);
        table_map.push((selector.clone() * pub_key_rlc, keccak_input_rlc));

        // Column 2: input_len (64)
        let keccak_input_len = cells.query_advice(keccak_table[KECCAK_INPUT_LEN], Rotation::cur());
        table_map.push(
            (selector.clone() * Expression::Constant(F::from_u64(64)), keccak_input_len),
        );

        // Column 3: output_rlc (pub_key_hash_rlc)
        let keccak_output_rlc = cells.query_advice(
            keccak_table[KECCAK_OUTPUT_RLC],
            Rotation::cur(),
        );
        let hash: Vec<Expression<F>> = query_advices(&mut cells, &pub_key_hash);
        let pub_key_hash_rlc = random_linear_combine_expr(&hash, &powers);
        table_map.push((selector * pub_key_hash_rlc, keccak_output_rlc));

        proof {
            assert(cells@ =~= config.keccak_lookup().queried);
            assert(poly_pairs(table_map@) =~= config.keccak_lookup().table_map);
        }
        meta.lookup_any(Some("keccak"), cells, table_map);

        config
    }

    /// What the signature check is made with: only one signature for now.
    pub fn ecdsa_inputs(&self, txs: &[TxSignData]) -> (r: EcdsaInputs)
        requires
            txs.len() > 0,
        ensures
            r.bit_len_limb == BIT_LEN_LIMB,
            r.aux_generator == self.aux_generator,
            r.window_size == self.window_size,
            r.number_of_pairs == 1,
            r.sig_r == txs@[0].signature.0,
            r.sig_s == txs@[0].signature.1,
            r.pub_key == txs@[0].pub_key,
            r.msg_hash == txs@[0].msg_hash,
    {
        let TxSignData { signature, pub_key, msg_hash } = txs[0];
        let (sig_r, sig_s) = signature;
        EcdsaInputs {
            bit_len_limb: BIT_LEN_LIMB,
            aux_generator: self.aux_generator,
            window_size: self.window_size,
            number_of_pairs: 1,
            sig_r,
            sig_s,
            pub_key,
            msg_hash,
        }
    }

    /// Assigns the row of a signature to a region, and returns what the keccak
    /// table has to hold of it.
    fn assign_signature(
        config: &SignVerifyConfig<F>,
        region: &mut Region<F>,
        randomness: F,
        tx: &TxSignData,
        signature: &AssignedSignature<F>,
        pub_key_hash: [u8; 32],
    ) -> (r: Result<KeccakAux, Error>)
        requires
            signature.pk_x.limbs.len() <= 4,
            signature.pk_y.limbs.len() <= 4,
            signature.msg_hash.limbs.len() <= 4,
        ensures
            r matches Ok(aux) ==> aux.input@ == pub_key_bytes(tx.pub_key) && aux.output
                == pub_key_hash,
            r matches Err(e) ==> e == Error::Synthesis,
            r is Ok <==> all_known(*signature),
            r is Ok ==> final(region)@ == old(region)@.then_do(
                signature_events(
                    *config,
                    *signature,
                    *tx,
                    pub_key_hash@,
                    old(region).index as int,
                    randomness.value(),
                ),
            ),
            all_known(*signature) ==> {
                let combined = msg_hash_rlc_value(
                    tx.msg_hash,
                    randomness.value(),
                    F::modulus(),
                );
                combined == 0 || has_inverse(combined, F::modulus())
            },
    {
        let ghost all = signature_events(
            *config,
            *signature,
            *tx,
            pub_key_hash@,
            region.index as int,
            randomness.value(),
        );
        let offset: usize = 0;
        // Copy constraint between ecdsa verification integers and local columns
        copy_integer(region, &signature.pk_x, &config.pk_x_limbs, offset)?;
        copy_integer(region, &signature.pk_y, &config.pk_y_limbs, offset)?;
        copy_integer(region, &signature.msg_hash, &config.msg_hash_limbs, offset)?;
        proof {
            assert(signature.pk_x.limbs@.take(signature.pk_x.limbs.len() as int)
                =~= signature.pk_x.limbs@);
            assert(signature.pk_y.limbs@.take(signature.pk_y.limbs.len() as int)
                =~= signature.pk_y.limbs@);
            assert(signature.msg_hash.limbs@.take(signature.msg_hash.limbs.len() as int)
                =~= signature.msg_hash.limbs@);
        }

        region.enable_selector(config.q_enable, offset);

        // Assign msg_hash_rlc & msg_hash_rlc_is_zero gadget
        let msg_hash_rlc = random_linear_combine(tx.msg_hash.write(), randomness);
        region.assign_advice(config.msg_hash_rlc, offset, Some(msg_hash_rlc))?;
        let msg_hash_rlc_is_zero_chip = IsZeroChip::construct(config.msg_hash_rlc_is_zero.clone());
        msg_hash_rlc_is_zero_chip.assign(region, offset, Some(msg_hash_rlc))?;

        // Assign pub_key
        assign_bytes(region, &tx.pub_key.x.write(), &config.pub_key, 0, offset)?;
        assign_bytes(region, &tx.pub_key.y.write(), &config.pub_key, 32, offset)?;

        // Assign pub_key_hash
        assign_bytes(region, &pub_key_hash, &config.pub_key_hash, 0, offset)?;

        // Assign address
        let address: F = address_of_hash(&pub_key_hash);
        region.assign_advice(config.address, offset, Some(address))?;

        // Assign msg_hash
        assign_integer_bytes_le(region, tx.msg_hash, &config.msg_hash, offset)?;

        assert(region@.events =~= old(region)@.then_do(all).events);
        Ok(KeccakAux { input: pub_key_bytes_be(&tx.pub_key), output: pub_key_hash })
    }

    /// Assigns the first transaction and the keccak table, given the integers
    /// that the signature check has put into cells and the hash of the public
    /// key. The first region is that of the signature check itself.
    pub fn assign_hashed(
        &self,
        config: &SignVerifyConfig<F>,
        layouter: &mut Layouter<F>,
        randomness: F,
        txs: &[TxSignData],
        signature: &AssignedSignature<F>,
        pub_key_hash: [u8; 32],
    ) -> (r: Result<(), Error>)
        requires
            txs.len() > 0,
            !txs@[0].pub_key.is_identity(),
            signature.pk_x.limbs.len() <= 4,
            signature.pk_y.limbs.len() <= 4,
            signature.msg_hash.limbs.len() <= 4,
        ensures
            r == (if all_known(*signature) {
                Ok::<(), Error>(())
            } else {
                Err(Error::Synthesis)
            }),
            final(layouter)@ == (if all_known(*signature) {
                assigned_regions(
                    *config,
                    *signature,
                    txs@[0],
                    pub_key_hash@,
                    randomness.value(),
                    old(layouter)@,
                )
            } else {
                old(layouter)@.push(next_region(old(layouter)@, "assign aux values"@))
            }),
            all_known(*signature) ==> {
                let combined = msg_hash_rlc_value(
                    txs@[0].msg_hash,
                    randomness.value(),
                    F::modulus(),
                );
                combined == 0 || has_inverse(combined, F::modulus())
            },
    {
        let aux_region = layouter.begin_region("assign aux values");
        layouter.assign_region(aux_region);

        let mut region = layouter.begin_region("signature verify + ecdsa chip verification witness");
        let aux = Self::assign_signature(
            config,
            &mut region,
            randomness,
            &txs[0],
            signature,
            pub_key_hash,
        )?;
        layouter.assign_region(region);

        let mut keccak_auxs: Vec<KeccakAux> = Vec::new();
        keccak_auxs.push(aux);
        proof {
            reveal_with_fuel(keccak_events, 2);
            assert(keccak_auxs@.drop_last() =~= Seq::<KeccakAux>::empty());
        }
        config.load_keccak(layouter, keccak_auxs, randomness)
    }

    /// Assigns the first transaction and the keccak table, given the integers
    /// that the signature check has put into cells.
    pub fn assign(
        &self,
        config: &SignVerifyConfig<F>,
        layouter: &mut Layouter<F>,
        randomness: F,
        txs: &[TxSignData],
        signature: &AssignedSignature<F>,
    ) -> (r: Result<(), Error>)
        requires
            txs.len() > 0,
            !txs@[0].pub_key.is_identity(),
            signature.pk_x.limbs.len() <= 4,
            signature.pk_y.limbs.len() <= 4,
            signature.msg_hash.limbs.len() <= 4,
        ensures
            r == (if all_known(*signature) {
                Ok::<(), Error>(())
            } else {
                Err(Error::Synthesis)
            }),
            final(layouter)@ == (if all_known(*signature) {
                assigned_regions(
                    *config,
                    *signature,
                    txs@[0],
                    keccak256(pub_key_bytes(txs@[0].pub_key)),
                    randomness.value(),
                    old(layouter)@,
                )
            } else {
                old(layouter)@.push(next_region(old(layouter)@, "assign aux values"@))
            }),
            keccak256(pub_key_bytes(txs@[0].pub_key)).len() == 32,
            all_known(*signature) ==> {
                let combined = msg_hash_rlc_value(
                    txs@[0].msg_hash,
                    randomness.value(),
                    F::modulus(),
                );
                combined == 0 || has_inverse(combined, F::modulus())
            },
    {
        let pub_key_bytes_be = pub_key_bytes_be(&txs[0].pub_key);
        let pub_key_hash = keccak256_digest(&pub_key_bytes_be);
        self.assign_hashed(config, layouter, randomness, txs, signature, pub_key_hash)
    }
}

} // verus!
