//! Prime fields: the elements that circuits are made of.
//!
//! An element is held as its 32 canonical little-endian bytes. The arithmetic
//! on those bytes is that of the `halo2curves` fields.
use crate::sums::{
    le_bytes, le_value, lemma_le_bytes, lemma_le_value_nonnegative, lemma_le_value_zeros,
};
use group::ff::{Field, PrimeField};
use vstd::prelude::*;

verus! {

/// A prime field whose elements are written as 32 bytes.
pub trait BaseExt: Sized + Copy {
    /// The number of elements of the field.
    spec fn modulus() -> int;

    /// The element as an integer between zero and the modulus.
    spec fn value(self) -> int;

    /// The value of an element is a residue.
    proof fn lemma_value_range(self)
        ensures
            1 < Self::modulus(),
            0 <= self.value() < Self::modulus(),
    ;

    /// The canonical bytes of the element, the least significant one first.
    fn write(&self) -> (bytes: [u8; 32])
        ensures
            bytes@ == le_bytes(self.value(), 32),
            le_value(bytes@) == self.value(),
    ;
}

/// The field that a circuit is defined over.
pub trait FieldExt: BaseExt {
    /// The residue of an integer.
    fn from_u64(x: u64) -> (r: Self)
        ensures
            r.value() == x as int % Self::modulus(),
    ;

    /// The sum of two elements.
    fn add(self, rhs: Self) -> (r: Self)
        ensures
            r.value() == (self.value() + rhs.value()) % Self::modulus(),
    ;

    /// The product of two elements.
    fn mul(self, rhs: Self) -> (r: Self)
        ensures
            r.value() == (self.value() * rhs.value()) % Self::modulus(),
    ;

    /// The multiplicative inverse, which every element but zero has.
    fn invert(self) -> (r: Option<Self>)
        ensures
            r is Some <==> self.value() != 0,
            r matches Some(inverse) ==> (self.value() * inverse.value()) % Self::modulus() == 1,
    ;

    /// The additive identity.
    fn zero() -> (r: Self)
        ensures
            r.value() == 0,
    ;

    /// The multiplicative identity.
    fn one() -> (r: Self)
        ensures
            r.value() == 1,
    ;
}

/// The order of the BN254 curve group.
pub open spec fn bn256_r() -> int {
    0x30644e72e131a029b85045b68181585d2833e84879b9709143e1f593f0000001int
}

/// The order of the field that secp256k1 is defined over.
pub open spec fn secp256k1_p() -> int {
    0xfffffffffffffffffffffffffffffffffffffffffffffffffffffffefffffc2fint
}

/// The order of the secp256k1 curve group.
pub open spec fn secp256k1_q() -> int {
    0xfffffffffffffffffffffffffffffffebaaedce6af48a03bbfd25e8cd0364141int
}

/// Whether `halo2curves::bn256::Fr::from_repr` takes `bytes`: it does exactly
/// when their little-endian value is below the modulus.
#[verifier::external_body]
fn fr_from_repr(bytes: [u8; 32]) -> (taken: bool)
    ensures
        taken == (le_value(bytes@) < bn256_r()),
{
    halo2curves::bn256::Fr::from_repr(bytes).is_some().into()
}

/// `halo2curves::bn256::Fr::from` on a `u64`: the residue of the integer, as
/// canonical little-endian bytes.
#[verifier::external_body]
fn fr_from(x: u64) -> (r: [u8; 32])
    ensures
        le_value(r@) == x as int % bn256_r(),
{
    halo2curves::bn256::Fr::from(x).to_repr()
}

/// Addition of `halo2curves::bn256::Fr`: the sum of the two canonical values,
/// reduced by the modulus.
#[verifier::external_body]
fn fr_add(a: [u8; 32], b: [u8; 32]) -> (r: [u8; 32])
    requires
        le_value(a@) < bn256_r(),
        le_value(b@) < bn256_r(),
    ensures
        le_value(r@) == (le_value(a@) + le_value(b@)) % bn256_r(),
{
    let x = halo2curves::bn256::Fr::from_repr(a).unwrap();
    let y = halo2curves::bn256::Fr::from_repr(b).unwrap();
    (x + y).to_repr()
}

/// Multiplication of `halo2curves::bn256::Fr`: the product of the two canonical
/// values, reduced by the modulus.
#[verifier::external_body]
fn fr_mul(a: [u8; 32], b: [u8; 32]) -> (r: [u8; 32])
    requires
        le_value(a@) < bn256_r(),
        le_value(b@) < bn256_r(),
    ensures
        le_value(r@) == (le_value(a@) * le_value(b@)) % bn256_r(),
{
    let x = halo2curves::bn256::Fr::from_repr(a).unwrap();
    let y = halo2curves::bn256::Fr::from_repr(b).unwrap();
    (x * y).to_repr()
}

/// `invert` of `halo2curves::bn256::Fr`: nothing for zero, and for any other
/// element the canonical residue by which it multiplies to one.
#[verifier::external_body]
fn fr_invert(a: [u8; 32]) -> (r: Option<[u8; 32]>)
    requires
        le_value(a@) < bn256_r(),
    ensures
        r is Some <==> le_value(a@) != 0,
        r matches Some(b) ==> le_value(b@) < bn256_r() && (le_value(a@) * le_value(b@)) % bn256_r()
            == 1,
{
    let x = halo2curves::bn256::Fr::from_repr(a).unwrap();
    Option::<halo2curves::bn256::Fr>::from(Field::invert(&x)).map(|y| y.to_repr())
}

/// Whether `halo2curves::secp256k1::Fp::from_repr` takes `bytes`: it does
/// exactly when their little-endian value is below the modulus.
#[verifier::external_body]
fn fp_from_repr(bytes: [u8; 32]) -> (taken: bool)
    ensures
        taken == (le_value(bytes@) < secp256k1_p()),
{
    halo2curves::secp256k1::Fp::from_repr(bytes).is_some().into()
}

/// Whether `halo2curves::secp256k1::Fq::from_repr` takes `bytes`: it does
/// exactly when their little-endian value is below the modulus.
#[verifier::external_body]
fn fq_from_repr(bytes: [u8; 32]) -> (taken: bool)
    ensures
        taken == (le_value(bytes@) < secp256k1_q()),
{
    halo2curves::secp256k1::Fq::from_repr(bytes).is_some().into()
}

/// An element of the BN254 scalar field, over which the circuits are proved.
#[derive(Clone, Copy, Debug)]
pub struct Fr {
    bytes: [u8; 32],
}

impl Fr {
    #[verifier::type_invariant]
    spec fn canonical(self) -> bool {
        le_value(self.bytes@) < bn256_r()
    }

    /// The element with these canonical little-endian bytes, if there is one.
    pub fn from_repr(bytes: [u8; 32]) -> (r: Option<Self>)
        ensures
            r is Some <==> le_value(bytes@) < bn256_r(),
            r matches Some(x) ==> x.value() == le_value(bytes@),
    {
        proof {
            lemma_le_value_nonnegative(bytes@);
        }
        if fr_from_repr(bytes) {
            proof {
                vstd::arithmetic::div_mod::lemma_small_mod(
                    le_value(bytes@) as nat,
                    bn256_r() as nat,
                );
            }
            Some(Fr { bytes })
        } else {
            None
        }
    }
}

impl BaseExt for Fr {
    open spec fn modulus() -> int {
        bn256_r()
    }

    closed spec fn value(self) -> int {
        le_value(self.bytes@) % bn256_r()
    }

    proof fn lemma_value_range(self) {
    }

    fn write(&self) -> (bytes: [u8; 32]) {
        proof {
            use_type_invariant(self);
            lemma_le_value_nonnegative(self.bytes@);
            lemma_le_bytes(self.bytes@);
        }
        self.bytes
    }
}

impl FieldExt for Fr {
    fn from_u64(x: u64) -> (r: Self) {
        Fr { bytes: fr_from(x) }
    }

    fn add(self, rhs: Self) -> (r: Self) {
        proof {
            use_type_invariant(&self);
            use_type_invariant(&rhs);
            lemma_le_value_nonnegative(self.bytes@);
            lemma_le_value_nonnegative(rhs.bytes@);
        }
        Fr { bytes: fr_add(self.bytes, rhs.bytes) }
    }

    fn mul(self, rhs: Self) -> (r: Self) {
        proof {
            use_type_invariant(&self);
            use_type_invariant(&rhs);
            lemma_le_value_nonnegative(self.bytes@);
            lemma_le_value_nonnegative(rhs.bytes@);
        }
        Fr { bytes: fr_mul(self.bytes, rhs.bytes) }
    }

    fn invert(self) -> (r: Option<Self>) {
        proof {
            use_type_invariant(&self);
            lemma_le_value_nonnegative(self.bytes@);
        }
        match fr_invert(self.bytes) {
            Some(bytes) => {
                proof {
                    lemma_le_value_nonnegative(bytes@);
                }
                Some(Fr { bytes })
            },
            None => None,
        }
    }

    fn zero() -> (r: Self) {
        Self::from_u64(0)
    }

    fn one() -> (r: Self) {
        Self::from_u64(1)
    }
}

/// An element of the field that secp256k1 is defined over: a coordinate.
#[derive(Clone, Copy, Debug)]
pub struct Fp {
    bytes: [u8; 32],
}

impl Fp {
    #[verifier::type_invariant]
    spec fn canonical(self) -> bool {
        le_value(self.bytes@) < secp256k1_p()
    }

    /// The element with these canonical little-endian bytes, if there is one.
    pub fn from_repr(bytes: [u8; 32]) -> (r: Option<Self>)
        ensures
            r is Some <==> le_value(bytes@) < secp256k1_p(),
            r matches Some(x) ==> x.value() == le_value(bytes@),
    {
        proof {
            lemma_le_value_nonnegative(bytes@);
        }
        if fp_from_repr(bytes) {
            Some(Fp { bytes })
        } else {
            None
        }
    }
}

impl Default for Fp {
    /// Zero.
    fn default() -> (r: Self)
        ensures
            r.value() == 0,
    {
        let bytes = [0u8; 32];
        proof {
            lemma_le_value_zeros(bytes@);
        }
        Fp { bytes }
    }
}

impl BaseExt for Fp {
    open spec fn modulus() -> int {
        secp256k1_p()
    }

    closed spec fn value(self) -> int {
        le_value(self.bytes@) % secp256k1_p()
    }

    proof fn lemma_value_range(self) {
    }

    fn write(&self) -> (bytes: [u8; 32]) {
        proof {
            use_type_invariant(self);
            lemma_le_value_nonnegative(self.bytes@);
            lemma_le_bytes(self.bytes@);
        }
        self.bytes
    }
}

/// An element of the secp256k1 scalar field: a message hash, or one half of a
/// signature.
#[derive(Clone, Copy, Debug)]
pub struct Fq {
    bytes: [u8; 32],
}

impl Fq {
    #[verifier::type_invariant]
    spec fn canonical(self) -> bool {
        le_value(self.bytes@) < secp256k1_q()
    }

    /// The element with these canonical little-endian bytes, if there is one.
    pub fn from_repr(bytes: [u8; 32]) -> (r: Option<Self>)
        ensures
            r is Some <==> le_value(bytes@) < secp256k1_q(),
            r matches Some(x) ==> x.value() == le_value(bytes@),
    {
        proof {
            lemma_le_value_nonnegative(bytes@);
        }
        if fq_from_repr(bytes) {
            Some(Fq { bytes })
        } else {
            None
        }
    }
}

impl BaseExt for Fq {
    open spec fn modulus() -> int {
        secp256k1_q()
    }

    closed spec fn value(self) -> int {
        le_value(self.bytes@) % secp256k1_q()
    }

    proof fn lemma_value_range(self) {
    }

    fn write(&self) -> (bytes: [u8; 32]) {
        proof {
            use_type_invariant(self);
            lemma_le_value_nonnegative(self.bytes@);
            lemma_le_bytes(self.bytes@);
        }
        self.bytes
    }
}

} // verus!
