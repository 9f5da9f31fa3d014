use zkevm_circuits::field::{BaseExt, FieldExt, Fp, Fq, Fr};

/// 32 little-endian bytes from 64 big-endian hexadecimal digits.
fn hex(digits: &str) -> [u8; 32] {
    let mut bytes = [0u8; 32];
    for i in 0..32 {
        bytes[31 - i] = u8::from_str_radix(&digits[2 * i..2 * i + 2], 16).unwrap();
    }
    bytes
}

fn small(x: u64) -> [u8; 32] {
    let mut bytes = [0u8; 32];
    bytes[..8].copy_from_slice(&x.to_le_bytes());
    bytes
}

const R: &str = "30644e72e131a029b85045b68181585d2833e84879b9709143e1f593f0000001";
const P: &str = "fffffffffffffffffffffffffffffffffffffffffffffffffffffffefffffc2f";
const Q: &str = "fffffffffffffffffffffffffffffffebaaedce6af48a03bbfd25e8cd0364141";

fn below(modulus: &str) -> [u8; 32] {
    let mut bytes = hex(modulus);
    bytes[0] -= 1;
    bytes
}

#[test]
fn canonical_bytes_are_taken_up_to_the_modulus() {
    assert!(Fr::from_repr(hex(R)).is_none());
    assert!(Fr::from_repr(below(R)).is_some());
    assert!(Fr::from_repr([0xff; 32]).is_none());
    assert!(Fp::from_repr(hex(P)).is_none());
    assert!(Fp::from_repr(below(P)).is_some());
    assert!(Fp::from_repr([0xff; 32]).is_none());
    assert!(Fq::from_repr(hex(Q)).is_none());
    assert!(Fq::from_repr(below(Q)).is_some());
    assert!(Fq::from_repr([0xff; 32]).is_none());
}

#[test]
fn bytes_are_written_back() {
    assert_eq!(Fr::from_repr(below(R)).unwrap().write(), below(R));
    assert_eq!(Fp::from_repr(below(P)).unwrap().write(), below(P));
    assert_eq!(Fq::from_repr(below(Q)).unwrap().write(), below(Q));
    assert_eq!(Fp::from_repr(below(R)).unwrap().write(), below(R));
}

#[test]
fn integers_are_residues() {
    assert_eq!(Fr::zero().write(), [0; 32]);
    assert_eq!(Fr::one().write(), small(1));
    assert_eq!(Fr::from_u64(256).write(), small(256));
    assert_eq!(Fr::from_u64(u64::MAX).write(), small(u64::MAX));
    assert_eq!(Fp::default().write(), [0; 32]);
}

#[test]
fn sums_wrap_around_at_the_modulus() {
    assert_eq!(Fr::from_u64(3).add(Fr::from_u64(4)).write(), small(7));
    let last = Fr::from_repr(below(R)).unwrap();
    assert_eq!(last.add(Fr::one()).write(), [0; 32]);
    assert_eq!(last.add(Fr::from_u64(5)).write(), small(4));
}

#[test]
fn products_wrap_around_at_the_modulus() {
    assert_eq!(Fr::from_u64(3).mul(Fr::from_u64(4)).write(), small(12));
    let last = Fr::from_repr(below(R)).unwrap();
    // Minus one times minus one.
    assert_eq!(last.mul(last).write(), small(1));
    assert_eq!(last.mul(Fr::zero()).write(), [0; 32]);
}

#[test]
fn inverses() {
    assert!(Fr::zero().invert().is_none());
    assert_eq!(Fr::one().invert().unwrap().write(), small(1));
    // (r + 1) / 2
    let half = "183227397098d014dc2822db40c0ac2e9419f4243cdcb848a1f0fac9f8000001";
    assert_eq!(Fr::from_u64(2).invert().unwrap().write(), hex(half));
    let x = Fr::from_u64(1_000_003);
    assert_eq!(x.mul(x.invert().unwrap()).write(), small(1));
}
