//! Weighted sums: little-endian numbers and random linear combinations.
use vstd::arithmetic::div_mod::{
    lemma_add_mod_noop, lemma_div_denominator, lemma_fundamental_div_mod,
    lemma_fundamental_div_mod_converse, lemma_mul_mod_noop_left, lemma_mul_mod_noop_right,
};
use vstd::arithmetic::power::{
    lemma_pow0, lemma_pow1, lemma_pow_adds, lemma_pow_mod_noop, lemma_pow_positive, pow,
};
use vstd::prelude::*;

verus! {

/// The random linear combination `values[0] + values[1] * r + values[2] * r^2 + ...`.
pub open spec fn rlc(values: Seq<int>, r: int) -> int
    decreases values.len(),
{
    if values.len() == 0 {
        0
    } else {
        rlc(values.drop_last(), r) + values.last() * pow(r, (values.len() - 1) as nat)
    }
}

/// Bytes as integers.
pub open spec fn ints(bytes: Seq<u8>) -> Seq<int> {
    bytes.map_values(|b: u8| b as int)
}

/// The number that bytes stand for, the least significant one first.
pub open spec fn le_value(bytes: Seq<u8>) -> int {
    rlc(ints(bytes), 256)
}

/// The `n` bytes that stand for a number below `256^n`, the least significant
/// one first.
pub open spec fn le_bytes(value: int, n: nat) -> Seq<u8> {
    Seq::new(n, |i: int| (value / pow(256, i as nat) % 256) as u8)
}

/// The sum of values, each by the weight with its index.
pub open spec fn weighted_sum(values: Seq<int>, weights: Seq<int>) -> int
    decreases values.len(),
{
    if values.len() == 0 {
        0
    } else {
        weighted_sum(values.drop_last(), weights) + values.last() * weights[values.len() - 1]
    }
}

/// A weighted sum of nothing is zero, and one more value adds its product with its
/// weight.
pub proof fn law_weighted_sum(values: Seq<int>, value: int, weights: Seq<int>)
    ensures
        weighted_sum(Seq::empty(), weights) == 0,
        weighted_sum(values.push(value), weights) == weighted_sum(values, weights) + value
            * weights[values.len() as int],
{
    assert(values.push(value).drop_last() =~= values);
}

/// A random linear combination of nothing is zero, and one more value adds its
/// product with the power of `r` that belongs to its place.
pub proof fn law_rlc(values: Seq<int>, value: int, r: int)
    ensures
        rlc(Seq::empty(), r) == 0,
        rlc(values.push(value), r) == rlc(values, r) + value * pow(r, values.len()),
{
    assert(values.push(value).drop_last() =~= values);
}

/// No bytes stand for zero, and one more byte behind the others counts as many
/// times as there are numbers of that many bytes. As integers bytes are
/// themselves.
pub proof fn law_le_value(bytes: Seq<u8>, byte: u8)
    ensures
        le_value(Seq::empty()) == 0,
        le_value(bytes.push(byte)) == le_value(bytes) + byte * pow(256, bytes.len()),
        ints(bytes).len() == bytes.len(),
        forall|i: int| 0 <= i < bytes.len() ==> #[trigger] ints(bytes)[i] == bytes[i],
{
    assert(ints(Seq::<u8>::empty()) =~= Seq::<int>::empty());
    assert(ints(bytes.push(byte)) =~= ints(bytes).push(byte as int));
    law_rlc(ints(bytes), byte as int, 256);
}

/// A random linear combination is its first value and the others by the powers of
/// `r` from the first on.
pub proof fn lemma_rlc_weights(values: Seq<int>, weights: Seq<int>, r: int)
    requires
        values.len() > 0,
        forall|i: int|
            0 <= i < values.len() - 1 ==> #[trigger] weights[i] == pow(r, (i + 1) as nat),
    ensures
        rlc(values, r) == values[0] + weighted_sum(values.drop_first(), weights),
    decreases values.len(),
{
    let rest = values.drop_first();
    if values.len() == 1 {
        lemma_pow0(r);
        assert(rlc(values.drop_last(), r) == 0);
        assert(values[0] * 1 == values[0]);
    } else {
        lemma_rlc_weights(values.drop_last(), weights, r);
        assert(values.drop_last().drop_first() =~= rest.drop_last());
        assert(weights[rest.len() - 1] == pow(r, (values.len() - 1) as nat));
    }
}

/// A random linear combination, by its first value and the others.
pub proof fn lemma_rlc_first(values: Seq<int>, r: int)
    requires
        values.len() > 0,
    ensures
        rlc(values, r) == values[0] + r * rlc(values.drop_first(), r),
    decreases values.len(),
{
    let rest = values.drop_first();
    if values.len() == 1 {
        lemma_pow0(r);
        assert(values.drop_last() =~= Seq::<int>::empty());
        assert(rlc(values.drop_last(), r) == 0);
        assert(values[0] * 1 == values[0] && r * 0 == 0);
    } else {
        lemma_rlc_first(values.drop_last(), r);
        assert(values.drop_last().drop_first() =~= rest.drop_last());
        let n = (values.len() - 1) as nat;
        let m = (rest.len() - 1) as nat;
        lemma_pow_adds(r, 1, m);
        lemma_pow1(r);
        let before = rlc(rest.drop_last(), r);
        let last = values.last();
        let power = pow(r, m);
        assert(last * (r * power) == r * (last * power)) by (nonlinear_arith);
        assert(r * (before + last * power) == r * before + r * (last * power)) by (nonlinear_arith);
    }
}

/// The bytes of the number that bytes stand for are those bytes.
pub proof fn lemma_le_bytes(bytes: Seq<u8>)
    ensures
        le_bytes(le_value(bytes), bytes.len()) == bytes,
    decreases bytes.len(),
{
    let value = le_value(bytes);
    if bytes.len() > 0 {
        let rest = bytes.drop_first();
        lemma_rlc_first(ints(bytes), 256);
        assert(ints(bytes).drop_first() =~= ints(rest));
        lemma_le_bytes(rest);
        let above = le_value(rest);
        lemma_fundamental_div_mod_converse(value, 256, above, bytes[0] as int);
        assert forall|i: int| 0 <= i < bytes.len() implies #[trigger] le_bytes(
            value,
            bytes.len(),
        )[i] == bytes[i] by {
            if i == 0 {
                lemma_pow0(256);
            } else {
                let power = pow(256, (i - 1) as nat);
                lemma_pow_adds(256, 1, (i - 1) as nat);
                lemma_pow1(256);
                lemma_pow_positive(256, (i - 1) as nat);
                lemma_le_value_nonnegative(bytes);
                lemma_div_denominator(value, 256, power);
                assert(le_bytes(above, rest.len())[i - 1] == rest[i - 1]);
            }
        }
    }
    assert(le_bytes(value, bytes.len()) =~= bytes);
}

/// A number below `256^n` is what its `n` bytes stand for.
pub proof fn lemma_le_value(value: int, n: nat)
    requires
        0 <= value < pow(256, n),
    ensures
        le_value(le_bytes(value, n)) == value,
    decreases n,
{
    let bytes = le_bytes(value, n);
    if n == 0 {
        lemma_pow0(256);
    } else {
        let m = (n - 1) as nat;
        let above = value / 256;
        lemma_pow_adds(256, 1, m);
        lemma_pow1(256);
        lemma_fundamental_div_mod(value, 256);
        assert(above < pow(256, m));
        lemma_le_value(above, m);
        assert(bytes.drop_first() =~= le_bytes(above, m)) by {
            assert forall|i: int| 0 <= i < m implies #[trigger] bytes.drop_first()[i] == le_bytes(
                above,
                m,
            )[i] by {
                lemma_pow_adds(256, 1, i as nat);
                lemma_pow_positive(256, i as nat);
                lemma_div_denominator(value, 256, pow(256, i as nat));
            }
        }
        lemma_rlc_first(ints(bytes), 256);
        assert(ints(bytes).drop_first() =~= ints(bytes.drop_first()));
        assert(bytes[0] == value % 256) by {
            lemma_pow0(256);
        }
    }
}

/// The numbers that 32 bytes can stand for.
pub proof fn lemma_pow_256_32()
    ensures
        pow(256, 32) == 0x10000000000000000000000000000000000000000000000000000000000000000int,
{
    lemma_pow1(256);
    lemma_pow_adds(256, 1, 1);
    assert(pow(256, 2) == 0x10000);
    lemma_pow_adds(256, 2, 2);
    assert(pow(256, 4) == 0x100000000);
    lemma_pow_adds(256, 4, 4);
    assert(pow(256, 8) == 0x10000000000000000);
    lemma_pow_adds(256, 8, 8);
    assert(pow(256, 16) == 0x100000000000000000000000000000000int);
    lemma_pow_adds(256, 16, 16);
}

/// A random linear combination of numbers that are not negative, by one that is
/// not negative, is not negative.
pub proof fn lemma_rlc_nonnegative(values: Seq<int>, r: int)
    requires
        0 <= r,
        forall|i: int| 0 <= i < values.len() ==> 0 <= #[trigger] values[i],
    ensures
        0 <= rlc(values, r),
    decreases values.len(),
{
    if values.len() != 0 {
        lemma_rlc_nonnegative(values.drop_last(), r);
        let power = pow(r, (values.len() - 1) as nat);
        if r == 0 {
            lemma_pow0(r);
            if values.len() > 1 {
                vstd::arithmetic::power::lemma0_pow((values.len() - 1) as nat);
            }
        } else {
            lemma_pow_positive(r, (values.len() - 1) as nat);
        }
        assert(0 <= values.last() * power) by (nonlinear_arith)
            requires
                0 <= values.last(),
                0 <= power,
        ;
    }
}

/// Residues may be taken of the values of a random linear combination.
pub proof fn lemma_rlc_residues(a: Seq<int>, b: Seq<int>, r: int, p: int)
    requires
        0 < p,
        a.len() == b.len(),
        forall|i: int| 0 <= i < a.len() ==> #[trigger] a[i] % p == #[trigger] b[i] % p,
    ensures
        rlc(a, r) % p == rlc(b, r) % p,
    decreases a.len(),
{
    if a.len() > 0 {
        lemma_rlc_residues(a.drop_last(), b.drop_last(), r, p);
        let power = pow(r, (a.len() - 1) as nat);
        assert(a.last() % p == b.last() % p);
        lemma_mul_mod_noop_left(a.last(), power, p);
        lemma_mul_mod_noop_left(b.last(), power, p);
        lemma_add_mod_noop(rlc(a.drop_last(), r), a.last() * power, p);
        lemma_add_mod_noop(rlc(b.drop_last(), r), b.last() * power, p);
    }
}

/// The residue may be taken of what a random linear combination is by.
pub proof fn lemma_rlc_base_residue(values: Seq<int>, r: int, p: int)
    requires
        0 < p,
    ensures
        rlc(values, r % p) % p == rlc(values, r) % p,
    decreases values.len(),
{
    if values.len() > 0 {
        let before = values.drop_last();
        let last = values.last();
        let n = (values.len() - 1) as nat;
        lemma_rlc_base_residue(before, r, p);
        lemma_pow_mod_noop(r, n, p);
        lemma_mul_mod_noop_right(last, pow(r, n), p);
        lemma_mul_mod_noop_right(last, pow(r % p, n), p);
        lemma_add_mod_noop(rlc(before, r), last * pow(r, n), p);
        lemma_add_mod_noop(rlc(before, r % p), last * pow(r % p, n), p);
    }
}

/// Zeros stand for zero.
pub proof fn lemma_le_value_zeros(bytes: Seq<u8>)
    requires
        forall|i: int| 0 <= i < bytes.len() ==> #[trigger] bytes[i] == 0,
    ensures
        le_value(bytes) == 0,
    decreases bytes.len(),
{
    if bytes.len() > 0 {
        lemma_le_value_zeros(bytes.drop_last());
        assert(ints(bytes).drop_last() =~= ints(bytes.drop_last()));
        vstd::arithmetic::mul::lemma_mul_basics(pow(256, (bytes.len() - 1) as nat));
    }
}

/// Bytes never stand for a negative number.
pub proof fn lemma_le_value_nonnegative(bytes: Seq<u8>)
    ensures
        0 <= le_value(bytes),
{
    lemma_rlc_nonnegative(ints(bytes), 256);
}

} // verus!
