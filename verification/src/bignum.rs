//! Arbitrary-precision magnitudes.
//!
//! Magnitudes are `num_bigint::BigUint` values. The verifier does not look
//! inside that type: `big_value` names the natural number that a value holds,
//! and each operation of `num_bigint` that the library uses is declared here
//! with the arithmetic meaning its documentation gives. These declarations are
//! believed, not proved.

use vstd::prelude::*;
use vstd::arithmetic::power2::pow2;
use num_bigint::BigUint;
use num_traits::Zero;
use crate::bitmath::{nat_and, nat_or, nat_xor};
use crate::text::digits_number;

verus! {

/// `num_bigint::BigUint`, a natural number of any size. Nothing of its
/// inside is known here.
#[verifier::external_type_specification]
#[verifier::external_body]
pub struct ExBigUint(num_bigint::BigUint);

/// The natural number that a `BigUint` holds.
pub uninterp spec fn big_value(b: BigUint) -> nat;

/// `BigUint::from(u64)`: the big integer with the same value as `v`.
#[verifier::external_body]
pub(crate) fn big_from_u64(v: u64) -> (r: BigUint)
    ensures
        big_value(r) == v as nat,
{
    BigUint::from(v)
}

/// `Zero::is_zero` on a `BigUint`: whether the value is 0.
#[verifier::external_body]
pub(crate) fn big_is_zero(a: &BigUint) -> (r: bool)
    ensures
        r == (big_value(*a) == 0),
{
    a.is_zero()
}

/// `==` on `BigUint`: numeric equality (values are kept normalised, so equal
/// numbers have equal digits).
#[verifier::external_body]
pub(crate) fn big_eq(a: &BigUint, b: &BigUint) -> (r: bool)
    ensures
        r == (big_value(*a) == big_value(*b)),
{
    a == b
}

/// `&` on `BigUint`: bitwise AND of the two values.
#[verifier::external_body]
pub(crate) fn big_and(a: &BigUint, b: &BigUint) -> (r: BigUint)
    ensures
        big_value(r) == nat_and(big_value(*a), big_value(*b)),
{
    a & b
}

/// `|` on `BigUint`: bitwise OR of the two values.
#[verifier::external_body]
pub(crate) fn big_or(a: &BigUint, b: &BigUint) -> (r: BigUint)
    ensures
        big_value(r) == nat_or(big_value(*a), big_value(*b)),
{
    a | b
}

/// `^` on `BigUint`: bitwise XOR of the two values.
#[verifier::external_body]
pub(crate) fn big_xor(a: &BigUint, b: &BigUint) -> (r: BigUint)
    ensures
        big_value(r) == nat_xor(big_value(*a), big_value(*b)),
{
    a ^ b
}

/// `<<` on `BigUint` with a `u32` count: multiplication by `2^count`.
#[verifier::external_body]
pub(crate) fn big_shl(a: &BigUint, count: u32) -> (r: BigUint)
    ensures
        big_value(r) == big_value(*a) * pow2(count as nat),
{
    a << count
}

/// `>>` on `BigUint` with a `u32` count: division by `2^count`, rounding down.
#[verifier::external_body]
pub(crate) fn big_shr(a: &BigUint, count: u32) -> (r: BigUint)
    ensures
        big_value(r) == big_value(*a) / pow2(count as nat),
{
    a >> count
}

/// `-` on `BigUint`: the difference. The operator panics where the result
/// would be negative, so that case is excluded.
#[verifier::external_body]
pub(crate) fn big_sub(a: &BigUint, b: &BigUint) -> (r: BigUint)
    requires
        big_value(*a) >= big_value(*b),
    ensures
        big_value(r) == big_value(*a) - big_value(*b),
{
    a - b
}

/// `+` on `BigUint`: the sum.
#[verifier::external_body]
pub(crate) fn big_add(a: &BigUint, b: &BigUint) -> (r: BigUint)
    ensures
        big_value(r) == big_value(*a) + big_value(*b),
{
    a + b
}

/// `*` on `BigUint`: the product.
#[verifier::external_body]
pub(crate) fn big_mul(a: &BigUint, b: &BigUint) -> (r: BigUint)
    ensures
        big_value(r) == big_value(*a) * big_value(*b),
{
    a * b
}

/// The mask of `width` low one-bits, `2^width - 1`.
pub fn big_low_mask(width: u32) -> (r: BigUint)
    ensures
        big_value(r) == crate::bitmath::low_mask(width as nat),
{
    let one = big_from_u64(1);
    let top = big_shl(&one, width);
    proof {
        vstd::arithmetic::power2::lemma_pow2_pos(width as nat);
    }
    big_sub(&top, &one)
}

/// The number that digits spell in a radix, most significant digit first,
/// however many digits there are.
pub fn digits_to_biguint(digits: &Vec<u8>, radix: u32) -> (r: BigUint)
    ensures
        big_value(r) == digits_number(digits@, radix as nat),
{
    let base = big_from_u64(radix as u64);
    let mut value = big_from_u64(0);
    let mut i: usize = 0;
    assert(digits@.subrange(0, 0) =~= Seq::<u8>::empty());
    while i < digits.len()
        invariant
            i <= digits.len(),
            big_value(base) == radix as nat,
            big_value(value) == digits_number(digits@.subrange(0, i as int), radix as nat),
        decreases digits.len() - i,
    {
        let digit = big_from_u64(digits[i] as u64);
        let scaled = big_mul(&value, &base);
        proof {
            let done = digits@.subrange(0, i as int);
            let next = digits@.subrange(0, i as int + 1);
            assert(next.drop_last() =~= done);
            assert(next.last() == digits[i as int]);
            vstd::arithmetic::mul::lemma_mul_is_commutative(
                big_value(value) as int,
                radix as int,
            );
        }
        value = big_add(&scaled, &digit);
        i += 1;
    }
    assert(digits@.subrange(0, digits.len() as int) =~= digits@);
    value
}

} // verus!
