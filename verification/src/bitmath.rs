//! Bitwise operations on natural numbers of unbounded size, as mathematics.
//!
//! Magnitudes in the condition language are not bounded by a machine word, so
//! the meaning of `&`, `|`, `^`, shifts and masks is stated here over `nat`.

use vstd::prelude::*;
use vstd::arithmetic::power2::*;

verus! {

/// Bitwise AND of two natural numbers.
pub open spec fn nat_and(a: nat, b: nat) -> nat
    decreases a,
{
    if a == 0 {
        0
    } else {
        2 * nat_and(a / 2, b / 2) + if a % 2 == 1 && b % 2 == 1 { 1nat } else { 0nat }
    }
}

/// Bitwise OR of two natural numbers.
pub open spec fn nat_or(a: nat, b: nat) -> nat
    decreases a + b,
{
    if a == 0 && b == 0 {
        0
    } else {
        2 * nat_or(a / 2, b / 2) + if a % 2 == 1 || b % 2 == 1 { 1nat } else { 0nat }
    }
}

/// Bitwise XOR of two natural numbers.
pub open spec fn nat_xor(a: nat, b: nat) -> nat
    decreases a + b,
{
    if a == 0 && b == 0 {
        0
    } else {
        2 * nat_xor(a / 2, b / 2) + if a % 2 != b % 2 { 1nat } else { 0nat }
    }
}

/// The number whose lowest `width` bits are one and whose other bits are zero.
pub open spec fn low_mask(width: nat) -> nat {
    (pow2(width) - 1) as nat
}

/// Bitwise NOT within `width` bits: every one of the lowest `width` bits is flipped.
pub open spec fn nat_not(x: nat, width: nat) -> nat {
    nat_xor(x, low_mask(width))
}

/// Bits `lsb ..= lsb + count - 1` of `x`, moved down to position 0.
pub open spec fn bit_field(x: nat, lsb: nat, count: nat) -> nat {
    (x / pow2(lsb)) % pow2(count)
}

pub proof fn lemma_low_mask_step(width: nat)
    requires
        width > 0,
    ensures
        low_mask(width) == 2 * low_mask((width - 1) as nat) + 1,
        low_mask(width) / 2 == low_mask((width - 1) as nat),
        low_mask(width) % 2 == 1,
        pow2(width) == 2 * pow2((width - 1) as nat),
        low_mask(0) == 0,
{
    lemma_pow2_unfold(width);
    lemma_pow2_pos((width - 1) as nat);
    lemma_pow2(0);
    assert(pow2(0) == 1) by {
        reveal(vstd::arithmetic::power::pow);
    }
}

pub proof fn lemma_and_zero(a: nat)
    ensures
        nat_and(a, 0) == 0,
    decreases a,
{
    if a != 0 {
        lemma_and_zero(a / 2);
    }
}

pub proof fn lemma_or_zero(a: nat)
    ensures
        nat_or(a, 0) == a,
        nat_or(0, a) == a,
    decreases a,
{
    if a != 0 {
        lemma_or_zero(a / 2);
    }
}

/// XOR with the same number twice gives the first number back.
pub proof fn lemma_xor_twice(x: nat, m: nat)
    ensures
        nat_xor(nat_xor(x, m), m) == x,
    decreases x + m,
{
    if x == 0 && m == 0 {
    } else {
        lemma_xor_twice(x / 2, m / 2);
        let y = nat_xor(x, m);
        assert(y / 2 == nat_xor(x / 2, m / 2));
        assert(y % 2 == if x % 2 != m % 2 { 1nat } else { 0nat });
        if y == 0 && m == 0 {
        } else {
            assert(nat_xor(y, m) == 2 * nat_xor(y / 2, m / 2) + if y % 2 != m % 2 { 1nat } else { 0nat });
        }
    }
}

/// AND with a mask of `width` low ones keeps exactly the lowest `width` bits.
pub proof fn lemma_and_low_mask(x: nat, width: nat)
    ensures
        nat_and(x, low_mask(width)) == x % pow2(width),
    decreases width,
{
    if width == 0 {
        lemma_and_zero(x);
        lemma_pow2(0);
        assert(pow2(0) == 1) by {
            reveal(vstd::arithmetic::power::pow);
        }
    } else {
        lemma_low_mask_step(width);
        let w1 = (width - 1) as nat;
        lemma_and_low_mask(x / 2, w1);
        lemma_pow2_pos(w1);
        let p = pow2(w1);
        vstd::arithmetic::div_mod::lemma_mod_breakdown(x as int, 2, p as int);
        if x == 0 {
        } else {
            assert(nat_and(x, low_mask(width)) == 2 * nat_and(x / 2, low_mask(width) / 2) + if x % 2 == 1
                && low_mask(width) % 2 == 1 { 1nat } else { 0nat });
        }
    }
}

/// OR of a multiple of `2^k` with a number below `2^k` is their sum.
pub proof fn lemma_or_disjoint(hi: nat, lo: nat, k: nat)
    requires
        lo < pow2(k),
    ensures
        nat_or(hi * pow2(k), lo) == hi * pow2(k) + lo,
    decreases k,
{
    if k == 0 {
        lemma_pow2(0);
        assert(pow2(0) == 1) by {
            reveal(vstd::arithmetic::power::pow);
        }
        lemma_or_zero(hi * pow2(k));
    } else {
        lemma_low_mask_step(k);
        let k1 = (k - 1) as nat;
        let p = pow2(k1);
        let a = hi * pow2(k);
        assert(hi * (2 * p) == 2 * (hi * p)) by {
            vstd::arithmetic::mul::lemma_mul_is_associative(hi as int, 2, p as int);
            vstd::arithmetic::mul::lemma_mul_is_commutative(hi as int, 2);
            vstd::arithmetic::mul::lemma_mul_is_associative(2, hi as int, p as int);
        }
        assert(a / 2 == hi * p);
        assert(a % 2 == 0);
        lemma_or_disjoint(hi, lo / 2, k1);
        if a == 0 && lo == 0 {
        } else {
            assert(nat_or(a, lo) == 2 * nat_or(a / 2, lo / 2) + if a % 2 == 1 || lo % 2 == 1 { 1nat } else { 0nat });
        }
    }
}

/// Below `2^width`, flipping the lowest `width` bits is subtraction from the mask.
pub proof fn lemma_not_in_width(x: nat, width: nat)
    requires
        x < pow2(width),
    ensures
        nat_not(x, width) == low_mask(width) - x,
        nat_not(x, width) < pow2(width),
    decreases width,
{
    if width == 0 {
        lemma_pow2(0);
        assert(pow2(0) == 1) by {
            reveal(vstd::arithmetic::power::pow);
        }
    } else {
        lemma_low_mask_step(width);
        let w1 = (width - 1) as nat;
        lemma_not_in_width(x / 2, w1);
        let m = low_mask(width);
        assert(nat_xor(x, m) == 2 * nat_xor(x / 2, m / 2) + if x % 2 != m % 2 { 1nat } else { 0nat });
    }
}

/// Flipping the lowest `width` bits twice gives the number back.
pub proof fn lemma_not_twice(x: nat, width: nat)
    ensures
        nat_not(nat_not(x, width), width) == x,
{
    lemma_xor_twice(x, low_mask(width));
}

} // verus!
