//! The fixed-width types that can be components, and how each goes into a
//! big integer and comes back out of one.

use crate::bigint::{from_u128, from_u64, int_value, mod_floor, shift_left, to_u128};
use num_bigint::BigInt;
use vstd::arithmetic::div_mod::lemma_mod_bound;
use vstd::arithmetic::power2::{
    lemma2_to64,
    lemma_pow2_adds,
    lemma_pow2_pos,
    lemma_pow2_strictly_increases,
    pow2,
};
use vstd::layout::unsigned_int_max_values;
use vstd::prelude::*;

verus! {

/// A fixed-width unsigned number that can stand in a slot of a packed value.
pub trait Component: Copy {
    /// The width of the type in bits.
    spec fn width() -> nat;

    /// The number that a value of the type stands for.
    spec fn value(self) -> nat;

    /// A value is less than two to the power of the type's width.
    proof fn lemma_value_bound(self)
        ensures
            self.value() < pow2(Self::width()),
    ;

    /// Two values that stand for the same number are the same value.
    proof fn lemma_value_injective(self, other: Self)
        requires
            self.value() == other.value(),
        ensures
            self == other,
    ;

    /// The big integer that stands for the same number.
    fn to_bigint(self) -> (r: BigInt)
        ensures
            int_value(r) == self.value(),
    ;

    /// The low bits of `x`, as many as the type is wide. Whatever `x` holds
    /// above them is dropped without notice; of a negative `x` these are the
    /// low bits of its two's complement.
    fn truncate_from(x: &BigInt) -> (r: Self)
        ensures
            r.value() == int_value(*x) % (pow2(Self::width()) as int),
    ;
}

/// Two to the power `bits`.
pub fn power_of_two(bits: usize) -> (r: BigInt)
    ensures
        int_value(r) == pow2(bits as nat),
{
    shift_left(from_u64(1), bits)
}

/// `2^128` is one more than a `u128` can hold.
pub proof fn lemma_pow2_128()
    ensures
        pow2(128) == u128::MAX + 1,
{
    lemma2_to64();
    lemma_pow2_adds(64, 64);
}

/// The `bits` low bits of `x`, for at most 128 of them. Of a negative `x`
/// these are the low bits of its two's complement.
pub fn low_bits(x: &BigInt, bits: usize) -> (r: u128)
    requires
        bits <= 128,
    ensures
        r == int_value(*x) % (pow2(bits as nat) as int),
{
    let modulus = power_of_two(bits);
    proof {
        lemma_pow2_pos(bits as nat);
        lemma_mod_bound(int_value(*x), pow2(bits as nat) as int);
        lemma_pow2_128();
        if bits < 128 {
            lemma_pow2_strictly_increases(bits as nat, 128);
        }
    }
    let low = mod_floor(x, &modulus);
    to_u128(&low).unwrap()
}

impl Component for u8 {
    open spec fn width() -> nat {
        8
    }

    open spec fn value(self) -> nat {
        self as nat
    }

    proof fn lemma_value_bound(self) {
        lemma2_to64();
    }

    proof fn lemma_value_injective(self, other: Self) {
    }

    fn to_bigint(self) -> (r: BigInt) {
        from_u64(self as u64)
    }

    fn truncate_from(x: &BigInt) -> (r: Self) {
        let low = low_bits(x, 8);
        proof {
            lemma2_to64();
        }
        low as u8
    }
}

impl Component for u16 {
    open spec fn width() -> nat {
        16
    }

    open spec fn value(self) -> nat {
        self as nat
    }

    proof fn lemma_value_bound(self) {
        lemma2_to64();
    }

    proof fn lemma_value_injective(self, other: Self) {
    }

    fn to_bigint(self) -> (r: BigInt) {
        from_u64(self as u64)
    }

    fn truncate_from(x: &BigInt) -> (r: Self) {
        let low = low_bits(x, 16);
        proof {
            lemma2_to64();
        }
        low as u16
    }
}

impl Component for u32 {
    open spec fn width() -> nat {
        32
    }

    open spec fn value(self) -> nat {
        self as nat
    }

    proof fn lemma_value_bound(self) {
        lemma2_to64();
    }

    proof fn lemma_value_injective(self, other: Self) {
    }

    fn to_bigint(self) -> (r: BigInt) {
        from_u64(self as u64)
    }

    fn truncate_from(x: &BigInt) -> (r: Self) {
        let low = low_bits(x, 32);
        proof {
            lemma2_to64();
        }
        low as u32
    }
}

impl Component for u64 {
    open spec fn width() -> nat {
        64
    }

    open spec fn value(self) -> nat {
        self as nat
    }

    proof fn lemma_value_bound(self) {
        lemma2_to64();
    }

    proof fn lemma_value_injective(self, other: Self) {
    }

    fn to_bigint(self) -> (r: BigInt) {
        from_u64(self)
    }

    fn truncate_from(x: &BigInt) -> (r: Self) {
        let low = low_bits(x, 64);
        proof {
            lemma2_to64();
        }
        low as u64
    }
}

impl Component for u128 {
    open spec fn width() -> nat {
        128
    }

    open spec fn value(self) -> nat {
        self as nat
    }

    proof fn lemma_value_bound(self) {
        lemma_pow2_128();
    }

    proof fn lemma_value_injective(self, other: Self) {
    }

    fn to_bigint(self) -> (r: BigInt) {
        from_u128(self)
    }

    fn truncate_from(x: &BigInt) -> (r: Self) {
        low_bits(x, 128)
    }
}

impl Component for usize {
    open spec fn width() -> nat {
        usize::BITS as nat
    }

    open spec fn value(self) -> nat {
        self as nat
    }

    proof fn lemma_value_bound(self) {
        unsigned_int_max_values();
    }

    proof fn lemma_value_injective(self, other: Self) {
    }

    fn to_bigint(self) -> (r: BigInt) {
        from_u64(self as u64)
    }

    fn truncate_from(x: &BigInt) -> (r: Self) {
        let low = low_bits(x, usize::BITS as usize);
        proof {
            unsigned_int_max_values();
        }
        low as usize
    }
}

} // verus!
