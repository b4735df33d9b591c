//! The boundary to `num_bigint`: the integer type and the few operations on
//! it that the codec needs.
//!
//! Nothing in this file is proved. Each function makes one call into
//! `num_bigint` and states what that call returns, over the mathematical
//! integer that a `BigInt` stands for. The contracts speak of values only:
//! like any allocation in Rust, a call that needs more memory than the
//! machine has does not return.

use num_bigint::BigInt;
use num_integer::Integer;
use num_traits::ToPrimitive;
use vstd::arithmetic::power2::pow2;
use vstd::prelude::*;

verus! {

/// `num_bigint::BigInt`, a signed integer of any size. Verified code hands
/// its values on and learns of them only what the functions below state.
#[verifier::external_type_specification]
#[verifier::external_body]
pub struct ExBigInt(num_bigint::BigInt);

/// The mathematical integer that a `BigInt` stands for.
pub uninterp spec fn int_value(x: BigInt) -> int;

/// `BigInt::from` on a `u64`: the result stands for the same number.
#[verifier::external_body]
pub(crate) fn from_u64(n: u64) -> (r: BigInt)
    ensures
        int_value(r) == n,
{
    BigInt::from(n)
}

/// `BigInt::from` on a `u128`: the result stands for the same number.
#[verifier::external_body]
pub(crate) fn from_u128(n: u128) -> (r: BigInt)
    ensures
        int_value(r) == n,
{
    BigInt::from(n)
}

/// `ToPrimitive::to_u128` on a `BigInt`: the number itself where a `u128`
/// can hold it, `None` where it is negative or too large.
#[verifier::external_body]
pub(crate) fn to_u128(x: &BigInt) -> (r: Option<u128>)
    ensures
        match r {
            Some(n) => int_value(*x) == n,
            None => int_value(*x) < 0 || int_value(*x) > u128::MAX,
        },
{
    x.to_u128()
}

/// `+` on two `BigInt`s: the sum.
#[verifier::external_body]
pub(crate) fn sum(x: BigInt, y: BigInt) -> (r: BigInt)
    ensures
        int_value(r) == int_value(x) + int_value(y),
{
    x + y
}

/// `<<` on a `BigInt` with a `usize` on the right: the number times two to
/// the power `bits`, whatever its sign.
#[verifier::external_body]
pub(crate) fn shift_left(x: BigInt, bits: usize) -> (r: BigInt)
    ensures
        int_value(r) == int_value(x) * pow2(bits as nat),
{
    x << bits
}

/// `>>` on a `BigInt` with a `usize` on the right: the number divided by two
/// to the power `bits` and rounded down, so that a negative number stays
/// negative (`num_bigint` adds one to the shifted magnitude where a set bit
/// was shifted out).
#[verifier::external_body]
pub(crate) fn shift_right(x: BigInt, bits: usize) -> (r: BigInt)
    ensures
        int_value(r) == int_value(x) / (pow2(bits as nat) as int),
{
    x >> bits
}

/// `Integer::mod_floor` on two `BigInt`s, for a positive modulus: the
/// remainder that is not negative and less than the modulus, also where `x`
/// is negative. (On a modulus of zero `num_bigint` panics; a negative one
/// is not needed here.)
#[verifier::external_body]
pub(crate) fn mod_floor(x: &BigInt, modulus: &BigInt) -> (r: BigInt)
    requires
        int_value(*modulus) > 0,
    ensures
        int_value(r) == int_value(*x) % int_value(*modulus),
{
    x.mod_floor(modulus)
}

/// `Clone::clone` on a `BigInt`: a copy that stands for the same number.
#[verifier::external_body]
pub(crate) fn duplicate(x: &BigInt) -> (r: BigInt)
    ensures
        int_value(r) == int_value(*x),
{
    x.clone()
}

/// `==` on two `BigInt`s: whether they stand for the same number.
#[verifier::external_body]
pub(crate) fn same_value(x: &BigInt, y: &BigInt) -> (r: bool)
    ensures
        r == (int_value(*x) == int_value(*y)),
{
    x == y
}

} // verus!
