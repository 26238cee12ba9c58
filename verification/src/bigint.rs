use vstd::prelude::*;
use num_bigint::BigInt;
use crate::decimal::dec_bytes;

verus! {

/// Declaration of num_bigint's signed arbitrary-precision integer, so that
/// values of it can flow through verified code.  The value a `BigInt` holds is
/// modelled by the uninterpreted view `int_of`; every operation the engine
/// uses goes through one of the wrappers below, whose contracts state what the
/// operation does to that view.
#[verifier::external_type_specification]
#[verifier::external_body]
pub struct ExBigInt(BigInt);

/// The mathematical integer that a `BigInt` holds.
pub uninterp spec fn int_of(n: BigInt) -> int;

/// Relies on `num_bigint::BigInt::from::<u64>`: the constructed value holds
/// exactly the given integer.
#[verifier::external_body]
pub(crate) fn from_u64(v: u64) -> (r: BigInt)
    ensures
        int_of(r) == v as int,
{
    BigInt::from(v)
}

/// Relies on `core::ops::Neg` for `&BigInt`: arithmetic negation.
#[verifier::external_body]
pub(crate) fn neg(a: &BigInt) -> (r: BigInt)
    ensures
        int_of(r) == -int_of(*a),
{
    -a
}

/// Relies on `core::ops::Add` for `&BigInt`: exact integer addition.
#[verifier::external_body]
pub(crate) fn add(a: &BigInt, b: &BigInt) -> (r: BigInt)
    ensures
        int_of(r) == int_of(*a) + int_of(*b),
{
    a + b
}

/// Relies on `core::ops::Mul` for `&BigInt`: exact integer multiplication.
#[verifier::external_body]
pub(crate) fn mul(a: &BigInt, b: &BigInt) -> (r: BigInt)
    ensures
        int_of(r) == int_of(*a) * int_of(*b),
{
    a * b
}

/// Relies on `num_integer::Integer::div_rem` for `BigInt`: quotient and
/// remainder of truncated division, which agree with Euclidean division when
/// the dividend is nonnegative and the divisor positive.
#[verifier::external_body]
pub(crate) fn div_rem(a: &BigInt, b: &BigInt) -> (r: (BigInt, BigInt))
    requires
        int_of(*a) >= 0,
        int_of(*b) > 0,
    ensures
        int_of(r.0) == int_of(*a) / int_of(*b),
        int_of(r.1) == int_of(*a) % int_of(*b),
{
    num_integer::Integer::div_rem(a, b)
}

/// Relies on `num_bigint::BigInt::pow`: exact exponentiation by a `u32`.
#[verifier::external_body]
pub(crate) fn pow_u32(a: &BigInt, e: u32) -> (r: BigInt)
    ensures
        int_of(r) == vstd::arithmetic::power::pow(int_of(*a), e as nat),
{
    a.pow(e)
}

/// Relies on `num_bigint::BigInt::sqrt` (`num_integer::Roots::sqrt`): the
/// truncated principal square root of a nonnegative integer.  The call panics
/// on a negative argument, which the precondition rules out.
#[verifier::external_body]
pub(crate) fn sqrt(a: &BigInt) -> (r: BigInt)
    requires
        int_of(*a) >= 0,
    ensures
        int_of(r) >= 0,
        int_of(r) * int_of(r) <= int_of(*a),
        (int_of(r) + 1) * (int_of(r) + 1) > int_of(*a),
{
    a.sqrt()
}

/// Relies on `num_bigint::BigInt::sign`: `Sign::Plus` exactly when the value
/// is positive.
#[verifier::external_body]
pub(crate) fn is_positive(a: &BigInt) -> (r: bool)
    ensures
        r == (int_of(*a) > 0),
{
    matches!(a.sign(), num_bigint::Sign::Plus)
}

/// Relies on `PartialOrd::lt` for `BigInt`, which orders by value.
#[verifier::external_body]
pub(crate) fn lt(a: &BigInt, b: &BigInt) -> (r: bool)
    ensures
        r == (int_of(*a) < int_of(*b)),
{
    a < b
}

/// Relies on `num_traits::ToPrimitive::to_u64` for `BigInt`: `Some` exactly
/// when the value fits in a `u64`, and then the value itself.
#[verifier::external_body]
pub(crate) fn to_u64(a: &BigInt) -> (r: Option<u64>)
    ensures
        r.is_some() <==> 0 <= int_of(*a) <= u64::MAX,
        r matches Some(v) ==> v == int_of(*a),
{
    num_traits::ToPrimitive::to_u64(a)
}

/// Relies on `num_bigint::BigInt::to_str_radix` with radix 10: the decimal
/// numeral of a nonnegative value, most significant digit first, without sign
/// or leading zeroes.
#[verifier::external_body]
pub(crate) fn to_decimal(a: &BigInt) -> (r: Vec<u8>)
    requires
        int_of(*a) >= 0,
    ensures
        r@ == dec_bytes(int_of(*a) as nat),
{
    a.to_str_radix(10).into_bytes()
}

} // verus!
