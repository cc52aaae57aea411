//! Arbitrary-precision integers.
//!
//! The arithmetic itself is done by `malachite`. Verus cannot look inside an
//! `Integer`, so every operation the evaluator needs is a thin function whose
//! contract is taken on trust from `malachite`'s documentation and source.
//! Contracts speak of an integer through [`int_value`], the mathematical
//! integer that it holds.

use malachite::base::num::arithmetic::traits::{CheckedDiv, Pow};
use malachite::integer::conversion::primitive_int_from_integer::UnsignedFromIntegerError;
use malachite::Integer;
use vstd::arithmetic::power::pow;
use vstd::prelude::*;

verus! {

/// `malachite::Integer`, opaque to the verifier.
#[verifier::external_type_specification]
#[verifier::external_body]
pub struct ExInteger(Integer);

/// The error of `malachite`'s checked conversions from an `Integer` to an
/// unsigned primitive, opaque to the verifier.
#[verifier::external_type_specification]
#[verifier::external_body]
pub struct ExUnsignedFromIntegerError(UnsignedFromIntegerError);

/// The mathematical integer that an `Integer` holds.
pub uninterp spec fn int_value(x: Integer) -> int;

/// Quotient of `a` by `b` rounded toward zero, for `b != 0`.
pub open spec fn trunc_div(a: int, b: int) -> int
    recommends
        b != 0,
{
    if a >= 0 {
        if b > 0 {
            a / b
        } else {
            -(a / (-b))
        }
    } else {
        if b > 0 {
            -((-a) / b)
        } else {
            (-a) / (-b)
        }
    }
}

/// `Integer::from(u32)`: the integer with the value of `v`.
#[verifier::external_body]
pub(crate) fn int_from_u32(v: u32) -> (r: Integer)
    ensures
        int_value(r) == v,
{
    Integer::from(v)
}

/// `Integer::from(i64)`: the integer with the value of `v`.
#[verifier::external_body]
pub(crate) fn int_from_i64(v: i64) -> (r: Integer)
    ensures
        int_value(r) == v,
{
    Integer::from(v)
}

/// `Integer == u32`: whether the integer has the value of `v`.
#[verifier::external_body]
pub(crate) fn int_eq_u32(x: &Integer, v: u32) -> (r: bool)
    ensures
        r == (int_value(*x) == v),
{
    *x == v
}

/// `Integer::clone`: a copy with the same value.
pub assume_specification[ <Integer as Clone>::clone ](x: &Integer) -> (r: Integer)
    ensures
        int_value(r) == int_value(*x),
;

/// `-&Integer`: the exact negation.
#[verifier::external_body]
pub(crate) fn int_neg(x: &Integer) -> (r: Integer)
    ensures
        int_value(r) == -int_value(*x),
{
    -x
}

/// `&Integer + &Integer`: the exact sum.
#[verifier::external_body]
pub(crate) fn int_add(a: &Integer, b: &Integer) -> (r: Integer)
    ensures
        int_value(r) == int_value(*a) + int_value(*b),
{
    a + b
}

/// `&Integer - &Integer`: the exact difference.
#[verifier::external_body]
pub(crate) fn int_sub(a: &Integer, b: &Integer) -> (r: Integer)
    ensures
        int_value(r) == int_value(*a) - int_value(*b),
{
    a - b
}

/// `&Integer * &Integer`: the exact product.
#[verifier::external_body]
pub(crate) fn int_mul(a: &Integer, b: &Integer) -> (r: Integer)
    ensures
        int_value(r) == int_value(*a) * int_value(*b),
{
    a * b
}

/// `CheckedDiv::checked_div` on `&Integer`: `None` for a zero divisor,
/// otherwise the quotient. The method hands the work to `/`, which rounds
/// toward zero.
#[verifier::external_body]
pub(crate) fn int_checked_div(a: &Integer, b: &Integer) -> (r: Option<Integer>)
    ensures
        int_value(*b) == 0 ==> r is None,
        int_value(*b) != 0 ==> r is Some && int_value(r->0) == trunc_div(
            int_value(*a),
            int_value(*b),
        ),
{
    a.checked_div(b)
}

/// `u32::try_from(&Integer)`: the value as a `u32` where it fits, an error
/// where it is negative or too large.
#[verifier::external_body]
pub(crate) fn int_to_u32(x: &Integer) -> (r: Result<u32, UnsignedFromIntegerError>)
    ensures
        0 <= int_value(*x) <= u32::MAX ==> r is Ok && r->Ok_0 == int_value(*x),
        !(0 <= int_value(*x) <= u32::MAX) ==> r is Err,
{
    u32::try_from(x)
}

/// `Pow::pow` on `&Integer`: the exact power. `malachite` takes a `u64`
/// exponent; the exponent is held to 32 bits here, which keeps the bit counts
/// that `malachite` multiplies by the exponent within a machine word.
#[verifier::external_body]
pub(crate) fn int_pow(x: &Integer, exp: u32) -> (r: Integer)
    ensures
        int_value(r) == pow(int_value(*x), exp as nat),
{
    x.pow(u64::from(exp))
}

} // verus!
