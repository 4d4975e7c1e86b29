//! Natural numbers of any size. A number is held as its digits in base 256,
//! and the arithmetic on the digits is left to the `num` crate, whose
//! results are believed.

use vstd::prelude::*;
use num::BigUint;
use num::ToPrimitive;
use num::Zero;

verus! {

/// A natural number of any size: its digits in base 256, the least
/// significant digit first. Zeros at the end do not change the number.
#[derive(Debug, Clone)]
pub struct Natural {
    pub digits: Vec<u8>,
}

/// The number that the digits stand for in base 256, the least significant
/// digit first.
pub open spec fn digits_value(digits: Seq<u8>) -> nat
    decreases digits.len(),
{
    if digits.len() == 0 {
        0
    } else {
        digits[0] as nat + 256 * digits_value(digits.drop_first())
    }
}

impl View for Natural {
    type V = nat;

    open spec fn view(&self) -> nat {
        digits_value(self.digits@)
    }
}

/// `BigUint::from` on a `usize`, written out by `BigUint::to_bytes_le`: the
/// digits of the number.
#[verifier::external_body]
pub(crate) fn natural_from_usize(n: usize) -> (r: Natural)
    ensures
        r@ == n,
{
    Natural { digits: BigUint::from(n).to_bytes_le() }
}

/// `ToPrimitive::to_usize` on the `BigUint` that `BigUint::from_bytes_le`
/// reads from the digits: the number itself where a `usize` can hold it,
/// and `None` where it is too large.
#[verifier::external_body]
pub(crate) fn natural_to_usize(a: &Natural) -> (r: Option<usize>)
    ensures
        r == if a@ <= usize::MAX {
            Some(a@ as usize)
        } else {
            None
        },
{
    BigUint::from_bytes_le(&a.digits).to_usize()
}

/// `Zero::is_zero` on the `BigUint` that `BigUint::from_bytes_le` reads
/// from the digits: whether the number is zero.
#[verifier::external_body]
pub(crate) fn natural_is_zero(a: &Natural) -> (r: bool)
    ensures
        r == (a@ == 0),
{
    BigUint::from_bytes_le(&a.digits).is_zero()
}

/// `BigUint + BigUint` between `BigUint::from_bytes_le` and
/// `BigUint::to_bytes_le`: the digits of the exact sum.
#[verifier::external_body]
pub(crate) fn natural_add(a: &Natural, b: &Natural) -> (r: Natural)
    ensures
        r@ == a@ + b@,
{
    let sum = BigUint::from_bytes_le(&a.digits) + BigUint::from_bytes_le(&b.digits);
    Natural { digits: sum.to_bytes_le() }
}

/// `BigUint * BigUint` between `BigUint::from_bytes_le` and
/// `BigUint::to_bytes_le`: the digits of the exact product.
#[verifier::external_body]
pub(crate) fn natural_mul(a: &Natural, b: &Natural) -> (r: Natural)
    ensures
        r@ == a@ * b@,
{
    let product = BigUint::from_bytes_le(&a.digits) * BigUint::from_bytes_le(&b.digits);
    Natural { digits: product.to_bytes_le() }
}

/// `BigUint / BigUint` between `BigUint::from_bytes_le` and
/// `BigUint::to_bytes_le`: the digits of the quotient, rounded down. The
/// division panics on a zero divisor.
#[verifier::external_body]
pub(crate) fn natural_div(a: &Natural, b: &Natural) -> (r: Natural)
    requires
        b@ > 0,
    ensures
        r@ == a@ / b@,
{
    let quotient = BigUint::from_bytes_le(&a.digits) / BigUint::from_bytes_le(&b.digits);
    Natural { digits: quotient.to_bytes_le() }
}

/// `BigUint % BigUint` between `BigUint::from_bytes_le` and
/// `BigUint::to_bytes_le`: the digits of the remainder. The division panics
/// on a zero divisor.
#[verifier::external_body]
pub(crate) fn natural_rem(a: &Natural, b: &Natural) -> (r: Natural)
    requires
        b@ > 0,
    ensures
        r@ == a@ % b@,
{
    let remainder = BigUint::from_bytes_le(&a.digits) % BigUint::from_bytes_le(&b.digits);
    Natural { digits: remainder.to_bytes_le() }
}

} // verus!
