use vstd::prelude::*;

use crate::bytes::be_val;
use crate::bytes::minimal_be;

verus! {

/// Relies on num_bigint::BigUint: `from_bytes_be` reads a big-endian unsigned
/// integer, `Add` is integer addition, and `to_bytes_be` writes the shortest
/// big-endian encoding (the single byte 0 for zero).
#[verifier::external_body]
pub fn big_add(a: &Vec<u8>, b: &Vec<u8>) -> (r: Vec<u8>)
    ensures
        be_val(r@) == be_val(a@) + be_val(b@),
        minimal_be(r@),
{
    let x = num_bigint::BigUint::from_bytes_be(a) + num_bigint::BigUint::from_bytes_be(b);
    x.to_bytes_be()
}

/// Relies on num_bigint::BigUint: `Mul` is integer multiplication; byte
/// conversions as in `big_add`.
#[verifier::external_body]
pub fn big_mul(a: &Vec<u8>, b: &Vec<u8>) -> (r: Vec<u8>)
    ensures
        be_val(r@) == be_val(a@) * be_val(b@),
        minimal_be(r@),
{
    let x = num_bigint::BigUint::from_bytes_be(a) * num_bigint::BigUint::from_bytes_be(b);
    x.to_bytes_be()
}

/// Relies on num_bigint::BigUint: `Rem` is the integer remainder, which for
/// unsigned operands lies in [0, m); it panics when m is zero, which the
/// precondition rules out. Byte conversions as in `big_add`.
#[verifier::external_body]
pub fn big_mod(a: &Vec<u8>, m: &Vec<u8>) -> (r: Vec<u8>)
    requires
        be_val(m@) > 0,
    ensures
        be_val(r@) == be_val(a@) % be_val(m@),
        minimal_be(r@),
{
    let x = num_bigint::BigUint::from_bytes_be(a) % num_bigint::BigUint::from_bytes_be(m);
    x.to_bytes_be()
}

/// Relies on num_bigint::BigUint: `Sub` is integer subtraction, which panics
/// on underflow; the precondition rules that out. Byte conversions as in
/// `big_add`.
#[verifier::external_body]
pub fn big_sub(a: &Vec<u8>, b: &Vec<u8>) -> (r: Vec<u8>)
    requires
        be_val(b@) <= be_val(a@),
    ensures
        be_val(r@) == be_val(a@) - be_val(b@),
        minimal_be(r@),
{
    let x = num_bigint::BigUint::from_bytes_be(a) - num_bigint::BigUint::from_bytes_be(b);
    x.to_bytes_be()
}

/// Relies on num_bigint::BigUint::modpow, documented as `(self ^ exponent) %
/// modulus`, panicking when the modulus is zero; the precondition rules that
/// out. Byte conversions as in `big_add`.
#[verifier::external_body]
pub fn big_modpow(base: &Vec<u8>, exponent: &Vec<u8>, modulus: &Vec<u8>) -> (r: Vec<u8>)
    requires
        be_val(modulus@) > 0,
    ensures
        be_val(r@) == vstd::arithmetic::power::pow(be_val(base@) as int, be_val(exponent@)) % (
        be_val(modulus@) as int),
        minimal_be(r@),
{
    let x = num_bigint::BigUint::from_bytes_be(base).modpow(
        &num_bigint::BigUint::from_bytes_be(exponent),
        &num_bigint::BigUint::from_bytes_be(modulus),
    );
    x.to_bytes_be()
}

/// Relies on num_bigint::BigUint: `Ord` compares the represented integers.
#[verifier::external_body]
pub fn big_lt(a: &Vec<u8>, b: &Vec<u8>) -> (r: bool)
    ensures
        r == (be_val(a@) < be_val(b@)),
{
    num_bigint::BigUint::from_bytes_be(a) < num_bigint::BigUint::from_bytes_be(b)
}

/// Relies on num_bigint::BigUint: `PartialEq` compares the represented
/// integers.
#[verifier::external_body]
pub fn big_eq(a: &Vec<u8>, b: &Vec<u8>) -> (r: bool)
    ensures
        r == (be_val(a@) == be_val(b@)),
{
    num_bigint::BigUint::from_bytes_be(a) == num_bigint::BigUint::from_bytes_be(b)
}

} // verus!
