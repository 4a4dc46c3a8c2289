use vstd::prelude::*;

verus! {

use vstd::arithmetic::power::pow;
use vstd::arithmetic::power::lemma_pow1;
use vstd::arithmetic::power::lemma_pow_adds;
use vstd::arithmetic::power::lemma_pow_mod_noop;
use vstd::arithmetic::div_mod::lemma_add_mod_noop;
use vstd::arithmetic::div_mod::lemma_mul_mod_noop_general;
use vstd::arithmetic::div_mod::lemma_small_mod;
use crate::bytes::be_val;
use crate::bytes::copy_range;
use crate::hash::sha256;
use crate::hash::sha256_of;
use crate::field::field_prime;
use crate::field::curve_alpha;
use crate::field::curve_beta;
use crate::field::spec_is_quad_residue;
use crate::field::is_quad_residue;
use crate::field::lemma_field_prime_bounds;
use crate::field::Felt;
use crate::field::felt_reduce;
use crate::field::felt_neg;
use crate::field::byte_vec1;
use crate::field::p_be;
use crate::field::beta_be;
use crate::sqrt::spec_sqrt;
use crate::sqrt::sqrt;
use crate::sqrt::lemma_spec_sqrt_root;
use crate::sqrt::lemma_neg_square;
use crate::bigint::big_add;
use crate::bigint::big_modpow;
use crate::errors::HintError;

/// The right-hand side of the curve equation for an x candidate: the cube is
/// reduced modulo p, the linear term and beta are added as plain integers.
pub open spec fn rhs_at(x: nat) -> nat {
    (pow(x as int, 3) % (field_prime() as int)) as nat + curve_alpha() * x + curve_beta()
}

/// The y recovered for an x candidate: the smaller square root of the
/// reduced right-hand side, when the right-hand side passes the residue test
/// and the root search finds it.
pub open spec fn spec_recover_y(x: nat) -> Option<nat> {
    if spec_is_quad_residue(rhs_at(x)) {
        spec_sqrt(rhs_at(x) % field_prime())
    } else {
        None
    }
}

/// The 41-byte block hashed at one iteration: the 31-byte digest tail, one
/// byte of the iteration count, nine zero bytes.
pub open spec fn block_at(tail: Seq<u8>, i: nat) -> Seq<u8> {
    tail + seq![i as u8] + seq![0u8, 0u8, 0u8, 0u8, 0u8, 0u8, 0u8, 0u8, 0u8]
}

/// The x candidate at one iteration: the block's digest read as a big-endian
/// 256-bit integer, not reduced modulo p.
pub open spec fn x_at(tail: Seq<u8>, i: nat) -> nat {
    be_val(sha256_of(block_at(tail, i)))
}

/// The y output for a recovered root: the root itself for sign bit 0, its
/// additive inverse modulo p for sign bit 1.
pub open spec fn apply_sign(sign: u8, y0: nat) -> nat {
    if sign & 1 == 1 {
        ((field_prime() - y0) as nat) % field_prime()
    } else {
        y0
    }
}

/// The derivation outcome from iteration i on: the first iteration whose x
/// candidate admits a y gives the point; after 100 iterations there is none.
pub open spec fn derive_from(tail: Seq<u8>, sign: u8, i: nat) -> Option<(nat, nat)>
    decreases 100 - i,
{
    if i >= 100 {
        None
    } else {
        match spec_recover_y(x_at(tail, i)) {
            Some(y0) => Some((x_at(tail, i) % field_prime(), apply_sign(sign, y0))),
            None => derive_from(tail, sign, i + 1),
        }
    }
}

/// The derivation outcome for a seed: hash it once, take the low bit of the
/// leading digest byte as the sign and the remaining 31 bytes as the tail.
pub open spec fn derive_point(seed: Seq<u8>) -> Option<(nat, nat)> {
    let digest = sha256_of(seed);
    derive_from(digest.subrange(1, 32), digest[0], 0)
}

/// The relation the derivation routine establishes between a seed and its
/// result.
pub open spec fn derivation_post(seed: Seq<u8>, out: Option<(nat, nat)>) -> bool {
    out == derive_point(seed)
}

/// Recover the y coordinate on the curve for a given x candidate, read from
/// big-endian bytes; None when the right-hand side fails the residue test or
/// the root search.
pub fn recover_y(x: &Vec<u8>) -> (res: Option<Felt>)
    ensures
        match res {
            Some(y) => y.wf() && spec_recover_y(be_val(x@)) == Some(y@),
            None => spec_recover_y(be_val(x@)) == None::<nat>,
        },
{
    proof {
        lemma_field_prime_bounds();
    }
    let p = p_be();
    let three = byte_vec1(3);
    let cube = big_modpow(x, &three, &p);
    let with_linear = big_add(&cube, x);
    let beta = beta_be();
    let rhs = big_add(&with_linear, &beta);
    proof {
        assert(be_val(rhs@) == rhs_at(be_val(x@)));
    }
    if is_quad_residue(&rhs) {
        let rhs_red = felt_reduce(&rhs);
        sqrt(&rhs_red)
    } else {
        None
    }
}

/// Derive a point on the curve y^2 = x^3 + alpha*x + beta (mod p),
/// deterministically from the seed bytes: hash the seed, then derive
/// candidate x values from its tail until one admits a y, choosing the sign
/// of y by the digest's leading bit.
pub fn random_ec_point(seed_bytes: Vec<u8>) -> (res: Result<(Felt, Felt), HintError>)
    ensures
        match res {
            Ok(pt) => pt.0.wf() && pt.1.wf() && derivation_post(
                seed_bytes@,
                Some((pt.0@, pt.1@)),
            ),
            Err(e) => e == HintError::RandomEcPointNotOnCurve && derivation_post(
                seed_bytes@,
                None::<(nat, nat)>,
            ),
        },
{
    let digest = sha256(&seed_bytes);
    let sign: u8 = digest[0];
    let tail = copy_range(&digest, 1, 32);
    let ghost tl: Seq<u8> = sha256_of(seed_bytes@).subrange(1, 32);
    let mut i: usize = 0;
    while i < 100
        invariant
            i <= 100,
            tail@ == tl,
            tl == sha256_of(seed_bytes@).subrange(1, 32),
            tl.len() == 31,
            sign == sha256_of(seed_bytes@)[0],
            derive_from(tl, sign, 0) == derive_from(tl, sign, i as nat),
        decreases 100 - i,
    {
        let mut block = copy_range(&tail, 0, tail.len());
        block.push(i as u8);
        block.push(0);
        block.push(0);
        block.push(0);
        block.push(0);
        block.push(0);
        block.push(0);
        block.push(0);
        block.push(0);
        block.push(0);
        proof {
            assert(block@ =~= block_at(tl, i as nat));
        }
        let d = sha256(&block);
        match recover_y(&d) {
            Some(y0) => {
                let xf = felt_reduce(&d);
                let yf = if sign & 1 == 1 {
                    felt_neg(&y0)
                } else {
                    y0
                };
                proof {
                    lemma_field_prime_bounds();
                    assert(be_val(d@) == x_at(tl, i as nat));
                    assert(yf@ == apply_sign(sign, y0@));
                    assert(derive_from(tl, sign, i as nat) == Some((xf@, yf@)));
                }
                return Ok((xf, yf));
            },
            None => {
                proof {
                    assert(derive_from(tl, sign, i as nat) == derive_from(tl, sign, i as nat + 1));
                }
            },
        }
        i += 1;
    }
    proof {
        assert(derive_from(tl, sign, 100) == None::<(nat, nat)>);
    }
    Err(HintError::RandomEcPointNotOnCurve)
}

/// Law: the derivation is deterministic; any two outcomes that satisfy the
/// derivation relation for the same seed are equal.
pub proof fn lemma_derivation_deterministic(
    seed: Seq<u8>,
    out1: Option<(nat, nat)>,
    out2: Option<(nat, nat)>,
)
    requires
        derivation_post(seed, out1),
        derivation_post(seed, out2),
    ensures
        out1 == out2,
{
}

/// pow(x, 3) is the triple product.
proof fn lemma_pow3(x: int)
    ensures
        pow(x, 3) == x * x * x,
{
    lemma_pow1(x);
    lemma_pow_adds(x, 1, 1);
    lemma_pow_adds(x, 1, 2);
    assert(x * (x * x) == x * x * x) by (nonlinear_arith);
}

/// A derivation that succeeds from iteration i on yields a reduced point on
/// the curve.
proof fn lemma_derive_from_on_curve(tail: Seq<u8>, sign: u8, i: nat, x: nat, y: nat)
    requires
        i <= 100,
        derive_from(tail, sign, i) == Some((x, y)),
    ensures
        x < field_prime(),
        y < field_prime(),
        (y * y) % field_prime() == (x * x * x + curve_alpha() * x + curve_beta()) % field_prime(),
    decreases 100 - i,
{
    lemma_field_prime_bounds();
    crate::field::lemma_field_constants();
    let p = field_prime() as int;
    match spec_recover_y(x_at(tail, i)) {
        Some(y0) => {
            let xr = x_at(tail, i);
            let a = rhs_at(xr) % field_prime();
            lemma_spec_sqrt_root(a, y0);
            // y squares to the reduced right-hand side.
            assert((y * y) % field_prime() == a) by {
                if sign & 1 == 1 {
                    assert(y == ((field_prime() - y0) as nat) % field_prime());
                    lemma_neg_square(y0);
                    lemma_mul_mod_noop_general(
                        (field_prime() - y0) as int,
                        (field_prime() - y0) as int,
                        p,
                    );
                    lemma_mod_twice(((field_prime() - y0) * (field_prime() - y0)) as int, p);
                } else {
                    assert(y == y0);
                }
            }
            // The reduced right-hand side is the curve polynomial at x = xr mod p.
            assert(a == (x * x * x + curve_alpha() * x + curve_beta()) % field_prime()) by {
                let c = (pow(xr as int, 3) % p) as int;
                assert(rhs_at(xr) as int == c + xr + curve_beta());
                assert(x == xr % field_prime());
                assert(pow(x as int, 3) % p == pow(xr as int, 3) % p) by {
                    lemma_pow_mod_noop(xr as int, 3, p);
                    lemma_pow_mod_noop(x as int, 3, p);
                    lemma_small_mod(x, field_prime());
                }
                lemma_pow3(x as int);
                lemma_pow3(xr as int);
                lemma_small_mod(curve_beta(), field_prime());
                assert((rhs_at(xr) as int) % p == ((pow(xr as int, 3) % p) + (xr as int % p) + (
                curve_beta() as int % p)) % p) by {
                    lemma_add_mod_noop(c + xr, curve_beta() as int, p);
                    lemma_add_mod_noop(c, xr as int, p);
                    lemma_mod_twice(pow(xr as int, 3), p);
                    lemma_add_mod_noop((c % p) + (xr as int % p), curve_beta() as int % p, p);
                    lemma_mod_twice((c % p) + (xr as int % p), p);
                }
                assert(((x * x * x + curve_alpha() * x + curve_beta()) as int) % p == ((pow(
                    x as int,
                    3,
                ) % p) + (x as int % p) + (curve_beta() as int % p)) % p) by {
                    lemma_pow3(x as int);
                    lemma_add_mod_noop(pow(x as int, 3) + x, curve_beta() as int, p);
                    lemma_add_mod_noop(pow(x as int, 3), x as int, p);
                    lemma_add_mod_noop((pow(x as int, 3) % p) + (x as int % p), curve_beta() as int
                        % p, p);
                    lemma_mod_twice(pow(x as int, 3), p);
                    lemma_mod_twice((pow(x as int, 3) % p) + (x as int % p), p);
                }
            }
        },
        None => {
            lemma_derive_from_on_curve(tail, sign, i + 1, x, y);
        },
    }
}

/// Reducing twice is reducing once.
proof fn lemma_mod_twice(x: int, m: int)
    requires
        m > 0,
    ensures
        (x % m) % m == x % m,
{
    lemma_small_mod((x % m) as nat, m as nat);
}

/// Law: when the derivation succeeds, the point is on the curve and both
/// coordinates are reduced into [0, p).
pub proof fn lemma_derived_point_on_curve(seed: Seq<u8>, x: nat, y: nat)
    requires
        derive_point(seed) == Some((x, y)),
    ensures
        x < field_prime(),
        y < field_prime(),
        (y * y) % field_prime() == (x * x * x + curve_alpha() * x + curve_beta()) % field_prime(),
{
    let digest = sha256_of(seed);
    lemma_derive_from_on_curve(digest.subrange(1, 32), digest[0], 0, x, y);
}

/// Two sign values with opposite low bits give, from any iteration on, the
/// same x and additively inverse y.
proof fn lemma_derive_from_sign_flip(
    tail: Seq<u8>,
    s1: u8,
    s2: u8,
    i: nat,
    x1: nat,
    y1: nat,
    x2: nat,
    y2: nat,
)
    requires
        i <= 100,
        s1 & 1 == 0,
        s2 & 1 == 1,
        derive_from(tail, s1, i) == Some((x1, y1)),
        derive_from(tail, s2, i) == Some((x2, y2)),
    ensures
        x2 == x1,
        y2 == ((field_prime() - y1) as nat) % field_prime(),
    decreases 100 - i,
{
    match spec_recover_y(x_at(tail, i)) {
        Some(y0) => {
            assert(y1 == apply_sign(s1, y0));
            assert(y1 == y0);
            assert(y2 == apply_sign(s2, y0));
        },
        None => {
            lemma_derive_from_sign_flip(tail, s1, s2, i + 1, x1, y1, x2, y2);
        },
    }
}

/// Law: for two seeds whose digests share the 31-byte tail but differ in the
/// sign bit, the derived x is unchanged and the derived y flips to its
/// additive inverse modulo p.
pub proof fn lemma_sign_selection(
    seed1: Seq<u8>,
    seed2: Seq<u8>,
    x1: nat,
    y1: nat,
    x2: nat,
    y2: nat,
)
    requires
        sha256_of(seed1).subrange(1, 32) == sha256_of(seed2).subrange(1, 32),
        sha256_of(seed1)[0] & 1 == 0,
        sha256_of(seed2)[0] & 1 == 1,
        derive_point(seed1) == Some((x1, y1)),
        derive_point(seed2) == Some((x2, y2)),
    ensures
        x2 == x1,
        y2 == ((field_prime() - y1) as nat) % field_prime(),
{
    lemma_derive_from_sign_flip(
        sha256_of(seed1).subrange(1, 32),
        sha256_of(seed1)[0],
        sha256_of(seed2)[0],
        0,
        x1,
        y1,
        x2,
        y2,
    );
}

} // verus!
