use vstd::prelude::*;

verus! {

use vstd::arithmetic::power::pow;
use vstd::arithmetic::power::lemma1_pow;
use vstd::arithmetic::power2::pow2;
use vstd::arithmetic::power2::lemma_pow2_adds;
use vstd::arithmetic::power2::lemma2_to64;
use vstd::arithmetic::power2::lemma2_to64_rest;
use crate::bytes::be_val;
use crate::bytes::be_bytes;
use crate::bytes::minimal_be;
use crate::bytes::pow256;
use crate::bytes::pad32;
use crate::bytes::copy_range;
use crate::bytes::push_byte;
use crate::bytes::lemma_be_val_lower;
use crate::bytes::lemma_be_bytes_val;
use crate::bytes::lemma_be_bytes_of_val;
use crate::bigint::big_lt;
use crate::bigint::big_mod;
use crate::bigint::big_sub;
use crate::bigint::big_modpow;
use crate::bigint::big_eq;

/// The field prime p = 2^251 + 17 * 2^192 + 1 (252 bits).
pub open spec fn field_prime() -> nat {
    pow2(251) + 17 * pow2(192) + 1
}

/// The curve coefficient alpha of y^2 = x^3 + alpha * x + beta.
pub open spec fn curve_alpha() -> nat {
    1
}

/// The curve coefficient beta of y^2 = x^3 + alpha * x + beta, the fixed
/// 252-bit constant
/// 3141592653589793238462643383279502884197169399375105820974944592307816406665.
pub open spec fn curve_beta() -> nat {
    0x6f21413efbe40de150e596d72f7a8c5609ad26c15c915c1f4cdfcb99cee9e89nat
}

/// The Euler-criterion exponent (p - 1) / 2.
pub open spec fn euler_exp() -> nat {
    ((field_prime() - 1) / 2) as nat
}

/// The numeric values of the field constants, written out.
pub proof fn lemma_field_constants()
    ensures
        field_prime() == 0x800000000000011000000000000000000000000000000000000000000000001nat,
        euler_exp() == 0x400000000000008800000000000000000000000000000000000000000000000nat,
        pow2(251) == 0x800000000000000000000000000000000000000000000000000000000000000nat,
        pow2(192) == 0x1000000000000000000000000000000000000000000000000nat,
{
    lemma2_to64();
    lemma2_to64_rest();
    lemma_pow2_adds(64, 64);
    lemma_pow2_adds(128, 64);
    lemma_pow2_adds(192, 59);
    assert(field_prime() - 1 == 2 * 0x400000000000008800000000000000000000000000000000000000000000000int);
    vstd::arithmetic::div_mod::lemma_div_multiples_vanish(
        0x400000000000008800000000000000000000000000000000000000000000000int,
        2,
    );
}

/// 256^n is 2^(8n).
pub proof fn lemma_pow256_is_pow2(n: nat)
    ensures
        pow256(n) == pow2(8 * n),
    decreases n,
{
    if n == 0 {
        lemma2_to64();
    } else {
        lemma_pow256_is_pow2((n - 1) as nat);
        lemma_pow2_adds(8, 8 * (n - 1) as nat);
        lemma2_to64();
        assert(8 * n == 8 + 8 * (n - 1) as nat);
    }
}

pub proof fn lemma_field_prime_bounds()
    ensures
        1 < field_prime(),
        field_prime() < pow256(32),
{
    lemma_field_constants();
    lemma_pow256_is_pow2(32);
    lemma_pow2_adds(251, 5);
    lemma2_to64();
    assert(pow2(256) == pow2(251) * 0x20);
    vstd::arithmetic::power2::lemma_pow2_pos(251);
    vstd::arithmetic::power2::lemma_pow2_pos(192);
}

/// The 32-byte big-endian encoding of the field prime.
pub fn p_be() -> (r: Vec<u8>)
    ensures
        r@.len() == 32,
        be_val(r@) == field_prime(),
{
    let mut v: Vec<u8> = Vec::new();
    push_byte(&mut v, 8);
    push_byte(&mut v, 0);
    push_byte(&mut v, 0);
    push_byte(&mut v, 0);
    push_byte(&mut v, 0);
    push_byte(&mut v, 0);
    push_byte(&mut v, 0);
    push_byte(&mut v, 17);
    push_byte(&mut v, 0);
    push_byte(&mut v, 0);
    push_byte(&mut v, 0);
    push_byte(&mut v, 0);
    push_byte(&mut v, 0);
    push_byte(&mut v, 0);
    push_byte(&mut v, 0);
    push_byte(&mut v, 0);
    push_byte(&mut v, 0);
    push_byte(&mut v, 0);
    push_byte(&mut v, 0);
    push_byte(&mut v, 0);
    push_byte(&mut v, 0);
    push_byte(&mut v, 0);
    push_byte(&mut v, 0);
    push_byte(&mut v, 0);
    push_byte(&mut v, 0);
    push_byte(&mut v, 0);
    push_byte(&mut v, 0);
    push_byte(&mut v, 0);
    push_byte(&mut v, 0);
    push_byte(&mut v, 0);
    push_byte(&mut v, 0);
    push_byte(&mut v, 1);
    proof {
        lemma_field_constants();
    }
    v
}

/// The 32-byte big-endian encoding of beta.
pub fn beta_be() -> (r: Vec<u8>)
    ensures
        r@.len() == 32,
        be_val(r@) == curve_beta(),
{
    let mut v: Vec<u8> = Vec::new();
    push_byte(&mut v, 6);
    push_byte(&mut v, 242);
    push_byte(&mut v, 20);
    push_byte(&mut v, 19);
    push_byte(&mut v, 239);
    push_byte(&mut v, 190);
    push_byte(&mut v, 64);
    push_byte(&mut v, 222);
    push_byte(&mut v, 21);
    push_byte(&mut v, 14);
    push_byte(&mut v, 89);
    push_byte(&mut v, 109);
    push_byte(&mut v, 114);
    push_byte(&mut v, 247);
    push_byte(&mut v, 168);
    push_byte(&mut v, 197);
    push_byte(&mut v, 96);
    push_byte(&mut v, 154);
    push_byte(&mut v, 210);
    push_byte(&mut v, 108);
    push_byte(&mut v, 21);
    push_byte(&mut v, 201);
    push_byte(&mut v, 21);
    push_byte(&mut v, 193);
    push_byte(&mut v, 244);
    push_byte(&mut v, 205);
    push_byte(&mut v, 252);
    push_byte(&mut v, 185);
    push_byte(&mut v, 156);
    push_byte(&mut v, 238);
    push_byte(&mut v, 158);
    push_byte(&mut v, 137);
    v
}

/// The 32-byte big-endian encoding of (p - 1) / 2.
pub fn euler_exp_be() -> (r: Vec<u8>)
    ensures
        r@.len() == 32,
        be_val(r@) == euler_exp(),
{
    let mut v: Vec<u8> = Vec::new();
    push_byte(&mut v, 4);
    push_byte(&mut v, 0);
    push_byte(&mut v, 0);
    push_byte(&mut v, 0);
    push_byte(&mut v, 0);
    push_byte(&mut v, 0);
    push_byte(&mut v, 0);
    push_byte(&mut v, 8);
    push_byte(&mut v, 128);
    push_byte(&mut v, 0);
    push_byte(&mut v, 0);
    push_byte(&mut v, 0);
    push_byte(&mut v, 0);
    push_byte(&mut v, 0);
    push_byte(&mut v, 0);
    push_byte(&mut v, 0);
    push_byte(&mut v, 0);
    push_byte(&mut v, 0);
    push_byte(&mut v, 0);
    push_byte(&mut v, 0);
    push_byte(&mut v, 0);
    push_byte(&mut v, 0);
    push_byte(&mut v, 0);
    push_byte(&mut v, 0);
    push_byte(&mut v, 0);
    push_byte(&mut v, 0);
    push_byte(&mut v, 0);
    push_byte(&mut v, 0);
    push_byte(&mut v, 0);
    push_byte(&mut v, 0);
    push_byte(&mut v, 0);
    push_byte(&mut v, 0);
    proof {
        lemma_field_constants();
    }
    v
}

/// A field element: an integer in [0, p), stored as its 32-byte big-endian
/// encoding, left-padded with zeros.
#[derive(Debug, Clone, PartialEq, Eq)]
pub struct Felt {
    bytes: Vec<u8>,
}

impl View for Felt {
    type V = nat;

    closed spec fn view(&self) -> nat {
        be_val(self.bytes@)
    }
}

/// A shortest encoding of a value below p fits in 32 bytes.
pub proof fn lemma_minimal_fits(s: Seq<u8>)
    requires
        minimal_be(s),
        be_val(s) < field_prime(),
    ensures
        s.len() <= 32,
{
    lemma_field_prime_bounds();
    if s.len() > 32 {
        lemma_be_val_lower(s);
        lemma_pow256_increases(32, (s.len() - 1) as nat);
    }
}

pub proof fn lemma_pow256_increases(a: nat, b: nat)
    requires
        a <= b,
    ensures
        pow256(a) <= pow256(b),
    decreases b,
{
    if a < b {
        lemma_pow256_increases(a, (b - 1) as nat);
        assert(pow256(b) == 256 * pow256((b - 1) as nat));
    }
}

impl Felt {
    /// Whether the stored bytes are a well-formed field element: a reduced
    /// value in a 32-byte encoding.
    pub open spec fn wf(&self) -> bool {
        self@ < field_prime() && self.bytes_ok()
    }

    /// Whether the stored encoding has exactly 32 bytes.
    pub closed spec fn bytes_ok(&self) -> bool {
        self.bytes@.len() == 32
    }

    /// Make a field element from a big-endian byte string of at most 32
    /// bytes; rejects values that are not reduced modulo p.
    pub fn from_be_bytes(v: Vec<u8>) -> (r: Option<Felt>)
        ensures
            match r {
                Some(f) => f.wf() && f@ == be_val(v@) && v@.len() <= 32 && be_val(v@)
                    < field_prime(),
                None => v@.len() > 32 || be_val(v@) >= field_prime(),
            },
    {
        if v.len() > 32 {
            return None;
        }
        let p = p_be();
        if big_lt(&v, &p) {
            Some(Felt { bytes: pad32(&v) })
        } else {
            None
        }
    }

    /// Make a field element from a shortest encoding known to be reduced.
    pub(crate) fn from_reduced(v: &Vec<u8>) -> (r: Felt)
        requires
            minimal_be(v@),
            be_val(v@) < field_prime(),
        ensures
            r.wf(),
            r@ == be_val(v@),
    {
        proof {
            lemma_minimal_fits(v@);
        }
        Felt { bytes: pad32(v) }
    }

    /// An owned copy of this field element.
    pub fn dup(&self) -> (r: Felt)
        ensures
            r@ == self@,
            self.wf() ==> r.wf(),
    {
        let len = self.bytes.len();
        let r = Felt { bytes: copy_range(&self.bytes, 0, len) };
        proof {
            assert(r.bytes@ =~= self.bytes@);
        }
        r
    }
}

/// The 32-byte big-endian encoding of a field element, left-padded with
/// zeros. Values below 2^248 keep a zero high-order byte.
pub fn to_padded_bytes(n: &Felt) -> (r: Vec<u8>)
    requires
        n.wf(),
    ensures
        r@.len() == 32,
        be_val(r@) == n@,
        r@ =~= be_bytes(n@, 32),
        n@ < pow2(248) ==> r@[0] == 0,
{
    let r = copy_range(&n.bytes, 0, n.bytes.len());
    proof {
        assert(r@ =~= n.bytes@);
        lemma_be_bytes_of_val(r@);
        if n@ < pow2(248) {
            lemma_pow256_is_pow2(31);
            lemma_be_bytes_leading_zero(n@, 32);
        }
    }
    r
}

/// The leading byte of a fixed-width encoding is zero when the value fits in
/// one byte less.
pub proof fn lemma_be_bytes_leading_zero(n: nat, len: nat)
    requires
        len >= 1,
        n < pow256((len - 1) as nat),
    ensures
        be_bytes(n, len)[0] == 0,
    decreases len,
{
    if len == 1 {
        assert(be_bytes(n, 1) =~= be_bytes(n / 256, 0).push((n % 256) as u8));
    } else {
        vstd::arithmetic::div_mod::lemma_fundamental_div_mod(n as int, 256);
        assert(n / 256 < pow256((len - 2) as nat)) by {
            if n / 256 >= pow256((len - 2) as nat) {
                assert(n as int == 256 * (n as int / 256) + (n as int % 256));
                assert(pow256((len - 1) as nat) == 256 * pow256((len - 2) as nat));
            }
        }
        lemma_be_bytes_leading_zero(n / 256, (len - 1) as nat);
        lemma_be_bytes_val(n / 256, (len - 1) as nat);
        assert(be_bytes(n, len)[0] == be_bytes(n / 256, (len - 1) as nat)[0]);
    }
}

/// Whether a passes the quadratic-residue test this library runs: a shortcut
/// for a < 2, else Euler's criterion a^((p-1)/2) ≡ 1 (mod p). The input is
/// not reduced modulo p first.
pub open spec fn spec_is_quad_residue(a: nat) -> bool {
    a < 2 || pow(a as int, euler_exp()) % (field_prime() as int) == 1
}

/// Quadratic-residue test over the fixed modulus p.
pub fn is_quad_residue(a: &Vec<u8>) -> (r: bool)
    ensures
        r == spec_is_quad_residue(be_val(a@)),
{
    let two = byte_vec1(2);
    if big_lt(a, &two) {
        true
    } else {
        let e = euler_exp_be();
        let p = p_be();
        proof {
            lemma_field_prime_bounds();
        }
        let x = big_modpow(a, &e, &p);
        let one = byte_vec1(1);
        big_eq(&x, &one)
    }
}

/// Law: on reduced inputs the test accepts exactly 0 and the values passing
/// Euler's criterion.
pub proof fn lemma_quad_residue_criterion(a: nat)
    requires
        a < field_prime(),
    ensures
        spec_is_quad_residue(a) <==> (a == 0 || pow(a as int, euler_exp()) % (
        field_prime() as int) == 1),
{
    lemma_field_prime_bounds();
    if a == 1 {
        lemma1_pow(euler_exp());
        vstd::arithmetic::div_mod::lemma_small_mod(1nat, field_prime());
        assert(pow(1, euler_exp()) % (field_prime() as int) == 1);
    }
}

/// A one-byte string holding the given byte.
pub fn byte_vec1(b: u8) -> (r: Vec<u8>)
    ensures
        r@ =~= seq![b],
        be_val(r@) == b,
{
    let mut r: Vec<u8> = Vec::new();
    push_byte(&mut r, b);
    r
}

/// Reduce the value of a byte string modulo p.
pub fn felt_reduce(v: &Vec<u8>) -> (r: Felt)
    ensures
        r.wf(),
        r@ == be_val(v@) % field_prime(),
{
    proof {
        lemma_field_prime_bounds();
    }
    let p = p_be();
    let m = big_mod(v, &p);
    Felt::from_reduced(&m)
}

/// The additive inverse modulo p: (p - y) mod p, which fixes 0.
pub fn felt_neg(y: &Felt) -> (r: Felt)
    requires
        y.wf(),
    ensures
        r.wf(),
        r@ == (field_prime() - y@) % (field_prime() as int),
{
    let p = p_be();
    let yb = to_padded_bytes(y);
    let d = big_sub(&p, &yb);
    let p2 = p_be();
    let m = big_mod(&d, &p2);
    proof {
        lemma_field_prime_bounds();
    }
    Felt::from_reduced(&m)
}

} // verus!
