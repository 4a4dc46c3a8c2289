use vstd::prelude::*;

verus! {

use vstd::arithmetic::power::pow;
use vstd::arithmetic::power::lemma_pow1;
use vstd::arithmetic::power::lemma_pow_adds;
use vstd::arithmetic::power2::pow2;
use vstd::arithmetic::power2::lemma2_to64;
use vstd::arithmetic::power2::lemma2_to64_rest;
use vstd::arithmetic::power2::lemma_pow2_unfold;
use vstd::arithmetic::div_mod::lemma_mul_mod_noop_general;
use vstd::arithmetic::div_mod::lemma_mod_multiples_vanish;
use vstd::arithmetic::div_mod::lemma_small_mod;
use crate::bytes::be_val;
use crate::bytes::minimal_be;
use crate::bytes::push_byte;
use crate::bytes::copy_range;
use crate::field::field_prime;
use crate::field::lemma_field_prime_bounds;
use crate::field::Felt;
use crate::field::to_padded_bytes;
use crate::field::byte_vec1;
use crate::field::p_be;
use crate::bigint::big_mul;
use crate::bigint::big_mod;
use crate::bigint::big_sub;
use crate::bigint::big_lt;
use crate::bigint::big_eq;
use crate::bigint::big_modpow;

/// Multiplication modulo the field prime.
pub open spec fn mul_p(x: nat, y: nat) -> nat {
    (x * y) % field_prime()
}

/// Exponentiation modulo the field prime.
pub open spec fn pow_p(x: nat, e: nat) -> nat {
    (pow(x as int, e) % (field_prime() as int)) as nat
}

/// The odd part s of p - 1 = 2^192 * s.
pub open spec fn ts_odd_exp() -> nat {
    pow2(59) + 17
}

/// (s + 1) / 2, the exponent for the initial root candidate.
pub open spec fn ts_half_exp() -> nat {
    pow2(58) + 9
}

/// The smallest index j in [lo, m) with t^(2^j) ≡ 1 (mod p), or m if there
/// is none.
pub open spec fn least_pow_index(t: nat, lo: nat, m: nat) -> nat
    decreases m - lo,
{
    if lo >= m {
        m
    } else if pow_p(t, pow2(lo)) == 1 {
        lo
    } else {
        least_pow_index(t, lo + 1, m)
    }
}

/// The descent of the Tonelli–Shanks loop from state (m, c, t, r): done when
/// t reaches 1, stuck (None) when no power of t below the current order is 1.
pub open spec fn ts_loop(m: nat, c: nat, t: nat, r: nat) -> Option<nat>
    decreases m,
{
    if t == 1 {
        Some(r)
    } else {
        let i = least_pow_index(t, 1, m);
        if i >= m {
            None
        } else {
            let b = pow_p(c, pow2((m - i - 1) as nat));
            ts_loop(i, mul_p(b, b), mul_p(t, mul_p(b, b)), mul_p(r, b))
        }
    }
}

/// The square root this library computes: Tonelli–Shanks over p with
/// 2-adicity 192, odd part s = 2^59 + 17 and witness 3, then the smaller of
/// the two candidate roots r and p - r.
pub open spec fn spec_sqrt(a: nat) -> Option<nat> {
    if a == 0 {
        Some(0)
    } else {
        spec_sqrt_nonzero(a)
    }
}

/// The root search for a nonzero input.
pub open spec fn spec_sqrt_nonzero(a: nat) -> Option<nat> {
    match ts_loop(
        192,
        pow_p(3, ts_odd_exp()),
        pow_p(a, ts_odd_exp()),
        pow_p(a, ts_half_exp()),
    ) {
        Some(r) => {
            let other = (field_prime() - r) as nat;
            if r < other {
                Some(r)
            } else {
                Some(other)
            }
        },
        None => None,
    }
}

/// The 8-byte big-endian encoding of s = 2^59 + 17.
fn ts_odd_exp_be() -> (r: Vec<u8>)
    ensures
        be_val(r@) == ts_odd_exp(),
{
    let mut v: Vec<u8> = Vec::new();
    push_byte(&mut v, 8);
    push_byte(&mut v, 0);
    push_byte(&mut v, 0);
    push_byte(&mut v, 0);
    push_byte(&mut v, 0);
    push_byte(&mut v, 0);
    push_byte(&mut v, 0);
    push_byte(&mut v, 17);
    proof {
        lemma2_to64_rest();
    }
    v
}

/// The 8-byte big-endian encoding of (s + 1) / 2 = 2^58 + 9.
fn ts_half_exp_be() -> (r: Vec<u8>)
    ensures
        be_val(r@) == ts_half_exp(),
{
    let mut v: Vec<u8> = Vec::new();
    push_byte(&mut v, 4);
    push_byte(&mut v, 0);
    push_byte(&mut v, 0);
    push_byte(&mut v, 0);
    push_byte(&mut v, 0);
    push_byte(&mut v, 0);
    push_byte(&mut v, 0);
    push_byte(&mut v, 9);
    proof {
        lemma2_to64_rest();
    }
    v
}

/// Multiply two byte-string values and reduce modulo the value of m.
pub fn mul_mod(x: &Vec<u8>, y: &Vec<u8>, m: &Vec<u8>) -> (r: Vec<u8>)
    requires
        be_val(m@) > 0,
    ensures
        be_val(r@) == (be_val(x@) * be_val(y@)) % be_val(m@),
        minimal_be(r@),
{
    let prod = big_mul(x, y);
    big_mod(&prod, m)
}

/// Squaring a reduced power gives the power at twice the exponent.
proof fn lemma_pow_p_square(x: nat, e: nat)
    ensures
        (pow_p(x, e) * pow_p(x, e)) % field_prime() == pow_p(x, e + e),
{
    lemma_field_prime_bounds();
    let p = field_prime() as int;
    lemma_pow_adds(x as int, e, e);
    lemma_mul_mod_noop_general(pow(x as int, e), pow(x as int, e), p);
}

/// The ring identity behind flipping a root: (p - r)^2 ≡ r^2 (mod p).
pub proof fn lemma_neg_square(r: nat)
    requires
        r < field_prime(),
    ensures
        (((field_prime() - r) as nat) * ((field_prime() - r) as nat)) % field_prime() == (r * r)
            % field_prime(),
{
    lemma_field_prime_bounds();
    let p = field_prime() as int;
    let ri = r as int;
    assert((p - ri) * (p - ri) == p * (p - 2 * ri) + ri * ri) by (nonlinear_arith);
    lemma_mod_multiples_vanish(p - 2 * ri, ri * ri, p);
}

/// One Tonelli–Shanks update keeps r^2 ≡ a * t (mod p).
proof fn lemma_root_step(a: nat, t: nat, r: nat, b: nat)
    requires
        (r * r) % field_prime() == (a * t) % field_prime(),
    ensures
        (mul_p(r, b) * mul_p(r, b)) % field_prime() == (a * mul_p(t, mul_p(b, b)))
            % field_prime(),
{
    lemma_field_prime_bounds();
    let p = field_prime() as int;
    let (ai, ti, ri, bi) = (a as int, t as int, r as int, b as int);
    lemma_mul_mod_noop_general(ri * bi, ri * bi, p);
    assert((ri * bi) * (ri * bi) == (ri * ri) * (bi * bi)) by (nonlinear_arith);
    lemma_mul_mod_noop_general(ri * ri, bi * bi, p);
    lemma_mul_mod_noop_general(ai * ti, bi * bi, p);
    assert((ai * ti) * (bi * bi) == ai * (ti * (bi * bi))) by (nonlinear_arith);
    lemma_mul_mod_noop_general(bi * bi, ti, p);
    assert((mul_p(t, mul_p(b, b))) as int == (ti * ((bi * bi) % p)) % p);
    assert((ti * ((bi * bi) % p)) % p == (ti * (bi * bi)) % p);
    lemma_mul_mod_noop_general(ti * (bi * bi), ai, p);
    assert((ai * (((ti * (bi * bi))) % p)) % p == (ai * (ti * (bi * bi))) % p) by {
        lemma_mul_mod_noop_general(ti * (bi * bi), ai, p);
        assert(ai * (((ti * (bi * bi))) % p) == (((ti * (bi * bi))) % p) * ai) by (nonlinear_arith);
        assert(ai * (ti * (bi * bi)) == (ti * (bi * bi)) * ai) by (nonlinear_arith);
    }
}

/// The initial Tonelli–Shanks state satisfies r^2 ≡ a * t (mod p).
proof fn lemma_ts_initial(a: nat)
    requires
        a < field_prime(),
    ensures
        (pow_p(a, ts_half_exp()) * pow_p(a, ts_half_exp())) % field_prime() == (a * pow_p(
            a,
            ts_odd_exp(),
        )) % field_prime(),
{
    lemma_field_prime_bounds();
    let p = field_prime() as int;
    let ai = a as int;
    lemma_pow_p_square(a, ts_half_exp());
    assert(ts_half_exp() + ts_half_exp() == ts_odd_exp() + 1) by {
        lemma_pow2_unfold(59);
    }
    lemma_pow_adds(ai, ts_odd_exp(), 1);
    lemma_pow1(ai);
    assert(pow(ai, ts_odd_exp() + 1) == pow(ai, ts_odd_exp()) * ai);
    lemma_mul_mod_noop_general(pow(ai, ts_odd_exp()), ai, p);
    assert((pow_p(a, ts_odd_exp()) * a) % field_prime() == (a * pow_p(a, ts_odd_exp()))
        % field_prime()) by (nonlinear_arith);
    assert((pow_p(a, ts_odd_exp()) as int * ai) % p == (pow(ai, ts_odd_exp()) * ai) % p);
}

/// Characterize `least_pow_index` when a witness index is known.
proof fn lemma_least_pow_index_is(t: nat, lo: nat, m: nat, i: nat)
    requires
        lo <= i < m,
        forall|j: nat| lo <= j < i ==> pow_p(t, pow2(j)) != 1,
        pow_p(t, pow2(i)) == 1,
    ensures
        least_pow_index(t, lo, m) == i,
    decreases i - lo,
{
    if lo < i {
        assert(pow_p(t, pow2(lo)) != 1);
        lemma_least_pow_index_is(t, lo + 1, m, i);
    }
}

/// Characterize `least_pow_index` when no index works.
proof fn lemma_least_pow_index_none(t: nat, lo: nat, m: nat)
    requires
        lo <= m,
        forall|j: nat| lo <= j < m ==> pow_p(t, pow2(j)) != 1,
    ensures
        least_pow_index(t, lo, m) == m,
    decreases m - lo,
{
    if lo < m {
        assert(pow_p(t, pow2(lo)) != 1);
        lemma_least_pow_index_none(t, lo + 1, m);
    }
}

/// Whenever the Tonelli–Shanks descent finishes and the invariant
/// r^2 ≡ a * t (mod p) holds at its start, the answer squares to a.
proof fn lemma_ts_loop_root(m: nat, c: nat, t: nat, r: nat, a: nat, res: nat)
    requires
        ts_loop(m, c, t, r) == Some(res),
        a < field_prime(),
        r < field_prime(),
        (r * r) % field_prime() == (a * t) % field_prime(),
    ensures
        res < field_prime(),
        (res * res) % field_prime() == a,
    decreases m,
{
    lemma_field_prime_bounds();
    if t == 1 {
        assert(res == r);
        lemma_small_mod(a, field_prime());
        assert((a * 1) % field_prime() == a % field_prime());
    } else {
        let i = least_pow_index(t, 1, m);
        assert(i < m);
        let b = pow_p(c, pow2((m - i - 1) as nat));
        lemma_root_step(a, t, r, b);
        lemma_ts_loop_root(i, mul_p(b, b), mul_p(t, mul_p(b, b)), mul_p(r, b), a, res);
    }
}

/// Law: when the square-root search succeeds on a reduced input, its answer
/// squares back to the input, and is itself reduced.
pub proof fn lemma_spec_sqrt_root(a: nat, b: nat)
    requires
        a < field_prime(),
        spec_sqrt(a) == Some(b),
    ensures
        b < field_prime(),
        (b * b) % field_prime() == a,
{
    lemma_field_prime_bounds();
    lemma_ts_initial(a);
    if a == 0 {
        lemma_small_mod(0, field_prime());
        return;
    }
    let ts = ts_loop(192, pow_p(3, ts_odd_exp()), pow_p(a, ts_odd_exp()), pow_p(a, ts_half_exp()));
    match ts {
        Some(r) => {
            lemma_ts_loop_root(
                192,
                pow_p(3, ts_odd_exp()),
                pow_p(a, ts_odd_exp()),
                pow_p(a, ts_half_exp()),
                a,
                r,
            );
            lemma_neg_square(r);
        },
        None => {
            assert(false);
        },
    }
}

/// A deterministic square root modulo p: 0 for 0, else the Tonelli–Shanks
/// result reduced to the smaller of the two candidate roots. Returns None
/// only when the descent finds no root, which does not happen for a
/// quadratic residue.
pub fn sqrt(a: &Felt) -> (res: Option<Felt>)
    requires
        a.wf(),
    ensures
        match res {
            Some(b) => b.wf() && spec_sqrt(a@) == Some(b@) && (b@ * b@) % field_prime() == a@,
            None => spec_sqrt(a@) == None::<nat>,
        },
{
    proof {
        lemma_field_prime_bounds();
    }
    let p = p_be();
    let ab = to_padded_bytes(a);
    let zero = byte_vec1(0);
    if big_eq(&ab, &zero) {
        proof {
            lemma_small_mod(0, field_prime());
        }
        return Some(Felt::from_reduced(&zero));
    }
    let odd = ts_odd_exp_be();
    let half = ts_half_exp_be();
    let three = byte_vec1(3);
    let one = byte_vec1(1);
    let mut c = big_modpow(&three, &odd, &p);
    let mut t = big_modpow(&ab, &odd, &p);
    let mut r = big_modpow(&ab, &half, &p);
    let mut m: usize = 192;
    proof {
        lemma_ts_initial(a@);
    }
    loop
        invariant
            a.wf(),
            a@ != 0,
            be_val(p@) == field_prime(),
            be_val(one@) == 1,
            1 < field_prime(),
            m <= 192,
            be_val(c@) < field_prime(),
            be_val(t@) < field_prime(),
            be_val(r@) < field_prime(),
            minimal_be(r@),
            (be_val(r@) * be_val(r@)) % field_prime() == (a@ * be_val(t@)) % field_prime(),
            ts_loop(m as nat, be_val(c@), be_val(t@), be_val(r@)) == ts_loop(
                192,
                pow_p(3, ts_odd_exp()),
                pow_p(a@, ts_odd_exp()),
                pow_p(a@, ts_half_exp()),
            ),
        decreases m,
    {
        if big_eq(&t, &one) {
            let pr = big_sub(&p, &r);
            proof {
                lemma_ts_loop_root(
                    m as nat,
                    be_val(c@),
                    be_val(t@),
                    be_val(r@),
                    a@,
                    be_val(r@),
                );
                lemma_neg_square(be_val(r@));
            }
            if big_lt(&r, &pr) {
                return Some(Felt::from_reduced(&r));
            } else {
                return Some(Felt::from_reduced(&pr));
            }
        }
        if m <= 1 {
            proof {
                assert(least_pow_index(be_val(t@), 1, m as nat) == m as nat);
            }
            return None;
        }
        // Find the least i in [1, m) with t^(2^i) ≡ 1 (mod p).
        let mut i: usize = 1;
        let mut tt = mul_mod(&t, &t, &p);
        let mut found = false;
        proof {
            lemma_pow1(be_val(t@) as int);
            lemma_small_mod(be_val(t@), field_prime());
            lemma_pow_p_square(be_val(t@), 1);
            lemma2_to64();
            lemma_pow2_unfold(1);
            assert(pow_p(be_val(t@), 1) == be_val(t@));
            assert(be_val(tt@) == pow_p(be_val(t@), pow2(1)));
        }
        while i < m && !found
            invariant
                1 <= i <= m,
                1 < field_prime(),
                be_val(p@) == field_prime(),
                be_val(one@) == 1,
                be_val(t@) < field_prime(),
                be_val(tt@) == pow_p(be_val(t@), pow2(i as nat)),
                forall|j: nat| 1 <= j < i ==> pow_p(be_val(t@), pow2(j)) != 1,
                found ==> pow_p(be_val(t@), pow2(i as nat)) == 1 && i < m,
            decreases m - i + (if found {
                0int
            } else {
                1int
            }),
        {
            if big_eq(&tt, &one) {
                found = true;
            } else {
                tt = mul_mod(&tt, &tt, &p);
                proof {
                    lemma_pow_p_square(be_val(t@), pow2(i as nat));
                    lemma_pow2_unfold((i + 1) as nat);
                }
                i += 1;
            }
        }
        if !found {
            proof {
                lemma_least_pow_index_none(be_val(t@), 1, m as nat);
            }
            return None;
        }
        // b = c^(2^(m - i - 1)) mod p, by repeated squaring.
        let mut b = copy_range(&c, 0, c.len());
        let steps: usize = m - i - 1;
        let mut j: usize = 0;
        proof {
            assert(b@ =~= c@);
            lemma_pow1(be_val(c@) as int);
            lemma_small_mod(be_val(c@), field_prime());
            lemma2_to64();
            assert(be_val(b@) == pow_p(be_val(c@), pow2(0)));
        }
        while j < steps
            invariant
                j <= steps,
                1 < field_prime(),
                be_val(p@) == field_prime(),
                be_val(b@) == pow_p(be_val(c@), pow2(j as nat)),
            decreases steps - j,
        {
            b = mul_mod(&b, &b, &p);
            proof {
                lemma_pow_p_square(be_val(c@), pow2(j as nat));
                lemma_pow2_unfold((j + 1) as nat);
            }
            j += 1;
        }
        let b2 = mul_mod(&b, &b, &p);
        let t_new = mul_mod(&t, &b2, &p);
        let r_new = mul_mod(&r, &b, &p);
        proof {
            let tv = be_val(t@);
            let rv = be_val(r@);
            let cv = be_val(c@);
            let bv = be_val(b@);
            lemma_least_pow_index_is(tv, 1, m as nat, i as nat);
            assert(bv == pow_p(cv, pow2((m - i - 1) as nat)));
            assert(be_val(b2@) == mul_p(bv, bv));
            assert(be_val(t_new@) == mul_p(tv, mul_p(bv, bv)));
            assert(be_val(r_new@) == mul_p(rv, bv));
            assert(ts_loop(m as nat, cv, tv, rv) == ts_loop(
                i as nat,
                mul_p(bv, bv),
                mul_p(tv, mul_p(bv, bv)),
                mul_p(rv, bv),
            ));
            lemma_root_step(a@, tv, rv, bv);
        }
        t = t_new;
        r = r_new;
        c = b2;
        m = i;
    }
}

} // verus!
