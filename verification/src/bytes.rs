use vstd::prelude::*;

verus! {

use vstd::arithmetic::div_mod::lemma_fundamental_div_mod;
use vstd::arithmetic::div_mod::lemma_fundamental_div_mod_converse;

/// The value of a big-endian byte string, read as an unsigned integer.
pub open spec fn be_val(s: Seq<u8>) -> nat
    decreases s.len(),
{
    if s.len() == 0 {
        0
    } else {
        be_val(s.drop_last()) * 256 + s.last() as nat
    }
}

/// 256 raised to the power n: the number of values a byte string of length n can take.
pub open spec fn pow256(n: nat) -> nat
    decreases n,
{
    if n == 0 {
        1
    } else {
        256 * pow256((n - 1) as nat)
    }
}

/// The canonical big-endian encoding of n in exactly `len` bytes.
pub open spec fn be_bytes(n: nat, len: nat) -> Seq<u8>
    decreases len,
{
    if len == 0 {
        Seq::empty()
    } else {
        be_bytes(n / 256, (len - 1) as nat).push((n % 256) as u8)
    }
}

/// The shape of a shortest big-endian encoding: at least one byte, and no
/// leading zero byte unless the string is the single byte 0.
pub open spec fn minimal_be(s: Seq<u8>) -> bool {
    s.len() >= 1 && (s.len() > 1 ==> s[0] != 0)
}

pub proof fn lemma_be_val_bound(s: Seq<u8>)
    ensures
        be_val(s) < pow256(s.len()),
    decreases s.len(),
{
    if s.len() > 0 {
        lemma_be_val_bound(s.drop_last());
    }
}

pub proof fn lemma_be_val_lower(s: Seq<u8>)
    requires
        s.len() >= 1,
        s[0] >= 1,
    ensures
        be_val(s) >= pow256((s.len() - 1) as nat),
    decreases s.len(),
{
    if s.len() == 1 {
        assert(s.last() == s[0]);
    } else {
        lemma_be_val_lower(s.drop_last());
    }
}

pub proof fn lemma_be_val_zeros(s: Seq<u8>)
    requires
        forall|i: int| 0 <= i < s.len() ==> s[i] == 0,
    ensures
        be_val(s) == 0,
    decreases s.len(),
{
    if s.len() > 0 {
        lemma_be_val_zeros(s.drop_last());
    }
}

/// Prepending zero bytes does not change the value.
pub proof fn lemma_be_val_zero_prefix(z: Seq<u8>, s: Seq<u8>)
    requires
        forall|i: int| 0 <= i < z.len() ==> z[i] == 0,
    ensures
        be_val(z + s) == be_val(s),
    decreases s.len(),
{
    if s.len() == 0 {
        assert(z + s =~= z);
        lemma_be_val_zeros(z);
    } else {
        assert((z + s).drop_last() =~= z + s.drop_last());
        assert((z + s).last() == s.last());
        lemma_be_val_zero_prefix(z, s.drop_last());
    }
}

pub proof fn lemma_be_bytes_val(n: nat, len: nat)
    requires
        n < pow256(len),
    ensures
        be_bytes(n, len).len() == len,
        be_val(be_bytes(n, len)) == n,
    decreases len,
{
    if len > 0 {
        lemma_fundamental_div_mod(n as int, 256);
        assert(n / 256 < pow256((len - 1) as nat)) by {
            if n / 256 >= pow256((len - 1) as nat) {
                assert(n as int == 256 * (n as int / 256) + (n as int % 256));
            }
        }
        lemma_be_bytes_val(n / 256, (len - 1) as nat);
        let b = be_bytes(n, len);
        assert(b.drop_last() =~= be_bytes(n / 256, (len - 1) as nat));
        assert(b.last() == (n % 256) as u8);
    }
}

/// Two byte strings of equal length with equal values are equal.
pub proof fn lemma_be_val_injective(s1: Seq<u8>, s2: Seq<u8>)
    requires
        s1.len() == s2.len(),
        be_val(s1) == be_val(s2),
    ensures
        s1 =~= s2,
    decreases s1.len(),
{
    if s1.len() > 0 {
        lemma_fundamental_div_mod_converse(
            be_val(s1) as int,
            256,
            be_val(s1.drop_last()) as int,
            s1.last() as int,
        );
        lemma_fundamental_div_mod_converse(
            be_val(s2) as int,
            256,
            be_val(s2.drop_last()) as int,
            s2.last() as int,
        );
        lemma_be_val_injective(s1.drop_last(), s2.drop_last());
        assert forall|i: int| 0 <= i < s1.len() implies s1[i] == s2[i] by {
            if i < s1.len() - 1 {
                assert(s1[i] == s1.drop_last()[i]);
                assert(s2[i] == s2.drop_last()[i]);
            } else {
                assert(s1[i] == s1.last());
                assert(s2[i] == s2.last());
            }
        }
    }
}

/// A byte string is the canonical encoding of its own value at its own length.
pub proof fn lemma_be_bytes_of_val(s: Seq<u8>)
    ensures
        s =~= be_bytes(be_val(s), s.len()),
    decreases s.len(),
{
    lemma_be_val_bound(s);
    lemma_be_bytes_val(be_val(s), s.len());
    lemma_be_val_injective(s, be_bytes(be_val(s), s.len()));
}

/// Left-pad a byte string with zeros to exactly 32 bytes, keeping its value.
pub fn pad32(v: &Vec<u8>) -> (r: Vec<u8>)
    requires
        v@.len() <= 32,
    ensures
        r@.len() == 32,
        be_val(r@) == be_val(v@),
        r@ =~= be_bytes(be_val(v@), 32),
{
    let zeros: usize = 32 - v.len();
    let mut r: Vec<u8> = Vec::new();
    let mut i: usize = 0;
    while i < zeros
        invariant
            i <= zeros,
            zeros == 32 - v@.len(),
            r@.len() == i,
            forall|j: int| 0 <= j < i ==> r@[j] == 0,
        decreases zeros - i,
    {
        r.push(0);
        i += 1;
    }
    let mut j: usize = 0;
    while j < v.len()
        invariant
            j <= v@.len(),
            zeros == 32 - v@.len(),
            r@.len() == zeros + j,
            forall|k: int| 0 <= k < zeros ==> r@[k] == 0,
            forall|k: int| 0 <= k < j ==> r@[zeros + k] == v@[k],
        decreases v@.len() - j,
    {
        r.push(v[j]);
        j += 1;
    }
    proof {
        let z = Seq::<u8>::new(zeros as nat, |k: int| 0u8);
        assert(r@ =~= z + v@);
        lemma_be_val_zero_prefix(z, v@);
        lemma_be_val_bound(r@);
        lemma_be_bytes_of_val(r@);
    }
    r
}

pub proof fn lemma_be_val_push(s: Seq<u8>, b: u8)
    ensures
        be_val(s.push(b)) == be_val(s) * 256 + b,
{
    assert(s.push(b).drop_last() =~= s);
    assert(s.push(b).last() == b);
}

/// Append one byte, which multiplies the value by 256 and adds the byte.
pub fn push_byte(v: &mut Vec<u8>, b: u8)
    ensures
        final(v)@ == old(v)@.push(b),
        final(v)@.len() == old(v)@.len() + 1,
        be_val(final(v)@) == be_val(old(v)@) * 256 + b,
{
    v.push(b);
    proof {
        lemma_be_val_push(old(v)@, b);
    }
}

/// Copy the byte range [from, to) of a byte string.
pub fn copy_range(v: &Vec<u8>, from: usize, to: usize) -> (r: Vec<u8>)
    requires
        from <= to,
        to <= v@.len(),
    ensures
        r@ =~= v@.subrange(from as int, to as int),
{
    let mut r: Vec<u8> = Vec::new();
    let mut i: usize = from;
    while i < to
        invariant
            from <= i <= to,
            to <= v@.len(),
            r@.len() == i - from,
            forall|k: int| 0 <= k < i - from ==> r@[k] == v@[from + k],
        decreases to - i,
    {
        r.push(v[i]);
        i += 1;
    }
    r
}

} // verus!
