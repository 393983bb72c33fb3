//! Conversions between byte strings and integers (FIPS 205, section 4.4):
//! `toInt`, `toByte` and `base_2^b`.

use vstd::prelude::*;
use vstd::arithmetic::power2::{pow2, lemma_pow2_adds, lemma_pow2_pos, lemma_pow2_strictly_increases, lemma2_to64};
use vstd::arithmetic::div_mod::{lemma_fundamental_div_mod, lemma_fundamental_div_mod_converse, lemma_mod_breakdown, lemma_mod_mod, lemma_div_multiples_vanish_fancy, lemma_mod_bound};
use vstd::bits::lemma_u32_shr_is_div;

verus! {

/// The value of a byte string read as a big-endian unsigned integer.
pub open spec fn be_value(s: Seq<u8>) -> nat
    decreases s.len(),
{
    if s.len() == 0 {
        0
    } else {
        be_value(s.drop_last()) * 256 + s.last() as nat
    }
}

/// The number formed by the first `t` bits of `x`, most significant bit first.
pub open spec fn leading_bits(x: Seq<u8>, t: nat) -> nat {
    let nb = (t + 7) / 8;
    be_value(x.take(nb as int)) / pow2((8 * nb - t) as nat)
}

/// Digit `i` of the base-2^b representation of `x` (FIPS 205, Algorithm 4):
/// the `i`-th group of `b` bits of `x`, most significant bit first.
pub open spec fn base_2b_digit(x: Seq<u8>, b: nat, i: nat) -> nat {
    leading_bits(x, (i + 1) * b) % pow2(b)
}

/// A string of `n` bytes whose big-endian value is `x` modulo `256^n`.
pub open spec fn is_to_byte(r: Seq<u8>, x: nat, n: nat) -> bool {
    r.len() == n && be_value(r) == x % pow2(8 * n)
}

/// Appending a byte multiplies the big-endian value by 256 and adds the byte.
pub proof fn lemma_be_value_push(s: Seq<u8>, c: u8)
    ensures
        be_value(s.push(c)) == be_value(s) * 256 + c as nat,
{
    assert(s.push(c).drop_last() =~= s);
}

/// The value of a prefix grows by one byte at a time.
pub proof fn lemma_be_value_take_next(s: Seq<u8>, k: int)
    requires
        0 <= k < s.len(),
    ensures
        be_value(s.take(k + 1)) == be_value(s.take(k)) * 256 + s[k] as nat,
{
    assert(s.take(k + 1) =~= s.take(k).push(s[k]));
    lemma_be_value_push(s.take(k), s[k]);
}

/// A string of `l` bytes has a value below `2^(8l)`.
pub proof fn lemma_be_value_bound(s: Seq<u8>)
    ensures
        be_value(s) < pow2(8 * s.len()),
    decreases s.len(),
{
    lemma2_to64();
    if s.len() > 0 {
        let p = s.drop_last();
        lemma_be_value_bound(p);
        lemma_pow2_adds(8 * p.len(), 8);
        assert(8 * s.len() == 8 * p.len() + 8);
        let v = be_value(p);
        let q = pow2(8 * p.len());
        let c = s.last() as nat;
        assert(v * 256 + c < q * 256) by (nonlinear_arith)
            requires
                v < q,
                c < 256,
        ;
    }
}

/// `256 * 2^m == 2^(m+8)`.
proof fn lemma_pow2_plus8(m: nat)
    ensures
        pow2(m + 8) == pow2(m) * 256,
{
    lemma2_to64();
    lemma_pow2_adds(m, 8);
}

/// Shifting a byte into a number kept modulo `2^m`.
pub proof fn lemma_shift_in_byte(v: nat, m: nat, c: nat)
    requires
        c < 256,
    ensures
        (v % pow2(m)) * 256 + c == (v * 256 + c) % pow2(m + 8),
{
    lemma_pow2_pos(m);
    lemma_pow2_plus8(m);
    let p = pow2(m);
    let q = v / p;
    let r = v % p;
    lemma_fundamental_div_mod(v as int, p as int);
    lemma_mod_bound(v as int, p as int);
    assert(v * 256 + c == (p * 256) * q + (r * 256 + c)) by (nonlinear_arith)
        requires
            v == p * q + r,
    ;
    assert(r * 256 + c < p * 256) by (nonlinear_arith)
        requires
            r < p,
            c < 256,
    ;
    lemma_fundamental_div_mod_converse(
        (v * 256 + c) as int,
        (p * 256) as int,
        q as int,
        (r * 256 + c) as int,
    );
}

/// Splitting a number kept modulo `2^B` at bit `s`.
pub proof fn lemma_split_low(v: nat, big: nat, s: nat)
    requires
        s <= big,
    ensures
        (v % pow2(big)) / pow2(s) == (v / pow2(s)) % pow2((big - s) as nat),
        (v % pow2(big)) % pow2(s) == v % pow2(s),
{
    let d = (big - s) as nat;
    lemma_pow2_pos(s);
    lemma_pow2_pos(d);
    lemma_pow2_adds(s, d);
    assert(s + d == big);
    lemma_mod_breakdown(v as int, pow2(s) as int, pow2(d) as int);
    lemma_mod_bound(v as int, pow2(s) as int);
    lemma_mod_bound((v / pow2(s)) as int, pow2(d) as int);
    lemma_div_multiples_vanish_fancy(
        ((v / pow2(s)) % pow2(d)) as int,
        (v % pow2(s)) as int,
        pow2(s) as int,
    );
    lemma_mod_mod(v as int, pow2(s) as int, pow2(d) as int);
}

/// The value of a concatenation.
pub proof fn lemma_be_value_concat(s1: Seq<u8>, s2: Seq<u8>)
    ensures
        be_value(s1 + s2) == be_value(s1) * pow2(8 * s2.len()) + be_value(s2),
    decreases s2.len(),
{
    lemma2_to64();
    if s2.len() == 0 {
        assert(s1 + s2 =~= s1);
        assert(be_value(s2) == 0);
        assert(be_value(s1) * 1 == be_value(s1));
    } else {
        let p = s2.drop_last();
        let c = s2.last();
        lemma_be_value_concat(s1, p);
        assert(s1 + s2 =~= (s1 + p).push(c));
        assert(s2 =~= p.push(c));
        lemma_be_value_push(s1 + p, c);
        lemma_be_value_push(p, c);
        lemma_pow2_adds(8 * p.len(), 8);
        assert(8 * s2.len() == 8 * p.len() + 8);
        let q = pow2(8 * p.len());
        let a = be_value(s1);
        let bp = be_value(p);
        assert((a * q + bp) * 256 + c == a * (q * 256) + (bp * 256 + c)) by (nonlinear_arith);
        assert(be_value(s1 + s2) == be_value(s1 + p) * 256 + c);
        assert(be_value(s1 + p) == a * q + bp);
        assert(pow2(8 * s2.len()) == q * 256);
        assert(be_value(s2) == bp * 256 + c);
    }
}

/// Base-2^b digits of FIPS 205, Algorithm 4: digit `i` of `x` is bits
/// `i b .. (i + 1) b` of the big-endian number `x`, that is
/// `(x / 2^(8 |x| - (i + 1) b)) mod 2^b`.
pub proof fn law_base_2b_digit(x: Seq<u8>, b: nat, i: nat)
    requires
        (i + 1) * b <= 8 * x.len(),
    ensures
        base_2b_digit(x, b, i) == (be_value(x) / pow2((8 * x.len() - (i + 1) * b) as nat)) % pow2(b),
{
    let t = (i + 1) * b;
    let k = (t + 7) / 8;
    assert(k <= x.len());
    let head = x.take(k as int);
    let tail = x.skip(k as int);
    assert(x =~= head + tail);
    lemma_be_value_concat(head, tail);
    lemma_be_value_bound(tail);
    let q = pow2(8 * tail.len());
    lemma_pow2_pos(8 * tail.len());
    lemma_fundamental_div_mod_converse(be_value(x) as int, q as int, be_value(head) as int, be_value(tail) as int);
    let e = (8 * k - t) as nat;
    lemma_pow2_pos(e);
    vstd::arithmetic::div_mod::lemma_div_denominator(be_value(x) as int, q as int, pow2(e) as int);
    lemma_pow2_adds(8 * tail.len(), e);
    assert(8 * tail.len() + e == 8 * x.len() - t);
}

/// FIPS 205, Algorithm 2 (`toInt`): the big-endian value of the first `n`
/// bytes of `x`.
pub fn to_int(x: &[u8], n: u32) -> (total: u64)
    requires
        n <= 8,
        n <= x@.len(),
    ensures
        total == be_value(x@.take(n as int)),
{
    let mut total: u64 = 0;
    let mut i: usize = 0;
    proof {
        lemma2_to64();
        assert(x@.take(0) =~= Seq::<u8>::empty());
    }
    while i < n as usize
        invariant
            n <= 8,
            n <= x@.len(),
            i <= n,
            total == be_value(x@.take(i as int)),
        decreases n - i,
    {
        proof {
            lemma_be_value_take_next(x@, i as int);
            lemma_be_value_bound(x@.take(i as int));
            lemma2_to64();
            if i < 7 {
                lemma_pow2_strictly_increases(8 * i as nat, 56);
            }
            vstd::arithmetic::power2::lemma2_to64_rest();
            assert(total < 0x100_0000_0000_0000);
        }
        total = total * 256 + x[i] as u64;
        i = i + 1;
    }
    total
}

/// FIPS 205, Algorithm 3 (`toByte`): the `n`-byte big-endian encoding of
/// `x` modulo `256^n`.
pub fn to_byte(x: u32, n: u32) -> (s: Vec<u8>)
    requires
        n <= 4,
    ensures
        is_to_byte(s@, x as nat, n as nat),
{
    let mut s: Vec<u8> = Vec::new();
    let mut i: u32 = 0;
    proof {
        lemma2_to64();
    }
    while i < n
        invariant
            n <= 4,
            i <= n,
            s@.len() == i,
            be_value(s@) == (x as nat / pow2((8 * (n - i)) as nat)) % pow2((8 * i) as nat),
        decreases n - i,
    {
        let sh: u32 = 8 * (n - 1 - i);
        let byte = ((x >> sh) & 0xff) as u8;
        assert(((x >> sh) & 0xff) <= 0xff) by (bit_vector);
        proof {
            lemma2_to64();
            let y = x as nat / pow2(sh as nat);
            lemma_u32_shr_is_div(x, sh);
            assert(((x >> sh) & 0xff) as u8 == ((x >> sh) % 256) as u8) by (bit_vector);
            assert(byte == y % 256);
            // x / 2^(8(n-i)) == y / 256
            lemma_pow2_adds(sh as nat, 8);
            assert(8 * (n - i) == sh + 8);
            lemma_pow2_pos(sh as nat);
            vstd::arithmetic::div_mod::lemma_div_denominator(x as int, pow2(sh as nat) as int, 256);
            lemma_be_value_push(s@, byte);
            lemma_split_low(y, (8 * i + 8) as nat, 8);
            lemma_pow2_pos((8 * i + 8) as nat);
            lemma_fundamental_div_mod((y % pow2((8 * i + 8) as nat)) as int, 256);
            assert(8 * (n - (i + 1)) == sh);
        }
        s.push(byte);
        i = i + 1;
    }
    proof {
        assert(8 * (n - i) == 0);
        lemma2_to64();
        assert(x as nat / pow2(0) == x as nat);
    }
    s
}

/// FIPS 205, Algorithm 4 (`base_2^b`): the first `out_len` digits of the
/// base-2^b representation of `x`.
pub fn base_2b(x: &[u8], b: u32, out_len: u32) -> (baseb: Vec<u32>)
    requires
        1 <= b <= 32,
        out_len * b <= 8 * x@.len(),
    ensures
        baseb@.len() == out_len,
        forall|i: int| 0 <= i < out_len ==> baseb@[i] == base_2b_digit(x@, b as nat, i as nat),
{
    let mut idx: usize = 0;
    let mut bits: u32 = 0;
    let mut total: u64 = 0;
    let mut baseb: Vec<u32> = Vec::new();
    let mut i: u32 = 0;
    let ghost mut used: nat = 0;
    proof {
        lemma2_to64();
        assert(x@.take(0) =~= Seq::<u8>::empty());
    }
    while i < out_len
        invariant
            1 <= b <= 32,
            out_len * b <= 8 * x@.len(),
            i <= out_len,
            used == i * b,
            bits as int == 8 * idx - used,
            bits < 8,
            idx <= x@.len(),
            total as nat == be_value(x@.take(idx as int)) % pow2(bits as nat),
            baseb@.len() == i,
            forall|j: int| 0 <= j < i ==> baseb@[j] == base_2b_digit(x@, b as nat, j as nat),
        decreases out_len - i,
    {
        proof {
            assert((i + 1) * b == i * b + b) by (nonlinear_arith);
            assert((i + 1) * b <= out_len * b) by (nonlinear_arith)
                requires
                    i + 1 <= out_len,
            ;
        }
        while bits < b
            invariant
                1 <= b <= 32,
                bits as int == 8 * idx - used,
                bits < b + 8,
                used + b <= 8 * x@.len(),
                idx <= x@.len(),
                total as nat == be_value(x@.take(idx as int)) % pow2(bits as nat),
            decreases b + 8 - bits,
        {
            proof {
                let v = be_value(x@.take(idx as int));
                lemma_be_value_take_next(x@, idx as int);
                lemma_shift_in_byte(v, bits as nat, x@[idx as int] as nat);
                lemma_pow2_pos(bits as nat);
                lemma_mod_bound(v as int, pow2(bits as nat) as int);
                lemma2_to64();
                vstd::arithmetic::power2::lemma2_to64_rest();
                if bits < 40 {
                    lemma_pow2_strictly_increases(bits as nat, 40);
                }
                assert(total < 0x100_0000_0000);
            }
            total = total * 256 + x[idx] as u64;
            idx = idx + 1;
            bits = bits + 8;
        }
        bits = bits - b;
        let ghost v = be_value(x@.take(idx as int));
        let wide = total >> bits as u64;
        proof {
            vstd::bits::lemma_u64_shr_is_div(total, bits as u64);
            lemma_pow2_pos(b as nat);
            lemma_mod_bound((v / pow2(bits as nat)) as int, pow2(b as nat) as int);
            lemma2_to64();
            if b < 32 {
                lemma_pow2_strictly_increases(b as nat, 32);
            }
        }
        let digit = wide as u32;
        proof {
            lemma_split_low(v, (bits + b) as nat, bits as nat);
            assert((bits + b) - bits == b);
            let t = used + b;
            assert((t + 7) / 8 == idx);
            assert(8 * idx - t == bits);
            assert(digit == base_2b_digit(x@, b as nat, i as nat));
            lemma2_to64();
            if bits < 8 {
                lemma_pow2_strictly_increases(bits as nat, 8);
            }
            vstd::bits::lemma_u64_shl_is_mul(1, bits as u64);
        }
        total = total % (1u64 << bits as u64);
        baseb.push(digit);
        i = i + 1;
        proof {
            used = used + b as nat;
        }
    }
    baseb
}

} // verus!
