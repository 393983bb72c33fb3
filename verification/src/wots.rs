//! WOTS+ (FIPS 205, section 5): the chaining function and the computation of
//! a public key from a signature.

use vstd::prelude::*;
use vstd::arithmetic::power2::{pow2, lemma2_to64};
use vstd::arithmetic::div_mod::lemma_mod_bound;
use crate::adrs::{Adrs, WOTS_PK};
use crate::encoding::{base_2b, base_2b_digit, leading_bits, be_value, to_byte, is_to_byte};
use crate::oracle::{f, t_l, tweak_hash, concat, blocks};
use crate::types::{WotsSig, WotsPk, LGW, W, LEN2};

verus! {

/// FIPS 205, Algorithm 5 (`chain`): `s` iterations of `F` on `x`, starting at
/// hash address `i`.
pub open spec fn spec_chain(x: Seq<u8>, i: nat, s: nat, pk_seed: Seq<u8>, adrs: Adrs, n: nat) -> Seq<u8>
    decreases s,
{
    if s == 0 {
        x
    } else {
        tweak_hash(
            pk_seed,
            adrs.with_word7((i + s - 1) as u32),
            spec_chain(x, i, (s - 1) as nat, pk_seed, adrs, n),
            n,
        )
    }
}

/// The sum of `15 - d` over the first `k` base-16 digits `d` of `m`.
pub open spec fn checksum_upto(m: Seq<u8>, k: nat) -> nat
    decreases k,
{
    if k == 0 {
        0
    } else {
        checksum_upto(m, (k - 1) as nat) + (15 - base_2b_digit(m, 4, (k - 1) as nat)) as nat
    }
}

/// The WOTS+ checksum of an `n`-byte message.
pub open spec fn wots_checksum(m: Seq<u8>, n: nat) -> nat {
    checksum_upto(m, 2 * n)
}

/// Digit `i` of the WOTS+ message representation: the `2n` base-16 digits of
/// the message, then the three base-16 digits of the checksum, most
/// significant first; any further position is zero.
pub open spec fn wots_digit(m: Seq<u8>, n: nat, i: nat) -> nat {
    if i < 2 * n {
        base_2b_digit(m, 4, i)
    } else if i < 2 * n + 3 {
        (wots_checksum(m, n) / pow2((4 * (2 * n + 2 - i)) as nat)) % 16
    } else {
        0
    }
}

/// The ends of the chains that verification computes from the signature.
pub open spec fn wots_chain_ends(sig: Seq<Seq<u8>>, m: Seq<u8>, pk_seed: Seq<u8>, adrs: Adrs, n: nat) -> Seq<Seq<u8>> {
    Seq::new(
        sig.len(),
        |i: int|
            spec_chain(
                sig[i],
                wots_digit(m, n, i as nat),
                (15 - wots_digit(m, n, i as nat)) as nat,
                pk_seed,
                adrs.with_word6(i as u32),
                n,
            ),
    )
}

/// The address under which the WOTS+ public key is compressed.
pub open spec fn wots_pk_adrs(adrs: Adrs) -> Adrs {
    adrs.with_type(WOTS_PK).with_key_pair(adrs.key_pair)
}

/// FIPS 205, Algorithm 8 (`wots_pkFromSig`).
pub open spec fn spec_wots_pk_from_sig(sig: Seq<Seq<u8>>, m: Seq<u8>, pk_seed: Seq<u8>, adrs: Adrs, n: nat) -> Seq<u8> {
    tweak_hash(pk_seed, wots_pk_adrs(adrs), concat(wots_chain_ends(sig, m, pk_seed, adrs, n)), n)
}

/// No step of chaining returns the start value, and one step from position
/// `i` is `F` under hash address `i`.
pub proof fn law_chain_steps(x: Seq<u8>, i: nat, pk_seed: Seq<u8>, adrs: Adrs, n: nat)
    ensures
        spec_chain(x, i, 0, pk_seed, adrs, n) == x,
        spec_chain(x, i, 1, pk_seed, adrs, n) == tweak_hash(pk_seed, adrs.with_word7(i as u32), x, n),
{
    assert(spec_chain(x, i, 0, pk_seed, adrs, n) == x);
    assert((i + 1 - 1) as u32 == i as u32);
}

/// Chaining composes: `s1` steps from position `i`, then `s2` steps from
/// position `i + s1`, are `s1 + s2` steps from position `i`.
pub proof fn lemma_chain_compose(x: Seq<u8>, i: nat, s1: nat, s2: nat, pk_seed: Seq<u8>, adrs: Adrs, n: nat)
    ensures
        spec_chain(spec_chain(x, i, s1, pk_seed, adrs, n), i + s1, s2, pk_seed, adrs, n) == spec_chain(
            x,
            i,
            s1 + s2,
            pk_seed,
            adrs,
            n,
        ),
    decreases s2,
{
    if s2 > 0 {
        lemma_chain_compose(x, i, s1, (s2 - 1) as nat, pk_seed, adrs, n);
        assert((i + s1) + s2 - 1 == i + (s1 + s2) - 1);
        assert((s1 + s2 - 1) as nat == s1 + (s2 - 1) as nat);
    }
}

/// If every message digit of `m1` is at most the one of `m2`, the checksum
/// of `m1` is at least the one of `m2`, and equal only when the digits are.
proof fn lemma_checksum_dominance(m1: Seq<u8>, m2: Seq<u8>, k: nat)
    requires
        forall|i: nat| i < k ==> base_2b_digit(m1, 4, i) <= #[trigger] base_2b_digit(m2, 4, i),
    ensures
        checksum_upto(m1, k) >= checksum_upto(m2, k),
        checksum_upto(m1, k) == checksum_upto(m2, k) ==> forall|i: nat|
            i < k ==> base_2b_digit(m1, 4, i) == #[trigger] base_2b_digit(m2, 4, i),
    decreases k,
{
    if k > 0 {
        let j = (k - 1) as nat;
        lemma_checksum_dominance(m1, m2, j);
        lemma_digit4_bound(m1, j);
        lemma_digit4_bound(m2, j);
        assert(base_2b_digit(m1, 4, j) <= base_2b_digit(m2, 4, j));
    }
}

/// The three base-16 digits of a 12-bit checksum make up its value.
proof fn lemma_checksum_nibbles(c: nat)
    requires
        c < 4096,
    ensures
        c == 256 * ((c / pow2(8)) % 16) + 16 * ((c / pow2(4)) % 16) + (c / pow2(0)) % 16,
{
    lemma2_to64();
}

/// WOTS+ checksum: for `n`-byte messages (n <= 32), no message
/// representation is dominated digit by digit by another one: if every digit
/// of the representation of `m1` is at most the corresponding digit of `m2`,
/// the two representations are equal. This is what keeps a signature of one
/// message from being advanced along the chains into a signature of another.
pub proof fn law_wots_digits_not_dominated(m1: Seq<u8>, m2: Seq<u8>, n: nat)
    requires
        n <= 32,
        forall|i: nat| i < 2 * n + 3 ==> wots_digit(m1, n, i) <= #[trigger] wots_digit(m2, n, i),
    ensures
        forall|i: nat| i < 2 * n + 3 ==> wots_digit(m1, n, i) == #[trigger] wots_digit(m2, n, i),
{
    assert forall|i: nat| i < 2 * n implies base_2b_digit(m1, 4, i) <= #[trigger] base_2b_digit(m2, 4, i) by {
        assert(wots_digit(m1, n, i) <= wots_digit(m2, n, i));
    }
    lemma_checksum_dominance(m1, m2, 2 * n);
    lemma_checksum_bound(m1, 2 * n);
    lemma_checksum_bound(m2, 2 * n);
    let c1 = wots_checksum(m1, n);
    let c2 = wots_checksum(m2, n);
    lemma_checksum_nibbles(c1);
    lemma_checksum_nibbles(c2);
    let i0 = 2 * n;
    let i1 = 2 * n + 1;
    let i2 = 2 * n + 2;
    assert(wots_digit(m1, n, i0) <= wots_digit(m2, n, i0));
    assert(wots_digit(m1, n, i1) <= wots_digit(m2, n, i1));
    assert(wots_digit(m1, n, i2) <= wots_digit(m2, n, i2));
    assert(4 * (2 * n + 2 - i0) == 8);
    assert(4 * (2 * n + 2 - i1) == 4);
    assert(4 * (2 * n + 2 - i2) == 0);
    assert(c1 <= c2);
    assert(c1 == c2);
}

/// A base-16 digit is below 16.
pub proof fn lemma_digit4_bound(m: Seq<u8>, i: nat)
    ensures
        base_2b_digit(m, 4, i) < 16,
{
    lemma2_to64();
    lemma_mod_bound(crate::encoding::leading_bits(m, (i + 1) * 4) as int, 16);
}

/// FIPS 205, Algorithm 5 (`chain`).
pub fn chain_free<const N: usize>(cap_x: [u8; N], i: u32, s: u32, pk_seed: &[u8], adrs: &Adrs) -> (r: [u8; N])
    requires
        N <= 32,
        i + s < u32::MAX,
    ensures
        r@ == spec_chain(cap_x@, i as nat, s as nat, pk_seed@, *adrs, N as nat),
{
    let ghost adrs0 = *adrs;
    let mut adrs = *adrs;
    let mut tmp = cap_x;
    let mut j: u32 = i;
    while j < i + s
        invariant
            N <= 32,
            i + s < u32::MAX,
            i <= j <= i + s,
            adrs == adrs0.with_word7(adrs.word7),
            tmp@ == spec_chain(cap_x@, i as nat, (j - i) as nat, pk_seed@, adrs0, N as nat),
        decreases i + s - j,
    {
        adrs.set_hash_address(j);
        tmp = f::<N>(pk_seed, &adrs, &tmp);
        proof {
            assert(adrs == adrs0.with_word7(j));
            assert(i + (j + 1 - i) - 1 == j);
        }
        j = j + 1;
    }
    tmp
}

/// The checksum of the first `k` digits is at most `15 k`.
proof fn lemma_checksum_bound(m: Seq<u8>, k: nat)
    ensures
        checksum_upto(m, k) <= 15 * k,
    decreases k,
{
    if k > 0 {
        lemma_checksum_bound(m, (k - 1) as nat);
        lemma_digit4_bound(m, (k - 1) as nat);
    }
}

/// The three base-16 digits of a 16-bit encoding of `c * 16` are the three
/// base-16 digits of the 12-bit number `c`.
proof fn lemma_checksum_digits(bytes: Seq<u8>, c: nat, j: nat)
    requires
        c < 4096,
        j < 3,
        is_to_byte(bytes, c * 16, 2),
    ensures
        base_2b_digit(bytes, 4, j) == (c / pow2((4 * (2 - j)) as nat)) % 16,
{
    lemma2_to64();
    let b0 = bytes[0] as nat;
    let b1 = bytes[1] as nat;
    assert(bytes.take(1).drop_last() =~= Seq::<u8>::empty());
    assert(bytes.take(2) =~= bytes);
    assert(bytes.drop_last() =~= bytes.take(1));
    assert(be_value(bytes.take(1)) == b0);
    assert(be_value(bytes) == b0 * 256 + b1);
    assert((c * 16) % 0x10000 == c * 16);
    assert(b0 * 256 + b1 == c * 16);
    assert(bytes.take(1) =~= seq![bytes[0]]);
    if j == 0 {
        assert(leading_bits(bytes, 4) == b0 / 16);
        assert(b0 / 16 == c / 256) by (nonlinear_arith)
            requires
                b0 * 256 + b1 == c * 16,
                b1 < 256,
        ;
        assert(c / 256 < 16);
        assert((j + 1) * 4 == 4);
        assert(4 * (2 - j) == 8);
    } else if j == 1 {
        assert((8 + 7) / 8 == 1);
        assert(b0 / 1 == b0);
        assert(leading_bits(bytes, 8) == b0);
        assert((j + 1) * 4 == 8);
        assert(4 * (2 - j) == 4);
        assert(b0 % 16 == (c / 16) % 16) by (nonlinear_arith)
            requires
                b0 * 256 + b1 == c * 16,
                b1 < 256,
        ;
    } else {
        assert(leading_bits(bytes, 12) == (b0 * 256 + b1) / 16);
        assert((b0 * 256 + b1) / 16 == c) by (nonlinear_arith)
            requires
                b0 * 256 + b1 == c * 16,
        ;
        assert((j + 1) * 4 == 12);
        assert(4 * (2 - j) == 0);
        assert(c / 1 == c);
    }
}

/// FIPS 205, Algorithm 8 (`wots_pkFromSig`): the WOTS+ public key that the
/// signature `sig` of the `N`-byte message `m` yields.
pub fn wots_pk_from_sig_free<const LEN: usize, const N: usize>(
    sig: &WotsSig<LEN, N>,
    m: &[u8],
    pk_seed: &[u8],
    adrs: &Adrs,
) -> (pk: WotsPk<N>)
    requires
        N <= 32,
        2 * N <= LEN,
        LEN <= u32::MAX,
        N <= m@.len(),
    ensures
        pk.0@ == spec_wots_pk_from_sig(sig.chains(), m@, pk_seed@, *adrs, N as nat),
{
    let ghost adrs0 = *adrs;
    let n32 = N as u32;
    let mut adrs = *adrs;
    let mut tmp = [[0u8; N]; LEN];

    let mut csum: u32 = 0;
    let mut msg = [0u32; LEN];
    let digits = base_2b(m, LGW, 2 * n32);
    let mut k: usize = 0;
    while k < 2 * N
        invariant
            N <= 32,
            2 * N <= LEN,
            k <= 2 * N,
            digits@.len() == 2 * N,
            forall|t: int| 0 <= t < 2 * N ==> digits@[t] == base_2b_digit(m@, 4, t as nat),
            msg@.len() == LEN,
            forall|t: int| 0 <= t < k ==> msg@[t] == wots_digit(m@, N as nat, t as nat),
            forall|t: int| k <= t < LEN ==> msg@[t] == 0,
            csum == checksum_upto(m@, k as nat),
        decreases 2 * N - k,
    {
        msg[k] = digits[k];
        proof {
            lemma_digit4_bound(m@, k as nat);
            lemma_checksum_bound(m@, k as nat);
        }
        csum += W - 1 - msg[k];
        k = k + 1;
    }

    let low: u32 = (LEN2 * LGW) & 0x07;
    assert(low == 4) by (bit_vector)
        requires
            low == 12u32 & 0x07u32,
    ;
    let shift: u32 = (8 - low) & 0x07;
    assert(shift == 4) by (bit_vector)
        requires
            low == 4,
            shift == ((8 - low) as u32) & 0x07u32,
    ;
    proof {
        lemma_checksum_bound(m@, (2 * N) as nat);
    }
    let ghost c = csum;
    csum <<= shift;
    proof {
        lemma2_to64();
        vstd::bits::lemma_u32_shl_is_mul(c, 4);
    }
    let nbytes: u32 = (LEN2 * LGW + 7) / 8;
    let bytes = to_byte(csum, nbytes);
    let cdigits = base_2b(bytes.as_slice(), LGW, LEN2);
    let mut t: usize = 0;
    while t < 3 && 2 * N + t < LEN
        invariant
            N <= 32,
            2 * N <= LEN,
            t <= 3,
            2 * N + t <= LEN,
            c < 4096,
            c == wots_checksum(m@, N as nat),
            is_to_byte(bytes@, (c * 16) as nat, 2),
            cdigits@.len() == 3,
            forall|q: int| 0 <= q < 3 ==> cdigits@[q] == base_2b_digit(bytes@, 4, q as nat),
            msg@.len() == LEN,
            forall|q: int| 0 <= q < 2 * N + t ==> msg@[q] == wots_digit(m@, N as nat, q as nat),
            forall|q: int| 2 * N + t <= q < LEN ==> msg@[q] == 0,
        decreases 3 - t,
    {
        msg[2 * N + t] = cdigits[t];
        proof {
            lemma_checksum_digits(bytes@, c as nat, t as nat);
            assert(2 * (N as nat) + 2 - (2 * N + t) == 2 - t);
        }
        t = t + 1;
    }

    let mut i: usize = 0;
    while i < LEN
        invariant
            N <= 32,
            2 * N <= LEN,
            LEN <= u32::MAX,
            i <= LEN,
            msg@.len() == LEN,
            forall|q: int| 0 <= q < 2 * N + 3 && q < LEN ==> msg@[q] == wots_digit(m@, N as nat, q as nat),
            forall|q: int| 2 * N + 3 <= q < LEN ==> msg@[q] == 0,
            adrs == adrs0.with_word6(adrs.word6),
            tmp@.len() == LEN,
            forall|q: int| 0 <= q < i ==> tmp@[q]@ == wots_chain_ends(sig.chains(), m@, pk_seed@, adrs0, N as nat)[q],
        decreases LEN - i,
    {
        adrs.set_chain_address(i as u32);
        proof {
            assert(msg@[i as int] == wots_digit(m@, N as nat, i as nat));
            assert(wots_digit(m@, N as nat, i as nat) < 16) by {
                if i < 2 * N {
                    lemma_digit4_bound(m@, i as nat);
                }
            }
        }
        tmp[i] = chain_free::<N>(sig.data[i], msg[i], W - 1 - msg[i], pk_seed, &adrs);
        i = i + 1;
    }

    let mut wotspk_adrs = adrs;
    wotspk_adrs.set_type_and_clear(WOTS_PK);
    wotspk_adrs.set_key_pair_address(adrs.get_key_pair_address());
    let pk = t_l::<LEN, N>(pk_seed, &wotspk_adrs, &tmp);
    proof {
        assert(blocks(tmp) =~= wots_chain_ends(sig.chains(), m@, pk_seed@, adrs0, N as nat));
        assert(wotspk_adrs == wots_pk_adrs(adrs0));
    }
    WotsPk(pk)
}

} // verus!
