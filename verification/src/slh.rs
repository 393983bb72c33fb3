//! SLH-DSA verification (FIPS 205, Algorithm 20, `slh_verify_internal`), and
//! its instance for the parameter set SLH-DSA-SHA2-128s.

use vstd::prelude::*;
use vstd::arithmetic::power2::{pow2, lemma2_to64, lemma2_to64_rest, lemma_pow2_strictly_increases};
use vstd::slice::slice_subrange;
use crate::adrs::{Adrs, FORS_TREE};
use crate::encoding::{be_value, to_int};
use crate::fors::{fors_pk_from_sig_free, spec_fors_pk_from_sig};
use crate::hypertree::{ht_verify_free, spec_ht_verify};
use crate::oracle::{h_msg, spec_h_msg, concat, pieces};
use crate::types::{SlhDsaSig, SlhPublicKey};

verus! {

/// Byte offset of the end of the FORS message digest in `H_msg`'s output.
pub open spec fn md_end(a: nat, k: nat) -> nat {
    (k * a + 7) / 8
}

/// Byte offset of the end of the tree index in `H_msg`'s output.
pub open spec fn tree_end(a: nat, d: nat, h: nat, k: nat) -> nat {
    md_end(a, k) + ((h - h / d + 7) / 8) as nat
}

/// Byte offset of the end of the leaf index in `H_msg`'s output.
pub open spec fn leaf_end(a: nat, d: nat, h: nat, k: nat) -> nat {
    tree_end(a, d, h, k) + ((h + 8 * d - 1) as nat / (8 * d))
}

/// The parameter relations under which `slh_verify_internal_free` runs to
/// completion: every shift and slice it computes is in range.
pub open spec fn valid_params(a: nat, d: nat, h: nat, hp: nat, k: nat, len: nat, m: nat, n: nat) -> bool {
    &&& n <= 32
    &&& 2 * n <= len <= u32::MAX
    &&& hp <= 32
    &&& 1 <= d <= h
    &&& h + 8 * d <= u32::MAX
    &&& 1 <= h - h / d <= 64
    &&& h / d <= 64
    &&& (h + 8 * d - 1) as nat / (8 * d) <= 8
    &&& 1 <= a <= 31
    &&& k * pow2(a) <= 0x1_0000_0000
    &&& k * a + 7 <= u32::MAX
    &&& leaf_end(a, d, h, k) <= m <= u32::MAX
}

/// FIPS 205, Algorithm 20 (`slh_verify_internal`): whether `sig` is a
/// signature of the message `msg` under the public key `pk`.
pub open spec fn spec_slh_verify_internal<
    const A: usize,
    const D: usize,
    const HP: usize,
    const K: usize,
    const LEN: usize,
    const N: usize,
>(msg: Seq<u8>, sig: SlhDsaSig<A, D, HP, K, LEN, N>, pk: SlhPublicKey<N>, h: nat, m: nat) -> bool {
    let (a, d, k, n) = (A as nat, D as nat, K as nat, N as nat);
    let digest = spec_h_msg(sig.randomness@, pk.pk_seed@, pk.pk_root@, msg, m);
    let md = digest.subrange(0, md_end(a, k) as int);
    let idx_tree = digest_tree_index(digest, a, d, h, k);
    let idx_leaf = digest_leaf_index(digest, a, d, h, k);
    if idx_leaf > u32::MAX {
        false
    } else {
        let adrs = Adrs { tree: idx_tree as u64, ..Adrs::zero() }.with_type(FORS_TREE).with_key_pair(
            idx_leaf as u32,
        );
        let pk_fors = spec_fors_pk_from_sig(
            sig.fors_sig.secrets(),
            sig.fors_sig.auth_paths(),
            md,
            pk.pk_seed@,
            adrs,
            a,
            k,
            n,
        );
        spec_ht_verify(
            pk_fors,
            sig.ht_sig.wots_sigs(),
            sig.ht_sig.auth_paths(),
            pk.pk_seed@,
            idx_tree as u64,
            idx_leaf as u32,
            pk.pk_root@,
            d,
            HP as nat,
            n,
        )
    }
}

/// Masking with `u64::MAX >> (64 - bits)` keeps the low `bits` bits.
proof fn lemma_mask_low_bits(x: u64, bits: u64)
    requires
        1 <= bits <= 64,
    ensures
        x & (u64::MAX >> ((64 - bits) as u64)) == x as nat % pow2(bits as nat),
{
    lemma2_to64();
    lemma2_to64_rest();
    if bits == 64 {
        assert(x & (u64::MAX >> 0u64) == x) by (bit_vector);
        vstd::arithmetic::div_mod::lemma_small_mod(x as nat, pow2(64));
    } else {
        assert(u64::MAX >> ((64 - bits) as u64) == ((1u64 << bits) - 1) as u64) by (bit_vector)
            requires
                1 <= bits < 64,
        ;
        vstd::bits::lemma_u64_shl_is_mul(1, bits);
        vstd::bits::lemma_u64_low_bits_mask_is_mod(x, bits as nat);
        lemma_pow2_strictly_increases(bits as nat, 64);
    }
}

/// The tree index of the digest of FIPS 205, Algorithm 20, lines 6-9.
pub open spec fn digest_tree_index(digest: Seq<u8>, a: nat, d: nat, h: nat, k: nat) -> nat {
    be_value(digest.subrange(md_end(a, k) as int, tree_end(a, d, h, k) as int)) % pow2((h - h / d) as nat)
}

/// The leaf index of the digest of FIPS 205, Algorithm 20, lines 6-10.
pub open spec fn digest_leaf_index(digest: Seq<u8>, a: nat, d: nat, h: nat, k: nat) -> nat {
    be_value(digest.subrange(tree_end(a, d, h, k) as int, leaf_end(a, d, h, k) as int)) % pow2(h / d)
}

/// Splits the message digest into the FORS message digest `md`, the tree
/// index and the leaf index (FIPS 205, Algorithm 20, lines 5-10).
fn split_digest<
    const A: usize,
    const D: usize,
    const H: usize,
    const HP: usize,
    const K: usize,
    const LEN: usize,
    const M: usize,
    const N: usize,
>(digest: &[u8; M]) -> (r: (&[u8], u64, u64))
    requires
        valid_params(A as nat, D as nat, H as nat, HP as nat, K as nat, LEN as nat, M as nat, N as nat),
    ensures
        r.0@ == digest@.subrange(0, md_end(A as nat, K as nat) as int),
        r.1 as nat == digest_tree_index(digest@, A as nat, D as nat, H as nat, K as nat),
        r.2 as nat == digest_leaf_index(digest@, A as nat, D as nat, H as nat, K as nat),
{
    let (d32, h32) = (D as u32, H as u32);
    proof {
        assert(H / D >= 1) by (nonlinear_arith)
            requires
                H >= D,
                D >= 1,
        ;
    }
    let index1 = (K * A + 7) / 8;
    let md = slice_subrange(digest.as_slice(), 0, index1);

    let index2 = index1 + (H - H / D + 7) / 8;
    let tmp_idx_tree = slice_subrange(digest.as_slice(), index1, index2);

    let index3 = index2 + (H + 8 * D - 1) / (8 * D);
    let tmp_idx_leaf = slice_subrange(digest.as_slice(), index2, index3);

    let tree_bits: u32 = h32 - h32 / d32;
    let leaf_bits: u32 = h32 / d32;
    let tree_int = to_int(tmp_idx_tree, (tree_bits + 7) / 8);
    let leaf_int = to_int(tmp_idx_leaf, (h32 + 8 * d32 - 1) / (8 * d32));
    proof {
        assert(tmp_idx_tree@.take(((tree_bits + 7) / 8) as int) =~= tmp_idx_tree@);
        assert(tmp_idx_leaf@.take(((h32 + 8 * d32 - 1) / (8 * d32)) as int) =~= tmp_idx_leaf@);
        lemma_mask_low_bits(tree_int, tree_bits as u64);
        lemma_mask_low_bits(leaf_int, leaf_bits as u64);
    }
    let idx_tree = tree_int & (u64::MAX >> (64 - tree_bits) as u64);
    let idx_leaf = leaf_int & (u64::MAX >> (64 - leaf_bits) as u64);
    (md, idx_tree, idx_leaf)
}

/// FIPS 205, Algorithm 20 (`slh_verify_internal`): whether `sig` is a
/// signature, under the public key `pk`, of the message whose pieces are `m`.
pub fn slh_verify_internal_free<
    const A: usize,
    const D: usize,
    const H: usize,
    const HP: usize,
    const K: usize,
    const LEN: usize,
    const M: usize,
    const N: usize,
>(m: &[&[u8]], sig: &SlhDsaSig<A, D, HP, K, LEN, N>, pk: &SlhPublicKey<N>) -> (valid: bool)
    requires
        valid_params(A as nat, D as nat, H as nat, HP as nat, K as nat, LEN as nat, M as nat, N as nat),
    ensures
        valid == spec_slh_verify_internal(concat(pieces(m@)), *sig, *pk, H as nat, M as nat),
{
    let mut adrs = Adrs::new();

    let r = &sig.randomness;
    let sig_fors = &sig.fors_sig;
    let sig_ht = &sig.ht_sig;

    let digest = h_msg::<M>(r, &pk.pk_seed, &pk.pk_root, m);

    let (md, idx_tree, idx_leaf) = split_digest::<A, D, H, HP, K, LEN, M, N>(&digest);

    adrs.set_tree_address(idx_tree);
    adrs.set_type_and_clear(FORS_TREE);
    let idx_leaf_u32 = match u32::try_from(idx_leaf) {
        Ok(v) => v,
        Err(_) => {
            return false;
        },
    };
    adrs.set_key_pair_address(idx_leaf_u32);

    proof {
        lemma2_to64();
        if A > 1 {
            lemma_pow2_strictly_increases(1, A as nat);
        }
        let p = pow2(A as nat);
        assert(K <= u32::MAX) by (nonlinear_arith)
            requires
                K * p <= 0x1_0000_0000,
                p >= 2,
        ;
    }
    let pk_fors = fors_pk_from_sig_free::<A, K, N>(sig_fors, md, &pk.pk_seed, &adrs);

    ht_verify_free::<D, HP, LEN, N>(&pk_fors.key, sig_ht, &pk.pk_seed, idx_tree, idx_leaf_u32, &pk.pk_root)
}

/// Passing the message in pieces is the same as passing their
/// concatenation as a single piece.
pub proof fn law_message_pieces<
    const A: usize,
    const D: usize,
    const HP: usize,
    const K: usize,
    const LEN: usize,
    const N: usize,
>(parts: Seq<Seq<u8>>, sig: SlhDsaSig<A, D, HP, K, LEN, N>, pk: SlhPublicKey<N>, h: nat, m: nat)
    ensures
        spec_slh_verify_internal(concat(parts), sig, pk, h, m) == spec_slh_verify_internal(
            concat(seq![concat(parts)]),
            sig,
            pk,
            h,
            m,
        ),
{
    seq![concat(parts)].lemma_flatten_singleton();
}

/// The parameters of SLH-DSA-SHA2-128s meet `valid_params`.
pub proof fn lemma_params_128s()
    ensures
        valid_params(12, 7, 63, 9, 14, 35, 30, 16),
{
    lemma2_to64();
    assert(md_end(12, 14) == 21);
    assert(tree_end(12, 7, 63, 14) == 28);
    assert(118nat / 56nat == 2) by (nonlinear_arith);
    assert((63 + 8 * 7 - 1) as nat / (8 * 7) == 2);
    assert(leaf_end(12, 7, 63, 14) == 30);
    assert(14 * pow2(12) == 57344);
}

/// SLH-DSA-SHA2-128s verification: `slh_verify_internal_free` with
/// n = 16, h = 63, d = 7, h' = 9, a = 12, k = 14, m = 30 and len = 35.
pub fn slh_verify_128s(m: &[&[u8]], sig: &SlhDsaSig<12, 7, 9, 14, 35, 16>, pk: &SlhPublicKey<16>) -> (valid: bool)
    ensures
        valid == spec_slh_verify_internal(concat(pieces(m@)), *sig, *pk, 63, 30),
{
    proof {
        lemma_params_128s();
    }
    slh_verify_internal_free::<12, 7, 63, 9, 14, 35, 30, 16>(m, sig, pk)
}

} // verus!
