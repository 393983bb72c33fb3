//! FORS (FIPS 205, section 8): the FORS public key recomputed from a
//! signature.

use vstd::prelude::*;
use vstd::arithmetic::power2::{pow2, lemma_pow2_pos, lemma_pow2_strictly_increases, lemma2_to64};
use crate::adrs::{Adrs, FORS_ROOTS};
use crate::encoding::{base_2b, base_2b_digit};
use crate::oracle::{f, h, t_len, tweak_hash, concat, blocks};
use crate::types::{ForsSig, ForsPk, Auth};
use crate::xmss::{spec_climb, lemma_parent_index};

verus! {

impl<const A: usize, const K: usize, const N: usize> ForsSig<A, K, N> {
    /// The revealed secret values as byte strings.
    pub open spec fn secrets(self) -> Seq<Seq<u8>> {
        self.private_key_value@.map_values(|b: [u8; N]| b@)
    }

    /// The authentication paths as sequences of byte strings.
    pub open spec fn auth_paths(self) -> Seq<Seq<Seq<u8>>> {
        self.auth@.map_values(|p: Auth<A, N>| p.path())
    }
}

/// The index, across all FORS trees, of leaf `digit` of tree `i`.
pub open spec fn fors_leaf_index(i: nat, digit: nat, a: nat) -> u32 {
    (i * pow2(a) + digit) as u32
}

/// The root of FORS tree `i` recomputed from the revealed secret `sk` of its
/// leaf `digit` and its authentication path (FIPS 205, Algorithm 17, lines 4-20).
pub open spec fn spec_fors_tree_root(
    sk: Seq<u8>,
    i: nat,
    digit: nat,
    auth: Seq<Seq<u8>>,
    pk_seed: Seq<u8>,
    adrs: Adrs,
    a: nat,
    n: nat,
) -> Seq<u8> {
    let leaf = fors_leaf_index(i, digit, a);
    spec_climb(
        tweak_hash(pk_seed, adrs.with_word6(0).with_word7(leaf), sk, n),
        leaf,
        auth,
        pk_seed,
        adrs,
        a,
        n,
    )
}

/// The roots of the `k` FORS trees recomputed from a signature of `md`.
pub open spec fn fors_roots(
    sks: Seq<Seq<u8>>,
    auths: Seq<Seq<Seq<u8>>>,
    md: Seq<u8>,
    pk_seed: Seq<u8>,
    adrs: Adrs,
    a: nat,
    k: nat,
    n: nat,
) -> Seq<Seq<u8>> {
    Seq::new(
        k,
        |i: int|
            spec_fors_tree_root(
                sks[i],
                i as nat,
                base_2b_digit(md, a, i as nat),
                auths[i],
                pk_seed,
                adrs,
                a,
                n,
            ),
    )
}

/// FIPS 205, Algorithm 17 (`fors_pkFromSig`).
pub open spec fn spec_fors_pk_from_sig(
    sks: Seq<Seq<u8>>,
    auths: Seq<Seq<Seq<u8>>>,
    md: Seq<u8>,
    pk_seed: Seq<u8>,
    adrs: Adrs,
    a: nat,
    k: nat,
    n: nat,
) -> Seq<u8> {
    tweak_hash(
        pk_seed,
        adrs.with_type(FORS_ROOTS).with_key_pair(adrs.key_pair),
        concat(fors_roots(sks, auths, md, pk_seed, adrs, a, k, n)),
        n,
    )
}

/// Below bit `a`, the leaf index across all trees has the bits of the leaf
/// index within its tree.
proof fn lemma_leaf_bits(i: u32, d: u32, a: u32, j: u32)
    requires
        a < 32,
        j < a,
        d < (1u32 << a),
        (i << a) as int + d as int <= u32::MAX,
    ensures
        (((i << a) + d) as u32 >> j) & 1 == (d >> j) & 1,
{
    assert((((i << a) + d) as u32 >> j) & 1 == (d >> j) & 1) by (bit_vector)
        requires
            a < 32,
            j < a,
            d < (1u32 << a),
            (i << a) as int + d as int <= u32::MAX,
    ;
}

/// FIPS 205, Algorithm 17 (`fors_pkFromSig`): the FORS public key that the
/// signature `sig_fors` of the message digest `md` yields.
pub fn fors_pk_from_sig_free<const A: usize, const K: usize, const N: usize>(
    sig_fors: &ForsSig<A, K, N>,
    md: &[u8],
    pk_seed: &[u8],
    adrs: &Adrs,
) -> (pk: ForsPk<N>)
    requires
        N <= 32,
        1 <= A <= 31,
        K <= u32::MAX,
        K * pow2(A as nat) <= 0x1_0000_0000,
        K * A <= 8 * md@.len(),
    ensures
        pk.key@ == spec_fors_pk_from_sig(
            sig_fors.secrets(),
            sig_fors.auth_paths(),
            md@,
            pk_seed@,
            *adrs,
            A as nat,
            K as nat,
            N as nat,
        ),
{
    let ghost adrs0 = *adrs;
    let (a32, k32) = (A as u32, K as u32);
    let mut adrs = *adrs;

    let indices = base_2b(md, a32, k32);

    let mut root = [[0u8; N]; K];
    let mut i: u32 = 0;
    while i < k32
        invariant
            N <= 32,
            1 <= A <= 31,
            a32 == A,
            k32 == K,
            K * pow2(A as nat) <= 0x1_0000_0000,
            i <= k32,
            indices@.len() == K,
            forall|t: int| 0 <= t < K ==> indices@[t] == base_2b_digit(md@, A as nat, t as nat),
            adrs == adrs0.with_word6(adrs.word6).with_word7(adrs.word7),
            root@.len() == K,
            forall|t: int| 0 <= t < i ==> root@[t]@ == fors_roots(
                sig_fors.secrets(),
                sig_fors.auth_paths(),
                md@,
                pk_seed@,
                adrs0,
                A as nat,
                K as nat,
                N as nat,
            )[t],
        decreases k32 - i,
    {
        let sk = sig_fors.private_key_value[i as usize];
        let digit = indices[i as usize];
        let ghost leaf = fors_leaf_index(i as nat, digit as nat, A as nat);
        proof {
            lemma2_to64();
            lemma_pow2_pos(A as nat);
            lemma_pow2_strictly_increases(A as nat, 32);
            vstd::bits::lemma_u32_shl_is_mul(1, a32);
            vstd::arithmetic::div_mod::lemma_mod_bound(
                crate::encoding::leading_bits(md@, ((i + 1) * A) as nat) as int,
                pow2(A as nat) as int,
            );
            assert(digit < pow2(A as nat));
            assert((i + 1) * pow2(A as nat) <= K * pow2(A as nat)) by (nonlinear_arith)
                requires
                    i + 1 <= K,
            ;
            assert(i * pow2(A as nat) + pow2(A as nat) == (i + 1) * pow2(A as nat)) by (nonlinear_arith);
            vstd::bits::lemma_u32_shl_is_mul(i, a32);
        }

        adrs.set_tree_height(0);
        adrs.set_tree_index((i << a32) + digit);
        let ghost leaf_adrs = adrs;

        let mut node_0 = f::<N>(pk_seed, &adrs, &sk);
        let ghost node_start = node_0@;

        let auth = &sig_fors.auth[i as usize];
        proof {
            assert(leaf_adrs == adrs0.with_word6(0).with_word7(leaf));
            assert(leaf >> 0u32 == leaf) by (bit_vector);
        }

        let mut j: u32 = 0;
        while j < a32
            invariant
                N <= 32,
                1 <= A <= 31,
                a32 == A,
                j <= a32,
                i < K,
                auth.tree@.len() == A,
                *auth == sig_fors.auth[i as int],
                digit < (1u32 << a32),
                (i << a32) as int + digit as int <= u32::MAX,
                leaf == (i << a32) + digit,
                adrs == adrs0.with_word6(adrs.word6).with_word7(adrs.word7),
                adrs.word7 == leaf >> j,
                node_0@ == spec_climb(node_start, leaf, auth.path(), pk_seed@, adrs0, j as nat, N as nat),
            decreases a32 - j,
        {
            adrs.set_tree_height(j + 1);
            proof {
                lemma_parent_index(leaf, j);
                lemma_leaf_bits(i, digit, a32, j);
            }
            let node_1 = if ((digit >> j) & 0x01) == 0 {
                let tmp = adrs.get_tree_index() / 2;
                adrs.set_tree_index(tmp);
                h::<N>(pk_seed, &adrs, &node_0, &auth.tree[j as usize])
            } else {
                let tmp = (adrs.get_tree_index() - 1) / 2;
                adrs.set_tree_index(tmp);
                h::<N>(pk_seed, &adrs, &auth.tree[j as usize], &node_0)
            };
            proof {
                assert(adrs == adrs0.with_word6((j + 1) as u32).with_word7(leaf >> ((j + 1) as u32)));
                assert(auth.path()[j as int] == auth.tree[j as int]@);
                assert(node_1@ == spec_climb(node_start, leaf, auth.path(), pk_seed@, adrs0, (j + 1) as nat, N as nat));
            }
            node_0 = node_1;
            j = j + 1;
        }

        root[i as usize] = node_0;
        proof {
            assert(sig_fors.secrets()[i as int] == sk@);
            assert(sig_fors.auth_paths()[i as int] == auth.path());
        }
        i = i + 1;
    }

    let mut fors_pk_adrs = adrs;
    fors_pk_adrs.set_type_and_clear(FORS_ROOTS);
    fors_pk_adrs.set_key_pair_address(adrs.get_key_pair_address());
    let pk = t_len::<K, N>(pk_seed, &fors_pk_adrs, &root);
    proof {
        assert(blocks(root) =~= fors_roots(
            sig_fors.secrets(),
            sig_fors.auth_paths(),
            md@,
            pk_seed@,
            adrs0,
            A as nat,
            K as nat,
            N as nat,
        ));
    }
    ForsPk { key: pk }
}

} // verus!
