//! Signing as FIPS 205 specifies it, over an arbitrary assignment of secret
//! values to addresses, and the laws that verification accepts what signing
//! produces.
//!
//! In FIPS 205 the secret values are `PRF(PK.seed, SK.seed, ADRS)`; here they
//! are any function `secret` from addresses to byte strings, so the laws hold
//! whatever the pseudorandom function is.

use vstd::prelude::*;
use vstd::arithmetic::power2::{pow2, lemma2_to64};
use crate::adrs::{Adrs, TREE, FORS_ROOTS, FORS_TREE};
use crate::slh::{spec_slh_verify_internal, valid_params, md_end, digest_tree_index, digest_leaf_index};
use crate::types::{SlhDsaSig, SlhPublicKey};
use crate::encoding::base_2b_digit;
use crate::oracle::{tweak_hash, concat, spec_h_msg};
use crate::xmss::{spec_climb, spec_xmss_pk_from_sig, xmss_wots_adrs};
use crate::hypertree::{ht_node, spec_ht_verify, layer_adrs, layer_leaf, layer_tree};
use crate::fors::{spec_fors_pk_from_sig, fors_roots, fors_leaf_index};
use crate::wots::{spec_chain, wots_digit, wots_pk_adrs, wots_chain_ends, spec_wots_pk_from_sig, lemma_chain_compose, lemma_digit4_bound};

verus! {

/// The secret value at the start of chain `i` of the WOTS+ key pair at `adrs`.
pub open spec fn wots_secret(secret: spec_fn(Adrs) -> Seq<u8>, adrs: Adrs, i: nat) -> Seq<u8> {
    secret(adrs.with_word6(i as u32))
}

/// The public ends of the `len` chains of a WOTS+ key pair.
pub open spec fn wots_public_chains(
    secret: spec_fn(Adrs) -> Seq<u8>,
    len: nat,
    pk_seed: Seq<u8>,
    adrs: Adrs,
    n: nat,
) -> Seq<Seq<u8>> {
    Seq::new(
        len,
        |i: int| spec_chain(wots_secret(secret, adrs, i as nat), 0, 15, pk_seed, adrs.with_word6(i as u32), n),
    )
}

/// FIPS 205, Algorithm 6 (`wots_pkGen`).
pub open spec fn wots_pk_gen(secret: spec_fn(Adrs) -> Seq<u8>, len: nat, pk_seed: Seq<u8>, adrs: Adrs, n: nat) -> Seq<u8> {
    tweak_hash(pk_seed, wots_pk_adrs(adrs), concat(wots_public_chains(secret, len, pk_seed, adrs, n)), n)
}

/// FIPS 205, Algorithm 7 (`wots_sign`): chain `i` advanced by digit `i` of
/// the message representation.
pub open spec fn wots_sign(
    secret: spec_fn(Adrs) -> Seq<u8>,
    len: nat,
    m: Seq<u8>,
    pk_seed: Seq<u8>,
    adrs: Adrs,
    n: nat,
) -> Seq<Seq<u8>> {
    Seq::new(
        len,
        |i: int|
            spec_chain(
                wots_secret(secret, adrs, i as nat),
                0,
                wots_digit(m, n, i as nat),
                pk_seed,
                adrs.with_word6(i as u32),
                n,
            ),
    )
}

/// Every digit of the WOTS+ message representation is below 16.
pub proof fn lemma_wots_digit_bound(m: Seq<u8>, n: nat, i: nat)
    ensures
        wots_digit(m, n, i) < 16,
{
    lemma2_to64();
    if i < 2 * n {
        lemma_digit4_bound(m, i);
    } else if i < 2 * n + 3 {
        vstd::arithmetic::div_mod::lemma_mod_bound(
            (crate::wots::wots_checksum(m, n) / pow2((4 * (2 * n + 2 - i)) as nat)) as int,
            16,
        );
    }
}

/// WOTS+ correctness: the public key that verification recomputes from the
/// signature of any message is the public key of the key pair.
pub proof fn law_wots_correct(secret: spec_fn(Adrs) -> Seq<u8>, len: nat, m: Seq<u8>, pk_seed: Seq<u8>, adrs: Adrs, n: nat)
    ensures
        spec_wots_pk_from_sig(wots_sign(secret, len, m, pk_seed, adrs, n), m, pk_seed, adrs, n)
            == wots_pk_gen(secret, len, pk_seed, adrs, n),
{
    let sig = wots_sign(secret, len, m, pk_seed, adrs, n);
    let ends = wots_chain_ends(sig, m, pk_seed, adrs, n);
    let pubs = wots_public_chains(secret, len, pk_seed, adrs, n);
    assert forall|i: int| 0 <= i < len implies ends[i] == pubs[i] by {
        let d = wots_digit(m, n, i as nat);
        lemma_wots_digit_bound(m, n, i as nat);
        lemma_chain_compose(
            wots_secret(secret, adrs, i as nat),
            0,
            d,
            (15 - d) as nat,
            pk_seed,
            adrs.with_word6(i as u32),
            n,
        );
        assert(d + (15 - d) as nat == 15);
    }
    assert(ends =~= pubs);
}

/// FIPS 205, Algorithms 9 and 15 (`xmss_node`, `fors_node`): node `i` at
/// height `z` of the Merkle tree over `leaves`, hashed under tree height `z`
/// and tree index `i`.
pub open spec fn tree_node(
    leaves: spec_fn(nat) -> Seq<u8>,
    i: nat,
    z: nat,
    pk_seed: Seq<u8>,
    adrs: Adrs,
    n: nat,
) -> Seq<u8>
    decreases z,
{
    if z == 0 {
        leaves(i)
    } else {
        tweak_hash(
            pk_seed,
            adrs.with_word6(z as u32).with_word7(i as u32),
            tree_node(leaves, 2 * i, (z - 1) as nat, pk_seed, adrs, n) + tree_node(
                leaves,
                2 * i + 1,
                (z - 1) as nat,
                pk_seed,
                adrs,
                n,
            ),
            n,
        )
    }
}

/// The authentication path of leaf `leaf`: the sibling of its ancestor at
/// every height below `height` (FIPS 205, Algorithm 10 lines 4-7 and
/// Algorithm 16 lines 5-8).
pub open spec fn auth_path(
    leaves: spec_fn(nat) -> Seq<u8>,
    leaf: u32,
    height: nat,
    pk_seed: Seq<u8>,
    adrs: Adrs,
    n: nat,
) -> Seq<Seq<u8>> {
    Seq::new(
        height,
        |k: int| tree_node(leaves, ((leaf >> (k as u32)) ^ 1u32) as nat, k as nat, pk_seed, adrs, n),
    )
}

/// The sibling of a node and the node's parent.
proof fn lemma_sibling(x: u32, k: u32)
    requires
        k < 32,
    ensures
        (x >> k) & 1 == 0 ==> ((x >> k) ^ 1u32) == (x >> k) + 1 && 2 * (x >> ((k + 1) as u32)) == (x >> k),
        (x >> k) & 1 != 0 ==> ((x >> k) ^ 1u32) == (x >> k) - 1 && 2 * (x >> ((k + 1) as u32)) + 1 == (x
            >> k),
{
    assert((x >> k) & 1 == 0 ==> ((x >> k) ^ 1u32) == (x >> k) + 1 && 2 * (x >> ((k + 1) as u32)) == (x
        >> k)) by (bit_vector)
        requires
            k < 32,
    ;
    assert((x >> k) & 1 != 0 ==> ((x >> k) ^ 1u32) == (x >> k) - 1 && 2 * (x >> ((k + 1) as u32)) + 1
        == (x >> k)) by (bit_vector)
        requires
            k < 32,
    ;
}

/// Climbing along the authentication path of a leaf reaches its ancestors.
pub proof fn lemma_climb_auth_path(
    leaves: spec_fn(nat) -> Seq<u8>,
    leaf: u32,
    height: nat,
    k: nat,
    pk_seed: Seq<u8>,
    adrs: Adrs,
    n: nat,
)
    requires
        k <= height <= 32,
    ensures
        spec_climb(leaves(leaf as nat), leaf, auth_path(leaves, leaf, height, pk_seed, adrs, n), pk_seed, adrs, k, n)
            == tree_node(leaves, (leaf >> (k as u32)) as nat, k, pk_seed, adrs, n),
    decreases k,
{
    if k == 0 {
        assert(leaf >> 0u32 == leaf) by (bit_vector);
    } else {
        lemma_climb_auth_path(leaves, leaf, height, (k - 1) as nat, pk_seed, adrs, n);
        lemma_sibling(leaf, (k - 1) as u32);
        assert(((k - 1) as u32 + 1) as u32 == k as u32);
    }
}

/// The leaves of an XMSS tree: the WOTS+ public keys of its key pairs.
pub open spec fn xmss_leaves(
    secret: spec_fn(Adrs) -> Seq<u8>,
    len: nat,
    pk_seed: Seq<u8>,
    adrs: Adrs,
    n: nat,
) -> spec_fn(nat) -> Seq<u8> {
    |j: nat| wots_pk_gen(secret, len, pk_seed, xmss_wots_adrs(adrs, j as u32), n)
}

/// The root of the XMSS tree of height `hp` at `adrs` (FIPS 205,
/// Algorithm 9 at height `hp`).
pub open spec fn xmss_root(
    secret: spec_fn(Adrs) -> Seq<u8>,
    len: nat,
    hp: nat,
    pk_seed: Seq<u8>,
    adrs: Adrs,
    n: nat,
) -> Seq<u8> {
    tree_node(xmss_leaves(secret, len, pk_seed, adrs, n), 0, hp, pk_seed, adrs.with_type(TREE), n)
}

/// The WOTS+ part of the XMSS signature of `m` by key pair `idx`
/// (FIPS 205, Algorithm 10).
pub open spec fn xmss_sign_wots(
    secret: spec_fn(Adrs) -> Seq<u8>,
    len: nat,
    m: Seq<u8>,
    idx: u32,
    pk_seed: Seq<u8>,
    adrs: Adrs,
    n: nat,
) -> Seq<Seq<u8>> {
    wots_sign(secret, len, m, pk_seed, xmss_wots_adrs(adrs, idx), n)
}

/// The authentication path of the XMSS signature by key pair `idx`
/// (FIPS 205, Algorithm 10).
pub open spec fn xmss_sign_auth(
    secret: spec_fn(Adrs) -> Seq<u8>,
    len: nat,
    hp: nat,
    idx: u32,
    pk_seed: Seq<u8>,
    adrs: Adrs,
    n: nat,
) -> Seq<Seq<u8>> {
    auth_path(xmss_leaves(secret, len, pk_seed, adrs, n), idx, hp, pk_seed, adrs.with_type(TREE), n)
}

/// A number below `2^hp` has no bit at `hp` or above.
proof fn lemma_shr_small(x: u32, hp: nat)
    requires
        hp <= 32,
        x < pow2(hp),
    ensures
        x >> (hp as u32) == 0,
{
    if hp == 32 {
        assert(x >> 32u32 == 0) by (bit_vector);
    } else {
        vstd::bits::lemma_u32_shr_is_div(x, hp as u32);
        vstd::arithmetic::div_mod::lemma_basic_div(x as int, pow2(hp) as int);
    }
}

/// XMSS correctness: the root that verification recomputes from the XMSS
/// signature of any message by any key pair is the root of the tree.
pub proof fn law_xmss_correct(
    secret: spec_fn(Adrs) -> Seq<u8>,
    len: nat,
    hp: nat,
    m: Seq<u8>,
    idx: u32,
    pk_seed: Seq<u8>,
    adrs: Adrs,
    n: nat,
)
    requires
        hp <= 32,
        idx < pow2(hp),
    ensures
        spec_xmss_pk_from_sig(
            idx,
            xmss_sign_wots(secret, len, m, idx, pk_seed, adrs, n),
            xmss_sign_auth(secret, len, hp, idx, pk_seed, adrs, n),
            m,
            pk_seed,
            adrs,
            hp,
            n,
        ) == xmss_root(secret, len, hp, pk_seed, adrs, n),
{
    let leaves = xmss_leaves(secret, len, pk_seed, adrs, n);
    law_wots_correct(secret, len, m, pk_seed, xmss_wots_adrs(adrs, idx), n);
    assert(xmss_wots_adrs(adrs, idx).with_type(TREE) == adrs.with_type(TREE));
    assert(leaves(idx as nat) == wots_pk_gen(secret, len, pk_seed, xmss_wots_adrs(adrs, idx), n));
    lemma_climb_auth_path(leaves, idx, hp, hp, pk_seed, adrs.with_type(TREE), n);
    lemma_shr_small(idx, hp);
}

/// The address of leaf `j` of the FORS trees at `adrs`.
pub open spec fn fors_leaf_adrs(adrs: Adrs, j: nat) -> Adrs {
    adrs.with_word6(0).with_word7(j as u32)
}

/// The leaves of the FORS trees: `F` of the secret value of each leaf.
pub open spec fn fors_leaves(secret: spec_fn(Adrs) -> Seq<u8>, pk_seed: Seq<u8>, adrs: Adrs, n: nat) -> spec_fn(nat) -> Seq<u8> {
    |j: nat| tweak_hash(pk_seed, fors_leaf_adrs(adrs, j), secret(fors_leaf_adrs(adrs, j)), n)
}

/// The FORS public key: the compressed roots of the `k` trees of height `a`
/// (FIPS 205, Algorithms 15 and 17).
pub open spec fn fors_pk_gen(
    secret: spec_fn(Adrs) -> Seq<u8>,
    a: nat,
    k: nat,
    pk_seed: Seq<u8>,
    adrs: Adrs,
    n: nat,
) -> Seq<u8> {
    tweak_hash(
        pk_seed,
        adrs.with_type(FORS_ROOTS).with_key_pair(adrs.key_pair),
        concat(Seq::new(k, |i: int| tree_node(fors_leaves(secret, pk_seed, adrs, n), i as nat, a, pk_seed, adrs, n))),
        n,
    )
}

/// The leaf of FORS tree `i` that the digest `md` selects.
pub open spec fn fors_selected_leaf(md: Seq<u8>, a: nat, i: nat) -> u32 {
    fors_leaf_index(i, base_2b_digit(md, a, i), a)
}

/// The secret values revealed by the FORS signature of `md`
/// (FIPS 205, Algorithm 16).
pub open spec fn fors_sign_secrets(secret: spec_fn(Adrs) -> Seq<u8>, md: Seq<u8>, a: nat, k: nat, adrs: Adrs) -> Seq<Seq<u8>> {
    Seq::new(k, |i: int| secret(fors_leaf_adrs(adrs, fors_selected_leaf(md, a, i as nat) as nat)))
}

/// The authentication paths of the FORS signature of `md`
/// (FIPS 205, Algorithm 16).
pub open spec fn fors_sign_auths(
    secret: spec_fn(Adrs) -> Seq<u8>,
    md: Seq<u8>,
    a: nat,
    k: nat,
    pk_seed: Seq<u8>,
    adrs: Adrs,
    n: nat,
) -> Seq<Seq<Seq<u8>>> {
    Seq::new(
        k,
        |i: int| auth_path(fors_leaves(secret, pk_seed, adrs, n), fors_selected_leaf(md, a, i as nat), a, pk_seed, adrs, n),
    )
}

/// FORS correctness: the FORS public key that verification recomputes from
/// the FORS signature of any digest is the FORS public key.
pub proof fn law_fors_correct(
    secret: spec_fn(Adrs) -> Seq<u8>,
    md: Seq<u8>,
    a: nat,
    k: nat,
    pk_seed: Seq<u8>,
    adrs: Adrs,
    n: nat,
)
    requires
        1 <= a <= 31,
        k * pow2(a) <= 0x1_0000_0000,
    ensures
        spec_fors_pk_from_sig(
            fors_sign_secrets(secret, md, a, k, adrs),
            fors_sign_auths(secret, md, a, k, pk_seed, adrs, n),
            md,
            pk_seed,
            adrs,
            a,
            k,
            n,
        ) == fors_pk_gen(secret, a, k, pk_seed, adrs, n),
{
    let sks = fors_sign_secrets(secret, md, a, k, adrs);
    let auths = fors_sign_auths(secret, md, a, k, pk_seed, adrs, n);
    let leaves = fors_leaves(secret, pk_seed, adrs, n);
    let roots = fors_roots(sks, auths, md, pk_seed, adrs, a, k, n);
    let expect = Seq::new(k, |i: int| tree_node(leaves, i as nat, a, pk_seed, adrs, n));
    assert forall|i: int| 0 <= i < k implies roots[i] == expect[i] by {
        let d = base_2b_digit(md, a, i as nat);
        let p = pow2(a);
        vstd::arithmetic::power2::lemma_pow2_pos(a);
        vstd::arithmetic::div_mod::lemma_mod_bound(
            crate::encoding::leading_bits(md, ((i as nat + 1) * a) as nat) as int,
            p as int,
        );
        assert(d < p);
        assert(i * p + d < k * p) by (nonlinear_arith)
            requires
                0 <= i < k,
                d < p,
        ;
        let leaf = fors_leaf_index(i as nat, d, a);
        assert(leaf as nat == i * p + d);
        lemma_climb_auth_path(leaves, leaf, a, a, pk_seed, adrs, n);
        vstd::bits::lemma_u32_shr_is_div(leaf, a as u32);
        vstd::arithmetic::div_mod::lemma_fundamental_div_mod_converse(leaf as int, p as int, i as int, d as int);
        assert(leaves(leaf as nat) == tweak_hash(pk_seed, adrs.with_word6(0).with_word7(leaf), sks[i], n));
    }
    assert(roots =~= expect);
}

/// The message signed at layer `j` of a hypertree signature of `m`: `m` at
/// the bottom, and above it the root of the XMSS tree of the layer below.
pub open spec fn ht_layer_msg(
    secret: spec_fn(Adrs) -> Seq<u8>,
    len: nat,
    hp: nat,
    m: Seq<u8>,
    idx_tree: u64,
    pk_seed: Seq<u8>,
    j: nat,
    n: nat,
) -> Seq<u8> {
    if j == 0 {
        m
    } else {
        xmss_root(secret, len, hp, pk_seed, layer_adrs(idx_tree, hp, (j - 1) as nat), n)
    }
}

/// The WOTS+ signatures of the hypertree signature of `m` (FIPS 205,
/// Algorithm 11).
pub open spec fn ht_sign_wots(
    secret: spec_fn(Adrs) -> Seq<u8>,
    len: nat,
    hp: nat,
    m: Seq<u8>,
    idx_tree: u64,
    idx_leaf: u32,
    pk_seed: Seq<u8>,
    d: nat,
    n: nat,
) -> Seq<Seq<Seq<u8>>> {
    Seq::new(
        d,
        |j: int|
            xmss_sign_wots(
                secret,
                len,
                ht_layer_msg(secret, len, hp, m, idx_tree, pk_seed, j as nat, n),
                layer_leaf(idx_tree, idx_leaf, hp, j as nat),
                pk_seed,
                layer_adrs(idx_tree, hp, j as nat),
                n,
            ),
    )
}

/// The authentication paths of the hypertree signature (FIPS 205,
/// Algorithm 11).
pub open spec fn ht_sign_auths(
    secret: spec_fn(Adrs) -> Seq<u8>,
    len: nat,
    hp: nat,
    idx_tree: u64,
    idx_leaf: u32,
    pk_seed: Seq<u8>,
    d: nat,
    n: nat,
) -> Seq<Seq<Seq<u8>>> {
    Seq::new(
        d,
        |j: int|
            xmss_sign_auth(
                secret,
                len,
                hp,
                layer_leaf(idx_tree, idx_leaf, hp, j as nat),
                pk_seed,
                layer_adrs(idx_tree, hp, j as nat),
                n,
            ),
    )
}

/// The root recomputed at each layer from a hypertree signature is the root
/// of the XMSS tree of that layer.
pub proof fn lemma_ht_nodes(
    secret: spec_fn(Adrs) -> Seq<u8>,
    len: nat,
    hp: nat,
    m: Seq<u8>,
    idx_tree: u64,
    idx_leaf: u32,
    pk_seed: Seq<u8>,
    d: nat,
    j: nat,
    n: nat,
)
    requires
        hp <= 32,
        idx_leaf < pow2(hp),
        j < d,
    ensures
        ht_node(
            m,
            ht_sign_wots(secret, len, hp, m, idx_tree, idx_leaf, pk_seed, d, n),
            ht_sign_auths(secret, len, hp, idx_tree, idx_leaf, pk_seed, d, n),
            pk_seed,
            idx_tree,
            idx_leaf,
            hp,
            j,
            n,
        ) == xmss_root(secret, len, hp, pk_seed, layer_adrs(idx_tree, hp, j), n),
    decreases j,
{
    if j > 0 {
        lemma_ht_nodes(secret, len, hp, m, idx_tree, idx_leaf, pk_seed, d, (j - 1) as nat, n);
    }
    let leaf = layer_leaf(idx_tree, idx_leaf, hp, j);
    lemma2_to64();
    vstd::arithmetic::power2::lemma_pow2_pos(hp);
    if j > 0 {
        let t = layer_tree(idx_tree, hp, (j - 1) as nat) as nat;
        vstd::arithmetic::div_mod::lemma_mod_bound(t as int, pow2(hp) as int);
        if hp < 32 {
            vstd::arithmetic::power2::lemma_pow2_strictly_increases(hp, 32);
        }
        assert(leaf as nat == t % pow2(hp));
    }
    assert(leaf < pow2(hp));
    law_xmss_correct(
        secret,
        len,
        hp,
        ht_layer_msg(secret, len, hp, m, idx_tree, pk_seed, j, n),
        leaf,
        pk_seed,
        layer_adrs(idx_tree, hp, j),
        n,
    );
}

/// Hypertree correctness: verification accepts the hypertree signature of any
/// message under the root of the XMSS tree of the top layer.
pub proof fn law_ht_correct(
    secret: spec_fn(Adrs) -> Seq<u8>,
    len: nat,
    hp: nat,
    m: Seq<u8>,
    idx_tree: u64,
    idx_leaf: u32,
    pk_seed: Seq<u8>,
    d: nat,
    n: nat,
)
    requires
        hp <= 32,
        idx_leaf < pow2(hp),
        d >= 1,
    ensures
        spec_ht_verify(
            m,
            ht_sign_wots(secret, len, hp, m, idx_tree, idx_leaf, pk_seed, d, n),
            ht_sign_auths(secret, len, hp, idx_tree, idx_leaf, pk_seed, d, n),
            pk_seed,
            idx_tree,
            idx_leaf,
            xmss_root(secret, len, hp, pk_seed, layer_adrs(idx_tree, hp, (d - 1) as nat), n),
            d,
            hp,
            n,
        ),
{
    lemma_ht_nodes(secret, len, hp, m, idx_tree, idx_leaf, pk_seed, d, (d - 1) as nat, n);
}

/// The tree index at layer `j` is the tree index shifted right by `j * hp`
/// bits.
pub proof fn law_layer_tree(x: u64, hp: nat, j: nat)
    requires
        hp < 64,
    ensures
        layer_tree(x, hp, j) as nat == x as nat / pow2(j * hp),
    decreases j,
{
    if j == 0 {
        lemma2_to64();
    } else {
        law_layer_tree(x, hp, (j - 1) as nat);
        let prev = layer_tree(x, hp, (j - 1) as nat);
        vstd::bits::lemma_u64_shr_is_div(prev, hp as u64);
        vstd::arithmetic::power2::lemma_pow2_pos(((j - 1) * hp) as nat);
        vstd::arithmetic::power2::lemma_pow2_pos(hp);
        vstd::arithmetic::div_mod::lemma_div_denominator(x as int, pow2(((j - 1) * hp) as nat) as int, pow2(hp) as int);
        vstd::arithmetic::power2::lemma_pow2_adds(((j - 1) * hp) as nat, hp);
        assert((j - 1) * hp + hp == j * hp) by (nonlinear_arith)
            requires
                j >= 1,
        ;
    }
}

/// Above the bottom layer, the key pair used at layer `j` is given by bits
/// `(j - 1) hp .. j hp` of the tree index, counted from the least
/// significant bit.
pub proof fn law_layer_leaf(x: u64, idx_leaf: u32, hp: nat, j: nat)
    requires
        1 <= hp <= 32,
        j >= 1,
    ensures
        layer_leaf(x, idx_leaf, hp, j) as nat == (x as nat / pow2(((j - 1) * hp) as nat)) % pow2(hp),
        layer_leaf(x, idx_leaf, hp, 0) == idx_leaf,
{
    law_layer_tree(x, hp, (j - 1) as nat);
    vstd::arithmetic::power2::lemma_pow2_pos(hp);
    lemma2_to64();
    if hp < 32 {
        vstd::arithmetic::power2::lemma_pow2_strictly_increases(hp, 32);
    }
    let t = layer_tree(x, hp, (j - 1) as nat) as nat;
    vstd::arithmetic::div_mod::lemma_mod_bound(t as int, pow2(hp) as int);
}

/// The public root of an SLH-DSA key: the root of XMSS tree 0 of the top
/// layer (FIPS 205, Algorithm 18).
pub open spec fn slh_pk_root(secret: spec_fn(Adrs) -> Seq<u8>, len: nat, hp: nat, pk_seed: Seq<u8>, d: nat, n: nat) -> Seq<u8> {
    xmss_root(secret, len, hp, pk_seed, Adrs { layer: (d - 1) as u32, ..Adrs::zero() }, n)
}

/// The address of the FORS key pair that a digest selects.
pub open spec fn digest_fors_adrs(digest: Seq<u8>, a: nat, d: nat, h: nat, k: nat) -> Adrs {
    Adrs { tree: digest_tree_index(digest, a, d, h, k) as u64, ..Adrs::zero() }.with_type(FORS_TREE).with_key_pair(
        digest_leaf_index(digest, a, d, h, k) as u32,
    )
}

/// Whether `sig` is the signature of `msg` that FIPS 205, Algorithm 19
/// (`slh_sign_internal`) produces with the randomizer `sig.randomness`,
/// under the key whose secret values are `secret` and whose public part is
/// `pk`.
pub open spec fn is_slh_signature<
    const A: usize,
    const D: usize,
    const HP: usize,
    const K: usize,
    const LEN: usize,
    const N: usize,
>(
    sig: SlhDsaSig<A, D, HP, K, LEN, N>,
    msg: Seq<u8>,
    pk: SlhPublicKey<N>,
    secret: spec_fn(Adrs) -> Seq<u8>,
    h: nat,
    m: nat,
) -> bool {
    let (a, d, hp, k, len, n) = (A as nat, D as nat, HP as nat, K as nat, LEN as nat, N as nat);
    let digest = spec_h_msg(sig.randomness@, pk.pk_seed@, pk.pk_root@, msg, m);
    let md = digest.subrange(0, md_end(a, k) as int);
    let idx_tree = digest_tree_index(digest, a, d, h, k) as u64;
    let idx_leaf = digest_leaf_index(digest, a, d, h, k) as u32;
    let adrs = digest_fors_adrs(digest, a, d, h, k);
    let pk_fors = fors_pk_gen(secret, a, k, pk.pk_seed@, adrs, n);
    &&& sig.fors_sig.secrets() == fors_sign_secrets(secret, md, a, k, adrs)
    &&& sig.fors_sig.auth_paths() == fors_sign_auths(secret, md, a, k, pk.pk_seed@, adrs, n)
    &&& sig.ht_sig.wots_sigs() == ht_sign_wots(secret, len, hp, pk_fors, idx_tree, idx_leaf, pk.pk_seed@, d, n)
    &&& sig.ht_sig.auth_paths() == ht_sign_auths(secret, len, hp, idx_tree, idx_leaf, pk.pk_seed@, d, n)
}

/// SLH-DSA correctness: verification accepts every signature that signing
/// produces, for every message, randomizer and key.
pub proof fn law_slh_correct<
    const A: usize,
    const D: usize,
    const HP: usize,
    const K: usize,
    const LEN: usize,
    const N: usize,
>(
    sig: SlhDsaSig<A, D, HP, K, LEN, N>,
    msg: Seq<u8>,
    pk: SlhPublicKey<N>,
    secret: spec_fn(Adrs) -> Seq<u8>,
    h: nat,
    m: nat,
)
    requires
        valid_params(A as nat, D as nat, h, HP as nat, K as nat, LEN as nat, m, N as nat),
        h == D * HP,
        pk.pk_root@ == slh_pk_root(secret, LEN as nat, HP as nat, pk.pk_seed@, D as nat, N as nat),
        is_slh_signature(sig, msg, pk, secret, h, m),
    ensures
        spec_slh_verify_internal(msg, sig, pk, h, m),
{
    let (a, d, hp, k, n) = (A as nat, D as nat, HP as nat, K as nat, N as nat);
    let digest = spec_h_msg(sig.randomness@, pk.pk_seed@, pk.pk_root@, msg, m);
    let md = digest.subrange(0, md_end(a, k) as int);
    let tree_nat = digest_tree_index(digest, a, d, h, k);
    let leaf_nat = digest_leaf_index(digest, a, d, h, k);
    let adrs = digest_fors_adrs(digest, a, d, h, k);
    lemma2_to64();
    vstd::arithmetic::power2::lemma2_to64_rest();
    assert(h / d == hp) by (nonlinear_arith)
        requires
            h == d * hp,
            d >= 1,
    ;
    assert(h - h / d == (d - 1) * hp) by (nonlinear_arith)
        requires
            h == d * hp,
            h / d == hp,
            d >= 1,
    ;
    // The leaf index has hp <= 32 bits.
    vstd::arithmetic::power2::lemma_pow2_pos(hp);
    vstd::arithmetic::div_mod::lemma_mod_bound(
        crate::encoding::be_value(
            digest.subrange(crate::slh::tree_end(a, d, h, k) as int, crate::slh::leaf_end(a, d, h, k) as int),
        ) as int,
        pow2(hp) as int,
    );
    if hp < 32 {
        vstd::arithmetic::power2::lemma_pow2_strictly_increases(hp, 32);
    }
    assert(leaf_nat < pow2(hp));
    assert(leaf_nat <= u32::MAX);
    // The tree index has (d - 1) hp <= 64 bits, so the top layer uses tree 0.
    let tb = ((d - 1) * hp) as nat;
    vstd::arithmetic::power2::lemma_pow2_pos(tb);
    vstd::arithmetic::div_mod::lemma_mod_bound(
        crate::encoding::be_value(
            digest.subrange(md_end(a, k) as int, crate::slh::tree_end(a, d, h, k) as int),
        ) as int,
        pow2(tb) as int,
    );
    if tb < 64 {
        vstd::arithmetic::power2::lemma_pow2_strictly_increases(tb, 64);
    }
    assert(tree_nat < pow2(tb));
    let idx_tree = tree_nat as u64;
    assert(idx_tree as nat == tree_nat);
    law_layer_tree(idx_tree, hp, (d - 1) as nat);
    vstd::arithmetic::div_mod::lemma_basic_div(tree_nat as int, pow2(tb) as int);
    assert(layer_tree(idx_tree, hp, (d - 1) as nat) == 0);
    assert(layer_adrs(idx_tree, hp, (d - 1) as nat) == (Adrs { layer: (d - 1) as u32, ..Adrs::zero() }));

    law_fors_correct(secret, md, a, k, pk.pk_seed@, adrs, n);
    let pk_fors = fors_pk_gen(secret, a, k, pk.pk_seed@, adrs, n);
    law_ht_correct(secret, LEN as nat, hp, pk_fors, idx_tree, leaf_nat as u32, pk.pk_seed@, d, n);
}

} // verus!
