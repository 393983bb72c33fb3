//! XMSS (FIPS 205, section 6): the root of an XMSS tree recomputed from a
//! signature, and the climb along an authentication path that XMSS and FORS
//! share.

use vstd::prelude::*;
use crate::adrs::{Adrs, WOTS_HASH, TREE};
use crate::oracle::{h, tweak_hash};
use crate::types::XmssSig;
use crate::wots::{wots_pk_from_sig_free, spec_wots_pk_from_sig};

verus! {

/// The node reached after climbing `k` levels from `node`, the leaf with
/// index `leaf`, along the authentication path `auth`: at level `k` the
/// address has tree height `k` and tree index `leaf >> k`, and the sibling
/// `auth[k - 1]` goes on the right when bit `k - 1` of `leaf` is 0, on the
/// left otherwise (FIPS 205, Algorithm 10 lines 8-18, Algorithm 17 lines 10-20).
pub open spec fn spec_climb(
    node: Seq<u8>,
    leaf: u32,
    auth: Seq<Seq<u8>>,
    pk_seed: Seq<u8>,
    adrs: Adrs,
    k: nat,
    n: nat,
) -> Seq<u8>
    decreases k,
{
    if k == 0 {
        node
    } else {
        let prev = spec_climb(node, leaf, auth, pk_seed, adrs, (k - 1) as nat, n);
        let a = adrs.with_word6(k as u32).with_word7(leaf >> (k as u32));
        if (leaf >> ((k - 1) as u32)) & 1 == 0 {
            tweak_hash(pk_seed, a, prev + auth[k - 1], n)
        } else {
            tweak_hash(pk_seed, a, auth[k - 1] + prev, n)
        }
    }
}

/// The address of the WOTS+ key pair `idx` of the XMSS tree at `adrs`.
pub open spec fn xmss_wots_adrs(adrs: Adrs, idx: u32) -> Adrs {
    adrs.with_type(WOTS_HASH).with_key_pair(idx)
}

/// FIPS 205, Algorithm 10 (`xmss_pkFromSig`).
pub open spec fn spec_xmss_pk_from_sig(
    idx: u32,
    sig_wots: Seq<Seq<u8>>,
    auth: Seq<Seq<u8>>,
    m: Seq<u8>,
    pk_seed: Seq<u8>,
    adrs: Adrs,
    hp: nat,
    n: nat,
) -> Seq<u8> {
    let wadrs = xmss_wots_adrs(adrs, idx);
    spec_climb(
        spec_wots_pk_from_sig(sig_wots, m, pk_seed, wadrs, n),
        idx,
        auth,
        pk_seed,
        wadrs.with_type(TREE),
        hp,
        n,
    )
}

/// One level up: the parent of node index `x >> k` has index `x >> (k + 1)`,
/// whether the node is a left child (even) or a right child (odd).
pub proof fn lemma_parent_index(x: u32, k: u32)
    requires
        k < 32,
    ensures
        (x >> k) / 2 == x >> ((k + 1) as u32),
        (x >> k) & 1 == 0 || (x >> k) & 1 == 1,
        (x >> k) & 1 == 1 ==> (x >> k) >= 1 && ((x >> k) - 1) / 2 == x >> ((k + 1) as u32),
{
    assert((x >> k) & 1 == 0 || (x >> k) & 1 == 1) by (bit_vector);
    assert((x >> k) / 2 == x >> ((k + 1) as u32)) by (bit_vector)
        requires
            k < 32,
    ;
    assert((x >> k) & 1 == 1 ==> (x >> k) >= 1 && ((x >> k) - 1) / 2 == x >> ((k + 1) as u32))
        by (bit_vector)
        requires
            k < 32,
    ;
}

/// FIPS 205, Algorithm 10 (`xmss_pkFromSig`): the root of the XMSS tree that
/// the signature `sig_xmss` of `m` by key pair `idx` yields.
pub fn xmss_pk_from_sig_free<const HP: usize, const LEN: usize, const N: usize>(
    idx: u32,
    sig_xmss: &XmssSig<HP, LEN, N>,
    m: &[u8],
    pk_seed: &[u8],
    adrs: &Adrs,
) -> (root: [u8; N])
    requires
        N <= 32,
        2 * N <= LEN,
        LEN <= u32::MAX,
        N <= m@.len(),
        HP <= 32,
    ensures
        root@ == spec_xmss_pk_from_sig(
            idx,
            sig_xmss.sig_wots.chains(),
            sig_xmss.auth_path(),
            m@,
            pk_seed@,
            *adrs,
            HP as nat,
            N as nat,
        ),
{
    let hp32 = HP as u32;
    let mut adrs = *adrs;

    adrs.set_type_and_clear(WOTS_HASH);
    adrs.set_key_pair_address(idx);
    let ghost wadrs = adrs;

    let sig = sig_xmss.get_wots_sig();
    let auth = sig_xmss.get_xmss_auth();

    let mut node_0 = wots_pk_from_sig_free::<LEN, N>(sig, m, pk_seed, &adrs).0;
    let ghost node_start = node_0@;

    adrs.set_type_and_clear(TREE);
    adrs.set_tree_index(idx);
    let ghost base = wadrs.with_type(TREE);
    assert(idx >> 0u32 == idx) by (bit_vector);

    let mut k: u32 = 0;
    while k < hp32
        invariant
            N <= 32,
            hp32 == HP,
            HP <= 32,
            k <= hp32,
            auth@.len() == HP,
            *auth == sig_xmss.auth,
            adrs == base.with_word6(adrs.word6).with_word7(adrs.word7),
            adrs.word7 == idx >> k,
            node_0@ == spec_climb(node_start, idx, sig_xmss.auth_path(), pk_seed@, base, k as nat, N as nat),
        decreases hp32 - k,
    {
        adrs.set_tree_height(k + 1);
        proof {
            lemma_parent_index(idx, k);
        }
        let node_1 = if ((idx >> k) & 1) == 0 {
            let tmp = adrs.get_tree_index() / 2;
            adrs.set_tree_index(tmp);
            h::<N>(pk_seed, &adrs, &node_0, &auth[k as usize])
        } else {
            let tmp = (adrs.get_tree_index() - 1) / 2;
            adrs.set_tree_index(tmp);
            h::<N>(pk_seed, &adrs, &auth[k as usize], &node_0)
        };
        proof {
            assert(adrs == base.with_word6((k + 1) as u32).with_word7(idx >> ((k + 1) as u32)));
            assert(sig_xmss.auth_path()[k as int] == auth[k as int]@);
            assert(node_1@ == spec_climb(node_start, idx, sig_xmss.auth_path(), pk_seed@, base, (k + 1) as nat, N as nat));
        }
        node_0 = node_1;
        k = k + 1;
    }

    node_0
}

} // verus!
