//! The hypertree (FIPS 205, section 7): verification of a hypertree
//! signature.

use vstd::prelude::*;
use vstd::arithmetic::power2::{pow2, lemma2_to64, lemma_pow2_strictly_increases};
use crate::adrs::Adrs;
use crate::types::{HtSig, XmssSig};
use crate::xmss::{xmss_pk_from_sig_free, spec_xmss_pk_from_sig};

verus! {

impl<const D: usize, const HP: usize, const LEN: usize, const N: usize> HtSig<D, HP, LEN, N> {
    /// The WOTS+ signatures of the layers, bottom up.
    pub open spec fn wots_sigs(self) -> Seq<Seq<Seq<u8>>> {
        self.xmss_sigs@.map_values(|s: XmssSig<HP, LEN, N>| s.sig_wots.chains())
    }

    /// The authentication paths of the layers, bottom up.
    pub open spec fn auth_paths(self) -> Seq<Seq<Seq<u8>>> {
        self.xmss_sigs@.map_values(|s: XmssSig<HP, LEN, N>| s.auth_path())
    }
}

/// The index of the XMSS tree used at layer `j`: the tree index shifted right
/// by `hp` bits once per layer.
pub open spec fn layer_tree(idx_tree: u64, hp: nat, j: nat) -> u64
    decreases j,
{
    if j == 0 {
        idx_tree
    } else {
        layer_tree(idx_tree, hp, (j - 1) as nat) >> (hp as u64)
    }
}

/// The index of the WOTS+ key pair used at layer `j`: `idx_leaf` at the
/// bottom layer, and above it the low `hp` bits of the tree index of the
/// layer below.
pub open spec fn layer_leaf(idx_tree: u64, idx_leaf: u32, hp: nat, j: nat) -> u32 {
    if j == 0 {
        idx_leaf
    } else {
        (layer_tree(idx_tree, hp, (j - 1) as nat) as nat % pow2(hp)) as u32
    }
}

/// The address of the XMSS tree at layer `j`.
pub open spec fn layer_adrs(idx_tree: u64, hp: nat, j: nat) -> Adrs {
    Adrs { layer: j as u32, tree: layer_tree(idx_tree, hp, j), ..Adrs::zero() }
}

/// The XMSS root recomputed at layer `j` of the hypertree: the bottom layer
/// signs `m`, every other layer signs the root recomputed below it
/// (FIPS 205, Algorithm 12).
pub open spec fn ht_node(
    m: Seq<u8>,
    wots_sigs: Seq<Seq<Seq<u8>>>,
    auths: Seq<Seq<Seq<u8>>>,
    pk_seed: Seq<u8>,
    idx_tree: u64,
    idx_leaf: u32,
    hp: nat,
    j: nat,
    n: nat,
) -> Seq<u8>
    decreases j,
{
    let msg = if j == 0 {
        m
    } else {
        ht_node(m, wots_sigs, auths, pk_seed, idx_tree, idx_leaf, hp, (j - 1) as nat, n)
    };
    spec_xmss_pk_from_sig(
        layer_leaf(idx_tree, idx_leaf, hp, j),
        wots_sigs[j as int],
        auths[j as int],
        msg,
        pk_seed,
        layer_adrs(idx_tree, hp, j),
        hp,
        n,
    )
}

/// FIPS 205, Algorithm 12 (`ht_verify`): whether the root recomputed at the
/// top layer is the public root.
pub open spec fn spec_ht_verify(
    m: Seq<u8>,
    wots_sigs: Seq<Seq<Seq<u8>>>,
    auths: Seq<Seq<Seq<u8>>>,
    pk_seed: Seq<u8>,
    idx_tree: u64,
    idx_leaf: u32,
    pk_root: Seq<u8>,
    d: nat,
    hp: nat,
    n: nat,
) -> bool {
    ht_node(m, wots_sigs, auths, pk_seed, idx_tree, idx_leaf, hp, (d - 1) as nat, n) == pk_root
}

/// Hypertree verification accepts a public root only if it is, byte for
/// byte, the root recomputed at the top layer.
pub proof fn law_ht_verify_accepts_recomputed_root(
    m: Seq<u8>,
    wots_sigs: Seq<Seq<Seq<u8>>>,
    auths: Seq<Seq<Seq<u8>>>,
    pk_seed: Seq<u8>,
    idx_tree: u64,
    idx_leaf: u32,
    pk_root: Seq<u8>,
    d: nat,
    hp: nat,
    n: nat,
)
    ensures
        spec_ht_verify(m, wots_sigs, auths, pk_seed, idx_tree, idx_leaf, pk_root, d, hp, n) <==> (pk_root
            == ht_node(m, wots_sigs, auths, pk_seed, idx_tree, idx_leaf, hp, (d - 1) as nat, n)),
        spec_ht_verify(m, wots_sigs, auths, pk_seed, idx_tree, idx_leaf, pk_root, d, hp, n) ==> forall|t: int|
            0 <= t < pk_root.len() ==> #[trigger] pk_root[t] == ht_node(
                m,
                wots_sigs,
                auths,
                pk_seed,
                idx_tree,
                idx_leaf,
                hp,
                (d - 1) as nat,
                n,
            )[t],
{
}

/// For a given signature, message and indices, hypertree verification
/// accepts at most one public root.
pub proof fn law_ht_verify_unique_root(
    m: Seq<u8>,
    wots_sigs: Seq<Seq<Seq<u8>>>,
    auths: Seq<Seq<Seq<u8>>>,
    pk_seed: Seq<u8>,
    idx_tree: u64,
    idx_leaf: u32,
    r1: Seq<u8>,
    r2: Seq<u8>,
    d: nat,
    hp: nat,
    n: nat,
)
    requires
        spec_ht_verify(m, wots_sigs, auths, pk_seed, idx_tree, idx_leaf, r1, d, hp, n),
        spec_ht_verify(m, wots_sigs, auths, pk_seed, idx_tree, idx_leaf, r2, d, hp, n),
    ensures
        r1 == r2,
{
}

/// Whether two byte arrays are equal.
pub fn bytes_eq<const N: usize>(a: &[u8; N], b: &[u8; N]) -> (r: bool)
    ensures
        r == (a@ == b@),
{
    let mut i: usize = 0;
    while i < N
        invariant
            i <= N,
            a@.len() == N,
            b@.len() == N,
            forall|j: int| 0 <= j < i ==> a@[j] == b@[j],
        decreases N - i,
    {
        if a[i] != b[i] {
            return false;
        }
        i = i + 1;
    }
    proof {
        assert(a@ =~= b@);
    }
    true
}

/// FIPS 205, Algorithm 12 (`ht_verify`): whether `sig_ht` is a hypertree
/// signature of `m` for the tree `idx_tree`, key pair `idx_leaf`, under the
/// public root `pk_root`.
pub fn ht_verify_free<const D: usize, const HP: usize, const LEN: usize, const N: usize>(
    m: &[u8],
    sig_ht: &HtSig<D, HP, LEN, N>,
    pk_seed: &[u8],
    idx_tree: u64,
    idx_leaf: u32,
    pk_root: &[u8; N],
) -> (valid: bool)
    requires
        N <= 32,
        2 * N <= LEN,
        LEN <= u32::MAX,
        N <= m@.len(),
        HP <= 32,
        1 <= D <= u32::MAX,
    ensures
        valid == spec_ht_verify(
            m@,
            sig_ht.wots_sigs(),
            sig_ht.auth_paths(),
            pk_seed@,
            idx_tree,
            idx_leaf,
            pk_root@,
            D as nat,
            HP as nat,
            N as nat,
        ),
        valid == (pk_root@ == ht_node(
            m@,
            sig_ht.wots_sigs(),
            sig_ht.auth_paths(),
            pk_seed@,
            idx_tree,
            idx_leaf,
            HP as nat,
            (D - 1) as nat,
            N as nat,
        )),
{
    let ghost tree0 = idx_tree;
    let mut idx_tree = idx_tree;
    let (d32, hp32) = (D as u32, HP as u32);

    let mut adrs = Adrs::new();
    adrs.set_tree_address(idx_tree);

    let sig_tmp = &sig_ht.xmss_sigs[0];
    let mut node = xmss_pk_from_sig_free::<HP, LEN, N>(idx_leaf, sig_tmp, m, pk_seed, &adrs);
    proof {
        assert(adrs == layer_adrs(tree0, HP as nat, 0));
        assert(sig_ht.wots_sigs()[0] == sig_tmp.sig_wots.chains());
        assert(sig_ht.auth_paths()[0] == sig_tmp.auth_path());
    }

    let mut j: u32 = 1;
    while j < d32
        invariant
            N <= 32,
            2 * N <= LEN,
            LEN <= u32::MAX,
            HP <= 32,
            hp32 == HP,
            d32 == D,
            1 <= j <= d32,
            idx_tree == layer_tree(tree0, HP as nat, (j - 1) as nat),
            adrs.typ == 0 && adrs.key_pair == 0 && adrs.word6 == 0 && adrs.word7 == 0,
            node@ == ht_node(
                m@,
                sig_ht.wots_sigs(),
                sig_ht.auth_paths(),
                pk_seed@,
                tree0,
                idx_leaf,
                HP as nat,
                (j - 1) as nat,
                N as nat,
            ),
        decreases d32 - j,
    {
        let ghost prev_tree = idx_tree;
        proof {
            lemma2_to64();
            vstd::arithmetic::power2::lemma2_to64_rest();
            vstd::bits::lemma_u64_shl_is_mul(1, hp32 as u64);
            vstd::bits::lemma_u64_low_bits_mask_is_mod(idx_tree, HP as nat);
            if HP < 32 {
                lemma_pow2_strictly_increases(HP as nat, 32);
            }
            vstd::arithmetic::div_mod::lemma_mod_bound(idx_tree as int, pow2(HP as nat) as int);
        }
        let masked = idx_tree & ((1u64 << hp32) - 1);
        let idx_leaf_j = match u32::try_from(masked) {
            Ok(v) => v,
            Err(_) => {
                return false;
            },
        };

        idx_tree >>= hp32;

        adrs.set_layer_address(j);
        adrs.set_tree_address(idx_tree);

        let sig_tmp = &sig_ht.xmss_sigs[j as usize];
        proof {
            assert(idx_leaf_j == layer_leaf(tree0, idx_leaf, HP as nat, j as nat));
            assert(idx_tree == layer_tree(tree0, HP as nat, j as nat));
            assert(adrs == layer_adrs(tree0, HP as nat, j as nat));
            assert(sig_ht.wots_sigs()[j as int] == sig_tmp.sig_wots.chains());
            assert(sig_ht.auth_paths()[j as int] == sig_tmp.auth_path());
        }
        node = xmss_pk_from_sig_free::<HP, LEN, N>(idx_leaf_j, sig_tmp, &node, pk_seed, &adrs);
        j = j + 1;
    }

    bytes_eq(&node, pk_root)
}

} // verus!
