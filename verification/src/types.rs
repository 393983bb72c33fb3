//! Parameters shared by every SLH-DSA parameter set, and the structures of
//! signatures and public keys.

use vstd::prelude::*;

verus! {

/// `lg_w`: the number of bits of a WOTS+ message digit.
pub const LGW: u32 = 4;
/// `w = 2^lg_w`: the number of values of a WOTS+ digit.
pub const W: u32 = 16;
/// `len_2`: the number of checksum digits of WOTS+.
pub const LEN2: u32 = 3;

/// A WOTS+ signature: `LEN` chain values of `N` bytes.
pub struct WotsSig<const LEN: usize, const N: usize> {
    pub data: [[u8; N]; LEN],
}

/// A WOTS+ public key.
pub struct WotsPk<const N: usize>(pub [u8; N]);

/// An XMSS signature: a WOTS+ signature and an authentication path of `HP`
/// nodes.
pub struct XmssSig<const HP: usize, const LEN: usize, const N: usize> {
    pub sig_wots: WotsSig<LEN, N>,
    pub auth: [[u8; N]; HP],
}

/// A hypertree signature: one XMSS signature per layer, from the bottom up.
pub struct HtSig<const D: usize, const HP: usize, const LEN: usize, const N: usize> {
    pub xmss_sigs: [XmssSig<HP, LEN, N>; D],
}

/// The authentication path of one FORS tree.
pub struct Auth<const A: usize, const N: usize> {
    pub tree: [[u8; N]; A],
}

/// A FORS signature: `K` revealed secret values and their authentication
/// paths.
pub struct ForsSig<const A: usize, const K: usize, const N: usize> {
    pub private_key_value: [[u8; N]; K],
    pub auth: [Auth<A, N>; K],
}

/// A FORS public key.
pub struct ForsPk<const N: usize> {
    pub key: [u8; N],
}

/// An SLH-DSA signature: the randomizer `R`, a FORS signature and a
/// hypertree signature.
pub struct SlhDsaSig<
    const A: usize,
    const D: usize,
    const HP: usize,
    const K: usize,
    const LEN: usize,
    const N: usize,
> {
    pub randomness: [u8; N],
    pub fors_sig: ForsSig<A, K, N>,
    pub ht_sig: HtSig<D, HP, LEN, N>,
}

/// An SLH-DSA public key.
pub struct SlhPublicKey<const N: usize> {
    pub pk_seed: [u8; N],
    pub pk_root: [u8; N],
}

impl<const LEN: usize, const N: usize> WotsSig<LEN, N> {
    /// The chain values as byte strings.
    pub open spec fn chains(self) -> Seq<Seq<u8>> {
        self.data@.map_values(|b: [u8; N]| b@)
    }
}

impl<const HP: usize, const LEN: usize, const N: usize> XmssSig<HP, LEN, N> {
    /// The authentication path as byte strings.
    pub open spec fn auth_path(self) -> Seq<Seq<u8>> {
        self.auth@.map_values(|b: [u8; N]| b@)
    }

    pub fn get_wots_sig(&self) -> (r: &WotsSig<LEN, N>)
        ensures
            *r == self.sig_wots,
    {
        &self.sig_wots
    }

    pub fn get_xmss_auth(&self) -> (r: &[[u8; N]; HP])
        ensures
            *r == self.auth,
    {
        &self.auth
    }
}

impl<const A: usize, const N: usize> Auth<A, N> {
    /// The authentication path as byte strings.
    pub open spec fn path(self) -> Seq<Seq<u8>> {
        self.tree@.map_values(|b: [u8; N]| b@)
    }
}

} // verus!
