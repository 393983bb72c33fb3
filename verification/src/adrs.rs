//! The hash address (ADRS) of FIPS 205, section 4.2, and its 22-byte
//! compressed form used by the SHA2 hash suite (section 11.2).

use vstd::prelude::*;

verus! {

/// Address type of a WOTS+ hash (chain) computation.
pub const WOTS_HASH: u32 = 0;
/// Address type of the compression of a WOTS+ public key.
pub const WOTS_PK: u32 = 1;
/// Address type of a node of an XMSS tree.
pub const TREE: u32 = 2;
/// Address type of a node of a FORS tree.
pub const FORS_TREE: u32 = 3;
/// Address type of the compression of the FORS roots.
pub const FORS_ROOTS: u32 = 4;

/// Big-endian encoding of a 32-bit word.
pub open spec fn be32(x: u32) -> Seq<u8> {
    seq![
        (x / 0x100_0000) as u8,
        ((x / 0x1_0000) % 0x100) as u8,
        ((x / 0x100) % 0x100) as u8,
        (x % 0x100) as u8,
    ]
}

/// Big-endian encoding of a 64-bit word.
pub open spec fn be64(x: u64) -> Seq<u8> {
    be32((x / 0x1_0000_0000) as u32) + be32((x % 0x1_0000_0000) as u32)
}

/// A hash address. The 32-byte address of FIPS 205 is made of eight words:
/// the layer address, three words of tree address (the highest one is always
/// zero here, as the tree address is set from a 64-bit value), the type, and
/// three type-dependent words (key pair address, chain address or tree
/// height, hash address or tree index).
#[derive(Clone, Copy, Debug, PartialEq, Eq, Structural)]
pub struct Adrs {
    pub layer: u32,
    pub tree: u64,
    pub typ: u32,
    pub key_pair: u32,
    pub word6: u32,
    pub word7: u32,
}

impl Adrs {
    /// The all-zero address.
    pub open spec fn zero() -> Adrs {
        Adrs { layer: 0, tree: 0, typ: 0, key_pair: 0, word6: 0, word7: 0 }
    }

    /// The address with a new type and the three words that follow it cleared.
    pub open spec fn with_type(self, typ: u32) -> Adrs {
        Adrs { typ, key_pair: 0, word6: 0, word7: 0, ..self }
    }

    /// The address with the key pair address replaced.
    pub open spec fn with_key_pair(self, i: u32) -> Adrs {
        Adrs { key_pair: i, ..self }
    }

    /// The address with the chain address (or tree height) replaced.
    pub open spec fn with_word6(self, i: u32) -> Adrs {
        Adrs { word6: i, ..self }
    }

    /// The address with the hash address (or tree index) replaced.
    pub open spec fn with_word7(self, i: u32) -> Adrs {
        Adrs { word7: i, ..self }
    }

    /// The 22-byte compressed address ADRS^c of FIPS 205, section 11.2:
    /// the low byte of the layer address, the 8 low bytes of the tree
    /// address, the low byte of the type, and the last 12 bytes.
    pub open spec fn compressed(self) -> Seq<u8> {
        seq![(self.layer % 0x100) as u8] + be64(self.tree) + seq![(self.typ % 0x100) as u8]
            + be32(self.key_pair) + be32(self.word6) + be32(self.word7)
    }

    /// A new address with every word zero.
    pub fn new() -> (a: Adrs)
        ensures
            a == Adrs::zero(),
    {
        Adrs { layer: 0, tree: 0, typ: 0, key_pair: 0, word6: 0, word7: 0 }
    }

    pub fn set_layer_address(&mut self, l: u32)
        ensures
            *final(self) == (Adrs { layer: l, ..*old(self) }),
    {
        self.layer = l;
    }

    pub fn set_tree_address(&mut self, t: u64)
        ensures
            *final(self) == (Adrs { tree: t, ..*old(self) }),
    {
        self.tree = t;
    }

    pub fn set_type_and_clear(&mut self, y: u32)
        ensures
            *final(self) == old(self).with_type(y),
    {
        self.typ = y;
        self.key_pair = 0;
        self.word6 = 0;
        self.word7 = 0;
    }

    pub fn set_key_pair_address(&mut self, i: u32)
        ensures
            *final(self) == old(self).with_key_pair(i),
    {
        self.key_pair = i;
    }

    pub fn set_chain_address(&mut self, i: u32)
        ensures
            *final(self) == old(self).with_word6(i),
    {
        self.word6 = i;
    }

    pub fn set_tree_height(&mut self, z: u32)
        ensures
            *final(self) == old(self).with_word6(z),
    {
        self.word6 = z;
    }

    pub fn set_hash_address(&mut self, i: u32)
        ensures
            *final(self) == old(self).with_word7(i),
    {
        self.word7 = i;
    }

    pub fn set_tree_index(&mut self, i: u32)
        ensures
            *final(self) == old(self).with_word7(i),
    {
        self.word7 = i;
    }

    pub fn get_key_pair_address(&self) -> (r: u32)
        ensures
            r == self.key_pair,
    {
        self.key_pair
    }

    pub fn get_tree_index(&self) -> (r: u32)
        ensures
            r == self.word7,
    {
        self.word7
    }

    /// The compressed address ADRS^c.
    pub fn to_22_bytes(&self) -> (r: [u8; 22])
        ensures
            r@ == self.compressed(),
    {
        let t_hi = (self.tree >> 32u64) as u32;
        let t_lo = (self.tree & 0xffff_ffffu64) as u32;
        let r = [
            (self.layer & 0xff) as u8,
            (t_hi >> 24u32) as u8,
            ((t_hi >> 16u32) & 0xff) as u8,
            ((t_hi >> 8u32) & 0xff) as u8,
            (t_hi & 0xff) as u8,
            (t_lo >> 24u32) as u8,
            ((t_lo >> 16u32) & 0xff) as u8,
            ((t_lo >> 8u32) & 0xff) as u8,
            (t_lo & 0xff) as u8,
            (self.typ & 0xff) as u8,
            (self.key_pair >> 24u32) as u8,
            ((self.key_pair >> 16u32) & 0xff) as u8,
            ((self.key_pair >> 8u32) & 0xff) as u8,
            (self.key_pair & 0xff) as u8,
            (self.word6 >> 24u32) as u8,
            ((self.word6 >> 16u32) & 0xff) as u8,
            ((self.word6 >> 8u32) & 0xff) as u8,
            (self.word6 & 0xff) as u8,
            (self.word7 >> 24u32) as u8,
            ((self.word7 >> 16u32) & 0xff) as u8,
            ((self.word7 >> 8u32) & 0xff) as u8,
            (self.word7 & 0xff) as u8,
        ];
        proof {
            lemma_be32_bytes(self.layer);
            lemma_be32_bytes(t_hi);
            lemma_be32_bytes(t_lo);
            lemma_be32_bytes(self.typ);
            lemma_be32_bytes(self.key_pair);
            lemma_be32_bytes(self.word6);
            lemma_be32_bytes(self.word7);
            lemma_split64(self.tree);
            assert(r@ =~= self.compressed());
        }
        r
    }
}

/// Distinct words have distinct big-endian encodings.
pub proof fn law_be32_injective(x: u32, y: u32)
    ensures
        be32(x) == be32(y) ==> x == y,
{
    if be32(x) == be32(y) {
        assert(be32(x)[0] == be32(y)[0] && be32(x)[1] == be32(y)[1] && be32(x)[2] == be32(y)[2]
            && be32(x)[3] == be32(y)[3]);
        assert(((x / 0x100_0000) as u8 == (y / 0x100_0000) as u8 && ((x / 0x1_0000) % 0x100) as u8 == ((y
            / 0x1_0000) % 0x100) as u8 && ((x / 0x100) % 0x100) as u8 == ((y / 0x100) % 0x100) as u8 && (x
            % 0x100) as u8 == (y % 0x100) as u8) ==> x == y) by (bit_vector);
    }
}

/// The compressed address determines the low byte of the layer address, the
/// tree address, the low byte of the type and the last three words: two
/// addresses that differ in any of them hash under different inputs.
pub proof fn law_compressed_injective(a1: Adrs, a2: Adrs)
    ensures
        a1.compressed().len() == 22,
        a1.compressed() == a2.compressed() ==> a1.layer % 0x100 == a2.layer % 0x100 && a1.tree == a2.tree
            && a1.typ % 0x100 == a2.typ % 0x100 && a1.key_pair == a2.key_pair && a1.word6 == a2.word6
            && a1.word7 == a2.word7,
{
    let c1 = a1.compressed();
    let c2 = a2.compressed();
    if c1 == c2 {
        let hi1 = (a1.tree / 0x1_0000_0000) as u32;
        let lo1 = (a1.tree % 0x1_0000_0000) as u32;
        let hi2 = (a2.tree / 0x1_0000_0000) as u32;
        let lo2 = (a2.tree % 0x1_0000_0000) as u32;
        assert(c1.subrange(1, 5) =~= be32(hi1));
        assert(c2.subrange(1, 5) =~= be32(hi2));
        assert(c1.subrange(5, 9) =~= be32(lo1));
        assert(c2.subrange(5, 9) =~= be32(lo2));
        assert(c1.subrange(10, 14) =~= be32(a1.key_pair));
        assert(c2.subrange(10, 14) =~= be32(a2.key_pair));
        assert(c1.subrange(14, 18) =~= be32(a1.word6));
        assert(c2.subrange(14, 18) =~= be32(a2.word6));
        assert(c1.subrange(18, 22) =~= be32(a1.word7));
        assert(c2.subrange(18, 22) =~= be32(a2.word7));
        law_be32_injective(hi1, hi2);
        law_be32_injective(lo1, lo2);
        law_be32_injective(a1.key_pair, a2.key_pair);
        law_be32_injective(a1.word6, a2.word6);
        law_be32_injective(a1.word7, a2.word7);
        assert(c1[0] == c2[0]);
        assert(c1[9] == c2[9]);
        assert(a1.tree == a2.tree);
    }
}

/// The shifts and masks that the encoder computes give the bytes of `be32`.
pub proof fn lemma_be32_bytes(x: u32)
    ensures
        (x >> 24u32) as u8 == (x / 0x100_0000) as u8,
        ((x >> 16u32) & 0xff) as u8 == ((x / 0x1_0000) % 0x100) as u8,
        ((x >> 8u32) & 0xff) as u8 == ((x / 0x100) % 0x100) as u8,
        (x & 0xff) as u8 == (x % 0x100) as u8,
{
    assert((x >> 24u32) as u8 == (x / 0x100_0000) as u8) by (bit_vector);
    assert(((x >> 16u32) & 0xff) as u8 == ((x / 0x1_0000) % 0x100) as u8) by (bit_vector);
    assert(((x >> 8u32) & 0xff) as u8 == ((x / 0x100) % 0x100) as u8) by (bit_vector);
    assert((x & 0xff) as u8 == (x % 0x100) as u8) by (bit_vector);
}

/// The two halves of a 64-bit word.
proof fn lemma_split64(t: u64)
    ensures
        (t >> 32u64) as u32 == (t / 0x1_0000_0000) as u32,
        (t & 0xffff_ffffu64) as u32 == (t % 0x1_0000_0000) as u32,
{
    assert((t >> 32u64) as u32 == (t / 0x1_0000_0000) as u32) by (bit_vector);
    assert((t & 0xffff_ffffu64) as u32 == (t % 0x1_0000_0000) as u32) by (bit_vector);
}

} // verus!
