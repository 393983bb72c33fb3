use sha2::{Digest, Sha256};
use slh_verify::adrs::{Adrs, FORS_ROOTS, FORS_TREE, TREE, WOTS_HASH, WOTS_PK};
use slh_verify::encoding::{base_2b, to_byte, to_int};
use slh_verify::fors::fors_pk_from_sig_free;
use slh_verify::hypertree::{bytes_eq, ht_verify_free};
use slh_verify::oracle::{append_bytes, f, h, h_msg, t_l, t_len};
use slh_verify::types::{Auth, ForsSig, HtSig, WotsSig, XmssSig};
use slh_verify::wots::{chain_free, wots_pk_from_sig_free};
use slh_verify::xmss::xmss_pk_from_sig_free;

fn seed16(tag: u8) -> [u8; 16] {
    let mut s = [0u8; 16];
    for (i, x) in s.iter_mut().enumerate() {
        *x = tag.wrapping_mul(13).wrapping_add(i as u8 * 7);
    }
    s
}

fn sample_adrs() -> Adrs {
    let mut a = Adrs::new();
    a.set_layer_address(0x0102_0304);
    a.set_tree_address(0x1112_1314_1516_1718);
    a.set_type_and_clear(0x2122_2324);
    a.set_key_pair_address(0x3132_3334);
    a.set_chain_address(0x4142_4344);
    a.set_hash_address(0x5152_5354);
    a
}

fn sha256(parts: &[&[u8]]) -> [u8; 32] {
    let mut hasher = Sha256::new();
    for p in parts {
        hasher.update(p);
    }
    hasher.finalize().into()
}

#[test]
fn to_int_reads_big_endian() {
    assert_eq!(to_int(&[0x01, 0x02, 0x03], 3), 0x010203);
    assert_eq!(to_int(&[0x05, 0x06], 1), 5);
    assert_eq!(to_int(&[0xff; 8], 8), u64::MAX);
    assert_eq!(to_int(&[0x12, 0x34], 0), 0);
}

#[test]
fn to_byte_writes_big_endian() {
    assert_eq!(to_byte(0x1234, 2), vec![0x12, 0x34]);
    assert_eq!(to_byte(0x1234, 1), vec![0x34]);
    assert_eq!(to_byte(0xdead_beef, 4), vec![0xde, 0xad, 0xbe, 0xef]);
    assert_eq!(to_byte(7, 0), Vec::<u8>::new());
}

#[test]
fn base_2b_splits_bits_in_order() {
    assert_eq!(base_2b(&[0xab, 0xcd], 4, 4), vec![0xa, 0xb, 0xc, 0xd]);
    assert_eq!(base_2b(&[0xab, 0xcd, 0xef], 12, 2), vec![0xabc, 0xdef]);
    assert_eq!(base_2b(&[0b1010_1100], 3, 2), vec![0b101, 0b011]);
    assert_eq!(base_2b(&[0xab, 0xcd], 4, 1), vec![0xa]);
    assert_eq!(base_2b(&[0x12, 0x34, 0x56], 24, 1), vec![0x123456]);
    assert_eq!(base_2b(&[0xff], 8, 0), Vec::<u32>::new());
    assert_eq!(base_2b(&[0x12, 0x34, 0x56, 0x78, 0x9a], 32, 1), vec![0x1234_5678]);
    assert_eq!(base_2b(&[0xff, 0xff, 0xff, 0xff, 0x80], 25, 1), vec![0x1ff_ffff]);
    assert_eq!(base_2b(&[0x00, 0x00, 0x00, 0x01, 0x80], 25, 1), vec![0x0000_0000]);
    assert_eq!(base_2b(&[0x00, 0x00, 0x00, 0x01, 0x80], 20, 2), vec![0, 0x180]);
}

#[test]
fn adrs_compressed_layout() {
    let a = sample_adrs();
    assert_eq!(
        a.to_22_bytes(),
        [
            0x04, 0x11, 0x12, 0x13, 0x14, 0x15, 0x16, 0x17, 0x18, 0x24, 0x31, 0x32, 0x33, 0x34, 0x41, 0x42, 0x43,
            0x44, 0x51, 0x52, 0x53, 0x54,
        ]
    );
    assert_eq!(Adrs::new().to_22_bytes(), [0u8; 22]);
}

#[test]
fn adrs_type_change_clears_following_words() {
    let mut a = sample_adrs();
    a.set_type_and_clear(TREE);
    assert_eq!(a.get_key_pair_address(), 0);
    assert_eq!(a.get_tree_index(), 0);
    assert_eq!(a.layer, 0x0102_0304);
    assert_eq!(a.tree, 0x1112_1314_1516_1718);
    assert_eq!(a.typ, TREE);
    a.set_tree_height(3);
    a.set_tree_index(9);
    assert_eq!(a.word6, 3);
    assert_eq!(a.get_tree_index(), 9);
    assert_eq!((WOTS_HASH, WOTS_PK, TREE, FORS_TREE, FORS_ROOTS), (0, 1, 2, 3, 4));
}

#[test]
fn f_is_truncated_sha256_of_tweak_input() {
    let seed = seed16(1);
    let a = sample_adrs();
    let m1 = seed16(2);
    let expected = sha256(&[&seed, &[0u8; 48], &a.to_22_bytes(), &m1]);
    assert_eq!(f::<16>(&seed, &a, &m1), expected[..16]);
    assert_eq!(f::<32>(&seed, &a, &m1), sha256(&[&seed, &[0u8; 32], &a.to_22_bytes(), &m1]));
    assert_ne!(f::<16>(&seed, &a, &m1), m1);
}

#[test]
fn h_and_t_l_hash_the_concatenation() {
    let seed = seed16(3);
    let a = sample_adrs();
    let (m1, m2) = (seed16(4), seed16(5));
    let expected = sha256(&[&seed, &[0u8; 48], &a.to_22_bytes(), &m1, &m2]);
    assert_eq!(h::<16>(&seed, &a, &m1, &m2), expected[..16]);
    assert_eq!(t_l::<2, 16>(&seed, &a, &[m1, m2]), expected[..16]);
    assert_eq!(t_len::<2, 16>(&seed, &a, &[m1, m2]), expected[..16]);
    assert_ne!(h::<16>(&seed, &a, &m1, &m2), h::<16>(&seed, &a, &m2, &m1));
    assert_eq!(t_l::<1, 16>(&seed, &a, &[m1]), f::<16>(&seed, &a, &m1));
}

fn mgf1(seed: &[u8], len: usize) -> Vec<u8> {
    let mut out = Vec::new();
    let mut counter = 0u32;
    while out.len() < len {
        out.extend_from_slice(&sha256(&[seed, &counter.to_be_bytes()]));
        counter += 1;
    }
    out.truncate(len);
    out
}

#[test]
fn h_msg_is_mgf1_of_inner_digest() {
    let (r, seed, root) = (seed16(6), seed16(7), seed16(8));
    let msg = b"a message in three pieces";
    let pieces: &[&[u8]] = &[&msg[..3], &msg[3..10], &msg[10..]];
    let inner = sha256(&[&r, &seed, &root, msg]);
    let mgf_seed = [&r[..], &seed[..], &inner[..]].concat();
    assert_eq!(h_msg::<30>(&r, &seed, &root, pieces).to_vec(), mgf1(&mgf_seed, 30));
    assert_eq!(h_msg::<34>(&r, &seed, &root, pieces).to_vec(), mgf1(&mgf_seed, 34));
    assert_eq!(h_msg::<70>(&r, &seed, &root, pieces).to_vec(), mgf1(&mgf_seed, 70));
    assert_eq!(h_msg::<0>(&r, &seed, &root, pieces).len(), 0);
    let whole: &[&[u8]] = &[msg];
    assert_eq!(h_msg::<30>(&r, &seed, &root, whole), h_msg::<30>(&r, &seed, &root, pieces));
}

#[test]
fn append_bytes_extends() {
    let mut v = vec![1u8, 2];
    append_bytes(&mut v, &[3, 4, 5]);
    assert_eq!(v, vec![1, 2, 3, 4, 5]);
    append_bytes(&mut v, &[]);
    assert_eq!(v, vec![1, 2, 3, 4, 5]);
}

#[test]
fn chain_steps_compose() {
    let seed = seed16(9);
    let mut a = Adrs::new();
    a.set_chain_address(4);
    let x = seed16(10);
    assert_eq!(chain_free::<16>(x, 5, 0, &seed, &a), x);
    let three = chain_free::<16>(x, 0, 3, &seed, &a);
    assert_eq!(chain_free::<16>(three, 3, 4, &seed, &a), chain_free::<16>(x, 0, 7, &seed, &a));
    // one step is F under hash address i
    let mut b = a;
    b.set_hash_address(5);
    assert_eq!(chain_free::<16>(x, 5, 1, &seed, &a), f::<16>(&seed, &b, &x));
}

fn wots_digits(m: &[u8; 16]) -> [u32; 35] {
    let mut d = [0u32; 35];
    let mut csum = 0u32;
    for i in 0..16 {
        d[2 * i] = (m[i] >> 4) as u32;
        d[2 * i + 1] = (m[i] & 15) as u32;
    }
    for x in &d[..32] {
        csum += 15 - x;
    }
    d[32] = (csum >> 8) & 15;
    d[33] = (csum >> 4) & 15;
    d[34] = csum & 15;
    d
}

fn wots_keys(tag: u8) -> [[u8; 16]; 35] {
    let mut sk = [[0u8; 16]; 35];
    for (i, s) in sk.iter_mut().enumerate() {
        *s = seed16(tag.wrapping_add(i as u8));
    }
    sk
}

fn wots_pk(sk: &[[u8; 16]; 35], seed: &[u8], adrs: &Adrs) -> [u8; 16] {
    let mut a = *adrs;
    let mut ends = [[0u8; 16]; 35];
    for i in 0..35 {
        a.set_chain_address(i as u32);
        ends[i] = chain_free::<16>(sk[i], 0, 15, seed, &a);
    }
    let mut pk_adrs = *adrs;
    pk_adrs.set_type_and_clear(WOTS_PK);
    pk_adrs.set_key_pair_address(adrs.get_key_pair_address());
    t_l::<35, 16>(seed, &pk_adrs, &ends)
}

fn wots_sign(sk: &[[u8; 16]; 35], m: &[u8; 16], seed: &[u8], adrs: &Adrs) -> WotsSig<35, 16> {
    let d = wots_digits(m);
    let mut a = *adrs;
    let mut data = [[0u8; 16]; 35];
    for i in 0..35 {
        a.set_chain_address(i as u32);
        data[i] = chain_free::<16>(sk[i], 0, d[i], seed, &a);
    }
    WotsSig { data }
}

#[test]
fn wots_signature_yields_the_public_key() {
    let seed = seed16(11);
    let mut adrs = Adrs::new();
    adrs.set_layer_address(2);
    adrs.set_tree_address(77);
    adrs.set_key_pair_address(5);
    let sk = wots_keys(50);
    let pk = wots_pk(&sk, &seed, &adrs);
    for m in [[0u8; 16], [0xff; 16], seed16(12)] {
        let sig = wots_sign(&sk, &m, &seed, &adrs);
        assert_eq!(wots_pk_from_sig_free::<35, 16>(&sig, &m, &seed, &adrs).0, pk);
    }
    let sig = wots_sign(&sk, &[1u8; 16], &seed, &adrs);
    assert_ne!(wots_pk_from_sig_free::<35, 16>(&sig, &[2u8; 16], &seed, &adrs).0, pk);
}

/// An XMSS tree of height 2 at `adrs`: its leaves' secret keys and its root.
fn xmss_tree(seed: &[u8], adrs: &Adrs) -> ([[[u8; 16]; 35]; 4], [[u8; 16]; 4], [u8; 16], [u8; 16], [u8; 16]) {
    let mut keys = [[[0u8; 16]; 35]; 4];
    let mut leaves = [[0u8; 16]; 4];
    for j in 0..4 {
        keys[j] = wots_keys(100 + 40 * j as u8);
        let mut a = *adrs;
        a.set_type_and_clear(WOTS_HASH);
        a.set_key_pair_address(j as u32);
        leaves[j] = wots_pk(&keys[j], seed, &a);
    }
    let mut t = *adrs;
    t.set_type_and_clear(TREE);
    t.set_tree_height(1);
    t.set_tree_index(0);
    let n10 = h::<16>(seed, &t, &leaves[0], &leaves[1]);
    t.set_tree_index(1);
    let n11 = h::<16>(seed, &t, &leaves[2], &leaves[3]);
    t.set_tree_height(2);
    t.set_tree_index(0);
    let root = h::<16>(seed, &t, &n10, &n11);
    (keys, leaves, n10, n11, root)
}

#[test]
fn xmss_signature_yields_the_root() {
    let seed = seed16(13);
    let mut adrs = Adrs::new();
    adrs.set_layer_address(1);
    adrs.set_tree_address(3);
    let (keys, leaves, n10, n11, root) = xmss_tree(&seed, &adrs);
    let m = seed16(14);
    for idx in 0..4u32 {
        let mut wa = adrs;
        wa.set_type_and_clear(WOTS_HASH);
        wa.set_key_pair_address(idx);
        let sig_wots = wots_sign(&keys[idx as usize], &m, &seed, &wa);
        let auth = [leaves[(idx ^ 1) as usize], if idx < 2 { n11 } else { n10 }];
        let sig = XmssSig::<2, 35, 16> { sig_wots, auth };
        assert_eq!(xmss_pk_from_sig_free::<2, 35, 16>(idx, &sig, &m, &seed, &adrs), root);
        // claiming another key pair gives another root
        assert_ne!(xmss_pk_from_sig_free::<2, 35, 16>(idx ^ 1, &sig, &m, &seed, &adrs), root);
    }
}

#[test]
fn hypertree_of_two_layers() {
    let seed = seed16(15);
    let idx_tree: u64 = 2;
    let idx_leaf: u32 = 1;
    let m = seed16(16);
    // bottom layer: tree 2; top layer: tree 0, key pair 2 (the low 2 bits of 2)
    let mut bottom = Adrs::new();
    bottom.set_tree_address(idx_tree);
    let (keys0, leaves0, n10_0, n11_0, root0) = xmss_tree(&seed, &bottom);
    let mut top = Adrs::new();
    top.set_layer_address(1);
    top.set_tree_address(0);
    let (keys1, leaves1, n10_1, _n11_1, root1) = xmss_tree(&seed, &top);

    let mut wa = bottom;
    wa.set_type_and_clear(WOTS_HASH);
    wa.set_key_pair_address(idx_leaf);
    let s0 = XmssSig::<2, 35, 16> {
        sig_wots: wots_sign(&keys0[1], &m, &seed, &wa),
        auth: [leaves0[0], n11_0],
    };
    let _ = n10_0;
    let mut wb = top;
    wb.set_type_and_clear(WOTS_HASH);
    wb.set_key_pair_address(2);
    let s1 = XmssSig::<2, 35, 16> {
        sig_wots: wots_sign(&keys1[2], &root0, &seed, &wb),
        auth: [leaves1[3], n10_1],
    };
    let sig = HtSig::<2, 2, 35, 16> { xmss_sigs: [s0, s1] };
    assert!(ht_verify_free::<2, 2, 35, 16>(&m, &sig, &seed, idx_tree, idx_leaf, &root1));
    assert!(!ht_verify_free::<2, 2, 35, 16>(&m, &sig, &seed, idx_tree, idx_leaf, &root0));
    assert!(!ht_verify_free::<2, 2, 35, 16>(&m, &sig, &seed, idx_tree, 0, &root1));
    assert!(!ht_verify_free::<2, 2, 35, 16>(&seed16(17), &sig, &seed, idx_tree, idx_leaf, &root1));
}

#[test]
fn fors_signature_yields_the_public_key() {
    // two trees of height 3
    let seed = seed16(18);
    let mut adrs = Adrs::new();
    adrs.set_tree_address(5);
    adrs.set_type_and_clear(FORS_TREE);
    adrs.set_key_pair_address(6);
    let sk: Vec<[u8; 16]> = (0..16u8).map(|j| seed16(200u8.wrapping_add(j))).collect();
    // level[z][i]: node i at height z across both trees
    let mut level: Vec<Vec<[u8; 16]>> = Vec::new();
    let mut a = adrs;
    let mut leaves = Vec::new();
    for j in 0..16u32 {
        a.set_tree_height(0);
        a.set_tree_index(j);
        leaves.push(f::<16>(&seed, &a, &sk[j as usize]));
    }
    level.push(leaves);
    for z in 1..=3u32 {
        let prev = &level[(z - 1) as usize];
        let mut next = Vec::new();
        for i in 0..(prev.len() / 2) {
            a.set_tree_height(z);
            a.set_tree_index(i as u32);
            next.push(h::<16>(&seed, &a, &prev[2 * i], &prev[2 * i + 1]));
        }
        level.push(next);
    }
    let roots = [level[3][0], level[3][1]];
    let mut pk_adrs = adrs;
    pk_adrs.set_type_and_clear(FORS_ROOTS);
    pk_adrs.set_key_pair_address(6);
    let pk = t_len::<2, 16>(&seed, &pk_adrs, &roots);

    // md selects leaf 5 of tree 0 and leaf 2 of tree 1: bits 101 010
    let md = [0b1010_1000u8];
    let digits = base_2b(&md, 3, 2);
    assert_eq!(digits, vec![5, 2]);
    let mut private_key_value = [[0u8; 16]; 2];
    let mut auth = [Auth::<3, 16> { tree: [[0u8; 16]; 3] }, Auth::<3, 16> { tree: [[0u8; 16]; 3] }];
    for i in 0..2usize {
        let leaf = i * 8 + digits[i] as usize;
        private_key_value[i] = sk[leaf];
        for z in 0..3usize {
            auth[i].tree[z] = level[z][(leaf >> z) ^ 1];
        }
    }
    let sig = ForsSig::<3, 2, 16> { private_key_value, auth };
    assert_eq!(fors_pk_from_sig_free::<3, 2, 16>(&sig, &md, &seed, &adrs).key, pk);
    assert_ne!(fors_pk_from_sig_free::<3, 2, 16>(&sig, &[0u8], &seed, &adrs).key, pk);
}

#[test]
fn bytes_eq_compares_every_byte() {
    assert!(bytes_eq(&[1u8, 2, 3], &[1, 2, 3]));
    assert!(!bytes_eq(&[1u8, 2, 3], &[1, 2, 4]));
    assert!(bytes_eq::<0>(&[], &[]));
}
