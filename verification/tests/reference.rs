use slh_dsa::{Sha2_128f, Sha2_128s, SigningKey};
use slh_verify::slh::{slh_verify_128s, slh_verify_internal_free};
use slh_verify::types::{Auth, ForsSig, HtSig, SlhDsaSig, SlhPublicKey, WotsSig, XmssSig};

fn block<const N: usize>(b: &[u8], pos: &mut usize) -> [u8; N] {
    let mut out = [0u8; N];
    out.copy_from_slice(&b[*pos..*pos + N]);
    *pos += N;
    out
}

fn parse_sig<
    const A: usize,
    const D: usize,
    const HP: usize,
    const K: usize,
    const LEN: usize,
    const N: usize,
>(b: &[u8]) -> SlhDsaSig<A, D, HP, K, LEN, N> {
    let mut pos = 0usize;
    let randomness = block::<N>(b, &mut pos);
    let mut private_key_value = [[0u8; N]; K];
    let mut auth: [Auth<A, N>; K] = std::array::from_fn(|_| Auth { tree: [[0u8; N]; A] });
    for i in 0..K {
        private_key_value[i] = block::<N>(b, &mut pos);
        for j in 0..A {
            auth[i].tree[j] = block::<N>(b, &mut pos);
        }
    }
    let xmss_sigs: [XmssSig<HP, LEN, N>; D] = std::array::from_fn(|_| {
        let mut data = [[0u8; N]; LEN];
        for c in data.iter_mut() {
            *c = block::<N>(b, &mut pos);
        }
        let mut path = [[0u8; N]; HP];
        for c in path.iter_mut() {
            *c = block::<N>(b, &mut pos);
        }
        XmssSig { sig_wots: WotsSig { data }, auth: path }
    });
    assert_eq!(pos, b.len());
    SlhDsaSig {
        randomness,
        fors_sig: ForsSig { private_key_value, auth },
        ht_sig: HtSig { xmss_sigs },
    }
}

fn parse_pk<const N: usize>(b: &[u8]) -> SlhPublicKey<N> {
    let mut pos = 0usize;
    let pk_seed = block::<N>(b, &mut pos);
    let pk_root = block::<N>(b, &mut pos);
    SlhPublicKey { pk_seed, pk_root }
}

fn seeds(round: u8) -> ([u8; 16], [u8; 16], [u8; 16], [u8; 16]) {
    let f = |tag: u8| {
        let mut s = [0u8; 16];
        for (i, x) in s.iter_mut().enumerate() {
            *x = tag.wrapping_mul(31).wrapping_add(round.wrapping_mul(17)).wrapping_add(i as u8);
        }
        s
    };
    (f(1), f(2), f(3), f(4))
}

#[test]
fn mono_matches_deployed_verify() {
    // One round: signing with SLH-DSA-SHA2-128s is slow in an unoptimized build.
    for round in 0u8..1 {
        let (sk_seed, sk_prf, pk_seed, rand) = seeds(round);
        let sk = SigningKey::<Sha2_128s>::slh_keygen_internal(&sk_seed, &sk_prf, &pk_seed);
        let vk = sk.as_ref().clone();
        let msg = [round, 0x11, 0x22, 0x33, round.wrapping_mul(7)];
        let sig = sk.try_sign_with_context(&msg, &[], Some(&rand)).unwrap();
        let sig_bytes = sig.to_vec();
        assert_eq!(sig_bytes.len(), 7856);

        // empty-context M' framing: 0 || |ctx| || ctx || msg
        let mp: &[&[u8]] = &[&[0u8], &[0u8], &[], &msg];
        let internal_pk = parse_pk::<16>(&vk.to_vec());
        let internal_sig = parse_sig::<12, 7, 9, 14, 35, 16>(&sig_bytes);

        // 1) valid signature: the reference accepts, and so must we
        let deployed_ok = vk.try_verify_with_context(&msg, &[], &sig).is_ok();
        let mono_ok = slh_verify_128s(mp, &internal_sig, &internal_pk);
        assert!(deployed_ok, "deployed verify rejected a fresh valid signature");
        assert_eq!(mono_ok, deployed_ok, "mono disagrees with deployed on valid sig");

        // 2) corrupted signature: both must reject, together
        let mut bad_bytes = sig_bytes.clone();
        bad_bytes[100] ^= 0x01;
        let bad_sig = parse_sig::<12, 7, 9, 14, 35, 16>(&bad_bytes);
        let bad_ref = slh_dsa::Signature::<Sha2_128s>::try_from(bad_bytes.as_slice()).unwrap();
        let deployed_bad = vk.try_verify_with_context(&msg, &[], &bad_ref).is_ok();
        let mono_bad = slh_verify_128s(mp, &bad_sig, &internal_pk);
        assert_eq!(mono_bad, deployed_bad, "mono disagrees with deployed on corrupt sig");
        assert!(!mono_bad, "corrupt signature accepted");

        // 3) wrong message: both must reject, together
        let other = [round, 0x11, 0x22, 0x33, round.wrapping_mul(7).wrapping_add(1)];
        let mp2: &[&[u8]] = &[&[0u8], &[0u8], &[], &other];
        let deployed_wm = vk.try_verify_with_context(&other, &[], &sig).is_ok();
        let mono_wm = slh_verify_128s(mp2, &internal_sig, &internal_pk);
        assert_eq!(mono_wm, deployed_wm, "mono disagrees with deployed on wrong message");
        assert!(!mono_wm, "wrong-message signature accepted");
    }
}

#[test]
fn message_pieces_only_matter_through_their_concatenation() {
    let (sk_seed, sk_prf, pk_seed, rand) = seeds(9);
    let sk = SigningKey::<Sha2_128s>::slh_keygen_internal(&sk_seed, &sk_prf, &pk_seed);
    let vk = sk.as_ref().clone();
    let msg = b"split me anywhere";
    let sig = sk.slh_sign_internal(msg, Some(&rand));
    let internal_pk = parse_pk::<16>(&vk.to_vec());
    let internal_sig = parse_sig::<12, 7, 9, 14, 35, 16>(&sig.to_vec());
    let whole: &[&[u8]] = &[msg];
    let split: &[&[u8]] = &[&msg[..5], &[], &msg[5..11], &msg[11..]];
    assert!(slh_verify_128s(whole, &internal_sig, &internal_pk));
    assert!(slh_verify_128s(split, &internal_sig, &internal_pk));
    let shifted: &[&[u8]] = &[&msg[1..]];
    assert!(!slh_verify_128s(shifted, &internal_sig, &internal_pk));
}

#[test]
fn generic_path_matches_reference_for_sha2_128f() {
    for round in 0u8..3 {
        let (sk_seed, sk_prf, pk_seed, rand) = seeds(round.wrapping_add(40));
        let sk = SigningKey::<Sha2_128f>::slh_keygen_internal(&sk_seed, &sk_prf, &pk_seed);
        let vk = sk.as_ref().clone();
        let msg = [round; 33];
        let sig = sk.slh_sign_internal(&msg, Some(&rand));
        let sig_bytes = sig.to_vec();
        assert_eq!(sig_bytes.len(), 17088);
        let internal_pk = parse_pk::<16>(&vk.to_vec());
        let internal_sig = parse_sig::<6, 22, 3, 33, 35, 16>(&sig_bytes);
        let m: &[&[u8]] = &[&msg];
        assert!(vk.slh_verify_internal(&msg, &sig).is_ok());
        assert!(slh_verify_internal_free::<6, 22, 66, 3, 33, 35, 34, 16>(m, &internal_sig, &internal_pk));

        // a flipped bit in the hypertree part of the signature
        let mut bad = sig_bytes.clone();
        bad[sig_bytes.len() - 1] ^= 0x80;
        let bad_sig = parse_sig::<6, 22, 3, 33, 35, 16>(&bad);
        assert!(!slh_verify_internal_free::<6, 22, 66, 3, 33, 35, 34, 16>(m, &bad_sig, &internal_pk));

        // another public key
        let (s2, p2, q2, _) = seeds(round.wrapping_add(80));
        let other = SigningKey::<Sha2_128f>::slh_keygen_internal(&s2, &p2, &q2);
        let other_pk = parse_pk::<16>(&other.as_ref().to_vec());
        assert!(!slh_verify_internal_free::<6, 22, 66, 3, 33, 35, 34, 16>(m, &internal_sig, &other_pk));
    }
}
