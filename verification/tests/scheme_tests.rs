use pairsig::curve::g2_mul;
use pairsig::{
    decode_g1, decode_g2, encode_g1, encode_g2, encode_scalar, hash_to_g1, initialize, key_gen,
    sign, verify, verify_bytes, SigError,
};

#[test]
fn test_sign_and_verify() {
    let ctx = initialize().unwrap();
    let (private_key, public_key, g) = {
        let kp = key_gen(&ctx).unwrap();
        (kp.private_scalar, kp.public_element, kp.generator)
    };
    let msg = vec![1; 20];
    let sig = sign(&ctx, &msg, &private_key);
    let r = verify(&ctx, &msg, &sig, &public_key, &g);
    assert_eq!(r, true);

    let msg = vec![2; 20];
    let r = verify(&ctx, &msg, &sig, &public_key, &g);
    assert_eq!(r, false);
}

#[test]
fn test_key_gen() {
    let ctx = initialize().unwrap();
    let kp = key_gen(&ctx).unwrap();
    let private_key = encode_scalar(&kp.private_scalar);
    let public_key = encode_g2(&kp.public_element);
    let g = encode_g2(&kp.generator);

    println!("{:?} {} {}", private_key, public_key.len(), g.len());
    assert_eq!(private_key.len(), 20);
}

#[test]
fn exact_encoded_widths() {
    let ctx = initialize().unwrap();
    let kp = key_gen(&ctx).unwrap();
    let m = vec![0x01u8; 20];
    let sig = sign(&ctx, &m, &kp.private_scalar);
    assert_eq!(encode_g1(&sig).len(), 21);
    assert_eq!(encode_g2(&kp.public_element).len(), 41);
    assert_eq!(encode_g2(&kp.generator).len(), 41);
    assert!(verify(&ctx, &m, &sig, &kp.public_element, &kp.generator));
    let m2 = vec![0x02u8; 20];
    assert!(!verify(&ctx, &m2, &sig, &kp.public_element, &kp.generator));
}

#[test]
fn hash_is_deterministic_and_total() {
    let zero = vec![0u8; 20];
    let h1 = hash_to_g1(&zero);
    let h2 = hash_to_g1(&zero);
    assert_eq!(h1, h2);
    let other = vec![0xabu8; 20];
    let h3 = hash_to_g1(&other);
    assert_eq!(h3, hash_to_g1(&other));
    assert!(h1 != h3);
}

#[test]
fn sign_is_deterministic() {
    let ctx = initialize().unwrap();
    let kp = key_gen(&ctx).unwrap();
    let msg = b"exact twenty bytes!!".to_vec();
    assert_eq!(msg.len(), 20);
    let s1 = sign(&ctx, &msg, &kp.private_scalar);
    let s2 = sign(&ctx, &msg, &kp.private_scalar);
    assert_eq!(s1, s2);
}

#[test]
fn only_first_twenty_bytes_are_signed() {
    let ctx = initialize().unwrap();
    let kp = key_gen(&ctx).unwrap();
    let long1 = vec![7u8; 32];
    let long2 = {
        let mut m = vec![7u8; 20];
        m.extend_from_slice(&[9u8; 12]);
        m
    };
    let s1 = sign(&ctx, &long1, &kp.private_scalar);
    let s2 = sign(&ctx, &long2, &kp.private_scalar);
    assert_eq!(s1, s2);
    // a short message is zero-padded to 20 bytes
    let short = b"ab".to_vec();
    let padded = {
        let mut m = b"ab".to_vec();
        m.resize(20, 0);
        m
    };
    assert_eq!(sign(&ctx, &short, &kp.private_scalar), sign(&ctx, &padded, &kp.private_scalar));
}

#[test]
fn keypair_invariant_holds() {
    let ctx = initialize().unwrap();
    let kp = key_gen(&ctx).unwrap();
    assert_eq!(g2_mul(kp.private_scalar.v, &kp.generator), kp.public_element);
    let seed = [0x5au8; 32];
    let d1 = pairsig::derive_keypair(&ctx, &seed);
    let d2 = pairsig::derive_keypair(&ctx, &seed);
    assert_eq!(d1.private_scalar, d2.private_scalar);
    assert_eq!(d1.generator, d2.generator);
    assert_eq!(d1.public_element, d2.public_element);
}

#[test]
fn independent_keypairs_differ() {
    let ctx = initialize().unwrap();
    let kp1 = key_gen(&ctx).unwrap();
    let kp2 = key_gen(&ctx).unwrap();
    assert!(kp1.private_scalar != kp2.private_scalar);
    let msg = vec![3u8; 20];
    let sig = sign(&ctx, &msg, &kp1.private_scalar);
    // a signature under one keypair fails under another keypair's pair
    assert!(!verify(&ctx, &msg, &sig, &kp2.public_element, &kp2.generator));
}

#[test]
fn generator_and_public_element_are_bound() {
    let ctx = initialize().unwrap();
    let kp1 = key_gen(&ctx).unwrap();
    let kp2 = key_gen(&ctx).unwrap();
    let msg = vec![4u8; 20];
    let sig = sign(&ctx, &msg, &kp1.private_scalar);
    assert!(verify(&ctx, &msg, &sig, &kp1.public_element, &kp1.generator));
    // right signature, right public element, wrong (but valid) generator
    assert!(!verify(&ctx, &msg, &sig, &kp1.public_element, &kp2.generator));
}

#[test]
fn zero_digest_signs_and_verifies() {
    let ctx = initialize().unwrap();
    let kp = key_gen(&ctx).unwrap();
    let msg = vec![0u8; 20];
    let sig = sign(&ctx, &msg, &kp.private_scalar);
    assert!(verify(&ctx, &msg, &sig, &kp.public_element, &kp.generator));
}

#[test]
fn signature_point_round_trips() {
    let ctx = initialize().unwrap();
    let kp = key_gen(&ctx).unwrap();
    let msg = vec![6u8; 20];
    let sig = sign(&ctx, &msg, &kp.private_scalar);
    let sig_bytes = encode_g1(&sig);
    assert_eq!(decode_g1(&sig_bytes).unwrap(), sig);
    let pk_bytes = encode_g2(&kp.public_element);
    assert_eq!(decode_g2(&pk_bytes).unwrap(), kp.public_element);
    let g_bytes = encode_g2(&kp.generator);
    assert_eq!(decode_g2(&g_bytes).unwrap(), kp.generator);
}

#[test]
fn verify_bytes_distinguishes_garbage_from_mismatch() {
    let ctx = initialize().unwrap();
    let kp = key_gen(&ctx).unwrap();
    let msg = vec![8u8; 20];
    let sig = sign(&ctx, &msg, &kp.private_scalar);
    let sig_bytes = encode_g1(&sig);
    let pk_bytes = encode_g2(&kp.public_element);
    let g_bytes = encode_g2(&kp.generator);
    assert_eq!(verify_bytes(&ctx, &msg, &sig_bytes, &pk_bytes, &g_bytes), Ok(true));
    let other = vec![9u8; 20];
    assert_eq!(verify_bytes(&ctx, &other, &sig_bytes, &pk_bytes, &g_bytes), Ok(false));
    assert_eq!(
        verify_bytes(&ctx, &msg, &sig_bytes[..20], &pk_bytes, &g_bytes),
        Err(SigError::InvalidLength),
    );
    let mut bad_sig = sig_bytes.clone();
    bad_sig[0] = 1;
    assert_eq!(
        verify_bytes(&ctx, &msg, &bad_sig, &pk_bytes, &g_bytes),
        Err(SigError::PointNotOnCurve),
    );
}
