//! Tests of digests and signatures.

use dnsmasq::crypto::{
    algo_supported, check_signature, compute_ds_digest, ds_digest_supported, nsec3_digest_name, parse_dnskey,
    verify_sig, CryptoError, DnssecAlgorithm, PublicKey,
};
use p256::ecdsa::signature::Signer;

/// What the RSA signatures below are signatures of.
const SIGNED: &[u8] = b"what was signed";

const MODULUS: &str = "d12a9c9063ca860a36cc3f1239f43451ff19bb067bb77478f2fbff522ad3abd86b6e1e0e3296b887d321d70c1047bc98\
    bf59d7a0b45d193c6169a595c0bcc6dc8864c77be6c6c71ee60738dc76d4e63b362df0d44ad6429162487580c3281a87\
    7b59436398c00d1507f98b6d412a50c3616e8373b636c9a4a8b27b6e11bc634d";
const SIGNATURE_SHA1: &str = "053289ecc770f5b28d799b7715e98cab135cafb324382104361d8cdfb1ed6e669ba43ee89e57e988b575feea54f3f001\
    df1568a1051059ab701db3d5723d60822aea18387468135b7b5cae1479c9b2308dca292679f2f4cc34fec1bf2f6af26d\
    ae32db26e159909f12c360cd8b516f98797cebf5326c674af5f741150b5d650c";
const SIGNATURE_SHA256: &str = "29d71d6eecf6ac573c5b300c6d08ff5d0763dd01f6eb7ee6d3a684e4515c6dc128a813f55c4e3945cc4c6c11ea4835cb\
    071371bcae94b7b1c99dbf5ba618fff6829ea01f150718bd26eaba5bcaf57079e0d8d6414be8dfab1ca1230286dfbe9f\
    74b6c5a0080548ff909ea28108385ed38e26f858ef798ba2570562c8e06b20c5";
const SIGNATURE_SHA512: &str = "119cb0eb086c23c97d5fecb898f9c438de1dddb8c78ac9210435ee9e292d1680c2074d90a2a005a980de9ca7486ec4ed\
    bc397548b22633382747fa8d96a47d2d05fd37c2f6eb47bec1eff0b9005f69578a380fd7ab454f64a0f4516556b6533c\
    d760d78f74c7ca2db5da14dd05438846f30b349b56543f3328b37b5ba539007c";

/// The bytes that hexadecimal digits stand for.
fn unhex(text: &str) -> Vec<u8> {
    (0..text.len() / 2).map(|i| u8::from_str_radix(&text[2 * i..2 * i + 2], 16).unwrap()).collect()
}

/// The key material with exponent 65537.
fn rsa_key() -> Vec<u8> {
    let mut key = vec![3, 1, 0, 1];
    key.extend_from_slice(&unhex(MODULUS));
    key
}

#[test]
fn digests_are_those_of_their_type() {
    assert_eq!(compute_ds_digest(1, b"abc"), Some(unhex("a9993e364706816aba3e25717850c26c9cd0d89d")));
    assert_eq!(
        compute_ds_digest(2, b"abc"),
        Some(unhex("ba7816bf8f01cfea414140de5dae2223b00361a396177a9cb410ff61f20015ad"))
    );
    assert_eq!(
        compute_ds_digest(4, b"abc"),
        Some(unhex(
            "cb00753f45a35e8bb5a03d699ac65007272c32ab0eded1631a8b605a43ff5bed8086072ba1e7cc2358baeca134c825a7"
        ))
    );
    for n in [0u8, 3, 5, 255] {
        assert_eq!(compute_ds_digest(n, b"abc"), None);
        assert!(!ds_digest_supported(n));
    }
    assert!(ds_digest_supported(1) && ds_digest_supported(2) && ds_digest_supported(4));
}

#[test]
fn some_algorithms_can_be_verified() {
    for n in 0..=255u8 {
        assert_eq!(algo_supported(n), matches!(n, 5 | 8 | 10 | 13 | 14 | 15));
        assert_eq!(algo_supported(n), DnssecAlgorithm::try_from(n).is_ok());
    }
    assert_eq!(DnssecAlgorithm::try_from(3), Err(CryptoError::UnsupportedAlgorithm(3)));
    assert_eq!(nsec3_digest_name(1), Some("sha1"));
    assert_eq!(nsec3_digest_name(2), None);
}

#[test]
fn rsa_signatures_hold_for_their_digest_only() {
    let key = rsa_key();
    for (algo, text) in [(5u8, SIGNATURE_SHA1), (8, SIGNATURE_SHA256), (10, SIGNATURE_SHA512)] {
        let sig = unhex(text);
        assert!(check_signature(algo, &key, SIGNED, &sig), "algorithm {algo}");
        assert!(!check_signature(algo, &key, b"something else", &sig));
        let mut bad = sig.clone();
        bad[60] ^= 1;
        assert!(!check_signature(algo, &key, SIGNED, &bad));
        assert!(!check_signature(algo, &key, SIGNED, &sig[1..]));
        for other in [5u8, 8, 10] {
            assert_eq!(check_signature(other, &key, SIGNED, &sig), other == algo);
        }
    }
}

#[test]
fn the_exponent_of_an_rsa_key_has_one_or_two_length_bytes() {
    let sig = unhex(SIGNATURE_SHA256);
    let mut long = vec![0, 0, 3, 1, 0, 1];
    long.extend_from_slice(&unhex(MODULUS));
    assert!(check_signature(8, &long, SIGNED, &sig));
    match parse_dnskey(8, &long) {
        Ok(PublicKey::Rsa(e, n)) => {
            assert_eq!(e, vec![1, 0, 1]);
            assert_eq!(n, unhex(MODULUS));
        }
        other => panic!("{other:?}"),
    }
    assert!(matches!(parse_dnskey(8, &[3, 1]), Err(CryptoError::InvalidKey)));
    assert!(matches!(parse_dnskey(8, &[3, 1, 0, 1]), Err(CryptoError::InvalidKey)));
    assert!(matches!(parse_dnskey(8, &[0, 1, 0, 1]), Err(CryptoError::InvalidKey)));
    assert!(!check_signature(8, &[3, 1, 0, 1], SIGNED, &sig));
}

#[test]
fn a_key_that_cannot_be_one_verifies_nothing() {
    let sig = unhex(SIGNATURE_SHA256);
    let mut even = rsa_key();
    let last = even.len() - 1;
    even[last] &= 0xfe;
    assert!(parse_dnskey(8, &even).is_ok());
    assert!(!check_signature(8, &even, SIGNED, &sig));
    assert!(parse_dnskey(13, &[0; 64]).is_ok());
    assert!(!check_signature(13, &[0; 64], SIGNED, &[1; 64]));
}

#[test]
fn signatures_on_the_larger_curve_are_verified() {
    let signing = p384::ecdsa::SigningKey::from_slice(&[7; 48]).unwrap();
    let sig: p384::ecdsa::Signature = signing.sign(SIGNED);
    let sig = sig.to_bytes().to_vec();
    let point = signing.verifying_key().to_encoded_point(false);
    let key = &point.as_bytes()[1..];
    assert_eq!(key.len(), 96);
    assert!(check_signature(14, key, SIGNED, &sig));
    assert!(!check_signature(14, key, b"something else", &sig));
    let mut bad = sig.clone();
    bad[0] ^= 1;
    assert!(!check_signature(14, key, SIGNED, &bad));
    assert!(!check_signature(13, key, SIGNED, &sig));
    assert!(matches!(parse_dnskey(14, &key[1..]), Err(CryptoError::InvalidKey)));
}

#[test]
fn signatures_on_the_edwards_curve_are_verified() {
    let signing = ed25519_dalek::SigningKey::from_bytes(&[9; 32]);
    let sig = signing.sign(SIGNED).to_bytes().to_vec();
    let key = signing.verifying_key().to_bytes();
    assert!(check_signature(15, &key, SIGNED, &sig));
    assert!(!check_signature(15, &key, b"something else", &sig));
    let mut bad = sig.clone();
    bad[40] ^= 1;
    assert!(!check_signature(15, &key, SIGNED, &bad));
    assert!(matches!(parse_dnskey(15, &key[1..]), Err(CryptoError::InvalidKey)));
    assert!(!check_signature(15, &key, SIGNED, &sig[1..]));
}

#[test]
fn signatures_on_the_smaller_curve_are_verified() {
    let signing = p256::ecdsa::SigningKey::from_slice(&[5; 32]).unwrap();
    let sig: p256::ecdsa::Signature = signing.sign(SIGNED);
    let sig = sig.to_bytes().to_vec();
    let point = signing.verifying_key().to_encoded_point(false);
    let key = &point.as_bytes()[1..];
    assert!(check_signature(13, key, SIGNED, &sig));
    assert!(!check_signature(13, key, b"something else", &sig));
}

#[test]
fn a_key_of_another_algorithm_is_refused() {
    let key = parse_dnskey(15, &[1; 32]).unwrap();
    assert_eq!(verify_sig(SIGNED, &[0; 64], &key, DnssecAlgorithm::RsaSha256), Err(CryptoError::KeyMismatch));
    assert!(matches!(parse_dnskey(7, &[1; 32]), Err(CryptoError::UnsupportedAlgorithm(7))));
    assert!(!check_signature(7, &[1; 32], SIGNED, &[0; 64]));
}
