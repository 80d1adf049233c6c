//! How key material is laid out, and which check each algorithm stands for.

use crate::crypto::{
    digest_supported, ds_digest, ed25519_verifies, p256_verifies, p384_verifies, parsed_key, rsa_sha1_verifies, rsa_sha256_verifies,
    rsa_sha512_verifies, sha1_of, sha256_of, sha384_of, sha512_of, signed_by, CryptoError, KeyParts,
};
use vstd::prelude::*;

verus! {

/// The numbers of the algorithms with RSA keys.
pub open spec fn is_rsa(algo: u8) -> bool {
    algo == 5 || algo == 8 || algo == 10
}

/// An RSA key is the length of its exponent in one byte, or in two behind a zero, then the exponent and then the modulus: both are
/// read back from it, whichever way the length is written.
pub proof fn law_rsa_key_is_read_back(algo: u8, e: Seq<u8>, n: Seq<u8>, hi: u8, lo: u8)
    requires
        is_rsa(algo),
        n.len() > 0,
    ensures
        0 < e.len() < 256 ==> parsed_key(algo, seq![e.len() as u8] + e + n) == Ok::<KeyParts, CryptoError>(KeyParts::Rsa(e, n)),
        e.len() == hi * 256 + lo ==> parsed_key(algo, seq![0u8, hi, lo] + e + n) == Ok::<KeyParts, CryptoError>(KeyParts::Rsa(e, n)),
{
    if 0 < e.len() < 256 {
        let key = seq![e.len() as u8] + e + n;
        assert(key[0] == e.len());
        assert(key.subrange(1, 1 + e.len() as int) =~= e);
        assert(key.skip(1 + e.len() as int) =~= n);
    }
    if e.len() == hi * 256 + lo {
        let key = seq![0u8, hi, lo] + e + n;
        assert(key[0] == 0 && key[1] == hi && key[2] == lo);
        assert(key.subrange(3, 3 + e.len() as int) =~= e);
        assert(key.skip(3 + e.len() as int) =~= n);
    }
}

/// An RSA key that leaves nothing for the modulus is refused.
pub proof fn law_rsa_key_without_modulus(algo: u8, e: Seq<u8>, hi: u8, lo: u8)
    requires
        is_rsa(algo),
    ensures
        e.len() < 256 && 0 < e.len() ==> parsed_key(algo, seq![e.len() as u8] + e) == Err::<KeyParts, CryptoError>(CryptoError::InvalidKey),
        e.len() <= hi * 256 + lo ==> parsed_key(algo, seq![0u8, hi, lo] + e) == Err::<KeyParts, CryptoError>(CryptoError::InvalidKey),
        parsed_key(algo, seq![]) == Err::<KeyParts, CryptoError>(CryptoError::InvalidKey),
{
    let a = seq![e.len() as u8] + e;
    assert(a[0] == e.len() as u8);
    let b = seq![0u8, hi, lo] + e;
    assert(b[0] == 0 && b[1] == hi && b[2] == lo);
}

/// An RSA signature is checked against the digest that its algorithm names, under the exponent and modulus in the key.
pub proof fn law_rsa_signatures(e: Seq<u8>, n: Seq<u8>, data: Seq<u8>, sig: Seq<u8>)
    requires
        n.len() > 0,
        0 < e.len() < 256,
    ensures
        ({
            let key = seq![e.len() as u8] + e + n;
            &&& signed_by(5, key, data, sig) == rsa_sha1_verifies(e, n, sha1_of(data), sig)
            &&& signed_by(8, key, data, sig) == rsa_sha256_verifies(e, n, sha256_of(data), sig)
            &&& signed_by(10, key, data, sig) == rsa_sha512_verifies(e, n, sha512_of(data), sig)
        }),
{
    law_rsa_key_is_read_back(5, e, n, 0, 0);
    law_rsa_key_is_read_back(8, e, n, 0, 0);
    law_rsa_key_is_read_back(10, e, n, 0, 0);
}

/// A signature on a curve is checked against the data itself. The key is the two coordinates of a point, which are marked as such by
/// a byte of 4, or, with Ed25519, the 32 bytes as they are; a key of another length verifies nothing.
pub proof fn law_curve_signatures(key: Seq<u8>, data: Seq<u8>, sig: Seq<u8>)
    ensures
        key.len() == 64 ==> signed_by(13, key, data, sig) == p256_verifies(seq![4u8] + key, data, sig),
        key.len() == 96 ==> signed_by(14, key, data, sig) == p384_verifies(seq![4u8] + key, data, sig),
        key.len() == 32 ==> signed_by(15, key, data, sig) == ed25519_verifies(key, data, sig),
        key.len() != 64 ==> !signed_by(13, key, data, sig),
        key.len() != 96 ==> !signed_by(14, key, data, sig),
        key.len() != 32 ==> !signed_by(15, key, data, sig),
{
}

/// Nothing is signed with an algorithm that is not among the six.
pub proof fn law_other_algorithms(algo: u8, key: Seq<u8>, data: Seq<u8>, sig: Seq<u8>)
    requires
        !is_rsa(algo) && algo != 13 && algo != 14 && algo != 15,
    ensures
        !signed_by(algo, key, data, sig),
        parsed_key(algo, key) == Err::<KeyParts, CryptoError>(CryptoError::UnsupportedAlgorithm(algo)),
{
}

/// The digests of DS records: SHA-1, SHA-256 and SHA-384 have the numbers 1, 2 and 4, and there is no other.
pub proof fn law_ds_digests(n: u8, data: Seq<u8>)
    ensures
        ds_digest(1, data) == Some(sha1_of(data)),
        ds_digest(2, data) == Some(sha256_of(data)),
        ds_digest(4, data) == Some(sha384_of(data)),
        n != 1 && n != 2 && n != 4 ==> ds_digest(n, data) is None,
        digest_supported(n) == (ds_digest(n, data) is Some),
{
}

} // verus!
