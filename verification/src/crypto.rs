//! DNSSEC algorithms, digests and signature verification.
//!
//! The digests and the signature checks are computed by outside crates; what each of them returns
//! is named by a function of its inputs.

use ed25519_dalek::Verifier;
use rsa::BigUint;
use rsa::Pkcs1v15Sign;
use rsa::RsaPublicKey;
use sha1::Digest;
use vstd::prelude::*;

use crate::text::copy_range;
use crate::wire::{be16, read_be16};

verus! {

/// The SHA-1 digest of `data`.
pub uninterp spec fn sha1_of(data: Seq<u8>) -> Seq<u8>;

/// The SHA-256 digest of `data`.
pub uninterp spec fn sha256_of(data: Seq<u8>) -> Seq<u8>;

/// The SHA-384 digest of `data`.
pub uninterp spec fn sha384_of(data: Seq<u8>) -> Seq<u8>;

/// The SHA-512 digest of `data`.
pub uninterp spec fn sha512_of(data: Seq<u8>) -> Seq<u8>;

/// Whether `sig` is the PKCS#1 v1.5 signature of the SHA-1 digest `hashed` under the RSA key with
/// exponent `e` and modulus `n`.
pub uninterp spec fn rsa_sha1_verifies(e: Seq<u8>, n: Seq<u8>, hashed: Seq<u8>, sig: Seq<u8>) -> bool;

/// Whether `sig` is the PKCS#1 v1.5 signature of the SHA-256 digest `hashed` under the RSA key
/// with exponent `e` and modulus `n`.
pub uninterp spec fn rsa_sha256_verifies(e: Seq<u8>, n: Seq<u8>, hashed: Seq<u8>, sig: Seq<u8>) -> bool;

/// Whether `sig` is the PKCS#1 v1.5 signature of the SHA-512 digest `hashed` under the RSA key
/// with exponent `e` and modulus `n`.
pub uninterp spec fn rsa_sha512_verifies(e: Seq<u8>, n: Seq<u8>, hashed: Seq<u8>, sig: Seq<u8>) -> bool;

/// Whether `sig` is an ECDSA P-256 signature of `data` under the SEC1-encoded public point `key`.
pub uninterp spec fn p256_verifies(key: Seq<u8>, data: Seq<u8>, sig: Seq<u8>) -> bool;

/// Whether `sig` is an ECDSA P-384 signature of `data` under the SEC1-encoded public point `key`.
pub uninterp spec fn p384_verifies(key: Seq<u8>, data: Seq<u8>, sig: Seq<u8>) -> bool;

/// Whether `sig` is an Ed25519 signature of `data` under the public key `key`.
pub uninterp spec fn ed25519_verifies(key: Seq<u8>, data: Seq<u8>, sig: Seq<u8>) -> bool;

/// Calls `sha1::Sha1::digest`: the SHA-1 digest of the data, 20 bytes long.
#[verifier::external_body]
pub(crate) fn sha1_digest(data: &[u8]) -> (r: Vec<u8>)
    ensures
        r@ == sha1_of(data@),
        r@.len() == 20,
{
    sha1::Sha1::digest(data).to_vec()
}

/// Calls `sha2::Sha256::digest`: the SHA-256 digest of the data, 32 bytes long.
#[verifier::external_body]
pub(crate) fn sha256_digest(data: &[u8]) -> (r: Vec<u8>)
    ensures
        r@ == sha256_of(data@),
        r@.len() == 32,
{
    sha2::Sha256::digest(data).to_vec()
}

/// Calls `sha2::Sha384::digest`: the SHA-384 digest of the data, 48 bytes long.
#[verifier::external_body]
pub(crate) fn sha384_digest(data: &[u8]) -> (r: Vec<u8>)
    ensures
        r@ == sha384_of(data@),
        r@.len() == 48,
{
    sha2::Sha384::digest(data).to_vec()
}

/// Calls `sha2::Sha512::digest`: the SHA-512 digest of the data, 64 bytes long.
#[verifier::external_body]
fn sha512_digest(data: &[u8]) -> (r: Vec<u8>)
    ensures
        r@ == sha512_of(data@),
        r@.len() == 64,
{
    sha2::Sha512::digest(data).to_vec()
}

/// Calls `rsa::RsaPublicKey::verify` with PKCS#1 v1.5 padding on a SHA-1 digest; a key that the
/// crate refuses verifies nothing, and neither does a digest of another length.
#[verifier::external_body]
fn rsa_sha1_verify(e: &[u8], n: &[u8], hashed: &[u8], sig: &[u8]) -> (r: bool)
    ensures
        r == rsa_sha1_verifies(e@, n@, hashed@, sig@),
{
    match RsaPublicKey::new(BigUint::from_bytes_be(n), BigUint::from_bytes_be(e)) {
        Ok(key) => key.verify(Pkcs1v15Sign::new::<sha1::Sha1>(), hashed, sig).is_ok(),
        Err(_) => false,
    }
}

/// Calls `rsa::RsaPublicKey::verify` with PKCS#1 v1.5 padding on a SHA-256 digest; a key that the
/// crate refuses verifies nothing, and neither does a digest of another length.
#[verifier::external_body]
fn rsa_sha256_verify(e: &[u8], n: &[u8], hashed: &[u8], sig: &[u8]) -> (r: bool)
    ensures
        r == rsa_sha256_verifies(e@, n@, hashed@, sig@),
{
    match RsaPublicKey::new(BigUint::from_bytes_be(n), BigUint::from_bytes_be(e)) {
        Ok(key) => key.verify(Pkcs1v15Sign::new::<sha2::Sha256>(), hashed, sig).is_ok(),
        Err(_) => false,
    }
}

/// Calls `rsa::RsaPublicKey::verify` with PKCS#1 v1.5 padding on a SHA-512 digest; a key that the
/// crate refuses verifies nothing, and neither does a digest of another length.
#[verifier::external_body]
fn rsa_sha512_verify(e: &[u8], n: &[u8], hashed: &[u8], sig: &[u8]) -> (r: bool)
    ensures
        r == rsa_sha512_verifies(e@, n@, hashed@, sig@),
{
    match RsaPublicKey::new(BigUint::from_bytes_be(n), BigUint::from_bytes_be(e)) {
        Ok(key) => key.verify(Pkcs1v15Sign::new::<sha2::Sha512>(), hashed, sig).is_ok(),
        Err(_) => false,
    }
}

/// Calls `p256::ecdsa::VerifyingKey::verify`; a key or a signature that does not parse verifies
/// nothing.
#[verifier::external_body]
fn p256_verify(key: &[u8], data: &[u8], sig: &[u8]) -> (r: bool)
    ensures
        r == p256_verifies(key@, data@, sig@),
{
    match (p256::ecdsa::VerifyingKey::from_sec1_bytes(key), p256::ecdsa::Signature::from_slice(sig)) {
        (Ok(k), Ok(s)) => k.verify(data, &s).is_ok(),
        _ => false,
    }
}

/// Calls `p384::ecdsa::VerifyingKey::verify`; a key or a signature that does not parse verifies
/// nothing.
#[verifier::external_body]
fn p384_verify(key: &[u8], data: &[u8], sig: &[u8]) -> (r: bool)
    ensures
        r == p384_verifies(key@, data@, sig@),
{
    match (p384::ecdsa::VerifyingKey::from_sec1_bytes(key), p384::ecdsa::Signature::from_slice(sig)) {
        (Ok(k), Ok(s)) => k.verify(data, &s).is_ok(),
        _ => false,
    }
}

/// Calls `ed25519_dalek::VerifyingKey::verify`; a key or a signature that does not parse verifies
/// nothing.
#[verifier::external_body]
fn ed25519_verify(key: &[u8], data: &[u8], sig: &[u8]) -> (r: bool)
    ensures
        r == ed25519_verifies(key@, data@, sig@),
{
    match (ed25519_dalek::VerifyingKey::try_from(key), ed25519_dalek::Signature::from_slice(sig)) {
        (Ok(k), Ok(s)) => k.verify(data, &s).is_ok(),
        _ => false,
    }
}

/// The signing algorithms that can be verified.
#[derive(Debug, Clone, Copy, PartialEq, Eq, Structural)]
pub enum DnssecAlgorithm {
    RsaSha1,
    RsaSha256,
    RsaSha512,
    EcdsaP256Sha256,
    EcdsaP384Sha384,
    Ed25519,
}

/// Why a key could not be used.
#[derive(Debug, Clone, Copy, PartialEq, Eq, Structural)]
pub enum CryptoError {
    /// The algorithm number is not one that can be verified.
    UnsupportedAlgorithm(u8),
    /// The key material has the wrong shape for its algorithm.
    InvalidKey,
    /// The key belongs to another algorithm.
    KeyMismatch,
}

/// The algorithm with this number in the DNSSEC registry.
pub open spec fn algorithm_of(n: u8) -> Option<DnssecAlgorithm> {
    match n {
        5 => Some(DnssecAlgorithm::RsaSha1),
        8 => Some(DnssecAlgorithm::RsaSha256),
        10 => Some(DnssecAlgorithm::RsaSha512),
        13 => Some(DnssecAlgorithm::EcdsaP256Sha256),
        14 => Some(DnssecAlgorithm::EcdsaP384Sha384),
        15 => Some(DnssecAlgorithm::Ed25519),
        _ => None,
    }
}

impl TryFrom<u8> for DnssecAlgorithm {
    type Error = CryptoError;

    fn try_from(n: u8) -> (r: Result<Self, CryptoError>) {
        match n {
            5 => Ok(DnssecAlgorithm::RsaSha1),
            8 => Ok(DnssecAlgorithm::RsaSha256),
            10 => Ok(DnssecAlgorithm::RsaSha512),
            13 => Ok(DnssecAlgorithm::EcdsaP256Sha256),
            14 => Ok(DnssecAlgorithm::EcdsaP384Sha384),
            15 => Ok(DnssecAlgorithm::Ed25519),
            _ => Err(CryptoError::UnsupportedAlgorithm(n)),
        }
    }
}

impl vstd::std_specs::convert::TryFromSpecImpl<u8> for DnssecAlgorithm {
    open spec fn obeys_try_from_spec() -> bool {
        true
    }

    open spec fn try_from_spec(n: u8) -> Result<Self, CryptoError> {
        match algorithm_of(n) {
            Some(a) => Ok(a),
            None => Err(CryptoError::UnsupportedAlgorithm(n)),
        }
    }
}

/// Whether signatures of algorithm `n` can be verified.
pub fn algo_supported(n: u8) -> (r: bool)
    ensures
        r == (algorithm_of(n) is Some),
{
    n == 5 || n == 8 || n == 10 || n == 13 || n == 14 || n == 15
}

/// Whether DS digests of type `n` can be computed: SHA-1, SHA-256 and SHA-384.
pub open spec fn digest_supported(n: u8) -> bool {
    n == 1 || n == 2 || n == 4
}

/// Whether DS digests of type `n` can be computed.
pub fn ds_digest_supported(n: u8) -> (r: bool)
    ensures
        r == digest_supported(n),
{
    n == 1 || n == 2 || n == 4
}

/// The name of the NSEC3 hash algorithm `n`; only SHA-1 is defined.
pub fn nsec3_digest_name(n: u8) -> (r: Option<&'static str>)
    ensures
        r is Some <==> n == 1,
        r matches Some(s) ==> s@ == "sha1"@,
{
    if n == 1 {
        Some("sha1")
    } else {
        None
    }
}

/// The digest of type `n` of `data`.
pub open spec fn ds_digest(n: u8, data: Seq<u8>) -> Option<Seq<u8>> {
    match n {
        1 => Some(sha1_of(data)),
        2 => Some(sha256_of(data)),
        4 => Some(sha384_of(data)),
        _ => None,
    }
}

/// Computes the digest of type `n` of `data`; `None` for an unsupported type.
pub fn compute_ds_digest(n: u8, data: &[u8]) -> (r: Option<Vec<u8>>)
    ensures
        match r {
            Some(d) => ds_digest(n, data@) == Some(d@),
            None => ds_digest(n, data@) is None,
        },
        r is Some <==> digest_supported(n),
{
    match n {
        1 => Some(sha1_digest(data)),
        2 => Some(sha256_digest(data)),
        4 => Some(sha384_digest(data)),
        _ => None,
    }
}

/// The key material of a DNSKEY, in the form that its algorithm takes it.
#[derive(Debug, Clone)]
pub enum PublicKey {
    /// An RSA exponent and modulus.
    Rsa(Vec<u8>, Vec<u8>),
    /// A SEC1-encoded point on P-256.
    EcdsaP256(Vec<u8>),
    /// A SEC1-encoded point on P-384.
    EcdsaP384(Vec<u8>),
    /// An Ed25519 key.
    Ed25519(Vec<u8>),
}

/// The model of a `PublicKey`.
pub enum KeyParts {
    Rsa(Seq<u8>, Seq<u8>),
    EcdsaP256(Seq<u8>),
    EcdsaP384(Seq<u8>),
    Ed25519(Seq<u8>),
}

impl View for PublicKey {
    type V = KeyParts;

    open spec fn view(&self) -> KeyParts {
        match *self {
            PublicKey::Rsa(e, n) => KeyParts::Rsa(e@, n@),
            PublicKey::EcdsaP256(k) => KeyParts::EcdsaP256(k@),
            PublicKey::EcdsaP384(k) => KeyParts::EcdsaP384(k@),
            PublicKey::Ed25519(k) => KeyParts::Ed25519(k@),
        }
    }
}

/// The exponent and modulus of an RSA key: a length byte, or a zero and a 16-bit length, and then
/// the exponent and the modulus; the modulus is not empty.
pub open spec fn rsa_parts(key: Seq<u8>) -> Option<(Seq<u8>, Seq<u8>)> {
    if key.len() < 3 {
        None
    } else {
        let (start, elen) = if key[0] == 0 {
            (3int, be16(key, 1) as int)
        } else {
            (1int, key[0] as int)
        };
        if start + elen >= key.len() {
            None
        } else {
            Some((key.subrange(start, start + elen), key.skip(start + elen)))
        }
    }
}

/// The key material `key` as algorithm number `algo` takes it.
pub open spec fn parsed_key(algo: u8, key: Seq<u8>) -> Result<KeyParts, CryptoError> {
    match algorithm_of(algo) {
        None => Err(CryptoError::UnsupportedAlgorithm(algo)),
        Some(DnssecAlgorithm::EcdsaP256Sha256) => if key.len() == 64 {
            Ok(KeyParts::EcdsaP256(seq![4u8] + key))
        } else {
            Err(CryptoError::InvalidKey)
        },
        Some(DnssecAlgorithm::EcdsaP384Sha384) => if key.len() == 96 {
            Ok(KeyParts::EcdsaP384(seq![4u8] + key))
        } else {
            Err(CryptoError::InvalidKey)
        },
        Some(DnssecAlgorithm::Ed25519) => if key.len() == 32 {
            Ok(KeyParts::Ed25519(key))
        } else {
            Err(CryptoError::InvalidKey)
        },
        Some(_) => match rsa_parts(key) {
            Some((e, n)) => Ok(KeyParts::Rsa(e, n)),
            None => Err(CryptoError::InvalidKey),
        },
    }
}

/// The uncompressed SEC1 form of a point: the tag byte 4 and the coordinates.
fn sec1_point(key: &[u8]) -> (r: Vec<u8>)
    ensures
        r@ == seq![4u8] + key@,
{
    let mut v: Vec<u8> = Vec::new();
    v.push(4);
    crate::text::append_bytes(&mut v, key);
    v
}

/// Reads the key material of a DNSKEY of algorithm number `algo`.
pub fn parse_dnskey(algo: u8, key: &[u8]) -> (r: Result<PublicKey, CryptoError>)
    ensures
        match r {
            Ok(k) => parsed_key(algo, key@) == Ok::<KeyParts, CryptoError>(k@),
            Err(e) => parsed_key(algo, key@) == Err::<KeyParts, CryptoError>(e),
        },
{
    if algo == 13 {
        if key.len() == 64 {
            Ok(PublicKey::EcdsaP256(sec1_point(key)))
        } else {
            Err(CryptoError::InvalidKey)
        }
    } else if algo == 14 {
        if key.len() == 96 {
            Ok(PublicKey::EcdsaP384(sec1_point(key)))
        } else {
            Err(CryptoError::InvalidKey)
        }
    } else if algo == 15 {
        if key.len() == 32 {
            assert(key@.subrange(0, 32) =~= key@);
            Ok(PublicKey::Ed25519(copy_range(key, 0, 32)))
        } else {
            Err(CryptoError::InvalidKey)
        }
    } else if algo == 5 || algo == 8 || algo == 10 {
        if key.len() < 3 {
            return Err(CryptoError::InvalidKey);
        }
        let start: usize = if key[0] == 0 {
            3
        } else {
            1
        };
        let elen: usize = if key[0] == 0 {
            read_be16(key, 1) as usize
        } else {
            key[0] as usize
        };
        if elen >= key.len() - start {
            return Err(CryptoError::InvalidKey);
        }
        let e: Vec<u8> = copy_range(key, start, start + elen);
        let n: Vec<u8> = copy_range(key, start + elen, key.len());
        assert(n@ =~= key@.skip(start + elen));
        Ok(PublicKey::Rsa(e, n))
    } else {
        Err(CryptoError::UnsupportedAlgorithm(algo))
    }
}

/// Whether `sig` is a signature of `data` under `key` and `alg`; the key must be one of `alg`.
pub open spec fn verifies(data: Seq<u8>, sig: Seq<u8>, key: KeyParts, alg: DnssecAlgorithm) -> Result<
    bool,
    CryptoError,
> {
    match (alg, key) {
        (DnssecAlgorithm::RsaSha1, KeyParts::Rsa(e, n)) => Ok(rsa_sha1_verifies(e, n, sha1_of(data), sig)),
        (DnssecAlgorithm::RsaSha256, KeyParts::Rsa(e, n)) => Ok(rsa_sha256_verifies(e, n, sha256_of(data), sig)),
        (DnssecAlgorithm::RsaSha512, KeyParts::Rsa(e, n)) => Ok(rsa_sha512_verifies(e, n, sha512_of(data), sig)),
        (DnssecAlgorithm::EcdsaP256Sha256, KeyParts::EcdsaP256(k)) => Ok(p256_verifies(k, data, sig)),
        (DnssecAlgorithm::EcdsaP384Sha384, KeyParts::EcdsaP384(k)) => Ok(p384_verifies(k, data, sig)),
        (DnssecAlgorithm::Ed25519, KeyParts::Ed25519(k)) => Ok(ed25519_verifies(k, data, sig)),
        _ => Err(CryptoError::KeyMismatch),
    }
}

/// Verifies the signature `sig` of `data` with `key` under `alg`.
pub fn verify_sig(data: &[u8], sig: &[u8], key: &PublicKey, alg: DnssecAlgorithm) -> (r: Result<bool, CryptoError>)
    ensures
        r == verifies(data@, sig@, key@, alg),
{
    match (alg, key) {
        (DnssecAlgorithm::RsaSha1, PublicKey::Rsa(e, n)) => {
            let hashed: Vec<u8> = sha1_digest(data);
            Ok(rsa_sha1_verify(e.as_slice(), n.as_slice(), hashed.as_slice(), sig))
        },
        (DnssecAlgorithm::RsaSha256, PublicKey::Rsa(e, n)) => {
            let hashed: Vec<u8> = sha256_digest(data);
            Ok(rsa_sha256_verify(e.as_slice(), n.as_slice(), hashed.as_slice(), sig))
        },
        (DnssecAlgorithm::RsaSha512, PublicKey::Rsa(e, n)) => {
            let hashed: Vec<u8> = sha512_digest(data);
            Ok(rsa_sha512_verify(e.as_slice(), n.as_slice(), hashed.as_slice(), sig))
        },
        (DnssecAlgorithm::EcdsaP256Sha256, PublicKey::EcdsaP256(k)) => Ok(p256_verify(k.as_slice(), data, sig)),
        (DnssecAlgorithm::EcdsaP384Sha384, PublicKey::EcdsaP384(k)) => Ok(p384_verify(k.as_slice(), data, sig)),
        (DnssecAlgorithm::Ed25519, PublicKey::Ed25519(k)) => Ok(ed25519_verify(k.as_slice(), data, sig)),
        _ => Err(CryptoError::KeyMismatch),
    }
}

/// Whether `sig` is a signature of `data` by the DNSKEY material `key` of algorithm number `algo`.
pub open spec fn signed_by(algo: u8, key: Seq<u8>, data: Seq<u8>, sig: Seq<u8>) -> bool {
    match (algorithm_of(algo), parsed_key(algo, key)) {
        (Some(alg), Ok(parts)) => verifies(data, sig, parts, alg) == Ok::<bool, CryptoError>(true),
        _ => false,
    }
}

/// Parses the DNSKEY material `key` of algorithm number `algo` and verifies `sig` with it; any
/// failure counts as a signature that does not verify.
pub fn check_signature(algo: u8, key: &[u8], data: &[u8], sig: &[u8]) -> (r: bool)
    ensures
        r == signed_by(algo, key@, data@, sig@),
{
    match DnssecAlgorithm::try_from(algo) {
        Err(_) => false,
        Ok(alg) => match parse_dnskey(algo, key) {
            Err(_) => false,
            Ok(k) => match verify_sig(data, sig, &k, alg) {
                Ok(b) => b,
                Err(_) => false,
            },
        },
    }
}

} // verus!
