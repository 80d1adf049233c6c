//! Tests of DNSSEC validation.

use dnsmasq::dnssec::nsec::{T_DS, T_NSEC, T_NSEC3};
use dnsmasq::dnssec::reply::{RCODE_NOERROR, RCODE_NXDOMAIN, RCODE_SERVFAIL};
use dnsmasq::dnssec::store::DsState;
use dnsmasq::dnssec::{
    base32_decode, canonicalize_rdata, check_nsec3_coverage, check_signature_time, compute_key_tag, count_labels,
    dec_counter, dnskey_keytag, dnssec_generate_query, dnssec_validate_by_ds, dnssec_validate_ds,
    dnssec_validate_reply, ds_matches_dnskey, errflags_to_ede, explore_rrset, hash_name, hostname_cmp, is_check_date,
    parse_dnskey_rdata, parse_ds_rdata, parse_rrsig_rdata, prove_non_existence, prove_non_existence_nsec,
    prove_non_existence_nsec3, resolve_target, serial_compare_32, setup_timestamp, sort_rrset, timestamp_clock_now_sane,
    type_in_bitmap, validate_rrset, zone_status, DnssecCache, DnssecError, DsData, ParsedNsec, ParsedNsec3,
    ParsedNsec3Raw, RrDescriptor, RrsetValidation, SerialCmp, StatCode, TimestampSetup, DEFAULT_NSEC3_ITERS_LIMIT,
    DNSSEC_FAIL_EXP, DNSSEC_FAIL_NONSEC, DNSSEC_FAIL_NOSIG, DNSSEC_FAIL_NSEC3_ITERS, DNSSEC_FAIL_UPSTREAM,
    EDE_NO_RRSIG, EDE_SIG_EXP, EDE_UNSET, EDE_US_SERVFAIL,
};
use dnsmasq::rfc1035::DnsRr;
use dnsmasq::wire::{name_to_wire, parse_wire_name};
use p256::ecdsa::signature::Signer;
use p256::ecdsa::{Signature, SigningKey, VerifyingKey};
use rand::rngs::OsRng;
use sha1::Sha1;
use sha2::{Digest, Sha256, Sha384};

fn sample_dnskey_rdata() -> Vec<u8> {
    vec![0x01, 0x00, 0x03, 0x08, 0xDE, 0xAD]
}

#[test]
fn test_parse_dnskey_rdata() {
    let rdata = sample_dnskey_rdata();
    let key = parse_dnskey_rdata(&rdata).expect("parse failed");
    assert_eq!(key.flags,     0x0100);
    assert_eq!(key.protocol,  3);
    assert_eq!(key.algorithm, 8);
    assert_eq!(key.public_key, vec![0xDE, 0xAD]);
}

#[test]
fn test_parse_dnskey_rdata_too_short() {
    let result = parse_dnskey_rdata(&[0x01, 0x00, 0x03]);
    assert!(matches!(result, Err(DnssecError::TooShort)));
}

#[test]
fn test_compute_key_tag() {
    let rdata = sample_dnskey_rdata();
    let tag1 = compute_key_tag(&rdata);
    let tag2 = compute_key_tag(&rdata);
    assert_eq!(tag1, tag2);

    assert_eq!(compute_key_tag(&[0x00]), 0);
    assert_eq!(compute_key_tag(&[0xFF, 0xFF]), 0xFFFF);
}

#[test]
fn test_parse_ds_rdata() {
    let rdata = vec![0x04, 0xD2, 0x08, 0x02, 0xAB, 0xCD];
    let ds = parse_ds_rdata(&rdata).expect("parse failed");
    assert_eq!(ds.key_tag,     0x04D2);
    assert_eq!(ds.algorithm,   8);
    assert_eq!(ds.digest_type, 2);
    assert_eq!(ds.digest,      vec![0xAB, 0xCD]);
}

#[test]
fn test_parse_rrsig_rdata() {
    let mut rdata = Vec::new();
    rdata.extend_from_slice(&1u16.to_be_bytes());
    rdata.push(8);
    rdata.push(2);
    rdata.extend_from_slice(&300u32.to_be_bytes());
    rdata.extend_from_slice(&9999u32.to_be_bytes());
    rdata.extend_from_slice(&0u32.to_be_bytes());
    rdata.extend_from_slice(&1234u16.to_be_bytes());
    rdata.push(7); rdata.extend_from_slice(b"example");  // label "example"
    rdata.push(3); rdata.extend_from_slice(b"com");       // label "com"
    rdata.push(0);
    rdata.extend_from_slice(&[0xBE, 0xEF]);

    let sig = parse_rrsig_rdata(&rdata).expect("parse failed");
    assert_eq!(sig.type_covered,  1);
    assert_eq!(sig.algorithm,     8);
    assert_eq!(sig.labels,        2);
    assert_eq!(sig.orig_ttl,      300);
    assert_eq!(sig.key_tag,       1234);
    assert_eq!(sig.signer_name,   "example.com");
    assert_eq!(sig.signature,     vec![0xBE, 0xEF]);
}

#[test]
fn test_ds_matches_dnskey_sha1() {

    let owner = "example.com.";
    let dnskey_rdata = sample_dnskey_rdata();

    let wire = name_to_wire(owner).unwrap();
    let mut hasher = Sha1::new();
    hasher.update(&wire);
    hasher.update(&dnskey_rdata);
    let digest = hasher.finalize().to_vec();

    let ds = DsData {
        key_tag:     compute_key_tag(&dnskey_rdata),
        algorithm:   8,
        digest_type: 1,
        digest:      digest.clone(),
    };

    assert!(ds_matches_dnskey(&ds, &dnskey_rdata, owner));

    let mut bad_ds = ds.clone();
    bad_ds.digest[0] ^= 0xFF;
    assert!(!ds_matches_dnskey(&bad_ds, &dnskey_rdata, owner));
}

#[test]
fn test_ds_matches_dnskey_sha384() {

    let owner = "example.com.";
    let dnskey_rdata = sample_dnskey_rdata();

    let wire = name_to_wire(owner).unwrap();
    let mut hasher = Sha384::new();
    hasher.update(&wire);
    hasher.update(&dnskey_rdata);
    let digest = hasher.finalize().to_vec();

    let ds = DsData {
        key_tag:     compute_key_tag(&dnskey_rdata),
        algorithm:   8,
        digest_type: 4,
        digest:      digest.clone(),
    };

    assert!(ds_matches_dnskey(&ds, &dnskey_rdata, owner));

    let mut bad_ds = ds.clone();
    bad_ds.digest[0] ^= 0xFF;
    assert!(!ds_matches_dnskey(&bad_ds, &dnskey_rdata, owner));
}

#[test]
fn test_ds_matches_dnskey_unsupported_digest_type() {
    let owner = "example.com.";
    let dnskey_rdata = sample_dnskey_rdata();
    let ds = DsData {
        key_tag:     compute_key_tag(&dnskey_rdata),
        algorithm:   8,
        digest_type: 3,
        digest:      vec![0u8; 32],
    };
    assert!(!ds_matches_dnskey(&ds, &dnskey_rdata, owner));
}

#[test]
fn test_ds_matches_dnskey_sha256() {

    let owner = "example.com.";
    let dnskey_rdata = sample_dnskey_rdata();

    let wire = name_to_wire(owner).unwrap();
    let mut hasher = Sha256::new();
    hasher.update(&wire);
    hasher.update(&dnskey_rdata);
    let digest = hasher.finalize().to_vec();

    let ds = DsData {
        key_tag:     compute_key_tag(&dnskey_rdata),
        algorithm:   8,
        digest_type: 2,
        digest:      digest.clone(),
    };

    assert!(ds_matches_dnskey(&ds, &dnskey_rdata, owner));

    let mut bad_ds = ds.clone();
    bad_ds.digest[0] ^= 0xFF;
    assert!(!ds_matches_dnskey(&bad_ds, &dnskey_rdata, owner));
}

#[test]
fn count_labels_basic() {
    assert_eq!(count_labels(""),              0);
    assert_eq!(count_labels("com"),           1);
    assert_eq!(count_labels("example.com"),   2);
    assert_eq!(count_labels("a.b.c.d"),       4);
    assert_eq!(count_labels("sub.example.com"), 3);
}

#[test]
fn count_labels_leading_dot_not_counted() {
    assert_eq!(count_labels(".foo.example.com"), 3);
    assert_eq!(count_labels(".foo"), 1);
}

#[test]
fn serial_compare_equal() {
    assert_eq!(serial_compare_32(42, 42), SerialCmp::Equal);
    assert_eq!(serial_compare_32(0,  0),  SerialCmp::Equal);
    assert_eq!(serial_compare_32(u32::MAX, u32::MAX), SerialCmp::Equal);
}

#[test]
fn serial_compare_less_and_greater() {
    assert_eq!(serial_compare_32(1,  2),  SerialCmp::Less);
    assert_eq!(serial_compare_32(2,  1),  SerialCmp::Greater);
    assert_eq!(serial_compare_32(0xFFFF_FFFE, 0xFFFF_FFFF), SerialCmp::Less);
    assert_eq!(serial_compare_32(0xFFFF_FFFF, 0xFFFF_FFFE), SerialCmp::Greater);
}

#[test]
fn serial_compare_wrap() {
    assert_eq!(serial_compare_32(0xFFFF_FFFF, 1), SerialCmp::Less);
    assert_eq!(serial_compare_32(1, 0xFFFF_FFFF), SerialCmp::Greater);
}

#[test]
fn dec_counter_decrements() {
    let mut c = 3i32;
    assert!(!dec_counter(&mut c)); c_check_eq(c, 2);
    assert!(!dec_counter(&mut c)); c_check_eq(c, 1);
    assert!(!dec_counter(&mut c)); c_check_eq(c, 0);
    assert!( dec_counter(&mut c));
    c_check_eq(c, 0);
}

fn c_check_eq(actual: i32, expected: i32) {
    assert_eq!(actual, expected, "counter mismatch");
}

#[test]
fn base32_decode_empty_string() {
    assert_eq!(base32_decode(""), Some(vec![]));
}

#[test]
fn base32_decode_stops_at_dot() {
    assert_eq!(base32_decode("00.garbage"), base32_decode("00"));
}

#[test]
fn base32_decode_invalid_char() {
    assert!(base32_decode("Z0").is_none());
}

#[test]
fn base32_decode_roundtrip_known() {
    assert!(base32_decode("000").is_none());
    assert!(base32_decode("0000").is_none());
    let result = base32_decode("00000000");
    assert_eq!(result, Some(vec![0u8; 5]));
}

#[test]
fn base32_decode_case_insensitive() {
    let upper = base32_decode("AABBCCDD");
    let lower = base32_decode("aabbccdd");
    assert_eq!(upper, lower);
}

#[test]
fn hash_name_produces_consistent_output() {
    let salt    = b"salty";
    let result1 = hash_name("example.com", salt, 0, |data| data.to_vec());
    let result2 = hash_name("example.com", salt, 0, |data| data.to_vec());
    assert_eq!(result1, result2, "hash_name must be deterministic");
    assert!(result1.is_some());
}

#[test]
fn hash_name_iterations_change_result() {
    let salt   = b"";
    let result0 = hash_name("example.com", salt, 0, |d| {
        let mut v = d.to_vec(); v.push(0xFF); v
    });
    let result1 = hash_name("example.com", salt, 1, |d| {
        let mut v = d.to_vec(); v.push(0xFF); v
    });
    assert_ne!(result0, result1, "additional iterations must change output");
}

#[test]
fn hash_name_invalid_name_returns_none() {
    let long_label = "a".repeat(64);
    let result = hash_name(&long_label, b"", 0, |d| d.to_vec());
    assert!(result.is_none());
}

fn make_rr(rdata: &[u8]) -> DnsRr {
    DnsRr {
        name:  "example.com".to_string(),
        rtype: 1,
        class: 1,
        ttl:   300,
        rdata: rdata.to_vec(),
    }
}

#[test]
fn sort_rrset_orders_lexicographically() {
    let mut rrset = vec![
        make_rr(&[3, 0, 0, 1]),
        make_rr(&[1, 0, 0, 1]),
        make_rr(&[2, 0, 0, 1]),
    ];
    sort_rrset(&mut rrset);
    assert_eq!(rrset[0].rdata[0], 1);
    assert_eq!(rrset[1].rdata[0], 2);
    assert_eq!(rrset[2].rdata[0], 3);
}

#[test]
fn sort_rrset_deduplicates() {
    let mut rrset = vec![
        make_rr(&[1, 2, 3]),
        make_rr(&[1, 2, 3]),
        make_rr(&[4, 5, 6]),
    ];
    sort_rrset(&mut rrset);
    assert_eq!(rrset.len(), 2, "duplicate should be removed");
}

#[test]
fn sort_rrset_single_element_unchanged() {
    let mut rrset = vec![make_rr(&[10, 20])];
    sort_rrset(&mut rrset);
    assert_eq!(rrset.len(), 1);
    assert_eq!(rrset[0].rdata, [10, 20]);
}

fn make_typed_rr(name: &str, rtype: u16, rdata: &[u8]) -> DnsRr {
    DnsRr {
        name: name.to_string(), rtype, class: 1, ttl: 300, rdata: rdata.to_vec(),
    }
}

fn rrsig_rdata_for(type_covered: u16, signer: &str) -> Vec<u8> {
    let mut r = Vec::new();
    r.extend_from_slice(&type_covered.to_be_bytes());
    r.push(8);
    r.push(2);
    r.extend_from_slice(&300u32.to_be_bytes());
    r.extend_from_slice(&u32::MAX.to_be_bytes());
    r.extend_from_slice(&0u32.to_be_bytes());
    r.extend_from_slice(&1234u16.to_be_bytes());
    r.extend_from_slice(&name_to_wire(signer).unwrap());
    r.push(0x01);
    r
}

#[test]
fn explore_rrset_splits_rrs_and_rrsigs() {
    let records = vec![
        make_typed_rr("example.com", 1,  &[1, 2, 3, 4]),
        make_typed_rr("example.com", 1,  &[5, 6, 7, 8]),
        make_typed_rr("example.com", 46, &rrsig_rdata_for(1, "example.com")),
        make_typed_rr("example.com", 28, &[0u8; 16]),
    ];
    let (rrset, rrsigs) = explore_rrset(&records, "example.com", 1, 1);
    assert_eq!(rrset.len(),  2, "two A records");
    assert_eq!(rrsigs.len(), 1, "one RRSIG covering A");
}

#[test]
fn explore_rrset_ignores_wrong_class() {
    let records = vec![
        make_typed_rr("example.com", 1, &[1, 2, 3, 4]),
    ];
    let mut rr = make_typed_rr("example.com", 1, &[1, 2, 3, 4]);
    rr.class = 2;
    let records2 = vec![rr];
    let (rrset, _) = explore_rrset(&records2, "example.com", 1, 1);
    assert!(rrset.is_empty(), "wrong class must be excluded");
}

#[test]
fn explore_rrset_excludes_rrsig_for_other_type() {
    let rrsig_aaaa = make_typed_rr("example.com", 46, &rrsig_rdata_for(28, "example.com"));
    let records = vec![
        make_typed_rr("example.com", 1, &[1, 2, 3, 4]),
        rrsig_aaaa,
    ];
    let (_, rrsigs) = explore_rrset(&records, "example.com", 1, 1);
    assert!(rrsigs.is_empty(), "RRSIG for AAAA must not be included for A query");
}

#[test]
fn validate_rrset_no_signatures_returns_no_signatures() {
    let rrset = vec![make_rr(&[1, 2, 3, 4])];
    let mut counter = 100i32;
    let result = validate_rrset(&rrset, &[], "example.com", 1, 1, 1000, None, &mut counter);
    assert_eq!(result, RrsetValidation::NoSignatures);
}

#[test]
fn validate_rrset_need_key_when_no_dnskey_provided() {
    let rrsig_rr = make_typed_rr(
        "example.com", 46,
        &rrsig_rdata_for(1, "example.com"),
    );
    let rrset = vec![make_rr(&[1, 2, 3, 4])];
    let mut counter = 100i32;
    let result = validate_rrset(
        &rrset, &[&rrsig_rr], "example.com", 1, 1,
 500_000, None, &mut counter,
    );
    match result {
        RrsetValidation::NeedKey { key_tag, .. } => assert_eq!(key_tag, 1234),
        other => panic!("expected NeedKey, got {other:?}"),
    }
}

#[test]
fn validate_rrset_expired_signature_is_bogus() {
    let mut rdata = rrsig_rdata_for(1, "example.com");
    rdata[8..12].copy_from_slice(&100u32.to_be_bytes());
    let rrsig_rr = make_typed_rr("example.com", 46, &rdata);
    let rrset = vec![make_rr(&[1, 2, 3, 4])];
    let mut counter = 100i32;
    let fake_key = vec![0u8; 4];
    let result = validate_rrset(
        &rrset, &[&rrsig_rr], "example.com", 1, 1,
 1000, Some(&fake_key), &mut counter,
    );
    assert!(matches!(result, RrsetValidation::Bogus(_)));
}

#[test]
fn validate_rrset_not_yet_valid_signature_is_bogus() {
    let mut rdata = rrsig_rdata_for(1, "example.com");
    rdata[12..16].copy_from_slice(&2_000_000u32.to_be_bytes());
    let rrsig_rr = make_typed_rr("example.com", 46, &rdata);
    let rrset = vec![make_rr(&[1, 2, 3, 4])];
    let mut counter = 100i32;
    let fake_key = vec![0u8; 4];
    let result = validate_rrset(
        &rrset, &[&rrsig_rr], "example.com", 1, 1,
 1000, Some(&fake_key), &mut counter,
    );
    assert!(matches!(result, RrsetValidation::Bogus(_)));
}

fn build_ecdsa_p256_scenario(
    signing_key: &SigningKey,
    sig_inception: u32,
    sig_expiry: u32,
) -> (Vec<DnsRr>, DnsRr) {

    const ALGO: u8 = 13;
    let name = "example.com";
    let rrtype: u16 = 1;
    let rrclass: u16 = 1;
    let orig_ttl: u32 = 300;
    let key_tag: u16 = 1234;
    let labels: u8 = 2;

    let rr = make_rr(&[1, 2, 3, 4]);

    let mut header = Vec::new();
    header.extend_from_slice(&rrtype.to_be_bytes());
    header.push(ALGO);
    header.push(labels);
    header.extend_from_slice(&orig_ttl.to_be_bytes());
    header.extend_from_slice(&sig_expiry.to_be_bytes());
    header.extend_from_slice(&sig_inception.to_be_bytes());
    header.extend_from_slice(&key_tag.to_be_bytes());

    let wire_name = name_to_wire(name).unwrap();

    let mut signed_data = Vec::new();
    signed_data.extend_from_slice(&header);
    signed_data.extend_from_slice(&wire_name);
    signed_data.extend_from_slice(&wire_name);
    signed_data.extend_from_slice(&rrtype.to_be_bytes());
    signed_data.extend_from_slice(&rrclass.to_be_bytes());
    signed_data.extend_from_slice(&orig_ttl.to_be_bytes());
    let rdlen = rr.rdata.len() as u16;
    signed_data.extend_from_slice(&rdlen.to_be_bytes());
    signed_data.extend_from_slice(&rr.rdata);

    let signature: Signature = signing_key.sign(&signed_data);
    let sig_bytes = signature.to_bytes().to_vec();

    let mut rrsig_rdata = header.clone();
    rrsig_rdata.extend_from_slice(&wire_name);
    rrsig_rdata.extend_from_slice(&sig_bytes);

    let rrsig_rr = make_typed_rr(name, 46, &rrsig_rdata);

    (vec![rr], rrsig_rr)
}

fn dnskey_rdata_for_ecdsa_p256(verifying_key: &VerifyingKey) -> Vec<u8> {

    let point = verifying_key.to_encoded_point(false);
    let uncompressed = point.as_bytes();

    let mut dnskey_rdata = Vec::new();
    dnskey_rdata.extend_from_slice(&0x0100u16.to_be_bytes());
    dnskey_rdata.push(3);
    dnskey_rdata.push(13);
    dnskey_rdata.extend_from_slice(&uncompressed[1..]);
    dnskey_rdata
}

#[test]
fn validate_rrset_valid_ecdsa_signature_is_secure() {

    let signing_key = SigningKey::random(&mut OsRng);
    let (rrset, rrsig_rr) = build_ecdsa_p256_scenario(&signing_key, 0, u32::MAX);
    let dnskey_rdata = dnskey_rdata_for_ecdsa_p256(signing_key.verifying_key());

    let mut counter = 100i32;
    let result = validate_rrset(
        &rrset, &[&rrsig_rr], "example.com", 1, 1,
 500_000, Some(&dnskey_rdata), &mut counter,
    );
    assert!(matches!(result, RrsetValidation::Secure { .. }), "expected Secure, got {result:?}");
}

#[test]
fn validate_rrset_corrupted_signature_is_bogus() {

    let signing_key = SigningKey::random(&mut OsRng);
    let (rrset, mut rrsig_rr) = build_ecdsa_p256_scenario(&signing_key, 0, u32::MAX);
    let dnskey_rdata = dnskey_rdata_for_ecdsa_p256(signing_key.verifying_key());

    let last = rrsig_rr.rdata.len() - 1;
    rrsig_rr.rdata[last] ^= 0xff;

    let mut counter = 100i32;
    let result = validate_rrset(
        &rrset, &[&rrsig_rr], "example.com", 1, 1,
 500_000, Some(&dnskey_rdata), &mut counter,
    );
    assert!(matches!(result, RrsetValidation::Bogus(_)), "corrupted signature must not validate, got {result:?}");
}

#[test]
fn validate_rrset_wrong_key_is_bogus() {

    let signing_key = SigningKey::random(&mut OsRng);
    let (rrset, rrsig_rr) = build_ecdsa_p256_scenario(&signing_key, 0, u32::MAX);

    let wrong_key = SigningKey::random(&mut OsRng);
    let dnskey_rdata = dnskey_rdata_for_ecdsa_p256(wrong_key.verifying_key());

    let mut counter = 100i32;
    let result = validate_rrset(
        &rrset, &[&rrsig_rr], "example.com", 1, 1,
 500_000, Some(&dnskey_rdata), &mut counter,
    );
    assert!(matches!(result, RrsetValidation::Bogus(_)), "wrong key must not validate, got {result:?}");
}

#[test]
fn validate_rrset_unsupported_algorithm_is_bogus() {
    let mut rdata = rrsig_rdata_for(1, "example.com");
    rdata[2] = 1;
    let rrsig_rr = make_typed_rr("example.com", 46, &rdata);
    let rrset = vec![make_rr(&[1, 2, 3, 4])];
    let mut counter = 100i32;
    let fake_key = vec![0u8; 4];
    let result = validate_rrset(
        &rrset, &[&rrsig_rr], "example.com", 1, 1,
 500_000, Some(&fake_key), &mut counter,
    );
    assert!(matches!(result, RrsetValidation::Bogus(_)), "unsupported algorithm must not validate, got {result:?}");
}

#[test]
fn hostname_cmp_equal() {
    assert_eq!(hostname_cmp("example.com", "example.com"), std::cmp::Ordering::Equal);
}

#[test]
fn hostname_cmp_case_insensitive() {
    assert_eq!(hostname_cmp("Example.COM", "example.com"), std::cmp::Ordering::Equal);
}

#[test]
fn hostname_cmp_different_tld() {
    assert_eq!(hostname_cmp("a.com", "a.org"), std::cmp::Ordering::Less);
    assert_eq!(hostname_cmp("a.org", "a.com"), std::cmp::Ordering::Greater);
}

#[test]
fn hostname_cmp_subdomain_before_parent() {
    assert_eq!(hostname_cmp("a.example.com", "b.example.com"), std::cmp::Ordering::Less);
}

#[test]
fn hostname_cmp_fewer_labels_is_less() {
    assert_eq!(hostname_cmp("com", "example.com"), std::cmp::Ordering::Less);
}

#[test]
fn hostname_cmp_trailing_dot() {
    assert_eq!(hostname_cmp("example.com.", "example.com"), std::cmp::Ordering::Equal);
}

#[test]
fn errflags_to_ede_upstream() {
    assert_eq!(errflags_to_ede(DNSSEC_FAIL_UPSTREAM), EDE_US_SERVFAIL);
}

#[test]
fn errflags_to_ede_expired() {
    assert_eq!(errflags_to_ede(DNSSEC_FAIL_EXP), EDE_SIG_EXP);
}

#[test]
fn errflags_to_ede_nosig() {
    assert_eq!(errflags_to_ede(DNSSEC_FAIL_NOSIG), EDE_NO_RRSIG);
}

#[test]
fn errflags_to_ede_zero() {
    assert_eq!(errflags_to_ede(0), EDE_UNSET);
}

#[test]
fn errflags_to_ede_priority_upstream_wins() {
    assert_eq!(
        errflags_to_ede(DNSSEC_FAIL_UPSTREAM | DNSSEC_FAIL_NOSIG),
        EDE_US_SERVFAIL
    );
}

#[test]
fn dnskey_keytag_standard() {
    let key = vec![0x03, 0x01, 0x00, 0x01, 0xAB, 0xCD];
    let tag = dnskey_keytag(8, 256, &key);
    assert!(tag > 0);
}

#[test]
fn dnskey_keytag_rsamd5_special() {
    let key = vec![0x00, 0x00, 0xDE, 0xAD, 0xBE, 0xEF];
    let tag = dnskey_keytag(1, 256, &key);
    assert_eq!(tag, 0xDE * 256 + 0xAD);
}

#[test]
fn dnskey_keytag_empty_key() {
    let tag = dnskey_keytag(8, 256, &[]);
    assert!(tag > 0);
}

#[test]
fn type_in_bitmap_a_record() {
    let bitmap = vec![0u8, 4, 0x40, 0x00, 0x00, 0x00];
    assert!(type_in_bitmap(&bitmap, 1));
    assert!(!type_in_bitmap(&bitmap, 2));
}

#[test]
fn type_in_bitmap_ns_and_soa() {
    let bitmap = vec![0u8, 1, 0x22];
    assert!(type_in_bitmap(&bitmap, 2));
    assert!(type_in_bitmap(&bitmap, 6));
    assert!(!type_in_bitmap(&bitmap, 1));
}

#[test]
fn type_in_bitmap_high_type() {
    let bitmap = vec![0u8, 6, 0, 0, 0, 0, 0, 0x02];
    assert!(type_in_bitmap(&bitmap, 46));
    assert!(!type_in_bitmap(&bitmap, 45));
}

#[test]
fn type_in_bitmap_empty() {
    assert!(!type_in_bitmap(&[], 1));
}

#[test]
fn type_in_bitmap_type_not_in_any_window() {
    let bitmap = vec![0u8, 1, 0xFF];
    assert!(!type_in_bitmap(&bitmap, 256));
}

#[test]
fn dnssec_generate_query_structure() {
    let pkt = dnssec_generate_query("example.com", 1, 48, 0x1234);
    assert_eq!(pkt[0], 0x12);
    assert_eq!(pkt[1], 0x34);
    assert_eq!(pkt[2], 0x01);
    assert_eq!(u16::from_be_bytes([pkt[4], pkt[5]]), 1);
    assert_eq!(u16::from_be_bytes([pkt[6], pkt[7]]), 0);
    assert_eq!(u16::from_be_bytes([pkt[8], pkt[9]]), 0);
    assert_eq!(u16::from_be_bytes([pkt[10], pkt[11]]), 0);
    assert_eq!(pkt[12], 7); // "example" label length
    assert_eq!(&pkt[13..20], b"example");
    assert_eq!(pkt[20], 3); // "com" label length
    assert_eq!(&pkt[21..24], b"com");
    assert_eq!(pkt[24], 0);
    assert_eq!(u16::from_be_bytes([pkt[25], pkt[26]]), 48);
    assert_eq!(u16::from_be_bytes([pkt[27], pkt[28]]), 1);
}

#[test]
fn dnssec_generate_query_ds() {
    let pkt = dnssec_generate_query("sub.example.com", 1, 43, 0xABCD);
    assert_eq!(u16::from_be_bytes([pkt[0], pkt[1]]), 0xABCD);
    assert_eq!(pkt[12], 3);
    assert_eq!(&pkt[13..16], b"sub");
}

#[test]
fn dnssec_generate_query_trailing_dot() {
    let pkt1 = dnssec_generate_query("example.com.", 1, 48, 1);
    let pkt2 = dnssec_generate_query("example.com", 1, 48, 1);
    assert_eq!(pkt1, pkt2);
}

#[test]
fn is_check_date_no_timestamp_file() {
    assert!(is_check_date(false, false, false));
    assert!(!is_check_date(false, false, true));
}

#[test]
fn is_check_date_with_timestamp_file() {
    assert!(!is_check_date(true, false, false));
    assert!(is_check_date(true, true, false));
}

#[test]
fn check_signature_time_valid() {
    assert!(check_signature_time(100, 200, 150));
}

#[test]
fn check_signature_time_at_boundaries() {
    assert!(check_signature_time(100, 200, 100));
    assert!(check_signature_time(100, 200, 200));
}

#[test]
fn check_signature_time_expired() {
    assert!(!check_signature_time(100, 200, 201));
}

#[test]
fn check_signature_time_not_yet_valid() {
    assert!(!check_signature_time(100, 200, 99));
}

#[test]
fn check_signature_time_wraparound() {
    assert!(check_signature_time(u32::MAX - 10, 10, u32::MAX));
    assert!(check_signature_time(u32::MAX - 10, 10, 5));
}

#[test]
fn rr_descriptor_a_record() {
    let desc = RrDescriptor::for_type(1);
    assert_eq!(desc.fields, vec![-1]);
}

#[test]
fn rr_descriptor_mx() {
    let desc = RrDescriptor::for_type(15);
    assert_eq!(desc.fields, vec![2, 0]);
}

#[test]
fn rr_descriptor_soa() {
    let desc = RrDescriptor::for_type(6);
    assert_eq!(desc.fields, vec![0, 0, -1]);
}

fn sample_ds() -> DsData {
    DsData { key_tag: 1234, algorithm: 8, digest_type: 2, digest: vec![0xAB; 32] }
}

#[test]
fn zone_status_no_trust_anchor_anywhere_needs_ds_at_root() {
    let cache = DnssecCache::new();
    let status = zone_status("example.com", 1, &cache);
    assert_eq!(status.code, StatCode::NeedDs { name: String::new(), class: 1 });
}

#[test]
fn zone_status_trust_anchor_at_queried_name_is_secure() {
    let mut cache = DnssecCache::new();
    cache.insert_ds_positive("example.com", vec![(sample_ds(), 1)]);
    let status = zone_status("example.com", 1, &cache);
    assert_eq!(status.code, StatCode::Secure);
}

#[test]
fn zone_status_trust_anchor_at_ancestor_walks_down_to_secure() {
    let mut cache = DnssecCache::new();
    cache.insert_ds_positive("com", vec![(sample_ds(), 1)]);
    cache.insert_ds_positive("example.com", vec![(sample_ds(), 1)]);
    let status = zone_status("sub.example.com", 1, &cache);
    assert_eq!(status.code, StatCode::NeedDs { name: "sub.example.com".to_string(), class: 1 });
}

#[test]
fn zone_status_negative_insecure_proof_short_circuits() {
    let mut cache = DnssecCache::new();
    cache.insert_ds_neg_insecure("com");
    let status = zone_status("example.com", 1, &cache);
    assert_eq!(status.code, StatCode::Insecure);
}

#[test]
fn zone_status_not_zone_cut_is_skipped() {
    let mut cache = DnssecCache::new();
    cache.insert_ds_neg_not_zone_cut("com");
    cache.insert_ds_positive("example.com", vec![(sample_ds(), 1)]);
    let status = zone_status("example.com", 1, &cache);
    assert_eq!(status.code, StatCode::Secure);
}

#[test]
fn zone_status_unsupported_ds_algo_is_insecure() {
    let mut cache = DnssecCache::new();
    let unsupported = DsData { key_tag: 1, algorithm: 1, digest_type: 2, digest: vec![0u8; 32] };
    cache.insert_ds_positive("example.com", vec![(unsupported, 1)]);
    let status = zone_status("example.com", 1, &cache);
    assert_eq!(status.code, StatCode::Insecure);
}

#[test]
fn zone_status_wrong_class_is_ignored() {
    let mut cache = DnssecCache::new();
    cache.insert_ds_positive("example.com", vec![(sample_ds(), 2)]);
    let status = zone_status("example.com", 1, &cache);
    assert_eq!(status.code, StatCode::Insecure);
}

fn build_dnskey_self_sign_scenario(
    name: &str,
    class: u16,
) -> (DnsRr, DnsRr, Vec<u8>, DsData, SigningKey) {

    const ALGO: u8 = 13;
    let signing_key = SigningKey::random(&mut OsRng);
    let dnskey_rdata = dnskey_rdata_for_ecdsa_p256(signing_key.verifying_key());
    let key_tag = compute_key_tag(&dnskey_rdata);

    let dnskey_rr = make_typed_rr(name, 48, &dnskey_rdata);
    let orig_ttl: u32 = 300;
    let labels = count_labels(name) as u8;

    let mut header = Vec::new();
    header.extend_from_slice(&48u16.to_be_bytes());
    header.push(ALGO);
    header.push(labels);
    header.extend_from_slice(&orig_ttl.to_be_bytes());
    header.extend_from_slice(&u32::MAX.to_be_bytes());
    header.extend_from_slice(&0u32.to_be_bytes());
    header.extend_from_slice(&key_tag.to_be_bytes());

    let wire_name = name_to_wire(name).unwrap();

    let mut signed_data = Vec::new();
    signed_data.extend_from_slice(&header);
    signed_data.extend_from_slice(&wire_name);
    signed_data.extend_from_slice(&wire_name);
    signed_data.extend_from_slice(&48u16.to_be_bytes());
    signed_data.extend_from_slice(&class.to_be_bytes());
    signed_data.extend_from_slice(&orig_ttl.to_be_bytes());
    let rdlen = dnskey_rdata.len() as u16;
    signed_data.extend_from_slice(&rdlen.to_be_bytes());
    signed_data.extend_from_slice(&dnskey_rdata);

    let signature: Signature = signing_key.sign(&signed_data);
    let mut rrsig_rdata = header.clone();
    rrsig_rdata.extend_from_slice(&wire_name);
    rrsig_rdata.extend_from_slice(&signature.to_bytes());

    let rrsig_rr = make_typed_rr(name, 46, &rrsig_rdata);
    let mut hasher = Sha256::new();
    hasher.update(&wire_name);
    hasher.update(&dnskey_rdata);
    let digest = hasher.finalize().to_vec();
    let ds = DsData { key_tag, algorithm: ALGO, digest_type: 2, digest };

    (dnskey_rr, rrsig_rr, dnskey_rdata, ds, signing_key)
}

#[test]
fn dnssec_validate_by_ds_valid_chain_caches_key() {
    let name = "example.com";
    let class = 1u16;
    let (dnskey_rr, rrsig_rr, dnskey_rdata, ds, _signing_key) = build_dnskey_self_sign_scenario(name, class);

    let mut cache = DnssecCache::new();
    cache.insert_ds_positive(name, vec![(ds, class)]);

    let records = vec![dnskey_rr, rrsig_rr];
    let mut counter = 100i32;
    let status = dnssec_validate_by_ds(&records, name, class, 500_000, &mut cache, &mut counter);

    assert_eq!(status.code, StatCode::Secure, "expected Secure, got {status:?}");
    let keys = cache.find_dnskeys(name, class);
    assert_eq!(keys.len(), 1);
    assert_eq!(keys[0], dnskey_rdata.as_slice());
}

#[test]
fn dnssec_validate_by_ds_no_ds_cached_needs_ds() {
    let name = "example.com";
    let class = 1u16;
    let (dnskey_rr, rrsig_rr, _rdata, _ds, _sk) = build_dnskey_self_sign_scenario(name, class);

    let mut cache = DnssecCache::new();
    let records = vec![dnskey_rr, rrsig_rr];
    let mut counter = 100i32;
    let status = dnssec_validate_by_ds(&records, name, class, 500_000, &mut cache, &mut counter);

    assert_eq!(status.code, StatCode::NeedDs { name: name.to_string(), class });
}

#[test]
fn dnssec_validate_by_ds_wrong_digest_is_bogus() {
    let name = "example.com";
    let class = 1u16;
    let (dnskey_rr, rrsig_rr, _rdata, mut ds, _sk) = build_dnskey_self_sign_scenario(name, class);
    ds.digest[0] ^= 0xFF;

    let mut cache = DnssecCache::new();
    cache.insert_ds_positive(name, vec![(ds, class)]);

    let records = vec![dnskey_rr, rrsig_rr];
    let mut counter = 100i32;
    let status = dnssec_validate_by_ds(&records, name, class, 500_000, &mut cache, &mut counter);

    assert_eq!(status.code, StatCode::Bogus, "expected Bogus, got {status:?}");
    assert!(cache.find_dnskeys(name, class).is_empty());
}

#[test]
fn dnssec_validate_by_ds_no_rrsig_is_bogus() {
    let name = "example.com";
    let class = 1u16;
    let (dnskey_rr, _rrsig_rr, _rdata, ds, _sk) = build_dnskey_self_sign_scenario(name, class);

    let mut cache = DnssecCache::new();
    cache.insert_ds_positive(name, vec![(ds, class)]);

    let records = vec![dnskey_rr];
    let mut counter = 100i32;
    let status = dnssec_validate_by_ds(&records, name, class, 500_000, &mut cache, &mut counter);

    assert_eq!(status.code, StatCode::Bogus);
}

fn nsec_rdata(next: &str, bitmap: &[u8]) -> Vec<u8> {
    let mut r = name_to_wire(next).unwrap();
    r.extend_from_slice(bitmap);
    r
}

const BM_NS_SOA: [u8; 3] = [0, 1, 0x22];
const BM_A: [u8; 3] = [0, 1, 0x40];
const BM_EMPTY: [u8; 0] = [];

#[test]
fn prove_non_existence_nsec_covers_missing_name() {
    let nsecs = vec![ParsedNsec {
        owner: "a.com".to_string(), next: "c.com".to_string(),
        bitmap: BM_NS_SOA.to_vec(), sig_labels: 2,
    }];
    let (result, _nons) = prove_non_existence_nsec(&nsecs, "b.com", 1);
    assert!(result.is_ok(), "expected proof to succeed, got {result:?}");
}

#[test]
fn prove_non_existence_nsec_no_covering_record_fails() {
    let nsecs = vec![ParsedNsec {
        owner: "x.com".to_string(), next: "y.com".to_string(),
        bitmap: BM_NS_SOA.to_vec(), sig_labels: 2,
    }];
    let (result, _nons) = prove_non_existence_nsec(&nsecs, "b.com", 1);
    assert_eq!(result, Err(DNSSEC_FAIL_NONSEC));
}

#[test]
fn prove_non_existence_nsec_nodata_type_absent_succeeds() {
    let nsecs = vec![ParsedNsec {
        owner: "a.com".to_string(), next: "z.com".to_string(),
        bitmap: BM_NS_SOA.to_vec(), sig_labels: 2,
    }];
    let (result, _nons) = prove_non_existence_nsec(&nsecs, "a.com", 1);
    assert!(result.is_ok(), "expected NODATA proof to succeed, got {result:?}");
}

#[test]
fn prove_non_existence_nsec_nodata_type_present_fails() {
    let nsecs = vec![ParsedNsec {
        owner: "a.com".to_string(), next: "z.com".to_string(),
        bitmap: BM_A.to_vec(), sig_labels: 2,
    }];
    let (result, _nons) = prove_non_existence_nsec(&nsecs, "a.com", 1);
    assert_eq!(result, Err(DNSSEC_FAIL_NONSEC));
}

#[test]
fn prove_non_existence_nsec_wraparound_covers() {
    let nsecs = vec![ParsedNsec {
        owner: "z.com".to_string(), next: "a.com".to_string(),
        bitmap: BM_NS_SOA.to_vec(), sig_labels: 2,
    }];
    let (result, _nons) = prove_non_existence_nsec(&nsecs, "0.com", 1);
    assert!(result.is_ok(), "expected wraparound proof to succeed, got {result:?}");
}

#[test]
fn prove_non_existence_nsec_empty_bitmap_nodata() {
    let nsecs = vec![ParsedNsec {
        owner: "a.com".to_string(), next: "z.com".to_string(),
        bitmap: BM_EMPTY.to_vec(), sig_labels: 2,
    }];
    let (result, _nons) = prove_non_existence_nsec(&nsecs, "a.com", 1);
    assert!(result.is_ok());
}

fn n3(owner_hash: &[u8], next_hashed: &[u8], flags: u8, bitmap: &[u8]) -> ParsedNsec3 {
    ParsedNsec3 {
        owner_hash: owner_hash.to_vec(),
        next_hashed: next_hashed.to_vec(),
        flags,
        bitmap: bitmap.to_vec(),
    }
}

#[test]
fn check_nsec3_coverage_exact_match_nodata() {
    let digest = vec![5u8; 4];
    let recs = vec![n3(&[5, 5, 5, 5], &[9, 9, 9, 9], 0, &BM_NS_SOA)];
    let mut nons = true;
    assert!(check_nsec3_coverage(&digest, 1, &recs, &mut nons, 2));
}

#[test]
fn check_nsec3_coverage_exact_match_type_exists_fails() {
    let digest = vec![5u8; 4];
    let recs = vec![n3(&[5, 5, 5, 5], &[9, 9, 9, 9], 0, &BM_A)];
    let mut nons = true;
    assert!(!check_nsec3_coverage(&digest, 1, &recs, &mut nons, 2));
}

#[test]
fn check_nsec3_coverage_covering_range() {
    let digest = vec![5u8];
    let recs = vec![n3(&[2], &[8], 0, &BM_NS_SOA)];
    let mut nons = true;
    assert!(check_nsec3_coverage(&digest, 1, &recs, &mut nons, 2));
}

#[test]
fn check_nsec3_coverage_opt_out_clears_nons() {
    let digest = vec![5u8];
    let recs = vec![n3(&[2], &[8], 0x01, &BM_NS_SOA)];
    let mut nons = true;
    assert!(check_nsec3_coverage(&digest, 1, &recs, &mut nons, 2));
    assert!(!nons, "opt-out flag must clear nons");
}

#[test]
fn check_nsec3_coverage_no_match_fails() {
    let digest = vec![50u8];
    let recs = vec![n3(&[2], &[8], 0, &BM_NS_SOA)];
    let mut nons = true;
    assert!(!check_nsec3_coverage(&digest, 1, &recs, &mut nons, 2));
}

#[test]
fn prove_non_existence_nsec3_iterations_over_limit_fails() {
    let raw = vec![ParsedNsec3Raw {
        algo: 1, flags: 0, iterations: DEFAULT_NSEC3_ITERS_LIMIT + 1,
        salt: vec![], owner_hash: vec![], next_hashed: vec![], bitmap: vec![],
    }];
    let mut nons = true;
    let mut counter = 100i32;
    let result = prove_non_existence_nsec3(
        &raw, "example.com", 1, 0, &mut nons, &mut counter, DEFAULT_NSEC3_ITERS_LIMIT,
    );
    assert_eq!(result, Err(DNSSEC_FAIL_NSEC3_ITERS));
}

#[test]
fn prove_non_existence_nsec3_no_usable_algo_fails() {
    let raw = vec![ParsedNsec3Raw {
        algo: 99, flags: 0, iterations: 0,
        salt: vec![], owner_hash: vec![], next_hashed: vec![], bitmap: vec![],
    }];
    let mut nons = true;
    let mut counter = 100i32;
    let result = prove_non_existence_nsec3(
        &raw, "example.com", 1, 0, &mut nons, &mut counter, DEFAULT_NSEC3_ITERS_LIMIT,
    );
    assert_eq!(result, Err(DNSSEC_FAIL_NONSEC));
}

#[test]
fn prove_non_existence_nsec3_direct_hit_nodata() {
    let salt: Vec<u8> = vec![];
    let digest = hash_name("example.com", &salt, 0, |d| {
        let mut h = Sha1::new();
        h.update(d);
        h.finalize().to_vec()
    }).unwrap();

    let raw = vec![ParsedNsec3Raw {
        algo: 1, flags: 0, iterations: 0, salt: salt.clone(),
        owner_hash: digest.clone(),
        next_hashed: vec![0xFFu8; digest.len()],
        bitmap: BM_NS_SOA.to_vec(),
    }];
    let mut nons = true;
    let mut counter = 100i32;
    let result = prove_non_existence_nsec3(
        &raw, "example.com", 1, 0, &mut nons, &mut counter, DEFAULT_NSEC3_ITERS_LIMIT,
    );
    assert!(result.is_ok(), "expected direct-hit NODATA proof to succeed, got {result:?}");
}

fn rrsig_for_nsec(owner: &str, labels: u8) -> DnsRr {
    let mut r = Vec::new();
    r.extend_from_slice(&T_NSEC.to_be_bytes());
    r.push(8);
    r.push(labels);
    r.extend_from_slice(&300u32.to_be_bytes());
    r.extend_from_slice(&u32::MAX.to_be_bytes());
    r.extend_from_slice(&0u32.to_be_bytes());
    r.extend_from_slice(&1234u16.to_be_bytes());
    r.extend_from_slice(&name_to_wire("example.com").unwrap());
    r.push(0x01);
    make_typed_rr(owner, 46, &r)
}

#[test]
fn prove_non_existence_dispatches_to_nsec() {
    let nsec_rr = make_typed_rr("a.com", T_NSEC, &nsec_rdata("c.com", &BM_NS_SOA));
    let sig_rr = rrsig_for_nsec("a.com", 2);
    let authority = vec![nsec_rr, sig_rr];

    let mut nons = true;
    let mut counter = 100i32;
    let result = prove_non_existence(&authority, "b.com", 1, 1, 0, &mut nons, &mut counter, DEFAULT_NSEC3_ITERS_LIMIT);
    assert!(result.is_ok(), "expected NSEC proof to succeed, got {result:?}");
}

#[test]
fn prove_non_existence_mixed_nsec_and_nsec3_fails() {
    let nsec_rr = make_typed_rr("a.com", T_NSEC, &nsec_rdata("c.com", &BM_NS_SOA));
    let sig_rr = rrsig_for_nsec("a.com", 2);

    let mut nsec3_rdata = vec![1u8, 0, 0, 0, 0];
    nsec3_rdata.push(4);
    nsec3_rdata.extend_from_slice(&[0xFFu8; 4]);
    nsec3_rdata.extend_from_slice(&BM_NS_SOA);
    let nsec3_rr = make_typed_rr("abcdefgh.com", T_NSEC3, &nsec3_rdata);

    let authority = vec![nsec_rr, sig_rr, nsec3_rr];
    let mut nons = true;
    let mut counter = 100i32;
    let result = prove_non_existence(&authority, "b.com", 1, 1, 0, &mut nons, &mut counter, DEFAULT_NSEC3_ITERS_LIMIT);
    assert_eq!(result, Err(DNSSEC_FAIL_NONSEC));
}

#[test]
fn prove_non_existence_no_nsec_records_fails() {
    let authority: Vec<DnsRr> = vec![];
    let mut nons = true;
    let mut counter = 100i32;
    let result = prove_non_existence(&authority, "b.com", 1, 1, 0, &mut nons, &mut counter, DEFAULT_NSEC3_ITERS_LIMIT);
    assert_eq!(result, Err(DNSSEC_FAIL_NONSEC));
}

fn sign_single_rr(
    signing_key: &SigningKey,
    owner: &str,
    rrtype: u16,
    class: u16,
    rdata: &[u8],
    signer_name: &str,
    key_tag: u16,
    orig_ttl: u32,
) -> (DnsRr, DnsRr) {
    const ALGO: u8 = 13;
    let labels = count_labels(owner) as u8;
    let rr = make_typed_rr(owner, rrtype, rdata);

    let mut header = Vec::new();
    header.extend_from_slice(&rrtype.to_be_bytes());
    header.push(ALGO);
    header.push(labels);
    header.extend_from_slice(&orig_ttl.to_be_bytes());
    header.extend_from_slice(&u32::MAX.to_be_bytes());
    header.extend_from_slice(&0u32.to_be_bytes());
    header.extend_from_slice(&key_tag.to_be_bytes());

    let wire_signer = name_to_wire(signer_name).unwrap();
    let wire_owner = name_to_wire(owner).unwrap();

    let mut signed_data = Vec::new();
    signed_data.extend_from_slice(&header);
    signed_data.extend_from_slice(&wire_signer);
    signed_data.extend_from_slice(&wire_owner);
    signed_data.extend_from_slice(&rrtype.to_be_bytes());
    signed_data.extend_from_slice(&class.to_be_bytes());
    signed_data.extend_from_slice(&orig_ttl.to_be_bytes());
    signed_data.extend_from_slice(&(rdata.len() as u16).to_be_bytes());
    signed_data.extend_from_slice(rdata);

    let signature: Signature = signing_key.sign(&signed_data);
    let mut rrsig_rdata = header;
    rrsig_rdata.extend_from_slice(&wire_signer);
    rrsig_rdata.extend_from_slice(&signature.to_bytes());

    let sig_rr = make_typed_rr(owner, 46, &rrsig_rdata);
    (rr, sig_rr)
}

fn setup_trusted_zone(zone: &str, class: u16) -> (SigningKey, u16, DnssecCache) {
    let (dnskey_rr, dnskey_sig_rr, dnskey_rdata, ds, signing_key) = build_dnskey_self_sign_scenario(zone, class);
    let mut cache = DnssecCache::new();
    cache.insert_ds_positive(zone, vec![(ds, class)]);
    let mut counter = 1000i32;
    let status = dnssec_validate_by_ds(&[dnskey_rr, dnskey_sig_rr], zone, class, 500_000, &mut cache, &mut counter);
    assert_eq!(status.code, StatCode::Secure, "test setup: DNSKEY chain must validate");
    let key_tag = compute_key_tag(&dnskey_rdata);
    (signing_key, key_tag, cache)
}

#[test]
fn dnssec_validate_reply_secure_a_record() {
    let zone = "example.com";
    let class = 1u16;
    let (signing_key, key_tag, mut cache) = setup_trusted_zone(zone, class);

    let (a_rr, a_sig_rr) = sign_single_rr(&signing_key, zone, 1, class, &[1, 2, 3, 4], zone, key_tag, 300);

    let mut counter = 1000i32;
    let status = dnssec_validate_reply(
        &[a_rr, a_sig_rr], &[], zone, 1, class, 0,
        500_000, &mut cache, &mut counter, false, None, DEFAULT_NSEC3_ITERS_LIMIT,
    );
    assert_eq!(status.code, StatCode::Secure, "expected Secure, got {status:?}");
}

#[test]
fn dnssec_validate_reply_corrupted_signature_is_bogus() {
    let zone = "example.com";
    let class = 1u16;
    let (signing_key, key_tag, mut cache) = setup_trusted_zone(zone, class);

    let (a_rr, mut a_sig_rr) = sign_single_rr(&signing_key, zone, 1, class, &[1, 2, 3, 4], zone, key_tag, 300);
    let last = a_sig_rr.rdata.len() - 1;
    a_sig_rr.rdata[last] ^= 0xFF;

    let mut counter = 1000i32;
    let status = dnssec_validate_reply(
        &[a_rr, a_sig_rr], &[], zone, 1, class, 0,
        500_000, &mut cache, &mut counter, false, None, DEFAULT_NSEC3_ITERS_LIMIT,
    );
    assert_eq!(status.code, StatCode::Bogus, "corrupted signature must not validate, got {status:?}");
}

#[test]
fn dnssec_validate_reply_no_ds_needs_ds() {
    let zone = "example.com";
    let class = 1u16;
    let (signing_key, key_tag, _cache) = setup_trusted_zone(zone, class);
    let mut empty_cache = DnssecCache::new();

    let (a_rr, a_sig_rr) = sign_single_rr(&signing_key, zone, 1, class, &[1, 2, 3, 4], zone, key_tag, 300);

    let mut counter = 1000i32;
    let status = dnssec_validate_reply(
        &[a_rr, a_sig_rr], &[], zone, 1, class, 0,
        500_000, &mut empty_cache, &mut counter, false, None, DEFAULT_NSEC3_ITERS_LIMIT,
    );
    assert_eq!(status.code, StatCode::NeedDs { name: String::new(), class });
}

#[test]
fn dnssec_validate_reply_unsigned_zone_is_insecure() {
    let zone = "example.com";
    let class = 1u16;
    let mut cache = DnssecCache::new();
    cache.insert_ds_neg_insecure("");

    let signing_key = SigningKey::random(&mut OsRng);
    let (a_rr, a_sig_rr) = sign_single_rr(&signing_key, zone, 1, class, &[1, 2, 3, 4], zone, 0xFFFF, 300);

    let mut counter = 1000i32;
    let status = dnssec_validate_reply(
        &[a_rr, a_sig_rr], &[], zone, 1, class, 0,
        500_000, &mut cache, &mut counter, false, None, DEFAULT_NSEC3_ITERS_LIMIT,
    );
    assert_eq!(status.code, StatCode::Insecure, "expected Insecure, got {status:?}");
}

#[test]
fn dnssec_validate_reply_nxdomain_with_valid_nsec_proof() {
    let zone = "example.com";
    let class = 1u16;
    let (signing_key, key_tag, mut cache) = setup_trusted_zone(zone, class);

    let nsec_rdata_bytes = nsec_rdata("c.example.com", &BM_NS_SOA);
    let (nsec_rr, nsec_sig_rr) = sign_single_rr(
        &signing_key, "a.example.com", T_NSEC, class, &nsec_rdata_bytes, zone, key_tag, 300,
    );

    let mut counter = 1000i32;
    let status = dnssec_validate_reply(
        &[], &[nsec_rr, nsec_sig_rr], "b.example.com", 1, class, 3,
        500_000, &mut cache, &mut counter, false, None, DEFAULT_NSEC3_ITERS_LIMIT,
    );
    assert_eq!(status.code, StatCode::Secure, "expected Secure (validated NXDOMAIN), got {status:?}");
}

#[test]
fn dnssec_validate_reply_nxdomain_without_nsec_is_bogus() {
    let zone = "example.com";
    let class = 1u16;
    let (_signing_key, _key_tag, mut cache) = setup_trusted_zone(zone, class);
    cache.insert_ds_neg_not_zone_cut("b.example.com");

    let mut counter = 1000i32;
    let status = dnssec_validate_reply(
        &[], &[], "b.example.com", 1, class, 3,
        500_000, &mut cache, &mut counter, false, None, DEFAULT_NSEC3_ITERS_LIMIT,
    );
    assert_eq!(status.code, StatCode::Bogus, "signed zone with no NSEC proof must be Bogus, got {status:?}");
}

#[test]
fn dnssec_validate_reply_servfail_is_bogus() {
    let mut cache = DnssecCache::new();
    let mut counter = 1000i32;
    let status = dnssec_validate_reply(
        &[], &[], "example.com", 1, 1, 2,
        500_000, &mut cache, &mut counter, false, None, DEFAULT_NSEC3_ITERS_LIMIT,
    );
    assert_eq!(status.code, StatCode::Bogus);
    assert_eq!(status.fail & DNSSEC_FAIL_UPSTREAM, DNSSEC_FAIL_UPSTREAM);
}

#[test]
fn dnssec_validate_ds_positive_answer_caches_ds() {
    let parent = "com";
    let class = 1u16;
    let (signing_key, key_tag, mut cache) = setup_trusted_zone(parent, class);

    let mut ds_rdata = Vec::new();
    ds_rdata.extend_from_slice(&9999u16.to_be_bytes());
    ds_rdata.push(13);
    ds_rdata.push(2);
    ds_rdata.extend_from_slice(&[0xAB; 32]);

    let (ds_rr, ds_sig_rr) = sign_single_rr(&signing_key, "example.com", T_DS, class, &ds_rdata, parent, key_tag, 300);

    let mut counter = 1000i32;
    let status = dnssec_validate_ds(
        &[ds_rr, ds_sig_rr], &[], "example.com", class, RCODE_NOERROR,
        500_000, &mut cache, &mut counter, DEFAULT_NSEC3_ITERS_LIMIT,
    );
    assert_eq!(status.code, StatCode::Secure, "expected Secure, got {status:?}");

    let zs = zone_status("example.com", class, &cache);
    assert_eq!(zs.code, StatCode::Secure);
}

#[test]
fn dnssec_validate_ds_negative_at_zone_cut_is_insecure() {
    let parent = "com";
    let class = 1u16;
    let (signing_key, key_tag, mut cache) = setup_trusted_zone(parent, class);

    let bm_ns_only = vec![0u8, 1, 0x20];
    let nsec_bytes = nsec_rdata("z.example.com", &bm_ns_only);
    let (nsec_rr, nsec_sig_rr) = sign_single_rr(&signing_key, "example.com", T_NSEC, class, &nsec_bytes, parent, key_tag, 300);

    let mut counter = 1000i32;
    let status = dnssec_validate_ds(
        &[], &[nsec_rr, nsec_sig_rr], "example.com", class, RCODE_NXDOMAIN,
        500_000, &mut cache, &mut counter, DEFAULT_NSEC3_ITERS_LIMIT,
    );
    assert_eq!(status.code, StatCode::Secure, "expected Secure (processing done), got {status:?}");

    let zs = zone_status("example.com", class, &cache);
    assert_eq!(zs.code, StatCode::Insecure, "proven no-DS at a zone cut must make the zone insecure");
}

#[test]
fn dnssec_validate_ds_negative_not_a_zone_cut_is_skipped() {
    let parent = "com";
    let class = 1u16;
    let (signing_key, key_tag, mut cache) = setup_trusted_zone(parent, class);

    let bm_a_only = vec![0u8, 1, 0x40];
    let nsec_bytes = nsec_rdata("z.example.com", &bm_a_only);
    let (nsec_rr, nsec_sig_rr) = sign_single_rr(&signing_key, "example.com", T_NSEC, class, &nsec_bytes, parent, key_tag, 300);

    let mut counter = 1000i32;
    let status = dnssec_validate_ds(
        &[], &[nsec_rr, nsec_sig_rr], "example.com", class, RCODE_NXDOMAIN,
        500_000, &mut cache, &mut counter, DEFAULT_NSEC3_ITERS_LIMIT,
    );
    assert_eq!(status.code, StatCode::Secure);

    cache.insert_ds_positive("sub.example.com", vec![(sample_ds(), class)]);
    let zs = zone_status("sub.example.com", class, &cache);
    assert_eq!(zs.code, StatCode::Secure);
}

#[test]
fn dnssec_validate_ds_servfail_treated_as_not_a_zone_cut() {
    let mut cache = DnssecCache::new();
    let mut counter = 1000i32;
    let status = dnssec_validate_ds(
        &[], &[], "example.com", 1, RCODE_SERVFAIL,
        500_000, &mut cache, &mut counter, DEFAULT_NSEC3_ITERS_LIMIT,
    );
    assert_eq!(status.code, StatCode::Secure, "processing a SERVFAIL DS answer must still complete, got {status:?}");
}

#[test]
fn setup_timestamp_not_configured() {
    assert_eq!(setup_timestamp(None, 1_000_000), TimestampSetup::NotConfigured);
}

#[test]
fn setup_timestamp_mtime_in_past_is_clock_sane() {
    assert_eq!(setup_timestamp(Some(100), 200), TimestampSetup::ClockSane);
}

#[test]
fn setup_timestamp_mtime_equal_now_is_clock_sane() {
    assert_eq!(setup_timestamp(Some(200), 200), TimestampSetup::ClockSane);
}

#[test]
fn setup_timestamp_mtime_in_future_is_not_yet_sane() {
    assert_eq!(setup_timestamp(Some(2_000_000_000), 200), TimestampSetup::ClockNotYetSane);
}

#[test]
fn timestamp_clock_now_sane_transitions() {
    assert!(!timestamp_clock_now_sane(1_420_070_400, 1_000_000));
    assert!(timestamp_clock_now_sane(1_420_070_400, 1_420_070_400));
    assert!(timestamp_clock_now_sane(1_420_070_400, 1_500_000_000));
}

#[test]
fn canonicalize_rdata_a_record() {
    let rdata = [1, 2, 3, 4];
    let result = canonicalize_rdata(&rdata, 1).unwrap();
    assert_eq!(result, rdata);
}

#[test]
fn canonicalize_rdata_ns_lowercases() {
    let rdata = [7, b'E', b'x', b'a', b'm', b'p', b'l', b'e', 3, b'C', b'O', b'M', 0];
    let result = canonicalize_rdata(&rdata, 2).unwrap();
    let expected = [7, b'e', b'x', b'a', b'm', b'p', b'l', b'e', 3, b'c', b'o', b'm', 0];
    assert_eq!(result, expected);
}

#[test]
fn canonicalize_rdata_mx() {
    let mut rdata = vec![0x00, 0x0A];
    rdata.extend_from_slice(&[4, b'M', b'A', b'I', b'L', 0]); // "MAIL."
    let result = canonicalize_rdata(&rdata, 15).unwrap();
    assert_eq!(&result[0..2], &[0x00, 0x0A]);
    assert_eq!(result[3], b'm');
}

#[test]
fn canonicalize_rdata_empty() {
    let result = canonicalize_rdata(&[], 1).unwrap();
    assert!(result.is_empty());
}

#[test]
fn secure_records_are_kept_no_longer_than_their_signature() {
    let signing_key = SigningKey::random(&mut OsRng);
    let dnskey_rdata = dnskey_rdata_for_ecdsa_p256(signing_key.verifying_key());
    let (rrset, rrsig_rr) = build_ecdsa_p256_scenario(&signing_key, 0, 500_100);
    let mut counter = 100i32;
    let result =
        validate_rrset(&rrset, &[&rrsig_rr], "example.com", 1, 1, 500_000, Some(&dnskey_rdata), &mut counter);
    assert_eq!(result, RrsetValidation::Secure { ttl: 100, key_tag: 1234 });
    assert_eq!(counter, 99);

    let (rrset, rrsig_rr) = build_ecdsa_p256_scenario(&signing_key, 0, 600_000);
    let result =
        validate_rrset(&rrset, &[&rrsig_rr], "example.com", 1, 1, 500_000, Some(&dnskey_rdata), &mut counter);
    assert_eq!(result, RrsetValidation::Secure { ttl: 300, key_tag: 1234 });
    assert_eq!(counter, 98);
}

#[test]
fn a_signature_of_another_key_secures_nothing() {
    let signing_key = SigningKey::random(&mut OsRng);
    let other = dnskey_rdata_for_ecdsa_p256(SigningKey::random(&mut OsRng).verifying_key());
    let (rrset, rrsig_rr) = build_ecdsa_p256_scenario(&signing_key, 0, u32::MAX);
    let mut counter = 100i32;
    let result = validate_rrset(&rrset, &[&rrsig_rr], "example.com", 1, 1, 500_000, Some(&other), &mut counter);
    assert!(matches!(result, RrsetValidation::Bogus(_)));
    assert!(0 <= counter && counter <= 100);
}

#[test]
fn names_are_compared_without_regard_to_case_beyond_ascii() {
    let rr = make_typed_rr("B\u{dc}CHER.Example", 1, &[1, 2, 3, 4]);
    let records = [rr];
    let (found, sigs) = explore_rrset(&records, "b\u{fc}cher.example", 1, 1);
    assert_eq!(found.len(), 1);
    assert!(sigs.is_empty());
    assert!(explore_rrset(&records, "bucher.example", 1, 1).0.is_empty());
}

#[test]
fn cname_records_are_followed_to_the_answer() {
    let hop = |from: &str, to: &str| make_typed_rr(from, 5, &name_to_wire(to).unwrap());
    let answer = [
        hop("b.example.com", "c.example.com"),
        hop("A.example.com", "b.example.com"),
        make_typed_rr("c.example.com", 1, &[1, 2, 3, 4]),
    ];
    assert_eq!(resolve_target(&answer, "a.Example.com.", 1, 1), ("c.example.com".to_string(), true));
    assert_eq!(resolve_target(&answer, "b.example.com", 28, 1), ("c.example.com".to_string(), false));
    assert_eq!(resolve_target(&answer, "a.example.com", 5, 1), ("a.example.com".to_string(), true));
    assert_eq!(resolve_target(&answer, "d.example.com", 1, 1), ("d.example.com".to_string(), false));
}

#[test]
fn cname_records_in_a_loop_lead_nowhere() {
    let hop = |from: &str, to: &str| make_typed_rr(from, 5, &name_to_wire(to).unwrap());
    let answer = [hop("a.example.com", "b.example.com"), hop("b.example.com", "a.example.com")];
    assert!(!resolve_target(&answer, "a.example.com", 1, 1).1);
}

#[test]
fn a_reply_through_a_cname_is_secure_where_all_of_it_is_signed() {
    let zone = "example.com";
    let (signing_key, key_tag, mut cache) = setup_trusted_zone(zone, 1);
    let target = name_to_wire("host.example.com").unwrap();
    let (cname, cname_sig) = sign_single_rr(&signing_key, "www.example.com", 5, 1, &target, zone, key_tag, 300);
    let (a, a_sig) = sign_single_rr(&signing_key, "host.example.com", 1, 1, &[1, 2, 3, 4], zone, key_tag, 300);
    let mut counter = 1000i32;
    let status = dnssec_validate_reply(
        &[cname.clone(), cname_sig.clone(), a.clone(), a_sig],
        &[],
        "www.example.com",
        1,
        1,
        0,
        500_000,
        &mut cache,
        &mut counter,
        false,
        None,
        DEFAULT_NSEC3_ITERS_LIMIT,
    );
    assert_eq!(status.code, StatCode::Secure, "got {status:?}");
    assert!(0 <= counter && counter < 1000);

    cache.insert_ds_neg_not_zone_cut("host.example.com");
    let before = counter;
    let status = dnssec_validate_reply(
        &[cname, cname_sig, a],
        &[],
        "www.example.com",
        1,
        1,
        0,
        500_000,
        &mut cache,
        &mut counter,
        true,
        None,
        DEFAULT_NSEC3_ITERS_LIMIT,
    );
    assert_ne!(status.code, StatCode::Secure, "got {status:?}");
    assert!(0 <= counter && counter <= before);
}

#[test]
fn a_key_set_without_a_ds_record_is_not_trusted() {
    let (dnskey_rr, sig_rr, dnskey_rdata, mut ds, _) = build_dnskey_self_sign_scenario("example.com", 1);
    let mut cache = DnssecCache::new();
    let mut counter = 1000i32;
    let records = [dnskey_rr, sig_rr];
    let status = dnssec_validate_by_ds(&records, "example.com", 1, 500_000, &mut cache, &mut counter);
    assert_ne!(status.code, StatCode::Secure);
    assert!(cache.find_dnskeys("example.com", 1).is_empty());

    ds.digest[0] ^= 1;
    cache.insert_ds_positive("example.com", vec![(ds.clone(), 1)]);
    let status = dnssec_validate_by_ds(&records, "example.com", 1, 500_000, &mut cache, &mut counter);
    assert_ne!(status.code, StatCode::Secure);

    ds.digest[0] ^= 1;
    cache.insert_ds_positive("example.com", vec![(ds, 1)]);
    let status = dnssec_validate_by_ds(&records, "example.com", 1, 500_000, &mut cache, &mut counter);
    assert_eq!(status.code, StatCode::Secure);
    assert_eq!(cache.find_dnskeys("EXAMPLE.com.", 1), vec![&dnskey_rdata[..]]);
    assert!(cache.find_dnskeys("example.com", 3).is_empty());
}

#[test]
fn trust_anchors_add_up() {
    let anchor = |tag: u16| DsData { key_tag: tag, algorithm: 8, digest_type: 2, digest: vec![1; 32] };
    let mut cache = DnssecCache::new();
    cache.insert_ds_neg_insecure("example.com");
    cache.insert_trust_anchor("Example.com.", anchor(1), 1);
    cache.insert_trust_anchor("example.com", anchor(2), 1);
    match cache.find_ds("example.com") {
        Some(DsState::Positive(v)) => {
            assert_eq!(v.iter().map(|(d, _)| d.key_tag).collect::<Vec<u16>>(), vec![1, 2]);
        }
        other => panic!("{other:?}"),
    }
    assert!(cache.find_ds("other.example").is_none());
}

#[test]
fn names_come_back_from_the_wire() {
    assert_eq!(name_to_wire(""), Some(vec![0]));
    assert_eq!(name_to_wire("."), Some(vec![0]));
    assert_eq!(name_to_wire("com."), Some(vec![3, b'c', b'o', b'm', 0]));
    assert_eq!(name_to_wire(&"a".repeat(64)), None);
    for name in ["", "com", "example.com", "a.b.c.d.example"] {
        let wire = name_to_wire(name).unwrap();
        let (read, len) = parse_wire_name(&wire).unwrap();
        assert_eq!((read.as_str(), len), (name, wire.len()));
    }
}

#[test]
fn the_order_of_serial_numbers_swaps() {
    for (a, b) in [(1u32, 2u32), (0xFFFF_FFFF, 0), (5, 5), (0, 0x8000_0000)] {
        let swapped = match serial_compare_32(b, a) {
            SerialCmp::Less => SerialCmp::Greater,
            SerialCmp::Greater => SerialCmp::Less,
            other => other,
        };
        assert_eq!(serial_compare_32(a, b), swapped);
    }
}

#[test]
fn a_dname_above_a_name_proves_nothing_of_it() {
    let nsec = |owner: &str, next: &str, bitmap: &[u8]| ParsedNsec {
        owner: owner.to_string(),
        next: next.to_string(),
        bitmap: bitmap.to_vec(),
        sig_labels: 2,
    };
    let gap = nsec("a.com", "z.com", &BM_NS_SOA);
    let dname = nsec("b.com", "c.com", &[0, 5, 0, 0, 0, 0, 1]);
    assert!(prove_non_existence_nsec(&[gap.clone(), dname.clone()], "x.b.com", 1).0.is_ok());
    assert_eq!(prove_non_existence_nsec(&[dname, gap], "x.b.com", 1).0, Err(DNSSEC_FAIL_NONSEC));
}

#[test]
fn what_the_root_signs_is_secure() {
    let (signing_key, key_tag, mut cache) = setup_trusted_zone("", 1);
    let (rr, sig) = sign_single_rr(&signing_key, "com", 1, 1, &[1, 2, 3, 4], "", key_tag, 300);
    let mut counter = 1000i32;
    let status = dnssec_validate_reply(
        &[rr, sig],
        &[],
        "com",
        1,
        1,
        0,
        500_000,
        &mut cache,
        &mut counter,
        false,
        None,
        DEFAULT_NSEC3_ITERS_LIMIT,
    );
    assert_eq!(status.code, StatCode::Secure, "got {status:?}");
}

#[test]
fn the_hash_of_the_root_is_that_of_one_zero_byte() {
    let hash = |data: &[u8]| Sha1::digest(data).to_vec();
    assert_eq!(hash_name("", &[], 0, hash), Some(Sha1::digest([0u8]).to_vec()));
}
