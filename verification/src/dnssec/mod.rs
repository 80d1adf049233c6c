//! DNSSEC record parsing and validation.

pub mod absence_laws;
pub mod basics;
pub mod canonical;
pub mod code_laws;
pub mod codes;
pub mod data_laws;
pub mod denial;
pub mod denial_laws;
pub mod laws;
pub mod nsec;
pub mod order;
pub mod records;
pub mod reply;
pub mod rrset;
pub mod signing_laws;
pub mod store;
pub mod zone_laws;

pub use crate::wire::DnssecError;
pub use basics::{base32_decode, count_labels, dec_counter, hash_name, serial_compare_32, SerialCmp};
pub use canonical::{canonicalize_rdata, RrDescriptor};
pub use codes::{
    check_signature_time, dnssec_generate_query, errflags_to_ede, is_check_date, setup_timestamp,
    timestamp_clock_now_sane, type_in_bitmap, TimestampSetup, DNSSEC_FAIL_BADPACKET, DNSSEC_FAIL_EXP, DNSSEC_FAIL_INDET,
    DNSSEC_FAIL_NODSSUP, DNSSEC_FAIL_NOKEY, DNSSEC_FAIL_NOKEYSUP, DNSSEC_FAIL_NONSEC, DNSSEC_FAIL_NOSIG,
    DNSSEC_FAIL_NOZONE, DNSSEC_FAIL_NSEC3_ITERS, DNSSEC_FAIL_NYV, DNSSEC_FAIL_UPSTREAM, DNSSEC_FAIL_WORK,
    EDE_DNSSEC_IND, EDE_NO_DNSKEY, EDE_NO_NSEC, EDE_NO_RRSIG, EDE_NO_ZONEKEY, EDE_SIG_EXP, EDE_SIG_NYV, EDE_UNSET,
    EDE_UNS_NS3_ITER, EDE_USUPDNSKEY, EDE_USUPDS, EDE_US_SERVFAIL,
};
pub use denial::{prove_non_existence, prove_non_existence_nsec3};
pub use nsec::{
    check_nsec3_coverage, parse_nsec3_rdata, parse_nsec_rdata, prove_non_existence_nsec, sha1_name, ParsedNsec,
    ParsedNsec3, ParsedNsec3Raw, DEFAULT_NSEC3_ITERS_LIMIT,
};
pub use order::{hostname_cmp, sort_rrset};
pub use records::{
    compute_key_tag, dnskey_keytag, ds_matches_dnskey, parse_dnskey_rdata, parse_ds_rdata, parse_rrsig_rdata, DnskeyData,
    DsData, RrsigData, ValidationResult,
};
pub use reply::{dnssec_validate_by_ds, dnssec_validate_ds, dnssec_validate_reply, learn_ds, resolve_target, DsLearned};
pub use rrset::{explore_rrset, judge_step, rr_ttl, signature_step, validate_rrset, RrsetValidation, SigCheck, SigStep};
pub use store::{dns_suffixes, ds_entry_supported, zone_status, DnssecCache, StatCode, ValidateStatus};
