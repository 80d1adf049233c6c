//! Validation of replies.

use super::basics::{dec, dec_counter};
use super::codes::{
    DNSSEC_FAIL_INDET, DNSSEC_FAIL_NODSSUP, DNSSEC_FAIL_NOKEY, DNSSEC_FAIL_NONSEC,
    DNSSEC_FAIL_NOSIG, DNSSEC_FAIL_NOZONE, DNSSEC_FAIL_NSEC3_ITERS, DNSSEC_FAIL_UPSTREAM,
};
use super::denial::{denial, prove_non_existence};
use super::nsec::{T_CNAME, T_DS, T_NSEC, T_NSEC3};
use super::records::{
    compute_key_tag, ds_matches, ds_matches_dnskey, ds_of, fold16, parse_dnskey_rdata, parse_ds_rdata, word_sum, DsData,
    DsView,
};
use super::rrset::{
    explore_rrset, in_rrset, in_rrsigs, signer_of, validate_rrset, validated, RrsetValidation,
    T_RRSIG,
};
use super::store::{
    bogus_status, clone_entries, ds_entry_supported, entry_views, keys_of_class, plain, slice_views, usable, zone,
    zone_status, Code, DnssecCache, DsKnown, DsState, StatCode, Status, ValidateStatus,
};
use crate::crypto::{digest_supported, ds_digest_supported};
use crate::names::{norm, norm_name};
use crate::rfc1035::{clone_records, clone_refs, ref_views, rr_views, DnsRr, RrView};
use crate::text::{copy_range, lower, same, same_ignoring_case, select};
use crate::wire::{be16, dotted_name, parse_wire_name};
use vstd::prelude::*;

verus! {

pub const T_DNSKEY: u16 = 48;

/// Whether DNSKEY data is a zone key: protocol 3 and the zone-key flag.
pub open spec fn is_zone_key(rdata: Seq<u8>) -> bool {
    rdata.len() >= 4 && rdata[2] == 3 && be16(rdata, 0) / 256 % 2 == 1
}

/// Whether DNSKEY data is a zone key.
fn zone_key(rdata: &[u8]) -> (r: bool)
    ensures
        r == is_zone_key(rdata@),
{
    match parse_dnskey_rdata(rdata) {
        Err(_) => false,
        Ok(key) => key.protocol == 3 && key.flags / 256 % 2 == 1,
    }
}

/// What the DS records from number `j` on say of the zone key `key`: the status that they settle,
/// if any, the failure flags, and the work counter afterwards.
///
/// A record for the class with a supported digest clears the flag for unsupported digests. One that
/// names the key costs one unit of work; when its digest matches and the key set is signed by the
/// key, the set is secure.
pub open spec fn try_ds(
    entries: Seq<(DsView, u16)>,
    j: int,
    key: Seq<u8>,
    rrset: Seq<RrView>,
    sigs: Seq<RrView>,
    name: Seq<char>,
    class: u16,
    now: u32,
    fail: u32,
    counter: i32,
) -> (Option<Status>, u32, i32)
    decreases entries.len() - j,
{
    if !(0 <= j < entries.len()) {
        (None, fail, counter)
    } else {
        let (ds, ds_class) = entries[j];
        if ds_class != class || !digest_supported(ds.digest_type) {
            try_ds(entries, j + 1, key, rrset, sigs, name, class, now, fail, counter)
        } else {
            let fail2 = fail & !DNSSEC_FAIL_NODSSUP;
            if ds.algorithm != key[3] || ds.key_tag != fold16(word_sum(key)) {
                try_ds(entries, j + 1, key, rrset, sigs, name, class, now, fail2, counter)
            } else if counter == 0 {
                (Some(plain(Code::Abandoned)), fail2, counter)
            } else if !ds_matches(ds, key, name) {
                try_ds(entries, j + 1, key, rrset, sigs, name, class, now, fail2, dec(counter))
            } else {
                let (o, c) = validated(rrset, sigs, name, T_DNSKEY, class, now, Some(key), dec(counter));
                if o is Secure {
                    (Some(plain(Code::Secure)), fail2, c)
                } else {
                    try_ds(entries, j + 1, key, rrset, sigs, name, class, now, fail2, c)
                }
            }
        }
    }
}

/// The status of a key set, its keys from number `i` on being tried, and the work counter afterwards.
pub open spec fn try_zone_keys(
    entries: Seq<(DsView, u16)>,
    rrset: Seq<RrView>,
    i: int,
    sigs: Seq<RrView>,
    name: Seq<char>,
    class: u16,
    now: u32,
    fail: u32,
    counter: i32,
) -> (Status, i32)
    decreases rrset.len() - i,
{
    if !(0 <= i < rrset.len()) {
        (bogus_status(fail | DNSSEC_FAIL_NOKEY), counter)
    } else if !is_zone_key(rrset[i].rdata) {
        try_zone_keys(entries, rrset, i + 1, sigs, name, class, now, fail, counter)
    } else {
        match try_ds(
            entries,
            0,
            rrset[i].rdata,
            rrset,
            sigs,
            name,
            class,
            now,
            fail & !DNSSEC_FAIL_NOZONE,
            counter,
        ) {
            (Some(s), f, c) => (s, c),
            (None, f, c) => try_zone_keys(entries, rrset, i + 1, sigs, name, class, now, f, c),
        }
    }
}

/// The status of the DNSKEY records of `name` by its DS records, and the work counter afterwards.
pub open spec fn by_ds(
    records: Seq<RrView>,
    name: Seq<char>,
    class: u16,
    now: u32,
    cache: DnssecCache,
    counter: i32,
) -> (Status, i32) {
    let rrset = select(records, in_rrset(name, class, T_DNSKEY));
    let sigs = select(records, in_rrsigs(name, class, T_DNSKEY));
    if rrset.len() == 0 {
        (bogus_status(DNSSEC_FAIL_NOKEY), counter)
    } else if sigs.len() == 0 {
        (bogus_status(DNSSEC_FAIL_NOSIG), counter)
    } else {
        match cache.ds_of_name(name) {
            None => (plain(Code::NeedDs { name: norm(name), class }), counter),
            Some(known) => {
                let entries = match known {
                    DsKnown::Positive(e) => e,
                    _ => seq![],
                };
                try_zone_keys(
                    entries,
                    rrset,
                    0,
                    sigs,
                    name,
                    class,
                    now,
                    DNSSEC_FAIL_NODSSUP | DNSSEC_FAIL_NOZONE,
                    counter,
                )
            },
        }
    }
}

/// The zone keys of a key set with their class, in order.
pub open spec fn zone_keys(rrset: Seq<RrView>, class: u16) -> Seq<(Seq<u8>, u16)>
    decreases rrset.len(),
{
    if rrset.len() == 0 {
        seq![]
    } else if is_zone_key(rrset.last().rdata) {
        zone_keys(rrset.drop_last(), class).push((rrset.last().rdata, class))
    } else {
        zone_keys(rrset.drop_last(), class)
    }
}

/// Whether two stores know the same.
pub open spec fn same_store(a: DnssecCache, b: DnssecCache) -> bool {
    &&& forall|n: Seq<char>| #[trigger] a.ds_of_name(n) == b.ds_of_name(n)
    &&& forall|n: Seq<char>| #[trigger] a.keys_of_name(n) == b.keys_of_name(n)
}

/// Whether `a` is `b` with `keys` added for `name`.
pub open spec fn keys_added(a: DnssecCache, b: DnssecCache, name: Seq<char>, keys: Seq<(Seq<u8>, u16)>) -> bool {
    &&& forall|n: Seq<char>| #[trigger] a.ds_of_name(n) == b.ds_of_name(n)
    &&& forall|n: Seq<char>|
        #[trigger] a.keys_of_name(n) == if norm(n) == norm(name) {
            b.keys_of_name(n) + keys
        } else {
            b.keys_of_name(n)
        }
}

/// Tries the DS records of a zone on one of its keys.
fn check_ds(
    entries: &Vec<(DsData, u16)>,
    key: &[u8],
    rrset: &Vec<DnsRr>,
    sigs: &Vec<&DnsRr>,
    name: &str,
    class: u16,
    now_ts: u32,
    fail: &mut u32,
    counter: &mut i32,
) -> (r: Option<ValidateStatus>)
    requires
        is_zone_key(key@),
    ensures
        ({
            let (s, f, c) = try_ds(
                entry_views(entries@),
                0,
                key@,
                rr_views(rrset@),
                ref_views(sigs@),
                name@,
                class,
                now_ts,
                *old(fail),
                *old(counter),
            );
            &&& *final(fail) == f
            &&& *final(counter) == c
            &&& match r {
                Some(v) => s == Some(v@),
                None => s is None,
            }
        }),
{
    let keytag: u16 = compute_key_tag(key);
    let ghost ev = entry_views(entries@);
    let ghost rv = rr_views(rrset@);
    let ghost sv = ref_views(sigs@);
    let mut j: usize = 0;
    while j < entries.len()
        invariant
            j <= entries@.len(),
            ev == entry_views(entries@),
            rv == rr_views(rrset@),
            sv == ref_views(sigs@),
            is_zone_key(key@),
            keytag == fold16(word_sum(key@)),
            try_ds(ev, 0, key@, rv, sv, name@, class, now_ts, *old(fail), *old(counter)) == try_ds(
                ev,
                j as int,
                key@,
                rv,
                sv,
                name@,
                class,
                now_ts,
                *fail,
                *counter,
            ),
        decreases entries@.len() - j,
    {
        let ds: &DsData = &entries[j].0;
        assert(ev[j as int] == (ds@, entries@[j as int].1));
        if entries[j].1 == class && ds_digest_supported(ds.digest_type) {
            *fail = *fail & !DNSSEC_FAIL_NODSSUP;
            if ds.algorithm == key[3] && ds.key_tag == keytag {
                if dec_counter(counter) {
                    return Some(ValidateStatus::abandoned());
                }
                if ds_matches_dnskey(ds, key, name) {
                    let v: RrsetValidation = validate_rrset(
                        rrset.as_slice(),
                        sigs.as_slice(),
                        name,
                        T_DNSKEY,
                        class,
                        now_ts,
                        Some(key),
                        counter,
                    );
                    if let RrsetValidation::Secure { ttl, key_tag } = v {
                        return Some(ValidateStatus::secure());
                    }
                }
            }
        }
        j += 1;
    }
    None
}

/// Adds the zone keys of a key set to the store.
fn add_zone_keys(rrset: &Vec<DnsRr>, name: &str, class: u16, cache: &mut DnssecCache)
    ensures
        keys_added(*final(cache), *old(cache), name@, zone_keys(rr_views(rrset@), class)),
{
    let ghost all = rr_views(rrset@);
    let mut i: usize = 0;
    assert forall|n: Seq<char>|
        #[trigger] cache.keys_of_name(n) == if norm(n) == norm(name@) {
            old(cache).keys_of_name(n) + zone_keys(all.take(0), class)
        } else {
            old(cache).keys_of_name(n)
        } by {
        assert(old(cache).keys_of_name(n) + zone_keys(all.take(0), class) =~= old(cache).keys_of_name(n));
    }
    while i < rrset.len()
        invariant
            i <= rrset@.len(),
            all == rr_views(rrset@),
            keys_added(*cache, *old(cache), name@, zone_keys(all.take(i as int), class)),
        decreases rrset@.len() - i,
    {
        proof {
            assert(all.take(i + 1).drop_last() =~= all.take(i as int));
            assert(all.take(i + 1).last() == rrset@[i as int]@);
        }
        if zone_key(rrset[i].rdata.as_slice()) {
            let ghost before = *cache;
            let copy: Vec<u8> = copy_range(rrset[i].rdata.as_slice(), 0, rrset[i].rdata.len());
            assert(copy@ =~= rrset@[i as int].rdata@);
            cache.insert_dnskey(name, copy, class);
            proof {
                assert forall|n: Seq<char>|
                    #[trigger] cache.keys_of_name(n) == if norm(n) == norm(name@) {
                        old(cache).keys_of_name(n) + zone_keys(all.take(i + 1), class)
                    } else {
                        old(cache).keys_of_name(n)
                    } by {
                    if norm(n) == norm(name@) {
                        assert(before.keys_of_name(n).push((copy@, class)) =~= old(cache).keys_of_name(n) + zone_keys(
                            all.take(i + 1),
                            class,
                        ));
                    }
                }
                assert forall|n: Seq<char>| #[trigger] cache.ds_of_name(n) == old(cache).ds_of_name(n) by {
                    assert(before.ds_of_name(n) == old(cache).ds_of_name(n));
                }
            }
        }
        i += 1;
    }
    assert(all.take(all.len() as int) =~= all);
}

/// Validates the DNSKEY records of `name` by its DS records, and keeps the zone keys when they are
/// secure.
///
/// `records` are the records of the answer to a DNSKEY query: the keys and the signatures over them.
pub fn dnssec_validate_by_ds(
    records: &[DnsRr],
    name: &str,
    class: u16,
    now_ts: u32,
    cache: &mut DnssecCache,
    counter: &mut i32,
) -> (r: ValidateStatus)
    ensures
        (r@, *final(counter)) == by_ds(rr_views(records@), name@, class, now_ts, *old(cache), *old(counter)),
        r@.code is Secure ==> keys_added(
            *final(cache),
            *old(cache),
            name@,
            zone_keys(select(rr_views(records@), in_rrset(name@, class, T_DNSKEY)), class),
        ),
        !(r@.code is Secure) ==> same_store(*final(cache), *old(cache)),
{
    let (rrset_refs, rrsigs) = explore_rrset(records, name, class, T_DNSKEY);
    if rrset_refs.len() == 0 {
        return ValidateStatus::bogus(DNSSEC_FAIL_NOKEY);
    }
    if rrsigs.len() == 0 {
        return ValidateStatus::bogus(DNSSEC_FAIL_NOSIG);
    }
    let rrset: Vec<DnsRr> = clone_refs(&rrset_refs);
    let entries: Vec<(DsData, u16)> = match cache.find_ds(name) {
        None => {
            let n: String = norm_name(name);
            return ValidateStatus::need_ds(n.as_str(), class);
        },
        Some(DsState::Positive(e)) => clone_entries(e),
        Some(_) => Vec::new(),
    };
    let ghost ev = match cache.ds_of_name(name@)->0 {
        DsKnown::Positive(e) => e,
        _ => seq![],
    };
    assert(entry_views(entries@) =~= ev);
    let ghost rv = rr_views(rrset@);
    let ghost sv = ref_views(rrsigs@);
    let mut fail: u32 = DNSSEC_FAIL_NODSSUP | DNSSEC_FAIL_NOZONE;
    let mut i: usize = 0;
    while i < rrset.len()
        invariant
            i <= rrset@.len(),
            ev == entry_views(entries@),
            rv == rr_views(rrset@),
            sv == ref_views(rrsigs@),
            rv == select(rr_views(records@), in_rrset(name@, class, T_DNSKEY)),
            *cache == *old(cache),
            by_ds(rr_views(records@), name@, class, now_ts, *old(cache), *old(counter)) == try_zone_keys(
                ev,
                rv,
                i as int,
                sv,
                name@,
                class,
                now_ts,
                fail,
                *counter,
            ),
        decreases rrset@.len() - i,
    {
        assert(rv[i as int] == rrset@[i as int]@);
        if zone_key(rrset[i].rdata.as_slice()) {
            fail = fail & !DNSSEC_FAIL_NOZONE;
            if let Some(status) = check_ds(
                &entries,
                rrset[i].rdata.as_slice(),
                &rrset,
                &rrsigs,
                name,
                class,
                now_ts,
                &mut fail,
                counter,
            ) {
                if status.is_secure() {
                    add_zone_keys(&rrset, name, class, cache);
                }
                return status;
            }
        }
        i += 1;
    }
    ValidateStatus::bogus(fail | DNSSEC_FAIL_NOKEY)
}

pub const T_ANY: u16 = 255;

pub const RCODE_NOERROR: u8 = 0;

pub const RCODE_SERVFAIL: u8 = 2;

pub const RCODE_NXDOMAIN: u8 = 3;

/// Whether some record of `answer` answers for the normalised name `target`; any type will do for
/// an ANY query.
pub open spec fn answers(answer: Seq<RrView>, target: Seq<char>, qtype: u16, class: u16) -> bool {
    exists|i: int|
        0 <= i < answer.len() && norm((#[trigger] answer[i]).name) == target && answer[i].class == class && (qtype == T_ANY
            || answer[i].rtype == qtype)
}

/// The normalised name to which the first CNAME at `target`, from number `i` on, points.
pub open spec fn cname_target(answer: Seq<RrView>, i: int, target: Seq<char>, class: u16) -> Option<Seq<char>>
    decreases answer.len() - i,
{
    if !(0 <= i < answer.len()) {
        None
    } else if norm(answer[i].name) == target && answer[i].rtype == T_CNAME && answer[i].class == class {
        match dotted_name(answer[i].rdata) {
            Ok((next, n)) => Some(norm(next)),
            Err(_) => None,
        }
    } else {
        cname_target(answer, i + 1, target, class)
    }
}

/// Where the CNAME records lead from `target` in at most `hops` hops, and whether there is an answer
/// there.
pub open spec fn chase(answer: Seq<RrView>, target: Seq<char>, qtype: u16, class: u16, hops: nat) -> (Seq<char>, bool)
    decreases hops,
{
    if answers(answer, target, qtype, class) {
        (target, true)
    } else {
        match cname_target(answer, 0, target, class) {
            None => (target, false),
            Some(next) => if hops == 0 {
                (target, false)
            } else {
                chase(answer, next, qtype, class, (hops - 1) as nat)
            },
        }
    }
}

/// The name that needs an answer, and whether it has one. CNAME records are followed, unless they
/// or all types are asked for, for as many hops as there are records: a longer way is a loop.
pub open spec fn resolved(answer: Seq<RrView>, qname: Seq<char>, qtype: u16, class: u16) -> (Seq<char>, bool) {
    if qtype == T_CNAME || qtype == T_ANY {
        (norm(qname), answers(answer, norm(qname), qtype, class))
    } else {
        chase(answer, norm(qname), qtype, class, answer.len())
    }
}

/// Whether some record answers for `target`.
fn has_answer(answer: &[DnsRr], target: &str, qtype: u16, class: u16) -> (r: bool)
    ensures
        r == answers(rr_views(answer@), target@, qtype, class),
{
    let ghost all = rr_views(answer@);
    let mut i: usize = 0;
    while i < answer.len()
        invariant
            i <= answer@.len(),
            all == rr_views(answer@),
            forall|j: int|
                0 <= j < i ==> !(norm((#[trigger] all[j]).name) == target@ && all[j].class == class && (qtype == T_ANY
                    || all[j].rtype == qtype)),
        decreases answer@.len() - i,
    {
        assert(all[i as int] == answer@[i as int]@);
        let n: String = norm_name(answer[i].name.as_str());
        if answer[i].class == class && (qtype == T_ANY || answer[i].rtype == qtype) && same(n.as_str(), target) {
            assert(norm(all[i as int].name) == target@);
            return true;
        }
        i += 1;
    }
    false
}

/// The name to which the first CNAME at `target` points.
fn find_cname(answer: &[DnsRr], target: &str, class: u16) -> (r: Option<String>)
    ensures
        match r {
            Some(s) => cname_target(rr_views(answer@), 0, target@, class) == Some(s@),
            None => cname_target(rr_views(answer@), 0, target@, class) is None,
        },
{
    let ghost all = rr_views(answer@);
    let mut i: usize = 0;
    while i < answer.len()
        invariant
            i <= answer@.len(),
            all == rr_views(answer@),
            cname_target(all, 0, target@, class) == cname_target(all, i as int, target@, class),
        decreases answer@.len() - i,
    {
        assert(all[i as int] == answer@[i as int]@);
        let n: String = norm_name(answer[i].name.as_str());
        if answer[i].rtype == T_CNAME && answer[i].class == class && same(n.as_str(), target) {
            return match parse_wire_name(answer[i].rdata.as_slice()) {
                Ok((next, used)) => Some(norm_name(next.as_str())),
                Err(_) => None,
            };
        }
        i += 1;
    }
    None
}

/// Follows the CNAME records of the answer from `qname`: the name that needs an answer, and whether
/// it has one.
pub fn resolve_target(answer: &[DnsRr], qname: &str, qtype: u16, class: u16) -> (r: (String, bool))
    ensures
        (r.0@, r.1) == resolved(rr_views(answer@), qname@, qtype, class),
{
    let mut target: String = norm_name(qname);
    if qtype == T_CNAME || qtype == T_ANY {
        let found: bool = has_answer(answer, target.as_str(), qtype, class);
        return (target, found);
    }
    let ghost all = rr_views(answer@);
    let mut hops: usize = answer.len();
    loop
        invariant
            all == rr_views(answer@),
            chase(all, norm(qname@), qtype, class, all.len()) == chase(all, target@, qtype, class, hops as nat),
            !(qtype == T_CNAME || qtype == T_ANY),
        decreases hops,
    {
        if has_answer(answer, target.as_str(), qtype, class) {
            return (target, true);
        }
        match find_cname(answer, target.as_str(), class) {
            None => {
                return (target, false);
            },
            Some(next) => {
                if hops == 0 {
                    return (target, false);
                }
                target = next;
                hops -= 1;
            },
        }
    }
}

/// Whether two records belong to one RRset.
pub open spec fn same_set(a: RrView, b: RrView) -> bool {
    norm(a.name) == norm(b.name) && a.rtype == b.rtype && a.class == b.class
}

/// Whether some record of `s` belongs to the RRset of `rr`.
pub open spec fn any_same_set(s: Seq<RrView>, rr: RrView) -> bool {
    exists|i: int| 0 <= i < s.len() && same_set(#[trigger] s[i], rr)
}

/// Whether an RRset is validated at its first record: RRSIG records are never validated themselves.
pub open spec fn starts_set(all: Seq<RrView>, i: int) -> bool {
    all[i].rtype != T_RRSIG && !any_same_set(all.take(i), all[i])
}

/// Whether all signatures name one signer, ASCII case aside.
pub open spec fn one_signer(sigs: Seq<RrView>) -> bool {
    forall|i: int|
        0 <= i < sigs.len() ==> lower(signer_of((#[trigger] sigs[i]).rdata)) == lower(signer_of(sigs[0].rdata))
}

/// The zone that signed an RRset: its signer, or the owner when there is no signature.
pub open spec fn signing_zone(sigs: Seq<RrView>, owner: Seq<char>) -> Seq<char> {
    if sigs.len() == 0 {
        owner
    } else {
        signer_of(sigs[0].rdata)
    }
}

/// Whether one of the keys from number `k` on validates an RRset, and the work counter afterwards.
pub open spec fn some_key_validates(
    keys: Seq<Seq<u8>>,
    k: int,
    rrset: Seq<RrView>,
    sigs: Seq<RrView>,
    rr: RrView,
    now: u32,
    counter: i32,
) -> (bool, i32)
    decreases keys.len() - k,
{
    if !(0 <= k < keys.len()) {
        (false, counter)
    } else {
        let (o, c) = validated(rrset, sigs, rr.name, rr.rtype, rr.class, now, Some(keys[k]), counter);
        if o is Secure {
            (true, c)
        } else {
            some_key_validates(keys, k + 1, rrset, sigs, rr, now, c)
        }
    }
}

/// What one RRset says of a reply: a status that ends the validation, or whether it makes the reply
/// insecure; and the work counter afterwards.
///
/// Unsigned NSEC and NSEC3 records are bogus. Other unsigned records make the reply insecure, but
/// for authority records in a DS reply, which do not count, and answers that must be signed.
/// Signatures by several signers are bogus. A zone whose status is not settled asks for what it
/// needs, and an insecure zone makes the reply insecure. In a secure zone a key must be known, and
/// one key must validate the records.
pub open spec fn set_verdict(
    all: Seq<RrView>,
    answer: Seq<RrView>,
    rr: RrView,
    now: u32,
    cache: DnssecCache,
    counter: i32,
    check_unsigned: bool,
    ds_mode: bool,
) -> (Option<Status>, bool, i32) {
    let rrset = select(all, in_rrset(rr.name, rr.class, rr.rtype));
    let sigs = select(all, in_rrsigs(rr.name, rr.class, rr.rtype));
    let in_answer = any_same_set(answer, rr);
    if sigs.len() == 0 && (rr.rtype == T_NSEC || rr.rtype == T_NSEC3) {
        (Some(bogus_status(DNSSEC_FAIL_NOSIG)), false, counter)
    } else if sigs.len() == 0 && ds_mode && !in_answer {
        (None, false, counter)
    } else if sigs.len() == 0 && (!check_unsigned || !in_answer) {
        (None, true, counter)
    } else if !one_signer(sigs) {
        (Some(bogus_status(DNSSEC_FAIL_NOSIG)), false, counter)
    } else {
        let zone_name = signing_zone(sigs, rr.name);
        let zs = zone(cache, zone_name, rr.class);
        if zs.code is Insecure {
            (None, true, counter)
        } else if !(zs.code is Secure) {
            (Some(zs), false, counter)
        } else {
            let keys = keys_of_class(cache.keys_of_name(zone_name), rr.class);
            let (ok, c) = some_key_validates(keys, 0, rrset, sigs, rr, now, counter);
            if keys.len() == 0 {
                (Some(plain(Code::NeedKey { name: zone_name, class: rr.class })), false, counter)
            } else if ok {
                (None, false, c)
            } else {
                (Some(bogus_status(DNSSEC_FAIL_NOKEY)), false, c)
            }
        }
    }
}

/// What the RRsets from record number `i` on say of a reply.
pub open spec fn sets_verdict(
    all: Seq<RrView>,
    answer: Seq<RrView>,
    i: int,
    now: u32,
    cache: DnssecCache,
    insecure: bool,
    counter: i32,
    check_unsigned: bool,
    ds_mode: bool,
) -> (Option<Status>, bool, i32)
    decreases all.len() - i,
{
    if !(0 <= i < all.len()) {
        (None, insecure, counter)
    } else if !starts_set(all, i) {
        sets_verdict(all, answer, i + 1, now, cache, insecure, counter, check_unsigned, ds_mode)
    } else {
        match set_verdict(all, answer, all[i], now, cache, counter, check_unsigned, ds_mode) {
            (Some(s), _, c) => (Some(s), insecure, c),
            (None, now_insecure, c) => sets_verdict(
                all,
                answer,
                i + 1,
                now,
                cache,
                insecure || now_insecure,
                c,
                check_unsigned,
                ds_mode,
            ),
        }
    }
}

/// Whether some record belongs to the RRset of `rr`.
fn has_same_set(s: &[DnsRr], n: usize, rr: &DnsRr) -> (r: bool)
    requires
        n <= s@.len(),
    ensures
        r == any_same_set(rr_views(s@).take(n as int), rr@),
{
    let ghost all = rr_views(s@).take(n as int);
    let key: String = norm_name(rr.name.as_str());
    let mut i: usize = 0;
    while i < n
        invariant
            i <= n <= s@.len(),
            all == rr_views(s@).take(n as int),
            key@ == norm(rr@.name),
            forall|j: int| 0 <= j < i ==> !same_set(#[trigger] all[j], rr@),
        decreases n - i,
    {
        assert(all[i as int] == s@[i as int]@);
        let other: String = norm_name(s[i].name.as_str());
        if s[i].rtype == rr.rtype && s[i].class == rr.class && same(other.as_str(), key.as_str()) {
            assert(same_set(all[i as int], rr@));
            return true;
        }
        i += 1;
    }
    false
}

/// Everything that `select` picks satisfies its predicate.
proof fn lemma_select_holds<A>(s: Seq<A>, p: spec_fn(A) -> bool)
    ensures
        forall|i: int| 0 <= i < select(s, p).len() ==> p(#[trigger] select(s, p)[i]),
    decreases s.len(),
{
    if s.len() > 0 {
        lemma_select_holds(s.drop_last(), p);
        let d = select(s.drop_last(), p);
        assert forall|i: int| 0 <= i < select(s, p).len() implies p(#[trigger] select(s, p)[i]) by {
            if i < d.len() {
                assert(select(s, p)[i] == d[i]);
            }
        }
    }
}

/// The signer that all signatures name; `None` when they name several.
fn common_signer(sigs: &Vec<&DnsRr>, owner: &str) -> (r: Option<String>)
    requires
        forall|i: int| 0 <= i < sigs@.len() ==> (#[trigger] sigs@[i])@.rdata.len() >= 18,
    ensures
        r is Some <==> one_signer(ref_views(sigs@)),
        r matches Some(z) ==> z@ == signing_zone(ref_views(sigs@), owner@),
{
    let ghost sv = ref_views(sigs@);
    if sigs.len() == 0 {
        return Some(String::from_str(owner));
    }
    let first: String = signer_name(sigs[0]);
    assert(sv[0] == sigs@[0]@);
    let mut i: usize = 0;
    while i < sigs.len()
        invariant
            i <= sigs@.len(),
            sigs@.len() > 0,
            sv == ref_views(sigs@),
            first@ == signer_of(sv[0].rdata),
            forall|j: int| 0 <= j < sigs@.len() ==> (#[trigger] sigs@[j])@.rdata.len() >= 18,
            forall|j: int| 0 <= j < i ==> lower(signer_of((#[trigger] sv[j]).rdata)) == lower(signer_of(sv[0].rdata)),
        decreases sigs@.len() - i,
    {
        let s: String = signer_name(sigs[i]);
        assert(sv[i as int] == sigs@[i as int]@);
        if !same_ignoring_case(first.as_str(), s.as_str()) {
            return None;
        }
        i += 1;
    }
    Some(first)
}

/// The signer's name in a signature.
fn signer_name(sig: &DnsRr) -> (r: String)
    requires
        sig@.rdata.len() >= 18,
    ensures
        r@ == signer_of(sig@.rdata),
{
    let rest: &[u8] = &sig.rdata.as_slice()[18..sig.rdata.len()];
    assert(rest@ =~= sig.rdata@.skip(18));
    match parse_wire_name(rest) {
        Ok((n, used)) => n,
        Err(_) => {
            let empty = String::new();
            assert(empty@ =~= signer_of(sig@.rdata));
            empty
        },
    }
}

/// Tries the keys of a zone on an RRset.
fn try_keys(
    keys: &Vec<&[u8]>,
    rrset: &Vec<DnsRr>,
    sigs: &Vec<&DnsRr>,
    rr: &DnsRr,
    now_ts: u32,
    counter: &mut i32,
) -> (r: bool)
    ensures
        (r, *final(counter)) == some_key_validates(
            slice_views(keys@),
            0,
            rr_views(rrset@),
            ref_views(sigs@),
            rr@,
            now_ts,
            *old(counter),
        ),
{
    let ghost kv = slice_views(keys@);
    let ghost rv = rr_views(rrset@);
    let ghost sv = ref_views(sigs@);
    let mut k: usize = 0;
    while k < keys.len()
        invariant
            k <= keys@.len(),
            kv == slice_views(keys@),
            rv == rr_views(rrset@),
            sv == ref_views(sigs@),
            some_key_validates(kv, 0, rv, sv, rr@, now_ts, *old(counter)) == some_key_validates(
                kv,
                k as int,
                rv,
                sv,
                rr@,
                now_ts,
                *counter,
            ),
        decreases keys@.len() - k,
    {
        assert(kv[k as int] == keys@[k as int]@);
        let v: RrsetValidation = validate_rrset(
            rrset.as_slice(),
            sigs.as_slice(),
            rr.name.as_str(),
            rr.rtype,
            rr.class,
            now_ts,
            Some(keys[k]),
            counter,
        );
        if let RrsetValidation::Secure { ttl, key_tag } = v {
            return true;
        }
        k += 1;
    }
    false
}

/// Judges one RRset of a reply.
fn judge_set(
    all: &[DnsRr],
    answer: &[DnsRr],
    rr: &DnsRr,
    now_ts: u32,
    cache: &DnssecCache,
    counter: &mut i32,
    check_unsigned: bool,
    ds_mode: bool,
) -> (r: (Option<ValidateStatus>, bool))
    ensures
        ({
            let (s, f, c) = set_verdict(
                rr_views(all@),
                rr_views(answer@),
                rr@,
                now_ts,
                *cache,
                *old(counter),
                check_unsigned,
                ds_mode,
            );
            &&& *final(counter) == c
            &&& r.1 == f
            &&& match r.0 {
                Some(v) => s == Some(v@),
                None => s is None,
            }
        }),
{
    let in_answer: bool = has_same_set(answer, answer.len(), rr);
    assert(rr_views(answer@).take(answer@.len() as int) =~= rr_views(answer@));
    let (rrset_refs, rrsigs) = explore_rrset(all, rr.name.as_str(), rr.class, rr.rtype);
    if rrsigs.len() == 0 {
        if rr.rtype == T_NSEC || rr.rtype == T_NSEC3 {
            return (Some(ValidateStatus::bogus(DNSSEC_FAIL_NOSIG)), false);
        }
        if ds_mode && !in_answer {
            return (None, false);
        }
        if !check_unsigned || !in_answer {
            return (None, true);
        }
    }
    proof {
        let p = in_rrsigs(rr@.name, rr@.class, rr@.rtype);
        lemma_select_holds(rr_views(all@), p);
        assert forall|i: int| 0 <= i < rrsigs@.len() implies (#[trigger] rrsigs@[i])@.rdata.len() >= 18 by {
            assert(ref_views(rrsigs@)[i] == rrsigs@[i]@);
            assert(p(ref_views(rrsigs@)[i]));
        }
    }
    let zone_name: String = match common_signer(&rrsigs, rr.name.as_str()) {
        None => {
            return (Some(ValidateStatus::bogus(DNSSEC_FAIL_NOSIG)), false);
        },
        Some(z) => z,
    };
    let zs: ValidateStatus = zone_status(zone_name.as_str(), rr.class, cache);
    match &zs.code {
        StatCode::Insecure => {
            return (None, true);
        },
        StatCode::Secure => {},
        _ => {
            return (Some(zs), false);
        },
    }
    let rrset: Vec<DnsRr> = clone_refs(&rrset_refs);
    let keys: Vec<&[u8]> = cache.find_dnskeys(zone_name.as_str(), rr.class);
    if keys.len() == 0 {
        return (Some(ValidateStatus::need_key(zone_name.as_str(), rr.class)), false);
    }
    if try_keys(&keys, &rrset, &rrsigs, rr, now_ts, counter) {
        (None, false)
    } else {
        (Some(ValidateStatus::bogus(DNSSEC_FAIL_NOKEY)), false)
    }
}

/// Judges all RRsets of a reply.
fn judge_sets(
    all: &[DnsRr],
    answer: &[DnsRr],
    now_ts: u32,
    cache: &DnssecCache,
    counter: &mut i32,
    check_unsigned: bool,
    ds_mode: bool,
) -> (r: (Option<ValidateStatus>, bool))
    ensures
        ({
            let (s, f, c) = sets_verdict(
                rr_views(all@),
                rr_views(answer@),
                0,
                now_ts,
                *cache,
                false,
                *old(counter),
                check_unsigned,
                ds_mode,
            );
            &&& *final(counter) == c
            &&& r.1 == f
            &&& match r.0 {
                Some(v) => s == Some(v@),
                None => s is None,
            }
        }),
{
    let ghost av = rr_views(all@);
    let ghost nv = rr_views(answer@);
    let mut insecure: bool = false;
    let mut i: usize = 0;
    while i < all.len()
        invariant
            i <= all@.len(),
            av == rr_views(all@),
            nv == rr_views(answer@),
            sets_verdict(av, nv, 0, now_ts, *cache, false, *old(counter), check_unsigned, ds_mode) == sets_verdict(
                av,
                nv,
                i as int,
                now_ts,
                *cache,
                insecure,
                *counter,
                check_unsigned,
                ds_mode,
            ),
        decreases all@.len() - i,
    {
        let rr: &DnsRr = &all[i];
        assert(av[i as int] == rr@);
        if rr.rtype != T_RRSIG && !has_same_set(all, i, rr) {
            let (done, flag) = judge_set(all, answer, rr, now_ts, cache, counter, check_unsigned, ds_mode);
            if let Some(s) = done {
                return (Some(s), insecure);
            }
            insecure = insecure || flag;
        }
        i += 1;
    }
    (None, insecure)
}

/// The status of a reply whose RRsets did not end the validation.
pub open spec fn flag_status(insecure: bool) -> Status {
    if insecure {
        plain(Code::Insecure)
    } else {
        plain(Code::Secure)
    }
}

/// The status of a reply, whether an NS record may be missing, when that was asked for, and the work
/// counter afterwards.
///
/// A failed upstream server is bogus; other errors and signature queries are insecure. Every RRset
/// of the answer and the authority section is judged, and without an answer the authority section
/// must prove that there is none. Where that proof is missing the zone may still be unsigned.
pub open spec fn reply_status(
    answer: Seq<RrView>,
    auth: Seq<RrView>,
    qname: Seq<char>,
    qtype: u16,
    class: u16,
    rcode: u8,
    now: u32,
    cache: DnssecCache,
    counter: i32,
    check_unsigned: bool,
    nons: Option<bool>,
    limit: u32,
) -> (Status, Option<bool>, i32) {
    if rcode == RCODE_SERVFAIL {
        (bogus_status(DNSSEC_FAIL_UPSTREAM), nons, counter)
    } else if (rcode != RCODE_NXDOMAIN && rcode != RCODE_NOERROR) || qtype == T_RRSIG {
        (plain(Code::Insecure), nons, counter)
    } else {
        let (target, answered) = resolved(answer, qname, qtype, class);
        match sets_verdict(answer + auth, answer, 0, now, cache, false, counter, check_unsigned, nons is Some) {
            (Some(s), _, c) => (s, nons, c),
            (None, insecure, c) => if answered {
                (flag_status(insecure), nons, c)
            } else {
                let start = match nons {
                    Some(b) => b,
                    None => true,
                };
                let (proof_found, n, c2) = denial(auth, target, qtype, class, 0, start, c, limit);
                let nons2 = match nons {
                    Some(_) => Some(n),
                    None => None,
                };
                match proof_found {
                    Ok(_) => (flag_status(insecure), nons2, c2),
                    Err(fail) => {
                        let zs = zone(cache, target, class);
                        if fail & (DNSSEC_FAIL_NONSEC | DNSSEC_FAIL_NSEC3_ITERS) != 0 && !(zs.code is Secure) {
                            (zs, nons2, c2)
                        } else {
                            (bogus_status(fail), nons2, c2)
                        }
                    },
                }
            },
        }
    }
}

/// Validates the RRsets of the answer and authority sections of a reply (RFC 4035, section 3.2.3).
///
/// With `nons` the reply is one to a DS query: unsigned records of the authority section, but for
/// NSEC and NSEC3, do not count, and `nons` receives whether an NS record may be missing.
pub fn dnssec_validate_reply(
    answer: &[DnsRr],
    authority: &[DnsRr],
    qname: &str,
    qtype: u16,
    qclass: u16,
    rcode: u8,
    now_ts: u32,
    cache: &mut DnssecCache,
    counter: &mut i32,
    check_unsigned: bool,
    nons: Option<&mut bool>,
    iters_limit: u32,
) -> (r: ValidateStatus)
    ensures
        *final(cache) == *old(cache),
        ({
            let (s, n, c) = reply_status(
                rr_views(answer@),
                rr_views(authority@),
                qname@,
                qtype,
                qclass,
                rcode,
                now_ts,
                *old(cache),
                *old(counter),
                check_unsigned,
                match nons {
                    Some(p) => Some(*p),
                    None => None,
                },
                iters_limit,
            );
            &&& r@ == s
            &&& *final(counter) == c
            &&& nons matches Some(p) ==> n == Some(*final(p))
        }),
{
    if rcode == RCODE_SERVFAIL {
        return ValidateStatus::bogus(DNSSEC_FAIL_UPSTREAM);
    }
    if (rcode != RCODE_NXDOMAIN && rcode != RCODE_NOERROR) || qtype == T_RRSIG {
        return ValidateStatus::insecure();
    }
    let (target, answered) = resolve_target(answer, qname, qtype, qclass);
    let mut combined: Vec<DnsRr> = clone_records(answer);
    let mut more: Vec<DnsRr> = clone_records(authority);
    let ghost first = combined@;
    let ghost second = more@;
    combined.append(&mut more);
    assert(rr_views(combined@) =~= rr_views(answer@) + rr_views(authority@)) by {
        assert(combined@ == first + second);
        assert(rr_views(first + second) =~= rr_views(first) + rr_views(second));
    }
    let (done, insecure) = judge_sets(
        combined.as_slice(),
        answer,
        now_ts,
        cache,
        counter,
        check_unsigned,
        nons.is_some(),
    );
    if let Some(s) = done {
        return s;
    }
    if answered {
        return if insecure {
            ValidateStatus::insecure()
        } else {
            ValidateStatus::secure()
        };
    }
    let shown: Result<(), u32> = match nons {
        Some(p) => prove_non_existence(authority, target.as_str(), qtype, qclass, 0, p, counter, iters_limit),
        None => {
            let mut ignored: bool = true;
            prove_non_existence(authority, target.as_str(), qtype, qclass, 0, &mut ignored, counter, iters_limit)
        },
    };
    match shown {
        Ok(_) => if insecure {
            ValidateStatus::insecure()
        } else {
            ValidateStatus::secure()
        },
        Err(fail) => {
            if fail & (DNSSEC_FAIL_NONSEC | DNSSEC_FAIL_NSEC3_ITERS) != 0 {
                let zs: ValidateStatus = zone_status(target.as_str(), qclass, cache);
                if !zs.is_secure() {
                    return zs;
                }
            }
            ValidateStatus::bogus(fail)
        },
    }
}

/// The DS records of `class` in an answer that can be used, each with the class, in order.
pub open spec fn usable_ds(answer: Seq<RrView>, class: u16) -> Seq<(DsView, u16)>
    decreases answer.len(),
{
    if answer.len() == 0 {
        seq![]
    } else {
        let rr = answer.last();
        if rr.rtype == T_DS && rr.class == class && rr.rdata.len() >= 4 && usable(ds_of(rr.rdata)) {
            usable_ds(answer.drop_last(), class).push((ds_of(rr.rdata), class))
        } else {
            usable_ds(answer.drop_last(), class)
        }
    }
}

/// Whether the answer has a DS record of `class`.
pub open spec fn has_ds(answer: Seq<RrView>, class: u16) -> bool {
    exists|i: int| 0 <= i < answer.len() && (#[trigger] answer[i]).rtype == T_DS && answer[i].class == class
}

/// What the reply to a DS query for `name` comes to, given the status `rc` of the reply: a status to
/// return without learning anything, or what is learnt of the DS records of `name`.
///
/// An insecure answer that has DS records is indeterminate. A reply that asks for the key of `name`
/// itself would ask for ever. Usable DS records are learnt; without any, the name is the cut of an
/// unsigned zone, or no zone cut when an NS record may be missing or the server failed.
pub open spec fn ds_outcome(
    answer: Seq<RrView>,
    name: Seq<char>,
    class: u16,
    servfail: bool,
    rc: Status,
    nons: bool,
) -> Result<DsKnown, Status> {
    let found = usable_ds(answer, class);
    let neg = if servfail || nons {
        DsKnown::NegNotZoneCut
    } else {
        DsKnown::NegInsecure
    };
    if servfail {
        Ok(neg)
    } else if rc.code is Insecure && has_ds(answer, class) {
        Err(bogus_status(DNSSEC_FAIL_INDET))
    } else if rc.code is Secure || rc.code is Insecure {
        if has_ds(answer, class) && found.len() > 0 {
            Ok(DsKnown::Positive(found))
        } else {
            Ok(neg)
        }
    } else if rc.code is NeedKey && norm(rc.code->NeedKey_name) == norm(name) {
        Err(bogus_status(0))
    } else {
        Err(rc)
    }
}

/// The status of the reply to a DS query, what is learnt from it, if anything, and the work counter
/// afterwards.
pub open spec fn ds_reply(
    answer: Seq<RrView>,
    auth: Seq<RrView>,
    name: Seq<char>,
    class: u16,
    rcode: u8,
    now: u32,
    cache: DnssecCache,
    counter: i32,
    limit: u32,
) -> (Result<DsKnown, Status>, i32) {
    if rcode == RCODE_SERVFAIL {
        (ds_outcome(answer, name, class, true, plain(Code::Secure), false), counter)
    } else {
        let (rc, n, c) = reply_status(
            answer,
            auth,
            name,
            T_DS,
            class,
            rcode,
            now,
            cache,
            counter,
            false,
            Some(false),
            limit,
        );
        (ds_outcome(answer, name, class, false, rc, n->0), c)
    }
}

/// Whether the answer has a DS record of `class`.
fn answer_has_ds(answer: &[DnsRr], class: u16) -> (r: bool)
    ensures
        r == has_ds(rr_views(answer@), class),
{
    let ghost all = rr_views(answer@);
    let mut i: usize = 0;
    while i < answer.len()
        invariant
            i <= answer@.len(),
            all == rr_views(answer@),
            forall|j: int| 0 <= j < i ==> !((#[trigger] all[j]).rtype == T_DS && all[j].class == class),
        decreases answer@.len() - i,
    {
        assert(all[i as int] == answer@[i as int]@);
        if answer[i].rtype == T_DS && answer[i].class == class {
            return true;
        }
        i += 1;
    }
    false
}

/// The DS records of the answer that can be used.
fn collect_ds(answer: &[DnsRr], class: u16) -> (r: Vec<(DsData, u16)>)
    ensures
        entry_views(r@) == usable_ds(rr_views(answer@), class),
{
    let ghost all = rr_views(answer@);
    let mut entries: Vec<(DsData, u16)> = Vec::new();
    let mut i: usize = 0;
    assert(entry_views(entries@) =~= usable_ds(all.take(0), class));
    while i < answer.len()
        invariant
            i <= answer@.len(),
            all == rr_views(answer@),
            entry_views(entries@) == usable_ds(all.take(i as int), class),
        decreases answer@.len() - i,
    {
        proof {
            assert(all.take(i + 1).drop_last() =~= all.take(i as int));
            assert(all.take(i + 1).last() == answer@[i as int]@);
        }
        if answer[i].rtype == T_DS && answer[i].class == class {
            if let Ok(ds) = parse_ds_rdata(answer[i].rdata.as_slice()) {
                if ds_entry_supported(&ds) {
                    assert(entry_views(entries@.push((ds, class))) =~= entry_views(entries@).push((ds@, class)));
                    entries.push((ds, class));
                }
            }
        }
        i += 1;
    }
    assert(all.take(all.len() as int) =~= all);
    entries
}

/// What is learnt from the reply to a DS query.
#[derive(Debug, Clone)]
pub enum DsLearned {
    /// DS records that can be used.
    Positive(Vec<(DsData, u16)>),
    /// The name is the cut of an unsigned zone.
    NegInsecure,
    /// The name is no zone cut.
    NegNotZoneCut,
}

impl View for DsLearned {
    type V = DsKnown;

    open spec fn view(&self) -> DsKnown {
        match *self {
            DsLearned::Positive(v) => DsKnown::Positive(entry_views(v@)),
            DsLearned::NegInsecure => DsKnown::NegInsecure,
            DsLearned::NegNotZoneCut => DsKnown::NegNotZoneCut,
        }
    }
}

/// Decides what the reply to a DS query comes to, given the status of the reply.
pub fn learn_ds(answer: &[DnsRr], name: &str, class: u16, servfail: bool, rc: ValidateStatus, nons: bool) -> (r: Result<
    DsLearned,
    ValidateStatus,
>)
    ensures
        match r {
            Ok(k) => ds_outcome(rr_views(answer@), name@, class, servfail, rc@, nons) == Ok::<DsKnown, Status>(k@),
            Err(s) => ds_outcome(rr_views(answer@), name@, class, servfail, rc@, nons) == Err::<DsKnown, Status>(s@),
        },
{
    let positive: bool = answer_has_ds(answer, class);
    if !servfail {
        match &rc.code {
            StatCode::Insecure => {
                if positive {
                    return Err(ValidateStatus::bogus(DNSSEC_FAIL_INDET));
                }
            },
            StatCode::Secure => {},
            StatCode::NeedKey { name: needed, class: c } => {
                let a: String = norm_name(needed.as_str());
                let b: String = norm_name(name);
                if same(a.as_str(), b.as_str()) {
                    return Err(ValidateStatus::bogus(0));
                }
                return Err(rc);
            },
            _ => {
                return Err(rc);
            },
        }
        if positive {
            let entries: Vec<(DsData, u16)> = collect_ds(answer, class);
            if entries.len() > 0 {
                return Ok(DsLearned::Positive(entries));
            }
        }
    }
    if servfail || nons {
        Ok(DsLearned::NegNotZoneCut)
    } else {
        Ok(DsLearned::NegInsecure)
    }
}

/// Validates the reply to a DS query and keeps what it says of the DS records of `name`.
pub fn dnssec_validate_ds(
    answer: &[DnsRr],
    authority: &[DnsRr],
    name: &str,
    class: u16,
    rcode: u8,
    now_ts: u32,
    cache: &mut DnssecCache,
    counter: &mut i32,
    iters_limit: u32,
) -> (r: ValidateStatus)
    ensures
        ({
            let (o, c) = ds_reply(
                rr_views(answer@),
                rr_views(authority@),
                name@,
                class,
                rcode,
                now_ts,
                *old(cache),
                *old(counter),
                iters_limit,
            );
            &&& *final(counter) == c
            &&& match o {
                Ok(known) => r@ == plain(Code::Secure) && final(cache).ds_replaced(*old(cache), name@, known),
                Err(s) => r@ == s && *final(cache) == *old(cache),
            }
        }),
{
    let servfail: bool = rcode == RCODE_SERVFAIL;
    let mut nons: bool = false;
    let rc: ValidateStatus = if servfail {
        ValidateStatus::secure()
    } else {
        dnssec_validate_reply(
            answer,
            authority,
            name,
            T_DS,
            class,
            rcode,
            now_ts,
            cache,
            counter,
            false,
            Some(&mut nons),
            iters_limit,
        )
    };
    match learn_ds(answer, name, class, servfail, rc, nons) {
        Err(s) => s,
        Ok(known) => {
            match known {
                DsLearned::Positive(entries) => {
                    cache.insert_ds_positive(name, entries);
                },
                DsLearned::NegInsecure => {
                    cache.insert_ds_neg_insecure(name);
                },
                DsLearned::NegNotZoneCut => {
                    cache.insert_ds_neg_not_zone_cut(name);
                },
            }
            ValidateStatus::secure()
        },
    }
}

} // verus!
