//! What holds of validation as a whole.

use super::basics::dec;
use super::codes::{DNSSEC_FAIL_NODSSUP, DNSSEC_FAIL_NOZONE};
use super::denial::{closest, denial, first_known, nsec3_proof, prune, read_nsec3s};
use super::nsec::{Nsec3RawView, Nsec3View, T_CNAME, T_NSEC, T_NSEC3};
use super::order::canonical_set;
use super::records::{ds_matches, fold16, word_sum, DsView};
use super::reply::{
    answers, any_same_set, by_ds, chase, cname_target, ds_outcome, is_zone_key, reply_status, resolved, set_verdict, sets_verdict,
    signing_zone, some_key_validates, starts_set, try_ds, try_zone_keys, T_DNSKEY,
};
use super::rrset::{
    in_rrset, in_rrsigs, least_ttl, settles, step_of, step_verifies, try_signatures, validated,
    Outcome,
};
use super::store::{keys_of_class, zone, DnssecCache, DsKnown, Status};
use crate::crypto::digest_supported;
use crate::names::{find_char, norm};
use crate::rfc1035::RrView;
use crate::text::select;
use crate::wire::be32;
use vstd::prelude::*;

verus! {

/// Whether a signature is in force and verifies under a key, and yields this outcome.
pub open spec fn proves(
    sig: Seq<u8>,
    rrset: Seq<RrView>,
    name: Seq<char>,
    rrtype: u16,
    class: u16,
    now: u32,
    key: Seq<u8>,
    o: Outcome,
) -> bool {
    let step = step_of(canonical_set(rrset), sig, name, rrtype, class, now, Some(key));
    &&& step_verifies(step)
    &&& settles(step, true) == Some(o)
    &&& be32(sig, 12) <= now <= be32(sig, 8)
}

/// The search for a signature that verifies ends with one.
proof fn lemma_try_signatures(
    rrset: Seq<RrView>,
    sigs: Seq<RrView>,
    i: int,
    name: Seq<char>,
    rrtype: u16,
    class: u16,
    now: u32,
    dnskey: Option<Seq<u8>>,
    counter: i32,
) -> (k: int)
    requires
        0 <= i,
        try_signatures(canonical_set(rrset), sigs, i, name, rrtype, class, now, dnskey, counter).0 is Secure,
    ensures
        dnskey is Some,
        i <= k < sigs.len(),
        proves(
            sigs[k].rdata,
            rrset,
            name,
            rrtype,
            class,
            now,
            dnskey->0,
            try_signatures(canonical_set(rrset), sigs, i, name, rrtype, class, now, dnskey, counter).0,
        ),
    decreases sigs.len() - i,
{
    reveal(step_of);
    let step = step_of(canonical_set(rrset), sigs[i].rdata, name, rrtype, class, now, dnskey);
    match settles(step, step_verifies(step)) {
        Some(o) => i,
        None => lemma_try_signatures(rrset, sigs, i + 1, name, rrtype, class, now, dnskey, dec(counter)),
    }
}

/// Records are secure only by a signature among theirs that is in force and verifies under the given key.
pub proof fn law_secure_is_signed(
    rrset: Seq<RrView>,
    sigs: Seq<RrView>,
    name: Seq<char>,
    rrtype: u16,
    class: u16,
    now: u32,
    dnskey: Option<Seq<u8>>,
    counter: i32,
)
    requires
        validated(rrset, sigs, name, rrtype, class, now, dnskey, counter).0 is Secure,
    ensures
        dnskey is Some,
        exists|k: int|
            0 <= k < sigs.len() && proves(
                (#[trigger] sigs[k]).rdata,
                rrset,
                name,
                rrtype,
                class,
                now,
                dnskey->0,
                validated(rrset, sigs, name, rrtype, class, now, dnskey, counter).0,
            ),
{
    let k = lemma_try_signatures(rrset, sigs, 0, name, rrtype, class, now, dnskey, counter);
    assert(sigs[k].rdata == sigs[k].rdata);
}

/// No record lives shorter than the least time to live.
proof fn lemma_least(s: Seq<RrView>, i: int)
    requires
        0 <= i < s.len(),
    ensures
        least_ttl(s) <= s[i].ttl,
    decreases s.len(),
{
    if i < s.len() - 1 {
        lemma_least(s.drop_last(), i);
        assert(s.drop_last()[i] == s[i]);
    }
}

/// Secure records are kept no longer than each of the signed records says, nor beyond the end of the
/// signature.
pub proof fn law_secure_is_not_kept_too_long(
    rrset: Seq<RrView>,
    sigs: Seq<RrView>,
    name: Seq<char>,
    rrtype: u16,
    class: u16,
    now: u32,
    dnskey: Option<Seq<u8>>,
    counter: i32,
    ttl: u32,
    key_tag: u16,
)
    requires
        validated(rrset, sigs, name, rrtype, class, now, dnskey, counter).0 == (Outcome::Secure { ttl, key_tag }),
    ensures
        forall|i: int| 0 <= i < canonical_set(rrset).len() ==> ttl <= (#[trigger] canonical_set(rrset)[i]).ttl,
        exists|k: int| 0 <= k < sigs.len() && now + ttl <= be32((#[trigger] sigs[k]).rdata, 8),
{
    reveal(step_of);
    let k = lemma_try_signatures(rrset, sigs, 0, name, rrtype, class, now, dnskey, counter);
    assert(now + ttl <= be32(sigs[k].rdata, 8));
    assert forall|i: int| 0 <= i < canonical_set(rrset).len() implies ttl <= (#[trigger] canonical_set(rrset)[i]).ttl by {
        lemma_least(canonical_set(rrset), i);
    }
}

/// Whether records are signed by a key that is known for the zone that signed them, which is secure.
pub open spec fn set_is_signed(all: Seq<RrView>, rr: RrView, now: u32, cache: DnssecCache) -> bool {
    let rrset = select(all, in_rrset(rr.name, rr.class, rr.rtype));
    let sigs = select(all, in_rrsigs(rr.name, rr.class, rr.rtype));
    let signer = signing_zone(sigs, rr.name);
    let keys = keys_of_class(cache.keys_of_name(signer), rr.class);
    &&& zone(cache, signer, rr.class).code is Secure
    &&& exists|j: int, k: int, o: Outcome|
        0 <= j < keys.len() && 0 <= k < sigs.len() && #[trigger] proves(
            sigs[k].rdata,
            rrset,
            rr.name,
            rr.rtype,
            rr.class,
            now,
            keys[j],
            o,
        )
}

/// A key that validates records is among those that were tried.
proof fn lemma_some_key(
    keys: Seq<Seq<u8>>,
    k: int,
    rrset: Seq<RrView>,
    sigs: Seq<RrView>,
    rr: RrView,
    now: u32,
    counter: i32,
) -> (r: (int, int, Outcome))
    requires
        0 <= k,
        some_key_validates(keys, k, rrset, sigs, rr, now, counter).0,
    ensures
        0 <= r.0 < keys.len(),
        0 <= r.1 < sigs.len(),
        proves(sigs[r.1].rdata, rrset, rr.name, rr.rtype, rr.class, now, keys[r.0], r.2),
    decreases keys.len() - k,
{
    let (o, c) = validated(rrset, sigs, rr.name, rr.rtype, rr.class, now, Some(keys[k]), counter);
    if o is Secure {
        let s = lemma_try_signatures(rrset, sigs, 0, rr.name, rr.rtype, rr.class, now, Some(keys[k]), counter);
        (k, s, o)
    } else {
        lemma_some_key(keys, k + 1, rrset, sigs, rr, now, c)
    }
}

/// Whether records do not count in the reply to a DS query: they are not in the answer, do not deny anything and have
/// no signatures.
pub open spec fn does_not_count(all: Seq<RrView>, answer: Seq<RrView>, rr: RrView, ds_mode: bool) -> bool {
    &&& ds_mode
    &&& !any_same_set(answer, rr)
    &&& rr.rtype != T_NSEC && rr.rtype != T_NSEC3
    &&& select(all, in_rrsigs(rr.name, rr.class, rr.rtype)).len() == 0
}

/// Records that neither end the validation nor make the reply insecure are signed, or do not count.
proof fn lemma_set_verdict(
    all: Seq<RrView>,
    answer: Seq<RrView>,
    rr: RrView,
    now: u32,
    cache: DnssecCache,
    counter: i32,
    check_unsigned: bool,
    ds_mode: bool,
)
    requires
        set_verdict(all, answer, rr, now, cache, counter, check_unsigned, ds_mode).0 is None,
        !set_verdict(all, answer, rr, now, cache, counter, check_unsigned, ds_mode).1,
    ensures
        set_is_signed(all, rr, now, cache) || does_not_count(all, answer, rr, ds_mode),
{
    let rrset = select(all, in_rrset(rr.name, rr.class, rr.rtype));
    let sigs = select(all, in_rrsigs(rr.name, rr.class, rr.rtype));
    if !does_not_count(all, answer, rr, ds_mode) {
        let signer = signing_zone(sigs, rr.name);
        let keys = keys_of_class(cache.keys_of_name(signer), rr.class);
        let (j, k, o) = lemma_some_key(keys, 0, rrset, sigs, rr, now, counter);
        assert(proves(sigs[k].rdata, rrset, rr.name, rr.rtype, rr.class, now, keys[j], o));
    }
}

/// A reply whose records are not insecure has only records that are signed, or do not count.
proof fn lemma_sets_verdict(
    all: Seq<RrView>,
    answer: Seq<RrView>,
    i: int,
    now: u32,
    cache: DnssecCache,
    insecure: bool,
    counter: i32,
    check_unsigned: bool,
    ds_mode: bool,
)
    requires
        0 <= i,
        sets_verdict(all, answer, i, now, cache, insecure, counter, check_unsigned, ds_mode).0 is None,
        !sets_verdict(all, answer, i, now, cache, insecure, counter, check_unsigned, ds_mode).1,
    ensures
        !insecure,
        forall|j: int|
            i <= j < all.len() && #[trigger] starts_set(all, j) ==> set_is_signed(all, all[j], now, cache)
                || does_not_count(all, answer, all[j], ds_mode),
    decreases all.len() - i,
{
    if i < all.len() {
        if !starts_set(all, i) {
            lemma_sets_verdict(all, answer, i + 1, now, cache, insecure, counter, check_unsigned, ds_mode);
        } else {
            let (s, now_insecure, c) = set_verdict(all, answer, all[i], now, cache, counter, check_unsigned, ds_mode);
            lemma_sets_verdict(all, answer, i + 1, now, cache, insecure || now_insecure, c, check_unsigned, ds_mode);
            lemma_set_verdict(all, answer, all[i], now, cache, counter, check_unsigned, ds_mode);
        }
    }
}

/// Records that end the validation do not make a reply secure.
proof fn lemma_ends_unsecured(
    all: Seq<RrView>,
    answer: Seq<RrView>,
    i: int,
    now: u32,
    cache: DnssecCache,
    insecure: bool,
    counter: i32,
    check_unsigned: bool,
    ds_mode: bool,
)
    requires
        0 <= i,
    ensures
        sets_verdict(all, answer, i, now, cache, insecure, counter, check_unsigned, ds_mode).0 matches Some(s)
            ==> !(s.code is Secure),
    decreases all.len() - i,
{
    if i < all.len() {
        if !starts_set(all, i) {
            lemma_ends_unsecured(all, answer, i + 1, now, cache, insecure, counter, check_unsigned, ds_mode);
        } else {
            let (s, now_insecure, c) = set_verdict(all, answer, all[i], now, cache, counter, check_unsigned, ds_mode);
            if s is None {
                lemma_ends_unsecured(
                    all,
                    answer,
                    i + 1,
                    now,
                    cache,
                    insecure || now_insecure,
                    c,
                    check_unsigned,
                    ds_mode,
                );
            }
        }
    }
}

/// The records of a secure reply neither ended the validation nor made it insecure.
proof fn lemma_secure_reply(
    answer: Seq<RrView>,
    auth: Seq<RrView>,
    qname: Seq<char>,
    qtype: u16,
    class: u16,
    rcode: u8,
    now: u32,
    cache: DnssecCache,
    counter: i32,
    check_unsigned: bool,
    nons: Option<bool>,
    limit: u32,
    v: (Option<Status>, bool, i32),
)
    requires
        v == sets_verdict(answer + auth, answer, 0, now, cache, false, counter, check_unsigned, nons is Some),
        reply_status(
            answer,
            auth,
            qname,
            qtype,
            class,
            rcode,
            now,
            cache,
            counter,
            check_unsigned,
            nons,
            limit,
        ).0.code is Secure,
    ensures
        v.0 matches Some(s) ==> s.code is Secure,
        v.0 is None ==> !v.1,
{
}

/// In a secure reply every set of records in the answer and the authority section is signed by a key that is
/// known for the secure zone that signed it. In the reply to a DS query, which `nons` stands for, the records of the
/// authority section that deny nothing may be without signatures.
pub proof fn law_secure_reply_is_signed(
    answer: Seq<RrView>,
    auth: Seq<RrView>,
    qname: Seq<char>,
    qtype: u16,
    class: u16,
    rcode: u8,
    now: u32,
    cache: DnssecCache,
    counter: i32,
    check_unsigned: bool,
    nons: Option<bool>,
    limit: u32,
)
    requires
        reply_status(
            answer,
            auth,
            qname,
            qtype,
            class,
            rcode,
            now,
            cache,
            counter,
            check_unsigned,
            nons,
            limit,
        ).0.code is Secure,
    ensures
        forall|j: int|
            0 <= j < (answer + auth).len() && #[trigger] starts_set(answer + auth, j) ==> set_is_signed(
                answer + auth,
                (answer + auth)[j],
                now,
                cache,
            ) || does_not_count(answer + auth, answer, (answer + auth)[j], nons is Some),
{
    let v = sets_verdict(answer + auth, answer, 0, now, cache, false, counter, check_unsigned, nons is Some);
    lemma_secure_reply(
        answer,
        auth,
        qname,
        qtype,
        class,
        rcode,
        now,
        cache,
        counter,
        check_unsigned,
        nons,
        limit,
        v,
    );
    lemma_ends_unsecured(answer + auth, answer, 0, now, cache, false, counter, check_unsigned, nons is Some);
    lemma_sets_verdict(answer + auth, answer, 0, now, cache, false, counter, check_unsigned, nons is Some);
}

/// A secure reply answers the question, or its authority section proves that there is no answer: for the name that
/// was asked for, or for the one that CNAME records lead to.
pub proof fn law_secure_reply_answers_or_denies(
    answer: Seq<RrView>,
    auth: Seq<RrView>,
    qname: Seq<char>,
    qtype: u16,
    class: u16,
    rcode: u8,
    now: u32,
    cache: DnssecCache,
    counter: i32,
    check_unsigned: bool,
    nons: Option<bool>,
    limit: u32,
)
    requires
        reply_status(
            answer,
            auth,
            qname,
            qtype,
            class,
            rcode,
            now,
            cache,
            counter,
            check_unsigned,
            nons,
            limit,
        ).0.code is Secure,
    ensures
        ({
            let (target, answered) = resolved(answer, qname, qtype, class);
            answered || exists|start: bool, left: i32| #[trigger]
                denial(auth, target, qtype, class, 0, start, left, limit).0 is Ok
        }),
{
    let ds_mode = nons is Some;
    let v = sets_verdict(answer + auth, answer, 0, now, cache, false, counter, check_unsigned, ds_mode);
    lemma_ends_unsecured(answer + auth, answer, 0, now, cache, false, counter, check_unsigned, ds_mode);
    let (target, answered) = resolved(answer, qname, qtype, class);
    if !answered {
        let start = match nons {
            Some(b) => b,
            None => true,
        };
        assert(denial(auth, target, qtype, class, 0, start, v.2, limit).0 is Ok);
    }
}

/// Whether a DS record vouches for a key of a set that is signed by it.
pub open spec fn vouched(
    entries: Seq<(DsView, u16)>,
    key: Seq<u8>,
    rrset: Seq<RrView>,
    sigs: Seq<RrView>,
    name: Seq<char>,
    class: u16,
    now: u32,
) -> bool {
    exists|j: int, k: int, o: Outcome|
        0 <= j < entries.len() && 0 <= k < sigs.len() && #[trigger] ds_matches(entries[j].0, key, name)
            && entries[j].1 == class && #[trigger] proves(
            sigs[k].rdata,
            rrset,
            name,
            T_DNSKEY,
            class,
            now,
            key,
            o,
        )
}

/// What holds of a key that DS records find secure.
proof fn lemma_try_ds(
    entries: Seq<(DsView, u16)>,
    j: int,
    key: Seq<u8>,
    rrset: Seq<RrView>,
    sigs: Seq<RrView>,
    name: Seq<char>,
    class: u16,
    now: u32,
    fail: u32,
    counter: i32,
)
    requires
        0 <= j,
        try_ds(entries, j, key, rrset, sigs, name, class, now, fail, counter).0 matches Some(s) && s.code is Secure,
    ensures
        vouched(entries, key, rrset, sigs, name, class, now),
    decreases entries.len() - j,
{
    let (ds, ds_class) = entries[j];
    let fail2 = fail & !DNSSEC_FAIL_NODSSUP;
    if ds_class != class || !digest_supported(ds.digest_type) {
        lemma_try_ds(entries, j + 1, key, rrset, sigs, name, class, now, fail, counter);
    } else if ds.algorithm != key[3] || ds.key_tag != fold16(word_sum(key)) {
        lemma_try_ds(entries, j + 1, key, rrset, sigs, name, class, now, fail2, counter);
    } else if counter == 0 {
    } else if !ds_matches(ds, key, name) {
        lemma_try_ds(entries, j + 1, key, rrset, sigs, name, class, now, fail2, dec(counter));
    } else {
        let (o, c) = validated(
            rrset,
            sigs,
            name,
            T_DNSKEY,
            class,
            now,
            Some(key),
            dec(counter),
        );
        if o is Secure {
            let k = lemma_try_signatures(
                rrset,
                sigs,
                0,
                name,
                T_DNSKEY,
                class,
                now,
                Some(key),
                dec(counter),
            );
            assert(ds_matches(entries[j].0, key, name));
            assert(proves(sigs[k].rdata, rrset, name, T_DNSKEY, class, now, key, o));
        } else {
            lemma_try_ds(entries, j + 1, key, rrset, sigs, name, class, now, fail2, c);
        }
    }
}

/// What holds of a key set that DS records find secure.
proof fn lemma_try_zone_keys(
    entries: Seq<(DsView, u16)>,
    rrset: Seq<RrView>,
    i: int,
    sigs: Seq<RrView>,
    name: Seq<char>,
    class: u16,
    now: u32,
    fail: u32,
    counter: i32,
) -> (k: int)
    requires
        0 <= i,
        try_zone_keys(entries, rrset, i, sigs, name, class, now, fail, counter).0.code is Secure,
    ensures
        0 <= k < rrset.len(),
        is_zone_key(rrset[k].rdata),
        vouched(entries, rrset[k].rdata, rrset, sigs, name, class, now),
    decreases rrset.len() - i,
{
    if !is_zone_key(rrset[i].rdata) {
        lemma_try_zone_keys(entries, rrset, i + 1, sigs, name, class, now, fail, counter)
    } else {
        let fail2 = fail & !DNSSEC_FAIL_NOZONE;
        let (s, f, c) = try_ds(entries, 0, rrset[i].rdata, rrset, sigs, name, class, now, fail2, counter);
        if s is Some {
            lemma_try_ds(entries, 0, rrset[i].rdata, rrset, sigs, name, class, now, fail2, counter);
            i
        } else {
            lemma_try_zone_keys(entries, rrset, i + 1, sigs, name, class, now, f, c)
        }
    }
}

/// A key set is secure only where a DS record that is known for the name vouches for one of its zone keys, and
/// that key signed the set.
pub proof fn law_secure_keys_are_vouched_for(
    records: Seq<RrView>,
    name: Seq<char>,
    class: u16,
    now: u32,
    cache: DnssecCache,
    counter: i32,
)
    requires
        by_ds(records, name, class, now, cache, counter).0.code is Secure,
    ensures
        cache.ds_of_name(name) matches Some(DsKnown::Positive(entries)) && {
            let rrset = select(records, in_rrset(name, class, T_DNSKEY));
            let sigs = select(records, in_rrsigs(name, class, T_DNSKEY));
            exists|k: int|
                0 <= k < rrset.len() && is_zone_key((#[trigger] rrset[k]).rdata) && vouched(
                    entries,
                    rrset[k].rdata,
                    rrset,
                    sigs,
                    name,
                    class,
                    now,
                )
        },
{
    let rrset = select(records, in_rrset(name, class, T_DNSKEY));
    let sigs = select(records, in_rrsigs(name, class, T_DNSKEY));
    let entries = match cache.ds_of_name(name) {
        Some(DsKnown::Positive(e)) => e,
        _ => seq![],
    };
    let k = lemma_try_zone_keys(
        entries,
        rrset,
        0,
        sigs,
        name,
        class,
        now,
        DNSSEC_FAIL_NODSSUP | DNSSEC_FAIL_NOZONE,
        counter,
    );
    assert(vouched(entries, rrset[k].rdata, rrset, sigs, name, class, now));
    assert(entries.len() > 0);
}

/// DS records are learnt only from a secure reply.
pub proof fn law_ds_is_learnt_only_when_secure(
    answer: Seq<RrView>,
    name: Seq<char>,
    class: u16,
    servfail: bool,
    rc: Status,
    nons: bool,
)
    requires
        ds_outcome(answer, name, class, servfail, rc, nons) matches Ok(known) && known is Positive,
    ensures
        rc.code is Secure,
        !servfail,
{
}

/// Whether a work counter went from `before` to `after` without new work being allowed.
pub open spec fn spent(before: i32, after: i32) -> bool {
    before >= 0 ==> 0 <= after <= before
}

/// Trying signatures allows no new work.
proof fn lemma_signatures_spend(
    sorted: Seq<RrView>,
    sigs: Seq<RrView>,
    i: int,
    name: Seq<char>,
    rrtype: u16,
    class: u16,
    now: u32,
    dnskey: Option<Seq<u8>>,
    counter: i32,
)
    requires
        0 <= i,
    ensures
        spent(counter, try_signatures(sorted, sigs, i, name, rrtype, class, now, dnskey, counter).1),
    decreases sigs.len() - i,
{
    if i < sigs.len() && counter != 0 {
        let step = step_of(sorted, sigs[i].rdata, name, rrtype, class, now, dnskey);
        if settles(step, step_verifies(step)) is None {
            lemma_signatures_spend(sorted, sigs, i + 1, name, rrtype, class, now, dnskey, dec(counter));
        }
    }
}

/// Validating records allows no new work.
pub proof fn law_validation_spends(
    rrset: Seq<RrView>,
    sigs: Seq<RrView>,
    name: Seq<char>,
    rrtype: u16,
    class: u16,
    now: u32,
    dnskey: Option<Seq<u8>>,
    counter: i32,
)
    ensures
        spent(counter, validated(rrset, sigs, name, rrtype, class, now, dnskey, counter).1),
{
    lemma_signatures_spend(canonical_set(rrset), sigs, 0, name, rrtype, class, now, dnskey, counter);
}

/// Trying keys allows no new work.
proof fn lemma_keys_spend(
    keys: Seq<Seq<u8>>,
    k: int,
    rrset: Seq<RrView>,
    sigs: Seq<RrView>,
    rr: RrView,
    now: u32,
    counter: i32,
)
    requires
        0 <= k,
    ensures
        spent(counter, some_key_validates(keys, k, rrset, sigs, rr, now, counter).1),
    decreases keys.len() - k,
{
    if k < keys.len() {
        law_validation_spends(rrset, sigs, rr.name, rr.rtype, rr.class, now, Some(keys[k]), counter);
        let (o, c) = validated(rrset, sigs, rr.name, rr.rtype, rr.class, now, Some(keys[k]), counter);
        if !(o is Secure) {
            lemma_keys_spend(keys, k + 1, rrset, sigs, rr, now, c);
        }
    }
}

/// Judging one set of records allows no new work.
proof fn lemma_set_spends(
    all: Seq<RrView>,
    answer: Seq<RrView>,
    rr: RrView,
    now: u32,
    cache: DnssecCache,
    counter: i32,
    check_unsigned: bool,
    ds_mode: bool,
)
    ensures
        spent(counter, set_verdict(all, answer, rr, now, cache, counter, check_unsigned, ds_mode).2),
{
    let rrset = select(all, in_rrset(rr.name, rr.class, rr.rtype));
    let sigs = select(all, in_rrsigs(rr.name, rr.class, rr.rtype));
    let keys = keys_of_class(cache.keys_of_name(signing_zone(sigs, rr.name)), rr.class);
    lemma_keys_spend(keys, 0, rrset, sigs, rr, now, counter);
}

/// Judging the sets of records of a reply allows no new work.
proof fn lemma_sets_spend(
    all: Seq<RrView>,
    answer: Seq<RrView>,
    i: int,
    now: u32,
    cache: DnssecCache,
    insecure: bool,
    counter: i32,
    check_unsigned: bool,
    ds_mode: bool,
)
    requires
        0 <= i,
    ensures
        spent(
            counter,
            sets_verdict(all, answer, i, now, cache, insecure, counter, check_unsigned, ds_mode).2,
        ),
    decreases all.len() - i,
{
    if i < all.len() {
        if !starts_set(all, i) {
            lemma_sets_spend(all, answer, i + 1, now, cache, insecure, counter, check_unsigned, ds_mode);
        } else {
            lemma_set_spends(all, answer, all[i], now, cache, counter, check_unsigned, ds_mode);
            let (s, now_insecure, c) = set_verdict(all, answer, all[i], now, cache, counter, check_unsigned, ds_mode);
            if s is None {
                lemma_sets_spend(
                    all,
                    answer,
                    i + 1,
                    now,
                    cache,
                    insecure || now_insecure,
                    c,
                    check_unsigned,
                    ds_mode,
                );
            }
        }
    }
}

/// The search for the closest encloser allows no new work.
proof fn lemma_closest_spends(
    recs: Seq<Nsec3View>,
    salt: Seq<u8>,
    iterations: u32,
    wild: nat,
    candidate: Seq<char>,
    below: Option<Seq<char>>,
    stripped: nat,
    counter: i32,
)
    ensures
        spent(counter, closest(recs, salt, iterations, wild, candidate, below, stripped, counter).1),
    decreases candidate.len(),
{
    let k = find_char(candidate, '.');
    if !(wild != 0 && stripped == wild) && counter != 0 && 0 <= k < candidate.len() {
        lemma_closest_spends(
            recs,
            salt,
            iterations,
            wild,
            candidate.skip(k + 1),
            Some(candidate),
            stripped + 1,
            dec(counter),
        );
    }
}

/// A proof from NSEC3 records allows no new work.
proof fn lemma_nsec3_spends(raw: Seq<Nsec3RawView>, name: Seq<char>, qtype: u16, wild: nat, counter: i32, limit: u32)
    ensures
        spent(counter, nsec3_proof(raw, name, qtype, wild, counter, limit).2),
{
    if let Some(c) = first_known(raw, 0) {
        let chosen = raw[c];
        lemma_closest_spends(
            prune(raw, chosen),
            chosen.salt,
            chosen.iterations,
            wild,
            norm(name),
            None,
            0,
            dec(counter),
        );
    }
}

/// Validating a reply allows no new work.
pub proof fn law_reply_spends(
    answer: Seq<RrView>,
    auth: Seq<RrView>,
    qname: Seq<char>,
    qtype: u16,
    class: u16,
    rcode: u8,
    now: u32,
    cache: DnssecCache,
    counter: i32,
    check_unsigned: bool,
    nons: Option<bool>,
    limit: u32,
)
    ensures
        spent(
            counter,
            reply_status(
                answer,
                auth,
                qname,
                qtype,
                class,
                rcode,
                now,
                cache,
                counter,
                check_unsigned,
                nons,
                limit,
            ).2,
        ),
{
    lemma_sets_spend(answer + auth, answer, 0, now, cache, false, counter, check_unsigned, nons is Some);
    let c = sets_verdict(answer + auth, answer, 0, now, cache, false, counter, check_unsigned, nons is Some).2;
    let target = resolved(answer, qname, qtype, class).0;
    let start = match nons {
        Some(b) => b,
        None => true,
    };
    if let Ok(list) = read_nsec3s(auth, auth.len() as int, class) {
        lemma_nsec3_spends(list, target, qtype, 0, c, limit);
    }
    assert(spent(c, denial(auth, target, qtype, class, 0, start, c, limit).2));
}

/// Where CNAME records lead from `target` in `n` hops, as long as there is no answer on the way.
pub open spec fn trail(answer: Seq<RrView>, target: Seq<char>, qtype: u16, class: u16, n: nat) -> Option<Seq<char>>
    decreases n,
{
    if n == 0 {
        Some(target)
    } else {
        match trail(answer, target, qtype, class, (n - 1) as nat) {
            Some(t) => if answers(answer, t, qtype, class) {
                None
            } else {
                cname_target(answer, 0, t, class)
            },
            None => None,
        }
    }
}

/// A name with a CNAME record is the name of that record.
proof fn lemma_cname_at(answer: Seq<RrView>, i: int, target: Seq<char>, class: u16) -> (k: int)
    requires
        0 <= i,
        cname_target(answer, i, target, class) is Some,
    ensures
        i <= k < answer.len(),
        norm(answer[k].name) == target,
    decreases answer.len() - i,
{
    if norm(answer[i].name) == target && answer[i].rtype == T_CNAME && answer[i].class == class {
        i
    } else {
        lemma_cname_at(answer, i + 1, target, class)
    }
}

/// Where a trail goes on, it was there before.
proof fn lemma_trail_before(answer: Seq<RrView>, target: Seq<char>, qtype: u16, class: u16, m: nat, n: nat)
    requires
        m <= n,
        trail(answer, target, qtype, class, n) is Some,
    ensures
        trail(answer, target, qtype, class, m) is Some,
    decreases n,
{
    if m < n {
        lemma_trail_before(answer, target, qtype, class, m, (n - 1) as nat);
    }
}

/// A trail that comes to where it was before goes on as it did.
proof fn lemma_trail_repeats(answer: Seq<RrView>, target: Seq<char>, qtype: u16, class: u16, i: nat, j: nat, n: nat)
    requires
        trail(answer, target, qtype, class, i) == trail(answer, target, qtype, class, j),
    ensures
        trail(answer, target, qtype, class, i + n) == trail(answer, target, qtype, class, j + n),
    decreases n,
{
    if n > 0 {
        lemma_trail_repeats(answer, target, qtype, class, i, j, (n - 1) as nat);
        assert((i + n - 1) as nat == i + (n - 1) as nat);
        assert((j + n - 1) as nat == j + (n - 1) as nat);
    }
}

/// A trail that comes to where it was before never ends.
proof fn lemma_trail_never_ends(answer: Seq<RrView>, target: Seq<char>, qtype: u16, class: u16, i: nat, j: nat, n: nat)
    requires
        i < j,
        trail(answer, target, qtype, class, i) == trail(answer, target, qtype, class, j),
        trail(answer, target, qtype, class, j) is Some,
    ensures
        trail(answer, target, qtype, class, n) is Some,
    decreases n,
{
    if n <= j {
        lemma_trail_before(answer, target, qtype, class, n, j);
    } else {
        let d = (n - j) as nat;
        lemma_trail_repeats(answer, target, qtype, class, i, j, d);
        lemma_trail_never_ends(answer, target, qtype, class, i, j, i + d);
    }
}

/// With more numbers below a bound than the bound, two are equal.
proof fn lemma_two_equal(s: Seq<int>, bound: nat) -> (r: (int, int))
    requires
        s.len() > bound,
        forall|i: int| 0 <= i < s.len() ==> 0 <= #[trigger] s[i] < bound,
    ensures
        0 <= r.0 < r.1 < s.len(),
        s[r.0] == s[r.1],
{
    if s.no_duplicates() {
        s.unique_seq_to_set();
        vstd::set_lib::lemma_int_range(0, bound as int);
        let all = vstd::set_lib::set_int_range(0, bound as int);
        assert(s.to_set().subset_of(all)) by {
            assert forall|x: int| s.to_set().contains(x) implies all.contains(x) by {
                let i = choose|i: int| 0 <= i < s.len() && s[i] == x;
                assert(0 <= s[i] < bound);
            }
        }
        vstd::set_lib::lemma_len_subset(s.to_set(), all);
        assert(false);
    }
    let (i, j) = choose|i: int, j: int|
        0 <= i < s.len() && 0 <= j < s.len() && i != j && #[trigger] s[i] == #[trigger] s[j];
    if i < j {
        (i, j)
    } else {
        (j, i)
    }
}

/// A trail of CNAME records that is longer than there are records never ends: only loops are given up.
pub proof fn law_only_loops_are_given_up(answer: Seq<RrView>, target: Seq<char>, qtype: u16, class: u16, n: nat)
    requires
        trail(answer, target, qtype, class, answer.len() + 1) is Some,
    ensures
        trail(answer, target, qtype, class, n) is Some,
{
    let len = answer.len();
    let places = Seq::new(
        len + 1,
        |i: int|
            choose|k: int|
                0 <= k < len && norm((#[trigger] answer[k]).name) == trail(answer, target, qtype, class, i as nat)->0,
    );
    assert forall|i: int| 0 <= i < places.len() implies 0 <= #[trigger] places[i] < len && norm(
        answer[places[i]].name,
    ) == trail(answer, target, qtype, class, i as nat)->0 by {
        lemma_trail_before(answer, target, qtype, class, (i + 1) as nat, len + 1);
        let k = lemma_cname_at(answer, 0, trail(answer, target, qtype, class, i as nat)->0, class);
        assert(norm(answer[k].name) == trail(answer, target, qtype, class, i as nat)->0);
    }
    let (i, j) = lemma_two_equal(places, len);
    lemma_trail_before(answer, target, qtype, class, i as nat, len + 1);
    lemma_trail_before(answer, target, qtype, class, j as nat, len + 1);
    assert(norm(answer[places[i]].name) == norm(answer[places[j]].name));
    lemma_trail_never_ends(answer, target, qtype, class, i as nat, j as nat, n);
}

/// A trail goes on from its first hop.
proof fn lemma_trail_from_next(answer: Seq<RrView>, target: Seq<char>, qtype: u16, class: u16, next: Seq<char>, n: nat)
    requires
        !answers(answer, target, qtype, class),
        cname_target(answer, 0, target, class) == Some(next),
    ensures
        trail(answer, target, qtype, class, n + 1) == trail(answer, next, qtype, class, n),
    decreases n,
{
    reveal_with_fuel(trail, 2);
    if n > 0 {
        lemma_trail_from_next(answer, target, qtype, class, next, (n - 1) as nat);
        assert((n + 1 - 1) as nat == ((n - 1) as nat) + 1);
    }
}

/// The end of a trail that ends within `hops` hops is where following it leads, and there is an answer there
/// if and only if there is one at that end.
pub proof fn law_trail_is_followed(
    answer: Seq<RrView>,
    target: Seq<char>,
    qtype: u16,
    class: u16,
    hops: nat,
    n: nat,
    end: Seq<char>,
)
    requires
        n <= hops,
        trail(answer, target, qtype, class, n) == Some(end),
        trail(answer, target, qtype, class, n + 1) is None,
    ensures
        chase(answer, target, qtype, class, hops) == (end, answers(answer, end, qtype, class)),
    decreases n,
{
    if n > 0 {
        lemma_trail_before(answer, target, qtype, class, 1, n);
        assert(trail(answer, target, qtype, class, 0) == Some(target));
        let next = cname_target(answer, 0, target, class)->0;
        lemma_trail_from_next(answer, target, qtype, class, next, n);
        lemma_trail_from_next(answer, target, qtype, class, next, (n - 1) as nat);
        assert(((n - 1) as nat) + 1 == n);
        law_trail_is_followed(answer, next, qtype, class, (hops - 1) as nat, (n - 1) as nat, end);
    }
}

} // verus!
