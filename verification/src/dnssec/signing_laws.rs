//! What makes records secure: what a signature must cover, and that every signature, key and DS record counts.

use super::basics::{dec, labels32};
use super::codes::{DNSSEC_FAIL_NODSSUP, DNSSEC_FAIL_NOZONE};
use super::laws::proves;
use super::order::{ascending, canonical_set, comes_first, has_data, is_first, law_canonical_set, lemma_lex_total, lex_less};
use super::records::{ds_matches, fold16, word_sum, DsView};
use super::reply::{
    by_ds, is_zone_key, one_signer, reply_status, resolved, set_verdict, sets_verdict, signing_zone, some_key_validates, starts_set,
    try_ds, try_zone_keys, RCODE_NOERROR, RCODE_NXDOMAIN, T_DNSKEY,
};
use super::rrset::{
    in_rrset, in_rrsigs, least_ttl, settles, signed_owner, signed_rr, signed_rrs, signer_of, step_of, step_verifies, try_signatures,
    validated, Outcome, Step, T_RRSIG,
};
use super::store::{keys_of_class, zone, DnssecCache, DsKnown};
use crate::crypto::{algorithm_of, digest_supported, signed_by};
use crate::rfc1035::RrView;
use crate::text::select;
use crate::wire::{be16, be32, wire_of};
use vstd::prelude::*;

verus! {

/// How many units of work a counter allows; a negative one is read as an unsigned number.
pub open spec fn allowance(counter: i32) -> int {
    if counter < 0 {
        counter + 0x1_0000_0000
    } else {
        counter as int
    }
}

/// The bytes over which a signature is made, behind its own data and the name of the signer: for each record the
/// owner, the type, the class, the time to live that the signature holds, the length of the data, and the data.
pub open spec fn signed_image(owner: Seq<u8>, rrtype: u16, class: u16, ttl: Seq<u8>, rrs: Seq<RrView>) -> Seq<u8> {
    rrs.map_values(
        |rr: RrView|
            owner + seq![(rrtype / 256) as u8, (rrtype % 256) as u8, (class / 256) as u8, (class % 256) as u8] + ttl + seq![
                (rr.rdata.len() % 0x1_0000 / 256) as u8,
                (rr.rdata.len() % 256) as u8,
            ] + rr.rdata,
    ).flatten()
}

/// Whether the RRSIG data `sig` is a signature over a set of records by a key. The signature is in force, it was made
/// for no more labels than the name has, and the key verifies it over its own first 18 bytes, the name of the
/// signer, and the records in canonical order, each under the owner that was signed and with the time to live that
/// the signature holds in its bytes 4 to 7.
pub open spec fn is_signed(
    sig: Seq<u8>,
    rrset: Seq<RrView>,
    name: Seq<char>,
    rrtype: u16,
    class: u16,
    now: u32,
    key: Seq<u8>,
) -> bool {
    &&& sig.len() >= 18
    &&& be32(sig, 12) <= now <= be32(sig, 8)
    &&& sig[3] <= labels32(name)
    &&& algorithm_of(sig[2]) is Some
    &&& key.len() >= 4
    &&& wire_of(signer_of(sig)) matches Some(signer)
    &&& wire_of(signed_owner(name, sig[3])) matches Some(owner)
    &&& sig.len() > 18 + signer.len()
    &&& signed_by(
        sig[2],
        key.skip(4),
        sig.take(18) + signer + signed_image(owner, rrtype, class, sig.subrange(4, 8), canonical_set(rrset)),
        sig.skip(18 + signer.len() as int),
    )
}

/// The bytes of one record as it is signed.
proof fn lemma_signed_rr(owner: Seq<u8>, rrtype: u16, class: u16, sig: Seq<u8>, rdata: Seq<u8>)
    requires
        sig.len() >= 18,
    ensures
        signed_rr(owner, rrtype, class, be32(sig, 4), rdata) == owner + seq![
            (rrtype / 256) as u8,
            (rrtype % 256) as u8,
            (class / 256) as u8,
            (class % 256) as u8,
        ] + sig.subrange(4, 8) + seq![(rdata.len() % 0x1_0000 / 256) as u8, (rdata.len() % 256) as u8] + rdata,
{
    let x = be32(sig, 4);
    let (a, b, c, d) = (sig[4] as int, sig[5] as int, sig[6] as int, sig[7] as int);
    assert(x == a * 0x100_0000 + b * 0x1_0000 + c * 0x100 + d);
    assert(crate::wire::be32_bytes(x) =~= sig.subrange(4, 8)) by {
        assert(x / 0x100_0000 == a);
        assert(x / 0x1_0000 == a * 0x100 + b);
        assert(x / 0x100 == a * 0x1_0000 + b * 0x100 + c);
    }
    let n = (rdata.len() % 0x1_0000) as u16;
    assert(n % 256 == rdata.len() % 256) by {
        assert((rdata.len() % 0x1_0000) % 256 == rdata.len() % 256) by (nonlinear_arith);
    }
    assert(signed_rr(owner, rrtype, class, be32(sig, 4), rdata) =~= owner + seq![
        (rrtype / 256) as u8,
        (rrtype % 256) as u8,
        (class / 256) as u8,
        (class % 256) as u8,
    ] + sig.subrange(4, 8) + seq![(rdata.len() % 0x1_0000 / 256) as u8, (rdata.len() % 256) as u8] + rdata);
}

/// The records as they are signed are the images of the records, one after another.
proof fn lemma_signed_rrs(owner: Seq<u8>, rrtype: u16, class: u16, sig: Seq<u8>, rrs: Seq<RrView>)
    requires
        sig.len() >= 18,
    ensures
        signed_rrs(owner, rrtype, class, be32(sig, 4), rrs) == signed_image(owner, rrtype, class, sig.subrange(4, 8), rrs),
    decreases rrs.len(),
{
    let image = |rr: RrView|
        owner + seq![(rrtype / 256) as u8, (rrtype % 256) as u8, (class / 256) as u8, (class % 256) as u8] + sig.subrange(4, 8)
            + seq![(rr.rdata.len() % 0x1_0000 / 256) as u8, (rr.rdata.len() % 256) as u8] + rr.rdata;
    if rrs.len() == 0 {
        assert(rrs.map_values(image).flatten() =~= seq![]);
    } else {
        lemma_signed_rrs(owner, rrtype, class, sig, rrs.drop_last());
        lemma_signed_rr(owner, rrtype, class, sig, rrs.last().rdata);
        assert(rrs.map_values(image) =~= rrs.drop_last().map_values(image).push(image(rrs.last())));
        rrs.drop_last().map_values(image).lemma_flatten_push(image(rrs.last()));
    }
}

/// What a signature asks for is settled by its own data, the records and the key.
proof fn lemma_step(
    sig: Seq<u8>,
    rrset: Seq<RrView>,
    name: Seq<char>,
    rrtype: u16,
    class: u16,
    now: u32,
    key: Seq<u8>,
)
    ensures
        ({
            let step = step_of(canonical_set(rrset), sig, name, rrtype, class, now, Some(key));
            &&& step_verifies(step) <==> is_signed(sig, rrset, name, rrtype, class, now, key)
            &&& (settles(step, step_verifies(step)) is Some) <==> step_verifies(step)
            &&& settles(step, step_verifies(step)) matches Some(o) ==> proves(sig, rrset, name, rrtype, class, now, key, o)
                && o is Secure
        }),
{
    reveal(step_of);
    if sig.len() >= 18 {
        if let Some(owner) = wire_of(signed_owner(name, sig[3])) {
            lemma_signed_rrs(owner, rrtype, class, sig, canonical_set(rrset));
        }
    }
}

/// Each signature that is tried costs at most one unit of work.
proof fn lemma_signatures_cost(
    sorted: Seq<RrView>,
    sigs: Seq<RrView>,
    i: int,
    name: Seq<char>,
    rrtype: u16,
    class: u16,
    now: u32,
    dnskey: Option<Seq<u8>>,
    counter: i32,
)
    requires
        0 <= i <= sigs.len(),
    ensures
        allowance(try_signatures(sorted, sigs, i, name, rrtype, class, now, dnskey, counter).1) >= allowance(counter) - (
        sigs.len() - i),
    decreases sigs.len() - i,
{
    if i < sigs.len() && counter != 0 {
        let step = step_of(sorted, sigs[i].rdata, name, rrtype, class, now, dnskey);
        if settles(step, step_verifies(step)) is None {
            lemma_signatures_cost(sorted, sigs, i + 1, name, rrtype, class, now, dnskey, dec(counter));
        }
    }
}

/// The first signature that holds is the one that counts.
proof fn lemma_first_signature(
    rrset: Seq<RrView>,
    sigs: Seq<RrView>,
    i: int,
    j: int,
    name: Seq<char>,
    rrtype: u16,
    class: u16,
    now: u32,
    key: Seq<u8>,
    counter: i32,
)
    requires
        0 <= i <= j < sigs.len(),
        forall|m: int| i <= m < j ==> !is_signed((#[trigger] sigs[m]).rdata, rrset, name, rrtype, class, now, key),
        is_signed(sigs[j].rdata, rrset, name, rrtype, class, now, key),
        allowance(counter) > j - i,
    ensures
        ({
            let o = try_signatures(canonical_set(rrset), sigs, i, name, rrtype, class, now, Some(key), counter).0;
            o is Secure && proves(sigs[j].rdata, rrset, name, rrtype, class, now, key, o)
        }),
    decreases j - i,
{
    lemma_step(sigs[i].rdata, rrset, name, rrtype, class, now, key);
    if i < j {
        assert(!is_signed(sigs[i].rdata, rrset, name, rrtype, class, now, key));
        lemma_first_signature(rrset, sigs, i + 1, j, name, rrtype, class, now, key, dec(counter));
    }
}

/// The first of some signatures from number `i` on that holds.
proof fn lemma_least_signature(
    rrset: Seq<RrView>,
    sigs: Seq<RrView>,
    i: int,
    k: int,
    name: Seq<char>,
    rrtype: u16,
    class: u16,
    now: u32,
    key: Seq<u8>,
) -> (j: int)
    requires
        0 <= i <= k < sigs.len(),
        is_signed(sigs[k].rdata, rrset, name, rrtype, class, now, key),
    ensures
        i <= j <= k,
        forall|m: int| i <= m < j ==> !is_signed((#[trigger] sigs[m]).rdata, rrset, name, rrtype, class, now, key),
        is_signed(sigs[j].rdata, rrset, name, rrtype, class, now, key),
    decreases k - i,
{
    if is_signed(sigs[i].rdata, rrset, name, rrtype, class, now, key) {
        i
    } else {
        let j = lemma_least_signature(rrset, sigs, i + 1, k, name, rrtype, class, now, key);
        assert forall|m: int| i <= m < j implies !is_signed(
            (#[trigger] sigs[m]).rdata,
            rrset,
            name,
            rrtype,
            class,
            now,
            key,
        ) by {
            if m == i {
                assert(sigs[m].rdata == sigs[i].rdata);
            }
        }
        j
    }
}

/// Without a signature that holds, none is found.
proof fn lemma_no_signature(
    rrset: Seq<RrView>,
    sigs: Seq<RrView>,
    i: int,
    name: Seq<char>,
    rrtype: u16,
    class: u16,
    now: u32,
    key: Seq<u8>,
    counter: i32,
)
    requires
        0 <= i,
        forall|m: int| i <= m < sigs.len() ==> !is_signed((#[trigger] sigs[m]).rdata, rrset, name, rrtype, class, now, key),
    ensures
        try_signatures(canonical_set(rrset), sigs, i, name, rrtype, class, now, Some(key), counter).0 is Bogus,
    decreases sigs.len() - i,
{
    if i < sigs.len() && counter != 0 {
        lemma_step(sigs[i].rdata, rrset, name, rrtype, class, now, key);
        assert(!is_signed(sigs[i].rdata, rrset, name, rrtype, class, now, key));
        lemma_no_signature(rrset, sigs, i + 1, name, rrtype, class, now, key, dec(counter));
    }
}

/// With enough work allowed, records are secure under a key exactly where one of the signatures over them, whichever
/// it is, is a signature by that key. Otherwise they are bogus, or have no signatures at all. Each signature costs at
/// most one unit of work.
pub proof fn law_any_signature_will_do(
    rrset: Seq<RrView>,
    sigs: Seq<RrView>,
    name: Seq<char>,
    rrtype: u16,
    class: u16,
    now: u32,
    key: Seq<u8>,
    counter: i32,
)
    requires
        allowance(counter) >= sigs.len(),
    ensures
        ({
            let (o, c) = validated(rrset, sigs, name, rrtype, class, now, Some(key), counter);
            &&& o is Secure <==> exists|k: int|
                0 <= k < sigs.len() && is_signed((#[trigger] sigs[k]).rdata, rrset, name, rrtype, class, now, key)
            &&& o is NoSignatures <==> sigs.len() == 0
            &&& o is Secure || o is NoSignatures || o is Bogus
            &&& allowance(c) >= allowance(counter) - sigs.len()
        }),
{
    let (o, c) = validated(rrset, sigs, name, rrtype, class, now, Some(key), counter);
    if sigs.len() > 0 {
        lemma_signatures_cost(canonical_set(rrset), sigs, 0, name, rrtype, class, now, Some(key), counter);
        if exists|k: int| 0 <= k < sigs.len() && is_signed((#[trigger] sigs[k]).rdata, rrset, name, rrtype, class, now, key) {
            let k = choose|k: int|
                0 <= k < sigs.len() && is_signed((#[trigger] sigs[k]).rdata, rrset, name, rrtype, class, now, key);
            let j = lemma_least_signature(rrset, sigs, 0, k, name, rrtype, class, now, key);
            lemma_first_signature(rrset, sigs, 0, j, name, rrtype, class, now, key, counter);
        } else {
            lemma_no_signature(rrset, sigs, 0, name, rrtype, class, now, key, counter);
        }
    }
}

/// Records are kept for as long as all of this allows: each record in the set, the time to live that the signature
/// holds, and the end of the signature; and no shorter. The signature is the first one that holds, and its key tag is
/// the one that is reported.
pub proof fn law_how_long_secure_records_are_kept(
    rrset: Seq<RrView>,
    sigs: Seq<RrView>,
    name: Seq<char>,
    rrtype: u16,
    class: u16,
    now: u32,
    key: Seq<u8>,
    counter: i32,
    k: int,
)
    requires
        0 <= k < sigs.len(),
        allowance(counter) > k,
        is_signed(sigs[k].rdata, rrset, name, rrtype, class, now, key),
        forall|m: int| 0 <= m < k ==> !is_signed((#[trigger] sigs[m]).rdata, rrset, name, rrtype, class, now, key),
    ensures
        validated(rrset, sigs, name, rrtype, class, now, Some(key), counter).0 matches Outcome::Secure { ttl, key_tag } && {
            let sig = sigs[k].rdata;
            let sorted = canonical_set(rrset);
            &&& key_tag == be16(sig, 16)
            &&& ttl <= be32(sig, 4)
            &&& now + ttl <= be32(sig, 8)
            &&& forall|i: int| 0 <= i < sorted.len() ==> ttl <= (#[trigger] sorted[i]).ttl
            &&& ttl == be32(sig, 4) || now + ttl == be32(sig, 8) || exists|i: int|
                0 <= i < sorted.len() && ttl == (#[trigger] sorted[i]).ttl
        },
{
    reveal(step_of);
    lemma_first_signature(rrset, sigs, 0, k, name, rrtype, class, now, key, counter);
    lemma_least_ttl(canonical_set(rrset));
}

/// The least time to live is that of a record, and no record has a lesser one.
proof fn lemma_least_ttl(s: Seq<RrView>)
    ensures
        forall|i: int| 0 <= i < s.len() ==> least_ttl(s) <= (#[trigger] s[i]).ttl,
        least_ttl(s) < u32::MAX ==> exists|i: int| 0 <= i < s.len() && least_ttl(s) == (#[trigger] s[i]).ttl,
    decreases s.len(),
{
    if s.len() > 0 {
        let d = s.drop_last();
        lemma_least_ttl(d);
        assert forall|i: int| 0 <= i < s.len() implies least_ttl(s) <= (#[trigger] s[i]).ttl by {
            if i < d.len() {
                assert(d[i] == s[i]);
            }
        }
        if least_ttl(s) < u32::MAX {
            if s.last().ttl < least_ttl(d) {
                assert(s[s.len() - 1].ttl == least_ttl(s));
            } else {
                let i = choose|i: int| 0 <= i < d.len() && least_ttl(d) == (#[trigger] d[i]).ttl;
                assert(s[i].ttl == least_ttl(s));
            }
        }
    }
}

/// A key that signed records is found wherever it stands among the keys that are tried.
proof fn lemma_key_found(
    keys: Seq<Seq<u8>>,
    k: int,
    j: int,
    rrset: Seq<RrView>,
    sigs: Seq<RrView>,
    rr: RrView,
    now: u32,
    counter: i32,
)
    requires
        0 <= k <= j < keys.len(),
        exists|m: int|
            0 <= m < sigs.len() && is_signed((#[trigger] sigs[m]).rdata, rrset, rr.name, rr.rtype, rr.class, now, keys[j]),
        allowance(counter) >= (j - k + 1) * sigs.len(),
    ensures
        some_key_validates(keys, k, rrset, sigs, rr, now, counter).0,
        allowance(some_key_validates(keys, k, rrset, sigs, rr, now, counter).1) >= allowance(counter) - (j - k + 1)
            * sigs.len(),
    decreases j - k,
{
    let n = sigs.len() as int;
    assert((j - k + 1) * n == (j - k) * n + n) by (nonlinear_arith);
    assert((j - k) * n >= 0) by (nonlinear_arith)
        requires
            j >= k,
            n >= 0,
    ;
    law_any_signature_will_do(rrset, sigs, rr.name, rr.rtype, rr.class, now, keys[k], counter);
    let (o, c) = validated(rrset, sigs, rr.name, rr.rtype, rr.class, now, Some(keys[k]), counter);
    if k < j && !(o is Secure) {
        lemma_key_found(keys, k + 1, j, rrset, sigs, rr, now, c);
    }
}

/// Whether one of the keys, whichever it is, made one of the signatures over a set of records.
pub open spec fn signed_by_a_key(
    keys: Seq<Seq<u8>>,
    rrset: Seq<RrView>,
    sigs: Seq<RrView>,
    rr: RrView,
    now: u32,
) -> bool {
    exists|j: int, m: int|
        0 <= j < keys.len() && 0 <= m < sigs.len() && #[trigger] is_signed(
            sigs[m].rdata,
            rrset,
            rr.name,
            rr.rtype,
            rr.class,
            now,
            keys[j],
        )
}

/// The records of one set in a reply are accepted, whatever the places of the key and of the signature, where the zone
/// that signed them is secure, all signatures name one signer, one of the keys that are known for that zone and class
/// made one of the signatures, and enough work is allowed to try each key on each signature.
pub proof fn law_any_key_will_do(
    all: Seq<RrView>,
    answer: Seq<RrView>,
    rr: RrView,
    now: u32,
    cache: DnssecCache,
    counter: i32,
    check_unsigned: bool,
    ds_mode: bool,
)
    requires
        ({
            let rrset = select(all, in_rrset(rr.name, rr.class, rr.rtype));
            let sigs = select(all, in_rrsigs(rr.name, rr.class, rr.rtype));
            let signer = signing_zone(sigs, rr.name);
            let keys = keys_of_class(cache.keys_of_name(signer), rr.class);
            &&& zone(cache, signer, rr.class).code is Secure
            &&& one_signer(sigs)
            &&& allowance(counter) >= keys.len() * sigs.len()
            &&& signed_by_a_key(keys, rrset, sigs, rr, now)
        }),
    ensures
        ({
            let (s, insecure, c) = set_verdict(all, answer, rr, now, cache, counter, check_unsigned, ds_mode);
            let sigs = select(all, in_rrsigs(rr.name, rr.class, rr.rtype));
            let keys = keys_of_class(cache.keys_of_name(signing_zone(sigs, rr.name)), rr.class);
            &&& s is None
            &&& !insecure
            &&& allowance(c) >= allowance(counter) - keys.len() * sigs.len()
        }),
{
    let rrset = select(all, in_rrset(rr.name, rr.class, rr.rtype));
    let sigs = select(all, in_rrsigs(rr.name, rr.class, rr.rtype));
    let keys = keys_of_class(cache.keys_of_name(signing_zone(sigs, rr.name)), rr.class);
    let (j, m) = choose|j: int, m: int|
        0 <= j < keys.len() && 0 <= m < sigs.len() && #[trigger] is_signed(
            sigs[m].rdata,
            rrset,
            rr.name,
            rr.rtype,
            rr.class,
            now,
            keys[j],
        );
    assert(is_signed(sigs[m].rdata, rrset, rr.name, rr.rtype, rr.class, now, keys[j]));
    let n = sigs.len() as int;
    let have = keys.len() as int;
    assert((j - 0 + 1) * n <= have * n) by (nonlinear_arith)
        requires
            0 <= j < have,
            n >= 0,
    ;
    lemma_key_found(keys, 0, j, rrset, sigs, rr, now, counter);
}

/// What is proved of a set also holds as it is stated for signatures that verify.
pub proof fn law_proof_is_signature(
    sig: Seq<u8>,
    rrset: Seq<RrView>,
    name: Seq<char>,
    rrtype: u16,
    class: u16,
    now: u32,
    key: Seq<u8>,
)
    ensures
        is_signed(sig, rrset, name, rrtype, class, now, key) <==> exists|o: Outcome| #[trigger]
            proves(sig, rrset, name, rrtype, class, now, key, o),
{
    lemma_step(sig, rrset, name, rrtype, class, now, key);
    reveal(step_of);
    let step = step_of(canonical_set(rrset), sig, name, rrtype, class, now, Some(key));
    if is_signed(sig, rrset, name, rrtype, class, now, key) {
        let o = settles(step, true)->0;
        assert(proves(sig, rrset, name, rrtype, class, now, key, o));
    }
}

/// Whether the records of a set are to be accepted: a key that is known for the secure zone that signed them made one of
/// their signatures, and trying each key on each signature takes at most so much work.
pub open spec fn to_be_accepted(all: Seq<RrView>, rr: RrView, now: u32, cache: DnssecCache, work: nat) -> bool {
    let rrset = select(all, in_rrset(rr.name, rr.class, rr.rtype));
    let sigs = select(all, in_rrsigs(rr.name, rr.class, rr.rtype));
    let signer = signing_zone(sigs, rr.name);
    let keys = keys_of_class(cache.keys_of_name(signer), rr.class);
    &&& zone(cache, signer, rr.class).code is Secure
    &&& one_signer(sigs)
    &&& signed_by_a_key(keys, rrset, sigs, rr, now)
    &&& keys.len() * sigs.len() <= work
}

/// Sets that are to be accepted end nothing and make nothing insecure.
proof fn lemma_sets_accepted(
    all: Seq<RrView>,
    answer: Seq<RrView>,
    i: int,
    now: u32,
    cache: DnssecCache,
    counter: i32,
    check_unsigned: bool,
    ds_mode: bool,
    work: nat,
)
    requires
        0 <= i <= all.len(),
        forall|j: int| 0 <= j < all.len() && #[trigger] starts_set(all, j) ==> to_be_accepted(all, all[j], now, cache, work),
        allowance(counter) >= (all.len() - i) * work,
    ensures
        sets_verdict(all, answer, i, now, cache, false, counter, check_unsigned, ds_mode).0 is None,
        !sets_verdict(all, answer, i, now, cache, false, counter, check_unsigned, ds_mode).1,
    decreases all.len() - i,
{
    if i < all.len() {
        let left = all.len() - i;
        assert(left * work == (left - 1) * work + work) by (nonlinear_arith);
        if starts_set(all, i) {
            assert((left - 1) * work >= 0) by (nonlinear_arith)
                requires
                    left >= 1,
            ;
            assert(to_be_accepted(all, all[i], now, cache, work));
            law_any_key_will_do(all, answer, all[i], now, cache, counter, check_unsigned, ds_mode);
            let c = set_verdict(all, answer, all[i], now, cache, counter, check_unsigned, ds_mode).2;
            lemma_sets_accepted(all, answer, i + 1, now, cache, c, check_unsigned, ds_mode, work);
        } else {
            lemma_sets_accepted(all, answer, i + 1, now, cache, counter, check_unsigned, ds_mode, work);
        }
    }
}

/// A reply that answers the question is secure where every set of records in it is to be accepted, given the work that
/// this takes for each of them.
pub proof fn law_signed_answer_is_secure(
    answer: Seq<RrView>,
    auth: Seq<RrView>,
    qname: Seq<char>,
    qtype: u16,
    class: u16,
    rcode: u8,
    now: u32,
    cache: DnssecCache,
    counter: i32,
    check_unsigned: bool,
    nons: Option<bool>,
    limit: u32,
    work: nat,
)
    requires
        rcode == RCODE_NOERROR || rcode == RCODE_NXDOMAIN,
        qtype != T_RRSIG,
        resolved(answer, qname, qtype, class).1,
        forall|j: int|
            0 <= j < (answer + auth).len() && #[trigger] starts_set(answer + auth, j) ==> to_be_accepted(
                answer + auth,
                (answer + auth)[j],
                now,
                cache,
                work,
            ),
        allowance(counter) >= (answer + auth).len() * work,
    ensures
        reply_status(answer, auth, qname, qtype, class, rcode, now, cache, counter, check_unsigned, nons, limit).0.code is Secure,
{
    lemma_sets_accepted(answer + auth, answer, 0, now, cache, counter, check_unsigned, nons is Some, work);
}

/// Whether a DS record vouches for a zone key: it is for the class, its digest is supported, it names the algorithm and the
/// tag of the key, and its digest is that of the key under the name.
pub open spec fn vouches(ds: DsView, ds_class: u16, key: Seq<u8>, name: Seq<char>, class: u16) -> bool {
    &&& ds_class == class
    &&& digest_supported(ds.digest_type)
    &&& ds.algorithm == key[3]
    &&& ds.key_tag == fold16(word_sum(key))
    &&& ds_matches(ds, key, name)
}

/// Whether some signature over a key set is by one of its keys.
pub open spec fn self_signed(key: Seq<u8>, rrset: Seq<RrView>, sigs: Seq<RrView>, name: Seq<char>, class: u16, now: u32) -> bool {
    exists|m: int| 0 <= m < sigs.len() && is_signed((#[trigger] sigs[m]).rdata, rrset, name, T_DNSKEY, class, now, key)
}

/// What trying DS records on a key costs at most, and that it ends only with a secure key set.
proof fn lemma_ds_cost(
    entries: Seq<(DsView, u16)>,
    j: int,
    key: Seq<u8>,
    rrset: Seq<RrView>,
    sigs: Seq<RrView>,
    name: Seq<char>,
    class: u16,
    now: u32,
    fail: u32,
    counter: i32,
)
    requires
        0 <= j <= entries.len(),
        allowance(counter) >= (entries.len() - j) * (sigs.len() + 1),
    ensures
        ({
            let (s, f, c) = try_ds(entries, j, key, rrset, sigs, name, class, now, fail, counter);
            &&& s matches Some(x) ==> x.code is Secure
            &&& allowance(c) >= allowance(counter) - (entries.len() - j) * (sigs.len() + 1)
        }),
    decreases entries.len() - j,
{
    if j < entries.len() {
        let (ds, ds_class) = entries[j];
        let left = entries.len() - j;
        let each = sigs.len() + 1;
        assert(left * each == (left - 1) * each + each) by (nonlinear_arith);
        assert((left - 1) * each >= 0) by (nonlinear_arith)
            requires
                left >= 1,
                each >= 0,
        ;
        let fail2 = fail & !DNSSEC_FAIL_NODSSUP;
        if ds_class != class || !digest_supported(ds.digest_type) {
            lemma_ds_cost(entries, j + 1, key, rrset, sigs, name, class, now, fail, counter);
        } else if ds.algorithm != key[3] || ds.key_tag != fold16(word_sum(key)) {
            lemma_ds_cost(entries, j + 1, key, rrset, sigs, name, class, now, fail2, counter);
        } else if !ds_matches(ds, key, name) {
            lemma_ds_cost(entries, j + 1, key, rrset, sigs, name, class, now, fail2, dec(counter));
        } else {
            law_any_signature_will_do(rrset, sigs, name, T_DNSKEY, class, now, key, dec(counter));
            let (o, c) = validated(rrset, sigs, name, T_DNSKEY, class, now, Some(key), dec(counter));
            if !(o is Secure) {
                lemma_ds_cost(entries, j + 1, key, rrset, sigs, name, class, now, fail2, c);
            }
        }
    }
}

/// A DS record that vouches for a key is found wherever it stands.
proof fn lemma_ds_found(
    entries: Seq<(DsView, u16)>,
    j: int,
    k: int,
    key: Seq<u8>,
    rrset: Seq<RrView>,
    sigs: Seq<RrView>,
    name: Seq<char>,
    class: u16,
    now: u32,
    fail: u32,
    counter: i32,
)
    requires
        0 <= j <= k < entries.len(),
        vouches(entries[k].0, entries[k].1, key, name, class),
        self_signed(key, rrset, sigs, name, class, now),
        allowance(counter) >= (entries.len() - j) * (sigs.len() + 1),
    ensures
        try_ds(entries, j, key, rrset, sigs, name, class, now, fail, counter).0 matches Some(x) && x.code is Secure,
    decreases k - j,
{
    let (ds, ds_class) = entries[j];
    let left = entries.len() - j;
    let each = sigs.len() + 1;
    assert(left * each == (left - 1) * each + each) by (nonlinear_arith);
    assert((left - 1) * each >= 0) by (nonlinear_arith)
        requires
            left >= 1,
            each >= 0,
    ;
    let fail2 = fail & !DNSSEC_FAIL_NODSSUP;
    if ds_class != class || !digest_supported(ds.digest_type) {
        lemma_ds_found(entries, j + 1, k, key, rrset, sigs, name, class, now, fail, counter);
    } else if ds.algorithm != key[3] || ds.key_tag != fold16(word_sum(key)) {
        lemma_ds_found(entries, j + 1, k, key, rrset, sigs, name, class, now, fail2, counter);
    } else if !ds_matches(ds, key, name) {
        lemma_ds_found(entries, j + 1, k, key, rrset, sigs, name, class, now, fail2, dec(counter));
    } else {
        law_any_signature_will_do(rrset, sigs, name, T_DNSKEY, class, now, key, dec(counter));
    }
}

/// A key that is vouched for is found wherever it stands in the key set.
proof fn lemma_zone_key_found(
    entries: Seq<(DsView, u16)>,
    rrset: Seq<RrView>,
    i: int,
    z: int,
    k: int,
    sigs: Seq<RrView>,
    name: Seq<char>,
    class: u16,
    now: u32,
    fail: u32,
    counter: i32,
)
    requires
        0 <= i <= z < rrset.len(),
        0 <= k < entries.len(),
        is_zone_key(rrset[z].rdata),
        vouches(entries[k].0, entries[k].1, rrset[z].rdata, name, class),
        self_signed(rrset[z].rdata, rrset, sigs, name, class, now),
        allowance(counter) >= (rrset.len() - i) * (entries.len() * (sigs.len() + 1)),
    ensures
        try_zone_keys(entries, rrset, i, sigs, name, class, now, fail, counter).0.code is Secure,
    decreases z - i,
{
    let left = rrset.len() - i;
    let each = (entries.len() * (sigs.len() + 1)) as int;
    assert(each >= 0);
    assert(left * each == (left - 1) * each + each) by (nonlinear_arith);
    assert((left - 1) * each >= 0) by (nonlinear_arith)
        requires
            left >= 1,
            each >= 0,
    ;
    if !is_zone_key(rrset[i].rdata) {
        lemma_zone_key_found(entries, rrset, i + 1, z, k, sigs, name, class, now, fail, counter);
    } else {
        let fail2 = fail & !DNSSEC_FAIL_NOZONE;
        let key = rrset[i].rdata;
        assert(entries.len() - 0 == entries.len());
        lemma_ds_cost(entries, 0, key, rrset, sigs, name, class, now, fail2, counter);
        let (s, f, c) = try_ds(entries, 0, key, rrset, sigs, name, class, now, fail2, counter);
        if i == z {
            lemma_ds_found(entries, 0, k, key, rrset, sigs, name, class, now, fail2, counter);
        } else if s is None {
            lemma_zone_key_found(entries, rrset, i + 1, z, k, sigs, name, class, now, f, c);
        }
    }
}

/// The keys of a zone are secure where one of its DS records, whichever it is, vouches for one of its zone keys, whichever it
/// is, that key made one of the signatures over the keys, and enough work is allowed to try each.
pub proof fn law_any_ds_will_do(
    records: Seq<RrView>,
    name: Seq<char>,
    class: u16,
    now: u32,
    cache: DnssecCache,
    counter: i32,
    entries: Seq<(DsView, u16)>,
    z: int,
    k: int,
)
    requires
        cache.ds_of_name(name) == Some(DsKnown::Positive(entries)),
        0 <= k < entries.len(),
        ({
            let rrset = select(records, in_rrset(name, class, T_DNSKEY));
            let sigs = select(records, in_rrsigs(name, class, T_DNSKEY));
            &&& 0 <= z < rrset.len()
            &&& is_zone_key(rrset[z].rdata)
            &&& vouches(entries[k].0, entries[k].1, rrset[z].rdata, name, class)
            &&& self_signed(rrset[z].rdata, rrset, sigs, name, class, now)
            &&& allowance(counter) >= rrset.len() * (entries.len() * (sigs.len() + 1))
        }),
    ensures
        by_ds(records, name, class, now, cache, counter).0.code is Secure,
{
    let rrset = select(records, in_rrset(name, class, T_DNSKEY));
    let sigs = select(records, in_rrsigs(name, class, T_DNSKEY));
    assert(rrset.len() - 0 == rrset.len());
    lemma_zone_key_found(
        entries,
        rrset,
        0,
        z,
        k,
        sigs,
        name,
        class,
        now,
        DNSSEC_FAIL_NODSSUP | DNSSEC_FAIL_NOZONE,
        counter,
    );
}

/// Records in ascending order of the same data have that data in the same places.
proof fn lemma_same_data(a: Seq<RrView>, b: Seq<RrView>)
    requires
        ascending(a),
        ascending(b),
        forall|i: int| 0 <= i < a.len() ==> #[trigger] has_data(b, a[i].rdata),
        forall|i: int| 0 <= i < b.len() ==> #[trigger] has_data(a, b[i].rdata),
    ensures
        a.len() == b.len(),
        forall|i: int| 0 <= i < a.len() ==> (#[trigger] a[i]).rdata == b[i].rdata,
    decreases a.len(),
{
    if a.len() == 0 {
        if b.len() > 0 {
            assert(has_data(a, b[0].rdata));
        }
    } else {
        let n = a.len() - 1;
        assert(has_data(b, a[n].rdata));
        let m = b.len() - 1;
        assert(has_data(a, b[m].rdata));
        let q = choose|q: int| 0 <= q < b.len() && (#[trigger] b[q]).rdata == a[n].rdata;
        let p = choose|p: int| 0 <= p < a.len() && (#[trigger] a[p]).rdata == b[m].rdata;
        lemma_lex_total(a[n].rdata, b[m].rdata);
        assert(a[n].rdata == b[m].rdata) by {
            if q < m && p < n {
                assert(lex_less(b[q].rdata, b[m].rdata));
                assert(lex_less(a[p].rdata, a[n].rdata));
            }
        }
        let (c, d) = (a.drop_last(), b.drop_last());
        assert(ascending(c)) by {
            assert forall|i: int, j: int| 0 <= i < j < c.len() implies lex_less((#[trigger] c[i]).rdata, (#[trigger] c[j]).rdata) by {
                assert(lex_less(a[i].rdata, a[j].rdata));
            }
        }
        assert(ascending(d)) by {
            assert forall|i: int, j: int| 0 <= i < j < d.len() implies lex_less((#[trigger] d[i]).rdata, (#[trigger] d[j]).rdata) by {
                assert(lex_less(b[i].rdata, b[j].rdata));
            }
        }
        assert forall|i: int| 0 <= i < c.len() implies #[trigger] has_data(d, c[i].rdata) by {
            assert(has_data(b, a[i].rdata));
            let r = choose|r: int| 0 <= r < b.len() && (#[trigger] b[r]).rdata == a[i].rdata;
            assert(lex_less(a[i].rdata, a[n].rdata));
            lemma_lex_total(a[i].rdata, a[n].rdata);
            assert(r < m);
            assert(d[r].rdata == c[i].rdata);
        }
        assert forall|i: int| 0 <= i < d.len() implies #[trigger] has_data(c, d[i].rdata) by {
            assert(has_data(a, b[i].rdata));
            let r = choose|r: int| 0 <= r < a.len() && (#[trigger] a[r]).rdata == b[i].rdata;
            assert(lex_less(b[i].rdata, b[m].rdata));
            lemma_lex_total(b[i].rdata, b[m].rdata);
            assert(r < n);
            assert(c[r].rdata == d[i].rdata);
        }
        lemma_same_data(c, d);
        assert forall|i: int| 0 <= i < a.len() implies (#[trigger] a[i]).rdata == b[i].rdata by {
            if i < n {
                assert(c[i].rdata == d[i].rdata);
            }
        }
    }
}

/// The data of a canonical set is the data of the records.
proof fn lemma_canonical_data(s: Seq<RrView>, d: Seq<u8>)
    ensures
        has_data(canonical_set(s), d) <==> has_data(s, d),
{
    law_canonical_set(s);
    let out = canonical_set(s);
    if has_data(out, d) {
        let i = choose|i: int| 0 <= i < out.len() && (#[trigger] out[i]).rdata == d;
        assert(comes_first(s, out[i]));
        let k = choose|k: int| #[trigger] is_first(s, k) && s[k] == out[i];
        assert(s[k].rdata == d);
    }
    if has_data(s, d) {
        let k = choose|k: int| 0 <= k < s.len() && (#[trigger] s[k]).rdata == d;
        assert(has_data(out, s[k].rdata));
    }
}

/// What is verified depends on the data of the records alone: for two sets that hold the same data, whatever the order,
/// the repetitions and the times to live of their records, a signature asks for the same check, of the same bytes.
pub proof fn law_signed_data_depends_on_data_alone(
    a: Seq<RrView>,
    b: Seq<RrView>,
    sig: Seq<u8>,
    name: Seq<char>,
    rrtype: u16,
    class: u16,
    now: u32,
    dnskey: Option<Seq<u8>>,
)
    requires
        forall|i: int| 0 <= i < a.len() ==> #[trigger] has_data(b, a[i].rdata),
        forall|i: int| 0 <= i < b.len() ==> #[trigger] has_data(a, b[i].rdata),
    ensures
        ({
            let x = step_of(canonical_set(a), sig, name, rrtype, class, now, dnskey);
            let y = step_of(canonical_set(b), sig, name, rrtype, class, now, dnskey);
            match x {
                Step::Check { algorithm, key, data, signature, ttl, key_tag } => {
                    &&& y is Check
                    &&& y->algorithm == algorithm
                    &&& y->key == key
                    &&& y->data == data
                    &&& y->signature == signature
                    &&& y->Check_key_tag == key_tag
                },
                _ => y == x,
            }
        }),
{
    reveal(step_of);
    let (c, d) = (canonical_set(a), canonical_set(b));
    law_canonical_set(a);
    law_canonical_set(b);
    assert forall|i: int| 0 <= i < c.len() implies #[trigger] has_data(d, c[i].rdata) by {
        assert(c[i].rdata == c[i].rdata);
        assert(has_data(c, c[i].rdata));
        lemma_canonical_data(a, c[i].rdata);
        let k = choose|k: int| 0 <= k < a.len() && (#[trigger] a[k]).rdata == c[i].rdata;
        assert(has_data(b, a[k].rdata));
        lemma_canonical_data(b, c[i].rdata);
    }
    assert forall|i: int| 0 <= i < d.len() implies #[trigger] has_data(c, d[i].rdata) by {
        assert(has_data(d, d[i].rdata));
        lemma_canonical_data(b, d[i].rdata);
        let k = choose|k: int| 0 <= k < b.len() && (#[trigger] b[k]).rdata == d[i].rdata;
        assert(has_data(a, b[k].rdata));
        lemma_canonical_data(a, d[i].rdata);
    }
    lemma_same_data(c, d);
    if sig.len() >= 18 {
        if let Some(owner) = wire_of(signed_owner(name, sig[3])) {
            lemma_signed_by_data(owner, rrtype, class, be32(sig, 4), c, d);
        }
    }
}

/// Records with the same data are signed alike.
proof fn lemma_signed_by_data(owner: Seq<u8>, rrtype: u16, class: u16, ttl: u32, a: Seq<RrView>, b: Seq<RrView>)
    requires
        a.len() == b.len(),
        forall|i: int| 0 <= i < a.len() ==> (#[trigger] a[i]).rdata == b[i].rdata,
    ensures
        signed_rrs(owner, rrtype, class, ttl, a) == signed_rrs(owner, rrtype, class, ttl, b),
    decreases a.len(),
{
    if a.len() > 0 {
        let (c, d) = (a.drop_last(), b.drop_last());
        assert forall|i: int| 0 <= i < c.len() implies (#[trigger] c[i]).rdata == d[i].rdata by {
            assert(a[i].rdata == b[i].rdata);
        }
        lemma_signed_by_data(owner, rrtype, class, ttl, c, d);
        assert(a[a.len() - 1].rdata == b[a.len() - 1].rdata);
    }
}

/// The times to live of records do not matter to what is verified.
pub proof fn law_ttl_is_not_signed(
    a: Seq<RrView>,
    b: Seq<RrView>,
    sig: Seq<u8>,
    name: Seq<char>,
    rrtype: u16,
    class: u16,
    now: u32,
    key: Seq<u8>,
)
    requires
        a.len() == b.len(),
        forall|i: int| 0 <= i < a.len() ==> b[i] == (RrView { ttl: b[i].ttl, ..#[trigger] a[i] }),
    ensures
        ({
            let x = step_of(canonical_set(a), sig, name, rrtype, class, now, Some(key));
            let y = step_of(canonical_set(b), sig, name, rrtype, class, now, Some(key));
            &&& x is Check <==> y is Check
            &&& x is Check ==> x->data == y->data
            &&& is_signed(sig, a, name, rrtype, class, now, key) <==> is_signed(sig, b, name, rrtype, class, now, key)
        }),
{
    assert forall|i: int| 0 <= i < a.len() implies #[trigger] has_data(b, a[i].rdata) by {
        assert(b[i].rdata == a[i].rdata);
    }
    assert forall|i: int| 0 <= i < b.len() implies #[trigger] has_data(a, b[i].rdata) by {
        assert(a[i].rdata == b[i].rdata);
    }
    law_signed_data_depends_on_data_alone(a, b, sig, name, rrtype, class, now, Some(key));
    lemma_step(sig, a, name, rrtype, class, now, key);
    lemma_step(sig, b, name, rrtype, class, now, key);
}

/// What is verified of a set of one record: the first 18 bytes of the signature, the signer, the owner, the type, the
/// class, the time to live in bytes 4 to 7 of the signature, the length of the data, and the data.
pub proof fn law_signed_data_of_one_record(
    rr: RrView,
    sig: Seq<u8>,
    name: Seq<char>,
    rrtype: u16,
    class: u16,
    now: u32,
    key: Seq<u8>,
    signer: Seq<u8>,
    owner: Seq<u8>,
)
    requires
        step_of(canonical_set(seq![rr]), sig, name, rrtype, class, now, Some(key)) is Check,
        wire_of(signer_of(sig)) == Some(signer),
        wire_of(signed_owner(name, sig[3])) == Some(owner),
        rr.rdata.len() <= 0xffff,
    ensures
        step_of(canonical_set(seq![rr]), sig, name, rrtype, class, now, Some(key))->data == sig.take(18) + signer + owner + seq![
            (rrtype / 256) as u8,
            (rrtype % 256) as u8,
            (class / 256) as u8,
            (class % 256) as u8,
        ] + sig.subrange(4, 8) + seq![(rr.rdata.len() / 256) as u8, (rr.rdata.len() % 256) as u8] + rr.rdata,
{
    reveal(step_of);
    let one = seq![rr];
    assert(one.drop_last() =~= Seq::<RrView>::empty());
    assert(canonical_set(one) =~= one) by {
        assert(canonical_set(one.drop_last()) =~= Seq::<RrView>::empty());
    }
    reveal_with_fuel(signed_rrs, 2);
    lemma_signed_rr(owner, rrtype, class, sig, rr.rdata);
    assert(signed_rrs(owner, rrtype, class, be32(sig, 4), one) =~= signed_rr(owner, rrtype, class, be32(sig, 4), rr.rdata));
    assert(step_of(canonical_set(seq![rr]), sig, name, rrtype, class, now, Some(key))->data =~= sig.take(18) + signer + owner + seq![
        (rrtype / 256) as u8,
        (rrtype % 256) as u8,
        (class / 256) as u8,
        (class % 256) as u8,
    ] + sig.subrange(4, 8) + seq![(rr.rdata.len() / 256) as u8, (rr.rdata.len() % 256) as u8] + rr.rdata);
}

} // verus!
