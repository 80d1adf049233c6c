//! Finding an RRset with its signatures, and checking the signatures.

use super::basics::{count_labels, dec, dec_counter, labels32, lemma_labels_le_parts};
use super::order::{canonical_set, sort_rrset};
use super::records::parse_dnskey_rdata;
use crate::crypto::{algo_supported, algorithm_of, check_signature, signed_by};
use crate::names::{join, join_labels, split, split_labels};
use crate::rfc1035::{clone_records, ref_views, rr_views, DnsRr, RrView};
use crate::text::{
    append_bytes, copy_range, ends_with, is_suffix, same, select, to_unicode_lower, unicode_lower,
};
use crate::wire::{
    be16, be16_bytes, be32, be32_bytes, dotted_name, name_to_wire, parse_wire_name, push_be16, push_be32, read_be16,
    read_be32, wire_of,
};
use vstd::prelude::*;

verus! {

/// The type number of RRSIG records.
pub const T_RRSIG: u16 = 46;

/// Whether `rr` belongs to `name` and `class`.
pub open spec fn owned_by(rr: RrView, name: Seq<char>, class: u16) -> bool {
    unicode_lower(rr.name) == unicode_lower(name) && rr.class == class
}

/// Whether the name `signer` is `name` or encloses it; the root encloses every name.
pub open spec fn encloses(signer: Seq<char>, name: Seq<char>) -> bool {
    signer.len() == 0 || name == signer || is_suffix(seq!['.'] + signer, name)
}

/// Whether `rr` is a signature over records of type `t` at `name`, by a signer that encloses it.
pub open spec fn signs(rr: RrView, name: Seq<char>, t: u16) -> bool {
    &&& rr.rtype == T_RRSIG
    &&& rr.rdata.len() >= 18
    &&& be16(rr.rdata, 0) == t
    &&& dotted_name(rr.rdata.skip(18)) matches Ok((signer, n))
    &&& encloses(unicode_lower(signer), unicode_lower(name))
}

/// The records that make up an RRset.
pub open spec fn in_rrset(name: Seq<char>, class: u16, t: u16) -> spec_fn(RrView) -> bool {
    |rr: RrView| owned_by(rr, name, class) && rr.rtype == t
}

/// The signatures over an RRset.
pub open spec fn in_rrsigs(name: Seq<char>, class: u16, t: u16) -> spec_fn(RrView) -> bool {
    |rr: RrView| owned_by(rr, name, class) && rr.rtype != t && signs(rr, name, t)
}

/// Splits off the RRset of `name`, `rrclass` and `rrtype` and the signatures that cover it; names
/// are compared in lower case, and the signer must be the owner or enclose it.
pub fn explore_rrset<'a>(records: &'a [DnsRr], name: &str, rrclass: u16, rrtype: u16) -> (r: (
    Vec<&'a DnsRr>,
    Vec<&'a DnsRr>,
))
    ensures
        ref_views(r.0@) == select(rr_views(records@), in_rrset(name@, rrclass, rrtype)),
        ref_views(r.1@) == select(rr_views(records@), in_rrsigs(name@, rrclass, rrtype)),
{
    let name_lower: String = to_unicode_lower(name);
    let mut rrset: Vec<&'a DnsRr> = Vec::new();
    let mut rrsigs: Vec<&'a DnsRr> = Vec::new();
    let ghost all = rr_views(records@);
    let ghost p = in_rrset(name@, rrclass, rrtype);
    let ghost q = in_rrsigs(name@, rrclass, rrtype);
    let mut i: usize = 0;
    assert(ref_views(rrset@) =~= select(all.take(0), p));
    assert(ref_views(rrsigs@) =~= select(all.take(0), q));
    while i < records.len()
        invariant
            i <= records@.len(),
            all == rr_views(records@),
            p == in_rrset(name@, rrclass, rrtype),
            q == in_rrsigs(name@, rrclass, rrtype),
            name_lower@ == unicode_lower(name@),
            ref_views(rrset@) == select(all.take(i as int), p),
            ref_views(rrsigs@) == select(all.take(i as int), q),
        decreases records@.len() - i,
    {
        let rr: &'a DnsRr = &records[i];
        proof {
            assert(all.take(i + 1).drop_last() =~= all.take(i as int));
            assert(all.take(i + 1).last() == rr@);
        }
        let rr_lower: String = to_unicode_lower(rr.name.as_str());
        if rr.class == rrclass && same(rr_lower.as_str(), name_lower.as_str()) {
            if rr.rtype == rrtype {
                assert(ref_views(rrset@.push(rr)) =~= ref_views(rrset@).push(rr@));
                rrset.push(rr);
            } else if rr.rtype == T_RRSIG && rr.rdata.len() >= 18 && read_be16(rr.rdata.as_slice(), 0) == rrtype {
                let rest: &[u8] = &rr.rdata.as_slice()[18..rr.rdata.len()];
                assert(rest@ =~= rr.rdata@.skip(18));
                if let Ok((signer, n)) = parse_wire_name(rest) {
                    let signer_lower: String = to_unicode_lower(signer.as_str());
                    let mut tail = String::new();
                    tail.push('.');
                    tail.append(signer_lower.as_str());
                    assert(tail@ =~= seq!['.'] + signer_lower@);
                    if signer_lower.as_str().is_empty() || same(name_lower.as_str(), signer_lower.as_str()) || ends_with(
                        name_lower.as_str(),
                        tail.as_str(),
                    ) {
                        assert(ref_views(rrsigs@.push(rr)) =~= ref_views(rrsigs@).push(rr@));
                        rrsigs.push(rr);
                    }
                }
            }
        }
        i += 1;
    }
    assert(all.take(all.len() as int) =~= all);
    (rrset, rrsigs)
}

/// The outcome of checking the signatures of an RRset.
#[derive(Debug, Clone, PartialEq)]
pub enum RrsetValidation {
    /// A signature verified.
    Secure {
        /// How long the records may be kept: the least of their own times, the time in the
        /// signature, and the time until the signature expires.
        ttl: u32,
        /// The tag of the key that verified the signature.
        key_tag: u16,
    },
    /// A key is needed.
    NeedKey { signer: String, key_tag: u16 },
    /// No signature verified.
    Bogus(String),
    /// There are no signatures.
    NoSignatures,
}

/// The model of an `RrsetValidation`.
pub enum Outcome {
    Secure { ttl: u32, key_tag: u16 },
    NeedKey { signer: Seq<char>, key_tag: u16 },
    Bogus(Seq<char>),
    NoSignatures,
}

impl View for RrsetValidation {
    type V = Outcome;

    open spec fn view(&self) -> Outcome {
        match *self {
            RrsetValidation::Secure { ttl, key_tag } => Outcome::Secure { ttl, key_tag },
            RrsetValidation::NeedKey { signer, key_tag } => Outcome::NeedKey { signer: signer@, key_tag },
            RrsetValidation::Bogus(reason) => Outcome::Bogus(reason@),
            RrsetValidation::NoSignatures => Outcome::NoSignatures,
        }
    }
}

/// The least time to live in `s`, or the greatest 32-bit number when `s` is empty.
pub open spec fn least_ttl(s: Seq<RrView>) -> u32
    decreases s.len(),
{
    if s.len() == 0 {
        u32::MAX
    } else if s.last().ttl < least_ttl(s.drop_last()) {
        s.last().ttl
    } else {
        least_ttl(s.drop_last())
    }
}

/// The least time to live of the records, or the greatest 32-bit number when there are none.
pub fn rr_ttl(rrset: &[DnsRr]) -> (r: u32)
    ensures
        r == least_ttl(rr_views(rrset@)),
{
    let ghost all = rr_views(rrset@);
    let mut least: u32 = u32::MAX;
    let mut i: usize = 0;
    while i < rrset.len()
        invariant
            i <= rrset@.len(),
            all == rr_views(rrset@),
            least == least_ttl(all.take(i as int)),
        decreases rrset@.len() - i,
    {
        assert(all.take(i + 1).drop_last() =~= all.take(i as int));
        assert(all.take(i + 1).last() == rrset@[i as int]@);
        if rrset[i].ttl < least {
            least = rrset[i].ttl;
        }
        i += 1;
    }
    assert(all.take(all.len() as int) =~= all);
    least
}

/// The signer's name in RRSIG data; the empty name when it cannot be read.
pub open spec fn signer_of(rdata: Seq<u8>) -> Seq<char> {
    match dotted_name(rdata.skip(18)) {
        Ok((name, n)) => name,
        Err(_) => seq![],
    }
}

/// The owner name that was signed: a name with more labels than the signature says came from a
/// wildcard.
pub open spec fn signed_owner(name: Seq<char>, labels: u8) -> Seq<char> {
    if labels < labels32(name) {
        seq!['*', '.'] + join(split(name).skip(labels32(name) - labels))
    } else {
        name
    }
}

/// One record as it is signed.
pub open spec fn signed_rr(owner: Seq<u8>, rrtype: u16, class: u16, ttl: u32, rdata: Seq<u8>) -> Seq<u8> {
    owner + be16_bytes(rrtype) + be16_bytes(class) + be32_bytes(ttl) + be16_bytes((rdata.len() % 0x1_0000) as u16) + rdata
}

/// The records as they are signed.
pub open spec fn signed_rrs(owner: Seq<u8>, rrtype: u16, class: u16, ttl: u32, rrs: Seq<RrView>) -> Seq<u8>
    decreases rrs.len(),
{
    if rrs.len() == 0 {
        seq![]
    } else {
        signed_rrs(owner, rrtype, class, ttl, rrs.drop_last()) + signed_rr(owner, rrtype, class, ttl, rrs.last().rdata)
    }
}

/// A signature that is ready to be verified.
#[derive(Debug, Clone)]
pub struct SigCheck {
    pub algorithm: u8,
    /// The key material of the DNSKEY.
    pub key: Vec<u8>,
    /// The data that was signed.
    pub data: Vec<u8>,
    pub signature: Vec<u8>,
    /// How long the records may be kept when the signature verifies.
    pub ttl: u32,
    pub key_tag: u16,
}

/// What one RRSIG asks for.
#[derive(Debug, Clone)]
pub enum SigStep {
    /// The signature cannot be used.
    Skip,
    /// The signature can be used, but no key is at hand.
    NeedKey { signer: String, key_tag: u16 },
    /// The signature is to be verified.
    Check(SigCheck),
}

/// The model of a `SigStep`.
pub enum Step {
    Skip,
    NeedKey { signer: Seq<char>, key_tag: u16 },
    Check { algorithm: u8, key: Seq<u8>, data: Seq<u8>, signature: Seq<u8>, ttl: u32, key_tag: u16 },
}

impl View for SigStep {
    type V = Step;

    open spec fn view(&self) -> Step {
        match *self {
            SigStep::Skip => Step::Skip,
            SigStep::NeedKey { signer, key_tag } => Step::NeedKey { signer: signer@, key_tag },
            SigStep::Check(c) => Step::Check {
                algorithm: c.algorithm,
                key: c.key@,
                data: c.data@,
                signature: c.signature@,
                ttl: c.ttl,
                key_tag: c.key_tag,
            },
        }
    }
}

/// The lesser of two numbers.
pub open spec fn lesser(a: u32, b: u32) -> u32 {
    if a < b {
        a
    } else {
        b
    }
}

/// What the RRSIG data `rdata` asks for, over the records `sorted` in canonical order.
///
/// It is skipped when it is too short, not valid at `now`, or made for more labels than the name
/// has; and, when a key is at hand, when its algorithm is not supported, when a name has no wire
/// form, when no signature follows the signer's name, or when the key is too short.
#[verifier::opaque]
pub open spec fn step_of(
    sorted: Seq<RrView>,
    rdata: Seq<u8>,
    name: Seq<char>,
    rrtype: u16,
    class: u16,
    now: u32,
    dnskey: Option<Seq<u8>>,
) -> Step {
    if rdata.len() < 18 {
        Step::Skip
    } else {
        let labels = rdata[3];
        let ttl = be32(rdata, 4);
        let expiry = be32(rdata, 8);
        let inception = be32(rdata, 12);
        let key_tag = be16(rdata, 16);
        let signer = signer_of(rdata);
        if now < inception || now > expiry || labels > labels32(name) {
            Step::Skip
        } else {
            match dnskey {
                None => Step::NeedKey { signer, key_tag },
                Some(key) => match (wire_of(signer), wire_of(signed_owner(name, labels))) {
                    (Some(ws), Some(wo)) => if algorithm_of(rdata[2]) is None || 18 + ws.len() >= rdata.len() || key.len()
                        < 4 {
                        Step::Skip
                    } else {
                        Step::Check {
                            algorithm: rdata[2],
                            key: key.skip(4),
                            data: rdata.take(18) + ws + signed_rrs(wo, rrtype, class, ttl, sorted),
                            signature: rdata.skip(18 + ws.len() as int),
                            ttl: lesser(lesser(least_ttl(sorted), ttl), (expiry - now) as u32),
                            key_tag,
                        }
                    },
                    _ => Step::Skip,
                },
            }
        }
    }
}

/// The owner name that was signed.
pub(crate) fn owner_signed(name: &str, labels: u8) -> (r: String)
    ensures
        r@ == signed_owner(name@, labels),
{
    let name_labels: u32 = count_labels(name);
    if (labels as u32) < name_labels {
        let parts: Vec<String> = split_labels(name);
        proof {
            lemma_labels_le_parts(name@);
        }
        let rest: String = join_labels(&parts, (name_labels - labels as u32) as usize);
        let mut wc = String::new();
        wc.push('*');
        wc.push('.');
        wc.append(rest.as_str());
        assert(wc@ =~= seq!['*', '.'] + rest@);
        wc
    } else {
        String::from_str(name)
    }
}

/// Appends the records as they are signed.
fn push_signed_rrs(out: &mut Vec<u8>, owner: &[u8], rrtype: u16, class: u16, ttl: u32, rrs: &[DnsRr])
    ensures
        final(out)@ == old(out)@ + signed_rrs(owner@, rrtype, class, ttl, rr_views(rrs@)),
{
    let ghost all = rr_views(rrs@);
    let ghost start = out@;
    let mut i: usize = 0;
    assert(out@ =~= start + signed_rrs(owner@, rrtype, class, ttl, all.take(0)));
    while i < rrs.len()
        invariant
            i <= rrs@.len(),
            all == rr_views(rrs@),
            out@ == start + signed_rrs(owner@, rrtype, class, ttl, all.take(i as int)),
        decreases rrs@.len() - i,
    {
        proof {
            assert(all.take(i + 1).drop_last() =~= all.take(i as int));
            assert(all.take(i + 1).last() == rrs@[i as int]@);
        }
        let rdata: &[u8] = rrs[i].rdata.as_slice();
        let ghost before = out@;
        append_bytes(out, owner);
        push_be16(out, rrtype);
        push_be16(out, class);
        push_be32(out, ttl);
        push_be16(out, (rdata.len() % 0x1_0000) as u16);
        append_bytes(out, rdata);
        assert(out@ =~= before + signed_rr(owner@, rrtype, class, ttl, rdata@));
        assert(out@ =~= start + signed_rrs(owner@, rrtype, class, ttl, all.take(i + 1)));
        i += 1;
    }
    assert(all.take(all.len() as int) =~= all);
}

/// Works out what one RRSIG asks for over records in canonical order.
pub fn signature_step(
    sorted: &[DnsRr],
    rrsig: &DnsRr,
    name: &str,
    rrtype: u16,
    rrclass: u16,
    now_ts: u32,
    dnskey_rdata: Option<&[u8]>,
) -> (r: SigStep)
    ensures
        r@ == step_of(
            rr_views(sorted@),
            rrsig.rdata@,
            name@,
            rrtype,
            rrclass,
            now_ts,
            match dnskey_rdata {
                Some(k) => Some(k@),
                None => None,
            },
        ),
{
    reveal(step_of);
    let rdata: &[u8] = rrsig.rdata.as_slice();
    if rdata.len() < 18 {
        return SigStep::Skip;
    }
    let algo: u8 = rdata[2];
    let labels: u8 = rdata[3];
    let orig_ttl: u32 = read_be32(rdata, 4);
    let sig_expiry: u32 = read_be32(rdata, 8);
    let sig_inception: u32 = read_be32(rdata, 12);
    let key_tag: u16 = read_be16(rdata, 16);
    if now_ts < sig_inception || now_ts > sig_expiry {
        return SigStep::Skip;
    }
    if labels as u32 > count_labels(name) {
        return SigStep::Skip;
    }
    let rest: &[u8] = &rdata[18..rdata.len()];
    assert(rest@ =~= rdata@.skip(18));
    let signer: String = match parse_wire_name(rest) {
        Ok((n, used)) => n,
        Err(_) => String::new(),
    };
    assert(signer@ =~= signer_of(rdata@));
    let key: &[u8] = match dnskey_rdata {
        None => {
            return SigStep::NeedKey { signer, key_tag };
        },
        Some(k) => k,
    };
    if !algo_supported(algo) {
        return SigStep::Skip;
    }
    let wire_signer: Vec<u8> = match name_to_wire(signer.as_str()) {
        Some(w) => w,
        None => {
            return SigStep::Skip;
        },
    };
    let owner: String = owner_signed(name, labels);
    let wire_owner: Vec<u8> = match name_to_wire(owner.as_str()) {
        Some(w) => w,
        None => {
            return SigStep::Skip;
        },
    };
    if wire_signer.len() >= rdata.len() - 18 {
        return SigStep::Skip;
    }
    match parse_dnskey_rdata(key) {
        Err(_) => SigStep::Skip,
        Ok(dnskey) => {
            let mut data: Vec<u8> = copy_range(rdata, 0, 18);
            assert(data@ =~= rdata@.take(18));
            append_bytes(&mut data, wire_signer.as_slice());
            push_signed_rrs(&mut data, wire_owner.as_slice(), rrtype, rrclass, orig_ttl, sorted);
            let signature: Vec<u8> = copy_range(rdata, 18 + wire_signer.len(), rdata.len());
            assert(signature@ =~= rdata@.skip(18 + wire_signer@.len() as int));
            let remaining: u32 = sig_expiry - now_ts;
            let own: u32 = rr_ttl(sorted);
            let first: u32 = if own < orig_ttl {
                own
            } else {
                orig_ttl
            };
            let ttl: u32 = if first < remaining {
                first
            } else {
                remaining
            };
            SigStep::Check(SigCheck { algorithm: algo, key: dnskey.public_key, data, signature, ttl, key_tag })
        },
    }
}

/// What a step settles when its signature verifies or does not; `None` leaves it to the next one.
pub open spec fn settles(step: Step, verified: bool) -> Option<Outcome> {
    match step {
        Step::Skip => None,
        Step::NeedKey { signer, key_tag } => Some(Outcome::NeedKey { signer, key_tag }),
        Step::Check { algorithm, key, data, signature, ttl, key_tag } => if verified {
            Some(Outcome::Secure { ttl, key_tag })
        } else {
            None
        },
    }
}

/// Settles a step by whether its signature verified; `None` leaves it to the next signature.
pub fn judge_step(step: &SigStep, verified: bool) -> (r: Option<RrsetValidation>)
    ensures
        match r {
            Some(v) => settles(step@, verified) == Some(v@),
            None => settles(step@, verified) is None,
        },
{
    match step {
        SigStep::Skip => None,
        SigStep::NeedKey { signer, key_tag } => Some(
            RrsetValidation::NeedKey { signer: signer.clone(), key_tag: *key_tag },
        ),
        SigStep::Check(c) => if verified {
            Some(RrsetValidation::Secure { ttl: c.ttl, key_tag: c.key_tag })
        } else {
            None
        },
    }
}

/// Whether the signature of a step verifies.
pub open spec fn step_verifies(step: Step) -> bool {
    match step {
        Step::Check { algorithm, key, data, signature, ttl, key_tag } => signed_by(algorithm, key, data, signature),
        _ => false,
    }
}

/// Verifies the signature of a step.
fn verify_step(step: &SigStep) -> (r: bool)
    ensures
        r == step_verifies(step@),
{
    match step {
        SigStep::Check(c) => check_signature(c.algorithm, c.key.as_slice(), c.data.as_slice(), c.signature.as_slice()),
        _ => false,
    }
}

/// The outcome of trying the signatures from number `i` on, and the work counter afterwards: the
/// first one that settles the matter decides, and a used-up counter ends the search.
pub open spec fn try_signatures(
    sorted: Seq<RrView>,
    sigs: Seq<RrView>,
    i: int,
    name: Seq<char>,
    rrtype: u16,
    class: u16,
    now: u32,
    dnskey: Option<Seq<u8>>,
    counter: i32,
) -> (Outcome, i32)
    decreases sigs.len() - i,
{
    if !(0 <= i < sigs.len()) || counter == 0 {
        (Outcome::Bogus("no valid signatures found"@), counter)
    } else {
        let step = step_of(sorted, sigs[i].rdata, name, rrtype, class, now, dnskey);
        match settles(step, step_verifies(step)) {
            Some(o) => (o, dec(counter)),
            None => try_signatures(sorted, sigs, i + 1, name, rrtype, class, now, dnskey, dec(counter)),
        }
    }
}

/// The outcome of validating an RRset, and the work counter afterwards.
pub open spec fn validated(
    rrset: Seq<RrView>,
    sigs: Seq<RrView>,
    name: Seq<char>,
    rrtype: u16,
    class: u16,
    now: u32,
    dnskey: Option<Seq<u8>>,
    counter: i32,
) -> (Outcome, i32) {
    if sigs.len() == 0 {
        (Outcome::NoSignatures, counter)
    } else {
        try_signatures(canonical_set(rrset), sigs, 0, name, rrtype, class, now, dnskey, counter)
    }
}

/// The view of an optional key.
pub open spec fn key_view(k: Option<&[u8]>) -> Option<Seq<u8>> {
    match k {
        Some(b) => Some(b@),
        None => None,
    }
}

/// Validates an RRset: the signatures are tried in turn with the given key until one verifies.
///
/// A signature that is not valid now, that cannot be used or that does not verify is passed over.
/// Without a key, the first usable signature says which key is needed. Each signature that is tried
/// costs one unit of `counter`.
pub fn validate_rrset(
    rrset_in: &[DnsRr],
    rrsigs: &[&DnsRr],
    name: &str,
    rrtype: u16,
    rrclass: u16,
    now_ts: u32,
    dnskey_rdata: Option<&[u8]>,
    counter: &mut i32,
) -> (r: RrsetValidation)
    ensures
        (r@, *final(counter)) == validated(
            rr_views(rrset_in@),
            ref_views(rrsigs@),
            name@,
            rrtype,
            rrclass,
            now_ts,
            key_view(dnskey_rdata),
            *old(counter),
        ),
{
    if rrsigs.len() == 0 {
        return RrsetValidation::NoSignatures;
    }
    let mut sorted: Vec<DnsRr> = clone_records(rrset_in);
    sort_rrset(&mut sorted);
    let ghost set = canonical_set(rr_views(rrset_in@));
    let ghost sigs = ref_views(rrsigs@);
    let ghost key = key_view(dnskey_rdata);
    let ghost start = *counter;
    let mut i: usize = 0;
    while i < rrsigs.len()
        invariant
            i <= rrsigs@.len(),
            sigs == ref_views(rrsigs@),
            set == rr_views(sorted@),
            set == canonical_set(rr_views(rrset_in@)),
            key == key_view(dnskey_rdata),
            start == *old(counter),
            sigs.len() > 0,
            try_signatures(set, sigs, 0, name@, rrtype, rrclass, now_ts, key, start) == try_signatures(
                set,
                sigs,
                i as int,
                name@,
                rrtype,
                rrclass,
                now_ts,
                key,
                *counter,
            ),
        ensures
            try_signatures(set, sigs, 0, name@, rrtype, rrclass, now_ts, key, start) == (
                Outcome::Bogus("no valid signatures found"@),
                *counter,
            ),
        decreases rrsigs@.len() - i,
    {
        if dec_counter(counter) {
            break;
        }
        let step: SigStep = signature_step(
            sorted.as_slice(),
            rrsigs[i],
            name,
            rrtype,
            rrclass,
            now_ts,
            dnskey_rdata,
        );
        assert(sigs[i as int] == rrsigs@[i as int]@);
        let verified: bool = verify_step(&step);
        if let Some(v) = judge_step(&step, verified) {
            return v;
        }
        i += 1;
    }
    RrsetValidation::Bogus(String::from_str("no valid signatures found"))
}

} // verus!
