//! Proofs of non-existence from the authority section of a reply.

use super::basics::{b32_bytes, base32_decode, count_labels, dec, dec_counter, labels32};
use super::codes::{DNSSEC_FAIL_BADPACKET, DNSSEC_FAIL_NONSEC, DNSSEC_FAIL_NSEC3_ITERS, DNSSEC_FAIL_WORK};
use super::nsec::{
    check_nsec3_coverage, nsec3_cover, nsec3_hash, nsec3_of, nsec3_views, nsec_of, nsec_proof, nsec_views,
    parse_nsec3_rdata, parse_nsec_rdata, prove_non_existence_nsec, raw_views, sha1_name, Nsec3RawView, Nsec3View,
    NsecView, ParsedNsec, ParsedNsec3, ParsedNsec3Raw, T_NSEC, T_NSEC3,
};
use super::rrset::T_RRSIG;
use crate::crypto::nsec3_digest_name;
use crate::names::{find_char, lemma_find_char_at, norm, norm_name};
use crate::rfc1035::{rr_views, DnsRr, RrView};
use crate::text::{copy_range, from_chars, lower, same_bytes, same_ignoring_case, to_chars};
use crate::wire::{be16, read_be16};
use vstd::prelude::*;

verus! {

/// Whether `n` has the hash parameters of `chosen`, and no flag but opt-out.
pub open spec fn same_params(n: Nsec3RawView, chosen: Nsec3RawView) -> bool {
    n.algo == chosen.algo && n.flags <= 1 && n.iterations == chosen.iterations && n.salt == chosen.salt
}

/// The records with the hash parameters of `chosen`.
pub open spec fn prune(raw: Seq<Nsec3RawView>, chosen: Nsec3RawView) -> Seq<Nsec3View>
    decreases raw.len(),
{
    if raw.len() == 0 {
        seq![]
    } else if same_params(raw.last(), chosen) {
        let n = raw.last();
        prune(raw.drop_last(), chosen).push(
            Nsec3View { owner_hash: n.owner_hash, next_hashed: n.next_hashed, flags: n.flags, bitmap: n.bitmap },
        )
    } else {
        prune(raw.drop_last(), chosen)
    }
}

/// The number of the first record from `i` on whose hash algorithm is known.
pub open spec fn first_known(raw: Seq<Nsec3RawView>, i: int) -> Option<int>
    decreases raw.len() - i,
{
    if !(0 <= i < raw.len()) {
        None
    } else if raw[i].algo == 1 {
        Some(i)
    } else {
        first_known(raw, i + 1)
    }
}

/// Whether some record has this owner hash.
pub open spec fn has_owner(recs: Seq<Nsec3View>, hash: Seq<u8>) -> bool {
    exists|i: int| 0 <= i < recs.len() && (#[trigger] recs[i]).owner_hash == hash
}

/// How the search for the closest encloser ends.
pub enum Search {
    /// The work limit was reached.
    Work,
    /// A candidate has no wire form.
    Unnamed,
    /// The encloser was found, below it the name that was tried just before.
    Found(Option<Seq<char>>),
    /// No encloser was found.
    Missing,
}

/// The search for the closest encloser from `candidate` upwards, label by label, after `stripped`
/// labels, and the work counter afterwards; `below` is the candidate before.
pub open spec fn closest(
    recs: Seq<Nsec3View>,
    salt: Seq<u8>,
    iterations: u32,
    wild: nat,
    candidate: Seq<char>,
    below: Option<Seq<char>>,
    stripped: nat,
    counter: i32,
) -> (Search, i32)
    decreases candidate.len(),
{
    if wild != 0 && stripped == wild {
        (Search::Missing, counter)
    } else if counter == 0 {
        (Search::Work, 0)
    } else {
        match nsec3_hash(candidate, salt, iterations) {
            None => (Search::Unnamed, dec(counter)),
            Some(h) => {
                let k = find_char(candidate, '.');
                if has_owner(recs, h) {
                    (Search::Found(below), dec(counter))
                } else if !(0 <= k < candidate.len()) {
                    (Search::Missing, dec(counter))
                } else {
                    closest(
                        recs,
                        salt,
                        iterations,
                        wild,
                        candidate.skip(k + 1),
                        Some(candidate),
                        stripped + 1,
                        dec(counter),
                    )
                }
            },
        }
    }
}

/// Whether the hash of `name` is covered: `Err` says why that could not be shown.
pub open spec fn covered(
    recs: Seq<Nsec3View>,
    salt: Seq<u8>,
    iterations: u32,
    name: Seq<char>,
    qtype: u16,
    counter: i32,
) -> Result<(), u32> {
    if counter == 0 {
        Err(DNSSEC_FAIL_WORK)
    } else {
        match nsec3_hash(name, salt, iterations) {
            None => Err(DNSSEC_FAIL_NONSEC),
            Some(h) => if nsec3_cover(recs, 0, h, qtype, false, 1).0 {
                Ok(())
            } else {
                Err(DNSSEC_FAIL_NONSEC)
            },
        }
    }
}

/// The last part of an NSEC3 proof: the name below the closest encloser is covered, and, unless a
/// wildcard is being checked, so is the wildcard at the encloser.
pub open spec fn below_encloser(
    recs: Seq<Nsec3View>,
    salt: Seq<u8>,
    iterations: u32,
    wild: nat,
    below: Seq<char>,
    qtype: u16,
    counter: i32,
) -> (Result<(), u32>, i32) {
    let first = covered(recs, salt, iterations, below, qtype, counter);
    let k = find_char(below, '.');
    if first is Err || wild != 0 {
        (first, dec(counter))
    } else if !(0 <= k < below.len() - 1) {
        (Err(DNSSEC_FAIL_NONSEC), dec(counter))
    } else {
        (
            covered(recs, salt, iterations, seq!['*', '.'] + below.skip(k + 1), qtype, dec(counter)),
            dec(dec(counter)),
        )
    }
}

/// What NSEC3 records prove of `name` and `qtype`, whether an NS record may be missing there, and
/// the work counter afterwards.
///
/// The records with the hash parameters of the first one of a known algorithm count. The name is
/// disproved when its own hash is covered, or when its closest encloser has a record and what lies
/// below it is covered.
pub open spec fn nsec3_proof(
    raw: Seq<Nsec3RawView>,
    name: Seq<char>,
    qtype: u16,
    wild: nat,
    counter: i32,
    limit: u32,
) -> (Result<(), u32>, bool, i32) {
    match first_known(raw, 0) {
        None => (Err(DNSSEC_FAIL_NONSEC), true, counter),
        Some(c) => {
            let chosen = raw[c];
            let salt = chosen.salt;
            let recs = prune(raw, chosen);
            if chosen.iterations > limit {
                (Err(DNSSEC_FAIL_NSEC3_ITERS), true, counter)
            } else if counter == 0 {
                (Err(DNSSEC_FAIL_WORK), true, counter)
            } else {
                match nsec3_hash(name, salt, chosen.iterations) {
                    None => (Err(DNSSEC_FAIL_NONSEC), true, dec(counter)),
                    Some(h) => {
                        let (direct, nons) = nsec3_cover(recs, 0, h, qtype, true, labels32(name));
                        if direct {
                            (Ok(()), nons, dec(counter))
                        } else {
                            match closest(recs, salt, chosen.iterations, wild, norm(name), None, 0, dec(counter)) {
                                (Search::Work, c1) => (Err(DNSSEC_FAIL_WORK), nons, c1),
                                (Search::Found(Some(below)), c1) => {
                                    let (r, c2) = below_encloser(
                                        recs,
                                        salt,
                                        chosen.iterations,
                                        wild,
                                        below,
                                        qtype,
                                        c1,
                                    );
                                    (r, nons, c2)
                                },
                                (_, c1) => (Err(DNSSEC_FAIL_NONSEC), nons, c1),
                            }
                        }
                    },
                }
            }
        },
    }
}

/// The number of the first record whose hash algorithm is known.
fn find_known(raw: &[ParsedNsec3Raw]) -> (r: Option<usize>)
    ensures
        match r {
            Some(i) => first_known(raw_views(raw@), 0) == Some(i as int) && i < raw@.len(),
            None => first_known(raw_views(raw@), 0) is None,
        },
{
    let ghost all = raw_views(raw@);
    let mut i: usize = 0;
    while i < raw.len()
        invariant
            i <= raw@.len(),
            all == raw_views(raw@),
            first_known(all, 0) == first_known(all, i as int),
        decreases raw@.len() - i,
    {
        assert(all[i as int] == raw@[i as int]@);
        if nsec3_digest_name(raw[i].algo).is_some() {
            return Some(i);
        }
        i += 1;
    }
    None
}

/// A copy of a byte vector.
fn copy_vec(v: &Vec<u8>) -> (r: Vec<u8>)
    ensures
        r@ == v@,
{
    let r: Vec<u8> = copy_range(v.as_slice(), 0, v.len());
    assert(r@ =~= v@);
    r
}

/// The records with the hash parameters of `chosen`.
fn prune_records(raw: &[ParsedNsec3Raw], chosen: &ParsedNsec3Raw) -> (r: Vec<ParsedNsec3>)
    ensures
        nsec3_views(r@) == prune(raw_views(raw@), chosen@),
{
    let ghost all = raw_views(raw@);
    let mut out: Vec<ParsedNsec3> = Vec::new();
    let mut i: usize = 0;
    assert(nsec3_views(out@) =~= prune(all.take(0), chosen@));
    while i < raw.len()
        invariant
            i <= raw@.len(),
            all == raw_views(raw@),
            nsec3_views(out@) == prune(all.take(i as int), chosen@),
        decreases raw@.len() - i,
    {
        let n: &ParsedNsec3Raw = &raw[i];
        proof {
            assert(all.take(i + 1).drop_last() =~= all.take(i as int));
            assert(all.take(i + 1).last() == n@);
        }
        if n.algo == chosen.algo && (n.flags == 0 || n.flags == 1) && n.iterations == chosen.iterations && same_bytes(
            n.salt.as_slice(),
            chosen.salt.as_slice(),
        ) {
            let p: ParsedNsec3 = ParsedNsec3 {
                owner_hash: copy_vec(&n.owner_hash),
                next_hashed: copy_vec(&n.next_hashed),
                flags: n.flags,
                bitmap: copy_vec(&n.bitmap),
            };
            assert(nsec3_views(out@.push(p)) =~= nsec3_views(out@).push(p@));
            out.push(p);
        }
        i += 1;
    }
    assert(all.take(all.len() as int) =~= all);
    out
}

/// Whether some record has this owner hash.
fn owner_known(recs: &Vec<ParsedNsec3>, hash: &[u8]) -> (r: bool)
    ensures
        r == has_owner(nsec3_views(recs@), hash@),
{
    let ghost all = nsec3_views(recs@);
    let mut i: usize = 0;
    while i < recs.len()
        invariant
            i <= recs@.len(),
            all == nsec3_views(recs@),
            forall|j: int| 0 <= j < i ==> (#[trigger] all[j]).owner_hash != hash@,
        decreases recs@.len() - i,
    {
        assert(all[i as int].owner_hash == recs@[i as int].owner_hash@);
        if same_bytes(recs[i].owner_hash.as_slice(), hash) {
            return true;
        }
        i += 1;
    }
    false
}

/// How the search for the closest encloser ended.
enum Found {
    Work,
    Below(String),
    Nothing,
}

/// Searches the closest encloser of a normalised name.
fn find_closest(
    recs: &Vec<ParsedNsec3>,
    salt: &[u8],
    iterations: u32,
    wild_offset: usize,
    start: &str,
    counter: &mut i32,
) -> (r: Found)
    ensures
        ({
            let (s, c) = closest(
                nsec3_views(recs@),
                salt@,
                iterations,
                wild_offset as nat,
                start@,
                None,
                0,
                *old(counter),
            );
            &&& *final(counter) == c
            &&& r is Work <==> s is Work
            &&& match r {
                Found::Below(b) => s == Search::Found(Some(b@)),
                Found::Work => true,
                Found::Nothing => s is Unnamed || s is Missing || s == Search::Found(None),
            }
        }),
{
    let v: Vec<char> = to_chars(start);
    let ghost rv = nsec3_views(recs@);
    let ghost wild = wild_offset as nat;
    let mut from: usize = 0;
    let mut stripped: usize = 0;
    let mut below: Option<String> = None;
    let ghost mut bv: Option<Seq<char>> = None;
    assert(v@.skip(0) =~= v@);
    loop
        invariant
            v@ == start@,
            rv == nsec3_views(recs@),
            wild == wild_offset,
            stripped <= from <= v@.len(),
            match below {
                Some(b) => bv == Some(b@),
                None => bv is None,
            },
            closest(rv, salt@, iterations, wild, start@, None, 0, *old(counter)) == closest(
                rv,
                salt@,
                iterations,
                wild,
                v@.skip(from as int),
                bv,
                stripped as nat,
                *counter,
            ),
        decreases v@.len() - from,
    {
        if wild_offset != 0 && stripped == wild_offset {
            return Found::Nothing;
        }
        if dec_counter(counter) {
            return Found::Work;
        }
        let candidate: String = from_chars(v.as_slice(), from, v.len());
        assert(candidate@ =~= v@.skip(from as int));
        let hash: Vec<u8> = match sha1_name(candidate.as_str(), salt, iterations) {
            None => {
                return Found::Nothing;
            },
            Some(h) => h,
        };
        if owner_known(recs, hash.as_slice()) {
            return match below {
                Some(b) => Found::Below(b),
                None => Found::Nothing,
            };
        }
        let mut k: usize = from;
        while k < v.len() && v[k] != '.'
            invariant
                from <= k <= v@.len(),
                forall|j: int| from <= j < k ==> v@[j] != '.',
            decreases v@.len() - k,
        {
            k += 1;
        }
        proof {
            lemma_find_char_at(candidate@, '.', k - from);
        }
        if k >= v.len() {
            return Found::Nothing;
        }
        proof {
            bv = Some(candidate@);
            assert(candidate@.skip(k - from + 1) =~= v@.skip(k + 1));
        }
        below = Some(candidate);
        stripped += 1;
        from = k + 1;
    }
}

/// Shows that the hash of `name` is covered.
fn show_covered(
    recs: &Vec<ParsedNsec3>,
    salt: &[u8],
    iterations: u32,
    name: &str,
    qtype: u16,
    counter: &mut i32,
) -> (r: Result<(), u32>)
    ensures
        r == covered(nsec3_views(recs@), salt@, iterations, name@, qtype, *old(counter)),
        *final(counter) == dec(*old(counter)),
{
    if dec_counter(counter) {
        return Err(DNSSEC_FAIL_WORK);
    }
    match sha1_name(name, salt, iterations) {
        None => Err(DNSSEC_FAIL_NONSEC),
        Some(h) => {
            let mut ignored: bool = false;
            if check_nsec3_coverage(h.as_slice(), qtype, recs.as_slice(), &mut ignored, 1) {
                Ok(())
            } else {
                Err(DNSSEC_FAIL_NONSEC)
            }
        },
    }
}

/// Shows that what lies below the closest encloser does not exist.
fn show_below(
    recs: &Vec<ParsedNsec3>,
    salt: &[u8],
    iterations: u32,
    wild_offset: usize,
    below: &str,
    qtype: u16,
    counter: &mut i32,
) -> (r: Result<(), u32>)
    ensures
        (r, *final(counter)) == below_encloser(
            nsec3_views(recs@),
            salt@,
            iterations,
            wild_offset as nat,
            below@,
            qtype,
            *old(counter),
        ),
{
    let first: Result<(), u32> = show_covered(recs, salt, iterations, below, qtype, counter);
    if first.is_err() || wild_offset != 0 {
        return first;
    }
    let v: Vec<char> = to_chars(below);
    let mut k: usize = 0;
    while k < v.len() && v[k] != '.'
        invariant
            k <= v@.len(),
            forall|j: int| 0 <= j < k ==> v@[j] != '.',
        decreases v@.len() - k,
    {
        k += 1;
    }
    proof {
        lemma_find_char_at(below@, '.', k as int);
    }
    if k >= v.len() || v.len() - k == 1 {
        return Err(DNSSEC_FAIL_NONSEC);
    }
    let rest: String = from_chars(v.as_slice(), k + 1, v.len());
    let mut wildcard = String::new();
    wildcard.push('*');
    wildcard.push('.');
    wildcard.append(rest.as_str());
    assert(wildcard@ =~= seq!['*', '.'] + below@.skip(k + 1));
    show_covered(recs, salt, iterations, wildcard.as_str(), qtype, counter)
}

/// Proves from NSEC3 records (RFC 5155) that `name` does not exist or has no records of `qtype`.
///
/// `wild_offset`, when it is not 0, ends the search for the closest encloser after that many labels
/// and leaves out the check of the wildcard. Each hash that is computed costs one unit of `counter`.
pub fn prove_non_existence_nsec3(
    raw: &[ParsedNsec3Raw],
    name: &str,
    qtype: u16,
    wild_offset: usize,
    nons: &mut bool,
    counter: &mut i32,
    iters_limit: u32,
) -> (r: Result<(), u32>)
    ensures
        (r, *final(nons), *final(counter)) == nsec3_proof(
            raw_views(raw@),
            name@,
            qtype,
            wild_offset as nat,
            *old(counter),
            iters_limit,
        ),
{
    *nons = true;
    let c: usize = match find_known(raw) {
        None => {
            return Err(DNSSEC_FAIL_NONSEC);
        },
        Some(c) => c,
    };
    let chosen: &ParsedNsec3Raw = &raw[c];
    assert(raw_views(raw@)[c as int] == chosen@);
    if chosen.iterations > iters_limit {
        return Err(DNSSEC_FAIL_NSEC3_ITERS);
    }
    let recs: Vec<ParsedNsec3> = prune_records(raw, chosen);
    if dec_counter(counter) {
        return Err(DNSSEC_FAIL_WORK);
    }
    let digest: Vec<u8> = match sha1_name(name, chosen.salt.as_slice(), chosen.iterations) {
        None => {
            return Err(DNSSEC_FAIL_NONSEC);
        },
        Some(d) => d,
    };
    if check_nsec3_coverage(digest.as_slice(), qtype, recs.as_slice(), nons, count_labels(name)) {
        return Ok(());
    }
    let start: String = norm_name(name);
    match find_closest(&recs, chosen.salt.as_slice(), chosen.iterations, wild_offset, start.as_str(), counter) {
        Found::Work => Err(DNSSEC_FAIL_WORK),
        Found::Nothing => Err(DNSSEC_FAIL_NONSEC),
        Found::Below(below) => show_below(
            &recs,
            chosen.salt.as_slice(),
            chosen.iterations,
            wild_offset,
            below.as_str(),
            qtype,
            counter,
        ),
    }
}

/// The records of one type and class.
pub open spec fn of_type(t: u16, class: u16) -> spec_fn(RrView) -> bool {
    |r: RrView| r.rtype == t && r.class == class
}

/// The label count that the signatures over the NSEC record of `owner` agree on, from number `i` of
/// the authority section on, `have` being the one found so far.
pub open spec fn agreed_labels(
    auth: Seq<RrView>,
    i: int,
    owner: Seq<char>,
    class: u16,
    have: Option<u8>,
) -> Result<u8, u32>
    decreases auth.len() - i,
{
    if !(0 <= i < auth.len()) {
        match have {
            Some(l) => Ok(l),
            None => Err(DNSSEC_FAIL_NONSEC),
        }
    } else {
        let sig = auth[i];
        if !(sig.rtype == T_RRSIG && sig.class == class && lower(sig.name) == lower(owner)) {
            agreed_labels(auth, i + 1, owner, class, have)
        } else if sig.rdata.len() < 18 {
            Err(DNSSEC_FAIL_BADPACKET)
        } else if be16(sig.rdata, 0) != T_NSEC {
            agreed_labels(auth, i + 1, owner, class, have)
        } else if have is Some && have->0 != sig.rdata[3] {
            Err(DNSSEC_FAIL_NONSEC)
        } else {
            agreed_labels(auth, i + 1, owner, class, Some(sig.rdata[3]))
        }
    }
}

/// One NSEC record of the authority section with its label count.
pub open spec fn read_nsec(auth: Seq<RrView>, rr: RrView, class: u16) -> Result<NsecView, u32> {
    match nsec_of(rr.rdata) {
        None => Err(DNSSEC_FAIL_BADPACKET),
        Some((next, bitmap)) => match agreed_labels(auth, 0, rr.name, class, None) {
            Err(e) => Err(e),
            Ok(sig_labels) => Ok(NsecView { owner: rr.name, next, bitmap, sig_labels }),
        },
    }
}

/// The NSEC records among the first `n` of the authority section; the first failure decides.
pub open spec fn read_nsecs(auth: Seq<RrView>, n: int, class: u16) -> Result<Seq<NsecView>, u32>
    decreases n,
{
    if n <= 0 {
        Ok(seq![])
    } else {
        match read_nsecs(auth, n - 1, class) {
            Err(e) => Err(e),
            Ok(list) => if !of_type(T_NSEC, class)(auth[n - 1]) {
                Ok(list)
            } else {
                match read_nsec(auth, auth[n - 1], class) {
                    Err(e) => Err(e),
                    Ok(v) => Ok(list.push(v)),
                }
            },
        }
    }
}

/// One NSEC3 record of the authority section.
pub open spec fn read_nsec3(rr: RrView) -> Result<Nsec3RawView, u32> {
    match b32_bytes(rr.name) {
        None => Err(DNSSEC_FAIL_BADPACKET),
        Some(hash) => match nsec3_of(rr.rdata, hash) {
            None => Err(DNSSEC_FAIL_BADPACKET),
            Some(v) => Ok(v),
        },
    }
}

/// The NSEC3 records among the first `n` of the authority section; the first failure decides.
pub open spec fn read_nsec3s(auth: Seq<RrView>, n: int, class: u16) -> Result<Seq<Nsec3RawView>, u32>
    decreases n,
{
    if n <= 0 {
        Ok(seq![])
    } else {
        match read_nsec3s(auth, n - 1, class) {
            Err(e) => Err(e),
            Ok(list) => if !of_type(T_NSEC3, class)(auth[n - 1]) {
                Ok(list)
            } else {
                match read_nsec3(auth[n - 1]) {
                    Err(e) => Err(e),
                    Ok(v) => Ok(list.push(v)),
                }
            },
        }
    }
}

/// Whether some record is of type `t` and class `class`.
pub open spec fn any_of_type(auth: Seq<RrView>, t: u16, class: u16) -> bool {
    exists|i: int| 0 <= i < auth.len() && of_type(t, class)(#[trigger] auth[i])
}

/// What the authority section proves of `name` and `qtype`, whether an NS record may be missing
/// there, and the work counter afterwards. NSEC and NSEC3 records together prove nothing.
pub open spec fn denial(
    auth: Seq<RrView>,
    name: Seq<char>,
    qtype: u16,
    class: u16,
    wild: nat,
    nons: bool,
    counter: i32,
    limit: u32,
) -> (Result<(), u32>, bool, i32) {
    let n = any_of_type(auth, T_NSEC, class);
    let n3 = any_of_type(auth, T_NSEC3, class);
    if n == n3 {
        (Err(DNSSEC_FAIL_NONSEC), nons, counter)
    } else if n {
        match read_nsecs(auth, auth.len() as int, class) {
            Err(e) => (Err(e), nons, counter),
            Ok(list) => {
                let (r, found) = nsec_proof(list, 0, name, qtype);
                (r, found, counter)
            },
        }
    } else {
        match read_nsec3s(auth, auth.len() as int, class) {
            Err(e) => (Err(e), nons, counter),
            Ok(list) => nsec3_proof(list, name, qtype, wild, counter, limit),
        }
    }
}

/// Whether some record is of type `t` and class `class`.
fn some_of_type(auth: &[DnsRr], t: u16, class: u16) -> (r: bool)
    ensures
        r == any_of_type(rr_views(auth@), t, class),
{
    let ghost all = rr_views(auth@);
    let mut i: usize = 0;
    while i < auth.len()
        invariant
            i <= auth@.len(),
            all == rr_views(auth@),
            forall|j: int| 0 <= j < i ==> !of_type(t, class)(#[trigger] all[j]),
        decreases auth@.len() - i,
    {
        assert(all[i as int] == auth@[i as int]@);
        if auth[i].rtype == t && auth[i].class == class {
            assert(of_type(t, class)(all[i as int]));
            return true;
        }
        i += 1;
    }
    false
}

/// The label count that the signatures over the NSEC record of `owner` agree on.
fn find_labels(auth: &[DnsRr], owner: &str, class: u16) -> (r: Result<u8, u32>)
    ensures
        r == agreed_labels(rr_views(auth@), 0, owner@, class, None),
{
    let ghost all = rr_views(auth@);
    let mut have: Option<u8> = None;
    let mut i: usize = 0;
    while i < auth.len()
        invariant
            i <= auth@.len(),
            all == rr_views(auth@),
            agreed_labels(all, 0, owner@, class, None) == agreed_labels(all, i as int, owner@, class, have),
        decreases auth@.len() - i,
    {
        let sig: &DnsRr = &auth[i];
        assert(all[i as int] == sig@);
        if sig.rtype == T_RRSIG && sig.class == class && same_ignoring_case(sig.name.as_str(), owner) {
            if sig.rdata.len() < 18 {
                return Err(DNSSEC_FAIL_BADPACKET);
            }
            if read_be16(sig.rdata.as_slice(), 0) == T_NSEC {
                let labels: u8 = sig.rdata[3];
                if let Some(l) = have {
                    if l != labels {
                        return Err(DNSSEC_FAIL_NONSEC);
                    }
                }
                have = Some(labels);
            }
        }
        i += 1;
    }
    match have {
        Some(l) => Ok(l),
        None => Err(DNSSEC_FAIL_NONSEC),
    }
}

/// The NSEC records of the authority section, each with its label count.
fn collect_nsecs(auth: &[DnsRr], class: u16) -> (r: Result<Vec<ParsedNsec>, u32>)
    ensures
        match r {
            Ok(v) => read_nsecs(rr_views(auth@), auth@.len() as int, class) == Ok::<Seq<NsecView>, u32>(nsec_views(v@)),
            Err(e) => read_nsecs(rr_views(auth@), auth@.len() as int, class) == Err::<Seq<NsecView>, u32>(e),
        },
{
    let ghost all = rr_views(auth@);
    let mut parsed: Vec<ParsedNsec> = Vec::new();
    let mut i: usize = 0;
    assert(nsec_views(parsed@) =~= Seq::<NsecView>::empty());
    while i < auth.len()
        invariant
            i <= auth@.len(),
            all == rr_views(auth@),
            read_nsecs(all, i as int, class) == Ok::<Seq<NsecView>, u32>(nsec_views(parsed@)),
        decreases auth@.len() - i,
    {
        let rr: &DnsRr = &auth[i];
        assert(all[i as int] == rr@);
        if rr.rtype == T_NSEC && rr.class == class {
            assert(of_type(T_NSEC, class)(all[i as int]));
            match parse_nsec_rdata(rr.rdata.as_slice()) {
                None => {
                    proof {
                        lemma_read_nsecs_stuck(all, i + 1, all.len() as int, class);
                    }
                    return Err(DNSSEC_FAIL_BADPACKET);
                },
                Some((next, bitmap)) => match find_labels(auth, rr.name.as_str(), class) {
                    Err(e) => {
                        proof {
                            lemma_read_nsecs_stuck(all, i + 1, all.len() as int, class);
                        }
                        return Err(e);
                    },
                    Ok(sig_labels) => {
                        let p: ParsedNsec = ParsedNsec { owner: rr.name.clone(), next, bitmap, sig_labels };
                        assert(nsec_views(parsed@.push(p)) =~= nsec_views(parsed@).push(p@));
                        parsed.push(p);
                    },
                },
            }
        }
        i += 1;
    }
    Ok(parsed)
}

/// A failure among the first records is the failure of all.
proof fn lemma_read_nsecs_stuck(auth: Seq<RrView>, i: int, n: int, class: u16)
    requires
        0 <= i <= n,
        read_nsecs(auth, i, class) is Err,
    ensures
        read_nsecs(auth, n, class) == read_nsecs(auth, i, class),
    decreases n,
{
    if i < n {
        lemma_read_nsecs_stuck(auth, i, n - 1, class);
    }
}

/// A failure among the first records is the failure of all.
proof fn lemma_read_nsec3s_stuck(auth: Seq<RrView>, i: int, n: int, class: u16)
    requires
        0 <= i <= n,
        read_nsec3s(auth, i, class) is Err,
    ensures
        read_nsec3s(auth, n, class) == read_nsec3s(auth, i, class),
    decreases n,
{
    if i < n {
        lemma_read_nsec3s_stuck(auth, i, n - 1, class);
    }
}

/// The NSEC3 records of the authority section.
fn collect_nsec3s(auth: &[DnsRr], class: u16) -> (r: Result<Vec<ParsedNsec3Raw>, u32>)
    ensures
        match r {
            Ok(v) => read_nsec3s(rr_views(auth@), auth@.len() as int, class) == Ok::<Seq<Nsec3RawView>, u32>(
                raw_views(v@),
            ),
            Err(e) => read_nsec3s(rr_views(auth@), auth@.len() as int, class) == Err::<Seq<Nsec3RawView>, u32>(e),
        },
{
    let ghost all = rr_views(auth@);
    let mut raw: Vec<ParsedNsec3Raw> = Vec::new();
    let mut i: usize = 0;
    assert(raw_views(raw@) =~= Seq::<Nsec3RawView>::empty());
    while i < auth.len()
        invariant
            i <= auth@.len(),
            all == rr_views(auth@),
            read_nsec3s(all, i as int, class) == Ok::<Seq<Nsec3RawView>, u32>(raw_views(raw@)),
        decreases auth@.len() - i,
    {
        let rr: &DnsRr = &auth[i];
        assert(all[i as int] == rr@);
        if rr.rtype == T_NSEC3 && rr.class == class {
            assert(of_type(T_NSEC3, class)(all[i as int]));
            match base32_decode(rr.name.as_str()) {
                None => {
                    proof {
                        lemma_read_nsec3s_stuck(all, i + 1, all.len() as int, class);
                    }
                    return Err(DNSSEC_FAIL_BADPACKET);
                },
                Some(owner_hash) => match parse_nsec3_rdata(rr.rdata.as_slice(), owner_hash) {
                    None => {
                        proof {
                            lemma_read_nsec3s_stuck(all, i + 1, all.len() as int, class);
                        }
                        return Err(DNSSEC_FAIL_BADPACKET);
                    },
                    Some(n) => {
                        assert(raw_views(raw@.push(n)) =~= raw_views(raw@).push(n@));
                        raw.push(n);
                    },
                },
            }
        }
        i += 1;
    }
    Ok(raw)
}

/// Proves from the NSEC or NSEC3 records of the authority section that `name` does not exist or has
/// no records of `qtype`.
pub fn prove_non_existence(
    authority: &[DnsRr],
    name: &str,
    qtype: u16,
    qclass: u16,
    wild_offset: usize,
    nons: &mut bool,
    counter: &mut i32,
    iters_limit: u32,
) -> (r: Result<(), u32>)
    ensures
        (r, *final(nons), *final(counter)) == denial(
            rr_views(authority@),
            name@,
            qtype,
            qclass,
            wild_offset as nat,
            *old(nons),
            *old(counter),
            iters_limit,
        ),
{
    let has_nsec: bool = some_of_type(authority, T_NSEC, qclass);
    let has_nsec3: bool = some_of_type(authority, T_NSEC3, qclass);
    if has_nsec == has_nsec3 {
        return Err(DNSSEC_FAIL_NONSEC);
    }
    if has_nsec {
        match collect_nsecs(authority, qclass) {
            Err(e) => Err(e),
            Ok(parsed) => {
                let (result, found_nons) = prove_non_existence_nsec(parsed.as_slice(), name, qtype);
                *nons = found_nons;
                result
            },
        }
    } else {
        match collect_nsec3s(authority, qclass) {
            Err(e) => Err(e),
            Ok(raw) => prove_non_existence_nsec3(raw.as_slice(), name, qtype, wild_offset, nons, counter, iters_limit),
        }
    }
}

} // verus!
