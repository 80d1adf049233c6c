//! Proofs that a name or a type does not exist, from NSEC and NSEC3 records.

use super::basics::{count_labels, hash_name, hash_steps, labels32};
use super::codes::{bitmap_has, type_in_bitmap, DNSSEC_FAIL_NONSEC};
use super::order::{
    lemma_lex_total, lemma_list_total, lex_less, list_less, name_key, order_bytes, order_names, Rank,
};
use super::rrset::{owner_signed, signed_owner, T_RRSIG};
use crate::crypto::{sha1_digest, sha1_of};
use crate::rfc1035::{hostname_issubdomain, strictly_below};
use crate::text::copy_range;
use crate::wire::{be16, dotted_name, parse_wire_name, read_be16, wire_of};
use vstd::prelude::*;

verus! {

pub const T_NS: u16 = 2;

pub const T_CNAME: u16 = 5;

pub const T_SOA: u16 = 6;

pub const T_DNAME: u16 = 39;

pub const T_DS: u16 = 43;

pub const T_NSEC: u16 = 47;

pub const T_NSEC3: u16 = 50;

/// The most NSEC3 iterations that are computed by default.
pub const DEFAULT_NSEC3_ITERS_LIMIT: u32 = 150;

/// An NSEC record with the label count of the signature over it.
#[derive(Debug, Clone)]
pub struct ParsedNsec {
    pub owner: String,
    pub next: String,
    pub bitmap: Vec<u8>,
    pub sig_labels: u8,
}

/// The model of a `ParsedNsec`.
pub struct NsecView {
    pub owner: Seq<char>,
    pub next: Seq<char>,
    pub bitmap: Seq<u8>,
    pub sig_labels: u8,
}

impl View for ParsedNsec {
    type V = NsecView;

    open spec fn view(&self) -> NsecView {
        NsecView { owner: self.owner@, next: self.next@, bitmap: self.bitmap@, sig_labels: self.sig_labels }
    }
}

/// The models of NSEC records.
pub open spec fn nsec_views(v: Seq<ParsedNsec>) -> Seq<NsecView> {
    v.map_values(|n: ParsedNsec| n@)
}

/// The next name and the type bitmap of NSEC data.
pub open spec fn nsec_of(rdata: Seq<u8>) -> Option<(Seq<char>, Seq<u8>)> {
    match dotted_name(rdata) {
        Ok((next, n)) => Some((next, rdata.skip(n))),
        Err(_) => None,
    }
}

/// Parses NSEC data (RFC 4034, section 4.1): the next name and the type bitmap.
pub fn parse_nsec_rdata(rdata: &[u8]) -> (r: Option<(String, Vec<u8>)>)
    ensures
        match r {
            Some((next, bitmap)) => nsec_of(rdata@) == Some((next@, bitmap@)),
            None => nsec_of(rdata@) is None,
        },
{
    match parse_wire_name(rdata) {
        Err(_) => None,
        Ok((next, n)) => {
            let bitmap: Vec<u8> = copy_range(rdata, n, rdata.len());
            assert(bitmap@ =~= rdata@.skip(n as int));
            Some((next, bitmap))
        },
    }
}

/// Whether a bitmap at the very name that was asked for disproves the type: the type is not there,
/// nor a CNAME, nor, for a DS query below the root, a SOA.
pub open spec fn bitmap_denies(bitmap: Seq<u8>, qtype: u16, labels: u32) -> bool {
    !bitmap_has(bitmap, T_CNAME) && !(labels != 0 && qtype == T_DS && bitmap_has(bitmap, T_SOA)) && !bitmap_has(
        bitmap,
        qtype,
    )
}

/// Whether `name` lies between `owner` and `next`, or behind the owner of the last record, whose
/// next name is not behind it. The end of the gap counts as inside.
pub open spec fn name_in_gap(owner: Seq<char>, next: Seq<char>, name: Seq<char>) -> bool {
    let wraps = !list_less(name_key(owner), name_key(next));
    let to_end = !list_less(name_key(next), name_key(name));
    if list_less(name_key(owner), name_key(name)) {
        to_end || wraps
    } else {
        to_end && wraps
    }
}

/// What the NSEC records from number `i` on prove of `name` and `qtype`, and whether an NS record
/// may be missing there.
///
/// A record that comes from a wildcard counts under the wildcard's name. A DNAME above the name
/// makes the proof fail; the first record that is at the name or covers it decides.
pub open spec fn nsec_proof(nsecs: Seq<NsecView>, i: int, name: Seq<char>, qtype: u16) -> (Result<(), u32>, bool)
    decreases nsecs.len() - i,
{
    if !(0 <= i < nsecs.len()) {
        (Err(DNSSEC_FAIL_NONSEC), true)
    } else {
        let n = nsecs[i];
        let owner = signed_owner(n.owner, n.sig_labels);
        if bitmap_has(n.bitmap, T_DNAME) && strictly_below(name, owner) {
            (Err(DNSSEC_FAIL_NONSEC), true)
        } else if name_key(owner) == name_key(name) {
            if qtype == T_NSEC || qtype == T_RRSIG {
                (Ok(()), true)
            } else if bitmap_denies(n.bitmap, qtype, labels32(n.owner)) {
                (Ok(()), !bitmap_has(n.bitmap, T_NS))
            } else {
                (Err(DNSSEC_FAIL_NONSEC), !bitmap_has(n.bitmap, T_NS))
            }
        } else if name_in_gap(owner, n.next, name) {
            (Ok(()), true)
        } else {
            nsec_proof(nsecs, i + 1, name, qtype)
        }
    }
}

/// Proves from NSEC records that `name` does not exist or has no records of `qtype`.
///
/// The second result is `false` when a record at the name itself has an NS record.
pub fn prove_non_existence_nsec(nsecs: &[ParsedNsec], name: &str, qtype: u16) -> (r: (Result<(), u32>, bool))
    ensures
        r == nsec_proof(nsec_views(nsecs@), 0, name@, qtype),
{
    let ghost all = nsec_views(nsecs@);
    let mut i: usize = 0;
    while i < nsecs.len()
        invariant
            i <= nsecs@.len(),
            all == nsec_views(nsecs@),
            nsec_proof(all, 0, name@, qtype) == nsec_proof(all, i as int, name@, qtype),
        decreases nsecs@.len() - i,
    {
        let nsec: &ParsedNsec = &nsecs[i];
        assert(all[i as int] == nsec@);
        let owner: String = owner_signed(nsec.owner.as_str(), nsec.sig_labels);
        if type_in_bitmap(nsec.bitmap.as_slice(), T_DNAME) && hostname_issubdomain(name, owner.as_str()) {
            return (Err(DNSSEC_FAIL_NONSEC), true);
        }
        let wraps: bool = match order_names(owner.as_str(), nsec.next.as_str()) {
            Rank::Before => false,
            _ => true,
        };
        let to_end: bool = match order_names(nsec.next.as_str(), name) {
            Rank::Before => false,
            _ => true,
        };
        proof {
            lemma_list_total(name_key(owner@), name_key(name@));
        }
        match order_names(owner.as_str(), name) {
            Rank::Same => {
                if qtype == T_NSEC || qtype == T_RRSIG {
                    return (Ok(()), true);
                }
                let nons: bool = !type_in_bitmap(nsec.bitmap.as_slice(), T_NS);
                if type_in_bitmap(nsec.bitmap.as_slice(), T_CNAME) {
                    return (Err(DNSSEC_FAIL_NONSEC), nons);
                }
                if count_labels(nsec.owner.as_str()) != 0 && qtype == T_DS && type_in_bitmap(
                    nsec.bitmap.as_slice(),
                    T_SOA,
                ) {
                    return (Err(DNSSEC_FAIL_NONSEC), nons);
                }
                if type_in_bitmap(nsec.bitmap.as_slice(), qtype) {
                    return (Err(DNSSEC_FAIL_NONSEC), nons);
                }
                return (Ok(()), nons);
            },
            Rank::Before => {
                if to_end || wraps {
                    return (Ok(()), true);
                }
            },
            Rank::After => {
                if wraps && to_end {
                    return (Ok(()), true);
                }
            },
        }
        i += 1;
    }
    (Err(DNSSEC_FAIL_NONSEC), true)
}

/// An NSEC3 record of the set that is being checked.
#[derive(Debug, Clone)]
pub struct ParsedNsec3 {
    pub owner_hash: Vec<u8>,
    pub next_hashed: Vec<u8>,
    pub flags: u8,
    pub bitmap: Vec<u8>,
}

/// The model of a `ParsedNsec3`.
pub struct Nsec3View {
    pub owner_hash: Seq<u8>,
    pub next_hashed: Seq<u8>,
    pub flags: u8,
    pub bitmap: Seq<u8>,
}

impl View for ParsedNsec3 {
    type V = Nsec3View;

    open spec fn view(&self) -> Nsec3View {
        Nsec3View {
            owner_hash: self.owner_hash@,
            next_hashed: self.next_hashed@,
            flags: self.flags,
            bitmap: self.bitmap@,
        }
    }
}

/// The models of NSEC3 records.
pub open spec fn nsec3_views(v: Seq<ParsedNsec3>) -> Seq<Nsec3View> {
    v.map_values(|n: ParsedNsec3| n@)
}

/// An NSEC3 record with its hash parameters.
#[derive(Debug, Clone)]
pub struct ParsedNsec3Raw {
    pub algo: u8,
    pub flags: u8,
    pub iterations: u32,
    pub salt: Vec<u8>,
    pub owner_hash: Vec<u8>,
    pub next_hashed: Vec<u8>,
    pub bitmap: Vec<u8>,
}

/// The model of a `ParsedNsec3Raw`.
pub struct Nsec3RawView {
    pub algo: u8,
    pub flags: u8,
    pub iterations: u32,
    pub salt: Seq<u8>,
    pub owner_hash: Seq<u8>,
    pub next_hashed: Seq<u8>,
    pub bitmap: Seq<u8>,
}

impl View for ParsedNsec3Raw {
    type V = Nsec3RawView;

    open spec fn view(&self) -> Nsec3RawView {
        Nsec3RawView {
            algo: self.algo,
            flags: self.flags,
            iterations: self.iterations,
            salt: self.salt@,
            owner_hash: self.owner_hash@,
            next_hashed: self.next_hashed@,
            bitmap: self.bitmap@,
        }
    }
}

/// The models of NSEC3 records with their hash parameters.
pub open spec fn raw_views(v: Seq<ParsedNsec3Raw>) -> Seq<Nsec3RawView> {
    v.map_values(|n: ParsedNsec3Raw| n@)
}

/// The NSEC3 record that `rdata` holds, under the hash of its owner.
pub open spec fn nsec3_of(rdata: Seq<u8>, owner_hash: Seq<u8>) -> Option<Nsec3RawView> {
    if rdata.len() < 5 || rdata.len() < 6 + rdata[4] {
        None
    } else {
        let salt_end = 5 + rdata[4];
        let hash_len = rdata[salt_end] as int;
        if rdata.len() < salt_end + 1 + hash_len {
            None
        } else {
            Some(
                Nsec3RawView {
                    algo: rdata[0],
                    flags: rdata[1],
                    iterations: be16(rdata, 2) as u32,
                    salt: rdata.subrange(5, salt_end),
                    owner_hash,
                    next_hashed: rdata.subrange(salt_end + 1, salt_end + 1 + hash_len),
                    bitmap: rdata.skip(salt_end + 1 + hash_len),
                },
            )
        }
    }
}

/// Parses NSEC3 data (RFC 5155, section 3.2): algorithm, flags, iterations, salt, next hash and type
/// bitmap; the hash of the owner comes from its name.
pub fn parse_nsec3_rdata(rdata: &[u8], owner_hash: Vec<u8>) -> (r: Option<ParsedNsec3Raw>)
    ensures
        match r {
            Some(n) => nsec3_of(rdata@, owner_hash@) == Some(n@),
            None => nsec3_of(rdata@, owner_hash@) is None,
        },
{
    if rdata.len() < 5 {
        return None;
    }
    let salt_len: usize = rdata[4] as usize;
    if rdata.len() - 5 < salt_len + 1 {
        return None;
    }
    let salt: Vec<u8> = copy_range(rdata, 5, 5 + salt_len);
    let hash_len: usize = rdata[5 + salt_len] as usize;
    if rdata.len() - 6 - salt_len < hash_len {
        return None;
    }
    let start: usize = 6 + salt_len;
    let next_hashed: Vec<u8> = copy_range(rdata, start, start + hash_len);
    let bitmap: Vec<u8> = copy_range(rdata, start + hash_len, rdata.len());
    assert(bitmap@ =~= rdata@.skip(start + hash_len));
    Some(
        ParsedNsec3Raw {
            algo: rdata[0],
            flags: rdata[1],
            iterations: read_be16(rdata, 2) as u32,
            salt,
            owner_hash,
            next_hashed,
            bitmap,
        },
    )
}

/// Whether `digest` lies between the hashes of a record, or behind the last one; the end of the gap
/// counts as inside.
pub open spec fn hash_in_gap(n: Nsec3View, digest: Seq<u8>) -> bool {
    let wraps = !lex_less(n.owner_hash, n.next_hashed);
    let to_end = !lex_less(n.next_hashed, digest);
    if lex_less(n.owner_hash, digest) {
        to_end || wraps
    } else {
        to_end && wraps
    }
}

/// Whether the records from number `i` on cover `digest`, and whether an NS record may be missing.
///
/// Records with hashes of another length are passed over. The first record at the digest or around
/// it decides; one at the digest covers it when its bitmap denies the type, and one around it with
/// the opt-out flag leaves room for a delegation.
pub open spec fn nsec3_cover(
    nsec3s: Seq<Nsec3View>,
    i: int,
    digest: Seq<u8>,
    qtype: u16,
    nons: bool,
    labels: u32,
) -> (bool, bool)
    decreases nsec3s.len() - i,
{
    if !(0 <= i < nsec3s.len()) {
        (false, nons)
    } else {
        let n = nsec3s[i];
        if n.owner_hash.len() != digest.len() || n.next_hashed.len() != digest.len() {
            nsec3_cover(nsec3s, i + 1, digest, qtype, nons, labels)
        } else if n.owner_hash == digest {
            (bitmap_denies(n.bitmap, qtype, labels), nons && !bitmap_has(n.bitmap, T_NS))
        } else if hash_in_gap(n, digest) {
            (true, nons && n.flags % 2 == 0)
        } else {
            nsec3_cover(nsec3s, i + 1, digest, qtype, nons, labels)
        }
    }
}

/// Checks whether `digest`, the hash of a name, is covered by one of the records.
pub fn check_nsec3_coverage(
    digest: &[u8],
    qtype: u16,
    nsec3s: &[ParsedNsec3],
    nons: &mut bool,
    name_labels: u32,
) -> (r: bool)
    ensures
        (r, *final(nons)) == nsec3_cover(nsec3_views(nsec3s@), 0, digest@, qtype, *old(nons), name_labels),
{
    let ghost all = nsec3_views(nsec3s@);
    let mut i: usize = 0;
    while i < nsec3s.len()
        invariant
            i <= nsec3s@.len(),
            all == nsec3_views(nsec3s@),
            *nons == *old(nons),
            nsec3_cover(all, 0, digest@, qtype, *old(nons), name_labels) == nsec3_cover(
                all,
                i as int,
                digest@,
                qtype,
                *old(nons),
                name_labels,
            ),
        decreases nsec3s@.len() - i,
    {
        let n: &ParsedNsec3 = &nsec3s[i];
        assert(all[i as int] == n@);
        if n.owner_hash.len() == digest.len() && n.next_hashed.len() == digest.len() {
            let wraps: bool = match order_bytes(n.owner_hash.as_slice(), n.next_hashed.as_slice()) {
                Rank::Before => false,
                _ => true,
            };
            let to_end: bool = match order_bytes(n.next_hashed.as_slice(), digest) {
                Rank::Before => false,
                _ => true,
            };
            proof {
                lemma_lex_total(n.owner_hash@, digest@);
            }
            match order_bytes(n.owner_hash.as_slice(), digest) {
                Rank::Same => {
                    if type_in_bitmap(n.bitmap.as_slice(), T_NS) {
                        *nons = false;
                    }
                    if type_in_bitmap(n.bitmap.as_slice(), T_CNAME) {
                        return false;
                    }
                    if name_labels != 0 && qtype == T_DS && type_in_bitmap(n.bitmap.as_slice(), T_SOA) {
                        return false;
                    }
                    return !type_in_bitmap(n.bitmap.as_slice(), qtype);
                },
                Rank::Before => {
                    if to_end || wraps {
                        if n.flags % 2 != 0 {
                            *nons = false;
                        }
                        return true;
                    }
                },
                Rank::After => {
                    if wraps && to_end {
                        if n.flags % 2 != 0 {
                            *nons = false;
                        }
                        return true;
                    }
                },
            }
        }
        i += 1;
    }
    false
}

/// `n` more rounds of hashing with the salt behind.
pub open spec fn sha1_rounds(input: Seq<u8>, salt: Seq<u8>, n: nat) -> Seq<u8>
    decreases n,
{
    if n == 0 {
        sha1_of(input)
    } else {
        sha1_rounds(sha1_of(input) + salt, salt, (n - 1) as nat)
    }
}

/// The NSEC3 hash of a name: `None` when the name has no wire form.
pub open spec fn nsec3_hash(name: Seq<char>, salt: Seq<u8>, iterations: u32) -> Option<Seq<u8>> {
    match wire_of(name) {
        Some(w) => Some(sha1_rounds(w + salt, salt, iterations as nat)),
        None => None,
    }
}

/// Rounds of a function that computes SHA-1.
proof fn lemma_sha1_steps<F: Fn(&[u8]) -> Vec<u8>>(f: F, input: Seq<u8>, salt: Seq<u8>, n: nat, out: Seq<u8>)
    requires
        hash_steps(f, input, salt, n, out),
        forall|x: &[u8], y: Vec<u8>| #[trigger] call_ensures(f, (x,), y) ==> y@ == sha1_of(x@),
    ensures
        out == sha1_rounds(input, salt, n),
    decreases n,
{
    let (x, y) = choose|x: &[u8], y: Vec<u8>|
        {
            &&& x@ == input
            &&& #[trigger] call_ensures(f, (x,), y)
            &&& if n == 0 {
                out == y@
            } else {
                hash_steps(f, y@ + salt, salt, (n - 1) as nat, out)
            }
        };
    assert(y@ == sha1_of(input));
    if n > 0 {
        lemma_sha1_steps(f, y@ + salt, salt, (n - 1) as nat, out);
    }
}

/// Hashes a name with SHA-1 for NSEC3.
pub fn sha1_name(name: &str, salt: &[u8], iterations: u32) -> (r: Option<Vec<u8>>)
    ensures
        match r {
            Some(d) => nsec3_hash(name@, salt@, iterations) == Some(d@),
            None => nsec3_hash(name@, salt@, iterations) is None,
        },
{
    let r: Option<Vec<u8>> = hash_name(name, salt, iterations, sha1_digest);
    proof {
        if r is Some {
            lemma_sha1_steps(sha1_digest, wire_of(name@)->0 + salt@, salt@, iterations as nat, r->0@);
        }
    }
    r
}

} // verus!
