//! When records show that something does not exist.

use super::basics::{dec, labels32};
use super::codes::bitmap_has;
use super::denial::{
    agreed_labels, any_of_type, closest, covered, denial, first_known, nsec3_proof, of_type, prune, read_nsec, read_nsec3, read_nsec3s,
    read_nsecs, same_params, Search,
};
use super::denial_laws::{hash_is_covered, hash_is_known, nsec_denies, parent, redirects};
use super::nsec::{
    bitmap_denies, hash_in_gap, name_in_gap, nsec3_cover, nsec3_hash, nsec_proof, sha1_rounds, Nsec3RawView, Nsec3View, NsecView,
};
use super::order::{lemma_lex_total, lemma_list_total, lex_less, list_less, name_key};
use super::rrset::signed_owner;
use super::signing_laws::allowance;
use crate::crypto::sha1_of;
use crate::names::{find_char, lemma_find_char, norm};
use crate::rfc1035::RrView;
use crate::text::lower;
use crate::wire::{be16, wire_of};
use vstd::prelude::*;

verus! {

/// A name that comes behind the owner of a record and before its next name is in the gap of the record. Where the record is
/// not the last of its zone, a name before the owner or behind the next name is not; where it is the last, so that its next
/// name does not come behind its owner, every name behind the owner is, and every name before the next name.
pub proof fn law_gap_between_names(owner: Seq<char>, next: Seq<char>, name: Seq<char>)
    ensures
        ({
            let (o, x, n) = (name_key(owner), name_key(next), name_key(name));
            &&& list_less(o, n) && list_less(n, x) ==> name_in_gap(owner, next, name)
            &&& list_less(o, x) && list_less(n, o) ==> !name_in_gap(owner, next, name)
            &&& list_less(o, x) && list_less(x, n) ==> !name_in_gap(owner, next, name)
            &&& !list_less(o, x) && list_less(o, n) ==> name_in_gap(owner, next, name)
            &&& !list_less(o, x) && list_less(n, x) ==> name_in_gap(owner, next, name)
            &&& !list_less(o, x) && list_less(n, o) && list_less(x, n) ==> !name_in_gap(owner, next, name)
        }),
{
    let (o, x, n) = (name_key(owner), name_key(next), name_key(name));
    lemma_list_total(o, n);
    lemma_list_total(n, x);
    lemma_list_total(o, x);
}

/// The same of hashes.
pub proof fn law_gap_between_hashes(r: Nsec3View, h: Seq<u8>)
    ensures
        ({
            let (o, x) = (r.owner_hash, r.next_hashed);
            &&& lex_less(o, h) && lex_less(h, x) ==> hash_in_gap(r, h)
            &&& lex_less(o, x) && lex_less(h, o) ==> !hash_in_gap(r, h)
            &&& lex_less(o, x) && lex_less(x, h) ==> !hash_in_gap(r, h)
            &&& !lex_less(o, x) && lex_less(o, h) ==> hash_in_gap(r, h)
            &&& !lex_less(o, x) && lex_less(h, x) ==> hash_in_gap(r, h)
            &&& !lex_less(o, x) && lex_less(h, o) && lex_less(x, h) ==> !hash_in_gap(r, h)
        }),
{
    let (o, x) = (r.owner_hash, r.next_hashed);
    lemma_lex_total(o, h);
    lemma_lex_total(h, x);
    lemma_lex_total(o, x);
}

/// A bitmap denies a type where it has neither that type nor a CNAME record; for DS records below the root it must not have a
/// SOA record either, since that is the child's side of the zone cut.
pub proof fn law_bitmap_denies(bitmap: Seq<u8>, qtype: u16, labels: u32)
    ensures
        bitmap_has(bitmap, qtype) || bitmap_has(bitmap, 5) ==> !bitmap_denies(bitmap, qtype, labels),
        qtype == 43 && labels > 0 && bitmap_has(bitmap, 6) ==> !bitmap_denies(bitmap, qtype, labels),
        !bitmap_has(bitmap, qtype) && !bitmap_has(bitmap, 5) && (qtype != 43 || labels == 0 || !bitmap_has(bitmap, 6)) ==> bitmap_denies(
            bitmap,
            qtype,
            labels,
        ),
{
}

/// A record that denies something is found wherever it stands among the NSEC records: where no record before it says that the
/// name is found elsewhere, or stands at the name itself and has the type.
pub proof fn law_any_nsec_will_do(nsecs: Seq<NsecView>, i: int, k: int, name: Seq<char>, qtype: u16)
    requires
        0 <= i <= k < nsecs.len(),
        nsec_denies(nsecs[k], name, qtype),
        forall|j: int| i <= j <= k ==> !redirects(#[trigger] nsecs[j], name),
        forall|j: int|
            i <= j < k && name_key(signed_owner((#[trigger] nsecs[j]).owner, nsecs[j].sig_labels)) == name_key(name) ==> nsec_denies(
                nsecs[j],
                name,
                qtype,
            ),
    ensures
        nsec_proof(nsecs, i, name, qtype).0 is Ok,
    decreases k - i,
{
    assert(!redirects(nsecs[i], name));
    if i < k && !nsec_denies(nsecs[i], name, qtype) {
        law_any_nsec_will_do(nsecs, i + 1, k, name, qtype);
    }
}

/// Without a record that denies it nothing is shown, and a record that says that the name is found elsewhere, before any that
/// denies it, shows nothing either.
pub proof fn law_nothing_is_denied_without_a_record(nsecs: Seq<NsecView>, i: int, name: Seq<char>, qtype: u16)
    requires
        0 <= i,
        forall|j: int| i <= j < nsecs.len() ==> !nsec_denies(#[trigger] nsecs[j], name, qtype) || redirects(nsecs[j], name),
    ensures
        nsec_proof(nsecs, i, name, qtype).0 == Err::<(), u32>(0x100),
    decreases nsecs.len() - i,
{
    if i < nsecs.len() {
        assert(!nsec_denies(nsecs[i], name, qtype) || redirects(nsecs[i], name));
        law_nothing_is_denied_without_a_record(nsecs, i + 1, name, qtype);
    }
}

/// Whether a record is at a hash.
pub open spec fn at_hash(r: Nsec3View, h: Seq<u8>) -> bool {
    r.owner_hash == h && r.next_hashed.len() == h.len()
}

/// Whether a hash lies in the gap of a record with hashes of its length.
pub open spec fn around_hash(r: Nsec3View, h: Seq<u8>) -> bool {
    r.owner_hash.len() == h.len() && r.next_hashed.len() == h.len() && r.owner_hash != h && hash_in_gap(r, h)
}

/// A hash is covered where some record, whichever it is, is at it or around it, and the records at it deny the type. It is not
/// covered where there is no such record. What is covered by a gap with the opt-out flag, or by a record that has an NS record,
/// may be a delegation.
pub proof fn law_any_nsec3_will_do(recs: Seq<Nsec3View>, i: int, h: Seq<u8>, qtype: u16, nons: bool, labels: u32)
    requires
        0 <= i,
    ensures
        (exists|k: int| i <= k < recs.len() && (at_hash(#[trigger] recs[k], h) || around_hash(recs[k], h))) && (forall|k: int|
            i <= k < recs.len() && at_hash(#[trigger] recs[k], h) ==> bitmap_denies(recs[k].bitmap, qtype, labels)) ==> nsec3_cover(
            recs,
            i,
            h,
            qtype,
            nons,
            labels,
        ).0,
        (forall|k: int| i <= k < recs.len() ==> !around_hash(#[trigger] recs[k], h) && (at_hash(recs[k], h) ==> !bitmap_denies(
            recs[k].bitmap,
            qtype,
            labels,
        ))) ==> !nsec3_cover(recs, i, h, qtype, nons, labels).0,
        !nons ==> !nsec3_cover(recs, i, h, qtype, nons, labels).1,
        nsec3_cover(recs, i, h, qtype, nons, labels).1 ==> forall|k: int|
            i <= k < recs.len() && (at_hash(#[trigger] recs[k], h) || around_hash(recs[k], h)) && (forall|j: int|
                i <= j < k ==> !at_hash(#[trigger] recs[j], h) && !around_hash(recs[j], h)) ==> if at_hash(recs[k], h) {
                !bitmap_has(recs[k].bitmap, 2)
            } else {
                recs[k].flags % 2 == 0
            },
    decreases recs.len() - i,
{
    if i < recs.len() {
        law_any_nsec3_will_do(recs, i + 1, h, qtype, nons, labels);
        let here = at_hash(recs[i], h) || around_hash(recs[i], h);
        if exists|k: int| i <= k < recs.len() && (at_hash(#[trigger] recs[k], h) || around_hash(recs[k], h)) {
            let k = choose|k: int| i <= k < recs.len() && (at_hash(#[trigger] recs[k], h) || around_hash(recs[k], h));
            if !here {
                assert(i + 1 <= k);
            }
        }
        if nsec3_cover(recs, i, h, qtype, nons, labels).1 {
            assert forall|k: int|
                i <= k < recs.len() && (at_hash(#[trigger] recs[k], h) || around_hash(recs[k], h)) && (forall|j: int|
                    i <= j < k ==> !at_hash(#[trigger] recs[j], h) && !around_hash(recs[j], h)) implies if at_hash(recs[k], h) {
                !bitmap_has(recs[k].bitmap, 2)
            } else {
                recs[k].flags % 2 == 0
            } by {
                if k > i {
                    assert(!at_hash(recs[i], h) && !around_hash(recs[i], h));
                    assert forall|j: int| i + 1 <= j < k implies !at_hash(#[trigger] recs[j], h) && !around_hash(recs[j], h) by {}
                }
            }
        }
    }
}

/// The hash of a name: without iterations the digest of its wire form and the salt; each iteration takes the digest of the
/// hash before and the salt.
pub proof fn law_hash_iterates(name: Seq<char>, salt: Seq<u8>, n: u32, w: Seq<u8>)
    requires
        wire_of(name) == Some(w),
    ensures
        nsec3_hash(name, salt, 0) == Some(sha1_of(w + salt)),
        n < u32::MAX ==> nsec3_hash(name, salt, (n + 1) as u32) == Some(sha1_of(nsec3_hash(name, salt, n)->0 + salt)),
{
    if n < u32::MAX {
        lemma_rounds(w + salt, salt, n as nat);
    }
}

/// The last round of hashing.
proof fn lemma_rounds(input: Seq<u8>, salt: Seq<u8>, n: nat)
    ensures
        sha1_rounds(input, salt, n + 1) == sha1_of(sha1_rounds(input, salt, n) + salt),
    decreases n,
{
    reveal_with_fuel(sha1_rounds, 2);
    if n > 0 {
        lemma_rounds(sha1_of(input) + salt, salt, (n - 1) as nat);
        assert(((n - 1) as nat) + 1 == n);
    }
}

/// The records that count are all those with the algorithm, the iterations and the salt of the chosen one, and no flag but
/// opt-out.
pub proof fn law_records_that_count(raw: Seq<Nsec3RawView>, chosen: Nsec3RawView, r: Nsec3View)
    ensures
        prune(raw, chosen).contains(r) <==> exists|i: int|
            0 <= i < raw.len() && (#[trigger] raw[i]).algo == chosen.algo && raw[i].iterations == chosen.iterations && raw[i].salt
                == chosen.salt && raw[i].flags <= 1 && raw[i].owner_hash == r.owner_hash && raw[i].next_hashed == r.next_hashed
                && raw[i].flags == r.flags && raw[i].bitmap == r.bitmap,
    decreases raw.len(),
{
    if raw.len() > 0 {
        let d = raw.drop_last();
        law_records_that_count(d, chosen, r);
        let (some, all) = (prune(d, chosen), prune(raw, chosen));
        if all.contains(r) {
            let j = choose|j: int| 0 <= j < all.len() && all[j] == r;
            if j < some.len() {
                assert(some[j] == r);
                let i = choose|i: int|
                    0 <= i < d.len() && (#[trigger] d[i]).algo == chosen.algo && d[i].iterations == chosen.iterations && d[i].salt
                        == chosen.salt && d[i].flags <= 1 && d[i].owner_hash == r.owner_hash && d[i].next_hashed == r.next_hashed
                        && d[i].flags == r.flags && d[i].bitmap == r.bitmap;
                assert(raw[i] == d[i]);
            } else {
                assert(raw[raw.len() - 1] == raw.last());
            }
        }
        if exists|i: int|
            0 <= i < raw.len() && (#[trigger] raw[i]).algo == chosen.algo && raw[i].iterations == chosen.iterations && raw[i].salt
                == chosen.salt && raw[i].flags <= 1 && raw[i].owner_hash == r.owner_hash && raw[i].next_hashed == r.next_hashed
                && raw[i].flags == r.flags && raw[i].bitmap == r.bitmap {
            let i = choose|i: int|
                0 <= i < raw.len() && (#[trigger] raw[i]).algo == chosen.algo && raw[i].iterations == chosen.iterations && raw[i].salt
                    == chosen.salt && raw[i].flags <= 1 && raw[i].owner_hash == r.owner_hash && raw[i].next_hashed == r.next_hashed
                    && raw[i].flags == r.flags && raw[i].bitmap == r.bitmap;
            if i < d.len() {
                assert(d[i] == raw[i]);
                let j = choose|j: int| 0 <= j < some.len() && some[j] == r;
                assert(all[j] == r);
            } else {
                assert(same_params(raw.last(), chosen));
                assert(all[some.len() as int] == r);
            }
        }
    }
}

/// The first record with a known hash algorithm.
proof fn lemma_first_known_at(raw: Seq<Nsec3RawView>, i: int, c: int)
    requires
        0 <= i <= c < raw.len(),
        raw[c].algo == 1,
        forall|j: int| i <= j < c ==> (#[trigger] raw[j]).algo != 1,
    ensures
        first_known(raw, i) == Some(c),
    decreases c - i,
{
    if i < c {
        assert(raw[i].algo != 1);
        lemma_first_known_at(raw, i + 1, c);
    }
}

/// The name that is left when so many labels are taken off.
pub open spec fn ancestor(name: Seq<char>, n: nat) -> Seq<char>
    decreases n,
{
    if n == 0 {
        name
    } else {
        parent(ancestor(name, (n - 1) as nat))
    }
}

/// An ancestor of the parent is an ancestor of the name.
proof fn lemma_ancestor(name: Seq<char>, n: nat)
    ensures
        ancestor(parent(name), n) == ancestor(name, n + 1),
    decreases n,
{
    reveal_with_fuel(ancestor, 2);
    if n > 0 {
        lemma_ancestor(name, (n - 1) as nat);
        assert(((n - 1) as nat) + 1 == n);
    }
}

/// The closest encloser is found after so many labels.
proof fn lemma_closest_found(
    recs: Seq<Nsec3View>,
    salt: Seq<u8>,
    iterations: u32,
    candidate: Seq<char>,
    below: Option<Seq<char>>,
    stripped: nat,
    counter: i32,
    n: nat,
)
    requires
        forall|m: nat|
            m < n ==> nsec3_hash(#[trigger] ancestor(candidate, m), salt, iterations) is Some && !hash_is_known(
                recs,
                salt,
                iterations,
                ancestor(candidate, m),
            ) && ancestor(candidate, m).contains('.'),
        hash_is_known(recs, salt, iterations, ancestor(candidate, n)),
        allowance(counter) > n,
    ensures
        ({
            let (s, c) = closest(recs, salt, iterations, 0, candidate, below, stripped, counter);
            &&& s == Search::Found(
                if n == 0 {
                    below
                } else {
                    Some(ancestor(candidate, (n - 1) as nat))
                },
            )
            &&& allowance(c) == allowance(counter) - n - 1
        }),
    decreases n,
{
    assert(ancestor(candidate, 0) == candidate);
    if n > 0 {
        assert(nsec3_hash(ancestor(candidate, 0), salt, iterations) is Some);
        let k = find_char(candidate, '.');
        lemma_find_char(candidate, '.');
        assert(k < candidate.len()) by {
            let i = choose|i: int| 0 <= i < candidate.len() && candidate[i] == '.';
        }
        let up = candidate.skip(k + 1);
        assert(up == parent(candidate));
        assert forall|m: nat| m < n - 1 implies nsec3_hash(#[trigger] ancestor(up, m), salt, iterations) is Some && !hash_is_known(
            recs,
            salt,
            iterations,
            ancestor(up, m),
        ) && ancestor(up, m).contains('.') by {
            lemma_ancestor(candidate, m);
        }
        lemma_ancestor(candidate, (n - 1) as nat);
        assert(((n - 1) as nat) + 1 == n);
        if n >= 2 {
            lemma_ancestor(candidate, (n - 2) as nat);
            assert(((n - 2) as nat) + 1 == (n - 1) as nat);
        }
        lemma_closest_found(recs, salt, iterations, up, Some(candidate), stripped + 1, dec(counter), (n - 1) as nat);
    }
}

/// NSEC3 records show that there is nothing at a name, given the work, where those with the hash parameters of the first record of
/// a known algorithm cover its hash; or where they have the hash of an ancestor, but of none closer, cover the hash of the name
/// below that ancestor on the way, and cover that of the wildcard at the ancestor.
pub proof fn law_nsec3_denial_is_found(raw: Seq<Nsec3RawView>, name: Seq<char>, qtype: u16, counter: i32, limit: u32, c: int, n: nat)
    requires
        0 <= c < raw.len(),
        raw[c].algo == 1,
        forall|j: int| 0 <= j < c ==> (#[trigger] raw[j]).algo != 1,
        raw[c].iterations <= limit,
        allowance(counter) > n + 4,
        ({
            let recs = prune(raw, raw[c]);
            let (salt, its) = (raw[c].salt, raw[c].iterations);
            let start = norm(name);
            ||| hash_is_covered(recs, salt, its, name, qtype, labels32(name))
            ||| {
                &&& nsec3_hash(name, salt, its) is Some
                &&& n >= 1
                &&& forall|m: nat|
                    m < n ==> nsec3_hash(#[trigger] ancestor(start, m), salt, its) is Some && !hash_is_known(
                        recs,
                        salt,
                        its,
                        ancestor(start, m),
                    ) && ancestor(start, m).contains('.')
                &&& ancestor(start, n).len() > 0
                &&& hash_is_known(recs, salt, its, ancestor(start, n))
                &&& hash_is_covered(recs, salt, its, ancestor(start, (n - 1) as nat), qtype, 1)
                &&& hash_is_covered(recs, salt, its, seq!['*', '.'] + ancestor(start, n), qtype, 1)
            }
        }),
    ensures
        nsec3_proof(raw, name, qtype, 0, counter, limit).0 is Ok,
{
    lemma_first_known_at(raw, 0, c);
    let recs = prune(raw, raw[c]);
    let (salt, its) = (raw[c].salt, raw[c].iterations);
    let start = norm(name);
    let h = nsec3_hash(name, salt, its)->0;
    lemma_cover_any(recs, 0, h, qtype, true, false, labels32(name));
    if !hash_is_covered(recs, salt, its, name, qtype, labels32(name)) {
        lemma_closest_found(recs, salt, its, start, None, 0, dec(counter), n);
        let below = ancestor(start, (n - 1) as nat);
        let c1 = closest(recs, salt, its, 0, start, None, 0, dec(counter)).1;
        assert(allowance(c1) > 2);
        let k = find_char(below, '.');
        lemma_find_char(below, '.');
        assert(nsec3_hash(ancestor(start, (n - 1) as nat), salt, its) is Some);
        assert(below.contains('.'));
        let at = choose|i: int| 0 <= i < below.len() && below[i] == '.';
        assert(k < below.len());
        assert(parent(below) == ancestor(start, n));
        assert(k < below.len() - 1);
        assert(covered(recs, salt, its, below, qtype, c1) is Ok);
        assert(covered(recs, salt, its, seq!['*', '.'] + below.skip(k + 1), qtype, dec(c1)) is Ok);
    }
}

/// Whether a hash is covered does not depend on what else is asked of the records.
proof fn lemma_cover_any(recs: Seq<Nsec3View>, i: int, digest: Seq<u8>, qtype: u16, a: bool, b: bool, labels: u32)
    ensures
        nsec3_cover(recs, i, digest, qtype, a, labels).0 == nsec3_cover(recs, i, digest, qtype, b, labels).0,
    decreases recs.len() - i,
{
    if 0 <= i < recs.len() {
        lemma_cover_any(recs, i + 1, digest, qtype, a, b, labels);
    }
}

/// NSEC3 records show nothing where none has a known hash algorithm, or where the first one that has asks for more iterations
/// than allowed.
pub proof fn law_unusable_nsec3_shows_nothing(
    raw: Seq<Nsec3RawView>,
    name: Seq<char>,
    qtype: u16,
    wild: nat,
    counter: i32,
    limit: u32,
    c: int,
)
    ensures
        (forall|j: int| 0 <= j < raw.len() ==> (#[trigger] raw[j]).algo != 1) ==> nsec3_proof(raw, name, qtype, wild, counter, limit).0
            == Err::<(), u32>(0x100),
        0 <= c < raw.len() && raw[c].algo == 1 && (forall|j: int| 0 <= j < c ==> (#[trigger] raw[j]).algo != 1) && raw[c].iterations
            > limit ==> nsec3_proof(raw, name, qtype, wild, counter, limit).0 == Err::<(), u32>(0x80),
{
    if forall|j: int| 0 <= j < raw.len() ==> (#[trigger] raw[j]).algo != 1 {
        lemma_none_known(raw, 0);
    }
    if 0 <= c < raw.len() && raw[c].algo == 1 && (forall|j: int| 0 <= j < c ==> (#[trigger] raw[j]).algo != 1) {
        lemma_first_known_at(raw, 0, c);
    }
}

/// No record has a known hash algorithm.
proof fn lemma_none_known(raw: Seq<Nsec3RawView>, i: int)
    requires
        0 <= i,
        forall|j: int| i <= j < raw.len() ==> (#[trigger] raw[j]).algo != 1,
    ensures
        first_known(raw, i) is None,
    decreases raw.len() - i,
{
    if i < raw.len() {
        assert(raw[i].algo != 1);
        lemma_none_known(raw, i + 1);
    }
}

/// Whether a record of the authority section is a signature over the NSEC record of an owner.
pub open spec fn signs_nsec(rr: RrView, owner: Seq<char>, class: u16) -> bool {
    rr.rtype == 46 && rr.class == class && lower(rr.name) == lower(owner) && rr.rdata.len() >= 18 && be16(rr.rdata, 0) == 47
}

/// The signatures over the NSEC record of an owner agree on a count of labels where there is one, and each has that count.
pub proof fn law_signatures_agree_on_labels(auth: Seq<RrView>, i: int, owner: Seq<char>, class: u16, have: Option<u8>, l: u8)
    requires
        0 <= i,
    ensures
        agreed_labels(auth, i, owner, class, have) == Ok::<u8, u32>(l) ==> {
            &&& have matches Some(x) ==> x == l
            &&& forall|j: int| i <= j < auth.len() && signs_nsec(#[trigger] auth[j], owner, class) ==> auth[j].rdata[3] == l
            &&& have is None ==> exists|j: int| i <= j < auth.len() && signs_nsec(#[trigger] auth[j], owner, class)
        },
        (have matches Some(x) ==> x == l) && (have is Some || exists|j: int|
            i <= j < auth.len() && signs_nsec(#[trigger] auth[j], owner, class)) && (forall|j: int|
            i <= j < auth.len() && (#[trigger] auth[j]).rtype == 46 && auth[j].class == class && lower(auth[j].name) == lower(owner)
                ==> auth[j].rdata.len() >= 18 && (be16(auth[j].rdata, 0) == 47 ==> auth[j].rdata[3] == l)) ==> agreed_labels(
            auth,
            i,
            owner,
            class,
            have,
        ) == Ok::<u8, u32>(l),
    decreases auth.len() - i,
{
    if i < auth.len() {
        let next = if signs_nsec(auth[i], owner, class) {
            Some(auth[i].rdata[3])
        } else {
            have
        };
        law_signatures_agree_on_labels(auth, i + 1, owner, class, next, l);
        if agreed_labels(auth, i, owner, class, have) == Ok::<u8, u32>(l) {
            assert forall|j: int| i <= j < auth.len() && signs_nsec(#[trigger] auth[j], owner, class) implies auth[j].rdata[3] == l by {}
            if have is None {
                if signs_nsec(auth[i], owner, class) {
                } else {
                    let j = choose|j: int| i + 1 <= j < auth.len() && signs_nsec(#[trigger] auth[j], owner, class);
                    assert(signs_nsec(auth[j], owner, class));
                }
            }
        }
        if have is None && !signs_nsec(auth[i], owner, class) && exists|j: int|
            i <= j < auth.len() && signs_nsec(#[trigger] auth[j], owner, class) {
            let j = choose|j: int| i <= j < auth.len() && signs_nsec(#[trigger] auth[j], owner, class);
            assert(i + 1 <= j);
        }
    }
}

/// Every NSEC record of the class in the authority section takes part in a proof, and no other record.
pub proof fn law_every_nsec_takes_part(auth: Seq<RrView>, n: int, class: u16, i: int)
    requires
        0 <= n <= auth.len(),
        read_nsecs(auth, n, class) is Ok,
    ensures
        ({
            let list = read_nsecs(auth, n, class)->Ok_0;
            &&& 0 <= i < n && auth[i].rtype == 47 && auth[i].class == class ==> read_nsec(auth, auth[i], class) is Ok && list.contains(
                read_nsec(auth, auth[i], class)->Ok_0,
            )
            &&& forall|k: int|
                0 <= k < list.len() ==> exists|j: int|
                    0 <= j < n && (#[trigger] auth[j]).rtype == 47 && auth[j].class == class && read_nsec(auth, auth[j], class) == Ok::<
                        NsecView,
                        u32,
                    >(#[trigger] list[k])
        }),
    decreases n,
{
    if n > 0 {
        law_every_nsec_takes_part(auth, n - 1, class, i);
        let before = read_nsecs(auth, n - 1, class)->Ok_0;
        let list = read_nsecs(auth, n, class)->Ok_0;
        let last = auth[n - 1];
        let takes = of_type(47, class)(last);
        assert(takes <==> last.rtype == 47 && last.class == class);
        if 0 <= i < n && auth[i].rtype == 47 && auth[i].class == class {
            if i < n - 1 {
                let v = read_nsec(auth, auth[i], class)->Ok_0;
                let k = choose|k: int| 0 <= k < before.len() && before[k] == v;
                assert(list[k] == v);
            } else {
                assert(list[before.len() as int] == read_nsec(auth, last, class)->Ok_0);
            }
        }
        assert forall|k: int| 0 <= k < list.len() implies exists|j: int|
            0 <= j < n && (#[trigger] auth[j]).rtype == 47 && auth[j].class == class && read_nsec(auth, auth[j], class) == Ok::<
                NsecView,
                u32,
            >(#[trigger] list[k]) by {
            if k < before.len() {
                assert(list[k] == before[k]);
                let j = choose|j: int|
                    0 <= j < n - 1 && (#[trigger] auth[j]).rtype == 47 && auth[j].class == class && read_nsec(auth, auth[j], class)
                        == Ok::<NsecView, u32>(before[k]);
                assert(auth[j].rtype == 47);
            } else {
                assert(auth[n - 1].rtype == 47);
            }
        }
    }
}

/// Every NSEC3 record of the class in the authority section takes part in a proof, and no other record.
pub proof fn law_every_nsec3_takes_part(auth: Seq<RrView>, n: int, class: u16, i: int)
    requires
        0 <= n <= auth.len(),
        read_nsec3s(auth, n, class) is Ok,
    ensures
        ({
            let list = read_nsec3s(auth, n, class)->Ok_0;
            &&& 0 <= i < n && auth[i].rtype == 50 && auth[i].class == class ==> read_nsec3(auth[i]) is Ok && list.contains(
                read_nsec3(auth[i])->Ok_0,
            )
            &&& forall|k: int|
                0 <= k < list.len() ==> exists|j: int|
                    0 <= j < n && (#[trigger] auth[j]).rtype == 50 && auth[j].class == class && read_nsec3(auth[j]) == Ok::<
                        Nsec3RawView,
                        u32,
                    >(#[trigger] list[k])
        }),
    decreases n,
{
    if n > 0 {
        law_every_nsec3_takes_part(auth, n - 1, class, i);
        let before = read_nsec3s(auth, n - 1, class)->Ok_0;
        let list = read_nsec3s(auth, n, class)->Ok_0;
        let last = auth[n - 1];
        assert(of_type(50, class)(last) <==> last.rtype == 50 && last.class == class);
        if 0 <= i < n && auth[i].rtype == 50 && auth[i].class == class {
            if i < n - 1 {
                let v = read_nsec3(auth[i])->Ok_0;
                let k = choose|k: int| 0 <= k < before.len() && before[k] == v;
                assert(list[k] == v);
            } else {
                assert(list[before.len() as int] == read_nsec3(last)->Ok_0);
            }
        }
        assert forall|k: int| 0 <= k < list.len() implies exists|j: int|
            0 <= j < n && (#[trigger] auth[j]).rtype == 50 && auth[j].class == class && read_nsec3(auth[j]) == Ok::<Nsec3RawView, u32>(
                #[trigger] list[k],
            ) by {
            if k < before.len() {
                assert(list[k] == before[k]);
                let j = choose|j: int|
                    0 <= j < n - 1 && (#[trigger] auth[j]).rtype == 50 && auth[j].class == class && read_nsec3(auth[j]) == Ok::<
                        Nsec3RawView,
                        u32,
                    >(before[k]);
                assert(auth[j].rtype == 50);
            } else {
                assert(auth[n - 1].rtype == 50);
            }
        }
    }
}

/// An authority section with NSEC records of the class and no NSEC3 record, all of which can be read, shows what the NSEC
/// records show; one with NSEC3 records and no NSEC record what those show; one with both or neither shows nothing.
pub proof fn law_authority_section_shows(
    auth: Seq<RrView>,
    name: Seq<char>,
    qtype: u16,
    class: u16,
    wild: nat,
    nons: bool,
    counter: i32,
    limit: u32,
)
    ensures
        ({
            let nsec = exists|i: int| 0 <= i < auth.len() && (#[trigger] auth[i]).rtype == 47 && auth[i].class == class;
            let nsec3 = exists|i: int| 0 <= i < auth.len() && (#[trigger] auth[i]).rtype == 50 && auth[i].class == class;
            let d = denial(auth, name, qtype, class, wild, nons, counter, limit);
            &&& nsec == nsec3 ==> d.0 is Err
            &&& nsec && !nsec3 ==> (d.0 is Ok <==> (read_nsecs(auth, auth.len() as int, class) matches Ok(list) && nsec_proof(
                list,
                0,
                name,
                qtype,
            ).0 is Ok))
            &&& !nsec && nsec3 ==> (d.0 is Ok <==> (read_nsec3s(auth, auth.len() as int, class) matches Ok(list) && nsec3_proof(
                list,
                name,
                qtype,
                wild,
                counter,
                limit,
            ).0 is Ok))
        }),
{
    lemma_any(auth, 47, class);
    lemma_any(auth, 50, class);
}

/// Whether some record is of a type and class.
proof fn lemma_any(auth: Seq<RrView>, t: u16, class: u16)
    ensures
        any_of_type(auth, t, class) <==> exists|i: int|
            0 <= i < auth.len() && (#[trigger] auth[i]).rtype == t && auth[i].class == class,
{
    if any_of_type(auth, t, class) {
        let i = choose|i: int| 0 <= i < auth.len() && of_type(t, class)(#[trigger] auth[i]);
        assert(auth[i].rtype == t);
    }
    if exists|i: int| 0 <= i < auth.len() && (#[trigger] auth[i]).rtype == t && auth[i].class == class {
        let i = choose|i: int| 0 <= i < auth.len() && (#[trigger] auth[i]).rtype == t && auth[i].class == class;
        assert(of_type(t, class)(auth[i]));
    }
}

} // verus!
