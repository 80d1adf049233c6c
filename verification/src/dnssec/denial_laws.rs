//! What holds of proofs that a name or a type does not exist.

use super::basics::{dec, labels32};
use super::codes::bitmap_has;
use super::denial::{below_encloser, closest, covered, first_known, has_owner, nsec3_proof, prune, Search};
use super::nsec::{
    bitmap_denies, name_in_gap, nsec3_cover, nsec3_hash, nsec_proof, Nsec3RawView, Nsec3View, NsecView, T_DNAME, T_NSEC,
};
use super::order::name_key;
use super::rrset::{signed_owner, T_RRSIG};
use crate::names::{find_char, lemma_find_char, norm};
use crate::rfc1035::strictly_below;
use crate::text::is_suffix;
use vstd::prelude::*;

verus! {

/// Whether an NSEC record by itself shows that a name does not exist or has no records of a type: it is at the name
/// and does not list the type, or the name lies in the gap behind it.
pub open spec fn nsec_denies(n: NsecView, name: Seq<char>, qtype: u16) -> bool {
    let owner = signed_owner(n.owner, n.sig_labels);
    if name_key(owner) == name_key(name) {
        qtype == T_NSEC || qtype == T_RRSIG || bitmap_denies(n.bitmap, qtype, labels32(n.owner))
    } else {
        name_in_gap(owner, n.next, name)
    }
}

/// Whether an NSEC record says that names below its owner, this one among them, are found elsewhere.
pub open spec fn redirects(n: NsecView, name: Seq<char>) -> bool {
    bitmap_has(n.bitmap, T_DNAME) && strictly_below(name, signed_owner(n.owner, n.sig_labels))
}

/// Which record ends a search among NSEC records.
proof fn lemma_nsec_proof(nsecs: Seq<NsecView>, i: int, name: Seq<char>, qtype: u16)
    requires
        0 <= i <= nsecs.len(),
        nsec_proof(nsecs, i, name, qtype).0 is Ok,
    ensures
        exists|k: int|
            i <= k < nsecs.len() && #[trigger] nsec_denies(nsecs[k], name, qtype) && forall|j: int|
                i <= j <= k ==> !redirects(#[trigger] nsecs[j], name),
    decreases nsecs.len() - i,
{
    if i < nsecs.len() && !redirects(nsecs[i], name) {
        if nsec_denies(nsecs[i], name, qtype) {
            assert(nsec_denies(nsecs[i], name, qtype));
        } else {
            lemma_nsec_proof(nsecs, i + 1, name, qtype);
            let k = choose|k: int|
                i + 1 <= k < nsecs.len() && #[trigger] nsec_denies(nsecs[k], name, qtype) && forall|j: int|
                    i + 1 <= j <= k ==> !redirects(#[trigger] nsecs[j], name);
            assert(nsec_denies(nsecs[k], name, qtype));
            assert forall|j: int| i <= j <= k implies !redirects(#[trigger] nsecs[j], name) by {}
        }
    }
}

/// NSEC records prove that something does not exist only where one of them shows it by itself, and neither it nor one
/// before it says that the name is found elsewhere.
pub proof fn law_nsec_denial_is_shown(nsecs: Seq<NsecView>, name: Seq<char>, qtype: u16)
    requires
        nsec_proof(nsecs, 0, name, qtype).0 is Ok,
    ensures
        exists|k: int|
            0 <= k < nsecs.len() && #[trigger] nsec_denies(nsecs[k], name, qtype) && forall|j: int|
                0 <= j <= k ==> !redirects(#[trigger] nsecs[j], name),
{
    lemma_nsec_proof(nsecs, 0, name, qtype);
}

/// A name without its first label.
pub open spec fn parent(name: Seq<char>) -> Seq<char> {
    name.skip(find_char(name, '.') + 1)
}

/// Whether NSEC3 records cover the hash of a name.
pub open spec fn hash_is_covered(
    recs: Seq<Nsec3View>,
    salt: Seq<u8>,
    iterations: u32,
    name: Seq<char>,
    qtype: u16,
    labels: u32,
) -> bool {
    nsec3_hash(name, salt, iterations) matches Some(h) && nsec3_cover(recs, 0, h, qtype, false, labels).0
}

/// Whether NSEC3 records have the hash of a name.
pub open spec fn hash_is_known(recs: Seq<Nsec3View>, salt: Seq<u8>, iterations: u32, name: Seq<char>) -> bool {
    nsec3_hash(name, salt, iterations) matches Some(h) && has_owner(recs, h)
}

/// Whether NSEC3 records show that there is nothing at a name: it ends in `next`, the parent of which exists, while
/// `next` does not, nor does, unless a wildcard is what is being checked, a wildcard beside it.
pub open spec fn nothing_below(
    recs: Seq<Nsec3View>,
    salt: Seq<u8>,
    iterations: u32,
    wild: nat,
    name: Seq<char>,
    next: Seq<char>,
    qtype: u16,
) -> bool {
    &&& is_suffix(next, name)
    &&& hash_is_known(recs, salt, iterations, parent(next))
    &&& hash_is_covered(recs, salt, iterations, next, qtype, 1)
    &&& wild == 0 ==> hash_is_covered(recs, salt, iterations, seq!['*', '.'] + parent(next), qtype, 1)
}

/// Where the search for the closest encloser ends.
proof fn lemma_closest(
    recs: Seq<Nsec3View>,
    salt: Seq<u8>,
    iterations: u32,
    wild: nat,
    name: Seq<char>,
    candidate: Seq<char>,
    below: Option<Seq<char>>,
    stripped: nat,
    counter: i32,
)
    requires
        is_suffix(candidate, name),
        below matches Some(b) ==> is_suffix(b, name) && parent(b) == candidate,
    ensures
        closest(recs, salt, iterations, wild, candidate, below, stripped, counter).0 matches Search::Found(Some(b))
            ==> is_suffix(b, name) && hash_is_known(recs, salt, iterations, parent(b)),
    decreases candidate.len(),
{
    let k = find_char(candidate, '.');
    if !(wild != 0 && stripped == wild) && counter != 0 && nsec3_hash(candidate, salt, iterations) is Some && !has_owner(
        recs,
        nsec3_hash(candidate, salt, iterations)->0,
    ) && 0 <= k < candidate.len() {
        let up = candidate.skip(k + 1);
        assert(name.skip(name.len() - up.len()) =~= up) by {
            assert(name.skip(name.len() - candidate.len()) == candidate);
        }
        lemma_closest(recs, salt, iterations, wild, name, up, Some(candidate), stripped + 1, dec(counter));
    }
}

/// Whether a hash is covered does not depend on what else is asked of the records.
proof fn lemma_cover_alone(recs: Seq<Nsec3View>, i: int, digest: Seq<u8>, qtype: u16, a: bool, b: bool, labels: u32)
    ensures
        nsec3_cover(recs, i, digest, qtype, a, labels).0 == nsec3_cover(recs, i, digest, qtype, b, labels).0,
    decreases recs.len() - i,
{
    if 0 <= i < recs.len() {
        lemma_cover_alone(recs, i + 1, digest, qtype, a, b, labels);
    }
}

/// The first record of a known hash algorithm has one.
proof fn lemma_first_known(raw: Seq<Nsec3RawView>, i: int)
    requires
        0 <= i <= raw.len(),
    ensures
        first_known(raw, i) matches Some(c) ==> i <= c < raw.len() && raw[c].algo == 1,
    decreases raw.len() - i,
{
    if i < raw.len() && raw[i].algo != 1 {
        lemma_first_known(raw, i + 1);
    }
}

/// NSEC3 records prove that something does not exist only where those of them that share their hash parameters, with
/// a known algorithm and no more iterations than allowed, cover the hash of the name, or show that there is nothing
/// at it.
pub proof fn law_nsec3_denial_is_shown(
    raw: Seq<Nsec3RawView>,
    name: Seq<char>,
    qtype: u16,
    wild: nat,
    counter: i32,
    limit: u32,
)
    requires
        nsec3_proof(raw, name, qtype, wild, counter, limit).0 is Ok,
    ensures
        exists|c: int|
            0 <= c < raw.len() && (#[trigger] raw[c]).algo == 1 && raw[c].iterations <= limit && {
                let recs = prune(raw, raw[c]);
                ||| hash_is_covered(recs, raw[c].salt, raw[c].iterations, name, qtype, labels32(name))
                ||| exists|next: Seq<char>|
                    nothing_below(recs, raw[c].salt, raw[c].iterations, wild, norm(name), next, qtype)
            },
{
    lemma_first_known(raw, 0);
    let c = first_known(raw, 0)->0;
    let chosen = raw[c];
    let recs = prune(raw, chosen);
    let h = nsec3_hash(name, chosen.salt, chosen.iterations)->0;
    lemma_cover_alone(recs, 0, h, qtype, true, false, labels32(name));
    if !nsec3_cover(recs, 0, h, qtype, true, labels32(name)).0 {
        let start = norm(name);
        assert(start.skip(0) =~= start);
        lemma_closest(recs, chosen.salt, chosen.iterations, wild, start, start, None, 0, dec(counter));
        let (s, c1) = closest(recs, chosen.salt, chosen.iterations, wild, start, None, 0, dec(counter));
        let next = s->Found_0->0;
        assert(s == Search::Found(Some(next)));
        assert(below_encloser(recs, chosen.salt, chosen.iterations, wild, next, qtype, c1).0 is Ok);
        assert(covered(recs, chosen.salt, chosen.iterations, next, qtype, c1) is Ok);
        lemma_find_char(next, '.');
        assert(nothing_below(recs, chosen.salt, chosen.iterations, wild, start, next, qtype));
    }
}

} // verus!
