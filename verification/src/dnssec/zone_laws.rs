//! What is known of a zone, and what is learnt of it.

use super::basics::{label_count, labels32, lemma_split_dots};
use super::records::{ds_of, DsView};
use super::reply::{
    answers, any_same_set, chase, cname_target, ds_outcome, has_ds, is_zone_key, reply_status, resolved, same_set, set_verdict, some_key_validates,
    starts_set, usable_ds, zone_keys,
};
use super::rrset::{in_rrset, in_rrsigs, signed_owner, signer_of, step_of, try_signatures, validated, Outcome};
use super::store::{anchor, any_usable, keys_of_class, suffixes, usable, walk, zone, Code, DnssecCache, DsKnown, Status};
use crate::names::{join, lemma_join_front, lemma_join_split, lemma_split_join, lemma_split_len, norm, split};
use crate::rfc1035::RrView;
use crate::text::{lower, select, unicode_lower};
use crate::wire::{be16, be32, dotted_name};
use vstd::prelude::*;

verus! {

/// The suffixes of a name start at the root and end with the name; each has one label more than the one before, in front.
pub proof fn law_suffixes_grow_by_labels(name: Seq<char>, i: int)
    requires
        norm(name).len() > 0,
    ensures
        ({
            let sufs = suffixes(name);
            let labels = split(norm(name));
            &&& sufs.len() == labels.len() + 1
            &&& sufs[0] == Seq::<char>::empty()
            &&& sufs[1] == labels.last()
            &&& sufs.last() == norm(name)
            &&& 1 <= i < labels.len() ==> sufs[i + 1] == labels[labels.len() - 1 - i].push('.') + sufs[i]
        }),
{
    let n = norm(name);
    let labels = split(n);
    let sufs = suffixes(name);
    lemma_split_len(n);
    lemma_join_split(n);
    assert(labels.skip(0) =~= labels);
    assert(labels.skip(labels.len() - 1) =~= seq![labels.last()]);
    assert(sufs.last() == sufs[labels.len() as int]);
    if 1 <= i < labels.len() {
        let rest = labels.skip(labels.len() - i);
        assert(labels.skip(labels.len() - (i + 1)) =~= seq![labels[labels.len() - 1 - i]] + rest);
        lemma_join_front(labels[labels.len() - 1 - i], rest);
    }
}

/// Whether a DS record of a class can be used: by SHA-1, SHA-256 or SHA-384, for an algorithm that can be verified.
pub open spec fn can_be_used(e: (DsView, u16), class: u16) -> bool {
    &&& e.1 == class
    &&& e.0.digest_type == 1 || e.0.digest_type == 2 || e.0.digest_type == 4
    &&& e.0.algorithm == 5 || e.0.algorithm == 8 || e.0.algorithm == 10 || e.0.algorithm == 13 || e.0.algorithm == 14
        || e.0.algorithm == 15
}

/// Whether what is known of a name makes it insecure: that its zone is not signed, or DS records of which none can be used.
pub open spec fn makes_insecure(known: DsKnown, class: u16) -> bool {
    match known {
        DsKnown::NegInsecure => true,
        DsKnown::NegNotZoneCut => false,
        DsKnown::Positive(entries) => forall|i: int| 0 <= i < entries.len() ==> !can_be_used(#[trigger] entries[i], class),
    }
}

/// Knowledge that makes a name insecure has no record that can be used.
proof fn lemma_usable(entries: Seq<(DsView, u16)>, class: u16)
    ensures
        any_usable(entries, class) <==> exists|i: int| 0 <= i < entries.len() && can_be_used(#[trigger] entries[i], class),
{
    if any_usable(entries, class) {
        let i = choose|i: int| 0 <= i < entries.len() && (#[trigger] entries[i]).1 == class && usable(entries[i].0);
        assert(can_be_used(entries[i], class));
    }
    if exists|i: int| 0 <= i < entries.len() && can_be_used(#[trigger] entries[i], class) {
        let i = choose|i: int| 0 <= i < entries.len() && can_be_used(#[trigger] entries[i], class);
        assert(usable(entries[i].0));
    }
}

/// The longest suffix of which something is known.
proof fn lemma_anchor(cache: DnssecCache, sufs: Seq<Seq<char>>, n: int, a: int)
    requires
        0 <= a < n <= sufs.len(),
        cache.ds_of_name(sufs[a]) is Some,
        forall|j: int| a < j < n ==> cache.ds_of_name(#[trigger] sufs[j]) is None,
    ensures
        anchor(cache, sufs, n) == a,
    decreases n,
{
    if a < n - 1 {
        assert(cache.ds_of_name(sufs[n - 1]) is None);
        lemma_anchor(cache, sufs, n - 1, a);
    }
}

/// Without anything known the search ends at the root.
proof fn lemma_no_anchor(cache: DnssecCache, sufs: Seq<Seq<char>>, n: int)
    requires
        0 <= n <= sufs.len(),
        forall|j: int| 0 <= j < n ==> cache.ds_of_name(#[trigger] sufs[j]) is None,
    ensures
        anchor(cache, sufs, n) == 0,
    decreases n,
{
    if n > 0 {
        assert(cache.ds_of_name(sufs[n - 1]) is None);
        lemma_no_anchor(cache, sufs, n - 1);
    }
}

/// A name is judged by the longest of its suffixes of which something is known. Where that makes it insecure, the name is
/// insecure. Else the name is secure where that suffix is the name itself, and the next longer suffix is asked for where it is
/// not; where nothing is known at all, the root is.
pub proof fn law_zone_by_longest_known_suffix(cache: DnssecCache, name: Seq<char>, class: u16, a: int)
    requires
        ({
            let sufs = suffixes(name);
            &&& -1 <= a < sufs.len()
            &&& a >= 0 ==> cache.ds_of_name(sufs[a]) is Some
            &&& forall|j: int| a < j < sufs.len() ==> cache.ds_of_name(#[trigger] sufs[j]) is None
        }),
    ensures
        ({
            let sufs = suffixes(name);
            if a >= 0 && makes_insecure(cache.ds_of_name(sufs[a])->0, class) {
                zone(cache, name, class) == (Status { code: Code::Insecure, fail: 0 })
            } else if a == sufs.len() - 1 {
                zone(cache, name, class) == (Status { code: Code::Secure, fail: 0 })
            } else {
                zone(cache, name, class) == (Status { code: Code::NeedDs { name: sufs[a + 1], class }, fail: 0 })
            }
        }),
{
    let sufs = suffixes(name);
    lemma_split_len(norm(name));
    assert(sufs.len() >= 1);
    if a >= 0 {
        lemma_anchor(cache, sufs, sufs.len() as int, a);
        if let DsKnown::Positive(entries) = cache.ds_of_name(sufs[a])->0 {
            lemma_usable(entries, class);
        }
        reveal_with_fuel(walk, 2);
        if a + 1 < sufs.len() {
            assert(cache.ds_of_name(sufs[a + 1]) is None);
        }
    } else {
        lemma_no_anchor(cache, sufs, sufs.len() as int);
        assert(cache.ds_of_name(sufs[0]) is None);
    }
}

/// The keys of a class are those that were added for it, and no others, in their order.
pub proof fn law_keys_of_class(keys: Seq<(Seq<u8>, u16)>, class: u16, key: Seq<u8>)
    ensures
        keys_of_class(keys, class).contains(key) <==> keys.contains((key, class)),
        keys_of_class(keys.push((key, class)), class) == keys_of_class(keys, class).push(key),
        forall|other: u16| other != class ==> #[trigger] keys_of_class(keys.push((key, class)), other) == keys_of_class(keys, other),
    decreases keys.len(),
{
    assert(keys.push((key, class)).drop_last() =~= keys);
    if keys.len() > 0 {
        let d = keys.drop_last();
        law_keys_of_class(d, class, key);
        let (some, all) = (keys_of_class(d, class), keys_of_class(keys, class));
        if d.contains((key, class)) {
            let i = choose|i: int| 0 <= i < d.len() && d[i] == (key, class);
            assert(keys[i] == (key, class));
            let j = choose|j: int| 0 <= j < some.len() && some[j] == key;
            assert(all[j] == key);
        }
        if keys.last() == (key, class) {
            assert(keys[keys.len() - 1] == (key, class));
            assert(all[some.len() as int] == key);
        }
        if keys.contains((key, class)) {
            let i = choose|i: int| 0 <= i < keys.len() && keys[i] == (key, class);
            if i < d.len() {
                assert(d[i] == (key, class));
            }
        }
        if all.contains(key) {
            let j = choose|j: int| 0 <= j < all.len() && all[j] == key;
            if j < some.len() {
                assert(some[j] == key);
            }
        }
    }
}

/// Of a secure key set all the zone keys are kept, and no others: those with protocol 3 and the zone-key flag.
pub proof fn law_zone_keys_are_kept(rrset: Seq<RrView>, class: u16, key: Seq<u8>)
    ensures
        zone_keys(rrset, class).contains((key, class)) <==> exists|i: int|
            0 <= i < rrset.len() && (#[trigger] rrset[i]).rdata == key && key.len() >= 4 && key[2] == 3 && key[0] % 2 == 1,
        forall|e: (Seq<u8>, u16)| #[trigger] zone_keys(rrset, class).contains(e) ==> e.1 == class,
    decreases rrset.len(),
{
    if rrset.len() > 0 {
        let d = rrset.drop_last();
        let last = rrset.last().rdata;
        law_zone_keys_are_kept(d, class, key);
        let (some, all) = (zone_keys(d, class), zone_keys(rrset, class));
        assert(is_zone_key(last) <==> last.len() >= 4 && last[2] == 3 && last[0] % 2 == 1) by {
            if last.len() >= 4 {
                let (x, y) = (last[0] as int, last[1] as int);
                assert(be16(last, 0) == x * 256 + y);
                assert((x * 256 + y) / 256 == x);
            }
        }
        if all.contains((key, class)) {
            let j = choose|j: int| 0 <= j < all.len() && all[j] == (key, class);
            if j < some.len() {
                assert(some[j] == (key, class));
                let i = choose|i: int|
                    0 <= i < d.len() && (#[trigger] d[i]).rdata == key && key.len() >= 4 && key[2] == 3 && key[0] % 2 == 1;
                assert(rrset[i].rdata == key);
            } else {
                assert(rrset[rrset.len() - 1].rdata == key);
            }
        }
        if exists|i: int|
            0 <= i < rrset.len() && (#[trigger] rrset[i]).rdata == key && key.len() >= 4 && key[2] == 3 && key[0] % 2 == 1 {
            let i = choose|i: int|
                0 <= i < rrset.len() && (#[trigger] rrset[i]).rdata == key && key.len() >= 4 && key[2] == 3 && key[0] % 2 == 1;
            if i < d.len() {
                assert(d[i].rdata == key);
                let j = choose|j: int| 0 <= j < some.len() && some[j] == (key, class);
                assert(all[j] == (key, class));
            } else {
                assert(all[some.len() as int] == (key, class));
            }
        }
        assert forall|e: (Seq<u8>, u16)| #[trigger] all.contains(e) implies e.1 == class by {
            let j = choose|j: int| 0 <= j < all.len() && all[j] == e;
            if j < some.len() {
                assert(some[j] == e);
                assert(some.contains(e));
            }
        }
    }
}

/// The DS records that can be used are all found in an answer, and no others.
proof fn lemma_usable_ds(answer: Seq<RrView>, class: u16, e: (DsView, u16))
    ensures
        usable_ds(answer, class).contains(e) <==> exists|i: int|
            0 <= i < answer.len() && (#[trigger] answer[i]).rtype == 43 && answer[i].class == class && answer[i].rdata.len() >= 4 && e
                == (ds_of(answer[i].rdata), class) && can_be_used(e, class),
    decreases answer.len(),
{
    if answer.len() > 0 {
        let d = answer.drop_last();
        let rr = answer.last();
        lemma_usable_ds(d, class, e);
        let (some, all) = (usable_ds(d, class), usable_ds(answer, class));
        if all.contains(e) {
            let j = choose|j: int| 0 <= j < all.len() && all[j] == e;
            if j < some.len() {
                assert(some[j] == e);
                let i = choose|i: int|
                    0 <= i < d.len() && (#[trigger] d[i]).rtype == 43 && d[i].class == class && d[i].rdata.len() >= 4 && e == (
                        ds_of(d[i].rdata),
                        class,
                    ) && can_be_used(e, class);
                assert(answer[i] == d[i]);
            } else {
                assert(answer[answer.len() - 1] == rr);
            }
        }
        if exists|i: int|
            0 <= i < answer.len() && (#[trigger] answer[i]).rtype == 43 && answer[i].class == class && answer[i].rdata.len() >= 4 && e
                == (ds_of(answer[i].rdata), class) && can_be_used(e, class) {
            let i = choose|i: int|
                0 <= i < answer.len() && (#[trigger] answer[i]).rtype == 43 && answer[i].class == class && answer[i].rdata.len() >= 4
                    && e == (ds_of(answer[i].rdata), class) && can_be_used(e, class);
            if i < d.len() {
                assert(d[i] == answer[i]);
                let j = choose|j: int| 0 <= j < some.len() && some[j] == e;
                assert(all[j] == e);
            } else {
                assert(all[some.len() as int] == e);
            }
        }
    }
}

/// From a secure reply all the DS records of the class that can be used are learnt, and no others. Where there is none, what
/// is learnt is that the name is the cut of an unsigned zone, or, where an NS record may be missing, that it is no zone cut.
pub proof fn law_ds_records_are_learnt(answer: Seq<RrView>, name: Seq<char>, class: u16, rc: Status, nons: bool, i: int)
    requires
        rc.code is Secure,
    ensures
        0 <= i < answer.len() && answer[i].rtype == 43 && answer[i].class == class && answer[i].rdata.len() >= 4 && can_be_used(
            (ds_of(answer[i].rdata), class),
            class,
        ) ==> (ds_outcome(answer, name, class, false, rc, nons) matches Ok(DsKnown::Positive(found)) && found.contains(
            (ds_of(answer[i].rdata), class),
        )),
        ds_outcome(answer, name, class, false, rc, nons) matches Ok(DsKnown::Positive(found)) ==> forall|k: int|
            0 <= k < found.len() ==> can_be_used(#[trigger] found[k], class) && exists|j: int|
                0 <= j < answer.len() && (#[trigger] answer[j]).rtype == 43 && answer[j].class == class && found[k] == (
                    ds_of(answer[j].rdata),
                    class,
                ),
        (forall|j: int|
            0 <= j < answer.len() && (#[trigger] answer[j]).rtype == 43 && answer[j].class == class ==> answer[j].rdata.len() < 4
                || !can_be_used((ds_of(answer[j].rdata), class), class)) ==> ds_outcome(answer, name, class, false, rc, nons) == Ok::<
            DsKnown,
            Status,
        >(
            if nons {
                DsKnown::NegNotZoneCut
            } else {
                DsKnown::NegInsecure
            },
        ),
{
    let found = usable_ds(answer, class);
    if 0 <= i < answer.len() && answer[i].rtype == 43 && answer[i].class == class && answer[i].rdata.len() >= 4 && can_be_used(
        (ds_of(answer[i].rdata), class),
        class,
    ) {
        lemma_usable_ds(answer, class, (ds_of(answer[i].rdata), class));
        assert(answer[i].rtype == 43);
        assert(has_ds(answer, class));
        assert(found.contains((ds_of(answer[i].rdata), class)));
    }
    assert forall|k: int| 0 <= k < found.len() implies can_be_used(#[trigger] found[k], class) && exists|j: int|
        0 <= j < answer.len() && (#[trigger] answer[j]).rtype == 43 && answer[j].class == class && found[k] == (
            ds_of(answer[j].rdata),
            class,
        ) by {
        assert(found.contains(found[k]));
        lemma_usable_ds(answer, class, found[k]);
    }
    if forall|j: int|
        0 <= j < answer.len() && (#[trigger] answer[j]).rtype == 43 && answer[j].class == class ==> answer[j].rdata.len() < 4
            || !can_be_used((ds_of(answer[j].rdata), class), class) {
        if found.len() > 0 {
            assert(found.contains(found[0]));
            lemma_usable_ds(answer, class, found[0]);
        }
    }
}

/// A server that failed shows no zone cut; an answer with DS records that is insecure is indeterminate; a reply that cannot be
/// judged before the key of the name itself is known is bogus; any other status is handed on.
pub proof fn law_ds_replies_that_teach_nothing(
    answer: Seq<RrView>,
    name: Seq<char>,
    class: u16,
    rc: Status,
    nons: bool,
    i: int,
)
    ensures
        ds_outcome(answer, name, class, true, rc, nons) == Ok::<DsKnown, Status>(DsKnown::NegNotZoneCut),
        rc.code is Insecure && 0 <= i < answer.len() && answer[i].rtype == 43 && answer[i].class == class ==> ds_outcome(
            answer,
            name,
            class,
            false,
            rc,
            nons,
        ) == Err::<DsKnown, Status>(Status { code: Code::Bogus, fail: 0x200 }),
        rc.code matches Code::NeedKey { name: wanted, class: _ } ==> ds_outcome(answer, name, class, false, rc, nons) == Err::<
            DsKnown,
            Status,
        >(
            if norm(wanted) == norm(name) {
                Status { code: Code::Bogus, fail: 0 }
            } else {
                rc
            },
        ),
        rc.code is Bogus || rc.code is NeedDs || rc.code is Abandoned ==> ds_outcome(answer, name, class, false, rc, nons) == Err::<
            DsKnown,
            Status,
        >(rc),
{
    if 0 <= i < answer.len() && answer[i].rtype == 43 && answer[i].class == class {
        assert(has_ds(answer, class));
    }
}

/// What is selected is what satisfies the condition, all of it and in its order.
pub proof fn law_select<A>(s: Seq<A>, p: spec_fn(A) -> bool, x: A)
    ensures
        select(s, p).contains(x) <==> s.contains(x) && p(x),
        p(x) ==> select(s.push(x), p) == select(s, p).push(x),
        !p(x) ==> select(s.push(x), p) == select(s, p),
    decreases s.len(),
{
    assert(s.push(x).drop_last() =~= s);
    if s.len() > 0 {
        let d = s.drop_last();
        law_select(d, p, x);
        let (some, all) = (select(d, p), select(s, p));
        if all.contains(x) {
            let j = choose|j: int| 0 <= j < all.len() && all[j] == x;
            if j < some.len() {
                assert(some[j] == x);
                let i = choose|i: int| 0 <= i < d.len() && d[i] == x;
                assert(s[i] == x);
            } else {
                assert(s[s.len() - 1] == x);
            }
        }
        if s.contains(x) && p(x) {
            let i = choose|i: int| 0 <= i < s.len() && s[i] == x;
            if i < d.len() {
                assert(d[i] == x);
                let j = choose|j: int| 0 <= j < some.len() && some[j] == x;
                assert(all[j] == x);
            } else {
                assert(all[some.len() as int] == x);
            }
        }
    }
}

/// The records of a set are those with its type and class under its name, case aside; its signatures are the RRSIG records of
/// its class under its name, case aside, that say that they cover its type and whose signer is the name or a suffix of its
/// labels, case aside. Signatures themselves have none.
pub proof fn law_sets_and_signatures(all: Seq<RrView>, name: Seq<char>, class: u16, t: u16, rr: RrView)
    ensures
        select(all, in_rrset(name, class, t)).contains(rr) <==> all.contains(rr) && rr.rtype == t && rr.class == class && unicode_lower(
            rr.name,
        ) == unicode_lower(name),
        select(all, in_rrsigs(name, class, t)).contains(rr) <==> {
            &&& all.contains(rr)
            &&& t != 46
            &&& rr.rtype == 46 && rr.class == class && unicode_lower(rr.name) == unicode_lower(name)
            &&& rr.rdata.len() >= 18
            &&& rr.rdata[0] * 256 + rr.rdata[1] == t
            &&& dotted_name(rr.rdata.skip(18)) matches Ok((signer, n)) && {
                let (s, whole) = (unicode_lower(signer), unicode_lower(name));
                s.len() == 0 || whole == s || (s.len() < whole.len() && whole[whole.len() - s.len() - 1] == '.' && whole.skip(
                    whole.len() - s.len(),
                ) == s)
            }
        },
{
    law_select(all, in_rrset(name, class, t), rr);
    law_select(all, in_rrsigs(name, class, t), rr);
    if rr.rdata.len() >= 18 {
        let (x, y) = (rr.rdata[0] as int, rr.rdata[1] as int);
        assert(be16(rr.rdata, 0) == x * 256 + y);
        if let Ok((signer, n)) = dotted_name(rr.rdata.skip(18)) {
            let (s, whole) = (unicode_lower(signer), unicode_lower(name));
            let tail = seq!['.'] + s;
            if tail.len() <= whole.len() {
                let end = whole.skip(whole.len() - tail.len());
                assert(end[0] == whole[whole.len() - s.len() - 1]);
                assert(end.skip(1) =~= whole.skip(whole.len() - s.len()));
                if end == tail {
                    assert(tail.skip(1) =~= s);
                    assert(tail[0] == '.');
                }
                if whole[whole.len() - s.len() - 1] == '.' && whole.skip(whole.len() - s.len()) == s {
                    assert(end =~= seq![end[0]] + end.skip(1));
                }
            }
        }
    }
}

/// Every record of a reply that is no signature is judged with a set: one that starts at a record with its type and class
/// under the same normalised name.
pub proof fn law_every_record_is_judged(all: Seq<RrView>, j: int)
    requires
        0 <= j < all.len(),
        all[j].rtype != 46,
    ensures
        exists|i: int|
            0 <= i <= j && #[trigger] starts_set(all, i) && norm(all[i].name) == norm(all[j].name) && all[i].rtype == all[j].rtype
                && all[i].class == all[j].class,
    decreases j,
{
    if starts_set(all, j) {
    } else {
        let before = all.take(j);
        let k = choose|k: int| 0 <= k < before.len() && same_set(#[trigger] before[k], all[j]);
        assert(before[k] == all[k]);
        law_every_record_is_judged(all, k);
        let i = choose|i: int|
            0 <= i <= k && #[trigger] starts_set(all, i) && norm(all[i].name) == norm(all[k].name) && all[i].rtype == all[k].rtype
                && all[i].class == all[k].class;
        assert(starts_set(all, i));
    }
}

/// No key validates records without signatures.
proof fn lemma_no_signatures(keys: Seq<Seq<u8>>, k: int, rrset: Seq<RrView>, sigs: Seq<RrView>, rr: RrView, now: u32, counter: i32)
    requires
        0 <= k,
        sigs.len() == 0,
    ensures
        !some_key_validates(keys, k, rrset, sigs, rr, now, counter).0,
    decreases keys.len() - k,
{
    if k < keys.len() {
        lemma_no_signatures(keys, k + 1, rrset, sigs, rr, now, counter);
    }
}

/// Signatures of one set by two signers, case aside, make the reply bogus.
pub proof fn law_signers_must_agree(
    all: Seq<RrView>,
    answer: Seq<RrView>,
    rr: RrView,
    now: u32,
    cache: DnssecCache,
    counter: i32,
    check_unsigned: bool,
    ds_mode: bool,
    i: int,
    j: int,
)
    requires
        ({
            let sigs = select(all, in_rrsigs(rr.name, rr.class, rr.rtype));
            &&& 0 <= i < sigs.len()
            &&& 0 <= j < sigs.len()
            &&& lower(signer_of(sigs[i].rdata)) != lower(signer_of(sigs[j].rdata))
        }),
    ensures
        set_verdict(all, answer, rr, now, cache, counter, check_unsigned, ds_mode) == (
            Some(Status { code: Code::Bogus, fail: 0x400 }),
            false,
            counter,
        ),
{
    let sigs = select(all, in_rrsigs(rr.name, rr.class, rr.rtype));
    if super::reply::one_signer(sigs) {
        assert(lower(signer_of(sigs[i].rdata)) == lower(signer_of(sigs[0].rdata)));
        assert(lower(signer_of(sigs[j].rdata)) == lower(signer_of(sigs[0].rdata)));
    }
}

/// Records without signatures are bogus where they would deny something, make a reply insecure where they need not be
/// signed, and do not count where they stand in the authority section of the reply to a DS query.
pub proof fn law_unsigned_records(
    all: Seq<RrView>,
    answer: Seq<RrView>,
    rr: RrView,
    now: u32,
    cache: DnssecCache,
    counter: i32,
    check_unsigned: bool,
    ds_mode: bool,
)
    requires
        select(all, in_rrsigs(rr.name, rr.class, rr.rtype)).len() == 0,
    ensures
        ({
            let v = set_verdict(all, answer, rr, now, cache, counter, check_unsigned, ds_mode);
            let in_answer = exists|k: int|
                0 <= k < answer.len() && norm((#[trigger] answer[k]).name) == norm(rr.name) && answer[k].rtype == rr.rtype
                    && answer[k].class == rr.class;
            &&& rr.rtype == 47 || rr.rtype == 50 ==> v.0 == Some(Status { code: Code::Bogus, fail: 0x400 })
            &&& rr.rtype != 47 && rr.rtype != 50 && ds_mode && !in_answer ==> v.0 is None && !v.1
            &&& rr.rtype != 47 && rr.rtype != 50 && !ds_mode && !in_answer ==> v.0 is None && v.1
            &&& rr.rtype != 47 && rr.rtype != 50 && in_answer && !check_unsigned ==> v.0 is None && v.1
            &&& rr.rtype != 47 && rr.rtype != 50 && in_answer && check_unsigned ==> {
                let zs = zone(cache, rr.name, rr.class).code;
                &&& zs is Insecure ==> v.0 is None && v.1
                &&& zs is Secure ==> v.0 is Some && !(v.0->0.code is Secure)
                &&& zs is NeedDs ==> v.0 == Some(zone(cache, rr.name, rr.class))
            }
        }),
{
    let rrset = select(all, in_rrset(rr.name, rr.class, rr.rtype));
    let sigs = select(all, in_rrsigs(rr.name, rr.class, rr.rtype));
    lemma_no_signatures(keys_of_class(cache.keys_of_name(rr.name), rr.class), 0, rrset, sigs, rr, now, counter);
    assert(any_same_set(answer, rr) <==> exists|k: int|
        0 <= k < answer.len() && norm((#[trigger] answer[k]).name) == norm(rr.name) && answer[k].rtype == rr.rtype && answer[k].class
            == rr.class) by {
        if any_same_set(answer, rr) {
            let k = choose|k: int| 0 <= k < answer.len() && same_set(#[trigger] answer[k], rr);
            assert(norm(answer[k].name) == norm(rr.name));
        }
        if exists|k: int|
            0 <= k < answer.len() && norm((#[trigger] answer[k]).name) == norm(rr.name) && answer[k].rtype == rr.rtype
                && answer[k].class == rr.class {
            let k = choose|k: int|
                0 <= k < answer.len() && norm((#[trigger] answer[k]).name) == norm(rr.name) && answer[k].rtype == rr.rtype
                    && answer[k].class == rr.class;
            assert(same_set(answer[k], rr));
        }
    }
}

/// Without a key the first signature that is in force and was not made for more labels than the name has tells whose key is
/// needed, and its tag.
pub proof fn law_key_is_asked_for(
    rrset: Seq<RrView>,
    sigs: Seq<RrView>,
    name: Seq<char>,
    rrtype: u16,
    class: u16,
    now: u32,
    counter: i32,
    k: int,
)
    requires
        0 <= k < sigs.len(),
        counter > k,
        sigs[k].rdata.len() >= 18,
        be32(sigs[k].rdata, 12) <= now <= be32(sigs[k].rdata, 8),
        sigs[k].rdata[3] <= labels32(name),
        forall|j: int|
            0 <= j < k ==> (#[trigger] sigs[j]).rdata.len() < 18 || now < be32(sigs[j].rdata, 12) || now > be32(sigs[j].rdata, 8)
                || sigs[j].rdata[3] > labels32(name),
    ensures
        validated(rrset, sigs, name, rrtype, class, now, None, counter).0 == (Outcome::NeedKey {
            signer: signer_of(sigs[k].rdata),
            key_tag: be16(sigs[k].rdata, 16),
        }),
{
    lemma_key_asked(super::order::canonical_set(rrset), sigs, 0, name, rrtype, class, now, counter, k);
}

/// The first usable signature from number `i` on tells whose key is needed.
proof fn lemma_key_asked(
    sorted: Seq<RrView>,
    sigs: Seq<RrView>,
    i: int,
    name: Seq<char>,
    rrtype: u16,
    class: u16,
    now: u32,
    counter: i32,
    k: int,
)
    requires
        0 <= i <= k < sigs.len(),
        counter > k - i,
        sigs[k].rdata.len() >= 18,
        be32(sigs[k].rdata, 12) <= now <= be32(sigs[k].rdata, 8),
        sigs[k].rdata[3] <= labels32(name),
        forall|j: int|
            i <= j < k ==> (#[trigger] sigs[j]).rdata.len() < 18 || now < be32(sigs[j].rdata, 12) || now > be32(sigs[j].rdata, 8)
                || sigs[j].rdata[3] > labels32(name),
    ensures
        try_signatures(sorted, sigs, i, name, rrtype, class, now, None, counter).0 == (Outcome::NeedKey {
            signer: signer_of(sigs[k].rdata),
            key_tag: be16(sigs[k].rdata, 16),
        }),
    decreases k - i,
{
    reveal(step_of);
    if i < k {
        assert(sigs[i].rdata.len() < 18 || now < be32(sigs[i].rdata, 12) || now > be32(sigs[i].rdata, 8) || sigs[i].rdata[3] > labels32(
            name,
        ));
        lemma_key_asked(sorted, sigs, i + 1, name, rrtype, class, now, super::basics::dec(counter), k);
    }
}

/// A record at the name that was asked for, with its class and type, is an answer; for an ANY query one of any type is.
pub proof fn law_direct_answer(answer: Seq<RrView>, qname: Seq<char>, qtype: u16, class: u16, i: int)
    requires
        0 <= i < answer.len(),
        norm(answer[i].name) == norm(qname),
        answer[i].class == class,
        answer[i].rtype == qtype || qtype == 255,
    ensures
        resolved(answer, qname, qtype, class) == (norm(qname), true),
{
    assert(answers(answer, norm(qname), qtype, class));
}

/// The first CNAME record at a name tells where it points.
proof fn lemma_first_cname(answer: Seq<RrView>, i: int, target: Seq<char>, class: u16, k: int)
    requires
        0 <= i <= k < answer.len(),
        norm(answer[k].name) == target && answer[k].rtype == 5 && answer[k].class == class,
        forall|j: int|
            i <= j < k ==> !(norm((#[trigger] answer[j]).name) == target && answer[j].rtype == 5 && answer[j].class == class),
    ensures
        cname_target(answer, i, target, class) == (match dotted_name(answer[k].rdata) {
            Ok((next, n)) => Some(norm(next)),
            Err(_) => None,
        }),
    decreases k - i,
{
    if i < k {
        assert(!(norm(answer[i].name) == target && answer[i].rtype == 5 && answer[i].class == class));
        lemma_first_cname(answer, i + 1, target, class, k);
    }
}

/// Without a CNAME record at a name it points nowhere.
proof fn lemma_no_cname(answer: Seq<RrView>, i: int, target: Seq<char>, class: u16)
    requires
        0 <= i,
        forall|j: int|
            i <= j < answer.len() ==> !(norm((#[trigger] answer[j]).name) == target && answer[j].rtype == 5 && answer[j].class == class),
    ensures
        cname_target(answer, i, target, class) is None,
    decreases answer.len() - i,
{
    if i < answer.len() {
        assert(!(norm(answer[i].name) == target && answer[i].rtype == 5 && answer[i].class == class));
        lemma_no_cname(answer, i + 1, target, class);
    }
}

/// Without an answer at a name the first CNAME record there is followed to the name that it holds. Where there is no answer and
/// no CNAME record, the name itself needs an answer.
pub proof fn law_cname_is_followed(answer: Seq<RrView>, target: Seq<char>, qtype: u16, class: u16, hops: nat, k: int)
    requires
        forall|j: int|
            0 <= j < answer.len() ==> !(norm((#[trigger] answer[j]).name) == target && answer[j].class == class && (qtype == 255
                || answer[j].rtype == qtype)),
    ensures
        0 <= k < answer.len() && norm(answer[k].name) == target && answer[k].rtype == 5 && answer[k].class == class && (forall|j: int|
            0 <= j < k ==> !(norm((#[trigger] answer[j]).name) == target && answer[j].rtype == 5 && answer[j].class == class)) && hops
            > 0 ==> (dotted_name(answer[k].rdata) matches Ok((next, n)) ==> chase(answer, target, qtype, class, hops) == chase(
            answer,
            norm(next),
            qtype,
            class,
            (hops - 1) as nat,
        )),
        (forall|j: int|
            0 <= j < answer.len() ==> !(norm((#[trigger] answer[j]).name) == target && answer[j].rtype == 5 && answer[j].class == class))
            ==> chase(answer, target, qtype, class, hops) == (target, false),
{
    assert(!answers(answer, target, qtype, class));
    if 0 <= k < answer.len() && norm(answer[k].name) == target && answer[k].rtype == 5 && answer[k].class == class && (forall|j: int|
        0 <= j < k ==> !(norm((#[trigger] answer[j]).name) == target && answer[j].rtype == 5 && answer[j].class == class)) {
        lemma_first_cname(answer, 0, target, class, k);
    }
    if forall|j: int|
        0 <= j < answer.len() ==> !(norm((#[trigger] answer[j]).name) == target && answer[j].rtype == 5 && answer[j].class == class) {
        lemma_no_cname(answer, 0, target, class);
    }
}

/// The owner that was signed has the labels that the signature counts, from the end of the name, behind a star where the
/// name has more.
pub proof fn law_signed_owner(labels: Seq<Seq<char>>, n: u8)
    requires
        0 < labels.len() < 0x1_0000_0000,
        n <= labels.len(),
        forall|i: int| 0 <= i < labels.len() ==> !(#[trigger] labels[i]).contains('.'),
        labels[0].len() > 0,
    ensures
        labels32(join(labels)) == labels.len(),
        n == labels.len() ==> signed_owner(join(labels), n) == join(labels),
        0 < n < labels.len() ==> split(signed_owner(join(labels), n)) == seq![seq!['*']] + labels.skip(labels.len() - n),
        0 == n ==> signed_owner(join(labels), n) == seq!['*', '.'],
{
    let name = join(labels);
    lemma_split_join(labels);
    lemma_split_dots(name);
    assert(name.len() > 0 && name[0] != '.') by {
        let rest = labels.skip(1);
        if rest.len() > 0 {
            assert(labels =~= seq![labels[0]] + rest);
            lemma_join_front(labels[0], rest);
            assert(name[0] == labels[0][0]);
        } else {
            assert(name == labels[0]);
        }
        assert(!labels[0].contains('.'));
        assert(labels[0].contains(labels[0][0]));
    }
    assert(label_count(name) == labels.len());
    if 0 < n < labels.len() {
        let tail = labels.skip(labels.len() - n);
        let all = seq![seq!['*']] + tail;
        lemma_join_front(seq!['*'], tail);
        assert(seq!['*', '.'] + join(tail) =~= join(all));
        assert forall|i: int| 0 <= i < all.len() implies !(#[trigger] all[i]).contains('.') by {
            if i > 0 {
                assert(all[i] == labels[labels.len() - n + i - 1]);
            } else {
                assert(all[i] =~= seq!['*']);
            }
        }
        lemma_split_join(all);
    } else if n == 0 {
        assert(labels.skip(labels.len() as int) =~= Seq::<Seq<char>>::empty());
        assert(seq!['*', '.'] + join(labels.skip(labels.len() as int)) =~= seq!['*', '.']);
    }
}

/// A reply of a server that failed, which has the code 2, is bogus for that reason; with any other code but those for an answer and
/// for no such name, 0 and 3, and to a query for signatures, it is insecure. Nothing is looked at then.
pub proof fn law_reply_codes(
    answer: Seq<RrView>,
    auth: Seq<RrView>,
    qname: Seq<char>,
    qtype: u16,
    class: u16,
    rcode: u8,
    now: u32,
    cache: DnssecCache,
    counter: i32,
    check_unsigned: bool,
    nons: Option<bool>,
    limit: u32,
)
    ensures
        ({
            let r = reply_status(answer, auth, qname, qtype, class, rcode, now, cache, counter, check_unsigned, nons, limit);
            &&& rcode == 2 ==> r == (Status { code: Code::Bogus, fail: 1 }, nons, counter)
            &&& rcode == 1 || rcode > 3 ==> r == (Status { code: Code::Insecure, fail: 0 }, nons, counter)
            &&& rcode != 2 && qtype == 46 ==> r == (Status { code: Code::Insecure, fail: 0 }, nons, counter)
        }),
{
}

/// A reply without any record is judged by the zone of its name: where that is secure the reply is bogus, for want of a record that
/// denies, and else it has the status of the zone.
pub proof fn law_empty_reply(
    qname: Seq<char>,
    qtype: u16,
    class: u16,
    rcode: u8,
    now: u32,
    cache: DnssecCache,
    counter: i32,
    check_unsigned: bool,
    limit: u32,
)
    requires
        rcode == 0 || rcode == 3,
        qtype != 46,
    ensures
        ({
            let none = Seq::<RrView>::empty();
            let r = reply_status(none, none, qname, qtype, class, rcode, now, cache, counter, check_unsigned, None, limit);
            let zs = zone(cache, norm(qname), class);
            &&& !(zs.code is Secure) ==> r.0 == zs
            &&& zs.code is Secure ==> r.0 == Status { code: Code::Bogus, fail: 0x100 }
            &&& r.2 == counter
        }),
{
    let none = Seq::<RrView>::empty();
    assert(none + none =~= none);
    assert((none + none).len() == 0);
    assert(!answers(none, norm(qname), qtype, class));
    assert(cname_target(none, 0, norm(qname), class) is None);
    assert(resolved(none, qname, qtype, class) == (norm(qname), false));
    assert(0x100u32 & (0x100u32 | 0x80u32) != 0) by (bit_vector);
}

/// A reply that does not answer, and whose records are in order, is as secure as these where its authority section shows that there
/// is nothing to answer. Where it does not, for want of records that deny or for too many iterations, the zone of the name decides,
/// unless that is secure; for any other reason the reply is bogus.
pub proof fn law_reply_that_does_not_answer(
    answer: Seq<RrView>,
    auth: Seq<RrView>,
    qname: Seq<char>,
    qtype: u16,
    class: u16,
    rcode: u8,
    now: u32,
    cache: DnssecCache,
    counter: i32,
    check_unsigned: bool,
    limit: u32,
    insecure: bool,
    left: i32,
)
    requires
        rcode == 0 || rcode == 3,
        qtype != 46,
        !resolved(answer, qname, qtype, class).1,
        super::reply::sets_verdict(answer + auth, answer, 0, now, cache, false, counter, check_unsigned, false) == (
            None::<Status>,
            insecure,
            left,
        ),
    ensures
        ({
            let target = resolved(answer, qname, qtype, class).0;
            let r = reply_status(answer, auth, qname, qtype, class, rcode, now, cache, counter, check_unsigned, None, limit).0;
            let zs = zone(cache, target, class);
            match super::denial::denial(auth, target, qtype, class, 0, true, left, limit).0 {
                Ok(_) => r.code == (if insecure {
                    Code::Insecure
                } else {
                    Code::Secure
                }),
                Err(fail) => {
                    &&& (fail == 0x100 || fail == 0x80) && !(zs.code is Secure) ==> r == zs
                    &&& zs.code is Secure || fail == 0x800 || fail == 0x1000 ==> r == Status { code: Code::Bogus, fail }
                },
            }
        }),
{
    assert(0x100u32 & (0x100u32 | 0x80u32) != 0 && 0x80u32 & (0x100u32 | 0x80u32) != 0 && 0x800u32 & (0x100u32 | 0x80u32) == 0 && 0x1000u32
        & (0x100u32 | 0x80u32) == 0) by (bit_vector);
}

} // verus!
