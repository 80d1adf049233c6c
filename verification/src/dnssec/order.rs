//! Canonical order of record data and of names.

use crate::names::{split, split_labels, trim_dots, trim_end_dots};
use crate::rfc1035::{rr_views, DnsRr, RrView};
use crate::text::{append_bytes, lower, to_lower, views};
use std::cmp::Ordering;
use vstd::prelude::*;
use vstd::utf8::encode_utf8;

verus! {

/// Whether `a` comes before `b` when bytes are compared one by one; a prefix comes first.
pub open spec fn lex_less(a: Seq<u8>, b: Seq<u8>) -> bool
    decreases a.len(),
{
    if b.len() == 0 {
        false
    } else if a.len() == 0 {
        true
    } else if a[0] == b[0] {
        lex_less(a.skip(1), b.skip(1))
    } else {
        a[0] < b[0]
    }
}

/// Whether `a` comes before `b` when items are compared one by one; a prefix comes first.
pub open spec fn list_less(a: Seq<Seq<u8>>, b: Seq<Seq<u8>>) -> bool
    decreases a.len(),
{
    if b.len() == 0 {
        false
    } else if a.len() == 0 {
        true
    } else if a[0] == b[0] {
        list_less(a.skip(1), b.skip(1))
    } else {
        lex_less(a[0], b[0])
    }
}

/// Two byte strings compare as what follows their common prefix.
pub proof fn lemma_lex_skip(a: Seq<u8>, b: Seq<u8>, k: int)
    requires
        0 <= k <= a.len(),
        k <= b.len(),
        forall|j: int| 0 <= j < k ==> a[j] == b[j],
    ensures
        lex_less(a, b) == lex_less(a.skip(k), b.skip(k)),
    decreases k,
{
    if k == 0 {
        assert(a.skip(0) =~= a);
        assert(b.skip(0) =~= b);
    } else {
        lemma_lex_skip(a.skip(1), b.skip(1), k - 1);
        assert(a.skip(1).skip(k - 1) =~= a.skip(k));
        assert(b.skip(1).skip(k - 1) =~= b.skip(k));
    }
}

/// Two lists compare as what follows their common prefix.
pub proof fn lemma_list_skip(a: Seq<Seq<u8>>, b: Seq<Seq<u8>>, k: int)
    requires
        0 <= k <= a.len(),
        k <= b.len(),
        forall|j: int| 0 <= j < k ==> a[j] == b[j],
    ensures
        list_less(a, b) == list_less(a.skip(k), b.skip(k)),
    decreases k,
{
    if k == 0 {
        assert(a.skip(0) =~= a);
        assert(b.skip(0) =~= b);
    } else {
        lemma_list_skip(a.skip(1), b.skip(1), k - 1);
        assert(a.skip(1).skip(k - 1) =~= a.skip(k));
        assert(b.skip(1).skip(k - 1) =~= b.skip(k));
    }
}

/// Of two byte strings exactly one comes first, unless they are equal.
pub proof fn lemma_lex_total(a: Seq<u8>, b: Seq<u8>)
    ensures
        a != b ==> lex_less(a, b) || lex_less(b, a),
        !(lex_less(a, b) && lex_less(b, a)),
        a == b ==> !lex_less(a, b),
    decreases a.len(),
{
    if a.len() == 0 || b.len() == 0 {
        if a.len() == 0 && b.len() == 0 {
            assert(a =~= b);
        }
    } else {
        lemma_lex_total(a.skip(1), b.skip(1));
        if a[0] == b[0] && a.skip(1) == b.skip(1) {
            assert(a =~= seq![a[0]] + a.skip(1));
            assert(b =~= seq![b[0]] + b.skip(1));
        }
    }
}

/// The byte order is transitive.
pub proof fn lemma_lex_transitive(a: Seq<u8>, b: Seq<u8>, c: Seq<u8>)
    requires
        lex_less(a, b),
        lex_less(b, c),
    ensures
        lex_less(a, c),
    decreases a.len(),
{
    if a.len() > 0 && a[0] == b[0] && b[0] == c[0] {
        lemma_lex_transitive(a.skip(1), b.skip(1), c.skip(1));
    }
}

/// Of two lists exactly one comes first, unless they are equal.
pub proof fn lemma_list_total(a: Seq<Seq<u8>>, b: Seq<Seq<u8>>)
    ensures
        a != b ==> list_less(a, b) || list_less(b, a),
        !(list_less(a, b) && list_less(b, a)),
        a == b ==> !list_less(a, b),
    decreases a.len(),
{
    if a.len() == 0 || b.len() == 0 {
        if a.len() == 0 && b.len() == 0 {
            assert(a =~= b);
        }
    } else {
        lemma_lex_total(a[0], b[0]);
        lemma_list_total(a.skip(1), b.skip(1));
        if a[0] == b[0] && a.skip(1) == b.skip(1) {
            assert(a =~= seq![a[0]] + a.skip(1));
            assert(b =~= seq![b[0]] + b.skip(1));
        }
    }
}

/// The order of lists is transitive.
pub proof fn lemma_list_transitive(a: Seq<Seq<u8>>, b: Seq<Seq<u8>>, c: Seq<Seq<u8>>)
    requires
        list_less(a, b),
        list_less(b, c),
    ensures
        list_less(a, c),
    decreases a.len(),
{
    if a.len() > 0 {
        if a[0] == b[0] && b[0] == c[0] {
            lemma_list_transitive(a.skip(1), b.skip(1), c.skip(1));
        } else if a[0] != b[0] && b[0] != c[0] {
            lemma_lex_transitive(a[0], b[0], c[0]);
            lemma_lex_total(a[0], c[0]);
        }
    }
}

/// Where one value stands to another in an order.
#[derive(Debug, Clone, Copy, PartialEq, Eq, Structural)]
pub enum Rank {
    Before,
    Same,
    After,
}

/// Compares two byte strings.
pub fn order_bytes(a: &[u8], b: &[u8]) -> (r: Rank)
    ensures
        r == Rank::Before <==> lex_less(a@, b@),
        r == Rank::Same <==> a@ == b@,
        r == Rank::After <==> lex_less(b@, a@),
{
    proof {
        lemma_lex_total(a@, b@);
    }
    let mut i: usize = 0;
    while i < a.len() && i < b.len()
        invariant
            i <= a@.len(),
            i <= b@.len(),
            forall|j: int| 0 <= j < i ==> a@[j] == b@[j],
            a@ != b@ ==> lex_less(a@, b@) || lex_less(b@, a@),
            !(lex_less(a@, b@) && lex_less(b@, a@)),
            a@ == b@ ==> !lex_less(a@, b@),
        decreases a@.len() - i,
    {
        if a[i] != b[i] {
            proof {
                lemma_lex_skip(a@, b@, i as int);
                assert(a@[i as int] != b@[i as int]);
            }
            if a[i] < b[i] {
                return Rank::Before;
            } else {
                return Rank::After;
            }
        }
        i += 1;
    }
    proof {
        lemma_lex_skip(a@, b@, i as int);
        lemma_lex_skip(b@, a@, i as int);
    }
    if a.len() < b.len() {
        Rank::Before
    } else if a.len() > b.len() {
        Rank::After
    } else {
        assert(a@ =~= b@);
        Rank::Same
    }
}

/// `r` put into `sorted` by its data; data that is there already is not put in again.
pub open spec fn put_rr(sorted: Seq<RrView>, r: RrView) -> Seq<RrView>
    decreases sorted.len(),
{
    if sorted.len() == 0 {
        seq![r]
    } else if sorted[0].rdata == r.rdata {
        sorted
    } else if lex_less(r.rdata, sorted[0].rdata) {
        seq![r] + sorted
    } else {
        seq![sorted[0]] + put_rr(sorted.skip(1), r)
    }
}

/// The records of `s` in canonical order, the first one of each data.
pub open spec fn canonical_set(s: Seq<RrView>) -> Seq<RrView>
    decreases s.len(),
{
    if s.len() == 0 {
        seq![]
    } else {
        put_rr(canonical_set(s.drop_last()), s.last())
    }
}

/// Whether the data of `s` strictly ascends.
pub open spec fn ascending(s: Seq<RrView>) -> bool {
    forall|i: int, j: int| 0 <= i < j < s.len() ==> lex_less((#[trigger] s[i]).rdata, (#[trigger] s[j]).rdata)
}

/// Whether `k` is the first position of `s` with its data.
pub open spec fn is_first(s: Seq<RrView>, k: int) -> bool {
    0 <= k < s.len() && forall|j: int| 0 <= j < k ==> (#[trigger] s[j]).rdata != s[k].rdata
}

/// Whether `x` is the first record of `s` with its data.
pub open spec fn comes_first(s: Seq<RrView>, x: RrView) -> bool {
    exists|k: int| #[trigger] is_first(s, k) && s[k] == x
}

/// Whether some record of `s` has the data `d`.
pub open spec fn has_data(s: Seq<RrView>, d: Seq<u8>) -> bool {
    exists|i: int| 0 <= i < s.len() && (#[trigger] s[i]).rdata == d
}

/// Whether `out` holds the first record of each data in `s`, and no other.
pub open spec fn holds_firsts(out: Seq<RrView>, s: Seq<RrView>) -> bool {
    &&& forall|i: int| 0 <= i < out.len() ==> #[trigger] comes_first(s, out[i])
    &&& forall|k: int| 0 <= k < s.len() ==> #[trigger] has_data(out, s[k].rdata)
}

/// Where a record is put into an ascending sequence.
proof fn lemma_put_at(s: Seq<RrView>, r: RrView, p: int)
    requires
        0 <= p <= s.len(),
        forall|i: int| 0 <= i < p ==> lex_less((#[trigger] s[i]).rdata, r.rdata),
        p < s.len() ==> !lex_less(s[p].rdata, r.rdata),
    ensures
        put_rr(s, r) == if p < s.len() && s[p].rdata == r.rdata {
            s
        } else {
            s.insert(p, r)
        },
    decreases p,
{
    if p == 0 {
        if s.len() > 0 {
            lemma_lex_total(s[0].rdata, r.rdata);
        }
        assert(seq![r] + s =~= s.insert(0, r));
    } else {
        lemma_lex_total(s[0].rdata, r.rdata);
        assert forall|i: int| 0 <= i < p - 1 implies lex_less((#[trigger] s.skip(1)[i]).rdata, r.rdata) by {
            assert(s.skip(1)[i] == s[i + 1]);
        }
        lemma_put_at(s.skip(1), r, p - 1);
        assert(seq![s[0]] + s.skip(1) =~= s);
        assert(seq![s[0]] + s.skip(1).insert(p - 1, r) =~= s.insert(p, r));
    }
}

/// There is a place for every record in an ascending sequence.
proof fn lemma_place(s: Seq<RrView>, r: RrView) -> (p: int)
    requires
        ascending(s),
    ensures
        0 <= p <= s.len(),
        forall|i: int| 0 <= i < p ==> lex_less((#[trigger] s[i]).rdata, r.rdata),
        p < s.len() ==> !lex_less(s[p].rdata, r.rdata),
    decreases s.len(),
{
    if s.len() == 0 {
        0
    } else if lex_less(s.last().rdata, r.rdata) {
        assert forall|i: int| 0 <= i < s.len() implies lex_less((#[trigger] s[i]).rdata, r.rdata) by {
            if i < s.len() - 1 {
                lemma_lex_transitive(s[i].rdata, s.last().rdata, r.rdata);
            }
        }
        s.len() as int
    } else {
        let d = s.drop_last();
        assert forall|i: int, j: int| 0 <= i < j < d.len() implies lex_less((#[trigger] d[i]).rdata, (#[trigger] d[j]).rdata) by {
            assert(d[i] == s[i] && d[j] == s[j]);
        }
        let p = lemma_place(d, r);
        assert forall|i: int| 0 <= i < p implies lex_less((#[trigger] s[i]).rdata, r.rdata) by {
            assert(s[i] == d[i]);
        }
        p
    }
}

/// Whether `p` is the place of `r` in `s`.
spec fn is_place(s: Seq<RrView>, r: RrView, p: int) -> bool {
    &&& 0 <= p <= s.len()
    &&& forall|i: int| 0 <= i < p ==> lex_less((#[trigger] s[i]).rdata, r.rdata)
    &&& p < s.len() ==> !lex_less(s[p].rdata, r.rdata)
}

/// New data put in its place keeps a sequence ascending.
proof fn lemma_put_ascending(s: Seq<RrView>, r: RrView, p: int)
    requires
        ascending(s),
        is_place(s, r, p),
        p < s.len() ==> s[p].rdata != r.rdata,
    ensures
        ascending(s.insert(p, r)),
{
    let out = s.insert(p, r);
    if p < s.len() {
        lemma_lex_total(s[p].rdata, r.rdata);
    }
    assert forall|i: int, j: int| 0 <= i < j < out.len() implies lex_less(
        (#[trigger] out[i]).rdata,
        (#[trigger] out[j]).rdata,
    ) by {
        if j < p {
            assert(out[i] == s[i] && out[j] == s[j]);
        } else if j == p {
            assert(out[i] == s[i]);
        } else if i < p {
            assert(out[i] == s[i] && out[j] == s[j - 1]);
        } else if i == p {
            assert(out[j] == s[j - 1]);
            if j - 1 > p {
                lemma_lex_transitive(r.rdata, s[p].rdata, s[j - 1].rdata);
            }
        } else {
            assert(out[i] == s[i - 1] && out[j] == s[j - 1]);
        }
    }
}

/// Data that has no place taken in an ascending sequence does not occur in it.
proof fn lemma_absent(s: Seq<RrView>, r: RrView, p: int, q: int)
    requires
        ascending(s),
        is_place(s, r, p),
        p < s.len() ==> s[p].rdata != r.rdata,
        0 <= q < s.len(),
    ensures
        s[q].rdata != r.rdata,
{
    if q < p {
        lemma_lex_total(s[q].rdata, r.rdata);
    } else if q > p {
        lemma_lex_total(s[p].rdata, r.rdata);
        lemma_lex_transitive(r.rdata, s[p].rdata, s[q].rdata);
        lemma_lex_total(r.rdata, s[q].rdata);
    }
}

/// A first position stays one when a record is added behind.
proof fn lemma_first_push(d: Seq<RrView>, r: RrView, k: int)
    requires
        is_first(d, k),
    ensures
        is_first(d.push(r), k),
{
    let s = d.push(r);
    assert forall|j: int| 0 <= j < k implies (#[trigger] s[j]).rdata != s[k].rdata by {
        assert(d[j].rdata != d[k].rdata);
    }
}

/// Adding a record whose data is there already.
proof fn lemma_firsts_present(old_set: Seq<RrView>, d: Seq<RrView>, r: RrView, p: int)
    requires
        holds_firsts(old_set, d),
        0 <= p < old_set.len(),
        old_set[p].rdata == r.rdata,
    ensures
        holds_firsts(old_set, d.push(r)),
{
    let s = d.push(r);
    assert forall|i: int| 0 <= i < old_set.len() implies #[trigger] comes_first(s, old_set[i]) by {
        assert(comes_first(d, old_set[i]));
        let k = choose|k: int| #[trigger] is_first(d, k) && d[k] == old_set[i];
        lemma_first_push(d, r, k);
        assert(is_first(s, k) && s[k] == old_set[i]);
    }
    assert forall|k: int| 0 <= k < s.len() implies #[trigger] has_data(old_set, s[k].rdata) by {
        if k < d.len() {
            assert(has_data(old_set, d[k].rdata));
        } else {
            assert(old_set[p].rdata == s[k].rdata);
        }
    }
}

/// Adding a record with new data.
proof fn lemma_firsts_new(old_set: Seq<RrView>, d: Seq<RrView>, r: RrView, p: int)
    requires
        ascending(old_set),
        holds_firsts(old_set, d),
        is_place(old_set, r, p),
        p < old_set.len() ==> old_set[p].rdata != r.rdata,
    ensures
        holds_firsts(old_set.insert(p, r), d.push(r)),
{
    let s = d.push(r);
    let out = old_set.insert(p, r);
    assert forall|i: int| 0 <= i < out.len() implies #[trigger] comes_first(s, out[i]) by {
        if i != p {
            let o = if i < p {
                i
            } else {
                i - 1
            };
            assert(out[i] == old_set[o]);
            assert(comes_first(d, old_set[o]));
            let k = choose|k: int| #[trigger] is_first(d, k) && d[k] == old_set[o];
            lemma_first_push(d, r, k);
            assert(is_first(s, k) && s[k] == out[i]);
        } else {
            let k = d.len() as int;
            assert forall|j: int| 0 <= j < k implies (#[trigger] s[j]).rdata != s[k].rdata by {
                assert(s[j] == d[j]);
                assert(has_data(old_set, d[j].rdata));
                let q = choose|q: int| 0 <= q < old_set.len() && (#[trigger] old_set[q]).rdata == d[j].rdata;
                lemma_absent(old_set, r, p, q);
            }
            assert(is_first(s, k) && s[k] == out[i]);
        }
    }
    assert forall|k: int| 0 <= k < s.len() implies #[trigger] has_data(out, s[k].rdata) by {
        if k < d.len() {
            assert(has_data(old_set, d[k].rdata));
            let q = choose|q: int| 0 <= q < old_set.len() && (#[trigger] old_set[q]).rdata == d[k].rdata;
            let i = if q < p {
                q
            } else {
                q + 1
            };
            assert(out[i] == old_set[q]);
        } else {
            assert(out[p].rdata == s[k].rdata);
        }
    }
}

/// The canonical set of records ascends strictly and holds the first record of each data, and no
/// other: this determines it.
pub proof fn law_canonical_set(s: Seq<RrView>)
    ensures
        ascending(canonical_set(s)),
        holds_firsts(canonical_set(s), s),
    decreases s.len(),
{
    if s.len() > 0 {
        let d = s.drop_last();
        let r = s.last();
        let old_set = canonical_set(d);
        law_canonical_set(d);
        let p = lemma_place(old_set, r);
        lemma_put_at(old_set, r, p);
        assert(d.push(r) =~= s);
        if p < old_set.len() && old_set[p].rdata == r.rdata {
            lemma_firsts_present(old_set, d, r, p);
        } else {
            lemma_put_ascending(old_set, r, p);
            lemma_firsts_new(old_set, d, r, p);
        }
    }
}

/// Sorts the records of a set into canonical order (RFC 4034, section 6.3) and drops all but the
/// first record of each data.
pub fn sort_rrset(rrset: &mut Vec<DnsRr>)
    ensures
        rr_views(final(rrset)@) == canonical_set(rr_views(old(rrset)@)),
        ascending(rr_views(final(rrset)@)),
        holds_firsts(rr_views(final(rrset)@), rr_views(old(rrset)@)),
{
    let ghost all = rr_views(rrset@);
    let mut out: Vec<DnsRr> = Vec::new();
    let mut i: usize = 0;
    assert(all.take(0) =~= Seq::<RrView>::empty());
    assert(rr_views(out@) =~= Seq::<RrView>::empty());
    while i < rrset.len()
        invariant
            i <= rrset@.len(),
            all == rr_views(rrset@),
            rr_views(out@) == canonical_set(all.take(i as int)),
        decreases rrset@.len() - i,
    {
        let ghost sorted = rr_views(out@);
        let rr: &DnsRr = &rrset[i];
        let mut p: usize = 0;
        let mut found: bool = false;
        let mut stop: bool = false;
        proof {
            law_canonical_set(all.take(i as int));
            assert(all.take(i + 1).drop_last() =~= all.take(i as int));
            assert(all.take(i + 1).last() == rr@);
        }
        while p < out.len() && !stop
            invariant
                p <= out@.len(),
                sorted == rr_views(out@),
                forall|j: int| 0 <= j < p ==> lex_less((#[trigger] sorted[j]).rdata, rr@.rdata),
                stop ==> p < out@.len() && !lex_less(sorted[p as int].rdata, rr@.rdata),
                found == (stop && sorted[p as int].rdata == rr@.rdata),
            decreases out@.len() - p, if stop { 0int } else { 1int },
        {
            assert(sorted[p as int].rdata == out@[p as int].rdata@);
            match order_bytes(out[p].rdata.as_slice(), rr.rdata.as_slice()) {
                Rank::Before => {
                    p += 1;
                },
                Rank::Same => {
                    stop = true;
                    found = true;
                    proof {
                        lemma_lex_total(sorted[p as int].rdata, rr@.rdata);
                    }
                },
                Rank::After => {
                    stop = true;
                    proof {
                        lemma_lex_total(sorted[p as int].rdata, rr@.rdata);
                    }
                },
            }
        }
        proof {
            lemma_put_at(sorted, rr@, p as int);
        }
        if !found {
            let c: DnsRr = rr.clone();
            proof {
                assert(rr_views(out@.insert(p as int, c)) =~= sorted.insert(p as int, rr@));
            }
            out.insert(p, c);
        }
        i += 1;
    }
    proof {
        assert(all.take(all.len() as int) =~= all);
        law_canonical_set(all);
    }
    *rrset = out;
}

/// The labels of a name from the last to the first, in lower case, as bytes: what names are ordered
/// by.
pub open spec fn name_key(name: Seq<char>) -> Seq<Seq<u8>> {
    let parts = split(trim_dots(name));
    Seq::new(parts.len(), |i: int| encode_utf8(lower(parts[parts.len() - 1 - i])))
}

/// One label in lower case, as bytes.
fn label_key(label: &str) -> (r: Vec<u8>)
    ensures
        r@ == encode_utf8(lower(label@)),
{
    let low: String = to_lower(label);
    let mut v: Vec<u8> = Vec::new();
    append_bytes(&mut v, low.as_str().as_bytes());
    v
}

/// Where `a` stands to `b` in canonical order.
pub fn order_names(a: &str, b: &str) -> (r: Rank)
    ensures
        r == Rank::Before <==> list_less(name_key(a@), name_key(b@)),
        r == Rank::Same <==> name_key(a@) == name_key(b@),
        r == Rank::After <==> list_less(name_key(b@), name_key(a@)),
{
    let ta: String = trim_end_dots(a);
    let tb: String = trim_end_dots(b);
    let pa: Vec<String> = split_labels(ta.as_str());
    let pb: Vec<String> = split_labels(tb.as_str());
    let ghost ka = name_key(a@);
    let ghost kb = name_key(b@);
    let mut k: usize = 0;
    proof {
        lemma_list_total(ka, kb);
    }
    while k < pa.len() && k < pb.len()
        invariant
            k <= pa@.len(),
            k <= pb@.len(),
            ka == name_key(a@),
            kb == name_key(b@),
            views(pa@) == split(trim_dots(a@)),
            views(pb@) == split(trim_dots(b@)),
            forall|j: int| 0 <= j < k ==> ka[j] == kb[j],
            ka != kb ==> list_less(ka, kb) || list_less(kb, ka),
            !(list_less(ka, kb) && list_less(kb, ka)),
            ka == kb ==> !list_less(ka, kb),
        decreases pa@.len() - k,
    {
        let la: Vec<u8> = label_key(pa[pa.len() - 1 - k].as_str());
        let lb: Vec<u8> = label_key(pb[pb.len() - 1 - k].as_str());
        proof {
            assert(views(pa@)[pa@.len() - 1 - k] == pa@[pa@.len() - 1 - k]@);
            assert(views(pb@)[pb@.len() - 1 - k] == pb@[pb@.len() - 1 - k]@);
            assert(ka[k as int] == la@);
            assert(kb[k as int] == lb@);
            lemma_list_skip(ka, kb, k as int);
            lemma_list_skip(kb, ka, k as int);
            lemma_lex_total(la@, lb@);
        }
        match order_bytes(la.as_slice(), lb.as_slice()) {
            Rank::Before => {
                return Rank::Before;
            },
            Rank::After => {
                return Rank::After;
            },
            Rank::Same => {},
        }
        k += 1;
    }
    proof {
        lemma_list_skip(ka, kb, k as int);
        lemma_list_skip(kb, ka, k as int);
    }
    if pa.len() < pb.len() {
        Rank::Before
    } else if pa.len() > pb.len() {
        Rank::After
    } else {
        assert(ka =~= kb);
        Rank::Same
    }
}

/// Compares two names in canonical order (RFC 4034, section 6.1): label by label from the right,
/// ASCII case aside.
pub fn hostname_cmp(a: &str, b: &str) -> (r: Ordering)
    ensures
        r == Ordering::Less <==> list_less(name_key(a@), name_key(b@)),
        r == Ordering::Equal <==> name_key(a@) == name_key(b@),
        r == Ordering::Greater <==> list_less(name_key(b@), name_key(a@)),
{
    match order_names(a, b) {
        Rank::Before => Ordering::Less,
        Rank::Same => Ordering::Equal,
        Rank::After => Ordering::Greater,
    }
}

/// The order of names is a strict order on their keys: of two names whose keys differ exactly one
/// comes first, and the order is transitive.
pub proof fn law_name_order(a: Seq<char>, b: Seq<char>, c: Seq<char>)
    ensures
        name_key(a) != name_key(b) ==> list_less(name_key(a), name_key(b)) != list_less(name_key(b), name_key(a)),
        !list_less(name_key(a), name_key(a)),
        list_less(name_key(a), name_key(b)) && list_less(name_key(b), name_key(c)) ==> list_less(
            name_key(a),
            name_key(c),
        ),
{
    lemma_list_total(name_key(a), name_key(b));
    lemma_list_total(name_key(a), name_key(a));
    if list_less(name_key(a), name_key(b)) && list_less(name_key(b), name_key(c)) {
        lemma_list_transitive(name_key(a), name_key(b), name_key(c));
    }
}

} // verus!
