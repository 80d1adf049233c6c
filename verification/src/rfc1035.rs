//! Resource records and the relation between names.

use crate::text::{copy_range, is_suffix, lower, to_lower};
use vstd::prelude::*;

verus! {

/// A resource record with its owner name in dotted form and its data in wire format.
#[derive(Debug)]
pub struct DnsRr {
    pub name: String,
    pub rtype: u16,
    pub class: u16,
    pub ttl: u32,
    pub rdata: Vec<u8>,
}

/// The model of a `DnsRr`.
pub struct RrView {
    pub name: Seq<char>,
    pub rtype: u16,
    pub class: u16,
    pub ttl: u32,
    pub rdata: Seq<u8>,
}

impl View for DnsRr {
    type V = RrView;

    open spec fn view(&self) -> RrView {
        RrView { name: self.name@, rtype: self.rtype, class: self.class, ttl: self.ttl, rdata: self.rdata@ }
    }
}

/// The models of a sequence of records.
pub open spec fn rr_views(v: Seq<DnsRr>) -> Seq<RrView> {
    v.map_values(|r: DnsRr| r@)
}

/// The models of a sequence of borrowed records.
pub open spec fn ref_views(v: Seq<&DnsRr>) -> Seq<RrView> {
    v.map_values(|r: &DnsRr| r@)
}

impl Clone for DnsRr {
    fn clone(&self) -> (r: Self)
        ensures
            r@ == self@,
    {
        let rdata: Vec<u8> = copy_range(self.rdata.as_slice(), 0, self.rdata.len());
        assert(rdata@ =~= self.rdata@);
        DnsRr { name: self.name.clone(), rtype: self.rtype, class: self.class, ttl: self.ttl, rdata }
    }
}

/// Copies borrowed records.
pub fn clone_refs(v: &Vec<&DnsRr>) -> (r: Vec<DnsRr>)
    ensures
        rr_views(r@) == ref_views(v@),
{
    let mut r: Vec<DnsRr> = Vec::new();
    let mut i: usize = 0;
    while i < v.len()
        invariant
            i <= v@.len(),
            rr_views(r@) == ref_views(v@).take(i as int),
        decreases v@.len() - i,
    {
        let c: DnsRr = v[i].clone();
        proof {
            assert(rr_views(r@.push(c)) =~= rr_views(r@).push(c@));
            assert(ref_views(v@).take(i + 1) =~= ref_views(v@).take(i as int).push(v@[i as int]@));
        }
        r.push(c);
        i += 1;
    }
    assert(ref_views(v@).take(v@.len() as int) =~= ref_views(v@));
    r
}

/// Copies a slice of records.
pub fn clone_records(v: &[DnsRr]) -> (r: Vec<DnsRr>)
    ensures
        rr_views(r@) == rr_views(v@),
{
    let mut r: Vec<DnsRr> = Vec::new();
    let mut i: usize = 0;
    while i < v.len()
        invariant
            i <= v@.len(),
            rr_views(r@) == rr_views(v@).take(i as int),
        decreases v@.len() - i,
    {
        let c: DnsRr = v[i].clone();
        proof {
            assert(rr_views(r@.push(c)) =~= rr_views(r@).push(c@));
            assert(rr_views(v@).take(i + 1) =~= rr_views(v@).take(i as int).push(v@[i as int]@));
        }
        r.push(c);
        i += 1;
    }
    assert(rr_views(v@).take(v@.len() as int) =~= rr_views(v@));
    r
}

/// Whether `name` lies strictly below `parent`, ASCII case aside.
pub open spec fn strictly_below(name: Seq<char>, parent: Seq<char>) -> bool {
    parent.len() > 0 && is_suffix(seq!['.'] + lower(parent), lower(name))
}

/// Whether `name` lies strictly below `parent`, ASCII case aside.
pub fn hostname_issubdomain(name: &str, parent: &str) -> (r: bool)
    ensures
        r == strictly_below(name@, parent@),
{
    if parent.is_empty() {
        return false;
    }
    let n: String = to_lower(name);
    let p: String = to_lower(parent);
    let mut tail = String::new();
    tail.push('.');
    tail.append(p.as_str());
    assert(tail@ =~= seq!['.'] + lower(parent@));
    crate::text::ends_with(n.as_str(), tail.as_str())
}

} // verus!
