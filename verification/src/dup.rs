//! Copies that are known to be equal to what was copied.

use crate::dhcp_common::tags::TagIf;
use crate::dhcp_types::{clone_netids, DhcpContext};
use crate::text::views;
use vstd::prelude::*;

verus! {

/// A type whose copies are equal to the original.
pub trait Dup: View + Sized {
    /// A copy.
    fn dup(&self) -> (r: Self)
        ensures
            r@ == self@,
    ;
}

/// The values of items.
pub open spec fn all_views<T: View>(v: Seq<T>) -> Seq<T::V> {
    v.map_values(|x: T| x@)
}

/// Copies a list.
pub fn dup_all<T: Dup>(v: &Vec<T>) -> (r: Vec<T>)
    ensures
        all_views(r@) == all_views(v@),
{
    let mut r: Vec<T> = Vec::new();
    let mut i: usize = 0;
    while i < v.len()
        invariant
            i <= v@.len(),
            r@.len() == i,
            forall|j: int| 0 <= j < i ==> (#[trigger] r@[j])@ == v@[j]@,
        decreases v@.len() - i,
    {
        r.push(v[i].dup());
        i += 1;
    }
    assert(all_views(r@) =~= all_views(v@));
    r
}

/// Copies a list of plain values.
pub fn dup_copies<T: Copy>(v: &Vec<T>) -> (r: Vec<T>)
    ensures
        r@ == v@,
{
    let mut r: Vec<T> = Vec::new();
    let mut i: usize = 0;
    while i < v.len()
        invariant
            i <= v@.len(),
            r@ == v@.take(i as int),
        decreases v@.len() - i,
    {
        assert(v@.take(i + 1) =~= v@.take(i as int).push(v@[i as int]));
        r.push(v[i]);
        i += 1;
    }
    assert(v@.take(v@.len() as int) =~= v@);
    r
}

/// Copies a list of strings.
pub fn dup_strings(v: &Vec<String>) -> (r: Vec<String>)
    ensures
        views(r@) == views(v@),
{
    let mut r: Vec<String> = Vec::new();
    let mut i: usize = 0;
    while i < v.len()
        invariant
            i <= v@.len(),
            r@.len() == i,
            forall|j: int| 0 <= j < i ==> (#[trigger] r@[j])@ == v@[j]@,
        decreases v@.len() - i,
    {
        r.push(v[i].clone());
        i += 1;
    }
    assert(views(r@) =~= views(v@));
    r
}

/// The text that may be missing.
pub open spec fn opt_text(s: Option<String>) -> Option<Seq<char>> {
    match s {
        Some(t) => Some(t@),
        None => None,
    }
}

/// The bytes that may be missing.
pub open spec fn opt_bytes(s: Option<Vec<u8>>) -> Option<Seq<u8>> {
    match s {
        Some(t) => Some(t@),
        None => None,
    }
}

/// Copies a text that may be missing.
pub fn dup_text(s: &Option<String>) -> (r: Option<String>)
    ensures
        opt_text(r) == opt_text(*s),
{
    match s {
        Some(t) => Some(t.clone()),
        None => None,
    }
}

/// Copies bytes that may be missing.
pub fn dup_bytes(s: &Option<Vec<u8>>) -> (r: Option<Vec<u8>>)
    ensures
        opt_bytes(r) == opt_bytes(*s),
{
    match s {
        Some(t) => Some(dup_copies(t)),
        None => None,
    }
}

impl Dup for DhcpContext {
    fn dup(&self) -> (r: Self) {
        self.clone()
    }
}

impl Dup for TagIf {
    fn dup(&self) -> (r: Self) {
        TagIf { tag: clone_netids(&self.tag), set: clone_netids(&self.set) }
    }
}

} // verus!
