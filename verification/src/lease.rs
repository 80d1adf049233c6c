//! The leases of the DHCPv6 server.

use crate::addr::Ip6;
use crate::text::{copy_range, same_bytes};
use vstd::prelude::*;

verus! {

/// The lease is for a non-temporary address.
pub const LEASE_NA: u32 = 32;

/// A lease of an IPv6 address. `expires` is in seconds since the epoch; without it the lease never ends.
#[derive(Debug, Clone)]
pub struct Lease {
    pub addr6: Ip6,
    pub clid: Option<Vec<u8>>,
    pub iaid: u32,
    pub kind: u32,
    pub expires: Option<u64>,
}

/// The value of a lease.
#[verifier::ext_equal]
pub struct LeaseView {
    pub addr6: Ip6,
    pub clid: Option<Seq<u8>>,
    pub iaid: u32,
    pub kind: u32,
    pub expires: Option<u64>,
}

impl View for Lease {
    type V = LeaseView;

    open spec fn view(&self) -> LeaseView {
        LeaseView {
            addr6: self.addr6,
            clid: match self.clid {
                Some(c) => Some(c@),
                None => None,
            },
            iaid: self.iaid,
            kind: self.kind,
            expires: self.expires,
        }
    }
}

/// The leases that are in force.
#[derive(Debug, Clone)]
pub struct LeaseDb {
    pub leases: Vec<Lease>,
}

impl View for LeaseDb {
    type V = Seq<LeaseView>;

    open spec fn view(&self) -> Seq<LeaseView> {
        self.leases@.map_values(|l: Lease| l@)
    }
}

/// The first lease from number `i` on that is for this address.
pub open spec fn at_addr(ls: Seq<LeaseView>, addr: Ip6, i: int) -> Option<int>
    decreases ls.len() - i,
{
    if !(0 <= i < ls.len()) {
        None
    } else if ls[i].addr6 == addr {
        Some(i)
    } else {
        at_addr(ls, addr, i + 1)
    }
}

/// Whether a lease is held by this client under this number.
pub open spec fn held_by(l: LeaseView, clid: Seq<u8>, iaid: u32) -> bool {
    l.clid == Some(clid) && l.iaid == iaid
}

/// The first lease from number `i` on that this client holds under this number.
pub open spec fn of_client(ls: Seq<LeaseView>, clid: Seq<u8>, iaid: u32, i: int) -> Option<int>
    decreases ls.len() - i,
{
    if !(0 <= i < ls.len()) {
        None
    } else if held_by(ls[i], clid, iaid) {
        Some(i)
    } else {
        of_client(ls, clid, iaid, i + 1)
    }
}

/// The first lease from number `i` on of this address that this client holds under this number.
pub open spec fn of_client_at(ls: Seq<LeaseView>, clid: Seq<u8>, iaid: u32, addr: Ip6, i: int) -> Option<int>
    decreases ls.len() - i,
{
    if !(0 <= i < ls.len()) {
        None
    } else if held_by(ls[i], clid, iaid) && ls[i].addr6 == addr {
        Some(i)
    } else {
        of_client_at(ls, clid, iaid, addr, i + 1)
    }
}

/// The leases after an address was bound: its lease is renewed, or a new one is made.
pub open spec fn bound(ls: Seq<LeaseView>, l: LeaseView) -> Seq<LeaseView> {
    match at_addr(ls, l.addr6, 0) {
        Some(i) => ls.update(i, l),
        None => ls.push(l),
    }
}

/// The leases after a client gave back an address.
pub open spec fn given_back(ls: Seq<LeaseView>, clid: Seq<u8>, iaid: u32, addr: Ip6) -> Seq<LeaseView> {
    match of_client_at(ls, clid, iaid, addr, 0) {
        Some(i) => ls.remove(i),
        None => ls,
    }
}

/// Whether no address is leased twice.
pub open spec fn no_addr_twice(ls: Seq<LeaseView>) -> bool {
    forall|i: int, j: int|
        0 <= i < ls.len() && 0 <= j < ls.len() && i != j ==> (#[trigger] ls[i]).addr6 != (#[trigger] ls[j]).addr6
}

/// Where a search for an address ends.
pub proof fn lemma_at_addr(ls: Seq<LeaseView>, addr: Ip6, i: int)
    requires
        0 <= i,
    ensures
        match at_addr(ls, addr, i) {
            Some(k) => i <= k < ls.len() && ls[k].addr6 == addr && forall|j: int|
                i <= j < k ==> (#[trigger] ls[j]).addr6 != addr,
            None => forall|j: int| i <= j < ls.len() ==> (#[trigger] ls[j]).addr6 != addr,
        },
    decreases ls.len() - i,
{
    if i < ls.len() {
        lemma_at_addr(ls, addr, i + 1);
    }
}

/// Where a search for a client's address ends.
pub proof fn lemma_of_client_at(ls: Seq<LeaseView>, clid: Seq<u8>, iaid: u32, addr: Ip6, i: int)
    requires
        0 <= i,
    ensures
        match of_client_at(ls, clid, iaid, addr, i) {
            Some(k) => i <= k < ls.len() && ls[k].addr6 == addr && held_by(ls[k], clid, iaid),
            None => forall|j: int|
                i <= j < ls.len() ==> (#[trigger] ls[j]).addr6 != addr || !held_by(ls[j], clid, iaid),
        },
    decreases ls.len() - i,
{
    if i < ls.len() {
        lemma_of_client_at(ls, clid, iaid, addr, i + 1);
    }
}

/// A lease that was bound is found at its address, the leases of other addresses stay as they are, and no
/// address is leased twice.
pub proof fn law_bind_then_find(ls: Seq<LeaseView>, l: LeaseView, other: Ip6)
    requires
        no_addr_twice(ls),
    ensures
        no_addr_twice(bound(ls, l)),
        at_addr(bound(ls, l), l.addr6, 0) matches Some(i) && bound(ls, l)[i] == l,
        other != l.addr6 ==> at_addr(bound(ls, l), other, 0) == at_addr(ls, other, 0),
        other != l.addr6 ==> (at_addr(ls, other, 0) matches Some(i) ==> bound(ls, l)[i] == ls[i]),
{
    let after = bound(ls, l);
    lemma_at_addr(ls, l.addr6, 0);
    lemma_at_addr(after, l.addr6, 0);
    match at_addr(ls, l.addr6, 0) {
        Some(i) => {
            assert(after[i] == l);
        },
        None => {
            assert(after[ls.len() as int] == l);
        },
    }
    if other != l.addr6 {
        lemma_at_addr(ls, other, 0);
        lemma_at_addr(after, other, 0);
        match at_addr(ls, other, 0) {
            Some(i) => {
                assert(after[i] == ls[i]);
                let k = at_addr(after, other, 0)->0;
                assert(k < ls.len() ==> after[k].addr6 == other);
                assert(ls[k].addr6 == other);
            },
            None => {
                if at_addr(after, other, 0) is Some {
                    let k = at_addr(after, other, 0)->0;
                    assert(after[k].addr6 == other);
                    if k < ls.len() {
                        assert(ls[k].addr6 != other);
                    }
                }
            },
        }
    }
}

/// An address that its client gave back is leased no longer, and every other lease stays.
pub proof fn law_given_back_is_free(ls: Seq<LeaseView>, clid: Seq<u8>, iaid: u32, addr: Ip6)
    requires
        no_addr_twice(ls),
        of_client_at(ls, clid, iaid, addr, 0) is Some,
    ensures
        no_addr_twice(given_back(ls, clid, iaid, addr)),
        at_addr(given_back(ls, clid, iaid, addr), addr, 0) is None,
        forall|i: int|
            0 <= i < ls.len() && (#[trigger] ls[i]).addr6 != addr ==> given_back(ls, clid, iaid, addr).contains(ls[i]),
{
    let after = given_back(ls, clid, iaid, addr);
    lemma_of_client_at(ls, clid, iaid, addr, 0);
    let k = of_client_at(ls, clid, iaid, addr, 0)->0;
    assert forall|j: int| 0 <= j < after.len() implies (#[trigger] after[j]).addr6 != addr by {
        let from = if j < k {
            j
        } else {
            j + 1
        };
        assert(after[j] == ls[from]);
    }
    lemma_at_addr(after, addr, 0);
    assert forall|i: int, j: int| 0 <= i < after.len() && 0 <= j < after.len() && i != j implies (#[trigger] after[i]).addr6
        != (#[trigger] after[j]).addr6 by {
        assert(after[i] == ls[if i < k {
            i
        } else {
            i + 1
        }]);
        assert(after[j] == ls[if j < k {
            j
        } else {
            j + 1
        }]);
    }
    assert forall|i: int| 0 <= i < ls.len() && (#[trigger] ls[i]).addr6 != addr implies after.contains(ls[i]) by {
        if i < k {
            assert(after[i] == ls[i]);
        } else {
            assert(after[i - 1] == ls[i]);
        }
    }
}

/// Whether a lease is held by this client under this number.
fn is_held_by(l: &Lease, clid: &[u8], iaid: u32) -> (r: bool)
    ensures
        r == held_by(l@, clid@, iaid),
{
    match &l.clid {
        Some(c) => same_bytes(c.as_slice(), clid) && l.iaid == iaid,
        None => false,
    }
}

impl LeaseDb {
    /// No leases.
    pub fn new() -> (db: Self)
        ensures
            db@ == Seq::<LeaseView>::empty(),
    {
        let db: LeaseDb = LeaseDb { leases: Vec::new() };
        assert(db@ =~= Seq::<LeaseView>::empty());
        db
    }

    /// How many leases there are.
    pub fn count(&self) -> (n: usize)
        ensures
            n == self@.len(),
    {
        self.leases.len()
    }

    /// The number of the lease of an address.
    fn index_of_addr(&self, addr: &Ip6) -> (r: Option<usize>)
        ensures
            match r {
                Some(i) => i < self@.len() && at_addr(self@, *addr, 0) == Some(i as int),
                None => at_addr(self@, *addr, 0) is None,
            },
    {
        let mut i: usize = 0;
        while i < self.leases.len()
            invariant
                i <= self.leases@.len(),
                at_addr(self@, *addr, 0) == at_addr(self@, *addr, i as int),
            decreases self.leases@.len() - i,
        {
            assert(self@[i as int] == self.leases@[i as int]@);
            if self.leases[i].addr6 == *addr {
                return Some(i);
            }
            i += 1;
        }
        None
    }

    /// Finds the lease of an address.
    pub fn find_v6_by_addr(&self, addr: &Ip6) -> (r: Option<&Lease>)
        ensures
            match at_addr(self@, *addr, 0) {
                Some(i) => r is Some && r->0@ == self@[i],
                None => r is None,
            },
    {
        match self.index_of_addr(addr) {
            Some(i) => Some(&self.leases[i]),
            None => None,
        }
    }

    /// Finds a lease of a client by the client's number for it.
    pub fn find_v6_by_client_iaid(&self, clid: &[u8], iaid: u32) -> (r: Option<&Lease>)
        ensures
            match of_client(self@, clid@, iaid, 0) {
                Some(i) => r is Some && r->0@ == self@[i],
                None => r is None,
            },
    {
        let mut i: usize = 0;
        while i < self.leases.len()
            invariant
                i <= self.leases@.len(),
                of_client(self@, clid@, iaid, 0) == of_client(self@, clid@, iaid, i as int),
            decreases self.leases@.len() - i,
        {
            assert(self@[i as int] == self.leases@[i as int]@);
            if is_held_by(&self.leases[i], clid, iaid) {
                return Some(&self.leases[i]);
            }
            i += 1;
        }
        None
    }

    /// The number of the lease of an address that a client holds.
    fn index_of_client(&self, clid: &[u8], iaid: u32, addr: &Ip6) -> (r: Option<usize>)
        ensures
            match r {
                Some(i) => i < self@.len() && of_client_at(self@, clid@, iaid, *addr, 0) == Some(i as int),
                None => of_client_at(self@, clid@, iaid, *addr, 0) is None,
            },
    {
        let mut i: usize = 0;
        while i < self.leases.len()
            invariant
                i <= self.leases@.len(),
                of_client_at(self@, clid@, iaid, *addr, 0) == of_client_at(self@, clid@, iaid, *addr, i as int),
            decreases self.leases@.len() - i,
        {
            assert(self@[i as int] == self.leases@[i as int]@);
            if is_held_by(&self.leases[i], clid, iaid) && self.leases[i].addr6 == *addr {
                return Some(i);
            }
            i += 1;
        }
        None
    }

    /// Finds the lease of an address that a client holds.
    pub fn find_v6_by_clid_iaid(&self, clid: &[u8], iaid: u32, addr: &Ip6) -> (r: Option<&Lease>)
        ensures
            match of_client_at(self@, clid@, iaid, *addr, 0) {
                Some(i) => r is Some && r->0@ == self@[i],
                None => r is None,
            },
    {
        match self.index_of_client(clid, iaid, addr) {
            Some(i) => Some(&self.leases[i]),
            None => None,
        }
    }

    /// Leases an address to a client: the lease of the address is renewed, or a new one is made.
    pub fn bind_v6(&mut self, addr: Ip6, clid: &[u8], iaid: u32, kind: u32, expires: Option<u64>)
        ensures
            final(self)@ == bound(
                old(self)@,
                LeaseView { addr6: addr, clid: Some(clid@), iaid, kind, expires },
            ),
    {
        let ghost before = self@;
        let l: Lease = Lease { addr6: addr, clid: Some(copy_range(clid, 0, clid.len())), iaid, kind, expires };
        assert(l.clid->0@ =~= clid@);
        let ghost v = l@;
        match self.index_of_addr(&addr) {
            Some(i) => {
                self.leases.set(i, l);
                assert(self@ =~= before.update(i as int, v));
            },
            None => {
                self.leases.push(l);
                assert(self@ =~= before.push(v));
            },
        }
    }

    /// Ends the lease of an address that a client holds, and tells whether there was one.
    pub fn remove_v6_by_clid_iaid_addr(&mut self, clid: &[u8], iaid: u32, addr: &Ip6) -> (r: bool)
        ensures
            r == (of_client_at(old(self)@, clid@, iaid, *addr, 0) is Some),
            final(self)@ == given_back(old(self)@, clid@, iaid, *addr),
    {
        let ghost before = self@;
        match self.index_of_client(clid, iaid, addr) {
            Some(i) => {
                self.leases.remove(i);
                assert(self@ =~= before.remove(i as int));
                true
            },
            None => false,
        }
    }
}

} // verus!
