//! The addresses that host names have by the hosts files.

use crate::addr::Ip4;
use crate::text::{lower, same_ignoring_case};
use vstd::prelude::*;

verus! {

/// A name and its address from a hosts file.
#[derive(Debug, Clone)]
pub struct HostEntry {
    pub name: String,
    pub addr: Ip4,
}

/// The records that were read from hosts files, in the order in which they were read.
#[derive(Debug, Clone)]
pub struct DnsCache {
    pub hosts: Vec<HostEntry>,
}

/// The address of the first record from number `i` on that has this name, in upper or lower case.
pub open spec fn host_addr(hosts: Seq<HostEntry>, name: Seq<char>, i: int) -> Option<Ip4>
    decreases hosts.len() - i,
{
    if !(0 <= i < hosts.len()) {
        None
    } else if lower(hosts[i].name@) == lower(name) {
        Some(hosts[i].addr)
    } else {
        host_addr(hosts, name, i + 1)
    }
}

impl DnsCache {
    /// A cache without records.
    pub fn new() -> (c: Self)
        ensures
            c.hosts@.len() == 0,
    {
        DnsCache { hosts: Vec::new() }
    }

    /// Adds a record from a hosts file.
    pub fn add_host(&mut self, name: &str, addr: Ip4)
        ensures
            final(self).hosts@.len() == old(self).hosts@.len() + 1,
            final(self).hosts@.drop_last() == old(self).hosts@,
            final(self).hosts@.last().name@ == name@,
            final(self).hosts@.last().addr == addr,
    {
        self.hosts.push(HostEntry { name: String::from_str(name), addr });
        assert(self.hosts@.drop_last() =~= old(self).hosts@);
    }
}

/// Finds the address that the hosts files give a name.
pub fn a_record_from_hosts(name: &str, cache: &DnsCache) -> (r: Option<Ip4>)
    ensures
        r == host_addr(cache.hosts@, name@, 0),
{
    let mut i: usize = 0;
    while i < cache.hosts.len()
        invariant
            i <= cache.hosts@.len(),
            host_addr(cache.hosts@, name@, 0) == host_addr(cache.hosts@, name@, i as int),
        decreases cache.hosts@.len() - i,
    {
        if same_ignoring_case(cache.hosts[i].name.as_str(), name) {
            return Some(cache.hosts[i].addr);
        }
        i += 1;
    }
    None
}

} // verus!
