//! The configuration that the DHCP code works on: tags, address ranges, hosts, options and relays.

use crate::addr::{AllAddr, Ip4, Ip6};
use crate::text::same;
use vstd::prelude::*;

verus! {

/// A network tag.
#[derive(Debug)]
pub struct DhcpNetid {
    pub net: String,
}

impl View for DhcpNetid {
    type V = Seq<char>;

    open spec fn view(&self) -> Seq<char> {
        self.net@
    }
}

impl Clone for DhcpNetid {
    fn clone(&self) -> (r: Self)
        ensures
            r@ == self@,
    {
        DhcpNetid { net: self.net.clone() }
    }
}

/// The names of tags.
pub open spec fn nets(v: Seq<DhcpNetid>) -> Seq<Seq<char>> {
    v.map_values(|n: DhcpNetid| n@)
}

/// Copies a list of tags.
pub fn clone_netids(v: &Vec<DhcpNetid>) -> (r: Vec<DhcpNetid>)
    ensures
        nets(r@) == nets(v@),
{
    let mut r: Vec<DhcpNetid> = Vec::new();
    let mut i: usize = 0;
    while i < v.len()
        invariant
            i <= v@.len(),
            r@.len() == i,
            forall|j: int| 0 <= j < i ==> (#[trigger] r@[j])@ == v@[j]@,
        decreases v@.len() - i,
    {
        r.push(v[i].clone());
        i += 1;
    }
    assert(nets(r@) =~= nets(v@));
    r
}

/// Whether a list of tags holds a name.
pub fn has_tag(list: &[DhcpNetid], name: &str) -> (r: bool)
    ensures
        r == nets(list@).contains(name@),
{
    let mut i: usize = 0;
    while i < list.len()
        invariant
            i <= list@.len(),
            forall|j: int| 0 <= j < i ==> nets(list@)[j] != name@,
        decreases list@.len() - i,
    {
        if same(list[i].net.as_str(), name) {
            assert(nets(list@)[i as int] == name@);
            return true;
        }
        i += 1;
    }
    false
}

/// What is known of an address range.
#[derive(Debug, Clone, Copy, PartialEq, Eq, Structural)]
pub struct ContextFlags {
    /// Only hosts with an address of their own are served.
    pub static_only: bool,
    pub proxy: bool,
    pub dhcp: bool,
    pub deprecate: bool,
    /// The range is a pattern for ranges to come.
    pub template: bool,
    /// The range was made from a pattern.
    pub constructed: bool,
    /// The interface of the range is gone.
    pub old: bool,
    pub ra: bool,
    pub ra_name: bool,
    pub ra_stateless: bool,
    pub used: bool,
}

impl ContextFlags {
    /// No flag at all.
    pub fn empty() -> (r: Self)
        ensures
            r == (ContextFlags {
                static_only: false,
                proxy: false,
                dhcp: false,
                deprecate: false,
                template: false,
                constructed: false,
                old: false,
                ra: false,
                ra_name: false,
                ra_stateless: false,
                used: false,
            }),
    {
        ContextFlags {
            static_only: false,
            proxy: false,
            dhcp: false,
            deprecate: false,
            template: false,
            constructed: false,
            old: false,
            ra: false,
            ra_name: false,
            ra_stateless: false,
            used: false,
        }
    }
}

/// An address range that is served, of either family.
#[derive(Debug)]
pub struct DhcpContext {
    pub lease_time: u32,
    pub addr_epoch: u32,
    pub netmask: Ip4,
    pub broadcast: Ip4,
    pub local: Ip4,
    pub router: Ip4,
    pub start: Ip4,
    pub end: Ip4,
    pub flags: ContextFlags,
    pub netid: DhcpNetid,
    pub filter: Vec<DhcpNetid>,
    pub start6: Ip6,
    pub end6: Ip6,
    pub local6: Ip6,
    pub prefix: i32,
    pub if_index: i32,
    pub valid: u32,
    pub preferred: u32,
    pub ra_time: u64,
    pub ra_short_period_start: u64,
    pub saved_valid: u32,
    pub address_lost_time: u64,
}

/// The value of an address range.
#[verifier::ext_equal]
pub struct ContextView {
    pub lease_time: u32,
    pub addr_epoch: u32,
    pub netmask: Ip4,
    pub broadcast: Ip4,
    pub local: Ip4,
    pub router: Ip4,
    pub start: Ip4,
    pub end: Ip4,
    pub flags: ContextFlags,
    pub netid: Seq<char>,
    pub filter: Seq<Seq<char>>,
    pub start6: Ip6,
    pub end6: Ip6,
    pub local6: Ip6,
    pub prefix: i32,
    pub if_index: i32,
    pub valid: u32,
    pub preferred: u32,
    pub ra_time: u64,
    pub ra_short_period_start: u64,
    pub saved_valid: u32,
    pub address_lost_time: u64,
}

impl View for DhcpContext {
    type V = ContextView;

    open spec fn view(&self) -> ContextView {
        ContextView {
            lease_time: self.lease_time,
            addr_epoch: self.addr_epoch,
            netmask: self.netmask,
            broadcast: self.broadcast,
            local: self.local,
            router: self.router,
            start: self.start,
            end: self.end,
            flags: self.flags,
            netid: self.netid@,
            filter: nets(self.filter@),
            start6: self.start6,
            end6: self.end6,
            local6: self.local6,
            prefix: self.prefix,
            if_index: self.if_index,
            valid: self.valid,
            preferred: self.preferred,
            ra_time: self.ra_time,
            ra_short_period_start: self.ra_short_period_start,
            saved_valid: self.saved_valid,
            address_lost_time: self.address_lost_time,
        }
    }
}

impl Clone for DhcpContext {
    fn clone(&self) -> (r: Self)
        ensures
            r@ == self@,
    {
        DhcpContext {
            lease_time: self.lease_time,
            addr_epoch: self.addr_epoch,
            netmask: self.netmask,
            broadcast: self.broadcast,
            local: self.local,
            router: self.router,
            start: self.start,
            end: self.end,
            flags: self.flags,
            netid: self.netid.clone(),
            filter: clone_netids(&self.filter),
            start6: self.start6,
            end6: self.end6,
            local6: self.local6,
            prefix: self.prefix,
            if_index: self.if_index,
            valid: self.valid,
            preferred: self.preferred,
            ra_time: self.ra_time,
            ra_short_period_start: self.ra_short_period_start,
            saved_valid: self.saved_valid,
            address_lost_time: self.address_lost_time,
        }
    }
}

/// The values of address ranges.
pub open spec fn context_views(v: Seq<DhcpContext>) -> Seq<ContextView> {
    v.map_values(|c: DhcpContext| c@)
}

/// What is known of a configured host.
#[derive(Debug, Clone, Copy, PartialEq, Eq, Structural)]
pub struct ConfigFlags {
    /// The host has an IPv4 address.
    pub addr: bool,
    /// That address came from the hosts file.
    pub addr_hosts: bool,
    pub name: bool,
    pub clid: bool,
    pub addr6: bool,
}

impl ConfigFlags {
    /// No flag at all.
    pub fn empty() -> (r: Self)
        ensures
            r == (ConfigFlags { addr: false, addr_hosts: false, name: false, clid: false, addr6: false }),
    {
        ConfigFlags { addr: false, addr_hosts: false, name: false, clid: false, addr6: false }
    }
}

/// A hardware address of a configured host. A bit of `wildcard_mask` stands for a byte that may be
/// anything, the lowest for the last byte.
#[derive(Debug, Clone, Copy)]
pub struct HwaddrConfig {
    pub hwaddr: [u8; 16],
    pub hwaddr_len: i32,
    pub hwaddr_type: i32,
    pub wildcard_mask: u32,
}

impl HwaddrConfig {
    /// The length does not exceed the room for the address.
    pub open spec fn wf(self) -> bool {
        self.hwaddr_len <= 16
    }
}

/// An IPv6 address of a configured host.
#[derive(Debug, Clone, Copy)]
pub struct AddrList {
    pub addr: AllAddr,
    pub prefixlen: i32,
}

/// A configured host.
#[derive(Debug, Clone)]
pub struct DhcpConfig {
    pub flags: ConfigFlags,
    pub clid: Option<Vec<u8>>,
    pub hostname: Option<String>,
    pub domain: Option<String>,
    pub netid: Vec<DhcpNetid>,
    pub filter: Vec<DhcpNetid>,
    pub addr: Ip4,
    pub decline_time: Option<u64>,
    pub lease_time: u32,
    pub hwaddrs: Vec<HwaddrConfig>,
    pub addr6: Vec<AddrList>,
}

impl DhcpConfig {
    /// Every hardware address fits its room.
    pub open spec fn wf(self) -> bool {
        forall|i: int| 0 <= i < self.hwaddrs@.len() ==> (#[trigger] self.hwaddrs@[i]).wf()
    }
}

/// How the value of an option was given and what it is for.
#[derive(Debug, Clone, Copy, PartialEq, Eq, Structural)]
pub struct DhOptFlags {
    pub hex: bool,
    pub string: bool,
    pub encapsulate: bool,
    pub vendor: bool,
    pub rfc3925: bool,
    pub pxe_opt: bool,
    /// The option is to be sent.
    pub tagok: bool,
}

impl DhOptFlags {
    /// No flag at all.
    pub fn empty() -> (r: Self)
        ensures
            r == (DhOptFlags {
                hex: false,
                string: false,
                encapsulate: false,
                vendor: false,
                rfc3925: false,
                pxe_opt: false,
                tagok: false,
            }),
    {
        DhOptFlags {
            hex: false,
            string: false,
            encapsulate: false,
            vendor: false,
            rfc3925: false,
            pxe_opt: false,
            tagok: false,
        }
    }
}

/// A configured option.
#[derive(Debug, Clone)]
pub struct DhcpOpt {
    pub opt: i32,
    pub flags: DhOptFlags,
    pub val: Option<Vec<u8>>,
    pub netid: Vec<DhcpNetid>,
    pub encap: i32,
    pub vendor_class: Option<Vec<u8>>,
}

/// A relay of DHCP packets to another server.
#[derive(Debug, Clone)]
pub struct DhcpRelay {
    pub local_addr: AllAddr,
    pub server_addr: AllAddr,
    pub uplink_addr: AllAddr,
    pub interface: Option<String>,
    pub iface_index: i32,
    pub port: i32,
    pub split_mode: i32,
    pub warned: i32,
    pub matchcount: i32,
}

/// A chain of network tags.
#[derive(Debug)]
pub struct DhcpNetId {
    pub net: String,
    pub next: Option<Box<DhcpNetId>>,
}

/// A chain of chains of network tags.
#[derive(Debug)]
pub struct DhcpNetIdList {
    pub list: Option<Box<DhcpNetId>>,
    pub next: Option<Box<DhcpNetIdList>>,
}

/// A vendor class that marks a PXE client.
#[derive(Debug)]
pub struct DhcpPxeVendor {
    pub data: String,
    pub next: Option<Box<DhcpPxeVendor>>,
}

/// An interface and the interfaces that are bridged to it.
#[derive(Debug)]
pub struct DhcpBridge {
    pub iface: [u8; 16],
    pub alias: Option<Box<DhcpBridge>>,
    pub next: Option<Box<DhcpBridge>>,
}

/// A hardware address that sets a tag.
#[derive(Debug)]
pub struct DhcpMac {
    pub mask: u32,
    pub hwaddr_len: i32,
    pub hwaddr_type: i32,
    pub hwaddr: [u8; 16],
    pub netid: DhcpNetId,
    pub next: Option<Box<DhcpMac>>,
}

/// A host name that sets a tag.
#[derive(Debug)]
pub struct DhcpMatchName {
    pub name: String,
    pub wildcard: i32,
    pub netid: Option<Box<DhcpNetId>>,
    pub next: Option<Box<DhcpMatchName>>,
}

/// What a client boots from.
#[derive(Debug)]
pub struct DhcpBoot {
    pub file: String,
    pub sname: String,
    pub tftp_sname: String,
    pub next_server: Ip4,
    pub netid: Option<Box<DhcpNetId>>,
    pub next: Option<Box<DhcpBoot>>,
}

/// An autoconfigured address that belongs to a lease; a `backoff` of zero means that it was confirmed.
#[derive(Debug)]
pub struct SlaacAddress {
    pub addr: Ip6,
    pub ping_time: u64,
    pub backoff: i32,
    pub next: Option<Box<SlaacAddress>>,
}

/// A lease with all that is kept of its client. Times are in seconds since the epoch.
#[derive(Debug)]
pub struct DhcpLease {
    pub clid_len: i32,
    pub clid: Vec<u8>,
    pub hostname: String,
    pub fqdn: String,
    pub old_hostname: String,
    pub flags: i32,
    pub expires: u64,
    pub length: u32,
    pub hwaddr_len: i32,
    pub hwaddr_type: i32,
    pub hwaddr: [u8; 16],
    pub addr: Ip4,
    pub override_addr: Ip4,
    pub giaddr: Ip4,
    pub extradata: Vec<u8>,
    pub extradata_len: u32,
    pub extradata_size: u32,
    pub last_interface: i32,
    pub new_interface: i32,
    pub new_prefixlen: i32,
    pub addr6: Ip6,
    pub iaid: u32,
    pub slaac_address: Option<Box<SlaacAddress>>,
    pub vendorclass_count: i32,
    pub next: Option<Box<DhcpLease>>,
}

} // verus!
