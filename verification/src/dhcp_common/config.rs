//! Configured hosts, and the device that the DHCP sockets are bound to.

use super::tags::{all_satisfied, match_netid_wild};
use crate::addr::Ip4;
use crate::cache::{a_record_from_hosts, host_addr, DnsCache, HostEntry};
use crate::dhcp_types::{nets, ConfigFlags, DhcpConfig, DhcpNetid, HwaddrConfig};
use crate::text::{has_char, lower, same, same_bytes, same_ignoring_case, views};
use crate::util::{checked_bytes, masked_equal, match_masked};
use vstd::prelude::*;
use vstd::slice::slice_subrange;

verus! {

/// A configured host without an address that came from the hosts files.
pub open spec fn without_hosts_addr(c: DhcpConfig) -> DhcpConfig {
    if c.flags.addr_hosts {
        DhcpConfig { flags: ConfigFlags { addr: false, addr_hosts: false, ..c.flags }, ..c }
    } else {
        c
    }
}

/// Whether a host other than number `i` has this address.
pub open spec fn addr_taken(configs: Seq<DhcpConfig>, i: int, addr: Ip4) -> bool {
    exists|j: int| 0 <= j < configs.len() && j != i && (#[trigger] configs[j]).flags.addr && configs[j].addr == addr
}

/// The address that host `i` gets from the hosts files: it has a name and no address yet, the name has an
/// address there, and no other host has that address.
pub open spec fn hosts_addr(configs: Seq<DhcpConfig>, i: int, hosts: Seq<HostEntry>) -> Option<Ip4> {
    if configs[i].flags.addr || !configs[i].flags.name || configs[i].hostname is None {
        None
    } else {
        match host_addr(hosts, configs[i].hostname->0@, 0) {
            Some(a) => if addr_taken(configs, i, a) {
                None
            } else {
                Some(a)
            },
            None => None,
        }
    }
}

/// The hosts after host `i` got its address from the hosts files.
pub open spec fn filled_at(configs: Seq<DhcpConfig>, i: int, hosts: Seq<HostEntry>) -> Seq<DhcpConfig> {
    match hosts_addr(configs, i, hosts) {
        Some(a) => configs.update(
            i,
            DhcpConfig {
                addr: a,
                flags: ConfigFlags { addr: true, addr_hosts: true, ..configs[i].flags },
                ..configs[i]
            },
        ),
        None => configs,
    }
}

/// The hosts after the first `n` got their addresses, one after the other.
pub open spec fn filled(configs: Seq<DhcpConfig>, n: int, hosts: Seq<HostEntry>) -> Seq<DhcpConfig>
    decreases n,
{
    if n <= 0 {
        configs
    } else {
        filled_at(filled(configs, n - 1, hosts), n - 1, hosts)
    }
}

/// The hosts with the addresses that the hosts files give them now.
pub open spec fn updated(configs: Seq<DhcpConfig>, hosts: Seq<HostEntry>) -> Seq<DhcpConfig> {
    filled(configs.map_values(|c: DhcpConfig| without_hosts_addr(c)), configs.len() as int, hosts)
}

/// Whether a host other than number `i` has this address.
fn is_addr_taken(configs: &Vec<DhcpConfig>, i: usize, addr: Ip4) -> (r: bool)
    ensures
        r == addr_taken(configs@, i as int, addr),
{
    let mut j: usize = 0;
    while j < configs.len()
        invariant
            j <= configs@.len(),
            forall|k: int|
                0 <= k < j ==> !(k != i && (#[trigger] configs@[k]).flags.addr && configs@[k].addr == addr),
        decreases configs@.len() - j,
    {
        if j != i && configs[j].flags.addr && configs[j].addr == addr {
            assert(configs@[j as int].flags.addr);
            return true;
        }
        j += 1;
    }
    false
}

/// Gives the hosts that have a name but no address of their own the addresses that the hosts files hold
/// for those names. Addresses that came from there before are dropped first, and an address that another
/// host has is not given again.
pub fn dhcp_update_configs(configs: &mut Vec<DhcpConfig>, cache: &DnsCache)
    ensures
        final(configs)@ == updated(old(configs)@, cache.hosts@),
{
    let ghost start = configs@;
    let ghost cleared = start.map_values(|c: DhcpConfig| without_hosts_addr(c));
    let mut i: usize = 0;
    while i < configs.len()
        invariant
            i <= configs@.len(),
            start == old(configs)@,
            configs@.len() == start.len(),
            forall|j: int| 0 <= j < i ==> #[trigger] configs@[j] == without_hosts_addr(start[j]),
            forall|j: int| i <= j < start.len() ==> #[trigger] configs@[j] == start[j],
        decreases configs@.len() - i,
    {
        if configs[i].flags.addr_hosts {
            let mut flags: ConfigFlags = configs[i].flags;
            flags.addr = false;
            flags.addr_hosts = false;
            configs[i].flags = flags;
        }
        i += 1;
    }
    assert(configs@ =~= cleared);
    let mut k: usize = 0;
    while k < configs.len()
        invariant
            k <= configs@.len(),
            start == old(configs)@,
            cleared == start.map_values(|c: DhcpConfig| without_hosts_addr(c)),
            configs@.len() == start.len(),
            configs@ == filled(cleared, k as int, cache.hosts@),
        decreases configs@.len() - k,
    {
        let ghost before = configs@;
        let mut found: Option<Ip4> = None;
        if !configs[k].flags.addr && configs[k].flags.name {
            if let Some(name) = &configs[k].hostname {
                found = a_record_from_hosts(name.as_str(), cache);
            }
        }
        if let Some(addr) = found {
            if !is_addr_taken(configs, k, addr) {
                let mut flags: ConfigFlags = configs[k].flags;
                flags.addr = true;
                flags.addr_hosts = true;
                configs[k].addr = addr;
                configs[k].flags = flags;
            }
        }
        assert(configs@ =~= filled_at(before, k as int, cache.hosts@));
        k += 1;
    }
}

/// Whether no two hosts have the same address.
pub open spec fn addrs_differ(configs: Seq<DhcpConfig>) -> bool {
    forall|i: int, j: int|
        0 <= i < configs.len() && 0 <= j < configs.len() && i != j && (#[trigger] configs[i]).flags.addr && (
        #[trigger] configs[j]).flags.addr ==> configs[i].addr != configs[j].addr
}

/// Hosts whose addresses differ still do after the hosts files gave out theirs.
proof fn lemma_filled_addrs(configs: Seq<DhcpConfig>, n: int, hosts: Seq<HostEntry>)
    requires
        0 <= n <= configs.len(),
        addrs_differ(configs),
    ensures
        filled(configs, n, hosts).len() == configs.len(),
        addrs_differ(filled(configs, n, hosts)),
        forall|i: int|
            0 <= i < configs.len() && (#[trigger] configs[i]).flags.addr ==> filled(configs, n, hosts)[i] == configs[i],
    decreases n,
{
    if n > 0 {
        lemma_filled_addrs(configs, n - 1, hosts);
    }
}

/// No address is given out twice: where the addresses that hosts have of their own differ, all addresses
/// do after an update, and each host keeps an address of its own.
pub proof fn law_update_gives_no_address_twice(configs: Seq<DhcpConfig>, hosts: Seq<HostEntry>)
    requires
        addrs_differ(configs.map_values(|c: DhcpConfig| without_hosts_addr(c))),
    ensures
        updated(configs, hosts).len() == configs.len(),
        addrs_differ(updated(configs, hosts)),
        forall|i: int|
            0 <= i < configs.len() && (#[trigger] configs[i]).flags.addr && !configs[i].flags.addr_hosts ==> updated(
                configs,
                hosts,
            )[i] == configs[i],
{
    let cleared = configs.map_values(|c: DhcpConfig| without_hosts_addr(c));
    lemma_filled_addrs(cleared, configs.len() as int, hosts);
    assert forall|i: int|
        0 <= i < configs.len() && (#[trigger] configs[i]).flags.addr && !configs[i].flags.addr_hosts implies updated(
        configs,
        hosts,
    )[i] == configs[i] by {
        assert(cleared[i] == configs[i]);
    }
}

/// What came of binding a socket to a device.
#[derive(Debug, Clone, Copy, PartialEq, Eq, Structural)]
pub enum BindOutcome {
    Bound,
    /// The process may not bind to a device.
    Denied,
    Failed,
}

/// What came of binding several sockets: 2 where some were denied, plus 1 where some failed.
pub open spec fn bind_summary(outcomes: Seq<BindOutcome>) -> u32 {
    ((if outcomes.contains(BindOutcome::Denied) {
        2int
    } else {
        0
    }) + (if outcomes.contains(BindOutcome::Failed) {
        1int
    } else {
        0
    })) as u32
}

/// Binds every socket to the device with `bind`, and tells what came of it. Without a device nothing is
/// bound.
pub fn bind_dhcp_devices<F: Fn(&str, i32) -> BindOutcome>(bound_device: Option<&str>, fds: &[(i32, bool)], bind: F) -> (r: u32)
    requires
        forall|d: &str, fd: i32| #[trigger] call_requires(bind, (d, fd)),
    ensures
        bound_device is None ==> r == 0,
        bound_device matches Some(d) ==> exists|outcomes: Seq<BindOutcome>|
            #![trigger bind_summary(outcomes)]
            outcomes.len() == fds@.len() && r == bind_summary(outcomes) && forall|i: int|
                0 <= i < fds@.len() ==> call_ensures(bind, (d, fds@[i].0), #[trigger] outcomes[i]),
{
    let device: &str = match bound_device {
        Some(d) => d,
        None => {
            return 0;
        },
    };
    let mut denied: bool = false;
    let mut failed: bool = false;
    let ghost mut outcomes = Seq::<BindOutcome>::empty();
    let mut i: usize = 0;
    while i < fds.len()
        invariant
            i <= fds@.len(),
            outcomes.len() == i,
            forall|d: &str, fd: i32| #[trigger] call_requires(bind, (d, fd)),
            denied == outcomes.contains(BindOutcome::Denied),
            failed == outcomes.contains(BindOutcome::Failed),
            forall|j: int| 0 <= j < i ==> call_ensures(bind, (device, fds@[j].0), #[trigger] outcomes[j]),
        decreases fds@.len() - i,
    {
        let o: BindOutcome = bind(device, fds[i].0);
        let ghost before = outcomes;
        proof {
            outcomes = outcomes.push(o);
            assert(outcomes[i as int] == o);
            assert forall|x: BindOutcome| outcomes.contains(x) == (before.contains(x) || x == o) by {
                if before.contains(x) {
                    let j = choose|j: int| 0 <= j < before.len() && before[j] == x;
                    assert(outcomes[j] == x);
                }
            }
        }
        match o {
            BindOutcome::Bound => {},
            BindOutcome::Denied => {
                denied = true;
            },
            BindOutcome::Failed => {
                failed = true;
            },
        }
        i += 1;
    }
    let r: u32 = (if denied {
        2u32
    } else {
        0
    }) + (if failed {
        1
    } else {
        0
    });
    assert(r == bind_summary(outcomes));
    r
}

/// Whether all names are the same, and there is one.
pub open spec fn one_name(names: Seq<Seq<char>>) -> bool {
    names.len() > 0 && forall|i: int| 0 <= i < names.len() ==> #[trigger] names[i] == names[0]
}

/// Whether all names are the same, and there is one.
fn is_one_name(names: &[String]) -> (r: bool)
    ensures
        r == one_name(views(names@)),
{
    if names.len() == 0 {
        return false;
    }
    let ghost all = views(names@);
    let mut i: usize = 1;
    while i < names.len()
        invariant
            1 <= i <= names@.len(),
            all == views(names@),
            forall|j: int| 0 <= j < i ==> #[trigger] all[j] == all[0],
        decreases names@.len() - i,
    {
        if !same(names[i].as_str(), names[0].as_str()) {
            assert(all[i as int] != all[0]);
            return false;
        }
        i += 1;
    }
    true
}

/// The interface that all DHCP sockets can be bound to: exactly one name is configured, without a
/// wildcard, and all interfaces that are active have the same name.
pub fn whichdevice(if_names: &[String], active_ifaces: &[String]) -> (r: Option<String>)
    ensures
        r is Some <==> one_name(views(if_names@)) && !if_names@[0]@.contains('*') && one_name(views(active_ifaces@)),
        r matches Some(name) ==> name@ == active_ifaces@[0]@,
{
    if is_one_name(if_names) && !has_char(if_names[0].as_str(), '*') && is_one_name(active_ifaces) {
        Some(active_ifaces[0].clone())
    } else {
        None
    }
}

/// Whether a configured hardware address has the length and the type of `hwaddr`; type 0 stands for any.
pub open spec fn hw_fits(h: HwaddrConfig, hwaddr: Seq<u8>, hw_type: i32) -> bool {
    h.hwaddr_len == hwaddr.len() && (h.hwaddr_type == hw_type || h.hwaddr_type == 0)
}

/// Whether a configured hardware address without wildcards is `hwaddr`.
pub open spec fn hw_equal(h: HwaddrConfig, hwaddr: Seq<u8>, hw_type: i32) -> bool {
    h.wildcard_mask == 0 && hw_fits(h, hwaddr, hw_type) && h.hwaddr@.take(hwaddr.len() as int) == hwaddr
}

/// Whether a host has this hardware address.
pub open spec fn has_mac(c: DhcpConfig, hwaddr: Seq<u8>, hw_type: i32) -> bool {
    exists|i: int| 0 <= i < c.hwaddrs@.len() && hw_equal(#[trigger] c.hwaddrs@[i], hwaddr, hw_type)
}

/// Whether `hwaddr` can be compared with the hardware addresses of a host, those with wildcards or those without: it
/// is not longer than the room for an address where one of them has its length and type.
pub open spec fn in_room(c: DhcpConfig, hwaddr: Seq<u8>, hw_type: i32, wild: bool) -> bool {
    hwaddr.len() <= 16 || forall|i: int|
        0 <= i < c.hwaddrs@.len() && hw_fits(#[trigger] c.hwaddrs@[i], hwaddr, hw_type) ==> (
        c.hwaddrs@[i].wildcard_mask != 0) != wild
}

/// Any address, however long, can be compared with those of a well-formed host.
pub proof fn law_well_formed_host_takes_any_address(c: DhcpConfig, hwaddr: Seq<u8>, hw_type: i32, wild: bool)
    requires
        c.wf(),
    ensures
        in_room(c, hwaddr, hw_type, wild),
{
}

/// The first `n` bytes of a configured hardware address.
fn hw_bytes(h: &HwaddrConfig, n: usize) -> (v: Vec<u8>)
    requires
        n <= 16,
    ensures
        v@ == h.hwaddr@.take(n as int),
{
    let mut v: Vec<u8> = Vec::new();
    let mut i: usize = 0;
    while i < n
        invariant
            i <= n <= 16,
            v@ == h.hwaddr@.take(i as int),
        decreases n - i,
    {
        assert(h.hwaddr@.take(i + 1) =~= h.hwaddr@.take(i as int).push(h.hwaddr@[i as int]));
        v.push(h.hwaddr[i]);
        i += 1;
    }
    v
}

/// Whether a configured hardware address has the length and the type of `hwaddr`.
fn is_hw_fit(h: &HwaddrConfig, hwaddr: &[u8], hw_type: i32) -> (r: bool)
    ensures
        r == hw_fits(*h, hwaddr@, hw_type),
{
    h.hwaddr_len >= 0 && h.hwaddr_len as usize == hwaddr.len() && (h.hwaddr_type == hw_type || h.hwaddr_type == 0)
}

/// Whether a host has this hardware address, wildcards aside.
pub fn config_has_mac(config: &DhcpConfig, hwaddr: &[u8], hw_type: i32) -> (r: bool)
    requires
        in_room(*config, hwaddr@, hw_type, false),
    ensures
        r == has_mac(*config, hwaddr@, hw_type),
{
    let mut i: usize = 0;
    while i < config.hwaddrs.len()
        invariant
            i <= config.hwaddrs@.len(),
            in_room(*config, hwaddr@, hw_type, false),
            forall|j: int| 0 <= j < i ==> !hw_equal(#[trigger] config.hwaddrs@[j], hwaddr@, hw_type),
        decreases config.hwaddrs@.len() - i,
    {
        let h: &HwaddrConfig = &config.hwaddrs[i];
        assert(*h == config.hwaddrs@[i as int]);
        if h.wildcard_mask == 0 && is_hw_fit(h, hwaddr, hw_type) {
            let bytes: Vec<u8> = hw_bytes(h, hwaddr.len());
            if same_bytes(bytes.as_slice(), hwaddr) {
                assert(hw_equal(config.hwaddrs@[i as int], hwaddr@, hw_type));
                return true;
            }
        }
        i += 1;
    }
    false
}

/// Whether a host is meant for clients with these tags.
pub open spec fn filter_ok(c: DhcpConfig, tags: Seq<Seq<char>>) -> bool {
    c.filter@.len() == 0 || all_satisfied(nets(c.filter@), tags)
}

/// Whether a host has this client id, also where the client put a zero byte before it.
pub open spec fn has_clid(c: DhcpConfig, clid: Seq<u8>) -> bool {
    c.flags.clid && (c.clid matches Some(own) && (own@ == clid || (clid.len() > 1 && clid[0] == 0 && own@ == clid.skip(1))))
}

/// Whether a host has this name, in upper or lower case.
pub open spec fn has_name(c: DhcpConfig, hostname: Seq<char>) -> bool {
    c.flags.name && (c.hostname matches Some(own) && lower(own@) == lower(hostname))
}

/// What a host is looked for by.
pub enum HostKey {
    Clid(Seq<u8>),
    Mac(Seq<u8>, i32),
    Name(Seq<char>),
}

/// Whether a host has the key.
pub open spec fn has_key(c: DhcpConfig, key: HostKey) -> bool {
    match key {
        HostKey::Clid(clid) => has_clid(c, clid),
        HostKey::Mac(hwaddr, hw_type) => has_mac(c, hwaddr, hw_type),
        HostKey::Name(name) => has_name(c, name),
    }
}

/// The first host from number `i` on that has the key and is meant for clients with these tags.
pub open spec fn first_host(configs: Seq<DhcpConfig>, key: HostKey, tags: Seq<Seq<char>>, i: int) -> Option<int>
    decreases configs.len() - i,
{
    if !(0 <= i < configs.len()) {
        None
    } else if filter_ok(configs[i], tags) && has_key(configs[i], key) {
        Some(i)
    } else {
        first_host(configs, key, tags, i + 1)
    }
}

/// How closely a configured hardware address with wildcards matches: 0 where it does not, more where it
/// has fewer wildcards.
pub open spec fn wild_score(h: HwaddrConfig, hwaddr: Seq<u8>, hw_type: i32) -> nat {
    if h.wildcard_mask != 0 && hw_fits(h, hwaddr, hw_type) && masked_equal(
        h.hwaddr@.take(hwaddr.len() as int),
        hwaddr,
        h.wildcard_mask,
    ) {
        checked_bytes(h.wildcard_mask, hwaddr.len() as int, hwaddr.len() as int) + 1
    } else {
        0
    }
}

/// The best score of the hardware addresses.
pub open spec fn best_score(hs: Seq<HwaddrConfig>, hwaddr: Seq<u8>, hw_type: i32) -> nat
    decreases hs.len(),
{
    if hs.len() == 0 {
        0
    } else {
        let rest = best_score(hs.drop_last(), hwaddr, hw_type);
        let last = wild_score(hs.last(), hwaddr, hw_type);
        if last > rest {
            last
        } else {
            rest
        }
    }
}

/// The score of a host, 0 where it is not meant for clients with these tags.
pub open spec fn host_score(c: DhcpConfig, hwaddr: Seq<u8>, hw_type: i32, tags: Seq<Seq<char>>) -> nat {
    if filter_ok(c, tags) {
        best_score(c.hwaddrs@, hwaddr, hw_type)
    } else {
        0
    }
}

/// The first of the hosts with the best score, and that score; no host where all scores are 0.
pub open spec fn best_host(configs: Seq<DhcpConfig>, hwaddr: Seq<u8>, hw_type: i32, tags: Seq<Seq<char>>) -> (
    Option<int>,
    nat,
)
    decreases configs.len(),
{
    if configs.len() == 0 {
        (None, 0)
    } else {
        let rest = best_host(configs.drop_last(), hwaddr, hw_type, tags);
        let score = host_score(configs.last(), hwaddr, hw_type, tags);
        if score > rest.1 {
            (Some(configs.len() - 1), score)
        } else {
            rest
        }
    }
}

/// What is known of a client.
pub struct ClientKeys {
    pub clid: Option<Seq<u8>>,
    pub hwaddr: Option<Seq<u8>>,
    pub hw_type: i32,
    pub hostname: Option<Seq<char>>,
    pub tags: Seq<Seq<char>>,
}

/// The host that a client is: by its client id, else by its hardware address, else by its name, else by
/// the closest hardware address with wildcards.
pub open spec fn host_of(configs: Seq<DhcpConfig>, k: ClientKeys) -> Option<int> {
    let by_clid = match k.clid {
        Some(c) => first_host(configs, HostKey::Clid(c), k.tags, 0),
        None => None,
    };
    let by_mac = match k.hwaddr {
        Some(h) => first_host(configs, HostKey::Mac(h, k.hw_type), k.tags, 0),
        None => None,
    };
    let by_name = match k.hostname {
        Some(n) => first_host(configs, HostKey::Name(n), k.tags, 0),
        None => None,
    };
    if by_clid is Some {
        by_clid
    } else if by_mac is Some {
        by_mac
    } else if by_name is Some {
        by_name
    } else {
        match k.hwaddr {
            Some(h) => best_host(configs, h, k.hw_type, k.tags).0,
            None => None,
        }
    }
}

/// Whether a host is meant for clients with these tags.
fn is_filter_ok(c: &DhcpConfig, tags: &[DhcpNetid]) -> (r: bool)
    ensures
        r == filter_ok(*c, nets(tags@)),
{
    c.filter.len() == 0 || match_netid_wild(c.filter.as_slice(), tags)
}

/// Whether a host has this client id.
fn is_clid(c: &DhcpConfig, clid: &[u8]) -> (r: bool)
    ensures
        r == has_clid(*c, clid@),
{
    if !c.flags.clid {
        return false;
    }
    match &c.clid {
        Some(own) => {
            if same_bytes(own.as_slice(), clid) {
                return true;
            }
            if clid.len() > 1 && clid[0] == 0 {
                let rest: &[u8] = slice_subrange(clid, 1, clid.len());
                assert(rest@ =~= clid@.skip(1));
                same_bytes(own.as_slice(), rest)
            } else {
                false
            }
        },
        None => false,
    }
}

/// Whether a host has this name.
fn is_name(c: &DhcpConfig, hostname: &str) -> (r: bool)
    ensures
        r == has_name(*c, hostname@),
{
    if !c.flags.name {
        return false;
    }
    match &c.hostname {
        Some(own) => same_ignoring_case(own.as_str(), hostname),
        None => false,
    }
}

/// Whether `hwaddr` can be compared with the hardware addresses of all hosts that are meant for clients with these
/// tags, those with wildcards or those without.
pub open spec fn all_in_room(
    configs: Seq<DhcpConfig>,
    hwaddr: Seq<u8>,
    hw_type: i32,
    tags: Seq<Seq<char>>,
    wild: bool,
) -> bool {
    forall|i: int|
        0 <= i < configs.len() && filter_ok(#[trigger] configs[i], tags) ==> in_room(configs[i], hwaddr, hw_type, wild)
}

/// The first host that has this client id.
fn find_by_clid(configs: &[DhcpConfig], clid: &[u8], tags: &[DhcpNetid]) -> (r: Option<usize>)
    ensures
        match r {
            Some(i) => i < configs@.len() && first_host(configs@, HostKey::Clid(clid@), nets(tags@), 0) == Some(i as int),
            None => first_host(configs@, HostKey::Clid(clid@), nets(tags@), 0) is None,
        },
{
    let ghost key = HostKey::Clid(clid@);
    let mut i: usize = 0;
    while i < configs.len()
        invariant
            i <= configs@.len(),
            key == HostKey::Clid(clid@),
            first_host(configs@, key, nets(tags@), 0) == first_host(configs@, key, nets(tags@), i as int),
        decreases configs@.len() - i,
    {
        if is_filter_ok(&configs[i], tags) && is_clid(&configs[i], clid) {
            return Some(i);
        }
        i += 1;
    }
    None
}

/// The first host that has this hardware address.
fn find_by_mac(configs: &[DhcpConfig], hwaddr: &[u8], hw_type: i32, tags: &[DhcpNetid]) -> (r: Option<usize>)
    requires
        all_in_room(configs@, hwaddr@, hw_type, nets(tags@), false),
    ensures
        match r {
            Some(i) => i < configs@.len() && first_host(configs@, HostKey::Mac(hwaddr@, hw_type), nets(tags@), 0) == Some(
                i as int,
            ),
            None => first_host(configs@, HostKey::Mac(hwaddr@, hw_type), nets(tags@), 0) is None,
        },
{
    let ghost key = HostKey::Mac(hwaddr@, hw_type);
    let mut i: usize = 0;
    while i < configs.len()
        invariant
            i <= configs@.len(),
            all_in_room(configs@, hwaddr@, hw_type, nets(tags@), false),
            key == HostKey::Mac(hwaddr@, hw_type),
            first_host(configs@, key, nets(tags@), 0) == first_host(configs@, key, nets(tags@), i as int),
        decreases configs@.len() - i,
    {
        if is_filter_ok(&configs[i], tags) && config_has_mac(&configs[i], hwaddr, hw_type) {
            return Some(i);
        }
        i += 1;
    }
    None
}

/// The first host that has this name.
fn find_by_name(configs: &[DhcpConfig], hostname: &str, tags: &[DhcpNetid]) -> (r: Option<usize>)
    ensures
        match r {
            Some(i) => i < configs@.len() && first_host(configs@, HostKey::Name(hostname@), nets(tags@), 0) == Some(
                i as int,
            ),
            None => first_host(configs@, HostKey::Name(hostname@), nets(tags@), 0) is None,
        },
{
    let ghost key = HostKey::Name(hostname@);
    let mut i: usize = 0;
    while i < configs.len()
        invariant
            i <= configs@.len(),
            key == HostKey::Name(hostname@),
            first_host(configs@, key, nets(tags@), 0) == first_host(configs@, key, nets(tags@), i as int),
        decreases configs@.len() - i,
    {
        if is_filter_ok(&configs[i], tags) && is_name(&configs[i], hostname) {
            return Some(i);
        }
        i += 1;
    }
    None
}

/// How closely a configured hardware address with wildcards matches.
fn score(h: &HwaddrConfig, hwaddr: &[u8], hw_type: i32) -> (r: usize)
    requires
        h.wildcard_mask != 0 && hw_fits(*h, hwaddr@, hw_type) ==> hwaddr@.len() <= 16,
    ensures
        r == wild_score(*h, hwaddr@, hw_type),
{
    if h.wildcard_mask != 0 && is_hw_fit(h, hwaddr, hw_type) {
        let bytes: Vec<u8> = hw_bytes(h, hwaddr.len());
        match_masked(bytes.as_slice(), hwaddr, h.wildcard_mask)
    } else {
        0
    }
}

/// The best score of a host's hardware addresses.
fn score_host(c: &DhcpConfig, hwaddr: &[u8], hw_type: i32) -> (best: usize)
    requires
        in_room(*c, hwaddr@, hw_type, true),
    ensures
        best == best_score(c.hwaddrs@, hwaddr@, hw_type),
{
    let ghost all = c.hwaddrs@;
    let mut best: usize = 0;
    let mut i: usize = 0;
    assert(all.take(0) =~= Seq::<HwaddrConfig>::empty());
    while i < c.hwaddrs.len()
        invariant
            i <= c.hwaddrs@.len(),
            in_room(*c, hwaddr@, hw_type, true),
            all == c.hwaddrs@,
            best == best_score(all.take(i as int), hwaddr@, hw_type),
        decreases c.hwaddrs@.len() - i,
    {
        proof {
            assert(all.take(i + 1).drop_last() =~= all.take(i as int));
            assert(all.take(i + 1).last() == all[i as int]);
        }
        let s: usize = score(&c.hwaddrs[i], hwaddr, hw_type);
        if s > best {
            best = s;
        }
        i += 1;
    }
    assert(all.take(all.len() as int) =~= all);
    best
}

/// The first of the hosts with the best score.
fn find_by_wildcard(configs: &[DhcpConfig], hwaddr: &[u8], hw_type: i32, tags: &[DhcpNetid]) -> (r: Option<usize>)
    requires
        all_in_room(configs@, hwaddr@, hw_type, nets(tags@), true),
    ensures
        match r {
            Some(i) => i < configs@.len() && best_host(configs@, hwaddr@, hw_type, nets(tags@)).0 == Some(i as int),
            None => best_host(configs@, hwaddr@, hw_type, nets(tags@)).0 is None,
        },
{
    let ghost all = configs@;
    let mut best: Option<usize> = None;
    let mut top: usize = 0;
    let mut i: usize = 0;
    assert(all.take(0) =~= Seq::<DhcpConfig>::empty());
    while i < configs.len()
        invariant
            i <= configs@.len(),
            all == configs@,
            all_in_room(configs@, hwaddr@, hw_type, nets(tags@), true),
            best_host(all.take(i as int), hwaddr@, hw_type, nets(tags@)) == (match best {
                Some(b) => (Some(b as int), top as nat),
                None => (None::<int>, top as nat),
            }),
            best matches Some(b) ==> b < i,
        decreases configs@.len() - i,
    {
        proof {
            assert(all.take(i + 1).drop_last() =~= all.take(i as int));
            assert(all.take(i + 1).last() == all[i as int]);
        }
        if is_filter_ok(&configs[i], tags) {
            let s: usize = score_host(&configs[i], hwaddr, hw_type);
            if s > top {
                top = s;
                best = Some(i);
            }
        }
        i += 1;
    }
    assert(all.take(all.len() as int) =~= all);
    best
}

/// Finds the host that a client is: by client id, else by hardware address, else by name, else by the
/// hardware address with the fewest wildcards, the first of several.
pub fn find_config<'a>(
    configs: &'a [DhcpConfig],
    clid: Option<&[u8]>,
    hwaddr: Option<&[u8]>,
    hw_type: i32,
    hostname: Option<&str>,
    tags: &[DhcpNetid],
) -> (r: Option<&'a DhcpConfig>)
    requires
        hwaddr matches Some(h) ==> {
            let by_clid = clid is Some && first_host(configs@, HostKey::Clid(clid->0@), nets(tags@), 0) is Some;
            let by_name = hostname is Some && first_host(configs@, HostKey::Name(hostname->0@), nets(tags@), 0) is Some;
            &&& by_clid || all_in_room(configs@, h@, hw_type, nets(tags@), false)
            &&& by_clid || by_name || first_host(configs@, HostKey::Mac(h@, hw_type), nets(tags@), 0) is Some
                || all_in_room(configs@, h@, hw_type, nets(tags@), true)
        },
    ensures
        match host_of(
            configs@,
            (ClientKeys {
                clid: match clid {
                    Some(c) => Some(c@),
                    None => None,
                },
                hwaddr: match hwaddr {
                    Some(h) => Some(h@),
                    None => None,
                },
                hw_type,
                hostname: match hostname {
                    Some(n) => Some(n@),
                    None => None,
                },
                tags: nets(tags@),
            }),
        ) {
            Some(i) => 0 <= i < configs@.len() && r == Some(&configs@[i]),
            None => r is None,
        },
{
    if let Some(c) = clid {
        if let Some(i) = find_by_clid(configs, c, tags) {
            return Some(&configs[i]);
        }
    }
    if let Some(h) = hwaddr {
        if let Some(i) = find_by_mac(configs, h, hw_type, tags) {
            return Some(&configs[i]);
        }
    }
    if let Some(n) = hostname {
        if let Some(i) = find_by_name(configs, n, tags) {
            return Some(&configs[i]);
        }
    }
    if let Some(h) = hwaddr {
        if let Some(i) = find_by_wildcard(configs, h, hw_type, tags) {
            return Some(&configs[i]);
        }
    }
    None
}

/// Where the search for a host with a key ends.
proof fn lemma_first_host(configs: Seq<DhcpConfig>, key: HostKey, tags: Seq<Seq<char>>, i: int)
    requires
        0 <= i <= configs.len(),
    ensures
        match first_host(configs, key, tags, i) {
            Some(k) => {
                &&& i <= k < configs.len()
                &&& filter_ok(configs[k], tags)
                &&& has_key(configs[k], key)
                &&& forall|j: int|
                    i <= j < k ==> !(filter_ok(#[trigger] configs[j], tags) && has_key(configs[j], key))
            },
            None => forall|j: int|
                i <= j < configs.len() ==> !(filter_ok(#[trigger] configs[j], tags) && has_key(configs[j], key)),
        },
    decreases configs.len() - i,
{
    if i < configs.len() && !(filter_ok(configs[i], tags) && has_key(configs[i], key)) {
        lemma_first_host(configs, key, tags, i + 1);
    }
}

/// A hardware address with wildcards finds the host with the fewest of them, and the first of several: no host
/// matches more closely, and none before it as closely. No host is found where none matches.
pub proof fn law_fewest_wildcards_win(configs: Seq<DhcpConfig>, hwaddr: Seq<u8>, hw_type: i32, tags: Seq<Seq<char>>)
    ensures
        match best_host(configs, hwaddr, hw_type, tags).0 {
            Some(i) => {
                let best = best_host(configs, hwaddr, hw_type, tags).1;
                &&& 0 <= i < configs.len()
                &&& 0 < best == host_score(configs[i], hwaddr, hw_type, tags)
                &&& forall|j: int|
                    0 <= j < configs.len() ==> host_score(#[trigger] configs[j], hwaddr, hw_type, tags) <= best
                &&& forall|j: int| 0 <= j < i ==> host_score(#[trigger] configs[j], hwaddr, hw_type, tags) < best
            },
            None => {
                &&& best_host(configs, hwaddr, hw_type, tags).1 == 0
                &&& forall|j: int|
                    0 <= j < configs.len() ==> host_score(#[trigger] configs[j], hwaddr, hw_type, tags) == 0
            },
        },
    decreases configs.len(),
{
    if configs.len() > 0 {
        let rest = configs.drop_last();
        law_fewest_wildcards_win(rest, hwaddr, hw_type, tags);
        assert forall|j: int| 0 <= j < configs.len() - 1 implies #[trigger] configs[j] == rest[j] by {}
    }
}

/// Whether some host that is meant for clients with these tags has a key.
pub open spec fn some_host(configs: Seq<DhcpConfig>, key: HostKey, tags: Seq<Seq<char>>) -> bool {
    exists|j: int| 0 <= j < configs.len() && filter_ok(#[trigger] configs[j], tags) && has_key(configs[j], key)
}

/// Whether the client id of a client decides which host it is.
pub open spec fn clid_decides(configs: Seq<DhcpConfig>, k: ClientKeys) -> bool {
    k.clid is Some && some_host(configs, HostKey::Clid(k.clid->0), k.tags)
}

/// Whether the hardware address of a client decides, where its client id does not.
pub open spec fn mac_decides(configs: Seq<DhcpConfig>, k: ClientKeys) -> bool {
    !clid_decides(configs, k) && k.hwaddr is Some && some_host(configs, HostKey::Mac(k.hwaddr->0, k.hw_type), k.tags)
}

/// Whether the name of a client decides, where neither its client id nor its hardware address does.
pub open spec fn name_decides(configs: Seq<DhcpConfig>, k: ClientKeys) -> bool {
    !clid_decides(configs, k) && !mac_decides(configs, k) && k.hostname is Some && some_host(
        configs,
        HostKey::Name(k.hostname->0),
        k.tags,
    )
}

/// A client is only ever a host that is meant for its tags and that has something of the client. The client id
/// decides before the hardware address, that before the name, and that before a hardware address with wildcards.
pub proof fn law_host_has_the_first_key(configs: Seq<DhcpConfig>, k: ClientKeys)
    ensures
        host_of(configs, k) matches Some(i) ==> 0 <= i < configs.len() && filter_ok(configs[i], k.tags),
        clid_decides(configs, k) ==> (host_of(configs, k) matches Some(i) && has_clid(configs[i], k.clid->0)),
        mac_decides(configs, k) ==> (host_of(configs, k) matches Some(i) && has_mac(configs[i], k.hwaddr->0, k.hw_type)),
        name_decides(configs, k) ==> (host_of(configs, k) matches Some(i) && has_name(configs[i], k.hostname->0)),
        !clid_decides(configs, k) && !mac_decides(configs, k) && !name_decides(configs, k) ==> (host_of(
            configs,
            k,
        ) matches Some(i) ==> k.hwaddr is Some && host_score(configs[i], k.hwaddr->0, k.hw_type, k.tags) > 0),
{
    if let Some(c) = k.clid {
        lemma_first_host(configs, HostKey::Clid(c), k.tags, 0);
    }
    if let Some(h) = k.hwaddr {
        lemma_first_host(configs, HostKey::Mac(h, k.hw_type), k.tags, 0);
        law_fewest_wildcards_win(configs, h, k.hw_type, k.tags);
    }
    if let Some(n) = k.hostname {
        lemma_first_host(configs, HostKey::Name(n), k.tags, 0);
    }
}

} // verus!
