//! What the DNS forwarder is given of the configuration.

use crate::addr::{IpAddress, SockAddr};
use crate::daemon::Daemon;
use crate::dup::{all_views, dup_all, dup_copies, dup_strings, Dup};
use crate::records::{
    Allowlist, BogusAddr, Cname, HostRecord, InterfaceName, Ipsets, MxSrvRecord, MySubnet, Naptr, PtrRecord, RrList, Server,
    ServerView, SynthDomain, TxtRecord, TxtRecordView,
};
use crate::text::{same, views};
use vstd::prelude::*;

verus! {

/// The size of the cache where none is configured.
pub const DEFAULT_CACHE_SIZE: usize = 150;

/// The class of queries on the daemon itself.
pub const CHAOS: u16 = 3;

/// The statistics that a record can stand for.
pub const TXT_STAT_CACHESIZE: i32 = 1;
pub const TXT_STAT_INSERTS: i32 = 2;
pub const TXT_STAT_EVICTIONS: i32 = 3;
pub const TXT_STAT_MISSES: i32 = 4;
pub const TXT_STAT_HITS: i32 = 5;

/// What is logged of queries.
#[derive(Debug, Clone, Copy, PartialEq, Eq, Structural)]
pub struct LogQueryOptions {
    pub log: bool,
    pub log_only_failed: bool,
    pub auth_log: bool,
    pub extralog: bool,
    pub log_proto: bool,
}

/// The data from which queries are answered without asking a server.
#[derive(Debug)]
pub struct LocalData {
    pub local_ttl: u32,
    pub edns_pktsz: u16,
    pub txt_records: Vec<TxtRecord>,
    pub rr_records: Vec<TxtRecord>,
    pub mx_records: Vec<MxSrvRecord>,
    pub ptr_records: Vec<PtrRecord>,
    pub host_records: Vec<HostRecord>,
    pub cnames: Vec<Cname>,
    pub naptr_records: Vec<Naptr>,
    pub int_names: Vec<InterfaceName>,
    pub nodots_local: bool,
    pub synth_domains: Vec<SynthDomain>,
    /// Servers that stand for an answer of their own.
    pub address_server_list: Vec<Server>,
    /// The domains of those servers.
    pub literal_domains: Vec<String>,
    pub cachesize: i32,
    pub log_opts: LogQueryOptions,
}

/// The record that stands for a statistic of the cache.
pub open spec fn stat_record(name: Seq<char>, stat: i32) -> TxtRecordView {
    TxtRecordView { name, txt: seq![], class: CHAOS, stat }
}

/// The records on the daemon itself: the statistics of its cache.
pub open spec fn stat_records() -> Seq<TxtRecordView> {
    seq![
        stat_record("cachesize.bind"@, TXT_STAT_CACHESIZE),
        stat_record("insertions.bind"@, TXT_STAT_INSERTS),
        stat_record("evictions.bind"@, TXT_STAT_EVICTIONS),
        stat_record("misses.bind"@, TXT_STAT_MISSES),
        stat_record("hits.bind"@, TXT_STAT_HITS),
    ]
}

/// Makes the record that stands for a statistic of the cache.
fn make_stat_record(name: &str, stat: i32) -> (r: TxtRecord)
    ensures
        r@ == stat_record(name@, stat),
{
    let r: TxtRecord = TxtRecord { name: String::from_str(name), txt: Vec::new(), class: CHAOS, stat };
    assert(r@.txt =~= seq![]);
    r
}

/// Adds the records on the daemon itself.
fn push_stat_records(v: &mut Vec<TxtRecord>)
    ensures
        all_views(final(v)@) == all_views(old(v)@) + stat_records(),
{
    let ghost before = v@;
    v.push(make_stat_record("cachesize.bind", TXT_STAT_CACHESIZE));
    v.push(make_stat_record("insertions.bind", TXT_STAT_INSERTS));
    v.push(make_stat_record("evictions.bind", TXT_STAT_EVICTIONS));
    v.push(make_stat_record("misses.bind", TXT_STAT_MISSES));
    v.push(make_stat_record("hits.bind", TXT_STAT_HITS));
    assert(all_views(v@) =~= all_views(before) + stat_records());
}

/// The servers that stand for an answer of their own, or the others.
pub open spec fn servers_where(servers: Seq<ServerView>, literal: bool) -> Seq<ServerView>
    decreases servers.len(),
{
    if servers.len() == 0 {
        seq![]
    } else if servers.last().flags.literal_address == literal {
        servers_where(servers.drop_last(), literal).push(servers.last())
    } else {
        servers_where(servers.drop_last(), literal)
    }
}

/// The domains of the servers that stand for an answer of their own and have one.
pub open spec fn literal_domains(servers: Seq<ServerView>) -> Seq<Seq<char>>
    decreases servers.len(),
{
    if servers.len() == 0 {
        seq![]
    } else if servers.last().flags.literal_address && servers.last().domain.len() > 0 {
        literal_domains(servers.drop_last()).push(servers.last().domain)
    } else {
        literal_domains(servers.drop_last())
    }
}

/// Copies the servers that stand for an answer of their own, or the others.
fn select_servers(servers: &Vec<Server>, literal: bool) -> (r: Vec<Server>)
    ensures
        all_views(r@) == servers_where(all_views(servers@), literal),
{
    let ghost all = all_views(servers@);
    let mut r: Vec<Server> = Vec::new();
    let mut i: usize = 0;
    assert(all_views(r@) =~= servers_where(all.take(0), literal));
    while i < servers.len()
        invariant
            i <= servers@.len(),
            all == all_views(servers@),
            all_views(r@) == servers_where(all.take(i as int), literal),
        decreases servers@.len() - i,
    {
        proof {
            assert(all.take(i + 1).drop_last() =~= all.take(i as int));
            assert(all.take(i + 1).last() == servers@[i as int]@);
        }
        if servers[i].flags.literal_address == literal {
            let s: Server = servers[i].dup();
            assert(all_views(r@.push(s)) =~= all_views(r@).push(s@));
            r.push(s);
        }
        i += 1;
    }
    assert(all.take(all.len() as int) =~= all);
    r
}

/// The domains of the servers that stand for an answer of their own.
fn literal_server_domains(servers: &Vec<Server>) -> (r: Vec<String>)
    ensures
        views(r@) == literal_domains(all_views(servers@)),
{
    let ghost all = all_views(servers@);
    let mut r: Vec<String> = Vec::new();
    let mut i: usize = 0;
    assert(views(r@) =~= literal_domains(all.take(0)));
    proof {
        reveal_strlit("");
    }
    while i < servers.len()
        invariant
            i <= servers@.len(),
            all == all_views(servers@),
            ""@.len() == 0,
            views(r@) == literal_domains(all.take(i as int)),
        decreases servers@.len() - i,
    {
        proof {
            assert(all.take(i + 1).drop_last() =~= all.take(i as int));
            assert(all.take(i + 1).last() == servers@[i as int]@);
            if servers@[i as int].domain@.len() == 0 {
                assert(servers@[i as int].domain@ =~= ""@);
            }
        }
        if servers[i].flags.literal_address && !same(servers[i].domain.as_str(), "") {
            let d: String = servers[i].domain.clone();
            assert(views(r@.push(d)) =~= views(r@).push(d@));
            r.push(d);
        }
        i += 1;
    }
    assert(all.take(all.len() as int) =~= all);
    r
}

/// Whether local data holds what the configuration says.
pub open spec fn local_data_of(d: Daemon, l: LocalData) -> bool {
    &&& l.local_ttl == d.local_ttl
    &&& l.edns_pktsz == d.edns_pktsz
    &&& all_views(l.txt_records@) == if d.options.no_ident {
        all_views(d.txt@)
    } else {
        all_views(d.txt@) + stat_records()
    }
    &&& all_views(l.rr_records@) == all_views(d.rr@)
    &&& all_views(l.mx_records@) == all_views(d.mxnames@)
    &&& all_views(l.ptr_records@) == all_views(d.ptr@)
    &&& all_views(l.host_records@) == all_views(d.host_records@)
    &&& all_views(l.cnames@) == all_views(d.cnames@)
    &&& all_views(l.naptr_records@) == all_views(d.naptr@)
    &&& all_views(l.int_names@) == all_views(d.int_names@)
    &&& l.nodots_local == d.options.nodots_local
    &&& all_views(l.synth_domains@) == all_views(d.synth_domains@)
    &&& all_views(l.address_server_list@) == servers_where(all_views(d.servers@), true)
    &&& views(l.literal_domains@) == literal_domains(all_views(d.servers@))
    &&& l.cachesize == d.cachesize
    &&& l.log_opts == LogQueryOptions {
        log: d.options.log,
        log_only_failed: d.options.log_only_failed,
        auth_log: d.options.auth_log,
        extralog: d.options.extralog,
        log_proto: d.options.log_proto,
    }
}

/// Takes the data from which queries are answered without asking a server out of the configuration. The
/// records on the daemon itself are added, unless that is off.
pub fn daemon_local_data(daemon: &Daemon) -> (l: LocalData)
    ensures
        local_data_of(*daemon, l),
{
    let mut txt_records: Vec<TxtRecord> = dup_all(&daemon.txt);
    if !daemon.options.no_ident {
        push_stat_records(&mut txt_records);
    }
    LocalData {
        local_ttl: daemon.local_ttl,
        edns_pktsz: daemon.edns_pktsz,
        txt_records,
        rr_records: dup_all(&daemon.rr),
        mx_records: dup_all(&daemon.mxnames),
        ptr_records: dup_all(&daemon.ptr),
        host_records: dup_all(&daemon.host_records),
        cnames: dup_all(&daemon.cnames),
        naptr_records: dup_all(&daemon.naptr),
        int_names: dup_all(&daemon.int_names),
        nodots_local: daemon.options.nodots_local,
        synth_domains: dup_all(&daemon.synth_domains),
        address_server_list: select_servers(&daemon.servers, true),
        literal_domains: literal_server_domains(&daemon.servers),
        cachesize: daemon.cachesize,
        log_opts: LogQueryOptions {
            log: daemon.options.log,
            log_only_failed: daemon.options.log_only_failed,
            auth_log: daemon.options.auth_log,
            extralog: daemon.options.extralog,
            log_proto: daemon.options.log_proto,
        },
    }
}

impl LocalData {
    /// Whether there is nothing to answer from.
    pub fn is_empty(&self) -> (r: bool)
        ensures
            r == (self.txt_records@.len() == 0 && self.rr_records@.len() == 0 && self.mx_records@.len() == 0
                && self.ptr_records@.len() == 0 && self.host_records@.len() == 0 && self.cnames@.len() == 0
                && self.naptr_records@.len() == 0 && self.int_names@.len() == 0),
    {
        self.txt_records.len() == 0 && self.rr_records.len() == 0 && self.mx_records.len() == 0
            && self.ptr_records.len() == 0 && self.host_records.len() == 0 && self.cnames.len() == 0
            && self.naptr_records.len() == 0 && self.int_names.len() == 0
    }
}

/// The size of the cache: the usual one where the configured one is negative.
pub open spec fn cache_size(d: Daemon) -> usize {
    if d.cachesize < 0 {
        DEFAULT_CACHE_SIZE
    } else {
        d.cachesize as usize
    }
}

/// The size of the cache.
pub fn daemon_cache_size(daemon: &Daemon) -> (r: usize)
    ensures
        r == cache_size(*daemon),
{
    if daemon.cachesize < 0 {
        DEFAULT_CACHE_SIZE
    } else {
        daemon.cachesize as usize
    }
}

/// A network that is told to servers: the length of its prefix, and an address that stands for all.
#[derive(Debug, Clone, Copy, PartialEq, Eq, Structural)]
pub struct AddSubnetOpt {
    pub mask: u8,
    pub const_addr: Option<IpAddress>,
}

/// A number within 0 and 255.
pub open spec fn clamp_byte(n: i32) -> u8 {
    if n < 0 {
        0
    } else if n > 255 {
        255
    } else {
        n as u8
    }
}

/// The address of a socket address.
pub open spec fn ip_of(a: SockAddr) -> IpAddress {
    match a {
        SockAddr::V4 { ip, .. } => IpAddress::V4(ip),
        SockAddr::V6 { ip, .. } => IpAddress::V6(ip),
    }
}

/// The address of a socket address.
pub fn sock_ip(a: &SockAddr) -> (r: IpAddress)
    ensures
        r == ip_of(*a),
{
    match a {
        SockAddr::V4 { ip, .. } => IpAddress::V4(*ip),
        SockAddr::V6 { ip, .. } => IpAddress::V6(*ip),
    }
}

/// What is told to servers of a network.
pub open spec fn subnet_opt(s: Option<MySubnet>) -> Option<AddSubnetOpt> {
    match s {
        Some(n) => Some(
            AddSubnetOpt {
                mask: clamp_byte(n.mask),
                const_addr: if n.addr_used {
                    Some(ip_of(n.addr))
                } else {
                    None
                },
            },
        ),
        None => None,
    }
}

/// What is told to servers of a network.
fn to_subnet_opt(s: &Option<MySubnet>) -> (r: Option<AddSubnetOpt>)
    ensures
        r == subnet_opt(*s),
{
    match s {
        Some(n) => {
            let mask: u8 = if n.mask < 0 {
                0
            } else if n.mask > 255 {
                255
            } else {
                n.mask as u8
            };
            let const_addr: Option<IpAddress> = if n.addr_used {
                Some(sock_ip(&n.addr))
            } else {
                None
            };
            Some(AddSubnetOpt { mask, const_addr })
        },
        None => None,
    }
}

/// What the DNS forwarder runs with.
#[derive(Debug)]
pub struct ForwardConfig {
    /// The addresses of the servers.
    pub upstreams: Vec<SockAddr>,
    /// The domains of the servers, in the same order.
    pub server_domains: Vec<String>,
    pub local: LocalData,
    pub cache_size: usize,
    pub min_cache_ttl: u32,
    pub max_cache_ttl: u32,
    pub max_ttl: u32,
    pub neg_ttl: u32,
    pub no_neg_cache: bool,
    pub check_rebind: bool,
    pub local_rebind_ok: bool,
    pub no_rebind: Vec<String>,
    pub bogus_addr: Vec<BogusAddr>,
    pub ignore_addr: Vec<BogusAddr>,
    pub filter_rr: Vec<u16>,
    pub cache_rr: Vec<u16>,
    pub dnssec_valid: bool,
    pub dnssec_proxy: bool,
    pub ftabsize: usize,
    pub randport_limit: usize,
    pub port: u16,
    pub conntrack: bool,
    pub ipsets: Vec<Ipsets>,
    pub nftsets: Vec<Ipsets>,
    pub cmark_alst_en: bool,
    pub allowlists: Vec<Allowlist>,
    pub allowlist_mask: u32,
    pub client_subnet: bool,
    pub add_subnet4: Option<AddSubnetOpt>,
    pub add_subnet6: Option<AddSubnetOpt>,
    pub loop_detect: bool,
    /// The servers that loops are looked for through.
    pub loop_servers: Vec<Server>,
    pub add_mac: bool,
    pub mac_b64: bool,
    pub mac_hex: bool,
    pub strip_mac: bool,
}

/// The types of a list.
pub open spec fn rr_types(v: Seq<RrList>) -> Seq<u16> {
    v.map_values(|r: RrList| r.rr)
}

/// The types of a list.
fn to_rr_types(v: &Vec<RrList>) -> (r: Vec<u16>)
    ensures
        r@ == rr_types(v@),
{
    let mut r: Vec<u16> = Vec::new();
    let mut i: usize = 0;
    while i < v.len()
        invariant
            i <= v@.len(),
            r@.len() == i,
            forall|j: int| 0 <= j < i ==> #[trigger] r@[j] == v@[j].rr,
        decreases v@.len() - i,
    {
        r.push(v[i].rr);
        i += 1;
    }
    assert(r@ =~= rr_types(v@));
    r
}

/// The addresses of servers.
pub open spec fn server_addrs(servers: Seq<ServerView>) -> Seq<SockAddr> {
    servers.map_values(|s: ServerView| s.addr)
}

/// The domains of servers.
pub open spec fn server_domains(servers: Seq<ServerView>) -> Seq<Seq<char>> {
    servers.map_values(|s: ServerView| s.domain)
}

/// A number that is at least one.
pub open spec fn at_least_one(n: i32) -> usize {
    if n < 1 {
        1
    } else {
        n as usize
    }
}

/// A number that is at least one.
fn clamp_to_one(n: i32) -> (r: usize)
    ensures
        r == at_least_one(n),
{
    if n < 1 {
        1
    } else {
        n as usize
    }
}

/// Whether the forwarder runs with what the configuration says. Servers that stand for an answer of their
/// own are none that queries are forwarded to.
pub open spec fn forward_config_of(d: Daemon, c: ForwardConfig) -> bool {
    let servers = servers_where(all_views(d.servers@), false);
    &&& c.upstreams@ == server_addrs(servers)
    &&& views(c.server_domains@) == server_domains(servers)
    &&& local_data_of(d, c.local)
    &&& c.cache_size == cache_size(d)
    &&& c.min_cache_ttl == d.min_cache_ttl
    &&& c.max_cache_ttl == d.max_cache_ttl
    &&& c.max_ttl == d.max_ttl
    &&& c.neg_ttl == d.neg_ttl
    &&& c.no_neg_cache == d.options.no_neg
    &&& c.check_rebind == d.options.no_rebind
    &&& c.local_rebind_ok == d.options.local_rebind
    &&& views(c.no_rebind@) == views(d.no_rebind@)
    &&& c.bogus_addr@ == d.bogus_addr@
    &&& c.ignore_addr@ == d.ignore_addr@
    &&& c.filter_rr@ == rr_types(d.rrlist_filter@)
    &&& c.cache_rr@ == rr_types(d.rrlist_cache@)
    &&& c.dnssec_valid == d.options.dnssec_valid
    &&& c.dnssec_proxy == d.options.dnssec_proxy
    &&& c.ftabsize == at_least_one(d.ftabsize)
    &&& c.randport_limit == at_least_one(d.randport_limit)
    &&& c.port == d.port
    &&& c.conntrack == d.options.conntrack
    &&& all_views(c.ipsets@) == all_views(d.ipsets@)
    &&& all_views(c.nftsets@) == all_views(d.nftsets@)
    &&& c.cmark_alst_en == d.options.cmark_alst_en
    &&& all_views(c.allowlists@) == all_views(d.allowlists@)
    &&& c.allowlist_mask == d.allowlist_mask
    &&& c.client_subnet == d.options.client_subnet
    &&& c.add_subnet4 == subnet_opt(d.add_subnet4)
    &&& c.add_subnet6 == subnet_opt(d.add_subnet6)
    &&& c.loop_detect == d.options.loop_detect
    &&& all_views(c.loop_servers@) == servers
    &&& c.add_mac == d.options.add_mac
    &&& c.mac_b64 == d.options.mac_b64
    &&& c.mac_hex == d.options.mac_hex
    &&& c.strip_mac == d.options.strip_mac
}

/// Takes what the DNS forwarder runs with out of the configuration.
pub fn daemon_forward_config(daemon: &Daemon) -> (c: ForwardConfig)
    ensures
        forward_config_of(*daemon, c),
{
    let servers: Vec<Server> = select_servers(&daemon.servers, false);
    let ghost all = all_views(servers@);
    let mut upstreams: Vec<SockAddr> = Vec::new();
    let mut domains: Vec<String> = Vec::new();
    let mut i: usize = 0;
    while i < servers.len()
        invariant
            i <= servers@.len(),
            all == all_views(servers@),
            upstreams@.len() == i,
            domains@.len() == i,
            forall|j: int| 0 <= j < i ==> #[trigger] upstreams@[j] == all[j].addr,
            forall|j: int| 0 <= j < i ==> (#[trigger] domains@[j])@ == all[j].domain,
        decreases servers@.len() - i,
    {
        assert(all[i as int] == servers@[i as int]@);
        upstreams.push(servers[i].addr);
        domains.push(servers[i].domain.clone());
        i += 1;
    }
    assert(upstreams@ =~= server_addrs(all));
    assert(views(domains@) =~= server_domains(all));
    ForwardConfig {
        upstreams,
        server_domains: domains,
        local: daemon_local_data(daemon),
        cache_size: daemon_cache_size(daemon),
        min_cache_ttl: daemon.min_cache_ttl,
        max_cache_ttl: daemon.max_cache_ttl,
        max_ttl: daemon.max_ttl,
        neg_ttl: daemon.neg_ttl,
        no_neg_cache: daemon.options.no_neg,
        check_rebind: daemon.options.no_rebind,
        local_rebind_ok: daemon.options.local_rebind,
        no_rebind: dup_strings(&daemon.no_rebind),
        bogus_addr: dup_copies(&daemon.bogus_addr),
        ignore_addr: dup_copies(&daemon.ignore_addr),
        filter_rr: to_rr_types(&daemon.rrlist_filter),
        cache_rr: to_rr_types(&daemon.rrlist_cache),
        dnssec_valid: daemon.options.dnssec_valid,
        dnssec_proxy: daemon.options.dnssec_proxy,
        ftabsize: clamp_to_one(daemon.ftabsize),
        randport_limit: clamp_to_one(daemon.randport_limit),
        port: daemon.port,
        conntrack: daemon.options.conntrack,
        ipsets: dup_all(&daemon.ipsets),
        nftsets: dup_all(&daemon.nftsets),
        cmark_alst_en: daemon.options.cmark_alst_en,
        allowlists: dup_all(&daemon.allowlists),
        allowlist_mask: daemon.allowlist_mask,
        client_subnet: daemon.options.client_subnet,
        add_subnet4: to_subnet_opt(&daemon.add_subnet4),
        add_subnet6: to_subnet_opt(&daemon.add_subnet6),
        loop_detect: daemon.options.loop_detect,
        loop_servers: servers,
        add_mac: daemon.options.add_mac,
        mac_b64: daemon.options.mac_b64,
        mac_hex: daemon.options.mac_hex,
        strip_mac: daemon.options.strip_mac,
    }
}

/// Every server either stands for an answer of its own or has queries forwarded to it: no server is lost
/// and none is both.
pub proof fn law_servers_are_split(servers: Seq<ServerView>)
    ensures
        servers_where(servers, true).len() + servers_where(servers, false).len() == servers.len(),
        forall|i: int| 0 <= i < servers.len() ==> servers_where(servers, (#[trigger] servers[i]).flags.literal_address).contains(
            servers[i],
        ),
        forall|literal: bool, i: int|
            0 <= i < servers_where(servers, literal).len() ==> (#[trigger] servers_where(servers, literal)[i]).flags.literal_address
                == literal,
    decreases servers.len(),
{
    if servers.len() > 0 {
        let front = servers.drop_last();
        law_servers_are_split(front);
        let l = servers.last().flags.literal_address;
        let part = servers_where(servers, l);
        assert(part[part.len() - 1] == servers.last());
        assert forall|i: int| 0 <= i < servers.len() implies servers_where(
            servers,
            (#[trigger] servers[i]).flags.literal_address,
        ).contains(servers[i]) by {
            if i < front.len() {
                assert(front[i] == servers[i]);
                let before = servers_where(front, servers[i].flags.literal_address);
                let k = choose|k: int| 0 <= k < before.len() && before[k] == servers[i];
                assert(servers_where(servers, servers[i].flags.literal_address)[k] == servers[i]);
            }
        }
    }
}

} // verus!
