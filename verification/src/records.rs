//! The records and rules that are configured.

use crate::addr::{AllAddr, Ip4, Ip6, IpAddress, SockAddr};
use crate::dhcp_types::{
    clone_netids, nets, AddrList, ConfigFlags, DhOptFlags, DhcpConfig, DhcpNetid, DhcpOpt, DhcpRelay, HwaddrConfig,
};
use crate::dup::{dup_bytes, dup_copies, dup_strings, dup_text, opt_bytes, opt_text, Dup};
use crate::text::views;
use vstd::prelude::*;

verus! {

/// What is known of a server.
#[derive(Debug, Clone, Copy, PartialEq, Eq, Structural)]
pub struct ServerFlags {
    /// The server stands for an answer of its own, and nothing is forwarded to it.
    pub literal_address: bool,
    /// The server was read from a resolv file.
    pub from_resolv: bool,
    pub addr4: bool,
    pub addr6: bool,
    /// The server goes unless it is seen again.
    pub mark: bool,
}

impl ServerFlags {
    /// No flag at all.
    pub fn empty() -> (r: Self)
        ensures
            r == (ServerFlags {
                literal_address: false,
                from_resolv: false,
                addr4: false,
                addr6: false,
                mark: false,
            }),
    {
        ServerFlags { literal_address: false, from_resolv: false, addr4: false, addr6: false, mark: false }
    }
}

/// Addresses that share a prefix.
#[derive(Debug, Clone, Copy)]
pub struct BogusAddr {
    pub addr: AllAddr,
    pub prefix: i32,
}

/// A network that is told to servers.
#[derive(Debug, Clone, Copy)]
pub struct MySubnet {
    pub mask: i32,
    pub addr_used: bool,
    pub addr: SockAddr,
}

/// A type of resource records.
#[derive(Debug, Clone, Copy)]
pub struct RrList {
    pub rr: u16,
}

/// A TXT record, or another record by its data.
#[derive(Debug, Clone)]
pub struct TxtRecord {
    pub name: String,
    pub txt: Vec<u8>,
    pub class: u16,
    pub stat: i32,
}

/// The value of a `TxtRecord`.
#[verifier::ext_equal]
pub struct TxtRecordView {
    pub name: Seq<char>,
    pub txt: Seq<u8>,
    pub class: u16,
    pub stat: i32,
}

impl View for TxtRecord {
    type V = TxtRecordView;

    open spec fn view(&self) -> TxtRecordView {
        TxtRecordView {
            name: self.name@,
            txt: self.txt@,
            class: self.class,
            stat: self.stat,
        }
    }
}

impl Dup for TxtRecord {
    fn dup(&self) -> (r: Self) {
        TxtRecord {
            name: self.name.clone(),
            txt: dup_copies(&self.txt),
            class: self.class,
            stat: self.stat,
        }
    }
}

/// An MX or SRV record.
#[derive(Debug, Clone)]
pub struct MxSrvRecord {
    pub name: String,
    pub target: String,
    pub is_srv: bool,
    pub srv_port: i32,
    pub priority: i32,
    pub weight: i32,
    pub offset: u32,
}

/// The value of a `MxSrvRecord`.
#[verifier::ext_equal]
pub struct MxSrvRecordView {
    pub name: Seq<char>,
    pub target: Seq<char>,
    pub is_srv: bool,
    pub srv_port: i32,
    pub priority: i32,
    pub weight: i32,
    pub offset: u32,
}

impl View for MxSrvRecord {
    type V = MxSrvRecordView;

    open spec fn view(&self) -> MxSrvRecordView {
        MxSrvRecordView {
            name: self.name@,
            target: self.target@,
            is_srv: self.is_srv,
            srv_port: self.srv_port,
            priority: self.priority,
            weight: self.weight,
            offset: self.offset,
        }
    }
}

impl Dup for MxSrvRecord {
    fn dup(&self) -> (r: Self) {
        MxSrvRecord {
            name: self.name.clone(),
            target: self.target.clone(),
            is_srv: self.is_srv,
            srv_port: self.srv_port,
            priority: self.priority,
            weight: self.weight,
            offset: self.offset,
        }
    }
}

/// A PTR record.
#[derive(Debug, Clone)]
pub struct PtrRecord {
    pub name: String,
    pub ptr: String,
}

/// The value of a `PtrRecord`.
#[verifier::ext_equal]
pub struct PtrRecordView {
    pub name: Seq<char>,
    pub ptr: Seq<char>,
}

impl View for PtrRecord {
    type V = PtrRecordView;

    open spec fn view(&self) -> PtrRecordView {
        PtrRecordView {
            name: self.name@,
            ptr: self.ptr@,
        }
    }
}

impl Dup for PtrRecord {
    fn dup(&self) -> (r: Self) {
        PtrRecord {
            name: self.name.clone(),
            ptr: self.ptr.clone(),
        }
    }
}

/// Names and their addresses.
#[derive(Debug, Clone)]
pub struct HostRecord {
    pub ttl: i32,
    pub flags: i32,
    pub names: Vec<String>,
    pub addr4: Option<Ip4>,
    pub addr6: Option<Ip6>,
}

/// The value of a `HostRecord`.
#[verifier::ext_equal]
pub struct HostRecordView {
    pub ttl: i32,
    pub flags: i32,
    pub names: Seq<Seq<char>>,
    pub addr4: Option<Ip4>,
    pub addr6: Option<Ip6>,
}

impl View for HostRecord {
    type V = HostRecordView;

    open spec fn view(&self) -> HostRecordView {
        HostRecordView {
            ttl: self.ttl,
            flags: self.flags,
            names: views(self.names@),
            addr4: self.addr4,
            addr6: self.addr6,
        }
    }
}

impl Dup for HostRecord {
    fn dup(&self) -> (r: Self) {
        HostRecord {
            ttl: self.ttl,
            flags: self.flags,
            names: dup_strings(&self.names),
            addr4: self.addr4,
            addr6: self.addr6,
        }
    }
}

/// An alias of a name.
#[derive(Debug, Clone)]
pub struct Cname {
    pub ttl: i32,
    pub flag: i32,
    pub alias: String,
    pub target: String,
}

/// The value of a `Cname`.
#[verifier::ext_equal]
pub struct CnameView {
    pub ttl: i32,
    pub flag: i32,
    pub alias: Seq<char>,
    pub target: Seq<char>,
}

impl View for Cname {
    type V = CnameView;

    open spec fn view(&self) -> CnameView {
        CnameView {
            ttl: self.ttl,
            flag: self.flag,
            alias: self.alias@,
            target: self.target@,
        }
    }
}

impl Dup for Cname {
    fn dup(&self) -> (r: Self) {
        Cname {
            ttl: self.ttl,
            flag: self.flag,
            alias: self.alias.clone(),
            target: self.target.clone(),
        }
    }
}

/// A NAPTR record.
#[derive(Debug, Clone)]
pub struct Naptr {
    pub name: String,
    pub replace: String,
    pub regexp: String,
    pub services: String,
    pub flags: String,
    pub order: u32,
    pub pref: u32,
}

/// The value of a `Naptr`.
#[verifier::ext_equal]
pub struct NaptrView {
    pub name: Seq<char>,
    pub replace: Seq<char>,
    pub regexp: Seq<char>,
    pub services: Seq<char>,
    pub flags: Seq<char>,
    pub order: u32,
    pub pref: u32,
}

impl View for Naptr {
    type V = NaptrView;

    open spec fn view(&self) -> NaptrView {
        NaptrView {
            name: self.name@,
            replace: self.replace@,
            regexp: self.regexp@,
            services: self.services@,
            flags: self.flags@,
            order: self.order,
            pref: self.pref,
        }
    }
}

impl Dup for Naptr {
    fn dup(&self) -> (r: Self) {
        Naptr {
            name: self.name.clone(),
            replace: self.replace.clone(),
            regexp: self.regexp.clone(),
            services: self.services.clone(),
            flags: self.flags.clone(),
            order: self.order,
            pref: self.pref,
        }
    }
}

/// A name of the addresses of an interface.
#[derive(Debug, Clone)]
pub struct InterfaceName {
    pub name: String,
    pub intr: String,
    pub flags: i32,
    pub proto4: Option<Ip4>,
    pub proto6: Option<Ip6>,
    pub addrs: Vec<IpAddress>,
}

/// The value of a `InterfaceName`.
#[verifier::ext_equal]
pub struct InterfaceNameView {
    pub name: Seq<char>,
    pub intr: Seq<char>,
    pub flags: i32,
    pub proto4: Option<Ip4>,
    pub proto6: Option<Ip6>,
    pub addrs: Seq<IpAddress>,
}

impl View for InterfaceName {
    type V = InterfaceNameView;

    open spec fn view(&self) -> InterfaceNameView {
        InterfaceNameView {
            name: self.name@,
            intr: self.intr@,
            flags: self.flags,
            proto4: self.proto4,
            proto6: self.proto6,
            addrs: self.addrs@,
        }
    }
}

impl Dup for InterfaceName {
    fn dup(&self) -> (r: Self) {
        InterfaceName {
            name: self.name.clone(),
            intr: self.intr.clone(),
            flags: self.flags,
            proto4: self.proto4,
            proto6: self.proto6,
            addrs: dup_copies(&self.addrs),
        }
    }
}

/// A domain whose names are made from addresses.
#[derive(Debug, Clone)]
pub struct SynthDomain {
    pub domain: String,
    pub prefix: Option<String>,
    pub start: AllAddr,
    pub end: AllAddr,
}

/// The value of a `SynthDomain`.
#[verifier::ext_equal]
pub struct SynthDomainView {
    pub domain: Seq<char>,
    pub prefix: Option<Seq<char>>,
    pub start: AllAddr,
    pub end: AllAddr,
}

impl View for SynthDomain {
    type V = SynthDomainView;

    open spec fn view(&self) -> SynthDomainView {
        SynthDomainView {
            domain: self.domain@,
            prefix: opt_text(self.prefix),
            start: self.start,
            end: self.end,
        }
    }
}

impl Dup for SynthDomain {
    fn dup(&self) -> (r: Self) {
        SynthDomain {
            domain: self.domain.clone(),
            prefix: dup_text(&self.prefix),
            start: self.start,
            end: self.end,
        }
    }
}

/// A server that queries are forwarded to.
#[derive(Debug, Clone)]
pub struct Server {
    pub flags: ServerFlags,
    pub domain: String,
    pub addr: SockAddr,
    pub source_addr: SockAddr,
    pub interface: String,
    pub ifindex: u32,
    pub queries: u32,
    pub failed_queries: u32,
    pub nxdomain_replies: u32,
    pub retrys: u32,
    pub query_latency: u32,
    pub mma_latency: u32,
    pub forwardcount: u32,
}

/// The value of a `Server`.
#[verifier::ext_equal]
pub struct ServerView {
    pub flags: ServerFlags,
    pub domain: Seq<char>,
    pub addr: SockAddr,
    pub source_addr: SockAddr,
    pub interface: Seq<char>,
    pub ifindex: u32,
    pub queries: u32,
    pub failed_queries: u32,
    pub nxdomain_replies: u32,
    pub retrys: u32,
    pub query_latency: u32,
    pub mma_latency: u32,
    pub forwardcount: u32,
}

impl View for Server {
    type V = ServerView;

    open spec fn view(&self) -> ServerView {
        ServerView {
            flags: self.flags,
            domain: self.domain@,
            addr: self.addr,
            source_addr: self.source_addr,
            interface: self.interface@,
            ifindex: self.ifindex,
            queries: self.queries,
            failed_queries: self.failed_queries,
            nxdomain_replies: self.nxdomain_replies,
            retrys: self.retrys,
            query_latency: self.query_latency,
            mma_latency: self.mma_latency,
            forwardcount: self.forwardcount,
        }
    }
}

impl Dup for Server {
    fn dup(&self) -> (r: Self) {
        Server {
            flags: self.flags,
            domain: self.domain.clone(),
            addr: self.addr,
            source_addr: self.source_addr,
            interface: self.interface.clone(),
            ifindex: self.ifindex,
            queries: self.queries,
            failed_queries: self.failed_queries,
            nxdomain_replies: self.nxdomain_replies,
            retrys: self.retrys,
            query_latency: self.query_latency,
            mma_latency: self.mma_latency,
            forwardcount: self.forwardcount,
        }
    }
}

/// Sets of addresses that get the addresses of a domain.
#[derive(Debug, Clone)]
pub struct Ipsets {
    pub sets: Vec<String>,
    pub domain: String,
}

/// The value of a `Ipsets`.
#[verifier::ext_equal]
pub struct IpsetsView {
    pub sets: Seq<Seq<char>>,
    pub domain: Seq<char>,
}

impl View for Ipsets {
    type V = IpsetsView;

    open spec fn view(&self) -> IpsetsView {
        IpsetsView {
            sets: views(self.sets@),
            domain: self.domain@,
        }
    }
}

impl Dup for Ipsets {
    fn dup(&self) -> (r: Self) {
        Ipsets {
            sets: dup_strings(&self.sets),
            domain: self.domain.clone(),
        }
    }
}

/// Names that clients with a mark may ask for.
#[derive(Debug, Clone)]
pub struct Allowlist {
    pub mark: u32,
    pub mask: u32,
    pub patterns: Vec<String>,
}

/// The value of a `Allowlist`.
#[verifier::ext_equal]
pub struct AllowlistView {
    pub mark: u32,
    pub mask: u32,
    pub patterns: Seq<Seq<char>>,
}

impl View for Allowlist {
    type V = AllowlistView;

    open spec fn view(&self) -> AllowlistView {
        AllowlistView {
            mark: self.mark,
            mask: self.mask,
            patterns: views(self.patterns@),
        }
    }
}

impl Dup for Allowlist {
    fn dup(&self) -> (r: Self) {
        Allowlist {
            mark: self.mark,
            mask: self.mask,
            patterns: dup_strings(&self.patterns),
        }
    }
}

/// An interface by its name or address; neither stands for the host itself.
#[derive(Debug, Clone)]
pub struct Iname {
    pub name: Option<String>,
    pub addr: Option<SockAddr>,
    pub flags: u32,
}

/// The value of a `Iname`.
#[verifier::ext_equal]
pub struct InameView {
    pub name: Option<Seq<char>>,
    pub addr: Option<SockAddr>,
    pub flags: u32,
}

impl View for Iname {
    type V = InameView;

    open spec fn view(&self) -> InameView {
        InameView {
            name: opt_text(self.name),
            addr: self.addr,
            flags: self.flags,
        }
    }
}

impl Dup for Iname {
    fn dup(&self) -> (r: Self) {
        Iname {
            name: dup_text(&self.name),
            addr: self.addr,
            flags: self.flags,
        }
    }
}

/// What is advertised on an interface.
#[derive(Debug, Clone)]
pub struct RaInterface {
    pub name: String,
    pub mtu_name: Option<String>,
    pub interval: i32,
    pub lifetime: i32,
    pub prio: i32,
    pub mtu: i32,
}

/// The value of a `RaInterface`.
#[verifier::ext_equal]
pub struct RaInterfaceView {
    pub name: Seq<char>,
    pub mtu_name: Option<Seq<char>>,
    pub interval: i32,
    pub lifetime: i32,
    pub prio: i32,
    pub mtu: i32,
}

impl View for RaInterface {
    type V = RaInterfaceView;

    open spec fn view(&self) -> RaInterfaceView {
        RaInterfaceView {
            name: self.name@,
            mtu_name: opt_text(self.mtu_name),
            interval: self.interval,
            lifetime: self.lifetime,
            prio: self.prio,
            mtu: self.mtu,
        }
    }
}

impl Dup for RaInterface {
    fn dup(&self) -> (r: Self) {
        RaInterface {
            name: self.name.clone(),
            mtu_name: dup_text(&self.mtu_name),
            interval: self.interval,
            lifetime: self.lifetime,
            prio: self.prio,
            mtu: self.mtu,
        }
    }
}

/// An interface and the names of those that are bridged to it.
#[derive(Debug, Clone)]
pub struct BridgeConfig {
    pub iface: String,
    pub aliases: Vec<String>,
}

/// The value of a `BridgeConfig`.
#[verifier::ext_equal]
pub struct BridgeConfigView {
    pub iface: Seq<char>,
    pub aliases: Seq<Seq<char>>,
}

impl View for BridgeConfig {
    type V = BridgeConfigView;

    open spec fn view(&self) -> BridgeConfigView {
        BridgeConfigView {
            iface: self.iface@,
            aliases: views(self.aliases@),
        }
    }
}

impl Dup for BridgeConfig {
    fn dup(&self) -> (r: Self) {
        BridgeConfig {
            iface: self.iface.clone(),
            aliases: dup_strings(&self.aliases),
        }
    }
}

/// A pattern of client data that sets tags.
#[derive(Debug, Clone)]
pub struct TagRule {
    pub data: Vec<u8>,
    pub netid: Vec<DhcpNetid>,
}

/// The value of a `TagRule`.
#[verifier::ext_equal]
pub struct TagRuleView {
    pub data: Seq<u8>,
    pub netid: Seq<Seq<char>>,
}

impl View for TagRule {
    type V = TagRuleView;

    open spec fn view(&self) -> TagRuleView {
        TagRuleView {
            data: self.data@,
            netid: nets(self.netid@),
        }
    }
}

impl Dup for TagRule {
    fn dup(&self) -> (r: Self) {
        TagRule {
            data: dup_copies(&self.data),
            netid: clone_netids(&self.netid),
        }
    }
}

/// What clients with some tags boot from.
#[derive(Debug, Clone)]
pub struct BootRule {
    pub file: Option<String>,
    pub sname: Option<String>,
    pub tftp_sname: Option<String>,
    pub next_server: Ip4,
    pub netid: Vec<DhcpNetid>,
}

/// The value of a `BootRule`.
#[verifier::ext_equal]
pub struct BootRuleView {
    pub file: Option<Seq<char>>,
    pub sname: Option<Seq<char>>,
    pub tftp_sname: Option<Seq<char>>,
    pub next_server: Ip4,
    pub netid: Seq<Seq<char>>,
}

impl View for BootRule {
    type V = BootRuleView;

    open spec fn view(&self) -> BootRuleView {
        BootRuleView {
            file: opt_text(self.file),
            sname: opt_text(self.sname),
            tftp_sname: opt_text(self.tftp_sname),
            next_server: self.next_server,
            netid: nets(self.netid@),
        }
    }
}

impl Dup for BootRule {
    fn dup(&self) -> (r: Self) {
        BootRule {
            file: dup_text(&self.file),
            sname: dup_text(&self.sname),
            tftp_sname: dup_text(&self.tftp_sname),
            next_server: self.next_server,
            netid: clone_netids(&self.netid),
        }
    }
}

/// A delay of replies to clients with some tags.
#[derive(Debug, Clone)]
pub struct DhcpReplyDelay {
    pub delay_secs: i32,
    pub filter: Vec<DhcpNetid>,
}

/// The value of a `DhcpReplyDelay`.
#[verifier::ext_equal]
pub struct DhcpReplyDelayView {
    pub delay_secs: i32,
    pub filter: Seq<Seq<char>>,
}

impl View for DhcpReplyDelay {
    type V = DhcpReplyDelayView;

    open spec fn view(&self) -> DhcpReplyDelayView {
        DhcpReplyDelayView {
            delay_secs: self.delay_secs,
            filter: nets(self.filter@),
        }
    }
}

impl Dup for DhcpReplyDelay {
    fn dup(&self) -> (r: Self) {
        DhcpReplyDelay {
            delay_secs: self.delay_secs,
            filter: clone_netids(&self.filter),
        }
    }
}

/// A list of tags.
#[derive(Debug, Clone)]
pub struct NetidList {
    pub list: Vec<DhcpNetid>,
}

/// The value of a `NetidList`.
#[verifier::ext_equal]
pub struct NetidListView {
    pub list: Seq<Seq<char>>,
}

impl View for NetidList {
    type V = NetidListView;

    open spec fn view(&self) -> NetidListView {
        NetidListView {
            list: nets(self.list@),
        }
    }
}

impl Dup for NetidList {
    fn dup(&self) -> (r: Self) {
        NetidList {
            list: clone_netids(&self.list),
        }
    }
}

/// The value of a `DhcpConfig`.
#[verifier::ext_equal]
pub struct DhcpConfigView {
    pub flags: ConfigFlags,
    pub clid: Option<Seq<u8>>,
    pub hostname: Option<Seq<char>>,
    pub domain: Option<Seq<char>>,
    pub netid: Seq<Seq<char>>,
    pub filter: Seq<Seq<char>>,
    pub addr: Ip4,
    pub decline_time: Option<u64>,
    pub lease_time: u32,
    pub hwaddrs: Seq<HwaddrConfig>,
    pub addr6: Seq<AddrList>,
}

impl View for DhcpConfig {
    type V = DhcpConfigView;

    open spec fn view(&self) -> DhcpConfigView {
        DhcpConfigView {
            flags: self.flags,
            clid: opt_bytes(self.clid),
            hostname: opt_text(self.hostname),
            domain: opt_text(self.domain),
            netid: nets(self.netid@),
            filter: nets(self.filter@),
            addr: self.addr,
            decline_time: self.decline_time,
            lease_time: self.lease_time,
            hwaddrs: self.hwaddrs@,
            addr6: self.addr6@,
        }
    }
}

impl Dup for DhcpConfig {
    fn dup(&self) -> (r: Self) {
        DhcpConfig {
            flags: self.flags,
            clid: dup_bytes(&self.clid),
            hostname: dup_text(&self.hostname),
            domain: dup_text(&self.domain),
            netid: clone_netids(&self.netid),
            filter: clone_netids(&self.filter),
            addr: self.addr,
            decline_time: self.decline_time,
            lease_time: self.lease_time,
            hwaddrs: dup_copies(&self.hwaddrs),
            addr6: dup_copies(&self.addr6),
        }
    }
}

/// The value of a `DhcpOpt`.
#[verifier::ext_equal]
pub struct DhcpOptView {
    pub opt: i32,
    pub flags: DhOptFlags,
    pub val: Option<Seq<u8>>,
    pub netid: Seq<Seq<char>>,
    pub encap: i32,
    pub vendor_class: Option<Seq<u8>>,
}

impl View for DhcpOpt {
    type V = DhcpOptView;

    open spec fn view(&self) -> DhcpOptView {
        DhcpOptView {
            opt: self.opt,
            flags: self.flags,
            val: opt_bytes(self.val),
            netid: nets(self.netid@),
            encap: self.encap,
            vendor_class: opt_bytes(self.vendor_class),
        }
    }
}

impl Dup for DhcpOpt {
    fn dup(&self) -> (r: Self) {
        DhcpOpt {
            opt: self.opt,
            flags: self.flags,
            val: dup_bytes(&self.val),
            netid: clone_netids(&self.netid),
            encap: self.encap,
            vendor_class: dup_bytes(&self.vendor_class),
        }
    }
}

/// The value of a `DhcpRelay`.
#[verifier::ext_equal]
pub struct DhcpRelayView {
    pub local_addr: AllAddr,
    pub server_addr: AllAddr,
    pub uplink_addr: AllAddr,
    pub interface: Option<Seq<char>>,
    pub iface_index: i32,
    pub port: i32,
    pub split_mode: i32,
    pub warned: i32,
    pub matchcount: i32,
}

impl View for DhcpRelay {
    type V = DhcpRelayView;

    open spec fn view(&self) -> DhcpRelayView {
        DhcpRelayView {
            local_addr: self.local_addr,
            server_addr: self.server_addr,
            uplink_addr: self.uplink_addr,
            interface: opt_text(self.interface),
            iface_index: self.iface_index,
            port: self.port,
            split_mode: self.split_mode,
            warned: self.warned,
            matchcount: self.matchcount,
        }
    }
}

impl Dup for DhcpRelay {
    fn dup(&self) -> (r: Self) {
        DhcpRelay {
            local_addr: self.local_addr,
            server_addr: self.server_addr,
            uplink_addr: self.uplink_addr,
            interface: dup_text(&self.interface),
            iface_index: self.iface_index,
            port: self.port,
            split_mode: self.split_mode,
            warned: self.warned,
            matchcount: self.matchcount,
        }
    }
}

} // verus!
