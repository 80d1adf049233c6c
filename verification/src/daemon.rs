//! The configuration and state of the daemon.

use crate::dhcp_common::tags::TagIf;
use crate::dhcp_types::{DhcpConfig, DhcpContext, DhcpOpt, DhcpRelay};
use crate::records::{
    Allowlist, BogusAddr, BootRule, BridgeConfig, Cname, DhcpReplyDelay, HostRecord, Iname, InterfaceName, Ipsets,
    MxSrvRecord, MySubnet, Naptr, NetidList, PtrRecord, RaInterface, RrList, Server, SynthDomain, TagRule, TxtRecord,
};
use vstd::prelude::*;

verus! {

/// What can be switched on and off.
#[derive(Debug, Clone, Copy, PartialEq, Eq, Structural)]
pub struct Options {
    /// Read hardware addresses from the ethers file.
    pub ethers: bool,
    /// Advertise routes on all networks that DHCPv6 serves.
    pub ra: bool,
    /// Do not probe addresses before they are given out.
    pub no_ping: bool,
    /// Do not answer queries on the daemon itself.
    pub no_ident: bool,
    pub nodots_local: bool,
    pub log: bool,
    pub log_only_failed: bool,
    pub auth_log: bool,
    pub extralog: bool,
    pub log_proto: bool,
    pub no_neg: bool,
    pub no_rebind: bool,
    pub local_rebind: bool,
    pub dnssec_valid: bool,
    pub dnssec_proxy: bool,
    pub conntrack: bool,
    pub cmark_alst_en: bool,
    pub client_subnet: bool,
    pub loop_detect: bool,
    pub add_mac: bool,
    pub mac_b64: bool,
    pub mac_hex: bool,
    pub strip_mac: bool,
    pub lease_ro: bool,
    pub lease_renew: bool,
    pub consec_addr: bool,
    pub rapid_commit: bool,
    pub leasequery: bool,
    pub quiet_dhcp: bool,
    pub log_opts: bool,
    pub authoritative: bool,
    /// Listen on the addresses of interfaces, as they are at the start.
    pub nowild: bool,
    /// Listen on the addresses of interfaces, as they come and go.
    pub cleverbind: bool,
    pub tftp: bool,
    pub tftp_secure: bool,
    pub tftp_noblock: bool,
    pub tftp_lc: bool,
    pub single_port: bool,
    pub tftp_apref_ip: bool,
    pub tftp_apref_mac: bool,
    pub quiet_tftp: bool,
    pub quiet_ra: bool,
    pub no_hosts: bool,
    /// Tell the script what hosts come and go.
    pub script_arp: bool,
    pub dbus: bool,
    pub ubus: bool,
}

/// Nothing is switched on.
pub open spec fn no_options() -> Options {
    Options {
        ethers: false,
        ra: false,
        no_ping: false,
        no_ident: false,
        nodots_local: false,
        log: false,
        log_only_failed: false,
        auth_log: false,
        extralog: false,
        log_proto: false,
        no_neg: false,
        no_rebind: false,
        local_rebind: false,
        dnssec_valid: false,
        dnssec_proxy: false,
        conntrack: false,
        cmark_alst_en: false,
        client_subnet: false,
        loop_detect: false,
        add_mac: false,
        mac_b64: false,
        mac_hex: false,
        strip_mac: false,
        lease_ro: false,
        lease_renew: false,
        consec_addr: false,
        rapid_commit: false,
        leasequery: false,
        quiet_dhcp: false,
        log_opts: false,
        authoritative: false,
        nowild: false,
        cleverbind: false,
        tftp: false,
        tftp_secure: false,
        tftp_noblock: false,
        tftp_lc: false,
        single_port: false,
        tftp_apref_ip: false,
        tftp_apref_mac: false,
        quiet_tftp: false,
        quiet_ra: false,
        no_hosts: false,
        script_arp: false,
        dbus: false,
        ubus: false,
    }
}

impl Options {
    /// Nothing is switched on.
    pub fn none() -> (r: Self)
        ensures
            r == no_options(),
    {
        Options {
            ethers: false,
            ra: false,
            no_ping: false,
            no_ident: false,
            nodots_local: false,
            log: false,
            log_only_failed: false,
            auth_log: false,
            extralog: false,
            log_proto: false,
            no_neg: false,
            no_rebind: false,
            local_rebind: false,
            dnssec_valid: false,
            dnssec_proxy: false,
            conntrack: false,
            cmark_alst_en: false,
            client_subnet: false,
            loop_detect: false,
            add_mac: false,
            mac_b64: false,
            mac_hex: false,
            strip_mac: false,
            lease_ro: false,
            lease_renew: false,
            consec_addr: false,
            rapid_commit: false,
            leasequery: false,
            quiet_dhcp: false,
            log_opts: false,
            authoritative: false,
            nowild: false,
            cleverbind: false,
            tftp: false,
            tftp_secure: false,
            tftp_noblock: false,
            tftp_lc: false,
            single_port: false,
            tftp_apref_ip: false,
            tftp_apref_mac: false,
            quiet_tftp: false,
            quiet_ra: false,
            no_hosts: false,
            script_arp: false,
            dbus: false,
            ubus: false,
        }
    }
}

/// The daemon's configuration and state.
#[derive(Debug)]
pub struct Daemon {
    pub options: Options,
    pub username: Option<String>,
    pub groupname: Option<String>,
    pub port: u16,
    pub query_port: u16,
    /// A negative size stands for the usual one.
    pub cachesize: i32,
    pub local_ttl: u32,
    pub neg_ttl: u32,
    pub max_ttl: u32,
    pub min_cache_ttl: u32,
    pub max_cache_ttl: u32,
    pub edns_pktsz: u16,
    pub servers: Vec<Server>,
    pub txt: Vec<TxtRecord>,
    pub rr: Vec<TxtRecord>,
    pub mxnames: Vec<MxSrvRecord>,
    pub ptr: Vec<PtrRecord>,
    pub naptr: Vec<Naptr>,
    pub host_records: Vec<HostRecord>,
    pub cnames: Vec<Cname>,
    pub int_names: Vec<InterfaceName>,
    pub synth_domains: Vec<SynthDomain>,
    pub no_rebind: Vec<String>,
    pub bogus_addr: Vec<BogusAddr>,
    pub ignore_addr: Vec<BogusAddr>,
    pub rrlist_filter: Vec<RrList>,
    pub rrlist_cache: Vec<RrList>,
    pub ftabsize: i32,
    pub randport_limit: i32,
    pub ipsets: Vec<Ipsets>,
    pub nftsets: Vec<Ipsets>,
    pub allowlists: Vec<Allowlist>,
    pub allowlist_mask: u32,
    pub add_subnet4: Option<MySubnet>,
    pub add_subnet6: Option<MySubnet>,
    pub if_names: Vec<Iname>,
    pub if_except: Vec<Iname>,
    pub if_addrs: Vec<Iname>,
    pub auth_interfaces: Vec<Iname>,
    pub dhcp_except: Vec<Iname>,
    pub tftp_interfaces: Vec<Iname>,
    pub dhcp: Vec<DhcpContext>,
    pub dhcp6: Vec<DhcpContext>,
    pub dhcp_conf: Vec<DhcpConfig>,
    pub dhcp_opts: Vec<DhcpOpt>,
    pub relay4: Vec<DhcpRelay>,
    pub relay6: Vec<DhcpRelay>,
    pub tag_if: Vec<TagIf>,
    pub dhcp_vendors: Vec<TagRule>,
    pub dhcp_userclasses: Vec<TagRule>,
    pub dhcp_macs: Vec<TagRule>,
    pub dhcp_relay_ids: Vec<TagRule>,
    pub dhcp_match: Vec<TagRule>,
    pub dhcp_name_match: Vec<TagRule>,
    pub dhcp_reply_delays: Vec<DhcpReplyDelay>,
    pub boot_config: Vec<BootRule>,
    pub dhcp_ignore: Vec<NetidList>,
    pub bootp_dynamic: Vec<NetidList>,
    pub leasequery_addr: Vec<BogusAddr>,
    pub domain_suffix: Option<String>,
    pub lease_file: Option<String>,
    pub lease_change_command: Option<String>,
    pub dhcp_server_port: i32,
    pub dhcp_client_port: i32,
    pub doing_ra: bool,
    pub doing_dhcp6: bool,
    /// The id of a DUID that was configured.
    pub duid_config: Option<Vec<u8>>,
    /// The enterprise number of a DUID that was configured.
    pub duid_enterprise: u32,
    /// The DUID of the DHCPv6 server.
    pub duid: Option<Vec<u8>>,
    pub ra_interfaces: Vec<RaInterface>,
    pub bridges: Vec<BridgeConfig>,
    pub tftp_prefix: Option<String>,
    pub tftp_max: i32,
    pub tftp_mtu: i32,
    pub start_tftp_port: i32,
    pub end_tftp_port: i32,
    /// The paths of further hosts files.
    pub addn_hosts: Vec<String>,
    /// The paths of resolv files.
    pub resolv_files: Vec<String>,
    pub reload_count: u32,
    pub dns_dirty: bool,
    /// When the next alarm is due, in seconds.
    pub next_alarm: Option<u64>,
    pub dump_file: Option<String>,
    pub dump_mask: u32,
    pub dbus_name: Option<String>,
}

/// Whether nothing was configured: everything is empty, off or as usual.
pub open spec fn unconfigured(d: Daemon) -> bool {
    &&& d.options == no_options()
    &&& d.username is None
    &&& d.groupname is None
    &&& d.port == 53
    &&& d.query_port == 0
    &&& d.cachesize == 150
    &&& d.local_ttl == 0
    &&& d.neg_ttl == 0
    &&& d.max_ttl == 0
    &&& d.min_cache_ttl == 0
    &&& d.max_cache_ttl == 0
    &&& d.edns_pktsz == 1232
    &&& d.servers@.len() == 0
    &&& d.txt@.len() == 0
    &&& d.rr@.len() == 0
    &&& d.mxnames@.len() == 0
    &&& d.ptr@.len() == 0
    &&& d.naptr@.len() == 0
    &&& d.host_records@.len() == 0
    &&& d.cnames@.len() == 0
    &&& d.int_names@.len() == 0
    &&& d.synth_domains@.len() == 0
    &&& d.no_rebind@.len() == 0
    &&& d.bogus_addr@.len() == 0
    &&& d.ignore_addr@.len() == 0
    &&& d.rrlist_filter@.len() == 0
    &&& d.rrlist_cache@.len() == 0
    &&& d.ftabsize == 150
    &&& d.randport_limit == 1
    &&& d.ipsets@.len() == 0
    &&& d.nftsets@.len() == 0
    &&& d.allowlists@.len() == 0
    &&& d.allowlist_mask == 0
    &&& d.add_subnet4 is None
    &&& d.add_subnet6 is None
    &&& d.if_names@.len() == 0
    &&& d.if_except@.len() == 0
    &&& d.if_addrs@.len() == 0
    &&& d.auth_interfaces@.len() == 0
    &&& d.dhcp_except@.len() == 0
    &&& d.tftp_interfaces@.len() == 0
    &&& d.dhcp@.len() == 0
    &&& d.dhcp6@.len() == 0
    &&& d.dhcp_conf@.len() == 0
    &&& d.dhcp_opts@.len() == 0
    &&& d.relay4@.len() == 0
    &&& d.relay6@.len() == 0
    &&& d.tag_if@.len() == 0
    &&& d.dhcp_vendors@.len() == 0
    &&& d.dhcp_userclasses@.len() == 0
    &&& d.dhcp_macs@.len() == 0
    &&& d.dhcp_relay_ids@.len() == 0
    &&& d.dhcp_match@.len() == 0
    &&& d.dhcp_name_match@.len() == 0
    &&& d.dhcp_reply_delays@.len() == 0
    &&& d.boot_config@.len() == 0
    &&& d.dhcp_ignore@.len() == 0
    &&& d.bootp_dynamic@.len() == 0
    &&& d.leasequery_addr@.len() == 0
    &&& d.domain_suffix is None
    &&& d.lease_file is None
    &&& d.lease_change_command is None
    &&& d.dhcp_server_port == 67
    &&& d.dhcp_client_port == 68
    &&& !d.doing_ra
    &&& !d.doing_dhcp6
    &&& d.duid_config is None
    &&& d.duid_enterprise == 0
    &&& d.duid is None
    &&& d.ra_interfaces@.len() == 0
    &&& d.bridges@.len() == 0
    &&& d.tftp_prefix is None
    &&& d.tftp_max == 50
    &&& d.tftp_mtu == 0
    &&& d.start_tftp_port == 0
    &&& d.end_tftp_port == 0
    &&& d.addn_hosts@.len() == 0
    &&& d.resolv_files@.len() == 0
    &&& d.reload_count == 0
    &&& !d.dns_dirty
    &&& d.next_alarm is None
    &&& d.dump_file is None
    &&& d.dump_mask == 0
    &&& d.dbus_name is None
}

impl Default for Daemon {
    fn default() -> (d: Self)
        ensures
            unconfigured(d),
    {
        Daemon {
            options: Options::none(),
            username: None,
            groupname: None,
            port: 53,
            query_port: 0,
            cachesize: 150,
            local_ttl: 0,
            neg_ttl: 0,
            max_ttl: 0,
            min_cache_ttl: 0,
            max_cache_ttl: 0,
            edns_pktsz: 1232,
            servers: Vec::new(),
            txt: Vec::new(),
            rr: Vec::new(),
            mxnames: Vec::new(),
            ptr: Vec::new(),
            naptr: Vec::new(),
            host_records: Vec::new(),
            cnames: Vec::new(),
            int_names: Vec::new(),
            synth_domains: Vec::new(),
            no_rebind: Vec::new(),
            bogus_addr: Vec::new(),
            ignore_addr: Vec::new(),
            rrlist_filter: Vec::new(),
            rrlist_cache: Vec::new(),
            ftabsize: 150,
            randport_limit: 1,
            ipsets: Vec::new(),
            nftsets: Vec::new(),
            allowlists: Vec::new(),
            allowlist_mask: 0,
            add_subnet4: None,
            add_subnet6: None,
            if_names: Vec::new(),
            if_except: Vec::new(),
            if_addrs: Vec::new(),
            auth_interfaces: Vec::new(),
            dhcp_except: Vec::new(),
            tftp_interfaces: Vec::new(),
            dhcp: Vec::new(),
            dhcp6: Vec::new(),
            dhcp_conf: Vec::new(),
            dhcp_opts: Vec::new(),
            relay4: Vec::new(),
            relay6: Vec::new(),
            tag_if: Vec::new(),
            dhcp_vendors: Vec::new(),
            dhcp_userclasses: Vec::new(),
            dhcp_macs: Vec::new(),
            dhcp_relay_ids: Vec::new(),
            dhcp_match: Vec::new(),
            dhcp_name_match: Vec::new(),
            dhcp_reply_delays: Vec::new(),
            boot_config: Vec::new(),
            dhcp_ignore: Vec::new(),
            bootp_dynamic: Vec::new(),
            leasequery_addr: Vec::new(),
            domain_suffix: None,
            lease_file: None,
            lease_change_command: None,
            dhcp_server_port: 67,
            dhcp_client_port: 68,
            doing_ra: false,
            doing_dhcp6: false,
            duid_config: None,
            duid_enterprise: 0,
            duid: None,
            ra_interfaces: Vec::new(),
            bridges: Vec::new(),
            tftp_prefix: None,
            tftp_max: 50,
            tftp_mtu: 0,
            start_tftp_port: 0,
            end_tftp_port: 0,
            addn_hosts: Vec::new(),
            resolv_files: Vec::new(),
            reload_count: 0,
            dns_dirty: false,
            next_alarm: None,
            dump_file: None,
            dump_mask: 0,
            dbus_name: None,
        }
    }
}

} // verus!
