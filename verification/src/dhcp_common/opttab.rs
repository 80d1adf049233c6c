//! The tables of option names and numbers.

use crate::text::{lower, same_ignoring_case};
use vstd::prelude::*;

verus! {

/// The value is a list of addresses.
pub const OT_ADDR_LIST: u16 = 0x8000;
/// The value is a domain name in wire format.
pub const OT_RFC1035_NAME: u16 = 0x4000;
/// The option is set by the server itself and cannot be configured.
pub const OT_INTERNAL: u16 = 0x2000;
/// The value is printable text.
pub const OT_NAME: u16 = 0x1000;
/// The value is a list of strings that are preceded by their lengths.
pub const OT_CSTRING: u16 = 0x0800;
/// The value is a decimal number.
pub const OT_DEC: u16 = 0x0400;
/// The value is a number of seconds.
pub const OT_TIME: u16 = 0x0200;

/// A row of an option table. The low bits of `size` hold a fixed length in bytes, the high bits say what
/// the value is.
#[derive(Debug, Clone, Copy)]
pub struct DhcpOptEntry {
    /// The name of the option in the configuration.
    pub name: &'static str,
    /// The number of the option.
    pub val: u16,
    pub size: u16,
}

/// The value of a row: name, number and size.
pub struct Row {
    pub name: Seq<char>,
    pub val: u16,
    pub size: u16,
}

impl View for DhcpOptEntry {
    type V = Row;

    open spec fn view(&self) -> Row {
        Row { name: self.name@, val: self.val, size: self.size }
    }
}

/// The values of rows.
pub open spec fn rows(v: Seq<DhcpOptEntry>) -> Seq<Row> {
    v.map_values(|e: DhcpOptEntry| e@)
}

/// A row of a table.
pub open spec fn row(name: Seq<char>, val: u16, size: int) -> Row {
    Row { name, val, size: size as u16 }
}

/// The options of DHCPv4.
pub open spec fn opttab_rows() -> Seq<Row> {
    seq![
        row("netmask"@, 1, OT_ADDR_LIST as int),
        row("time-offset"@, 2, 4 as int),
        row("router"@, 3, OT_ADDR_LIST as int),
        row("dns-server"@, 6, OT_ADDR_LIST as int),
        row("log-server"@, 7, OT_ADDR_LIST as int),
        row("lpr-server"@, 9, OT_ADDR_LIST as int),
        row("hostname"@, 12, OT_INTERNAL + OT_NAME),
        row("boot-file-size"@, 13, 2 + OT_DEC),
        row("domain-name"@, 15, OT_NAME as int),
        row("swap-server"@, 16, OT_ADDR_LIST as int),
        row("root-path"@, 17, OT_NAME as int),
        row("extension-path"@, 18, OT_NAME as int),
        row("ip-forward-enable"@, 19, 1 as int),
        row("non-local-source-routing"@, 20, 1 as int),
        row("policy-filter"@, 21, OT_ADDR_LIST as int),
        row("max-datagram-reassembly"@, 22, 2 + OT_DEC),
        row("default-ttl"@, 23, 1 + OT_DEC),
        row("mtu"@, 26, 2 + OT_DEC),
        row("all-subnets-local"@, 27, 1 as int),
        row("broadcast"@, 28, OT_INTERNAL + OT_ADDR_LIST),
        row("router-discovery"@, 31, 1 as int),
        row("router-solicitation"@, 32, OT_ADDR_LIST as int),
        row("static-route"@, 33, OT_ADDR_LIST as int),
        row("trailer-encapsulation"@, 34, 1 as int),
        row("arp-timeout"@, 35, 4 + OT_DEC),
        row("ethernet-encap"@, 36, 1 as int),
        row("tcp-ttl"@, 37, 1 as int),
        row("tcp-keepalive"@, 38, 4 + OT_DEC),
        row("nis-domain"@, 40, OT_NAME as int),
        row("nis-server"@, 41, OT_ADDR_LIST as int),
        row("ntp-server"@, 42, OT_ADDR_LIST as int),
        row("vendor-encap"@, 43, OT_INTERNAL as int),
        row("netbios-ns"@, 44, OT_ADDR_LIST as int),
        row("netbios-dd"@, 45, OT_ADDR_LIST as int),
        row("netbios-nodetype"@, 46, 1 as int),
        row("netbios-scope"@, 47, 0 as int),
        row("x-windows-fs"@, 48, OT_ADDR_LIST as int),
        row("x-windows-dm"@, 49, OT_ADDR_LIST as int),
        row("requested-address"@, 50, OT_INTERNAL + OT_ADDR_LIST),
        row("lease-time"@, 51, OT_INTERNAL + OT_TIME),
        row("option-overload"@, 52, OT_INTERNAL as int),
        row("message-type"@, 53, OT_INTERNAL + OT_DEC),
        row("server-identifier"@, 54, OT_INTERNAL + OT_ADDR_LIST),
        row("parameter-request"@, 55, OT_INTERNAL as int),
        row("message"@, 56, OT_INTERNAL as int),
        row("max-message-size"@, 57, OT_INTERNAL as int),
        row("T1"@, 58, OT_TIME as int),
        row("T2"@, 59, OT_TIME as int),
        row("vendor-class"@, 60, 0 as int),
        row("client-id"@, 61, OT_INTERNAL as int),
        row("nis+-domain"@, 64, OT_NAME as int),
        row("nis+-server"@, 65, OT_ADDR_LIST as int),
        row("tftp-server"@, 66, OT_NAME as int),
        row("bootfile-name"@, 67, OT_NAME as int),
        row("mobile-ip-home"@, 68, OT_ADDR_LIST as int),
        row("smtp-server"@, 69, OT_ADDR_LIST as int),
        row("pop3-server"@, 70, OT_ADDR_LIST as int),
        row("nntp-server"@, 71, OT_ADDR_LIST as int),
        row("irc-server"@, 74, OT_ADDR_LIST as int),
        row("user-class"@, 77, 0 as int),
        row("rapid-commit"@, 80, 0 as int),
        row("FQDN"@, 81, OT_INTERNAL as int),
        row("agent-info"@, 82, OT_INTERNAL as int),
        row("last-transaction"@, 91, 4 + OT_TIME),
        row("associated-ip"@, 92, OT_ADDR_LIST as int),
        row("client-arch"@, 93, 2 + OT_DEC),
        row("client-interface-id"@, 94, 0 as int),
        row("client-machine-id"@, 97, 0 as int),
        row("posix-timezone"@, 100, OT_NAME as int),
        row("tzdb-timezone"@, 101, OT_NAME as int),
        row("ipv6-only"@, 108, 4 + OT_DEC),
        row("captive-portal"@, 114, OT_NAME as int),
        row("subnet-select"@, 118, OT_INTERNAL as int),
        row("domain-search"@, 119, OT_RFC1035_NAME as int),
        row("sip-server"@, 120, 0 as int),
        row("classless-static-route"@, 121, 0 as int),
        row("vendor-id-encap"@, 125, 0 as int),
        row("tftp-server-address"@, 150, OT_ADDR_LIST as int),
        row("server-ip-address"@, 255, OT_ADDR_LIST as int),
    ]
}

/// The options of DHCPv4.
pub fn opttab() -> (t: Vec<DhcpOptEntry>)
    ensures
        rows(t@) == opttab_rows(),
{
    let t: Vec<DhcpOptEntry> = vec![
        DhcpOptEntry { name: "netmask", val: 1, size: OT_ADDR_LIST },
        DhcpOptEntry { name: "time-offset", val: 2, size: 4 },
        DhcpOptEntry { name: "router", val: 3, size: OT_ADDR_LIST },
        DhcpOptEntry { name: "dns-server", val: 6, size: OT_ADDR_LIST },
        DhcpOptEntry { name: "log-server", val: 7, size: OT_ADDR_LIST },
        DhcpOptEntry { name: "lpr-server", val: 9, size: OT_ADDR_LIST },
        DhcpOptEntry { name: "hostname", val: 12, size: OT_INTERNAL + OT_NAME },
        DhcpOptEntry { name: "boot-file-size", val: 13, size: 2 + OT_DEC },
        DhcpOptEntry { name: "domain-name", val: 15, size: OT_NAME },
        DhcpOptEntry { name: "swap-server", val: 16, size: OT_ADDR_LIST },
        DhcpOptEntry { name: "root-path", val: 17, size: OT_NAME },
        DhcpOptEntry { name: "extension-path", val: 18, size: OT_NAME },
        DhcpOptEntry { name: "ip-forward-enable", val: 19, size: 1 },
        DhcpOptEntry { name: "non-local-source-routing", val: 20, size: 1 },
        DhcpOptEntry { name: "policy-filter", val: 21, size: OT_ADDR_LIST },
        DhcpOptEntry { name: "max-datagram-reassembly", val: 22, size: 2 + OT_DEC },
        DhcpOptEntry { name: "default-ttl", val: 23, size: 1 + OT_DEC },
        DhcpOptEntry { name: "mtu", val: 26, size: 2 + OT_DEC },
        DhcpOptEntry { name: "all-subnets-local", val: 27, size: 1 },
        DhcpOptEntry { name: "broadcast", val: 28, size: OT_INTERNAL + OT_ADDR_LIST },
        DhcpOptEntry { name: "router-discovery", val: 31, size: 1 },
        DhcpOptEntry { name: "router-solicitation", val: 32, size: OT_ADDR_LIST },
        DhcpOptEntry { name: "static-route", val: 33, size: OT_ADDR_LIST },
        DhcpOptEntry { name: "trailer-encapsulation", val: 34, size: 1 },
        DhcpOptEntry { name: "arp-timeout", val: 35, size: 4 + OT_DEC },
        DhcpOptEntry { name: "ethernet-encap", val: 36, size: 1 },
        DhcpOptEntry { name: "tcp-ttl", val: 37, size: 1 },
        DhcpOptEntry { name: "tcp-keepalive", val: 38, size: 4 + OT_DEC },
        DhcpOptEntry { name: "nis-domain", val: 40, size: OT_NAME },
        DhcpOptEntry { name: "nis-server", val: 41, size: OT_ADDR_LIST },
        DhcpOptEntry { name: "ntp-server", val: 42, size: OT_ADDR_LIST },
        DhcpOptEntry { name: "vendor-encap", val: 43, size: OT_INTERNAL },
        DhcpOptEntry { name: "netbios-ns", val: 44, size: OT_ADDR_LIST },
        DhcpOptEntry { name: "netbios-dd", val: 45, size: OT_ADDR_LIST },
        DhcpOptEntry { name: "netbios-nodetype", val: 46, size: 1 },
        DhcpOptEntry { name: "netbios-scope", val: 47, size: 0 },
        DhcpOptEntry { name: "x-windows-fs", val: 48, size: OT_ADDR_LIST },
        DhcpOptEntry { name: "x-windows-dm", val: 49, size: OT_ADDR_LIST },
        DhcpOptEntry { name: "requested-address", val: 50, size: OT_INTERNAL + OT_ADDR_LIST },
        DhcpOptEntry { name: "lease-time", val: 51, size: OT_INTERNAL + OT_TIME },
        DhcpOptEntry { name: "option-overload", val: 52, size: OT_INTERNAL },
        DhcpOptEntry { name: "message-type", val: 53, size: OT_INTERNAL + OT_DEC },
        DhcpOptEntry { name: "server-identifier", val: 54, size: OT_INTERNAL + OT_ADDR_LIST },
        DhcpOptEntry { name: "parameter-request", val: 55, size: OT_INTERNAL },
        DhcpOptEntry { name: "message", val: 56, size: OT_INTERNAL },
        DhcpOptEntry { name: "max-message-size", val: 57, size: OT_INTERNAL },
        DhcpOptEntry { name: "T1", val: 58, size: OT_TIME },
        DhcpOptEntry { name: "T2", val: 59, size: OT_TIME },
        DhcpOptEntry { name: "vendor-class", val: 60, size: 0 },
        DhcpOptEntry { name: "client-id", val: 61, size: OT_INTERNAL },
        DhcpOptEntry { name: "nis+-domain", val: 64, size: OT_NAME },
        DhcpOptEntry { name: "nis+-server", val: 65, size: OT_ADDR_LIST },
        DhcpOptEntry { name: "tftp-server", val: 66, size: OT_NAME },
        DhcpOptEntry { name: "bootfile-name", val: 67, size: OT_NAME },
        DhcpOptEntry { name: "mobile-ip-home", val: 68, size: OT_ADDR_LIST },
        DhcpOptEntry { name: "smtp-server", val: 69, size: OT_ADDR_LIST },
        DhcpOptEntry { name: "pop3-server", val: 70, size: OT_ADDR_LIST },
        DhcpOptEntry { name: "nntp-server", val: 71, size: OT_ADDR_LIST },
        DhcpOptEntry { name: "irc-server", val: 74, size: OT_ADDR_LIST },
        DhcpOptEntry { name: "user-class", val: 77, size: 0 },
        DhcpOptEntry { name: "rapid-commit", val: 80, size: 0 },
        DhcpOptEntry { name: "FQDN", val: 81, size: OT_INTERNAL },
        DhcpOptEntry { name: "agent-info", val: 82, size: OT_INTERNAL },
        DhcpOptEntry { name: "last-transaction", val: 91, size: 4 + OT_TIME },
        DhcpOptEntry { name: "associated-ip", val: 92, size: OT_ADDR_LIST },
        DhcpOptEntry { name: "client-arch", val: 93, size: 2 + OT_DEC },
        DhcpOptEntry { name: "client-interface-id", val: 94, size: 0 },
        DhcpOptEntry { name: "client-machine-id", val: 97, size: 0 },
        DhcpOptEntry { name: "posix-timezone", val: 100, size: OT_NAME },
        DhcpOptEntry { name: "tzdb-timezone", val: 101, size: OT_NAME },
        DhcpOptEntry { name: "ipv6-only", val: 108, size: 4 + OT_DEC },
        DhcpOptEntry { name: "captive-portal", val: 114, size: OT_NAME },
        DhcpOptEntry { name: "subnet-select", val: 118, size: OT_INTERNAL },
        DhcpOptEntry { name: "domain-search", val: 119, size: OT_RFC1035_NAME },
        DhcpOptEntry { name: "sip-server", val: 120, size: 0 },
        DhcpOptEntry { name: "classless-static-route", val: 121, size: 0 },
        DhcpOptEntry { name: "vendor-id-encap", val: 125, size: 0 },
        DhcpOptEntry { name: "tftp-server-address", val: 150, size: OT_ADDR_LIST },
        DhcpOptEntry { name: "server-ip-address", val: 255, size: OT_ADDR_LIST },
    ];
    assert(rows(t@) =~= opttab_rows());
    t
}

/// The options of DHCPv6.
pub open spec fn opttab6_rows() -> Seq<Row> {
    seq![
        row("client-id"@, 1, OT_INTERNAL as int),
        row("server-id"@, 2, OT_INTERNAL as int),
        row("ia-na"@, 3, OT_INTERNAL as int),
        row("ia-ta"@, 4, OT_INTERNAL as int),
        row("iaaddr"@, 5, OT_INTERNAL as int),
        row("oro"@, 6, OT_INTERNAL as int),
        row("preference"@, 7, OT_INTERNAL + OT_DEC),
        row("unicast"@, 12, OT_INTERNAL as int),
        row("status"@, 13, OT_INTERNAL as int),
        row("rapid-commit"@, 14, OT_INTERNAL as int),
        row("user-class"@, 15, OT_INTERNAL + OT_CSTRING),
        row("vendor-class"@, 16, OT_INTERNAL + OT_CSTRING),
        row("vendor-opts"@, 17, OT_INTERNAL as int),
        row("sip-server-domain"@, 21, OT_RFC1035_NAME as int),
        row("sip-server"@, 22, OT_ADDR_LIST as int),
        row("dns-server"@, 23, OT_ADDR_LIST as int),
        row("domain-search"@, 24, OT_RFC1035_NAME as int),
        row("nis-server"@, 27, OT_ADDR_LIST as int),
        row("nis+-server"@, 28, OT_ADDR_LIST as int),
        row("nis-domain"@, 29, OT_RFC1035_NAME as int),
        row("nis+-domain"@, 30, OT_RFC1035_NAME as int),
        row("sntp-server"@, 31, OT_ADDR_LIST as int),
        row("information-refresh-time"@, 32, OT_TIME as int),
        row("FQDN"@, 39, OT_INTERNAL + OT_RFC1035_NAME),
        row("posix-timezone"@, 41, OT_NAME as int),
        row("tzdb-timezone"@, 42, OT_NAME as int),
        row("ntp-server"@, 56, 0 as int),
        row("bootfile-url"@, 59, OT_NAME as int),
        row("bootfile-param"@, 60, OT_CSTRING as int),
        row("captive-portal"@, 103, OT_NAME as int),
    ]
}

/// The options of DHCPv6.
pub fn opttab6() -> (t: Vec<DhcpOptEntry>)
    ensures
        rows(t@) == opttab6_rows(),
{
    let t: Vec<DhcpOptEntry> = vec![
        DhcpOptEntry { name: "client-id", val: 1, size: OT_INTERNAL },
        DhcpOptEntry { name: "server-id", val: 2, size: OT_INTERNAL },
        DhcpOptEntry { name: "ia-na", val: 3, size: OT_INTERNAL },
        DhcpOptEntry { name: "ia-ta", val: 4, size: OT_INTERNAL },
        DhcpOptEntry { name: "iaaddr", val: 5, size: OT_INTERNAL },
        DhcpOptEntry { name: "oro", val: 6, size: OT_INTERNAL },
        DhcpOptEntry { name: "preference", val: 7, size: OT_INTERNAL + OT_DEC },
        DhcpOptEntry { name: "unicast", val: 12, size: OT_INTERNAL },
        DhcpOptEntry { name: "status", val: 13, size: OT_INTERNAL },
        DhcpOptEntry { name: "rapid-commit", val: 14, size: OT_INTERNAL },
        DhcpOptEntry { name: "user-class", val: 15, size: OT_INTERNAL + OT_CSTRING },
        DhcpOptEntry { name: "vendor-class", val: 16, size: OT_INTERNAL + OT_CSTRING },
        DhcpOptEntry { name: "vendor-opts", val: 17, size: OT_INTERNAL },
        DhcpOptEntry { name: "sip-server-domain", val: 21, size: OT_RFC1035_NAME },
        DhcpOptEntry { name: "sip-server", val: 22, size: OT_ADDR_LIST },
        DhcpOptEntry { name: "dns-server", val: 23, size: OT_ADDR_LIST },
        DhcpOptEntry { name: "domain-search", val: 24, size: OT_RFC1035_NAME },
        DhcpOptEntry { name: "nis-server", val: 27, size: OT_ADDR_LIST },
        DhcpOptEntry { name: "nis+-server", val: 28, size: OT_ADDR_LIST },
        DhcpOptEntry { name: "nis-domain", val: 29, size: OT_RFC1035_NAME },
        DhcpOptEntry { name: "nis+-domain", val: 30, size: OT_RFC1035_NAME },
        DhcpOptEntry { name: "sntp-server", val: 31, size: OT_ADDR_LIST },
        DhcpOptEntry { name: "information-refresh-time", val: 32, size: OT_TIME },
        DhcpOptEntry { name: "FQDN", val: 39, size: OT_INTERNAL + OT_RFC1035_NAME },
        DhcpOptEntry { name: "posix-timezone", val: 41, size: OT_NAME },
        DhcpOptEntry { name: "tzdb-timezone", val: 42, size: OT_NAME },
        DhcpOptEntry { name: "ntp-server", val: 56, size: 0 },
        DhcpOptEntry { name: "bootfile-url", val: 59, size: OT_NAME },
        DhcpOptEntry { name: "bootfile-param", val: 60, size: OT_CSTRING },
        DhcpOptEntry { name: "captive-portal", val: 103, size: OT_NAME },
    ];
    assert(rows(t@) =~= opttab6_rows());
    t
}

/// The table of a protocol version.
pub open spec fn table_rows(is_v6: bool) -> Seq<Row> {
    if is_v6 {
        opttab6_rows()
    } else {
        opttab_rows()
    }
}

/// The table of a protocol version.
pub fn table(is_v6: bool) -> (t: Vec<DhcpOptEntry>)
    ensures
        rows(t@) == table_rows(is_v6),
{
    if is_v6 {
        opttab6()
    } else {
        opttab()
    }
}

/// Whether `size` holds a flag, which is a power of two.
pub open spec fn has_flag(size: u16, flag: u16) -> bool {
    size / flag % 2 == 1
}

/// Whether `size` holds a flag.
pub fn flag_set(size: u16, flag: u16) -> (r: bool)
    requires
        flag > 0,
    ensures
        r == has_flag(size, flag),
{
    size / flag % 2 == 1
}

/// The first row from number `i` on that has this name, in upper or lower case.
pub open spec fn row_named(t: Seq<Row>, name: Seq<char>, i: int) -> Option<Row>
    decreases t.len() - i,
{
    if !(0 <= i < t.len()) {
        None
    } else if lower(t[i].name) == lower(name) {
        Some(t[i])
    } else {
        row_named(t, name, i + 1)
    }
}

/// The first row from number `i` on that has this option number.
pub open spec fn row_numbered(t: Seq<Row>, val: u16, i: int) -> Option<Row>
    decreases t.len() - i,
{
    if !(0 <= i < t.len()) {
        None
    } else if t[i].val == val {
        Some(t[i])
    } else {
        row_numbered(t, val, i + 1)
    }
}

/// Finds the number of an option by its name, in upper or lower case.
pub fn lookup_dhcp_opt(is_v6: bool, name: &str) -> (r: Option<u16>)
    ensures
        r == match row_named(table_rows(is_v6), name@, 0) {
            Some(e) => Some(e.val),
            None => None::<u16>,
        },
{
    let t: Vec<DhcpOptEntry> = table(is_v6);
    let ghost all = table_rows(is_v6);
    let mut i: usize = 0;
    while i < t.len()
        invariant
            i <= t@.len(),
            rows(t@) == all,
            all == table_rows(is_v6),
            row_named(all, name@, 0) == row_named(all, name@, i as int),
        decreases t@.len() - i,
    {
        assert(all[i as int] == t@[i as int]@);
        if same_ignoring_case(t[i].name, name) {
            return Some(t[i].val);
        }
        i += 1;
    }
    None
}

/// Finds the row of an option by its number.
pub fn find_row(is_v6: bool, val: u16) -> (r: Option<DhcpOptEntry>)
    ensures
        match r {
            Some(e) => row_numbered(table_rows(is_v6), val, 0) == Some(e@),
            None => row_numbered(table_rows(is_v6), val, 0) is None,
        },
{
    let t: Vec<DhcpOptEntry> = table(is_v6);
    let ghost all = table_rows(is_v6);
    let mut i: usize = 0;
    while i < t.len()
        invariant
            i <= t@.len(),
            rows(t@) == all,
            all == table_rows(is_v6),
            row_numbered(all, val, 0) == row_numbered(all, val, i as int),
        decreases t@.len() - i,
    {
        assert(all[i as int] == t@[i as int]@);
        if t[i].val == val {
            return Some(t[i]);
        }
        i += 1;
    }
    None
}

/// The size field of an option without the flag for decimal display; 0 where the option is unknown.
pub open spec fn size_of_option(is_v6: bool, val: u16) -> u16 {
    match row_numbered(table_rows(is_v6), val, 0) {
        Some(e) => if has_flag(e.size, OT_DEC) {
            (e.size - OT_DEC) as u16
        } else {
            e.size
        },
        None => 0,
    }
}

/// Looks up the size field of an option, without the flag for decimal display.
pub fn lookup_dhcp_len(is_v6: bool, val: u16) -> (r: u16)
    ensures
        r == size_of_option(is_v6, val),
{
    match find_row(is_v6, val) {
        Some(e) => {
            if flag_set(e.size, OT_DEC) {
                e.size - OT_DEC
            } else {
                e.size
            }
        },
        None => 0,
    }
}

/// The numbers and names of the rows of options that can be configured.
pub open spec fn shown(t: Seq<Row>) -> Seq<(u16, Seq<char>)>
    decreases t.len(),
{
    if t.len() == 0 {
        seq![]
    } else if has_flag(t.last().size, OT_INTERNAL) {
        shown(t.drop_last())
    } else {
        shown(t.drop_last()).push((t.last().val, t.last().name))
    }
}

/// The values of a list of numbers and names.
pub open spec fn listed(v: Seq<(u16, &'static str)>) -> Seq<(u16, Seq<char>)> {
    v.map_values(|e: (u16, &'static str)| (e.0, e.1@))
}

/// Lists the rows of a table that can be configured.
fn show(t: Vec<DhcpOptEntry>) -> (r: Vec<(u16, &'static str)>)
    ensures
        listed(r@) == shown(rows(t@)),
{
    let ghost all = rows(t@);
    let mut r: Vec<(u16, &'static str)> = Vec::new();
    let mut i: usize = 0;
    assert(listed(r@) =~= shown(all.take(0)));
    while i < t.len()
        invariant
            i <= t@.len(),
            all == rows(t@),
            listed(r@) == shown(all.take(i as int)),
        decreases t@.len() - i,
    {
        proof {
            assert(all.take(i + 1).drop_last() =~= all.take(i as int));
            assert(all.take(i + 1).last() == t@[i as int]@);
        }
        if !flag_set(t[i].size, OT_INTERNAL) {
            let e: (u16, &'static str) = (t[i].val, t[i].name);
            assert(listed(r@.push(e)) =~= listed(r@).push((e.0, e.1@)));
            r.push(e);
        }
        i += 1;
    }
    assert(all.take(all.len() as int) =~= all);
    r
}

/// The DHCPv4 options that can be configured, as numbers and names.
pub fn display_opts() -> (r: Vec<(u16, &'static str)>)
    ensures
        listed(r@) == shown(opttab_rows()),
{
    show(opttab())
}

/// The DHCPv6 options that can be configured, as numbers and names.
pub fn display_opts6() -> (r: Vec<(u16, &'static str)>)
    ensures
        listed(r@) == shown(opttab6_rows()),
{
    show(opttab6())
}

} // verus!
