//! DHCPv4 protocol constants and the packet.

use crate::addr::Ip4;
use vstd::prelude::*;

verus! {

pub const DHCP_SERVER_PORT: u16 = 67;
pub const DHCP_CLIENT_PORT: u16 = 68;
pub const DHCP_SERVER_ALTPORT: u16 = 1067;
pub const DHCP_CLIENT_ALTPORT: u16 = 1068;
pub const PXE_PORT: u16 = 4011;
pub const DHCP_BUFF_SZ: usize = 256;
pub const DHCP_CHADDR_MAX: usize = 16;
pub const MIN_PACKETSZ: usize = 300;
pub const BOOTREQUEST: u8 = 1;
pub const BOOTREPLY: u8 = 2;
pub const DHCP_COOKIE: u32 = 0x6382_5363;
pub const OPTION_PAD: u8 = 0;
pub const OPTION_NETMASK: u8 = 1;
pub const OPTION_ROUTER: u8 = 3;
pub const OPTION_DNSSERVER: u8 = 6;
pub const OPTION_HOSTNAME: u8 = 12;
pub const OPTION_DOMAINNAME: u8 = 15;
pub const OPTION_BROADCAST: u8 = 28;
pub const OPTION_VENDOR_CLASS_OPT: u8 = 43;
pub const OPTION_REQUESTED_IP: u8 = 50;
pub const OPTION_LEASE_TIME: u8 = 51;
pub const OPTION_OVERLOAD: u8 = 52;
pub const OPTION_MESSAGE_TYPE: u8 = 53;
pub const OPTION_SERVER_IDENTIFIER: u8 = 54;
pub const OPTION_REQUESTED_OPTIONS: u8 = 55;
pub const OPTION_MESSAGE: u8 = 56;
pub const OPTION_MAXMESSAGE: u8 = 57;
pub const OPTION_T1: u8 = 58;
pub const OPTION_T2: u8 = 59;
pub const OPTION_VENDOR_ID: u8 = 60;
pub const OPTION_CLIENT_ID: u8 = 61;
pub const OPTION_SNAME: u8 = 66;
pub const OPTION_FILENAME: u8 = 67;
pub const OPTION_USER_CLASS: u8 = 77;
pub const OPTION_RAPID_COMMIT: u8 = 80;
pub const OPTION_CLIENT_FQDN: u8 = 81;
pub const OPTION_AGENT_ID: u8 = 82;
pub const OPTION_LAST_TRANSACTION: u8 = 91;
pub const OPTION_ASSOCIATED_IP: u8 = 92;
pub const OPTION_ARCH: u8 = 93;
pub const OPTION_PXE_UUID: u8 = 97;
pub const OPTION_SUBNET_SELECT: u8 = 118;
pub const OPTION_DOMAIN_SEARCH: u8 = 119;
pub const OPTION_SIP_SERVER: u8 = 120;
pub const OPTION_VENDOR_IDENT: u8 = 124;
pub const OPTION_VENDOR_IDENT_OPT: u8 = 125;
pub const OPTION_MUD_URL_V4: u8 = 161;
pub const OPTION_END: u8 = 255;
pub const SUBOPT_CIRCUIT_ID: u8 = 1;
pub const SUBOPT_REMOTE_ID: u8 = 2;
pub const SUBOPT_SUBNET_SELECT: u8 = 5;
pub const SUBOPT_SUBSCR_ID: u8 = 6;
pub const SUBOPT_FLAGS: u8 = 10;
pub const SUBOPT_SERVER_OR: u8 = 11;
pub const SUBOPT_PXE_BOOT_ITEM: u8 = 71;
pub const SUBOPT_PXE_DISCOVERY: u8 = 6;
pub const SUBOPT_PXE_SERVERS: u8 = 8;
pub const SUBOPT_PXE_MENU: u8 = 9;
pub const SUBOPT_PXE_MENU_PROMPT: u8 = 10;
pub const BRDBAND_FORUM_IANA: u32 = 3561;

/// The DHCP message types.
#[derive(Debug, Clone, Copy, PartialEq, Eq, Structural)]
pub enum DhcpMsgType {
    Discover,
    Offer,
    Request,
    Decline,
    Ack,
    Nak,
    Release,
    Inform,
    ForceRenew,
    LeaseQuery,
    LeaseUnassigned,
    LeaseUnknown,
    LeaseActive,
}

impl DhcpMsgType {
    /// The number that stands for the value on the wire.
    pub open spec fn code(self) -> u8 {
        match self {
            DhcpMsgType::Discover => 1,
            DhcpMsgType::Offer => 2,
            DhcpMsgType::Request => 3,
            DhcpMsgType::Decline => 4,
            DhcpMsgType::Ack => 5,
            DhcpMsgType::Nak => 6,
            DhcpMsgType::Release => 7,
            DhcpMsgType::Inform => 8,
            DhcpMsgType::ForceRenew => 9,
            DhcpMsgType::LeaseQuery => 10,
            DhcpMsgType::LeaseUnassigned => 11,
            DhcpMsgType::LeaseUnknown => 12,
            DhcpMsgType::LeaseActive => 13,
        }
    }

    /// The number that stands for the value on the wire.
    pub fn as_u8(&self) -> (r: u8)
        ensures
            r == self.code(),
    {
        match self {
            DhcpMsgType::Discover => 1,
            DhcpMsgType::Offer => 2,
            DhcpMsgType::Request => 3,
            DhcpMsgType::Decline => 4,
            DhcpMsgType::Ack => 5,
            DhcpMsgType::Nak => 6,
            DhcpMsgType::Release => 7,
            DhcpMsgType::Inform => 8,
            DhcpMsgType::ForceRenew => 9,
            DhcpMsgType::LeaseQuery => 10,
            DhcpMsgType::LeaseUnassigned => 11,
            DhcpMsgType::LeaseUnknown => 12,
            DhcpMsgType::LeaseActive => 13,
        }
    }

    /// The message type that the number `v` stands for, if there is one.
    pub fn from_u8(v: u8) -> (r: Option<Self>)
        ensures
            r == msg_type_of(v),
    {
        match v {
            1 => Some(DhcpMsgType::Discover),
            2 => Some(DhcpMsgType::Offer),
            3 => Some(DhcpMsgType::Request),
            4 => Some(DhcpMsgType::Decline),
            5 => Some(DhcpMsgType::Ack),
            6 => Some(DhcpMsgType::Nak),
            7 => Some(DhcpMsgType::Release),
            8 => Some(DhcpMsgType::Inform),
            9 => Some(DhcpMsgType::ForceRenew),
            10 => Some(DhcpMsgType::LeaseQuery),
            11 => Some(DhcpMsgType::LeaseUnassigned),
            12 => Some(DhcpMsgType::LeaseUnknown),
            13 => Some(DhcpMsgType::LeaseActive),
            _ => None,
        }
    }
}

/// The message type that the number `v` stands for, if there is one.
pub open spec fn msg_type_of(v: u8) -> Option<DhcpMsgType> {
    if v == 1 {
        Some(DhcpMsgType::Discover)
    } else if v == 2 {
        Some(DhcpMsgType::Offer)
    } else if v == 3 {
        Some(DhcpMsgType::Request)
    } else if v == 4 {
        Some(DhcpMsgType::Decline)
    } else if v == 5 {
        Some(DhcpMsgType::Ack)
    } else if v == 6 {
        Some(DhcpMsgType::Nak)
    } else if v == 7 {
        Some(DhcpMsgType::Release)
    } else if v == 8 {
        Some(DhcpMsgType::Inform)
    } else if v == 9 {
        Some(DhcpMsgType::ForceRenew)
    } else if v == 10 {
        Some(DhcpMsgType::LeaseQuery)
    } else if v == 11 {
        Some(DhcpMsgType::LeaseUnassigned)
    } else if v == 12 {
        Some(DhcpMsgType::LeaseUnknown)
    } else if v == 13 {
        Some(DhcpMsgType::LeaseActive)
    } else {
        None
    }
}

/// A number stands for a message type exactly where it is that type's code.
pub proof fn law_msg_type_of(v: u8, x: DhcpMsgType)
    ensures
        msg_type_of(v) == Some(x) <==> x.code() == v,
{
}

/// A BOOTP or DHCP packet.
#[derive(Debug, Clone)]
pub struct DhcpPacket {
    pub op: u8,
    pub htype: u8,
    pub hlen: u8,
    pub hops: u8,
    pub xid: u32,
    pub secs: u16,
    pub flags: u16,
    pub ciaddr: Ip4,
    pub yiaddr: Ip4,
    pub siaddr: Ip4,
    pub giaddr: Ip4,
    pub chaddr: [u8; 16],
    pub sname: [u8; 64],
    pub file: [u8; 128],
    pub options: Vec<u8>,
}

} // verus!
