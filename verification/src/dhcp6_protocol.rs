//! DHCPv6 protocol constants.

use vstd::prelude::*;

verus! {

pub const DHCPV6_SERVER_PORT: u16 = 547;
pub const DHCPV6_CLIENT_PORT: u16 = 546;
pub const ALL_SERVERS: &'static str = "FF05::1:3";
pub const ALL_RELAY_AGENTS_AND_SERVERS: &'static str = "FF02::1:2";
pub const OPTION6_CLIENT_ID: u16 = 1;
pub const OPTION6_SERVER_ID: u16 = 2;
pub const OPTION6_IA_NA: u16 = 3;
pub const OPTION6_IA_TA: u16 = 4;
pub const OPTION6_IAADDR: u16 = 5;
pub const OPTION6_ORO: u16 = 6;
pub const OPTION6_PREFERENCE: u16 = 7;
pub const OPTION6_ELAPSED_TIME: u16 = 8;
pub const OPTION6_RELAY_MSG: u16 = 9;
pub const OPTION6_AUTH: u16 = 11;
pub const OPTION6_UNICAST: u16 = 12;
pub const OPTION6_STATUS_CODE: u16 = 13;
pub const OPTION6_RAPID_COMMIT: u16 = 14;
pub const OPTION6_USER_CLASS: u16 = 15;
pub const OPTION6_VENDOR_CLASS: u16 = 16;
pub const OPTION6_VENDOR_OPTS: u16 = 17;
pub const OPTION6_INTERFACE_ID: u16 = 18;
pub const OPTION6_RECONFIGURE_MSG: u16 = 19;
pub const OPTION6_RECONF_ACCEPT: u16 = 20;
pub const OPTION6_DNS_SERVER: u16 = 23;
pub const OPTION6_DOMAIN_SEARCH: u16 = 24;
pub const OPTION6_IA_PD: u16 = 25;
pub const OPTION6_IAPREFIX: u16 = 26;
pub const OPTION6_REFRESH_TIME: u16 = 32;
pub const OPTION6_REMOTE_ID: u16 = 37;
pub const OPTION6_SUBSCRIBER_ID: u16 = 38;
pub const OPTION6_FQDN: u16 = 39;
pub const OPTION6_NTP_SERVER: u16 = 56;
pub const OPTION6_CLIENT_MAC: u16 = 79;
pub const OPTION6_MUD_URL: u16 = 112;
pub const NTP_SUBOPTION_SRV_ADDR: u16 = 1;
pub const NTP_SUBOPTION_MC_ADDR: u16 = 2;
pub const NTP_SUBOPTION_SRV_FQDN: u16 = 3;

/// The DHCPv6 message types.
#[derive(Debug, Clone, Copy, PartialEq, Eq, Structural)]
pub enum Dhcp6MsgType {
    Solicit,
    Advertise,
    Request,
    Confirm,
    Renew,
    Rebind,
    Reply,
    Release,
    Decline,
    Reconfigure,
    InfoReq,
    RelayForw,
    RelayRepl,
}

impl Dhcp6MsgType {
    /// The number that stands for the value on the wire.
    pub open spec fn code(self) -> u8 {
        match self {
            Dhcp6MsgType::Solicit => 1,
            Dhcp6MsgType::Advertise => 2,
            Dhcp6MsgType::Request => 3,
            Dhcp6MsgType::Confirm => 4,
            Dhcp6MsgType::Renew => 5,
            Dhcp6MsgType::Rebind => 6,
            Dhcp6MsgType::Reply => 7,
            Dhcp6MsgType::Release => 8,
            Dhcp6MsgType::Decline => 9,
            Dhcp6MsgType::Reconfigure => 10,
            Dhcp6MsgType::InfoReq => 11,
            Dhcp6MsgType::RelayForw => 12,
            Dhcp6MsgType::RelayRepl => 13,
        }
    }

    /// The number that stands for the value on the wire.
    pub fn as_u8(&self) -> (r: u8)
        ensures
            r == self.code(),
    {
        match self {
            Dhcp6MsgType::Solicit => 1,
            Dhcp6MsgType::Advertise => 2,
            Dhcp6MsgType::Request => 3,
            Dhcp6MsgType::Confirm => 4,
            Dhcp6MsgType::Renew => 5,
            Dhcp6MsgType::Rebind => 6,
            Dhcp6MsgType::Reply => 7,
            Dhcp6MsgType::Release => 8,
            Dhcp6MsgType::Decline => 9,
            Dhcp6MsgType::Reconfigure => 10,
            Dhcp6MsgType::InfoReq => 11,
            Dhcp6MsgType::RelayForw => 12,
            Dhcp6MsgType::RelayRepl => 13,
        }
    }

    /// The message type that the number `v` stands for, if there is one.
    pub fn from_u8(v: u8) -> (r: Option<Self>)
        ensures
            r == msg6_type_of(v),
    {
        match v {
            1 => Some(Dhcp6MsgType::Solicit),
            2 => Some(Dhcp6MsgType::Advertise),
            3 => Some(Dhcp6MsgType::Request),
            4 => Some(Dhcp6MsgType::Confirm),
            5 => Some(Dhcp6MsgType::Renew),
            6 => Some(Dhcp6MsgType::Rebind),
            7 => Some(Dhcp6MsgType::Reply),
            8 => Some(Dhcp6MsgType::Release),
            9 => Some(Dhcp6MsgType::Decline),
            10 => Some(Dhcp6MsgType::Reconfigure),
            11 => Some(Dhcp6MsgType::InfoReq),
            12 => Some(Dhcp6MsgType::RelayForw),
            13 => Some(Dhcp6MsgType::RelayRepl),
            _ => None,
        }
    }
}

/// The message type that the number `v` stands for, if there is one.
pub open spec fn msg6_type_of(v: u8) -> Option<Dhcp6MsgType> {
    if v == 1 {
        Some(Dhcp6MsgType::Solicit)
    } else if v == 2 {
        Some(Dhcp6MsgType::Advertise)
    } else if v == 3 {
        Some(Dhcp6MsgType::Request)
    } else if v == 4 {
        Some(Dhcp6MsgType::Confirm)
    } else if v == 5 {
        Some(Dhcp6MsgType::Renew)
    } else if v == 6 {
        Some(Dhcp6MsgType::Rebind)
    } else if v == 7 {
        Some(Dhcp6MsgType::Reply)
    } else if v == 8 {
        Some(Dhcp6MsgType::Release)
    } else if v == 9 {
        Some(Dhcp6MsgType::Decline)
    } else if v == 10 {
        Some(Dhcp6MsgType::Reconfigure)
    } else if v == 11 {
        Some(Dhcp6MsgType::InfoReq)
    } else if v == 12 {
        Some(Dhcp6MsgType::RelayForw)
    } else if v == 13 {
        Some(Dhcp6MsgType::RelayRepl)
    } else {
        None
    }
}

/// A number stands for a message type exactly where it is that type's code.
pub proof fn law_msg6_type_of(v: u8, x: Dhcp6MsgType)
    ensures
        msg6_type_of(v) == Some(x) <==> x.code() == v,
{
}

/// The DHCPv6 status codes.
#[derive(Debug, Clone, Copy, PartialEq, Eq, Structural)]
pub enum Dhcp6Status {
    Success,
    Unspec,
    NoAddrs,
    NoBinding,
    NotOnLink,
    UseMulti,
}

impl Dhcp6Status {
    /// The number that stands for the value on the wire.
    pub open spec fn code(self) -> u16 {
        match self {
            Dhcp6Status::Success => 0,
            Dhcp6Status::Unspec => 1,
            Dhcp6Status::NoAddrs => 2,
            Dhcp6Status::NoBinding => 3,
            Dhcp6Status::NotOnLink => 4,
            Dhcp6Status::UseMulti => 5,
        }
    }

    /// The number that stands for the value on the wire.
    pub fn as_u16(&self) -> (r: u16)
        ensures
            r == self.code(),
    {
        match self {
            Dhcp6Status::Success => 0,
            Dhcp6Status::Unspec => 1,
            Dhcp6Status::NoAddrs => 2,
            Dhcp6Status::NoBinding => 3,
            Dhcp6Status::NotOnLink => 4,
            Dhcp6Status::UseMulti => 5,
        }
    }
}

} // verus!
