//! The verified core of a DNS forwarder and DHCP server.

pub mod addr;
pub mod addr_laws;
pub mod cache;
pub mod crypto;
pub mod crypto_laws;
pub mod daemon;
pub mod dhcp6;
pub mod dhcp6_protocol;
pub mod dhcp_common;
pub mod dhcp_protocol;
pub mod dhcp_types;
pub mod dns_protocol;
pub mod dnsmasq;
pub mod dnssec;
pub mod dup;
pub mod error;
pub mod lease;
pub mod names;
pub mod records;
pub mod rfc1035;
pub mod rfc3315;
pub mod text;
pub mod util;
pub mod wire;
pub mod wire_laws;
