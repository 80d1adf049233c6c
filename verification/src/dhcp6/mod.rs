//! The DHCPv6 server: packets, addresses and replies.

pub mod dispatch;
pub mod duid;
pub mod laws;
pub mod live;
pub mod live_laws;
pub mod packet;
pub mod pool;
pub mod reply_laws;
pub mod serve;

pub use dispatch::dispatch_dhcp6;
pub use duid::{
    build_duid_en, build_duid_ll, build_duid_llt, make_duid, DuidMacSource, DUID_EN, DUID_EPOCH_OFFSET, DUID_LL, DUID_LLT,
};
pub use live::{classify_addr6, complete_context6, dhcp_construct_contexts, Addr6Class, LiveAddr6};
pub use serve::serve_datagram;
pub use packet::{dhcp6_reply_dest, find_option6, parse_dhcp6_packet, Dhcp6Packet, Dhcp6RelayMsg, Dhcp6Reply};
pub use pool::{
    address6_allocate, address6_available, address6_valid, config_find_by_address6, hash_to_addr6, is_same_net6,
    sdbm_hash64,
};
