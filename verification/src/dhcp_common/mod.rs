//! What the DHCPv4 and DHCPv6 servers have in common.

pub mod config;
pub mod describe;
pub mod host_laws;
pub mod logs;
pub mod message_laws;
pub mod options;
pub mod opttab;
pub mod opttab_laws;
pub mod receive;
pub mod tag_laws;
pub mod tags;
pub mod value_laws;

pub use config::{bind_dhcp_devices, config_has_mac, dhcp_update_configs, find_config, whichdevice, BindOutcome};
pub use describe::{format_time, option_string, option_string_ex};
pub use logs::{log_context, log_relay};
pub use options::{build_options, find_option, get_message_type, get_vendor_class};
pub use opttab::{
    display_opts, display_opts6, lookup_dhcp_len, lookup_dhcp_opt, DhcpOptEntry, OT_ADDR_LIST,
    OT_CSTRING, OT_DEC, OT_INTERNAL, OT_NAME, OT_RFC1035_NAME, OT_TIME,
};
pub use receive::{after_receive, grown_buffer, Receipt, Received};
pub use tags::{
    log_tags, match_bytes, match_netid, match_netid_wild, option_filter, pxe_ok, run_tag_if, strip_hostname, TagIf,
};
