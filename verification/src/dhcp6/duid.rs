//! The identifier by which DHCPv6 clients know the server.

use crate::daemon::Daemon;
use crate::text::append_bytes;
use crate::wire::{be16_bytes, be32_bytes, push_be16, push_be32};
use vstd::prelude::*;

verus! {

/// A DUID of a link-layer address and a time.
pub const DUID_LLT: u16 = 1;
/// A DUID that an enterprise assigned.
pub const DUID_EN: u16 = 2;
/// A DUID of a link-layer address.
pub const DUID_LL: u16 = 3;

/// The start of the year 2000, from which the time in a DUID is counted.
pub const DUID_EPOCH_OFFSET: u64 = 946_684_800;

/// The bytes of a DUID that an enterprise assigned.
pub open spec fn duid_en(enterprise: u32, id: Seq<u8>) -> Seq<u8> {
    be16_bytes(DUID_EN) + be32_bytes(enterprise) + id
}

/// The bytes of a DUID of a link-layer address and a time.
pub open spec fn duid_llt(hw_type: u16, mac: Seq<u8>, time_secs: u32) -> Seq<u8> {
    be16_bytes(DUID_LLT) + be16_bytes(hw_type) + be32_bytes(time_secs) + mac
}

/// The bytes of a DUID of a link-layer address.
pub open spec fn duid_ll(hw_type: u16, mac: Seq<u8>) -> Seq<u8> {
    be16_bytes(DUID_LL) + be16_bytes(hw_type) + mac
}

/// Builds a DUID from an enterprise number and an identifier.
pub fn build_duid_en(enterprise: u32, id: &[u8]) -> (buf: Vec<u8>)
    ensures
        buf@ == duid_en(enterprise, id@),
{
    let mut buf: Vec<u8> = Vec::new();
    push_be16(&mut buf, DUID_EN);
    push_be32(&mut buf, enterprise);
    append_bytes(&mut buf, id);
    assert(buf@ =~= duid_en(enterprise, id@));
    buf
}

/// Builds a DUID from a link-layer address and a time.
pub fn build_duid_llt(hw_type: u16, mac: &[u8], time_secs: u32) -> (buf: Vec<u8>)
    ensures
        buf@ == duid_llt(hw_type, mac@, time_secs),
{
    let mut buf: Vec<u8> = Vec::new();
    push_be16(&mut buf, DUID_LLT);
    push_be16(&mut buf, hw_type);
    push_be32(&mut buf, time_secs);
    append_bytes(&mut buf, mac);
    assert(buf@ =~= duid_llt(hw_type, mac@, time_secs));
    buf
}

/// Builds a DUID from a link-layer address.
pub fn build_duid_ll(hw_type: u16, mac: &[u8]) -> (buf: Vec<u8>)
    ensures
        buf@ == duid_ll(hw_type, mac@),
{
    let mut buf: Vec<u8> = Vec::new();
    push_be16(&mut buf, DUID_LL);
    push_be16(&mut buf, hw_type);
    append_bytes(&mut buf, mac);
    assert(buf@ =~= duid_ll(hw_type, mac@));
    buf
}

/// The link-layer address of an interface.
#[derive(Debug, Clone)]
pub struct DuidMacSource {
    pub hw_type: u16,
    pub mac: Vec<u8>,
}

/// The time in a DUID: the seconds since the year 2000 began, of which the low 32 bits are kept.
pub open spec fn duid_time(now_secs: u64) -> u32 {
    if now_secs < DUID_EPOCH_OFFSET {
        0
    } else {
        ((now_secs - DUID_EPOCH_OFFSET) % 0x1_0000_0000) as u32
    }
}

/// Whether an interface has a link-layer address that can go into a DUID.
pub open spec fn usable(source: Option<DuidMacSource>) -> bool {
    source matches Some(s) && s.hw_type < 256
}

/// The DUID of the server: the configured one, else one made from an interface's address.
pub open spec fn duid_of(
    config: Option<Seq<u8>>,
    enterprise: u32,
    source: Option<DuidMacSource>,
    use_llt: bool,
    now_secs: u64,
) -> Option<Seq<u8>> {
    match config {
        Some(id) => Some(duid_en(enterprise, id)),
        None => if !usable(source) {
            None
        } else if use_llt {
            Some(duid_llt(source->0.hw_type, source->0.mac@, duid_time(now_secs)))
        } else {
            Some(duid_ll(source->0.hw_type, source->0.mac@))
        },
    }
}

/// Makes the DUID of the server and stores it. Fails, and changes nothing, where none is configured and
/// no interface has a usable address.
pub fn make_duid(daemon: &mut Daemon, mac_source: Option<DuidMacSource>, use_llt: bool, now_secs: u64) -> (r: Result<
    (),
    &'static str,
>)
    ensures
        ({
            let config = match old(daemon).duid_config {
                Some(id) => Some(id@),
                None => None,
            };
            match duid_of(config, old(daemon).duid_enterprise, mac_source, use_llt, now_secs) {
                Some(d) => {
                    &&& r is Ok
                    &&& final(daemon).duid is Some
                    &&& final(daemon).duid->0@ == d
                    &&& *final(daemon) == (Daemon { duid: final(daemon).duid, ..*old(daemon) })
                },
                None => {
                    &&& r matches Err(e)
                    &&& e@ == "Cannot create DHCPv6 server DUID: no interface with a usable MAC address"@
                    &&& *final(daemon) == *old(daemon)
                },
            }
        }),
{
    if let Some(id) = &daemon.duid_config {
        let duid: Vec<u8> = build_duid_en(daemon.duid_enterprise, id.as_slice());
        daemon.duid = Some(duid);
        return Ok(());
    }
    let src: DuidMacSource = match mac_source {
        Some(s) => s,
        None => {
            return Err("Cannot create DHCPv6 server DUID: no interface with a usable MAC address");
        },
    };
    if src.hw_type >= 256 {
        return Err("Cannot create DHCPv6 server DUID: no interface with a usable MAC address");
    }
    let duid: Vec<u8> = if use_llt {
        let since: u64 = if now_secs < DUID_EPOCH_OFFSET {
            0
        } else {
            now_secs - DUID_EPOCH_OFFSET
        };
        build_duid_llt(src.hw_type, src.mac.as_slice(), (since % 0x1_0000_0000) as u32)
    } else {
        build_duid_ll(src.hw_type, src.mac.as_slice())
    };
    daemon.duid = Some(duid);
    Ok(())
}

} // verus!
