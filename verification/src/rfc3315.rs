//! Status codes and lifetimes of DHCPv6.

use crate::text::append_bytes;
use crate::wire::{be16_bytes, push_be16};
use vstd::prelude::*;
use vstd::utf8::encode_utf8;

verus! {

pub const STATUS_SUCCESS: u16 = 0;
pub const STATUS_UNSPEC_FAIL: u16 = 1;
pub const STATUS_NO_ADDRS_AVAIL: u16 = 2;
pub const STATUS_NO_BINDING: u16 = 3;
pub const STATUS_NOT_ON_LINK: u16 = 4;

/// The data of a status option: the code and the text.
pub open spec fn status_data(code: u16, message: Seq<char>) -> Seq<u8> {
    be16_bytes(code) + encode_utf8(message)
}

/// Builds the data of a status option.
pub fn build_status_code(code: u16, message: &str) -> (v: Vec<u8>)
    ensures
        v@ == status_data(code, message@),
{
    let mut v: Vec<u8> = Vec::new();
    push_be16(&mut v, code);
    append_bytes(&mut v, message.as_bytes());
    assert(v@ =~= status_data(code, message@));
    v
}

/// The lifetimes of an address, and when the client is to renew and to rebind it.
pub struct Times {
    pub preferred: u32,
    pub valid: u32,
    pub t1: u32,
    pub t2: u32,
}

/// The lifetimes that follow from a lease time: an unlimited one stays so everywhere, else renewal is
/// after a half and rebinding after seven eighths.
pub open spec fn times_of(lease_time: u32) -> Times {
    if lease_time == 0xffff_ffff {
        Times { preferred: 0xffff_ffff, valid: 0xffff_ffff, t1: 0xffff_ffff, t2: 0xffff_ffff }
    } else {
        Times {
            preferred: lease_time,
            valid: lease_time,
            t1: lease_time / 2,
            t2: (lease_time / 8 * 7) as u32,
        }
    }
}

/// The lifetimes that follow from a lease time: preferred, valid, renewal and rebinding.
pub fn calculate_times(lease_time: u32) -> (r: (u32, u32, u32, u32))
    ensures
        r == (
            times_of(lease_time).preferred,
            times_of(lease_time).valid,
            times_of(lease_time).t1,
            times_of(lease_time).t2,
        ),
{
    if lease_time == 0xffff_ffff {
        (0xffff_ffff, 0xffff_ffff, 0xffff_ffff, 0xffff_ffff)
    } else {
        (lease_time, lease_time, lease_time / 2, lease_time / 8 * 7)
    }
}

/// A client is to renew before it rebinds, and to rebind before its address ends.
pub proof fn law_times_are_ordered(lease_time: u32)
    ensures
        times_of(lease_time).t2 <= times_of(lease_time).preferred <= times_of(lease_time).valid,
        lease_time >= 8 ==> times_of(lease_time).t1 <= times_of(lease_time).t2,
{
}

} // verus!
