//! Failure flags, extended error codes, type bitmaps, queries and clock checks.

use crate::names::{split, split_labels, trim_dots, trim_end_dots};
use crate::text::{append_bytes, views};
use crate::wire::{be16_bytes, push_be16};
use vstd::prelude::*;
use vstd::utf8::encode_utf8;

verus! {

/// The upstream server failed.
pub const DNSSEC_FAIL_UPSTREAM: u32 = 0x1;

/// The signature is not yet valid.
pub const DNSSEC_FAIL_NYV: u32 = 0x2;

/// The signature has expired.
pub const DNSSEC_FAIL_EXP: u32 = 0x4;

/// No key has a supported algorithm.
pub const DNSSEC_FAIL_NOKEYSUP: u32 = 0x8;

/// No key is a zone key.
pub const DNSSEC_FAIL_NOZONE: u32 = 0x10;

/// No key could be used.
pub const DNSSEC_FAIL_NOKEY: u32 = 0x20;

/// No DS record has a supported digest.
pub const DNSSEC_FAIL_NODSSUP: u32 = 0x40;

/// The NSEC3 iteration count is too high.
pub const DNSSEC_FAIL_NSEC3_ITERS: u32 = 0x80;

/// There is no proof of non-existence.
pub const DNSSEC_FAIL_NONSEC: u32 = 0x100;

/// The outcome is indeterminate.
pub const DNSSEC_FAIL_INDET: u32 = 0x200;

/// A signature is missing.
pub const DNSSEC_FAIL_NOSIG: u32 = 0x400;

/// The packet is malformed.
pub const DNSSEC_FAIL_BADPACKET: u32 = 0x800;

/// The work limit was reached.
pub const DNSSEC_FAIL_WORK: u32 = 0x1000;

pub const EDE_UNSET: u16 = 0;

pub const EDE_US_SERVFAIL: u16 = 23;

pub const EDE_SIG_NYV: u16 = 8;

pub const EDE_SIG_EXP: u16 = 7;

pub const EDE_USUPDNSKEY: u16 = 11;

pub const EDE_NO_ZONEKEY: u16 = 9;

pub const EDE_NO_DNSKEY: u16 = 10;

pub const EDE_USUPDS: u16 = 12;

pub const EDE_UNS_NS3_ITER: u16 = 27;

pub const EDE_NO_NSEC: u16 = 14;

pub const EDE_DNSSEC_IND: u16 = 13;

pub const EDE_NO_RRSIG: u16 = 15;

/// The failure flags that have an extended error code, with that code, the most urgent first.
pub open spec fn ede_table() -> Seq<(u32, u16)> {
    seq![
        (DNSSEC_FAIL_UPSTREAM, EDE_US_SERVFAIL),
        (DNSSEC_FAIL_NYV, EDE_SIG_NYV),
        (DNSSEC_FAIL_EXP, EDE_SIG_EXP),
        (DNSSEC_FAIL_NOKEYSUP, EDE_USUPDNSKEY),
        (DNSSEC_FAIL_NOZONE, EDE_NO_ZONEKEY),
        (DNSSEC_FAIL_NOKEY, EDE_NO_DNSKEY),
        (DNSSEC_FAIL_NODSSUP, EDE_USUPDS),
        (DNSSEC_FAIL_NSEC3_ITERS, EDE_UNS_NS3_ITER),
        (DNSSEC_FAIL_NONSEC, EDE_NO_NSEC),
        (DNSSEC_FAIL_INDET, EDE_DNSSEC_IND),
        (DNSSEC_FAIL_NOSIG, EDE_NO_RRSIG),
    ]
}

/// Whether entry `i` of the table decides the code for `status`: its flag is the first one set.
pub open spec fn ede_decides(status: u32, i: int) -> bool {
    &&& 0 <= i < ede_table().len()
    &&& status & ede_table()[i].0 != 0
    &&& forall|j: int| 0 <= j < i ==> status & (#[trigger] ede_table()[j]).0 == 0
}

/// Maps failure flags to the extended error code of the most urgent one.
pub fn errflags_to_ede(status: u32) -> (r: u16)
    ensures
        forall|i: int| #[trigger] ede_decides(status, i) ==> r == ede_table()[i].1,
        (forall|i: int| 0 <= i < ede_table().len() ==> status & (#[trigger] ede_table()[i]).0 == 0) ==> r == EDE_UNSET,
{
    proof {
        let t = ede_table();
        assert(t[0].0 == DNSSEC_FAIL_UPSTREAM && t[1].0 == DNSSEC_FAIL_NYV && t[2].0 == DNSSEC_FAIL_EXP);
        assert(t[3].0 == DNSSEC_FAIL_NOKEYSUP && t[4].0 == DNSSEC_FAIL_NOZONE && t[5].0 == DNSSEC_FAIL_NOKEY);
        assert(t[6].0 == DNSSEC_FAIL_NODSSUP && t[7].0 == DNSSEC_FAIL_NSEC3_ITERS && t[8].0 == DNSSEC_FAIL_NONSEC);
        assert(t[9].0 == DNSSEC_FAIL_INDET && t[10].0 == DNSSEC_FAIL_NOSIG);
    }
    if status & DNSSEC_FAIL_UPSTREAM != 0 {
        EDE_US_SERVFAIL
    } else if status & DNSSEC_FAIL_NYV != 0 {
        EDE_SIG_NYV
    } else if status & DNSSEC_FAIL_EXP != 0 {
        EDE_SIG_EXP
    } else if status & DNSSEC_FAIL_NOKEYSUP != 0 {
        EDE_USUPDNSKEY
    } else if status & DNSSEC_FAIL_NOZONE != 0 {
        EDE_NO_ZONEKEY
    } else if status & DNSSEC_FAIL_NOKEY != 0 {
        EDE_NO_DNSKEY
    } else if status & DNSSEC_FAIL_NODSSUP != 0 {
        EDE_USUPDS
    } else if status & DNSSEC_FAIL_NSEC3_ITERS != 0 {
        EDE_UNS_NS3_ITER
    } else if status & DNSSEC_FAIL_NONSEC != 0 {
        EDE_NO_NSEC
    } else if status & DNSSEC_FAIL_INDET != 0 {
        EDE_DNSSEC_IND
    } else if status & DNSSEC_FAIL_NOSIG != 0 {
        EDE_NO_RRSIG
    } else {
        EDE_UNSET
    }
}

/// Bit `k` of `b`, counted from the most significant one.
pub open spec fn high_bit(b: u8, k: u16) -> bool {
    match k {
        0 => b / 128 % 2 == 1,
        1 => b / 64 % 2 == 1,
        2 => b / 32 % 2 == 1,
        3 => b / 16 % 2 == 1,
        4 => b / 8 % 2 == 1,
        5 => b / 4 % 2 == 1,
        6 => b / 2 % 2 == 1,
        _ => b % 2 == 1,
    }
}

/// Tests bit `k` of `b`, counted from the most significant one.
fn test_high_bit(b: u8, k: u16) -> (r: bool)
    requires
        k < 8,
    ensures
        r == high_bit(b, k),
{
    match k {
        0 => b / 128 % 2 == 1,
        1 => b / 64 % 2 == 1,
        2 => b / 32 % 2 == 1,
        3 => b / 16 % 2 == 1,
        4 => b / 8 % 2 == 1,
        5 => b / 4 % 2 == 1,
        6 => b / 2 % 2 == 1,
        _ => b % 2 == 1,
    }
}

/// Whether the type bitmap `bm` has `t`: the first window with the high byte of `t` decides. A
/// window is its number, the length of its bits, and the bits; one that is cut off ends the bitmap.
pub open spec fn bitmap_has(bm: Seq<u8>, t: u16) -> bool
    decreases bm.len(),
{
    if bm.len() < 2 || 2 + bm[1] > bm.len() {
        false
    } else if bm[0] == t / 256 {
        t % 256 / 8 < bm[1] && high_bit(bm[2 + t % 256 / 8], t % 8)
    } else {
        bitmap_has(bm.skip(2 + bm[1] as int), t)
    }
}

/// Checks whether a type is present in an NSEC or NSEC3 type bitmap.
pub fn type_in_bitmap(bitmap: &[u8], rr_type: u16) -> (r: bool)
    ensures
        r == bitmap_has(bitmap@, rr_type),
{
    let window: u16 = rr_type / 256;
    let offset: usize = (rr_type % 256 / 8) as usize;
    let mut i: usize = 0;
    assert(bitmap@.skip(0) =~= bitmap@);
    while i < bitmap.len()
        invariant
            i <= bitmap@.len(),
            window == rr_type / 256,
            offset == rr_type % 256 / 8,
            bitmap_has(bitmap@, rr_type) == bitmap_has(bitmap@.skip(i as int), rr_type),
        decreases bitmap@.len() - i,
    {
        let ghost rest = bitmap@.skip(i as int);
        if bitmap.len() - i < 2 {
            return false;
        }
        let n: usize = bitmap[i + 1] as usize;
        assert(rest[0] == bitmap@[i as int] && rest[1] == bitmap@[i + 1]);
        if n > bitmap.len() - i - 2 {
            return false;
        }
        if bitmap[i] as u16 == window {
            if offset < n {
                assert(rest[2 + offset] == bitmap@[i + 2 + offset]);
                return test_high_bit(bitmap[i + 2 + offset], rr_type % 8);
            }
            return false;
        }
        assert(rest.skip(2 + n as int) =~= bitmap@.skip(i + 2 + n));
        i = i + 2 + n;
    }
    false
}

/// The labels of a question, each behind the low byte of its length; empty labels are left out.
pub open spec fn question_labels(parts: Seq<Seq<char>>) -> Seq<u8>
    decreases parts.len(),
{
    if parts.len() == 0 {
        seq![]
    } else if parts.last().len() == 0 {
        question_labels(parts.drop_last())
    } else {
        let b = encode_utf8(parts.last());
        question_labels(parts.drop_last()).push((b.len() % 256) as u8) + b
    }
}

/// A query packet with recursion desired, one question, and nothing else.
pub open spec fn query_packet(name: Seq<char>, qclass: u16, qtype: u16, id: u16) -> Seq<u8> {
    be16_bytes(id) + seq![1u8, 0, 0, 1, 0, 0, 0, 0, 0, 0] + question_labels(split(trim_dots(name))).push(0) + be16_bytes(
        qtype,
    ) + be16_bytes(qclass)
}

/// Builds a DNS query packet for a DNSKEY or DS record: recursion desired, one question, no other
/// records.
pub fn dnssec_generate_query(name: &str, qclass: u16, qtype: u16, id: u16) -> (pkt: Vec<u8>)
    ensures
        pkt@ == query_packet(name@, qclass, qtype, id),
{
    let mut pkt: Vec<u8> = Vec::with_capacity(128);
    push_be16(&mut pkt, id);
    pkt.push(0x01);
    pkt.push(0x00);
    push_be16(&mut pkt, 1);
    push_be16(&mut pkt, 0);
    push_be16(&mut pkt, 0);
    push_be16(&mut pkt, 0);
    let ghost head = be16_bytes(id) + seq![1u8, 0, 0, 1, 0, 0, 0, 0, 0, 0];
    assert(pkt@ =~= head);
    let trimmed: String = trim_end_dots(name);
    let parts: Vec<String> = split_labels(trimmed.as_str());
    let ghost all = views(parts@);
    let mut i: usize = 0;
    assert(all.take(0) =~= Seq::<Seq<char>>::empty());
    assert(pkt@ =~= head + question_labels(all.take(0)));
    while i < parts.len()
        invariant
            i <= parts@.len(),
            all == views(parts@),
            pkt@ == head + question_labels(all.take(i as int)),
        decreases parts@.len() - i,
    {
        let label: &str = parts[i].as_str();
        proof {
            assert(all.take(i + 1).drop_last() =~= all.take(i as int));
            assert(all.take(i + 1).last() == parts@[i as int]@);
        }
        if !label.is_empty() {
            let bytes: &[u8] = label.as_bytes();
            let ghost before = pkt@;
            pkt.push((bytes.len() % 256) as u8);
            append_bytes(&mut pkt, bytes);
            assert(pkt@ =~= head + question_labels(all.take(i + 1)));
        }
        i += 1;
    }
    assert(all.take(all.len() as int) =~= all);
    pkt.push(0);
    push_be16(&mut pkt, qtype);
    push_be16(&mut pkt, qclass);
    assert(pkt@ =~= query_packet(name@, qclass, qtype, id));
    pkt
}

/// What the timestamp file says of the clock at start-up.
#[derive(Debug, Clone, Copy, PartialEq, Eq, Structural)]
pub enum TimestampSetup {
    /// No timestamp file is configured.
    NotConfigured,
    /// The file's time has passed: signature times are checked from the start.
    ClockSane,
    /// The file's time is still to come: signature times are not checked yet.
    ClockNotYetSane,
}

/// Decides from the time of the timestamp file whether the clock can be relied on.
pub fn setup_timestamp(timestamp_file_mtime: Option<u64>, now: u64) -> (r: TimestampSetup)
    ensures
        r is NotConfigured <==> timestamp_file_mtime is None,
        r is ClockSane <==> timestamp_file_mtime is Some && timestamp_file_mtime->0 <= now,
{
    match timestamp_file_mtime {
        None => TimestampSetup::NotConfigured,
        Some(mtime) => if mtime <= now {
            TimestampSetup::ClockSane
        } else {
            TimestampSetup::ClockNotYetSane
        },
    }
}

/// Whether the clock has reached the time of the timestamp file.
pub fn timestamp_clock_now_sane(timestamp_file_mtime: u64, now: u64) -> (r: bool)
    ensures
        r == (now >= timestamp_file_mtime),
{
    now >= timestamp_file_mtime
}

/// Whether signature times are to be checked.
///
/// With a timestamp file they are checked once the clock has passed it; without one, unless time
/// checks are switched off.
pub fn is_check_date(has_timestamp_file: bool, back_to_the_future: bool, no_time_check: bool) -> (r: bool)
    ensures
        has_timestamp_file ==> r == back_to_the_future,
        !has_timestamp_file ==> r == !no_time_check,
{
    if has_timestamp_file {
        back_to_the_future
    } else {
        !no_time_check
    }
}

/// Whether `now` lies in the window from `inception` to `expiration`, by serial arithmetic: neither
/// the way from inception to now nor the way from now to expiration is half the number space.
pub fn check_signature_time(inception: u32, expiration: u32, now: u32) -> (r: bool)
    ensures
        r == ((now - inception) % 0x1_0000_0000 < 0x8000_0000 && (expiration - now) % 0x1_0000_0000 < 0x8000_0000),
{
    now.wrapping_sub(inception) < 0x8000_0000 && expiration.wrapping_sub(now) < 0x8000_0000
}

} // verus!
