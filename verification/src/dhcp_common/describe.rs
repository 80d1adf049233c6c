//! Option values as text.

use super::opttab::{
    find_row, flag_set, has_flag, row_numbered, table_rows, OT_ADDR_LIST, OT_CSTRING, OT_DEC, OT_NAME, OT_RFC1035_NAME,
    OT_TIME,
};
use crate::addr::{ip4_text, ip6_text, Ip4, Ip6};
use crate::text::{
    decimal, hex_byte, join_strings, join_with, plus, to_decimal, to_hex_char, to_utf8_lossy, utf8_lossy, views,
};
use crate::wire::{be16, be32, read_be16, read_be32};
use vstd::prelude::*;
use vstd::slice::slice_subrange;

verus! {

/// The number that bytes stand for, most significant first.
pub open spec fn be_value(s: Seq<u8>) -> nat
    decreases s.len(),
{
    if s.len() == 0 {
        0
    } else {
        be_value(s.drop_last()) * 256 + s.last() as nat
    }
}

/// The number that the last four bytes stand for, or all bytes where there are fewer.
pub open spec fn tail_value(s: Seq<u8>) -> nat {
    if s.len() > 4 {
        be_value(s.skip(s.len() - 4))
    } else {
        be_value(s)
    }
}

/// The number that up to the last four bytes stand for.
fn decode_be_u32(val: &[u8]) -> (r: u32)
    ensures
        r == tail_value(val@),
{
    let n: usize = if val.len() > 4 {
        4
    } else {
        val.len()
    };
    let from: usize = val.len() - n;
    let ghost tail = val@.skip(from as int);
    assert(tail.len() == n);
    proof {
        if from == 0 {
            assert(tail =~= val@);
        }
    }
    let mut acc: u64 = 0;
    let mut k: usize = 0;
    assert(tail.take(0) =~= Seq::<u8>::empty());
    while k < n
        invariant
            k <= n <= 4,
            from + n == val.len(),
            tail == val@.skip(from as int),
            acc == be_value(tail.take(k as int)),
            acc < (if k == 0 {
                1int
            } else if k == 1 {
                256
            } else if k == 2 {
                0x1_0000
            } else if k == 3 {
                0x100_0000
            } else {
                0x1_0000_0000
            }),
        decreases n - k,
    {
        proof {
            assert(tail.take(k + 1).drop_last() =~= tail.take(k as int));
            assert(tail.take(k + 1).last() == val@[from + k]);
        }
        acc = acc * 256 + val[from + k] as u64;
        k += 1;
    }
    assert(tail.take(n as int) =~= tail);
    acc as u32
}

/// The parts of a duration that are not zero: hours, minutes and seconds.
pub open spec fn time_parts(secs: u32) -> Seq<Seq<char>> {
    let h = if secs / 3600 > 0 {
        seq![decimal((secs / 3600) as nat) + "h"@]
    } else {
        seq![]
    };
    let m = if secs % 3600 / 60 > 0 {
        seq![decimal((secs % 3600 / 60) as nat) + "m"@]
    } else {
        seq![]
    };
    let s = if secs % 60 > 0 {
        seq![decimal((secs % 60) as nat) + "s"@]
    } else {
        seq![]
    };
    h + m + s
}

/// A duration as text.
pub open spec fn time_text(secs: u32) -> Seq<char> {
    if secs == 0 {
        "0s"@
    } else {
        join_with(time_parts(secs), " "@)
    }
}

/// Writes a duration in hours, minutes and seconds, such as `1h 1m 1s`.
pub fn format_time(secs: u32) -> (s: String)
    ensures
        s@ == time_text(secs),
{
    if secs == 0 {
        return String::from_str("0s");
    }
    let mut parts: Vec<String> = Vec::new();
    let h: u32 = secs / 3600;
    let m: u32 = secs % 3600 / 60;
    let s: u32 = secs % 60;
    if h > 0 {
        parts.push(plus(to_decimal(h as u64), "h"));
    }
    if m > 0 {
        parts.push(plus(to_decimal(m as u64), "m"));
    }
    if s > 0 {
        parts.push(plus(to_decimal(s as u64), "s"));
    }
    assert(views(parts@) =~= time_parts(secs));
    join_strings(&parts, " ")
}

/// Bytes in hexadecimal with colons between them.
pub open spec fn hex_text(val: Seq<u8>) -> Seq<char> {
    join_with(Seq::new(val.len(), |i: int| hex_byte(val[i])), ":"@)
}

/// Bytes in hexadecimal with colons between them, the first fourteen where there are more.
pub open spec fn hex_dump(val: Seq<u8>) -> Seq<char> {
    if val.len() > 14 {
        hex_text(val.take(14)) + "..."@
    } else {
        hex_text(val)
    }
}

/// Writes the first `n` bytes in hexadecimal with colons between them.
pub fn write_hex(val: &[u8], n: usize) -> (s: String)
    requires
        n <= val@.len(),
    ensures
        s@ == hex_text(val@.take(n as int)),
{
    let ghost all = Seq::new(n as nat, |i: int| hex_byte(val@[i]));
    let mut parts: Vec<String> = Vec::new();
    let mut i: usize = 0;
    assert(views(parts@) =~= all.take(0));
    while i < n
        invariant
            i <= n <= val@.len(),
            all == Seq::new(n as nat, |i: int| hex_byte(val@[i])),
            views(parts@) == all.take(i as int),
        decreases n - i,
    {
        let b: u8 = val[i];
        let mut h: String = String::new();
        h.push(to_hex_char(b / 16));
        h.push(to_hex_char(b % 16));
        proof {
            assert(h@ =~= hex_byte(b));
            assert(views(parts@.push(h)) =~= views(parts@).push(h@));
            assert(all.take(i + 1) =~= all.take(i as int).push(all[i as int]));
        }
        parts.push(h);
        i += 1;
    }
    proof {
        assert(all.take(n as int) =~= all);
        let cut = val@.take(n as int);
        assert(Seq::new(cut.len(), |i: int| hex_byte(cut[i])) =~= all);
    }
    join_strings(&parts, ":")
}

/// Writes bytes in hexadecimal, fourteen at most.
fn format_hex_truncate(val: &[u8]) -> (s: String)
    ensures
        s@ == hex_dump(val@),
{
    if val.len() > 14 {
        plus(write_hex(val, 14), "...")
    } else {
        assert(val@.take(val@.len() as int) =~= val@);
        write_hex(val, val.len())
    }
}

/// The labels from position `pos` on, up to an empty label or the end; nothing where one is cut off.
pub open spec fn labels_from(val: Seq<u8>, pos: int) -> Option<Seq<Seq<char>>>
    decreases val.len() - pos,
{
    if !(0 <= pos < val.len()) || val[pos] == 0 {
        Some(seq![])
    } else if pos + 1 + val[pos] > val.len() {
        None
    } else {
        match labels_from(val, pos + 1 + val[pos]) {
            Some(rest) => Some(seq![utf8_lossy(val.subrange(pos + 1, pos + 1 + val[pos]))] + rest),
            None => None,
        }
    }
}

/// Decodes labels that are preceded by their lengths, and puts dots between them.
fn decode_rfc1035_names(val: &[u8]) -> (r: Option<String>)
    ensures
        match labels_from(val@, 0) {
            Some(labels) => r is Some && r->0@ == join_with(labels, "."@),
            None => r is None,
        },
{
    let mut names: Vec<String> = Vec::new();
    let mut pos: usize = 0;
    proof {
        if labels_from(val@, 0) is Some {
            assert(views(names@) + labels_from(val@, 0)->0 =~= labels_from(val@, 0)->0);
        }
    }
    while pos < val.len() && val[pos] != 0
        invariant
            pos <= val@.len(),
            labels_from(val@, 0) == (match labels_from(val@, pos as int) {
                Some(rest) => Some(views(names@) + rest),
                None => None,
            }),
        decreases val@.len() - pos,
    {
        let len: usize = val[pos] as usize;
        if val.len() - pos - 1 < len {
            return None;
        }
        let label: String = to_utf8_lossy(slice_subrange(val, pos + 1, pos + 1 + len));
        proof {
            assert(views(names@.push(label)) =~= views(names@).push(label@));
            if labels_from(val@, pos + 1 + len) is Some {
                let rest = labels_from(val@, pos + 1 + len)->0;
                assert(views(names@) + (seq![label@] + rest) =~= views(names@).push(label@) + rest);
            }
        }
        names.push(label);
        pos += 1 + len;
    }
    assert(views(names@) + Seq::<Seq<char>>::empty() =~= views(names@));
    Some(join_strings(&names, "."))
}

/// The strings from position `pos` on that are preceded by their lengths, up to the first that is cut off.
pub open spec fn strings_from(val: Seq<u8>, pos: int) -> Seq<Seq<char>>
    decreases val.len() - pos,
{
    if pos < 0 || pos + 2 > val.len() || pos + 2 + be16(val, pos) > val.len() {
        seq![]
    } else {
        let end = pos + 2 + be16(val, pos);
        seq![utf8_lossy(val.subrange(pos + 2, end))] + strings_from(val, end)
    }
}

/// Decodes strings that are preceded by their lengths, and puts commas between them.
fn decode_cstring(val: &[u8]) -> (s: String)
    ensures
        s@ == join_with(strings_from(val@, 0), ", "@),
{
    let mut strings: Vec<String> = Vec::new();
    let mut pos: usize = 0;
    let mut more: bool = true;
    assert(views(strings@) + strings_from(val@, 0) =~= strings_from(val@, 0));
    while more
        invariant
            pos <= val@.len(),
            strings_from(val@, 0) == views(strings@) + strings_from(val@, pos as int),
            !more ==> strings_from(val@, pos as int) == Seq::<Seq<char>>::empty(),
        decreases val@.len() - pos, (if more {
            1int
        } else {
            0
        }),
    {
        if val.len() - pos < 2 {
            more = false;
        } else {
            let len: usize = read_be16(val, pos) as usize;
            if val.len() - pos - 2 < len {
                more = false;
            } else {
                let s: String = to_utf8_lossy(slice_subrange(val, pos + 2, pos + 2 + len));
                proof {
                    assert(views(strings@.push(s)) =~= views(strings@).push(s@));
                    let rest = strings_from(val@, pos + 2 + len);
                    assert(views(strings@) + (seq![s@] + rest) =~= views(strings@).push(s@) + rest);
                }
                strings.push(s);
                pos += 2 + len;
            }
        }
    }
    assert(views(strings@) + Seq::<Seq<char>>::empty() =~= views(strings@));
    join_strings(&strings, ", ")
}

/// The characters of the printable bytes.
pub open spec fn printable(val: Seq<u8>) -> Seq<char>
    decreases val.len(),
{
    if val.len() == 0 {
        seq![]
    } else if 0x20 <= val.last() <= 0x7e {
        printable(val.drop_last()).push(val.last() as char)
    } else {
        printable(val.drop_last())
    }
}

/// The printable bytes as text.
fn to_printable(val: &[u8]) -> (s: String)
    ensures
        s@ == printable(val@),
{
    let mut s: String = String::new();
    let mut i: usize = 0;
    assert(val@.take(0) =~= Seq::<u8>::empty());
    while i < val.len()
        invariant
            i <= val@.len(),
            s@ == printable(val@.take(i as int)),
        decreases val@.len() - i,
    {
        proof {
            assert(val@.take(i + 1).drop_last() =~= val@.take(i as int));
            assert(val@.take(i + 1).last() == val@[i as int]);
        }
        if 0x20 <= val[i] && val[i] <= 0x7e {
            s.push(val[i] as char);
        }
        i += 1;
    }
    assert(val@.take(val@.len() as int) =~= val@);
    s
}

/// The IPv6 address at `s[i..i + 16]`.
pub open spec fn ip6_at(s: Seq<u8>, i: int) -> Ip6 {
    Ip6 {
        bits: (be32(s, i) * 0x1_0000_0000_0000_0000_0000_0000 + be32(s, i + 4) * 0x1_0000_0000_0000_0000 + be32(s, i + 8)
            * 0x1_0000_0000 + be32(s, i + 12)) as u128,
    }
}

/// Reads the IPv6 address at `b[i..i + 16]`.
pub fn read_ip6(b: &[u8], i: usize) -> (a: Ip6)
    requires
        i + 16 <= b@.len(),
    ensures
        a == ip6_at(b@, i as int),
{
    let end: usize = b.len();
    assert(i + 16 <= end);
    Ip6 {
        bits: read_be32(b, i) as u128 * 0x1_0000_0000_0000_0000_0000_0000 + read_be32(b, i + 4) as u128
            * 0x1_0000_0000_0000_0000 + read_be32(b, i + 8) as u128 * 0x1_0000_0000 + read_be32(b, i + 12) as u128,
    }
}

/// The addresses of a list, as text. Bytes at the end that make up no address are left out.
pub open spec fn address_texts(is_v6: bool, val: Seq<u8>) -> Seq<Seq<char>> {
    if is_v6 {
        Seq::new(val.len() / 16, |i: int| ip6_text(ip6_at(val, 16 * i)))
    } else {
        Seq::new(val.len() / 4, |i: int| ip4_text(Ip4 { bits: be32(val, 4 * i) }))
    }
}

/// The addresses of a list, as text.
fn write_addresses(is_v6: bool, val: &[u8]) -> (s: String)
    ensures
        s@ == join_with(address_texts(is_v6, val@), ", "@),
{
    let ghost all = address_texts(is_v6, val@);
    let width: usize = if is_v6 {
        16
    } else {
        4
    };
    let mut parts: Vec<String> = Vec::new();
    let mut i: usize = 0;
    let mut pos: usize = 0;
    assert(views(parts@) =~= all.take(0));
    while val.len() - pos >= width
        invariant
            width == (if is_v6 {
                16int
            } else {
                4int
            }),
            pos == width * i,
            pos <= val@.len(),
            i <= val@.len(),
            i <= all.len(),
            all == address_texts(is_v6, val@),
            views(parts@) == all.take(i as int),
        decreases val@.len() - pos,
    {
        let t: String = if is_v6 {
            read_ip6(val, pos).text()
        } else {
            let a: Ip4 = Ip4 { bits: read_be32(val, pos) };
            a.text()
        };
        proof {
            assert(t@ == all[i as int]);
            assert(views(parts@.push(t)) =~= views(parts@).push(t@));
            assert(all.take(i + 1) =~= all.take(i as int).push(all[i as int]));
        }
        parts.push(t);
        i += 1;
        pos += width;
    }
    assert(all.take(all.len() as int) =~= all);
    join_strings(&parts, ", ")
}

/// The flags and size of an option; none where the option is unknown.
pub open spec fn option_flags(is_v6: bool, opt: u16) -> u16 {
    match row_numbered(table_rows(is_v6), opt, 0) {
        Some(e) => e.size,
        None => 0,
    }
}

/// The name of an option; empty where the option is unknown.
pub open spec fn option_name(is_v6: bool, opt: u16) -> Seq<char> {
    match row_numbered(table_rows(is_v6), opt, 0) {
        Some(e) => e.name,
        None => ""@,
    }
}

/// The text of an option's value that is not empty, by what its flags say of it.
pub open spec fn value_text(is_v6: bool, flags: u16, val: Seq<u8>) -> Seq<char> {
    let width: int = if is_v6 {
        16
    } else {
        4
    };
    if has_flag(flags, OT_ADDR_LIST) && val.len() >= width {
        join_with(address_texts(is_v6, val), ", "@)
    } else if is_v6 && has_flag(flags, OT_RFC1035_NAME) && labels_from(val, 0) is Some {
        join_with(labels_from(val, 0)->0, "."@)
    } else if is_v6 && has_flag(flags, OT_CSTRING) {
        join_with(strings_from(val, 0), ", "@)
    } else if has_flag(flags, OT_NAME) {
        printable(val)
    } else if has_flag(flags, OT_DEC) {
        decimal(tail_value(val))
    } else if has_flag(flags, OT_TIME) {
        time_text(tail_value(val) as u32)
    } else {
        hex_dump(val)
    }
}

/// The text of an option's value that is not empty.
fn write_value(is_v6: bool, flags: u16, val: &[u8]) -> (s: String)
    ensures
        s@ == value_text(is_v6, flags, val@),
{
    let width: usize = if is_v6 {
        16
    } else {
        4
    };
    if flag_set(flags, OT_ADDR_LIST) && val.len() >= width {
        return write_addresses(is_v6, val);
    }
    if is_v6 && flag_set(flags, OT_RFC1035_NAME) {
        if let Some(names) = decode_rfc1035_names(val) {
            return names;
        }
    }
    if is_v6 && flag_set(flags, OT_CSTRING) {
        return decode_cstring(val);
    }
    if flag_set(flags, OT_NAME) {
        to_printable(val)
    } else if flag_set(flags, OT_DEC) {
        to_decimal(decode_be_u32(val) as u64)
    } else if flag_set(flags, OT_TIME) {
        format_time(decode_be_u32(val))
    } else {
        format_hex_truncate(val)
    }
}

/// The name of an option, and its value as text where the value is not empty.
pub fn option_string_ex(is_v6: bool, opt: u16, val: &[u8]) -> (r: (&'static str, Option<String>))
    ensures
        r.0@ == option_name(is_v6, opt),
        r.1 is Some <==> val@.len() > 0,
        r.1 matches Some(t) ==> t@ == value_text(is_v6, option_flags(is_v6, opt), val@),
{
    let (name, flags): (&'static str, u16) = match find_row(is_v6, opt) {
        Some(e) => (e.name, e.size),
        None => ("", 0),
    };
    if val.len() == 0 {
        return (name, None);
    }
    (name, Some(write_value(is_v6, flags, val)))
}

/// The value of an option as text; empty where the value is.
pub fn option_string(is_v6: bool, opt: u16, val: &[u8]) -> (s: String)
    ensures
        val@.len() > 0 ==> s@ == value_text(is_v6, option_flags(is_v6, opt), val@),
        val@.len() == 0 ==> s@ == Seq::<char>::empty(),
{
    match option_string_ex(is_v6, opt, val).1 {
        Some(t) => t,
        None => String::new(),
    }
}

} // verus!
