//! What is read from options and sent in them, and how they and relays are described.

use super::config::{bind_summary, one_name, BindOutcome};
use super::describe::{
    address_texts, hex_dump, labels_from, option_flags, option_name, printable, strings_from, tail_value, time_text, value_text,
};
use super::logs::{relay_line, relay_server};
use super::options::{entries_from, law_build_then_find, message_type, option_in, options_field};
use super::opttab::{size_of_option, table_rows};
use super::tags::{option_matches, share_tag};
use super::value_laws::{law_option_is_found, law_row_is_found};
use crate::addr::{addr_text, AllAddr, Ip4, Ip6};
use crate::dhcp_protocol::DhcpMsgType;
use crate::dhcp_types::{DhcpOpt, DhcpRelay};
use crate::text::{decimal, join_with, signed_decimal};
use crate::util::masked_equal;
use vstd::prelude::*;

verus! {

/// Two lists have a tag in common where some tag stands in both, wherever it does, and only then; it makes no difference which
/// of them comes first.
pub proof fn law_common_tag(tags: Seq<Seq<char>>, list: Seq<Seq<char>>, i: int, j: int)
    ensures
        0 <= i < tags.len() && 0 <= j < list.len() && tags[i] == list[j] ==> share_tag(tags, list),
        (forall|a: int, b: int| 0 <= a < tags.len() && 0 <= b < list.len() ==> #[trigger] tags[a] != #[trigger] list[b]) ==> !share_tag(
            tags,
            list,
        ),
        share_tag(tags, list) == share_tag(list, tags),
{
    if 0 <= i < tags.len() && 0 <= j < list.len() && tags[i] == list[j] {
        assert(list.contains(tags[i]));
    }
    if share_tag(tags, list) {
        let a = choose|a: int| 0 <= a < tags.len() && list.contains(#[trigger] tags[a]);
        let b = choose|b: int| 0 <= b < list.len() && list[b] == tags[a];
        assert(tags.contains(list[b]));
    }
    if share_tag(list, tags) {
        let b = choose|b: int| 0 <= b < list.len() && tags.contains(#[trigger] list[b]);
        let a = choose|a: int| 0 <= a < tags.len() && tags[a] == list[b];
        assert(list.contains(tags[a]));
    }
}

/// The message type is the one whose number is the first byte of option 53, wherever that stands; without the option, or with
/// another number, there is none.
pub proof fn law_message_type_is_read(t: DhcpMsgType, more: Seq<u8>, rest: Seq<u8>, other: u8)
    requires
        more.len() < 255,
    ensures
        message_type(seq![53u8, (1 + more.len()) as u8] + (seq![t.code()] + more) + rest) == Some(t),
        other == 0 || other > 13 ==> message_type(seq![53u8, (1 + more.len()) as u8] + (seq![other] + more) + rest) is None,
        message_type(seq![53u8, 0u8] + Seq::<u8>::empty() + rest) is None,
        option_in(rest, 53) is None ==> message_type(rest) is None,
{
    let d = seq![t.code()] + more;
    law_option_is_found(53, d, rest, 53, Seq::empty());
    assert(d[0] == t.code());
    let e = seq![other] + more;
    law_option_is_found(53, e, rest, 53, Seq::empty());
    assert(e[0] == other);
    lemma_empty_option(rest);
}

/// An option without data is found.
proof fn lemma_empty_option(rest: Seq<u8>)
    ensures
        option_in(seq![53u8, 0u8] + Seq::<u8>::empty() + rest, 53) == Some(Seq::<u8>::empty()),
{
    let s = seq![53u8, 0u8] + Seq::<u8>::empty() + rest;
    assert(s[0] == 53 && s[1] == 0);
    assert(s.subrange(2, 2) =~= Seq::<u8>::empty());
}

/// Where options are listed from: those before have no such code.
proof fn lemma_first_entry(opts: Seq<DhcpOpt>, i: int, k: int, code: u8)
    requires
        0 <= i <= k < opts.len(),
        forall|j: int| 0 <= j < opts.len() ==> 1 <= (#[trigger] opts[j]).opt <= 254,
        opts[k].opt == code,
        opts[k].val is Some,
        forall|j: int| i <= j < k ==> (#[trigger] opts[j]).opt != code || opts[j].val is None,
    ensures
        super::options::first_option(entries_from(opts, i), code) == Some(super::options::sent_data(opts[k].val->0@)),
    decreases k - i,
{
    let all = entries_from(opts, i);
    let rest = entries_from(opts, i + 1);
    if i == k {
        assert(all[0].0 == code);
    } else {
        lemma_first_entry(opts, i + 1, k, code);
        if opts[i].val is Some {
            assert(all.skip(1) =~= rest);
            assert(all[0].0 == opts[i].opt);
        }
    }
}

/// A code that no option with a value has is not among those that are listed.
proof fn lemma_no_entry(opts: Seq<DhcpOpt>, i: int, code: u8)
    requires
        0 <= i,
        forall|j: int| 0 <= j < opts.len() ==> 1 <= (#[trigger] opts[j]).opt <= 254,
        forall|j: int| i <= j < opts.len() ==> (#[trigger] opts[j]).opt != code || opts[j].val is None,
    ensures
        super::options::first_option(entries_from(opts, i), code) is None,
    decreases opts.len() - i,
{
    if i < opts.len() {
        lemma_no_entry(opts, i + 1, code);
        let all = entries_from(opts, i);
        if opts[i].val is Some {
            assert(all.skip(1) =~= entries_from(opts, i + 1));
            assert(all[0].0 == opts[i].opt);
        }
    }
}

/// In the options field that is built of options each is found by its number, with its value, or the first 255 bytes of it; of
/// several with a number that have a value, the first. An option without a value is not found.
pub proof fn law_built_option_is_found(opts: Seq<DhcpOpt>, k: int, code: u8)
    requires
        forall|j: int| 0 <= j < opts.len() ==> 1 <= (#[trigger] opts[j]).opt <= 254,
    ensures
        0 <= k < opts.len() && opts[k].opt == code && opts[k].val is Some && (forall|j: int|
            0 <= j < k ==> (#[trigger] opts[j]).opt != code || opts[j].val is None) ==> ({
            let v = opts[k].val->0@;
            let found = option_in(options_field(opts), code);
            &&& v.len() <= 255 ==> found == Some(v)
            &&& v.len() > 255 ==> found == Some(v.take(255))
        }),
        (forall|j: int| 0 <= j < opts.len() ==> (#[trigger] opts[j]).opt != code || opts[j].val is None) ==> option_in(
            options_field(opts),
            code,
        ) is None,
        options_field(opts).last() == 255,
{
    law_build_then_find(opts);
    assert(option_in(options_field(opts), code) == super::options::first_option(entries_from(opts, 0), code));
    if 0 <= k < opts.len() && opts[k].opt == code && opts[k].val is Some && (forall|j: int|
        0 <= j < k ==> (#[trigger] opts[j]).opt != code || opts[j].val is None) {
        lemma_first_entry(opts, 0, k, code);
    }
    if forall|j: int| 0 <= j < opts.len() ==> (#[trigger] opts[j]).opt != code || opts[j].val is None {
        lemma_no_entry(opts, 0, code);
    }
}

/// A value in hexadecimal matches data from the start, and its last 32 bytes match anything; data that is shorter never matches.
pub proof fn law_hexadecimal_option_matches(opt: DhcpOpt, v: Vec<u8>, data: Seq<u8>)
    requires
        opt.val == Some(v),
        v@.len() > 0,
        opt.flags.hex,
    ensures
        data.len() < v@.len() ==> !option_matches(opt, data),
        v@.len() <= 32 && data.len() >= v@.len() ==> option_matches(opt, data),
        v@.len() > 32 && data.len() >= v@.len() ==> (option_matches(opt, data) <==> v@.take(v@.len() - 32) == data.take(v@.len() - 32)),
{
    let a = v@;
    assert forall|i: int| 0 <= i < a.len() implies crate::util::is_wild(0xffff_ffff, a.len() as int, i) == (a.len() - 1 - i < 32) by {
        if a.len() - 1 - i < 32 {
            let n = (a.len() - 1 - i) as u32;
            assert((0xffff_ffffu32 >> n) & 1 == 1) by (bit_vector)
                requires
                    n < 32,
            ;
        }
    }
    if a.len() > 32 && data.len() >= a.len() {
        let n = a.len() - 32;
        if option_matches(opt, data) {
            assert forall|i: int| 0 <= i < n implies a.take(n)[i] == data.take(n)[i] by {
                assert(a[i] == data[i]);
            }
            assert(a.take(n) =~= data.take(n));
        }
        if a.take(n) == data.take(n) {
            assert forall|i: int| 0 <= i < a.len() && !crate::util::is_wild(0xffff_ffff, a.len() as int, i) implies #[trigger] a[i]
                == data[i] by {
                assert(a.take(n)[i] == data.take(n)[i]);
            }
        }
    }
}

/// Without a mask all bytes are compared; the lowest bit of a mask frees the last byte, and no other.
pub proof fn law_masked_bytes(a: Seq<u8>, b: Seq<u8>)
    requires
        a.len() == b.len(),
    ensures
        masked_equal(a, b, 0) <==> a == b,
        a.len() > 0 ==> (masked_equal(a, b, 1) <==> a.drop_last() == b.drop_last()),
{
    assert forall|i: int| 0 <= i < a.len() implies !crate::util::is_wild(0, a.len() as int, i) by {
        if a.len() - 1 - i < 32 {
            let n = (a.len() - 1 - i) as u32;
            assert((0u32 >> n) & 1 == 0) by (bit_vector)
                requires
                    n < 32,
            ;
        }
    }
    if masked_equal(a, b, 0) {
        assert(a =~= b);
    }
    if a.len() > 0 {
        let l = a.len() as int;
        assert forall|i: int| 0 <= i < l implies crate::util::is_wild(1, l, i) == (i == l - 1) by {
            if l - 1 - i < 32 {
                let n = (l - 1 - i) as u32;
                assert(((1u32 >> n) & 1 == 1) == (n == 0)) by (bit_vector)
                    requires
                        n < 32,
                ;
            }
        }
        if masked_equal(a, b, 1) {
            assert forall|i: int| 0 <= i < l - 1 implies a.drop_last()[i] == b.drop_last()[i] by {
                assert(a[i] == b[i]);
            }
            assert(a.drop_last() =~= b.drop_last());
        }
        if a.drop_last() == b.drop_last() {
            assert forall|i: int| 0 <= i < a.len() && !crate::util::is_wild(1, l, i) implies #[trigger] a[i] == b[i] by {
                assert(a.drop_last()[i] == b.drop_last()[i]);
            }
        }
    }
}

/// The name and the flags of an option are those of the first row with its number, and its length is what its flags say without
/// the one for decimals; an option that is not in the table has no name, no flags and no length.
pub proof fn law_option_is_looked_up(is_v6: bool, opt: u16, k: int)
    ensures
        ({
            let t = table_rows(is_v6);
            &&& 0 <= k < t.len() && t[k].val == opt && (forall|j: int| 0 <= j < k ==> (#[trigger] t[j]).val != opt) ==> {
                &&& option_name(is_v6, opt) == t[k].name
                &&& option_flags(is_v6, opt) == t[k].size
                &&& t[k].size / 0x400 % 2 == 1 ==> size_of_option(is_v6, opt) == t[k].size - 0x400
                &&& t[k].size / 0x400 % 2 == 0 ==> size_of_option(is_v6, opt) == t[k].size
            }
            &&& (forall|j: int| 0 <= j < t.len() ==> (#[trigger] t[j]).val != opt) ==> option_name(is_v6, opt).len() == 0 && option_flags(
                is_v6,
                opt,
            ) == 0 && size_of_option(is_v6, opt) == 0
        }),
{
    reveal_strlit("");
    law_row_is_found(table_rows(is_v6), 0, k, Seq::empty(), opt);
}

/// The flags of an option say how its value is written: a list of addresses where there is room for one, with DHCPv6 a name or
/// strings, and else text, a number, a time, or bytes. A flag that comes before others in this order decides.
pub proof fn law_how_values_are_written(flags: u16, val: Seq<u8>)
    ensures
        ({
            let (addrs, name, text, strings, number, time) = (
                flags / 0x8000 % 2 == 1,
                flags / 0x4000 % 2 == 1,
                flags / 0x1000 % 2 == 1,
                flags / 0x800 % 2 == 1,
                flags / 0x400 % 2 == 1,
                flags / 0x200 % 2 == 1,
            );
            &&& addrs && val.len() >= 4 ==> value_text(false, flags, val) == join_with(address_texts(false, val), ", "@)
            &&& addrs && val.len() >= 16 ==> value_text(true, flags, val) == join_with(address_texts(true, val), ", "@)
            &&& !addrs && name && labels_from(val, 0) is Some ==> value_text(true, flags, val) == join_with(labels_from(val, 0)->0, "."@)
            &&& !addrs && !name && strings ==> value_text(true, flags, val) == join_with(strings_from(val, 0), ", "@)
            &&& !addrs && text ==> value_text(false, flags, val) == printable(val)
            &&& !addrs && !text && number ==> value_text(false, flags, val) == decimal(tail_value(val))
            &&& !addrs && !text && !number && time ==> value_text(false, flags, val) == time_text(tail_value(val) as u32)
            &&& !addrs && !text && !number && !time ==> value_text(false, flags, val) == hex_dump(val)
            &&& !addrs && !name && !strings ==> value_text(true, flags, val) == value_text(false, flags, val)
        }),
{
}

/// The line on a relay tells where it listens and to which server it relays, with the port where that is not the usual one, 67 or
/// 547, and through which interface, if one is given. Where the server stands for all of them it is not told.
pub proof fn law_relay_line(is_v6: bool, relay: DhcpRelay)
    ensures
        ({
            let usual: int = if is_v6 {
                547
            } else {
                67
            };
            let all = if is_v6 {
                relay.server_addr == AllAddr::Addr6(Ip6 { bits: 0xff05_0000_0000_0000_0000_0000_0001_0003 })
            } else {
                relay.server_addr == AllAddr::Addr4(Ip4 { bits: 0 })
            };
            let line = relay_line(is_v6, relay);
            let start = "DHCP relay from "@ + addr_text(relay.local_addr);
            let to = " to "@ + addr_text(relay.server_addr);
            let port = "#"@ + signed_decimal(relay.port as int);
            &&& relay.interface is None && relay.port == usual ==> line == start + to
            &&& relay.interface is None && relay.port != usual ==> line == start + to + port
            &&& (relay.interface matches Some(i) ==> {
                &&& all ==> line == start + " via "@ + i@
                &&& !all && relay.split_mode == 0 && relay.port == usual ==> line == start + to + " via "@ + i@
                &&& !all && relay.split_mode == 0 && relay.port != usual ==> line == start + to + port + " via "@ + i@
                &&& !all && relay.split_mode != 0 && relay.port == usual ==> line == "DHCP split-relay from "@ + addr_text(relay.local_addr)
                    + to + " via "@ + i@
            })
        }),
{
    let usual: int = if is_v6 {
        547
    } else {
        67
    };
    let line = relay_line(is_v6, relay);
    let start = "DHCP relay from "@ + addr_text(relay.local_addr);
    let to = " to "@ + addr_text(relay.server_addr);
    let port = "#"@ + signed_decimal(relay.port as int);
    let server = addr_text(relay.server_addr);
    assert(relay.port == usual ==> relay_server(is_v6, relay) == server);
    assert(start + " to "@ + server =~= start + to);
    assert(start + " to "@ + (server + port) =~= start + to + port);
    let split = "DHCP split-relay from "@ + addr_text(relay.local_addr);
    assert(split + " to "@ + server =~= split + to);
}

/// Of several sockets it is told whether any could not be bound for want of rights, and whether any could not be for another
/// reason; each of them counts.
pub proof fn law_bind_summary(outcomes: Seq<BindOutcome>, i: int)
    ensures
        bind_summary(outcomes) <= 3,
        0 <= i < outcomes.len() && outcomes[i] is Denied ==> bind_summary(outcomes) >= 2,
        0 <= i < outcomes.len() && outcomes[i] is Failed ==> bind_summary(outcomes) % 2 == 1,
        (forall|j: int| 0 <= j < outcomes.len() ==> (#[trigger] outcomes[j]) is Bound) ==> bind_summary(outcomes) == 0,
        (forall|j: int| 0 <= j < outcomes.len() ==> !((#[trigger] outcomes[j]) is Denied)) ==> bind_summary(outcomes) <= 1,
        (forall|j: int| 0 <= j < outcomes.len() ==> !((#[trigger] outcomes[j]) is Failed)) ==> bind_summary(outcomes) % 2 == 0,
{
    if 0 <= i < outcomes.len() {
        assert(outcomes.contains(outcomes[i]));
    }
    if outcomes.contains(BindOutcome::Denied) {
        let j = choose|j: int| 0 <= j < outcomes.len() && outcomes[j] == BindOutcome::Denied;
        assert(!(outcomes[j] is Bound));
    }
    if outcomes.contains(BindOutcome::Failed) {
        let j = choose|j: int| 0 <= j < outcomes.len() && outcomes[j] == BindOutcome::Failed;
        assert(!(outcomes[j] is Bound));
    }
}

/// Names are one where there is one and no two differ.
pub proof fn law_one_name(names: Seq<Seq<char>>, i: int, j: int)
    ensures
        names.len() == 1 ==> one_name(names),
        names.len() == 0 ==> !one_name(names),
        0 <= i < names.len() && 0 <= j < names.len() && names[i] != names[j] ==> !one_name(names),
        one_name(names) ==> one_name(names.push(names[0])),
{
}

} // verus!
