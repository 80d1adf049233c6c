//! The options field of a DHCPv4 packet.

use crate::dhcp_protocol::{msg_type_of, DhcpMsgType, OPTION_END, OPTION_MESSAGE_TYPE, OPTION_PAD, OPTION_VENDOR_ID};
use crate::dhcp_types::DhcpOpt;
use crate::text::{append_bytes, copy_range, utf8_to_string};
use vstd::prelude::*;
use vstd::slice::slice_subrange;
use vstd::utf8::{decode_utf8, valid_utf8};

verus! {

/// The options in `s` from position `i` on, as codes and data, up to the end marker or the first option
/// that is cut off. Padding is passed over.
pub open spec fn options_from(s: Seq<u8>, i: int) -> Seq<(u8, Seq<u8>)>
    decreases s.len() - i,
{
    if !(0 <= i < s.len()) || s[i] == OPTION_END {
        seq![]
    } else if s[i] == OPTION_PAD {
        options_from(s, i + 1)
    } else if i + 1 >= s.len() || i + 2 + s[i + 1] > s.len() {
        seq![]
    } else {
        seq![(s[i], s.subrange(i + 2, i + 2 + s[i + 1]))] + options_from(s, i + 2 + s[i + 1])
    }
}

/// The data of the first option with this code.
pub open spec fn first_option(entries: Seq<(u8, Seq<u8>)>, code: u8) -> Option<Seq<u8>>
    decreases entries.len(),
{
    if entries.len() == 0 {
        None
    } else if entries[0].0 == code {
        Some(entries[0].1)
    } else {
        first_option(entries.skip(1), code)
    }
}

/// The data of the first option with this code in an options field.
pub open spec fn option_in(options: Seq<u8>, code: u8) -> Option<Seq<u8>> {
    first_option(options_from(options, 0), code)
}

/// Finds an option by its code.
pub fn find_option(options: &[u8], code: u8) -> (r: Option<&[u8]>)
    ensures
        match r {
            Some(d) => option_in(options@, code) == Some(d@),
            None => option_in(options@, code) is None,
        },
{
    let mut i: usize = 0;
    while i < options.len()
        invariant
            i <= options@.len(),
            option_in(options@, code) == first_option(options_from(options@, i as int), code),
        decreases options@.len() - i,
    {
        let opt: u8 = options[i];
        if opt == OPTION_PAD {
            i += 1;
            continue ;
        }
        if opt == OPTION_END || options.len() - i < 2 {
            return None;
        }
        let len: usize = options[i + 1] as usize;
        if options.len() - i - 2 < len {
            return None;
        }
        proof {
            let s = options@;
            let rest = options_from(s, i + 2 + len);
            let all = options_from(s, i as int);
            assert(all == seq![(opt, s.subrange(i + 2, i + 2 + len))] + rest);
            assert(all.skip(1) =~= rest);
        }
        if opt == code {
            return Some(slice_subrange(options, i + 2, i + 2 + len));
        }
        i += 2 + len;
    }
    None
}

/// The message type that an options field carries.
pub open spec fn message_type(options: Seq<u8>) -> Option<DhcpMsgType> {
    match option_in(options, OPTION_MESSAGE_TYPE) {
        Some(d) => if d.len() > 0 {
            msg_type_of(d[0])
        } else {
            None
        },
        None => None,
    }
}

/// Finds the message type in an options field.
pub fn get_message_type(options: &[u8]) -> (r: Option<DhcpMsgType>)
    ensures
        r == message_type(options@),
{
    match find_option(options, OPTION_MESSAGE_TYPE) {
        Some(d) => {
            if d.len() > 0 {
                DhcpMsgType::from_u8(d[0])
            } else {
                None
            }
        },
        None => None,
    }
}

/// Finds the vendor class in an options field, where it is valid UTF-8.
pub fn get_vendor_class(options: &[u8]) -> (r: Option<String>)
    ensures
        match option_in(options@, OPTION_VENDOR_ID) {
            Some(d) => {
                &&& r is Some <==> valid_utf8(d)
                &&& r matches Some(t) ==> t@ == decode_utf8(d)
            },
            None => r is None,
        },
{
    match find_option(options, OPTION_VENDOR_ID) {
        Some(d) => utf8_to_string(d),
        None => None,
    }
}

/// The data that is sent of an option: as much as fits the length byte.
pub open spec fn sent_data(val: Seq<u8>) -> Seq<u8> {
    if val.len() > 255 {
        val.take(255)
    } else {
        val
    }
}

/// The options from number `i` on that have a value, as codes and data. The code is the low byte of the
/// option's number.
pub open spec fn entries_from(opts: Seq<DhcpOpt>, i: int) -> Seq<(u8, Seq<u8>)>
    decreases opts.len() - i,
{
    if !(0 <= i < opts.len()) {
        seq![]
    } else {
        match opts[i].val {
            Some(v) => seq![(opts[i].opt as u8, sent_data(v@))] + entries_from(opts, i + 1),
            None => entries_from(opts, i + 1),
        }
    }
}

/// The bytes of options from number `k` on.
pub open spec fn encoded_from(entries: Seq<(u8, Seq<u8>)>, k: int) -> Seq<u8>
    decreases entries.len() - k,
{
    if !(0 <= k < entries.len()) {
        seq![]
    } else {
        seq![entries[k].0, entries[k].1.len() as u8] + entries[k].1 + encoded_from(entries, k + 1)
    }
}

/// An options field made of these options.
pub open spec fn options_field(opts: Seq<DhcpOpt>) -> Seq<u8> {
    encoded_from(entries_from(opts, 0), 0).push(OPTION_END)
}

/// The bytes of a list that starts with one option.
proof fn lemma_encoded_front(e: (u8, Seq<u8>), rest: Seq<(u8, Seq<u8>)>)
    ensures
        encoded_from(seq![e] + rest, 0) == seq![e.0, e.1.len() as u8] + e.1 + encoded_from(rest, 0),
{
    lemma_encoded_shift(seq![e] + rest, rest, 1);
}

/// Options that stand one place later have the same bytes.
proof fn lemma_encoded_shift(all: Seq<(u8, Seq<u8>)>, rest: Seq<(u8, Seq<u8>)>, k: int)
    requires
        1 <= k,
        all.len() == rest.len() + 1,
        forall|j: int| 0 <= j < rest.len() ==> all[j + 1] == rest[j],
    ensures
        encoded_from(all, k) == encoded_from(rest, k - 1),
    decreases all.len() - k,
{
    if k < all.len() {
        lemma_encoded_shift(all, rest, k + 1);
        assert(all[k - 1 + 1] == rest[k - 1]);
    }
}

/// Builds an options field. Options without a value are left out, values are cut to what the length byte
/// can tell, and the end marker closes the field.
pub fn build_options(opts: &[DhcpOpt]) -> (out: Vec<u8>)
    ensures
        out@ == options_field(opts@),
{
    let mut out: Vec<u8> = Vec::new();
    let mut i: usize = 0;
    assert(out@ + encoded_from(entries_from(opts@, 0), 0) =~= encoded_from(entries_from(opts@, 0), 0));
    while i < opts.len()
        invariant
            i <= opts@.len(),
            out@ + encoded_from(entries_from(opts@, i as int), 0) == encoded_from(entries_from(opts@, 0), 0),
        decreases opts@.len() - i,
    {
        let ghost before = out@;
        match &opts[i].val {
            Some(val) => {
                let len: usize = if val.len() > 255 {
                    255
                } else {
                    val.len()
                };
                let data: Vec<u8> = copy_range(val.as_slice(), 0, len);
                #[verifier::truncate]
                let code: u8 = opts[i].opt as u8;
                out.push(code);
                out.push(len as u8);
                append_bytes(&mut out, data.as_slice());
                proof {
                    assert(data@ =~= sent_data(val@));
                    let rest = entries_from(opts@, i + 1);
                    lemma_encoded_front((code, data@), rest);
                    assert(before + (seq![code, len as u8] + data@ + encoded_from(rest, 0)) =~= out@
                        + encoded_from(rest, 0));
                }
            },
            None => {},
        }
        i += 1;
    }
    proof {
        assert(encoded_from(entries_from(opts@, i as int), 0) =~= Seq::<u8>::empty());
        assert(out@ =~= encoded_from(entries_from(opts@, 0), 0));
    }
    out.push(OPTION_END);
    out
}

/// Options that were written are read back, wherever they stand.
proof fn lemma_read_back(before: Seq<u8>, entries: Seq<(u8, Seq<u8>)>, k: int)
    requires
        0 <= k <= entries.len(),
        forall|j: int| 0 <= j < entries.len() ==> (#[trigger] entries[j]).0 != OPTION_PAD && entries[j].0 != OPTION_END,
        forall|j: int| 0 <= j < entries.len() ==> (#[trigger] entries[j]).1.len() <= 255,
    ensures
        options_from(before + encoded_from(entries, k).push(OPTION_END), before.len() as int) == entries.skip(k),
    decreases entries.len() - k,
{
    let s = before + encoded_from(entries, k).push(OPTION_END);
    let i = before.len() as int;
    if k == entries.len() {
        assert(s[i] == OPTION_END);
        assert(entries.skip(k) =~= seq![]);
    } else {
        let (code, data) = entries[k];
        let head = before + seq![code, data.len() as u8] + data;
        let rest = encoded_from(entries, k + 1).push(OPTION_END);
        assert(s =~= head + rest);
        lemma_read_back(head, entries, k + 1);
        assert(s[i] == code && s[i + 1] == data.len());
        assert(s.subrange(i + 2, i + 2 + data.len()) =~= data);
        assert(head.len() == i + 2 + data.len());
        assert(entries.skip(k) =~= seq![(code, data)] + entries.skip(k + 1));
    }
}

/// The data of every entry fits the length byte, and its code is that of an option.
proof fn lemma_entries(opts: Seq<DhcpOpt>, i: int)
    requires
        0 <= i,
        forall|j: int| 0 <= j < opts.len() ==> 1 <= (#[trigger] opts[j]).opt <= 254,
    ensures
        forall|j: int|
            #![trigger entries_from(opts, i)[j]]
            0 <= j < entries_from(opts, i).len() ==> 1 <= entries_from(opts, i)[j].0 <= 254 && entries_from(opts, i)[j].1.len()
                <= 255,
    decreases opts.len() - i,
{
    if i < opts.len() {
        lemma_entries(opts, i + 1);
        let rest = entries_from(opts, i + 1);
        if opts[i].val is Some {
            let e = (opts[i].opt as u8, sent_data(opts[i].val->0@));
            assert forall|j: int|
                #![trigger entries_from(opts, i)[j]]
                0 <= j < entries_from(opts, i).len() implies 1 <= entries_from(opts, i)[j].0 <= 254 && entries_from(
                opts,
                i,
            )[j].1.len() <= 255 by {
                if j > 0 {
                    assert(entries_from(opts, i)[j] == rest[j - 1]);
                }
            }
        }
    }
}

/// Options that were built are found again in the same order, each with its code and its data, where
/// every option's number is one that an option can have (1 to 254).
pub proof fn law_build_then_find(opts: Seq<DhcpOpt>)
    requires
        forall|j: int| 0 <= j < opts.len() ==> 1 <= (#[trigger] opts[j]).opt <= 254,
    ensures
        options_from(options_field(opts), 0) == entries_from(opts, 0),
        forall|code: u8| #[trigger]
            option_in(options_field(opts), code) == first_option(entries_from(opts, 0), code),
{
    let entries = entries_from(opts, 0);
    lemma_entries(opts, 0);
    lemma_read_back(seq![], entries, 0);
    assert(entries.skip(0) =~= entries);
    assert(Seq::<u8>::empty() + encoded_from(entries, 0).push(OPTION_END) =~= options_field(opts));
}

} // verus!
