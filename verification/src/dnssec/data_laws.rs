//! The forms of record data, names and packets.

use super::basics::{labels32, lemma_split_dots, serial_order};
use super::canonical::{canon_fields, canon_name, canonical, descriptor, lower_bytes};
use super::codes::{bitmap_has, high_bit, query_packet, question_labels};
use super::order::{lex_less, list_less, name_key};
use super::records::{ds_matches, ds_of, fold16, keytag_of, lemma_word_sum_concat, word_sum, DsView};
use crate::crypto::{sha1_of, sha256_of, sha384_of};
use crate::names::{join, lemma_join_front, lemma_split_join, norm, split, trim_dots};
use crate::rfc1035::strictly_below;
use crate::text::{lower, lower_char};
use crate::wire::{be16, be16_bytes, lemma_parse_wire_labels, parse_name, wire_labels, wire_of, DnssecError};
use vstd::prelude::*;
use vstd::utf8::encode_utf8;

verus! {

/// A name that can be read is put into canonical form by lower-casing its bytes: the lengths of its labels are no letters.
proof fn lemma_canon_lower(rdata: Seq<u8>, pos: int, labels: Seq<Seq<char>>, end: int)
    requires
        parse_name(rdata, pos) == Ok::<(Seq<Seq<char>>, int), DnssecError>((labels, end)),
    ensures
        0 <= pos < end <= rdata.len(),
        canon_name(rdata, pos) == Some((lower_bytes(rdata.subrange(pos, end)), end)),
    decreases rdata.len() - pos,
{
    if rdata[pos] == 0 {
        assert(lower_bytes(rdata.subrange(pos, end)) =~= seq![0u8]);
    } else {
        let mid = pos + 1 + rdata[pos];
        let (more, last) = parse_name(rdata, mid)->Ok_0;
        lemma_canon_lower(rdata, mid, more, last);
        assert(last == end);
        let rest = lower_bytes(rdata.subrange(mid, end));
        assert(lower_bytes(rdata.subrange(pos, end)) =~= seq![rdata[pos]] + lower_bytes(rdata.subrange(pos + 1, mid)) + rest);
    }
}

/// Record data in canonical form: of NS, CNAME and PTR data the name in lower case, of MX data the preference and the name in
/// lower case, of SRV data the first six bytes and the name in lower case; all other data but that of SOA and RRSIG records as it
/// is.
pub proof fn law_canonical_form(rdata: Seq<u8>, t: u16, labels: Seq<Seq<char>>, end: int)
    ensures
        t != 2 && t != 5 && t != 6 && t != 12 && t != 15 && t != 33 && t != 46 ==> canonical(rdata, t) == Some(rdata),
        (t == 2 || t == 5 || t == 12) && parse_name(rdata, 0) == Ok::<(Seq<Seq<char>>, int), DnssecError>((labels, end)) ==> canonical(
            rdata,
            t,
        ) == Some(lower_bytes(rdata.take(end))),
        t == 15 && parse_name(rdata, 2) == Ok::<(Seq<Seq<char>>, int), DnssecError>((labels, end)) ==> canonical(rdata, t) == Some(
            rdata.take(2) + lower_bytes(rdata.subrange(2, end)),
        ),
        t == 33 && parse_name(rdata, 6) == Ok::<(Seq<Seq<char>>, int), DnssecError>((labels, end)) ==> canonical(rdata, t) == Some(
            rdata.take(6) + lower_bytes(rdata.subrange(6, end)),
        ),
{
    reveal_with_fuel(canon_fields, 3);
    assert(rdata.skip(0) =~= rdata);
    if (t == 2 || t == 5 || t == 12) && parse_name(rdata, 0) == Ok::<(Seq<Seq<char>>, int), DnssecError>((labels, end)) {
        lemma_canon_lower(rdata, 0, labels, end);
        assert(rdata.subrange(0, end) =~= rdata.take(end));
        let name = lower_bytes(rdata.take(end));
        assert(descriptor(t).skip(1) =~= Seq::<i16>::empty());
        assert(name + Seq::<u8>::empty() =~= name);
    }
    if t == 15 && parse_name(rdata, 2) == Ok::<(Seq<Seq<char>>, int), DnssecError>((labels, end)) {
        lemma_canon_lower(rdata, 2, labels, end);
        lemma_two_fields(rdata, 2, labels, end);
    }
    if t == 33 && parse_name(rdata, 6) == Ok::<(Seq<Seq<char>>, int), DnssecError>((labels, end)) {
        lemma_canon_lower(rdata, 6, labels, end);
        lemma_two_fields(rdata, 6, labels, end);
    }
}

/// Some plain bytes and a name in canonical form.
proof fn lemma_two_fields(rdata: Seq<u8>, n: i16, labels: Seq<Seq<char>>, end: int)
    requires
        0 < n,
        parse_name(rdata, n as int) == Ok::<(Seq<Seq<char>>, int), DnssecError>((labels, end)),
    ensures
        canon_fields(seq![n, 0i16], rdata, 0) == Some(rdata.take(n as int) + lower_bytes(rdata.subrange(n as int, end))),
{
    lemma_canon_lower(rdata, n as int, labels, end);
    let fields = seq![n, 0i16];
    let one = fields.skip(1);
    assert(one =~= seq![0i16]);
    assert(one.skip(1) =~= Seq::<i16>::empty());
    reveal_with_fuel(canon_fields, 3);
    let name = lower_bytes(rdata.subrange(n as int, end));
    assert(name + Seq::<u8>::empty() =~= name);
    assert(rdata.subrange(0, n as int) =~= rdata.take(n as int));
}

/// SOA data in canonical form has both its names in lower case and the numbers as they are; RRSIG data has the name of the signer
/// in lower case and the rest as it is.
pub proof fn law_canonical_form_with_tail(
    rdata: Seq<u8>,
    first: Seq<Seq<char>>,
    mid: int,
    second: Seq<Seq<char>>,
    end: int,
)
    ensures
        parse_name(rdata, 0) == Ok::<(Seq<Seq<char>>, int), DnssecError>((first, mid)) && parse_name(rdata, mid) == Ok::<
            (Seq<Seq<char>>, int),
            DnssecError,
        >((second, end)) ==> canonical(rdata, 6) == Some(
            lower_bytes(rdata.take(mid)) + lower_bytes(rdata.subrange(mid, end)) + rdata.skip(end),
        ),
        parse_name(rdata, 18) == Ok::<(Seq<Seq<char>>, int), DnssecError>((first, mid)) ==> canonical(rdata, 46) == Some(
            rdata.take(18) + lower_bytes(rdata.subrange(18, mid)) + rdata.skip(mid),
        ),
{
    reveal_with_fuel(canon_fields, 4);
    if parse_name(rdata, 0) == Ok::<(Seq<Seq<char>>, int), DnssecError>((first, mid)) && parse_name(rdata, mid) == Ok::<
        (Seq<Seq<char>>, int),
        DnssecError,
    >((second, end)) {
        lemma_canon_lower(rdata, 0, first, mid);
        lemma_canon_lower(rdata, mid, second, end);
        let fields = descriptor(6);
        assert(fields.skip(1) =~= seq![0i16, -1i16]);
        assert(fields.skip(1).skip(1) =~= seq![-1i16]);
        assert(rdata.subrange(0, mid) =~= rdata.take(mid));
        let (a, b, c) = (lower_bytes(rdata.take(mid)), lower_bytes(rdata.subrange(mid, end)), rdata.skip(end));
        assert(a + (b + c) =~= a + b + c);
    }
    if parse_name(rdata, 18) == Ok::<(Seq<Seq<char>>, int), DnssecError>((first, mid)) {
        lemma_canon_lower(rdata, 18, first, mid);
        let fields = descriptor(46);
        assert(fields.skip(1) =~= seq![0i16, -1i16]);
        assert(fields.skip(1).skip(1) =~= seq![-1i16]);
        assert(rdata.subrange(0, 18) =~= rdata.take(18));
        let (a, b, c) = (rdata.take(18), lower_bytes(rdata.subrange(18, mid)), rdata.skip(mid));
        assert(a + (b + c) =~= a + b + c);
    }
}

/// Bytes in lower case have no capital letter, are as many as before, and differ from those before in letters alone, by 32.
pub proof fn law_lower_bytes(s: Seq<u8>, i: int)
    requires
        0 <= i < s.len(),
    ensures
        lower_bytes(s).len() == s.len(),
        !(65 <= lower_bytes(s)[i] <= 90),
        lower_bytes(s)[i] == s[i] || (65 <= s[i] <= 90 && lower_bytes(s)[i] == s[i] + 32),
{
}

/// The key tag is the sum of the data in words of 16 bits, the carries added to the low half: the words are added one by one,
/// and a single byte at the end is the high half of one.
pub proof fn law_key_tag_adds_words(a: u8, b: u8, rest: Seq<u8>, hi: nat, lo: nat)
    requires
        hi < 0x1_0000,
        lo < 0x1_0000,
    ensures
        word_sum(seq![]) == 0,
        word_sum(seq![a]) == a * 256,
        word_sum(seq![a, b] + rest) == a * 256 + b + word_sum(rest),
        fold16(hi * 0x1_0000 + lo) == (hi + lo) % 0x1_0000,
{
    reveal_with_fuel(word_sum, 3);
    let one = seq![a];
    assert(one.drop_last() =~= Seq::<u8>::empty());
    let two = seq![a, b];
    assert(two.drop_last() =~= one);
    lemma_word_sum_concat(two, rest);
    let sum = hi * 0x1_0000 + lo;
    assert(sum < 0x1_0000_0000);
    assert(sum / 0x1_0000 == hi);
    assert((sum + hi) % 0x1_0000 == (hi + lo) % 0x1_0000) by {
        assert(sum + hi == hi * 0x1_0000 + (lo + hi));
        vstd::arithmetic::div_mod::lemma_mod_multiples_vanish(hi as int, (lo + hi) as int, 0x1_0000);
    }
}

/// The key tag of an RSA/MD5 key is in the key itself, before its last two bytes.
pub proof fn law_key_tag_of_algorithm_1(flags: u16, key: Seq<u8>)
    ensures
        key.len() >= 4 ==> keytag_of(1, flags, key) == key[key.len() - 4] * 256 + key[key.len() - 3],
        key.len() < 4 ==> keytag_of(1, flags, key) == 0,
{
}

/// A DS record matches a key where it holds the digest of its type over the wire form of the owner and the data of the key.
pub proof fn law_ds_matches_digest(key_tag: u16, algorithm: u8, digest_type: u8, digest: Seq<u8>, key: Seq<u8>, owner: Seq<char>)
    requires
        wire_of(owner) is Some,
    ensures
        ({
            let ds = DsView { key_tag, algorithm, digest_type, digest };
            let data = wire_of(owner)->0 + key;
            &&& digest_type == 1 ==> (ds_matches(ds, key, owner) <==> digest == sha1_of(data))
            &&& digest_type == 2 ==> (ds_matches(ds, key, owner) <==> digest == sha256_of(data))
            &&& digest_type == 4 ==> (ds_matches(ds, key, owner) <==> digest == sha384_of(data))
            &&& digest_type != 1 && digest_type != 2 && digest_type != 4 ==> !ds_matches(ds, key, owner)
        }),
{
}

/// DS data is read as it is written: the key tag, the algorithm, the type of the digest, and the digest.
pub proof fn law_ds_data_is_read(key_tag: u16, algorithm: u8, digest_type: u8, digest: Seq<u8>)
    ensures
        ds_of(be16_bytes(key_tag) + seq![algorithm, digest_type] + digest) == (DsView { key_tag, algorithm, digest_type, digest }),
{
    let s = be16_bytes(key_tag) + seq![algorithm, digest_type] + digest;
    assert(s.skip(4) =~= digest);
    assert(s[0] == (key_tag / 256) as u8 && s[1] == (key_tag % 256) as u8);
    assert(s[2] == algorithm && s[3] == digest_type);
    assert(be16(s, 0) == key_tag);
}

/// The value of a bit.
pub open spec fn bit_value(b: u8, k: u16) -> int {
    if high_bit(b, k) {
        1
    } else {
        0
    }
}

/// The bits of a byte, from the most significant one, are those of which it is made.
pub proof fn law_bits_make_the_byte(b: u8)
    ensures
        b == bit_value(b, 0) * 128 + bit_value(b, 1) * 64 + bit_value(b, 2) * 32 + bit_value(b, 3) * 16 + bit_value(b, 4) * 8
            + bit_value(b, 5) * 4 + bit_value(b, 6) * 2 + bit_value(b, 7),
{
    let x = b as int;
    assert(x == 2 * (x / 2) + x % 2);
    assert(x / 2 == 2 * (x / 4) + x / 2 % 2);
    assert(x / 4 == 2 * (x / 8) + x / 4 % 2);
    assert(x / 8 == 2 * (x / 16) + x / 8 % 2);
    assert(x / 16 == 2 * (x / 32) + x / 16 % 2);
    assert(x / 32 == 2 * (x / 64) + x / 32 % 2);
    assert(x / 64 == 2 * (x / 128) + x / 64 % 2);
    assert(x / 128 == x / 128 % 2);
}

/// A window of a type bitmap speaks for the 256 types with its number as their high byte, each by its bit, counted from the most
/// significant one of the first byte; bits that are not there are not set. What follows the window speaks for the other types.
pub proof fn law_bitmap_windows(w: u8, bits: Seq<u8>, rest: Seq<u8>, t: u16)
    requires
        bits.len() <= 255,
    ensures
        ({
            let bm = seq![w, bits.len() as u8] + bits + rest;
            let low = t % 256;
            &&& t / 256 == w && low / 8 < bits.len() ==> (bitmap_has(bm, t) <==> high_bit(bits[(low / 8) as int], low % 8))
            &&& t / 256 == w && low / 8 >= bits.len() ==> !bitmap_has(bm, t)
            &&& t / 256 != w ==> bitmap_has(bm, t) == bitmap_has(rest, t)
        }),
        !bitmap_has(seq![], t),
{
    let bm = seq![w, bits.len() as u8] + bits + rest;
    assert(bm[0] == w && bm[1] == bits.len());
    assert(bm.skip(2 + bits.len() as int) =~= rest);
    let low = t % 256;
    assert(t % 8 == low % 8);
    if low / 8 < bits.len() {
        assert(bm[2 + low / 8] == bits[(low / 8) as int]);
    }
}

/// The labels of a question are those of the wire form of the name.
proof fn lemma_question(parts: Seq<Seq<char>>)
    requires
        forall|i: int| 0 <= i < parts.len() ==> 1 <= (#[trigger] parts[i]).len() && encode_utf8(parts[i]).len() <= 63,
    ensures
        question_labels(parts) == wire_labels(parts),
    decreases parts.len(),
{
    if parts.len() > 0 {
        let d = parts.drop_last();
        assert forall|i: int| 0 <= i < d.len() implies 1 <= (#[trigger] d[i]).len() && encode_utf8(d[i]).len() <= 63 by {
            assert(parts[i] == d[i]);
        }
        lemma_question(d);
        assert(parts[parts.len() - 1] == parts.last());
        lemma_wire_last(parts);
        let b = encode_utf8(parts.last());
        assert(wire_labels(d).push((b.len() % 256) as u8) + b =~= wire_labels(d) + seq![b.len() as u8] + b);
    }
}

/// The wire form of labels ends with that of the last one.
proof fn lemma_wire_last(parts: Seq<Seq<char>>)
    requires
        parts.len() > 0,
    ensures
        wire_labels(parts) == wire_labels(parts.drop_last()) + seq![encode_utf8(parts.last()).len() as u8] + encode_utf8(parts.last()),
    decreases parts.len(),
{
    let last = encode_utf8(parts.last());
    let end = seq![last.len() as u8] + last;
    if parts.len() == 1 {
        assert(parts.skip(1) =~= Seq::<Seq<char>>::empty());
        assert(parts.drop_last() =~= Seq::<Seq<char>>::empty());
        assert(wire_labels(parts) =~= wire_labels(parts.drop_last()) + seq![last.len() as u8] + last);
    } else {
        lemma_wire_last(parts.skip(1));
        assert(parts.skip(1).drop_last() =~= parts.drop_last().skip(1));
        assert(parts.skip(1).last() == parts.last());
        assert(parts.drop_last()[0] == parts[0]);
        assert(wire_labels(parts) =~= wire_labels(parts.drop_last()) + seq![last.len() as u8] + last);
    }
}

/// A query is read back: its id, that recursion is desired and nothing else, one question and no other record, and in the
/// question the labels of the name, the type and the class. The labels are neither empty nor too long.
pub proof fn law_query_is_read_back(name: Seq<char>, qclass: u16, qtype: u16, id: u16)
    requires
        trim_dots(name).len() > 0,
        forall|i: int|
            0 <= i < split(trim_dots(name)).len() ==> 1 <= (#[trigger] split(trim_dots(name))[i]).len() && 1 <= encode_utf8(
                split(trim_dots(name))[i],
            ).len() <= 63,
    ensures
        ({
            let pkt = query_packet(name, qclass, qtype, id);
            &&& be16(pkt, 0) == id
            &&& be16(pkt, 2) == 0x100
            &&& be16(pkt, 4) == 1 && be16(pkt, 6) == 0 && be16(pkt, 8) == 0 && be16(pkt, 10) == 0
            &&& parse_name(pkt, 12) matches Ok((labels, end)) && {
                &&& labels == split(trim_dots(name))
                &&& pkt.len() == end + 4
                &&& be16(pkt, end) == qtype
                &&& be16(pkt, end + 2) == qclass
            }
        }),
{
    let labels = split(trim_dots(name));
    lemma_question(labels);
    let head = be16_bytes(id) + seq![1u8, 0, 0, 1, 0, 0, 0, 0, 0, 0];
    let tail = be16_bytes(qtype) + be16_bytes(qclass);
    let pkt = query_packet(name, qclass, qtype, id);
    assert(head + wire_labels(labels).push(0) + tail =~= pkt);
    lemma_parse_wire_labels(labels, head, tail);
    let end = (head.len() + wire_labels(labels).len() + 1) as int;
    assert(pkt[0] == (id / 256) as u8 && pkt[1] == (id % 256) as u8);
    assert(pkt[2] == 1 && pkt[3] == 0 && pkt[4] == 0 && pkt[5] == 1 && pkt[6] == 0 && pkt[7] == 0 && pkt[8] == 0 && pkt[9] == 0
        && pkt[10] == 0 && pkt[11] == 0);
    assert(pkt[end] == (qtype / 256) as u8 && pkt[end + 1] == (qtype % 256) as u8);
    assert(pkt[end + 2] == (qclass / 256) as u8 && pkt[end + 3] == (qclass % 256) as u8);
}

/// A serial number is less than those that follow it by less than half the number space, and greater than those that it
/// follows so; the one half the space away is neither.
pub proof fn law_serial_numbers_wrap(s: u32, d: u32)
    requires
        0 < d,
    ensures
        ({
            let other = ((s + d) % 0x1_0000_0000) as u32;
            &&& d < 0x8000_0000 ==> serial_order(s, other) is Less && serial_order(other, s) is Greater
            &&& d == 0x8000_0000 ==> serial_order(s, other) is Undefined
            &&& d > 0x8000_0000 ==> serial_order(s, other) is Greater && serial_order(other, s) is Less
        }),
{
}

/// A name of labels that are not empty has as many labels as it was made of; the root has none.
pub proof fn law_labels_are_counted(labels: Seq<Seq<char>>)
    requires
        forall|i: int| 0 <= i < labels.len() ==> (#[trigger] labels[i]).len() > 0 && !labels[i].contains('.'),
        labels.len() < 0x1_0000_0000,
    ensures
        labels32(join(labels)) == labels.len(),
{
    if labels.len() > 0 {
        let name = join(labels);
        lemma_split_join(labels);
        lemma_split_dots(name);
        let rest = labels.skip(1);
        if rest.len() > 0 {
            assert(labels =~= seq![labels[0]] + rest);
            lemma_join_front(labels[0], rest);
            assert(name[0] == labels[0][0]);
        } else {
            assert(name == labels[0]);
        }
        assert(labels[0].contains(labels[0][0]));
    }
}

/// Byte strings are ordered by the first byte in which they differ; one that the other starts with comes first.
pub proof fn law_byte_order(common: Seq<u8>, a: Seq<u8>, b: Seq<u8>)
    ensures
        a.len() > 0 && b.len() > 0 && a[0] < b[0] ==> lex_less(common + a, common + b) && !lex_less(common + b, common + a),
        b.len() > 0 ==> lex_less(common, common + b) && !lex_less(common + b, common),
        !lex_less(common, common),
    decreases common.len(),
{
    if common.len() > 0 {
        let rest = common.skip(1);
        law_byte_order(rest, a, b);
        assert((common + a).skip(1) =~= rest + a);
        assert((common + b).skip(1) =~= rest + b);
        assert((common + a)[0] == common[0] && (common + b)[0] == common[0]);
    } else {
        assert(common + a =~= a);
        assert(common + b =~= b);
        assert(common =~= Seq::<u8>::empty());
    }
}

/// Names are ordered by their labels from the last one to the first: by the first label in which they differ, as bytes in lower
/// case; a name comes before those below it.
pub proof fn law_name_order_by_labels(common: Seq<Seq<char>>, a: Seq<char>, b: Seq<char>)
    requires
        forall|i: int| 0 <= i < common.len() ==> (#[trigger] common[i]).len() > 0 && !common[i].contains('.'),
        a.len() > 0 && !a.contains('.'),
        b.len() > 0 && !b.contains('.'),
        common.len() > 0,
    ensures
        lex_less(encode_utf8(lower(a)), encode_utf8(lower(b))) ==> list_less(
            name_key(join(seq![a] + common)),
            name_key(join(seq![b] + common)),
        ),
        list_less(name_key(join(common)), name_key(join(seq![a] + common))),
{
    let (x, y) = (seq![a] + common, seq![b] + common);
    lemma_key(common);
    lemma_key_front(a, common);
    lemma_key_front(b, common);
    let key = name_key(join(common));
    let (ka, kb) = (encode_utf8(lower(a)), encode_utf8(lower(b)));
    assert(name_key(join(x)) == key.push(ka));
    assert(name_key(join(y)) == key.push(kb));
    lemma_list_order(key, seq![ka], seq![kb]);
    assert(key.push(ka) =~= key + seq![ka]);
    assert(key.push(kb) =~= key + seq![kb]);
    lemma_list_order(key, Seq::<Seq<u8>>::empty(), seq![ka]);
    assert(key + Seq::<Seq<u8>>::empty() =~= key);
}

/// Lists are ordered by the first item in which they differ.
proof fn lemma_list_order(common: Seq<Seq<u8>>, a: Seq<Seq<u8>>, b: Seq<Seq<u8>>)
    ensures
        a.len() > 0 && b.len() > 0 && lex_less(a[0], b[0]) ==> list_less(common + a, common + b),
        a.len() == 0 && b.len() > 0 ==> list_less(common + a, common + b),
    decreases common.len(),
{
    if common.len() > 0 {
        let rest = common.skip(1);
        lemma_list_order(rest, a, b);
        assert((common + a).skip(1) =~= rest + a);
        assert((common + b).skip(1) =~= rest + b);
    } else {
        assert(common + a =~= a);
        assert(common + b =~= b);
        if a.len() > 0 && b.len() > 0 {
            super::order::lemma_lex_total(a[0], b[0]);
        }
    }
}

/// A name of labels has no dots at its end.
proof fn lemma_no_trailing_dot(labels: Seq<Seq<char>>)
    requires
        labels.len() > 0,
        forall|i: int| 0 <= i < labels.len() ==> (#[trigger] labels[i]).len() > 0 && !labels[i].contains('.'),
    ensures
        trim_dots(join(labels)) == join(labels),
        split(join(labels)) == labels,
{
    lemma_split_join(labels);
    let last = labels[labels.len() - 1];
    assert(last.contains(last.last()));
    assert(join(labels).last() == last.last()) by {
        if labels.len() > 1 {
            assert(join(labels) == join(labels.drop_last()).push('.') + last);
        } else {
            assert(join(labels) == labels[0]);
        }
    }
}

/// The key of a name of labels.
proof fn lemma_key(labels: Seq<Seq<char>>)
    requires
        labels.len() > 0,
        forall|i: int| 0 <= i < labels.len() ==> (#[trigger] labels[i]).len() > 0 && !labels[i].contains('.'),
    ensures
        name_key(join(labels)) == Seq::new(labels.len(), |i: int| encode_utf8(lower(labels[labels.len() - 1 - i]))),
{
    lemma_no_trailing_dot(labels);
    assert(name_key(join(labels)) =~= Seq::new(labels.len(), |i: int| encode_utf8(lower(labels[labels.len() - 1 - i]))));
}

/// The key of a name with one label more in front.
proof fn lemma_key_front(a: Seq<char>, labels: Seq<Seq<char>>)
    requires
        labels.len() > 0,
        a.len() > 0 && !a.contains('.'),
        forall|i: int| 0 <= i < labels.len() ==> (#[trigger] labels[i]).len() > 0 && !labels[i].contains('.'),
    ensures
        name_key(join(seq![a] + labels)) == name_key(join(labels)).push(encode_utf8(lower(a))),
{
    let all = seq![a] + labels;
    assert forall|i: int| 0 <= i < all.len() implies (#[trigger] all[i]).len() > 0 && !all[i].contains('.') by {
        if i > 0 {
            assert(all[i] == labels[i - 1]);
        }
    }
    lemma_key(all);
    lemma_key(labels);
    assert(name_key(join(all)) =~= name_key(join(labels)).push(encode_utf8(lower(a))));
}

/// The case of letters and dots at the end of a name do not matter where it is looked up.
pub proof fn law_names_are_normalised(name: Seq<char>, other: Seq<char>)
    requires
        name.len() == other.len(),
        forall|i: int| 0 <= i < name.len() ==> lower_char(#[trigger] name[i]) == lower_char(other[i]),
    ensures
        norm(name) == norm(other),
        norm(name.push('.')) == norm(name),
        norm(name).len() > 0 ==> norm(name).last() != '.',
    decreases name.len(),
{
    assert(name.push('.').drop_last() =~= name);
    if name.len() > 0 {
        let n = name.len() - 1;
        assert(lower_char(name[n]) == lower_char(other[n]));
        assert(name.last() == '.' <==> other.last() == '.');
        if name.last() == '.' {
            let (a, b) = (name.drop_last(), other.drop_last());
            assert forall|i: int| 0 <= i < a.len() implies lower_char(#[trigger] a[i]) == lower_char(b[i]) by {
                assert(lower_char(name[i]) == lower_char(other[i]));
            }
            law_names_are_normalised(a, b);
        } else {
            assert(norm(name) =~= norm(other));
        }
    } else {
        assert(norm(name) =~= norm(other));
    }
}

/// A name lies below another where it ends in a dot and that name, case aside; no name lies below itself.
pub proof fn law_below(front: Seq<char>, parent: Seq<char>, other: Seq<char>)
    requires
        parent.len() > 0,
    ensures
        strictly_below(front.push('.') + parent, parent),
        !strictly_below(parent, parent),
        strictly_below(other, parent) ==> other.len() > parent.len() && other[other.len() - parent.len() - 1] == '.',
{
    let name = front.push('.') + parent;
    let tail = seq!['.'] + lower(parent);
    assert(lower(name).skip(lower(name).len() - tail.len()) =~= tail);
    if strictly_below(other, parent) {
        let end = lower(other).skip(lower(other).len() - tail.len());
        assert(end[0] == tail[0]);
        assert(lower_char(other[other.len() - parent.len() - 1]) == '.');
    }
}

} // verus!
