//! Big-endian integers and domain names in wire format.

use crate::names::{
    join, join_labels, lemma_join_split, split, split_labels, trim_dots, trim_end_dots,
};
use crate::text::{append_bytes, same, utf8_to_string, views};
use vstd::prelude::*;
use vstd::utf8::{decode_utf8, encode_utf8, valid_utf8};

verus! {

/// The big-endian 16-bit integer at `s[i..i + 2]`.
pub open spec fn be16(s: Seq<u8>, i: int) -> u16 {
    (s[i] * 256 + s[i + 1]) as u16
}

/// The big-endian 32-bit integer at `s[i..i + 4]`.
pub open spec fn be32(s: Seq<u8>, i: int) -> u32 {
    (s[i] * 0x100_0000 + s[i + 1] * 0x1_0000 + s[i + 2] * 0x100 + s[i + 3]) as u32
}

/// The two bytes of `x`, most significant first.
pub open spec fn be16_bytes(x: u16) -> Seq<u8> {
    seq![(x / 256) as u8, (x % 256) as u8]
}

/// The four bytes of `x`, most significant first.
pub open spec fn be32_bytes(x: u32) -> Seq<u8> {
    seq![(x / 0x100_0000) as u8, (x / 0x1_0000 % 256) as u8, (x / 0x100 % 256) as u8, (x % 256) as u8]
}

/// Reading back a 32-bit integer gives the one that was written.
pub proof fn lemma_be32_round_trip(x: u32)
    ensures
        be32(be32_bytes(x), 0) == x,
{
}

/// Reads the big-endian 16-bit integer at `b[i..i + 2]`.
pub fn read_be16(b: &[u8], i: usize) -> (r: u16)
    requires
        i + 2 <= b@.len(),
    ensures
        r == be16(b@, i as int),
{
    b[i] as u16 * 256 + b[i + 1] as u16
}

/// Reads the big-endian 32-bit integer at `b[i..i + 4]`.
pub fn read_be32(b: &[u8], i: usize) -> (r: u32)
    requires
        i + 4 <= b@.len(),
    ensures
        r == be32(b@, i as int),
{
    b[i] as u32 * 0x100_0000 + b[i + 1] as u32 * 0x1_0000 + b[i + 2] as u32 * 0x100 + b[i + 3] as u32
}

/// Appends the two bytes of `x`, most significant first.
pub fn push_be16(v: &mut Vec<u8>, x: u16)
    ensures
        final(v)@ == old(v)@ + be16_bytes(x),
{
    v.push((x / 256) as u8);
    v.push((x % 256) as u8);
    assert(v@ =~= old(v)@ + be16_bytes(x));
}

/// Appends the four bytes of `x`, most significant first.
pub fn push_be32(v: &mut Vec<u8>, x: u32)
    ensures
        final(v)@ == old(v)@ + be32_bytes(x),
{
    v.push((x / 0x100_0000) as u8);
    v.push((x / 0x1_0000 % 256) as u8);
    v.push((x / 0x100 % 256) as u8);
    v.push((x % 256) as u8);
    assert(v@ =~= old(v)@ + be32_bytes(x));
}

/// Why a record could not be parsed.
#[derive(Debug, Clone, Copy, PartialEq, Eq, Structural)]
pub enum DnssecError {
    /// The data ends before the record does.
    TooShort,
    /// A name holds a label that is too long or is not text.
    InvalidName,
    /// The algorithm is not one that can be used.
    UnsupportedAlgorithm(u8),
}

impl DnssecError {
    /// The message for this error.
    pub fn message(&self) -> (r: String)
        ensures
            r@ == (match *self {
                DnssecError::TooShort => "rdata too short"@,
                DnssecError::InvalidName => "invalid signer name"@,
                DnssecError::UnsupportedAlgorithm(a) => "unsupported algorithm: "@ + crate::text::decimal(a as nat),
            }),
    {
        match *self {
            DnssecError::TooShort => String::from_str("rdata too short"),
            DnssecError::InvalidName => String::from_str("invalid signer name"),
            DnssecError::UnsupportedAlgorithm(a) => {
                let mut s = String::from_str("unsupported algorithm: ");
                let d: String = crate::text::to_decimal(a as u64);
                s.append(d.as_str());
                s
            },
        }
    }
}

/// The labels of the wire-format name at `buf[pos..]`, and where it ends.
pub open spec fn parse_name(buf: Seq<u8>, pos: int) -> Result<(Seq<Seq<char>>, int), DnssecError>
    decreases buf.len() - pos,
{
    if !(0 <= pos < buf.len()) {
        Err(DnssecError::TooShort)
    } else if buf[pos] == 0 {
        Ok((seq![], pos + 1))
    } else if buf[pos] > 63 {
        Err(DnssecError::InvalidName)
    } else if pos + 1 + buf[pos] > buf.len() {
        Err(DnssecError::TooShort)
    } else {
        let label = buf.subrange(pos + 1, pos + 1 + buf[pos]);
        if !valid_utf8(label) {
            Err(DnssecError::InvalidName)
        } else {
            prepend(seq![decode_utf8(label)], parse_name(buf, pos + 1 + buf[pos]))
        }
    }
}

/// A parse result with more labels in front.
pub open spec fn prepend(
    labels: Seq<Seq<char>>,
    r: Result<(Seq<Seq<char>>, int), DnssecError>,
) -> Result<(Seq<Seq<char>>, int), DnssecError> {
    match r {
        Ok((more, end)) => Ok((labels + more, end)),
        Err(e) => Err(e),
    }
}

/// The dotted name at the start of `buf`, and the number of bytes that it takes.
pub open spec fn dotted_name(buf: Seq<u8>) -> Result<(Seq<char>, int), DnssecError> {
    match parse_name(buf, 0) {
        Ok((labels, end)) => Ok((join(labels), end)),
        Err(e) => Err(e),
    }
}

/// Labels in wire format, each behind its length.
pub open spec fn wire_labels(parts: Seq<Seq<char>>) -> Seq<u8>
    decreases parts.len(),
{
    if parts.len() == 0 {
        seq![]
    } else {
        let b = encode_utf8(parts[0]);
        seq![b.len() as u8] + b + wire_labels(parts.skip(1))
    }
}

/// The labels of a name in front of the root label: none for the root itself.
pub open spec fn name_labels(name: Seq<char>) -> Seq<Seq<char>> {
    if trim_dots(name).len() == 0 {
        seq![]
    } else {
        split(trim_dots(name))
    }
}

/// Whether every label of `name` fits the length byte of the wire format.
pub open spec fn wire_ok(name: Seq<char>) -> bool {
    forall|i: int| 0 <= i < name_labels(name).len() ==> encode_utf8(#[trigger] name_labels(name)[i]).len() <= 63
}

/// `name` in wire format: its labels and the root label.
pub open spec fn name_wire(name: Seq<char>) -> Seq<u8> {
    wire_labels(name_labels(name)).push(0)
}

/// The wire form of `name`, unless a label is too long.
pub open spec fn wire_of(name: Seq<char>) -> Option<Seq<u8>> {
    if wire_ok(name) {
        Some(name_wire(name))
    } else {
        None
    }
}

/// A parsed name lies inside the buffer.
pub proof fn lemma_parse_name_end(buf: Seq<u8>, pos: int)
    requires
        0 <= pos,
    ensures
        parse_name(buf, pos) matches Ok((labels, end)) ==> pos < end <= buf.len(),
    decreases buf.len() - pos,
{
    if 0 <= pos < buf.len() && 0 < buf[pos] <= 63 && pos + 1 + buf[pos] <= buf.len() {
        lemma_parse_name_end(buf, pos + 1 + buf[pos]);
    }
}

/// Parses the wire-format name at the start of `buf`: the dotted name and the bytes consumed.
pub fn parse_wire_name(buf: &[u8]) -> (r: Result<(String, usize), DnssecError>)
    ensures
        match r {
            Ok((s, n)) => dotted_name(buf@) == Ok::<(Seq<char>, int), DnssecError>((s@, n as int)) && 0 < n <= buf@.len(),
            Err(e) => dotted_name(buf@) == Err::<(Seq<char>, int), DnssecError>(e),
        },
{
    let mut labels: Vec<String> = Vec::new();
    let mut pos: usize = 0;
    proof {
        lemma_parse_name_end(buf@, 0);
        assert(views(labels@) =~= Seq::<Seq<char>>::empty());
        if let Ok((more, end)) = parse_name(buf@, 0) {
            assert(views(labels@) + more =~= more);
        }
    }
    loop
        invariant
            0 <= pos <= buf@.len(),
            parse_name(buf@, 0) == prepend(views(labels@), parse_name(buf@, pos as int)),
            parse_name(buf@, 0) matches Ok((l, end)) ==> 0 < end <= buf@.len(),
        decreases buf@.len() - pos,
    {
        if pos >= buf.len() {
            return Err(DnssecError::TooShort);
        }
        let len: usize = buf[pos] as usize;
        if len == 0 {
            let s: String = join_labels(&labels, 0);
            proof {
                assert(views(labels@).skip(0) =~= views(labels@));
                assert(views(labels@) + Seq::<Seq<char>>::empty() =~= views(labels@));
            }
            return Ok((s, pos + 1));
        }
        if len > 63 {
            return Err(DnssecError::InvalidName);
        }
        if len > buf.len() - pos - 1 {
            return Err(DnssecError::TooShort);
        }
        let label: Option<String> = utf8_to_string(&buf[pos + 1..pos + 1 + len]);
        match label {
            None => {
                return Err(DnssecError::InvalidName);
            },
            Some(label) => {
                proof {
                    assert(views(labels@.push(label)) =~= views(labels@).push(label@));
                    if let Ok((more, end)) = parse_name(buf@, pos + 1 + len) {
                        assert(views(labels@).push(label@) + more =~= views(labels@) + (seq![label@] + more));
                    }
                }
                labels.push(label);
                pos = pos + 1 + len;
            },
        }
    }
}

/// Converts a dotted name to wire format, without compression; `None` when a label is longer than
/// 63 bytes.
pub fn name_to_wire(name: &str) -> (r: Option<Vec<u8>>)
    ensures
        match r {
            Some(w) => wire_of(name@) == Some(w@),
            None => wire_of(name@) is None,
        },
{
    let trimmed: String = trim_end_dots(name);
    let parts: Vec<String> = if same(trimmed.as_str(), "") {
        Vec::new()
    } else {
        split_labels(trimmed.as_str())
    };
    let mut out: Vec<u8> = Vec::new();
    let mut i: usize = 0;
    let ghost all = views(parts@);
    proof {
        reveal_strlit("");
        if trimmed@.len() == 0 {
            assert(trimmed@ =~= ""@);
        }
        assert(all =~= name_labels(name@));
    }
    assert(all.skip(0) =~= all);
    assert(out@ + wire_labels(all.skip(0)) =~= wire_labels(all));
    while i < parts.len()
        invariant
            i <= parts@.len(),
            all == views(parts@),
            all == name_labels(name@),
            out@ + wire_labels(all.skip(i as int)) == wire_labels(all),
            forall|j: int| 0 <= j < i ==> encode_utf8(#[trigger] all[j]).len() <= 63,
        decreases parts@.len() - i,
    {
        let bytes: &[u8] = parts[i].as_str().as_bytes();
        assert(all[i as int] == parts@[i as int]@);
        if bytes.len() > 63 {
            return None;
        }
        let ghost before = out@;
        out.push(bytes.len() as u8);
        append_bytes(&mut out, bytes);
        proof {
            let rest = all.skip(i as int);
            assert(rest[0] == all[i as int]);
            assert(rest.skip(1) =~= all.skip(i + 1));
            assert(out@ + wire_labels(all.skip(i + 1)) =~= before + (seq![bytes@.len() as u8] + bytes@ + wire_labels(
                all.skip(i + 1),
            )));
        }
        i += 1;
    }
    proof {
        assert(wire_labels(all.skip(all.len() as int)) =~= Seq::<u8>::empty());
        assert(out@ =~= wire_labels(all));
    }
    out.push(0);
    Some(out)
}

/// Labels that are neither empty nor too long are read back from their wire format.
pub proof fn lemma_parse_wire_labels(parts: Seq<Seq<char>>, before: Seq<u8>, after: Seq<u8>)
    requires
        forall|i: int| 0 <= i < parts.len() ==> 1 <= encode_utf8(#[trigger] parts[i]).len() <= 63,
    ensures
        parse_name(before + wire_labels(parts).push(0) + after, before.len() as int) == Ok::<
            (Seq<Seq<char>>, int),
            DnssecError,
        >((parts, (before.len() + wire_labels(parts).len() + 1) as int)),
    decreases parts.len(),
{
    let buf = before + wire_labels(parts).push(0) + after;
    let pos = before.len() as int;
    if parts.len() == 0 {
        assert(buf[pos] == 0);
        assert(parts =~= Seq::<Seq<char>>::empty());
    } else {
        let b = encode_utf8(parts[0]);
        let rest = parts.skip(1);
        assert(1 <= encode_utf8(parts[0]).len() <= 63);
        assert forall|i: int| 0 <= i < rest.len() implies 1 <= encode_utf8(#[trigger] rest[i]).len() <= 63 by {
            assert(rest[i] == parts[i + 1]);
        }
        let front = before + (seq![b.len() as u8] + b);
        lemma_parse_wire_labels(rest, front, after);
        assert(buf =~= front + wire_labels(rest).push(0) + after);
        assert(buf[pos] == b.len());
        assert(buf.subrange(pos + 1, pos + 1 + b.len()) =~= b);
        vstd::utf8::encode_utf8_valid_utf8(parts[0]);
        vstd::utf8::encode_utf8_decode_utf8(parts[0]);
        assert(seq![parts[0]] + rest =~= parts);
    }
}

/// A name whose labels are neither empty nor too long, the root among them, is read back from its wire format, without
/// its trailing dots, whatever follows it.
pub proof fn law_wire_name_round_trip(name: Seq<char>, after: Seq<u8>)
    requires
        forall|i: int| 0 <= i < name_labels(name).len() ==> 1 <= encode_utf8(#[trigger] name_labels(name)[i]).len() <= 63,
    ensures
        wire_of(name) == Some(name_wire(name)),
        dotted_name(name_wire(name) + after) == Ok::<(Seq<char>, int), DnssecError>(
            (trim_dots(name), name_wire(name).len() as int),
        ),
{
    let parts = name_labels(name);
    lemma_parse_wire_labels(parts, Seq::empty(), after);
    assert(Seq::<u8>::empty() + wire_labels(parts).push(0) + after =~= name_wire(name) + after);
    if trim_dots(name).len() > 0 {
        lemma_join_split(trim_dots(name));
    } else {
        assert(join(parts) =~= trim_dots(name));
    }
}

} // verus!
