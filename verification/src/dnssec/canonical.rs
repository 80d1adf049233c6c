//! Record data in canonical form.

use crate::text::{append_bytes, copy_range};
use vstd::prelude::*;

verus! {

/// How the data of a record type is made up: a positive entry is a number of plain bytes, 0 is a
/// domain name, and -1 stands for all that is left.
#[derive(Debug, Clone)]
pub struct RrDescriptor {
    pub fields: Vec<i16>,
}

/// The fields of the data of record type `t`.
pub open spec fn descriptor(t: u16) -> Seq<i16> {
    match t {
        2 | 5 | 12 => seq![0i16],
        6 => seq![0i16, 0i16, -1i16],
        15 => seq![2i16, 0],
        33 => seq![6i16, 0],
        46 => seq![18i16, 0i16, -1i16],
        _ => seq![-1i16],
    }
}

impl RrDescriptor {
    /// The descriptor of a record type; the data of types without names is one run of plain bytes.
    pub fn for_type(rr_type: u16) -> (r: Self)
        ensures
            r.fields@ == descriptor(rr_type),
    {
        let fields: Vec<i16> = match rr_type {
            1 => vec![-1],
            2 | 5 | 12 => vec![0],
            6 => vec![0, 0, -1],
            15 => vec![2, 0],
            28 => vec![-1],
            33 => vec![6, 0],
            46 => vec![18, 0, -1],
            _ => vec![-1],
        };
        assert(fields@ =~= descriptor(rr_type));
        Self { fields }
    }
}

/// The lower-case form of an ASCII letter; any other byte is itself.
pub open spec fn lower_byte(b: u8) -> u8 {
    if 65 <= b <= 90 {
        (b + 32) as u8
    } else {
        b
    }
}

/// `s` with every ASCII letter in lower case.
pub open spec fn lower_bytes(s: Seq<u8>) -> Seq<u8> {
    Seq::new(s.len(), |i: int| lower_byte(s[i]))
}

/// The wire-format name at `rdata[pos..]` in lower case, and where it ends; `None` when it is cut
/// off or compressed.
pub open spec fn canon_name(rdata: Seq<u8>, pos: int) -> Option<(Seq<u8>, int)>
    decreases rdata.len() - pos,
{
    if !(0 <= pos < rdata.len()) {
        None
    } else if rdata[pos] == 0 {
        Some((seq![0u8], pos + 1))
    } else if rdata[pos] >= 0xc0 || pos + 1 + rdata[pos] > rdata.len() {
        None
    } else {
        let end = pos + 1 + rdata[pos];
        match canon_name(rdata, end) {
            Some((rest, last)) => Some((seq![rdata[pos]] + lower_bytes(rdata.subrange(pos + 1, end)) + rest, last)),
            None => None,
        }
    }
}

/// The fields of `rdata` from `pos` on in canonical form; what follows the last field is dropped.
pub open spec fn canon_fields(fields: Seq<i16>, rdata: Seq<u8>, pos: int) -> Option<Seq<u8>>
    decreases fields.len(),
{
    if fields.len() == 0 {
        Some(seq![])
    } else if fields[0] == -1 {
        Some(rdata.skip(pos))
    } else if fields[0] == 0 {
        match canon_name(rdata, pos) {
            Some((name, end)) => match canon_fields(fields.skip(1), rdata, end) {
                Some(rest) => Some(name + rest),
                None => None,
            },
            None => None,
        }
    } else if pos + fields[0] > rdata.len() {
        None
    } else {
        match canon_fields(fields.skip(1), rdata, pos + fields[0]) {
            Some(rest) => Some(rdata.subrange(pos, pos + fields[0]) + rest),
            None => None,
        }
    }
}

/// `rdata` of type `t` in canonical form: the names in it are in lower case.
pub open spec fn canonical(rdata: Seq<u8>, t: u16) -> Option<Seq<u8>> {
    canon_fields(descriptor(t), rdata, 0)
}

/// A canonical name lies inside the data and is as long as the name it stands for.
pub proof fn lemma_canon_name_end(rdata: Seq<u8>, pos: int)
    requires
        0 <= pos,
    ensures
        canon_name(rdata, pos) matches Some((name, end)) ==> pos < end <= rdata.len() && name.len() == end - pos,
    decreases rdata.len() - pos,
{
    if 0 <= pos < rdata.len() && rdata[pos] != 0 && rdata[pos] < 0xc0 && pos + 1 + rdata[pos] <= rdata.len() {
        lemma_canon_name_end(rdata, pos + 1 + rdata[pos]);
    }
}

/// Reads the name at `rdata[pos..]` in lower case, and where it ends.
fn canonical_name(rdata: &[u8], start: usize) -> (r: Option<(Vec<u8>, usize)>)
    requires
        start <= rdata@.len(),
    ensures
        match r {
            Some((name, end)) => canon_name(rdata@, start as int) == Some((name@, end as int)) && start < end
                <= rdata@.len(),
            None => canon_name(rdata@, start as int) is None,
        },
{
    let mut out: Vec<u8> = Vec::new();
    let mut pos: usize = start;
    proof {
        lemma_canon_name_end(rdata@, start as int);
        if let Some((rest, end)) = canon_name(rdata@, start as int) {
            assert(out@ + rest =~= rest);
        }
    }
    loop
        invariant
            start <= pos <= rdata@.len(),
            canon_name(rdata@, start as int) matches Some((name, end)) ==> start < end <= rdata@.len(),
            canon_name(rdata@, start as int) == (match canon_name(rdata@, pos as int) {
                Some((rest, end)) => Some((out@ + rest, end)),
                None => None,
            }),
        decreases rdata@.len() - pos,
    {
        if pos >= rdata.len() {
            return None;
        }
        let n: usize = rdata[pos] as usize;
        if n == 0 {
            out.push(0);
            assert(out@.drop_last() + seq![0u8] =~= out@);
            return Some((out, pos + 1));
        }
        if n >= 0xc0 || n > rdata.len() - pos - 1 {
            return None;
        }
        let ghost before = out@;
        out.push(rdata[pos]);
        let mut i: usize = 0;
        let ghost label = rdata@.subrange(pos + 1, pos + 1 + n);
        while i < n
            invariant
                i <= n,
                pos + 1 + n <= rdata.len(),
                label == rdata@.subrange(pos + 1, pos + 1 + n),
                out@ == before.push(rdata@[pos as int]) + lower_bytes(label).take(i as int),
            decreases n - i,
        {
            let b: u8 = rdata[pos + 1 + i];
            let low: u8 = if 65 <= b && b <= 90 {
                b + 32
            } else {
                b
            };
            out.push(low);
            assert(lower_bytes(label).take(i + 1) =~= lower_bytes(label).take(i as int).push(lower_byte(label[i as int])));
            i += 1;
        }
        proof {
            assert(lower_bytes(label).take(n as int) =~= lower_bytes(label));
            if let Some((rest, end)) = canon_name(rdata@, pos + 1 + n) {
                assert(out@ + rest =~= before + (seq![rdata@[pos as int]] + lower_bytes(label) + rest));
            }
        }
        pos = pos + 1 + n;
    }
}

/// Puts record data into the form in which it is signed: names in lower case, all else unchanged.
/// `None` when the data is malformed.
pub fn canonicalize_rdata(rdata: &[u8], rr_type: u16) -> (r: Option<Vec<u8>>)
    ensures
        match r {
            Some(v) => canonical(rdata@, rr_type) == Some(v@),
            None => canonical(rdata@, rr_type) is None,
        },
{
    let desc: RrDescriptor = RrDescriptor::for_type(rr_type);
    let ghost fields = descriptor(rr_type);
    let mut result: Vec<u8> = Vec::new();
    let mut pos: usize = 0;
    let mut f: usize = 0;
    proof {
        assert(fields.skip(0) =~= fields);
        if let Some(rest) = canonical(rdata@, rr_type) {
            assert(result@ + rest =~= rest);
        }
    }
    while f < desc.fields.len()
        invariant
            desc.fields@ == fields,
            fields == descriptor(rr_type),
            f <= fields.len(),
            pos <= rdata@.len(),
            canonical(rdata@, rr_type) == (match canon_fields(fields.skip(f as int), rdata@, pos as int) {
                Some(rest) => Some(result@ + rest),
                None => None,
            }),
        decreases fields.len() - f,
    {
        let field: i16 = desc.fields[f];
        let ghost before = result@;
        assert(fields.skip(f as int)[0] == field);
        assert(fields.skip(f as int).skip(1) =~= fields.skip(f + 1));
        if field == -1 {
            let rest: Vec<u8> = copy_range(rdata, pos, rdata.len());
            assert(rest@ =~= rdata@.skip(pos as int));
            append_bytes(&mut result, rest.as_slice());
            return Some(result);
        } else if field == 0 {
            match canonical_name(rdata, pos) {
                None => {
                    return None;
                },
                Some((name, end)) => {
                    append_bytes(&mut result, name.as_slice());
                    proof {
                        if let Some(rest) = canon_fields(fields.skip(f + 1), rdata@, end as int) {
                            assert(result@ + rest =~= before + (name@ + rest));
                        }
                    }
                    pos = end;
                },
            }
        } else {
            assert(0 < field <= 18);
            let n: usize = field as usize;
            if n > rdata.len() - pos {
                return None;
            }
            let plain: Vec<u8> = copy_range(rdata, pos, pos + n);
            append_bytes(&mut result, plain.as_slice());
            proof {
                if let Some(rest) = canon_fields(fields.skip(f + 1), rdata@, pos + n) {
                    assert(result@ + rest =~= before + (plain@ + rest));
                }
            }
            pos = pos + n;
        }
        f += 1;
    }
    assert(result@ + Seq::<u8>::empty() =~= result@);
    Some(result)
}

/// A canonical name, wherever it stands in other data, is its own canonical form.
proof fn lemma_canon_name_again(rdata: Seq<u8>, pos: int, before: Seq<u8>, after: Seq<u8>)
    requires
        0 <= pos,
        canon_name(rdata, pos) is Some,
    ensures
        ({
            let (name, end) = canon_name(rdata, pos)->0;
            canon_name(before + name + after, before.len() as int) == Some((name, (before.len() + name.len()) as int))
        }),
    decreases rdata.len() - pos,
{
    let (name, last) = canon_name(rdata, pos)->0;
    let all = before + name + after;
    let at = before.len() as int;
    if rdata[pos] == 0 {
        assert(all[at] == 0);
    } else {
        let n = rdata[pos];
        let end = pos + 1 + n;
        let (rest, l2) = canon_name(rdata, end)->0;
        let low = lower_bytes(rdata.subrange(pos + 1, end));
        let front = before + (seq![n] + low);
        lemma_canon_name_again(rdata, end, front, after);
        assert(name == seq![n] + low + rest);
        assert(all =~= front + rest + after);
        assert(all[at] == n);
        assert(all.subrange(at + 1, at + 1 + n) =~= low);
        assert(lower_bytes(low) =~= low);
        assert(front.len() == at + 1 + n);
    }
}

/// Fields in canonical form, behind other data, are their own canonical form.
proof fn lemma_canon_fields_again(fields: Seq<i16>, rdata: Seq<u8>, pos: int, before: Seq<u8>)
    requires
        0 <= pos <= rdata.len(),
        canon_fields(fields, rdata, pos) is Some,
        forall|i: int| 0 <= i < fields.len() ==> #[trigger] fields[i] >= -1,
    ensures
        canon_fields(fields, before + canon_fields(fields, rdata, pos)->0, before.len() as int) == canon_fields(
            fields,
            rdata,
            pos,
        ),
    decreases fields.len(),
{
    let out = canon_fields(fields, rdata, pos)->0;
    let all = before + out;
    let at = before.len() as int;
    if fields.len() == 0 {
    } else if fields[0] == -1 {
        assert(all.skip(at) =~= out);
    } else if fields[0] == 0 {
        let (name, end) = canon_name(rdata, pos)->0;
        lemma_canon_name_end(rdata, pos);
        let rest = canon_fields(fields.skip(1), rdata, end)->0;
        lemma_canon_fields_again(fields.skip(1), rdata, end, before + name);
        lemma_canon_name_again(rdata, pos, before, rest);
        assert(all =~= before + name + rest);
    } else {
        assert(fields[0] > 0);
        let n = fields[0] as int;
        let rest = canon_fields(fields.skip(1), rdata, pos + n)->0;
        let plain = rdata.subrange(pos, pos + n);
        lemma_canon_fields_again(fields.skip(1), rdata, pos + n, before + plain);
        assert(all =~= before + plain + rest);
        assert(all.subrange(at, at + n) =~= plain);
    }
}

/// Canonical data is its own canonical form.
pub proof fn law_canonical_idempotent(rdata: Seq<u8>, t: u16)
    requires
        canonical(rdata, t) is Some,
    ensures
        canonical(canonical(rdata, t)->0, t) == canonical(rdata, t),
{
    lemma_canon_fields_again(descriptor(t), rdata, 0, Seq::empty());
    assert(Seq::<u8>::empty() + canonical(rdata, t)->0 =~= canonical(rdata, t)->0);
}

} // verus!
