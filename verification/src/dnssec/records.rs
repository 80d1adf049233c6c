//! The data of RRSIG, DNSKEY and DS records.

use crate::crypto::{compute_ds_digest, ds_digest};
use crate::text::{append_bytes, copy_range, same_bytes};
use crate::wire::{be16, be32, dotted_name, name_to_wire, parse_wire_name, read_be16, read_be32, wire_of, DnssecError};
use vstd::prelude::*;

verus! {

/// Classification of a validated reply.
#[derive(Debug, Clone, PartialEq)]
pub enum ValidationResult {
    Secure,
    Insecure,
    /// Bogus, with the reason.
    Bogus(String),
    Indeterminate,
}

/// The data of an RRSIG record (RFC 4034, section 3.1).
#[derive(Debug, Clone)]
pub struct RrsigData {
    pub type_covered: u16,
    pub algorithm: u8,
    pub labels: u8,
    pub orig_ttl: u32,
    pub sig_expiry: u32,
    pub sig_inception: u32,
    pub key_tag: u16,
    pub signer_name: String,
    pub signature: Vec<u8>,
}

/// Parses RRSIG data: a header of 18 bytes, the signer's name in wire format, and the signature.
pub fn parse_rrsig_rdata(rdata: &[u8]) -> (r: Result<RrsigData, DnssecError>)
    ensures
        rdata@.len() < 18 ==> r == Err::<RrsigData, DnssecError>(DnssecError::TooShort),
        rdata@.len() >= 18 ==> match dotted_name(rdata@.skip(18)) {
            Err(e) => r == Err::<RrsigData, DnssecError>(e),
            Ok((signer, n)) => {
                &&& r is Ok
                &&& r->Ok_0.type_covered == be16(rdata@, 0)
                &&& r->Ok_0.algorithm == rdata@[2]
                &&& r->Ok_0.labels == rdata@[3]
                &&& r->Ok_0.orig_ttl == be32(rdata@, 4)
                &&& r->Ok_0.sig_expiry == be32(rdata@, 8)
                &&& r->Ok_0.sig_inception == be32(rdata@, 12)
                &&& r->Ok_0.key_tag == be16(rdata@, 16)
                &&& r->Ok_0.signer_name@ == signer
                &&& r->Ok_0.signature@ == rdata@.skip(18 + n)
            },
        },
{
    if rdata.len() < 18 {
        return Err(DnssecError::TooShort);
    }
    let type_covered: u16 = read_be16(rdata, 0);
    let algorithm: u8 = rdata[2];
    let labels: u8 = rdata[3];
    let orig_ttl: u32 = read_be32(rdata, 4);
    let sig_expiry: u32 = read_be32(rdata, 8);
    let sig_inception: u32 = read_be32(rdata, 12);
    let key_tag: u16 = read_be16(rdata, 16);
    let rest: &[u8] = &rdata[18..rdata.len()];
    assert(rest@ =~= rdata@.skip(18));
    match parse_wire_name(rest) {
        Err(e) => Err(e),
        Ok((signer_name, n)) => {
            let signature: Vec<u8> = copy_range(rdata, 18 + n, rdata.len());
            assert(signature@ =~= rdata@.skip(18 + n as int));
            Ok(
                RrsigData {
                    type_covered,
                    algorithm,
                    labels,
                    orig_ttl,
                    sig_expiry,
                    sig_inception,
                    key_tag,
                    signer_name,
                    signature,
                },
            )
        },
    }
}

/// The data of a DNSKEY record (RFC 4034, section 2.1).
#[derive(Debug, Clone)]
pub struct DnskeyData {
    /// Bit 8 is the zone-key flag; bit 15 is the secure-entry-point flag.
    pub flags: u16,
    /// Always 3.
    pub protocol: u8,
    pub algorithm: u8,
    pub public_key: Vec<u8>,
}

/// Parses DNSKEY data: flags, protocol, algorithm, and the key.
pub fn parse_dnskey_rdata(rdata: &[u8]) -> (r: Result<DnskeyData, DnssecError>)
    ensures
        rdata@.len() < 4 ==> r == Err::<DnskeyData, DnssecError>(DnssecError::TooShort),
        rdata@.len() >= 4 ==> {
            &&& r is Ok
            &&& r->Ok_0.flags == be16(rdata@, 0)
            &&& r->Ok_0.protocol == rdata@[2]
            &&& r->Ok_0.algorithm == rdata@[3]
            &&& r->Ok_0.public_key@ == rdata@.skip(4)
        },
{
    if rdata.len() < 4 {
        return Err(DnssecError::TooShort);
    }
    let public_key: Vec<u8> = copy_range(rdata, 4, rdata.len());
    assert(public_key@ =~= rdata@.skip(4));
    Ok(DnskeyData { flags: read_be16(rdata, 0), protocol: rdata[2], algorithm: rdata[3], public_key })
}

/// The sum of `s` read as big-endian 16-bit words, an odd last byte being the high half of one.
pub open spec fn word_sum(s: Seq<u8>) -> nat
    decreases s.len(),
{
    if s.len() == 0 {
        0
    } else if (s.len() - 1) % 2 == 0 {
        word_sum(s.drop_last()) + s.last() as nat * 256
    } else {
        word_sum(s.drop_last()) + s.last() as nat
    }
}

/// A sum held in 32 bits, with its high half added to its low half, in 16 bits.
pub open spec fn fold16(sum: nat) -> u16 {
    let a = sum % 0x1_0000_0000;
    ((a + a / 0x1_0000) % 0x1_0000) as u16
}

/// Adds the words of `b` to `start`, in 32 bits.
fn add_words(start: u32, b: &[u8]) -> (r: u32)
    ensures
        r == (start + word_sum(b@)) % 0x1_0000_0000,
{
    let mut ac: u32 = start;
    let mut i: usize = 0;
    while i < b.len()
        invariant
            i <= b@.len(),
            ac == (start + word_sum(b@.take(i as int))) % 0x1_0000_0000,
        decreases b@.len() - i,
    {
        assert(b@.take(i + 1).drop_last() =~= b@.take(i as int));
        if i % 2 == 0 {
            ac = ac.wrapping_add(b[i] as u32 * 256);
        } else {
            ac = ac.wrapping_add(b[i] as u32);
        }
        i += 1;
    }
    assert(b@.take(b@.len() as int) =~= b@);
    ac
}

/// Adds the high half of a 32-bit sum to its low half.
fn fold_sum(ac: u32) -> (r: u16)
    ensures
        r == fold16(ac as nat),
{
    ((ac % 0x1_0000 + ac / 0x1_0000) % 0x1_0000) as u16
}

/// Computes the key tag of DNSKEY data (RFC 4034, appendix B).
pub fn compute_key_tag(rdata: &[u8]) -> (r: u16)
    ensures
        r == fold16(word_sum(rdata@)),
{
    fold_sum(add_words(0, rdata))
}

/// The key tag of a DNSKEY with these fields. Algorithm 1 takes it from the end of the key.
pub open spec fn keytag_of(alg: u8, flags: u16, key: Seq<u8>) -> u16 {
    if alg == 1 {
        if key.len() >= 4 {
            be16(key, key.len() - 4)
        } else {
            0
        }
    } else {
        fold16((flags + 0x300 + alg + word_sum(key)) as nat)
    }
}

/// Computes the key tag of a DNSKEY from its fields.
pub fn dnskey_keytag(alg: u8, flags: u16, key: &[u8]) -> (r: u16)
    ensures
        r == keytag_of(alg, flags, key@),
{
    if alg == 1 {
        if key.len() >= 4 {
            read_be16(key, key.len() - 4)
        } else {
            0
        }
    } else {
        fold_sum(add_words(flags as u32 + 0x300 + alg as u32, key))
    }
}

/// The words of a byte string whose first part has even length.
pub proof fn lemma_word_sum_concat(a: Seq<u8>, b: Seq<u8>)
    requires
        a.len() % 2 == 0,
    ensures
        word_sum(a + b) == word_sum(a) + word_sum(b),
    decreases b.len(),
{
    if b.len() == 0 {
        assert(a + b =~= a);
    } else {
        assert((a + b).drop_last() =~= a + b.drop_last());
        lemma_word_sum_concat(a, b.drop_last());
    }
}

/// Both ways to compute a key tag agree on DNSKEY data of protocol 3, but for algorithm 1.
pub proof fn law_key_tags_agree(rdata: Seq<u8>)
    requires
        rdata.len() >= 4,
        rdata[2] == 3,
        rdata[3] != 1,
    ensures
        fold16(word_sum(rdata)) == keytag_of(rdata[3], be16(rdata, 0), rdata.skip(4)),
{
    let head = rdata.take(4);
    lemma_word_sum_concat(head, rdata.skip(4));
    assert(rdata =~= head + rdata.skip(4));
    reveal_with_fuel(word_sum, 5);
    assert(word_sum(head) == be16(rdata, 0) + 0x300 + rdata[3]) by {
        assert(head.drop_last().drop_last().drop_last().drop_last().len() == 0);
    }
}

/// The data of a DS record (RFC 4034, section 5.1).
#[derive(Debug)]
pub struct DsData {
    pub key_tag: u16,
    pub algorithm: u8,
    pub digest_type: u8,
    pub digest: Vec<u8>,
}

/// The model of a `DsData`.
pub struct DsView {
    pub key_tag: u16,
    pub algorithm: u8,
    pub digest_type: u8,
    pub digest: Seq<u8>,
}

impl View for DsData {
    type V = DsView;

    open spec fn view(&self) -> DsView {
        DsView {
            key_tag: self.key_tag,
            algorithm: self.algorithm,
            digest_type: self.digest_type,
            digest: self.digest@,
        }
    }
}

impl Clone for DsData {
    fn clone(&self) -> (r: Self)
        ensures
            r@ == self@,
    {
        let digest: Vec<u8> = copy_range(self.digest.as_slice(), 0, self.digest.len());
        assert(digest@ =~= self.digest@);
        DsData { key_tag: self.key_tag, algorithm: self.algorithm, digest_type: self.digest_type, digest }
    }
}

/// The DS record that `rdata` holds; it needs four bytes.
pub open spec fn ds_of(rdata: Seq<u8>) -> DsView {
    DsView { key_tag: be16(rdata, 0), algorithm: rdata[2], digest_type: rdata[3], digest: rdata.skip(4) }
}

/// Parses DS data: key tag, algorithm, digest type, and the digest.
pub fn parse_ds_rdata(rdata: &[u8]) -> (r: Result<DsData, DnssecError>)
    ensures
        rdata@.len() < 4 ==> r == Err::<DsData, DnssecError>(DnssecError::TooShort),
        rdata@.len() >= 4 ==> r is Ok && r->Ok_0@ == ds_of(rdata@),
{
    if rdata.len() < 4 {
        return Err(DnssecError::TooShort);
    }
    let digest: Vec<u8> = copy_range(rdata, 4, rdata.len());
    assert(digest@ =~= rdata@.skip(4));
    Ok(DsData { key_tag: read_be16(rdata, 0), algorithm: rdata[2], digest_type: rdata[3], digest })
}

/// Whether the digest of the owner's name and the DNSKEY data is the one that the DS record holds.
pub open spec fn ds_matches(ds: DsView, dnskey_rdata: Seq<u8>, owner: Seq<char>) -> bool {
    match wire_of(owner) {
        Some(w) => ds_digest(ds.digest_type, w + dnskey_rdata) == Some(ds.digest),
        None => false,
    }
}

/// Checks a DS record against a DNSKEY: SHA-1, SHA-256 and SHA-384 digests are compared, any other
/// digest type does not match.
pub fn ds_matches_dnskey(ds: &DsData, dnskey_rdata: &[u8], owner_name: &str) -> (r: bool)
    ensures
        r == ds_matches(ds@, dnskey_rdata@, owner_name@),
{
    match name_to_wire(owner_name) {
        None => false,
        Some(wire) => {
            let mut input: Vec<u8> = wire;
            append_bytes(&mut input, dnskey_rdata);
            match compute_ds_digest(ds.digest_type, input.as_slice()) {
                None => false,
                Some(d) => same_bytes(d.as_slice(), ds.digest.as_slice()),
            }
        },
    }
}

} // verus!
