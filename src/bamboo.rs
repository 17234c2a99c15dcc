//! Calls into the bamboo log format: lipmaa links, entry decoding, entry
//! hashing and the verification of an entry against its links.
use vstd::prelude::*;

verus! {

/// The sequence number that the lipmaa link of entry `n` points to.
pub uninterp spec fn lipmaa_of(n: u64) -> u64;

/// Author key bytes, log id, sequence number, and the encoded hashes that a
/// decodable entry claims for its backlink and its lipmaa link.
pub uninterp spec fn decoded_entry(bytes: Seq<u8>) -> Option<
    (Seq<u8>, u64, u64, Option<Seq<u8>>, Option<Seq<u8>>),
>;

/// Whether an encoded entry, with its payload and the bytes of its lipmaa
/// and back links, passes bamboo's verification.
pub uninterp spec fn chain_verifies(
    entry: Seq<u8>,
    payload: Seq<u8>,
    skiplink: Option<Seq<u8>>,
    backlink: Option<Seq<u8>>,
) -> bool;

/// The encoded yamf (blake2b) hash of some bytes.
pub uninterp spec fn yamf_hash_of(bytes: Seq<u8>) -> Seq<u8>;

/// Lower-case hexadecimal text of some bytes.
pub uninterp spec fn hex_of(bytes: Seq<u8>) -> Seq<char>;

pub open spec fn opt_bytes(o: Option<&Vec<u8>>) -> Option<Seq<u8>> {
    match o {
        Some(v) => Some(v@),
        None => None,
    }
}

/// The decoded header of an entry: who wrote it, in which log, at which
/// position, and the encoded hashes it claims for its links.
pub struct EntryHeader {
    pub author: Vec<u8>,
    pub log_id: u64,
    pub seq_num: u64,
    pub backlink: Option<Vec<u8>>,
    pub skiplink: Option<Vec<u8>>,
}

pub open spec fn opt_seq(o: Option<Vec<u8>>) -> Option<Seq<u8>> {
    match o {
        Some(v) => Some(v@),
        None => None,
    }
}

/// Relies on `bamboo_rs_core::lipmaa` (from the lipmaa-link crate): the
/// result depends on `n` alone and is `n` minus a positive jump, so it lies
/// below `n`; past the first entry the jump never reaches back to zero. It
/// underflows on zero, which is left out.
#[verifier::external_body]
pub(crate) fn lipmaa(n: u64) -> (r: u64)
    requires
        n >= 1,
    ensures
        r == lipmaa_of(n),
        r < n,
        n > 1 ==> 1 <= r,
{
    bamboo_rs_core::lipmaa(n)
}

/// Relies on `bamboo_rs_core::decode`: it reads author, log id, sequence
/// number and link hashes from the bytes alone, and refuses a sequence
/// number of zero. The first entry has no links; a later one always has a
/// backlink, and a lipmaa link exactly when that is not the backlink.
#[verifier::external_body]
pub(crate) fn decode_entry(bytes: &Vec<u8>) -> (r: Option<EntryHeader>)
    ensures
        match decoded_entry(bytes@) {
            None => r is None,
            Some(d) => r matches Some(h) && h.author@ == d.0 && h.log_id == d.1 && h.seq_num == d.2
                && opt_seq(h.backlink) == d.3 && opt_seq(h.skiplink) == d.4,
        },
        r matches Some(h) ==> h.seq_num >= 1,
        r matches Some(h) ==> (h.seq_num == 1 ==> h.backlink is None && h.skiplink is None),
        r matches Some(h) ==> (h.seq_num > 1 ==> h.backlink is Some && (h.skiplink is Some <==> lipmaa_of(
            h.seq_num,
        ) != h.seq_num - 1)),
{
    let encode = |h: &bamboo_rs_core::YamfHash<&[u8]>| {
        let mut v: Vec<u8> = Vec::new();
        h.encode_write(&mut v).unwrap();
        v
    };
    match bamboo_rs_core::decode(bytes.as_slice()) {
        Ok(e) => Some(EntryHeader {
            author: e.author.to_bytes().to_vec(),
            log_id: e.log_id,
            seq_num: e.seq_num,
            backlink: e.backlink.as_ref().map(encode),
            skiplink: e.lipmaa_link.as_ref().map(encode),
        }),
        Err(_) => None,
    }
}

/// Relies on `bamboo_rs_core::verify`: signature, payload hash and size, and
/// the hashes, log ids and authors of the linked entries; the outcome
/// depends on the four byte strings alone. When it accepts a later entry, a
/// backlink or lipmaa entry handed in hashes to what the entry claims.
#[verifier::external_body]
pub(crate) fn verify_entry(
    entry: &Vec<u8>,
    payload: &Vec<u8>,
    skiplink: Option<&Vec<u8>>,
    backlink: Option<&Vec<u8>>,
) -> (r: bool)
    ensures
        r == chain_verifies(entry@, payload@, opt_bytes(skiplink), opt_bytes(backlink)),
        r ==> match decoded_entry(entry@) {
            Some(d) => d.2 > 1 ==> (backlink is Some && d.3 is Some ==> d.3 == Some(
                yamf_hash_of(backlink->Some_0@),
            )) && (skiplink is Some && d.4 is Some ==> d.4 == Some(yamf_hash_of(skiplink->Some_0@))),
            None => false,
        },
{
    bamboo_rs_core::verify(
        entry.as_slice(),
        Some(payload.as_slice()),
        skiplink.map(|v| v.as_slice()),
        backlink.map(|v| v.as_slice()),
    ).is_ok()
}

/// Relies on `bamboo_rs_core::yamf_hash::new_blake2b` and `encode_write`:
/// the encoded hash depends on the bytes alone; writing into a `Vec` does
/// not fail.
#[verifier::external_body]
pub(crate) fn yamf_hash(bytes: &Vec<u8>) -> (r: Vec<u8>)
    ensures
        r@ == yamf_hash_of(bytes@),
{
    let mut out: Vec<u8> = Vec::new();
    bamboo_rs_core::yamf_hash::new_blake2b(bytes.as_slice()).encode_write(&mut out).unwrap();
    out
}

/// Relies on `hex::encode`: two lower-case digits for each byte.
#[verifier::external_body]
pub(crate) fn to_hex(bytes: &Vec<u8>) -> (r: String)
    ensures
        r@ == hex_of(bytes@),
        r@.len() == 2 * bytes@.len(),
{
    hex::encode(bytes)
}

/// The sequence number of the entry that entry `n` links back to, `None`
/// for the first entry of a log.
pub fn backlink_seq_num(n: u64) -> (r: Option<u64>)
    requires
        n >= 1,
    ensures
        r == (if n == 1 { None::<u64> } else { Some((n - 1) as u64) }),
{
    if n == 1 {
        None
    } else {
        Some(n - 1)
    }
}

/// The sequence number of the entry that entry `n` skips back to, `None`
/// for the first entry of a log.
pub fn skiplink_seq_num(n: u64) -> (r: Option<u64>)
    requires
        n >= 1,
    ensures
        r == (if n == 1 { None::<u64> } else { Some(lipmaa_of(n)) }),
        r matches Some(m) ==> 1 <= m < n,
{
    if n == 1 {
        None
    } else {
        Some(lipmaa(n))
    }
}

/// Whether entry `n` must carry a skiplink of its own: not when it would
/// point at the same entry as the backlink.
pub fn is_skiplink_required(n: u64) -> (r: bool)
    requires
        n >= 1,
    ensures
        r == (lipmaa_of(n) != n - 1),
{
    lipmaa(n) != n - 1
}

} // verus!
