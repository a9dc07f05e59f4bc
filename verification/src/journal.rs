//! Record framing for the journal.
//!
//! A frame is the payload's length, its CRC-32, and the payload. A tail torn by a crash fails
//! the length or the checksum test, so that appends are effectively atomic.

use vstd::prelude::*;

use crate::storage::bytes::{
    be_bytes, be_value, lemma_be_len, lemma_be_roundtrip, lemma_be_value_bound, lemma_pow256_values,
    push_all, push_be, read_be,
};

verus! {

/// Why a journal could not be used.
#[derive(Debug)]
pub enum JournalError {
    /// The file could not be read or written; the system's own words.
    Io(String),
    /// The file is no journal of a known kind.
    BadHeader,
    /// A record's payload could not be decoded.
    Decode(String),
}

/// Bytes before the payload: its length and its checksum.
pub const FRAME_HEADER_LEN: usize = 8;

/// The CRC-32 of a byte string: what `crc32fast::hash` returns.
pub uninterp spec fn crc32(b: Seq<u8>) -> u32;

/// `crc32fast::hash`, named [`crc32`].
#[verifier::external_body]
fn crc32_of(b: &[u8]) -> (r: u32)
    ensures
        r == crc32(b@),
{
    crc32fast::hash(b)
}

/// A payload's frame. The length is its low 32 bits.
pub open spec fn frame(payload: Seq<u8>) -> Seq<u8> {
    be_bytes(payload.len(), 4) + be_bytes(crc32(payload) as nat, 4) + payload
}

/// The frame at the start of `rest`: its payload, where header and payload are whole and the
/// checksum is the payload's.
pub open spec fn frame_payload(rest: Seq<u8>) -> Option<Seq<u8>> {
    if rest.len() < FRAME_HEADER_LEN {
        None
    } else {
        let len = be_value(rest.subrange(0, 4));
        if rest.len() < FRAME_HEADER_LEN + len {
            None
        } else {
            let payload = rest.subrange(8, 8 + len as int);
            if crc32(payload) == be_value(rest.subrange(4, 8)) {
                Some(payload)
            } else {
                None
            }
        }
    }
}

/// Append a framed payload.
pub fn write_frame(out: &mut Vec<u8>, payload: &[u8])
    ensures
        final(out)@ == old(out)@ + frame(payload@),
{
    push_be(out, payload.len() as u128, 4);
    push_be(out, crc32_of(payload) as u128, 4);
    push_all(out, payload);
    assert(out@ =~= old(out)@ + frame(payload@));
}

/// Read the frame at `buf[pos..]`: its payload and the position just past it. `None` at the
/// end and at a torn or corrupt tail alike.
pub fn read_frame(buf: &[u8], pos: usize) -> (r: Option<(&[u8], usize)>)
    ensures
        r is Some <==> pos <= buf@.len() && frame_payload(buf@.skip(pos as int)) is Some,
        r is Some ==> (r->0).0@ == frame_payload(buf@.skip(pos as int))->0 && (r->0).1 == pos
            + FRAME_HEADER_LEN + (r->0).0@.len(),
{
    if pos > buf.len() {
        return None;
    }
    let rest = vstd::slice::slice_subrange(buf, pos, buf.len());
    assert(rest@ =~= buf@.skip(pos as int));
    if rest.len() < FRAME_HEADER_LEN {
        return None;
    }
    proof {
        lemma_pow256_values();
        lemma_be_value_bound(rest@.subrange(0, 4));
        lemma_be_value_bound(rest@.subrange(4, 8));
    }
    let len: u64 = read_be(vstd::slice::slice_subrange(rest, 0, 4)) as u64;
    let crc: u32 = read_be(vstd::slice::slice_subrange(rest, 4, 8)) as u32;
    if len > (rest.len() - FRAME_HEADER_LEN) as u64 {
        return None;
    }
    let n: usize = len as usize;
    let payload = vstd::slice::slice_subrange(rest, FRAME_HEADER_LEN, FRAME_HEADER_LEN + n);
    if crc32_of(payload) != crc {
        return None;
    }
    Some((payload, pos + FRAME_HEADER_LEN + n))
}

/// Reading where a frame was written gives its payload back and stops just past it, whatever
/// stands before and after it.
pub proof fn law_frame_roundtrip(before: Seq<u8>, payload: Seq<u8>, after: Seq<u8>)
    requires
        payload.len() < 0x1_0000_0000,
    ensures
        frame_payload((before + frame(payload) + after).skip(before.len() as int)) == Some(payload),
        frame(payload).len() == FRAME_HEADER_LEN + payload.len(),
{
    lemma_pow256_values();
    lemma_be_len(payload.len(), 4);
    lemma_be_len(crc32(payload) as nat, 4);
    lemma_be_roundtrip(payload.len(), 4);
    lemma_be_roundtrip(crc32(payload) as nat, 4);
    let rest = (before + frame(payload) + after).skip(before.len() as int);
    assert(rest =~= frame(payload) + after);
    assert(rest.subrange(0, 4) =~= be_bytes(payload.len(), 4));
    assert(rest.subrange(4, 8) =~= be_bytes(crc32(payload) as nat, 4));
    assert(rest.subrange(8, 8 + payload.len() as int) =~= payload);
}

/// A frame cut short anywhere reads as the end of the records.
pub proof fn law_torn_frame_is_discarded(payload: Seq<u8>, kept: nat)
    requires
        payload.len() < 0x1_0000_0000,
        kept < frame(payload).len(),
    ensures
        frame_payload(frame(payload).take(kept as int)) is None,
{
    lemma_pow256_values();
    lemma_be_len(payload.len(), 4);
    lemma_be_len(crc32(payload) as nat, 4);
    lemma_be_roundtrip(payload.len(), 4);
    let torn = frame(payload).take(kept as int);
    if kept >= FRAME_HEADER_LEN {
        assert(torn.subrange(0, 4) =~= be_bytes(payload.len(), 4));
    }
}

/// A frame whose payload was garbled to something with another checksum is discarded.
pub proof fn law_corrupt_frame_is_discarded(payload: Seq<u8>, garbled: Seq<u8>)
    requires
        payload.len() < 0x1_0000_0000,
        garbled.len() == payload.len(),
        crc32(garbled) != crc32(payload),
    ensures
        frame_payload(frame(payload).take(8) + garbled) is None,
{
    lemma_pow256_values();
    lemma_be_len(payload.len(), 4);
    lemma_be_len(crc32(payload) as nat, 4);
    lemma_be_roundtrip(payload.len(), 4);
    lemma_be_roundtrip(crc32(payload) as nat, 4);
    let rest = frame(payload).take(8) + garbled;
    assert(rest.subrange(0, 4) =~= be_bytes(payload.len(), 4));
    assert(rest.subrange(4, 8) =~= be_bytes(crc32(payload) as nat, 4));
    assert(rest.subrange(8, 8 + payload.len() as int) =~= garbled);
}

} // verus!
