//! Wire encoding of an outbound packet: the four header-and-payload fields
//! laid out as fixed-width little-endian integers with a 64-bit length
//! prefix before the payload bytes.

use vstd::prelude::*;
use crate::packet::RawPacket;

verus! {

/// Little-endian bytes of a 16-bit integer.
pub open spec fn le16(x: u16) -> Seq<u8> {
    seq![(x & 0xff) as u8, ((x >> 8) & 0xff) as u8]
}

/// Little-endian bytes of a 32-bit integer.
pub open spec fn le32(x: u32) -> Seq<u8> {
    seq![
        (x & 0xff) as u8,
        ((x >> 8) & 0xff) as u8,
        ((x >> 16) & 0xff) as u8,
        ((x >> 24) & 0xff) as u8,
    ]
}

/// Little-endian bytes of a 64-bit integer.
pub open spec fn le64(x: u64) -> Seq<u8> {
    seq![
        (x & 0xff) as u8,
        ((x >> 8) & 0xff) as u8,
        ((x >> 16) & 0xff) as u8,
        ((x >> 24) & 0xff) as u8,
        ((x >> 32) & 0xff) as u8,
        ((x >> 40) & 0xff) as u8,
        ((x >> 48) & 0xff) as u8,
        ((x >> 56) & 0xff) as u8,
    ]
}

/// The bytes of one wire packet: sequence number, acknowledged sequence
/// number, acknowledgment bitfield, then the payload behind its 64-bit
/// length.
pub open spec fn spec_wire_bytes(seq: u16, ack_seq: u16, ack_field: u32, payload: Seq<u8>) -> Seq<
    u8,
> {
    le16(seq) + le16(ack_seq) + le32(ack_field) + le64(payload.len() as u64) + payload
}

/// Relies on bincode::serialize with its default configuration: fixed-width
/// integers, little-endian byte order, a 64-bit length prefix for a byte
/// vector, and no size limit. The buffer holds exactly the wire bytes of
/// the four fields. Encoding these argument types cannot fail: the size
/// limit is infinite and the encoder writes into an in-memory vector, so a
/// buffer is always produced.
#[verifier::external_body]
fn serialize_fields(seq: u16, ack_seq: u16, ack_field: u32, payload: &Vec<u8>) -> (r: Option<
    Vec<u8>,
>)
    ensures
        r is Some,
        r matches Some(b) ==> b@ == spec_wire_bytes(seq, ack_seq, ack_field, payload@),
{
    match bincode::serialize(&(seq, ack_seq, ack_field, payload)) {
        Ok(b) => Some(b),
        Err(_) => None,
    }
}

/// Encode a raw packet into its wire bytes; the encoder cannot fail on
/// these field types.
pub fn serialize_raw(p: &RawPacket) -> (r: Option<Vec<u8>>)
    ensures
        r is Some,
        r matches Some(b) ==> b@ == spec_wire_bytes(p.seq, p.ack_seq, p.ack_field, p.payload@),
{
    serialize_fields(p.seq, p.ack_seq, p.ack_field, &p.payload)
}

} // verus!
