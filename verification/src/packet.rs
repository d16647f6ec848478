//! Message value types: the application-level packet and the wire packet.

use vstd::prelude::*;
use crate::addr::SocketAddr;

verus! {

/// An application-level message: an endpoint and opaque payload bytes.
/// A value type, freely copyable across the outbound/dropped boundary.
pub struct Packet {
    pub addr: SocketAddr,
    pub payload: Vec<u8>,
}

/// An identical copy of a byte vector.
fn copy_bytes(v: &Vec<u8>) -> (r: Vec<u8>)
    ensures
        r@ == v@,
{
    let r = v.clone();
    proof {
        assert(r@ =~= v@);
    }
    r
}

impl Packet {
    /// Build a packet from its endpoint and payload.
    pub fn new(addr: SocketAddr, payload: Vec<u8>) -> (r: Packet)
        ensures
            r.addr == addr,
            r.payload == payload,
    {
        Packet { addr, payload }
    }
}

impl Clone for Packet {
    /// An identical copy.
    fn clone(&self) -> (r: Self)
        ensures
            r.addr == self.addr,
            r.payload@ == self.payload@,
    {
        Packet { addr: self.addr, payload: copy_bytes(&self.payload) }
    }
}

/// One wire packet: sequence number of this message, acknowledgment
/// snapshot for the peer (`ack_seq` and `ack_field`), and the payload.
pub struct RawPacket {
    pub seq: u16,
    pub ack_seq: u16,
    pub ack_field: u32,
    pub payload: Vec<u8>,
}

impl RawPacket {
    /// Build a wire packet carrying `packet`'s payload, stamped with the
    /// sender's sequence number and its acknowledgment snapshot of the peer.
    pub fn new(seq: u16, packet: &Packet, ack_seq: u16, ack_field: u32) -> (r: RawPacket)
        ensures
            r.seq == seq,
            r.ack_seq == ack_seq,
            r.ack_field == ack_field,
            r.payload@ == packet.payload@,
    {
        RawPacket { seq, ack_seq, ack_field, payload: copy_bytes(&packet.payload) }
    }

    /// An identical copy of the carried payload bytes.
    pub fn duplicate_payload(&self) -> (r: Vec<u8>)
        ensures
            r@ == self.payload@,
    {
        copy_bytes(&self.payload)
    }
}

} // verus!
