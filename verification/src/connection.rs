//! Per-remote-endpoint session state: the outgoing sequence counter, the
//! record of what has been heard from the peer, the window of outgoing
//! messages pending acknowledgment, the accumulated dropped messages, and
//! the time the endpoint was last heard from.

use vstd::prelude::*;
use crate::addr::SocketAddr;
use crate::ack_record::AckRecord;
use crate::error::NetworkError;
use crate::packet::{Packet, RawPacket};
use crate::sent_window::{
    SentWindow,
    WindowEntry,
    spec_enqueue,
    pending_of,
    dropped_of,
    dropped_entries_of,
    ascending,
    lemma_enqueue_in_order,
    lemma_pending_preserves_ascending,
    lemma_dropped_sorted,
};
use crate::sequence::{seq_delta, wrap_inc};
use crate::clock::clock_now_ms;
use crate::wire::spec_wire_bytes;

verus! {

/// The session state kept for one remote endpoint.
pub struct Connection {
    /// The remote endpoint this state belongs to.
    pub addr: SocketAddr,
    /// Sequence number the next outgoing message will carry.
    pub seq_num: u16,
    /// What has been observed arriving from the peer.
    pub their_acks: AckRecord,
    /// Outgoing messages not yet acknowledged or declared dropped.
    pub waiting_packets: SentWindow,
    /// Messages declared dropped, awaiting a drain by the caller.
    pub dropped_packets: Vec<Packet>,
    /// Clock reading (milliseconds) when the endpoint last showed life.
    pub last_heard: u64,
}

/// How processing one inbound wire packet changes a connection, apart from
/// its `last_heard` stamp: the arrival is recorded, the window is resolved
/// against the peer's acknowledgment snapshot, and the newly dropped
/// messages are appended to the accumulated ones.
pub open spec fn inbound_update(c0: Connection, raw: RawPacket, c1: Connection) -> bool {
    &&& c1.addr == c0.addr
    &&& c1.seq_num == c0.seq_num
    &&& AckRecord::observe_rel(c0.their_acks, raw.seq, c1.their_acks)
    &&& c1.waiting_packets@ == pending_of(c0.waiting_packets@, raw.ack_seq, raw.ack_field)
    &&& c1.dropped_packets@ == c0.dropped_packets@ + dropped_of(c0.waiting_packets@, raw.ack_seq)
}

/// An endpoint is stale at clock reading `now` (milliseconds) if at least
/// `timeout` seconds have passed since it was last heard from.
pub open spec fn is_stale(c: Connection, now: u64, timeout: u64) -> bool {
    now >= c.last_heard && now - c.last_heard >= timeout * 1000
}

/// How recording one outbound message changes a connection: the message is
/// enqueued pending under the current sequence number, which then advances
/// by one, wrapping.
pub open spec fn outbound_update(c0: Connection, packet: Packet, c1: Connection) -> bool {
    &&& c1.addr == c0.addr
    &&& c1.seq_num == wrap_inc(c0.seq_num)
    &&& c1.their_acks == c0.their_acks
    &&& c1.waiting_packets@ == spec_enqueue(c0.waiting_packets@, c0.seq_num, packet)
    &&& c1.dropped_packets@ == c0.dropped_packets@
    &&& c1.last_heard == c0.last_heard
}

/// Order maintenance, outbound: while every pending entry lies strictly
/// within half the sequence space behind the counter — true as long as
/// fewer than 2^15 messages are outstanding — stamping one more message
/// keeps the window ascending by sequence and every entry behind the
/// advanced counter.
pub proof fn lemma_outbound_keeps_order(c0: Connection, packet: Packet, c1: Connection)
    requires
        outbound_update(c0, packet, c1),
        ascending(c0.waiting_packets@),
        forall|i: int|
            0 <= i < c0.waiting_packets@.len() ==> 0 < #[trigger] seq_delta(
                c0.seq_num,
                c0.waiting_packets@[i].seq,
            ) && seq_delta(c0.seq_num, c0.waiting_packets@[i].seq) < 0x8000,
    ensures
        ascending(c1.waiting_packets@),
        forall|i: int|
            0 <= i < c1.waiting_packets@.len() ==> 0 < #[trigger] seq_delta(
                c1.seq_num,
                c1.waiting_packets@[i].seq,
            ) && seq_delta(c1.seq_num, c1.waiting_packets@[i].seq) <= 0x8000,
{
    lemma_enqueue_in_order(c0.waiting_packets@, c0.seq_num, packet);
}

/// Order maintenance, inbound: processing a packet keeps an ascending
/// window ascending, and the dropped entries it harvests into the
/// connection come back ascending by sequence, oldest first.
pub proof fn lemma_inbound_keeps_order(c0: Connection, raw: RawPacket, c1: Connection)
    requires
        inbound_update(c0, raw, c1),
        ascending(c0.waiting_packets@),
    ensures
        ascending(c1.waiting_packets@),
        ascending(dropped_entries_of(c0.waiting_packets@, raw.ack_seq)),
{
    lemma_pending_preserves_ascending(c0.waiting_packets@, raw.ack_seq, raw.ack_field);
    lemma_dropped_sorted(c0.waiting_packets@, raw.ack_seq);
}

impl Connection {
    /// A fresh connection for `addr`, created at clock reading `now`:
    /// nothing sent, nothing heard, nothing pending, nothing dropped.
    pub fn new_at(addr: SocketAddr, now: u64) -> (c: Connection)
        ensures
            c.addr == addr,
            c.seq_num == 0,
            c.their_acks == (AckRecord { last_seq: 0, field: 0 }),
            c.waiting_packets@ == Seq::<WindowEntry>::empty(),
            c.dropped_packets@ == Seq::<Packet>::empty(),
            c.last_heard == now,
    {
        Connection {
            addr,
            seq_num: 0,
            their_acks: AckRecord::new(),
            waiting_packets: SentWindow::new(),
            dropped_packets: Vec::new(),
            last_heard: now,
        }
    }

    /// A fresh connection for `addr`, stamped with the current clock.
    pub fn new(addr: SocketAddr) -> (c: Connection)
        ensures
            c.addr == addr,
            c.seq_num == 0,
            c.their_acks == (AckRecord { last_seq: 0, field: 0 }),
            c.waiting_packets@ == Seq::<WindowEntry>::empty(),
            c.dropped_packets@ == Seq::<Packet>::empty(),
    {
        let now = clock_now_ms();
        Connection::new_at(addr, now)
    }

    /// Stamp one outbound message: build the wire header from the current
    /// sequence number and the acknowledgment snapshot of the peer, encode
    /// it with the payload, enqueue the message pending, and advance the
    /// counter. Always succeeds: the encoder cannot fail on these fields.
    pub fn prepare_outbound(&mut self, packet: Packet) -> (r: Result<Vec<u8>, NetworkError>)
        ensures
            r matches Ok(buf) && buf@ == spec_wire_bytes(
                old(self).seq_num,
                old(self).their_acks.last_seq,
                old(self).their_acks.field,
                packet.payload@,
            ),
            outbound_update(*old(self), packet, *final(self)),
    {
        let raw = RawPacket::new(
            self.seq_num,
            &packet,
            self.their_acks.last_seq,
            self.their_acks.field,
        );
        match crate::wire::serialize_raw(&raw) {
            Some(buffer) => {
                self.record_outbound(packet);
                Ok(buffer)
            },
            None => Err(NetworkError::SerializationFailed),
        }
    }

    /// Record an outbound message: enqueue it pending under the current
    /// sequence number and advance the counter by one, wrapping.
    pub fn record_outbound(&mut self, packet: Packet)
        ensures
            outbound_update(*old(self), packet, *final(self)),
    {
        let seq = self.seq_num;
        self.waiting_packets.enqueue(seq, packet);
        self.seq_num = if self.seq_num == 0xffff {
            0
        } else {
            self.seq_num + 1
        };
    }

    /// Process one inbound wire packet at clock reading `now`: record the
    /// arrival, resolve the pending window against the peer's
    /// acknowledgment snapshot, append the newly dropped messages, refresh
    /// `last_heard`, and reconstruct the delivered message.
    pub fn process_inbound(&mut self, raw: &RawPacket, now: u64) -> (delivered: Packet)
        ensures
            inbound_update(*old(self), *raw, *final(self)),
            final(self).last_heard == now,
            delivered.addr == old(self).addr,
            delivered.payload@ == raw.payload@,
    {
        self.their_acks.observe(raw.seq);
        let mut newly_dropped = self.waiting_packets.resolve(raw.ack_seq, raw.ack_field);
        self.dropped_packets.append(&mut newly_dropped);
        self.last_heard = now;
        Packet::new(self.addr, raw.duplicate_payload())
    }

    /// Atomically empty and return the accumulated dropped messages. Read
    /// once: a message handed out here is gone from the connection.
    pub fn drain_dropped(&mut self) -> (drained: Vec<Packet>)
        ensures
            drained@ == old(self).dropped_packets@,
            final(self).dropped_packets@ == Seq::<Packet>::empty(),
            final(self).addr == old(self).addr,
            final(self).seq_num == old(self).seq_num,
            final(self).their_acks == old(self).their_acks,
            final(self).waiting_packets@ == old(self).waiting_packets@,
            final(self).last_heard == old(self).last_heard,
    {
        let mut drained: Vec<Packet> = Vec::new();
        core::mem::swap(&mut drained, &mut self.dropped_packets);
        drained
    }

    /// Whether this endpoint has gone silent for at least `timeout`
    /// seconds as of clock reading `now`.
    pub fn is_stale_at(&self, now: u64, timeout: u64) -> (r: bool)
        ensures
            r == is_stale(*self, now, timeout),
    {
        if now >= self.last_heard {
            let elapsed = now - self.last_heard;
            (elapsed as u128) >= (timeout as u128) * 1000u128
        } else {
            false
        }
    }

    /// Milliseconds elapsed between `last_heard` and the clock reading
    /// `now`; zero if the clock reads earlier than `last_heard`.
    pub fn time_since_last_heard(&self, now: u64) -> (elapsed: u64)
        ensures
            elapsed == if now >= self.last_heard {
                now - self.last_heard
            } else {
                0
            },
    {
        if now >= self.last_heard {
            now - self.last_heard
        } else {
            0
        }
    }
}

} // verus!
