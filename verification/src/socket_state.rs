//! The session layer: the per-endpoint connection registry wired to the
//! two packet-processing entry points — stamping outbound messages with
//! sequencing and acknowledgment information, and processing inbound wire
//! packets — plus the liveness classification the background sweep runs on.

use vstd::prelude::*;
use crate::addr::SocketAddr;
use crate::ack_record::AckRecord;
use crate::clock::clock_now_ms;
use crate::connection::{Connection, inbound_update, is_stale, outbound_update};
use crate::error::NetworkError;
use crate::packet::{Packet, RawPacket};
use crate::registry::{
    ConnectionRegistry,
    has_addr,
    find_addr,
    get_or_create_rel,
    is_fresh_conn,
};
use crate::sent_window::WindowEntry;
use crate::wire::spec_wire_bytes;

verus! {

/// Default liveness timeout, in seconds.
pub const TIMEOUT_DEFAULT: u64 = 10;

/// Default interval between liveness sweeps, in seconds.
pub const TIMEOUT_POLL_INTERVAL: u64 = 1;

/// The session layer over one datagram socket: every endpoint's connection
/// state, and the timeout (seconds) past which a silent endpoint counts as
/// stale.
pub struct SocketState {
    pub timeout: u64,
    pub connections: ConnectionRegistry,
}

/// Index of the connection an operation on `addr` works with: the existing
/// one, or the slot where a fresh one is created.
pub open spec fn conn_index(pre: Seq<Connection>, addr: SocketAddr) -> int {
    if has_addr(pre, addr) {
        find_addr(pre, addr)
    } else {
        pre.len() as int
    }
}

/// Connections other than the one at `i` keep their place and value.
pub open spec fn same_except(pre: Seq<Connection>, post: Seq<Connection>, i: int) -> bool {
    &&& post.len() == pre.len()
    &&& forall|j: int| 0 <= j < pre.len() && j != i ==> post[j] == pre[j]
}

/// Exactly one connection was appended; the others keep place and value.
pub open spec fn extended_by_one(pre: Seq<Connection>, post: Seq<Connection>) -> bool {
    &&& post.len() == pre.len() + 1
    &&& forall|j: int| 0 <= j < pre.len() ==> post[j] == pre[j]
}

/// What a successful outbound pre-processing of `packet` does to the
/// registry, and the wire bytes it hands back: the endpoint's connection —
/// created fresh at clock reading `now` if the endpoint is new — enqueues
/// the message under its current sequence number and advances it, and the
/// buffer is exactly the wire encoding of that sequence number, the
/// connection's acknowledgment snapshot, and the payload.
pub open spec fn pre_process_ok_rel(
    pre: Seq<Connection>,
    packet: Packet,
    now: u64,
    post: Seq<Connection>,
    buf: Seq<u8>,
) -> bool {
    let i = conn_index(pre, packet.addr);
    if has_addr(pre, packet.addr) {
        &&& same_except(pre, post, i)
        &&& outbound_update(pre[i], packet, post[i])
        &&& buf == spec_wire_bytes(
            pre[i].seq_num,
            pre[i].their_acks.last_seq,
            pre[i].their_acks.field,
            packet.payload@,
        )
    } else {
        &&& extended_by_one(pre, post)
        &&& post[i].addr == packet.addr
        &&& post[i].seq_num == 1
        &&& post[i].their_acks == (AckRecord { last_seq: 0, field: 0 })
        &&& post[i].waiting_packets@ == seq![WindowEntry { seq: 0, packet }]
        &&& post[i].dropped_packets@.len() == 0
        &&& post[i].last_heard == now
        &&& buf == spec_wire_bytes(0, 0, 0, packet.payload@)
    }
}

/// What processing one inbound wire packet does to the registry: the
/// endpoint's connection — created fresh if the endpoint is new — records
/// the arrival, resolves its pending window against the packet's
/// acknowledgment snapshot, appends the newly dropped messages, and is
/// stamped as heard from at clock reading `now`.
pub open spec fn process_received_rel(
    pre: Seq<Connection>,
    addr: SocketAddr,
    raw: RawPacket,
    now: u64,
    post: Seq<Connection>,
) -> bool {
    let i = conn_index(pre, addr);
    if has_addr(pre, addr) {
        &&& same_except(pre, post, i)
        &&& inbound_update(pre[i], raw, post[i])
        &&& post[i].last_heard == now
    } else {
        &&& extended_by_one(pre, post)
        &&& post[i].addr == addr
        &&& post[i].seq_num == 0
        &&& AckRecord::observe_rel(
            AckRecord { last_seq: 0, field: 0 },
            raw.seq,
            post[i].their_acks,
        )
        &&& post[i].waiting_packets@.len() == 0
        &&& post[i].dropped_packets@.len() == 0
        &&& post[i].last_heard == now
    }
}

/// What draining an endpoint's dropped messages does: the accumulated list
/// is handed out whole and emptied, everything else untouched; an unknown
/// endpoint gets a fresh connection (at clock reading `now`) and an empty
/// answer.
pub open spec fn drained_rel(
    pre: Seq<Connection>,
    addr: SocketAddr,
    now: u64,
    post: Seq<Connection>,
    drained: Seq<Packet>,
) -> bool {
    let i = conn_index(pre, addr);
    if has_addr(pre, addr) {
        &&& same_except(pre, post, i)
        &&& drained == pre[i].dropped_packets@
        &&& post[i].dropped_packets@.len() == 0
        &&& post[i].addr == pre[i].addr
        &&& post[i].seq_num == pre[i].seq_num
        &&& post[i].their_acks == pre[i].their_acks
        &&& post[i].waiting_packets@ == pre[i].waiting_packets@
        &&& post[i].last_heard == pre[i].last_heard
    } else {
        &&& extended_by_one(pre, post)
        &&& is_fresh_conn(post[i], addr)
        &&& post[i].last_heard == now
        &&& drained.len() == 0
    }
}

/// The endpoints of the stale connections of `s`, in registry order.
pub open spec fn stale_of(s: Seq<Connection>, now: u64, timeout: u64) -> Seq<SocketAddr>
    decreases s.len(),
{
    if s.len() == 0 {
        Seq::empty()
    } else {
        let rest = stale_of(s.drop_last(), now, timeout);
        if is_stale(s.last(), now, timeout) {
            rest.push(s.last().addr)
        } else {
            rest
        }
    }
}

/// An endpoint is reported by the sweep exactly when some connection of
/// its address is stale.
pub proof fn lemma_stale_membership(s: Seq<Connection>, now: u64, timeout: u64, addr: SocketAddr)
    ensures
        stale_of(s, now, timeout).contains(addr) <==> exists|i: int|
            0 <= i < s.len() && s[i].addr == addr && is_stale(s[i], now, timeout),
    decreases s.len(),
{
    if s.len() > 0 {
        lemma_stale_membership(s.drop_last(), now, timeout, addr);
        let rest = stale_of(s.drop_last(), now, timeout);
        if stale_of(s, now, timeout).contains(addr) {
            let k = choose|k: int|
                0 <= k < stale_of(s, now, timeout).len() && stale_of(s, now, timeout)[k] == addr;
            if k < rest.len() {
                assert(rest.contains(addr));
                let w = choose|i: int|
                    0 <= i < s.drop_last().len() && s.drop_last()[i].addr == addr && is_stale(
                        s.drop_last()[i],
                        now,
                        timeout,
                    );
                assert(s[w].addr == addr && is_stale(s[w], now, timeout));
            } else {
                assert(s[s.len() - 1].addr == addr && is_stale(s[s.len() - 1], now, timeout));
            }
        }
        if exists|i: int| 0 <= i < s.len() && s[i].addr == addr && is_stale(s[i], now, timeout) {
            let w = choose|i: int|
                0 <= i < s.len() && s[i].addr == addr && is_stale(s[i], now, timeout);
            if w < s.len() - 1 {
                assert(s.drop_last()[w].addr == addr && is_stale(s.drop_last()[w], now, timeout));
                assert(rest.contains(addr));
                let k = choose|k: int| 0 <= k < rest.len() && rest[k] == addr;
                assert(stale_of(s, now, timeout)[k] == addr);
            } else {
                assert(stale_of(s, now, timeout).last() == addr);
            }
        }
    }
}

impl SocketState {
    /// One connection per endpoint.
    pub open spec fn wf(self) -> bool {
        self.connections.wf()
    }

    /// A session layer with no connections and the default timeout. The
    /// caller owning the transport drives the liveness sweep by calling
    /// `check_for_timeouts` on its own cadence.
    pub fn new() -> (s: SocketState)
        ensures
            s.timeout == TIMEOUT_DEFAULT,
            s.connections@ == Seq::<Connection>::empty(),
            s.wf(),
    {
        SocketState { timeout: TIMEOUT_DEFAULT, connections: ConnectionRegistry::new() }
    }

    /// The same session state with the liveness timeout replaced.
    pub fn with_client_timeout(self, timeout: u64) -> (s: SocketState)
        ensures
            s.timeout == timeout,
            s.connections@ == self.connections@,
            self.wf() ==> s.wf(),
    {
        SocketState { timeout, connections: self.connections }
    }

    /// The connection for `addr`, created fresh at clock reading `now` if
    /// the endpoint is unknown; its index is returned.
    fn create_connection_if_not_exists(&mut self, addr: SocketAddr, now: u64) -> (i: usize)
        requires
            old(self).wf(),
        ensures
            final(self).wf(),
            final(self).timeout == old(self).timeout,
            get_or_create_rel(old(self).connections@, addr, now, final(self).connections@, i as int),
            i as int == conn_index(old(self).connections@, addr),
            i < final(self).connections@.len(),
            final(self).connections@[i as int].addr == addr,
    {
        proof {
            crate::registry::lemma_find_addr_props(self.connections@, addr);
        }
        self.connections.get_or_create(addr, now)
    }

    /// Stamp `packet` with sequencing and acknowledgment information and
    /// encode it for the wire, at clock reading `now`: the message is
    /// enqueued pending under the connection's current sequence number,
    /// which advances. Always succeeds: the encoder cannot fail on these
    /// fields.
    pub fn pre_process_packet_at(&mut self, packet: Packet, now: u64) -> (r: Result<
        (SocketAddr, Vec<u8>),
        NetworkError,
    >)
        requires
            old(self).wf(),
        ensures
            final(self).wf(),
            final(self).timeout == old(self).timeout,
            r matches Ok(out) && out.0 == packet.addr && pre_process_ok_rel(
                old(self).connections@,
                packet,
                now,
                final(self).connections@,
                out.1@,
            ),
    {
        let i = self.create_connection_if_not_exists(packet.addr, now);
        let addr = packet.addr;
        let conn = &mut self.connections.connections[i];
        match conn.prepare_outbound(packet) {
            Ok(buffer) => {
                proof {
                    let pre = old(self).connections@;
                    let post = self.connections@;
                    if !has_addr(pre, packet.addr) {
                        assert(post[i as int].waiting_packets@ =~= seq![
                            WindowEntry { seq: 0, packet },
                        ]);
                    }
                    assert forall|p: int, q: int|
                        0 <= p < q < post.len() implies post[p].addr != post[q].addr by {}
                }
                Ok((addr, buffer))
            },
            Err(e) => Err(e),
        }
    }

    /// As `pre_process_packet_at`, with the clock read during the call.
    pub fn pre_process_packet(&mut self, packet: Packet) -> (r: Result<
        (SocketAddr, Vec<u8>),
        NetworkError,
    >)
        requires
            old(self).wf(),
        ensures
            final(self).wf(),
            final(self).timeout == old(self).timeout,
            r matches Ok(out) && out.0 == packet.addr && exists|t: u64|
                pre_process_ok_rel(
                    old(self).connections@,
                    packet,
                    t,
                    final(self).connections@,
                    out.1@,
                ),
    {
        let now = clock_now_ms();
        let r = self.pre_process_packet_at(packet, now);
        proof {
            match &r {
                Ok(out) => {
                    assert(pre_process_ok_rel(
                        old(self).connections@,
                        packet,
                        now,
                        self.connections@,
                        out.1@,
                    ));
                },
                Err(_) => {},
            }
        }
        r
    }

    /// Process one inbound wire packet from `addr` at clock reading `now`:
    /// update the acknowledgment bookkeeping, harvest newly dropped
    /// messages into the connection, refresh its liveness stamp, and
    /// reconstruct the delivered message.
    pub fn process_received_at(&mut self, addr: SocketAddr, packet: &RawPacket, now: u64) -> (r:
        Result<Packet, NetworkError>)
        requires
            old(self).wf(),
        ensures
            final(self).wf(),
            final(self).timeout == old(self).timeout,
            process_received_rel(old(self).connections@, addr, *packet, now, final(self).connections@),
            r matches Ok(p) && p.addr == addr && p.payload@ == packet.payload@,
    {
        let i = self.create_connection_if_not_exists(addr, now);
        let conn = &mut self.connections.connections[i];
        let delivered = conn.process_inbound(packet, now);
        proof {
            let pre = old(self).connections@;
            let post = self.connections@;
            assert forall|p: int, q: int|
                0 <= p < q < post.len() implies post[p].addr != post[q].addr by {}
        }
        Ok(delivered)
    }

    /// As `process_received_at`, with the clock read during the call.
    pub fn process_received(&mut self, addr: SocketAddr, packet: &RawPacket) -> (r: Result<
        Packet,
        NetworkError,
    >)
        requires
            old(self).wf(),
        ensures
            final(self).wf(),
            final(self).timeout == old(self).timeout,
            exists|t: u64|
                process_received_rel(
                    old(self).connections@,
                    addr,
                    *packet,
                    t,
                    final(self).connections@,
                ),
            r matches Ok(p) && p.addr == addr && p.payload@ == packet.payload@,
    {
        let now = clock_now_ms();
        let r = self.process_received_at(addr, packet, now);
        proof {
            assert(process_received_rel(
                old(self).connections@,
                addr,
                *packet,
                now,
                self.connections@,
            ));
        }
        r
    }

    /// Hand out and clear the dropped messages accumulated for `addr`, at
    /// clock reading `now`. Read once: a message drained here is never
    /// returned again.
    pub fn dropped_packets_at(&mut self, addr: SocketAddr, now: u64) -> (r: Result<
        Vec<Packet>,
        NetworkError,
    >)
        requires
            old(self).wf(),
        ensures
            final(self).wf(),
            final(self).timeout == old(self).timeout,
            r matches Ok(v) && drained_rel(
                old(self).connections@,
                addr,
                now,
                final(self).connections@,
                v@,
            ),
    {
        let i = self.create_connection_if_not_exists(addr, now);
        let conn = &mut self.connections.connections[i];
        let drained = conn.drain_dropped();
        proof {
            let post = self.connections@;
            assert forall|p: int, q: int|
                0 <= p < q < post.len() implies post[p].addr != post[q].addr by {}
        }
        Ok(drained)
    }

    /// As `dropped_packets_at`, with the clock read during the call.
    pub fn dropped_packets(&mut self, addr: SocketAddr) -> (r: Result<Vec<Packet>, NetworkError>)
        requires
            old(self).wf(),
        ensures
            final(self).wf(),
            final(self).timeout == old(self).timeout,
            r matches Ok(v) && exists|t: u64|
                drained_rel(old(self).connections@, addr, t, final(self).connections@, v@),
    {
        let now = clock_now_ms();
        let r = self.dropped_packets_at(addr, now);
        proof {
            match &r {
                Ok(v) => {
                    assert(drained_rel(
                        old(self).connections@,
                        addr,
                        now,
                        self.connections@,
                        v@,
                    ));
                },
                Err(_) => {},
            }
        }
        r
    }

    /// The liveness sweep's decision: the endpoints that have gone silent
    /// for at least the configured timeout as of clock reading `now`, in
    /// registry order. Advisory only — no connection is removed.
    pub fn check_for_timeouts(&self, now: u64) -> (stale: Vec<SocketAddr>)
        ensures
            stale@ == stale_of(self.connections@, now, self.timeout),
    {
        let mut stale: Vec<SocketAddr> = Vec::new();
        let n = self.connections.connections.len();
        let mut i: usize = 0;
        while i < n
            invariant
                0 <= i <= n,
                n == self.connections@.len(),
                stale@ == stale_of(self.connections@.take(i as int), now, self.timeout),
            decreases n - i,
        {
            let c = &self.connections.connections[i];
            proof {
                let s = self.connections@;
                assert(s.take(i + 1).drop_last() =~= s.take(i as int));
                assert(s.take(i + 1).last() == s[i as int]);
            }
            if c.is_stale_at(now, self.timeout) {
                stale.push(c.addr);
            }
            i += 1;
        }
        proof {
            assert(self.connections@.take(n as int) =~= self.connections@);
        }
        stale
    }
}

} // verus!
