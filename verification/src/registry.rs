//! The registry of per-endpoint connections: a map from endpoint identity
//! to connection state with get-or-create semantics. At most one connection
//! ever exists per endpoint; the registry never destroys one on its own.

use vstd::prelude::*;
use crate::addr::SocketAddr;
use crate::ack_record::AckRecord;
use crate::connection::Connection;

verus! {

/// Whether some connection in `s` belongs to `addr`.
pub open spec fn has_addr(s: Seq<Connection>, addr: SocketAddr) -> bool {
    exists|i: int| 0 <= i < s.len() && s[i].addr == addr
}

/// Index of the first connection in `s` belonging to `addr`, or `s.len()`.
pub open spec fn find_addr(s: Seq<Connection>, addr: SocketAddr) -> int
    decreases s.len(),
{
    if s.len() == 0 {
        0
    } else if s[0].addr == addr {
        0
    } else {
        1 + find_addr(s.drop_first(), addr)
    }
}

/// The fields of a connection just created for `addr`, apart from its
/// creation time: nothing sent, nothing heard, nothing pending or dropped.
pub open spec fn is_fresh_conn(c: Connection, addr: SocketAddr) -> bool {
    &&& c.addr == addr
    &&& c.seq_num == 0
    &&& c.their_acks == (AckRecord { last_seq: 0, field: 0 })
    &&& c.waiting_packets@.len() == 0
    &&& c.dropped_packets@.len() == 0
}

/// How get-or-create changes the registry: a registry that knows `addr` is
/// left untouched and the connection's index returned; otherwise exactly
/// one fresh connection for `addr`, stamped `now`, is appended.
pub open spec fn get_or_create_rel(
    pre: Seq<Connection>,
    addr: SocketAddr,
    now: u64,
    post: Seq<Connection>,
    i: int,
) -> bool {
    if has_addr(pre, addr) {
        post == pre && i == find_addr(pre, addr)
    } else {
        &&& post.len() == pre.len() + 1
        &&& post.drop_last() == pre
        &&& is_fresh_conn(post.last(), addr)
        &&& post.last().last_heard == now
        &&& i == pre.len()
    }
}

pub proof fn lemma_find_addr_props(s: Seq<Connection>, addr: SocketAddr)
    ensures
        0 <= find_addr(s, addr) <= s.len(),
        find_addr(s, addr) < s.len() ==> s[find_addr(s, addr)].addr == addr,
        forall|j: int| 0 <= j < find_addr(s, addr) ==> s[j].addr != addr,
        has_addr(s, addr) == (find_addr(s, addr) < s.len()),
    decreases s.len(),
{
    if s.len() > 0 && s[0].addr != addr {
        lemma_find_addr_props(s.drop_first(), addr);
        assert(forall|j: int| 1 <= j < s.len() ==> s[j] == s.drop_first()[j - 1]);
        if has_addr(s, addr) {
            let w = choose|i: int| 0 <= i < s.len() && s[i].addr == addr;
            assert(s.drop_first()[w - 1].addr == addr);
        }
        if has_addr(s.drop_first(), addr) {
            let w = choose|i: int|
                0 <= i < s.drop_first().len() && s.drop_first()[i].addr == addr;
            assert(s[w + 1].addr == addr);
        }
    }
}

/// Idempotent get-or-create: once an endpoint is known — in particular
/// right after the call that created it — a further get-or-create changes
/// nothing and yields the same connection's index.
pub proof fn lemma_get_or_create_idempotent(
    s0: Seq<Connection>,
    addr: SocketAddr,
    n1: u64,
    n2: u64,
    s1: Seq<Connection>,
    s2: Seq<Connection>,
    i1: int,
    i2: int,
)
    requires
        get_or_create_rel(s0, addr, n1, s1, i1),
        get_or_create_rel(s1, addr, n2, s2, i2),
    ensures
        s2 == s1,
        i2 == i1,
{
    lemma_find_addr_props(s0, addr);
    lemma_find_addr_props(s1, addr);
    if has_addr(s0, addr) {
        assert(s1 == s0);
    } else {
        assert(s1.last().addr == addr);
        assert(has_addr(s1, addr));
        assert(forall|j: int| 0 <= j < s0.len() ==> s1[j] == s0[j]);
        if find_addr(s1, addr) < s0.len() {
            assert(s0[find_addr(s1, addr)].addr == addr);
        }
        assert(find_addr(s1, addr) == s0.len());
    }
}

/// The connections known so far, one per endpoint, in creation order.
pub struct ConnectionRegistry {
    pub connections: Vec<Connection>,
}

impl View for ConnectionRegistry {
    type V = Seq<Connection>;

    open spec fn view(&self) -> Seq<Connection> {
        self.connections@
    }
}

impl ConnectionRegistry {
    /// One connection per endpoint: distinct entries have distinct addresses.
    pub open spec fn wf(self) -> bool {
        forall|i: int, j: int|
            0 <= i < j < self@.len() ==> self@[i].addr != self@[j].addr
    }

    /// An empty registry.
    pub fn new() -> (r: ConnectionRegistry)
        ensures
            r@ == Seq::<Connection>::empty(),
            r.wf(),
    {
        ConnectionRegistry { connections: Vec::new() }
    }

    /// Number of known endpoints.
    pub fn len(&self) -> (n: usize)
        ensures
            n == self@.len(),
    {
        self.connections.len()
    }

    /// Index of the connection for `addr`, or the length if unknown.
    pub fn find(&self, addr: SocketAddr) -> (i: usize)
        ensures
            i == find_addr(self@, addr),
    {
        let n = self.connections.len();
        let mut i: usize = 0;
        while i < n
            invariant
                0 <= i <= n,
                n == self@.len(),
                forall|j: int| 0 <= j < i ==> self@[j].addr != addr,
            decreases n - i,
        {
            let c = &self.connections[i];
            if c.addr.a == addr.a && c.addr.b == addr.b && c.addr.c == addr.c && c.addr.d == addr.d
                && c.addr.port == addr.port {
                proof {
                    lemma_find_addr_props(self@, addr);
                }
                return i;
            }
            i += 1;
        }
        proof {
            lemma_find_addr_props(self@, addr);
        }
        n
    }

    /// The connection for `addr`, created fresh with creation time `now` if
    /// the endpoint was unknown; its index is returned.
    pub fn get_or_create(&mut self, addr: SocketAddr, now: u64) -> (i: usize)
        requires
            old(self).wf(),
        ensures
            final(self).wf(),
            get_or_create_rel(old(self)@, addr, now, final(self)@, i as int),
            i < final(self)@.len(),
            final(self)@[i as int].addr == addr,
            has_addr(final(self)@, addr),
    {
        proof {
            lemma_find_addr_props(self@, addr);
        }
        let i = self.find(addr);
        if i < self.connections.len() {
            return i;
        }
        self.connections.push(Connection::new_at(addr, now));
        proof {
            assert(self@.drop_last() =~= old(self)@);
            assert forall|p: int, q: int|
                0 <= p < q < self@.len() implies self@[p].addr != self@[q].addr by {
                if q == self@.len() - 1 {
                    lemma_find_addr_props(old(self)@, addr);
                }
            }
        }
        i
    }
}

} // verus!
