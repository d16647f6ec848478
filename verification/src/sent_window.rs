//! The sender's window of outgoing messages pending acknowledgment.
//!
//! Entries are enqueued keyed by their sequence number and later resolved
//! against an acknowledgment snapshot `{ack_seq, ack_field}` received from
//! the peer. Each entry is classified as acknowledged (removed, discarded),
//! dropped (older than the representable horizon without acknowledgment:
//! removed and returned to the caller), or still pending.

use vstd::prelude::*;
use vstd::pervasive::VecAdditionalExecFns;
use crate::sequence::{seq_delta, seq_newer, wrap_inc, lemma_delta_add, lemma_delta_zero};
use crate::ack_record::{acked_by, ACK_HORIZON};
use crate::packet::Packet;

verus! {

/// One outgoing message pending acknowledgment, keyed by its sequence number.
pub struct WindowEntry {
    pub seq: u16,
    pub packet: Packet,
}

/// The snapshot acknowledges `s`: it equals `ack_seq`, or lies within the
/// horizon behind it with the corresponding bit of `ack_field` set.
pub open spec fn entry_acked(s: u16, ack_seq: u16, ack_field: u32) -> bool {
    acked_by(ack_seq, ack_field, s)
}

/// `s` is older than `ack_seq` by more than the horizon: the peer's record
/// can no longer speak to whether it arrived, so it is presumed lost.
pub open spec fn entry_dropped(s: u16, ack_seq: u16) -> bool {
    let d = seq_delta(ack_seq, s);
    ACK_HORIZON < d && d <= 0x8000
}

/// `s` is neither acknowledged nor beyond the horizon: it stays pending and
/// may yet be acknowledged by a future, newer snapshot.
pub open spec fn entry_pending(s: u16, ack_seq: u16, ack_field: u32) -> bool {
    !entry_acked(s, ack_seq, ack_field) && !entry_dropped(s, ack_seq)
}

/// The entries of `s` that stay pending against the snapshot, in order.
pub open spec fn pending_of(s: Seq<WindowEntry>, ack_seq: u16, ack_field: u32) -> Seq<WindowEntry>
    decreases s.len(),
{
    if s.len() == 0 {
        Seq::empty()
    } else {
        let rest = pending_of(s.drop_last(), ack_seq, ack_field);
        if entry_pending(s.last().seq, ack_seq, ack_field) {
            rest.push(s.last())
        } else {
            rest
        }
    }
}

/// The entries of `s` that resolve as dropped against the snapshot, in order.
pub open spec fn dropped_entries_of(s: Seq<WindowEntry>, ack_seq: u16) -> Seq<WindowEntry>
    decreases s.len(),
{
    if s.len() == 0 {
        Seq::empty()
    } else {
        let rest = dropped_entries_of(s.drop_last(), ack_seq);
        if entry_dropped(s.last().seq, ack_seq) {
            rest.push(s.last())
        } else {
            rest
        }
    }
}

/// The payloads of the entries that resolve as dropped, in order.
pub open spec fn dropped_of(s: Seq<WindowEntry>, ack_seq: u16) -> Seq<Packet>
    decreases s.len(),
{
    if s.len() == 0 {
        Seq::empty()
    } else {
        let rest = dropped_of(s.drop_last(), ack_seq);
        if entry_dropped(s.last().seq, ack_seq) {
            rest.push(s.last().packet)
        } else {
            rest
        }
    }
}

/// Index of the first entry of `s` with sequence number `seq`, or `s.len()`.
pub open spec fn find_seq(s: Seq<WindowEntry>, seq: u16) -> int
    decreases s.len(),
{
    if s.len() == 0 {
        0
    } else if s[0].seq == seq {
        0
    } else {
        1 + find_seq(s.drop_first(), seq)
    }
}

/// How `enqueue` changes the window: overwrite by key, else append.
pub open spec fn spec_enqueue(s: Seq<WindowEntry>, seq: u16, packet: Packet) -> Seq<WindowEntry> {
    let i = find_seq(s, seq);
    if i == s.len() {
        s.push(WindowEntry { seq, packet })
    } else {
        s.update(i, WindowEntry { seq, packet })
    }
}

proof fn lemma_find_seq_props(s: Seq<WindowEntry>, seq: u16)
    ensures
        0 <= find_seq(s, seq) <= s.len(),
        find_seq(s, seq) < s.len() ==> s[find_seq(s, seq)].seq == seq,
        forall|j: int| 0 <= j < find_seq(s, seq) ==> s[j].seq != seq,
    decreases s.len(),
{
    if s.len() > 0 && s[0].seq != seq {
        lemma_find_seq_props(s.drop_first(), seq);
        assert(forall|j: int| 1 <= j < s.len() ==> s[j] == s.drop_first()[j - 1]);
    }
}

/// Every entry pending after a resolve came from the window and satisfies
/// the pending classification.
pub proof fn lemma_pending_elems(s: Seq<WindowEntry>, ack_seq: u16, ack_field: u32, k: int)
    requires
        0 <= k < pending_of(s, ack_seq, ack_field).len(),
    ensures
        entry_pending(pending_of(s, ack_seq, ack_field)[k].seq, ack_seq, ack_field),
        s.contains(pending_of(s, ack_seq, ack_field)[k]),
    decreases s.len(),
{
    if s.len() > 0 {
        let rest = pending_of(s.drop_last(), ack_seq, ack_field);
        if k < rest.len() {
            lemma_pending_elems(s.drop_last(), ack_seq, ack_field, k);
            assert(s.drop_last().contains(rest[k]));
            let i = choose|i: int| 0 <= i < s.drop_last().len() && s.drop_last()[i] == rest[k];
            assert(s[i] == rest[k]);
        } else {
            assert(s.contains(s.last()));
        }
    }
}

/// Every entry resolved as dropped came from the window and satisfies the
/// dropped classification.
pub proof fn lemma_dropped_elems(s: Seq<WindowEntry>, ack_seq: u16, k: int)
    requires
        0 <= k < dropped_entries_of(s, ack_seq).len(),
    ensures
        entry_dropped(dropped_entries_of(s, ack_seq)[k].seq, ack_seq),
        s.contains(dropped_entries_of(s, ack_seq)[k]),
    decreases s.len(),
{
    if s.len() > 0 {
        let rest = dropped_entries_of(s.drop_last(), ack_seq);
        if k < rest.len() {
            lemma_dropped_elems(s.drop_last(), ack_seq, k);
            assert(s.drop_last().contains(rest[k]));
            let i = choose|i: int| 0 <= i < s.drop_last().len() && s.drop_last()[i] == rest[k];
            assert(s[i] == rest[k]);
        } else {
            assert(s.contains(s.last()));
        }
    }
}

/// The dropped payloads are exactly the payloads of the dropped entries.
pub proof fn lemma_dropped_payloads(s: Seq<WindowEntry>, ack_seq: u16)
    ensures
        dropped_of(s, ack_seq).len() == dropped_entries_of(s, ack_seq).len(),
        forall|k: int|
            0 <= k < dropped_of(s, ack_seq).len() ==> dropped_of(s, ack_seq)[k]
                == dropped_entries_of(s, ack_seq)[k].packet,
    decreases s.len(),
{
    if s.len() > 0 {
        lemma_dropped_payloads(s.drop_last(), ack_seq);
    }
}

/// No double harvest: an entry surfaced as dropped by one resolve is gone
/// from the window, so a second resolve — whatever snapshot it is given —
/// can never surface that sequence number again.
pub proof fn lemma_no_double_harvest(
    w: Seq<WindowEntry>,
    a1: u16,
    f1: u32,
    a2: u16,
    i: int,
    j: int,
)
    requires
        0 <= i < dropped_entries_of(w, a1).len(),
        0 <= j < dropped_entries_of(pending_of(w, a1, f1), a2).len(),
    ensures
        dropped_entries_of(pending_of(w, a1, f1), a2)[j] != dropped_entries_of(w, a1)[i],
{
    let w1 = pending_of(w, a1, f1);
    lemma_dropped_elems(w, a1, i);
    lemma_dropped_elems(w1, a2, j);
    let e2 = dropped_entries_of(w1, a2)[j];
    let k = choose|k: int| 0 <= k < w1.len() && w1[k] == e2;
    lemma_pending_elems(w, a1, f1, k);
}

/// Conservation: one resolve classifies every entry of the window in
/// exactly one way — acknowledged, dropped, or still pending; a dropped
/// entry's payload is returned to the caller, a pending entry stays in the
/// window, and an acknowledged entry leaves silently.
pub proof fn lemma_conservation(s: Seq<WindowEntry>, ack_seq: u16, ack_field: u32, i: int)
    requires
        0 <= i < s.len(),
    ensures
        entry_acked(s[i].seq, ack_seq, ack_field) || entry_dropped(s[i].seq, ack_seq)
            || entry_pending(s[i].seq, ack_seq, ack_field),
        !(entry_acked(s[i].seq, ack_seq, ack_field) && entry_dropped(s[i].seq, ack_seq)),
        entry_dropped(s[i].seq, ack_seq) ==> dropped_of(s, ack_seq).contains(s[i].packet),
        entry_pending(s[i].seq, ack_seq, ack_field) ==> pending_of(s, ack_seq, ack_field).contains(
            s[i],
        ),
        entry_acked(s[i].seq, ack_seq, ack_field) ==> !pending_of(
            s,
            ack_seq,
            ack_field,
        ).contains(s[i]),
    decreases s.len(),
{
    if i == s.len() - 1 {
        assert(s.last() == s[i]);
        if entry_dropped(s[i].seq, ack_seq) {
            assert(dropped_of(s, ack_seq).last() == s[i].packet);
        }
        if entry_pending(s[i].seq, ack_seq, ack_field) {
            assert(pending_of(s, ack_seq, ack_field).last() == s[i]);
        }
    } else {
        lemma_conservation(s.drop_last(), ack_seq, ack_field, i);
        assert(s.drop_last()[i] == s[i]);
        if entry_dropped(s[i].seq, ack_seq) {
            let d0 = dropped_of(s.drop_last(), ack_seq);
            let p = choose|k: int| 0 <= k < d0.len() && d0[k] == s[i].packet;
            assert(dropped_of(s, ack_seq)[p] == s[i].packet);
        }
        if entry_pending(s[i].seq, ack_seq, ack_field) {
            let p0 = pending_of(s.drop_last(), ack_seq, ack_field);
            let p = choose|k: int| 0 <= k < p0.len() && p0[k] == s[i];
            assert(pending_of(s, ack_seq, ack_field)[p] == s[i]);
        }
    }
    if entry_acked(s[i].seq, ack_seq, ack_field) {
        if pending_of(s, ack_seq, ack_field).contains(s[i]) {
            let k = choose|k: int|
                0 <= k < pending_of(s, ack_seq, ack_field).len() && pending_of(
                    s,
                    ack_seq,
                    ack_field,
                )[k] == s[i];
            lemma_pending_elems(s, ack_seq, ack_field, k);
        }
    }
}

/// The window's entries ascend by sequence, oldest first: each entry is
/// newer than every entry before it. A window filled by a connection keeps
/// this order as long as fewer than 2^15 messages are outstanding — at
/// half the sequence space the half-range rule itself stops ordering.
pub open spec fn ascending(s: Seq<WindowEntry>) -> bool {
    forall|i: int, j: int| 0 <= i < j < s.len() ==> seq_newer(s[j].seq, s[i].seq)
}

/// A resolve keeps the pending window in order: what stays pending in an
/// ascending window still ascends.
pub proof fn lemma_pending_preserves_ascending(s: Seq<WindowEntry>, ack_seq: u16, ack_field: u32)
    requires
        ascending(s),
    ensures
        ascending(pending_of(s, ack_seq, ack_field)),
    decreases s.len(),
{
    if s.len() > 0 {
        assert(forall|i: int| 0 <= i < s.len() - 1 ==> s.drop_last()[i] == s[i]);
        lemma_pending_preserves_ascending(s.drop_last(), ack_seq, ack_field);
        let rest = pending_of(s.drop_last(), ack_seq, ack_field);
        if entry_pending(s.last().seq, ack_seq, ack_field) {
            let w = rest.push(s.last());
            assert forall|i: int, j: int|
                0 <= i < j < w.len() implies seq_newer(w[j].seq, w[i].seq) by {
                if j == w.len() - 1 {
                    lemma_pending_elems(s.drop_last(), ack_seq, ack_field, i);
                    let k = choose|k: int|
                        0 <= k < s.drop_last().len() && s.drop_last()[k] == rest[i];
                    assert(s[k] == rest[i]);
                    assert(seq_newer(s.last().seq, s[k].seq));
                }
            }
        }
    }
}

/// Return order of a resolve: the dropped harvest of an ascending window
/// comes back ascending by sequence, oldest first — ties cannot arise,
/// since the window holds each sequence number at most once.
pub proof fn lemma_dropped_sorted(s: Seq<WindowEntry>, ack_seq: u16)
    requires
        ascending(s),
    ensures
        ascending(dropped_entries_of(s, ack_seq)),
    decreases s.len(),
{
    if s.len() > 0 {
        assert(forall|i: int| 0 <= i < s.len() - 1 ==> s.drop_last()[i] == s[i]);
        lemma_dropped_sorted(s.drop_last(), ack_seq);
        let rest = dropped_entries_of(s.drop_last(), ack_seq);
        if entry_dropped(s.last().seq, ack_seq) {
            let w = rest.push(s.last());
            assert forall|i: int, j: int|
                0 <= i < j < w.len() implies seq_newer(w[j].seq, w[i].seq) by {
                if j == w.len() - 1 {
                    lemma_dropped_elems(s.drop_last(), ack_seq, i);
                    let k = choose|k: int|
                        0 <= k < s.drop_last().len() && s.drop_last()[k] == rest[i];
                    assert(s[k] == rest[i]);
                    assert(seq_newer(s.last().seq, s[k].seq));
                }
            }
        }
    }
}

/// While every pending entry lies strictly within half the sequence space
/// behind the counter `seq` — true as long as fewer than 2^15 messages
/// are outstanding — enqueueing at `seq` appends, keeps the window
/// ascending, and leaves every entry exactly one step further behind the
/// advanced counter. Once a window reaches half the space this premise
/// fails, and the half-range rule no longer orders its entries.
pub proof fn lemma_enqueue_in_order(s: Seq<WindowEntry>, seq: u16, packet: Packet)
    requires
        ascending(s),
        forall|i: int|
            0 <= i < s.len() ==> 0 < #[trigger] seq_delta(seq, s[i].seq) && seq_delta(
                seq,
                s[i].seq,
            ) < 0x8000,
    ensures
        spec_enqueue(s, seq, packet) == s.push(WindowEntry { seq, packet }),
        ascending(s.push(WindowEntry { seq, packet })),
        forall|i: int|
            0 <= i < s.len() + 1 ==> seq_delta(
                wrap_inc(seq),
                s.push(WindowEntry { seq, packet })[i].seq,
            ) == if i < s.len() {
                seq_delta(seq, s[i].seq) + 1
            } else {
                1
            },
{
    lemma_find_seq_props(s, seq);
    if find_seq(s, seq) < s.len() {
        lemma_delta_zero(seq, s[find_seq(s, seq)].seq);
    }
    assert(seq_delta(wrap_inc(seq), seq) == 1);
    assert forall|i: int|
        0 <= i < s.len() + 1 implies seq_delta(
        wrap_inc(seq),
        s.push(WindowEntry { seq, packet })[i].seq,
    ) == (if i < s.len() {
        seq_delta(seq, s[i].seq) + 1
    } else {
        1int
    }) by {
        if i < s.len() {
            lemma_delta_add(wrap_inc(seq), seq, s[i].seq);
        } else {
            lemma_delta_add(wrap_inc(seq), seq, seq);
            lemma_delta_zero(seq, seq);
        }
    }
}

/// The window of outgoing messages not yet resolved, in insertion order.
pub struct SentWindow {
    pub entries: Vec<WindowEntry>,
}

impl View for SentWindow {
    type V = Seq<WindowEntry>;

    open spec fn view(&self) -> Seq<WindowEntry> {
        self.entries@
    }
}

impl SentWindow {
    /// An empty window.
    pub fn new() -> (r: SentWindow)
        ensures
            r@ == Seq::<WindowEntry>::empty(),
    {
        SentWindow { entries: Vec::new() }
    }

    /// Number of unresolved entries.
    pub fn len(&self) -> (n: usize)
        ensures
            n == self@.len(),
    {
        self.entries.len()
    }

    /// Index of the first entry keyed by `seq`, or the length if absent.
    fn find_index(&self, seq: u16) -> (i: usize)
        ensures
            i == find_seq(self@, seq),
    {
        let n = self.entries.len();
        let mut i: usize = 0;
        while i < n
            invariant
                0 <= i <= n,
                n == self.entries@.len(),
                forall|j: int| 0 <= j < i ==> self.entries@[j].seq != seq,
            decreases n - i,
        {
            if self.entries[i].seq == seq {
                proof {
                    lemma_find_seq_props(self.entries@, seq);
                }
                return i;
            }
            i += 1;
        }
        proof {
            lemma_find_seq_props(self.entries@, seq);
        }
        n
    }

    /// Insert `packet` keyed by `seq`; an entry already keyed by `seq` is
    /// overwritten, otherwise the new entry is appended.
    pub fn enqueue(&mut self, seq: u16, packet: Packet)
        ensures
            final(self)@ == spec_enqueue(old(self)@, seq, packet),
    {
        let i = self.find_index(seq);
        if i < self.entries.len() {
            self.entries.set(i, WindowEntry { seq, packet });
        } else {
            proof {
                lemma_find_seq_props(self.entries@, seq);
            }
            self.entries.push(WindowEntry { seq, packet });
        }
    }

    /// Resolve the window against an acknowledgment snapshot received from
    /// the peer: acknowledged entries are removed and discarded, entries
    /// beyond the horizon are removed and their payloads returned as
    /// dropped, the rest stay pending. The dropped list follows the
    /// window's own order; a window kept [`ascending`] — as a connection
    /// keeps it, see [`lemma_enqueue_in_order`] and
    /// [`lemma_pending_preserves_ascending`] — hands its drops back
    /// ascending by sequence, oldest first ([`lemma_dropped_sorted`]).
    pub fn resolve(&mut self, ack_seq: u16, ack_field: u32) -> (dropped: Vec<Packet>)
        ensures
            final(self)@ == pending_of(old(self)@, ack_seq, ack_field),
            dropped@ == dropped_of(old(self)@, ack_seq),
    {
        let ghost orig = self.entries@;
        let mut kept: Vec<WindowEntry> = Vec::new();
        let mut dropped: Vec<Packet> = Vec::new();
        let ghost mut k: int = 0;
        while self.entries.len() > 0
            invariant
                0 <= k <= orig.len(),
                self.entries@ == orig.skip(k),
                kept@ == pending_of(orig.take(k), ack_seq, ack_field),
                dropped@ == dropped_of(orig.take(k), ack_seq),
            decreases self.entries@.len(),
        {
            let e = self.entries.remove(0);
            proof {
                assert(orig.skip(k)[0] == orig[k]);
                assert(orig.skip(k).skip(1) =~= orig.skip(k + 1));
                assert(orig.take(k + 1).drop_last() =~= orig.take(k));
                assert(orig.take(k + 1).last() == orig[k]);
            }
            let d = crate::sequence::delta(ack_seq, e.seq);
            if d == 0 {
                // acknowledged: this is the snapshot's newest value
            } else if d <= ACK_HORIZON {
                if (ack_field >> ((d - 1) as u32)) & 1 == 1 {
                    // acknowledged by its bit in the field
                } else {
                    kept.push(e);
                }
            } else if d <= 0x8000 {
                dropped.push(e.packet);
            } else {
                // newer than the snapshot: still pending
                kept.push(e);
            }
            proof {
                k = k + 1;
            }
        }
        proof {
            assert(orig.take(k) =~= orig);
        }
        self.entries = kept;
        dropped
    }
}

} // verus!
