//! Tracking of which remote sequence numbers have been observed recently.
//!
//! An [`AckRecord`] is the pair `{last_seq, field}`: `last_seq` is the newest
//! sequence number observed so far (always considered observed), and bit
//! `d - 1` of `field` is set iff the sequence number at forward distance `d`
//! behind `last_seq` (for `1 <= d <= 32`) has been observed. The field width
//! bounds the detection horizon: only the 32 most recent sequence numbers
//! behind the newest can be represented.

use vstd::prelude::*;
use crate::sequence::{seq_delta, seq_newer, delta, lemma_delta_add, lemma_delta_zero};

verus! {

/// Number of sequence numbers behind the newest that an acknowledgment
/// bitfield can represent.
pub const ACK_HORIZON: u16 = 32;

/// Whether bit `i` of `f` is set.
pub open spec fn bit_read(f: u32, i: u32) -> bool {
    (f >> i) & 1 == 1
}

/// What an acknowledgment snapshot `{last_seq, field}` claims observed:
/// `last_seq` itself, and every sequence number at forward distance
/// `d` (`1 <= d <= 32`) behind `last_seq` whose bit `d - 1` is set.
pub open spec fn acked_by(last_seq: u16, field: u32, s: u16) -> bool {
    let d = seq_delta(last_seq, s);
    d == 0 || (1 <= d && d <= ACK_HORIZON && bit_read(field, (d - 1) as u32))
}

/// Whether `s` lies within the representable horizon of newest value `last`:
/// it is `last` itself or at most 32 behind it.
pub open spec fn in_horizon(last: u16, s: u16) -> bool {
    seq_delta(last, s) <= ACK_HORIZON
}

/// Ack monotonicity: observe `s1` while it is the newest, then a newer
/// `s2` — the record's newest value is `s2`, and `s1` is still seen
/// whenever it remains within the horizon behind `s2`.
pub proof fn lemma_ack_monotonic(
    r0: AckRecord,
    r1: AckRecord,
    r2: AckRecord,
    s1: u16,
    s2: u16,
)
    requires
        AckRecord::observe_rel(r0, s1, r1),
        r1.last_seq == s1,
        AckRecord::observe_rel(r1, s2, r2),
        seq_newer(s2, s1),
    ensures
        r2.last_seq == s2,
        in_horizon(s2, s1) ==> r2.seen(s1),
{
    lemma_delta_zero(s1, s1);
    assert(in_horizon(s1, s1));
    assert(r1.seen(s1));
}

/// Recency record of the sequence numbers observed from one remote endpoint.
pub struct AckRecord {
    /// The newest sequence number observed.
    pub last_seq: u16,
    /// Bit `d - 1` set iff the sequence number `d` behind `last_seq` was observed.
    pub field: u32,
}

proof fn lemma_bit_zero(j: u32)
    by (bit_vector)
    requires
        j < 32,
    ensures
        !bit_read(0u32, j),
{
}

proof fn lemma_bit_or(f: u32, i: u32, j: u32)
    by (bit_vector)
    requires
        i < 32,
        j < 32,
    ensures
        bit_read(f | (1u32 << i), j) == (bit_read(f, j) || i == j),
{
}

proof fn lemma_bit_shift(f: u32, k: u32, j: u32)
    by (bit_vector)
    requires
        1 <= k,
        k <= 31,
        j < 32,
    ensures
        bit_read((f << k) | (1u32 << ((k - 1) as u32)), j) == (j == k - 1 || (j >= k
            && bit_read(f, (j - k) as u32))),
{
}

proof fn lemma_bit_high(j: u32)
    by (bit_vector)
    requires
        j < 32,
    ensures
        bit_read(1u32 << 31u32, j) == (j == 31),
{
}

impl AckRecord {
    /// Whether this record has observed sequence number `s`.
    pub open spec fn seen(self, s: u16) -> bool {
        acked_by(self.last_seq, self.field, s)
    }

    /// How one observation changes a record: the newest value advances if
    /// `s` is newer, and afterwards exactly those sequence numbers are seen
    /// that were seen before or equal `s` — restricted to the new horizon,
    /// beyond which observations cannot be represented.
    pub open spec fn observe_rel(pre: AckRecord, s: u16, post: AckRecord) -> bool {
        &&& post.last_seq == if seq_newer(s, pre.last_seq) {
            s
        } else {
            pre.last_seq
        }
        &&& forall|x: u16|
            post.seen(x) == ((pre.seen(x) || x == s) && in_horizon(post.last_seq, x))
    }

    /// A fresh record: newest value 0, nothing behind it observed.
    pub fn new() -> (r: AckRecord)
        ensures
            r.last_seq == 0,
            r.field == 0,
    {
        AckRecord { last_seq: 0, field: 0 }
    }

    /// The `(last_seq, field)` pair, for embedding into an outbound header.
    pub fn snapshot(&self) -> (r: (u16, u32))
        ensures
            r.0 == self.last_seq,
            r.1 == self.field,
    {
        (self.last_seq, self.field)
    }

    /// Record that sequence number `seq` has been observed.
    pub fn observe(&mut self, seq: u16)
        ensures
            Self::observe_rel(*old(self), seq, *final(self)),
    {
        let last = self.last_seq;
        let d_new = delta(seq, last);
        if d_new != 0 && d_new <= 0x8000 {
            // `seq` is newer: shift the field by the distance travelled and
            // set the bit for the previous newest value if representable.
            let oldf = self.field;
            if d_new <= 31 {
                self.field = (oldf << (d_new as u32)) | (1u32 << ((d_new - 1) as u32));
            } else if d_new == 32 {
                self.field = 1u32 << 31u32;
            } else {
                self.field = 0;
            }
            self.last_seq = seq;
            proof {
                let pre = *old(self);
                let post = *self;
                let k = seq_delta(seq, pre.last_seq);
                assert forall|x: u16|
                    post.seen(x) == ((pre.seen(x) || x == seq) && in_horizon(post.last_seq, x))
                by {
                    let dn = seq_delta(seq, x);
                    let dd = seq_delta(pre.last_seq, x);
                    lemma_delta_add(seq, pre.last_seq, x);
                    lemma_delta_zero(seq, x);
                    lemma_delta_zero(pre.last_seq, x);
                    if x != seq && dn <= 32 {
                        if k <= 31 {
                            lemma_bit_shift(pre.field, k as u32, (dn - 1) as u32);
                        } else if k == 32 {
                            lemma_bit_high((dn - 1) as u32);
                        } else {
                            lemma_bit_zero((dn - 1) as u32);
                        }
                    }
                }
            }
        } else if d_new == 0 {
            // Already the newest observed value: nothing to record.
            proof {
                let pre = *old(self);
                assert forall|x: u16|
                    pre.seen(x) == ((pre.seen(x) || x == seq) && in_horizon(pre.last_seq, x))
                by {
                    lemma_delta_zero(seq, pre.last_seq);
                    lemma_delta_zero(pre.last_seq, x);
                }
            }
        } else {
            // `seq` is older than the newest observed value: set its bit if
            // it is still within the horizon, otherwise it cannot be
            // represented and the record is unchanged.
            let d_old = delta(last, seq);
            if d_old <= 32 {
                self.field = self.field | (1u32 << ((d_old - 1) as u32));
            }
            proof {
                let pre = *old(self);
                let post = *self;
                let dq = seq_delta(pre.last_seq, seq);
                lemma_delta_add(seq, pre.last_seq, seq);
                assert forall|x: u16|
                    post.seen(x) == ((pre.seen(x) || x == seq) && in_horizon(pre.last_seq, x))
                by {
                    let dd = seq_delta(pre.last_seq, x);
                    lemma_delta_zero(pre.last_seq, x);
                    if dd == dq {
                        crate::sequence::lemma_delta_injective(pre.last_seq, x, seq);
                    }
                    if dq <= 32 && dd >= 1 && dd <= 32 {
                        lemma_bit_or(pre.field, (dq - 1) as u32, (dd - 1) as u32);
                    }
                }
            }
        }
    }
}

} // verus!
