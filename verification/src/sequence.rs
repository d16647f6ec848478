//! Wrap-aware comparison and distance of 16-bit sequence counters.
//!
//! Sequence numbers wrap by arithmetic overflow, so ordering is defined
//! modulo 2^16 by the half-range rule: `a` is newer than `b` iff the
//! forward distance `(a - b) mod 2^16` lies in `(0, 2^15]`.

use vstd::prelude::*;

verus! {

/// Forward distance from `b` to `a`, modulo 2^16.
pub open spec fn seq_delta(a: u16, b: u16) -> u16 {
    if a >= b {
        (a - b) as u16
    } else {
        (a - b + 0x10000) as u16
    }
}

/// The half-range rule: `a` is newer than `b` iff the forward distance
/// from `b` to `a` lies in `(0, 2^15]`.
pub open spec fn seq_newer(a: u16, b: u16) -> bool {
    seq_delta(a, b) != 0 && seq_delta(a, b) <= 0x8000
}

/// Wrap-aware signed distance from `b` to `a`: the representative of
/// `a - b` modulo 2^16 that lies in `(-2^15, 2^15]`.
pub open spec fn seq_distance(a: u16, b: u16) -> int {
    if seq_delta(a, b) <= 0x8000 {
        seq_delta(a, b) as int
    } else {
        seq_delta(a, b) - 0x10000
    }
}

/// Forward distance from `b` to `a`, modulo 2^16.
pub fn delta(a: u16, b: u16) -> (d: u16)
    ensures
        d == seq_delta(a, b),
{
    if a >= b {
        a - b
    } else {
        (0xffffu16 - b) + a + 1
    }
}

/// Whether `a` is newer than `b` under the half-range rule.
pub fn is_newer(a: u16, b: u16) -> (r: bool)
    ensures
        r == seq_newer(a, b),
{
    let d = delta(a, b);
    d != 0 && d <= 0x8000
}

/// Wrap-aware signed distance from `b` to `a`.
pub fn distance(a: u16, b: u16) -> (r: i32)
    ensures
        r == seq_distance(a, b),
{
    let d = delta(a, b);
    if d <= 0x8000 {
        d as i32
    } else {
        (d as i32) - 0x10000
    }
}

/// The successor of a sequence number, wrapping at the end of the space.
pub open spec fn wrap_inc(s: u16) -> u16 {
    if s == 0xffff {
        0
    } else {
        (s + 1) as u16
    }
}

/// The forward distance is zero exactly between equal sequence numbers.
pub proof fn lemma_delta_zero(a: u16, b: u16)
    ensures
        (seq_delta(a, b) == 0) == (a == b),
{
}

/// Forward distances compose modulo 2^16.
pub proof fn lemma_delta_add(a: u16, b: u16, c: u16)
    ensures
        seq_delta(a, c) as int == if seq_delta(a, b) + seq_delta(b, c) < 0x10000 {
            seq_delta(a, b) + seq_delta(b, c)
        } else {
            seq_delta(a, b) + seq_delta(b, c) - 0x10000
        },
{
}

/// From a fixed reference point, distinct sequence numbers have distinct
/// forward distances.
pub proof fn lemma_delta_injective(l: u16, s1: u16, s2: u16)
    requires
        seq_delta(l, s1) == seq_delta(l, s2),
    ensures
        s1 == s2,
{
}

/// Newness is antisymmetric: of two distinct sequence numbers whose
/// forward distance is not exactly half the space, exactly one is newer
/// than the other.
pub proof fn lemma_newer_antisymmetric(a: u16, b: u16)
    requires
        a != b,
        seq_delta(a, b) != 0x8000,
    ensures
        seq_newer(a, b) != seq_newer(b, a),
{
    assert(seq_delta(a, b) + seq_delta(b, a) == 0x10000);
}

} // verus!
