//! Endpoint identity: an IPv4 address and port, with a verified textual
//! parser for the usual `a.b.c.d:port` notation.
//!
//! The accepted notation is four decimal octets (`0` to `255`) separated by
//! dots, a colon, and a decimal port (`0` to `65535`); each number is written
//! without leading zeros.

use vstd::prelude::*;

verus! {

/// Identity of a remote endpoint: IPv4 address and port.
#[derive(PartialEq, Eq, Structural, Clone, Copy, Hash, Debug)]
pub struct SocketAddr {
    pub a: u8,
    pub b: u8,
    pub c: u8,
    pub d: u8,
    pub port: u16,
}

/// Whether `c` is a decimal digit.
pub open spec fn is_digit(c: char) -> bool {
    '0' <= c && c <= '9'
}

/// Numeric value of a decimal digit.
pub open spec fn digit_val(c: char) -> int {
    c as int - '0' as int
}

/// Whether every character of `s` is a decimal digit.
pub open spec fn all_digits(s: Seq<char>) -> bool {
    forall|i: int| 0 <= i < s.len() ==> is_digit(s[i])
}

/// Value of `s` read as a decimal number, most significant digit first.
pub open spec fn num_val(s: Seq<char>) -> int
    decreases s.len(),
{
    if s.len() == 0 {
        0
    } else {
        num_val(s.drop_last()) * 10 + digit_val(s.last())
    }
}

/// Whether `s` is a decimal numeral without leading zeros whose value is at
/// most `max`.
pub open spec fn is_numeral(s: Seq<char>, max: int) -> bool {
    &&& 1 <= s.len()
    &&& all_digits(s)
    &&& (s.len() == 1 || s[0] != '0')
    &&& num_val(s) <= max
}

/// Index of the first occurrence of `c` in `s`, or `s.len()` if absent.
pub open spec fn find_first(s: Seq<char>, c: char) -> int
    decreases s.len(),
{
    if s.len() == 0 {
        0
    } else if s[0] == c {
        0
    } else {
        1 + find_first(s.drop_first(), c)
    }
}

/// The socket address denoted by `s`, if `s` consists of four dot-separated
/// decimal octets, a colon, and a decimal port, all without leading zeros.
pub open spec fn spec_parse_addr(s: Seq<char>) -> Option<SocketAddr> {
    let i1 = find_first(s, '.');
    if i1 == s.len() {
        None
    } else {
        let o1 = s.take(i1);
        let r1 = s.skip(i1 + 1);
        let i2 = find_first(r1, '.');
        if i2 == r1.len() {
            None
        } else {
            let o2 = r1.take(i2);
            let r2 = r1.skip(i2 + 1);
            let i3 = find_first(r2, '.');
            if i3 == r2.len() {
                None
            } else {
                let o3 = r2.take(i3);
                let r3 = r2.skip(i3 + 1);
                let i4 = find_first(r3, ':');
                if i4 == r3.len() {
                    None
                } else {
                    let o4 = r3.take(i4);
                    let p = r3.skip(i4 + 1);
                    if is_numeral(o1, 255) && is_numeral(o2, 255) && is_numeral(o3, 255)
                        && is_numeral(o4, 255) && is_numeral(p, 65535) {
                        Some(
                            SocketAddr {
                                a: num_val(o1) as u8,
                                b: num_val(o2) as u8,
                                c: num_val(o3) as u8,
                                d: num_val(o4) as u8,
                                port: num_val(p) as u16,
                            },
                        )
                    } else {
                        None
                    }
                }
            }
        }
    }
}

pub open spec fn pow10(n: nat) -> int
    decreases n,
{
    if n == 0 {
        1
    } else {
        10 * pow10((n - 1) as nat)
    }
}

proof fn lemma_pow10_mono(m: nat, n: nat)
    requires
        m <= n,
    ensures
        pow10(m) <= pow10(n),
        1 <= pow10(m),
    decreases n,
{
    if m < n {
        lemma_pow10_mono(m, (n - 1) as nat);
    } else if n > 0 {
        lemma_pow10_mono((m - 1) as nat, (n - 1) as nat);
    }
}

proof fn lemma_num_val_bounds(s: Seq<char>)
    requires
        all_digits(s),
    ensures
        0 <= num_val(s),
        num_val(s) < pow10(s.len()),
    decreases s.len(),
{
    if s.len() > 0 {
        assert(all_digits(s.drop_last())) by {
            assert(forall|i: int| 0 <= i < s.len() - 1 ==> s.drop_last()[i] == s[i]);
        }
        lemma_num_val_bounds(s.drop_last());
    }
}

proof fn lemma_num_val_first(s: Seq<char>)
    requires
        all_digits(s),
        1 <= s.len(),
        s[0] != '0',
    ensures
        num_val(s) >= pow10((s.len() - 1) as nat),
    decreases s.len(),
{
    if s.len() == 1 {
        assert(digit_val(s[0]) >= 1);
    } else {
        assert(all_digits(s.drop_last())) by {
            assert(forall|i: int| 0 <= i < s.len() - 1 ==> s.drop_last()[i] == s[i]);
        }
        lemma_num_val_first(s.drop_last());
        assert(is_digit(s.last()));
        assert(num_val(s.drop_last()) >= pow10((s.len() - 2) as nat));
        assert(pow10((s.len() - 1) as nat) == 10 * pow10((s.len() - 2) as nat));
    }
}

proof fn lemma_find_first_props(s: Seq<char>, c: char)
    ensures
        0 <= find_first(s, c) <= s.len(),
        find_first(s, c) < s.len() ==> s[find_first(s, c)] == c,
        forall|j: int| 0 <= j < find_first(s, c) ==> s[j] != c,
    decreases s.len(),
{
    if s.len() > 0 && s[0] != c {
        lemma_find_first_props(s.drop_first(), c);
        assert(forall|j: int| 1 <= j < s.len() ==> s[j] == s.drop_first()[j - 1]);
    }
}

/// Index of the first occurrence of `c` in `s` at or after `from`, as an
/// absolute index; `n` if there is none.
fn find_from(s: &str, n: usize, from: usize, c: char) -> (i: usize)
    requires
        from <= n,
        n == s@.len(),
    ensures
        from <= i <= n,
        i - from == find_first(s@.skip(from as int), c),
{
    let mut j = from;
    while j < n
        invariant
            from <= j <= n,
            n == s@.len(),
            forall|k: int| from <= k < j ==> s@[k] != c,
        decreases n - j,
    {
        let ch = s.get_char(j);
        if ch == c {
            proof {
                let t = s@.skip(from as int);
                lemma_find_first_props(t, c);
                let ff = find_first(t, c);
                assert(forall|k: int| 0 <= k < t.len() ==> t[k] == s@[from + k]);
                assert(t[j - from] == c);
                if ff < j - from {
                    assert(s@[from + ff] != c);
                    assert(t[ff] == c);
                }
            }
            return j;
        }
        j += 1;
    }
    proof {
        let t = s@.skip(from as int);
        lemma_find_first_props(t, c);
        let ff = find_first(t, c);
        assert(forall|k: int| 0 <= k < t.len() ==> t[k] == s@[from + k]);
        if ff < n - from {
            assert(t[ff] == c);
            assert(s@[from + ff] == c);
        }
    }
    n
}

/// Value of the decimal numeral standing in `s` between `start` and `end`,
/// if it is one without leading zeros and with value at most `max`.
fn parse_num(s: &str, n: usize, start: usize, end: usize, max: u32) -> (r: Option<u32>)
    requires
        start <= end <= n,
        n == s@.len(),
        max <= 0xffff,
    ensures
        match r {
            Some(v) => is_numeral(s@.subrange(start as int, end as int), max as int) && v
                == num_val(s@.subrange(start as int, end as int)) && v <= max,
            None => !is_numeral(s@.subrange(start as int, end as int), max as int),
        },
{
    let ghost seg = s@.subrange(start as int, end as int);
    let len = end - start;
    if len == 0 {
        return None;
    }
    if len > 1 {
        let first = s.get_char(start);
        if first == '0' {
            proof {
                assert(seg[0] == s@[start as int]);
            }
            return None;
        }
    }
    if len > 5 {
        proof {
            if all_digits(seg) && (seg.len() == 1 || seg[0] != '0') {
                lemma_num_val_first(seg);
                lemma_pow10_mono(5, (seg.len() - 1) as nat);
                assert(pow10(0) == 1);
                assert(pow10(1) == 10);
                assert(pow10(2) == 100);
                assert(pow10(3) == 1000);
                assert(pow10(4) == 10000);
                assert(pow10(5) == 100000);
            }
        }
        return None;
    }
    let mut acc: u32 = 0;
    let mut j = start;
    while j < end
        invariant
            start <= j <= end,
            end <= n == s@.len(),
            end - start <= 5,
            seg == s@.subrange(start as int, end as int),
            all_digits(seg.take(j - start)),
            acc == num_val(seg.take(j - start)),
        decreases end - j,
    {
        let ch = s.get_char(j);
        if ch < '0' || ch > '9' {
            proof {
                assert(seg[j - start] == s@[j as int]);
            }
            return None;
        }
        proof {
            lemma_num_val_bounds(seg.take(j - start));
            lemma_pow10_mono((j - start) as nat, 4);
            assert(pow10(0) == 1);
            assert(pow10(1) == 10);
            assert(pow10(2) == 100);
            assert(pow10(3) == 1000);
            assert(pow10(4) == 10000);
            assert(seg.take(j - start + 1).drop_last() =~= seg.take(j - start));
            assert(seg.take(j - start + 1).last() == s@[j as int]);
            assert(seg.take(j - start + 1) =~= seg.take(j - start).push(seg[j - start]));
            assert(seg[j - start] == s@[j as int]);
        }
        acc = acc * 10 + (ch as u32 - '0' as u32);
        j += 1;
    }
    proof {
        assert(seg.take(end - start) =~= seg);
    }
    if acc > max {
        return None;
    }
    Some(acc)
}

impl SocketAddr {
    /// Build a socket address from its four octets and port.
    pub fn new(a: u8, b: u8, c: u8, d: u8, port: u16) -> (r: SocketAddr)
        ensures
            r == (SocketAddr { a, b, c, d, port }),
    {
        SocketAddr { a, b, c, d, port }
    }

    /// Parse the `a.b.c.d:port` notation; yields the denoted address
    /// exactly when `s` conforms to the grammar above.
    #[verifier::rlimit(60)]
    pub fn parse(s: &str) -> (r: Option<SocketAddr>)
        ensures
            r == spec_parse_addr(s@),
    {
        let n = s.unicode_len();
        proof {
            assert(s@.skip(0) =~= s@);
        }
        let i1 = find_from(s, n, 0, '.');
        if i1 == n {
            return None;
        }
        let ghost r1 = s@.skip(i1 + 1);
        let i2 = find_from(s, n, i1 + 1, '.');
        proof {
            assert(s@.skip(i1 + 1) == r1);
        }
        if i2 == n {
            proof {
                assert(i2 - (i1 + 1) == find_first(r1, '.'));
                assert(find_first(r1, '.') == r1.len());
            }
            return None;
        }
        let ghost r2 = r1.skip(i2 - i1);
        let i3 = find_from(s, n, i2 + 1, '.');
        proof {
            assert(r2 =~= s@.skip(i2 + 1));
            assert(i3 - (i2 + 1) == find_first(r2, '.'));
        }
        if i3 == n {
            proof {
                assert(find_first(r2, '.') == r2.len());
            }
            return None;
        }
        let ghost r3 = r2.skip(i3 - i2);
        let i4 = find_from(s, n, i3 + 1, ':');
        proof {
            assert(r3 =~= s@.skip(i3 + 1));
            assert(i4 - (i3 + 1) == find_first(r3, ':'));
        }
        if i4 == n {
            proof {
                assert(find_first(r3, ':') == r3.len());
            }
            return None;
        }
        proof {
            assert(s@.take(i1 as int) =~= s@.subrange(0, i1 as int));
            assert(r1.take(i2 - (i1 + 1)) =~= s@.subrange(i1 + 1, i2 as int));
            assert(r2.take(i3 - (i2 + 1)) =~= s@.subrange(i2 + 1, i3 as int));
            assert(r3.take(i4 - (i3 + 1)) =~= s@.subrange(i3 + 1, i4 as int));
            assert(r3.skip(i4 - i3) =~= s@.subrange(i4 + 1, n as int));
        }
        let v1 = match parse_num(s, n, 0, i1, 255) {
            Some(v) => v,
            None => { return None; },
        };
        let v2 = match parse_num(s, n, i1 + 1, i2, 255) {
            Some(v) => v,
            None => { return None; },
        };
        let v3 = match parse_num(s, n, i2 + 1, i3, 255) {
            Some(v) => v,
            None => { return None; },
        };
        let v4 = match parse_num(s, n, i3 + 1, i4, 255) {
            Some(v) => v,
            None => { return None; },
        };
        let port = match parse_num(s, n, i4 + 1, n, 65535) {
            Some(v) => v,
            None => { return None; },
        };
        Some(
            SocketAddr {
                a: v1 as u8,
                b: v2 as u8,
                c: v3 as u8,
                d: v4 as u8,
                port: port as u16,
            },
        )
    }
}

} // verus!
