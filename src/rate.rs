//! Pacing the write of a fetched body: the rate setting as the user writes
//! it, and a limiter that cuts the body into chunks and says how long to
//! pause after each.
use vstd::prelude::*;
use crate::external::{lower_of, lowercase, trimmed, trim};
use crate::text::chars_of;

verus! {

/// Nanoseconds in one second.
pub const NANOS_PER_SEC: u64 = 1_000_000_000;

/// A decimal digit.
pub open spec fn is_digit(c: char) -> bool {
    '0' <= c && c <= '9'
}

/// The number that the decimal digits `s` write.
pub open spec fn digits_value(s: Seq<char>) -> nat
    decreases s.len(),
{
    if s.len() == 0 {
        0
    } else {
        digits_value(s.drop_last()) * 10 + (s.last() as nat - '0' as nat) as nat
    }
}

/// `s` without one leading `+`, if it has one.
pub open spec fn unsigned_part(s: Seq<char>) -> Seq<char> {
    if s.len() > 0 && s[0] == '+' {
        s.drop_first()
    } else {
        s
    }
}

/// Every character of `s` is a decimal digit.
pub open spec fn all_digits(s: Seq<char>) -> bool {
    forall|i: int| 0 <= i < s.len() ==> is_digit(#[trigger] s[i])
}

/// The `u32` that `s` writes in decimal, with an optional leading `+`, as
/// `u32::from_str` reads it.
pub open spec fn decimal_u32(s: Seq<char>) -> Option<nat> {
    let d = unsigned_part(s);
    if d.len() > 0 && all_digits(d) && digits_value(d) <= u32::MAX {
        Some(digits_value(d))
    } else {
        None
    }
}

/// A positive count of units, scaled to bytes; zero and unreadable counts
/// set no limit.
pub open spec fn scaled(count: Option<nat>, unit: nat) -> Option<nat> {
    match count {
        Some(n) => if n > 0 {
            Some(n * unit)
        } else {
            None
        },
        None => None,
    }
}

/// The rate in bytes per second that the trimmed, lower-case setting `t`
/// asks for: a count, optionally followed by `k` (kibibytes) or `m`
/// (mebibytes).
pub open spec fn rate_of(t: Seq<char>) -> Option<nat> {
    if t.len() > 0 && t.last() == 'k' {
        scaled(decimal_u32(t.drop_last()), 1024)
    } else if t.len() > 0 && t.last() == 'm' {
        scaled(decimal_u32(t.drop_last()), 1024 * 1024)
    } else {
        scaled(decimal_u32(t), 1)
    }
}

/// The view of an optional rate.
pub open spec fn rate_view(r: Option<u64>) -> Option<nat> {
    match r {
        Some(v) => Some(v as nat),
        None => None,
    }
}

/// Reads `cs[from..to]` as a decimal `u32`.
fn parse_decimal(cs: &Vec<char>, from: usize, to: usize) -> (r: Option<u64>)
    requires
        from <= to <= cs@.len(),
    ensures
        rate_view(r) == decimal_u32(cs@.subrange(from as int, to as int)),
{
    let ghost s = cs@.subrange(from as int, to as int);
    let mut start = from;
    if from < to && cs[from] == '+' {
        start = from + 1;
    }
    let ghost d = cs@.subrange(start as int, to as int);
    assert(d =~= unsigned_part(s));
    if start == to {
        return None;
    }
    let limit: u64 = 0xFFFF_FFFF;
    let mut acc: u64 = 0;
    let mut i: usize = start;
    assert(cs@.subrange(start as int, start as int).len() == 0);
    while i < to
        invariant
            from <= start <= i <= to <= cs@.len(),
            acc <= limit + 1,
            limit == 0xFFFF_FFFFu64,
            d == cs@.subrange(start as int, to as int),
            s == cs@.subrange(from as int, to as int),
            d == unsigned_part(s),
            forall|j: int| start <= j < i ==> is_digit(#[trigger] cs@[j]),
            acc as nat == if digits_value(cs@.subrange(start as int, i as int)) <= limit {
                digits_value(cs@.subrange(start as int, i as int))
            } else {
                limit as nat + 1
            },
        decreases to - i,
    {
        let c = cs[i];
        if !('0' <= c && c <= '9') {
            assert(d[i - start] == c);
            assert(!is_digit(d[i - start]));
            assert(!all_digits(d));
            assert(decimal_u32(s) is None);
            return None;
        }
        let ghost pre = cs@.subrange(start as int, i as int);
        let ghost next = cs@.subrange(start as int, i + 1);
        assert(next.drop_last() =~= pre);
        let v = acc * 10 + (c as u64 - '0' as u64);
        acc = if v > limit { limit + 1 } else { v };
        i = i + 1;
    }
    if acc > limit {
        None
    } else {
        assert forall|j: int| 0 <= j < d.len() implies is_digit(#[trigger] d[j]) by {
            assert(d[j] == cs@[start + j]);
        }
        Some(acc)
    }
}

/// The rate that a trimmed, lower-case setting asks for.
pub fn rate_from_text(t: &str) -> (r: Option<u64>)
    ensures
        rate_view(r) == rate_of(t@),
{
    let cs = chars_of(t);
    let n = cs.len();
    assert(cs@.subrange(0, n as int) =~= t@);
    if n > 0 && (cs[n - 1] == 'k' || cs[n - 1] == 'm') {
        assert(cs@.subrange(0, n - 1) =~= t@.drop_last());
        let unit: u64 = if cs[n - 1] == 'k' { 1024 } else { 1024 * 1024 };
        match parse_decimal(&cs, 0, n - 1) {
            Some(v) => if v > 0 {
                assert(v * unit <= 0xFFFF_FFFFu64 * 1048576) by (nonlinear_arith)
                    requires
                        v <= 0xFFFF_FFFFu64,
                        unit <= 1048576,
                ;
                Some(v * unit)
            } else {
                None
            },
            None => None,
        }
    } else {
        match parse_decimal(&cs, 0, n) {
            Some(v) => if v > 0 {
                Some(v)
            } else {
                None
            },
            None => None,
        }
    }
}

/// Reads a rate setting such as `500`, `20k` or ` 2M `: white space around
/// it and the case of the suffix do not matter. A setting that cannot be
/// read, or that asks for zero bytes, sets no limit.
pub fn parse_rate_limit(s: &str) -> (r: Option<u64>)
    ensures
        rate_view(r) == rate_of(lower_of(trimmed(s@))),
{
    let t = trim(s);
    let l = lowercase(t.as_str());
    rate_from_text(l.as_str())
}

/// Bytes written in one step with `remaining` bytes left: all of them
/// without a limit, else at most one second's worth.
pub open spec fn chunk_len(remaining: nat, rate: Option<u64>) -> nat {
    match rate {
        Some(r) => if r < remaining {
            r as nat
        } else {
            remaining
        },
        None => remaining,
    }
}

/// Nanoseconds to pause after writing `n` bytes: `n / rate` seconds, and
/// none without a limit or once the body is complete.
pub open spec fn pause_nanos(n: nat, rate: Option<u64>, finished: bool) -> nat {
    match rate {
        Some(r) => if finished || r == 0 {
            0
        } else {
            n * NANOS_PER_SEC as nat / r as nat
        },
        None => 0,
    }
}

/// The sizes of the chunks in which `remaining` bytes are written, each
/// chunk taken whole.
pub open spec fn chunk_plan(remaining: nat, rate: Option<u64>) -> Seq<nat>
    decreases remaining,
{
    if remaining == 0 || rate == Some(0u64) {
        Seq::empty()
    } else {
        seq![chunk_len(remaining, rate)] + chunk_plan((remaining - chunk_len(remaining, rate)) as nat, rate)
    }
}

/// The state of one paced write: `written` of `total` bytes are out, at
/// `rate` bytes per second, or as fast as possible without a rate.
pub struct RateLimiter {
    pub total: usize,
    pub written: usize,
    pub rate: Option<u64>,
}

impl RateLimiter {
    /// No more is written than the body holds, and a rate is positive.
    pub open spec fn wf(&self) -> bool {
        self.written <= self.total && self.rate != Some(0u64)
    }

    /// Starts the write of a body of `total` bytes.
    pub fn new(total: usize, rate: Option<u64>) -> (r: Self)
        requires
            rate != Some(0u64),
        ensures
            r.wf(),
            r.total == total,
            r.written == 0,
            r.rate == rate,
    {
        RateLimiter { total, written: 0, rate }
    }

    /// Whether the whole body is out.
    pub fn is_done(&self) -> (r: bool)
        ensures
            r == (self.written == self.total),
    {
        self.written == self.total
    }

    /// The range of the body to write next.
    pub fn next_chunk(&self) -> (r: (usize, usize))
        requires
            self.wf(),
        ensures
            r.0 == self.written,
            r.1 == self.written + chunk_len((self.total - self.written) as nat, self.rate),
    {
        let remaining = self.total - self.written;
        let len = match self.rate {
            Some(r) => if r < remaining as u64 {
                r as usize
            } else {
                remaining
            },
            None => remaining,
        };
        (self.written, self.written + len)
    }

    /// Records that `n` more bytes are out, and says how many nanoseconds to
    /// pause before the next chunk.
    pub fn advance(&mut self, n: usize) -> (pause: u64)
        requires
            old(self).wf(),
            n <= chunk_len((old(self).total - old(self).written) as nat, old(self).rate),
        ensures
            final(self).wf(),
            final(self).total == old(self).total,
            final(self).rate == old(self).rate,
            final(self).written == old(self).written + n,
            pause as nat == pause_nanos(n as nat, old(self).rate, final(self).written == final(self).total),
    {
        self.written = self.written + n;
        match self.rate {
            Some(r) => if self.written == self.total {
                0
            } else {
                let p: u128 = (n as u128) * (NANOS_PER_SEC as u128) / (r as u128);
                assert((n as int) * 1_000_000_000int / (r as int) <= 1_000_000_000int) by (nonlinear_arith)
                    requires
                        n <= r,
                        r > 0,
                ;
                p as u64
            },
            None => 0,
        }
    }

    /// Bytes written so far and bytes in all, for a progress display.
    pub fn progress(&self) -> (r: (usize, usize))
        ensures
            r == (self.written, self.total),
    {
        (self.written, self.total)
    }
}

/// The plan is what a limiter does when each chunk it offers is written
/// whole: its first chunk is the one offered, and the rest is the plan for
/// what remains.
pub proof fn lemma_plan_follows_limiter(remaining: nat, rate: Option<u64>)
    requires
        remaining > 0,
        rate != Some(0u64),
    ensures
        chunk_len(remaining, rate) > 0,
        chunk_plan(remaining, rate) == seq![chunk_len(remaining, rate)] + chunk_plan((remaining - chunk_len(remaining, rate)) as nat, rate),
{
}

/// Without a limit a body goes out as one chunk, with no pause.
pub proof fn lemma_unlimited_single_chunk(total: nat, finished: bool)
    requires
        total > 0,
    ensures
        chunk_plan(total, None) == seq![total],
        pause_nanos(total, None, finished) == 0,
{
    assert(chunk_plan(0, None) =~= Seq::<nat>::empty());
    assert(chunk_plan(total, None) =~= seq![total]);
}

/// With a limit of `rate` bytes per second, `total` bytes go out in as many
/// chunks as whole or started seconds of `rate` bytes; every chunk but the
/// last is exactly `rate` bytes, and a pause after a full chunk lasts one
/// second.
pub proof fn lemma_limited_plan(total: nat, rate: u64)
    requires
        total > 0,
        rate > 0,
    ensures
        ((chunk_plan(total, Some(rate)).len() - 1) * rate as int) < total,
        total <= chunk_plan(total, Some(rate)).len() * rate as int,
        forall|i: int| 0 <= i < chunk_plan(total, Some(rate)).len() - 1 ==> #[trigger] chunk_plan(total, Some(rate))[i] == rate as nat,
        pause_nanos(rate as nat, Some(rate), false) == NANOS_PER_SEC as nat,
    decreases total,
{
    let p = chunk_plan(total, Some(rate));
    if total <= rate {
        assert(chunk_plan(0, Some(rate)) =~= Seq::<nat>::empty());
        assert(p =~= seq![total]);
    } else {
        let rest = chunk_plan((total - rate) as nat, Some(rate));
        lemma_limited_plan((total - rate) as nat, rate);
        assert(p =~= seq![rate as nat] + rest);
        let k = rest.len() as int;
        assert((k - 1) * rate < total - rate ==> k * rate < total) by (nonlinear_arith);
        assert(total - rate <= k * rate ==> total <= (k + 1) * rate) by (nonlinear_arith);
        assert forall|i: int| 0 <= i < p.len() - 1 implies #[trigger] p[i] == rate as nat by {
            if i > 0 {
                assert(p[i] == rest[i - 1]);
            }
        }
    }
    assert(rate as nat * NANOS_PER_SEC as nat / rate as nat == NANOS_PER_SEC as nat) by (nonlinear_arith)
        requires
            rate > 0,
    ;
}

} // verus!
