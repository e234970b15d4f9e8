//! Exact musical time: ticks, durations, time signatures and grids.
//!
//! A beat is divided into `TICKS_PER_BEAT` indivisible ticks. The constant
//! is `2^8 * 3^2 * 5^2 * 7^2`, so halves, thirds, quarters, quintuplets and
//! septuplets of a beat are all whole numbers of ticks and time arithmetic
//! is exact: no value here ever drifts the way repeated floating-point
//! additions would.

use crate::numeric::{div_i64, lemma_tdiv_mul_bound, lemma_tdiv_pos, tdiv};
use vstd::arithmetic::mul::{lemma_mul_inequality, lemma_mul_upper_bound};
use vstd::math::abs;
use vstd::prelude::*;

verus! {

/// Number of ticks in one beat: `2^8 * 3^2 * 5^2 * 7^2`.
pub const TICKS_PER_BEAT: i64 = 2822400;

/// Magnitude bound on tick counts accepted by the functions that multiply
/// tick values; roughly 2^55 ticks, far beyond any musical use.
pub const TICK_LIMIT: i64 = 0x80_0000_0000_0000;

/// An elapsed span of musical time, as a signed tick count.
#[derive(Debug, Default, Clone, Copy, PartialEq, Eq, Structural, Hash)]
pub struct Duration {
    pub ticks: i64,
}

/// A point in musical time, as a signed tick count from the origin.
#[derive(Debug, Default, Clone, Copy, PartialEq, Eq, Structural, Hash)]
pub struct Time {
    pub ticks: i64,
}

/// A half-open span of musical time `[start, end)`.
#[derive(Debug, Default, Clone, Copy, PartialEq, Eq, Structural, Hash)]
pub struct TimeRange {
    pub start: Time,
    pub end: Time,
}

impl Duration {
    pub fn from_ticks(ticks: i64) -> (d: Duration)
        ensures
            d.ticks == ticks,
    {
        Duration { ticks }
    }

    /// The zero-length span.
    pub fn zero() -> (d: Duration)
        ensures
            d.ticks == 0,
    {
        Duration { ticks: 0 }
    }

    /// A whole note: four beats.
    pub fn whole() -> (d: Duration)
        ensures
            d.ticks == 4 * TICKS_PER_BEAT,
    {
        Duration { ticks: 4 * TICKS_PER_BEAT }
    }

    /// A half note: two beats.
    pub fn half() -> (d: Duration)
        ensures
            d.ticks == 2 * TICKS_PER_BEAT,
    {
        Duration { ticks: 2 * TICKS_PER_BEAT }
    }

    /// A quarter note: one beat.
    pub fn quarter() -> (d: Duration)
        ensures
            d.ticks == TICKS_PER_BEAT,
    {
        Duration { ticks: TICKS_PER_BEAT }
    }

    /// A quarter-note triplet: one third of a beat, exactly.
    pub fn quarter_triplet() -> (d: Duration)
        ensures
            d.ticks == TICKS_PER_BEAT / 3,
    {
        Duration { ticks: 940800 }
    }

    /// An eighth note: half a beat.
    pub fn eighth() -> (d: Duration)
        ensures
            d.ticks == TICKS_PER_BEAT / 2,
    {
        Duration { ticks: 1411200 }
    }

    /// An eighth-note triplet: one third of a beat, exactly.
    pub fn eighth_triplet() -> (d: Duration)
        ensures
            d.ticks == TICKS_PER_BEAT / 3,
    {
        Duration { ticks: 940800 }
    }

    /// A sixteenth note: a quarter of a beat.
    pub fn sixteenth() -> (d: Duration)
        ensures
            d.ticks == TICKS_PER_BEAT / 4,
    {
        Duration { ticks: 705600 }
    }

    /// A sixteenth-note triplet: one sixth of a beat, exactly.
    pub fn sixteenth_triplet() -> (d: Duration)
        ensures
            d.ticks == TICKS_PER_BEAT / 6,
    {
        Duration { ticks: 470400 }
    }

    /// A thirty-second note: an eighth of a beat.
    pub fn thirty_second() -> (d: Duration)
        ensures
            d.ticks == TICKS_PER_BEAT / 8,
    {
        Duration { ticks: 352800 }
    }

    /// The span of opposite sign.
    pub fn neg(self) -> (r: Duration)
        requires
            self.ticks > i64::MIN,
        ensures
            r.ticks == -self.ticks,
    {
        Duration { ticks: -self.ticks }
    }

    /// Exact sum of two spans.
    pub fn plus(self, rhs: Duration) -> (r: Duration)
        requires
            i64::MIN <= self.ticks + rhs.ticks <= i64::MAX,
        ensures
            r.ticks == self.ticks + rhs.ticks,
    {
        Duration { ticks: self.ticks + rhs.ticks }
    }

    /// Exact difference of two spans.
    pub fn minus(self, rhs: Duration) -> (r: Duration)
        requires
            i64::MIN <= self.ticks - rhs.ticks <= i64::MAX,
        ensures
            r.ticks == self.ticks - rhs.ticks,
    {
        Duration { ticks: self.ticks - rhs.ticks }
    }

    /// Exact scaling by an integer.
    pub fn times(self, rhs: i64) -> (r: Duration)
        requires
            i64::MIN <= self.ticks * rhs <= i64::MAX,
        ensures
            r.ticks == self.ticks * rhs,
    {
        Duration { ticks: self.ticks * rhs }
    }

    /// Division by an integer, truncating toward zero as Rust's `/` does.
    pub fn div_int(self, rhs: i64) -> (r: Duration)
        requires
            rhs != 0,
            self.ticks > i64::MIN,
            rhs > i64::MIN,
        ensures
            r.ticks == tdiv(self.ticks as int, rhs as int),
    {
        Duration { ticks: div_i64(self.ticks, rhs) }
    }

    /// How many times `rhs` fits into `self`, truncating toward zero.
    pub fn div_dur(self, rhs: Duration) -> (r: i64)
        requires
            rhs.ticks != 0,
            self.ticks > i64::MIN,
            rhs.ticks > i64::MIN,
        ensures
            r == tdiv(self.ticks as int, rhs.ticks as int),
    {
        div_i64(self.ticks, rhs.ticks)
    }

    /// How many times `other` fits into `self`, rounding any remainder up:
    /// the result is `(self + other - 1) / other` with truncating division,
    /// which for a non-negative `self` is the ceiling of `self / other`.
    pub fn div_and_ceil(self, other: Duration) -> (r: i64)
        requires
            other.ticks > 0,
            i64::MIN < self.ticks + other.ticks - 1 <= i64::MAX,
        ensures
            r == tdiv(self.ticks + other.ticks - 1, other.ticks as int),
            self.ticks >= 0 ==> other.ticks * r >= self.ticks
                && other.ticks * (r - 1) < self.ticks,
    {
        let r = (self.ticks + (other.ticks - 1)) / other.ticks;
        proof {
            if self.ticks >= 0 {
                lemma_tdiv_pos(self.ticks + other.ticks - 1, other.ticks as int);
                assert(other.ticks * (r - 1) == other.ticks * r - other.ticks)
                    by (nonlinear_arith);
            }
        }
        r
    }
}

impl Time {
    /// The origin of musical time.
    pub fn zero() -> (t: Time)
        ensures
            t.ticks == 0,
    {
        Time { ticks: 0 }
    }

    pub fn from_ticks(ticks: i64) -> (t: Time)
        ensures
            t.ticks == ticks,
    {
        Time { ticks }
    }

    /// The point `rhs` later than `self`.
    pub fn plus(self, rhs: Duration) -> (r: Time)
        requires
            i64::MIN <= self.ticks + rhs.ticks <= i64::MAX,
        ensures
            r.ticks == self.ticks + rhs.ticks,
    {
        Time { ticks: self.ticks + rhs.ticks }
    }

    /// The point `rhs` earlier than `self`.
    pub fn minus(self, rhs: Duration) -> (r: Time)
        requires
            i64::MIN <= self.ticks - rhs.ticks <= i64::MAX,
        ensures
            r.ticks == self.ticks - rhs.ticks,
    {
        Time { ticks: self.ticks - rhs.ticks }
    }

    /// The span from `rhs` to `self`.
    pub fn minus_time(self, rhs: Time) -> (r: Duration)
        requires
            i64::MIN <= self.ticks - rhs.ticks <= i64::MAX,
        ensures
            r.ticks == self.ticks - rhs.ticks,
    {
        Duration { ticks: self.ticks - rhs.ticks }
    }
}

/// A bar structure: `numerator` subdivisions per bar, each subdivision a
/// `1 / subdivision` fraction of a whole note (so `subdivision` beats-per-
/// whole in the usual notation).
#[derive(Debug, Clone, Copy, PartialEq, Eq, Structural, Hash)]
pub struct TimeSignature {
    pub numerator: u8,
    pub subdivision: u8,
}

impl Default for TimeSignature {
    /// Common time, 4/4.
    fn default() -> (r: Self)
        ensures
            r.numerator == 4,
            r.subdivision == 4,
    {
        TimeSignature { numerator: 4, subdivision: 4 }
    }
}

impl From<(u8, u8)> for TimeSignature {
    /// A signature from its `(numerator, denominator)` notation.
    fn from(parts: (u8, u8)) -> (r: TimeSignature) {
        TimeSignature { numerator: parts.0, subdivision: parts.1 }
    }
}

impl vstd::std_specs::convert::FromSpecImpl<(u8, u8)> for TimeSignature {
    open spec fn obeys_from_spec() -> bool {
        true
    }

    open spec fn from_spec(parts: (u8, u8)) -> TimeSignature {
        TimeSignature { numerator: parts.0, subdivision: parts.1 }
    }
}

impl TimeSignature {
    /// Both parts of a meaningful signature are at least one.
    pub open spec fn wf(self) -> bool {
        1 <= self.numerator && 1 <= self.subdivision
    }

    /// Tick length of one subdivision: `TICKS_PER_BEAT / subdivision`.
    pub open spec fn subdivision_ticks(self) -> int {
        TICKS_PER_BEAT as int / self.subdivision as int
    }

    /// Tick length of one bar.
    pub open spec fn bar_ticks(self) -> int {
        self.subdivision_ticks() * self.numerator
    }

    /// Number of bars needed to cover the span from `start` to `end`:
    /// the difference divided by the bar length, rounded up.
    pub open spec fn num_bars(self, start: Time, end: Time) -> int {
        tdiv(end.ticks - start.ticks + self.bar_ticks() - 1, self.bar_ticks())
    }

    pub fn new(numerator: u8, subdivision: u8) -> (r: Self)
        ensures
            r.numerator == numerator,
            r.subdivision == subdivision,
    {
        TimeSignature { numerator, subdivision }
    }

    pub fn subdivision_duration(&self) -> (d: Duration)
        requires
            self.wf(),
        ensures
            d.ticks == self.subdivision_ticks(),
            1 <= d.ticks <= TICKS_PER_BEAT,
    {
        proof {
            lemma_signature_bounds(*self);
        }
        Duration { ticks: TICKS_PER_BEAT / (self.subdivision as i64) }
    }

    pub fn bar_length(&self) -> (d: Duration)
        requires
            self.wf(),
        ensures
            d.ticks == self.bar_ticks(),
            1 <= d.ticks <= 0x4000_0000,
    {
        proof {
            lemma_signature_bounds(*self);
        }
        let sub = self.subdivision_duration();
        Duration { ticks: sub.ticks * (self.numerator as i64) }
    }

    /// The start times of the bars that cover `start..end`: bar `i` begins
    /// at `start + i * bar_length`, and there are enough bars to reach `end`.
    pub fn bars_in(&self, start: Time, end: Time) -> (bars: Vec<Time>)
        requires
            self.wf(),
            -TICK_LIMIT <= start.ticks <= TICK_LIMIT,
            -TICK_LIMIT <= end.ticks <= TICK_LIMIT,
        ensures
            bars@.len() == if self.num_bars(start, end) >= 0 {
                self.num_bars(start, end)
            } else {
                0
            },
            forall|j: int|
                0 <= j < bars@.len() ==> bars@[j].ticks == start.ticks + j * self.bar_ticks(),
    {
        let bl = self.bar_length();
        let d = end.ticks - start.ticks;
        let nb = (d + (bl.ticks - 1)) / bl.ticks;
        proof {
            if d + (bl.ticks - 1) >= 0 {
                lemma_tdiv_pos(d + bl.ticks - 1, bl.ticks as int);
            } else {
                lemma_tdiv_pos(-(d + bl.ticks - 1), bl.ticks as int);
                assert(nb <= 0);
            }
        }
        let ghost blg: int = bl.ticks as int;
        let mut bars: Vec<Time> = Vec::new();
        let mut i: i64 = 0;
        let mut t: i64 = start.ticks;
        while i < nb
            invariant
                1 <= blg <= 0x4000_0000,
                blg == self.bar_ticks(),
                bl.ticks == blg,
                -TICK_LIMIT <= start.ticks <= TICK_LIMIT,
                d == end.ticks - start.ticks,
                -TICK_LIMIT <= end.ticks <= TICK_LIMIT,
                nb == self.num_bars(start, end),
                nb > 0 ==> blg * nb <= d + blg - 1,
                0 <= i,
                i <= nb || i == 0,
                t == start.ticks + i * blg,
                bars@.len() == i,
                forall|j: int| 0 <= j < i ==> bars@[j].ticks == start.ticks + j * blg,
            decreases nb - i,
        {
            bars.push(Time { ticks: t });
            proof {
                lemma_mul_inequality(0, i + 1, blg);
                lemma_mul_inequality(i + 1, nb as int, blg);
                assert((i + 1) * blg == i * blg + blg) by (nonlinear_arith);
                assert(nb * blg == blg * nb) by (nonlinear_arith);
                assert(0 * blg == 0) by (nonlinear_arith);
            }
            t = t + bl.ticks;
            i = i + 1;
        }
        bars
    }

    /// Number of subdivisions needed to cover the span from `start` to
    /// `end`, rounded up.
    pub open spec fn num_beats(self, start: Time, end: Time) -> int {
        tdiv(end.ticks - start.ticks + self.subdivision_ticks() - 1, self.subdivision_ticks())
    }

    /// Index of the first subdivision visible from `range_start`, counting
    /// from `start`; never negative.
    pub open spec fn first_visible_beat(self, start: Time, range_start: Time) -> int {
        let from = if range_start.ticks >= start.ticks {
            range_start.ticks as int
        } else {
            start.ticks as int
        };
        tdiv(from - start.ticks, self.subdivision_ticks())
    }

    /// The subdivision marks visible in `range`, counted from `start`:
    /// each paired with its index within its bar (`0` marks a bar line).
    pub fn beats(self, start: Time, range: TimeRange) -> (marks: Vec<(Time, u32)>)
        requires
            self.wf(),
            -TICK_LIMIT <= start.ticks <= TICK_LIMIT,
            -TICK_LIMIT <= range.start.ticks <= TICK_LIMIT,
            -TICK_LIMIT <= range.end.ticks <= TICK_LIMIT,
        ensures
            marks@.len() == if self.num_beats(start, range.end) > self.first_visible_beat(
                start,
                range.start,
            ) {
                self.num_beats(start, range.end) - self.first_visible_beat(start, range.start)
            } else {
                0
            },
            forall|j: int|
                0 <= j < marks@.len() ==> {
                    let idx = self.first_visible_beat(start, range.start) + j;
                    (#[trigger] marks@[j]).0.ticks == start.ticks + idx * self.subdivision_ticks()
                        && marks@[j].1 == idx % (self.numerator as int)
                },
    {
        let nl = self.subdivision_duration().ticks;
        let total = range.end.ticks - start.ticks;
        let nb = (total + (nl - 1)) / nl;
        let ms = if range.start.ticks >= start.ticks {
            range.start.ticks
        } else {
            start.ticks
        };
        let fv = (ms - start.ticks) / nl;
        proof {
            lemma_tdiv_pos(ms - start.ticks, nl as int);
            if total + nl - 1 >= 0 {
                lemma_tdiv_pos(total + nl - 1, nl as int);
            } else {
                lemma_tdiv_pos(-(total + nl - 1), nl as int);
                assert(nb <= 0);
            }
            assert(nl * fv == fv * nl) by (nonlinear_arith);
        }
        let t0 = start.ticks + nl * fv;
        let ghost nlg: int = nl as int;
        let mut marks: Vec<(Time, u32)> = Vec::new();
        let mut i: i64 = fv;
        let mut t: i64 = t0;
        while i < nb
            invariant
                1 <= nlg <= TICKS_PER_BEAT,
                nlg == self.subdivision_ticks(),
                nl == nlg,
                1 <= self.numerator,
                -TICK_LIMIT <= start.ticks <= TICK_LIMIT,
                total == range.end.ticks - start.ticks,
                -TICK_LIMIT <= range.end.ticks <= TICK_LIMIT,
                nb == self.num_beats(start, range.end),
                fv == self.first_visible_beat(start, range.start),
                0 <= fv,
                nlg * fv <= 2 * TICK_LIMIT,
                nb > fv ==> nlg * nb <= total + nlg - 1,
                fv <= i,
                i <= nb || i == fv,
                t == start.ticks + i * nlg,
                marks@.len() == i - fv,
                forall|j: int|
                    0 <= j < marks@.len() ==> {
                        let idx = fv + j;
                        (#[trigger] marks@[j]).0.ticks == start.ticks + idx * nlg
                            && marks@[j].1 == idx % (self.numerator as int)
                    },
            decreases nb - i,
        {
            proof {
                vstd::arithmetic::div_mod::lemma_mod_bound(i as int, self.numerator as int);
            }
            let in_bar = (i % (self.numerator as i64)) as u32;
            marks.push((Time { ticks: t }, in_bar));
            proof {
                lemma_mul_inequality(0, i + 1, nlg);
                lemma_mul_inequality(i + 1, nb as int, nlg);
                assert((i + 1) * nlg == i * nlg + nlg) by (nonlinear_arith);
                assert(nb * nlg == nlg * nb) by (nonlinear_arith);
                assert(0 * nlg == 0) by (nonlinear_arith);
            }
            t = t + nl;
            i = i + 1;
        }
        marks
    }

    /// A grid of the signature's subdivisions, anchored at `start_at`.
    pub fn grid(self, start_at: Time) -> (g: TimeGrid)
        requires
            self.wf(),
        ensures
            g.start == start_at,
            g.step.ticks == self.subdivision_ticks(),
    {
        TimeGrid::new(start_at, self.subdivision_duration())
    }
}

/// An evenly spaced grid of time points: `start + i * step` for integer `i`.
#[derive(Debug, Clone, Copy, PartialEq, Eq, Structural, Hash)]
pub struct TimeGrid {
    pub start: Time,
    pub step: Duration,
}

impl TimeGrid {
    pub fn new(start: Time, step: Duration) -> (g: Self)
        ensures
            g.start == start,
            g.step == step,
    {
        TimeGrid { start, step }
    }

    /// Index of the first grid point at or after... (see `ensures`): the
    /// truncated quotient of the offset from the grid origin by the step.
    pub open spec fn index_of(self, t: Time) -> int {
        tdiv(t.ticks - self.start.ticks, self.step.ticks as int)
    }

    /// The grid points whose indices lie in `index_of(range.start) ..
    /// index_of(range.end)`, paired with their indices.
    pub fn iter_in_range(self, range: TimeRange) -> (points: Vec<(i64, Time)>)
        requires
            self.step.ticks != 0,
            -TICK_LIMIT <= self.start.ticks <= TICK_LIMIT,
            -TICK_LIMIT <= self.step.ticks <= TICK_LIMIT,
            -TICK_LIMIT <= range.start.ticks <= TICK_LIMIT,
            -TICK_LIMIT <= range.end.ticks <= TICK_LIMIT,
        ensures
            points@.len() == if self.index_of(range.end) >= self.index_of(range.start) {
                self.index_of(range.end) - self.index_of(range.start)
            } else {
                0
            },
            forall|j: int|
                0 <= j < points@.len() ==> {
                    let idx = self.index_of(range.start) + j;
                    (#[trigger] points@[j]).0 == idx && points@[j].1.ticks == self.start.ticks
                        + idx * self.step.ticks
                },
    {
        let s = self.step.ticks;
        let d1 = range.start.ticks - self.start.ticks;
        let d2 = range.end.ticks - self.start.ticks;
        let start_idx = div_i64(d1, s);
        let end_idx = div_i64(d2, s);
        proof {
            lemma_tdiv_mul_bound(d1 as int, s as int);
            lemma_tdiv_mul_bound(d2 as int, s as int);
        }
        let t0 = self.start.ticks + s * start_idx;
        let mut points: Vec<(i64, Time)> = Vec::new();
        let mut i: i64 = start_idx;
        let mut t: i64 = t0;
        while i < end_idx
            invariant
                s == self.step.ticks,
                s != 0,
                -TICK_LIMIT <= self.start.ticks <= TICK_LIMIT,
                -TICK_LIMIT <= s <= TICK_LIMIT,
                start_idx == self.index_of(range.start),
                end_idx == self.index_of(range.end),
                -abs(d1 as int) <= s * start_idx <= abs(d1 as int),
                -abs(d2 as int) <= s * end_idx <= abs(d2 as int),
                abs(d1 as int) <= 2 * TICK_LIMIT,
                abs(d2 as int) <= 2 * TICK_LIMIT,
                start_idx <= i,
                i <= end_idx || i == start_idx,
                t == self.start.ticks + i * s,
                points@.len() == i - start_idx,
                forall|j: int|
                    0 <= j < points@.len() ==> {
                        let idx = start_idx + j;
                        (#[trigger] points@[j]).0 == idx && points@[j].1.ticks == self.start.ticks
                            + idx * s
                    },
            decreases end_idx - i,
        {
            points.push((i, Time { ticks: t }));
            proof {
                lemma_mul_between(start_idx as int, i + 1, end_idx as int, s as int);
                assert((i + 1) * s == i * s + s) by (nonlinear_arith);
                assert(start_idx * s == s * start_idx) by (nonlinear_arith);
                assert(end_idx * s == s * end_idx) by (nonlinear_arith);
            }
            t = t + s;
            i = i + 1;
        }
        points
    }

    /// The grid point at the truncated index of `time`: for a positive step
    /// and `time` at or after `start`, the last grid point at or before
    /// `time`.
    pub fn closest(&self, time: Time) -> (r: Option<Time>)
        requires
            self.step.ticks != 0,
            -TICK_LIMIT <= self.start.ticks <= TICK_LIMIT,
            -TICK_LIMIT <= self.step.ticks <= TICK_LIMIT,
            -TICK_LIMIT <= time.ticks <= TICK_LIMIT,
        ensures
            r is Some,
            r->0.ticks == self.start.ticks + self.index_of(time) * self.step.ticks,
            self.step.ticks > 0 && time.ticks >= self.start.ticks ==> r->0.ticks <= time.ticks
                < r->0.ticks + self.step.ticks,
    {
        let s = self.step.ticks;
        let d = time.ticks - self.start.ticks;
        let i = div_i64(d, s);
        proof {
            lemma_tdiv_mul_bound(d as int, s as int);
            assert(tdiv(d as int, s as int) * s == s * tdiv(d as int, s as int))
                by (nonlinear_arith);
            if s > 0 && d >= 0 {
                lemma_tdiv_pos(d as int, s as int);
            }
        }
        Some(Time { ticks: self.start.ticks + s * i })
    }
}

/// Exact bounds on a signature's derived tick lengths.
proof fn lemma_signature_bounds(sig: TimeSignature)
    requires
        sig.wf(),
    ensures
        1 <= sig.subdivision_ticks() <= TICKS_PER_BEAT,
        1 <= sig.bar_ticks() <= 0x4000_0000,
{
    let s = sig.subdivision as int;
    let q = TICKS_PER_BEAT as int / s;
    assert(1 <= q <= TICKS_PER_BEAT) by (nonlinear_arith)
        requires
            1 <= s <= 255,
            q == TICKS_PER_BEAT as int / s,
    ;
    lemma_mul_upper_bound(q, TICKS_PER_BEAT as int, sig.numerator as int, 255);
    lemma_mul_inequality(1, q, sig.numerator as int);
    assert(q * sig.numerator >= 1 * sig.numerator) by (nonlinear_arith)
        requires
            q >= 1,
            sig.numerator >= 1,
    ;
}

/// For `lo <= i <= hi`, the product `i * s` lies between the products at the
/// ends, whatever the sign of `s`.
proof fn lemma_mul_between(lo: int, i: int, hi: int, s: int) by (nonlinear_arith)
    requires
        lo <= i <= hi,
    ensures
        s >= 0 ==> lo * s <= i * s <= hi * s,
        s < 0 ==> hi * s <= i * s <= lo * s,
{
}

} // verus!
