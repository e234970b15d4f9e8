//! Per-note render plans: sample-exact boundaries and envelope levels.
//!
//! The engine clock counts in units of `1 / (TICKS_PER_BEAT * sample_rate *
//! secs_per_beat_num * secs_per_beat_den)` of a beat, so a note's offset
//! from the window start, measured in samples, is the exact fraction
//! `start_num / den` with `den == TICKS_PER_BEAT * secs_per_beat_den^2`.
//! A plan clamps the fraction's ceiling into the buffer, and the envelope
//! levels at each sample are exact rationals: the attack ramps from zero
//! to one over `attack_num / 12700` seconds' worth of samples (faster for
//! louder notes), the decay from one to zero over the last `1 / 50` of a
//! second before the note's end.

use crate::note::Note;
use crate::numeric::{lemma_tdiv_pos, tdiv};
use vstd::arithmetic::div_mod::{lemma_div_is_ordered, lemma_div_multiples_vanish};
use vstd::prelude::*;

verus! {

/// Denominator of the attack span in seconds: the attack lasts
/// `(762 - 4 * velocity) / 12700` seconds, 0.02 s at full loudness and
/// 0.06 s at silence.
pub const ATTACK_SECONDS_DEN: u64 = 12700;

/// Denominator of the decay span in seconds: the decay always lasts
/// `1 / 50` of a second.
pub const DECAY_SECONDS_DEN: u64 = 50;

/// The exact numbers a note contributes to one buffer: everything the
/// sample loop needs, with no real arithmetic done yet.
#[derive(Debug, Clone, Copy, PartialEq, Eq, Structural, Hash)]
pub struct NoteRender {
    /// Start offset from the window start, in samples, as the exact
    /// fraction `start_num / den`; may be negative or beyond the buffer.
    pub start_num: i128,
    /// End offset in samples, as `end_num / den`.
    pub end_num: i128,
    /// Common denominator of the two offsets.
    pub den: i128,
    /// First sample index to write, already clamped into the buffer.
    pub buf_start: usize,
    /// One past the last sample index to write, clamped likewise; the
    /// range `buf_start..buf_end` may be empty.
    pub buf_end: usize,
    /// Attack span in samples, as `attack_num / ATTACK_SECONDS_DEN`.
    pub attack_num: u64,
    /// Decay span in samples, as `decay_num / DECAY_SECONDS_DEN`.
    pub decay_num: u64,
    /// The note's loudness, normalized as `velocity / 127`.
    pub velocity: u8,
    /// The note's pitch in cents; the frequency in hertz is
    /// `440 * 2^((cents / 100 - 69) / 12)`.
    pub pitch_cents: i32,
}

/// The mathematical content of a `NoteRender`.
pub ghost struct RenderModel {
    pub start_num: int,
    pub end_num: int,
    pub den: int,
    pub buf_start: int,
    pub buf_end: int,
    pub attack_num: int,
    pub decay_num: int,
    pub velocity: int,
    pub pitch_cents: int,
}

impl View for NoteRender {
    type V = RenderModel;

    open spec fn view(&self) -> RenderModel {
        RenderModel {
            start_num: self.start_num as int,
            end_num: self.end_num as int,
            den: self.den as int,
            buf_start: self.buf_start as int,
            buf_end: self.buf_end as int,
            attack_num: self.attack_num as int,
            decay_num: self.decay_num as int,
            velocity: self.velocity as int,
            pitch_cents: self.pitch_cents as int,
        }
    }
}

impl RenderModel {
    /// Bounds every plan made by the engine satisfies; they keep all of
    /// the envelope arithmetic inside 128 bits.
    pub open spec fn wf(self) -> bool {
        &&& 1 <= self.den <= 0x40_0000_0000_0000
        &&& 1 <= self.attack_num <= 0x4000_0000
        &&& 1 <= self.decay_num <= 0x10_0000
        &&& -0x4000_0000_0000_0000_0000_0000_0000 <= self.start_num
            <= 0x4000_0000_0000_0000_0000_0000_0000
        &&& -0x4000_0000_0000_0000_0000_0000_0000 <= self.end_num
            <= 0x4000_0000_0000_0000_0000_0000_0000
        &&& 0 <= self.buf_start <= 0xFFFF_FFFF
        &&& 0 <= self.buf_end <= 0xFFFF_FFFF
        &&& self.velocity <= 127
    }
}

/// The ceiling of `a / b` clamped into `0 .. hi`, for a positive `b`:
/// how continuous sample offsets become buffer indices.
pub open spec fn clamp_ceil(a: int, b: int, hi: int) -> int {
    if a <= 0 {
        0
    } else {
        let q = tdiv(a + b - 1, b);
        if q > hi {
            hi
        } else {
            q
        }
    }
}

/// The plan for one note against one buffer window. `clock` is the window
/// start in clock units, `scale == sample_rate * secs_per_beat_num *
/// secs_per_beat_den` converts ticks to clock units, `den` is the sample
/// denominator, `sr` the sample rate and `num` the buffer length in
/// samples.
pub open spec fn plan_spec(n: Note, clock: int, scale: int, den: int, sr: int, num: int)
    -> RenderModel {
    let sn = n.time.ticks * scale - clock;
    let en = (n.time.ticks + n.duration.ticks) * scale - clock;
    RenderModel {
        start_num: sn,
        end_num: en,
        den: den,
        buf_start: clamp_ceil(sn, den, num),
        buf_end: clamp_ceil(en, den, num),
        attack_num: sr * (762 - 4 * n.velocity.0),
        decay_num: sr,
        velocity: n.velocity.0 as int,
        pitch_cents: n.pitch.midi_cents as int,
    }
}

/// Ceiling division clamped into `0 ..= hi`, executably.
fn clamp_ceil_exec(a: i128, b: i128, hi: usize) -> (r: usize)
    requires
        1 <= b <= 0x40_0000_0000_0000,
        -0x4000_0000_0000_0000_0000_0000_0000 <= a <= 0x4000_0000_0000_0000_0000_0000_0000,
        hi <= 0xFFFF_FFFF,
    ensures
        r == clamp_ceil(a as int, b as int, hi as int),
        r <= hi,
{
    if a <= 0 {
        0
    } else {
        let q = (a + (b - 1)) / b;
        proof {
            lemma_tdiv_pos(a + b - 1, b as int);
        }
        if q > hi as i128 {
            hi
        } else {
            q as usize
        }
    }
}

/// Builds the render plan of one note for one buffer window.
pub fn make_plan(n: &Note, clock: i128, scale: i128, den: i128, sr: u32, num_samples: usize) -> (
    r: NoteRender)
    requires
        n.wf(),
        1 <= sr <= 0x10_0000,
        1 <= scale <= 0x10_0000_0000_0000,
        1 <= den <= 0x40_0000_0000_0000,
        -0x80_0000_0000_0000 * scale <= clock <= 0x80_0000_0000_0000 * scale,
        num_samples <= 0xFFFF_FFFF,
    ensures
        r@ == plan_spec(*n, clock as int, scale as int, den as int, sr as int, num_samples as int),
        r@.wf(),
{
    proof {
        crate::numeric::lemma_abs_mul_le(
            n.time.ticks as int,
            0x80_0000_0000_0000,
            scale as int,
            0x10_0000_0000_0000,
        );
        crate::numeric::lemma_abs_mul_le(
            n.end_ticks(),
            0x80_0000_0000_0000,
            scale as int,
            0x10_0000_0000_0000,
        );
        crate::numeric::lemma_abs_mul_le(1, 1, scale as int, 0x10_0000_0000_0000);
        vstd::arithmetic::mul::lemma_mul_upper_bound(
            sr as int,
            0x10_0000,
            762 - 4 * n.velocity.0,
            762,
        );
        vstd::arithmetic::mul::lemma_mul_inequality(1, sr as int, 762 - 4 * n.velocity.0);
    }
    let start_base: i128 = (n.time.ticks as i128) * scale;
    let end_base: i128 = ((n.time.ticks as i128) + (n.duration.ticks as i128)) * scale;
    let sn: i128 = start_base - clock;
    let en: i128 = end_base - clock;
    let buf_start = clamp_ceil_exec(sn, den, num_samples);
    let buf_end = clamp_ceil_exec(en, den, num_samples);
    let attack_num: u64 = (sr as u64) * (762 - 4 * (n.velocity.0 as u64));
    NoteRender {
        start_num: sn,
        end_num: en,
        den,
        buf_start,
        buf_end,
        attack_num,
        decay_num: sr as u64,
        velocity: n.velocity.0,
        pitch_cents: n.pitch.midi_cents,
    }
}

/// An exact non-negative rational level, at most one: `num / den`.
#[derive(Debug, Clone, Copy, PartialEq, Eq, Structural, Hash)]
pub struct Level {
    pub num: i128,
    pub den: i128,
}

/// Clamping a raw fraction `raw / den` into the unit interval, expressed
/// on the numerator.
pub open spec fn clamp01_num(raw: int, den: int) -> int {
    if raw <= 0 {
        0
    } else if raw >= den {
        den
    } else {
        raw
    }
}

/// Raw attack numerator at sample `i`: the level is
/// `(i - start_samples) / attack_samples`, put over the common denominator
/// `den * attack_num`.
pub open spec fn attack_raw(p: RenderModel, i: int) -> int {
    (i * p.den - p.start_num) * 12700
}

pub open spec fn attack_den(p: RenderModel) -> int {
    p.den * p.attack_num
}

/// Raw decay numerator at sample `i`: the level is
/// `(end_samples - i) / decay_samples`, put over `den * decay_num`.
pub open spec fn decay_raw(p: RenderModel, i: int) -> int {
    (p.end_num - i * p.den) * 50
}

pub open spec fn decay_den(p: RenderModel) -> int {
    p.den * p.decay_num
}

/// The attack level at sample `i`: zero at the note's start, ramping to
/// one `attack_num / 12700` seconds later, clamped to the unit interval.
pub fn attack_level(p: &NoteRender, i: usize) -> (lv: Level)
    requires
        p@.wf(),
        i <= 0xFFFF_FFFF,
    ensures
        lv.den == attack_den(p@),
        lv.num == clamp01_num(attack_raw(p@, i as int), attack_den(p@)),
        0 <= lv.num <= lv.den,
        lv.den > 0,
{
    proof {
        crate::numeric::lemma_abs_mul_le(i as int, 0x1_0000_0000, p@.den, 0x40_0000_0000_0000);
        crate::numeric::lemma_abs_mul_le(
            i * p@.den - p@.start_num,
            0x8000_0000_0000_0000_0000_0000_0000,
            12700,
            12700,
        );
        crate::numeric::lemma_abs_mul_le(p@.den, 0x40_0000_0000_0000, p@.attack_num, 0x4000_0000);
        vstd::arithmetic::mul::lemma_mul_inequality(1, p@.den, p@.attack_num);
    }
    let raw: i128 = ((i as i128) * p.den - p.start_num) * 12700;
    let dn: i128 = p.den * (p.attack_num as i128);
    if raw <= 0 {
        Level { num: 0, den: dn }
    } else if raw >= dn {
        Level { num: dn, den: dn }
    } else {
        Level { num: raw, den: dn }
    }
}

/// The decay level at sample `i`: one until `decay_num / 50` seconds
/// before the note's end, then ramping to zero at the end, clamped to the
/// unit interval.
pub fn decay_level(p: &NoteRender, i: usize) -> (lv: Level)
    requires
        p@.wf(),
        i <= 0xFFFF_FFFF,
    ensures
        lv.den == decay_den(p@),
        lv.num == clamp01_num(decay_raw(p@, i as int), decay_den(p@)),
        0 <= lv.num <= lv.den,
        lv.den > 0,
{
    proof {
        crate::numeric::lemma_abs_mul_le(i as int, 0x1_0000_0000, p@.den, 0x40_0000_0000_0000);
        crate::numeric::lemma_abs_mul_le(
            p@.end_num - i * p@.den,
            0x8000_0000_0000_0000_0000_0000_0000,
            50,
            50,
        );
        crate::numeric::lemma_abs_mul_le(p@.den, 0x40_0000_0000_0000, p@.decay_num, 0x10_0000);
        vstd::arithmetic::mul::lemma_mul_inequality(1, p@.den, p@.decay_num);
    }
    let raw: i128 = (p.end_num - (i as i128) * p.den) * 50;
    let dn: i128 = p.den * (p.decay_num as i128);
    if raw <= 0 {
        Level { num: 0, den: dn }
    } else if raw >= dn {
        Level { num: dn, den: dn }
    } else {
        Level { num: raw, den: dn }
    }
}

/// At the note's start sample the attack level is exactly zero.
pub proof fn lemma_attack_zero_at_start(p: RenderModel, i: int)
    requires
        p.wf(),
        i * p.den == p.start_num,
    ensures
        clamp01_num(attack_raw(p, i), attack_den(p)) == 0,
{
}

/// Exactly one attack span after the note's start, the attack level is
/// exactly one: the clamped numerator equals the denominator.
pub proof fn lemma_attack_full_after_attack(p: RenderModel, i: int)
    requires
        p.wf(),
        i * p.den * 12700 == p.start_num * 12700 + p.attack_num * p.den,
    ensures
        clamp01_num(attack_raw(p, i), attack_den(p)) == attack_den(p),
{
    assert((i * p.den - p.start_num) * 12700 == i * p.den * 12700 - p.start_num * 12700)
        by (nonlinear_arith);
    assert(p.attack_num * p.den == p.den * p.attack_num) by (nonlinear_arith);
    assert(attack_den(p) > 0) by (nonlinear_arith)
        requires
            p.den >= 1,
            p.attack_num >= 1,
            attack_den(p) == p.den * p.attack_num,
    ;
}

/// At the note's end sample the decay level is exactly zero.
pub proof fn lemma_decay_zero_at_end(p: RenderModel, i: int)
    requires
        p.wf(),
        i * p.den == p.end_num,
    ensures
        clamp01_num(decay_raw(p, i), decay_den(p)) == 0,
{
}

/// A note whose start lies at or after the window end writes no samples:
/// the plan's range `buf_start..buf_end` is empty.
pub proof fn lemma_late_note_silent(
    n: Note,
    clock: int,
    scale: int,
    den: int,
    sr: int,
    num: int,
)
    requires
        den >= 1,
        num >= 0,
        plan_spec(n, clock, scale, den, sr, num).start_num >= num * den,
    ensures
        plan_spec(n, clock, scale, den, sr, num).buf_end <= plan_spec(
            n,
            clock,
            scale,
            den,
            sr,
            num,
        ).buf_start,
{
    let p = plan_spec(n, clock, scale, den, sr, num);
    if p.start_num <= 0 {
        assert(num * den <= 0);
        assert(num == 0 || den <= 0) by (nonlinear_arith)
            requires
                num * den <= 0,
                num >= 0,
                den >= 1,
                p.start_num <= 0,
        ;
        assert(p.buf_end <= num);
    } else {
        lemma_div_multiples_vanish(num, den);
        assert(den * num == num * den) by (nonlinear_arith);
        lemma_div_is_ordered(den * num, p.start_num + den - 1, den);
        lemma_tdiv_pos(p.start_num + den - 1, den);
        assert(tdiv(p.start_num + den - 1, den) >= num);
        assert(p.buf_start == num);
        assert(p.buf_end <= num);
    }
}

/// A note that ends strictly before the window start writes no samples
/// even if it is still carried as active: its clamped end index is zero.
pub proof fn lemma_past_note_silent(n: Note, clock: int, scale: int, den: int, sr: int, num: int)
    requires
        plan_spec(n, clock, scale, den, sr, num).end_num <= 0,
    ensures
        plan_spec(n, clock, scale, den, sr, num).buf_end == 0,
{
}

/// Advancing the window start by `k` samples moves both sample offsets
/// down by exactly `k`: a note straddling the boundary between two
/// buffers continues at exactly the sample where the previous buffer
/// stopped, so its phase and envelope are continuous across buffers.
pub proof fn lemma_plan_shift(
    n: Note,
    clock: int,
    scale: int,
    den: int,
    sr: int,
    num: int,
    num2: int,
    k: int,
)
    ensures
        plan_spec(n, clock + k * den, scale, den, sr, num2).start_num == plan_spec(
            n,
            clock,
            scale,
            den,
            sr,
            num,
        ).start_num - k * den,
        plan_spec(n, clock + k * den, scale, den, sr, num2).end_num == plan_spec(
            n,
            clock,
            scale,
            den,
            sr,
            num,
        ).end_num - k * den,
{
}

} // verus!
