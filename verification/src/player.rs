//! The playback transport: an exact-arithmetic note scheduler.
//!
//! The transport owns two note queues and a playback clock. Once per audio
//! period it drains the pending commands, and — while playing — moves the
//! notes whose start falls inside the buffer window from `upcoming_notes`
//! to `active_notes`, emits one render plan per sounding note, drops the
//! notes that have ended, advances the clock by exactly the buffer's
//! length, and reports the new position.
//!
//! The clock counts in units of `1 / (sample_rate * secs_per_beat_num *
//! secs_per_beat_den)` of a tick. In that unit every quantity the engine
//! needs is an exact integer: a tick count `t` sits at `t * clock_scale`,
//! and a buffer of `n` samples spans `n * sample_den` units, so the clock
//! cannot drift, whatever the buffer sizes.

use crate::note::{notes_wf, sorted_by_time, Note};
use crate::numeric::{div_i128, lemma_abs_mul_le, lemma_tdiv_mul_bound, tdiv};
use crate::render::{make_plan, plan_spec, NoteRender, RenderModel};
use crate::rhythm::{Time, TICKS_PER_BEAT, TICK_LIMIT};
use vstd::arithmetic::mul::lemma_mul_inequality;
use vstd::prelude::*;

verus! {

/// Largest accepted hardware sample rate, in frames per second.
pub const SAMPLE_RATE_LIMIT: u32 = 0x10_0000;

/// Largest accepted numerator or denominator of the seconds-per-beat
/// tempo fraction.
pub const TEMPO_PART_LIMIT: u32 = 0x1_0000;

/// Largest accepted buffer length, in samples per update.
pub const BUFFER_SAMPLES_LIMIT: usize = 0xFFFF_FFFF;

/// A control message to the transport, applied in send order at the start
/// of the next update.
#[derive(Debug, Clone)]
pub enum Command {
    /// Replace the upcoming queue with these notes (ascending by start
    /// time) and cut every sounding note at once.
    SetBuffer(Vec<Note>),
    /// Seek: set the playback clock to this musical time.
    SetTime(Time),
    /// Start advancing the clock and rendering.
    Start,
    /// Stop advancing; the queues are preserved exactly.
    Pause,
}

/// A message from the transport back to its controller.
#[derive(Debug, Clone, Copy, PartialEq, Eq, Structural)]
pub enum Event {
    /// The playback position after a processed buffer.
    Time(Time),
}

/// The transport state. The audio thread owns it exclusively; the control
/// side talks to it only through `Command` values.
#[derive(Debug)]
pub struct PlayerState {
    /// Notes not yet reached, ascending by start time.
    pub upcoming_notes: Vec<Note>,
    /// Notes currently sounding.
    pub active_notes: Vec<Note>,
    /// Playback position, in clock units (see the module doc).
    pub clock: i128,
    /// Whether the transport is running.
    pub playing: bool,
    /// Hardware sample rate, fixed for the stream's lifetime.
    pub sample_rate: u32,
    /// Tempo: seconds per beat, as the exact fraction
    /// `secs_per_beat_num / secs_per_beat_den`.
    pub secs_per_beat_num: u32,
    pub secs_per_beat_den: u32,
}

/// The transport state as mathematics.
#[verifier::ext_equal]
pub ghost struct PlayerModel {
    pub upcoming: Seq<Note>,
    pub active: Seq<Note>,
    pub clock: int,
    pub playing: bool,
    pub sample_rate: int,
    pub secs_per_beat_num: int,
    pub secs_per_beat_den: int,
}

/// Everything one update does: the state afterwards, the render plans of
/// the notes that sound in the buffer, and the reported position in
/// ticks, present exactly when the transport was playing.
#[verifier::ext_equal]
pub ghost struct UpdateModel {
    pub state: PlayerModel,
    pub renders: Seq<RenderModel>,
    pub position: Option<int>,
}

impl PlayerModel {
    /// Clock units per tick.
    pub open spec fn clock_scale(self) -> int {
        self.sample_rate * self.secs_per_beat_num * self.secs_per_beat_den
    }

    /// Clock units per sample: the common denominator of all sample
    /// offsets.
    pub open spec fn sample_den(self) -> int {
        TICKS_PER_BEAT * self.secs_per_beat_den * self.secs_per_beat_den
    }

    /// Largest clock magnitude the engine accepts: `TICK_LIMIT` ticks.
    pub open spec fn clock_limit(self) -> int {
        TICK_LIMIT * self.clock_scale()
    }

    /// The playback position in ticks: the clock truncated to whole
    /// ticks.
    pub open spec fn position_ticks(self) -> int {
        tdiv(self.clock, self.clock_scale())
    }

    pub open spec fn wf(self) -> bool {
        &&& 1 <= self.sample_rate <= SAMPLE_RATE_LIMIT
        &&& 1 <= self.secs_per_beat_num <= TEMPO_PART_LIMIT
        &&& 1 <= self.secs_per_beat_den <= TEMPO_PART_LIMIT
        &&& -self.clock_limit() <= self.clock <= self.clock_limit()
        &&& notes_wf(self.upcoming)
        &&& notes_wf(self.active)
        &&& sorted_by_time(self.upcoming)
    }
}

/// Bounds of the derived clock factors, for a model with accepted
/// parameters.
pub proof fn lemma_scale_bounds(m: PlayerModel)
    requires
        1 <= m.sample_rate <= SAMPLE_RATE_LIMIT,
        1 <= m.secs_per_beat_num <= TEMPO_PART_LIMIT,
        1 <= m.secs_per_beat_den <= TEMPO_PART_LIMIT,
    ensures
        1 <= m.clock_scale() <= 0x10_0000_0000_0000,
        TICKS_PER_BEAT <= m.sample_den() <= 0x40_0000_0000_0000,
{
    assert(1 <= m.sample_rate * m.secs_per_beat_num * m.secs_per_beat_den
        <= 0x10_0000_0000_0000) by (nonlinear_arith)
        requires
            1 <= m.sample_rate <= 0x10_0000,
            1 <= m.secs_per_beat_num <= 0x1_0000,
            1 <= m.secs_per_beat_den <= 0x1_0000,
    ;
    assert(TICKS_PER_BEAT <= TICKS_PER_BEAT * m.secs_per_beat_den * m.secs_per_beat_den
        <= 0x40_0000_0000_0000) by (nonlinear_arith)
        requires
            1 <= m.secs_per_beat_den <= 0x1_0000,
    ;
}

/// Whether the engine accepts this command: a buffer must be sorted and
/// within the tick bounds, a seek within the tick bounds.
pub open spec fn command_wf(c: Command) -> bool {
    match c {
        Command::SetBuffer(notes) => notes_wf(notes@) && sorted_by_time(notes@),
        Command::SetTime(t) => -TICK_LIMIT <= t.ticks <= TICK_LIMIT,
        Command::Start => true,
        Command::Pause => true,
    }
}

pub open spec fn commands_wf(cs: Seq<Command>) -> bool {
    forall|i: int| 0 <= i < cs.len() ==> command_wf(#[trigger] cs[i])
}

/// What one command does to the transport, exactly as the update's drain
/// applies it.
pub open spec fn apply_command(m: PlayerModel, c: Command) -> PlayerModel {
    match c {
        Command::SetBuffer(notes) => PlayerModel {
            upcoming: notes@,
            active: Seq::empty(),
            ..m
        },
        Command::SetTime(t) => PlayerModel { clock: t.ticks * m.clock_scale(), ..m },
        Command::Start => PlayerModel { playing: true, ..m },
        Command::Pause => PlayerModel { playing: false, ..m },
    }
}

/// The commands applied left to right, as they were sent.
pub open spec fn apply_commands(m: PlayerModel, cs: Seq<Command>) -> PlayerModel
    decreases cs.len(),
{
    if cs.len() == 0 {
        m
    } else {
        apply_command(apply_commands(m, cs.drop_last()), cs.last())
    }
}

/// A command keeps the state within the engine's bounds.
pub proof fn lemma_apply_command_wf(m: PlayerModel, c: Command)
    requires
        m.wf(),
        command_wf(c),
    ensures
        apply_command(m, c).wf(),
{
    match c {
        Command::SetTime(t) => {
            lemma_scale_bounds(m);
            lemma_mul_inequality(t.ticks as int, TICK_LIMIT as int, m.clock_scale());
            lemma_mul_inequality(-(TICK_LIMIT as int), t.ticks as int, m.clock_scale());
        },
        _ => {},
    }
}

/// A command sequence keeps the state within the engine's bounds.
pub proof fn lemma_apply_commands_wf(m: PlayerModel, cs: Seq<Command>)
    requires
        m.wf(),
        commands_wf(cs),
    ensures
        apply_commands(m, cs).wf(),
    decreases cs.len(),
{
    if cs.len() > 0 {
        assert(commands_wf(cs.drop_last())) by {
            assert(forall|i: int|
                0 <= i < cs.drop_last().len() ==> #[trigger] cs.drop_last()[i] == cs[i]);
        }
        lemma_apply_commands_wf(m, cs.drop_last());
        lemma_apply_command_wf(apply_commands(m, cs.drop_last()), cs.last());
    }
}

/// Commands never change the stream parameters: only the queues, the
/// clock and the running flag.
pub proof fn lemma_apply_commands_params(m: PlayerModel, cs: Seq<Command>)
    ensures
        apply_commands(m, cs).sample_rate == m.sample_rate,
        apply_commands(m, cs).secs_per_beat_num == m.secs_per_beat_num,
        apply_commands(m, cs).secs_per_beat_den == m.secs_per_beat_den,
    decreases cs.len(),
{
    if cs.len() > 0 {
        lemma_apply_commands_params(m, cs.drop_last());
    }
}


/// A note begins at or before the window's end: the activation test.
pub open spec fn eligible(n: Note, scale: int, window_end: int) -> bool {
    n.time.ticks * scale <= window_end
}

/// How many leading upcoming notes the activation scan consumes: it walks
/// from the front and stops at the first note past the window end, as the
/// ascending order lets it.
pub open spec fn activation_count(s: Seq<Note>, scale: int, window_end: int) -> nat
    decreases s.len(),
{
    if s.len() == 0 {
        0
    } else if eligible(s[0], scale, window_end) {
        1 + activation_count(s.skip(1), scale, window_end)
    } else {
        0
    }
}

/// A note stays active when its end has not passed the window start.
pub open spec fn keeps(n: Note, scale: int, clock: int) -> bool {
    (n.time.ticks + n.duration.ticks) * scale - clock >= 0
}

/// The notes of `s` that stay active, in order.
pub open spec fn kept_notes(s: Seq<Note>, scale: int, clock: int) -> Seq<Note>
    decreases s.len(),
{
    if s.len() == 0 {
        Seq::empty()
    } else {
        let rest = kept_notes(s.drop_last(), scale, clock);
        if keeps(s.last(), scale, clock) {
            rest.push(s.last())
        } else {
            rest
        }
    }
}

/// The render plans of the notes of `s` that sound in the window: one per
/// kept note, in order. A note that ended before the window renders
/// nothing at all.
pub open spec fn plans_of(s: Seq<Note>, clock: int, scale: int, den: int, sr: int, num: int)
    -> Seq<RenderModel>
    decreases s.len(),
{
    if s.len() == 0 {
        Seq::empty()
    } else {
        let rest = plans_of(s.drop_last(), clock, scale, den, sr, num);
        if keeps(s.last(), scale, clock) {
            rest.push(plan_spec(s.last(), clock, scale, den, sr, num))
        } else {
            rest
        }
    }
}

/// The clock stays within the engine's range through the commands and
/// this buffer's advance; a machine limit, reached only after an
/// astronomical playback length.
pub open spec fn update_fits(m: PlayerModel, cs: Seq<Command>, num: int) -> bool {
    let m1 = apply_commands(m, cs);
    m1.playing ==> -m1.clock_limit() <= m1.clock + num * m1.sample_den() <= m1.clock_limit()
}

/// One whole update: drain the commands; then, if playing, activate the
/// notes that the window reaches, render every sounding note, drop the
/// ended ones, advance the clock by exactly the buffer's length, and
/// report the position.
pub open spec fn update_model(m: PlayerModel, cs: Seq<Command>, num: int) -> UpdateModel {
    let m1 = apply_commands(m, cs);
    if !m1.playing {
        UpdateModel { state: m1, renders: Seq::empty(), position: None }
    } else {
        let wend = m1.clock + num * m1.sample_den();
        let k = activation_count(m1.upcoming, m1.clock_scale(), wend) as int;
        let act = m1.active + m1.upcoming.take(k);
        UpdateModel {
            state: PlayerModel {
                upcoming: m1.upcoming.skip(k),
                active: kept_notes(act, m1.clock_scale(), m1.clock),
                clock: wend,
                ..m1
            },
            renders: plans_of(
                act,
                m1.clock,
                m1.clock_scale(),
                m1.sample_den(),
                m1.sample_rate,
                num,
            ),
            position: Some(tdiv(wend, m1.clock_scale())),
        }
    }
}

/// The activation count is the length of the scanned prefix: all before
/// it eligible, the one at it (if any) not.
proof fn lemma_activation_count_is(s: Seq<Note>, scale: int, window_end: int, k: int)
    requires
        0 <= k <= s.len(),
        forall|j: int| 0 <= j < k ==> eligible(#[trigger] s[j], scale, window_end),
        k < s.len() ==> !eligible(s[k as int], scale, window_end),
    ensures
        activation_count(s, scale, window_end) == k,
    decreases s.len(),
{
    if s.len() == 0 {
    } else if k == 0 {
    } else {
        assert(eligible(s[0], scale, window_end));
        assert(forall|j: int|
            0 <= j < k - 1 ==> eligible(#[trigger] s.skip(1)[j], scale, window_end)) by {
            assert(forall|j: int| 0 <= j < s.len() - 1 ==> #[trigger] s.skip(1)[j] == s[j + 1]);
        }
        assert(k - 1 < s.skip(1).len() ==> !eligible(s.skip(1)[k - 1], scale, window_end)) by {
            assert(forall|j: int| 0 <= j < s.len() - 1 ==> #[trigger] s.skip(1)[j] == s[j + 1]);
        }
        lemma_activation_count_is(s.skip(1), scale, window_end, k - 1);
    }
}

/// The kept notes are within bounds, and each of them indeed keeps.
proof fn lemma_kept_notes_props(s: Seq<Note>, scale: int, clock: int)
    requires
        notes_wf(s),
    ensures
        notes_wf(kept_notes(s, scale, clock)),
        forall|i: int|
            0 <= i < kept_notes(s, scale, clock).len() ==> keeps(
                #[trigger] kept_notes(s, scale, clock)[i],
                scale,
                clock,
            ),
    decreases s.len(),
{
    if s.len() > 0 {
        assert(notes_wf(s.drop_last())) by {
            assert(forall|i: int|
                0 <= i < s.len() - 1 ==> #[trigger] s.drop_last()[i] == s[i]);
        }
        lemma_kept_notes_props(s.drop_last(), scale, clock);
        assert(s.last().wf());
    }
}

/// What one update hands back: the plans to render and the position
/// event, present exactly when the transport was playing.
pub struct UpdateResult {
    pub renders: Vec<NoteRender>,
    pub event: Option<Event>,
}

impl PlayerState {
    /// The mathematical view of the transport.
    pub open spec fn model(self) -> PlayerModel {
        PlayerModel {
            upcoming: self.upcoming_notes@,
            active: self.active_notes@,
            clock: self.clock as int,
            playing: self.playing,
            sample_rate: self.sample_rate as int,
            secs_per_beat_num: self.secs_per_beat_num as int,
            secs_per_beat_den: self.secs_per_beat_den as int,
        }
    }

    pub open spec fn wf(self) -> bool {
        self.model().wf()
    }

    /// A stopped transport at the origin, with the default tempo of half
    /// a second per beat (120 beats per minute).
    pub fn new(sample_rate: u32) -> (s: PlayerState)
        requires
            1 <= sample_rate <= SAMPLE_RATE_LIMIT,
        ensures
            s.wf(),
            s.model() == (PlayerModel {
                upcoming: Seq::<Note>::empty(),
                active: Seq::<Note>::empty(),
                clock: 0,
                playing: false,
                sample_rate: sample_rate as int,
                secs_per_beat_num: 1,
                secs_per_beat_den: 2,
            }),
    {
        let s = PlayerState {
            upcoming_notes: Vec::new(),
            active_notes: Vec::new(),
            clock: 0,
            playing: false,
            sample_rate,
            secs_per_beat_num: 1,
            secs_per_beat_den: 2,
        };
        proof {
            lemma_scale_bounds(s.model());
            assert(s.model().upcoming =~= Seq::<Note>::empty());
            assert(s.model().active =~= Seq::<Note>::empty());
        }
        s
    }

    /// A stopped transport at the origin with the given tempo, in seconds
    /// per beat.
    pub fn with_tempo(sample_rate: u32, secs_per_beat_num: u32, secs_per_beat_den: u32) -> (
        s: PlayerState)
        requires
            1 <= sample_rate <= SAMPLE_RATE_LIMIT,
            1 <= secs_per_beat_num <= TEMPO_PART_LIMIT,
            1 <= secs_per_beat_den <= TEMPO_PART_LIMIT,
        ensures
            s.wf(),
            s.model() == (PlayerModel {
                upcoming: Seq::<Note>::empty(),
                active: Seq::<Note>::empty(),
                clock: 0,
                playing: false,
                sample_rate: sample_rate as int,
                secs_per_beat_num: secs_per_beat_num as int,
                secs_per_beat_den: secs_per_beat_den as int,
            }),
    {
        let s = PlayerState {
            upcoming_notes: Vec::new(),
            active_notes: Vec::new(),
            clock: 0,
            playing: false,
            sample_rate,
            secs_per_beat_num,
            secs_per_beat_den,
        };
        proof {
            lemma_scale_bounds(s.model());
            assert(s.model().upcoming =~= Seq::<Note>::empty());
            assert(s.model().active =~= Seq::<Note>::empty());
        }
        s
    }

    /// The clock-units-per-tick factor, executably.
    pub fn clock_scale_exec(&self) -> (r: i128)
        requires
            self.wf(),
        ensures
            r == self.model().clock_scale(),
            1 <= r <= 0x10_0000_0000_0000,
    {
        proof {
            lemma_scale_bounds(self.model());
            assert(1 <= (self.sample_rate as int) * (self.secs_per_beat_num as int)
                <= 0x100_0000_0000) by (nonlinear_arith)
                requires
                    1 <= self.sample_rate as int <= 0x10_0000,
                    1 <= self.secs_per_beat_num as int <= 0x1_0000,
            ;
        }
        let a: i128 = (self.sample_rate as i128) * (self.secs_per_beat_num as i128);
        a * (self.secs_per_beat_den as i128)
    }

    /// The clock-units-per-sample factor, executably.
    pub fn sample_den_exec(&self) -> (r: i128)
        requires
            self.wf(),
        ensures
            r == self.model().sample_den(),
            1 <= r <= 0x40_0000_0000_0000,
    {
        proof {
            lemma_scale_bounds(self.model());
            assert(1 <= (TICKS_PER_BEAT as int) * (self.secs_per_beat_den as int)
                <= 0x40_0000_0000_0000) by (nonlinear_arith)
                requires
                    1 <= self.secs_per_beat_den as int <= 0x1_0000,
            ;
        }
        let a: i128 = (TICKS_PER_BEAT as i128) * (self.secs_per_beat_den as i128);
        a * (self.secs_per_beat_den as i128)
    }

    /// The playback position, truncated to whole ticks.
    pub fn position(&self) -> (t: Time)
        requires
            self.wf(),
        ensures
            t.ticks == self.model().position_ticks(),
    {
        let scale = self.clock_scale_exec();
        proof {
            lemma_scale_bounds(self.model());
            lemma_tdiv_mul_bound(self.clock as int, scale as int);
            assert(-TICK_LIMIT <= tdiv(self.clock as int, scale as int) <= TICK_LIMIT)
                by (nonlinear_arith)
                requires
                    1 <= scale,
                    -TICK_LIMIT * scale <= scale * tdiv(self.clock as int, scale as int)
                        <= TICK_LIMIT * scale,
            ;
        }
        let q = div_i128(self.clock, scale);
        Time { ticks: q as i64 }
    }

    /// Applies pending commands in send order: the drain that starts
    /// every update, run whether or not the transport is playing.
    pub fn handle_commands(&mut self, commands: Vec<Command>)
        requires
            old(self).wf(),
            commands_wf(commands@),
        ensures
            final(self).wf(),
            final(self).model() == apply_commands(old(self).model(), commands@),
    {
        let ghost m0 = self.model();
        let ghost cs0 = commands@;
        let mut commands = commands;
        let ghost mut i: int = 0;
        proof {
            assert(cs0.take(0) =~= Seq::<Command>::empty());
        }
        while commands.len() > 0
            invariant
                0 <= i <= cs0.len(),
                commands@ =~= cs0.skip(i),
                commands_wf(cs0),
                m0.wf(),
                self.wf(),
                self.model() == apply_commands(m0, cs0.take(i)),
            decreases commands@.len(),
        {
            let c = commands.remove(0);
            proof {
                assert(cs0.skip(i).len() > 0);
                assert(c == cs0.skip(i)[0]);
                assert(c == cs0[i]);
                assert(commands@ =~= cs0.skip(i + 1));
            }
            let ghost m_before = self.model();
            match c {
                Command::SetBuffer(notes) => {
                    self.active_notes = Vec::new();
                    self.upcoming_notes = notes;
                    proof {
                        assert(self.model().active =~= Seq::<Note>::empty());
                        assert(self.model() =~= apply_command(m_before, cs0[i]));
                    }
                },
                Command::SetTime(t) => {
                    let scale = self.clock_scale_exec();
                    proof {
                        lemma_scale_bounds(self.model());
                        lemma_abs_mul_le(
                            t.ticks as int,
                            TICK_LIMIT as int,
                            scale as int,
                            0x10_0000_0000_0000,
                        );
                    }
                    self.clock = (t.ticks as i128) * scale;
                    proof {
                        assert(self.model() =~= apply_command(m_before, cs0[i]));
                    }
                },
                Command::Start => {
                    self.playing = true;
                    proof {
                        assert(self.model() =~= apply_command(m_before, cs0[i]));
                    }
                },
                Command::Pause => {
                    self.playing = false;
                    proof {
                        assert(self.model() =~= apply_command(m_before, cs0[i]));
                    }
                },
            }
            proof {
                lemma_apply_command_wf(m_before, cs0[i]);
                assert(cs0.take(i + 1).drop_last() =~= cs0.take(i));
                assert(cs0.take(i + 1).last() == cs0[i]);
                i = i + 1;
            }
        }
        proof {
            assert(cs0.take(i) =~= cs0);
        }
    }


    /// Whether `update` may run with these commands and this buffer
    /// length: true unless the resulting clock would leave the engine's
    /// range, which only an astronomical playback length reaches. The
    /// caller tests this before each `update`.
    pub fn can_update(&self, commands: &Vec<Command>, num_samples: usize) -> (b: bool)
        requires
            self.wf(),
            commands_wf(commands@),
            num_samples <= BUFFER_SAMPLES_LIMIT,
        ensures
            b == update_fits(self.model(), commands@, num_samples as int),
    {
        let ghost m0 = self.model();
        let scale = self.clock_scale_exec();
        let den = self.sample_den_exec();
        let mut cur: i128 = self.clock;
        let mut play: bool = self.playing;
        let n = commands.len();
        let mut i: usize = 0;
        proof {
            assert(commands@.take(0) =~= Seq::<Command>::empty());
        }
        while i < n
            invariant
                i <= n,
                n == commands@.len(),
                commands_wf(commands@),
                m0.wf(),
                scale == m0.clock_scale(),
                1 <= scale <= 0x10_0000_0000_0000,
                cur as int == apply_commands(m0, commands@.take(i as int)).clock,
                play == apply_commands(m0, commands@.take(i as int)).playing,
                apply_commands(m0, commands@.take(i as int)).wf(),
            decreases n - i,
        {
            proof {
                assert(commands@.take(i + 1).drop_last() =~= commands@.take(i as int));
                assert(commands@.take(i + 1).last() == commands@[i as int]);
                lemma_apply_command_wf(
                    apply_commands(m0, commands@.take(i as int)),
                    commands@[i as int],
                );
                lemma_apply_commands_params(m0, commands@.take(i as int));
            }
            match &commands[i] {
                Command::SetTime(t) => {
                    proof {
                        lemma_abs_mul_le(
                            t.ticks as int,
                            TICK_LIMIT as int,
                            scale as int,
                            0x10_0000_0000_0000,
                        );
                    }
                    cur = (t.ticks as i128) * scale;
                },
                Command::Start => {
                    play = true;
                },
                Command::Pause => {
                    play = false;
                },
                Command::SetBuffer(_) => {},
            }
            i = i + 1;
        }
        proof {
            assert(commands@.take(n as int) =~= commands@);
            lemma_apply_commands_params(m0, commands@);
            lemma_scale_bounds(apply_commands(m0, commands@));
            lemma_abs_mul_le(num_samples as int, 0x1_0000_0000, den as int, 0x40_0000_0000_0000);
            lemma_abs_mul_le(
                TICK_LIMIT as int,
                TICK_LIMIT as int,
                scale as int,
                0x10_0000_0000_0000,
            );
        }
        if !play {
            return true;
        }
        let adv: i128 = (num_samples as i128) * den;
        let wend: i128 = cur + adv;
        let limit: i128 = (TICK_LIMIT as i128) * scale;
        -limit <= wend && wend <= limit
    }

    /// One audio period. Applies `commands` in send order; then, while
    /// playing, schedules and plans the notes for a window of
    /// `num_samples` samples, advances the clock by exactly the window's
    /// length, and reports the position after the window.
    #[verifier::rlimit(60)]
    pub fn update(&mut self, commands: Vec<Command>, num_samples: usize) -> (r: UpdateResult)
        requires
            old(self).wf(),
            commands_wf(commands@),
            num_samples <= BUFFER_SAMPLES_LIMIT,
            update_fits(old(self).model(), commands@, num_samples as int),
        ensures
            final(self).wf(),
            final(self).model() == update_model(
                old(self).model(),
                commands@,
                num_samples as int,
            ).state,
            r.renders@.map_values(|p: NoteRender| p@) == update_model(
                old(self).model(),
                commands@,
                num_samples as int,
            ).renders,
            r.event == (match update_model(old(self).model(), commands@, num_samples as int)
                .position {
                Some(p) => Some(Event::Time(Time { ticks: p as i64 })),
                None => None,
            }),
            forall|i: int| 0 <= i < r.renders@.len() ==> (#[trigger] r.renders@[i])@.wf(),
    {
        let ghost m0 = self.model();
        let ghost cs0 = commands@;
        let ghost num = num_samples as int;
        self.handle_commands(commands);
        let ghost m1 = self.model();
        if !self.playing {
            let r = UpdateResult { renders: Vec::new(), event: None };
            proof {
                assert(r.renders@.map_values(|p: NoteRender| p@) =~= Seq::<RenderModel>::empty());
            }
            return r;
        }
        let scale = self.clock_scale_exec();
        let den = self.sample_den_exec();
        let sr = self.sample_rate;
        let clock0 = self.clock;
        proof {
            lemma_scale_bounds(m1);
            lemma_abs_mul_le(num, 0x1_0000_0000, den as int, 0x40_0000_0000_0000);
            lemma_abs_mul_le(TICK_LIMIT as int, TICK_LIMIT as int, scale as int,
                0x10_0000_0000_0000);
        }
        let adv: i128 = (num_samples as i128) * den;
        let wend: i128 = clock0 + adv;
        let ghost up0 = m1.upcoming;
        let ghost act0 = m1.active;
        let ghost mut k: int = 0;
        proof {
            assert(up0.take(0) =~= Seq::<Note>::empty());
            assert(act0 + up0.take(0) =~= act0);
            assert(up0.skip(0) =~= up0);
        }
        while self.upcoming_notes.len() > 0 && eligible_exec(
            &self.upcoming_notes[0],
            scale,
            wend,
        )
            invariant
                0 <= k <= up0.len(),
                self.upcoming_notes@ == up0.skip(k),
                self.active_notes@ == act0 + up0.take(k),
                notes_wf(up0),
                notes_wf(act0),
                1 <= scale <= 0x10_0000_0000_0000,
                forall|j: int| 0 <= j < k ==> eligible(#[trigger] up0[j], scale as int,
                    wend as int),
                self.clock == clock0,
                self.playing,
                self.sample_rate == sr,
                self.sample_rate as int == m1.sample_rate,
                self.secs_per_beat_num as int == m1.secs_per_beat_num,
                self.secs_per_beat_den as int == m1.secs_per_beat_den,
                m1.clock_scale() == scale,
            decreases self.upcoming_notes@.len(),
        {
            let n = self.upcoming_notes.remove(0);
            self.active_notes.push(n);
            proof {
                assert(n == up0.skip(k)[0]);
                assert(n == up0[k]);
                assert(self.upcoming_notes@ =~= up0.skip(k + 1));
                assert(self.active_notes@ =~= act0 + up0.take(k + 1));
                k = k + 1;
            }
        }
        proof {
            if k < up0.len() {
                assert(self.upcoming_notes@.len() > 0);
                assert(up0.skip(k)[0] == up0[k]);
            }
            lemma_activation_count_is(up0, scale as int, wend as int, k);
        }
        let ghost act = act0 + up0.take(k);
        proof {
            assert(notes_wf(act)) by {
                assert(forall|i: int|
                    0 <= i < act.len() ==> #[trigger] act[i] == if i < act0.len() {
                        act0[i]
                    } else {
                        up0.take(k)[i - act0.len()]
                    });
            }
        }
        let mut new_active: Vec<Note> = Vec::new();
        let mut renders: Vec<NoteRender> = Vec::new();
        let n_act = self.active_notes.len();
        let mut idx: usize = 0;
        proof {
            assert(act.take(0) =~= Seq::<Note>::empty());
            assert(renders@.map_values(|p: NoteRender| p@) =~= Seq::<RenderModel>::empty());
        }
        while idx < n_act
            invariant
                self.active_notes@ == act,
                notes_wf(act),
                idx <= n_act,
                n_act == act.len(),
                new_active@ == kept_notes(act.take(idx as int), scale as int, clock0 as int),
                renders@.map_values(|p: NoteRender| p@) == plans_of(
                    act.take(idx as int),
                    clock0 as int,
                    scale as int,
                    den as int,
                    sr as int,
                    num,
                ),
                forall|i: int| 0 <= i < renders@.len() ==> (#[trigger] renders@[i])@.wf(),
                1 <= sr <= SAMPLE_RATE_LIMIT,
                1 <= scale <= 0x10_0000_0000_0000,
                1 <= den <= 0x40_0000_0000_0000,
                -TICK_LIMIT * scale <= clock0 <= TICK_LIMIT * scale,
                num == num_samples as int,
                num_samples <= BUFFER_SAMPLES_LIMIT,
            decreases n_act - idx,
        {
            let note = self.active_notes[idx];
            proof {
                assert(act[idx as int].wf());
            }
            let plan = make_plan(&note, clock0, scale, den, sr, num_samples);
            if plan.end_num >= 0 {
                renders.push(plan);
                new_active.push(note);
            }
            proof {
                assert((plan.end_num >= 0) == keeps(note, scale as int, clock0 as int));
            }
            proof {
                assert(act.take(idx + 1).drop_last() =~= act.take(idx as int));
                assert(act.take(idx + 1).last() == act[idx as int]);
                assert(renders@.map_values(|p: NoteRender| p@) =~= plans_of(
                    act.take(idx + 1),
                    clock0 as int,
                    scale as int,
                    den as int,
                    sr as int,
                    num,
                ));
            }
            idx = idx + 1;
        }
        proof {
            assert(act.take(n_act as int) =~= act);
        }
        self.active_notes = new_active;
        self.clock = wend;
        proof {
            lemma_tdiv_mul_bound(wend as int, scale as int);
            assert(-TICK_LIMIT <= tdiv(wend as int, scale as int) <= TICK_LIMIT)
                by (nonlinear_arith)
                requires
                    1 <= scale,
                    -TICK_LIMIT * (scale as int) <= (scale as int) * tdiv(wend as int,
                        scale as int) <= TICK_LIMIT * (scale as int),
            ;
        }
        let pos = div_i128(wend, scale);
        let r = UpdateResult { renders, event: Some(Event::Time(Time { ticks: pos as i64 })) };
        proof {
            lemma_kept_notes_props(act, scale as int, clock0 as int);
            let um = update_model(m0, cs0, num);
            assert(self.model().upcoming =~= um.state.upcoming);
            assert(self.model().active =~= um.state.active);
            assert(self.model() =~= um.state);
            assert(notes_wf(self.model().upcoming)) by {
                assert(forall|i: int|
                    0 <= i < up0.skip(k).len() ==> #[trigger] up0.skip(k)[i] == up0[i + k]);
            }
            assert(sorted_by_time(self.model().upcoming)) by {
                assert(forall|i: int|
                    0 <= i < up0.skip(k).len() ==> #[trigger] up0.skip(k)[i] == up0[i + k]);
            }
        }
        r
    }
}


/// The scanned prefix: the activation count never passes the first note
/// beyond the window, and everything before it is within the window.
proof fn lemma_activation_count_props(s: Seq<Note>, scale: int, window_end: int)
    ensures
        activation_count(s, scale, window_end) <= s.len(),
        forall|j: int|
            0 <= j < activation_count(s, scale, window_end) ==> eligible(
                #[trigger] s[j],
                scale,
                window_end,
            ),
        activation_count(s, scale, window_end) < s.len() ==> !eligible(
            s[activation_count(s, scale, window_end) as int],
            scale,
            window_end,
        ),
    decreases s.len(),
{
    if s.len() > 0 && eligible(s[0], scale, window_end) {
        lemma_activation_count_props(s.skip(1), scale, window_end);
        assert(forall|j: int| 0 <= j < s.len() - 1 ==> #[trigger] s.skip(1)[j] == s[j + 1]);
        let k = activation_count(s, scale, window_end) as int;
        assert forall|j: int| 0 <= j < k implies eligible(#[trigger] s[j], scale, window_end) by {
            if j > 0 {
                assert(s.skip(1)[j - 1] == s[j]);
                assert(eligible(s.skip(1)[j - 1], scale, window_end));
            }
        }
        if k < s.len() {
            assert(s.skip(1)[k - 1] == s[k]);
        }
    }
}

/// While playing, a buffer of `num` samples advances the clock by exactly
/// the buffer's length — `num * sample_den` clock units, which is
/// `num / sample_rate` seconds' worth of beats — and the reported
/// position never moves backwards. Updates compose, so along any run of
/// buffers the position is non-decreasing.
pub proof fn lemma_position_advances(m: PlayerModel, num: int)
    requires
        m.wf(),
        m.playing,
        0 <= num,
        update_fits(m, Seq::<Command>::empty(), num),
    ensures
        update_model(m, Seq::<Command>::empty(), num).state.clock == m.clock + num
            * m.sample_den(),
        update_model(m, Seq::<Command>::empty(), num).position == Some(
            tdiv(m.clock + num * m.sample_den(), m.clock_scale()),
        ),
        tdiv(m.clock + num * m.sample_den(), m.clock_scale()) >= m.position_ticks(),
{
    lemma_scale_bounds(m);
    assert(apply_commands(m, Seq::<Command>::empty()) == m);
    assert(num * m.sample_den() >= 0) by (nonlinear_arith)
        requires
            num >= 0,
            1 <= m.sample_den(),
    ;
    crate::numeric::lemma_tdiv_monotone(
        m.clock,
        m.clock + num * m.sample_den(),
        m.clock_scale(),
    );
}

/// Seeking twice to the same time with nothing in between is the same as
/// seeking once.
pub proof fn lemma_set_time_idempotent(m: PlayerModel, t: Time)
    ensures
        apply_command(apply_command(m, Command::SetTime(t)), Command::SetTime(t))
            == apply_command(m, Command::SetTime(t)),
{
    assert(apply_command(apply_command(m, Command::SetTime(t)), Command::SetTime(t)) =~=
        apply_command(m, Command::SetTime(t)));
}

/// A pause immediately followed by a start leaves the transport exactly
/// as a lone start would, and starting an already running transport
/// changes nothing: the clock does not drift while paused, so the output
/// afterwards is the output that would have come without the pause.
pub proof fn lemma_pause_start_transparent(m: PlayerModel)
    ensures
        apply_commands(m, seq![Command::Pause, Command::Start]) == apply_commands(
            m,
            seq![Command::Start],
        ),
        m.playing ==> apply_commands(m, seq![Command::Start]) == m,
{
    let s2 = seq![Command::Pause, Command::Start];
    let s1 = seq![Command::Start];
    let e = Seq::<Command>::empty();
    let p1 = apply_command(m, Command::Pause);
    assert(apply_commands(m, e) == m);
    assert(seq![Command::Pause].drop_last() =~= e);
    assert(apply_commands(m, seq![Command::Pause]) == p1);
    assert(s2.drop_last() =~= seq![Command::Pause]);
    assert(s2.last() == Command::Start);
    assert(apply_commands(m, s2) == apply_command(p1, Command::Start));
    assert(s1.drop_last() =~= e);
    assert(s1.last() == Command::Start);
    assert(apply_commands(m, s1) == apply_command(m, Command::Start));
    assert(apply_command(p1, Command::Start) =~= apply_command(m, Command::Start));
    if m.playing {
        assert(apply_command(m, Command::Start) =~= m);
    }
}

/// While the transport is paused, an update applies the commands and does
/// nothing else: no render plans, no position event, no other change of
/// state — the buffer stays silent.
pub proof fn lemma_paused_update_inert(m: PlayerModel, cs: Seq<Command>, num: int)
    requires
        !apply_commands(m, cs).playing,
    ensures
        update_model(m, cs, num).state == apply_commands(m, cs),
        update_model(m, cs, num).renders == Seq::<RenderModel>::empty(),
        update_model(m, cs, num).position is None,
{
}


/// An update leaves the transport within the engine's bounds, so the
/// one-buffer laws apply again to the next buffer: along any run of
/// buffers the clock advances by exactly each buffer's length and the
/// position never moves backwards.
pub proof fn lemma_update_model_wf(m: PlayerModel, cs: Seq<Command>, num: int)
    requires
        m.wf(),
        commands_wf(cs),
        0 <= num,
        update_fits(m, cs, num),
    ensures
        update_model(m, cs, num).state.wf(),
{
    let m1 = apply_commands(m, cs);
    lemma_apply_commands_wf(m, cs);
    if m1.playing {
        let wend = m1.clock + num * m1.sample_den();
        let scale = m1.clock_scale();
        lemma_activation_count_props(m1.upcoming, scale, wend);
        let k = activation_count(m1.upcoming, scale, wend) as int;
        assert(forall|i: int|
            0 <= i < m1.upcoming.skip(k).len() ==> #[trigger] m1.upcoming.skip(k)[i]
                == m1.upcoming[i + k]);
        let act = m1.active + m1.upcoming.take(k);
        assert(notes_wf(act)) by {
            assert(forall|i: int|
                0 <= i < act.len() ==> #[trigger] act[i] == if i < m1.active.len() {
                    m1.active[i]
                } else {
                    m1.upcoming.take(k)[i - m1.active.len()]
                });
        }
        lemma_kept_notes_props(act, scale, m1.clock);
    }
}

/// The scheduler's queue invariants after an update: every note left
/// upcoming starts strictly after the window end, and every note kept
/// active ends at or after the window start.
pub proof fn lemma_update_queue_invariants(m: PlayerModel, cs: Seq<Command>, num: int)
    requires
        m.wf(),
        commands_wf(cs),
        apply_commands(m, cs).playing,
    ensures
        ({
            let m1 = apply_commands(m, cs);
            let um = update_model(m, cs, num);
            let wend = m1.clock + num * m1.sample_den();
            &&& forall|i: int|
                0 <= i < um.state.upcoming.len() ==> !eligible(
                    #[trigger] um.state.upcoming[i],
                    m1.clock_scale(),
                    wend,
                )
            &&& forall|i: int|
                0 <= i < um.state.active.len() ==> keeps(
                    #[trigger] um.state.active[i],
                    m1.clock_scale(),
                    m1.clock,
                )
        }),
{
    let m1 = apply_commands(m, cs);
    let um = update_model(m, cs, num);
    let wend = m1.clock + num * m1.sample_den();
    let scale = m1.clock_scale();
    lemma_apply_commands_wf(m, cs);
    lemma_scale_bounds(m1);
    lemma_activation_count_props(m1.upcoming, scale, wend);
    let k = activation_count(m1.upcoming, scale, wend) as int;
    assert(forall|i: int|
        0 <= i < m1.upcoming.skip(k).len() ==> #[trigger] m1.upcoming.skip(k)[i]
            == m1.upcoming[i + k]);
    assert forall|i: int| 0 <= i < um.state.upcoming.len() implies !eligible(
        #[trigger] um.state.upcoming[i],
        scale,
        wend,
    ) by {
        assert(um.state.upcoming[i] == m1.upcoming[i + k]);
        assert(k < m1.upcoming.len());
        assert(!eligible(m1.upcoming[k], scale, wend));
        assert(m1.upcoming[k].time.ticks <= m1.upcoming[i + k].time.ticks);
        lemma_mul_inequality(
            m1.upcoming[k].time.ticks as int,
            m1.upcoming[i + k].time.ticks as int,
            scale,
        );
    }
    let act = m1.active + m1.upcoming.take(k);
    assert(notes_wf(act)) by {
        assert(forall|i: int|
            0 <= i < act.len() ==> #[trigger] act[i] == if i < m1.active.len() {
                m1.active[i]
            } else {
                m1.upcoming.take(k)[i - m1.active.len()]
            });
    }
    lemma_kept_notes_props(act, scale, m1.clock);
}

/// The activation test, executably.
fn eligible_exec(n: &Note, scale: i128, window_end: i128) -> (b: bool)
    requires
        n.wf(),
        1 <= scale <= 0x10_0000_0000_0000,
    ensures
        b == eligible(*n, scale as int, window_end as int),
{
    proof {
        lemma_abs_mul_le(n.time.ticks as int, TICK_LIMIT as int, scale as int,
            0x10_0000_0000_0000);
    }
    (n.time.ticks as i128) * scale <= window_end
}

} // verus!
