use music_notation::articulation::Velocity;
use music_notation::harmony::Pitch;
use music_notation::note::Note;
use music_notation::player::{Command, Event, PlayerState};
use music_notation::render::{attack_level, decay_level};
use music_notation::rhythm::{Duration, Time, TICKS_PER_BEAT};

fn a4_one_beat() -> Note {
    Note::new(
        Time::zero(),
        Duration::quarter(), // one beat
        Pitch::from_midi(69),
        Velocity::from_midi(127),
    )
}

/// Sample rate 48000 Hz, default tempo `beats_to_seconds = 0.5`: the clock
/// scale is `48000 * 1 * 2` and the sample denominator
/// `TICKS_PER_BEAT * 2 * 2`.
const SCALE: i128 = 96000;
const DEN: i128 = 4 * TICKS_PER_BEAT as i128;

#[test]
fn silent_before_any_command_and_before_start() {
    let mut s = PlayerState::new(48000);
    let r = s.update(vec![], 512);
    assert!(r.renders.is_empty());
    assert_eq!(r.event, None);
    // a buffer set and seeked, but not started, stays silent too
    let r = s.update(
        vec![Command::SetBuffer(vec![a4_one_beat()]), Command::SetTime(Time::zero())],
        512,
    );
    assert!(r.renders.is_empty());
    assert_eq!(r.event, None);
    assert_eq!(s.clock, 0);
}

#[test]
fn single_note_at_48000() {
    let mut s = PlayerState::new(48000);
    let cmds = vec![
        Command::SetBuffer(vec![a4_one_beat()]),
        Command::SetTime(Time::zero()),
        Command::Start,
    ];
    assert!(s.can_update(&cmds, 512));
    let r = s.update(cmds, 512);
    assert_eq!(r.renders.len(), 1);
    let p = &r.renders[0];
    // the note starts exactly at the window start
    assert_eq!(p.start_num, 0);
    assert_eq!(p.den, DEN);
    assert_eq!(p.buf_start, 0);
    assert_eq!(p.buf_end, 512);
    // one beat at 0.5 s/beat and 48000 Hz ends 24000 samples in
    assert_eq!(p.end_num, 24000 * DEN);
    // velocity 1.0: a 0.02 s attack, 960 samples at 48 kHz
    assert_eq!(p.attack_num, 48000 * 254);
    assert_eq!(p.attack_num / 12700, 960);
    assert_eq!(p.decay_num, 48000);
    assert_eq!(p.velocity, 127);
    assert_eq!(p.pitch_cents, 6900); // A4: 440 Hz
    // the position event reports the clock after the buffer
    let expected_ticks = (512 * DEN) / SCALE; // truncated
    assert_eq!(r.event, Some(Event::Time(Time::from_ticks(expected_ticks as i64))));
    assert_eq!(s.clock, 512 * DEN);
    // the note keeps sounding into the next buffer
    assert_eq!(s.active_notes.len(), 1);
    assert!(s.upcoming_notes.is_empty());
}

#[test]
fn attack_envelope_boundaries() {
    let mut s = PlayerState::new(48000);
    let r = s.update(
        vec![Command::SetBuffer(vec![a4_one_beat()]), Command::Start],
        512,
    );
    let p = &r.renders[0];
    // attack is exactly zero at the start sample
    let at0 = attack_level(p, 0);
    assert_eq!(at0.num, 0);
    // and exactly one at start + attack duration (960 samples)
    let at960 = attack_level(p, 960);
    assert_eq!(at960.num, at960.den);
    // exactly one half way up the ramp
    let at480 = attack_level(p, 480);
    assert_eq!(at480.num * 2, at480.den);
    // decay is exactly zero at the end sample
    let d = decay_level(p, 24000);
    assert_eq!(d.num, 0);
    // and exactly one well before the final 0.02 s
    let dmid = decay_level(p, 1000);
    assert_eq!(dmid.num, dmid.den);
}

#[test]
fn two_equal_notes_render_identically() {
    // two simultaneous notes of equal pitch and velocity produce two
    // identical plans: their float contributions sum, with no
    // normalization anywhere in the engine
    let mut s = PlayerState::new(48000);
    let r = s.update(
        vec![Command::SetBuffer(vec![a4_one_beat(), a4_one_beat()]), Command::Start],
        512,
    );
    assert_eq!(r.renders.len(), 2);
    assert_eq!(r.renders[0], r.renders[1]);
}

#[test]
fn set_time_twice_equals_once() {
    let t = Time::from_ticks(12345678);
    let mut s1 = PlayerState::new(48000);
    let mut s2 = PlayerState::new(48000);
    s1.handle_commands(vec![Command::SetTime(t), Command::SetTime(t)]);
    s2.handle_commands(vec![Command::SetTime(t)]);
    assert_eq!(s1.clock, s2.clock);
    assert_eq!(s1.position(), s2.position());
}

#[test]
fn pause_then_start_is_transparent() {
    let notes = vec![a4_one_beat()];
    let mut s1 = PlayerState::new(48000);
    let mut s2 = PlayerState::new(48000);
    let r1 = s1.update(vec![Command::SetBuffer(notes.clone()), Command::Start], 512);
    let r2 = s2.update(vec![Command::SetBuffer(notes), Command::Start], 512);
    assert_eq!(r1.renders, r2.renders);
    // a pause immediately undone by a start, with no buffer in between,
    // leaves everything bit-identical to never pausing
    let ra = s1.update(vec![Command::Pause, Command::Start], 512);
    let rb = s2.update(vec![], 512);
    assert_eq!(ra.renders, rb.renders);
    assert_eq!(ra.event, rb.event);
    assert_eq!(s1.clock, s2.clock);
}

#[test]
fn pause_freezes_clock_and_queues() {
    let mut s = PlayerState::new(48000);
    s.update(vec![Command::SetBuffer(vec![a4_one_beat()]), Command::Start], 512);
    let clock_before = s.clock;
    let active_before = s.active_notes.clone();
    let r = s.update(vec![Command::Pause], 4096);
    assert!(r.renders.is_empty());
    assert_eq!(r.event, None);
    assert_eq!(s.clock, clock_before);
    assert_eq!(s.active_notes, active_before);
}

#[test]
fn position_advances_by_each_buffer_exactly() {
    let mut s = PlayerState::new(48000);
    s.update(vec![Command::Start], 0);
    let mut prev_clock = s.clock;
    let mut prev_pos = s.position();
    for &len in &[512usize, 64, 4096, 1, 480] {
        s.update(vec![], len);
        // the clock advances by exactly the buffer's length
        assert_eq!(s.clock, prev_clock + (len as i128) * DEN);
        // and the reported position never moves backwards
        let pos = s.position();
        assert!(pos.ticks >= prev_pos.ticks);
        prev_clock = s.clock;
        prev_pos = pos;
    }
}

#[test]
fn note_before_window_is_dropped_silently() {
    let mut s = PlayerState::new(48000);
    // seek far past the note before starting: it is activated and then
    // dropped without rendering a single sample
    let r = s.update(
        vec![
            Command::SetBuffer(vec![a4_one_beat()]),
            Command::SetTime(Time::from_ticks(10 * TICKS_PER_BEAT)),
            Command::Start,
        ],
        512,
    );
    assert!(r.renders.is_empty());
    assert!(s.active_notes.is_empty());
    assert!(s.upcoming_notes.is_empty());
}

#[test]
fn note_after_window_stays_upcoming() {
    let far = Note::new(
        Time::from_ticks(100 * TICKS_PER_BEAT),
        Duration::quarter(),
        Pitch::from_midi(60),
        Velocity::from_midi(64),
    );
    let mut s = PlayerState::new(48000);
    let r = s.update(vec![Command::SetBuffer(vec![far]), Command::Start], 512);
    assert!(r.renders.is_empty());
    assert!(s.active_notes.is_empty());
    assert_eq!(s.upcoming_notes.len(), 1);
}

#[test]
fn straddling_note_is_continuous_across_buffers() {
    let mut s = PlayerState::new(48000);
    let r1 = s.update(vec![Command::SetBuffer(vec![a4_one_beat()]), Command::Start], 512);
    let r2 = s.update(vec![], 512);
    let p1 = &r1.renders[0];
    let p2 = &r2.renders[0];
    // the second window sees the note exactly 512 samples further along
    assert_eq!(p2.start_num, p1.start_num - 512 * p1.den);
    assert_eq!(p2.end_num, p1.end_num - 512 * p1.den);
    // so the envelope continues exactly where the first buffer stopped:
    // the attack level at the second buffer's first sample equals the
    // level one past the first buffer's last sample
    let l1 = attack_level(p1, 512);
    let l2 = attack_level(p2, 0);
    assert_eq!(l1, l2);
}

#[test]
fn set_buffer_cuts_active_notes() {
    let mut s = PlayerState::new(48000);
    s.update(vec![Command::SetBuffer(vec![a4_one_beat()]), Command::Start], 512);
    assert_eq!(s.active_notes.len(), 1);
    // replacing the buffer discards the sounding note at once
    let r = s.update(vec![Command::SetBuffer(vec![])], 512);
    assert!(s.active_notes.is_empty());
    assert_eq!(r.renders.len(), 0);
}

#[test]
fn negative_duration_renders_nothing() {
    let broken = Note::new(
        Time::zero(),
        Duration::from_ticks(-TICKS_PER_BEAT),
        Pitch::from_midi(60),
        Velocity::from_midi(64),
    );
    let mut s = PlayerState::new(48000);
    let r = s.update(vec![Command::SetBuffer(vec![broken]), Command::Start], 512);
    // the note's end precedes its start, so it is activated and at once
    // dropped with an empty sample range
    assert!(r.renders.is_empty());
}

#[test]
fn custom_tempo_scales_the_window() {
    // one second per beat: a beat lasts 48000 samples
    let mut s = PlayerState::with_tempo(48000, 1, 1);
    let r = s.update(vec![Command::SetBuffer(vec![a4_one_beat()]), Command::Start], 512);
    let p = &r.renders[0];
    assert_eq!(p.end_num / p.den, 48000);
}
