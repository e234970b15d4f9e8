use music_notation::articulation::Velocity;
use music_notation::harmony::Pitch;
use music_notation::note::Note;
use music_notation::rhythm::{Duration, Time, TICKS_PER_BEAT};
use music_notation::score::{Bar, Part, Score, Tempo};

fn note_at(ticks: i64, dur: i64) -> Note {
    Note::new(
        Time::from_ticks(ticks),
        Duration::from_ticks(dur),
        Pitch::from_midi(60),
        Velocity::from_midi(64),
    )
}

#[test]
fn empty_part_has_no_bars() {
    let p = Part::new();
    assert_eq!(p.latest_end().ticks, 0);
    assert!(p.bars().is_empty());
}

#[test]
fn latest_end_takes_the_maximum() {
    let mut p = Part::new();
    p.notes.push(note_at(0, TICKS_PER_BEAT));
    p.notes.push(note_at(TICKS_PER_BEAT, 2 * TICKS_PER_BEAT));
    p.notes.push(note_at(2 * TICKS_PER_BEAT, 100));
    assert_eq!(p.latest_end().ticks, 3 * TICKS_PER_BEAT);
    assert_eq!(p.notes[1].end().ticks, 3 * TICKS_PER_BEAT);
}

#[test]
fn bars_reach_the_last_note_end() {
    let mut p = Part::new();
    // ends half way into the third default bar
    p.notes.push(note_at(0, 2 * TICKS_PER_BEAT + TICKS_PER_BEAT / 2));
    let bars = p.bars();
    assert_eq!(bars.len(), 3);
    assert_eq!(bars[0].0.ticks, 0);
    assert_eq!(bars[1].0.ticks, TICKS_PER_BEAT);
    assert_eq!(bars[2].0.ticks, 2 * TICKS_PER_BEAT);
    assert!(bars.iter().all(|(_, sig)| sig.numerator == 4 && sig.subdivision == 4));
}

#[test]
fn tempo_keeps_exact_micros() {
    let t = Tempo::from_micros_per_beat(500000); // 120 beats per minute
    assert_eq!(t.micros_per_beat, 500000);
}

#[test]
fn score_and_bar_are_plain_data() {
    let mut s = Score::new();
    s.tempo_map.push((Time::zero(), Tempo::from_micros_per_beat(500000)));
    s.tracks.push(Part::new());
    assert_eq!(s.tracks.len(), 1);
    let bar = Bar {
        start: Time::zero(),
        end: Time::from_ticks(TICKS_PER_BEAT),
        time_signature: music_notation::rhythm::TimeSignature::default(),
        note_start: 0,
        note_end: 0,
    };
    assert_eq!(bar.end.ticks, TICKS_PER_BEAT);
}
