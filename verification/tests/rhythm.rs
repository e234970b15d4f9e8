use music_notation::rhythm::{Duration, Time, TimeGrid, TimeRange, TimeSignature, TICKS_PER_BEAT};

#[test]
fn beat_constant_has_small_prime_factors() {
    assert_eq!(TICKS_PER_BEAT, 2822400);
    assert_eq!(TICKS_PER_BEAT % 2, 0);
    assert_eq!(TICKS_PER_BEAT % 3, 0);
    assert_eq!(TICKS_PER_BEAT % 5, 0);
    assert_eq!(TICKS_PER_BEAT % 7, 0);
    // halves, thirds, quintuplets and septuplets of a beat are exact
    assert_eq!((TICKS_PER_BEAT / 2) * 2, TICKS_PER_BEAT);
    assert_eq!((TICKS_PER_BEAT / 3) * 3, TICKS_PER_BEAT);
    assert_eq!((TICKS_PER_BEAT / 5) * 5, TICKS_PER_BEAT);
    assert_eq!((TICKS_PER_BEAT / 7) * 7, TICKS_PER_BEAT);
}

#[test]
fn named_durations() {
    assert_eq!(Duration::whole().ticks, 4 * TICKS_PER_BEAT);
    assert_eq!(Duration::half().ticks, 2 * TICKS_PER_BEAT);
    assert_eq!(Duration::quarter().ticks, TICKS_PER_BEAT);
    assert_eq!(Duration::eighth().ticks, TICKS_PER_BEAT / 2);
    assert_eq!(Duration::sixteenth().ticks, TICKS_PER_BEAT / 4);
    assert_eq!(Duration::thirty_second().ticks, TICKS_PER_BEAT / 8);
    assert_eq!(Duration::quarter_triplet().ticks, TICKS_PER_BEAT / 3);
    assert_eq!(Duration::eighth_triplet().ticks, TICKS_PER_BEAT / 3);
    assert_eq!(Duration::sixteenth_triplet().ticks, TICKS_PER_BEAT / 6);
    // a triplet times three is exactly a beat: no rounding error
    assert_eq!(Duration::quarter_triplet().times(3).ticks, TICKS_PER_BEAT);
}

#[test]
fn duration_arithmetic_is_exact() {
    let a = Duration::from_ticks(1000);
    let b = Duration::from_ticks(234);
    assert_eq!(a.plus(b).ticks, 1234);
    assert_eq!(a.minus(b).ticks, 766);
    assert_eq!(b.neg().ticks, -234);
    assert_eq!(a.times(-3).ticks, -3000);
    assert_eq!(a.div_int(3).ticks, 333);
    assert_eq!(a.div_int(-3).ticks, -333);
    assert_eq!(Duration::from_ticks(-1000).div_int(3).ticks, -333);
    assert_eq!(a.div_dur(b), 4);
}

#[test]
fn time_arithmetic_is_exact() {
    let t = Time::from_ticks(500);
    let d = Duration::from_ticks(200);
    assert_eq!(t.plus(d).ticks, 700);
    assert_eq!(t.minus(d).ticks, 300);
    assert_eq!(t.minus_time(Time::from_ticks(800)).ticks, -300);
    assert_eq!(Time::zero().ticks, 0);
}

#[test]
fn div_and_ceil_rounds_up() {
    assert_eq!(Duration::from_ticks(10).div_and_ceil(Duration::from_ticks(4)), 3);
    assert_eq!(Duration::from_ticks(12).div_and_ceil(Duration::from_ticks(4)), 3);
    assert_eq!(Duration::from_ticks(0).div_and_ceil(Duration::from_ticks(4)), 0);
    assert_eq!(Duration::from_ticks(1).div_and_ceil(Duration::from_ticks(4)), 1);
    // the original's formula on a negative span
    assert_eq!(Duration::from_ticks(-3).div_and_ceil(Duration::from_ticks(3)), 0);
}

#[test]
fn time_signature_defaults_and_lengths() {
    let sig = TimeSignature::default();
    assert_eq!(sig.numerator, 4);
    assert_eq!(sig.subdivision, 4);
    assert_eq!(sig.subdivision_duration().ticks, TICKS_PER_BEAT / 4);
    assert_eq!(sig.bar_length().ticks, TICKS_PER_BEAT);
    let waltz = TimeSignature::new(3, 4);
    assert_eq!(waltz.bar_length().ticks, 3 * (TICKS_PER_BEAT / 4));
}

#[test]
fn time_signature_from_pair() {
    let sig = TimeSignature::from((3, 8));
    assert_eq!(sig.numerator, 3);
    assert_eq!(sig.subdivision, 8);
}

#[test]
fn bars_cover_a_span() {
    let sig = TimeSignature::default();
    let bars = sig.bars_in(Time::zero(), Time::from_ticks(2 * TICKS_PER_BEAT));
    assert_eq!(bars.len(), 2);
    assert_eq!(bars[0].ticks, 0);
    assert_eq!(bars[1].ticks, TICKS_PER_BEAT);
    // a partial last bar still gets a start
    let bars = sig.bars_in(Time::zero(), Time::from_ticks(2 * TICKS_PER_BEAT + 1));
    assert_eq!(bars.len(), 3);
    // an empty span has no bars
    let bars = sig.bars_in(Time::zero(), Time::zero());
    assert_eq!(bars.len(), 0);
}

#[test]
fn grid_iterates_points_in_range() {
    let g = TimeGrid::new(Time::zero(), Duration::from_ticks(100));
    let pts = g.iter_in_range(TimeRange {
        start: Time::from_ticks(50),
        end: Time::from_ticks(350),
    });
    assert_eq!(pts.len(), 3);
    assert_eq!(pts[0], (0, Time::from_ticks(0)));
    assert_eq!(pts[1], (1, Time::from_ticks(100)));
    assert_eq!(pts[2], (2, Time::from_ticks(200)));
}

#[test]
fn grid_closest_snaps_down() {
    let g = TimeGrid::new(Time::zero(), Duration::from_ticks(100));
    assert_eq!(g.closest(Time::from_ticks(250)), Some(Time::from_ticks(200)));
    assert_eq!(g.closest(Time::from_ticks(200)), Some(Time::from_ticks(200)));
    assert_eq!(g.closest(Time::from_ticks(99)), Some(Time::from_ticks(0)));
    // toward zero below the grid origin, as the original truncates
    assert_eq!(g.closest(Time::from_ticks(-50)), Some(Time::from_ticks(0)));
}

#[test]
fn beats_enumerates_subdivisions() {
    let sig = TimeSignature::default();
    let beats = sig.beats(
        Time::zero(),
        TimeRange { start: Time::zero(), end: Time::from_ticks(TICKS_PER_BEAT) },
    );
    let step = TICKS_PER_BEAT / 4;
    assert_eq!(beats.len(), 4);
    assert_eq!(beats[0], (Time::from_ticks(0), 0));
    assert_eq!(beats[1], (Time::from_ticks(step), 1));
    assert_eq!(beats[2], (Time::from_ticks(2 * step), 2));
    assert_eq!(beats[3], (Time::from_ticks(3 * step), 3));
}

#[test]
fn grid_from_signature() {
    let sig = TimeSignature::new(6, 8);
    let g = sig.grid(Time::from_ticks(42));
    assert_eq!(g.start.ticks, 42);
    assert_eq!(g.step.ticks, TICKS_PER_BEAT / 8);
}
