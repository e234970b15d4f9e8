//! Scores: parts, bars and tempo marks.

use crate::harmony::KeySignature;
use crate::note::{notes_wf, Note};
use crate::rhythm::{Time, TimeSignature, TICK_LIMIT};
use vstd::prelude::*;

verus! {

/// A tempo mark, kept in its exact MIDI form: microseconds per beat.
/// The beats-per-minute value is `60_000_000 / micros_per_beat`.
#[derive(Debug, Clone, Copy, PartialEq, Eq, Structural, Hash)]
pub struct Tempo {
    pub micros_per_beat: u32,
}

impl Tempo {
    pub fn from_micros_per_beat(micros_per_beat: u32) -> (t: Tempo)
        ensures
            t.micros_per_beat == micros_per_beat,
    {
        Tempo { micros_per_beat }
    }
}

/// One instrument's line: its notes in start order, and the signature
/// changes that apply to it.
#[derive(Debug, Clone)]
pub struct Part {
    pub description: String,
    pub notes: Vec<Note>,
    pub time_signature: Vec<(Time, TimeSignature)>,
    pub key_signature: Vec<(Time, KeySignature)>,
}

/// A whole piece: its parts and its tempo map.
#[derive(Debug, Clone)]
pub struct Score {
    pub tracks: Vec<Part>,
    pub tempo_map: Vec<(Time, Tempo)>,
}

/// One bar of a part: its time span, its signature, and the index range of
/// the part's notes that start inside it.
#[derive(Debug, Clone, PartialEq, Eq, Structural, Hash)]
pub struct Bar {
    pub start: Time,
    pub end: Time,
    pub time_signature: TimeSignature,
    pub note_start: usize,
    pub note_end: usize,
}

/// The latest end tick among the notes, or zero when there are none.
pub open spec fn last_end_ticks(s: Seq<Note>) -> int
    decreases s.len(),
{
    if s.len() == 0 {
        0
    } else if s.len() == 1 {
        s[0].end_ticks()
    } else {
        let rest = last_end_ticks(s.drop_last());
        let e = s.last().end_ticks();
        if e > rest {
            e
        } else {
            rest
        }
    }
}

impl Part {
    pub fn new() -> (p: Part)
        ensures
            p.description@ =~= Seq::<char>::empty(),
            p.notes@ =~= Seq::<Note>::empty(),
            p.time_signature@ =~= Seq::<(Time, TimeSignature)>::empty(),
            p.key_signature@ =~= Seq::<(Time, KeySignature)>::empty(),
    {
        Part {
            description: String::new(),
            notes: Vec::new(),
            time_signature: Vec::new(),
            key_signature: Vec::new(),
        }
    }

    /// The time at which the part's last note ends, or the origin for an
    /// empty part.
    pub fn latest_end(&self) -> (t: Time)
        requires
            notes_wf(self.notes@),
        ensures
            t.ticks == last_end_ticks(self.notes@),
            -TICK_LIMIT <= t.ticks <= TICK_LIMIT,
    {
        let n = self.notes.len();
        if n == 0 {
            return Time { ticks: 0 };
        }
        let first = self.notes[0];
        assert(self.notes@[0].wf());
        let mut m: i64 = first.time.ticks + first.duration.ticks;
        let mut i: usize = 1;
        assert(self.notes@.take(1).drop_last() =~= self.notes@.take(0));
        while i < n
            invariant
                notes_wf(self.notes@),
                1 <= i <= n,
                n == self.notes@.len(),
                m == last_end_ticks(self.notes@.take(i as int)),
                -TICK_LIMIT <= m <= TICK_LIMIT,
            decreases n - i,
        {
            assert(self.notes@[i as int].wf());
            let nt = self.notes[i];
            let e = nt.time.ticks + nt.duration.ticks;
            proof {
                assert(self.notes@.take(i + 1).drop_last() =~= self.notes@.take(i as int));
                assert(self.notes@.take(i + 1).last() == self.notes@[i as int]);
            }
            if e > m {
                m = e;
            }
            i = i + 1;
        }
        proof {
            assert(self.notes@.take(n as int) =~= self.notes@);
        }
        Time { ticks: m }
    }

    /// The bars of the part, under the default 4/4 signature as the
    /// original keeps it: bar `j` starts at `j` bar lengths from the
    /// origin, and there are enough bars to reach the part's latest note
    /// end.
    pub fn bars(&self) -> (r: Vec<(Time, TimeSignature)>)
        requires
            notes_wf(self.notes@),
        ensures
            ({
                let sig = TimeSignature { numerator: 4, subdivision: 4 };
                let end = Time { ticks: last_end_ticks(self.notes@) as i64 };
                let nb = sig.num_bars(Time { ticks: 0 }, end);
                &&& r@.len() == (if nb >= 0 {
                    nb
                } else {
                    0
                })
                &&& forall|j: int|
                    0 <= j < r@.len() ==> (#[trigger] r@[j]).0.ticks == j * sig.bar_ticks()
                        && r@[j].1 == sig
            }),
    {
        let sig = TimeSignature::default();
        let end = self.latest_end();
        let starts = sig.bars_in(Time { ticks: 0 }, end);
        let mut r: Vec<(Time, TimeSignature)> = Vec::new();
        let n = starts.len();
        let mut i: usize = 0;
        while i < n
            invariant
                n == starts@.len(),
                i <= n,
                r@.len() == i,
                sig == (TimeSignature { numerator: 4, subdivision: 4 }),
                forall|j: int|
                    0 <= j < n ==> (#[trigger] starts@[j]).ticks == 0 + j * sig.bar_ticks(),
                forall|j: int|
                    0 <= j < i ==> (#[trigger] r@[j]).0.ticks == j * sig.bar_ticks() && r@[j].1
                        == sig,
            decreases n - i,
        {
            r.push((starts[i], sig));
            i = i + 1;
        }
        r
    }
}

impl Score {
    pub fn new() -> (s: Score)
        ensures
            s.tracks@ =~= Seq::<Part>::empty(),
            s.tempo_map@ =~= Seq::<(Time, Tempo)>::empty(),
    {
        Score { tracks: Vec::new(), tempo_map: Vec::new() }
    }
}

} // verus!
