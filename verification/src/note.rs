//! A single musical note.

use crate::articulation::Velocity;
use crate::harmony::Pitch;
use crate::rhythm::{Duration, Time, TICK_LIMIT};
use vstd::prelude::*;

verus! {

/// One note: when it starts, how long it sounds, at what pitch and how
/// loudly. Notes are immutable values; the playback engine takes ownership
/// of them when a buffer is submitted.
#[derive(Debug, Default, Clone, Copy, PartialEq, Eq, Structural, Hash)]
pub struct Note {
    pub time: Time,
    pub duration: Duration,
    pub pitch: Pitch,
    pub velocity: Velocity,
}

impl Note {
    /// The tick at which the note stops sounding.
    pub open spec fn end_ticks(self) -> int {
        self.time.ticks + self.duration.ticks
    }

    /// Bounds under which all of the engine's tick arithmetic is exact:
    /// start, span and end within `TICK_LIMIT`, and a MIDI loudness.
    pub open spec fn wf(self) -> bool {
        &&& -TICK_LIMIT <= self.time.ticks <= TICK_LIMIT
        &&& -TICK_LIMIT <= self.duration.ticks <= TICK_LIMIT
        &&& -TICK_LIMIT <= self.end_ticks() <= TICK_LIMIT
        &&& self.velocity.0 <= 127
    }

    pub fn new(time: Time, duration: Duration, pitch: Pitch, velocity: Velocity) -> (n: Note)
        ensures
            n.time == time,
            n.duration == duration,
            n.pitch == pitch,
            n.velocity == velocity,
    {
        Note { time, duration, pitch, velocity }
    }

    /// The end of the note, as a point in time.
    pub fn end(&self) -> (t: Time)
        requires
            self.wf(),
        ensures
            t.ticks == self.end_ticks(),
    {
        Time { ticks: self.time.ticks + self.duration.ticks }
    }
}

/// All notes of a sequence are within the engine's bounds.
pub open spec fn notes_wf(s: Seq<Note>) -> bool {
    forall|i: int| 0 <= i < s.len() ==> (#[trigger] s[i]).wf()
}

/// The notes are in ascending start order, as the engine's scheduler
/// expects of a submitted buffer.
pub open spec fn sorted_by_time(s: Seq<Note>) -> bool {
    forall|i: int, j: int|
        0 <= i <= j < s.len() ==> (#[trigger] s[i]).time.ticks <= (#[trigger] s[j]).time.ticks
}

} // verus!
