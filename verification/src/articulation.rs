//! Loudness and playing-detail value types.

use vstd::prelude::*;

verus! {

/// A note's loudness, stored as a MIDI velocity in `0..=127`.
/// `0` is silent, `127` is full loudness; the normalized value is
/// `velocity / 127`.
#[derive(Debug, Default, Clone, Copy, PartialEq, Eq, Structural, Hash)]
pub struct Velocity(pub u8);

impl Velocity {
    pub fn from_midi(vel: u8) -> (v: Velocity)
        ensures
            v.0 == vel,
    {
        Velocity(vel)
    }

    pub fn as_midi(&self) -> (vel: u8)
        ensures
            vel == self.0,
    {
        self.0
    }
}

/// A finger of one hand, for fingering annotations.
#[derive(Debug, Clone, Copy, PartialEq, Eq, Structural, Hash)]
pub enum Finger {
    Thumb,
    Index,
    Middle,
    Ring,
    Pinky,
}

/// Which hand plays a note.
#[derive(Debug, Clone, Copy, PartialEq, Eq, Structural, Hash)]
pub enum Hand {
    Left,
    Right,
}

/// A fraction of a whole, stored at 1/255 resolution: the value is
/// `numerator / 255`.
#[derive(Debug, Default, Clone, Copy, PartialEq, Eq, Structural, Hash)]
pub struct Fraction(pub u8);

impl Fraction {
    pub fn from_u8(raw: u8) -> (f: Fraction)
        ensures
            f.0 == raw,
    {
        Fraction(raw)
    }

    pub fn as_u8(&self) -> (raw: u8)
        ensures
            raw == self.0,
    {
        self.0
    }
}

} // verus!
