//! Pitch classes, pitches and key signatures.
//!
//! A pitch is stored as an integer count of cents above MIDI note zero
//! (one cent is a hundredth of a halfstep), so pitch arithmetic is exact.
//! Only the conversion to a frequency in hertz needs real arithmetic, and
//! that conversion lives with the audio output, outside this crate's logic.

use crate::numeric::tdiv;
use vstd::prelude::*;
use vstd::string::*;

verus! {

/// A pitch class: one of the twelve halfsteps of the octave, plus `CFlat`,
/// which names the same sound as `B` but belongs to the octave above it
/// (so that C-flat of octave 4 equals B of octave 3).
#[derive(Debug, Clone, Copy, PartialEq, Eq, Structural, Hash)]
pub enum Chroma {
    CFlat,
    C,
    CSharp,
    D,
    DSharp,
    E,
    F,
    FSharp,
    G,
    GSharp,
    A,
    ASharp,
    B,
}

/// The halfstep offset of a chroma from C, between -1 (`CFlat`) and 11 (`B`).
pub open spec fn chroma_halfsteps(c: Chroma) -> int {
    match c {
        Chroma::CFlat => -1,
        Chroma::C => 0,
        Chroma::CSharp => 1,
        Chroma::D => 2,
        Chroma::DSharp => 3,
        Chroma::E => 4,
        Chroma::F => 5,
        Chroma::FSharp => 6,
        Chroma::G => 7,
        Chroma::GSharp => 8,
        Chroma::A => 9,
        Chroma::ASharp => 10,
        Chroma::B => 11,
    }
}

impl Chroma {
    /// The flat spellings that share a sound with a sharp spelling.
    pub fn d_flat() -> (c: Chroma)
        ensures
            c == Chroma::CSharp,
    {
        Chroma::CSharp
    }

    pub fn e_flat() -> (c: Chroma)
        ensures
            c == Chroma::DSharp,
    {
        Chroma::DSharp
    }

    pub fn g_flat() -> (c: Chroma)
        ensures
            c == Chroma::FSharp,
    {
        Chroma::FSharp
    }

    pub fn a_flat() -> (c: Chroma)
        ensures
            c == Chroma::GSharp,
    {
        Chroma::GSharp
    }

    pub fn b_flat() -> (c: Chroma)
        ensures
            c == Chroma::ASharp,
    {
        Chroma::ASharp
    }

    /// The halfstep offset from C, between -1 and 11; -1 stands for C-flat,
    /// so that C-flat of an octave equals B of the octave below.
    pub fn to_midi_chroma(self) -> (midi: i8)
        ensures
            midi == chroma_halfsteps(self),
    {
        match self {
            Chroma::CFlat => -1,
            Chroma::C => 0,
            Chroma::CSharp => 1,
            Chroma::D => 2,
            Chroma::DSharp => 3,
            Chroma::E => 4,
            Chroma::F => 5,
            Chroma::FSharp => 6,
            Chroma::G => 7,
            Chroma::GSharp => 8,
            Chroma::A => 9,
            Chroma::ASharp => 10,
            Chroma::B => 11,
        }
    }

    /// The conventional spelling of the chroma.
    pub open spec fn spelled(self) -> Seq<char> {
        match self {
            Chroma::CFlat => "Cb"@,
            Chroma::C => "C"@,
            Chroma::CSharp => "C#"@,
            Chroma::D => "D"@,
            Chroma::DSharp => "D#"@,
            Chroma::E => "E"@,
            Chroma::F => "F"@,
            Chroma::FSharp => "F#"@,
            Chroma::G => "G"@,
            Chroma::GSharp => "G#"@,
            Chroma::A => "A"@,
            Chroma::ASharp => "A#"@,
            Chroma::B => "B"@,
        }
    }

    /// The chroma's conventional name: a letter, with `#` for a sharp and
    /// `b` for the flat.
    pub fn name(&self) -> (r: String)
        ensures
            r@ == self.spelled(),
    {
        match self {
            Chroma::CFlat => String::from_str("Cb"),
            Chroma::C => String::from_str("C"),
            Chroma::CSharp => String::from_str("C#"),
            Chroma::D => String::from_str("D"),
            Chroma::DSharp => String::from_str("D#"),
            Chroma::E => String::from_str("E"),
            Chroma::F => String::from_str("F"),
            Chroma::FSharp => String::from_str("F#"),
            Chroma::G => String::from_str("G"),
            Chroma::GSharp => String::from_str("G#"),
            Chroma::A => String::from_str("A"),
            Chroma::ASharp => String::from_str("A#"),
            Chroma::B => String::from_str("B"),
        }
    }

    /// The chroma at a halfstep offset between 0 and 11 from C; `None`
    /// outside that range. Inverse of `to_midi_chroma` on 0 to 11.
    pub fn from_midi_chroma(midi: u8) -> (r: Option<Chroma>)
        ensures
            midi <= 11 ==> (r matches Some(c) && chroma_halfsteps(c) == midi),
            midi > 11 ==> r is None,
    {
        match midi {
            0 => Some(Chroma::C),
            1 => Some(Chroma::CSharp),
            2 => Some(Chroma::D),
            3 => Some(Chroma::DSharp),
            4 => Some(Chroma::E),
            5 => Some(Chroma::F),
            6 => Some(Chroma::FSharp),
            7 => Some(Chroma::G),
            8 => Some(Chroma::GSharp),
            9 => Some(Chroma::A),
            10 => Some(Chroma::ASharp),
            11 => Some(Chroma::B),
            _ => None,
        }
    }
}

/// A key, as it appears in a MIDI key-signature event: a count of sharps
/// (positive) or flats (negative), and whether the key is major.
#[derive(Debug, Clone, Copy, PartialEq, Eq, Structural, Hash)]
pub struct KeySignature {
    pub flats_sharps: i8,
    pub major: bool,
}

impl KeySignature {
    pub fn from_midi(flats_sharps: i8, major: bool) -> (k: KeySignature)
        ensures
            k.flats_sharps == flats_sharps,
            k.major == major,
    {
        KeySignature { flats_sharps, major }
    }
}

/// The pitch of a note, stored as whole cents: `midi_cents` is one hundred
/// times the MIDI note number, so halfsteps and finer shadings are both
/// exact integers. MIDI note 69 (A above middle C) sounds at 440 Hz.
#[derive(Debug, Default, Clone, Copy, PartialEq, Eq, Structural, Hash)]
pub struct Pitch {
    pub midi_cents: i32,
}

impl Pitch {
    /// The pitch of a whole MIDI note number.
    pub fn from_midi(midi: i32) -> (p: Pitch)
        requires
            -21474836 <= midi <= 21474836,
        ensures
            p.midi_cents == 100 * midi,
    {
        Pitch { midi_cents: 100 * midi }
    }

    /// The nearest-below whole MIDI note number: cents truncated toward
    /// zero, as the original floating representation truncates.
    pub fn to_midi(self) -> (midi: i32)
        ensures
            midi == tdiv(self.midi_cents as int, 100),
    {
        proof {
            crate::numeric::lemma_tdiv_mul_bound(self.midi_cents as int, 100);
        }
        crate::numeric::div_i64(self.midi_cents as i64, 100) as i32
    }

    /// The pitch of a chroma within an octave: `chroma + octave * 12`
    /// halfsteps.
    pub fn from_chroma_octave(chroma: Chroma, octave: i32) -> (p: Pitch)
        requires
            -1000000 <= octave <= 1000000,
        ensures
            p.midi_cents == 100 * (chroma_halfsteps(chroma) + octave * 12),
    {
        let half = chroma.to_midi_chroma() as i32;
        Pitch { midi_cents: 100 * (half + octave * 12) }
    }

    /// The chroma of the pitch, for pitches within the MIDI range.
    pub fn chroma(&self) -> (c: Chroma)
        requires
            0 <= self.midi_cents,
        ensures
            chroma_halfsteps(c) == tdiv(self.midi_cents as int, 100) % 12,
    {
        let midi = self.to_midi();
        proof {
            crate::numeric::lemma_tdiv_pos(self.midi_cents as int, 100);
            vstd::arithmetic::div_mod::lemma_mod_bound(midi as int, 12);
        }
        let r = Chroma::from_midi_chroma((midi % 12) as u8);
        match r {
            Some(c) => c,
            None => Chroma::C,
        }
    }

    /// The octave of the pitch, counted so that MIDI note 60 is octave 4.
    /// Defined for the MIDI range, whole notes 0 to 127.
    pub fn octave(&self) -> (o: i8)
        requires
            0 <= self.midi_cents <= 12799,
        ensures
            o == tdiv(self.midi_cents as int, 100) / 12 - 1,
    {
        proof {
            crate::numeric::lemma_tdiv_pos(self.midi_cents as int, 100);
            crate::numeric::lemma_tdiv_pos(tdiv(self.midi_cents as int, 100), 12);
        }
        let midi = self.to_midi();
        (midi / 12 - 1) as i8
    }

    /// The same chroma placed in another octave.
    pub fn with_octave(&self, octave: i32) -> (p: Pitch)
        requires
            0 <= self.midi_cents,
            -1000000 <= octave <= 1000000,
        ensures
            p.midi_cents == 100 * (tdiv(self.midi_cents as int, 100) % 12 + octave * 12),
    {
        Pitch::from_chroma_octave(self.chroma(), octave)
    }

    /// The cents above the nearest-below whole halfstep, for non-negative
    /// pitches: the remainder of the cent count by one hundred.
    pub fn cents(&self) -> (c: i32)
        requires
            0 <= self.midi_cents,
        ensures
            c == self.midi_cents as int % 100,
    {
        self.midi_cents % 100
    }

    /// The same halfstep with the cents replaced.
    pub fn with_cents(&self, cents: i32) -> (p: Pitch)
        requires
            0 <= self.midi_cents <= 12799,
            0 <= cents <= 99,
        ensures
            p.midi_cents == self.midi_cents - self.midi_cents as int % 100 + cents,
    {
        proof {
            vstd::arithmetic::div_mod::lemma_mod_bound(self.midi_cents as int, 100);
        }
        Pitch { midi_cents: self.midi_cents - self.midi_cents % 100 + cents }
    }
}

} // verus!
