use music_notation::articulation::{Fraction, Velocity};
use music_notation::harmony::{Chroma, KeySignature, Pitch};

#[test]
fn chroma_to_midi_offsets() {
    assert_eq!(Chroma::CFlat.to_midi_chroma(), -1);
    assert_eq!(Chroma::C.to_midi_chroma(), 0);
    assert_eq!(Chroma::CSharp.to_midi_chroma(), 1);
    assert_eq!(Chroma::D.to_midi_chroma(), 2);
    assert_eq!(Chroma::DSharp.to_midi_chroma(), 3);
    assert_eq!(Chroma::E.to_midi_chroma(), 4);
    assert_eq!(Chroma::F.to_midi_chroma(), 5);
    assert_eq!(Chroma::FSharp.to_midi_chroma(), 6);
    assert_eq!(Chroma::G.to_midi_chroma(), 7);
    assert_eq!(Chroma::GSharp.to_midi_chroma(), 8);
    assert_eq!(Chroma::A.to_midi_chroma(), 9);
    assert_eq!(Chroma::ASharp.to_midi_chroma(), 10);
    assert_eq!(Chroma::B.to_midi_chroma(), 11);
}

#[test]
fn chroma_from_midi_round_trip() {
    for midi in 0u8..=11 {
        let c = Chroma::from_midi_chroma(midi).unwrap();
        assert_eq!(c.to_midi_chroma(), midi as i8);
    }
    assert_eq!(Chroma::from_midi_chroma(12), None);
    assert_eq!(Chroma::from_midi_chroma(255), None);
}

#[test]
fn chroma_names() {
    assert_eq!(Chroma::CFlat.name(), "Cb");
    assert_eq!(Chroma::C.name(), "C");
    assert_eq!(Chroma::CSharp.name(), "C#");
    assert_eq!(Chroma::FSharp.name(), "F#");
    assert_eq!(Chroma::A.name(), "A");
    assert_eq!(Chroma::B.name(), "B");
}

#[test]
fn flat_spellings_share_sounds() {
    assert_eq!(Chroma::d_flat(), Chroma::CSharp);
    assert_eq!(Chroma::e_flat(), Chroma::DSharp);
    assert_eq!(Chroma::g_flat(), Chroma::FSharp);
    assert_eq!(Chroma::a_flat(), Chroma::GSharp);
    assert_eq!(Chroma::b_flat(), Chroma::ASharp);
}

#[test]
fn key_signature_from_midi_keeps_fields() {
    let k = KeySignature::from_midi(-3, true);
    assert_eq!(k.flats_sharps, -3);
    assert!(k.major);
    let k = KeySignature::from_midi(5, false);
    assert_eq!(k.flats_sharps, 5);
    assert!(!k.major);
}

#[test]
fn pitch_midi_round_trip() {
    let a4 = Pitch::from_midi(69);
    assert_eq!(a4.midi_cents, 6900);
    assert_eq!(a4.to_midi(), 69);
    assert_eq!(Pitch::from_midi(-12).to_midi(), -12);
}

#[test]
fn pitch_chroma_and_octave() {
    let c4 = Pitch::from_midi(60);
    assert_eq!(c4.chroma(), Chroma::C);
    assert_eq!(c4.octave(), 4);
    let a4 = Pitch::from_midi(69);
    assert_eq!(a4.chroma(), Chroma::A);
    assert_eq!(a4.octave(), 4);
    assert_eq!(Pitch::from_midi(59).octave(), 3);
}

#[test]
fn pitch_from_chroma_octave() {
    let p = Pitch::from_chroma_octave(Chroma::E, 5);
    assert_eq!(p.midi_cents, 100 * (4 + 5 * 12));
    // C-flat of octave 4 is the same sound as B of octave 3
    let cb4 = Pitch::from_chroma_octave(Chroma::CFlat, 4);
    let b3 = Pitch::from_chroma_octave(Chroma::B, 3);
    assert_eq!(cb4, b3);
}

#[test]
fn pitch_with_octave_and_cents() {
    let p = Pitch::from_midi(69);
    assert_eq!(p.with_octave(2), Pitch::from_chroma_octave(Chroma::A, 2));
    assert_eq!(p.cents(), 0);
    let shaded = Pitch { midi_cents: 6942 };
    assert_eq!(shaded.cents(), 42);
    assert_eq!(shaded.with_cents(7).midi_cents, 6907);
    assert_eq!(shaded.to_midi(), 69);
}

#[test]
fn velocity_midi_round_trip() {
    let v = Velocity::from_midi(100);
    assert_eq!(v.as_midi(), 100);
    assert_eq!(Velocity::from_midi(0).as_midi(), 0);
    assert_eq!(Velocity::from_midi(127).as_midi(), 127);
}

#[test]
fn fraction_round_trip() {
    let f = Fraction::from_u8(128);
    assert_eq!(f.as_u8(), 128);
}
