//! A music-notation library with a verified real-time playback engine.
//!
//! Musical time is kept as an exact integer count of ticks, so that common
//! subdivisions (halves, thirds, quintuplets, septuplets) are representable
//! without rounding error. The playback engine advances an exact rational
//! clock, schedules notes between an "upcoming" and an "active" queue, and
//! produces per-note render plans with sample-accurate boundaries.
//!
//! Mixing is additive and never normalized: whoever turns the render
//! plans into samples must pass the mixed buffer through a saturating
//! output stage before it reaches the device, or loud chords will clip.

pub mod articulation;
pub mod harmony;
pub mod note;
pub mod numeric;
pub mod player;
pub mod render;
pub mod rhythm;
pub mod score;
