//! Stringed-instrument engine: tunings, fretboard positions, chord shapes and
//! the fingering optimizer.

pub mod chords;
pub mod fretboard;
pub mod optimizer;
pub mod tuning;
