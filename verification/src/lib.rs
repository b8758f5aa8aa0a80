//! TabForge: a verified music intermediate representation with guitar
//! fingering, MIDI, MusicXML and ASCII tablature back ends.

pub mod duration;
pub mod error;
pub mod guitar;
pub mod midi;
pub mod models;
pub mod musicxml;
pub mod pitch;
pub mod project;
pub mod runs;
pub mod song;
pub mod tab;
pub mod tempo;
pub mod text;
pub mod transcription;
pub mod wav;
