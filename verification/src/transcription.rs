//! Decisions of the transcription pipeline that do not depend on the
//! signal: legato techniques between neighbouring notes, and the output
//! format an output file name asks for.
use vstd::prelude::*;
use crate::song::Articulation;
use crate::text::{lower_text, same_text, to_lowercase};

verus! {

/// A soft attack a few semitones from the previous note is legato: up to
/// 5 semitones up a hammer-on, up to 5 down a pull-off.
pub open spec fn legato(prev_midi: int, current_midi: int) -> Option<Articulation> {
    let diff = current_midi - prev_midi;
    if 0 < diff <= 5 {
        Some(Articulation::HammerOn)
    } else if -5 <= diff < 0 {
        Some(Articulation::PullOff)
    } else {
        None
    }
}

/// The legato technique joining a note to the previous one, if any.
pub fn legato_articulation(prev_midi: u8, current_midi: u8) -> (r: Option<Articulation>)
    ensures
        r == legato(prev_midi as int, current_midi as int),
{
    let diff = current_midi as i32 - prev_midi as i32;
    if diff > 0 && diff <= 5 {
        Some(Articulation::HammerOn)
    } else if diff < 0 && diff >= -5 {
        Some(Articulation::PullOff)
    } else {
        None
    }
}

/// What a transcription is saved as.
#[derive(Debug, Clone, Copy, PartialEq, Eq, Structural)]
pub enum OutputFormat {
    MusicXml,
    Midi,
    Tablature,
}

/// The format a lower-cased file extension asks for: "musicxml" or "xml"
/// a score, "mid" or "midi" a MIDI file, anything else the ASCII tablature.
pub open spec fn format_of(ext: Seq<char>) -> OutputFormat {
    if ext == "musicxml"@ || ext == "xml"@ {
        OutputFormat::MusicXml
    } else if ext == "mid"@ || ext == "midi"@ {
        OutputFormat::Midi
    } else {
        OutputFormat::Tablature
    }
}

impl OutputFormat {
    /// The format for an already lower-cased extension.
    pub fn from_lowercase_extension(ext: &str) -> (r: OutputFormat)
        ensures
            r == format_of(ext@),
    {
        if same_text(ext, "musicxml") || same_text(ext, "xml") {
            OutputFormat::MusicXml
        } else if same_text(ext, "mid") || same_text(ext, "midi") {
            OutputFormat::Midi
        } else {
            OutputFormat::Tablature
        }
    }

    /// The format for a file extension, case aside.
    pub fn from_extension(ext: &str) -> (r: OutputFormat)
        ensures
            r == format_of(lower_text(ext@)),
    {
        let lower = to_lowercase(ext);
        OutputFormat::from_lowercase_extension(lower.as_str())
    }
}

} // verus!
