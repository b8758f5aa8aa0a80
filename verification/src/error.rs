use vstd::prelude::*;

verus! {

/// Errors raised by the core music model.
#[derive(Debug, Clone, PartialEq)]
pub enum CoreError {
    InvalidMidiPitch(u8),
    InvalidPitchNotation(String),
    InvalidTimeSignature { numerator: u32, denominator: u32 },
    InvalidDuration(String),
    MeasureOverflow,
}

/// Errors raised by the guitar engine.
#[derive(Debug, Clone, PartialEq)]
pub enum GuitarError {
    InvalidStringCount(usize),
    OutOfRange(String),
    NoViableFingering,
}

/// Errors raised while reading or writing MIDI.
#[derive(Debug)]
pub enum MidiError {
    ParseError(String),
    WriteError(String),
    Io(std::io::Error),
}

/// Errors raised while exporting scores.
#[derive(Debug)]
pub enum ScoreError {
    GenerationError(String),
    Io(std::io::Error),
}

/// Errors raised by audio decoding and analysis.
#[derive(Debug)]
pub enum AudioError {
    DecodeError(String),
    UnsupportedFormat,
    NoTrackFound,
    DspError(String),
    Io(std::io::Error),
}

/// The error type of the standard library's I/O operations, carried by the
/// `Io` variants above; Verus sees nothing inside it.
#[verifier::external_type_specification]
#[verifier::external_body]
pub struct ExIoError(std::io::Error);

} // verus!
