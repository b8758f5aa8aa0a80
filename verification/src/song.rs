//! The music intermediate representation: songs, tracks, measures, beats, notes.
use vstd::prelude::*;
use crate::duration::Duration;
use crate::pitch::Pitch;
use crate::tempo::{Tempo, TimeSignature};
use crate::text::{lower_text, same_text, to_lowercase};

verus! {

/// Instrument a track is written for.
#[derive(Debug, Clone, Copy, PartialEq, Eq, Structural)]
pub enum Instrument {
    AcousticGuitar,
    ElectricGuitarClean,
    ElectricGuitarOverdrive,
    ElectricBass,
    Piano,
    Generic,
}

impl Default for Instrument {
    /// A clean electric guitar.
    fn default() -> (r: Instrument)
        ensures
            r == Instrument::ElectricGuitarClean,
    {
        Instrument::ElectricGuitarClean
    }
}

/// The instrument a lower-cased name asks for: "bass" a bass, "acoustic"
/// or "acoustic_guitar" an acoustic guitar, anything else a clean electric
/// guitar.
pub open spec fn instrument_named(q: Seq<char>) -> Instrument {
    if q == "bass"@ {
        Instrument::ElectricBass
    } else if q == "acoustic"@ || q == "acoustic_guitar"@ {
        Instrument::AcousticGuitar
    } else {
        Instrument::ElectricGuitarClean
    }
}

impl Instrument {
    /// The instrument for an already lower-cased name.
    pub fn from_lowercase_name(q: &str) -> (r: Instrument)
        ensures
            r == instrument_named(q@),
    {
        if same_text(q, "bass") {
            Instrument::ElectricBass
        } else if same_text(q, "acoustic") || same_text(q, "acoustic_guitar") {
            Instrument::AcousticGuitar
        } else {
            Instrument::ElectricGuitarClean
        }
    }

    /// The instrument a user names, case aside.
    pub fn from_name(name: &str) -> (r: Instrument)
        ensures
            r == instrument_named(lower_text(name@)),
    {
        let q = to_lowercase(name);
        Instrument::from_lowercase_name(q.as_str())
    }
}

/// Articulations and playing techniques.
#[derive(Debug, Clone, Copy, PartialEq, Eq, Hash, Structural)]
pub enum Articulation {
    Staccato,
    Accent,
    Tenuto,
    HammerOn,
    PullOff,
    SlideUp,
    SlideDown,
    Bend,
    ReleaseBend,
    Vibrato,
    PalmMute,
    Tapping,
    Harmonic,
    GhostNote,
}

/// A note event.
#[derive(Debug, Clone, Copy, PartialEq, Eq, Structural)]
pub struct Note {
    pub pitch: Pitch,
    pub duration: Duration,
    pub velocity: u8,
    pub articulation: Option<Articulation>,
    pub tie_forward: bool,
}

impl Note {
    /// A note at velocity 80, without articulation or tie.
    pub fn new(pitch: Pitch, duration: Duration) -> (r: Note)
        ensures
            r == (Note { pitch, duration, velocity: 80, articulation: None, tie_forward: false }),
    {
        Note { pitch, duration, velocity: 80, articulation: None, tie_forward: false }
    }

    /// The note with its velocity set, capped at the MIDI maximum 127.
    pub fn with_velocity(self, velocity: u8) -> (r: Note)
        ensures
            r == (Note { velocity: if velocity > 127 { 127 } else { velocity }, ..self }),
    {
        let mut n = self;
        n.velocity = if velocity > 127 { 127 } else { velocity };
        n
    }

    /// The note with an articulation.
    pub fn with_articulation(self, articulation: Articulation) -> (r: Note)
        ensures
            r == (Note { articulation: Some(articulation), ..self }),
    {
        let mut n = self;
        n.articulation = Some(articulation);
        n
    }
}

/// A slice of a measure: its offset from the measure start, its length, and
/// the notes sounding together (none for a rest).
#[derive(Debug, Clone, PartialEq)]
pub struct Beat {
    pub position: Duration,
    pub duration: Duration,
    pub notes: Vec<Note>,
}

impl Beat {
    /// A rest.
    pub fn new(position: Duration, duration: Duration) -> (r: Beat)
        ensures
            r.position == position,
            r.duration == duration,
            r.notes@ == Seq::<Note>::empty(),
    {
        Beat { position, duration, notes: Vec::new() }
    }

    pub fn with_notes(position: Duration, duration: Duration, notes: Vec<Note>) -> (r: Beat)
        ensures
            r.position == position,
            r.duration == duration,
            r.notes@ == notes@,
    {
        Beat { position, duration, notes }
    }

    /// A beat without notes is a rest.
    pub fn is_rest(&self) -> (r: bool)
        ensures
            r == (self.notes@.len() == 0),
    {
        self.notes.len() == 0
    }
}

/// A measure: its number, an optional change of time signature or tempo
/// taking effect there, and its beats.
#[derive(Debug, Clone, PartialEq)]
pub struct Measure {
    pub number: u32,
    pub time_signature: Option<TimeSignature>,
    pub tempo: Option<Tempo>,
    pub beats: Vec<Beat>,
}

impl Measure {
    /// An empty measure with no change of time signature or tempo.
    pub fn new(number: u32) -> (r: Measure)
        ensures
            r.number == number,
            r.time_signature is None,
            r.tempo is None,
            r.beats@.len() == 0,
    {
        Measure { number, time_signature: None, tempo: None, beats: Vec::new() }
    }

    pub fn with_time_signature(self, time_signature: TimeSignature) -> (r: Measure)
        ensures
            r.number == self.number,
            r.time_signature == Some(time_signature),
            r.tempo == self.tempo,
            r.beats@ == self.beats@,
    {
        let mut m = self;
        m.time_signature = Some(time_signature);
        m
    }

    pub fn with_tempo(self, tempo: Tempo) -> (r: Measure)
        ensures
            r.number == self.number,
            r.time_signature == self.time_signature,
            r.tempo == Some(tempo),
            r.beats@ == self.beats@,
    {
        let mut m = self;
        m.tempo = Some(tempo);
        m
    }

    /// Appends a beat.
    pub fn add_beat(&mut self, beat: Beat)
        ensures
            final(self).number == old(self).number,
            final(self).time_signature == old(self).time_signature,
            final(self).tempo == old(self).tempo,
            final(self).beats@ == old(self).beats@.push(beat),
    {
        self.beats.push(beat);
    }
}

/// A track: measures played by one instrument on one MIDI channel.
#[derive(Debug, Clone, PartialEq)]
pub struct Track {
    pub name: String,
    pub instrument: Instrument,
    pub channel: u8,
    pub measures: Vec<Measure>,
}

impl Track {
    /// An empty track on channel 0.
    pub fn new(name: &str, instrument: Instrument) -> (r: Track)
        ensures
            r.name@ == name@,
            r.instrument == instrument,
            r.channel == 0,
            r.measures@.len() == 0,
    {
        Track { name: String::from_str(name), instrument, channel: 0, measures: Vec::new() }
    }

    /// Appends a measure.
    pub fn add_measure(&mut self, measure: Measure)
        ensures
            final(self).name == old(self).name,
            final(self).instrument == old(self).instrument,
            final(self).channel == old(self).channel,
            final(self).measures@ == old(self).measures@.push(measure),
    {
        self.measures.push(measure);
    }
}

/// A song: title, optional artist, initial tempo and time signature, tracks.
#[derive(Debug, Clone, PartialEq)]
pub struct Song {
    pub title: String,
    pub artist: Option<String>,
    pub tempo: Tempo,
    pub time_signature: TimeSignature,
    pub tracks: Vec<Track>,
}

impl Song {
    /// An empty song at 120 BPM in 4/4.
    pub fn new(title: &str) -> (r: Song)
        ensures
            r.title@ == title@,
            r.artist is None,
            r.tempo@ == 120_000,
            r.time_signature == (TimeSignature { numerator: 4, denominator: 4 }),
            r.tracks@.len() == 0,
    {
        Song {
            title: String::from_str(title),
            artist: None,
            tempo: Tempo::default(),
            time_signature: TimeSignature::default(),
            tracks: Vec::new(),
        }
    }

    pub fn with_tempo(self, tempo: Tempo) -> (r: Song)
        ensures
            r.title == self.title,
            r.artist == self.artist,
            r.tempo == tempo,
            r.time_signature == self.time_signature,
            r.tracks@ == self.tracks@,
    {
        let mut s = self;
        s.tempo = tempo;
        s
    }

    pub fn with_time_signature(self, time_signature: TimeSignature) -> (r: Song)
        ensures
            r.title == self.title,
            r.artist == self.artist,
            r.tempo == self.tempo,
            r.time_signature == time_signature,
            r.tracks@ == self.tracks@,
    {
        let mut s = self;
        s.time_signature = time_signature;
        s
    }

    /// Appends a track.
    pub fn add_track(&mut self, track: Track)
        ensures
            final(self).title == old(self).title,
            final(self).artist == old(self).artist,
            final(self).tempo == old(self).tempo,
            final(self).time_signature == old(self).time_signature,
            final(self).tracks@ == old(self).tracks@.push(track),
    {
        self.tracks.push(track);
    }
}

} // verus!
