//! Standard MIDI File export and import. The events of each track are decided
//! here; `midly` encodes and decodes the file bytes.
use vstd::prelude::*;
use midly::{MetaMessage as Meta, MidiMessage as Msg, TrackEventKind as Kind};
use crate::duration::{scaled_round, scaled_trunc};
use crate::error::MidiError;
use vstd::arithmetic::div_mod::lemma_fundamental_div_mod;
use crate::duration::Duration;
use crate::pitch::Pitch;
use crate::song::{Beat, Instrument, Measure, Note, Song, Track};
use crate::text::{nat_text, push_nat};
use crate::tempo::{micros_per_quarter, TimeSignature};
use self::MidiEventKind::{EndOfTrack, Meter, NoteOff, NoteOn, SetTempo, TrackName};

verus! {

/// Kind of an event written to a track.
#[derive(Debug, Clone, PartialEq, Eq)]
pub enum MidiEventKind {
    NoteOn { channel: u8, key: u8, vel: u8 },
    NoteOff { channel: u8, key: u8, vel: u8 },
    /// Microseconds per quarter note.
    SetTempo(u32),
    /// Numerator, power of two of the denominator, MIDI clocks per click,
    /// thirty-second notes per quarter.
    Meter(u8, u8, u8, u8),
    TrackName(String),
    EndOfTrack,
}

/// What an event kind holds, with the track name as text.
pub enum EventView {
    NoteOn(u8, u8, u8),
    NoteOff(u8, u8, u8),
    Tempo(u32),
    TimeSignature(u8, u8, u8, u8),
    TrackName(Seq<char>),
    EndOfTrack,
}

/// A track event: ticks since the previous event of the track, and its kind.
#[derive(Debug, Clone, PartialEq, Eq)]
pub struct MidiEvent {
    pub delta: u32,
    pub kind: MidiEventKind,
}

impl View for MidiEvent {
    type V = (u32, EventView);

    open spec fn view(&self) -> (u32, EventView) {
        (
            self.delta,
            match self.kind {
                MidiEventKind::NoteOn { channel, key, vel } => EventView::NoteOn(channel, key, vel),
                MidiEventKind::NoteOff { channel, key, vel } => EventView::NoteOff(channel, key, vel),
                MidiEventKind::SetTempo(t) => EventView::Tempo(t),
                MidiEventKind::Meter(a, b, c, d) => EventView::TimeSignature(a, b, c, d),
                MidiEventKind::TrackName(n) => EventView::TrackName(n@),
                MidiEventKind::EndOfTrack => EventView::EndOfTrack,
            },
        )
    }
}

pub open spec fn views(v: Seq<MidiEvent>) -> Seq<(u32, EventView)> {
    v.map_values(|e: MidiEvent| e@)
}

pub open spec fn track_views(t: Seq<Vec<MidiEvent>>) -> Seq<Seq<(u32, EventView)>> {
    t.map_values(|v: Vec<MidiEvent>| views(v@))
}

/// Ticks per quarter note of the files written.
pub open spec fn ticks_per_quarter() -> int {
    480
}

/// The note-on and note-off pair of one note on channel `ch`: the note-off
/// comes after the note's length in ticks (rounded down).
pub open spec fn note_pair(ch: u8, n: Note) -> Seq<(u32, EventView)> {
    seq![
        (0u32, EventView::NoteOn(ch, n.pitch@ as u8, n.velocity)),
        (
            scaled_trunc(n.duration@.0, n.duration@.1, 4 * ticks_per_quarter()) as u32,
            EventView::NoteOff(ch, n.pitch@ as u8, 0u8),
        ),
    ]
}

pub open spec fn notes_events(ch: u8, notes: Seq<Note>) -> Seq<(u32, EventView)>
    decreases notes.len(),
{
    if notes.len() == 0 {
        Seq::empty()
    } else {
        notes_events(ch, notes.drop_last()) + note_pair(ch, notes.last())
    }
}

pub open spec fn beats_events(ch: u8, beats: Seq<Beat>) -> Seq<(u32, EventView)>
    decreases beats.len(),
{
    if beats.len() == 0 {
        Seq::empty()
    } else {
        beats_events(ch, beats.drop_last()) + notes_events(ch, beats.last().notes@)
    }
}

pub open spec fn measures_events(ch: u8, ms: Seq<Measure>) -> Seq<(u32, EventView)>
    decreases ms.len(),
{
    if ms.len() == 0 {
        Seq::empty()
    } else {
        measures_events(ch, ms.drop_last()) + beats_events(ch, ms.last().beats@)
    }
}

/// A note track: its name, then a note-on/note-off pair for every note of
/// every beat in order, then the end of the track.
pub open spec fn track_events(t: Track) -> Seq<(u32, EventView)> {
    seq![(0u32, EventView::TrackName(t.name@))] + measures_events(t.channel, t.measures@) + seq![
        (0u32, EventView::EndOfTrack),
    ]
}

/// Length of a measure in ticks: the sum of its beats' lengths (each rounded
/// half away from zero), saturated at `u32::MAX`.
pub open spec fn beats_ticks(beats: Seq<Beat>) -> int
    decreases beats.len(),
{
    if beats.len() == 0 {
        0
    } else {
        let s = beats_ticks(beats.drop_last()) + scaled_round(
            beats.last().duration@.0,
            beats.last().duration@.1,
            4 * ticks_per_quarter(),
        );
        if s > u32::MAX { u32::MAX as int } else { s }
    }
}

/// MIDI encoding of a time signature's denominator: its power of two for
/// 1 to 32, otherwise 2 (a quarter note).
pub open spec fn denominator_code(d: u32) -> u8 {
    if d == 1 { 0 }
    else if d == 2 { 1 }
    else if d == 4 { 2 }
    else if d == 8 { 3 }
    else if d == 16 { 4 }
    else if d == 32 { 5 }
    else { 2 }
}

/// The MIDI time-signature meta values: numerator (truncated to a byte),
/// denominator code, 24 clocks per click, 8 thirty-seconds per quarter.
pub open spec fn midi_time_signature(ts: TimeSignature) -> (u8, u8, u8, u8) {
    (ts.numerator as u8, denominator_code(ts.denominator), 24u8, 8u8)
}

pub open spec fn sat_sub(a: int, b: int) -> int {
    if a >= b { a - b } else { 0 }
}

/// The time-signature and tempo changes of a track's measures, placed at
/// the tick where each measure starts; with the tick reached after the
/// measures and the tick of the last change.
pub open spec fn meta_fold(ms: Seq<Measure>) -> (Seq<(u32, EventView)>, int, int)
    decreases ms.len(),
{
    if ms.len() == 0 {
        (Seq::empty(), 0, 0)
    } else {
        let (ev, cur, last) = meta_fold(ms.drop_last());
        let m = ms.last();
        let (ev2, last2) = match m.time_signature {
            Some(ts) => {
                let (a, b, c, d) = midi_time_signature(ts);
                (ev.push((sat_sub(cur, last) as u32, EventView::TimeSignature(a, b, c, d))), cur)
            },
            None => (ev, last),
        };
        let (ev3, last3) = match m.tempo {
            Some(t) => (
                ev2.push((sat_sub(cur, last2) as u32, EventView::Tempo(micros_per_quarter(t@) as u32))),
                cur,
            ),
            None => (ev2, last2),
        };
        (ev3, cur + beats_ticks(m.beats@), last3)
    }
}

/// The tempo track: the song's tempo, time signature and title, the
/// changes along the first track's measures, then the end of the track.
pub open spec fn meta_events(song: Song) -> Seq<(u32, EventView)> {
    let (a, b, c, d) = midi_time_signature(song.time_signature);
    seq![
        (0u32, EventView::Tempo(micros_per_quarter(song.tempo@) as u32)),
        (0u32, EventView::TimeSignature(a, b, c, d)),
        (0u32, EventView::TrackName(song.title@)),
    ] + (if song.tracks@.len() > 0 {
        meta_fold(song.tracks@[0].measures@).0
    } else {
        Seq::empty()
    }) + seq![(0u32, EventView::EndOfTrack)]
}

/// All tracks of the file written for a song: the tempo track, then one
/// note track per song track.
pub open spec fn song_events(song: Song) -> Seq<Seq<(u32, EventView)>> {
    seq![meta_events(song)] + Seq::new(song.tracks@.len(), |i: int| track_events(song.tracks@[i]))
}

/// Where counting the ticks along the first track overflows a `u32`.
pub open spec fn first_track_too_long(song: Song) -> bool {
    song.tracks@.len() > 0 && meta_fold(song.tracks@[0].measures@).1 > u32::MAX
}

/// How a Standard MIDI File lays out its tracks: format 0 (one track),
/// format 1 (tracks played together) or format 2 (independent sequences).
#[derive(Debug, Clone, Copy, PartialEq, Eq, Structural)]
pub enum SmfFormat {
    SingleTrack,
    Parallel,
    Sequential,
}

/// How a Standard MIDI File counts time: `Metrical(n)` is `n` ticks per
/// quarter note (`midly` keeps the low 15 bits).
#[derive(Debug, Clone, Copy, PartialEq, Eq, Structural)]
pub enum SmfTiming {
    Metrical(u16),
}

/// The bytes that `midly` writes for a Standard MIDI File with this format,
/// this timing and these tracks.
pub uninterp spec fn smf_bytes(
    format: SmfFormat,
    timing: SmfTiming,
    tracks: Seq<Seq<(u32, EventView)>>,
) -> Seq<u8>;

/// The header of the files this library writes: format 1, 480 ticks per
/// quarter note.
pub open spec fn file_format() -> SmfFormat {
    SmfFormat::Parallel
}

pub open spec fn file_timing() -> SmfTiming {
    SmfTiming::Metrical(ticks_per_quarter() as u16)
}

/// An upper bound on the bytes `midly` writes for one event: at most 4
/// for the delta, 3 for a channel message, and for a meta event its type
/// bytes, at most 4 for the data length and the data (a track name's UTF-8
/// bytes, at most 4 per character).
pub open spec fn event_size_bound(e: EventView) -> int {
    match e {
        EventView::TrackName(n) => 14 + 4 * n.len() as int,
        _ => 11,
    }
}

pub open spec fn track_size_bound(t: Seq<(u32, EventView)>) -> int
    decreases t.len(),
{
    if t.len() == 0 {
        0
    } else {
        track_size_bound(t.drop_last()) + event_size_bound(t.last().1)
    }
}

/// Within the limits `midly` writes under: at most 65535 tracks, no event
/// data of 2^28 bytes or more, no track of 2^32 bytes or more.
pub open spec fn writable(ts: Seq<Seq<(u32, EventView)>>) -> bool {
    &&& ts.len() <= 65535
    &&& forall|t: int| 0 <= t < ts.len() ==> #[trigger] track_size_bound(ts[t]) <= 0xFFFF_FFFF
    &&& forall|t: int, j: int|
        0 <= t < ts.len() && 0 <= j < ts[t].len() ==> name_fits((#[trigger] ts[t][j]).1)
}

/// A track name's data stays under 2^28 bytes.
pub open spec fn name_fits(e: EventView) -> bool {
    match e {
        EventView::TrackName(n) => 4 * n.len() < 0x1000_0000,
        _ => true,
    }
}

/// `midly::TrackEvent`, the event type `midly` encodes.
#[verifier::external_type_specification]
#[verifier::external_body]
pub struct ExTrackEvent<'a>(midly::TrackEvent<'a>);

/// `midly::TrackEventKind`, the kind of such an event.
#[verifier::external_type_specification]
#[verifier::external_body]
pub struct ExTrackEventKind<'a>(midly::TrackEventKind<'a>);

/// `midly::Header`, the header of a file `midly` writes.
#[verifier::external_type_specification]
#[verifier::external_body]
pub struct ExHeader(midly::Header);

/// An event kind in `midly`'s form, variant for variant; `midly`'s
/// conversions keep the low 4 bits of the channel, 7 of key and velocity and
/// 24 of the tempo. Nothing is stated of the value built; `encode_smf`
/// states what the file holds.
#[verifier::external_body]
fn midly_kind(k: &MidiEventKind) -> midly::TrackEventKind<'_> {
    match *k {
        NoteOn { channel, key, vel } => Kind::Midi { channel: channel.into(), message: Msg::NoteOn { key: key.into(), vel: vel.into() } },
        NoteOff { channel, key, vel } => Kind::Midi { channel: channel.into(), message: Msg::NoteOff { key: key.into(), vel: vel.into() } },
        SetTempo(t) => Kind::Meta(Meta::Tempo(t.into())),
        Meter(a, b, c, d) => Kind::Meta(Meta::TimeSignature(a, b, c, d)),
        TrackName(ref n) => Kind::Meta(Meta::TrackName(n.as_bytes())),
        EndOfTrack => Kind::Meta(Meta::EndOfTrack),
    }
}

/// An event in `midly`'s form: its kind (see `midly_kind`) after a delta
/// of which `midly` keeps the low 28 bits.
#[verifier::external_body]
fn midly_event(e: &MidiEvent) -> midly::TrackEvent<'_> {
    midly::TrackEvent { delta: e.delta.into(), kind: midly_kind(&e.kind) }
}

/// `midly::Header::new` for a format and a timing, each converted variant
/// for variant. Nothing is stated of the value built; `encode_smf` states
/// what the file holds.
#[verifier::external_body]
fn midly_header(format: SmfFormat, timing: SmfTiming) -> midly::Header {
    let format = match format {
        SmfFormat::SingleTrack => midly::Format::SingleTrack,
        SmfFormat::Parallel => midly::Format::Parallel,
        SmfFormat::Sequential => midly::Format::Sequential,
    };
    let timing = match timing {
        SmfTiming::Metrical(t) => midly::Timing::Metrical(t.into()),
    };
    midly::Header::new(format, timing)
}

/// `midly::Smf::write` into memory, with the header `format` and `timing`
/// give. Writing into a `Vec` fails only where `midly`'s documented limits
/// are broken (more than 65535 tracks, event data of 256 MB or more, a
/// track of 4 GB or more): so it succeeds within `writable`, and fails with
/// more than 65535 tracks. On success the bytes are `smf_bytes` of the
/// header and tracks, and `midly::Smf::parse` reads them back as the same
/// tracks of events (with key and velocity cut to their low 7 bits, as the
/// conversion to `midly`'s types does; `midly`'s own rewrite test checks
/// that a file written from parsed events parses to the same events). The
/// message of a failure is `midly`'s and is passed on.
#[verifier::external_body]
fn encode_smf(format: SmfFormat, timing: SmfTiming, tracks: &Vec<Vec<MidiEvent>>) -> (r: Result<Vec<u8>, String>)
    ensures
        writable(track_views(tracks@)) ==> r is Ok,
        tracks@.len() > 65535 ==> r is Err,
        r matches Ok(b) ==> b@ == smf_bytes(format, timing, track_views(tracks@)),
        r matches Ok(b) ==> smf_tracks(b@) == Some(reread(track_views(tracks@))),
{
    let header = midly_header(format, timing);
    let tracks = tracks.iter().map(|t| t.iter().map(midly_event).collect()).collect();
    let mut out = Vec::new();
    midly::Smf { header, tracks }.write(&mut out).map(|()| out).map_err(|e| e.to_string())
}

/// Standard MIDI File writer.
pub struct MidlyWriter;

impl Default for MidlyWriter {
    fn default() -> (r: MidlyWriter)
        ensures
            r == MidlyWriter,
    {
        MidlyWriter
    }
}

fn push_event(out: &mut Vec<MidiEvent>, delta: u32, kind: MidiEventKind)
    ensures
        views(final(out)@) == views(old(out)@).push(MidiEvent { delta, kind }@),
{
    let ghost before = out@;
    out.push(MidiEvent { delta, kind });
    assert(views(out@) =~= views(before).push(MidiEvent { delta, kind }@));
}

fn push_note_events(out: &mut Vec<MidiEvent>, ch: u8, notes: &Vec<Note>)
    ensures
        views(final(out)@) == views(old(out)@) + notes_events(ch, notes@),
{
    let mut k: usize = 0;
    while k < notes.len()
        invariant
            k <= notes@.len(),
            views(out@) == views(old(out)@) + notes_events(ch, notes@.take(k as int)),
        decreases notes@.len() - k,
    {
        let note = notes[k];
        let ghost before = views(out@);
        let key = note.pitch.midi();
        push_event(out, 0, MidiEventKind::NoteOn { channel: ch, key, vel: note.velocity });
        push_event(out, note.duration.ticks_truncated(1920), MidiEventKind::NoteOff { channel: ch, key, vel: 0 });
        assert(notes@.take(k + 1).drop_last() =~= notes@.take(k as int));
        assert(views(out@) =~= before + note_pair(ch, note));
        k = k + 1;
    }
    assert(notes@.take(notes@.len() as int) =~= notes@);
}

fn push_beats_events(out: &mut Vec<MidiEvent>, ch: u8, beats: &Vec<Beat>)
    ensures
        views(final(out)@) == views(old(out)@) + beats_events(ch, beats@),
{
    let mut b: usize = 0;
    while b < beats.len()
        invariant
            b <= beats@.len(),
            views(out@) == views(old(out)@) + beats_events(ch, beats@.take(b as int)),
        decreases beats@.len() - b,
    {
        push_note_events(out, ch, &beats[b].notes);
        assert(beats@.take(b + 1).drop_last() =~= beats@.take(b as int));
        b = b + 1;
    }
    assert(beats@.take(beats@.len() as int) =~= beats@);
}

fn push_measures_events(out: &mut Vec<MidiEvent>, ch: u8, ms: &Vec<Measure>)
    ensures
        views(final(out)@) == views(old(out)@) + measures_events(ch, ms@),
{
    let mut i: usize = 0;
    while i < ms.len()
        invariant
            i <= ms@.len(),
            views(out@) == views(old(out)@) + measures_events(ch, ms@.take(i as int)),
        decreases ms@.len() - i,
    {
        push_beats_events(out, ch, &ms[i].beats);
        assert(ms@.take(i + 1).drop_last() =~= ms@.take(i as int));
        i = i + 1;
    }
    assert(ms@.take(ms@.len() as int) =~= ms@);
}

/// Ticks of a measure's beats, as `beats_ticks` counts them.
fn measure_ticks(beats: &Vec<Beat>) -> (r: u32)
    ensures
        r == beats_ticks(beats@),
{
    let mut acc: u32 = 0;
    let mut b: usize = 0;
    while b < beats.len()
        invariant
            b <= beats@.len(),
            acc == beats_ticks(beats@.take(b as int)),
        decreases beats@.len() - b,
    {
        let t = beats[b].duration.ticks_rounded(1920);
        assert(beats@.take(b + 1).drop_last() =~= beats@.take(b as int));
        acc = if acc as u64 + t as u64 > 0xffff_ffff { 0xffff_ffff } else { acc + t };
        b = b + 1;
    }
    assert(beats@.take(beats@.len() as int) =~= beats@);
    acc
}

impl MidlyWriter {
    /// MIDI time-signature values of a time signature.
    pub fn time_sig_to_midly(ts: TimeSignature) -> (r: (u8, u8, u8, u8))
        ensures
            r == midi_time_signature(ts),
    {
        let num = ts.numerator as u8;
        let denom_pow2: u8 = match ts.denominator {
            1 => 0,
            2 => 1,
            4 => 2,
            8 => 3,
            16 => 4,
            32 => 5,
            _ => 2,
        };
        (num, denom_pow2, 24, 8)
    }

    fn push_meta_changes(out: &mut Vec<MidiEvent>, ms: &Vec<Measure>)
        requires
            meta_fold(ms@).1 <= u32::MAX,
        ensures
            views(final(out)@) == views(old(out)@) + meta_fold(ms@).0,
    {
        let mut current_tick: u32 = 0;
        let mut last_meta_tick: u32 = 0;
        let mut i: usize = 0;
        proof {
            lemma_meta_fold_mono(ms@, 0);
        }
        while i < ms.len()
            invariant
                i <= ms@.len(),
                meta_fold(ms@).1 <= u32::MAX,
                forall|k: int| 0 <= k <= ms@.len() ==> #[trigger] meta_fold(ms@.take(k)).1 <= meta_fold(ms@).1,
                views(out@) == views(old(out)@) + meta_fold(ms@.take(i as int)).0,
                current_tick == meta_fold(ms@.take(i as int)).1,
                last_meta_tick == meta_fold(ms@.take(i as int)).2,
            decreases ms@.len() - i,
        {
            let m = &ms[i];
            assert(ms@.take(i + 1).drop_last() =~= ms@.take(i as int));
            assert(ms@.take(i + 1).last() == ms@[i as int]);
            let measure_ticks = measure_ticks(&m.beats);
            match m.time_signature {
                Some(ts) => {
                    let delta = if current_tick >= last_meta_tick { current_tick - last_meta_tick } else { 0 };
                    let (n, d, c, t) = Self::time_sig_to_midly(ts);
                    push_event(out, delta, MidiEventKind::Meter(n, d, c, t));
                    last_meta_tick = current_tick;
                },
                None => {},
            }
            match m.tempo {
                Some(tempo) => {
                    let delta = if current_tick >= last_meta_tick { current_tick - last_meta_tick } else { 0 };
                    push_event(out, delta, MidiEventKind::SetTempo(tempo.quarter_note_micros()));
                    last_meta_tick = current_tick;
                },
                None => {},
            }
            assert(meta_fold(ms@.take(i + 1)).1 <= meta_fold(ms@).1);
            current_tick = current_tick + measure_ticks;
            i = i + 1;
        }
        assert(ms@.take(ms@.len() as int) =~= ms@);
    }

    /// The tracks of the MIDI file for a song: a tempo track with the
    /// song's tempo, time signature, title and the changes of its first
    /// track's measures, then one track of notes per song track.
    pub fn events(song: &Song) -> (r: Vec<Vec<MidiEvent>>)
        requires
            !first_track_too_long(*song),
        ensures
            track_views(r@) == song_events(*song),
    {
        let mut meta: Vec<MidiEvent> = Vec::new();
        push_event(&mut meta, 0, MidiEventKind::SetTempo(song.tempo.quarter_note_micros()));
        let (n, d, c, t) = Self::time_sig_to_midly(song.time_signature);
        push_event(&mut meta, 0, MidiEventKind::Meter(n, d, c, t));
        push_event(&mut meta, 0, MidiEventKind::TrackName(song.title.clone()));
        if song.tracks.len() > 0 {
            Self::push_meta_changes(&mut meta, &song.tracks[0].measures);
        }
        push_event(&mut meta, 0, MidiEventKind::EndOfTrack);
        assert(views(meta@) =~= meta_events(*song));
        let mut tracks: Vec<Vec<MidiEvent>> = Vec::new();
        tracks.push(meta);
        let mut i: usize = 0;
        while i < song.tracks.len()
            invariant
                i <= song.tracks@.len(),
                tracks@.len() == i + 1,
                track_views(tracks@) == seq![meta_events(*song)] + Seq::new(
                    i as nat,
                    |k: int| track_events(song.tracks@[k]),
                ),
            decreases song.tracks@.len() - i,
        {
            let track = &song.tracks[i];
            let mut ev: Vec<MidiEvent> = Vec::new();
            push_event(&mut ev, 0, MidiEventKind::TrackName(track.name.clone()));
            push_measures_events(&mut ev, track.channel, &track.measures);
            push_event(&mut ev, 0, MidiEventKind::EndOfTrack);
            assert(views(ev@) =~= track_events(*track));
            let ghost before = tracks@;
            tracks.push(ev);
            assert(track_views(tracks@) =~= track_views(before).push(views(ev@)));
            assert(track_views(tracks@) =~= seq![meta_events(*song)] + Seq::new(
                (i + 1) as nat,
                |k: int| track_events(song.tracks@[k]),
            ));
            i = i + 1;
        }
        tracks
    }

    /// Whether the ticks along the song's first track stay within a `u32`,
    /// which `events` and `encode` need.
    pub fn fits_ticks(song: &Song) -> (r: bool)
        ensures
            r == !first_track_too_long(*song),
    {
        if song.tracks.len() == 0 {
            return true;
        }
        let ms = &song.tracks[0].measures;
        let mut acc: u64 = 0;
        let mut i: usize = 0;
        while i < ms.len()
            invariant
                i <= ms@.len(),
                song.tracks@.len() > 0,
                ms@ == song.tracks@[0].measures@,
                acc == meta_fold(ms@.take(i as int)).1,
                acc <= u32::MAX,
            decreases ms@.len() - i,
        {
            assert(ms@.take(i + 1).drop_last() =~= ms@.take(i as int));
            assert(ms@.take(i + 1).last() == ms@[i as int]);
            let t = measure_ticks(&ms[i].beats);
            acc = acc + t as u64;
            assert(acc == meta_fold(ms@.take(i + 1)).1);
            if acc > 0xffff_ffff {
                proof {
                    lemma_meta_fold_prefix(ms@, i + 1);
                }
                return false;
            }
            i = i + 1;
        }
        assert(ms@.take(ms@.len() as int) =~= ms@);
        true
    }

    /// The bytes of the Standard MIDI File for a song (format 1, 480 ticks
    /// per quarter note): `midly`'s encoding of `events`.
    pub fn encode(song: &Song) -> (r: Result<Vec<u8>, MidiError>)
        requires
            !first_track_too_long(*song),
        ensures
            r matches Ok(b) ==> b@ == smf_bytes(file_format(), file_timing(), song_events(*song)),
            r matches Ok(b) ==> smf_tracks(b@) == Some(reread(song_events(*song))),
            writable(song_events(*song)) ==> r is Ok,
            song.tracks@.len() >= 65535 ==> r is Err,
            r matches Err(e) ==> e is WriteError,
    {
        let tracks = Self::events(song);
        match encode_smf(SmfFormat::Parallel, SmfTiming::Metrical(480), &tracks) {
            Ok(b) => Ok(b),
            Err(m) => Err(MidiError::WriteError(m)),
        }
    }
}

/// What the reader needs of an event read from a file: a note-on with its
/// key and velocity, or anything else.
#[derive(Debug, Clone, Copy, PartialEq, Eq, Structural)]
pub enum SmfEvent {
    NoteOn { key: u8, vel: u8 },
    Other,
}

pub open spec fn smf_views(t: Seq<Vec<SmfEvent>>) -> Seq<Seq<SmfEvent>> {
    t.map_values(|v: Vec<SmfEvent>| v@)
}

/// How the reader sees a written event: a note-on with its key and
/// velocity cut to 7 bits, anything else as `Other`.
pub open spec fn reread_event(e: (u32, EventView)) -> SmfEvent {
    match e.1 {
        EventView::NoteOn(_, key, vel) => SmfEvent::NoteOn { key: (key % 128) as u8, vel: (vel % 128) as u8 },
        _ => SmfEvent::Other,
    }
}

pub open spec fn reread_track(t: Seq<(u32, EventView)>) -> Seq<SmfEvent> {
    t.map_values(|e: (u32, EventView)| reread_event(e))
}

pub open spec fn reread(ts: Seq<Seq<(u32, EventView)>>) -> Seq<Seq<SmfEvent>> {
    ts.map_values(|t: Seq<(u32, EventView)>| reread_track(t))
}

/// The tracks that `midly::Smf::parse` reads from `bytes`, each event
/// reduced to `SmfEvent`; `None` where it refuses the bytes.
pub uninterp spec fn smf_tracks(bytes: Seq<u8>) -> Option<Seq<Seq<SmfEvent>>>;

/// `midly::Smf::parse`, each event reduced to a note-on (key and velocity)
/// or `Other`. It fails exactly where `smf_tracks` is `None`; the message of
/// the failure is `midly`'s and is left unsaid.
#[verifier::external_body]
fn parse_smf(data: &[u8]) -> (r: Result<Vec<Vec<SmfEvent>>, String>)
    ensures
        r is Ok <==> smf_tracks(data@) is Some,
        r matches Ok(t) ==> smf_tracks(data@) == Some(smf_views(t@)),
{
    midly::Smf::parse(data).map(|smf| smf.tracks.iter().map(|t| t.iter().map(|e| match e.kind {
        Kind::Midi { message: Msg::NoteOn { key, vel }, .. } => SmfEvent::NoteOn { key: key.as_int(), vel: vel.as_int() },
        _ => SmfEvent::Other,
    }).collect()).collect()).map_err(|e| e.to_string())
}

/// The notes a track of events sounds: note-ons of positive velocity whose
/// key is a MIDI pitch, as (key, velocity).
pub open spec fn sounding(t: Seq<SmfEvent>) -> Seq<(u8, u8)>
    decreases t.len(),
{
    if t.len() == 0 {
        Seq::empty()
    } else {
        let prev = sounding(t.drop_last());
        match t.last() {
            SmfEvent::NoteOn { key, vel } => if vel > 0 && key <= 127 { prev.push((key, vel)) } else { prev },
            SmfEvent::Other => prev,
        }
    }
}

/// The indices of the tracks among the first `k` that sound a note.
pub open spec fn sounding_tracks(ts: Seq<Seq<SmfEvent>>, k: int) -> Seq<int>
    decreases k,
{
    if k <= 0 {
        Seq::empty()
    } else if sounding(ts[k - 1]).len() > 0 {
        sounding_tracks(ts, k - 1).push(k - 1)
    } else {
        sounding_tracks(ts, k - 1)
    }
}

/// `b` is a quarter-note beat at the start of the measure holding one
/// quarter note of key `key` at velocity `vel`.
pub open spec fn imported_beat(b: Beat, key: u8, vel: u8) -> bool {
    &&& b.position@ == (0int, 1int)
    &&& b.duration@ == (1int, 4int)
    &&& b.notes@.len() == 1
    &&& b.notes@[0].pitch@ == key
    &&& b.notes@[0].duration@ == (1int, 4int)
    &&& b.notes@[0].velocity == if vel > 127 { 127 } else { vel }
    &&& b.notes@[0].articulation is None
    &&& !b.notes@[0].tie_forward
}

/// `tr` is the imported form of source track `i` with events `t`: named
/// "Track i+1", generic instrument on channel 0, one measure (number 1)
/// holding a beat per sounding note, in order.
pub open spec fn imported_track(tr: Track, i: int, t: Seq<SmfEvent>) -> bool {
    let notes = sounding(t);
    &&& tr.name@ == "Track "@ + nat_text((i + 1) as nat)
    &&& tr.instrument == Instrument::Generic
    &&& tr.channel == 0
    &&& tr.measures@.len() == 1
    &&& tr.measures@[0].number == 1
    &&& tr.measures@[0].time_signature is None
    &&& tr.measures@[0].tempo is None
    &&& tr.measures@[0].beats@.len() == notes.len()
    &&& forall|b: int|
        0 <= b < notes.len() ==> imported_beat(#[trigger] tr.measures@[0].beats@[b], notes[b].0, notes[b].1)
}

/// Standard MIDI File reader.
pub struct MidlyReader;

impl Default for MidlyReader {
    fn default() -> (r: MidlyReader)
        ensures
            r == MidlyReader,
    {
        MidlyReader
    }
}

impl MidlyReader {
    /// The song in a Standard MIDI File's bytes: titled `title`, at 120 BPM
    /// in 4/4, with a track for every file track that sounds a note (see
    /// `imported_track`). Bytes that `midly` refuses give a parse error.
    pub fn read_bytes(data: &[u8], title: &str) -> (r: Result<Song, MidiError>)
        ensures
            r is Ok <==> smf_tracks(data@) is Some,
            r matches Err(e) ==> e is ParseError,
            r matches Ok(song) ==> {
                let ts = smf_tracks(data@)->0;
                let kept = sounding_tracks(ts, ts.len() as int);
                &&& song.title@ == title@
                &&& song.artist is None
                &&& song.tempo@ == 120_000
                &&& song.time_signature == (TimeSignature { numerator: 4, denominator: 4 })
                &&& song.tracks@.len() == kept.len()
                &&& forall|k: int|
                    0 <= k < kept.len() ==> imported_track(
                        #[trigger] song.tracks@[k],
                        kept[k],
                        ts[kept[k]],
                    )
            },
    {
        let tracks = match parse_smf(data) {
            Ok(t) => t,
            Err(m) => {
                return Err(MidiError::ParseError(m));
            },
        };
        let ghost ts = smf_views(tracks@);
        let mut song = Song::new(title);
        let mut idx: usize = 0;
        while idx < tracks.len()
            invariant
                ts == smf_views(tracks@),
                idx <= tracks@.len(),
                song.title@ == title@,
                song.artist is None,
                song.tempo@ == 120_000,
                song.time_signature == (TimeSignature { numerator: 4, denominator: 4 }),
                song.tracks@.len() == sounding_tracks(ts, idx as int).len(),
                forall|k: int|
                    0 <= k < song.tracks@.len() ==> imported_track(
                        #[trigger] song.tracks@[k],
                        sounding_tracks(ts, idx as int)[k],
                        ts[sounding_tracks(ts, idx as int)[k]],
                    ),
            decreases tracks@.len() - idx,
        {
            proof {
                reveal_strlit("Track ");
            }
            let mut name = String::from_str("Track ");
            push_nat(&mut name, idx as u64 + 1);
            let mut music_track = Track::new(name.as_str(), Instrument::Generic);
            let mut measure = Measure::new(1);
            let events = &tracks[idx];
            assert(events@ == ts[idx as int]);
            let mut e: usize = 0;
            while e < events.len()
                invariant
                    e <= events@.len(),
                    measure.number == 1,
                    measure.time_signature is None,
                    measure.tempo is None,
                    measure.beats@.len() == sounding(events@.take(e as int)).len(),
                    forall|b: int|
                        0 <= b < measure.beats@.len() ==> imported_beat(
                            #[trigger] measure.beats@[b],
                            sounding(events@.take(e as int))[b].0,
                            sounding(events@.take(e as int))[b].1,
                        ),
                decreases events@.len() - e,
            {
                let ghost prev = events@.take(e as int);
                let ghost old_beats = measure.beats@;
                assert(events@.take(e + 1).drop_last() =~= prev);
                assert(events@.take(e + 1).last() == events@[e as int]);
                match events[e] {
                    SmfEvent::NoteOn { key, vel } => {
                        if vel > 0 {
                            match Pitch::from_midi(key) {
                                Ok(pitch) => {
                                    let note = Note::new(pitch, Duration::quarter()).with_velocity(vel);
                                    let mut notes: Vec<Note> = Vec::new();
                                    notes.push(note);
                                    let beat = Beat::with_notes(Duration::zero(), Duration::quarter(), notes);
                                    measure.add_beat(beat);
                                },
                                Err(_) => {},
                            }
                        }
                    },
                    SmfEvent::Other => {},
                }
                assert forall|b: int| 0 <= b < measure.beats@.len() implies imported_beat(
                    #[trigger] measure.beats@[b],
                    sounding(events@.take(e + 1))[b].0,
                    sounding(events@.take(e + 1))[b].1,
                ) by {
                    if b < old_beats.len() {
                        assert(measure.beats@[b] == old_beats[b]);
                        assert(sounding(events@.take(e + 1))[b] == sounding(prev)[b]);
                    }
                }
                e = e + 1;
            }
            assert(events@.take(events@.len() as int) =~= events@);
            let ghost kept_before = sounding_tracks(ts, idx as int);
            if measure.beats.len() > 0 {
                music_track.add_measure(measure);
                let ghost before = song.tracks@;
                song.add_track(music_track);
                assert(sounding_tracks(ts, idx + 1) == kept_before.push(idx as int));
                assert forall|k: int| 0 <= k < song.tracks@.len() implies imported_track(
                    #[trigger] song.tracks@[k],
                    sounding_tracks(ts, idx + 1)[k],
                    ts[sounding_tracks(ts, idx + 1)[k]],
                ) by {
                    if k < before.len() {
                        assert(song.tracks@[k] == before[k]);
                    }
                }
            } else {
                assert(sounding_tracks(ts, idx + 1) == kept_before);
            }
            idx = idx + 1;
        }
        Ok(song)
    }
}

/// The tick count along the measures only grows.
proof fn lemma_meta_fold_mono(ms: Seq<Measure>, k: int)
    requires
        0 <= k <= ms.len(),
    ensures
        forall|j: int| k <= j <= ms.len() ==> #[trigger] meta_fold(ms.take(j)).1 <= meta_fold(ms).1,
    decreases ms.len() - k,
{
    assert forall|j: int| k <= j <= ms.len() implies #[trigger] meta_fold(ms.take(j)).1 <= meta_fold(ms).1 by {
        lemma_meta_fold_prefix(ms, j);
    }
}

proof fn lemma_beats_ticks_nonneg(beats: Seq<Beat>)
    ensures
        beats_ticks(beats) >= 0,
    decreases beats.len(),
{
    if beats.len() > 0 {
        lemma_beats_ticks_nonneg(beats.drop_last());
    }
}

proof fn lemma_meta_fold_prefix(ms: Seq<Measure>, j: int)
    requires
        0 <= j <= ms.len(),
    ensures
        meta_fold(ms.take(j)).1 <= meta_fold(ms).1,
    decreases ms.len() - j,
{
    if j < ms.len() {
        lemma_meta_fold_prefix(ms, j + 1);
        let p = ms.take(j + 1);
        assert(p.drop_last() =~= ms.take(j));
        lemma_beats_ticks_nonneg(p.last().beats@);
    } else {
        assert(ms.take(j) =~= ms);
    }
}

/// The notes of a run of beats, beat after beat.
pub open spec fn beats_notes(bs: Seq<Beat>) -> Seq<Note>
    decreases bs.len(),
{
    if bs.len() == 0 {
        Seq::empty()
    } else {
        beats_notes(bs.drop_last()) + bs.last().notes@
    }
}

/// The notes of a run of measures, measure after measure.
pub open spec fn measures_notes(ms: Seq<Measure>) -> Seq<Note>
    decreases ms.len(),
{
    if ms.len() == 0 {
        Seq::empty()
    } else {
        measures_notes(ms.drop_last()) + beats_notes(ms.last().beats@)
    }
}

/// What a reader hears of written notes: every note whose velocity, cut to
/// 7 bits, is positive, as (key, velocity).
pub open spec fn heard(notes: Seq<Note>) -> Seq<(u8, u8)>
    decreases notes.len(),
{
    if notes.len() == 0 {
        Seq::empty()
    } else {
        let n = notes.last();
        if n.velocity % 128 > 0 {
            heard(notes.drop_last()).push((((n.pitch@ as u8) % 128) as u8, (n.velocity % 128) as u8))
        } else {
            heard(notes.drop_last())
        }
    }
}

/// The indices, in the written file, of the first `k` song tracks that
/// sound a note when read back (the file's track 0 is the tempo track).
pub open spec fn heard_tracks(tracks: Seq<Track>, k: int) -> Seq<int>
    decreases k,
{
    if k <= 0 {
        Seq::empty()
    } else if heard(measures_notes(tracks[k - 1].measures@)).len() > 0 {
        heard_tracks(tracks, k - 1).push(k)
    } else {
        heard_tracks(tracks, k - 1)
    }
}

proof fn lemma_sounding_concat(a: Seq<SmfEvent>, b: Seq<SmfEvent>)
    ensures
        sounding(a + b) == sounding(a) + sounding(b),
    decreases b.len(),
{
    if b.len() == 0 {
        assert(a + b =~= a);
        assert(sounding(a) + sounding(b) =~= sounding(a));
    } else {
        assert((a + b).drop_last() =~= a + b.drop_last());
        assert((a + b).last() == b.last());
        lemma_sounding_concat(a, b.drop_last());
        match b.last() {
            SmfEvent::NoteOn { key, vel } => {
                if vel > 0 && key <= 127 {
                    assert(sounding(a + b) =~= sounding(a) + sounding(b));
                }
            },
            SmfEvent::Other => {},
        }
    }
}

proof fn lemma_heard_concat(a: Seq<Note>, b: Seq<Note>)
    ensures
        heard(a + b) == heard(a) + heard(b),
    decreases b.len(),
{
    if b.len() == 0 {
        assert(a + b =~= a);
        assert(heard(a) + heard(b) =~= heard(a));
    } else {
        assert((a + b).drop_last() =~= a + b.drop_last());
        assert((a + b).last() == b.last());
        lemma_heard_concat(a, b.drop_last());
        if b.last().velocity % 128 > 0 {
            assert(heard(a + b) =~= heard(a) + heard(b));
        }
    }
}

proof fn lemma_reread_concat(a: Seq<(u32, EventView)>, b: Seq<(u32, EventView)>)
    ensures
        reread_track(a + b) == reread_track(a) + reread_track(b),
{
    assert(reread_track(a + b) =~= reread_track(a) + reread_track(b));
}

proof fn lemma_notes_read_back(ch: u8, ns: Seq<Note>)
    ensures
        sounding(reread_track(notes_events(ch, ns))) == heard(ns),
    decreases ns.len(),
{
    if ns.len() > 0 {
        let n = ns.last();
        lemma_notes_read_back(ch, ns.drop_last());
        let pre = notes_events(ch, ns.drop_last());
        let pair = note_pair(ch, n);
        lemma_reread_concat(pre, pair);
        let rp = reread_track(pair);
        let key = ((n.pitch@ as u8) % 128) as u8;
        let vel = (n.velocity % 128) as u8;
        assert(rp.len() == 2);
        assert(rp[0] == SmfEvent::NoteOn { key, vel });
        assert(rp[1] == SmfEvent::Other);
        assert(rp.drop_last() =~= seq![rp[0]]);
        assert(seq![rp[0]].drop_last() =~= Seq::<SmfEvent>::empty());
        assert(sounding(rp) == sounding(seq![rp[0]]));
        assert(key <= 127);
        let s1 = seq![rp[0]];
        assert(s1.last() == SmfEvent::NoteOn { key, vel });
        assert(sounding(s1.drop_last()) == Seq::<(u8, u8)>::empty());
        lemma_sounding_concat(reread_track(pre), rp);
        if n.velocity % 128 > 0 {
            assert(sounding(rp) =~= seq![(((n.pitch@ as u8) % 128) as u8, (n.velocity % 128) as u8)]);
        } else {
            assert(sounding(rp) =~= Seq::<(u8, u8)>::empty());
        }
        assert(heard(ns) =~= heard(ns.drop_last()) + sounding(rp));
    }
}

proof fn lemma_beats_read_back(ch: u8, bs: Seq<Beat>)
    ensures
        sounding(reread_track(beats_events(ch, bs))) == heard(beats_notes(bs)),
    decreases bs.len(),
{
    if bs.len() > 0 {
        lemma_beats_read_back(ch, bs.drop_last());
        lemma_notes_read_back(ch, bs.last().notes@);
        lemma_reread_concat(beats_events(ch, bs.drop_last()), notes_events(ch, bs.last().notes@));
        lemma_sounding_concat(
            reread_track(beats_events(ch, bs.drop_last())),
            reread_track(notes_events(ch, bs.last().notes@)),
        );
        lemma_heard_concat(beats_notes(bs.drop_last()), bs.last().notes@);
    }
}

proof fn lemma_measures_read_back(ch: u8, ms: Seq<Measure>)
    ensures
        sounding(reread_track(measures_events(ch, ms))) == heard(measures_notes(ms)),
    decreases ms.len(),
{
    if ms.len() > 0 {
        lemma_measures_read_back(ch, ms.drop_last());
        lemma_beats_read_back(ch, ms.last().beats@);
        lemma_reread_concat(measures_events(ch, ms.drop_last()), beats_events(ch, ms.last().beats@));
        lemma_sounding_concat(
            reread_track(measures_events(ch, ms.drop_last())),
            reread_track(beats_events(ch, ms.last().beats@)),
        );
        lemma_heard_concat(measures_notes(ms.drop_last()), beats_notes(ms.last().beats@));
    }
}

/// Events that are no note-on are heard as nothing.
proof fn lemma_silent(ev: Seq<(u32, EventView)>)
    requires
        forall|j: int| 0 <= j < ev.len() ==> !(#[trigger] ev[j].1 is NoteOn),
    ensures
        sounding(reread_track(ev)) == Seq::<(u8, u8)>::empty(),
    decreases ev.len(),
{
    if ev.len() > 0 {
        assert(reread_track(ev).drop_last() =~= reread_track(ev.drop_last()));
        assert(!(ev[ev.len() - 1].1 is NoteOn));
        lemma_silent(ev.drop_last());
    }
}

proof fn lemma_meta_fold_silent(ms: Seq<Measure>)
    ensures
        forall|j: int| 0 <= j < meta_fold(ms).0.len() ==> !(#[trigger] meta_fold(ms).0[j].1 is NoteOn),
    decreases ms.len(),
{
    if ms.len() > 0 {
        lemma_meta_fold_silent(ms.drop_last());
    }
}

/// Notes written to a Standard MIDI File are read back: of the tracks the
/// written file parses to, the first (tempo, meter, title) sounds no note,
/// track `i + 1` sounds the notes of song track `i` in order (those of
/// positive velocity), and so the tracks the reader keeps are exactly the
/// written tracks that sound a note.
pub proof fn lemma_written_notes_read_back(song: Song)
    ensures
        ({
            let ts = reread(song_events(song));
            &&& ts.len() == song.tracks@.len() + 1
            &&& sounding(ts[0]).len() == 0
            &&& forall|i: int|
                0 <= i < song.tracks@.len() ==> sounding(#[trigger] ts[i + 1]) == heard(
                    measures_notes(song.tracks@[i].measures@),
                )
            &&& sounding_tracks(ts, ts.len() as int) == heard_tracks(song.tracks@, song.tracks@.len() as int)
        }),
{
    let ts = reread(song_events(song));
    let meta = meta_events(song);
    assert(ts[0] == reread_track(meta));
    lemma_meta_fold_silent(if song.tracks@.len() > 0 { song.tracks@[0].measures@ } else { Seq::empty() });
    assert forall|j: int| 0 <= j < meta.len() implies !(#[trigger] meta[j].1 is NoteOn) by {
        if song.tracks@.len() > 0 {
            let f = meta_fold(song.tracks@[0].measures@).0;
            if 3 <= j < 3 + f.len() {
                assert(meta[j] == f[j - 3]);
            }
        }
    }
    lemma_silent(meta);
    assert forall|i: int| 0 <= i < song.tracks@.len() implies sounding(#[trigger] ts[i + 1]) == heard(
        measures_notes(song.tracks@[i].measures@),
    ) by {
        let t = song.tracks@[i];
        assert(ts[i + 1] == reread_track(track_events(t)));
        let head = seq![(0u32, EventView::TrackName(t.name@))];
        let body = measures_events(t.channel, t.measures@);
        let tail = seq![(0u32, EventView::EndOfTrack)];
        lemma_reread_concat(head + body, tail);
        lemma_reread_concat(head, body);
        lemma_sounding_concat(reread_track(head) + reread_track(body), reread_track(tail));
        lemma_sounding_concat(reread_track(head), reread_track(body));
        lemma_silent(head);
        lemma_silent(tail);
        lemma_measures_read_back(t.channel, t.measures@);
        assert(sounding(ts[i + 1]) =~= heard(measures_notes(t.measures@)));
    }
    lemma_kept_tracks(song, song.tracks@.len() as int);
}

proof fn lemma_kept_tracks(song: Song, k: int)
    requires
        0 <= k <= song.tracks@.len(),
        sounding(reread(song_events(song))[0]).len() == 0,
        forall|i: int|
            0 <= i < song.tracks@.len() ==> sounding(#[trigger] reread(song_events(song))[i + 1]) == heard(
                measures_notes(song.tracks@[i].measures@),
            ),
    ensures
        sounding_tracks(reread(song_events(song)), k + 1) == heard_tracks(song.tracks@, k),
    decreases k,
{
    let ts = reread(song_events(song));
    if k > 0 {
        lemma_kept_tracks(song, k - 1);
        assert(sounding(ts[k]) == heard(measures_notes(song.tracks@[k - 1].measures@)));
    } else {
        assert(sounding_tracks(ts, 0) == Seq::<int>::empty());
    }
}

/// A written note lasts its duration at the file's timing: the note-on
/// comes first, at no delay, and the note-off follows after the note's
/// length in ticks, rounded down, where a whole note is four quarter notes
/// of the header's ticks per quarter (a length beyond a `u32` of ticks
/// aside; a length of zero or less gives no delay).
pub proof fn lemma_note_off_after_duration(ch: u8, n: Note)
    ensures
        ({
            let pair = note_pair(ch, n);
            let num = n.duration@.0;
            let den = n.duration@.1;
            let delta = pair[1].0 as int;
            &&& pair.len() == 2
            &&& pair[0].0 == 0
            &&& pair[0].1 == EventView::NoteOn(ch, n.pitch@ as u8, n.velocity)
            &&& pair[1].1 == EventView::NoteOff(ch, n.pitch@ as u8, 0u8)
            &&& file_timing() matches SmfTiming::Metrical(t) && (den > 0 && num > 0 && num * 4 * t
                < (u32::MAX + 1) * den ==> delta * den <= num * 4 * t < (delta + 1) * den)
            &&& (num <= 0 ==> delta == 0)
        }),
{
    let num = n.duration@.0;
    let den = n.duration@.1;
    let t = 480int;
    assert(file_timing() == SmfTiming::Metrical(480u16));
    if den > 0 && num > 0 && num * 4 * t < (u32::MAX + 1) * den {
        let p = num * 1920;
        let v = p / den;
        lemma_fundamental_div_mod(p, den);
        assert(0 <= p % den < den);
        assert(v * den <= p < (v + 1) * den) by (nonlinear_arith)
            requires
                p == den * v + p % den,
                0 <= p % den < den,
        ;
        assert(v <= u32::MAX) by (nonlinear_arith)
            requires
                v * den <= p,
                p < (u32::MAX + 1) * den,
                den > 0,
        ;
        assert(p > 0) by (nonlinear_arith)
            requires
                num > 0,
                p == num * 1920,
        ;
        assert(scaled_trunc(num, den, 1920) == v);
    }
    if num <= 0 {
        assert(num * 1920 <= 0) by (nonlinear_arith)
            requires
                num <= 0,
        ;
    }
}

} // verus!
