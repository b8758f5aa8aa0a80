//! MusicXML 4.0 score export.
use vstd::prelude::*;
use crate::duration::{scaled_round, Duration};
use crate::pitch::{note_of_semitone, NoteName, Pitch};
use crate::song::{Articulation, Beat, Measure, Note, Song, Track};
use crate::tempo::{one_decimal_text, TimeSignature};
use crate::text::{int_text, nat_text, push_int, push_nat, push_xml_escaped, xml_escape};

verus! {

/// Divisions (sixteenth notes) of a duration: rounded half away from zero,
/// at least 1.
pub open spec fn divisions(d: (int, int)) -> int {
    let v = scaled_round(d.0, d.1, 16);
    if v < 1 { 1 } else { v }
}

/// MusicXML note type of a duration, by its length in quarter notes
/// `q = 4 * n / d`: whole from 3.5, half from 1.75, quarter from 0.75,
/// eighth from 0.375, else 16th.
pub open spec fn note_type(d: (int, int)) -> Seq<char> {
    let n = d.0;
    let q = d.1;
    if 8 * n >= 7 * q { "whole"@ }
    else if 20 * n >= 13 * q { "half"@ }
    else if 16 * n >= 7 * q { "half"@ }
    else if 16 * n >= 5 * q { "quarter"@ }
    else if 16 * n >= 3 * q { "quarter"@ }
    else if 32 * n >= 3 * q { "eighth"@ }
    else { "16th"@ }
}

/// The letter (step) of a note name, without its sharp.
pub open spec fn step_of(n: NoteName) -> Seq<char> {
    match n {
        NoteName::C | NoteName::CSharp => "C"@,
        NoteName::D | NoteName::DSharp => "D"@,
        NoteName::E => "E"@,
        NoteName::F | NoteName::FSharp => "F"@,
        NoteName::G | NoteName::GSharp => "G"@,
        NoteName::A | NoteName::ASharp => "A"@,
        NoteName::B => "B"@,
    }
}

pub open spec fn is_sharp(n: NoteName) -> bool {
    n == NoteName::CSharp || n == NoteName::DSharp || n == NoteName::FSharp || n == NoteName::GSharp
        || n == NoteName::ASharp
}

/// The notation line of an articulation (none for tapping and ghost notes).
pub open spec fn articulation_xml(a: Articulation) -> Seq<char> {
    match a {
        Articulation::Bend => "          <technical><bend><bend-alter>2</bend-alter></bend></technical>\n"@,
        Articulation::ReleaseBend => "          <technical><bend><bend-alter>2</bend-alter><release/></bend></technical>\n"@,
        Articulation::HammerOn => "          <technical><hammer-on type=\"start\">H</hammer-on></technical>\n"@,
        Articulation::PullOff => "          <technical><pull-off type=\"start\">P</pull-off></technical>\n"@,
        Articulation::SlideUp | Articulation::SlideDown => "          <slide type=\"start\"/>\n"@,
        Articulation::Harmonic => "          <technical><harmonic><natural/></harmonic></technical>\n"@,
        Articulation::Vibrato => "          <ornaments><wavy-line type=\"start\"/></ornaments>\n"@,
        Articulation::PalmMute => "          <technical><other-technical>P.M.</other-technical></technical>\n"@,
        Articulation::Staccato => "          <articulations><staccato/></articulations>\n"@,
        Articulation::Accent => "          <articulations><accent/></articulations>\n"@,
        Articulation::Tenuto => "          <articulations><tenuto/></articulations>\n"@,
        _ => Seq::empty(),
    }
}

/// The `<pitch>` element of a MIDI note: step, alteration for a sharp, octave.
pub open spec fn pitch_xml(m: int) -> Seq<char> {
    let name = note_of_semitone(m % 12);
    "        <pitch>\n"@ + "          <step>"@ + step_of(name) + "</step>\n"@
        + (if is_sharp(name) { "          <alter>1</alter>\n"@ } else { Seq::empty() })
        + "          <octave>"@ + int_text(m / 12 - 1) + "</octave>\n"@ + "        </pitch>\n"@
}

/// A `<note>` element for one note of a beat of duration `d`.
pub open spec fn note_xml(n: Note, d: (int, int)) -> Seq<char> {
    "      <note>\n"@ + pitch_xml(n.pitch@) + "        <duration>"@ + nat_text(divisions(d) as nat)
        + "</duration>\n"@ + "        <type>"@ + note_type(d) + "</type>\n"@ + (match n.articulation {
        Some(a) => "        <notations>\n"@ + articulation_xml(a) + "        </notations>\n"@,
        None => Seq::empty(),
    }) + "      </note>\n"@
}

pub open spec fn notes_xml(notes: Seq<Note>, d: (int, int)) -> Seq<char>
    decreases notes.len(),
{
    if notes.len() == 0 {
        Seq::empty()
    } else {
        notes_xml(notes.drop_last(), d) + note_xml(notes.last(), d)
    }
}

/// A rest element, or a note element per note of the beat.
pub open spec fn beat_xml(b: Beat) -> Seq<char> {
    if b.notes@.len() == 0 {
        "      <note>\n"@ + "        <rest/>\n"@ + "        <duration>"@ + nat_text(
            divisions(b.duration@) as nat,
        ) + "</duration>\n"@ + "        <type>"@ + note_type(b.duration@) + "</type>\n"@
            + "      </note>\n"@
    } else {
        notes_xml(b.notes@, b.duration@)
    }
}

pub open spec fn beats_xml(beats: Seq<Beat>) -> Seq<char>
    decreases beats.len(),
{
    if beats.len() == 0 {
        Seq::empty()
    } else {
        beats_xml(beats.drop_last()) + beat_xml(beats.last())
    }
}

pub open spec fn time_xml(ts: TimeSignature) -> Seq<char> {
    "        <time>\n"@ + "          <beats>"@ + nat_text(ts.numerator as nat) + "</beats>\n"@
        + "          <beat-type>"@ + nat_text(ts.denominator as nat) + "</beat-type>\n"@
        + "        </time>\n"@
}

/// Attributes of a measure: the full set (divisions, key, time, clef) in
/// the first measure, the time alone where the time signature changes.
pub open spec fn attributes_xml(m: Measure, first: bool, song_ts: TimeSignature) -> Seq<char> {
    let ts = match m.time_signature {
        Some(t) => t,
        None => song_ts,
    };
    if first {
        "      <attributes>\n"@ + "        <divisions>4</divisions>\n"@
            + "        <key>\n          <fifths>0</fifths>\n        </key>\n"@ + time_xml(ts)
            + "        <clef>\n          <sign>G</sign>\n          <line>2</line>\n        </clef>\n"@
            + "      </attributes>\n"@
    } else if m.time_signature is Some {
        "      <attributes>\n"@ + time_xml(ts) + "      </attributes>\n"@
    } else {
        Seq::empty()
    }
}

pub open spec fn tempo_xml(m: Measure) -> Seq<char> {
    match m.tempo {
        Some(t) => "      <direction placement=\"above\">\n"@ + "        <sound tempo=\""@
            + one_decimal_text(t@) + "\"/>\n"@ + "      </direction>\n"@,
        None => Seq::empty(),
    }
}

/// Measure `i` (0-based) of a part, numbered from 1.
pub open spec fn measure_xml(m: Measure, i: int, song_ts: TimeSignature) -> Seq<char> {
    "    <measure number=\""@ + nat_text((i + 1) as nat) + "\">\n"@ + attributes_xml(m, i == 0, song_ts)
        + tempo_xml(m) + beats_xml(m.beats@) + "    </measure>\n"@
}

pub open spec fn measures_xml(ms: Seq<Measure>, song_ts: TimeSignature) -> Seq<char>
    decreases ms.len(),
{
    if ms.len() == 0 {
        Seq::empty()
    } else {
        measures_xml(ms.drop_last(), song_ts) + measure_xml(ms.last(), ms.len() - 1, song_ts)
    }
}

pub open spec fn part_xml(t: Track, i: int, song_ts: TimeSignature) -> Seq<char> {
    "  <part id=\"P"@ + nat_text((i + 1) as nat) + "\">\n"@ + measures_xml(t.measures@, song_ts)
        + "  </part>\n"@
}

pub open spec fn parts_xml(ts: Seq<Track>, song_ts: TimeSignature) -> Seq<char>
    decreases ts.len(),
{
    if ts.len() == 0 {
        Seq::empty()
    } else {
        parts_xml(ts.drop_last(), song_ts) + part_xml(ts.last(), ts.len() - 1, song_ts)
    }
}

pub open spec fn score_part_xml(t: Track, i: int) -> Seq<char> {
    "    <score-part id=\"P"@ + nat_text((i + 1) as nat) + "\">\n"@ + "      <part-name>"@ + xml_escape(t.name@)
        + "</part-name>\n"@ + "    </score-part>\n"@
}

pub open spec fn score_parts_xml(ts: Seq<Track>) -> Seq<char>
    decreases ts.len(),
{
    if ts.len() == 0 {
        Seq::empty()
    } else {
        score_parts_xml(ts.drop_last()) + score_part_xml(ts.last(), ts.len() - 1)
    }
}

/// The MusicXML document of a song: declaration, title, part list, then a
/// part per track.
pub open spec fn score_xml(song: Song) -> Seq<char> {
    "<?xml version=\"1.0\" encoding=\"UTF-8\"?>\n"@
        + "<!DOCTYPE score-partwise PUBLIC \"-//Recordare//DTD MusicXML 4.0 Partwise//EN\" \"http://www.musicxml.org/dtds/partwise.dtd\">\n"@
        + "<score-partwise version=\"4.0\">\n"@ + "  <work>\n"@ + "    <work-title>"@ + xml_escape(song.title@)
        + "</work-title>\n"@ + "  </work>\n"@ + "  <part-list>\n"@ + score_parts_xml(song.tracks@)
        + "  </part-list>\n"@ + parts_xml(song.tracks@, song.time_signature)
        + "</score-partwise>\n"@
}

/// MusicXML 4.0 exporter.
pub struct MusicXmlWriter;

impl Default for MusicXmlWriter {
    fn default() -> (r: MusicXmlWriter)
        ensures
            r == MusicXmlWriter,
    {
        MusicXmlWriter
    }
}

impl MusicXmlWriter {
    /// Divisions of a duration at 4 divisions per quarter note.
    pub fn duration_to_divisions(dur: Duration) -> (r: u32)
        ensures
            r == divisions(dur@),
    {
        let v = dur.ticks_rounded(16);
        if v < 1 { 1 } else { v }
    }

    /// MusicXML note type of a duration.
    pub fn duration_to_type(dur: Duration) -> (r: &'static str)
        ensures
            r@ == note_type(dur@),
    {
        let n = dur.numer() as i64;
        let q = dur.denom() as i64;
        if 8 * n >= 7 * q {
            "whole"
        } else if 20 * n >= 13 * q {
            "half"
        } else if 16 * n >= 7 * q {
            "half"
        } else if 16 * n >= 5 * q {
            "quarter"
        } else if 16 * n >= 3 * q {
            "quarter"
        } else if 32 * n >= 3 * q {
            "eighth"
        } else {
            "16th"
        }
    }
}

fn step_str(n: NoteName) -> (r: &'static str)
    ensures
        r@ == step_of(n),
{
    match n {
        NoteName::C | NoteName::CSharp => "C",
        NoteName::D | NoteName::DSharp => "D",
        NoteName::E => "E",
        NoteName::F | NoteName::FSharp => "F",
        NoteName::G | NoteName::GSharp => "G",
        NoteName::A | NoteName::ASharp => "A",
        NoteName::B => "B",
    }
}

fn articulation_str(a: Articulation) -> (r: &'static str)
    ensures
        r@ == articulation_xml(a),
{
    match a {
        Articulation::Bend => "          <technical><bend><bend-alter>2</bend-alter></bend></technical>\n",
        Articulation::ReleaseBend => "          <technical><bend><bend-alter>2</bend-alter><release/></bend></technical>\n",
        Articulation::HammerOn => "          <technical><hammer-on type=\"start\">H</hammer-on></technical>\n",
        Articulation::PullOff => "          <technical><pull-off type=\"start\">P</pull-off></technical>\n",
        Articulation::SlideUp | Articulation::SlideDown => "          <slide type=\"start\"/>\n",
        Articulation::Harmonic => "          <technical><harmonic><natural/></harmonic></technical>\n",
        Articulation::Vibrato => "          <ornaments><wavy-line type=\"start\"/></ornaments>\n",
        Articulation::PalmMute => "          <technical><other-technical>P.M.</other-technical></technical>\n",
        Articulation::Staccato => "          <articulations><staccato/></articulations>\n",
        Articulation::Accent => "          <articulations><accent/></articulations>\n",
        Articulation::Tenuto => "          <articulations><tenuto/></articulations>\n",
        _ => {
            proof {
                reveal_strlit("");
            }
            ""
        },
    }
}

fn push_pitch(out: &mut String, p: Pitch)
    ensures
        final(out)@ == old(out)@ + pitch_xml(p@),
{
    let name = p.note_name();
    out.append("        <pitch>\n");
    out.append("          <step>");
    out.append(step_str(name));
    out.append("</step>\n");
    let sharp = match name {
        NoteName::CSharp | NoteName::DSharp | NoteName::FSharp | NoteName::GSharp | NoteName::ASharp => true,
        _ => false,
    };
    if sharp {
        out.append("          <alter>1</alter>\n");
    }
    out.append("          <octave>");
    push_int(out, p.octave() as i64);
    out.append("</octave>\n");
    out.append("        </pitch>\n");
    assert(out@ =~= old(out)@ + pitch_xml(p@));
}

fn push_note(out: &mut String, n: &Note, d: Duration)
    ensures
        final(out)@ == old(out)@ + note_xml(*n, d@),
{
    out.append("      <note>\n");
    push_pitch(out, n.pitch);
    out.append("        <duration>");
    push_nat(out, MusicXmlWriter::duration_to_divisions(d) as u64);
    out.append("</duration>\n");
    out.append("        <type>");
    out.append(MusicXmlWriter::duration_to_type(d));
    out.append("</type>\n");
    match n.articulation {
        Some(a) => {
            out.append("        <notations>\n");
            out.append(articulation_str(a));
            out.append("        </notations>\n");
        },
        None => {},
    }
    out.append("      </note>\n");
    assert(out@ =~= old(out)@ + note_xml(*n, d@));
}

fn push_beat(out: &mut String, b: &Beat)
    ensures
        final(out)@ == old(out)@ + beat_xml(*b),
{
    if b.is_rest() {
        out.append("      <note>\n");
        out.append("        <rest/>\n");
        out.append("        <duration>");
        push_nat(out, MusicXmlWriter::duration_to_divisions(b.duration) as u64);
        out.append("</duration>\n");
        out.append("        <type>");
        out.append(MusicXmlWriter::duration_to_type(b.duration));
        out.append("</type>\n");
        out.append("      </note>\n");
        assert(out@ =~= old(out)@ + beat_xml(*b));
    } else {
        let mut k: usize = 0;
        while k < b.notes.len()
            invariant
                k <= b.notes@.len(),
                out@ == old(out)@ + notes_xml(b.notes@.take(k as int), b.duration@),
            decreases b.notes@.len() - k,
        {
            push_note(out, &b.notes[k], b.duration);
            assert(b.notes@.take(k + 1).drop_last() =~= b.notes@.take(k as int));
            assert(out@ =~= old(out)@ + notes_xml(b.notes@.take(k + 1), b.duration@));
            k = k + 1;
        }
        assert(b.notes@.take(b.notes@.len() as int) =~= b.notes@);
    }
}

fn push_time(out: &mut String, ts: TimeSignature)
    ensures
        final(out)@ == old(out)@ + time_xml(ts),
{
    out.append("        <time>\n");
    out.append("          <beats>");
    push_nat(out, ts.numerator as u64);
    out.append("</beats>\n");
    out.append("          <beat-type>");
    push_nat(out, ts.denominator as u64);
    out.append("</beat-type>\n");
    out.append("        </time>\n");
    assert(out@ =~= old(out)@ + time_xml(ts));
}

fn push_attributes(out: &mut String, m: &Measure, first: bool, song_ts: TimeSignature)
    ensures
        final(out)@ == old(out)@ + attributes_xml(*m, first, song_ts),
{
    let active = match m.time_signature {
        Some(t) => t,
        None => song_ts,
    };
    if first {
        out.append("      <attributes>\n");
        out.append("        <divisions>4</divisions>\n");
        out.append("        <key>\n          <fifths>0</fifths>\n        </key>\n");
        push_time(out, active);
        out.append("        <clef>\n          <sign>G</sign>\n          <line>2</line>\n        </clef>\n");
        out.append("      </attributes>\n");
    } else if m.time_signature.is_some() {
        out.append("      <attributes>\n");
        push_time(out, active);
        out.append("      </attributes>\n");
    }
    assert(out@ =~= old(out)@ + attributes_xml(*m, first, song_ts));
}

fn push_tempo(out: &mut String, m: &Measure)
    ensures
        final(out)@ == old(out)@ + tempo_xml(*m),
{
    match m.tempo {
        Some(t) => {
            out.append("      <direction placement=\"above\">\n");
            out.append("        <sound tempo=\"");
            let bpm = t.bpm_text();
            out.append(bpm.as_str());
            out.append("\"/>\n");
            out.append("      </direction>\n");
        },
        None => {},
    }
    assert(out@ =~= old(out)@ + tempo_xml(*m));
}

fn push_measure(out: &mut String, m: &Measure, i: usize, song_ts: TimeSignature)
    requires
        i < usize::MAX,
    ensures
        final(out)@ == old(out)@ + measure_xml(*m, i as int, song_ts),
{
    out.append("    <measure number=\"");
    push_nat(out, i as u64 + 1);
    out.append("\">\n");
    push_attributes(out, m, i == 0, song_ts);
    push_tempo(out, m);
    let ghost after_tempo = out@;
    let mut b: usize = 0;
    while b < m.beats.len()
        invariant
            b <= m.beats@.len(),
            out@ == after_tempo + beats_xml(m.beats@.take(b as int)),
        decreases m.beats@.len() - b,
    {
        push_beat(out, &m.beats[b]);
        assert(m.beats@.take(b + 1).drop_last() =~= m.beats@.take(b as int));
        assert(out@ =~= after_tempo + beats_xml(m.beats@.take(b + 1)));
        b = b + 1;
    }
    assert(m.beats@.take(m.beats@.len() as int) =~= m.beats@);
    out.append("    </measure>\n");
    assert(out@ =~= old(out)@ + measure_xml(*m, i as int, song_ts));
}

fn push_part(out: &mut String, t: &Track, i: usize, song_ts: TimeSignature)
    requires
        i < usize::MAX,
    ensures
        final(out)@ == old(out)@ + part_xml(*t, i as int, song_ts),
{
    out.append("  <part id=\"P");
    push_nat(out, i as u64 + 1);
    out.append("\">\n");
    let ghost head = out@;
    let mut k: usize = 0;
    while k < t.measures.len()
        invariant
            k <= t.measures@.len(),
            out@ == head + measures_xml(t.measures@.take(k as int), song_ts),
        decreases t.measures@.len() - k,
    {
        push_measure(out, &t.measures[k], k, song_ts);
        assert(t.measures@.take(k + 1).drop_last() =~= t.measures@.take(k as int));
        assert(out@ =~= head + measures_xml(t.measures@.take(k + 1), song_ts));
        k = k + 1;
    }
    assert(t.measures@.take(t.measures@.len() as int) =~= t.measures@);
    out.append("  </part>\n");
    assert(out@ =~= old(out)@ + part_xml(*t, i as int, song_ts));
}

impl MusicXmlWriter {
    /// The MusicXML document of a song (see `score_xml`).
    pub fn render(song: &Song) -> (r: String)
        ensures
            r@ == score_xml(*song),
    {
        let mut xml = String::new();
        xml.append("<?xml version=\"1.0\" encoding=\"UTF-8\"?>\n");
        xml.append("<!DOCTYPE score-partwise PUBLIC \"-//Recordare//DTD MusicXML 4.0 Partwise//EN\" \"http://www.musicxml.org/dtds/partwise.dtd\">\n");
        xml.append("<score-partwise version=\"4.0\">\n");
        xml.append("  <work>\n");
        xml.append("    <work-title>");
        push_xml_escaped(&mut xml, song.title.as_str());
        xml.append("</work-title>\n");
        xml.append("  </work>\n");
        xml.append("  <part-list>\n");
        let ghost head = xml@;
        let mut i: usize = 0;
        while i < song.tracks.len()
            invariant
                i <= song.tracks@.len(),
                xml@ == head + score_parts_xml(song.tracks@.take(i as int)),
            decreases song.tracks@.len() - i,
        {
            let t = &song.tracks[i];
            xml.append("    <score-part id=\"P");
            push_nat(&mut xml, i as u64 + 1);
            xml.append("\">\n");
            xml.append("      <part-name>");
            push_xml_escaped(&mut xml, t.name.as_str());
            xml.append("</part-name>\n");
            xml.append("    </score-part>\n");
            assert(song.tracks@.take(i + 1).drop_last() =~= song.tracks@.take(i as int));
            assert(xml@ =~= head + score_parts_xml(song.tracks@.take(i + 1)));
            i = i + 1;
        }
        assert(song.tracks@.take(song.tracks@.len() as int) =~= song.tracks@);
        xml.append("  </part-list>\n");
        let ghost mid = xml@;
        let mut i: usize = 0;
        while i < song.tracks.len()
            invariant
                i <= song.tracks@.len(),
                xml@ == mid + parts_xml(song.tracks@.take(i as int), song.time_signature),
            decreases song.tracks@.len() - i,
        {
            push_part(&mut xml, &song.tracks[i], i, song.time_signature);
            assert(song.tracks@.take(i + 1).drop_last() =~= song.tracks@.take(i as int));
            assert(xml@ =~= mid + parts_xml(song.tracks@.take(i + 1), song.time_signature));
            i = i + 1;
        }
        assert(song.tracks@.take(song.tracks@.len() as int) =~= song.tracks@);
        xml.append("</score-partwise>\n");
        assert(xml@ =~= score_xml(*song));
        xml
    }
}

/// The `<pitch>` element sounds the note's MIDI number: for every MIDI
/// number `m`, the step written is one letter whose natural semitone, plus
/// 1 when an `<alter>1</alter>` is written, plus 12 per octave above octave
/// -1 as written in `<octave>`, gives `m` back; these are the step, the
/// alteration and the octave the element holds.
pub proof fn lemma_pitch_xml_sounds_the_pitch(m: int)
    requires
        0 <= m <= 127,
    ensures
        ({
            let name = note_of_semitone(m % 12);
            let step = step_of(name);
            let alter = if is_sharp(name) { 1int } else { 0int };
            let octave = m / 12 - 1;
            &&& pitch_xml(m) == "        <pitch>\n"@ + "          <step>"@ + step + "</step>\n"@ + (if alter
                == 1 {
                "          <alter>1</alter>\n"@
            } else {
                Seq::empty()
            }) + "          <octave>"@ + int_text(octave) + "</octave>\n"@ + "        </pitch>\n"@
            &&& step.len() == 1
            &&& (if step[0] == 'C' {
                0int
            } else if step[0] == 'D' {
                2int
            } else if step[0] == 'E' {
                4int
            } else if step[0] == 'F' {
                5int
            } else if step[0] == 'G' {
                7int
            } else if step[0] == 'A' {
                9int
            } else if step[0] == 'B' {
                11int
            } else {
                -100int
            }) + alter + 12 * (octave + 1) == m
        }),
{
    reveal_strlit("C");
    reveal_strlit("D");
    reveal_strlit("E");
    reveal_strlit("F");
    reveal_strlit("G");
    reveal_strlit("A");
    reveal_strlit("B");
}

} // verus!
