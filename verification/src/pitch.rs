use vstd::prelude::*;
use crate::error::CoreError;
use crate::text::{
    int_text, is_digit, is_space, lemma_nat_text, lemma_parse_int_text, nat_text, parse_i8, parse_int, push_int,
    trim, trim_end, trim_start, trim_str,
};

verus! {

/// Note letter in the chromatic scale.
#[derive(Debug, Clone, Copy, PartialEq, Eq, PartialOrd, Ord, Hash, Structural)]
pub enum NoteName {
    C,
    CSharp,
    D,
    DSharp,
    E,
    F,
    FSharp,
    G,
    GSharp,
    A,
    ASharp,
    B,
}

/// Position of a note letter within the octave (C = 0 .. B = 11).
pub open spec fn semitone_of(n: NoteName) -> int {
    match n {
        NoteName::C => 0,
        NoteName::CSharp => 1,
        NoteName::D => 2,
        NoteName::DSharp => 3,
        NoteName::E => 4,
        NoteName::F => 5,
        NoteName::FSharp => 6,
        NoteName::G => 7,
        NoteName::GSharp => 8,
        NoteName::A => 9,
        NoteName::ASharp => 10,
        NoteName::B => 11,
    }
}

/// The note letter `semitone_of` maps to `s` (for `0 <= s < 12`).
pub open spec fn note_of_semitone(s: int) -> NoteName {
    if s == 0 { NoteName::C }
    else if s == 1 { NoteName::CSharp }
    else if s == 2 { NoteName::D }
    else if s == 3 { NoteName::DSharp }
    else if s == 4 { NoteName::E }
    else if s == 5 { NoteName::F }
    else if s == 6 { NoteName::FSharp }
    else if s == 7 { NoteName::G }
    else if s == 8 { NoteName::GSharp }
    else if s == 9 { NoteName::A }
    else if s == 10 { NoteName::ASharp }
    else { NoteName::B }
}

/// Conventional spelling of a note letter, with sharps.
pub open spec fn sharp_name(n: NoteName) -> Seq<char> {
    match n {
        NoteName::C => seq!['C'],
        NoteName::CSharp => seq!['C', '#'],
        NoteName::D => seq!['D'],
        NoteName::DSharp => seq!['D', '#'],
        NoteName::E => seq!['E'],
        NoteName::F => seq!['F'],
        NoteName::FSharp => seq!['F', '#'],
        NoteName::G => seq!['G'],
        NoteName::GSharp => seq!['G', '#'],
        NoteName::A => seq!['A'],
        NoteName::ASharp => seq!['A', '#'],
        NoteName::B => seq!['B'],
    }
}

/// Identifier of a note letter, as its derived `Debug` prints it.
pub open spec fn debug_name(n: NoteName) -> Seq<char> {
    match n {
        NoteName::C => "C"@,
        NoteName::CSharp => "CSharp"@,
        NoteName::D => "D"@,
        NoteName::DSharp => "DSharp"@,
        NoteName::E => "E"@,
        NoteName::F => "F"@,
        NoteName::FSharp => "FSharp"@,
        NoteName::G => "G"@,
        NoteName::GSharp => "GSharp"@,
        NoteName::A => "A"@,
        NoteName::ASharp => "ASharp"@,
        NoteName::B => "B"@,
    }
}

/// Semitone of a natural note letter, either case.
pub open spec fn natural_semitone(c: char) -> Option<int> {
    if c == 'C' || c == 'c' { Some(0) }
    else if c == 'D' || c == 'd' { Some(2) }
    else if c == 'E' || c == 'e' { Some(4) }
    else if c == 'F' || c == 'f' { Some(5) }
    else if c == 'G' || c == 'g' { Some(7) }
    else if c == 'A' || c == 'a' { Some(9) }
    else if c == 'B' || c == 'b' { Some(11) }
    else { None }
}

/// The note a one- or two-character spelling names, compared without case:
/// a natural letter, a letter with `#`, or a letter with `b` (flat), among
/// C D E F G A B, C# D# F# G# A#, Db Eb Gb Ab Bb.
pub open spec fn note_from_text(n: Seq<char>) -> Option<NoteName> {
    if n.len() == 1 {
        match natural_semitone(n[0]) {
            Some(s) => Some(note_of_semitone(s)),
            None => None,
        }
    } else if n.len() == 2 && n[1] == '#' {
        match natural_semitone(n[0]) {
            Some(s) => if s == 4 || s == 11 { None } else { Some(note_of_semitone(s + 1)) },
            None => None,
        }
    } else if n.len() == 2 && (n[1] == 'b' || n[1] == 'B') {
        match natural_semitone(n[0]) {
            Some(s) => if s == 0 || s == 5 { None } else { Some(note_of_semitone(s - 1)) },
            None => None,
        }
    } else {
        None
    }
}

/// Outcome of reading pitch text.
pub enum PitchText {
    /// The MIDI number of the pitch.
    Value(int),
    /// The text does not spell a pitch.
    Malformed,
    /// The note and octave lie outside MIDI 0..=127.
    OutOfRange(NoteName, int),
}

/// Length of the note part of trimmed pitch text `t`.
pub open spec fn note_part_len(t: Seq<char>) -> int {
    if t.len() >= 2 && (t[1] == '#' || t[1] == 'b') { 2 } else { 1 }
}

/// Pitch text: surrounding whitespace, a note spelling, an `i8` octave.
pub open spec fn parse_pitch(s: Seq<char>) -> PitchText {
    let t = trim(s);
    if t.len() == 0 {
        PitchText::Malformed
    } else {
        let k = note_part_len(t);
        match parse_int(t.subrange(k, t.len() as int), true, -128, 127) {
            None => PitchText::Malformed,
            Some(o) => match note_from_text(t.take(k)) {
                None => PitchText::Malformed,
                Some(name) => {
                    let v = (o + 1) * 12 + semitone_of(name);
                    if 0 <= v <= 127 { PitchText::Value(v) } else { PitchText::OutOfRange(name, o) }
                },
            },
        }
    }
}

impl NoteName {
    /// The note letter at a semitone offset, taken modulo the octave.
    pub fn from_semitone(semitone: u8) -> (r: NoteName)
        ensures
            semitone_of(r) == semitone % 12,
            r == note_of_semitone((semitone % 12) as int),
    {
        match semitone % 12 {
            0 => NoteName::C,
            1 => NoteName::CSharp,
            2 => NoteName::D,
            3 => NoteName::DSharp,
            4 => NoteName::E,
            5 => NoteName::F,
            6 => NoteName::FSharp,
            7 => NoteName::G,
            8 => NoteName::GSharp,
            9 => NoteName::A,
            10 => NoteName::ASharp,
            _ => NoteName::B,
        }
    }

    pub fn to_semitone(self) -> (r: u8)
        ensures
            r == semitone_of(self),
    {
        match self {
            NoteName::C => 0,
            NoteName::CSharp => 1,
            NoteName::D => 2,
            NoteName::DSharp => 3,
            NoteName::E => 4,
            NoteName::F => 5,
            NoteName::FSharp => 6,
            NoteName::G => 7,
            NoteName::GSharp => 8,
            NoteName::A => 9,
            NoteName::ASharp => 10,
            NoteName::B => 11,
        }
    }


    /// Spelling with sharps ("C", "C#", ..., "B").
    pub fn name_with_sharp(self) -> (r: &'static str)
        ensures
            r@ == sharp_name(self),
    {
        proof {
            reveal_strlit("C");
            reveal_strlit("C#");
            reveal_strlit("D");
            reveal_strlit("D#");
            reveal_strlit("E");
            reveal_strlit("F");
            reveal_strlit("F#");
            reveal_strlit("G");
            reveal_strlit("G#");
            reveal_strlit("A");
            reveal_strlit("A#");
            reveal_strlit("B");
        }
        match self {
            NoteName::C => "C",
            NoteName::CSharp => "C#",
            NoteName::D => "D",
            NoteName::DSharp => "D#",
            NoteName::E => "E",
            NoteName::F => "F",
            NoteName::FSharp => "F#",
            NoteName::G => "G",
            NoteName::GSharp => "G#",
            NoteName::A => "A",
            NoteName::ASharp => "A#",
            NoteName::B => "B",
        }
    }

    /// The identifier of the variant ("CSharp" for C#).
    pub fn debug_str(self) -> (r: &'static str)
        ensures
            r@ == debug_name(self),
    {
        match self {
            NoteName::C => "C",
            NoteName::CSharp => "CSharp",
            NoteName::D => "D",
            NoteName::DSharp => "DSharp",
            NoteName::E => "E",
            NoteName::F => "F",
            NoteName::FSharp => "FSharp",
            NoteName::G => "G",
            NoteName::GSharp => "GSharp",
            NoteName::A => "A",
            NoteName::ASharp => "ASharp",
            NoteName::B => "B",
        }
    }
}

/// Discrete musical pitch: a MIDI note number in 0..=127.
#[derive(Debug, Clone, Copy, PartialEq, Eq, PartialOrd, Ord, Hash, Structural)]
pub struct Pitch {
    midi: u8,
}

impl View for Pitch {
    type V = int;

    closed spec fn view(&self) -> int {
        self.midi as int
    }
}

/// The pitch text that `Pitch::to_string` writes for MIDI number `m`:
/// note spelled with sharps, then the octave (middle C is C4).
pub open spec fn pitch_text(m: int) -> Seq<char> {
    sharp_name(note_of_semitone(m % 12)) + int_text(m / 12 - 1)
}

impl Pitch {
    #[verifier::type_invariant]
    spec fn inv(self) -> bool {
        self.midi <= 127
    }

    /// The pitch with MIDI number `midi`; numbers above 127 are refused.
    pub fn from_midi(midi: u8) -> (r: Result<Pitch, CoreError>)
        ensures
            r is Ok <==> midi <= 127,
            r matches Ok(p) ==> p@ == midi,
            r matches Err(e) ==> e == CoreError::InvalidMidiPitch(midi),
    {
        if midi > 127 {
            return Err(CoreError::InvalidMidiPitch(midi));
        }
        Ok(Pitch { midi })
    }

    /// The pitch of a note letter in an octave (octave 4 holds middle C, MIDI 60).
    /// A note and octave outside MIDI 0..=127 are refused, naming them.
    pub fn from_name_and_octave(name: NoteName, octave: i8) -> (r: Result<Pitch, CoreError>)
        ensures
            r is Ok <==> 0 <= (octave + 1) * 12 + semitone_of(name) <= 127,
            r matches Ok(p) ==> p@ == (octave + 1) * 12 + semitone_of(name),
            r matches Err(e) ==> e matches CoreError::InvalidPitchNotation(m) && m@ == debug_name(
                name,
            ) + int_text(octave as int),
    {
        let midi_val: i32 = (octave as i32 + 1) * 12 + name.to_semitone() as i32;
        if !(0 <= midi_val && midi_val <= 127) {
            let mut m = String::new();
            m.append(name.debug_str());
            push_int(&mut m, octave as i64);
            return Err(CoreError::InvalidPitchNotation(m));
        }
        Ok(Pitch { midi: midi_val as u8 })
    }

    pub fn midi(self) -> (r: u8)
        ensures
            r == self@,
            r <= 127,
    {
        proof {
            use_type_invariant(&self);
        }
        self.midi
    }

    pub fn note_name(self) -> (r: NoteName)
        ensures
            r == note_of_semitone(self@ % 12),
    {
        NoteName::from_semitone(self.midi % 12)
    }

    /// Octave number (MIDI 0..=11 is octave -1, middle C is in octave 4).
    pub fn octave(self) -> (r: i8)
        ensures
            r == self@ / 12 - 1,
    {
        proof {
            use_type_invariant(&self);
        }
        (self.midi as i8 / 12) - 1
    }

    /// Note spelled with sharps followed by the octave, e.g. "A4", "C#-1".
    pub fn to_string(self) -> (r: String)
        ensures
            r@ == pitch_text(self@),
    {
        let mut out = String::new();
        out.append(self.note_name().name_with_sharp());
        push_int(&mut out, self.octave() as i64);
        assert(out@ =~= pitch_text(self@));
        out
    }
}


/// Semitone of a natural note letter, either case.
fn natural_semitone_of(c: char) -> (r: Option<u8>)
    ensures
        match r {
            Some(v) => natural_semitone(c) == Some(v as int),
            None => natural_semitone(c) is None,
        },
{
    if c == 'C' || c == 'c' { Some(0) }
    else if c == 'D' || c == 'd' { Some(2) }
    else if c == 'E' || c == 'e' { Some(4) }
    else if c == 'F' || c == 'f' { Some(5) }
    else if c == 'G' || c == 'g' { Some(7) }
    else if c == 'A' || c == 'a' { Some(9) }
    else if c == 'B' || c == 'b' { Some(11) }
    else { None }
}

/// The note spelled by the first `k` characters of `t`.
fn note_from_prefix(t: &str, k: usize) -> (r: Option<NoteName>)
    requires
        1 <= k <= 2,
        k <= t@.len(),
    ensures
        r == note_from_text(t@.take(k as int)),
{
    let ghost n = t@.take(k as int);
    let c0 = t.get_char(0);
    assert(n[0] == c0);
    let letter = natural_semitone_of(c0);
    if k == 1 {
        return match letter {
            Some(v) => Some(NoteName::from_semitone(v)),
            None => None,
        };
    }
    let c1 = t.get_char(1);
    assert(n[1] == c1);
    match letter {
        None => None,
        Some(v) => {
            if c1 == '#' {
                if v == 4 || v == 11 { None } else { Some(NoteName::from_semitone(v + 1)) }
            } else if c1 == 'b' || c1 == 'B' {
                if v == 0 || v == 5 { None } else { Some(NoteName::from_semitone(v - 1)) }
            } else {
                None
            }
        },
    }
}

impl Pitch {
    /// Reads pitch text such as "A4", "C#3", "Eb2" (note, then an `i8` octave),
    /// ignoring surrounding whitespace. Malformed text is refused with the
    /// text itself as the message; a pitch outside MIDI 0..=127 with the note
    /// and octave.
    pub fn from_str(s: &str) -> (r: Result<Pitch, CoreError>)
        ensures
            match parse_pitch(s@) {
                PitchText::Value(v) => r matches Ok(p) && p@ == v,
                PitchText::Malformed => r matches Err(CoreError::InvalidPitchNotation(m)) && m@
                    == s@,
                PitchText::OutOfRange(name, o) => r matches Err(CoreError::InvalidPitchNotation(m))
                    && m@ == debug_name(name) + int_text(o),
            },
    {
        let t = trim_str(s);
        let n = t.unicode_len();
        if n == 0 {
            return Err(CoreError::InvalidPitchNotation(String::from_str(s)));
        }
        let two = n >= 2 && (t.get_char(1) == '#' || t.get_char(1) == 'b');
        let k: usize = if two { 2 } else { 1 };
        assert(k == note_part_len(t@));
        let octave = match parse_i8(t.substring_char(k, n)) {
            None => {
                return Err(CoreError::InvalidPitchNotation(String::from_str(s)));
            },
            Some(o) => o,
        };
        let name = match note_from_prefix(t, k) {
            None => {
                return Err(CoreError::InvalidPitchNotation(String::from_str(s)));
            },
            Some(name) => name,
        };
        Pitch::from_name_and_octave(name, octave)
    }
}

proof fn lemma_trim_plain(s: Seq<char>)
    requires
        s.len() > 0,
        !is_space(s[0]),
        !is_space(s.last()),
    ensures
        trim(s) == s,
{
    assert(trim_start(s) == s);
    assert(trim_end(s) == s);
}

/// Reading the text that `Pitch::to_string` writes gives back the pitch.
pub proof fn lemma_pitch_text_roundtrip(m: int)
    requires
        0 <= m <= 127,
    ensures
        parse_pitch(pitch_text(m)) == PitchText::Value(m),
{
    let name = note_of_semitone(m % 12);
    let o = m / 12 - 1;
    let t = pitch_text(m);
    let sn = sharp_name(name);
    let ot = int_text(o);
    if o < 0 {
        lemma_nat_text((-o) as nat);
    } else {
        lemma_nat_text(o as nat);
    }
    assert(ot.len() >= 1);
    assert(ot[0] == '-' || ('0' <= ot[0] && ot[0] <= '9'));
    assert(ot.last() == nat_text((if o < 0 { -o } else { o }) as nat).last());
    lemma_trim_plain(t);
    let k = note_part_len(t);
    assert(k == sn.len());
    assert(t.take(k) =~= sn);
    assert(t.subrange(k, t.len() as int) =~= ot);
    lemma_parse_int_text(o, true, -128, 127);
    assert(note_from_text(sn) == Some(name));
    assert((o + 1) * 12 + semitone_of(name) == m);
}

/// A note name and its semitone determine each other: `to_semitone` undoes
/// `from_semitone` on 0..12, and `from_semitone` undoes `to_semitone`.
pub proof fn lemma_semitone_roundtrip(n: NoteName, s: int)
    requires
        0 <= s < 12,
    ensures
        note_of_semitone(semitone_of(n)) == n,
        semitone_of(note_of_semitone(s)) == s,
{
}

/// A pitch's note name and octave give it back: `from_name_and_octave`
/// applied to `note_name` and `octave` of MIDI note `m` is accepted and
/// yields `m`.
pub proof fn lemma_name_octave_roundtrip(m: int)
    requires
        0 <= m <= 127,
    ensures
        ({
            let name = note_of_semitone(m % 12);
            let octave = m / 12 - 1;
            &&& -128 <= octave <= 127
            &&& (octave + 1) * 12 + semitone_of(name) == m
        }),
{
}

/// Pitch text spelled as a letter (either case), an accidental and an
/// octave reads as that letter's natural semitone, raised by a sharp `#` or
/// lowered by a flat `b`, plus 12 per octave above octave -1 (C4 = 60):
/// flats are accepted on D E G A B, sharps on C D F G A; the other
/// spellings (Cb, Fb, E#, B#) are refused as malformed, and pitches outside
/// MIDI 0..=127 as out of range. `acc` is 1 for a sharp, -1 for a flat and
/// 0 for none.
pub proof fn lemma_spelled_pitch(letter: char, acc: int, o: int)
    requires
        letter == 'C' || letter == 'D' || letter == 'E' || letter == 'F' || letter == 'G'
            || letter == 'A' || letter == 'B' || letter == 'c' || letter == 'd' || letter == 'e'
            || letter == 'f' || letter == 'g' || letter == 'a' || letter == 'b',
        -1 <= acc <= 1,
        -128 <= o <= 127,
    ensures
        ({
            let spelled = if acc == 1 {
                seq![letter, '#']
            } else if acc == -1 {
                seq![letter, 'b']
            } else {
                seq![letter]
            };
            let base = if letter == 'C' || letter == 'c' {
                0int
            } else if letter == 'D' || letter == 'd' {
                2int
            } else if letter == 'E' || letter == 'e' {
                4int
            } else if letter == 'F' || letter == 'f' {
                5int
            } else if letter == 'G' || letter == 'g' {
                7int
            } else if letter == 'A' || letter == 'a' {
                9int
            } else {
                11int
            };
            let refused = (acc == 1 && (base == 4 || base == 11)) || (acc == -1 && (base == 0
                || base == 5));
            let v = (o + 1) * 12 + base + acc;
            let read = parse_pitch(spelled + int_text(o));
            &&& refused ==> read == PitchText::Malformed
            &&& !refused && 0 <= v <= 127 ==> read == PitchText::Value(v)
            &&& !refused && !(0 <= v <= 127) ==> read is OutOfRange
        }),
{
    let spelled = if acc == 1 {
        seq![letter, '#']
    } else if acc == -1 {
        seq![letter, 'b']
    } else {
        seq![letter]
    };
    let ot = int_text(o);
    let t = spelled + ot;
    if o < 0 {
        lemma_nat_text((-o) as nat);
    } else {
        lemma_nat_text(o as nat);
        assert(ot == nat_text(o as nat));
        assert(is_digit(nat_text(o as nat)[0]));
    }
    assert(ot.len() >= 1);
    assert(ot[0] == '-' || ('0' <= ot[0] && ot[0] <= '9'));
    assert(ot.last() == nat_text((if o < 0 { -o } else { o }) as nat).last());
    lemma_trim_plain(t);
    let k = note_part_len(t);
    assert(k == spelled.len());
    assert(t.take(k) =~= spelled);
    assert(t.subrange(k, t.len() as int) =~= ot);
    lemma_parse_int_text(o, true, -128, 127);
}

} // verus!
