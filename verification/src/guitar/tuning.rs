use vstd::prelude::*;
use crate::pitch::Pitch;

verus! {

/// MIDI numbers of a sequence of pitches.
pub open spec fn midis(s: Seq<Pitch>) -> Seq<int> {
    s.map_values(|p: Pitch| p@)
}

/// The pitch with a MIDI number known to be valid.
pub fn pitch_of(midi: u8) -> (r: Pitch)
    requires
        midi <= 127,
    ensures
        r@ == midi,
{
    match Pitch::from_midi(midi) {
        Ok(p) => p,
        Err(_) => {
            proof {
                assert(false);
            }
            Pitch::from_midi(0).unwrap()
        },
    }
}

/// Tuning of a stringed instrument: open-string pitches from the lowest
/// (thickest) string to the highest.
#[derive(Debug, Clone, PartialEq)]
pub struct Tuning {
    pub name: String,
    pub strings: Vec<Pitch>,
}

impl Tuning {
    /// Standard guitar tuning E2 A2 D3 G3 B3 E4.
    pub fn standard_6_string() -> (r: Tuning)
        ensures
            r.name@ == "Standard"@,
            midis(r.strings@) == seq![40int, 45, 50, 55, 59, 64],
    {
        let r = Tuning {
            name: String::from_str("Standard"),
            strings: vec![pitch_of(40), pitch_of(45), pitch_of(50), pitch_of(55), pitch_of(59), pitch_of(64)],
        };
        assert(midis(r.strings@) =~= seq![40int, 45, 50, 55, 59, 64]);
        r
    }

    /// Drop D guitar tuning D2 A2 D3 G3 B3 E4.
    pub fn drop_d() -> (r: Tuning)
        ensures
            r.name@ == "Drop D"@,
            midis(r.strings@) == seq![38int, 45, 50, 55, 59, 64],
    {
        let r = Tuning {
            name: String::from_str("Drop D"),
            strings: vec![pitch_of(38), pitch_of(45), pitch_of(50), pitch_of(55), pitch_of(59), pitch_of(64)],
        };
        assert(midis(r.strings@) =~= seq![38int, 45, 50, 55, 59, 64]);
        r
    }

    /// Standard 4-string bass tuning E1 A1 D2 G2.
    pub fn bass_standard() -> (r: Tuning)
        ensures
            r.name@ == "Bass Standard"@,
            midis(r.strings@) == seq![28int, 33, 38, 43],
    {
        let r = Tuning {
            name: String::from_str("Bass Standard"),
            strings: vec![pitch_of(28), pitch_of(33), pitch_of(38), pitch_of(43)],
        };
        assert(midis(r.strings@) =~= seq![28int, 33, 38, 43]);
        r
    }

    pub fn string_count(&self) -> (r: usize)
        ensures
            r == self.strings@.len(),
    {
        self.strings.len()
    }
}

impl Default for Tuning {
    /// Standard guitar tuning.
    fn default() -> (r: Tuning)
        ensures
            r.name@ == "Standard"@,
            midis(r.strings@) == seq![40int, 45, 50, 55, 59, 64],
    {
        Tuning::standard_6_string()
    }
}

} // verus!
