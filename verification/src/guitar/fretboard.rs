use vstd::prelude::*;
use crate::guitar::tuning::{midis, Tuning};
use crate::pitch::Pitch;

verus! {

/// A place on the fretboard: string 1 is the highest-pitched string, fret 0
/// is the open string.
#[derive(Debug, Clone, Copy, PartialEq, Eq, PartialOrd, Ord, Hash, Structural)]
pub struct FretPosition {
    pub string: u8,
    pub fret: u8,
}

/// The places where MIDI note `target` sounds on the first `k` strings of a
/// tuning (`strings` lists open-string MIDI numbers from lowest to highest),
/// up to fret `fret_count`; strings are numbered from the highest down.
pub open spec fn playable_positions(strings: Seq<int>, target: int, fret_count: int, k: int) -> Seq<
    FretPosition,
>
    decreases k,
{
    if k <= 0 {
        Seq::<FretPosition>::empty()
    } else {
        let prev = playable_positions(strings, target, fret_count, k - 1);
        let open = strings[k - 1];
        if target >= open && target - open <= fret_count {
            prev.push(
                FretPosition { string: (strings.len() - (k - 1)) as u8, fret: (target - open) as u8 },
            )
        } else {
            prev
        }
    }
}

/// All places where `target` sounds, lowest string first.
pub open spec fn positions_for(strings: Seq<int>, target: int, fret_count: int) -> Seq<FretPosition> {
    playable_positions(strings, target, fret_count, strings.len() as int)
}

/// The instrument's fretboard: a tuning and a number of frets.
#[derive(Debug, Clone, PartialEq)]
pub struct Fretboard {
    pub tuning: Tuning,
    pub fret_count: u8,
}

impl Fretboard {
    pub fn new(tuning: Tuning, fret_count: u8) -> (r: Fretboard)
        ensures
            r.tuning == tuning,
            r.fret_count == fret_count,
    {
        Fretboard { tuning, fret_count }
    }

    /// Every place where `pitch` can be played, from the lowest string up.
    pub fn find_positions(&self, pitch: &Pitch) -> (r: Vec<FretPosition>)
        ensures
            r@ == positions_for(midis(self.tuning.strings@), pitch@, self.fret_count as int),
    {
        let mut positions: Vec<FretPosition> = Vec::new();
        let target = pitch.midi();
        let total = self.tuning.strings.len();
        let ghost strings = midis(self.tuning.strings@);
        let mut idx: usize = 0;
        while idx < total
            invariant
                total == self.tuning.strings@.len(),
                strings == midis(self.tuning.strings@),
                target == pitch@,
                idx <= total,
                positions@ == playable_positions(strings, target as int, self.fret_count as int, idx as int),
            decreases total - idx,
        {
            let open = self.tuning.strings[idx].midi();
            assert(strings[idx as int] == open);
            if target >= open {
                let fret = target - open;
                if fret <= self.fret_count {
                    positions.push(FretPosition { string: (total - idx) as u8, fret });
                }
            }
            idx = idx + 1;
        }
        positions
    }
}

impl Default for Fretboard {
    /// Standard tuning with 24 frets.
    fn default() -> (r: Fretboard)
        ensures
            r.tuning.name@ == "Standard"@,
            midis(r.tuning.strings@) == seq![40int, 45, 50, 55, 59, 64],
            r.fret_count == 24,
    {
        Fretboard::new(Tuning::standard_6_string(), 24)
    }
}

/// Every place `playable_positions` lists sounds the target: on a tuning of
/// at most 255 strings, string `s` is `strings[len - s]`, and its open pitch
/// plus the fret gives the target, within the fret count.
pub proof fn lemma_positions_sound(strings: Seq<int>, target: int, fret_count: int, k: int)
    requires
        0 <= k <= strings.len() <= 255,
        0 <= target <= 127,
        0 <= fret_count <= 255,
        forall|i: int| 0 <= i < strings.len() ==> 0 <= #[trigger] strings[i] <= 127,
    ensures
        forall|j: int|
            0 <= j < playable_positions(strings, target, fret_count, k).len() ==> {
                let p = #[trigger] playable_positions(strings, target, fret_count, k)[j];
                &&& strings.len() - k < p.string <= strings.len()
                &&& p.fret <= fret_count
                &&& strings[strings.len() - p.string] + p.fret == target
            },
    decreases k,
{
    if k > 0 {
        lemma_positions_sound(strings, target, fret_count, k - 1);
        let prev = playable_positions(strings, target, fret_count, k - 1);
        let cur = playable_positions(strings, target, fret_count, k);
        let open = strings[k - 1];
        assert forall|j: int| 0 <= j < cur.len() implies {
            let p = #[trigger] cur[j];
            &&& strings.len() - k < p.string <= strings.len()
            &&& p.fret <= fret_count
            &&& strings[strings.len() - p.string] + p.fret == target
        } by {
            if j < prev.len() {
                assert(cur[j] == prev[j]);
            } else {
                let s = strings.len() - (k - 1);
                assert(0 < s <= 255);
                assert((s as u8) as int == s);
                assert(((target - open) as u8) as int == target - open);
            }
        }
    }
}

/// `playable_positions` lists the place on every string where the target is
/// within reach of the frets.
pub proof fn lemma_positions_complete(strings: Seq<int>, target: int, fret_count: int, k: int, i: int)
    requires
        0 <= i < k <= strings.len() <= 255,
        0 <= target <= 127,
        0 <= fret_count <= 255,
        forall|i: int| 0 <= i < strings.len() ==> 0 <= #[trigger] strings[i] <= 127,
        strings[i] <= target,
        target - strings[i] <= fret_count,
    ensures
        playable_positions(strings, target, fret_count, k).contains(
            FretPosition { string: (strings.len() - i) as u8, fret: (target - strings[i]) as u8 },
        ),
    decreases k,
{
    let prev = playable_positions(strings, target, fret_count, k - 1);
    let cur = playable_positions(strings, target, fret_count, k);
    if i == k - 1 {
        assert(cur[cur.len() - 1] == FretPosition {
            string: (strings.len() - i) as u8,
            fret: (target - strings[i]) as u8,
        });
    } else {
        lemma_positions_complete(strings, target, fret_count, k - 1, i);
        let j = choose|j: int| 0 <= j < prev.len() && prev[j] == FretPosition {
            string: (strings.len() - i) as u8,
            fret: (target - strings[i]) as u8,
        };
        assert(cur[j] == prev[j]);
    }
}

} // verus!
