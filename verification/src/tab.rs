//! ASCII tablature rendering.
use vstd::prelude::*;
use crate::guitar::fretboard::{FretPosition, Fretboard};
use crate::guitar::optimizer::{candidates, viterbi, CostWeights, FingeringOptimizer};
use crate::guitar::tuning::midis;
use crate::pitch::Pitch;
use crate::song::{Beat, Measure, Note, Track};
use crate::text::{nat_text, push_nat};

verus! {

/// Label of tab line `s`: line 0 is the high e string, line 5 the low E.
pub open spec fn string_label(s: int) -> Seq<char> {
    if s == 0 {
        "e "@
    } else if s == 1 {
        "B "@
    } else if s == 2 {
        "G "@
    } else if s == 3 {
        "D "@
    } else if s == 4 {
        "A "@
    } else {
        "E "@
    }
}

/// The pitches of a beat's notes, in order.
pub open spec fn beat_pitches(b: Beat) -> Seq<Pitch> {
    b.notes@.map_values(|n: Note| n.pitch)
}

/// What a fingering shows on tab line `s`: the fret of the last position on
/// string `s + 1`, or a dash when no position uses that string.
pub open spec fn fret_cell(q: Seq<FretPosition>, s: int) -> Seq<char>
    decreases q.len(),
{
    if q.len() == 0 {
        "-"@
    } else if q.last().string == s + 1 {
        nat_text(q.last().fret as nat)
    } else {
        fret_cell(q.drop_last(), s)
    }
}

/// The fingering the optimizer gives a beat, or `None` when one of its
/// pitches cannot be played.
pub open spec fn beat_fingering(opt: FingeringOptimizer, b: Beat) -> Option<Seq<FretPosition>> {
    let c = candidates(opt.fretboard, beat_pitches(b));
    if exists|t: int| 0 <= t < c.len() && #[trigger] c[t].len() == 0 {
        None
    } else {
        Some(viterbi(opt.weights, c))
    }
}

/// A beat's column on tab line `s`; an unplayable beat leaves no column.
pub open spec fn beat_cell(opt: FingeringOptimizer, b: Beat, s: int) -> Seq<char> {
    match beat_fingering(opt, b) {
        Some(q) => fret_cell(q, s) + "-"@,
        None => Seq::empty(),
    }
}

pub open spec fn beats_line(opt: FingeringOptimizer, bs: Seq<Beat>, s: int) -> Seq<char>
    decreases bs.len(),
{
    if bs.len() == 0 {
        Seq::empty()
    } else {
        beats_line(opt, bs.drop_last(), s) + beat_cell(opt, bs.last(), s)
    }
}

/// The columns of each measure on line `s`, each measure closed by a bar.
pub open spec fn measures_line(opt: FingeringOptimizer, ms: Seq<Measure>, s: int) -> Seq<char>
    decreases ms.len(),
{
    if ms.len() == 0 {
        Seq::empty()
    } else {
        measures_line(opt, ms.drop_last(), s) + beats_line(opt, ms.last().beats@, s) + "|"@
    }
}

pub open spec fn tab_line(opt: FingeringOptimizer, t: Track, s: int) -> Seq<char> {
    string_label(s) + "|-"@ + measures_line(opt, t.measures@, s)
}

/// The six lines of a track's tablature, high e first, joined by newlines.
pub open spec fn tab_text(opt: FingeringOptimizer, t: Track) -> Seq<char> {
    tab_line(opt, t, 0) + "\n"@ + tab_line(opt, t, 1) + "\n"@ + tab_line(opt, t, 2) + "\n"@
        + tab_line(opt, t, 3) + "\n"@ + tab_line(opt, t, 4) + "\n"@ + tab_line(opt, t, 5)
}

/// A renderer of a track as text tablature.
pub trait TabWriter {
    fn render(&self, track: &Track) -> String;
}

impl TabWriter for AsciiTabWriter {
    /// The six-line tablature of the track (see `tab_text`).
    fn render(&self, track: &Track) -> (r: String)
        ensures
            r@ == tab_text(self.optimizer, *track),
    {
        AsciiTabWriter::render(self, track)
    }
}

/// Renders tracks as six-line guitar tablature.
pub struct AsciiTabWriter {
    pub fretboard: Fretboard,
    pub optimizer: FingeringOptimizer,
}

impl Default for AsciiTabWriter {
    /// Standard tuning, 24 frets, default optimizer weights.
    fn default() -> (r: AsciiTabWriter)
        ensures
            midis(r.fretboard.tuning.strings@) == seq![40int, 45, 50, 55, 59, 64],
            r.fretboard.fret_count == 24,
            midis(r.optimizer.fretboard.tuning.strings@) == seq![40int, 45, 50, 55, 59, 64],
            r.optimizer.fretboard.fret_count == 24,
            r.optimizer.weights == (CostWeights {
                fret_distance_weight: 10,
                string_change_weight: 5,
                hand_position_shift_weight: 15,
                open_string_bonus: -2i32,
            }),
    {
        let fretboard = Fretboard::default();
        let optimizer = FingeringOptimizer::new(Fretboard::default());
        AsciiTabWriter { fretboard, optimizer }
    }
}

/// The text a fingering shows on tab line `s`.
fn fret_cell_text(q: &Vec<FretPosition>, s: u8) -> (r: String)
    requires
        s < 6,
    ensures
        r@ == fret_cell(q@, s as int),
{
    let mut cell = String::new();
    cell.append("-");
    proof {
        reveal_strlit("-");
        assert(q@.take(0) =~= Seq::<FretPosition>::empty());
    }
    let mut i: usize = 0;
    while i < q.len()
        invariant
            i <= q@.len(),
            s < 6,
            cell@ == fret_cell(q@.take(i as int), s as int),
        decreases q@.len() - i,
    {
        assert(q@.take(i + 1).drop_last() =~= q@.take(i as int));
        if q[i].string == s + 1 {
            let mut t = String::new();
            push_nat(&mut t, q[i].fret as u64);
            cell = t;
        }
        i = i + 1;
    }
    assert(q@.take(q@.len() as int) =~= q@);
    cell
}

/// The pitches of a beat's notes.
fn pitches_of(b: &Beat) -> (r: Vec<Pitch>)
    ensures
        r@ == beat_pitches(*b),
{
    let mut r: Vec<Pitch> = Vec::new();
    let mut i: usize = 0;
    while i < b.notes.len()
        invariant
            i <= b.notes@.len(),
            r@ == b.notes@.take(i as int).map_values(|n: Note| n.pitch),
        decreases b.notes@.len() - i,
    {
        r.push(b.notes[i].pitch);
        assert(b.notes@.take(i + 1).map_values(|n: Note| n.pitch) =~= b.notes@.take(
            i as int,
        ).map_values(|n: Note| n.pitch).push(b.notes@[i as int].pitch));
        i = i + 1;
    }
    assert(b.notes@.take(b.notes@.len() as int) =~= b.notes@);
    r
}

/// The partial lines after the first `k` measures and the first `nb` beats
/// of the next one.
pub open spec fn lines_so_far(
    opt: FingeringOptimizer,
    ms: Seq<Measure>,
    k: int,
    bs: Seq<Beat>,
    nb: int,
    s: int,
) -> Seq<char> {
    string_label(s) + "|-"@ + measures_line(opt, ms.take(k), s) + beats_line(opt, bs.take(nb), s)
}

impl AsciiTabWriter {
    /// The tablature of a track: per beat, the frets of the optimized
    /// fingering of its notes (a dash on unused strings); beats that cannot
    /// be played are left out; a bar closes each measure.
    pub fn render(&self, track: &Track) -> (r: String)
        ensures
            r@ == tab_text(self.optimizer, *track),
    {
        let ghost opt = self.optimizer;
        let mut lines: Vec<String> = Vec::new();
        lines.push(String::from_str("e |-"));
        lines.push(String::from_str("B |-"));
        lines.push(String::from_str("G |-"));
        lines.push(String::from_str("D |-"));
        lines.push(String::from_str("A |-"));
        lines.push(String::from_str("E |-"));
        proof {
            reveal_strlit("e |-");
            reveal_strlit("B |-");
            reveal_strlit("G |-");
            reveal_strlit("D |-");
            reveal_strlit("A |-");
            reveal_strlit("E |-");
            reveal_strlit("e ");
            reveal_strlit("B ");
            reveal_strlit("G ");
            reveal_strlit("D ");
            reveal_strlit("A ");
            reveal_strlit("E ");
            reveal_strlit("|-");
            assert forall|s: int| 0 <= s < 6 implies #[trigger] lines@[s]@ == lines_so_far(
                opt,
                track.measures@,
                0,
                Seq::<Beat>::empty(),
                0,
                s,
            ) by {
                assert(track.measures@.take(0) =~= Seq::<Measure>::empty());
                assert(Seq::<Beat>::empty().take(0) =~= Seq::<Beat>::empty());
            }
        }
        let mut k: usize = 0;
        while k < track.measures.len()
            invariant
                opt == self.optimizer,
                k <= track.measures@.len(),
                lines@.len() == 6,
                forall|s: int|
                    0 <= s < 6 ==> #[trigger] lines@[s]@ == lines_so_far(
                        opt,
                        track.measures@,
                        k as int,
                        Seq::<Beat>::empty(),
                        0,
                        s,
                    ),
            decreases track.measures@.len() - k,
        {
            let measure = &track.measures[k];
            let ghost bs = measure.beats@;
            proof {
                assert forall|s: int| 0 <= s < 6 implies #[trigger] lines@[s]@ == lines_so_far(
                    opt,
                    track.measures@,
                    k as int,
                    bs,
                    0,
                    s,
                ) by {
                    assert(bs.take(0) =~= Seq::<Beat>::empty());
                    assert(Seq::<Beat>::empty().take(0) =~= Seq::<Beat>::empty());
                }
            }
            let mut b: usize = 0;
            while b < measure.beats.len()
                invariant
                    opt == self.optimizer,
                    k < track.measures@.len(),
                    measure == track.measures@[k as int],
                    bs == measure.beats@,
                    b <= bs.len(),
                    lines@.len() == 6,
                    forall|s: int|
                        0 <= s < 6 ==> #[trigger] lines@[s]@ == lines_so_far(
                            opt,
                            track.measures@,
                            k as int,
                            bs,
                            b as int,
                            s,
                        ),
                decreases bs.len() - b,
            {
                let beat = &measure.beats[b];
                self.push_beat(&mut lines, beat, Ghost(track.measures@), Ghost(k as int), Ghost(bs), Ghost(b as int));
                b = b + 1;
            }
            let mut s: usize = 0;
            while s < 6
                invariant
                    opt == self.optimizer,
                    k < track.measures@.len(),
                    bs == track.measures@[k as int].beats@,
                    s <= 6,
                    lines@.len() == 6,
                    forall|j: int|
                        0 <= j < s ==> #[trigger] lines@[j]@ == lines_so_far(
                            opt,
                            track.measures@,
                            k + 1,
                            Seq::<Beat>::empty(),
                            0,
                            j,
                        ),
                    forall|j: int|
                        s <= j < 6 ==> #[trigger] lines@[j]@ == lines_so_far(
                            opt,
                            track.measures@,
                            k as int,
                            bs,
                            bs.len() as int,
                            j,
                        ),
                decreases 6 - s,
            {
                lines[s].append("|");
                proof {
                    reveal_strlit("|");
                    let j = s as int;
                    assert(track.measures@.take(k + 1).drop_last() =~= track.measures@.take(
                        k as int,
                    ));
                    assert(bs.take(bs.len() as int) =~= bs);
                    assert(Seq::<Beat>::empty().take(0) =~= Seq::<Beat>::empty());
                    assert(lines@[j]@ =~= lines_so_far(
                        opt,
                        track.measures@,
                        k + 1,
                        Seq::<Beat>::empty(),
                        0,
                        j,
                    ));
                }
                s = s + 1;
            }
            k = k + 1;
        }
        proof {
            assert(track.measures@.take(track.measures@.len() as int) =~= track.measures@);
            assert(Seq::<Beat>::empty().take(0) =~= Seq::<Beat>::empty());
            assert forall|s: int| 0 <= s < 6 implies #[trigger] lines@[s]@ == tab_line(
                opt,
                *track,
                s,
            ) by {
                assert(lines@[s]@ == lines_so_far(
                    opt,
                    track.measures@,
                    track.measures@.len() as int,
                    Seq::<Beat>::empty(),
                    0,
                    s,
                ));
                assert(lines@[s]@ =~= tab_line(opt, *track, s));
            }
        }
        let mut out = lines[0].clone();
        let mut s: usize = 1;
        while s < 6
            invariant
                1 <= s <= 6,
                lines@.len() == 6,
                forall|j: int| 0 <= j < 6 ==> #[trigger] lines@[j]@ == tab_line(opt, *track, j),
                out@ == joined(opt, *track, s as int),
            decreases 6 - s,
        {
            out.append("\n");
            out.append(lines[s].as_str());
            proof {
                reveal_strlit("\n");
            }
            s = s + 1;
        }
        proof {
            reveal_with_fuel(joined, 6);
        }
        assert(out@ =~= tab_text(opt, *track));
        out
    }

    /// Appends one beat's column to each line.
    fn push_beat(
        &self,
        lines: &mut Vec<String>,
        beat: &Beat,
        Ghost(ms): Ghost<Seq<Measure>>,
        Ghost(k): Ghost<int>,
        Ghost(bs): Ghost<Seq<Beat>>,
        Ghost(b): Ghost<int>,
    )
        requires
            0 <= b < bs.len(),
            *beat == bs[b],
            old(lines)@.len() == 6,
            forall|s: int|
                0 <= s < 6 ==> #[trigger] old(lines)@[s]@ == lines_so_far(
                    self.optimizer,
                    ms,
                    k,
                    bs,
                    b,
                    s,
                ),
        ensures
            final(lines)@.len() == 6,
            forall|s: int|
                0 <= s < 6 ==> #[trigger] final(lines)@[s]@ == lines_so_far(
                    self.optimizer,
                    ms,
                    k,
                    bs,
                    b + 1,
                    s,
                ),
    {
        let ghost opt = self.optimizer;
        assert(bs.take(b + 1).drop_last() =~= bs.take(b));
        let pitches = pitches_of(beat);
        match self.optimizer.optimize_melody(pitches.as_slice()) {
            Ok(q) => {
                proof {
                    let c = candidates(opt.fretboard, beat_pitches(*beat));
                    assert(beat_fingering(opt, *beat) == Some(q@));
                }
                let mut s: u8 = 0;
                while s < 6
                    invariant
                        opt == self.optimizer,
                        s <= 6,
                        0 <= b < bs.len(),
                        *beat == bs[b],
                        beat_fingering(opt, *beat) == Some(q@),
                        lines@.len() == 6,
                        forall|j: int|
                            0 <= j < s ==> #[trigger] lines@[j]@ == lines_so_far(
                                opt,
                                ms,
                                k,
                                bs,
                                b + 1,
                                j,
                            ),
                        forall|j: int|
                            s <= j < 6 ==> #[trigger] lines@[j]@ == lines_so_far(
                                opt,
                                ms,
                                k,
                                bs,
                                b,
                                j,
                            ),
                    decreases 6 - s,
                {
                    let cell = fret_cell_text(&q, s);
                    lines[s as usize].append(cell.as_str());
                    lines[s as usize].append("-");
                    proof {
                        reveal_strlit("-");
                        let j = s as int;
                        assert(bs.take(b + 1).drop_last() =~= bs.take(b));
                        assert(bs.take(b + 1).last() == bs[b]);
                        assert(beat_cell(opt, *beat, j) == fret_cell(q@, j) + "-"@);
                        assert(lines@[j]@ =~= lines_so_far(opt, ms, k, bs, b + 1, j));
                    }
                    s = s + 1;
                }
            },
            Err(_) => {
                proof {
                    assert(beat_fingering(opt, *beat) is None);
                    assert forall|j: int| 0 <= j < 6 implies #[trigger] lines@[j]@
                        == lines_so_far(opt, ms, k, bs, b + 1, j) by {
                        assert(beat_cell(opt, *beat, j) =~= Seq::<char>::empty());
                        assert(lines_so_far(opt, ms, k, bs, b + 1, j) =~= lines_so_far(
                            opt,
                            ms,
                            k,
                            bs,
                            b,
                            j,
                        ));
                    }
                }
            },
        }
    }
}

/// The first `s` lines of a track's tablature joined by newlines.
pub open spec fn joined(opt: FingeringOptimizer, t: Track, s: int) -> Seq<char>
    decreases s,
{
    if s <= 1 {
        tab_line(opt, t, 0)
    } else {
        joined(opt, t, s - 1) + "\n"@ + tab_line(opt, t, s - 1)
    }
}

} // verus!
