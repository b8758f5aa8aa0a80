use vstd::prelude::*;

verus! {

/// A chord shape: frets for the strings from low E to high e, `None` for a
/// muted string.
#[derive(Debug, Clone, PartialEq, Eq)]
pub struct ChordShape {
    pub name: String,
    pub frets: Vec<Option<u8>>,
}

impl ChordShape {
    pub fn new(name: &str, frets: Vec<Option<u8>>) -> (r: ChordShape)
        ensures
            r.name@ == name@,
            r.frets@ == frets@,
    {
        ChordShape { name: String::from_str(name), frets }
    }

    /// Open chords in standard tuning: C D E G A Em Am Dm.
    pub fn standard_open_chords() -> (r: Vec<ChordShape>)
        ensures
            r@.len() == 8,
            r@[0].name@ == "C"@ && r@[0].frets@ == seq![None, Some(3u8), Some(2u8), Some(0u8), Some(1u8), Some(0u8)],
            r@[1].name@ == "D"@ && r@[1].frets@ == seq![None, None, Some(0u8), Some(2u8), Some(3u8), Some(2u8)],
            r@[2].name@ == "E"@ && r@[2].frets@ == seq![Some(0u8), Some(2u8), Some(2u8), Some(1u8), Some(0u8), Some(0u8)],
            r@[3].name@ == "G"@ && r@[3].frets@ == seq![Some(3u8), Some(2u8), Some(0u8), Some(0u8), Some(0u8), Some(3u8)],
            r@[4].name@ == "A"@ && r@[4].frets@ == seq![None, Some(0u8), Some(2u8), Some(2u8), Some(2u8), Some(0u8)],
            r@[5].name@ == "Em"@ && r@[5].frets@ == seq![Some(0u8), Some(2u8), Some(2u8), Some(0u8), Some(0u8), Some(0u8)],
            r@[6].name@ == "Am"@ && r@[6].frets@ == seq![None, Some(0u8), Some(2u8), Some(2u8), Some(1u8), Some(0u8)],
            r@[7].name@ == "Dm"@ && r@[7].frets@ == seq![None, None, Some(0u8), Some(2u8), Some(3u8), Some(1u8)],
    {
        let r = vec![
            ChordShape::new("C", vec![None, Some(3), Some(2), Some(0), Some(1), Some(0)]),
            ChordShape::new("D", vec![None, None, Some(0), Some(2), Some(3), Some(2)]),
            ChordShape::new("E", vec![Some(0), Some(2), Some(2), Some(1), Some(0), Some(0)]),
            ChordShape::new("G", vec![Some(3), Some(2), Some(0), Some(0), Some(0), Some(3)]),
            ChordShape::new("A", vec![None, Some(0), Some(2), Some(2), Some(2), Some(0)]),
            ChordShape::new("Em", vec![Some(0), Some(2), Some(2), Some(0), Some(0), Some(0)]),
            ChordShape::new("Am", vec![None, Some(0), Some(2), Some(2), Some(1), Some(0)]),
            ChordShape::new("Dm", vec![None, None, Some(0), Some(2), Some(3), Some(1)]),
        ];
        assert(r@[0].frets@ =~= seq![None, Some(3u8), Some(2u8), Some(0u8), Some(1u8), Some(0u8)]);
        assert(r@[1].frets@ =~= seq![None, None, Some(0u8), Some(2u8), Some(3u8), Some(2u8)]);
        assert(r@[2].frets@ =~= seq![Some(0u8), Some(2u8), Some(2u8), Some(1u8), Some(0u8), Some(0u8)]);
        assert(r@[3].frets@ =~= seq![Some(3u8), Some(2u8), Some(0u8), Some(0u8), Some(0u8), Some(3u8)]);
        assert(r@[4].frets@ =~= seq![None, Some(0u8), Some(2u8), Some(2u8), Some(2u8), Some(0u8)]);
        assert(r@[5].frets@ =~= seq![Some(0u8), Some(2u8), Some(2u8), Some(0u8), Some(0u8), Some(0u8)]);
        assert(r@[6].frets@ =~= seq![None, Some(0u8), Some(2u8), Some(2u8), Some(1u8), Some(0u8)]);
        assert(r@[7].frets@ =~= seq![None, None, Some(0u8), Some(2u8), Some(3u8), Some(1u8)]);
        r
    }
}

} // verus!
