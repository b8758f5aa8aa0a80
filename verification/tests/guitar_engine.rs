use tabforge::error::GuitarError;
use tabforge::guitar::chords::ChordShape;
use tabforge::guitar::fretboard::{FretPosition, Fretboard};
use tabforge::guitar::optimizer::{CostWeights, FingeringOptimizer};
use tabforge::guitar::tuning::Tuning;
use tabforge::pitch::Pitch;

#[test]
fn test_viterbi_fingering_optimization() {
    let fretboard = Fretboard::default();
    let optimizer = FingeringOptimizer::new(fretboard);

    let notes = vec![
        Pitch::from_str("C4").unwrap(),
        Pitch::from_str("D4").unwrap(),
        Pitch::from_str("E4").unwrap(),
        Pitch::from_str("F4").unwrap(),
        Pitch::from_str("G4").unwrap(),
    ];

    let result = optimizer.optimize_melody(&notes);
    assert!(result.is_ok());
    let fingering = result.unwrap();
    assert_eq!(fingering.len(), 5);
}

fn pos(string: u8, fret: u8) -> FretPosition {
    FretPosition { string, fret }
}

#[test]
fn positions_of_a_pitch_lowest_string_first() {
    let fb = Fretboard::default();
    let e4 = Pitch::from_str("E4").unwrap();
    assert_eq!(
        fb.find_positions(&e4),
        vec![pos(6, 24), pos(5, 19), pos(4, 14), pos(3, 9), pos(2, 5), pos(1, 0)]
    );
    let e2 = Pitch::from_str("E2").unwrap();
    assert_eq!(fb.find_positions(&e2), vec![pos(6, 0)]);
    let low = Pitch::from_str("D2").unwrap();
    assert!(fb.find_positions(&low).is_empty());
    let short = Fretboard::new(Tuning::drop_d(), 12);
    assert_eq!(short.find_positions(&low), vec![pos(6, 0)]);
    assert!(short.find_positions(&e4).iter().all(|p| p.fret <= 12));
}

#[test]
fn every_found_position_sounds_the_pitch() {
    let fb = Fretboard::default();
    let opens = [40u8, 45, 50, 55, 59, 64];
    for m in 0u8..=127 {
        let p = Pitch::from_midi(m).unwrap();
        let found = fb.find_positions(&p);
        for fp in &found {
            let open = opens[6 - fp.string as usize];
            assert_eq!(open + fp.fret, m);
        }
        let expected = opens.iter().filter(|&&o| m >= o && m - o <= 24).count();
        assert_eq!(found.len(), expected);
    }
}

fn cost(w: &CostWeights, q: &[FretPosition]) -> i64 {
    let mut c = q[0].fret as i64;
    for k in 1..q.len() {
        let (a, b) = (q[k - 1], q[k]);
        c += (a.fret as i64 - b.fret as i64).abs() * w.fret_distance_weight as i64
            + (a.string as i64 - b.string as i64).abs() * w.string_change_weight as i64;
        if b.fret == 0 {
            c += w.open_string_bonus as i64;
        }
    }
    c
}

#[test]
fn optimized_melody_is_never_beaten() {
    let fb = Fretboard::default();
    let opt = FingeringOptimizer::new(Fretboard::default());
    let melody: Vec<Pitch> = ["G3", "B3", "E4", "A4"].iter().map(|s| Pitch::from_str(s).unwrap()).collect();
    let best = opt.optimize_melody(&melody).unwrap();
    for (fp, p) in best.iter().zip(&melody) {
        assert!(fb.find_positions(p).contains(fp));
    }
    let cands: Vec<Vec<FretPosition>> = melody.iter().map(|p| fb.find_positions(p)).collect();
    let best_cost = cost(&opt.weights, &best);
    let mut stack = vec![Vec::new()];
    while let Some(prefix) = stack.pop() {
        if prefix.len() == cands.len() {
            assert!(best_cost <= cost(&opt.weights, &prefix));
            continue;
        }
        for c in &cands[prefix.len()] {
            let mut next = prefix.clone();
            next.push(*c);
            stack.push(next);
        }
    }
}

#[test]
fn transition_cost_in_tenths() {
    let opt = FingeringOptimizer::new(Fretboard::default());
    assert_eq!(opt.transition_cost(&pos(6, 3), &pos(5, 5)), 2 * 10 + 5);
    assert_eq!(opt.transition_cost(&pos(2, 1), &pos(1, 0)), 10 + 5 - 2);
    let custom = CostWeights {
        fret_distance_weight: 1,
        string_change_weight: 100,
        hand_position_shift_weight: 0,
        open_string_bonus: 0,
    };
    let opt2 = FingeringOptimizer::new(Fretboard::default()).with_weights(custom);
    assert_eq!(opt2.transition_cost(&pos(6, 3), &pos(5, 5)), 102);
    assert_eq!(opt2.weights, custom);
}

#[test]
fn unplayable_pitch_is_named() {
    let opt = FingeringOptimizer::new(Fretboard::default());
    let melody = vec![Pitch::from_str("E2").unwrap(), Pitch::from_str("C0").unwrap(), Pitch::from_str("C9").unwrap()];
    match opt.optimize_melody(&melody) {
        Err(GuitarError::OutOfRange(m)) => assert_eq!(m, "C0"),
        other => panic!("unexpected {:?}", other),
    }
    assert_eq!(opt.optimize_melody(&[]).unwrap(), Vec::<FretPosition>::new());
}

#[test]
fn tunings_and_chords() {
    assert_eq!(Tuning::standard_6_string().string_count(), 6);
    assert_eq!(Tuning::bass_standard().string_count(), 4);
    assert_eq!(Tuning::drop_d().strings[0].midi(), 38);
    assert_eq!(Tuning::default().name, "Standard");
    let chords = ChordShape::standard_open_chords();
    assert_eq!(chords.len(), 8);
    assert_eq!(chords[3].name, "G");
    assert_eq!(chords[3].frets, vec![Some(3), Some(2), Some(0), Some(0), Some(0), Some(3)]);
    let c = ChordShape::new("X", vec![None]);
    assert_eq!(c.frets, vec![None]);
}
