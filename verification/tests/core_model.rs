use tabforge::duration::Duration;
use tabforge::error::CoreError;
use tabforge::pitch::{NoteName, Pitch};
use tabforge::runs::pitch_runs;
use tabforge::transcription::{legato_articulation, OutputFormat};
use tabforge::song::{Articulation, Beat, Instrument, Measure, Note, Song, Track};
use tabforge::tempo::{Tempo, TimeSignature};

#[test]
fn test_pitch_midi_conversion() {
    let a4 = Pitch::from_str("A4").unwrap();
    assert_eq!(a4.midi(), 69);
    assert_eq!(a4.to_string(), "A4");

    let c4 = Pitch::from_str("C4").unwrap();
    assert_eq!(c4.midi(), 60);

    let e2 = Pitch::from_str("E2").unwrap();
    assert_eq!(e2.midi(), 40);
}

#[test]
fn test_time_signature_parsing_and_capacity() {
    let ts_6_8 = TimeSignature::from_str("6/8").unwrap();
    assert_eq!(ts_6_8, TimeSignature::six_eight());
    assert!(ts_6_8.is_compound());
    assert_eq!(ts_6_8.measure_duration(), Duration::new(6, 8));

    let ts_7_8 = TimeSignature::from_str("7/8").unwrap();
    assert_eq!(ts_7_8, TimeSignature::seven_eight());
    assert!(ts_7_8.is_asymmetric());
    assert_eq!(ts_7_8.measure_duration(), Duration::new(7, 8));

    let ts_3_4 = TimeSignature::from_str("3/4").unwrap();
    assert_eq!(ts_3_4, TimeSignature::three_four());
    assert_eq!(ts_3_4.measure_duration(), Duration::new(3, 4));
}

#[test]
fn pitch_text_roundtrip_over_all_midi_numbers() {
    for m in 0u8..=127 {
        let p = Pitch::from_midi(m).unwrap();
        let back = Pitch::from_str(&p.to_string()).unwrap();
        assert_eq!(back, p);
    }
}

#[test]
fn pitch_name_and_octave_roundtrip() {
    for m in 0u8..=127 {
        let p = Pitch::from_midi(m).unwrap();
        let q = Pitch::from_name_and_octave(p.note_name(), p.octave()).unwrap();
        assert_eq!(q.midi(), m);
    }
    assert_eq!(Pitch::from_midi(61).unwrap().to_string(), "C#4");
    assert_eq!(Pitch::from_midi(0).unwrap().to_string(), "C-1");
    assert_eq!(Pitch::from_midi(0).unwrap().octave(), -1);
}

#[test]
fn semitone_roundtrip() {
    for s in 0u8..12 {
        assert_eq!(NoteName::from_semitone(s).to_semitone(), s);
    }
    assert_eq!(NoteName::from_semitone(13), NoteName::CSharp);
    assert_eq!(NoteName::ASharp.name_with_sharp(), "A#");
}

#[test]
fn pitch_spellings_and_errors() {
    assert_eq!(Pitch::from_str("Bb3").unwrap().midi(), 58);
    assert_eq!(Pitch::from_str("  c#5 ").unwrap().midi(), 73);
    assert!(matches!(Pitch::from_midi(128), Err(CoreError::InvalidMidiPitch(128))));
    assert!(matches!(Pitch::from_str("H4"), Err(CoreError::InvalidPitchNotation(_))));
    assert!(matches!(Pitch::from_str(""), Err(CoreError::InvalidPitchNotation(_))));
    match Pitch::from_name_and_octave(NoteName::C, -2) {
        Err(CoreError::InvalidPitchNotation(m)) => assert!(m.contains("C")),
        other => panic!("unexpected {:?}", other),
    }
}

#[test]
fn time_signature_text_roundtrip_and_errors() {
    for (n, d) in [(4u32, 4u32), (6, 8), (7, 8), (12, 8), (3, 2), (5, 16)] {
        let ts = TimeSignature::new(n, d).unwrap();
        assert_eq!(TimeSignature::from_str(&ts.to_string()).unwrap(), ts);
    }
    assert_eq!(TimeSignature::six_eight().to_string(), "6/8");
    assert!(matches!(
        TimeSignature::new(3, 5),
        Err(CoreError::InvalidTimeSignature { numerator: 3, denominator: 5 })
    ));
    assert!(matches!(
        TimeSignature::new(0, 4),
        Err(CoreError::InvalidTimeSignature { numerator: 0, denominator: 4 })
    ));
    assert!(TimeSignature::from_str("4-4").is_err());
    assert!(TimeSignature::from_str("x/4").is_err());
    assert!(TimeSignature::from_str("4/x").is_err());
    assert!(!TimeSignature::four_four().is_compound());
    assert!(TimeSignature::twelve_eight().is_compound());
    assert!(TimeSignature::five_eight().is_asymmetric());
    assert!(!TimeSignature::nine_eight().is_asymmetric());
}

#[test]
fn duration_arithmetic_is_exact() {
    let half = Duration::new(2, 4);
    assert_eq!(half, Duration::half());
    assert_eq!((half.numer(), half.denom()), (1, 2));
    let q = Duration::quarter();
    let e = Duration::eighth();
    assert_eq!(q.add(e), e.add(q));
    assert_eq!(q.add(e), Duration::dotted_quarter());
    assert_eq!(q.add(e).sub(e), q);
    assert_eq!(q.dotted(), Duration::dotted_quarter());
    assert_eq!(q.triplet(), Duration::new(1, 6));
    assert_eq!(Duration::new(3, -6), Duration::new(-1, 2));
    assert_eq!(q.ticks_rounded(1920), 480);
    assert_eq!(Duration::new(1, 3).ticks_truncated(100), 33);
    assert_eq!(Duration::new(1, 6).ticks_rounded(1), 0);
    assert_eq!(Duration::zero().add(Duration::whole()), Duration::whole());
}

#[test]
fn tempo_values_and_errors() {
    let t = Tempo::from_milli_bpm(135_000).unwrap();
    assert_eq!(t.milli_bpm(), 135_000);
    assert_eq!(t.bpm_text(), "135.0");
    assert_eq!(t.to_string(), "135.0 BPM");
    assert_eq!(Tempo::default().quarter_note_micros(), 500_000);
    assert_eq!(Tempo::from_milli_bpm(120_050).unwrap().bpm_text(), "120.0");
    assert_eq!(Tempo::from_milli_bpm(120_150).unwrap().bpm_text(), "120.2");
    assert!(Tempo::from_milli_bpm(0).is_err());
    assert!(Tempo::from_milli_bpm(1_000_001).is_err());
}

#[test]
fn music_model_builders() {
    let p = Pitch::from_str("G3").unwrap();
    let n = Note::new(p, Duration::quarter()).with_velocity(200).with_articulation(Articulation::Bend);
    assert_eq!(n.velocity, 127);
    assert_eq!(n.articulation, Some(Articulation::Bend));
    let rest = Beat::new(Duration::zero(), Duration::half());
    assert!(rest.is_rest());
    let mut m = Measure::new(3).with_time_signature(TimeSignature::three_four());
    m.add_beat(Beat::with_notes(Duration::zero(), Duration::quarter(), vec![n]));
    m.add_beat(rest);
    assert_eq!(m.beats.len(), 2);
    let mut t = Track::new("Lead", Instrument::default());
    t.add_measure(m);
    let mut s = Song::new("Song").with_time_signature(TimeSignature::seven_eight());
    s.add_track(t);
    assert_eq!(s.tracks[0].measures[0].number, 3);
    assert_eq!(s.tempo.milli_bpm(), 120_000);
    assert_eq!(s.time_signature, TimeSignature::seven_eight());
}

#[test]
fn instrument_names() {
    assert_eq!(Instrument::from_name("BASS"), Instrument::ElectricBass);
    assert_eq!(Instrument::from_name("Acoustic_Guitar"), Instrument::AcousticGuitar);
    assert_eq!(Instrument::from_name("guitar"), Instrument::ElectricGuitarClean);
    assert_eq!(Instrument::from_lowercase_name("acoustic"), Instrument::AcousticGuitar);
    assert_eq!(Instrument::from_lowercase_name("Bass"), Instrument::ElectricGuitarClean);
}

#[test]
fn duration_text_and_in_place_arithmetic() {
    assert_eq!(Duration::dotted_quarter().to_string(), "3/8");
    assert_eq!(Duration::new(-2, 4).to_string(), "-1/2");
    assert_eq!(Duration::zero().to_string(), "0/1");
    let mut d = Duration::quarter();
    d.add_assign(Duration::quarter());
    assert_eq!(d, Duration::half());
    d.sub_assign(Duration::eighth());
    assert_eq!(d, Duration::dotted_quarter());
}

#[test]
fn named_meters_and_note_values() {
    assert_eq!(TimeSignature::two_four(), TimeSignature::new(2, 4).unwrap());
    assert_eq!(TimeSignature::five_four(), TimeSignature::new(5, 4).unwrap());
    assert_eq!(TimeSignature::default(), TimeSignature::four_four());
    assert_eq!(Duration::thirty_second(), Duration::new(1, 32));
    assert_eq!(Duration::sixty_fourth().add(Duration::sixty_fourth()), Duration::thirty_second());
}

#[test]
fn runs_of_equal_pitches() {
    let p = |s: &str| Pitch::from_str(s).unwrap();
    let seq = vec![p("A4"), p("A4"), p("B4"), p("A4"), p("A4"), p("A4")];
    assert_eq!(pitch_runs(&seq), vec![(0, 1), (2, 2), (3, 5)]);
    assert_eq!(pitch_runs(&[]), Vec::<(usize, usize)>::new());
    assert_eq!(pitch_runs(&[p("C4")]), vec![(0, 0)]);
}

#[test]
fn legato_and_output_formats() {
    use_legato();
    assert_eq!(OutputFormat::from_extension("MusicXML"), OutputFormat::MusicXml);
    assert_eq!(OutputFormat::from_extension("XML"), OutputFormat::MusicXml);
    assert_eq!(OutputFormat::from_extension("Mid"), OutputFormat::Midi);
    assert_eq!(OutputFormat::from_extension("txt"), OutputFormat::Tablature);
    assert_eq!(OutputFormat::from_lowercase_extension("MIDI"), OutputFormat::Tablature);
    assert_eq!(OutputFormat::from_lowercase_extension("midi"), OutputFormat::Midi);
}

fn use_legato() {
    assert_eq!(legato_articulation(60, 62), Some(Articulation::HammerOn));
    assert_eq!(legato_articulation(60, 65), Some(Articulation::HammerOn));
    assert_eq!(legato_articulation(60, 66), None);
    assert_eq!(legato_articulation(60, 55), Some(Articulation::PullOff));
    assert_eq!(legato_articulation(60, 54), None);
    assert_eq!(legato_articulation(60, 60), None);
}

#[test]
fn new_project_configuration() {
    let text = tabforge::project::project_config_text("demo");
    let expected = r#"# TabForge Project Configuration
[song]
title = "%NAME%"
artist = "Unknown"
bpm = 120.0
time_signature = "4/4"

[guitar]
tuning = ["E2", "A2", "D3", "G3", "B3", "E4"]
frets = 24
"#
    .replace("%NAME%", "demo");
    assert_eq!(text, expected);
}

#[test]
fn out_of_range_pitches_are_refused() {
    match Pitch::from_str("G#9") {
        Err(CoreError::InvalidPitchNotation(m)) => assert_eq!(m, "GSharp9"),
        other => panic!("unexpected {:?}", other),
    }
    match Pitch::from_str("C10") {
        Err(CoreError::InvalidPitchNotation(m)) => assert_eq!(m, "C10"),
        other => panic!("unexpected {:?}", other),
    }
    match Pitch::from_str("é4") {
        Err(CoreError::InvalidPitchNotation(m)) => assert_eq!(m, "é4"),
        other => panic!("unexpected {:?}", other),
    }
    assert_eq!(Pitch::from_str("G9").unwrap().midi(), 127);
    assert!(matches!(Pitch::from_name_and_octave(NoteName::B, 127), Err(CoreError::InvalidPitchNotation(_))));
    assert!(matches!(Pitch::from_name_and_octave(NoteName::C, -128), Err(CoreError::InvalidPitchNotation(_))));
    assert_eq!(Pitch::from_name_and_octave(NoteName::G, 9).unwrap().midi(), 127);
}

#[test]
fn tempo_text_rounds_like_the_nearest_double() {
    let text = |m: i64| Tempo::from_milli_bpm(m).unwrap().bpm_text();
    assert_eq!(text(120_350), "120.3");
    assert_eq!(text(120_450), "120.5");
    assert_eq!(text(120_250), "120.2");
    assert_eq!(text(120_750), "120.8");
    for m in (1..=1_000_000i64).step_by(50) {
        assert_eq!(text(m), format!("{:.1}", m as f64 / 1000.0));
    }
}
