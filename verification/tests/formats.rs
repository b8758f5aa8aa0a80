use tabforge::duration::Duration;
use tabforge::error::MidiError;
use tabforge::midi::{MidlyReader, MidlyWriter};
use tabforge::models::ModelManager;
use tabforge::musicxml::MusicXmlWriter;
use tabforge::pitch::Pitch;
use tabforge::song::{Beat, Instrument, Measure, Note, Song, Track};
use tabforge::tab::{AsciiTabWriter, TabWriter};
use tabforge::tempo::{Tempo, TimeSignature};
use tabforge::wav::encode_wav;
use std::f32::consts::PI;
use std::io::Cursor;

#[test]
fn test_midi_writer_with_odd_meter_and_tempo() {
    let mut song = Song::new("Odd Meter Song");
    song.time_signature = TimeSignature::seven_eight();
    song.tempo = Tempo::from_milli_bpm(135_000).unwrap();

    let mut track = Track::new("Bass", Instrument::ElectricBass);
    let mut measure = Measure::new(1);
    let note = Note::new(Pitch::from_str("E2").unwrap(), Duration::dotted_quarter());
    measure.add_beat(Beat::with_notes(Duration::zero(), Duration::dotted_quarter(), vec![note]));
    track.add_measure(measure);
    song.add_track(track);

    let bytes = MidlyWriter::encode(&song).unwrap();
    assert!(bytes.starts_with(b"MThd"));
}

#[test]
fn test_musicxml_generation_with_time_signature_and_dynamic_tempo() {
    let mut song = Song::new("Dynamic Song");
    let mut track = Track::new("Guitar", Instrument::ElectricGuitarClean);

    let mut m1 = Measure::new(1)
        .with_time_signature(TimeSignature::three_four())
        .with_tempo(Tempo::from_milli_bpm(120_000).unwrap());
    let note1 = Note::new(Pitch::from_str("A4").unwrap(), Duration::quarter());
    m1.add_beat(Beat::with_notes(Duration::zero(), Duration::quarter(), vec![note1]));
    m1.add_beat(Beat::new(Duration::quarter(), Duration::half()));
    track.add_measure(m1);

    let mut m2 = Measure::new(2)
        .with_time_signature(TimeSignature::six_eight())
        .with_tempo(Tempo::from_milli_bpm(140_000).unwrap());
    let note2 = Note::new(Pitch::from_str("E4").unwrap(), Duration::dotted_quarter());
    m2.add_beat(Beat::with_notes(Duration::zero(), Duration::dotted_quarter(), vec![note2]));
    m2.add_beat(Beat::new(Duration::dotted_quarter(), Duration::dotted_quarter()));
    track.add_measure(m2);

    song.add_track(track);

    let content = MusicXmlWriter::render(&song);
    assert!(content.contains("<beats>3</beats>"));
    assert!(content.contains("<beats>6</beats>"));
    assert!(content.contains("<sound tempo=\"140.0\"/>"));
}

#[test]
fn test_ascii_tab_rendering() {
    let mut track = Track::new("Guitar", Instrument::ElectricGuitarClean);
    let mut measure = Measure::new(1);
    let pitch = Pitch::from_str("E2").unwrap();
    measure.add_beat(Beat::with_notes(Duration::zero(), Duration::quarter(), vec![Note::new(pitch, Duration::quarter())]));
    track.add_measure(measure);

    let writer = AsciiTabWriter::default();
    let rendered = writer.render(&track);
    assert!(rendered.contains("E |"));
    assert!(rendered.contains("0"));
}

#[test]
fn ascii_tab_exact_layout() {
    let mut track = Track::new("Guitar", Instrument::ElectricGuitarClean);
    let mut measure = Measure::new(1);
    let e2 = Pitch::from_str("E2").unwrap();
    let c0 = Pitch::from_str("C0").unwrap();
    measure.add_beat(Beat::with_notes(Duration::zero(), Duration::quarter(), vec![Note::new(e2, Duration::quarter())]));
    measure.add_beat(Beat::with_notes(Duration::quarter(), Duration::quarter(), vec![Note::new(c0, Duration::quarter())]));
    measure.add_beat(Beat::new(Duration::half(), Duration::half()));
    track.add_measure(measure);
    track.add_measure(Measure::new(2));
    let rendered = AsciiTabWriter::default().render(&track);
    assert_eq!(
        rendered,
        "e |-----||\nB |-----||\nG |-----||\nD |-----||\nA |-----||\nE |-0---||"
    );
    let empty = AsciiTabWriter::default().render(&Track::new("x", Instrument::Generic));
    assert_eq!(empty, "e |-\nB |-\nG |-\nD |-\nA |-\nE |-");
}

#[test]
fn musicxml_divisions_and_types() {
    assert_eq!(MusicXmlWriter::duration_to_divisions(Duration::quarter()), 4);
    assert_eq!(MusicXmlWriter::duration_to_divisions(Duration::dotted_quarter()), 6);
    assert_eq!(MusicXmlWriter::duration_to_divisions(Duration::sixty_fourth()), 1);
    assert_eq!(MusicXmlWriter::duration_to_divisions(Duration::whole()), 16);
    assert_eq!(MusicXmlWriter::duration_to_type(Duration::whole()), "whole");
    assert_eq!(MusicXmlWriter::duration_to_type(Duration::half()), "half");
    assert_eq!(MusicXmlWriter::duration_to_type(Duration::dotted_quarter()), "quarter");
    assert_eq!(MusicXmlWriter::duration_to_type(Duration::quarter()), "quarter");
    assert_eq!(MusicXmlWriter::duration_to_type(Duration::eighth()), "eighth");
    assert_eq!(MusicXmlWriter::duration_to_type(Duration::sixteenth()), "16th");
}

#[test]
fn musicxml_document_shape() {
    let mut song = Song::new("T");
    let mut track = Track::new("Lead", Instrument::ElectricGuitarClean);
    let mut m = Measure::new(1);
    m.add_beat(Beat::with_notes(Duration::zero(), Duration::quarter(), vec![Note::new(Pitch::from_str("C#4").unwrap(), Duration::quarter())]));
    track.add_measure(m);
    track.add_measure(Measure::new(2));
    song.add_track(track);
    let xml = MusicXmlWriter::render(&song);
    assert!(xml.starts_with("<?xml version=\"1.0\" encoding=\"UTF-8\"?>\n"));
    assert!(xml.contains("<work-title>T</work-title>"));
    assert!(xml.contains("<score-part id=\"P1\">\n      <part-name>Lead</part-name>"));
    assert!(xml.contains("<step>C</step>\n          <alter>1</alter>\n          <octave>4</octave>"));
    assert!(xml.contains("<measure number=\"2\">\n    </measure>"));
    assert!(xml.contains("<beats>4</beats>"));
    assert!(xml.ends_with("</score-partwise>\n"));
}

#[test]
fn midi_bytes_read_back_as_notes() {
    let mut song = Song::new("Round");
    let mut track = Track::new("Lead", Instrument::ElectricGuitarClean);
    let mut m = Measure::new(1);
    for (i, name) in ["E2", "A2", "D3"].iter().enumerate() {
        let n = Note::new(Pitch::from_str(name).unwrap(), Duration::quarter()).with_velocity(90);
        m.add_beat(Beat::with_notes(Duration::new(i as i32, 4), Duration::quarter(), vec![n]));
    }
    track.add_measure(m);
    song.add_track(track);
    let bytes = MidlyWriter::encode(&song).unwrap();
    let back = MidlyReader::read_bytes(&bytes, "Back").unwrap();
    assert_eq!(back.title, "Back");
    assert_eq!(back.tracks.len(), 1);
    assert_eq!(back.tracks[0].name, "Track 2");
    let beats = &back.tracks[0].measures[0].beats;
    let keys: Vec<u8> = beats.iter().map(|b| b.notes[0].pitch.midi()).collect();
    assert_eq!(keys, vec![40, 45, 50]);
    assert!(beats.iter().all(|b| b.notes[0].velocity == 90));
}

#[test]
fn midi_garbage_is_a_parse_error() {
    assert!(matches!(MidlyReader::read_bytes(&[1, 2, 3], "x"), Err(MidiError::ParseError(_))));
}

#[test]
fn midi_time_signature_values() {
    assert_eq!(MidlyWriter::time_sig_to_midly(TimeSignature::seven_eight()), (7, 3, 24, 8));
    assert_eq!(MidlyWriter::time_sig_to_midly(TimeSignature::four_four()), (4, 2, 24, 8));
    let song = Song::new("Empty");
    let tracks = MidlyWriter::events(&song);
    assert_eq!(tracks.len(), 1);
}

#[test]
fn wav_header_and_samples() {
    let bytes = encode_wav(1, 44100, &[0, 1, -1, 32767, -32768]);
    assert_eq!(bytes.len(), 44 + 10);
    assert_eq!(&bytes[0..4], b"RIFF");
    assert_eq!(&bytes[4..8], &(36u32 + 10).to_le_bytes());
    assert_eq!(&bytes[8..16], b"WAVEfmt ");
    assert_eq!(&bytes[16..20], &16u32.to_le_bytes());
    assert_eq!(&bytes[20..22], &1u16.to_le_bytes());
    assert_eq!(&bytes[22..24], &1u16.to_le_bytes());
    assert_eq!(&bytes[24..28], &44100u32.to_le_bytes());
    assert_eq!(&bytes[28..32], &88200u32.to_le_bytes());
    assert_eq!(&bytes[32..34], &2u16.to_le_bytes());
    assert_eq!(&bytes[34..36], &16u16.to_le_bytes());
    assert_eq!(&bytes[36..40], b"data");
    assert_eq!(&bytes[40..44], &10u32.to_le_bytes());
    assert_eq!(&bytes[44..], &[0, 0, 1, 0, 255, 255, 255, 127, 0, 128]);
    let stereo = encode_wav(2, 48000, &[]);
    assert_eq!(&stereo[28..32], &192000u32.to_le_bytes());
    assert_eq!(&stereo[32..34], &4u16.to_le_bytes());
}

#[test]
fn test_model_manager_path_resolution() {
    let htdemucs = ModelManager::find_model("htdemucs_6s");
    assert!(htdemucs.is_some());
    assert_eq!(htdemucs.clone().unwrap().stems.len(), 6);
    assert!(htdemucs.unwrap().stems.contains(&"guitar"));
}

#[test]
fn test_model_manager_discovery() {
    let models = ModelManager::known_models();
    assert_eq!(models.len(), 3);
    assert!(models.iter().any(|m| m.name == "htdemucs_6s"));
}

#[test]
fn model_lookup_by_alias() {
    assert_eq!(ModelManager::find_model("  HTDemucs_4S ").unwrap().name, "htdemucs_4s");
    assert_eq!(ModelManager::find_model("BS_ROFORMER.ONNX").unwrap().name, "bs_roformer");
    assert_eq!(ModelManager::find_normalized("htdemucs_6s.ONNX").unwrap().size_mb, 118);
    assert!(ModelManager::find_normalized("HTDEMUCS_6S").is_none());
    assert!(ModelManager::find_model("unknown").is_none());
}

#[test]
fn midi_tick_budget() {
    let mut song = Song::new("Long");
    assert!(MidlyWriter::fits_ticks(&song));
    let mut track = Track::new("T", Instrument::Generic);
    let mut m = Measure::new(1);
    m.add_beat(Beat::new(Duration::zero(), Duration::new(2_000_000, 1)));
    track.add_measure(m.clone());
    song.add_track(track.clone());
    assert!(MidlyWriter::fits_ticks(&song));
    track.add_measure(m);
    song.tracks[0] = track;
    assert!(!MidlyWriter::fits_ticks(&song));
}

/// Decodes WAV bytes with symphonia: (sample rate, channels, samples).
fn decode_wav(bytes: Vec<u8>) -> (u32, u16, Vec<f32>) {
    let mss = symphonia::core::io::MediaSourceStream::new(Box::new(Cursor::new(bytes)), Default::default());
    let mut hint = symphonia::core::probe::Hint::new();
    hint.with_extension("wav");
    let probed = symphonia::default::get_probe()
        .format(&hint, mss, &symphonia::core::formats::FormatOptions::default(), &symphonia::core::meta::MetadataOptions::default())
        .expect("probe");
    let mut format = probed.format;
    let track = format.default_track().expect("track").clone();
    let mut decoder = symphonia::default::get_codecs()
        .make(&track.codec_params, &symphonia::core::codecs::DecoderOptions::default())
        .expect("codec");
    let mut samples = Vec::new();
    let mut rate = 0;
    let mut channels = 0;
    while let Ok(packet) = format.next_packet() {
        let decoded = decoder.decode(&packet).expect("decode");
        let spec = *decoded.spec();
        rate = spec.rate;
        channels = spec.channels.count() as u16;
        let mut buf = symphonia::core::audio::SampleBuffer::<f32>::new(decoded.capacity() as u64, spec);
        buf.copy_interleaved_ref(decoded);
        samples.extend_from_slice(buf.samples());
    }
    (rate, channels, samples)
}

#[test]
fn test_write_and_decode_wav_roundtrip() {
    let sample_rate = 44100;
    let num_samples = 4410; // 0.1s
    let mut samples = Vec::with_capacity(num_samples);
    for i in 0..num_samples {
        let t = i as f32 / sample_rate as f32;
        samples.push((2.0 * PI * 440.0 * t).sin() * 0.8);
    }
    let pcm: Vec<i16> = samples.iter().map(|&s| (s.clamp(-1.0, 1.0) * 32767.0).round() as i16).collect();

    let bytes = encode_wav(1, sample_rate, &pcm);
    let (rate, channels, decoded) = decode_wav(bytes);

    assert_eq!(rate, sample_rate);
    assert_eq!(channels, 1);
    assert_eq!(decoded.len(), num_samples);

    let mut diff_sum = 0.0;
    for i in 0..num_samples {
        diff_sum += (decoded[i] - samples[i]).abs();
    }
    let avg_diff = diff_sum / num_samples as f32;
    assert!(avg_diff < 0.01, "Average difference too high: {}", avg_diff);
}

#[test]
fn musicxml_escapes_text() {
    let mut song = Song::new("Rock & Roll <Live>");
    song.add_track(Track::new("Lead \"A\" 'B'", Instrument::ElectricGuitarClean));
    let xml = MusicXmlWriter::render(&song);
    assert!(xml.contains("<work-title>Rock &amp; Roll &lt;Live&gt;</work-title>"));
    assert!(xml.contains("<part-name>Lead &quot;A&quot; &apos;B&apos;</part-name>"));
    assert!(!xml.contains("Rock & Roll"));
}

#[test]
fn tab_writer_trait_renders_the_same() {
    let mut track = Track::new("Guitar", Instrument::ElectricGuitarClean);
    let mut measure = Measure::new(1);
    measure.add_beat(Beat::with_notes(Duration::zero(), Duration::quarter(), vec![Note::new(Pitch::from_str("A2").unwrap(), Duration::quarter())]));
    track.add_measure(measure);
    let w = AsciiTabWriter::default();
    assert_eq!(TabWriter::render(&w, &track), AsciiTabWriter::render(&w, &track));
}

#[test]
fn midi_header_is_format_one_at_480_ticks() {
    let bytes = MidlyWriter::encode(&Song::new("H")).unwrap();
    assert_eq!(&bytes[0..8], b"MThd\0\0\0\x06");
    assert_eq!(&bytes[8..10], &[0, 1]);
    assert_eq!(&bytes[12..14], &480u16.to_be_bytes());
}
