# tabforge

A music intermediate representation (songs, tracks, measures, beats, notes,
exact rational durations, pitches, tempos, time signatures) with verified
back ends: a guitar fingering optimizer (Viterbi over fretboard positions),
Standard MIDI File writing and reading (through `midly`), MusicXML 4.0 and
ASCII tablature rendering, and 16-bit PCM WAV encoding.

- `src/` is the library, written in Verus: every function carries a
  contract and is verified.
- `tests/` exercises the library on concrete values.
- `app/` is the command-line program around it: argument parsing, files,
  audio decoding and the floating-point signal analysis.
