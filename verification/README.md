# k2_viewer

The verified core of a MIDI viewer that plays songs across a computer-keyboard
shaped board: MIDI file loading and timing, fitting a song onto the board,
choosing which key lights for each note, the playback transport, live input,
the drum synthesis engine, and the settings kept in the page address.

- `src/` is the library, written in Verus: every function carries a contract
  and is proved against it; the `lemma_*` proof functions state the laws the
  library keeps across calls.
- `tests/` runs the library on concrete values.
- `app/` is a small command-line player around the library: file reading,
  MIDI ports, the audio stream and the floating-point sample arithmetic.
