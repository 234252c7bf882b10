# laser_harp

A hand-tracked laser harp: five horizontal strings above an Ultraleap
device, tuned to C-major pentatonic; sweeping an extended fingertip through
a string plays it, the hand's horizontal position picks the octave, each
hand can have its own instrument, and every note also goes out as MIDI.

- `src/` — the verified library (Verus):
  - `instrument.rs` — the five instruments and their names;
  - `midi.rs` — MIDI channel-message framing (note-on, note-off, control
    change, the all-notes-off burst), with well-formedness laws;
  - `tuning.rs` — strings, octave zones, note numbers, note ids and
    scientific pitch names;
  - `voices.rs` — control state of the synth voices: voice allocation and
    stealing, note-offs, the sustain pedal, panic and envelope stages;
  - `harp.rs` — the string-crossing state machine that turns tracked
    fingertips into note-ons and note-offs, specified as a fold over hands,
    fingers and strings;
  - `harp_laws.rs` — properties of that machine proved over its model;
  - `trails.rs` — bounded per-fingertip position histories for the
    visualiser's fading trails.
- `app/` — the program around it: device polling through libLeapC, drawing
  with macroquad, audio synthesis with cpal, MIDI output with midir, and a
  plain hand visualiser (`--visualiser`).
- `tests/` — executable tests of the library.
