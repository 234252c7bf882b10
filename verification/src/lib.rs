//! Verified core of a hand-tracked laser harp: the instrument catalogue,
//! MIDI message framing, synth voice bookkeeping and the string-crossing
//! state machine that turns fingertip positions into note events.

pub mod instrument;
pub mod midi;
pub mod voices;
pub mod tuning;
pub mod harp;
pub mod harp_laws;
pub mod trails;
pub mod harp_counts;
