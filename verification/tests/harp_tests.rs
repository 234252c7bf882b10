use laser_harp::harp::{FingerInput, HandInput, Harp, HarpAction, PlayParams, SustainPedal};
use laser_harp::instrument::Instrument;

fn finger(extended: bool, band: Option<usize>, zone: i32) -> FingerInput {
    let mut in_band = [false; 5];
    if let Some(s) = band {
        in_band[s] = true;
    }
    FingerInput { extended, in_band, octave_zone: zone }
}

fn hand(id: u32, is_left: bool, fingers: [FingerInput; 5]) -> HandInput {
    HandInput { id, is_left, fingers }
}

fn idle() -> FingerInput {
    finger(true, None, 0)
}

#[test]
fn initial_params() {
    let p = PlayParams::initial();
    assert_eq!(p.transpose, 0);
    assert_eq!(p.left, Instrument::FmBell);
    assert_eq!(p.right, Instrument::Pluck);
}

#[test]
fn entering_a_string_strikes_it() {
    let mut h = Harp::new();
    let p = PlayParams::initial();
    let hands = vec![hand(7, false, [idle(), finger(true, Some(2), 0), idle(), idle(), idle()])];
    let out = h.process_frame(&hands, p);
    assert_eq!(
        out.actions,
        vec![HarpAction::NoteOn { id: 1, midi: 64, channel: 0, instrument: Instrument::Pluck, string: 2, hand: 0, finger: 1 }]
    );
    assert_eq!(out.struck, [false, false, true, false, false]);
    assert_eq!(h.active_counts(), [0, 0, 1, 0, 0]);
}

#[test]
fn repeated_frame_is_silent_example() {
    let mut h = Harp::new();
    let p = PlayParams::initial();
    let hands = vec![
        hand(7, false, [idle(), finger(true, Some(2), 0), finger(true, Some(3), 1), idle(), idle()]),
        hand(9, true, [finger(true, Some(0), -1), idle(), idle(), idle(), idle()]),
    ];
    let first = h.process_frame(&hands, p);
    assert_eq!(first.actions.len(), 3);
    let second = h.process_frame(&hands, p);
    assert!(second.actions.is_empty());
    assert_eq!(second.struck, [false; 5]);
    assert_eq!(h.active_counts(), [1, 0, 1, 1, 0]);
}

#[test]
fn leaving_a_string_stops_the_note() {
    let mut h = Harp::new();
    let p = PlayParams::initial();
    h.process_frame(&vec![hand(7, false, [idle(), finger(true, Some(2), 0), idle(), idle(), idle()])], p);
    let out = h.process_frame(&vec![hand(7, false, [idle(), idle(), idle(), idle(), idle()])], p);
    assert_eq!(out.actions, vec![HarpAction::NoteOff { id: 1, midi: 64, channel: 0, string: 2 }]);
    assert_eq!(h.active_counts(), [0; 5]);
}

#[test]
fn left_hand_uses_channel_one_and_left_instrument() {
    let mut h = Harp::new();
    let p = PlayParams::initial();
    let out = h.process_frame(&vec![hand(3, true, [finger(true, Some(4), 0), idle(), idle(), idle(), idle()])], p);
    assert_eq!(
        out.actions,
        vec![HarpAction::NoteOn { id: 1, midi: 69, channel: 1, instrument: Instrument::FmBell, string: 4, hand: 0, finger: 0 }]
    );
}

#[test]
fn curled_finger_is_mute() {
    let mut h = Harp::new();
    let p = PlayParams::initial();
    let out = h.process_frame(&vec![hand(3, false, [finger(false, Some(1), 0), idle(), idle(), idle(), idle()])], p);
    assert!(out.actions.is_empty());
}

#[test]
fn curling_a_finger_mutes_its_note() {
    let mut h = Harp::new();
    let p = PlayParams::initial();
    h.process_frame(&vec![hand(3, false, [finger(true, Some(1), 0), idle(), idle(), idle(), idle()])], p);
    let out = h.process_frame(&vec![hand(3, false, [finger(false, Some(1), 0), idle(), idle(), idle(), idle()])], p);
    assert_eq!(out.actions, vec![HarpAction::NoteOff { id: 1, midi: 62, channel: 0, string: 1 }]);
}

#[test]
fn note_off_uses_key_captured_at_strike() {
    let mut h = Harp::new();
    let p = PlayParams::initial();
    h.process_frame(&vec![hand(3, false, [idle(), idle(), finger(true, Some(0), 1), idle(), idle()])], p);
    h.process_frame(&vec![hand(3, false, [idle(), idle(), finger(true, Some(0), -2), idle(), idle()])], p);
    let out = h.process_frame(&vec![hand(3, false, [idle(), idle(), idle(), idle(), idle()])], p);
    assert_eq!(out.actions, vec![HarpAction::NoteOff { id: 1, midi: 72, channel: 0, string: 0 }]);
}

#[test]
fn lost_hand_releases_its_notes() {
    let mut h = Harp::new();
    let p = PlayParams::initial();
    let a = hand(3, false, [finger(true, Some(0), 0), finger(true, Some(4), 2), idle(), idle(), idle()]);
    h.process_frame(&vec![a], p);
    assert_eq!(h.active_counts(), [1, 0, 0, 0, 1]);
    let out = h.process_frame(&vec![], p);
    assert_eq!(
        out.actions,
        vec![
            HarpAction::NoteOff { id: 1, midi: 60, channel: 0, string: 0 },
            HarpAction::NoteOff { id: 2, midi: 93, channel: 0, string: 4 },
        ]
    );
    assert_eq!(h.active_counts(), [0; 5]);
}

#[test]
fn returning_hand_strikes_again_with_fresh_ids() {
    let mut h = Harp::new();
    let p = PlayParams::initial();
    let a = hand(3, false, [finger(true, Some(0), 0), idle(), idle(), idle(), idle()]);
    h.process_frame(&vec![a], p);
    h.process_frame(&vec![], p);
    let out = h.process_frame(&vec![a], p);
    assert_eq!(
        out.actions,
        vec![HarpAction::NoteOn { id: 2, midi: 60, channel: 0, instrument: Instrument::Pluck, string: 0, hand: 0, finger: 0 }]
    );
}

#[test]
fn transpose_and_instrument_choice() {
    let mut h = Harp::new();
    let p = PlayParams { transpose: -3, left: Instrument::Saw, right: Instrument::Square };
    let out = h.process_frame(&vec![hand(3, false, [finger(true, Some(3), -1), idle(), idle(), idle(), idle()])], p);
    assert_eq!(
        out.actions,
        vec![HarpAction::NoteOn { id: 1, midi: 52, channel: 0, instrument: Instrument::Square, string: 3, hand: 0, finger: 0 }]
    );
}

#[test]
fn one_finger_across_two_strings() {
    let mut h = Harp::new();
    let p = PlayParams::initial();
    let mut f = finger(true, Some(1), 0);
    f.in_band[2] = true;
    let out = h.process_frame(&vec![hand(1, false, [f, idle(), idle(), idle(), idle()])], p);
    assert_eq!(out.actions.len(), 2);
    assert_eq!(out.struck, [false, true, true, false, false]);
    match out.actions[1] {
        HarpAction::NoteOn { id, string, .. } => {
            assert_eq!(id, 2);
            assert_eq!(string, 2);
        }
        _ => panic!("expected a note-on"),
    }
}

#[test]
fn sustain_pedal_reports_changes_once() {
    let mut pedal = SustainPedal::new();
    assert_eq!(pedal.update(false), None);
    assert_eq!(pedal.update(true), Some(true));
    assert_eq!(pedal.update(true), None);
    assert_eq!(pedal.update(false), Some(false));
}

#[test]
fn fingers_are_independent_voices() {
    let mut h = Harp::new();
    let p = PlayParams::initial();
    let hands = vec![hand(5, false, [idle(), finger(true, Some(1), 0), finger(true, Some(1), 0), idle(), idle()])];
    let out = h.process_frame(&hands, p);
    assert_eq!(
        out.actions,
        vec![
            HarpAction::NoteOn { id: 1, midi: 62, channel: 0, instrument: Instrument::Pluck, string: 1, hand: 0, finger: 1 },
            HarpAction::NoteOn { id: 2, midi: 62, channel: 0, instrument: Instrument::Pluck, string: 1, hand: 0, finger: 2 },
        ]
    );
    assert_eq!(h.active_counts(), [0, 2, 0, 0, 0]);
}

#[test]
fn lost_hands_are_forgotten_example() {
    let mut h = Harp::new();
    let p = PlayParams::initial();
    let a = hand(1, false, [finger(true, Some(0), 0), idle(), idle(), idle(), idle()]);
    let b = hand(2, true, [finger(true, Some(3), 0), idle(), idle(), idle(), idle()]);
    h.process_frame(&vec![a, b], p);
    let out = h.process_frame(&vec![b], p);
    assert_eq!(out.actions, vec![HarpAction::NoteOff { id: 1, midi: 60, channel: 0, string: 0 }]);
    // Hand 1 comes back already inside the string: it strikes it anew.
    let out = h.process_frame(&vec![a, b], p);
    assert_eq!(
        out.actions,
        vec![HarpAction::NoteOn { id: 3, midi: 60, channel: 0, instrument: Instrument::Pluck, string: 0, hand: 0, finger: 0 }]
    );
    assert_eq!(h.active_counts(), [1, 0, 0, 1, 0]);
}

#[test]
fn empty_frame_releases_everything_example() {
    let mut h = Harp::new();
    let p = PlayParams::initial();
    let a = hand(1, false, [finger(true, Some(0), 0), idle(), idle(), idle(), idle()]);
    let b = hand(2, true, [idle(), idle(), finger(true, Some(3), -1), idle(), idle()]);
    h.process_frame(&vec![a, b], p);
    let out = h.process_frame(&vec![], p);
    assert_eq!(
        out.actions,
        vec![
            HarpAction::NoteOff { id: 1, midi: 60, channel: 0, string: 0 },
            HarpAction::NoteOff { id: 2, midi: 55, channel: 1, string: 3 },
        ]
    );
    assert_eq!(h.active_counts(), [0; 5]);
    assert!(h.process_frame(&vec![], p).actions.is_empty());
}
