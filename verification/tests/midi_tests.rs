use laser_harp::instrument::Instrument;
use laser_harp::midi::{all_notes_off_messages, cc_message, note_off_message, note_on_message};

#[test]
fn instrument_names() {
    assert_eq!(Instrument::Pluck.name(), "Pluck");
    assert_eq!(Instrument::FmBell.name(), "FM Bell");
    assert_eq!(Instrument::Sine.name(), "Sine");
    assert_eq!(Instrument::Saw.name(), "Saw");
    assert_eq!(Instrument::Square.name(), "Square");
}

#[test]
fn instrument_keys_order() {
    assert_eq!(
        Instrument::ALL,
        [Instrument::Pluck, Instrument::FmBell, Instrument::Sine, Instrument::Saw, Instrument::Square]
    );
}

#[test]
fn note_on_bytes() {
    assert_eq!(note_on_message(0, 60, 100), [0x90, 60, 100]);
    assert_eq!(note_on_message(1, 64, 127), [0x91, 64, 127]);
}

#[test]
fn note_on_masks_out_of_range_values() {
    // channel 17 -> 1, key 200 -> 72, velocity 255 -> 127
    assert_eq!(note_on_message(17, 200, 255), [0x91, 72, 127]);
}

#[test]
fn note_off_bytes() {
    assert_eq!(note_off_message(1, 60), [0x81, 60, 0]);
    assert_eq!(note_off_message(0x1F, 0x80), [0x8F, 0, 0]);
}

#[test]
fn cc_bytes() {
    assert_eq!(cc_message(2, 123, 0), [0xB2, 123, 0]);
    assert_eq!(cc_message(15, 7, 200), [0xBF, 7, 72]);
}

#[test]
fn all_notes_off_on_every_channel() {
    let ms = all_notes_off_messages();
    assert_eq!(ms.len(), 16);
    for (ch, m) in ms.iter().enumerate() {
        assert_eq!(*m, [0xB0 + ch as u8, 123, 0]);
    }
}

#[test]
fn messages_are_well_formed_example() {
    for m in [note_on_message(9, 255, 255), note_off_message(255, 255), cc_message(3, 200, 130)] {
        assert!(m[0] >= 0x80);
        assert!(m[1] < 0x80);
        assert!(m[2] < 0x80);
    }
}

#[test]
fn note_off_matches_note_on_example() {
    let on = note_on_message(1, 76, 90);
    let off = note_off_message(1, 76);
    assert_eq!(on[0] & 0x0F, off[0] & 0x0F);
    assert_eq!(on[1], off[1]);
    assert_eq!(on[0] - off[0], 0x10);
}
