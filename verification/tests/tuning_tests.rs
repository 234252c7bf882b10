use laser_harp::tuning::{
    advance_note_id, note_name, octave_from_zone, octave_index_from_zone, string_note_for, N_OCTAVES, SCALE,
};

#[test]
fn scale_is_c_major_pentatonic() {
    assert_eq!(SCALE, [60, 62, 64, 67, 69]);
}

#[test]
fn octave_zones() {
    assert_eq!(octave_index_from_zone(0), 2);
    assert_eq!(octave_index_from_zone(1), 3);
    assert_eq!(octave_index_from_zone(-2), 0);
    assert_eq!(octave_index_from_zone(-7), 0);
    assert_eq!(octave_index_from_zone(9), N_OCTAVES - 1);
    assert_eq!(octave_index_from_zone(i32::MIN), 0);
    assert_eq!(octave_index_from_zone(i32::MAX - 2), 4);
}

#[test]
fn octave_offsets() {
    assert_eq!(octave_from_zone(0), 0);
    assert_eq!(octave_from_zone(-1), -1);
    assert_eq!(octave_from_zone(2), 2);
    assert_eq!(octave_from_zone(3), 2);
    assert_eq!(octave_from_zone(-30), -2);
}

#[test]
fn string_notes() {
    assert_eq!(string_note_for(0, 0, 0), 60);
    assert_eq!(string_note_for(3, 0, 0), 67);
    assert_eq!(string_note_for(4, 2, 0), 93);
    assert_eq!(string_note_for(0, -2, 0), 36);
    assert_eq!(string_note_for(2, 1, -1), 75);
}

#[test]
fn string_notes_clamp_to_midi_range() {
    assert_eq!(string_note_for(4, 2, 100), 127);
    assert_eq!(string_note_for(0, -2, -100), 0);
    assert_eq!(string_note_for(0, 0, i32::MIN), 0);
    assert_eq!(string_note_for(4, 2, i32::MAX - 93), 127);
}

#[test]
fn note_ids_skip_zero() {
    assert_eq!(advance_note_id(1), 2);
    assert_eq!(advance_note_id(0), 1);
    assert_eq!(advance_note_id(u64::MAX), 1);
}

#[test]
fn note_names() {
    assert_eq!(note_name(60), "C4");
    assert_eq!(note_name(61), "C#4");
    assert_eq!(note_name(69), "A4");
    assert_eq!(note_name(0), "C-1");
    assert_eq!(note_name(11), "B-1");
    assert_eq!(note_name(12), "C0");
    assert_eq!(note_name(127), "G9");
    assert_eq!(note_name(130), "A#9");
    assert_eq!(note_name(132), "C10");
    assert_eq!(note_name(255), "D#20");
}

#[test]
fn octave_apart_same_letter_example() {
    for m in [0u8, 5, 60, 100, 243] {
        let a = note_name(m);
        let b = note_name(m + 12);
        let letters = |s: &str| s.trim_end_matches(|c: char| c.is_ascii_digit() || c == '-').to_string();
        assert_eq!(letters(&a), letters(&b));
    }
}

#[test]
fn string_labels() {
    let labels: Vec<String> = SCALE.iter().map(|&m| note_name(m)).collect();
    assert_eq!(labels, vec!["C4", "D4", "E4", "G4", "A4"]);
}

#[test]
fn octave_zones_span_two_octaves_around_middle_c() {
    let notes: Vec<u8> = (-2..=2).map(|z| string_note_for(0, octave_from_zone(z), 0)).collect();
    assert_eq!(notes, vec![36, 48, 60, 72, 84]);
}
