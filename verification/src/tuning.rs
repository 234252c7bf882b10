use vstd::prelude::*;

verus! {

/// Number of strings stacked above the device.
pub const N_STRINGS: usize = 5;

/// Number of octave zones across the play area.
pub const N_OCTAVES: usize = 5;

/// C-major pentatonic, MIDI note numbers at octave 0 (middle C); the lowest
/// string sits lowest in the play volume.
pub const SCALE: [u8; 5] = [60, 62, 64, 67, 69];

/// Octave offset represented by each octave zone, left to right.
pub const OCT_OFFSETS: [i32; 5] = [-2, -1, 0, 1, 2];

/// MIDI note of string `s` at octave 0.
pub open spec fn scale_note(s: int) -> int {
    if s == 0 {
        60
    } else if s == 1 {
        62
    } else if s == 2 {
        64
    } else if s == 3 {
        67
    } else {
        69
    }
}

pub open spec fn clamp(x: int, lo: int, hi: int) -> int {
    if x < lo {
        lo
    } else if x > hi {
        hi
    } else {
        x
    }
}

/// Octave zone index for a hand position `zone` steps of one zone width away
/// from the centre (the position in zone widths, rounded).
pub open spec fn octave_index(zone: int) -> int {
    clamp(zone + 2, 0, 4)
}

/// Octave offset, in -2..=2, for a rounded zone position.
pub open spec fn octave_of_zone(zone: int) -> int {
    octave_index(zone) - 2
}

/// The note a string sounds at the given octave offset and transposition,
/// clamped to the MIDI range.
pub open spec fn string_note(s: int, octave: int, transpose: int) -> int {
    clamp(scale_note(s) + 12 * octave + transpose, 0, 127)
}

/// Largest transposition for which the note arithmetic stays in `i32`.
pub open spec fn transpose_ok(transpose: i32) -> bool {
    transpose <= i32::MAX - 93
}

/// Index of the octave column for a rounded zone position (the position
/// divided by the zone width, rounded): the centre column is 2, and
/// positions beyond the outer columns stick to them.
pub fn octave_index_from_zone(zone: i32) -> (r: usize)
    requires
        zone <= i32::MAX - 2,
    ensures
        r as int == octave_index(zone as int),
        r < N_OCTAVES,
{
    let z = zone + (N_OCTAVES as i32) / 2;
    if z < 0 {
        0
    } else if z > (N_OCTAVES as i32) - 1 {
        N_OCTAVES - 1
    } else {
        z as usize
    }
}

/// Octave offset for a rounded zone position.
pub fn octave_from_zone(zone: i32) -> (r: i32)
    requires
        zone <= i32::MAX - 2,
    ensures
        r as int == octave_of_zone(zone as int),
        -2 <= r <= 2,
{
    let idx = octave_index_from_zone(zone);
    let r = OCT_OFFSETS[idx];
    assert(OCT_OFFSETS@[idx as int] == idx - 2) by {
        assert(OCT_OFFSETS@ =~= seq![-2i32, -1i32, 0i32, 1i32, 2i32]);
    }
    r
}

/// MIDI note for string `s` at octave offset `octave`, shifted by
/// `transpose` semitones and clamped to 0..=127.
pub fn string_note_for(s: usize, octave: i32, transpose: i32) -> (r: u8)
    requires
        s < N_STRINGS,
        -2 <= octave <= 2,
        transpose_ok(transpose),
    ensures
        r as int == string_note(s as int, octave as int, transpose as int),
        r <= 127,
{
    assert(SCALE@[s as int] == scale_note(s as int)) by {
        assert(SCALE@ =~= seq![60u8, 62, 64, 67, 69]);
    }
    let n = SCALE[s] as i32 + 12 * octave + transpose;
    if n < 0 {
        0
    } else if n > 127 {
        127
    } else {
        n as u8
    }
}

/// Id that follows `id` among note ids: ids count up, wrap around, and
/// skip 0, which marks "no note".
pub open spec fn next_note_id(id: u64) -> u64 {
    if id == u64::MAX {
        1
    } else {
        (id + 1) as u64
    }
}

pub fn advance_note_id(id: u64) -> (r: u64)
    ensures
        r == next_note_id(id),
        r != 0,
{
    let w = id.wrapping_add(1);
    if w < 1 {
        1
    } else {
        w
    }
}

/// Name of a pitch class, sharps for the black keys.
pub open spec fn pitch_class_name(pc: int) -> Seq<char> {
    if pc == 0 {
        "C"@
    } else if pc == 1 {
        "C#"@
    } else if pc == 2 {
        "D"@
    } else if pc == 3 {
        "D#"@
    } else if pc == 4 {
        "E"@
    } else if pc == 5 {
        "F"@
    } else if pc == 6 {
        "F#"@
    } else if pc == 7 {
        "G"@
    } else if pc == 8 {
        "G#"@
    } else if pc == 9 {
        "A"@
    } else if pc == 10 {
        "A#"@
    } else {
        "B"@
    }
}

pub open spec fn digit_char(d: int) -> char {
    if d == 0 {
        '0'
    } else if d == 1 {
        '1'
    } else if d == 2 {
        '2'
    } else if d == 3 {
        '3'
    } else if d == 4 {
        '4'
    } else if d == 5 {
        '5'
    } else if d == 6 {
        '6'
    } else if d == 7 {
        '7'
    } else if d == 8 {
        '8'
    } else {
        '9'
    }
}

/// Decimal digits of a natural number, most significant first.
pub open spec fn decimal_digits(n: nat) -> Seq<char>
    decreases n,
{
    if n < 10 {
        seq![digit_char(n as int)]
    } else {
        decimal_digits(n / 10).push(digit_char((n % 10) as int))
    }
}

/// Decimal form of an integer, with a leading '-' when negative.
pub open spec fn decimal(n: int) -> Seq<char> {
    if n < 0 {
        seq!['-'] + decimal_digits((-n) as nat)
    } else {
        decimal_digits(n as nat)
    }
}

/// Scientific pitch name of a MIDI note: pitch class then octave number,
/// with middle C (60) named "C4".
pub open spec fn note_name_spec(midi: u8) -> Seq<char> {
    pitch_class_name((midi % 12) as int) + decimal(midi / 12 - 1)
}

fn pitch_class_str(pc: u8) -> (r: &'static str)
    requires
        pc < 12,
    ensures
        r@ == pitch_class_name(pc as int),
{
    match pc {
        0 => "C",
        1 => "C#",
        2 => "D",
        3 => "D#",
        4 => "E",
        5 => "F",
        6 => "F#",
        7 => "G",
        8 => "G#",
        9 => "A",
        10 => "A#",
        _ => "B",
    }
}

fn digit_str(d: u8) -> (r: &'static str)
    requires
        d < 10,
    ensures
        r@ == seq![digit_char(d as int)],
{
    match d {
        0 => {
            proof {
                reveal_strlit("0");
            }
            "0"
        },
        1 => {
            proof {
                reveal_strlit("1");
            }
            "1"
        },
        2 => {
            proof {
                reveal_strlit("2");
            }
            "2"
        },
        3 => {
            proof {
                reveal_strlit("3");
            }
            "3"
        },
        4 => {
            proof {
                reveal_strlit("4");
            }
            "4"
        },
        5 => {
            proof {
                reveal_strlit("5");
            }
            "5"
        },
        6 => {
            proof {
                reveal_strlit("6");
            }
            "6"
        },
        7 => {
            proof {
                reveal_strlit("7");
            }
            "7"
        },
        8 => {
            proof {
                reveal_strlit("8");
            }
            "8"
        },
        _ => {
            proof {
                reveal_strlit("9");
            }
            "9"
        },
    }
}

/// Label drawn next to a string: the note's scientific pitch name, such as
/// "C4" for 60 or "A#-1" for 10.
pub fn note_name(midi: u8) -> (r: String)
    ensures
        r@ == note_name_spec(midi),
{
    let mut r = String::new();
    r.append(pitch_class_str(midi % 12));
    let q = midi / 12;
    if q == 0 {
        proof {
            reveal_strlit("-");
        }
        r.append("-");
        r.append(digit_str(1));
        assert(decimal(-1) =~= seq!['-', '1']) by {
            reveal_with_fuel(decimal_digits, 2);
        }
    } else {
        let oct = q - 1;
        if oct < 10 {
            r.append(digit_str(oct));
            assert(decimal_digits(oct as nat) =~= seq![digit_char(oct as int)]);
        } else {
            r.append(digit_str(oct / 10));
            r.append(digit_str(oct % 10));
            assert(decimal_digits(oct as nat) =~= seq![digit_char((oct / 10) as int), digit_char((oct % 10) as int)]) by {
                assert(decimal_digits((oct / 10) as nat) =~= seq![digit_char((oct / 10) as int)]);
            }
        }
    }
    r
}

/// Notes twelve semitones apart share their letter name, and their octave
/// numbers differ by one.
pub proof fn octave_apart_same_letter(midi: u8)
    requires
        midi <= 255 - 12,
    ensures
        note_name_spec((midi + 12) as u8) == pitch_class_name((midi % 12) as int) + decimal((midi / 12) as int),
        note_name_spec(midi) == pitch_class_name((midi % 12) as int) + decimal(midi / 12 - 1),
{
    assert(((midi + 12) as u8) % 12 == midi % 12);
    assert(((midi + 12) as u8) / 12 == midi / 12 + 1);
}

/// The strings at octave 0, untransposed, sound C4 D4 E4 G4 A4; moving
/// one octave zone shifts a note by twelve semitones and each step of
/// transposition by one, as long as the note stays within the MIDI range,
/// and it is pinned to 0 or 127 beyond it.
pub proof fn string_notes_shift(s: int, octave: int, transpose: int)
    requires
        0 <= s < 5,
    ensures
        string_note(0, 0, 0) == 60,
        string_note(1, 0, 0) == 62,
        string_note(2, 0, 0) == 64,
        string_note(3, 0, 0) == 67,
        string_note(4, 0, 0) == 69,
        0 <= string_note(s, octave, transpose) <= 127,
        0 <= string_note(s, octave, transpose) && string_note(s, octave, transpose) + 12 <= 127
            && string_note(s, octave, transpose) == string_note(s, 0, 0) + 12 * octave + transpose
            ==> string_note(s, octave + 1, transpose) == string_note(s, octave, transpose) + 12,
        string_note(s, octave, transpose) + 1 <= 127 && 0 < string_note(s, octave, transpose) + 1
            && string_note(s, octave, transpose) == string_note(s, 0, 0) + 12 * octave + transpose
            ==> string_note(s, octave, transpose + 1) == string_note(s, octave, transpose) + 1,
        string_note(s, 0, 0) + 12 * octave + transpose >= 127 ==> string_note(s, octave, transpose) == 127,
        string_note(s, 0, 0) + 12 * octave + transpose <= 0 ==> string_note(s, octave, transpose) == 0,
{
}

/// Octave zones: the centre zone is octave 0, each zone to the right is one
/// octave up and to the left one down, and positions beyond the two outer
/// zones on each side stay at +2 or -2.
pub proof fn octave_zones_law(zone: int)
    ensures
        -2 <= zone <= 2 ==> octave_of_zone(zone) == zone,
        zone > 2 ==> octave_of_zone(zone) == 2,
        zone < -2 ==> octave_of_zone(zone) == -2,
        octave_index(zone) == octave_of_zone(zone) + 2,
{
}

} // verus!
