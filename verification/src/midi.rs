use vstd::prelude::*;

verus! {

/// Status nibble of a MIDI note-on message.
pub const NOTE_ON: u8 = 0x90;

/// Status nibble of a MIDI note-off message.
pub const NOTE_OFF: u8 = 0x80;

/// Status nibble of a MIDI control-change message.
pub const CONTROL_CHANGE: u8 = 0xB0;

/// Controller number of the "All Notes Off" channel-mode message.
pub const ALL_NOTES_OFF_CC: u8 = 123;

/// Number of MIDI channels.
pub const N_CHANNELS: u8 = 16;

/// A channel-voice message: status byte = kind + channel (low nibble),
/// followed by two 7-bit data bytes.
pub open spec fn channel_message(kind: u8, channel: u8, data1: u8, data2: u8) -> Seq<u8> {
    seq![(kind + channel % 16) as u8, data1 % 128, data2 % 128]
}

pub open spec fn note_on_bytes(channel: u8, note: u8, velocity: u8) -> Seq<u8> {
    channel_message(NOTE_ON, channel, note, velocity)
}

pub open spec fn note_off_bytes(channel: u8, note: u8) -> Seq<u8> {
    channel_message(NOTE_OFF, channel, note, 0)
}

pub open spec fn cc_bytes(channel: u8, controller: u8, value: u8) -> Seq<u8> {
    channel_message(CONTROL_CHANGE, channel, controller, value)
}

/// A three-byte MIDI message is well formed when its first byte is a status
/// byte (top bit set) and both data bytes are 7-bit values.
pub open spec fn well_formed(m: Seq<u8>) -> bool {
    &&& m.len() == 3
    &&& m[0] >= 0x80
    &&& m[1] < 0x80
    &&& m[2] < 0x80
}

/// The channel a status byte addresses.
pub open spec fn channel_of(m: Seq<u8>) -> int {
    (m[0] % 16) as int
}

fn status(kind: u8, channel: u8) -> (r: u8)
    requires
        kind == NOTE_ON || kind == NOTE_OFF || kind == CONTROL_CHANGE,
    ensures
        r == kind + channel % 16,
{
    let r = kind | (channel & 0x0F);
    assert(r == kind + channel % 16) by (bit_vector)
        requires
            kind == 0x90u8 || kind == 0x80u8 || kind == 0xB0u8,
            r == kind | (channel & 0x0Fu8),
    ;
    r
}

fn data(b: u8) -> (r: u8)
    ensures
        r == b % 128,
{
    let r = b & 0x7F;
    assert(r == b % 128) by (bit_vector)
        requires
            r == b & 0x7Fu8,
    ;
    r
}

/// Note-on message: status `0x90 | channel`, key and velocity masked to 7 bits.
pub fn note_on_message(channel: u8, note: u8, velocity: u8) -> (m: [u8; 3])
    ensures
        m@ == note_on_bytes(channel, note, velocity),
{
    let m = [status(NOTE_ON, channel), data(note), data(velocity)];
    assert(m@ =~= note_on_bytes(channel, note, velocity));
    m
}

/// Note-off message: status `0x80 | channel`, key masked to 7 bits, release
/// velocity zero.
pub fn note_off_message(channel: u8, note: u8) -> (m: [u8; 3])
    ensures
        m@ == note_off_bytes(channel, note),
{
    let m = [status(NOTE_OFF, channel), data(note), 0];
    assert(m@ =~= note_off_bytes(channel, note));
    m
}

/// Control-change message: status `0xB0 | channel`, controller and value
/// masked to 7 bits.
pub fn cc_message(channel: u8, controller: u8, value: u8) -> (m: [u8; 3])
    ensures
        m@ == cc_bytes(channel, controller, value),
{
    let m = [status(CONTROL_CHANGE, channel), data(controller), data(value)];
    assert(m@ =~= cc_bytes(channel, controller, value));
    m
}

/// The "All Notes Off" burst sent on panic: controller 123, value 0, on each
/// of the sixteen channels in turn.
pub fn all_notes_off_messages() -> (ms: Vec<[u8; 3]>)
    ensures
        ms.len() == 16,
        forall|ch: int| 0 <= ch < 16 ==> (#[trigger] ms[ch])@ == cc_bytes(ch as u8, ALL_NOTES_OFF_CC, 0),
{
    let mut ms: Vec<[u8; 3]> = Vec::new();
    let mut ch: u8 = 0;
    while ch < N_CHANNELS
        invariant
            ch <= 16,
            ms.len() == ch,
            forall|c: int| 0 <= c < ch ==> (#[trigger] ms[c])@ == cc_bytes(c as u8, ALL_NOTES_OFF_CC, 0),
        decreases 16 - ch,
    {
        ms.push(cc_message(ch, ALL_NOTES_OFF_CC, 0));
        ch = ch + 1;
    }
    ms
}

/// Every message the harp emits is a well-formed three-byte channel message
/// addressed to the channel it was built for.
pub proof fn messages_are_well_formed(channel: u8, a: u8, b: u8)
    ensures
        well_formed(note_on_bytes(channel, a, b)),
        well_formed(note_off_bytes(channel, a)),
        well_formed(cc_bytes(channel, a, b)),
        channel_of(note_on_bytes(channel, a, b)) == channel % 16,
        channel_of(note_off_bytes(channel, a)) == channel % 16,
        channel_of(cc_bytes(channel, a, b)) == channel % 16,
{
}

/// A note-off silences exactly the note its note-on started: same channel,
/// same key byte.
pub proof fn note_off_matches_note_on(channel: u8, note: u8, velocity: u8)
    ensures
        channel_of(note_off_bytes(channel, note)) == channel_of(note_on_bytes(channel, note, velocity)),
        note_off_bytes(channel, note)[1] == note_on_bytes(channel, note, velocity)[1],
        note_on_bytes(channel, note, velocity)[0] - note_off_bytes(channel, note)[0] == 0x10,
{
}

/// The status byte names the message kind in its high nibble (9 note-on,
/// 8 note-off, 11 control change) and the channel in its low nibble; the
/// data bytes are the given values reduced to seven bits, and a note-off
/// carries release velocity 0.
pub proof fn message_fields(channel: u8, a: u8, b: u8)
    ensures
        note_on_bytes(channel, a, b).len() == 3,
        note_on_bytes(channel, a, b)[0] / 16 == 9,
        note_on_bytes(channel, a, b)[0] % 16 == channel % 16,
        note_on_bytes(channel, a, b)[1] == a % 128,
        note_on_bytes(channel, a, b)[2] == b % 128,
        note_off_bytes(channel, a).len() == 3,
        note_off_bytes(channel, a)[0] / 16 == 8,
        note_off_bytes(channel, a)[0] % 16 == channel % 16,
        note_off_bytes(channel, a)[1] == a % 128,
        note_off_bytes(channel, a)[2] == 0,
        cc_bytes(channel, a, b).len() == 3,
        cc_bytes(channel, a, b)[0] / 16 == 11,
        cc_bytes(channel, a, b)[0] % 16 == channel % 16,
        cc_bytes(channel, a, b)[1] == a % 128,
        cc_bytes(channel, a, b)[2] == b % 128,
{
}

} // verus!
