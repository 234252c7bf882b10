use vstd::prelude::*;
use crate::instrument::Instrument;
use crate::harp_counts::{frame_counts_notes, notes_inside};
use crate::tuning::{
    advance_note_id, next_note_id, octave_from_zone, octave_of_zone, string_note, string_note_for,
    transpose_ok, N_STRINGS,
};

verus! {

/// What one fingertip remembers about one string: whether it was inside the
/// string's band on the last frame, and the note it started there.
#[derive(Copy, Clone, Debug, PartialEq, Eq, Structural)]
pub struct StringSlot {
    pub inside: bool,
    /// Id of the note this finger is sounding on the string; 0 for none.
    pub note_id: u64,
    /// Note number captured when the string was struck, so that the
    /// note-off names the same key even if the hand has moved.
    pub midi: u8,
    /// MIDI channel the note was sent on.
    pub channel: u8,
}

/// Per-finger state, keyed by (hand id, finger index).
#[derive(Copy, Clone, Debug)]
pub struct FingerState {
    pub hand_id: u32,
    pub finger: u8,
    pub slots: [StringSlot; 5],
}

/// Mathematical model of a [`FingerState`].
pub struct FingerModel {
    pub hand_id: u32,
    pub finger: u8,
    pub slots: Seq<StringSlot>,
}

impl View for FingerState {
    type V = FingerModel;

    open spec fn view(&self) -> FingerModel {
        FingerModel { hand_id: self.hand_id, finger: self.finger, slots: self.slots@ }
    }
}

/// One fingertip in one tracking frame: whether the finger is extended,
/// for each string whether the tip is within the string's band, and the
/// tip's horizontal position in octave-zone widths, rounded.
#[derive(Copy, Clone, Debug)]
pub struct FingerInput {
    pub extended: bool,
    pub in_band: [bool; 5],
    pub octave_zone: i32,
}

/// One tracked hand in one frame.
#[derive(Copy, Clone, Debug)]
pub struct HandInput {
    pub id: u32,
    /// Chirality after the user's left/right swap.
    pub is_left: bool,
    /// Thumb, index, middle, ring, pinky.
    pub fingers: [FingerInput; 5],
}

/// Player settings that shape the notes of a frame.
#[derive(Copy, Clone, Debug)]
pub struct PlayParams {
    pub transpose: i32,
    pub left: Instrument,
    pub right: Instrument,
}

impl PlayParams {
    /// Start-up settings: no transposition, FM bell on the left hand, pluck
    /// on the right.
    pub fn initial() -> (p: PlayParams)
        ensures
            p.transpose == 0,
            p.left == Instrument::FmBell,
            p.right == Instrument::Pluck,
    {
        PlayParams { transpose: 0, left: Instrument::FmBell, right: Instrument::Pluck }
    }
}

/// Tracks the pinch-driven sustain pedal so that the synth hears about
/// each change once.
pub struct SustainPedal {
    pub down: bool,
}

impl SustainPedal {
    pub fn new() -> (p: SustainPedal)
        ensures
            !p.down,
    {
        SustainPedal { down: false }
    }

    /// Records whether any hand is pinching now; returns the new pedal state
    /// when it differs from the last one reported.
    pub fn update(&mut self, pinching: bool) -> (change: Option<bool>)
        ensures
            final(self).down == pinching,
            change == (if pinching != old(self).down { Some(pinching) } else { None::<bool> }),
    {
        if pinching != self.down {
            self.down = pinching;
            Some(pinching)
        } else {
            None
        }
    }
}

/// A note event for the synth and the MIDI port.
#[derive(Copy, Clone, Debug, PartialEq, Eq, Structural)]
pub enum HarpAction {
    /// Start note `id`; `hand` is the index of the hand in the frame's
    /// input and `finger` the finger that struck.
    NoteOn { id: u64, midi: u8, channel: u8, instrument: Instrument, string: usize, hand: usize, finger: usize },
    /// Stop note `id`, which was started with this key and channel.
    NoteOff { id: u64, midi: u8, channel: u8, string: usize },
}

/// The result of one tracking frame.
pub struct FrameOutput {
    /// Note events, in the order they are to be sent.
    pub actions: Vec<HarpAction>,
    /// Strings struck by at least one note-on this frame.
    pub struck: [bool; 5],
}

/// State of the harp between tracking frames.
pub struct Harp {
    entries: Vec<FingerState>,
    next_note_id: u64,
    active: [u8; 5],
}

/// Model of the harp's finger table and note-id counter.
pub struct HarpModel {
    pub entries: Seq<FingerModel>,
    pub next: u64,
}

pub open spec fn entries_view(es: Seq<FingerState>) -> Seq<FingerModel> {
    es.map_values(|e: FingerState| e@)
}

pub open spec fn fresh_slot() -> StringSlot {
    StringSlot { inside: false, note_id: 0, midi: 0, channel: 0 }
}

pub open spec fn fresh_finger(hand_id: u32, finger: u8) -> FingerModel {
    FingerModel { hand_id, finger, slots: Seq::new(5, |i: int| fresh_slot()) }
}

/// Right hand plays on channel 0, left hand on channel 1.
pub open spec fn channel_for(is_left: bool) -> u8 {
    if is_left {
        1
    } else {
        0
    }
}

pub open spec fn instrument_for(is_left: bool, p: PlayParams) -> Instrument {
    if is_left {
        p.left
    } else {
        p.right
    }
}

/// The note a finger starts on string `s`.
pub open spec fn struck_note(hand: HandInput, fi: int, s: int, p: PlayParams) -> u8 {
    string_note(s, octave_of_zone(hand.fingers@[fi].octave_zone as int), p.transpose as int) as u8
}

/// Only an extended finger plays: a curled finger touches no string.
pub open spec fn touching(hand: HandInput, fi: int, s: int) -> bool {
    hand.fingers@[fi].extended && hand.fingers@[fi].in_band@[s]
}

/// One finger meets one string. Entering the band strikes the string with
/// a fresh note id; leaving it stops the note the finger started there;
/// staying in or out does nothing.
pub open spec fn string_step(
    slots: Seq<StringSlot>,
    acts: Seq<HarpAction>,
    next: u64,
    hand: HandInput,
    hi: int,
    fi: int,
    s: int,
    p: PlayParams,
) -> (Seq<StringSlot>, Seq<HarpAction>, u64) {
    let slot = slots[s];
    let now = touching(hand, fi, s);
    if now && !slot.inside {
        let midi = struck_note(hand, fi, s, p);
        let channel = channel_for(hand.is_left);
        (
            slots.update(s, StringSlot { inside: true, note_id: next, midi, channel }),
            acts.push(
                HarpAction::NoteOn {
                    id: next,
                    midi,
                    channel,
                    instrument: instrument_for(hand.is_left, p),
                    string: s as usize,
                    hand: hi as usize,
                    finger: fi as usize,
                },
            ),
            next_note_id(next),
        )
    } else if !now && slot.inside && slot.note_id != 0 {
        (
            slots.update(s, StringSlot { inside: false, note_id: 0, ..slot }),
            acts.push(
                HarpAction::NoteOff {
                    id: slot.note_id,
                    midi: slot.midi,
                    channel: slot.channel,
                    string: s as usize,
                },
            ),
            next,
        )
    } else {
        (slots.update(s, StringSlot { inside: now, ..slot }), acts, next)
    }
}

/// A finger meets strings 0..k in order.
pub open spec fn strings_fold(
    slots: Seq<StringSlot>,
    acts: Seq<HarpAction>,
    next: u64,
    hand: HandInput,
    hi: int,
    fi: int,
    p: PlayParams,
    k: nat,
) -> (Seq<StringSlot>, Seq<HarpAction>, u64)
    decreases k,
{
    if k == 0 {
        (slots, acts, next)
    } else {
        let r = strings_fold(slots, acts, next, hand, hi, fi, p, (k - 1) as nat);
        string_step(r.0, r.1, r.2, hand, hi, fi, k - 1, p)
    }
}

pub open spec fn has_key(e: FingerModel, hand_id: u32, fi: int) -> bool {
    e.hand_id == hand_id && e.finger == fi
}

/// Where the finger table keeps the entry for (hand_id, fi); -1 if nowhere.
pub open spec fn key_index(es: Seq<FingerModel>, hand_id: u32, fi: int) -> int {
    if exists|i: int| 0 <= i < es.len() && has_key(#[trigger] es[i], hand_id, fi) {
        choose|i: int| 0 <= i < es.len() && has_key(#[trigger] es[i], hand_id, fi)
    } else {
        -1
    }
}

pub open spec fn keys_unique(es: Seq<FingerModel>) -> bool {
    forall|i: int, j: int|
        0 <= i < es.len() && 0 <= j < es.len() && i != j ==> !has_key(
            #[trigger] es[i],
            (#[trigger] es[j]).hand_id,
            es[j].finger as int,
        )
}

pub open spec fn slots_wf(es: Seq<FingerModel>) -> bool {
    forall|i: int| 0 <= i < es.len() ==> (#[trigger] es[i]).slots.len() == 5
}

/// One finger of one hand plays: its entry is looked up (or created fresh)
/// and it meets every string.
pub open spec fn finger_step(
    m: HarpModel,
    acts: Seq<HarpAction>,
    hand: HandInput,
    hi: int,
    fi: int,
    p: PlayParams,
) -> (HarpModel, Seq<HarpAction>) {
    let i = key_index(m.entries, hand.id, fi);
    let es = if i < 0 {
        m.entries.push(fresh_finger(hand.id, fi as u8))
    } else {
        m.entries
    };
    let idx = if i < 0 {
        m.entries.len() as int
    } else {
        i
    };
    let r = strings_fold(es[idx].slots, acts, m.next, hand, hi, fi, p, 5);
    (HarpModel { entries: es.update(idx, FingerModel { slots: r.0, ..es[idx] }), next: r.2 }, r.1)
}

pub open spec fn fingers_fold(
    m: HarpModel,
    acts: Seq<HarpAction>,
    hand: HandInput,
    hi: int,
    p: PlayParams,
    k: nat,
) -> (HarpModel, Seq<HarpAction>)
    decreases k,
{
    if k == 0 {
        (m, acts)
    } else {
        let r = fingers_fold(m, acts, hand, hi, p, (k - 1) as nat);
        finger_step(r.0, r.1, hand, hi, k - 1, p)
    }
}

pub open spec fn hands_fold(
    m: HarpModel,
    acts: Seq<HarpAction>,
    hands: Seq<HandInput>,
    p: PlayParams,
    k: nat,
) -> (HarpModel, Seq<HarpAction>)
    decreases k,
{
    if k == 0 {
        (m, acts)
    } else {
        let r = hands_fold(m, acts, hands, p, (k - 1) as nat);
        fingers_fold(r.0, r.1, hands[k - 1], k - 1, p, 5)
    }
}

/// Whether a hand with this id is in the frame.
pub open spec fn live(hands: Seq<HandInput>, hand_id: u32) -> bool {
    exists|h: int| 0 <= h < hands.len() && (#[trigger] hands[h]).id == hand_id
}

/// Note-offs for every note a forgotten finger still sounds, strings 0..k.
pub open spec fn offs_fold(e: FingerModel, acts: Seq<HarpAction>, k: nat) -> Seq<HarpAction>
    decreases k,
{
    if k == 0 {
        acts
    } else {
        let a = offs_fold(e, acts, (k - 1) as nat);
        let slot = e.slots[k - 1];
        if slot.note_id != 0 {
            a.push(
                HarpAction::NoteOff {
                    id: slot.note_id,
                    midi: slot.midi,
                    channel: slot.channel,
                    string: (k - 1) as usize,
                },
            )
        } else {
            a
        }
    }
}

/// Entries 0..k of the finger table with the fingers of hands that left the
/// frame dropped, and the note-offs their sounding notes need.
pub open spec fn retain_fold(es: Seq<FingerModel>, hands: Seq<HandInput>, k: nat) -> (
    Seq<FingerModel>,
    Seq<HarpAction>,
)
    decreases k,
{
    if k == 0 {
        (Seq::empty(), Seq::empty())
    } else {
        let r = retain_fold(es, hands, (k - 1) as nat);
        let e = es[k - 1];
        if live(hands, e.hand_id) {
            (r.0.push(e), r.1)
        } else {
            (r.0, offs_fold(e, r.1, 5))
        }
    }
}

/// One tracking frame: fingers of vanished hands let go of their notes and
/// are forgotten, then every finger of every hand meets every string.
pub open spec fn frame(m: HarpModel, hands: Seq<HandInput>, p: PlayParams) -> (HarpModel, Seq<HarpAction>) {
    let r = retain_fold(m.entries, hands, m.entries.len());
    hands_fold(HarpModel { entries: r.0, next: m.next }, r.1, hands, p, hands.len())
}

/// Note-ons minus note-offs on string `s`.
pub open spec fn string_delta(acts: Seq<HarpAction>, s: int) -> int
    decreases acts.len(),
{
    if acts.len() == 0 {
        0
    } else {
        string_delta(acts.drop_last(), s) + match acts.last() {
            HarpAction::NoteOn { string, .. } => if string == s {
                1int
            } else {
                0int
            },
            HarpAction::NoteOff { string, .. } => if string == s {
                -1int
            } else {
                0int
            },
        }
    }
}

pub open spec fn is_note_on_at(a: HarpAction, s: int) -> bool {
    match a {
        HarpAction::NoteOn { string, .. } => string == s,
        _ => false,
    }
}

pub open spec fn struck_string(acts: Seq<HarpAction>, s: int) -> bool {
    exists|i: int| 0 <= i < acts.len() && is_note_on_at(#[trigger] acts[i], s)
}

/// Count of fingers sounding on a string after a frame: the old count plus
/// the frame's note-ons minus its note-offs, floored at zero and kept in a
/// byte (modulo 256).
pub open spec fn next_active(count: u8, delta: int) -> u8 {
    if count + delta < 0 {
        0
    } else {
        ((count + delta) % 256) as u8
    }
}

/// Every finger's octave zone leaves room for the zone arithmetic.
pub open spec fn zones_ok(hands: Seq<HandInput>) -> bool {
    forall|h: int, f: int|
        0 <= h < hands.len() && 0 <= f < 5 ==> (#[trigger] hands[h].fingers@[f]).octave_zone <= i32::MAX - 2
}

/// Plays strings 0..5 for one finger.
fn play_strings(
    slots: &mut [StringSlot; 5],
    next: &mut u64,
    acts: &mut Vec<HarpAction>,
    hand: &HandInput,
    hi: usize,
    fi: usize,
    p: &PlayParams,
)
    requires
        fi < 5,
        hand.fingers@[fi as int].octave_zone <= i32::MAX - 2,
        transpose_ok(p.transpose),
    ensures
        (final(slots)@, final(acts)@, *final(next)) == strings_fold(
            old(slots)@,
            old(acts)@,
            *old(next),
            *hand,
            hi as int,
            fi as int,
            *p,
            5,
        ),
{
    let ghost s0 = old(slots)@;
    let ghost a0 = old(acts)@;
    let ghost n0 = *old(next);
    let finger = hand.fingers[fi];
    let mut s: usize = 0;
    while s < N_STRINGS
        invariant
            s <= 5,
            fi < 5,
            finger == hand.fingers@[fi as int],
            finger.octave_zone <= i32::MAX - 2,
            transpose_ok(p.transpose),
            (slots@, acts@, *next) == strings_fold(s0, a0, n0, *hand, hi as int, fi as int, *p, s as nat),
        decreases 5 - s,
    {
        let ghost pre = (slots@, acts@, *next);
        let slot = slots[s];
        let now = finger.extended && finger.in_band[s];
        if now && !slot.inside {
            let octave = octave_from_zone(finger.octave_zone);
            let midi = string_note_for(s, octave, p.transpose);
            let channel: u8 = if hand.is_left {
                1
            } else {
                0
            };
            let instrument = if hand.is_left {
                p.left
            } else {
                p.right
            };
            let id = *next;
            slots[s] = StringSlot { inside: true, note_id: id, midi, channel };
            acts.push(HarpAction::NoteOn { id, midi, channel, instrument, string: s, hand: hi, finger: fi });
            *next = advance_note_id(id);
        } else if !now && slot.inside && slot.note_id != 0 {
            slots[s] = StringSlot { inside: false, note_id: 0, ..slot };
            acts.push(
                HarpAction::NoteOff {
                    id: slot.note_id,
                    midi: slot.midi,
                    channel: slot.channel,
                    string: s,
                },
            );
        } else {
            slots[s] = StringSlot { inside: now, ..slot };
        }
        assert((slots@, acts@, *next) == string_step(pre.0, pre.1, pre.2, *hand, hi as int, fi as int, s as int, *p)) by {
            let r = string_step(pre.0, pre.1, pre.2, *hand, hi as int, fi as int, s as int, *p);
            assert(slots@ =~= r.0);
            assert(acts@ =~= r.1);
        }
        s = s + 1;
    }
}


/// The finger table's entry for (hand_id, fi), if any.
fn find_entry(entries: &Vec<FingerState>, hand_id: u32, fi: u8) -> (r: Option<usize>)
    requires
        keys_unique(entries_view(entries@)),
    ensures
        match r {
            Some(i) => i < entries.len() && key_index(entries_view(entries@), hand_id, fi as int) == i,
            None => key_index(entries_view(entries@), hand_id, fi as int) == -1,
        },
{
    let ghost es = entries_view(entries@);
    let n = entries.len();
    let mut i: usize = 0;
    while i < n
        invariant
            n == entries.len(),
            es == entries_view(entries@),
            keys_unique(es),
            i <= n,
            forall|j: int| 0 <= j < i ==> !has_key(#[trigger] es[j], hand_id, fi as int),
        decreases n - i,
    {
        if entries[i].hand_id == hand_id && entries[i].finger == fi {
            assert(has_key(es[i as int], hand_id, fi as int));
            let ghost c = choose|c: int| 0 <= c < es.len() && has_key(#[trigger] es[c], hand_id, fi as int);
            assert(c == i) by {
                if c != i {
                    assert(!has_key(es[c], es[i as int].hand_id, es[i as int].finger as int));
                }
            }
            return Some(i);
        }
        i = i + 1;
    }
    None
}

/// Whether a hand with this id is in the frame.
fn is_live(hands: &Vec<HandInput>, hand_id: u32) -> (r: bool)
    ensures
        r == live(hands@, hand_id),
{
    let n = hands.len();
    let mut i: usize = 0;
    while i < n
        invariant
            n == hands.len(),
            i <= n,
            forall|j: int| 0 <= j < i ==> (#[trigger] hands@[j]).id != hand_id,
        decreases n - i,
    {
        if hands[i].id == hand_id {
            assert(hands@[i as int].id == hand_id);
            return true;
        }
        i = i + 1;
    }
    false
}

/// Appends the note-offs for every note a finger is sounding.
fn push_offs(e: &FingerState, acts: &mut Vec<HarpAction>)
    ensures
        final(acts)@ == offs_fold(e@, old(acts)@, 5),
{
    let ghost a0 = old(acts)@;
    let mut s: usize = 0;
    while s < N_STRINGS
        invariant
            s <= 5,
            acts@ == offs_fold(e@, a0, s as nat),
        decreases 5 - s,
    {
        let slot = e.slots[s];
        if slot.note_id != 0 {
            acts.push(HarpAction::NoteOff { id: slot.note_id, midi: slot.midi, channel: slot.channel, string: s });
        }
        s = s + 1;
    }
}

pub(crate) open spec fn drawn_from(es: Seq<FingerModel>, k: int, x: FingerModel) -> bool {
    exists|j: int| 0 <= j < k && x == #[trigger] es[j]
}

/// What is kept of a unique-keyed table stays unique-keyed, and consists of
/// entries of the table it was cut from.
pub(crate) proof fn lemma_retain_unique(es: Seq<FingerModel>, hands: Seq<HandInput>, k: nat)
    requires
        keys_unique(es),
        k <= es.len(),
    ensures
        keys_unique(retain_fold(es, hands, k).0),
        forall|a: int|
            0 <= a < retain_fold(es, hands, k).0.len() ==> drawn_from(es, k as int, #[trigger] retain_fold(es, hands, k).0[a]),
    decreases k,
{
    if k > 0 {
        lemma_retain_unique(es, hands, (k - 1) as nat);
        let r = retain_fold(es, hands, (k - 1) as nat);
        let e = es[k - 1];
        if live(hands, e.hand_id) {
            let r2 = r.0.push(e);
            assert forall|a: int| 0 <= a < r2.len() implies drawn_from(es, k as int, #[trigger] r2[a]) by {
                if a < r.0.len() {
                    assert(drawn_from(es, k - 1, r.0[a]));
                    let j = choose|j: int| 0 <= j < k - 1 && r.0[a] == #[trigger] es[j];
                    assert(r2[a] == es[j]);
                } else {
                    assert(r2[a] == es[k - 1]);
                }
            }
            assert forall|x: int, y: int| 0 <= x < r2.len() && 0 <= y < r2.len() && x != y implies !has_key(
                #[trigger] r2[x],
                (#[trigger] r2[y]).hand_id,
                r2[y].finger as int,
            ) by {
                if x < r.0.len() && y < r.0.len() {
                    assert(r2[x] == r.0[x] && r2[y] == r.0[y]);
                } else if x < r.0.len() {
                    assert(drawn_from(es, k - 1, r.0[x]));
                    let j = choose|j: int| 0 <= j < k - 1 && r.0[x] == #[trigger] es[j];
                    assert(r2[x] == es[j]);
                    assert(r2[y] == es[k - 1]);
                } else {
                    assert(drawn_from(es, k - 1, r.0[y]));
                    let j = choose|j: int| 0 <= j < k - 1 && r.0[y] == #[trigger] es[j];
                    assert(r2[y] == es[j]);
                    assert(r2[x] == es[k - 1]);
                }
            }
        }
    }
}

/// The note-id counter never reaches 0.
proof fn lemma_strings_next_nonzero(
    slots: Seq<StringSlot>,
    acts: Seq<HarpAction>,
    next: u64,
    hand: HandInput,
    hi: int,
    fi: int,
    p: PlayParams,
    k: nat,
)
    requires
        next != 0,
    ensures
        strings_fold(slots, acts, next, hand, hi, fi, p, k).2 != 0,
    decreases k,
{
    if k > 0 {
        lemma_strings_next_nonzero(slots, acts, next, hand, hi, fi, p, (k - 1) as nat);
    }
}

pub open spec fn model_wf(m: HarpModel) -> bool {
    keys_unique(m.entries) && slots_wf(m.entries) && m.next != 0
}

impl View for Harp {
    type V = HarpModel;

    closed spec fn view(&self) -> HarpModel {
        HarpModel { entries: entries_view(self.entries@), next: self.next_note_id }
    }
}

impl Harp {
    /// Per-string count of fingers currently sounding a note there.
    pub closed spec fn active_spec(&self) -> Seq<u8> {
        self.active@
    }

    pub open spec fn wf(&self) -> bool {
        model_wf(self@)
    }

    /// Well formed, and every held note belongs to a finger inside its
    /// string's band.
    pub open spec fn inv(&self) -> bool {
        self.wf() && notes_inside(self@.entries)
    }

    /// A harp that no finger has touched yet; note ids start at 1.
    pub fn new() -> (h: Harp)
        ensures
            h.inv(),
            h@.entries.len() == 0,
            h@.next == 1,
            h.active_spec() == seq![0u8, 0u8, 0u8, 0u8, 0u8],
    {
        let h = Harp { entries: Vec::new(), next_note_id: 1, active: [0u8, 0u8, 0u8, 0u8, 0u8] };
        assert(h.active@ =~= seq![0u8, 0u8, 0u8, 0u8, 0u8]);
        assert(h@.entries =~= Seq::<FingerModel>::empty());
        h
    }

    /// Per-string count of fingers currently sounding a note there.
    pub fn active_counts(&self) -> (r: [u8; 5])
        ensures
            r@ == self.active_spec(),
    {
        self.active
    }

    /// Drops the fingers of hands that are not in the frame, returning the
    /// note-offs for the notes they still sounded.
    fn drop_lost_hands(&mut self, hands: &Vec<HandInput>) -> (acts: Vec<HarpAction>)
        requires
            old(self).wf(),
        ensures
            final(self)@.entries == retain_fold(old(self)@.entries, hands@, old(self)@.entries.len()).0,
            acts@ == retain_fold(old(self)@.entries, hands@, old(self)@.entries.len()).1,
            final(self)@.next == old(self)@.next,
            final(self).active_spec() == old(self).active_spec(),
            final(self).wf(),
    {
        let ghost es = old(self)@.entries;
        let mut kept: Vec<FingerState> = Vec::new();
        let mut acts: Vec<HarpAction> = Vec::new();
        let n = self.entries.len();
        let mut k: usize = 0;
        while k < n
            invariant
                n == self.entries.len(),
                es == entries_view(self.entries@),
                k <= n,
                (entries_view(kept@), acts@) == retain_fold(es, hands@, k as nat),
            decreases n - k,
        {
            let e = self.entries[k];
            assert(es[k as int] == e@);
            if is_live(hands, e.hand_id) {
                let ghost before = kept@;
                kept.push(e);
                assert(entries_view(kept@) =~= entries_view(before).push(e@));
            } else {
                push_offs(&e, &mut acts);
            }
            k = k + 1;
        }
        proof {
            lemma_retain_unique(es, hands@, n as nat);
        }
        self.entries = kept;
        acts
    }

    /// One finger of one hand plays every string.
    fn play_finger(
        &mut self,
        acts: &mut Vec<HarpAction>,
        hand: &HandInput,
        hi: usize,
        fi: usize,
        p: &PlayParams,
    )
        requires
            old(self).wf(),
            fi < 5,
            hand.fingers@[fi as int].octave_zone <= i32::MAX - 2,
            transpose_ok(p.transpose),
        ensures
            (final(self)@, final(acts)@) == finger_step(old(self)@, old(acts)@, *hand, hi as int, fi as int, *p),
            final(self).active_spec() == old(self).active_spec(),
            final(self).wf(),
    {
        let ghost m0 = self@;
        let ghost es0 = m0.entries;
        let fin = fi as u8;
        let found = find_entry(&self.entries, hand.id, fin);
        let idx = match found {
            Some(i) => i,
            None => {
                let fresh = StringSlot { inside: false, note_id: 0, midi: 0, channel: 0 };
                let e = FingerState { hand_id: hand.id, finger: fin, slots: [fresh, fresh, fresh, fresh, fresh] };
                assert(e@ == fresh_finger(hand.id, fin)) by {
                    assert(e.slots@ =~= Seq::new(5, |i: int| fresh_slot()));
                }
                let ghost before = self.entries@;
                self.entries.push(e);
                assert(entries_view(self.entries@) =~= es0.push(fresh_finger(hand.id, fin)));
                self.entries.len() - 1
            },
        };
        let ghost es1 = self@.entries;
        let mut e = self.entries[idx];
        assert(e@ == es1[idx as int]);
        play_strings(&mut e.slots, &mut self.next_note_id, acts, hand, hi, fi, p);
        self.entries.set(idx, e);
        assert(entries_view(self.entries@) =~= es1.update(idx as int, e@));
        assert(self@.entries =~= es1.update(idx as int, FingerModel { slots: e.slots@, ..es1[idx as int] }));
        proof {
            let es2 = self@.entries;
            assert forall|x: int, y: int| 0 <= x < es2.len() && 0 <= y < es2.len() && x != y implies !has_key(
                #[trigger] es2[x],
                (#[trigger] es2[y]).hand_id,
                es2[y].finger as int,
            ) by {
                assert(es2[x].hand_id == es1[x].hand_id && es2[x].finger == es1[x].finger);
                assert(es2[y].hand_id == es1[y].hand_id && es2[y].finger == es1[y].finger);
                if found is None {
                    if x < es0.len() && y < es0.len() {
                        assert(es1[x] == es0[x] && es1[y] == es0[y]);
                    } else if x < es0.len() {
                        assert(es1[x] == es0[x]);
                        assert(!has_key(es0[x], hand.id, fi as int));
                    } else {
                        assert(es1[y] == es0[y]);
                        assert(!has_key(es0[y], hand.id, fi as int));
                    }
                }
            }
            lemma_strings_next_nonzero(es1[idx as int].slots, old(acts)@, m0.next, *hand, hi as int, fi as int, *p, 5);
        }
    }

    /// Every finger of one hand plays every string.
    fn play_hand(&mut self, acts: &mut Vec<HarpAction>, hand: &HandInput, hi: usize, p: &PlayParams)
        requires
            old(self).wf(),
            forall|f: int| 0 <= f < 5 ==> (#[trigger] hand.fingers@[f]).octave_zone <= i32::MAX - 2,
            transpose_ok(p.transpose),
        ensures
            (final(self)@, final(acts)@) == fingers_fold(old(self)@, old(acts)@, *hand, hi as int, *p, 5),
            final(self).active_spec() == old(self).active_spec(),
            final(self).wf(),
    {
        let ghost m0 = self@;
        let ghost a0 = acts@;
        let mut fi: usize = 0;
        while fi < 5
            invariant
                fi <= 5,
                self.wf(),
                self.active_spec() == old(self).active_spec(),
                forall|f: int| 0 <= f < 5 ==> (#[trigger] hand.fingers@[f]).octave_zone <= i32::MAX - 2,
                transpose_ok(p.transpose),
                (self@, acts@) == fingers_fold(m0, a0, *hand, hi as int, *p, fi as nat),
            decreases 5 - fi,
        {
            assert(hand.fingers@[fi as int].octave_zone <= i32::MAX - 2);
            self.play_finger(acts, hand, hi, fi, p);
            fi = fi + 1;
        }
    }

    /// Processes one tracking frame.
    ///
    /// Fingers of hands missing from `hands` release their notes and are
    /// forgotten. Then, hand by hand and finger by finger, each string is
    /// checked: a finger entering a string's band strikes it (a note-on with
    /// a fresh id, on channel 1 for the left hand and 0 for the right, at
    /// the string's note shifted by the hand's octave zone and `transpose`);
    /// a finger leaving the band stops the note it started there. The
    /// per-string sounding counts follow the note-ons and note-offs.
    pub fn process_frame(&mut self, hands: &Vec<HandInput>, p: PlayParams) -> (out: FrameOutput)
        requires
            old(self).inv(),
            transpose_ok(p.transpose),
            zones_ok(hands@),
        ensures
            final(self).inv(),
            final(self)@ == frame(old(self)@, hands@, p).0,
            out.actions@ == frame(old(self)@, hands@, p).1,
            forall|s: int|
                0 <= s < 5 ==> #[trigger] final(self).active_spec()[s] == next_active(
                    old(self).active_spec()[s],
                    string_delta(out.actions@, s),
                ),
            final(self).active_spec().len() == 5,
            forall|s: int| 0 <= s < 5 ==> #[trigger] out.struck@[s] == struck_string(out.actions@, s),
    {
        let ghost m0 = self@;
        proof {
            frame_counts_notes(m0, hands@, p);
        }
        let mut acts = self.drop_lost_hands(hands);
        let ghost m1 = self@;
        let ghost a1 = acts@;
        let n = hands.len();
        let mut hi: usize = 0;
        while hi < n
            invariant
                n == hands.len(),
                hi <= n,
                self.wf(),
                self.active_spec() == old(self).active_spec(),
                transpose_ok(p.transpose),
                zones_ok(hands@),
                (self@, acts@) == hands_fold(m1, a1, hands@, p, hi as nat),
            decreases n - hi,
        {
            let hand = hands[hi];
            assert forall|f: int| 0 <= f < 5 implies (#[trigger] hand.fingers@[f]).octave_zone <= i32::MAX - 2 by {
                assert(hands@[hi as int].fingers@[f].octave_zone <= i32::MAX - 2);
            }
            self.play_hand(&mut acts, &hand, hi, &p);
            hi = hi + 1;
        }
        assert(m1 == HarpModel { entries: retain_fold(m0.entries, hands@, m0.entries.len()).0, next: m0.next });
        let mut struck = [false, false, false, false, false];
        let mut s: usize = 0;
        while s < N_STRINGS
            invariant
                s <= 5,
                self.wf(),
                self@ == frame(m0, hands@, p).0,
                forall|t: int| 0 <= t < s ==> #[trigger] self.active@[t] == next_active(
                    old(self).active@[t],
                    string_delta(acts@, t),
                ),
                forall|t: int| s <= t < 5 ==> #[trigger] self.active@[t] == old(self).active@[t],
                forall|t: int| 0 <= t < s ==> #[trigger] struck@[t] == struck_string(acts@, t),
            decreases 5 - s,
        {
            let (d, hit) = tally(&acts, s);
            let v: i128 = self.active[s] as i128 + d;
            self.active[s] = if v < 0 {
                0
            } else {
                (v % 256) as u8
            };
            struck[s] = hit;
            s = s + 1;
        }
        FrameOutput { actions: acts, struck }
    }
}

/// Net note count change on string `s` (note-ons minus note-offs), and
/// whether any note-on struck it.
fn tally(acts: &Vec<HarpAction>, s: usize) -> (r: (i128, bool))
    ensures
        r.0 == string_delta(acts@, s as int),
        -(acts.len() as int) <= r.0 <= acts.len(),
        r.1 == struck_string(acts@, s as int),
{
    let n = acts.len();
    let mut d: i128 = 0;
    let mut hit = false;
    let mut k: usize = 0;
    while k < n
        invariant
            n == acts.len(),
            k <= n,
            d == string_delta(acts@.take(k as int), s as int),
            -(k as int) <= d <= k,
            hit == exists|i: int| 0 <= i < k && is_note_on_at(#[trigger] acts@[i], s as int),
        decreases n - k,
    {
        assert(acts@.take(k + 1).drop_last() =~= acts@.take(k as int));
        assert(acts@.take(k + 1).last() == acts@[k as int]);
        match acts[k] {
            HarpAction::NoteOn { string, .. } => {
                if string == s {
                    d = d + 1;
                    hit = true;
                }
            },
            HarpAction::NoteOff { string, .. } => {
                if string == s {
                    d = d - 1;
                }
            },
        }
        k = k + 1;
    }
    assert(acts@.take(n as int) =~= acts@);
    (d, hit)
}

} // verus!
