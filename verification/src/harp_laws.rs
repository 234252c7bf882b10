use vstd::prelude::*;
use crate::harp::{
    channel_for, fingers_fold, finger_step, frame, fresh_finger, hands_fold, instrument_for, key_index,
    offs_fold, retain_fold, string_step, strings_fold, FingerModel, HandInput, HarpAction, HarpModel,
    PlayParams, StringSlot, touching, fresh_slot, struck_note, model_wf, slots_wf, drawn_from, lemma_retain_unique, has_key, live, keys_unique,
};
use crate::tuning::{octave_of_zone, string_note};
use crate::instrument::Instrument;

verus! {

/// An action the harp may emit for this frame: note-ons carry a real id, a
/// MIDI key (the struck string's note at the finger's octave), the finger
/// that struck, which is extended and inside that string's band, and the
/// channel and instrument of its hand;
/// note-offs carry a real id; every action names one of the strings.
pub open spec fn action_ok(a: HarpAction, hands: Seq<HandInput>, p: PlayParams) -> bool {
    match a {
        HarpAction::NoteOn { id, midi, channel, instrument, string, hand, finger } => {
            &&& id != 0
            &&& midi <= 127
            &&& string < 5
            &&& hand < hands.len()
            &&& finger < 5
            &&& hands[hand as int].fingers@[finger as int].extended
            &&& hands[hand as int].fingers@[finger as int].in_band@[string as int]
            &&& midi == string_note(
                string as int,
                octave_of_zone(hands[hand as int].fingers@[finger as int].octave_zone as int),
                p.transpose as int,
            ) as u8
            &&& channel == (if hands[hand as int].is_left { 1u8 } else { 0u8 })
            &&& instrument == (if hands[hand as int].is_left { p.left } else { p.right })
        },
        HarpAction::NoteOff { id, string, .. } => id != 0 && string < 5,
    }
}

pub open spec fn all_ok(acts: Seq<HarpAction>, hands: Seq<HandInput>, p: PlayParams) -> bool {
    forall|j: int| 0 <= j < acts.len() ==> action_ok(#[trigger] acts[j], hands, p)
}

proof fn lemma_strings_ok(
    slots: Seq<StringSlot>,
    acts: Seq<HarpAction>,
    next: u64,
    hands: Seq<HandInput>,
    hi: int,
    fi: int,
    p: PlayParams,
    k: nat,
)
    requires
        all_ok(acts, hands, p),
        next != 0,
        0 <= hi < hands.len(),
        hands.len() <= usize::MAX,
        0 <= fi < 5,
        k <= 5,
    ensures
        all_ok(strings_fold(slots, acts, next, hands[hi], hi, fi, p, k).1, hands, p),
        strings_fold(slots, acts, next, hands[hi], hi, fi, p, k).2 != 0,
    decreases k,
{
    if k > 0 {
        lemma_strings_ok(slots, acts, next, hands, hi, fi, p, (k - 1) as nat);
        let r = strings_fold(slots, acts, next, hands[hi], hi, fi, p, (k - 1) as nat);
        let r2 = string_step(r.0, r.1, r.2, hands[hi], hi, fi, k - 1, p);
        let n = string_note(k - 1, octave_of_zone(hands[hi].fingers@[fi].octave_zone as int), p.transpose as int);
        assert(0 <= n <= 127);
        assert((n as u8) as int == n);
        assert(hands[(hi as usize) as int] == hands[hi]);
        assert forall|j: int| 0 <= j < r2.1.len() implies action_ok(#[trigger] r2.1[j], hands, p) by {
            if j < r.1.len() {
                assert(r2.1[j] == r.1[j]);
            }
        }
    }
}


proof fn lemma_fingers_ok(m: HarpModel, acts: Seq<HarpAction>, hands: Seq<HandInput>, hi: int, p: PlayParams, k: nat)
    requires
        all_ok(acts, hands, p),
        m.next != 0,
        0 <= hi < hands.len(),
        hands.len() <= usize::MAX,
        k <= 5,
    ensures
        all_ok(fingers_fold(m, acts, hands[hi], hi, p, k).1, hands, p),
        fingers_fold(m, acts, hands[hi], hi, p, k).0.next != 0,
    decreases k,
{
    if k > 0 {
        lemma_fingers_ok(m, acts, hands, hi, p, (k - 1) as nat);
        let r = fingers_fold(m, acts, hands[hi], hi, p, (k - 1) as nat);
        let fi = k - 1;
        let i = key_index(r.0.entries, hands[hi].id, fi);
        let es = if i < 0 {
            r.0.entries.push(fresh_finger(hands[hi].id, fi as u8))
        } else {
            r.0.entries
        };
        let idx = if i < 0 {
            r.0.entries.len() as int
        } else {
            i
        };
        lemma_strings_ok(es[idx].slots, r.1, r.0.next, hands, hi, fi, p, 5);
    }
}

proof fn lemma_hands_ok(m: HarpModel, acts: Seq<HarpAction>, hands: Seq<HandInput>, p: PlayParams, k: nat)
    requires
        all_ok(acts, hands, p),
        m.next != 0,
        k <= hands.len(),
        hands.len() <= usize::MAX,
    ensures
        all_ok(hands_fold(m, acts, hands, p, k).1, hands, p),
        hands_fold(m, acts, hands, p, k).0.next != 0,
    decreases k,
{
    if k > 0 {
        lemma_hands_ok(m, acts, hands, p, (k - 1) as nat);
        let r = hands_fold(m, acts, hands, p, (k - 1) as nat);
        lemma_fingers_ok(r.0, r.1, hands, k - 1, p, 5);
    }
}

proof fn lemma_offs_ok(e: FingerModel, acts: Seq<HarpAction>, hands: Seq<HandInput>, p: PlayParams, k: nat)
    requires
        all_ok(acts, hands, p),
        k <= 5,
    ensures
        all_ok(offs_fold(e, acts, k), hands, p),
    decreases k,
{
    if k > 0 {
        lemma_offs_ok(e, acts, hands, p, (k - 1) as nat);
        let a = offs_fold(e, acts, (k - 1) as nat);
        let a2 = offs_fold(e, acts, k);
        assert forall|j: int| 0 <= j < a2.len() implies action_ok(#[trigger] a2[j], hands, p) by {
            if j < a.len() {
                assert(a2[j] == a[j]);
            }
        }
    }
}

proof fn lemma_retain_ok(es: Seq<FingerModel>, hands: Seq<HandInput>, p: PlayParams, k: nat)
    requires
        k <= es.len(),
    ensures
        all_ok(retain_fold(es, hands, k).1, hands, p),
    decreases k,
{
    if k > 0 {
        lemma_retain_ok(es, hands, p, (k - 1) as nat);
        let r = retain_fold(es, hands, (k - 1) as nat);
        lemma_offs_ok(es[k - 1], r.1, hands, p, 5);
    }
}

/// Every note event of a frame is well formed: note-ons carry a nonzero
/// id, a key in 0..=127 (the string's note at the striking finger's octave
/// zone, transposed), the channel (1 for the left hand, 0 for the right)
/// and instrument of the hand that struck, and come only from an extended
/// finger inside the string's band (a curled finger is mute); note-offs
/// carry a nonzero id and a string.
pub proof fn frame_actions_well_formed(m: HarpModel, hands: Seq<HandInput>, p: PlayParams)
    requires
        model_wf(m),
        hands.len() <= usize::MAX,
    ensures
        all_ok(frame(m, hands, p).1, hands, p),
{
    lemma_retain_ok(m.entries, hands, p, m.entries.len());
    let r = retain_fold(m.entries, hands, m.entries.len());
    lemma_hands_ok(HarpModel { entries: r.0, next: m.next }, r.1, hands, p, hands.len());
}


/// Some finger of the table `es` holds note `id` with this key and channel.
pub open spec fn stored_note(es: Seq<FingerModel>, id: u64, midi: u8, channel: u8) -> bool {
    exists|i: int, s: int|
        0 <= i < es.len() && 0 <= s < 5 && (#[trigger] es[i].slots[s]).note_id == id && es[i].slots[s].midi == midi
            && es[i].slots[s].channel == channel
}

pub open spec fn is_on_with(a: HarpAction, id: u64, midi: u8, channel: u8) -> bool {
    match a {
        HarpAction::NoteOn { id: i, midi: m, channel: c, .. } => i == id && m == midi && c == channel,
        _ => false,
    }
}

/// One of the first `upto` actions started note `id` with this key and channel.
pub open spec fn started_note(acts: Seq<HarpAction>, id: u64, midi: u8, channel: u8, upto: int) -> bool {
    exists|j: int| 0 <= j < upto && is_on_with(#[trigger] acts[j], id, midi, channel)
}

/// Every note-off stops a note that was sounding: one held in the table
/// `before` the frame, or one started earlier in the same frame, with the
/// same id, key and channel.
pub open spec fn offs_matched(before: Seq<FingerModel>, acts: Seq<HarpAction>) -> bool {
    forall|j: int|
        0 <= j < acts.len() ==> match #[trigger] acts[j] {
            HarpAction::NoteOff { id, midi, channel, .. } => stored_note(before, id, midi, channel)
                || started_note(acts, id, midi, channel, j),
            _ => true,
        }
}

pub open spec fn slot_accounted(before: Seq<FingerModel>, slot: StringSlot, acts: Seq<HarpAction>) -> bool {
    slot.note_id != 0 ==> stored_note(before, slot.note_id, slot.midi, slot.channel) || started_note(
        acts,
        slot.note_id,
        slot.midi,
        slot.channel,
        acts.len() as int,
    )
}

/// Every note held in the table `es` was held `before` or started by `acts`.
pub open spec fn accounted(before: Seq<FingerModel>, es: Seq<FingerModel>, acts: Seq<HarpAction>) -> bool {
    forall|i: int, s: int| 0 <= i < es.len() && 0 <= s < 5 ==> slot_accounted(before, #[trigger] es[i].slots[s], acts)
}

pub open spec fn extends(a: Seq<HarpAction>, b: Seq<HarpAction>) -> bool {
    a.len() <= b.len() && forall|j: int| 0 <= j < a.len() ==> #[trigger] b[j] == a[j]
}

proof fn lemma_slot_accounted_extends(before: Seq<FingerModel>, slot: StringSlot, a: Seq<HarpAction>, b: Seq<HarpAction>)
    requires
        slot_accounted(before, slot, a),
        extends(a, b),
    ensures
        slot_accounted(before, slot, b),
{
    if slot.note_id != 0 && !stored_note(before, slot.note_id, slot.midi, slot.channel) {
        let j = choose|j: int| 0 <= j < a.len() && is_on_with(#[trigger] a[j], slot.note_id, slot.midi, slot.channel);
        assert(b[j] == a[j]);
    }
}

proof fn lemma_offs_matched_push(before: Seq<FingerModel>, acts: Seq<HarpAction>, x: HarpAction)
    requires
        offs_matched(before, acts),
        match x {
            HarpAction::NoteOff { id, midi, channel, .. } => stored_note(before, id, midi, channel)
                || started_note(acts, id, midi, channel, acts.len() as int),
            _ => true,
        },
    ensures
        offs_matched(before, acts.push(x)),
{
    let b = acts.push(x);
    assert forall|j: int| 0 <= j < b.len() implies match #[trigger] b[j] {
        HarpAction::NoteOff { id, midi, channel, .. } => stored_note(before, id, midi, channel)
            || started_note(b, id, midi, channel, j),
        _ => true,
    } by {
        if j < acts.len() {
            assert(b[j] == acts[j]);
            match acts[j] {
                HarpAction::NoteOff { id, midi, channel, .. } => {
                    if !stored_note(before, id, midi, channel) {
                        let w = choose|w: int| 0 <= w < j && is_on_with(#[trigger] acts[w], id, midi, channel);
                        assert(b[w] == acts[w]);
                    }
                },
                _ => {},
            }
        } else {
            match x {
                HarpAction::NoteOff { id, midi, channel, .. } => {
                    if !stored_note(before, id, midi, channel) {
                        let w = choose|w: int| 0 <= w < acts.len() && is_on_with(#[trigger] acts[w], id, midi, channel);
                        assert(b[w] == acts[w]);
                    }
                },
                _ => {},
            }
        }
    }
}

proof fn lemma_strings_accounted(
    before: Seq<FingerModel>,
    slots: Seq<StringSlot>,
    acts: Seq<HarpAction>,
    next: u64,
    hand: HandInput,
    hi: int,
    fi: int,
    p: PlayParams,
    k: nat,
)
    requires
        slots.len() == 5,
        k <= 5,
        forall|s: int| 0 <= s < 5 ==> slot_accounted(before, #[trigger] slots[s], acts),
        offs_matched(before, acts),
    ensures
        ({
            let r = strings_fold(slots, acts, next, hand, hi, fi, p, k);
            &&& r.0.len() == 5
            &&& forall|s: int| 0 <= s < 5 ==> slot_accounted(before, #[trigger] r.0[s], r.1)
            &&& offs_matched(before, r.1)
            &&& extends(acts, r.1)
        }),
    decreases k,
{
    if k > 0 {
        lemma_strings_accounted(before, slots, acts, next, hand, hi, fi, p, (k - 1) as nat);
        let r = strings_fold(slots, acts, next, hand, hi, fi, p, (k - 1) as nat);
        let r2 = string_step(r.0, r.1, r.2, hand, hi, fi, k - 1, p);
        let s0 = k - 1;
        let slot = r.0[s0];
        let x = r2.1.last();
        if r2.1.len() > r.1.len() {
            assert(r2.1 == r.1.push(x));
            lemma_offs_matched_push(before, r.1, x);
        }
        assert(extends(r.1, r2.1));
        assert forall|s: int| 0 <= s < 5 implies slot_accounted(before, #[trigger] r2.0[s], r2.1) by {
            lemma_slot_accounted_extends(before, r.0[s], r.1, r2.1);
            if s == s0 && r2.0[s].note_id != 0 && r2.1.len() > r.1.len() {
                if x is NoteOn {
                    assert(is_on_with(r2.1[r.1.len() as int], r2.0[s].note_id, r2.0[s].midi, r2.0[s].channel));
                }
            }
        }
        assert forall|j: int| 0 <= j < acts.len() implies #[trigger] r2.1[j] == acts[j] by {
            assert(r.1[j] == acts[j]);
        }
    }
}


proof fn lemma_finger_accounted(
    before: Seq<FingerModel>,
    m: HarpModel,
    acts: Seq<HarpAction>,
    hand: HandInput,
    hi: int,
    fi: int,
    p: PlayParams,
)
    requires
        slots_wf(m.entries),
        accounted(before, m.entries, acts),
        offs_matched(before, acts),
    ensures
        ({
            let r = finger_step(m, acts, hand, hi, fi, p);
            &&& slots_wf(r.0.entries)
            &&& accounted(before, r.0.entries, r.1)
            &&& offs_matched(before, r.1)
        }),
{
    let i = key_index(m.entries, hand.id, fi);
    let es = if i < 0 {
        m.entries.push(fresh_finger(hand.id, fi as u8))
    } else {
        m.entries
    };
    let idx = if i < 0 {
        m.entries.len() as int
    } else {
        i
    };
    if i >= 0 {
        assert(0 <= i < m.entries.len() && has_key(m.entries[i], hand.id, fi));
    }
    assert(slots_wf(es)) by {
        assert forall|x: int| 0 <= x < es.len() implies (#[trigger] es[x]).slots.len() == 5 by {
            if x < m.entries.len() {
                assert(es[x] == m.entries[x]);
            }
        }
    }
    assert(accounted(before, es, acts)) by {
        assert forall|x: int, s: int| 0 <= x < es.len() && 0 <= s < 5 implies slot_accounted(
            before,
            #[trigger] es[x].slots[s],
            acts,
        ) by {
            if x < m.entries.len() {
                assert(es[x] == m.entries[x]);
            }
        }
    }
    assert(0 <= idx < es.len());
    let slots = es[idx].slots;
    assert forall|s: int| 0 <= s < 5 implies slot_accounted(before, #[trigger] slots[s], acts) by {
        assert(slot_accounted(before, es[idx].slots[s], acts));
    }
    lemma_strings_accounted(before, slots, acts, m.next, hand, hi, fi, p, 5);
    let r = strings_fold(slots, acts, m.next, hand, hi, fi, p, 5);
    let es2 = es.update(idx, FingerModel { slots: r.0, ..es[idx] });
    assert forall|x: int| 0 <= x < es2.len() implies (#[trigger] es2[x]).slots.len() == 5 by {
        if x != idx {
            assert(es2[x] == es[x]);
        }
    }
    assert forall|x: int, s: int| 0 <= x < es2.len() && 0 <= s < 5 implies slot_accounted(
        before,
        #[trigger] es2[x].slots[s],
        r.1,
    ) by {
        if x != idx {
            assert(es2[x] == es[x]);
            assert(slot_accounted(before, es[x].slots[s], acts));
            lemma_slot_accounted_extends(before, es[x].slots[s], acts, r.1);
        } else {
            assert(es2[x].slots == r.0);
        }
    }
}

proof fn lemma_fingers_accounted(
    before: Seq<FingerModel>,
    m: HarpModel,
    acts: Seq<HarpAction>,
    hand: HandInput,
    hi: int,
    p: PlayParams,
    k: nat,
)
    requires
        slots_wf(m.entries),
        accounted(before, m.entries, acts),
        offs_matched(before, acts),
    ensures
        ({
            let r = fingers_fold(m, acts, hand, hi, p, k);
            &&& slots_wf(r.0.entries)
            &&& accounted(before, r.0.entries, r.1)
            &&& offs_matched(before, r.1)
        }),
    decreases k,
{
    if k > 0 {
        lemma_fingers_accounted(before, m, acts, hand, hi, p, (k - 1) as nat);
        let r = fingers_fold(m, acts, hand, hi, p, (k - 1) as nat);
        lemma_finger_accounted(before, r.0, r.1, hand, hi, k - 1, p);
    }
}

proof fn lemma_hands_accounted(
    before: Seq<FingerModel>,
    m: HarpModel,
    acts: Seq<HarpAction>,
    hands: Seq<HandInput>,
    p: PlayParams,
    k: nat,
)
    requires
        slots_wf(m.entries),
        accounted(before, m.entries, acts),
        offs_matched(before, acts),
    ensures
        ({
            let r = hands_fold(m, acts, hands, p, k);
            &&& slots_wf(r.0.entries)
            &&& accounted(before, r.0.entries, r.1)
            &&& offs_matched(before, r.1)
        }),
    decreases k,
{
    if k > 0 {
        lemma_hands_accounted(before, m, acts, hands, p, (k - 1) as nat);
        let r = hands_fold(m, acts, hands, p, (k - 1) as nat);
        lemma_fingers_accounted(before, r.0, r.1, hands[k - 1], k - 1, p, 5);
    }
}

proof fn lemma_offs_matched(es: Seq<FingerModel>, i0: int, acts: Seq<HarpAction>, k: nat)
    requires
        0 <= i0 < es.len(),
        k <= 5,
        offs_matched(es, acts),
    ensures
        offs_matched(es, offs_fold(es[i0], acts, k)),
    decreases k,
{
    if k > 0 {
        lemma_offs_matched(es, i0, acts, (k - 1) as nat);
        let a = offs_fold(es[i0], acts, (k - 1) as nat);
        let slot = es[i0].slots[k - 1];
        if slot.note_id != 0 {
            let x = HarpAction::NoteOff { id: slot.note_id, midi: slot.midi, channel: slot.channel, string: (k - 1) as usize };
            assert(stored_note(es, slot.note_id, slot.midi, slot.channel)) by {
                assert(es[i0].slots[k - 1] == slot);
            }
            lemma_offs_matched_push(es, a, x);
        }
    }
}

proof fn lemma_retain_accounted(es: Seq<FingerModel>, hands: Seq<HandInput>, k: nat)
    requires
        k <= es.len(),
    ensures
        offs_matched(es, retain_fold(es, hands, k).1),
    decreases k,
{
    if k > 0 {
        lemma_retain_accounted(es, hands, (k - 1) as nat);
        let r = retain_fold(es, hands, (k - 1) as nat);
        if !live(hands, es[k - 1].hand_id) {
            lemma_offs_matched(es, k - 1, r.1, 5);
        }
    }
}

/// Every note-off a frame emits stops a note that is sounding, on the key
/// and channel it was started with (the key captured when the string was
/// struck, whatever the hand has done since): either a note the harp held
/// before the frame or one an earlier note-on of the same frame started.
/// And every note the harp holds after the frame was held before it or was
/// started by one of the frame's note-ons.
pub proof fn frame_note_offs_match(m: HarpModel, hands: Seq<HandInput>, p: PlayParams)
    requires
        model_wf(m),
    ensures
        offs_matched(m.entries, frame(m, hands, p).1),
        accounted(m.entries, frame(m, hands, p).0.entries, frame(m, hands, p).1),
{
    let es = m.entries;
    lemma_retain_accounted(es, hands, es.len());
    lemma_retain_unique(es, hands, es.len());
    let r = retain_fold(es, hands, es.len());
    assert forall|x: int| 0 <= x < r.0.len() implies (#[trigger] r.0[x]).slots.len() == 5 by {
        assert(drawn_from(es, es.len() as int, r.0[x]));
    }
    assert forall|x: int, s: int| 0 <= x < r.0.len() && 0 <= s < 5 implies slot_accounted(
        es,
        #[trigger] r.0[x].slots[s],
        r.1,
    ) by {
        assert(drawn_from(es, es.len() as int, r.0[x]));
        let j = choose|j: int| 0 <= j < es.len() && r.0[x] == #[trigger] es[j];
        assert(es[j].slots[s] == r.0[x].slots[s]);
    }
    lemma_hands_accounted(es, HarpModel { entries: r.0, next: m.next }, r.1, hands, p, hands.len());
}


/// The finger (hand, fi) has an entry whose string flags match this frame's input.
pub open spec fn settled(es: Seq<FingerModel>, hand: HandInput, fi: int) -> bool {
    let i = key_index(es, hand.id, fi);
    &&& 0 <= i < es.len()
    &&& forall|s: int| 0 <= s < 5 ==> (#[trigger] es[i].slots[s]).inside == touching(hand, fi, s)
}

pub open spec fn ids_distinct(hands: Seq<HandInput>) -> bool {
    forall|a: int, b: int| 0 <= a < hands.len() && 0 <= b < hands.len() && a != b ==> (#[trigger] hands[a]).id != (#[trigger] hands[b]).id
}

pub open spec fn all_live(es: Seq<FingerModel>, hands: Seq<HandInput>) -> bool {
    forall|x: int| 0 <= x < es.len() ==> live(hands, (#[trigger] es[x]).hand_id)
}

proof fn lemma_key_index_at(es: Seq<FingerModel>, hand_id: u32, fi: int, i: int)
    requires
        keys_unique(es),
        0 <= i < es.len(),
        has_key(es[i], hand_id, fi),
    ensures
        key_index(es, hand_id, fi) == i,
{
    let c = key_index(es, hand_id, fi);
    assert(has_key(es[i], hand_id, fi));
    if c != i {
        assert(!has_key(es[c], es[i].hand_id, es[i].finger as int));
    }
}

proof fn lemma_strings_inside(
    slots: Seq<StringSlot>,
    acts: Seq<HarpAction>,
    next: u64,
    hand: HandInput,
    hi: int,
    fi: int,
    p: PlayParams,
    k: nat,
)
    requires
        slots.len() == 5,
        k <= 5,
    ensures
        strings_fold(slots, acts, next, hand, hi, fi, p, k).0.len() == 5,
        forall|s: int| 0 <= s < k ==> (#[trigger] strings_fold(slots, acts, next, hand, hi, fi, p, k).0[s]).inside
            == touching(hand, fi, s),
    decreases k,
{
    if k > 0 {
        lemma_strings_inside(slots, acts, next, hand, hi, fi, p, (k - 1) as nat);
        let r = strings_fold(slots, acts, next, hand, hi, fi, p, (k - 1) as nat);
        let r2 = strings_fold(slots, acts, next, hand, hi, fi, p, k);
        assert forall|s: int| 0 <= s < k implies (#[trigger] r2.0[s]).inside == touching(hand, fi, s) by {
            if s < k - 1 {
                assert(r2.0[s] == r.0[s]);
            }
        }
    }
}

/// Shape of one finger step: keys stay unique, entries of other keys keep
/// their place and content, new entries carry this finger's key, and this
/// finger ends up settled.
proof fn lemma_finger_shape(m: HarpModel, acts: Seq<HarpAction>, hand: HandInput, hi: int, fi: int, p: PlayParams)
    requires
        keys_unique(m.entries),
        slots_wf(m.entries),
        0 <= fi < 5,
    ensures
        ({
            let es2 = finger_step(m, acts, hand, hi, fi, p).0.entries;
            &&& keys_unique(es2)
            &&& slots_wf(es2)
            &&& es2.len() >= m.entries.len()
            &&& forall|x: int|
                0 <= x < m.entries.len() && !has_key(m.entries[x], hand.id, fi) ==> #[trigger] es2[x] == m.entries[x]
            &&& forall|x: int| 0 <= x < es2.len() ==> has_key(#[trigger] es2[x], hand.id, fi) || (x < m.entries.len() && es2[x] == m.entries[x])
            &&& settled(es2, hand, fi)
        }),
{
    let i = key_index(m.entries, hand.id, fi);
    let es = if i < 0 {
        m.entries.push(fresh_finger(hand.id, fi as u8))
    } else {
        m.entries
    };
    let idx = if i < 0 {
        m.entries.len() as int
    } else {
        i
    };
    if i >= 0 {
        assert(0 <= i < m.entries.len() && has_key(m.entries[i], hand.id, fi));
    } else {
        assert forall|x: int| 0 <= x < m.entries.len() implies !has_key(#[trigger] m.entries[x], hand.id, fi) by {
            if has_key(m.entries[x], hand.id, fi) {
                assert(exists|y: int| 0 <= y < m.entries.len() && has_key(#[trigger] m.entries[y], hand.id, fi));
            }
        }
        assert(es[idx] == fresh_finger(hand.id, fi as u8));
        assert(has_key(es[idx], hand.id, fi));
    }
    let r = strings_fold(es[idx].slots, acts, m.next, hand, hi, fi, p, 5);
    let es2 = es.update(idx, FingerModel { slots: r.0, ..es[idx] });
    assert(es[idx].slots.len() == 5) by {
        if i >= 0 {
            assert(es[idx] == m.entries[idx]);
        }
    }
    lemma_strings_inside(es[idx].slots, acts, m.next, hand, hi, fi, p, 5);
    assert(has_key(es2[idx], hand.id, fi));
    assert forall|x: int, y: int| 0 <= x < es2.len() && 0 <= y < es2.len() && x != y implies !has_key(
        #[trigger] es2[x],
        (#[trigger] es2[y]).hand_id,
        es2[y].finger as int,
    ) by {
        if x != idx {
            assert(es2[x] == es[x]);
        }
        if y != idx {
            assert(es2[y] == es[y]);
        }
        if x != idx && y != idx {
            assert(x < m.entries.len() && y < m.entries.len());
            assert(es[x] == m.entries[x] && es[y] == m.entries[y]);
        } else if x != idx {
            assert(x < m.entries.len());
            assert(es[x] == m.entries[x]);
            if i >= 0 {
                assert(!has_key(m.entries[x], m.entries[i].hand_id, m.entries[i].finger as int));
            }
        } else {
            assert(y < m.entries.len());
            assert(es[y] == m.entries[y]);
            if i >= 0 {
                assert(!has_key(m.entries[i], m.entries[y].hand_id, m.entries[y].finger as int));
            }
        }
    }
    assert forall|x: int| 0 <= x < es2.len() implies (#[trigger] es2[x]).slots.len() == 5 by {
        if x != idx {
            assert(es2[x] == es[x]);
            assert(x < m.entries.len());
        }
    }
    assert forall|x: int| 0 <= x < m.entries.len() && !has_key(m.entries[x], hand.id, fi) implies #[trigger] es2[x]
        == m.entries[x] by {
        assert(x != idx);
        assert(es2[x] == es[x]);
    }
    assert forall|x: int| 0 <= x < es2.len() implies has_key(#[trigger] es2[x], hand.id, fi) || (x < m.entries.len()
        && es2[x] == m.entries[x]) by {
        if x != idx {
            assert(es2[x] == es[x]);
            assert(x < m.entries.len());
        }
    }
    lemma_key_index_at(es2, hand.id, fi, idx);
    assert forall|s: int| 0 <= s < 5 implies (#[trigger] es2[idx].slots[s]).inside == touching(hand, fi, s) by {
        assert(es2[idx].slots == r.0);
    }
}


proof fn lemma_key_index_has_key(es: Seq<FingerModel>, hand_id: u32, fi: int)
    requires
        0 <= key_index(es, hand_id, fi) < es.len(),
    ensures
        has_key(es[key_index(es, hand_id, fi)], hand_id, fi),
{
}

proof fn lemma_fingers_shape(m: HarpModel, acts: Seq<HarpAction>, hand: HandInput, hi: int, p: PlayParams, k: nat)
    requires
        keys_unique(m.entries),
        slots_wf(m.entries),
        k <= 5,
    ensures
        ({
            let es2 = fingers_fold(m, acts, hand, hi, p, k).0.entries;
            &&& keys_unique(es2)
            &&& slots_wf(es2)
            &&& es2.len() >= m.entries.len()
            &&& forall|x: int|
                0 <= x < m.entries.len() && m.entries[x].hand_id != hand.id ==> #[trigger] es2[x] == m.entries[x]
            &&& forall|x: int|
                0 <= x < es2.len() ==> (#[trigger] es2[x]).hand_id == hand.id || (x < m.entries.len() && es2[x]
                    == m.entries[x])
            &&& forall|fi: int| 0 <= fi < k ==> #[trigger] settled(es2, hand, fi)
        }),
    decreases k,
{
    if k > 0 {
        lemma_fingers_shape(m, acts, hand, hi, p, (k - 1) as nat);
        let r = fingers_fold(m, acts, hand, hi, p, (k - 1) as nat);
        let prev = r.0.entries;
        lemma_finger_shape(r.0, r.1, hand, hi, k - 1, p);
        let es3 = fingers_fold(m, acts, hand, hi, p, k).0.entries;
        assert forall|x: int| 0 <= x < m.entries.len() && m.entries[x].hand_id != hand.id implies #[trigger] es3[x]
            == m.entries[x] by {
            assert(prev[x] == m.entries[x]);
            assert(!has_key(prev[x], hand.id, k - 1));
        }
        assert forall|x: int| 0 <= x < es3.len() implies (#[trigger] es3[x]).hand_id == hand.id || (x < m.entries.len()
            && es3[x] == m.entries[x]) by {
            if !has_key(es3[x], hand.id, k - 1) {
                assert(x < prev.len() && es3[x] == prev[x]);
            }
        }
        assert forall|fi: int| 0 <= fi < k implies #[trigger] settled(es3, hand, fi) by {
            if fi < k - 1 {
                assert(settled(prev, hand, fi));
                let j = key_index(prev, hand.id, fi);
                lemma_key_index_has_key(prev, hand.id, fi);
                assert(!has_key(prev[j], hand.id, k - 1));
                assert(es3[j] == prev[j]);
                lemma_key_index_at(es3, hand.id, fi, j);
            }
        }
    }
}

proof fn lemma_hands_shape(m: HarpModel, acts: Seq<HarpAction>, hands: Seq<HandInput>, p: PlayParams, k: nat)
    requires
        keys_unique(m.entries),
        slots_wf(m.entries),
        ids_distinct(hands),
        all_live(m.entries, hands),
        k <= hands.len(),
    ensures
        ({
            let es2 = hands_fold(m, acts, hands, p, k).0.entries;
            &&& keys_unique(es2)
            &&& slots_wf(es2)
            &&& all_live(es2, hands)
            &&& forall|hi: int, fi: int| 0 <= hi < k && 0 <= fi < 5 ==> #[trigger] settled(es2, hands[hi], fi)
        }),
    decreases k,
{
    if k > 0 {
        lemma_hands_shape(m, acts, hands, p, (k - 1) as nat);
        let r = hands_fold(m, acts, hands, p, (k - 1) as nat);
        let prev = r.0.entries;
        let hand = hands[k - 1];
        lemma_fingers_shape(r.0, r.1, hand, k - 1, p, 5);
        let es3 = hands_fold(m, acts, hands, p, k).0.entries;
        assert forall|x: int| 0 <= x < es3.len() implies live(hands, (#[trigger] es3[x]).hand_id) by {
            if es3[x].hand_id == hand.id {
                assert(hands[k - 1].id == hand.id);
            } else {
                assert(es3[x] == prev[x]);
                assert(live(hands, prev[x].hand_id));
            }
        }
        assert forall|hi: int, fi: int| 0 <= hi < k && 0 <= fi < 5 implies #[trigger] settled(es3, hands[hi], fi) by {
            if hi < k - 1 {
                assert(settled(prev, hands[hi], fi));
                let j = key_index(prev, hands[hi].id, fi);
                lemma_key_index_has_key(prev, hands[hi].id, fi);
                assert(hands[hi].id != hands[k - 1].id);
                assert(es3[j] == prev[j]);
                lemma_key_index_at(es3, hands[hi].id, fi, j);
            } else {
                assert(settled(es3, hand, fi));
            }
        }
    }
}

proof fn lemma_strings_identity(
    slots: Seq<StringSlot>,
    acts: Seq<HarpAction>,
    next: u64,
    hand: HandInput,
    hi: int,
    fi: int,
    p: PlayParams,
    k: nat,
)
    requires
        slots.len() == 5,
        k <= 5,
        forall|s: int| 0 <= s < 5 ==> (#[trigger] slots[s]).inside == touching(hand, fi, s),
    ensures
        strings_fold(slots, acts, next, hand, hi, fi, p, k) == (slots, acts, next),
    decreases k,
{
    if k > 0 {
        lemma_strings_identity(slots, acts, next, hand, hi, fi, p, (k - 1) as nat);
        let s0 = k - 1;
        let slot = slots[s0];
        assert(StringSlot { inside: touching(hand, fi, s0), ..slot } == slot);
        assert(slots.update(s0, slot) =~= slots);
    }
}

proof fn lemma_finger_identity(m: HarpModel, acts: Seq<HarpAction>, hand: HandInput, hi: int, fi: int, p: PlayParams)
    requires
        slots_wf(m.entries),
        settled(m.entries, hand, fi),
    ensures
        finger_step(m, acts, hand, hi, fi, p) == (m, acts),
{
    let i = key_index(m.entries, hand.id, fi);
    let e = m.entries[i];
    lemma_strings_identity(e.slots, acts, m.next, hand, hi, fi, p, 5);
    assert(FingerModel { slots: e.slots, ..e } == e);
    assert(m.entries.update(i, e) =~= m.entries);
}

proof fn lemma_fingers_identity(m: HarpModel, acts: Seq<HarpAction>, hand: HandInput, hi: int, p: PlayParams, k: nat)
    requires
        slots_wf(m.entries),
        forall|fi: int| 0 <= fi < 5 ==> #[trigger] settled(m.entries, hand, fi),
        k <= 5,
    ensures
        fingers_fold(m, acts, hand, hi, p, k) == (m, acts),
    decreases k,
{
    if k > 0 {
        lemma_fingers_identity(m, acts, hand, hi, p, (k - 1) as nat);
        lemma_finger_identity(m, acts, hand, hi, k - 1, p);
    }
}

proof fn lemma_hands_identity(m: HarpModel, acts: Seq<HarpAction>, hands: Seq<HandInput>, p: PlayParams, k: nat)
    requires
        slots_wf(m.entries),
        forall|hi: int, fi: int| 0 <= hi < hands.len() && 0 <= fi < 5 ==> #[trigger] settled(m.entries, hands[hi], fi),
        k <= hands.len(),
    ensures
        hands_fold(m, acts, hands, p, k) == (m, acts),
    decreases k,
{
    if k > 0 {
        lemma_hands_identity(m, acts, hands, p, (k - 1) as nat);
        assert forall|fi: int| 0 <= fi < 5 implies #[trigger] settled(m.entries, hands[k - 1], fi) by {
            assert(settled(m.entries, hands[k - 1], fi));
        }
        lemma_fingers_identity(m, acts, hands[k - 1], k - 1, p, 5);
    }
}

proof fn lemma_retain_live(es: Seq<FingerModel>, hands: Seq<HandInput>, k: nat)
    requires
        k <= es.len(),
    ensures
        all_live(retain_fold(es, hands, k).0, hands),
    decreases k,
{
    if k > 0 {
        lemma_retain_live(es, hands, (k - 1) as nat);
        let r = retain_fold(es, hands, (k - 1) as nat);
        let r2 = retain_fold(es, hands, k);
        assert forall|x: int| 0 <= x < r2.0.len() implies live(hands, (#[trigger] r2.0[x]).hand_id) by {
            if x < r.0.len() {
                assert(r2.0[x] == r.0[x]);
            }
        }
    }
}

proof fn lemma_retain_identity(es: Seq<FingerModel>, hands: Seq<HandInput>, k: nat)
    requires
        k <= es.len(),
        all_live(es, hands),
    ensures
        retain_fold(es, hands, k).0 == es.subrange(0, k as int),
        retain_fold(es, hands, k).1 == Seq::<HarpAction>::empty(),
    decreases k,
{
    if k > 0 {
        lemma_retain_identity(es, hands, (k - 1) as nat);
        assert(live(hands, es[k - 1].hand_id));
        assert(es.subrange(0, k - 1).push(es[k - 1]) =~= es.subrange(0, k as int));
    } else {
        assert(es.subrange(0, 0) =~= Seq::<FingerModel>::empty());
    }
}

/// Replaying a frame is silent: when the same hands (with distinct ids) are
/// seen again in the same places, no string is struck or released and the
/// harp's state does not change. A finger resting inside a string's band
/// sounds its note once, however many frames it stays there.
pub proof fn repeated_frame_is_silent(m: HarpModel, hands: Seq<HandInput>, p: PlayParams)
    requires
        model_wf(m),
        ids_distinct(hands),
    ensures
        frame(frame(m, hands, p).0, hands, p) == (frame(m, hands, p).0, Seq::<HarpAction>::empty()),
{
    let es = m.entries;
    let r = retain_fold(es, hands, es.len());
    lemma_retain_unique(es, hands, es.len());
    lemma_retain_live(es, hands, es.len());
    assert forall|x: int| 0 <= x < r.0.len() implies (#[trigger] r.0[x]).slots.len() == 5 by {
        assert(drawn_from(es, es.len() as int, r.0[x]));
    }
    let m0 = HarpModel { entries: r.0, next: m.next };
    lemma_hands_shape(m0, r.1, hands, p, hands.len());
    let m1 = frame(m, hands, p).0;
    let es1 = m1.entries;
    lemma_retain_identity(es1, hands, es1.len());
    assert(es1.subrange(0, es1.len() as int) =~= es1);
    assert(HarpModel { entries: es1, next: m1.next } == m1);
    lemma_hands_identity(m1, Seq::<HarpAction>::empty(), hands, p, hands.len());
}


proof fn lemma_hands_live(m: HarpModel, acts: Seq<HarpAction>, hands: Seq<HandInput>, p: PlayParams, k: nat)
    requires
        keys_unique(m.entries),
        slots_wf(m.entries),
        all_live(m.entries, hands),
        k <= hands.len(),
    ensures
        keys_unique(hands_fold(m, acts, hands, p, k).0.entries),
        slots_wf(hands_fold(m, acts, hands, p, k).0.entries),
        all_live(hands_fold(m, acts, hands, p, k).0.entries, hands),
    decreases k,
{
    if k > 0 {
        lemma_hands_live(m, acts, hands, p, (k - 1) as nat);
        let r = hands_fold(m, acts, hands, p, (k - 1) as nat);
        let prev = r.0.entries;
        let hand = hands[k - 1];
        lemma_fingers_shape(r.0, r.1, hand, k - 1, p, 5);
        let es3 = hands_fold(m, acts, hands, p, k).0.entries;
        assert forall|x: int| 0 <= x < es3.len() implies live(hands, (#[trigger] es3[x]).hand_id) by {
            if es3[x].hand_id == hand.id {
                assert(hands[k - 1].id == hand.id);
            } else {
                assert(es3[x] == prev[x]);
                assert(live(hands, prev[x].hand_id));
            }
        }
    }
}

/// Fingers of hands that have left the view are forgotten: after a frame
/// every finger the harp remembers, and so every note it still holds,
/// belongs to a hand seen in that frame.
pub proof fn lost_hands_are_forgotten(m: HarpModel, hands: Seq<HandInput>, p: PlayParams)
    requires
        model_wf(m),
    ensures
        all_live(frame(m, hands, p).0.entries, hands),
{
    let es = m.entries;
    let r = retain_fold(es, hands, es.len());
    lemma_retain_unique(es, hands, es.len());
    lemma_retain_live(es, hands, es.len());
    assert forall|x: int| 0 <= x < r.0.len() implies (#[trigger] r.0[x]).slots.len() == 5 by {
        assert(drawn_from(es, es.len() as int, r.0[x]));
    }
    lemma_hands_live(HarpModel { entries: r.0, next: m.next }, r.1, hands, p, hands.len());
}


/// `acts` stops the note held in `slot` on string `s`.
pub open spec fn releases(acts: Seq<HarpAction>, slot: StringSlot, s: int) -> bool {
    exists|j: int|
        0 <= j < acts.len() && #[trigger] acts[j] == HarpAction::NoteOff {
            id: slot.note_id,
            midi: slot.midi,
            channel: slot.channel,
            string: s as usize,
        }
}

proof fn lemma_releases_extends(acts: Seq<HarpAction>, b: Seq<HarpAction>, slot: StringSlot, s: int)
    requires
        releases(acts, slot, s),
        extends(acts, b),
    ensures
        releases(b, slot, s),
{
    let j = choose|j: int|
        0 <= j < acts.len() && #[trigger] acts[j] == HarpAction::NoteOff {
            id: slot.note_id,
            midi: slot.midi,
            channel: slot.channel,
            string: s as usize,
        };
    assert(b[j] == acts[j]);
}

proof fn lemma_offs_release(e: FingerModel, acts: Seq<HarpAction>, k: nat)
    requires
        k <= 5,
    ensures
        extends(acts, offs_fold(e, acts, k)),
        forall|s: int| 0 <= s < k && (#[trigger] e.slots[s]).note_id != 0 ==> releases(offs_fold(e, acts, k), e.slots[s], s),
    decreases k,
{
    if k > 0 {
        lemma_offs_release(e, acts, (k - 1) as nat);
        let a = offs_fold(e, acts, (k - 1) as nat);
        let a2 = offs_fold(e, acts, k);
        assert(extends(a, a2));
        assert forall|j: int| 0 <= j < acts.len() implies #[trigger] a2[j] == acts[j] by {
            assert(a[j] == acts[j]);
        }
        assert forall|s: int| 0 <= s < k && (#[trigger] e.slots[s]).note_id != 0 implies releases(a2, e.slots[s], s) by {
            if s < k - 1 {
                lemma_releases_extends(a, a2, e.slots[s], s);
            } else {
                assert(a2[a.len() as int] == HarpAction::NoteOff {
                    id: e.slots[s].note_id,
                    midi: e.slots[s].midi,
                    channel: e.slots[s].channel,
                    string: s as usize,
                });
            }
        }
    }
}

proof fn lemma_retain_releases_all(es: Seq<FingerModel>, hands: Seq<HandInput>, k: nat)
    requires
        hands.len() == 0,
        k <= es.len(),
    ensures
        retain_fold(es, hands, k).0.len() == 0,
        forall|i: int, s: int|
            0 <= i < k && 0 <= s < 5 && (#[trigger] es[i].slots[s]).note_id != 0 ==> releases(
                retain_fold(es, hands, k).1,
                es[i].slots[s],
                s,
            ),
    decreases k,
{
    if k > 0 {
        lemma_retain_releases_all(es, hands, (k - 1) as nat);
        let r = retain_fold(es, hands, (k - 1) as nat);
        let r2 = retain_fold(es, hands, k);
        assert(!live(hands, es[k - 1].hand_id));
        lemma_offs_release(es[k - 1], r.1, 5);
        assert forall|i: int, s: int|
            0 <= i < k && 0 <= s < 5 && (#[trigger] es[i].slots[s]).note_id != 0 implies releases(r2.1, es[i].slots[s], s) by {
            if i < k - 1 {
                lemma_releases_extends(r.1, r2.1, es[i].slots[s], s);
            }
        }
    }
}

/// When every hand leaves the view the harp falls silent: each note any
/// finger was sounding gets its note-off (same id, key, channel and
/// string), and the harp forgets every finger.
pub proof fn empty_frame_releases_everything(m: HarpModel, p: PlayParams)
    ensures
        frame(m, Seq::<HandInput>::empty(), p).0.entries.len() == 0,
        forall|i: int, s: int|
            0 <= i < m.entries.len() && 0 <= s < 5 && (#[trigger] m.entries[i].slots[s]).note_id != 0 ==> releases(
                frame(m, Seq::<HandInput>::empty(), p).1,
                m.entries[i].slots[s],
                s,
            ),
{
    lemma_retain_releases_all(m.entries, Seq::<HandInput>::empty(), m.entries.len());
}


/// What a finger's slot on string `s` held before a frame: the slot of its
/// entry in the table, or a fresh slot if the table has no entry for it.
pub open spec fn slot_before(es: Seq<FingerModel>, hand_id: u32, fi: int, s: int) -> StringSlot {
    let i = key_index(es, hand_id, fi);
    if 0 <= i < es.len() {
        es[i].slots[s]
    } else {
        fresh_slot()
    }
}

/// `a` is a note-on by finger `fi` of hand `hi` on string `s` with this key,
/// channel and instrument.
pub open spec fn is_strike(a: HarpAction, hi: int, fi: int, s: int, midi: u8, channel: u8, instrument: Instrument) -> bool {
    match a {
        HarpAction::NoteOn { midi: m, channel: c, instrument: ins, string, hand, finger, .. } => {
            &&& hand as int == hi
            &&& finger as int == fi
            &&& string as int == s
            &&& m == midi
            &&& c == channel
            &&& ins == instrument
        },
        _ => false,
    }
}

pub open spec fn strikes(acts: Seq<HarpAction>, hi: int, fi: int, s: int, midi: u8, channel: u8, instrument: Instrument) -> bool {
    exists|j: int| 0 <= j < acts.len() && is_strike(#[trigger] acts[j], hi, fi, s, midi, channel, instrument)
}

proof fn lemma_extends_trans(a: Seq<HarpAction>, b: Seq<HarpAction>, c: Seq<HarpAction>)
    requires
        extends(a, b),
        extends(b, c),
    ensures
        extends(a, c),
{
    assert forall|j: int| 0 <= j < a.len() implies #[trigger] c[j] == a[j] by {
        assert(c[j] == b[j]);
    }
}

proof fn lemma_strikes_extends(
    a: Seq<HarpAction>,
    b: Seq<HarpAction>,
    hi: int,
    fi: int,
    s: int,
    midi: u8,
    channel: u8,
    instrument: Instrument,
)
    requires
        strikes(a, hi, fi, s, midi, channel, instrument),
        extends(a, b),
    ensures
        strikes(b, hi, fi, s, midi, channel, instrument),
{
    let j = choose|j: int| 0 <= j < a.len() && is_strike(#[trigger] a[j], hi, fi, s, midi, channel, instrument);
    assert(b[j] == a[j]);
}

proof fn lemma_strings_extend(
    slots: Seq<StringSlot>,
    acts: Seq<HarpAction>,
    next: u64,
    hand: HandInput,
    hi: int,
    fi: int,
    p: PlayParams,
    k: nat,
)
    ensures
        extends(acts, strings_fold(slots, acts, next, hand, hi, fi, p, k).1),
    decreases k,
{
    if k > 0 {
        lemma_strings_extend(slots, acts, next, hand, hi, fi, p, (k - 1) as nat);
        let r = strings_fold(slots, acts, next, hand, hi, fi, p, (k - 1) as nat);
        let r2 = string_step(r.0, r.1, r.2, hand, hi, fi, k - 1, p);
        assert(extends(r.1, r2.1));
        lemma_extends_trans(acts, r.1, r2.1);
    }
}

proof fn lemma_finger_extends(m: HarpModel, acts: Seq<HarpAction>, hand: HandInput, hi: int, fi: int, p: PlayParams)
    ensures
        extends(acts, finger_step(m, acts, hand, hi, fi, p).1),
{
    let i = key_index(m.entries, hand.id, fi);
    let es = if i < 0 {
        m.entries.push(fresh_finger(hand.id, fi as u8))
    } else {
        m.entries
    };
    let idx = if i < 0 {
        m.entries.len() as int
    } else {
        i
    };
    lemma_strings_extend(es[idx].slots, acts, m.next, hand, hi, fi, p, 5);
}

proof fn lemma_fingers_extend(m: HarpModel, acts: Seq<HarpAction>, hand: HandInput, hi: int, p: PlayParams, k: nat)
    ensures
        extends(acts, fingers_fold(m, acts, hand, hi, p, k).1),
    decreases k,
{
    if k > 0 {
        lemma_fingers_extend(m, acts, hand, hi, p, (k - 1) as nat);
        let r = fingers_fold(m, acts, hand, hi, p, (k - 1) as nat);
        lemma_finger_extends(r.0, r.1, hand, hi, k - 1, p);
        lemma_extends_trans(acts, r.1, fingers_fold(m, acts, hand, hi, p, k).1);
    }
}

proof fn lemma_hands_extend(m: HarpModel, acts: Seq<HarpAction>, hands: Seq<HandInput>, p: PlayParams, k: nat)
    ensures
        extends(acts, hands_fold(m, acts, hands, p, k).1),
    decreases k,
{
    if k > 0 {
        lemma_hands_extend(m, acts, hands, p, (k - 1) as nat);
        let r = hands_fold(m, acts, hands, p, (k - 1) as nat);
        lemma_fingers_extend(r.0, r.1, hands[k - 1], k - 1, p, 5);
        lemma_extends_trans(acts, r.1, hands_fold(m, acts, hands, p, k).1);
    }
}

proof fn lemma_strings_untouched(
    slots: Seq<StringSlot>,
    acts: Seq<HarpAction>,
    next: u64,
    hand: HandInput,
    hi: int,
    fi: int,
    p: PlayParams,
    k: nat,
    s: int,
)
    requires
        slots.len() == 5,
        k <= s < 5,
    ensures
        strings_fold(slots, acts, next, hand, hi, fi, p, k).0.len() == 5,
        strings_fold(slots, acts, next, hand, hi, fi, p, k).0[s] == slots[s],
    decreases k,
{
    if k > 0 {
        lemma_strings_untouched(slots, acts, next, hand, hi, fi, p, (k - 1) as nat, s);
    }
}

proof fn lemma_strings_strike(
    slots: Seq<StringSlot>,
    acts: Seq<HarpAction>,
    next: u64,
    hand: HandInput,
    hi: int,
    fi: int,
    p: PlayParams,
    k: nat,
    s: int,
)
    requires
        slots.len() == 5,
        0 <= s < k <= 5,
        0 <= hi <= usize::MAX,
        0 <= fi < 5,
        touching(hand, fi, s),
        !slots[s].inside,
    ensures
        strikes(
            strings_fold(slots, acts, next, hand, hi, fi, p, k).1,
            hi,
            fi,
            s,
            struck_note(hand, fi, s, p),
            if hand.is_left { 1u8 } else { 0u8 },
            if hand.is_left { p.left } else { p.right },
        ),
    decreases k,
{
    let ch: u8 = if hand.is_left { 1u8 } else { 0u8 };
    let ins = if hand.is_left { p.left } else { p.right };
    let r = strings_fold(slots, acts, next, hand, hi, fi, p, (k - 1) as nat);
    let r2 = strings_fold(slots, acts, next, hand, hi, fi, p, k);
    if k - 1 == s {
        lemma_strings_untouched(slots, acts, next, hand, hi, fi, p, (k - 1) as nat, s);
        assert(is_strike(r2.1[r.1.len() as int], hi, fi, s, struck_note(hand, fi, s, p), ch, ins));
    } else {
        lemma_strings_strike(slots, acts, next, hand, hi, fi, p, (k - 1) as nat, s);
        assert(extends(r.1, r2.1));
        lemma_strikes_extends(r.1, r2.1, hi, fi, s, struck_note(hand, fi, s, p), ch, ins);
    }
}

/// The slot a key held is unaffected by a table change that keeps every
/// entry of that key in place and adds none.
proof fn lemma_slot_kept(es: Seq<FingerModel>, es2: Seq<FingerModel>, hand_id: u32, fi: int, s: int)
    requires
        keys_unique(es),
        keys_unique(es2),
        forall|x: int| 0 <= x < es.len() && has_key(es[x], hand_id, fi) ==> x < es2.len() && #[trigger] es2[x] == es[x],
        forall|x: int| 0 <= x < es2.len() && has_key(#[trigger] es2[x], hand_id, fi) ==> x < es.len() && es2[x] == es[x],
    ensures
        slot_before(es2, hand_id, fi, s) == slot_before(es, hand_id, fi, s),
{
    if exists|x: int| 0 <= x < es.len() && has_key(#[trigger] es[x], hand_id, fi) {
        let x = choose|x: int| 0 <= x < es.len() && has_key(#[trigger] es[x], hand_id, fi);
        lemma_key_index_at(es, hand_id, fi, x);
        assert(es2[x] == es[x]);
        lemma_key_index_at(es2, hand_id, fi, x);
    } else {
        if exists|x: int| 0 <= x < es2.len() && has_key(#[trigger] es2[x], hand_id, fi) {
            let x = choose|x: int| 0 <= x < es2.len() && has_key(#[trigger] es2[x], hand_id, fi);
            assert(es2[x] == es[x]);
        }
    }
}

proof fn lemma_fingers_keep_other(
    m: HarpModel,
    acts: Seq<HarpAction>,
    hand: HandInput,
    hi: int,
    p: PlayParams,
    k: nat,
    fi: int,
    s: int,
)
    requires
        keys_unique(m.entries),
        slots_wf(m.entries),
        k <= fi < 5,
    ensures
        slot_before(fingers_fold(m, acts, hand, hi, p, k).0.entries, hand.id, fi, s) == slot_before(m.entries, hand.id, fi, s),
        keys_unique(fingers_fold(m, acts, hand, hi, p, k).0.entries),
        slots_wf(fingers_fold(m, acts, hand, hi, p, k).0.entries),
    decreases k,
{
    if k > 0 {
        lemma_fingers_keep_other(m, acts, hand, hi, p, (k - 1) as nat, fi, s);
        let r = fingers_fold(m, acts, hand, hi, p, (k - 1) as nat);
        lemma_finger_shape(r.0, r.1, hand, hi, k - 1, p);
        let es = r.0.entries;
        let es2 = fingers_fold(m, acts, hand, hi, p, k).0.entries;
        assert forall|x: int| 0 <= x < es2.len() && has_key(#[trigger] es2[x], hand.id, fi) implies x < es.len() && es2[x]
            == es[x] by {
            assert(!has_key(es2[x], hand.id, k - 1));
        }
        lemma_slot_kept(es, es2, hand.id, fi, s);
    }
}

proof fn lemma_hand_keeps_other(m: HarpModel, acts: Seq<HarpAction>, hand: HandInput, hi: int, p: PlayParams, hand_id: u32, fi: int, s: int)
    requires
        keys_unique(m.entries),
        slots_wf(m.entries),
        hand_id != hand.id,
    ensures
        slot_before(fingers_fold(m, acts, hand, hi, p, 5).0.entries, hand_id, fi, s) == slot_before(m.entries, hand_id, fi, s),
{
    lemma_fingers_shape(m, acts, hand, hi, p, 5);
    let es2 = fingers_fold(m, acts, hand, hi, p, 5).0.entries;
    lemma_slot_kept(m.entries, es2, hand_id, fi, s);
}

proof fn lemma_hands_keep_slot(m: HarpModel, acts: Seq<HarpAction>, hands: Seq<HandInput>, p: PlayParams, k: nat, hi: int, fi: int, s: int)
    requires
        keys_unique(m.entries),
        slots_wf(m.entries),
        all_live(m.entries, hands),
        ids_distinct(hands),
        k <= hi < hands.len(),
    ensures
        slot_before(hands_fold(m, acts, hands, p, k).0.entries, hands[hi].id, fi, s) == slot_before(m.entries, hands[hi].id, fi, s),
    decreases k,
{
    if k > 0 {
        lemma_hands_keep_slot(m, acts, hands, p, (k - 1) as nat, hi, fi, s);
        lemma_hands_live(m, acts, hands, p, (k - 1) as nat);
        let r = hands_fold(m, acts, hands, p, (k - 1) as nat);
        assert(hands[k - 1].id != hands[hi].id);
        lemma_hand_keeps_other(r.0, r.1, hands[k - 1], k - 1, p, hands[hi].id, fi, s);
    }
}

proof fn lemma_fingers_strike(m: HarpModel, acts: Seq<HarpAction>, hand: HandInput, hi: int, p: PlayParams, k: nat, fi: int, s: int)
    requires
        keys_unique(m.entries),
        slots_wf(m.entries),
        0 <= fi < k <= 5,
        0 <= s < 5,
        0 <= hi <= usize::MAX,
        touching(hand, fi, s),
        !slot_before(m.entries, hand.id, fi, s).inside,
    ensures
        strikes(
            fingers_fold(m, acts, hand, hi, p, k).1,
            hi,
            fi,
            s,
            struck_note(hand, fi, s, p),
            if hand.is_left { 1u8 } else { 0u8 },
            if hand.is_left { p.left } else { p.right },
        ),
    decreases k,
{
    let ch: u8 = if hand.is_left { 1u8 } else { 0u8 };
    let ins = if hand.is_left { p.left } else { p.right };
    let r = fingers_fold(m, acts, hand, hi, p, (k - 1) as nat);
    let r2 = fingers_fold(m, acts, hand, hi, p, k);
    if k - 1 == fi {
        lemma_fingers_keep_other(m, acts, hand, hi, p, (k - 1) as nat, fi, s);
        let es = r.0.entries;
        let i = key_index(es, hand.id, fi);
        let es1 = if i < 0 {
            es.push(fresh_finger(hand.id, fi as u8))
        } else {
            es
        };
        let idx = if i < 0 {
            es.len() as int
        } else {
            i
        };
        if i >= 0 {
            assert(0 <= i < es.len() && has_key(es[i], hand.id, fi));
        }
        assert(es1[idx].slots.len() == 5);
        assert(es1[idx].slots[s] == slot_before(es, hand.id, fi, s));
        lemma_strings_strike(es1[idx].slots, r.1, r.0.next, hand, hi, fi, p, 5, s);
    } else {
        lemma_fingers_strike(m, acts, hand, hi, p, (k - 1) as nat, fi, s);
        lemma_finger_extends(r.0, r.1, hand, hi, k - 1, p);
        lemma_strikes_extends(r.1, r2.1, hi, fi, s, struck_note(hand, fi, s, p), ch, ins);
    }
}

proof fn lemma_hands_strike(m: HarpModel, acts: Seq<HarpAction>, hands: Seq<HandInput>, p: PlayParams, k: nat, hi: int, fi: int, s: int)
    requires
        keys_unique(m.entries),
        slots_wf(m.entries),
        all_live(m.entries, hands),
        ids_distinct(hands),
        hands.len() <= usize::MAX,
        0 <= hi < k <= hands.len(),
        0 <= fi < 5,
        0 <= s < 5,
        touching(hands[hi], fi, s),
        !slot_before(m.entries, hands[hi].id, fi, s).inside,
    ensures
        strikes(
            hands_fold(m, acts, hands, p, k).1,
            hi,
            fi,
            s,
            struck_note(hands[hi], fi, s, p),
            if hands[hi].is_left { 1u8 } else { 0u8 },
            if hands[hi].is_left { p.left } else { p.right },
        ),
    decreases k,
{
    let hand = hands[hi];
    let ch: u8 = if hand.is_left { 1u8 } else { 0u8 };
    let ins = if hand.is_left { p.left } else { p.right };
    let r = hands_fold(m, acts, hands, p, (k - 1) as nat);
    let r2 = hands_fold(m, acts, hands, p, k);
    if k - 1 == hi {
        lemma_hands_keep_slot(m, acts, hands, p, (k - 1) as nat, hi, fi, s);
        lemma_hands_live(m, acts, hands, p, (k - 1) as nat);
        lemma_fingers_strike(r.0, r.1, hand, hi, p, 5, fi, s);
    } else {
        lemma_hands_strike(m, acts, hands, p, (k - 1) as nat, hi, fi, s);
        lemma_fingers_extend(r.0, r.1, hands[k - 1], k - 1, p, 5);
        lemma_strikes_extends(r.1, r2.1, hi, fi, s, struck_note(hand, fi, s, p), ch, ins);
    }
}

proof fn lemma_retain_keeps_live(es: Seq<FingerModel>, hands: Seq<HandInput>, k: nat)
    requires
        k <= es.len(),
    ensures
        forall|x: int|
            0 <= x < k && live(hands, (#[trigger] es[x]).hand_id) ==> exists|a: int|
                0 <= a < retain_fold(es, hands, k).0.len() && retain_fold(es, hands, k).0[a] == es[x],
    decreases k,
{
    if k > 0 {
        lemma_retain_keeps_live(es, hands, (k - 1) as nat);
        let r = retain_fold(es, hands, (k - 1) as nat);
        let r2 = retain_fold(es, hands, k);
        assert forall|x: int| 0 <= x < k && live(hands, (#[trigger] es[x]).hand_id) implies exists|a: int|
            0 <= a < r2.0.len() && r2.0[a] == es[x] by {
            if x < k - 1 {
                let a = choose|a: int| 0 <= a < r.0.len() && r.0[a] == es[x];
                assert(r2.0[a] == r.0[a]);
            } else {
                assert(r2.0[r.0.len() as int] == es[x]);
            }
        }
    }
}

/// Every finger strikes: in a frame (hands with distinct ids), each
/// extended finger of each hand whose tip is inside a string's band, and
/// was not inside it before the frame, plays that string: the frame's
/// actions hold a note-on by that hand and finger on that string, at the
/// string's note for the finger's octave zone and the transposition, on the
/// hand's channel (1 for the left hand, 0 for the right) with the hand's
/// instrument. No finger is mute but a curled one.
pub proof fn every_touching_finger_strikes(m: HarpModel, hands: Seq<HandInput>, p: PlayParams, hi: int, fi: int, s: int)
    requires
        model_wf(m),
        ids_distinct(hands),
        hands.len() <= usize::MAX,
        0 <= hi < hands.len(),
        0 <= fi < 5,
        0 <= s < 5,
        hands[hi].fingers@[fi].extended,
        hands[hi].fingers@[fi].in_band@[s],
        !slot_before(m.entries, hands[hi].id, fi, s).inside,
    ensures
        strikes(
            frame(m, hands, p).1,
            hi,
            fi,
            s,
            string_note(s, octave_of_zone(hands[hi].fingers@[fi].octave_zone as int), p.transpose as int) as u8,
            if hands[hi].is_left { 1u8 } else { 0u8 },
            if hands[hi].is_left { p.left } else { p.right },
        ),
{
    let es = m.entries;
    let hid = hands[hi].id;
    lemma_retain_unique(es, hands, es.len());
    lemma_retain_live(es, hands, es.len());
    lemma_retain_keeps_live(es, hands, es.len());
    let r = retain_fold(es, hands, es.len());
    assert forall|x: int| 0 <= x < r.0.len() implies (#[trigger] r.0[x]).slots.len() == 5 by {
        assert(drawn_from(es, es.len() as int, r.0[x]));
    }
    assert(live(hands, hid));
    assert(slot_before(r.0, hid, fi, s) == slot_before(es, hid, fi, s)) by {
        if exists|x: int| 0 <= x < es.len() && has_key(#[trigger] es[x], hid, fi) {
            let x = choose|x: int| 0 <= x < es.len() && has_key(#[trigger] es[x], hid, fi);
            lemma_key_index_at(es, hid, fi, x);
            assert(live(hands, es[x].hand_id));
            let a = choose|a: int| 0 <= a < r.0.len() && r.0[a] == es[x];
            lemma_key_index_at(r.0, hid, fi, a);
        } else {
            if exists|a: int| 0 <= a < r.0.len() && has_key(#[trigger] r.0[a], hid, fi) {
                let a = choose|a: int| 0 <= a < r.0.len() && has_key(#[trigger] r.0[a], hid, fi);
                assert(drawn_from(es, es.len() as int, r.0[a]));
                let j = choose|j: int| 0 <= j < es.len() && r.0[a] == #[trigger] es[j];
                assert(has_key(es[j], hid, fi));
            }
        }
    }
    let m0 = HarpModel { entries: r.0, next: m.next };
    lemma_hands_strike(m0, r.1, hands, p, hands.len(), hi, fi, s);
}


proof fn lemma_strings_release(
    slots: Seq<StringSlot>,
    acts: Seq<HarpAction>,
    next: u64,
    hand: HandInput,
    hi: int,
    fi: int,
    p: PlayParams,
    k: nat,
    s: int,
)
    requires
        slots.len() == 5,
        0 <= s < k <= 5,
        !touching(hand, fi, s),
        slots[s].inside,
        slots[s].note_id != 0,
    ensures
        releases(strings_fold(slots, acts, next, hand, hi, fi, p, k).1, slots[s], s),
    decreases k,
{
    let r = strings_fold(slots, acts, next, hand, hi, fi, p, (k - 1) as nat);
    let r2 = strings_fold(slots, acts, next, hand, hi, fi, p, k);
    if k - 1 == s {
        lemma_strings_untouched(slots, acts, next, hand, hi, fi, p, (k - 1) as nat, s);
        assert(r2.1[r.1.len() as int] == HarpAction::NoteOff {
            id: slots[s].note_id,
            midi: slots[s].midi,
            channel: slots[s].channel,
            string: s as usize,
        });
    } else {
        lemma_strings_release(slots, acts, next, hand, hi, fi, p, (k - 1) as nat, s);
        assert(extends(r.1, r2.1));
        lemma_releases_extends(r.1, r2.1, slots[s], s);
    }
}

proof fn lemma_fingers_release(m: HarpModel, acts: Seq<HarpAction>, hand: HandInput, hi: int, p: PlayParams, k: nat, fi: int, s: int)
    requires
        keys_unique(m.entries),
        slots_wf(m.entries),
        0 <= fi < k <= 5,
        0 <= s < 5,
        !touching(hand, fi, s),
        slot_before(m.entries, hand.id, fi, s).inside,
        slot_before(m.entries, hand.id, fi, s).note_id != 0,
    ensures
        releases(fingers_fold(m, acts, hand, hi, p, k).1, slot_before(m.entries, hand.id, fi, s), s),
    decreases k,
{
    let r = fingers_fold(m, acts, hand, hi, p, (k - 1) as nat);
    let r2 = fingers_fold(m, acts, hand, hi, p, k);
    if k - 1 == fi {
        lemma_fingers_keep_other(m, acts, hand, hi, p, (k - 1) as nat, fi, s);
        let es = r.0.entries;
        let i = key_index(es, hand.id, fi);
        let es1 = if i < 0 {
            es.push(fresh_finger(hand.id, fi as u8))
        } else {
            es
        };
        let idx = if i < 0 {
            es.len() as int
        } else {
            i
        };
        if i >= 0 {
            assert(0 <= i < es.len() && has_key(es[i], hand.id, fi));
        }
        assert(es1[idx].slots.len() == 5);
        assert(es1[idx].slots[s] == slot_before(es, hand.id, fi, s));
        lemma_strings_release(es1[idx].slots, r.1, r.0.next, hand, hi, fi, p, 5, s);
    } else {
        lemma_fingers_release(m, acts, hand, hi, p, (k - 1) as nat, fi, s);
        lemma_finger_extends(r.0, r.1, hand, hi, k - 1, p);
        lemma_releases_extends(r.1, r2.1, slot_before(m.entries, hand.id, fi, s), s);
    }
}

proof fn lemma_hands_release(m: HarpModel, acts: Seq<HarpAction>, hands: Seq<HandInput>, p: PlayParams, k: nat, hi: int, fi: int, s: int)
    requires
        keys_unique(m.entries),
        slots_wf(m.entries),
        all_live(m.entries, hands),
        ids_distinct(hands),
        0 <= hi < k <= hands.len(),
        0 <= fi < 5,
        0 <= s < 5,
        !touching(hands[hi], fi, s),
        slot_before(m.entries, hands[hi].id, fi, s).inside,
        slot_before(m.entries, hands[hi].id, fi, s).note_id != 0,
    ensures
        releases(hands_fold(m, acts, hands, p, k).1, slot_before(m.entries, hands[hi].id, fi, s), s),
    decreases k,
{
    let hand = hands[hi];
    let r = hands_fold(m, acts, hands, p, (k - 1) as nat);
    let r2 = hands_fold(m, acts, hands, p, k);
    if k - 1 == hi {
        lemma_hands_keep_slot(m, acts, hands, p, (k - 1) as nat, hi, fi, s);
        lemma_hands_live(m, acts, hands, p, (k - 1) as nat);
        lemma_fingers_release(r.0, r.1, hand, hi, p, 5, fi, s);
    } else {
        lemma_hands_release(m, acts, hands, p, (k - 1) as nat, hi, fi, s);
        lemma_fingers_extend(r.0, r.1, hands[k - 1], k - 1, p, 5);
        lemma_releases_extends(r.1, r2.1, slot_before(m.entries, hand.id, fi, s), s);
    }
}

/// Leaving a string stops its note: in a frame (hands with distinct ids),
/// each finger that was inside a string's band holding a note there and now
/// is curled or outside the band releases it: the frame's actions hold a
/// note-off with that note's id, key and channel, on that string.
pub proof fn every_leaving_finger_releases(m: HarpModel, hands: Seq<HandInput>, p: PlayParams, hi: int, fi: int, s: int)
    requires
        model_wf(m),
        ids_distinct(hands),
        0 <= hi < hands.len(),
        0 <= fi < 5,
        0 <= s < 5,
        !(hands[hi].fingers@[fi].extended && hands[hi].fingers@[fi].in_band@[s]),
        slot_before(m.entries, hands[hi].id, fi, s).inside,
        slot_before(m.entries, hands[hi].id, fi, s).note_id != 0,
    ensures
        releases(frame(m, hands, p).1, slot_before(m.entries, hands[hi].id, fi, s), s),
{
    let es = m.entries;
    let hid = hands[hi].id;
    lemma_retain_unique(es, hands, es.len());
    lemma_retain_live(es, hands, es.len());
    lemma_retain_keeps_live(es, hands, es.len());
    let r = retain_fold(es, hands, es.len());
    assert forall|x: int| 0 <= x < r.0.len() implies (#[trigger] r.0[x]).slots.len() == 5 by {
        assert(drawn_from(es, es.len() as int, r.0[x]));
    }
    assert(live(hands, hid));
    assert(slot_before(r.0, hid, fi, s) == slot_before(es, hid, fi, s)) by {
        if exists|x: int| 0 <= x < es.len() && has_key(#[trigger] es[x], hid, fi) {
            let x = choose|x: int| 0 <= x < es.len() && has_key(#[trigger] es[x], hid, fi);
            lemma_key_index_at(es, hid, fi, x);
            assert(live(hands, es[x].hand_id));
            let a = choose|a: int| 0 <= a < r.0.len() && r.0[a] == es[x];
            lemma_key_index_at(r.0, hid, fi, a);
        } else {
            if exists|a: int| 0 <= a < r.0.len() && has_key(#[trigger] r.0[a], hid, fi) {
                let a = choose|a: int| 0 <= a < r.0.len() && has_key(#[trigger] r.0[a], hid, fi);
                assert(drawn_from(es, es.len() as int, r.0[a]));
                let j = choose|j: int| 0 <= j < es.len() && r.0[a] == #[trigger] es[j];
                assert(has_key(es[j], hid, fi));
            }
        }
    }
    let m0 = HarpModel { entries: r.0, next: m.next };
    lemma_hands_release(m0, r.1, hands, p, hands.len(), hi, fi, s);
}

} // verus!
