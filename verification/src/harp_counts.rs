use vstd::prelude::*;
use crate::harp::{
    fingers_fold, finger_step, frame, fresh_finger, fresh_slot, hands_fold, key_index, live, model_wf,
    next_active, offs_fold, retain_fold, string_delta, string_step, strings_fold, FingerModel, HandInput,
    HarpAction, HarpModel, PlayParams, StringSlot, drawn_from, lemma_retain_unique, has_key, slots_wf,
};

verus! {

pub open spec fn holds(slot: StringSlot) -> int {
    if slot.note_id != 0 {
        1
    } else {
        0
    }
}

/// Number of fingers holding a note on string `s`.
pub open spec fn count_on(es: Seq<FingerModel>, s: int) -> int
    decreases es.len(),
{
    if es.len() == 0 {
        0
    } else {
        count_on(es.drop_last(), s) + holds(es.last().slots[s])
    }
}

/// A finger holds a note on a string only while it is inside the string's
/// band.
pub open spec fn notes_inside(es: Seq<FingerModel>) -> bool {
    forall|i: int, t: int|
        0 <= i < es.len() && 0 <= t < 5 && (#[trigger] es[i].slots[t]).note_id != 0 ==> es[i].slots[t].inside
}

pub open spec fn step_delta(a: HarpAction, s: int) -> int {
    match a {
        HarpAction::NoteOn { string, .. } => if string == s {
            1int
        } else {
            0int
        },
        HarpAction::NoteOff { string, .. } => if string == s {
            -1int
        } else {
            0int
        },
    }
}

proof fn lemma_delta_push(acts: Seq<HarpAction>, x: HarpAction, s: int)
    ensures
        string_delta(acts.push(x), s) == string_delta(acts, s) + step_delta(x, s),
{
    assert(acts.push(x).drop_last() =~= acts);
}

proof fn lemma_count_nonneg(es: Seq<FingerModel>, s: int)
    ensures
        count_on(es, s) >= 0,
    decreases es.len(),
{
    if es.len() > 0 {
        lemma_count_nonneg(es.drop_last(), s);
    }
}

proof fn lemma_count_push(es: Seq<FingerModel>, e: FingerModel, s: int)
    ensures
        count_on(es.push(e), s) == count_on(es, s) + holds(e.slots[s]),
{
    assert(es.push(e).drop_last() =~= es);
}

proof fn lemma_count_update(es: Seq<FingerModel>, i: int, e: FingerModel, s: int)
    requires
        0 <= i < es.len(),
    ensures
        count_on(es.update(i, e), s) == count_on(es, s) - holds(es[i].slots[s]) + holds(e.slots[s]),
    decreases es.len(),
{
    let u = es.update(i, e);
    if i == es.len() - 1 {
        assert(u.drop_last() =~= es.drop_last());
    } else {
        lemma_count_update(es.drop_last(), i, e, s);
        assert(u.drop_last() =~= es.drop_last().update(i, e));
    }
}

proof fn lemma_strings_count(
    slots: Seq<StringSlot>,
    acts: Seq<HarpAction>,
    next: u64,
    hand: HandInput,
    hi: int,
    fi: int,
    p: PlayParams,
    k: nat,
)
    requires
        slots.len() == 5,
        k <= 5,
        next != 0,
        forall|t: int| 0 <= t < 5 && (#[trigger] slots[t]).note_id != 0 ==> slots[t].inside,
    ensures
        ({
            let r = strings_fold(slots, acts, next, hand, hi, fi, p, k);
            &&& r.0.len() == 5
            &&& r.2 != 0
            &&& forall|t: int| 0 <= t < 5 && (#[trigger] r.0[t]).note_id != 0 ==> r.0[t].inside
            &&& forall|t: int|
                0 <= t < 5 ==> holds(#[trigger] r.0[t]) - holds(slots[t]) == string_delta(r.1, t) - string_delta(acts, t)
        }),
    decreases k,
{
    if k > 0 {
        lemma_strings_count(slots, acts, next, hand, hi, fi, p, (k - 1) as nat);
        let r = strings_fold(slots, acts, next, hand, hi, fi, p, (k - 1) as nat);
        let s0 = k - 1;
        let r2 = string_step(r.0, r.1, r.2, hand, hi, fi, s0, p);
        if r2.1.len() > r.1.len() {
            let x = r2.1.last();
            assert(r2.1 == r.1.push(x));
            assert forall|t: int| 0 <= t < 5 implies #[trigger] string_delta(r2.1, t) == string_delta(r.1, t) + step_delta(x, t) by {
                lemma_delta_push(r.1, x, t);
            }
        }
        assert forall|t: int| 0 <= t < 5 && (#[trigger] r2.0[t]).note_id != 0 implies r2.0[t].inside by {
            if t != s0 {
                assert(r2.0[t] == r.0[t]);
            }
        }
        assert forall|t: int| 0 <= t < 5 implies holds(#[trigger] r2.0[t]) - holds(slots[t]) == string_delta(r2.1, t)
            - string_delta(acts, t) by {
            assert(holds(r.0[t]) - holds(slots[t]) == string_delta(r.1, t) - string_delta(acts, t));
            if t != s0 {
                assert(r2.0[t] == r.0[t]);
            }
        }
    }
}

pub open spec fn counts_follow(before: Seq<FingerModel>, after: Seq<FingerModel>, a0: Seq<HarpAction>, a1: Seq<HarpAction>) -> bool {
    forall|t: int| 0 <= t < 5 ==> #[trigger] count_on(after, t) == count_on(before, t) + string_delta(a1, t) - string_delta(a0, t)
}

proof fn lemma_finger_count(m: HarpModel, acts: Seq<HarpAction>, hand: HandInput, hi: int, fi: int, p: PlayParams)
    requires
        slots_wf(m.entries),
        notes_inside(m.entries),
        m.next != 0,
    ensures
        ({
            let r = finger_step(m, acts, hand, hi, fi, p);
            &&& slots_wf(r.0.entries)
            &&& notes_inside(r.0.entries)
            &&& r.0.next != 0
            &&& counts_follow(m.entries, r.0.entries, acts, r.1)
        }),
{
    let i = key_index(m.entries, hand.id, fi);
    let fresh = fresh_finger(hand.id, fi as u8);
    let es = if i < 0 {
        m.entries.push(fresh)
    } else {
        m.entries
    };
    let idx = if i < 0 {
        m.entries.len() as int
    } else {
        i
    };
    if i >= 0 {
        assert(0 <= i < m.entries.len() && has_key(m.entries[i], hand.id, fi));
    }
    assert forall|t: int| 0 <= t < 5 implies #[trigger] count_on(es, t) == count_on(m.entries, t) by {
        if i < 0 {
            lemma_count_push(m.entries, fresh, t);
            assert(fresh.slots[t] == fresh_slot());
        }
    }
    assert(slots_wf(es)) by {
        assert forall|x: int| 0 <= x < es.len() implies (#[trigger] es[x]).slots.len() == 5 by {
            if x < m.entries.len() {
                assert(es[x] == m.entries[x]);
            }
        }
    }
    assert(notes_inside(es)) by {
        assert forall|x: int, t: int| 0 <= x < es.len() && 0 <= t < 5 && (#[trigger] es[x].slots[t]).note_id != 0 implies es[x].slots[t].inside by {
            if x < m.entries.len() {
                assert(es[x] == m.entries[x]);
            } else {
                assert(es[x].slots[t] == fresh_slot());
            }
        }
    }
    let slots = es[idx].slots;
    assert forall|t: int| 0 <= t < 5 && (#[trigger] slots[t]).note_id != 0 implies slots[t].inside by {
        assert(es[idx].slots[t] == slots[t]);
    }
    lemma_strings_count(slots, acts, m.next, hand, hi, fi, p, 5);
    let r = strings_fold(slots, acts, m.next, hand, hi, fi, p, 5);
    let e2 = FingerModel { slots: r.0, ..es[idx] };
    let es2 = es.update(idx, e2);
    assert forall|t: int| 0 <= t < 5 implies #[trigger] count_on(es2, t) == count_on(m.entries, t) + string_delta(r.1, t)
        - string_delta(acts, t) by {
        lemma_count_update(es, idx, e2, t);
        assert(holds(r.0[t]) - holds(slots[t]) == string_delta(r.1, t) - string_delta(acts, t));
    }
    assert forall|x: int| 0 <= x < es2.len() implies (#[trigger] es2[x]).slots.len() == 5 by {
        if x != idx {
            assert(es2[x] == es[x]);
        }
    }
    assert forall|x: int, t: int| 0 <= x < es2.len() && 0 <= t < 5 && (#[trigger] es2[x].slots[t]).note_id != 0 implies es2[x].slots[t].inside by {
        if x != idx {
            assert(es2[x] == es[x]);
        } else {
            assert(es2[x].slots == r.0);
        }
    }
}

proof fn lemma_fingers_count(m: HarpModel, acts: Seq<HarpAction>, hand: HandInput, hi: int, p: PlayParams, k: nat)
    requires
        slots_wf(m.entries),
        notes_inside(m.entries),
        m.next != 0,
    ensures
        ({
            let r = fingers_fold(m, acts, hand, hi, p, k);
            &&& slots_wf(r.0.entries)
            &&& notes_inside(r.0.entries)
            &&& r.0.next != 0
            &&& counts_follow(m.entries, r.0.entries, acts, r.1)
        }),
    decreases k,
{
    if k > 0 {
        lemma_fingers_count(m, acts, hand, hi, p, (k - 1) as nat);
        let r = fingers_fold(m, acts, hand, hi, p, (k - 1) as nat);
        lemma_finger_count(r.0, r.1, hand, hi, k - 1, p);
        let r2 = fingers_fold(m, acts, hand, hi, p, k);
        assert forall|t: int| 0 <= t < 5 implies #[trigger] count_on(r2.0.entries, t) == count_on(m.entries, t)
            + string_delta(r2.1, t) - string_delta(acts, t) by {
            assert(count_on(r.0.entries, t) == count_on(m.entries, t) + string_delta(r.1, t) - string_delta(acts, t));
            assert(count_on(r2.0.entries, t) == count_on(r.0.entries, t) + string_delta(r2.1, t) - string_delta(r.1, t));
        }
    }
}

proof fn lemma_hands_count(m: HarpModel, acts: Seq<HarpAction>, hands: Seq<HandInput>, p: PlayParams, k: nat)
    requires
        slots_wf(m.entries),
        notes_inside(m.entries),
        m.next != 0,
    ensures
        ({
            let r = hands_fold(m, acts, hands, p, k);
            &&& slots_wf(r.0.entries)
            &&& notes_inside(r.0.entries)
            &&& r.0.next != 0
            &&& counts_follow(m.entries, r.0.entries, acts, r.1)
        }),
    decreases k,
{
    if k > 0 {
        lemma_hands_count(m, acts, hands, p, (k - 1) as nat);
        let r = hands_fold(m, acts, hands, p, (k - 1) as nat);
        lemma_fingers_count(r.0, r.1, hands[k - 1], k - 1, p, 5);
        let r2 = hands_fold(m, acts, hands, p, k);
        assert forall|t: int| 0 <= t < 5 implies #[trigger] count_on(r2.0.entries, t) == count_on(m.entries, t)
            + string_delta(r2.1, t) - string_delta(acts, t) by {
            assert(count_on(r.0.entries, t) == count_on(m.entries, t) + string_delta(r.1, t) - string_delta(acts, t));
            assert(count_on(r2.0.entries, t) == count_on(r.0.entries, t) + string_delta(r2.1, t) - string_delta(r.1, t));
        }
    }
}

proof fn lemma_offs_count(e: FingerModel, acts: Seq<HarpAction>, k: nat)
    requires
        k <= 5,
    ensures
        forall|t: int|
            0 <= t < 5 ==> #[trigger] string_delta(offs_fold(e, acts, k), t) == string_delta(acts, t) - (if t < k {
                holds(e.slots[t])
            } else {
                0
            }),
    decreases k,
{
    if k > 0 {
        lemma_offs_count(e, acts, (k - 1) as nat);
        let a = offs_fold(e, acts, (k - 1) as nat);
        let slot = e.slots[k - 1];
        if slot.note_id != 0 {
            let x = HarpAction::NoteOff { id: slot.note_id, midi: slot.midi, channel: slot.channel, string: (k - 1) as usize };
            assert forall|t: int| 0 <= t < 5 implies #[trigger] string_delta(a.push(x), t) == string_delta(a, t) + step_delta(x, t) by {
                lemma_delta_push(a, x, t);
            }
        }
    }
}

proof fn lemma_retain_count(es: Seq<FingerModel>, hands: Seq<HandInput>, k: nat)
    requires
        k <= es.len(),
    ensures
        forall|t: int|
            0 <= t < 5 ==> #[trigger] count_on(retain_fold(es, hands, k).0, t) == count_on(es.subrange(0, k as int), t)
                + string_delta(retain_fold(es, hands, k).1, t),
    decreases k,
{
    if k == 0 {
        assert(es.subrange(0, 0) =~= Seq::<FingerModel>::empty());
        assert(retain_fold(es, hands, 0).1 =~= Seq::<HarpAction>::empty());
    } else {
        lemma_retain_count(es, hands, (k - 1) as nat);
        let r = retain_fold(es, hands, (k - 1) as nat);
        let e = es[k - 1];
        assert(es.subrange(0, k as int).drop_last() =~= es.subrange(0, k - 1));
        if live(hands, e.hand_id) {
            assert forall|t: int| 0 <= t < 5 implies #[trigger] count_on(r.0.push(e), t) == count_on(es.subrange(0, k as int), t)
                + string_delta(r.1, t) by {
                lemma_count_push(r.0, e, t);
            }
        } else {
            lemma_offs_count(e, r.1, 5);
        }
    }
}

/// The harp's per-string note count follows its actions: after a frame,
/// the number of fingers holding a note on each string is the number
/// before plus that string's note-ons minus its note-offs. And a finger
/// holds a note on a string only while inside it, before and after.
pub proof fn frame_counts_notes(m: HarpModel, hands: Seq<HandInput>, p: PlayParams)
    requires
        model_wf(m),
        notes_inside(m.entries),
    ensures
        notes_inside(frame(m, hands, p).0.entries),
        forall|t: int|
            0 <= t < 5 ==> #[trigger] count_on(frame(m, hands, p).0.entries, t) == count_on(m.entries, t) + string_delta(
                frame(m, hands, p).1,
                t,
            ),
{
    let es = m.entries;
    lemma_retain_count(es, hands, es.len());
    lemma_retain_unique(es, hands, es.len());
    let r = retain_fold(es, hands, es.len());
    assert(es.subrange(0, es.len() as int) =~= es);
    assert forall|x: int| 0 <= x < r.0.len() implies (#[trigger] r.0[x]).slots.len() == 5 by {
        assert(drawn_from(es, es.len() as int, r.0[x]));
    }
    assert forall|x: int, t: int| 0 <= x < r.0.len() && 0 <= t < 5 && (#[trigger] r.0[x].slots[t]).note_id != 0 implies r.0[x].slots[t].inside by {
        assert(drawn_from(es, es.len() as int, r.0[x]));
        let j = choose|j: int| 0 <= j < es.len() && r.0[x] == #[trigger] es[j];
        assert(es[j].slots[t] == r.0[x].slots[t]);
    }
    let m0 = HarpModel { entries: r.0, next: m.next };
    lemma_hands_count(m0, r.1, hands, p, hands.len());
}

/// The per-string activity count the harp keeps is exactly the number of
/// fingers holding a note on that string, as long as that number fits in
/// a byte.
pub proof fn active_counts_track_notes(m: HarpModel, hands: Seq<HandInput>, p: PlayParams, active: u8, t: int)
    requires
        model_wf(m),
        notes_inside(m.entries),
        0 <= t < 5,
        active == count_on(m.entries, t),
        count_on(frame(m, hands, p).0.entries, t) < 256,
    ensures
        next_active(active, string_delta(frame(m, hands, p).1, t)) == count_on(frame(m, hands, p).0.entries, t),
{
    frame_counts_notes(m, hands, p);
    lemma_count_nonneg(frame(m, hands, p).0.entries, t);
}

} // verus!
