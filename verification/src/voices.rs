use vstd::prelude::*;
use crate::instrument::Instrument;

verus! {

/// Number of voices the synth can sound at once.
pub const POLYPHONY: usize = 24;

/// Stage of a voice's amplitude envelope.
#[derive(Copy, Clone, Debug, PartialEq, Eq, Structural)]
pub enum EnvStage {
    Off,
    Attack,
    Decay,
    Sustain,
    Release,
}

/// The control state of one synth voice: which note it plays, whether the
/// key is still held, and where its envelope is. The sample-level state
/// (phases, envelope level, delay line) lives with the audio renderer.
#[derive(Copy, Clone, Debug, PartialEq, Eq, Structural)]
pub struct VoiceCtl {
    /// Note id that started the voice; 0 marks a voice that carries no note.
    pub id: u64,
    /// Still held: no note-off has reached it yet.
    pub held: bool,
    pub midi: u8,
    pub instrument: Instrument,
    pub stage: EnvStage,
}

pub open spec fn is_pluck(i: Instrument) -> bool {
    i == Instrument::Pluck
}

impl VoiceCtl {
    pub open spec fn active(self) -> bool {
        self.stage != EnvStage::Off
    }

    /// A silent, unassigned voice.
    pub open spec fn idle() -> VoiceCtl {
        VoiceCtl { id: 0, held: false, midi: 0, instrument: Instrument::Sine, stage: EnvStage::Off }
    }

    /// A voice just struck: held, with its envelope starting at the attack
    /// stage (a pluck's envelope is instantly at its sustain level).
    pub open spec fn started(id: u64, midi: u8, instrument: Instrument) -> VoiceCtl {
        VoiceCtl {
            id,
            held: true,
            midi,
            instrument,
            stage: if is_pluck(instrument) { EnvStage::Sustain } else { EnvStage::Attack },
        }
    }

    /// The voice after its key is let go: no longer held, and (except for a
    /// pluck, which rings out on its own) in the release stage.
    pub open spec fn released(self) -> VoiceCtl {
        VoiceCtl {
            held: false,
            stage: if is_pluck(self.instrument) { self.stage } else { EnvStage::Release },
            ..self
        }
    }

    /// Released by a note-off while the sustain pedal was down: still
    /// sounding, waiting for the pedal.
    pub open spec fn pending(self) -> bool {
        !self.held && self.active() && !is_pluck(self.instrument)
    }

    pub fn new() -> (v: VoiceCtl)
        ensures
            v == VoiceCtl::idle(),
    {
        VoiceCtl { id: 0, held: false, midi: 0, instrument: Instrument::Sine, stage: EnvStage::Off }
    }

    pub fn start(&mut self, id: u64, midi: u8, instrument: Instrument)
        ensures
            *final(self) == VoiceCtl::started(id, midi, instrument),
    {
        self.id = id;
        self.held = true;
        self.midi = midi;
        self.instrument = instrument;
        self.stage = match instrument {
            Instrument::Pluck => EnvStage::Sustain,
            _ => EnvStage::Attack,
        };
    }

    pub fn release(&mut self)
        ensures
            *final(self) == old(self).released(),
    {
        self.held = false;
        match self.instrument {
            Instrument::Pluck => {},
            _ => {
                self.stage = EnvStage::Release;
            },
        }
    }

    pub fn is_active(&self) -> (r: bool)
        ensures
            r == self.active(),
    {
        match self.stage {
            EnvStage::Off => false,
            _ => true,
        }
    }
}

/// Envelope stage after one sample. `crossed` tells whether the level
/// reached the current stage's target on that sample: full level during the
/// attack, the sustain level during the decay, silence during the release.
/// Sustain is held until a release; a silent voice stays silent.
pub open spec fn stage_after(stage: EnvStage, crossed: bool) -> EnvStage {
    match stage {
        EnvStage::Attack => if crossed {
            EnvStage::Decay
        } else {
            EnvStage::Attack
        },
        EnvStage::Decay => if crossed {
            EnvStage::Sustain
        } else {
            EnvStage::Decay
        },
        EnvStage::Release => if crossed {
            EnvStage::Off
        } else {
            EnvStage::Release
        },
        other => other,
    }
}

pub fn next_stage(stage: EnvStage, crossed: bool) -> (r: EnvStage)
    ensures
        r == stage_after(stage, crossed),
{
    match stage {
        EnvStage::Attack => if crossed {
            EnvStage::Decay
        } else {
            EnvStage::Attack
        },
        EnvStage::Decay => if crossed {
            EnvStage::Sustain
        } else {
            EnvStage::Decay
        },
        EnvStage::Release => if crossed {
            EnvStage::Off
        } else {
            EnvStage::Release
        },
        EnvStage::Sustain => EnvStage::Sustain,
        EnvStage::Off => EnvStage::Off,
    }
}

/// Order of the stages along an envelope: attack, decay, sustain, then
/// release and silence.
pub open spec fn stage_rank(s: EnvStage) -> int {
    match s {
        EnvStage::Attack => 0,
        EnvStage::Decay => 1,
        EnvStage::Sustain => 2,
        EnvStage::Release => 3,
        EnvStage::Off => 4,
    }
}

/// Samples only move an envelope forward, and never from a held stage into
/// the release or silence: only a note-off releases a voice.
pub proof fn envelope_moves_forward(stage: EnvStage, crossed: bool)
    ensures
        stage_rank(stage_after(stage, crossed)) >= stage_rank(stage),
        stage_rank(stage) <= 2 ==> stage_rank(stage_after(stage, crossed)) <= 2,
        stage == EnvStage::Off ==> stage_after(stage, crossed) == EnvStage::Off,
{
}

impl VoiceCtl {
    /// A plucked string has no release stage: its voice is retired once the
    /// string has gone quiet.
    pub fn retire_if_quiet(&mut self, quiet: bool)
        ensures
            *final(self) == if is_pluck(old(self).instrument) && quiet {
                VoiceCtl { stage: EnvStage::Off, ..*old(self) }
            } else {
                *old(self)
            },
    {
        match self.instrument {
            Instrument::Pluck => {
                if quiet {
                    self.stage = EnvStage::Off;
                }
            },
            _ => {},
        }
    }
}

/// Index of the first voice that is not sounding, if any.
pub open spec fn is_first_free(vs: Seq<VoiceCtl>, i: int) -> bool {
    &&& 0 <= i < vs.len()
    &&& !vs[i].active()
    &&& forall|j: int| 0 <= j < i ==> (#[trigger] vs[j]).active()
}

/// Index of the first voice with the lowest envelope level.
pub open spec fn is_first_quietest(levels: Seq<u32>, i: int) -> bool {
    &&& 0 <= i < levels.len()
    &&& forall|j: int| 0 <= j < levels.len() ==> levels[i] <= #[trigger] levels[j]
    &&& forall|j: int| 0 <= j < i ==> levels[i] < #[trigger] levels[j]
}

/// Chooses the voice for a new note: the first free voice, or else the one
/// playing most quietly (the first such). `levels[i]` orders voice `i` by
/// its current envelope level.
pub fn pick_voice(voices: &Vec<VoiceCtl>, levels: &Vec<u32>) -> (r: usize)
    requires
        levels.len() == voices.len(),
    ensures
        voices.len() == 0 ==> r == 0,
        (exists|i: int| 0 <= i < voices.len() && !(#[trigger] voices@[i]).active()) ==> is_first_free(voices@, r as int),
        (forall|i: int| 0 <= i < voices.len() ==> (#[trigger] voices@[i]).active()) && voices.len() > 0
            ==> is_first_quietest(levels@, r as int),
{
    let n = voices.len();
    let mut i: usize = 0;
    while i < n
        invariant
            n == voices.len(),
            i <= n,
            forall|j: int| 0 <= j < i ==> (#[trigger] voices@[j]).active(),
        decreases n - i,
    {
        if !voices[i].is_active() {
            return i;
        }
        i = i + 1;
    }
    if n == 0 {
        return 0;
    }
    let mut best: usize = 0;
    let mut k: usize = 1;
    while k < n
        invariant
            n == voices.len(),
            n == levels.len(),
            1 <= k <= n,
            best < k,
            forall|j: int| 0 <= j < k ==> levels@[best as int] <= #[trigger] levels@[j],
            forall|j: int| 0 <= j < best ==> levels@[best as int] < #[trigger] levels@[j],
        decreases n - k,
    {
        if levels[k] < levels[best] {
            best = k;
        }
        k = k + 1;
    }
    best
}

/// What the audio thread is asked to do with its voices.
#[derive(Copy, Clone, Debug, PartialEq, Eq, Structural)]
pub enum ControlEvent {
    NoteOn { id: u64, midi: u8, instrument: Instrument },
    NoteOff { id: u64 },
    SetSustain(bool),
    PanicOff,
}

/// Effect of a note-off for `id` on one voice.
pub open spec fn note_off_voice(v: VoiceCtl, id: u64, sustain: bool) -> VoiceCtl {
    if v.id == id && v.held {
        if sustain {
            VoiceCtl { held: false, ..v }
        } else {
            v.released()
        }
    } else {
        v
    }
}

pub open spec fn note_off_all(vs: Seq<VoiceCtl>, id: u64, sustain: bool) -> Seq<VoiceCtl> {
    Seq::new(vs.len(), |i: int| note_off_voice(vs[i], id, sustain))
}

/// Lifting the sustain pedal releases every voice that was waiting for it.
pub open spec fn pedal_up(vs: Seq<VoiceCtl>) -> Seq<VoiceCtl> {
    Seq::new(vs.len(), |i: int| if vs[i].pending() { vs[i].released() } else { vs[i] })
}

pub open spec fn silenced(v: VoiceCtl) -> VoiceCtl {
    VoiceCtl { stage: EnvStage::Off, id: 0, held: false, ..v }
}

pub open spec fn panic_all(vs: Seq<VoiceCtl>) -> Seq<VoiceCtl> {
    Seq::new(vs.len(), |i: int| silenced(vs[i]))
}

/// The control side of the synth: the voices and the sustain pedal.
pub struct VoiceBank {
    pub voices: Vec<VoiceCtl>,
    pub sustain: bool,
}

impl VoiceBank {
    /// `POLYPHONY` idle voices, pedal up.
    pub fn new() -> (b: VoiceBank)
        ensures
            b.voices.len() == POLYPHONY,
            forall|i: int| 0 <= i < POLYPHONY ==> #[trigger] b.voices@[i] == VoiceCtl::idle(),
            !b.sustain,
    {
        let mut voices: Vec<VoiceCtl> = Vec::new();
        let mut i: usize = 0;
        while i < POLYPHONY
            invariant
                i <= POLYPHONY,
                voices.len() == i,
                forall|j: int| 0 <= j < i ==> #[trigger] voices@[j] == VoiceCtl::idle(),
            decreases POLYPHONY - i,
        {
            voices.push(VoiceCtl::new());
            i = i + 1;
        }
        VoiceBank { voices, sustain: false }
    }

    /// Note-off for `id`: every held voice playing it lets go. With the
    /// pedal down it keeps sounding until the pedal is lifted.
    pub fn note_off(&mut self, id: u64)
        ensures
            final(self).voices@ == note_off_all(old(self).voices@, id, old(self).sustain),
            final(self).sustain == old(self).sustain,
    {
        let n = self.voices.len();
        let mut i: usize = 0;
        while i < n
            invariant
                n == self.voices.len(),
                i <= n,
                self.sustain == old(self).sustain,
                n == old(self).voices.len(),
                forall|j: int| 0 <= j < i ==> #[trigger] self.voices@[j] == note_off_voice(old(self).voices@[j], id, old(self).sustain),
                forall|j: int| i <= j < n ==> #[trigger] self.voices@[j] == old(self).voices@[j],
            decreases n - i,
        {
            let mut v = self.voices[i];
            if v.id == id && v.held {
                if self.sustain {
                    v.held = false;
                } else {
                    v.release();
                }
            }
            self.voices.set(i, v);
            i = i + 1;
        }
        assert(self.voices@ =~= note_off_all(old(self).voices@, id, old(self).sustain));
    }

    /// Sets the sustain pedal; lifting it releases the voices it was holding.
    pub fn set_sustain(&mut self, on: bool)
        ensures
            final(self).sustain == on,
            final(self).voices@ == if old(self).sustain && !on { pedal_up(old(self).voices@) } else { old(self).voices@ },
    {
        if self.sustain && !on {
            let n = self.voices.len();
            let mut i: usize = 0;
            while i < n
                invariant
                    n == self.voices.len(),
                    i <= n,
                    n == old(self).voices.len(),
                    forall|j: int| 0 <= j < i ==> #[trigger] self.voices@[j] == (if old(self).voices@[j].pending() { old(self).voices@[j].released() } else { old(self).voices@[j] }),
                    forall|j: int| i <= j < n ==> #[trigger] self.voices@[j] == old(self).voices@[j],
                decreases n - i,
            {
                let mut v = self.voices[i];
                let pluck = match v.instrument {
                    Instrument::Pluck => true,
                    _ => false,
                };
                if !v.held && v.is_active() && !pluck {
                    v.release();
                }
                self.voices.set(i, v);
                i = i + 1;
            }
            assert(self.voices@ =~= pedal_up(old(self).voices@));
        }
        self.sustain = on;
    }

    /// Silences every voice at once and forgets which note each carried.
    pub fn panic_off(&mut self)
        ensures
            final(self).voices@ == panic_all(old(self).voices@),
            final(self).sustain == old(self).sustain,
    {
        let n = self.voices.len();
        let mut i: usize = 0;
        while i < n
            invariant
                n == self.voices.len(),
                i <= n,
                self.sustain == old(self).sustain,
                n == old(self).voices.len(),
                forall|j: int| 0 <= j < i ==> #[trigger] self.voices@[j] == silenced(old(self).voices@[j]),
                forall|j: int| i <= j < n ==> #[trigger] self.voices@[j] == old(self).voices@[j],
            decreases n - i,
        {
            let mut v = self.voices[i];
            v.stage = EnvStage::Off;
            v.id = 0;
            v.held = false;
            self.voices.set(i, v);
            i = i + 1;
        }
        assert(self.voices@ =~= panic_all(old(self).voices@));
    }

    /// Starts a note on the voice `pick_voice` chooses and returns its index.
    pub fn note_on(&mut self, id: u64, midi: u8, instrument: Instrument, levels: &Vec<u32>) -> (slot: usize)
        requires
            old(self).voices.len() > 0,
            levels.len() == old(self).voices.len(),
        ensures
            slot < old(self).voices.len(),
            (exists|i: int| 0 <= i < old(self).voices.len() && !(#[trigger] old(self).voices@[i]).active())
                ==> is_first_free(old(self).voices@, slot as int),
            (forall|i: int| 0 <= i < old(self).voices.len() ==> (#[trigger] old(self).voices@[i]).active())
                ==> is_first_quietest(levels@, slot as int),
            final(self).voices@ == old(self).voices@.update(slot as int, VoiceCtl::started(id, midi, instrument)),
            final(self).sustain == old(self).sustain,
    {
        let slot = pick_voice(&self.voices, levels);
        let mut v = self.voices[slot];
        v.start(id, midi, instrument);
        self.voices.set(slot, v);
        slot
    }

    /// Applies one control event; for a note-on, returns the voice it took.
    pub fn apply(&mut self, ev: ControlEvent, levels: &Vec<u32>) -> (slot: Option<usize>)
        requires
            old(self).voices.len() > 0,
            levels.len() == old(self).voices.len(),
        ensures
            match ev {
                ControlEvent::NoteOn { id, midi, instrument } => {
                    &&& slot matches Some(s) && s < old(self).voices.len()
                    &&& final(self).voices@ == old(self).voices@.update(slot->0 as int, VoiceCtl::started(id, midi, instrument))
                    &&& final(self).sustain == old(self).sustain
                    &&& (exists|i: int| 0 <= i < old(self).voices.len() && !(#[trigger] old(self).voices@[i]).active())
                        ==> is_first_free(old(self).voices@, slot->0 as int)
                    &&& (forall|i: int| 0 <= i < old(self).voices.len() ==> (#[trigger] old(self).voices@[i]).active())
                        ==> is_first_quietest(levels@, slot->0 as int)
                },
                ControlEvent::NoteOff { id } => {
                    &&& slot is None
                    &&& final(self).voices@ == note_off_all(old(self).voices@, id, old(self).sustain)
                    &&& final(self).sustain == old(self).sustain
                },
                ControlEvent::SetSustain(on) => {
                    &&& slot is None
                    &&& final(self).sustain == on
                    &&& final(self).voices@ == if old(self).sustain && !on { pedal_up(old(self).voices@) } else { old(self).voices@ }
                },
                ControlEvent::PanicOff => {
                    &&& slot is None
                    &&& final(self).voices@ == panic_all(old(self).voices@)
                    &&& final(self).sustain == old(self).sustain
                },
            },
    {
        match ev {
            ControlEvent::NoteOn { id, midi, instrument } => Some(self.note_on(id, midi, instrument, levels)),
            ControlEvent::NoteOff { id } => {
                self.note_off(id);
                None
            },
            ControlEvent::SetSustain(on) => {
                self.set_sustain(on);
                None
            },
            ControlEvent::PanicOff => {
                self.panic_off();
                None
            },
        }
    }
}

/// The sustain pedal only postpones releases: a note-off while the pedal is
/// down followed by lifting the pedal leaves the voices exactly as lifting
/// the pedal first and then sending the note-off would. (Holds whenever every
/// held non-pluck voice is sounding, which the synth maintains: only a
/// release can end such a voice's envelope.)
pub proof fn pedal_only_postpones_release(vs: Seq<VoiceCtl>, id: u64)
    requires
        forall|i: int| 0 <= i < vs.len() && (#[trigger] vs[i]).held && !is_pluck(vs[i].instrument) ==> vs[i].active(),
    ensures
        pedal_up(note_off_all(vs, id, true)) == note_off_all(pedal_up(vs), id, false),
{
    assert(pedal_up(note_off_all(vs, id, true)) =~= note_off_all(pedal_up(vs), id, false));
}

/// After a panic no voice sounds and none carries a note.
pub proof fn panic_silences_everything(vs: Seq<VoiceCtl>)
    ensures
        panic_all(vs).len() == vs.len(),
        forall|i: int| 0 <= i < vs.len() ==> (#[trigger] panic_all(vs)[i]).stage == EnvStage::Off && panic_all(vs)[i].id == 0
            && !panic_all(vs)[i].held && panic_all(vs)[i].midi == vs[i].midi
            && panic_all(vs)[i].instrument == vs[i].instrument,
{
}

/// A note-off leaves no voice of that note held, pedal up or down.
pub proof fn note_off_lets_go(vs: Seq<VoiceCtl>, id: u64, sustain: bool)
    ensures
        forall|i: int| 0 <= i < vs.len() && (#[trigger] note_off_all(vs, id, sustain)[i]).id == id
            ==> !note_off_all(vs, id, sustain)[i].held,
{
}


/// A started voice plays exactly the note and instrument it was asked for,
/// under the given id, with its key held; its envelope starts at the attack,
/// or, for a plucked string, straight at full level.
pub proof fn start_plays_what_was_asked(v: VoiceCtl, id: u64, midi: u8, instrument: Instrument)
    ensures
        VoiceCtl::started(id, midi, instrument).id == id,
        VoiceCtl::started(id, midi, instrument).midi == midi,
        VoiceCtl::started(id, midi, instrument).instrument == instrument,
        VoiceCtl::started(id, midi, instrument).held,
        VoiceCtl::started(id, midi, instrument).active(),
        instrument == Instrument::Pluck ==> VoiceCtl::started(id, midi, instrument).stage == EnvStage::Sustain,
        instrument != Instrument::Pluck ==> VoiceCtl::started(id, midi, instrument).stage == EnvStage::Attack,
{
}

/// A note-off for `id` touches only the held voices playing `id`: every
/// other voice is left exactly as it was. A voice it touches lets go of its
/// key and keeps its note and instrument; with the pedal up it enters the
/// release (a plucked string rings on in its stage), with the pedal down it
/// keeps sounding in its stage.
pub proof fn note_off_touches_only_its_note(vs: Seq<VoiceCtl>, id: u64, sustain: bool, i: int)
    requires
        0 <= i < vs.len(),
    ensures
        note_off_all(vs, id, sustain).len() == vs.len(),
        vs[i].id != id ==> note_off_all(vs, id, sustain)[i] == vs[i],
        !vs[i].held ==> note_off_all(vs, id, sustain)[i] == vs[i],
        vs[i].id == id && vs[i].held ==> {
            let w = note_off_all(vs, id, sustain)[i];
            &&& !w.held
            &&& w.id == vs[i].id
            &&& w.midi == vs[i].midi
            &&& w.instrument == vs[i].instrument
            &&& (sustain ==> w.stage == vs[i].stage)
            &&& (!sustain && vs[i].instrument != Instrument::Pluck ==> w.stage == EnvStage::Release)
            &&& (!sustain && vs[i].instrument == Instrument::Pluck ==> w.stage == vs[i].stage)
        },
{
}

/// Lifting the pedal releases exactly the voices that were waiting for it
/// (let go while the pedal was down, still sounding, not a plucked string):
/// those enter the release with their note unchanged; every other voice,
/// in particular every voice whose key is still held, is left as it was.
pub proof fn pedal_up_releases_only_waiting(vs: Seq<VoiceCtl>, i: int)
    requires
        0 <= i < vs.len(),
    ensures
        pedal_up(vs).len() == vs.len(),
        vs[i].held ==> pedal_up(vs)[i] == vs[i],
        vs[i].stage == EnvStage::Off ==> pedal_up(vs)[i] == vs[i],
        vs[i].instrument == Instrument::Pluck ==> pedal_up(vs)[i] == vs[i],
        !vs[i].held && vs[i].stage != EnvStage::Off && vs[i].instrument != Instrument::Pluck ==> {
            let w = pedal_up(vs)[i];
            &&& w.stage == EnvStage::Release
            &&& !w.held
            &&& w.id == vs[i].id
            &&& w.midi == vs[i].midi
            &&& w.instrument == vs[i].instrument
        },
{
}

/// An envelope stage changes only on the sample where its target is
/// crossed, and then moves one step: attack to decay, decay to sustain,
/// release to silence. Sustain and silence never change on their own.
pub proof fn stage_changes_only_on_crossing(stage: EnvStage)
    ensures
        stage_after(stage, false) == stage,
        stage_after(EnvStage::Attack, true) == EnvStage::Decay,
        stage_after(EnvStage::Decay, true) == EnvStage::Sustain,
        stage_after(EnvStage::Release, true) == EnvStage::Off,
        stage_after(EnvStage::Sustain, true) == EnvStage::Sustain,
        stage_after(EnvStage::Off, true) == EnvStage::Off,
{
}

} // verus!
