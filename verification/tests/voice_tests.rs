use laser_harp::instrument::Instrument;
use laser_harp::voices::{next_stage, pick_voice, ControlEvent, EnvStage, VoiceBank, VoiceCtl, POLYPHONY};

fn sounding(id: u64, instrument: Instrument) -> VoiceCtl {
    let mut v = VoiceCtl::new();
    v.start(id, 60, instrument);
    v
}

#[test]
fn new_bank_is_idle() {
    let b = VoiceBank::new();
    assert_eq!(b.voices.len(), POLYPHONY);
    assert!(!b.sustain);
    for v in &b.voices {
        assert!(!v.is_active());
        assert_eq!(v.id, 0);
    }
}

#[test]
fn start_sets_envelope() {
    let v = sounding(7, Instrument::Sine);
    assert_eq!(v.stage, EnvStage::Attack);
    assert!(v.held);
    let p = sounding(8, Instrument::Pluck);
    assert_eq!(p.stage, EnvStage::Sustain);
}

#[test]
fn release_rings_pluck_out() {
    let mut v = sounding(7, Instrument::Saw);
    v.release();
    assert_eq!(v.stage, EnvStage::Release);
    assert!(!v.held);
    let mut p = sounding(8, Instrument::Pluck);
    p.release();
    assert_eq!(p.stage, EnvStage::Sustain);
    assert!(!p.held);
}

#[test]
fn pick_prefers_first_free() {
    let vs = vec![sounding(1, Instrument::Sine), VoiceCtl::new(), VoiceCtl::new()];
    assert_eq!(pick_voice(&vs, &vec![0, 5, 1]), 1);
}

#[test]
fn pick_steals_quietest() {
    let vs = vec![sounding(1, Instrument::Sine), sounding(2, Instrument::Sine), sounding(3, Instrument::Sine)];
    assert_eq!(pick_voice(&vs, &vec![9, 3, 4]), 1);
    assert_eq!(pick_voice(&vs, &vec![2, 3, 2]), 0);
    assert_eq!(pick_voice(&vs, &vec![5, 3, 3]), 1);
}

#[test]
fn pick_on_no_voices() {
    assert_eq!(pick_voice(&vec![], &vec![]), 0);
}

#[test]
fn note_on_takes_free_voice() {
    let mut b = VoiceBank::new();
    let levels = vec![0u32; POLYPHONY];
    let s0 = b.apply(ControlEvent::NoteOn { id: 1, midi: 60, instrument: Instrument::Sine }, &levels);
    let s1 = b.apply(ControlEvent::NoteOn { id: 2, midi: 62, instrument: Instrument::Saw }, &levels);
    assert_eq!(s0, Some(0));
    assert_eq!(s1, Some(1));
    assert_eq!(b.voices[1].id, 2);
    assert_eq!(b.voices[1].midi, 62);
}

#[test]
fn note_off_without_pedal_releases() {
    let mut b = VoiceBank::new();
    let levels = vec![0u32; POLYPHONY];
    b.apply(ControlEvent::NoteOn { id: 4, midi: 60, instrument: Instrument::Square }, &levels);
    assert_eq!(b.apply(ControlEvent::NoteOff { id: 4 }, &levels), None);
    assert_eq!(b.voices[0].stage, EnvStage::Release);
    assert!(!b.voices[0].held);
}

#[test]
fn pedal_holds_then_releases() {
    let mut b = VoiceBank::new();
    let levels = vec![0u32; POLYPHONY];
    b.apply(ControlEvent::NoteOn { id: 4, midi: 60, instrument: Instrument::Sine }, &levels);
    b.apply(ControlEvent::SetSustain(true), &levels);
    b.apply(ControlEvent::NoteOff { id: 4 }, &levels);
    assert_eq!(b.voices[0].stage, EnvStage::Attack);
    assert!(!b.voices[0].held);
    b.apply(ControlEvent::SetSustain(false), &levels);
    assert!(!b.sustain);
    assert_eq!(b.voices[0].stage, EnvStage::Release);
}

#[test]
fn pedal_only_postpones_release_example() {
    let levels = vec![0u32; POLYPHONY];
    let mut a = VoiceBank::new();
    a.apply(ControlEvent::NoteOn { id: 1, midi: 60, instrument: Instrument::FmBell }, &levels);
    a.apply(ControlEvent::NoteOn { id: 2, midi: 64, instrument: Instrument::Pluck }, &levels);
    a.apply(ControlEvent::SetSustain(true), &levels);
    let mut b = VoiceBank { voices: a.voices.clone(), sustain: true };
    a.apply(ControlEvent::NoteOff { id: 1 }, &levels);
    a.apply(ControlEvent::NoteOff { id: 2 }, &levels);
    a.apply(ControlEvent::SetSustain(false), &levels);
    b.apply(ControlEvent::SetSustain(false), &levels);
    b.apply(ControlEvent::NoteOff { id: 1 }, &levels);
    b.apply(ControlEvent::NoteOff { id: 2 }, &levels);
    assert_eq!(a.voices, b.voices);
}

#[test]
fn panic_silences() {
    let mut b = VoiceBank::new();
    let levels = vec![0u32; POLYPHONY];
    b.apply(ControlEvent::NoteOn { id: 1, midi: 60, instrument: Instrument::Sine }, &levels);
    b.apply(ControlEvent::NoteOn { id: 2, midi: 61, instrument: Instrument::Pluck }, &levels);
    b.apply(ControlEvent::PanicOff, &levels);
    for v in &b.voices {
        assert!(!v.is_active());
        assert_eq!(v.id, 0);
        assert!(!v.held);
    }
}

#[test]
fn envelope_stages() {
    assert_eq!(next_stage(EnvStage::Attack, false), EnvStage::Attack);
    assert_eq!(next_stage(EnvStage::Attack, true), EnvStage::Decay);
    assert_eq!(next_stage(EnvStage::Decay, true), EnvStage::Sustain);
    assert_eq!(next_stage(EnvStage::Sustain, true), EnvStage::Sustain);
    assert_eq!(next_stage(EnvStage::Release, false), EnvStage::Release);
    assert_eq!(next_stage(EnvStage::Release, true), EnvStage::Off);
    assert_eq!(next_stage(EnvStage::Off, true), EnvStage::Off);
}

#[test]
fn quiet_pluck_retires() {
    let mut p = sounding(1, Instrument::Pluck);
    p.retire_if_quiet(false);
    assert_eq!(p.stage, EnvStage::Sustain);
    p.retire_if_quiet(true);
    assert_eq!(p.stage, EnvStage::Off);
    let mut s = sounding(2, Instrument::Sine);
    s.retire_if_quiet(true);
    assert_eq!(s.stage, EnvStage::Attack);
}
