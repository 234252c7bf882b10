use vstd::prelude::*;

verus! {

/// The five synth voices a hand can play.
#[derive(Copy, Clone, Debug, PartialEq, Eq, Structural)]
pub enum Instrument {
    Pluck,
    FmBell,
    Sine,
    Saw,
    Square,
}

/// Display name of each instrument, as shown in the HUD.
pub open spec fn instrument_name(i: Instrument) -> Seq<char> {
    match i {
        Instrument::Pluck => "Pluck"@,
        Instrument::FmBell => "FM Bell"@,
        Instrument::Sine => "Sine"@,
        Instrument::Saw => "Saw"@,
        Instrument::Square => "Square"@,
    }
}

impl Instrument {
    /// Every instrument, in the order of the number keys 1..5.
    pub const ALL: [Instrument; 5] = [
        Instrument::Pluck,
        Instrument::FmBell,
        Instrument::Sine,
        Instrument::Saw,
        Instrument::Square,
    ];

    /// Human-readable name of the instrument.
    pub fn name(self) -> (r: &'static str)
        ensures
            r@ == instrument_name(self),
    {
        match self {
            Instrument::Pluck => "Pluck",
            Instrument::FmBell => "FM Bell",
            Instrument::Sine => "Sine",
            Instrument::Saw => "Saw",
            Instrument::Square => "Square",
        }
    }
}

} // verus!
