use vstd::prelude::*;

verus! {

/// One of the fixed set of voices the text-to-speech engine can be asked
/// for. Equality and rendering to a text label are the only operations a
/// script needs from it.
#[derive(Clone, Copy, Debug, PartialEq, Eq, Structural)]
pub enum VoiceModel {
    A,
    B,
    C,
    D,
    E,
    F,
    G,
    H,
    I,
    J,
}

/// The text label a voice is requested under.
pub open spec fn voice_label(v: VoiceModel) -> Seq<char> {
    match v {
        VoiceModel::A => "A"@,
        VoiceModel::B => "B"@,
        VoiceModel::C => "C"@,
        VoiceModel::D => "D"@,
        VoiceModel::E => "E"@,
        VoiceModel::F => "F"@,
        VoiceModel::G => "G"@,
        VoiceModel::H => "H"@,
        VoiceModel::I => "I"@,
        VoiceModel::J => "J"@,
    }
}

impl VoiceModel {
    /// The label handed to the text-to-speech collaborator for this voice.
    pub fn label(&self) -> (r: &'static str)
        ensures
            r@ == voice_label(*self),
    {
        match self {
            VoiceModel::A => "A",
            VoiceModel::B => "B",
            VoiceModel::C => "C",
            VoiceModel::D => "D",
            VoiceModel::E => "E",
            VoiceModel::F => "F",
            VoiceModel::G => "G",
            VoiceModel::H => "H",
            VoiceModel::I => "I",
            VoiceModel::J => "J",
        }
    }
}

} // verus!
