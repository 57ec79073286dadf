use vstd::prelude::*;

use crate::voice::VoiceModel;

verus! {

/// Samples appended per pause tick. Pause durations are expressed in ticks
/// of 24 samples each (1 ms at the 24 kHz synthesis rate); this one unit
/// system is used throughout.
pub const SAMPLES_PER_TICK: usize = 24;

/// Silence after each spoken digit of a digit-encoded clip, in samples
/// (600 ticks).
pub const DIGIT_GAP_SAMPLES: usize = 24 * 600;

/// Silence after each five-digit group of a digit-encoded clip, in samples
/// (400 ticks).
pub const GROUP_GAP_SAMPLES: usize = 24 * 400;

/// Silence emitted for an explicit space word of a phonetic clip, in
/// samples (600 ticks).
pub const SPACE_GAP_SAMPLES: usize = 24 * 600;

/// Silence after each spoken word of a phonetic clip, in samples
/// (160 ticks).
pub const WORD_GAP_SAMPLES: usize = 24 * 160;

/// One unit of rendering work produced by planning a script: either a
/// text-to-speech request or a run of silent samples.
pub enum Step {
    /// Ask the engine to speak `text` (UTF-8 bytes) with `voice`; when
    /// `voice` is `None` the engine picks one itself.
    Tts { text: Vec<u8>, voice: Option<VoiceModel> },
    /// Append this many zero-valued samples.
    Silence { samples: usize },
}

/// The mathematical shape of a step: text as a byte sequence, lengths as
/// naturals.
#[verifier::ext_equal]
pub enum StepModel {
    Tts { text: Seq<u8>, voice: Option<VoiceModel> },
    Silence { samples: nat },
}

impl View for Step {
    type V = StepModel;

    open spec fn view(&self) -> StepModel {
        match self {
            Step::Tts { text, voice } => StepModel::Tts { text: text@, voice: *voice },
            Step::Silence { samples } => StepModel::Silence { samples: *samples as nat },
        }
    }
}

/// The step sequence a step vector stands for.
pub open spec fn steps_view(s: Seq<Step>) -> Seq<StepModel> {
    s.map_values(|st: Step| st@)
}

pub proof fn lemma_steps_view_push(s: Seq<Step>, st: Step)
    ensures
        steps_view(s.push(st)) == steps_view(s).push(st@),
{
    assert(steps_view(s.push(st)) =~= steps_view(s).push(st@));
}

pub proof fn lemma_steps_view_concat(a: Seq<Step>, b: Seq<Step>)
    ensures
        steps_view(a + b) == steps_view(a) + steps_view(b),
{
    assert(steps_view(a + b) =~= steps_view(a) + steps_view(b));
}

} // verus!
