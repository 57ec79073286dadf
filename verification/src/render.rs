use vstd::prelude::*;

use crate::encode::{
    ascii_plan, digits_of, encode_ascii, encode_phonetic, encode_words, nato_expansion_of,
    phonetic_plan, words_plan, Encoding,
};
use crate::step::{lemma_steps_view_concat, steps_view, Step, StepModel, SAMPLES_PER_TICK};
use crate::voice::{voice_label, VoiceModel};

verus! {

/// A spoken part of the script: text to synthesize, an optional fixed
/// voice (the engine picks one when absent), and an optional text
/// encoding (the raw text goes out as a single request when absent).
pub struct Speak {
    /// The text to speak, as UTF-8 bytes.
    pub text: Vec<u8>,
    /// If None, the engine selects a voice itself.
    pub voice: Option<VoiceModel>,
    /// If None, no encoding is used.
    pub encoding: Option<Encoding>,
}

impl Speak {
    /// A clip that speaks `text` with no fixed voice and no encoding.
    pub fn new(text: Vec<u8>) -> (s: Speak)
        ensures
            s.text@ == text@,
            s.voice is None,
            s.encoding is None,
    {
        Speak { encoding: None, text, voice: None }
    }

    /// The same clip, with its voice fixed to `voice`.
    pub fn with_voice(self, voice: VoiceModel) -> (s: Speak)
        ensures
            s.text@ == self.text@,
            s.voice == Some(voice),
            s.encoding == self.encoding,
    {
        Speak { voice: Some(voice), ..self }
    }

    /// The same clip, with its text encoding fixed to `encoding`.
    pub fn with_encoding(self, encoding: Encoding) -> (s: Speak)
        ensures
            s.text@ == self.text@,
            s.voice == self.voice,
            s.encoding == Some(encoding),
    {
        Speak { encoding: Some(encoding), ..self }
    }

    /// The label of the clip's voice, if one is fixed.
    pub fn model(&self) -> (r: Option<String>)
        ensures
            match self.voice {
                Some(v) => r matches Some(l) && l@ == voice_label(v),
                None => r is None,
            },
    {
        match self.voice {
            None => None,
            Some(v) => Some(v.label().to_owned()),
        }
    }

    /// The plan this clip renders to: per its encoding, the synthesis
    /// requests and silences of the matching encoder; with no encoding,
    /// one request carrying the raw text.
    pub open spec fn plan(&self) -> Seq<StepModel> {
        match self.encoding {
            None => seq![StepModel::Tts { text: self.text@, voice: self.voice }],
            Some(Encoding::Words) => words_plan(self.text@, self.voice),
            Some(Encoding::Ascii) => ascii_plan(digits_of(self.text@), self.voice),
            Some(Encoding::Phonetic) => phonetic_plan(nato_expansion_of(self.text@), self.voice),
        }
    }

    /// Renders the clip to its plan.
    pub fn render_steps(&self) -> (out: Vec<Step>)
        ensures
            steps_view(out@) == self.plan(),
    {
        match self.encoding {
            None => {
                let text = self.text.clone();
                proof {
                    assert(text@ =~= self.text@);
                }
                let mut out: Vec<Step> = Vec::new();
                out.push(Step::Tts { text, voice: self.voice });
                proof {
                    assert(steps_view(out@) =~= self.plan());
                }
                out
            },
            Some(Encoding::Words) => encode_words(&self.text, self.voice),
            Some(Encoding::Ascii) => encode_ascii(&self.text, self.voice),
            Some(Encoding::Phonetic) => encode_phonetic(&self.text, self.voice),
        }
    }
}

/// A silent part of the script: a pause of the given duration in ticks
/// (24 samples each).
pub struct Pause(pub u32);

impl Pause {
    /// The plan a pause renders to: one run of zero samples, 24 per tick.
    pub open spec fn plan(&self) -> Seq<StepModel> {
        seq![StepModel::Silence { samples: (SAMPLES_PER_TICK * self.0) as nat }]
    }

    /// Renders the pause to its plan. The duration must describe a sample
    /// count addressable on this machine.
    pub fn render_steps(&self) -> (out: Vec<Step>)
        requires
            SAMPLES_PER_TICK * self.0 <= usize::MAX,
        ensures
            steps_view(out@) == self.plan(),
    {
        let mut out: Vec<Step> = Vec::new();
        let samples: usize = (SAMPLES_PER_TICK as u64 * self.0 as u64) as usize;
        out.push(Step::Silence { samples });
        proof {
            assert(steps_view(out@) =~= self.plan());
        }
        out
    }
}

/// One unit of a broadcast script: spoken text or silence.
pub enum Clip {
    Speak(Speak),
    Pause(Pause),
}

/// The plan one clip renders to.
pub open spec fn clip_plan(c: Clip) -> Seq<StepModel> {
    match c {
        Clip::Speak(s) => s.plan(),
        Clip::Pause(p) => p.plan(),
    }
}

/// Whether a clip's plan is renderable on this machine: a pause's sample
/// count fits an address.
pub open spec fn clip_fits(c: Clip) -> bool {
    match c {
        Clip::Speak(_) => true,
        Clip::Pause(p) => SAMPLES_PER_TICK * p.0 <= usize::MAX,
    }
}

/// The plan a whole script renders to: each clip's plan, in script order,
/// with no reordering or merging across clip boundaries.
pub open spec fn script_plan(cs: Seq<Clip>) -> Seq<StepModel>
    decreases cs.len(),
{
    if cs.len() == 0 {
        Seq::empty()
    } else {
        clip_plan(cs[0]) + script_plan(cs.drop_first())
    }
}

/// Renders every clip of the script, in order, into one plan.
pub fn plan_script(clips: &Vec<Clip>) -> (out: Vec<Step>)
    requires
        forall|k: int| 0 <= k < clips@.len() ==> clip_fits(#[trigger] clips@[k]),
    ensures
        steps_view(out@) == script_plan(clips@),
{
    let mut out: Vec<Step> = Vec::new();
    let mut i: usize = 0;
    proof {
        assert(clips@.skip(0) =~= clips@);
        assert(steps_view(out@) + script_plan(clips@) =~= script_plan(clips@));
    }
    while i < clips.len()
        invariant
            i <= clips@.len(),
            forall|k: int| 0 <= k < clips@.len() ==> clip_fits(#[trigger] clips@[k]),
            steps_view(out@) + script_plan(clips@.skip(i as int)) == script_plan(clips@),
        decreases clips@.len() - i,
    {
        let mut steps = match &clips[i] {
            Clip::Speak(s) => s.render_steps(),
            Clip::Pause(p) => p.render_steps(),
        };
        let ghost prev = out@;
        let ghost steps_snap = steps@;
        out.append(&mut steps);
        proof {
            lemma_steps_view_concat(prev, steps_snap);
            assert(steps_view(steps_snap) == clip_plan(clips@[i as int]));
            assert(clips@.skip(i as int).drop_first() =~= clips@.skip(i + 1));
            assert(clips@.skip(i as int)[0] == clips@[i as int]);
            assert(steps_view(out@) + script_plan(clips@.skip(i + 1)) =~= steps_view(prev)
                + script_plan(clips@.skip(i as int)));
        }
        i += 1;
    }
    proof {
        assert(clips@.skip(clips@.len() as int) =~= Seq::<Clip>::empty());
        assert(steps_view(out@) + script_plan(Seq::<Clip>::empty()) =~= steps_view(out@));
    }
    out
}

/// How many synthesis requests a plan makes.
pub open spec fn tts_count(plan: Seq<StepModel>) -> nat
    decreases plan.len(),
{
    if plan.len() == 0 {
        0
    } else {
        (if plan[0] is Tts {
            1nat
        } else {
            0nat
        }) + tts_count(plan.drop_first())
    }
}

/// A run of `n` silent samples.
pub open spec fn zeros(n: nat) -> Seq<u32> {
    Seq::new(n, |i: int| 0u32)
}

/// The buffer a plan assembles to, given the engine's response to each
/// synthesis request in order: the responses and silence runs,
/// concatenated in plan order.
pub open spec fn assembled(plan: Seq<StepModel>, resp: Seq<Seq<u32>>) -> Seq<u32>
    decreases plan.len(),
{
    if plan.len() == 0 {
        Seq::empty()
    } else {
        match plan[0] {
            StepModel::Tts { .. } => if resp.len() > 0 {
                resp[0] + assembled(plan.drop_first(), resp.drop_first())
            } else {
                assembled(plan.drop_first(), resp)
            },
            StepModel::Silence { samples } => zeros(samples) + assembled(
                plan.drop_first(),
                resp,
            ),
        }
    }
}

/// The sample sequences a vector of response buffers stands for.
pub open spec fn resp_views(rs: Seq<Vec<u32>>) -> Seq<Seq<u32>> {
    rs.map_values(|r: Vec<u32>| r@)
}

/// Assembles the rendered buffer: walks the plan in order, appending the
/// engine's response to each synthesis request and a zero run for each
/// silence. The buffer is exactly the concatenation of the contributions,
/// in plan order.
pub fn assemble(plan: &Vec<Step>, responses: &Vec<Vec<u32>>) -> (buf: Vec<u32>)
    requires
        resp_views(responses@).len() == tts_count(steps_view(plan@)),
    ensures
        buf@ == assembled(steps_view(plan@), resp_views(responses@)),
{
    let ghost sv = steps_view(plan@);
    let ghost rv = resp_views(responses@);
    let rlen = responses.len();
    let mut buf: Vec<u32> = Vec::new();
    let mut i: usize = 0;
    let mut k: usize = 0;
    proof {
        assert(sv.skip(0) =~= sv);
        assert(rv.skip(0) =~= rv);
        assert(buf@ + assembled(sv, rv) =~= assembled(sv, rv));
    }
    while i < plan.len()
        invariant
            sv == steps_view(plan@),
            rv == resp_views(responses@),
            i <= plan@.len(),
            k <= rlen,
            rlen == responses@.len(),
            sv.len() == plan@.len(),
            rv.len() == responses@.len(),
            tts_count(sv.skip(i as int)) == rv.len() - k,
            buf@ + assembled(sv.skip(i as int), rv.skip(k as int)) == assembled(sv, rv),
        decreases plan@.len() - i,
    {
        proof {
            assert(sv.skip(i as int)[0] == sv[i as int]);
            assert(sv[i as int] == plan@[i as int]@);
            assert(sv.skip(i as int).drop_first() =~= sv.skip(i + 1));
        }
        match &plan[i] {
            Step::Tts { .. } => {
                proof {
                    assert(tts_count(sv.skip(i as int)) == 1 + tts_count(sv.skip(i + 1)));
                    assert(k < responses@.len());
                    assert(rv.skip(k as int)[0] == rv[k as int]);
                    assert(rv.skip(k as int).drop_first() =~= rv.skip(k + 1));
                }
                let ghost prev = buf@;
                let r = &responses[k];
                let mut j: usize = 0;
                while j < r.len()
                    invariant
                        r@ == rv[k as int],
                        0 <= k < rv.len(),
                        j <= r@.len(),
                        buf@ == prev + r@.take(j as int),
                    decreases r@.len() - j,
                {
                    buf.push(r[j]);
                    proof {
                        assert(prev + r@.take(j + 1) =~= (prev + r@.take(j as int)).push(
                            r@[j as int],
                        ));
                    }
                    j += 1;
                }
                proof {
                    assert(r@.take(r@.len() as int) =~= r@);
                    assert(buf@ + assembled(sv.skip(i + 1), rv.skip(k + 1)) =~= prev + assembled(
                        sv.skip(i as int),
                        rv.skip(k as int),
                    ));
                }
                k += 1;
            },
            Step::Silence { samples } => {
                let n: usize = *samples;
                let ghost prev = buf@;
                let mut j: usize = 0;
                while j < n
                    invariant
                        j <= n,
                        buf@ == prev + zeros(j as nat),
                    decreases n - j,
                {
                    buf.push(0u32);
                    proof {
                        assert(prev + zeros((j + 1) as nat) =~= (prev + zeros(j as nat)).push(
                            0u32,
                        ));
                    }
                    j += 1;
                }
                proof {
                    assert(sv[i as int] == StepModel::Silence { samples: n as nat });
                    assert(buf@ + assembled(sv.skip(i + 1), rv.skip(k as int)) =~= prev
                        + assembled(sv.skip(i as int), rv.skip(k as int)));
                }
            },
        }
        i += 1;
    }
    proof {
        assert(sv.skip(sv.len() as int) =~= Seq::<StepModel>::empty());
        assert(buf@ + assembled(Seq::<StepModel>::empty(), rv.skip(k as int)) =~= buf@);
    }
    buf
}

} // verus!
