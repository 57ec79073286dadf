use vstd::prelude::*;

use crate::encode::{
    ascii_plan, digit_steps, digits_of, phonetic_plan, phonetic_steps_model, words_of, words_plan,
};
use crate::render::tts_count;
use crate::step::{StepModel, DIGIT_GAP_SAMPLES, GROUP_GAP_SAMPLES, SPACE_GAP_SAMPLES};
use crate::voice::VoiceModel;

verus! {

/// Law: word encoding yields exactly one spoken token per
/// whitespace-separated word of the text, in their original order, and
/// no silence at all.
pub proof fn lemma_words_plan_is_tokens(text: Seq<u8>, voice: Option<VoiceModel>)
    ensures
        words_plan(text, voice).len() == words_of(text).len(),
        forall|i: int|
            0 <= i < words_of(text).len() ==> words_plan(text, voice)[i] == (StepModel::Tts {
                text: words_of(text)[i],
                voice,
            }),
{
}

/// The texts a plan sends to synthesis, in order.
pub open spec fn spoken_texts(plan: Seq<StepModel>) -> Seq<Seq<u8>>
    decreases plan.len(),
{
    if plan.len() == 0 {
        Seq::empty()
    } else {
        match plan[0] {
            StepModel::Tts { text, .. } => seq![text] + spoken_texts(plan.drop_first()),
            StepModel::Silence { .. } => spoken_texts(plan.drop_first()),
        }
    }
}

proof fn lemma_spoken_texts_concat(a: Seq<StepModel>, b: Seq<StepModel>)
    ensures
        spoken_texts(a + b) == spoken_texts(a) + spoken_texts(b),
    decreases a.len(),
{
    if a.len() == 0 {
        assert(a + b =~= b);
        assert(spoken_texts(a) =~= Seq::<Seq<u8>>::empty());
        assert(spoken_texts(a) + spoken_texts(b) =~= spoken_texts(b));
    } else {
        assert((a + b).drop_first() =~= a.drop_first() + b);
        assert((a + b)[0] == a[0]);
        lemma_spoken_texts_concat(a.drop_first(), b);
        match a[0] {
            StepModel::Tts { text, .. } => {
                assert(spoken_texts(a + b) =~= spoken_texts(a) + spoken_texts(b));
            },
            StepModel::Silence { .. } => {
                assert(spoken_texts(a + b) =~= spoken_texts(a) + spoken_texts(b));
            },
        }
    }
}

proof fn lemma_digit_steps_tokens(g: Seq<u8>, voice: Option<VoiceModel>)
    ensures
        spoken_texts(digit_steps(g, voice)) == g.map_values(|b: u8| seq![b]),
    decreases g.len(),
{
    if g.len() == 0 {
        assert(spoken_texts(digit_steps(g, voice)) =~= g.map_values(|b: u8| seq![b]));
    } else {
        lemma_digit_steps_tokens(g.drop_first(), voice);
        let two = seq![
            StepModel::Tts { text: seq![g[0]], voice },
            StepModel::Silence { samples: DIGIT_GAP_SAMPLES as nat },
        ];
        lemma_spoken_texts_concat(two, digit_steps(g.drop_first(), voice));
        let one = seq![StepModel::Silence { samples: DIGIT_GAP_SAMPLES as nat }];
        assert(two.drop_first() =~= one);
        assert(one.drop_first() =~= Seq::<StepModel>::empty());
        assert(spoken_texts(Seq::<StepModel>::empty()) =~= Seq::<Seq<u8>>::empty());
        assert(spoken_texts(one) =~= Seq::<Seq<u8>>::empty());
        assert(spoken_texts(two) =~= seq![seq![g[0]]]);
        assert(spoken_texts(digit_steps(g, voice)) =~= g.map_values(|b: u8| seq![b]));
    }
}

proof fn lemma_ascii_plan_tokens(d: Seq<u8>, voice: Option<VoiceModel>)
    ensures
        spoken_texts(ascii_plan(d, voice)) == d.map_values(|b: u8| seq![b]),
    decreases d.len(),
{
    let gap = seq![StepModel::Silence { samples: GROUP_GAP_SAMPLES as nat }];
    assert(gap.drop_first() =~= Seq::<StepModel>::empty());
    assert(spoken_texts(Seq::<StepModel>::empty()) =~= Seq::<Seq<u8>>::empty());
    assert(spoken_texts(gap) =~= Seq::<Seq<u8>>::empty());
    if d.len() == 0 {
        assert(spoken_texts(ascii_plan(d, voice)) =~= d.map_values(|b: u8| seq![b]));
    } else if d.len() <= 5 {
        lemma_digit_steps_tokens(d, voice);
        lemma_spoken_texts_concat(digit_steps(d, voice), gap);
        assert(spoken_texts(ascii_plan(d, voice)) =~= d.map_values(|b: u8| seq![b]));
    } else {
        lemma_digit_steps_tokens(d.take(5), voice);
        lemma_ascii_plan_tokens(d.skip(5), voice);
        lemma_spoken_texts_concat(digit_steps(d.take(5), voice), gap);
        lemma_spoken_texts_concat(
            digit_steps(d.take(5), voice) + gap,
            ascii_plan(d.skip(5), voice),
        );
        assert(ascii_plan(d, voice) == (digit_steps(d.take(5), voice) + gap) + ascii_plan(
            d.skip(5),
            voice,
        )) by {
            assert(digit_steps(d.take(5), voice) + gap + ascii_plan(d.skip(5), voice)
                =~= (digit_steps(d.take(5), voice) + gap) + ascii_plan(d.skip(5), voice));
        }
        assert(spoken_texts(ascii_plan(d, voice)) =~= d.map_values(|b: u8| seq![b]));
    }
}

/// Law: the digit stream of a byte string has exactly three digits per
/// byte, and the digit-encoded plan speaks exactly that stream, one
/// token per digit, in order — so regrouping the consumed tokens by five
/// reconstructs the stream with no loss or reordering.
pub proof fn lemma_ascii_tokens_reconstruct(bytes: Seq<u8>, voice: Option<VoiceModel>)
    ensures
        digits_of(bytes).len() == 3 * bytes.len(),
        spoken_texts(ascii_plan(digits_of(bytes), voice)) == digits_of(bytes).map_values(
            |b: u8| seq![b],
        ),
{
    lemma_ascii_plan_tokens(digits_of(bytes), voice);
}

/// How many space silences a plan holds: the markers a phonetic plan
/// emits in place of the alphabet's space word.
pub open spec fn space_silence_count(plan: Seq<StepModel>) -> nat
    decreases plan.len(),
{
    if plan.len() == 0 {
        0
    } else {
        (if plan[0] == (StepModel::Silence { samples: SPACE_GAP_SAMPLES as nat }) {
            1nat
        } else {
            0nat
        }) + space_silence_count(plan.drop_first())
    }
}

proof fn lemma_tts_count_concat(a: Seq<StepModel>, b: Seq<StepModel>)
    ensures
        tts_count(a + b) == tts_count(a) + tts_count(b),
    decreases a.len(),
{
    if a.len() == 0 {
        assert(a + b =~= b);
    } else {
        assert((a + b).drop_first() =~= a.drop_first() + b);
        assert((a + b)[0] == a[0]);
        lemma_tts_count_concat(a.drop_first(), b);
    }
}

proof fn lemma_space_silence_count_concat(a: Seq<StepModel>, b: Seq<StepModel>)
    ensures
        space_silence_count(a + b) == space_silence_count(a) + space_silence_count(b),
    decreases a.len(),
{
    if a.len() == 0 {
        assert(a + b =~= b);
    } else {
        assert((a + b).drop_first() =~= a.drop_first() + b);
        assert((a + b)[0] == a[0]);
        lemma_space_silence_count_concat(a.drop_first(), b);
    }
}

proof fn lemma_phonetic_steps_counts(ws: Seq<Seq<u8>>, voice: Option<VoiceModel>)
    ensures
        tts_count(phonetic_steps_model(ws, voice)) + space_silence_count(
            phonetic_steps_model(ws, voice),
        ) == ws.len(),
    decreases ws.len(),
{
    if ws.len() == 0 {
    } else {
        lemma_phonetic_steps_counts(ws.drop_first(), voice);
        let rest = phonetic_steps_model(ws.drop_first(), voice);
        assert(tts_count(Seq::<StepModel>::empty()) == 0);
        assert(space_silence_count(Seq::<StepModel>::empty()) == 0);
        if crate::encode::is_space_word(ws[0]) {
            let head = seq![StepModel::Silence { samples: SPACE_GAP_SAMPLES as nat }];
            lemma_tts_count_concat(head, rest);
            lemma_space_silence_count_concat(head, rest);
            assert(head.drop_first() =~= Seq::<StepModel>::empty());
            assert(tts_count(head) == 0);
            assert(space_silence_count(head) == 1);
        } else {
            let head = seq![
                StepModel::Tts { text: ws[0], voice },
                StepModel::Silence { samples: crate::step::WORD_GAP_SAMPLES as nat },
            ];
            lemma_tts_count_concat(head, rest);
            lemma_space_silence_count_concat(head, rest);
            let tail = seq![StepModel::Silence { samples: crate::step::WORD_GAP_SAMPLES as nat }];
            assert(head.drop_first() =~= tail);
            assert(tail.drop_first() =~= Seq::<StepModel>::empty());
            assert(tts_count(tail) == 0);
            assert(space_silence_count(tail) == 0);
            assert(tts_count(head) == 1);
            assert(space_silence_count(head) == 0);
        }
    }
}

/// No synthesis request of the plan carries empty text.
pub open spec fn no_empty_tokens(plan: Seq<StepModel>) -> bool {
    forall|i: int|
        0 <= i < plan.len() ==> (#[trigger] plan[i] matches StepModel::Tts { text, .. }
            ==> text.len() > 0)
}

proof fn lemma_no_empty_tokens_concat(a: Seq<StepModel>, b: Seq<StepModel>)
    requires
        no_empty_tokens(a),
        no_empty_tokens(b),
    ensures
        no_empty_tokens(a + b),
{
    assert forall|i: int|
        0 <= i < (a + b).len() implies (#[trigger] (a + b)[i] matches StepModel::Tts {
        text,
        ..
    } ==> text.len() > 0) by {
        if i < a.len() {
            assert((a + b)[i] == a[i]);
        } else {
            assert((a + b)[i] == b[i - a.len()]);
        }
    }
}

/// Every whitespace-separated word is non-empty.
pub proof fn lemma_words_of_nonempty(s: Seq<u8>)
    ensures
        forall|i: int| 0 <= i < words_of(s).len() ==> #[trigger] words_of(s)[i].len() > 0,
    decreases s.len(),
{
    crate::encode::lemma_head_word_len_le(s);
    if s.len() == 0 {
    } else if crate::encode::is_ws(s[0]) {
        lemma_words_of_nonempty(s.drop_first());
        assert forall|i: int| 0 <= i < words_of(s).len() implies #[trigger] words_of(s)[i].len()
            > 0 by {
            assert(words_of(s.drop_first())[i].len() > 0);
        }
    } else {
        let m = crate::encode::head_word_len(s) as int;
        lemma_words_of_nonempty(s.skip(m));
        assert forall|i: int| 0 <= i < words_of(s).len() implies #[trigger] words_of(s)[i].len()
            > 0 by {
            if i == 0 {
                assert(words_of(s)[0] == s.take(m));
            } else {
                assert(words_of(s)[i] == words_of(s.skip(m))[i - 1]);
                assert(words_of(s.skip(m))[i - 1].len() > 0);
            }
        }
    }
}

proof fn lemma_digit_steps_no_empty_tokens(g: Seq<u8>, voice: Option<VoiceModel>)
    ensures
        no_empty_tokens(digit_steps(g, voice)),
    decreases g.len(),
{
    if g.len() > 0 {
        lemma_digit_steps_no_empty_tokens(g.drop_first(), voice);
        let two = seq![
            StepModel::Tts { text: seq![g[0]], voice },
            StepModel::Silence { samples: DIGIT_GAP_SAMPLES as nat },
        ];
        assert(no_empty_tokens(two));
        lemma_no_empty_tokens_concat(two, digit_steps(g.drop_first(), voice));
    }
}

proof fn lemma_ascii_plan_no_empty_tokens(d: Seq<u8>, voice: Option<VoiceModel>)
    ensures
        no_empty_tokens(ascii_plan(d, voice)),
    decreases d.len(),
{
    let gap = seq![StepModel::Silence { samples: GROUP_GAP_SAMPLES as nat }];
    assert(no_empty_tokens(gap));
    if d.len() == 0 {
    } else if d.len() <= 5 {
        lemma_digit_steps_no_empty_tokens(d, voice);
        lemma_no_empty_tokens_concat(digit_steps(d, voice), gap);
    } else {
        lemma_digit_steps_no_empty_tokens(d.take(5), voice);
        lemma_ascii_plan_no_empty_tokens(d.skip(5), voice);
        lemma_no_empty_tokens_concat(digit_steps(d.take(5), voice), gap);
        lemma_no_empty_tokens_concat(
            digit_steps(d.take(5), voice) + gap,
            ascii_plan(d.skip(5), voice),
        );
        assert(ascii_plan(d, voice) == (digit_steps(d.take(5), voice) + gap) + ascii_plan(
            d.skip(5),
            voice,
        )) by {
            assert(digit_steps(d.take(5), voice) + gap + ascii_plan(d.skip(5), voice)
                =~= (digit_steps(d.take(5), voice) + gap) + ascii_plan(d.skip(5), voice));
        }
    }
}

proof fn lemma_phonetic_steps_no_empty_tokens(ws: Seq<Seq<u8>>, voice: Option<VoiceModel>)
    requires
        forall|i: int| 0 <= i < ws.len() ==> #[trigger] ws[i].len() > 0,
    ensures
        no_empty_tokens(phonetic_steps_model(ws, voice)),
    decreases ws.len(),
{
    if ws.len() > 0 {
        assert forall|i: int|
            0 <= i < ws.drop_first().len() implies #[trigger] ws.drop_first()[i].len() > 0 by {
            assert(ws.drop_first()[i] == ws[i + 1]);
        }
        lemma_phonetic_steps_no_empty_tokens(ws.drop_first(), voice);
        let head = if crate::encode::is_space_word(ws[0]) {
            seq![StepModel::Silence { samples: SPACE_GAP_SAMPLES as nat }]
        } else {
            seq![
                StepModel::Tts { text: ws[0], voice },
                StepModel::Silence { samples: crate::step::WORD_GAP_SAMPLES as nat },
            ]
        };
        assert(ws[0].len() > 0);
        assert(no_empty_tokens(head));
        lemma_no_empty_tokens_concat(head, phonetic_steps_model(ws.drop_first(), voice));
    }
}

/// Law: no encoder emits an empty token. Every synthesis request of a
/// word, digit or phonetic plan carries non-empty text, so each request
/// stays inside the synthesis engine's contract.
pub proof fn lemma_encoders_emit_no_empty_tokens(
    text: Seq<u8>,
    expansion: Seq<u8>,
    voice: Option<VoiceModel>,
)
    ensures
        no_empty_tokens(words_plan(text, voice)),
        no_empty_tokens(ascii_plan(digits_of(text), voice)),
        no_empty_tokens(phonetic_plan(expansion, voice)),
{
    lemma_words_of_nonempty(text);
    assert forall|i: int|
        0 <= i < words_plan(text, voice).len() implies (#[trigger] words_plan(text, voice)[i]
        matches StepModel::Tts { text: t, .. } ==> t.len() > 0) by {
        assert(words_plan(text, voice)[i] == (StepModel::Tts {
            text: words_of(text)[i],
            voice,
        }));
    }
    lemma_ascii_plan_no_empty_tokens(digits_of(text), voice);
    lemma_words_of_nonempty(expansion);
    lemma_phonetic_steps_no_empty_tokens(words_of(expansion), voice);
}

/// Law: in a phonetic plan, every word of the expansion becomes exactly
/// one spoken token or exactly one space silence, so the plan's token
/// count plus its space-silence count equals the expansion's word count.
pub proof fn lemma_phonetic_counts(expansion: Seq<u8>, voice: Option<VoiceModel>)
    ensures
        tts_count(phonetic_plan(expansion, voice)) + space_silence_count(
            phonetic_plan(expansion, voice),
        ) == words_of(expansion).len(),
{
    lemma_phonetic_steps_counts(words_of(expansion), voice);
}

} // verus!
