use vstd::prelude::*;

use crate::step::{
    Step, StepModel, lemma_steps_view_push, steps_view, DIGIT_GAP_SAMPLES, GROUP_GAP_SAMPLES,
    SPACE_GAP_SAMPLES, WORD_GAP_SAMPLES,
};
use crate::voice::VoiceModel;
use vstd::arithmetic::div_mod::lemma_fundamental_div_mod_converse;

verus! {

/// How a spoken clip's text is decomposed into synthesis requests and
/// silence.
#[derive(Clone, Copy, Debug, PartialEq, Eq, Structural)]
pub enum Encoding {
    /// One request per whitespace-separated word, no silence in between.
    Words,
    /// Every byte as three decimal digits, spoken digit by digit in groups
    /// of five, with silence after each digit and after each group.
    Ascii,
    /// The spelling-alphabet expansion of the text, spoken word by word,
    /// the word denoting a space replaced by silence.
    Phonetic,
}

/// ASCII whitespace: tab, line feed, vertical tab, form feed, carriage
/// return, space.
pub open spec fn is_ws(b: u8) -> bool {
    b == 32 || (9 <= b && b <= 13)
}

/// Length of the word at the head of `s`: its longest whitespace-free
/// prefix.
pub open spec fn head_word_len(s: Seq<u8>) -> nat
    decreases s.len(),
{
    if s.len() == 0 || is_ws(s[0]) {
        0
    } else {
        1 + head_word_len(s.drop_first())
    }
}

pub proof fn lemma_head_word_len_le(s: Seq<u8>)
    ensures
        head_word_len(s) <= s.len(),
    decreases s.len(),
{
    if s.len() > 0 && !is_ws(s[0]) {
        lemma_head_word_len_le(s.drop_first());
    }
}

/// The head word has length `m` exactly when the first `m` bytes are free
/// of whitespace and the word ends there.
pub proof fn lemma_head_word_len_is(s: Seq<u8>, m: nat)
    requires
        m <= s.len(),
        forall|k: int| 0 <= k < m ==> !is_ws(s[k]),
        m < s.len() ==> is_ws(s[m as int]),
    ensures
        head_word_len(s) == m,
    decreases m,
{
    if m > 0 {
        assert(!is_ws(s[0]));
        let t = s.drop_first();
        assert forall|k: int| 0 <= k < m - 1 implies !is_ws(t[k]) by {
            assert(t[k] == s[k + 1]);
        }
        if m - 1 < t.len() {
            assert(t[m - 1] == s[m as int]);
        }
        lemma_head_word_len_is(t, (m - 1) as nat);
    }
}

/// The whitespace-separated words of `s`, in order.
pub open spec fn words_of(s: Seq<u8>) -> Seq<Seq<u8>>
    decreases s.len(),
    via words_of_decreases
{
    if s.len() == 0 {
        Seq::empty()
    } else if is_ws(s[0]) {
        words_of(s.drop_first())
    } else {
        seq![s.take(head_word_len(s) as int)] + words_of(s.skip(head_word_len(s) as int))
    }
}

#[via_fn]
proof fn words_of_decreases(s: Seq<u8>) {
    lemma_head_word_len_le(s);
    if s.len() > 0 && !is_ws(s[0]) {
        assert(head_word_len(s) >= 1);
    }
}

/// The byte sequences a vector of byte vectors stands for.
pub open spec fn byte_views(ws: Seq<Vec<u8>>) -> Seq<Seq<u8>> {
    ws.map_values(|w: Vec<u8>| w@)
}

fn is_ws_byte(b: u8) -> (r: bool)
    ensures
        r == is_ws(b),
{
    b == 32 || (9 <= b && b <= 13)
}

/// Splits `text` into its whitespace-separated words, in order.
pub fn split_words(text: &Vec<u8>) -> (out: Vec<Vec<u8>>)
    ensures
        byte_views(out@) == words_of(text@),
{
    let n = text.len();
    let mut out: Vec<Vec<u8>> = Vec::new();
    let mut i: usize = 0;
    proof {
        assert(text@.skip(0) =~= text@);
        assert(byte_views(out@) + words_of(text@) =~= words_of(text@));
    }
    while i < n
        invariant
            n == text@.len(),
            i <= n,
            byte_views(out@) + words_of(text@.skip(i as int)) == words_of(text@),
        decreases n - i,
    {
        if is_ws_byte(text[i]) {
            proof {
                assert(text@.skip(i as int).drop_first() =~= text@.skip(i + 1));
            }
            i += 1;
        } else {
            let start = i;
            let mut w: Vec<u8> = Vec::new();
            while i < n && !is_ws_byte(text[i])
                invariant
                    n == text@.len(),
                    start <= i <= n,
                    w@ == text@.subrange(start as int, i as int),
                    forall|k: int| start <= k < i ==> !is_ws(text@[k]),
                    i == start ==> i < n && !is_ws(text@[i as int]),
                decreases n - i,
            {
                let b = text[i];
                w.push(b);
                proof {
                    assert(w@ =~= text@.subrange(start as int, i + 1));
                }
                i += 1;
            }
            proof {
                let sk = text@.skip(start as int);
                let m = i - start;
                assert forall|k: int| 0 <= k < m implies !is_ws(sk[k]) by {
                    assert(sk[k] == text@[k + start]);
                }
                if m < sk.len() {
                    assert(sk[m] == text@[i as int]);
                    assert(is_ws(text@[i as int]));
                }
                lemma_head_word_len_is(sk, m as nat);
                assert(i > start);
                assert(!is_ws(sk[0]));
                assert(sk.take(m) =~= text@.subrange(start as int, i as int));
                assert(sk.skip(m) =~= text@.skip(i as int));
                assert(words_of(sk) == seq![w@] + words_of(text@.skip(i as int)));
                assert(byte_views(out@.push(w)) =~= byte_views(out@).push(w@));
                assert(byte_views(out@).push(w@) + words_of(text@.skip(i as int)) =~= byte_views(
                    out@,
                ) + words_of(sk));
            }
            out.push(w);
        }
    }
    proof {
        assert(text@.skip(n as int) =~= Seq::<u8>::empty());
        assert(byte_views(out@) + words_of(Seq::<u8>::empty()) =~= byte_views(out@));
    }
    out
}

/// The plan a word-encoded clip produces: one spoken token per word, in
/// order, with no silence.
pub open spec fn words_plan(text: Seq<u8>, voice: Option<VoiceModel>) -> Seq<StepModel> {
    words_of(text).map_values(|w: Seq<u8>| StepModel::Tts { text: w, voice })
}

/// Word encoding: one synthesis request per whitespace-separated word of
/// `text`, in order, and nothing else.
pub fn encode_words(text: &Vec<u8>, voice: Option<VoiceModel>) -> (out: Vec<Step>)
    ensures
        steps_view(out@) == words_plan(text@, voice),
{
    let ws = split_words(text);
    let mut out: Vec<Step> = Vec::new();
    let mut j: usize = 0;
    while j < ws.len()
        invariant
            byte_views(ws@) == words_of(text@),
            j <= ws@.len(),
            out@.len() == j,
            forall|k: int| 0 <= k < j ==> steps_view(out@)[k] == words_plan(text@, voice)[k],
        decreases ws@.len() - j,
    {
        let w = ws[j].clone();
        proof {
            assert(w@ =~= ws@[j as int]@);
            assert(byte_views(ws@)[j as int] == ws@[j as int]@);
        }
        let ghost prev = out@;
        out.push(Step::Tts { text: w, voice });
        proof {
            lemma_steps_view_push(prev, out@.last());
            assert(prev.push(out@.last()) =~= out@);
            assert(steps_view(out@)[j as int] == StepModel::Tts { text: ws@[j as int]@, voice });
            assert(words_plan(text@, voice)[j as int] == StepModel::Tts {
                text: words_of(text@)[j as int],
                voice,
            });
            assert forall|k: int| 0 <= k < j + 1 implies steps_view(out@)[k] == words_plan(
                text@,
                voice,
            )[k] by {
                if k < j {
                    assert(steps_view(out@)[k] == steps_view(prev)[k]);
                }
            }
        }
        j += 1;
    }
    proof {
        assert(steps_view(out@) =~= words_plan(text@, voice));
    }
    out
}

/// Digit `k` (0, 1 or 2, most significant first) of the three-digit
/// decimal rendering of byte `b`, as an ASCII character.
pub open spec fn digit_char(b: u8, k: int) -> u8 {
    if k == 0 {
        ((b as int) / 100 + 48) as u8
    } else if k == 1 {
        ((b as int) / 10 % 10 + 48) as u8
    } else {
        ((b as int) % 10 + 48) as u8
    }
}

/// The decimal digit stream of a byte string: every byte as exactly three
/// digits, left-padded with zeros, concatenated in order.
pub open spec fn digits_of(s: Seq<u8>) -> Seq<u8> {
    Seq::new(3 * s.len(), |j: int| digit_char(s[j / 3], j % 3))
}

/// The digit stream of `text`.
pub fn ascii_digits(text: &Vec<u8>) -> (out: Vec<u8>)
    ensures
        out@ == digits_of(text@),
{
    let mut out: Vec<u8> = Vec::new();
    let mut i: usize = 0;
    while i < text.len()
        invariant
            i <= text@.len(),
            out@.len() == 3 * i,
            forall|j: int| 0 <= j < 3 * i ==> out@[j] == digits_of(text@)[j],
        decreases text@.len() - i,
    {
        let b = text[i];
        out.push(b / 100 + 48);
        out.push(b / 10 % 10 + 48);
        out.push(b % 10 + 48);
        proof {
            lemma_fundamental_div_mod_converse(3 * i, 3, i as int, 0);
            lemma_fundamental_div_mod_converse(3 * i + 1, 3, i as int, 1);
            lemma_fundamental_div_mod_converse(3 * i + 2, 3, i as int, 2);
            assert(out@[3 * i as int] == digit_char(text@[i as int], 0));
            assert(out@[3 * i + 1] == digit_char(text@[i as int], 1));
            assert(out@[3 * i + 2] == digit_char(text@[i as int], 2));
        }
        i += 1;
    }
    proof {
        assert(out@ =~= digits_of(text@));
    }
    out
}

/// The plan of one group of at most five digits: each digit spoken, a
/// short silence after each.
pub open spec fn digit_steps(g: Seq<u8>, voice: Option<VoiceModel>) -> Seq<StepModel>
    decreases g.len(),
{
    if g.len() == 0 {
        Seq::empty()
    } else {
        seq![
            StepModel::Tts { text: seq![g[0]], voice },
            StepModel::Silence { samples: DIGIT_GAP_SAMPLES as nat },
        ] + digit_steps(g.drop_first(), voice)
    }
}

/// The plan a digit-encoded clip produces from its digit stream `d`: the
/// digits in groups of five (the last group possibly shorter), a short
/// silence after each digit and a longer one after each group.
pub open spec fn ascii_plan(d: Seq<u8>, voice: Option<VoiceModel>) -> Seq<StepModel>
    decreases d.len(),
{
    if d.len() == 0 {
        Seq::empty()
    } else if d.len() <= 5 {
        digit_steps(d, voice) + seq![StepModel::Silence { samples: GROUP_GAP_SAMPLES as nat }]
    } else {
        digit_steps(d.take(5), voice) + seq![
            StepModel::Silence { samples: GROUP_GAP_SAMPLES as nat },
        ] + ascii_plan(d.skip(5), voice)
    }
}

fn byte_token(b: u8) -> (out: Vec<u8>)
    ensures
        out@ == seq![b],
{
    let mut v: Vec<u8> = Vec::new();
    v.push(b);
    proof {
        assert(v@ =~= seq![b]);
    }
    v
}

/// Digit encoding: every byte of `text` as three spoken decimal digits,
/// grouped by five, with the silences of `ascii_plan`.
pub fn encode_ascii(text: &Vec<u8>, voice: Option<VoiceModel>) -> (out: Vec<Step>)
    ensures
        steps_view(out@) == ascii_plan(digits_of(text@), voice),
{
    let ds = ascii_digits(text);
    let n = ds.len();
    let mut out: Vec<Step> = Vec::new();
    let mut i: usize = 0;
    proof {
        assert(ds@.skip(0) =~= ds@);
        assert(steps_view(out@) + ascii_plan(ds@, voice) =~= ascii_plan(ds@, voice));
    }
    while i < n
        invariant
            n == ds@.len(),
            ds@ == digits_of(text@),
            i <= n,
            steps_view(out@) + ascii_plan(ds@.skip(i as int), voice) == ascii_plan(ds@, voice),
        decreases n - i,
    {
        let end = if n - i <= 5 {
            n
        } else {
            i + 5
        };
        proof {
            let sk = ds@.skip(i as int);
            if n - i <= 5 {
                assert(sk.take((end - i) as int) =~= sk);
                assert(ds@.skip(end as int) =~= Seq::<u8>::empty());
                assert(sk.take((end - i) as int) =~= ds@.subrange(i as int, end as int));
                assert(ascii_plan(sk, voice) + ascii_plan(ds@.skip(end as int), voice) =~= ascii_plan(
                    sk,
                    voice,
                ));
            } else {
                assert(sk.take(5) =~= ds@.subrange(i as int, end as int));
                assert(sk.skip(5) =~= ds@.skip(end as int));
            }
            assert(ascii_plan(sk, voice) == digit_steps(ds@.subrange(i as int, end as int), voice)
                + seq![StepModel::Silence { samples: GROUP_GAP_SAMPLES as nat }] + ascii_plan(
                ds@.skip(end as int),
                voice,
            ));
        }
        let ghost entry_steps = steps_view(out@);
        proof {
            assert(ds@.subrange(i as int, i as int) =~= Seq::<u8>::empty());
            assert(digit_steps(Seq::<u8>::empty(), voice) == Seq::<StepModel>::empty());
            assert(entry_steps + Seq::<StepModel>::empty() =~= entry_steps);
        }
        let mut j = i;
        while j < end
            invariant
                n == ds@.len(),
                i <= j <= end <= n,
                steps_view(out@) =~= entry_steps + digit_steps(
                    ds@.subrange(i as int, j as int),
                    voice,
                ),
            decreases end - j,
        {
            let b = ds[j];
            let ghost prev = out@;
            out.push(Step::Tts { text: byte_token(b), voice });
            let ghost mid = out@;
            out.push(Step::Silence { samples: DIGIT_GAP_SAMPLES });
            proof {
                lemma_steps_view_push(prev, mid.last());
                lemma_steps_view_push(mid, out@.last());
                assert(prev.push(mid.last()) =~= mid);
                assert(mid.push(out@.last()) =~= out@);
                assert(mid.last()@ == StepModel::Tts { text: seq![ds@[j as int]], voice });
                assert(out@.last()@ == StepModel::Silence {
                    samples: DIGIT_GAP_SAMPLES as nat,
                });
                let pre = ds@.subrange(i as int, j as int);
                let post = ds@.subrange(i as int, j + 1);
                assert(pre.push(ds@[j as int]) =~= post);
                lemma_digit_steps_push(pre, ds@[j as int], voice);
                assert(digit_steps(post, voice) == digit_steps(pre, voice) + seq![
                    StepModel::Tts { text: seq![ds@[j as int]], voice },
                    StepModel::Silence { samples: DIGIT_GAP_SAMPLES as nat },
                ]);
                assert(steps_view(out@) =~= entry_steps + digit_steps(post, voice));
            }
            j += 1;
        }
        let ghost before_gap = out@;
        out.push(Step::Silence { samples: GROUP_GAP_SAMPLES });
        proof {
            lemma_steps_view_push(before_gap, out@.last());
            assert(before_gap.push(out@.last()) =~= out@);
            assert(out@.last()@ == StepModel::Silence { samples: GROUP_GAP_SAMPLES as nat });
            assert(steps_view(out@) =~= entry_steps + (digit_steps(
                ds@.subrange(i as int, end as int),
                voice,
            ) + seq![StepModel::Silence { samples: GROUP_GAP_SAMPLES as nat }]));
            assert(steps_view(out@) + ascii_plan(ds@.skip(end as int), voice) =~= entry_steps
                + ascii_plan(ds@.skip(i as int), voice));
        }
        i = end;
    }
    proof {
        assert(ds@.skip(n as int) =~= Seq::<u8>::empty());
        assert(steps_view(out@) + ascii_plan(Seq::<u8>::empty(), voice) =~= steps_view(out@));
    }
    out
}

/// Appending a digit to a group appends its two steps to the group's plan.
proof fn lemma_digit_steps_push(g: Seq<u8>, b: u8, voice: Option<VoiceModel>)
    ensures
        digit_steps(g.push(b), voice) == digit_steps(g, voice) + seq![
            StepModel::Tts { text: seq![b], voice },
            StepModel::Silence { samples: DIGIT_GAP_SAMPLES as nat },
        ],
    decreases g.len(),
{
    let gp = g.push(b);
    if g.len() == 0 {
        assert(gp.drop_first() =~= Seq::<u8>::empty());
        assert(gp[0] == b);
        assert(digit_steps(Seq::<u8>::empty(), voice) == Seq::<StepModel>::empty());
        assert(digit_steps(gp, voice) =~= digit_steps(g, voice) + seq![
            StepModel::Tts { text: seq![b], voice },
            StepModel::Silence { samples: DIGIT_GAP_SAMPLES as nat },
        ]);
    } else {
        assert(gp.drop_first() =~= g.drop_first().push(b));
        assert(gp[0] == g[0]);
        lemma_digit_steps_push(g.drop_first(), b, voice);
        assert(digit_steps(gp, voice) =~= digit_steps(g, voice) + seq![
            StepModel::Tts { text: seq![b], voice },
            StepModel::Silence { samples: DIGIT_GAP_SAMPLES as nat },
        ]);
    }
}

/// Byte lowercased in the ASCII range.
pub open spec fn ascii_lower(b: u8) -> u8 {
    if 65 <= b && b <= 90 {
        (b + 32) as u8
    } else {
        b
    }
}

/// Whether a word is the spelling alphabet's literal word for a space
/// ("space", compared without regard to ASCII case).
pub open spec fn is_space_word(w: Seq<u8>) -> bool {
    w.len() == 5 && ascii_lower(w[0]) == 115 && ascii_lower(w[1]) == 112 && ascii_lower(w[2]) == 97
        && ascii_lower(w[3]) == 99 && ascii_lower(w[4]) == 101
}

fn ascii_lower_byte(b: u8) -> (r: u8)
    ensures
        r == ascii_lower(b),
{
    if 65 <= b && b <= 90 {
        b + 32
    } else {
        b
    }
}

/// Whether `w` spells the space word of the alphabet, in any ASCII case.
pub fn is_space_token(w: &Vec<u8>) -> (r: bool)
    ensures
        r == is_space_word(w@),
{
    w.len() == 5 && ascii_lower_byte(w[0]) == 115 && ascii_lower_byte(w[1]) == 112
        && ascii_lower_byte(w[2]) == 97 && ascii_lower_byte(w[3]) == 99 && ascii_lower_byte(w[4])
        == 101
}

/// The plan a sequence of phonetic words produces: each word spoken with a
/// trailing word gap, except that the alphabet's space word becomes the
/// space silence alone.
pub open spec fn phonetic_steps_model(ws: Seq<Seq<u8>>, voice: Option<VoiceModel>) -> Seq<
    StepModel,
>
    decreases ws.len(),
{
    if ws.len() == 0 {
        Seq::empty()
    } else {
        (if is_space_word(ws[0]) {
            seq![StepModel::Silence { samples: SPACE_GAP_SAMPLES as nat }]
        } else {
            seq![
                StepModel::Tts { text: ws[0], voice },
                StepModel::Silence { samples: WORD_GAP_SAMPLES as nat },
            ]
        }) + phonetic_steps_model(ws.drop_first(), voice)
    }
}

/// The plan a phonetic clip produces from the expansion `e` of its text.
pub open spec fn phonetic_plan(e: Seq<u8>, voice: Option<VoiceModel>) -> Seq<StepModel> {
    phonetic_steps_model(words_of(e), voice)
}

/// Turns the expansion of a phonetic clip's text into the clip's plan, per
/// `phonetic_plan`. Public so that the planned steps can be checked
/// against any given expansion.
pub fn phonetic_steps(expansion: &Vec<u8>, voice: Option<VoiceModel>) -> (out: Vec<Step>)
    ensures
        steps_view(out@) == phonetic_plan(expansion@, voice),
{
    let ws = split_words(expansion);
    let mut out: Vec<Step> = Vec::new();
    let mut j: usize = 0;
    proof {
        assert(byte_views(ws@).skip(0) =~= byte_views(ws@));
        assert(steps_view(out@) + phonetic_steps_model(byte_views(ws@), voice) =~= phonetic_steps_model(
            byte_views(ws@),
            voice,
        ));
    }
    while j < ws.len()
        invariant
            byte_views(ws@) == words_of(expansion@),
            j <= ws@.len(),
            steps_view(out@) + phonetic_steps_model(byte_views(ws@).skip(j as int), voice)
                == phonetic_steps_model(byte_views(ws@), voice),
        decreases ws@.len() - j,
    {
        proof {
            let wsk = byte_views(ws@).skip(j as int);
            assert(wsk[0] == ws@[j as int]@);
            assert(wsk.drop_first() =~= byte_views(ws@).skip(j + 1));
        }
        if is_space_token(&ws[j]) {
            out.push(Step::Silence { samples: SPACE_GAP_SAMPLES });
            proof {
                lemma_steps_view_push(
                    out@.drop_last(),
                    Step::Silence { samples: SPACE_GAP_SAMPLES },
                );
                assert(out@.drop_last().push(out@.last()) =~= out@);
                assert(steps_view(out@) + phonetic_steps_model(
                    byte_views(ws@).skip(j + 1),
                    voice,
                ) =~= steps_view(out@.drop_last()) + phonetic_steps_model(
                    byte_views(ws@).skip(j as int),
                    voice,
                ));
            }
        } else {
            let w = ws[j].clone();
            proof {
                assert(w@ =~= ws@[j as int]@);
            }
            out.push(Step::Tts { text: w, voice });
            out.push(Step::Silence { samples: WORD_GAP_SAMPLES });
            proof {
                assert(steps_view(out@) =~= steps_view(out@.drop_last().drop_last()) + seq![
                    StepModel::Tts { text: ws@[j as int]@, voice },
                    StepModel::Silence { samples: WORD_GAP_SAMPLES as nat },
                ]);
                assert(steps_view(out@) + phonetic_steps_model(
                    byte_views(ws@).skip(j + 1),
                    voice,
                ) =~= steps_view(out@.drop_last().drop_last()) + phonetic_steps_model(
                    byte_views(ws@).skip(j as int),
                    voice,
                ));
            }
        }
        j += 1;
    }
    proof {
        assert(byte_views(ws@).skip(ws@.len() as int) =~= Seq::<Seq<u8>>::empty());
        assert(steps_view(out@) + phonetic_steps_model(Seq::<Seq<u8>>::empty(), voice)
            =~= steps_view(out@));
    }
    out
}

/// What spellabet's NATO conversion returns for the UTF-8 text `s`: its
/// code-word expansion, as UTF-8 bytes.
pub uninterp spec fn nato_expansion_of(s: Seq<u8>) -> Seq<u8>;

/// Relies on spellabet's `PhoneticConverter::convert` with the NATO
/// alphabet: it maps each character of the text to its code word (the
/// space character to its literal space word), separated by single spaces,
/// and depends on the text alone.
#[verifier::external_body]
fn nato_expansion(text: &Vec<u8>) -> (r: Vec<u8>)
    ensures
        r@ == nato_expansion_of(text@),
{
    let converter = spellabet::PhoneticConverter::new(&spellabet::SpellingAlphabet::Nato);
    converter.convert(&String::from_utf8_lossy(text)).into_bytes()
}

/// Phonetic encoding: the spelling-alphabet expansion of `text`, spoken
/// word by word with a trailing gap each, the space word as silence.
pub fn encode_phonetic(text: &Vec<u8>, voice: Option<VoiceModel>) -> (out: Vec<Step>)
    ensures
        steps_view(out@) == phonetic_plan(nato_expansion_of(text@), voice),
{
    let e = nato_expansion(text);
    phonetic_steps(&e, voice)
}

} // verus!
