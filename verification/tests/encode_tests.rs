use numbers_station::encode::Encoding;
use numbers_station::render::Speak;
use numbers_station::step::Step;
use numbers_station::voice::VoiceModel;

fn texts(steps: &[Step]) -> Vec<String> {
    steps
        .iter()
        .filter_map(|s| match s {
            Step::Tts { text, .. } => Some(String::from_utf8(text.clone()).unwrap()),
            Step::Silence { .. } => None,
        })
        .collect()
}

fn silences(steps: &[Step]) -> Vec<usize> {
    steps
        .iter()
        .filter_map(|s| match s {
            Step::Tts { .. } => None,
            Step::Silence { samples } => Some(*samples),
        })
        .collect()
}

#[test]
fn words_one_token_per_word_in_order() {
    let clip = Speak::new(b"Please listen carefully.".to_vec()).with_encoding(Encoding::Words);
    let steps = clip.render_steps();
    assert_eq!(steps.len(), 3);
    assert_eq!(texts(&steps), vec!["Please", "listen", "carefully."]);
    assert!(silences(&steps).is_empty());
}

#[test]
fn words_empty_text_yields_no_steps() {
    let clip = Speak::new(Vec::new()).with_encoding(Encoding::Words);
    let steps = clip.render_steps();
    assert_eq!(steps.len(), 0);
}

#[test]
fn words_collapses_runs_of_whitespace() {
    let clip = Speak::new(b"  a \t b \n".to_vec()).with_encoding(Encoding::Words);
    let steps = clip.render_steps();
    assert_eq!(texts(&steps), vec!["a", "b"]);
    assert!(silences(&steps).is_empty());
}

#[test]
fn ascii_single_byte_one_group_of_three_digits() {
    // byte value 65 renders as the digit string "065": one group of three
    // digit tokens, a short silence after every digit, one trailing group
    // silence.
    let clip = Speak::new(b"A".to_vec()).with_encoding(Encoding::Ascii);
    let steps = clip.render_steps();
    assert_eq!(texts(&steps), vec!["0", "6", "5"]);
    assert_eq!(
        silences(&steps),
        vec![24 * 600, 24 * 600, 24 * 600, 24 * 400]
    );
    assert_eq!(steps.len(), 7);
}

#[test]
fn ascii_two_bytes_regroup_by_five() {
    // "AB" is bytes 65 66, digit stream "065066": a full group of five and
    // a final group of one, each group closed by the longer silence.
    let clip = Speak::new(b"AB".to_vec()).with_encoding(Encoding::Ascii);
    let steps = clip.render_steps();
    assert_eq!(texts(&steps), vec!["0", "6", "5", "0", "6", "6"]);
    let sil = silences(&steps);
    assert_eq!(sil.len(), 8);
    assert_eq!(sil.iter().filter(|&&s| s == 24 * 400).count(), 2);
    assert_eq!(sil.iter().filter(|&&s| s == 24 * 600).count(), 6);
    // group silences come after the fifth and sixth digit tokens
    assert_eq!(sil[5], 24 * 400);
    assert_eq!(sil[7], 24 * 400);
}

#[test]
fn ascii_empty_text_yields_no_steps() {
    let clip = Speak::new(Vec::new()).with_encoding(Encoding::Ascii);
    let steps = clip.render_steps();
    assert_eq!(steps.len(), 0);
}

#[test]
fn phonetic_two_letters_two_tokens_two_gaps() {
    // "AB" expands to the alphabet words for A and B: two spoken tokens,
    // each with a trailing word gap, and no space silence.
    let clip = Speak::new(b"AB".to_vec()).with_encoding(Encoding::Phonetic);
    let steps = clip.render_steps();
    assert_eq!(texts(&steps), vec!["ALFA", "BRAVO"]);
    assert_eq!(silences(&steps), vec![24 * 160, 24 * 160]);
}

#[test]
fn phonetic_space_becomes_silence_marker() {
    let clip = Speak::new(b"a b".to_vec()).with_encoding(Encoding::Phonetic);
    let steps = clip.render_steps();
    assert_eq!(texts(&steps), vec!["alfa", "bravo"]);
    // word gap, space silence, word gap
    assert_eq!(silences(&steps), vec![24 * 160, 24 * 600, 24 * 160]);
}

#[test]
fn voice_labels() {
    assert_eq!(VoiceModel::A.label(), "A");
    assert_eq!(VoiceModel::E.label(), "E");
    assert_eq!(VoiceModel::J.label(), "J");
    assert_eq!(VoiceModel::A, VoiceModel::A);
    assert_ne!(VoiceModel::A, VoiceModel::B);
}

#[test]
fn speak_builders_set_fields() {
    let clip = Speak::new(b"hello".to_vec())
        .with_voice(VoiceModel::C)
        .with_encoding(Encoding::Words);
    assert_eq!(clip.text, b"hello".to_vec());
    assert_eq!(clip.voice, Some(VoiceModel::C));
    assert!(matches!(clip.encoding, Some(Encoding::Words)));
    assert_eq!(clip.model(), Some("C".to_string()));
    assert_eq!(Speak::new(b"x".to_vec()).model(), None);
}
