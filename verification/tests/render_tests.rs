use numbers_station::render::{assemble, plan_script, Clip, Pause, Speak};
use numbers_station::step::Step;
use numbers_station::voice::VoiceModel;

#[test]
fn two_pauses_render_to_zero_buffer() {
    // Pauses of 100 and 200 ticks contribute 24 samples per tick each:
    // a buffer of 300 * 24 zero samples, nothing else.
    let clips = vec![Clip::Pause(Pause(100)), Clip::Pause(Pause(200))];
    let plan = plan_script(&clips);
    let buf = assemble(&plan, &Vec::new());
    assert_eq!(buf.len(), 300 * 24);
    assert!(buf.iter().all(|&s| s == 0));
}

#[test]
fn empty_script_renders_to_empty_buffer() {
    let clips: Vec<Clip> = Vec::new();
    let plan = plan_script(&clips);
    assert_eq!(plan.len(), 0);
    let buf = assemble(&plan, &Vec::new());
    assert_eq!(buf.len(), 0);
}

#[test]
fn pause_steps_are_one_silence_run() {
    let steps = Pause(5).render_steps();
    assert_eq!(steps.len(), 1);
    assert!(matches!(steps[0], Step::Silence { samples: 120 }));
}

#[test]
fn speak_without_encoding_is_one_request() {
    let clip = Speak::new(b"Hello, World!".to_vec()).with_voice(VoiceModel::B);
    let steps = clip.render_steps();
    assert_eq!(steps.len(), 1);
    match &steps[0] {
        Step::Tts { text, voice } => {
            assert_eq!(text, &b"Hello, World!".to_vec());
            assert_eq!(*voice, Some(VoiceModel::B));
        }
        Step::Silence { .. } => panic!("expected a synthesis request"),
    }
}

#[test]
fn assemble_keeps_plan_order() {
    let plan = vec![
        Step::Tts { text: b"x".to_vec(), voice: None },
        Step::Silence { samples: 2 },
        Step::Tts { text: b"y".to_vec(), voice: None },
    ];
    let responses = vec![vec![1u32, 2], vec![7u32]];
    let buf = assemble(&plan, &responses);
    assert_eq!(buf, vec![1, 2, 0, 0, 7]);
}

#[test]
fn assemble_mixed_script_lengths_add_up() {
    let clips = vec![
        Clip::Speak(Speak::new(b"one two".to_vec()).with_encoding(
            numbers_station::encode::Encoding::Words,
        )),
        Clip::Pause(Pause(10)),
    ];
    let plan = plan_script(&clips);
    // two word tokens, then one silence of 240 samples
    assert_eq!(plan.len(), 3);
    let responses = vec![vec![5u32; 3], vec![6u32; 4]];
    let buf = assemble(&plan, &responses);
    assert_eq!(buf.len(), 3 + 4 + 240);
    assert_eq!(&buf[0..3], &[5, 5, 5]);
    assert_eq!(&buf[3..7], &[6, 6, 6, 6]);
    assert!(buf[7..].iter().all(|&s| s == 0));
}
