use std::io::Cursor;

use lowpass_filter::LowpassFilter;
use numbers_station::post::{decimate, post_process};

#[test]
fn decimate_keeps_every_third_sample() {
    let samples: Vec<u32> = (1..=12).collect();
    let out = decimate(&samples, 3);
    assert_eq!(out.len(), samples.len() / 3);
    assert_eq!(out, vec![3, 6, 9, 12]);
    for (i, &s) in out.iter().enumerate() {
        assert_eq!(s, samples[(i + 1) * 3 - 1]);
    }
}

#[test]
fn decimate_drops_final_partial_group() {
    let samples: Vec<u32> = (1..=7).collect();
    assert_eq!(decimate(&samples, 3), vec![3, 6]);
}

#[test]
fn decimate_by_one_is_identity() {
    let samples: Vec<u32> = vec![9, 8, 7];
    assert_eq!(decimate(&samples, 1), samples);
}

#[test]
fn post_process_uses_rate_ratio() {
    let samples: Vec<u32> = (1..=6).collect();
    assert_eq!(post_process(&samples, 24_000, 8_000), vec![3, 6]);
}

#[test]
fn post_process_empty_buffer_is_empty() {
    assert_eq!(post_process(&Vec::new(), 24_000, 8_000), Vec::new());
}

fn filter_and_write(input: &[f32]) -> Vec<u8> {
    // band-limit in place, decimate 24 kHz -> 8 kHz, then write the
    // container to an in-memory file
    let mut samples = input.to_vec();
    LowpassFilter::<f32>::new(24_000.0, 8_000.0).run_slice(&mut samples);
    let bits: Vec<u32> = samples.iter().map(|s| s.to_bits()).collect();
    let reduced = post_process(&bits, 24_000, 8_000);
    let spec = hound::WavSpec {
        channels: 1,
        sample_rate: 8_000,
        bits_per_sample: 16,
        sample_format: hound::SampleFormat::Int,
    };
    let mut cursor = Cursor::new(Vec::new());
    let mut writer = hound::WavWriter::new(&mut cursor, spec).unwrap();
    for bits in reduced {
        writer.write_sample(f32::from_bits(bits) as i32).unwrap();
    }
    writer.finalize().unwrap();
    cursor.into_inner()
}

#[test]
fn post_processing_same_input_twice_gives_identical_files() {
    let input: Vec<f32> = (0..240).map(|i| ((i % 24) as f32) / 24.0 - 0.5).collect();
    let first = filter_and_write(&input);
    let second = filter_and_write(&input);
    assert_eq!(first, second);
    assert!(!first.is_empty());
}

#[test]
fn empty_buffer_writes_valid_empty_file() {
    let bytes = filter_and_write(&[]);
    let reader = hound::WavReader::new(Cursor::new(bytes)).unwrap();
    assert_eq!(reader.spec().channels, 1);
    assert_eq!(reader.spec().sample_rate, 8_000);
    assert_eq!(reader.spec().bits_per_sample, 16);
    assert_eq!(reader.len(), 0);
}
