//! File sinks, and the texts and times that the rest is made of.

use std::sync::Arc;
use std::time::Instant;

use recorder::buffer::{AudioBuffer, SampleMap};
use recorder::error::RecordingError;
use recorder::flac::FlacSink;
use recorder::format::{AudioFormat, SampleFormat};
use recorder::paths::{
    canonical_chars, extension_chars, same_path, stem_chars, with_extension, with_file_name,
    PathStyle,
};
use recorder::sinks::{
    check_mp3_channels, mp3_scratch_len, segment_wav_layout, wav_layout, NullSink, WavLayout,
    WavState, WavWrite,
};
use recorder::text::{
    chars_of, parse_unsigned_chars, push_decimal, push_hex_padded, string_of, text_of_utf16,
    trim_chars, wide_cstr_to_string,
};
use recorder::time::{nanos_of_frames, Duration};
use recorder::traits::AudioSink;

struct Sixteen;

impl SampleMap<f32, i32> for Sixteen {
    fn apply(&self, sample: f32) -> i32 {
        (sample.clamp(-1.0, 1.0) * 32767.0) as i32
    }
}

fn stereo(frames: usize) -> AudioBuffer<f32> {
    let data = (0..frames * 2).map(|i| ((i % 100) as f32 - 50.0) / 100.0).collect();
    AudioBuffer::new(
        AudioFormat::new(44_100, 2, SampleFormat::F32),
        Arc::new(data),
        frames,
        Instant::now(),
        0,
    )
}

#[test]
fn flac_files_hold_all_frames() {
    let mut sink = FlacSink::create(AudioFormat::new(44_100, 2, SampleFormat::F32)).unwrap();
    sink.write_pcm(&stereo(1_500), &Sixteen).unwrap();
    assert_eq!(sink.frame_index, 1);
    assert_eq!(sink.pending.len(), (1_500 - 1_024) * 2);
    let bytes = sink.finish().unwrap();
    assert_eq!(sink.frame_index, 2);
    assert_eq!(&bytes[0..4], b"fLaC");
    // The stream header: sample rate, channels, bits and the number of frames.
    let rate = ((bytes[18] as u32) << 12) | ((bytes[19] as u32) << 4) | ((bytes[20] as u32) >> 4);
    assert_eq!(rate, 44_100);
    assert_eq!((bytes[20] >> 1) & 7, 1);
    assert_eq!(((bytes[20] & 1) << 4) | (bytes[21] >> 4), 15);
    let frames = (((bytes[21] & 15) as u64) << 32)
        | ((bytes[22] as u64) << 24)
        | ((bytes[23] as u64) << 16)
        | ((bytes[24] as u64) << 8)
        | bytes[25] as u64;
    assert_eq!(frames, 1_500);
    assert!(bytes.len() > 42);
}

#[test]
fn flac_blocks_are_numbered_in_order() {
    let mut sink = FlacSink::create(AudioFormat::new(8_000, 1, SampleFormat::F32)).unwrap();
    sink.push_interleaved_i32(&vec![0; 3 * 1_024]).unwrap();
    let bytes = sink.finish().unwrap();
    // Each frame begins with a sync code; its number is the fifth byte.
    let numbers: Vec<u8> = (42..bytes.len() - 4)
        .filter(|&i| bytes[i] == 0xff && bytes[i + 1] == 0xf8)
        .map(|i| bytes[i + 4])
        .collect();
    assert_eq!(numbers, vec![0, 1, 2]);
}

#[test]
fn flac_goes_on_after_a_block_that_does_not_fit() {
    let mut sink = FlacSink::create(AudioFormat::new(8_000, 1, SampleFormat::F32)).unwrap();
    let mut samples = vec![0; 3 * 1_024];
    samples[0] = 40_000;
    match sink.push_interleaved_i32(&samples) {
        Err(RecordingError::Plugin(text)) => assert!(text.starts_with("encode frame: ")),
        _ => panic!("the first block does not fit"),
    }
    assert_eq!((sink.frame_index, sink.pending.len()), (0, 2 * 1_024));
    sink.push_interleaved_i32(&[0; 10]).unwrap();
    assert_eq!((sink.frame_index, sink.pending.len()), (2, 10));
}

#[test]
fn flac_streams_are_written_alike_each_time() {
    let mut sink = FlacSink::create(AudioFormat::new(44_100, 2, SampleFormat::F32)).unwrap();
    sink.write_pcm(&stereo(1_100), &Sixteen).unwrap();
    let first = sink.finish().unwrap();
    assert_eq!(sink.finish().unwrap(), first);
    assert!(FlacSink::create(AudioFormat::new(96_000, 8, SampleFormat::F32)).is_ok());
}

#[test]
fn flac_loses_a_last_block_that_is_too_short() {
    let mut sink = FlacSink::create(AudioFormat::new(44_100, 2, SampleFormat::F32)).unwrap();
    sink.write_pcm(&stereo(31), &Sixteen).unwrap();
    match sink.finish() {
        Err(RecordingError::Plugin(text)) => assert!(text.starts_with("framebuf: ")),
        _ => panic!("31 frames are no block"),
    }
    assert!(sink.pending.is_empty());
}

#[test]
fn flac_layouts_are_limited() {
    match FlacSink::create(AudioFormat::new(44_100, 0, SampleFormat::F32)) {
        Err(RecordingError::Config(text)) => assert_eq!(text, "channels must be > 0"),
        _ => panic!("there is no channel"),
    }
    match FlacSink::create(AudioFormat::new(44_100, 9, SampleFormat::F32)) {
        Err(RecordingError::Plugin(text)) => assert!(text.starts_with("flac stream: ")),
        _ => panic!("nine channels do not fit"),
    }
    assert!(FlacSink::create(AudioFormat::new(192_000, 2, SampleFormat::F32)).is_err());
}

#[test]
fn wav_files_take_one_layout() {
    let f = AudioFormat::new(44_100, 2, SampleFormat::F32);
    assert_eq!(
        wav_layout(f),
        WavLayout { channels: 2, sample_rate: 44_100, bits_per_sample: 32, float: true }
    );
    assert_eq!(segment_wav_layout(16_000).bits_per_sample, 16);
    let mut w = WavState::new(f);
    assert_eq!(w.accept(&stereo(1)).unwrap(), WavWrite::Float);
    let words = WavState::new(AudioFormat::new(44_100, 2, SampleFormat::I16));
    assert!(matches!(words.accept(&stereo(1)), Err(RecordingError::FormatMismatch { .. })));
    assert!(w.finish());
    assert!(!w.finish());
    assert_eq!(w.accept(&stereo(1)).unwrap(), WavWrite::Nothing);
    assert!(NullSink::new().write_pcm_f32(&stereo(3)).is_ok());
}

#[test]
fn mp3_files_need_room() {
    assert_eq!(check_mp3_channels(AudioFormat::new(44_100, 2, SampleFormat::F32)).unwrap(), 2);
    assert!(check_mp3_channels(AudioFormat::new(44_100, 3, SampleFormat::F32)).is_err());
    assert_eq!(mp3_scratch_len(0, 1_000), 8_192 + 1_000 + 250 + 7_200);
    assert_eq!(mp3_scratch_len(0, 1_001), 8_192 + 1_001 + 251 + 7_200);
    assert_eq!(mp3_scratch_len(50_000, 1_000), 50_000);
}

#[test]
fn paths_are_taken_apart() {
    let style = PathStyle::Slash;
    let parts_in = |style: PathStyle, p: &str| {
        let c = chars_of(p);
        let text = |s: Vec<char>| string_of(&s);
        (stem_chars(style, &c).map(text), extension_chars(style, &c).map(text))
    };
    let parts = |p: &str| parts_in(style, p);
    assert_eq!(parts("a/b.tar.gz"), (Some("b.tar".into()), Some("gz".into())));
    assert_eq!(parts(".hidden"), (Some(".hidden".into()), None));
    assert_eq!(parts("a/.."), (None, None));
    assert_eq!(parts("a.b/"), (Some("a".into()), Some("b".into())));
    let change = |p: &str, e: &str| string_of(&with_extension(style, &chars_of(p), &chars_of(e)));
    assert_eq!(change("a/b.x", "y"), "a/b.y");
    assert_eq!(change("a/b", "y"), "a/b.y");
    let rename = |p: &str, n: &str| string_of(&with_file_name(style, &chars_of(p), &chars_of(n)));
    assert_eq!(rename("a/b.x", "c"), "a/c");
    assert_eq!(rename("/", "c"), "/c");
    assert_eq!(rename("a/./b", "c"), "a/c");
    assert_eq!(parts(r"a.b\c"), (Some("a".into()), Some(r"b\c".into())));
    let windows = PathStyle::Windows;
    assert_eq!(parts_in(windows, r"a.b\c"), (Some("c".into()), None));
    assert_eq!(parts_in(windows, "C:x.y"), (Some("x".into()), Some("y".into())));
    assert_eq!(parts_in(windows, "C:"), (None, None));
    assert_eq!(
        string_of(&with_file_name(windows, &chars_of(r"a\b"), &chars_of("d:c"))),
        "d:c"
    );
}

#[test]
fn paths_are_compared_by_their_parts() {
    let one = |style: PathStyle, p: &str| string_of(&canonical_chars(style, &chars_of(p)));
    assert_eq!(one(PathStyle::Slash, "a//b/./c/"), "a/b/c");
    assert_eq!(one(PathStyle::Slash, "./a/."), "./a");
    assert_eq!(one(PathStyle::Slash, "/./a/../b"), "/a/../b");
    assert_eq!(one(PathStyle::Slash, ""), "");
    assert_eq!(one(PathStyle::Windows, r"C:\x/y\"), r"c:\x\y");
    assert_eq!(one(PathStyle::Windows, "C:x"), "c:x");
    let same = |a: &str, b: &str| same_path(PathStyle::Slash, &chars_of(a), &chars_of(b));
    assert!(same("a/b", "a//b/"));
    assert!(!same("a/b", "/a/b"));
    assert!(!same("a/b", "./a/b"));
    assert!(!same("a/b", "a/B"));
}

#[test]
fn numbers_read_back() {
    for n in [0u64, 7, 10, u64::MAX] {
        let mut s = String::new();
        push_decimal(&mut s, n);
        assert_eq!(s, n.to_string());
        assert_eq!(parse_unsigned_chars(&chars_of(&s), u64::MAX), Some(n));
    }
    assert_eq!(parse_unsigned_chars(&chars_of("256"), 255), None);
    assert_eq!(parse_unsigned_chars(&chars_of("+5"), 255), Some(5));
    assert_eq!(parse_unsigned_chars(&chars_of(""), 255), None);
    let mut h = String::new();
    push_hex_padded(&mut h, 0xab, 4);
    assert_eq!(h, "00ab");
}

#[test]
fn wide_texts_are_decoded() {
    let units: Vec<u16> = "aü\u{1f600}".encode_utf16().collect();
    assert_eq!(text_of_utf16(&units), "aü\u{1f600}");
    assert_eq!(text_of_utf16(&[0xdc00, 97]), "\u{fffd}a");
    assert_eq!(wide_cstr_to_string(&[98, 0, 99]), "b");
    assert_eq!(string_of(&trim_chars(&chars_of(" \u{a0}x y\t"))), "x y");
}

#[test]
fn frames_take_time() {
    assert_eq!(nanos_of_frames(44_100, 44_100), 1_000_000_000);
    assert_eq!(nanos_of_frames(1, 3), 333_333_333);
    assert_eq!(Duration::from_millis(3).as_nanos(), 3_000_000);
    assert_eq!(Duration::from_nanos(5).as_nanos(), 5);
}

#[test]
fn flac_blocks_may_be_partly_filled() {
    for frames in 1..=200usize {
        let mut sink = FlacSink::create(AudioFormat::new(44_100, 2, SampleFormat::F32)).unwrap();
        let flat = vec![7i32; frames * 2];
        let rough: Vec<i32> =
            (0..frames * 2).map(|i| (i as i32 * 7_919) % 65_536 - 32_768).collect();
        assert!(sink.encode_block(&flat, 1_024).is_ok());
        assert!(sink.encode_block(&rough, 1_024).is_ok());
        assert_eq!(sink.frame_index, 2);
        let bytes = sink.finish().unwrap();
        let total = ((bytes[24] as usize) << 8) | bytes[25] as usize;
        assert_eq!(total, frames * 2);
    }
    let mut sink = FlacSink::create(AudioFormat::new(44_100, 1, SampleFormat::F32)).unwrap();
    assert!(sink.encode_block(&[40_000; 64], 64).is_err());
    assert!(sink.encode_block(&[-32_768; 64], 64).is_ok());
}
