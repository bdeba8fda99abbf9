//! The local transcriber's protocol and the transcript that is shown.

use std::sync::Arc;
use std::time::Instant;

use recorder::buffer::AudioBuffer;
use recorder::events::{AudioTap, MediaEvent};
use recorder::format::{AudioFormat, SampleFormat};
use recorder::mixdown::MixMath;
use recorder::parakeet::{
    check_analyzer, descriptors, is_noisy_stderr_line, mono_samples, needs_resampling,
    needs_space_join, split_completed_sentences, transcribe_line, ChunkStep,
    ParakeetUnifiedAnalyzer, WorkerMessage, PARAKEET_PLUGIN_ID,
};
use recorder::transcript::{describe_media_event, describe_with, EventNumbers, LogEntry, TranscriptLog};

struct Floats;

impl MixMath<f32, f32> for Floats {
    fn zero(&self) -> f32 {
        0.0
    }

    fn accumulate(&self, sum: f32, sample: f32) -> f32 {
        sum + sample
    }

    fn mean(&self, sum: f32, count: u32) -> f32 {
        sum / count as f32
    }

    fn scale(&self, sample: f32, gain: f32) -> f32 {
        sample * gain
    }

    fn limit(&self, sum: f32) -> f32 {
        sum.clamp(-1.0, 1.0)
    }
}

impl EventNumbers<f32> for Floats {
    fn level(&self, value: &f32) -> String {
        format!("{:.3}", value)
    }

    fn percent(&self, value: &f32) -> String {
        format!("{:.0}", value * 100.0)
    }
}

fn analyzer() -> ParakeetUnifiedAnalyzer<f32> {
    ParakeetUnifiedAnalyzer::new(Some("default".to_string()), 16_000)
}

fn final_text(events: &[MediaEvent<f32>]) -> Option<String> {
    events.iter().find_map(|event| match event {
        MediaEvent::TranscriptFinal { text, .. } => Some(text.clone()),
        _ => None,
    })
}

fn transcript(text: &str, finished: bool) -> MediaEvent<f32> {
    let (tap, stream_id, speaker_id, text) = (AudioTap::Processed, None, None, text.to_string());
    if finished {
        MediaEvent::TranscriptFinal {
            tap,
            stream_id,
            segment_id: 1,
            start_frame: 0,
            end_frame: 10,
            speaker_id,
            text,
            confidence: None,
        }
    } else {
        MediaEvent::TranscriptPartial {
            tap,
            stream_id,
            segment_id: 1,
            start_frame: 0,
            end_frame: 10,
            speaker_id,
            text,
            confidence: None,
        }
    }
}

#[test]
fn parses_worker_final_message() {
    let msg = WorkerMessage::parse("FINAL\t7\t10\t20\thello world");
    assert!(matches!(
        msg,
        Some(WorkerMessage::Final { segment_id: 7, start_frame: 10, end_frame: 20, .. })
    ));
}

#[test]
fn other_worker_messages_are_told_apart() {
    assert!(matches!(WorkerMessage::parse("READY"), Some(WorkerMessage::Ready)));
    match WorkerMessage::parse("STATUS\tloading") {
        Some(WorkerMessage::Status(text)) => assert_eq!(text, "loading"),
        other => panic!("{:?}", other),
    }
    match WorkerMessage::parse("ERROR\tno model") {
        Some(WorkerMessage::Error(text)) => assert_eq!(text, "no model"),
        other => panic!("{:?}", other),
    }
    assert!(WorkerMessage::parse("FINAL\t7\tx\t20\thello").is_none());
    assert!(WorkerMessage::parse("something else").is_none());
}

#[test]
fn split_sentences_returns_completed_and_partial() {
    let (completed, partial) = split_completed_sentences("Hello there. How are");
    assert_eq!(completed, "Hello there.");
    assert_eq!(partial, "How are");
}

#[test]
fn split_sentences_keeps_partial_when_no_terminator() {
    let (completed, partial) = split_completed_sentences("the quick brown fox");
    assert!(completed.is_empty());
    assert_eq!(partial, "the quick brown fox");
}

#[test]
fn split_sentences_finalizes_full_sentence() {
    let (completed, partial) = split_completed_sentences("Hi there! What's up? I am fine.");
    assert_eq!(completed, "Hi there! What's up? I am fine.");
    assert!(partial.is_empty());
}

#[test]
fn aggregator_emits_partial_then_final_across_chunks() {
    let mut analyzer = analyzer();
    analyzer.handle_chunk_text(0, 0, 24_000, "Hi there");
    analyzer.handle_chunk_text(1, 24_000, 48_000, "how are you");
    analyzer.handle_chunk_text(2, 48_000, 72_000, "doing today?");

    let events = analyzer.take_events();
    assert_eq!(final_text(&events).as_deref(), Some("Hi there how are you doing today?"));
    assert!(analyzer.take_events().is_empty());
}

#[test]
fn aggregator_flushes_pending_on_silence() {
    let mut analyzer = analyzer();
    analyzer.handle_chunk_text(0, 0, 24_000, "An incomplete thought");
    analyzer.flush_pending_sentence(48_000);

    let events = analyzer.take_events();
    assert_eq!(final_text(&events).as_deref(), Some("An incomplete thought"));
}

#[test]
fn resamples_and_downmixes_to_mono() {
    let input = AudioBuffer::new(
        AudioFormat::new(48_000, 2, SampleFormat::F32),
        Arc::new(vec![0.5, -0.5, 1.0, 0.0]),
        2,
        Instant::now(),
        0,
    );

    let samples = mono_samples::<f32, f32, Floats>(&Floats, &input, 0.0);
    assert!(!samples.is_empty());
    assert!(samples.iter().all(|s| (-1.0..=1.0).contains(s)));
    assert_eq!(samples, vec![0.0, 0.5]);
    assert!(needs_resampling(input.format, 16_000));
    assert!(!needs_resampling(input.format, 48_000));
}

#[test]
fn the_analyzer_is_known_by_its_id() {
    assert_eq!(descriptors().len(), 1);
    assert_eq!(descriptors()[0].id, PARAKEET_PLUGIN_ID);
    assert!(check_analyzer(PARAKEET_PLUGIN_ID).is_ok());
    assert_eq!(
        check_analyzer("other").unwrap_err(),
        "unknown local analyzer plugin: other"
    );
}

#[test]
fn words_are_joined_with_spaces() {
    assert!(needs_space_join("a", "b"));
    assert!(!needs_space_join("", "b"));
    assert!(!needs_space_join("a ", "b"));
}

#[test]
fn noise_on_stderr_is_left_out() {
    assert!(is_noisy_stderr_line("nemo dataloader:826 x"));
    assert!(!is_noisy_stderr_line("Traceback (most recent call last):"));
}

#[test]
fn segments_are_cut_from_what_was_heard() {
    let mut a = analyzer();
    a.handle_message(WorkerMessage::Ready);
    assert!(a.worker_ready);
    a.take_events();
    a.buffer_audio(480, &vec![0.5; 10]);
    match a.next_segment(8, 48_000) {
        ChunkStep::Segment { samples, segment_id, start_frame, end_frame } => {
            assert_eq!(samples.len(), 8);
            assert_eq!(segment_id, 0);
            assert_eq!((start_frame, end_frame), (480, 504));
        }
        ChunkStep::Wait => panic!("eight samples are there"),
    }
    assert!(matches!(a.next_segment(8, 48_000), ChunkStep::Wait));
    assert_eq!((a.segment_id, a.buffered_start_frame), (0, Some(480)));
    a.segment_queued(480, 504, "1.5", "0.5000");
    assert_eq!((a.segment_id, a.buffered_start_frame), (1, Some(504)));
    a.handle_chunk_text(0, 480, 504, "half a thought");
    a.take_events();
    a.segment_skipped(504, 528, "1.5", "0.0001", "0.0050");
    assert_eq!((a.segment_id, a.buffered_start_frame), (2, Some(528)));
    let events = a.take_events();
    assert_eq!(events.len(), 3);
    assert_eq!(
        describe_media_event(&Floats, &events[0]),
        "parakeet.segment: skipped silent segment 1 (1.5s, rms 0.0001 < 0.0050) frames 504-528"
    );
    assert_eq!(
        describe_media_event(&Floats, &events[1]),
        "Final frames 480-528: half a thought"
    );
    assert_eq!(
        transcribe_line(3, 1, 2, "0.5000", "/tmp/a.wav"),
        "TRANSCRIBE\t3\t1\t2\t0.5000\t/tmp/a.wav"
    );
}

#[test]
fn events_are_described() {
    let voice = MediaEvent::VoiceActivity {
        tap: AudioTap::Raw,
        start_frame: 1,
        end_frame: 9,
        active: true,
        level: 0.25f32,
        confidence: 0.5,
    };
    assert_eq!(
        describe_media_event(&Floats, &voice),
        "Voice active frames 1-9 level 0.250 conf 50%"
    );
    let speaker = MediaEvent::SpeakerSegment {
        tap: AudioTap::Raw,
        start_frame: 1,
        end_frame: 9,
        speaker_id: "anna".into(),
        confidence: 0.75f32,
    };
    assert_eq!(
        describe_media_event(&Floats, &speaker),
        "Speaker anna frames 1-9 conf 75%"
    );
    let note = MediaEvent::AttributeDetected {
        tap: AudioTap::Raw,
        start_frame: 0,
        end_frame: 0,
        key: "status".into(),
        value: "ready".into(),
        confidence: None::<f32>,
    };
    assert_eq!(describe_media_event(&Floats, &note), "status: ready");
    let tone = MediaEvent::AttributeDetected {
        tap: AudioTap::Raw,
        start_frame: 2,
        end_frame: 4,
        key: "tone".into(),
        value: "calm".into(),
        confidence: Some(1.0f32),
    };
    assert_eq!(describe_media_event(&Floats, &tone), "tone: calm frames 2-4 conf 100%");
    assert_eq!(describe_with(&transcript("hi", false), "", ""), "Partial frames 0-10: hi");
    assert_eq!(describe_with(&transcript("hi", true), "", ""), "Final frames 0-10: hi");
    let changed: MediaEvent<f32> = MediaEvent::PluginParameterChanged {
        plugin_id: "p".into(),
        parameter_id: "q".into(),
        value: "1".into(),
        effective_frame: None,
    };
    assert_eq!(
        describe_media_event(&Floats, &changed),
        "Plugin p parameter q changed to 1"
    );
}

#[test]
fn a_finished_sentence_replaces_what_was_heard() {
    let mut log = TranscriptLog::new();
    log.drain_media_events(&Floats, &vec![transcript(" Hel ", false)]);
    assert_eq!(log.transcript_lines, vec!["… Hel"]);
    log.drain_media_events(&Floats, &vec![transcript("Hello", false), transcript("Hello.", true)]);
    assert_eq!(log.transcript_lines, vec!["Hello."]);
    log.drain_media_events(&Floats, &vec![transcript("and", false), transcript("  ", false)]);
    assert_eq!(log.transcript_lines, vec!["Hello."]);
    log.drain_media_events(&Floats, &vec![transcript("", true)]);
    assert_eq!(log.transcript_lines, vec!["Hello."]);
}

#[test]
fn the_log_keeps_the_newest() {
    let mut log = TranscriptLog::new();
    let mut entries = Vec::new();
    for i in 0..250 {
        entries.push(LogEntry::Finished(format!("line {}", i)));
        entries.push(LogEntry::Note(format!("note {}", i)));
    }
    log.take_all(&entries);
    assert_eq!(log.transcript_lines.len(), 200);
    assert_eq!(log.transcript_lines[0], "line 50");
    assert_eq!(log.analysis_events.len(), 100);
    assert_eq!(log.analysis_events[99], "note 249");
}
