//! The capture pipeline: queues, processors, taps, analyzers and sinks.

use std::sync::atomic::{AtomicU64, Ordering};
use std::sync::{Arc, Mutex};
use std::time::Instant;

use recorder::analyzer::{LevelMath, VoiceActivityAnalyzer};
use recorder::buffer::{AudioBuffer, SampleMap};
use recorder::composite::{round_outcome, CompositeSink, TeeAudioSink};
use recorder::error::{RecordingError, Result};
use recorder::events::{media_event_queue, AudioTap, MediaEvent};
use recorder::format::{AudioFormat, SampleFormat};
use recorder::metrics::PipelineMetrics;
use recorder::pipeline::{
    capture_block, GainProcessor, PipelineConfig, SpinProcessor, StreamPipeline,
};
use recorder::processing::{exceeds_budget, run_processor_chain};
use recorder::ring::{frame_queue, TrySendError};
use recorder::session::{
    admits_block, AnalyzerWorker, RecordingSession, SessionConfig, StreamOptions,
};
use recorder::source::{CaptureSourceKind, DeviceInfo};
use recorder::synthetic::{synthetic_stop_handle, SyntheticSource, Tone};
use recorder::time::Duration;
use recorder::traits::{AudioAnalyzer, AudioHost, AudioProcessor, AudioSink, StreamHandle};

struct Times(f32);

impl SampleMap<f32, f32> for Times {
    fn apply(&self, sample: f32) -> f32 {
        (sample * self.0).clamp(-1.0, 1.0)
    }
}

struct Rms;

impl LevelMath<f32> for Rms {
    fn level(&self, samples: &Vec<f32>) -> f32 {
        if samples.is_empty() {
            return 0.0;
        }
        (samples.iter().map(|s| s * s).sum::<f32>() / samples.len() as f32).sqrt()
    }

    fn reaches(&self, level: f32, threshold: f32) -> bool {
        level >= threshold
    }

    fn confidence(&self, level: f32, threshold: f32) -> f32 {
        (level / threshold).clamp(0.0, 1.0)
    }
}

struct CountSink(Arc<AtomicU64>);

impl AudioSink<f32> for CountSink {
    fn write_pcm_f32(&mut self, buffer: &AudioBuffer<f32>) -> Result<()> {
        self.0.fetch_add(buffer.frames as u64, Ordering::Relaxed);
        Ok(())
    }

    fn flush(&mut self) -> Result<()> {
        Ok(())
    }
}

struct VecSink(Arc<Mutex<Vec<AudioBuffer<f32>>>>);

impl AudioSink<f32> for VecSink {
    fn write_pcm_f32(&mut self, buffer: &AudioBuffer<f32>) -> Result<()> {
        self.0.lock().unwrap().push(buffer.clone());
        Ok(())
    }

    fn flush(&mut self) -> Result<()> {
        Ok(())
    }
}

struct FailingSink;

impl AudioSink<f32> for FailingSink {
    fn write_pcm_f32(&mut self, _buffer: &AudioBuffer<f32>) -> Result<()> {
        Err(RecordingError::AlreadyStopped)
    }

    fn flush(&mut self) -> Result<()> {
        Ok(())
    }
}

struct UnfinishedSink;

impl AudioSink<f32> for UnfinishedSink {
    fn write_pcm_f32(&mut self, _buffer: &AudioBuffer<f32>) -> Result<()> {
        Ok(())
    }

    fn flush(&mut self) -> Result<()> {
        Err(RecordingError::AlreadyStopped)
    }
}

/// Notes what it is asked for: `w` for a write, `f` for a flush.
struct NotingSink(Arc<Mutex<String>>);

impl AudioSink<f32> for NotingSink {
    fn write_pcm_f32(&mut self, _buffer: &AudioBuffer<f32>) -> Result<()> {
        self.0.lock().unwrap().push('w');
        Ok(())
    }

    fn flush(&mut self) -> Result<()> {
        self.0.lock().unwrap().push('f');
        Ok(())
    }
}

/// Passes blocks on and notes its name.
struct NotingProcessor(char, Arc<Mutex<String>>);

impl AudioProcessor<f32> for NotingProcessor {
    fn process(&mut self, input: &AudioBuffer<f32>, output: &mut AudioBuffer<f32>) -> Result<()> {
        self.1.lock().unwrap().push(self.0);
        *output = input.clone();
        Ok(())
    }
}

struct FailingProcessor;

impl AudioProcessor<f32> for FailingProcessor {
    fn process(
        &mut self,
        _input: &AudioBuffer<f32>,
        output: &mut AudioBuffer<f32>,
    ) -> Result<()> {
        output.frame_index = 99;
        Err(RecordingError::plugin("no"))
    }
}

fn mono() -> AudioFormat {
    AudioFormat::new(48_000, 1, SampleFormat::F32)
}

fn block(samples: &[f32], frame_index: u64) -> AudioBuffer<f32> {
    AudioBuffer::new(mono(), Arc::new(samples.to_vec()), samples.len(), Instant::now(), frame_index)
}

fn config(budget_ms: u64) -> PipelineConfig {
    PipelineConfig {
        format: mono(),
        raw_queue_capacity: 64,
        processed_queue_capacity: 64,
        analyzer_queue_capacity: 64,
        plugin_budget_per_plugin: Some(Duration::from_millis(budget_ms)),
    }
}

fn voice_event(active: bool) -> MediaEvent<f32> {
    MediaEvent::VoiceActivity {
        tap: AudioTap::Processed,
        start_frame: 0,
        end_frame: 1,
        active,
        level: if active { 1.0 } else { 0.0 },
        confidence: 1.0,
    }
}

struct InputOnlyHost;

fn nothing() {}

impl AudioHost<f32> for InputOnlyHost {
    type Stop = fn();

    fn list_input_devices(&self) -> Result<Vec<DeviceInfo>> {
        Ok(vec![DeviceInfo { id: "mic-1".into(), name: "Mic".into(), default_format: None }])
    }

    fn start_input_stream<C: Fn(AudioBuffer<f32>) + Send + Sync + 'static>(
        &self,
        _device_id: Option<&str>,
        _format: AudioFormat,
        _on_buffer: C,
    ) -> Result<StreamHandle<fn()>> {
        Ok(StreamHandle::new(nothing as fn()))
    }
}

#[test]
fn default_list_capture_sources_marks_inputs() {
    let sources = InputOnlyHost.list_capture_sources().unwrap();
    assert_eq!(sources.len(), 1);
    assert_eq!(sources[0].kind, CaptureSourceKind::Input);
    assert_eq!(sources[0].id, "mic-1");
}

#[test]
fn default_start_capture_rejects_loopback() {
    let result = InputOnlyHost.start_capture(
        None,
        CaptureSourceKind::Loopback,
        AudioFormat::new(48_000, 2, SampleFormat::F32),
        |_| {},
    );
    match result {
        Err(RecordingError::Config(msg)) => assert!(msg.contains("loopback")),
        Err(other) => panic!("expected Config error, got {:?}", other),
        Ok(_) => panic!("expected default loopback to error"),
    }
    let opened = InputOnlyHost.start_capture(None, CaptureSourceKind::Input, mono(), |_| {});
    opened.expect("input streams open").stop();
    assert!(InputOnlyHost.list_output_devices().unwrap().is_empty());
    let fill = |frames: usize| vec![0.0f32; frames];
    assert!(InputOnlyHost.start_output_stream(None, mono(), fill).is_err());
}

#[test]
fn raw_path_receives_all_frames_when_plugin_spins() {
    let fmt = mono();
    let (raw_tx, raw_rx) = frame_queue(64);
    let (proc_tx, proc_rx) = frame_queue(64);
    let mut pipeline = StreamPipeline::new(
        config(1),
        Some(raw_tx),
        Some(proc_tx),
        Vec::new(),
        vec![Box::new(SpinProcessor { spin_for: Duration::from_millis(50) })],
        PipelineMetrics::default(),
    );

    const N: usize = 20;
    for i in 0..N {
        pipeline.ingest(AudioBuffer::<f32>::silent(fmt, 128, Instant::now(), i as u64));
    }

    let mut raw_frames = 0u64;
    while let Ok(b) = raw_rx.inner.try_recv() {
        raw_frames += b.frames as u64;
    }
    assert_eq!(
        raw_frames,
        (N * 128) as u64,
        "raw path must capture every frame independent of plugin timing"
    );

    let mut proc_frames = 0u64;
    while let Ok(b) = proc_rx.inner.try_recv() {
        proc_frames += b.frames as u64;
    }
    assert_eq!(
        proc_frames,
        (N * 128) as u64,
        "processed path should still deliver passthrough frames when plugin overruns budget"
    );

    assert!(
        pipeline.metrics().plugin_timeouts > 0,
        "spinning plugin should have triggered at least one timeout counter"
    );
}

#[test]
fn media_event_queue_drops_when_full() {
    let (mut tx, rx) = media_event_queue(1);
    assert!(rx.is_empty());

    assert!(tx.try_send(voice_event(true)).is_ok(), "first event fits");
    assert!(tx.try_send(voice_event(false)).is_err());
    assert!(!rx.is_empty());

    let events: Vec<_> = rx.inner.try_iter().collect();
    assert_eq!(events, vec![voice_event(true)]);
}

#[test]
fn voice_activity_analyzer_emits_state_changes() {
    let fmt = mono();
    let mut analyzer = VoiceActivityAnalyzer::new(Rms, 0.1);

    analyzer.accept_audio(&AudioBuffer::silent(fmt, 8, Instant::now(), 0)).unwrap();
    let events = analyzer.drain_events();
    assert!(matches!(events.as_slice(), [MediaEvent::VoiceActivity { active: false, .. }]));

    let loud = AudioBuffer::new(fmt, Arc::new(vec![0.5; 8]), 8, Instant::now(), 8);
    analyzer.accept_audio(&loud).unwrap();
    let events = analyzer.drain_events();
    assert!(matches!(events.as_slice(), [MediaEvent::VoiceActivity { active: true, .. }]));
}

#[test]
fn analyzer_tap_receives_processed_audio_after_raw_clone() {
    let fmt = mono();
    let (raw_tx, raw_rx) = frame_queue(64);
    let (analyzer_tx, analyzer_rx) = frame_queue(64);
    let mut pipeline = StreamPipeline::new(
        config(5),
        Some(raw_tx),
        None,
        vec![analyzer_tx],
        vec![Box::new(GainProcessor::new(Times(2.0), "2"))],
        PipelineMetrics::default(),
    );

    pipeline.ingest(AudioBuffer::new(fmt, Arc::new(vec![0.25; 8]), 8, Instant::now(), 0));

    let raw = raw_rx.inner.try_recv().expect("raw frame");
    let analyzed = analyzer_rx.inner.try_recv().expect("analyzer frame");

    assert_eq!(raw.data[0], 0.25);
    assert_eq!(analyzed.data[0], 0.5);
}

#[test]
fn counting_sinks_via_session_threads() {
    let fmt = mono();
    let (raw_tx, raw_rx) = frame_queue(64);
    let (proc_tx, proc_rx) = frame_queue(64);
    let mut pipeline = StreamPipeline::new(
        config(5),
        Some(raw_tx),
        Some(proc_tx),
        Vec::new(),
        vec![Box::new(GainProcessor::new(Times(2.0), "2"))],
        PipelineMetrics::default(),
    );

    let raw_count = Arc::new(AtomicU64::new(0));
    let proc_count = Arc::new(AtomicU64::new(0));
    let mut raw_sink = CountSink(raw_count.clone());
    let mut proc_sink = CountSink(proc_count.clone());

    for i in 0..10 {
        pipeline.ingest(AudioBuffer::silent(fmt, 64, Instant::now(), i));
    }
    pipeline.close();
    while let Ok(b) = raw_rx.inner.recv() {
        let _ = raw_sink.write_pcm_f32(&b);
    }
    while let Ok(b) = proc_rx.inner.recv() {
        let _ = proc_sink.write_pcm_f32(&b);
    }

    assert_eq!(raw_count.load(Ordering::Relaxed), 10 * 64);
    assert_eq!(proc_count.load(Ordering::Relaxed), 10 * 64);
}

#[test]
fn composite_fanout() {
    let a = Arc::new(Mutex::new(Vec::<AudioBuffer<f32>>::new()));
    let b = Arc::new(Mutex::new(Vec::<AudioBuffer<f32>>::new()));
    let mut c = CompositeSink::new(vec![
        Box::new(VecSink(a.clone())) as Box<dyn AudioSink<f32>>,
        Box::new(VecSink(b.clone())),
    ]);
    let buf = AudioBuffer::silent(mono(), 4, Instant::now(), 0);
    c.write_pcm_f32(&buf).unwrap();
    assert_eq!(a.lock().unwrap().len(), 1);
    assert_eq!(b.lock().unwrap().len(), 1);
}

#[test]
fn a_failing_child_ends_the_round() {
    let before = Arc::new(Mutex::new(Vec::<AudioBuffer<f32>>::new()));
    let after = Arc::new(Mutex::new(Vec::<AudioBuffer<f32>>::new()));
    let mut c = CompositeSink::new(Vec::new());
    assert!(c.is_empty());
    c.push(Box::new(VecSink(before.clone())));
    c.push(Box::new(FailingSink));
    c.push(Box::new(VecSink(after.clone())));
    let (asked, r) = c.write_round(&block(&[0.0], 0));
    assert_eq!(asked, 2);
    assert!(matches!(r, Err(RecordingError::AlreadyStopped)));
    assert_eq!(before.lock().unwrap().len(), 1);
    assert!(after.lock().unwrap().is_empty());
    assert!(c.flush().is_ok());
}

#[test]
fn a_tee_drops_what_does_not_fit() {
    let (wide_tx, wide_rx) = crossbeam_channel::bounded(4);
    let (narrow_tx, narrow_rx) = crossbeam_channel::bounded(1);
    let mut tee = TeeAudioSink::new(vec![wide_tx, narrow_tx]);
    for i in 0..3 {
        tee.write_pcm_f32(&block(&[0.5], i)).unwrap();
    }
    assert_eq!(wide_rx.len(), 3);
    assert_eq!(narrow_rx.len(), 1);
}

#[test]
fn failing_processors_are_bypassed() {
    let mut metrics = PipelineMetrics::default();
    let mut chain: Vec<Box<dyn AudioProcessor<f32>>> =
        vec![Box::new(FailingProcessor), Box::new(GainProcessor::new(Times(2.0), "2"))];
    let out = run_processor_chain(block(&[0.25], 7), &mut chain, None, &mut metrics);
    assert_eq!(out.data[0], 0.5);
    assert_eq!(out.frame_index, 7);
    assert_eq!(metrics.plugin_timeouts, 1);
    assert_eq!(chain[0].name(), "plugin");
    assert_eq!(chain[1].name(), "gain(2)");
}

#[test]
fn budgets_are_exceeded_only_beyond_them() {
    let budget = Some(Duration::from_millis(1));
    assert!(!exceeds_budget(1_000_000, budget));
    assert!(exceeds_budget(1_000_001, budget));
    assert!(!exceeds_budget(u128::MAX, None));
}

#[test]
fn full_queues_count_dropped_frames() {
    let (raw_tx, raw_rx) = frame_queue(1);
    let mut pipeline = StreamPipeline::new(
        config(5),
        Some(raw_tx),
        None,
        Vec::new(),
        Vec::new(),
        PipelineMetrics::default(),
    );
    pipeline.ingest(block(&[0.0; 8], 0));
    pipeline.ingest(block(&[0.0; 8], 8));
    assert_eq!(pipeline.metrics().raw_frames_dropped, 8);
    assert_eq!(raw_rx.inner.len(), 1);
    assert_eq!(pipeline.format(), mono());
    pipeline.close();
    pipeline.ingest(block(&[0.0; 8], 16));
    assert_eq!(pipeline.metrics().raw_frames_dropped, 8);
}

#[test]
fn a_refused_message_comes_back() {
    let (mut tx, rx) = frame_queue(1);
    assert!(tx.try_send(block(&[0.1], 1)).is_ok());
    match tx.try_send(block(&[0.2], 2)) {
        Err(TrySendError::Full(b)) => assert_eq!(b.frame_index, 2),
        _ => panic!("the queue is full"),
    }
    drop(rx);
    match tx.try_send(block(&[0.3], 3)) {
        Err(e) => assert_eq!(e.into_inner().frame_index, 3),
        Ok(()) => panic!("nobody listens"),
    }
}

#[test]
fn gain_refuses_another_layout() {
    let mut gain = GainProcessor::new(Times(2.0), "x");
    let input = block(&[0.1, 0.2], 0);
    let mut output = block(&[0.0], 0);
    match gain.process(&input, &mut output) {
        Err(RecordingError::FormatMismatch { expected, got }) => {
            assert_eq!(expected, mono());
            assert_eq!(got, mono());
        }
        other => panic!("{:?}", other),
    }
    let mut output = AudioBuffer::silent(mono(), 2, Instant::now(), 0);
    gain.process(&input, &mut output).unwrap();
    assert_eq!(*output.data, vec![0.2, 0.4]);
}

#[test]
fn sessions_wire_what_is_asked_for() {
    let session = RecordingSession::new(SessionConfig::default());
    assert_eq!(session.config.raw_queue_capacity, SessionConfig::default().raw_queue_capacity);
    match session.wire_capture_stream(mono(), StreamOptions::<f32>::default()) {
        Err(RecordingError::Config(_)) => {}
        _ => panic!("nothing was attached"),
    }
    let (event_tx, event_rx) = crossbeam_channel::bounded(4);
    let options = StreamOptions {
        raw_sink: Some(Box::new(CountSink(Arc::new(AtomicU64::new(0))))),
        processed_sink: None,
        processors: Vec::new(),
        analyzers: vec![Box::new(VoiceActivityAnalyzer::new(Rms, 0.1))],
        event_tx: Some(event_tx),
    };
    let mut wiring = match session.wire_capture_stream(mono(), options) {
        Ok(w) => w,
        Err(e) => panic!("{:?}", e),
    };
    assert!(wiring.raw_rx.is_some());
    assert!(wiring.processed_rx.is_none());
    assert_eq!(wiring.analyzers.len(), 1);
    wiring.pipeline.ingest(block(&[0.5; 8], 0));
    let mut worker = AnalyzerWorker {
        rx: wiring.analyzer_rxs.remove(0),
        analyzer: wiring.analyzers.remove(0),
        event_tx: wiring.event_txs.remove(0),
    };
    let heard = worker.rx.inner.try_recv().expect("analyzer block");
    let (error, dropped) = worker.accept(&heard);
    assert!(error.is_none());
    assert_eq!(dropped, 0);
    assert_eq!(event_rx.len(), 1);
}

#[test]
fn a_pause_admits_no_block() {
    assert!(admits_block(None));
    assert!(admits_block(Some(false)));
    assert!(!admits_block(Some(true)));
    let (raw_tx, raw_rx) = frame_queue(4);
    let mut pipeline = StreamPipeline::new(
        config(5),
        Some(raw_tx),
        None,
        Vec::new(),
        Vec::new(),
        PipelineMetrics::default(),
    );
    capture_block(&mut pipeline, Some(true), block(&[0.0; 8], 0));
    assert_eq!(raw_rx.inner.len(), 0);
    assert_eq!(pipeline.metrics().raw_frames_dropped, 0);
    capture_block(&mut pipeline, Some(false), block(&[0.0; 8], 8));
    capture_block(&mut pipeline, None, block(&[0.0; 8], 16));
    let seen: Vec<u64> = raw_rx.inner.try_iter().map(|b| b.frame_index).collect();
    assert_eq!(seen, vec![8, 16]);
}

#[test]
fn each_processor_runs_once_and_keeps_its_place() {
    let notes = Arc::new(Mutex::new(String::new()));
    let mut chain: Vec<Box<dyn AudioProcessor<f32>>> = vec![
        Box::new(NotingProcessor('a', notes.clone())),
        Box::new(FailingProcessor),
        Box::new(NotingProcessor('b', notes.clone())),
    ];
    let mut metrics = PipelineMetrics::default();
    for i in 0..2 {
        run_processor_chain(block(&[0.25], i), &mut chain, None, &mut metrics);
    }
    assert_eq!(*notes.lock().unwrap(), "abab");
}

#[test]
fn each_child_is_asked_once() {
    let notes = Arc::new(Mutex::new(String::new()));
    let mut both = CompositeSink::new(vec![
        Box::new(NotingSink(notes.clone())) as Box<dyn AudioSink<f32>>,
        Box::new(NotingSink(notes.clone())),
    ]);
    both.write_pcm_f32(&block(&[0.5], 0)).unwrap();
    assert_eq!(*notes.lock().unwrap(), "ww");
    both.flush().unwrap();
    assert_eq!(*notes.lock().unwrap(), "wwff");
    let mut broken = CompositeSink::new(vec![
        Box::new(NotingSink(notes.clone())) as Box<dyn AudioSink<f32>>,
        Box::new(UnfinishedSink),
        Box::new(NotingSink(notes.clone())),
    ]);
    assert!(matches!(broken.flush(), Err(RecordingError::AlreadyStopped)));
    assert_eq!(*notes.lock().unwrap(), "wwfff");
}

#[test]
fn a_round_ends_with_the_first_failure() {
    let (asked, outcome) = round_outcome(vec![Ok(()), Ok(())]);
    assert_eq!(asked, 2);
    assert!(outcome.is_ok());
    let failed = || Err(RecordingError::Config("no".to_string()));
    let (asked, outcome) = round_outcome(vec![Ok(()), failed(), Ok(())]);
    assert_eq!(asked, 2);
    assert!(matches!(outcome, Err(RecordingError::Config(_))));
    assert_eq!(round_outcome(Vec::new()).0, 0);
}

#[test]
fn steady_activity_is_reported_once() {
    let mut analyzer = VoiceActivityAnalyzer::new(Rms, 0.1).with_tap(AudioTap::Raw);
    for i in 0..3 {
        analyzer.accept_audio(&block(&[0.5; 4], i * 4)).unwrap();
    }
    let events = analyzer.drain_events();
    assert_eq!(events.len(), 1);
    match &events[0] {
        MediaEvent::VoiceActivity { tap, start_frame, end_frame, active, level, confidence } => {
            assert_eq!(*tap, AudioTap::Raw);
            assert_eq!((*start_frame, *end_frame), (0, 4));
            assert!(*active);
            assert_eq!(*level, 0.5);
            assert_eq!(*confidence, 1.0);
        }
        other => panic!("{:?}", other),
    }
}

struct Ramp;

impl Tone<f32, f32> for Ramp {
    fn sample(&self, phase: f32) -> f32 {
        phase
    }

    fn advance(&self, phase: f32) -> f32 {
        phase + 1.0
    }
}

#[test]
fn synthetic_blocks_follow_one_another() {
    let mut source = SyntheticSource::new(AudioFormat::new(10, 2, SampleFormat::F32), 0.0f32);
    let a = source.next_block(&Ramp, 2, Instant::now());
    let b = source.next_block(&Ramp, 2, Instant::now());
    assert_eq!(*a.data, vec![0.0, 0.0, 1.0, 1.0]);
    assert_eq!(*b.data, vec![2.0, 2.0, 3.0, 3.0]);
    assert_eq!((a.frame_index, b.frame_index), (0, 2));
    synthetic_stop_handle::<fn()>().stop();
}

#[test]
fn stopping_runs_what_was_handed_in() {
    let count = Arc::new(AtomicU64::new(0));
    let seen = count.clone();
    StreamHandle::new(move || {
        seen.fetch_add(1, Ordering::Relaxed);
    })
    .stop();
    assert_eq!(count.load(Ordering::Relaxed), 1);
}

struct Scaled;

impl SampleMap<i16, f32> for Scaled {
    fn apply(&self, sample: i16) -> f32 {
        sample as f32 / 32768.0
    }
}

#[test]
fn integer_blocks_are_converted_and_filled_up() {
    let format = AudioFormat::new(48_000, 1, SampleFormat::I16);
    let b: AudioBuffer<f32> = AudioBuffer::from_interleaved_i16(
        format,
        &[16384, -32768],
        3,
        Instant::now(),
        0,
        &Scaled,
    );
    assert_eq!(*b.data, vec![0.5, -1.0, 0.0]);
    assert_eq!(b.format.sample_format, SampleFormat::F32);
    assert!(b.assert_format(mono()).is_ok());
    assert!(matches!(
        b.assert_format(AudioFormat::new(44_100, 1, SampleFormat::F32)),
        Err(RecordingError::FormatMismatch { .. })
    ));
}

#[test]
fn formats_count_samples_and_time() {
    let f = AudioFormat::new(48_000, 2, SampleFormat::F32);
    assert_eq!(f.samples_per_frame(480), 960);
    assert_eq!(f.duration_for_frames(48_000).as_nanos(), 1_000_000_000);
    assert_eq!(SampleFormat::I16.bits(), 16);
    assert_eq!(SampleFormat::F32.bits(), 32);
}

#[test]
fn errors_have_their_messages() {
    assert_eq!(RecordingError::device("gone").message(), "device error: gone");
    assert_eq!(RecordingError::plugin("no").message(), "plugin processing failed: no");
    assert_eq!(RecordingError::config("bad").message(), "invalid configuration: bad");
    assert_eq!(RecordingError::AlreadyStopped.message(), "session already stopped");
    assert_eq!(
        RecordingError::PluginTimeout.message(),
        "plugin time budget exceeded (frame bypassed)"
    );
    assert_eq!(
        RecordingError::RawRingFull(3).message(),
        "ring buffer full (raw path); frames dropped: 3"
    );
    assert_eq!(
        RecordingError::ProcessedRingFull(4).message(),
        "ring buffer full (processed path); frames dropped: 4"
    );
    assert_eq!(RecordingError::Io("x".into()).message(), "encode / I/O error: x");
    assert_eq!(RecordingError::Wav("y".into()).message(), "wav: y");
}

#[test]
fn wired_queues_hold_what_the_session_says() {
    let session = RecordingSession::new(SessionConfig {
        raw_queue_capacity: 3,
        processed_queue_capacity: 2,
        analyzer_queue_capacity: 1,
        plugin_budget_per_plugin: None,
    });
    let count = || -> Box<dyn AudioSink<f32>> {
        Box::new(CountSink(Arc::new(AtomicU64::new(0))))
    };
    let options = StreamOptions {
        raw_sink: Some(count()),
        processed_sink: Some(count()),
        processors: Vec::new(),
        analyzers: vec![Box::new(VoiceActivityAnalyzer::new(Rms, 0.1))],
        event_tx: None,
    };
    let mut wiring = match session.wire_capture_stream(mono(), options) {
        Ok(w) => w,
        Err(e) => panic!("{:?}", e),
    };
    for i in 0..5 {
        wiring.pipeline.ingest(block(&[0.5; 8], i * 8));
    }
    let metrics = wiring.pipeline.metrics();
    assert_eq!(metrics.raw_frames_dropped, 2 * 8);
    assert_eq!(metrics.processed_frames_dropped, 3 * 8);
    assert_eq!(metrics.analyzer_frames_dropped, 4 * 8);
    assert_eq!(wiring.raw_rx.map(|q| q.inner.len()), Some(3));
    assert_eq!(wiring.processed_rx.map(|q| q.inner.len()), Some(2));
    assert_eq!(wiring.analyzer_rxs[0].inner.len(), 1);
}

#[test]
fn a_queue_takes_as_many_messages_as_it_holds() {
    let (mut tx, rx) = frame_queue(4);
    for i in 0..4 {
        assert!(tx.try_send(block(&[0.1], i)).is_ok());
    }
    assert!(matches!(tx.try_send(block(&[0.1], 4)), Err(TrySendError::Full(_))));
    assert_eq!(rx.inner.len(), 4);
}
