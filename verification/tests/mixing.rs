//! Buses: how legs are topped up, aligned, trimmed and mixed.

use std::sync::Arc;
use std::time::Instant;

use crossbeam_channel::TryRecvError;

use recorder::buffer::{AudioBuffer, SampleMap};
use recorder::bus::{
    jitter_frames, next_top_up_action, on_top_up_event, BusState, BusStep, TopUpAction, TopUpEvent,
    TopUpPhase,
};
use recorder::error::RecordingError;
use recorder::format::{AudioFormat, SampleFormat};
use recorder::graph::{bus_mixer_legs, mixer_channels, BusLeg};
use recorder::metrics::PipelineMetrics;
use recorder::mixdown::{downmix_to_mono, emit_block, mix_n_blocks, MixMath};
use recorder::mixer::{
    compute_emit_frames, frame_duration, BusLegConfig, BusMixerConfig, LegResampler, MixLegState,
    MixMode, MixerConfig,
};
use recorder::pipeline::GainProcessor;
use recorder::ring::FrameReceiver;
use recorder::time::Duration;
use recorder::traits::{AudioProcessor, AudioSink};

struct Floats;

impl MixMath<f32, f32> for Floats {
    fn zero(&self) -> f32 {
        0.0
    }

    fn accumulate(&self, sum: f32, sample: f32) -> f32 {
        sum + sample
    }

    fn mean(&self, sum: f32, count: u32) -> f32 {
        sum / count as f32
    }

    fn scale(&self, sample: f32, gain: f32) -> f32 {
        sample * gain
    }

    fn limit(&self, sum: f32) -> f32 {
        if sum.abs() <= 0.5 {
            sum
        } else {
            sum.signum() * (0.5 + 0.5 * ((sum.abs() - 0.5) / 0.5).tanh())
        }
    }
}

/// Turns each chunk of 100 frames into 150 frames by holding the first sample.
struct Stretch;

impl LegResampler<f32> for Stretch {
    fn input_frames_next(&self) -> usize {
        100
    }

    fn process(self, chunk: &Vec<Vec<f32>>) -> (Option<(Vec<Vec<f32>>, usize)>, Self) {
        (Some((chunk.iter().map(|c| vec![c[0]; 150]).collect(), 150)), self)
    }
}

struct Double;

impl SampleMap<f32, f32> for Double {
    fn apply(&self, sample: f32) -> f32 {
        sample * 2.0
    }
}

fn mono() -> AudioFormat {
    AudioFormat::new(48_000, 1, SampleFormat::F32)
}

fn dc_buffer(format: AudioFormat, frames: usize, value: f32, frame_index: u64) -> AudioBuffer<f32> {
    let n = format.samples_per_frame(frames);
    AudioBuffer::new(format, Arc::new(vec![value; n]), frames, Instant::now(), frame_index)
}

fn top_up(
    rx: &FrameReceiver<f32>,
    leg: &mut MixLegState<f32>,
    resampler: &mut Option<Stretch>,
    done: &mut bool,
) {
    let mut phase = TopUpPhase::Draining;
    loop {
        let (now, action) = next_top_up_action(phase, *done, leg.frames_ready());
        if action == TopUpAction::Finished {
            return;
        }
        let event = match rx.inner.try_recv() {
            Ok(block) => TopUpEvent::Received(block),
            Err(TryRecvError::Empty) => TopUpEvent::Nothing,
            Err(TryRecvError::Disconnected) => TopUpEvent::Disconnected,
        };
        phase = on_top_up_event(now, event, leg, resampler, done);
    }
}

/// Runs a bus until it is finished or has gone idle `patience` times.
fn run_bus(
    config: &BusMixerConfig<f32>,
    queues: &[FrameReceiver<f32>],
    post: &mut Vec<Box<dyn AudioProcessor<f32>>>,
    patience: usize,
) -> Vec<AudioBuffer<f32>> {
    config.check_receivers(queues.len()).expect("bus layout");
    let mut bus = BusState::new(config, 0.0f32);
    let mut resamplers: Vec<Option<Stretch>> =
        bus.legs.iter().map(|l| if l.resampling { Some(Stretch) } else { None }).collect();
    let mut metrics = PipelineMetrics::default();
    let mut out = Vec::new();
    let mut idle = 0;
    loop {
        for i in 0..queues.len() {
            let mut done = bus.done[i];
            top_up(&queues[i], &mut bus.legs[i], &mut resamplers[i], &mut done);
            bus.done[i] = done;
        }
        match bus.next_step() {
            BusStep::Finished => return out,
            BusStep::Idle { .. } => {
                idle += 1;
                if idle > patience {
                    return out;
                }
            }
            BusStep::Emit { frames, blocks, frame_index } => {
                out.push(emit_block(
                    &Floats,
                    config,
                    &blocks,
                    frames,
                    Instant::now(),
                    frame_index,
                    post,
                    &mut metrics,
                ));
            }
        }
    }
}

fn preset(mode: MixMode, mic: AudioFormat, speaker: AudioFormat, ms: u64) -> MixerConfig {
    MixerConfig {
        mode,
        mic_format: mic,
        speaker_format: speaker,
        jitter_window: Duration::from_millis(ms),
    }
}

fn queues_of(legs: (BusLeg<f32>, BusLeg<f32>)) -> [FrameReceiver<f32>; 2] {
    [legs.0.queue, legs.1.queue]
}

#[test]
fn split_stereo_routes_mic_left_speaker_right() {
    let mic_format = mono();
    let spk_format = AudioFormat::new(48_000, 2, SampleFormat::F32);
    let cfg = preset(MixMode::SplitStereo, mic_format, spk_format, 200);
    let mut legs = mixer_channels(8);
    for i in 0..3u64 {
        legs.0.sink.write_pcm_f32(&dc_buffer(mic_format, 480, 0.4, i * 480)).unwrap();
        legs.1.sink.write_pcm_f32(&dc_buffer(spk_format, 480, 0.2, i * 480)).unwrap();
    }
    let buffers = run_bus(&cfg.into_bus(1.0), &queues_of(legs), &mut Vec::new(), 0);
    assert!(!buffers.is_empty(), "expected mixed output");
    let buf = &buffers[0];
    assert_eq!(buf.format.channels, 2);
    assert!((buf.data[0] - 0.4).abs() < 1e-3, "left = {}", buf.data[0]);
    assert!((buf.data[1] - 0.2).abs() < 1e-3, "right = {}", buf.data[1]);
}

#[test]
fn dual_live_emits_mic_only_while_speaker_queue_empty() {
    let cfg = preset(MixMode::SumMono, mono(), mono(), 200);
    let (mut mic, spk) = mixer_channels(8);
    mic.sink.write_pcm_f32(&dc_buffer(mono(), 480, 0.1, 0)).unwrap();
    let kept = spk.sink;
    let buffers =
        run_bus(&cfg.into_bus(1.0), &[mic.queue, spk.queue], &mut Vec::new(), 3);
    assert!(!buffers.is_empty(), "expected mic-only mix while speaker has not produced yet");
    assert!((buffers[0].data[0] - 0.1).abs() < 1e-3, "got {}", buffers[0].data[0]);
    drop(kept);
}

#[test]
fn sum_mono_combines_both_sources() {
    let cfg = preset(MixMode::SumMono, mono(), mono(), 200);
    let mut legs = mixer_channels(8);
    for i in 0..3u64 {
        legs.0.sink.write_pcm_f32(&dc_buffer(mono(), 480, 0.1, i * 480)).unwrap();
        legs.1.sink.write_pcm_f32(&dc_buffer(mono(), 480, 0.2, i * 480)).unwrap();
    }
    let buffers = run_bus(&cfg.into_bus(1.0), &queues_of(legs), &mut Vec::new(), 0);
    assert!(!buffers.is_empty());
    let buf = &buffers[0];
    assert_eq!(buf.format.channels, 1);
    assert!((buf.data[0] - 0.3).abs() < 1e-3, "got {}", buf.data[0]);
}

#[test]
fn jitter_window_caps_buffering_when_one_side_runs_long() {
    let cfg = preset(MixMode::SumMono, mono(), mono(), 50);
    let (mut mic, spk) = mixer_channels(64);
    drop(spk.sink);
    for i in 0..100u64 {
        mic.sink.write_pcm_f32(&dc_buffer(mono(), 480, 0.05, i * 480)).unwrap();
    }
    drop(mic.sink);
    let buffers = run_bus(&cfg.into_bus(1.0), &[mic.queue, spk.queue], &mut Vec::new(), 0);
    let total_frames: usize = buffers.iter().map(|b| b.frames).sum();
    assert!(total_frames > 0, "mixer produced no frames");
    assert!(total_frames <= 48_000, "produced {} > 48000", total_frames);
}

#[test]
fn resampler_runs_for_44100_speaker_into_48000_mic() {
    let mic_format = mono();
    let spk_format = AudioFormat::new(44_100, 2, SampleFormat::F32);
    let cfg = preset(MixMode::SumStereo, mic_format, spk_format, 500);
    let mut legs = mixer_channels(32);
    for i in 0..16u64 {
        legs.0.sink.write_pcm_f32(&dc_buffer(mic_format, 480, 0.0, i * 480)).unwrap();
        legs.1.sink.write_pcm_f32(&dc_buffer(spk_format, 1024, 0.0, i * 1024)).unwrap();
    }
    let buffers = run_bus(&cfg.into_bus(1.0), &queues_of(legs), &mut Vec::new(), 0);
    assert!(!buffers.is_empty(), "mixer produced no output");
    assert_eq!(buffers[0].format.sample_rate_hz, 48_000);
    assert_eq!(buffers[0].format.channels, 2);
}

#[test]
fn bus_mixer_three_inputs_sum_mono() {
    let f = mono();
    let config = BusMixerConfig {
        bus_sample_rate_hz: 48_000,
        mix_mode: MixMode::SumMono,
        legs: vec![
            BusLegConfig::new(f, 1.0f32),
            BusLegConfig::new(f, 1.0),
            BusLegConfig::new(f, 1.0),
        ],
        jitter_window: Duration::from_millis(200),
        plugin_budget_per_plugin: None,
    };
    let mut legs = bus_mixer_legs(16, 3);
    for i in 0..2u64 {
        let base = i * 480;
        legs[0].sink.write_pcm_f32(&dc_buffer(f, 480, 0.1, base)).unwrap();
        legs[1].sink.write_pcm_f32(&dc_buffer(f, 480, 0.2, base)).unwrap();
        legs[2].sink.write_pcm_f32(&dc_buffer(f, 480, 0.3, base)).unwrap();
    }
    let queues: Vec<FrameReceiver<f32>> = legs.into_iter().map(|l| l.queue).collect();
    let buffers = run_bus(&config, &queues, &mut Vec::new(), 0);
    assert!(!buffers.is_empty());
    assert!((buffers[0].data[0] - 0.6).abs() < 0.05, "sum 0.1+0.2+0.3");
}

#[test]
fn bus_post_mix_gain_applies() {
    let f = mono();
    let config = BusMixerConfig {
        bus_sample_rate_hz: 48_000,
        mix_mode: MixMode::SumMono,
        legs: vec![BusLegConfig::new(f, 1.0f32)],
        jitter_window: Duration::from_millis(200),
        plugin_budget_per_plugin: Some(Duration::from_millis(50)),
    };
    let mut legs = bus_mixer_legs(8, 1);
    let mut leg = legs.remove(0);
    leg.sink.write_pcm_f32(&dc_buffer(f, 480, 0.1, 0)).unwrap();
    drop(leg.sink);
    let mut post: Vec<Box<dyn AudioProcessor<f32>>> =
        vec![Box::new(GainProcessor::new(Double, "2"))];
    let buffers = run_bus(&config, &[leg.queue], &mut post, 0);
    assert!(!buffers.is_empty());
    assert!((buffers[0].data[0] - 0.2).abs() < 1e-2, "got {}", buffers[0].data[0]);
}

#[test]
fn blocks_of_a_bus_are_contiguous_and_keep_all_frames() {
    let cfg = preset(MixMode::SumMono, mono(), mono(), 1_000);
    let mut legs = mixer_channels(16);
    for i in 0..5u64 {
        legs.0.sink.write_pcm_f32(&dc_buffer(mono(), 300, 0.1, i * 300)).unwrap();
        legs.1.sink.write_pcm_f32(&dc_buffer(mono(), 300, 0.1, i * 300)).unwrap();
    }
    let buffers = run_bus(&cfg.into_bus(1.0), &queues_of(legs), &mut Vec::new(), 0);
    let mut next = 0u64;
    for b in &buffers {
        assert_eq!(b.frame_index, next);
        assert!(b.frames <= 480);
        next += b.frames as u64;
    }
    assert_eq!(next, 1_500);
}

#[test]
fn the_jitter_window_keeps_the_newest_frames() {
    let config = BusMixerConfig {
        bus_sample_rate_hz: 1_000,
        mix_mode: MixMode::SumMono,
        legs: vec![BusLegConfig::new(AudioFormat::new(1_000, 1, SampleFormat::F32), 1.0f32)],
        jitter_window: Duration::from_millis(3),
        plugin_budget_per_plugin: None,
    };
    let mut bus = BusState::new(&config, 0.0f32);
    assert_eq!(bus.max_jitter_frames, 3);
    let format = AudioFormat::new(1_000, 1, SampleFormat::F32);
    let data = Arc::new(vec![0.1, 0.2, 0.3, 0.4, 0.5]);
    bus.legs[0].ingest_direct(&AudioBuffer::new(format, data, 5, Instant::now(), 0));
    bus.trim();
    let kept: Vec<f32> = bus.legs[0].interleaved.iter().copied().collect();
    assert_eq!(kept, vec![0.3, 0.4, 0.5]);
}

#[test]
fn popping_fills_up_with_silence() {
    let mut leg = MixLegState::new(2, 48_000, 48_000, 0.0f32);
    assert!(!leg.resampling);
    let format = AudioFormat::new(48_000, 2, SampleFormat::F32);
    let data = Arc::new(vec![1.0, 2.0, 3.0, 4.0]);
    leg.ingest_direct(&AudioBuffer::new(format, data, 2, Instant::now(), 0));
    assert_eq!(leg.frames_ready(), 2);
    assert_eq!(leg.pop_frames(1), vec![1.0, 2.0]);
    assert_eq!(leg.pop_frames(2), vec![3.0, 4.0, 0.0, 0.0]);
    assert_eq!(leg.frames_ready(), 0);
}

#[test]
fn resampling_works_chunk_by_chunk() {
    let mut leg = MixLegState::new(1, 44_100, 48_000, 0.0f32);
    assert!(leg.resampling);
    let resampler = Some(Stretch);
    let format = AudioFormat::new(44_100, 1, SampleFormat::F32);
    let resampler = leg.ingest(&dc_buffer(format, 250, 0.5, 0), resampler);
    assert_eq!(leg.frames_ready(), 300);
    leg.ingest(&dc_buffer(format, 50, 0.25, 250), resampler);
    assert_eq!(leg.frames_ready(), 450);
}

/// Gives the number of the chunk, ten frames for ten.
struct Counting(u32);

impl LegResampler<f32> for Counting {
    fn input_frames_next(&self) -> usize {
        10
    }

    fn process(self, chunk: &Vec<Vec<f32>>) -> (Option<(Vec<Vec<f32>>, usize)>, Self) {
        let out = chunk.iter().map(|c| vec![self.0 as f32; c.len()]).collect();
        (Some((out, 10)), Counting(self.0 + 1))
    }
}

#[test]
fn a_converter_is_called_once_for_each_chunk() {
    let mut leg = MixLegState::new(1, 44_100, 48_000, 0.0f32);
    let format = AudioFormat::new(44_100, 1, SampleFormat::F32);
    let first = leg.ingest(&dc_buffer(format, 25, 0.5, 0), Some(Counting(0)));
    assert_eq!(first.as_ref().map(|c| c.0), Some(2));
    let second = leg.ingest(&dc_buffer(format, 5, 0.5, 25), first);
    assert_eq!(second.map(|c| c.0), Some(3));
    let out = leg.pop_frames(30);
    assert_eq!((out[0], out[10], out[20]), (0.0, 1.0, 2.0));
}

#[test]
fn frames_to_emit_follow_the_slowest_live_leg() {
    assert_eq!(compute_emit_frames(&[10, 20], &[false, false]), 10);
    assert_eq!(compute_emit_frames(&[10, 0], &[false, false]), 10);
    assert_eq!(compute_emit_frames(&[10, 20], &[true, false]), 20);
    assert_eq!(compute_emit_frames(&[10, 20], &[true, true]), 20);
    assert_eq!(compute_emit_frames(&[1_000, 2_000], &[false, false]), 480);
    assert_eq!(compute_emit_frames(&[0, 0], &[false, true]), 0);
}

#[test]
fn a_bus_names_its_layout_errors() {
    let f = mono();
    let mut config = BusMixerConfig {
        bus_sample_rate_hz: 48_000,
        mix_mode: MixMode::SplitStereo,
        legs: vec![BusLegConfig::new(f, 1.0f32)],
        jitter_window: Duration::from_millis(1),
        plugin_budget_per_plugin: None,
    };
    assert!(matches!(config.validate(), Err(RecordingError::Config(_))));
    config.legs.clear();
    assert!(config.validate().is_err());
    config.mix_mode = MixMode::SumMono;
    config.legs.push(BusLegConfig::new(f, 1.0));
    assert!(config.validate().is_ok());
    match config.check_receivers(3) {
        Err(RecordingError::Config(text)) => {
            assert_eq!(text, "BusMixer: 3 receivers but 1 leg configs")
        }
        other => panic!("{:?}", other),
    }
}

#[test]
fn the_preset_mixes_to_the_layout_that_it_announces() {
    let cfg = preset(MixMode::SplitStereo, mono(), AudioFormat::new(44_100, 2, SampleFormat::I16), 5);
    let bus = cfg.into_bus(1.0f32);
    assert_eq!(bus.output_format(), cfg.output_format());
    assert_eq!(cfg.output_format(), AudioFormat::new(48_000, 2, SampleFormat::F32));
    assert_eq!(bus.legs.len(), 2);
}

#[test]
fn durations_and_jitter_count_frames() {
    assert_eq!(frame_duration(48_000, 48_000).as_nanos(), 1_000_000_000);
    assert_eq!(frame_duration(1, 48_000).as_nanos(), 20_833);
    assert_eq!(jitter_frames(Duration::from_millis(200), 48_000), 9_600);
}

#[test]
fn downmix_takes_the_mean_of_a_frame() {
    let block = vec![1.0f32, 0.0, 0.5, 0.25];
    assert_eq!(downmix_to_mono::<f32, f32, Floats>(&Floats, &block, 0, 2), 0.5);
    assert_eq!(downmix_to_mono::<f32, f32, Floats>(&Floats, &block, 1, 2), 0.375);
}

#[test]
fn sum_stereo_doubles_each_summed_frame() {
    let f = mono();
    let legs = vec![BusLegConfig::new(f, 0.5f32), BusLegConfig::new(f, 1.0)];
    let blocks = vec![vec![0.2f32, 0.4], vec![0.1, 0.1]];
    let out = mix_n_blocks(&Floats, &blocks, &legs, MixMode::SumStereo, 2);
    assert_eq!(out.len(), 4);
    assert!((out[0] - 0.2).abs() < 1e-6);
    assert_eq!(out[0], out[1]);
    assert!((out[2] - 0.3).abs() < 1e-6);
    assert_eq!(out[2], out[3]);
    let mono_out = mix_n_blocks(&Floats, &blocks, &legs, MixMode::SumMono, 2);
    assert_eq!(mono_out, vec![out[0], out[2]]);
}

#[test]
fn swapped_legs_swap_the_sides() {
    let f = mono();
    let legs = vec![BusLegConfig::new(f, 0.5f32), BusLegConfig::new(f, 1.0)];
    let turned = vec![legs[1], legs[0]];
    let out = mix_n_blocks(
        &Floats,
        &vec![vec![0.2f32, 0.4], vec![0.1, 0.3]],
        &legs,
        MixMode::SplitStereo,
        2,
    );
    assert_eq!(out, vec![0.1, 0.1, 0.2, 0.3]);
    let swapped = mix_n_blocks(
        &Floats,
        &vec![vec![0.1f32, 0.3], vec![0.2, 0.4]],
        &turned,
        MixMode::SplitStereo,
        2,
    );
    assert_eq!(swapped, vec![0.1, 0.1, 0.3, 0.2]);
}

#[test]
fn a_finished_leg_is_not_waited_for() {
    assert_eq!(
        next_top_up_action(TopUpPhase::Filling, true, 0),
        (TopUpPhase::Settled, TopUpAction::Finished)
    );
    assert_eq!(
        next_top_up_action(TopUpPhase::Filling, false, 0),
        (TopUpPhase::Filling, TopUpAction::Wait)
    );
    assert_eq!(
        next_top_up_action(TopUpPhase::Filling, false, 480),
        (TopUpPhase::Probing, TopUpAction::TryReceive)
    );
}
