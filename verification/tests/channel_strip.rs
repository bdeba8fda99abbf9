//! The channel strip: gains, gate, compressor and equalizer, with single-precision arithmetic.

use std::sync::Arc;
use std::time::Instant;

use recorder::buffer::AudioBuffer;
use recorder::channel::{
    standard_config, ChannelMath, ChannelProcessor, ChannelProcessorConfig, CompressorConfig,
    NoiseGateConfig, ParametricEqBandConfig, ParametricEqConfig, ParametricEqFilterType,
};
use recorder::error::RecordingError;
use recorder::format::{AudioFormat, SampleFormat};
use recorder::traits::AudioProcessor;

/// `b0, b1, b2, a1, a2` of a second-order filter.
type Biquad = [f32; 5];

struct Single;

impl ChannelMath<f32, Biquad, (f32, f32)> for Single {
    fn number(&self, thousandths: i32) -> f32 {
        thousandths as f32 / 1000.0
    }

    fn same(&self, a: f32, b: f32) -> bool {
        a == b
    }

    fn gain(&self, db: f32) -> f32 {
        10.0f32.powf(db / 20.0)
    }

    fn plus(&self, a: f32, b: f32) -> f32 {
        a + b
    }

    fn times(&self, a: f32, b: f32) -> f32 {
        a * b
    }

    fn magnitude(&self, a: f32) -> f32 {
        a.abs()
    }

    fn larger(&self, a: f32, b: f32) -> f32 {
        a.max(b)
    }

    fn level(&self, amplitude: f32) -> f32 {
        if amplitude <= 0.0 {
            -120.0
        } else {
            20.0 * amplitude.max(1.0e-6).log10()
        }
    }

    fn at_most(&self, a: f32, b: f32) -> bool {
        a <= b
    }

    fn below(&self, a: f32, b: f32) -> bool {
        a < b
    }

    fn usable_ratio(&self, ratio: f32) -> f32 {
        ratio.max(1.0)
    }

    fn reduction_for(&self, level: f32, threshold: f32, ratio: f32) -> f32 {
        let over = level - threshold;
        over / ratio - over
    }

    fn coefficient(&self, ms: f32, sample_rate_hz: u32) -> f32 {
        (-1.0 / (ms.max(0.01) / 1000.0 * sample_rate_hz.max(1) as f32)).exp()
    }

    fn approach(&self, target: f32, current: f32, coefficient: f32) -> f32 {
        target + coefficient * (current - target)
    }

    fn clip(&self, sample: f32) -> f32 {
        sample.clamp(-1.0, 1.0)
    }

    fn identity(&self) -> Biquad {
        [1.0, 0.0, 0.0, 0.0, 0.0]
    }

    fn design(&self, sample_rate_hz: u32, band: ParametricEqBandConfig<f32>) -> Biquad {
        let rate = sample_rate_hz.max(1) as f32;
        let omega = std::f32::consts::TAU * band.frequency_hz.clamp(10.0, rate * 0.475) / rate;
        let alpha = omega.sin() / (2.0 * band.q.clamp(0.1, 18.0));
        let a = 10.0f32.powf(band.gain_db.clamp(-24.0, 24.0) / 40.0);
        match band.filter_type {
            ParametricEqFilterType::Bell => {
                let a0 = 1.0 + alpha / a;
                [
                    (1.0 + alpha * a) / a0,
                    -2.0 * omega.cos() / a0,
                    (1.0 - alpha * a) / a0,
                    -2.0 * omega.cos() / a0,
                    (1.0 - alpha / a) / a0,
                ]
            }
            _ => self.identity(),
        }
    }

    fn rest(&self) -> (f32, f32) {
        (0.0, 0.0)
    }

    fn filter(&self, k: Biquad, sample: f32, memory: (f32, f32)) -> (f32, (f32, f32)) {
        let out = k[0] * sample + memory.0;
        (out, (k[1] * sample - k[3] * out + memory.1, k[2] * sample - k[4] * out))
    }
}

type Strip = ChannelProcessor<f32, Biquad, (f32, f32), Single>;

fn base() -> ChannelProcessorConfig<f32> {
    standard_config(&Single)
}

fn buffer(samples: &[f32]) -> AudioBuffer<f32> {
    AudioBuffer::new(
        AudioFormat::new(48_000, 1, SampleFormat::F32),
        Arc::new(samples.to_vec()),
        samples.len(),
        Instant::now(),
        0,
    )
}

fn silent_like(input: &AudioBuffer<f32>) -> AudioBuffer<f32> {
    AudioBuffer::silent(input.format, input.frames, input.captured_at, input.frame_index)
}

fn sine_buffer(frequency_hz: f32, frames: usize) -> AudioBuffer<f32> {
    let sample_rate = 48_000.0;
    let samples: Vec<f32> = (0..frames)
        .map(|frame| {
            (std::f32::consts::TAU * frequency_hz * frame as f32 / sample_rate).sin() * 0.1
        })
        .collect();
    buffer(&samples)
}

fn rms(buffer: &AudioBuffer<f32>) -> f32 {
    let mean_square =
        buffer.data.iter().map(|sample| sample * sample).sum::<f32>() / buffer.data.len() as f32;
    mean_square.sqrt()
}

#[test]
fn input_and_output_gain_are_applied() {
    let input = buffer(&[0.1, -0.1, 0.2]);
    let mut output = silent_like(&input);
    let mut processor: Strip = ChannelProcessor::new(
        Single,
        ChannelProcessorConfig { input_gain_db: 6.0, output_gain_db: -6.0, ..base() },
    );

    processor.process(&input, &mut output).unwrap();

    for (got, expected) in output.data.iter().zip(input.data.iter()) {
        assert!(
            (got - expected).abs() < 0.001,
            "input/output gain should cancel: got {}, expected {}",
            got,
            expected
        );
    }
}

#[test]
fn gate_uses_open_and_close_thresholds() {
    let input = buffer(&[0.001, 0.2, 0.08, 0.001]);
    let mut output = silent_like(&input);
    let mut processor: Strip = ChannelProcessor::new(
        Single,
        ChannelProcessorConfig {
            gate: NoiseGateConfig {
                enabled: true,
                open_threshold_db: -20.0,
                close_threshold_db: -30.0,
            },
            ..base()
        },
    );

    processor.process(&input, &mut output).unwrap();

    assert_eq!(output.data[0], 0.0, "gate should start closed below open threshold");
    assert!(output.data[1] > 0.19, "gate should open above open threshold");
    assert!(output.data[2] > 0.07, "gate should stay open until close threshold is crossed");
    assert_eq!(output.data[3], 0.0, "gate should close below close threshold");
    assert!(!processor.gate_open());
}

#[test]
fn compressor_reduces_level_above_threshold() {
    let input = buffer(&vec![0.8; 2_000]);
    let mut output = silent_like(&input);
    let mut processor: Strip = ChannelProcessor::new(
        Single,
        ChannelProcessorConfig {
            compressor: CompressorConfig {
                enabled: true,
                threshold_db: -12.0,
                ratio: 4.0,
                attack_ms: 1.0,
                release_ms: 50.0,
                makeup_gain_db: 0.0,
            },
            ..base()
        },
    );

    processor.process(&input, &mut output).unwrap();

    let tail = output.data[1_900];
    assert!(tail < 0.55, "compressor should reduce sustained loud audio: {}", tail);
    assert!(processor.compressor_reduction_db() < -3.0);
}

#[test]
fn compressor_release_recovers_after_signal_drops() {
    let mut samples = vec![0.8; 1_000];
    samples.extend(vec![0.05; 8_000]);
    let input = buffer(&samples);
    let mut output = silent_like(&input);
    let mut processor: Strip = ChannelProcessor::new(
        Single,
        ChannelProcessorConfig {
            compressor: CompressorConfig {
                enabled: true,
                threshold_db: -18.0,
                ratio: 6.0,
                attack_ms: 1.0,
                release_ms: 20.0,
                makeup_gain_db: 0.0,
            },
            ..base()
        },
    );

    processor.process(&input, &mut output).unwrap();

    assert!(
        output.data[1_100] < 0.05,
        "release should still be recovering immediately after loud audio"
    );
    assert!(
        output.data[8_900] > 0.045,
        "release should recover after sustained quiet audio"
    );
}

#[test]
fn makeup_gain_is_applied_after_compression() {
    let input = buffer(&vec![0.5; 2_000]);
    let mut dry = silent_like(&input);
    let mut makeup = silent_like(&input);
    let compressor = CompressorConfig {
        enabled: true,
        threshold_db: -18.0,
        ratio: 3.0,
        attack_ms: 1.0,
        release_ms: 50.0,
        makeup_gain_db: 0.0,
    };
    let mut dry_processor: Strip =
        ChannelProcessor::new(Single, ChannelProcessorConfig { compressor, ..base() });
    let mut makeup_processor: Strip = ChannelProcessor::new(
        Single,
        ChannelProcessorConfig {
            compressor: CompressorConfig { makeup_gain_db: 6.0, ..compressor },
            ..base()
        },
    );

    dry_processor.process(&input, &mut dry).unwrap();
    makeup_processor.process(&input, &mut makeup).unwrap();

    assert!(makeup.data[1_900] > dry.data[1_900] * 1.9);
}

#[test]
fn parametric_eq_boosts_matching_frequency() {
    let input = sine_buffer(1_000.0, 4_800);
    let mut output = silent_like(&input);
    let off = ParametricEqFilterType::Disabled;
    let mut processor: Strip = ChannelProcessor::new(
        Single,
        ChannelProcessorConfig {
            parametric_eq: ParametricEqConfig {
                enabled: true,
                bands: [
                    ParametricEqBandConfig::new(ParametricEqFilterType::Bell, 1_000.0, 12.0, 2.0),
                    ParametricEqBandConfig::new(off, 160.0, 0.0, 1.0),
                    ParametricEqBandConfig::new(off, 400.0, 0.0, 1.0),
                    ParametricEqBandConfig::new(off, 2_000.0, 0.0, 1.0),
                    ParametricEqBandConfig::new(off, 5_000.0, 0.0, 1.0),
                ],
            },
            ..base()
        },
    );

    processor.process(&input, &mut output).unwrap();

    assert!(rms(&output) > rms(&input) * 2.0);
}

#[test]
fn the_standard_strip_changes_nothing() {
    let config = base();
    assert_eq!(config.gate.open_threshold_db, -45.0);
    assert_eq!(config.compressor.ratio, 3.0);
    assert_eq!(config.parametric_eq.bands[4].frequency_hz, 10_000.0);
    let input = buffer(&[0.5, -0.25]);
    let mut output = silent_like(&input);
    let mut processor: Strip = ChannelProcessor::new(Single, config);
    processor.process(&input, &mut output).unwrap();
    assert_eq!(*output.data, vec![0.5, -0.25]);
}

#[test]
fn a_strip_refuses_other_layouts() {
    let input = buffer(&[0.5]);
    let mut other = AudioBuffer::silent(
        AudioFormat::new(44_100, 1, SampleFormat::F32),
        1,
        Instant::now(),
        0,
    );
    let mut processor: Strip = ChannelProcessor::new(Single, base());
    assert!(matches!(
        processor.process(&input, &mut other),
        Err(RecordingError::FormatMismatch { .. })
    ));
    let empty = AudioFormat::new(48_000, 0, SampleFormat::F32);
    let none = AudioBuffer::silent(empty, 1, Instant::now(), 0);
    let mut out = AudioBuffer::silent(empty, 1, Instant::now(), 0);
    match processor.process(&none, &mut out) {
        Err(RecordingError::Config(text)) => {
            assert_eq!(text, "ChannelProcessor requires at least one channel")
        }
        other => panic!("{:?}", other),
    }
}

#[test]
fn a_reset_forgets_the_reduction() {
    let input = buffer(&vec![0.9; 100]);
    let mut output = silent_like(&input);
    let mut config = base();
    config.compressor.enabled = true;
    let mut processor: Strip = ChannelProcessor::new(Single, config);
    processor.process(&input, &mut output).unwrap();
    assert!(processor.compressor_reduction_db() < 0.0);
    AudioProcessor::reset(&mut processor);
    assert_eq!(processor.compressor_reduction_db(), 0.0);
    assert!(processor.gate_open());
}

#[test]
fn gate_thresholds_are_put_in_order() {
    let mut config = base();
    config.gate = NoiseGateConfig {
        enabled: true,
        open_threshold_db: -40.0,
        close_threshold_db: -30.0,
    };
    let processor: Strip = ChannelProcessor::new(Single, config);
    let gate = processor.normalized_gate();
    assert!(gate.close_threshold_db <= gate.open_threshold_db);
}

#[test]
fn new_equalizer_settings_put_the_filters_out_of_date() {
    let input = sine_buffer(1_000.0, 480);
    let mut output = silent_like(&input);
    let mut processor: Strip = ChannelProcessor::new(Single, base());
    processor.process(&input, &mut output).unwrap();
    assert_eq!(processor.eq_sample_rate_hz, 48_000);

    let louder = ChannelProcessorConfig { input_gain_db: 3.0, ..base() };
    processor.set_config(louder);
    assert_eq!(processor.config().input_gain_db, 3.0);
    assert_eq!(processor.eq_sample_rate_hz, 48_000);

    let mut shaped = base();
    shaped.parametric_eq.enabled = !shaped.parametric_eq.enabled;
    processor.set_config(shaped);
    assert_eq!(processor.eq_sample_rate_hz, 0);
    processor.process(&input, &mut output).unwrap();
    assert_eq!(processor.eq_sample_rate_hz, 48_000);
}
