//! A channel strip: input gain, equalizer, noise gate, compressor and output gain. The strip
//! decides which filter, gain and coefficient is used when; the arithmetic is handed in as a
//! [`ChannelMath`].

use std::sync::Arc;

use vstd::prelude::*;

use crate::buffer::AudioBuffer;
use crate::error::{RecordingError, Result};
use crate::traits::{AudioProcessor, Mark};

verus! {

/// The number of equalizer bands.
pub const PARAMETRIC_EQ_BAND_COUNT: usize = 5;

/// What an equalizer band does.
#[derive(Debug, Clone, Copy, PartialEq, Eq, Structural)]
pub enum ParametricEqFilterType {
    Disabled,
    Bell,
    LowPass,
    HighPass,
    LowShelf,
    HighShelf,
    Notch,
}

/// One equalizer band.
#[derive(Debug, Clone, Copy)]
pub struct ParametricEqBandConfig<N> {
    pub filter_type: ParametricEqFilterType,
    pub frequency_hz: N,
    pub gain_db: N,
    pub q: N,
}

impl<N> ParametricEqBandConfig<N> {
    /// A band of the given kind.
    pub fn new(filter_type: ParametricEqFilterType, frequency_hz: N, gain_db: N, q: N) -> (b: Self)
        ensures
            b == (ParametricEqBandConfig { filter_type, frequency_hz, gain_db, q }),
    {
        ParametricEqBandConfig { filter_type, frequency_hz, gain_db, q }
    }
}

/// The equalizer.
#[derive(Debug, Clone, Copy)]
pub struct ParametricEqConfig<N> {
    pub enabled: bool,
    pub bands: [ParametricEqBandConfig<N>; 5],
}

/// The noise gate: it opens at one level and closes at another.
#[derive(Debug, Clone, Copy)]
pub struct NoiseGateConfig<N> {
    pub enabled: bool,
    pub open_threshold_db: N,
    pub close_threshold_db: N,
}

/// The compressor.
#[derive(Debug, Clone, Copy)]
pub struct CompressorConfig<N> {
    pub enabled: bool,
    pub threshold_db: N,
    pub ratio: N,
    pub attack_ms: N,
    pub release_ms: N,
    pub makeup_gain_db: N,
}

/// A channel strip's settings.
#[derive(Debug, Clone, Copy)]
pub struct ChannelProcessorConfig<N> {
    pub input_gain_db: N,
    pub output_gain_db: N,
    pub gate: NoiseGateConfig<N>,
    pub compressor: CompressorConfig<N>,
    pub parametric_eq: ParametricEqConfig<N>,
}

/// Arithmetic on samples, levels and filters. `K` holds a filter's coefficients and `Q` what a
/// filter remembers.
pub trait ChannelMath<N, K, Q>: Send {
    /// The number of so many thousandths.
    fn number(&self, thousandths: i32) -> N;

    /// Whether two settings are the same number.
    fn same(&self, a: N, b: N) -> bool;

    /// The factor that a level in decibels stands for.
    fn gain(&self, db: N) -> N;

    fn plus(&self, a: N, b: N) -> N;

    fn times(&self, a: N, b: N) -> N;

    /// The amount of a sample, whatever its sign.
    fn magnitude(&self, a: N) -> N;

    fn larger(&self, a: N, b: N) -> N;

    /// The level of an amplitude in decibels.
    fn level(&self, amplitude: N) -> N;

    /// Whether `a` is at most `b`.
    fn at_most(&self, a: N, b: N) -> bool;

    /// Whether `a` is below `b`.
    fn below(&self, a: N, b: N) -> bool;

    /// The ratio to compress by: at least one.
    fn usable_ratio(&self, ratio: N) -> N;

    /// The reduction that brings a level above the threshold down by the ratio.
    fn reduction_for(&self, level: N, threshold: N, ratio: N) -> N;

    /// How much of a difference is left after one sample, for a time constant in milliseconds.
    fn coefficient(&self, ms: N, sample_rate_hz: u32) -> N;

    /// `current`, moved towards `target` so that `coefficient` of the difference is left.
    fn approach(&self, target: N, current: N, coefficient: N) -> N;

    /// A sample brought into the range of samples.
    fn clip(&self, sample: N) -> N;

    /// The filter that changes nothing.
    fn identity(&self) -> K;

    /// The filter of a band.
    fn design(&self, sample_rate_hz: u32, band: ParametricEqBandConfig<N>) -> K;

    /// What a filter remembers before its first sample.
    fn rest(&self) -> Q;

    /// The filtered sample, and what the filter remembers then.
    fn filter(&self, coefficients: K, sample: N, memory: Q) -> (N, Q);
}

/// `c` is the band number `i` of the strip that nobody has changed: disabled, at its frequency.
pub open spec fn is_standard_band<N, K, Q, M: ChannelMath<N, K, Q>>(
    m: M,
    c: ParametricEqBandConfig<N>,
    i: int,
) -> bool {
    let frequency: i32 = if i == 0 {
        80_000
    } else if i == 1 {
        250_000
    } else if i == 2 {
        1_000_000
    } else if i == 3 {
        4_000_000
    } else {
        10_000_000
    };
    let q: i32 = if i == 0 {
        900
    } else {
        1_000
    };
    &&& c.filter_type == ParametricEqFilterType::Disabled
    &&& call_ensures(M::number, (&m, frequency), c.frequency_hz)
    &&& call_ensures(M::number, (&m, 0i32), c.gain_db)
    &&& call_ensures(M::number, (&m, q), c.q)
}

/// `c` holds the settings of the strip that nobody has changed: unity gain, everything off.
pub open spec fn is_standard<N, K, Q, M: ChannelMath<N, K, Q>>(
    m: M,
    c: ChannelProcessorConfig<N>,
) -> bool {
    &&& call_ensures(M::number, (&m, 0i32), c.input_gain_db)
    &&& call_ensures(M::number, (&m, 0i32), c.output_gain_db)
    &&& !c.gate.enabled
    &&& call_ensures(M::number, (&m, -45_000i32), c.gate.open_threshold_db)
    &&& call_ensures(M::number, (&m, -55_000i32), c.gate.close_threshold_db)
    &&& !c.compressor.enabled
    &&& call_ensures(M::number, (&m, -18_000i32), c.compressor.threshold_db)
    &&& call_ensures(M::number, (&m, 3_000i32), c.compressor.ratio)
    &&& call_ensures(M::number, (&m, 10_000i32), c.compressor.attack_ms)
    &&& call_ensures(M::number, (&m, 100_000i32), c.compressor.release_ms)
    &&& call_ensures(M::number, (&m, 0i32), c.compressor.makeup_gain_db)
    &&& !c.parametric_eq.enabled
    &&& forall|i: int|
        0 <= i < 5 ==> is_standard_band::<N, K, Q, M>(m, #[trigger] c.parametric_eq.bands@[i], i)
}

fn disabled_band<N, K, Q, M: ChannelMath<N, K, Q>>(m: &M, frequency: i32, q: i32) -> (b:
    ParametricEqBandConfig<N>)
    ensures
        b.filter_type == ParametricEqFilterType::Disabled,
        call_ensures(M::number, (m, frequency), b.frequency_hz),
        call_ensures(M::number, (m, 0i32), b.gain_db),
        call_ensures(M::number, (m, q), b.q),
{
    ParametricEqBandConfig::new(
        ParametricEqFilterType::Disabled,
        m.number(frequency),
        m.number(0),
        m.number(q),
    )
}

/// The settings of the strip that nobody has changed.
pub fn standard_config<N, K, Q, M: ChannelMath<N, K, Q>>(m: &M) -> (c: ChannelProcessorConfig<N>)
    ensures
        is_standard::<N, K, Q, M>(*m, c),
{
    let bands = [
        disabled_band(m, 80_000, 900),
        disabled_band(m, 250_000, 1_000),
        disabled_band(m, 1_000_000, 1_000),
        disabled_band(m, 4_000_000, 1_000),
        disabled_band(m, 10_000_000, 1_000),
    ];
    ChannelProcessorConfig {
        input_gain_db: m.number(0),
        output_gain_db: m.number(0),
        gate: NoiseGateConfig {
            enabled: false,
            open_threshold_db: m.number(-45_000),
            close_threshold_db: m.number(-55_000),
        },
        compressor: CompressorConfig {
            enabled: false,
            threshold_db: m.number(-18_000),
            ratio: m.number(3_000),
            attack_ms: m.number(10_000),
            release_ms: m.number(100_000),
            makeup_gain_db: m.number(0),
        },
        parametric_eq: ParametricEqConfig { enabled: false, bands },
    }
}

/// What holds for all frames of a block.
#[derive(Debug, Clone, Copy)]
pub struct StripSetup<N> {
    pub input_gain: N,
    pub output_gain: N,
    pub gate: NoiseGateConfig<N>,
    pub ratio: N,
    pub attack: N,
    pub release: N,
}

/// `g` is the noise gate `gate`, closing no higher than it opens.
pub open spec fn is_normalized<N, K, Q, M: ChannelMath<N, K, Q>>(
    m: M,
    gate: NoiseGateConfig<N>,
    g: NoiseGateConfig<N>,
) -> bool {
    exists|crossed: bool|
        {
            &&& #[trigger] call_ensures(
                M::below,
                (&m, gate.open_threshold_db, gate.close_threshold_db),
                crossed,
            )
            &&& g == if crossed {
                NoiseGateConfig { close_threshold_db: gate.open_threshold_db, ..gate }
            } else {
                gate
            }
        }
}

/// `db` is the output gain in decibels: with the make-up gain where the compressor is on.
pub open spec fn is_output_level<N, K, Q, M: ChannelMath<N, K, Q>>(
    m: M,
    config: ChannelProcessorConfig<N>,
    db: N,
) -> bool {
    if config.compressor.enabled {
        call_ensures(M::plus, (&m, config.output_gain_db, config.compressor.makeup_gain_db), db)
    } else {
        exists|zero: N| #[trigger]
            call_ensures(M::number, (&m, 0i32), zero) && call_ensures(
                M::plus,
                (&m, config.output_gain_db, zero),
                db,
            )
    }
}

/// `s` is what the settings mean at the given rate.
pub open spec fn is_setup<N, K, Q, M: ChannelMath<N, K, Q>>(
    m: M,
    config: ChannelProcessorConfig<N>,
    rate: u32,
    s: StripSetup<N>,
) -> bool {
    &&& call_ensures(M::gain, (&m, config.input_gain_db), s.input_gain)
    &&& exists|db: N| #[trigger]
        is_output_level::<N, K, Q, M>(m, config, db) && call_ensures(
            M::gain,
            (&m, db),
            s.output_gain,
        )
    &&& is_normalized::<N, K, Q, M>(m, config.gate, s.gate)
    &&& call_ensures(M::usable_ratio, (&m, config.compressor.ratio), s.ratio)
    &&& call_ensures(M::coefficient, (&m, config.compressor.attack_ms, rate), s.attack)
    &&& call_ensures(M::coefficient, (&m, config.compressor.release_ms, rate), s.release)
}

/// Whether the noise gate is open after a frame: an open gate closes at the closing level, a closed
/// one opens at the opening level, and a gate that is off is open.
pub open spec fn gate_after(enabled: bool, open: bool, quiet: bool, loud: bool) -> bool {
    if !enabled {
        true
    } else if open {
        !quiet
    } else {
        loud
    }
}

/// Between its two levels the noise gate stays as it is, and it moves only at the level it waits for.
pub proof fn gate_keeps_its_state_between_levels(open: bool, quiet: bool, loud: bool)
    ensures
        !quiet && !loud ==> gate_after(true, open, quiet, loud) == open,
        gate_after(true, open, quiet, loud) != open ==> (if open {
            quiet
        } else {
            loud
        }),
        gate_after(false, open, quiet, loud),
{
}

/// A filter's place among the memories: band by band, channel by channel.
pub open spec fn memory_index(band: int, channel: int, channels: int) -> int {
    band * channels + channel
}

/// What a strip carries from frame to frame.
#[verifier::reject_recursive_types(N)]
#[verifier::reject_recursive_types(Q)]
pub struct StripState<N, Q> {
    pub open: bool,
    pub reduction: N,
    pub memories: Seq<Q>,
}

/// How the samples of one frame pass through the strip.
#[verifier::reject_recursive_types(N)]
pub struct FrameTrace<N> {
    /// The samples at the input gain.
    pub scaled: Seq<N>,
    /// For each channel, the sample before and after each band.
    pub stages: Seq<Seq<N>>,
    pub magnitudes: Seq<N>,
    /// The peak so far, channel by channel.
    pub peaks: Seq<N>,
    pub level: N,
    pub quiet: bool,
    pub loud: bool,
    pub over: bool,
    pub wanted: N,
    pub falling: bool,
    pub dynamic_gain: N,
    pub total_gain: N,
    pub raised: Seq<N>,
}

/// One channel's sample passes through the bands: `stages` starts with `sample`, and each band
/// takes it further with its own memory of this channel.
pub open spec fn passes_bands<N, K, Q, M: ChannelMath<N, K, Q>>(
    m: M,
    enabled: bool,
    filters: Seq<K>,
    channels: int,
    channel: int,
    before: Seq<Q>,
    after: Seq<Q>,
    sample: N,
    stages: Seq<N>,
) -> bool {
    &&& stages.len() == if enabled {
        6int
    } else {
        1
    }
    &&& stages[0] == sample
    &&& enabled ==> forall|b: int|
        0 <= b < 5 ==> call_ensures(
            M::filter,
            (
                &m,
                #[trigger] filters[b],
                stages[b],
                before[memory_index(b, channel, channels)],
            ),
            (stages[b + 1], after[memory_index(b, channel, channels)]),
        )
}

/// `after` differs from `before` at most in the memories of the first `count` channels, and
/// not at all where the equalizer is off.
pub open spec fn keeps_other_memories<Q>(
    enabled: bool,
    channels: int,
    count: int,
    before: Seq<Q>,
    after: Seq<Q>,
) -> bool {
    &&& after.len() == before.len()
    &&& !enabled ==> after == before
    &&& forall|b: int, c: int|
        0 <= b < 5 && count <= c < channels ==> #[trigger] after[memory_index(b, c, channels)]
            == before[memory_index(b, c, channels)]
}

/// The samples of a frame, scaled, filtered and measured.
pub open spec fn shows_input<N, K, Q, M: ChannelMath<N, K, Q>>(
    m: M,
    enabled: bool,
    filters: Seq<K>,
    channels: int,
    input_gain: N,
    frame: Seq<N>,
    before: Seq<Q>,
    after: Seq<Q>,
    t: FrameTrace<N>,
) -> bool {
    let n = frame.len();
    &&& t.scaled.len() == n
    &&& t.stages.len() == n
    &&& t.magnitudes.len() == n
    &&& t.peaks.len() == n + 1
    &&& call_ensures(M::number, (&m, 0i32), t.peaks[0])
    &&& forall|c: int|
        0 <= c < n ==> call_ensures(M::times, (&m, frame[c], input_gain), #[trigger] t.scaled[c])
    &&& forall|c: int|
        0 <= c < n ==> passes_bands::<N, K, Q, M>(
            m,
            enabled,
            filters,
            channels,
            c,
            before,
            after,
            t.scaled[c],
            #[trigger] t.stages[c],
        )
    &&& forall|c: int|
        0 <= c < n ==> call_ensures(
            M::magnitude,
            (&m, t.stages[c].last()),
            #[trigger] t.magnitudes[c],
        )
    &&& forall|c: int|
        0 <= c < n ==> call_ensures(
            M::larger,
            (&m, #[trigger] t.peaks[c], t.magnitudes[c]),
            t.peaks[c + 1],
        )
    &&& keeps_other_memories(enabled, channels, n as int, before, after)
}

/// The noise gate and the compressor act on the frame's level.
pub open spec fn shows_dynamics<N, K, Q, M: ChannelMath<N, K, Q>>(
    m: M,
    config: ChannelProcessorConfig<N>,
    s: StripSetup<N>,
    peak: N,
    before: StripState<N, Q>,
    after: StripState<N, Q>,
    t: FrameTrace<N>,
) -> bool {
    let compressor = config.compressor;
    &&& call_ensures(M::level, (&m, peak), t.level)
    &&& s.gate.enabled && before.open ==> call_ensures(
        M::at_most,
        (&m, t.level, s.gate.close_threshold_db),
        t.quiet,
    )
    &&& s.gate.enabled && !before.open ==> call_ensures(
        M::at_most,
        (&m, s.gate.open_threshold_db, t.level),
        t.loud,
    )
    &&& after.open == gate_after(s.gate.enabled, before.open, t.quiet, t.loud)
    &&& if compressor.enabled {
        call_ensures(M::below, (&m, compressor.threshold_db, t.level), t.over)
    } else {
        !t.over
    }
    &&& if t.over {
        call_ensures(M::reduction_for, (&m, t.level, compressor.threshold_db, s.ratio), t.wanted)
    } else {
        call_ensures(M::number, (&m, 0i32), t.wanted)
    }
    &&& call_ensures(M::below, (&m, t.wanted, before.reduction), t.falling)
    &&& call_ensures(
        M::approach,
        (
            &m,
            t.wanted,
            before.reduction,
            if t.falling {
                s.attack
            } else {
                s.release
            },
        ),
        after.reduction,
    )
    &&& if after.open {
        call_ensures(M::gain, (&m, after.reduction), t.dynamic_gain)
    } else {
        call_ensures(M::number, (&m, 0i32), t.dynamic_gain)
    }
    &&& call_ensures(M::times, (&m, t.dynamic_gain, s.output_gain), t.total_gain)
}

/// The filtered samples leave at the total gain, clipped.
pub open spec fn shows_output<N, K, Q, M: ChannelMath<N, K, Q>>(
    m: M,
    out: Seq<N>,
    t: FrameTrace<N>,
) -> bool {
    &&& out.len() == t.stages.len()
    &&& t.raised.len() == t.stages.len()
    &&& forall|c: int|
        0 <= c < t.stages.len() ==> call_ensures(
            M::times,
            (&m, t.stages[c].last(), t.total_gain),
            #[trigger] t.raised[c],
        )
    &&& forall|c: int|
        0 <= c < t.stages.len() ==> call_ensures(M::clip, (&m, t.raised[c]), #[trigger] out[c])
}

/// `t` shows how the frame `frame` becomes `out` and the strip's state moves on.
pub open spec fn shows_frame<N, K, Q, M: ChannelMath<N, K, Q>>(
    m: M,
    config: ChannelProcessorConfig<N>,
    filters: Seq<K>,
    channels: int,
    s: StripSetup<N>,
    frame: Seq<N>,
    before: StripState<N, Q>,
    after: StripState<N, Q>,
    out: Seq<N>,
    t: FrameTrace<N>,
) -> bool {
    &&& shows_input::<N, K, Q, M>(
        m,
        config.parametric_eq.enabled,
        filters,
        channels,
        s.input_gain,
        frame,
        before.memories,
        after.memories,
        t,
    )
    &&& shows_dynamics::<N, K, Q, M>(
        m,
        config,
        s,
        t.peaks[frame.len() as int],
        before,
        after,
        t,
    )
    &&& shows_output::<N, K, Q, M>(m, out, t)
}

/// The frame `frame` becomes `out` and the strip's state moves on from `before` to `after`.
pub open spec fn is_frame_step<N, K, Q, M: ChannelMath<N, K, Q>>(
    m: M,
    config: ChannelProcessorConfig<N>,
    filters: Seq<K>,
    channels: int,
    s: StripSetup<N>,
    frame: Seq<N>,
    before: StripState<N, Q>,
    after: StripState<N, Q>,
    out: Seq<N>,
) -> bool {
    exists|t: FrameTrace<N>| #[trigger]
        shows_frame::<N, K, Q, M>(m, config, filters, channels, s, frame, before, after, out, t)
}

/// A channel strip.
#[verifier::reject_recursive_types(N)]
pub struct ChannelProcessor<N, K, Q, M> {
    pub math: M,
    pub config: ChannelProcessorConfig<N>,
    pub gate_open: bool,
    pub compressor_reduction_db: N,
    /// The rate that the filters were designed for; zero where they are out of date.
    pub eq_sample_rate_hz: u32,
    pub eq_channels: usize,
    pub eq_coefficients: Vec<K>,
    pub eq_states: Vec<Q>,
}

/// `filters` are the filters of the bands at the given rate: nothing is changed where the
/// equalizer or the band is off.
pub open spec fn are_filters<N, K, Q, M: ChannelMath<N, K, Q>>(
    m: M,
    eq: ParametricEqConfig<N>,
    rate: u32,
    filters: Seq<K>,
) -> bool {
    &&& filters.len() == 5
    &&& forall|b: int|
        0 <= b < 5 ==> if eq.enabled && eq.bands@[b].filter_type
            != ParametricEqFilterType::Disabled {
            call_ensures(M::design, (&m, rate, eq.bands@[b]), #[trigger] filters[b])
        } else {
            call_ensures(M::identity, (&m,), filters[b])
        }
}

/// `after` is `before` cut or extended to `len` memories, new ones at rest.
pub open spec fn is_resized<N, K, Q, M: ChannelMath<N, K, Q>>(
    m: M,
    before: Seq<Q>,
    after: Seq<Q>,
    len: nat,
) -> bool {
    &&& after.len() == len
    &&& forall|i: int|
        0 <= i < len && i < before.len() ==> #[trigger] after[i] == before[i]
    &&& forall|i: int|
        before.len() <= i < len ==> call_ensures(M::rest, (&m,), #[trigger] after[i])
}

impl<N: Copy, K: Copy, Q: Copy, M: ChannelMath<N, K, Q>> ChannelProcessor<N, K, Q, M> {
    /// There is a filter for each band and a memory for each band and channel.
    pub open spec fn sized(self) -> bool {
        self.eq_coefficients@.len() == 5 && self.eq_states@.len() == 5 * self.eq_channels
    }

    /// What the strip carries from frame to frame.
    pub open spec fn state(self) -> StripState<N, Q> {
        StripState {
            open: self.gate_open,
            reduction: self.compressor_reduction_db,
            memories: self.eq_states@,
        }
    }

    /// A strip with the given settings: the noise gate open, nothing reduced.
    pub fn new(math: M, config: ChannelProcessorConfig<N>) -> (p: Self)
        ensures
            p.sized(),
            p.math == math,
            p.config == config,
            p.gate_open,
            call_ensures(M::number, (&math, 0i32), p.compressor_reduction_db),
            p.eq_sample_rate_hz == 0,
            p.eq_channels == 0,
            forall|b: int|
                0 <= b < 5 ==> call_ensures(M::identity, (&math,), #[trigger] p.eq_coefficients@[b]),
    {
        let mut eq_coefficients: Vec<K> = Vec::new();
        let mut b: usize = 0;
        while b < 5
            invariant
                b <= 5,
                eq_coefficients@.len() == b,
                forall|k: int|
                    0 <= k < b ==> call_ensures(
                        M::identity,
                        (&math,),
                        #[trigger] eq_coefficients@[k],
                    ),
            decreases 5 - b,
        {
            eq_coefficients.push(math.identity());
            b = b + 1;
        }
        let nothing = math.number(0);
        ChannelProcessor {
            math,
            config,
            gate_open: true,
            compressor_reduction_db: nothing,
            eq_sample_rate_hz: 0,
            eq_channels: 0,
            eq_coefficients,
            eq_states: Vec::new(),
        }
    }

    /// The settings.
    pub fn config(&self) -> (c: ChannelProcessorConfig<N>)
        ensures
            c == self.config,
    {
        self.config
    }

    /// Whether the noise gate is open.
    pub fn gate_open(&self) -> (r: bool)
        ensures
            r == self.gate_open,
    {
        self.gate_open
    }

    /// What the compressor takes away at the moment, in decibels.
    pub fn compressor_reduction_db(&self) -> (r: N)
        ensures
            r == self.compressor_reduction_db,
    {
        self.compressor_reduction_db
    }

    /// The noise gate that frames are held to: it closes no higher than it opens.
    pub fn normalized_gate(&self) -> (g: NoiseGateConfig<N>)
        ensures
            is_normalized::<N, K, Q, M>(self.math, self.config.gate, g),
    {
        let mut gate = self.config.gate;
        let crossed: bool = self.math.below(gate.open_threshold_db, gate.close_threshold_db);
        if crossed {
            gate.close_threshold_db = gate.open_threshold_db;
        }
        gate
    }

    /// The compressor's two coefficients at the given rate: for attack and for release.
    pub fn compressor_coefficients(&self, sample_rate_hz: u32) -> (r: (N, N))
        ensures
            call_ensures(
                M::coefficient,
                (&self.math, self.config.compressor.attack_ms, sample_rate_hz),
                r.0,
            ),
            call_ensures(
                M::coefficient,
                (&self.math, self.config.compressor.release_ms, sample_rate_hz),
                r.1,
            ),
    {
        let attack = self.math.coefficient(self.config.compressor.attack_ms, sample_rate_hz);
        let release = self.math.coefficient(self.config.compressor.release_ms, sample_rate_hz);
        (attack, release)
    }

    /// What the settings mean at the given rate.
    fn setup(&self, sample_rate_hz: u32) -> (s: StripSetup<N>)
        ensures
            is_setup::<N, K, Q, M>(self.math, self.config, sample_rate_hz, s),
    {
        let input_gain = self.math.gain(self.config.input_gain_db);
        let makeup = if self.config.compressor.enabled {
            self.config.compressor.makeup_gain_db
        } else {
            self.math.number(0)
        };
        let db = self.math.plus(self.config.output_gain_db, makeup);
        assert(is_output_level::<N, K, Q, M>(self.math, self.config, db));
        let output_gain = self.math.gain(db);
        let gate = self.normalized_gate();
        let ratio = self.math.usable_ratio(self.config.compressor.ratio);
        let (attack, release) = self.compressor_coefficients(sample_rate_hz);
        StripSetup { input_gain, output_gain, gate, ratio, attack, release }
    }

    /// Brings the equalizer up to date with the rate and channel count: nothing is done where it
    /// is, and otherwise the filters are designed anew and there is a memory for each band and
    /// channel.
    pub fn prepare_eq(&mut self, sample_rate_hz: u32, channels: usize)
        requires
            5 * channels <= usize::MAX,
        ensures
            is_prepared(*old(self), *final(self), sample_rate_hz, channels),
    {
        if self.eq_sample_rate_hz == sample_rate_hz && self.eq_channels == channels
            && self.eq_coefficients.len() == 5 && self.eq_states.len() == 5 * channels {
            return ;
        }
        self.eq_sample_rate_hz = sample_rate_hz;
        self.eq_channels = channels;
        let eq = self.config.parametric_eq;
        let mut filters: Vec<K> = Vec::new();
        let mut b: usize = 0;
        while b < 5
            invariant
                b <= 5,
                filters@.len() == b,
                forall|k: int|
                    0 <= k < b ==> if eq.enabled && eq.bands@[k].filter_type
                        != ParametricEqFilterType::Disabled {
                        call_ensures(
                            M::design,
                            (&self.math, sample_rate_hz, eq.bands@[k]),
                            #[trigger] filters@[k],
                        )
                    } else {
                        call_ensures(M::identity, (&self.math,), filters@[k])
                    },
            decreases 5 - b,
        {
            let band = eq.bands[b];
            if eq.enabled && band.filter_type != ParametricEqFilterType::Disabled {
                filters.push(self.math.design(sample_rate_hz, band));
            } else {
                filters.push(self.math.identity());
            }
            b = b + 1;
        }
        self.eq_coefficients = filters;
        let wanted: usize = 5 * channels;
        let ghost before = self.eq_states@;
        let mut memories: Vec<Q> = Vec::new();
        let mut i: usize = 0;
        while i < wanted
            invariant
                i <= wanted,
                memories@.len() == i,
                before == self.eq_states@,
                forall|k: int|
                    0 <= k < i && k < before.len() ==> #[trigger] memories@[k] == before[k],
                forall|k: int|
                    before.len() <= k < i ==> call_ensures(
                        M::rest,
                        (&self.math,),
                        #[trigger] memories@[k],
                    ),
            decreases wanted - i,
        {
            if i < self.eq_states.len() {
                memories.push(self.eq_states[i]);
            } else {
                memories.push(self.math.rest());
            }
            i = i + 1;
        }
        self.eq_states = memories;
    }

    /// Passes one channel's sample through the bands.
    pub fn process_eq_sample(&mut self, channel: usize, sample: N) -> (r: N)
        requires
            old(self).sized(),
            channel < old(self).eq_channels,
        ensures
            final(self).math == old(self).math,
            final(self).config == old(self).config,
            final(self).gate_open == old(self).gate_open,
            final(self).compressor_reduction_db == old(self).compressor_reduction_db,
            final(self).eq_sample_rate_hz == old(self).eq_sample_rate_hz,
            final(self).eq_channels == old(self).eq_channels,
            final(self).eq_coefficients == old(self).eq_coefficients,
            final(self).sized(),
            !old(self).config.parametric_eq.enabled ==> final(self).eq_states == old(self).eq_states,
            exists|stages: Seq<N>| #[trigger]
                passes_bands::<N, K, Q, M>(
                    old(self).math,
                    old(self).config.parametric_eq.enabled,
                    old(self).eq_coefficients@,
                    old(self).eq_channels as int,
                    channel as int,
                    old(self).eq_states@,
                    final(self).eq_states@,
                    sample,
                    stages,
                ) && r == stages.last(),
            forall|b: int, c: int|
                0 <= b < 5 && 0 <= c < old(self).eq_channels && c != channel
                    ==> #[trigger] final(self).eq_states@[memory_index(
                    b,
                    c,
                    old(self).eq_channels as int,
                )] == old(self).eq_states@[memory_index(b, c, old(self).eq_channels as int)],
    {
        let ghost before = self.eq_states@;
        let ghost channels = self.eq_channels as int;
        let ghost mut stages: Seq<N> = seq![sample];
        if !self.config.parametric_eq.enabled {
            assert(passes_bands::<N, K, Q, M>(
                self.math,
                false,
                self.eq_coefficients@,
                channels,
                channel as int,
                before,
                before,
                sample,
                stages,
            ));
            return sample;
        }
        let mut current = sample;
        let mut band: usize = 0;
        while band < 5
            invariant
                band <= 5,
                channel < channels,
                channels == self.eq_channels,
                channels == old(self).eq_channels,
                self.sized(),
                self.math == old(self).math,
                self.config == old(self).config,
                self.gate_open == old(self).gate_open,
                self.compressor_reduction_db == old(self).compressor_reduction_db,
                self.eq_sample_rate_hz == old(self).eq_sample_rate_hz,
                self.eq_coefficients == old(self).eq_coefficients,
                before == old(self).eq_states@,
                before.len() == 5 * channels,
                stages.len() == band + 1,
                stages[0] == sample,
                current == stages[band as int],
                forall|b: int|
                    0 <= b < band ==> call_ensures(
                        M::filter,
                        (
                            &self.math,
                            #[trigger] self.eq_coefficients@[b],
                            stages[b],
                            before[memory_index(b, channel as int, channels)],
                        ),
                        (
                            stages[b + 1],
                            self.eq_states@[memory_index(b, channel as int, channels)],
                        ),
                    ),
                forall|b: int, c: int|
                    0 <= b < 5 && 0 <= c < channels && (c != channel || b >= band)
                        ==> #[trigger] self.eq_states@[memory_index(b, c, channels)]
                        == before[memory_index(b, c, channels)],
            decreases 5 - band,
        {
            proof {
                lemma_memory_index(band as int, channel as int, channels);
            }
            let total: usize = self.eq_states.len();
            assert(band * self.eq_channels + channel < total);
            let at: usize = band * self.eq_channels + channel;
            assert(at == memory_index(band as int, channel as int, channels));
            let ghost held = self.eq_states@;
            let (next, memory) = self.math.filter(
                self.eq_coefficients[band],
                current,
                self.eq_states[at],
            );
            self.eq_states.set(at, memory);
            proof {
                let longer = stages.push(next);
                assert forall|b: int| 0 <= b < band + 1 implies call_ensures(
                    M::filter,
                    (
                        &self.math,
                        #[trigger] self.eq_coefficients@[b],
                        longer[b],
                        before[memory_index(b, channel as int, channels)],
                    ),
                    (longer[b + 1], self.eq_states@[memory_index(b, channel as int, channels)]),
                ) by {
                    lemma_memory_index(b, channel as int, channels);
                    let place = memory_index(b, channel as int, channels);
                    assert(longer[b] == stages[b]);
                    if b < band {
                        lemma_memory_apart(b, channel as int, band as int, channel as int, channels);
                        assert(longer[b + 1] == stages[b + 1]);
                        assert(self.eq_states@[place] == held[place]);
                    } else {
                        assert(held[place] == before[place]);
                        assert(self.eq_states@[place] == memory);
                    }
                }
                assert forall|b: int, c: int|
                    0 <= b < 5 && 0 <= c < channels && (c != channel || b >= band + 1) implies #[trigger] self.eq_states@[memory_index(
                    b, c, channels)] == before[memory_index(b, c, channels)] by {
                    lemma_memory_apart(b, c, band as int, channel as int, channels);
                    lemma_memory_index(b, c, channels);
                    assert(held[memory_index(b, c, channels)] == before[memory_index(
                        b,
                        c,
                        channels,
                    )]);
                }
                stages = longer;
            }
            current = next;
            band = band + 1;
        }
        assert(passes_bands::<N, K, Q, M>(
            self.math,
            true,
            self.eq_coefficients@,
            channels,
            channel as int,
            before,
            self.eq_states@,
            sample,
            stages,
        ));
        current
    }

    /// Passes one frame through the strip: the samples of `data` from `from` to `to`.
    fn process_frame(&mut self, data: &[N], from: usize, to: usize, s: &StripSetup<N>) -> (out: Vec<
        N,
    >)
        requires
            old(self).sized(),
            from <= to <= data@.len(),
            to - from <= old(self).eq_channels,
        ensures
            final(self).math == old(self).math,
            final(self).config == old(self).config,
            final(self).eq_sample_rate_hz == old(self).eq_sample_rate_hz,
            final(self).eq_channels == old(self).eq_channels,
            final(self).eq_coefficients == old(self).eq_coefficients,
            final(self).sized(),
            is_frame_step::<N, K, Q, M>(
                old(self).math,
                old(self).config,
                old(self).eq_coefficients@,
                old(self).eq_channels as int,
                *s,
                data@.subrange(from as int, to as int),
                old(self).state(),
                final(self).state(),
                out@,
            ),
    {
        let ghost frame = data@.subrange(from as int, to as int);
        let ghost m = self.math;
        let ghost config = self.config;
        let ghost filters = self.eq_coefficients@;
        let ghost channels = self.eq_channels as int;
        let ghost before = self.state();
        let ghost enabled = config.parametric_eq.enabled;
        let nothing = self.math.number(0);
        let ghost mut t = FrameTrace {
            scaled: Seq::empty(),
            stages: Seq::empty(),
            magnitudes: Seq::empty(),
            peaks: seq![nothing],
            level: nothing,
            quiet: false,
            loud: false,
            over: false,
            wanted: nothing,
            falling: false,
            dynamic_gain: nothing,
            total_gain: nothing,
            raised: Seq::empty(),
        };
        let mut filtered: Vec<N> = Vec::new();
        let mut peak = nothing;
        let count: usize = to - from;
        let mut channel: usize = 0;
        proof {
            assert(frame.take(0).len() == 0);
        }
        while channel < count
            invariant
                channel <= count,
                from <= to <= data@.len(),
                count == to - from,
                count <= channels,
                frame == data@.subrange(from as int, to as int),
                self.sized(),
                m == self.math,
                m == old(self).math,
                config == self.config,
                config == old(self).config,
                enabled == config.parametric_eq.enabled,
                filters == self.eq_coefficients@,
                self.eq_coefficients == old(self).eq_coefficients,
                self.eq_sample_rate_hz == old(self).eq_sample_rate_hz,
                channels == self.eq_channels,
                channels == old(self).eq_channels,
                before == old(self).state(),
                self.gate_open == before.open,
                self.compressor_reduction_db == before.reduction,
                peak == t.peaks[channel as int],
                filtered@.len() == channel,
                forall|c: int|
                    0 <= c < channel ==> #[trigger] filtered@[c] == t.stages[c].last(),
                shows_input::<N, K, Q, M>(
                    m,
                    enabled,
                    filters,
                    channels,
                    s.input_gain,
                    frame.take(channel as int),
                    before.memories,
                    self.eq_states@,
                    t,
                ),
            decreases count - channel,
        {
            let ghost held = self.eq_states@;
            let sample = data[from + channel];
            assert(sample == frame[channel as int]);
            let scaled = self.math.times(sample, s.input_gain);
            let value = self.process_eq_sample(channel, scaled);
            let ghost stages = choose|stages: Seq<N>| #[trigger]
                passes_bands::<N, K, Q, M>(
                    m,
                    enabled,
                    filters,
                    channels,
                    channel as int,
                    held,
                    self.eq_states@,
                    scaled,
                    stages,
                ) && value == stages.last();
            let magnitude = self.math.magnitude(value);
            let higher = self.math.larger(peak, magnitude);
            filtered.push(value);
            proof {
                let after = self.eq_states@;
                let longer = FrameTrace {
                    scaled: t.scaled.push(scaled),
                    stages: t.stages.push(stages),
                    magnitudes: t.magnitudes.push(magnitude),
                    peaks: t.peaks.push(higher),
                    ..t
                };
                lemma_input_extends::<N, K, Q, M>(
                    m,
                    enabled,
                    filters,
                    channels,
                    s.input_gain,
                    frame,
                    channel as int,
                    before.memories,
                    held,
                    after,
                    t,
                    longer,
                );
                assert forall|c: int| 0 <= c < channel + 1 implies #[trigger] filtered@[c]
                    == longer.stages[c].last() by {
                    if c < channel {
                        assert(longer.stages[c] == t.stages[c]);
                    }
                }
                t = longer;
            }
            peak = higher;
            channel = channel + 1;
        }
        assert(frame.take(count as int) =~= frame);
        let level = self.math.level(peak);
        proof {
            t = FrameTrace { level, ..t };
        }
        if s.gate.enabled {
            if self.gate_open {
                let quiet: bool = self.math.at_most(level, s.gate.close_threshold_db);
                proof {
                    t = FrameTrace { quiet, ..t };
                }
                if quiet {
                    self.gate_open = false;
                }
            } else {
                let loud: bool = self.math.at_most(s.gate.open_threshold_db, level);
                proof {
                    t = FrameTrace { loud, ..t };
                }
                if loud {
                    self.gate_open = true;
                }
            }
        } else {
            self.gate_open = true;
        }
        let compressor = self.config.compressor;
        let over: bool = compressor.enabled && self.math.below(compressor.threshold_db, level);
        let wanted = if over {
            self.math.reduction_for(level, compressor.threshold_db, s.ratio)
        } else {
            self.math.number(0)
        };
        let falling: bool = self.math.below(wanted, self.compressor_reduction_db);
        let coefficient = if falling {
            s.attack
        } else {
            s.release
        };
        self.compressor_reduction_db = self.math.approach(
            wanted,
            self.compressor_reduction_db,
            coefficient,
        );
        let dynamic_gain = if self.gate_open {
            self.math.gain(self.compressor_reduction_db)
        } else {
            self.math.number(0)
        };
        let total_gain = self.math.times(dynamic_gain, s.output_gain);
        proof {
            t = FrameTrace {
                over,
                wanted,
                falling,
                dynamic_gain,
                total_gain,
                raised: Seq::empty(),
                ..t
            };
        }
        let ghost after = self.state();
        let mut out: Vec<N> = Vec::new();
        let mut c: usize = 0;
        while c < filtered.len()
            invariant
                c <= filtered@.len(),
                filtered@.len() == t.stages.len(),
                m == self.math,
                total_gain == t.total_gain,
                out@.len() == c,
                t.raised.len() == c,
                forall|k: int|
                    0 <= k < t.stages.len() ==> #[trigger] filtered@[k] == t.stages[k].last(),
                forall|k: int|
                    0 <= k < c ==> call_ensures(
                        M::times,
                        (&m, t.stages[k].last(), t.total_gain),
                        #[trigger] t.raised[k],
                    ),
                forall|k: int|
                    0 <= k < c ==> call_ensures(M::clip, (&m, t.raised[k]), #[trigger] out@[k]),
                shows_input::<N, K, Q, M>(
                    m,
                    enabled,
                    filters,
                    channels,
                    s.input_gain,
                    frame,
                    before.memories,
                    after.memories,
                    t,
                ),
                shows_dynamics::<N, K, Q, M>(
                    m,
                    config,
                    *s,
                    t.peaks[frame.len() as int],
                    before,
                    after,
                    t,
                ),
            decreases filtered@.len() - c,
        {
            let raised = self.math.times(filtered[c], total_gain);
            let clipped = self.math.clip(raised);
            out.push(clipped);
            proof {
                t = FrameTrace { raised: t.raised.push(raised), ..t };
            }
            c = c + 1;
        }
        assert(shows_frame::<N, K, Q, M>(
            m,
            config,
            filters,
            channels,
            *s,
            frame,
            before,
            after,
            out@,
            t,
        ));
        out
    }
}

proof fn lemma_input_extends<N, K, Q, M: ChannelMath<N, K, Q>>(
    m: M,
    enabled: bool,
    filters: Seq<K>,
    channels: int,
    input_gain: N,
    frame: Seq<N>,
    channel: int,
    before: Seq<Q>,
    held: Seq<Q>,
    after: Seq<Q>,
    t: FrameTrace<N>,
    longer: FrameTrace<N>,
)
    requires
        0 <= channel < frame.len(),
        frame.len() <= channels,
        held.len() == 5 * channels,
        after.len() == 5 * channels,
        !enabled ==> after == held,
        shows_input::<N, K, Q, M>(
            m,
            enabled,
            filters,
            channels,
            input_gain,
            frame.take(channel),
            before,
            held,
            t,
        ),
        longer.scaled == t.scaled.push(longer.scaled[channel]),
        longer.stages == t.stages.push(longer.stages[channel]),
        longer.magnitudes == t.magnitudes.push(longer.magnitudes[channel]),
        longer.peaks == t.peaks.push(longer.peaks[channel + 1]),
        call_ensures(M::times, (&m, frame[channel], input_gain), longer.scaled[channel]),
        passes_bands::<N, K, Q, M>(
            m,
            enabled,
            filters,
            channels,
            channel,
            held,
            after,
            longer.scaled[channel],
            longer.stages[channel],
        ),
        call_ensures(
            M::magnitude,
            (&m, longer.stages[channel].last()),
            longer.magnitudes[channel],
        ),
        call_ensures(
            M::larger,
            (&m, t.peaks[channel], longer.magnitudes[channel]),
            longer.peaks[channel + 1],
        ),
        forall|b: int, c: int|
            0 <= b < 5 && 0 <= c < channels && c != channel ==> #[trigger] after[memory_index(
                b,
                c,
                channels,
            )] == held[memory_index(b, c, channels)],
    ensures
        shows_input::<N, K, Q, M>(
            m,
            enabled,
            filters,
            channels,
            input_gain,
            frame.take(channel + 1),
            before,
            after,
            longer,
        ),
{
    let shorter = frame.take(channel);
    let taken = frame.take(channel + 1);
    assert forall|c: int| 0 <= c < channel + 1 implies call_ensures(
        M::times,
        (&m, taken[c], input_gain),
        #[trigger] longer.scaled[c],
    ) by {
        if c < channel {
            assert(longer.scaled[c] == t.scaled[c]);
            assert(taken[c] == shorter[c]);
        }
    }
    assert forall|c: int| 0 <= c < channel + 1 implies passes_bands::<N, K, Q, M>(
        m,
        enabled,
        filters,
        channels,
        c,
        before,
        after,
        longer.scaled[c],
        #[trigger] longer.stages[c],
    ) by {
        if c < channel {
            let stages = t.stages[c];
            assert(longer.stages[c] == stages);
            assert(longer.scaled[c] == t.scaled[c]);
            assert(passes_bands::<N, K, Q, M>(
                m,
                enabled,
                filters,
                channels,
                c,
                before,
                held,
                t.scaled[c],
                stages,
            ));
            if enabled {
                assert forall|b: int| 0 <= b < 5 implies call_ensures(
                    M::filter,
                    (
                        &m,
                        #[trigger] filters[b],
                        stages[b],
                        before[memory_index(b, c, channels)],
                    ),
                    (stages[b + 1], after[memory_index(b, c, channels)]),
                ) by {
                    assert(after[memory_index(b, c, channels)] == held[memory_index(
                        b,
                        c,
                        channels,
                    )]);
                }
            }
        } else if enabled {
            let stages = longer.stages[c];
            assert forall|b: int| 0 <= b < 5 implies call_ensures(
                M::filter,
                (&m, #[trigger] filters[b], stages[b], before[memory_index(b, c, channels)]),
                (stages[b + 1], after[memory_index(b, c, channels)]),
            ) by {
                assert(held[memory_index(b, c, channels)] == before[memory_index(b, c, channels)]);
            }
        }
    }
    assert forall|c: int| 0 <= c < channel + 1 implies call_ensures(
        M::magnitude,
        (&m, longer.stages[c].last()),
        #[trigger] longer.magnitudes[c],
    ) by {
        if c < channel {
            assert(longer.magnitudes[c] == t.magnitudes[c]);
            assert(longer.stages[c] == t.stages[c]);
        }
    }
    assert forall|c: int| 0 <= c < channel + 1 implies call_ensures(
        M::larger,
        (&m, #[trigger] longer.peaks[c], longer.magnitudes[c]),
        longer.peaks[c + 1],
    ) by {
        assert(longer.peaks[c] == t.peaks[c]);
        if c < channel {
            assert(longer.magnitudes[c] == t.magnitudes[c]);
            assert(longer.peaks[c + 1] == t.peaks[c + 1]);
        }
    }
    assert forall|b: int, c: int| 0 <= b < 5 && channel + 1 <= c < channels implies #[trigger] after[memory_index(
        b, c, channels)] == before[memory_index(b, c, channels)] by {
        assert(after[memory_index(b, c, channels)] == held[memory_index(b, c, channels)]);
    }
}

proof fn lemma_memory_index(band: int, channel: int, channels: int)
    requires
        0 <= band < 5,
        0 <= channel < channels,
    ensures
        0 <= memory_index(band, channel, channels) < 5 * channels,
        0 <= band * channels <= 4 * channels,
{
    assert(0 <= band * channels <= 4 * channels) by (nonlinear_arith)
        requires
            0 <= band < 5,
            0 <= channel < channels,
    ;
}

proof fn lemma_memory_apart(b1: int, c1: int, b2: int, c2: int, channels: int)
    requires
        0 <= c1 < channels,
        0 <= c2 < channels,
        b1 != b2 || c1 != c2,
    ensures
        memory_index(b1, c1, channels) != memory_index(b2, c2, channels),
{
    if b1 < b2 {
        assert((b2 - b1) * channels >= channels) by (nonlinear_arith)
            requires
                b1 < b2,
                channels > 0,
        ;
        assert(b2 * channels - b1 * channels == (b2 - b1) * channels) by (nonlinear_arith);
    } else if b2 < b1 {
        assert((b1 - b2) * channels >= channels) by (nonlinear_arith)
            requires
                b2 < b1,
                channels > 0,
        ;
        assert(b1 * channels - b2 * channels == (b1 - b2) * channels) by (nonlinear_arith);
    }
}

/// `after` is the strip `before`, its equalizer brought up to date with the rate and channel
/// count: unchanged where it is, and otherwise with new filters, and the memories cut or
/// extended.
pub open spec fn is_prepared<N: Copy, K: Copy, Q: Copy, M: ChannelMath<N, K, Q>>(
    before: ChannelProcessor<N, K, Q, M>,
    after: ChannelProcessor<N, K, Q, M>,
    rate: u32,
    channels: usize,
) -> bool {
    &&& after.math == before.math
    &&& after.config == before.config
    &&& after.gate_open == before.gate_open
    &&& after.compressor_reduction_db == before.compressor_reduction_db
    &&& after.sized()
    &&& after.eq_sample_rate_hz == rate
    &&& after.eq_channels == channels
    &&& before.sized() ==> if before.eq_sample_rate_hz == rate && before.eq_channels == channels {
        after == before
    } else {
        &&& are_filters::<N, K, Q, M>(
            before.math,
            before.config.parametric_eq,
            rate,
            after.eq_coefficients@,
        )
        &&& is_resized::<N, K, Q, M>(
            before.math,
            before.eq_states@,
            after.eq_states@,
            (5 * channels) as nat,
        )
    }
}

/// Every kind of filter is used: when the equalizer is on and has to be brought up to date, each
/// band that passes lows or highs, raises or lowers a shelf or a bell, or cuts a notch gets the
/// coefficients that the arithmetic designed for that band at that rate. A band that is switched
/// off, and every band of an equalizer that is off, changes nothing.
pub proof fn every_filter_kind_is_designed<N: Copy, K: Copy, Q: Copy, M: ChannelMath<N, K, Q>>(
    before: ChannelProcessor<N, K, Q, M>,
    after: ChannelProcessor<N, K, Q, M>,
    rate: u32,
    channels: usize,
    b: int,
)
    requires
        is_prepared(before, after, rate, channels),
        before.eq_coefficients@.len() == 5,
        before.eq_states@.len() == 5 * before.eq_channels,
        before.eq_sample_rate_hz != rate || before.eq_channels != channels,
        0 <= b < 5,
    ensures
        after.eq_coefficients@.len() == 5,
        ({
            let band = before.config.parametric_eq.bands@[b];
            let designed = call_ensures(
                M::design,
                (&before.math, rate, band),
                after.eq_coefficients@[b],
            );
            let on = before.config.parametric_eq.enabled;
            &&& on && band.filter_type == ParametricEqFilterType::LowPass ==> designed
            &&& on && band.filter_type == ParametricEqFilterType::HighPass ==> designed
            &&& on && band.filter_type == ParametricEqFilterType::LowShelf ==> designed
            &&& on && band.filter_type == ParametricEqFilterType::HighShelf ==> designed
            &&& on && band.filter_type == ParametricEqFilterType::Notch ==> designed
            &&& on && band.filter_type == ParametricEqFilterType::Bell ==> designed
            &&& !on || band.filter_type == ParametricEqFilterType::Disabled ==> call_ensures(
                M::identity,
                (&before.math,),
                after.eq_coefficients@[b],
            )
        }),
{
}

/// The filters stay the right ones: a strip whose filters fit its settings at the rate that it was
/// prepared for has, after it is prepared again, filters that fit the settings at the new rate,
/// whether or not there was anything to do.
pub proof fn preparing_keeps_the_filters_right<N: Copy, K: Copy, Q: Copy, M: ChannelMath<N, K, Q>>(
    before: ChannelProcessor<N, K, Q, M>,
    after: ChannelProcessor<N, K, Q, M>,
    rate: u32,
    channels: usize,
    b: int,
)
    requires
        is_prepared(before, after, rate, channels),
        before.sized(),
        0 <= b < 5,
        before.config.parametric_eq.enabled,
        before.config.parametric_eq.bands@[b].filter_type != ParametricEqFilterType::Disabled,
        before.eq_sample_rate_hz == rate ==> call_ensures(
            M::design,
            (&before.math, rate, before.config.parametric_eq.bands@[b]),
            before.eq_coefficients@[b],
        ),
    ensures
        after.config == before.config,
        after.eq_sample_rate_hz == rate,
        call_ensures(
            M::design,
            (&before.math, rate, after.config.parametric_eq.bands@[b]),
            after.eq_coefficients@[b],
        ),
{
    if before.eq_sample_rate_hz != rate || before.eq_channels != channels {
        every_filter_kind_is_designed(before, after, rate, channels, b);
    }
}

/// Every sample that leaves the strip was clipped: a range that clipping never leaves is one that
/// no sample of a frame leaves.
pub proof fn a_frame_stays_within_the_clip<N, K, Q, M: ChannelMath<N, K, Q>>(
    m: M,
    config: ChannelProcessorConfig<N>,
    filters: Seq<K>,
    channels: int,
    s: StripSetup<N>,
    frame: Seq<N>,
    before: StripState<N, Q>,
    after: StripState<N, Q>,
    out: Seq<N>,
    in_range: spec_fn(N) -> bool,
)
    requires
        is_frame_step::<N, K, Q, M>(m, config, filters, channels, s, frame, before, after, out),
        forall|x: N, r: N| #[trigger] call_ensures(M::clip, (&m, x), r) ==> in_range(r),
    ensures
        out.len() == frame.len(),
        forall|c: int| 0 <= c < out.len() ==> in_range(#[trigger] out[c]),
{
}

/// A closed noise gate lets nothing through: where zero is silent, and what is multiplied with
/// something silent or clipped from it is silent too, every sample of a frame that leaves the
/// noise gate closed is silent.
pub proof fn a_closed_gate_is_silent<N, K, Q, M: ChannelMath<N, K, Q>>(
    m: M,
    config: ChannelProcessorConfig<N>,
    filters: Seq<K>,
    channels: int,
    s: StripSetup<N>,
    frame: Seq<N>,
    before: StripState<N, Q>,
    after: StripState<N, Q>,
    out: Seq<N>,
    silent: spec_fn(N) -> bool,
)
    requires
        is_frame_step::<N, K, Q, M>(m, config, filters, channels, s, frame, before, after, out),
        forall|r: N| #[trigger] call_ensures(M::number, (&m, 0i32), r) ==> silent(r),
        forall|a: N, b: N, r: N| #[trigger]
            call_ensures(M::times, (&m, a, b), r) && (silent(a) || silent(b)) ==> silent(r),
        forall|a: N, r: N| #[trigger]
            call_ensures(M::clip, (&m, a), r) && silent(a) ==> silent(r),
        !after.open,
    ensures
        forall|c: int| 0 <= c < out.len() ==> silent(#[trigger] out[c]),
{
    let t = choose|t: FrameTrace<N>| #[trigger]
        shows_frame::<N, K, Q, M>(m, config, filters, channels, s, frame, before, after, out, t);
    assert(silent(t.total_gain));
    assert forall|c: int| 0 <= c < out.len() implies silent(#[trigger] out[c]) by {
        assert(silent(t.raised[c]));
        assert(call_ensures(M::clip, (&m, t.raised[c]), out[c]));
    }
}

/// The arithmetic counts in whole numbers, where `worth` is the number that a value stands for:
/// it multiplies, takes amounts, finds the larger and compares as whole numbers do, measures an
/// amplitude by `db` and turns a level into a factor by `factor`.
pub open spec fn measures<N, K, Q, M: ChannelMath<N, K, Q>>(
    m: M,
    worth: spec_fn(N) -> int,
    db: spec_fn(int) -> int,
    factor: spec_fn(int) -> int,
) -> bool {
    &&& forall|r: N| #[trigger] call_ensures(M::number, (&m, 0i32), r) ==> worth(r) == 0
    &&& forall|a: N, b: N, r: N| #[trigger]
        call_ensures(M::times, (&m, a, b), r) ==> worth(r) == worth(a) * worth(b)
    &&& forall|a: N, b: N, r: N| #[trigger]
        call_ensures(M::plus, (&m, a, b), r) ==> worth(r) == worth(a) + worth(b)
    &&& forall|a: N, r: N| #[trigger]
        call_ensures(M::magnitude, (&m, a), r) ==> worth(r) == amount(worth(a))
    &&& forall|a: N, b: N, r: N| #[trigger]
        call_ensures(M::larger, (&m, a, b), r) ==> worth(r) == if worth(a) >= worth(b) {
            worth(a)
        } else {
            worth(b)
        }
    &&& forall|a: N, r: N| #[trigger]
        call_ensures(M::level, (&m, a), r) ==> worth(r) == db(worth(a))
    &&& forall|a: N, r: N| #[trigger]
        call_ensures(M::gain, (&m, a), r) ==> worth(r) == factor(worth(a))
    &&& forall|a: N, b: N, r: bool| #[trigger]
        call_ensures(M::at_most, (&m, a, b), r) ==> r == (worth(a) <= worth(b))
    &&& forall|a: N, b: N, r: bool| #[trigger]
        call_ensures(M::below, (&m, a, b), r) ==> r == (worth(a) < worth(b))
}

/// A number whatever its sign.
pub open spec fn amount(x: int) -> int {
    if x >= 0 {
        x
    } else {
        -x
    }
}

/// `peak` is the largest amount among `xs`, or zero where there are none.
pub open spec fn is_peak(xs: Seq<int>, peak: int) -> bool {
    &&& peak >= 0
    &&& forall|c: int| 0 <= c < xs.len() ==> amount(#[trigger] xs[c]) <= peak
    &&& peak == 0 || exists|c: int| 0 <= c < xs.len() && amount(#[trigger] xs[c]) == peak
}

proof fn lemma_peak<N, K, Q, M: ChannelMath<N, K, Q>>(
    m: M,
    t: FrameTrace<N>,
    xs: Seq<int>,
    n: int,
    worth: spec_fn(N) -> int,
    db: spec_fn(int) -> int,
    factor: spec_fn(int) -> int,
)
    requires
        measures::<N, K, Q, M>(m, worth, db, factor),
        0 <= n <= xs.len(),
        t.stages.len() == xs.len(),
        t.magnitudes.len() == xs.len(),
        t.peaks.len() == xs.len() + 1,
        call_ensures(M::number, (&m, 0i32), t.peaks[0]),
        forall|c: int| 0 <= c < xs.len() ==> worth(#[trigger] t.stages[c].last()) == xs[c],
        forall|c: int|
            0 <= c < xs.len() ==> call_ensures(
                M::magnitude,
                (&m, t.stages[c].last()),
                #[trigger] t.magnitudes[c],
            ),
        forall|c: int|
            0 <= c < xs.len() ==> call_ensures(
                M::larger,
                (&m, #[trigger] t.peaks[c], t.magnitudes[c]),
                t.peaks[c + 1],
            ),
    ensures
        is_peak(xs.take(n), worth(t.peaks[n])),
    decreases n,
{
    if n > 0 {
        lemma_peak::<N, K, Q, M>(m, t, xs, n - 1, worth, db, factor);
        let last = t.magnitudes[n - 1];
        let before = worth(t.peaks[n - 1]);
        let peak = worth(t.peaks[n]);
        assert(worth(t.stages[n - 1].last()) == xs[n - 1]);
        assert(worth(last) == amount(xs[n - 1]));
        assert(call_ensures(M::larger, (&m, t.peaks[n - 1], last), t.peaks[n - 1 + 1]));
        assert forall|c: int| 0 <= c < n implies amount(#[trigger] xs.take(n)[c]) <= peak by {
            if c < n - 1 {
                assert(xs.take(n - 1)[c] == xs[c]);
            }
        }
        if peak != 0 {
            if peak == before {
                let c = choose|c: int|
                    0 <= c < n - 1 && amount(#[trigger] xs.take(n - 1)[c]) == before;
                assert(amount(xs.take(n)[c]) == peak);
            } else {
                assert(amount(xs.take(n)[n - 1]) == peak);
            }
        }
    }
}

/// What the strip does to a frame when its equalizer is off, counted in whole numbers. The level
/// is that of the largest amount among the frame's samples at the input gain. A noise gate that
/// is on and open closes at its closing level or below; one that is on and closed opens at its
/// opening level or above; one that is off is open. The compressor reacts above its threshold
/// only, approaching the reduction that the arithmetic wants there, and otherwise none, with the
/// attack where the reduction falls and the release where it does not. Every sample leaves
/// clipped, at the input gain, the output gain and the compressor's factor, or at nothing where
/// the noise gate is closed.
pub proof fn a_frame_without_equalizer<N, K, Q, M: ChannelMath<N, K, Q>>(
    m: M,
    config: ChannelProcessorConfig<N>,
    filters: Seq<K>,
    channels: int,
    s: StripSetup<N>,
    frame: Seq<N>,
    before: StripState<N, Q>,
    after: StripState<N, Q>,
    out: Seq<N>,
    worth: spec_fn(N) -> int,
    db: spec_fn(int) -> int,
    factor: spec_fn(int) -> int,
    peak: int,
    c: int,
)
    requires
        is_frame_step::<N, K, Q, M>(m, config, filters, channels, s, frame, before, after, out),
        !config.parametric_eq.enabled,
        measures::<N, K, Q, M>(m, worth, db, factor),
        is_peak(
            Seq::new(frame.len(), |c: int| worth(frame[c]) * worth(s.input_gain)),
            peak,
        ),
    ensures
        !s.gate.enabled ==> after.open,
        s.gate.enabled && before.open ==> after.open == (db(peak) > worth(
            s.gate.close_threshold_db,
        )),
        s.gate.enabled && !before.open ==> after.open == (db(peak) >= worth(
            s.gate.open_threshold_db,
        )),
        exists|wanted: N, coefficient: N|
            {
                let over = config.compressor.enabled && db(peak) > worth(
                    config.compressor.threshold_db,
                );
                &&& #[trigger] call_ensures(
                    M::approach,
                    (&m, wanted, before.reduction, coefficient),
                    after.reduction,
                )
                &&& !over ==> worth(wanted) == 0
                &&& over ==> exists|level: N|
                    worth(level) == db(peak) && #[trigger] call_ensures(
                        M::reduction_for,
                        (&m, level, config.compressor.threshold_db, s.ratio),
                        wanted,
                    )
                &&& coefficient == if worth(wanted) < worth(before.reduction) {
                    s.attack
                } else {
                    s.release
                }
            },
        out.len() == frame.len(),
        0 <= c < frame.len() ==> exists|x: N| #[trigger]
            call_ensures(M::clip, (&m, x), out[c]) && worth(x) == (worth(frame[c]) * worth(
                s.input_gain,
            )) * (if after.open {
                factor(worth(after.reduction)) * worth(s.output_gain)
            } else {
                0
            }),
        after.memories == before.memories,
{
    let t = choose|t: FrameTrace<N>| #[trigger]
        shows_frame::<N, K, Q, M>(m, config, filters, channels, s, frame, before, after, out, t);
    let xs = Seq::new(frame.len(), |c: int| worth(frame[c]) * worth(s.input_gain));
    assert forall|c: int| 0 <= c < xs.len() implies worth(#[trigger] t.stages[c].last())
        == xs[c] by {
        assert(passes_bands::<N, K, Q, M>(
            m,
            false,
            filters,
            channels,
            c,
            before.memories,
            after.memories,
            t.scaled[c],
            t.stages[c],
        ));
        assert(call_ensures(M::times, (&m, frame[c], s.input_gain), t.scaled[c]));
    }
    lemma_peak::<N, K, Q, M>(m, t, xs, xs.len() as int, worth, db, factor);
    assert(xs.take(xs.len() as int) =~= xs);
    let found = worth(t.peaks[frame.len() as int]);
    assert(found == peak) by {
        if found != 0 {
            let c = choose|c: int| 0 <= c < xs.len() && amount(#[trigger] xs[c]) == found;
            assert(amount(xs[c]) <= peak);
        }
        if peak != 0 {
            let c = choose|c: int| 0 <= c < xs.len() && amount(#[trigger] xs[c]) == peak;
            assert(amount(xs[c]) <= found);
        }
    }
    assert(worth(t.level) == db(peak));
    let coefficient = if t.falling {
        s.attack
    } else {
        s.release
    };
    assert(call_ensures(
        M::approach,
        (&m, t.wanted, before.reduction, coefficient),
        after.reduction,
    ));
    let gain = worth(s.output_gain);
    assert(0 * gain == 0) by (nonlinear_arith);
    if 0 <= c < frame.len() {
        assert(call_ensures(M::clip, (&m, t.raised[c]), out[c]));
        assert(call_ensures(M::times, (&m, t.stages[c].last(), t.total_gain), t.raised[c]));
        assert(worth(t.stages[c].last()) == xs[c]);
    }
}

/// An equalizer that is on passes every sample, at the input gain, through all five bands in
/// order, each channel with memories of its own: the sample that one band gives is the next
/// band's, each band starts from what it remembered of that channel, and remembers what its
/// filter left. The level is measured, and the gain applied, behind the last band.
pub proof fn a_sample_passes_all_bands<N, K, Q, M: ChannelMath<N, K, Q>>(
    m: M,
    config: ChannelProcessorConfig<N>,
    filters: Seq<K>,
    channels: int,
    s: StripSetup<N>,
    frame: Seq<N>,
    before: StripState<N, Q>,
    after: StripState<N, Q>,
    out: Seq<N>,
    c: int,
)
    requires
        is_frame_step::<N, K, Q, M>(m, config, filters, channels, s, frame, before, after, out),
        config.parametric_eq.enabled,
        0 <= c < frame.len() <= channels,
    ensures
        exists|x0: N, x1: N, x2: N, x3: N, x4: N, x5: N, gain: N, raised: N|
            {
                &&& #[trigger] call_ensures(M::times, (&m, frame[c], s.input_gain), x0)
                &&& #[trigger] call_ensures(
                    M::filter,
                    (&m, filters[0], x0, before.memories[c]),
                    (x1, after.memories[c]),
                )
                &&& #[trigger] call_ensures(
                    M::filter,
                    (&m, filters[1], x1, before.memories[channels + c]),
                    (x2, after.memories[channels + c]),
                )
                &&& #[trigger] call_ensures(
                    M::filter,
                    (&m, filters[2], x2, before.memories[2 * channels + c]),
                    (x3, after.memories[2 * channels + c]),
                )
                &&& #[trigger] call_ensures(
                    M::filter,
                    (&m, filters[3], x3, before.memories[3 * channels + c]),
                    (x4, after.memories[3 * channels + c]),
                )
                &&& #[trigger] call_ensures(
                    M::filter,
                    (&m, filters[4], x4, before.memories[4 * channels + c]),
                    (x5, after.memories[4 * channels + c]),
                )
                &&& #[trigger] call_ensures(M::times, (&m, x5, gain), raised)
                &&& call_ensures(M::clip, (&m, raised), out[c])
            },
        forall|b: int, other: int|
            0 <= b < 5 && frame.len() <= other < channels
                ==> #[trigger] after.memories[memory_index(b, other, channels)]
                == before.memories[memory_index(b, other, channels)],
{
    let t = choose|t: FrameTrace<N>| #[trigger]
        shows_frame::<N, K, Q, M>(m, config, filters, channels, s, frame, before, after, out, t);
    let x = t.stages[c];
    assert(passes_bands::<N, K, Q, M>(
        m,
        true,
        filters,
        channels,
        c,
        before.memories,
        after.memories,
        t.scaled[c],
        x,
    ));
    assert(call_ensures(M::times, (&m, frame[c], s.input_gain), x[0]));
    assert(0 * channels == 0 && 1 * channels == channels) by (nonlinear_arith);
    let a = before.memories;
    let z = after.memories;
    assert(memory_index(0, c, channels) == c);
    assert(memory_index(1, c, channels) == channels + c);
    assert(call_ensures(M::filter, (&m, filters[0], x[0], a[c]), (x[0int + 1], z[c])));
    assert(call_ensures(
        M::filter,
        (&m, filters[1], x[1], a[channels + c]),
        (x[1int + 1], z[channels + c]),
    ));
    assert(call_ensures(
        M::filter,
        (&m, filters[2], x[2], a[memory_index(2, c, channels)]),
        (x[2int + 1], z[memory_index(2, c, channels)]),
    ));
    assert(call_ensures(
        M::filter,
        (&m, filters[3], x[3], a[memory_index(3, c, channels)]),
        (x[3int + 1], z[memory_index(3, c, channels)]),
    ));
    assert(call_ensures(
        M::filter,
        (&m, filters[4], x[4], a[memory_index(4, c, channels)]),
        (x[4int + 1], z[memory_index(4, c, channels)]),
    ));
    assert(x.last() == x[5]);
    assert(call_ensures(M::times, (&m, x[5], t.total_gain), t.raised[c]));
    assert(call_ensures(M::clip, (&m, t.raised[c]), out[c]));
}

/// What the settings mean, counted in whole numbers: the input gain's factor; the factor of the
/// output gain and, where the compressor is on, its make-up gain; a noise gate that opens where it
/// is set to and closes where it is set to, but no higher than it opens.
pub proof fn settings_are_taken_as_set<N, K, Q, M: ChannelMath<N, K, Q>>(
    m: M,
    config: ChannelProcessorConfig<N>,
    rate: u32,
    s: StripSetup<N>,
    worth: spec_fn(N) -> int,
    db: spec_fn(int) -> int,
    factor: spec_fn(int) -> int,
)
    requires
        is_setup::<N, K, Q, M>(m, config, rate, s),
        measures::<N, K, Q, M>(m, worth, db, factor),
    ensures
        worth(s.input_gain) == factor(worth(config.input_gain_db)),
        worth(s.output_gain) == factor(
            worth(config.output_gain_db) + if config.compressor.enabled {
                worth(config.compressor.makeup_gain_db)
            } else {
                0
            },
        ),
        s.gate.enabled == config.gate.enabled,
        s.gate.open_threshold_db == config.gate.open_threshold_db,
        worth(s.gate.close_threshold_db) == if worth(config.gate.close_threshold_db) <= worth(
            config.gate.open_threshold_db,
        ) {
            worth(config.gate.close_threshold_db)
        } else {
            worth(config.gate.open_threshold_db)
        },
        call_ensures(M::usable_ratio, (&m, config.compressor.ratio), s.ratio),
        call_ensures(M::coefficient, (&m, config.compressor.attack_ms, rate), s.attack),
        call_ensures(M::coefficient, (&m, config.compressor.release_ms, rate), s.release),
{
    let level = choose|level: N| #[trigger]
        is_output_level::<N, K, Q, M>(m, config, level) && call_ensures(
            M::gain,
            (&m, level),
            s.output_gain,
        );
    assert(is_output_level::<N, K, Q, M>(m, config, level));
}

/// The frames' samples, one after the other.
pub open spec fn joined<N>(outs: Seq<Seq<N>>) -> Seq<N>
    decreases outs.len(),
{
    if outs.len() == 0 {
        Seq::empty()
    } else {
        joined(outs.drop_last()) + outs.last()
    }
}

/// `states` and `outs` show a block passing through the strip: each of its frames, as far as
/// there are samples and no more than `frames`.
pub open spec fn shows_block<N, K, Q, M: ChannelMath<N, K, Q>>(
    m: M,
    config: ChannelProcessorConfig<N>,
    filters: Seq<K>,
    channels: int,
    s: StripSetup<N>,
    samples: Seq<N>,
    frames: nat,
    states: Seq<StripState<N, Q>>,
    outs: Seq<Seq<N>>,
) -> bool {
    let n = outs.len();
    &&& states.len() == n + 1
    &&& n <= frames
    &&& n == frames || n * channels >= samples.len()
    &&& n > 0 ==> (n - 1) * channels < samples.len()
    &&& forall|f: int|
        0 <= f < n ==> is_frame_step::<N, K, Q, M>(
            m,
            config,
            filters,
            channels,
            s,
            crate::mixdown::frame_samples(samples, f, channels),
            #[trigger] states[f],
            states[f + 1],
            outs[f],
        )
}

/// The strip `before` turns `samples` into `out` and becomes `after`.
pub open spec fn is_block_step<N: Copy, K: Copy, Q: Copy, M: ChannelMath<N, K, Q>>(
    before: ChannelProcessor<N, K, Q, M>,
    after: ChannelProcessor<N, K, Q, M>,
    s: StripSetup<N>,
    samples: Seq<N>,
    frames: nat,
    out: Seq<N>,
) -> bool {
    exists|states: Seq<StripState<N, Q>>, outs: Seq<Seq<N>>|
        {
            &&& #[trigger] shows_block::<N, K, Q, M>(
                before.math,
                before.config,
                before.eq_coefficients@,
                before.eq_channels as int,
                s,
                samples,
                frames,
                states,
                outs,
            )
            &&& states[0] == before.state()
            &&& states.last() == after.state()
            &&& out == joined(outs)
        }
}

/// The strip `before` turns the samples of a block into `out` and becomes `after`: the equalizer
/// is brought up to date first, and the settings hold for all frames.
pub open spec fn is_processed<N: Copy, K: Copy, Q: Copy, M: ChannelMath<N, K, Q>>(
    before: ChannelProcessor<N, K, Q, M>,
    after: ChannelProcessor<N, K, Q, M>,
    rate: u32,
    channels: usize,
    samples: Seq<N>,
    frames: nat,
    out: Seq<N>,
) -> bool {
    exists|prepared: ChannelProcessor<N, K, Q, M>, s: StripSetup<N>|
        {
            &&& is_prepared(before, prepared, rate, channels)
            &&& is_setup::<N, K, Q, M>(before.math, before.config, rate, s)
            &&& #[trigger] is_block_step(prepared, after, s, samples, frames, out)
        }
}

impl<N: Copy, K: Copy, Q: Copy, M: ChannelMath<N, K, Q>> ChannelProcessor<N, K, Q, M> {
    /// Passes the samples of a block through the strip.
    fn process_data(
        &mut self,
        sample_rate_hz: u32,
        channels: usize,
        data: &Vec<N>,
        frames: usize,
    ) -> (out: Vec<N>)
        requires
            0 < channels <= u16::MAX,
        ensures
            final(self).math == old(self).math,
            final(self).config == old(self).config,
            final(self).sized(),
            final(self).eq_sample_rate_hz == sample_rate_hz,
            final(self).eq_channels == channels,
            is_processed(
                *old(self),
                *final(self),
                sample_rate_hz,
                channels,
                data@,
                frames as nat,
                out@,
            ),
    {
        let s = self.setup(sample_rate_hz);
        self.prepare_eq(sample_rate_hz, channels);
        self.process_samples(data, frames, &s)
    }

    /// Passes the samples of up to `frames` frames through the strip.
    fn process_samples(&mut self, data: &Vec<N>, frames: usize, s: &StripSetup<N>) -> (out: Vec<N>)
        requires
            old(self).sized(),
            old(self).eq_channels > 0,
        ensures
            final(self).math == old(self).math,
            final(self).config == old(self).config,
            final(self).eq_sample_rate_hz == old(self).eq_sample_rate_hz,
            final(self).eq_channels == old(self).eq_channels,
            final(self).eq_coefficients == old(self).eq_coefficients,
            final(self).sized(),
            is_block_step(*old(self), *final(self), *s, data@, frames as nat, out@),
    {
        let channels: usize = self.eq_channels;
        let total: usize = data.len();
        let ghost ch = channels as int;
        let ghost mut states: Seq<StripState<N, Q>> = seq![self.state()];
        let ghost mut outs: Seq<Seq<N>> = Seq::empty();
        let mut out: Vec<N> = Vec::new();
        let mut at: usize = 0;
        let mut f: usize = 0;
        assert(0 * ch == 0) by (nonlinear_arith);
        assert(out@ =~= joined(outs));
        while f < frames && at < total
            invariant
                f <= frames,
                total == data@.len(),
                at <= total,
                ch == channels,
                ch > 0,
                at == if f * ch <= total {
                    f * ch
                } else {
                    total as int
                },
                f > 0 ==> (f - 1) * ch < total,
                outs.len() == f,
                states.len() == f + 1,
                states[0] == old(self).state(),
                states[f as int] == self.state(),
                out@ == joined(outs),
                channels == self.eq_channels,
                self.sized(),
                self.math == old(self).math,
                self.config == old(self).config,
                self.eq_sample_rate_hz == old(self).eq_sample_rate_hz,
                self.eq_channels == old(self).eq_channels,
                self.eq_coefficients == old(self).eq_coefficients,
                forall|k: int|
                    0 <= k < f ==> is_frame_step::<N, K, Q, M>(
                        self.math,
                        self.config,
                        self.eq_coefficients@,
                        ch,
                        *s,
                        crate::mixdown::frame_samples(data@, k, ch),
                        #[trigger] states[k],
                        states[k + 1],
                        outs[k],
                    ),
            decreases frames - f,
        {
            proof {
                if f * ch > total {
                    assert(false);
                }
                assert((f + 1) * ch == f * ch + ch) by (nonlinear_arith);
            }
            let end: usize = if total - at < channels {
                total
            } else {
                at + channels
            };
            assert(data@.subrange(at as int, end as int) =~= crate::mixdown::frame_samples(
                data@,
                f as int,
                ch,
            ));
            let mut frame_out = self.process_frame(data, at, end, s);
            proof {
                let longer = states.push(self.state());
                let more = outs.push(frame_out@);
                assert forall|k: int| 0 <= k < f + 1 implies is_frame_step::<N, K, Q, M>(
                    self.math,
                    self.config,
                    self.eq_coefficients@,
                    ch,
                    *s,
                    crate::mixdown::frame_samples(data@, k, ch),
                    #[trigger] longer[k],
                    longer[k + 1],
                    more[k],
                ) by {
                    assert(longer[k] == states[k]);
                    if k < f {
                        assert(longer[k + 1] == states[k + 1]);
                        assert(more[k] == outs[k]);
                    }
                }
                assert(more.drop_last() =~= outs);
                states = longer;
                outs = more;
            }
            out.append(&mut frame_out);
            at = end;
            f = f + 1;
        }
        assert(shows_block::<N, K, Q, M>(
            self.math,
            self.config,
            self.eq_coefficients@,
            ch,
            *s,
            data@,
            frames as nat,
            states,
            outs,
        ));
        assert(states.last() == self.state());
        out
    }

    /// Changes the settings. The filters are out of date where the equalizer's settings changed.
    pub fn set_config(&mut self, config: ChannelProcessorConfig<N>)
        ensures
            final(self).config == config,
            exists|same: bool|
                {
                    &&& #[trigger] compares_eq::<N, K, Q, M>(
                        old(self).math,
                        old(self).config.parametric_eq,
                        config.parametric_eq,
                        same,
                    )
                    &&& *final(self) == (ChannelProcessor {
                        config,
                        eq_sample_rate_hz: if same {
                            old(self).eq_sample_rate_hz
                        } else {
                            0
                        },
                        ..*old(self)
                    })
                },
    {
        let same: bool = same_eq(&self.math, &self.config.parametric_eq, &config.parametric_eq);
        if !same {
            self.eq_sample_rate_hz = 0;
        }
        self.config = config;
    }
}

/// `answers` tells of each band whether its three numbers are the same.
pub open spec fn are_answers<N, K, Q, M: ChannelMath<N, K, Q>>(
    m: M,
    a: ParametricEqConfig<N>,
    b: ParametricEqConfig<N>,
    answers: Seq<(bool, bool, bool)>,
) -> bool {
    &&& answers.len() == 5
    &&& forall|i: int|
        0 <= i < 5 ==> {
            let x = a.bands@[i];
            let y = b.bands@[i];
            &&& call_ensures(
                M::same,
                (&m, x.frequency_hz, y.frequency_hz),
                (#[trigger] answers[i]).0,
            )
            &&& call_ensures(M::same, (&m, x.gain_db, y.gain_db), answers[i].1)
            &&& call_ensures(M::same, (&m, x.q, y.q), answers[i].2)
        }
}

/// The band number `i` has the same kind and numbers in both.
pub open spec fn band_agrees<N>(
    a: ParametricEqConfig<N>,
    b: ParametricEqConfig<N>,
    answer: (bool, bool, bool),
    i: int,
) -> bool {
    a.bands@[i].filter_type == b.bands@[i].filter_type && answer.0 && answer.1 && answer.2
}

/// `same` tells whether two equalizers have the same settings: the same switch, kinds and
/// numbers.
pub open spec fn compares_eq<N, K, Q, M: ChannelMath<N, K, Q>>(
    m: M,
    a: ParametricEqConfig<N>,
    b: ParametricEqConfig<N>,
    same: bool,
) -> bool {
    exists|answers: Seq<(bool, bool, bool)>|
        {
            &&& #[trigger] are_answers::<N, K, Q, M>(m, a, b, answers)
            &&& same == (a.enabled == b.enabled && forall|i: int|
                0 <= i < 5 ==> band_agrees(a, b, #[trigger] answers[i], i))
        }
}

fn same_eq<N: Copy, K, Q, M: ChannelMath<N, K, Q>>(
    m: &M,
    a: &ParametricEqConfig<N>,
    b: &ParametricEqConfig<N>,
) -> (same: bool)
    ensures
        compares_eq::<N, K, Q, M>(*m, *a, *b, same),
{
    let ghost mut answers: Seq<(bool, bool, bool)> = Seq::empty();
    let mut same: bool = a.enabled == b.enabled;
    let mut i: usize = 0;
    while i < 5
        invariant
            i <= 5,
            answers.len() == i,
            forall|k: int|
                0 <= k < i ==> {
                    let x = a.bands@[k];
                    let y = b.bands@[k];
                    &&& call_ensures(
                        M::same,
                        (m, x.frequency_hz, y.frequency_hz),
                        (#[trigger] answers[k]).0,
                    )
                    &&& call_ensures(M::same, (m, x.gain_db, y.gain_db), answers[k].1)
                    &&& call_ensures(M::same, (m, x.q, y.q), answers[k].2)
                },
            same == (a.enabled == b.enabled && forall|k: int|
                0 <= k < i ==> band_agrees(*a, *b, #[trigger] answers[k], k)),
        decreases 5 - i,
    {
        let x = a.bands[i];
        let y = b.bands[i];
        let frequency: bool = m.same(x.frequency_hz, y.frequency_hz);
        let gain: bool = m.same(x.gain_db, y.gain_db);
        let q: bool = m.same(x.q, y.q);
        let ghost shorter = answers;
        let ghost was = same;
        proof {
            answers = answers.push((frequency, gain, q));
        }
        same = same && x.filter_type == y.filter_type && frequency && gain && q;
        proof {
            assert forall|k: int| 0 <= k < i implies #[trigger] answers[k] == shorter[k] by {}
            assert(answers[i as int] == (frequency, gain, q));
            if same {
                assert forall|k: int| 0 <= k < i + 1 implies band_agrees(
                    *a,
                    *b,
                    #[trigger] answers[k],
                    k,
                ) by {
                    if k < i {
                        assert(band_agrees(*a, *b, shorter[k], k));
                    }
                }
            } else if was {
                assert(!band_agrees(*a, *b, answers[i as int], i as int));
            } else if a.enabled == b.enabled {
                let bad = choose|k: int|
                    0 <= k < i && !band_agrees(*a, *b, #[trigger] shorter[k], k);
                assert(!band_agrees(*a, *b, answers[bad], bad));
            }
        }
        i = i + 1;
    }
    assert(are_answers::<N, K, Q, M>(*m, *a, *b, answers));
    same
}

impl<N: Copy + Send, K: Copy + Send, Q: Copy + Send, M: ChannelMath<N, K, Q>> AudioProcessor<
    N,
> for ChannelProcessor<N, K, Q, M> {
    open spec fn may_leave(
        &self,
        input: AudioBuffer<N>,
        before: AudioBuffer<N>,
        after: AudioBuffer<N>,
        ok: bool,
        next: Mark,
    ) -> bool {
        let fits = input.frames == before.frames && input.format == before.format
            && input.format.channels > 0;
        if ok {
            &&& fits
            &&& after.format == input.format
            &&& after.frames == input.frames
            &&& after.captured_at == input.captured_at
            &&& after.frame_index == input.frame_index
            &&& exists|turned: Self| #[trigger]
                is_processed(
                    *self,
                    turned,
                    input.format.sample_rate_hz,
                    input.format.channels as usize,
                    input.samples(),
                    input.frames as nat,
                    after.samples(),
                )
        } else {
            !fits && after == before
        }
    }

    fn name(&self) -> (n: String)
        ensures
            n@ == "channel"@,
    {
        "channel".to_owned()
    }

    /// Opens the noise gate, takes the compressor back and puts the filters to rest.
    fn reset(&mut self)
        ensures
            final(self).math == old(self).math,
            final(self).config == old(self).config,
            final(self).gate_open,
            call_ensures(
                M::number,
                (&old(self).math, 0i32),
                final(self).compressor_reduction_db,
            ),
            final(self).eq_sample_rate_hz == old(self).eq_sample_rate_hz,
            final(self).eq_channels == old(self).eq_channels,
            final(self).eq_coefficients == old(self).eq_coefficients,
            final(self).eq_states@.len() == old(self).eq_states@.len(),
            forall|i: int|
                0 <= i < final(self).eq_states@.len() ==> call_ensures(
                    M::rest,
                    (&old(self).math,),
                    #[trigger] final(self).eq_states@[i],
                ),
    {
        self.gate_open = true;
        self.compressor_reduction_db = self.math.number(0);
        let count: usize = self.eq_states.len();
        let mut memories: Vec<Q> = Vec::new();
        let mut i: usize = 0;
        while i < count
            invariant
                i <= count,
                memories@.len() == i,
                forall|k: int|
                    0 <= k < i ==> call_ensures(M::rest, (&self.math,), #[trigger] memories@[k]),
            decreases count - i,
        {
            memories.push(self.math.rest());
            i = i + 1;
        }
        self.eq_states = memories;
    }

    fn process(&mut self, input: &AudioBuffer<N>, output: &mut AudioBuffer<N>) -> (r: Result<()>)
        ensures
            final(self).math == old(self).math,
            final(self).config == old(self).config,
            r is Ok <==> input.frames == old(output).frames && input.format == old(output).format
                && input.format.channels > 0,
            r matches Err(e) ==> {
                &&& *final(self) == *old(self)
                &&& *final(output) == *old(output)
                &&& if input.frames != old(output).frames || input.format != old(output).format {
                    e == (RecordingError::FormatMismatch {
                        expected: input.format,
                        got: old(output).format,
                    })
                } else {
                    e is Config && e->Config_0@ == "ChannelProcessor requires at least one channel"@
                }
            },
            r is Ok ==> {
                &&& final(output).format == input.format
                &&& final(output).frames == input.frames
                &&& final(output).captured_at == input.captured_at
                &&& final(output).frame_index == input.frame_index
                &&& final(self).sized()
                &&& final(self).eq_sample_rate_hz == input.format.sample_rate_hz
                &&& final(self).eq_channels == input.format.channels
                &&& is_processed(
                    *old(self),
                    *final(self),
                    input.format.sample_rate_hz,
                    input.format.channels as usize,
                    input.samples(),
                    input.frames as nat,
                    final(output).samples(),
                )
            },
    {
        if input.frames != output.frames || input.format != output.format {
            return Err(
                RecordingError::FormatMismatch { expected: input.format, got: output.format },
            );
        }
        let channels: usize = input.format.channels as usize;
        if channels == 0 {
            return Err(RecordingError::config("ChannelProcessor requires at least one channel"));
        }
        output.captured_at = input.captured_at;
        output.frame_index = input.frame_index;
        let data = self.process_data(
            input.format.sample_rate_hz,
            channels,
            &input.data,
            input.frames,
        );
        output.data = Arc::new(data);
        assert(is_processed(
            *old(self),
            *self,
            input.format.sample_rate_hz,
            channels,
            input.samples(),
            input.frames as nat,
            output.samples(),
        ));
        Ok(())
    }
}

proof fn lemma_frames_join<N>(outs: Seq<Seq<N>>, channels: nat, f: int)
    requires
        forall|i: int| 0 <= i < outs.len() ==> (#[trigger] outs[i]).len() == channels,
    ensures
        joined(outs).len() == outs.len() * channels,
        0 <= f < outs.len() ==> 0 <= f * channels <= (f + 1) * channels <= outs.len() * channels
            && joined(outs).subrange(f * channels, (f + 1) * channels) == outs[f],
    decreases outs.len(),
{
    if outs.len() > 0 {
        let rest = outs.drop_last();
        let n = rest.len();
        assert forall|i: int| 0 <= i < rest.len() implies (#[trigger] rest[i]).len()
            == channels by {
            assert(rest[i] == outs[i]);
        }
        lemma_frames_join(rest, channels, f);
        assert(outs[n as int].len() == channels);
        assert(outs.len() * channels == n * channels + channels) by (nonlinear_arith)
            requires
                outs.len() == n + 1,
        ;
        if 0 <= f < outs.len() {
            assert(0 <= f * channels && (f + 1) * channels == f * channels + channels && (f + 1)
                * channels <= outs.len() * channels) by (nonlinear_arith)
                requires
                    0 <= f < outs.len(),
            ;
            if f < n {
                assert(joined(outs).subrange(f * channels, (f + 1) * channels) =~= joined(
                    rest,
                ).subrange(f * channels, (f + 1) * channels));
            } else {
                assert(joined(outs).subrange(f * channels, (f + 1) * channels) =~= outs[f]);
            }
        }
    } else {
        assert(0 * channels == 0) by (nonlinear_arith);
    }
}

/// A block passes the strip frame by frame: of a block of whole frames, every frame of the output
/// is what the strip makes of that frame of the input, in the state that the frame before left,
/// and the strip is left in the state behind the last one.
pub proof fn a_block_passes_frame_by_frame<N: Copy, K: Copy, Q: Copy, M: ChannelMath<N, K, Q>>(
    before: ChannelProcessor<N, K, Q, M>,
    after: ChannelProcessor<N, K, Q, M>,
    s: StripSetup<N>,
    samples: Seq<N>,
    frames: nat,
    out: Seq<N>,
)
    requires
        is_block_step(before, after, s, samples, frames, out),
        before.eq_channels > 0,
        samples.len() == frames * before.eq_channels,
    ensures
        out.len() == samples.len(),
        exists|states: Seq<StripState<N, Q>>|
            {
                let channels = before.eq_channels as int;
                &&& #[trigger] states.len() == frames + 1
                &&& states[0].open == before.gate_open
                &&& states[0].reduction == before.compressor_reduction_db
                &&& states[0].memories == before.eq_states@
                &&& states[frames as int].open == after.gate_open
                &&& states[frames as int].reduction == after.compressor_reduction_db
                &&& states[frames as int].memories == after.eq_states@
                &&& forall|f: int|
                    0 <= f < frames ==> is_frame_step::<N, K, Q, M>(
                        before.math,
                        before.config,
                        before.eq_coefficients@,
                        channels,
                        s,
                        samples.subrange(f * channels, (f + 1) * channels),
                        #[trigger] states[f],
                        states[f + 1],
                        out.subrange(f * channels, (f + 1) * channels),
                    )
            },
{
    let channels = before.eq_channels as int;
    let (states, outs) = choose|states: Seq<StripState<N, Q>>, outs: Seq<Seq<N>>|
        {
            &&& #[trigger] shows_block::<N, K, Q, M>(
                before.math,
                before.config,
                before.eq_coefficients@,
                before.eq_channels as int,
                s,
                samples,
                frames,
                states,
                outs,
            )
            &&& states[0] == before.state()
            &&& states.last() == after.state()
            &&& out == joined(outs)
        };
    let n = outs.len();
    assert(n == frames) by {
        if n < frames {
            assert(n * channels < frames * channels) by (nonlinear_arith)
                requires
                    n < frames,
                    channels > 0,
            ;
        }
    }
    assert forall|f: int| 0 <= f < n implies (#[trigger] outs[f]).len() == channels
        && crate::mixdown::frame_samples(samples, f, channels) == samples.subrange(
        f * channels,
        (f + 1) * channels,
    ) by {
        assert(0 <= f * channels && (f + 1) * channels == f * channels + channels && (f + 1)
            * channels <= frames * channels) by (nonlinear_arith)
            requires
                0 <= f < frames,
                channels > 0,
        ;
        let frame = crate::mixdown::frame_samples(samples, f, channels);
        assert(frame =~= samples.subrange(f * channels, (f + 1) * channels));
        assert(is_frame_step::<N, K, Q, M>(
            before.math,
            before.config,
            before.eq_coefficients@,
            channels,
            s,
            frame,
            states[f],
            states[f + 1],
            outs[f],
        ));
    }
    lemma_frames_join(outs, channels as nat, 0);
    assert(states.len() == frames + 1);
    assert forall|f: int| 0 <= f < frames implies is_frame_step::<N, K, Q, M>(
        before.math,
        before.config,
        before.eq_coefficients@,
        channels,
        s,
        samples.subrange(f * channels, (f + 1) * channels),
        #[trigger] states[f],
        states[f + 1],
        out.subrange(f * channels, (f + 1) * channels),
    ) by {
        lemma_frames_join(outs, channels as nat, f);
        assert(outs[f].len() == channels);
    }
}

/// Two equalizers have the same settings exactly where both are on or both off and every band has
/// the same kind and, as far as the arithmetic can tell, the same three numbers.
pub proof fn equalizers_agree_band_by_band<N, K, Q, M: ChannelMath<N, K, Q>>(
    m: M,
    a: ParametricEqConfig<N>,
    b: ParametricEqConfig<N>,
    same: bool,
    worth: spec_fn(N) -> int,
)
    requires
        compares_eq::<N, K, Q, M>(m, a, b, same),
        forall|x: N, y: N, r: bool| #[trigger]
            call_ensures(M::same, (&m, x, y), r) ==> r == (worth(x) == worth(y)),
    ensures
        same <==> (a.enabled == b.enabled && forall|i: int|
            0 <= i < 5 ==> (#[trigger] a.bands@[i]).filter_type == b.bands@[i].filter_type && worth(
                a.bands@[i].frequency_hz,
            ) == worth(b.bands@[i].frequency_hz) && worth(a.bands@[i].gain_db) == worth(
                b.bands@[i].gain_db,
            ) && worth(a.bands@[i].q) == worth(b.bands@[i].q)),
{
    let answers = choose|answers: Seq<(bool, bool, bool)>|
        {
            &&& #[trigger] are_answers::<N, K, Q, M>(m, a, b, answers)
            &&& same == (a.enabled == b.enabled && forall|i: int|
                0 <= i < 5 ==> band_agrees(a, b, #[trigger] answers[i], i))
        };
    assert forall|i: int| 0 <= i < 5 implies (band_agrees(a, b, #[trigger] answers[i], i) <==> (
    a.bands@[i].filter_type == b.bands@[i].filter_type && worth(a.bands@[i].frequency_hz) == worth(
        b.bands@[i].frequency_hz,
    ) && worth(a.bands@[i].gain_db) == worth(b.bands@[i].gain_db) && worth(a.bands@[i].q) == worth(
        b.bands@[i].q,
    ))) by {
        let x = a.bands@[i];
        let y = b.bands@[i];
        assert(call_ensures(M::same, (&m, x.frequency_hz, y.frequency_hz), answers[i].0));
        assert(call_ensures(M::same, (&m, x.gain_db, y.gain_db), answers[i].1));
        assert(call_ensures(M::same, (&m, x.q, y.q), answers[i].2));
    }
    if same {
        assert forall|i: int| 0 <= i < 5 implies (#[trigger] a.bands@[i]).filter_type
            == b.bands@[i].filter_type && worth(a.bands@[i].frequency_hz) == worth(
            b.bands@[i].frequency_hz,
        ) && worth(a.bands@[i].gain_db) == worth(b.bands@[i].gain_db) && worth(a.bands@[i].q)
            == worth(b.bands@[i].q) by {
            assert(band_agrees(a, b, answers[i], i));
        }
    }
}

/// Preparing keeps what the filters remember: every memory that is still needed stays as it was,
/// new ones start at rest, and there is one for each band and channel.
pub proof fn preparing_keeps_the_memories<N: Copy, K: Copy, Q: Copy, M: ChannelMath<N, K, Q>>(
    before: ChannelProcessor<N, K, Q, M>,
    after: ChannelProcessor<N, K, Q, M>,
    rate: u32,
    channels: usize,
    i: int,
)
    requires
        is_prepared(before, after, rate, channels),
        before.sized(),
        0 <= i < 5 * channels,
    ensures
        after.eq_states@.len() == 5 * channels,
        i < before.eq_states@.len() ==> after.eq_states@[i] == before.eq_states@[i],
        i >= before.eq_states@.len() ==> call_ensures(
            M::rest,
            (&before.math,),
            after.eq_states@[i],
        ),
        after.gate_open == before.gate_open,
        after.compressor_reduction_db == before.compressor_reduction_db,
{
}

} // verus!
