//! N-input bus mixer: aligns multiple capture legs to one sample rate and mixes them.
//!
//! The mixer decides which samples meet, in which order and where the result goes. The
//! arithmetic on samples ([`MixMath`]) and the rate conversion ([`LegResampler`]) are handed
//! in; every statement here holds whatever they compute.

use std::collections::VecDeque;

use vstd::prelude::*;

use crate::buffer::AudioBuffer;
use crate::error::{RecordingError, Result};
use crate::format::{AudioFormat, SampleFormat};
use crate::text::{push_decimal, push_text};
use crate::time::{nanos_of_frames, Duration};

verus! {

/// Output shape of the mix (also used as the bus mix law for the two-source preset).
#[derive(Debug, Clone, Copy, PartialEq, Eq, Structural)]
pub enum MixMode {
    /// Sum all legs into mono (each leg downmixed); soft limiter on the sum.
    SumMono,
    /// Sum all legs to mono then duplicate to stereo.
    SumStereo,
    /// Exactly two legs: leg 0 to the left, leg 1 to the right (per-frame mono per leg).
    SplitStereo,
}

impl MixMode {
    /// The channels of the mix.
    pub open spec fn channels(self) -> u16 {
        match self {
            MixMode::SumMono => 1,
            MixMode::SumStereo => 2,
            MixMode::SplitStereo => 2,
        }
    }

    /// The channels of the mix.
    pub fn output_channels(self) -> (n: u16)
        ensures
            n == self.channels(),
    {
        match self {
            MixMode::SumMono => 1,
            MixMode::SumStereo => 2,
            MixMode::SplitStereo => 2,
        }
    }
}

/// One bus input: native capture format and the gain applied after downmixing the leg to mono
/// (for sum modes) or before routing (split).
#[derive(Debug, Clone, Copy)]
pub struct BusLegConfig<G> {
    pub source_format: AudioFormat,
    pub gain: G,
}

impl<G> BusLegConfig<G> {
    /// A leg.
    pub fn new(source_format: AudioFormat, gain: G) -> (l: Self)
        ensures
            l == (BusLegConfig { source_format, gain }),
    {
        BusLegConfig { source_format, gain }
    }

    /// The channels that the leg's frames are read with: at least one.
    pub open spec fn frame_channels(self) -> nat {
        if self.source_format.channels == 0 {
            1
        } else {
            self.source_format.channels as nat
        }
    }
}

/// Full bus configuration.
#[verifier::reject_recursive_types(G)]
pub struct BusMixerConfig<G> {
    /// Sample rate of the mixed output (all legs are converted here).
    pub bus_sample_rate_hz: u32,
    pub mix_mode: MixMode,
    pub legs: Vec<BusLegConfig<G>>,
    pub jitter_window: Duration,
    pub plugin_budget_per_plugin: Option<Duration>,
}

impl<G> BusMixerConfig<G> {
    /// The layout of the mix.
    pub open spec fn mix_format(self) -> AudioFormat {
        AudioFormat {
            sample_rate_hz: self.bus_sample_rate_hz,
            channels: self.mix_mode.channels(),
            sample_format: SampleFormat::F32,
        }
    }

    /// The legs suit the mix mode.
    pub open spec fn valid(self) -> bool {
        &&& self.legs@.len() > 0
        &&& self.mix_mode == MixMode::SplitStereo ==> self.legs@.len() == 2
    }

    /// The layout of the mix.
    pub fn output_format(&self) -> (f: AudioFormat)
        ensures
            f == self.mix_format(),
    {
        AudioFormat::new(
            self.bus_sample_rate_hz,
            self.mix_mode.output_channels(),
            SampleFormat::F32,
        )
    }

    /// Fails unless the legs suit the mix mode.
    pub fn validate(&self) -> (r: Result<()>)
        ensures
            r is Ok <==> self.valid(),
            r matches Err(e) ==> e is Config && e->Config_0@ == if self.legs@.len() == 0 {
                "BusMixerConfig requires at least one leg"@
            } else {
                "SplitStereo bus requires exactly two legs"@
            },
    {
        if self.legs.len() == 0 {
            return Err(RecordingError::config("BusMixerConfig requires at least one leg"));
        }
        if self.mix_mode == MixMode::SplitStereo && self.legs.len() != 2 {
            return Err(RecordingError::config("SplitStereo bus requires exactly two legs"));
        }
        Ok(())
    }

    /// Fails unless the configuration is valid and there is one receiver per leg.
    pub fn check_receivers(&self, receivers: usize) -> (r: Result<()>)
        ensures
            r is Ok <==> self.valid() && receivers == self.legs@.len(),
            self.valid() ==> (r matches Err(e) ==> e is Config && e->Config_0@ == "BusMixer: "@
                + crate::text::decimal(receivers as nat) + " receivers but "@
                + crate::text::decimal(self.legs@.len()) + " leg configs"@),
            !self.valid() ==> (r matches Err(e) && e is Config && e->Config_0@ == if self.legs@.len()
                == 0 {
                "BusMixerConfig requires at least one leg"@
            } else {
                "SplitStereo bus requires exactly two legs"@
            }),
    {
        match self.validate() {
            Ok(()) => {},
            Err(e) => {
                return Err(e);
            },
        }
        if receivers != self.legs.len() {
            let mut text = String::new();
            push_text(&mut text, "BusMixer: ");
            push_decimal(&mut text, receivers as u64);
            push_text(&mut text, " receivers but ");
            push_decimal(&mut text, self.legs.len() as u64);
            push_text(&mut text, " leg configs");
            assert(text@ =~= "BusMixer: "@ + crate::text::decimal(receivers as nat)
                + " receivers but "@ + crate::text::decimal(self.legs@.len()) + " leg configs"@);
            return Err(RecordingError::Config(text));
        }
        Ok(())
    }
}

/// Configuration of the microphone and speaker preset.
#[derive(Debug, Clone, Copy, PartialEq, Eq, Structural)]
pub struct MixerConfig {
    pub mode: MixMode,
    pub mic_format: AudioFormat,
    pub speaker_format: AudioFormat,
    pub jitter_window: Duration,
}

impl MixerConfig {
    /// The layout of the mix: the microphone's rate, the mode's channels.
    pub fn output_format(&self) -> (f: AudioFormat)
        ensures
            f == (AudioFormat {
                sample_rate_hz: self.mic_format.sample_rate_hz,
                channels: self.mode.channels(),
                sample_format: SampleFormat::F32,
            }),
    {
        AudioFormat::new(
            self.mic_format.sample_rate_hz,
            self.mode.output_channels(),
            SampleFormat::F32,
        )
    }

    /// The bus with two legs that the preset stands for: microphone first, then speaker, both
    /// with the gain `unit`.
    pub fn into_bus<G: Copy>(self, unit: G) -> (bus: BusMixerConfig<G>)
        ensures
            bus.valid(),
            bus.bus_sample_rate_hz == self.mic_format.sample_rate_hz,
            bus.mix_mode == self.mode,
            bus.legs@ == seq![
                BusLegConfig { source_format: self.mic_format, gain: unit },
                BusLegConfig { source_format: self.speaker_format, gain: unit },
            ],
            bus.jitter_window == self.jitter_window,
            bus.plugin_budget_per_plugin is None,
    {
        let mut legs: Vec<BusLegConfig<G>> = Vec::new();
        legs.push(BusLegConfig::new(self.mic_format, unit));
        legs.push(BusLegConfig::new(self.speaker_format, unit));
        assert(legs@ =~= seq![
            BusLegConfig { source_format: self.mic_format, gain: unit },
            BusLegConfig { source_format: self.speaker_format, gain: unit },
        ]);
        BusMixerConfig {
            bus_sample_rate_hz: self.mic_format.sample_rate_hz,
            mix_mode: self.mode,
            legs,
            jitter_window: self.jitter_window,
            plugin_budget_per_plugin: None,
        }
    }
}

/// The preset mixes to the layout that it announces.
pub proof fn preset_keeps_output_format<G>(cfg: MixerConfig, bus: BusMixerConfig<G>)
    requires
        bus.bus_sample_rate_hz == cfg.mic_format.sample_rate_hz,
        bus.mix_mode == cfg.mode,
    ensures
        bus.mix_format() == (AudioFormat {
            sample_rate_hz: cfg.mic_format.sample_rate_hz,
            channels: cfg.mode.channels(),
            sample_format: SampleFormat::F32,
        }),
{
}

/// The most frames that one mixed block holds.
pub const BLOCK_SIZE: usize = 480;

/// How long one wait for more input of a leg lasts, in milliseconds.
pub const TOPUP_TIMEOUT_MS: u64 = 20;

/// Converts planar chunks of one leg to the bus sample rate. A converter carries something from
/// chunk to chunk: a call uses it up and gives back the one for the next chunk.
pub trait LegResampler<S>: Sized {
    /// The frames per channel that the next chunk holds.
    fn input_frames_next(&self) -> usize;

    /// Converts one chunk. Gives the converted channels and the number of frames to use, or
    /// `None` when the conversion failed, and the converter for the next chunk.
    fn process(self, chunk: &Vec<Vec<S>>) -> (Option<(Vec<Vec<S>>, usize)>, Self);
}

/// One converted chunk: a sequence of samples per channel and the number of frames to use.
pub type Converted<S> = (Seq<Seq<S>>, nat);

/// The samples of `chunk` frame by frame; a channel that is too short is filled with `zero`.
pub open spec fn interleave<S>(
    planar: Seq<Seq<S>>,
    frames: nat,
    channels: nat,
    zero: S,
) -> Seq<S> {
    Seq::new(
        frames * channels,
        |i: int|
            {
                let ch = i % channels as int;
                let frame = i / channels as int;
                if ch < planar.len() && frame < planar[ch].len() {
                    planar[ch][frame]
                } else {
                    zero
                }
            },
    )
}

/// All converted chunks interleaved, one after the other.
pub open spec fn interleave_all<S>(chunks: Seq<Converted<S>>, channels: nat, zero: S) -> Seq<S>
    decreases chunks.len(),
{
    if chunks.len() == 0 {
        Seq::empty()
    } else {
        interleave_all(chunks.drop_last(), channels, zero) + interleave(
            chunks.last().0,
            chunks.last().1,
            channels,
            zero,
        )
    }
}

/// The samples of channel `ch` among the first `n` interleaved samples.
pub open spec fn channel_of<S>(data: Seq<S>, n: int, channels: int, ch: int) -> Seq<S>
    decreases n,
{
    if n <= 0 {
        Seq::empty()
    } else if (n - 1) % channels == ch {
        channel_of(data, n - 1, channels, ch).push(data[n - 1])
    } else {
        channel_of(data, n - 1, channels, ch)
    }
}

/// Per-leg resampling and buffering at the bus sample rate.
#[verifier::reject_recursive_types(S)]
pub struct MixLegState<S> {
    pub channels: usize,
    /// Whether the leg's rate differs from the bus rate.
    pub resampling: bool,
    /// Samples per channel that wait for conversion.
    pub pending_planar: Vec<VecDeque<S>>,
    /// Samples at the bus rate that wait for mixing.
    pub interleaved: VecDeque<S>,
    /// The value of silence.
    pub zero: S,
}

impl<S> MixLegState<S> {
    /// There is one waiting queue per channel, and no more channels than a layout can have.
    pub open spec fn well_formed(self) -> bool {
        &&& self.pending_planar@.len() == self.channels
        &&& self.channels <= u16::MAX
    }

    /// The frames that wait for mixing.
    pub open spec fn ready(self) -> nat {
        if self.channels == 0 {
            0
        } else {
            self.interleaved@.len() / (self.channels as nat)
        }
    }
}

impl<S: Copy> MixLegState<S> {
    /// An empty leg. Rate conversion is needed exactly when the rates differ.
    pub fn new(channels: u16, source_rate: u32, target_rate: u32, zero: S) -> (leg: Self)
        ensures
            leg.well_formed(),
            leg.channels == channels,
            leg.resampling == (source_rate != target_rate),
            leg.interleaved@.len() == 0,
            leg.zero == zero,
            forall|ch: int|
                0 <= ch < channels ==> (#[trigger] leg.pending_planar@[ch])@.len() == 0,
    {
        let mut pending_planar: Vec<VecDeque<S>> = Vec::new();
        let mut ch: u16 = 0;
        while ch < channels
            invariant
                ch <= channels,
                pending_planar@.len() == ch,
                forall|k: int| 0 <= k < ch ==> (#[trigger] pending_planar@[k])@.len() == 0,
            decreases channels - ch,
        {
            pending_planar.push(VecDeque::new());
            ch = ch + 1;
        }
        MixLegState {
            channels: channels as usize,
            resampling: source_rate != target_rate,
            pending_planar,
            interleaved: VecDeque::new(),
            zero,
        }
    }

    /// The frames that wait for mixing.
    pub fn frames_ready(&self) -> (n: usize)
        ensures
            n == self.ready(),
    {
        if self.channels == 0 {
            0
        } else {
            self.interleaved.len() / self.channels
        }
    }

    /// Takes `frames` frames from the front of what waits for mixing; what is missing is
    /// silence.
    pub fn pop_frames(&mut self, frames: usize) -> (out: Vec<S>)
        requires
            frames * old(self).channels <= usize::MAX,
        ensures
            out@ == popped(
                old(self).interleaved@,
                (frames * old(self).channels) as nat,
                old(self).zero,
            ),
            final(self).interleaved@ == left_over(
                old(self).interleaved@,
                (frames * old(self).channels) as nat,
            ),
            final(self).channels == old(self).channels,
            final(self).resampling == old(self).resampling,
            final(self).pending_planar == old(self).pending_planar,
            final(self).zero == old(self).zero,
    {
        let n: usize = frames * self.channels;
        let ghost queue = self.interleaved@;
        let mut out: Vec<S> = Vec::new();
        let mut i: usize = 0;
        assert(left_over(queue, 0) =~= queue);
        while i < n
            invariant
                i <= n,
                out@ == popped(queue, i as nat, self.zero),
                self.interleaved@ == left_over(queue, i as nat),
                self.channels == old(self).channels,
                self.resampling == old(self).resampling,
                self.pending_planar == old(self).pending_planar,
                self.zero == old(self).zero,
            decreases n - i,
        {
            match self.interleaved.pop_front() {
                Some(s) => {
                    out.push(s);
                },
                None => {
                    out.push(self.zero);
                },
            }
            i = i + 1;
            assert(out@ =~= popped(queue, i as nat, self.zero));
            assert(self.interleaved@ =~= left_over(queue, i as nat));
        }
        out
    }
}

/// The contents of planar channels.
pub open spec fn planes<S>(planar: Seq<Vec<S>>) -> Seq<Seq<S>> {
    planar.map_values(|p: Vec<S>| p@)
}

/// Every waiting queue is longer by its channel's share of the first `n` samples of `data`.
pub open spec fn spread<S>(
    before: Seq<VecDeque<S>>,
    after: Seq<VecDeque<S>>,
    data: Seq<S>,
    n: int,
) -> bool {
    &&& after.len() == before.len()
    &&& forall|c: int|
        #![trigger after[c]]
        0 <= c < before.len() ==> after[c]@ == before[c]@ + channel_of(
            data,
            n,
            before.len() as int,
            c,
        )
}

proof fn lemma_channel_share<S>(data: Seq<S>, n: int, channels: int, ch: int)
    requires
        0 <= n <= data.len(),
        0 <= ch < channels,
    ensures
        channel_of(data, n, channels, ch).len() > 0 ==> (channel_of(data, n, channels, ch).len()
            - 1) * channels + ch < n,
        channel_of(data, n, channels, ch).len() * channels + ch >= n,
    decreases n,
{
    assert(0 * channels == 0) by (nonlinear_arith);
    if n > 0 {
        lemma_channel_share(data, n - 1, channels, ch);
        lemma_next_place(channel_of(data, n - 1, channels, ch).len(), n, channels, ch);
        let l = channel_of(data, n - 1, channels, ch).len() as int;
        assert((l + 1) * channels == l * channels + channels) by (nonlinear_arith);
        if (n - 1) % channels == ch {
            assert(channel_of(data, n, channels, ch).len() == l + 1);
        }
    }
}

proof fn lemma_next_place(l: nat, n: int, channels: int, ch: int)
    requires
        n > 0,
        0 <= ch < channels,
        l > 0 ==> (l - 1) * channels + ch < n - 1,
        l * channels + ch >= n - 1,
    ensures
        (n - 1) % channels == ch <==> n - 1 == l * channels + ch,
{
    let q = (n - 1) / channels;
    let r = (n - 1) % channels;
    assert(n - 1 == q * channels + r && 0 <= r < channels && q >= 0) by (nonlinear_arith)
        requires
            channels > 0,
            n > 0,
            q == (n - 1) / channels,
            r == (n - 1) % channels,
    ;
    if r == ch {
        assert(q == l) by (nonlinear_arith)
            requires
                q * channels + ch == n - 1,
                l * channels + ch >= n - 1,
                l > 0 ==> (l - 1) * channels + ch < n - 1,
                l >= 0,
                q >= 0,
                channels > 0,
        ;
    } else {
        assert(l * channels + ch != n - 1) by (nonlinear_arith)
            requires
                n - 1 == q * channels + r,
                0 <= r < channels,
                r != ch,
                0 <= ch < channels,
        ;
    }
}

proof fn lemma_channel_place<S>(data: Seq<S>, n: int, channels: int, ch: int, f: int)
    requires
        0 <= n <= data.len(),
        0 <= ch < channels,
        0 <= f < channel_of(data, n, channels, ch).len(),
    ensures
        channel_of(data, n, channels, ch)[f] == data[f * channels + ch],
    decreases n,
{
    let prior = channel_of(data, n - 1, channels, ch);
    lemma_channel_share(data, n - 1, channels, ch);
    lemma_next_place(prior.len(), n, channels, ch);
    if f < prior.len() {
        lemma_channel_place(data, n - 1, channels, ch, f);
    }
}

/// Samples are dealt out to the channels in turn: what a channel's queue gains of a block is the
/// block's samples at the places of that channel, one of each frame, in order, and no others;
/// what the queue held before stays in front.
pub proof fn samples_are_dealt_out_in_turn<S>(
    before: Seq<VecDeque<S>>,
    after: Seq<VecDeque<S>>,
    data: Seq<S>,
    ch: int,
)
    requires
        spread(before, after, data, data.len() as int),
        0 <= ch < before.len(),
    ensures
        after.len() == before.len(),
        after[ch]@.len() >= before[ch]@.len(),
        after[ch]@.take(before[ch]@.len() as int) == before[ch]@,
        ({
            let channels = before.len() as int;
            let gained = after[ch]@.len() - before[ch]@.len();
            &&& gained > 0 ==> (gained - 1) * channels + ch < data.len()
            &&& gained * channels + ch >= data.len()
            &&& forall|f: int|
                0 <= f < gained ==> #[trigger] after[ch]@[before[ch]@.len() + f] == data[f
                    * channels + ch]
        }),
{
    let channels = before.len() as int;
    let share = channel_of(data, data.len() as int, channels, ch);
    lemma_channel_share(data, data.len() as int, channels, ch);
    assert(after[ch]@ == before[ch]@ + share);
    assert(after[ch]@.take(before[ch]@.len() as int) =~= before[ch]@);
    assert forall|f: int| 0 <= f < share.len() implies #[trigger] after[ch]@[before[ch]@.len() + f]
        == data[f * channels + ch] by {
        lemma_channel_place(data, data.len() as int, channels, ch, f);
        assert(after[ch]@[before[ch]@.len() + f] == share[f]);
    }
}

/// Dealing out undoes interleaving: when a block of whole frames is spread over empty queues, each
/// channel's queue holds that channel's sample of every frame, and interleaving the queues gives
/// the block back.
pub proof fn spreading_undoes_interleaving<S>(
    before: Seq<VecDeque<S>>,
    after: Seq<VecDeque<S>>,
    data: Seq<S>,
    frames: nat,
    zero: S,
)
    requires
        spread(before, after, data, data.len() as int),
        before.len() > 0,
        forall|c: int| 0 <= c < before.len() ==> (#[trigger] before[c])@.len() == 0,
        data.len() == frames * before.len(),
    ensures
        after.len() == before.len(),
        forall|c: int|
            0 <= c < before.len() ==> (#[trigger] after[c])@ == Seq::new(
                frames,
                |f: int| data[f * before.len() + c],
            ),
        interleave(after.map_values(|q: VecDeque<S>| q@), frames, before.len(), zero) == data,
{
    let channels = before.len() as int;
    assert forall|c: int| 0 <= c < before.len() implies (#[trigger] after[c])@ == Seq::new(
        frames,
        |f: int| data[f * before.len() + c],
    ) by {
        assert(before[c]@.len() == 0);
        samples_are_dealt_out_in_turn(before, after, data, c);
        let l = after[c]@.len() as int;
        assert(l == frames) by (nonlinear_arith)
            requires
                l > 0 ==> (l - 1) * channels + c < frames * channels,
                l * channels + c >= frames * channels,
                0 <= c < channels,
                l >= 0,
        ;
        assert forall|f: int| 0 <= f < frames implies after[c]@[f] == data[f * channels + c] by {
            assert(after[c]@[before[c]@.len() + f] == data[f * channels + c]);
        }
        assert(after[c]@ =~= Seq::new(frames, |f: int| data[f * before.len() + c]));
    }
    let queues = after.map_values(|q: VecDeque<S>| q@);
    let all = interleave(queues, frames, before.len(), zero);
    assert forall|i: int| 0 <= i < data.len() implies all[i] == data[i] by {
        let c = i % channels;
        let f = i / channels;
        assert(0 <= c < channels && i == f * channels + c && 0 <= f < frames) by (nonlinear_arith)
            requires
                0 <= i < frames * channels,
                channels > 0,
                c == i % channels,
                f == i / channels,
        ;
        assert(queues[c] == after[c]@);
        assert(after[c]@[f] == data[f * channels + c]);
    }
    assert(all =~= data);
}

/// Every waiting queue lost its first `n` samples.
pub open spec fn advanced<S>(before: Seq<VecDeque<S>>, after: Seq<VecDeque<S>>, n: int) -> bool {
    &&& after.len() == before.len()
    &&& forall|c: int|
        #![trigger after[c]]
        #![trigger before[c]]
        0 <= c < before.len() ==> n <= before[c]@.len() && after[c]@ == before[c]@.skip(n)
}

proof fn lemma_advanced_twice<S>(
    first: Seq<VecDeque<S>>,
    second: Seq<VecDeque<S>>,
    third: Seq<VecDeque<S>>,
    n: int,
    m: int,
)
    requires
        advanced(first, second, n),
        advanced(second, third, m),
        n >= 0,
        m >= 0,
    ensures
        advanced(first, third, n + m),
{
    assert forall|c: int|
        #![trigger third[c]]
        #![trigger first[c]]
        0 <= c < first.len() implies n + m <= first[c]@.len() && third[c]@ == first[c]@.skip(
        n + m,
    ) by {
        assert(second[c]@ == first[c]@.skip(n));
        assert(third[c]@ == second[c]@.skip(m));
        assert(first[c]@.skip(n).skip(m) =~= first[c]@.skip(n + m));
    }
}

/// One sample of an interleaving.
pub proof fn lemma_interleave_step<S>(
    planar: Seq<Seq<S>>,
    frames: nat,
    channels: nat,
    zero: S,
    frame: int,
    ch: int,
)
    requires
        channels > 0,
        0 <= frame < frames,
        0 <= ch < channels,
    ensures
        0 <= frame * channels + ch < frames * channels,
        interleave(planar, frames, channels, zero)[frame * channels + ch] == if ch < planar.len()
            && frame < planar[ch].len() {
            planar[ch][frame]
        } else {
            zero
        },
{
    let i = frame * channels + ch;
    assert(0 <= i < frames * channels) by (nonlinear_arith)
        requires
            i == frame * channels + ch,
            0 <= frame < frames,
            0 <= ch < channels,
    ;
    vstd::arithmetic::div_mod::lemma_fundamental_div_mod_converse(i, channels as int, frame, ch);
}

impl<S: Copy> MixLegState<S> {
    /// Takes the next chunk of `needed` frames per channel from what waits for conversion.
    pub fn take_chunk(&mut self, needed: usize) -> (chunk: Vec<Vec<S>>)
        requires
            old(self).well_formed(),
            forall|c: int|
                0 <= c < old(self).channels ==> (#[trigger] old(self).pending_planar@[c])@.len()
                    >= needed,
        ensures
            chunk@.len() == old(self).channels,
            forall|c: int|
                #![trigger chunk@[c]]
                0 <= c < old(self).channels ==> chunk@[c]@ == old(self).pending_planar@[c]@.take(
                    needed as int,
                ),
            advanced(old(self).pending_planar@, final(self).pending_planar@, needed as int),
            final(self).channels == old(self).channels,
            final(self).resampling == old(self).resampling,
            final(self).interleaved == old(self).interleaved,
            final(self).zero == old(self).zero,
            final(self).well_formed(),
    {
        let ghost before = self.pending_planar@;
        let mut chunk: Vec<Vec<S>> = Vec::new();
        let mut ch: usize = 0;
        while ch < self.channels
            invariant
                ch <= self.channels,
                self.channels == old(self).channels,
                self.resampling == old(self).resampling,
                self.interleaved == old(self).interleaved,
                self.zero == old(self).zero,
                self.pending_planar@.len() == self.channels,
                before.len() == self.channels,
                before == old(self).pending_planar@,
                chunk@.len() == ch,
                forall|c: int|
                    0 <= c < self.channels ==> (#[trigger] before[c])@.len() >= needed,
                forall|c: int|
                    #![trigger chunk@[c]]
                    0 <= c < ch ==> chunk@[c]@ == before[c]@.take(needed as int),
                forall|c: int|
                    #![trigger self.pending_planar@[c]]
                    0 <= c < ch ==> self.pending_planar@[c]@ == before[c]@.skip(needed as int),
                forall|c: int|
                    ch <= c < self.channels ==> #[trigger] self.pending_planar@[c] == before[c],
            decreases self.channels - ch,
        {
            let ghost queue = before[ch as int]@;
            let mut plane: Vec<S> = Vec::new();
            let mut k: usize = 0;
            assert(queue.skip(0) =~= queue);
            assert(self.pending_planar@[ch as int]@ == queue);
            while k < needed
                invariant
                    k <= needed,
                    ch < self.channels,
                    self.channels == old(self).channels,
                    self.resampling == old(self).resampling,
                    self.interleaved == old(self).interleaved,
                    self.zero == old(self).zero,
                    self.pending_planar@.len() == self.channels,
                    needed <= queue.len(),
                    plane@ == queue.take(k as int),
                    self.pending_planar@[ch as int]@ == queue.skip(k as int),
                    forall|c: int|
                        #![trigger self.pending_planar@[c]]
                        0 <= c < ch ==> self.pending_planar@[c]@ == before[c]@.skip(needed as int),
                    forall|c: int|
                        ch < c < self.channels ==> #[trigger] self.pending_planar@[c] == before[c],
                decreases needed - k,
            {
                match self.pending_planar[ch].pop_front() {
                    Some(s) => {
                        plane.push(s);
                    },
                    None => {
                        assert(false);
                    },
                }
                k = k + 1;
                assert(plane@ =~= queue.take(k as int));
                assert(self.pending_planar@[ch as int]@ =~= queue.skip(k as int));
            }
            chunk.push(plane);
            ch = ch + 1;
        }
        chunk
    }

    /// Adds the first `frames` frames of converted channels to what waits for mixing.
    pub fn append_converted(&mut self, planar: &Vec<Vec<S>>, frames: usize)
        requires
            old(self).channels > 0,
        ensures
            final(self).interleaved@ == old(self).interleaved@ + interleave(
                planes(planar@),
                frames as nat,
                old(self).channels as nat,
                old(self).zero,
            ),
            final(self).channels == old(self).channels,
            final(self).resampling == old(self).resampling,
            final(self).pending_planar == old(self).pending_planar,
            final(self).zero == old(self).zero,
    {
        let ghost start = self.interleaved@;
        let ghost views = planes(planar@);
        let ghost channels = self.channels as nat;
        let ghost all = interleave(views, frames as nat, channels, self.zero);
        let mut frame: usize = 0;
        assert(0 * channels == 0) by (nonlinear_arith);
        assert(start =~= start + all.take(0));
        while frame < frames
            invariant
                frame <= frames,
                self.channels == channels,
                channels > 0,
                self.channels == old(self).channels,
                self.resampling == old(self).resampling,
                self.pending_planar == old(self).pending_planar,
                self.zero == old(self).zero,
                views == planes(planar@),
                all == interleave(views, frames as nat, channels, self.zero),
                self.interleaved@ == start + all.take(frame * channels),
            decreases frames - frame,
        {
            let mut ch: usize = 0;
            while ch < self.channels
                invariant
                    frame < frames,
                    ch <= self.channels,
                    self.channels == channels,
                    channels > 0,
                    self.channels == old(self).channels,
                    self.resampling == old(self).resampling,
                    self.pending_planar == old(self).pending_planar,
                    self.zero == old(self).zero,
                    views == planes(planar@),
                    all == interleave(views, frames as nat, channels, self.zero),
                    self.interleaved@ == start + all.take(frame * channels + ch),
                decreases self.channels - ch,
            {
                proof {
                    lemma_interleave_step(
                        views,
                        frames as nat,
                        channels,
                        self.zero,
                        frame as int,
                        ch as int,
                    );
                }
                let s = if ch < planar.len() && frame < planar[ch].len() {
                    planar[ch][frame]
                } else {
                    self.zero
                };
                assert(s == all[frame * channels + ch]);
                self.interleaved.push_back(s);
                assert(self.interleaved@ =~= start + all.take(frame * channels + ch + 1));
                ch = ch + 1;
            }
            assert((frame + 1) * channels == frame * channels + channels) by (nonlinear_arith);
            frame = frame + 1;
        }
        assert(all.take(frames * channels) =~= all);
    }

    /// Distributes interleaved samples over the waiting queues of their channels.
    pub fn spread_samples(&mut self, data: &Vec<S>)
        requires
            old(self).well_formed(),
            old(self).channels > 0,
        ensures
            spread(
                old(self).pending_planar@,
                final(self).pending_planar@,
                data@,
                data@.len() as int,
            ),
            final(self).channels == old(self).channels,
            final(self).resampling == old(self).resampling,
            final(self).interleaved == old(self).interleaved,
            final(self).zero == old(self).zero,
            final(self).well_formed(),
    {
        let ghost before = self.pending_planar@;
        let mut i: usize = 0;
        assert forall|c: int| 0 <= c < before.len() implies #[trigger] before[c]@ == before[c]@
            + channel_of(data@, 0, before.len() as int, c) by {
            assert(before[c]@ + channel_of(data@, 0, before.len() as int, c) =~= before[c]@);
        }
        while i < data.len()
            invariant
                i <= data@.len(),
                self.channels > 0,
                self.channels == old(self).channels,
                self.resampling == old(self).resampling,
                self.interleaved == old(self).interleaved,
                self.zero == old(self).zero,
                self.pending_planar@.len() == self.channels,
                before.len() == self.channels,
                spread(before, self.pending_planar@, data@, i as int),
            decreases data@.len() - i,
        {
            let ch: usize = i % self.channels;
            let ghost prior = self.pending_planar@;
            self.pending_planar[ch].push_back(data[i]);
            proof {
                let m = self.channels as int;
                assert forall|c: int| 0 <= c < before.len() implies (
                #[trigger] self.pending_planar@[c])@ == before[c]@ + channel_of(
                    data@,
                    i + 1,
                    m,
                    c,
                ) by {
                    assert(prior[c]@ == before[c]@ + channel_of(data@, i as int, m, c));
                    if c == ch {
                        assert(self.pending_planar@[c]@ =~= before[c]@ + channel_of(
                            data@,
                            i + 1,
                            m,
                            c,
                        ));
                    } else {
                        assert(self.pending_planar@[c] == prior[c]);
                    }
                }
            }
            i = i + 1;
        }
    }

    /// Whether every channel has `needed` samples waiting.
    fn chunk_waits(&self, needed: usize) -> (r: bool)
        requires
            self.well_formed(),
        ensures
            r == (forall|c: int|
                0 <= c < self.channels ==> (#[trigger] self.pending_planar@[c])@.len() >= needed),
    {
        let mut ch: usize = 0;
        while ch < self.pending_planar.len()
            invariant
                ch <= self.pending_planar@.len(),
                self.well_formed(),
                forall|c: int|
                    0 <= c < ch ==> (#[trigger] self.pending_planar@[c])@.len() >= needed,
            decreases self.pending_planar@.len() - ch,
        {
            if self.pending_planar[ch].len() < needed {
                assert(!(self.pending_planar@[ch as int]@.len() >= needed));
                return false;
            }
            ch = ch + 1;
        }
        true
    }

    /// Takes in one captured block of a leg whose rate is the bus rate.
    pub fn ingest_direct(&mut self, buf: &AudioBuffer<S>)
        ensures
            final(self).interleaved@ == old(self).interleaved@ + buf.samples(),
            final(self).channels == old(self).channels,
            final(self).resampling == old(self).resampling,
            final(self).pending_planar == old(self).pending_planar,
            final(self).zero == old(self).zero,
    {
        let ghost start = self.interleaved@;
        let mut i: usize = 0;
        assert(start =~= start + buf.samples().take(0));
        while i < buf.data.len()
            invariant
                i <= buf.samples().len(),
                self.interleaved@ == start + buf.samples().take(i as int),
                self.channels == old(self).channels,
                self.resampling == old(self).resampling,
                self.pending_planar == old(self).pending_planar,
                self.zero == old(self).zero,
            decreases buf.samples().len() - i,
        {
            self.interleaved.push_back(buf.data[i]);
            i = i + 1;
            assert(self.interleaved@ =~= start + buf.samples().take(i as int));
        }
        assert(buf.samples().take(buf.samples().len() as int) =~= buf.samples());
    }

    /// Takes in one captured block: through `resampler` where there is one, chunk by chunk as
    /// long as every channel has a whole chunk waiting; as it is where there is none. A chunk
    /// whose conversion fails is lost and ends the round. Gives back the resampler for the next
    /// block.
    pub fn ingest<R: LegResampler<S>>(&mut self, buf: &AudioBuffer<S>, resampler: Option<R>) -> (next:
        Option<R>)
        requires
            old(self).well_formed(),
            resampler is Some ==> old(self).channels > 0,
        ensures
            final(self).well_formed(),
            final(self).channels == old(self).channels,
            final(self).resampling == old(self).resampling,
            final(self).zero == old(self).zero,
            takes_block(*old(self), *final(self), resampler, next, buf.samples()),
    {
        match resampler {
            Some(first) => {
                let ghost before = *self;
                let mut rs = first;
                let ghost mut stages: Seq<R> = seq![rs];
                self.spread_samples(&*buf.data);
                let needed: usize = rs.input_frames_next();
                let ghost waiting = self.pending_planar@;
                let ghost mut chunks: Seq<Converted<S>> = Seq::empty();
                let ghost mut failed = false;
                let ghost mut taken: nat = 0;
                assert(call_ensures(R::input_frames_next, (&first,), needed));
                assert(self.interleaved@ =~= before.interleaved@ + interleave_all(
                    chunks,
                    self.channels as nat,
                    self.zero,
                ));
                assert forall|c: int| 0 <= c < waiting.len() implies (#[trigger] waiting[c])@
                    == waiting[c]@.skip(0) by {
                    assert(waiting[c]@.skip(0) =~= waiting[c]@);
                }
                assert(0 * needed == 0) by (nonlinear_arith);
                let mut more = needed > 0 && self.chunk_waits(needed);
                while more
                    invariant
                        self.well_formed(),
                        self.channels > 0,
                        self.channels == before.channels,
                        self.resampling == before.resampling,
                        self.zero == before.zero,
                        waiting.len() == self.channels,
                        more ==> needed > 0 && !failed,
                        more ==> forall|c: int|
                            0 <= c < self.channels ==> (#[trigger] self.pending_planar@[c])@.len()
                                >= needed,
                        !more && !failed && needed > 0 ==> exists|c: int|
                            0 <= c < self.channels && (#[trigger] self.pending_planar@[c])@.len()
                                < needed,
                        taken == chunks.len() + if failed {
                            1nat
                        } else {
                            0nat
                        },
                        advanced(waiting, self.pending_planar@, taken * needed),
                        stages.len() == taken + 1,
                        stages[0] == first,
                        stages.last() == rs,
                        forall|k: int|
                            0 <= k < chunks.len() ==> is_conversion(
                                stages[k],
                                stages[k + 1],
                                waiting,
                                k,
                                needed,
                                #[trigger] chunks[k],
                            ),
                        failed ==> converter_answers(
                            stages[chunks.len() as int],
                            rs,
                            waiting,
                            chunks.len() as int,
                            needed,
                            None,
                        ),
                        self.interleaved@ == before.interleaved@ + interleave_all(
                            chunks,
                            self.channels as nat,
                            self.zero,
                        ),
                    decreases self.pending_planar@[0]@.len(),
                {
                    let ghost prior = self.pending_planar@;
                    let ghost queued = self.interleaved@;
                    let chunk = self.take_chunk(needed);
                    proof {
                        let from: int = taken * needed;
                        let to: int = from + needed;
                        assert((taken + 1) * needed == to) by (nonlinear_arith)
                            requires
                                to == taken * needed + needed,
                        ;
                        lemma_advanced_twice(
                            waiting,
                            prior,
                            self.pending_planar@,
                            from,
                            needed as int,
                        );
                        assert(self.pending_planar@[0]@.len() < prior[0]@.len());
                        assert(is_chunk(waiting, chunk@, taken as int, needed)) by {
                            assert forall|c: int| 0 <= c < chunk@.len() implies (
                            #[trigger] chunk@[c])@ == waiting[c]@.subrange(from, to) by {
                                assert(prior[c]@.len() >= needed);
                                assert(prior[c]@ == waiting[c]@.skip(from));
                                assert(chunk@[c]@ =~= waiting[c]@.subrange(from, to));
                            }
                        }
                        taken = taken + 1;
                        assert(advanced(waiting, self.pending_planar@, taken * needed));
                    }
                    let ghost asked = rs;
                    let ghost earlier = stages;
                    let (answer, turned) = rs.process(&chunk);
                    rs = turned;
                    proof {
                        assert(call_ensures(R::process, (asked, &chunk), (answer, rs)));
                        stages = stages.push(rs);
                        assert forall|k: int| 0 <= k < chunks.len() implies is_conversion(
                            stages[k],
                            stages[k + 1],
                            waiting,
                            k,
                            needed,
                            #[trigger] chunks[k],
                        ) by {
                            assert(stages[k] == earlier[k] && stages[k + 1] == earlier[k + 1]);
                        }
                    }
                    match answer {
                        Some((out, written)) => {
                            assert(converter_answers(
                                asked,
                                rs,
                                waiting,
                                chunks.len() as int,
                                needed,
                                Some((out, written)),
                            ));
                            self.append_converted(&out, written);
                            proof {
                                let c = (planes(out@), written as nat);
                                assert(chunks.push(c).drop_last() =~= chunks);
                                chunks = chunks.push(c);
                                assert(self.interleaved@ =~= before.interleaved@ + interleave_all(
                                    chunks,
                                    self.channels as nat,
                                    self.zero,
                                ));
                            }
                            more = self.chunk_waits(needed);
                        },
                        None => {
                            proof {
                                failed = true;
                            }
                            more = false;
                        },
                    }
                }
                proof {
                    let round = ResampleRound { needed, chunks, failed, stages };
                    assert(resampled(before, *self, first, rs, buf.samples(), round));
                    assert(converts_block(before, *self, first, rs, buf.samples()));
                }
                Some(rs)
            },
            None => {
                self.ingest_direct(buf);
                None
            },
        }
    }
}

/// One round of rate conversion.
pub struct ResampleRound<S, R> {
    /// The frames per channel that each chunk holds.
    pub needed: usize,
    /// What the chunks were converted to.
    pub chunks: Seq<Converted<S>>,
    /// Whether the last chunk taken could not be converted.
    pub failed: bool,
    /// The converter before each chunk taken, and after the last.
    pub stages: Seq<R>,
}

/// `chunk` is the chunk number `k` of what waits in each channel.
pub open spec fn is_chunk<S>(
    waiting: Seq<VecDeque<S>>,
    chunk: Seq<Vec<S>>,
    k: int,
    needed: usize,
) -> bool {
    &&& chunk.len() == waiting.len()
    &&& forall|c: int|
        0 <= c < chunk.len() ==> (#[trigger] chunk[c])@ == waiting[c]@.subrange(
            k * needed,
            (k + 1) * needed,
        )
}

/// `answer` is what the converter says to the chunk number `k` of what waits, and `next` is the
/// converter afterwards.
pub open spec fn converter_answers<S, R: LegResampler<S>>(
    rs: R,
    next: R,
    waiting: Seq<VecDeque<S>>,
    k: int,
    needed: usize,
    answer: Option<(Vec<Vec<S>>, usize)>,
) -> bool {
    exists|chunk: Vec<Vec<S>>|
        {
            &&& is_chunk(waiting, chunk@, k, needed)
            &&& #[trigger] call_ensures(R::process, (rs, &chunk), (answer, next))
        }
}

/// `converted` is what became of the chunk number `k` of what waits.
pub open spec fn is_conversion<S, R: LegResampler<S>>(
    rs: R,
    next: R,
    waiting: Seq<VecDeque<S>>,
    k: int,
    needed: usize,
    converted: Converted<S>,
) -> bool {
    exists|out: Vec<Vec<S>>, written: usize|
        {
            &&& #[trigger] converter_answers(rs, next, waiting, k, needed, Some((out, written)))
            &&& converted == (planes(out@), written as nat)
        }
}

/// What taking in a block does to a leg whose blocks are converted.
pub open spec fn converts_block<S, R: LegResampler<S>>(
    before: MixLegState<S>,
    after: MixLegState<S>,
    rs: R,
    next: R,
    data: Seq<S>,
) -> bool {
    exists|round: ResampleRound<S, R>| #[trigger] resampled(before, after, rs, next, data, round)
}

/// What taking in a block does to a leg: it goes through the converter where there is one, and is
/// queued for mixing as it is where there is none.
pub open spec fn takes_block<S, R: LegResampler<S>>(
    before: MixLegState<S>,
    after: MixLegState<S>,
    resampler: Option<R>,
    next: Option<R>,
    data: Seq<S>,
) -> bool {
    match (resampler, next) {
        (Some(rs), Some(turned)) => converts_block(before, after, rs, turned, data),
        (None, None) => after.interleaved@ == before.interleaved@ + data && after.pending_planar
            == before.pending_planar,
        _ => false,
    }
}

/// What a round does to a leg: the block is spread over the channels; as many whole chunks as
/// every channel can give are taken, unless one fails; the conversions are queued for mixing.
pub open spec fn resampled<S, R: LegResampler<S>>(
    before: MixLegState<S>,
    after: MixLegState<S>,
    rs: R,
    next: R,
    data: Seq<S>,
    round: ResampleRound<S, R>,
) -> bool {
    let taken = round.chunks.len() + if round.failed {
        1nat
    } else {
        0nat
    };
    // The converter is called once for each chunk, and goes from call to call.
    &&& round.stages.len() == taken + 1
    &&& round.stages[0] == rs
    &&& round.stages.last() == next
    &&& call_ensures(R::input_frames_next, (&rs,), round.needed)
    &&& after.interleaved@ == before.interleaved@ + interleave_all(
        round.chunks,
        before.channels as nat,
        before.zero,
    )
    &&& exists|waiting: Seq<VecDeque<S>>|
        {
            &&& #[trigger] spread(before.pending_planar@, waiting, data, data.len() as int)
            &&& advanced(waiting, after.pending_planar@, taken * round.needed)
            &&& forall|k: int|
                0 <= k < round.chunks.len() ==> is_conversion(
                    round.stages[k],
                    round.stages[k + 1],
                    waiting,
                    k,
                    round.needed,
                    #[trigger] round.chunks[k],
                )
            &&& round.failed ==> converter_answers(
                round.stages[round.chunks.len() as int],
                next,
                waiting,
                round.chunks.len() as int,
                round.needed,
                None,
            )
        }
    &&& !round.failed && round.needed > 0 ==> exists|c: int|
        0 <= c < after.channels && (#[trigger] after.pending_planar@[c])@.len() < round.needed
}

/// The first `n` samples of `queue`, filled up with `zero`.
pub open spec fn popped<S>(queue: Seq<S>, n: nat, zero: S) -> Seq<S> {
    Seq::new(
        n,
        |i: int|
            if i < queue.len() {
                queue[i]
            } else {
                zero
            },
    )
}

/// What is left of `queue` after taking `n` samples.
pub open spec fn left_over<S>(queue: Seq<S>, n: nat) -> Seq<S> {
    if n <= queue.len() {
        queue.skip(n as int)
    } else {
        Seq::empty()
    }
}

/// Taking frames loses nothing and invents nothing: what was taken without the filling, then
/// what is left, is what was there.
pub proof fn popping_conserves_samples<S>(queue: Seq<S>, n: nat, zero: S)
    ensures
        n <= queue.len() ==> popped(queue, n, zero) + left_over(queue, n) == queue,
        n > queue.len() ==> popped(queue, n, zero).take(queue.len() as int) == queue && left_over(
            queue,
            n,
        ).len() == 0,
{
    if n <= queue.len() {
        assert(popped(queue, n, zero) + left_over(queue, n) =~= queue);
    } else {
        assert(popped(queue, n, zero).take(queue.len() as int) =~= queue);
    }
}

/// The frames to put out next: with all legs finished, the most that any of them still holds;
/// with every live leg holding something, the least of those; with only some live legs holding
/// something, the most of those. Never more than a block.
pub open spec fn emit_frames(have: Seq<usize>, done: Seq<bool>) -> nat {
    let n = have.len() as int;
    if forall|i: int| 0 <= i < n ==> #[trigger] done[i] {
        capped(max_where(have, |i: int| true, n))
    } else if forall|i: int| 0 <= i < n && !done[i] ==> #[trigger] have[i] > 0 {
        capped(min_where(have, |i: int| !done[i], n))
    } else {
        capped(max_where(have, |i: int| !done[i], n))
    }
}

/// At most a block.
pub open spec fn capped(n: nat) -> nat {
    if n <= BLOCK_SIZE {
        n
    } else {
        BLOCK_SIZE as nat
    }
}

/// The largest of the first `n` entries that `pick` chooses, or zero.
pub open spec fn max_where(have: Seq<usize>, pick: spec_fn(int) -> bool, n: int) -> nat
    decreases n,
{
    if n <= 0 {
        0
    } else {
        let rest = max_where(have, pick, n - 1);
        if pick(n - 1) && have[n - 1] > rest {
            have[n - 1] as nat
        } else {
            rest
        }
    }
}

/// The smallest of the first `n` entries that `pick` chooses, or the largest `usize` if it
/// chooses none.
pub open spec fn min_where(have: Seq<usize>, pick: spec_fn(int) -> bool, n: int) -> nat
    decreases n,
{
    if n <= 0 {
        usize::MAX as nat
    } else {
        let rest = min_where(have, pick, n - 1);
        if pick(n - 1) && have[n - 1] < rest {
            have[n - 1] as nat
        } else {
            rest
        }
    }
}

proof fn lemma_max_where(have: Seq<usize>, pick: spec_fn(int) -> bool, n: int)
    requires
        0 <= n <= have.len(),
    ensures
        forall|i: int| 0 <= i < n && pick(i) ==> #[trigger] have[i] <= max_where(have, pick, n),
        max_where(have, pick, n) > 0 ==> exists|i: int|
            0 <= i < n && pick(i) && #[trigger] have[i] == max_where(have, pick, n),
    decreases n,
{
    if n > 0 {
        lemma_max_where(have, pick, n - 1);
        if max_where(have, pick, n) > 0 && max_where(have, pick, n) != max_where(
            have,
            pick,
            n - 1,
        ) {
            assert(have[n - 1] == max_where(have, pick, n));
        }
    }
}

proof fn lemma_min_where(have: Seq<usize>, pick: spec_fn(int) -> bool, n: int)
    requires
        0 <= n <= have.len(),
    ensures
        forall|i: int| 0 <= i < n && pick(i) ==> #[trigger] have[i] >= min_where(have, pick, n),
        min_where(have, pick, n) < usize::MAX ==> exists|i: int|
            0 <= i < n && pick(i) && #[trigger] have[i] == min_where(have, pick, n),
    decreases n,
{
    if n > 0 {
        lemma_min_where(have, pick, n - 1);
        if min_where(have, pick, n) != min_where(have, pick, n - 1) {
            assert(have[n - 1] == min_where(have, pick, n));
        }
    }
}

fn at_most_block(n: usize) -> (r: usize)
    ensures
        r == capped(n as nat),
{
    if n <= BLOCK_SIZE {
        n
    } else {
        BLOCK_SIZE
    }
}

/// See [`emit_frames`].
pub fn compute_emit_frames(have: &[usize], done: &[bool]) -> (frames: usize)
    requires
        have@.len() == done@.len(),
    ensures
        frames == emit_frames(have@, done@),
{
    let ghost all = |i: int| true;
    let ghost live = |i: int| !done@[i];
    let mut any_live = false;
    let mut starving = false;
    let mut max_all: usize = 0;
    let mut max_live: usize = 0;
    let mut min_live: usize = usize::MAX;
    let mut i: usize = 0;
    while i < have.len()
        invariant
            i <= have@.len(),
            have@.len() == done@.len(),
            all == (|i: int| true),
            live == (|i: int| !done@[i]),
            any_live == !(forall|k: int| 0 <= k < i ==> #[trigger] done@[k]),
            starving == !(forall|k: int| 0 <= k < i && !done@[k] ==> #[trigger] have@[k] > 0),
            max_all == max_where(have@, all, i as int),
            max_live == max_where(have@, live, i as int),
            min_live == min_where(have@, live, i as int),
        decreases have@.len() - i,
    {
        let h: usize = have[i];
        if h > max_all {
            max_all = h;
        }
        if !done[i] {
            any_live = true;
            assert(!done@[i as int]);
            if h == 0 {
                starving = true;
                assert(!(have@[i as int] > 0));
            }
            if h > max_live {
                max_live = h;
            }
            if h < min_live {
                min_live = h;
            }
        }
        i = i + 1;
    }
    if !any_live {
        at_most_block(max_all)
    } else if !starving {
        at_most_block(min_live)
    } else {
        at_most_block(max_live)
    }
}

/// A block is never longer than the block size, and never longer than what some leg holds; it
/// is empty only when no leg that counts holds anything.
pub proof fn emitted_blocks_are_backed(have: Seq<usize>, done: Seq<bool>)
    requires
        have.len() == done.len(),
    ensures
        emit_frames(have, done) <= BLOCK_SIZE,
        emit_frames(have, done) > 0 ==> exists|i: int|
            0 <= i < have.len() && #[trigger] have[i] >= emit_frames(have, done),
        // Finished legs are drained to the end.
        (forall|i: int| 0 <= i < done.len() ==> #[trigger] done[i]) && (exists|i: int|
            0 <= i < have.len() && #[trigger] have[i] > 0) ==> emit_frames(have, done) > 0,
        // A live leg with something to play is not held up.
        (exists|i: int| 0 <= i < have.len() && !done[i] && #[trigger] have[i] > 0) ==> emit_frames(
            have,
            done,
        ) > 0,
        // While every live leg has something, no live leg is filled up with silence.
        (forall|i: int| 0 <= i < have.len() && !done[i] ==> #[trigger] have[i] > 0) && (exists|
            i: int,
        |
            0 <= i < done.len() && !#[trigger] done[i]) ==> forall|i: int|
            0 <= i < have.len() && !done[i] ==> #[trigger] have[i] >= emit_frames(have, done),
{
    let n = have.len() as int;
    let all = |i: int| true;
    let live = |i: int| !done[i];
    lemma_max_where(have, all, n);
    lemma_max_where(have, live, n);
    lemma_min_where(have, live, n);
    if !(forall|i: int| 0 <= i < n ==> #[trigger] done[i]) {
        let k = choose|k: int| 0 <= k < n && !#[trigger] done[k];
        assert(live(k) && have[k] >= min_where(have, live, n));
    }
}

/// A converter that gives back every chunk as it is: it never fails, and puts out the planes it is
/// handed, each frame of them.
pub open spec fn is_faithful<S, R: LegResampler<S>>() -> bool {
    forall|rs: R, next: R, chunk: Vec<Vec<S>>, answer: Option<(Vec<Vec<S>>, usize)>| #[trigger]
        call_ensures(R::process, (rs, &chunk), (answer, next)) ==> (answer matches Some(
            (out, written),
        ) && planes(out@) == planes(chunk@) && (chunk@.len() > 0 ==> written
            == chunk@[0]@.len()))
}

proof fn lemma_faithful_chunk<S>(
    waiting: Seq<VecDeque<S>>,
    planar: Seq<Seq<S>>,
    data: Seq<S>,
    frames: nat,
    k: int,
    needed: nat,
    zero: S,
)
    requires
        waiting.len() > 0,
        data.len() == frames * waiting.len(),
        forall|c: int|
            0 <= c < waiting.len() ==> (#[trigger] waiting[c])@ == Seq::new(
                frames,
                |f: int| data[f * waiting.len() + c],
            ),
        planar.len() == waiting.len(),
        forall|c: int|
            0 <= c < waiting.len() ==> (#[trigger] planar[c]) == waiting[c]@.subrange(
                k * needed,
                (k + 1) * needed,
            ),
        0 <= k,
        (k + 1) * needed <= frames,
    ensures
        k * needed * waiting.len() <= (k + 1) * needed * waiting.len() <= data.len(),
        interleave(planar, needed, waiting.len(), zero) == data.subrange(
            k * needed * waiting.len(),
            (k + 1) * needed * waiting.len(),
        ),
{
    let channels = waiting.len();
    let from = k * needed;
    assert(0 <= from && (k + 1) * needed == from + needed) by (nonlinear_arith)
        requires
            k >= 0,
            from == k * needed,
    ;
    assert((from + needed) * channels == from * channels + needed * channels)
        by (nonlinear_arith);
    assert((from + needed) * channels <= frames * channels) by (nonlinear_arith)
        requires
            from + needed <= frames,
    ;
    assert(from * channels >= 0) by (nonlinear_arith)
        requires
            from >= 0,
    ;
    let all = interleave(planar, needed, channels, zero);
    let part = data.subrange(from * channels, (from + needed) * channels);
    assert forall|i: int| 0 <= i < all.len() implies all[i] == part[i] by {
        let c = i % channels as int;
        let f = i / channels as int;
        assert(0 <= c < channels && i == f * channels + c && 0 <= f < needed) by (nonlinear_arith)
            requires
                0 <= i < needed * channels,
                channels > 0,
                c == i % channels as int,
                f == i / channels as int,
        ;
        assert(planar[c] == waiting[c]@.subrange(from, from + needed));
        assert(planar[c][f] == data[(from + f) * channels + c]);
        assert((from + f) * channels == from * channels + f * channels) by (nonlinear_arith);
    }
    assert(all =~= part);
}

proof fn lemma_faithful_chunks<S>(
    waiting: Seq<VecDeque<S>>,
    chunks: Seq<Converted<S>>,
    data: Seq<S>,
    frames: nat,
    needed: nat,
    zero: S,
)
    requires
        waiting.len() > 0,
        data.len() == frames * waiting.len(),
        forall|c: int|
            0 <= c < waiting.len() ==> (#[trigger] waiting[c])@ == Seq::new(
                frames,
                |f: int| data[f * waiting.len() + c],
            ),
        chunks.len() * needed <= frames,
        forall|k: int|
            0 <= k < chunks.len() ==> (#[trigger] chunks[k]).1 == needed && chunks[k].0.len()
                == waiting.len(),
        forall|k: int, c: int|
            0 <= k < chunks.len() && 0 <= c < waiting.len() ==> #[trigger] chunks[k].0[c]
                == waiting[c]@.subrange(k * needed, (k + 1) * needed),
    ensures
        chunks.len() * needed * waiting.len() <= data.len(),
        interleave_all(chunks, waiting.len(), zero) == data.take(
            (chunks.len() * needed * waiting.len()) as int,
        ),
    decreases chunks.len(),
{
    let n = chunks.len();
    let channels = waiting.len();
    if n == 0 {
        assert(0nat * needed * channels == 0) by (nonlinear_arith);
        assert(data.take(0) =~= Seq::<S>::empty());
    } else {
        let k = n - 1;
        assert(n * needed == (k + 1) * needed && k * needed <= n * needed) by (nonlinear_arith)
            requires
                k == n - 1,
        ;
        lemma_faithful_chunks(waiting, chunks.drop_last(), data, frames, needed, zero);
        let planar = chunks[k].0;
        lemma_faithful_chunk(waiting, planar, data, frames, k, needed, zero);
        assert(interleave_all(chunks, channels, zero) =~= data.take(
            (n * needed * channels) as int,
        ));
    }
}

/// Rate conversion keeps samples in their order and channels: with a converter that gives back
/// every chunk as it is, a block of whole frames that comes to a leg with nothing waiting joins
/// the queue as it is, up to a last part too short for a chunk, which waits channel by channel.
pub proof fn a_faithful_conversion_changes_nothing<S, R: LegResampler<S>>(
    before: MixLegState<S>,
    after: MixLegState<S>,
    rs: R,
    next: R,
    data: Seq<S>,
    frames: nat,
)
    requires
        converts_block(before, after, rs, next, data),
        is_faithful::<S, R>(),
        before.pending_planar@.len() == before.channels,
        before.channels > 0,
        forall|c: int|
            0 <= c < before.channels ==> (#[trigger] before.pending_planar@[c])@.len() == 0,
        data.len() == frames * before.channels,
    ensures
        exists|played: nat, needed: usize|
            {
                &&& #[trigger] call_ensures(R::input_frames_next, (&rs,), needed)
                &&& played <= frames
                &&& after.interleaved@ == before.interleaved@ + data.take(
                    #[trigger] (played * before.channels),
                )
                &&& forall|c: int|
                    0 <= c < before.channels ==> (#[trigger] after.pending_planar@[c])@ == Seq::new(
                        (frames - played) as nat,
                        |f: int| data[(played + f) * before.channels + c],
                    )
                &&& needed > 0 && after.channels == before.channels ==> frames - played < needed
            },
{
    let round = choose|round: ResampleRound<S, R>| #[trigger]
        resampled(before, after, rs, next, data, round);
    let channels = before.channels as nat;
    let needed = round.needed as nat;
    let taken = round.chunks.len() + if round.failed {
        1nat
    } else {
        0nat
    };
    let waiting = choose|waiting: Seq<VecDeque<S>>|
        {
            &&& #[trigger] spread(before.pending_planar@, waiting, data, data.len() as int)
            &&& advanced(waiting, after.pending_planar@, taken * round.needed)
            &&& forall|k: int|
                0 <= k < round.chunks.len() ==> is_conversion(
                    round.stages[k],
                    round.stages[k + 1],
                    waiting,
                    k,
                    round.needed,
                    #[trigger] round.chunks[k],
                )
            &&& round.failed ==> converter_answers(
                round.stages[round.chunks.len() as int],
                next,
                waiting,
                round.chunks.len() as int,
                round.needed,
                None,
            )
        };
    spreading_undoes_interleaving(before.pending_planar@, waiting, data, frames, before.zero);
    assert(!round.failed);
    let played = (round.chunks.len() * needed) as nat;
    assert(waiting[0]@.len() == frames && after.pending_planar@[0]@ == waiting[0]@.skip(
        played as int,
    ));
    assert(played <= frames);
    assert forall|k: int| 0 <= k < round.chunks.len() implies (#[trigger] round.chunks[k]).1
        == needed && round.chunks[k].0.len() == channels && (forall|c: int|
        0 <= c < channels ==> #[trigger] round.chunks[k].0[c] == waiting[c]@.subrange(
            k * needed,
            (k + 1) * needed,
        )) by {
        lemma_faithful_answer(
            round.stages[k],
            round.stages[k + 1],
            waiting,
            k,
            round.needed,
            round.chunks[k],
            frames,
            round.chunks.len() as int,
        );
    }
    lemma_faithful_chunks(waiting, round.chunks, data, frames, needed, before.zero);
    assert(call_ensures(R::input_frames_next, (&rs,), round.needed));
    assert(played * before.channels == round.chunks.len() * needed * channels);
    assert forall|c: int| 0 <= c < before.channels implies (#[trigger] after.pending_planar@[c])@
        == Seq::new((frames - played) as nat, |f: int| data[(played + f) * before.channels + c]) by {
        assert(after.pending_planar@[c]@ == waiting[c]@.skip(played as int));
        assert(after.pending_planar@[c]@ =~= Seq::new(
            (frames - played) as nat,
            |f: int| data[(played + f) * before.channels + c],
        ));
    }
}

proof fn lemma_faithful_answer<S, R: LegResampler<S>>(
    rs: R,
    next: R,
    waiting: Seq<VecDeque<S>>,
    k: int,
    needed: usize,
    converted: Converted<S>,
    frames: nat,
    n: int,
)
    requires
        is_conversion(rs, next, waiting, k, needed, converted),
        is_faithful::<S, R>(),
        waiting.len() > 0,
        forall|c: int| 0 <= c < waiting.len() ==> (#[trigger] waiting[c])@.len() == frames,
        0 <= k < n,
        n * needed <= frames,
    ensures
        converted.1 == needed,
        converted.0.len() == waiting.len(),
        forall|c: int|
            0 <= c < waiting.len() ==> #[trigger] converted.0[c] == waiting[c]@.subrange(
                k * needed,
                (k + 1) * needed,
            ),
{
    let (out, written) = choose|out: Vec<Vec<S>>, written: usize|
        {
            &&& #[trigger] converter_answers(rs, next, waiting, k, needed, Some((out, written)))
            &&& converted == (planes(out@), written as nat)
        };
    let chunk = choose|chunk: Vec<Vec<S>>|
        {
            &&& is_chunk(waiting, chunk@, k, needed)
            &&& #[trigger] call_ensures(R::process, (rs, &chunk), (Some((out, written)), next))
        };
    assert(0 <= k * needed && (k + 1) * needed == k * needed + needed && (k + 1) * needed <= n
        * needed) by (nonlinear_arith)
        requires
            0 <= k < n,
    ;
    assert(chunk@[0]@.len() == needed);
    assert forall|c: int| 0 <= c < waiting.len() implies #[trigger] converted.0[c]
        == waiting[c]@.subrange(k * needed, (k + 1) * needed) by {
        assert(planes(chunk@)[c] == chunk@[c]@);
    }
}

/// How many frames are put out. When every leg is finished, as many as the fullest leg has; when
/// every live leg has something, as many as the emptiest live leg has; when some live leg has
/// nothing, as many as the fullest live leg has; and in each case a block at the most. Finished
/// legs do not count as long as one is live.
pub proof fn emitted_count_is_exact(have: Seq<usize>, done: Seq<bool>, frames: nat)
    requires
        have.len() == done.len(),
        frames == emit_frames(have, done),
    ensures
        frames <= BLOCK_SIZE,
        (forall|i: int| 0 <= i < done.len() ==> #[trigger] done[i]) ==> {
            &&& frames == BLOCK_SIZE || forall|i: int|
                0 <= i < have.len() ==> #[trigger] have[i] <= frames
            &&& frames == 0 || exists|i: int| 0 <= i < have.len() && #[trigger] have[i] >= frames
        },
        (exists|i: int| 0 <= i < done.len() && !#[trigger] done[i]) && (forall|i: int|
            0 <= i < have.len() && !done[i] ==> #[trigger] have[i] > 0) ==> {
            &&& forall|i: int| 0 <= i < have.len() && !done[i] ==> #[trigger] have[i] >= frames
            &&& frames == BLOCK_SIZE || exists|i: int|
                0 <= i < have.len() && !done[i] && #[trigger] have[i] == frames
        },
        (exists|i: int| 0 <= i < have.len() && !done[i] && #[trigger] have[i] == 0) ==> {
            &&& frames == BLOCK_SIZE || forall|i: int|
                0 <= i < have.len() && !done[i] ==> #[trigger] have[i] <= frames
            &&& frames == 0 || exists|i: int|
                0 <= i < have.len() && !done[i] && #[trigger] have[i] >= frames
        },
{
    let n = have.len() as int;
    let every = |i: int| true;
    let live = |i: int| !done[i];
    lemma_max_where(have, every, n);
    lemma_max_where(have, live, n);
    lemma_min_where(have, live, n);
    if forall|i: int| 0 <= i < n ==> #[trigger] done[i] {
        if max_where(have, every, n) > 0 {
            let k = choose|k: int|
                0 <= k < n && every(k) && #[trigger] have[k] == max_where(have, every, n);
            assert(have[k] >= frames);
        }
    } else {
        let one = choose|k: int| 0 <= k < n && !#[trigger] done[k];
        if forall|i: int| 0 <= i < n && !done[i] ==> #[trigger] have[i] > 0 {
            assert(live(one) && have[one] >= min_where(have, live, n));
            if frames != BLOCK_SIZE {
                let k = choose|k: int|
                    0 <= k < n && live(k) && #[trigger] have[k] == min_where(have, live, n);
                assert(!done[k] && have[k] == frames);
            }
        } else if max_where(have, live, n) > 0 {
            let k = choose|k: int|
                0 <= k < n && live(k) && #[trigger] have[k] == max_where(have, live, n);
            assert(!done[k] && have[k] >= frames);
        }
        assert forall|i: int| 0 <= i < n && !done[i] implies live(i) by {}
    }
}

/// Taking frames from a queue gives exactly as many samples as asked for: those of the queue in
/// order, and silence behind its end.
pub proof fn what_is_missing_is_silence<S>(queue: Seq<S>, n: nat, zero: S)
    ensures
        popped(queue, n, zero).len() == n,
        forall|i: int|
            0 <= i < n && i < queue.len() ==> #[trigger] popped(queue, n, zero)[i] == queue[i],
        forall|i: int| queue.len() <= i < n ==> #[trigger] popped(queue, n, zero)[i] == zero,
        left_over(queue, n).len() == if n <= queue.len() {
            queue.len() - n
        } else {
            0
        },
        forall|i: int|
            0 <= i < queue.len() - n ==> #[trigger] left_over(queue, n)[i] == queue[n + i],
{
}

/// The time from the start of the mix to its frame `frame_index`.
pub fn frame_duration(frame_index: u64, sample_rate: u32) -> (d: Duration)
    ensures
        d@ == crate::time::frames_nanos(
            frame_index as nat,
            if sample_rate == 0 {
                1
            } else {
                sample_rate as nat
            },
        ),
{
    let hz: u32 = if sample_rate == 0 {
        1
    } else {
        sample_rate
    };
    Duration::from_nanos(nanos_of_frames(frame_index, hz))
}

/// A converter that fails costs the chunk it was handed and nothing else: with one that never
/// succeeds, nothing joins the queue; where every channel has a chunk waiting, each loses that
/// chunk, and otherwise none loses anything.
pub proof fn a_failed_conversion_costs_one_chunk<S, R: LegResampler<S>>(
    before: MixLegState<S>,
    after: MixLegState<S>,
    rs: R,
    next: R,
    data: Seq<S>,
)
    requires
        converts_block(before, after, rs, next, data),
        forall|r: R, n: R, chunk: Vec<Vec<S>>, answer: Option<(Vec<Vec<S>>, usize)>| #[trigger]
            call_ensures(R::process, (r, &chunk), (answer, n)) ==> answer is None,
        before.pending_planar@.len() == before.channels,
        after.channels == before.channels,
        before.channels > 0,
    ensures
        after.interleaved@ == before.interleaved@,
        exists|needed: usize, waiting: Seq<VecDeque<S>>|
            {
                &&& #[trigger] call_ensures(R::input_frames_next, (&rs,), needed)
                &&& #[trigger] spread(before.pending_planar@, waiting, data, data.len() as int)
                &&& needed > 0 ==> {
                    ||| forall|c: int|
                        0 <= c < before.channels ==> (#[trigger] waiting[c])@.len() >= needed
                            && after.pending_planar@[c]@ == waiting[c]@.skip(needed as int)
                    ||| (exists|c: int|
                        0 <= c < before.channels && (#[trigger] waiting[c])@.len() < needed)
                        && forall|c: int|
                        0 <= c < before.channels ==> (#[trigger] after.pending_planar@[c])@
                            == waiting[c]@
                }
            },
{
    let round = choose|round: ResampleRound<S, R>| #[trigger]
        resampled(before, after, rs, next, data, round);
    let taken = round.chunks.len() + if round.failed {
        1nat
    } else {
        0nat
    };
    let waiting = choose|waiting: Seq<VecDeque<S>>|
        {
            &&& #[trigger] spread(before.pending_planar@, waiting, data, data.len() as int)
            &&& advanced(waiting, after.pending_planar@, taken * round.needed)
            &&& forall|k: int|
                0 <= k < round.chunks.len() ==> is_conversion(
                    round.stages[k],
                    round.stages[k + 1],
                    waiting,
                    k,
                    round.needed,
                    #[trigger] round.chunks[k],
                )
            &&& round.failed ==> converter_answers(
                round.stages[round.chunks.len() as int],
                next,
                waiting,
                round.chunks.len() as int,
                round.needed,
                None,
            )
        };
    assert(round.chunks.len() == 0) by {
        if round.chunks.len() > 0 {
            let c = round.chunks[0];
            assert(is_conversion(
                round.stages[0],
                round.stages[0int + 1],
                waiting,
                0,
                round.needed,
                c,
            ));
        }
    }
    assert(after.interleaved@ =~= before.interleaved@);
    assert(call_ensures(R::input_frames_next, (&rs,), round.needed));
    let needed = round.needed as int;
    let n = taken * round.needed;
    assert(taken == 1 ==> n == needed) by (nonlinear_arith)
        requires
            n == taken * needed,
    ;
    assert(taken == 0 ==> n == 0) by (nonlinear_arith)
        requires
            n == taken * needed,
    ;
    if round.failed {
        assert(n == round.needed);
        assert forall|c: int| 0 <= c < before.channels implies (#[trigger] waiting[c])@.len()
            >= round.needed && after.pending_planar@[c]@ == waiting[c]@.skip(
            round.needed as int,
        ) by {}
    } else {
        assert(n == 0);
        assert forall|c: int| 0 <= c < before.channels implies (
        #[trigger] after.pending_planar@[c])@ == waiting[c]@ by {
            assert(waiting[c]@.skip(0) =~= waiting[c]@);
        }
        if round.needed > 0 {
            let c = choose|c: int|
                0 <= c < after.channels && (#[trigger] after.pending_planar@[c])@.len()
                    < round.needed;
            assert(waiting[c]@.len() < round.needed);
        }
    }
}

} // verus!
