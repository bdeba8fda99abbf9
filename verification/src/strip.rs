//! The processors of a channel strip, and the sink that feeds the main bus.

use std::sync::Arc;

use vstd::prelude::*;

use crate::buffer::{AudioBuffer, SampleMap};
use crate::error::Result;
use crate::processing::passthrough_copy;
use crate::ring::QueueSender;
use crate::traits::{AudioProcessor, AudioSink, Mark, MovesSamples};

verus! {

/// A level display, with the arithmetic on samples that it needs.
pub trait Meter<S>: Send {
    /// The level of no sound.
    fn quiet(&self) -> S;

    /// The larger of a level and the magnitude of a sample.
    fn louder(&self, level: S, sample: S) -> S;

    /// Shows a level.
    fn show(&self, level: S);
}

/// Each level of the trace takes in one more sample.
pub open spec fn is_level_trace<S, M: Meter<S>>(m: &M, samples: Seq<S>, trace: Seq<S>) -> bool {
    &&& trace.len() == samples.len() + 1
    &&& call_ensures(M::quiet, (m,), trace[0])
    &&& forall|i: int|
        0 <= i < samples.len() ==> call_ensures(
            M::louder,
            (m, #[trigger] trace[i], samples[i]),
            trace[i + 1],
        )
}

/// The level is the largest magnitude among the samples.
pub open spec fn is_peak<S, M: Meter<S>>(m: &M, samples: Seq<S>, peak: S) -> bool {
    exists|trace: Seq<S>| #[trigger]
        is_level_trace(m, samples, trace) && trace[samples.len() as int] == peak
}

/// The largest magnitude in a block.
pub fn buffer_peak<S: Copy, M: Meter<S>>(m: &M, buf: &AudioBuffer<S>) -> (peak: S)
    ensures
        is_peak(m, buf.samples(), peak),
{
    let mut peak = m.quiet();
    let ghost mut trace: Seq<S> = seq![peak];
    let mut i: usize = 0;
    while i < buf.data.len()
        invariant
            i <= buf.samples().len(),
            trace.len() == i + 1,
            trace[i as int] == peak,
            call_ensures(M::quiet, (m,), trace[0]),
            forall|k: int|
                0 <= k < i ==> call_ensures(
                    M::louder,
                    (m, #[trigger] trace[k], buf.samples()[k]),
                    trace[k + 1],
                ),
        decreases buf.samples().len() - i,
    {
        peak = m.louder(peak, buf.data[i]);
        proof {
            trace = trace.push(peak);
        }
        i += 1;
    }
    assert(is_level_trace(m, buf.samples(), trace));
    peak
}

/// The level of the block is what the meter shows.
pub open spec fn shows_peak<S, M: Meter<S>>(m: M, samples: Seq<S>) -> bool {
    exists|peak: S| #[trigger]
        is_peak(&m, samples, peak) && call_ensures(M::show, (&m, peak), ())
}

fn show_peak<S: Copy, M: Meter<S>>(m: &M, buf: &AudioBuffer<S>)
    ensures
        shows_peak(*m, buf.samples()),
{
    let peak = buffer_peak(m, buf);
    m.show(peak);
    assert(is_peak(m, buf.samples(), peak) && call_ensures(M::show, (m, peak), ()));
}

/// Shows the level of the audio that passes.
pub struct MeterProcessor<M> {
    pub meter: M,
}

impl<M> MeterProcessor<M> {
    /// A processor that shows levels on `meter`.
    pub fn new(meter: M) -> (p: Self)
        ensures
            p.meter == meter,
    {
        MeterProcessor { meter }
    }
}

impl<S: Copy, M: Meter<S>> AudioProcessor<S> for MeterProcessor<M> {
    open spec fn may_leave(
        &self,
        input: AudioBuffer<S>,
        before: AudioBuffer<S>,
        after: AudioBuffer<S>,
        ok: bool,
        next: Mark,
    ) -> bool {
        &&& ok
        &&& after == input
        &&& shows_peak(self.meter, input.samples())
        &&& next == AudioProcessor::<S>::mark(self)
    }

    fn name(&self) -> (n: String)
        ensures
            n@ == "meter"@,
    {
        "meter".to_owned()
    }

    fn process(&mut self, input: &AudioBuffer<S>, output: &mut AudioBuffer<S>) -> (r: Result<()>)
        ensures
            r is Ok,
            *final(self) == *old(self),
            *final(output) == *input,
            shows_peak(old(self).meter, input.samples()),
    {
        show_peak(&self.meter, input);
        passthrough_copy(input, output);
        Ok(())
    }
}

/// Puts one channel of the input on all channels.
#[derive(Debug, Clone, Copy)]
pub struct ChannelMapProcessor {
    pub channel: usize,
}

impl ChannelMapProcessor {
    /// A processor that picks the given channel, or the last where there are fewer.
    pub fn new(channel: usize) -> (p: Self)
        ensures
            p.channel == channel,
    {
        ChannelMapProcessor { channel }
    }

    /// The processor's name.
    pub fn label(&self) -> (s: &'static str)
        ensures
            s@ == "channel-map"@,
    {
        "channel-map"
    }
}

/// How many channels a block of the format has, one at least.
pub open spec fn block_channels(channels: u16) -> nat {
    if channels == 0 {
        1
    } else {
        channels as nat
    }
}

/// The channel that is picked.
pub open spec fn picked_channel(channel: usize, channels: nat) -> nat {
    if channel < channels {
        channel as nat
    } else {
        (channels - 1) as nat
    }
}

/// A block with one channel on all channels. What lies outside of whole frames stays, and so does
/// a frame that does not reach to that channel.
pub open spec fn mapped<S>(data: Seq<S>, frames: nat, channels: nat, picked: nat) -> Seq<S> {
    Seq::new(
        data.len(),
        |i: int|
            {
                let source = i - i % (channels as int) + picked;
                if i / (channels as int) < frames && source < data.len() {
                    data[source]
                } else {
                    data[i]
                }
            },
    )
}

fn map_samples<S: Copy>(data: &Vec<S>, frames: usize, channels: usize, picked: usize) -> (out: Vec<
    S,
>)
    requires
        picked < channels,
    ensures
        out@ == mapped(data@, frames as nat, channels as nat, picked as nat),
{
    let mut out: Vec<S> = Vec::new();
    let mut i: usize = 0;
    while i < data.len()
        invariant
            picked < channels,
            i <= data@.len(),
            out@.len() == i,
            forall|k: int|
                0 <= k < i ==> #[trigger] out@[k] == mapped(
                    data@,
                    frames as nat,
                    channels as nat,
                    picked as nat,
                )[k],
        decreases data@.len() - i,
    {
        proof {
            vstd::arithmetic::div_mod::lemma_mod_decreases(i as nat, channels as nat);
        }
        let base: usize = i - i % channels;
        if i / channels < frames && picked < data.len() - base {
            out.push(data[base + picked]);
        } else {
            out.push(data[i]);
        }
        i += 1;
    }
    assert(out@ =~= mapped(data@, frames as nat, channels as nat, picked as nat));
    out
}

/// The block `input` with the channel number `channel` on all channels.
pub open spec fn is_mapped_block<S>(
    channel: usize,
    input: AudioBuffer<S>,
    after: AudioBuffer<S>,
) -> bool {
    let channels = block_channels(input.format.channels);
    let picked = picked_channel(channel, channels);
    &&& after.format == input.format
    &&& after.frames == input.frames
    &&& after.captured_at == input.captured_at
    &&& after.frame_index == input.frame_index
    &&& after.samples() == if picked == 0 {
        input.samples()
    } else {
        mapped(input.samples(), input.frames as nat, channels, picked)
    }
}

impl<S: Copy> MovesSamples<S> for ChannelMapProcessor {

}

impl<S: Copy> AudioProcessor<S> for ChannelMapProcessor where ChannelMapProcessor: MovesSamples<S> {
    open spec fn may_leave(
        &self,
        input: AudioBuffer<S>,
        before: AudioBuffer<S>,
        after: AudioBuffer<S>,
        ok: bool,
        next: Mark,
    ) -> bool {
        ok && is_mapped_block(self.channel, input, after) && next == AudioProcessor::<S>::mark(self)
    }

    fn name(&self) -> (n: String)
        ensures
            n@ == "channel-map"@,
    {
        self.label().to_owned()
    }

    fn process(&mut self, input: &AudioBuffer<S>, output: &mut AudioBuffer<S>) -> (r: Result<()>)
        ensures
            r is Ok,
            *final(self) == *old(self),
            is_mapped_block(old(self).channel, *input, *final(output)),
    {
        let channels: usize = if input.format.channels == 0 {
            1
        } else {
            input.format.channels as usize
        };
        let picked: usize = if self.channel < channels {
            self.channel
        } else {
            channels - 1
        };
        passthrough_copy(input, output);
        if channels <= 1 || picked == 0 {
            return Ok(());
        }
        let data = map_samples(&*input.data, input.frames, channels, picked);
        output.data = Arc::new(data);
        Ok(())
    }
}

/// After the mapping all samples of a frame are equal.
pub proof fn mapped_frames_are_even<S>(
    data: Seq<S>,
    frames: nat,
    channels: nat,
    picked: nat,
    i: int,
    j: int,
)
    requires
        picked < channels,
        data.len() == frames * channels,
        0 <= i < data.len(),
        0 <= j < data.len(),
        i / (channels as int) == j / (channels as int),
    ensures
        mapped(data, frames, channels, picked)[i] == mapped(data, frames, channels, picked)[j],
{
    let c = channels as int;
    let f = i / c;
    assert(f < frames) by (nonlinear_arith)
        requires
            f == i / c,
            c > 0,
            0 <= i < frames * c,
    ;
    assert(f * c + picked < frames * c) by (nonlinear_arith)
        requires
            f < frames,
            picked < c,
    ;
    vstd::arithmetic::div_mod::lemma_fundamental_div_mod(i, c);
    vstd::arithmetic::div_mod::lemma_fundamental_div_mod(j, c);
    assert(c * f == f * c) by (nonlinear_arith);
}

/// Changes every sample by one rule, such as a gain that is clipped.
pub struct DemoGainProcessor<M> {
    pub gain: M,
}

impl<M> DemoGainProcessor<M> {
    /// A processor that changes samples by `gain`.
    pub fn new(gain: M) -> (p: Self)
        ensures
            p.gain == gain,
    {
        DemoGainProcessor { gain }
    }
}

impl<S: Copy, M: SampleMap<S, S>> AudioProcessor<S> for DemoGainProcessor<M> {
    open spec fn may_leave(
        &self,
        input: AudioBuffer<S>,
        before: AudioBuffer<S>,
        after: AudioBuffer<S>,
        ok: bool,
        next: Mark,
    ) -> bool {
        &&& ok
        &&& after.format == input.format
        &&& after.frames == input.frames
        &&& after.captured_at == input.captured_at
        &&& after.frame_index == input.frame_index
        &&& crate::pipeline::is_changed_by(self.gain, input.samples(), after.samples())
        &&& next == AudioProcessor::<S>::mark(self)
    }

    fn name(&self) -> (n: String)
        ensures
            n@ == "channel-gain"@,
    {
        "channel-gain".to_owned()
    }

    fn process(&mut self, input: &AudioBuffer<S>, output: &mut AudioBuffer<S>) -> (r: Result<()>)
        ensures
            r is Ok,
            *final(self) == *old(self),
            final(output).format == input.format,
            final(output).frames == input.frames,
            final(output).captured_at == input.captured_at,
            final(output).frame_index == input.frame_index,
            crate::pipeline::is_changed_by(
                old(self).gain,
                input.samples(),
                final(output).samples(),
            ),
    {
        let ghost gain = self.gain;
        let mut v: Vec<S> = Vec::new();
        let mut i: usize = 0;
        while i < input.data.len()
            invariant
                i <= input.samples().len(),
                v@.len() == i,
                gain == self.gain,
                forall|k: int|
                    0 <= k < i ==> call_ensures(
                        M::apply,
                        (&gain, input.samples()[k]),
                        #[trigger] v@[k],
                    ),
            decreases input.samples().len() - i,
        {
            v.push(self.gain.apply(input.data[i]));
            i += 1;
        }
        passthrough_copy(input, output);
        output.data = Arc::new(v);
        Ok(())
    }
}

/// The processors of a channel strip in front of the effects.
pub open spec fn strip_head<P>(map: P, meter: P, gain: Option<P>) -> Seq<P> {
    match gain {
        Some(g) => seq![map, meter, g],
        None => seq![map, meter],
    }
}

/// The processors of a channel strip in order: the choice of the channel, the meter, the gain
/// where it changes anything, and the effects.
pub fn strip_processors<P>(map: P, meter: P, gain: Option<P>, effects: Vec<P>) -> (chain: Vec<P>)
    ensures
        chain@ == strip_head(map, meter, gain) + effects@,
{
    let ghost head = strip_head(map, meter, gain);
    let ghost rest = effects@;
    let mut effects = effects;
    let mut chain: Vec<P> = Vec::new();
    chain.push(map);
    chain.push(meter);
    if let Some(g) = gain {
        chain.push(g);
    }
    assert(chain@ =~= head);
    chain.append(&mut effects);
    assert(chain@ =~= head + rest);
    chain
}

/// What a flush of the main bus comes to: what its file said, and success where it has none.
pub fn flush_outcome(file: Option<Result<()>>) -> (r: Result<()>)
    ensures
        r == match file {
            Some(answer) => answer,
            None => Ok(()),
        },
{
    match file {
        Some(answer) => answer,
        None => Ok(()),
    }
}

/// Writes the main bus to a file, if there is one, shows its level and passes it on to the
/// analyzers.
#[verifier::reject_recursive_types(S)]
pub struct FileAndMainBusSink<S, M> {
    pub file: Option<Box<dyn AudioSink<S>>>,
    pub bus_tx: QueueSender<AudioBuffer<S>>,
    pub meter: M,
}

/// What the file, if there is one, shows of its state.
pub open spec fn file_mark<S>(file: Option<Box<dyn AudioSink<S>>>) -> Mark {
    match file {
        Some(file) => file.mark(),
        None => Mark::One(0),
    }
}

/// What a write to the file, if there is one, may answer, and the mark that it may leave.
pub open spec fn file_may_answer<S>(
    file: Option<Box<dyn AudioSink<S>>>,
    buffer: AudioBuffer<S>,
    r: Result<()>,
    next: Mark,
) -> bool {
    match file {
        Some(file) => file.may_answer(buffer, r, next),
        None => r is Ok && next == Mark::One(0),
    }
}

/// What a flush of the file, if there is one, may answer, and the mark that it may leave.
pub open spec fn file_may_flush<S>(
    file: Option<Box<dyn AudioSink<S>>>,
    r: Result<()>,
    next: Mark,
) -> bool {
    match file {
        Some(file) => file.may_flush(r, next),
        None => r is Ok && next == Mark::One(0),
    }
}

impl<S: Copy + Send + Sync, M: Meter<S>> AudioSink<S> for FileAndMainBusSink<S, M> {
    /// That of the file, if there is one, and how many blocks the analyzers were handed.
    open spec fn mark(&self) -> Mark {
        Mark::Many(
            seq![
                file_mark(self.file),
                Mark::One(self.bus_tx.offered().len() as int),
            ],
        )
    }

    open spec fn may_answer(&self, buffer: AudioBuffer<S>, r: Result<()>, next: Mark) -> bool {
        exists|file_next: Mark|
            {
                &&& next == Mark::Many(
                    seq![file_next, Mark::One(self.bus_tx.offered().len() as int + 1)],
                )
                &&& #[trigger] file_may_answer(self.file, buffer, r, file_next)
            }
    }

    open spec fn may_flush(&self, r: Result<()>, next: Mark) -> bool {
        exists|file_next: Mark|
            {
                &&& next == Mark::Many(
                    seq![file_next, Mark::One(self.bus_tx.offered().len() as int)],
                )
                &&& #[trigger] file_may_flush(self.file, r, file_next)
            }
    }

    fn write_pcm_f32(&mut self, buffer: &AudioBuffer<S>) -> (r: Result<()>)
        ensures
            final(self).meter == old(self).meter,
            shows_peak(old(self).meter, buffer.samples()),
            exists|taken: bool| #[trigger]
                crate::ring::handed(old(self).bus_tx, final(self).bus_tx, *buffer, taken),
            final(self).file is Some == old(self).file is Some,
            file_may_answer(old(self).file, *buffer, r, file_mark(final(self).file)),
    {
        show_peak(&self.meter, buffer);
        let ghost before = self.bus_tx;
        let taken = self.bus_tx.try_send(buffer.clone()).is_ok();
        let ghost after = self.bus_tx;
        let r = match self.file.as_mut() {
            Some(file) => file.write_pcm_f32(buffer),
            None => Ok(()),
        };
        assert(self.bus_tx == after);
        assert(crate::ring::handed(before, self.bus_tx, *buffer, taken));
        assert(file_may_answer(old(self).file, *buffer, r, file_mark(self.file)));
        assert(AudioSink::<S>::mark(self) == Mark::Many(
            seq![file_mark(self.file), Mark::One(before.offered().len() as int + 1)],
        ));
        r
    }

    /// Finishes the file, if there is one: the result is [`flush_outcome`] of its answer.
    fn flush(&mut self) -> (r: Result<()>)
        ensures
            final(self).meter == old(self).meter,
            final(self).bus_tx == old(self).bus_tx,
            final(self).file is Some == old(self).file is Some,
            file_may_flush(old(self).file, r, file_mark(final(self).file)),
    {
        let answer = match self.file.as_mut() {
            Some(file) => Some(file.flush()),
            None => None,
        };
        let r = flush_outcome(answer);
        assert(file_may_flush(old(self).file, r, file_mark(self.file)));
        assert(AudioSink::<S>::mark(self) == Mark::Many(
            seq![file_mark(self.file), Mark::One(self.bus_tx.offered().len() as int)],
        ));
        r
    }
}

/// The channel map puts the chosen channel on every channel: in a block of whole frames, every
/// sample of a frame is the frame's sample of the chosen channel, or of the last channel where
/// the block has fewer. Choosing the first channel leaves the block as it is.
pub proof fn every_channel_is_the_chosen_one<S>(
    channel: usize,
    input: AudioBuffer<S>,
    after: AudioBuffer<S>,
    f: int,
    c: int,
)
    requires
        is_mapped_block(channel, input, after),
        input.format.channels > 0,
        input.samples().len() == input.frames * input.format.channels,
        0 <= f < input.frames,
        0 <= c < input.format.channels,
    ensures
        after.samples().len() == input.samples().len(),
        channel == 0 ==> after.samples() == input.samples(),
        0 < channel < input.format.channels ==> after.samples()[f * input.format.channels + c]
            == input.samples()[f * input.format.channels + channel],
        0 < channel && channel >= input.format.channels && input.format.channels > 1
            ==> after.samples()[f * input.format.channels + c] == input.samples()[f
            * input.format.channels + input.format.channels - 1],
{
    let channels = input.format.channels as int;
    let i = f * channels + c;
    assert(i / channels == f && i % channels == c && 0 <= i < input.frames * channels)
        by (nonlinear_arith)
        requires
            0 <= f < input.frames,
            0 <= c < channels,
            i == f * channels + c,
    ;
    let picked = picked_channel(channel, channels as nat) as int;
    assert(f * channels + picked < input.frames * channels) by (nonlinear_arith)
        requires
            0 <= f < input.frames,
            0 <= picked < channels,
    ;
}

/// The meter shows the loudest sample: where the scale starts at zero and counts amounts in whole
/// numbers, the peak of some samples is at least the amount of each, and the amount of one of
/// them, or zero where there are none.
pub proof fn the_peak_is_the_loudest<S, M: Meter<S>>(
    m: M,
    samples: Seq<S>,
    peak: S,
    worth: spec_fn(S) -> int,
)
    requires
        is_peak(&m, samples, peak),
        forall|r: S| #[trigger] call_ensures(M::quiet, (&m,), r) ==> worth(r) == 0,
        forall|level: S, x: S, r: S| #[trigger]
            call_ensures(M::louder, (&m, level, x), r) ==> worth(r) == if worth(level)
                >= crate::channel::amount(worth(x)) {
                worth(level)
            } else {
                crate::channel::amount(worth(x))
            },
    ensures
        crate::channel::is_peak(Seq::new(samples.len(), |i: int| worth(samples[i])), worth(peak)),
{
    let trace = choose|trace: Seq<S>| #[trigger]
        is_level_trace(&m, samples, trace) && trace[samples.len() as int] == peak;
    lemma_level_so_far(m, samples, trace, worth, samples.len());
}

proof fn lemma_level_so_far<S, M: Meter<S>>(
    m: M,
    samples: Seq<S>,
    trace: Seq<S>,
    worth: spec_fn(S) -> int,
    n: nat,
)
    requires
        is_level_trace(&m, samples, trace),
        forall|r: S| #[trigger] call_ensures(M::quiet, (&m,), r) ==> worth(r) == 0,
        forall|level: S, x: S, r: S| #[trigger]
            call_ensures(M::louder, (&m, level, x), r) ==> worth(r) == if worth(level)
                >= crate::channel::amount(worth(x)) {
                worth(level)
            } else {
                crate::channel::amount(worth(x))
            },
        n <= samples.len(),
    ensures
        crate::channel::is_peak(
            Seq::new(n, |i: int| worth(samples[i])),
            worth(trace[n as int]),
        ),
    decreases n,
{
    if n > 0 {
        let before = (n - 1) as nat;
        lemma_level_so_far(m, samples, trace, worth, before);
        let prior = Seq::new(before, |i: int| worth(samples[i]));
        let xs = Seq::new(n, |i: int| worth(samples[i]));
        let peak = worth(trace[n as int]);
        assert(call_ensures(M::louder, (&m, trace[n - 1], samples[n - 1]), trace[n - 1 + 1]));
        assert forall|c: int| 0 <= c < n implies crate::channel::amount(#[trigger] xs[c])
            <= peak by {
            if c < before {
                assert(prior[c] == xs[c]);
            }
        }
        if peak != 0 {
            if peak == worth(trace[n - 1]) {
                let c = choose|c: int|
                    0 <= c < before && crate::channel::amount(#[trigger] prior[c]) == peak;
                assert(crate::channel::amount(xs[c]) == peak);
            } else {
                assert(crate::channel::amount(xs[n - 1]) == peak);
            }
        }
    }
}

/// A strip maps channels first, is metered next, then raised or lowered where it has a gain, and
/// only then passes through its effects, in their order.
pub proof fn a_strip_keeps_its_order<P>(map: P, meter: P, gain: Option<P>, effects: Seq<P>)
    ensures
        ({
            let chain = strip_head(map, meter, gain) + effects;
            let head = if gain is Some {
                3int
            } else {
                2
            };
            &&& chain.len() == head + effects.len()
            &&& chain[0] == map
            &&& chain[1] == meter
            &&& gain matches Some(g) ==> chain[2] == g
            &&& forall|i: int| 0 <= i < effects.len() ==> #[trigger] chain[head + i] == effects[i]
        }),
{
}

} // verus!
