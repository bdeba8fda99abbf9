//! Hosting effect plugins: what a plugin is given for a block, what becomes of what it gives
//! back, and which blocks are refused.

use std::sync::Arc;

use vstd::prelude::*;

use crate::buffer::AudioBuffer;
use crate::error::{RecordingError, Result};
use crate::format::{AudioFormat, SampleFormat};
use crate::ring::FrameSender;
use crate::text::{push_decimal, push_text};
use crate::traits::{AudioProcessor, Mark};

verus! {

/// Why a plugin gave nothing back for a block.
#[derive(Debug)]
pub struct PluginFailure {
    /// Whether the plugin was called at all; if not, a lock in front of it could not be had.
    pub reached: bool,
    pub why: String,
}

/// A loaded plugin that works on planes: one plane of samples for each channel. The processor and
/// the editor window share it, so it is called by shared reference and locks itself.
pub trait PlanarPlugin<S>: Send {
    /// Runs the plugin on the first `frames` samples of each plane.
    fn run(
        &self,
        inputs: &Vec<Vec<S>>,
        outputs: Vec<Vec<S>>,
        frames: usize,
    ) -> std::result::Result<Vec<Vec<S>>, PluginFailure>;

    /// Forgets all state carried from block to block.
    fn restart(&self);
}

/// Arithmetic on samples.
pub trait PlaneMath<S>: Send {
    /// The sample halfway between two samples.
    fn middle(&self, left: S, right: S) -> S;

    /// The bits of the largest sample of a block, whatever its sign.
    fn peak_bits(&self, samples: &Vec<S>) -> u64;
}

/// The largest block that a plugin is set up for at the given rate: three tenths of a second,
/// within limits.
pub open spec fn max_block_spec(sample_rate_hz: u32) -> int {
    let n = sample_rate_hz * 3 / 10;
    if n < 4096 {
        4096
    } else if n > 65_536 {
        65_536
    } else {
        n
    }
}

/// The largest block that a plugin is set up for at the given rate.
pub fn max_block_for_sample_rate(sample_rate_hz: u32) -> (n: usize)
    ensures
        n == max_block_spec(sample_rate_hz),
{
    let tenths: u64 = sample_rate_hz as u64 * 3 / 10;
    if tenths < 4096 {
        4096
    } else if tenths > 65_536 {
        65_536
    } else {
        tenths as usize
    }
}

/// The rate that plugins are set up for before a stream's rate is known.
pub const DEFAULT_INIT_SR: u32 = 48_000;

/// The sample at `i`, or `zero` where there is none.
pub open spec fn sample_at<S>(s: Seq<S>, i: int, zero: S) -> S {
    if 0 <= i < s.len() {
        s[i]
    } else {
        zero
    }
}

fn sample_or<S: Copy>(s: &Vec<S>, i: usize, zero: S) -> (r: S)
    ensures
        r == sample_at(s@, i as int, zero),
{
    if i < s.len() {
        s[i]
    } else {
        zero
    }
}

/// The plane of one side of a mono or stereo block: the left or the right channel, and the only
/// one of a mono block for both.
pub open spec fn side_plane<S>(
    data: Seq<S>,
    channels: int,
    side: int,
    frames: nat,
    zero: S,
) -> Seq<S> {
    Seq::new(
        frames,
        |f: int|
            if channels == 2 {
                sample_at(data, 2 * f + side, zero)
            } else {
                sample_at(data, f, zero)
            },
    )
}

/// The plane number `p` that a plugin is given: left, right, and silence beyond these.
pub open spec fn input_plane<S>(
    data: Seq<S>,
    channels: int,
    p: int,
    frames: nat,
    zero: S,
) -> Seq<S> {
    if p < 2 {
        side_plane(data, channels, p, frames, zero)
    } else {
        Seq::new(frames, |f: int| zero)
    }
}

fn side_samples<S: Copy>(
    data: &Vec<S>,
    stereo: bool,
    side: usize,
    frames: usize,
    zero: S,
) -> (plane: Vec<S>)
    requires
        side < 2,
    ensures
        plane@ == side_plane(
            data@,
            if stereo {
                2
            } else {
                1
            },
            side as int,
            frames as nat,
            zero,
        ),
{
    let ghost channels = if stereo {
        2int
    } else {
        1
    };
    let total: usize = data.len();
    let mut plane: Vec<S> = Vec::new();
    let mut f: usize = 0;
    while f < frames
        invariant
            f <= frames,
            side < 2,
            total == data@.len(),
            channels == if stereo {
                2int
            } else {
                1
            },
            plane@.len() == f,
            forall|k: int|
                0 <= k < f ==> #[trigger] plane@[k] == side_plane(
                    data@,
                    channels,
                    side as int,
                    frames as nat,
                    zero,
                )[k],
        decreases frames - f,
    {
        let s = if !stereo {
            sample_or(data, f, zero)
        } else if f < total {
            if f < total - f && side < total - f - f {
                data[f + f + side]
            } else {
                zero
            }
        } else {
            zero
        };
        plane.push(s);
        f = f + 1;
    }
    assert(plane@ =~= side_plane(data@, channels, side as int, frames as nat, zero));
    plane
}

fn silent_plane<S: Copy>(frames: usize, zero: S) -> (plane: Vec<S>)
    ensures
        plane@ == Seq::new(frames as nat, |f: int| zero),
{
    let mut plane: Vec<S> = Vec::new();
    let mut f: usize = 0;
    while f < frames
        invariant
            f <= frames,
            plane@ == Seq::new(f as nat, |k: int| zero),
        decreases frames - f,
    {
        plane.push(zero);
        f = f + 1;
        assert(plane@ =~= Seq::new(f as nat, |k: int| zero));
    }
    plane
}

/// The planes that a plugin with `count` inputs is given for a mono or stereo block.
pub open spec fn are_input_planes<S>(
    planes: Seq<Vec<S>>,
    data: Seq<S>,
    stereo: bool,
    frames: nat,
    count: nat,
    zero: S,
) -> bool {
    let channels = if stereo {
        2int
    } else {
        1
    };
    &&& planes.len() == count
    &&& forall|p: int|
        0 <= p < count ==> (#[trigger] planes[p])@ == input_plane(data, channels, p, frames, zero)
}

/// The planes that a plugin with `count` outputs writes to: silence.
pub open spec fn are_output_planes<S>(
    planes: Seq<Vec<S>>,
    frames: nat,
    count: nat,
    zero: S,
) -> bool {
    &&& planes.len() == count
    &&& forall|p: int|
        0 <= p < count ==> (#[trigger] planes[p])@ == Seq::new(frames, |f: int| zero)
}

/// See [`are_input_planes`].
pub fn input_planes<S: Copy>(
    data: &Vec<S>,
    stereo: bool,
    frames: usize,
    count: usize,
    zero: S,
) -> (planes: Vec<Vec<S>>)
    ensures
        are_input_planes(planes@, data@, stereo, frames as nat, count as nat, zero),
{
    let ghost channels = if stereo {
        2int
    } else {
        1
    };
    let mut planes: Vec<Vec<S>> = Vec::new();
    let mut p: usize = 0;
    while p < count
        invariant
            p <= count,
            channels == if stereo {
                2int
            } else {
                1
            },
            planes@.len() == p,
            forall|k: int|
                0 <= k < p ==> (#[trigger] planes@[k])@ == input_plane(
                    data@,
                    channels,
                    k,
                    frames as nat,
                    zero,
                ),
        decreases count - p,
    {
        if p < 2 {
            planes.push(side_samples(data, stereo, p, frames, zero));
        } else {
            planes.push(silent_plane(frames, zero));
        }
        p = p + 1;
    }
    planes
}

/// See [`are_output_planes`].
pub fn output_planes<S: Copy>(frames: usize, count: usize, zero: S) -> (planes: Vec<Vec<S>>)
    ensures
        are_output_planes(planes@, frames as nat, count as nat, zero),
{
    let mut planes: Vec<Vec<S>> = Vec::new();
    let mut p: usize = 0;
    while p < count
        invariant
            p <= count,
            planes@.len() == p,
            forall|k: int|
                0 <= k < p ==> (#[trigger] planes@[k])@ == Seq::new(frames as nat, |f: int| zero),
        decreases count - p,
    {
        planes.push(silent_plane(frames, zero));
        p = p + 1;
    }
    planes
}

/// The left sample that a plugin gave back: silence where it has no output.
pub open spec fn left_of<S>(planes: Seq<Vec<S>>, count: nat, f: int, zero: S) -> S {
    if count >= 1 && planes.len() >= 1 {
        sample_at(planes[0]@, f, zero)
    } else {
        zero
    }
}

/// The right sample that a plugin gave back: the left one where it has no second output.
pub open spec fn right_of<S>(planes: Seq<Vec<S>>, count: nat, f: int, zero: S) -> S {
    if count >= 2 && planes.len() >= 2 {
        sample_at(planes[1]@, f, zero)
    } else {
        left_of(planes, count, f, zero)
    }
}

/// `out` is what a plugin with `count` outputs gave back, as a mono or stereo block.
pub open spec fn reads_back<S, M: PlaneMath<S>>(
    m: M,
    planes: Seq<Vec<S>>,
    count: nat,
    stereo: bool,
    frames: nat,
    zero: S,
    out: Seq<S>,
) -> bool {
    if stereo {
        &&& out.len() == 2 * frames
        &&& forall|i: int|
            0 <= i < out.len() ==> #[trigger] out[i] == if i % 2 == 0 {
                left_of(planes, count, i / 2, zero)
            } else {
                right_of(planes, count, i / 2, zero)
            }
    } else {
        &&& out.len() == frames
        &&& forall|f: int|
            0 <= f < out.len() ==> call_ensures(
                M::middle,
                (&m, left_of(planes, count, f, zero), right_of(planes, count, f, zero)),
                #[trigger] out[f],
            )
    }
}

/// What a plugin with `count` outputs gave back, as a mono or stereo block.
pub fn read_back<S: Copy, M: PlaneMath<S>>(
    m: &M,
    planes: &Vec<Vec<S>>,
    count: usize,
    stereo: bool,
    frames: usize,
    zero: S,
) -> (out: Vec<S>)
    ensures
        reads_back(*m, planes@, count as nat, stereo, frames as nat, zero, out@),
{
    let mut out: Vec<S> = Vec::new();
    let mut f: usize = 0;
    while f < frames
        invariant
            f <= frames,
            reads_back(*m, planes@, count as nat, stereo, f as nat, zero, out@),
        decreases frames - f,
    {
        let left = if count >= 1 && planes.len() >= 1 {
            sample_or(&planes[0], f, zero)
        } else {
            zero
        };
        let right = if count >= 2 && planes.len() >= 2 {
            sample_or(&planes[1], f, zero)
        } else {
            left
        };
        if stereo {
            out.push(left);
            out.push(right);
        } else {
            let middle = m.middle(left, right);
            out.push(middle);
        }
        f = f + 1;
    }
    out
}

/// What the two plugin formats call themselves in messages.
#[derive(Debug, Clone, Copy, PartialEq, Eq, Structural)]
pub enum PluginFormat {
    Vst2,
    Vst3,
}

/// Why a block is refused, if it is: it has to hold floating-point samples, no more frames than
/// the plugin was set up for, and one or two channels. A block without frames is not looked at
/// further.
pub open spec fn refusal(
    kind: PluginFormat,
    format: AudioFormat,
    frames: usize,
    max_block: usize,
) -> Option<Seq<char>> {
    if format.sample_format != SampleFormat::F32 {
        Some(
            match kind {
                PluginFormat::Vst3 => "VST3 path expects F32 buffers"@,
                PluginFormat::Vst2 => "VST2 path expects F32 buffers (got "@
                    + format.sample_format.name() + ", ch="@ + crate::text::decimal(
                    format.channels as nat,
                ) + ", sr="@ + crate::text::decimal(format.sample_rate_hz as nat) + ")"@,
            },
        )
    } else if frames == 0 {
        None
    } else if frames > max_block {
        Some(
            "block "@ + crate::text::decimal(frames as nat) + (match kind {
                PluginFormat::Vst3 => " exceeds VST init "@,
                PluginFormat::Vst2 => " exceeds VST2 init "@,
            }) + crate::text::decimal(max_block as nat),
        )
    } else if format.channels != 1 && format.channels != 2 {
        Some(
            (match kind {
                PluginFormat::Vst3 => "VST demo supports 1–2 input channels; got "@,
                PluginFormat::Vst2 => "VST2 path supports 1–2 input channels; got "@,
            }) + crate::text::decimal(format.channels as nat),
        )
    } else {
        None
    }
}

/// Fails unless a plugin can be given the block.
pub fn check_block(kind: PluginFormat, format: AudioFormat, frames: usize, max_block: usize) -> (r:
    Result<()>)
    ensures
        match refusal(kind, format, frames, max_block) {
            Some(text) => r matches Err(e) && e is Plugin && e->Plugin_0@ == text,
            None => r is Ok,
        },
{
    let ghost why = refusal(kind, format, frames, max_block);
    let mut text = String::new();
    if format.sample_format != SampleFormat::F32 {
        match kind {
            PluginFormat::Vst3 => {
                push_text(&mut text, "VST3 path expects F32 buffers");
            },
            PluginFormat::Vst2 => {
                push_text(&mut text, "VST2 path expects F32 buffers (got ");
                push_text(&mut text, "I16");
                push_text(&mut text, ", ch=");
                push_decimal(&mut text, format.channels as u64);
                push_text(&mut text, ", sr=");
                push_decimal(&mut text, format.sample_rate_hz as u64);
                push_text(&mut text, ")");
            },
        }
        assert(text@ =~= why->0);
        return Err(RecordingError::Plugin(text));
    }
    if frames == 0 {
        return Ok(());
    }
    if frames > max_block {
        push_text(&mut text, "block ");
        push_decimal(&mut text, frames as u64);
        match kind {
            PluginFormat::Vst3 => push_text(&mut text, " exceeds VST init "),
            PluginFormat::Vst2 => push_text(&mut text, " exceeds VST2 init "),
        }
        push_decimal(&mut text, max_block as u64);
        assert(text@ =~= why->0);
        return Err(RecordingError::Plugin(text));
    }
    if format.channels != 1 && format.channels != 2 {
        match kind {
            PluginFormat::Vst3 => push_text(&mut text, "VST demo supports 1–2 input channels; got "),
            PluginFormat::Vst2 => push_text(&mut text, "VST2 path supports 1–2 input channels; got "),
        }
        push_decimal(&mut text, format.channels as u64);
        assert(text@ =~= why->0);
        return Err(RecordingError::Plugin(text));
    }
    Ok(())
}

/// `answer` is what the plugin says when it is run on `input`.
pub open spec fn answers_block<S, P: PlanarPlugin<S>>(
    plugin: P,
    input: AudioBuffer<S>,
    in_count: nat,
    out_count: nat,
    zero: S,
    answer: std::result::Result<Vec<Vec<S>>, PluginFailure>,
) -> bool {
    exists|inputs: Vec<Vec<S>>, outputs: Vec<Vec<S>>|
        {
            &&& are_input_planes(
                inputs@,
                input.samples(),
                input.format.channels == 2,
                input.frames as nat,
                in_count,
                zero,
            )
            &&& are_output_planes(outputs@, input.frames as nat, out_count, zero)
            &&& #[trigger] call_ensures(
                P::run,
                (&plugin, &inputs, outputs, input.frames),
                answer,
            )
        }
}

/// `out` is a block of what came back from a plugin that was run on `input`. It is not run on a
/// block without frames.
pub open spec fn is_effect_of<S, P: PlanarPlugin<S>, M: PlaneMath<S>>(
    plugin: P,
    m: M,
    input: AudioBuffer<S>,
    in_count: nat,
    out_count: nat,
    zero: S,
    out: AudioBuffer<S>,
) -> bool {
    &&& out.format == input.format
    &&& out.frames == input.frames
    &&& out.captured_at == input.captured_at
    &&& out.frame_index == input.frame_index
    &&& out.well_formed()
    &&& input.frames > 0 ==> {
        let stereo = input.format.channels == 2;
        exists|planes: Vec<Vec<S>>|
            {
                &&& #[trigger] answers_block(plugin, input, in_count, out_count, zero, Ok(planes))
                &&& reads_back(
                    m,
                    planes@,
                    out_count,
                    stereo,
                    input.frames as nat,
                    zero,
                    out.samples(),
                )
            }
    }
}

/// What becomes of a block that is given to a plugin: it is refused, the plugin fails on it, or
/// `after` is what the plugin made of it. A failure is told in words, and whether the plugin was
/// reached.
pub open spec fn block_outcome<S, P: PlanarPlugin<S>, M: PlaneMath<S>>(
    kind: PluginFormat,
    plugin: P,
    m: M,
    max_block: usize,
    in_count: nat,
    out_count: nat,
    zero: S,
    input: AudioBuffer<S>,
    before: AudioBuffer<S>,
    after: AudioBuffer<S>,
    failure: Option<(Seq<char>, bool)>,
) -> bool {
    match refusal(kind, input.format, input.frames, max_block) {
        Some(text) => after == before && failure == Some((text, false)),
        None => match failure {
            Some((text, reached)) => {
                &&& after == before
                &&& input.frames > 0
                &&& exists|f: PluginFailure| #[trigger]
                    answers_block(plugin, input, in_count, out_count, zero, Err(f)) && f.why@
                        == text && f.reached == reached
            },
            None => is_effect_of(plugin, m, input, in_count, out_count, zero, after),
        },
    }
}

/// The words of a plugin failure, and whether the plugin was reached.
pub open spec fn plugin_failure(r: Result<()>, reached: bool) -> Option<(Seq<char>, bool)> {
    match r {
        Ok(_) => None,
        Err(RecordingError::Plugin(text)) => Some((text@, reached)),
        Err(_) => Some((Seq::empty(), reached)),
    }
}

/// The block of what came back from a plugin.
pub fn effect_block<S: Copy, M: PlaneMath<S>>(
    m: &M,
    input: &AudioBuffer<S>,
    planes: &Vec<Vec<S>>,
    count: usize,
    zero: S,
) -> (out: AudioBuffer<S>)
    requires
        input.format.channels == 1 || input.format.channels == 2,
    ensures
        out.format == input.format,
        out.frames == input.frames,
        out.captured_at == input.captured_at,
        out.frame_index == input.frame_index,
        out.well_formed(),
        reads_back(
            *m,
            planes@,
            count as nat,
            input.format.channels == 2,
            input.frames as nat,
            zero,
            out.samples(),
        ),
{
    let data = read_back(m, planes, count, input.format.channels == 2, input.frames, zero);
    proof {
        let c = input.format.channels as nat;
        let f = input.frames as nat;
        assert(f * 1 == f && f * 2 == 2 * f && 1 * f == f);
        assert(data@.len() == input.format.sample_count(f));
    }
    AudioBuffer::new(
        input.format,
        Arc::new(data),
        input.frames,
        input.captured_at,
        input.frame_index,
    )
}

fn empty_block<S>(input: &AudioBuffer<S>) -> (out: AudioBuffer<S>)
    requires
        input.frames == 0,
    ensures
        out.format == input.format,
        out.frames == 0,
        out.captured_at == input.captured_at,
        out.frame_index == input.frame_index,
        out.well_formed(),
{
    let data: Vec<S> = Vec::new();
    assert(input.format.sample_count(0) == 0) by (nonlinear_arith)
        requires
            input.format.sample_count(0) == 0 * input.format.channels as nat
                || input.format.sample_count(0) == input.format.channels as nat * 0,
    ;
    AudioBuffer::new(input.format, Arc::new(data), 0, input.captured_at, input.frame_index)
}

/// Runs a plugin on a block that it can be given. Tells whether the plugin was reached, too.
fn apply_plugin<S: Copy, P: PlanarPlugin<S>, M: PlaneMath<S>>(
    kind: PluginFormat,
    plugin: &P,
    m: &M,
    max_block: usize,
    in_count: usize,
    out_count: usize,
    zero: S,
    input: &AudioBuffer<S>,
    output: &mut AudioBuffer<S>,
) -> (r: (Result<()>, bool))
    requires
        refusal(kind, input.format, input.frames, max_block) is None,
    ensures
        r.0 matches Err(e) ==> e is Plugin && input.frames > 0,
        block_outcome(
            kind,
            *plugin,
            *m,
            max_block,
            in_count as nat,
            out_count as nat,
            zero,
            *input,
            *old(output),
            *final(output),
            plugin_failure(r.0, r.1),
        ),
{
    if input.frames == 0 {
        *output = empty_block(input);
        return (Ok(()), false);
    }
    let stereo: bool = input.format.channels == 2;
    let inputs = input_planes(&input.data, stereo, input.frames, in_count, zero);
    let outputs = output_planes(input.frames, out_count, zero);
    let ghost silence = outputs;
    match plugin.run(&inputs, outputs, input.frames) {
        Ok(planes) => {
            assert(call_ensures(P::run, (plugin, &inputs, silence, input.frames), Ok(planes)));
            assert(answers_block(
                *plugin,
                *input,
                in_count as nat,
                out_count as nat,
                zero,
                Ok(planes),
            ));
            *output = effect_block(m, input, &planes, out_count, zero);
            (Ok(()), true)
        },
        Err(f) => {
            assert(call_ensures(P::run, (plugin, &inputs, silence, input.frames), Err(f)));
            assert(answers_block(
                *plugin,
                *input,
                in_count as nat,
                out_count as nat,
                zero,
                Err(f),
            ));
            (Err(RecordingError::Plugin(f.why)), f.reached)
        },
    }
}

/// Stereo effect of the third plugin format; mono blocks are given to both sides.
#[verifier::reject_recursive_types(S)]
pub struct Vst3AudioProcessor<S, P, M> {
    pub plugin: P,
    pub math: M,
    pub label: String,
    pub max_block: usize,
    pub zero: S,
    /// What the plugin's editor gets to see of the audio, if it is open.
    pub editor_audio_tx: Option<FrameSender<S>>,
}

impl<S: Copy, P: PlanarPlugin<S>, M: PlaneMath<S>> Vst3AudioProcessor<S, P, M> {
    /// A processor for a loaded plugin that was set up for blocks of up to `max_block` frames.
    pub fn new(
        plugin: P,
        math: M,
        label: String,
        max_block: usize,
        zero: S,
        editor_audio_tx: Option<FrameSender<S>>,
    ) -> (p: Self)
        ensures
            p == (Vst3AudioProcessor { plugin, math, label, max_block, zero, editor_audio_tx }),
    {
        Vst3AudioProcessor { plugin, math, label, max_block, zero, editor_audio_tx }
    }
}

/// What an open editor gets to see of a block that was processed: its queue is handed the block,
/// and nothing else, and takes it if there is room.
pub open spec fn feeds_editor<S>(
    before: Option<FrameSender<S>>,
    after: Option<FrameSender<S>>,
    block: AudioBuffer<S>,
) -> bool {
    match (before, after) {
        (Some(b), Some(a)) => crate::ring::handed(b, a, block, true) || crate::ring::handed(
            b,
            a,
            block,
            false,
        ),
        (None, None) => true,
        _ => false,
    }
}

fn feed_editor<S>(editor: &mut Option<FrameSender<S>>, block: &AudioBuffer<S>)
    ensures
        feeds_editor(*old(editor), *final(editor), *block),
{
    match editor.take() {
        Some(tx) => {
            let ghost before = tx;
            let mut tx = tx;
            let taken = tx.try_send(block.clone()).is_ok();
            let ghost after = tx;
            *editor = Some(tx);
            assert(crate::ring::handed(before, after, *block, taken));
            assert(feeds_editor(Some(before), Some(after), *block));
        },
        None => {},
    }
}

impl<
    S: Copy + Send + Sync,
    P: PlanarPlugin<S>,
    M: PlaneMath<S>,
> AudioProcessor<S> for Vst3AudioProcessor<S, P, M> {
    open spec fn may_leave(
        &self,
        input: AudioBuffer<S>,
        before: AudioBuffer<S>,
        after: AudioBuffer<S>,
        ok: bool,
        next: Mark,
    ) -> bool {
        exists|failure: Option<(Seq<char>, bool)>|
            {
                &&& next == self.mark()
                &&& failure is None <==> ok
                &&& #[trigger] block_outcome(
                    PluginFormat::Vst3,
                    self.plugin,
                    self.math,
                    self.max_block,
                    2,
                    2,
                    self.zero,
                    input,
                    before,
                    after,
                    failure,
                )
            }
    }

    fn name(&self) -> (n: String)
        ensures
            n@ == self.label@,
    {
        self.label.clone()
    }

    fn reset(&mut self)
        ensures
            *final(self) == *old(self),
            call_ensures(P::restart, (&old(self).plugin,), ()),
    {
        self.plugin.restart();
    }

    fn process(&mut self, input: &AudioBuffer<S>, output: &mut AudioBuffer<S>) -> (r: Result<()>)
        ensures
            final(self).plugin == old(self).plugin,
            final(self).math == old(self).math,
            final(self).label == old(self).label,
            final(self).max_block == old(self).max_block,
            final(self).zero == old(self).zero,
            r matches Err(e) ==> e is Plugin,
            exists|reached: bool|
                block_outcome(
                    PluginFormat::Vst3,
                    old(self).plugin,
                    old(self).math,
                    old(self).max_block,
                    2,
                    2,
                    old(self).zero,
                    *input,
                    *old(output),
                    *final(output),
                    #[trigger] plugin_failure(r, reached),
                ),
            if r is Ok && input.frames > 0 {
                feeds_editor(old(self).editor_audio_tx, final(self).editor_audio_tx, *input)
            } else {
                final(self).editor_audio_tx == old(self).editor_audio_tx
            },
    {
        let ghost start = *self;
        let ghost prior = *output;
        let checked = check_block(
            PluginFormat::Vst3,
            input.format,
            input.frames,
            self.max_block,
        );
        let (r, reached) = match checked {
            Err(e) => (Err(e), false),
            Ok(()) => apply_plugin(
                PluginFormat::Vst3,
                &self.plugin,
                &self.math,
                self.max_block,
                2,
                2,
                self.zero,
                input,
                output,
            ),
        };
        if r.is_ok() && input.frames > 0 {
            feed_editor(&mut self.editor_audio_tx, input);
        }
        assert(block_outcome(
            PluginFormat::Vst3,
            start.plugin,
            start.math,
            start.max_block,
            2,
            2,
            start.zero,
            *input,
            prior,
            *output,
            plugin_failure(r, reached),
        ));
        r
    }
}

/// Counters that show whether blocks reach a plugin of the second format.
#[derive(Debug, Clone, Copy, PartialEq, Eq, Structural)]
pub struct Vst2DiagCounters {
    /// Blocks that the plugin ran on.
    pub processed: u64,
    /// Blocks that ended in an error before the plugin was called: its lock among the reasons.
    pub errored: u64,
    /// The bits of the last block's peak.
    pub last_peak_bits: u64,
}

impl Default for Vst2DiagCounters {
    fn default() -> (d: Self)
        ensures
            d == (Vst2DiagCounters { processed: 0, errored: 0, last_peak_bits: 0 }),
    {
        Vst2DiagCounters { processed: 0, errored: 0, last_peak_bits: 0 }
    }
}

/// A counter after one more event; it starts over beyond the largest number.
pub open spec fn one_more(n: u64) -> int {
    (n + 1) % 0x1_0000_0000_0000_0000
}

/// Effect of the second plugin format, with as many planes as the plugin has inputs and outputs.
#[verifier::reject_recursive_types(S)]
pub struct Vst2AudioProcessor<S, P, M> {
    pub plugin: P,
    pub math: M,
    pub label: String,
    pub max_block: usize,
    pub plugin_in_channels: usize,
    pub plugin_out_channels: usize,
    pub zero: S,
    pub diag: Vst2DiagCounters,
}

/// The planes for the channel count that a plugin reports; a negative count means none.
pub fn plane_count(reported: i32) -> (n: usize)
    ensures
        n == if reported < 0 {
            0
        } else {
            reported as int
        },
{
    if reported < 0 {
        0
    } else {
        reported as usize
    }
}

impl<S: Copy, P: PlanarPlugin<S>, M: PlaneMath<S>> Vst2AudioProcessor<S, P, M> {
    /// A processor for a loaded plugin that reports the given inputs and outputs and was set up
    /// for blocks of up to `max_block` frames.
    pub fn new(
        plugin: P,
        math: M,
        label: String,
        max_block: usize,
        inputs: i32,
        outputs: i32,
        zero: S,
    ) -> (p: Self)
        ensures
            p.plugin == plugin,
            p.math == math,
            p.label == label,
            p.max_block == max_block,
            p.plugin_in_channels == if inputs < 0 {
                0
            } else {
                inputs as int
            },
            p.plugin_out_channels == if outputs < 0 {
                0
            } else {
                outputs as int
            },
            p.zero == zero,
            p.diag == (Vst2DiagCounters { processed: 0, errored: 0, last_peak_bits: 0 }),
    {
        Vst2AudioProcessor {
            plugin,
            math,
            label,
            max_block,
            plugin_in_channels: plane_count(inputs),
            plugin_out_channels: plane_count(outputs),
            zero,
            diag: Vst2DiagCounters::default(),
        }
    }
}

/// The counters after a block was refused.
pub open spec fn counts_refusal(before: Vst2DiagCounters, after: Vst2DiagCounters) -> bool {
    after == (Vst2DiagCounters { errored: one_more(before.errored) as u64, ..before })
}

/// The counters after a block was to be given to the plugin: it ran, it failed, or it was not
/// reached.
pub open spec fn counts_block<S, M: PlaneMath<S>>(
    m: M,
    before: Vst2DiagCounters,
    after: Vst2DiagCounters,
    samples: Vec<S>,
    ran: bool,
    reached: bool,
) -> bool {
    &&& call_ensures(M::peak_bits, (&m, &samples), after.last_peak_bits)
    &&& after.errored == if ran || reached {
        before.errored as int
    } else {
        one_more(before.errored)
    }
    &&& after.processed == if ran {
        one_more(before.processed)
    } else {
        before.processed as int
    }
}

/// The two counters of a plugin of the second format.
pub open spec fn diag_mark(processed: int, errored: int) -> Mark {
    Mark::Many(seq![Mark::One(processed), Mark::One(errored)])
}

impl<
    S: Copy + Send + Sync,
    P: PlanarPlugin<S>,
    M: PlaneMath<S>,
> AudioProcessor<S> for Vst2AudioProcessor<S, P, M> {
    /// How many blocks were processed, and how many failed before the plugin was reached.
    open spec fn mark(&self) -> Mark {
        diag_mark(self.diag.processed as int, self.diag.errored as int)
    }

    open spec fn may_leave(
        &self,
        input: AudioBuffer<S>,
        before: AudioBuffer<S>,
        after: AudioBuffer<S>,
        ok: bool,
        next: Mark,
    ) -> bool {
        exists|failure: Option<(Seq<char>, bool)>|
            {
                &&& failure is None <==> ok
                &&& #[trigger] block_outcome(
                    PluginFormat::Vst2,
                    self.plugin,
                    self.math,
                    self.max_block,
                    self.plugin_in_channels as nat,
                    self.plugin_out_channels as nat,
                    self.zero,
                    input,
                    before,
                    after,
                    failure,
                )
                &&& next == diag_mark(
                    if ok && input.frames > 0 {
                        one_more(self.diag.processed)
                    } else {
                        self.diag.processed as int
                    },
                    if failure matches Some((_, reached)) && !reached {
                        one_more(self.diag.errored)
                    } else {
                        self.diag.errored as int
                    },
                )
            }
    }

    fn name(&self) -> (n: String)
        ensures
            n@ == self.label@,
    {
        self.label.clone()
    }

    fn reset(&mut self)
        ensures
            *final(self) == *old(self),
            call_ensures(P::restart, (&old(self).plugin,), ()),
    {
        self.plugin.restart();
    }

    fn process(&mut self, input: &AudioBuffer<S>, output: &mut AudioBuffer<S>) -> (r: Result<()>)
        ensures
            final(self).plugin == old(self).plugin,
            final(self).math == old(self).math,
            final(self).label == old(self).label,
            final(self).max_block == old(self).max_block,
            final(self).plugin_in_channels == old(self).plugin_in_channels,
            final(self).plugin_out_channels == old(self).plugin_out_channels,
            final(self).zero == old(self).zero,
            r matches Err(e) ==> e is Plugin,
            exists|reached: bool|
                {
                    &&& block_outcome(
                        PluginFormat::Vst2,
                        old(self).plugin,
                        old(self).math,
                        old(self).max_block,
                        old(self).plugin_in_channels as nat,
                        old(self).plugin_out_channels as nat,
                        old(self).zero,
                        *input,
                        *old(output),
                        *final(output),
                        #[trigger] plugin_failure(r, reached),
                    )
                    &&& match refusal(
                        PluginFormat::Vst2,
                        input.format,
                        input.frames,
                        old(self).max_block,
                    ) {
                        Some(_) => counts_refusal(old(self).diag, final(self).diag),
                        None => if input.frames == 0 {
                            final(self).diag == old(self).diag
                        } else {
                            counts_block(
                                old(self).math,
                                old(self).diag,
                                final(self).diag,
                                *input.data,
                                r is Ok,
                                reached,
                            )
                        },
                    }
                },
    {
        let ghost start = *self;
        let ghost prior = *output;
        let checked = check_block(
            PluginFormat::Vst2,
            input.format,
            input.frames,
            self.max_block,
        );
        let (r, reached) = match checked {
            Err(e) => {
                self.diag.errored = self.diag.errored.wrapping_add(1);
                (Err(e), false)
            },
            Ok(()) => {
                if input.frames > 0 {
                    self.diag.last_peak_bits = self.math.peak_bits(&input.data);
                }
                let (r, reached) = apply_plugin(
                    PluginFormat::Vst2,
                    &self.plugin,
                    &self.math,
                    self.max_block,
                    self.plugin_in_channels,
                    self.plugin_out_channels,
                    self.zero,
                    input,
                    output,
                );
                if input.frames > 0 {
                    if r.is_ok() {
                        self.diag.processed = self.diag.processed.wrapping_add(1);
                    } else if !reached {
                        self.diag.errored = self.diag.errored.wrapping_add(1);
                    }
                }
                (r, reached)
            },
        };
        assert(block_outcome(
            PluginFormat::Vst2,
            start.plugin,
            start.math,
            start.max_block,
            start.plugin_in_channels as nat,
            start.plugin_out_channels as nat,
            start.zero,
            *input,
            prior,
            *output,
            plugin_failure(r, reached),
        ));
        r
    }
}

/// A plugin that hands its inputs on changes nothing of a stereo block.
pub proof fn passing_planes_on_keeps_a_stereo_block<S, M: PlaneMath<S>>(
    m: M,
    data: Seq<S>,
    planes: Seq<Vec<S>>,
    frames: nat,
    zero: S,
    out: Seq<S>,
)
    requires
        data.len() == 2 * frames,
        planes.len() == 2,
        planes[0]@ == input_plane(data, 2, 0, frames, zero),
        planes[1]@ == input_plane(data, 2, 1, frames, zero),
        reads_back(m, planes, 2, true, frames, zero, out),
    ensures
        out == data,
{
    assert(out =~= data);
}

/// One call on a plugin of the second format.
#[derive(Debug, Clone, Copy, PartialEq, Eq, Structural)]
pub enum Vst2Call {
    Init,
    StopProcess,
    Suspend,
    SetSampleRate(u32),
    SetBlockSize(i64),
    Resume,
    StartProcess,
}

/// The calls that make a freshly loaded plugin ready, in order.
pub fn vst2_start_calls(sample_rate_hz: u32, max_block: usize) -> (calls: Vec<Vst2Call>)
    requires
        max_block <= i64::MAX,
    ensures
        calls@ == seq![
            Vst2Call::Init,
            Vst2Call::SetSampleRate(sample_rate_hz),
            Vst2Call::SetBlockSize(max_block as i64),
            Vst2Call::Resume,
            Vst2Call::StartProcess,
        ],
{
    let mut calls: Vec<Vst2Call> = Vec::new();
    calls.push(Vst2Call::Init);
    calls.push(Vst2Call::SetSampleRate(sample_rate_hz));
    calls.push(Vst2Call::SetBlockSize(max_block as i64));
    calls.push(Vst2Call::Resume);
    calls.push(Vst2Call::StartProcess);
    assert(calls@ =~= seq![
        Vst2Call::Init,
        Vst2Call::SetSampleRate(sample_rate_hz),
        Vst2Call::SetBlockSize(max_block as i64),
        Vst2Call::Resume,
        Vst2Call::StartProcess,
    ]);
    calls
}

/// The calls that set a running plugin up for another rate or block size, in order: it is
/// stopped first and started last.
pub open spec fn restart_calls(sample_rate_hz: u32, max_block: usize) -> Seq<Vst2Call> {
    seq![
        Vst2Call::StopProcess,
        Vst2Call::Suspend,
        Vst2Call::SetSampleRate(sample_rate_hz),
        Vst2Call::SetBlockSize(max_block as i64),
        Vst2Call::Resume,
        Vst2Call::StartProcess,
    ]
}

/// The calls that set a running plugin up for another rate or block size.
pub fn vst2_restart_calls(sample_rate_hz: u32, max_block: usize) -> (calls: Vec<Vst2Call>)
    requires
        max_block <= i64::MAX,
    ensures
        calls@ == restart_calls(sample_rate_hz, max_block),
{
    let mut calls: Vec<Vst2Call> = Vec::new();
    calls.push(Vst2Call::StopProcess);
    calls.push(Vst2Call::Suspend);
    calls.push(Vst2Call::SetSampleRate(sample_rate_hz));
    calls.push(Vst2Call::SetBlockSize(max_block as i64));
    calls.push(Vst2Call::Resume);
    calls.push(Vst2Call::StartProcess);
    assert(calls@ =~= restart_calls(sample_rate_hz, max_block));
    calls
}

/// How many plugins come before the first one that could not be locked.
pub open spec fn locked_before(locks: Seq<std::result::Result<(), String>>) -> nat
    decreases locks.len(),
{
    if locks.len() == 0 || locks[0] is Err {
        0
    } else {
        1 + locked_before(locks.skip(1))
    }
}

/// Sets running plugins up for another rate or block size, one after the other: gives the calls
/// for each of them. `locks` tells how the lock of each plugin went, in words where it failed. The
/// first that fails ends it; those after it are left as they are.
pub fn reinit_vst2(
    locks: &Vec<std::result::Result<(), String>>,
    sample_rate_hz: u32,
    max_block: usize,
) -> (r: (Vec<Vec<Vst2Call>>, std::result::Result<(), String>))
    requires
        max_block <= i64::MAX,
    ensures
        r.0@.len() == locked_before(locks@),
        forall|i: int|
            0 <= i < r.0@.len() ==> (#[trigger] r.0@[i])@ == restart_calls(
                sample_rate_hz,
                max_block,
            ),
        r.1 is Ok <==> locked_before(locks@) == locks@.len(),
        r.1 matches Err(e) ==> e@ == locks@[locked_before(locks@) as int]->Err_0@,
{
    let mut calls: Vec<Vec<Vst2Call>> = Vec::new();
    let mut i: usize = 0;
    assert(locks@.skip(0) =~= locks@);
    while i < locks.len()
        invariant
            i <= locks@.len(),
            max_block <= i64::MAX,
            calls@.len() == i,
            forall|k: int|
                0 <= k < i ==> (#[trigger] calls@[k])@ == restart_calls(sample_rate_hz, max_block),
            locked_before(locks@) == i + locked_before(locks@.skip(i as int)),
        decreases locks@.len() - i,
    {
        proof {
            assert(locks@.skip(i as int)[0] == locks@[i as int]);
            assert(locks@.skip(i as int).skip(1) =~= locks@.skip(i + 1));
        }
        match &locks[i] {
            Ok(_) => {
                calls.push(vst2_restart_calls(sample_rate_hz, max_block));
            },
            Err(e) => {
                return (calls, Err(e.as_str().to_owned()));
            },
        }
        i = i + 1;
    }
    (calls, Ok(()))
}

/// Passing planes on keeps a mono block: a plug-in that is handed a mono block gets it on both
/// sides, and where it gives both sides back unchanged and the middle of a sample and itself is
/// that sample, the block comes back.
pub proof fn passing_planes_on_keeps_a_mono_block<S, M: PlaneMath<S>>(
    m: M,
    data: Seq<S>,
    planes: Seq<Vec<S>>,
    frames: nat,
    zero: S,
    out: Seq<S>,
)
    requires
        data.len() == frames,
        are_input_planes(planes, data, false, frames, 2, zero),
        forall|x: S, r: S| #[trigger] call_ensures(M::middle, (&m, x, x), r) ==> r == x,
        reads_back(m, planes, 2, false, frames, zero, out),
    ensures
        planes[0]@ == data,
        planes[1]@ == data,
        out == data,
{
    assert(planes[0]@ =~= data);
    assert(planes[1]@ =~= data);
    assert forall|f: int| 0 <= f < frames implies out[f] == data[f] by {
        assert(call_ensures(M::middle, (&m, data[f], data[f]), out[f]));
    }
    assert(out =~= data);
}

/// A plug-in's planes hold a block's two sides: of a stereo block, the left samples and the right
/// ones, frame by frame; further planes are silent, and so is what a block is short of.
pub proof fn planes_hold_the_sides<S>(
    planes: Seq<Vec<S>>,
    data: Seq<S>,
    frames: nat,
    count: nat,
    zero: S,
    p: int,
    f: int,
)
    requires
        are_input_planes(planes, data, true, frames, count, zero),
        0 <= p < count,
        0 <= f < frames,
    ensures
        planes.len() == count,
        planes[p]@.len() == frames,
        p < 2 && 2 * f + p < data.len() ==> planes[p]@[f] == data[2 * f + p],
        p < 2 && 2 * f + p >= data.len() ==> planes[p]@[f] == zero,
        p >= 2 ==> planes[p]@[f] == zero,
{
    assert(planes[p]@ == input_plane(data, 2, p, frames, zero));
}

/// What a plug-in with one plane puts out is on both sides, and what one without any puts out is
/// silence.
pub proof fn a_missing_side_is_the_left_one<S, M: PlaneMath<S>>(
    m: M,
    planes: Seq<Vec<S>>,
    count: nat,
    frames: nat,
    zero: S,
    out: Seq<S>,
    f: int,
)
    requires
        reads_back(m, planes, count, true, frames, zero, out),
        0 <= f < frames,
        planes.len() >= count,
        forall|p: int| 0 <= p < count ==> (#[trigger] planes[p])@.len() == frames,
    ensures
        out.len() == 2 * frames,
        count == 0 ==> out[2 * f] == zero && out[2 * f + 1] == zero,
        count == 1 ==> out[2 * f] == planes[0]@[f] && out[2 * f + 1] == planes[0]@[f],
        count >= 2 ==> out[2 * f] == planes[0]@[f] && out[2 * f + 1] == planes[1]@[f],
{
    assert((2 * f) % 2 == 0 && (2 * f) / 2 == f && (2 * f + 1) % 2 == 1 && (2 * f + 1) / 2 == f);
    if count >= 1 {
        assert(planes[0]@.len() == frames);
    }
    if count >= 2 {
        assert(planes[1]@.len() == frames);
    }
}

/// A block is refused exactly where its samples are not floating-point numbers or, unless it is
/// empty, where it is longer than the plug-in was made for or has another number of channels than
/// one or two. A refused block, like one that the plug-in fails on, changes nothing.
pub proof fn a_refused_block_changes_nothing<S, P: PlanarPlugin<S>, M: PlaneMath<S>>(
    kind: PluginFormat,
    plugin: P,
    m: M,
    max_block: usize,
    in_count: nat,
    out_count: nat,
    zero: S,
    input: AudioBuffer<S>,
    before: AudioBuffer<S>,
    after: AudioBuffer<S>,
    failure: Option<(Seq<char>, bool)>,
)
    requires
        block_outcome(
            kind,
            plugin,
            m,
            max_block,
            in_count,
            out_count,
            zero,
            input,
            before,
            after,
            failure,
        ),
    ensures
        input.format.sample_format != SampleFormat::F32 || (input.frames > 0 && (input.frames
            > max_block || (input.format.channels != 1 && input.format.channels != 2)))
            ==> failure is Some,
        input.format.sample_format == SampleFormat::F32 && input.frames == 0 ==> failure is None,
        failure is Some ==> after == before,
        failure is None ==> after.format == input.format && after.frames == input.frames
            && after.captured_at == input.captured_at && after.frame_index == input.frame_index,
{
}

/// A plug-in is made for blocks of three tenths of a second, but for no fewer than 4096 and no
/// more than 65536 frames.
pub proof fn blocks_last_three_tenths_of_a_second(sample_rate_hz: u32)
    ensures
        4096 <= max_block_spec(sample_rate_hz) <= 65_536,
        4096 < max_block_spec(sample_rate_hz) < 65_536 ==> max_block_spec(sample_rate_hz) * 10
            <= sample_rate_hz * 3 < max_block_spec(sample_rate_hz) * 10 + 10,
        max_block_spec(sample_rate_hz) == 4096 ==> sample_rate_hz * 3 < 40_970,
        max_block_spec(sample_rate_hz) == 65_536 ==> sample_rate_hz * 3 >= 655_360,
{
}

/// Every block is counted at most once: as processed where the plug-in ran, as an error where it
/// was not reached, and not at all where it was reached and failed.
pub proof fn each_block_is_counted_once<S, M: PlaneMath<S>>(
    m: M,
    before: Vst2DiagCounters,
    after: Vst2DiagCounters,
    samples: Vec<S>,
    ran: bool,
    reached: bool,
)
    requires
        counts_block(m, before, after, samples, ran, reached),
        before.processed < u64::MAX,
        before.errored < u64::MAX,
    ensures
        ran ==> after.processed == before.processed + 1 && after.errored == before.errored,
        !ran && !reached ==> after.processed == before.processed && after.errored == before.errored
            + 1,
        !ran && reached ==> after.processed == before.processed && after.errored == before.errored,
        call_ensures(M::peak_bits, (&m, &samples), after.last_peak_bits),
{
}

} // verus!
