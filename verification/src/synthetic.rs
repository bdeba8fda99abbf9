//! Deterministic in-memory source for tests and benchmarks.

use std::sync::Arc;
use std::time::Instant;

use vstd::prelude::*;

use crate::buffer::AudioBuffer;
use crate::format::AudioFormat;
use crate::traits::StreamHandle;

verus! {

/// A tone: what it sounds like at a phase, and how the phase moves on from frame to frame.
pub trait Tone<P, S> {
    /// The sample at a phase.
    fn sample(&self, phase: P) -> S;

    /// The phase of the next frame.
    fn advance(&self, phase: P) -> P;
}

/// Makes blocks of a tone, the same in all channels.
pub struct SyntheticSource<P> {
    pub format: AudioFormat,
    pub phase: P,
    pub frame_counter: u64,
}

/// `phases` are the phases of the frames in a row, and of the one after them.
pub open spec fn are_phases<P, S, T: Tone<P, S>>(tone: T, start: P, phases: Seq<P>) -> bool {
    &&& phases.len() > 0
    &&& phases[0] == start
    &&& forall|f: int|
        0 <= f < phases.len() - 1 ==> call_ensures(
            T::advance,
            (&tone, #[trigger] phases[f]),
            phases[f + 1],
        )
}

/// `values` are the tone's samples at all phases but the last.
pub open spec fn are_values<P, S, T: Tone<P, S>>(tone: T, phases: Seq<P>, values: Seq<S>) -> bool {
    &&& phases.len() == values.len() + 1
    &&& forall|f: int|
        0 <= f < values.len() ==> call_ensures(T::sample, (&tone, phases[f]), #[trigger] values[f])
}

/// Each value once for each channel.
pub open spec fn spread<S>(values: Seq<S>, channels: nat) -> Seq<S> {
    Seq::new(values.len() * channels, |i: int| values[i / channels as int])
}

impl<P: Copy> SyntheticSource<P> {
    /// A source that starts at the given phase.
    pub fn new(format: AudioFormat, phase: P) -> (s: Self)
        ensures
            s.format == format,
            s.phase == phase,
            s.frame_counter == 0,
    {
        SyntheticSource { format, phase, frame_counter: 0 }
    }

    /// The next block of `frames` frames.
    pub fn next_block<S: Copy, T: Tone<P, S>>(
        &mut self,
        tone: &T,
        frames: usize,
        captured_at: Instant,
    ) -> (b: AudioBuffer<S>)
        requires
            old(self).format.sample_count(frames as nat) <= usize::MAX,
        ensures
            final(self).format == old(self).format,
            final(self).frame_counter == (old(self).frame_counter + frames)
                % 0x1_0000_0000_0000_0000,
            b.format == old(self).format,
            b.frames == frames,
            b.captured_at == captured_at,
            b.frame_index == old(self).frame_counter,
            b.well_formed(),
            exists|phases: Seq<P>, values: Seq<S>|
                {
                    &&& #[trigger] are_phases::<P, S, T>(*tone, old(self).phase, phases)
                    &&& #[trigger] are_values::<P, S, T>(*tone, phases, values)
                    &&& values.len() == frames
                    &&& final(self).phase == phases.last()
                    &&& b.samples() == spread(values, old(self).format.channels as nat)
                },
    {
        let index: u64 = self.frame_counter;
        self.frame_counter = index.wrapping_add(frames as u64);
        let channels: usize = self.format.channels as usize;
        let ghost mut phases: Seq<P> = seq![self.phase];
        let ghost mut values: Seq<S> = Seq::empty();
        let mut data: Vec<S> = Vec::new();
        let mut f: usize = 0;
        assert(data@ =~= spread(values, channels as nat)) by {
            assert(0 * channels as nat == 0) by (nonlinear_arith);
        }
        while f < frames
            invariant
                f <= frames,
                channels == self.format.channels,
                self.format == old(self).format,
                self.frame_counter == (old(self).frame_counter + frames)
                    % 0x1_0000_0000_0000_0000,
                phases.len() == f + 1,
                phases[f as int] == self.phase,
                values.len() == f,
                are_phases::<P, S, T>(*tone, old(self).phase, phases),
                are_values::<P, S, T>(*tone, phases, values),
                data@ == spread(values, channels as nat),
            decreases frames - f,
        {
            let s = tone.sample(self.phase);
            let next = tone.advance(self.phase);
            proof {
                let more = values.push(s);
                let longer = phases.push(next);
                assert forall|k: int| 0 <= k < longer.len() - 1 implies call_ensures(
                    T::advance,
                    (tone, #[trigger] longer[k]),
                    longer[k + 1],
                ) by {
                    assert(longer[k] == phases[k]);
                    if k < f {
                        assert(longer[k + 1] == phases[k + 1]);
                    }
                }
                assert forall|k: int| 0 <= k < more.len() implies call_ensures(
                    T::sample,
                    (tone, longer[k]),
                    #[trigger] more[k],
                ) by {
                    assert(longer[k] == phases[k]);
                    if k < f {
                        assert(more[k] == values[k]);
                    }
                }
                lemma_spread_grows(values, s, channels as nat);
                values = more;
                phases = longer;
            }
            self.phase = next;
            let ghost before = data@;
            let mut c: usize = 0;
            while c < channels
                invariant
                    c <= channels,
                    data@ == before + Seq::new(c as nat, |i: int| s),
                decreases channels - c,
            {
                data.push(s);
                c = c + 1;
                assert(data@ =~= before + Seq::new(c as nat, |i: int| s));
            }
            f = f + 1;
        }
        proof {
            assert(values.len() * channels as nat == self.format.sample_count(frames as nat))
                by (nonlinear_arith)
                requires
                    values.len() == frames,
                    self.format.sample_count(frames as nat) == frames as nat * channels as nat,
            ;
        }
        AudioBuffer::new(self.format, Arc::new(data), frames, captured_at, index)
    }
}

proof fn lemma_spread_grows<S>(values: Seq<S>, s: S, channels: nat)
    ensures
        spread(values.push(s), channels) == spread(values, channels) + Seq::new(
            channels,
            |i: int| s,
        ),
{
    let n = values.len();
    let longer = spread(values.push(s), channels);
    let expected = spread(values, channels) + Seq::new(channels, |i: int| s);
    assert((n + 1) * channels == n * channels + channels) by (nonlinear_arith);
    assert forall|i: int| 0 <= i < longer.len() implies longer[i] == expected[i] by {
        let c = channels as int;
        if i < n * channels {
            assert(0 <= i / c < n) by (nonlinear_arith)
                requires
                    0 <= i < n * c,
                    c >= 0,
            ;
        } else {
            assert(i / c == n) by (nonlinear_arith)
                requires
                    n * c <= i < (n + 1) * c,
            ;
        }
    }
    assert(longer =~= expected);
}

/// A stop handle for synthetic runs: stopping does nothing.
pub fn synthetic_stop_handle<F: FnOnce()>() -> (h: StreamHandle<F>)
    ensures
        h.action() is None,
{
    StreamHandle::idle()
}

/// All channels carry the tone: every sample of a frame is the frame's value.
pub proof fn all_channels_carry_the_tone<S>(values: Seq<S>, channels: nat, f: int, c: int)
    requires
        0 <= f < values.len(),
        0 <= c < channels,
    ensures
        spread(values, channels).len() == values.len() * channels,
        spread(values, channels)[f * channels + c] == values[f],
{
    let i = f * channels + c;
    assert(0 <= i < values.len() * channels && i / channels as int == f) by (nonlinear_arith)
        requires
            0 <= f < values.len(),
            0 <= c < channels,
            i == f * channels + c,
    ;
}

/// The tone goes on from block to block: the phases of one block followed by those of the next are
/// phases of both together.
pub proof fn the_tone_goes_on<P, S, T: Tone<P, S>>(tone: T, start: P, first: Seq<P>, second: Seq<P>)
    requires
        are_phases::<P, S, T>(tone, start, first),
        are_phases::<P, S, T>(tone, first.last(), second),
    ensures
        are_phases::<P, S, T>(tone, start, first.drop_last() + second),
        (first.drop_last() + second).last() == second.last(),
{
    let all = first.drop_last() + second;
    let n = first.len() - 1;
    assert forall|f: int| 0 <= f < all.len() - 1 implies call_ensures(
        T::advance,
        (&tone, #[trigger] all[f]),
        all[f + 1],
    ) by {
        if f < n - 1 {
            assert(call_ensures(T::advance, (&tone, first[f]), first[f + 1]));
        } else if f == n - 1 {
            assert(call_ensures(T::advance, (&tone, first[f]), first[f + 1]));
            assert(all[f + 1] == second[0]);
            assert(first[f + 1] == first.last());
        } else {
            assert(call_ensures(T::advance, (&tone, second[f - n]), second[f - n + 1]));
        }
    }
}

} // verus!
