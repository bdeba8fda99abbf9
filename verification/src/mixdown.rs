//! Mixing blocks of several legs into one: which samples are averaged, summed and limited, and
//! where each result goes. The arithmetic itself is handed in as a [`MixMath`].

use std::sync::Arc;
use std::time::Instant;

use vstd::prelude::*;

use crate::buffer::AudioBuffer;
use crate::metrics::PipelineMetrics;
use crate::mixer::{BusLegConfig, BusMixerConfig, MixMode, BLOCK_SIZE};
use crate::processing::{run_processor_chain, ChainStep};
use crate::traits::AudioProcessor;

verus! {

/// Arithmetic on samples.
pub trait MixMath<S, G> {
    /// Nothing: the sum of no samples.
    fn zero(&self) -> S;

    /// `sum` and one more sample.
    fn accumulate(&self, sum: S, sample: S) -> S;

    /// The mean of `count` samples whose sum is `sum`.
    fn mean(&self, sum: S, count: u32) -> S;

    /// A sample at the given gain.
    fn scale(&self, sample: S, gain: G) -> S;

    /// A sum brought into the range of samples.
    fn limit(&self, sum: S) -> S;
}

/// `trace` shows the sum of `xs` taking shape, sample by sample.
pub open spec fn sum_trace<S, G, M: MixMath<S, G>>(m: M, xs: Seq<S>, trace: Seq<S>) -> bool {
    &&& trace.len() == xs.len() + 1
    &&& call_ensures(M::zero, (&m,), trace[0])
    &&& forall|i: int|
        0 <= i < xs.len() ==> call_ensures(
            M::accumulate,
            (&m, #[trigger] trace[i], xs[i]),
            trace[i + 1],
        )
}

/// `r` is a sum of `xs`.
pub open spec fn is_sum<S, G, M: MixMath<S, G>>(m: M, xs: Seq<S>, r: S) -> bool {
    exists|trace: Seq<S>| #[trigger] sum_trace::<S, G, M>(m, xs, trace) && r == trace[xs.len() as int]
}

/// The samples of frame `frame` that `block` holds.
pub open spec fn frame_samples<S>(block: Seq<S>, frame: int, channels: int) -> Seq<S> {
    let from = frame * channels;
    let to = from + channels;
    if from >= block.len() {
        Seq::empty()
    } else if to > block.len() {
        block.skip(from)
    } else {
        block.subrange(from, to)
    }
}

/// `r` is frame `frame` of `block` as one sample: the mean of what the block holds of it.
pub open spec fn is_downmix<S, G, M: MixMath<S, G>>(
    m: M,
    block: Seq<S>,
    frame: int,
    channels: int,
    r: S,
) -> bool {
    let xs = frame_samples(block, frame, channels);
    if xs.len() == 0 {
        call_ensures(M::zero, (&m,), r)
    } else {
        exists|sum: S| #[trigger]
            is_sum::<S, G, M>(m, xs, sum) && call_ensures(M::mean, (&m, sum, xs.len() as u32), r)
    }
}

/// `r` is what the leg contributes to frame `frame`: its downmix at the leg's gain.
pub open spec fn is_leg_value<S, G, M: MixMath<S, G>>(
    m: M,
    block: Seq<S>,
    leg: BusLegConfig<G>,
    frame: int,
    r: S,
) -> bool {
    exists|d: S| #[trigger]
        is_downmix::<S, G, M>(m, block, frame, leg.frame_channels() as int, d) && call_ensures(
            M::scale,
            (&m, d, leg.gain),
            r,
        )
}

/// `values` are the contributions of all legs to frame `frame`, in order.
pub open spec fn are_leg_values<S, G, M: MixMath<S, G>>(
    m: M,
    blocks: Seq<Vec<S>>,
    legs: Seq<BusLegConfig<G>>,
    frame: int,
    values: Seq<S>,
) -> bool {
    &&& values.len() == legs.len()
    &&& forall|i: int|
        0 <= i < legs.len() ==> is_leg_value::<S, G, M>(
            m,
            blocks[i]@,
            legs[i],
            frame,
            #[trigger] values[i],
        )
}

/// `r` is frame `frame` of the sum of all legs, limited.
pub open spec fn is_summed_frame<S, G, M: MixMath<S, G>>(
    m: M,
    blocks: Seq<Vec<S>>,
    legs: Seq<BusLegConfig<G>>,
    frame: int,
    r: S,
) -> bool {
    exists|values: Seq<S>, sum: S|
        {
            &&& #[trigger] are_leg_values::<S, G, M>(m, blocks, legs, frame, values)
            &&& #[trigger] is_sum::<S, G, M>(m, values, sum)
            &&& call_ensures(M::limit, (&m, sum), r)
        }
}

/// `r` is frame `frame` of one leg alone, limited.
pub open spec fn is_routed_frame<S, G, M: MixMath<S, G>>(
    m: M,
    block: Seq<S>,
    leg: BusLegConfig<G>,
    frame: int,
    r: S,
) -> bool {
    exists|v: S| #[trigger]
        is_leg_value::<S, G, M>(m, block, leg, frame, v) && call_ensures(M::limit, (&m, v), r)
}

/// `out` is the mix of `frames` frames: summed frames once or twice each, or the two legs side
/// by side.
pub open spec fn is_mix<S, G, M: MixMath<S, G>>(
    m: M,
    blocks: Seq<Vec<S>>,
    legs: Seq<BusLegConfig<G>>,
    mode: MixMode,
    frames: int,
    out: Seq<S>,
) -> bool {
    &&& out.len() == frames * mode.channels()
    &&& match mode {
        MixMode::SumMono => forall|f: int|
            0 <= f < frames ==> is_summed_frame::<S, G, M>(m, blocks, legs, f, #[trigger] out[f]),
        MixMode::SumStereo => forall|f: int|
            #![trigger out[2 * f]]
            0 <= f < frames ==> is_summed_frame::<S, G, M>(m, blocks, legs, f, out[2 * f]) && out[2
                * f + 1] == out[2 * f],
        MixMode::SplitStereo => forall|f: int|
            #![trigger out[2 * f]]
            0 <= f < frames ==> is_routed_frame::<S, G, M>(
                m,
                blocks[0]@,
                legs[0],
                f,
                out[2 * f],
            ) && is_routed_frame::<S, G, M>(m, blocks[1]@, legs[1], f, out[2 * f + 1]),
    }
}

/// The sum of `xs`, added up in order.
pub fn sum_of<S: Copy, G, M: MixMath<S, G>>(m: &M, xs: &Vec<S>) -> (r: S)
    ensures
        is_sum::<S, G, M>(*m, xs@, r),
{
    let first = m.zero();
    let mut sum = first;
    let ghost mut trace: Seq<S> = seq![first];
    let mut i: usize = 0;
    while i < xs.len()
        invariant
            i <= xs@.len(),
            trace.len() == i + 1,
            call_ensures(M::zero, (m,), trace[0]),
            sum == trace[i as int],
            forall|k: int|
                0 <= k < i ==> call_ensures(
                    M::accumulate,
                    (m, #[trigger] trace[k], xs@[k]),
                    trace[k + 1],
                ),
        decreases xs@.len() - i,
    {
        let next = m.accumulate(sum, xs[i]);
        proof {
            let longer = trace.push(next);
            assert forall|k: int| 0 <= k < i + 1 implies call_ensures(
                M::accumulate,
                (m, #[trigger] longer[k], xs@[k]),
                longer[k + 1],
            ) by {
                if k < i {
                    assert(longer[k] == trace[k]);
                    assert(longer[k + 1] == trace[k + 1]);
                }
            }
            trace = longer;
        }
        sum = next;
        i = i + 1;
    }
    assert(sum_trace::<S, G, M>(*m, xs@, trace));
    sum
}

/// One frame of a block as one sample; see [`is_downmix`].
pub fn downmix_to_mono<S: Copy, G, M: MixMath<S, G>>(
    m: &M,
    block: &Vec<S>,
    frame: usize,
    channels: usize,
) -> (r: S)
    requires
        channels <= u16::MAX,
        frame * channels + channels <= usize::MAX,
    ensures
        is_downmix::<S, G, M>(*m, block@, frame as int, channels as int, r),
{
    assert(0 <= frame * channels <= usize::MAX);
    let base: usize = frame * channels;
    let mut xs: Vec<S> = Vec::new();
    let ghost want = frame_samples(block@, frame as int, channels as int);
    let mut ch: usize = 0;
    while ch < channels
        invariant
            ch <= channels,
            channels <= u16::MAX,
            base == frame * channels,
            base + channels <= usize::MAX,
            want == frame_samples(block@, frame as int, channels as int),
            xs@ == want.take(if ch <= want.len() {
                ch as int
            } else {
                want.len() as int
            }),
            xs@.len() <= ch,
        decreases channels - ch,
    {
        if base + ch < block.len() {
            assert(ch < want.len());
            assert(want[ch as int] == block@[base + ch]);
            xs.push(block[base + ch]);
            assert(xs@ =~= want.take(ch + 1));
        } else {
            assert(want.len() <= ch);
        }
        ch = ch + 1;
    }
    assert(want.take(want.len() as int) =~= want);
    assert(want.len() <= channels);
    if xs.len() == 0 {
        m.zero()
    } else {
        let sum = sum_of::<S, G, M>(m, &xs);
        m.mean(sum, xs.len() as u32)
    }
}

fn leg_value<S: Copy, G: Copy, M: MixMath<S, G>>(
    m: &M,
    block: &Vec<S>,
    leg: &BusLegConfig<G>,
    frame: usize,
) -> (r: S)
    requires
        frame * 65535 + 65535 <= usize::MAX,
    ensures
        is_leg_value::<S, G, M>(*m, block@, *leg, frame as int, r),
{
    let channels: usize = if leg.source_format.channels == 0 {
        1
    } else {
        leg.source_format.channels as usize
    };
    assert(frame * channels + channels <= frame * 65535 + 65535) by (nonlinear_arith)
        requires
            channels <= 65535,
    ;
    let d = downmix_to_mono::<S, G, M>(m, block, frame, channels);
    assert(is_downmix::<S, G, M>(*m, block@, frame as int, leg.frame_channels() as int, d));
    m.scale(d, leg.gain)
}

fn summed_frame<S: Copy, G: Copy, M: MixMath<S, G>>(
    m: &M,
    blocks: &Vec<Vec<S>>,
    legs: &Vec<BusLegConfig<G>>,
    frame: usize,
) -> (r: S)
    requires
        blocks@.len() == legs@.len(),
        frame * 65535 + 65535 <= usize::MAX,
    ensures
        is_summed_frame::<S, G, M>(*m, blocks@, legs@, frame as int, r),
{
    let mut values: Vec<S> = Vec::new();
    let mut i: usize = 0;
    while i < legs.len()
        invariant
            i <= legs@.len(),
            blocks@.len() == legs@.len(),
            frame * 65535 + 65535 <= usize::MAX,
            values@.len() == i,
            forall|k: int|
                0 <= k < i ==> is_leg_value::<S, G, M>(
                    *m,
                    blocks@[k]@,
                    legs@[k],
                    frame as int,
                    #[trigger] values@[k],
                ),
        decreases legs@.len() - i,
    {
        values.push(leg_value(m, &blocks[i], &legs[i], frame));
        i = i + 1;
    }
    assert(are_leg_values::<S, G, M>(*m, blocks@, legs@, frame as int, values@));
    let sum = sum_of::<S, G, M>(m, &values);
    m.limit(sum)
}

fn routed_frame<S: Copy, G: Copy, M: MixMath<S, G>>(
    m: &M,
    block: &Vec<S>,
    leg: &BusLegConfig<G>,
    frame: usize,
) -> (r: S)
    requires
        frame * 65535 + 65535 <= usize::MAX,
    ensures
        is_routed_frame::<S, G, M>(*m, block@, *leg, frame as int, r),
{
    let v = leg_value(m, block, leg, frame);
    m.limit(v)
}

/// Mixes one block of each leg into `frames` frames; see [`is_mix`].
pub fn mix_n_blocks<S: Copy, G: Copy, M: MixMath<S, G>>(
    m: &M,
    blocks: &Vec<Vec<S>>,
    legs: &Vec<BusLegConfig<G>>,
    mode: MixMode,
    frames: usize,
) -> (out: Vec<S>)
    requires
        blocks@.len() == legs@.len(),
        mode == MixMode::SplitStereo ==> legs@.len() == 2,
        frames * 65535 <= usize::MAX,
    ensures
        is_mix::<S, G, M>(*m, blocks@, legs@, mode, frames as int, out@),
{
    let mut out: Vec<S> = Vec::new();
    let mut f: usize = 0;
    match mode {
        MixMode::SumMono => {
            while f < frames
                invariant
                    f <= frames,
                    blocks@.len() == legs@.len(),
                    frames * 65535 <= usize::MAX,
                    out@.len() == f,
                    forall|k: int|
                        0 <= k < f ==> is_summed_frame::<S, G, M>(
                            *m,
                            blocks@,
                            legs@,
                            k,
                            #[trigger] out@[k],
                        ),
                decreases frames - f,
            {
                let s = summed_frame(m, blocks, legs, f);
                out.push(s);
                f = f + 1;
            }
        },
        MixMode::SumStereo => {
            while f < frames
                invariant
                    f <= frames,
                    blocks@.len() == legs@.len(),
                    frames * 65535 <= usize::MAX,
                    out@.len() == 2 * f,
                    forall|k: int|
                        #![trigger out@[2 * k]]
                        0 <= k < f ==> is_summed_frame::<S, G, M>(
                            *m,
                            blocks@,
                            legs@,
                            k,
                            out@[2 * k],
                        ) && out@[2 * k + 1] == out@[2 * k],
                decreases frames - f,
            {
                let s = summed_frame(m, blocks, legs, f);
                out.push(s);
                out.push(s);
                f = f + 1;
            }
        },
        MixMode::SplitStereo => {
            while f < frames
                invariant
                    f <= frames,
                    blocks@.len() == legs@.len(),
                    legs@.len() == 2,
                    frames * 65535 <= usize::MAX,
                    out@.len() == 2 * f,
                    forall|k: int|
                        #![trigger out@[2 * k]]
                        0 <= k < f ==> is_routed_frame::<S, G, M>(
                            *m,
                            blocks@[0]@,
                            legs@[0],
                            k,
                            out@[2 * k],
                        ) && is_routed_frame::<S, G, M>(
                            *m,
                            blocks@[1]@,
                            legs@[1],
                            k,
                            out@[2 * k + 1],
                        ),
                decreases frames - f,
            {
                let left = routed_frame(m, &blocks[0], &legs[0], f);
                let right = routed_frame(m, &blocks[1], &legs[1], f);
                let ghost prior = out@;
                out.push(left);
                out.push(right);
                proof {
                    assert forall|k: int|
                        #![trigger out@[2 * k]]
                        0 <= k < f + 1 implies is_routed_frame::<S, G, M>(
                        *m,
                        blocks@[0]@,
                        legs@[0],
                        k,
                        out@[2 * k],
                    ) && is_routed_frame::<S, G, M>(
                        *m,
                        blocks@[1]@,
                        legs@[1],
                        k,
                        out@[2 * k + 1],
                    ) by {
                        if k < f {
                            assert(out@[2 * k] == prior[2 * k]);
                            assert(out@[2 * k + 1] == prior[2 * k + 1]);
                        }
                    }
                }
                f = f + 1;
            }
        },
    }
    out
}

/// The left samples of stereo frames.
pub open spec fn left_side<S>(out: Seq<S>) -> Seq<S> {
    Seq::new(out.len() / 2, |f: int| out[2 * f])
}

/// Every sample twice.
pub open spec fn on_both_sides<S>(out: Seq<S>) -> Seq<S> {
    Seq::new(2 * out.len(), |i: int| out[i / 2])
}

/// The two samples of each stereo frame, swapped.
pub open spec fn sides_swapped<S>(out: Seq<S>) -> Seq<S> {
    Seq::new(
        out.len(),
        |i: int|
            if i % 2 == 0 {
                out[i + 1]
            } else {
                out[i - 1]
            },
    )
}

/// The sum in stereo is the sum in mono, on both sides: what `SumStereo` gives has equal sides,
/// each of which `SumMono` can give.
pub proof fn stereo_sum_is_mono_on_both_sides<S, G, M: MixMath<S, G>>(
    m: M,
    blocks: Seq<Vec<S>>,
    legs: Seq<BusLegConfig<G>>,
    frames: nat,
    out: Seq<S>,
)
    requires
        is_mix::<S, G, M>(m, blocks, legs, MixMode::SumStereo, frames as int, out),
    ensures
        is_mix::<S, G, M>(m, blocks, legs, MixMode::SumMono, frames as int, left_side(out)),
        out == on_both_sides(left_side(out)),
{
    let left = left_side(out);
    assert(left.len() == frames);
    assert forall|f: int| 0 <= f < frames implies is_summed_frame::<S, G, M>(
        m,
        blocks,
        legs,
        f,
        #[trigger] left[f],
    ) by {
        assert(left[f] == out[2 * f]);
    }
    assert forall|i: int| 0 <= i < out.len() implies #[trigger] out[i] == on_both_sides(left)[i] by {
        let f = i / 2;
        assert(out[2 * f + 1] == out[2 * f]);
        assert(i == 2 * f || i == 2 * f + 1);
    }
    assert(out =~= on_both_sides(left));
}

/// What `SumMono` gives, `SumStereo` can give on both sides.
pub proof fn mono_sum_on_both_sides_is_stereo_sum<S, G, M: MixMath<S, G>>(
    m: M,
    blocks: Seq<Vec<S>>,
    legs: Seq<BusLegConfig<G>>,
    frames: nat,
    out: Seq<S>,
)
    requires
        is_mix::<S, G, M>(m, blocks, legs, MixMode::SumMono, frames as int, out),
    ensures
        is_mix::<S, G, M>(
            m,
            blocks,
            legs,
            MixMode::SumStereo,
            frames as int,
            on_both_sides(out),
        ),
{
    let both = on_both_sides(out);
    assert(out.len() == frames) by {
        assert(MixMode::SumMono.channels() == 1);
    }
    assert(both.len() == frames * 2);
    assert forall|f: int|
        #![trigger both[2 * f]]
        0 <= f < frames implies is_summed_frame::<S, G, M>(m, blocks, legs, f, both[2 * f])
        && both[2 * f + 1] == both[2 * f] by {
        assert(both[2 * f] == out[f]);
        assert(both[2 * f + 1] == out[f]);
    }
}

/// The arithmetic gives the same result for the same arguments.
pub open spec fn is_deterministic<S, G, M: MixMath<S, G>>(m: M) -> bool {
    &&& forall|a: S, b: S|
        #![trigger
            call_ensures(M::zero, (&m,), a),
            call_ensures(M::zero, (&m,), b)
        ]
        call_ensures(M::zero, (&m,), a) && call_ensures(M::zero, (&m,), b) ==> a == b
    &&& forall|sum: S, x: S, a: S, b: S|
        #![trigger
            call_ensures(M::accumulate, (&m, sum, x), a),
            call_ensures(M::accumulate, (&m, sum, x), b)
        ]
        call_ensures(M::accumulate, (&m, sum, x), a) && call_ensures(
            M::accumulate,
            (&m, sum, x),
            b,
        ) ==> a == b
    &&& forall|sum: S, n: u32, a: S, b: S|
        #![trigger
            call_ensures(M::mean, (&m, sum, n), a),
            call_ensures(M::mean, (&m, sum, n), b)
        ]
        call_ensures(M::mean, (&m, sum, n), a) && call_ensures(M::mean, (&m, sum, n), b) ==> a == b
    &&& forall|x: S, gain: G, a: S, b: S|
        #![trigger
            call_ensures(M::scale, (&m, x, gain), a),
            call_ensures(M::scale, (&m, x, gain), b)
        ]
        call_ensures(M::scale, (&m, x, gain), a) && call_ensures(M::scale, (&m, x, gain), b) ==> a
            == b
    &&& forall|sum: S, a: S, b: S|
        #![trigger
            call_ensures(M::limit, (&m, sum), a),
            call_ensures(M::limit, (&m, sum), b)
        ]
        call_ensures(M::limit, (&m, sum), a) && call_ensures(M::limit, (&m, sum), b) ==> a == b
}

proof fn lemma_one_trace<S, G, M: MixMath<S, G>>(
    m: M,
    xs: Seq<S>,
    a: Seq<S>,
    b: Seq<S>,
    i: int,
)
    requires
        is_deterministic::<S, G, M>(m),
        sum_trace::<S, G, M>(m, xs, a),
        sum_trace::<S, G, M>(m, xs, b),
        0 <= i <= xs.len(),
    ensures
        a[i] == b[i],
    decreases i,
{
    if i > 0 {
        lemma_one_trace::<S, G, M>(m, xs, a, b, i - 1);
        assert(call_ensures(M::accumulate, (&m, a[i - 1], xs[i - 1]), a[i - 1 + 1]));
        assert(call_ensures(M::accumulate, (&m, b[i - 1], xs[i - 1]), b[i - 1 + 1]));
    }
}

proof fn lemma_one_sum<S, G, M: MixMath<S, G>>(m: M, xs: Seq<S>, a: S, b: S)
    requires
        is_deterministic::<S, G, M>(m),
        is_sum::<S, G, M>(m, xs, a),
        is_sum::<S, G, M>(m, xs, b),
    ensures
        a == b,
{
    let s = choose|t: Seq<S>| #[trigger] sum_trace::<S, G, M>(m, xs, t) && a == t[xs.len() as int];
    let t = choose|t: Seq<S>| #[trigger] sum_trace::<S, G, M>(m, xs, t) && b == t[xs.len() as int];
    lemma_one_trace::<S, G, M>(m, xs, s, t, xs.len() as int);
}

proof fn lemma_one_leg_value<S, G, M: MixMath<S, G>>(
    m: M,
    block: Seq<S>,
    leg: BusLegConfig<G>,
    frame: int,
    a: S,
    b: S,
)
    requires
        is_deterministic::<S, G, M>(m),
        is_leg_value::<S, G, M>(m, block, leg, frame, a),
        is_leg_value::<S, G, M>(m, block, leg, frame, b),
    ensures
        a == b,
{
    let channels = leg.frame_channels() as int;
    let c = choose|d: S| #[trigger]
        is_downmix::<S, G, M>(m, block, frame, channels, d) && call_ensures(
            M::scale,
            (&m, d, leg.gain),
            a,
        );
    let d = choose|d: S| #[trigger]
        is_downmix::<S, G, M>(m, block, frame, channels, d) && call_ensures(
            M::scale,
            (&m, d, leg.gain),
            b,
        );
    let xs = frame_samples(block, frame, channels);
    if xs.len() > 0 {
        let p = choose|sum: S| #[trigger]
            is_sum::<S, G, M>(m, xs, sum) && call_ensures(M::mean, (&m, sum, xs.len() as u32), c);
        let q = choose|sum: S| #[trigger]
            is_sum::<S, G, M>(m, xs, sum) && call_ensures(M::mean, (&m, sum, xs.len() as u32), d);
        lemma_one_sum::<S, G, M>(m, xs, p, q);
    }
    assert(c == d);
}

proof fn lemma_one_summed_frame<S, G, M: MixMath<S, G>>(
    m: M,
    blocks: Seq<Vec<S>>,
    legs: Seq<BusLegConfig<G>>,
    frame: int,
    a: S,
    b: S,
)
    requires
        is_deterministic::<S, G, M>(m),
        is_summed_frame::<S, G, M>(m, blocks, legs, frame, a),
        is_summed_frame::<S, G, M>(m, blocks, legs, frame, b),
    ensures
        a == b,
{
    let (u, p) = choose|u: Seq<S>, p: S|
        {
            &&& #[trigger] are_leg_values::<S, G, M>(m, blocks, legs, frame, u)
            &&& #[trigger] is_sum::<S, G, M>(m, u, p)
            &&& call_ensures(M::limit, (&m, p), a)
        };
    let (v, q) = choose|v: Seq<S>, q: S|
        {
            &&& #[trigger] are_leg_values::<S, G, M>(m, blocks, legs, frame, v)
            &&& #[trigger] is_sum::<S, G, M>(m, v, q)
            &&& call_ensures(M::limit, (&m, q), b)
        };
    assert forall|i: int| 0 <= i < u.len() implies u[i] == v[i] by {
        lemma_one_leg_value::<S, G, M>(m, blocks[i]@, legs[i], frame, u[i], v[i]);
    }
    assert(u =~= v);
    lemma_one_sum::<S, G, M>(m, u, p, q);
}

proof fn lemma_one_routed_frame<S, G, M: MixMath<S, G>>(
    m: M,
    block: Seq<S>,
    leg: BusLegConfig<G>,
    frame: int,
    a: S,
    b: S,
)
    requires
        is_deterministic::<S, G, M>(m),
        is_routed_frame::<S, G, M>(m, block, leg, frame, a),
        is_routed_frame::<S, G, M>(m, block, leg, frame, b),
    ensures
        a == b,
{
    let u = choose|v: S| #[trigger]
        is_leg_value::<S, G, M>(m, block, leg, frame, v) && call_ensures(M::limit, (&m, v), a);
    let v = choose|v: S| #[trigger]
        is_leg_value::<S, G, M>(m, block, leg, frame, v) && call_ensures(M::limit, (&m, v), b);
    lemma_one_leg_value::<S, G, M>(m, block, leg, frame, u, v);
}

/// `SumStereo` gives on both sides what `SumMono` gives of the same blocks, where the arithmetic
/// gives the same result for the same arguments.
pub proof fn stereo_sum_equals_mono_sum<S, G, M: MixMath<S, G>>(
    m: M,
    blocks: Seq<Vec<S>>,
    legs: Seq<BusLegConfig<G>>,
    frames: nat,
    mono: Seq<S>,
    stereo: Seq<S>,
)
    requires
        is_deterministic::<S, G, M>(m),
        is_mix::<S, G, M>(m, blocks, legs, MixMode::SumMono, frames as int, mono),
        is_mix::<S, G, M>(m, blocks, legs, MixMode::SumStereo, frames as int, stereo),
    ensures
        forall|f: int| #![trigger mono[f]]
            0 <= f < frames ==> stereo[2 * f] == mono[f] && stereo[2 * f + 1] == mono[f],
        stereo == on_both_sides(mono),
{
    stereo_sum_is_mono_on_both_sides::<S, G, M>(m, blocks, legs, frames, stereo);
    let left = left_side(stereo);
    assert(left.len() == frames && mono.len() == frames) by {
        assert(MixMode::SumMono.channels() == 1);
    }
    assert forall|f: int| 0 <= f < frames implies left[f] == mono[f] by {
        lemma_one_summed_frame::<S, G, M>(m, blocks, legs, f, left[f], mono[f]);
    }
    assert(left =~= mono);
    assert forall|f: int| #![trigger mono[f]] 0 <= f < frames implies stereo[2 * f] == mono[f]
        && stereo[2 * f + 1] == mono[f] by {
        assert(on_both_sides(mono)[2 * f] == mono[f]);
        assert(on_both_sides(mono)[2 * f + 1] == mono[f]);
    }
}

/// Two legs side by side: each side depends on its own leg alone, where the arithmetic gives the
/// same result for the same arguments.
pub proof fn split_sides_depend_on_their_own_leg<S, G, M: MixMath<S, G>>(
    m: M,
    blocks: Seq<Vec<S>>,
    legs: Seq<BusLegConfig<G>>,
    out: Seq<S>,
    other_blocks: Seq<Vec<S>>,
    other_legs: Seq<BusLegConfig<G>>,
    other_out: Seq<S>,
    frames: nat,
)
    requires
        is_deterministic::<S, G, M>(m),
        is_mix::<S, G, M>(m, blocks, legs, MixMode::SplitStereo, frames as int, out),
        is_mix::<S, G, M>(
            m,
            other_blocks,
            other_legs,
            MixMode::SplitStereo,
            frames as int,
            other_out,
        ),
    ensures
        blocks[0]@ == other_blocks[0]@ && legs[0] == other_legs[0] ==> forall|f: int|
            #![trigger out[2 * f]]
            0 <= f < frames ==> out[2 * f] == other_out[2 * f],
        blocks[1]@ == other_blocks[1]@ && legs[1] == other_legs[1] ==> forall|f: int|
            #![trigger out[2 * f + 1]]
            0 <= f < frames ==> out[2 * f + 1] == other_out[2 * f + 1],
{
    if blocks[0]@ == other_blocks[0]@ && legs[0] == other_legs[0] {
        assert forall|f: int|
            #![trigger out[2 * f]]
            0 <= f < frames implies out[2 * f] == other_out[2 * f] by {
            lemma_one_routed_frame::<S, G, M>(
                m,
                blocks[0]@,
                legs[0],
                f,
                out[2 * f],
                other_out[2 * f],
            );
        }
    }
    if blocks[1]@ == other_blocks[1]@ && legs[1] == other_legs[1] {
        assert forall|f: int|
            #![trigger out[2 * f + 1]]
            0 <= f < frames implies out[2 * f + 1] == other_out[2 * f + 1] by {
            assert(is_routed_frame::<S, G, M>(m, blocks[0]@, legs[0], f, out[2 * f]));
            assert(is_routed_frame::<S, G, M>(
                m,
                other_blocks[0]@,
                other_legs[0],
                f,
                other_out[2 * f],
            ));
            lemma_one_routed_frame::<S, G, M>(
                m,
                blocks[1]@,
                legs[1],
                f,
                out[2 * f + 1],
                other_out[2 * f + 1],
            );
        }
    }
}

/// Two legs side by side: with the legs swapped, the sides are.
pub proof fn swapped_legs_swap_the_sides<S, G, M: MixMath<S, G>>(
    m: M,
    blocks: Seq<Vec<S>>,
    legs: Seq<BusLegConfig<G>>,
    frames: nat,
    out: Seq<S>,
)
    requires
        blocks.len() == 2,
        legs.len() == 2,
        is_mix::<S, G, M>(m, blocks, legs, MixMode::SplitStereo, frames as int, out),
    ensures
        is_mix::<S, G, M>(
            m,
            seq![blocks[1], blocks[0]],
            seq![legs[1], legs[0]],
            MixMode::SplitStereo,
            frames as int,
            sides_swapped(out),
        ),
{
    let turned = sides_swapped(out);
    assert forall|f: int|
        #![trigger turned[2 * f]]
        0 <= f < frames implies is_routed_frame::<S, G, M>(
        m,
        blocks[1]@,
        legs[1],
        f,
        turned[2 * f],
    ) && is_routed_frame::<S, G, M>(m, blocks[0]@, legs[0], f, turned[2 * f + 1]) by {
        assert(turned[2 * f] == out[2 * f + 1]);
        assert(turned[2 * f + 1] == out[2 * f]);
    }
}

/// The sum of whole numbers.
pub open spec fn total(xs: Seq<int>) -> int
    decreases xs.len(),
{
    if xs.len() == 0 {
        0
    } else {
        total(xs.drop_last()) + xs.last()
    }
}

/// How many samples of frame `frame` a block of `len` samples holds.
pub open spec fn held(len: nat, frame: int, channels: nat) -> nat {
    if frame * channels >= len {
        0
    } else if (frame + 1) * channels > len {
        (len - frame * channels) as nat
    } else {
        channels
    }
}

/// The arithmetic adds, averages and scales as whole numbers do, where `worth` is a sample's
/// number and `weight` a gain's.
pub open spec fn counts<S, G, M: MixMath<S, G>>(
    m: M,
    worth: spec_fn(S) -> int,
    weight: spec_fn(G) -> int,
) -> bool {
    &&& forall|r: S| #[trigger] call_ensures(M::zero, (&m,), r) ==> worth(r) == 0
    &&& forall|sum: S, x: S, r: S| #[trigger]
        call_ensures(M::accumulate, (&m, sum, x), r) ==> worth(r) == worth(sum) + worth(x)
    &&& forall|sum: S, n: u32, r: S, k: int|
        #![trigger call_ensures(M::mean, (&m, sum, n), r), n * k]
        call_ensures(M::mean, (&m, sum, n), r) && n > 0 && worth(sum) == n * k ==> worth(r) == k
    &&& forall|x: S, gain: G, r: S| #[trigger]
        call_ensures(M::scale, (&m, x, gain), r) ==> worth(r) == worth(x) * weight(gain)
}

/// A sum counts every sample: where the arithmetic counts in whole numbers, the number of a sum is
/// the sum of the samples' numbers.
pub proof fn a_sum_counts<S, G, M: MixMath<S, G>>(
    m: M,
    xs: Seq<S>,
    r: S,
    worth: spec_fn(S) -> int,
    weight: spec_fn(G) -> int,
)
    requires
        counts::<S, G, M>(m, worth, weight),
        is_sum::<S, G, M>(m, xs, r),
    ensures
        worth(r) == total(Seq::new(xs.len(), |i: int| worth(xs[i]))),
{
    let trace = choose|trace: Seq<S>| #[trigger]
        sum_trace::<S, G, M>(m, xs, trace) && r == trace[xs.len() as int];
    lemma_trace_counts::<S, G, M>(m, xs, trace, worth, weight, xs.len());
}

proof fn lemma_trace_counts<S, G, M: MixMath<S, G>>(
    m: M,
    xs: Seq<S>,
    trace: Seq<S>,
    worth: spec_fn(S) -> int,
    weight: spec_fn(G) -> int,
    n: nat,
)
    requires
        counts::<S, G, M>(m, worth, weight),
        sum_trace::<S, G, M>(m, xs, trace),
        n <= xs.len(),
    ensures
        worth(trace[n as int]) == total(Seq::new(n, |i: int| worth(xs[i]))),
    decreases n,
{
    if n > 0 {
        let before = (n - 1) as nat;
        lemma_trace_counts::<S, G, M>(m, xs, trace, worth, weight, before);
        assert(call_ensures(M::accumulate, (&m, trace[n - 1], xs[n - 1]), trace[n - 1 + 1]));
        assert(Seq::new(n, |i: int| worth(xs[i])).drop_last() =~= Seq::new(
            before,
            |i: int| worth(xs[i]),
        ));
    }
}

proof fn lemma_leg_counts<S, G, M: MixMath<S, G>>(
    m: M,
    block: Seq<S>,
    leg: BusLegConfig<G>,
    frame: int,
    r: S,
    worth: spec_fn(S) -> int,
    weight: spec_fn(G) -> int,
    mean: int,
)
    requires
        counts::<S, G, M>(m, worth, weight),
        is_leg_value::<S, G, M>(m, block, leg, frame, r),
        frame >= 0,
        total(
            Seq::new(
                held(block.len(), frame, leg.frame_channels()),
                |c: int| worth(block[frame * leg.frame_channels() + c]),
            ),
        ) == held(block.len(), frame, leg.frame_channels()) * mean,
        held(block.len(), frame, leg.frame_channels()) == 0 ==> mean == 0,
    ensures
        worth(r) == mean * weight(leg.gain),
{
    let channels = leg.frame_channels();
    let n = held(block.len(), frame, channels);
    let d = choose|d: S| #[trigger]
        is_downmix::<S, G, M>(m, block, frame, channels as int, d) && call_ensures(
            M::scale,
            (&m, d, leg.gain),
            r,
        );
    let xs = frame_samples(block, frame, channels as int);
    assert(frame * channels + channels == (frame + 1) * channels) by (nonlinear_arith);
    assert(frame * channels >= 0) by (nonlinear_arith)
        requires
            frame >= 0,
    ;
    assert(xs.len() == n);
    assert(Seq::new(xs.len(), |i: int| worth(xs[i])) =~= Seq::new(
        n,
        |c: int| worth(block[frame * channels + c]),
    ));
    if n > 0 {
        let sum = choose|sum: S| #[trigger]
            is_sum::<S, G, M>(m, xs, sum) && call_ensures(M::mean, (&m, sum, xs.len() as u32), d);
        a_sum_counts::<S, G, M>(m, xs, sum, worth, weight);
        assert(n <= u16::MAX);
        let count = xs.len() as u32;
        assert(worth(sum) == count * mean);
    }
}

/// A sum adds up every leg at its gain: where the arithmetic counts in whole numbers, and each
/// leg's samples of the frame have the given mean, each sample that a sum puts out for the frame
/// is the limited sum of all the means times their legs' gains.
pub proof fn a_sum_counts_every_leg<S, G, M: MixMath<S, G>>(
    m: M,
    blocks: Seq<Vec<S>>,
    legs: Seq<BusLegConfig<G>>,
    mode: MixMode,
    frames: int,
    out: Seq<S>,
    worth: spec_fn(S) -> int,
    weight: spec_fn(G) -> int,
    frame: int,
    means: Seq<int>,
)
    requires
        is_mix::<S, G, M>(m, blocks, legs, mode, frames, out),
        mode != MixMode::SplitStereo,
        counts::<S, G, M>(m, worth, weight),
        0 <= frame < frames,
        means.len() == legs.len(),
        forall|i: int|
            #![trigger means[i]]
            0 <= i < legs.len() ==> {
                let channels: nat = if legs[i].source_format.channels == 0 {
                    1
                } else {
                    legs[i].source_format.channels as nat
                };
                let n = held(blocks[i]@.len(), frame, channels);
                &&& total(Seq::new(n, |c: int| worth(blocks[i]@[frame * channels + c]))) == n
                    * means[i]
                &&& n == 0 ==> means[i] == 0
            },
    ensures
        out.len() == if mode == MixMode::SumMono {
            frames
        } else {
            2 * frames
        },
        ({
            let sum = total(Seq::new(legs.len(), |i: int| means[i] * weight(legs[i].gain)));
            if mode == MixMode::SumMono {
                exists|x: S| #[trigger]
                    call_ensures(M::limit, (&m, x), out[frame]) && worth(x) == sum
            } else {
                &&& exists|x: S| #[trigger]
                    call_ensures(M::limit, (&m, x), out[2 * frame]) && worth(x) == sum
                &&& out[2 * frame + 1] == out[2 * frame]
            }
        }),
{
    lemma_mix_length(mode, frames);
    let place = if mode == MixMode::SumMono {
        frame
    } else {
        2 * frame
    };
    let r = out[place];
    assert(is_summed_frame::<S, G, M>(m, blocks, legs, frame, r)) by {
        if mode != MixMode::SumMono {
            assert(is_summed_frame::<S, G, M>(m, blocks, legs, frame, out[2 * frame]));
        }
    }
    let (values, x) = choose|values: Seq<S>, sum: S|
        {
            &&& #[trigger] are_leg_values::<S, G, M>(m, blocks, legs, frame, values)
            &&& #[trigger] is_sum::<S, G, M>(m, values, sum)
            &&& call_ensures(M::limit, (&m, sum), r)
        };
    a_sum_counts::<S, G, M>(m, values, x, worth, weight);
    assert forall|i: int| 0 <= i < legs.len() implies worth(#[trigger] values[i]) == means[i]
        * weight(legs[i].gain) by {
        lemma_leg_counts::<S, G, M>(
            m,
            blocks[i]@,
            legs[i],
            frame,
            values[i],
            worth,
            weight,
            means[i],
        );
    }
    assert(Seq::new(values.len(), |i: int| worth(values[i])) =~= Seq::new(
        legs.len(),
        |i: int| means[i] * weight(legs[i].gain),
    ));
    assert(call_ensures(M::limit, (&m, x), r));
}

/// A split gives each leg its side: where the arithmetic counts in whole numbers, the left sample
/// of a frame is the limited mean of the first leg's samples at its gain, the right one that of
/// the second leg's.
pub proof fn a_split_counts_each_leg_alone<S, G, M: MixMath<S, G>>(
    m: M,
    blocks: Seq<Vec<S>>,
    legs: Seq<BusLegConfig<G>>,
    frames: int,
    out: Seq<S>,
    worth: spec_fn(S) -> int,
    weight: spec_fn(G) -> int,
    frame: int,
    side: int,
    mean: int,
)
    requires
        is_mix::<S, G, M>(m, blocks, legs, MixMode::SplitStereo, frames, out),
        counts::<S, G, M>(m, worth, weight),
        0 <= frame < frames,
        0 <= side < 2,
        ({
            let channels: nat = if legs[side].source_format.channels == 0 {
                1
            } else {
                legs[side].source_format.channels as nat
            };
            let n = held(blocks[side]@.len(), frame, channels);
            &&& total(Seq::new(n, |c: int| worth(blocks[side]@[frame * channels + c]))) == n
                * mean
            &&& n == 0 ==> mean == 0
        }),
    ensures
        out.len() == 2 * frames,
        exists|x: S| #[trigger]
            call_ensures(M::limit, (&m, x), out[2 * frame + side]) && worth(x) == mean * weight(
                legs[side].gain,
            ),
{
    lemma_mix_length(MixMode::SplitStereo, frames);
    let r = out[2 * frame + side];
    assert(is_routed_frame::<S, G, M>(m, blocks[0]@, legs[0], frame, out[2 * frame]));
    assert(is_routed_frame::<S, G, M>(m, blocks[side]@, legs[side], frame, r));
    let v = choose|v: S| #[trigger]
        is_leg_value::<S, G, M>(m, blocks[side]@, legs[side], frame, v) && call_ensures(
            M::limit,
            (&m, v),
            r,
        );
    lemma_leg_counts::<S, G, M>(
        m,
        blocks[side]@,
        legs[side],
        frame,
        v,
        worth,
        weight,
        mean,
    );
    assert(call_ensures(M::limit, (&m, v), r));
}

/// Every sample that a mix puts out came from the limiter: a range that the limiter never leaves
/// is one that no sample of the mix leaves, in any mode, whatever the legs hold.
pub proof fn a_mix_stays_within_the_limits<S, G, M: MixMath<S, G>>(
    m: M,
    blocks: Seq<Vec<S>>,
    legs: Seq<BusLegConfig<G>>,
    mode: MixMode,
    frames: int,
    out: Seq<S>,
    in_range: spec_fn(S) -> bool,
)
    requires
        is_mix::<S, G, M>(m, blocks, legs, mode, frames, out),
        forall|x: S, r: S| #[trigger] call_ensures(M::limit, (&m, x), r) ==> in_range(r),
    ensures
        forall|i: int| 0 <= i < out.len() ==> in_range(#[trigger] out[i]),
{
    assert forall|i: int| 0 <= i < out.len() implies in_range(#[trigger] out[i]) by {
        lemma_sample_is_limited::<S, G, M>(m, blocks, legs, mode, frames, out, i);
    }
}

proof fn lemma_mix_length(mode: MixMode, frames: int)
    ensures
        frames * mode.channels() == if mode == MixMode::SumMono {
            frames
        } else {
            2 * frames
        },
{
    let channels = mode.channels() as int;
    assert(channels == 1 ==> frames * channels == frames) by (nonlinear_arith);
    assert(channels == 2 ==> frames * channels == 2 * frames) by (nonlinear_arith);
}

proof fn lemma_sample_is_limited<S, G, M: MixMath<S, G>>(
    m: M,
    blocks: Seq<Vec<S>>,
    legs: Seq<BusLegConfig<G>>,
    mode: MixMode,
    frames: int,
    out: Seq<S>,
    i: int,
)
    requires
        is_mix::<S, G, M>(m, blocks, legs, mode, frames, out),
        0 <= i < out.len(),
    ensures
        exists|x: S| #[trigger] call_ensures(M::limit, (&m, x), out[i]),
{
    lemma_mix_length(mode, frames);
    match mode {
        MixMode::SumMono => {
            assert(is_summed_frame::<S, G, M>(m, blocks, legs, i, out[i]));
        },
        MixMode::SumStereo => {
            let f = i / 2;
            assert(is_summed_frame::<S, G, M>(m, blocks, legs, f, out[2 * f]));
            assert(i == 2 * f || i == 2 * f + 1);
        },
        MixMode::SplitStereo => {
            let f = i / 2;
            assert(is_routed_frame::<S, G, M>(m, blocks[0]@, legs[0], f, out[2 * f]));
            assert(i == 2 * f || i == 2 * f + 1);
        },
    }
}

/// `b` is the mix of one block of each leg, as a block of the bus.
pub open spec fn is_mixed_block<S, G, M: MixMath<S, G>>(
    m: M,
    config: BusMixerConfig<G>,
    blocks: Seq<Vec<S>>,
    frames: usize,
    captured_at: Instant,
    frame_index: u64,
    b: AudioBuffer<S>,
) -> bool {
    &&& b.format == config.mix_format()
    &&& b.frames == frames
    &&& b.captured_at == captured_at
    &&& b.frame_index == frame_index
    &&& b.well_formed()
    &&& is_mix::<S, G, M>(m, blocks, config.legs@, config.mix_mode, frames as int, b.samples())
}

/// Mixes one block of each leg.
pub fn mixed_block<S: Copy, G: Copy, M: MixMath<S, G>>(
    m: &M,
    config: &BusMixerConfig<G>,
    blocks: &Vec<Vec<S>>,
    frames: usize,
    captured_at: Instant,
    frame_index: u64,
) -> (b: AudioBuffer<S>)
    requires
        config.valid(),
        blocks@.len() == config.legs@.len(),
        frames <= BLOCK_SIZE,
    ensures
        is_mixed_block::<S, G, M>(*m, *config, blocks@, frames, captured_at, frame_index, b),
{
    let data = mix_n_blocks(m, blocks, &config.legs, config.mix_mode, frames);
    let format = config.output_format();
    proof {
        let c = config.mix_mode.channels() as int;
        assert(frames * c == c * frames) by (nonlinear_arith);
    }
    AudioBuffer::new(format, Arc::new(data), frames, captured_at, frame_index)
}

/// Mixes one block of each leg and runs the processors of the bus on the mix. What comes of it is
/// what the bus puts out.
pub fn emit_block<S: Copy + Default, G: Copy, M: MixMath<S, G>>(
    m: &M,
    config: &BusMixerConfig<G>,
    blocks: &Vec<Vec<S>>,
    frames: usize,
    captured_at: Instant,
    frame_index: u64,
    post_chain: &mut Vec<Box<dyn AudioProcessor<S>>>,
    metrics: &mut PipelineMetrics,
) -> (b: AudioBuffer<S>)
    requires
        config.valid(),
        blocks@.len() == config.legs@.len(),
        frames <= BLOCK_SIZE,
    ensures
        exists|mixed: AudioBuffer<S>, steps: Seq<ChainStep<S>>|
            {
                &&& is_mixed_block::<S, G, M>(
                    *m,
                    *config,
                    blocks@,
                    frames,
                    captured_at,
                    frame_index,
                    mixed,
                )
                &&& #[trigger] crate::processing::are_steps_of(
                    old(post_chain)@,
                    mixed,
                    steps,
                    config.plugin_budget_per_plugin,
                )
                &&& crate::processing::have_taken(final(post_chain)@, steps)
                &&& b == crate::processing::chain_result(
                    mixed,
                    steps,
                    config.plugin_budget_per_plugin,
                )
                &&& *final(metrics) == crate::processing::with_timeouts(
                    *old(metrics),
                    crate::processing::bypass_count(steps, config.plugin_budget_per_plugin),
                )
            },
{
    let mixed = mixed_block(m, config, blocks, frames, captured_at, frame_index);
    proof {
        let c = config.mix_mode.channels() as int;
        assert(frames * c <= 2 * 480 && c * frames <= 2 * 480) by (nonlinear_arith)
            requires
                0 <= frames <= 480,
                0 <= c <= 2,
        ;
    }
    run_processor_chain(mixed, post_chain, config.plugin_budget_per_plugin, metrics)
}

} // verus!
