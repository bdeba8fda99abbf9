//! Per-source ingest: the raw tap first, then the processor chain, then analyzers and the
//! processed tap.

use std::sync::Arc;
use std::time::Instant;

use vstd::prelude::*;

use crate::buffer::{AudioBuffer, SampleMap};
use crate::error::{RecordingError, Result};
use crate::format::AudioFormat;
pub use crate::metrics::PipelineMetrics;
use crate::processing::{passthrough_copy, run_processor_chain, ChainStep};
use crate::ring::FrameSender;
use crate::session::admits_block;
use crate::time::{elapsed_nanos, Duration};
use crate::traits::{AudioProcessor, Mark, MovesSamples};

verus! {

/// What a pipeline is made with.
#[derive(Debug, Clone, Copy, PartialEq, Eq, Structural)]
pub struct PipelineConfig {
    pub format: AudioFormat,
    /// Max number of pending PCM frames on the raw path.
    pub raw_queue_capacity: usize,
    /// Max number of pending PCM frames on the processed path.
    pub processed_queue_capacity: usize,
    /// Max number of pending PCM frames per analyzer tap.
    pub analyzer_queue_capacity: usize,
    /// Per-plugin wall-clock budget for a single `process` call (`None` = no limit).
    pub plugin_budget_per_plugin: Option<Duration>,
}

/// Per-source ingest: **always** pushes to the raw queue first, then runs the plugin chain.
#[verifier::reject_recursive_types(S)]
pub struct StreamPipeline<S> {
    pub config: PipelineConfig,
    pub raw_tx: Option<FrameSender<S>>,
    pub proc_tx: Option<FrameSender<S>>,
    pub analyzer_txs: Vec<FrameSender<S>>,
    pub chain: Vec<Box<dyn AudioProcessor<S>>>,
    pub metrics: PipelineMetrics,
}

/// A block of `frames` frames was handed to one queue: the queue took it, or it was dropped and
/// the counter went up by the number of frames. It is dropped only where the queue is full or has
/// no receiver left.
pub open spec fn offered<S>(
    before: FrameSender<S>,
    after: FrameSender<S>,
    block: AudioBuffer<S>,
    frames: u64,
    counter_before: u64,
    counter_after: u64,
) -> bool {
    ||| crate::ring::handed(before, after, block, true) && counter_after == counter_before
    ||| crate::ring::handed(before, after, block, false) && counter_after
        == counter_before.wrapping_add(frames)
}

/// [`offered`], to a queue that may not be there; then nothing happens.
pub open spec fn offered_opt<S>(
    before: Option<FrameSender<S>>,
    after: Option<FrameSender<S>>,
    block: AudioBuffer<S>,
    frames: u64,
    counter_before: u64,
    counter_after: u64,
) -> bool {
    match (before, after) {
        (Some(b), Some(a)) => offered(b, a, block, frames, counter_before, counter_after),
        (None, None) => counter_after == counter_before,
        _ => false,
    }
}

/// Each queue was handed the block; those that `taken` marks took it.
pub open spec fn offered_each<S>(
    before: Seq<FrameSender<S>>,
    after: Seq<FrameSender<S>>,
    block: AudioBuffer<S>,
    taken: Seq<bool>,
) -> bool {
    &&& after.len() == before.len()
    &&& taken.len() == before.len()
    &&& forall|i: int|
        #![trigger after[i]]
        0 <= i < before.len() ==> crate::ring::handed(before[i], after[i], block, taken[i])
}

/// How many queues did not take the block.
pub open spec fn refusals(taken: Seq<bool>) -> nat
    decreases taken.len(),
{
    if taken.len() == 0 {
        0
    } else {
        refusals(taken.drop_last()) + if taken.last() {
            0nat
        } else {
            1nat
        }
    }
}

/// A block was offered to each of several queues; one counter counts the frames of all the
/// drops.
pub open spec fn offered_all<S>(
    before: Seq<FrameSender<S>>,
    after: Seq<FrameSender<S>>,
    block: AudioBuffer<S>,
    frames: u64,
    counter_before: u64,
    counter_after: u64,
) -> bool {
    exists|taken: Seq<bool>| #[trigger]
        offered_each(before, after, block, taken) && counter_after == crate::metrics::counted(
            counter_before,
            frames,
            refusals(taken),
        )
}

/// Offers `block` to a queue; a drop adds its frames to `dropped`.
pub fn offer<S>(tx: &mut FrameSender<S>, block: AudioBuffer<S>, frames: u64, dropped: &mut u64)
    ensures
        offered(*old(tx), *final(tx), block, frames, *old(dropped), *final(dropped)),
{
    if tx.try_send(block).is_err() {
        *dropped = dropped.wrapping_add(frames);
    }
}

fn offer_opt<S>(
    tx: &mut Option<FrameSender<S>>,
    block: AudioBuffer<S>,
    frames: u64,
    dropped: &mut u64,
)
    ensures
        offered_opt(*old(tx), *final(tx), block, frames, *old(dropped), *final(dropped)),
{
    match tx {
        Some(q) => {
            offer(q, block, frames, dropped);
        },
        None => {},
    }
}

fn offer_all<S>(
    txs: &mut Vec<FrameSender<S>>,
    block: &AudioBuffer<S>,
    frames: u64,
    dropped: &mut u64,
)
    ensures
        offered_all(old(txs)@, final(txs)@, *block, frames, *old(dropped), *final(dropped)),
{
    let ghost before = txs@;
    let ghost start = *dropped;
    let ghost mut taken: Seq<bool> = Seq::empty();
    let mut i: usize = 0;
    while i < txs.len()
        invariant
            i <= txs@.len(),
            txs@.len() == before.len(),
            taken.len() == i,
            forall|k: int| i <= k < txs@.len() ==> txs@[k] == before[k],
            forall|k: int|
                #![trigger txs@[k]]
                0 <= k < i ==> crate::ring::handed(before[k], txs@[k], *block, taken[k]),
            *dropped == crate::metrics::counted(start, frames, refusals(taken)),
        decreases txs@.len() - i,
    {
        let ghost mid = *dropped;
        offer(&mut txs[i], block.clone(), frames, dropped);
        proof {
            let took = crate::ring::handed(before[i as int], txs@[i as int], *block, true)
                && *dropped == mid;
            assert(taken.push(took).drop_last() =~= taken);
            taken = taken.push(took);
        }
        i = i + 1;
    }
    assert(offered_each(before, txs@, *block, taken));
}

impl<S> StreamPipeline<S> {
    /// A pipeline that feeds the given queues.
    pub fn new(
        config: PipelineConfig,
        raw_tx: Option<FrameSender<S>>,
        proc_tx: Option<FrameSender<S>>,
        analyzer_txs: Vec<FrameSender<S>>,
        chain: Vec<Box<dyn AudioProcessor<S>>>,
        metrics: PipelineMetrics,
    ) -> (p: Self)
        ensures
            p == (StreamPipeline { config, raw_tx, proc_tx, analyzer_txs, chain, metrics }),
    {
        StreamPipeline { config, raw_tx, proc_tx, analyzer_txs, chain, metrics }
    }

    /// The counters so far.
    pub fn metrics(&self) -> (m: PipelineMetrics)
        ensures
            m == self.metrics,
    {
        self.metrics
    }

    /// The layout of the blocks that the pipeline is made for.
    pub fn format(&self) -> (f: AudioFormat)
        ensures
            f == self.config.format,
    {
        self.config.format
    }

    /// Closes the queues so writer threads can exit after draining.
    pub fn close(&mut self)
        ensures
            final(self).raw_tx is None,
            final(self).proc_tx is None,
            final(self).analyzer_txs@.len() == 0,
            final(self).config == old(self).config,
            final(self).chain == old(self).chain,
            final(self).metrics == old(self).metrics,
    {
        self.raw_tx = None;
        self.proc_tx = None;
        self.analyzer_txs.clear();
    }
}

/// What one call of [`StreamPipeline::ingest`] does to a pipeline when the processors take
/// the given steps.
pub open spec fn ingested<S: Default>(
    before: StreamPipeline<S>,
    after: StreamPipeline<S>,
    buffer: AudioBuffer<S>,
    steps: Seq<ChainStep<S>>,
) -> bool {
    let budget = before.config.plugin_budget_per_plugin;
    let processed = crate::processing::chain_result(buffer, steps, budget);
    let frames = buffer.frames as u64;
    &&& after.config == before.config
    &&& crate::processing::are_steps_of(before.chain@, buffer, steps, budget)
    &&& crate::processing::have_taken(after.chain@, steps)
    // The raw tap is offered the block as it came in.
    &&& offered_opt(
        before.raw_tx,
        after.raw_tx,
        buffer,
        frames,
        before.metrics.raw_frames_dropped,
        after.metrics.raw_frames_dropped,
    )
    // Analyzers and the processed tap are offered what left the chain.
    &&& offered_all(
        before.analyzer_txs@,
        after.analyzer_txs@,
        processed,
        frames,
        before.metrics.analyzer_frames_dropped,
        after.metrics.analyzer_frames_dropped,
    )
    &&& offered_opt(
        before.proc_tx,
        after.proc_tx,
        processed,
        frames,
        before.metrics.processed_frames_dropped,
        after.metrics.processed_frames_dropped,
    )
    &&& after.metrics.plugin_timeouts == crate::metrics::counted(
        before.metrics.plugin_timeouts,
        1,
        crate::processing::bypass_count(steps, budget),
    )
}

impl<S: Copy + Default> StreamPipeline<S> {
    /// Takes in one captured block. The raw tap happens **before** any plugin.
    pub fn ingest(&mut self, buffer: AudioBuffer<S>)
        requires
            buffer.format.sample_count(buffer.frames as nat) <= usize::MAX,
        ensures
            exists|steps: Seq<ChainStep<S>>| #[trigger]
                ingested(*old(self), *final(self), buffer, steps),
    {
        let ghost before = *self;
        let frames: u64 = buffer.frames as u64;
        let budget = self.config.plugin_budget_per_plugin;

        offer_opt(&mut self.raw_tx, buffer.clone(), frames, &mut self.metrics.raw_frames_dropped);

        let ghost counted_before = self.metrics;
        let ghost input = buffer;
        let processed = run_processor_chain(buffer, &mut self.chain, budget, &mut self.metrics);
        let ghost steps = choose|steps: Seq<ChainStep<S>>|
            {
                &&& #[trigger] crate::processing::are_steps_of(before.chain@, input, steps, budget)
                &&& crate::processing::have_taken(self.chain@, steps)
                &&& processed == crate::processing::chain_result(input, steps, budget)
                &&& self.metrics == crate::processing::with_timeouts(
                    counted_before,
                    crate::processing::bypass_count(steps, budget),
                )
            };

        offer_all(
            &mut self.analyzer_txs,
            &processed,
            frames,
            &mut self.metrics.analyzer_frames_dropped,
        );

        offer_opt(
            &mut self.proc_tx,
            processed,
            frames,
            &mut self.metrics.processed_frames_dropped,
        );
        assert(ingested(before, *self, input, steps));
    }
}

/// What a capture callback does with one block: while the pause gate is closed, nothing; otherwise
/// what [`StreamPipeline::ingest`] does.
pub fn capture_block<S: Copy + Default>(
    pipeline: &mut StreamPipeline<S>,
    paused: Option<bool>,
    buffer: AudioBuffer<S>,
)
    requires
        buffer.format.sample_count(buffer.frames as nat) <= usize::MAX,
    ensures
        paused == Some(true) ==> *final(pipeline) == *old(pipeline),
        paused != Some(true) ==> exists|steps: Seq<ChainStep<S>>| #[trigger]
            ingested(*old(pipeline), *final(pipeline), buffer, steps),
{
    if admits_block(paused) {
        pipeline.ingest(buffer);
    }
}

/// Raw isolation: what the raw tap is handed does not depend on the processors. Whatever
/// steps they took, the raw queue was handed the captured block unchanged; it holds that block, or
/// it dropped it and counted its frames. A queue with room and a receiver holds it.
pub proof fn raw_tap_is_independent_of_processors<S: Default>(
    before: StreamPipeline<S>,
    after: StreamPipeline<S>,
    buffer: AudioBuffer<S>,
    steps: Seq<ChainStep<S>>,
)
    requires
        ingested(before, after, buffer, steps),
        before.raw_tx is Some,
    ensures
        after.raw_tx is Some,
        after.raw_tx->0.offered() == before.raw_tx->0.offered().push(buffer),
        before.raw_tx->0.has_room() && !after.raw_tx->0.closed() ==> after.raw_tx->0.accepted()
            == before.raw_tx->0.accepted().push(buffer),
        ({
            ||| after.raw_tx->0.accepted() == before.raw_tx->0.accepted().push(buffer)
                && after.metrics.raw_frames_dropped == before.metrics.raw_frames_dropped
            ||| after.raw_tx->0.accepted() == before.raw_tx->0.accepted()
                && after.metrics.raw_frames_dropped
                == before.metrics.raw_frames_dropped.wrapping_add(buffer.frames as u64)
        }),
{
}

/// No path keeps the block from another: whatever the other queues answered and the processors
/// did, each queue was handed its block, and each one that has room and a receiver holds it. The
/// raw queue gets what was captured, the others what left the chain.
pub proof fn every_queue_is_handed_its_block<S: Default>(
    before: StreamPipeline<S>,
    after: StreamPipeline<S>,
    buffer: AudioBuffer<S>,
    steps: Seq<ChainStep<S>>,
)
    requires
        ingested(before, after, buffer, steps),
    ensures
        ({
            let processed = crate::processing::chain_result(
                buffer,
                steps,
                before.config.plugin_budget_per_plugin,
            );
            &&& before.raw_tx matches Some(b) ==> after.raw_tx matches Some(a) && got(b, a, buffer)
            &&& before.proc_tx matches Some(b) ==> after.proc_tx matches Some(a) && got(
                b,
                a,
                processed,
            )
            &&& after.analyzer_txs@.len() == before.analyzer_txs@.len()
            &&& forall|i: int|
                0 <= i < before.analyzer_txs@.len() ==> got(
                    before.analyzer_txs@[i],
                    #[trigger] after.analyzer_txs@[i],
                    processed,
                )
        }),
{
}

/// A queue was handed a block, and holds it where it had room and still has a receiver.
pub open spec fn got<S>(
    before: FrameSender<S>,
    after: FrameSender<S>,
    block: AudioBuffer<S>,
) -> bool {
    &&& after.offered() == before.offered().push(block)
    &&& before.has_room() && !after.closed() ==> after.accepted() == before.accepted().push(block)
}

/// When every processor fails or overruns its budget, the processed tap is offered the very
/// block that was captured, and each processor is counted once.
pub proof fn failing_processors_pass_the_block_through<S: Default>(
    before: StreamPipeline<S>,
    after: StreamPipeline<S>,
    buffer: AudioBuffer<S>,
    steps: Seq<ChainStep<S>>,
)
    requires
        ingested(before, after, buffer, steps),
        forall|i: int|
            0 <= i < steps.len() ==> crate::processing::bypassed(
                #[trigger] steps[i],
                before.config.plugin_budget_per_plugin,
            ),
    ensures
        offered_opt(
            before.proc_tx,
            after.proc_tx,
            buffer,
            buffer.frames as u64,
            before.metrics.processed_frames_dropped,
            after.metrics.processed_frames_dropped,
        ),
        after.metrics.plugin_timeouts == crate::metrics::counted(
            before.metrics.plugin_timeouts,
            1,
            before.chain@.len(),
        ),
{
    crate::processing::bypassed_chain_is_identity(
        buffer,
        steps,
        before.config.plugin_budget_per_plugin,
    );
}

/// A pipeline whose queues are closed drops nothing and hands nothing on.
pub proof fn closed_pipeline_counts_no_drops<S: Default>(
    before: StreamPipeline<S>,
    after: StreamPipeline<S>,
    buffer: AudioBuffer<S>,
    steps: Seq<ChainStep<S>>,
)
    requires
        ingested(before, after, buffer, steps),
        before.raw_tx is None,
        before.proc_tx is None,
        before.analyzer_txs@.len() == 0,
    ensures
        after.raw_tx is None,
        after.proc_tx is None,
        after.analyzer_txs@.len() == 0,
        after.metrics.raw_frames_dropped == before.metrics.raw_frames_dropped,
        after.metrics.processed_frames_dropped == before.metrics.processed_frames_dropped,
        after.metrics.analyzer_frames_dropped == before.metrics.analyzer_frames_dropped,
{
}

/// Utility plugin that changes every sample by one rule, such as a gain.
pub struct GainProcessor<M> {
    pub gain: M,
    pub name: String,
}

impl<M> GainProcessor<M> {
    /// A plugin called `gain(<label>)` that changes samples by `gain`.
    pub fn new(gain: M, label: &str) -> (p: Self)
        ensures
            p.gain == gain,
            p.name@ == "gain("@ + label@ + ")"@,
    {
        let mut name = String::new();
        crate::text::push_text(&mut name, "gain(");
        crate::text::push_text(&mut name, label);
        crate::text::push_text(&mut name, ")");
        assert(name@ =~= "gain("@ + label@ + ")"@);
        GainProcessor { gain, name }
    }
}

/// Each sample of `after` is the sample of `before` at its place, changed by `map`.
pub open spec fn is_changed_by<S, M: SampleMap<S, S>>(
    map: M,
    before: Seq<S>,
    after: Seq<S>,
) -> bool {
    &&& after.len() == before.len()
    &&& forall|i: int|
        0 <= i < before.len() ==> call_ensures(M::apply, (&map, before[i]), #[trigger] after[i])
}

impl<S: Copy, M: SampleMap<S, S>> AudioProcessor<S> for GainProcessor<M> {
    open spec fn may_leave(
        &self,
        input: AudioBuffer<S>,
        before: AudioBuffer<S>,
        after: AudioBuffer<S>,
        ok: bool,
        next: Mark,
    ) -> bool {
        &&& next == AudioProcessor::<S>::mark(self)
        &&& if ok {
            &&& after.format == input.format
            &&& after.frames == input.frames
            &&& after.captured_at == input.captured_at
            &&& after.frame_index == input.frame_index
            &&& is_changed_by(self.gain, input.samples(), after.samples())
        } else {
            after == before && (input.frames != before.frames || input.format != before.format)
        }
    }

    fn name(&self) -> (n: String)
        ensures
            n@ == self.name@,
    {
        self.name.clone()
    }

    fn process(&mut self, input: &AudioBuffer<S>, output: &mut AudioBuffer<S>) -> (r: Result<()>)
        ensures
            *final(self) == *old(self),
            r is Ok <==> input.frames == old(output).frames && input.format == old(output).format,
            r matches Err(e) ==> e == (RecordingError::FormatMismatch {
                expected: input.format,
                got: old(output).format,
            }) && *final(output) == *old(output),
            r is Ok ==> {
                &&& final(output).format == old(output).format
                &&& final(output).frames == old(output).frames
                &&& final(output).captured_at == input.captured_at
                &&& final(output).frame_index == input.frame_index
                &&& is_changed_by(old(self).gain, input.samples(), final(output).samples())
            },
    {
        if input.frames != output.frames || input.format != output.format {
            return Err(
                RecordingError::FormatMismatch { expected: input.format, got: output.format },
            );
        }
        output.captured_at = input.captured_at;
        output.frame_index = input.frame_index;
        let ghost gain = self.gain;
        let mut v: Vec<S> = Vec::new();
        let mut i: usize = 0;
        while i < input.data.len()
            invariant
                i <= input.samples().len(),
                v@.len() == i,
                gain == self.gain,
                forall|k: int|
                    0 <= k < i ==> call_ensures(
                        M::apply,
                        (&gain, input.samples()[k]),
                        #[trigger] v@[k],
                    ),
            decreases input.samples().len() - i,
        {
            let changed = self.gain.apply(input.data[i]);
            v.push(changed);
            i = i + 1;
        }
        output.data = Arc::new(v);
        Ok(())
    }
}

/// Plugin that busy-loops to simulate bad behaviour.
#[derive(Debug, Clone, Copy)]
pub struct SpinProcessor {
    pub spin_for: Duration,
}

impl<S> MovesSamples<S> for SpinProcessor {

}

impl<S> AudioProcessor<S> for SpinProcessor where SpinProcessor: MovesSamples<S> {
    open spec fn may_leave(
        &self,
        input: AudioBuffer<S>,
        before: AudioBuffer<S>,
        after: AudioBuffer<S>,
        ok: bool,
        next: Mark,
    ) -> bool {
        ok && after == input && next == AudioProcessor::<S>::mark(self)
    }

    fn name(&self) -> (n: String)
        ensures
            n@ == "spin"@,
    {
        "spin".to_owned()
    }

    fn process(&mut self, input: &AudioBuffer<S>, output: &mut AudioBuffer<S>) -> (r: Result<()>)
        ensures
            r is Ok,
            *final(output) == *input,
            *final(self) == *old(self),
    {
        let start = Instant::now();
        let mut turns: u64 = u64::MAX;
        while turns > 0 && elapsed_nanos(&start) < self.spin_for.as_nanos()
            invariant
                *self == *old(self),
            decreases turns,
        {
            turns = turns - 1;
        }
        passthrough_copy(input, output);
        Ok(())
    }
}

/// Every analyzer that does not take a block is counted: the count is that of the refusals, none
/// where all take it and all where none does.
pub proof fn every_refusal_is_counted(taken: Seq<bool>, refused: spec_fn(bool) -> bool)
    requires
        forall|t: bool| #[trigger] refused(t) == !t,
    ensures
        refusals(taken) == taken.filter(refused).len(),
        (forall|i: int| 0 <= i < taken.len() ==> #[trigger] taken[i]) ==> refusals(taken) == 0,
        (forall|i: int| 0 <= i < taken.len() ==> !#[trigger] taken[i]) ==> refusals(taken)
            == taken.len(),
    decreases taken.len(),
{
    reveal(Seq::filter);
    if taken.len() > 0 {
        let rest = taken.drop_last();
        every_refusal_is_counted(rest, refused);
        assert forall|i: int| 0 <= i < rest.len() implies #[trigger] rest[i] == taken[i] by {}
        assert(taken.last() == taken[taken.len() - 1]);
    }
}

/// A sample map changes each sample by itself: it keeps their number, and where it answers each
/// value with one value only, equal samples stay equal, wherever they stand.
pub proof fn samples_are_changed_one_by_one<S, M: SampleMap<S, S>>(
    map: M,
    before: Seq<S>,
    after: Seq<S>,
    image: spec_fn(S) -> S,
)
    requires
        is_changed_by(map, before, after),
        forall|x: S, y: S| #[trigger] call_ensures(M::apply, (&map, x), y) ==> y == image(x),
    ensures
        after == before.map_values(image),
{
    assert forall|i: int| 0 <= i < before.len() implies #[trigger] after[i] == image(
        before[i],
    ) by {
        assert(call_ensures(M::apply, (&map, before[i]), after[i]));
    }
    assert(after =~= before.map_values(image));
}

/// Every queue is offered the block, whether or not others take it: each one's offers grow by that
/// block, and it is accepted exactly where it was taken.
pub proof fn each_queue_is_offered_the_block<S>(
    before: Seq<FrameSender<S>>,
    after: Seq<FrameSender<S>>,
    block: AudioBuffer<S>,
    taken: Seq<bool>,
    i: int,
)
    requires
        offered_each(before, after, block, taken),
        0 <= i < before.len(),
    ensures
        after.len() == before.len(),
        after[i].offered() == before[i].offered().push(block),
        taken[i] ==> after[i].accepted() == before[i].accepted().push(block),
        !taken[i] ==> after[i].accepted() == before[i].accepted(),
        before[i].has_room() && !after[i].closed() ==> taken[i],
{
    assert(crate::ring::handed(before[i], after[i], block, taken[i]));
}

} // verus!
