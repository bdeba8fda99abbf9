//! Shared realtime processor chain (strip pipeline and bus post-mix).

use std::time::Instant;

use vstd::prelude::*;

use crate::buffer::AudioBuffer;
use crate::error::Result;
use crate::metrics::PipelineMetrics;
use crate::time::{elapsed_nanos, Duration};
use crate::traits::{AudioProcessor, Mark};

verus! {

/// What one processor did with the block it was given.
#[verifier::reject_recursive_types(S)]
pub struct ChainStep<S> {
    /// Whether it reported success.
    pub ok: bool,
    /// How long it took, in nanoseconds.
    pub elapsed: nat,
    /// What the output buffer held before.
    pub scratch: AudioBuffer<S>,
    /// What it left in the output buffer.
    pub output: AudioBuffer<S>,
    /// What it shows of its state afterwards.
    pub next: Mark,
}

/// A call that took `elapsed` nanoseconds overran its budget.
pub open spec fn over_budget(elapsed: nat, budget: Option<Duration>) -> bool {
    match budget {
        Some(b) => elapsed > b@,
        None => false,
    }
}

/// The output of the step is dropped and the block passes through unchanged.
pub open spec fn bypassed<S>(step: ChainStep<S>, budget: Option<Duration>) -> bool {
    !step.ok || over_budget(step.elapsed, budget)
}

/// The block that leaves a chain whose processors took the given steps.
pub open spec fn chain_result<S>(
    input: AudioBuffer<S>,
    steps: Seq<ChainStep<S>>,
    budget: Option<Duration>,
) -> AudioBuffer<S>
    decreases steps.len(),
{
    if steps.len() == 0 {
        input
    } else if bypassed(steps.last(), budget) {
        chain_result(input, steps.drop_last(), budget)
    } else {
        steps.last().output
    }
}

/// `blank` is a silent block of the shape of `input`.
pub open spec fn is_blank_for<S: Default>(input: AudioBuffer<S>, blank: AudioBuffer<S>) -> bool {
    &&& blank.format == input.format
    &&& blank.frames == input.frames
    &&& blank.captured_at == input.captured_at
    &&& blank.frame_index == input.frame_index
    &&& blank.well_formed()
    &&& exists|z: S| #[trigger]
        crate::buffer::is_silence(z) && blank.samples() == Seq::new(
            blank.samples().len(),
            |i: int| z,
        )
}

/// The step number `k` is one that the processor at that place may take: it is given what left the
/// processors before it, and writes to a blank block or, beyond the first processor, to the
/// block that the last one was given.
pub open spec fn is_step<S: Default>(
    chain: Seq<Box<dyn AudioProcessor<S>>>,
    input: AudioBuffer<S>,
    steps: Seq<ChainStep<S>>,
    budget: Option<Duration>,
    k: int,
) -> bool {
    let step = steps[k];
    &&& chain[k].may_leave(
        chain_result(input, steps.take(k), budget),
        step.scratch,
        step.output,
        step.ok,
        step.next,
    )
    &&& if k == 0 {
        is_blank_for(input, step.scratch)
    } else {
        step.scratch == chain_result(input, steps.take(k - 1), budget)
    }
}

/// The steps are ones that the processors of `chain` may take for `input`, in order.
pub open spec fn are_steps_of<S: Default>(
    chain: Seq<Box<dyn AudioProcessor<S>>>,
    input: AudioBuffer<S>,
    steps: Seq<ChainStep<S>>,
    budget: Option<Duration>,
) -> bool {
    &&& steps.len() == chain.len()
    &&& forall|k: int|
        0 <= k < steps.len() ==> #[trigger] is_step(chain, input, steps, budget, k)
}

/// The processors of the chain took one of the steps each, in place.
pub open spec fn have_taken<S>(
    chain: Seq<Box<dyn AudioProcessor<S>>>,
    steps: Seq<ChainStep<S>>,
) -> bool {
    &&& chain.len() == steps.len()
    &&& forall|k: int| 0 <= k < chain.len() ==> (#[trigger] chain[k]).mark() == steps[k].next
}

/// How many of the steps were bypassed.
pub open spec fn bypass_count<S>(steps: Seq<ChainStep<S>>, budget: Option<Duration>) -> nat
    decreases steps.len(),
{
    if steps.len() == 0 {
        0
    } else {
        bypass_count(steps.drop_last(), budget) + if bypassed(steps.last(), budget) {
            1nat
        } else {
            0nat
        }
    }
}

/// `metrics` after `times` more plugin timeouts.
pub open spec fn with_timeouts(metrics: PipelineMetrics, times: nat) -> PipelineMetrics {
    PipelineMetrics {
        plugin_timeouts: crate::metrics::counted(metrics.plugin_timeouts, 1, times),
        ..metrics
    }
}

/// Whether a call that took `elapsed` nanoseconds overran its budget.
pub fn exceeds_budget(elapsed: u128, budget: Option<Duration>) -> (r: bool)
    ensures
        r == over_budget(elapsed as nat, budget),
{
    match budget {
        Some(b) => elapsed > b.as_nanos(),
        None => false,
    }
}

/// Decides what follows from one processor call: its output goes on, or, when the call failed
/// or overran its budget, the block it was given goes on and the timeout is counted. The other
/// result is the block to overwrite next.
pub fn settle_step<S>(
    current: AudioBuffer<S>,
    output: AudioBuffer<S>,
    ok: bool,
    elapsed: u128,
    budget: Option<Duration>,
    metrics: &mut PipelineMetrics,
) -> (r: (AudioBuffer<S>, AudioBuffer<S>))
    ensures
        r.0 == if !ok || over_budget(elapsed as nat, budget) {
            current
        } else {
            output
        },
        r.1 == current,
        *final(metrics) == with_timeouts(
            *old(metrics),
            if !ok || over_budget(elapsed as nat, budget) {
                1
            } else {
                0
            },
        ),
{
    proof {
        reveal_with_fuel(crate::metrics::counted, 2);
    }
    let mut scratch = output;
    if !ok || exceeds_budget(elapsed, budget) {
        metrics.plugin_timeouts = metrics.plugin_timeouts.wrapping_add(1);
        passthrough_copy(&current, &mut scratch);
    }
    (scratch, current)
}

/// Makes `to` another handle on the block `from`.
pub fn passthrough_copy<S>(from: &AudioBuffer<S>, to: &mut AudioBuffer<S>)
    ensures
        *final(to) == *from,
{
    to.format = from.format;
    to.frames = from.frames;
    to.captured_at = from.captured_at;
    to.frame_index = from.frame_index;
    to.data = from.data.clone();
}

proof fn lemma_push_step<S>(
    input: AudioBuffer<S>,
    steps: Seq<ChainStep<S>>,
    step: ChainStep<S>,
    budget: Option<Duration>,
)
    ensures
        chain_result(input, steps.push(step), budget) == if bypassed(step, budget) {
            chain_result(input, steps, budget)
        } else {
            step.output
        },
        bypass_count(steps.push(step), budget) == bypass_count(steps, budget) + if bypassed(
            step,
            budget,
        ) {
            1nat
        } else {
            0nat
        },
{
    assert(steps.push(step).drop_last() =~= steps);
}

/// Runs `chain` over `input` in order: each processor is called once. A processor that fails or overruns `budget` is
/// bypassed: its block passes through unchanged and a timeout is counted.
pub fn run_processor_chain<S: Copy + Default>(
    input: AudioBuffer<S>,
    chain: &mut Vec<Box<dyn AudioProcessor<S>>>,
    budget: Option<Duration>,
    metrics: &mut PipelineMetrics,
) -> (r: AudioBuffer<S>)
    requires
        input.format.sample_count(input.frames as nat) <= usize::MAX,
    ensures
        exists|steps: Seq<ChainStep<S>>|
            {
                &&& #[trigger] are_steps_of(old(chain)@, input, steps, budget)
                &&& have_taken(final(chain)@, steps)
                &&& r == chain_result(input, steps, budget)
                &&& *final(metrics) == with_timeouts(*old(metrics), bypass_count(steps, budget))
            },
{
    let ghost mut steps: Seq<ChainStep<S>> = Seq::empty();
    let ghost before = *metrics;
    assert(with_timeouts(before, 0) == before);
    if chain.len() == 0 {
        assert(are_steps_of(chain@, input, steps, budget));
        return input;
    }
    let ghost first = input;
    let ghost processors = chain@;
    let mut scratch = AudioBuffer::silent(
        input.format,
        input.frames,
        input.captured_at,
        input.frame_index,
    );
    let mut current = input;
    let mut i: usize = 0;
    while i < chain.len()
        invariant
            i <= chain@.len(),
            chain@.len() == processors.len(),
            processors == old(chain)@,
            forall|k: int| i <= k < chain@.len() ==> #[trigger] chain@[k] == processors[k],
            steps.len() == i,
            forall|k: int| 0 <= k < i ==> (#[trigger] chain@[k]).mark() == steps[k].next,
            forall|k: int|
                0 <= k < i ==> #[trigger] is_step(processors, first, steps, budget, k),
            current == chain_result(first, steps, budget),
            if i == 0 {
                is_blank_for(first, scratch)
            } else {
                scratch == chain_result(first, steps.take(i - 1), budget)
            },
            *metrics == with_timeouts(before, bypass_count(steps, budget)),
        decreases chain@.len() - i,
    {
        let start = Instant::now();
        let ghost given = current;
        let ghost held = scratch;
        assert(chain@[i as int] == processors[i as int]);
        let res: Result<()> = chain[i].process(&current, &mut scratch);
        let elapsed: u128 = elapsed_nanos(&start);
        let ok = res.is_ok();
        let ghost step = ChainStep {
            ok,
            elapsed: elapsed as nat,
            scratch: held,
            output: scratch,
            next: chain@[i as int].mark(),
        };
        assert(processors[i as int].may_leave(
            given,
            step.scratch,
            step.output,
            step.ok,
            step.next,
        ));
        let ghost prior = *metrics;
        let (next, spare) = settle_step(current, scratch, ok, elapsed, budget, metrics);
        current = next;
        scratch = spare;
        proof {
            lemma_push_step(first, steps, step, budget);
            crate::metrics::lemma_counted_add(
                before.plugin_timeouts,
                1,
                bypass_count(steps, budget),
                if bypassed(step, budget) {
                    1
                } else {
                    0
                },
            );
            let longer = steps.push(step);
            assert(longer.take(i as int) =~= steps);
            if i > 0 {
                assert(longer.take(i - 1) =~= steps.take(i - 1));
            }
            assert(longer[i as int] == step);
            assert(is_step(processors, first, longer, budget, i as int));
            assert forall|k: int| 0 <= k < i implies #[trigger] is_step(
                processors,
                first,
                longer,
                budget,
                k,
            ) by {
                assert(is_step(processors, first, steps, budget, k));
                assert(longer.take(k) =~= steps.take(k));
                if k > 0 {
                    assert(longer.take(k - 1) =~= steps.take(k - 1));
                }
            }
            steps = longer;
        }
        i = i + 1;
    }
    assert(are_steps_of(processors, first, steps, budget));
    current
}

/// A chain in which every processor fails or overruns its budget leaves the block as it was.
pub proof fn bypassed_chain_is_identity<S>(
    input: AudioBuffer<S>,
    steps: Seq<ChainStep<S>>,
    budget: Option<Duration>,
)
    requires
        forall|i: int| 0 <= i < steps.len() ==> bypassed(#[trigger] steps[i], budget),
    ensures
        chain_result(input, steps, budget) == input,
        bypass_count(steps, budget) == steps.len(),
    decreases steps.len(),
{
    if steps.len() > 0 {
        let rest = steps.drop_last();
        assert forall|i: int| 0 <= i < rest.len() implies bypassed(#[trigger] rest[i], budget) by {
            assert(rest[i] == steps[i]);
        }
        assert(bypassed(steps[steps.len() - 1], budget));
        bypassed_chain_is_identity(input, rest, budget);
    }
}

/// Running two chains one after the other is running their concatenation.
pub proof fn chains_compose<S>(
    input: AudioBuffer<S>,
    first: Seq<ChainStep<S>>,
    second: Seq<ChainStep<S>>,
    budget: Option<Duration>,
)
    ensures
        chain_result(input, first + second, budget) == chain_result(
            chain_result(input, first, budget),
            second,
            budget,
        ),
        bypass_count(first + second, budget) == bypass_count(first, budget) + bypass_count(
            second,
            budget,
        ),
    decreases second.len(),
{
    if second.len() == 0 {
        assert(first + second =~= first);
    } else {
        assert((first + second).drop_last() =~= first + second.drop_last());
        assert((first + second).last() == second.last());
        chains_compose(input, first, second.drop_last(), budget);
    }
}

/// What leaves a chain is what its last useful processor made of the block: the output of the
/// last step that succeeded within the budget, or the block itself where no step did. A budget
/// that is not set cannot be exceeded, and one that is set is exceeded by more than its time.
pub proof fn the_last_useful_step_counts<S>(
    input: AudioBuffer<S>,
    steps: Seq<ChainStep<S>>,
    budget: Option<Duration>,
    k: int,
)
    requires
        0 <= k < steps.len(),
        steps[k].ok,
        budget matches Some(b) ==> steps[k].elapsed <= b@,
        forall|i: int|
            k < i < steps.len() ==> !(#[trigger] steps[i]).ok || (budget matches Some(b)
                && steps[i].elapsed > b@),
    ensures
        chain_result(input, steps, budget) == steps[k].output,
    decreases steps.len(),
{
    if k < steps.len() - 1 {
        assert(bypassed(steps[steps.len() - 1], budget));
        the_last_useful_step_counts(input, steps.drop_last(), budget, k);
    }
}

/// Each processor is handed what the last useful one before it made: where the step before
/// succeeded within the budget, its output.
pub proof fn processors_follow_each_other<S: Default>(
    chain: Seq<Box<dyn AudioProcessor<S>>>,
    input: AudioBuffer<S>,
    steps: Seq<ChainStep<S>>,
    budget: Option<Duration>,
    k: int,
)
    requires
        are_steps_of(chain, input, steps, budget),
        0 <= k < steps.len(),
    ensures
        k == 0 ==> chain[0].may_leave(
            input,
            steps[0].scratch,
            steps[0].output,
            steps[0].ok,
            steps[0].next,
        ),
        k > 0 && steps[k - 1].ok && (budget matches Some(b) ==> steps[k - 1].elapsed <= b@)
            ==> chain[k].may_leave(
            steps[k - 1].output,
            steps[k].scratch,
            steps[k].output,
            steps[k].ok,
            steps[k].next,
        ),
{
    assert(is_step(chain, input, steps, budget, k));
    if k > 0 {
        assert(steps.take(k).last() == steps[k - 1]);
    }
}

/// Each step that fails or exceeds the budget is counted once, and no other: one more step adds
/// one to the count exactly where it does.
pub proof fn each_bypass_is_counted_once<S>(
    steps: Seq<ChainStep<S>>,
    step: ChainStep<S>,
    budget: Option<Duration>,
)
    ensures
        bypass_count(Seq::<ChainStep<S>>::empty(), budget) == 0,
        bypass_count(steps.push(step), budget) == bypass_count(steps, budget) + if !step.ok || (
        budget matches Some(b) && step.elapsed > b@) {
            1nat
        } else {
            0nat
        },
{
    assert(steps.push(step).drop_last() =~= steps);
}

/// Bypassed steps are counted and nothing else is: the counter of timeouts is ahead by their
/// number, and the counters of dropped frames stay.
pub proof fn timeouts_are_added_up(metrics: PipelineMetrics, times: nat)
    requires
        metrics.plugin_timeouts + times <= u64::MAX,
    ensures
        with_timeouts(metrics, times).plugin_timeouts == metrics.plugin_timeouts + times,
        with_timeouts(metrics, times).raw_frames_dropped == metrics.raw_frames_dropped,
        with_timeouts(metrics, times).processed_frames_dropped == metrics.processed_frames_dropped,
        with_timeouts(metrics, times).analyzer_frames_dropped == metrics.analyzer_frames_dropped,
{
    crate::metrics::counting_adds_up(metrics.plugin_timeouts, 1, times);
}

} // verus!
