//! Counters of a running pipeline.

use vstd::prelude::*;

verus! {

/// Counters for overload and plugin timing issues (processed path only for timeouts).
#[derive(Debug, Clone, Copy, PartialEq, Eq, Structural)]
pub struct PipelineMetrics {
    pub raw_frames_dropped: u64,
    pub processed_frames_dropped: u64,
    pub analyzer_frames_dropped: u64,
    pub plugin_timeouts: u64,
}

impl Default for PipelineMetrics {
    fn default() -> (m: Self)
        ensures
            m == (PipelineMetrics {
                raw_frames_dropped: 0,
                processed_frames_dropped: 0,
                analyzer_frames_dropped: 0,
                plugin_timeouts: 0,
            }),
    {
        PipelineMetrics {
            raw_frames_dropped: 0,
            processed_frames_dropped: 0,
            analyzer_frames_dropped: 0,
            plugin_timeouts: 0,
        }
    }
}

/// A 64-bit counter at `start` after `times` additions of `step`; it wraps around.
pub open spec fn counted(start: u64, step: u64, times: nat) -> u64
    decreases times,
{
    if times == 0 {
        start
    } else {
        counted(start, step, (times - 1) as nat).wrapping_add(step)
    }
}

/// Counting in two rounds is counting once for both.
pub proof fn lemma_counted_add(start: u64, step: u64, a: nat, b: nat)
    ensures
        counted(counted(start, step, a), step, b) == counted(start, step, a + b),
    decreases b,
{
    if b > 0 {
        lemma_counted_add(start, step, a, (b - 1) as nat);
    }
}

/// A counter that is raised several times by the same step is ahead by all of them, and starts
/// over beyond the largest number.
pub proof fn counting_adds_up(start: u64, step: u64, times: nat)
    ensures
        counted(start, step, times) == (start + step * times) % 0x1_0000_0000_0000_0000,
        start + step * times <= u64::MAX ==> counted(start, step, times) == start + step * times,
    decreases times,
{
    if times > 0 {
        counting_adds_up(start, step, (times - 1) as nat);
        assert(step * times == step * (times - 1) + step) by (nonlinear_arith);
        let prior = start + step * (times - 1);
        assert(prior >= 0) by (nonlinear_arith)
            requires
                prior == start + step * (times - 1),
                times > 0,
        ;
        let whole = 0x1_0000_0000_0000_0000int;
        assert((prior % whole + step) % whole == (prior + step) % whole);
    } else {
        assert(step * times == 0) by (nonlinear_arith)
            requires
                times == 0,
        ;
    }
    assert(step * times >= 0) by (nonlinear_arith);
}

} // verus!
