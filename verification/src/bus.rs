//! The bus worker's decisions: when a leg waits for input, when a block is put out, how long
//! it is, and when the bus is finished. The worker thread receives, sleeps and writes; what it
//! does next is decided here.

use vstd::prelude::*;

use crate::buffer::AudioBuffer;
use crate::mixer::{
    compute_emit_frames, BusMixerConfig, LegResampler, MixLegState, BLOCK_SIZE,
};
use crate::time::Duration;

verus! {

/// How far a leg has got with taking in what its channel holds.
#[derive(Debug, Clone, Copy, PartialEq, Eq, Structural)]
pub enum TopUpPhase {
    /// Takes everything that is there.
    Draining,
    /// Waits for a block's worth.
    Filling,
    /// Looks whether the sender is gone.
    Probing,
    /// Nothing more to do this round.
    Settled,
}

/// What the worker does next for a leg.
#[derive(Debug, Clone, Copy, PartialEq, Eq, Structural)]
pub enum TopUpAction {
    /// Receive without waiting.
    TryReceive,
    /// Receive, waiting at most the top-up time.
    Wait,
    /// The leg is topped up.
    Finished,
}

/// What came of a receive.
#[verifier::reject_recursive_types(S)]
pub enum TopUpEvent<S> {
    /// A captured block.
    Received(AudioBuffer<S>),
    /// Nothing was there, or nothing came in time.
    Nothing,
    /// Nothing is there and the sender is gone.
    Disconnected,
}

/// The action of a phase, and the phase itself once phases with nothing to do are skipped.
pub open spec fn top_up_action(
    phase: TopUpPhase,
    done: bool,
    ready: nat,
) -> (TopUpPhase, TopUpAction) {
    match phase {
        TopUpPhase::Draining => (TopUpPhase::Draining, TopUpAction::TryReceive),
        TopUpPhase::Filling => if !done && ready < BLOCK_SIZE {
            (TopUpPhase::Filling, TopUpAction::Wait)
        } else if !done {
            (TopUpPhase::Probing, TopUpAction::TryReceive)
        } else {
            (TopUpPhase::Settled, TopUpAction::Finished)
        },
        TopUpPhase::Probing => if !done {
            (TopUpPhase::Probing, TopUpAction::TryReceive)
        } else {
            (TopUpPhase::Settled, TopUpAction::Finished)
        },
        TopUpPhase::Settled => (TopUpPhase::Settled, TopUpAction::Finished),
    }
}

/// See [`top_up_action`].
pub fn next_top_up_action(phase: TopUpPhase, done: bool, ready: usize) -> (r: (
    TopUpPhase,
    TopUpAction,
))
    ensures
        r == top_up_action(phase, done, ready as nat),
{
    match phase {
        TopUpPhase::Draining => (TopUpPhase::Draining, TopUpAction::TryReceive),
        TopUpPhase::Filling => {
            if !done && ready < BLOCK_SIZE {
                (TopUpPhase::Filling, TopUpAction::Wait)
            } else if !done {
                (TopUpPhase::Probing, TopUpAction::TryReceive)
            } else {
                (TopUpPhase::Settled, TopUpAction::Finished)
            }
        },
        TopUpPhase::Probing => {
            if !done {
                (TopUpPhase::Probing, TopUpAction::TryReceive)
            } else {
                (TopUpPhase::Settled, TopUpAction::Finished)
            }
        },
        TopUpPhase::Settled => (TopUpPhase::Settled, TopUpAction::Finished),
    }
}

/// The phase after an event.
pub open spec fn top_up_next<S>(phase: TopUpPhase, event: TopUpEvent<S>) -> TopUpPhase {
    match (phase, event) {
        (TopUpPhase::Draining, TopUpEvent::Received(_)) => TopUpPhase::Draining,
        (TopUpPhase::Draining, _) => TopUpPhase::Filling,
        (TopUpPhase::Filling, TopUpEvent::Received(_)) => TopUpPhase::Filling,
        (TopUpPhase::Filling, _) => TopUpPhase::Probing,
        (TopUpPhase::Probing, _) => TopUpPhase::Settled,
        (TopUpPhase::Settled, _) => TopUpPhase::Settled,
    }
}

/// The event shows that the leg's sender is gone: a wait or a probe found the channel empty
/// and disconnected.
pub open spec fn top_up_ends<S>(phase: TopUpPhase, event: TopUpEvent<S>) -> bool {
    event is Disconnected && (phase == TopUpPhase::Filling || phase == TopUpPhase::Probing)
}

/// The event brings a block that the leg takes in. A block that turns up while probing is
/// discarded.
pub open spec fn top_up_takes<S>(phase: TopUpPhase, event: TopUpEvent<S>) -> bool {
    event is Received && (phase == TopUpPhase::Draining || phase == TopUpPhase::Filling)
}

/// Handles what came of a receive: the leg takes a received block in, a leg whose sender is
/// gone is marked done, and the next phase is given back.
pub fn on_top_up_event<S: Copy, R: LegResampler<S>>(
    phase: TopUpPhase,
    event: TopUpEvent<S>,
    leg: &mut MixLegState<S>,
    resampler: &mut Option<R>,
    done: &mut bool,
) -> (next: TopUpPhase)
    requires
        old(leg).well_formed(),
        *old(resampler) is Some ==> old(leg).channels > 0,
    ensures
        next == top_up_next(phase, event),
        *final(done) == (*old(done) || top_up_ends(phase, event)),
        final(leg).well_formed(),
        final(leg).channels == old(leg).channels,
        final(leg).resampling == old(leg).resampling,
        final(leg).zero == old(leg).zero,
        if top_up_takes(phase, event) {
            crate::mixer::takes_block(
                *old(leg),
                *final(leg),
                *old(resampler),
                *final(resampler),
                event->Received_0.samples(),
            )
        } else {
            *final(leg) == *old(leg) && *final(resampler) == *old(resampler)
        },
{
    match phase {
        TopUpPhase::Draining => match event {
            TopUpEvent::Received(buf) => {
                let converter = resampler.take();
                *resampler = leg.ingest(&buf, converter);
                TopUpPhase::Draining
            },
            _ => TopUpPhase::Filling,
        },
        TopUpPhase::Filling => match event {
            TopUpEvent::Received(buf) => {
                let converter = resampler.take();
                *resampler = leg.ingest(&buf, converter);
                TopUpPhase::Filling
            },
            TopUpEvent::Nothing => TopUpPhase::Probing,
            TopUpEvent::Disconnected => {
                *done = true;
                TopUpPhase::Probing
            },
        },
        TopUpPhase::Probing => {
            match event {
                TopUpEvent::Disconnected => {
                    *done = true;
                },
                _ => {},
            }
            TopUpPhase::Settled
        },
        TopUpPhase::Settled => TopUpPhase::Settled,
    }
}

/// A leg that is done stays done, and nothing waits for it any more.
pub proof fn finished_legs_stay_finished<S>(
    phase: TopUpPhase,
    ready: nat,
    event: TopUpEvent<S>,
    before: bool,
    after: bool,
)
    requires
        before,
        after == (before || top_up_ends(phase, event)),
    ensures
        after,
        top_up_action(phase, after, ready).1 != TopUpAction::Wait,
        phase == TopUpPhase::Filling || phase == TopUpPhase::Probing ==> top_up_action(
            phase,
            after,
            ready,
        ).1 == TopUpAction::Finished,
{
}

/// The state of a bus worker between receives.
#[verifier::reject_recursive_types(S)]
pub struct BusState<S> {
    pub legs: Vec<MixLegState<S>>,
    pub done: Vec<bool>,
    /// The most frames of a leg that are kept for later.
    pub max_jitter_frames: usize,
    /// The frames put out so far.
    pub output_frame_index: u64,
}

/// What the worker does after a round of top-ups.
pub enum BusStep<S> {
    /// All legs are done and empty: flush and end.
    Finished,
    /// Nothing to put out yet; let other threads run first, or not.
    Idle { yield_now: bool },
    /// Mix `blocks` (one per leg, `frames` frames each) and write the result, whose first
    /// frame is `frame_index`.
    Emit { frames: usize, blocks: Vec<Vec<S>>, frame_index: u64 },
}

impl<S> BusState<S> {
    /// One mark per leg, and well-formed legs.
    pub open spec fn well_formed(self) -> bool {
        &&& self.legs@.len() == self.done@.len()
        &&& forall|i: int| 0 <= i < self.legs@.len() ==> (#[trigger] self.legs@[i]).well_formed()
    }

    /// Every leg's sender is gone.
    pub open spec fn all_done(self) -> bool {
        forall|i: int| 0 <= i < self.done@.len() ==> #[trigger] self.done@[i]
    }
}

/// Two states of a leg that differ at most in the samples that wait for mixing: those that wait
/// for conversion are the same.
pub open spec fn same_leg<S>(before: MixLegState<S>, after: MixLegState<S>) -> bool {
    &&& after.channels == before.channels
    &&& after.zero == before.zero
    &&& after.resampling == before.resampling
    &&& after.pending_planar == before.pending_planar
}

/// What is kept of a leg's queue when at most `max` frames may wait: the newest ones.
pub open spec fn trimmed<S>(queue: Seq<S>, channels: nat, max: nat) -> Seq<S> {
    let ready = if channels == 0 {
        0
    } else {
        queue.len() / channels
    };
    if ready > max {
        crate::mixer::left_over(queue, ((ready - max) * channels) as nat)
    } else {
        queue
    }
}

/// The frames that wait in each leg after trimming.
pub open spec fn trimmed_ready<S>(legs: Seq<MixLegState<S>>, max: nat) -> Seq<usize> {
    Seq::new(
        legs.len(),
        |i: int|
            if legs[i].ready() <= max {
                legs[i].ready() as usize
            } else {
                max as usize
            },
    )
}

proof fn lemma_trim_arith(len: nat, channels: nat, max: nat)
    requires
        channels > 0,
        len / channels > max,
    ensures
        (len / channels - max) * channels <= len,
        (len - (len / channels - max) * channels) / (channels as int) == max,
{
    let q = len / channels;
    let r = len % channels;
    vstd::arithmetic::div_mod::lemma_fundamental_div_mod(len as int, channels as int);
    assert(channels * q == q * channels) by (nonlinear_arith);
    assert((q - max) * channels == q * channels - max * channels) by (nonlinear_arith);
    assert(max * channels >= 0) by (nonlinear_arith);
    let left = len - (q - max) * channels;
    assert(left == max * channels + r);
    vstd::arithmetic::div_mod::lemma_fundamental_div_mod_converse(
        left,
        channels as int,
        max as int,
        r as int,
    );
}

/// The jitter window bounds what waits: after trimming, a leg never holds more frames than the
/// window, it holds exactly the window if it held more, and what it holds is the newest part
/// of what it held.
pub proof fn trimming_caps_the_queue<S>(queue: Seq<S>, channels: nat, max: nat)
    requires
        channels > 0,
    ensures
        trimmed(queue, channels, max).len() / channels == if queue.len() / channels <= max {
            queue.len() / channels
        } else {
            max
        },
        trimmed(queue, channels, max) == queue.skip(
            queue.len() - trimmed(queue, channels, max).len(),
        ),
{
    if queue.len() / channels > max {
        lemma_trim_arith(queue.len(), channels, max);
    } else {
        assert(queue.skip(0) =~= queue);
    }
}

/// Trimming drops whole frames, so what is left starts with a frame's first sample; and it drops
/// nothing from a queue that is within its bound.
pub proof fn trimming_drops_whole_frames<S>(queue: Seq<S>, channels: nat, max: nat)
    requires
        channels > 0,
    ensures
        trimmed(queue, channels, max).len() <= queue.len(),
        exists|dropped: nat|
            queue.len() - trimmed(queue, channels, max).len() == #[trigger] (dropped * channels),
        queue.len() <= max * channels ==> trimmed(queue, channels, max) == queue,
{
    let ready = queue.len() / channels;
    if ready > max {
        let dropped = (ready - max) as nat;
        assert(dropped * channels <= queue.len() && queue.len() > max * channels)
            by (nonlinear_arith)
            requires
                channels > 0,
                ready == queue.len() / channels,
                ready > max,
                dropped == ready - max,
        ;
        assert(queue.len() - trimmed(queue, channels, max).len() == dropped * channels);
    } else {
        assert(queue.len() - trimmed(queue, channels, max).len() == 0nat * channels)
            by (nonlinear_arith)
            requires
                queue.len() == trimmed(queue, channels, max).len(),
        ;
    }
}

/// A block of the bus holds what waited, in order: a leg that is within its bound and has enough
/// gives its first frames and keeps the rest; one that has too little gives all it has, followed
/// by silence, and keeps nothing. A step that puts nothing out takes nothing from such a leg.
pub proof fn a_step_takes_from_the_front<S>(
    before: BusState<S>,
    after: BusState<S>,
    step: BusStep<S>,
    i: int,
)
    requires
        bus_step(before, after, step),
        before.well_formed(),
        0 <= i < before.legs@.len(),
        before.legs@[i].interleaved@.len() <= before.max_jitter_frames * before.legs@[i].channels,
    ensures
        step matches BusStep::Emit { frames, blocks, .. } ==> {
            let queue = before.legs@[i].interleaved@;
            let n = frames * before.legs@[i].channels;
            &&& blocks@[i]@.len() == n
            &&& n <= queue.len() ==> blocks@[i]@ + after.legs@[i].interleaved@ == queue
            &&& n > queue.len() ==> {
                &&& blocks@[i]@.take(queue.len() as int) == queue
                &&& forall|k: int|
                    queue.len() <= k < n ==> #[trigger] blocks@[i]@[k] == before.legs@[i].zero
                &&& after.legs@[i].interleaved@.len() == 0
            }
        },
        !(step is Emit) ==> after.legs@[i].interleaved@ == before.legs@[i].interleaved@,
{
    let queue = before.legs@[i].interleaved@;
    let channels = before.legs@[i].channels as nat;
    if channels > 0 {
        trimming_drops_whole_frames(queue, channels, before.max_jitter_frames as nat);
    }
    assert(same_leg(before.legs@[i], after.legs@[i]));
    if let BusStep::Emit { frames, blocks, .. } = step {
        let n = (frames * channels) as nat;
        crate::mixer::popping_conserves_samples(queue, n, before.legs@[i].zero);
        crate::mixer::what_is_missing_is_silence(queue, n, before.legs@[i].zero);
        assert(frames as nat * channels == n);
        assert(blocks@[i]@ == crate::mixer::popped(queue, n, before.legs@[i].zero));
    }
}

/// The bus is finished exactly when all its legs are and none has a whole frame left that it would
/// keep; it puts something out as soon as a live leg has a frame that it would keep.
pub proof fn the_bus_ends_when_all_is_played<S>(
    before: BusState<S>,
    after: BusState<S>,
    step: BusStep<S>,
)
    requires
        bus_step(before, after, step),
        before.well_formed(),
        before.max_jitter_frames > 0,
    ensures
        step is Finished ==> (forall|i: int|
            0 <= i < before.legs@.len() ==> before.done@[i] && (#[trigger] before.legs@[i]).ready()
                == 0),
        (exists|i: int| 0 <= i < before.legs@.len() && (#[trigger] before.legs@[i]).ready() > 0)
            ==> !(step is Finished),
        (exists|i: int|
            0 <= i < before.legs@.len() && !before.done@[i] && (#[trigger] before.legs@[i]).ready()
                > 0) ==> step is Emit,
        (exists|i: int| 0 <= i < before.done@.len() && !#[trigger] before.done@[i]) ==> !(step
            is Finished),
{
    let have = trimmed_ready(before.legs@, before.max_jitter_frames as nat);
    assert forall|i: int| 0 <= i < have.len() implies (#[trigger] have[i] == 0
        <==> before.legs@[i].ready() == 0) by {
        assert(before.legs@[i].well_formed());
    }
    if step is Finished {
        assert forall|i: int| 0 <= i < before.legs@.len() implies before.done@[i] && (
        #[trigger] before.legs@[i]).ready() == 0 by {
            assert(have[i] == 0);
        }
    }
    if exists|i: int|
        0 <= i < before.legs@.len() && !before.done@[i] && (#[trigger] before.legs@[i]).ready()
            > 0 {
        let i = choose|i: int|
            0 <= i < before.legs@.len() && !before.done@[i] && (#[trigger] before.legs@[i]).ready()
                > 0;
        assert(have[i] > 0 && !before.done@[i]);
        crate::mixer::emitted_blocks_are_backed(have, before.done@);
    }
}

/// A leg is asked to wait only while it is live and has less than a block, and at most until it is
/// told that nothing came: then it is asked once more whether its source is gone, and settles.
/// Blocks that come while it drains or fills are taken in; it is finished when its source is found
/// to be gone while it fills or after that, and never otherwise.
pub proof fn topping_up_ends<S>(phase: TopUpPhase, event: TopUpEvent<S>, done: bool, ready: nat)
    ensures
        top_up_action(phase, done, ready).1 == TopUpAction::Wait <==> phase == TopUpPhase::Filling
            && !done && ready < BLOCK_SIZE,
        !(event is Received) && phase == TopUpPhase::Filling ==> top_up_action(
            top_up_next(phase, event),
            done,
            ready,
        ).1 != TopUpAction::Wait,
        !(event is Received) && phase == TopUpPhase::Draining ==> top_up_next(phase, event)
            == TopUpPhase::Filling,
        phase == TopUpPhase::Probing || phase == TopUpPhase::Settled ==> top_up_action(
            top_up_next(phase, event),
            done,
            ready,
        ).1 == TopUpAction::Finished,
        top_up_takes(phase, event) ==> event is Received && top_up_next(phase, event) == phase,
        event is Received && (phase == TopUpPhase::Draining || phase == TopUpPhase::Filling)
            ==> top_up_takes(phase, event),
        event is Disconnected && (phase == TopUpPhase::Filling || phase == TopUpPhase::Probing)
            ==> top_up_ends(phase, event),
        top_up_ends(phase, event) ==> event is Disconnected,
{
}

impl<S: Copy> BusState<S> {
    /// The bus before its first block.
    pub fn new<G>(config: &BusMixerConfig<G>, zero: S) -> (bus: Self)
        ensures
            bus.well_formed(),
            bus.legs@.len() == config.legs@.len(),
            forall|i: int|
                0 <= i < bus.legs@.len() ==> {
                    &&& (#[trigger] bus.legs@[i]).channels
                        == config.legs@[i].source_format.channels
                    &&& bus.legs@[i].resampling == (config.legs@[i].source_format.sample_rate_hz
                        != config.bus_sample_rate_hz)
                    &&& bus.legs@[i].interleaved@.len() == 0
                    &&& bus.legs@[i].zero == zero
                },
            forall|i: int| 0 <= i < bus.done@.len() ==> !#[trigger] bus.done@[i],
            bus.max_jitter_frames == (config.jitter_window@ * config.bus_sample_rate_hz
                / 1_000_000_000) as usize,
            bus.output_frame_index == 0,
    {
        let mut legs: Vec<MixLegState<S>> = Vec::new();
        let mut done: Vec<bool> = Vec::new();
        let mut i: usize = 0;
        while i < config.legs.len()
            invariant
                i <= config.legs@.len(),
                legs@.len() == i,
                done@.len() == i,
                forall|k: int|
                    0 <= k < i ==> {
                        &&& (#[trigger] legs@[k]).channels == config.legs@[k].source_format.channels
                        &&& legs@[k].resampling == (config.legs@[k].source_format.sample_rate_hz
                            != config.bus_sample_rate_hz)
                        &&& legs@[k].interleaved@.len() == 0
                        &&& legs@[k].zero == zero
                        &&& legs@[k].well_formed()
                    },
                forall|k: int| 0 <= k < i ==> !#[trigger] done@[k],
            decreases config.legs@.len() - i,
        {
            let format = config.legs[i].source_format;
            legs.push(
                MixLegState::new(
                    format.channels,
                    format.sample_rate_hz,
                    config.bus_sample_rate_hz,
                    zero,
                ),
            );
            done.push(false);
            i = i + 1;
        }
        let max_jitter_frames: usize = jitter_frames(
            config.jitter_window,
            config.bus_sample_rate_hz,
        );
        BusState { legs, done, max_jitter_frames, output_frame_index: 0 }
    }

    /// Drops the oldest frames of every leg that holds more than the jitter window.
    pub fn trim(&mut self)
        requires
            old(self).well_formed(),
        ensures
            final(self).well_formed(),
            final(self).legs@.len() == old(self).legs@.len(),
            final(self).done == old(self).done,
            final(self).max_jitter_frames == old(self).max_jitter_frames,
            final(self).output_frame_index == old(self).output_frame_index,
            forall|i: int|
                0 <= i < old(self).legs@.len() ==> {
                    &&& (#[trigger] final(self).legs@[i]).interleaved@ == trimmed(
                        old(self).legs@[i].interleaved@,
                        old(self).legs@[i].channels as nat,
                        old(self).max_jitter_frames as nat,
                    )
                    &&& same_leg(old(self).legs@[i], final(self).legs@[i])
                },
    {
        let ghost before = self.legs@;
        let mut i: usize = 0;
        while i < self.legs.len()
            invariant
                i <= self.legs@.len(),
                self.legs@.len() == before.len(),
                before == old(self).legs@,
                old(self).well_formed(),
                self.done == old(self).done,
                self.max_jitter_frames == old(self).max_jitter_frames,
                self.output_frame_index == old(self).output_frame_index,
                forall|k: int|
                    0 <= k < i ==> {
                        &&& (#[trigger] self.legs@[k]).interleaved@ == trimmed(
                            before[k].interleaved@,
                            before[k].channels as nat,
                            self.max_jitter_frames as nat,
                        )
                        &&& same_leg(before[k], self.legs@[k])
                        &&& self.legs@[k].well_formed()
                    },
                forall|k: int| i <= k < before.len() ==> #[trigger] self.legs@[k] == before[k],
            decreases self.legs@.len() - i,
        {
            assert(self.legs@[i as int] == before[i as int]);
            assert(before[i as int].well_formed());
            let ready: usize = self.legs[i].frames_ready();
            if ready > self.max_jitter_frames {
                let excess: usize = ready - self.max_jitter_frames;
                proof {
                    lemma_trim_arith(
                        before[i as int].interleaved@.len(),
                        before[i as int].channels as nat,
                        self.max_jitter_frames as nat,
                    );
                }
                let waiting: usize = self.legs[i].interleaved.len();
                let dropped = self.legs[i].pop_frames(excess);
            }
            i = i + 1;
        }
    }

    /// Decides what follows a round of top-ups. Each leg is trimmed to the jitter window
    /// first.
    pub fn next_step(&mut self) -> (step: BusStep<S>)
        requires
            old(self).well_formed(),
            old(self).output_frame_index + BLOCK_SIZE <= u64::MAX,
        ensures
            bus_step(*old(self), *final(self), step),
    {
        let ghost start = *self;
        self.trim();
        let ghost kept = *self;
        let ghost have_spec = trimmed_ready(start.legs@, start.max_jitter_frames as nat);
        let mut have: Vec<usize> = Vec::new();
        let mut all_done = true;
        let mut all_empty = true;
        let mut i: usize = 0;
        while i < self.legs.len()
            invariant
                i <= self.legs@.len(),
                *self == kept,
                kept.well_formed(),
                start.well_formed(),
                start.legs@.len() == kept.legs@.len(),
                kept.done == start.done,
                have@.len() == i,
                have_spec == trimmed_ready(start.legs@, start.max_jitter_frames as nat),
                forall|k: int|
                    0 <= k < kept.legs@.len() ==> {
                        &&& (#[trigger] kept.legs@[k]).interleaved@ == trimmed(
                            start.legs@[k].interleaved@,
                            start.legs@[k].channels as nat,
                            start.max_jitter_frames as nat,
                        )
                        &&& same_leg(start.legs@[k], kept.legs@[k])
                    },
                forall|k: int| 0 <= k < i ==> #[trigger] have@[k] == have_spec[k],
                all_done == (forall|k: int| 0 <= k < i ==> #[trigger] kept.done@[k]),
                all_empty == (forall|k: int| 0 <= k < i ==> #[trigger] have_spec[k] == 0),
            decreases self.legs@.len() - i,
        {
            let ready: usize = self.legs[i].frames_ready();
            proof {
                let leg = start.legs@[i as int];
                if leg.channels > 0 {
                    trimming_caps_the_queue(
                        leg.interleaved@,
                        leg.channels as nat,
                        start.max_jitter_frames as nat,
                    );
                }
                assert(kept.legs@[i as int].ready() == have_spec[i as int]);
            }
            have.push(ready);
            if ready > 0 {
                assert(!(have_spec[i as int] == 0));
                all_empty = false;
            }
            if !self.done[i] {
                assert(!kept.done@[i as int]);
                all_done = false;
            }
            i = i + 1;
        }
        assert(have@ =~= have_spec);
        if all_done && all_empty {
            return BusStep::Finished;
        }
        let frames: usize = compute_emit_frames(&have, &self.done);
        proof {
            crate::mixer::emitted_blocks_are_backed(have_spec, self.done@);
        }
        if frames == 0 {
            return BusStep::Idle { yield_now: !all_done };
        }
        let mut blocks: Vec<Vec<S>> = Vec::new();
        let mut k: usize = 0;
        while k < self.legs.len()
            invariant
                k <= self.legs@.len(),
                self.legs@.len() == kept.legs@.len(),
                self.done == kept.done,
                self.max_jitter_frames == kept.max_jitter_frames,
                self.output_frame_index == kept.output_frame_index,
                kept.well_formed(),
                blocks@.len() == k,
                frames <= BLOCK_SIZE,
                forall|j: int|
                    0 <= j < k ==> {
                        &&& (#[trigger] self.legs@[j]).interleaved@ == crate::mixer::left_over(
                            kept.legs@[j].interleaved@,
                            (frames * kept.legs@[j].channels) as nat,
                        )
                        &&& same_leg(kept.legs@[j], self.legs@[j])
                        &&& self.legs@[j].well_formed()
                    },
                forall|j: int|
                    0 <= j < k ==> (#[trigger] blocks@[j])@ == crate::mixer::popped(
                        kept.legs@[j].interleaved@,
                        (frames * kept.legs@[j].channels) as nat,
                        kept.legs@[j].zero,
                    ),
                forall|j: int|
                    k <= j < kept.legs@.len() ==> #[trigger] self.legs@[j] == kept.legs@[j],
            decreases self.legs@.len() - k,
        {
            assert(self.legs@[k as int] == kept.legs@[k as int]);
            assert(kept.legs@[k as int].well_formed());
            assert(frames * kept.legs@[k as int].channels <= 480 * 65535) by (nonlinear_arith)
                requires
                    frames <= 480,
                    kept.legs@[k as int].channels <= 65535,
            ;
            let block = self.legs[k].pop_frames(frames);
            blocks.push(block);
            k = k + 1;
        }
        let frame_index: u64 = self.output_frame_index;
        self.output_frame_index = frame_index + frames as u64;
        BusStep::Emit { frames, blocks, frame_index }
    }
}

/// What one decision of a bus does.
pub open spec fn bus_step<S>(before: BusState<S>, after: BusState<S>, step: BusStep<S>) -> bool {
    let have = trimmed_ready(before.legs@, before.max_jitter_frames as nat);
    let finished = before.all_done() && (forall|i: int|
        0 <= i < have.len() ==> #[trigger] have[i] == 0);
    let frames = crate::mixer::emit_frames(have, before.done@);
    &&& after.well_formed()
    &&& after.legs@.len() == before.legs@.len()
    &&& after.done == before.done
    &&& after.max_jitter_frames == before.max_jitter_frames
    &&& forall|i: int|
        0 <= i < before.legs@.len() ==> {
            let queue = trimmed(
                before.legs@[i].interleaved@,
                before.legs@[i].channels as nat,
                before.max_jitter_frames as nat,
            );
            &&& same_leg(before.legs@[i], #[trigger] after.legs@[i])
            &&& after.legs@[i].interleaved@ == if step is Emit {
                crate::mixer::left_over(queue, frames * before.legs@[i].channels as nat)
            } else {
                queue
            }
        }
    &&& match step {
        BusStep::Finished => finished && after.output_frame_index == before.output_frame_index,
        BusStep::Idle { yield_now } => {
            &&& !finished
            &&& frames == 0
            &&& yield_now == !before.all_done()
            &&& after.output_frame_index == before.output_frame_index
        },
        BusStep::Emit { frames: n, blocks, frame_index } => {
            &&& !finished
            &&& n == frames
            &&& n > 0
            &&& frame_index == before.output_frame_index
            &&& after.output_frame_index == before.output_frame_index + n
            &&& blocks@.len() == before.legs@.len()
            &&& forall|i: int|
                0 <= i < blocks@.len() ==> (#[trigger] blocks@[i])@ == crate::mixer::popped(
                    trimmed(
                        before.legs@[i].interleaved@,
                        before.legs@[i].channels as nat,
                        before.max_jitter_frames as nat,
                    ),
                    n as nat * before.legs@[i].channels as nat,
                    before.legs@[i].zero,
                )
        },
    }
}

/// The frames of the jitter window at the bus rate.
pub fn jitter_frames(window: Duration, rate_hz: u32) -> (n: usize)
    ensures
        n == (window@ * rate_hz / 1_000_000_000) as usize,
{
    let nanos: u128 = window.as_nanos();
    assert(nanos * rate_hz <= 18_446_744_073_709_551_615_999_999_999 * 4_294_967_295)
        by (nonlinear_arith)
        requires
            nanos <= 18_446_744_073_709_551_615_999_999_999,
            rate_hz <= 4_294_967_295,
    ;
    let total: u128 = nanos * (rate_hz as u128);
    (total / 1_000_000_000) as usize
}

/// A bus whose senders are all gone never idles: it puts out what is left and then ends.
pub proof fn finished_bus_drains<S>(before: BusState<S>, after: BusState<S>, step: BusStep<S>)
    requires
        bus_step(before, after, step),
        before.well_formed(),
        before.all_done(),
    ensures
        !(step is Idle),
{
    let have = trimmed_ready(before.legs@, before.max_jitter_frames as nat);
    crate::mixer::emitted_blocks_are_backed(have, before.done@);
}

/// Blocks follow each other without gap or overlap: each one starts at the frame after the
/// previous one's last, and no block is longer than the block size.
pub proof fn blocks_are_contiguous<S>(before: BusState<S>, after: BusState<S>, step: BusStep<S>)
    requires
        bus_step(before, after, step),
        before.well_formed(),
    ensures
        step matches BusStep::Emit { frames, blocks, frame_index } ==> {
            &&& frame_index == before.output_frame_index
            &&& after.output_frame_index == frame_index + frames
            &&& 0 < frames <= BLOCK_SIZE
        },
        !(step is Emit) ==> after.output_frame_index == before.output_frame_index,
{
    let have = trimmed_ready(before.legs@, before.max_jitter_frames as nat);
    crate::mixer::emitted_blocks_are_backed(have, before.done@);
}

/// The jitter window in frames is as many whole frames as last no longer than it.
pub proof fn the_window_holds_whole_frames(window: Duration, rate_hz: u32, n: usize)
    requires
        call_ensures(jitter_frames, (window, rate_hz), n),
        window@ * rate_hz / 1_000_000_000 <= usize::MAX,
    ensures
        n * 1_000_000_000 <= window@ * rate_hz < (n + 1) * 1_000_000_000,
{
}

} // verus!
