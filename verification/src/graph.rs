//! Wiring of one or more buses: stable ids, and the queues that feed a bus.

use vstd::prelude::*;

use crate::buffer::AudioBuffer;
use crate::error::Result;
use crate::ring::{frame_queue, FrameReceiver, FrameSender};
use crate::traits::{AudioSink, Mark};

verus! {

/// Stable id for an input strip in a mixer graph.
#[derive(Debug, Clone, Copy, PartialEq, Eq, Hash, Structural)]
pub struct InputStripId(pub u32);

/// Stable id for a bus in a mixer graph.
#[derive(Debug, Clone, Copy, PartialEq, Eq, Hash, Structural)]
pub struct BusId(pub u32);

/// Forwards each buffer it receives to a queue, to feed a bus from a writer thread.
#[verifier::reject_recursive_types(S)]
pub struct MixerInputSink<S> {
    pub tx: FrameSender<S>,
}

impl<S> MixerInputSink<S> {
    /// A sink that feeds the given queue.
    pub fn new(tx: FrameSender<S>) -> (s: Self)
        ensures
            s.tx == tx,
    {
        MixerInputSink { tx }
    }
}

impl<S: Send + Sync> AudioSink<S> for MixerInputSink<S> {
    /// How many blocks the queue was handed.
    open spec fn mark(&self) -> Mark {
        Mark::One(self.tx.offered().len() as int)
    }

    open spec fn may_answer(&self, buffer: AudioBuffer<S>, r: Result<()>, next: Mark) -> bool {
        r is Ok && next == Mark::One(self.tx.offered().len() as int + 1)
    }

    open spec fn may_flush(&self, r: Result<()>, next: Mark) -> bool {
        r is Ok && next == self.mark()
    }

    /// Hands the buffer over if there is room, and drops it otherwise.
    fn write_pcm_f32(&mut self, buffer: &AudioBuffer<S>) -> (r: Result<()>)
        ensures
            r is Ok,
            exists|taken: bool| #[trigger]
                crate::ring::handed(old(self).tx, final(self).tx, *buffer, taken),
    {
        let ghost before = self.tx;
        let taken = self.tx.try_send(buffer.clone()).is_ok();
        assert(crate::ring::handed(before, self.tx, *buffer, taken));
        Ok(())
    }

    /// There is nothing to finish.
    fn flush(&mut self) -> (r: Result<()>)
        ensures
            r is Ok,
            *final(self) == *old(self),
    {
        Ok(())
    }
}

/// One input of a bus: the sink that feeds it and the queue that the bus reads.
#[verifier::reject_recursive_types(S)]
pub struct BusLeg<S> {
    pub sink: MixerInputSink<S>,
    pub queue: FrameReceiver<S>,
}

impl<S> BusLeg<S> {
    /// Nothing was sent yet; the sink feeds the queue that the bus reads, which holds `capacity`
    /// blocks.
    pub open spec fn is_new(self, capacity: nat) -> bool {
        &&& self.sink.tx.is_fresh()
        &&& self.sink.tx.capacity() == Some(capacity)
        &&& self.sink.tx.peer() == Some(self.queue.inner)
    }
}

/// One input whose queue holds at most `capacity` blocks.
pub fn bus_leg<S>(capacity: usize) -> (leg: BusLeg<S>)
    requires
        capacity <= usize::MAX / 256,
    ensures
        leg.is_new(capacity as nat),
{
    let (tx, queue) = frame_queue(capacity);
    BusLeg { sink: MixerInputSink::new(tx), queue }
}

/// The inputs of a microphone and a speaker.
pub fn mixer_channels<S>(capacity: usize) -> (legs: (BusLeg<S>, BusLeg<S>))
    requires
        capacity <= usize::MAX / 256,
    ensures
        legs.0.is_new(capacity as nat),
        legs.1.is_new(capacity as nat),
{
    (bus_leg(capacity), bus_leg(capacity))
}

/// The inputs of a bus with `n` legs.
pub fn bus_mixer_legs<S>(capacity: usize, n: usize) -> (legs: Vec<BusLeg<S>>)
    requires
        capacity <= usize::MAX / 256,
    ensures
        legs@.len() == n,
        forall|i: int| 0 <= i < n ==> (#[trigger] legs@[i]).is_new(capacity as nat),
{
    let mut legs: Vec<BusLeg<S>> = Vec::new();
    let mut i: usize = 0;
    while i < n
        invariant
            capacity <= usize::MAX / 256,
            i <= n,
            legs@.len() == i,
            forall|k: int| 0 <= k < i ==> (#[trigger] legs@[k]).is_new(capacity as nat),
        decreases n - i,
    {
        legs.push(bus_leg(capacity));
        i = i + 1;
    }
    legs
}

} // verus!
