//! Bounded frame queues built on `crossbeam_channel`. Raw and processed paths each get their
//! own bounded queue so backpressure is isolated.

use crossbeam_channel::{Receiver, Sender};

use vstd::prelude::*;

use crate::buffer::AudioBuffer;

verus! {

/// `crossbeam_channel::Sender`: the sending half of a channel, opaque here.
#[verifier::external_type_specification]
#[verifier::external_body]
#[verifier::reject_recursive_types(T)]
pub struct ExSender<T>(Sender<T>);

/// `crossbeam_channel::Receiver`: the receiving half of a channel, opaque here.
#[verifier::external_type_specification]
#[verifier::external_body]
#[verifier::reject_recursive_types(T)]
pub struct ExReceiver<T>(Receiver<T>);

/// Why a message was not accepted; the message comes back.
#[derive(Debug)]
pub enum TrySendError<T> {
    /// The channel held as many messages as it can.
    Full(T),
    /// Every receiver is gone.
    Disconnected(T),
}

impl<T> TrySendError<T> {
    /// The message that came back.
    pub open spec fn message(self) -> T {
        match self {
            TrySendError::Full(m) => m,
            TrySendError::Disconnected(m) => m,
        }
    }

    /// The message that came back.
    pub fn into_inner(self) -> (m: T)
        ensures
            m == self.message(),
    {
        match self {
            TrySendError::Full(m) => m,
            TrySendError::Disconnected(m) => m,
        }
    }
}

/// `crossbeam_channel::bounded` makes a channel that holds at most `cap` messages, and a handle
/// through which nothing was sent yet; no other handle sends to that channel. The two halves
/// belong together. The call panics where `cap` slots do not fit into the address range: a slot
/// of this library's messages takes less than 256 bytes.
#[verifier::external_body]
pub(crate) fn bounded_queue<T>(cap: usize) -> (r: (QueueSender<T>, Receiver<T>))
    requires
        cap <= usize::MAX / 256,
    ensures
        r.0.is_fresh(),
        r.0.capacity() == Some(cap as nat),
        r.0.peer() == Some(r.1),
{
    let (inner, rx) = crossbeam_channel::bounded(cap);
    (QueueSender { inner, log: Ghost(fresh_log(Some(cap as nat), Some(rx))) }, rx)
}

/// `Sender::try_send` hands a message over without waiting. When it is not accepted, the
/// error holds that message. It is not accepted where the channel is full, which takes as many
/// accepted messages as it can hold, or where every receiver is gone. Which of the messages
/// were received meanwhile depends on the other threads.
#[verifier::external_body]
fn channel_try_send<T>(queue: &mut QueueSender<T>, message: T) -> (r: std::result::Result<
    (),
    TrySendError<T>,
>)
    ensures
        handed(*old(queue), *final(queue), message, r is Ok),
        r matches Err(e) ==> e.message() == message,
        r matches Err(TrySendError::Full(_)) ==> !old(queue).has_room(),
        r matches Err(TrySendError::Disconnected(_)) ==> final(queue).closed(),
{
    match queue.inner.try_send(message) {
        Ok(()) => Ok(()),
        Err(crossbeam_channel::TrySendError::Full(m)) => Err(TrySendError::Full(m)),
        Err(crossbeam_channel::TrySendError::Disconnected(m)) => Err(TrySendError::Disconnected(m)),
    }
}

/// What is known of a queue through one producer handle.
#[verifier::reject_recursive_types(T)]
pub struct QueueLog<T> {
    /// The messages that were handed to the queue, accepted or not, oldest first.
    pub offered: Seq<T>,
    /// The messages that the queue accepted, oldest first.
    pub accepted: Seq<T>,
    /// The messages that the queue can hold, where it is known and there is no other producer.
    pub capacity: Option<nat>,
    /// The receiving half, where it is known.
    pub peer: Option<Receiver<T>>,
    /// The queue was found to have no receiver left.
    pub closed: bool,
}

/// What is known of a queue to which nothing was sent yet.
pub open spec fn fresh_log<T>(capacity: Option<nat>, peer: Option<Receiver<T>>) -> QueueLog<T> {
    QueueLog { offered: Seq::empty(), accepted: Seq::empty(), capacity, peer, closed: false }
}

/// Producer handle of a queue, which remembers (in ghost state) what it was handed and what of
/// that the queue accepted. Only the functions around the channel's own calls write to what it
/// remembers, or know a size and another half of it.
#[verifier::reject_recursive_types(T)]
pub struct QueueSender<T> {
    inner: Sender<T>,
    log: Ghost<QueueLog<T>>,
}

/// `message` was handed to a queue, which took it or not. It is taken unless the queue is full or
/// has no receiver left.
pub open spec fn handed<T>(
    before: QueueSender<T>,
    after: QueueSender<T>,
    message: T,
    taken: bool,
) -> bool {
    &&& after.offered() == before.offered().push(message)
    &&& after.accepted() == if taken {
        before.accepted().push(message)
    } else {
        before.accepted()
    }
    &&& !taken ==> !before.has_room() || after.closed()
    &&& before.closed() ==> after.closed()
    &&& same_queue(before, after)
}

/// Two states of a handle on one queue.
pub open spec fn same_queue<T>(before: QueueSender<T>, after: QueueSender<T>) -> bool {
    &&& after.sender() == before.sender()
    &&& after.capacity() == before.capacity()
    &&& after.peer() == before.peer()
}

impl<T> QueueSender<T> {
    /// The messages that were handed to the queue through this handle, accepted or not, oldest
    /// first.
    pub closed spec fn offered(&self) -> Seq<T> {
        self.log@.offered
    }

    /// The messages that the queue accepted through this handle, oldest first.
    pub closed spec fn accepted(&self) -> Seq<T> {
        self.log@.accepted
    }

    /// The messages that the queue can hold, where it is known and this is its only producer.
    pub closed spec fn capacity(&self) -> Option<nat> {
        self.log@.capacity
    }

    /// The receiving half of the queue, where it is known.
    pub closed spec fn peer(&self) -> Option<Receiver<T>> {
        self.log@.peer
    }

    /// The queue was found to have no receiver left.
    pub closed spec fn closed(&self) -> bool {
        self.log@.closed
    }

    /// The sending half that this is a handle on.
    pub closed spec fn sender(&self) -> Sender<T> {
        self.inner
    }

    /// The queue has accepted fewer messages than it can hold.
    pub open spec fn has_room(&self) -> bool {
        self.capacity() is Some && self.accepted().len() < self.capacity()->0
    }

    /// Nothing was sent through this handle yet.
    pub open spec fn is_fresh(&self) -> bool {
        &&& self.offered() == Seq::<T>::empty()
        &&& self.accepted() == Seq::<T>::empty()
        &&& !self.closed()
    }

    /// A handle on `inner` through which nothing was sent yet. Others may send to that channel
    /// too, so neither its size nor its other half is taken as known.
    pub fn new(inner: Sender<T>) -> (q: Self)
        ensures
            q.is_fresh(),
            q.sender() == inner,
            q.capacity() is None,
            q.peer() is None,
    {
        QueueSender { inner, log: Ghost(fresh_log(None, None)) }
    }

    /// Hands `message` over without waiting; on failure it comes back. A queue that has accepted
    /// fewer messages than it can hold is not full.
    pub fn try_send(&mut self, message: T) -> (r: std::result::Result<(), TrySendError<T>>)
        ensures
            handed(*old(self), *final(self), message, r is Ok),
            r matches Err(e) ==> e.message() == message,
            r matches Err(TrySendError::Full(_)) ==> !old(self).has_room(),
            r matches Err(TrySendError::Disconnected(_)) ==> final(self).closed(),
    {
        channel_try_send(self, message)
    }
}

/// Producer handle for pushing captured frames.
pub type FrameSender<S> = QueueSender<AudioBuffer<S>>;

/// Consumer side used by writer threads.
#[verifier::reject_recursive_types(S)]
pub struct FrameReceiver<S> {
    pub inner: Receiver<AudioBuffer<S>>,
}

/// A queue of at most `capacity` frames.
pub fn frame_queue<S>(capacity: usize) -> (r: (FrameSender<S>, FrameReceiver<S>))
    requires
        capacity <= usize::MAX / 256,
    ensures
        r.0.is_fresh(),
        r.0.capacity() == Some(capacity as nat),
        r.0.peer() == Some(r.1.inner),
{
    let (tx, rx) = bounded_queue(capacity);
    (tx, FrameReceiver { inner: rx })
}

} // verus!
