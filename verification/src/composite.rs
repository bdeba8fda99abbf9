//! Fan-out sinks for driving multiple outputs from one bus.

use crossbeam_channel::Sender;

use vstd::prelude::*;

use crate::buffer::AudioBuffer;
use crate::error::{RecordingError, Result};
use crate::ring::QueueSender;
use crate::traits::{AudioSink, Mark};

verus! {

/// Forwards every buffer to each child sink in order. If one child returns an error, that
/// error propagates and later children are skipped for that buffer.
#[verifier::reject_recursive_types(S)]
pub struct CompositeSink<S> {
    pub children: Vec<Box<dyn AudioSink<S>>>,
}

/// What the children show of their states.
pub open spec fn marks_of<S>(children: Seq<Box<dyn AudioSink<S>>>) -> Seq<Mark> {
    children.map_values(|c: Box<dyn AudioSink<S>>| c.mark())
}

/// A round of writes over `children`, which leaves the given marks: each child is asked once, up to
/// the last one that was asked; those before it took the buffer, and what it said is what comes of
/// the round.
pub open spec fn is_write_round<S>(
    children: Seq<Box<dyn AudioSink<S>>>,
    marks: Seq<Mark>,
    buffer: AudioBuffer<S>,
    asked: nat,
    r: Result<()>,
) -> bool {
    &&& asked <= children.len()
    &&& marks.len() == children.len()
    &&& forall|i: int|
        0 <= i < asked - 1 ==> (#[trigger] children[i]).may_answer(buffer, Ok(()), marks[i])
    &&& forall|i: int|
        asked <= i < children.len() ==> marks[i] == (#[trigger] children[i]).mark()
    &&& asked > 0 ==> children[asked - 1].may_answer(buffer, r, marks[asked - 1])
    &&& asked == 0 ==> r is Ok
    &&& r is Ok ==> asked == children.len()
}

/// A round of flushes over `children`, which leaves the given marks: each child is asked once, up to
/// the last one that was asked; those before it succeeded, and what it said is what comes of the
/// round.
pub open spec fn is_flush_round<S>(
    children: Seq<Box<dyn AudioSink<S>>>,
    marks: Seq<Mark>,
    asked: nat,
    r: Result<()>,
) -> bool {
    &&& asked <= children.len()
    &&& marks.len() == children.len()
    &&& forall|i: int|
        0 <= i < asked - 1 ==> (#[trigger] children[i]).may_flush(Ok(()), marks[i])
    &&& forall|i: int|
        asked <= i < children.len() ==> marks[i] == (#[trigger] children[i]).mark()
    &&& asked > 0 ==> children[asked - 1].may_flush(r, marks[asked - 1])
    &&& asked == 0 ==> r is Ok
    &&& r is Ok ==> asked == children.len()
}

/// The children from the given one on are as they were.
pub open spec fn untouched_from<S>(
    before: Seq<Box<dyn AudioSink<S>>>,
    after: Seq<Box<dyn AudioSink<S>>>,
    from: nat,
) -> bool {
    &&& after.len() == before.len()
    &&& forall|i: int| from <= i < before.len() ==> #[trigger] after[i] == before[i]
}

/// What a round comes to by what the children said in order: the first failure, if there is one.
pub open spec fn is_round_outcome(answers: Seq<Result<()>>, asked: nat, r: Result<()>) -> bool {
    &&& asked <= answers.len()
    &&& forall|i: int| 0 <= i < asked - 1 ==> (#[trigger] answers[i]) is Ok
    &&& r is Ok ==> asked == answers.len() && (asked > 0 ==> answers[asked - 1] is Ok)
    &&& r is Err ==> asked > 0 && answers[asked - 1] == r
}

/// How many children count, by what they would say in order, and what the round comes to: it
/// ends with the first failure.
pub fn round_outcome(answers: Vec<Result<()>>) -> (r: (usize, Result<()>))
    ensures
        is_round_outcome(answers@, r.0 as nat, r.1),
{
    let mut asked: usize = 0;
    let total: usize = answers.len();
    for answer in it: answers
        invariant
            it.seq() == answers@,
            asked == it.index(),
            asked <= answers@.len(),
            answers@.len() == total,
            forall|k: int| 0 <= k < asked ==> (#[trigger] answers@[k]) is Ok,
    {
        assert(answer == answers@[asked as int]);
        asked = asked + 1;
        if answer.is_err() {
            return (asked, answer);
        }
    }
    (asked, Ok(()))
}

proof fn lemma_one_success(a: Result<()>)
    ensures
        a is Ok ==> a == Ok::<(), RecordingError>(()),
{
    if let Ok(done) = a {
        assert(done == ());
    }
}

impl<S> CompositeSink<S> {
    /// A fan-out over `children`.
    pub fn new(children: Vec<Box<dyn AudioSink<S>>>) -> (c: Self)
        ensures
            c.children == children,
    {
        CompositeSink { children }
    }

    /// Adds one more child, last in order.
    pub fn push(&mut self, sink: Box<dyn AudioSink<S>>)
        ensures
            final(self).children@ == old(self).children@.push(sink),
    {
        self.children.push(sink);
    }

    /// Whether there is no child.
    pub fn is_empty(&self) -> (r: bool)
        ensures
            r == (self.children@.len() == 0),
    {
        self.children.len() == 0
    }

    /// Writes `buffer` to the children in order up to the first one that fails; tells how many
    /// children were asked, and the failure.
    pub fn write_round(&mut self, buffer: &AudioBuffer<S>) -> (r: (usize, Result<()>))
        ensures
            untouched_from(old(self).children@, final(self).children@, r.0 as nat),
            is_write_round(
                old(self).children@,
                marks_of(final(self).children@),
                *buffer,
                r.0 as nat,
                r.1,
            ),
    {
        let ghost before = self.children@;
        let mut i: usize = 0;
        while i < self.children.len()
            invariant
                i <= self.children@.len(),
                self.children@.len() == before.len(),
                before == old(self).children@,
                forall|k: int|
                    0 <= k < i ==> (#[trigger] before[k]).may_answer(
                        *buffer,
                        Ok(()),
                        self.children@[k].mark(),
                    ),
                forall|k: int| i <= k < before.len() ==> #[trigger] self.children@[k] == before[k],
            decreases self.children@.len() - i,
        {
            assert(self.children@[i as int] == before[i as int]);
            let answer = self.children[i].write_pcm_f32(buffer);
            i = i + 1;
            match answer {
                Ok(done) => {
                    assert(done == ());
                },
                Err(e) => {
                    return (i, Err(e));
                },
            }
        }
        (i, Ok(()))
    }

    /// Flushes the children in order up to the first one that fails; tells how many were
    /// asked, and the failure.
    pub fn flush_round(&mut self) -> (r: (usize, Result<()>))
        ensures
            untouched_from(old(self).children@, final(self).children@, r.0 as nat),
            is_flush_round(
                old(self).children@,
                marks_of(final(self).children@),
                r.0 as nat,
                r.1,
            ),
    {
        let ghost before = self.children@;
        let mut answers: Vec<Result<()>> = Vec::new();
        let mut failed = false;
        while answers.len() < self.children.len() && !failed
            invariant
                answers@.len() <= self.children@.len(),
                self.children@.len() == before.len(),
                before == old(self).children@,
                forall|k: int|
                    answers@.len() <= k < before.len() ==> #[trigger] self.children@[k]
                        == before[k],
                forall|k: int| 0 <= k < answers@.len() - 1 ==> (#[trigger] answers@[k]) is Ok,
                failed <==> answers@.len() > 0 && answers@.last() is Err,
                forall|k: int|
                    0 <= k < answers@.len() ==> (#[trigger] before[k]).may_flush(
                        answers@[k],
                        self.children@[k].mark(),
                    ),
            decreases self.children@.len() - answers@.len(),
        {
            let i: usize = answers.len();
            assert(self.children@[i as int] == before[i as int]);
            let answer = self.children[i].flush();
            failed = answer.is_err();
            answers.push(answer);
        }
        let ghost all = answers@;
        let (asked, r) = round_outcome(answers);
        assert(asked == all.len());
        proof {
            if asked > 0 {
                lemma_one_success(all[asked - 1]);
                lemma_one_success(r);
            }
            assert forall|i: int| 0 <= i < asked - 1 implies (#[trigger] before[i]).may_flush(
                Ok(()),
                marks_of(self.children@)[i],
            ) by {
                assert(all[i] is Ok);
                lemma_one_success(all[i]);
            }
        }
        (asked, r)
    }
}

impl<S> AudioSink<S> for CompositeSink<S> {
    open spec fn mark(&self) -> Mark {
        Mark::Many(marks_of(self.children@))
    }

    open spec fn may_answer(&self, buffer: AudioBuffer<S>, r: Result<()>, next: Mark) -> bool {
        exists|marks: Seq<Mark>, asked: nat|
            next == Mark::Many(marks) && #[trigger] is_write_round(
                self.children@,
                marks,
                buffer,
                asked,
                r,
            )
    }

    open spec fn may_flush(&self, r: Result<()>, next: Mark) -> bool {
        exists|marks: Seq<Mark>, asked: nat|
            next == Mark::Many(marks) && #[trigger] is_flush_round(
                self.children@,
                marks,
                asked,
                r,
            )
    }

    fn write_pcm_f32(&mut self, buffer: &AudioBuffer<S>) -> (r: Result<()>)
        ensures
            exists|asked: nat|
                {
                    &&& #[trigger] is_write_round(
                        old(self).children@,
                        marks_of(final(self).children@),
                        *buffer,
                        asked,
                        r,
                    )
                    &&& untouched_from(old(self).children@, final(self).children@, asked)
                },
    {
        let ghost before = *self;
        let (asked, r) = self.write_round(buffer);
        assert(is_write_round(
            before.children@,
            marks_of(self.children@),
            *buffer,
            asked as nat,
            r,
        ));
        r
    }

    /// Flushes the children in order up to the first one that fails: the result is
    /// [`round_outcome`] of what they said.
    fn flush(&mut self) -> (r: Result<()>)
        ensures
            exists|asked: nat|
                {
                    &&& #[trigger] is_flush_round(
                        old(self).children@,
                        marks_of(final(self).children@),
                        asked,
                        r,
                    )
                    &&& untouched_from(old(self).children@, final(self).children@, asked)
                },
    {
        let ghost before = *self;
        let (asked, r) = self.flush_round();
        assert(is_flush_round(before.children@, marks_of(self.children@), asked as nat, r));
        r
    }
}

/// Clones each buffer to multiple bus queues (strip to multiple buses). Full queues drop it
/// silently.
#[verifier::reject_recursive_types(S)]
pub struct TeeAudioSink<S> {
    pub txs: Vec<QueueSender<AudioBuffer<S>>>,
}

impl<S> TeeAudioSink<S> {
    /// A tee into the given channels.
    pub fn new(txs: Vec<Sender<AudioBuffer<S>>>) -> (t: Self)
        ensures
            t.txs@.len() == txs@.len(),
            forall|i: int|
                0 <= i < t.txs@.len() ==> (#[trigger] t.txs@[i]).is_fresh() && t.txs@[i].sender()
                    == txs@[i],
    {
        let ghost all = txs@;
        let mut queues: Vec<QueueSender<AudioBuffer<S>>> = Vec::new();
        for tx in it: txs
            invariant
                it.seq() == all,
                queues@.len() == it.index(),
                forall|i: int|
                    0 <= i < queues@.len() ==> (#[trigger] queues@[i]).is_fresh()
                        && queues@[i].sender() == all[i],
        {
            queues.push(QueueSender::new(tx));
        }
        TeeAudioSink { txs: queues }
    }
}

/// How many blocks each queue was handed, and `more`.
pub open spec fn handed_marks<S>(txs: Seq<QueueSender<AudioBuffer<S>>>, more: int) -> Seq<Mark> {
    txs.map_values(|q: QueueSender<AudioBuffer<S>>| Mark::One(q.offered().len() as int + more))
}

impl<S: Send + Sync> AudioSink<S> for TeeAudioSink<S> {
    /// How many blocks each queue was handed.
    open spec fn mark(&self) -> Mark {
        Mark::Many(handed_marks(self.txs@, 0))
    }

    open spec fn may_answer(&self, buffer: AudioBuffer<S>, r: Result<()>, next: Mark) -> bool {
        r is Ok && next == Mark::Many(handed_marks(self.txs@, 1))
    }

    open spec fn may_flush(&self, r: Result<()>, next: Mark) -> bool {
        r is Ok && next == self.mark()
    }

    fn write_pcm_f32(&mut self, buffer: &AudioBuffer<S>) -> (r: Result<()>)
        ensures
            r is Ok,
            exists|taken: Seq<bool>| #[trigger]
                crate::pipeline::offered_each(old(self).txs@, final(self).txs@, *buffer, taken),
    {
        let ghost before = self.txs@;
        let ghost mut taken: Seq<bool> = Seq::empty();
        let mut i: usize = 0;
        while i < self.txs.len()
            invariant
                i <= self.txs@.len(),
                self.txs@.len() == before.len(),
                taken.len() == i,
                forall|k: int| i <= k < before.len() ==> #[trigger] self.txs@[k] == before[k],
                forall|k: int|
                    #![trigger self.txs@[k]]
                    0 <= k < i ==> crate::ring::handed(before[k], self.txs@[k], *buffer, taken[k]),
            decreases self.txs@.len() - i,
        {
            let sent = self.txs[i].try_send(buffer.clone()).is_ok();
            proof {
                taken = taken.push(sent);
            }
            i = i + 1;
        }
        assert(crate::pipeline::offered_each(before, self.txs@, *buffer, taken));
        assert(handed_marks(self.txs@, 0) =~= handed_marks(before, 1));
        Ok(())
    }

    /// There is nothing to finish.
    fn flush(&mut self) -> (r: Result<()>)
        ensures
            r is Ok,
            *final(self) == *old(self),
    {
        Ok(())
    }
}

/// A block that was written was written by every child, in order; one that was not was written by
/// all children before the one that failed, whose answer is the answer, and by none behind it.
pub proof fn a_write_ends_at_the_first_failure<S>(
    children: Seq<Box<dyn AudioSink<S>>>,
    marks: Seq<Mark>,
    buffer: AudioBuffer<S>,
    asked: nat,
    r: Result<()>,
)
    requires
        is_write_round(children, marks, buffer, asked, r),
    ensures
        r is Ok ==> forall|i: int|
            0 <= i < children.len() ==> (#[trigger] children[i]).may_answer(
                buffer,
                Ok(()),
                marks[i],
            ),
        r is Err ==> {
            &&& 0 < asked <= children.len()
            &&& children[asked - 1].may_answer(buffer, r, marks[asked - 1])
            &&& forall|i: int|
                0 <= i < asked - 1 ==> (#[trigger] children[i]).may_answer(
                    buffer,
                    Ok(()),
                    marks[i],
                )
            &&& forall|i: int|
                asked <= i < children.len() ==> (#[trigger] children[i]).mark() == marks[i]
        },
{
    lemma_one_success(r);
    if r is Ok {
        assert forall|i: int| 0 <= i < children.len() implies (#[trigger] children[i]).may_answer(
            buffer,
            Ok(()),
            marks[i],
        ) by {
            if i == asked - 1 {
                assert(children[asked - 1].may_answer(buffer, r, marks[asked - 1]));
            }
        }
    }
}

/// A round that flushed flushed every child, in order; one that failed flushed all children before
/// the one that failed, whose answer is the answer, and none behind it.
pub proof fn a_flush_ends_at_the_first_failure<S>(
    children: Seq<Box<dyn AudioSink<S>>>,
    marks: Seq<Mark>,
    asked: nat,
    r: Result<()>,
)
    requires
        is_flush_round(children, marks, asked, r),
    ensures
        r is Ok ==> forall|i: int|
            0 <= i < children.len() ==> (#[trigger] children[i]).may_flush(Ok(()), marks[i]),
        r is Err ==> {
            &&& 0 < asked <= children.len()
            &&& children[asked - 1].may_flush(r, marks[asked - 1])
            &&& forall|i: int|
                0 <= i < asked - 1 ==> (#[trigger] children[i]).may_flush(Ok(()), marks[i])
            &&& forall|i: int|
                asked <= i < children.len() ==> (#[trigger] children[i]).mark() == marks[i]
        },
{
    lemma_one_success(r);
    if r is Ok {
        assert forall|i: int| 0 <= i < children.len() implies (#[trigger] children[i]).may_flush(
            Ok(()),
            marks[i],
        ) by {
            if i == asked - 1 {
                assert(children[asked - 1].may_flush(r, marks[asked - 1]));
            }
        }
    }
}

} // verus!
