//! Recording sessions: how one capture stream is wired to its queues, processors, sinks and
//! analyzers.

use crossbeam_channel::Sender;

use vstd::prelude::*;

use crate::buffer::AudioBuffer;
use crate::error::{RecordingError, Result};
use crate::events::{MediaEvent, MediaEventSender};
use crate::format::AudioFormat;
use crate::metrics::PipelineMetrics;
use crate::pipeline::{PipelineConfig, StreamPipeline};
use crate::ring::{frame_queue, FrameReceiver, FrameSender, QueueSender};
use crate::time::Duration;
use crate::traits::{AudioAnalyzer, AudioProcessor, AudioSink};

verus! {

/// Global knobs for a recording session.
#[derive(Debug, Clone, Copy, PartialEq, Eq, Structural)]
pub struct SessionConfig {
    pub raw_queue_capacity: usize,
    pub processed_queue_capacity: usize,
    pub analyzer_queue_capacity: usize,
    pub plugin_budget_per_plugin: Option<Duration>,
}

impl Default for SessionConfig {
    fn default() -> (c: Self)
        ensures
            c.raw_queue_capacity == 256,
            c.processed_queue_capacity == 256,
            c.analyzer_queue_capacity == 64,
            c.plugin_budget_per_plugin matches Some(b) && b@ == 5_000_000,
    {
        SessionConfig {
            raw_queue_capacity: 256,
            processed_queue_capacity: 256,
            analyzer_queue_capacity: 64,
            plugin_budget_per_plugin: Some(Duration::from_millis(5)),
        }
    }
}

/// Per-stream wiring for sinks and processors.
#[verifier::reject_recursive_types(S)]
pub struct StreamOptions<S> {
    pub raw_sink: Option<Box<dyn AudioSink<S>>>,
    pub processed_sink: Option<Box<dyn AudioSink<S>>>,
    pub processors: Vec<Box<dyn AudioProcessor<S>>>,
    pub analyzers: Vec<Box<dyn AudioAnalyzer<S>>>,
    pub event_tx: Option<Sender<MediaEvent<S>>>,
}

impl<S> Default for StreamOptions<S> {
    fn default() -> (o: Self)
        ensures
            o.raw_sink is None,
            o.processed_sink is None,
            o.processors@.len() == 0,
            o.analyzers@.len() == 0,
            o.event_tx is None,
    {
        StreamOptions {
            raw_sink: None,
            processed_sink: None,
            processors: Vec::new(),
            analyzers: Vec::new(),
            event_tx: None,
        }
    }
}

/// An analyzer, the queue that its worker thread drains into it, and where its events go.
#[verifier::reject_recursive_types(S)]
pub struct AnalyzerWorker<S> {
    pub rx: FrameReceiver<S>,
    pub analyzer: Box<dyn AudioAnalyzer<S>>,
    pub event_tx: Option<MediaEventSender<S>>,
}

/// Everything of one capture stream but its threads and its device.
#[verifier::reject_recursive_types(S)]
pub struct CaptureWiring<S> {
    pub pipeline: StreamPipeline<S>,
    pub raw_sink: Option<Box<dyn AudioSink<S>>>,
    /// The queue that the raw sink's writer thread drains.
    pub raw_rx: Option<FrameReceiver<S>>,
    pub processed_sink: Option<Box<dyn AudioSink<S>>>,
    /// The queue that the processed sink's writer thread drains.
    pub processed_rx: Option<FrameReceiver<S>>,
    pub analyzers: Vec<Box<dyn AudioAnalyzer<S>>>,
    /// The queue of each analyzer.
    pub analyzer_rxs: Vec<FrameReceiver<S>>,
    /// Where the events of each analyzer go.
    pub event_txs: Vec<Option<MediaEventSender<S>>>,
}

/// `Sender::clone` gives another handle on the same channel. A handle is nothing but the channel
/// that it points to, so the two are equal, as `same_channel` tells.
pub assume_specification<T>[ <Sender<T> as Clone>::clone ](tx: &Sender<T>) -> (r: Sender<T>)
    ensures
        r == *tx,
;

impl<S> AnalyzerWorker<S> {
    /// Sends `events` in order; those that the event queue does not take are dropped. Gives
    /// back the number of drops. Without an event queue all events are discarded.
    pub fn forward(&mut self, events: Vec<MediaEvent<S>>) -> (dropped: usize)
        ensures
            final(self).rx == old(self).rx,
            final(self).analyzer == old(self).analyzer,
            forwarded(old(self).event_tx, final(self).event_tx, events@, dropped as nat),
    {
        let ghost all = events@;
        let total: usize = events.len();
        let mut dropped: usize = 0;
        match &mut self.event_tx {
            Some(tx) => {
                let ghost first = *tx;
                let ghost start = tx.accepted();
                let ghost mut taken: Seq<bool> = Seq::empty();
                assert(start =~= start + kept(all.take(0), taken));
                for event in it: events
                    invariant
                        it.seq() == all,
                        taken.len() == it.index(),
                        start == first.accepted(),
                        tx.offered() == first.offered() + all.take(it.index() as int),
                        tx.accepted() == start + kept(all.take(it.index() as int), taken),
                        crate::ring::same_queue(first, *tx),
                        tx.accepted().len() <= start.len() + it.index(),
                        first.capacity() is Some && start.len() + all.len() <= first.capacity()->0
                            && !tx.closed() ==> dropped == 0,
                        dropped == crate::pipeline::refusals(taken),
                        dropped <= it.index(),
                        all.len() == total,
                {
                    let ghost i = it.index() as int;
                    let ghost sent = event;
                    let ok = tx.try_send(event).is_ok();
                    if !ok {
                        dropped = dropped + 1;
                    }
                    proof {
                        let longer = taken.push(ok);
                        assert(all.take(i) + seq![sent] =~= all.take(i + 1));
                        assert(first.offered() + all.take(i + 1) =~= (first.offered() + all.take(
                            i,
                        )).push(sent));
                        assert(all.take(i + 1).drop_last() =~= all.take(i));
                        assert(all.take(i + 1).last() == sent);
                        assert(longer.drop_last() =~= taken);
                        assert(start + kept(all.take(i + 1), longer) =~= start + kept(
                            all.take(i),
                            taken,
                        ) + (if ok {
                            seq![sent]
                        } else {
                            Seq::empty()
                        }));
                        taken = longer;
                    }
                }
                assert(all.take(all.len() as int) =~= all);
                assert(tx.accepted() == start + kept(all, taken));
            },
            None => {},
        }
        dropped
    }

    /// Takes in one block and sends on the events that the analyzer found. Gives back the
    /// analyzer's error and the number of dropped events.
    pub fn accept(&mut self, block: &AudioBuffer<S>) -> (r: (Option<RecordingError>, usize))
        ensures
            final(self).rx == old(self).rx,
            exists|asked: Box<dyn AudioAnalyzer<S>>, events: Seq<MediaEvent<S>>|
                {
                    &&& old(self).analyzer.may_accept(*block, answer_of(r.0), asked.mark())
                    &&& asked.may_follow(*block, answer_of(r.0))
                    &&& #[trigger] asked.may_hand_out(events, final(self).analyzer.mark())
                    &&& forwarded(old(self).event_tx, final(self).event_tx, events, r.1 as nat)
                },
    {
        let ghost start = *self;
        let error = match self.analyzer.accept_audio(block) {
            Ok(done) => {
                assert(done == ());
                None
            },
            Err(e) => Some(e),
        };
        let ghost asked = self.analyzer;
        assert(start.analyzer.may_accept(*block, answer_of(error), asked.mark()));
        assert(asked.may_follow(*block, answer_of(error)));
        let events = self.analyzer.drain_events();
        let ghost found = events@;
        assert(asked.may_hand_out(found, self.analyzer.mark()));
        let dropped: usize = self.forward(events);
        (error, dropped)
    }
}

/// A frame queue, if one is wanted.
fn optional_queue<S>(wanted: bool, capacity: usize) -> (r: (
    Option<FrameSender<S>>,
    Option<FrameReceiver<S>>,
))
    requires
        wanted ==> capacity <= usize::MAX / 256,
    ensures
        r.0 is Some <==> wanted,
        r.1 is Some <==> wanted,
        r.0 matches Some(tx) ==> tx.is_fresh() && tx.capacity() == Some(capacity as nat)
            && tx.peer() == Some(r.1->0.inner),
{
    if wanted {
        let (tx, rx) = frame_queue(capacity);
        (Some(tx), Some(rx))
    } else {
        (None, None)
    }
}

/// A handle of its own on the event queue, where there is one.
fn event_handle<S>(event_tx: &Option<Sender<MediaEvent<S>>>) -> (r: Option<MediaEventSender<S>>)
    ensures
        r is Some <==> event_tx is Some,
        r matches Some(tx) ==> tx.is_fresh() && Some(tx.sender()) == *event_tx,
{
    match event_tx {
        Some(tx) => Some(QueueSender::new(tx.clone())),
        None => None,
    }
}

/// The events that `taken` marks, in order.
pub open spec fn kept<S>(events: Seq<MediaEvent<S>>, taken: Seq<bool>) -> Seq<MediaEvent<S>>
    decreases events.len(),
{
    if events.len() == 0 || taken.len() != events.len() {
        Seq::empty()
    } else if taken.last() {
        kept(events.drop_last(), taken.drop_last()).push(events.last())
    } else {
        kept(events.drop_last(), taken.drop_last())
    }
}

/// What an analyzer answered, by the error that came of it.
pub open spec fn answer_of(error: Option<RecordingError>) -> Result<()> {
    match error {
        Some(e) => Err(e),
        None => Ok(()),
    }
}

/// The events were sent to the queue, in order; those that it did not take were dropped. Without
/// a queue nothing is sent and nothing counts as dropped.
pub open spec fn forwarded<S>(
    before: Option<MediaEventSender<S>>,
    after: Option<MediaEventSender<S>>,
    events: Seq<MediaEvent<S>>,
    dropped: nat,
) -> bool {
    match (before, after) {
        (Some(b), Some(a)) => exists|taken: Seq<bool>|
            {
                &&& taken.len() == events.len()
                &&& a.offered() == b.offered() + events
                &&& a.accepted() == b.accepted() + #[trigger] kept(events, taken)
                &&& crate::ring::same_queue(b, a)
                // An event is dropped only where the queue is full or has no receiver left.
                &&& b.capacity() is Some && b.accepted().len() + events.len() <= b.capacity()->0
                    && !a.closed() ==> dropped == 0
                &&& dropped == crate::pipeline::refusals(taken)
            },
        (None, None) => dropped == 0,
        _ => false,
    }
}

/// Whether a captured block goes on to the pipeline. While the pause gate is closed, blocks
/// are dropped before ingest, so the recorded timeline is shorter than the clock's.
pub fn admits_block(paused: Option<bool>) -> (r: bool)
    ensures
        r == (paused != Some(true)),
{
    match paused {
        Some(p) => !p,
        None => true,
    }
}

/// Wires capture streams; does not select a host implementation.
#[derive(Debug, Clone, Copy)]
pub struct RecordingSession {
    pub config: SessionConfig,
}

/// The message for a stream with nothing attached.
pub open spec fn nothing_attached() -> Seq<char> {
    "at least one sink, processor, or analyzer must be set"@
}

impl RecordingSession {
    /// A session with the given knobs.
    pub fn new(config: SessionConfig) -> (s: Self)
        ensures
            s.config == config,
    {
        RecordingSession { config }
    }

    /// Wires one capture stream: a pipeline that feeds one queue per sink and analyzer, and
    /// for each queue the side that drains it. Fails exactly when there is nothing to feed
    /// and nothing to run.
    pub fn wire_capture_stream<S>(
        &self,
        format: AudioFormat,
        options: StreamOptions<S>,
    ) -> (r: Result<CaptureWiring<S>>)
        requires
            options.raw_sink is Some ==> self.config.raw_queue_capacity <= usize::MAX / 256,
            options.processed_sink is Some ==> self.config.processed_queue_capacity <= usize::MAX
                / 256,
            options.analyzers@.len() > 0 ==> self.config.analyzer_queue_capacity <= usize::MAX
                / 256,
        ensures
            r is Err <==> options.raw_sink is None && options.processed_sink is None
                && options.processors@.len() == 0 && options.analyzers@.len() == 0,
            r matches Err(e) ==> e is Config && e->Config_0@ == nothing_attached(),
            r matches Ok(w) ==> {
                &&& w.pipeline.config == (PipelineConfig {
                    format,
                    raw_queue_capacity: self.config.raw_queue_capacity,
                    processed_queue_capacity: self.config.processed_queue_capacity,
                    analyzer_queue_capacity: self.config.analyzer_queue_capacity,
                    plugin_budget_per_plugin: self.config.plugin_budget_per_plugin,
                })
                &&& w.pipeline.chain == options.processors
                &&& w.pipeline.metrics == (PipelineMetrics {
                    raw_frames_dropped: 0,
                    processed_frames_dropped: 0,
                    analyzer_frames_dropped: 0,
                    plugin_timeouts: 0,
                })
                // Each sink has its own queue, and only where there is a sink is one fed.
                &&& w.raw_sink == options.raw_sink
                &&& w.processed_sink == options.processed_sink
                &&& (w.raw_rx is Some <==> options.raw_sink is Some)
                &&& (w.pipeline.raw_tx is Some <==> options.raw_sink is Some)
                &&& (w.processed_rx is Some <==> options.processed_sink is Some)
                &&& (w.pipeline.proc_tx is Some <==> options.processed_sink is Some)
                &&& (w.pipeline.raw_tx matches Some(tx) ==> tx.is_fresh() && tx.capacity() == Some(
                    self.config.raw_queue_capacity as nat,
                ) && tx.peer() == Some(w.raw_rx->0.inner))
                &&& (w.pipeline.proc_tx matches Some(tx) ==> tx.is_fresh() && tx.capacity() == Some(
                    self.config.processed_queue_capacity as nat,
                ) && tx.peer() == Some(w.processed_rx->0.inner))
                // One queue and one event handle per analyzer, in order.
                &&& w.analyzers == options.analyzers
                &&& w.pipeline.analyzer_txs@.len() == options.analyzers@.len()
                &&& w.analyzer_rxs@.len() == options.analyzers@.len()
                &&& w.event_txs@.len() == options.analyzers@.len()
                &&& forall|i: int|
                    0 <= i < w.event_txs@.len() ==> (#[trigger] w.event_txs@[i] is Some
                        <==> options.event_tx is Some)
                &&& forall|i: int|
                    0 <= i < w.pipeline.analyzer_txs@.len() ==> (
                    #[trigger] w.pipeline.analyzer_txs@[i]).is_fresh()
                        && w.pipeline.analyzer_txs@[i].capacity() == Some(
                        self.config.analyzer_queue_capacity as nat,
                    ) && w.pipeline.analyzer_txs@[i].peer() == Some(w.analyzer_rxs@[i].inner)
                &&& forall|i: int|
                    0 <= i < w.event_txs@.len() ==> (#[trigger] w.event_txs@[i] matches Some(tx)
                        ==> tx.is_fresh() && Some(tx.sender()) == options.event_tx)
            },
    {
        let StreamOptions { raw_sink, processed_sink, processors, analyzers, event_tx } = options;
        if raw_sink.is_none() && processed_sink.is_none() && processors.len() == 0
            && analyzers.len() == 0 {
            return Err(
                RecordingError::config("at least one sink, processor, or analyzer must be set"),
            );
        }
        let (raw_tx, raw_rx) = optional_queue(raw_sink.is_some(), self.config.raw_queue_capacity);
        let (proc_tx, processed_rx) = optional_queue(
            processed_sink.is_some(),
            self.config.processed_queue_capacity,
        );
        let mut analyzer_txs: Vec<FrameSender<S>> = Vec::new();
        let mut analyzer_rxs: Vec<FrameReceiver<S>> = Vec::new();
        let mut event_txs: Vec<Option<MediaEventSender<S>>> = Vec::new();
        let mut i: usize = 0;
        while i < analyzers.len()
            invariant
                analyzers@.len() > 0 ==> self.config.analyzer_queue_capacity <= usize::MAX / 256,
                i <= analyzers@.len(),
                analyzer_txs@.len() == i,
                analyzer_rxs@.len() == i,
                event_txs@.len() == i,
                forall|k: int|
                    0 <= k < event_txs@.len() ==> (#[trigger] event_txs@[k] is Some
                        <==> event_tx is Some),
                forall|k: int|
                    0 <= k < event_txs@.len() ==> (#[trigger] event_txs@[k] matches Some(tx)
                        ==> tx.is_fresh() && Some(tx.sender()) == event_tx),
                forall|k: int|
                    0 <= k < analyzer_txs@.len() ==> (#[trigger] analyzer_txs@[k]).is_fresh()
                        && analyzer_txs@[k].capacity() == Some(
                        self.config.analyzer_queue_capacity as nat,
                    ) && analyzer_txs@[k].peer() == Some(analyzer_rxs@[k].inner),
            decreases analyzers@.len() - i,
        {
            let (tx, rx) = frame_queue(self.config.analyzer_queue_capacity);
            analyzer_txs.push(tx);
            analyzer_rxs.push(rx);
            event_txs.push(event_handle(&event_tx));
            i = i + 1;
        }
        let config = PipelineConfig {
            format,
            raw_queue_capacity: self.config.raw_queue_capacity,
            processed_queue_capacity: self.config.processed_queue_capacity,
            analyzer_queue_capacity: self.config.analyzer_queue_capacity,
            plugin_budget_per_plugin: self.config.plugin_budget_per_plugin,
        };
        let pipeline = StreamPipeline::new(
            config,
            raw_tx,
            proc_tx,
            analyzer_txs,
            processors,
            PipelineMetrics::default(),
        );
        Ok(
            CaptureWiring {
                pipeline,
                raw_sink,
                raw_rx,
                processed_sink,
                processed_rx,
                analyzers,
                analyzer_rxs,
                event_txs,
            },
        )
    }
}

/// Events are kept in order, those that were taken and no others: all of them where all were
/// taken, and every event is either kept or counted as dropped.
pub proof fn events_are_kept_or_dropped<S>(events: Seq<MediaEvent<S>>, taken: Seq<bool>)
    requires
        taken.len() == events.len(),
    ensures
        kept(events, taken).len() + crate::pipeline::refusals(taken) == events.len(),
        (forall|i: int| 0 <= i < taken.len() ==> #[trigger] taken[i]) ==> kept(events, taken)
            == events,
        forall|i: int|
            0 <= i < events.len() && taken[i] ==> kept(events, taken).contains(
                #[trigger] events[i],
            ),
    decreases events.len(),
{
    if events.len() > 0 {
        let less = events.drop_last();
        let flags = taken.drop_last();
        events_are_kept_or_dropped(less, flags);
        let all = kept(events, taken);
        let before = kept(less, flags);
        if forall|i: int| 0 <= i < taken.len() ==> #[trigger] taken[i] {
            assert forall|i: int| 0 <= i < flags.len() implies #[trigger] flags[i] by {
                assert(taken[i]);
            }
            assert(taken[taken.len() - 1]);
            assert(all =~= events);
        }
        assert forall|i: int| 0 <= i < events.len() && taken[i] implies all.contains(
            #[trigger] events[i],
        ) by {
            if i < less.len() {
                assert(flags[i] && less[i] == events[i]);
                let k = choose|k: int| 0 <= k < before.len() && before[k] == events[i];
                assert(all[k] == events[i]);
            } else {
                assert(all[all.len() - 1] == events[i]);
            }
        }
    }
}

/// Every event of an analyzer is offered to the queue, in order; as many are accepted as are not
/// counted as dropped; and none is dropped where the queue has room for all and a receiver.
pub proof fn every_event_is_offered<S>(
    before: MediaEventSender<S>,
    after: MediaEventSender<S>,
    events: Seq<MediaEvent<S>>,
    dropped: nat,
)
    requires
        forwarded(Some(before), Some(after), events, dropped),
    ensures
        after.offered() == before.offered() + events,
        after.accepted().len() + dropped == before.accepted().len() + events.len(),
        before.capacity() is Some && before.accepted().len() + events.len()
            <= before.capacity()->0 && !after.closed() ==> dropped == 0 && after.accepted()
            == before.accepted() + events,
{
    let taken = choose|taken: Seq<bool>|
        {
            &&& taken.len() == events.len()
            &&& after.offered() == before.offered() + events
            &&& after.accepted() == before.accepted() + #[trigger] kept(events, taken)
            &&& crate::ring::same_queue(before, after)
            &&& before.capacity() is Some && before.accepted().len() + events.len()
                <= before.capacity()->0 && !after.closed() ==> dropped == 0
            &&& dropped == crate::pipeline::refusals(taken)
        };
    events_are_kept_or_dropped(events, taken);
    if dropped == 0 {
        lemma_all_kept(events, taken);
    }
}

proof fn lemma_all_kept<S>(events: Seq<MediaEvent<S>>, taken: Seq<bool>)
    requires
        taken.len() == events.len(),
        crate::pipeline::refusals(taken) == 0,
    ensures
        kept(events, taken) == events,
    decreases events.len(),
{
    if events.len() > 0 {
        lemma_all_kept(events.drop_last(), taken.drop_last());
        assert(kept(events, taken) =~= events);
    }
}

/// While a recording is paused no block is let in; otherwise every block is.
pub proof fn a_pause_lets_no_block_in(paused: Option<bool>, r: bool)
    requires
        call_ensures(admits_block, (paused,), r),
    ensures
        paused == Some(true) ==> !r,
        paused != Some(true) ==> r,
{
}

} // verus!
