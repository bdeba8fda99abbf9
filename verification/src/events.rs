//! Time-aligned metadata events and their queue.

use crossbeam_channel::Receiver;

use vstd::prelude::*;

use crate::ring::{bounded_queue, QueueSender};

verus! {

/// Identifies where in the media pipeline an event was observed.
#[derive(Debug, Clone, Copy, PartialEq, Eq, Structural)]
pub enum AudioTap {
    Raw,
    Processed,
}

/// Time-aligned metadata emitted by analyzers and host automation. `F` is the type of levels
/// and confidences, which are carried unread.
#[derive(Debug, Clone, PartialEq)]
#[allow(inconsistent_fields)]
pub enum MediaEvent<F> {
    VoiceActivity {
        tap: AudioTap,
        start_frame: u64,
        end_frame: u64,
        active: bool,
        level: F,
        confidence: F,
    },
    SpeakerSegment {
        tap: AudioTap,
        start_frame: u64,
        end_frame: u64,
        speaker_id: String,
        confidence: F,
    },
    TranscriptPartial {
        tap: AudioTap,
        stream_id: Option<String>,
        segment_id: u64,
        start_frame: u64,
        end_frame: u64,
        speaker_id: Option<String>,
        text: String,
        confidence: Option<F>,
    },
    TranscriptFinal {
        tap: AudioTap,
        stream_id: Option<String>,
        segment_id: u64,
        start_frame: u64,
        end_frame: u64,
        speaker_id: Option<String>,
        text: String,
        confidence: Option<F>,
    },
    AttributeDetected {
        tap: AudioTap,
        start_frame: u64,
        end_frame: u64,
        key: String,
        value: String,
        confidence: Option<F>,
    },
    PluginParameterChanged {
        plugin_id: String,
        parameter_id: String,
        value: String,
        effective_frame: Option<u64>,
    },
}

/// Producer side of an event queue.
pub type MediaEventSender<F> = QueueSender<MediaEvent<F>>;

/// Consumer side of an event queue.
#[verifier::reject_recursive_types(F)]
pub struct MediaEventReceiver<F> {
    pub inner: Receiver<MediaEvent<F>>,
}

/// `Receiver::is_empty`: whether no message is waiting. Nothing is claimed of the answer: it
/// depends on the other threads.
#[verifier::external_body]
fn channel_is_empty<T>(rx: &Receiver<T>) -> (r: bool) {
    rx.is_empty()
}

impl<F> MediaEventReceiver<F> {
    /// Whether no event is waiting, as far as this moment goes.
    pub fn is_empty(&self) -> (r: bool) {
        channel_is_empty(&self.inner)
    }
}

/// A queue of at most `capacity` events.
pub fn media_event_queue<F>(capacity: usize) -> (r: (MediaEventSender<F>, MediaEventReceiver<F>))
    requires
        capacity <= usize::MAX / 256,
    ensures
        r.0.is_fresh(),
        r.0.capacity() == Some(capacity as nat),
        r.0.peer() == Some(r.1.inner),
{
    let (tx, rx) = bounded_queue(capacity);
    (tx, MediaEventReceiver { inner: rx })
}

} // verus!
