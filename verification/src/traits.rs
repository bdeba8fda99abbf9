//! What users of the library implement: processors, sinks, analyzers and hosts.

use vstd::prelude::*;

use crate::buffer::AudioBuffer;
use crate::error::{RecordingError, Result};
use crate::events::MediaEvent;
use crate::format::AudioFormat;
use crate::source::{input_sources, CaptureSource, CaptureSourceKind, DeviceInfo};

verus! {

/// What a sink, a plugin or an analyzer shows of its state: what it is made from is up to its
/// type. One call leads from one mark to the next, so the marks before and after tell which one was
/// called, and how often.
pub enum Mark {
    One(int),
    /// That of something with parts.
    Many(Seq<Mark>),
}

/// Receives encoded or raw PCM from writer threads (never called from plugin code).
pub trait AudioSink<S>: Send {
    /// What the sink shows of its state.
    open spec fn mark(&self) -> Mark {
        Mark::One(0)
    }

    /// What a write may answer, and the mark that it may leave, by the state that the sink is in. A
    /// sink that says nothing of it may answer anything.
    open spec fn may_answer(&self, buffer: AudioBuffer<S>, r: Result<()>, next: Mark) -> bool {
        true
    }

    /// What a flush may answer, and the mark that it may leave, by the state that the sink is in.
    open spec fn may_flush(&self, r: Result<()>, next: Mark) -> bool {
        true
    }

    /// Called on the sink's dedicated writer thread.
    fn write_pcm_f32(&mut self, buffer: &AudioBuffer<S>) -> (r: Result<()>)
        ensures
            old(self).may_answer(*buffer, r, final(self).mark()),
    ;

    /// Finishes what was written. A sink that has nothing to finish answers `Ok`.
    fn flush(&mut self) -> (r: Result<()>)
        ensures
            old(self).may_flush(r, final(self).mark()),
    ;
}

/// In-process plugin: transforms `input` into `output` (pre-sized by the pipeline).
pub trait AudioProcessor<S>: Send {
    /// What the plugin shows of its state.
    open spec fn mark(&self) -> Mark {
        Mark::One(0)
    }

    /// What a call may leave in an output buffer that held `before`, whether it may report success
    /// then, and the mark that it may leave, by the state that the plugin is in.
    open spec fn may_leave(
        &self,
        input: AudioBuffer<S>,
        before: AudioBuffer<S>,
        after: AudioBuffer<S>,
        ok: bool,
        next: Mark,
    ) -> bool {
        true
    }

    /// The plugin's name.
    fn name(&self) -> (n: String)
        default_ensures
            n@ == "plugin"@,
    {
        "plugin".to_owned()
    }

    /// Forgets all state carried from block to block.
    fn reset(&mut self) {
    }

    /// Transforms one block.
    fn process(&mut self, input: &AudioBuffer<S>, output: &mut AudioBuffer<S>) -> (r: Result<()>)
        ensures
            old(self).may_leave(
                *input,
                *old(output),
                *final(output),
                r is Ok,
                final(self).mark(),
            ),
    ;
}

/// A plugin that moves samples of this type without a look at their values.
pub trait MovesSamples<S> {

}

/// Observes audio and emits time-aligned metadata events.
///
/// Implementations run on analyzer worker threads fed by bounded queues, not directly on the
/// host audio callback.
pub trait AudioAnalyzer<S>: Send {
    /// What the analyzer shows of its state.
    open spec fn mark(&self) -> Mark {
        Mark::One(0)
    }

    /// What the analyzer may answer to a block, and the mark that it may leave, by the state that
    /// it is in.
    open spec fn may_accept(&self, input: AudioBuffer<S>, r: Result<()>, next: Mark) -> bool {
        true
    }

    /// Whether the analyzer may be in this state right after it answered `r` to a block.
    open spec fn may_follow(&self, input: AudioBuffer<S>, r: Result<()>) -> bool {
        true
    }

    /// The events that the analyzer may hand out, and the mark that this may leave, by the state
    /// that it is in.
    open spec fn may_hand_out(&self, events: Seq<MediaEvent<S>>, next: Mark) -> bool {
        true
    }

    /// The analyzer's name.
    fn name(&self) -> String;

    /// Takes in one block.
    fn accept_audio(&mut self, input: &AudioBuffer<S>) -> (r: Result<()>)
        ensures
            old(self).may_accept(*input, r, final(self).mark()),
            final(self).may_follow(*input, r),
    ;

    /// Hands out the events found since the last call.
    fn drain_events(&mut self) -> (events: Vec<MediaEvent<S>>)
        ensures
            old(self).may_hand_out(events@, final(self).mark()),
    ;
}

/// Opaque stop control for a running host stream.
pub struct StreamHandle<F: FnOnce()> {
    stop: Option<F>,
}

impl<F: FnOnce()> StreamHandle<F> {
    /// What [`StreamHandle::stop`] runs, if anything.
    pub closed spec fn action(&self) -> Option<F> {
        self.stop
    }

    /// A handle that runs `stop` when it is stopped, and not before: it keeps the action.
    pub fn new(stop: F) -> (h: Self)
        ensures
            h.action() == Some(stop),
    {
        StreamHandle { stop: Some(stop) }
    }

    /// A handle on nothing: there is nothing to run when it is stopped.
    pub fn idle() -> (h: Self)
        ensures
            h.action() is None,
    {
        StreamHandle { stop: None }
    }

    /// Stops the stream: runs the action, which is used up with the handle.
    pub fn stop(self)
        requires
            self.action() matches Some(f) ==> call_requires(f, ()),
        ensures
            self.action() matches Some(f) ==> call_ensures(f, (), ()),
    {
        match self.stop {
            Some(stop) => stop(),
            None => {},
        }
    }
}

/// Hosts enumerate devices and start capture into a pipeline ingest callback.
pub trait AudioHost<S> {
    /// What stops a stream of this host.
    type Stop: FnOnce();

    /// Lists microphone-style input devices.
    fn list_input_devices(&self) -> Result<Vec<DeviceInfo>>;

    /// Opens a capture stream for a microphone-style input device; `on_buffer` is invoked on
    /// the host audio thread.
    fn start_input_stream<C: Fn(AudioBuffer<S>) + Send + Sync + 'static>(
        &self,
        device_id: Option<&str>,
        format: AudioFormat,
        on_buffer: C,
    ) -> Result<StreamHandle<Self::Stop>>;

    /// Lists every capture source the host can open. By default these are the input devices.
    fn list_capture_sources(&self) -> (r: Result<Vec<CaptureSource>>)
        default_ensures
            r matches Ok(sources) ==> exists|devices: Vec<DeviceInfo>| #[trigger]
                call_ensures(Self::list_input_devices, (self,), Ok(devices)) && sources@
                    == devices@.map_values(|d: DeviceInfo| crate::source::input_source(d)),
            r matches Err(e) ==> call_ensures(Self::list_input_devices, (self,), Err(e)),
    {
        match self.list_input_devices() {
            Ok(devices) => {
                let ghost listed = devices;
                assert(call_ensures(Self::list_input_devices, (self,), Ok(listed)));
                Ok(input_sources(devices))
            },
            Err(e) => Err(e),
        }
    }

    /// Opens a capture stream for any kind of source. By default input devices are opened and
    /// every other kind is refused.
    fn start_capture<C: Fn(AudioBuffer<S>) + Send + Sync + 'static>(
        &self,
        source_id: Option<&str>,
        kind: CaptureSourceKind,
        format: AudioFormat,
        on_buffer: C,
    ) -> (r: Result<StreamHandle<Self::Stop>>)
        default_ensures
            kind == CaptureSourceKind::Input ==> call_ensures(
                Self::start_input_stream,
                (self, source_id, format, on_buffer),
                r,
            ),
            kind == CaptureSourceKind::Loopback ==> (r matches Err(e) && e is Config
                && e->Config_0@ == "loopback capture is not supported by this audio host"@),
            kind == CaptureSourceKind::AppOutput ==> (r matches Err(e) && e is Config
                && e->Config_0@ == "app-output capture is not supported by this audio host"@),
    {
        match kind {
            CaptureSourceKind::Input => self.start_input_stream(source_id, format, on_buffer),
            CaptureSourceKind::Loopback => Err(
                RecordingError::config("loopback capture is not supported by this audio host"),
            ),
            CaptureSourceKind::AppOutput => Err(
                RecordingError::config("app-output capture is not supported by this audio host"),
            ),
        }
    }

    /// Playback or render devices (for monitor bus to speakers). None by default.
    fn list_output_devices(&self) -> (r: Result<Vec<DeviceInfo>>)
        default_ensures
            r matches Ok(devices) && devices@ == Seq::<DeviceInfo>::empty(),
    {
        Ok(Vec::new())
    }

    /// Low-latency output: the device callback invokes `fill` for each block to play.
    /// Unsupported by default.
    fn start_output_stream<C: Fn(usize) -> Vec<S> + Send + Sync + 'static>(
        &self,
        device_id: Option<&str>,
        format: AudioFormat,
        fill: C,
    ) -> (r: Result<StreamHandle<Self::Stop>>)
        default_ensures
            r matches Err(e) && e is Config && e->Config_0@
                == "start_output_stream is not implemented for this host"@,
    {
        Err(RecordingError::config("start_output_stream is not implemented for this host"))
    }
}

} // verus!
