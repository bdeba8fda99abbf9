//! Blocks of interleaved PCM.

use std::sync::Arc;
use std::time::Instant;

use vstd::prelude::*;

use crate::error::{RecordingError, Result};
use crate::format::{AudioFormat, SampleFormat};

verus! {

/// A pure change of one sample, such as a gain. Implementations say what it does to the value;
/// the library decides which samples it is applied to and where the results go.
pub trait SampleMap<I, O>: Send {
    /// The new value of one sample.
    fn apply(&self, sample: I) -> O;
}

/// One contiguous block of interleaved PCM owned by the producer.
#[derive(Debug)]
#[verifier::reject_recursive_types(S)]
pub struct AudioBuffer<S> {
    pub format: AudioFormat,
    /// Interleaved samples: `frames * channels` elements.
    pub data: Arc<Vec<S>>,
    pub frames: usize,
    /// Host-provided or synthetic capture instant (monotonic clock).
    pub captured_at: Instant,
    /// Monotonic frame index for this logical stream (optional ordering aid).
    pub frame_index: u64,
}

/// `z` is the value of silence: what `S::default()` gives.
pub open spec fn is_silence<S: Default>(z: S) -> bool {
    call_ensures(S::default, (), z)
}

impl<S> AudioBuffer<S> {
    /// The interleaved samples.
    pub open spec fn samples(self) -> Seq<S> {
        self.data@
    }

    /// There are exactly as many samples as the frame and channel counts say.
    pub open spec fn well_formed(self) -> bool {
        self.samples().len() == self.format.sample_count(self.frames as nat)
    }

    /// A buffer of `frames` frames.
    pub fn new(
        format: AudioFormat,
        data: Arc<Vec<S>>,
        frames: usize,
        captured_at: Instant,
        frame_index: u64,
    ) -> (b: Self)
        requires
            data@.len() == format.sample_count(frames as nat),
        ensures
            b == (AudioBuffer { format, data, frames, captured_at, frame_index }),
            b.well_formed(),
    {
        AudioBuffer { format, data, frames, captured_at, frame_index }
    }

    /// Fails unless the buffer has the layout `expected`.
    pub fn assert_format(&self, expected: AudioFormat) -> (r: Result<()>)
        ensures
            r is Ok <==> self.format == expected,
            r matches Err(e) ==> e == (RecordingError::FormatMismatch {
                expected,
                got: self.format,
            }),
    {
        if self.format != expected {
            return Err(RecordingError::FormatMismatch { expected, got: self.format });
        }
        Ok(())
    }
}

impl<S> Clone for AudioBuffer<S> {
    /// Another handle on the same block: the samples are shared, not copied.
    fn clone(&self) -> (b: Self)
        ensures
            b == *self,
    {
        AudioBuffer {
            format: self.format,
            data: self.data.clone(),
            frames: self.frames,
            captured_at: self.captured_at,
            frame_index: self.frame_index,
        }
    }
}

impl<S: Copy + Default> AudioBuffer<S> {
    /// A buffer of silence.
    pub fn silent(
        format: AudioFormat,
        frames: usize,
        captured_at: Instant,
        frame_index: u64,
    ) -> (b: Self)
        requires
            format.sample_count(frames as nat) <= usize::MAX,
        ensures
            b.format == format,
            b.frames == frames,
            b.captured_at == captured_at,
            b.frame_index == frame_index,
            b.well_formed(),
            exists|z: S| #[trigger]
                is_silence(z) && b.samples() == Seq::new(b.samples().len(), |i: int| z),
    {
        let n: usize = format.samples_per_frame(frames);
        let z = S::default();
        assert(is_silence(z));
        let mut data: Vec<S> = Vec::new();
        let mut i: usize = 0;
        while i < n
            invariant
                i <= n,
                data@ == Seq::new(i as nat, |k: int| z),
            decreases n - i,
        {
            data.push(z);
            i = i + 1;
            assert(data@ =~= Seq::new(i as nat, |k: int| z));
        }
        let b = AudioBuffer::new(format, Arc::new(data), frames, captured_at, frame_index);
        assert(b.samples() =~= Seq::new(b.samples().len(), |k: int| z));
        b
    }

    /// A buffer of converted 16-bit samples. Samples beyond `frames` frames are left out, and
    /// missing ones are silence.
    pub fn from_interleaved_i16<M: SampleMap<i16, S>>(
        format: AudioFormat,
        interleaved: &[i16],
        frames: usize,
        captured_at: Instant,
        frame_index: u64,
        to_sample: &M,
    ) -> (b: Self)
        requires
            format.sample_count(frames as nat) <= usize::MAX,
        ensures
            b.format == (AudioFormat { sample_format: SampleFormat::F32, ..format }),
            b.frames == frames,
            b.captured_at == captured_at,
            b.frame_index == frame_index,
            b.well_formed(),
            forall|i: int|
                0 <= i < b.samples().len() && i < interleaved@.len() ==> call_ensures(
                    M::apply,
                    (to_sample, interleaved@[i]),
                    #[trigger] b.samples()[i],
                ),
            forall|i: int|
                interleaved@.len() <= i < b.samples().len() ==> is_silence(
                    #[trigger] b.samples()[i],
                ),
    {
        let expected: usize = format.samples_per_frame(frames);
        let mut out: Vec<S> = Vec::new();
        let mut i: usize = 0;
        while i < expected
            invariant
                i <= expected,
                out@.len() == i,
                forall|k: int|
                    0 <= k < i && k < interleaved@.len() ==> call_ensures(
                        M::apply,
                        (to_sample, interleaved@[k]),
                        #[trigger] out@[k],
                    ),
                forall|k: int| interleaved@.len() <= k < i ==> is_silence(#[trigger] out@[k]),
            decreases expected - i,
        {
            if i < interleaved.len() {
                out.push(to_sample.apply(interleaved[i]));
            } else {
                out.push(S::default());
            }
            i = i + 1;
        }
        let float_format = AudioFormat { sample_format: SampleFormat::F32, ..format };
        AudioBuffer::new(float_format, Arc::new(out), frames, captured_at, frame_index)
    }
}

} // verus!
