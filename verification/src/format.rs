//! PCM stream layouts.

use vstd::prelude::*;

use crate::text::{push_decimal, push_text};
use crate::time::{nanos_of_frames, Duration};

verus! {

/// PCM sample layout in host memory.
#[derive(Debug, Clone, Copy, PartialEq, Eq, Hash, Structural)]
pub enum SampleFormat {
    /// Interleaved 32-bit floating-point samples, typically in `[-1.0, 1.0]`.
    F32,
    /// Interleaved signed 16-bit little-endian samples.
    I16,
}

impl SampleFormat {
    /// The variant's name.
    pub open spec fn name(self) -> Seq<char> {
        match self {
            SampleFormat::F32 => "F32"@,
            SampleFormat::I16 => "I16"@,
        }
    }

    /// The width of one sample in bits.
    pub open spec fn bits_spec(self) -> u16 {
        match self {
            SampleFormat::F32 => 32,
            SampleFormat::I16 => 16,
        }
    }

    /// The width of one sample in bits.
    pub fn bits(self) -> (b: u16)
        ensures
            b == self.bits_spec(),
    {
        match self {
            SampleFormat::F32 => 32,
            SampleFormat::I16 => 16,
        }
    }
}

/// Describes a PCM stream layout.
#[derive(Debug, Clone, Copy, PartialEq, Eq, Hash, Structural)]
pub struct AudioFormat {
    pub sample_rate_hz: u32,
    pub channels: u16,
    pub sample_format: SampleFormat,
}

impl AudioFormat {
    /// A layout with the given rate, channel count and sample format.
    pub fn new(sample_rate_hz: u32, channels: u16, sample_format: SampleFormat) -> (f: Self)
        ensures
            f == (AudioFormat { sample_rate_hz, channels, sample_format }),
    {
        AudioFormat { sample_rate_hz, channels, sample_format }
    }

    /// The number of interleaved samples in `frames` frames.
    pub open spec fn sample_count(self, frames: nat) -> nat {
        frames * self.channels as nat
    }

    /// The number of interleaved samples in `frames` frames.
    pub fn samples_per_frame(&self, frames: usize) -> (n: usize)
        requires
            self.sample_count(frames as nat) <= usize::MAX,
        ensures
            n == self.sample_count(frames as nat),
    {
        frames * self.channels as usize
    }

    /// The time that `frames` frames take; zero at a rate of zero.
    pub fn duration_for_frames(&self, frames: usize) -> (d: Duration)
        ensures
            self.sample_rate_hz == 0 ==> d@ == 0,
            self.sample_rate_hz > 0 ==> d@ == crate::time::frames_nanos(
                frames as nat,
                self.sample_rate_hz as nat,
            ),
    {
        if self.sample_rate_hz == 0 {
            return Duration::from_nanos(0);
        }
        Duration::from_nanos(nanos_of_frames(frames as u64, self.sample_rate_hz))
    }

    /// The layout written out field by field.
    pub open spec fn text(self) -> Seq<char> {
        "AudioFormat { sample_rate_hz: "@ + crate::text::decimal(self.sample_rate_hz as nat) + ", channels: "@
            + crate::text::decimal(self.channels as nat) + ", sample_format: "@ + self.sample_format.name()
            + " }"@
    }

    /// Appends the layout, written out field by field, to `out`.
    pub fn push_to(&self, out: &mut String)
        ensures
            final(out)@ == old(out)@ + self.text(),
    {
        let ghost start = out@;
        push_text(out, "AudioFormat { sample_rate_hz: ");
        push_decimal(out, self.sample_rate_hz as u64);
        push_text(out, ", channels: ");
        push_decimal(out, self.channels as u64);
        push_text(out, ", sample_format: ");
        match self.sample_format {
            SampleFormat::F32 => push_text(out, "F32"),
            SampleFormat::I16 => push_text(out, "I16"),
        }
        push_text(out, " }");
        assert(out@ =~= start + self.text());
    }
}

} // verus!
