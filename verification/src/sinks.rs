//! What file sinks decide about their formats.

use vstd::prelude::*;

use crate::buffer::AudioBuffer;
use crate::error::{RecordingError, Result};
use crate::format::{AudioFormat, SampleFormat};
use crate::traits::{AudioSink, Mark};

verus! {

/// Discards all PCM (for an optional processed path when no file is needed).
#[derive(Debug, Clone, Copy)]
pub struct NullSink;

impl NullSink {
    /// A sink that discards everything.
    pub fn new() -> (s: Self)
        ensures
            s == NullSink,
    {
        NullSink
    }
}

impl Default for NullSink {
    fn default() -> (s: Self)
        ensures
            s == NullSink,
    {
        NullSink
    }
}

impl<S> AudioSink<S> for NullSink {
    open spec fn may_answer(&self, buffer: AudioBuffer<S>, r: Result<()>, next: Mark) -> bool {
        r is Ok && next == AudioSink::<S>::mark(self)
    }

    open spec fn may_flush(&self, r: Result<()>, next: Mark) -> bool {
        r is Ok && next == AudioSink::<S>::mark(self)
    }

    fn write_pcm_f32(&mut self, buffer: &AudioBuffer<S>) -> (r: Result<()>)
        ensures
            r is Ok,
            *final(self) == *old(self),
    {
        Ok(())
    }

    fn flush(&mut self) -> Result<()> {
        Ok(())
    }
}

/// The header of a WAV file.
#[derive(Debug, Clone, Copy, PartialEq, Eq, Structural)]
pub struct WavLayout {
    pub channels: u16,
    pub sample_rate: u32,
    pub bits_per_sample: u16,
    /// Whether samples are floating-point numbers; if not, they are integers.
    pub float: bool,
}

/// The header of a WAV file that holds blocks of the given layout.
pub fn wav_layout(format: AudioFormat) -> (l: WavLayout)
    ensures
        l == (WavLayout {
            channels: format.channels,
            sample_rate: format.sample_rate_hz,
            bits_per_sample: format.sample_format.bits_spec(),
            float: format.sample_format == SampleFormat::F32,
        }),
{
    WavLayout {
        channels: format.channels,
        sample_rate: format.sample_rate_hz,
        bits_per_sample: format.sample_format.bits(),
        float: format.sample_format == SampleFormat::F32,
    }
}

/// The header of the one-channel 16-bit WAV file that a speech segment is handed over in.
pub fn segment_wav_layout(sample_rate_hz: u32) -> (l: WavLayout)
    ensures
        l == (WavLayout {
            channels: 1,
            sample_rate: sample_rate_hz,
            bits_per_sample: 16,
            float: false,
        }),
{
    WavLayout { channels: 1, sample_rate: sample_rate_hz, bits_per_sample: 16, float: false }
}

/// What a WAV file is given of a block.
#[derive(Debug, Clone, Copy, PartialEq, Eq, Structural)]
pub enum WavWrite {
    /// The file is finished already: nothing.
    Nothing,
    /// The samples as they are.
    Float,
    /// The samples as 16-bit integers.
    Integer,
}

/// A WAV file under construction, apart from the file itself.
#[derive(Debug, Clone, Copy, PartialEq, Eq, Structural)]
pub struct WavState {
    pub format: AudioFormat,
    /// Whether the file can still be written to.
    pub open: bool,
}

impl WavState {
    /// A file that was just made.
    pub fn new(format: AudioFormat) -> (w: Self)
        ensures
            w == (WavState { format, open: true }),
    {
        WavState { format, open: true }
    }

    /// Decides how a block is written. Fails for a block of another layout.
    pub fn accept<S>(&self, buffer: &AudioBuffer<S>) -> (r: Result<WavWrite>)
        ensures
            r is Ok <==> buffer.format == self.format,
            r matches Err(e) ==> e == (RecordingError::FormatMismatch {
                expected: self.format,
                got: buffer.format,
            }),
            r matches Ok(w) ==> w == if !self.open {
                WavWrite::Nothing
            } else if self.format.sample_format == SampleFormat::F32 {
                WavWrite::Float
            } else {
                WavWrite::Integer
            },
    {
        match buffer.assert_format(self.format) {
            Ok(()) => {},
            Err(e) => {
                return Err(e);
            },
        }
        if !self.open {
            return Ok(WavWrite::Nothing);
        }
        match self.format.sample_format {
            SampleFormat::F32 => Ok(WavWrite::Float),
            SampleFormat::I16 => Ok(WavWrite::Integer),
        }
    }

    /// Ends the file. Tells whether its header has to be rewritten with the final length,
    /// which is so exactly the first time.
    pub fn finish(&mut self) -> (finalize: bool)
        ensures
            finalize == old(self).open,
            !final(self).open,
            final(self).format == old(self).format,
    {
        let was_open = self.open;
        self.open = false;
        was_open
    }
}

/// An MP3 file takes one or two channels.
pub fn check_mp3_channels(format: AudioFormat) -> (r: Result<u8>)
    ensures
        r is Ok <==> 1 <= format.channels <= 2,
        r matches Ok(n) ==> n == format.channels,
        r matches Err(e) ==> e is Config && e->Config_0@ == "Mp3Sink supports only mono or stereo"@,
{
    if format.channels == 0 || format.channels > 2 {
        return Err(RecordingError::config("Mp3Sink supports only mono or stereo"));
    }
    Ok(format.channels as u8)
}

/// The room that encoding `samples` samples per channel can take: a quarter more, rounded up,
/// and one MP3 frame. It wraps around at the end of the number range.
pub open spec fn mp3_required(samples: usize) -> usize {
    let extra = (samples / 4 + if samples % 4 > 0 {
        1int
    } else {
        0int
    }) as usize;
    samples.wrapping_add(extra).wrapping_add(7200)
}

/// `mp3lame_encoder::max_required_buffer_size`: the number of samples, a quarter of it rounded
/// up, and 7200, added with wrap-around.
pub assume_specification[ mp3lame_encoder::max_required_buffer_size ](
    sample_number: usize,
) -> (n: usize)
    ensures
        n == mp3_required(sample_number),
;

/// The length of the scratch buffer for encoding a block of `frames` frames, when it has
/// `current` bytes now: it grows as needed and never shrinks.
pub fn mp3_scratch_len(current: usize, frames: usize) -> (n: usize)
    requires
        mp3_required(frames) + 8192 <= usize::MAX,
    ensures
        n == if current < 8192 + mp3_required(frames) {
            8192 + mp3_required(frames)
        } else {
            current as int
        },
{
    let need: usize = 8192 + mp3lame_encoder::max_required_buffer_size(frames);
    if current < need {
        need
    } else {
        current
    }
}

/// The room that an MP3 block needs is a quarter more than its samples, and 7200 bytes.
pub proof fn mp3_blocks_have_room(samples: usize)
    requires
        2 * samples + 7204 <= usize::MAX,
    ensures
        4 * (mp3_required(samples) - 7200) >= 5 * samples,
        4 * (mp3_required(samples) - 7200) < 5 * samples + 4,
{
}

/// A WAV file is laid out as its samples are: as many channels at the same rate, 32 bits of
/// floating point or 16 bits of integers.
pub proof fn wav_files_are_laid_out_as_their_samples(format: AudioFormat, l: WavLayout)
    requires
        call_ensures(wav_layout, (format,), l),
    ensures
        l.channels == format.channels,
        l.sample_rate == format.sample_rate_hz,
        format.sample_format == SampleFormat::F32 ==> l.float && l.bits_per_sample == 32,
        format.sample_format == SampleFormat::I16 ==> !l.float && l.bits_per_sample == 16,
{
}

/// The room for MP3 data grows to what a block needs, and never shrinks.
pub proof fn mp3_room_never_shrinks(current: usize, frames: usize, n: usize)
    requires
        call_ensures(mp3_scratch_len, (current, frames), n),
        mp3_required(frames) + 8192 <= usize::MAX,
    ensures
        n >= current,
        n >= mp3_required(frames) + 8192,
        current >= mp3_required(frames) + 8192 ==> n == current,
{
}

} // verus!
