//! Streaming FLAC writer on `flacenc`: 16-bit PCM cut into blocks of fixed size.

use flacenc::bitsink::ByteSink;
use flacenc::component::{BitRepr, Frame, Stream};
use flacenc::config::Encoder;
use flacenc::error::Verify;
use flacenc::source::{Fill, FrameBuf};

use vstd::prelude::*;

use crate::buffer::{AudioBuffer, SampleMap};
use crate::error::{RecordingError, Result};
use crate::format::AudioFormat;
use crate::text::push_text;

verus! {

/// Frames per encoded block.
pub const BLOCK: usize = 1024;

/// Bits per encoded sample.
pub const BITS: usize = 16;

/// `flacenc::component::Stream`: a FLAC stream under construction.
#[verifier::external_type_specification]
#[verifier::external_body]
pub struct ExStream(Stream);

/// `flacenc::source::FrameBuf`: the samples of one block before encoding.
#[verifier::external_type_specification]
#[verifier::external_body]
pub struct ExFrameBuf(FrameBuf);

/// `flacenc::component::Frame`: one encoded block.
#[verifier::external_type_specification]
#[verifier::external_body]
pub struct ExFrame(Frame);

/// The interleaved samples of each block that a stream holds, in order.
pub uninterp spec fn stream_blocks(stream: Stream) -> Seq<Seq<i32>>;

/// The channels that a stream was made with.
pub uninterp spec fn stream_channels(stream: Stream) -> nat;

/// The samples per second that a stream was made with.
pub uninterp spec fn stream_rate(stream: Stream) -> nat;

/// The numbers that the blocks of a stream carry, in order.
pub uninterp spec fn stream_numbers(stream: Stream) -> Seq<nat>;

/// The bits per sample that a stream was made with.
pub uninterp spec fn stream_bits(stream: Stream) -> nat;

/// The interleaved samples that a frame buffer was filled with.
pub uninterp spec fn framebuf_samples(buf: FrameBuf) -> Seq<i32>;

/// The channels that a frame buffer was made with.
pub uninterp spec fn framebuf_channels(buf: FrameBuf) -> nat;

/// The frames per channel that a frame buffer was made for.
pub uninterp spec fn framebuf_size(buf: FrameBuf) -> nat;

/// The interleaved samples that an encoded block carries.
pub uninterp spec fn frame_samples(frame: Frame) -> Seq<i32>;

/// The number that an encoded block carries.
pub uninterp spec fn frame_number(frame: Frame) -> nat;

/// The bytes that a stream is written as, or none where one of its frames does not fit the
/// format.
pub uninterp spec fn stream_image(stream: Stream) -> Option<Seq<u8>>;

/// `Stream::new` makes an empty stream of the given rate. It refuses rates above 96 kHz, channel counts that
/// are not 1 to 8 once cut to eight bits, and sample widths other than 8, 12, 16, 20 and 24
/// bits; the claim here is for 16 bits. The error is given as text.
#[verifier::external_body]
fn new_stream(rate: usize, channels: usize, bits: usize) -> (r: std::result::Result<Stream, String>)
    requires
        rate <= u32::MAX,
        bits == 16,
    ensures
        r.is_ok() == (rate <= 96_000 && 1 <= channels as u8 && channels as u8 <= 8),
        r matches Ok(s) ==> {
            &&& stream_blocks(s) == Seq::<Seq<i32>>::empty()
            &&& stream_numbers(s) == Seq::<nat>::empty()
            &&& stream_rate(s) == rate
            &&& stream_channels(s) == channels as u8
            &&& stream_bits(s) == bits
        },
{
    Stream::new(rate, channels, bits).map_err(|e| format!("{e:?}"))
}

/// `Verify::into_verified` on `Encoder::default`: the default encoder settings are valid, since
/// each of them lies in the range that it is checked against.
#[verifier::external_body]
fn check_default_encoder() -> (r: std::result::Result<(), String>)
    ensures
        r is Ok,
{
    Encoder::default().into_verified().map(|_| ()).map_err(|e| format!("{e:?}"))
}

/// `FrameBuf::with_size` makes an empty buffer. It refuses channel counts that are not 1 to 8
/// and sizes that are not 32 to 32767.
#[verifier::external_body]
fn new_frame_buf(channels: usize, size: usize) -> (r: std::result::Result<FrameBuf, String>)
    ensures
        r.is_ok() == (1 <= channels && channels <= 8 && 32 <= size && size <= 32767),
        r matches Ok(b) ==> framebuf_channels(b) == channels && framebuf_size(b) == size
            && framebuf_samples(b) == Seq::<i32>::empty(),
{
    FrameBuf::with_size(channels, size).map_err(|e| format!("{e:?}"))
}

/// `Fill::fill_interleaved` on a frame buffer takes in whole frames and leaves out what is
/// left over at the end. It never fails. There must be room for all the frames.
#[verifier::external_body]
fn fill_frame_buf(buf: &mut FrameBuf, interleaved: &[i32]) -> (r: std::result::Result<(), String>)
    requires
        framebuf_channels(*old(buf)) > 0,
        interleaved@.len() / framebuf_channels(*old(buf)) <= framebuf_size(*old(buf)),
    ensures
        r is Ok,
        framebuf_channels(*final(buf)) == framebuf_channels(*old(buf)),
        framebuf_size(*final(buf)) == framebuf_size(*old(buf)),
        framebuf_samples(*final(buf)) == whole_frames(
            interleaved@,
            framebuf_channels(*old(buf)),
        ),
{
    buf.fill_interleaved(interleaved).map_err(|e| format!("{e:?}"))
}

/// `encode_fixed_size_frame` with the default encoder settings. It refuses frame numbers that
/// take more than 31 bits and samples that take more bits than the stream's. The encoding is
/// lossless: the frame carries the samples of the buffer, and the number.
#[verifier::external_body]
fn encode_frame(stream: &Stream, buf: &FrameBuf, number: usize) -> (r: std::result::Result<
    Frame,
    String,
>)
    requires
        stream_bits(*stream) == 16,
        stream_channels(*stream) == framebuf_channels(*buf),
        framebuf_samples(*buf).len() > 0,
    ensures
        r.is_ok() == (number < 0x8000_0000 && all_in_range(framebuf_samples(*buf))),
        r matches Ok(f) ==> frame_samples(f) == framebuf_samples(*buf) && frame_number(f) == number,
{
    let config = Encoder::default().into_verified().map_err(|e| format!("{e:?}"))?;
    flacenc::encode_fixed_size_frame(&config, buf, number, stream.stream_info())
        .map_err(|e| format!("{e:?}"))
}

/// `Stream::add_frame` appends one encoded block to the stream.
#[verifier::external_body]
fn add_frame(stream: &mut Stream, frame: Frame)
    ensures
        stream_blocks(*final(stream)) == stream_blocks(*old(stream)).push(frame_samples(frame)),
        stream_numbers(*final(stream)) == stream_numbers(*old(stream)).push(frame_number(frame)),
        stream_rate(*final(stream)) == stream_rate(*old(stream)),
        stream_channels(*final(stream)) == stream_channels(*old(stream)),
        stream_bits(*final(stream)) == stream_bits(*old(stream)),
{
    stream.add_frame(frame)
}

/// `BitRepr::write` of the stream into a `ByteSink`: the bytes of the stream, which begin
/// with the FLAC marker. They depend on the stream alone; how a block was encoded was settled
/// when its frame was made. The bytes after the marker have a name and no further description.
#[verifier::external_body]
fn stream_bytes(stream: &Stream) -> (r: std::result::Result<Vec<u8>, String>)
    ensures
        r is Ok <==> stream_image(*stream) is Some,
        r matches Ok(bytes) ==> Some(bytes@) == stream_image(*stream) && bytes@.len() >= 4
            && bytes@.take(4) == flac_marker(),
{
    let mut sink = ByteSink::new();
    stream.write(&mut sink).map_err(|e| format!("{e:?}"))?;
    Ok(sink.as_slice().to_vec())
}

/// The four bytes `fLaC`.
pub open spec fn flac_marker() -> Seq<u8> {
    seq![0x66u8, 0x4cu8, 0x61u8, 0x43u8]
}

/// The whole frames that `interleaved` begins with.
pub open spec fn whole_frames(interleaved: Seq<i32>, channels: nat) -> Seq<i32> {
    interleaved.take((interleaved.len() / channels * channels) as int)
}

/// Every sample fits in 16 bits.
pub open spec fn all_in_range(samples: Seq<i32>) -> bool {
    forall|i: int| 0 <= i < samples.len() ==> -32768 <= #[trigger] samples[i] <= 32767
}

/// Blocks one after the other.
pub open spec fn flattened(blocks: Seq<Seq<i32>>) -> Seq<i32>
    decreases blocks.len(),
{
    if blocks.len() == 0 {
        Seq::empty()
    } else {
        flattened(blocks.drop_last()) + blocks.last()
    }
}

/// The first `n` numbers.
pub open spec fn first_numbers(n: nat) -> Seq<nat> {
    Seq::new(n, |i: int| i as nat)
}

/// What a block that cannot be encoded comes to: the format has no such block, or its samples or
/// its number do not fit.
pub open spec fn is_block_failure(e: RecordingError, channels: nat, block_size: nat) -> bool {
    e is Plugin && outside_text(
        e->Plugin_0@,
        if 1 <= channels <= 8 && 32 <= block_size <= 32767 {
            "encode frame: "@
        } else {
            "framebuf: "@
        },
    )
}

/// Streaming FLAC writer. Samples are collected until a block is full; a shorter last block is
/// encoded when the stream is finished.
pub struct FlacSink {
    pub stream: Stream,
    /// Samples that do not fill a block yet.
    pub pending: Vec<i32>,
    pub channels: usize,
    /// The number of the next block.
    pub frame_index: usize,
}

/// `text` is `prefix` and what an outside error says of itself.
pub open spec fn outside_text(text: Seq<char>, prefix: Seq<char>) -> bool {
    crate::text::starts_with_seq(text, prefix)
}

/// A plugin error `<prefix><detail>`.
fn plugin_error(prefix: &str, detail: &str) -> (e: RecordingError)
    ensures
        e is Plugin,
        e->Plugin_0@ == prefix@ + detail@,
        outside_text(e->Plugin_0@, prefix@),
{
    let mut text = String::new();
    push_text(&mut text, prefix);
    push_text(&mut text, detail);
    assert(text@ =~= prefix@ + detail@);
    assert(text@.take(prefix@.len() as int) =~= prefix@);
    RecordingError::Plugin(text)
}

impl FlacSink {
    /// The stream has the sink's channels and width, and its blocks are numbered from 0 on.
    pub open spec fn well_formed(self) -> bool {
        &&& 0 < self.channels <= u16::MAX
        &&& stream_channels(self.stream) == self.channels as u8
        &&& stream_bits(self.stream) == 16
        &&& stream_numbers(self.stream) == first_numbers(self.frame_index as nat)
        &&& self.frame_index <= 0x8000_0000
    }

    /// All samples taken in so far: those encoded, then those that wait.
    pub open spec fn taken_in(self) -> Seq<i32> {
        flattened(stream_blocks(self.stream)) + self.pending@
    }

    /// A sink for the given layout. Fails for a layout without channels, for rates above
    /// 96 kHz and for channel counts that the format does not have.
    pub fn create(format: AudioFormat) -> (r: Result<Self>)
        ensures
            format.channels == 0 ==> (r matches Err(e) && e is Config && e->Config_0@
                == "channels must be > 0"@),
            format.channels > 0 && !(format.sample_rate_hz <= 96_000 && 1 <= format.channels as u8
                <= 8) ==> (r matches Err(e) && e is Plugin && outside_text(
                e->Plugin_0@,
                "flac stream: "@,
            )),
            r is Ok <==> format.channels > 0 && format.sample_rate_hz <= 96_000 && 1
                <= format.channels as u8 <= 8,
            r matches Ok(s) ==> {
                &&& s.well_formed()
                &&& s.channels == format.channels
                &&& s.frame_index == 0
                &&& s.pending@.len() == 0
                &&& stream_rate(s.stream) == format.sample_rate_hz
                &&& stream_blocks(s.stream) == Seq::<Seq<i32>>::empty()
                &&& s.taken_in() == Seq::<i32>::empty()
            },
    {
        if format.channels == 0 {
            return Err(RecordingError::config("channels must be > 0"));
        }
        let narrow: u16 = format.channels;
        let channels: usize = narrow as usize;
        assert(channels as u8 == narrow as u8) by (bit_vector)
            requires
                channels == narrow as usize,
        ;
        match new_stream(format.sample_rate_hz as usize, channels, BITS) {
            Ok(stream) => match check_default_encoder() {
                Ok(()) => {
                    let s = FlacSink { stream, pending: Vec::new(), channels, frame_index: 0 };
                    assert(s.taken_in() =~= Seq::<i32>::empty());
                    assert(stream_numbers(s.stream) =~= first_numbers(0));
                    Ok(s)
                },
                Err(e) => Err(plugin_error("flac encoder config: ", e.as_str())),
            },
            Err(e) => Err(plugin_error("flac stream: ", e.as_str())),
        }
    }

    /// Encodes `interleaved` as the next block, of `block_size` frames. On failure the stream
    /// is as it was.
    pub fn encode_block(&mut self, interleaved: &[i32], block_size: usize) -> (r: Result<()>)
        requires
            old(self).channels > 0,
            stream_channels(old(self).stream) == old(self).channels as u8,
            stream_bits(old(self).stream) == 16,
            interleaved@.len() / (old(self).channels as nat) <= block_size,
            interleaved@.len() >= old(self).channels,
            old(self).frame_index < usize::MAX,
        ensures
            r is Ok <==> encodable(
                interleaved@,
                old(self).channels as nat,
                block_size as nat,
                old(self).frame_index as nat,
            ),
            r matches Err(e) ==> *final(self) == *old(self) && is_block_failure(
                e,
                old(self).channels as nat,
                block_size as nat,
            ),
            r is Ok ==> {
                &&& stream_numbers(final(self).stream) == stream_numbers(old(self).stream).push(
                    old(self).frame_index as nat,
                )
                &&& stream_rate(final(self).stream) == stream_rate(old(self).stream)
                &&& stream_blocks(final(self).stream) == stream_blocks(old(self).stream).push(
                    whole_frames(interleaved@, old(self).channels as nat),
                )
                &&& final(self).frame_index == old(self).frame_index + 1
                &&& stream_channels(final(self).stream) == stream_channels(old(self).stream)
                &&& stream_bits(final(self).stream) == stream_bits(old(self).stream)
                &&& final(self).pending == old(self).pending
                &&& final(self).channels == old(self).channels
            },
    {
        let channels: usize = self.channels;
        let mut buf = match new_frame_buf(channels, block_size) {
            Ok(buf) => buf,
            Err(e) => {
                return Err(plugin_error("framebuf: ", e.as_str()));
            },
        };
        assert(channels as u8 == channels) by (bit_vector)
            requires
                channels <= 8,
        ;
        match fill_frame_buf(&mut buf, interleaved) {
            Ok(()) => {},
            Err(e) => {
                return Err(plugin_error("fill_interleaved: ", e.as_str()));
            },
        }
        proof {
            lemma_whole_frames(interleaved@, channels as nat);
        }
        let frame = match encode_frame(&self.stream, &buf, self.frame_index) {
            Ok(frame) => frame,
            Err(e) => {
                return Err(plugin_error("encode frame: ", e.as_str()));
            },
        };
        add_frame(&mut self.stream, frame);
        self.frame_index = self.frame_index + 1;
        Ok(())
    }
}

proof fn lemma_whole_frames(interleaved: Seq<i32>, channels: nat)
    requires
        0 < channels <= interleaved.len(),
    ensures
        0 < whole_frames(interleaved, channels).len() <= interleaved.len(),
{
    let n = interleaved.len();
    assert(0 < n / channels * channels <= n) by (nonlinear_arith)
        requires
            0 < channels <= n,
    ;
}

/// A block can be encoded: the format has such channel counts, block sizes and block numbers,
/// and every sample fits.
pub open spec fn encodable(
    interleaved: Seq<i32>,
    channels: nat,
    block_size: nat,
    number: nat,
) -> bool {
    &&& 1 <= channels <= 8
    &&& 32 <= block_size <= 32767
    &&& number < 0x8000_0000
    &&& all_in_range(whole_frames(interleaved, channels))
}

/// Block `i` of `samples` cut into blocks of `size` samples.
pub open spec fn chunk(samples: Seq<i32>, size: nat, i: int) -> Seq<i32> {
    samples.subrange(i * size, (i + 1) * size)
}

/// The first `n` blocks of `samples` cut into blocks of `size` samples.
pub open spec fn chunks(samples: Seq<i32>, size: nat, n: nat) -> Seq<Seq<i32>> {
    Seq::new(n, |i: int| chunk(samples, size, i))
}

proof fn lemma_chunk_bounds(len: nat, size: nat, i: int)
    requires
        size > 0,
        0 <= i < len / size,
    ensures
        0 <= i * size,
        (i + 1) * size == i * size + size,
        (i + 1) * size <= len,
{
    assert((i + 1) * size == i * size + size) by (nonlinear_arith);
    assert(0 <= i * size) by (nonlinear_arith)
        requires
            0 <= i,
    ;
    assert((i + 1) * size <= len) by (nonlinear_arith)
        requires
            size > 0,
            i + 1 <= len / size,
    ;
}

proof fn lemma_full_chunk(samples: Seq<i32>, channels: nat, i: int)
    requires
        0 < channels <= u16::MAX,
        0 <= i < samples.len() / (channels * BLOCK as nat),
    ensures
        chunk(samples, channels * BLOCK as nat, i).len() == channels * BLOCK,
        chunk(samples, channels * BLOCK as nat, i).len() / channels == BLOCK,
        whole_frames(chunk(samples, channels * BLOCK as nat, i), channels) == chunk(
            samples,
            channels * BLOCK as nat,
            i,
        ),
{
    let size = channels * BLOCK as nat;
    lemma_chunk_bounds(samples.len(), size, i);
    let c = chunk(samples, size, i);
    assert(c.len() == size);
    assert(size / channels == BLOCK) by (nonlinear_arith)
        requires
            size == channels * BLOCK,
            channels > 0,
    ;
    assert(BLOCK * channels == size) by (nonlinear_arith)
        requires
            size == channels * BLOCK,
    ;
    assert(whole_frames(c, channels) =~= c);
}

proof fn lemma_flatten_chunks(blocks: Seq<Seq<i32>>, samples: Seq<i32>, size: nat, n: nat)
    requires
        size > 0,
        n <= samples.len() / size,
    ensures
        n * size <= samples.len(),
        flattened(blocks + chunks(samples, size, n)) == flattened(blocks) + samples.take(
            (n * size) as int,
        ),
    decreases n,
{
    if n == 0 {
        assert(0 * size == 0) by (nonlinear_arith);
        assert(blocks + chunks(samples, size, 0) =~= blocks);
        assert(flattened(blocks) + samples.take(0) =~= flattened(blocks));
    } else {
        let m = (n - 1) as nat;
        lemma_flatten_chunks(blocks, samples, size, m);
        lemma_chunk_bounds(samples.len(), size, m as int);
        let all = blocks + chunks(samples, size, n);
        assert(all.drop_last() =~= blocks + chunks(samples, size, m));
        assert(all.last() == chunk(samples, size, m as int));
        assert(samples.take((m * size) as int) + chunk(samples, size, m as int) =~= samples.take(
            (n * size) as int,
        ));
        assert(flattened(all) =~= flattened(blocks) + samples.take((n * size) as int));
    }
}

/// What happens to a sink that is given more samples.
pub open spec fn pushed(before: FlacSink, after: FlacSink, more: Seq<i32>, ok: bool) -> bool {
    let all = before.pending@ + more;
    let channels = before.channels as nat;
    let size = channels * BLOCK as nat;
    let full = all.len() / size;
    &&& after.channels == before.channels
    &&& stream_rate(after.stream) == stream_rate(before.stream)
    &&& if ok {
        &&& forall|i: int|
            0 <= i < full ==> #[trigger] encodable(
                chunk(all, size, i),
                channels,
                BLOCK as nat,
                before.frame_index as nat + i as nat,
            )
        &&& stream_blocks(after.stream) == stream_blocks(before.stream) + chunks(all, size, full)
        &&& after.pending@ == all.skip((full * size) as int)
        &&& after.frame_index == before.frame_index + full
        &&& after.taken_in() == before.taken_in() + more
    } else {
        // The first block that cannot be encoded is lost, and ends the round.
        exists|j: int|
            {
                &&& 0 <= j < full
                &&& !#[trigger] encodable(
                    chunk(all, size, j),
                    channels,
                    BLOCK as nat,
                    before.frame_index as nat + j as nat,
                )
                &&& forall|i: int|
                    0 <= i < j ==> #[trigger] encodable(
                        chunk(all, size, i),
                        channels,
                        BLOCK as nat,
                        before.frame_index as nat + i as nat,
                    )
                &&& stream_blocks(after.stream) == stream_blocks(before.stream) + chunks(
                    all,
                    size,
                    j as nat,
                )
                &&& after.pending@ == all.skip((j + 1) * size)
                &&& after.frame_index == before.frame_index + j
            }
    }
}

impl FlacSink {
    /// Takes in more interleaved samples and encodes every block that they fill.
    pub fn push_interleaved_i32(&mut self, interleaved: &[i32]) -> (r: Result<()>)
        requires
            old(self).well_formed(),
            old(self).pending@.len() + interleaved@.len() <= usize::MAX,
        ensures
            pushed(*old(self), *final(self), interleaved@, r is Ok),
            r matches Err(e) ==> is_block_failure(e, old(self).channels as nat, BLOCK as nat),
            final(self).well_formed(),
    {
        let ghost before = *self;
        let ghost all = before.pending@ + interleaved@;
        let ghost channels = self.channels as nat;
        let ghost size_spec = channels * BLOCK as nat;
        let ghost full = all.len() / size_spec;
        let mut i: usize = 0;
        assert(self.pending@ =~= before.pending@ + interleaved@.take(0));
        while i < interleaved.len()
            invariant
                i <= interleaved@.len(),
                self.pending@ == before.pending@ + interleaved@.take(i as int),
                self.stream == before.stream,
                self.channels == before.channels,
                self.frame_index == before.frame_index,
            decreases interleaved@.len() - i,
        {
            self.pending.push(interleaved[i]);
            i = i + 1;
            assert(self.pending@ =~= before.pending@ + interleaved@.take(i as int));
        }
        assert(self.pending@ =~= all);
        let size: usize = self.channels * BLOCK;
        let ghost mut done: nat = 0;
        assert(0 * size_spec == 0) by (nonlinear_arith);
        assert(all.skip(0) =~= all);
        assert(stream_blocks(before.stream) + chunks(all, size_spec, 0) =~= stream_blocks(
            before.stream,
        ));
        while self.pending.len() >= size
            invariant
                before.well_formed(),
                before == *old(self),
                all == before.pending@ + interleaved@,
                channels == before.channels,
                size == channels * BLOCK,
                size_spec == size,
                size > 0,
                full == all.len() / size_spec,
                done <= full,
                done * size_spec <= all.len(),
                self.pending@ == all.skip((done * size_spec) as int),
                self.channels == before.channels,
                stream_channels(self.stream) == self.channels as u8,
                stream_bits(self.stream) == 16,
                stream_rate(self.stream) == stream_rate(before.stream),
                stream_numbers(self.stream) == first_numbers(self.frame_index as nat),
                self.frame_index == before.frame_index + done,
                self.frame_index <= 0x8000_0000,
                stream_blocks(self.stream) == stream_blocks(before.stream) + chunks(
                    all,
                    size_spec,
                    done,
                ),
                forall|k: int|
                    0 <= k < done ==> #[trigger] encodable(
                        chunk(all, size_spec, k),
                        channels,
                        BLOCK as nat,
                        before.frame_index as nat + k as nat,
                    ),
            decreases self.pending@.len(),
        {
            proof {
                assert(done < full) by (nonlinear_arith)
                    requires
                        full == all.len() / size_spec,
                        all.len() - done * size_spec >= size_spec,
                        size_spec > 0,
                ;
                lemma_chunk_bounds(all.len(), size_spec, done as int);
                lemma_full_chunk(all, channels, done as int);
                assert((done + 1) * size_spec == done * size_spec + size_spec) by (nonlinear_arith);
            }
            let rest = self.pending.split_off(size);
            let mut block = rest;
            std::mem::swap(&mut block, &mut self.pending);
            proof {
                assert(block@ =~= chunk(all, size_spec, done as int));
                assert(self.pending@ =~= all.skip(((done + 1) * size_spec) as int));
            }
            let ghost held = *self;
            let encoded = self.encode_block(block.as_slice(), BLOCK);
            match encoded {
                Ok(()) => {},
                Err(e) => {
                    proof {
                        let j = done as int;
                        assert(j as nat == done);
                        assert(!encodable(
                            chunk(all, size_spec, j),
                            channels,
                            BLOCK as nat,
                            before.frame_index as nat + j as nat,
                        ));
                        assert(self.pending@ == all.skip((j + 1) * size_spec));
                        assert(pushed(before, *self, interleaved@, false));
                    }
                    return Err(e);
                },
            }
            proof {
                assert(stream_numbers(self.stream) =~= first_numbers(self.frame_index as nat));
                assert(stream_blocks(self.stream) =~= stream_blocks(before.stream) + chunks(
                    all,
                    size_spec,
                    done + 1,
                ));
                assert forall|k: int| 0 <= k < done + 1 implies #[trigger] encodable(
                    chunk(all, size_spec, k),
                    channels,
                    BLOCK as nat,
                    before.frame_index as nat + k as nat,
                ) by {
                    if k == done {
                        assert(encodable(
                            block@,
                            channels,
                            BLOCK as nat,
                            held.frame_index as nat,
                        ));
                    }
                }
                done = done + 1;
            }
        }
        proof {
            assert(done == full) by (nonlinear_arith)
                requires
                    full == all.len() / size_spec,
                    done <= full,
                    done * size_spec <= all.len(),
                    all.len() - done * size_spec < size_spec,
                    size_spec > 0,
            ;
            lemma_flatten_chunks(stream_blocks(before.stream), all, size_spec, full);
            assert(self.taken_in() =~= before.taken_in() + interleaved@);
        }
        Ok(())
    }

    /// Converts the samples of `buffer` and takes them in.
    pub fn write_pcm<S: Copy, M: SampleMap<S, i32>>(
        &mut self,
        buffer: &AudioBuffer<S>,
        to_int: &M,
    ) -> (r: Result<()>)
        requires
            old(self).well_formed(),
            old(self).pending@.len() + buffer.samples().len() <= usize::MAX,
        ensures
            final(self).well_formed(),
            r matches Err(e) ==> is_block_failure(e, old(self).channels as nat, BLOCK as nat),
            exists|ints: Seq<i32>|
                {
                    &&& ints.len() == buffer.samples().len()
                    &&& forall|i: int|
                        0 <= i < ints.len() ==> call_ensures(
                            M::apply,
                            (to_int, buffer.samples()[i]),
                            #[trigger] ints[i],
                        )
                    &&& #[trigger] pushed(*old(self), *final(self), ints, r is Ok)
                },
    {
        let mut ints: Vec<i32> = Vec::new();
        let mut i: usize = 0;
        while i < buffer.data.len()
            invariant
                i <= buffer.samples().len(),
                ints@.len() == i,
                forall|k: int|
                    0 <= k < i ==> call_ensures(
                        M::apply,
                        (to_int, buffer.samples()[k]),
                        #[trigger] ints@[k],
                    ),
            decreases buffer.samples().len() - i,
        {
            ints.push(to_int.apply(buffer.data[i]));
            i = i + 1;
        }
        self.push_interleaved_i32(ints.as_slice())
    }

    /// Encodes what still waits, if it holds a whole frame, as a shorter last block, and gives
    /// the bytes that the stream is written as. A last block that cannot be encoded (one under 32 frames, for
    /// one) is lost.
    pub fn finish(&mut self) -> (r: Result<Vec<u8>>)
        requires
            old(self).well_formed(),
        ensures
            final(self).well_formed(),
            final(self).channels == old(self).channels,
            stream_rate(final(self).stream) == stream_rate(old(self).stream),
            ({
                let channels = old(self).channels as nat;
                let n = old(self).pending@.len() / channels;
                let last_ok = encodable(
                    old(self).pending@,
                    channels,
                    n,
                    old(self).frame_index as nat,
                );
                &&& n == 0 ==> stream_blocks(final(self).stream) == stream_blocks(
                    old(self).stream,
                ) && final(self).pending@ == old(self).pending@
                &&& n > 0 ==> final(self).pending@.len() == 0
                &&& final(self).frame_index == old(self).frame_index + if n > 0 && last_ok {
                    1int
                } else {
                    0
                }
                &&& n > 0 && last_ok ==> stream_blocks(final(self).stream) == stream_blocks(
                    old(self).stream,
                ).push(whole_frames(old(self).pending@, channels))
                &&& n > 0 && !last_ok ==> stream_blocks(final(self).stream) == stream_blocks(
                    old(self).stream,
                ) && (r matches Err(e) && is_block_failure(e, channels, n))
                &&& r is Ok <==> (n == 0 || last_ok) && stream_image(final(self).stream) is Some
                &&& (n == 0 || last_ok) ==> (r matches Err(e) ==> e is Plugin && outside_text(
                    e->Plugin_0@,
                    "write stream: "@,
                ))
            }),
            r matches Ok(bytes) ==> Some(bytes@) == stream_image(final(self).stream)
                && bytes@.len() >= 4 && bytes@.take(4) == flac_marker(),
    {
        let ghost before = *self;
        let n: usize = self.pending.len() / self.channels;
        if n > 0 {
            let mut tail: Vec<i32> = Vec::new();
            std::mem::swap(&mut tail, &mut self.pending);
            assert(tail@.len() >= self.channels) by (nonlinear_arith)
                requires
                    tail@.len() / (self.channels as nat) > 0,
                    self.channels > 0,
            ;
            match self.encode_block(tail.as_slice(), n) {
                Ok(()) => {
                    assert(stream_numbers(self.stream) =~= first_numbers(self.frame_index as nat));
                },
                Err(e) => {
                    return Err(e);
                },
            }
        }
        match stream_bytes(&self.stream) {
            Ok(bytes) => Ok(bytes),
            Err(e) => Err(plugin_error("write stream: ", e.as_str())),
        }
    }
}

/// Framing loses nothing: however the samples arrive, after any successful push the encoded
/// blocks followed by what waits are all samples taken in, in order.
pub proof fn framing_conserves_samples(
    first: FlacSink,
    second: FlacSink,
    third: FlacSink,
    a: Seq<i32>,
    b: Seq<i32>,
)
    requires
        pushed(first, second, a, true),
        pushed(second, third, b, true),
    ensures
        third.taken_in() == first.taken_in() + (a + b),
{
    assert(first.taken_in() + a + b =~= first.taken_in() + (a + b));
}

/// Blocks are full and in order: after a push that succeeds, fewer samples wait than a block
/// takes, every block that was added holds exactly a block's worth of whole frames, and the added
/// blocks one after the other, followed by what waits, are what waited before followed by what
/// was pushed.
pub proof fn pushed_blocks_are_full(before: FlacSink, after: FlacSink, more: Seq<i32>)
    requires
        pushed(before, after, more, true),
        before.channels > 0,
    ensures
        after.pending@.len() < before.channels * 1024,
        ({
            let old_blocks = stream_blocks(before.stream);
            let new_blocks = stream_blocks(after.stream);
            &&& new_blocks.len() >= old_blocks.len()
            &&& new_blocks.take(old_blocks.len() as int) == old_blocks
            &&& forall|i: int|
                old_blocks.len() <= i < new_blocks.len() ==> (#[trigger] new_blocks[i]).len()
                    == before.channels * 1024
            &&& flattened(new_blocks.skip(old_blocks.len() as int)) + after.pending@
                == before.pending@ + more
            &&& after.frame_index - before.frame_index == new_blocks.len() - old_blocks.len()
        }),
{
    let all = before.pending@ + more;
    let size = before.channels as nat * BLOCK as nat;
    let full = all.len() / size;
    let old_blocks = stream_blocks(before.stream);
    let new_blocks = stream_blocks(after.stream);
    assert(size > 0) by (nonlinear_arith)
        requires
            size == before.channels as nat * BLOCK as nat,
            before.channels > 0,
            BLOCK > 0,
    ;
    assert(full * size <= all.len() && all.len() - full * size < size) by (nonlinear_arith)
        requires
            size > 0,
            full == all.len() / size,
    ;
    assert(new_blocks.take(old_blocks.len() as int) =~= old_blocks);
    assert(new_blocks.skip(old_blocks.len() as int) =~= chunks(all, size, full));
    assert forall|i: int| old_blocks.len() <= i < new_blocks.len() implies (
    #[trigger] new_blocks[i]).len() == size by {
        let k = i - old_blocks.len();
        assert(new_blocks[i] == chunk(all, size, k));
        assert(0 <= k * size && (k + 1) * size == k * size + size && (k + 1) * size <= full * size)
            by (nonlinear_arith)
            requires
                0 <= k < full,
        ;
    }
    lemma_chunks_flatten(all, size, full);
    assert(all.take((full * size) as int) + all.skip((full * size) as int) =~= all);
}

proof fn lemma_chunks_flatten(all: Seq<i32>, size: nat, n: nat)
    requires
        n * size <= all.len(),
    ensures
        flattened(chunks(all, size, n)) == all.take((n * size) as int),
    decreases n,
{
    if n == 0 {
        assert(0 * size == 0) by (nonlinear_arith);
        assert(all.take(0) =~= Seq::<i32>::empty());
    } else {
        let less = (n - 1) as nat;
        assert(less * size <= n * size && n * size == less * size + size) by (nonlinear_arith)
            requires
                less == n - 1,
        ;
        lemma_chunks_flatten(all, size, less);
        assert(chunks(all, size, n).drop_last() =~= chunks(all, size, less));
        assert(all.take((n * size) as int) =~= all.take((less * size) as int) + chunk(
            all,
            size,
            less as int,
        ));
    }
}

/// A block can be encoded exactly where there are one to eight channels, 32 to 32767 frames in a
/// block, fewer than 2147483648 blocks before it, and every sample of its whole frames fits 16
/// bits.
pub proof fn what_can_be_encoded(
    interleaved: Seq<i32>,
    channels: nat,
    block_size: nat,
    number: nat,
    frames: nat,
)
    requires
        channels > 0,
        interleaved.len() == frames * channels,
    ensures
        encodable(interleaved, channels, block_size, number) <==> 1 <= channels <= 8 && 32
            <= block_size <= 32767 && number < 2_147_483_648 && forall|i: int|
            0 <= i < interleaved.len() ==> -32_768 <= #[trigger] interleaved[i] <= 32_767,
{
    assert(interleaved.len() / channels == frames) by (nonlinear_arith)
        requires
            channels > 0,
            interleaved.len() == frames * channels,
    ;
    assert(whole_frames(interleaved, channels) =~= interleaved);
}

} // verus!
