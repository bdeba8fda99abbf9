//! The macOS host's rules: virtual loopback drivers are known by name, and ScreenCaptureKit
//! adds a source of its own.

use std::sync::Arc;
use std::time::Instant;

use vstd::prelude::*;

use crate::buffer::{AudioBuffer, SampleMap};
use crate::device::make_source;
use crate::format::{AudioFormat, SampleFormat};
use crate::source::{CaptureSource, CaptureSourceKind, DeviceInfo};
use crate::text::{ascii_lower_chars, chars_of, contains_chars, owned, text_equal};

verus! {

/// The id of the system-audio source.
pub const SOURCE_ID: &'static str = "scl:system-audio";

/// A name that contains, in any letter case, one of the known drivers' names.
pub open spec fn is_virtual_loopback(name: Seq<char>) -> bool {
    let lower = crate::text::ascii_lower_seq(name);
    ||| crate::text::contains_seq(lower, "blackhole"@)
    ||| crate::text::contains_seq(lower, "loopback"@)
    ||| crate::text::contains_seq(lower, "soundflower"@)
    ||| crate::text::contains_seq(lower, "vb-cable"@)
    ||| crate::text::contains_seq(lower, "vb cable"@)
}

/// Core Audio does not expose system-audio loopback natively, so users typically install a
/// virtual loopback driver. This matches the common ones by name.
pub fn is_virtual_loopback_name(name: &str) -> (r: bool)
    ensures
        r == is_virtual_loopback(name@),
{
    let lower = ascii_lower_chars(&chars_of(name));
    contains_chars(&lower, &chars_of("blackhole")) || contains_chars(&lower, &chars_of("loopback"))
        || contains_chars(&lower, &chars_of("soundflower")) || contains_chars(
        &lower,
        &chars_of("vb-cable"),
    ) || contains_chars(&lower, &chars_of("vb cable"))
}

/// The ScreenCaptureKit system-audio source: 48 kHz stereo.
pub open spec fn is_system_audio(s: CaptureSource) -> bool {
    &&& s.id@ == "scl:system-audio"@
    &&& s.name@ == "System Audio (ScreenCaptureKit)"@
    &&& s.default_format == Some(
        AudioFormat { sample_rate_hz: 48_000, channels: 2, sample_format: SampleFormat::F32 },
    )
    &&& s.kind == CaptureSourceKind::Loopback
    &&& s.app is None
}

/// See [`is_system_audio`].
pub fn synthetic_source() -> (s: CaptureSource)
    ensures
        is_system_audio(s),
{
    CaptureSource {
        id: owned("scl:system-audio"),
        name: owned("System Audio (ScreenCaptureKit)"),
        default_format: Some(AudioFormat::new(48_000, 2, SampleFormat::F32)),
        kind: CaptureSourceKind::Loopback,
        app: None,
    }
}

/// The kind of source that a device is listed as.
pub open spec fn listed_kind(d: DeviceInfo) -> CaptureSourceKind {
    if is_virtual_loopback(d.name@) {
        CaptureSourceKind::Loopback
    } else {
        CaptureSourceKind::Input
    }
}

/// One capture source per device, in order, with the system-audio source before them where
/// ScreenCaptureKit is available.
pub fn macos_sources(devices: Vec<DeviceInfo>, screen_capture: bool) -> (sources: Vec<
    CaptureSource,
>)
    ensures
        ({
            let listed = devices@.map_values(
                |d: DeviceInfo| crate::device::source_of_kind(d, listed_kind(d)),
            );
            if screen_capture {
                &&& sources@.len() == listed.len() + 1
                &&& is_system_audio(sources@[0])
                &&& sources@.skip(1) == listed
            } else {
                sources@ == listed
            }
        }),
{
    let ghost all = devices@;
    let ghost rule = |d: DeviceInfo| crate::device::source_of_kind(d, listed_kind(d));
    let mut sources: Vec<CaptureSource> = Vec::new();
    for d in it: devices
        invariant
            it.seq() == all,
            rule == (|d: DeviceInfo| crate::device::source_of_kind(d, listed_kind(d))),
            sources@ == all.take(it.index() as int).map_values(rule),
    {
        let kind = if is_virtual_loopback_name(d.name.as_str()) {
            CaptureSourceKind::Loopback
        } else {
            CaptureSourceKind::Input
        };
        sources.push(make_source(d, kind));
        assert(sources@ =~= all.take(it.index() as int + 1).map_values(rule));
    }
    assert(all.take(all.len() as int) =~= all);
    if screen_capture {
        let ghost listed = sources@;
        sources.insert(0, synthetic_source());
        assert(sources@.skip(1) =~= listed);
    }
    sources
}

/// Whether a capture goes to ScreenCaptureKit; every other one is an input stream, because
/// virtual loopback drivers appear as ordinary inputs.
pub fn uses_screen_capture(kind: CaptureSourceKind, source_id: Option<&str>) -> (r: bool)
    ensures
        r == (kind == CaptureSourceKind::Loopback && source_id is Some && source_id->0@
            == "scl:system-audio"@),
{
    match source_id {
        Some(id) => kind == CaptureSourceKind::Loopback && text_equal(id, "scl:system-audio"),
        None => false,
    }
}

/// The samples of planar channels, frame by frame; a channel that is too short is filled with
/// `zero`.
pub fn interleave_planar<S: Copy>(planar: &Vec<Vec<S>>, frames: usize, zero: S) -> (out: Vec<S>)
    requires
        planar@.len() > 0,
    ensures
        out@ == crate::mixer::interleave(
            crate::mixer::planes(planar@),
            frames as nat,
            planar@.len(),
            zero,
        ),
{
    let ghost views = crate::mixer::planes(planar@);
    let ghost channels = planar@.len();
    let ghost all = crate::mixer::interleave(views, frames as nat, channels, zero);
    let mut out: Vec<S> = Vec::new();
    let mut frame: usize = 0;
    assert(0 * channels == 0) by (nonlinear_arith);
    while frame < frames
        invariant
            frame <= frames,
            channels == planar@.len(),
            channels > 0,
            views == crate::mixer::planes(planar@),
            all == crate::mixer::interleave(views, frames as nat, channels, zero),
            out@ == all.take(frame * channels),
        decreases frames - frame,
    {
        let mut ch: usize = 0;
        while ch < planar.len()
            invariant
                frame < frames,
                ch <= planar@.len(),
                channels == planar@.len(),
                channels > 0,
                views == crate::mixer::planes(planar@),
                all == crate::mixer::interleave(views, frames as nat, channels, zero),
                out@ == all.take(frame * channels + ch),
            decreases planar@.len() - ch,
        {
            proof {
                crate::mixer::lemma_interleave_step(
                    views,
                    frames as nat,
                    channels,
                    zero,
                    frame as int,
                    ch as int,
                );
            }
            let s = if frame < planar[ch].len() {
                planar[ch][frame]
            } else {
                zero
            };
            out.push(s);
            assert(out@ =~= all.take(frame * channels + ch + 1));
            ch = ch + 1;
        }
        assert((frame + 1) * channels == frame * channels + channels) by (nonlinear_arith);
        frame = frame + 1;
    }
    assert(all.take(frames * channels) =~= all);
    out
}

/// The 32-bit word in four bytes, low byte first.
pub open spec fn word_of_bytes(a: u8, b: u8, c: u8, d: u8) -> int {
    a + b * 0x100 + c * 0x1_0000 + d * 0x100_0000
}

/// The 32-bit words in `bytes`, low byte first; what is left of a word at the end is left out.
pub open spec fn words_of_bytes_spec(bytes: Seq<u8>) -> Seq<u32> {
    Seq::new(
        bytes.len() / 4,
        |i: int|
            word_of_bytes(
                bytes[4 * i],
                bytes[4 * i + 1],
                bytes[4 * i + 2],
                bytes[4 * i + 3],
            ) as u32,
    )
}

/// The samples that the words in `bytes` stand for.
pub open spec fn are_samples_of<S, M: SampleMap<u32, S>>(
    to_sample: &M,
    bytes: Seq<u8>,
    samples: Seq<S>,
) -> bool {
    let words = words_of_bytes_spec(bytes);
    &&& samples.len() == words.len()
    &&& forall|i: int|
        0 <= i < words.len() ==> call_ensures(
            M::apply,
            (to_sample, words[i]),
            #[trigger] samples[i],
        )
}

fn samples_of_words<S, M: SampleMap<u32, S>>(to_sample: &M, bytes: &Vec<u8>) -> (samples: Vec<S>)
    ensures
        are_samples_of(to_sample, bytes@, samples@),
{
    let total: usize = bytes.len();
    let count: usize = total / 4;
    let ghost words = words_of_bytes_spec(bytes@);
    let mut samples: Vec<S> = Vec::new();
    let mut i: usize = 0;
    while i < count
        invariant
            i <= count,
            total == bytes@.len(),
            count == total / 4,
            words == words_of_bytes_spec(bytes@),
            samples@.len() == i,
            forall|k: int|
                0 <= k < i ==> call_ensures(
                    M::apply,
                    (to_sample, words[k]),
                    #[trigger] samples@[k],
                ),
        decreases count - i,
    {
        let word: u32 = bytes[4 * i] as u32 + bytes[4 * i + 1] as u32 * 0x100 + bytes[4 * i
            + 2] as u32 * 0x1_0000 + bytes[4 * i + 3] as u32 * 0x100_0000;
        assert(word == words[i as int]);
        samples.push(to_sample.apply(word));
        i += 1;
    }
    samples
}

/// The planes hold the samples of the planes of bytes, one for one.
pub open spec fn are_planes_of<S, M: SampleMap<u32, S>>(
    to_sample: &M,
    bytes: Seq<Vec<u8>>,
    planes: Seq<Vec<S>>,
) -> bool {
    &&& planes.len() == bytes.len()
    &&& forall|k: int|
        0 <= k < bytes.len() ==> are_samples_of(to_sample, bytes[k]@, (#[trigger] planes[k])@)
}

/// A block that ScreenCaptureKit delivered: one plane of bytes per channel, with the bits of a
/// sample in four bytes. It becomes one interleaved block; samples that are missing are silent.
/// There is none where the block is no audio or holds nothing.
pub fn screen_capture_block<S: Copy, M: SampleMap<u32, S>>(
    is_audio: bool,
    planes: &Vec<Vec<u8>>,
    frames: usize,
    sample_rate_hz: u32,
    zero: S,
    to_sample: &M,
    captured_at: Instant,
    frame_index: u64,
) -> (b: Option<AudioBuffer<S>>)
    requires
        planes@.len() <= u16::MAX,
    ensures
        b is Some == (is_audio && frames > 0 && planes@.len() > 0),
        b matches Some(block) ==> {
            &&& block.format == (AudioFormat {
                sample_rate_hz,
                channels: planes@.len() as u16,
                sample_format: SampleFormat::F32,
            })
            &&& block.frames == frames
            &&& block.captured_at == captured_at
            &&& block.frame_index == frame_index
            &&& block.well_formed()
            &&& exists|samples: Seq<Vec<S>>| #[trigger]
                are_planes_of(to_sample, planes@, samples) && block.samples()
                    == crate::mixer::interleave(
                    crate::mixer::planes(samples),
                    frames as nat,
                    planes@.len(),
                    zero,
                )
        },
{
    if !is_audio || frames == 0 || planes.len() == 0 {
        return None;
    }
    let mut decoded: Vec<Vec<S>> = Vec::new();
    let mut k: usize = 0;
    while k < planes.len()
        invariant
            k <= planes@.len(),
            decoded@.len() == k,
            forall|j: int|
                0 <= j < k ==> are_samples_of(to_sample, planes@[j]@, (#[trigger] decoded@[j])@),
        decreases planes@.len() - k,
    {
        let samples = samples_of_words(to_sample, &planes[k]);
        decoded.push(samples);
        k += 1;
    }
    assert(are_planes_of(to_sample, planes@, decoded@));
    let format = AudioFormat::new(sample_rate_hz, planes.len() as u16, SampleFormat::F32);
    let data = interleave_planar(&decoded, frames, zero);
    Some(AudioBuffer::new(format, Arc::new(data), frames, captured_at, frame_index))
}

/// Virtual drivers are loopbacks whatever the case of their names: a device whose name holds the
/// name of a known driver is listed as a loopback.
pub proof fn virtual_drivers_are_loopbacks(
    d: DeviceInfo,
    before: Seq<char>,
    word: Seq<char>,
    after: Seq<char>,
)
    requires
        crate::text::ascii_lower_seq(d.name@) == before + word + after,
        word == "blackhole"@ || word == "loopback"@ || word == "soundflower"@ || word
            == "vb-cable"@ || word == "vb cable"@,
    ensures
        listed_kind(d) == CaptureSourceKind::Loopback,
{
    crate::text::parts_of_a_text_are_found(before, word, after);
}

/// Four bytes are a word, the lowest first: the bytes of a word give it back, and there is a word
/// for every four of them, in order.
pub proof fn words_read_back(bytes: Seq<u8>, word: u32, i: int)
    requires
        0 <= 4 * i,
        4 * i + 3 < bytes.len(),
        word == bytes[4 * i] + bytes[4 * i + 1] * 256 + bytes[4 * i + 2] * 65_536 + bytes[4 * i + 3]
            * 16_777_216,
    ensures
        words_of_bytes_spec(bytes).len() == bytes.len() / 4,
        words_of_bytes_spec(bytes)[i] == word,
{
}

} // verus!
