//! Windows capture backends other than WASAPI endpoints: DirectSound, waveIn and the audio of a
//! process. Which devices they list, which requests they accept, and how they cut what the
//! system hands out into buffers.

use std::sync::Arc;
use std::time::Instant;

use vstd::prelude::*;

use crate::buffer::{AudioBuffer, SampleMap};
use crate::error::{RecordingError, Result};
use crate::format::{AudioFormat, SampleFormat};
use crate::source::DeviceInfo;
use crate::text::{
    chars_of, copy_range, owned, parse_unsigned_chars, push_chars, push_decimal, push_hex_padded,
    push_text, starts_with_chars, takes_bytes, text_equal, text_of_utf16, wide_cstr_to_string,
};

verus! {

/// The layout of PCM as the Windows audio interfaces describe it.
#[derive(Debug, Clone, Copy, PartialEq, Eq, Structural)]
pub struct WaveFormat {
    pub format_tag: u16,
    pub channels: u16,
    pub samples_per_sec: u32,
    pub avg_bytes_per_sec: u32,
    pub block_align: u16,
    pub bits_per_sample: u16,
}

/// The tag of integer PCM.
pub const TAG_PCM: u16 = 1;

/// The tag of floating-point PCM.
pub const TAG_FLOAT: u16 = 3;

/// The bytes of one frame.
pub open spec fn frame_bytes(format: AudioFormat) -> nat {
    format.channels as nat * (format.sample_format.bits_spec() as nat / 8)
}

/// The layout for the audio of a process. More channels than a frame size can describe are
/// refused.
pub fn make_wave_format(format: AudioFormat) -> (r: Result<WaveFormat>)
    requires
        frame_bytes(format) <= u16::MAX ==> format.sample_rate_hz * frame_bytes(format)
            <= u32::MAX,
    ensures
        r is Ok <==> frame_bytes(format) <= u16::MAX,
        r matches Err(e) ==> e is Device && e->Device_0@
            == "invalid channel count for app-output format"@,
        r matches Ok(w) ==> {
            &&& w.format_tag == if format.sample_format == SampleFormat::F32 {
                TAG_FLOAT
            } else {
                TAG_PCM
            }
            &&& w.channels == format.channels
            &&& w.samples_per_sec == format.sample_rate_hz
            &&& w.block_align == frame_bytes(format)
            &&& w.avg_bytes_per_sec == format.sample_rate_hz * frame_bytes(format)
            &&& w.bits_per_sample == format.sample_format.bits_spec()
        },
{
    let bits: u16 = format.sample_format.bits();
    let bytes: u16 = bits / 8;
    assert(bytes <= 4);
    assert(frame_bytes(format) == format.channels * bytes);
    let align: u16 = match format.channels.checked_mul(bytes) {
        Some(align) => align,
        None => {
            return Err(RecordingError::device("invalid channel count for app-output format"));
        },
    };
    let avg: u32 = format.sample_rate_hz * align as u32;
    Ok(
        WaveFormat {
            format_tag: match format.sample_format {
                SampleFormat::F32 => TAG_FLOAT,
                SampleFormat::I16 => TAG_PCM,
            },
            channels: format.channels,
            samples_per_sec: format.sample_rate_hz,
            avg_bytes_per_sec: avg,
            block_align: align,
            bits_per_sample: bits,
        },
    )
}

/// The layout for waveIn, which takes 16-bit samples only.
pub fn wave_format_pcm(format: AudioFormat) -> (r: Result<WaveFormat>)
    requires
        format.sample_rate_hz * format.channels * 2 <= u32::MAX,
    ensures
        r is Ok <==> format.sample_format == SampleFormat::I16,
        r matches Err(e) ==> e is Device && e->Device_0@
            == "WinMM waveIn path requires I16 session format (use device default from list)"@,
        r matches Ok(w) ==> w == (WaveFormat {
            format_tag: TAG_PCM,
            channels: format.channels,
            samples_per_sec: format.sample_rate_hz,
            avg_bytes_per_sec: (format.sample_rate_hz * format.channels * 2) as u32,
            block_align: ((format.channels * 2) % 0x1_0000) as u16,
            bits_per_sample: 16,
        }),
{
    if format.sample_format != SampleFormat::I16 {
        return Err(
            RecordingError::device(
                "WinMM waveIn path requires I16 session format (use device default from list)",
            ),
        );
    }
    let channels: u32 = format.channels as u32;
    let rate: u32 = format.sample_rate_hz;
    let align: u16 = ((channels * 2) % 0x1_0000) as u16;
    assert(rate * channels <= rate * channels * 2) by (nonlinear_arith);
    let avg: u32 = rate * channels * 2;
    Ok(
        WaveFormat {
            format_tag: TAG_PCM,
            channels: format.channels,
            samples_per_sec: rate,
            avg_bytes_per_sec: avg,
            block_align: align,
            bits_per_sample: 16,
        },
    )
}

/// The formats a waveIn device offers, by the highest rate of 16-bit stereo among them.
pub open spec fn offered_rate(formats: u32) -> Option<u32> {
    if formats & 0x8000 != 0 {
        Some(48_000)
    } else if formats & 0x0800 != 0 {
        Some(44_100)
    } else if formats & 0x0080 != 0 {
        Some(22_050)
    } else if formats & 0x0008 != 0 {
        Some(11_025)
    } else {
        None
    }
}

/// The default format of a waveIn device, from its channel count and the formats it offers.
pub fn default_format_for_caps(channels: u16, formats: u32) -> (f: Option<AudioFormat>)
    ensures
        f == match offered_rate(formats) {
            Some(rate) => Some(
                AudioFormat {
                    sample_rate_hz: rate,
                    channels,
                    sample_format: SampleFormat::I16,
                },
            ),
            None => None,
        },
{
    let rate: u32 = if formats & 0x8000 != 0 {
        48_000
    } else if formats & 0x0800 != 0 {
        44_100
    } else if formats & 0x0080 != 0 {
        22_050
    } else if formats & 0x0008 != 0 {
        11_025
    } else {
        return None;
    };
    Some(AudioFormat::new(rate, channels, SampleFormat::I16))
}

/// The name of a waveIn device: the text up to the first zero.
pub fn pname_to_string(name: &[u16; 32]) -> (s: String)
    ensures
        s@ == crate::text::decode_utf16(crate::text::until_nul(name@)),
{
    wide_cstr_to_string(name)
}

/// What waveIn says about one device; a device that could not be asked has none.
#[derive(Debug, Clone, Copy)]
pub struct WaveInCaps {
    pub name: [u16; 32],
    pub channels: u16,
    pub formats: u32,
}

/// The channel count that is assumed where no known format is offered: one or two.
pub open spec fn one_or_two(channels: u16) -> u16 {
    if channels < 1 {
        1
    } else if channels > 2 {
        2
    } else {
        channels
    }
}

/// The entry of the device number `i`.
pub open spec fn lists_wave_device(d: DeviceInfo, i: nat, caps: WaveInCaps) -> bool {
    &&& d.id@ == "wave:"@ + crate::text::decimal(i)
    &&& d.name@ == crate::text::decode_utf16(crate::text::until_nul(caps.name@))
    &&& d.default_format == Some(
        match offered_rate(caps.formats) {
            Some(rate) => AudioFormat {
                sample_rate_hz: rate,
                channels: caps.channels,
                sample_format: SampleFormat::I16,
            },
            None => AudioFormat {
                sample_rate_hz: 44_100,
                channels: one_or_two(caps.channels),
                sample_format: SampleFormat::I16,
            },
        },
    )
}

/// The numbers of the devices that could be asked, in order.
pub open spec fn answering(caps: Seq<Option<WaveInCaps>>) -> Seq<int>
    decreases caps.len(),
{
    if caps.len() == 0 {
        Seq::empty()
    } else if caps.last() is Some {
        answering(caps.drop_last()).push(caps.len() - 1)
    } else {
        answering(caps.drop_last())
    }
}

/// `d` is the entry of the device number `n`, which answered.
pub open spec fn lists_at(d: DeviceInfo, caps: Seq<Option<WaveInCaps>>, n: int) -> bool {
    0 <= n < caps.len() && caps[n] is Some && lists_wave_device(d, n as nat, caps[n]->0)
}

/// `devices` lists the devices that answered.
pub open spec fn lists_answering(devices: Seq<DeviceInfo>, caps: Seq<Option<WaveInCaps>>) -> bool {
    &&& devices.len() == answering(caps).len()
    &&& forall|k: int|
        0 <= k < devices.len() ==> lists_at(#[trigger] devices[k], caps, answering(caps)[k])
}

proof fn lemma_longer_list(devices: Seq<DeviceInfo>, caps: Seq<Option<WaveInCaps>>, i: int)
    requires
        0 <= i < caps.len(),
        lists_answering(devices, caps.take(i)),
    ensures
        forall|k: int|
            0 <= k < devices.len() ==> lists_at(
                #[trigger] devices[k],
                caps.take(i + 1),
                answering(caps.take(i))[k],
            ),
{
    assert forall|k: int| 0 <= k < devices.len() implies lists_at(
        #[trigger] devices[k],
        caps.take(i + 1),
        answering(caps.take(i))[k],
    ) by {
        let n = answering(caps.take(i))[k];
        assert(lists_at(devices[k], caps.take(i), n));
        assert(caps.take(i)[n] == caps[n]);
        assert(caps.take(i + 1)[n] == caps[n]);
    }
}

/// The waveIn devices: those that answered, then the mapper, which stands for the default input.
pub fn list_wave_devices(caps: &Vec<Option<WaveInCaps>>) -> (devices: Vec<DeviceInfo>)
    ensures
        devices@.len() > 0,
        lists_answering(devices@.drop_last(), caps@),
        devices@.last().id@ == "wave:mapper"@,
        devices@.last().name@ == "Mapper (system default input)"@,
        devices@.last().default_format == Some(
            AudioFormat { sample_rate_hz: 48_000, channels: 2, sample_format: SampleFormat::I16 },
        ),
{
    let mut devices: Vec<DeviceInfo> = Vec::new();
    let mut i: usize = 0;
    while i < caps.len()
        invariant
            i <= caps@.len(),
            lists_answering(devices@, caps@.take(i as int)),
        decreases caps@.len() - i,
    {
        let ghost before = caps@.take(i as int);
        let ghost longer = caps@.take(i + 1);
        let ghost listed = devices@;
        proof {
            assert(longer.drop_last() =~= before);
            assert(longer.last() == caps@[i as int]);
            lemma_longer_list(listed, caps@, i as int);
        }
        match &caps[i] {
            None => {
                assert(answering(longer) == answering(before));
            },
            Some(c) => {
                let mut id = String::new();
                push_text(&mut id, "wave:");
                push_decimal(&mut id, i as u64);
                assert(id@ =~= "wave:"@ + crate::text::decimal(i as nat));
                let default_format = match default_format_for_caps(c.channels, c.formats) {
                    Some(f) => f,
                    None => {
                        let channels: u16 = if c.channels < 1 {
                            1
                        } else if c.channels > 2 {
                            2
                        } else {
                            c.channels
                        };
                        AudioFormat::new(44_100, channels, SampleFormat::I16)
                    },
                };
                let d = DeviceInfo {
                    id,
                    name: pname_to_string(&c.name),
                    default_format: Some(default_format),
                };
                assert(lists_wave_device(d, i as nat, *c));
                devices.push(d);
                assert(answering(longer) == answering(before).push(i as int));
                assert(lists_at(d, longer, i as int));
                assert forall|k: int| 0 <= k < devices@.len() implies lists_at(
                    #[trigger] devices@[k],
                    longer,
                    answering(longer)[k],
                ) by {
                    if k < listed.len() {
                        assert(devices@[k] == listed[k]);
                    }
                }
            },
        }
        i = i + 1;
    }
    assert(caps@.take(i as int) =~= caps@);
    let ghost listed = devices@;
    devices.push(
        DeviceInfo {
            id: owned("wave:mapper"),
            name: owned("Mapper (system default input)"),
            default_format: Some(AudioFormat::new(48_000, 2, SampleFormat::I16)),
        },
    );
    assert(devices@.drop_last() =~= listed);
    devices
}

/// The device number of the mapper.
pub const WAVE_MAPPER: u32 = 0xffff_ffff;

/// `prefix` followed by `s`, as a device error.
fn device_error(prefix: &str, s: &str) -> (e: RecordingError)
    ensures
        e is Device,
        e->Device_0@ == prefix@ + s@,
{
    let mut text = String::new();
    push_text(&mut text, prefix);
    push_text(&mut text, s);
    assert(text@ =~= prefix@ + s@);
    RecordingError::Device(text)
}

/// The device that a waveIn id names: `wave:mapper` (also where no id is given) or `wave:` and
/// a number.
pub fn parse_device_id(device_id: Option<&str>) -> (r: Result<u32>)
    ensures
        device_id is None ==> r is Ok && r->Ok_0 == WAVE_MAPPER,
        device_id matches Some(s) ==> {
            let rest = s@.skip(5);
            &&& !crate::text::starts_with_seq(s@, "wave:"@) ==> (r matches Err(e) && e is Device
                && e->Device_0@ == "expected wave:N or wave:mapper, got "@ + s@)
            &&& crate::text::starts_with_seq(s@, "wave:"@) && rest == "mapper"@ ==> r is Ok
                && r->Ok_0 == WAVE_MAPPER
            &&& crate::text::starts_with_seq(s@, "wave:"@) && rest != "mapper"@
                ==> match crate::text::parse_unsigned(rest, u32::MAX as nat) {
                Some(n) => r is Ok && r->Ok_0 == n,
                None => r matches Err(e) && e is Device && e->Device_0@ == "bad wave device id: "@
                    + s@,
            }
        },
{
    proof {
        reveal_strlit("wave:");
    }
    let s = match device_id {
        None => {
            return Ok(WAVE_MAPPER);
        },
        Some(s) => s,
    };
    let chars = chars_of(s);
    if !starts_with_chars(&chars, &chars_of("wave:")) {
        return Err(device_error("expected wave:N or wave:mapper, got ", s));
    }
    let rest = copy_range(&chars, 5, chars.len());
    assert(rest@ =~= s@.skip(5));
    if crate::text::chars_equal(&rest, &chars_of("mapper")) {
        return Ok(WAVE_MAPPER);
    }
    match parse_unsigned_chars(&rest, u32::MAX as u64) {
        Some(n) => Ok(n as u32),
        None => Err(device_error("bad wave device id: ", s)),
    }
}

/// A waveIn buffer holds a twentieth of a second, at least one frame.
pub open spec fn wave_frames(rate: u32) -> nat {
    if rate < 20 {
        1
    } else {
        rate as nat / 20
    }
}

/// What a waveIn stream is opened with.
#[derive(Debug, Clone, Copy, PartialEq, Eq, Structural)]
pub struct WaveInPlan {
    pub device: u32,
    pub layout: WaveFormat,
    pub frames_per_buffer: usize,
    pub buffer_bytes: usize,
}

/// Decides what a waveIn stream is opened with. The id is checked before the format.
pub fn plan_wave_in(device_id: Option<&str>, format: AudioFormat) -> (r: Result<WaveInPlan>)
    requires
        format.sample_rate_hz * format.channels * 2 <= u32::MAX,
    ensures
        match r {
            Ok(plan) => {
                &&& call_ensures(parse_device_id, (device_id,), Ok(plan.device))
                &&& call_ensures(wave_format_pcm, (format,), Ok(plan.layout))
                &&& plan.frames_per_buffer == wave_frames(format.sample_rate_hz)
                &&& plan.buffer_bytes == wave_frames(format.sample_rate_hz) * format.channels * 2
            },
            Err(e) => {
                ||| call_ensures(parse_device_id, (device_id,), Err(e))
                ||| exists|d: u32|
                    {
                        &&& #[trigger] call_ensures(parse_device_id, (device_id,), Ok(d))
                        &&& call_ensures(wave_format_pcm, (format,), Err(e))
                    }
            },
        },
{
    let device: u32 = match parse_device_id(device_id) {
        Ok(d) => d,
        Err(e) => {
            return Err(e);
        },
    };
    let layout = match wave_format_pcm(format) {
        Ok(w) => w,
        Err(e) => {
            return Err(e);
        },
    };
    let twentieth: u32 = format.sample_rate_hz / 20;
    let frames: usize = if twentieth < 1 {
        1
    } else {
        twentieth as usize
    };
    let channels: usize = format.channels as usize;
    proof {
        let rate = format.sample_rate_hz as int;
        let c = channels as int;
        assert(frames <= rate || frames == 1);
        assert(frames * c * 2 <= u32::MAX && frames * c <= u32::MAX) by (nonlinear_arith)
            requires
                rate * c * 2 <= u32::MAX,
                0 <= frames <= rate || frames == 1,
                0 <= c <= u16::MAX,
        ;
    }
    let bytes: usize = frames * channels * 2;
    Ok(WaveInPlan { device, layout, frames_per_buffer: frames, buffer_bytes: bytes })
}

/// The 16-bit sample in two bytes, low byte first.
pub open spec fn sample_of_bytes(low: u8, high: u8) -> int {
    let n = low + high * 256;
    if n < 0x8000 {
        n
    } else {
        n - 0x1_0000
    }
}

/// The 16-bit samples in `bytes`, low byte first; an odd last byte is left out.
pub open spec fn samples_of_bytes_spec(bytes: Seq<u8>) -> Seq<i16> {
    Seq::new(
        bytes.len() / 2,
        |i: int| sample_of_bytes(bytes[2 * i], bytes[2 * i + 1]) as i16,
    )
}

/// The 16-bit samples in `bytes`, low byte first.
pub fn samples_of_bytes(bytes: &[u8]) -> (samples: Vec<i16>)
    ensures
        samples@ == samples_of_bytes_spec(bytes@),
{
    let total: usize = bytes.len();
    let count: usize = total / 2;
    let mut samples: Vec<i16> = Vec::new();
    let mut i: usize = 0;
    while i < count
        invariant
            i <= count,
            total == bytes@.len(),
            count == total / 2,
            samples@.len() == i,
            forall|k: int| 0 <= k < i ==> #[trigger] samples@[k] == samples_of_bytes_spec(bytes@)[k],
        decreases count - i,
    {
        let n: i32 = bytes[2 * i] as i32 + bytes[2 * i + 1] as i32 * 256;
        let sample: i32 = if n < 0x8000 {
            n
        } else {
            n - 0x1_0000
        };
        samples.push(sample as i16);
        i = i + 1;
    }
    assert(samples@ =~= samples_of_bytes_spec(bytes@));
    samples
}

/// The whole frames in what waveIn recorded, as a buffer, and the number of frames; nothing
/// where there is no whole frame.
pub fn wave_in_block<S: Copy + Default, M: SampleMap<i16, S>>(
    format: AudioFormat,
    recorded: &[u8],
    captured_at: Instant,
    frame_index: u64,
    to_sample: &M,
) -> (b: Option<AudioBuffer<S>>)
    requires
        format.channels > 0,
    ensures
        b is Some <==> recorded@.len() >= format.channels * 2,
        b matches Some(block) ==> {
            let taken = samples_of_bytes_spec(recorded@);
            &&& block.frames == recorded@.len() / (format.channels * 2) as nat
            &&& block.format == (AudioFormat { sample_format: SampleFormat::F32, ..format })
            &&& block.captured_at == captured_at
            &&& block.frame_index == frame_index
            &&& block.well_formed()
            &&& block.samples().len() <= taken.len()
            &&& forall|i: int|
                0 <= i < block.samples().len() ==> call_ensures(
                    M::apply,
                    (to_sample, taken[i]),
                    #[trigger] block.samples()[i],
                )
        },
{
    let frame: usize = format.channels as usize * 2;
    let frames: usize = recorded.len() / frame;
    proof {
        assert(frames == 0 <==> recorded@.len() < frame) by (nonlinear_arith)
            requires
                frames == recorded@.len() / frame as nat,
                frame > 0,
        ;
        assert(frames * frame <= recorded@.len()) by (nonlinear_arith)
            requires
                frames == recorded@.len() / frame as nat,
                frame > 0,
        ;
        assert(frames * frame == frames * format.channels * 2) by (nonlinear_arith)
            requires
                frame == format.channels * 2,
        ;
        assert(format.sample_count(frames as nat) == frames * format.channels) by (
        nonlinear_arith)
            requires
                format.sample_count(frames as nat) == frames as nat * format.channels as nat
                    || format.sample_count(frames as nat) == format.channels as nat
                    * frames as nat,
        ;
    }
    if frames == 0 {
        return None;
    }
    let samples = samples_of_bytes(recorded);
    let pcm = AudioFormat::new(format.sample_rate_hz, format.channels, SampleFormat::I16);
    Some(
        AudioBuffer::from_interleaved_i16(
            pcm,
            &samples,
            frames,
            captured_at,
            frame_index,
            to_sample,
        ),
    )
}

/// A globally unique id, as Windows lays it out.
#[derive(Debug, Clone, Copy)]
pub struct DeviceGuid {
    pub data1: u32,
    pub data2: u16,
    pub data3: u16,
    pub data4: [u8; 8],
}

/// The lower-case text of a globally unique id.
pub open spec fn guid_text(g: DeviceGuid) -> Seq<char> {
    crate::text::hex_padded(g.data1 as nat, 8) + "-"@ + crate::text::hex_padded(g.data2 as nat, 4)
        + "-"@ + crate::text::hex_padded(g.data3 as nat, 4) + "-"@ + crate::text::hex_padded(
        g.data4@[0] as nat,
        2,
    ) + crate::text::hex_padded(g.data4@[1] as nat, 2) + "-"@ + crate::text::hex_padded(
        g.data4@[2] as nat,
        2,
    ) + crate::text::hex_padded(g.data4@[3] as nat, 2) + crate::text::hex_padded(
        g.data4@[4] as nat,
        2,
    ) + crate::text::hex_padded(g.data4@[5] as nat, 2) + crate::text::hex_padded(
        g.data4@[6] as nat,
        2,
    ) + crate::text::hex_padded(g.data4@[7] as nat, 2)
}

/// The lower-case text of a globally unique id.
pub fn format_guid(g: &DeviceGuid) -> (s: String)
    ensures
        s@ == guid_text(*g),
{
    let mut s = String::new();
    push_hex_padded(&mut s, g.data1 as u64, 8);
    push_text(&mut s, "-");
    push_hex_padded(&mut s, g.data2 as u64, 4);
    push_text(&mut s, "-");
    push_hex_padded(&mut s, g.data3 as u64, 4);
    push_text(&mut s, "-");
    push_hex_padded(&mut s, g.data4[0] as u64, 2);
    push_hex_padded(&mut s, g.data4[1] as u64, 2);
    push_text(&mut s, "-");
    push_hex_padded(&mut s, g.data4[2] as u64, 2);
    push_hex_padded(&mut s, g.data4[3] as u64, 2);
    push_hex_padded(&mut s, g.data4[4] as u64, 2);
    push_hex_padded(&mut s, g.data4[5] as u64, 2);
    push_hex_padded(&mut s, g.data4[6] as u64, 2);
    push_hex_padded(&mut s, g.data4[7] as u64, 2);
    assert(s@ =~= guid_text(*g));
    s
}

/// The text behind a pointer to a wide string: up to the first zero, and at most 4097 units of
/// it.
pub open spec fn pcw_text(units: Seq<u16>) -> Seq<char> {
    crate::text::decode_utf16(
        crate::text::until_nul(
            units.take(
                if units.len() < 4097 {
                    units.len() as int
                } else {
                    4097
                },
            ),
        ),
    )
}

/// The text of a wide string; a null pointer has none.
pub fn pcw_to_string(units: Option<&[u16]>) -> (s: String)
    ensures
        s@ == match units {
            Some(u) => pcw_text(u@),
            None => Seq::empty(),
        },
{
    match units {
        None => {
            let s = String::new();
            assert(s@ =~= Seq::<char>::empty());
            s
        },
        Some(u) => {
            let mut read: Vec<u16> = Vec::new();
            let mut i: usize = 0;
            while i < u.len() && i < 4097
                invariant
                    i <= u@.len(),
                    i <= 4097,
                    read@ == u@.take(i as int),
                decreases u@.len() - i,
            {
                read.push(u[i]);
                i = i + 1;
                assert(read@ =~= u@.take(i as int));
            }
            wide_cstr_to_string(&read)
        },
    }
}

/// The format that every DirectSound device is listed with.
pub open spec fn directsound_format() -> AudioFormat {
    AudioFormat { sample_rate_hz: 44_100, channels: 2, sample_format: SampleFormat::I16 }
}

/// The entry of a DirectSound device; a device without a name is left out, and one without an
/// id is the default.
pub fn directsound_device(guid: Option<&DeviceGuid>, description: Option<&[u16]>) -> (d: Option<
    DeviceInfo,
>)
    ensures
        ({
            let name = match description {
                Some(u) => pcw_text(u@),
                None => Seq::empty(),
            };
            &&& d is Some <==> name.len() > 0
            &&& d matches Some(info) ==> {
                &&& info.name@ == name
                &&& info.default_format == Some(directsound_format())
                &&& info.id@ == match guid {
                    Some(g) => "ds:"@ + guid_text(*g),
                    None => "ds:default"@,
                }
            }
        }),
{
    let id = match guid {
        None => owned("ds:default"),
        Some(g) => {
            let mut id = String::new();
            push_text(&mut id, "ds:");
            let text = format_guid(g);
            push_text(&mut id, text.as_str());
            assert(id@ =~= "ds:"@ + guid_text(*g));
            id
        },
    };
    let name = pcw_to_string(description);
    if name.as_str().unicode_len() == 0 {
        return None;
    }
    Some(
        DeviceInfo {
            id,
            name,
            default_format: Some(AudioFormat::new(44_100, 2, SampleFormat::I16)),
        },
    )
}

/// The DirectSound devices; where none was found, the default one.
pub fn directsound_devices(found: Vec<DeviceInfo>) -> (devices: Vec<DeviceInfo>)
    ensures
        found@.len() > 0 ==> devices@ == found@,
        found@.len() == 0 ==> {
            &&& devices@.len() == 1
            &&& devices@[0].id@ == "ds:default"@
            &&& devices@[0].name@ == "DirectSound capture (default)"@
            &&& devices@[0].default_format == Some(directsound_format())
        },
{
    if found.len() > 0 {
        return found;
    }
    let mut devices: Vec<DeviceInfo> = Vec::new();
    devices.push(
        DeviceInfo {
            id: owned("ds:default"),
            name: owned("DirectSound capture (default)"),
            default_format: Some(AudioFormat::new(44_100, 2, SampleFormat::I16)),
        },
    );
    devices
}

/// Why a DirectSound device id is refused, if it is.
pub open spec fn guid_refusal(device_id: Option<&str>) -> Option<Seq<char>> {
    match device_id {
        None => None,
        Some(s) => {
            let rest = s@.skip(3);
            if !crate::text::starts_with_seq(s@, "ds:"@) {
                Some("expected ds:default or ds:{uuid}, got "@ + s@)
            } else if rest != "default"@ && crate::text::utf8_len(rest) != 36 {
                Some("expected 36-char GUID after ds:, got "@ + rest)
            } else {
                None
            }
        },
    }
}

/// The unique id that a DirectSound device id names; none for the default device.
pub open spec fn named_guid(device_id: Option<&str>) -> Option<Seq<char>> {
    match device_id {
        None => None,
        Some(s) => if s@.skip(3) == "default"@ {
            None
        } else {
            Some(s@.skip(3))
        },
    }
}

/// The text is the given one, or there is none where none is given.
pub open spec fn is_text(t: Option<String>, wanted: Option<Seq<char>>) -> bool {
    match wanted {
        Some(w) => t is Some && t->0@ == w,
        None => t is None,
    }
}

/// The text of the unique id that a DirectSound device id names, or none for the default
/// device. A unique id takes 36 bytes.
pub fn parse_guid(device_id: Option<&str>) -> (r: Result<Option<String>>)
    ensures
        match guid_refusal(device_id) {
            Some(text) => r matches Err(e) && e is Device && e->Device_0@ == text,
            None => r matches Ok(g) && is_text(g, named_guid(device_id)),
        },
{
    proof {
        reveal_strlit("ds:");
    }
    let s = match device_id {
        None => {
            return Ok(None);
        },
        Some(s) => s,
    };
    let chars = chars_of(s);
    if !starts_with_chars(&chars, &chars_of("ds:")) {
        return Err(device_error("expected ds:default or ds:{uuid}, got ", s));
    }
    let rest = copy_range(&chars, 3, chars.len());
    assert(rest@ =~= s@.skip(3));
    if crate::text::chars_equal(&rest, &chars_of("default")) {
        return Ok(None);
    }
    let text = crate::text::string_of(&rest);
    if takes_bytes(&rest, 36) {
        Ok(Some(text))
    } else {
        Err(device_error("expected 36-char GUID after ds:, got ", text.as_str()))
    }
}

/// The channels that DirectSound captures: at least one.
pub open spec fn directsound_channels(format: AudioFormat) -> u16 {
    if format.channels == 0 {
        1
    } else {
        format.channels
    }
}

/// The bytes of the ring that DirectSound fills: a tenth of a second.
pub open spec fn directsound_ring(format: AudioFormat) -> nat {
    (if format.sample_rate_hz < 10 {
        1nat
    } else {
        format.sample_rate_hz as nat / 10
    }) * directsound_channels(format) as nat * 2
}

/// Why a DirectSound stream is refused, if it is: it takes 16-bit samples, a known id, one or two
/// channels and a ring of at least four bytes, in this order of checks.
pub open spec fn directsound_refusal(device_id: Option<&str>, format: AudioFormat) -> Option<
    Seq<char>,
> {
    if format.sample_format != SampleFormat::I16 {
        Some("DirectSound capture requires I16 session format (see device defaults)"@)
    } else if guid_refusal(device_id) is Some {
        guid_refusal(device_id)
    } else if directsound_channels(format) > 2 {
        Some("DirectSound demo supports up to 2 channels"@)
    } else if directsound_ring(format) < 4 {
        Some("buffer too small"@)
    } else {
        None
    }
}

/// What a DirectSound stream is opened with. The ring is read in two halves: the first up to
/// `half`, the second from there to `ring_bytes`.
#[derive(Debug, Clone)]
pub struct DirectSoundPlan {
    /// The device's unique id; none for the default device.
    pub device: Option<String>,
    pub layout: WaveFormat,
    pub ring_bytes: u32,
    pub half: u32,
}

/// Decides what a DirectSound stream is opened with, or why it is not.
pub fn plan_directsound(device_id: Option<&str>, format: AudioFormat) -> (r: Result<
    DirectSoundPlan,
>)
    requires
        format.sample_rate_hz <= u32::MAX / 4,
    ensures
        match directsound_refusal(device_id, format) {
            Some(text) => r matches Err(e) && e is Device && e->Device_0@ == text,
            None => r matches Ok(plan) && {
                let ch = directsound_channels(format);
                &&& is_text(plan.device, named_guid(device_id))
                &&& plan.ring_bytes == directsound_ring(format)
                &&& plan.half == plan.ring_bytes / 2
                &&& plan.layout == (WaveFormat {
                    format_tag: TAG_PCM,
                    channels: ch,
                    samples_per_sec: format.sample_rate_hz,
                    avg_bytes_per_sec: (format.sample_rate_hz * ch * 2) as u32,
                    block_align: (ch * 2) as u16,
                    bits_per_sample: 16,
                })
            },
        },
{
    if format.sample_format != SampleFormat::I16 {
        return Err(
            RecordingError::device(
                "DirectSound capture requires I16 session format (see device defaults)",
            ),
        );
    }
    let device = match parse_guid(device_id) {
        Ok(d) => d,
        Err(e) => {
            return Err(e);
        },
    };
    let ch: u16 = if format.channels == 0 {
        1
    } else {
        format.channels
    };
    if ch > 2 {
        return Err(RecordingError::device("DirectSound demo supports up to 2 channels"));
    }
    let rate: u32 = format.sample_rate_hz;
    let channels: u32 = ch as u32;
    assert(rate * channels <= rate * 2) by (nonlinear_arith)
        requires
            channels <= 2,
    ;
    let layout = WaveFormat {
        format_tag: TAG_PCM,
        channels: ch,
        samples_per_sec: rate,
        avg_bytes_per_sec: rate * channels * 2,
        block_align: ch * 2,
        bits_per_sample: 16,
    };
    let tenth: u32 = if rate / 10 < 1 {
        1
    } else {
        rate / 10
    };
    assert(tenth * channels <= tenth * 2) by (nonlinear_arith)
        requires
            channels <= 2,
    ;
    let ring_bytes: u32 = tenth * channels * 2;
    let half: u32 = ring_bytes / 2;
    if half == 0 || ring_bytes < 4 {
        return Err(RecordingError::device("buffer too small"));
    }
    Ok(DirectSoundPlan { device, layout, ring_bytes, half })
}

/// The part of the ring that is ready when one of the two events fires: its offset and length.
pub fn directsound_region(plan: &DirectSoundPlan, second_half: bool) -> (r: (u32, u32))
    requires
        plan.half <= plan.ring_bytes,
    ensures
        !second_half ==> r == (0u32, plan.half),
        second_half ==> r.0 == plan.half && r.1 == plan.ring_bytes - plan.half,
{
    if second_half {
        (plan.half, plan.ring_bytes - plan.half)
    } else {
        (0, plan.half)
    }
}

/// What the capture loop of a DirectSound ring does next.
#[derive(Debug, Clone, Copy, PartialEq, Eq, Structural)]
pub enum RingStep {
    Stop,
    Wait,
    /// Read the part of the ring with this offset and length.
    Read { offset: u32, len: u32 },
}

/// Decides what the loop does after a wait for the two events of the ring; `fired` is the number
/// of the one that fired, if one did. A stop request comes first.
pub fn on_ring_wait(plan: &DirectSoundPlan, stop: bool, fired: Option<u32>) -> (step: RingStep)
    requires
        plan.half <= plan.ring_bytes,
    ensures
        step == if stop {
            RingStep::Stop
        } else {
            match fired {
                Some(0) => RingStep::Read { offset: 0, len: plan.half },
                Some(1) => RingStep::Read {
                    offset: plan.half,
                    len: (plan.ring_bytes - plan.half) as u32,
                },
                _ => RingStep::Wait,
            }
        },
{
    if stop {
        return RingStep::Stop;
    }
    match fired {
        Some(n) => {
            if n > 1 {
                return RingStep::Wait;
            }
            let (offset, len) = directsound_region(plan, n == 1);
            RingStep::Read { offset, len }
        },
        None => RingStep::Wait,
    }
}

/// What the capture loop of waveIn does next.
#[derive(Debug, Clone, Copy, PartialEq, Eq, Structural)]
pub enum WaveStep {
    Stop,
    Wait,
    /// Take what was recorded and hand the buffer back to the system.
    Take,
}

/// Decides what the loop does after a wait: whether the event fired, and whether the buffer is
/// marked as done. A stop request comes first.
pub fn on_wave_wait(stop: bool, signalled: bool, done: bool) -> (step: WaveStep)
    ensures
        step == if stop {
            WaveStep::Stop
        } else if signalled && done {
            WaveStep::Take
        } else {
            WaveStep::Wait
        },
{
    if stop {
        WaveStep::Stop
    } else if signalled && done {
        WaveStep::Take
    } else {
        WaveStep::Wait
    }
}

/// The two halves cover the ring without overlap.
pub proof fn directsound_regions_cover_the_ring(
    plan: DirectSoundPlan,
    first: (u32, u32),
    second: (u32, u32),
)
    requires
        plan.half <= plan.ring_bytes,
        call_ensures(directsound_region, (&plan, false), first),
        call_ensures(directsound_region, (&plan, true), second),
    ensures
        first.0 == 0,
        first.0 + first.1 == second.0,
        second.0 + second.1 == plan.ring_bytes,
{
}

/// The packet of a process's audio as a buffer of samples: silence where the system says so,
/// whatever the packet holds.
pub fn process_packet<S: Copy + Default>(
    format: AudioFormat,
    silent: bool,
    data: &[S],
    frames: usize,
    captured_at: Instant,
    frame_index: u64,
) -> (b: AudioBuffer<S>)
    requires
        format.sample_count(frames as nat) <= usize::MAX,
        !silent ==> data@.len() == format.sample_count(frames as nat),
    ensures
        b.format == format,
        b.frames == frames,
        b.captured_at == captured_at,
        b.frame_index == frame_index,
        b.well_formed(),
        !silent ==> b.samples() == data@,
        silent ==> exists|z: S| #[trigger]
            crate::buffer::is_silence(z) && b.samples() == Seq::new(b.samples().len(), |i: int| z),
{
    if silent {
        return AudioBuffer::silent(format, frames, captured_at, frame_index);
    }
    let mut samples: Vec<S> = Vec::new();
    let mut i: usize = 0;
    while i < data.len()
        invariant
            i <= data@.len(),
            samples@ == data@.take(i as int),
        decreases data@.len() - i,
    {
        samples.push(data[i]);
        i = i + 1;
        assert(samples@ =~= data@.take(i as int));
    }
    assert(samples@ =~= data@);
    AudioBuffer::new(format, Arc::new(samples), frames, captured_at, frame_index)
}

/// The packet of a process's audio in 16-bit samples: zeros where the system says that it is
/// silent.
pub fn process_packet_i16<S: Copy + Default, M: SampleMap<i16, S>>(
    format: AudioFormat,
    silent: bool,
    data: &[i16],
    frames: usize,
    captured_at: Instant,
    frame_index: u64,
    to_sample: &M,
) -> (b: AudioBuffer<S>)
    requires
        format.sample_count(frames as nat) <= usize::MAX,
        !silent ==> data@.len() == format.sample_count(frames as nat),
    ensures
        b.format == (AudioFormat { sample_format: SampleFormat::F32, ..format }),
        b.frames == frames,
        b.captured_at == captured_at,
        b.frame_index == frame_index,
        b.well_formed(),
        forall|i: int|
            0 <= i < b.samples().len() ==> call_ensures(
                M::apply,
                (to_sample, if silent {
                    0i16
                } else {
                    data@[i]
                }),
                #[trigger] b.samples()[i],
            ),
{
    if !silent {
        return AudioBuffer::from_interleaved_i16(
            format,
            data,
            frames,
            captured_at,
            frame_index,
            to_sample,
        );
    }
    let count: usize = format.samples_per_frame(frames);
    let mut zeros: Vec<i16> = Vec::new();
    let mut i: usize = 0;
    while i < count
        invariant
            i <= count,
            zeros@.len() == i,
            forall|k: int| 0 <= k < i ==> #[trigger] zeros@[k] == 0,
        decreases count - i,
    {
        zeros.push(0);
        i = i + 1;
    }
    let b = AudioBuffer::from_interleaved_i16(
        format,
        &zeros,
        frames,
        captured_at,
        frame_index,
        to_sample,
    );
    assert forall|k: int| 0 <= k < b.samples().len() implies call_ensures(
        M::apply,
        (to_sample, 0i16),
        #[trigger] b.samples()[k],
    ) by {
        assert(zeros@[k] == 0);
    }
    b
}

/// What one look at a pending activation shows.
#[derive(Debug, Clone)]
pub enum ActivationPoll {
    /// The activation finished and the result is an audio client.
    Client,
    /// It finished with something that is no audio client; the reason.
    NotAClient(String),
    /// It finished with nothing.
    Nothing,
    /// It failed; the code as text.
    Failed(String),
    /// It has not finished.
    Pending,
    /// Looking failed; the reason.
    LookFailed(String),
}

/// What follows a look at a pending activation.
#[derive(Debug)]
pub enum ActivationStep {
    /// Use the client.
    Use,
    /// Look again in ten milliseconds.
    LookAgain,
    Fail(RecordingError),
}

/// The failure that a look at a pending activation leads to, if any. `waited` tells whether the
/// five seconds are over.
pub open spec fn activation_failure(poll: ActivationPoll, waited: bool) -> Option<Seq<char>> {
    match poll {
        ActivationPoll::Client => None,
        ActivationPoll::NotAClient(why) => Some(
            "ActivateAudioInterfaceAsync returned a non-IAudioClient: "@ + why@,
        ),
        ActivationPoll::Nothing => Some(
            "ActivateAudioInterfaceAsync completed without an audio client"@,
        ),
        ActivationPoll::Failed(code) => Some("ActivateAudioInterfaceAsync failed: "@ + code@),
        ActivationPoll::Pending => if waited {
            Some(
                "ActivateAudioInterfaceAsync timed out waiting for process-loopback activation"@,
            )
        } else {
            None
        },
        ActivationPoll::LookFailed(why) => Some(
            "ActivateAudioInterfaceAsync result polling failed: "@ + why@,
        ),
    }
}

/// Decides what follows a look at a pending activation.
pub fn on_activation_poll(poll: &ActivationPoll, waited: bool) -> (step: ActivationStep)
    ensures
        match activation_failure(*poll, waited) {
            Some(text) => step matches ActivationStep::Fail(e) && e is Device && e->Device_0@
                == text,
            None => step == if poll is Client {
                ActivationStep::Use
            } else {
                ActivationStep::LookAgain
            },
        },
{
    match poll {
        ActivationPoll::Client => ActivationStep::Use,
        ActivationPoll::NotAClient(why) => ActivationStep::Fail(
            device_error("ActivateAudioInterfaceAsync returned a non-IAudioClient: ", why.as_str()),
        ),
        ActivationPoll::Nothing => ActivationStep::Fail(
            RecordingError::device("ActivateAudioInterfaceAsync completed without an audio client"),
        ),
        ActivationPoll::Failed(code) => ActivationStep::Fail(
            device_error("ActivateAudioInterfaceAsync failed: ", code.as_str()),
        ),
        ActivationPoll::Pending => if waited {
            ActivationStep::Fail(
                RecordingError::device(
                    "ActivateAudioInterfaceAsync timed out waiting for process-loopback activation",
                ),
            )
        } else {
            ActivationStep::LookAgain
        },
        ActivationPoll::LookFailed(why) => ActivationStep::Fail(
            device_error("ActivateAudioInterfaceAsync result polling failed: ", why.as_str()),
        ),
    }
}

/// What a wait for captured audio ended with.
#[derive(Debug, Clone)]
pub enum WaitOutcome {
    Ready,
    TimedOut,
    /// The wait failed; the code as text.
    Failed(String),
}

/// What the capture loop does next.
#[derive(Debug)]
pub enum CaptureStep {
    Stop,
    Wait,
    DrainPackets,
    Fail(RecordingError),
}

/// Decides what the capture loop of a process does after a wait: a stop request comes first.
pub fn on_capture_wait(stop: bool, outcome: &WaitOutcome) -> (step: CaptureStep)
    ensures
        stop ==> step is Stop,
        !stop && outcome is TimedOut ==> step is Wait,
        !stop && outcome is Ready ==> step is DrainPackets,
        !stop ==> (outcome matches WaitOutcome::Failed(code) ==> step matches CaptureStep::Fail(e)
            && e is Device && e->Device_0@
            == "WaitForSingleObject failed for app-output capture: "@ + code@),
{
    if stop {
        return CaptureStep::Stop;
    }
    match outcome {
        WaitOutcome::TimedOut => CaptureStep::Wait,
        WaitOutcome::Ready => CaptureStep::DrainPackets,
        WaitOutcome::Failed(code) => CaptureStep::Fail(
            device_error("WaitForSingleObject failed for app-output capture: ", code.as_str()),
        ),
    }
}

/// The outcome of starting the capture of a process, from what its thread reported; a thread
/// that ended without a report is a failure.
pub fn startup_outcome(report: Option<Result<()>>) -> (r: Result<()>)
    ensures
        match report {
            Some(outcome) => r == outcome,
            None => r matches Err(e) && e is Device && e->Device_0@
                == "app-output capture thread terminated before startup completed"@,
        },
{
    match report {
        Some(outcome) => outcome,
        None => Err(
            RecordingError::device("app-output capture thread terminated before startup completed"),
        ),
    }
}

/// Two bytes are a sample, the lower one first: the two bytes of any sample give it back, and
/// what is read of some bytes is a sample for every pair of them, in order.
pub proof fn samples_read_back(bytes: Seq<u8>, sample: i16, i: int)
    requires
        0 <= 2 * i,
        2 * i + 1 < bytes.len(),
        bytes[2 * i] + bytes[2 * i + 1] * 256 == if sample >= 0 {
            sample as int
        } else {
            sample + 0x1_0000
        },
    ensures
        samples_of_bytes_spec(bytes).len() == bytes.len() / 2,
        samples_of_bytes_spec(bytes)[i] == sample,
{
}

/// Every device that answers is listed, in the devices' order and once, and no other.
pub proof fn answering_devices_are_listed_in_order(caps: Seq<Option<WaveInCaps>>)
    ensures
        forall|k: int|
            0 <= k < answering(caps).len() ==> 0 <= #[trigger] answering(caps)[k] < caps.len()
                && caps[answering(caps)[k]] is Some,
        forall|j: int, k: int|
            0 <= j < k < answering(caps).len() ==> #[trigger] answering(caps)[j]
                < #[trigger] answering(caps)[k],
        forall|n: int|
            0 <= n < caps.len() && (#[trigger] caps[n]) is Some ==> answering(caps).contains(n),
    decreases caps.len(),
{
    if caps.len() > 0 {
        let rest = caps.drop_last();
        answering_devices_are_listed_in_order(rest);
        assert forall|n: int| 0 <= n < caps.len() && (#[trigger] caps[n]) is Some implies answering(
            caps,
        ).contains(n) by {
            if n < rest.len() {
                assert(rest[n] is Some);
                let k = choose|k: int| 0 <= k < answering(rest).len() && answering(rest)[k] == n;
                assert(answering(caps)[k] == n);
            } else {
                assert(answering(caps).last() == n);
                assert(answering(caps)[answering(caps).len() - 1] == n);
            }
        }
    }
}

/// The best rate that a device offers is taken, and none where it offers none of those known.
pub proof fn the_best_offered_rate_is_taken(formats: u32)
    ensures
        offered_rate(formats) == Some(48_000u32) <==> formats & 0x8000 != 0,
        offered_rate(formats) == Some(44_100u32) <==> formats & 0x8000 == 0 && formats & 0x0800
            != 0,
        offered_rate(formats) == Some(22_050u32) <==> formats & 0x8000 == 0 && formats & 0x0800
            == 0 && formats & 0x0080 != 0,
        offered_rate(formats) == Some(11_025u32) <==> formats & 0x8000 == 0 && formats & 0x0800
            == 0 && formats & 0x0080 == 0 && formats & 0x0008 != 0,
        offered_rate(formats) is None <==> formats & 0x8000 == 0 && formats & 0x0800 == 0 && formats
            & 0x0080 == 0 && formats & 0x0008 == 0,
{
}

/// A buffer lasts a twentieth of a second and holds one frame at least; a ring lasts a tenth of a
/// second, in samples of two bytes for each channel.
pub proof fn buffers_last_as_long_as_planned(format: AudioFormat)
    ensures
        wave_frames(format.sample_rate_hz) >= 1,
        format.sample_rate_hz >= 20 ==> wave_frames(format.sample_rate_hz) * 20
            <= format.sample_rate_hz < wave_frames(format.sample_rate_hz) * 20 + 20,
        format.channels == 1 && format.sample_rate_hz >= 10 ==> directsound_ring(format) * 5
            <= format.sample_rate_hz < directsound_ring(format) * 5 + 10,
        format.channels == 2 && format.sample_rate_hz >= 10 ==> directsound_ring(format) * 5 <= 2
            * format.sample_rate_hz < directsound_ring(format) * 5 + 20,
{
    let tenth = format.sample_rate_hz as nat / 10;
    assert(tenth * 1 * 2 == 2 * tenth && tenth * 2 * 2 == 4 * tenth);
}

/// A listed device can be opened again: the name of a device is its identifier's 36 characters
/// behind the mark, and such a name is accepted and gives the same identifier.
pub proof fn a_device_identifier_reads_back(g: DeviceGuid, id: &str)
    requires
        id@ == "ds:"@ + guid_text(g),
    ensures
        guid_text(g).len() == 36,
        guid_text(g)[8] == '-' && guid_text(g)[13] == '-' && guid_text(g)[18] == '-' && guid_text(
            g,
        )[23] == '-',
        guid_refusal(Some(id)) is None,
        named_guid(Some(id)) == Some(guid_text(g)),
{
    crate::text::hexadecimal_has_its_width(g.data1 as nat, 8);
    crate::text::hexadecimal_has_its_width(g.data2 as nat, 4);
    crate::text::hexadecimal_has_its_width(g.data3 as nat, 4);
    crate::text::hexadecimal_has_its_width(g.data4@[0] as nat, 2);
    crate::text::hexadecimal_has_its_width(g.data4@[1] as nat, 2);
    crate::text::hexadecimal_has_its_width(g.data4@[2] as nat, 2);
    crate::text::hexadecimal_has_its_width(g.data4@[3] as nat, 2);
    crate::text::hexadecimal_has_its_width(g.data4@[4] as nat, 2);
    crate::text::hexadecimal_has_its_width(g.data4@[5] as nat, 2);
    crate::text::hexadecimal_has_its_width(g.data4@[6] as nat, 2);
    crate::text::hexadecimal_has_its_width(g.data4@[7] as nat, 2);
    reveal_strlit("-");
    reveal_strlit("ds:");
    reveal_strlit("default");
    let t = guid_text(g);
    assert(t.len() == 36);
    assert(id@.skip(3) =~= t);
    assert(crate::text::starts_with_seq(id@, "ds:"@)) by {
        assert(id@.take(3) =~= "ds:"@);
    }
    assert forall|i: int| 0 <= i < t.len() implies (#[trigger] t[i] as u32) < 0x80 by {}
    crate::text::plain_text_has_a_byte_each(t);
}

/// A frame takes four bytes for each channel of floating-point samples, and two for each of
/// integers.
pub proof fn frames_take_their_bytes(format: AudioFormat)
    ensures
        format.sample_format == SampleFormat::F32 ==> frame_bytes(format) == 4 * format.channels,
        format.sample_format == SampleFormat::I16 ==> frame_bytes(format) == 2 * format.channels,
{
}

} // verus!
