//! What every host decides about devices: how a device is found, which layout it has, and
//! whether a session's layout suits it.

use vstd::prelude::*;

use crate::error::{RecordingError, Result};
use crate::format::{AudioFormat, SampleFormat};
use crate::source::{CaptureSource, CaptureSourceKind, DeviceInfo};
use crate::text::{push_decimal, push_text, text_equal};

verus! {

/// The sample type that an audio backend reports for a device.
#[derive(Debug, Clone, Copy, PartialEq, Eq, Structural)]
pub enum BackendSample {
    F32,
    I16,
    Other,
}

/// The sample format that a device is listed with: 16-bit integers for such a device,
/// floating-point numbers for every other.
pub fn listed_sample_format(sample: BackendSample) -> (f: SampleFormat)
    ensures
        f == if sample == BackendSample::I16 {
            SampleFormat::I16
        } else {
            SampleFormat::F32
        },
{
    match sample {
        BackendSample::F32 => SampleFormat::F32,
        BackendSample::I16 => SampleFormat::I16,
        BackendSample::Other => SampleFormat::F32,
    }
}

/// What a stream is opened for; its errors are worded accordingly.
#[derive(Debug, Clone, Copy, PartialEq, Eq, Structural)]
pub enum StreamPurpose {
    Input,
    Loopback,
    Output,
}

/// The message for a device with another number of channels than the session asked for.
pub open spec fn channel_mismatch(purpose: StreamPurpose, has: nat, wants: nat) -> Seq<char> {
    (match purpose {
        StreamPurpose::Input => "device has "@,
        StreamPurpose::Loopback => "loopback endpoint has "@,
        StreamPurpose::Output => "output device has "@,
    }) + crate::text::decimal(has) + " channels; session requested "@ + crate::text::decimal(wants)
}

/// The message for a device with another rate than the session asked for.
pub open spec fn rate_mismatch(purpose: StreamPurpose, has: nat, wants: nat) -> Seq<char> {
    (match purpose {
        StreamPurpose::Input => "device default rate is "@,
        StreamPurpose::Loopback => "loopback endpoint runs at "@,
        StreamPurpose::Output => "output device runs at "@,
    }) + crate::text::decimal(has) + " Hz; session requested "@ + crate::text::decimal(wants)
        + " Hz"@
}

/// Checks that a session's layout is the one that the device runs with. Channels are compared
/// first.
pub fn check_device_layout(
    purpose: StreamPurpose,
    device_channels: u16,
    device_rate: u32,
    format: AudioFormat,
) -> (r: Result<()>)
    ensures
        r is Ok <==> device_channels == format.channels && device_rate == format.sample_rate_hz,
        r matches Err(e) ==> e is Device && e->Device_0@ == if device_channels != format.channels {
            channel_mismatch(purpose, device_channels as nat, format.channels as nat)
        } else {
            rate_mismatch(purpose, device_rate as nat, format.sample_rate_hz as nat)
        },
{
    if device_channels != format.channels {
        let mut text = String::new();
        match purpose {
            StreamPurpose::Input => push_text(&mut text, "device has "),
            StreamPurpose::Loopback => push_text(&mut text, "loopback endpoint has "),
            StreamPurpose::Output => push_text(&mut text, "output device has "),
        }
        push_decimal(&mut text, device_channels as u64);
        push_text(&mut text, " channels; session requested ");
        push_decimal(&mut text, format.channels as u64);
        assert(text@ =~= channel_mismatch(purpose, device_channels as nat, format.channels as nat));
        return Err(RecordingError::Device(text));
    }
    if device_rate != format.sample_rate_hz {
        let mut text = String::new();
        match purpose {
            StreamPurpose::Input => push_text(&mut text, "device default rate is "),
            StreamPurpose::Loopback => push_text(&mut text, "loopback endpoint runs at "),
            StreamPurpose::Output => push_text(&mut text, "output device runs at "),
        }
        push_decimal(&mut text, device_rate as u64);
        push_text(&mut text, " Hz; session requested ");
        push_decimal(&mut text, format.sample_rate_hz as u64);
        push_text(&mut text, " Hz");
        assert(text@ =~= rate_mismatch(
            purpose,
            device_rate as nat,
            format.sample_rate_hz as nat,
        ));
        return Err(RecordingError::Device(text));
    }
    Ok(())
}

/// Whether the capture path can read the device's samples, and as what.
pub fn capture_sample_format(sample: BackendSample) -> (r: Option<SampleFormat>)
    ensures
        r == (match sample {
            BackendSample::F32 => Some(SampleFormat::F32),
            BackendSample::I16 => Some(SampleFormat::I16),
            BackendSample::Other => None,
        }),
{
    match sample {
        BackendSample::F32 => Some(SampleFormat::F32),
        BackendSample::I16 => Some(SampleFormat::I16),
        BackendSample::Other => None,
    }
}

/// The whole frames in `samples` interleaved samples; a device without channels counts as one
/// with one channel.
pub fn frames_in(samples: usize, channels: u16) -> (n: usize)
    ensures
        n == samples as nat / if channels == 0 {
            1nat
        } else {
            channels as nat
        },
{
    if channels == 0 {
        samples
    } else {
        samples / channels as usize
    }
}

/// A device whose id could be read and is `id`.
pub open spec fn has_id(known: Option<String>, id: Seq<char>) -> bool {
    known matches Some(k) && k@ == id
}

/// Finds the first device whose id could be read and is `id`. `what` is `input` or `output`.
pub fn find_device(ids: &Vec<Option<String>>, id: &str, what: &str) -> (r: Result<usize>)
    ensures
        match r {
            Ok(i) => i < ids@.len() && has_id(ids@[i as int], id@) && forall|k: int|
                0 <= k < i ==> !has_id(#[trigger] ids@[k], id@),
            Err(e) => (forall|k: int| 0 <= k < ids@.len() ==> !has_id(#[trigger] ids@[k], id@))
                && e is Device && e->Device_0@ == what@ + " device not found: "@ + id@,
        },
{
    let mut i: usize = 0;
    while i < ids.len()
        invariant
            i <= ids@.len(),
            forall|k: int| 0 <= k < i ==> !has_id(#[trigger] ids@[k], id@),
        decreases ids@.len() - i,
    {
        match &ids[i] {
            Some(k) => {
                if text_equal(k.as_str(), id) {
                    return Ok(i);
                }
            },
            None => {},
        }
        i = i + 1;
    }
    let mut text = String::new();
    push_text(&mut text, what);
    push_text(&mut text, " device not found: ");
    push_text(&mut text, id);
    assert(text@ =~= what@ + " device not found: "@ + id@);
    Err(RecordingError::Device(text))
}

/// A capture source for a device, of the given kind and without an application.
pub open spec fn source_of_kind(d: DeviceInfo, kind: CaptureSourceKind) -> CaptureSource {
    CaptureSource { id: d.id, name: d.name, default_format: d.default_format, kind, app: None }
}

/// See [`source_of_kind`].
pub fn make_source(d: DeviceInfo, kind: CaptureSourceKind) -> (s: CaptureSource)
    ensures
        s == source_of_kind(d, kind),
{
    CaptureSource { id: d.id, name: d.name, default_format: d.default_format, kind, app: None }
}

/// A stream is opened only where the device runs as asked: with the same channels at the same
/// rate.
pub proof fn a_device_has_to_run_as_asked(
    purpose: StreamPurpose,
    device_channels: u16,
    device_rate: u32,
    format: AudioFormat,
    r: Result<()>,
)
    requires
        call_ensures(check_device_layout, (purpose, device_channels, device_rate, format), r),
    ensures
        device_channels != format.channels ==> r is Err,
        device_rate != format.sample_rate_hz ==> r is Err,
        device_channels == format.channels && device_rate == format.sample_rate_hz ==> r is Ok,
{
}

/// A block has as many frames as its samples fill.
pub proof fn frames_are_filled(samples: usize, channels: u16, n: usize)
    requires
        call_ensures(frames_in, (samples, channels), n),
        channels > 0,
    ensures
        n * channels <= samples < (n + 1) * channels,
{
    let s = samples as nat;
    let c = channels as nat;
    assert((s / c) * c <= s && s < (s / c + 1) * c) by (nonlinear_arith)
        requires
            c > 0,
    ;
}

} // verus!
