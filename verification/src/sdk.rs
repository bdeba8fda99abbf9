//! What the C interface of the recorder decides: which requests are accepted, what a recording
//! consists of, and which code and message a refusal has.

use vstd::prelude::*;

use crate::error::{RecordingError, Result};
use crate::format::{AudioFormat, SampleFormat};
use crate::host_windows::WindowsAudioSystem;
use crate::paths::{extension_chars, PathStyle};
use crate::source::{CaptureSource, CaptureSourceKind, DeviceInfo};
use crate::text::{
    ascii_lower_chars, chars_of, owned, push_decimal, push_text, string_of, text_equal, trim_chars,
};

verus! {

pub const RECORDER_SDK_OK: i32 = 0;

pub const RECORDER_SDK_NULL_POINTER: i32 = 1;

pub const RECORDER_SDK_INVALID_UTF8: i32 = 2;

pub const RECORDER_SDK_INVALID_ARGUMENT: i32 = 3;

pub const RECORDER_SDK_BUFFER_TOO_SMALL: i32 = 4;

pub const RECORDER_SDK_ERROR: i32 = 100;

/// A refusal: the code that is returned and the message that is kept.
#[derive(Debug)]
pub struct SdkError {
    pub code: i32,
    pub message: String,
}

impl SdkError {
    /// The refusal has this code and this message.
    pub open spec fn says(self, code: i32, message: Seq<char>) -> bool {
        self.code == code && self.message@ == message
    }
}

fn refuse(code: i32, message: &str) -> (e: SdkError)
    ensures
        e.says(code, message@),
{
    SdkError { code, message: owned(message) }
}

fn refuse_about(code: i32, message: &str, what: &str) -> (e: SdkError)
    ensures
        e.says(code, message@ + what@),
{
    let mut text = String::new();
    push_text(&mut text, message);
    push_text(&mut text, what);
    assert(text@ =~= message@ + what@);
    SdkError { code, message: text }
}

/// The message that is kept of an error: zero characters are spelled out, so that it can be
/// handed to C.
pub open spec fn kept_message(s: Seq<char>) -> Seq<char>
    decreases s.len(),
{
    if s.len() == 0 {
        Seq::empty()
    } else if s.last() == '\0' {
        kept_message(s.drop_last()) + seq!['\\', '0']
    } else {
        kept_message(s.drop_last()).push(s.last())
    }
}

/// The message that is kept of an error.
pub fn sanitized_message(s: &str) -> (r: String)
    ensures
        r@ == kept_message(s@),
{
    let chars = chars_of(s);
    let mut r = String::new();
    let mut i: usize = 0;
    assert(r@ =~= kept_message(chars@.take(0)));
    while i < chars.len()
        invariant
            i <= chars@.len(),
            r@ == kept_message(chars@.take(i as int)),
        decreases chars@.len() - i,
    {
        let ghost before = r@;
        proof {
            assert(chars@.take(i + 1).drop_last() =~= chars@.take(i as int));
            assert(chars@.take(i + 1).last() == chars@[i as int]);
        }
        if chars[i] == '\0' {
            r.push('\\');
            r.push('0');
            assert(r@ =~= before + seq!['\\', '0']);
        } else {
            r.push(chars[i]);
        }
        i = i + 1;
    }
    assert(chars@.take(i as int) =~= s@);
    r
}

/// A kept message never holds a zero character.
pub proof fn kept_messages_hold_no_zero(s: Seq<char>)
    ensures
        forall|i: int| 0 <= i < kept_message(s).len() ==> kept_message(s)[i] != '\0',
    decreases s.len(),
{
    if s.len() > 0 {
        let before = kept_message(s.drop_last());
        kept_messages_hold_no_zero(s.drop_last());
        assert forall|i: int| 0 <= i < kept_message(s).len() implies kept_message(s)[i] != '\0' by {
            if i < before.len() {
                assert(kept_message(s)[i] == before[i]);
            }
        }
    }
}

/// A text of the caller: trimmed, and not set where nothing is left.
pub fn optional_text(s: Option<&str>) -> (r: Option<String>)
    ensures
        match s {
            None => r is None,
            Some(s) => {
                let t = crate::text::trim_seq(s@);
                if t.len() == 0 {
                    r is None
                } else {
                    r is Some && r->0@ == t
                }
            },
        },
{
    match s {
        None => None,
        Some(s) => {
            let t = trim_chars(&chars_of(s));
            if t.len() == 0 {
                None
            } else {
                Some(string_of(&t))
            }
        },
    }
}

/// The audio system that a text names, if any, whatever its case; WASAPI where none is given.
pub open spec fn named_system(name: Option<Seq<char>>) -> Option<WindowsAudioSystem> {
    match name {
        None => Some(WindowsAudioSystem::Wasapi),
        Some(n) => {
            let l = crate::text::ascii_lower_seq(n);
            if l == "wasapi"@ {
                Some(WindowsAudioSystem::Wasapi)
            } else if l == "asio"@ {
                Some(WindowsAudioSystem::Asio)
            } else if l == "directsound"@ || l == "dsound"@ {
                Some(WindowsAudioSystem::DirectSound)
            } else if l == "waveout"@ || l == "wavein"@ || l == "winmm"@ {
                Some(WindowsAudioSystem::WaveOut)
            } else if l == "dummy"@ {
                Some(WindowsAudioSystem::Dummy)
            } else {
                None
            }
        },
    }
}

/// The audio system that a text names.
pub fn windows_audio_system(name: Option<&str>) -> (r: Result<WindowsAudioSystem>)
    ensures
        ({
            let n = match name {
                Some(s) => Some(s@),
                None => None,
            };
            match named_system(n) {
                Some(system) => r is Ok && r->Ok_0 == system,
                None => r matches Err(e) && e is Config && e->Config_0@
                    == "unknown Windows audio system: "@ + crate::text::ascii_lower_seq(name->0@),
            }
        }),
{
    let s = match name {
        None => {
            return Ok(WindowsAudioSystem::Wasapi);
        },
        Some(s) => s,
    };
    let lower = string_of(&ascii_lower_chars(&chars_of(s)));
    let l = lower.as_str();
    if text_equal(l, "wasapi") {
        return Ok(WindowsAudioSystem::Wasapi);
    }
    if text_equal(l, "asio") {
        return Ok(WindowsAudioSystem::Asio);
    }
    if text_equal(l, "directsound") || text_equal(l, "dsound") {
        return Ok(WindowsAudioSystem::DirectSound);
    }
    if text_equal(l, "waveout") || text_equal(l, "wavein") || text_equal(l, "winmm") {
        return Ok(WindowsAudioSystem::WaveOut);
    }
    if text_equal(l, "dummy") {
        return Ok(WindowsAudioSystem::Dummy);
    }
    let mut text = String::new();
    push_text(&mut text, "unknown Windows audio system: ");
    push_text(&mut text, l);
    assert(text@ =~= "unknown Windows audio system: "@ + lower@);
    Err(RecordingError::Config(text))
}

/// The path that the format is taken from: the raw one, then the processed one.
pub open spec fn format_path(raw: Option<Seq<char>>, processed: Option<Seq<char>>) -> Seq<char> {
    match raw {
        Some(p) => p,
        None => match processed {
            Some(p) => p,
            None => Seq::empty(),
        },
    }
}

/// The name of the output format: the one that was asked for, or the extension of the path, or
/// `wav`; in lower case.
pub open spec fn output_format_name(
    style: PathStyle,
    explicit: Option<Seq<char>>,
    raw: Option<Seq<char>>,
    processed: Option<Seq<char>>,
) -> Seq<char> {
    match explicit {
        Some(f) => crate::text::ascii_lower_seq(f),
        None => match crate::paths::extension_of(style, format_path(raw, processed)) {
            Some(e) => crate::text::ascii_lower_seq(e),
            None => "wav"@,
        },
    }
}

/// The view of an optional text.
pub open spec fn view_of(s: Option<&str>) -> Option<Seq<char>> {
    match s {
        Some(s) => Some(s@),
        None => None,
    }
}

/// The name of the output format.
pub fn infer_output_format(
    style: PathStyle,
    explicit: Option<&str>,
    raw: Option<&str>,
    processed: Option<&str>,
) -> (r: String)
    ensures
        r@ == output_format_name(style, view_of(explicit), view_of(raw), view_of(processed)),
{
    match explicit {
        Some(f) => {
            return string_of(&ascii_lower_chars(&chars_of(f)));
        },
        None => {},
    }
    let path: Vec<char> = match raw {
        Some(p) => chars_of(p),
        None => match processed {
            Some(p) => chars_of(p),
            None => Vec::new(),
        },
    };
    assert(path@ =~= format_path(view_of(raw), view_of(processed)));
    match extension_chars(style, &path) {
        Some(e) => string_of(&ascii_lower_chars(&e)),
        None => owned("wav"),
    }
}

/// A kind of output file.
#[derive(Debug, Clone, Copy, PartialEq, Eq, Structural)]
pub enum FileFormat {
    Wav,
    Flac,
    Mp3,
}

/// The kind of output file that a name stands for.
pub fn file_format(name: &str) -> (r: Result<FileFormat>)
    ensures
        name@ == "wav"@ ==> r is Ok && r->Ok_0 == FileFormat::Wav,
        name@ == "flac"@ ==> r is Ok && r->Ok_0 == FileFormat::Flac,
        name@ == "mp3"@ ==> r is Ok && r->Ok_0 == FileFormat::Mp3,
        name@ != "wav"@ && name@ != "flac"@ && name@ != "mp3"@ ==> (r matches Err(e) && e is Config
            && e->Config_0@ == "unsupported output format: "@ + name@
            + "; expected wav, flac, or mp3"@),
{
    proof {
        reveal_strlit("wav");
        reveal_strlit("flac");
        reveal_strlit("mp3");
        assert("wav"@[0] != "flac"@[0] && "wav"@[0] != "mp3"@[0] && "flac"@[0] != "mp3"@[0]);
    }
    if text_equal(name, "wav") {
        return Ok(FileFormat::Wav);
    }
    if text_equal(name, "flac") {
        return Ok(FileFormat::Flac);
    }
    if text_equal(name, "mp3") {
        return Ok(FileFormat::Mp3);
    }
    let mut text = String::new();
    push_text(&mut text, "unsupported output format: ");
    push_text(&mut text, name);
    push_text(&mut text, "; expected wav, flac, or mp3");
    assert(text@ =~= "unsupported output format: "@ + name@ + "; expected wav, flac, or mp3"@);
    Err(RecordingError::Config(text))
}

/// A number with its sign.
pub open spec fn signed_decimal(n: int) -> Seq<char> {
    if n < 0 {
        "-"@ + crate::text::decimal((-n) as nat)
    } else {
        crate::text::decimal(n as nat)
    }
}

/// The format that was asked for; zeros stand for what the device has.
pub fn requested_format(sample_rate_hz: u32, channels: u16, sample_format: i32, default: AudioFormat) -> (r:
    Result<AudioFormat>)
    ensures
        r is Ok <==> 0 <= sample_format <= 2,
        r matches Err(e) ==> e is Config && e->Config_0@ == "invalid sample_format "@
            + signed_decimal(sample_format as int) + "; expected 0, 1, or 2"@,
        r matches Ok(f) ==> {
            &&& f.sample_rate_hz == if sample_rate_hz == 0 {
                default.sample_rate_hz
            } else {
                sample_rate_hz
            }
            &&& f.channels == if channels == 0 {
                default.channels
            } else {
                channels
            }
            &&& f.sample_format == if sample_format == 1 {
                SampleFormat::F32
            } else if sample_format == 2 {
                SampleFormat::I16
            } else {
                default.sample_format
            }
        },
{
    let kind = if sample_format == 0 {
        default.sample_format
    } else if sample_format == 1 {
        SampleFormat::F32
    } else if sample_format == 2 {
        SampleFormat::I16
    } else {
        let mut text = String::new();
        push_text(&mut text, "invalid sample_format ");
        if sample_format < 0 {
            push_text(&mut text, "-");
            push_decimal(&mut text, (-(sample_format as i64)) as u64);
        } else {
            push_decimal(&mut text, sample_format as u64);
        }
        push_text(&mut text, "; expected 0, 1, or 2");
        assert(text@ =~= "invalid sample_format "@ + signed_decimal(sample_format as int)
            + "; expected 0, 1, or 2"@);
        return Err(RecordingError::Config(text));
    };
    Ok(
        AudioFormat::new(
            if sample_rate_hz == 0 {
                default.sample_rate_hz
            } else {
                sample_rate_hz
            },
            if channels == 0 {
                default.channels
            } else {
                channels
            },
            kind,
        ),
    )
}

/// A request to record, its texts already trimmed.
#[derive(Debug)]
pub struct StartRequest {
    pub device_id: Option<String>,
    pub raw_output_path: Option<String>,
    pub processed_output_path: Option<String>,
    pub output_format: Option<String>,
    pub sample_rate_hz: u32,
    pub channels: u16,
    pub sample_format: i32,
    pub loopback_source_id: Option<String>,
    pub loopback_output_path: Option<String>,
    /// How the paths are written.
    pub path_style: PathStyle,
}

/// Why the paths of a request are refused, if they are.
pub open spec fn path_refusal(r: StartRequest) -> Option<Seq<char>> {
    if r.raw_output_path is None && r.processed_output_path is None {
        Some("at least one output path is required"@)
    } else if r.loopback_source_id is Some && r.loopback_output_path is None {
        Some("loopback_output_path is required when loopback_source_id is set"@)
    } else if r.loopback_output_path is Some && r.loopback_source_id is None {
        Some("loopback_source_id is required when loopback_output_path is set"@)
    } else {
        None
    }
}

/// Fails unless the request says where to record to: at least one path, and for the loopback
/// source both or neither.
pub fn check_paths(r: &StartRequest) -> (res: std::result::Result<(), SdkError>)
    ensures
        match path_refusal(*r) {
            Some(text) => res matches Err(e) && e.says(RECORDER_SDK_INVALID_ARGUMENT, text),
            None => res is Ok,
        },
{
    if r.raw_output_path.is_none() && r.processed_output_path.is_none() {
        return Err(refuse(RECORDER_SDK_INVALID_ARGUMENT, "at least one output path is required"));
    }
    if r.loopback_source_id.is_some() && r.loopback_output_path.is_none() {
        return Err(
            refuse(
                RECORDER_SDK_INVALID_ARGUMENT,
                "loopback_output_path is required when loopback_source_id is set",
            ),
        );
    }
    if r.loopback_output_path.is_some() && r.loopback_source_id.is_none() {
        return Err(
            refuse(
                RECORDER_SDK_INVALID_ARGUMENT,
                "loopback_source_id is required when loopback_output_path is set",
            ),
        );
    }
    Ok(())
}

/// `i` is the first device with this id.
pub open spec fn is_first_with_id(devices: Seq<DeviceInfo>, id: Seq<char>, i: int) -> bool {
    &&& 0 <= i < devices.len()
    &&& devices[i].id@ == id
    &&& forall|k: int| 0 <= k < i ==> (#[trigger] devices[k]).id@ != id
}

/// No device has this id.
pub open spec fn none_with_id(devices: Seq<DeviceInfo>, id: Seq<char>) -> bool {
    forall|k: int| 0 <= k < devices.len() ==> (#[trigger] devices[k]).id@ != id
}

/// The device to record from: the one that was asked for, or the first one.
pub fn select_device(devices: &Vec<DeviceInfo>, id: Option<&str>) -> (r: std::result::Result<
    usize,
    SdkError,
>)
    ensures
        devices@.len() == 0 ==> (r matches Err(e) && e.says(
            RECORDER_SDK_ERROR,
            "no input devices found"@,
        )),
        devices@.len() > 0 && id is None ==> r is Ok && r->Ok_0 == 0,
        devices@.len() > 0 ==> (id matches Some(wanted) ==> match r {
            Ok(i) => is_first_with_id(devices@, wanted@, i as int),
            Err(e) => none_with_id(devices@, wanted@) && e.says(
                RECORDER_SDK_INVALID_ARGUMENT,
                "requested device id was not found"@,
            ),
        }),
{
    if devices.len() == 0 {
        return Err(refuse(RECORDER_SDK_ERROR, "no input devices found"));
    }
    let wanted = match id {
        None => {
            return Ok(0);
        },
        Some(wanted) => wanted,
    };
    let mut i: usize = 0;
    while i < devices.len()
        invariant
            i <= devices@.len(),
            id == Some(wanted),
            forall|k: int| 0 <= k < i ==> (#[trigger] devices@[k]).id@ != wanted@,
        decreases devices@.len() - i,
    {
        if text_equal(devices[i].id.as_str(), wanted) {
            return Ok(i);
        }
        i = i + 1;
    }
    Err(refuse(RECORDER_SDK_INVALID_ARGUMENT, "requested device id was not found"))
}

/// The format that is assumed where a device or source does not tell its own.
pub open spec fn fallback_format() -> AudioFormat {
    AudioFormat { sample_rate_hz: 48_000, channels: 2, sample_format: SampleFormat::F32 }
}

/// A device's own format, or the one that is assumed.
pub open spec fn format_or_fallback(f: Option<AudioFormat>) -> AudioFormat {
    match f {
        Some(f) => f,
        None => fallback_format(),
    }
}

/// What the recording of an input consists of.
#[derive(Debug)]
pub struct InputPlan {
    /// The device's place in the list.
    pub device: usize,
    pub format: AudioFormat,
    pub files: FileFormat,
}

fn as_text(s: &Option<String>) -> (r: Option<&str>)
    ensures
        view_of(r) == option_view(*s),
{
    match s {
        Some(s) => Some(s.as_str()),
        None => None,
    }
}

/// The view of an optional text.
pub open spec fn option_view(s: Option<String>) -> Option<Seq<char>> {
    match s {
        Some(s) => Some(s@),
        None => None,
    }
}

/// The name of the output format of a request.
pub open spec fn request_format_name(r: StartRequest) -> Seq<char> {
    output_format_name(
        r.path_style,
        option_view(r.output_format),
        option_view(r.raw_output_path),
        option_view(r.processed_output_path),
    )
}

/// Why the recording of an input is refused, if it is, with the code: the paths are checked
/// first, then the device, then the format, then the kind of file.
pub open spec fn input_refusal(r: StartRequest, devices: Seq<DeviceInfo>) -> Option<
    (i32, Seq<char>),
> {
    let name = request_format_name(r);
    if path_refusal(r) is Some {
        Some((RECORDER_SDK_INVALID_ARGUMENT, path_refusal(r)->0))
    } else if devices.len() == 0 {
        Some((RECORDER_SDK_ERROR, "no input devices found"@))
    } else if r.device_id is Some && none_with_id(devices, r.device_id->0@) {
        Some((RECORDER_SDK_INVALID_ARGUMENT, "requested device id was not found"@))
    } else if !(0 <= r.sample_format <= 2) {
        Some(
            (
                RECORDER_SDK_INVALID_ARGUMENT,
                "invalid configuration: "@ + ("invalid sample_format "@ + signed_decimal(
                    r.sample_format as int,
                ) + "; expected 0, 1, or 2"@),
            ),
        )
    } else if name != "wav"@ && name != "flac"@ && name != "mp3"@ {
        Some(
            (
                RECORDER_SDK_ERROR,
                "invalid configuration: "@ + ("unsupported output format: "@ + name
                    + "; expected wav, flac, or mp3"@),
            ),
        )
    } else {
        None
    }
}

/// Plans the recording of an input.
pub fn plan_input(r: &StartRequest, devices: &Vec<DeviceInfo>) -> (res: std::result::Result<
    InputPlan,
    SdkError,
>)
    ensures
        match input_refusal(*r, devices@) {
            Some((code, text)) => res matches Err(e) && e.says(code, text),
            None => res matches Ok(plan) && {
                &&& plan.device < devices@.len()
                &&& match option_view(r.device_id) {
                    Some(id) => is_first_with_id(devices@, id, plan.device as int),
                    None => plan.device == 0,
                }
                &&& call_ensures(
                    requested_format,
                    (
                        r.sample_rate_hz,
                        r.channels,
                        r.sample_format,
                        format_or_fallback(devices@[plan.device as int].default_format),
                    ),
                    Ok(plan.format),
                )
                &&& request_format_name(*r) == format_name(plan.files)
            },
        },
{
    match check_paths(r) {
        Err(e) => {
            return Err(e);
        },
        Ok(()) => {},
    }
    let device: usize = match select_device(devices, as_text(&r.device_id)) {
        Err(e) => {
            return Err(e);
        },
        Ok(i) => i,
    };
    let default = match devices[device].default_format {
        Some(f) => f,
        None => AudioFormat::new(48_000, 2, SampleFormat::F32),
    };
    let format = match requested_format(r.sample_rate_hz, r.channels, r.sample_format, default) {
        Err(e) => {
            return Err(SdkError { code: RECORDER_SDK_INVALID_ARGUMENT, message: e.message() });
        },
        Ok(f) => f,
    };
    let name = infer_output_format(
        r.path_style,
        as_text(&r.output_format),
        as_text(&r.raw_output_path),
        as_text(&r.processed_output_path),
    );
    let files = match file_format(name.as_str()) {
        Err(e) => {
            return Err(SdkError { code: RECORDER_SDK_ERROR, message: e.message() });
        },
        Ok(f) => f,
    };
    Ok(InputPlan { device, format, files })
}

/// The name of a kind of output file.
pub open spec fn format_name(f: FileFormat) -> Seq<char> {
    match f {
        FileFormat::Wav => "wav"@,
        FileFormat::Flac => "flac"@,
        FileFormat::Mp3 => "mp3"@,
    }
}

/// The source is the loopback source with this id.
pub open spec fn is_loopback_with_id(s: CaptureSource, id: Seq<char>) -> bool {
    s.id@ == id && s.kind == CaptureSourceKind::Loopback
}

/// What the recording of a loopback source consists of.
#[derive(Debug)]
pub struct LoopbackPlan {
    /// The source's place in the list.
    pub source: usize,
    pub format: AudioFormat,
}

/// Plans the recording of the loopback source with the given id: the first such source, at its
/// own format.
pub fn plan_loopback(id: &str, sources: &Vec<CaptureSource>) -> (r: std::result::Result<
    LoopbackPlan,
    SdkError,
>)
    ensures
        match r {
            Ok(plan) => {
                &&& plan.source < sources@.len()
                &&& is_loopback_with_id(sources@[plan.source as int], id@)
                &&& forall|k: int|
                    0 <= k < plan.source ==> !is_loopback_with_id(#[trigger] sources@[k], id@)
                &&& plan.format == format_or_fallback(sources@[plan.source as int].default_format)
            },
            Err(e) => {
                &&& forall|k: int|
                    0 <= k < sources@.len() ==> !is_loopback_with_id(#[trigger] sources@[k], id@)
                &&& e.says(RECORDER_SDK_INVALID_ARGUMENT, "loopback source not found: "@ + id@)
            },
        },
{
    let mut i: usize = 0;
    while i < sources.len()
        invariant
            i <= sources@.len(),
            forall|k: int| 0 <= k < i ==> !is_loopback_with_id(#[trigger] sources@[k], id@),
        decreases sources@.len() - i,
    {
        if text_equal(sources[i].id.as_str(), id) && sources[i].kind
            == CaptureSourceKind::Loopback {
            let format = match sources[i].default_format {
                Some(f) => f,
                None => AudioFormat::new(48_000, 2, SampleFormat::F32),
            };
            return Ok(LoopbackPlan { source: i, format });
        }
        i = i + 1;
    }
    Err(refuse_about(RECORDER_SDK_INVALID_ARGUMENT, "loopback source not found: ", id))
}

/// Whether a text of `len` bytes and its terminator fit into the caller's buffer, and the bytes
/// that are required.
pub fn buffer_outcome(len: usize, has_buffer: bool, capacity: usize) -> (r: (
    usize,
    std::result::Result<(), SdkError>,
))
    requires
        len < usize::MAX,
    ensures
        r.0 == len + 1,
        r.1 is Ok <==> has_buffer && capacity >= len + 1,
        r.1 matches Err(e) ==> e.says(
            RECORDER_SDK_BUFFER_TOO_SMALL,
            "output buffer too small; required "@ + crate::text::decimal((len + 1) as nat)
                + " bytes"@,
        ),
{
    let required: usize = len + 1;
    if !has_buffer || capacity < required {
        let mut text = String::new();
        push_text(&mut text, "output buffer too small; required ");
        push_decimal(&mut text, required as u64);
        push_text(&mut text, " bytes");
        assert(text@ =~= "output buffer too small; required "@ + crate::text::decimal(
            (len + 1) as nat,
        ) + " bytes"@);
        return (required, Err(SdkError { code: RECORDER_SDK_BUFFER_TOO_SMALL, message: text }));
    }
    (required, Ok(()))
}

/// The bytes that a text and its terminator take.
pub open spec fn required_len(json: Seq<u8>) -> nat {
    json.len() + 1
}

/// The caller's buffer after a text was written to it: the text, its terminator, and the rest as
/// it was. A buffer that is too small, or none, which counts as empty, stays as it is.
pub open spec fn filled(json: Seq<u8>, out: Seq<u8>) -> Seq<u8> {
    if out.len() < required_len(json) {
        out
    } else {
        json + seq![0u8] + out.skip(required_len(json) as int)
    }
}

/// Writes a text and its terminator to the caller's buffer, if they fit; tells the bytes that are
/// required in any case. A caller without a buffer has an empty one.
pub fn write_json_to_caller_buffer(json: &[u8], out: &mut [u8]) -> (r: (
    usize,
    std::result::Result<(), SdkError>,
))
    requires
        json@.len() < usize::MAX,
    ensures
        r.0 == required_len(json@),
        r.1 is Ok <==> old(out)@.len() >= required_len(json@),
        r.1 matches Err(e) ==> e.says(
            RECORDER_SDK_BUFFER_TOO_SMALL,
            "output buffer too small; required "@ + crate::text::decimal(required_len(json@))
                + " bytes"@,
        ),
        final(out)@ == filled(json@, old(out)@),
{
    let (required, outcome) = buffer_outcome(json.len(), true, out.len());
    if outcome.is_ok() {
        let ghost before = out@;
        let mut i: usize = 0;
        while i < json.len()
            invariant
                i <= json@.len() < before.len(),
                out@.len() == before.len(),
                forall|k: int| 0 <= k < i ==> #[trigger] out@[k] == json@[k],
                forall|k: int| i <= k < before.len() ==> #[trigger] out@[k] == before[k],
            decreases json@.len() - i,
        {
            out[i] = json[i];
            i = i + 1;
        }
        out[i] = 0;
        assert(out@ =~= filled(json@, before));
    }
    (required, outcome)
}

/// A caller that comes back with a buffer of the reported length gets the text: the whole of it,
/// then the terminator.
pub proof fn reported_length_is_enough(json: Seq<u8>, out: Seq<u8>)
    requires
        out.len() == required_len(json),
    ensures
        filled(json, out) == json + seq![0u8],
{
    assert(filled(json, out) =~= json + seq![0u8]);
}

/// Messages are kept as they are but for zeros, each of which becomes a backslash and a nought.
pub proof fn messages_are_kept(s: Seq<char>, t: Seq<char>)
    ensures
        kept_message(s + t) == kept_message(s) + kept_message(t),
        (forall|i: int| 0 <= i < s.len() ==> #[trigger] s[i] != '\0') ==> kept_message(s) == s,
        kept_message(seq!['\0']) == seq!['\\', '0'],
    decreases s.len() + t.len(),
{
    assert(seq!['\0'].drop_last() =~= Seq::<char>::empty());
    assert(kept_message(seq!['\0']) =~= seq!['\\', '0']) by {
        reveal_with_fuel(kept_message, 2);
    }
    if t.len() > 0 {
        messages_are_kept(s, t.drop_last());
        assert((s + t).drop_last() =~= s + t.drop_last());
        assert(kept_message(s + t) =~= kept_message(s) + kept_message(t));
    } else {
        assert(s + t =~= s);
        assert(kept_message(s) + kept_message(t) =~= kept_message(s));
        if s.len() > 0 {
            messages_are_kept(s.drop_last(), t);
            if forall|i: int| 0 <= i < s.len() ==> #[trigger] s[i] != '\0' {
                assert(s[s.len() - 1] != '\0');
                assert forall|i: int| 0 <= i < s.len() - 1 implies #[trigger] s.drop_last()[i]
                    == s[i] by {}
                assert(kept_message(s) =~= s);
            }
        }
    }
}

/// The format of a recording is the one asked for, in any case of its letters; where none is, the
/// extension of the raw file, or of the processed one where there is no raw file; and WAV where
/// there is no extension.
pub proof fn the_format_follows_the_request(
    style: PathStyle,
    explicit: Option<Seq<char>>,
    raw: Option<Seq<char>>,
    processed: Option<Seq<char>>,
)
    ensures
        ({
            let name = output_format_name(style, explicit, raw, processed);
            let path = if raw is Some {
                raw->0
            } else if processed is Some {
                processed->0
            } else {
                Seq::<char>::empty()
            };
            &&& explicit is Some ==> name == crate::text::ascii_lower_seq(explicit->0)
            &&& explicit is None && crate::paths::extension_of(style, path) is Some ==> name
                == crate::text::ascii_lower_seq(crate::paths::extension_of(style, path)->0)
            &&& explicit is None && crate::paths::extension_of(style, path) is None ==> name
                == "wav"@
        }),
{
}

/// A request is accepted exactly where it names a file to write, names a loopback source and its
/// file both or neither, there is a device, the device asked for is one of them, the sample format
/// is one of the three numbers, and the files' format is one of the three known.
pub proof fn what_a_request_needs(r: StartRequest, devices: Seq<DeviceInfo>)
    ensures
        input_refusal(r, devices) is None <==> {
            let name = output_format_name(
                r.path_style,
                option_view(r.output_format),
                option_view(r.raw_output_path),
                option_view(r.processed_output_path),
            );
            &&& r.raw_output_path is Some || r.processed_output_path is Some
            &&& r.loopback_source_id is Some <==> r.loopback_output_path is Some
            &&& devices.len() > 0
            &&& r.device_id is Some ==> exists|i: int|
                0 <= i < devices.len() && (#[trigger] devices[i]).id@ == r.device_id->0@
            &&& 0 <= r.sample_format <= 2
            &&& name == "wav"@ || name == "flac"@ || name == "mp3"@
        },
{
}

/// Audio systems are named without regard to case, and none named means WASAPI.
pub proof fn audio_systems_are_named_in_any_case(name: Seq<char>)
    ensures
        named_system(None) == Some(WindowsAudioSystem::Wasapi),
        ({
            let lower = crate::text::ascii_lower_seq(name);
            let system = named_system(Some(name));
            &&& lower == "wasapi"@ ==> system == Some(WindowsAudioSystem::Wasapi)
            &&& lower == "asio"@ ==> system == Some(WindowsAudioSystem::Asio)
            &&& lower == "directsound"@ || lower == "dsound"@ ==> system == Some(
                WindowsAudioSystem::DirectSound,
            )
            &&& lower == "waveout"@ || lower == "wavein"@ || lower == "winmm"@ ==> system == Some(
                WindowsAudioSystem::WaveOut,
            )
            &&& lower == "dummy"@ ==> system == Some(WindowsAudioSystem::Dummy)
            &&& system is Some ==> lower == "wasapi"@ || lower == "asio"@ || lower
                == "directsound"@ || lower == "dsound"@ || lower == "waveout"@ || lower
                == "wavein"@ || lower == "winmm"@ || lower == "dummy"@
        }),
{
    reveal_strlit("wasapi");
    reveal_strlit("asio");
    reveal_strlit("directsound");
    reveal_strlit("dsound");
    reveal_strlit("waveout");
    reveal_strlit("wavein");
    reveal_strlit("winmm");
    reveal_strlit("dummy");
    assert("wasapi"@.len() == 6 && "wasapi"@[0] == 'w' && "wasapi"@[1] == 'a' && "wasapi"@[2]
        == 's');
    assert("wavein"@.len() == 6 && "wavein"@[2] == 'v');
    assert("dsound"@.len() == 6 && "dsound"@[0] == 'd');
    assert("asio"@.len() == 4 && "directsound"@.len() == 11 && "waveout"@.len() == 7);
    assert("winmm"@.len() == 5 && "winmm"@[0] == 'w' && "dummy"@.len() == 5 && "dummy"@[0] == 'd');
}

/// A buffer that is large enough gets the text and a zero behind it, and keeps what lies beyond; a
/// smaller one stays as it is.
pub proof fn a_buffer_is_filled_from_the_front(json: Seq<u8>, out: Seq<u8>)
    ensures
        filled(json, out).len() == out.len(),
        out.len() <= json.len() ==> filled(json, out) == out,
        out.len() > json.len() ==> {
            &&& filled(json, out).take(json.len() as int) == json
            &&& filled(json, out)[json.len() as int] == 0
            &&& forall|i: int|
                json.len() < i < out.len() ==> #[trigger] filled(json, out)[i] == out[i]
        },
{
    if out.len() > json.len() {
        assert(filled(json, out).take(json.len() as int) =~= json);
    }
}

/// A caller that asks without a buffer is told a size that is enough: the same text fits a buffer
/// of that size, and no smaller one.
pub proof fn asking_first_tells_the_size(
    len: usize,
    asked: (usize, std::result::Result<(), SdkError>),
    capacity: usize,
    answered: (usize, std::result::Result<(), SdkError>),
)
    requires
        len < usize::MAX,
        call_ensures(buffer_outcome, (len, false, 0usize), asked),
        call_ensures(buffer_outcome, (len, true, capacity), answered),
    ensures
        asked.1 is Err,
        asked.1->Err_0.code == RECORDER_SDK_BUFFER_TOO_SMALL,
        answered.0 == asked.0,
        answered.1 is Ok <==> capacity >= asked.0,
        asked.0 == len + 1,
{
}

/// A request fills in what it leaves open from the device's own format, and takes the rest as
/// asked.
pub proof fn open_settings_are_the_devices(
    sample_rate_hz: u32,
    channels: u16,
    sample_format: i32,
    own: AudioFormat,
    f: AudioFormat,
)
    requires
        call_ensures(requested_format, (sample_rate_hz, channels, sample_format, own), Ok(f)),
    ensures
        sample_rate_hz == 0 ==> f.sample_rate_hz == own.sample_rate_hz,
        sample_rate_hz != 0 ==> f.sample_rate_hz == sample_rate_hz,
        channels == 0 ==> f.channels == own.channels,
        channels != 0 ==> f.channels == channels,
        sample_format == 0 ==> f.sample_format == own.sample_format,
        sample_format == 1 ==> f.sample_format == SampleFormat::F32,
        sample_format == 2 ==> f.sample_format == SampleFormat::I16,
{
}

} // verus!
