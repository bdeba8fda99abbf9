//! What the C interface hands out and how it answers requests.

use recorder::buffer::AudioBuffer;
use recorder::error::{RecordingError, Result};
use recorder::format::{AudioFormat, SampleFormat};
use recorder::host_windows::WindowsAudioSystem;
use recorder::json::{capture_sources_json, devices_json, json_escape, sources_json};
use recorder::paths::PathStyle;
use recorder::plugin_abi::{
    apply_gain, check_call, PluginCall, PLUGIN_NO_DATA, PLUGIN_NO_ROOM, PLUGIN_NULL,
};
use recorder::sdk::{
    buffer_outcome, check_paths, file_format, infer_output_format, optional_text, plan_input,
    plan_loopback, requested_format, sanitized_message, select_device, windows_audio_system,
    write_json_to_caller_buffer, FileFormat, StartRequest, RECORDER_SDK_BUFFER_TOO_SMALL,
    RECORDER_SDK_ERROR, RECORDER_SDK_INVALID_ARGUMENT,
};
use recorder::source::{
    AppCaptureBackend, AppCaptureDescriptor, CaptureSource, CaptureSourceKind, DeviceInfo,
};
use recorder::traits::{AudioHost, StreamHandle};

struct FakeHost {
    sources: Vec<CaptureSource>,
}

impl AudioHost<f32> for FakeHost {
    type Stop = fn();

    fn list_input_devices(&self) -> Result<Vec<DeviceInfo>> {
        Ok(vec![])
    }

    fn start_input_stream<C: Fn(AudioBuffer<f32>) + Send + Sync + 'static>(
        &self,
        _device_id: Option<&str>,
        _format: AudioFormat,
        _on_buffer: C,
    ) -> Result<StreamHandle<fn()>> {
        unreachable!("not needed for json tests")
    }

    fn list_capture_sources(&self) -> Result<Vec<CaptureSource>> {
        Ok(self.sources.clone())
    }
}

fn request() -> StartRequest {
    StartRequest {
        device_id: None,
        raw_output_path: Some("take.wav".into()),
        processed_output_path: None,
        output_format: None,
        sample_rate_hz: 0,
        channels: 0,
        sample_format: 0,
        loopback_source_id: None,
        loopback_output_path: None,
        path_style: PathStyle::Slash,
    }
}

fn mics() -> Vec<DeviceInfo> {
    vec![
        DeviceInfo {
            id: "a".into(),
            name: "A".into(),
            default_format: Some(AudioFormat::new(44_100, 1, SampleFormat::I16)),
        },
        DeviceInfo { id: "b".into(), name: "B \"2\"".into(), default_format: None },
    ]
}

#[test]
fn json_escape_handles_common_special_chars() {
    assert_eq!(json_escape("a\"b\\c\n"), "a\\\"b\\\\c\\n");
}

#[test]
fn json_escape_writes_control_characters_as_codes() {
    assert_eq!(json_escape("\r\t\u{1}\u{1f}ü"), "\\r\\t\\u0001\\u001fü");
}

#[test]
fn capture_sources_json_includes_app_output_metadata() {
    let host = FakeHost {
        sources: vec![CaptureSource {
            id: "app:42".into(),
            name: "Music Player".into(),
            default_format: Some(AudioFormat::new(48_000, 2, SampleFormat::F32)),
            kind: CaptureSourceKind::AppOutput,
            app: Some(AppCaptureDescriptor {
                backend: AppCaptureBackend::WindowsProcessLoopback,
                app_name: "Music Player".into(),
                app_id: Some("com.example.player".into()),
                process_id: Some(42),
                instance_id: Some("session-42".into()),
                supports_multi_select: true,
                requires_system_permission: false,
            }),
        }],
    };

    let json = capture_sources_json::<f32, FakeHost>(&host).expect("json");
    assert!(json.contains("\"kind\":\"app-output\""));
    assert!(json.contains("\"backend\":\"windows-process-loopback\""));
    assert!(json.contains("\"process_id\":42"));
    assert!(json.contains("\"supports_multi_select\":true"));
}

#[test]
fn devices_are_listed_as_json() {
    assert_eq!(devices_json(&Vec::new()), "[]");
    assert_eq!(
        devices_json(&mics()),
        "[{\"id\":\"a\",\"name\":\"A\",\"default_format\":{\"sample_rate_hz\":44100,\"channels\":1,\
         \"sample_format\":\"i16\"}},{\"id\":\"b\",\"name\":\"B \\\"2\\\"\",\"default_format\":null}]"
    );
    let source = CaptureSource::from(mics().remove(1));
    assert_eq!(
        sources_json(&vec![source]),
        "[{\"id\":\"b\",\"name\":\"B \\\"2\\\"\",\"kind\":\"input\",\"default_format\":null,\"app\":null}]"
    );
}

#[test]
fn messages_hold_no_zero() {
    assert_eq!(sanitized_message("a\0b"), "a\\0b");
    assert_eq!(optional_text(Some("")), None);
    assert_eq!(optional_text(None), None);
    assert_eq!(optional_text(Some("x")).as_deref(), Some("x"));
}

#[test]
fn audio_systems_are_known_by_name() {
    assert_eq!(windows_audio_system(None).unwrap(), WindowsAudioSystem::Wasapi);
    assert_eq!(windows_audio_system(Some("DSound")).unwrap(), WindowsAudioSystem::DirectSound);
    assert_eq!(windows_audio_system(Some("winmm")).unwrap(), WindowsAudioSystem::WaveOut);
    match windows_audio_system(Some("OSS")) {
        Err(RecordingError::Config(text)) => assert_eq!(text, "unknown Windows audio system: oss"),
        other => panic!("{:?}", other),
    }
}

#[test]
fn file_formats_follow_the_name() {
    assert_eq!(infer_output_format(PathStyle::Slash, Some("FLAC"), Some("a.wav"), None), "flac");
    assert_eq!(infer_output_format(PathStyle::Slash, None, Some("a.MP3"), Some("b.wav")), "mp3");
    assert_eq!(infer_output_format(PathStyle::Slash, None, None, Some("dir.x/b")), "wav");
    assert_eq!(infer_output_format(PathStyle::Slash, None, None, None), "wav");
    assert_eq!(
        infer_output_format(PathStyle::Windows, None, Some(r"C:\my.flac\take"), None),
        "wav"
    );
    assert_eq!(file_format("flac").unwrap(), FileFormat::Flac);
    match file_format("ogg") {
        Err(RecordingError::Config(text)) => {
            assert_eq!(text, "unsupported output format: ogg; expected wav, flac, or mp3")
        }
        other => panic!("{:?}", other),
    }
}

#[test]
fn zeros_stand_for_the_device_format() {
    let default = AudioFormat::new(44_100, 1, SampleFormat::I16);
    assert_eq!(requested_format(0, 0, 0, default).unwrap(), default);
    assert_eq!(
        requested_format(48_000, 2, 1, default).unwrap(),
        AudioFormat::new(48_000, 2, SampleFormat::F32)
    );
    match requested_format(0, 0, -3, default) {
        Err(RecordingError::Config(text)) => {
            assert_eq!(text, "invalid sample_format -3; expected 0, 1, or 2")
        }
        other => panic!("{:?}", other),
    }
}

#[test]
fn recordings_are_planned_or_refused() {
    let plan = match plan_input(&request(), &mics()) {
        Ok(p) => p,
        Err(e) => panic!("{}", e.message),
    };
    assert_eq!(plan.device, 0);
    assert_eq!(plan.format, AudioFormat::new(44_100, 1, SampleFormat::I16));
    assert_eq!(plan.files, FileFormat::Wav);
    let refused = |r: StartRequest, devices: Vec<DeviceInfo>| match plan_input(&r, &devices) {
        Err(e) => (e.code, e.message),
        Ok(_) => panic!("a refusal was expected"),
    };
    assert_eq!(
        refused(StartRequest { raw_output_path: None, ..request() }, mics()),
        (RECORDER_SDK_INVALID_ARGUMENT, "at least one output path is required".to_string())
    );
    assert_eq!(
        refused(request(), Vec::new()),
        (RECORDER_SDK_ERROR, "no input devices found".to_string())
    );
    assert_eq!(
        refused(StartRequest { device_id: Some("z".into()), ..request() }, mics()),
        (RECORDER_SDK_INVALID_ARGUMENT, "requested device id was not found".to_string())
    );
    assert_eq!(
        refused(StartRequest { loopback_source_id: Some("s".into()), ..request() }, mics()).1,
        "loopback_output_path is required when loopback_source_id is set"
    );
    assert_eq!(
        refused(StartRequest { loopback_output_path: Some("s.wav".into()), ..request() }, mics()).1,
        "loopback_source_id is required when loopback_output_path is set"
    );
    assert_eq!(
        refused(StartRequest { output_format: Some("ogg".into()), ..request() }, mics()).0,
        RECORDER_SDK_ERROR
    );
    assert!(check_paths(&request()).is_ok());
    assert_eq!(select_device(&mics(), Some("b")).ok(), Some(1));
}

#[test]
fn loopback_sources_are_found_by_id_and_kind() {
    let mut sources: Vec<CaptureSource> = mics().into_iter().map(CaptureSource::from).collect();
    sources[1].kind = CaptureSourceKind::Loopback;
    let plan = match plan_loopback("b", &sources) {
        Ok(p) => p,
        Err(e) => panic!("{}", e.message),
    };
    assert_eq!(plan.source, 1);
    assert_eq!(plan.format, AudioFormat::new(48_000, 2, SampleFormat::F32));
    match plan_loopback("a", &sources) {
        Err(e) => assert_eq!(e.message, "loopback source not found: a"),
        Ok(_) => panic!("a microphone is no loopback source"),
    }
}

#[test]
fn callers_are_told_how_much_room_is_needed() {
    assert!(buffer_outcome(4, true, 5).1.is_ok());
    let (required, outcome) = buffer_outcome(4, true, 4);
    assert_eq!(required, 5);
    match outcome {
        Err(e) => {
            assert_eq!(e.code, RECORDER_SDK_BUFFER_TOO_SMALL);
            assert_eq!(e.message, "output buffer too small; required 5 bytes");
        }
        Ok(()) => panic!("five bytes do not fit"),
    }
    assert!(buffer_outcome(0, false, 100).1.is_err());
}

#[test]
fn a_caller_that_comes_back_gets_the_text() {
    let mut small = [7u8; 2];
    let (required, outcome) = write_json_to_caller_buffer(b"[1]", &mut small);
    assert_eq!(required, 4);
    match outcome {
        Err(e) => assert_eq!(e.code, RECORDER_SDK_BUFFER_TOO_SMALL),
        Ok(()) => panic!("four bytes do not fit"),
    }
    assert_eq!(small, [7, 7]);
    assert_eq!(write_json_to_caller_buffer(b"[1]", &mut []).0, 4);
    let mut enough = vec![7u8; required];
    assert!(write_json_to_caller_buffer(b"[1]", &mut enough).1.is_ok());
    assert_eq!(enough, b"[1]\0");
    let mut more = [7u8; 6];
    assert!(write_json_to_caller_buffer(b"[1]", &mut more).1.is_ok());
    assert_eq!(&more, b"[1]\0\x07\x07");
}

struct Half;

impl recorder::buffer::SampleMap<f32, f32> for Half {
    fn apply(&self, sample: f32) -> f32 {
        (sample * 0.5).clamp(-1.0, 1.0)
    }
}

#[test]
fn plugin_calls_are_checked_in_order() {
    let call = PluginCall {
        has_user: true,
        has_frame: true,
        has_out: true,
        has_data: true,
        frames: 4,
        channels: 2,
        out_len: 8,
    };
    assert_eq!(check_call(call), Ok(8));
    assert_eq!(check_call(PluginCall { out_len: 7, ..call }), Err(PLUGIN_NO_ROOM));
    assert_eq!(check_call(PluginCall { has_data: false, ..call }), Err(PLUGIN_NO_DATA));
    assert_eq!(
        check_call(PluginCall { has_user: false, has_data: false, ..call }),
        Err(PLUGIN_NULL)
    );
    assert_eq!(
        check_call(PluginCall { frames: usize::MAX, out_len: usize::MAX, ..call }),
        Ok(usize::MAX)
    );
    assert_eq!(apply_gain(&Half, &[0.5f32, -1.0, 4.0]), vec![0.25, -0.5, 1.0]);
}
