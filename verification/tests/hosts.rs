//! Hosts: which sources they offer and what they do with requests.

use std::time::Instant;

use recorder::buffer::{AudioBuffer, SampleMap};
use recorder::device::{
    capture_sample_format, check_device_layout, find_device, frames_in, listed_sample_format,
    BackendSample, StreamPurpose,
};
use recorder::error::RecordingError;
use recorder::format::{AudioFormat, SampleFormat};
use recorder::host_linux::{
    check_linux_capture, default_loopback_source, is_monitor_source, linux_sources,
};
use recorder::host_macos::{
    interleave_planar, is_virtual_loopback_name, macos_sources, screen_capture_block,
    uses_screen_capture,
};
use recorder::host_windows::{
    app_process_source, list_devices, offered_processes, parse_app_source_id,
    silence_frames_per_tick, silence_wait_nanos, AppProcess, CaptureRoute, InputBackend,
    WindowsAudioSystem, WindowsHost,
};
use recorder::sorting::sort_keyed;
use recorder::source::{AppCaptureBackend, CaptureSource, CaptureSourceKind, DeviceInfo};
use recorder::wave::{
    default_format_for_caps, directsound_device, directsound_devices, directsound_region,
    format_guid, list_wave_devices, make_wave_format, on_activation_poll, on_capture_wait,
    on_ring_wait, on_wave_wait,
    parse_device_id, parse_guid, pcw_to_string, plan_directsound, plan_wave_in, pname_to_string,
    process_packet, process_packet_i16, samples_of_bytes, startup_outcome, wave_in_block,
    ActivationPoll, ActivationStep, CaptureStep, DeviceGuid, RingStep, WaitOutcome, WaveInCaps,
    WaveStep, TAG_FLOAT, WAVE_MAPPER,
};

struct Scaled;

impl SampleMap<i16, f32> for Scaled {
    fn apply(&self, sample: i16) -> f32 {
        sample as f32 / 32768.0
    }
}

struct Bits;

impl SampleMap<u32, f32> for Bits {
    fn apply(&self, word: u32) -> f32 {
        f32::from_bits(word)
    }
}

fn device(id: &str, name: &str) -> DeviceInfo {
    DeviceInfo { id: id.into(), name: name.into(), default_format: None }
}

fn wide(text: &str) -> Vec<u16> {
    text.encode_utf16().collect()
}

fn device_text<T>(r: Result<T, RecordingError>) -> String {
    match r {
        Err(RecordingError::Device(text)) => text,
        Err(other) => panic!("{:?}", other),
        Ok(_) => panic!("a device error was expected"),
    }
}

fn config_text<T>(r: Result<T, RecordingError>) -> String {
    match r {
        Err(RecordingError::Config(text)) => text,
        Err(other) => panic!("{:?}", other),
        Ok(_) => panic!("a configuration error was expected"),
    }
}

#[test]
fn monitor_heuristic_matches_pulse_pipewire_names() {
    assert!(is_monitor_source("alsa_output.pci-0000_00_1f.3.analog-stereo.monitor"));
    assert!(is_monitor_source("Monitor of Built-in Audio Analog Stereo"));
    assert!(!is_monitor_source("alsa_input.pci-0000_00_1f.3.analog-stereo"));
    assert!(!is_monitor_source("Built-in Microphone"));
}

#[test]
fn known_virtual_drivers_are_recognized() {
    assert!(is_virtual_loopback_name("BlackHole 2ch"));
    assert!(is_virtual_loopback_name("blackhole 16ch"));
    assert!(is_virtual_loopback_name("Loopback Audio"));
    assert!(is_virtual_loopback_name("Soundflower (2ch)"));
    assert!(is_virtual_loopback_name("VB-Cable"));
    assert!(is_virtual_loopback_name("VB Cable"));
}

#[test]
fn regular_inputs_are_not_loopback() {
    assert!(!is_virtual_loopback_name("MacBook Pro Microphone"));
    assert!(!is_virtual_loopback_name("USB Audio Device"));
}

#[test]
fn parse_app_source_id_accepts_pid_ids() {
    assert_eq!(parse_app_source_id("app:42").unwrap(), 42);
}

#[test]
fn parse_app_source_id_rejects_non_app_ids() {
    assert!(parse_app_source_id("loopback:42").is_err());
    assert!(parse_app_source_id("app:not-a-number").is_err());
}

#[test]
fn app_process_becomes_app_output_source() {
    let source = app_process_source(4242, "Spotify.exe", Some("C:\\Apps\\Spotify.exe"));
    assert_eq!(source.id, "app:4242");
    assert_eq!(source.kind, CaptureSourceKind::AppOutput);
    let app = source.app.expect("app metadata");
    assert_eq!(app.backend, AppCaptureBackend::WindowsProcessLoopback);
    assert_eq!(app.process_id, Some(4242));
    assert_eq!(app.app_name, "Spotify.exe");
    assert_eq!(app.app_id.as_deref(), Some("C:\\Apps\\Spotify.exe"));
    assert!(app.supports_multi_select);
    assert!(!app.requires_system_permission);
}

#[test]
fn app_source_ids_read_back() {
    for pid in [0, 7, 4_294_967_295] {
        let source = app_process_source(pid, "x", None);
        assert_eq!(parse_app_source_id(&source.id).unwrap(), pid);
    }
    assert_eq!(
        config_text(parse_app_source_id("app:4294967296")),
        "invalid app-output source id: app:4294967296"
    );
}

#[test]
fn linux_monitors_are_loopback_sources() {
    let sources = linux_sources(vec![device("a", "Mic"), device("b", "Monitor of Speakers")]);
    assert_eq!(sources[0].kind, CaptureSourceKind::Input);
    assert_eq!(sources[1].kind, CaptureSourceKind::Loopback);
    assert!(check_linux_capture(CaptureSourceKind::Loopback).is_ok());
    assert_eq!(
        config_text(check_linux_capture(CaptureSourceKind::AppOutput)),
        "app-output capture is not implemented for the Linux host yet"
    );
    let inputs = vec![device("a", "Mic"), device("b", "sink.monitor"), device("c", "Monitor of sink")];
    assert_eq!(default_loopback_source("sink", &inputs), Some(1));
    assert_eq!(default_loopback_source("other", &inputs), None);
}

#[test]
fn the_system_audio_source_comes_first_on_a_mac() {
    let sources = macos_sources(vec![device("a", "BlackHole 2ch"), device("b", "Mic")], true);
    assert_eq!(sources.len(), 3);
    assert_eq!(sources[0].id, "scl:system-audio");
    assert_eq!(sources[1].kind, CaptureSourceKind::Loopback);
    assert_eq!(sources[2].kind, CaptureSourceKind::Input);
    assert!(uses_screen_capture(CaptureSourceKind::Loopback, Some("scl:system-audio")));
    assert!(!uses_screen_capture(CaptureSourceKind::Loopback, Some("a")));
    assert!(!uses_screen_capture(CaptureSourceKind::Input, Some("scl:system-audio")));
}

#[test]
fn screen_capture_blocks_are_interleaved() {
    let left: Vec<u8> = [0.5f32, -0.5].iter().flat_map(|s| s.to_le_bytes()).collect();
    let right: Vec<u8> = 0.25f32.to_le_bytes().to_vec();
    let planes = vec![left, right];
    let at = Instant::now();
    let b = screen_capture_block(true, &planes, 2, 48_000, 0.0, &Bits, at, 96).unwrap();
    assert_eq!(*b.data, vec![0.5, 0.25, -0.5, 0.0]);
    assert_eq!(b.format, AudioFormat::new(48_000, 2, SampleFormat::F32));
    assert_eq!(b.frame_index, 96);
    assert!(screen_capture_block(false, &planes, 2, 48_000, 0.0, &Bits, at, 0).is_none());
    assert!(screen_capture_block(true, &planes, 0, 48_000, 0.0, &Bits, at, 0).is_none());
    assert_eq!(interleave_planar(&vec![vec![1, 2], vec![3]], 2, 0), vec![1, 3, 2, 0]);
}

#[test]
fn windows_routes_follow_the_audio_system() {
    let wasapi = WindowsHost::default();
    assert_eq!(
        wasapi.capture_route(None, CaptureSourceKind::Input).unwrap(),
        CaptureRoute::Input(InputBackend::Wasapi)
    );
    assert_eq!(
        wasapi.capture_route(Some("x"), CaptureSourceKind::Loopback).unwrap(),
        CaptureRoute::Loopback
    );
    assert_eq!(
        wasapi.capture_route(Some("app:9"), CaptureSourceKind::AppOutput).unwrap(),
        CaptureRoute::Process(9)
    );
    assert_eq!(
        config_text(wasapi.capture_route(None, CaptureSourceKind::AppOutput)),
        "app-output capture requires a selected app source id"
    );
    let dummy = WindowsHost::new(WindowsAudioSystem::Dummy).unwrap();
    assert_eq!(dummy.input_backend(), InputBackend::Silence);
    assert_eq!(
        config_text(dummy.capture_route(None, CaptureSourceKind::Loopback)),
        "loopback capture is only supported by WASAPI on Windows; current audio system is Dummy Audio"
    );
    assert_eq!(
        config_text(dummy.check_output()),
        "output streams are not supported for Dummy Audio"
    );
    assert!(wasapi.check_output().is_ok());
    assert_eq!(WindowsAudioSystem::all().len(), 5);
}

#[test]
fn windows_lists_outputs_and_processes_with_wasapi_only() {
    let apps = || vec![AppProcess { process_id: 3, name: "a.exe".into(), image: None }];
    let wasapi = WindowsHost::default();
    let kinds: Vec<CaptureSourceKind> = wasapi
        .capture_sources(vec![device("m", "Mic")], vec![device("s", "Speaker")], apps())
        .iter()
        .map(|s: &CaptureSource| s.kind)
        .collect();
    assert_eq!(
        kinds,
        vec![CaptureSourceKind::Input, CaptureSourceKind::Loopback, CaptureSourceKind::AppOutput]
    );
    let asio = WindowsHost::new(WindowsAudioSystem::Asio).unwrap();
    assert_eq!(
        asio.capture_sources(vec![device("m", "Mic")], vec![device("s", "S")], apps()).len(),
        1
    );
}

#[test]
fn processes_are_offered_in_order() {
    let found = vec![
        AppProcess { process_id: 5, name: "b.exe".into(), image: None },
        AppProcess { process_id: 0, name: "idle".into(), image: None },
        AppProcess { process_id: 4, name: "a.exe".into(), image: None },
        AppProcess { process_id: 2, name: "b.exe".into(), image: None },
        AppProcess { process_id: 9, name: "".into(), image: None },
    ];
    let listed = offered_processes(found);
    let ids: Vec<u32> = listed.iter().map(|k| k.item.process_id).collect();
    assert_eq!(ids, vec![4, 2, 5]);
    let again: Vec<u32> = sort_keyed(listed).iter().map(|k| k.item.process_id).collect();
    assert_eq!(again, vec![4, 2, 5]);
}

#[test]
fn the_dummy_backend_ticks() {
    assert_eq!(list_devices()[0].id, "dummy:silence");
    let f = AudioFormat::new(48_000, 2, SampleFormat::F32);
    assert_eq!(silence_frames_per_tick(None, f).unwrap(), 960);
    assert_eq!(silence_frames_per_tick(None, AudioFormat { sample_rate_hz: 10, ..f }).unwrap(), 1);
    assert_eq!(device_text(silence_frames_per_tick(Some("x"), f)), "unknown dummy device id");
    assert_eq!(
        device_text(silence_frames_per_tick(None, AudioFormat::new(48_000, 2, SampleFormat::I16))),
        "dummy backend only supports F32 session format"
    );
    assert_eq!(silence_wait_nanos(5_000_000), 15_000_000);
    assert_eq!(silence_wait_nanos(30_000_000), 0);
}

#[test]
fn device_layouts_are_compared() {
    let f = AudioFormat::new(48_000, 2, SampleFormat::F32);
    assert!(check_device_layout(StreamPurpose::Input, 2, 48_000, f).is_ok());
    assert_eq!(
        device_text(check_device_layout(StreamPurpose::Input, 1, 44_100, f)),
        "device has 1 channels; session requested 2"
    );
    assert_eq!(
        device_text(check_device_layout(StreamPurpose::Loopback, 2, 44_100, f)),
        "loopback endpoint runs at 44100 Hz; session requested 48000 Hz"
    );
    assert_eq!(
        device_text(check_device_layout(StreamPurpose::Output, 2, 44_100, f)),
        "output device runs at 44100 Hz; session requested 48000 Hz"
    );
    assert_eq!(listed_sample_format(BackendSample::Other), SampleFormat::F32);
    assert_eq!(capture_sample_format(BackendSample::Other), None);
    assert_eq!(capture_sample_format(BackendSample::I16), Some(SampleFormat::I16));
    assert_eq!(frames_in(961, 2), 480);
    let ids = vec![None, Some("a".to_string()), Some("b".to_string())];
    assert_eq!(find_device(&ids, "b", "input").unwrap(), 2);
    assert_eq!(device_text(find_device(&ids, "c", "input")), "input device not found: c");
}

#[test]
fn wave_devices_are_listed_and_parsed() {
    let mut name = [0u16; 32];
    for (i, u) in wide("Line In").into_iter().enumerate() {
        name[i] = u;
    }
    assert_eq!(pname_to_string(&name), "Line In");
    let caps = vec![
        None,
        Some(WaveInCaps { name, channels: 2, formats: 0x0800 }),
        Some(WaveInCaps { name, channels: 8, formats: 0 }),
    ];
    let devices = list_wave_devices(&caps);
    assert_eq!(devices.len(), 3);
    assert_eq!(devices[0].id, "wave:1");
    assert_eq!(
        devices[0].default_format,
        Some(AudioFormat::new(44_100, 2, SampleFormat::I16))
    );
    assert_eq!(
        devices[1].default_format,
        Some(AudioFormat::new(44_100, 2, SampleFormat::I16))
    );
    assert_eq!(devices[2].id, "wave:mapper");
    assert_eq!(
        default_format_for_caps(1, 0x8000),
        Some(AudioFormat::new(48_000, 1, SampleFormat::I16))
    );
    assert_eq!(default_format_for_caps(1, 0), None);
    assert_eq!(parse_device_id(None).unwrap(), WAVE_MAPPER);
    assert_eq!(parse_device_id(Some("wave:mapper")).unwrap(), WAVE_MAPPER);
    assert_eq!(parse_device_id(Some("wave:7")).unwrap(), 7);
    assert_eq!(device_text(parse_device_id(Some("wave:x"))), "bad wave device id: wave:x");
    assert_eq!(
        device_text(parse_device_id(Some("ds:1"))),
        "expected wave:N or wave:mapper, got ds:1"
    );
}

#[test]
fn wave_in_streams_take_sixteen_bits() {
    let f = AudioFormat::new(44_100, 2, SampleFormat::I16);
    let plan = plan_wave_in(Some("wave:0"), f).unwrap();
    assert_eq!(plan.frames_per_buffer, 2_205);
    assert_eq!(plan.buffer_bytes, 8_820);
    assert_eq!(plan.layout.block_align, 4);
    assert_eq!(
        device_text(plan_wave_in(None, AudioFormat::new(44_100, 2, SampleFormat::F32))),
        "WinMM waveIn path requires I16 session format (use device default from list)"
    );
    assert_eq!(samples_of_bytes(&[0x00, 0x40, 0xff, 0xff, 0x01]), vec![0x4000, -1]);
    let b: AudioBuffer<f32> = wave_in_block(
        AudioFormat::new(44_100, 1, SampleFormat::I16),
        &[0x00, 0x40, 0x00, 0xc0],
        Instant::now(),
        5,
        &Scaled,
    )
    .unwrap();
    assert_eq!(*b.data, vec![0.5, -0.5]);
    let none: Option<AudioBuffer<f32>> =
        wave_in_block(AudioFormat::new(44_100, 2, SampleFormat::I16), &[1, 2, 3], Instant::now(), 0, &Scaled);
    assert!(none.is_none());
}

#[test]
fn directsound_reads_a_ring_in_halves() {
    let f = AudioFormat::new(44_100, 2, SampleFormat::I16);
    let plan = plan_directsound(None, f).unwrap();
    assert_eq!(plan.ring_bytes, 17_640);
    let first = directsound_region(&plan, false);
    let second = directsound_region(&plan, true);
    assert_eq!(first, (0, 8_820));
    assert_eq!(second, (8_820, 8_820));
    assert_eq!(
        on_ring_wait(&plan, false, Some(1)),
        RingStep::Read { offset: 8_820, len: 8_820 }
    );
    assert_eq!(on_ring_wait(&plan, false, Some(0)), RingStep::Read { offset: 0, len: 8_820 });
    assert_eq!(on_ring_wait(&plan, false, Some(2)), RingStep::Wait);
    assert_eq!(on_ring_wait(&plan, false, None), RingStep::Wait);
    assert_eq!(on_ring_wait(&plan, true, Some(0)), RingStep::Stop);
    assert_eq!(on_wave_wait(false, true, true), WaveStep::Take);
    assert_eq!(on_wave_wait(false, true, false), WaveStep::Wait);
    assert_eq!(on_wave_wait(true, true, true), WaveStep::Stop);
    assert_eq!(
        device_text(plan_directsound(None, AudioFormat { channels: 6, ..f })),
        "DirectSound demo supports up to 2 channels"
    );
    assert_eq!(
        device_text(plan_directsound(Some("x"), AudioFormat { channels: 6, ..f })),
        "expected ds:default or ds:{uuid}, got x"
    );
    assert_eq!(
        device_text(plan_directsound(None, AudioFormat::new(5, 1, SampleFormat::I16))),
        "buffer too small"
    );
    assert_eq!(
        device_text(plan_directsound(None, AudioFormat::new(44_100, 2, SampleFormat::F32))),
        "DirectSound capture requires I16 session format (see device defaults)"
    );
}

#[test]
fn directsound_devices_have_unique_ids() {
    let guid = DeviceGuid {
        data1: 0x0123_4567,
        data2: 0x89ab,
        data3: 0xcdef,
        data4: [1, 2, 3, 4, 5, 6, 7, 8],
    };
    let text = "01234567-89ab-cdef-0102-030405060708";
    assert_eq!(format_guid(&guid), text);
    let name = wide("Mic");
    let d = directsound_device(Some(&guid), Some(&name)).unwrap();
    assert_eq!(d.id, format!("ds:{}", text));
    assert_eq!(parse_guid(Some(&d.id)).unwrap().as_deref(), Some(text));
    assert_eq!(parse_guid(Some("ds:default")).unwrap(), None);
    assert_eq!(
        device_text(parse_guid(Some("ds:short"))),
        "expected 36-char GUID after ds:, got short"
    );
    assert_eq!(
        device_text(parse_guid(Some("wave:0"))),
        "expected ds:default or ds:{uuid}, got wave:0"
    );
    assert!(directsound_device(None, None).is_none());
    assert_eq!(directsound_devices(Vec::new())[0].id, "ds:default");
    assert_eq!(pcw_to_string(Some(&wide("a\0b"))), "a");
    assert_eq!(pcw_to_string(Some(&[0xd83d, 0xde00, 0xd800])), "\u{1f600}\u{fffd}");
}

#[test]
fn process_audio_is_described_and_cut() {
    let f = AudioFormat::new(48_000, 2, SampleFormat::F32);
    let w = make_wave_format(f).unwrap();
    assert_eq!(w.format_tag, TAG_FLOAT);
    assert_eq!(w.block_align, 8);
    assert_eq!(w.avg_bytes_per_sec, 384_000);
    assert_eq!(
        device_text(make_wave_format(AudioFormat { channels: 20_000, ..f })),
        "invalid channel count for app-output format"
    );
    let loud = process_packet(f, false, &[0.5f32, 0.25], 1, Instant::now(), 3);
    assert_eq!(*loud.data, vec![0.5, 0.25]);
    let quiet = process_packet::<f32>(f, true, &[], 1, Instant::now(), 3);
    assert_eq!(*quiet.data, vec![0.0, 0.0]);
    let words: AudioBuffer<f32> =
        process_packet_i16(f, false, &[16384, 0], 1, Instant::now(), 0, &Scaled);
    assert_eq!(*words.data, vec![0.5, 0.0]);
}

#[test]
fn activations_are_waited_for() {
    assert!(matches!(on_activation_poll(&ActivationPoll::Client, false), ActivationStep::Use));
    assert!(matches!(
        on_activation_poll(&ActivationPoll::Pending, false),
        ActivationStep::LookAgain
    ));
    match on_activation_poll(&ActivationPoll::Pending, true) {
        ActivationStep::Fail(e) => assert_eq!(
            e.message(),
            "device error: ActivateAudioInterfaceAsync timed out waiting for process-loopback activation"
        ),
        other => panic!("{:?}", other),
    }
    for poll in [
        ActivationPoll::NotAClient("x".into()),
        ActivationPoll::Nothing,
        ActivationPoll::Failed("0x1".into()),
        ActivationPoll::LookFailed("y".into()),
    ] {
        assert!(matches!(on_activation_poll(&poll, false), ActivationStep::Fail(_)));
    }
    assert!(matches!(on_capture_wait(true, &WaitOutcome::Ready), CaptureStep::Stop));
    assert!(matches!(on_capture_wait(false, &WaitOutcome::Ready), CaptureStep::DrainPackets));
    assert!(matches!(on_capture_wait(false, &WaitOutcome::TimedOut), CaptureStep::Wait));
    assert!(matches!(
        on_capture_wait(false, &WaitOutcome::Failed("c".into())),
        CaptureStep::Fail(_)
    ));
    assert!(startup_outcome(Some(Ok(()))).is_ok());
    assert!(startup_outcome(None).is_err());
}
