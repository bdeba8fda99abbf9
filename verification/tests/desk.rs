//! The desk: output files, sources, analyzers, settings and plans.

use std::sync::{Arc, Mutex};
use std::time::Instant;

use recorder::buffer::{AudioBuffer, SampleMap};
use recorder::desk::{
    chain_signature, compute_live_fingerprint, drag_over, empty_rows, ensure_live,
    fingerprints_agree, fx_click, persisted_chain, picked_status, plan_live, plan_recording,
    plan_restore, play_status, recording_status, repaint_delay, restored_status, toggle_pause,
    Channel, FxClick, LivePlan, LiveStep, PersistedSettings, PersistedVstEntry, PluginPickerTarget,
    StripSettings,
};
use recorder::error::RecordingError;
use recorder::format::{AudioFormat, SampleFormat};
use recorder::host_windows::WindowsAudioSystem;
use recorder::local_analyzers::{
    analyzer_order, analyzer_signature, default_local_analyzers, enabled_analyzers,
    plan_analyzers, restore_order,
    restored_analyzers, AnalyzerKind, LocalAnalyzerSelection, VOICE_ACTIVITY_ID,
};
use recorder::mixer::MixMode;
use recorder::outputs::{
    analyzer_status_log_path, marked_output_path, normalize_path, output_infix, OutFormat,
    OutputPlan, Pairing, SourceTag, SpeakerMode, StageTag,
};
use recorder::parakeet::PARAKEET_PLUGIN_ID;
use recorder::paths::PathStyle;
use recorder::ring::{frame_queue, FrameReceiver};
use recorder::labels::{
    analyzer_note, catalog_row, device_label, device_summary, input_label, internal_hint,
    internal_row, live_hint, live_label, mix_panel, picker_row, record_buttons, row_mark,
    scan_line, speaker_hint, speaker_label, strip_row, MixPanel, RowMark, ScanLine,
};
use recorder::setup::{
    mic_parts, speaker_parts, ProcessedTarget, Setup, SetupMove, SetupStep, StreamParts, Undo,
};
use recorder::selection::{clamp_channel, Platform, SourceLists};
use recorder::source::{CaptureSource, CaptureSourceKind, DeviceInfo};
use recorder::strip::{
    buffer_peak, flush_outcome, strip_processors, ChannelMapProcessor, DemoGainProcessor,
    FileAndMainBusSink, Meter, MeterProcessor,
};
use recorder::traits::{AudioProcessor, AudioSink};
use recorder::vst_chain::ChainEntry;
use recorder::vst_scan::{CatalogEntry, Vst3PluginInfo};
use recorder::window::Desk;

struct Limit;

impl SampleMap<f32, f32> for Limit {
    fn apply(&self, gain: f32) -> f32 {
        gain.clamp(0.0, 4.0)
    }
}

#[derive(Clone)]
struct Shown(Arc<Mutex<Vec<f32>>>);

impl Meter<f32> for Shown {
    fn quiet(&self) -> f32 {
        0.0
    }

    fn louder(&self, level: f32, sample: f32) -> f32 {
        level.max(sample.abs())
    }

    fn show(&self, level: f32) {
        self.0.lock().unwrap().push(level);
    }
}

fn source(id: &str, kind: CaptureSourceKind) -> CaptureSource {
    let mut s = CaptureSource::from(DeviceInfo {
        id: id.into(),
        name: id.to_uppercase(),
        default_format: Some(AudioFormat::new(44_100, 1, SampleFormat::I16)),
    });
    s.kind = kind;
    s
}

fn sources() -> Vec<CaptureSource> {
    let mut all = vec![
        source("m1", CaptureSourceKind::Input),
        source("s1", CaptureSourceKind::Loopback),
        source("app", CaptureSourceKind::AppOutput),
        source("m2", CaptureSourceKind::Input),
        source("s2", CaptureSourceKind::Loopback),
    ];
    all[4].default_format = None;
    all
}

fn lists(device: Option<&str>, speaker: Option<&str>) -> SourceLists {
    SourceLists::restored(sources(), &device.map(String::from), &speaker.map(String::from))
}

fn chain(bypassed: bool) -> Vec<ChainEntry<()>> {
    vec![ChainEntry {
        catalog: CatalogEntry::Vst3(Vst3PluginInfo {
            path: "/p/a.vst3".into(),
            name: "A".into(),
            unique_id: "x".into(),
        }),
        loaded: (),
        bypassed,
        editor_feed: false,
    }]
}

#[test]
fn pre_and_post_paths_are_distinct_for_explicit_wav_name() {
    assert_eq!(
        marked_output_path(PathStyle::Slash, "recording.wav", "_pre", OutFormat::Wav),
        "recording_pre.wav"
    );
    assert_eq!(
        marked_output_path(PathStyle::Slash, "recording.wav", "_post", OutFormat::Wav),
        "recording_post.wav"
    );
}

#[test]
fn pre_and_post_paths_are_distinct_when_extension_is_missing() {
    assert_eq!(marked_output_path(PathStyle::Slash, "recording", "_pre", OutFormat::Wav), "recording_pre.wav");
    assert_eq!(marked_output_path(PathStyle::Slash, "recording", "_post", OutFormat::Wav), "recording_post.wav");
}

#[test]
fn output_names_are_completed() {
    assert_eq!(normalize_path(PathStyle::Slash, "  take ", OutFormat::Flac), "take.flac");
    assert_eq!(normalize_path(PathStyle::Slash, "dir.x/take", OutFormat::Mp3), "dir.x/take.mp3");
    assert_eq!(normalize_path(PathStyle::Slash, "take.ogg", OutFormat::Wav), "take.ogg");
    assert_eq!(marked_output_path(PathStyle::Slash, "a/b.flac", "_m", OutFormat::Wav), "a/b_m.flac");
    assert_eq!(marked_output_path(PathStyle::Slash, "", "_m", OutFormat::Wav), "recording_m.wav");
    assert_eq!(OutFormat::default().ext(), "wav");
    assert_eq!(OutFormat::Mp3.label(), "MP3 (needs LAME)");
    assert_eq!(analyzer_status_log_path(), "analyzer-status.log");
}

#[test]
fn marks_name_source_and_stage() {
    let infix = |mic, spk, source, pre, post, stage| output_infix(mic, spk, source, pre, post, stage);
    assert_eq!(infix(true, false, SourceTag::Mic, true, false, StageTag::Pre), "");
    assert_eq!(infix(true, false, SourceTag::Mic, true, true, StageTag::Pre), "_pre");
    assert_eq!(infix(true, true, SourceTag::Mic, true, true, StageTag::Post), "_mic_post");
    assert_eq!(infix(false, true, SourceTag::Speaker, true, false, StageTag::Pre), "_speaker");
}

#[test]
fn planned_files_are_distinct() {
    let plan = |pre, post, pairing| {
        OutputPlan::new(PathStyle::Slash, "take", OutFormat::Wav, pre, post, pairing)
    };
    let both = plan(true, true, Pairing::Mixed);
    assert_eq!(both.ch1_pre.as_deref(), Some("take_ch1_pre.wav"));
    assert_eq!(both.ch2_pre.as_deref(), Some("take_ch2_pre.wav"));
    assert_eq!(both.main_post.as_deref(), Some("take_main_post.wav"));
    assert_eq!(both.last_file().as_deref(), Some("take_main_post.wav"));
    assert_eq!(
        both.stopped_text(Pairing::Mixed),
        "Stopped. Ch1 pre: take_ch1_pre.wav  Ch2 pre: take_ch2_pre.wav  Main post: take_main_post.wav"
    );
    assert!(both.ch2_post.is_none());
    let alone = plan(true, true, Pairing::Alone);
    assert_eq!(alone.ch1_pre.as_deref(), Some("take_pre.wav"));
    assert_eq!(alone.main_post.as_deref(), Some("take_post.wav"));
    assert!(alone.ch2_pre.is_none());
    let pre = plan(true, false, Pairing::Alone);
    assert_eq!(pre.last_file().as_deref(), Some("take.wav"));
    assert_eq!(pre.stopped_text(Pairing::Alone), "Stopped. Pre: take.wav  Post: —");
    let apart = plan(true, true, Pairing::Separate);
    assert_eq!(apart.ch1_pre.as_deref(), Some("take_mic_pre.wav"));
    assert_eq!(apart.main_post.as_deref(), Some("take_mic_post.wav"));
    assert_eq!(apart.ch2_pre.as_deref(), Some("take_speaker_pre.wav"));
    assert_eq!(apart.ch2_post.as_deref(), Some("take_speaker_post.wav"));
    assert_eq!(apart.last_file().as_deref(), Some("take_mic_post.wav"));
    assert_eq!(
        apart.stopped_text(Pairing::Separate),
        "Stopped. Mic pre: take_mic_pre.wav  Mic post: take_mic_post.wav  \
         Speaker pre: take_speaker_pre.wav  Speaker post: take_speaker_post.wav"
    );
    let post = plan(false, true, Pairing::Separate);
    assert_eq!(post.main_post.as_deref(), Some("take_mic.wav"));
    assert_eq!(post.ch2_post.as_deref(), Some("take_speaker.wav"));
    assert!(post.ch1_pre.is_none() && post.ch2_pre.is_none());
}

#[test]
fn files_are_named_in_the_style_of_the_platform() {
    let windows = |p: &str, infix: &str| {
        marked_output_path(PathStyle::Windows, p, infix, OutFormat::Wav)
    };
    assert_eq!(
        normalize_path(PathStyle::Windows, r"C:\my.takes\take", OutFormat::Wav),
        r"C:\my.takes\take.wav"
    );
    assert_eq!(windows(r"C:\my.takes\take", "_pre"), r"C:\my.takes\take_pre.wav");
    assert_eq!(windows("C:take.flac", "_pre"), "C:take_pre.flac");
    assert_eq!(windows(r"C:\take", "_pre"), r"C:\take_pre.wav");
    assert_eq!(windows("a/b.flac", "_pre"), r"a\b_pre.flac");
    assert_eq!(windows(r"\\host\share\take", "_pre"), r"\\host\share\take_pre.wav");
    assert_eq!(windows("C:", "_pre"), "C:recording_pre.wav");
    assert_eq!(
        normalize_path(PathStyle::Slash, r"my.takes\take", OutFormat::Wav),
        r"my.takes\take"
    );
    let wasapi = Platform::Windows(WindowsAudioSystem::Wasapi);
    assert_eq!(wasapi.path_style(), PathStyle::Windows);
    assert_eq!(Platform::Macos.path_style(), PathStyle::Slash);
    let plan = plan_recording(
        &lists(Some("m2"), None),
        wasapi,
        SpeakerMode::Off,
        true,
        true,
        r"D:\my.takes\take",
        OutFormat::Wav,
    )
    .unwrap();
    assert_eq!(plan.outputs.ch1_pre.as_deref(), Some(r"D:\my.takes\take_pre.wav"));
}

#[test]
fn speaker_modes_are_restored() {
    assert_eq!(SpeakerMode::restored(None, true), SpeakerMode::Separate);
    assert_eq!(SpeakerMode::restored(None, false), SpeakerMode::Off);
    assert_eq!(SpeakerMode::restored(Some(SpeakerMode::Separate), false), SpeakerMode::Separate);
    assert_eq!(SpeakerMode::restored(Some(SpeakerMode::Off), true), SpeakerMode::Off);
    assert_eq!(SpeakerMode::Separate.after_pick(), SpeakerMode::Separate);
    assert_eq!(SpeakerMode::Separate.pairing(true), Pairing::Separate);
    assert_eq!(SpeakerMode::StereoSplit.pairing(true), Pairing::Mixed);
    assert_eq!(SpeakerMode::Off.pairing(true), Pairing::Alone);
    assert_eq!(SpeakerMode::Mixed.pairing(false), Pairing::Alone);
    assert_eq!(SpeakerMode::StereoSplit.after_pick(), SpeakerMode::StereoSplit);
    assert_eq!(SpeakerMode::Off.after_pick(), SpeakerMode::Mixed);
    assert_eq!(SpeakerMode::StereoSplit.mix_mode(), MixMode::SplitStereo);
    assert!(!SpeakerMode::default().is_active());
    assert!(SpeakerMode::Mixed.uses_mixer());
    assert!(!SpeakerMode::Separate.uses_mixer());
    assert_eq!(SpeakerMode::StereoSplit.label(), "Stereo split (mic L / speaker R)");
}

#[test]
fn picked_sources_survive_a_refresh() {
    let mut l = lists(Some("m2"), Some("s2"));
    assert_eq!((l.device_index, l.speaker_index), (Some(1), Some(1)));
    assert_eq!(l.selected_speaker_id().as_deref(), Some("s2"));
    let mut fewer = sources();
    fewer.remove(3);
    fewer.remove(1);
    let status = l.refresh(Ok(fewer));
    assert_eq!(status, "Found 1 input device(s) and 1 loopback source(s).");
    assert_eq!((l.device_index, l.speaker_index), (Some(0), Some(0)));
    assert_eq!(l.refresh(Err("no".into())), "Device list error: no");
    assert_eq!((l.device_index, l.speaker_index), (None, None));
    l.refresh(Ok(sources()));
    assert_eq!((l.device_index, l.speaker_index), (Some(0), None));
    assert_eq!(lists(Some("gone"), Some("gone")).device_index, Some(0));
}

#[test]
fn speakers_take_part_where_they_can() {
    let l = lists(None, Some("s2"));
    assert!(l.ch2_selected());
    let wasapi = Platform::Windows(WindowsAudioSystem::Wasapi);
    let asio = Platform::Windows(WindowsAudioSystem::Asio);
    assert_eq!(
        l.selected_loopback_pair(wasapi),
        Some((1, AudioFormat::new(48_000, 2, SampleFormat::F32)))
    );
    assert_eq!(l.selected_loopback_pair(asio), None);
    assert!(l.loopback_supported(Platform::Linux));
    assert_eq!(
        asio.loopback_unavailable_hint(),
        "Loopback capture requires the WASAPI audio system."
    );
    assert_eq!(l.selected_device_channel_count(), 1);
    assert_eq!(l.selected_speaker_channel_count(), 1);
    assert_eq!(clamp_channel(5, 2), 1);
    assert_eq!(clamp_channel(1, 2), 1);
}

#[test]
fn recordings_are_planned() {
    let plan = plan_recording(
        &lists(Some("m2"), Some("s1")),
        Platform::Linux,
        SpeakerMode::StereoSplit,
        true,
        false,
        "take",
        OutFormat::Wav,
    )
    .unwrap();
    assert_eq!(plan.device, 1);
    assert_eq!(plan.format, AudioFormat::new(44_100, 1, SampleFormat::I16));
    assert_eq!(plan.speaker.map(|s| s.0), Some(0));
    assert_eq!(plan.mix.map(|m| m.mode), Some(MixMode::SplitStereo));
    assert_eq!(plan.outputs.ch2_pre.as_deref(), Some("take_ch2_pre.wav"));
    let with_mode = |mode| {
        plan_recording(
            &lists(Some("m2"), Some("s1")),
            Platform::Linux,
            mode,
            true,
            true,
            "take.wav",
            OutFormat::Wav,
        )
        .unwrap()
    };
    let off = with_mode(SpeakerMode::Off);
    assert_eq!(off.pairing, Pairing::Alone);
    assert!(off.speaker.is_none() && off.mix.is_none());
    assert_eq!(off.outputs.ch1_pre.as_deref(), Some("take_pre.wav"));
    assert_eq!(off.outputs.main_post.as_deref(), Some("take_post.wav"));
    assert!(off.outputs.ch2_pre.is_none() && off.outputs.ch2_post.is_none());
    let apart = with_mode(SpeakerMode::Separate);
    assert_eq!(apart.pairing, Pairing::Separate);
    assert_eq!(apart.speaker.map(|s| s.0), Some(0));
    assert!(apart.mix.is_none());
    assert_eq!(apart.outputs.ch1_pre.as_deref(), Some("take_mic_pre.wav"));
    assert_eq!(apart.outputs.ch2_post.as_deref(), Some("take_speaker_post.wav"));
    let mixed = with_mode(SpeakerMode::Mixed);
    assert_eq!(mixed.mix.map(|m| m.mode), Some(MixMode::SumStereo));
    let refused = |l: SourceLists, pre| {
        plan_recording(&l, Platform::Linux, SpeakerMode::Mixed, pre, false, "t", OutFormat::Wav)
            .err()
            .unwrap_or("")
    };
    assert_eq!(
        refused(lists(None, None), false),
        "Enable at least one of “Record pre” or “Record post”."
    );
    let mut empty = lists(None, None);
    empty.refresh(Ok(Vec::new()));
    assert_eq!(refused(empty, true), "Select an input device.");
}

#[test]
fn live_input_is_planned() {
    let l = lists(None, Some("s1"));
    assert!(matches!(
        plan_live(&l, Platform::Linux, SpeakerMode::Mixed, false, true),
        LivePlan::Mixed { device: 0, speaker: 0, .. }
    ));
    assert!(matches!(
        plan_live(&l, Platform::Linux, SpeakerMode::Off, false, true),
        LivePlan::Alone { device: 0, .. }
    ));
    assert!(matches!(
        plan_live(&l, Platform::Linux, SpeakerMode::Separate, false, true),
        LivePlan::Mixed { device: 0, speaker: 0, .. }
    ));
    assert!(matches!(
        plan_live(&lists(None, None), Platform::Linux, SpeakerMode::Mixed, false, true),
        LivePlan::Alone { device: 0, .. }
    ));
    assert!(matches!(
        plan_live(&l, Platform::Linux, SpeakerMode::Mixed, false, false),
        LivePlan::Idle { quiet_meters: true }
    ));
    assert!(matches!(
        plan_live(&l, Platform::Linux, SpeakerMode::Mixed, true, true),
        LivePlan::Idle { quiet_meters: false }
    ));
    assert_eq!(ensure_live(false, true, Some(0), Some(true)), LiveStep::Keep);
    assert_eq!(ensure_live(false, true, Some(0), Some(false)), LiveStep::Restart);
    assert_eq!(ensure_live(false, true, Some(0), None), LiveStep::Restart);
    assert_eq!(ensure_live(false, true, None, Some(true)), LiveStep::Stop);
    assert_eq!(ensure_live(true, true, Some(0), Some(true)), LiveStep::Stop);
}

#[test]
fn fingerprints_tell_setups_apart() {
    let l = lists(None, Some("s1"));
    let strip = StripSettings { gain: 1.0f32, input_channel: 0 };
    let print = |mode, channel| {
        compute_live_fingerprint(
            &l,
            Platform::Linux,
            0,
            StripSettings { input_channel: channel, ..strip },
            strip,
            mode,
            true,
            &restored_analyzers(&Vec::new(), &vec![PARAKEET_PLUGIN_ID.to_string()]),
            "p".into(),
            chain_signature(&chain(false)),
            String::new(),
        )
    };
    let a = print(SpeakerMode::Mixed, 0);
    assert_eq!(a.ch1_device, "m1");
    assert_eq!(a.local_analyzer_sig, PARAKEET_PLUGIN_ID);
    assert_eq!(a.vst_ch1_sig, "/p/a.vst3");
    assert!(fingerprints_agree(&a, &print(SpeakerMode::Mixed, 0), true));
    assert!(!fingerprints_agree(&a, &print(SpeakerMode::Mixed, 0), false));
    assert!(!fingerprints_agree(&a, &print(SpeakerMode::Off, 0), true));
    assert!(!fingerprints_agree(&a, &print(SpeakerMode::Mixed, 1), true));
}

#[test]
fn analyzers_are_ordered_and_switched() {
    let order = vec![PARAKEET_PLUGIN_ID.to_string(), "gone".to_string()];
    let mut a = restored_analyzers(&order, &vec![VOICE_ACTIVITY_ID.to_string()]);
    assert_eq!(analyzer_order(&a), vec![PARAKEET_PLUGIN_ID, VOICE_ACTIVITY_ID]);
    assert_eq!(enabled_analyzers(&a), vec![VOICE_ACTIVITY_ID]);
    assert_eq!(plan_analyzers(&a).unwrap(), vec![AnalyzerKind::VoiceActivity]);
    a[0].enabled = true;
    assert_eq!(
        analyzer_signature(&a),
        format!("{},{}", PARAKEET_PLUGIN_ID, VOICE_ACTIVITY_ID)
    );
    a.push(LocalAnalyzerSelection {
        id: "odd".into(),
        name: "Odd".into(),
        description: String::new(),
        enabled: true,
    });
    assert_eq!(plan_analyzers(&a).unwrap_err(), "unknown local analyzer plugin: odd");
    let ids: Vec<String> =
        restore_order(a, &vec!["odd".to_string()]).iter().map(|x| x.id.clone()).collect();
    assert_eq!(ids, vec!["odd", PARAKEET_PLUGIN_ID, VOICE_ACTIVITY_ID]);
}

#[test]
fn saved_chains_are_restored() {
    let saved = persisted_chain(&chain(true));
    assert_eq!(saved[0].format, "VST3");
    let catalog: Vec<CatalogEntry> = chain(false).into_iter().map(|e| e.catalog).collect();
    assert_eq!(plan_restore(&catalog, &saved), vec![(0, true)]);
    let other = vec![PersistedVstEntry { format: "VST2".into(), ..saved[0].clone() }];
    assert!(plan_restore(&catalog, &other).is_empty());
    assert_eq!(restored_status(Channel::One, 0, 0, 0), None);
    assert_eq!(
        restored_status(Channel::One, 1, 1, 1).as_deref(),
        Some("Restored 1 saved VST plugin(s).")
    );
    assert_eq!(
        restored_status(Channel::Two, 2, 1, 2).as_deref(),
        Some("Restored 2 channel-2 VST plugin(s).")
    );
    assert_eq!(
        restored_status(Channel::One, 1, 1, 0).as_deref(),
        Some("Saved VST chain did not match the current scan results.")
    );
    assert_eq!(restored_status(Channel::Two, 1, 1, 0), None);
    assert_eq!(
        restored_status(Channel::Two, 1, 0, 0).as_deref(),
        Some("Saved VST chain (Ch2) could not be restored: no plugins found.")
    );
}

#[test]
fn a_saved_desk_comes_back() {
    let mut saved: PersistedSettings<f32, u8> = PersistedSettings::first_run(1.0);
    assert_eq!(saved.path, "recording");
    saved.channel_gain = 9.0;
    saved.selected_device_id = Some("m2".into());
    saved.local_analyzer_order = vec![PARAKEET_PLUGIN_ID.to_string()];
    saved.enabled_analyzers = vec![PARAKEET_PLUGIN_ID.to_string()];
    let mut desk = Desk::restored(&Limit, saved, sources(), 7);
    assert_eq!(desk.ch1.gain, 4.0);
    assert_eq!(desk.parakeet, 7);
    assert_eq!(desk.status, "Ready.");
    desk.pick_speaker(Some(1));
    assert_eq!(desk.speaker_mode, SpeakerMode::Mixed);
    desk.speaker_mode = SpeakerMode::Separate;
    desk.path = "take".into();
    let kept = desk.persisted_settings(Vec::new(), Vec::new(), 8);
    let again = Desk::restored(&Limit, kept, sources(), 0);
    assert_eq!(again.path, "take");
    assert_eq!(again.speaker_mode, SpeakerMode::Separate);
    assert_eq!(again.parakeet, 8);
    assert_eq!(again.lists.selected_device_id().as_deref(), Some("m2"));
    assert_eq!(again.lists.selected_speaker_id().as_deref(), Some("s2"));
    assert_eq!(analyzer_order(&again.analyzers), analyzer_order(&desk.analyzers));
    assert_eq!(enabled_analyzers(&again.analyzers), vec![PARAKEET_PLUGIN_ID]);
}

#[test]
fn analyzers_of_the_desk_are_changed() {
    let mut desk = Desk::restored(
        &Limit,
        PersistedSettings::<f32, u8>::first_run(1.0),
        sources(),
        0,
    );
    assert!(desk.add_internal(0));
    assert_eq!(desk.status, "Added internal plugin: Voice activity");
    assert!(!desk.open_properties(0));
    assert_eq!(desk.status, "Voice activity has no properties panel (only Parakeet does today).");
    assert!(desk.open_properties(1));
    assert!(desk.move_internal(0, 1));
    assert!(!desk.move_internal(0, 9));
    assert!(desk.analyzers[1].enabled);
    assert!(desk.remove_internal(1));
    assert!(!desk.remove_internal(7));
    desk.apply_parakeet(3);
    assert_eq!(desk.status, "Parakeet settings applied.");
}

/// Takes `n` steps and fails at the next one.
fn fail_at(mut setup: Setup, n: usize) -> (String, Undo, bool) {
    for _ in 0..n {
        assert!(matches!(setup.report(Ok(())), SetupMove::Next(_)));
    }
    match setup.report(Err("no".to_string())) {
        SetupMove::GiveUp { status, undo, restart_live } => (status, undo, restart_live),
        other => panic!("{other:?}"),
    }
}

#[test]
fn failures_say_what_has_to_be_undone() {
    assert_eq!(SetupStep::LiveSpeaker.failure("no"), "Live speaker stream failed: no");
    let nothing = Undo { first_capture: false, mixer: false, analyzer: false };
    assert_eq!(
        fail_at(Setup::recording(Pairing::Alone, true, true), 4),
        ("Mic start failed: no".to_string(), nothing, true)
    );
    assert_eq!(
        fail_at(Setup::recording(Pairing::Mixed, true, true), 6),
        (
            "Could not open main post output: no".to_string(),
            Undo { first_capture: false, mixer: false, analyzer: true },
            true
        )
    );
    assert_eq!(
        fail_at(Setup::recording(Pairing::Mixed, false, false), 6),
        (
            "Speaker start failed: no".to_string(),
            Undo { first_capture: true, mixer: true, analyzer: true },
            true
        )
    );
    assert_eq!(
        fail_at(Setup::live(true), 5),
        (
            "Live mic stream failed: no".to_string(),
            Undo { first_capture: false, mixer: true, analyzer: true },
            false
        )
    );
    assert_eq!(fail_at(Setup::live(false), 0).0, "Live input setup failed: no");
    assert_eq!(
        fail_at(Setup::recording(Pairing::Separate, true, true), 6),
        ("Could not open channel 2 post output: no".to_string(), nothing, true)
    );
    assert_eq!(
        fail_at(Setup::recording(Pairing::Separate, true, true), 8),
        (
            "Speaker start failed: no".to_string(),
            Undo { first_capture: true, mixer: false, analyzer: false },
            true
        )
    );
}

#[test]
fn steps_come_in_order() {
    let mut setup = Setup::recording(Pairing::Mixed, true, true);
    let mut steps = vec![setup.step()];
    loop {
        match setup.report(Ok(())) {
            SetupMove::Next(step) => steps.push(step),
            SetupMove::Ready => break,
            SetupMove::GiveUp { .. } => unreachable!(),
        }
    }
    assert_eq!(
        steps,
        vec![
            SetupStep::Ch1Processors,
            SetupStep::Ch2Processors,
            SetupStep::Analyzers,
            SetupStep::Ch1PreFile,
            SetupStep::Ch2PreFile,
            SetupStep::MainAnalyzer,
            SetupStep::MainFile,
            SetupStep::Mixer,
            SetupStep::Mic,
            SetupStep::Speaker,
        ]
    );
    assert_eq!(
        Setup::recording(Pairing::Alone, false, true).steps,
        vec![
            SetupStep::Ch1Processors,
            SetupStep::Analyzers,
            SetupStep::PostFile,
            SetupStep::Mic,
        ]
    );
    assert_eq!(
        Setup::recording(Pairing::Separate, false, true).steps,
        vec![
            SetupStep::Ch1Processors,
            SetupStep::Ch2Processors,
            SetupStep::Analyzers,
            SetupStep::PostFile,
            SetupStep::Ch2PostFile,
            SetupStep::Mic,
            SetupStep::Speaker,
        ]
    );
    assert_eq!(
        Setup::live(false).steps,
        vec![SetupStep::LiveInput, SetupStep::Analyzers, SetupStep::LiveStream]
    );
}

#[test]
fn streams_are_wired_by_the_setup() {
    assert_eq!(
        mic_parts(false, Pairing::Alone, true, true),
        StreamParts {
            raw_file: true,
            processed: ProcessedTarget::File,
            analyzers: true,
            pausable: true,
        }
    );
    assert_eq!(
        mic_parts(true, Pairing::Mixed, true, true),
        StreamParts {
            raw_file: false,
            processed: ProcessedTarget::MixerLeg,
            analyzers: false,
            pausable: false,
        }
    );
    assert_eq!(
        mic_parts(true, Pairing::Alone, true, true).processed,
        ProcessedTarget::Nothing
    );
    assert!(mic_parts(false, Pairing::Separate, true, true).analyzers);
    let speaker = speaker_parts(false, Pairing::Separate, true, true);
    assert_eq!(speaker.processed, ProcessedTarget::File);
    assert!(speaker.raw_file && !speaker.analyzers);
    let speaker = speaker_parts(true, Pairing::Mixed, true, true);
    assert_eq!(speaker.processed, ProcessedTarget::MixerLeg);
    assert!(!speaker.pausable);
}

#[test]
fn the_window_says_what_is_picked() {
    let format = AudioFormat::new(44_100, 2, SampleFormat::F32);
    let mut lists = SourceLists {
        devices: vec![DeviceInfo {
            id: "a".to_string(),
            name: "Mic A".to_string(),
            default_format: Some(format),
        }],
        device_index: Some(0),
        speaker_sources: vec![CaptureSource {
            id: "s".to_string(),
            name: "Speakers".to_string(),
            default_format: None,
            kind: CaptureSourceKind::Loopback,
            app: None,
        }],
        speaker_index: Some(0),
    };
    assert_eq!(
        device_summary(&lists).unwrap(),
        "Selected source: Mic A (44100 Hz, 2 ch, F32)"
    );
    assert_eq!(device_label(&lists), "Mic A");
    assert_eq!(speaker_label(&lists), "Speakers");
    assert_eq!(mix_panel(&lists, Platform::Linux), MixPanel::Choices);
    assert_eq!(
        mix_panel(&lists, Platform::Windows(WindowsAudioSystem::WaveOut)),
        MixPanel::Hint
    );
    assert_eq!(
        live_hint(&lists, Platform::Linux, SpeakerMode::Mixed),
        "With Ch2: analyzers see the mixed Main bus."
    );
    assert_eq!(
        live_hint(&lists, Platform::Linux, SpeakerMode::Off),
        "Ch2 off: analyzers follow the mic path only."
    );
    assert_eq!(
        speaker_hint(&lists, Platform::Linux),
        "Captures system playback. Analyzers use Main (Ch1+Ch2) when live."
    );
    lists.speaker_index = None;
    assert_eq!(mix_panel(&lists, Platform::Linux), MixPanel::Nothing);
    assert_eq!(speaker_label(&lists), "(off — pick to enable Ch2)");
    lists.device_index = None;
    assert_eq!(device_summary(&lists).unwrap(), "No input source selected.");
    assert_eq!(device_label(&lists), "(none)");
    lists.device_index = Some(7);
    assert!(device_summary(&lists).is_none());
    assert_eq!(input_label(1), "Input 2");
    assert_eq!(live_label(true), "LIVE");
}

#[test]
fn rows_and_buttons_follow_the_state() {
    let plugin = CatalogEntry::Vst3(Vst3PluginInfo {
        path: "/p/eq.vst3".to_string(),
        name: "EQ".to_string(),
        unique_id: "x".to_string(),
    });
    assert_eq!(strip_row(&plugin), "VST3 EQ");
    assert_eq!(catalog_row(&plugin), "[VST3] EQ");
    assert_eq!(row_mark(true, true), RowMark::Bypassed);
    assert_eq!(row_mark(false, true), RowMark::EditorOpen);
    assert_eq!(row_mark(false, false), RowMark::Plain);
    let analyzers = default_local_analyzers();
    assert_eq!(internal_row(&analyzers[0]), "INT Voice activity");
    assert_eq!(internal_hint(&analyzers[0]), "Alt+click: remove");
    assert!(internal_hint(&analyzers[1]).starts_with("Click: Parakeet settings"));
    assert_eq!(picker_row(&analyzers[0]), "Voice activity");
    let idle = record_buttons(None, true);
    assert!(idle.record && !idle.pause && !idle.stop && idle.play && !idle.speaker_banner);
    assert_eq!(idle.pause_label, "Pause");
    let busy = record_buttons(Some((true, true)), false);
    assert!(!busy.record && busy.pause && busy.stop && !busy.play && busy.speaker_banner);
    assert_eq!(busy.pause_label, "Resume");
    assert!(analyzer_note(false, true).starts_with("No internal"));
    assert!(analyzer_note(true, true).starts_with("Analyzer stream is active"));
    assert!(analyzer_note(true, false).starts_with("Analyzer selected"));
    assert!(matches!(scan_line(Some("bad"), Some("ok"), "none"), ScanLine::Error("bad")));
    assert!(matches!(scan_line(None, Some("ok"), "none"), ScanLine::Text("ok")));
    assert!(matches!(scan_line(None, None, "none"), ScanLine::Text("none")));
}

#[test]
fn messages_follow_what_happens() {
    assert_eq!(toggle_pause(false), (true, "Paused (audio not written)."));
    assert_eq!(toggle_pause(true), (false, "Recording…"));
    assert!(recording_status(true).starts_with("Recording channel 1 + channel 2"));
    assert_eq!(play_status(None, true).unwrap_err(), "No file to play yet.");
    assert_eq!(play_status(Some("a"), false).unwrap_err(), "Missing file: a");
    assert_eq!(play_status(Some("a"), true).unwrap(), "Playing a …");
    assert_eq!(picked_status(Channel::Two, &Err("no".into())), "Add plugin (Ch2): no");
    assert_eq!(picked_status(Channel::One, &Ok(())), "Plugin added to channel 1.");
    assert_eq!(PluginPickerTarget::default().title(), "Add internal plugin");
}

#[test]
fn clicks_and_drags_act_on_plugins() {
    assert_eq!(fx_click(true, true), FxClick::Remove);
    assert_eq!(fx_click(false, true), FxClick::ToggleBypass);
    assert_eq!(fx_click(false, false), FxClick::ToggleEditor);
    assert_eq!(drag_over(Some(1), 2, true), Some((1, 2)));
    assert_eq!(drag_over(Some(2), 2, true), None);
    assert_eq!(drag_over(Some(1), 2, false), None);
    assert_eq!(drag_over(None, 2, true), None);
    assert_eq!((empty_rows(0), empty_rows(5), empty_rows(9)), (6, 1, 1));
    assert_eq!(repaint_delay(true, true), 0);
    assert_eq!(repaint_delay(false, true), 33);
    assert_eq!(repaint_delay(false, false), 250);
}

fn block(channels: u16, samples: &[f32]) -> AudioBuffer<f32> {
    let frames = samples.len() / channels as usize;
    AudioBuffer::new(
        AudioFormat::new(48_000, channels, SampleFormat::F32),
        Arc::new(samples.to_vec()),
        frames,
        Instant::now(),
        5,
    )
}

#[test]
fn one_channel_goes_on_all_channels() {
    let input = block(2, &[0.1, 0.2, 0.3, 0.4]);
    let mut output = block(1, &[]);
    ChannelMapProcessor::new(1).process(&input, &mut output).unwrap();
    assert_eq!(*output.data, vec![0.2, 0.2, 0.4, 0.4]);
    ChannelMapProcessor::new(9).process(&input, &mut output).unwrap();
    assert_eq!(*output.data, vec![0.2, 0.2, 0.4, 0.4]);
    ChannelMapProcessor::new(0).process(&input, &mut output).unwrap();
    assert_eq!(*output.data, vec![0.1, 0.2, 0.3, 0.4]);
    assert_eq!(ChannelMapProcessor::new(0).label(), "channel-map");
    let boxed: Box<dyn AudioProcessor<f32>> = Box::new(ChannelMapProcessor::new(0));
    assert_eq!(boxed.name(), "channel-map");
}

#[test]
fn meters_show_the_peak() {
    let shown = Shown(Arc::new(Mutex::new(Vec::new())));
    let input = block(1, &[0.1, -0.75, 0.3]);
    assert_eq!(buffer_peak(&shown, &input), 0.75);
    let mut output = block(1, &[]);
    MeterProcessor::new(shown.clone()).process(&input, &mut output).unwrap();
    assert_eq!(*output.data, *input.data);
    DemoGainProcessor::new(Limit).process(&input, &mut output).unwrap();
    assert_eq!(*output.data, vec![0.1, 0.0, 0.3]);
    let (tx, rx): (_, FrameReceiver<f32>) = frame_queue(1);
    let mut sink = FileAndMainBusSink { file: None, bus_tx: tx, meter: shown.clone() };
    sink.write_pcm_f32(&input).unwrap();
    sink.write_pcm_f32(&input).unwrap();
    sink.flush().unwrap();
    assert_eq!(rx.inner.len(), 1);
    assert_eq!(*shown.0.lock().unwrap(), vec![0.75, 0.75, 0.75]);
    assert_eq!(strip_processors(1, 2, Some(3), vec![4, 5]), vec![1, 2, 3, 4, 5]);
    assert_eq!(strip_processors(1, 2, None, vec![4]), vec![1, 2, 4]);
}

struct FullDisk;

impl AudioSink<f32> for FullDisk {
    fn write_pcm_f32(&mut self, _buffer: &AudioBuffer<f32>) -> Result<(), RecordingError> {
        Ok(())
    }

    fn flush(&mut self) -> Result<(), RecordingError> {
        Err(RecordingError::Io("no room".to_string()))
    }
}

#[test]
fn the_main_bus_says_what_its_file_says() {
    let shown = Shown(Arc::new(Mutex::new(Vec::new())));
    let (tx, _rx): (_, FrameReceiver<f32>) = frame_queue(1);
    let mut sink = FileAndMainBusSink { file: Some(Box::new(FullDisk)), bus_tx: tx, meter: shown };
    match sink.flush() {
        Err(RecordingError::Io(text)) => assert_eq!(text, "no room"),
        _ => panic!("the file could not be finished"),
    }
    assert!(flush_outcome(None).is_ok());
    assert!(flush_outcome(Some(Ok(()))).is_ok());
    let stopped = flush_outcome(Some(Err(RecordingError::AlreadyStopped)));
    assert!(matches!(stopped, Err(RecordingError::AlreadyStopped)));
}
