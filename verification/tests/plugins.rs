//! Effect plugins: scanning, the chain of a strip, editors and processing.

use std::sync::Arc;
use std::time::Instant;

use recorder::buffer::AudioBuffer;
use recorder::error::RecordingError;
use recorder::format::{AudioFormat, SampleFormat};
use recorder::ring::frame_queue;
use recorder::sorting::{sort_keyed, Keyed};
use recorder::traits::AudioProcessor;
use recorder::vst::{
    effect_block, input_planes, max_block_for_sample_rate, plane_count, read_back, reinit_vst2,
    vst2_restart_calls, vst2_start_calls, PlanarPlugin, PlaneMath, PluginFailure, PluginFormat,
    Vst2AudioProcessor, Vst2Call, Vst3AudioProcessor,
};
use recorder::vst_chain::{
    editor_title, into_items, needs_reload, reload_error, EditorStep, VstUiState,
};
use recorder::vst_editor::{
    bundle_format, editor_extent, editor_fallback, editor_planes, find_binary, find_vst3_unique_id,
    mac_editor_size, needs_resize, parse_class_id, BundleFile, ScannedBundle,
};
use recorder::vst_scan::{
    build_catalog, count_entries, is_vst2_candidate, mac_search_roots, merge_new, vst2_info,
    windows_search_roots, CatalogEntry, FolderEntry, Scan, ScanReport, ScanWalk, Vst2PluginInfo,
    Vst3PluginInfo,
};

struct Floats;

impl PlaneMath<f32> for Floats {
    fn middle(&self, left: f32, right: f32) -> f32 {
        (left + right) * 0.5
    }

    fn peak_bits(&self, samples: &Vec<f32>) -> u64 {
        samples.iter().fold(0.0f32, |max, s| max.max(s.abs())).to_bits() as u64
    }
}

/// Halves what it hears, or fails, or cannot be locked.
struct Halver {
    fail: bool,
    locked: bool,
    restarts: std::cell::Cell<u32>,
}

impl PlanarPlugin<f32> for Halver {
    fn run(
        &self,
        inputs: &Vec<Vec<f32>>,
        mut outputs: Vec<Vec<f32>>,
        frames: usize,
    ) -> Result<Vec<Vec<f32>>, PluginFailure> {
        if self.locked {
            return Err(PluginFailure { reached: false, why: "poisoned".to_string() });
        }
        if self.fail {
            return Err(PluginFailure { reached: true, why: "broken".to_string() });
        }
        for (i, out) in outputs.iter_mut().enumerate() {
            for f in 0..frames {
                out[f] = if i < inputs.len() { inputs[i][f] * 0.5 } else { 0.0 };
            }
        }
        Ok(outputs)
    }

    fn restart(&self) {
        self.restarts.set(self.restarts.get() + 1);
    }
}

fn stereo(samples: &[f32]) -> AudioBuffer<f32> {
    AudioBuffer::new(
        AudioFormat::new(48_000, 2, SampleFormat::F32),
        Arc::new(samples.to_vec()),
        samples.len() / 2,
        Instant::now(),
        7,
    )
}

fn vst3(name: &str, path: &str) -> Vst3PluginInfo {
    Vst3PluginInfo { path: path.into(), name: name.into(), unique_id: format!("{}-id", name) }
}

fn vst2(name: &str, path: &str, id: i32) -> Vst2PluginInfo {
    Vst2PluginInfo {
        path: path.into(),
        name: name.into(),
        vendor: "v".into(),
        unique_id: id,
        inputs: 2,
        outputs: 2,
    }
}

fn folder(path: &str) -> FolderEntry {
    FolderEntry { path: path.into(), is_dir: true, is_file: false }
}

fn file(path: &str) -> FolderEntry {
    FolderEntry { path: path.into(), is_dir: false, is_file: true }
}

#[test]
fn blocks_go_through_planes_and_back() {
    let planes = input_planes(&vec![1.0f32, 2.0, 3.0, 4.0], true, 2, 3, 0.0);
    assert_eq!(planes, vec![vec![1.0, 3.0], vec![2.0, 4.0], vec![0.0, 0.0]]);
    assert_eq!(read_back(&Floats, &planes, 2, true, 2, 0.0), vec![1.0, 2.0, 3.0, 4.0]);
    assert_eq!(read_back(&Floats, &planes, 2, false, 2, 0.0), vec![1.5, 3.5]);
    let mono = input_planes(&vec![1.0f32, 2.0], false, 2, 2, 0.0);
    assert_eq!(mono, vec![vec![1.0, 2.0], vec![1.0, 2.0]]);
    let input = stereo(&[0.1, 0.2]);
    let out = effect_block(&Floats, &input, &vec![vec![0.5], vec![0.6]], 2, 0.0);
    assert_eq!(*out.data, vec![0.5, 0.6]);
    assert_eq!(out.frame_index, 7);
}

#[test]
fn vst3_blocks_are_processed_and_shown_to_the_editor() {
    let (tx, rx) = frame_queue(2);
    let mut p = Vst3AudioProcessor::new(
        Halver { fail: false, locked: false, restarts: std::cell::Cell::new(0) },
        Floats,
        "VST3".to_string(),
        64,
        0.0,
        Some(tx),
    );
    let input = stereo(&[0.5, 1.0]);
    let mut output = AudioBuffer::silent(input.format, 1, input.captured_at, 0);
    p.process(&input, &mut output).unwrap();
    assert_eq!(*output.data, vec![0.25, 0.5]);
    assert_eq!(rx.inner.len(), 1);
    p.plugin.fail = true;
    assert!(matches!(p.process(&input, &mut output), Err(RecordingError::Plugin(_))));
    p.reset();
    assert_eq!(p.plugin.restarts.get(), 1);
}

#[test]
fn vst2_counts_what_it_does() {
    let mut p = Vst2AudioProcessor::new(
        Halver { fail: false, locked: false, restarts: std::cell::Cell::new(0) },
        Floats,
        "VST2".to_string(),
        4,
        2,
        2,
        0.0,
    );
    let input = stereo(&[0.5, -1.0]);
    let mut output = AudioBuffer::silent(input.format, 1, input.captured_at, 0);
    p.process(&input, &mut output).unwrap();
    assert_eq!(*output.data, vec![0.25, -0.5]);
    assert_eq!(p.diag.processed, 1);
    assert_eq!(p.diag.last_peak_bits, 1.0f32.to_bits() as u64);
    let long = stereo(&[0.0; 20]);
    let mut output = AudioBuffer::silent(long.format, 10, long.captured_at, 0);
    assert!(p.process(&long, &mut output).is_err());
    assert_eq!(p.diag.errored, 1);
    p.plugin.locked = true;
    let mut output = AudioBuffer::silent(input.format, 1, input.captured_at, 0);
    match p.process(&input, &mut output) {
        Err(RecordingError::Plugin(text)) => assert!(text.contains("poisoned")),
        other => panic!("{:?}", other),
    }
    assert_eq!((p.diag.processed, p.diag.errored), (1, 2));
    assert_eq!(plane_count(-1), 0);
}

#[test]
fn plugins_are_set_up_for_a_rate() {
    assert_eq!(max_block_for_sample_rate(48_000), 14_400);
    assert_eq!(max_block_for_sample_rate(8_000), 4_096);
    assert_eq!(max_block_for_sample_rate(384_000), 65_536);
    assert_eq!(vst2_start_calls(48_000, 512)[0], Vst2Call::Init);
    let calls = vst2_restart_calls(44_100, 256);
    assert!(calls.contains(&Vst2Call::SetSampleRate(44_100)));
    assert!(calls.contains(&Vst2Call::SetBlockSize(256)));
    let (made, outcome) = reinit_vst2(&vec![Ok(()), Ok(())], 44_100, 256);
    assert_eq!(made, vec![calls.clone(), calls.clone()]);
    assert_eq!(outcome, Ok(()));
    let locks = vec![Ok(()), Err("poisoned".to_string()), Ok(())];
    let (made, outcome) = reinit_vst2(&locks, 44_100, 256);
    assert_eq!(made, vec![calls]);
    assert_eq!(outcome, Err("poisoned".to_string()));
}

#[test]
fn class_ids_are_sixteen_bytes() {
    let id = parse_class_id("00FF7f80-0000-0000-0000-000000000001").unwrap();
    assert_eq!(id[0], 0);
    assert_eq!(id[1], -1);
    assert_eq!(id[2], 0x7f);
    assert_eq!(id[3], -128);
    assert_eq!(id[15], 1);
    assert_eq!(
        parse_class_id("a\"b").unwrap_err(),
        "plugin UID must be 32 hex digits (got 2 from \"a\\\"b\")"
    );
}

#[test]
fn editors_have_sizes() {
    assert_eq!(editor_extent(0, 5), 5);
    assert_eq!(editor_extent(9, 5), 9);
    assert_eq!(editor_fallback(PluginFormat::Vst3), (800, 600));
    assert_eq!(mac_editor_size(100, 900), (320, 900));
    assert!(needs_resize((1, 1), (2, 1)));
    assert!(!needs_resize((1, 1), (0, 1)));
    let planes = editor_planes(&vec![1.0f32, 2.0], 2, 1, 8, 2, 0.0).unwrap();
    assert_eq!(planes, vec![vec![1.0], vec![2.0]]);
    assert!(editor_planes(&vec![1.0f32], 1, 9, 8, 2, 0.0).is_none());
    assert!(editor_planes(&vec![1.0f32], 3, 1, 8, 2, 0.0).is_none());
}

#[test]
fn bundles_are_told_apart() {
    assert_eq!(bundle_format("a.vst3", Some("vst3")).unwrap(), PluginFormat::Vst3);
    assert_eq!(bundle_format("a.vst", Some("vst")).unwrap(), PluginFormat::Vst2);
    assert_eq!(
        bundle_format("a.dll", Some("dll")).unwrap_err(),
        "unsupported macOS VST bundle extension for a.dll: Some(\"dll\")"
    );
    assert_eq!(
        bundle_format("a", None).unwrap_err(),
        "unsupported macOS VST bundle extension for a: None"
    );
    let files = vec![
        BundleFile { path: "d".into(), is_file: false, extension: None },
        BundleFile { path: "f".into(), is_file: true, extension: None },
    ];
    assert_eq!(find_binary(&files, None), Some(1));
    let found = vec![ScannedBundle { path: "/p/a.vst3".into(), unique_id: "X".into() }];
    assert_eq!(find_vst3_unique_id(&found, "/p/a.vst3", "a.vst3").unwrap(), "X");
    assert_eq!(
        find_vst3_unique_id(&found, "/p/b.vst3", "b.vst3").unwrap_err(),
        "VST3 plugin not found in scan results: b.vst3"
    );
}

#[test]
fn scanning_walks_below_a_root() {
    let mut walk = ScanWalk::new("/r".into(), true);
    let root = walk.next().unwrap();
    assert_eq!((root.dir.as_str(), root.depth, root.descend), ("/r", 0, true));
    walk.descend(
        root.depth,
        vec![folder("/r/a"), folder("/r/x.vst3"), file("/r/b.dll"), folder("/r/c")],
    );
    let mut seen = Vec::new();
    while let Some(v) = walk.next() {
        seen.push(v.dir);
    }
    seen.sort();
    assert_eq!(seen, vec!["/r/a", "/r/c"]);
    assert!(ScanWalk::new("/none".into(), false).next().is_none());
    let counts = count_entries(&vec![folder("/r/x.VST3"), file("/r/b.dll"), file("/r/c.txt")]);
    assert_eq!((counts.vst3_entries, counts.dll_entries), (1, 1));
    assert!(is_vst2_candidate(&file("/r/b.DLL")));
    assert!(!is_vst2_candidate(&folder("/r/b.dll")));
}

#[test]
fn merging_lists_each_plugin_once() {
    let mut known = vec![vst3("a", "/a")];
    let added = merge_new(&mut known, vec![vst3("a", "/a"), vst3("b", "/b"), vst3("b", "/b")]);
    assert_eq!(added, 1);
    assert_eq!(known.len(), 2);
    let mut seconds = vec![vst2("x", "/x", 1)];
    assert_eq!(merge_new(&mut seconds, vec![vst2("y", "/x", 1), vst2("x", "/x", 2)]), 1);
}

#[test]
fn scans_are_reported() {
    let mut scan = Scan::new();
    assert!(scan.enter("/r".into()));
    assert!(!scan.enter("/r".into()));
    scan.record(
        "/r".into(),
        count_entries(&vec![folder("/r/a.vst3"), file("/r/b.dll")]),
        Ok(vec![vst3("a", "/r/a.vst3")]),
        Vec::new(),
        vec![("b.dll".into(), "no entry".into())],
    );
    scan.record(
        "/s".into(),
        count_entries(&Vec::new()),
        Err("denied".into()),
        Vec::new(),
        Vec::new(),
    );
    let report: ScanReport = scan.report;
    assert_eq!(report.total_plugins(), 1);
    assert_eq!(
        report.summary(),
        "Scanned 2 folder(s) (1 with audio binaries). Found 1 VST3 + 0 VST2 = 1 plugin(s). \
         1 .dll(s) skipped (non-VST or load failed; see details). 1 folder(s) failed; see details."
    );
    assert_eq!(
        report.details(),
        "/r  [vst3=1, dll=1, vst3_found=1, vst2_found=0]\n    .dll skipped: b.dll (no entry)\n\
         /s  [vst3=0, dll=0, vst3_found=0, vst2_found=0]  ERROR: vst3 scan: denied"
    );
}

#[test]
fn catalogs_are_sorted_by_name() {
    let catalog = into_items(build_catalog(
        vec![vst3("beta", "/b3"), vst3("Alpha", "/a3")],
        vec![vst2("BETA", "/b2", 1)],
    ));
    let paths: Vec<&str> = catalog.iter().map(|c: &CatalogEntry| c.path()).collect();
    assert_eq!(paths, vec!["/a3", "/b2", "/b3"]);
    assert_eq!(catalog[1].format_label(), "VST2");
    assert!(catalog[0].supports_native_editor());
    assert_eq!(editor_title(&catalog[0]), "Alpha — VST3");
    let sorted = sort_keyed(vec![
        Keyed { key: vec!['b'], minor: 0, item: 1 },
        Keyed { key: vec!['a'], minor: 5, item: 2 },
        Keyed { key: vec!['a'], minor: 4, item: 3 },
    ]);
    let items: Vec<i32> = sorted.into_iter().map(|k| k.item).collect();
    assert_eq!(items, vec![3, 2, 1]);
}

#[test]
fn plugins_without_a_name_get_one() {
    let info = vst2_info("/p/My Plug.dll".into(), "  ".into(), "v".into(), 7, 2, 2).unwrap();
    assert_eq!(info.name, "(unnamed VST2)");
    assert_eq!(info.dedup_key(), (r"\p\My Plug.dll".to_string(), 7));
    let other = vst2_info(r"\p\.\My Plug.dll".into(), "x".into(), "v".into(), 7, 2, 2).unwrap();
    assert_eq!(other.dedup_key(), info.dedup_key());
}

#[test]
fn search_roots_follow_the_environment() {
    assert_eq!(
        windows_search_roots(None, None, Some("C:\\Common"), Some("D:\\")),
        vec!["C:\\Common\\VST3", "D:\\Programs\\Common\\VST3"]
    );
    assert_eq!(windows_search_roots(Some("P"), None, None, None)[3], "P\\REAPER (x64)\\Plugins");
    assert_eq!(mac_search_roots(None).len(), 2);
    assert_eq!(mac_search_roots(Some("/Users/a"))[3], "/Users/a/Library/Audio/Plug-Ins/VST");
}

type Chain = VstUiState<u8, Option<u64>, u32>;

fn chain_of(names: &[&str]) -> Chain {
    let mut c = Chain::new();
    for n in names {
        c.add_to_chain(CatalogEntry::Vst3(vst3(n, "/x")), 0, None);
    }
    c
}

fn names(c: &Chain) -> Vec<String> {
    c.chain.iter().map(|e| e.catalog.name().to_string()).collect()
}

#[test]
fn chains_are_rearranged() {
    let mut c = chain_of(&["a", "b", "c"]);
    c.move_chain_to(0, 2);
    assert_eq!(names(&c), vec!["b", "c", "a"]);
    c.move_chain_to(2, 0);
    assert_eq!(names(&c), vec!["a", "b", "c"]);
    c.move_chain(0, 1);
    assert_eq!(names(&c), vec!["b", "a", "c"]);
    c.move_chain(0, -1);
    assert_eq!(names(&c), vec!["b", "a", "c"]);
    c.toggle_bypass(1);
    assert_eq!(c.active_entries(), vec![0, 2]);
    assert_eq!(c.remove_chain(0), None);
    assert_eq!(names(&c), vec!["a", "c"]);
}

#[test]
fn editors_are_opened_once() {
    let mut c = chain_of(&["a"]);
    assert_eq!(c.toggle_native_editor(0), EditorStep::Start);
    c.editor_started(0, 11);
    assert!(c.chain[0].editor_feed);
    assert_eq!(c.reap_finished_editors(&vec![false]), Vec::<u32>::new());
    assert_eq!(c.toggle_native_editor(0), EditorStep::Stop);
    assert_eq!(c.stop_native_editor(0), Some(11));
    assert_eq!(c.toggle_native_editor(5), EditorStep::Nothing);
    let mut d = chain_of(&["a"]);
    d.toggle_native_editor(0);
    d.editor_started(0, 12);
    assert_eq!(d.reap_finished_editors(&vec![true]), vec![12]);
    assert_eq!(d.editor_open, vec![false]);
}

#[test]
fn scans_fill_the_catalog() {
    let mut c = Chain::new();
    assert_eq!(c.picked().unwrap_err(), "No plugin selected.");
    let report = ScanReport {
        vst3_plugins: vec![vst3("a", "/a")],
        vst2_plugins: Vec::new(),
        directories: Vec::new(),
    };
    c.take_scan(Ok(report));
    assert_eq!(c.catalog.len(), 1);
    assert_eq!(c.picked().unwrap(), 0);
    assert!(c.scan_summary.is_some());
    c.take_scan(Err("no".into()));
    assert!(c.scan_error.is_some());
    let second = CatalogEntry::Vst2(vst2("x", "/x", 1));
    assert!(needs_reload(PluginFormat::Vst2, true, &second));
    assert!(!needs_reload(PluginFormat::Vst2, false, &second));
    assert_eq!(reload_error("x", "gone"), "reload x: gone");
}
