//! What the window shows: the words and marks on the strips and panels, by the state of the desk.

use vstd::prelude::*;

use crate::format::SampleFormat;
use crate::local_analyzers::LocalAnalyzerSelection;
use crate::outputs::SpeakerMode;
use crate::parakeet::PARAKEET_PLUGIN_ID;
use crate::selection::{Platform, SourceLists};
use crate::text::{owned, push_decimal, push_text, text_equal};
use crate::vst_scan::CatalogEntry;

verus! {

/// How a plugin's row is marked.
#[derive(Debug, Clone, Copy, PartialEq, Eq, Structural)]
pub enum RowMark {
    Plain,
    Bypassed,
    EditorOpen,
}

/// How a plugin's row is marked: that it is bypassed comes first.
pub fn row_mark(bypassed: bool, editor_open: bool) -> (m: RowMark)
    ensures
        m == if bypassed {
            RowMark::Bypassed
        } else if editor_open {
            RowMark::EditorOpen
        } else {
            RowMark::Plain
        },
{
    if bypassed {
        RowMark::Bypassed
    } else if editor_open {
        RowMark::EditorOpen
    } else {
        RowMark::Plain
    }
}

/// A plugin of a strip.
pub fn strip_row(plugin: &CatalogEntry) -> (s: String)
    ensures
        s@ == plugin.label_text() + " "@ + plugin.name_text(),
{
    let mut s = owned(plugin.format_label());
    push_text(&mut s, " ");
    push_text(&mut s, plugin.name());
    s
}

/// A plugin that can be added to a strip.
pub fn catalog_row(plugin: &CatalogEntry) -> (s: String)
    ensures
        s@ == "["@ + plugin.label_text() + "] "@ + plugin.name_text(),
{
    let mut s = owned("[");
    push_text(&mut s, plugin.format_label());
    push_text(&mut s, "] ");
    push_text(&mut s, plugin.name());
    s
}

/// An analyzer of the main strip.
pub fn internal_row(analyzer: &LocalAnalyzerSelection) -> (s: String)
    ensures
        s@ == "INT "@ + analyzer.name@,
{
    let mut s = owned("INT ");
    push_text(&mut s, analyzer.name.as_str());
    s
}

/// What can be done with an analyzer of the main strip.
pub fn internal_hint(analyzer: &LocalAnalyzerSelection) -> (s: &'static str)
    ensures
        s@ == if analyzer.id@ == PARAKEET_PLUGIN_ID@ {
            "Click: Parakeet settings · Alt+click: remove"@
        } else {
            "Alt+click: remove"@
        },
{
    if text_equal(analyzer.id.as_str(), PARAKEET_PLUGIN_ID) {
        "Click: Parakeet settings · Alt+click: remove"
    } else {
        "Alt+click: remove"
    }
}

/// An analyzer that can be added to the main strip.
pub fn picker_row(analyzer: &LocalAnalyzerSelection) -> (s: String)
    ensures
        s@ == if analyzer.enabled {
            analyzer.name@ + " (in chain)"@
        } else {
            analyzer.name@
        },
{
    let mut s = owned(analyzer.name.as_str());
    if analyzer.enabled {
        push_text(&mut s, " (in chain)");
    }
    s
}

/// An input channel; users count from one.
pub fn input_label(channel: usize) -> (s: String)
    requires
        channel < usize::MAX,
    ensures
        s@ == "Input "@ + crate::text::decimal((channel + 1) as nat),
{
    let mut s = owned("Input ");
    push_decimal(&mut s, (channel + 1) as u64);
    s
}

/// The name of the picked microphone.
pub open spec fn device_name(lists: SourceLists) -> Seq<char> {
    match lists.picked_device() {
        Some(i) => lists.devices@[i as int].name@,
        None => "(none)"@,
    }
}

/// The name of the picked microphone.
pub fn device_label(lists: &SourceLists) -> (s: &str)
    ensures
        s@ == device_name(*lists),
{
    match lists.selected_device() {
        Some(i) => lists.devices[i].name.as_str(),
        None => "(none)",
    }
}

/// The name of the picked speaker.
pub fn speaker_label(lists: &SourceLists) -> (s: &str)
    ensures
        s@ == match lists.speaker_index {
            Some(i) => if i < lists.speaker_sources@.len() {
                lists.speaker_sources@[i as int].name@
            } else {
                "(off — pick to enable Ch2)"@
            },
            None => "(off — pick to enable Ch2)"@,
        },
{
    match lists.speaker_index {
        Some(i) => if i < lists.speaker_sources.len() {
            lists.speaker_sources[i].name.as_str()
        } else {
            "(off — pick to enable Ch2)"
        },
        None => "(off — pick to enable Ch2)",
    }
}

/// The note below the picked speaker.
pub open spec fn speaker_note(lists: SourceLists, platform: Platform) -> Seq<char> {
    if lists.supports_loopback(platform) {
        "Captures system playback. Analyzers use Main (Ch1+Ch2) when live."@
    } else {
        platform.hint_text()
    }
}

/// The note below the picked speaker.
pub fn speaker_hint(lists: &SourceLists, platform: Platform) -> (s: &'static str)
    ensures
        s@ == speaker_note(*lists, platform),
{
    if lists.loopback_supported(platform) {
        "Captures system playback. Analyzers use Main (Ch1+Ch2) when live."
    } else {
        platform.loopback_unavailable_hint()
    }
}

/// The button that switches live input on and off.
pub fn live_label(live_enabled: bool) -> (s: &'static str)
    ensures
        s@ == if live_enabled {
            "LIVE"@
        } else {
            "live"@
        },
{
    if live_enabled {
        "LIVE"
    } else {
        "live"
    }
}

/// What the analyzers hear.
pub fn live_hint(lists: &SourceLists, platform: Platform, mode: SpeakerMode) -> (s: &'static str)
    ensures
        s@ == if mode != SpeakerMode::Off && lists.ch2_takes_part(platform) {
            "With Ch2: analyzers see the mixed Main bus."@
        } else {
            "Ch2 off: analyzers follow the mic path only."@
        },
{
    if mode.is_active() && lists.selected_loopback_pair(platform).is_some() {
        "With Ch2: analyzers see the mixed Main bus."
    } else {
        "Ch2 off: analyzers follow the mic path only."
    }
}

/// The line on the picked microphone.
pub open spec fn device_line(lists: SourceLists) -> Option<Seq<char>> {
    match lists.device_index {
        None => Some("No input source selected."@),
        Some(i) => if i < lists.devices@.len() {
            let device = lists.devices@[i as int];
            match device.default_format {
                Some(f) => Some(
                    "Selected source: "@ + device.name@ + " ("@ + crate::text::decimal(
                        f.sample_rate_hz as nat,
                    ) + " Hz, "@ + crate::text::decimal(f.channels as nat) + " ch, "@
                        + f.sample_format.name() + ")"@,
                ),
                None => None,
            }
        } else {
            None
        },
    }
}

/// The line on the picked microphone. There is none where its format is not known.
pub fn device_summary(lists: &SourceLists) -> (s: Option<String>)
    ensures
        s is Some == device_line(*lists) is Some,
        s matches Some(text) ==> text@ == device_line(*lists)->0,
{
    match lists.device_index {
        None => Some(owned("No input source selected.")),
        Some(i) => {
            if i >= lists.devices.len() {
                return None;
            }
            match lists.devices[i].default_format {
                Some(f) => {
                    let mut s = owned("Selected source: ");
                    push_text(&mut s, lists.devices[i].name.as_str());
                    push_text(&mut s, " (");
                    push_decimal(&mut s, f.sample_rate_hz as u64);
                    push_text(&mut s, " Hz, ");
                    push_decimal(&mut s, f.channels as u64);
                    push_text(&mut s, " ch, ");
                    push_text(
                        &mut s,
                        match f.sample_format {
                            SampleFormat::F32 => "F32",
                            SampleFormat::I16 => "I16",
                        },
                    );
                    push_text(&mut s, ")");
                    assert(s@ =~= device_line(*lists)->0);
                    Some(s)
                },
                None => None,
            }
        },
    }
}

/// The choice of the speaker mode on the recording panel.
#[derive(Debug, Clone, Copy, PartialEq, Eq, Structural)]
pub enum MixPanel {
    /// The modes.
    Choices,
    /// Why speakers cannot be recorded.
    Hint,
    Nothing,
}

/// The choice of the mode is there where a speaker that can be recorded is picked.
pub fn mix_panel(lists: &SourceLists, platform: Platform) -> (p: MixPanel)
    ensures
        p == if lists.ch2_takes_part(platform) {
            MixPanel::Choices
        } else if !lists.supports_loopback(platform) {
            MixPanel::Hint
        } else {
            MixPanel::Nothing
        },
{
    if lists.selected_loopback_pair(platform).is_some() {
        MixPanel::Choices
    } else if !lists.loopback_supported(platform) {
        MixPanel::Hint
    } else {
        MixPanel::Nothing
    }
}

/// The buttons of the recording panel.
#[derive(Debug, Clone, Copy)]
pub struct RecordButtons {
    pub record: bool,
    pub pause: bool,
    pub pause_label: &'static str,
    pub stop: bool,
    pub play: bool,
    /// The banner that tells that the speaker is recorded.
    pub speaker_banner: bool,
}

/// What the recording panel offers. `paused` and `speaker_active` are those of the recording that
/// runs, if one does.
pub fn record_buttons(recording: Option<(bool, bool)>, has_file: bool) -> (b: RecordButtons)
    ensures
        b.record == (recording is None),
        b.pause == (recording is Some),
        b.stop == (recording is Some),
        b.pause_label@ == match recording {
            Some((true, _)) => "Resume"@,
            _ => "Pause"@,
        },
        b.play == has_file,
        b.speaker_banner == (recording matches Some((_, speaker_active)) && speaker_active),
{
    let (active, paused, speaker_active): (bool, bool, bool) = match recording {
        Some((p, s)) => (true, p, s),
        None => (false, false, false),
    };
    RecordButtons {
        record: !active,
        pause: active,
        pause_label: if paused {
            "Resume"
        } else {
            "Pause"
        },
        stop: active,
        play: has_file,
        speaker_banner: speaker_active,
    }
}

/// The line above the analyzers' output: whether one is picked, and whether a stream runs.
pub fn analyzer_note(any_enabled: bool, stream_runs: bool) -> (s: &'static str)
    ensures
        s@ == if !any_enabled {
            "No internal analyzer plugin is selected."@
        } else if stream_runs {
            "Analyzer stream is active. Parakeet may take a while to load before the first transcript."@
        } else {
            "Analyzer selected, but no stream is active. Turn LIVE on or start recording."@
        },
{
    if !any_enabled {
        "No internal analyzer plugin is selected."
    } else if stream_runs {
        "Analyzer stream is active. Parakeet may take a while to load before the first transcript."
    } else {
        "Analyzer selected, but no stream is active. Turn LIVE on or start recording."
    }
}

/// The line on the last scan for plugins.
#[derive(Debug, Clone, Copy)]
pub enum ScanLine<'a> {
    Error(&'a str),
    Text(&'a str),
}

/// The line on the last scan: its error, or else what it found. Before the first scan it is
/// `otherwise`.
pub fn scan_line<'a>(
    error: Option<&'a str>,
    summary: Option<&'a str>,
    otherwise: &'a str,
) -> (l: ScanLine<'a>)
    ensures
        match error {
            Some(e) => l == ScanLine::Error(e),
            None => match summary {
                Some(t) => l == ScanLine::Text(t),
                None => l == ScanLine::Text(otherwise),
            },
        },
{
    match error {
        Some(e) => ScanLine::Error(e),
        None => match summary {
            Some(t) => ScanLine::Text(t),
            None => ScanLine::Text(otherwise),
        },
    }
}

} // verus!
