//! The recorder's desk: what is saved, what runs live, and what a recording is made of.

use vstd::prelude::*;

use crate::format::AudioFormat;
use crate::local_analyzers::{analyzer_signature, LocalAnalyzerSelection};
use crate::mixer::{MixMode, MixerConfig};
use crate::outputs::{OutFormat, OutputPlan, Pairing, SpeakerMode};
use crate::selection::{format_or_fallback, Platform, SourceLists};
use crate::text::{owned, push_decimal, push_text, text_equal};
use crate::time::Duration;
use crate::vst_chain::ChainEntry;
use crate::vst_scan::CatalogEntry;

verus! {

/// A plugin of a saved chain.
#[derive(Debug, Clone)]
pub struct PersistedVstEntry {
    pub format: String,
    pub path: String,
    pub name: String,
    pub bypassed: bool,
}

/// What is kept from one run to the next. `G` is the type of gains, `P` that of the transcriber's
/// settings.
#[derive(Debug)]
pub struct PersistedSettings<G, P> {
    pub path: String,
    pub format: OutFormat,
    pub record_pre: bool,
    pub record_post: bool,
    pub live_enabled: bool,
    pub channel_gain: G,
    pub input_channel: usize,
    pub channel2_gain: G,
    pub channel2_input_channel: usize,
    pub selected_device_id: Option<String>,
    pub local_analyzer_order: Vec<String>,
    pub enabled_analyzers: Vec<String>,
    pub vst_chain: Vec<PersistedVstEntry>,
    pub vst_chain_ch2: Vec<PersistedVstEntry>,
    pub record_speaker: bool,
    pub speaker_mode: Option<SpeakerMode>,
    pub selected_speaker_source_id: Option<String>,
    pub parakeet: Option<P>,
}

impl<G: Copy, P> PersistedSettings<G, P> {
    /// The settings of a first run; `unit` is the gain that changes nothing.
    pub fn first_run(unit: G) -> (s: Self)
        ensures
            s.path@ == "recording"@,
            s.format == OutFormat::Wav,
            s.record_pre,
            !s.record_post,
            s.live_enabled,
            s.channel_gain == unit,
            s.input_channel == 0,
            s.channel2_gain == unit,
            s.channel2_input_channel == 0,
            s.selected_device_id is None,
            s.local_analyzer_order@.len() == 0,
            s.enabled_analyzers@.len() == 0,
            s.vst_chain@.len() == 0,
            s.vst_chain_ch2@.len() == 0,
            !s.record_speaker,
            s.speaker_mode is None,
            s.selected_speaker_source_id is None,
            s.parakeet is None,
    {
        PersistedSettings {
            path: owned("recording"),
            format: OutFormat::Wav,
            record_pre: true,
            record_post: false,
            live_enabled: true,
            channel_gain: unit,
            input_channel: 0,
            channel2_gain: unit,
            channel2_input_channel: 0,
            selected_device_id: None,
            local_analyzer_order: Vec::new(),
            enabled_analyzers: Vec::new(),
            vst_chain: Vec::new(),
            vst_chain_ch2: Vec::new(),
            record_speaker: false,
            speaker_mode: None,
            selected_speaker_source_id: None,
            parakeet: None,
        }
    }
}

/// The saved entry stands for the plugin of the chain.
pub open spec fn stands_for<P>(saved: PersistedVstEntry, entry: ChainEntry<P>) -> bool {
    &&& saved.format@ == entry.catalog.label_text()
    &&& saved.path@ == entry.catalog.path_text()
    &&& saved.name@ == entry.catalog.name_text()
    &&& saved.bypassed == entry.bypassed
}

/// What is saved of a chain.
pub fn persisted_chain<P>(chain: &Vec<ChainEntry<P>>) -> (saved: Vec<PersistedVstEntry>)
    ensures
        saved@.len() == chain@.len(),
        forall|i: int| 0 <= i < chain@.len() ==> stands_for(#[trigger] saved@[i], chain@[i]),
{
    let mut saved: Vec<PersistedVstEntry> = Vec::new();
    let mut i: usize = 0;
    while i < chain.len()
        invariant
            i <= chain@.len(),
            saved@.len() == i,
            forall|k: int| 0 <= k < i ==> stands_for(#[trigger] saved@[k], chain@[k]),
        decreases chain@.len() - i,
    {
        let e = &chain[i].catalog;
        saved.push(
            PersistedVstEntry {
                format: owned(e.format_label()),
                path: owned(e.path()),
                name: owned(e.name()),
                bypassed: chain[i].bypassed,
            },
        );
        i += 1;
    }
    saved
}

/// The plugin is the one that the saved entry names.
pub open spec fn is_saved(plugin: CatalogEntry, saved: PersistedVstEntry) -> bool {
    plugin.label_text() == saved.format@ && plugin.path_text() == saved.path@
}

/// The catalog has the plugin that the saved entry names.
pub open spec fn in_catalog(catalog: Seq<CatalogEntry>, saved: PersistedVstEntry) -> bool {
    exists|i: int| 0 <= i < catalog.len() && is_saved(#[trigger] catalog[i], saved)
}

/// The first plugin of the catalog that the saved entry names.
pub open spec fn catalog_place(catalog: Seq<CatalogEntry>, saved: PersistedVstEntry) -> Option<nat>
    decreases catalog.len(),
{
    if catalog.len() == 0 {
        None
    } else {
        match catalog_place(catalog.drop_last(), saved) {
            Some(i) => Some(i),
            None => if is_saved(catalog.last(), saved) {
                Some((catalog.len() - 1) as nat)
            } else {
                None
            },
        }
    }
}

proof fn lemma_catalog_place(catalog: Seq<CatalogEntry>, saved: PersistedVstEntry)
    ensures
        match catalog_place(catalog, saved) {
            Some(i) => {
                &&& i < catalog.len()
                &&& is_saved(catalog[i as int], saved)
                &&& forall|k: int| 0 <= k < i ==> !is_saved(#[trigger] catalog[k], saved)
            },
            None => forall|k: int|
                0 <= k < catalog.len() ==> !is_saved(#[trigger] catalog[k], saved),
        },
    decreases catalog.len(),
{
    if catalog.len() > 0 {
        let rest = catalog.drop_last();
        lemma_catalog_place(rest, saved);
        assert(forall|k: int| 0 <= k < rest.len() ==> rest[k] == #[trigger] catalog[k]);
    }
}

fn find_saved(catalog: &Vec<CatalogEntry>, saved: &PersistedVstEntry) -> (r: Option<usize>)
    ensures
        crate::selection::same_place(r, catalog_place(catalog@, *saved)),
{
    let mut i: usize = 0;
    while i < catalog.len()
        invariant
            i <= catalog@.len(),
            forall|k: int| 0 <= k < i ==> !is_saved(#[trigger] catalog@[k], *saved),
        decreases catalog@.len() - i,
    {
        if text_equal(catalog[i].format_label(), saved.format.as_str()) && text_equal(
            catalog[i].path(),
            saved.path.as_str(),
        ) {
            proof {
                lemma_catalog_place(catalog@, *saved);
            }
            return Some(i);
        }
        i += 1;
    }
    proof {
        lemma_catalog_place(catalog@, *saved);
    }
    None
}

/// The plugins to load for a saved chain, with whether each is bypassed. Those that the catalog
/// does not have are passed over.
pub open spec fn restore_plan(catalog: Seq<CatalogEntry>, saved: Seq<PersistedVstEntry>) -> Seq<
    (nat, bool),
>
    decreases saved.len(),
{
    if saved.len() == 0 {
        Seq::empty()
    } else {
        let rest = restore_plan(catalog, saved.drop_last());
        match catalog_place(catalog, saved.last()) {
            Some(i) => rest.push((i, saved.last().bypassed)),
            None => rest,
        }
    }
}

/// The places with their numbers as they are written in code.
pub open spec fn plan_view(plan: Seq<(usize, bool)>) -> Seq<(nat, bool)> {
    plan.map_values(|p: (usize, bool)| (p.0 as nat, p.1))
}

/// The plugins to load for a saved chain, with whether each is bypassed.
pub fn plan_restore(catalog: &Vec<CatalogEntry>, saved: &Vec<PersistedVstEntry>) -> (plan: Vec<
    (usize, bool),
>)
    ensures
        plan_view(plan@) == restore_plan(catalog@, saved@),
{
    let mut plan: Vec<(usize, bool)> = Vec::new();
    let mut i: usize = 0;
    assert(plan_view(plan@) =~= restore_plan(catalog@, saved@.take(0)));
    while i < saved.len()
        invariant
            i <= saved@.len(),
            plan_view(plan@) == restore_plan(catalog@, saved@.take(i as int)),
        decreases saved@.len() - i,
    {
        assert(saved@.take(i + 1).drop_last() =~= saved@.take(i as int));
        match find_saved(catalog, &saved[i]) {
            Some(place) => {
                let ghost before = plan@;
                plan.push((place, saved[i].bypassed));
                assert(plan_view(plan@) =~= plan_view(before).push(
                    (place as nat, saved@[i as int].bypassed),
                ));
            },
            None => {},
        }
        i += 1;
    }
    assert(saved@.take(saved@.len() as int) =~= saved@);
    plan
}

/// A saved chain comes back: where the catalog has each of its plugins, as many are loaded, each
/// with the format, the path and the bypass that were saved.
pub proof fn saved_chain_is_restored(catalog: Seq<CatalogEntry>, saved: Seq<PersistedVstEntry>)
    requires
        forall|k: int| 0 <= k < saved.len() ==> in_catalog(catalog, #[trigger] saved[k]),
    ensures
        restore_plan(catalog, saved).len() == saved.len(),
        forall|k: int|
            0 <= k < saved.len() ==> {
                let p = #[trigger] restore_plan(catalog, saved)[k];
                &&& p.0 < catalog.len()
                &&& is_saved(catalog[p.0 as int], saved[k])
                &&& p.1 == saved[k].bypassed
            },
    decreases saved.len(),
{
    if saved.len() > 0 {
        let rest = saved.drop_last();
        assert forall|k: int| 0 <= k < rest.len() implies in_catalog(catalog, #[trigger] rest[k]) by {
            assert(rest[k] == saved[k]);
        }
        saved_chain_is_restored(catalog, rest);
        lemma_catalog_place(catalog, saved.last());
        let last = saved.len() - 1;
        assert(in_catalog(catalog, saved[last]));
        let plan = restore_plan(catalog, saved);
        let before = restore_plan(catalog, rest);
        assert forall|k: int| 0 <= k < saved.len() implies {
            let p = #[trigger] plan[k];
            &&& p.0 < catalog.len()
            &&& is_saved(catalog[p.0 as int], saved[k])
            &&& p.1 == saved[k].bypassed
        } by {
            if k < last {
                assert(plan[k] == before[k]);
                assert(rest[k] == saved[k]);
            }
        }
    }
}

/// One of the two channels.
#[derive(Debug, Clone, Copy, PartialEq, Eq, Structural)]
pub enum Channel {
    One,
    Two,
}

/// The message on a restored chain. There is none where nothing was saved, nor where nothing of
/// the second channel's chain was found.
pub fn restored_status(channel: Channel, saved: usize, catalog: usize, restored: usize) -> (s:
    Option<String>)
    ensures
        saved == 0 ==> s is None,
        saved > 0 && catalog == 0 ==> s is Some && s->0@ == match channel {
            Channel::One => "Saved VST chain could not be restored: no plugins found."@,
            Channel::Two => "Saved VST chain (Ch2) could not be restored: no plugins found."@,
        },
        saved > 0 && catalog > 0 && restored > 0 ==> s is Some && s->0@ == "Restored "@
            + crate::text::decimal(restored as nat) + match channel {
            Channel::One => " saved VST plugin(s)."@,
            Channel::Two => " channel-2 VST plugin(s)."@,
        },
        saved > 0 && catalog > 0 && restored == 0 ==> match channel {
            Channel::One => s is Some && s->0@
                == "Saved VST chain did not match the current scan results."@,
            Channel::Two => s is None,
        },
{
    if saved == 0 {
        return None;
    }
    if catalog == 0 {
        return Some(
            match channel {
                Channel::One => owned("Saved VST chain could not be restored: no plugins found."),
                Channel::Two => owned(
                    "Saved VST chain (Ch2) could not be restored: no plugins found.",
                ),
            },
        );
    }
    if restored > 0 {
        let mut s = owned("Restored ");
        push_decimal(&mut s, restored as u64);
        push_text(
            &mut s,
            match channel {
                Channel::One => " saved VST plugin(s).",
                Channel::Two => " channel-2 VST plugin(s).",
            },
        );
        return Some(s);
    }
    match channel {
        Channel::One => Some(owned("Saved VST chain did not match the current scan results.")),
        Channel::Two => None,
    }
}

/// What a recording is made of.
#[derive(Debug)]
pub struct RecordingPlan {
    /// The place of the microphone, and its format.
    pub device: usize,
    pub format: AudioFormat,
    /// What becomes of the second channel.
    pub pairing: Pairing,
    /// The place of the speaker and its format, where the second channel is recorded.
    pub speaker: Option<(usize, AudioFormat)>,
    /// The mix of both, where the second channel is mixed with the first.
    pub mix: Option<MixerConfig>,
    pub outputs: OutputPlan,
}

/// How the microphone and the speaker are mixed: as the mode says, within a fifth of a second.
pub open spec fn is_main_mix(
    m: MixerConfig,
    mode: SpeakerMode,
    mic: AudioFormat,
    speaker: AudioFormat,
) -> bool {
    &&& m.mode == if mode == SpeakerMode::StereoSplit {
        MixMode::SplitStereo
    } else {
        MixMode::SumStereo
    }
    &&& m.mic_format == mic
    &&& m.speaker_format == speaker
    &&& m.jitter_window@ == 200_000_000
}

fn make_main_mix(mode: SpeakerMode, mic: AudioFormat, speaker: AudioFormat) -> (m: MixerConfig)
    ensures
        is_main_mix(m, mode, mic, speaker),
{
    MixerConfig {
        mode: mode.mix_mode(),
        mic_format: mic,
        speaker_format: speaker,
        jitter_window: Duration::from_millis(200),
    }
}

/// The format of the picked microphone.
pub open spec fn mic_format(lists: SourceLists, i: int) -> AudioFormat {
    match lists.devices@[i].default_format {
        Some(f) => f,
        None => crate::selection::fallback_format(),
    }
}

/// The format of a speaker.
pub open spec fn speaker_format(lists: SourceLists, i: int) -> AudioFormat {
    match lists.speaker_sources@[i].default_format {
        Some(f) => f,
        None => crate::selection::fallback_format(),
    }
}

/// The second channel of a plan is the picked speaker where it is recorded, and mixed as the mode
/// says where it is mixed.
pub open spec fn pairs_up(
    lists: SourceLists,
    mode: SpeakerMode,
    pairing: Pairing,
    mic: AudioFormat,
    speaker: Option<(usize, AudioFormat)>,
    mix: Option<MixerConfig>,
) -> bool {
    &&& if pairing == Pairing::Alone {
        speaker is None
    } else {
        speaker matches Some((k, f)) && lists.speaker_index == Some(k) && f == speaker_format(
            lists,
            k as int,
        )
    }
    &&& if pairing == Pairing::Mixed {
        mix matches Some(m) && is_main_mix(
            m,
            mode,
            mic,
            speaker_format(lists, lists.speaker_index->0 as int),
        )
    } else {
        mix is None
    }
}

/// Plans a recording, or says why there can be none. A speaker that is picked is recorded only
/// where the mode says so.
pub fn plan_recording(
    lists: &SourceLists,
    platform: Platform,
    mode: SpeakerMode,
    record_pre: bool,
    record_post: bool,
    path: &str,
    fmt: OutFormat,
) -> (r: std::result::Result<RecordingPlan, &'static str>)
    requires
        lists.device_index matches Some(i) ==> i < lists.devices@.len(),
    ensures
        r is Ok == ((record_pre || record_post) && lists.device_index is Some),
        r matches Err(e) ==> e@ == if !record_pre && !record_post {
            "Enable at least one of “Record pre” or “Record post”."@
        } else {
            "Select an input device."@
        },
        r matches Ok(plan) ==> {
            &&& lists.device_index == Some(plan.device)
            &&& plan.format == mic_format(*lists, plan.device as int)
            &&& plan.pairing == mode.pairing(lists.ch2_takes_part(platform))
            &&& pairs_up(*lists, mode, plan.pairing, plan.format, plan.speaker, plan.mix)
            &&& plan.outputs.follows(
                platform.path_style(),
                path@,
                fmt,
                record_pre,
                record_post,
                plan.pairing,
            )
        },
{
    if !record_pre && !record_post {
        return Err("Enable at least one of “Record pre” or “Record post”.");
    }
    let device = match lists.device_index {
        Some(i) => i,
        None => {
            return Err("Select an input device.");
        },
    };
    let format = format_or_fallback(lists.devices[device].default_format);
    let picked = lists.selected_loopback_pair(platform);
    let pairing = mode.pairing(picked.is_some());
    let (speaker, mix) = match (pairing, picked) {
        (Pairing::Separate, Some((i, f))) => (Some((i, f)), None),
        (Pairing::Mixed, Some((i, f))) => (Some((i, f)), Some(make_main_mix(mode, format, f))),
        _ => (None, None),
    };
    let outputs = OutputPlan::new(
        platform.path_style(),
        path,
        fmt,
        record_pre,
        record_post,
        pairing,
    );
    Ok(RecordingPlan { device, format, pairing, speaker, mix, outputs })
}

/// What is to run while nothing is recorded.
#[derive(Debug)]
pub enum LivePlan {
    /// Nothing; the meters show silence where live input is switched off.
    Idle { quiet_meters: bool },
    /// The first channel, with the analyzers on it.
    Alone { device: usize, format: AudioFormat },
    /// Both channels, with the analyzers on their mix.
    Mixed {
        device: usize,
        format: AudioFormat,
        speaker: usize,
        speaker_format: AudioFormat,
        mix: MixerConfig,
    },
}

/// Plans what is to run while nothing is recorded. The second channel takes part where the mode
/// records it; separate files do not keep the analyzers from hearing the sum.
pub fn plan_live(
    lists: &SourceLists,
    platform: Platform,
    mode: SpeakerMode,
    recording: bool,
    live_enabled: bool,
) -> (p: LivePlan)
    ensures
        recording ==> p == (LivePlan::Idle { quiet_meters: false }),
        !recording && !live_enabled ==> p == (LivePlan::Idle { quiet_meters: true }),
        !recording && live_enabled ==> match lists.picked_device() {
            None => p == (LivePlan::Idle { quiet_meters: false }),
            Some(i) => if mode != SpeakerMode::Off && lists.ch2_takes_part(platform) {
                let k = lists.speaker_index->0;
                p matches LivePlan::Mixed { device, format, speaker, speaker_format: f, mix } && {
                    &&& device == i
                    &&& format == mic_format(*lists, i as int)
                    &&& speaker == k
                    &&& f == speaker_format(*lists, k as int)
                    &&& is_main_mix(mix, mode, format, f)
                }
            } else {
                p == (LivePlan::Alone { device: i, format: mic_format(*lists, i as int) })
            },
        },
{
    if recording {
        return LivePlan::Idle { quiet_meters: false };
    }
    if !live_enabled {
        return LivePlan::Idle { quiet_meters: true };
    }
    let device = match lists.selected_device() {
        Some(i) => i,
        None => {
            return LivePlan::Idle { quiet_meters: false };
        },
    };
    let format = format_or_fallback(lists.devices[device].default_format);
    if !mode.is_active() {
        return LivePlan::Alone { device, format };
    }
    match lists.selected_loopback_pair(platform) {
        Some((speaker, speaker_format)) => LivePlan::Mixed {
            device,
            format,
            speaker,
            speaker_format,
            mix: make_main_mix(mode, format, speaker_format),
        },
        None => LivePlan::Alone { device, format },
    }
}

/// What tells one live setup from another. `G` is the type of gains.
#[derive(Debug)]
pub struct LiveFingerprint<G> {
    pub ch1_device: String,
    pub ch1_format: AudioFormat,
    pub ch1_gain: G,
    pub ch1_input_channel: usize,
    pub ch2: Option<(String, AudioFormat)>,
    pub ch2_gain: G,
    pub ch2_input_channel: usize,
    pub main_mix: SpeakerMode,
    pub live_enabled: bool,
    pub local_analyzer_sig: String,
    pub parakeet_sig: String,
    pub vst_ch1_sig: String,
    pub vst_ch2_sig: String,
}

/// The settings of a strip that a fingerprint takes in.
#[derive(Debug, Clone, Copy)]
pub struct StripSettings<G> {
    pub gain: G,
    pub input_channel: usize,
}

/// The paths of a chain's plugins.
pub open spec fn chain_paths<P>(chain: Seq<ChainEntry<P>>) -> Seq<Seq<char>> {
    chain.map_values(|e: ChainEntry<P>| e.catalog.path_text())
}

/// What tells one chain from another.
pub fn chain_signature<P>(chain: &Vec<ChainEntry<P>>) -> (s: String)
    ensures
        s@ == crate::local_analyzers::joined(chain_paths(chain@), "|"@),
{
    let mut paths: Vec<String> = Vec::new();
    let mut i: usize = 0;
    while i < chain.len()
        invariant
            i <= chain@.len(),
            crate::transcript::texts(paths@) == chain_paths(chain@).take(i as int),
        decreases chain@.len() - i,
    {
        let ghost before = paths@;
        paths.push(owned(chain[i].catalog.path()));
        assert(crate::transcript::texts(paths@) =~= crate::transcript::texts(before).push(
            chain@[i as int].catalog.path_text(),
        ));
        assert(chain_paths(chain@).take(i + 1) =~= chain_paths(chain@).take(i as int).push(
            chain@[i as int].catalog.path_text(),
        ));
        i += 1;
    }
    assert(chain_paths(chain@).take(chain@.len() as int) =~= chain_paths(chain@));
    crate::local_analyzers::join(&paths, "|")
}

/// The fingerprint of a setup with the picked sources.
pub fn compute_live_fingerprint<G>(
    lists: &SourceLists,
    platform: Platform,
    device: usize,
    ch1: StripSettings<G>,
    ch2: StripSettings<G>,
    mode: SpeakerMode,
    live_enabled: bool,
    analyzers: &Vec<LocalAnalyzerSelection>,
    parakeet_sig: String,
    vst_ch1_sig: String,
    vst_ch2_sig: String,
) -> (f: LiveFingerprint<G>)
    requires
        device < lists.devices@.len(),
    ensures
        f.ch1_device@ == lists.devices@[device as int].id@,
        f.ch1_format == mic_format(*lists, device as int),
        f.ch1_gain == ch1.gain,
        f.ch1_input_channel == ch1.input_channel,
        if lists.ch2_takes_part(platform) {
            f.ch2 matches Some((id, format)) && id@ == lists.speaker_id()->0 && format
                == speaker_format(*lists, lists.speaker_index->0 as int)
        } else {
            f.ch2 is None
        },
        f.ch2_gain == ch2.gain,
        f.ch2_input_channel == ch2.input_channel,
        f.main_mix == mode,
        f.live_enabled == live_enabled,
        f.local_analyzer_sig@ == crate::local_analyzers::joined(
            crate::local_analyzers::enabled_ids(analyzers@),
            ","@,
        ),
        f.parakeet_sig == parakeet_sig,
        f.vst_ch1_sig == vst_ch1_sig,
        f.vst_ch2_sig == vst_ch2_sig,
{
    let pair = match lists.selected_loopback_pair(platform) {
        Some((i, format)) => Some((owned(lists.speaker_sources[i].id.as_str()), format)),
        None => None,
    };
    LiveFingerprint {
        ch1_device: owned(lists.devices[device].id.as_str()),
        ch1_format: format_or_fallback(lists.devices[device].default_format),
        ch1_gain: ch1.gain,
        ch1_input_channel: ch1.input_channel,
        ch2: pair,
        ch2_gain: ch2.gain,
        ch2_input_channel: ch2.input_channel,
        main_mix: mode,
        live_enabled,
        local_analyzer_sig: analyzer_signature(analyzers),
        parakeet_sig,
        vst_ch1_sig,
        vst_ch2_sig,
    }
}

/// Two fingerprints agree on everything but the gains.
pub open spec fn same_setup<G>(a: LiveFingerprint<G>, b: LiveFingerprint<G>) -> bool {
    &&& a.ch1_device@ == b.ch1_device@
    &&& a.ch1_format == b.ch1_format
    &&& a.ch1_input_channel == b.ch1_input_channel
    &&& match (a.ch2, b.ch2) {
        (Some(x), Some(y)) => x.0@ == y.0@ && x.1 == y.1,
        (None, None) => true,
        _ => false,
    }
    &&& a.ch2_input_channel == b.ch2_input_channel
    &&& a.main_mix == b.main_mix
    &&& a.live_enabled == b.live_enabled
    &&& a.local_analyzer_sig@ == b.local_analyzer_sig@
    &&& a.parakeet_sig@ == b.parakeet_sig@
    &&& a.vst_ch1_sig@ == b.vst_ch1_sig@
    &&& a.vst_ch2_sig@ == b.vst_ch2_sig@
}

/// Whether two fingerprints agree; `same_gains` tells whether their gains do.
pub fn fingerprints_agree<G>(a: &LiveFingerprint<G>, b: &LiveFingerprint<G>, same_gains: bool) -> (r:
    bool)
    ensures
        r == (same_gains && same_setup(*a, *b)),
{
    let same_pair: bool = match (&a.ch2, &b.ch2) {
        (Some(x), Some(y)) => text_equal(x.0.as_str(), y.0.as_str()) && x.1 == y.1,
        (None, None) => true,
        _ => false,
    };
    same_gains && same_pair && text_equal(a.ch1_device.as_str(), b.ch1_device.as_str())
        && a.ch1_format == b.ch1_format && a.ch1_input_channel == b.ch1_input_channel
        && a.ch2_input_channel == b.ch2_input_channel && a.main_mix == b.main_mix && a.live_enabled
        == b.live_enabled && text_equal(
        a.local_analyzer_sig.as_str(),
        b.local_analyzer_sig.as_str(),
    ) && text_equal(a.parakeet_sig.as_str(), b.parakeet_sig.as_str()) && text_equal(
        a.vst_ch1_sig.as_str(),
        b.vst_ch1_sig.as_str(),
    ) && text_equal(a.vst_ch2_sig.as_str(), b.vst_ch2_sig.as_str())
}

/// What becomes of the live input.
#[derive(Debug, Clone, Copy, PartialEq, Eq, Structural)]
pub enum LiveStep {
    Stop,
    Keep,
    Restart,
}

/// Decides what becomes of the live input: it gives way to a recording, stops where it is switched
/// off or there is no microphone, and starts anew where what runs is not what is wanted.
pub fn ensure_live(recording: bool, live_enabled: bool, device: Option<usize>, running: Option<
    bool,
>) -> (s: LiveStep)
    ensures
        s == if recording || !live_enabled || device is None {
            LiveStep::Stop
        } else if running == Some(true) {
            LiveStep::Keep
        } else {
            LiveStep::Restart
        },
{
    if recording || !live_enabled || device.is_none() {
        return LiveStep::Stop;
    }
    match running {
        Some(true) => LiveStep::Keep,
        _ => LiveStep::Restart,
    }
}

/// The message on a recording that runs.
pub fn recording_status(speaker_active: bool) -> (s: &'static str)
    ensures
        s@ == if speaker_active {
            "Recording channel 1 + channel 2 (+ Main when post is enabled)… (pause skips writing; stop finalizes files.)"@
        } else {
            "Recording… (pause skips writing; stop finalizes files.)"@
        },
{
    if speaker_active {
        "Recording channel 1 + channel 2 (+ Main when post is enabled)… (pause skips writing; stop finalizes files.)"
    } else {
        "Recording… (pause skips writing; stop finalizes files.)"
    }
}

/// Whether a recording pauses after the button was pressed, and the message on it.
pub fn toggle_pause(paused: bool) -> (r: (bool, &'static str))
    ensures
        r.0 == !paused,
        r.1@ == if r.0 {
            "Paused (audio not written)."@
        } else {
            "Recording…"@
        },
{
    if !paused {
        (true, "Paused (audio not written).")
    } else {
        (false, "Recording…")
    }
}

/// The message on playing the last file; fails where there is none to play.
pub fn play_status(path: Option<&str>, exists: bool) -> (r: std::result::Result<String, String>)
    ensures
        match path {
            None => r is Err && r->Err_0@ == "No file to play yet."@,
            Some(p) => if exists {
                r is Ok && r->Ok_0@ == "Playing "@ + p@ + " …"@
            } else {
                r is Err && r->Err_0@ == "Missing file: "@ + p@
            },
        },
{
    match path {
        None => Err(owned("No file to play yet.")),
        Some(p) => {
            if exists {
                let mut s = owned("Playing ");
                push_text(&mut s, p);
                push_text(&mut s, " …");
                Ok(s)
            } else {
                let mut s = owned("Missing file: ");
                push_text(&mut s, p);
                Err(s)
            }
        },
    }
}

/// What a click on a plugin does.
#[derive(Debug, Clone, Copy, PartialEq, Eq, Structural)]
pub enum FxClick {
    Remove,
    ToggleBypass,
    ToggleEditor,
}

/// What a click on a plugin does, by the keys that are held.
pub fn fx_click(alt: bool, shift: bool) -> (c: FxClick)
    ensures
        c == if alt {
            FxClick::Remove
        } else if shift {
            FxClick::ToggleBypass
        } else {
            FxClick::ToggleEditor
        },
{
    if alt {
        FxClick::Remove
    } else if shift {
        FxClick::ToggleBypass
    } else {
        FxClick::ToggleEditor
    }
}

/// The move that dragging a plugin over another one makes, while the button is held.
pub fn drag_over(dragged: Option<usize>, hovered: usize, held: bool) -> (m: Option<(usize, usize)>)
    ensures
        m == match dragged {
            Some(from) => if held && from != hovered {
                Some((from, hovered))
            } else {
                None
            },
            None => None,
        },
{
    match dragged {
        Some(from) => if held && from != hovered {
            Some((from, hovered))
        } else {
            None
        },
        None => None,
    }
}

/// How many rows a plugin list holds at least.
pub const FX_ROWS: usize = 6;

/// How many rows to add plugins with follow a list: as many as it lacks, and one in any case.
pub fn empty_rows(plugins: usize) -> (n: usize)
    ensures
        n == if plugins < FX_ROWS {
            FX_ROWS - plugins
        } else {
            1
        },
{
    if plugins < FX_ROWS {
        FX_ROWS - plugins
    } else {
        1
    }
}

/// Where a picked plugin goes.
#[derive(Debug, Clone, Copy, PartialEq, Eq, Structural)]
pub enum PluginPickerTarget {
    /// To the analyzers of the main strip.
    MainInternal,
    Ch1Vst,
    Ch2Vst,
}

impl Default for PluginPickerTarget {
    fn default() -> (t: Self)
        ensures
            t == PluginPickerTarget::MainInternal,
    {
        PluginPickerTarget::MainInternal
    }
}

impl PluginPickerTarget {
    /// The title of the list to pick from.
    pub fn title(self) -> (s: &'static str)
        ensures
            s@ == match self {
                PluginPickerTarget::MainInternal => "Add internal plugin"@,
                PluginPickerTarget::Ch1Vst => "Add plugin (channel 1)"@,
                PluginPickerTarget::Ch2Vst => "Add plugin (channel 2)"@,
            },
    {
        match self {
            PluginPickerTarget::MainInternal => "Add internal plugin",
            PluginPickerTarget::Ch1Vst => "Add plugin (channel 1)",
            PluginPickerTarget::Ch2Vst => "Add plugin (channel 2)",
        }
    }
}

/// The message on a plugin that was picked for a channel.
pub fn picked_status(channel: Channel, added: &std::result::Result<(), String>) -> (s: String)
    ensures
        match *added {
            Ok(()) => s@ == match channel {
                Channel::One => "Plugin added to channel 1."@,
                Channel::Two => "Plugin added to channel 2."@,
            },
            Err(e) => s@ == (match channel {
                Channel::One => "Add plugin: "@,
                Channel::Two => "Add plugin (Ch2): "@,
            }) + e@,
        },
{
    match added {
        Ok(()) => match channel {
            Channel::One => owned("Plugin added to channel 1."),
            Channel::Two => owned("Plugin added to channel 2."),
        },
        Err(e) => {
            let mut s = match channel {
                Channel::One => owned("Add plugin: "),
                Channel::Two => owned("Add plugin (Ch2): "),
            };
            push_text(&mut s, e.as_str());
            s
        },
    }
}

/// How long the window may wait before it draws again, in milliseconds; nothing where an editor
/// is open.
pub fn repaint_delay(editor_open: bool, active: bool) -> (ms: u64)
    ensures
        ms == if editor_open {
            0
        } else if active {
            33
        } else {
            250int
        },
{
    if editor_open {
        0
    } else if active {
        33
    } else {
        250
    }
}

/// Stereo split puts the microphone on the left and the speaker on the right; mixed sums both. The
/// mix has the microphone as its first leg and the speaker as its second, and lets one wait for the
/// other by a fifth of a second.
pub proof fn the_mix_follows_the_mode(
    m: MixerConfig,
    mode: SpeakerMode,
    mic: AudioFormat,
    speaker: AudioFormat,
)
    requires
        is_main_mix(m, mode, mic, speaker),
    ensures
        mode == SpeakerMode::StereoSplit ==> m.mode == MixMode::SplitStereo,
        mode == SpeakerMode::Mixed ==> m.mode == MixMode::SumStereo,
        m.mic_format == mic,
        m.speaker_format == speaker,
        m.jitter_window@ * 5 == 1_000_000_000,
{
}

/// A saved chain is restored as far as its plug-ins are still there: each entry whose format and
/// path are in the catalog, in order, at its first place there and bypassed as it was; the others
/// are left out.
pub proof fn missing_plugins_are_left_out(
    catalog: Seq<CatalogEntry>,
    saved: Seq<PersistedVstEntry>,
    pick: spec_fn(PersistedVstEntry) -> Option<(nat, bool)>,
)
    requires
        forall|s: PersistedVstEntry| #[trigger]
            pick(s) == match catalog_place(catalog, s) {
                Some(i) => Some((i, s.bypassed)),
                None => None,
            },
    ensures
        restore_plan(catalog, saved) == saved.filter_map(pick),
    decreases saved.len(),
{
    if saved.len() > 0 {
        missing_plugins_are_left_out(catalog, saved.drop_last(), pick);
    }
    assert(restore_plan(catalog, saved) =~= saved.filter_map(pick));
}

/// A saved plug-in is found at the first place in the catalog that has its format and its path,
/// and nowhere where none has.
pub proof fn the_first_match_is_found(catalog: Seq<CatalogEntry>, saved: PersistedVstEntry)
    ensures
        match catalog_place(catalog, saved) {
            Some(i) => {
                &&& i < catalog.len()
                &&& catalog[i as int].label_text() == saved.format@
                &&& catalog[i as int].path_text() == saved.path@
                &&& forall|k: int|
                    0 <= k < i ==> (#[trigger] catalog[k]).label_text() != saved.format@
                        || catalog[k].path_text() != saved.path@
            },
            None => forall|k: int|
                0 <= k < catalog.len() ==> (#[trigger] catalog[k]).label_text() != saved.format@
                    || catalog[k].path_text() != saved.path@,
        },
    decreases catalog.len(),
{
    if catalog.len() > 0 {
        let rest = catalog.drop_last();
        the_first_match_is_found(rest, saved);
        assert forall|k: int| 0 <= k < rest.len() implies #[trigger] catalog[k] == rest[k] by {}
    }
}

/// Pausing twice resumes.
pub proof fn pausing_twice_resumes(
    paused: bool,
    once: (bool, &'static str),
    twice: (bool, &'static str),
)
    requires
        call_ensures(toggle_pause, (paused,), once),
        call_ensures(toggle_pause, (once.0,), twice),
    ensures
        once.0 != paused,
        twice.0 == paused,
{
}

} // verus!
