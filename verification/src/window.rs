//! The state behind the recorder's window: how it starts from what was saved, how it is saved, and
//! how the analyzers in it are changed.

use vstd::prelude::*;

use crate::buffer::SampleMap;
use crate::desk::{PersistedSettings, PersistedVstEntry, StripSettings};
use crate::local_analyzers::{
    analyzer_order, enabled_analyzers, move_internal_plugin_to, properties_message,
    restored_analyzers, set_enabled, LocalAnalyzerSelection,
};
use crate::outputs::{OutFormat, SpeakerMode};
use crate::selection::SourceLists;
use crate::source::CaptureSource;
use crate::text::{owned, push_text};
use crate::transcript::TranscriptLog;

verus! {

/// The state behind the window. `G` is the type of gains, `P` that of the transcriber's settings.
#[derive(Debug)]
pub struct Desk<G, P> {
    pub path: String,
    pub format: OutFormat,
    pub record_pre: bool,
    pub record_post: bool,
    pub live_enabled: bool,
    pub ch1: StripSettings<G>,
    pub ch2: StripSettings<G>,
    pub lists: SourceLists,
    pub speaker_mode: SpeakerMode,
    pub analyzers: Vec<LocalAnalyzerSelection>,
    pub parakeet: P,
    pub log: TranscriptLog,
    pub status: String,
}

/// The desk is what the settings and the sources come to at the start. Gains are brought within
/// limits by `limit`.
pub open spec fn is_restored<G, P, M: SampleMap<G, G>>(
    limit: &M,
    saved: PersistedSettings<G, P>,
    sources: Seq<CaptureSource>,
    standard: P,
    d: Desk<G, P>,
) -> bool {
    &&& d.path == saved.path
    &&& d.format == saved.format
    &&& d.record_pre == saved.record_pre
    &&& d.record_post == saved.record_post
    &&& d.live_enabled == saved.live_enabled
    &&& call_ensures(M::apply, (limit, saved.channel_gain), d.ch1.gain)
    &&& d.ch1.input_channel == saved.input_channel
    &&& call_ensures(M::apply, (limit, saved.channel2_gain), d.ch2.gain)
    &&& d.ch2.input_channel == saved.channel2_input_channel
    &&& d.lists.devices@ == crate::selection::inputs_of(sources)
    &&& d.lists.speaker_sources@ == crate::selection::loopbacks_of(sources)
    &&& match crate::selection::wanted_position(
        d.lists.devices@,
        crate::selection::option_text(saved.selected_device_id),
    ) {
        Some(i) => d.lists.device_index is Some && d.lists.device_index->0 == i,
        None => d.lists.device_index == if d.lists.devices@.len() == 0 {
            None::<usize>
        } else {
            Some(0usize)
        },
    }
    &&& crate::selection::same_place(
        d.lists.speaker_index,
        crate::selection::wanted_position(
            d.lists.speaker_sources@,
            crate::selection::option_text(saved.selected_speaker_source_id),
        ),
    )
    &&& d.speaker_mode == match saved.speaker_mode {
        Some(mode) => mode,
        None => if saved.record_speaker {
            SpeakerMode::Separate
        } else {
            SpeakerMode::Off
        },
    }
    &&& has_analyzers(d.analyzers@, saved.local_analyzer_order@, saved.enabled_analyzers@)
    &&& d.parakeet == match saved.parakeet {
        Some(p) => p,
        None => standard,
    }
}

/// The analyzers are all there are, in the given order, with the given ones on.
pub open spec fn has_analyzers(
    analyzers: Seq<LocalAnalyzerSelection>,
    order: Seq<String>,
    enabled: Seq<String>,
) -> bool {
    &&& exists|all: Seq<LocalAnalyzerSelection>| #[trigger]
        crate::local_analyzers::are_all_offered(all)
            && crate::local_analyzers::same_analyzers(
            analyzers,
            crate::local_analyzers::ordered(all, crate::transcript::texts(order)),
        )
    &&& forall|k: int|
        0 <= k < analyzers.len() ==> (#[trigger] analyzers[k]).enabled
            == crate::local_analyzers::is_listed(enabled, analyzers[k].id@)
}

/// The settings are what is kept of the desk.
pub open spec fn is_persisted<G, P>(d: Desk<G, P>, saved: PersistedSettings<G, P>) -> bool {
    &&& saved.path@ == d.path@
    &&& saved.format == d.format
    &&& saved.record_pre == d.record_pre
    &&& saved.record_post == d.record_post
    &&& saved.live_enabled == d.live_enabled
    &&& saved.channel_gain == d.ch1.gain
    &&& saved.input_channel == d.ch1.input_channel
    &&& saved.channel2_gain == d.ch2.gain
    &&& saved.channel2_input_channel == d.ch2.input_channel
    &&& crate::selection::option_text(saved.selected_device_id) == d.lists.device_id()
    &&& saved.record_speaker == d.lists.speaker_id() is Some
    &&& saved.speaker_mode == Some(d.speaker_mode)
    &&& crate::selection::option_text(saved.selected_speaker_source_id) == d.lists.speaker_id()
    &&& crate::transcript::texts(saved.local_analyzer_order@) == crate::local_analyzers::ids_of(
        d.analyzers@,
    )
    &&& crate::transcript::texts(saved.enabled_analyzers@) == crate::local_analyzers::enabled_ids(
        d.analyzers@,
    )
}

impl<G: Copy, P> Desk<G, P> {
    /// The desk at the start, from what was saved and the sources that there are.
    pub fn restored<M: SampleMap<G, G>>(
        limit: &M,
        saved: PersistedSettings<G, P>,
        sources: Vec<CaptureSource>,
        standard: P,
    ) -> (d: Self)
        ensures
            is_restored(limit, saved, sources@, standard, d),
            d.log.analysis_events@.len() == 0,
            d.log.transcript_lines@.len() == 0,
            d.status@ == "Ready."@,
            d.lists.well_formed(),
    {
        let lists = SourceLists::restored(
            sources,
            &saved.selected_device_id,
            &saved.selected_speaker_source_id,
        );
        let analyzers = restored_analyzers(&saved.local_analyzer_order, &saved.enabled_analyzers);
        let speaker_mode = SpeakerMode::restored(saved.speaker_mode, saved.record_speaker);
        let ch1 = StripSettings {
            gain: limit.apply(saved.channel_gain),
            input_channel: saved.input_channel,
        };
        let ch2 = StripSettings {
            gain: limit.apply(saved.channel2_gain),
            input_channel: saved.channel2_input_channel,
        };
        let parakeet = match saved.parakeet {
            Some(p) => p,
            None => standard,
        };
        Desk {
            path: saved.path,
            format: saved.format,
            record_pre: saved.record_pre,
            record_post: saved.record_post,
            live_enabled: saved.live_enabled,
            ch1,
            ch2,
            lists,
            speaker_mode,
            analyzers,
            parakeet,
            log: TranscriptLog::new(),
            status: owned("Ready."),
        }
    }

    /// What is kept of the desk, with the plugins of both channels.
    pub fn persisted_settings(
        &self,
        vst_chain: Vec<PersistedVstEntry>,
        vst_chain_ch2: Vec<PersistedVstEntry>,
        parakeet: P,
    ) -> (saved: PersistedSettings<G, P>)
        ensures
            is_persisted(*self, saved),
            saved.vst_chain == vst_chain,
            saved.vst_chain_ch2 == vst_chain_ch2,
            saved.parakeet == Some(parakeet),
    {
        PersistedSettings {
            path: owned(self.path.as_str()),
            format: self.format,
            record_pre: self.record_pre,
            record_post: self.record_post,
            live_enabled: self.live_enabled,
            channel_gain: self.ch1.gain,
            input_channel: self.ch1.input_channel,
            channel2_gain: self.ch2.gain,
            channel2_input_channel: self.ch2.input_channel,
            selected_device_id: self.lists.selected_device_id(),
            local_analyzer_order: analyzer_order(&self.analyzers),
            enabled_analyzers: enabled_analyzers(&self.analyzers),
            vst_chain,
            vst_chain_ch2,
            record_speaker: self.lists.ch2_selected(),
            speaker_mode: Some(self.speaker_mode),
            selected_speaker_source_id: self.lists.selected_speaker_id(),
            parakeet: Some(parakeet),
        }
    }

    /// The rest of the desk is as before.
    pub open spec fn same_settings(self, other: Self) -> bool {
        &&& self.path == other.path
        &&& self.format == other.format
        &&& self.record_pre == other.record_pre
        &&& self.record_post == other.record_post
        &&& self.live_enabled == other.live_enabled
        &&& self.ch1 == other.ch1
        &&& self.ch2 == other.ch2
        &&& self.lists == other.lists
        &&& self.speaker_mode == other.speaker_mode
        &&& self.parakeet == other.parakeet
    }

    /// The log is empty.
    pub open spec fn log_is_empty(self) -> bool {
        self.log.analysis_events@.len() == 0 && self.log.transcript_lines@.len() == 0
    }

    /// Switches on the analyzer at a place, if there is one: what it showed before goes. Tells
    /// whether the live input has to start anew.
    pub fn add_internal(&mut self, i: usize) -> (restart: bool)
        ensures
            final(self).same_settings(*old(self)),
            restart == (i < old(self).analyzers@.len()),
            restart ==> {
                &&& final(self).analyzers@ == crate::local_analyzers::switched(
                    old(self).analyzers@,
                    i as int,
                    true,
                )
                &&& final(self).log_is_empty()
                &&& final(self).status@ == "Added internal plugin: "@ + old(self).analyzers@[i as int].name@
            },
            !restart ==> *final(self) == *old(self),
    {
        if i >= self.analyzers.len() {
            return false;
        }
        let mut status = owned("Added internal plugin: ");
        push_text(&mut status, self.analyzers[i].name.as_str());
        let found = set_enabled(&mut self.analyzers, i, true);
        self.log = TranscriptLog::new();
        self.status = status;
        found
    }

    /// Switches off the analyzer at a place, if there is one: what it showed before goes. Tells
    /// whether the live input has to start anew.
    pub fn remove_internal(&mut self, i: usize) -> (restart: bool)
        ensures
            final(self).same_settings(*old(self)),
            final(self).status == old(self).status,
            restart == (i < old(self).analyzers@.len()),
            restart ==> final(self).analyzers@ == crate::local_analyzers::switched(
                old(self).analyzers@,
                i as int,
                false,
            ) && final(self).log_is_empty(),
            !restart ==> *final(self) == *old(self),
    {
        if i >= self.analyzers.len() {
            return false;
        }
        let found = set_enabled(&mut self.analyzers, i, false);
        self.log = TranscriptLog::new();
        found
    }

    /// Moves an analyzer to another place: what was shown before goes. Tells whether the live
    /// input has to start anew.
    pub fn move_internal(&mut self, from: usize, to: usize) -> (restart: bool)
        ensures
            final(self).same_settings(*old(self)),
            final(self).status == old(self).status,
            restart == (from < old(self).analyzers@.len() && to < old(self).analyzers@.len() && from
                != to),
            restart ==> final(self).analyzers@ == crate::vst_chain::moved(
                old(self).analyzers@,
                from as int,
                to as int,
            ) && final(self).log_is_empty(),
            !restart ==> final(self).analyzers@ == old(self).analyzers@ && final(self).log == old(self).log,
    {
        if !move_internal_plugin_to(&mut self.analyzers, from, to) {
            return false;
        }
        self.log = TranscriptLog::new();
        true
    }

    /// A click on an analyzer: tells whether its panel opens. Where it has none, a message says
    /// so.
    pub fn open_properties(&mut self, i: usize) -> (opens: bool)
        ensures
            final(self).same_settings(*old(self)),
            final(self).analyzers == old(self).analyzers,
            final(self).log == old(self).log,
            opens == (i < old(self).analyzers@.len() && old(self).analyzers@[i as int].id@
                == crate::parakeet::PARAKEET_PLUGIN_ID@),
            final(self).status@ == if !opens && i < old(self).analyzers@.len() {
                old(self).analyzers@[i as int].name@
                    + " has no properties panel (only Parakeet does today)."@
            } else {
                old(self).status@
            },
    {
        if i >= self.analyzers.len() {
            return false;
        }
        match properties_message(&self.analyzers[i]) {
            None => true,
            Some(message) => {
                self.status = message;
                false
            },
        }
    }

    /// Takes new settings of the transcriber: what it showed before goes.
    pub fn apply_parakeet(&mut self, parakeet: P)
        ensures
            final(self).same_settings((Desk { parakeet, ..*old(self) })),
            final(self).analyzers == old(self).analyzers,
            final(self).log_is_empty(),
            final(self).status@ == "Parakeet settings applied."@,
    {
        self.parakeet = parakeet;
        self.log = TranscriptLog::new();
        self.status = owned("Parakeet settings applied.");
    }

    /// Picks a speaker for the second channel, or none. A speaker that is picked is recorded.
    pub fn pick_speaker(&mut self, speaker: Option<usize>)
        ensures
            final(self).path == old(self).path,
            final(self).format == old(self).format,
            final(self).record_pre == old(self).record_pre,
            final(self).record_post == old(self).record_post,
            final(self).live_enabled == old(self).live_enabled,
            final(self).ch1 == old(self).ch1,
            final(self).ch2 == old(self).ch2,
            final(self).lists == (SourceLists { speaker_index: speaker, ..old(self).lists }),
            final(self).speaker_mode == if speaker is Some && old(self).speaker_mode
                == SpeakerMode::Off {
                SpeakerMode::Mixed
            } else {
                old(self).speaker_mode
            },
            final(self).analyzers == old(self).analyzers,
            final(self).parakeet == old(self).parakeet,
            final(self).log == old(self).log,
            final(self).status == old(self).status,
    {
        self.lists.speaker_index = speaker;
        if speaker.is_some() {
            self.speaker_mode = self.speaker_mode.after_pick();
        }
    }
}

/// The analyzers are all that there are, each once.
pub open spec fn analyzers_are_complete(analyzers: Seq<LocalAnalyzerSelection>) -> bool {
    let ids = crate::local_analyzers::ids_of(analyzers);
    &&& ids.len() == 2
    &&& ids.no_duplicates()
    &&& ids.contains(crate::local_analyzers::VOICE_ACTIVITY_ID@)
    &&& ids.contains(crate::parakeet::PARAKEET_PLUGIN_ID@)
}

proof fn lemma_enabled_are_listed(analyzers: Seq<LocalAnalyzerSelection>, i: int)
    requires
        crate::local_analyzers::ids_of(analyzers).no_duplicates(),
        0 <= i < analyzers.len(),
    ensures
        crate::local_analyzers::enabled_ids(analyzers).contains(analyzers[i].id@)
            == analyzers[i].enabled,
{
    lemma_enabled_ids(analyzers, analyzers[i].id@);
    let ids = crate::local_analyzers::ids_of(analyzers);
    assert(ids[i] == analyzers[i].id@);
    if crate::local_analyzers::enabled_ids(analyzers).contains(analyzers[i].id@) {
        let k = choose|k: int|
            0 <= k < analyzers.len() && (#[trigger] analyzers[k]).enabled && analyzers[k].id@
                == analyzers[i].id@;
        assert(ids[k] == ids[i]);
    }
}

proof fn lemma_enabled_ids(analyzers: Seq<LocalAnalyzerSelection>, id: Seq<char>)
    ensures
        crate::local_analyzers::enabled_ids(analyzers).contains(id) == (exists|k: int|
            0 <= k < analyzers.len() && (#[trigger] analyzers[k]).enabled && analyzers[k].id@
                == id),
    decreases analyzers.len(),
{
    if analyzers.len() > 0 {
        let rest = analyzers.drop_last();
        let last = analyzers.len() - 1;
        lemma_enabled_ids(rest, id);
        let before = crate::local_analyzers::enabled_ids(rest);
        let now = crate::local_analyzers::enabled_ids(analyzers);
        if exists|k: int|
            0 <= k < analyzers.len() && (#[trigger] analyzers[k]).enabled && analyzers[k].id@
                == id {
            let k = choose|k: int|
                0 <= k < analyzers.len() && (#[trigger] analyzers[k]).enabled && analyzers[k].id@
                    == id;
            if k < last {
                assert(rest[k] == analyzers[k]);
                let p = choose|p: int| 0 <= p < before.len() && before[p] == id;
                assert(now[p] == id);
            } else {
                assert(now[now.len() - 1] == id);
            }
        }
        if now.contains(id) {
            let p = choose|p: int| 0 <= p < now.len() && now[p] == id;
            if p < before.len() {
                assert(before[p] == id);
                let k = choose|k: int|
                    0 <= k < rest.len() && (#[trigger] rest[k]).enabled && rest[k].id@ == id;
                assert(analyzers[k] == rest[k]);
            } else {
                assert(analyzers[last].enabled && analyzers[last].id@ == id);
            }
        }
    }
}

/// A saved desk comes back: with the same sources, everything that is kept is as it was.
pub proof fn saved_desk_comes_back<G, P, M: SampleMap<G, G>>(
    limit: &M,
    before: Desk<G, P>,
    saved: PersistedSettings<G, P>,
    sources: Seq<CaptureSource>,
    standard: P,
    after: Desk<G, P>,
)
    requires
        before.lists.well_formed(),
        analyzers_are_complete(before.analyzers@),
        before.lists.devices@ == crate::selection::inputs_of(sources),
        before.lists.speaker_sources@ == crate::selection::loopbacks_of(sources),
        is_persisted(before, saved),
        is_restored(limit, saved, sources, standard, after),
    ensures
        after.path@ == before.path@,
        after.format == before.format,
        after.record_pre == before.record_pre,
        after.record_post == before.record_post,
        after.live_enabled == before.live_enabled,
        after.ch1.input_channel == before.ch1.input_channel,
        after.ch2.input_channel == before.ch2.input_channel,
        before.lists.device_id() is Some ==> after.lists.device_id() == before.lists.device_id(),
        after.lists.speaker_id() == before.lists.speaker_id(),
        after.speaker_mode == before.speaker_mode,
        crate::local_analyzers::ids_of(after.analyzers@) == crate::local_analyzers::ids_of(
            before.analyzers@,
        ),
        forall|k: int|
            0 <= k < after.analyzers@.len() ==> (#[trigger] after.analyzers@[k]).enabled
                == before.analyzers@[k].enabled,
{
    if before.lists.device_id() is Some {
        crate::selection::lemma_position(before.lists.devices@, before.lists.device_id()->0);
    }
    crate::selection::picks_are_restored(before.lists, after.lists);
    let order = crate::local_analyzers::ids_of(before.analyzers@);
    let all = choose|all: Seq<LocalAnalyzerSelection>| #[trigger]
        crate::local_analyzers::are_all_offered(all)
            && crate::local_analyzers::same_analyzers(
            after.analyzers@,
            crate::local_analyzers::ordered(all, order),
        );
    let known = crate::local_analyzers::ids_of(all);
    assert(known[0] == all[0].id@);
    assert(known[1] == all[1].id@);
    let v = choose|k: int|
        0 <= k < order.len() && order[k] == crate::local_analyzers::VOICE_ACTIVITY_ID@;
    let p = choose|k: int| 0 <= k < order.len() && order[k] == crate::parakeet::PARAKEET_PLUGIN_ID@;
    lemma_ids_differ();
    assert(v != p);
    assert forall|k: int| 0 <= k < order.len() implies known.contains(#[trigger] order[k]) by {
        if k == v {
            assert(known[0] == order[k]);
        } else {
            assert(known[1] == order[k]);
        }
    }
    crate::local_analyzers::saved_order_is_restored(all, order);
    let sorted = crate::local_analyzers::ordered(all, order);
    let ids = crate::local_analyzers::ids_of(after.analyzers@);
    assert(ids =~= crate::local_analyzers::ids_of(sorted));
    assert forall|k: int| 0 <= k < after.analyzers@.len() implies (
    #[trigger] after.analyzers@[k]).enabled == before.analyzers@[k].enabled by {
        lemma_enabled_are_listed(before.analyzers@, k);
        assert(ids[k] == order[k]);
        let listed = saved.enabled_analyzers@;
        let on = crate::transcript::texts(listed);
        let id = before.analyzers@[k].id@;
        if on.contains(id) {
            let q = choose|q: int| 0 <= q < on.len() && on[q] == id;
            assert(listed[q]@ == id);
        }
        if crate::local_analyzers::is_listed(listed, id) {
            let q = choose|q: int| 0 <= q < listed.len() && (#[trigger] listed[q])@ == id;
            assert(on[q] == id);
        }
    }
}

proof fn lemma_ids_differ()
    ensures
        crate::local_analyzers::VOICE_ACTIVITY_ID@ != crate::parakeet::PARAKEET_PLUGIN_ID@,
{
    reveal_strlit("builtin.voice-activity");
    reveal_strlit("nvidia.parakeet-unified-en-0.6b");
    assert(crate::local_analyzers::VOICE_ACTIVITY_ID@[0] == 'b');
    assert(crate::parakeet::PARAKEET_PLUGIN_ID@[0] == 'n');
}

/// Saved gains come back within their limits, and saved analyzer settings come back as they were;
/// where none were saved the standard ones are used.
pub proof fn saved_gains_come_back<G, P, M: SampleMap<G, G>>(
    limit: &M,
    before: Desk<G, P>,
    saved: PersistedSettings<G, P>,
    sources: Seq<CaptureSource>,
    standard: P,
    after: Desk<G, P>,
)
    requires
        is_persisted(before, saved),
        is_restored(limit, saved, sources, standard, after),
    ensures
        call_ensures(M::apply, (limit, before.ch1.gain), after.ch1.gain),
        call_ensures(M::apply, (limit, before.ch2.gain), after.ch2.gain),
        saved.parakeet matches Some(p) ==> after.parakeet == p,
        saved.parakeet is None ==> after.parakeet == standard,
{
}

} // verus!
