//! The sources that can be recorded, and which of them are picked.

use vstd::prelude::*;

use crate::format::{AudioFormat, SampleFormat};
use crate::host_windows::WindowsAudioSystem;
use crate::paths::PathStyle;
use crate::source::{CaptureSource, CaptureSourceKind, DeviceInfo};
use crate::text::{owned, push_decimal, push_text, text_equal};

verus! {

/// Something with an identifier.
pub trait Identified {
    /// The identifier.
    spec fn id_text(&self) -> Seq<char>;

    /// The identifier.
    fn id_str(&self) -> (s: &str)
        ensures
            s@ == self.id_text(),
    ;
}

impl Identified for DeviceInfo {
    open spec fn id_text(&self) -> Seq<char> {
        self.id@
    }

    fn id_str(&self) -> (s: &str) {
        self.id.as_str()
    }
}

impl Identified for CaptureSource {
    open spec fn id_text(&self) -> Seq<char> {
        self.id@
    }

    fn id_str(&self) -> (s: &str) {
        self.id.as_str()
    }
}

/// The first item with the given identifier.
pub open spec fn position<T: Identified>(items: Seq<T>, id: Seq<char>) -> Option<nat>
    decreases items.len(),
{
    if items.len() == 0 {
        None
    } else {
        match position(items.drop_last(), id) {
            Some(i) => Some(i),
            None => if items.last().id_text() == id {
                Some((items.len() - 1) as nat)
            } else {
                None
            },
        }
    }
}

/// The first item with an identifier is in the list and has it; where there is none, no item has.
pub proof fn lemma_position<T: Identified>(items: Seq<T>, id: Seq<char>)
    ensures
        match position(items, id) {
            Some(i) => {
                &&& i < items.len()
                &&& items[i as int].id_text() == id
                &&& forall|k: int| 0 <= k < i ==> (#[trigger] items[k]).id_text() != id
            },
            None => forall|k: int|
                0 <= k < items.len() ==> (#[trigger] items[k]).id_text() != id,
        },
    decreases items.len(),
{
    if items.len() > 0 {
        let rest = items.drop_last();
        lemma_position(rest, id);
        assert(forall|k: int| 0 <= k < rest.len() ==> rest[k] == #[trigger] items[k]);
    }
}

/// Finds the first item with the given identifier.
pub fn position_of<T: Identified>(items: &Vec<T>, id: &str) -> (r: Option<usize>)
    ensures
        match r {
            Some(i) => position(items@, id@) == Some(i as nat),
            None => position(items@, id@) is None,
        },
{
    let mut i: usize = 0;
    while i < items.len()
        invariant
            i <= items@.len(),
            forall|k: int| 0 <= k < i ==> (#[trigger] items@[k]).id_text() != id@,
        decreases items@.len() - i,
    {
        if text_equal(items[i].id_str(), id) {
            proof {
                lemma_position(items@, id@);
            }
            return Some(i);
        }
        i += 1;
    }
    proof {
        lemma_position(items@, id@);
    }
    None
}

/// The operating system, as far as the capture of speakers goes.
#[derive(Debug, Clone, Copy, PartialEq, Eq, Structural)]
pub enum Platform {
    Windows(WindowsAudioSystem),
    Macos,
    Linux,
    Other,
}

impl Platform {
    /// How paths are written.
    pub open spec fn path_style_spec(self) -> PathStyle {
        match self {
            Platform::Windows(_) => PathStyle::Windows,
            _ => PathStyle::Slash,
        }
    }

    /// How paths are written.
    #[verifier::when_used_as_spec(path_style_spec)]
    pub fn path_style(self) -> (s: PathStyle)
        ensures
            s == self.path_style_spec(),
    {
        match self {
            Platform::Windows(_) => PathStyle::Windows,
            _ => PathStyle::Slash,
        }
    }

    /// Why speakers cannot be recorded.
    pub open spec fn hint_text(self) -> Seq<char> {
        match self {
            Platform::Windows(_) => "Loopback capture requires the WASAPI audio system."@,
            Platform::Macos =>
            "macOS needs a virtual loopback driver (BlackHole, Loopback, etc.) for speaker capture."@,
            Platform::Linux =>
            "No PulseAudio/PipeWire monitor source was found for any output sink."@,
            Platform::Other => "Loopback is not supported on this platform."@,
        }
    }

    /// Why speakers cannot be recorded.
    pub fn loopback_unavailable_hint(self) -> (s: &'static str)
        ensures
            s@ == self.hint_text(),
    {
        match self {
            Platform::Windows(_) => "Loopback capture requires the WASAPI audio system.",
            Platform::Macos =>
            "macOS needs a virtual loopback driver (BlackHole, Loopback, etc.) for speaker capture.",
            Platform::Linux =>
            "No PulseAudio/PipeWire monitor source was found for any output sink.",
            Platform::Other => "Loopback is not supported on this platform.",
        }
    }
}

/// The format that is used where a source names none.
pub open spec fn fallback_format() -> AudioFormat {
    AudioFormat { sample_rate_hz: 48_000, channels: 2, sample_format: SampleFormat::F32 }
}

/// The format to record in.
pub fn format_or_fallback(f: Option<AudioFormat>) -> (r: AudioFormat)
    ensures
        r == match f {
            Some(f) => f,
            None => fallback_format(),
        },
{
    match f {
        Some(f) => f,
        None => AudioFormat::new(48_000, 2, SampleFormat::F32),
    }
}

/// The microphones among some sources.
pub open spec fn inputs_of(all: Seq<CaptureSource>) -> Seq<DeviceInfo>
    decreases all.len(),
{
    if all.len() == 0 {
        Seq::empty()
    } else {
        let rest = inputs_of(all.drop_last());
        let s = all.last();
        if s.kind == CaptureSourceKind::Input {
            rest.push(DeviceInfo { id: s.id, name: s.name, default_format: s.default_format })
        } else {
            rest
        }
    }
}

/// The speakers among some sources.
pub open spec fn loopbacks_of(all: Seq<CaptureSource>) -> Seq<CaptureSource>
    decreases all.len(),
{
    if all.len() == 0 {
        Seq::empty()
    } else {
        let rest = loopbacks_of(all.drop_last());
        if all.last().kind == CaptureSourceKind::Loopback {
            rest.push(all.last())
        } else {
            rest
        }
    }
}

/// Parts the sources into microphones and speakers; applications are neither.
pub fn split_sources(all: Vec<CaptureSource>) -> (r: (Vec<DeviceInfo>, Vec<CaptureSource>))
    ensures
        r.0@ == inputs_of(all@),
        r.1@ == loopbacks_of(all@),
{
    let ghost listed = all@;
    let mut devices: Vec<DeviceInfo> = Vec::new();
    let mut speakers: Vec<CaptureSource> = Vec::new();
    for s in it: all
        invariant
            it.seq() == listed,
            devices@ == inputs_of(listed.take(it.index() as int)),
            speakers@ == loopbacks_of(listed.take(it.index() as int)),
    {
        assert(listed.take(it.index() as int + 1).drop_last() =~= listed.take(it.index() as int));
        match s.kind {
            CaptureSourceKind::Input => {
                devices.push(
                    DeviceInfo { id: s.id, name: s.name, default_format: s.default_format },
                );
            },
            CaptureSourceKind::Loopback => {
                speakers.push(s);
            },
            CaptureSourceKind::AppOutput => {},
        }
    }
    assert(listed.take(listed.len() as int) =~= listed);
    (devices, speakers)
}

/// The sources that can be recorded, and which of them are picked.
#[derive(Debug)]
pub struct SourceLists {
    pub devices: Vec<DeviceInfo>,
    pub device_index: Option<usize>,
    pub speaker_sources: Vec<CaptureSource>,
    pub speaker_index: Option<usize>,
}

/// The place of an item that is sought by an identifier, if there is one to seek.
pub open spec fn wanted_position<T: Identified>(items: Seq<T>, id: Option<Seq<char>>) -> Option<
    nat,
> {
    match id {
        Some(id) => position(items, id),
        None => None,
    }
}

fn wanted_position_of<T: Identified>(items: &Vec<T>, id: &Option<String>) -> (r: Option<usize>)
    ensures
        same_place(r, wanted_position(items@, option_text(*id))),
{
    match id {
        Some(id) => position_of(items, id.as_str()),
        None => None,
    }
}

/// The text of a string that may be missing.
pub open spec fn option_text(s: Option<String>) -> Option<Seq<char>> {
    match s {
        Some(s) => Some(s@),
        None => None,
    }
}

/// Two ways to write one place.
pub open spec fn same_place(r: Option<usize>, p: Option<nat>) -> bool {
    match p {
        Some(p) => r is Some && r->0 == p,
        None => r is None,
    }
}

/// "Found <n> input device(s) and <m> loopback source(s)."
pub open spec fn found_text(devices: nat, speakers: nat) -> Seq<char> {
    "Found "@ + crate::text::decimal(devices) + " input device(s) and "@ + crate::text::decimal(
        speakers,
    ) + " loopback source(s)."@
}

impl SourceLists {
    /// What is picked is in the lists.
    pub open spec fn well_formed(self) -> bool {
        &&& self.device_index matches Some(i) ==> i < self.devices@.len()
        &&& self.speaker_index matches Some(i) ==> i < self.speaker_sources@.len()
    }

    /// The place of the picked microphone.
    pub open spec fn picked_device(self) -> Option<usize> {
        match self.device_index {
            Some(i) => if i < self.devices@.len() {
                Some(i)
            } else {
                None
            },
            None => None,
        }
    }

    /// The place of the picked microphone.
    pub fn selected_device(&self) -> (r: Option<usize>)
        ensures
            r == self.picked_device(),
    {
        match self.device_index {
            Some(i) => if i < self.devices.len() {
                Some(i)
            } else {
                None
            },
            None => None,
        }
    }

    /// The identifier of the picked microphone.
    pub open spec fn device_id(self) -> Option<Seq<char>> {
        match self.device_index {
            Some(i) => if i < self.devices@.len() {
                Some(self.devices@[i as int].id@)
            } else {
                None
            },
            None => None,
        }
    }

    /// The identifier of the picked speaker.
    pub open spec fn speaker_id(self) -> Option<Seq<char>> {
        match self.speaker_index {
            Some(i) => if i < self.speaker_sources@.len() {
                Some(self.speaker_sources@[i as int].id@)
            } else {
                None
            },
            None => None,
        }
    }

    /// The lists at the start: the saved microphone is picked, or the first; the saved speaker is
    /// picked, or none.
    pub fn restored(
        all: Vec<CaptureSource>,
        device_id: &Option<String>,
        speaker_id: &Option<String>,
    ) -> (l: Self)
        ensures
            l.devices@ == inputs_of(all@),
            l.speaker_sources@ == loopbacks_of(all@),
            match wanted_position(l.devices@, option_text(*device_id)) {
                Some(i) => l.device_index is Some && l.device_index->0 == i,
                None => l.device_index == if l.devices@.len() == 0 {
                    None::<usize>
                } else {
                    Some(0usize)
                },
            },
            same_place(
                l.speaker_index,
                wanted_position(l.speaker_sources@, option_text(*speaker_id)),
            ),
            l.well_formed(),
    {
        let (devices, speaker_sources) = split_sources(all);
        let saved = wanted_position_of(&devices, device_id);
        let device_index = match saved {
            Some(i) => Some(i),
            None => if devices.len() == 0 {
                None
            } else {
                Some(0)
            },
        };
        let speaker_index = wanted_position_of(&speaker_sources, speaker_id);
        proof {
            if let Some(id) = option_text(*device_id) {
                lemma_position(devices@, id);
            }
            if let Some(id) = option_text(*speaker_id) {
                lemma_position(speaker_sources@, id);
            }
        }
        SourceLists { devices, device_index, speaker_sources, speaker_index }
    }

    /// Takes a new list of sources, or the failure to get one. The place of the microphone stays
    /// as far as it can, and so does the speaker where it is still there. The result is the
    /// message on it.
    pub fn refresh(&mut self, listed: std::result::Result<Vec<CaptureSource>, String>) -> (status:
        String)
        ensures
            match listed {
                Ok(all) => {
                    &&& final(self).devices@ == inputs_of(all@)
                    &&& final(self).speaker_sources@ == loopbacks_of(all@)
                    &&& final(self).device_index == if inputs_of(all@).len() == 0 {
                        None
                    } else {
                        let last = (inputs_of(all@).len() - 1) as usize;
                        match old(self).device_index {
                            Some(i) => if i < last {
                                Some(i)
                            } else {
                                Some(last)
                            },
                            None => Some(0usize),
                        }
                    }
                    &&& same_place(
                        final(self).speaker_index,
                        wanted_position(loopbacks_of(all@), old(self).speaker_id()),
                    )
                    &&& status@ == found_text(inputs_of(all@).len(), loopbacks_of(all@).len())
                },
                Err(e) => {
                    &&& final(self).devices@.len() == 0
                    &&& final(self).speaker_sources@.len() == 0
                    &&& final(self).device_index is None
                    &&& final(self).speaker_index is None
                    &&& status@ == "Device list error: "@ + e@
                },
            },
            final(self).well_formed(),
    {
        let speaker_id = self.selected_speaker_id();
        let mut status = String::new();
        match listed {
            Ok(all) => {
                let (devices, speaker_sources) = split_sources(all);
                self.device_index =
                if devices.len() == 0 {
                    None
                } else {
                    let last: usize = devices.len() - 1;
                    match self.device_index {
                        Some(i) => Some(
                            if i < last {
                                i
                            } else {
                                last
                            },
                        ),
                        None => Some(0),
                    }
                };
                self.speaker_index = wanted_position_of(&speaker_sources, &speaker_id);
                proof {
                    if let Some(id) = option_text(speaker_id) {
                        lemma_position(speaker_sources@, id);
                    }
                }
                push_text(&mut status, "Found ");
                push_decimal(&mut status, devices.len() as u64);
                push_text(&mut status, " input device(s) and ");
                push_decimal(&mut status, speaker_sources.len() as u64);
                push_text(&mut status, " loopback source(s).");
                assert(status@ =~= found_text(devices@.len(), speaker_sources@.len()));
                self.devices = devices;
                self.speaker_sources = speaker_sources;
            },
            Err(e) => {
                push_text(&mut status, "Device list error: ");
                push_text(&mut status, e.as_str());
                assert(status@ =~= "Device list error: "@ + e@);
                self.devices = Vec::new();
                self.device_index = None;
                self.speaker_sources = Vec::new();
                self.speaker_index = None;
            },
        }
        status
    }

    /// The identifier of the picked microphone.
    pub fn selected_device_id(&self) -> (r: Option<String>)
        ensures
            option_text(r) == self.device_id(),
    {
        match self.device_index {
            Some(i) => if i < self.devices.len() {
                Some(owned(self.devices[i].id.as_str()))
            } else {
                None
            },
            None => None,
        }
    }

    /// The identifier of the picked speaker.
    pub fn selected_speaker_id(&self) -> (r: Option<String>)
        ensures
            option_text(r) == self.speaker_id(),
    {
        match self.speaker_index {
            Some(i) => if i < self.speaker_sources.len() {
                Some(owned(self.speaker_sources[i].id.as_str()))
            } else {
                None
            },
            None => None,
        }
    }

    /// Whether a speaker is picked for the second channel.
    pub fn ch2_selected(&self) -> (r: bool)
        ensures
            r == self.speaker_id() is Some,
    {
        match self.speaker_index {
            Some(i) => i < self.speaker_sources.len(),
            None => false,
        }
    }

    /// Speakers can be recorded.
    pub open spec fn supports_loopback(self, platform: Platform) -> bool {
        match platform {
            Platform::Windows(system) => system == WindowsAudioSystem::Wasapi,
            _ => self.speaker_sources@.len() > 0,
        }
    }

    /// Whether speakers can be recorded.
    pub fn loopback_supported(&self, platform: Platform) -> (r: bool)
        ensures
            r == self.supports_loopback(platform),
    {
        match platform {
            Platform::Windows(WindowsAudioSystem::Wasapi) => true,
            Platform::Windows(_) => false,
            _ => self.speaker_sources.len() > 0,
        }
    }

    /// The second channel takes part.
    pub open spec fn ch2_takes_part(self, platform: Platform) -> bool {
        self.speaker_id() is Some && self.supports_loopback(platform)
    }

    /// The place and the format of the speaker that takes part as the second channel.
    pub fn selected_loopback_pair(&self, platform: Platform) -> (r: Option<(usize, AudioFormat)>)
        ensures
            r is Some == self.ch2_takes_part(platform),
            r matches Some((i, f)) ==> {
                &&& self.speaker_index == Some(i)
                &&& i < self.speaker_sources@.len()
                &&& f == match self.speaker_sources@[i as int].default_format {
                    Some(f) => f,
                    None => fallback_format(),
                }
            },
    {
        if !self.loopback_supported(platform) {
            return None;
        }
        match self.speaker_index {
            Some(i) => if i < self.speaker_sources.len() {
                Some((i, format_or_fallback(self.speaker_sources[i].default_format)))
            } else {
                None
            },
            None => None,
        }
    }

    /// How many channels the picked microphone has; one where that is not known.
    pub fn selected_device_channel_count(&self) -> (n: usize)
        ensures
            n == match self.device_index {
                Some(i) => if i < self.devices@.len() {
                    channel_count(self.devices@[i as int].default_format)
                } else {
                    1
                },
                None => 1,
            },
    {
        match self.device_index {
            Some(i) => if i < self.devices.len() {
                channels_or_one(self.devices[i].default_format)
            } else {
                1
            },
            None => 1,
        }
    }

    /// How many channels the picked speaker has; one where that is not known.
    pub fn selected_speaker_channel_count(&self) -> (n: usize)
        ensures
            n == match self.speaker_index {
                Some(i) => if i < self.speaker_sources@.len() {
                    channel_count(self.speaker_sources@[i as int].default_format)
                } else {
                    1
                },
                None => 1,
            },
    {
        match self.speaker_index {
            Some(i) => if i < self.speaker_sources.len() {
                channels_or_one(self.speaker_sources[i].default_format)
            } else {
                1
            },
            None => 1,
        }
    }
}

/// How many channels a format has, one at least; one where there is no format.
pub open spec fn channel_count(f: Option<AudioFormat>) -> usize {
    match f {
        Some(f) => if f.channels == 0 {
            1
        } else {
            f.channels as usize
        },
        None => 1,
    }
}

fn channels_or_one(f: Option<AudioFormat>) -> (n: usize)
    ensures
        n == channel_count(f),
{
    match f {
        Some(f) => if f.channels == 0 {
            1
        } else {
            f.channels as usize
        },
        None => 1,
    }
}

/// The channel to record after another source was picked: the same, or the last where there are
/// fewer.
pub fn clamp_channel(channel: usize, channels: usize) -> (r: usize)
    ensures
        r == if channels == 0 {
            0
        } else if channel < channels {
            channel as int
        } else {
            channels - 1
        },
{
    if channels == 0 {
        0
    } else if channel < channels {
        channel
    } else {
        channels - 1
    }
}

/// What was picked is picked again: with the same sources, the saved identifiers lead to a
/// microphone and a speaker with the same identifiers.
pub proof fn picks_are_restored(before: SourceLists, after: SourceLists)
    requires
        before.well_formed(),
        after.devices@ == before.devices@,
        after.speaker_sources@ == before.speaker_sources@,
        before.device_id() is Some ==> same_place(
            after.device_index,
            wanted_position(before.devices@, before.device_id()),
        ),
        same_place(
            after.speaker_index,
            wanted_position(before.speaker_sources@, before.speaker_id()),
        ),
    ensures
        before.device_id() is Some ==> after.device_id() == before.device_id(),
        after.speaker_id() == before.speaker_id(),
{
    if let Some(i) = before.device_index {
        lemma_position(before.devices@, before.devices@[i as int].id@);
        assert(before.devices@[i as int].id_text() == before.devices@[i as int].id@);
    }
    if let Some(i) = before.speaker_index {
        lemma_position(before.speaker_sources@, before.speaker_sources@[i as int].id@);
        assert(before.speaker_sources@[i as int].id_text()
            == before.speaker_sources@[i as int].id@);
    }
}

/// The inputs are the sources that are inputs, in order and with their identifiers, names and
/// formats; the loopbacks are those that are loopbacks, in order. What one application renders is
/// neither.
pub proof fn sources_are_told_apart(
    all: Seq<CaptureSource>,
    input: spec_fn(CaptureSource) -> Option<DeviceInfo>,
    loopback: spec_fn(CaptureSource) -> Option<CaptureSource>,
)
    requires
        forall|s: CaptureSource| #[trigger]
            input(s) == if s.kind == CaptureSourceKind::Input {
                Some(DeviceInfo { id: s.id, name: s.name, default_format: s.default_format })
            } else {
                None
            },
        forall|s: CaptureSource| #[trigger]
            loopback(s) == if s.kind == CaptureSourceKind::Loopback {
                Some(s)
            } else {
                None
            },
    ensures
        inputs_of(all) == all.filter_map(input),
        loopbacks_of(all) == all.filter_map(loopback),
    decreases all.len(),
{
    if all.len() > 0 {
        sources_are_told_apart(all.drop_last(), input, loopback);
    }
    assert(inputs_of(all) =~= all.filter_map(input));
    assert(loopbacks_of(all) =~= all.filter_map(loopback));
}

/// A chosen channel is one that the device has, and stays as chosen where it is.
pub proof fn a_chosen_channel_exists(channel: usize, channels: usize, r: usize)
    requires
        call_ensures(clamp_channel, (channel, channels), r),
    ensures
        channels > 0 ==> r < channels,
        channel < channels ==> r == channel,
        r <= channel,
{
}

/// Loopback is there on Windows with WASAPI alone, and elsewhere where a loopback source is; the
/// second channel takes part where it is there and one of its sources is picked.
pub proof fn where_loopback_is_there(lists: SourceLists, platform: Platform)
    ensures
        platform matches Platform::Windows(system) ==> lists.supports_loopback(platform) == (system
            == WindowsAudioSystem::Wasapi),
        !(platform is Windows) ==> lists.supports_loopback(platform)
            == (lists.speaker_sources@.len() > 0),
        lists.ch2_takes_part(platform) <==> lists.supports_loopback(platform) && (
        lists.speaker_index matches Some(i) && i < lists.speaker_sources@.len()),
{
}

} // verus!
