//! The Windows host's rules: audio systems, capture source ids, and which backend serves a
//! request.

use vstd::prelude::*;

use crate::device::make_source;
use crate::error::{RecordingError, Result};
use crate::format::{AudioFormat, SampleFormat};
use crate::sorting::{sort_keyed, Keyed};
use crate::source::{
    source_of_device, AppCaptureBackend, AppCaptureDescriptor, CaptureSource, CaptureSourceKind,
    DeviceInfo,
};
use crate::text::{chars_of, copy_range, owned, parse_unsigned_chars, push_decimal, push_text,
    starts_with_chars};

verus! {

/// Audio API used for capture on Windows.
#[derive(Debug, Clone, Copy, PartialEq, Eq, Hash, Structural)]
pub enum WindowsAudioSystem {
    /// Windows Audio Session API (modern default).
    Wasapi,
    /// Steinberg ASIO.
    Asio,
    /// Microsoft DirectSound capture.
    DirectSound,
    /// WinMM waveIn capture (legacy stack; many UIs label this driver family "WaveOut").
    WaveOut,
    /// No hardware: silence at the requested format.
    Dummy,
}

impl Default for WindowsAudioSystem {
    fn default() -> (s: Self)
        ensures
            s == WindowsAudioSystem::Wasapi,
    {
        WindowsAudioSystem::Wasapi
    }
}

impl WindowsAudioSystem {
    /// The name shown to users.
    pub open spec fn label_text(self) -> Seq<char> {
        match self {
            WindowsAudioSystem::Wasapi => "WASAPI"@,
            WindowsAudioSystem::Asio => "ASIO"@,
            WindowsAudioSystem::DirectSound => "DirectSound"@,
            WindowsAudioSystem::WaveOut => "WaveOut"@,
            WindowsAudioSystem::Dummy => "Dummy Audio"@,
        }
    }

    /// The name shown to users.
    pub fn label(self) -> (s: &'static str)
        ensures
            s@ == self.label_text(),
    {
        match self {
            WindowsAudioSystem::Wasapi => "WASAPI",
            WindowsAudioSystem::Asio => "ASIO",
            WindowsAudioSystem::DirectSound => "DirectSound",
            WindowsAudioSystem::WaveOut => "WaveOut",
            WindowsAudioSystem::Dummy => "Dummy Audio",
        }
    }

    /// All audio systems, in menu order.
    pub fn all() -> (v: Vec<WindowsAudioSystem>)
        ensures
            v@ == seq![
                WindowsAudioSystem::Wasapi,
                WindowsAudioSystem::Asio,
                WindowsAudioSystem::DirectSound,
                WindowsAudioSystem::WaveOut,
                WindowsAudioSystem::Dummy,
            ],
    {
        let mut v: Vec<WindowsAudioSystem> = Vec::new();
        v.push(WindowsAudioSystem::Wasapi);
        v.push(WindowsAudioSystem::Asio);
        v.push(WindowsAudioSystem::DirectSound);
        v.push(WindowsAudioSystem::WaveOut);
        v.push(WindowsAudioSystem::Dummy);
        assert(v@ =~= seq![
            WindowsAudioSystem::Wasapi,
            WindowsAudioSystem::Asio,
            WindowsAudioSystem::DirectSound,
            WindowsAudioSystem::WaveOut,
            WindowsAudioSystem::Dummy,
        ]);
        v
    }
}

/// Windows capture host.
#[derive(Debug, Clone, Copy, PartialEq, Eq, Structural)]
pub struct WindowsHost {
    pub audio_system: WindowsAudioSystem,
}

impl Default for WindowsHost {
    fn default() -> (h: Self)
        ensures
            h.audio_system == WindowsAudioSystem::Wasapi,
    {
        WindowsHost { audio_system: WindowsAudioSystem::Wasapi }
    }
}

/// The message for an id that names no application.
pub open spec fn bad_app_id(source_id: Seq<char>) -> Seq<char> {
    "invalid app-output source id: "@ + source_id
}

/// The process that an application source id names: `app:` and the process number.
pub open spec fn app_process(source_id: Seq<char>) -> Option<nat> {
    if crate::text::starts_with_seq(source_id, "app:"@) {
        crate::text::parse_unsigned(source_id.skip(4), u32::MAX as nat)
    } else {
        None
    }
}

fn bad_app_id_error(source_id: &str) -> (e: RecordingError)
    ensures
        e is Config,
        e->Config_0@ == bad_app_id(source_id@),
{
    let mut text = String::new();
    push_text(&mut text, "invalid app-output source id: ");
    push_text(&mut text, source_id);
    assert(text@ =~= bad_app_id(source_id@));
    RecordingError::Config(text)
}

/// The process that an application source id names.
pub fn parse_app_source_id(source_id: &str) -> (r: Result<u32>)
    ensures
        match r {
            Ok(pid) => app_process(source_id@) == Some(pid as nat),
            Err(e) => app_process(source_id@) is None && e is Config && e->Config_0@ == bad_app_id(
                source_id@,
            ),
        },
{
    proof {
        reveal_strlit("app:");
    }
    let id = chars_of(source_id);
    if !starts_with_chars(&id, &chars_of("app:")) {
        return Err(bad_app_id_error(source_id));
    }
    let rest = copy_range(&id, 4, id.len());
    assert(rest@ =~= source_id@.skip(4));
    match parse_unsigned_chars(&rest, u32::MAX as u64) {
        Some(pid) => Ok(pid as u32),
        None => Err(bad_app_id_error(source_id)),
    }
}

/// The capture source of an application's process.
pub open spec fn is_app_source(
    s: CaptureSource,
    process_id: u32,
    app_name: Seq<char>,
    app_id: Option<Seq<char>>,
) -> bool {
    &&& s.id@ == "app:"@ + crate::text::decimal(process_id as nat)
    &&& s.name@ == app_name
    &&& s.default_format == Some(
        AudioFormat { sample_rate_hz: 48_000, channels: 2, sample_format: SampleFormat::F32 },
    )
    &&& s.kind == CaptureSourceKind::AppOutput
    &&& s.app is Some
    &&& s.app->0.backend == AppCaptureBackend::WindowsProcessLoopback
    &&& s.app->0.app_name@ == app_name
    &&& (match (s.app->0.app_id, app_id) {
        (Some(a), Some(b)) => a@ == b,
        (None, None) => true,
        _ => false,
    })
    &&& s.app->0.process_id == Some(process_id)
    &&& s.app->0.instance_id is Some
    &&& s.app->0.instance_id->0@ == crate::text::decimal(process_id as nat)
    &&& s.app->0.supports_multi_select
    &&& !s.app->0.requires_system_permission
}

/// The capture source of an application's process.
pub fn app_process_source(process_id: u32, app_name: &str, app_id: Option<&str>) -> (s:
    CaptureSource)
    ensures
        is_app_source(
            s,
            process_id,
            app_name@,
            (match app_id {
                Some(a) => Some(a@),
                None => None,
            }),
        ),
{
    let mut id = String::new();
    push_text(&mut id, "app:");
    push_decimal(&mut id, process_id as u64);
    assert(id@ =~= "app:"@ + crate::text::decimal(process_id as nat));
    let mut instance = String::new();
    push_decimal(&mut instance, process_id as u64);
    assert(instance@ =~= crate::text::decimal(process_id as nat));
    let app_id = match app_id {
        Some(a) => Some(owned(a)),
        None => None,
    };
    CaptureSource {
        id,
        name: owned(app_name),
        default_format: Some(AudioFormat::new(48_000, 2, SampleFormat::F32)),
        kind: CaptureSourceKind::AppOutput,
        app: Some(
            AppCaptureDescriptor {
                backend: AppCaptureBackend::WindowsProcessLoopback,
                app_name: owned(app_name),
                app_id,
                process_id: Some(process_id),
                instance_id: Some(instance),
                supports_multi_select: true,
                requires_system_permission: false,
            },
        ),
    }
}

/// The id of an application's source leads back to its process.
pub proof fn app_source_id_reads_back(
    s: CaptureSource,
    process_id: u32,
    app_name: Seq<char>,
    app_id: Option<Seq<char>>,
)
    requires
        is_app_source(s, process_id, app_name, app_id),
    ensures
        app_process(s.id@) == Some(process_id as nat),
{
    reveal_strlit("app:");
    let digits = crate::text::decimal(process_id as nat);
    assert(s.id@.take(4) =~= "app:"@);
    assert(s.id@.skip(4) =~= digits);
    crate::text::decimal_reads_back(process_id as nat, u32::MAX as nat);
}

/// The backend that lists inputs and opens input streams.
#[derive(Debug, Clone, Copy, PartialEq, Eq, Structural)]
pub enum InputBackend {
    Wasapi,
    Asio,
    DirectSound,
    WaveIn,
    Silence,
}

/// What serves a capture request.
#[derive(Debug, Clone, Copy, PartialEq, Eq, Structural)]
pub enum CaptureRoute {
    /// An input stream of the given backend.
    Input(InputBackend),
    /// A WASAPI render endpoint, captured.
    Loopback,
    /// The audio of the given process.
    Process(u32),
}

impl WindowsHost {
    /// A host that uses the given audio system.
    pub fn new(audio_system: WindowsAudioSystem) -> (r: Result<Self>)
        ensures
            r is Ok,
            r->Ok_0.audio_system == audio_system,
    {
        Ok(WindowsHost { audio_system })
    }

    /// The backend of the audio system.
    pub open spec fn backend_spec(self) -> InputBackend {
        match self.audio_system {
            WindowsAudioSystem::Wasapi => InputBackend::Wasapi,
            WindowsAudioSystem::Asio => InputBackend::Asio,
            WindowsAudioSystem::DirectSound => InputBackend::DirectSound,
            WindowsAudioSystem::WaveOut => InputBackend::WaveIn,
            WindowsAudioSystem::Dummy => InputBackend::Silence,
        }
    }

    /// The backend that lists inputs and opens input streams.
    pub fn input_backend(&self) -> (b: InputBackend)
        ensures
            b == self.backend_spec(),
    {
        match self.audio_system {
            WindowsAudioSystem::Wasapi => InputBackend::Wasapi,
            WindowsAudioSystem::Asio => InputBackend::Asio,
            WindowsAudioSystem::DirectSound => InputBackend::DirectSound,
            WindowsAudioSystem::WaveOut => InputBackend::WaveIn,
            WindowsAudioSystem::Dummy => InputBackend::Silence,
        }
    }

    /// `<prefix><label of the audio system>` as a configuration error.
    fn unsupported(&self, prefix: &str) -> (e: RecordingError)
        ensures
            e is Config,
            e->Config_0@ == prefix@ + self.audio_system.label_text(),
    {
        let mut text = String::new();
        push_text(&mut text, prefix);
        push_text(&mut text, self.audio_system.label());
        assert(text@ =~= prefix@ + self.audio_system.label_text());
        RecordingError::Config(text)
    }

    /// Decides what serves a capture request. Loopback and application audio need WASAPI, and
    /// application audio needs the id of an application.
    pub fn capture_route(&self, source_id: Option<&str>, kind: CaptureSourceKind) -> (r: Result<
        CaptureRoute,
    >)
        ensures
            kind == CaptureSourceKind::Input ==> r is Ok && r->Ok_0 == CaptureRoute::Input(
                self.backend_spec(),
            ),
            kind == CaptureSourceKind::Loopback && self.audio_system == WindowsAudioSystem::Wasapi
                ==> r is Ok && r->Ok_0 == CaptureRoute::Loopback,
            kind == CaptureSourceKind::Loopback && self.audio_system != WindowsAudioSystem::Wasapi
                ==> (r matches Err(e) && e is Config && e->Config_0@
                == "loopback capture is only supported by WASAPI on Windows; current audio system is "@
                + self.audio_system.label_text()),
            kind == CaptureSourceKind::AppOutput && self.audio_system != WindowsAudioSystem::Wasapi
                ==> (r matches Err(e) && e is Config && e->Config_0@
                == "app-output capture is only supported by WASAPI on Windows; current audio system is "@
                + self.audio_system.label_text()),
            kind == CaptureSourceKind::AppOutput && self.audio_system == WindowsAudioSystem::Wasapi
                ==> match source_id {
                None => r matches Err(e) && e is Config && e->Config_0@
                    == "app-output capture requires a selected app source id"@,
                Some(id) => match app_process(id@) {
                    Some(pid) => r is Ok && r->Ok_0 == CaptureRoute::Process(pid as u32),
                    None => r matches Err(e) && e is Config && e->Config_0@ == bad_app_id(id@),
                },
            },
    {
        match kind {
            CaptureSourceKind::Input => Ok(CaptureRoute::Input(self.input_backend())),
            CaptureSourceKind::Loopback => {
                if self.audio_system == WindowsAudioSystem::Wasapi {
                    Ok(CaptureRoute::Loopback)
                } else {
                    Err(
                        self.unsupported(
                            "loopback capture is only supported by WASAPI on Windows; current audio system is ",
                        ),
                    )
                }
            },
            CaptureSourceKind::AppOutput => {
                if self.audio_system != WindowsAudioSystem::Wasapi {
                    return Err(
                        self.unsupported(
                            "app-output capture is only supported by WASAPI on Windows; current audio system is ",
                        ),
                    );
                }
                match source_id {
                    None => Err(
                        RecordingError::config(
                            "app-output capture requires a selected app source id",
                        ),
                    ),
                    Some(id) => match parse_app_source_id(id) {
                        Ok(pid) => Ok(CaptureRoute::Process(pid)),
                        Err(e) => Err(e),
                    },
                }
            },
        }
    }

    /// Whether the audio system has output devices.
    pub fn has_outputs(&self) -> (r: bool)
        ensures
            r == (self.audio_system == WindowsAudioSystem::Wasapi || self.audio_system
                == WindowsAudioSystem::Asio),
    {
        self.audio_system == WindowsAudioSystem::Wasapi || self.audio_system
            == WindowsAudioSystem::Asio
    }

    /// Fails unless the audio system can play.
    pub fn check_output(&self) -> (r: Result<()>)
        ensures
            r is Ok <==> (self.audio_system == WindowsAudioSystem::Wasapi || self.audio_system
                == WindowsAudioSystem::Asio),
            r matches Err(e) ==> e is Config && e->Config_0@
                == "output streams are not supported for "@ + self.audio_system.label_text(),
    {
        if self.has_outputs() {
            Ok(())
        } else {
            Err(self.unsupported("output streams are not supported for "))
        }
    }

    /// All capture sources: the inputs; with WASAPI also the outputs as loopback sources and
    /// the running applications.
    pub fn capture_sources(
        &self,
        inputs: Vec<DeviceInfo>,
        outputs: Vec<DeviceInfo>,
        processes: Vec<AppProcess>,
    ) -> (sources: Vec<CaptureSource>)
        ensures
            lists_sources(
                self.audio_system == WindowsAudioSystem::Wasapi,
                inputs@,
                outputs@,
                processes@,
                sources@,
            ),
    {
        let ghost all_in = inputs@;
        let ghost all_out = outputs@;
        let ghost all_apps = processes@;
        let mut sources: Vec<CaptureSource> = Vec::new();
        for d in it: inputs
            invariant
                it.seq() == all_in,
                sources@.len() == it.index(),
                forall|i: int|
                    0 <= i < sources@.len() ==> #[trigger] sources@[i]
                        == crate::source::input_source(all_in[i]),
        {
            sources.push(source_of_device(d));
        }
        if self.audio_system == WindowsAudioSystem::Wasapi {
            for d in it: outputs
                invariant
                    it.seq() == all_out,
                    sources@.len() == all_in.len() + it.index(),
                    forall|i: int|
                        0 <= i < all_in.len() ==> #[trigger] sources@[i]
                            == crate::source::input_source(all_in[i]),
                    forall|i: int|
                        all_in.len() <= i < sources@.len() ==> #[trigger] sources@[i]
                            == crate::device::source_of_kind(
                            all_out[i - all_in.len()],
                            CaptureSourceKind::Loopback,
                        ),
            {
                sources.push(make_source(d, CaptureSourceKind::Loopback));
            }
            for p in it: processes
                invariant
                    it.seq() == all_apps,
                    sources@.len() == all_in.len() + all_out.len() + it.index(),
                    forall|i: int|
                        0 <= i < all_in.len() ==> #[trigger] sources@[i]
                            == crate::source::input_source(all_in[i]),
                    forall|i: int|
                        all_in.len() <= i < all_in.len() + all_out.len() ==> #[trigger] sources@[i]
                            == crate::device::source_of_kind(
                            all_out[i - all_in.len()],
                            CaptureSourceKind::Loopback,
                        ),
                    forall|i: int|
                        all_in.len() + all_out.len() <= i < sources@.len() ==> lists_process(
                            #[trigger] sources@[i],
                            all_apps[i - all_in.len() - all_out.len()],
                        ),
            {
                let app_id = match &p.image {
                    Some(image) => Some(image.as_str()),
                    None => None,
                };
                let s = app_process_source(p.process_id, p.name.as_str(), app_id);
                assert(lists_process(s, p));
                sources.push(s);
            }
        }
        sources
    }
}

/// A running process that may play audio.
#[derive(Debug, Clone)]
pub struct AppProcess {
    pub process_id: u32,
    pub name: String,
    /// The path of its executable, where it could be read.
    pub image: Option<String>,
}

/// `s` is the capture source of the process `p`.
pub open spec fn lists_process(s: CaptureSource, p: AppProcess) -> bool {
    is_app_source(
        s,
        p.process_id,
        p.name@,
        (match p.image {
            Some(image) => Some(image@),
            None => None,
        }),
    )
}

/// `sources` lists the inputs and, with WASAPI, the outputs and the processes, in this order.
pub open spec fn lists_sources(
    wasapi: bool,
    inputs: Seq<DeviceInfo>,
    outputs: Seq<DeviceInfo>,
    processes: Seq<AppProcess>,
    sources: Seq<CaptureSource>,
) -> bool {
    let n = inputs.len();
    let m = outputs.len();
    &&& sources.len() == if wasapi {
        n + m + processes.len()
    } else {
        n
    }
    &&& forall|i: int|
        0 <= i < n ==> #[trigger] sources[i] == crate::source::input_source(inputs[i])
    &&& wasapi ==> forall|i: int|
        n <= i < n + m ==> #[trigger] sources[i] == crate::device::source_of_kind(
            outputs[i - n],
            CaptureSourceKind::Loopback,
        )
    &&& wasapi ==> forall|i: int|
        n + m <= i < sources.len() ==> lists_process(#[trigger] sources[i], processes[i - n - m])
}

/// A process is offered if it has a number and a name.
pub open spec fn is_offered(p: AppProcess) -> bool {
    p.process_id > 0 && p.name@.len() > 0
}

/// The sort entry of a process: by name, then by number.
pub open spec fn is_entry(k: Keyed<AppProcess>, p: AppProcess) -> bool {
    k.item == p && k.key@ == p.name@ && k.minor == p.process_id
}

/// `entries` are the sort entries of `processes`, in order.
pub open spec fn are_entries(entries: Seq<Keyed<AppProcess>>, processes: Seq<AppProcess>) -> bool {
    &&& entries.len() == processes.len()
    &&& forall|i: int| 0 <= i < entries.len() ==> is_entry(#[trigger] entries[i], processes[i])
}

/// The processes that are offered.
pub open spec fn offered(found: Seq<AppProcess>) -> Seq<AppProcess>
    decreases found.len(),
{
    if found.len() == 0 {
        found
    } else if is_offered(found.last()) {
        offered(found.drop_last()).push(found.last())
    } else {
        offered(found.drop_last())
    }
}

/// The processes that are offered, sorted by name and then by number.
pub fn offered_processes(found: Vec<AppProcess>) -> (entries: Vec<Keyed<AppProcess>>)
    ensures
        exists|kept: Seq<Keyed<AppProcess>>| #[trigger]
            are_entries(kept, offered(found@)) && entries@ == crate::sorting::sorted_seq(kept),
{
    let ghost all = found@;
    let mut kept: Vec<Keyed<AppProcess>> = Vec::new();
    for p in it: found
        invariant
            it.seq() == all,
            are_entries(kept@, offered(all.take(it.index() as int))),
    {
        let ghost i = it.index() as int;
        proof {
            let longer = all.take(i + 1);
            assert(longer.drop_last() =~= all.take(i));
            assert(longer.last() == p);
        }
        if p.process_id > 0 && p.name.as_str().unicode_len() > 0 {
            let key = chars_of(p.name.as_str());
            let minor: u32 = p.process_id;
            kept.push(Keyed { key, minor, item: p });
        }
    }
    assert(all.take(all.len() as int) =~= all);
    let ghost entries = kept@;
    assert(are_entries(entries, offered(all)));
    sort_keyed(kept)
}

/// The ids and formats of the backend without hardware.
pub fn list_devices() -> (devices: Vec<DeviceInfo>)
    ensures
        devices@.len() == 1,
        devices@[0].id@ == "dummy:silence"@,
        devices@[0].name@ == "Silence (no hardware)"@,
        devices@[0].default_format == Some(
            AudioFormat { sample_rate_hz: 48_000, channels: 2, sample_format: SampleFormat::F32 },
        ),
{
    let mut devices: Vec<DeviceInfo> = Vec::new();
    devices.push(
        DeviceInfo {
            id: owned("dummy:silence"),
            name: owned("Silence (no hardware)"),
            default_format: Some(AudioFormat::new(48_000, 2, SampleFormat::F32)),
        },
    );
    devices
}

/// The frames that the backend without hardware delivers every 20 milliseconds, after checking
/// the request: only its one device exists, and it delivers floating-point samples.
pub fn silence_frames_per_tick(device_id: Option<&str>, format: AudioFormat) -> (r: Result<usize>)
    ensures
        format.sample_format != SampleFormat::F32 ==> (r matches Err(e) && e is Device
            && e->Device_0@ == "dummy backend only supports F32 session format"@),
        format.sample_format == SampleFormat::F32 && device_id is Some && device_id->0@
            != "dummy:silence"@ ==> (r matches Err(e) && e is Device && e->Device_0@
            == "unknown dummy device id"@),
        format.sample_format == SampleFormat::F32 && (device_id is Some ==> device_id->0@
            == "dummy:silence"@) ==> r is Ok && r->Ok_0 == if format.sample_rate_hz < 50 {
            1int
        } else {
            format.sample_rate_hz as int / 50
        },
{
    if format.sample_format != SampleFormat::F32 {
        return Err(RecordingError::device("dummy backend only supports F32 session format"));
    }
    match device_id {
        Some(id) => {
            if !crate::text::text_equal(id, "dummy:silence") {
                return Err(RecordingError::device("unknown dummy device id"));
            }
        },
        None => {},
    }
    let frames: u32 = format.sample_rate_hz / 50;
    if frames == 0 {
        Ok(1)
    } else {
        Ok(frames as usize)
    }
}

/// What is left of a 20 millisecond tick after `elapsed` nanoseconds.
pub fn silence_wait_nanos(elapsed: u128) -> (wait: u64)
    ensures
        wait == if elapsed < 20_000_000 {
            20_000_000 - elapsed
        } else {
            0int
        },
{
    if elapsed < 20_000_000 {
        20_000_000 - elapsed as u64
    } else {
        0
    }
}

/// Processes are offered that have a number and a name, in order, and no others.
pub proof fn named_processes_are_offered(
    found: Seq<AppProcess>,
    pick: spec_fn(AppProcess) -> bool,
)
    requires
        forall|p: AppProcess| #[trigger] pick(p) == (p.process_id != 0 && p.name@.len() != 0),
    ensures
        offered(found) == found.filter(pick),
    decreases found.len(),
{
    reveal(Seq::filter);
    if found.len() > 0 {
        named_processes_are_offered(found.drop_last(), pick);
    }
}

/// The offered processes are in the order of their names, and of two with the same name the lower
/// number comes first.
pub proof fn processes_are_in_order(
    kept: Seq<Keyed<AppProcess>>,
    processes: Seq<AppProcess>,
    entries: Seq<Keyed<AppProcess>>,
    i: int,
    j: int,
)
    requires
        are_entries(kept, processes),
        entries == crate::sorting::sorted_seq(kept),
        0 <= i < j < entries.len(),
    ensures
        entries.len() == processes.len(),
        ({
            let a = entries[i].item;
            let b = entries[j].item;
            &&& !crate::text::lex_less(b.name@, a.name@)
            &&& a.name@ == b.name@ ==> a.process_id <= b.process_id
        }),
{
    crate::sorting::sorting_is_correct(kept);
    crate::sorting::sorting_adds_nothing(kept, i);
    crate::sorting::sorting_adds_nothing(kept, j);
    let p = choose|p: int| 0 <= p < kept.len() && kept[p] == entries[i];
    let q = choose|q: int| 0 <= q < kept.len() && kept[q] == entries[j];
    assert(is_entry(kept[p], processes[p]));
    assert(is_entry(kept[q], processes[q]));
    assert(!crate::sorting::key_less(entries[j].sort_key(), entries[i].sort_key()));
}

/// Every device is listed under its identifier, name and format: inputs as inputs, and with WASAPI
/// outputs as loopbacks and processes as applications; other systems list inputs only.
pub proof fn each_source_is_listed_as_what_it_is(
    wasapi: bool,
    inputs: Seq<DeviceInfo>,
    outputs: Seq<DeviceInfo>,
    processes: Seq<AppProcess>,
    sources: Seq<CaptureSource>,
    i: int,
)
    requires
        lists_sources(wasapi, inputs, outputs, processes, sources),
        0 <= i < sources.len(),
    ensures
        !wasapi ==> sources.len() == inputs.len(),
        wasapi ==> sources.len() == inputs.len() + outputs.len() + processes.len(),
        i < inputs.len() ==> sources[i].kind == CaptureSourceKind::Input && sources[i].id
            == inputs[i].id && sources[i].name == inputs[i].name && sources[i].default_format
            == inputs[i].default_format,
        inputs.len() <= i < inputs.len() + outputs.len() ==> {
            let d = outputs[i - inputs.len()];
            &&& sources[i].kind == CaptureSourceKind::Loopback
            &&& sources[i].id == d.id
            &&& sources[i].name == d.name
            &&& sources[i].default_format == d.default_format
        },
        i >= inputs.len() + outputs.len() ==> {
            let p = processes[i - inputs.len() - outputs.len()];
            &&& sources[i].kind == CaptureSourceKind::AppOutput
            &&& sources[i].name@ == p.name@
            &&& app_process(sources[i].id@) == Some(p.process_id as nat)
        },
{
    if i >= inputs.len() + outputs.len() {
        let p = processes[i - inputs.len() - outputs.len()];
        assert(lists_process(sources[i], p));
        app_source_id_reads_back(
            sources[i],
            p.process_id,
            p.name@,
            match p.image {
                Some(image) => Some(image@),
                None => None,
            },
        );
    }
}

/// Loopback and application sound are captured with WASAPI only; inputs with every system.
pub proof fn only_wasapi_captures_what_is_rendered(
    host: WindowsHost,
    source_id: Option<&str>,
    kind: CaptureSourceKind,
    r: Result<CaptureRoute>,
)
    requires
        call_ensures(WindowsHost::capture_route, (&host, source_id, kind), r),
    ensures
        kind == CaptureSourceKind::Input ==> (r matches Ok(route) && route is Input),
        host.audio_system != WindowsAudioSystem::Wasapi && kind != CaptureSourceKind::Input ==> r
            is Err,
        host.audio_system == WindowsAudioSystem::Wasapi && kind == CaptureSourceKind::Loopback
            ==> (r matches Ok(route) && route is Loopback),
{
}

} // verus!
