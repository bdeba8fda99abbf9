//! Capture sources and devices.

use vstd::prelude::*;

use crate::format::AudioFormat;

verus! {

/// Describes an input device exposed by a host.
#[derive(Debug, Clone)]
pub struct DeviceInfo {
    pub id: String,
    pub name: String,
    pub default_format: Option<AudioFormat>,
}

/// Whether a capture source delivers microphone-style input or audio that something renders.
#[derive(Debug, Clone, Copy, PartialEq, Eq, Hash, Structural)]
pub enum CaptureSourceKind {
    /// A regular input device such as a microphone or line-in.
    Input,
    /// A loopback or monitor source that delivers what the system renders to an output
    /// endpoint.
    Loopback,
    /// The audio that one application renders.
    AppOutput,
}

/// How one application's audio is captured.
#[derive(Debug, Clone, Copy, PartialEq, Eq, Hash, Structural)]
pub enum AppCaptureBackend {
    WindowsProcessLoopback,
    MacosScreenCaptureKit,
    LinuxPipewireRoute,
    Unsupported,
}

/// The application behind an [`CaptureSourceKind::AppOutput`] source.
#[derive(Debug, Clone)]
pub struct AppCaptureDescriptor {
    pub backend: AppCaptureBackend,
    pub app_name: String,
    pub app_id: Option<String>,
    pub process_id: Option<u32>,
    pub instance_id: Option<String>,
    pub supports_multi_select: bool,
    pub requires_system_permission: bool,
}

/// Describes one capture source exposed by a host.
#[derive(Debug, Clone)]
pub struct CaptureSource {
    pub id: String,
    pub name: String,
    pub default_format: Option<AudioFormat>,
    pub kind: CaptureSourceKind,
    pub app: Option<AppCaptureDescriptor>,
}

/// The capture source that stands for a microphone-style input device.
pub open spec fn input_source(d: DeviceInfo) -> CaptureSource {
    CaptureSource {
        id: d.id,
        name: d.name,
        default_format: d.default_format,
        kind: CaptureSourceKind::Input,
        app: None,
    }
}

/// The capture source that stands for a microphone-style input device.
pub fn source_of_device(d: DeviceInfo) -> (s: CaptureSource)
    ensures
        s == input_source(d),
{
    CaptureSource {
        id: d.id,
        name: d.name,
        default_format: d.default_format,
        kind: CaptureSourceKind::Input,
        app: None,
    }
}

impl From<DeviceInfo> for CaptureSource {
    fn from(v: DeviceInfo) -> (s: CaptureSource) {
        source_of_device(v)
    }
}

impl vstd::std_specs::convert::FromSpecImpl<DeviceInfo> for CaptureSource {
    open spec fn obeys_from_spec() -> bool {
        true
    }

    open spec fn from_spec(v: DeviceInfo) -> Self {
        input_source(v)
    }
}

/// One capture source of kind `Input` for each device, in order.
pub fn input_sources(devices: Vec<DeviceInfo>) -> (sources: Vec<CaptureSource>)
    ensures
        sources@ == devices@.map_values(|d: DeviceInfo| input_source(d)),
{
    let ghost all = devices@;
    let mut sources: Vec<CaptureSource> = Vec::new();
    for d in it: devices
        invariant
            it.seq() == all,
            sources@ == all.take(it.index() as int).map_values(|d: DeviceInfo| input_source(d)),
    {
        sources.push(source_of_device(d));
        assert(sources@ =~= all.take(it.index() as int + 1).map_values(
            |d: DeviceInfo| input_source(d),
        ));
    }
    assert(all.take(all.len() as int) =~= all);
    sources
}

} // verus!
