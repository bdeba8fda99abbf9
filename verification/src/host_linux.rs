//! The Linux host's rules: monitor sources are told from inputs by their names.

use vstd::prelude::*;

use crate::device::make_source;
use crate::error::{RecordingError, Result};
use crate::source::{CaptureSource, CaptureSourceKind, DeviceInfo};
use crate::text::{chars_of, contains_chars, ends_with_chars, push_text, text_equal};

verus! {

/// A name of the form that PulseAudio and PipeWire give the monitor of a sink.
pub open spec fn is_monitor_name(name: Seq<char>) -> bool {
    ||| crate::text::ends_with_seq(name, ".monitor"@)
    ||| crate::text::contains_seq(name, "Monitor of "@)
    ||| crate::text::contains_seq(name, "monitor of "@)
}

/// PulseAudio and PipeWire publish `<sink>.monitor` (or "Monitor of <sink>") sources for each
/// output sink alongside hardware inputs; this tells them apart.
pub fn is_monitor_source(name: &str) -> (r: bool)
    ensures
        r == is_monitor_name(name@),
{
    let n = chars_of(name);
    ends_with_chars(&n, &chars_of(".monitor")) || contains_chars(&n, &chars_of("Monitor of "))
        || contains_chars(&n, &chars_of("monitor of "))
}

/// The kind of source that a device is listed as.
pub open spec fn listed_kind(d: DeviceInfo) -> CaptureSourceKind {
    if is_monitor_name(d.name@) {
        CaptureSourceKind::Loopback
    } else {
        CaptureSourceKind::Input
    }
}

/// One capture source per device, in order; monitors are loopback sources.
pub fn linux_sources(devices: Vec<DeviceInfo>) -> (sources: Vec<CaptureSource>)
    ensures
        sources@ == devices@.map_values(
            |d: DeviceInfo| crate::device::source_of_kind(d, listed_kind(d)),
        ),
{
    let ghost all = devices@;
    let ghost rule = |d: DeviceInfo| crate::device::source_of_kind(d, listed_kind(d));
    let mut sources: Vec<CaptureSource> = Vec::new();
    for d in it: devices
        invariant
            it.seq() == all,
            rule == (|d: DeviceInfo| crate::device::source_of_kind(d, listed_kind(d))),
            sources@ == all.take(it.index() as int).map_values(rule),
    {
        let kind = if is_monitor_source(d.name.as_str()) {
            CaptureSourceKind::Loopback
        } else {
            CaptureSourceKind::Input
        };
        sources.push(make_source(d, kind));
        assert(sources@ =~= all.take(it.index() as int + 1).map_values(rule));
    }
    assert(all.take(all.len() as int) =~= all);
    sources
}

/// Monitor sources are opened like inputs; the audio of one application cannot be captured.
pub fn check_linux_capture(kind: CaptureSourceKind) -> (r: Result<()>)
    ensures
        r is Err <==> kind == CaptureSourceKind::AppOutput,
        r matches Err(e) ==> e is Config && e->Config_0@
            == "app-output capture is not implemented for the Linux host yet"@,
{
    match kind {
        CaptureSourceKind::AppOutput => Err(
            RecordingError::config("app-output capture is not implemented for the Linux host yet"),
        ),
        _ => Ok(()),
    }
}

/// `name` is what the monitor of the sink `output` may be called.
pub open spec fn monitors(name: Seq<char>, output: Seq<char>) -> bool {
    ||| name == output + ".monitor"@
    ||| name == "Monitor of "@ + output
    ||| is_monitor_name(name) && crate::text::contains_seq(name, output)
}

/// The first input that looks like the monitor of the default output, as the place to record
/// the speakers from.
pub fn default_loopback_source(output_name: &str, inputs: &Vec<DeviceInfo>) -> (r: Option<usize>)
    ensures
        match r {
            Some(i) => i < inputs@.len() && monitors(inputs@[i as int].name@, output_name@)
                && forall|k: int|
                0 <= k < i ==> !monitors((#[trigger] inputs@[k]).name@, output_name@),
            None => forall|k: int|
                0 <= k < inputs@.len() ==> !monitors((#[trigger] inputs@[k]).name@, output_name@),
        },
{
    let mut suffixed = String::new();
    push_text(&mut suffixed, output_name);
    push_text(&mut suffixed, ".monitor");
    let mut prefixed = String::new();
    push_text(&mut prefixed, "Monitor of ");
    push_text(&mut prefixed, output_name);
    assert(suffixed@ =~= output_name@ + ".monitor"@);
    assert(prefixed@ =~= "Monitor of "@ + output_name@);
    let wanted = chars_of(output_name);
    let mut i: usize = 0;
    while i < inputs.len()
        invariant
            i <= inputs@.len(),
            suffixed@ == output_name@ + ".monitor"@,
            prefixed@ == "Monitor of "@ + output_name@,
            wanted@ == output_name@,
            forall|k: int|
                0 <= k < i ==> !monitors((#[trigger] inputs@[k]).name@, output_name@),
        decreases inputs@.len() - i,
    {
        let name = inputs[i].name.as_str();
        if text_equal(name, suffixed.as_str()) || text_equal(name, prefixed.as_str()) || (
        is_monitor_source(name) && contains_chars(&chars_of(name), &wanted)) {
            return Some(i);
        }
        i = i + 1;
    }
    None
}

/// Monitors are loopbacks: a device whose name ends in the mark of a monitor, or speaks of the
/// monitor of something, is listed as a loopback; one whose name holds neither is an input.
pub proof fn monitors_are_loopbacks(d: DeviceInfo, before: Seq<char>, after: Seq<char>)
    ensures
        d.name@ == before + ".monitor"@ ==> listed_kind(d) == CaptureSourceKind::Loopback,
        d.name@ == before + "Monitor of "@ + after ==> listed_kind(d)
            == CaptureSourceKind::Loopback,
        d.name@ == before + "monitor of "@ + after ==> listed_kind(d)
            == CaptureSourceKind::Loopback,
        (forall|i: int| 0 <= i < d.name@.len() ==> #[trigger] d.name@[i] != 'r') ==> listed_kind(d)
            == CaptureSourceKind::Input,
{
    crate::text::parts_of_a_text_are_found(before, ".monitor"@, after);
    crate::text::parts_of_a_text_are_found(before, "Monitor of "@, after);
    crate::text::parts_of_a_text_are_found(before, "monitor of "@, after);
    if forall|i: int| 0 <= i < d.name@.len() ==> #[trigger] d.name@[i] != 'r' {
        let name = d.name@;
        reveal_strlit(".monitor");
        reveal_strlit("Monitor of ");
        reveal_strlit("monitor of ");
        assert(".monitor"@[7] == 'r' && "Monitor of "@[6] == 'r' && "monitor of "@[6] == 'r');
        if crate::text::ends_with_seq(name, ".monitor"@) {
            assert(name.skip(name.len() - 8)[7] == name[name.len() - 1]);
        }
        if crate::text::contains_seq(name, "Monitor of "@) {
            let at = choose|at: int| crate::text::occurs_at(name, "Monitor of "@, at);
            assert(name.subrange(at, at + 11)[6] == name[at + 6]);
        }
        if crate::text::contains_seq(name, "monitor of "@) {
            let at = choose|at: int| crate::text::occurs_at(name, "monitor of "@, at);
            assert(name.subrange(at, at + 11)[6] == name[at + 6]);
        }
    }
}

/// The monitor of an output is recognised by the output's name.
pub proof fn an_output_has_its_monitor(output: Seq<char>)
    ensures
        monitors(output + ".monitor"@, output),
        monitors("Monitor of "@ + output, output),
{
}

} // verus!
