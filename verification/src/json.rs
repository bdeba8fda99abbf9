//! Devices and capture sources as JSON.

use vstd::prelude::*;

use crate::error::Result;
use crate::format::{AudioFormat, SampleFormat};
use crate::source::{
    AppCaptureBackend, AppCaptureDescriptor, CaptureSource, CaptureSourceKind, DeviceInfo,
};
use crate::text::{chars_of, push_decimal, push_hex_padded, push_text};
use crate::traits::AudioHost;

verus! {

/// Control characters: the first thirty-two, and those from 127 to 159.
pub open spec fn is_control(c: char) -> bool {
    (c as u32) < 0x20 || (0x7f <= (c as u32) && (c as u32) < 0xa0)
}

/// A character inside a JSON string.
pub open spec fn escaped_char(c: char) -> Seq<char> {
    if c == '"' {
        seq!['\\', '"']
    } else if c == '\\' {
        seq!['\\', '\\']
    } else if c == '\n' {
        seq!['\\', 'n']
    } else if c == '\r' {
        seq!['\\', 'r']
    } else if c == '\t' {
        seq!['\\', 't']
    } else if is_control(c) {
        seq!['\\', 'u'] + crate::text::hex_padded(c as u32 as nat, 4)
    } else {
        seq![c]
    }
}

/// A text inside a JSON string.
pub open spec fn escaped(s: Seq<char>) -> Seq<char>
    decreases s.len(),
{
    if s.len() == 0 {
        Seq::empty()
    } else {
        escaped(s.drop_last()) + escaped_char(s.last())
    }
}

/// A text inside a JSON string.
pub fn json_escape(s: &str) -> (out: String)
    ensures
        out@ == escaped(s@),
{
    let chars = chars_of(s);
    let mut out = String::new();
    let mut i: usize = 0;
    assert(out@ =~= escaped(chars@.take(0)));
    while i < chars.len()
        invariant
            i <= chars@.len(),
            out@ == escaped(chars@.take(i as int)),
        decreases chars@.len() - i,
    {
        let c: char = chars[i];
        let ghost before = out@;
        proof {
            assert(chars@.take(i + 1).drop_last() =~= chars@.take(i as int));
            assert(chars@.take(i + 1).last() == c);
        }
        if c == '"' {
            out.push('\\');
            out.push('"');
        } else if c == '\\' {
            out.push('\\');
            out.push('\\');
        } else if c == '\n' {
            out.push('\\');
            out.push('n');
        } else if c == '\r' {
            out.push('\\');
            out.push('r');
        } else if c == '\t' {
            out.push('\\');
            out.push('t');
        } else {
            let n: u32 = c as u32;
            if n < 0x20 || (0x7f <= n && n < 0xa0) {
                out.push('\\');
                out.push('u');
                push_hex_padded(&mut out, n as u64, 4);
            } else {
                out.push(c);
            }
        }
        assert(out@ =~= before + escaped_char(c));
        i = i + 1;
    }
    assert(chars@.take(i as int) =~= s@);
    out
}

/// What a lower-case hexadecimal digit stands for.
pub open spec fn hex_digit_of(c: char) -> int {
    if '0' <= c && c <= '9' {
        c as int - '0' as int
    } else {
        c as int - 'a' as int + 10
    }
}

/// Reads the inside of a JSON string back. There is nothing to read where a quote or a control
/// character stands in it, or an escape that is none.
pub open spec fn unescaped(t: Seq<char>) -> Option<Seq<char>>
    decreases t.len(),
{
    if t.len() == 0 {
        Some(Seq::empty())
    } else if t[0] == '\\' {
        if t.len() >= 6 && t[1] == 'u' {
            match unescaped(t.skip(6)) {
                Some(rest) => Some(
                    seq![
                        (hex_digit_of(t[2]) * 4096 + hex_digit_of(t[3]) * 256 + hex_digit_of(t[4])
                            * 16 + hex_digit_of(t[5])) as char,
                    ] + rest,
                ),
                None => None,
            }
        } else if t.len() >= 2 && (t[1] == '"' || t[1] == '\\' || t[1] == 'n' || t[1] == 'r'
            || t[1] == 't') {
            match unescaped(t.skip(2)) {
                Some(rest) => Some(
                    seq![
                        if t[1] == 'n' {
                            '\n'
                        } else if t[1] == 'r' {
                            '\r'
                        } else if t[1] == 't' {
                            '\t'
                        } else {
                            t[1]
                        },
                    ] + rest,
                ),
                None => None,
            }
        } else {
            None
        }
    } else if t[0] == '"' || is_control(t[0]) {
        None
    } else {
        match unescaped(t.skip(1)) {
            Some(rest) => Some(seq![t[0]] + rest),
            None => None,
        }
    }
}

proof fn lemma_escaped_front(s: Seq<char>)
    requires
        s.len() > 0,
    ensures
        escaped(s) == escaped_char(s[0]) + escaped(s.skip(1)),
    decreases s.len(),
{
    if s.len() == 1 {
        assert(s.drop_last() =~= Seq::<char>::empty());
        assert(s.skip(1) =~= Seq::<char>::empty());
        assert(escaped(s) =~= escaped_char(s[0]) + escaped(s.skip(1)));
    } else {
        lemma_escaped_front(s.drop_last());
        assert(s.drop_last().skip(1) =~= s.skip(1).drop_last());
        assert(s.skip(1).last() == s.last());
        assert(escaped(s) =~= escaped_char(s[0]) + escaped(s.skip(1)));
    }
}

proof fn lemma_hex_four(n: nat)
    requires
        n < 0x1_0000,
    ensures
        crate::text::hex_padded(n, 4) == seq![
            crate::text::hex_digit((n / 4096) as int),
            crate::text::hex_digit(((n / 256) % 16) as int),
            crate::text::hex_digit(((n / 16) % 16) as int),
            crate::text::hex_digit((n % 16) as int),
        ],
{
    reveal_with_fuel(crate::text::hex_padded, 5);
    assert(n / 16 / 16 == n / 256);
    assert(n / 16 / 16 / 16 == n / 4096);
    assert((n / 4096) % 16 == n / 4096);
    assert(crate::text::hex_padded(n, 4) =~= seq![
        crate::text::hex_digit((n / 4096) as int),
        crate::text::hex_digit(((n / 256) % 16) as int),
        crate::text::hex_digit(((n / 16) % 16) as int),
        crate::text::hex_digit((n % 16) as int),
    ]);
}

proof fn lemma_hex_digit_reads_back(d: int)
    requires
        0 <= d < 16,
    ensures
        hex_digit_of(crate::text::hex_digit(d)) == d,
{
}

proof fn lemma_char_value(c: char)
    ensures
        (c as u32 as int) as char == c,
{
}

/// An escaped text can stand inside a JSON string, and reading it back gives the text.
pub proof fn escaping_reads_back(s: Seq<char>)
    ensures
        unescaped(escaped(s)) == Some(s),
    decreases s.len(),
{
    if s.len() == 0 {
        assert(escaped(s) =~= Seq::<char>::empty());
        assert(s =~= Seq::<char>::empty());
    } else {
        let c = s[0];
        let rest = escaped(s.skip(1));
        let t = escaped(s);
        lemma_escaped_front(s);
        escaping_reads_back(s.skip(1));
        assert(seq![c] + s.skip(1) =~= s);
        if c == '"' || c == '\\' || c == '\n' || c == '\r' || c == '\t' {
            assert(t.skip(2) =~= rest);
        } else if is_control(c) {
            let n = c as u32 as nat;
            lemma_hex_four(n);
            lemma_hex_digit_reads_back((n / 4096) as int);
            lemma_hex_digit_reads_back(((n / 256) % 16) as int);
            lemma_hex_digit_reads_back(((n / 16) % 16) as int);
            lemma_hex_digit_reads_back((n % 16) as int);
            assert(t.skip(6) =~= rest);
            assert(n == (n / 4096) * 4096 + ((n / 256) % 16) * 256 + ((n / 16) % 16) * 16 + n % 16);
            lemma_char_value(c);
        } else {
            assert(t.skip(1) =~= rest);
        }
    }
}

/// The name of a sample format in JSON.
pub open spec fn sample_format_text(f: SampleFormat) -> Seq<char> {
    match f {
        SampleFormat::F32 => "f32"@,
        SampleFormat::I16 => "i16"@,
    }
}

/// The name of a sample format in JSON.
pub fn sample_format_label(sample_format: SampleFormat) -> (s: &'static str)
    ensures
        s@ == sample_format_text(sample_format),
{
    match sample_format {
        SampleFormat::F32 => "f32",
        SampleFormat::I16 => "i16",
    }
}

/// The name of an application capture backend in JSON.
pub open spec fn backend_text(b: AppCaptureBackend) -> Seq<char> {
    match b {
        AppCaptureBackend::WindowsProcessLoopback => "windows-process-loopback"@,
        AppCaptureBackend::MacosScreenCaptureKit => "macos-screencapturekit"@,
        AppCaptureBackend::LinuxPipewireRoute => "linux-pipewire-route"@,
        AppCaptureBackend::Unsupported => "unsupported"@,
    }
}

/// The name of an application capture backend in JSON.
pub fn app_capture_backend_label(backend: AppCaptureBackend) -> (s: &'static str)
    ensures
        s@ == backend_text(backend),
{
    match backend {
        AppCaptureBackend::WindowsProcessLoopback => "windows-process-loopback",
        AppCaptureBackend::MacosScreenCaptureKit => "macos-screencapturekit",
        AppCaptureBackend::LinuxPipewireRoute => "linux-pipewire-route",
        AppCaptureBackend::Unsupported => "unsupported",
    }
}

/// A format as JSON, or `null`.
pub open spec fn format_json(f: Option<AudioFormat>) -> Seq<char> {
    match f {
        Some(f) => "{\"sample_rate_hz\":"@ + crate::text::decimal(f.sample_rate_hz as nat)
            + ",\"channels\":"@ + crate::text::decimal(f.channels as nat)
            + ",\"sample_format\":\""@ + sample_format_text(f.sample_format) + "\"}"@,
        None => "null"@,
    }
}

fn push_format(out: &mut String, f: &Option<AudioFormat>)
    ensures
        final(out)@ == old(out)@ + format_json(*f),
{
    let ghost before = out@;
    match f {
        Some(f) => {
            push_text(out, "{\"sample_rate_hz\":");
            push_decimal(out, f.sample_rate_hz as u64);
            push_text(out, ",\"channels\":");
            push_decimal(out, f.channels as u64);
            push_text(out, ",\"sample_format\":\"");
            push_text(out, sample_format_label(f.sample_format));
            push_text(out, "\"}");
        },
        None => {
            push_text(out, "null");
        },
    }
    assert(out@ =~= before + format_json(*f));
}

/// A device as JSON.
pub open spec fn device_json(d: DeviceInfo) -> Seq<char> {
    "{\"id\":\""@ + escaped(d.id@) + "\",\"name\":\""@ + escaped(d.name@)
        + "\",\"default_format\":"@ + format_json(d.default_format) + "}"@
}

fn push_escaped(out: &mut String, s: &str)
    ensures
        final(out)@ == old(out)@ + escaped(s@),
{
    let text = json_escape(s);
    push_text(out, text.as_str());
}

fn push_device(out: &mut String, d: &DeviceInfo)
    ensures
        final(out)@ == old(out)@ + device_json(*d),
{
    let ghost before = out@;
    push_text(out, "{\"id\":\"");
    push_escaped(out, d.id.as_str());
    push_text(out, "\",\"name\":\"");
    push_escaped(out, d.name.as_str());
    push_text(out, "\",\"default_format\":");
    push_format(out, &d.default_format);
    push_text(out, "}");
    assert(out@ =~= before + device_json(*d));
}

/// The items, with a comma between each two.
pub open spec fn with_commas(items: Seq<Seq<char>>) -> Seq<char>
    decreases items.len(),
{
    if items.len() == 0 {
        Seq::empty()
    } else if items.len() == 1 {
        items[0]
    } else {
        with_commas(items.drop_last()) + ","@ + items.last()
    }
}

/// The devices as JSON.
pub open spec fn devices_text(devices: Seq<DeviceInfo>) -> Seq<char> {
    "["@ + with_commas(devices.map_values(|d: DeviceInfo| device_json(d))) + "]"@
}

/// The devices as JSON.
pub fn devices_json(devices: &Vec<DeviceInfo>) -> (out: String)
    ensures
        out@ == devices_text(devices@),
{
    let ghost items = devices@.map_values(|d: DeviceInfo| device_json(d));
    let mut out = String::new();
    push_text(&mut out, "[");
    let mut i: usize = 0;
    assert(out@ =~= "["@ + with_commas(items.take(0)));
    while i < devices.len()
        invariant
            i <= devices@.len(),
            items == devices@.map_values(|d: DeviceInfo| device_json(d)),
            out@ == "["@ + with_commas(items.take(i as int)),
        decreases devices@.len() - i,
    {
        let ghost before = out@;
        proof {
            assert(items.take(i + 1).drop_last() =~= items.take(i as int));
            assert(items.take(i + 1).last() == device_json(devices@[i as int]));
        }
        if i > 0 {
            push_text(&mut out, ",");
        }
        push_device(&mut out, &devices[i]);
        assert(out@ =~= "["@ + with_commas(items.take(i + 1)));
        i = i + 1;
    }
    assert(items.take(i as int) =~= items);
    push_text(&mut out, "]");
    assert(out@ =~= devices_text(devices@));
    out
}

/// A text in quotes, or `null`.
pub open spec fn optional_text(s: Option<String>) -> Seq<char> {
    match s {
        Some(s) => "\""@ + escaped(s@) + "\""@,
        None => "null"@,
    }
}

fn push_optional(out: &mut String, s: &Option<String>)
    ensures
        final(out)@ == old(out)@ + optional_text(*s),
{
    let ghost before = out@;
    match s {
        Some(s) => {
            push_text(out, "\"");
            push_escaped(out, s.as_str());
            push_text(out, "\"");
        },
        None => {
            push_text(out, "null");
        },
    }
    assert(out@ =~= before + optional_text(*s));
}

/// `true` or `false`.
pub open spec fn bool_text(b: bool) -> Seq<char> {
    if b {
        "true"@
    } else {
        "false"@
    }
}

fn push_bool(out: &mut String, b: bool)
    ensures
        final(out)@ == old(out)@ + bool_text(b),
{
    if b {
        push_text(out, "true");
    } else {
        push_text(out, "false");
    }
}

/// What tells which application it is.
pub open spec fn app_identity(a: AppCaptureDescriptor) -> Seq<char> {
    "\"backend\":\""@ + backend_text(a.backend) + "\",\"app_name\":\""@ + escaped(a.app_name@)
        + "\",\"app_id\":"@ + optional_text(a.app_id) + ",\"process_id\":"@ + match a.process_id {
        Some(id) => crate::text::decimal(id as nat),
        None => "null"@,
    }
}

/// What tells how the application can be captured.
pub open spec fn app_traits(a: AppCaptureDescriptor) -> Seq<char> {
    ",\"instance_id\":"@ + optional_text(a.instance_id) + ",\"supports_multi_select\":"@
        + bool_text(a.supports_multi_select) + ",\"requires_system_permission\":"@ + bool_text(
        a.requires_system_permission,
    )
}

/// An application as JSON, or `null`.
pub open spec fn app_json(app: Option<AppCaptureDescriptor>) -> Seq<char> {
    match app {
        Some(a) => "{"@ + app_identity(a) + app_traits(a) + "}"@,
        None => "null"@,
    }
}

fn push_app_identity(out: &mut String, a: &AppCaptureDescriptor)
    ensures
        final(out)@ == old(out)@ + app_identity(*a),
{
    let ghost before = out@;
    push_text(out, "\"backend\":\"");
    push_text(out, app_capture_backend_label(a.backend));
    push_text(out, "\",\"app_name\":\"");
    push_escaped(out, a.app_name.as_str());
    push_text(out, "\",\"app_id\":");
    push_optional(out, &a.app_id);
    push_text(out, ",\"process_id\":");
    match a.process_id {
        Some(id) => push_decimal(out, id as u64),
        None => push_text(out, "null"),
    }
    assert(out@ =~= before + app_identity(*a));
}

fn push_app_traits(out: &mut String, a: &AppCaptureDescriptor)
    ensures
        final(out)@ == old(out)@ + app_traits(*a),
{
    let ghost before = out@;
    push_text(out, ",\"instance_id\":");
    push_optional(out, &a.instance_id);
    push_text(out, ",\"supports_multi_select\":");
    push_bool(out, a.supports_multi_select);
    push_text(out, ",\"requires_system_permission\":");
    push_bool(out, a.requires_system_permission);
    assert(out@ =~= before + app_traits(*a));
}

fn push_app(out: &mut String, app: &Option<AppCaptureDescriptor>)
    ensures
        final(out)@ == old(out)@ + app_json(*app),
{
    let ghost before = out@;
    match app {
        Some(a) => {
            push_text(out, "{");
            push_app_identity(out, a);
            push_app_traits(out, a);
            push_text(out, "}");
        },
        None => {
            push_text(out, "null");
        },
    }
    assert(out@ =~= before + app_json(*app));
}

/// The name of a kind of source in JSON.
pub open spec fn kind_text(k: CaptureSourceKind) -> Seq<char> {
    match k {
        CaptureSourceKind::Input => "input"@,
        CaptureSourceKind::Loopback => "loopback"@,
        CaptureSourceKind::AppOutput => "app-output"@,
    }
}

/// A capture source as JSON.
pub open spec fn source_json(s: CaptureSource) -> Seq<char> {
    "{\"id\":\""@ + escaped(s.id@) + "\",\"name\":\""@ + escaped(s.name@) + "\",\"kind\":\""@
        + kind_text(s.kind) + "\",\"default_format\":"@ + format_json(s.default_format)
        + ",\"app\":"@ + app_json(s.app) + "}"@
}

fn push_source(out: &mut String, s: &CaptureSource)
    ensures
        final(out)@ == old(out)@ + source_json(*s),
{
    let ghost before = out@;
    push_text(out, "{\"id\":\"");
    push_escaped(out, s.id.as_str());
    push_text(out, "\",\"name\":\"");
    push_escaped(out, s.name.as_str());
    push_text(out, "\",\"kind\":\"");
    match s.kind {
        CaptureSourceKind::Input => push_text(out, "input"),
        CaptureSourceKind::Loopback => push_text(out, "loopback"),
        CaptureSourceKind::AppOutput => push_text(out, "app-output"),
    }
    push_text(out, "\",\"default_format\":");
    push_format(out, &s.default_format);
    push_text(out, ",\"app\":");
    push_app(out, &s.app);
    push_text(out, "}");
    assert(out@ =~= before + source_json(*s));
}

/// The capture sources as JSON.
pub open spec fn sources_text(sources: Seq<CaptureSource>) -> Seq<char> {
    "["@ + with_commas(sources.map_values(|s: CaptureSource| source_json(s))) + "]"@
}

/// The capture sources as JSON.
pub fn sources_json(sources: &Vec<CaptureSource>) -> (out: String)
    ensures
        out@ == sources_text(sources@),
{
    let ghost items = sources@.map_values(|s: CaptureSource| source_json(s));
    let mut out = String::new();
    push_text(&mut out, "[");
    let mut i: usize = 0;
    assert(out@ =~= "["@ + with_commas(items.take(0)));
    while i < sources.len()
        invariant
            i <= sources@.len(),
            items == sources@.map_values(|s: CaptureSource| source_json(s)),
            out@ == "["@ + with_commas(items.take(i as int)),
        decreases sources@.len() - i,
    {
        proof {
            assert(items.take(i + 1).drop_last() =~= items.take(i as int));
            assert(items.take(i + 1).last() == source_json(sources@[i as int]));
        }
        if i > 0 {
            push_text(&mut out, ",");
        }
        push_source(&mut out, &sources[i]);
        assert(out@ =~= "["@ + with_commas(items.take(i + 1)));
        i = i + 1;
    }
    assert(items.take(i as int) =~= items);
    push_text(&mut out, "]");
    assert(out@ =~= sources_text(sources@));
    out
}

/// The capture sources of a host as JSON.
pub fn capture_sources_json<S, H: AudioHost<S>>(host: &H) -> (r: Result<String>)
    ensures
        r matches Ok(json) ==> exists|sources: Vec<CaptureSource>| #[trigger]
            call_ensures(H::list_capture_sources, (host,), Ok(sources)) && json@ == sources_text(
                sources@,
            ),
        r matches Err(e) ==> call_ensures(H::list_capture_sources, (host,), Err(e)),
{
    match host.list_capture_sources() {
        Ok(sources) => {
            let json = sources_json(&sources);
            assert(call_ensures(H::list_capture_sources, (host,), Ok(sources)));
            Ok(json)
        },
        Err(e) => Err(e),
    }
}

/// A list has a comma between each two items and none elsewhere: joining more items behind some
/// is joining both by one comma.
pub proof fn items_are_joined_by_commas(a: Seq<Seq<char>>, b: Seq<Seq<char>>)
    requires
        a.len() > 0,
        b.len() > 0,
    ensures
        with_commas(a + b) == with_commas(a) + ","@ + with_commas(b),
        with_commas(seq![a[0]]) == a[0],
        with_commas(Seq::<Seq<char>>::empty()).len() == 0,
    decreases b.len(),
{
    if b.len() == 1 {
        assert((a + b).drop_last() =~= a);
        assert(with_commas(a + b) =~= with_commas(a) + ","@ + with_commas(b));
    } else {
        items_are_joined_by_commas(a, b.drop_last());
        assert((a + b).drop_last() =~= a + b.drop_last());
        assert(with_commas(a + b) =~= with_commas(a) + ","@ + with_commas(b));
    }
}

/// The words that stand for kinds, sample formats and backends tell them apart.
pub proof fn words_tell_values_apart(
    k: CaptureSourceKind,
    l: CaptureSourceKind,
    f: SampleFormat,
    g: SampleFormat,
    b: AppCaptureBackend,
    c: AppCaptureBackend,
)
    ensures
        kind_text(k) == kind_text(l) ==> k == l,
        sample_format_text(f) == sample_format_text(g) ==> f == g,
        backend_text(b) == backend_text(c) ==> b == c,
        bool_text(true) != bool_text(false),
{
    reveal_strlit("input");
    reveal_strlit("loopback");
    reveal_strlit("app-output");
    reveal_strlit("f32");
    reveal_strlit("i16");
    reveal_strlit("windows-process-loopback");
    reveal_strlit("macos-screencapturekit");
    reveal_strlit("linux-pipewire-route");
    reveal_strlit("unsupported");
    reveal_strlit("true");
    reveal_strlit("false");
    assert("f32"@[0] == 'f' && "i16"@[0] == 'i');
    assert("true"@.len() == 4 && "false"@.len() == 5);
    assert("input"@.len() == 5 && "loopback"@.len() == 8 && "app-output"@.len() == 10);
    assert("windows-process-loopback"@.len() == 24 && "macos-screencapturekit"@.len() == 22);
    assert("linux-pipewire-route"@.len() == 20 && "unsupported"@.len() == 11);
}

/// Plain characters stay as they are, and texts are escaped piece by piece.
pub proof fn plain_text_is_not_escaped(s: Seq<char>, t: Seq<char>)
    ensures
        escaped(s + t) == escaped(s) + escaped(t),
        (forall|i: int|
            0 <= i < s.len() ==> ' ' <= #[trigger] s[i] <= '~' && s[i] != '"' && s[i] != '\\')
            ==> escaped(s) == s,
    decreases s.len() + t.len(),
{
    if t.len() > 0 {
        plain_text_is_not_escaped(s, t.drop_last());
        assert((s + t).drop_last() =~= s + t.drop_last());
        assert(escaped(s + t) =~= escaped(s) + escaped(t));
    } else {
        assert(s + t =~= s);
        assert(escaped(s) + escaped(t) =~= escaped(s));
        if s.len() > 0 {
            plain_text_is_not_escaped(s.drop_last(), t);
            if forall|i: int|
                0 <= i < s.len() ==> ' ' <= #[trigger] s[i] <= '~' && s[i] != '"' && s[i] != '\\' {
                assert(' ' <= s[s.len() - 1] <= '~');
                assert forall|i: int| 0 <= i < s.len() - 1 implies #[trigger] s.drop_last()[i]
                    == s[i] by {}
                assert(escaped(s) =~= s);
            }
        }
    }
}

} // verus!
