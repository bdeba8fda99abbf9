//! Opening a plugin's own editor: class ids, the binary inside a bundle, window sizes, and what
//! the editor gets to hear.

use vstd::prelude::*;

use crate::paths::{same_path, PathStyle};
use crate::text::{
    chars_of, debug_text, owned, push_decimal, push_text, text_equal,
};
use crate::vst::{input_planes, PluginFormat};

verus! {

/// What a hexadecimal digit stands for.
pub open spec fn hex_value(c: char) -> Option<int> {
    if '0' <= c && c <= '9' {
        Some(c as int - '0' as int)
    } else if 'a' <= c && c <= 'f' {
        Some(c as int - 'a' as int + 10)
    } else if 'A' <= c && c <= 'F' {
        Some(c as int - 'A' as int + 10)
    } else {
        None
    }
}

/// The values of the hexadecimal digits in a text; all else is skipped.
pub open spec fn hex_values(s: Seq<char>) -> Seq<int>
    decreases s.len(),
{
    if s.len() == 0 {
        Seq::empty()
    } else {
        match hex_value(s.last()) {
            Some(v) => hex_values(s.drop_last()).push(v),
            None => hex_values(s.drop_last()),
        }
    }
}

/// A byte as a signed number.
pub open spec fn signed_byte(n: int) -> int {
    if n < 128 {
        n
    } else {
        n - 256
    }
}

fn hex_digit_value(c: char) -> (r: Option<u8>)
    ensures
        match hex_value(c) {
            Some(v) => r is Some && r->0 == v && r->0 < 16,
            None => r is None,
        },
{
    if '0' <= c && c <= '9' {
        Some((c as u32 - '0' as u32) as u8)
    } else if 'a' <= c && c <= 'f' {
        Some((c as u32 - 'a' as u32 + 10) as u8)
    } else if 'A' <= c && c <= 'F' {
        Some((c as u32 - 'A' as u32 + 10) as u8)
    } else {
        None
    }
}

/// The sixteen bytes of a class id. It has thirty-two hexadecimal digits; what stands between
/// them does not matter.
pub fn parse_class_id(uid: &str) -> (r: Result<[i8; 16], String>)
    ensures
        ({
            let digits = hex_values(uid@);
            match r {
                Ok(id) => digits.len() == 32 && forall|i: int|
                    0 <= i < 16 ==> #[trigger] id@[i] == signed_byte(
                        digits[2 * i] * 16 + digits[2 * i + 1],
                    ),
                Err(text) => digits.len() != 32 && text@
                    == "plugin UID must be 32 hex digits (got "@ + crate::text::decimal(
                    digits.len(),
                ) + " from "@ + crate::text::debug_of(uid@) + ")"@,
            }
        }),
{
    let chars = chars_of(uid);
    let mut digits: Vec<u8> = Vec::new();
    let mut i: usize = 0;
    while i < chars.len()
        invariant
            i <= chars@.len(),
            digits@.len() <= i,
            digits@.len() == hex_values(chars@.take(i as int)).len(),
            forall|k: int|
                0 <= k < digits@.len() ==> #[trigger] digits@[k] == hex_values(
                    chars@.take(i as int),
                )[k] && digits@[k] < 16,
        decreases chars@.len() - i,
    {
        proof {
            assert(chars@.take(i + 1).drop_last() =~= chars@.take(i as int));
            assert(chars@.take(i + 1).last() == chars@[i as int]);
        }
        match hex_digit_value(chars[i]) {
            Some(v) => {
                digits.push(v);
            },
            None => {},
        }
        i = i + 1;
    }
    assert(chars@.take(i as int) =~= uid@);
    if digits.len() != 32 {
        let mut text = String::new();
        push_text(&mut text, "plugin UID must be 32 hex digits (got ");
        push_decimal(&mut text, digits.len() as u64);
        push_text(&mut text, " from ");
        let quoted = debug_text(uid);
        push_text(&mut text, quoted.as_str());
        push_text(&mut text, ")");
        assert(text@ =~= "plugin UID must be 32 hex digits (got "@ + crate::text::decimal(
            digits@.len(),
        ) + " from "@ + crate::text::debug_of(uid@) + ")"@);
        return Err(text);
    }
    let mut id: [i8; 16] = [0i8;16];
    let mut n: usize = 0;
    while n < 16
        invariant
            n <= 16,
            digits@.len() == 32,
            forall|k: int| 0 <= k < 32 ==> #[trigger] digits@[k] < 16,
            forall|k: int|
                0 <= k < n ==> #[trigger] id@[k] == signed_byte(
                    digits@[2 * k] as int * 16 + digits@[2 * k + 1] as int,
                ),
        decreases 16 - n,
    {
        let byte: i32 = digits[2 * n] as i32 * 16 + digits[2 * n + 1] as i32;
        let signed: i32 = if byte < 128 {
            byte
        } else {
            byte - 256
        };
        id[n] = signed as i8;
        n = n + 1;
    }
    Ok(id)
}

/// The size of an editor's window: what the plugin asks for, or `fallback` where it asks for
/// nothing.
pub fn editor_extent(asked: i32, fallback: i32) -> (n: i32)
    ensures
        n == if asked <= 0 {
            fallback
        } else {
            asked
        },
{
    if asked <= 0 {
        fallback
    } else {
        asked
    }
}

/// The width and height of an editor's window where the plugin asks for nothing.
pub fn editor_fallback(format: PluginFormat) -> (size: (i32, i32))
    ensures
        size == match format {
            PluginFormat::Vst3 => (800i32, 600i32),
            PluginFormat::Vst2 => (760i32, 520i32),
        },
{
    match format {
        PluginFormat::Vst3 => (800, 600),
        PluginFormat::Vst2 => (760, 520),
    }
}

/// The size of an editor's window on macOS: what the plugin asks for, but at least 320 by 240.
pub fn mac_editor_size(width: i32, height: i32) -> (size: (i32, i32))
    ensures
        size.0 == if width < 320 {
            320
        } else {
            width as int
        },
        size.1 == if height < 240 {
            240
        } else {
            height as int
        },
{
    (
        if width < 320 {
            320
        } else {
            width
        },
        if height < 240 {
            240
        } else {
            height
        },
    )
}

/// Whether the window has to be resized after the editor was opened: the plugin asks for a size
/// by then, and for another one.
pub fn needs_resize(opened: (i32, i32), asked: (i32, i32)) -> (r: bool)
    ensures
        r == (asked.0 > 0 && asked.1 > 0 && asked != opened),
{
    asked.0 > 0 && asked.1 > 0 && (asked.0 != opened.0 || asked.1 != opened.1)
}

/// What an editor that listens in on a block is given: the planes of a mono or stereo block of
/// up to `limit` frames; nothing for other blocks.
pub fn editor_planes<S: Copy>(
    data: &Vec<S>,
    channels: u16,
    frames: usize,
    limit: usize,
    inputs: usize,
    zero: S,
) -> (planes: Option<Vec<Vec<S>>>)
    ensures
        planes is Some <==> (0 < frames <= limit && (channels == 1 || channels == 2)),
        planes matches Some(p) ==> p@.len() == inputs && forall|k: int|
            0 <= k < inputs ==> (#[trigger] p@[k])@ == crate::vst::input_plane(
                data@,
                channels as int,
                k,
                frames as nat,
                zero,
            ),
{
    if frames == 0 || frames > limit {
        return None;
    }
    if channels != 1 && channels != 2 {
        return None;
    }
    Some(input_planes(data, channels == 2, frames, inputs, zero))
}

/// The format of a plugin bundle on macOS, by its extension in lower case.
pub fn bundle_format(path: &str, extension: Option<&str>) -> (r: Result<PluginFormat, String>)
    ensures
        match extension {
            Some(e) => if e@ == "vst3"@ {
                r == Ok::<PluginFormat, String>(PluginFormat::Vst3)
            } else if e@ == "vst"@ {
                r == Ok::<PluginFormat, String>(PluginFormat::Vst2)
            } else {
                r matches Err(text) && text@ == "unsupported macOS VST bundle extension for "@
                    + path@ + ": Some("@ + crate::text::debug_of(e@) + ")"@
            },
            None => r matches Err(text) && text@
                == "unsupported macOS VST bundle extension for "@ + path@ + ": None"@,
        },
{
    proof {
        reveal_strlit("vst3");
        reveal_strlit("vst");
    }
    let mut text = String::new();
    push_text(&mut text, "unsupported macOS VST bundle extension for ");
    push_text(&mut text, path);
    match extension {
        Some(e) => {
            if text_equal(e, "vst3") {
                return Ok(PluginFormat::Vst3);
            }
            if text_equal(e, "vst") {
                return Ok(PluginFormat::Vst2);
            }
            push_text(&mut text, ": Some(");
            let quoted = debug_text(e);
            push_text(&mut text, quoted.as_str());
            push_text(&mut text, ")");
            assert(text@ =~= "unsupported macOS VST bundle extension for "@ + path@ + ": Some("@
                + crate::text::debug_of(e@) + ")"@);
            Err(text)
        },
        None => {
            push_text(&mut text, ": None");
            assert(text@ =~= "unsupported macOS VST bundle extension for "@ + path@ + ": None"@);
            Err(text)
        },
    }
}

/// A file in a bundle's folder.
#[derive(Debug, Clone)]
pub struct BundleFile {
    pub path: String,
    pub is_file: bool,
    pub extension: Option<String>,
}

/// The file is one that a plugin may be loaded from: a file, and with the wanted extension where
/// one is wanted.
pub open spec fn is_binary(f: BundleFile, wanted: Option<Seq<char>>) -> bool {
    f.is_file && match wanted {
        Some(w) => f.extension is Some && f.extension->0@ == w,
        None => true,
    }
}

/// The first file that a plugin may be loaded from.
pub fn find_binary(files: &Vec<BundleFile>, wanted: Option<&str>) -> (r: Option<usize>)
    ensures
        ({
            let w = match wanted {
                Some(e) => Some(e@),
                None => None,
            };
            match r {
                Some(i) => i < files@.len() && is_binary(files@[i as int], w) && forall|k: int|
                    0 <= k < i ==> !is_binary(#[trigger] files@[k], w),
                None => forall|k: int| 0 <= k < files@.len() ==> !is_binary(#[trigger] files@[k], w),
            }
        }),
{
    let ghost w = match wanted {
        Some(e) => Some(e@),
        None => None,
    };
    let mut i: usize = 0;
    while i < files.len()
        invariant
            i <= files@.len(),
            w == match wanted {
                Some(e) => Some(e@),
                None => None,
            },
            forall|k: int| 0 <= k < i ==> !is_binary(#[trigger] files@[k], w),
        decreases files@.len() - i,
    {
        let f = &files[i];
        let fits: bool = match wanted {
            None => true,
            Some(e) => match &f.extension {
                Some(x) => text_equal(x.as_str(), e),
                None => false,
            },
        };
        if f.is_file && fits {
            return Some(i);
        }
        i = i + 1;
    }
    None
}

/// A plugin that a scan found: where its bundle really is, and its identifier.
#[derive(Debug, Clone)]
pub struct ScannedBundle {
    pub path: String,
    pub unique_id: String,
}

/// The bundle has this path; its parts count, not how they are spelled. Bundles are those of macOS.
pub open spec fn is_at(b: ScannedBundle, path: Seq<char>) -> bool {
    crate::paths::canonical(PathStyle::Slash, b.path@) == crate::paths::canonical(
        PathStyle::Slash,
        path,
    )
}

/// The identifier of the first plugin that a scan found at `wanted`; `bundle` is the path as the
/// user gave it.
pub fn find_vst3_unique_id(found: &Vec<ScannedBundle>, wanted: &str, bundle: &str) -> (r: Result<
    String,
    String,
>)
    ensures
        r is Ok == exists|i: int|
            0 <= i < found@.len() && is_at(#[trigger] found@[i], wanted@),
        r matches Ok(id) ==> exists|i: int|
            {
                &&& 0 <= i < found@.len()
                &&& is_at(#[trigger] found@[i], wanted@)
                &&& id@ == found@[i].unique_id@
                &&& forall|k: int| 0 <= k < i ==> !is_at(#[trigger] found@[k], wanted@)
            },
        r matches Err(e) ==> e@ == "VST3 plugin not found in scan results: "@ + bundle@,
{
    let mut i: usize = 0;
    while i < found.len()
        invariant
            i <= found@.len(),
            forall|k: int| 0 <= k < i ==> !is_at(#[trigger] found@[k], wanted@),
        decreases found@.len() - i,
    {
        if same_path(PathStyle::Slash, &chars_of(found[i].path.as_str()), &chars_of(wanted)) {
            return Ok(owned(found[i].unique_id.as_str()));
        }
        i += 1;
    }
    let mut e = owned("VST3 plugin not found in scan results: ");
    push_text(&mut e, bundle);
    Err(e)
}

/// Digits of either case stand for their values: every value is that of its digit, and of its
/// capital, and nothing else has a value.
pub proof fn digits_have_their_values(d: int, c: char)
    ensures
        0 <= d < 16 ==> hex_value(crate::text::hex_digit(d)) == Some(d),
        hex_value(c) == hex_value(crate::text::ascii_lower(c)),
        hex_value(c) is Some <==> ('0' <= c <= '9' || 'a' <= c <= 'f' || 'A' <= c <= 'F'),
        hex_value(c) matches Some(v) ==> 0 <= v < 16,
{
}

/// Only digits matter: the values of a text are those of its digits in order, whatever stands
/// between them.
pub proof fn other_characters_do_not_matter(
    a: Seq<char>,
    c: char,
    b: Seq<char>,
    value: spec_fn(char) -> Option<int>,
)
    requires
        forall|x: char| #[trigger] value(x) == hex_value(x),
    ensures
        hex_values(a) == a.filter_map(value),
        hex_values(a + b) == hex_values(a) + hex_values(b),
        hex_value(c) is None ==> hex_values(a.push(c)) == hex_values(a),
    decreases a.len() + b.len(),
{
    if b.len() > 0 {
        other_characters_do_not_matter(a, c, b.drop_last(), value);
        assert((a + b).drop_last() =~= a + b.drop_last());
        assert(hex_values(a + b) =~= hex_values(a) + hex_values(b));
    } else {
        assert(a + b =~= a);
        assert(hex_values(a) + hex_values(b) =~= hex_values(a));
        if a.len() > 0 {
            other_characters_do_not_matter(a.drop_last(), c, b, value);
        }
        assert(hex_values(a) =~= a.filter_map(value));
    }
    assert(a.push(c).drop_last() =~= a);
}

} // verus!
