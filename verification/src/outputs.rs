//! Where a recording goes: the kinds of files, how the speaker is combined with the microphone,
//! and the names of the files.

use vstd::prelude::*;

use crate::mixer::MixMode;
use crate::paths::{extension_chars, stem_chars, with_extension, with_file_name, PathStyle};
use crate::text::{chars_of, owned, push_chars, push_text, string_of, trim_chars};

verus! {

/// The kind of file that is written.
#[derive(Debug, Clone, Copy, PartialEq, Eq, Structural)]
pub enum OutFormat {
    Wav,
    Flac,
    Mp3,
}

impl Default for OutFormat {
    fn default() -> (f: Self)
        ensures
            f == OutFormat::Wav,
    {
        OutFormat::Wav
    }
}

impl OutFormat {
    /// The file extension.
    pub open spec fn ext_text(self) -> Seq<char> {
        match self {
            OutFormat::Wav => "wav"@,
            OutFormat::Flac => "flac"@,
            OutFormat::Mp3 => "mp3"@,
        }
    }

    /// The file extension.
    pub fn ext(self) -> (s: &'static str)
        ensures
            s@ == self.ext_text(),
    {
        match self {
            OutFormat::Wav => "wav",
            OutFormat::Flac => "flac",
            OutFormat::Mp3 => "mp3",
        }
    }

    /// The name shown to users.
    pub fn label(self) -> (s: &'static str)
        ensures
            s@ == match self {
                OutFormat::Wav => "WAV"@,
                OutFormat::Flac => "FLAC"@,
                OutFormat::Mp3 => "MP3 (needs LAME)"@,
            },
    {
        match self {
            OutFormat::Wav => "WAV",
            OutFormat::Flac => "FLAC",
            OutFormat::Mp3 => "MP3 (needs LAME)",
        }
    }
}

/// How microphone and speaker are combined when both are recorded.
#[derive(Debug, Clone, Copy, PartialEq, Eq, Structural)]
pub enum SpeakerMode {
    /// The speaker is not recorded.
    Off,
    /// Both have files of their own.
    Separate,
    /// One stereo file: microphone left, speaker right.
    StereoSplit,
    /// One file with the sum.
    Mixed,
}

impl Default for SpeakerMode {
    fn default() -> (m: Self)
        ensures
            m == SpeakerMode::Off,
    {
        SpeakerMode::Off
    }
}

impl SpeakerMode {
    /// The name shown to users.
    pub fn label(self) -> (s: &'static str)
        ensures
            s@ == match self {
                SpeakerMode::Off => "Off"@,
                SpeakerMode::Separate => "Separate files"@,
                SpeakerMode::StereoSplit => "Stereo split (mic L / speaker R)"@,
                SpeakerMode::Mixed => "Mixed (sum)"@,
            },
    {
        match self {
            SpeakerMode::Off => "Off",
            SpeakerMode::Separate => "Separate files",
            SpeakerMode::StereoSplit => "Stereo split (mic L / speaker R)",
            SpeakerMode::Mixed => "Mixed (sum)",
        }
    }

    /// Whether the speaker is recorded.
    pub fn is_active(self) -> (r: bool)
        ensures
            r == (self != SpeakerMode::Off),
    {
        match self {
            SpeakerMode::Off => false,
            _ => true,
        }
    }

    /// Whether there is one file for both.
    pub fn uses_mixer(self) -> (r: bool)
        ensures
            r == (self == SpeakerMode::StereoSplit || self == SpeakerMode::Mixed),
    {
        match self {
            SpeakerMode::StereoSplit => true,
            SpeakerMode::Mixed => true,
            _ => false,
        }
    }

    /// How the main bus mixes: side by side, or the sum on both sides.
    pub fn mix_mode(self) -> (m: MixMode)
        ensures
            m == if self == SpeakerMode::StereoSplit {
                MixMode::SplitStereo
            } else {
                MixMode::SumStereo
            },
    {
        match self {
            SpeakerMode::StereoSplit => MixMode::SplitStereo,
            _ => MixMode::SumStereo,
        }
    }

    /// How the second channel is recorded; `ch2` tells whether it can be.
    pub open spec fn pairing_spec(self, ch2: bool) -> Pairing {
        if !ch2 {
            Pairing::Alone
        } else {
            match self {
                SpeakerMode::Off => Pairing::Alone,
                SpeakerMode::Separate => Pairing::Separate,
                SpeakerMode::StereoSplit => Pairing::Mixed,
                SpeakerMode::Mixed => Pairing::Mixed,
            }
        }
    }

    /// How the second channel is recorded; `ch2` tells whether it can be.
    #[verifier::when_used_as_spec(pairing_spec)]
    pub fn pairing(self, ch2: bool) -> (p: Pairing)
        ensures
            p == self.pairing_spec(ch2),
    {
        if !ch2 || !self.is_active() {
            Pairing::Alone
        } else if self.uses_mixer() {
            Pairing::Mixed
        } else {
            Pairing::Separate
        }
    }

    /// The mode to start with, from the saved one. Settings without a mode only tell whether the
    /// speaker was recorded, which was then done in files of its own.
    pub fn restored(saved: Option<SpeakerMode>, record_speaker: bool) -> (m: Self)
        ensures
            m == match saved {
                Some(mode) => mode,
                None => if record_speaker {
                    SpeakerMode::Separate
                } else {
                    SpeakerMode::Off
                },
            },
    {
        match saved {
            Some(mode) => mode,
            None => if record_speaker {
                SpeakerMode::Separate
            } else {
                SpeakerMode::Off
            },
        }
    }

    /// The mode after a speaker was picked: one that makes use of it.
    pub fn after_pick(self) -> (m: Self)
        ensures
            m == if self == SpeakerMode::Off {
                SpeakerMode::Mixed
            } else {
                self
            },
    {
        match self {
            SpeakerMode::Off => SpeakerMode::Mixed,
            other => other,
        }
    }
}

/// What becomes of the second channel in a recording.
#[derive(Debug, Clone, Copy, PartialEq, Eq, Structural)]
pub enum Pairing {
    /// It is not recorded.
    Alone,
    /// It has files of its own.
    Separate,
    /// It is mixed with the first.
    Mixed,
}

/// Where a file's audio comes from.
#[derive(Debug, Clone, Copy, PartialEq, Eq, Structural)]
pub enum SourceTag {
    Mic,
    Speaker,
}

impl SourceTag {
    /// The tag in file names.
    pub open spec fn tag(self) -> Seq<char> {
        match self {
            SourceTag::Mic => "mic"@,
            SourceTag::Speaker => "speaker"@,
        }
    }

    /// The tag in file names.
    pub fn label(self) -> (s: &'static str)
        ensures
            s@ == self.tag(),
    {
        match self {
            SourceTag::Mic => "mic",
            SourceTag::Speaker => "speaker",
        }
    }
}

/// Whether a file holds audio before or after the plugins.
#[derive(Debug, Clone, Copy, PartialEq, Eq, Structural)]
pub enum StageTag {
    Pre,
    Post,
}

impl StageTag {
    /// The tag in file names.
    pub open spec fn tag(self) -> Seq<char> {
        match self {
            StageTag::Pre => "pre"@,
            StageTag::Post => "post"@,
        }
    }

    /// The tag in file names.
    pub fn label(self) -> (s: &'static str)
        ensures
            s@ == self.tag(),
    {
        match self {
            StageTag::Pre => "pre",
            StageTag::Post => "post",
        }
    }
}

/// The path that the user gave, with the format's extension if it has none.
pub open spec fn normalized(style: PathStyle, path: Seq<char>, fmt: OutFormat) -> Seq<char> {
    let t = crate::text::trim_seq(path);
    if crate::paths::extension_of(style, t) is None {
        crate::paths::set_extension(style, t, fmt.ext_text())
    } else {
        t
    }
}

fn normalize_chars(style: PathStyle, path: &str, fmt: OutFormat) -> (r: Vec<char>)
    ensures
        r@ == normalized(style, path@, fmt),
{
    let t = trim_chars(&chars_of(path));
    match extension_chars(style, &t) {
        None => with_extension(style, &t, &chars_of(fmt.ext())),
        Some(_) => t,
    }
}

/// The path that the user gave, with the format's extension if it has none.
pub fn normalize_path(style: PathStyle, path: &str, fmt: OutFormat) -> (s: String)
    ensures
        s@ == normalized(style, path@, fmt),
{
    string_of(&normalize_chars(style, path, fmt))
}

/// The name of a file with a mark behind the stem.
pub open spec fn marked_name(
    style: PathStyle,
    p: Seq<char>,
    infix: Seq<char>,
    fmt: OutFormat,
) -> Seq<char> {
    let stem = match crate::paths::stem_of(style, p) {
        Some(s) => s,
        None => "recording"@,
    };
    let ext = match crate::paths::extension_of(style, p) {
        Some(e) => e,
        None => fmt.ext_text(),
    };
    stem + infix + "."@ + ext
}

/// The path of a file with a mark behind the stem.
pub open spec fn marked(
    style: PathStyle,
    path: Seq<char>,
    infix: Seq<char>,
    fmt: OutFormat,
) -> Seq<char> {
    let p = normalized(style, path, fmt);
    crate::paths::set_file_name(style, p, marked_name(style, p, infix, fmt))
}

/// The path of a file with a mark behind the stem.
pub fn marked_output_path(style: PathStyle, path: &str, infix: &str, fmt: OutFormat) -> (s: String)
    ensures
        s@ == marked(style, path@, infix@, fmt),
{
    let p = normalize_chars(style, path, fmt);
    let mut name = String::new();
    match stem_chars(style, &p) {
        Some(stem) => push_chars(&mut name, &stem),
        None => push_text(&mut name, "recording"),
    }
    push_text(&mut name, infix);
    push_text(&mut name, ".");
    match extension_chars(style, &p) {
        Some(ext) => push_chars(&mut name, &ext),
        None => push_text(&mut name, fmt.ext()),
    }
    assert(name@ =~= marked_name(style, p@, infix@, fmt));
    let chars = chars_of(name.as_str());
    string_of(&with_file_name(style, &p, &chars))
}

/// Two marks give two files, unless just one of the names starts with a drive.
pub proof fn other_marks_give_other_files(
    style: PathStyle,
    path: Seq<char>,
    a: Seq<char>,
    b: Seq<char>,
    fmt: OutFormat,
)
    requires
        a != b,
        style.drive_len(marked_name(style, normalized(style, path, fmt), a, fmt))
            == style.drive_len(marked_name(style, normalized(style, path, fmt), b, fmt)),
    ensures
        marked(style, path, a, fmt) != marked(style, path, b, fmt),
{
    let p = normalized(style, path, fmt);
    let x = marked_name(style, p, a, fmt);
    let y = marked_name(style, p, b, fmt);
    let stem = match crate::paths::stem_of(style, p) {
        Some(s) => s,
        None => "recording"@,
    };
    let ext = match crate::paths::extension_of(style, p) {
        Some(e) => e,
        None => fmt.ext_text(),
    };
    if x == y {
        let tail = "."@ + ext;
        assert(x =~= stem + a + tail);
        assert(y =~= stem + b + tail);
        assert(a.len() == b.len());
        assert(x.subrange(stem.len() as int, (stem.len() + a.len()) as int) =~= a);
        assert(y.subrange(stem.len() as int, (stem.len() + b.len()) as int) =~= b);
        assert(false);
    }
    crate::paths::other_names_give_other_paths(style, p, x, y);
}

/// The mark of a file: the source if both are recorded (or it is the speaker), and the stage if
/// both are recorded.
pub open spec fn infix_of(
    record_mic: bool,
    record_speaker: bool,
    source: SourceTag,
    record_pre: bool,
    record_post: bool,
    stage: StageTag,
) -> Seq<char> {
    let named = match source {
        SourceTag::Mic => record_mic && record_speaker,
        SourceTag::Speaker => record_speaker,
    };
    (if named {
        "_"@ + source.tag()
    } else {
        Seq::empty()
    }) + (if record_pre && record_post {
        "_"@ + stage.tag()
    } else {
        Seq::empty()
    })
}

/// The mark of a file.
pub fn output_infix(
    record_mic: bool,
    record_speaker: bool,
    source: SourceTag,
    record_pre: bool,
    record_post: bool,
    stage: StageTag,
) -> (s: String)
    ensures
        s@ == infix_of(record_mic, record_speaker, source, record_pre, record_post, stage),
{
    let named: bool = match source {
        SourceTag::Mic => record_mic && record_speaker,
        SourceTag::Speaker => record_speaker,
    };
    let mut s = String::new();
    if named {
        push_text(&mut s, "_");
        push_text(&mut s, source.label());
    }
    if record_pre && record_post {
        push_text(&mut s, "_");
        push_text(&mut s, stage.label());
    }
    assert(s@ =~= infix_of(
        record_mic,
        record_speaker,
        source,
        record_pre,
        record_post,
        stage,
    ));
    s
}

/// The files of a recording.
#[derive(Debug)]
pub struct OutputPlan {
    /// The first channel before the plugins.
    pub ch1_pre: Option<String>,
    /// The second channel before the plugins.
    pub ch2_pre: Option<String>,
    /// What comes after the plugins: the first channel, or the mix of both.
    pub main_post: Option<String>,
    /// The second channel after the plugins, where it is not mixed with the first.
    pub ch2_post: Option<String>,
}

/// The file of a channel that is not mixed. `both` tells whether the other one is recorded too.
pub open spec fn source_path(
    style: PathStyle,
    path: Seq<char>,
    fmt: OutFormat,
    both: bool,
    source: SourceTag,
    record_pre: bool,
    record_post: bool,
    stage: StageTag,
) -> Seq<char> {
    let infix = infix_of(true, both, source, record_pre, record_post, stage);
    if infix.len() == 0 {
        normalized(style, path, fmt)
    } else {
        marked(style, path, infix, fmt)
    }
}

fn source_output(
    style: PathStyle,
    path: &str,
    fmt: OutFormat,
    both: bool,
    source: SourceTag,
    record_pre: bool,
    record_post: bool,
    stage: StageTag,
) -> (s: String)
    ensures
        s@ == source_path(style, path@, fmt, both, source, record_pre, record_post, stage),
{
    let infix = output_infix(true, both, source, record_pre, record_post, stage);
    if infix.as_str().unicode_len() == 0 {
        normalize_path(style, path, fmt)
    } else {
        marked_output_path(style, path, infix.as_str(), fmt)
    }
}

/// The file is the one that is wanted, or there is none where none is wanted.
pub open spec fn is_file(f: Option<String>, wanted: bool, path: Seq<char>) -> bool {
    if wanted {
        f is Some && f->0@ == path
    } else {
        f is None
    }
}

impl OutputPlan {
    /// The files that are written for the given settings. Where both channels are mixed: one
    /// before the plugins for each and one with the mix. Otherwise one before and one after the
    /// plugins for each channel that is recorded, marked with the channel where there are both
    /// and with the stage where there are both.
    pub open spec fn follows(
        self,
        style: PathStyle,
        path: Seq<char>,
        fmt: OutFormat,
        record_pre: bool,
        record_post: bool,
        pairing: Pairing,
    ) -> bool {
        let own = |source: SourceTag, stage: StageTag|
            source_path(
                style,
                path,
                fmt,
                pairing == Pairing::Separate,
                source,
                record_pre,
                record_post,
                stage,
            );
        let mixed = pairing == Pairing::Mixed;
        &&& is_file(
            self.ch1_pre,
            record_pre,
            if mixed {
                marked(style, path, "_ch1_pre"@, fmt)
            } else {
                own(SourceTag::Mic, StageTag::Pre)
            },
        )
        &&& is_file(
            self.ch2_pre,
            record_pre && pairing != Pairing::Alone,
            if mixed {
                marked(style, path, "_ch2_pre"@, fmt)
            } else {
                own(SourceTag::Speaker, StageTag::Pre)
            },
        )
        &&& is_file(
            self.main_post,
            record_post,
            if mixed {
                marked(style, path, "_main_post"@, fmt)
            } else {
                own(SourceTag::Mic, StageTag::Post)
            },
        )
        &&& is_file(
            self.ch2_post,
            record_post && pairing == Pairing::Separate,
            own(SourceTag::Speaker, StageTag::Post),
        )
    }

    /// The files of a recording.
    pub fn new(
        style: PathStyle,
        path: &str,
        fmt: OutFormat,
        record_pre: bool,
        record_post: bool,
        pairing: Pairing,
    ) -> (p: Self)
        ensures
            p.follows(style, path@, fmt, record_pre, record_post, pairing),
    {
        let (pre, post) = (record_pre, record_post);
        match pairing {
            Pairing::Mixed => OutputPlan {
                ch1_pre: if pre {
                    Some(marked_output_path(style, path, "_ch1_pre", fmt))
                } else {
                    None
                },
                ch2_pre: if pre {
                    Some(marked_output_path(style, path, "_ch2_pre", fmt))
                } else {
                    None
                },
                main_post: if post {
                    Some(marked_output_path(style, path, "_main_post", fmt))
                } else {
                    None
                },
                ch2_post: None,
            },
            _ => {
                let both: bool = pairing == Pairing::Separate;
                let mic = SourceTag::Mic;
                let speaker = SourceTag::Speaker;
                OutputPlan {
                    ch1_pre: if pre {
                        Some(source_output(style, path, fmt, both, mic, pre, post, StageTag::Pre))
                    } else {
                        None
                    },
                    ch2_pre: if pre && both {
                        Some(
                            source_output(style, path, fmt, both, speaker, pre, post, StageTag::Pre),
                        )
                    } else {
                        None
                    },
                    main_post: if post {
                        Some(source_output(style, path, fmt, both, mic, pre, post, StageTag::Post))
                    } else {
                        None
                    },
                    ch2_post: if post && both {
                        Some(
                            source_output(
                                style,
                                path,
                                fmt,
                                both,
                                speaker,
                                pre,
                                post,
                                StageTag::Post,
                            ),
                        )
                    } else {
                        None
                    },
                }
            },
        }
    }

    /// The file that counts as the last one recorded: what comes after the plugins, then the
    /// first channel, then the second.
    pub fn last_file(&self) -> (f: Option<String>)
        ensures
            match (self.main_post, self.ch1_pre, self.ch2_pre) {
                (Some(p), _, _) => f is Some && f->0@ == p@,
                (None, Some(p), _) => f is Some && f->0@ == p@,
                (None, None, Some(p)) => f is Some && f->0@ == p@,
                (None, None, None) => f is None,
            },
    {
        match &self.main_post {
            Some(p) => Some(owned(p.as_str())),
            None => match &self.ch1_pre {
                Some(p) => Some(owned(p.as_str())),
                None => match &self.ch2_pre {
                    Some(p) => Some(owned(p.as_str())),
                    None => None,
                },
            },
        }
    }

    /// The text on a stopped recording.
    pub open spec fn stopped_spec(self, pairing: Pairing) -> Seq<char> {
        match pairing {
            Pairing::Alone => "Stopped. Pre: "@ + path_or_dash(self.ch1_pre) + "  Post: "@
                + path_or_dash(self.main_post),
            Pairing::Separate => "Stopped. Mic pre: "@ + path_or_dash(self.ch1_pre)
                + "  Mic post: "@ + path_or_dash(self.main_post) + "  Speaker pre: "@
                + path_or_dash(self.ch2_pre) + "  Speaker post: "@ + path_or_dash(self.ch2_post),
            Pairing::Mixed => "Stopped. Ch1 pre: "@ + path_or_dash(self.ch1_pre) + "  Ch2 pre: "@
                + path_or_dash(self.ch2_pre) + "  Main post: "@ + path_or_dash(self.main_post),
        }
    }

    /// The text on a stopped recording.
    pub fn stopped_text(&self, pairing: Pairing) -> (s: String)
        ensures
            s@ == self.stopped_spec(pairing),
    {
        let mut s = String::new();
        match pairing {
            Pairing::Alone => {
                push_text(&mut s, "Stopped. Pre: ");
                push_path(&mut s, &self.ch1_pre);
                push_text(&mut s, "  Post: ");
                push_path(&mut s, &self.main_post);
            },
            Pairing::Separate => {
                push_text(&mut s, "Stopped. Mic pre: ");
                push_path(&mut s, &self.ch1_pre);
                push_text(&mut s, "  Mic post: ");
                push_path(&mut s, &self.main_post);
                push_text(&mut s, "  Speaker pre: ");
                push_path(&mut s, &self.ch2_pre);
                push_text(&mut s, "  Speaker post: ");
                push_path(&mut s, &self.ch2_post);
            },
            Pairing::Mixed => {
                push_text(&mut s, "Stopped. Ch1 pre: ");
                push_path(&mut s, &self.ch1_pre);
                push_text(&mut s, "  Ch2 pre: ");
                push_path(&mut s, &self.ch2_pre);
                push_text(&mut s, "  Main post: ");
                push_path(&mut s, &self.main_post);
            },
        }
        assert(s@ =~= self.stopped_spec(pairing));
        s
    }
}

/// A path, or a dash where there is none.
pub open spec fn path_or_dash(p: Option<String>) -> Seq<char> {
    match p {
        Some(p) => p@,
        None => "—"@,
    }
}

fn push_path(out: &mut String, p: &Option<String>)
    ensures
        final(out)@ == old(out)@ + path_or_dash(*p),
{
    match p {
        Some(p) => push_text(out, p.as_str()),
        None => push_text(out, "—"),
    }
}

/// Two optional files are not the same one.
pub open spec fn differ(a: Option<String>, b: Option<String>) -> bool {
    a is Some && b is Some ==> a->0@ != b->0@
}

/// No two files of a recording are the same one.
pub proof fn planned_files_are_distinct(
    p: OutputPlan,
    style: PathStyle,
    path: Seq<char>,
    fmt: OutFormat,
    record_pre: bool,
    record_post: bool,
    pairing: Pairing,
)
    requires
        p.follows(style, path, fmt, record_pre, record_post, pairing),
    ensures
        differ(p.ch1_pre, p.ch2_pre),
        differ(p.ch1_pre, p.main_post),
        differ(p.ch1_pre, p.ch2_post),
        differ(p.ch2_pre, p.main_post),
        differ(p.ch2_pre, p.ch2_post),
        differ(p.main_post, p.ch2_post),
{
    reveal_strlit("_ch1_pre");
    reveal_strlit("_ch2_pre");
    reveal_strlit("_main_post");
    reveal_strlit("_");
    reveal_strlit("pre");
    reveal_strlit("post");
    reveal_strlit("mic");
    reveal_strlit("speaker");
    if pairing == Pairing::Mixed {
        assert("_ch1_pre"@[3] != "_ch2_pre"@[3]);
        lemma_marks(style, path, "_ch1_pre"@, "_ch2_pre"@, fmt);
        lemma_marks(style, path, "_ch1_pre"@, "_main_post"@, fmt);
        lemma_marks(style, path, "_ch2_pre"@, "_main_post"@, fmt);
    } else {
        let both = pairing == Pairing::Separate;
        let (pre, post) = (record_pre, record_post);
        let mic_pre = infix_of(true, both, SourceTag::Mic, pre, post, StageTag::Pre);
        let mic_post = infix_of(true, both, SourceTag::Mic, pre, post, StageTag::Post);
        let speaker_pre = infix_of(true, both, SourceTag::Speaker, pre, post, StageTag::Pre);
        let speaker_post = infix_of(true, both, SourceTag::Speaker, pre, post, StageTag::Post);
        if pre && post {
            assert(mic_pre.len() + 1 == mic_post.len());
            lemma_marks(style, path, mic_pre, mic_post, fmt);
        }
        if both {
            assert(mic_pre[1] == 'm' && mic_post[1] == 'm');
            assert(speaker_pre[1] == 's' && speaker_post[1] == 's');
            lemma_marks(style, path, mic_pre, speaker_pre, fmt);
            lemma_marks(style, path, mic_pre, speaker_post, fmt);
            lemma_marks(style, path, mic_post, speaker_pre, fmt);
            lemma_marks(style, path, mic_post, speaker_post, fmt);
            if pre && post {
                assert(speaker_pre.len() + 1 == speaker_post.len());
                lemma_marks(style, path, speaker_pre, speaker_post, fmt);
            }
        }
    }
}

proof fn lemma_marks(
    style: PathStyle,
    path: Seq<char>,
    a: Seq<char>,
    b: Seq<char>,
    fmt: OutFormat,
)
    requires
        a != b,
        a.len() > 0 && a[0] == '_',
        b.len() > 0 && b[0] == '_',
    ensures
        marked(style, path, a, fmt) != marked(style, path, b, fmt),
{
    let p = normalized(style, path, fmt);
    let stem = match crate::paths::stem_of(style, p) {
        Some(s) => s,
        None => "recording"@,
    };
    let x = marked_name(style, p, a, fmt);
    let y = marked_name(style, p, b, fmt);
    if stem.len() >= 2 {
        assert(x[0] == stem[0] && x[1] == stem[1]);
        assert(y[0] == stem[0] && y[1] == stem[1]);
    } else if stem.len() == 1 {
        assert(x[1] == '_' && y[1] == '_');
    } else {
        assert(x[0] == '_' && y[0] == '_');
    }
    other_marks_give_other_files(style, path, a, b, fmt);
}

/// A marked file lies in the folder of the path that the user gave, and has its extension, or
/// that of the format where it has none.
pub proof fn marked_file_keeps_folder_and_extension(
    style: PathStyle,
    path: Seq<char>,
    infix: Seq<char>,
    fmt: OutFormat,
)
    requires
        forall|i: int| 0 <= i < infix.len() ==> !style.separates(infix[i]),
        style.drive_len(marked_name(style, normalized(style, path, fmt), infix, fmt)) == 0,
    ensures
        ({
            let given = crate::text::trim_seq(path);
            let file = marked(style, path, infix, fmt);
            &&& crate::paths::parent_of(style, file) == crate::paths::parent_of(style, given)
            &&& crate::paths::extension_of(style, file) == Some(
                match crate::paths::extension_of(style, given) {
                    Some(e) => e,
                    None => fmt.ext_text(),
                },
            )
        }),
{
    let p = normalized(style, path, fmt);
    lemma_normalized(style, path, fmt);
    lemma_marked(style, p, infix, fmt);
}

/// Two marks without separators give two files that differ in the name alone: they lie in one
/// folder and have one extension.
pub proof fn marks_change_the_name_alone(
    style: PathStyle,
    path: Seq<char>,
    a: Seq<char>,
    b: Seq<char>,
    fmt: OutFormat,
)
    requires
        a != b,
        forall|i: int| 0 <= i < a.len() ==> !style.separates(a[i]),
        forall|i: int| 0 <= i < b.len() ==> !style.separates(b[i]),
        style.drive_len(marked_name(style, normalized(style, path, fmt), a, fmt)) == 0,
        style.drive_len(marked_name(style, normalized(style, path, fmt), b, fmt)) == 0,
    ensures
        marked(style, path, a, fmt) != marked(style, path, b, fmt),
        crate::paths::parent_of(style, marked(style, path, a, fmt)) == crate::paths::parent_of(
            style,
            marked(style, path, b, fmt),
        ),
        crate::paths::extension_of(style, marked(style, path, a, fmt))
            == crate::paths::extension_of(style, marked(style, path, b, fmt)),
{
    other_marks_give_other_files(style, path, a, b, fmt);
    marked_file_keeps_folder_and_extension(style, path, a, fmt);
    marked_file_keeps_folder_and_extension(style, path, b, fmt);
}

proof fn lemma_ext_text(style: PathStyle, fmt: OutFormat)
    ensures
        fmt.ext_text().len() > 0,
        forall|i: int|
            0 <= i < fmt.ext_text().len() ==> !style.separates(fmt.ext_text()[i])
                && fmt.ext_text()[i] != '.',
{
    reveal_strlit("wav");
    reveal_strlit("flac");
    reveal_strlit("mp3");
}

proof fn lemma_normalized(style: PathStyle, path: Seq<char>, fmt: OutFormat)
    ensures
        ({
            let given = crate::text::trim_seq(path);
            let p = normalized(style, path, fmt);
            let known = match crate::paths::extension_of(style, given) {
                Some(e) => e,
                None => fmt.ext_text(),
            };
            &&& crate::paths::parent_of(style, p) == crate::paths::parent_of(style, given)
            &&& match crate::paths::extension_of(style, p) {
                Some(e) => e == known,
                None => fmt.ext_text() == known,
            }
        }),
{
    let given = crate::text::trim_seq(path);
    if crate::paths::extension_of(style, given) is None {
        lemma_ext_text(style, fmt);
        if crate::paths::file_name(style, given) is Some {
            crate::paths::extension_reads_back(style, given, fmt.ext_text());
        }
    }
}

proof fn lemma_marked(style: PathStyle, p: Seq<char>, infix: Seq<char>, fmt: OutFormat)
    requires
        forall|i: int| 0 <= i < infix.len() ==> !style.separates(infix[i]),
        style.drive_len(marked_name(style, p, infix, fmt)) == 0,
    ensures
        ({
            let file = crate::paths::set_file_name(style, p, marked_name(style, p, infix, fmt));
            &&& crate::paths::parent_of(style, file) == crate::paths::parent_of(style, p)
            &&& crate::paths::extension_of(style, file) == Some(
                match crate::paths::extension_of(style, p) {
                    Some(e) => e,
                    None => fmt.ext_text(),
                },
            )
        }),
{
    reveal_strlit("recording");
    lemma_ext_text(style, fmt);
    crate::paths::name_is_stem_and_extension(style, p);
    let stem = match crate::paths::stem_of(style, p) {
        Some(s) => s,
        None => "recording"@,
    };
    let ext = match crate::paths::extension_of(style, p) {
        Some(e) => e,
        None => fmt.ext_text(),
    };
    if stem.len() == 1 && stem[0] == '.' && infix.len() == 0 && ext.len() == 0 {
        let own = crate::paths::file_name(style, p)->0;
        assert(own =~= stem + seq!['.'] + ext);
        assert(own[0] == '.' && own[1] == '.' && own.len() == 2);
        assert(false);
    }
    lemma_built_name(style, stem, infix, ext);
    crate::paths::renamed_path_keeps_its_folder(style, p, marked_name(style, p, infix, fmt));
}

proof fn lemma_built_name(style: PathStyle, stem: Seq<char>, infix: Seq<char>, ext: Seq<char>)
    requires
        stem.len() > 0,
        forall|i: int| 0 <= i < stem.len() ==> !style.separates(stem[i]),
        forall|i: int| 0 <= i < infix.len() ==> !style.separates(infix[i]),
        forall|i: int| 0 <= i < ext.len() ==> !style.separates(ext[i]) && ext[i] != '.',
        !(stem.len() == 1 && stem[0] == '.' && infix.len() == 0 && ext.len() == 0),
    ensures
        ({
            let name = stem + infix + "."@ + ext;
            &&& style.drive_len(name) == 0 ==> crate::paths::is_name(style, name)
            &&& crate::paths::dot_position(name) matches Some(at) && name.skip(at + 1) == ext
        }),
{
    reveal_strlit(".");
    let name = stem + infix + "."@ + ext;
    let dot = (stem.len() + infix.len()) as int;
    assert(name[dot] == '.');
    assert(forall|i: int| dot < i < name.len() ==> #[trigger] name[i] == ext[i - dot - 1]);
    assert forall|i: int| 0 <= i < name.len() implies !style.separates(#[trigger] name[i]) by {
        if i < stem.len() {
            assert(name[i] == stem[i]);
        } else if i < dot {
            assert(name[i] == infix[i - stem.len()]);
        }
    }
    assert(name[0] == stem[0]);
    crate::text::lemma_last_position_is(name, '.', dot);
    assert(name.skip(dot + 1) =~= ext);
}

/// Where the analyzers' messages are kept.
pub fn analyzer_status_log_path() -> (s: String)
    ensures
        s@ == "analyzer-status.log"@,
{
    owned("analyzer-status.log")
}

/// Which files a recording gets: one before the effects for each channel where that is wanted, and
/// behind the effects one for each channel that is recorded on its own, or a single one for the
/// mix of both.
pub proof fn each_wanted_file_is_planned(
    p: OutputPlan,
    style: PathStyle,
    path: Seq<char>,
    fmt: OutFormat,
    record_pre: bool,
    record_post: bool,
    mode: SpeakerMode,
    speaker: bool,
)
    requires
        p.follows(style, path, fmt, record_pre, record_post, mode.pairing_spec(speaker)),
    ensures
        p.ch1_pre is Some <==> record_pre,
        p.main_post is Some <==> record_post,
        p.ch2_pre is Some <==> record_pre && speaker && mode != SpeakerMode::Off,
        p.ch2_post is Some <==> record_post && speaker && mode == SpeakerMode::Separate,
{
}

/// Files of two sources that are recorded separately are named after their source, and after the
/// stage where both stages are recorded: the microphone's and the speaker's differ in that word
/// alone.
pub proof fn separate_files_are_named_after_their_source(
    p: OutputPlan,
    style: PathStyle,
    path: Seq<char>,
    fmt: OutFormat,
)
    requires
        p.follows(style, path, fmt, true, true, Pairing::Separate),
    ensures
        p.ch1_pre matches Some(f) && f@ == marked(style, path, "_mic_pre"@, fmt),
        p.main_post matches Some(f) && f@ == marked(style, path, "_mic_post"@, fmt),
        p.ch2_pre matches Some(f) && f@ == marked(style, path, "_speaker_pre"@, fmt),
        p.ch2_post matches Some(f) && f@ == marked(style, path, "_speaker_post"@, fmt),
{
    lemma_infixes();
}

/// With one stage only, separate files are named after their source alone; a file of the only
/// source, at the only stage, has the name that was given.
pub proof fn a_single_stage_is_not_named(
    p: OutputPlan,
    style: PathStyle,
    path: Seq<char>,
    fmt: OutFormat,
    pre: bool,
    pairing: Pairing,
)
    requires
        p.follows(style, path, fmt, pre, !pre, pairing),
    ensures
        pairing == Pairing::Separate ==> {
            let mic = if pre {
                p.ch1_pre
            } else {
                p.main_post
            };
            let speaker = if pre {
                p.ch2_pre
            } else {
                p.ch2_post
            };
            &&& mic matches Some(f) && f@ == marked(style, path, "_mic"@, fmt)
            &&& speaker matches Some(g) && g@ == marked(style, path, "_speaker"@, fmt)
        },
        pairing == Pairing::Alone ==> {
            let only = if pre {
                p.ch1_pre
            } else {
                p.main_post
            };
            only matches Some(f) && f@ == normalized(style, path, fmt)
        },
{
    lemma_infixes();
}

proof fn lemma_infixes()
    ensures
        infix_of(true, true, SourceTag::Mic, true, true, StageTag::Pre) == "_mic_pre"@,
        infix_of(true, true, SourceTag::Mic, true, true, StageTag::Post) == "_mic_post"@,
        infix_of(true, true, SourceTag::Speaker, true, true, StageTag::Pre) == "_speaker_pre"@,
        infix_of(true, true, SourceTag::Speaker, true, true, StageTag::Post) == "_speaker_post"@,
        forall|pre: bool, post: bool, stage: StageTag|
            !(pre && post) ==> #[trigger] infix_of(true, true, SourceTag::Mic, pre, post, stage)
                == "_mic"@,
        forall|pre: bool, post: bool, stage: StageTag|
            !(pre && post) ==> #[trigger] infix_of(true, true, SourceTag::Speaker, pre, post, stage)
                == "_speaker"@,
        forall|pre: bool, post: bool, stage: StageTag|
            !(pre && post) ==> #[trigger] infix_of(
                true,
                false,
                SourceTag::Mic,
                pre,
                post,
                stage,
            ).len() == 0,
        "_mic"@.len() > 0,
        "_speaker"@.len() > 0,
        "_mic_pre"@.len() > 0,
        "_mic_post"@.len() > 0,
        "_speaker_pre"@.len() > 0,
        "_speaker_post"@.len() > 0,
{
    reveal_strlit("_");
    reveal_strlit("mic");
    reveal_strlit("speaker");
    reveal_strlit("pre");
    reveal_strlit("post");
    reveal_strlit("_mic");
    reveal_strlit("_speaker");
    reveal_strlit("_mic_pre");
    reveal_strlit("_mic_post");
    reveal_strlit("_speaker_pre");
    reveal_strlit("_speaker_post");
    assert(infix_of(true, true, SourceTag::Mic, true, true, StageTag::Pre) =~= "_mic_pre"@);
    assert(infix_of(true, true, SourceTag::Mic, true, true, StageTag::Post) =~= "_mic_post"@);
    assert(infix_of(true, true, SourceTag::Speaker, true, true, StageTag::Pre)
        =~= "_speaker_pre"@);
    assert(infix_of(true, true, SourceTag::Speaker, true, true, StageTag::Post)
        =~= "_speaker_post"@);
    assert forall|pre: bool, post: bool, stage: StageTag| !(pre && post) implies #[trigger] infix_of(
        true,
        true,
        SourceTag::Mic,
        pre,
        post,
        stage,
    ) == "_mic"@ by {
        assert(infix_of(true, true, SourceTag::Mic, pre, post, stage) =~= "_mic"@);
    }
    assert forall|pre: bool, post: bool, stage: StageTag| !(pre && post) implies #[trigger] infix_of(
        true,
        true,
        SourceTag::Speaker,
        pre,
        post,
        stage,
    ) == "_speaker"@ by {
        assert(infix_of(true, true, SourceTag::Speaker, pre, post, stage) =~= "_speaker"@);
    }
}

/// A path keeps its extension, and one without any gets that of the format.
pub proof fn a_path_gets_an_extension(style: PathStyle, path: Seq<char>, fmt: OutFormat)
    ensures
        ({
            let given = crate::text::trim_seq(path);
            &&& crate::paths::extension_of(style, given) is Some ==> normalized(style, path, fmt)
                == given
            &&& crate::paths::extension_of(style, given) is None ==> normalized(style, path, fmt)
                == crate::paths::set_extension(
                style,
                given,
                match fmt {
                    OutFormat::Wav => "wav"@,
                    OutFormat::Flac => "flac"@,
                    OutFormat::Mp3 => "mp3"@,
                },
            )
        }),
{
}

} // verus!
