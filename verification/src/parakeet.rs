//! A local transcriber in a process of its own: the lines it exchanges with the recorder, how
//! audio is cut into segments for it, and how its texts become transcript events.

use vstd::prelude::*;

use crate::buffer::AudioBuffer;
use crate::events::{AudioTap, MediaEvent};
use crate::format::{AudioFormat, SampleFormat};
use crate::mixdown::{sum_of, MixMath};
use crate::text::{
    chars_equal, chars_of, copy_range, is_white_space, owned, parse_unsigned_chars, push_chars,
    push_decimal, push_text, string_of, text_contains, text_equal, trim_chars, trim_start_chars,
};

verus! {

/// Stable id of the analyzer.
pub const PARAKEET_PLUGIN_ID: &'static str = "nvidia.parakeet-unified-en-0.6b";

/// The model that is loaded unless another one is configured.
pub const MODEL_NAME: &'static str = "nvidia/parakeet-unified-en-0.6b";

/// The rate that the model takes audio at.
pub const DEFAULT_SAMPLE_RATE_HZ: u32 = 16_000;

/// An analyzer that can be chosen.
#[derive(Debug, Clone)]
pub struct LocalAnalyzerPluginDescriptor {
    pub id: &'static str,
    pub name: &'static str,
    pub description: &'static str,
}

/// The analyzers that can be chosen.
pub fn descriptors() -> (d: Vec<LocalAnalyzerPluginDescriptor>)
    ensures
        d@.len() == 1,
        d@[0].id@ == PARAKEET_PLUGIN_ID@,
        d@[0].name@ == "NVIDIA Parakeet Unified EN 0.6B"@,
        d@[0].description@
            == "Streams enhanced audio chunks to a local NeMo sidecar and emits transcript events."@,
{
    let mut d: Vec<LocalAnalyzerPluginDescriptor> = Vec::new();
    d.push(
        LocalAnalyzerPluginDescriptor {
            id: PARAKEET_PLUGIN_ID,
            name: "NVIDIA Parakeet Unified EN 0.6B",
            description: "Streams enhanced audio chunks to a local NeMo sidecar and emits transcript events.",
        },
    );
    d
}

/// Fails unless `id` names an analyzer that can be chosen.
pub fn check_analyzer(id: &str) -> (r: std::result::Result<(), String>)
    ensures
        r is Ok <==> id@ == PARAKEET_PLUGIN_ID@,
        r matches Err(e) ==> e@ == "unknown local analyzer plugin: "@ + id@,
{
    if text_equal(id, PARAKEET_PLUGIN_ID) {
        return Ok(());
    }
    let mut text = String::new();
    push_text(&mut text, "unknown local analyzer plugin: ");
    push_text(&mut text, id);
    assert(text@ =~= "unknown local analyzer plugin: "@ + id@);
    Err(text)
}

/// The character ends a sentence if it is followed by nothing or by one of `closes_after`.
pub open spec fn ends_sentence(c: char) -> bool {
    c == '.' || c == '?' || c == '!'
}

/// What may follow the end of a sentence.
pub open spec fn closes_after(c: char) -> bool {
    c == ' ' || c == '\n' || c == '\t' || c == '"' || c == ')'
}

/// A sentence ends at `i`.
pub open spec fn sentence_ends_at(s: Seq<char>, i: int) -> bool {
    ends_sentence(s[i]) && (i + 1 >= s.len() || closes_after(s[i + 1]))
}

/// `end` is where the last complete sentence of `s` ends.
pub open spec fn is_last_end(s: Seq<char>, end: int) -> bool {
    &&& 0 < end <= s.len()
    &&& sentence_ends_at(s, end - 1)
    &&& forall|i: int| end <= i < s.len() ==> !sentence_ends_at(s, i)
}

/// No sentence of `s` is complete.
pub open spec fn has_no_end(s: Seq<char>) -> bool {
    forall|i: int| 0 <= i < s.len() ==> !sentence_ends_at(s, i)
}

/// `parts` are the complete sentences of `s` and the rest.
pub open spec fn is_split(s: Seq<char>, parts: (Seq<char>, Seq<char>)) -> bool {
    if has_no_end(s) {
        parts.0 == Seq::<char>::empty() && parts.1 == s
    } else {
        exists|end: int| #[trigger]
            is_last_end(s, end) && parts.0 == crate::text::trim_seq(s.take(end)) && parts.1
                == crate::text::trim_start_seq(s.skip(end))
    }
}

fn is_closing(c: char) -> (r: bool)
    ensures
        r == closes_after(c),
{
    c == ' ' || c == '\n' || c == '\t' || c == '"' || c == ')'
}

/// The complete sentences of a text, and the rest.
pub fn split_completed_sentences(text: &str) -> (r: (String, String))
    ensures
        is_split(text@, (r.0@, r.1@)),
{
    let s = chars_of(text);
    let mut i: usize = s.len();
    while i > 0
        invariant
            i <= s@.len(),
            s@ == text@,
            forall|k: int| i <= k < s@.len() ==> !sentence_ends_at(s@, k),
        decreases i,
    {
        let c: char = s[i - 1];
        if c == '.' || c == '?' || c == '!' {
            let ends: bool = if i < s.len() {
                is_closing(s[i])
            } else {
                true
            };
            if ends {
                assert(is_last_end(s@, i as int));
                assert(!has_no_end(s@)) by {
                    assert(sentence_ends_at(s@, i - 1));
                }
                let head = copy_range(&s, 0, i);
                let tail = copy_range(&s, i, s.len());
                assert(head@ =~= s@.take(i as int));
                assert(tail@ =~= s@.skip(i as int));
                let completed = string_of(&trim_chars(&head));
                let rest = string_of(&trim_start_chars(&tail));
                return (completed, rest);
            }
        }
        i = i - 1;
    }
    let nothing = String::new();
    assert(nothing@ =~= Seq::<char>::empty());
    (nothing, owned(text))
}

/// A text has at most one last end of a sentence.
pub proof fn the_split_is_unique(
    s: Seq<char>,
    a: (Seq<char>, Seq<char>),
    b: (Seq<char>, Seq<char>),
)
    requires
        is_split(s, a),
        is_split(s, b),
    ensures
        a == b,
{
    if !has_no_end(s) {
        let e = choose|end: int| #[trigger]
            is_last_end(s, end) && a.0 == crate::text::trim_seq(s.take(end)) && a.1
                == crate::text::trim_start_seq(s.skip(end));
        let f = choose|end: int| #[trigger]
            is_last_end(s, end) && b.0 == crate::text::trim_seq(s.take(end)) && b.1
                == crate::text::trim_start_seq(s.skip(end));
        assert(is_last_end(s, e));
        assert(is_last_end(s, f));
        if e < f {
            assert(!sentence_ends_at(s, f - 1));
        } else if f < e {
            assert(!sentence_ends_at(s, e - 1));
        }
    }
}

/// A split never cuts inside a word. Where something is complete, the text is cut right after a
/// full stop, a question mark or an exclamation mark, and what follows there, if anything, is a
/// space, a line end, a tab, a double quote or a closing bracket; the parts are the two sides of
/// the cut without the white space around the first and before the second. Where nothing is
/// complete, the text stays as it is.
pub proof fn a_split_cuts_between_words(s: Seq<char>, parts: (Seq<char>, Seq<char>))
    requires
        is_split(s, parts),
    ensures
        (parts.0 == Seq::<char>::empty() && parts.1 == s) || exists|cut: int|
            #![trigger s.take(cut)]
            {
                &&& 0 < cut <= s.len()
                &&& s[cut - 1] == '.' || s[cut - 1] == '?' || s[cut - 1] == '!'
                &&& cut < s.len() ==> (s[cut] == ' ' || s[cut] == '\n' || s[cut] == '\t' || s[cut]
                    == '"' || s[cut] == ')')
                &&& parts.0 == crate::text::trim_seq(s.take(cut))
                &&& parts.1 == crate::text::trim_start_seq(s.skip(cut))
            },
{
    if !has_no_end(s) {
        let end = choose|end: int| #[trigger]
            is_last_end(s, end) && parts.0 == crate::text::trim_seq(s.take(end)) && parts.1
                == crate::text::trim_start_seq(s.skip(end));
        assert(s.take(end).len() == end);
    }
}

/// A text all of whose full stops, question marks and exclamation marks stand inside words, each
/// directly before another character than a space, a line end, a tab, a double quote or a closing
/// bracket, is all rest: nothing in it is complete.
pub proof fn marks_inside_words_complete_nothing(s: Seq<char>, parts: (Seq<char>, Seq<char>))
    requires
        is_split(s, parts),
        forall|i: int|
            0 <= i < s.len() && (#[trigger] s[i] == '.' || s[i] == '?' || s[i] == '!') ==> i + 1
                < s.len() && s[i + 1] != ' ' && s[i + 1] != '\n' && s[i + 1] != '\t' && s[i + 1]
                != '"' && s[i + 1] != ')',
    ensures
        parts.0 == Seq::<char>::empty(),
        parts.1 == s,
{
}

/// Where a mark stands at the end of the text or before a space, a line end, a tab, a double quote
/// or a closing bracket, something is complete, up to that mark at least: what is complete ends in
/// a mark itself, and no longer tail of the text is left than what follows the mark.
pub proof fn a_mark_completes_what_stands_before(
    s: Seq<char>,
    parts: (Seq<char>, Seq<char>),
    at: int,
)
    requires
        is_split(s, parts),
        0 <= at < s.len(),
        s[at] == '.' || s[at] == '?' || s[at] == '!',
        at + 1 == s.len() || s[at + 1] == ' ' || s[at + 1] == '\n' || s[at + 1] == '\t' || s[at + 1]
            == '"' || s[at + 1] == ')',
    ensures
        parts.0.len() > 0,
        parts.0.last() == '.' || parts.0.last() == '?' || parts.0.last() == '!',
        parts.1.len() < s.len() - at,
        parts.1.len() > 0 ==> !crate::text::white_space(parts.1[0]),
        at + 1 == s.len() ==> parts.1 == Seq::<char>::empty(),
{
    assert(sentence_ends_at(s, at));
    let end = choose|end: int| #[trigger]
        is_last_end(s, end) && parts.0 == crate::text::trim_seq(s.take(end)) && parts.1
            == crate::text::trim_start_seq(s.skip(end));
    assert(end > at);
    crate::text::trimming_strips_the_ends(s.take(end));
    crate::text::trimming_strips_the_ends(s.skip(end));
    let head = s.take(end);
    assert(head.last() == s[end - 1]);
    crate::text::trimming_keeps_solid_ends(head);
}

/// Nothing complete is left over: in the rest, every full stop, question mark and exclamation mark
/// stands directly before another character than a space, a line end, a tab, a double quote or a
/// closing bracket.
pub proof fn the_rest_is_incomplete(s: Seq<char>, parts: (Seq<char>, Seq<char>), i: int)
    requires
        is_split(s, parts),
        0 <= i < parts.1.len(),
        parts.1[i] == '.' || parts.1[i] == '?' || parts.1[i] == '!',
    ensures
        i + 1 < parts.1.len(),
        parts.1[i + 1] != ' ' && parts.1[i + 1] != '\n' && parts.1[i + 1] != '\t' && parts.1[i + 1]
            != '"' && parts.1[i + 1] != ')',
{
    if has_no_end(s) {
        assert(!sentence_ends_at(s, i));
    } else {
        let end = choose|end: int| #[trigger]
            is_last_end(s, end) && parts.0 == crate::text::trim_seq(s.take(end)) && parts.1
                == crate::text::trim_start_seq(s.skip(end));
        crate::text::trimming_strips_the_ends(s.skip(end));
        let tail = s.skip(end);
        let from = tail.len() - parts.1.len();
        assert(parts.1 == tail.skip(from));
        assert(parts.1[i] == s[end + from + i]);
        assert(!sentence_ends_at(s, end + from + i));
        if i + 1 < parts.1.len() {
            assert(parts.1[i + 1] == s[end + from + i + 1]);
        }
    }
}

/// Two pieces of text are joined by a space: neither has white space where they meet.
pub open spec fn joins_with_space(existing: Seq<char>, addition: Seq<char>) -> bool {
    existing.len() > 0 && addition.len() > 0 && !crate::text::white_space(existing.last())
        && !crate::text::white_space(addition[0])
}

/// Whether two pieces of text are joined by a space.
pub fn needs_space_join(existing: &str, addition: &str) -> (r: bool)
    ensures
        r == joins_with_space(existing@, addition@),
{
    let a = chars_of(existing);
    let b = chars_of(addition);
    if a.len() == 0 || b.len() == 0 {
        return false;
    }
    !is_white_space(a[a.len() - 1]) && !is_white_space(b[0])
}

/// Whether a line of the worker's error output is of no interest.
pub fn is_noisy_stderr_line(line: &str) -> (r: bool)
    ensures
        r == is_noise(line@),
{
    text_contains(line, "dataloader:826") || text_contains(line, "dataloader:523")
        || text_contains(line, "Transcribing: 0it") || text_contains(line, "Transcribing: 1it")
}

/// What the worker says.
#[derive(Debug, Clone)]
pub enum WorkerMessage {
    Status(String),
    Ready,
    Final { segment_id: u64, start_frame: u64, end_frame: u64, text: String },
    Error(String),
    Stderr(String),
}

/// Where the first tab stands; the length of the text where there is none.
pub open spec fn tab_position(s: Seq<char>) -> int
    decreases s.len(),
{
    if s.len() == 0 || s[0] == '\t' {
        0
    } else {
        1 + tab_position(s.skip(1))
    }
}

/// The text up to the first tab.
pub open spec fn first_field(s: Seq<char>) -> Seq<char> {
    s.take(tab_position(s))
}

/// The text after the first tab, if there is one.
pub open spec fn after_tab(s: Seq<char>) -> Option<Seq<char>> {
    if tab_position(s) < s.len() {
        Some(s.skip(tab_position(s) + 1))
    } else {
        None
    }
}

proof fn lemma_tab_position(s: Seq<char>)
    ensures
        0 <= tab_position(s) <= s.len(),
    decreases s.len(),
{
    if s.len() > 0 && s[0] != '\t' {
        lemma_tab_position(s.skip(1));
    }
}

/// `message` is what the line says, if it says anything.
pub open spec fn says(line: Seq<char>, message: Option<WorkerMessage>) -> bool {
    let head = first_field(line);
    let rest = match after_tab(line) {
        Some(r) => r,
        None => Seq::empty(),
    };
    if head == "READY"@ {
        message matches Some(WorkerMessage::Ready)
    } else if head == "STATUS"@ {
        message matches Some(WorkerMessage::Status(t)) && t@ == rest
    } else if head == "ERROR"@ {
        message matches Some(WorkerMessage::Error(t)) && t@ == rest
    } else if head == "FINAL"@ {
        match final_fields(line) {
            Some((id, start, end, text)) => message matches Some(
                WorkerMessage::Final { segment_id, start_frame, end_frame, text: t },
            ) && segment_id == id && start_frame == start && end_frame == end && t@ == text,
            None => message is None,
        }
    } else {
        message is None
    }
}

/// The number in a field, if it is one.
pub open spec fn number_field(s: Seq<char>) -> Option<nat> {
    crate::text::parse_unsigned(s, u64::MAX as nat)
}

/// The fields behind the word `FINAL`: three numbers, and the text, which may be missing.
pub open spec fn final_fields(line: Seq<char>) -> Option<(nat, nat, nat, Seq<char>)> {
    match after_tab(line) {
        Some(a) => match after_tab(a) {
            Some(b) => match after_tab(b) {
                Some(c) => match (
                    number_field(first_field(a)),
                    number_field(first_field(b)),
                    number_field(first_field(c)),
                ) {
                    (Some(id), Some(start), Some(end)) => Some(
                        (
                            id,
                            start,
                            end,
                            match after_tab(c) {
                                Some(t) => t,
                                None => Seq::empty(),
                            },
                        ),
                    ),
                    _ => None,
                },
                None => None,
            },
            None => None,
        },
        None => None,
    }
}

fn find_tab(s: &Vec<char>) -> (at: usize)
    ensures
        at == tab_position(s@),
        at <= s@.len(),
{
    let mut at: usize = 0;
    assert(s@.skip(0) =~= s@);
    while at < s.len() && s[at] != '\t'
        invariant
            at <= s@.len(),
            tab_position(s@) == at + tab_position(s@.skip(at as int)),
        decreases s@.len() - at,
    {
        assert(s@.skip(at as int).skip(1) =~= s@.skip(at + 1));
        at = at + 1;
    }
    at
}

fn split_field(s: &Vec<char>) -> (r: (Vec<char>, Option<Vec<char>>))
    ensures
        r.0@ == first_field(s@),
        match r.1 {
            Some(rest) => after_tab(s@) == Some(rest@),
            None => after_tab(s@) is None,
        },
{
    let at = find_tab(s);
    let head = copy_range(s, 0, at);
    assert(head@ =~= first_field(s@));
    if at < s.len() {
        let rest = copy_range(s, at + 1, s.len());
        assert(rest@ =~= s@.skip(at + 1));
        (head, Some(rest))
    } else {
        (head, None)
    }
}

fn text_or_nothing(rest: Option<Vec<char>>) -> (s: String)
    ensures
        s@ == match rest {
            Some(r) => r@,
            None => Seq::empty(),
        },
{
    match rest {
        Some(r) => string_of(&r),
        None => {
            let s = String::new();
            assert(s@ =~= Seq::<char>::empty());
            s
        },
    }
}

impl WorkerMessage {
    /// What a line of the worker says, if it says anything.
    pub fn parse(line: &str) -> (r: Option<WorkerMessage>)
        ensures
            says(line@, r),
    {
        proof {
            reveal_strlit("READY");
            reveal_strlit("STATUS");
            reveal_strlit("ERROR");
            reveal_strlit("FINAL");
            assert("READY"@[0] != "STATUS"@[0]);
            assert("READY"@[0] != "ERROR"@[0]);
            assert("READY"@[0] != "FINAL"@[0]);
            assert("STATUS"@[0] != "ERROR"@[0]);
            assert("STATUS"@[0] != "FINAL"@[0]);
            assert("ERROR"@[0] != "FINAL"@[0]);
        }
        let s = chars_of(line);
        let (head, rest) = split_field(&s);
        if chars_equal(&head, &chars_of("READY")) {
            return Some(WorkerMessage::Ready);
        }
        if chars_equal(&head, &chars_of("STATUS")) {
            return Some(WorkerMessage::Status(text_or_nothing(rest)));
        }
        if chars_equal(&head, &chars_of("ERROR")) {
            return Some(WorkerMessage::Error(text_or_nothing(rest)));
        }
        if !chars_equal(&head, &chars_of("FINAL")) {
            return None;
        }
        let a = match rest {
            Some(a) => a,
            None => {
                return None;
            },
        };
        let (id, rest) = split_field(&a);
        let b = match rest {
            Some(b) => b,
            None => {
                return None;
            },
        };
        let (start, rest) = split_field(&b);
        let c = match rest {
            Some(c) => c,
            None => {
                return None;
            },
        };
        let (end, rest) = split_field(&c);
        match (
            parse_unsigned_chars(&id, u64::MAX),
            parse_unsigned_chars(&start, u64::MAX),
            parse_unsigned_chars(&end, u64::MAX),
        ) {
            (Some(segment_id), Some(start_frame), Some(end_frame)) => Some(
                WorkerMessage::Final {
                    segment_id,
                    start_frame,
                    end_frame,
                    text: text_or_nothing(rest),
                },
            ),
            _ => None,
        }
    }
}

/// An event of the transcriber, without what is the same in all of them.
pub enum TextEvent {
    Note { start_frame: u64, end_frame: u64, key: Seq<char>, value: Seq<char> },
    Final { segment_id: u64, start_frame: u64, end_frame: u64, text: Seq<char> },
    Partial { segment_id: u64, start_frame: u64, end_frame: u64, text: Seq<char> },
}

/// Two optional texts are the same.
pub open spec fn same_option(a: Option<String>, b: Option<String>) -> bool {
    match (a, b) {
        (Some(x), Some(y)) => x@ == y@,
        (None, None) => true,
        _ => false,
    }
}

/// `e` is the event `t` on the stream `stream`: of processed audio, with no speaker and no
/// confidence.
pub open spec fn shows<F>(e: MediaEvent<F>, t: TextEvent, stream: Option<String>) -> bool {
    match t {
        TextEvent::Note { start_frame, end_frame, key, value } => match e {
            MediaEvent::AttributeDetected {
                tap,
                start_frame: s,
                end_frame: n,
                key: k,
                value: v,
                confidence,
            } => tap == AudioTap::Processed && s == start_frame && n == end_frame && k@ == key && v@
                == value && confidence is None,
            _ => false,
        },
        TextEvent::Final { segment_id, start_frame, end_frame, text } => match e {
            MediaEvent::TranscriptFinal {
                tap,
                stream_id,
                segment_id: id,
                start_frame: s,
                end_frame: n,
                speaker_id,
                text: x,
                confidence,
            } => tap == AudioTap::Processed && same_option(stream_id, stream) && id == segment_id
                && s == start_frame && n == end_frame && speaker_id is None && x@ == text
                && confidence is None,
            _ => false,
        },
        TextEvent::Partial { segment_id, start_frame, end_frame, text } => match e {
            MediaEvent::TranscriptPartial {
                tap,
                stream_id,
                segment_id: id,
                start_frame: s,
                end_frame: n,
                speaker_id,
                text: x,
                confidence,
            } => tap == AudioTap::Processed && same_option(stream_id, stream) && id == segment_id
                && s == start_frame && n == end_frame && speaker_id is None && x@ == text
                && confidence is None,
            _ => false,
        },
    }
}

/// `after` is `before` with the events `events` at its end.
pub open spec fn adds<F>(
    before: Seq<MediaEvent<F>>,
    after: Seq<MediaEvent<F>>,
    events: Seq<TextEvent>,
    stream: Option<String>,
) -> bool {
    &&& after.len() == before.len() + events.len()
    &&& after.take(before.len() as int) == before
    &&& forall|i: int|
        0 <= i < events.len() ==> shows(after[before.len() + i], #[trigger] events[i], stream)
}

proof fn lemma_adds_one<F>(
    before: Seq<MediaEvent<F>>,
    middle: Seq<MediaEvent<F>>,
    after: Seq<MediaEvent<F>>,
    events: Seq<TextEvent>,
    e: MediaEvent<F>,
    t: TextEvent,
    stream: Option<String>,
)
    requires
        adds(before, middle, events, stream),
        after.len() == middle.len() + 1,
        after.drop_last() == middle,
        after.last() == e,
        shows(e, t, stream),
    ensures
        adds(before, after, events.push(t), stream),
{
    let more = events.push(t);
    assert(after =~= middle.push(e));
    assert(after.take(before.len() as int) =~= middle.take(before.len() as int));
    assert forall|i: int| 0 <= i < more.len() implies shows(
        after[before.len() + i],
        #[trigger] more[i],
        stream,
    ) by {
        if i < events.len() {
            assert(more[i] == events[i]);
            assert(after[before.len() + i] == middle[before.len() + i]);
        }
    }
}

/// The sentence that is being put together from segment to segment.
pub struct Sentence {
    pub text: Seq<char>,
    pub start_segment: Option<u64>,
    pub start_frame: u64,
    pub end_frame: u64,
}

/// The transcriber's side of the recorder. `S` is the type of samples.
#[verifier::reject_recursive_types(S)]
pub struct ParakeetUnifiedAnalyzer<S> {
    pub stream_id: Option<String>,
    pub sample_rate_hz: u32,
    pub worker_ready: bool,
    pub reported_waiting_for_model: bool,
    pub pending: Vec<MediaEvent<S>>,
    pub resampled_buffer: Vec<S>,
    pub segment_id: u64,
    pub buffered_start_frame: Option<u64>,
    pub pending_sentence: String,
    pub pending_sentence_start_segment: Option<u64>,
    pub pending_sentence_start_frame: u64,
    pub pending_sentence_end_frame: u64,
}

/// The larger of two frames.
pub open spec fn later(a: u64, b: u64) -> u64 {
    if a >= b {
        a
    } else {
        b
    }
}

/// The number, or `other` where there is none.
pub open spec fn or_else(a: Option<u64>, other: u64) -> u64 {
    match a {
        Some(x) => x,
        None => other,
    }
}

/// The sentence so far with the text of a segment added.
pub open spec fn extended(
    s: Sentence,
    segment_id: u64,
    start_frame: u64,
    end_frame: u64,
    trimmed: Seq<char>,
) -> Sentence {
    let fresh = s.text.len() == 0;
    Sentence {
        text: if joins_with_space(s.text, trimmed) {
            s.text + " "@ + trimmed
        } else {
            s.text + trimmed
        },
        start_segment: if fresh {
            Some(segment_id)
        } else {
            s.start_segment
        },
        start_frame: if fresh {
            start_frame
        } else {
            s.start_frame
        },
        end_frame,
    }
}

/// The sentence that is left when `completed` was taken from it and `rest` stayed.
pub open spec fn remaining(
    s: Sentence,
    segment_id: u64,
    end_frame: u64,
    completed: Seq<char>,
    rest: Seq<char>,
) -> Sentence {
    if completed.len() == 0 {
        Sentence { text: rest, ..s }
    } else if rest.len() == 0 {
        Sentence { text: rest, start_segment: None, ..s }
    } else {
        Sentence { text: rest, start_segment: Some(segment_id), start_frame: end_frame, ..s }
    }
}

/// The events of a segment with text: the text itself, the sentences it completes, and what is
/// left of the last one.
pub open spec fn segment_events(
    s: Sentence,
    segment_id: u64,
    end_frame: u64,
    note: TextEvent,
    completed: Seq<char>,
    rest: Seq<char>,
) -> Seq<TextEvent> {
    let left = remaining(s, segment_id, end_frame, completed, rest);
    let partial = TextEvent::Partial {
        segment_id: or_else(left.start_segment, segment_id),
        start_frame: left.start_frame,
        end_frame: later(left.end_frame, end_frame),
        text: rest,
    };
    if completed.len() == 0 {
        seq![note, partial]
    } else {
        seq![
            note,
            TextEvent::Final {
                segment_id: or_else(s.start_segment, segment_id),
                start_frame: s.start_frame,
                end_frame,
                text: completed,
            },
            partial,
        ]
    }
}

fn copy_option(o: &Option<String>) -> (r: Option<String>)
    ensures
        same_option(r, *o),
{
    match o {
        Some(s) => Some(owned(s.as_str())),
        None => None,
    }
}

fn numbered(before: &str, n: u64, after: &str) -> (s: String)
    ensures
        s@ == before@ + crate::text::decimal(n as nat) + after@,
{
    let mut s = String::new();
    push_text(&mut s, before);
    push_decimal(&mut s, n);
    push_text(&mut s, after);
    assert(s@ =~= before@ + crate::text::decimal(n as nat) + after@);
    s
}

impl<S: Copy> ParakeetUnifiedAnalyzer<S> {
    /// The sentence that is being put together.
    pub open spec fn sentence(self) -> Sentence {
        Sentence {
            text: self.pending_sentence@,
            start_segment: self.pending_sentence_start_segment,
            start_frame: self.pending_sentence_start_frame,
            end_frame: self.pending_sentence_end_frame,
        }
    }

    /// All but the events and the sentence is as in `other`.
    pub open spec fn same_audio(self, other: Self) -> bool {
        &&& self.stream_id == other.stream_id
        &&& self.sample_rate_hz == other.sample_rate_hz
        &&& self.worker_ready == other.worker_ready
        &&& self.reported_waiting_for_model == other.reported_waiting_for_model
        &&& self.resampled_buffer == other.resampled_buffer
        &&& self.segment_id == other.segment_id
        &&& self.buffered_start_frame == other.buffered_start_frame
    }

    /// A transcriber that has not heard anything.
    pub fn new(stream_id: Option<String>, sample_rate_hz: u32) -> (a: Self)
        ensures
            a.stream_id == stream_id,
            a.sample_rate_hz == sample_rate_hz,
            !a.worker_ready,
            !a.reported_waiting_for_model,
            a.pending@.len() == 0,
            a.resampled_buffer@.len() == 0,
            a.segment_id == 0,
            a.buffered_start_frame is None,
            a.sentence() == (Sentence {
                text: Seq::empty(),
                start_segment: None,
                start_frame: 0,
                end_frame: 0,
            }),
    {
        let a = ParakeetUnifiedAnalyzer {
            stream_id,
            sample_rate_hz,
            worker_ready: false,
            reported_waiting_for_model: false,
            pending: Vec::new(),
            resampled_buffer: Vec::new(),
            segment_id: 0,
            buffered_start_frame: None,
            pending_sentence: String::new(),
            pending_sentence_start_segment: None,
            pending_sentence_start_frame: 0,
            pending_sentence_end_frame: 0,
        };
        assert(a.pending_sentence@ =~= Seq::<char>::empty());
        a
    }

    fn push_note(&mut self, start_frame: u64, end_frame: u64, key: &str, value: String)
        ensures
            final(self).same_audio(*old(self)),
            final(self).sentence() == old(self).sentence(),
            adds(
                old(self).pending@,
                final(self).pending@,
                seq![TextEvent::Note { start_frame, end_frame, key: key@, value: value@ }],
                old(self).stream_id,
            ),
    {
        let ghost before = self.pending@;
        let ghost text = value@;
        self.pending.push(
            MediaEvent::AttributeDetected {
                tap: AudioTap::Processed,
                start_frame,
                end_frame,
                key: owned(key),
                value,
                confidence: None,
            },
        );
        assert(self.pending@.take(before.len() as int) =~= before);
    }

    fn push_final(&mut self, segment_id: u64, start_frame: u64, end_frame: u64, text: String)
        ensures
            final(self).same_audio(*old(self)),
            final(self).sentence() == old(self).sentence(),
            final(self).pending@.len() == old(self).pending@.len() + 1,
            final(self).pending@.drop_last() == old(self).pending@,
            shows(
                final(self).pending@.last(),
                TextEvent::Final { segment_id, start_frame, end_frame, text: text@ },
                old(self).stream_id,
            ),
    {
        let ghost before = self.pending@;
        let stream_id = copy_option(&self.stream_id);
        self.pending.push(
            MediaEvent::TranscriptFinal {
                tap: AudioTap::Processed,
                stream_id,
                segment_id,
                start_frame,
                end_frame,
                speaker_id: None,
                text,
                confidence: None,
            },
        );
        assert(self.pending@.drop_last() =~= before);
    }

    fn push_partial(&mut self, segment_id: u64, start_frame: u64, end_frame: u64, text: String)
        ensures
            final(self).same_audio(*old(self)),
            final(self).sentence() == old(self).sentence(),
            final(self).pending@.len() == old(self).pending@.len() + 1,
            final(self).pending@.drop_last() == old(self).pending@,
            shows(
                final(self).pending@.last(),
                TextEvent::Partial { segment_id, start_frame, end_frame, text: text@ },
                old(self).stream_id,
            ),
    {
        let ghost before = self.pending@;
        let stream_id = copy_option(&self.stream_id);
        self.pending.push(
            MediaEvent::TranscriptPartial {
                tap: AudioTap::Processed,
                stream_id,
                segment_id,
                start_frame,
                end_frame,
                speaker_id: None,
                text,
                confidence: None,
            },
        );
        assert(self.pending@.drop_last() =~= before);
    }

    /// Notes that the worker was started.
    pub fn worker_started(&mut self, model_name: &str, python: &str)
        ensures
            final(self).same_audio(*old(self)),
            final(self).sentence() == old(self).sentence(),
            adds(
                old(self).pending@,
                final(self).pending@,
                seq![
                    TextEvent::Note {
                        start_frame: 0,
                        end_frame: 0,
                        key: "parakeet.status"@,
                        value: "worker started; loading "@ + model_name@ + " with "@ + python@,
                    },
                ],
                old(self).stream_id,
            ),
    {
        let mut value = String::new();
        push_text(&mut value, "worker started; loading ");
        push_text(&mut value, model_name);
        push_text(&mut value, " with ");
        push_text(&mut value, python);
        assert(value@ =~= "worker started; loading "@ + model_name@ + " with "@ + python@);
        self.push_note(0, 0, "parakeet.status", value);
    }

    /// Notes that the worker could not be started.
    pub fn worker_failed(&mut self, why: &str)
        ensures
            final(self).same_audio(*old(self)),
            final(self).sentence() == old(self).sentence(),
            adds(
                old(self).pending@,
                final(self).pending@,
                seq![
                    TextEvent::Note {
                        start_frame: 0,
                        end_frame: 0,
                        key: "parakeet.error"@,
                        value: why@,
                    },
                ],
                old(self).stream_id,
            ),
    {
        self.push_note(0, 0, "parakeet.error", owned(why));
    }

    /// Takes in the text of a segment. Sentences that it completes become final, and the rest is
    /// shown as it stands.
    pub fn handle_chunk_text(
        &mut self,
        segment_id: u64,
        start_frame: u64,
        end_frame: u64,
        text: &str,
    )
        ensures
            final(self).same_audio(*old(self)),
            takes_text(*old(self), *final(self), segment_id, start_frame, end_frame, text@),
    {
        let ghost stream = self.stream_id;
        let trimmed = trim_chars(&chars_of(text));
        if trimmed.len() == 0 {
            self.push_note(
                start_frame,
                end_frame,
                "parakeet.status",
                numbered("segment ", segment_id, " produced empty transcript"),
            );
            return ;
        }
        let ghost s0 = self.sentence();
        let ghost p0 = self.pending@;
        let words = string_of(&trimmed);
        let mut value = numbered("segment ", segment_id, ": ");
        push_text(&mut value, words.as_str());
        let ghost note = TextEvent::Note {
            start_frame,
            end_frame,
            key: "parakeet.transcript"@,
            value: "segment "@ + crate::text::decimal(segment_id as nat) + ": "@ + trimmed@,
        };
        assert(value@ =~= "segment "@ + crate::text::decimal(segment_id as nat) + ": "@ + trimmed@);
        self.push_note(start_frame, end_frame, "parakeet.transcript", value);
        let ghost p1 = self.pending@;
        let empty: bool = self.pending_sentence.as_str().unicode_len() == 0;
        if empty {
            self.pending_sentence_start_segment = Some(segment_id);
            self.pending_sentence_start_frame = start_frame;
        }
        self.pending_sentence_end_frame = end_frame;
        if !empty && needs_space_join(self.pending_sentence.as_str(), words.as_str()) {
            push_text(&mut self.pending_sentence, " ");
        }
        push_text(&mut self.pending_sentence, words.as_str());
        let ghost s1 = extended(s0, segment_id, start_frame, end_frame, trimmed@);
        assert(self.pending_sentence@ =~= s1.text);
        let (completed, rest) = split_completed_sentences(self.pending_sentence.as_str());
        let ghost done = completed@;
        let ghost left = rest@;
        assert(is_split(s1.text, (done, left)));
        self.pending_sentence = rest;
        let nothing_left: bool = self.pending_sentence.as_str().unicode_len() == 0;
        if completed.as_str().unicode_len() > 0 {
            let final_segment: u64 = match self.pending_sentence_start_segment {
                Some(id) => id,
                None => segment_id,
            };
            let final_start: u64 = self.pending_sentence_start_frame;
            let final_end: u64 = if nothing_left {
                self.pending_sentence_end_frame
            } else {
                end_frame
            };
            self.push_final(final_segment, final_start, final_end, completed);
            proof {
                lemma_adds_one(
                    p0,
                    p1,
                    self.pending@,
                    seq![note],
                    self.pending@.last(),
                    TextEvent::Final {
                        segment_id: or_else(s1.start_segment, segment_id),
                        start_frame: s1.start_frame,
                        end_frame,
                        text: done,
                    },
                    stream,
                );
            }
            if nothing_left {
                self.pending_sentence_start_segment = None;
            } else {
                self.pending_sentence_start_segment = Some(segment_id);
                self.pending_sentence_start_frame = end_frame;
            }
        }
        let ghost s2 = remaining(s1, segment_id, end_frame, done, left);
        assert(self.sentence() == s2);
        let ghost p2 = self.pending@;
        let partial_text = owned(self.pending_sentence.as_str());
        let partial_end: u64 = if self.pending_sentence_end_frame >= end_frame {
            self.pending_sentence_end_frame
        } else {
            end_frame
        };
        let partial_segment: u64 = match self.pending_sentence_start_segment {
            Some(id) => id,
            None => segment_id,
        };
        self.push_partial(
            partial_segment,
            self.pending_sentence_start_frame,
            partial_end,
            partial_text,
        );
        proof {
            let so_far = if done.len() == 0 {
                seq![note]
            } else {
                seq![
                    note,
                    TextEvent::Final {
                        segment_id: or_else(s1.start_segment, segment_id),
                        start_frame: s1.start_frame,
                        end_frame,
                        text: done,
                    },
                ]
            };
            assert(seq![note].push(
                TextEvent::Final {
                    segment_id: or_else(s1.start_segment, segment_id),
                    start_frame: s1.start_frame,
                    end_frame,
                    text: done,
                },
            ) =~= seq![
                note,
                TextEvent::Final {
                    segment_id: or_else(s1.start_segment, segment_id),
                    start_frame: s1.start_frame,
                    end_frame,
                    text: done,
                },
            ]);
            let last = TextEvent::Partial {
                segment_id: or_else(s2.start_segment, segment_id),
                start_frame: s2.start_frame,
                end_frame: later(s2.end_frame, end_frame),
                text: left,
            };
            lemma_adds_one(p0, p2, self.pending@, so_far, self.pending@.last(), last, stream);
            assert(so_far.push(last) =~= segment_events(
                s1,
                segment_id,
                end_frame,
                note,
                done,
                left,
            ));
        }
    }

    /// Ends the sentence that is being put together: what there is of it becomes final.
    pub fn flush_pending_sentence(&mut self, end_frame: u64)
        ensures
            final(self).same_audio(*old(self)),
            flushes(*old(self), *final(self), end_frame),
    {
        let ghost stream = self.stream_id;
        let ghost p0 = self.pending@;
        let ghost s0 = self.sentence();
        let trimmed = trim_chars(&chars_of(self.pending_sentence.as_str()));
        let ghost whole = self.pending_sentence@;
        let empty = String::new();
        assert(empty@ =~= Seq::<char>::empty());
        if trimmed.len() == 0 {
            self.pending_sentence = empty;
            self.pending_sentence_start_segment = None;
            assert(self.pending@.take(p0.len() as int) =~= p0);
            return ;
        }
        let final_segment: u64 = match self.pending_sentence_start_segment {
            Some(id) => id,
            None => self.segment_id,
        };
        let final_start: u64 = self.pending_sentence_start_frame;
        let final_end: u64 = if self.pending_sentence_end_frame >= end_frame {
            self.pending_sentence_end_frame
        } else {
            end_frame
        };
        self.pending_sentence = empty;
        self.pending_sentence_start_segment = None;
        self.push_final(final_segment, final_start, final_end, string_of(&trimmed));
        let ghost p1 = self.pending@;
        let ghost first = TextEvent::Final {
            segment_id: final_segment,
            start_frame: final_start,
            end_frame: final_end,
            text: trimmed@,
        };
        let ghost second = TextEvent::Partial {
            segment_id: final_segment,
            start_frame: final_end,
            end_frame: final_end,
            text: Seq::empty(),
        };
        let nothing = String::new();
        assert(nothing@ =~= Seq::<char>::empty());
        self.push_partial(final_segment, final_end, final_end, nothing);
        proof {
            assert(p0.take(p0.len() as int) =~= p0);
            assert(adds(p0, p0, Seq::<TextEvent>::empty(), stream));
            lemma_adds_one(p0, p0, p1, Seq::empty(), p1.last(), first, stream);
            lemma_adds_one(
                p0,
                p1,
                self.pending@,
                Seq::<TextEvent>::empty().push(first),
                self.pending@.last(),
                second,
                stream,
            );
            assert(Seq::<TextEvent>::empty().push(first).push(second) =~= seq![first, second]);
        }
    }
}

/// `after` is `before` when it has taken in the text of a segment.
pub open spec fn takes_text<S: Copy>(
    before: ParakeetUnifiedAnalyzer<S>,
    after: ParakeetUnifiedAnalyzer<S>,
    segment_id: u64,
    start_frame: u64,
    end_frame: u64,
    text: Seq<char>,
) -> bool {
    let trimmed = crate::text::trim_seq(text);
    if trimmed.len() == 0 {
        &&& after.sentence() == before.sentence()
        &&& adds(
            before.pending@,
            after.pending@,
            seq![
                TextEvent::Note {
                    start_frame,
                    end_frame,
                    key: "parakeet.status"@,
                    value: "segment "@ + crate::text::decimal(segment_id as nat)
                        + " produced empty transcript"@,
                },
            ],
            before.stream_id,
        )
    } else {
        let s = extended(before.sentence(), segment_id, start_frame, end_frame, trimmed);
        let note = TextEvent::Note {
            start_frame,
            end_frame,
            key: "parakeet.transcript"@,
            value: "segment "@ + crate::text::decimal(segment_id as nat) + ": "@ + trimmed,
        };
        exists|completed: Seq<char>, rest: Seq<char>|
            {
                &&& #[trigger] is_split(s.text, (completed, rest))
                &&& after.sentence() == remaining(s, segment_id, end_frame, completed, rest)
                &&& adds(
                    before.pending@,
                    after.pending@,
                    segment_events(s, segment_id, end_frame, note, completed, rest),
                    before.stream_id,
                )
            }
    }
}

/// `after` is `before` with its sentence ended.
pub open spec fn flushes<S: Copy>(
    before: ParakeetUnifiedAnalyzer<S>,
    after: ParakeetUnifiedAnalyzer<S>,
    end_frame: u64,
) -> bool {
    let s = before.sentence();
    let trimmed = crate::text::trim_seq(s.text);
    let id = or_else(s.start_segment, before.segment_id);
    let end = later(s.end_frame, end_frame);
    &&& after.sentence() == (Sentence { text: Seq::empty(), start_segment: None, ..s })
    &&& adds(
        before.pending@,
        after.pending@,
        if trimmed.len() == 0 {
            Seq::empty()
        } else {
            seq![
                TextEvent::Final {
                    segment_id: id,
                    start_frame: s.start_frame,
                    end_frame: end,
                    text: trimmed,
                },
                TextEvent::Partial {
                    segment_id: id,
                    start_frame: end,
                    end_frame: end,
                    text: Seq::empty(),
                },
            ]
        },
        before.stream_id,
    )
}

/// What the worker's messages amount to, one by one.
pub open spec fn message_event(m: WorkerMessage) -> Option<TextEvent> {
    match m {
        WorkerMessage::Status(t) => Some(
            TextEvent::Note {
                start_frame: 0,
                end_frame: 0,
                key: "parakeet.status"@,
                value: t@,
            },
        ),
        WorkerMessage::Ready => Some(
            TextEvent::Note {
                start_frame: 0,
                end_frame: 0,
                key: "parakeet.status"@,
                value: "model ready"@,
            },
        ),
        WorkerMessage::Error(t) => Some(
            TextEvent::Note { start_frame: 0, end_frame: 0, key: "parakeet.error"@, value: t@ },
        ),
        WorkerMessage::Stderr(t) => if is_noise(t@) {
            None
        } else {
            Some(
                TextEvent::Note {
                    start_frame: 0,
                    end_frame: 0,
                    key: "parakeet.stderr"@,
                    value: t@,
                },
            )
        },
        WorkerMessage::Final { .. } => None,
    }
}

/// A line of the worker's error output is of no interest.
pub open spec fn is_noise(line: Seq<char>) -> bool {
    crate::text::contains_seq(line, "dataloader:826"@) || crate::text::contains_seq(
        line,
        "dataloader:523"@,
    ) || crate::text::contains_seq(line, "Transcribing: 0it"@) || crate::text::contains_seq(
        line,
        "Transcribing: 1it"@,
    )
}

/// `after` is `before` when it has taken in the message `m`.
pub open spec fn takes_message<S: Copy>(
    before: ParakeetUnifiedAnalyzer<S>,
    after: ParakeetUnifiedAnalyzer<S>,
    m: WorkerMessage,
) -> bool {
    &&& after.same_audio(
        ParakeetUnifiedAnalyzer { worker_ready: before.worker_ready || m is Ready, ..before },
    )
    &&& match m {
        WorkerMessage::Final { segment_id, start_frame, end_frame, text } => takes_text(
            before,
            after,
            segment_id,
            start_frame,
            end_frame,
            text@,
        ),
        _ => {
            &&& after.sentence() == before.sentence()
            &&& adds(
                before.pending@,
                after.pending@,
                match message_event(m) {
                    Some(e) => seq![e],
                    None => Seq::empty(),
                },
                before.stream_id,
            )
        },
    }
}

/// `states` are those of the transcriber as it takes in the messages one by one.
pub open spec fn takes_messages<S: Copy>(
    messages: Seq<WorkerMessage>,
    states: Seq<ParakeetUnifiedAnalyzer<S>>,
) -> bool {
    &&& states.len() == messages.len() + 1
    &&& forall|i: int|
        0 <= i < messages.len() ==> takes_message(
            #[trigger] states[i],
            states[i + 1],
            messages[i],
        )
}

/// What is next for the audio that was taken in.
#[derive(Debug)]
pub enum ChunkStep<S> {
    /// Nothing until there is more audio.
    Wait,
    /// A segment: its samples, its number, and the frames it stands for.
    Segment { samples: Vec<S>, segment_id: u64, start_frame: u64, end_frame: u64 },
}

/// The frames of the input that `count` samples of the model's rate stand for: at least one.
pub open spec fn input_frames(count: nat, input_rate_hz: u32, sample_rate_hz: u32) -> nat {
    let n = count * input_rate_hz as nat / sample_rate_hz as nat;
    if n < 1 {
        1
    } else {
        n
    }
}

/// A frame so many frames further on, but no further than the largest one.
pub open spec fn frame_after(start: u64, frames: nat) -> int {
    if start + frames > u64::MAX {
        u64::MAX as int
    } else {
        start + frames
    }
}

impl<S: Copy> ParakeetUnifiedAnalyzer<S> {
    /// Takes in one message of the worker.
    pub fn handle_message(&mut self, m: WorkerMessage)
        ensures
            takes_message(*old(self), *final(self), m),
    {
        match m {
            WorkerMessage::Status(t) => self.push_note(0, 0, "parakeet.status", t),
            WorkerMessage::Ready => {
                self.worker_ready = true;
                self.push_note(0, 0, "parakeet.status", owned("model ready"));
            },
            WorkerMessage::Final { segment_id, start_frame, end_frame, text } => {
                self.handle_chunk_text(segment_id, start_frame, end_frame, text.as_str());
            },
            WorkerMessage::Error(t) => self.push_note(0, 0, "parakeet.error", t),
            WorkerMessage::Stderr(t) => {
                if !is_noisy_stderr_line(t.as_str()) {
                    self.push_note(0, 0, "parakeet.stderr", t);
                } else {
                    assert(self.pending@.take(self.pending@.len() as int) =~= self.pending@);
                }
            },
        }
    }

    /// Takes in the messages of the worker, in order.
    pub fn drain_worker_messages(&mut self, messages: Vec<WorkerMessage>)
        ensures
            exists|states: Seq<Self>|
                {
                    &&& #[trigger] takes_messages(messages@, states)
                    &&& states[0] == *old(self)
                    &&& states.last() == *final(self)
                },
    {
        let ghost all = messages@;
        let ghost mut states: Seq<Self> = seq![*self];
        for m in it: messages
            invariant
                it.seq() == all,
                states.len() == it.index() + 1,
                states[0] == *old(self),
                states.last() == *self,
                forall|i: int|
                    0 <= i < it.index() ==> takes_message(
                        #[trigger] states[i],
                        states[i + 1],
                        all[i],
                    ),
        {
            let ghost n = it.index() as int;
            let ghost before = *self;
            let ghost said = m;
            self.handle_message(m);
            proof {
                let longer = states.push(*self);
                assert forall|i: int| 0 <= i < n + 1 implies takes_message(
                    #[trigger] longer[i],
                    longer[i + 1],
                    all[i],
                ) by {
                    assert(longer[i] == states[i]);
                    if i < n {
                        assert(longer[i + 1] == states[i + 1]);
                    }
                }
                states = longer;
            }
        }
        assert(takes_messages(all, states));
    }

    /// Takes in audio at the model's rate; the first block's frame is where segments start.
    pub fn buffer_audio(&mut self, frame_index: u64, samples: &Vec<S>)
        ensures
            *final(self) == (ParakeetUnifiedAnalyzer {
                buffered_start_frame: match old(self).buffered_start_frame {
                    Some(f) => Some(f),
                    None => Some(frame_index),
                },
                resampled_buffer: final(self).resampled_buffer,
                ..*old(self)
            }),
            final(self).resampled_buffer@ == old(self).resampled_buffer@ + samples@,
    {
        if self.buffered_start_frame.is_none() {
            self.buffered_start_frame = Some(frame_index);
        }
        let ghost before = self.resampled_buffer@;
        let mut i: usize = 0;
        assert(before + samples@.take(0) =~= before);
        while i < samples.len()
            invariant
                i <= samples@.len(),
                before == old(self).resampled_buffer@,
                self.resampled_buffer@ == before + samples@.take(i as int),
                *self == (ParakeetUnifiedAnalyzer {
                    buffered_start_frame: match old(self).buffered_start_frame {
                        Some(f) => Some(f),
                        None => Some(frame_index),
                    },
                    resampled_buffer: self.resampled_buffer,
                    ..*old(self)
                }),
            decreases samples@.len() - i,
        {
            self.resampled_buffer.push(samples[i]);
            i = i + 1;
            assert(self.resampled_buffer@ =~= before + samples@.take(i as int));
        }
        assert(samples@.take(i as int) =~= samples@);
    }

    /// While the model is being loaded: drops all but the last `max_samples` samples (none where
    /// that is zero), and says so the first time. `seconds` is the limit in words.
    pub fn wait_for_model(&mut self, max_samples: usize, seconds: &str)
        requires
            !old(self).worker_ready,
        ensures
            final(self).sentence() == old(self).sentence(),
            final(self).same_audio(
                ParakeetUnifiedAnalyzer {
                    reported_waiting_for_model: true,
                    resampled_buffer: final(self).resampled_buffer,
                    ..*old(self)
                },
            ),
            final(self).resampled_buffer@ == if max_samples > 0 && old(self).resampled_buffer@.len()
                > max_samples {
                old(self).resampled_buffer@.skip(old(self).resampled_buffer@.len() - max_samples)
            } else {
                old(self).resampled_buffer@
            },
            adds(
                old(self).pending@,
                final(self).pending@,
                if old(self).reported_waiting_for_model {
                    Seq::empty()
                } else {
                    seq![
                        TextEvent::Note {
                            start_frame: 0,
                            end_frame: 0,
                            key: "parakeet.status"@,
                            value: "waiting for model ready; buffering up to "@ + seconds@
                                + "s of recent audio"@,
                        },
                    ]
                },
                old(self).stream_id,
            ),
    {
        let len: usize = self.resampled_buffer.len();
        if max_samples > 0 && len > max_samples {
            let kept = copy_samples(&self.resampled_buffer, len - max_samples, len);
            assert(kept@ =~= self.resampled_buffer@.skip(len - max_samples));
            self.resampled_buffer = kept;
        }
        if !self.reported_waiting_for_model {
            let mut value = String::new();
            push_text(&mut value, "waiting for model ready; buffering up to ");
            push_text(&mut value, seconds);
            push_text(&mut value, "s of recent audio");
            assert(value@ =~= "waiting for model ready; buffering up to "@ + seconds@
                + "s of recent audio"@);
            self.push_note(0, 0, "parakeet.status", value);
            self.reported_waiting_for_model = true;
        } else {
            assert(self.pending@.take(self.pending@.len() as int) =~= self.pending@);
        }
    }

    /// Cuts the next segment of `chunk_samples` samples off, if there is one. It counts only once it
    /// was skipped or handed to the worker.
    pub fn next_segment(&mut self, chunk_samples: usize, input_rate_hz: u32) -> (step: ChunkStep<S>)
        requires
            chunk_samples > 0 ==> old(self).sample_rate_hz > 0,
            chunk_samples * input_rate_hz <= u64::MAX,
        ensures
            final(self).pending == old(self).pending,
            final(self).sentence() == old(self).sentence(),
            chunk_samples == 0 || old(self).resampled_buffer@.len() < chunk_samples ==> step is Wait
                && final(self).same_audio(*old(self)),
            chunk_samples > 0 && old(self).resampled_buffer@.len() >= chunk_samples ==> {
                let start = or_else(old(self).buffered_start_frame, 0);
                let end = frame_after(
                    start,
                    input_frames(chunk_samples as nat, input_rate_hz, old(self).sample_rate_hz),
                );
                &&& step matches ChunkStep::Segment { samples, segment_id, start_frame, end_frame }
                    && samples@ == old(self).resampled_buffer@.take(chunk_samples as int)
                    && segment_id == old(self).segment_id && start_frame == start && end_frame
                    == end
                &&& final(self).same_audio(
                    ParakeetUnifiedAnalyzer {
                        resampled_buffer: final(self).resampled_buffer,
                        ..*old(self)
                    },
                )
                &&& final(self).resampled_buffer@ == old(self).resampled_buffer@.skip(
                    chunk_samples as int,
                )
            },
    {
        let len: usize = self.resampled_buffer.len();
        if chunk_samples == 0 || len < chunk_samples {
            return ChunkStep::Wait;
        }
        let samples = copy_samples(&self.resampled_buffer, 0, chunk_samples);
        let kept = copy_samples(&self.resampled_buffer, chunk_samples, len);
        assert(samples@ =~= self.resampled_buffer@.take(chunk_samples as int));
        assert(kept@ =~= self.resampled_buffer@.skip(chunk_samples as int));
        self.resampled_buffer = kept;
        let start_frame: u64 = match self.buffered_start_frame {
            Some(f) => f,
            None => 0,
        };
        let frames: u64 = chunk_samples as u64 * input_rate_hz as u64 / self.sample_rate_hz as u64;
        let frames: u64 = if frames < 1 {
            1
        } else {
            frames
        };
        let end_frame: u64 = start_frame.saturating_add(frames);
        ChunkStep::Segment { samples, segment_id: self.segment_id, start_frame, end_frame }
    }

    /// The next segment has the next number and starts at `end_frame`; all else but the events and
    /// the sentence is as in `before`.
    pub open spec fn counted_segment(self, before: Self, end_frame: u64) -> bool {
        self.same_audio(
            ParakeetUnifiedAnalyzer {
                segment_id: (before.segment_id + 1) as u64,
                buffered_start_frame: Some(end_frame),
                ..before
            },
        )
    }

    /// Notes that a silent segment was skipped, and ends the sentence that was being put
    /// together. The length, the level and the limit are told in words.
    pub fn segment_skipped(
        &mut self,
        start_frame: u64,
        end_frame: u64,
        seconds: &str,
        level: &str,
        limit: &str,
    )
        requires
            old(self).segment_id < u64::MAX,
        ensures
            final(self).counted_segment(*old(self), end_frame),
            exists|middle: Self|
                {
                    &&& #[trigger] middle.same_audio(*old(self))
                    &&& middle.sentence() == old(self).sentence()
                    &&& adds(
                        old(self).pending@,
                        middle.pending@,
                        seq![
                            TextEvent::Note {
                                start_frame,
                                end_frame,
                                key: "parakeet.segment"@,
                                value: "skipped silent segment "@ + crate::text::decimal(
                                    old(self).segment_id as nat,
                                ) + " ("@ + seconds@ + "s, rms "@ + level@ + " < "@ + limit@ + ")"@,
                            },
                        ],
                        old(self).stream_id,
                    )
                    &&& flushes(middle, *final(self), end_frame)
                },
    {
        let segment_id: u64 = self.segment_id;
        let mut value = numbered("skipped silent segment ", segment_id, " (");
        push_text(&mut value, seconds);
        push_text(&mut value, "s, rms ");
        push_text(&mut value, level);
        push_text(&mut value, " < ");
        push_text(&mut value, limit);
        push_text(&mut value, ")");
        assert(value@ =~= "skipped silent segment "@ + crate::text::decimal(segment_id as nat)
            + " ("@ + seconds@ + "s, rms "@ + level@ + " < "@ + limit@ + ")"@);
        self.push_note(start_frame, end_frame, "parakeet.segment", value);
        let ghost middle = *self;
        self.flush_pending_sentence(end_frame);
        self.segment_id = segment_id + 1;
        self.buffered_start_frame = Some(end_frame);
        assert(middle.same_audio(*old(self)));
    }

    /// Notes that a segment was handed to the worker. The length and the level are told in words.
    pub fn segment_queued(
        &mut self,
        start_frame: u64,
        end_frame: u64,
        seconds: &str,
        level: &str,
    )
        requires
            old(self).segment_id < u64::MAX,
        ensures
            final(self).counted_segment(*old(self), end_frame),
            final(self).sentence() == old(self).sentence(),
            adds(
                old(self).pending@,
                final(self).pending@,
                seq![
                    TextEvent::Note {
                        start_frame,
                        end_frame,
                        key: "parakeet.segment"@,
                        value: "queued segment "@ + crate::text::decimal(
                            old(self).segment_id as nat,
                        ) + " ("@ + seconds@ + "s, rms "@ + level@ + ")"@,
                    },
                ],
                old(self).stream_id,
            ),
    {
        let segment_id: u64 = self.segment_id;
        let mut value = numbered("queued segment ", segment_id, " (");
        push_text(&mut value, seconds);
        push_text(&mut value, "s, rms ");
        push_text(&mut value, level);
        push_text(&mut value, ")");
        assert(value@ =~= "queued segment "@ + crate::text::decimal(segment_id as nat) + " ("@
            + seconds@ + "s, rms "@ + level@ + ")"@);
        self.push_note(start_frame, end_frame, "parakeet.segment", value);
        self.segment_id = segment_id + 1;
        self.buffered_start_frame = Some(end_frame);
    }

    /// Hands out the events found since the last call.
    pub fn take_events(&mut self) -> (events: Vec<MediaEvent<S>>)
        ensures
            events@ == old(self).pending@,
            final(self).pending@.len() == 0,
            final(self).sentence() == old(self).sentence(),
            final(self).same_audio(*old(self)),
    {
        let mut events: Vec<MediaEvent<S>> = Vec::new();
        std::mem::swap(&mut events, &mut self.pending);
        events
    }
}

fn copy_samples<S: Copy>(s: &Vec<S>, from: usize, to: usize) -> (r: Vec<S>)
    requires
        from <= to <= s@.len(),
    ensures
        r@ == s@.subrange(from as int, to as int),
{
    let mut r: Vec<S> = Vec::new();
    let mut i: usize = from;
    while i < to
        invariant
            from <= i <= to <= s@.len(),
            r@ == s@.subrange(from as int, i as int),
        decreases to - i,
    {
        r.push(s[i]);
        i = i + 1;
        assert(r@ =~= s@.subrange(from as int, i as int));
    }
    r
}

/// The line that asks the worker to transcribe a segment. The level is told in words.
pub fn transcribe_line(segment_id: u64, start_frame: u64, end_frame: u64, level: &str, path: &str) -> (s:
    String)
    ensures
        s@ == "TRANSCRIBE\t"@ + crate::text::decimal(segment_id as nat) + "\t"@
            + crate::text::decimal(start_frame as nat) + "\t"@ + crate::text::decimal(
            end_frame as nat,
        ) + "\t"@ + level@ + "\t"@ + path@,
{
    let mut s = String::new();
    push_text(&mut s, "TRANSCRIBE\t");
    push_decimal(&mut s, segment_id);
    push_text(&mut s, "\t");
    push_decimal(&mut s, start_frame);
    push_text(&mut s, "\t");
    push_decimal(&mut s, end_frame);
    push_text(&mut s, "\t");
    push_text(&mut s, level);
    push_text(&mut s, "\t");
    push_text(&mut s, path);
    assert(s@ =~= "TRANSCRIBE\t"@ + crate::text::decimal(segment_id as nat) + "\t"@
        + crate::text::decimal(start_frame as nat) + "\t"@ + crate::text::decimal(end_frame as nat)
        + "\t"@ + level@ + "\t"@ + path@);
    s
}

/// A frame's samples; `zero` stands in for those that are missing.
pub open spec fn padded_frame<S>(data: Seq<S>, frame: int, channels: int, zero: S) -> Seq<S> {
    Seq::new(
        channels as nat,
        |c: int| crate::vst::sample_at(data, frame * channels + c, zero),
    )
}

/// `r` is the frame as one sample: the mean over all channels.
pub open spec fn is_mono_frame<S, G, M: MixMath<S, G>>(
    m: M,
    data: Seq<S>,
    frame: int,
    channels: int,
    zero: S,
    r: S,
) -> bool {
    exists|sum: S| #[trigger]
        crate::mixdown::is_sum::<S, G, M>(m, padded_frame(data, frame, channels, zero), sum)
            && call_ensures(M::mean, (&m, sum, channels as u32), r)
}

/// A block's channel count, at least one.
pub open spec fn channels_of(format: AudioFormat) -> int {
    if format.channels == 0 {
        1
    } else {
        format.channels as int
    }
}

/// A block as one channel.
pub fn mono_samples<S: Copy, G, M: MixMath<S, G>>(m: &M, input: &AudioBuffer<S>, zero: S) -> (out:
    Vec<S>)
    requires
        input.frames * channels_of(input.format) <= usize::MAX,
    ensures
        out@.len() == input.frames,
        forall|f: int|
            0 <= f < input.frames ==> is_mono_frame::<S, G, M>(
                *m,
                input.samples(),
                f,
                channels_of(input.format),
                zero,
                #[trigger] out@[f],
            ),
{
    let channels: usize = if input.format.channels == 0 {
        1
    } else {
        input.format.channels as usize
    };
    let mut out: Vec<S> = Vec::new();
    let mut f: usize = 0;
    while f < input.frames
        invariant
            f <= input.frames,
            channels == channels_of(input.format),
            input.frames * channels <= usize::MAX,
            out@.len() == f,
            forall|k: int|
                0 <= k < f ==> is_mono_frame::<S, G, M>(
                    *m,
                    input.samples(),
                    k,
                    channels as int,
                    zero,
                    #[trigger] out@[k],
                ),
        decreases input.frames - f,
    {
        let mut xs: Vec<S> = Vec::new();
        proof {
            assert(f * channels + channels <= input.frames * channels) by (nonlinear_arith)
                requires
                    f + 1 <= input.frames,
                    channels >= 0,
            ;
        }
        let base: usize = f * channels;
        let mut c: usize = 0;
        while c < channels
            invariant
                c <= channels,
                base == f * channels,
                base + channels <= usize::MAX,
                xs@.len() == c,
                forall|k: int|
                    0 <= k < c ==> #[trigger] xs@[k] == padded_frame(
                        input.samples(),
                        f as int,
                        channels as int,
                        zero,
                    )[k],
            decreases channels - c,
        {
            let at: usize = base + c;
            if at < input.data.len() {
                xs.push(input.data[at]);
            } else {
                xs.push(zero);
            }
            c = c + 1;
        }
        assert(xs@ =~= padded_frame(input.samples(), f as int, channels as int, zero));
        let sum = sum_of::<S, G, M>(m, &xs);
        let mean = m.mean(sum, channels as u32);
        assert(is_mono_frame::<S, G, M>(
            *m,
            input.samples(),
            f as int,
            channels as int,
            zero,
            mean,
        ));
        out.push(mean);
        f = f + 1;
    }
    out
}

/// Whether a block has to be brought to another rate: one of floating-point samples at another
/// rate than the model's.
pub fn needs_resampling(format: AudioFormat, output_rate_hz: u32) -> (r: bool)
    ensures
        r == (format.sample_format == SampleFormat::F32 && format.sample_rate_hz != output_rate_hz),
{
    format.sample_format == SampleFormat::F32 && format.sample_rate_hz != output_rate_hz
}

/// The characters of a text that are not white space.
pub open spec fn solid(s: Seq<char>) -> Seq<char>
    decreases s.len(),
{
    if s.len() == 0 {
        s
    } else if crate::text::white_space(s.last()) {
        solid(s.drop_last())
    } else {
        solid(s.drop_last()).push(s.last())
    }
}

proof fn lemma_solid_joined(a: Seq<char>, b: Seq<char>)
    ensures
        solid(a + b) == solid(a) + solid(b),
    decreases b.len(),
{
    if b.len() == 0 {
        assert(a + b =~= a);
        assert(solid(a) + solid(b) =~= solid(a));
    } else {
        assert((a + b).drop_last() =~= a + b.drop_last());
        assert((a + b).last() == b.last());
        lemma_solid_joined(a, b.drop_last());
        assert(solid(a + b) =~= solid(a) + solid(b));
    }
}

proof fn lemma_solid_trim_start(s: Seq<char>)
    ensures
        solid(crate::text::trim_start_seq(s)) == solid(s),
    decreases s.len(),
{
    if s.len() > 0 && crate::text::white_space(s[0]) {
        lemma_solid_trim_start(s.skip(1));
        let head = seq![s[0]];
        assert(head + s.skip(1) =~= s);
        lemma_solid_joined(head, s.skip(1));
        assert(head.drop_last() =~= Seq::<char>::empty());
        assert(solid(head) =~= Seq::<char>::empty()) by {
            reveal_with_fuel(solid, 2);
        }
        assert(solid(s) =~= solid(s.skip(1)));
    }
}

proof fn lemma_solid_trim_end(s: Seq<char>)
    ensures
        solid(crate::text::trim_end_seq(s)) == solid(s),
    decreases s.len(),
{
    if s.len() > 0 && crate::text::white_space(s.last()) {
        lemma_solid_trim_end(s.drop_last());
    }
}

/// Splitting a text loses nothing but white space: the complete sentences and the rest hold, in
/// order, every other character of it.
pub proof fn splitting_keeps_the_words(s: Seq<char>, parts: (Seq<char>, Seq<char>))
    requires
        is_split(s, parts),
    ensures
        solid(parts.0) + solid(parts.1) == solid(s),
{
    if has_no_end(s) {
        assert(solid(parts.0) + solid(parts.1) =~= solid(s));
    } else {
        let end = choose|end: int| #[trigger]
            is_last_end(s, end) && parts.0 == crate::text::trim_seq(s.take(end)) && parts.1
                == crate::text::trim_start_seq(s.skip(end));
        lemma_solid_trim_start(s.take(end));
        lemma_solid_trim_end(crate::text::trim_start_seq(s.take(end)));
        lemma_solid_trim_start(s.skip(end));
        lemma_solid_joined(s.take(end), s.skip(end));
        assert(s.take(end) + s.skip(end) =~= s);
    }
}

/// A segment's text is not lost: what was pending, the text, and nothing else is in what becomes
/// final and what stays pending, but for white space.
pub proof fn no_words_are_lost(
    s: Sentence,
    segment_id: u64,
    start_frame: u64,
    end_frame: u64,
    trimmed: Seq<char>,
    completed: Seq<char>,
    rest: Seq<char>,
)
    requires
        is_split(
            extended(s, segment_id, start_frame, end_frame, trimmed).text,
            (completed, rest),
        ),
    ensures
        solid(completed) + solid(
            remaining(
                extended(s, segment_id, start_frame, end_frame, trimmed),
                segment_id,
                end_frame,
                completed,
                rest,
            ).text,
        ) == solid(s.text) + solid(trimmed),
{
    let whole = extended(s, segment_id, start_frame, end_frame, trimmed).text;
    splitting_keeps_the_words(whole, (completed, rest));
    if joins_with_space(s.text, trimmed) {
        reveal_strlit(" ");
        lemma_solid_joined(s.text + " "@, trimmed);
        lemma_solid_joined(s.text, " "@);
        assert(" "@.drop_last() =~= Seq::<char>::empty());
        assert(solid(" "@) =~= Seq::<char>::empty()) by {
            reveal_with_fuel(solid, 2);
        }
        assert(solid(s.text) + solid(" "@) =~= solid(s.text));
    } else {
        lemma_solid_joined(s.text, trimmed);
    }
}

proof fn lemma_field(head: Seq<char>, rest: Seq<char>)
    requires
        forall|i: int| 0 <= i < head.len() ==> #[trigger] head[i] != '\t',
    ensures
        tab_position(head) == head.len(),
        tab_position(head + seq!['\t'] + rest) == head.len(),
        first_field(head + seq!['\t'] + rest) == head,
        after_tab(head + seq!['\t'] + rest) == Some(rest),
    decreases head.len(),
{
    let line = head + seq!['\t'] + rest;
    if head.len() > 0 {
        let tail = head.skip(1);
        assert forall|i: int| 0 <= i < tail.len() implies #[trigger] tail[i] != '\t' by {
            assert(tail[i] == head[i + 1]);
        }
        lemma_field(tail, rest);
        assert(line.skip(1) =~= tail + seq!['\t'] + rest);
        assert(line[0] == head[0]);
        assert(head[0] != '\t');
    }
    assert(line.take(head.len() as int) =~= head);
    assert(line.skip(head.len() + 1int) =~= rest);
}

/// What the worker says is understood: a line of the word for a final text, three numbers and a
/// text, with tabs between them, is a final text with those numbers and that text, tabs in the
/// text included.
pub proof fn a_final_line_reads_back(
    line: Seq<char>,
    message: Option<WorkerMessage>,
    id: u64,
    start: u64,
    end: u64,
    text: Seq<char>,
)
    requires
        says(line, message),
        line == "FINAL"@ + seq!['\t'] + (crate::text::decimal(id as nat) + seq!['\t'] + (
        crate::text::decimal(start as nat) + seq!['\t'] + (crate::text::decimal(end as nat) + seq![
            '\t',
        ] + text))),
    ensures
        message matches Some(WorkerMessage::Final { segment_id, start_frame, end_frame, text: t })
            && segment_id == id && start_frame == start && end_frame == end && t@ == text,
{
    reveal_strlit("FINAL");
    reveal_strlit("READY");
    reveal_strlit("STATUS");
    reveal_strlit("ERROR");
    crate::text::decimal_has_digits_only(id as nat);
    crate::text::decimal_has_digits_only(start as nat);
    crate::text::decimal_has_digits_only(end as nat);
    let c = crate::text::decimal(end as nat) + seq!['\t'] + text;
    let b = crate::text::decimal(start as nat) + seq!['\t'] + c;
    let a = crate::text::decimal(id as nat) + seq!['\t'] + b;
    lemma_field("FINAL"@, a);
    lemma_field(crate::text::decimal(id as nat), b);
    lemma_field(crate::text::decimal(start as nat), c);
    lemma_field(crate::text::decimal(end as nat), text);
    crate::text::decimal_reads_back(id as nat, u64::MAX as nat);
    crate::text::decimal_reads_back(start as nat, u64::MAX as nat);
    crate::text::decimal_reads_back(end as nat, u64::MAX as nat);
    assert("FINAL"@[0] == 'F' && "READY"@[0] == 'R' && "STATUS"@[0] == 'S' && "ERROR"@[0] == 'E');
}

/// A line of the word for a state or an error, a tab and a text says that, with that text; a line
/// whose first field is another word than the four known ones says nothing.
pub proof fn a_worded_line_reads_back(line: Seq<char>, message: Option<WorkerMessage>, text: Seq<char>)
    requires
        says(line, message),
    ensures
        line == "STATUS"@ + seq!['\t'] + text ==> (message matches Some(WorkerMessage::Status(t))
            && t@ == text),
        line == "ERROR"@ + seq!['\t'] + text ==> (message matches Some(WorkerMessage::Error(t))
            && t@ == text),
        line == "READY"@ ==> (message matches Some(WorkerMessage::Ready)),
        line.len() > 0 && line[0] != 'S' && line[0] != 'E' && line[0] != 'R' && line[0] != 'F'
            ==> message is None,
{
    reveal_strlit("FINAL");
    reveal_strlit("READY");
    reveal_strlit("STATUS");
    reveal_strlit("ERROR");
    lemma_field("STATUS"@, text);
    lemma_field("ERROR"@, text);
    lemma_field("READY"@, text);
    assert("FINAL"@[0] == 'F' && "READY"@[0] == 'R' && "STATUS"@[0] == 'S' && "ERROR"@[0] == 'E');
    assert("READY"@.take(5) =~= "READY"@);
    if line.len() > 0 {
        let head = first_field(line);
        lemma_tab_position(line);
        if head.len() > 0 {
            assert(head[0] == line[0]);
        }
    }
}

/// Pieces of a sentence are kept apart by white space: a piece that is added to one that does not
/// end in white space is set off by one space, and starts the sentence where there is none yet.
pub proof fn pieces_are_kept_apart(
    s: Sentence,
    segment_id: u64,
    start_frame: u64,
    end_frame: u64,
    piece: Seq<char>,
)
    requires
        piece.len() > 0,
        !crate::text::white_space(piece[0]),
    ensures
        ({
            let whole = extended(s, segment_id, start_frame, end_frame, piece);
            &&& s.text.len() == 0 ==> whole.text == piece && whole.start_segment == Some(segment_id)
                && whole.start_frame == start_frame
            &&& s.text.len() > 0 && !crate::text::white_space(s.text.last()) ==> whole.text
                == s.text + seq![' '] + piece
            &&& s.text.len() > 0 && crate::text::white_space(s.text.last()) ==> whole.text == s.text
                + piece
            &&& s.text.len() > 0 ==> whole.start_segment == s.start_segment && whole.start_frame
                == s.start_frame
            &&& whole.end_frame == end_frame
        }),
{
    reveal_strlit(" ");
    assert(" "@ =~= seq![' ']);
    let whole = extended(s, segment_id, start_frame, end_frame, piece);
    if s.text.len() == 0 {
        assert(whole.text =~= piece);
    }
}

/// A segment whose text is a whole sentence is final at once: when nothing was pending and the
/// text, without the white space around it, ends in a full stop, a question mark or an exclamation
/// mark, the text is reported as final, with the segment's number and frames, and nothing stays
/// pending.
pub proof fn a_whole_sentence_is_final_at_once<S: Copy>(
    before: ParakeetUnifiedAnalyzer<S>,
    after: ParakeetUnifiedAnalyzer<S>,
    segment_id: u64,
    start_frame: u64,
    end_frame: u64,
    text: Seq<char>,
)
    requires
        takes_text(before, after, segment_id, start_frame, end_frame, text),
        before.pending_sentence@.len() == 0,
        crate::text::trim_seq(text).len() > 0,
        ({
            let mark = crate::text::trim_seq(text).last();
            mark == '.' || mark == '?' || mark == '!'
        }),
    ensures
        after.pending_sentence@.len() == 0,
        after.pending@.len() == before.pending@.len() + 3,
        after.pending@[before.pending@.len() + 1int] matches MediaEvent::TranscriptFinal {
            segment_id: id,
            start_frame: s,
            end_frame: e,
            text: t,
            ..
        } && id == segment_id && s == start_frame && e == end_frame && t@ == crate::text::trim_seq(
            text,
        ),
        after.pending@[before.pending@.len() + 2int] matches MediaEvent::TranscriptPartial {
            text: t,
            ..
        } && t@.len() == 0,
{
    let piece = crate::text::trim_seq(text);
    crate::text::trimming_strips_the_ends(text);
    crate::text::trimming_strips_the_ends(crate::text::trim_start_seq(text));
    let head = crate::text::trim_start_seq(text);
    assert(piece[0] == head[0]);
    pieces_are_kept_apart(before.sentence(), segment_id, start_frame, end_frame, piece);
    let s = extended(before.sentence(), segment_id, start_frame, end_frame, piece);
    assert(s.text == piece);
    let note = TextEvent::Note {
        start_frame,
        end_frame,
        key: "parakeet.transcript"@,
        value: "segment "@ + crate::text::decimal(segment_id as nat) + ": "@ + piece,
    };
    let (completed, rest) = choose|completed: Seq<char>, rest: Seq<char>|
        {
            &&& #[trigger] is_split(s.text, (completed, rest))
            &&& after.sentence() == remaining(s, segment_id, end_frame, completed, rest)
            &&& adds(
                before.pending@,
                after.pending@,
                segment_events(s, segment_id, end_frame, note, completed, rest),
                before.stream_id,
            )
        };
    a_mark_completes_what_stands_before(piece, (completed, rest), piece.len() - 1);
    lemma_whole_split(piece, (completed, rest));
    let events = segment_events(s, segment_id, end_frame, note, completed, rest);
    assert(events.len() == 3);
    assert(shows(after.pending@[before.pending@.len() + 1int], events[1], before.stream_id));
    assert(shows(after.pending@[before.pending@.len() + 2int], events[2], before.stream_id));
}

proof fn lemma_whole_split(s: Seq<char>, parts: (Seq<char>, Seq<char>))
    requires
        is_split(s, parts),
        s.len() > 0,
        s.last() == '.' || s.last() == '?' || s.last() == '!',
        !crate::text::white_space(s[0]),
    ensures
        parts.0 == s,
{
    assert(sentence_ends_at(s, s.len() - 1));
    let end = choose|end: int| #[trigger]
        is_last_end(s, end) && parts.0 == crate::text::trim_seq(s.take(end)) && parts.1
            == crate::text::trim_start_seq(s.skip(end));
    assert(end == s.len()) by {
        if end < s.len() {
            assert(!sentence_ends_at(s, s.len() - 1));
        }
    }
    assert(s.take(end) =~= s);
    crate::text::trimming_keeps_solid_ends(s);
}

/// A text without any mark that ends a sentence is not final: it is reported as partial, all of
/// it, and stays pending.
pub proof fn an_unfinished_text_stays_pending<S: Copy>(
    before: ParakeetUnifiedAnalyzer<S>,
    after: ParakeetUnifiedAnalyzer<S>,
    segment_id: u64,
    start_frame: u64,
    end_frame: u64,
    text: Seq<char>,
)
    requires
        takes_text(before, after, segment_id, start_frame, end_frame, text),
        before.pending_sentence@.len() == 0,
        crate::text::trim_seq(text).len() > 0,
        forall|i: int|
            0 <= i < crate::text::trim_seq(text).len() ==> #[trigger] crate::text::trim_seq(text)[i]
                != '.' && crate::text::trim_seq(text)[i] != '?' && crate::text::trim_seq(text)[i]
                != '!',
    ensures
        after.pending_sentence@ == crate::text::trim_seq(text),
        after.pending_sentence_start_segment == Some(segment_id),
        after.pending_sentence_start_frame == start_frame,
        after.pending_sentence_end_frame == end_frame,
        after.pending@.len() == before.pending@.len() + 2,
        after.pending@.last() matches MediaEvent::TranscriptPartial {
            segment_id: id,
            start_frame: s,
            end_frame: e,
            text: t,
            ..
        } && id == segment_id && s == start_frame && e == end_frame && t@ == crate::text::trim_seq(
            text,
        ),
{
    let piece = crate::text::trim_seq(text);
    crate::text::trimming_strips_the_ends(text);
    crate::text::trimming_strips_the_ends(crate::text::trim_start_seq(text));
    assert(piece[0] == crate::text::trim_start_seq(text)[0]);
    pieces_are_kept_apart(before.sentence(), segment_id, start_frame, end_frame, piece);
    let s = extended(before.sentence(), segment_id, start_frame, end_frame, piece);
    assert(s.text == piece);
    let note = TextEvent::Note {
        start_frame,
        end_frame,
        key: "parakeet.transcript"@,
        value: "segment "@ + crate::text::decimal(segment_id as nat) + ": "@ + piece,
    };
    let (completed, rest) = choose|completed: Seq<char>, rest: Seq<char>|
        {
            &&& #[trigger] is_split(s.text, (completed, rest))
            &&& after.sentence() == remaining(s, segment_id, end_frame, completed, rest)
            &&& adds(
                before.pending@,
                after.pending@,
                segment_events(s, segment_id, end_frame, note, completed, rest),
                before.stream_id,
            )
        };
    marks_inside_words_complete_nothing(piece, (completed, rest));
    let events = segment_events(s, segment_id, end_frame, note, completed, rest);
    assert(events.len() == 2);
    assert(shows(after.pending@[before.pending@.len() + 1int], events[1], before.stream_id));
    assert(after.sentence().text == after.pending_sentence@);
    assert(after.sentence().start_segment == after.pending_sentence_start_segment);
}

/// A pause ends the sentence: what is pending is reported as final, from where it started to the
/// end, without the white space around it, and nothing stays pending; where there is only white
/// space, nothing is reported.
pub proof fn a_pause_ends_the_sentence<S: Copy>(
    before: ParakeetUnifiedAnalyzer<S>,
    after: ParakeetUnifiedAnalyzer<S>,
    end_frame: u64,
)
    requires
        flushes(before, after, end_frame),
    ensures
        after.pending_sentence@.len() == 0,
        ({
            let text = crate::text::trim_seq(before.pending_sentence@);
            &&& text.len() == 0 ==> after.pending@ == before.pending@
            &&& text.len() > 0 ==> {
                &&& after.pending@.len() == before.pending@.len() + 2
                &&& after.pending@[before.pending@.len() as int] matches
                    MediaEvent::TranscriptFinal { start_frame, end_frame: e, text: t, .. } && t@
                    == text && start_frame == before.pending_sentence_start_frame && e >= end_frame
                    && e >= before.pending_sentence_end_frame && (e == end_frame || e
                    == before.pending_sentence_end_frame)
                &&& after.pending@.last() matches MediaEvent::TranscriptPartial { text: t, .. }
                    && t@.len() == 0
            }
        }),
{
    let s = before.sentence();
    let text = crate::text::trim_seq(s.text);
    assert(after.sentence().text == after.pending_sentence@);
    if text.len() == 0 {
        assert(after.pending@ =~= before.pending@);
    } else {
        let id = or_else(s.start_segment, before.segment_id);
        let end = later(s.end_frame, end_frame);
        let events = seq![
            TextEvent::Final { segment_id: id, start_frame: s.start_frame, end_frame: end, text },
            TextEvent::Partial {
                segment_id: id,
                start_frame: end,
                end_frame: end,
                text: Seq::empty(),
            },
        ];
        assert(adds(before.pending@, after.pending@, events, before.stream_id));
        assert(shows(after.pending@[before.pending@.len() + 0int], events[0], before.stream_id));
        assert(shows(after.pending@[before.pending@.len() + 1int], events[1], before.stream_id));
    }
}

/// A segment covers as much time at the input's rate as its samples do at the model's, one frame
/// at least; and what lies beyond the largest frame ends there.
pub proof fn a_segment_covers_its_time(count: nat, input_rate_hz: u32, sample_rate_hz: u32, start: u64)
    requires
        sample_rate_hz > 0,
    ensures
        ({
            let frames = input_frames(count, input_rate_hz, sample_rate_hz);
            &&& frames >= 1
            &&& count * input_rate_hz >= sample_rate_hz ==> frames * sample_rate_hz <= count
                * input_rate_hz < (frames + 1) * sample_rate_hz
            &&& input_rate_hz == sample_rate_hz && count > 0 ==> frames == count
            &&& start + frames <= u64::MAX ==> frame_after(start, frames) == start + frames
            &&& frame_after(start, frames) <= u64::MAX
        }),
{
    let whole = count * input_rate_hz as nat;
    let rate = sample_rate_hz as nat;
    let n = whole / rate;
    assert(n * rate <= whole && whole < (n + 1) * rate) by (nonlinear_arith)
        requires
            rate > 0,
            n == whole / rate,
    ;
    assert(whole >= rate ==> n >= 1) by (nonlinear_arith)
        requires
            rate > 0,
            whole < (n + 1) * rate,
    ;
    if input_rate_hz == sample_rate_hz {
        assert(n == count) by (nonlinear_arith)
            requires
                n == whole / rate,
                whole == count * rate,
                rate > 0,
        ;
    }
}

/// One frame in mono is the mean of all its channels, where what is missing of it counts as zero:
/// counted in whole numbers, the channels' number times the sample is the sum of the frame.
pub proof fn a_mono_frame_is_the_mean<S, G, M: MixMath<S, G>>(
    m: M,
    data: Seq<S>,
    frame: int,
    channels: int,
    zero: S,
    r: S,
    worth: spec_fn(S) -> int,
    weight: spec_fn(G) -> int,
    mean: int,
)
    requires
        is_mono_frame::<S, G, M>(m, data, frame, channels, zero, r),
        crate::mixdown::counts::<S, G, M>(m, worth, weight),
        0 < channels <= u16::MAX,
        frame >= 0,
        (frame + 1) * channels <= data.len(),
        crate::mixdown::total(
            Seq::new(channels as nat, |c: int| worth(data[frame * channels + c])),
        ) == channels * mean,
    ensures
        worth(r) == mean,
{
    let xs = padded_frame(data, frame, channels, zero);
    let sum = choose|sum: S| #[trigger]
        crate::mixdown::is_sum::<S, G, M>(m, xs, sum) && call_ensures(
            M::mean,
            (&m, sum, channels as u32),
            r,
        );
    crate::mixdown::a_sum_counts::<S, G, M>(m, xs, sum, worth, weight);
    assert((frame + 1) * channels == frame * channels + channels && frame * channels >= 0)
        by (nonlinear_arith)
        requires
            frame >= 0,
            channels > 0,
    ;
    assert(Seq::new(xs.len(), |i: int| worth(xs[i])) =~= Seq::new(
        channels as nat,
        |c: int| worth(data[frame * channels + c]),
    ));
    let count = channels as u32;
    assert(worth(sum) == count * mean);
}

/// The worker is ready once it says so, and stays so: no other message changes that, and no
/// message takes it back.
pub proof fn the_worker_is_ready_when_it_says_so<S: Copy>(
    before: ParakeetUnifiedAnalyzer<S>,
    after: ParakeetUnifiedAnalyzer<S>,
    m: WorkerMessage,
)
    requires
        takes_message(before, after, m),
    ensures
        m is Ready ==> after.worker_ready,
        !(m is Ready) ==> after.worker_ready == before.worker_ready,
        before.worker_ready ==> after.worker_ready,
        after.segment_id == before.segment_id,
        after.resampled_buffer == before.resampled_buffer,
        after.buffered_start_frame == before.buffered_start_frame,
{
}

/// What the worker says is passed on: a state and an error become an event with their words; a
/// line of its error output too, unless it holds one of the known fragments of noise, which is
/// dropped. None of them touches the pending sentence.
pub proof fn what_the_worker_says_is_passed_on<S: Copy>(
    before: ParakeetUnifiedAnalyzer<S>,
    after: ParakeetUnifiedAnalyzer<S>,
    m: WorkerMessage,
)
    requires
        takes_message(before, after, m),
        !(m is Final),
    ensures
        after.pending_sentence@ == before.pending_sentence@,
        m matches WorkerMessage::Status(t) ==> after.pending@.len() == before.pending@.len() + 1 && (
        after.pending@.last() matches MediaEvent::AttributeDetected { key, value, .. } && key@
            == "parakeet.status"@ && value@ == t@),
        m matches WorkerMessage::Error(t) ==> after.pending@.len() == before.pending@.len() + 1 && (
        after.pending@.last() matches MediaEvent::AttributeDetected { key, value, .. } && key@
            == "parakeet.error"@ && value@ == t@),
        m matches WorkerMessage::Stderr(t) ==> {
            let noise = crate::text::contains_seq(t@, "dataloader:826"@)
                || crate::text::contains_seq(t@, "dataloader:523"@) || crate::text::contains_seq(
                t@,
                "Transcribing: 0it"@,
            ) || crate::text::contains_seq(t@, "Transcribing: 1it"@);
            &&& noise ==> after.pending@ == before.pending@
            &&& !noise ==> after.pending@.len() == before.pending@.len() + 1 && (
            after.pending@.last() matches MediaEvent::AttributeDetected { key, value, .. } && key@
                == "parakeet.stderr"@ && value@ == t@)
        },
{
    assert(after.sentence().text == after.pending_sentence@);
    match message_event(m) {
        Some(e) => {
            let events = seq![e];
            assert(adds(before.pending@, after.pending@, events, before.stream_id));
            assert(shows(after.pending@[before.pending@.len() + 0int], events[0], before.stream_id));
        },
        None => {
            assert(after.pending@ =~= before.pending@);
        },
    }
}

} // verus!
