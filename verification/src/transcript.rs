//! What the analyzers' events show: status messages and the lines of the transcript.

use vstd::prelude::*;

use crate::events::MediaEvent;
use crate::text::{
    chars_of, owned, push_chars, push_decimal, push_text, starts_with_chars, string_of, trim_chars,
};

verus! {

/// How many status messages are kept.
pub const MAX_EVENTS: usize = 100;

/// How many lines of the transcript are kept.
pub const MAX_TRANSCRIPT_LINES: usize = 200;

/// What marks the line of a sentence that is still being heard.
pub const PARTIAL_PREFIX: &'static str = "… ";

/// How levels and confidences are shown.
pub trait EventNumbers<F> {
    /// A level, with three decimals.
    fn level(&self, value: &F) -> String;

    /// A share of one, in whole percent without the sign.
    fn percent(&self, value: &F) -> String;
}

/// "start-end".
pub open spec fn span_text(start: u64, end: u64) -> Seq<char> {
    crate::text::decimal(start as nat) + "-"@ + crate::text::decimal(end as nat)
}

/// The speaker in front of a transcript, if it is known.
pub open spec fn speaker_mark(speaker: Option<String>) -> Seq<char> {
    match speaker {
        Some(s) => "["@ + s@ + "] "@,
        None => Seq::empty(),
    }
}

/// A confidence behind an attribute, if there is one.
pub open spec fn confidence_mark<F>(confidence: Option<F>, percent: Seq<char>) -> Seq<char> {
    match confidence {
        Some(_) => " conf "@ + percent + "%"@,
        None => Seq::empty(),
    }
}

/// An event in words, with its level and confidence already in text.
pub open spec fn event_text<F>(e: MediaEvent<F>, level: Seq<char>, percent: Seq<char>) -> Seq<
    char,
> {
    match e {
        MediaEvent::VoiceActivity { start_frame, end_frame, active, .. } => "Voice "@ + (
        if active {
            "active"@
        } else {
            "inactive"@
        }) + " frames "@ + span_text(start_frame, end_frame) + " level "@ + level + " conf "@
            + percent + "%"@,
        MediaEvent::SpeakerSegment { start_frame, end_frame, speaker_id, .. } => "Speaker "@
            + speaker_id@ + " frames "@ + span_text(start_frame, end_frame) + " conf "@ + percent
            + "%"@,
        MediaEvent::TranscriptPartial { start_frame, end_frame, speaker_id, text, .. } =>
        "Partial "@ + speaker_mark(speaker_id) + "frames "@ + span_text(start_frame, end_frame)
            + ": "@ + text@,
        MediaEvent::TranscriptFinal { start_frame, end_frame, speaker_id, text, .. } => "Final "@
            + speaker_mark(speaker_id) + "frames "@ + span_text(start_frame, end_frame) + ": "@
            + text@,
        MediaEvent::AttributeDetected { start_frame, end_frame, key, value, confidence, .. } => {
            if start_frame == 0 && end_frame == 0 {
                key@ + ": "@ + value@ + confidence_mark(confidence, percent)
            } else {
                key@ + ": "@ + value@ + " frames "@ + span_text(start_frame, end_frame)
                    + confidence_mark(confidence, percent)
            }
        },
        MediaEvent::PluginParameterChanged { plugin_id, parameter_id, value, .. } => "Plugin "@
            + plugin_id@ + " parameter "@ + parameter_id@ + " changed to "@ + value@,
    }
}

fn push_span(out: &mut String, start: u64, end: u64)
    ensures
        final(out)@ == old(out)@ + span_text(start, end),
{
    push_decimal(out, start);
    push_text(out, "-");
    push_decimal(out, end);
    assert(out@ =~= old(out)@ + span_text(start, end));
}

fn push_voice(out: &mut String, start: u64, end: u64, active: bool, level: &str, percent: &str)
    ensures
        final(out)@ == old(out)@ + ("Voice "@ + (if active {
            "active"@
        } else {
            "inactive"@
        }) + " frames "@ + span_text(start, end) + " level "@ + level@ + " conf "@ + percent@
            + "%"@),
{
    push_text(out, "Voice ");
    push_text(
        out,
        if active {
            "active"
        } else {
            "inactive"
        },
    );
    push_text(out, " frames ");
    push_span(out, start, end);
    let ghost head = old(out)@ + ("Voice "@ + (if active {
        "active"@
    } else {
        "inactive"@
    }) + " frames "@ + span_text(start, end));
    assert(out@ =~= head);
    push_text(out, " level ");
    push_text(out, level);
    push_text(out, " conf ");
    push_text(out, percent);
    push_text(out, "%");
    assert(out@ =~= old(out)@ + ("Voice "@ + (if active {
        "active"@
    } else {
        "inactive"@
    }) + " frames "@ + span_text(start, end) + " level "@ + level@ + " conf "@ + percent@
        + "%"@));
}

fn push_transcript(
    out: &mut String,
    head: &str,
    speaker: &Option<String>,
    start: u64,
    end: u64,
    text: &str,
)
    ensures
        final(out)@ == old(out)@ + (head@ + speaker_mark(*speaker) + "frames "@ + span_text(
            start,
            end,
        ) + ": "@ + text@),
{
    push_text(out, head);
    match speaker {
        Some(s) => {
            push_text(out, "[");
            push_text(out, s.as_str());
            push_text(out, "] ");
        },
        None => {},
    }
    assert(out@ =~= old(out)@ + (head@ + speaker_mark(*speaker)));
    push_text(out, "frames ");
    push_span(out, start, end);
    push_text(out, ": ");
    push_text(out, text);
    assert(out@ =~= old(out)@ + (head@ + speaker_mark(*speaker) + "frames "@ + span_text(
        start,
        end,
    ) + ": "@ + text@));
}

fn push_attribute<F>(
    out: &mut String,
    start: u64,
    end: u64,
    key: &str,
    value: &str,
    confidence: &Option<F>,
    percent: &str,
)
    ensures
        final(out)@ == old(out)@ + (if start == 0 && end == 0 {
            key@ + ": "@ + value@ + confidence_mark(*confidence, percent@)
        } else {
            key@ + ": "@ + value@ + " frames "@ + span_text(start, end) + confidence_mark(
                *confidence,
                percent@,
            )
        }),
{
    push_text(out, key);
    push_text(out, ": ");
    push_text(out, value);
    if !(start == end && start == 0) {
        push_text(out, " frames ");
        push_span(out, start, end);
    }
    let ghost head = out@;
    match confidence {
        Some(_) => {
            push_text(out, " conf ");
            push_text(out, percent);
            push_text(out, "%");
        },
        None => {},
    }
    assert(out@ =~= head + confidence_mark(*confidence, percent@));
    assert(out@ =~= old(out)@ + (if start == 0 && end == 0 {
        key@ + ": "@ + value@ + confidence_mark(*confidence, percent@)
    } else {
        key@ + ": "@ + value@ + " frames "@ + span_text(start, end) + confidence_mark(
            *confidence,
            percent@,
        )
    }));
}

/// An event in words, with its level and confidence already in text.
pub fn describe_with<F>(event: &MediaEvent<F>, level: &str, percent: &str) -> (s: String)
    ensures
        s@ == event_text(*event, level@, percent@),
{
    let mut s = String::new();
    match event {
        MediaEvent::VoiceActivity { start_frame, end_frame, active, .. } => {
            push_voice(&mut s, *start_frame, *end_frame, *active, level, percent);
        },
        MediaEvent::SpeakerSegment { start_frame, end_frame, speaker_id, .. } => {
            push_text(&mut s, "Speaker ");
            push_text(&mut s, speaker_id.as_str());
            push_text(&mut s, " frames ");
            push_span(&mut s, *start_frame, *end_frame);
            push_text(&mut s, " conf ");
            push_text(&mut s, percent);
            push_text(&mut s, "%");
        },
        MediaEvent::TranscriptPartial { start_frame, end_frame, speaker_id, text, .. } => {
            push_transcript(
                &mut s,
                "Partial ",
                speaker_id,
                *start_frame,
                *end_frame,
                text.as_str(),
            );
        },
        MediaEvent::TranscriptFinal { start_frame, end_frame, speaker_id, text, .. } => {
            push_transcript(
                &mut s,
                "Final ",
                speaker_id,
                *start_frame,
                *end_frame,
                text.as_str(),
            );
        },
        MediaEvent::AttributeDetected { start_frame, end_frame, key, value, confidence, .. } => {
            push_attribute(
                &mut s,
                *start_frame,
                *end_frame,
                key.as_str(),
                value.as_str(),
                confidence,
                percent,
            );
        },
        MediaEvent::PluginParameterChanged { plugin_id, parameter_id, value, .. } => {
            push_text(&mut s, "Plugin ");
            push_text(&mut s, plugin_id.as_str());
            push_text(&mut s, " parameter ");
            push_text(&mut s, parameter_id.as_str());
            push_text(&mut s, " changed to ");
            push_text(&mut s, value.as_str());
        },
    }
    assert(s@ =~= event_text(*event, level@, percent@));
    s
}

/// The level and the confidence of an event in text, where it has them.
pub open spec fn numbers_shown<F, N: EventNumbers<F>>(
    n: &N,
    e: MediaEvent<F>,
    level: String,
    percent: String,
) -> bool {
    match e {
        MediaEvent::VoiceActivity { level: v, confidence, .. } => {
            &&& call_ensures(N::level, (n, &v), level)
            &&& call_ensures(N::percent, (n, &confidence), percent)
        },
        MediaEvent::SpeakerSegment { confidence, .. } => call_ensures(
            N::percent,
            (n, &confidence),
            percent,
        ),
        MediaEvent::AttributeDetected { confidence: Some(c), .. } => call_ensures(
            N::percent,
            (n, &c),
            percent,
        ),
        _ => true,
    }
}

/// The text shows the event.
pub open spec fn describes<F, N: EventNumbers<F>>(
    n: &N,
    e: MediaEvent<F>,
    text: Seq<char>,
) -> bool {
    exists|level: String, percent: String| #[trigger]
        numbers_shown(n, e, level, percent) && text == event_text(e, level@, percent@)
}

/// An event in words.
pub fn describe_media_event<F, N: EventNumbers<F>>(n: &N, event: &MediaEvent<F>) -> (s: String)
    ensures
        describes(n, *event, s@),
{
    let mut level = String::new();
    let mut percent = String::new();
    match event {
        MediaEvent::VoiceActivity { level: v, confidence, .. } => {
            level = n.level(v);
            percent = n.percent(confidence);
        },
        MediaEvent::SpeakerSegment { confidence, .. } => {
            percent = n.percent(confidence);
        },
        MediaEvent::AttributeDetected { confidence: Some(c), .. } => {
            percent = n.percent(c);
        },
        _ => {},
    }
    let s = describe_with(event, level.as_str(), percent.as_str());
    assert(numbers_shown(n, *event, level, percent));
    s
}

/// What an event adds to the log.
#[derive(Debug)]
pub enum LogEntry {
    /// The sentence that is being heard.
    Partial(String),
    /// A finished sentence.
    Finished(String),
    /// A status message.
    Note(String),
}

/// What the event adds to the log.
pub open spec fn is_entry<F, N: EventNumbers<F>>(n: &N, e: MediaEvent<F>, entry: LogEntry) -> bool {
    match e {
        MediaEvent::TranscriptPartial { text, .. } => entry matches LogEntry::Partial(t) && t@
            == text@,
        MediaEvent::TranscriptFinal { text, .. } => entry matches LogEntry::Finished(t) && t@
            == text@,
        _ => entry matches LogEntry::Note(t) && describes(n, e, t@),
    }
}

/// What the event adds to the log.
pub fn log_entry<F, N: EventNumbers<F>>(n: &N, event: &MediaEvent<F>) -> (entry: LogEntry)
    ensures
        is_entry(n, *event, entry),
{
    match event {
        MediaEvent::TranscriptPartial { text, .. } => LogEntry::Partial(owned(text.as_str())),
        MediaEvent::TranscriptFinal { text, .. } => LogEntry::Finished(owned(text.as_str())),
        _ => LogEntry::Note(describe_media_event(n, event)),
    }
}

/// The last line is a sentence that is still being heard.
pub open spec fn last_is_partial(lines: Seq<Seq<char>>) -> bool {
    lines.len() > 0 && crate::text::starts_with_seq(lines.last(), PARTIAL_PREFIX@)
}

/// The lines with `line` at the end, in place of a sentence that is still being heard.
pub open spec fn with_line(lines: Seq<Seq<char>>, line: Seq<char>) -> Seq<Seq<char>> {
    if last_is_partial(lines) {
        lines.drop_last().push(line)
    } else {
        lines.push(line)
    }
}

/// The lines of the transcript after an entry.
pub open spec fn lines_after(lines: Seq<Seq<char>>, entry: LogEntry) -> Seq<Seq<char>> {
    match entry {
        LogEntry::Partial(text) => {
            let said = crate::text::trim_seq(text@);
            if said.len() > 0 {
                with_line(lines, PARTIAL_PREFIX@ + said)
            } else if last_is_partial(lines) {
                lines.drop_last()
            } else {
                lines
            }
        },
        LogEntry::Finished(text) => {
            let said = crate::text::trim_seq(text@);
            if said.len() > 0 {
                with_line(lines, said)
            } else {
                lines
            }
        },
        LogEntry::Note(_) => lines,
    }
}

/// The lines of the transcript after some entries.
pub open spec fn all_lines_after(lines: Seq<Seq<char>>, entries: Seq<LogEntry>) -> Seq<Seq<char>>
    decreases entries.len(),
{
    if entries.len() == 0 {
        lines
    } else {
        lines_after(all_lines_after(lines, entries.drop_last()), entries.last())
    }
}

/// The status messages among some entries.
pub open spec fn notes(entries: Seq<LogEntry>) -> Seq<Seq<char>>
    decreases entries.len(),
{
    if entries.len() == 0 {
        Seq::empty()
    } else {
        match entries.last() {
            LogEntry::Note(text) => notes(entries.drop_last()).push(text@),
            _ => notes(entries.drop_last()),
        }
    }
}

/// The last `n` items, or all where there are fewer.
pub open spec fn last_items<A>(s: Seq<A>, n: nat) -> Seq<A> {
    if s.len() > n {
        s.skip(s.len() - n)
    } else {
        s
    }
}

/// The texts of some strings.
pub open spec fn texts(v: Seq<String>) -> Seq<Seq<char>> {
    v.map_values(|s: String| s@)
}

fn keep_last(v: &mut Vec<String>, n: usize)
    ensures
        texts(final(v)@) == last_items(texts(old(v)@), n as nat),
{
    let ghost all = v@;
    while v.len() > n
        invariant
            v@.len() <= all.len(),
            v@ == all.skip(all.len() - v@.len()),
            all.len() >= n ==> v@.len() >= n,
            all.len() < n ==> v@.len() == all.len(),
        decreases v@.len(),
    {
        let ghost before = v@;
        v.remove(0);
        assert(v@ =~= before.skip(1));
        assert(v@ =~= all.skip(all.len() - v@.len()));
    }
    assert(texts(v@) =~= last_items(texts(all), n as nat));
}

/// The status messages and the transcript that are shown.
#[derive(Debug)]
pub struct TranscriptLog {
    pub analysis_events: Vec<String>,
    pub transcript_lines: Vec<String>,
}

impl TranscriptLog {
    /// An empty log.
    pub fn new() -> (l: Self)
        ensures
            l.analysis_events@ == Seq::<String>::empty(),
            l.transcript_lines@ == Seq::<String>::empty(),
    {
        TranscriptLog { analysis_events: Vec::new(), transcript_lines: Vec::new() }
    }

    /// The log stays within its limits.
    pub open spec fn bounded(self) -> bool {
        &&& self.analysis_events@.len() <= MAX_EVENTS
        &&& self.transcript_lines@.len() <= MAX_TRANSCRIPT_LINES
    }

    fn partial_is_last(&self) -> (r: bool)
        ensures
            r == last_is_partial(texts(self.transcript_lines@)),
    {
        let n: usize = self.transcript_lines.len();
        if n == 0 {
            return false;
        }
        let line = chars_of(self.transcript_lines[n - 1].as_str());
        starts_with_chars(&line, &chars_of(PARTIAL_PREFIX))
    }

    fn put_line(&mut self, line: String)
        ensures
            texts(final(self).transcript_lines@) == with_line(
                texts(old(self).transcript_lines@),
                line@,
            ),
            final(self).analysis_events == old(self).analysis_events,
    {
        let ghost before = self.transcript_lines@;
        if self.partial_is_last() {
            self.transcript_lines.pop();
        }
        self.transcript_lines.push(line);
        assert(texts(self.transcript_lines@) =~= with_line(texts(before), line@));
    }

    /// Takes in one entry.
    fn take(&mut self, entry: &LogEntry)
        ensures
            texts(final(self).transcript_lines@) == lines_after(
                texts(old(self).transcript_lines@),
                *entry,
            ),
            texts(final(self).analysis_events@) == match *entry {
                LogEntry::Note(text) => texts(old(self).analysis_events@).push(text@),
                _ => texts(old(self).analysis_events@),
            },
    {
        let ghost before = *self;
        match entry {
            LogEntry::Partial(text) => {
                let said = trim_chars(&chars_of(text.as_str()));
                if said.len() == 0 {
                    if self.partial_is_last() {
                        self.transcript_lines.pop();
                    }
                    assert(texts(self.transcript_lines@) =~= lines_after(
                        texts(before.transcript_lines@),
                        *entry,
                    ));
                } else {
                    let mut line = String::new();
                    push_text(&mut line, PARTIAL_PREFIX);
                    push_chars(&mut line, &said);
                    assert(line@ =~= PARTIAL_PREFIX@ + said@);
                    self.put_line(line);
                }
            },
            LogEntry::Finished(text) => {
                let said = trim_chars(&chars_of(text.as_str()));
                if said.len() != 0 {
                    self.put_line(string_of(&said));
                }
            },
            LogEntry::Note(text) => {
                self.analysis_events.push(owned(text.as_str()));
                assert(texts(self.analysis_events@) =~= texts(before.analysis_events@).push(text@));
            },
        }
    }

    /// Takes in some entries; the oldest messages and lines go where there are too many.
    pub fn take_all(&mut self, entries: &Vec<LogEntry>)
        ensures
            texts(final(self).transcript_lines@) == last_items(
                all_lines_after(texts(old(self).transcript_lines@), entries@),
                MAX_TRANSCRIPT_LINES as nat,
            ),
            texts(final(self).analysis_events@) == last_items(
                texts(old(self).analysis_events@) + notes(entries@),
                MAX_EVENTS as nat,
            ),
            final(self).bounded(),
    {
        let ghost before = *self;
        let mut i: usize = 0;
        assert(texts(before.analysis_events@) + notes(entries@.take(0)) =~= texts(
            before.analysis_events@,
        ));
        while i < entries.len()
            invariant
                i <= entries.len(),
                texts(self.transcript_lines@) == all_lines_after(
                    texts(before.transcript_lines@),
                    entries@.take(i as int),
                ),
                texts(self.analysis_events@) == texts(before.analysis_events@) + notes(
                    entries@.take(i as int),
                ),
            decreases entries.len() - i,
        {
            assert(entries@.take(i + 1).drop_last() =~= entries@.take(i as int));
            self.take(&entries[i]);
            assert(texts(self.analysis_events@) =~= texts(before.analysis_events@) + notes(
                entries@.take(i + 1),
            ));
            i += 1;
        }
        assert(entries@.take(entries.len() as int) =~= entries@);
        keep_last(&mut self.analysis_events, MAX_EVENTS);
        keep_last(&mut self.transcript_lines, MAX_TRANSCRIPT_LINES);
        proof {
            let events = texts(self.analysis_events@);
            let lines = texts(self.transcript_lines@);
            assert(events.len() <= MAX_EVENTS);
            assert(lines.len() <= MAX_TRANSCRIPT_LINES);
        }
    }

    /// Takes in the events of the analyzers. The result holds what was added, in order.
    pub fn drain_media_events<F, N: EventNumbers<F>>(
        &mut self,
        n: &N,
        events: &Vec<MediaEvent<F>>,
    ) -> (entries: Vec<LogEntry>)
        ensures
            entries@.len() == events@.len(),
            forall|i: int|
                0 <= i < events@.len() ==> is_entry(n, #[trigger] events@[i], entries@[i]),
            texts(final(self).transcript_lines@) == last_items(
                all_lines_after(texts(old(self).transcript_lines@), entries@),
                MAX_TRANSCRIPT_LINES as nat,
            ),
            texts(final(self).analysis_events@) == last_items(
                texts(old(self).analysis_events@) + notes(entries@),
                MAX_EVENTS as nat,
            ),
            final(self).bounded(),
    {
        let mut entries: Vec<LogEntry> = Vec::new();
        let mut i: usize = 0;
        while i < events.len()
            invariant
                i <= events.len(),
                entries@.len() == i,
                forall|k: int| 0 <= k < i ==> is_entry(n, #[trigger] events@[k], entries@[k]),
            decreases events.len() - i,
        {
            entries.push(log_entry(n, &events[i]));
            i += 1;
        }
        self.take_all(&entries);
        entries
    }
}

/// A finished sentence stands in place of what was heard of it: the transcript is the one that it
/// alone would give.
pub proof fn finished_sentence_replaces_what_was_heard(
    lines: Seq<Seq<char>>,
    heard: String,
    said: String,
)
    requires
        crate::text::trim_seq(heard@).len() > 0,
        crate::text::trim_seq(said@).len() > 0,
    ensures
        lines_after(
            lines_after(lines, LogEntry::Partial(heard)),
            LogEntry::Finished(said),
        ) == lines_after(lines, LogEntry::Finished(said)),
{
    let line = PARTIAL_PREFIX@ + crate::text::trim_seq(heard@);
    let shown = with_line(lines, line);
    assert(line.take(PARTIAL_PREFIX@.len() as int) =~= PARTIAL_PREFIX@);
    assert(last_is_partial(shown));
    assert(lines_after(shown, LogEntry::Finished(said)) =~= lines_after(
        lines,
        LogEntry::Finished(said),
    ));
}

/// A sentence that comes to nothing leaves no trace.
pub proof fn silence_takes_back_what_was_heard(
    lines: Seq<Seq<char>>,
    heard: String,
    nothing: String,
)
    requires
        !last_is_partial(lines),
        crate::text::trim_seq(heard@).len() > 0,
        crate::text::trim_seq(nothing@).len() == 0,
    ensures
        lines_after(
            lines_after(lines, LogEntry::Partial(heard)),
            LogEntry::Partial(nothing),
        ) == lines,
{
    let line = PARTIAL_PREFIX@ + crate::text::trim_seq(heard@);
    let shown = with_line(lines, line);
    assert(line.take(PARTIAL_PREFIX@.len() as int) =~= PARTIAL_PREFIX@);
    assert(last_is_partial(shown));
    assert(shown.drop_last() =~= lines);
}

/// What is heard or said is shown as the last line, and lines that are finished stay: a part that
/// is heard adds a line that is marked as such, or takes the place of the one that is last; a
/// finished sentence adds a line of its own words, or takes that line's place; all other lines
/// stay. Other events do not show.
pub proof fn finished_lines_stay(lines: Seq<Seq<char>>, entry: LogEntry)
    ensures
        ({
            let after = lines_after(lines, entry);
            let kept = if lines.len() > 0 && crate::text::starts_with_seq(
                lines.last(),
                PARTIAL_PREFIX@,
            ) {
                lines.drop_last()
            } else {
                lines
            };
            &&& match entry {
                LogEntry::Partial(t) => if crate::text::trim_seq(t@).len() > 0 {
                    after == kept.push(PARTIAL_PREFIX@ + crate::text::trim_seq(t@))
                } else {
                    after == kept
                },
                LogEntry::Finished(t) => if crate::text::trim_seq(t@).len() > 0 {
                    after == kept.push(crate::text::trim_seq(t@))
                } else {
                    after == lines
                },
                LogEntry::Note(_) => after == lines,
            }
        }),
{
}

/// The notes are the texts of the entries that are notes, in order.
pub proof fn notes_are_kept_in_order(
    entries: Seq<LogEntry>,
    pick: spec_fn(LogEntry) -> Option<Seq<char>>,
)
    requires
        forall|e: LogEntry| #[trigger]
            pick(e) == match e {
                LogEntry::Note(t) => Some(t@),
                _ => None,
            },
    ensures
        notes(entries) == entries.filter_map(pick),
    decreases entries.len(),
{
    if entries.len() > 0 {
        notes_are_kept_in_order(entries.drop_last(), pick);
    }
    assert(notes(entries) =~= entries.filter_map(pick));
}

/// The log keeps the latest: no more than so many items, the last of them, in order.
pub proof fn the_latest_are_kept<A>(s: Seq<A>, n: nat)
    ensures
        last_items(s, n).len() == if s.len() <= n {
            s.len()
        } else {
            n
        },
        forall|i: int|
            0 <= i < last_items(s, n).len() ==> #[trigger] last_items(s, n)[i] == s[s.len()
                - last_items(s, n).len() + i],
{
}

} // verus!
