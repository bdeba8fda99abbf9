//! Errors surfaced by the recording session and sinks.

use vstd::prelude::*;

use crate::format::AudioFormat;
use crate::text::{push_decimal, push_text};

verus! {

/// Errors surfaced by the recording session and sinks.
#[derive(Debug)]
pub enum RecordingError {
    Device(String),
    RawRingFull(u64),
    ProcessedRingFull(u64),
    Io(String),
    Wav(String),
    FormatMismatch { expected: AudioFormat, got: AudioFormat },
    Plugin(String),
    PluginTimeout,
    AlreadyStopped,
    Config(String),
}

/// The library's result type.
pub type Result<T> = std::result::Result<T, RecordingError>;

impl RecordingError {
    /// The text of [`RecordingError::message`].
    pub open spec fn text(self) -> Seq<char> {
        match self {
            RecordingError::Device(e) => "device error: "@ + e@,
            RecordingError::RawRingFull(n) => "ring buffer full (raw path); frames dropped: "@
                + crate::text::decimal(n as nat),
            RecordingError::ProcessedRingFull(n) =>
            "ring buffer full (processed path); frames dropped: "@ + crate::text::decimal(n as nat),
            RecordingError::Io(e) => "encode / I/O error: "@ + e@,
            RecordingError::Wav(e) => "wav: "@ + e@,
            RecordingError::FormatMismatch { expected, got } => "format mismatch: expected "@
                + expected.text() + ", got "@ + got.text(),
            RecordingError::Plugin(e) => "plugin processing failed: "@ + e@,
            RecordingError::PluginTimeout => "plugin time budget exceeded (frame bypassed)"@,
            RecordingError::AlreadyStopped => "session already stopped"@,
            RecordingError::Config(e) => "invalid configuration: "@ + e@,
        }
    }

    /// The error in words.
    pub fn message(&self) -> (s: String)
        ensures
            s@ == self.text(),
    {
        let mut s = String::new();
        match self {
            RecordingError::Device(e) => {
                push_text(&mut s, "device error: ");
                push_text(&mut s, e.as_str());
            },
            RecordingError::RawRingFull(n) => {
                push_text(&mut s, "ring buffer full (raw path); frames dropped: ");
                push_decimal(&mut s, *n);
            },
            RecordingError::ProcessedRingFull(n) => {
                push_text(&mut s, "ring buffer full (processed path); frames dropped: ");
                push_decimal(&mut s, *n);
            },
            RecordingError::Io(e) => {
                push_text(&mut s, "encode / I/O error: ");
                push_text(&mut s, e.as_str());
            },
            RecordingError::Wav(e) => {
                push_text(&mut s, "wav: ");
                push_text(&mut s, e.as_str());
            },
            RecordingError::FormatMismatch { expected, got } => {
                push_text(&mut s, "format mismatch: expected ");
                expected.push_to(&mut s);
                push_text(&mut s, ", got ");
                got.push_to(&mut s);
            },
            RecordingError::Plugin(e) => {
                push_text(&mut s, "plugin processing failed: ");
                push_text(&mut s, e.as_str());
            },
            RecordingError::PluginTimeout => {
                push_text(&mut s, "plugin time budget exceeded (frame bypassed)");
            },
            RecordingError::AlreadyStopped => {
                push_text(&mut s, "session already stopped");
            },
            RecordingError::Config(e) => {
                push_text(&mut s, "invalid configuration: ");
                push_text(&mut s, e.as_str());
            },
        }
        assert(s@ =~= self.text());
        s
    }

    /// A configuration error with the message `text`.
    pub fn config(text: &str) -> (e: Self)
        ensures
            e is Config,
            e->Config_0@ == text@,
    {
        RecordingError::Config(text.to_owned())
    }

    /// A plugin error with the message `text`.
    pub fn plugin(text: &str) -> (e: Self)
        ensures
            e is Plugin,
            e->Plugin_0@ == text@,
    {
        RecordingError::Plugin(text.to_owned())
    }

    /// A device error with the message `text`.
    pub fn device(text: &str) -> (e: Self)
        ensures
            e is Device,
            e->Device_0@ == text@,
    {
        RecordingError::Device(text.to_owned())
    }
}

} // verus!
