//! Setting up a recording or the live input: the steps in order, what each stream is wired to,
//! and what has to be stopped again when a step fails.

use vstd::prelude::*;

use crate::outputs::Pairing;
use crate::text::{owned, push_text};

verus! {

/// A step of setting up a recording or the live input.
#[derive(Debug, Clone, Copy, PartialEq, Eq, Structural)]
pub enum SetupStep {
    Ch1Processors,
    Ch2Processors,
    Analyzers,
    Ch1PreFile,
    Ch2PreFile,
    /// Starts the thread that runs the analyzers on the mix. It does not fail.
    MainAnalyzer,
    MainFile,
    Mixer,
    PostFile,
    Ch2PostFile,
    Mic,
    Speaker,
    LiveInput,
    LiveStream,
    LiveCh1,
    LiveCh2,
    LiveMixer,
    LiveMic,
    LiveSpeaker,
}

/// What has started by the time a step fails and is to be stopped, in this order.
#[derive(Debug, Clone, Copy, PartialEq, Eq, Structural)]
pub struct Undo {
    pub first_capture: bool,
    pub mixer: bool,
    pub analyzer: bool,
}

impl SetupStep {
    /// How the message on a failed step begins.
    pub open spec fn head(self) -> Seq<char> {
        match self {
            SetupStep::Ch1Processors => "Channel 1 processor setup failed: "@,
            SetupStep::Ch2Processors => "Channel 2 processor setup failed: "@,
            SetupStep::Analyzers => "Analyzer setup failed: "@,
            SetupStep::Ch1PreFile => "Could not open channel 1 pre output: "@,
            SetupStep::Ch2PreFile => "Could not open channel 2 pre output: "@,
            SetupStep::MainAnalyzer => "Main analyzer start failed: "@,
            SetupStep::MainFile => "Could not open main post output: "@,
            SetupStep::Mixer => "Mixer start failed: "@,
            SetupStep::PostFile => "Could not open post output: "@,
            SetupStep::Ch2PostFile => "Could not open channel 2 post output: "@,
            SetupStep::Mic => "Mic start failed: "@,
            SetupStep::Speaker => "Speaker start failed: "@,
            SetupStep::LiveInput => "Live input setup failed: "@,
            SetupStep::LiveStream => "Live input stream failed: "@,
            SetupStep::LiveCh1 => "Live channel 1 setup failed: "@,
            SetupStep::LiveCh2 => "Live channel 2 setup failed: "@,
            SetupStep::LiveMixer => "Live mixer failed: "@,
            SetupStep::LiveMic => "Live mic stream failed: "@,
            SetupStep::LiveSpeaker => "Live speaker stream failed: "@,
        }
    }

    fn head_text(self) -> (s: &'static str)
        ensures
            s@ == self.head(),
    {
        match self {
            SetupStep::Ch1Processors => "Channel 1 processor setup failed: ",
            SetupStep::Ch2Processors => "Channel 2 processor setup failed: ",
            SetupStep::Analyzers => "Analyzer setup failed: ",
            SetupStep::Ch1PreFile => "Could not open channel 1 pre output: ",
            SetupStep::Ch2PreFile => "Could not open channel 2 pre output: ",
            SetupStep::MainAnalyzer => "Main analyzer start failed: ",
            SetupStep::MainFile => "Could not open main post output: ",
            SetupStep::Mixer => "Mixer start failed: ",
            SetupStep::PostFile => "Could not open post output: ",
            SetupStep::Ch2PostFile => "Could not open channel 2 post output: ",
            SetupStep::Mic => "Mic start failed: ",
            SetupStep::Speaker => "Speaker start failed: ",
            SetupStep::LiveInput => "Live input setup failed: ",
            SetupStep::LiveStream => "Live input stream failed: ",
            SetupStep::LiveCh1 => "Live channel 1 setup failed: ",
            SetupStep::LiveCh2 => "Live channel 2 setup failed: ",
            SetupStep::LiveMixer => "Live mixer failed: ",
            SetupStep::LiveMic => "Live mic stream failed: ",
            SetupStep::LiveSpeaker => "Live speaker stream failed: ",
        }
    }

    /// The message on a failed step.
    pub fn failure(self, why: &str) -> (s: String)
        ensures
            s@ == self.head() + why@,
    {
        let mut s = owned(self.head_text());
        push_text(&mut s, why);
        s
    }
}

/// `steps`, where they are wanted.
pub open spec fn wanted(on: bool, steps: Seq<SetupStep>) -> Seq<SetupStep> {
    if on {
        steps
    } else {
        Seq::empty()
    }
}

/// The steps of a recording, in order. Nothing starts before all processors, analyzers and files
/// of the streams are ready; the microphone starts before the speaker, and where they are mixed
/// both feed a mixer that runs already.
pub open spec fn recording_order(pairing: Pairing, pre: bool, post: bool) -> Seq<SetupStep> {
    let both = pairing != Pairing::Alone;
    let mixed = pairing == Pairing::Mixed;
    seq![SetupStep::Ch1Processors] + wanted(both, seq![SetupStep::Ch2Processors]) + seq![
        SetupStep::Analyzers,
    ] + wanted(pre, seq![SetupStep::Ch1PreFile]) + wanted(
        pre && both,
        seq![SetupStep::Ch2PreFile],
    ) + wanted(mixed, seq![SetupStep::MainAnalyzer]) + wanted(
        mixed && post,
        seq![SetupStep::MainFile],
    ) + wanted(mixed, seq![SetupStep::Mixer]) + wanted(
        !mixed && post,
        seq![SetupStep::PostFile],
    ) + wanted(both && !mixed && post, seq![SetupStep::Ch2PostFile]) + seq![SetupStep::Mic]
        + wanted(both, seq![SetupStep::Speaker])
}

/// The steps of the live input, in order.
pub open spec fn live_order(mixed: bool) -> Seq<SetupStep> {
    if mixed {
        seq![
            SetupStep::LiveCh1,
            SetupStep::LiveCh2,
            SetupStep::Analyzers,
            SetupStep::MainAnalyzer,
            SetupStep::LiveMixer,
            SetupStep::LiveMic,
            SetupStep::LiveSpeaker,
        ]
    } else {
        seq![SetupStep::LiveInput, SetupStep::Analyzers, SetupStep::LiveStream]
    }
}

fn push_wanted(steps: &mut Vec<SetupStep>, on: bool, step: SetupStep)
    ensures
        final(steps)@ == old(steps)@ + wanted(on, seq![step]),
{
    if on {
        steps.push(step);
    }
    assert(steps@ =~= old(steps)@ + wanted(on, seq![step]));
}

/// What comes of a step.
#[derive(Debug)]
pub enum SetupMove {
    /// Take the next step.
    Next(SetupStep),
    /// Everything runs.
    Ready,
    /// Show the message, stop what has started, and, where a recording could not be set up, go
    /// back to the live input.
    GiveUp { status: String, undo: Undo, restart_live: bool },
}

/// A recording or a live input that is being set up.
#[derive(Debug)]
pub struct Setup {
    pub live: bool,
    pub steps: Vec<SetupStep>,
    /// How many steps are done.
    pub done: usize,
}

impl Setup {
    /// There is a step to take.
    pub open spec fn running(self) -> bool {
        self.done < self.steps@.len()
    }

    /// A step among those done is one of the given two.
    pub open spec fn has_done(self, a: SetupStep, b: SetupStep) -> bool {
        exists|i: int|
            0 <= i < self.done && i < self.steps@.len() && (#[trigger] self.steps@[i] == a
                || self.steps@[i] == b)
    }

    /// What has started so far.
    pub open spec fn started(self) -> Undo {
        Undo {
            first_capture: self.has_done(SetupStep::Mic, SetupStep::LiveMic),
            mixer: self.has_done(SetupStep::Mixer, SetupStep::LiveMixer),
            analyzer: self.has_done(SetupStep::MainAnalyzer, SetupStep::MainAnalyzer),
        }
    }

    /// A recording to set up; `pairing` tells what becomes of the second channel, and the other
    /// two which stages are recorded.
    pub fn recording(pairing: Pairing, pre: bool, post: bool) -> (s: Self)
        ensures
            !s.live,
            s.steps@ == recording_order(pairing, pre, post),
            s.done == 0,
    {
        let both: bool = pairing != Pairing::Alone;
        let mixed: bool = pairing == Pairing::Mixed;
        let mut steps: Vec<SetupStep> = Vec::new();
        push_wanted(&mut steps, true, SetupStep::Ch1Processors);
        push_wanted(&mut steps, both, SetupStep::Ch2Processors);
        push_wanted(&mut steps, true, SetupStep::Analyzers);
        push_wanted(&mut steps, pre, SetupStep::Ch1PreFile);
        push_wanted(&mut steps, pre && both, SetupStep::Ch2PreFile);
        push_wanted(&mut steps, mixed, SetupStep::MainAnalyzer);
        push_wanted(&mut steps, mixed && post, SetupStep::MainFile);
        push_wanted(&mut steps, mixed, SetupStep::Mixer);
        push_wanted(&mut steps, !mixed && post, SetupStep::PostFile);
        push_wanted(&mut steps, both && !mixed && post, SetupStep::Ch2PostFile);
        push_wanted(&mut steps, true, SetupStep::Mic);
        push_wanted(&mut steps, both, SetupStep::Speaker);
        assert(steps@ =~= recording_order(pairing, pre, post));
        Setup { live: false, steps, done: 0 }
    }

    /// A live input to set up.
    pub fn live(mixed: bool) -> (s: Self)
        ensures
            s.live,
            s.steps@ == live_order(mixed),
            s.done == 0,
    {
        let mut steps: Vec<SetupStep> = Vec::new();
        push_wanted(&mut steps, mixed, SetupStep::LiveCh1);
        push_wanted(&mut steps, mixed, SetupStep::LiveCh2);
        push_wanted(&mut steps, !mixed, SetupStep::LiveInput);
        push_wanted(&mut steps, true, SetupStep::Analyzers);
        push_wanted(&mut steps, mixed, SetupStep::MainAnalyzer);
        push_wanted(&mut steps, mixed, SetupStep::LiveMixer);
        push_wanted(&mut steps, mixed, SetupStep::LiveMic);
        push_wanted(&mut steps, mixed, SetupStep::LiveSpeaker);
        push_wanted(&mut steps, !mixed, SetupStep::LiveStream);
        assert(steps@ =~= live_order(mixed));
        Setup { live: true, steps, done: 0 }
    }

    /// The step to take.
    pub fn step(&self) -> (s: SetupStep)
        requires
            self.running(),
        ensures
            s == self.steps@[self.done as int],
    {
        self.steps[self.done]
    }

    fn finds(&self, a: SetupStep, b: SetupStep) -> (r: bool)
        ensures
            r == self.has_done(a, b),
    {
        let mut i: usize = 0;
        while i < self.done && i < self.steps.len()
            invariant
                i <= self.steps@.len(),
                forall|k: int|
                    0 <= k < i && k < self.done ==> #[trigger] self.steps@[k] != a
                        && self.steps@[k] != b,
            decreases self.steps@.len() - i,
        {
            if self.steps[i] == a || self.steps[i] == b {
                assert(self.steps@[i as int] == a || self.steps@[i as int] == b);
                return true;
            }
            i += 1;
        }
        false
    }

    /// Takes in how the step went; a failure is told in words. A setup that gives up stays where
    /// it is.
    pub fn report(&mut self, outcome: std::result::Result<(), String>) -> (m: SetupMove)
        requires
            old(self).running(),
        ensures
            final(self).live == old(self).live,
            final(self).steps == old(self).steps,
            match outcome {
                Ok(_) => {
                    &&& final(self).done == old(self).done + 1
                    &&& if final(self).running() {
                        m == SetupMove::Next(old(self).steps@[final(self).done as int])
                    } else {
                        m is Ready
                    }
                },
                Err(why) => {
                    &&& final(self).done == old(self).done
                    &&& m matches SetupMove::GiveUp { status, undo, restart_live } && {
                        &&& status@ == old(self).steps@[old(self).done as int].head() + why@
                        &&& undo == old(self).started()
                        &&& restart_live == !old(self).live
                    }
                },
            },
    {
        match outcome {
            Ok(_) => {
                let total: usize = self.steps.len();
                self.done = self.done + 1;
                if self.done < total {
                    SetupMove::Next(self.steps[self.done])
                } else {
                    SetupMove::Ready
                }
            },
            Err(why) => {
                let undo = Undo {
                    first_capture: self.finds(SetupStep::Mic, SetupStep::LiveMic),
                    mixer: self.finds(SetupStep::Mixer, SetupStep::LiveMixer),
                    analyzer: self.finds(SetupStep::MainAnalyzer, SetupStep::MainAnalyzer),
                };
                SetupMove::GiveUp {
                    status: self.step().failure(why.as_str()),
                    undo,
                    restart_live: !self.live,
                }
            },
        }
    }
}

/// What a stream writes after its processors.
#[derive(Debug, Clone, Copy, PartialEq, Eq, Structural)]
pub enum ProcessedTarget {
    Nothing,
    File,
    /// A leg of the mixer.
    MixerLeg,
}

/// What one stream of a setup is wired to.
#[derive(Debug, Clone, Copy, PartialEq, Eq, Structural)]
pub struct StreamParts {
    /// Writes what it captures to a file.
    pub raw_file: bool,
    pub processed: ProcessedTarget,
    /// Runs the analyzers and reports what they find.
    pub analyzers: bool,
    /// Can be paused.
    pub pausable: bool,
}

/// What a stream writes after its processors: to the mixer where the channels are mixed, to a file
/// of its own where that stage is recorded.
pub open spec fn processed_target(live: bool, pairing: Pairing, post: bool) -> ProcessedTarget {
    if pairing == Pairing::Mixed {
        ProcessedTarget::MixerLeg
    } else if !live && post {
        ProcessedTarget::File
    } else {
        ProcessedTarget::Nothing
    }
}

fn target_of(live: bool, pairing: Pairing, post: bool) -> (t: ProcessedTarget)
    ensures
        t == processed_target(live, pairing, post),
{
    if pairing == Pairing::Mixed {
        ProcessedTarget::MixerLeg
    } else if !live && post {
        ProcessedTarget::File
    } else {
        ProcessedTarget::Nothing
    }
}

/// What the microphone's stream is wired to. It has the analyzers unless they are on the mix.
pub fn mic_parts(live: bool, pairing: Pairing, pre: bool, post: bool) -> (p: StreamParts)
    ensures
        p.raw_file == (!live && pre),
        p.processed == processed_target(live, pairing, post),
        p.analyzers == (pairing != Pairing::Mixed),
        p.pausable == !live,
{
    StreamParts {
        raw_file: !live && pre,
        processed: target_of(live, pairing, post),
        analyzers: pairing != Pairing::Mixed,
        pausable: !live,
    }
}

/// What the speaker's stream is wired to.
pub fn speaker_parts(live: bool, pairing: Pairing, pre: bool, post: bool) -> (p: StreamParts)
    ensures
        p == (StreamParts {
            raw_file: !live && pre,
            processed: processed_target(live, pairing, post),
            analyzers: false,
            pausable: !live,
        }),
{
    StreamParts {
        raw_file: !live && pre,
        processed: target_of(live, pairing, post),
        analyzers: false,
        pausable: !live,
    }
}

proof fn lemma_mixed_order(pre: bool, post: bool)
    ensures
        ({
            let steps = recording_order(Pairing::Mixed, pre, post);
            let worker = if pre {
                5int
            } else {
                3
            };
            let mixer = worker + if post {
                2int
            } else {
                1
            };
            &&& steps.len() == mixer + 3
            &&& steps[worker] == SetupStep::MainAnalyzer
            &&& steps[mixer] == SetupStep::Mixer
            &&& steps.last() == SetupStep::Speaker
            &&& forall|i: int|
                0 <= i < steps.len() && #[trigger] steps[i] == SetupStep::Mic ==> i == mixer + 1
            &&& forall|i: int| 0 <= i < steps.len() ==> #[trigger] steps[i] != SetupStep::LiveMic
        }),
{
    let steps = recording_order(Pairing::Mixed, pre, post);
    if pre && post {
        assert(steps =~= seq![
            SetupStep::Ch1Processors,
            SetupStep::Ch2Processors,
            SetupStep::Analyzers,
            SetupStep::Ch1PreFile,
            SetupStep::Ch2PreFile,
            SetupStep::MainAnalyzer,
            SetupStep::MainFile,
            SetupStep::Mixer,
            SetupStep::Mic,
            SetupStep::Speaker,
        ]);
    } else if pre {
        assert(steps =~= seq![
            SetupStep::Ch1Processors,
            SetupStep::Ch2Processors,
            SetupStep::Analyzers,
            SetupStep::Ch1PreFile,
            SetupStep::Ch2PreFile,
            SetupStep::MainAnalyzer,
            SetupStep::Mixer,
            SetupStep::Mic,
            SetupStep::Speaker,
        ]);
    } else if post {
        assert(steps =~= seq![
            SetupStep::Ch1Processors,
            SetupStep::Ch2Processors,
            SetupStep::Analyzers,
            SetupStep::MainAnalyzer,
            SetupStep::MainFile,
            SetupStep::Mixer,
            SetupStep::Mic,
            SetupStep::Speaker,
        ]);
    } else {
        assert(steps =~= seq![
            SetupStep::Ch1Processors,
            SetupStep::Ch2Processors,
            SetupStep::Analyzers,
            SetupStep::MainAnalyzer,
            SetupStep::Mixer,
            SetupStep::Mic,
            SetupStep::Speaker,
        ]);
    }
}

proof fn lemma_single_order(pre: bool, post: bool)
    ensures
        ({
            let steps = recording_order(Pairing::Alone, pre, post);
            &&& forall|i: int|
                0 <= i < steps.len() && #[trigger] steps[i] == SetupStep::Mic ==> i == steps.len()
                    - 1
            &&& forall|i: int| 0 <= i < steps.len() ==> #[trigger] steps[i] != SetupStep::LiveMic
        }),
{
    let steps = recording_order(Pairing::Alone, pre, post);
    if pre && post {
        assert(steps =~= seq![
            SetupStep::Ch1Processors,
            SetupStep::Analyzers,
            SetupStep::Ch1PreFile,
            SetupStep::PostFile,
            SetupStep::Mic,
        ]);
    } else if pre {
        assert(steps =~= seq![
            SetupStep::Ch1Processors,
            SetupStep::Analyzers,
            SetupStep::Ch1PreFile,
            SetupStep::Mic,
        ]);
    } else if post {
        assert(steps =~= seq![
            SetupStep::Ch1Processors,
            SetupStep::Analyzers,
            SetupStep::PostFile,
            SetupStep::Mic,
        ]);
    } else {
        assert(steps =~= seq![
            SetupStep::Ch1Processors,
            SetupStep::Analyzers,
            SetupStep::Mic,
        ]);
    }
}

proof fn lemma_separate_order(pre: bool, post: bool)
    ensures
        ({
            let steps = recording_order(Pairing::Separate, pre, post);
            &&& forall|i: int|
                0 <= i < steps.len() && #[trigger] steps[i] == SetupStep::Mic ==> i == steps.len()
                    - 2
            &&& steps.last() == SetupStep::Speaker
            &&& forall|i: int| 0 <= i < steps.len() ==> #[trigger] steps[i] != SetupStep::LiveMic
        }),
{
    let steps = recording_order(Pairing::Separate, pre, post);
    if pre && post {
        assert(steps =~= seq![
            SetupStep::Ch1Processors,
            SetupStep::Ch2Processors,
            SetupStep::Analyzers,
            SetupStep::Ch1PreFile,
            SetupStep::Ch2PreFile,
            SetupStep::PostFile,
            SetupStep::Ch2PostFile,
            SetupStep::Mic,
            SetupStep::Speaker,
        ]);
    } else if pre {
        assert(steps =~= seq![
            SetupStep::Ch1Processors,
            SetupStep::Ch2Processors,
            SetupStep::Analyzers,
            SetupStep::Ch1PreFile,
            SetupStep::Ch2PreFile,
            SetupStep::Mic,
            SetupStep::Speaker,
        ]);
    } else if post {
        assert(steps =~= seq![
            SetupStep::Ch1Processors,
            SetupStep::Ch2Processors,
            SetupStep::Analyzers,
            SetupStep::PostFile,
            SetupStep::Ch2PostFile,
            SetupStep::Mic,
            SetupStep::Speaker,
        ]);
    } else {
        assert(steps =~= seq![
            SetupStep::Ch1Processors,
            SetupStep::Ch2Processors,
            SetupStep::Analyzers,
            SetupStep::Mic,
            SetupStep::Speaker,
        ]);
    }
}

/// Streams start last: once the microphone runs, only the speaker can be left to start. Where both
/// channels are mixed, the mixer and the analyzers run by then.
pub proof fn streams_start_last(s: Setup, pairing: Pairing, pre: bool, post: bool)
    requires
        s.steps@ == if s.live {
            live_order(pairing == Pairing::Mixed)
        } else {
            recording_order(pairing, pre, post)
        },
        s.started().first_capture,
    ensures
        s.running() ==> {
            &&& s.done + 1 == s.steps@.len()
            &&& s.steps@[s.done as int] == if s.live {
                SetupStep::LiveSpeaker
            } else {
                SetupStep::Speaker
            }
            &&& pairing != Pairing::Alone
            &&& pairing == Pairing::Mixed ==> s.started().mixer && s.started().analyzer
        },
{
    let steps = s.steps@;
    let mixed = pairing == Pairing::Mixed;
    let mic = choose|i: int|
        0 <= i < s.done && i < steps.len() && (#[trigger] steps[i] == SetupStep::Mic || steps[i]
            == SetupStep::LiveMic);
    if s.live {
        if mixed {
            assert(steps[3] == SetupStep::MainAnalyzer && steps[4] == SetupStep::LiveMixer);
        }
    } else if mixed {
        lemma_mixed_order(pre, post);
        let worker = if pre {
            5int
        } else {
            3
        };
        let mixer = worker + if post {
            2int
        } else {
            1
        };
        assert(steps[worker] == SetupStep::MainAnalyzer);
        assert(steps[mixer] == SetupStep::Mixer);
    } else if pairing == Pairing::Separate {
        lemma_separate_order(pre, post);
    } else {
        lemma_single_order(pre, post);
    }
}

proof fn lemma_wanted(steps: Seq<SetupStep>, on: bool, step: SetupStep, other: SetupStep)
    ensures
        (steps + wanted(on, seq![step])).contains(other) <==> (steps.contains(other) || (on && other
            == step)),
{
    let all = steps + wanted(on, seq![step]);
    if steps.contains(other) {
        let i = choose|i: int| 0 <= i < steps.len() && steps[i] == other;
        assert(all[i] == other);
    }
    if on && other == step {
        assert(all[steps.len() as int] == other);
    }
    if all.contains(other) {
        let i = choose|i: int| 0 <= i < all.len() && all[i] == other;
        if i < steps.len() {
            assert(steps[i] == other);
        }
    }
}

/// A recording sets up exactly what it needs: the second channel where there is one, a file for
/// each stage that is recorded, the mix where both channels are mixed; and it starts the
/// microphone always, and the speaker where there is one.
pub proof fn a_recording_sets_up_what_it_needs(pairing: Pairing, pre: bool, post: bool, step: SetupStep)
    ensures
        recording_order(pairing, pre, post).contains(step) <==> match step {
            SetupStep::Ch1Processors => true,
            SetupStep::Ch2Processors => pairing != Pairing::Alone,
            SetupStep::Analyzers => true,
            SetupStep::Ch1PreFile => pre,
            SetupStep::Ch2PreFile => pre && pairing != Pairing::Alone,
            SetupStep::MainAnalyzer => pairing == Pairing::Mixed,
            SetupStep::MainFile => post && pairing == Pairing::Mixed,
            SetupStep::Mixer => pairing == Pairing::Mixed,
            SetupStep::PostFile => post && pairing != Pairing::Mixed,
            SetupStep::Ch2PostFile => post && pairing == Pairing::Separate,
            SetupStep::Mic => true,
            SetupStep::Speaker => pairing != Pairing::Alone,
            _ => false,
        },
{
    let both = pairing != Pairing::Alone;
    let mixed = pairing == Pairing::Mixed;
    let a = Seq::<SetupStep>::empty();
    let b = a + wanted(true, seq![SetupStep::Ch1Processors]);
    let c = b + wanted(both, seq![SetupStep::Ch2Processors]);
    let d = c + wanted(true, seq![SetupStep::Analyzers]);
    let e = d + wanted(pre, seq![SetupStep::Ch1PreFile]);
    let f = e + wanted(pre && both, seq![SetupStep::Ch2PreFile]);
    let g = f + wanted(mixed, seq![SetupStep::MainAnalyzer]);
    let h = g + wanted(mixed && post, seq![SetupStep::MainFile]);
    let i = h + wanted(mixed, seq![SetupStep::Mixer]);
    let j = i + wanted(!mixed && post, seq![SetupStep::PostFile]);
    let k = j + wanted(both && !mixed && post, seq![SetupStep::Ch2PostFile]);
    let l = k + wanted(true, seq![SetupStep::Mic]);
    let z = l + wanted(both, seq![SetupStep::Speaker]);
    lemma_wanted(a, true, SetupStep::Ch1Processors, step);
    lemma_wanted(b, both, SetupStep::Ch2Processors, step);
    lemma_wanted(c, true, SetupStep::Analyzers, step);
    lemma_wanted(d, pre, SetupStep::Ch1PreFile, step);
    lemma_wanted(e, pre && both, SetupStep::Ch2PreFile, step);
    lemma_wanted(f, mixed, SetupStep::MainAnalyzer, step);
    lemma_wanted(g, mixed && post, SetupStep::MainFile, step);
    lemma_wanted(h, mixed, SetupStep::Mixer, step);
    lemma_wanted(i, !mixed && post, SetupStep::PostFile, step);
    lemma_wanted(j, both && !mixed && post, SetupStep::Ch2PostFile, step);
    lemma_wanted(k, true, SetupStep::Mic, step);
    lemma_wanted(l, both, SetupStep::Speaker, step);
    assert(b =~= seq![SetupStep::Ch1Processors]);
    assert(z =~= recording_order(pairing, pre, post));
}

/// A channel goes to the mix where both channels are mixed, to a file of its own where its
/// processed sound is recorded, and nowhere else.
pub proof fn processed_sound_goes_to_one_place(live: bool, pairing: Pairing, post: bool)
    ensures
        processed_target(live, pairing, post) == ProcessedTarget::MixerLeg <==> pairing
            == Pairing::Mixed,
        processed_target(live, pairing, post) == ProcessedTarget::File <==> !live && post && pairing
            != Pairing::Mixed,
{
}

/// Giving up takes back what was started and nothing else: a capture where one was started, the
/// mixer where it was, and the main analyzer where it was.
pub proof fn what_was_started_is_taken_back(s: Setup)
    requires
        s.done <= s.steps@.len(),
    ensures
        s.started().first_capture <==> s.steps@.take(s.done as int).contains(SetupStep::Mic)
            || s.steps@.take(s.done as int).contains(SetupStep::LiveMic),
        s.started().mixer <==> s.steps@.take(s.done as int).contains(SetupStep::Mixer)
            || s.steps@.take(s.done as int).contains(SetupStep::LiveMixer),
        s.started().analyzer <==> s.steps@.take(s.done as int).contains(SetupStep::MainAnalyzer),
{
    lemma_done(s, SetupStep::Mic, SetupStep::LiveMic);
    lemma_done(s, SetupStep::Mixer, SetupStep::LiveMixer);
    lemma_done(s, SetupStep::MainAnalyzer, SetupStep::MainAnalyzer);
}

proof fn lemma_done(s: Setup, a: SetupStep, b: SetupStep)
    requires
        s.done <= s.steps@.len(),
    ensures
        s.has_done(a, b) <==> s.steps@.take(s.done as int).contains(a) || s.steps@.take(
            s.done as int,
        ).contains(b),
{
    let done = s.steps@.take(s.done as int);
    if s.has_done(a, b) {
        let i = choose|i: int|
            0 <= i < s.done && i < s.steps@.len() && (#[trigger] s.steps@[i] == a || s.steps@[i]
                == b);
        assert(done[i] == s.steps@[i]);
    }
    if done.contains(a) {
        let i = choose|i: int| 0 <= i < done.len() && done[i] == a;
        assert(s.steps@[i] == a);
    }
    if done.contains(b) {
        let i = choose|i: int| 0 <= i < done.len() && done[i] == b;
        assert(s.steps@[i] == b);
    }
}

} // verus!
