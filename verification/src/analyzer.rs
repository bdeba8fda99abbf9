//! Analyzers: a voice activity detector.

use vstd::prelude::*;

use crate::buffer::AudioBuffer;
use crate::error::Result;
use crate::events::{AudioTap, MediaEvent};
use crate::traits::{AudioAnalyzer, Mark};

verus! {

/// Arithmetic on levels.
pub trait LevelMath<S>: Send {
    /// The level of a block of samples.
    fn level(&self, samples: &Vec<S>) -> S;

    /// Whether a level reaches a threshold.
    fn reaches(&self, level: S, threshold: S) -> bool;

    /// How sure a level that is compared with a threshold makes one.
    fn confidence(&self, level: S, threshold: S) -> S;
}

/// Reports when voice activity starts and stops.
#[verifier::reject_recursive_types(S)]
pub struct VoiceActivityAnalyzer<S, M> {
    pub math: M,
    pub threshold: S,
    pub tap: AudioTap,
    pub was_active: Option<bool>,
    pub pending: Vec<MediaEvent<S>>,
}

impl<S: Copy, M: LevelMath<S>> VoiceActivityAnalyzer<S, M> {
    /// An analyzer of processed audio that has not seen any yet.
    pub fn new(math: M, threshold: S) -> (a: Self)
        ensures
            a.math == math,
            a.threshold == threshold,
            a.tap == AudioTap::Processed,
            a.was_active is None,
            a.pending@ == Seq::<MediaEvent<S>>::empty(),
    {
        VoiceActivityAnalyzer {
            math,
            threshold,
            tap: AudioTap::Processed,
            was_active: None,
            pending: Vec::new(),
        }
    }

    /// The same analyzer for another tap.
    pub fn with_tap(self, tap: AudioTap) -> (a: Self)
        ensures
            a == (VoiceActivityAnalyzer { tap, ..self }),
    {
        let mut a = self;
        a.tap = tap;
        a
    }
}

/// The frame after a block's last one; the count starts over beyond the largest index.
pub open spec fn end_frame<S>(b: AudioBuffer<S>) -> int {
    (b.frame_index + b.frames) % 0x1_0000_0000_0000_0000
}

/// Whether a block with this activity is an event: the first one is, and every change.
pub open spec fn is_change(was_active: Option<bool>, active: bool) -> bool {
    was_active != Some(active)
}

/// `after` is the analyzer `before` when it has taken in the block `b`.
pub open spec fn takes_in<S: Copy, M: LevelMath<S>>(
    before: VoiceActivityAnalyzer<S, M>,
    after: VoiceActivityAnalyzer<S, M>,
    b: AudioBuffer<S>,
) -> bool {
    exists|level: S, active: bool|
        {
            &&& #[trigger] call_ensures(M::level, (&before.math, &*b.data), level)
            &&& #[trigger] call_ensures(
                M::reaches,
                (&before.math, level, before.threshold),
                active,
            )
            &&& after.math == before.math
            &&& after.threshold == before.threshold
            &&& after.tap == before.tap
            &&& after.was_active == Some(active)
            &&& if is_change(before.was_active, active) {
                &&& after.pending@.len() == before.pending@.len() + 1
                &&& after.pending@.drop_last() == before.pending@
                &&& reports(before, b, level, active, after.pending@.last())
            } else {
                after.pending@ == before.pending@
            }
        }
}

/// `event` tells that the block `b` has this level and activity.
pub open spec fn reports<S: Copy, M: LevelMath<S>>(
    a: VoiceActivityAnalyzer<S, M>,
    b: AudioBuffer<S>,
    level: S,
    active: bool,
    event: MediaEvent<S>,
) -> bool {
    match event {
        MediaEvent::VoiceActivity {
            tap,
            start_frame,
            end_frame: end,
            active: reported,
            level: reported_level,
            confidence,
        } => {
            &&& tap == a.tap
            &&& start_frame == b.frame_index
            &&& end == end_frame(b)
            &&& reported == active
            &&& reported_level == level
            &&& call_ensures(M::confidence, (&a.math, level, a.threshold), confidence)
        },
        _ => false,
    }
}

impl<S: Copy + Send, M: LevelMath<S>> AudioAnalyzer<S> for VoiceActivityAnalyzer<S, M> {
    /// How many events wait.
    open spec fn mark(&self) -> Mark {
        Mark::One(self.pending@.len() as int)
    }

    open spec fn may_accept(&self, input: AudioBuffer<S>, r: Result<()>, next: Mark) -> bool {
        &&& r is Ok
        &&& next == self.mark() || next == Mark::One(self.pending@.len() as int + 1)
    }

    open spec fn may_follow(&self, input: AudioBuffer<S>, r: Result<()>) -> bool {
        &&& r is Ok
        &&& exists|level: S, active: bool|
            {
                &&& #[trigger] call_ensures(M::level, (&self.math, &*input.data), level)
                &&& #[trigger] call_ensures(
                    M::reaches,
                    (&self.math, level, self.threshold),
                    active,
                )
                &&& self.was_active == Some(active)
            }
    }

    open spec fn may_hand_out(&self, events: Seq<MediaEvent<S>>, next: Mark) -> bool {
        events == self.pending@ && next == Mark::One(0)
    }

    fn name(&self) -> (n: String)
        ensures
            n@ == "voice-activity"@,
    {
        "voice-activity".to_owned()
    }

    fn accept_audio(&mut self, input: &AudioBuffer<S>) -> (r: Result<()>)
        ensures
            r is Ok,
            takes_in(*old(self), *final(self), *input),
    {
        let level = self.math.level(&input.data);
        let active: bool = self.math.reaches(level, self.threshold);
        let changed: bool = match self.was_active {
            Some(was) => was != active,
            None => true,
        };
        let ghost before = self.pending@;
        if changed {
            let confidence = self.math.confidence(level, self.threshold);
            let end: u64 = input.frame_index.wrapping_add(input.frames as u64);
            self.pending.push(
                MediaEvent::VoiceActivity {
                    tap: self.tap,
                    start_frame: input.frame_index,
                    end_frame: end,
                    active,
                    level,
                    confidence,
                },
            );
            assert(self.pending@.drop_last() =~= before);
            self.was_active = Some(active);
        }
        assert(call_ensures(M::level, (&self.math, &*input.data), level));
        assert(call_ensures(M::reaches, (&self.math, level, self.threshold), active));
        Ok(())
    }

    fn drain_events(&mut self) -> (events: Vec<MediaEvent<S>>)
        ensures
            events@ == old(self).pending@,
            final(self).pending@ == Seq::<MediaEvent<S>>::empty(),
            final(self).math == old(self).math,
            final(self).threshold == old(self).threshold,
            final(self).tap == old(self).tap,
            final(self).was_active == old(self).was_active,
    {
        let mut events: Vec<MediaEvent<S>> = Vec::new();
        std::mem::swap(&mut events, &mut self.pending);
        events
    }
}

/// Two blocks in a row with the same activity give no event for the second one.
pub proof fn steady_activity_is_silent<S: Copy, M: LevelMath<S>>(
    first: VoiceActivityAnalyzer<S, M>,
    second: VoiceActivityAnalyzer<S, M>,
    third: VoiceActivityAnalyzer<S, M>,
    b1: AudioBuffer<S>,
    b2: AudioBuffer<S>,
)
    requires
        takes_in(first, second, b1),
        takes_in(second, third, b2),
        third.was_active == second.was_active,
    ensures
        third.pending@ == second.pending@,
{
}

/// Both kinds of change are reported: a block that changes the activity adds exactly one event,
/// which shows the new activity, the tap and the block's frames, whether speech begins or ends.
/// A block that does not change it adds nothing, and events that wait already stay.
pub proof fn every_change_is_reported<S: Copy, M: LevelMath<S>>(
    before: VoiceActivityAnalyzer<S, M>,
    after: VoiceActivityAnalyzer<S, M>,
    b: AudioBuffer<S>,
)
    requires
        takes_in(before, after, b),
    ensures
        after.was_active is Some,
        after.was_active != before.was_active ==> {
            &&& after.pending@.len() == before.pending@.len() + 1
            &&& after.pending@.last() matches MediaEvent::VoiceActivity {
                tap,
                start_frame,
                end_frame,
                active,
                ..
            } && Some(active) == after.was_active && tap == before.tap && start_frame
                == b.frame_index && (b.frame_index + b.frames <= u64::MAX ==> end_frame
                == b.frame_index + b.frames)
        },
        after.was_active == before.was_active ==> after.pending@ == before.pending@,
        forall|i: int|
            0 <= i < before.pending@.len() ==> #[trigger] after.pending@[i] == before.pending@[i],
{
    assert(before.pending@ == after.pending@ || before.pending@ == after.pending@.drop_last());
}

/// The activity is what the level of the block says: where the arithmetic answers that every
/// level it gives for the block reaches the threshold, the block is active, and where it answers
/// that none does, it is not; an event shows that level.
pub proof fn activity_follows_the_level<S: Copy, M: LevelMath<S>>(
    before: VoiceActivityAnalyzer<S, M>,
    after: VoiceActivityAnalyzer<S, M>,
    b: AudioBuffer<S>,
    speech: bool,
)
    requires
        takes_in(before, after, b),
        forall|level: S, answer: bool|
            #![trigger call_ensures(M::reaches, (&before.math, level, before.threshold), answer)]
            call_ensures(M::level, (&before.math, &*b.data), level) && call_ensures(
                M::reaches,
                (&before.math, level, before.threshold),
                answer,
            ) ==> answer == speech,
    ensures
        after.was_active == Some(speech),
        after.pending@.len() > before.pending@.len() ==> (after.pending@.last() matches
            MediaEvent::VoiceActivity { active, level, confidence, .. } && active == speech
            && call_ensures(M::level, (&before.math, &*b.data), level) && call_ensures(
            M::confidence,
            (&before.math, level, before.threshold),
            confidence,
        )),
{
}

/// The last event that waits shows the current activity: every block keeps that, and the first
/// block brings it about.
pub proof fn last_event_shows_the_activity<S: Copy, M: LevelMath<S>>(
    before: VoiceActivityAnalyzer<S, M>,
    after: VoiceActivityAnalyzer<S, M>,
    b: AudioBuffer<S>,
)
    requires
        takes_in(before, after, b),
        before.was_active is Some && before.pending@.len() > 0 ==> (before.pending@.last() matches
            MediaEvent::VoiceActivity { active, .. } && before.was_active == Some(active)),
    ensures
        before.was_active is None ==> after.pending@.len() > 0,
        after.pending@.len() > 0 ==> (after.pending@.last() matches MediaEvent::VoiceActivity {
            active,
            ..
        } && after.was_active == Some(active)),
{
}

/// Speech that begins and ends gives two events, and so does a pause between speech: of two
/// blocks that each change the activity, each adds an event, one active and one not.
pub proof fn both_ends_of_speech_are_reported<S: Copy, M: LevelMath<S>>(
    first: VoiceActivityAnalyzer<S, M>,
    second: VoiceActivityAnalyzer<S, M>,
    third: VoiceActivityAnalyzer<S, M>,
    b1: AudioBuffer<S>,
    b2: AudioBuffer<S>,
)
    requires
        takes_in(first, second, b1),
        takes_in(second, third, b2),
        first.was_active != second.was_active,
        second.was_active != third.was_active,
    ensures
        third.pending@.len() == first.pending@.len() + 2,
        third.pending@[first.pending@.len() as int] matches MediaEvent::VoiceActivity {
            active: one,
            ..
        } && (third.pending@.last() matches MediaEvent::VoiceActivity { active: other, .. } && one
            != other),
{
    every_change_is_reported(first, second, b1);
    every_change_is_reported(second, third, b2);
    assert(third.pending@[first.pending@.len() as int] == second.pending@.last());
}

} // verus!
