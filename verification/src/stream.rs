//! The audio stream: what becomes of the captured frames.

use vstd::prelude::*;

verus! {

/// Audio channels of a frame.
pub const CHANNELS: usize = 2;

/// What became of handing a frame to the AirPlay side.
#[derive(Debug, Clone, Copy, PartialEq, Eq, Structural)]
pub enum SendOutcome {
    /// It was taken.
    Sent,
    /// There was no room for it.
    Full,
    /// The other side is gone.
    Disconnected,
    /// It failed otherwise.
    Failed,
}

/// An event of the capture.
#[derive(Debug, Clone, Copy, PartialEq, Eq, Structural)]
pub enum CaptureEvent {
    /// A frame came: its level, in thousandths, its number of samples over all
    /// channels, and what became of sending it on.
    Frame { level: u32, sample_count: usize, outcome: SendOutcome },
    /// No frame came in time.
    Timeout,
    /// The capture failed.
    Failed,
}

/// What the capture shares with the rest of the bridge.
#[derive(Debug, Clone, Copy, PartialEq, Eq, Structural)]
pub struct CaptureShared {
    /// Whether the capture is to stop.
    pub stop: bool,
    /// Whether the capture has failed.
    pub failed: bool,
    /// The level of the last frame, in thousandths.
    pub audio_level: u32,
    /// The samples captured on each channel, modulo the range of the type.
    pub samples: u64,
    /// The frames sent on.
    pub sent_frames: u64,
    /// The frames dropped for want of room, modulo the range of the type.
    pub dropped_frames: u64,
}

impl Default for CaptureShared {
    /// Nothing has been captured yet.
    fn default() -> (shared: Self)
        ensures
            shared == CaptureShared::initial(),
    {
        CaptureShared {
            stop: false,
            failed: false,
            audio_level: 0,
            samples: 0,
            sent_frames: 0,
            dropped_frames: 0,
        }
    }
}

/// A sum, modulo the range of the type.
pub open spec fn wrapped(sum: int) -> u64 {
    if sum > u64::MAX {
        (sum - u64::MAX - 1) as u64
    } else {
        sum as u64
    }
}

impl CaptureShared {
    /// Nothing has been captured yet.
    pub open spec fn initial() -> CaptureShared {
        CaptureShared {
            stop: false,
            failed: false,
            audio_level: 0,
            samples: 0,
            sent_frames: 0,
            dropped_frames: 0,
        }
    }

    /// The state after an event.
    pub open spec fn after(self, event: CaptureEvent) -> CaptureShared {
        match event {
            CaptureEvent::Frame { level, sample_count, outcome } => CaptureShared {
                audio_level: level,
                samples: wrapped(self.samples + sample_count as int / CHANNELS as int),
                sent_frames: if outcome == SendOutcome::Sent {
                    (self.sent_frames + 1) as u64
                } else {
                    self.sent_frames
                },
                dropped_frames: if outcome == SendOutcome::Full {
                    wrapped(self.dropped_frames + 1)
                } else {
                    self.dropped_frames
                },
                failed: self.failed || ends_capture(event),
                ..self
            },
            CaptureEvent::Timeout => self,
            CaptureEvent::Failed => CaptureShared { failed: true, ..self },
        }
    }

    /// Takes in an event of the capture, and returns whether the capture goes
    /// on.
    pub fn on_event(&mut self, event: CaptureEvent) -> (go_on: bool)
        requires
            event matches CaptureEvent::Frame { outcome, .. } ==> outcome == SendOutcome::Sent
                ==> old(self).sent_frames < u64::MAX,
        ensures
            *final(self) == old(self).after(event),
            go_on == !ends_capture(event),
    {
        match event {
            CaptureEvent::Frame { level, sample_count, outcome } => {
                self.audio_level = level;
                self.samples = self.samples.wrapping_add((sample_count / CHANNELS) as u64);
                match outcome {
                    SendOutcome::Sent => {
                        self.sent_frames = self.sent_frames + 1;
                        true
                    },
                    SendOutcome::Full => {
                        self.dropped_frames = self.dropped_frames.wrapping_add(1);
                        true
                    },
                    SendOutcome::Disconnected | SendOutcome::Failed => {
                        self.failed = true;
                        false
                    },
                }
            },
            CaptureEvent::Timeout => true,
            CaptureEvent::Failed => {
                self.failed = true;
                false
            },
        }
    }
}

/// Whether an event ends the capture.
pub open spec fn ends_capture(event: CaptureEvent) -> bool {
    match event {
        CaptureEvent::Frame { outcome, .. } => outcome == SendOutcome::Disconnected || outcome
            == SendOutcome::Failed,
        CaptureEvent::Timeout => false,
        CaptureEvent::Failed => true,
    }
}

/// The state after a series of events, from the beginning.
pub open spec fn shared_after(events: Seq<CaptureEvent>) -> CaptureShared
    decreases events.len(),
{
    if events.len() == 0 {
        CaptureShared::initial()
    } else {
        shared_after(events.drop_last()).after(events.last())
    }
}

/// The number of frames among the events that were sent or dropped.
pub open spec fn frames_handled(events: Seq<CaptureEvent>) -> nat
    decreases events.len(),
{
    if events.len() == 0 {
        0
    } else {
        frames_handled(events.drop_last()) + if events.last() is Frame && !ends_capture(
            events.last(),
        ) {
            1nat
        } else {
            0nat
        }
    }
}

/// No frame is lost track of: while the counters have not run over, the frames
/// sent and the frames dropped add up to the frames that came.
pub proof fn law_frames_are_accounted_for(events: Seq<CaptureEvent>)
    requires
        events.len() <= u64::MAX,
    ensures
        shared_after(events).sent_frames + shared_after(events).dropped_frames == frames_handled(
            events,
        ),
        frames_handled(events) <= events.len(),
    decreases events.len(),
{
    if events.len() > 0 {
        law_frames_are_accounted_for(events.drop_last());
    }
}

/// The capture has failed exactly if one of its events ended it.
pub proof fn law_failure_is_noted(events: Seq<CaptureEvent>)
    ensures
        shared_after(events).failed <==> exists|i: int|
            0 <= i < events.len() && ends_capture(#[trigger] events[i]),
    decreases events.len(),
{
    if events.len() > 0 {
        let shorter = events.drop_last();
        law_failure_is_noted(shorter);
        if shared_after(shorter).failed {
            let i = choose|i: int| 0 <= i < shorter.len() && ends_capture(#[trigger] shorter[i]);
            assert(events[i] == shorter[i]);
        }
        if ends_capture(events.last()) {
            assert(ends_capture(events[events.len() - 1]));
        }
        if exists|i: int| 0 <= i < events.len() && ends_capture(#[trigger] events[i]) {
            let i = choose|i: int| 0 <= i < events.len() && ends_capture(#[trigger] events[i]);
            if i < shorter.len() {
                assert(shorter[i] == events[i]);
            }
        }
    }
}

/// What a frame changes: its level is noted, and half its samples are counted,
/// one for each channel; it counts as sent if it was taken and as dropped if
/// there was no room. Nothing else changes but the note of a failure.
pub proof fn law_frame_is_counted_once(
    shared: CaptureShared,
    level: u32,
    sample_count: usize,
    outcome: SendOutcome,
)
    requires
        shared.sent_frames < u64::MAX,
    ensures
        ({
            let after = shared.after(CaptureEvent::Frame { level, sample_count, outcome });
            &&& after.audio_level == level
            &&& after.samples as int == (shared.samples + sample_count as int / 2)
                % 0x1_0000_0000_0000_0000
            &&& outcome is Sent ==> after.sent_frames == shared.sent_frames + 1
            &&& !(outcome is Sent) ==> after.sent_frames == shared.sent_frames
            &&& outcome is Full ==> after.dropped_frames as int == (shared.dropped_frames + 1)
                % 0x1_0000_0000_0000_0000
            &&& !(outcome is Full) ==> after.dropped_frames == shared.dropped_frames
            &&& after.failed <==> shared.failed || outcome is Disconnected || outcome is Failed
            &&& after.stop == shared.stop
        }),
{
}

/// A timeout changes nothing, and a failure of the capture only notes itself.
pub proof fn law_other_events_count_nothing(shared: CaptureShared)
    ensures
        shared.after(CaptureEvent::Timeout) == shared,
        shared.after(CaptureEvent::Failed).failed,
        shared.after(CaptureEvent::Failed).samples == shared.samples,
        shared.after(CaptureEvent::Failed).sent_frames == shared.sent_frames,
        shared.after(CaptureEvent::Failed).dropped_frames == shared.dropped_frames,
        shared.after(CaptureEvent::Failed).audio_level == shared.audio_level,
        shared.after(CaptureEvent::Failed).stop == shared.stop,
{
}

/// The capture ends if and only if it failed, or a frame could not be handed on
/// for another reason than want of room.
pub proof fn law_capture_ends_on_failures(event: CaptureEvent)
    ensures
        ends_capture(event) <==> event is Failed || (event is Frame && (event->outcome
            is Disconnected || event->outcome is Failed)),
{
}

} // verus!
