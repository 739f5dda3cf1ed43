//! The course of the bridge: in which order its parts are brought up and taken
//! down, and what a failure of one of them leads to.

use vstd::prelude::*;

use crate::text;

verus! {

/// A step in the course of the bridge.
#[derive(Debug, Clone, Copy, PartialEq, Eq, Structural)]
pub enum Step {
    /// Read from the configuration which AirPlay device is wanted.
    ReadTarget,
    /// See whether the system is ready for Bluetooth audio.
    CheckSetup,
    /// Set up the Bluetooth adapter.
    ConfigureAdapter,
    /// Start the agent that answers pairing prompts.
    StartPairingAgent,
    /// Start to watch the buttons.
    StartButtons,
    /// Create the AirPlay client.
    CreateClient,
    /// Look for AirPlay devices.
    Discover,
    /// Pick the wanted one out of them.
    SelectTarget,
    /// Connect to it, or to the devices of its group.
    Connect,
    /// Set the AirPlay volume.
    SetVolume,
    /// Wait for a Bluetooth source.
    AwaitSource,
    /// Open the source for capture.
    StartCapture,
    /// Start to pass the captured audio on.
    SpawnCapture,
    /// Start the AirPlay stream.
    StartStream,
    /// Follow the media commands and the buttons until the end.
    EventLoop,
    /// Stop the capture.
    StopCapture,
    /// Stop to listen for media commands.
    StopMonitor,
    /// Stop the AirPlay stream.
    StopStream,
    /// Leave the AirPlay session.
    Disconnect,
    /// The course is over.
    Finished,
    /// The course was broken off.
    GivenUp,
}

/// What a step has led to.
#[derive(Debug, Clone, Copy, PartialEq, Eq, Structural)]
pub enum StepEvent {
    /// It is done.
    Done,
    /// It is done, and has picked a group of devices or a single one.
    Selected { group: bool },
    /// It failed.
    Failed,
}

/// The steps, in the order in which they are taken.
pub open spec fn course() -> Seq<Step> {
    seq![
        Step::ReadTarget,
        Step::CheckSetup,
        Step::ConfigureAdapter,
        Step::StartPairingAgent,
        Step::StartButtons,
        Step::CreateClient,
        Step::Discover,
        Step::SelectTarget,
        Step::Connect,
        Step::SetVolume,
        Step::AwaitSource,
        Step::StartCapture,
        Step::SpawnCapture,
        Step::StartStream,
        Step::EventLoop,
        Step::StopCapture,
        Step::StopMonitor,
        Step::StopStream,
        Step::Disconnect,
        Step::Finished,
    ]
}

/// How many steps come before a step of the course.
pub open spec fn place(step: Step) -> int {
    course().index_of(step)
}

/// The bridge cannot do without the step: its failure breaks the course off.
pub open spec fn is_needed(step: Step) -> bool {
    match step {
        Step::StartButtons | Step::SetVolume => false,
        Step::EventLoop | Step::StopCapture | Step::StopMonitor => false,
        Step::StopStream | Step::Disconnect => false,
        Step::Finished | Step::GivenUp => false,
        _ => true,
    }
}

/// The course has come to an end.
pub open spec fn is_last(step: Step) -> bool {
    step is Finished || step is GivenUp
}

/// What is said of the failure of a step, where the failure does not speak for
/// itself.
pub open spec fn failure_words(step: Step, group: bool) -> Option<Seq<char>> {
    match step {
        Step::ConfigureAdapter => Some("configure Bluetooth adapter"@),
        Step::StartPairingAgent => Some("start Bluetooth pairing agent"@),
        Step::StartButtons => Some("GPIO buttons are unavailable"@),
        Step::CreateClient => Some("create AirPlay client"@),
        Step::Discover => Some("discover AirPlay devices"@),
        Step::Connect => if group {
            Some("connect to AirPlay group target"@)
        } else {
            Some("connect to AirPlay target"@)
        },
        Step::SetVolume => Some("failed to set initial AirPlay volume"@),
        Step::AwaitSource => Some("wait for Bluetooth A2DP source"@),
        Step::StartCapture => Some("start BlueALSA capture"@),
        Step::SpawnCapture => Some("spawn Bluetooth capture thread"@),
        Step::StartStream => if group {
            Some("start AirPlay group live stream"@)
        } else {
            Some("start AirPlay live stream"@)
        },
        Step::StopCapture => Some("Bluetooth capture thread panicked"@),
        Step::StopStream => Some("failed to stop AirPlay stream cleanly"@),
        Step::Disconnect => Some("failed to disconnect AirPlay session cleanly"@),
        _ => None,
    }
}

/// How far the bridge has come.
#[derive(Debug, Clone, Copy, PartialEq, Eq, Structural)]
pub struct RunState {
    /// The step that is due.
    pub step: Step,
    /// Whether a group of devices was picked.
    pub group: bool,
    /// Whether the event loop ended with a failure.
    pub loop_failed: bool,
}

impl RunState {
    /// Nothing has been done yet.
    pub open spec fn initial() -> RunState {
        RunState { step: Step::ReadTarget, group: false, loop_failed: false }
    }

    /// The state once the step that is due has led to an event.
    pub open spec fn after(self, event: StepEvent) -> RunState {
        if is_last(self.step) {
            self
        } else if event is Failed && is_needed(self.step) {
            RunState { step: Step::GivenUp, ..self }
        } else {
            RunState {
                step: course()[place(self.step) + 1],
                group: if self.step is SelectTarget {
                    event == StepEvent::Selected { group: true }
                } else {
                    self.group
                },
                loop_failed: self.loop_failed || (self.step is EventLoop && event is Failed),
            }
        }
    }

    /// The state once the steps from here on have led to some events, one
    /// after the other.
    pub open spec fn after_all(self, events: Seq<StepEvent>) -> RunState
        decreases events.len(),
    {
        if events.len() == 0 {
            self
        } else {
            self.after_all(events.drop_last()).after(events.last())
        }
    }

    /// The run has failed: it was broken off, or its event loop ended with a
    /// failure.
    pub open spec fn has_failed(self) -> bool {
        self.step is GivenUp || self.loop_failed
    }

    /// Nothing has been done yet.
    pub fn start() -> (state: RunState)
        ensures
            state == RunState::initial(),
    {
        RunState { step: Step::ReadTarget, group: false, loop_failed: false }
    }

    /// Whether the run has failed: it was broken off, or its event loop ended
    /// with a failure.
    pub fn failed(&self) -> (failed: bool)
        ensures
            failed == self.has_failed(),
    {
        match self.step {
            Step::GivenUp => true,
            _ => self.loop_failed,
        }
    }

    /// What is said of a failure of the step that is due, where the failure
    /// does not speak for itself.
    pub fn failure_context(&self) -> (words: Option<&'static str>)
        ensures
            text::opt_view(words) == failure_words(self.step, self.group),
    {
        match self.step {
            Step::ConfigureAdapter => Some("configure Bluetooth adapter"),
            Step::StartPairingAgent => Some("start Bluetooth pairing agent"),
            Step::StartButtons => Some("GPIO buttons are unavailable"),
            Step::CreateClient => Some("create AirPlay client"),
            Step::Discover => Some("discover AirPlay devices"),
            Step::Connect => {
                if self.group {
                    Some("connect to AirPlay group target")
                } else {
                    Some("connect to AirPlay target")
                }
            },
            Step::SetVolume => Some("failed to set initial AirPlay volume"),
            Step::AwaitSource => Some("wait for Bluetooth A2DP source"),
            Step::StartCapture => Some("start BlueALSA capture"),
            Step::SpawnCapture => Some("spawn Bluetooth capture thread"),
            Step::StartStream => {
                if self.group {
                    Some("start AirPlay group live stream")
                } else {
                    Some("start AirPlay live stream")
                }
            },
            Step::StopCapture => Some("Bluetooth capture thread panicked"),
            Step::StopStream => Some("failed to stop AirPlay stream cleanly"),
            Step::Disconnect => Some("failed to disconnect AirPlay session cleanly"),
            _ => None,
        }
    }
}

/// Each step has its place: none comes up twice in the course.
proof fn lemma_places()
    ensures
        place(Step::ReadTarget) == 0,
        place(Step::CheckSetup) == 1,
        place(Step::ConfigureAdapter) == 2,
        place(Step::StartPairingAgent) == 3,
        place(Step::StartButtons) == 4,
        place(Step::CreateClient) == 5,
        place(Step::Discover) == 6,
        place(Step::SelectTarget) == 7,
        place(Step::Connect) == 8,
        place(Step::SetVolume) == 9,
        place(Step::AwaitSource) == 10,
        place(Step::StartCapture) == 11,
        place(Step::SpawnCapture) == 12,
        place(Step::StartStream) == 13,
        place(Step::EventLoop) == 14,
        place(Step::StopCapture) == 15,
        place(Step::StopMonitor) == 16,
        place(Step::StopStream) == 17,
        place(Step::Disconnect) == 18,
        place(Step::Finished) == 19,
{
    assert(course().no_duplicates());
    assert(course()[0] == Step::ReadTarget);
    assert(course()[1] == Step::CheckSetup);
    assert(course()[2] == Step::ConfigureAdapter);
    assert(course()[3] == Step::StartPairingAgent);
    assert(course()[4] == Step::StartButtons);
    assert(course()[5] == Step::CreateClient);
    assert(course()[6] == Step::Discover);
    assert(course()[7] == Step::SelectTarget);
    assert(course()[8] == Step::Connect);
    assert(course()[9] == Step::SetVolume);
    assert(course()[10] == Step::AwaitSource);
    assert(course()[11] == Step::StartCapture);
    assert(course()[12] == Step::SpawnCapture);
    assert(course()[13] == Step::StartStream);
    assert(course()[14] == Step::EventLoop);
    assert(course()[15] == Step::StopCapture);
    assert(course()[16] == Step::StopMonitor);
    assert(course()[17] == Step::StopStream);
    assert(course()[18] == Step::Disconnect);
    assert(course()[19] == Step::Finished);
}

/// The step after a step of the course.
fn following(step: Step) -> (next: Step)
    requires
        !is_last(step),
    ensures
        next == course()[place(step) + 1],
{
    proof {
        lemma_places();
    }
    match step {
        Step::ReadTarget => Step::CheckSetup,
        Step::CheckSetup => Step::ConfigureAdapter,
        Step::ConfigureAdapter => Step::StartPairingAgent,
        Step::StartPairingAgent => Step::StartButtons,
        Step::StartButtons => Step::CreateClient,
        Step::CreateClient => Step::Discover,
        Step::Discover => Step::SelectTarget,
        Step::SelectTarget => Step::Connect,
        Step::Connect => Step::SetVolume,
        Step::SetVolume => Step::AwaitSource,
        Step::AwaitSource => Step::StartCapture,
        Step::StartCapture => Step::SpawnCapture,
        Step::SpawnCapture => Step::StartStream,
        Step::StartStream => Step::EventLoop,
        Step::EventLoop => Step::StopCapture,
        Step::StopCapture => Step::StopMonitor,
        Step::StopMonitor => Step::StopStream,
        Step::StopStream => Step::Disconnect,
        Step::Disconnect => Step::Finished,
        Step::Finished | Step::GivenUp => step,
    }
}

/// Moves the bridge on by what the step that is due has led to.
///
/// A failure of a step that the bridge cannot do without breaks the course
/// off. A failure of the event loop is noted, and the bridge is still taken
/// down in order.
pub fn run(state: RunState, event: StepEvent) -> (next: RunState)
    ensures
        next == state.after(event),
{
    let failed = match event {
        StepEvent::Failed => true,
        _ => false,
    };
    match state.step {
        Step::Finished | Step::GivenUp => state,
        Step::SelectTarget => match event {
            StepEvent::Failed => RunState { step: Step::GivenUp, ..state },
            StepEvent::Selected { group } => RunState { step: following(state.step), group, ..state },
            StepEvent::Done => RunState { step: following(state.step), group: false, ..state },
        },
        Step::EventLoop => RunState {
            step: following(state.step),
            loop_failed: state.loop_failed || failed,
            ..state
        },
        Step::StartButtons
        | Step::SetVolume
        | Step::StopCapture
        | Step::StopMonitor
        | Step::StopStream
        | Step::Disconnect => RunState { step: following(state.step), ..state },
        _ => {
            if failed {
                RunState { step: Step::GivenUp, ..state }
            } else {
                RunState { step: following(state.step), ..state }
            }
        },
    }
}

/// The steps are taken one after the other, until the last or until the course
/// is broken off.
pub proof fn law_steps_are_taken_in_order(events: Seq<StepEvent>)
    ensures
        RunState::initial().after_all(events).step is GivenUp
            || RunState::initial().after_all(events).step == course()[if events.len()
            < course().len() {
            events.len() as int
        } else {
            course().len() - 1
        }],
    decreases events.len(),
{
    lemma_places();
    if events.len() > 0 {
        law_steps_are_taken_in_order(events.drop_last());
    }
}

/// No step is taken unless all before it that the bridge cannot do without have
/// succeeded.
pub proof fn law_steps_need_those_before(events: Seq<StepEvent>, i: int)
    requires
        !(RunState::initial().after_all(events).step is GivenUp),
        0 <= i < events.len(),
        i < course().len(),
        is_needed(course()[i]),
    ensures
        !(events[i] is Failed),
    decreases events.len(),
{
    let before = events.drop_last();
    law_steps_are_taken_in_order(before);
    if i < before.len() {
        law_steps_need_those_before(before, i);
    }
}

/// The bridge connects and streams to a group if and only if the search picked
/// one.
pub proof fn law_streams_to_what_was_selected(events: Seq<StepEvent>)
    requires
        !(RunState::initial().after_all(events).step is GivenUp),
        events.len() > place(Step::SelectTarget),
    ensures
        RunState::initial().after_all(events).group == (events[place(Step::SelectTarget)]
            == StepEvent::Selected { group: true }),
    decreases events.len(),
{
    lemma_places();
    let before = events.drop_last();
    law_steps_are_taken_in_order(before);
    if before.len() > place(Step::SelectTarget) {
        law_streams_to_what_was_selected(before);
    }
}

/// Once the event loop runs, the bridge is taken down in order, whatever fails
/// on the way, and ends as the event loop ended.
pub proof fn law_loop_is_followed_by_the_rest(state: RunState, events: Seq<StepEvent>)
    requires
        state.step is EventLoop,
        place(Step::EventLoop) + events.len() < course().len(),
    ensures
        state.after_all(events).step == course()[place(Step::EventLoop) + events.len()],
        state.after_all(events).loop_failed == (state.loop_failed || (events.len() > 0
            && events[0] is Failed)),
    decreases events.len(),
{
    lemma_places();
    if events.len() > 0 {
        law_loop_is_followed_by_the_rest(state, events.drop_last());
    }
}

/// The failure of a step that the bridge can do without changes nothing in the
/// steps that follow.
pub proof fn law_optional_steps_may_fail(state: RunState)
    requires
        !is_needed(state.step),
    ensures
        state.after(StepEvent::Failed).step == state.after(StepEvent::Done).step,
{
}

/// Whether the event loop has failed is known once it is over, and never
/// before.
proof fn lemma_loop_failure(events: Seq<StepEvent>)
    requires
        !(RunState::initial().after_all(events).step is GivenUp),
    ensures
        RunState::initial().after_all(events).loop_failed == (events.len() > place(Step::EventLoop)
            && events[place(Step::EventLoop)] is Failed),
    decreases events.len(),
{
    lemma_places();
    if events.len() > 0 {
        let before = events.drop_last();
        law_steps_are_taken_in_order(before);
        lemma_loop_failure(before);
    }
}

/// A run that was not broken off ends as its event loop ended.
pub proof fn law_run_fails_with_its_loop(events: Seq<StepEvent>)
    requires
        RunState::initial().after_all(events).step is Finished,
    ensures
        events.len() >= course().len() - 1,
        RunState::initial().after_all(events).has_failed() <==> events[place(
            Step::EventLoop,
        )] is Failed,
{
    lemma_places();
    law_steps_are_taken_in_order(events);
    lemma_loop_failure(events);
}

} // verus!
