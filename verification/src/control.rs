//! What the bridge does about the events that reach it while it runs.

use vstd::prelude::*;

use crate::avrcp::MediaCommand;
use crate::bluetooth::devices::PlayerMethod;
use crate::buttons::ButtonCommand;

verus! {

/// What a media command asks of the AirPlay side.
#[derive(Debug, Clone, Copy, PartialEq, Eq, Structural)]
pub enum MediaAction {
    Resume,
    Pause,
    Stop,
    /// Set the volume to this many 127ths.
    SetVolume(u8),
    /// The volume of the source is not followed.
    IgnoreVolume(u8),
}

/// What a media command of the source asks for.
pub open spec fn media_action(command: MediaCommand, sync_bluetooth_volume: bool) -> MediaAction {
    match command {
        MediaCommand::Play => MediaAction::Resume,
        MediaCommand::Pause => MediaAction::Pause,
        MediaCommand::Stop => MediaAction::Stop,
        MediaCommand::Volume(level) => if sync_bluetooth_volume {
            MediaAction::SetVolume(level)
        } else {
            MediaAction::IgnoreVolume(level)
        },
    }
}

/// What is done about a media command of the source.
pub fn apply_media_command(command: MediaCommand, sync_bluetooth_volume: bool) -> (action:
    MediaAction)
    ensures
        action == media_action(command, sync_bluetooth_volume),
{
    match command {
        MediaCommand::Play => MediaAction::Resume,
        MediaCommand::Pause => MediaAction::Pause,
        MediaCommand::Stop => MediaAction::Stop,
        MediaCommand::Volume(level) => {
            if sync_bluetooth_volume {
                MediaAction::SetVolume(level)
            } else {
                MediaAction::IgnoreVolume(level)
            }
        },
    }
}

/// One thing that a button command asks for.
#[derive(Debug, Clone, Copy, PartialEq, Eq, Structural)]
pub enum ButtonAction {
    /// Call a method of the source's media player.
    Player(PlayerMethod),
    /// Pause the AirPlay side.
    PauseAirPlay,
    /// Resume the AirPlay side.
    ResumeAirPlay,
    /// Disconnect every connected Bluetooth device.
    Disconnect,
    /// Approve the next pairing prompt.
    ApprovePairing,
}

/// What a button command asks for, in order.
pub open spec fn button_actions(command: ButtonCommand) -> Seq<ButtonAction> {
    match command {
        ButtonCommand::EnterRewindMode => seq![ButtonAction::Player(PlayerMethod::Rewind)],
        ButtonCommand::EnterFastForwardMode => seq![
            ButtonAction::Player(PlayerMethod::FastForward),
        ],
        ButtonCommand::Previous => seq![ButtonAction::Player(PlayerMethod::Previous)],
        ButtonCommand::Next => seq![ButtonAction::Player(PlayerMethod::Next)],
        ButtonCommand::Pause => seq![
            ButtonAction::Player(PlayerMethod::Pause),
            ButtonAction::PauseAirPlay,
        ],
        ButtonCommand::Disconnect => seq![ButtonAction::Disconnect],
        ButtonCommand::Play => seq![
            ButtonAction::Player(PlayerMethod::Play),
            ButtonAction::ResumeAirPlay,
        ],
        ButtonCommand::ApprovePairing => seq![ButtonAction::ApprovePairing],
    }
}

/// What is done about a button command, in order: the source's player comes
/// before the AirPlay side.
pub fn apply_button_command(command: ButtonCommand) -> (actions: Vec<ButtonAction>)
    ensures
        actions@ == button_actions(command),
{
    let mut actions: Vec<ButtonAction> = Vec::new();
    match command {
        ButtonCommand::EnterRewindMode => {
            actions.push(ButtonAction::Player(PlayerMethod::Rewind));
        },
        ButtonCommand::EnterFastForwardMode => {
            actions.push(ButtonAction::Player(PlayerMethod::FastForward));
        },
        ButtonCommand::Previous => {
            actions.push(ButtonAction::Player(PlayerMethod::Previous));
        },
        ButtonCommand::Next => {
            actions.push(ButtonAction::Player(PlayerMethod::Next));
        },
        ButtonCommand::Pause => {
            actions.push(ButtonAction::Player(PlayerMethod::Pause));
            actions.push(ButtonAction::PauseAirPlay);
        },
        ButtonCommand::Disconnect => {
            actions.push(ButtonAction::Disconnect);
        },
        ButtonCommand::Play => {
            actions.push(ButtonAction::Player(PlayerMethod::Play));
            actions.push(ButtonAction::ResumeAirPlay);
        },
        ButtonCommand::ApprovePairing => {
            actions.push(ButtonAction::ApprovePairing);
        },
    }
    assert(actions@ =~= button_actions(command));
    actions
}

/// What a button command asks for before a source is connected: pairing and
/// disconnecting work, everything else has to wait.
pub open spec fn waiting_action(command: ButtonCommand) -> Option<ButtonAction> {
    match command {
        ButtonCommand::ApprovePairing => Some(ButtonAction::ApprovePairing),
        ButtonCommand::Disconnect => Some(ButtonAction::Disconnect),
        _ => None,
    }
}

/// What is done about a button command before a source is connected.
pub fn apply_waiting_button_command(command: ButtonCommand) -> (action: Option<ButtonAction>)
    ensures
        action == waiting_action(command),
{
    match command {
        ButtonCommand::ApprovePairing => Some(ButtonAction::ApprovePairing),
        ButtonCommand::Disconnect => Some(ButtonAction::Disconnect),
        _ => None,
    }
}

/// The buttons that work before a source is connected do then what they do
/// afterwards.
pub proof fn law_waiting_buttons_do_the_same(command: ButtonCommand)
    requires
        waiting_action(command) is Some,
    ensures
        button_actions(command) == seq![waiting_action(command)->0],
{
}

/// An event that reaches the running bridge.
#[derive(Debug)]
pub enum LoopEvent {
    /// The user asks for the end.
    Shutdown,
    /// Feedback was due: whether sending it failed, and how; and whether the
    /// capture has failed.
    Feedback { error: Option<String>, capture_failed: bool },
    /// Statistics are due.
    Statistics,
    /// The source sent a media command.
    Media(MediaCommand),
    /// A button was pressed.
    Button(ButtonCommand),
}

/// What the running bridge does about an event.
#[derive(Debug)]
pub enum LoopAction {
    /// End, in good order.
    Finish,
    /// End with this error.
    Fail(String),
    /// Go on.
    Continue,
    /// Report the statistics, and go on.
    Report,
    /// See to a media command, and go on.
    Media(MediaAction),
    /// See to a button command, and go on.
    Buttons(Vec<ButtonAction>),
}

/// What is to be done about an event, with its texts.
pub enum LoopView {
    Finish,
    Fail(Seq<char>),
    Continue,
    Report,
    Media(MediaAction),
    Buttons(Seq<ButtonAction>),
}

impl View for LoopAction {
    type V = LoopView;

    open spec fn view(&self) -> LoopView {
        match self {
            LoopAction::Finish => LoopView::Finish,
            LoopAction::Fail(message) => LoopView::Fail(message@),
            LoopAction::Continue => LoopView::Continue,
            LoopAction::Report => LoopView::Report,
            LoopAction::Media(action) => LoopView::Media(*action),
            LoopAction::Buttons(actions) => LoopView::Buttons(actions@),
        }
    }
}

/// What is to be done about an event. A failure to send feedback weighs more
/// than a failed capture.
pub open spec fn loop_action(event: LoopEvent, sync_bluetooth_volume: bool) -> LoopView {
    match event {
        LoopEvent::Shutdown => LoopView::Finish,
        LoopEvent::Feedback { error, capture_failed } => match error {
            Some(error) => LoopView::Fail("AirPlay feedback failed: "@ + error@),
            None => if capture_failed {
                LoopView::Fail("Bluetooth capture failed"@)
            } else {
                LoopView::Continue
            },
        },
        LoopEvent::Statistics => LoopView::Report,
        LoopEvent::Media(command) => LoopView::Media(media_action(command, sync_bluetooth_volume)),
        LoopEvent::Button(command) => LoopView::Buttons(button_actions(command)),
    }
}

/// What the running bridge does about an event.
pub fn event_loop(event: LoopEvent, sync_bluetooth_volume: bool) -> (action: LoopAction)
    ensures
        action@ == loop_action(event, sync_bluetooth_volume),
{
    match event {
        LoopEvent::Shutdown => LoopAction::Finish,
        LoopEvent::Feedback { error, capture_failed } => match error {
            Some(error) => LoopAction::Fail(
                "AirPlay feedback failed: ".to_owned().concat(error.as_str()),
            ),
            None => if capture_failed {
                LoopAction::Fail("Bluetooth capture failed".to_owned())
            } else {
                LoopAction::Continue
            },
        },
        LoopEvent::Statistics => LoopAction::Report,
        LoopEvent::Media(command) => LoopAction::Media(
            apply_media_command(command, sync_bluetooth_volume),
        ),
        LoopEvent::Button(command) => LoopAction::Buttons(apply_button_command(command)),
    }
}

/// Before a source is connected, a button is acted on if and only if it
/// approves pairing or disconnects: a new source can be paired then, and a
/// stray one sent away, while nothing is there to be played.
pub proof fn law_waiting_buttons_pair_and_disconnect(command: ButtonCommand)
    ensures
        waiting_action(command) is Some <==> command == ButtonCommand::ApprovePairing || command
            == ButtonCommand::Disconnect,
        waiting_action(command) == Some(ButtonAction::ApprovePairing) <==> command
            == ButtonCommand::ApprovePairing,
        waiting_action(command) == Some(ButtonAction::Disconnect) <==> command
            == ButtonCommand::Disconnect,
{
}

/// Each thing that buttons can bring about is brought about by the buttons that
/// are there for it, and by no other.
pub proof fn law_each_action_has_its_button(command: ButtonCommand)
    ensures
        button_actions(command).contains(ButtonAction::ApprovePairing) <==> command
            == ButtonCommand::ApprovePairing,
        button_actions(command).contains(ButtonAction::Disconnect) <==> command
            == ButtonCommand::Disconnect,
        button_actions(command).contains(ButtonAction::PauseAirPlay) <==> command
            == ButtonCommand::Pause,
        button_actions(command).contains(ButtonAction::ResumeAirPlay) <==> command
            == ButtonCommand::Play,
        button_actions(command).contains(ButtonAction::Player(PlayerMethod::Pause)) <==> command
            == ButtonCommand::Pause,
        button_actions(command).contains(ButtonAction::Player(PlayerMethod::Play)) <==> command
            == ButtonCommand::Play,
        button_actions(command).contains(ButtonAction::Player(PlayerMethod::Next)) <==> command
            == ButtonCommand::Next,
        button_actions(command).contains(ButtonAction::Player(PlayerMethod::Previous)) <==> command
            == ButtonCommand::Previous,
        button_actions(command).contains(ButtonAction::Player(PlayerMethod::Rewind)) <==> command
            == ButtonCommand::EnterRewindMode,
        button_actions(command).contains(ButtonAction::Player(PlayerMethod::FastForward))
            <==> command == ButtonCommand::EnterFastForwardMode,
        button_actions(command).no_duplicates(),
{
    let actions = button_actions(command);
    assert(actions.len() == 1 || actions.len() == 2);
    assert(actions.contains(actions[0]));
    if actions.len() == 2 {
        assert(actions.contains(actions[1]));
    }
}

/// The source's player is told before the AirPlay side.
pub proof fn law_player_comes_before_airplay(command: ButtonCommand, i: int, j: int)
    requires
        0 <= i < button_actions(command).len(),
        0 <= j < button_actions(command).len(),
        button_actions(command)[i] is Player,
        !(button_actions(command)[j] is Player),
    ensures
        i < j,
{
}

/// The volume of the source is followed if and only if the configuration says
/// so, and then as it is; everything else is followed in any case.
pub proof fn law_volume_is_followed_if_wanted(command: MediaCommand, level: u8, sync: bool)
    ensures
        media_action(MediaCommand::Volume(level), true) == MediaAction::SetVolume(level),
        media_action(MediaCommand::Volume(level), false) == MediaAction::IgnoreVolume(level),
        media_action(command, sync) is SetVolume <==> command is Volume && sync,
        media_action(command, sync) is IgnoreVolume <==> command is Volume && !sync,
        media_action(command, sync) is Resume <==> command is Play,
        media_action(command, sync) is Pause <==> command is Pause,
        media_action(command, sync) is Stop <==> command is Stop,
{
}

/// The bridge ends in good order if and only if the user asks for it, and with
/// an error if and only if feedback was due and could not be sent or the
/// capture had failed by then.
pub proof fn law_loop_ends_for_a_reason(event: LoopEvent, sync: bool)
    ensures
        loop_action(event, sync) is Finish <==> event is Shutdown,
        loop_action(event, sync) is Fail <==> event is Feedback && (event->error is Some
            || event->capture_failed),
        event is Feedback && event->error is Some ==> loop_action(event, sync) == LoopView::Fail(
            "AirPlay feedback failed: "@ + event->error->0@,
        ),
        loop_action(event, sync) is Report <==> event is Statistics,
{
}

/// Media commands and buttons do in the running bridge what they do by
/// themselves.
pub proof fn law_loop_passes_commands_on(media: MediaCommand, button: ButtonCommand, sync: bool)
    ensures
        loop_action(LoopEvent::Media(media), sync) == LoopView::Media(media_action(media, sync)),
        loop_action(LoopEvent::Button(button), sync) == LoopView::Buttons(button_actions(button)),
{
}

} // verus!
