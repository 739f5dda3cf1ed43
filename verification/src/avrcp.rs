//! Media commands of the Bluetooth source, read out of what `dbus-monitor`
//! prints about property changes.

use vstd::prelude::*;

use crate::command::{command_line, CommandLine};
use crate::number::{self, parse_u32};
use crate::split::{self, words};
use crate::text::{self, find, same_text, starts_with};

verus! {

/// The largest volume of a source.
pub const MAX_VOLUME: u8 = 127;

/// A media command of the source.
#[derive(Debug, Clone, Copy, PartialEq, Eq, Structural)]
pub enum MediaCommand {
    Play,
    Pause,
    Stop,
    /// A volume, in 127ths of the full volume.
    Volume(u8),
}

/// The interface whose properties have changed.
#[derive(Debug, Clone, Copy, PartialEq, Eq, Structural)]
pub enum Interface {
    MediaTransport,
    MediaPlayer,
}

/// The string that a line shows: what follows the first `string "`, up to a
/// quotation mark that ends the line.
pub open spec fn string_in(line: Seq<char>) -> Option<Seq<char>> {
    match text::position(line, "string \""@) {
        None => None,
        Some(i) => {
            let value = line.skip(i + "string \""@.len());
            if value.len() > 0 && value.last() == '"' {
                Some(value.drop_last())
            } else {
                None
            }
        },
    }
}

/// The string that a line shows.
pub fn dbus_string(line: &str) -> (value: Option<&str>)
    ensures
        text::opt_view(value) == string_in(line@),
{
    match find(line, "string \"") {
        None => None,
        Some(i) => {
            let end: usize = line.unicode_len();
            let from: usize = i + "string \"".unicode_len();
            let ghost value = line@.skip(from as int);
            if from < end && line.get_char(end - 1) == '"' {
                let text = line.substring_char(from, end - 1);
                assert(text@ =~= value.drop_last());
                Some(text)
            } else {
                None
            }
        },
    }
}

/// Whether a word names an integer type of the bus.
pub open spec fn is_integer_type(word: Seq<char>) -> bool {
    ||| word == "byte"@
    ||| word == "uint16"@
    ||| word == "uint32"@
    ||| word == "int16"@
    ||| word == "int32"@
}

/// Whether a word names an integer type of the bus.
fn integer_type(word: &str) -> (yes: bool)
    ensures
        yes == is_integer_type(word@),
{
    same_text(word, "byte") || same_text(word, "uint16") || same_text(word, "uint32") || same_text(
        word,
        "int16",
    ) || same_text(word, "int32")
}

/// The integer that the words show: the word after the first integer type, if
/// it is a number that is not negative.
pub open spec fn integer_in_words(words: Seq<Seq<char>>) -> Option<int>
    decreases words.len(),
{
    if words.len() == 0 {
        None
    } else if !is_integer_type(words.first()) {
        integer_in_words(words.drop_first())
    } else if words.len() == 1 {
        None
    } else {
        match number::number_value(words[1], 10) {
            Ok(value) => Some(value),
            Err(_) => None,
        }
    }
}

/// The integer that a line shows.
pub fn dbus_integer(line: &str) -> (value: Option<u32>)
    ensures
        (match value {
            Some(v) => Some(v as int),
            None => None,
        }) == integer_in_words(split::words_of(line@)),
{
    let parts = words(line);
    let ghost all = split::words_of(line@);
    assert(all.skip(0) =~= all);
    for i in 0..parts.len()
        invariant
            all == split::words_of(line@),
            all == split::views(parts@),
            integer_in_words(all) == integer_in_words(all.skip(i as int)),
    {
        let ghost rest = all.skip(i as int);
        assert(rest.first() == parts@[i as int]@);
        if integer_type(parts[i].as_str()) {
            if i + 1 == parts.len() {
                return None;
            }
            assert(rest[1] == parts@[i + 1]@);
            return match parse_u32(parts[i + 1].as_str(), 10) {
                Ok(value) => Some(value),
                Err(_) => None,
            };
        }
        assert(rest.drop_first() =~= all.skip(i + 1));
    }
    None
}

/// What has been seen of the current signal.
#[derive(Debug)]
pub struct DbusMonitorParser {
    interface: Option<Interface>,
    pending_key: Option<String>,
}

/// What has been seen of the current signal, with its texts.
#[verifier::ext_equal]
pub struct ParserView {
    /// The interface whose properties follow.
    pub interface: Option<Interface>,
    /// The property whose value comes next.
    pub pending_key: Option<Seq<char>>,
}

impl View for DbusMonitorParser {
    type V = ParserView;

    closed spec fn view(&self) -> ParserView {
        ParserView {
            interface: self.interface,
            pending_key: text::opt_string(self.pending_key),
        }
    }
}

/// The command that a property change stands for.
pub open spec fn command_of(
    interface: Option<Interface>,
    key: Seq<char>,
    value: Seq<char>,
) -> Option<MediaCommand> {
    match interface {
        Some(Interface::MediaTransport) => if key == "State"@ && value == "active"@ {
            Some(MediaCommand::Play)
        } else if key == "State"@ && value == "idle"@ {
            Some(MediaCommand::Pause)
        } else {
            None
        },
        Some(Interface::MediaPlayer) => if key == "Status"@ && value == "playing"@ {
            Some(MediaCommand::Play)
        } else if key == "Status"@ && value == "paused"@ {
            Some(MediaCommand::Pause)
        } else if key == "Status"@ && value == "stopped"@ {
            Some(MediaCommand::Stop)
        } else {
            None
        },
        None => None,
    }
}

/// Whether a string names a property that can give a command.
pub open spec fn is_property(value: Seq<char>) -> bool {
    value == "Volume"@ || value == "State"@ || value == "Status"@
}

/// The interface that a string names.
pub open spec fn interface_named(value: Seq<char>) -> Option<Interface> {
    if value == "org.bluez.MediaTransport1"@ {
        Some(Interface::MediaTransport)
    } else if value == "org.bluez.MediaPlayer1"@ {
        Some(Interface::MediaPlayer)
    } else {
        None
    }
}

/// A volume of the source, held to its range.
pub open spec fn volume_level(volume: int) -> u8 {
    if volume > MAX_VOLUME {
        MAX_VOLUME
    } else {
        volume as u8
    }
}

impl ParserView {
    /// The state after a line, and the command that the line completes.
    ///
    /// A new signal starts afresh. A string names an interface, names a
    /// property, or is the value of the property before it. An integer is the
    /// value of a volume; any other line ends the wait for one, while the wait
    /// for another property goes on.
    pub open spec fn after_line(self, line: Seq<char>) -> (ParserView, Option<MediaCommand>) {
        let idle = ParserView { pending_key: None, ..self };
        if text::begins_with(line, "signal "@) {
            (ParserView::initial(), None)
        } else if string_in(line) is Some && interface_named(string_in(line)->0) is Some {
            (
                ParserView {
                    interface: interface_named(string_in(line)->0),
                    pending_key: None,
                },
                None,
            )
        } else if string_in(line) is Some && is_property(string_in(line)->0) {
            (ParserView { pending_key: string_in(line), ..self }, None)
        } else {
            match self.pending_key {
                None => (self, None),
                Some(key) => if string_in(line) is Some {
                    (idle, command_of(self.interface, key, string_in(line)->0))
                } else if key == "Volume"@ {
                    match integer_in_words(split::words_of(line)) {
                        Some(volume) => (idle, Some(MediaCommand::Volume(volume_level(volume)))),
                        None => (idle, None),
                    }
                } else {
                    (self, None)
                },
            }
        }
    }
}

impl Default for DbusMonitorParser {
    /// Nothing has been seen.
    fn default() -> (parser: Self)
        ensures
            parser@ == ParserView::initial(),
    {
        DbusMonitorParser { interface: None, pending_key: None }
    }
}

impl DbusMonitorParser {
    /// The command that a property change stands for, on the interface seen
    /// last.
    pub fn command_from_string(&self, key: &str, value: &str) -> (command: Option<MediaCommand>)
        ensures
            command == command_of(self@.interface, key@, value@),
    {
        match self.interface {
            Some(Interface::MediaTransport) => {
                if !same_text(key, "State") {
                    None
                } else if same_text(value, "active") {
                    Some(MediaCommand::Play)
                } else if same_text(value, "idle") {
                    Some(MediaCommand::Pause)
                } else {
                    None
                }
            },
            Some(Interface::MediaPlayer) => {
                if !same_text(key, "Status") {
                    None
                } else if same_text(value, "playing") {
                    Some(MediaCommand::Play)
                } else if same_text(value, "paused") {
                    Some(MediaCommand::Pause)
                } else if same_text(value, "stopped") {
                    Some(MediaCommand::Stop)
                } else {
                    None
                }
            },
            None => None,
        }
    }

    /// Takes in a line, and returns the command that it completes.
    pub fn push_line(&mut self, line: &str) -> (command: Option<MediaCommand>)
        ensures
            (final(self)@, command) == old(self)@.after_line(line@),
    {
        if starts_with(line, "signal ") {
            self.interface = None;
            self.pending_key = None;
            return None;
        }
        if let Some(value) = dbus_string(line) {
            if same_text(value, "org.bluez.MediaTransport1") {
                self.interface = Some(Interface::MediaTransport);
                self.pending_key = None;
                return None;
            }
            if same_text(value, "org.bluez.MediaPlayer1") {
                self.interface = Some(Interface::MediaPlayer);
                self.pending_key = None;
                return None;
            }
            if same_text(value, "Volume") || same_text(value, "State") || same_text(
                value,
                "Status",
            ) {
                self.pending_key = Some(value.to_owned());
                return None;
            }
            if let Some(key) = self.pending_key.take() {
                return self.command_from_string(key.as_str(), value);
            }
            return None;
        }
        if let Some(key) = self.pending_key.take() {
            if same_text(key.as_str(), "Volume") {
                if let Some(volume) = dbus_integer(line) {
                    let level: u8 = if volume > MAX_VOLUME as u32 {
                        MAX_VOLUME
                    } else {
                        volume as u8
                    };
                    return Some(MediaCommand::Volume(level));
                }
            } else {
                self.pending_key = Some(key);
            }
        }
        None
    }
}

/// Which messages of the bus are watched.
pub open spec fn monitor_rule() -> Seq<char> {
    "type='signal',sender='org.bluez',interface='org.freedesktop.DBus.Properties',member='PropertiesChanged'"@
}

/// The command that reports changes of Bluetooth properties.
pub fn monitor_command() -> (command: CommandLine)
    ensures
        command@.program == "dbus-monitor"@,
        command@.args == seq!["--system"@, monitor_rule()],
{
    let command = command_line(
        "dbus-monitor",
        &[
            "--system",
            "type='signal',sender='org.bluez',interface='org.freedesktop.DBus.Properties',member='PropertiesChanged'",
        ],
    );
    assert(command@.args =~= seq!["--system"@, monitor_rule()]);
    command
}

impl ParserView {
    /// The state when nothing has been seen.
    pub open spec fn initial() -> ParserView {
        ParserView { interface: None, pending_key: None }
    }

    /// Only properties that can give a command are waited for.
    pub open spec fn well_formed(self) -> bool {
        self.pending_key matches Some(key) ==> is_property(key)
    }

    /// The state after some lines.
    pub open spec fn after_lines(self, lines: Seq<Seq<char>>) -> ParserView
        decreases lines.len(),
    {
        if lines.len() == 0 {
            self
        } else {
            self.after_lines(lines.drop_last()).after_line(lines.last()).0
        }
    }

    /// The command that line `i` completes.
    pub open spec fn command_at(self, lines: Seq<Seq<char>>, i: int) -> Option<MediaCommand> {
        self.after_lines(lines.take(i)).after_line(lines[i]).1
    }
}

/// Every line keeps the state well formed.
pub proof fn law_lines_keep_the_parser_well_formed(state: ParserView, line: Seq<char>)
    requires
        state.well_formed(),
    ensures
        ParserView::initial().well_formed(),
        state.after_line(line).0.well_formed(),
{
}

/// A line that completes a command ends the wait for a value.
pub proof fn law_commands_end_the_wait(state: ParserView, line: Seq<char>)
    requires
        state.after_line(line).1 is Some,
    ensures
        state.pending_key is Some,
        state.after_line(line).0.pending_key is None,
        state.after_line(line).0.interface == state.interface,
{
}

/// An integer that words show is not negative.
proof fn lemma_integers_are_natural(words: Seq<Seq<char>>)
    ensures
        integer_in_words(words) matches Some(value) ==> value >= 0,
    decreases words.len(),
{
    if words.len() > 0 {
        lemma_integers_are_natural(words.drop_first());
        if words.len() > 1 {
            number::law_numbers_fit(words[1], 10);
        }
    }
}

/// A volume is in range, whatever the source sent.
pub proof fn law_volume_is_in_range(state: ParserView, line: Seq<char>)
    ensures
        state.after_line(line).1 matches Some(MediaCommand::Volume(level)) ==> level <= MAX_VOLUME,
{
    lemma_integers_are_natural(split::words_of(line));
}

/// Playing, pausing and stopping are taken only from a known interface.
pub proof fn law_playback_needs_an_interface(state: ParserView, line: Seq<char>)
    requires
        state.after_line(line).1 is Some,
        !(state.after_line(line).1->0 is Volume),
    ensures
        state.interface is Some,
{
}

/// A new signal starts afresh: what it gives does not depend on what came
/// before it.
pub proof fn law_signals_are_independent(
    state: ParserView,
    signal: Seq<char>,
    lines: Seq<Seq<char>>,
    i: int,
)
    requires
        text::begins_with(signal, "signal "@),
        0 <= i <= lines.len(),
    ensures
        state.after_lines(seq![signal] + lines.take(i)) == ParserView::initial().after_lines(
            lines.take(i),
        ),
        i < lines.len() ==> state.command_at(seq![signal] + lines, i + 1)
            == ParserView::initial().command_at(lines, i),
    decreases i,
{
    let all = seq![signal] + lines.take(i);
    if i == 0 {
        assert(all.drop_last() =~= Seq::<Seq<char>>::empty());
        assert(state.after_lines(all.drop_last()) == state);
        assert(lines.take(0) =~= Seq::<Seq<char>>::empty());
        assert(ParserView::initial().after_lines(lines.take(0)) == ParserView::initial());
    } else {
        law_signals_are_independent(state, signal, lines, i - 1);
        assert(all.drop_last() =~= seq![signal] + lines.take(i - 1));
        assert(lines.take(i).drop_last() =~= lines.take(i - 1));
    }
    if i < lines.len() {
        assert((seq![signal] + lines).take(i + 1) =~= all);
        assert((seq![signal] + lines)[i + 1] == lines[i]);
    }
}

/// The first `string "` of a line stands where the first quotation mark does.
#[verifier::spinoff_prover]
proof fn lemma_first_opening(before: Seq<char>, rest: Seq<char>)
    requires
        !before.contains('"'),
    ensures
        text::position(before + "string \""@ + rest, "string \""@) == Some(before.len() as int),
{
    reveal_strlit("string \"");
    let opening = "string \""@;
    let line = before + opening + rest;
    let at = before.len() as int;
    assert(opening.len() == 8 && opening[7] == '"');
    assert(forall|k: int| 0 <= k < 7 ==> opening[k] != '"');
    assert forall|j: int| 0 <= j < at implies !text::occurs_at(line, opening, j) by {
        if text::occurs_at(line, opening, j) {
            assert(line.subrange(j, j + 8)[7] == opening[7]);
            assert(line[j + 7] == '"');
            if j + 7 < at {
                assert(before.contains(before[j + 7]));
            } else {
                assert(line[j + 7] == opening[j + 7 - at]);
            }
        }
    }
    assert(line.subrange(at, at + 8) =~= opening);
    text::lemma_position(line, opening, at);
}

/// A string is shown where it stands between `string "` and a quotation mark at
/// the end of the line, whatever stands before that, as long as no quotation
/// mark does.
#[verifier::spinoff_prover]
pub proof fn law_string_stands_in_its_quotes(before: Seq<char>, value: Seq<char>)
    requires
        !before.contains('"'),
    ensures
        string_in(before + "string \""@ + value + seq!['"']) == Some(value),
{
    let opening = "string \""@;
    let rest = value + seq!['"'];
    let line = before + opening + rest;
    lemma_first_opening(before, rest);
    assert(before + opening + value + seq!['"'] =~= line);
    assert(line.skip(before.len() as int + opening.len()) =~= rest);
    assert(rest.drop_last() =~= value);
}

/// A line shows a string only if the string stands in it between `string "` and
/// a quotation mark at the end.
pub proof fn law_shown_strings_are_quoted(line: Seq<char>)
    ensures
        string_in(line) matches Some(value) ==> exists|i: int|
            #![trigger line.take(i)]
            0 <= i <= line.len() && line == line.take(i) + "string \""@ + value + seq!['"'],
        !text::occurs(line, "string \""@) ==> string_in(line) is None,
        line.len() == 0 || line.last() != '"' ==> string_in(line) is None,
{
    let opening = "string \""@;
    text::law_position_is_the_first(line, opening);
    if string_in(line) is Some {
        let i = text::position(line, opening)->0;
        let value = line.skip(i + opening.len());
        assert(line.skip(i).take(opening.len() as int) =~= opening);
        assert(line.take(i) + line.skip(i).take(opening.len() as int) + value =~= line);
        assert(value =~= value.drop_last() + seq!['"']);
        assert(line =~= line.take(i) + opening + string_in(line)->0 + seq!['"']);
    }
    if line.len() == 0 || line.last() != '"' {
        if string_in(line) is Some {
            let i = text::position(line, opening)->0;
            assert(line.skip(i + opening.len()).last() == line.last());
        }
    }
}

/// Within a signal, the interface changes only at a line that names one: any
/// other line leaves it as it is.
pub proof fn law_interface_lasts_through_its_signal(state: ParserView, line: Seq<char>)
    requires
        !text::begins_with(line, "signal "@),
        string_in(line) != Some("org.bluez.MediaTransport1"@),
        string_in(line) != Some("org.bluez.MediaPlayer1"@),
    ensures
        state.after_line(line).0.interface == state.interface,
{
}

/// The interface lasts through any number of lines that begin no signal and
/// name no interface.
pub proof fn law_interface_lasts_through_lines(state: ParserView, lines: Seq<Seq<char>>)
    requires
        forall|i: int|
            0 <= i < lines.len() ==> {
                &&& !text::begins_with(#[trigger] lines[i], "signal "@)
                &&& string_in(lines[i]) != Some("org.bluez.MediaTransport1"@)
                &&& string_in(lines[i]) != Some("org.bluez.MediaPlayer1"@)
            },
    ensures
        state.after_lines(lines).interface == state.interface,
    decreases lines.len(),
{
    if lines.len() > 0 {
        let before = lines.drop_last();
        assert forall|i: int| 0 <= i < before.len() implies {
            &&& !text::begins_with(#[trigger] before[i], "signal "@)
            &&& string_in(before[i]) != Some("org.bluez.MediaTransport1"@)
            &&& string_in(before[i]) != Some("org.bluez.MediaPlayer1"@)
        } by {
            assert(before[i] == lines[i]);
        }
        law_interface_lasts_through_lines(state, before);
        law_interface_lasts_through_its_signal(
            state.after_lines(before),
            lines[lines.len() - 1],
        );
    }
}

/// The names that the parser listens for all differ.
proof fn lemma_names_differ()
    ensures
        "Volume"@ != "State"@,
        "Volume"@ != "Status"@,
        "State"@ != "Status"@,
        "org.bluez.MediaTransport1"@ != "org.bluez.MediaPlayer1"@,
        interface_named("Volume"@) is None,
        interface_named("State"@) is None,
        interface_named("Status"@) is None,
        "playing"@ != "paused"@,
        "playing"@ != "stopped"@,
        "paused"@ != "stopped"@,
        "active"@ != "idle"@,
        forall|value: Seq<char>| #[trigger]
            is_value(value) ==> interface_named(value) is None && !is_property(value),
{
    reveal_strlit("Volume");
    reveal_strlit("State");
    reveal_strlit("Status");
    reveal_strlit("org.bluez.MediaTransport1");
    reveal_strlit("org.bluez.MediaPlayer1");
    reveal_strlit("playing");
    reveal_strlit("paused");
    reveal_strlit("stopped");
    reveal_strlit("active");
    reveal_strlit("idle");
    assert("Volume"@[0] == 'V' && "State"@[0] == 'S' && "Status"@[0] == 'S');
    assert("State"@.len() == 5 && "Status"@.len() == 6);
    assert("org.bluez.MediaTransport1"@.len() == 25 && "org.bluez.MediaPlayer1"@.len() == 22);
    assert("playing"@[1] == 'l' && "paused"@[1] == 'a' && "stopped"@[0] == 's');
    assert("playing"@[0] == 'p' && "paused"@[0] == 'p' && "active"@[0] == 'a' && "idle"@[0] == 'i');
}

/// Whether a string is a value that gives a command.
spec fn is_value(value: Seq<char>) -> bool {
    ||| value == "playing"@
    ||| value == "paused"@
    ||| value == "stopped"@
    ||| value == "active"@
    ||| value == "idle"@
}

/// The state of a player is followed: once its interface was named, and
/// whatever other properties were listed since, a status of playing, paused or
/// stopped gives the command of that name.
pub proof fn law_player_status_is_followed(
    state: ParserView,
    naming: Seq<char>,
    others: Seq<Seq<char>>,
    key: Seq<char>,
    value: Seq<char>,
)
    requires
        !text::begins_with(naming, "signal "@),
        string_in(naming) == Some("org.bluez.MediaPlayer1"@),
        forall|i: int|
            0 <= i < others.len() ==> {
                &&& !text::begins_with(#[trigger] others[i], "signal "@)
                &&& string_in(others[i]) != Some("org.bluez.MediaTransport1"@)
                &&& string_in(others[i]) != Some("org.bluez.MediaPlayer1"@)
            },
        !text::begins_with(key, "signal "@),
        string_in(key) == Some("Status"@),
        !text::begins_with(value, "signal "@),
    ensures
        ({
            let named = state.after_line(naming).0;
            let asked = named.after_lines(others).after_line(key);
            let command = asked.0.after_line(value).1;
            &&& asked.1 is None
            &&& string_in(value) == Some("playing"@) ==> command == Some(MediaCommand::Play)
            &&& string_in(value) == Some("paused"@) ==> command == Some(MediaCommand::Pause)
            &&& string_in(value) == Some("stopped"@) ==> command == Some(MediaCommand::Stop)
        }),
{
    lemma_names_differ();
    let named = state.after_line(naming).0;
    law_interface_lasts_through_lines(named, others);
    assert(is_value("playing"@) && is_value("paused"@) && is_value("stopped"@));
}

/// The state of a transport is followed: once its interface was named, and
/// whatever other properties were listed since, a state of active or idle
/// starts or pauses the playing.
pub proof fn law_transport_state_is_followed(
    state: ParserView,
    naming: Seq<char>,
    others: Seq<Seq<char>>,
    key: Seq<char>,
    value: Seq<char>,
)
    requires
        !text::begins_with(naming, "signal "@),
        string_in(naming) == Some("org.bluez.MediaTransport1"@),
        forall|i: int|
            0 <= i < others.len() ==> {
                &&& !text::begins_with(#[trigger] others[i], "signal "@)
                &&& string_in(others[i]) != Some("org.bluez.MediaTransport1"@)
                &&& string_in(others[i]) != Some("org.bluez.MediaPlayer1"@)
            },
        !text::begins_with(key, "signal "@),
        string_in(key) == Some("State"@),
        !text::begins_with(value, "signal "@),
    ensures
        ({
            let named = state.after_line(naming).0;
            let asked = named.after_lines(others).after_line(key);
            let command = asked.0.after_line(value).1;
            &&& asked.1 is None
            &&& string_in(value) == Some("active"@) ==> command == Some(MediaCommand::Play)
            &&& string_in(value) == Some("idle"@) ==> command == Some(MediaCommand::Pause)
        }),
{
    lemma_names_differ();
    let named = state.after_line(naming).0;
    law_interface_lasts_through_lines(named, others);
    assert(is_value("active"@) && is_value("idle"@));
}

/// While a state or status is waited for, lines without a string let the wait
/// go on, and give no command.
pub proof fn law_lines_without_a_string_wait(state: ParserView, line: Seq<char>)
    requires
        !text::begins_with(line, "signal "@),
        string_in(line) is None,
        state.pending_key != Some("Volume"@),
    ensures
        state.after_line(line) == (state, None::<MediaCommand>),
{
}

/// A command comes only at the value that was waited for: playing, pausing and
/// stopping at a string of that meaning, under the property and the interface
/// that it belongs to.
pub proof fn law_commands_come_from_their_values(state: ParserView, line: Seq<char>)
    requires
        state.after_line(line).1 is Some,
        !(state.after_line(line).1->0 is Volume),
    ensures
        !text::begins_with(line, "signal "@),
        state.interface == Some(Interface::MediaPlayer) ==> state.pending_key == Some("Status"@),
        state.interface == Some(Interface::MediaTransport) ==> state.pending_key == Some("State"@),
        state.after_line(line).1 == Some(MediaCommand::Play) ==> string_in(line) == Some(
            "playing"@,
        ) || string_in(line) == Some("active"@),
        state.after_line(line).1 == Some(MediaCommand::Pause) ==> string_in(line) == Some(
            "paused"@,
        ) || string_in(line) == Some("idle"@),
        state.after_line(line).1 == Some(MediaCommand::Stop) ==> string_in(line) == Some(
            "stopped"@,
        ),
{
}

/// The integer of a line is the number after the first word that names an
/// integer type, whatever other words stand before and after it.
pub proof fn law_integer_follows_its_type(
    before: Seq<Seq<char>>,
    kind: Seq<char>,
    value: nat,
    after: Seq<Seq<char>>,
)
    requires
        forall|i: int| 0 <= i < before.len() ==> !is_integer_type(#[trigger] before[i]),
        kind == "byte"@ || kind == "uint16"@ || kind == "uint32"@ || kind == "int16"@ || kind
            == "int32"@,
        value <= u32::MAX,
    ensures
        integer_in_words(before + seq![kind, number::numeral(value, 10)] + after) == Some(
            value as int,
        ),
    decreases before.len(),
{
    let all = before + seq![kind, number::numeral(value, 10)] + after;
    if before.len() == 0 {
        assert(all.first() == kind && all[1] == number::numeral(value, 10));
        number::law_written_numbers_are_read_back(value, 10, 0);
    } else {
        assert(!is_integer_type(before[0]));
        assert(all.first() == before[0]);
        let rest = before.drop_first();
        assert forall|i: int| 0 <= i < rest.len() implies !is_integer_type(#[trigger] rest[i]) by {
            assert(rest[i] == before[i + 1]);
        }
        law_integer_follows_its_type(rest, kind, value, after);
        assert(all.drop_first() =~= rest + seq![kind, number::numeral(value, 10)] + after);
    }
}

/// Without a word that names an integer type there is no integer.
pub proof fn law_no_integer_without_a_type(words: Seq<Seq<char>>)
    requires
        forall|i: int|
            0 <= i < words.len() ==> (#[trigger] words[i]) != "byte"@ && words[i] != "uint16"@
                && words[i] != "uint32"@ && words[i] != "int16"@ && words[i] != "int32"@,
    ensures
        integer_in_words(words) is None,
    decreases words.len(),
{
    if words.len() > 0 {
        assert(words.first() == words[0]);
        assert forall|i: int| 0 <= i < words.drop_first().len() implies (
        #[trigger] words.drop_first()[i]) != "byte"@ && words.drop_first()[i] != "uint16"@
            && words.drop_first()[i] != "uint32"@ && words.drop_first()[i] != "int16"@
            && words.drop_first()[i] != "int32"@ by {
            assert(words.drop_first()[i] == words[i + 1]);
        }
        law_no_integer_without_a_type(words.drop_first());
    }
}

/// A volume is followed on any interface: the integer after its name gives it,
/// as it is up to the largest volume and as that beyond.
pub proof fn law_volume_is_followed(
    state: ParserView,
    key: Seq<char>,
    line: Seq<char>,
    before: Seq<Seq<char>>,
    kind: Seq<char>,
    value: nat,
)
    requires
        !text::begins_with(key, "signal "@),
        string_in(key) == Some("Volume"@),
        !text::begins_with(line, "signal "@),
        string_in(line) is None,
        split::words_of(line) == before + seq![kind, number::numeral(value, 10)],
        forall|i: int| 0 <= i < before.len() ==> !is_integer_type(#[trigger] before[i]),
        kind == "byte"@ || kind == "uint16"@ || kind == "uint32"@ || kind == "int16"@ || kind
            == "int32"@,
        value <= u32::MAX,
    ensures
        ({
            let asked = state.after_line(key);
            let command = asked.0.after_line(line).1;
            &&& asked.1 is None
            &&& command matches Some(MediaCommand::Volume(level)) && level as int == (if value
                <= 127 {
                value as int
            } else {
                127
            })
        }),
{
    lemma_names_differ();
    law_integer_follows_its_type(before, kind, value, Seq::empty());
    assert(before + seq![kind, number::numeral(value, 10)] + Seq::<Seq<char>>::empty() =~= before
        + seq![kind, number::numeral(value, 10)]);
}

/// Exactly the signals are watched that BlueZ sends about changed properties.
pub proof fn law_monitor_watches_property_changes()
    ensures
        monitor_rule() == "type='signal'"@ + ",sender='org.bluez'"@
            + ",interface='org.freedesktop.DBus.Properties'"@ + ",member='PropertiesChanged'"@,
{
    reveal_strlit(
        "type='signal',sender='org.bluez',interface='org.freedesktop.DBus.Properties',member='PropertiesChanged'",
    );
    reveal_strlit("type='signal'");
    reveal_strlit(",sender='org.bluez'");
    reveal_strlit(",interface='org.freedesktop.DBus.Properties'");
    reveal_strlit(",member='PropertiesChanged'");
    assert(monitor_rule() =~= "type='signal'"@ + ",sender='org.bluez'"@
        + ",interface='org.freedesktop.DBus.Properties'"@ + ",member='PropertiesChanged'"@);
}

} // verus!
