//! Connected devices: their media players, and how they are disconnected.

use vstd::prelude::*;

use crate::bluetooth::address::is_mac_address;
use crate::command::{
    command_line, first_failure, lemma_first_failure, succeeded, CommandLine, CommandOutput,
    CommandText,
};
use crate::number;
use crate::split::{self, lines, words};
use crate::text::{self, contains, find, trim};

verus! {

/// A method of a media player.
#[derive(Debug, Clone, Copy, PartialEq, Eq, Structural)]
pub enum PlayerMethod {
    Play,
    Pause,
    Previous,
    Next,
    Rewind,
    FastForward,
}

impl PlayerMethod {
    /// The method's name on the bus.
    pub open spec fn bus_name(self) -> Seq<char> {
        match self {
            PlayerMethod::Play => "Play"@,
            PlayerMethod::Pause => "Pause"@,
            PlayerMethod::Previous => "Previous"@,
            PlayerMethod::Next => "Next"@,
            PlayerMethod::Rewind => "Rewind"@,
            PlayerMethod::FastForward => "FastForward"@,
        }
    }

    /// The method's name on the bus.
    pub fn name(self) -> (name: &'static str)
        ensures
            name@ == self.bus_name(),
    {
        match self {
            PlayerMethod::Play => "Play",
            PlayerMethod::Pause => "Pause",
            PlayerMethod::Previous => "Previous",
            PlayerMethod::Next => "Next",
            PlayerMethod::Rewind => "Rewind",
            PlayerMethod::FastForward => "FastForward",
        }
    }
}

/// The path of the media player that a line of the bus tree names.
pub open spec fn player_in_line(line: Seq<char>) -> Option<Seq<char>> {
    match text::position(line, "/org/bluez"@) {
        Some(i) => if text::occurs(line.skip(i), "/player"@) {
            Some(text::trimmed(line.skip(i)))
        } else {
            None
        },
        None => None,
    }
}

/// The path of the first media player that the lines name.
pub open spec fn first_player(lines: Seq<Seq<char>>) -> Option<Seq<char>>
    decreases lines.len(),
{
    if lines.len() == 0 {
        None
    } else if player_in_line(lines.first()) is Some {
        player_in_line(lines.first())
    } else {
        first_player(lines.drop_first())
    }
}

/// The path of the media player that a line of the bus tree names.
fn player_of(line: &str) -> (path: Option<String>)
    ensures
        text::opt_string(path) == player_in_line(line@),
{
    match find(line, "/org/bluez") {
        Some(i) => {
            let path = line.substring_char(i, line.unicode_len());
            assert(path@ =~= line@.skip(i as int));
            if contains(path, "/player") {
                Some(trim(path).to_owned())
            } else {
                None
            }
        },
        None => None,
    }
}

/// The path of the first media player in a bus tree.
pub fn player_path_in(tree: &str) -> (path: Option<String>)
    ensures
        text::opt_string(path) == first_player(split::lines_of(tree@)),
{
    let list = lines(tree);
    let ghost all = split::lines_of(tree@);
    assert(all.skip(0) =~= all);
    for i in 0..list.len()
        invariant
            all == split::lines_of(tree@),
            all == split::views(list@),
            first_player(all) == first_player(all.skip(i as int)),
    {
        assert(all.skip(i as int).first() == list@[i as int]@);
        let path = player_of(list[i].as_str());
        if path.is_some() {
            return path;
        }
        assert(all.skip(i as int).drop_first() =~= all.skip(i + 1));
    }
    None
}

/// The path of the first media player, given the output of
/// [`player_tree_command`]; none where that failed.
pub fn find_bluez_media_player_path(output: &CommandOutput) -> (path: Option<String>)
    ensures
        text::opt_string(path) == (if output.success {
            first_player(split::lines_of(output.printed()))
        } else {
            None
        }),
{
    if !output.success {
        return None;
    }
    let tree = output.stdout_text();
    player_path_in(tree.as_str())
}

/// The command that shows the tree of the Bluetooth service on the bus.
pub fn player_tree_command() -> (command: CommandLine)
    ensures
        command@.program == "busctl"@,
        command@.args == seq!["--system"@, "tree"@, "org.bluez"@],
{
    let command = command_line("busctl", &["--system", "tree", "org.bluez"]);
    assert(command@.args =~= seq!["--system"@, "tree"@, "org.bluez"@]);
    command
}

/// The texts of the command that calls a method of a media player.
pub open spec fn player_call(path: Seq<char>, method: PlayerMethod) -> CommandText {
    CommandText {
        program: "busctl"@,
        args: seq![
            "--system"@,
            "call"@,
            "org.bluez"@,
            path,
            "org.bluez.MediaPlayer1"@,
            method.bus_name(),
        ],
    }
}

/// The command that calls a method of a media player.
pub fn call_bluez_player_method(path: &str, method: PlayerMethod) -> (command: CommandLine)
    ensures
        command@ == player_call(path@, method),
{
    let command = command_line(
        "busctl",
        &["--system", "call", "org.bluez", path, "org.bluez.MediaPlayer1", method.name()],
    );
    assert(command@.args =~= player_call(path@, method).args);
    command
}

/// The path of the first media player, given what [`player_tree_command`] left
/// behind or why it could not be started: none where it has not succeeded.
pub open spec fn player_in(tree: Result<CommandOutput, String>) -> Option<Seq<char>> {
    if succeeded(tree) {
        first_player(split::lines_of(tree->Ok_0.printed()))
    } else {
        None
    }
}

/// The command that calls a method of the media player that was found, if any.
/// A tree that could not be shown counts as one without a player.
pub fn run_bluez_player_method(
    tree: &Result<CommandOutput, String>,
    method: PlayerMethod,
) -> (command: Option<CommandLine>)
    ensures
        match command {
            Some(call) => player_in(*tree) matches Some(path) && call@ == player_call(path, method),
            None => player_in(*tree) is None,
        },
{
    let path = match tree {
        Ok(output) => find_bluez_media_player_path(output),
        Err(_) => None,
    };
    match path {
        Some(path) => Some(call_bluez_player_method(path.as_str(), method)),
        None => None,
    }
}

/// Whether a method was called, given what its command left behind or why it
/// could not be started.
pub fn player_method_called(output: &Result<CommandOutput, String>) -> (called: bool)
    ensures
        called == succeeded(*output),
{
    match output {
        Ok(output) => output.success,
        Err(_) => false,
    }
}

/// The address of the connected device that a line names: its second word, if
/// that is an address.
pub open spec fn connected_in_line(line: Seq<char>) -> Option<Seq<char>> {
    let words = split::words_of(line);
    if words.len() > 1 && crate::bluetooth::address::is_address(words[1]) {
        Some(words[1])
    } else {
        None
    }
}

/// The addresses of the connected devices that the lines name, in order.
pub open spec fn connected_in_lines(lines: Seq<Seq<char>>) -> Seq<Seq<char>>
    decreases lines.len(),
{
    if lines.len() == 0 {
        Seq::empty()
    } else {
        let before = connected_in_lines(lines.drop_last());
        match connected_in_line(lines.last()) {
            Some(address) => before.push(address),
            None => before,
        }
    }
}

/// The addresses of the connected devices in a listing, in order.
pub fn connected_addresses_in(listing: &str) -> (addresses: Vec<String>)
    ensures
        split::views(addresses@) == connected_in_lines(split::lines_of(listing@)),
{
    let list = lines(listing);
    let ghost all = split::lines_of(listing@);
    let mut addresses: Vec<String> = Vec::new();
    for i in 0..list.len()
        invariant
            all == split::views(list@),
            split::views(addresses@) =~= connected_in_lines(all.take(i as int)),
    {
        let ghost before = addresses@;
        assert(all.take(i + 1).drop_last() =~= all.take(i as int));
        assert(all[i as int] == list@[i as int]@);
        let parts = words(list[i].as_str());
        assert(parts@.len() == split::words_of(list@[i as int]@).len());
        if parts.len() > 1 {
            assert(parts@[1]@ == split::words_of(list@[i as int]@)[1]);
            if is_mac_address(parts[1].as_str()) {
                addresses.push(parts[1].clone());
                assert(split::views(addresses@) =~= split::views(before).push(
                    parts@[1]@,
                ));
            }
        }
    }
    assert(all.take(all.len() as int) =~= all);
    addresses
}

/// The command that lists the connected devices.
pub fn connected_devices_command() -> (command: CommandLine)
    ensures
        command@.program == "bluetoothctl"@,
        command@.args == seq!["devices"@, "Connected"@],
{
    let command = command_line("bluetoothctl", &["devices", "Connected"]);
    assert(command@.args =~= seq!["devices"@, "Connected"@]);
    command
}

/// The addresses to disconnect, given the output of
/// [`connected_devices_command`]; or, if it failed, what is said of that.
pub fn disconnect_connected_bluetooth_devices(output: &CommandOutput) -> (addresses: Result<
    Vec<String>,
    String,
>)
    ensures
        match addresses {
            Ok(list) => output.success && split::views(list@) == connected_in_lines(
                split::lines_of(output.printed()),
            ),
            Err(message) => !output.success && message@ == "bluetoothctl devices Connected failed: "@
                + output.complaint(),
        },
{
    if output.success {
        let listing = output.stdout_text();
        Ok(connected_addresses_in(listing.as_str()))
    } else {
        let complaint = output.stderr_text();
        Err("bluetoothctl devices Connected failed: ".to_owned().concat(complaint.as_str()))
    }
}

/// The command that disconnects a device.
pub fn disconnect_command(address: &str) -> (command: CommandLine)
    ensures
        command@.program == "bluetoothctl"@,
        command@.args == seq!["disconnect"@, address@],
{
    let command = command_line("bluetoothctl", &["disconnect", address]);
    assert(command@.args =~= seq!["disconnect"@, address@]);
    command
}

/// The outcome of disconnecting one device.
pub fn disconnect_outcome(address: &str, output: &CommandOutput) -> (outcome: Result<(), String>)
    ensures
        match outcome {
            Ok(_) => output.success,
            Err(message) => !output.success && message@ == "bluetoothctl disconnect "@ + address@
                + " failed: "@ + output.complaint(),
        },
{
    if output.success {
        return Ok(());
    }
    let complaint = output.stderr_text();
    let mut message = "bluetoothctl disconnect ".to_owned();
    message.append(address);
    message.append(" failed: ");
    message.append(complaint.as_str());
    Err(message)
}

/// How far the disconnecting of a list of devices has come.
#[derive(Debug)]
pub enum DisconnectStep {
    /// The device with this index is to be disconnected.
    Disconnect(usize),
    /// A device could not be disconnected: the rest is not tried.
    Failed(String),
    /// All devices have been disconnected.
    Finished,
}

/// How far the disconnecting has come, with the message as text.
#[verifier::ext_equal]
pub enum DisconnectView {
    Disconnect(int),
    Failed(Seq<char>),
    Finished,
}

impl View for DisconnectStep {
    type V = DisconnectView;

    open spec fn view(&self) -> DisconnectView {
        match self {
            DisconnectStep::Disconnect(i) => DisconnectView::Disconnect(*i as int),
            DisconnectStep::Failed(message) => DisconnectView::Failed(message@),
            DisconnectStep::Finished => DisconnectView::Finished,
        }
    }
}

/// What is said of a device that could not be disconnected, where the command
/// failed or could not be started.
pub open spec fn disconnect_failure(
    address: Seq<char>,
    output: Result<CommandOutput, String>,
) -> Seq<char> {
    match output {
        Ok(output) => "bluetoothctl disconnect "@ + address + " failed: "@ + output.complaint(),
        Err(_) => "disconnect Bluetooth device "@ + address,
    }
}

impl DisconnectView {
    /// The device with this index comes next, where there is one.
    pub open spec fn at(i: int, addresses: Seq<Seq<char>>) -> DisconnectView {
        if i < addresses.len() {
            DisconnectView::Disconnect(i)
        } else {
            DisconnectView::Finished
        }
    }

    /// The step after the command of this one: the first failure ends the
    /// series.
    pub open spec fn next(
        self,
        addresses: Seq<Seq<char>>,
        output: Result<CommandOutput, String>,
    ) -> DisconnectView {
        match self {
            DisconnectView::Disconnect(i) => if succeeded(output) {
                DisconnectView::at(i + 1, addresses)
            } else {
                DisconnectView::Failed(disconnect_failure(addresses[i], output))
            },
            _ => self,
        }
    }

    /// The step after a series of commands.
    pub open spec fn after(
        self,
        addresses: Seq<Seq<char>>,
        outputs: Seq<Result<CommandOutput, String>>,
    ) -> DisconnectView
        decreases outputs.len(),
    {
        if outputs.len() == 0 {
            self
        } else {
            self.after(addresses, outputs.drop_last()).next(addresses, outputs.last())
        }
    }
}

/// The addresses to disconnect, given what [`connected_devices_command`] left
/// behind or why it could not be started: none where it has not succeeded.
pub open spec fn addresses_to_disconnect(listing: Result<CommandOutput, String>) -> Seq<Seq<char>> {
    if succeeded(listing) {
        connected_in_lines(split::lines_of(listing->Ok_0.printed()))
    } else {
        Seq::empty()
    }
}

/// The first step of the disconnecting: where the listing has not succeeded it
/// fails at once, and where there is no device it is over at once.
pub open spec fn first_step(listing: Result<CommandOutput, String>) -> DisconnectView {
    match listing {
        Ok(output) => if output.success {
            DisconnectView::at(0, addresses_to_disconnect(listing))
        } else {
            DisconnectView::Failed("bluetoothctl devices Connected failed: "@ + output.complaint())
        },
        Err(_) => DisconnectView::Failed("list connected Bluetooth devices"@),
    }
}

/// Begins to disconnect the connected devices, given what
/// [`connected_devices_command`] left behind or why it could not be started:
/// the addresses, and the first step.
pub fn disconnect_first(listing: &Result<CommandOutput, String>) -> (first: (
    Vec<String>,
    DisconnectStep,
))
    ensures
        split::views(first.0@) == addresses_to_disconnect(*listing),
        first.1@ == first_step(*listing),
        first.1 matches DisconnectStep::Disconnect(i) ==> i < first.0@.len(),
{
    let none: Vec<String> = Vec::new();
    assert(split::views(none@) =~= Seq::<Seq<char>>::empty());
    match listing {
        Ok(output) => match disconnect_connected_bluetooth_devices(output) {
            Ok(addresses) => {
                assert(split::views(addresses@).len() == addresses@.len());
                if addresses.len() == 0 {
                    (addresses, DisconnectStep::Finished)
                } else {
                    (addresses, DisconnectStep::Disconnect(0))
                }
            },
            Err(message) => (none, DisconnectStep::Failed(message)),
        },
        Err(_) => (none, DisconnectStep::Failed("list connected Bluetooth devices".to_owned())),
    }
}

/// The step after a command: `output` is what [`disconnect_command`] for the
/// device of this step left behind, or why it could not be started.
pub fn disconnect_next(
    step: DisconnectStep,
    addresses: &[String],
    output: &Result<CommandOutput, String>,
) -> (next: DisconnectStep)
    requires
        step matches DisconnectStep::Disconnect(i) ==> i < addresses@.len(),
    ensures
        next@ == step@.next(split::views(addresses@), *output),
        next matches DisconnectStep::Disconnect(i) ==> i < addresses@.len(),
{
    match step {
        DisconnectStep::Disconnect(i) => {
            let address = addresses[i].as_str();
            match output {
                Ok(output) => match disconnect_outcome(address, output) {
                    Ok(_) => {
                        if i + 1 < addresses.len() {
                            DisconnectStep::Disconnect(i + 1)
                        } else {
                            DisconnectStep::Finished
                        }
                    },
                    Err(message) => DisconnectStep::Failed(message),
                },
                Err(_) => DisconnectStep::Failed(
                    "disconnect Bluetooth device ".to_owned().concat(address),
                ),
            }
        },
        other => other,
    }
}

impl DisconnectStep {
    /// The outcome of the whole, once it is over.
    pub fn outcome(self) -> (outcome: Option<Result<(), String>>)
        ensures
            match outcome {
                Some(Ok(_)) => self@ is Finished,
                Some(Err(message)) => self@ == DisconnectView::Failed(message@),
                None => self@ is Disconnect,
            },
    {
        match self {
            DisconnectStep::Disconnect(_) => None,
            DisconnectStep::Failed(message) => Some(Err(message)),
            DisconnectStep::Finished => Some(Ok(())),
        }
    }
}

/// As long as every command succeeds, the devices are disconnected in order.
pub proof fn law_devices_are_disconnected_in_order(
    addresses: Seq<Seq<char>>,
    outputs: Seq<Result<CommandOutput, String>>,
)
    requires
        forall|j: int| 0 <= j < outputs.len() ==> succeeded(#[trigger] outputs[j]),
    ensures
        DisconnectView::at(0, addresses).after(addresses, outputs) == DisconnectView::at(
            outputs.len() as int,
            addresses,
        ),
    decreases outputs.len(),
{
    if outputs.len() > 0 {
        assert forall|j: int| 0 <= j < outputs.drop_last().len() implies succeeded(
            #[trigger] outputs.drop_last()[j],
        ) by {
            assert(succeeded(outputs[j]));
        }
        law_devices_are_disconnected_in_order(addresses, outputs.drop_last());
        assert(succeeded(outputs[outputs.len() - 1]));
    }
}

/// The first device that cannot be disconnected ends the series with an error
/// that names it, whatever would come after it.
pub proof fn law_first_failure_ends_the_disconnecting(
    addresses: Seq<Seq<char>>,
    outputs: Seq<Result<CommandOutput, String>>,
    k: int,
)
    requires
        0 <= k < addresses.len(),
        k < outputs.len(),
        forall|j: int| 0 <= j < k ==> succeeded(#[trigger] outputs[j]),
        !succeeded(outputs[k]),
    ensures
        DisconnectView::at(0, addresses).after(addresses, outputs) == DisconnectView::Failed(
            disconnect_failure(addresses[k], outputs[k]),
        ),
    decreases outputs.len(),
{
    let before = outputs.drop_last();
    if k == outputs.len() - 1 {
        assert forall|j: int| 0 <= j < before.len() implies succeeded(#[trigger] before[j]) by {
            assert(succeeded(outputs[j]));
        }
        law_devices_are_disconnected_in_order(addresses, before);
    } else {
        assert forall|j: int| 0 <= j < k implies succeeded(#[trigger] before[j]) by {
            assert(succeeded(outputs[j]));
        }
        law_first_failure_ends_the_disconnecting(addresses, before, k);
    }
}

/// The disconnecting ends well exactly if every device could be disconnected;
/// with no device it ends well at once.
pub proof fn law_disconnecting_ends_well_if_all_succeed(
    addresses: Seq<Seq<char>>,
    outputs: Seq<Result<CommandOutput, String>>,
)
    requires
        outputs.len() == addresses.len(),
    ensures
        DisconnectView::at(0, addresses).after(addresses, outputs) is Finished <==> forall|j: int|
            0 <= j < outputs.len() ==> succeeded(#[trigger] outputs[j]),
{
    if forall|j: int| 0 <= j < outputs.len() ==> succeeded(#[trigger] outputs[j]) {
        law_devices_are_disconnected_in_order(addresses, outputs);
    } else {
        let k = first_failure(outputs, 0);
        lemma_first_failure(outputs, 0);
        law_first_failure_ends_the_disconnecting(addresses, outputs, k);
    }
}

/// Where the listing has not succeeded, no device is disconnected: the series
/// has failed from the start, and stays so.
pub proof fn law_failed_listing_disconnects_nothing(
    listing: Result<CommandOutput, String>,
    outputs: Seq<Result<CommandOutput, String>>,
)
    requires
        !succeeded(listing),
    ensures
        first_step(listing) is Failed,
        first_step(listing).after(addresses_to_disconnect(listing), outputs) == first_step(listing),
    decreases outputs.len(),
{
    if outputs.len() > 0 {
        law_failed_listing_disconnects_nothing(listing, outputs.drop_last());
    }
}

/// Only addresses are ever disconnected.
pub proof fn law_connected_devices_have_addresses(lines: Seq<Seq<char>>, i: int)
    requires
        0 <= i < connected_in_lines(lines).len(),
    ensures
        crate::bluetooth::address::is_address(connected_in_lines(lines)[i]),
    decreases lines.len(),
{
    if lines.len() > 0 {
        let before = connected_in_lines(lines.drop_last());
        if i < before.len() {
            law_connected_devices_have_addresses(lines.drop_last(), i);
        }
    }
}

/// A player is found in every line that shows its path, whatever stands before
/// the path, whichever device it belongs to and whatever its number; white
/// space at the end of the line is no part of the path.
pub proof fn law_every_player_is_found(
    prefix: Seq<char>,
    device: Seq<char>,
    number: nat,
    blank: Seq<char>,
)
    requires
        !prefix.contains('/'),
        text::is_blank(blank),
    ensures
        ({
            let path = "/org/bluez"@ + device + "/player"@ + number::numeral(number, 10);
            player_in_line(prefix + path + blank) == Some(path)
        }),
{
    reveal_strlit("/org/bluez");
    reveal_strlit("/player");
    let root = "/org/bluez"@;
    let digits = number::numeral(number, 10);
    let path = root + device + "/player"@ + digits;
    let line = prefix + path + blank;
    let at = prefix.len() as int;
    assert(line.subrange(at, at + root.len()) =~= root);
    assert forall|j: int| 0 <= j < at implies !text::occurs_at(line, root, j) by {
        if text::occurs_at(line, root, j) {
            assert(line.subrange(j, j + root.len())[0] == '/');
            assert(prefix[j] == '/');
        }
    }
    assert(text::first_at(line, root, at));
    text::lemma_position(line, root, at);
    let rest = line.skip(at);
    assert(rest =~= path + blank);
    text::law_middle_is_a_part(root + device, "/player"@, digits + blank);
    assert(root + device + "/player"@ + (digits + blank) =~= rest);
    number::law_numbers_are_written_in_digits(number, 10, 0);
    assert(number::zero_padded(digits, 0) == digits);
    assert(number::is_written_digit(digits[digits.len() - 1]));
    assert(path.first() == '/' && path.last() == digits.last());
    text::law_solid_ends_are_trimmed_already(path);
    text::law_trimming_ignores_surrounding_space(Seq::empty(), path, blank);
    assert(Seq::<char>::empty() + path + blank =~= rest);
}

/// A line shows a player if and only if it holds `/org/bluez`, and `/player`
/// somewhere from there on; the path begins with the former and stands in the
/// line.
pub proof fn law_players_are_below_bluez(line: Seq<char>)
    ensures
        player_in_line(line) is Some <==> exists|i: int|
            #![trigger line.skip(i)]
            0 <= i <= line.len() && text::begins_with(line.skip(i), "/org/bluez"@)
                && text::occurs(line.skip(i), "/player"@),
        player_in_line(line) matches Some(path) ==> text::begins_with(path, "/org/bluez"@)
            && text::occurs(line, path),
{
    reveal_strlit("/org/bluez");
    let root = "/org/bluez"@;
    text::law_position_is_the_first(line, root);
    if player_in_line(line) is Some {
        let i = text::position(line, root)->0;
        let rest = line.skip(i);
        assert(rest.subrange(0, root.len() as int) =~= rest.take(root.len() as int));
        assert(text::begins_with(line.skip(i), root));
        text::law_trimmed_has_lost_its_space(rest);
        let (a, b) = choose|a: int, b: int|
            #![trigger rest.take(a), rest.skip(b)]
            0 <= a <= b <= rest.len() && text::is_blank(rest.take(a)) && text::is_blank(
                rest.skip(b),
            ) && text::trimmed(rest) == rest.subrange(a, b);
        let head = rest.take(root.len() as int);
        assert(head == root);
        assert(root[0] == '/' && root[9] == 'z');
        assert(rest[0] == head[0] && rest[9] == head[9]);
        if a > 0 {
            assert(text::is_space(rest.take(a)[0]));
        }
        if b < 10 {
            assert(text::is_space(rest.skip(b)[9 - b]));
        }
        let path = rest.subrange(a, b);
        assert(path.subrange(0, root.len() as int) =~= root);
        assert(line.subrange(i, i + path.len()) =~= path);
        assert(text::occurs_at(line, path, i));
    }
    if exists|i: int|
        #![trigger line.skip(i)]
        0 <= i <= line.len() && text::begins_with(line.skip(i), root) && text::occurs(
            line.skip(i),
            "/player"@,
        ) {
        let i = choose|i: int|
            #![trigger line.skip(i)]
            0 <= i <= line.len() && text::begins_with(line.skip(i), root) && text::occurs(
                line.skip(i),
                "/player"@,
            );
        let rest = line.skip(i);
        assert(rest.subrange(0, root.len() as int) =~= line.subrange(i, i + root.len()));
        assert(text::occurs_at(line, root, i));
        let k = text::position(line, root)->0;
        assert(k <= i) by {
            if i < k {
                assert(line.skip(i).take(root.len() as int) =~= rest.subrange(
                    0,
                    root.len() as int,
                ));
            }
        }
        let whole = line.skip(k);
        assert(whole.subrange(i - k, i - k + rest.len()) =~= rest);
        assert(text::occurs_at(whole, rest, i - k));
        text::law_parts_of_parts_occur(whole, rest, "/player"@);
    }
}

/// The player of a tree is that of its first line that shows one; a tree has
/// none if and only if no line does.
pub proof fn law_first_player_counts(lines: Seq<Seq<char>>)
    ensures
        match first_player(lines) {
            Some(path) => exists|i: int|
                0 <= i < lines.len() && player_in_line(#[trigger] lines[i]) == Some(path)
                    && forall|j: int|
                    0 <= j < i ==> player_in_line(#[trigger] lines[j]) is None,
            None => forall|i: int|
                0 <= i < lines.len() ==> player_in_line(#[trigger] lines[i]) is None,
        },
    decreases lines.len(),
{
    if lines.len() > 0 {
        let rest = lines.drop_first();
        if player_in_line(lines.first()) is Some {
            assert(player_in_line(lines[0]) == first_player(lines));
        } else {
            law_first_player_counts(rest);
            if first_player(lines) is Some {
                let path = first_player(lines)->0;
                let i = choose|i: int|
                    0 <= i < rest.len() && player_in_line(#[trigger] rest[i]) == Some(path)
                        && forall|j: int|
                        0 <= j < i ==> player_in_line(#[trigger] rest[j]) is None;
                assert(lines[i + 1] == rest[i]);
                assert forall|j: int| 0 <= j < i + 1 implies player_in_line(
                    #[trigger] lines[j],
                ) is None by {
                    if j > 0 {
                        assert(lines[j] == rest[j - 1]);
                    }
                }
            } else {
                assert forall|i: int| 0 <= i < lines.len() implies player_in_line(
                    #[trigger] lines[i],
                ) is None by {
                    if i > 0 {
                        assert(lines[i] == rest[i - 1]);
                    }
                }
            }
        }
    }
}

/// A tree counts if and only if its command could be started and succeeded.
pub proof fn law_player_needs_a_tree(tree: Result<CommandOutput, String>)
    ensures
        tree is Err ==> player_in(tree) is None,
        tree matches Ok(output) ==> player_in(tree) == (if output.success {
            first_player(split::lines_of(output.printed()))
        } else {
            None
        }),
{
}

/// The call goes to the path that was found, and asks for the method by name:
/// different paths or methods make different calls.
pub proof fn law_calls_differ(
    path: Seq<char>,
    method: PlayerMethod,
    other_path: Seq<char>,
    other: PlayerMethod,
)
    ensures
        player_call(path, method).args.contains(path),
        player_call(path, method) == player_call(other_path, other) <==> path == other_path
            && method == other,
{
    reveal_strlit("Play");
    reveal_strlit("Pause");
    reveal_strlit("Previous");
    reveal_strlit("Next");
    reveal_strlit("Rewind");
    reveal_strlit("FastForward");
    assert("Play"@.len() == 4 && "Next"@.len() == 4 && "Pause"@.len() == 5 && "Rewind"@.len() == 6
        && "Previous"@.len() == 8 && "FastForward"@.len() == 11);
    assert("Play"@[0] == 'P' && "Next"@[0] == 'N');
    let args = player_call(path, method).args;
    let others = player_call(other_path, other).args;
    assert(args[3] == path && others[3] == other_path);
    assert(args[5] == method.bus_name() && others[5] == other.bus_name());
}

/// The second word of a line is the address of a connected device, whatever
/// word stands before it and whatever follows.
pub proof fn law_second_word_is_the_address(
    first: Seq<char>,
    address: Seq<char>,
    rest: Seq<char>,
)
    requires
        first.len() > 0,
        forall|i: int| 0 <= i < first.len() ==> !text::is_space(#[trigger] first[i]),
        crate::bluetooth::address::is_address(address),
    ensures
        connected_in_line(first + seq![' '] + address) == Some(address),
        connected_in_line(first + seq![' '] + (address + seq![' '] + rest)) == Some(address),
{
    assert forall|i: int| 0 <= i < address.len() implies !text::is_space(#[trigger] address[i]) by {
        assert(0 <= i < crate::bluetooth::address::ADDRESS_LEN);
        if i % 3 == 2 {
            assert(address[i] == ':');
        } else {
            assert(split::is_hex_digit(address[i]));
        }
    }
    split::law_solid_text_is_one_word(first);
    split::law_solid_text_is_one_word(address);
    split::law_words_of_two_parts(first, ' ', address);
    split::law_words_of_two_parts(address, ' ', rest);
    split::law_words_of_two_parts(first, ' ', address + seq![' '] + rest);
    assert((seq![first] + seq![address])[1] == address);
    assert((seq![first] + (seq![address] + split::words_of(rest)))[1] == address);
}

/// A line names a connected device only by its second word, which is an
/// address.
pub proof fn law_only_addresses_are_connected(line: Seq<char>)
    ensures
        connected_in_line(line) matches Some(address) ==> split::words_of(line).len() >= 2
            && split::words_of(line)[1] == address && crate::bluetooth::address::is_address(address),
        split::words_of(line).len() < 2 ==> connected_in_line(line) is None,
{
}

/// The connected devices of two listings, one after the other, are those of the
/// first and those of the second; a line names one device or none.
pub proof fn law_connected_devices_add_up(
    a: Seq<Seq<char>>,
    b: Seq<Seq<char>>,
    line: Seq<char>,
)
    ensures
        connected_in_lines(a + b) == connected_in_lines(a) + connected_in_lines(b),
        connected_in_lines(seq![line]) == (match connected_in_line(line) {
            Some(address) => seq![address],
            None => Seq::empty(),
        }),
    decreases b.len(),
{
    assert(seq![line].drop_last() =~= Seq::<Seq<char>>::empty());
    assert(connected_in_lines(seq![line].drop_last()) =~= Seq::<Seq<char>>::empty());
    assert(connected_in_lines(seq![line]) =~= (match connected_in_line(line) {
        Some(address) => seq![address],
        None => Seq::<Seq<char>>::empty(),
    }));
    if b.len() == 0 {
        assert(a + b =~= a);
        assert(connected_in_lines(a) + connected_in_lines(b) =~= connected_in_lines(a));
    } else {
        law_connected_devices_add_up(a, b.drop_last(), line);
        assert((a + b).drop_last() =~= a + b.drop_last());
        assert((a + b).last() == b.last());
        assert(connected_in_lines(a + b) =~= connected_in_lines(a) + connected_in_lines(b));
    }
}

/// The error of a device that could not be disconnected names the device.
pub proof fn law_disconnect_errors_name_the_device(
    address: Seq<char>,
    output: Result<CommandOutput, String>,
)
    ensures
        text::occurs(disconnect_failure(address, output), address),
        output matches Ok(left) ==> text::occurs(
            disconnect_failure(address, output),
            left.complaint(),
        ),
{
    match output {
        Ok(left) => {
            let head = "bluetoothctl disconnect "@;
            let mid = " failed: "@;
            text::law_middle_is_a_part(head, address, mid + left.complaint());
            assert(head + address + (mid + left.complaint()) =~= head + address + mid
                + left.complaint());
            text::law_middle_is_a_part(head + address + mid, left.complaint(), Seq::empty());
            assert(head + address + mid + left.complaint() + Seq::<char>::empty() =~= head + address
                + mid + left.complaint());
        },
        Err(_) => {
            let head = "disconnect Bluetooth device "@;
            text::law_middle_is_a_part(head, address, Seq::empty());
            assert(head + address + Seq::<char>::empty() =~= head + address);
        },
    }
}

} // verus!
