//! The diagnosis: what is shown of the system's state.

use vstd::prelude::*;

use crate::airplay::{device_matches, Device, ScanOutcome};
use crate::bluetooth::setup::{ComponentStatus, SetupIssue, SetupStatus};
use crate::command::{command_line, CommandLine, CommandOutput};
use crate::split::{self, lines};
use crate::text::{self, starts_with, strip_prefix, trim, trim_start};

verus! {

/// A component's status in words.
pub open spec fn status_words(status: ComponentStatus) -> Seq<char> {
    match status {
        ComponentStatus::Running => "ok"@,
        ComponentStatus::NotRunning => "installed, not running"@,
        ComponentStatus::NotInstalled => "not installed"@,
        ComponentStatus::Unknown => "unknown"@,
    }
}

/// A component's status in words.
pub fn component_status(status: ComponentStatus) -> (words: &'static str)
    ensures
        words@ == status_words(status),
{
    match status {
        ComponentStatus::Running => "ok",
        ComponentStatus::NotRunning => "installed, not running",
        ComponentStatus::NotInstalled => "not installed",
        ComponentStatus::Unknown => "unknown",
    }
}

/// How an issue is listed.
pub open spec fn issue_line(issue: SetupIssue) -> Seq<char> {
    match issue.fix_command {
        Some(fix) => "  - "@ + issue.description@ + " ("@ + fix@ + ")"@,
        None => "  - "@ + issue.description@,
    }
}

/// How an issue is listed.
fn listed_issue(issue: &SetupIssue) -> (line: String)
    ensures
        line@ == issue_line(*issue),
{
    let mut line = "  - ".to_owned();
    line.append(issue.description.as_str());
    if let Some(fix) = &issue.fix_command {
        line.append(" (");
        line.append(fix.as_str());
        line.append(")");
    }
    line
}

/// The lines that show the state of the Bluetooth audio stack.
pub open spec fn setup_lines(status: SetupStatus) -> Seq<Seq<char>> {
    let components = seq![
        "BlueZ:   "@ + status_words(status.bluez),
        "BlueALSA: "@ + status_words(status.bluealsa),
    ];
    if status.issues@.len() == 0 {
        components.push("Bluetooth audio stack: ready"@)
    } else {
        components.push("Bluetooth audio stack: not ready"@) + status.issues@.map_values(
            |issue: SetupIssue| issue_line(issue),
        )
    }
}

/// The lines that show the state of the Bluetooth audio stack.
pub fn setup_report(status: &SetupStatus) -> (report: Vec<String>)
    ensures
        split::views(report@) == setup_lines(*status),
{
    let mut report: Vec<String> = Vec::new();
    report.push("BlueZ:   ".to_owned().concat(component_status(status.bluez)));
    report.push("BlueALSA: ".to_owned().concat(component_status(status.bluealsa)));
    if status.issues.len() == 0 {
        report.push("Bluetooth audio stack: ready".to_owned());
        assert(split::views(report@) =~= setup_lines(*status));
        return report;
    }
    report.push("Bluetooth audio stack: not ready".to_owned());
    let ghost head = split::views(report@);
    let ghost all = status.issues@.map_values(|issue: SetupIssue| issue_line(issue));
    for i in 0..status.issues.len()
        invariant
            all == status.issues@.map_values(|issue: SetupIssue| issue_line(issue)),
            split::views(report@) =~= head + all.take(i as int),
    {
        let ghost before = report@;
        report.push(listed_issue(&status.issues[i]));
        assert(split::views(report@) =~= split::views(before).push(all[i as int]));
    }
    assert(all.take(status.issues@.len() as int) =~= all);
    assert(split::views(report@) =~= setup_lines(*status));
    report
}

/// What is said of an issue that keeps the bridge from running.
pub open spec fn obstacle_words(issue: SetupIssue) -> Seq<char> {
    match issue.fix_command {
        Some(fix) => issue.description@ + "; suggested fix: "@ + fix@,
        None => issue.description@,
    }
}

/// What is said of an issue that keeps the bridge from running.
pub fn obstacle(issue: &SetupIssue) -> (words: String)
    ensures
        words@ == obstacle_words(*issue),
{
    let mut words = issue.description.clone();
    if let Some(fix) = &issue.fix_command {
        words.append("; suggested fix: ");
        words.append(fix.as_str());
    }
    words
}

/// Why the bridge cannot run.
#[derive(Debug)]
pub struct NotReady {
    /// What is said of each issue.
    pub obstacles: Vec<String>,
    /// What is said of the whole.
    pub message: String,
}

/// Whether the bridge can run, or why it cannot.
pub fn ready_to_run(status: &SetupStatus) -> (outcome: Result<(), NotReady>)
    ensures
        match outcome {
            Ok(_) => status.ready,
            Err(reasons) => {
                &&& !status.ready
                &&& split::views(reasons.obstacles@) == status.issues@.map_values(
                    |issue: SetupIssue| obstacle_words(issue),
                )
                &&& reasons.message@ == "Bluetooth audio stack is not ready"@
            },
        },
{
    if status.ready {
        return Ok(());
    }
    let mut list: Vec<String> = Vec::new();
    let ghost all = status.issues@.map_values(|issue: SetupIssue| obstacle_words(issue));
    for i in 0..status.issues.len()
        invariant
            all == status.issues@.map_values(|issue: SetupIssue| obstacle_words(issue)),
            split::views(list@) =~= all.take(i as int),
    {
        let ghost before = list@;
        list.push(obstacle(&status.issues[i]));
        assert(split::views(list@) =~= split::views(before).push(all[i as int]));
    }
    assert(all.take(status.issues@.len() as int) =~= all);
    Err(NotReady { obstacles: list, message: "Bluetooth audio stack is not ready".to_owned() })
}

/// The command that describes the Bluetooth adapter.
pub fn adapter_command() -> (command: CommandLine)
    ensures
        command@.program == "bluetoothctl"@,
        command@.args == seq!["show"@],
{
    let command = command_line("bluetoothctl", &["show"]);
    assert(command@.args =~= seq!["show"@]);
    command
}

/// The controller that the first line about one shows.
pub open spec fn controller_in(lines: Seq<Seq<char>>) -> Seq<char>
    decreases lines.len(),
{
    if lines.len() == 0 {
        "Controller <unknown>"@
    } else if text::begins_with(
        text::trimmed_start(lines.first()),
        "Controller "@,
    ) {
        text::trimmed(lines.first())
    } else {
        controller_in(lines.drop_first())
    }
}

/// The alias that the first line about one shows.
pub open spec fn alias_in(lines: Seq<Seq<char>>) -> Seq<char>
    decreases lines.len(),
{
    if lines.len() == 0 {
        "<unknown>"@
    } else {
        match text::without_prefix(
            text::trimmed_start(lines.first()),
            "Alias: "@,
        ) {
            Some(alias) => alias,
            None => alias_in(lines.drop_first()),
        }
    }
}

/// The controller that the first line about one shows.
fn controller(list: &[String]) -> (text: String)
    ensures
        text@ == controller_in(split::views(list@)),
{
    let ghost all = split::views(list@);
    assert(all.skip(0) =~= all);
    for i in 0..list.len()
        invariant
            all == split::views(list@),
            controller_in(all) == controller_in(all.skip(i as int)),
    {
        assert(all.skip(i as int).first() == list@[i as int]@);
        let line = list[i].as_str();
        if starts_with(trim_start(line), "Controller ") {
            return trim(line).to_owned();
        }
        assert(all.skip(i as int).drop_first() =~= all.skip(i + 1));
    }
    "Controller <unknown>".to_owned()
}

/// The alias that the first line about one shows.
fn alias(list: &[String]) -> (text: String)
    ensures
        text@ == alias_in(split::views(list@)),
{
    let ghost all = split::views(list@);
    assert(all.skip(0) =~= all);
    for i in 0..list.len()
        invariant
            all == split::views(list@),
            alias_in(all) == alias_in(all.skip(i as int)),
    {
        assert(all.skip(i as int).first() == list@[i as int]@);
        if let Some(rest) = strip_prefix(trim_start(list[i].as_str()), "Alias: ") {
            return rest.to_owned();
        }
        assert(all.skip(i as int).drop_first() =~= all.skip(i + 1));
    }
    "<unknown>".to_owned()
}

/// What is shown of the adapter, given its description.
pub open spec fn adapter_words(description: Seq<char>) -> Seq<char> {
    let lines = split::lines_of(description);
    controller_in(lines) + " alias="@ + alias_in(lines)
}

/// What is shown of the adapter, given its description.
pub fn describe_adapter(description: &str) -> (text: String)
    ensures
        text@ == adapter_words(description@),
{
    let list = lines(description);
    let mut text = controller(&list);
    text.append(" alias=");
    text.append(alias(&list).as_str());
    text
}

/// The line about the adapter, given what [`adapter_command`] left behind, or
/// why it could not be run.
pub open spec fn adapter_line(output: Result<CommandOutput, String>) -> Seq<char> {
    "Bluetooth adapter: "@ + (match output {
        Ok(output) => if output.success {
            adapter_words(output.printed())
        } else {
            output.complaint()
        },
        Err(error) => error@,
    })
}

/// The line about the adapter, given what [`adapter_command`] left behind, or
/// why it could not be run.
pub fn adapter_report(output: &Result<CommandOutput, String>) -> (line: String)
    ensures
        line@ == adapter_line(*output),
{
    let mut line = "Bluetooth adapter: ".to_owned();
    match output {
        Ok(output) => {
            if output.success {
                let description = output.stdout_text();
                line.append(describe_adapter(description.as_str()).as_str());
            } else {
                line.append(output.stderr_text().as_str());
            }
        },
        Err(error) => {
            line.append(error.as_str());
        },
    }
    line
}

/// How an AirPlay device is listed.
pub open spec fn device_line(device: Device, wanted: Option<Seq<char>>) -> Seq<char> {
    "  - "@ + device.name@ + " ("@ + (match device.socket_addr {
        Some(addr) => addr@,
        None => "no address"@,
    }) + ")"@ + (if wanted is Some && device.matches_text(wanted->0) {
        " [match]"@
    } else {
        Seq::empty()
    })
}

/// How an AirPlay device is listed.
fn listed_device(device: &Device, wanted: &Option<String>) -> (line: String)
    ensures
        line@ == device_line(*device, text::opt_string(*wanted)),
{
    let mut line = "  - ".to_owned();
    line.append(device.name.as_str());
    line.append(" (");
    match &device.socket_addr {
        Some(addr) => line.append(addr.as_str()),
        None => line.append("no address"),
    }
    line.append(")");
    let selected = match wanted {
        Some(needle) => device_matches(device, needle.as_str()),
        None => false,
    };
    if selected {
        line.append(" [match]");
    }
    line
}

/// The lines that show the AirPlay devices found, with those marked that the
/// text means.
pub open spec fn airplay_lines(devices: Seq<Device>, wanted: Option<Seq<char>>) -> Seq<Seq<char>> {
    if devices.len() == 0 {
        seq!["AirPlay discovery: no devices found"@]
    } else {
        seq!["AirPlay discovery:"@] + devices.map_values(
            |device: Device| device_line(device, wanted),
        )
    }
}

/// The lines that show the AirPlay devices found, with those marked that the
/// text means.
pub fn airplay_report(devices: &[Device], wanted: &Option<String>) -> (report: Vec<String>)
    ensures
        split::views(report@) == airplay_lines(devices@, text::opt_string(*wanted)),
{
    let mut report: Vec<String> = Vec::new();
    if devices.len() == 0 {
        report.push("AirPlay discovery: no devices found".to_owned());
        assert(split::views(report@) =~= seq!["AirPlay discovery: no devices found"@]);
        return report;
    }
    report.push("AirPlay discovery:".to_owned());
    let ghost head = split::views(report@);
    assert(head =~= seq!["AirPlay discovery:"@]);
    let ghost all = devices@.map_values(
        |device: Device| device_line(device, text::opt_string(*wanted)),
    );
    for i in 0..devices.len()
        invariant
            all == devices@.map_values(
                |device: Device| device_line(device, text::opt_string(*wanted)),
            ),
            split::views(report@) =~= head + all.take(i as int),
    {
        let ghost before = report@;
        report.push(listed_device(&devices[i], wanted));
        assert(split::views(report@) =~= split::views(before).push(all[i as int]));
    }
    assert(all.take(devices@.len() as int) =~= all);
    report
}

/// What the diagnosis shows of the AirPlay side, or what is said of its
/// failure. Only a browser that could not be created ends it in an error; after
/// a search that failed it shows nothing.
pub fn airplay_diagnosis(outcome: &ScanOutcome, wanted: &Option<String>) -> (report: Result<
    Vec<String>,
    String,
>)
    ensures
        match outcome {
            ScanOutcome::NoBrowser => report matches Err(message) && message@
                == "create AirPlay service browser"@,
            ScanOutcome::Failed => report matches Ok(lines) && lines@.len() == 0,
            ScanOutcome::Found(devices) => report matches Ok(lines) && split::views(lines@)
                == airplay_lines(devices@, text::opt_string(*wanted)),
        },
{
    match outcome {
        ScanOutcome::NoBrowser => Err("create AirPlay service browser".to_owned()),
        ScanOutcome::Failed => Ok(Vec::new()),
        ScanOutcome::Found(devices) => Ok(airplay_report(devices, wanted)),
    }
}

/// The controller that is shown is that of the first line that tells of one,
/// without the white space around it; where no line does, it is unknown.
pub proof fn law_first_controller_is_shown(lines: Seq<Seq<char>>, i: int)
    requires
        0 <= i <= lines.len(),
        forall|j: int|
            0 <= j < i ==> !text::begins_with(
                text::trimmed_start(#[trigger] lines[j]),
                "Controller "@,
            ),
        i < lines.len() ==> text::begins_with(text::trimmed_start(lines[i]), "Controller "@),
    ensures
        i < lines.len() ==> controller_in(lines) == text::trimmed(lines[i]),
        i == lines.len() ==> controller_in(lines) == "Controller <unknown>"@,
    decreases i,
{
    if i > 0 {
        let rest = lines.drop_first();
        assert(!text::begins_with(text::trimmed_start(lines[0]), "Controller "@));
        assert forall|j: int| 0 <= j < i - 1 implies !text::begins_with(
            text::trimmed_start(#[trigger] rest[j]),
            "Controller "@,
        ) by {
            assert(rest[j] == lines[j + 1]);
        }
        law_first_controller_is_shown(rest, i - 1);
    }
}

/// The alias that is shown is what follows `Alias: ` on the first line that
/// gives one; where no line does, it is unknown.
pub proof fn law_first_alias_is_shown(
    lines: Seq<Seq<char>>,
    i: int,
    blank: Seq<char>,
    alias: Seq<char>,
)
    requires
        0 <= i <= lines.len(),
        forall|j: int|
            0 <= j < i ==> !text::begins_with(text::trimmed_start(#[trigger] lines[j]), "Alias: "@),
        text::is_blank(blank),
        i < lines.len() ==> lines[i] == blank + ("Alias: "@ + alias),
    ensures
        i < lines.len() ==> alias_in(lines) == alias,
        i == lines.len() ==> alias_in(lines) == "<unknown>"@,
    decreases i,
{
    if i > 0 {
        let rest = lines.drop_first();
        assert(!text::begins_with(text::trimmed_start(lines[0]), "Alias: "@));
        assert forall|j: int| 0 <= j < i - 1 implies !text::begins_with(
            text::trimmed_start(#[trigger] rest[j]),
            "Alias: "@,
        ) by {
            assert(rest[j] == lines[j + 1]);
        }
        law_first_alias_is_shown(rest, i - 1, blank, alias);
    } else if lines.len() > 0 {
        reveal_strlit("Alias: ");
        let line = "Alias: "@ + alias;
        assert(line.first() == 'A');
        text::law_leading_space_is_taken_off(blank, line);
        text::law_prefix_is_taken_off("Alias: "@, alias);
    }
}

/// What is shown of the adapter holds its controller and its alias.
pub proof fn law_adapter_shows_controller_and_alias(description: Seq<char>)
    ensures
        text::begins_with(
            adapter_words(description),
            controller_in(split::lines_of(description)) + " alias="@,
        ),
        text::occurs(adapter_words(description), alias_in(split::lines_of(description))),
{
    let lines = split::lines_of(description);
    let head = controller_in(lines) + " alias="@;
    text::law_prefix_is_taken_off(head, alias_in(lines));
    text::law_middle_is_a_part(head, alias_in(lines), Seq::empty());
    assert(head + alias_in(lines) + Seq::<char>::empty() =~= head + alias_in(lines));
}

/// The stack is shown as ready if and only if there is no issue; each issue has
/// a line of its own, which the others do not change.
pub proof fn law_each_issue_has_its_line(status: SetupStatus, i: int)
    requires
        0 <= i < status.issues@.len(),
    ensures
        setup_lines(status).len() == 3 + status.issues@.len(),
        setup_lines(status)[3 + i] == issue_line(status.issues@[i]),
        setup_lines(status)[2] == "Bluetooth audio stack: not ready"@,
{
}

/// The line of an issue holds what is wrong and, where there is one, the way to
/// mend it; so does what is said of it when the bridge is to run.
pub proof fn law_issues_show_their_fix(issue: SetupIssue)
    ensures
        text::occurs(issue_line(issue), issue.description@),
        text::occurs(obstacle_words(issue), issue.description@),
        issue.fix_command matches Some(fix) ==> text::occurs(issue_line(issue), fix@)
            && text::occurs(obstacle_words(issue), fix@),
        issue.fix_command is None ==> obstacle_words(issue) == issue.description@,
{
    let none = Seq::<char>::empty();
    let what = issue.description@;
    match issue.fix_command {
        Some(fix) => {
            text::law_middle_is_a_part("  - "@, what, " ("@ + fix@ + ")"@);
            assert("  - "@ + what + (" ("@ + fix@ + ")"@) =~= issue_line(issue));
            text::law_middle_is_a_part("  - "@ + what + " ("@, fix@, ")"@);
            text::law_middle_is_a_part(none, what, "; suggested fix: "@ + fix@);
            assert(none + what + ("; suggested fix: "@ + fix@) =~= obstacle_words(issue));
            text::law_middle_is_a_part(what + "; suggested fix: "@, fix@, none);
            assert(what + "; suggested fix: "@ + fix@ + none =~= obstacle_words(issue));
        },
        None => {
            text::law_middle_is_a_part("  - "@, what, none);
            assert("  - "@ + what + none =~= issue_line(issue));
            text::law_middle_is_a_part(none, what, none);
            assert(none + what + none =~= obstacle_words(issue));
        },
    }
}

/// A device is marked if and only if it is looked for and the text means it, and
/// the mark is all that the text changes.
pub proof fn law_meant_devices_are_marked(device: Device, wanted: Option<Seq<char>>)
    ensures
        wanted is Some && device.matches_text(wanted->0) ==> device_line(device, wanted)
            == device_line(device, None) + " [match]"@,
        wanted is None || !device.matches_text(wanted->0) ==> device_line(device, wanted)
            == device_line(device, None),
        text::occurs(device_line(device, wanted), device.name@),
        device.socket_addr matches Some(addr) ==> text::occurs(device_line(device, wanted), addr@),
{
    let addr = match device.socket_addr {
        Some(addr) => addr@,
        None => "no address"@,
    };
    let mark = if wanted is Some && device.matches_text(wanted->0) {
        " [match]"@
    } else {
        Seq::empty()
    };
    let plain = "  - "@ + device.name@ + " ("@ + addr + ")"@;
    assert(device_line(device, None) =~= plain);
    assert(device_line(device, wanted) =~= plain + mark);
    text::law_middle_is_a_part("  - "@, device.name@, " ("@ + addr + ")"@ + mark);
    assert("  - "@ + device.name@ + (" ("@ + addr + ")"@ + mark) =~= device_line(device, wanted));
    text::law_middle_is_a_part("  - "@ + device.name@ + " ("@, addr, ")"@ + mark);
    assert("  - "@ + device.name@ + " ("@ + addr + (")"@ + mark) =~= device_line(device, wanted));
}

/// Each device found has a line of its own below the heading, which the others
/// do not change.
pub proof fn law_each_device_is_shown(devices: Seq<Device>, wanted: Option<Seq<char>>, i: int)
    requires
        0 <= i < devices.len(),
    ensures
        airplay_lines(devices, wanted).len() == devices.len() + 1,
        airplay_lines(devices, wanted)[i + 1] == airplay_lines(seq![devices[i]], wanted)[1],
        airplay_lines(Seq::empty(), wanted).len() == 1,
{
}

/// The line about the adapter shows the adapter if and only if the command
/// succeeded; otherwise it shows what went wrong.
pub proof fn law_adapter_line_shows_what_is_known(output: CommandOutput, error: String)
    ensures
        output.success ==> adapter_line(Ok(output)) == "Bluetooth adapter: "@ + adapter_words(
            output.printed(),
        ),
        !output.success ==> adapter_line(Ok(output)) == "Bluetooth adapter: "@
            + output.complaint(),
        adapter_line(Err(error)) == "Bluetooth adapter: "@ + error@,
{
}

} // verus!
