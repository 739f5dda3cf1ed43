//! Waiting for an audio source: reading BlueALSA's listings until one names a
//! device to capture from.

use vstd::prelude::*;

use crate::bluetooth::address::extract_mac_address;
use crate::command::{command_line, CommandLine, CommandOutput};
use crate::split::{self, lines};
use crate::text::{self, contains, to_ascii_lowercase};
use crate::time::Timestamp;

verus! {

/// Pause between two rounds of listings, in milliseconds.
pub const WAIT_PAUSE_MS: u64 = 500;

/// How long to wait for a source where the configuration sets no limit, in
/// seconds: a year.
pub const LONGEST_WAIT_SECS: u64 = 31_536_000;

/// Whether a line of a listing begins the section of capture devices.
pub open spec fn opens_capture(line: Seq<char>) -> bool {
    text::occurs(line, "List of CAPTURE"@)
}

/// Whether a line of a listing begins the section of playback devices.
pub open spec fn opens_playback(line: Seq<char>) -> bool {
    !opens_capture(line) && text::occurs(line, "List of PLAYBACK"@)
}

/// Whether line `i` of a listing stands in the section of capture devices: the
/// last heading above it opens that section.
pub open spec fn in_capture_section(lines: Seq<Seq<char>>, i: int) -> bool
    decreases i,
{
    0 < i && (opens_capture(lines[i - 1]) || (!opens_playback(lines[i - 1]) && in_capture_section(
        lines,
        i - 1,
    )))
}

/// The address of the capture device that line `i` of a listing describes: an
/// A2DP device, in the section of capture devices or named by its profile.
pub open spec fn source_in_line(lines: Seq<Seq<char>>, i: int) -> Option<Seq<char>> {
    let line = lines[i];
    if opens_capture(line) || opens_playback(line) {
        None
    } else if (in_capture_section(lines, i) || text::occurs(line, "PROFILE=a2dp"@))
        && text::occurs(text::lowercase(line), "a2dp"@) {
        crate::bluetooth::address::address_in(line)
    } else {
        None
    }
}

/// The first address that the lines from `i` on give.
pub open spec fn first_source(lines: Seq<Seq<char>>, i: int) -> Option<Seq<char>>
    decreases lines.len() - i,
{
    if i < 0 || i >= lines.len() {
        None
    } else if source_in_line(lines, i) is Some {
        source_in_line(lines, i)
    } else {
        first_source(lines, i + 1)
    }
}

/// The address of the capture device that a listing shows.
pub open spec fn listed_source(listing: Seq<char>) -> Option<Seq<char>> {
    first_source(split::lines_of(listing), 0)
}

/// The address of the capture device that a listing shows.
pub fn capture_address_in(listing: &str) -> (address: Option<String>)
    ensures
        text::opt_string(address) == listed_source(listing@),
{
    let list = lines(listing);
    let ghost all = split::lines_of(listing@);
    let mut in_section = false;
    for i in 0..list.len()
        invariant
            all == split::views(list@),
            in_section == in_capture_section(all, i as int),
            listed_source(listing@) == first_source(all, i as int),
            all == split::lines_of(listing@),
    {
        let line = list[i].as_str();
        assert(all[i as int] == line@);
        if contains(line, "List of CAPTURE") {
            in_section = true;
        } else if contains(line, "List of PLAYBACK") {
            in_section = false;
        } else if in_section || contains(line, "PROFILE=a2dp") {
            let low = to_ascii_lowercase(line);
            if contains(low.as_str(), "a2dp") {
                let address = extract_mac_address(line);
                if address.is_some() {
                    return address;
                }
            }
        }
    }
    None
}

/// The address that the output of a listing command gives: none where the
/// command failed.
pub open spec fn source_in_output(output: CommandOutput) -> Option<Seq<char>> {
    if output.success {
        listed_source(output.printed())
    } else {
        None
    }
}

/// The address of the capture device that the output of a listing command
/// shows.
pub fn find_bluealsa_capture_address(output: &CommandOutput) -> (address: Option<String>)
    ensures
        text::opt_string(address) == source_in_output(*output),
{
    if !output.success {
        return None;
    }
    let text = output.stdout_text();
    capture_address_in(text.as_str())
}

/// How long to wait for a source, in seconds, where zero sets no limit.
pub open spec fn limit_secs(wait_secs: u64) -> u64 {
    if wait_secs == 0 {
        LONGEST_WAIT_SECS
    } else {
        wait_secs
    }
}

/// How long to wait for a source, in seconds, where zero sets no limit.
pub fn wait_limit(wait_secs: u64) -> (secs: u64)
    ensures
        secs == limit_secs(wait_secs),
{
    if wait_secs == 0 {
        LONGEST_WAIT_SECS
    } else {
        wait_secs
    }
}

/// How far the wait for a source has come.
#[derive(Debug)]
pub enum WaitStep {
    /// The devices are to be listed.
    ListDevices,
    /// The devices' streams are to be listed.
    ListStreams,
    /// Neither listing named a source: the clock is to be read.
    ReadClock,
    /// There is time left: another round follows a pause.
    Pause,
    /// The source with this address is connected.
    Connected(String),
    /// The time is over.
    TimedOut,
    /// A listing could not be made, for this reason.
    Failed(String),
}

/// What has happened since the last step.
#[derive(Debug)]
pub enum WaitEvent {
    /// A listing command has finished.
    Listed(CommandOutput),
    /// The listing command could not be started, for this reason.
    NotStarted(String),
    /// The clock has been read.
    Clock(Timestamp),
    /// The pause is over.
    Resumed,
}

/// How far the wait has come, with the address as text.
pub enum WaitView {
    ListDevices,
    ListStreams,
    ReadClock,
    Pause,
    Connected(Seq<char>),
    TimedOut,
    Failed(Seq<char>),
}

impl View for WaitStep {
    type V = WaitView;

    open spec fn view(&self) -> WaitView {
        match self {
            WaitStep::ListDevices => WaitView::ListDevices,
            WaitStep::ListStreams => WaitView::ListStreams,
            WaitStep::ReadClock => WaitView::ReadClock,
            WaitStep::Pause => WaitView::Pause,
            WaitStep::Connected(address) => WaitView::Connected(address@),
            WaitStep::TimedOut => WaitView::TimedOut,
            WaitStep::Failed(reason) => WaitView::Failed(reason@),
        }
    }
}

impl WaitView {
    /// The wait has come to an end.
    pub open spec fn is_over(self) -> bool {
        self is Connected || self is TimedOut || self is Failed
    }

    /// The step after an event: a listing that cannot be made ends the wait. An
    /// event that the step does not wait for changes nothing.
    pub open spec fn next(self, event: WaitEvent, deadline: int) -> WaitView {
        match (self, event) {
            (WaitView::ListDevices, WaitEvent::Listed(output)) => match source_in_output(output) {
                Some(address) => WaitView::Connected(address),
                None => WaitView::ListStreams,
            },
            (WaitView::ListStreams, WaitEvent::Listed(output)) => match source_in_output(output) {
                Some(address) => WaitView::Connected(address),
                None => WaitView::ReadClock,
            },
            (
                WaitView::ListDevices | WaitView::ListStreams,
                WaitEvent::NotStarted(reason),
            ) => WaitView::Failed(reason@),
            (WaitView::ReadClock, WaitEvent::Clock(now)) => if now@ >= deadline {
                WaitView::TimedOut
            } else {
                WaitView::Pause
            },
            (WaitView::Pause, WaitEvent::Resumed) => WaitView::ListDevices,
            (step, _) => step,
        }
    }
}

/// The step after an event.
pub fn wait_for_bluealsa_capture_device(
    step: WaitStep,
    event: &WaitEvent,
    deadline: Timestamp,
) -> (next: WaitStep)
    ensures
        next@ == step@.next(*event, deadline@),
{
    match (step, event) {
        (WaitStep::ListDevices, WaitEvent::Listed(output)) => {
            match find_bluealsa_capture_address(output) {
                Some(address) => WaitStep::Connected(address),
                None => WaitStep::ListStreams,
            }
        },
        (WaitStep::ListStreams, WaitEvent::Listed(output)) => {
            match find_bluealsa_capture_address(output) {
                Some(address) => WaitStep::Connected(address),
                None => WaitStep::ReadClock,
            }
        },
        (WaitStep::ListDevices, WaitEvent::NotStarted(reason)) => WaitStep::Failed(reason.clone()),
        (WaitStep::ListStreams, WaitEvent::NotStarted(reason)) => WaitStep::Failed(reason.clone()),
        (WaitStep::ReadClock, WaitEvent::Clock(now)) => {
            if now.nanos >= deadline.nanos {
                WaitStep::TimedOut
            } else {
                WaitStep::Pause
            }
        },
        (WaitStep::Pause, WaitEvent::Resumed) => WaitStep::ListDevices,
        (step, _) => step,
    }
}

/// The outcome of the wait, once it is over.
pub fn wait_outcome(step: WaitStep) -> (outcome: Option<Result<String, String>>)
    ensures
        match outcome {
            Some(Ok(address)) => step@ == WaitView::Connected(address@),
            Some(Err(message)) => step@ == WaitView::Failed(message@) || (step@ is TimedOut
                && message@ == "timed out waiting for a BlueALSA A2DP capture device"@),
            None => !step@.is_over(),
        },
{
    match step {
        WaitStep::Connected(address) => Some(Ok(address)),
        WaitStep::TimedOut => Some(
            Err("timed out waiting for a BlueALSA A2DP capture device".to_owned()),
        ),
        WaitStep::Failed(reason) => Some(Err(reason)),
        _ => None,
    }
}

/// The command that lists devices, or their streams.
pub fn listing_command(streams: bool) -> (command: CommandLine)
    ensures
        command@.program == "bluealsa-aplay"@,
        command@.args == (if streams {
            seq!["-L"@]
        } else {
            seq!["-l"@]
        }),
{
    if streams {
        let command = command_line("bluealsa-aplay", &["-L"]);
        assert(command@.args =~= seq!["-L"@]);
        command
    } else {
        let command = command_line("bluealsa-aplay", &["-l"]);
        assert(command@.args =~= seq!["-l"@]);
        command
    }
}

/// One round of the wait. The listing of the devices comes first, then that of
/// their streams; only where neither names a source does the clock decide. So
/// a source that is listed is found even at the very end of the time.
pub proof fn law_round_of_waiting(
    devices: CommandOutput,
    streams: CommandOutput,
    now: Timestamp,
    deadline: int,
)
    ensures
        ({
            let first = WaitView::ListDevices.next(WaitEvent::Listed(devices), deadline);
            let second = first.next(WaitEvent::Listed(streams), deadline);
            let third = second.next(WaitEvent::Clock(now), deadline);
            third == (if source_in_output(devices) is Some {
                WaitView::Connected(source_in_output(devices)->0)
            } else if source_in_output(streams) is Some {
                WaitView::Connected(source_in_output(streams)->0)
            } else if now@ >= deadline {
                WaitView::TimedOut
            } else {
                WaitView::Pause
            })
        }),
        WaitView::Pause.next(WaitEvent::Resumed, deadline) == WaitView::ListDevices,
{
}

/// The end of the wait is final.
pub proof fn law_finished_wait_stays(step: WaitView, event: WaitEvent, deadline: int)
    requires
        step.is_over(),
    ensures
        step.next(event, deadline) == step,
{
}

/// A listing that cannot be made ends the wait with the reason, whether it is
/// that of the devices or that of their streams; the clock plays no part.
pub proof fn law_listing_that_cannot_be_made_ends_the_wait(
    devices: CommandOutput,
    reason: String,
    deadline: int,
)
    ensures
        WaitView::ListDevices.next(WaitEvent::NotStarted(reason), deadline) == WaitView::Failed(
            reason@,
        ),
        source_in_output(devices) is None ==> WaitView::ListDevices.next(
            WaitEvent::Listed(devices),
            deadline,
        ).next(WaitEvent::NotStarted(reason), deadline) == WaitView::Failed(reason@),
{
}

/// A line stands in the section of capture devices if and only if a heading of
/// that section stands above it, and below that no heading of playback devices.
pub proof fn law_section_is_under_its_heading(lines: Seq<Seq<char>>, i: int)
    requires
        0 <= i <= lines.len(),
    ensures
        in_capture_section(lines, i) <==> exists|k: int|
            0 <= k < i && text::occurs(#[trigger] lines[k], "List of CAPTURE"@) && forall|j: int|
                k < j < i ==> text::occurs(#[trigger] lines[j], "List of CAPTURE"@)
                    || !text::occurs(lines[j], "List of PLAYBACK"@),
    decreases i,
{
    if i > 0 {
        law_section_is_under_its_heading(lines, i - 1);
        if in_capture_section(lines, i) {
            if opens_capture(lines[i - 1]) {
                assert(text::occurs(lines[i - 1], "List of CAPTURE"@));
            } else {
                let k = choose|k: int|
                    0 <= k < i - 1 && text::occurs(#[trigger] lines[k], "List of CAPTURE"@)
                        && forall|j: int|
                        k < j < i - 1 ==> text::occurs(#[trigger] lines[j], "List of CAPTURE"@)
                            || !text::occurs(lines[j], "List of PLAYBACK"@);
                assert(forall|j: int|
                    k < j < i ==> text::occurs(#[trigger] lines[j], "List of CAPTURE"@)
                        || !text::occurs(lines[j], "List of PLAYBACK"@));
            }
        }
        if exists|k: int|
            0 <= k < i && text::occurs(#[trigger] lines[k], "List of CAPTURE"@) && forall|j: int|
                k < j < i ==> text::occurs(#[trigger] lines[j], "List of CAPTURE"@)
                    || !text::occurs(lines[j], "List of PLAYBACK"@) {
            let k = choose|k: int|
                0 <= k < i && text::occurs(#[trigger] lines[k], "List of CAPTURE"@) && forall|
                    j: int,
                |
                    k < j < i ==> text::occurs(#[trigger] lines[j], "List of CAPTURE"@)
                        || !text::occurs(lines[j], "List of PLAYBACK"@);
            if k < i - 1 {
                assert(text::occurs(lines[i - 1], "List of CAPTURE"@) || !text::occurs(
                    lines[i - 1],
                    "List of PLAYBACK"@,
                ));
            }
        }
    }
}

/// Whether a line of a listing tells of an A2DP source: it is no heading, holds
/// `a2dp` in whatever case, and stands in the section of capture devices or
/// shows its profile.
pub open spec fn tells_of_a_source(lines: Seq<Seq<char>>, i: int) -> bool {
    &&& !text::occurs(lines[i], "List of CAPTURE"@)
    &&& !text::occurs(lines[i], "List of PLAYBACK"@)
    &&& text::occurs(text::lowercase(lines[i]), "a2dp"@)
    &&& text::occurs(lines[i], "PROFILE=a2dp"@) || in_capture_section(lines, i)
}

/// The first source from some line on is that of the first line that gives one.
proof fn lemma_first_source(lines: Seq<Seq<char>>, from: int)
    requires
        0 <= from <= lines.len(),
    ensures
        match first_source(lines, from) {
            Some(address) => exists|i: int|
                from <= i < lines.len() && #[trigger] source_in_line(lines, i) == Some(address)
                    && forall|j: int|
                    from <= j < i ==> (#[trigger] source_in_line(lines, j)) is None,
            None => forall|i: int|
                from <= i < lines.len() ==> (#[trigger] source_in_line(lines, i)) is None,
        },
    decreases lines.len() - from,
{
    if from < lines.len() {
        if source_in_line(lines, from) is None {
            lemma_first_source(lines, from + 1);
            if first_source(lines, from) is Some {
                let address = first_source(lines, from)->0;
                let i = choose|i: int|
                    from + 1 <= i < lines.len() && #[trigger] source_in_line(lines, i) == Some(
                        address,
                    ) && forall|j: int|
                        from + 1 <= j < i ==> (#[trigger] source_in_line(lines, j)) is None;
                assert(forall|j: int|
                    from <= j < i ==> (#[trigger] source_in_line(lines, j)) is None);
            }
        }
    }
}

/// An address is captured from only if a line of the listing tells of an A2DP
/// source and names that address, and no line before it tells of another.
pub proof fn law_captured_source_is_an_a2dp_source(listing: Seq<char>)
    ensures
        ({
            let lines = split::lines_of(listing);
            listed_source(listing) matches Some(address) ==> exists|i: int|
                #![trigger lines[i]]
                {
                    &&& 0 <= i < lines.len()
                    &&& !text::occurs(lines[i], "List of CAPTURE"@)
                    &&& !text::occurs(lines[i], "List of PLAYBACK"@)
                    &&& text::occurs(text::lowercase(lines[i]), "a2dp"@)
                    &&& text::occurs(lines[i], "PROFILE=a2dp"@) || in_capture_section(lines, i)
                    &&& crate::bluetooth::address::address_in(lines[i]) == Some(address)
                    &&& forall|j: int|
                        0 <= j < i && tells_of_a_source(lines, j)
                            ==> crate::bluetooth::address::address_in(#[trigger] lines[j]) is None
                }
        }),
{
    let lines = split::lines_of(listing);
    lemma_first_source(lines, 0);
    if listed_source(listing) is Some {
        let address = listed_source(listing)->0;
        let i = choose|i: int|
            0 <= i < lines.len() && #[trigger] source_in_line(lines, i) == Some(address)
                && forall|j: int|
                0 <= j < i ==> (#[trigger] source_in_line(lines, j)) is None;
        assert forall|j: int| 0 <= j < i && tells_of_a_source(lines, j) implies
            crate::bluetooth::address::address_in(#[trigger] lines[j]) is None by {
            assert(source_in_line(lines, j) is None);
        }
        assert(lines[i] == lines[i]);
    }
}

/// A line that tells of an A2DP source and names an address is found, where no
/// line before it does.
pub proof fn law_a2dp_source_is_found(listing: Seq<char>, i: int)
    requires
        0 <= i < split::lines_of(listing).len(),
        tells_of_a_source(split::lines_of(listing), i),
        crate::bluetooth::address::address_in(split::lines_of(listing)[i]) is Some,
        forall|j: int|
            0 <= j < i && tells_of_a_source(split::lines_of(listing), j)
                ==> crate::bluetooth::address::address_in(
                #[trigger] split::lines_of(listing)[j],
            ) is None,
    ensures
        listed_source(listing) == crate::bluetooth::address::address_in(
            split::lines_of(listing)[i],
        ),
{
    let lines = split::lines_of(listing);
    lemma_first_source(lines, 0);
    assert(source_in_line(lines, i) is Some);
    let address = listed_source(listing)->0;
    let k = choose|k: int|
        0 <= k < lines.len() && #[trigger] source_in_line(lines, k) == Some(address) && forall|
            j: int,
        |
            0 <= j < k ==> (#[trigger] source_in_line(lines, j)) is None;
    if k < i {
        assert(tells_of_a_source(lines, k));
        assert(crate::bluetooth::address::address_in(lines[k]) is None);
    } else if i < k {
        assert(source_in_line(lines, i) is None);
    }
}

/// A listing without `a2dp` in any of its lines, in whatever case, names no
/// source.
pub proof fn law_no_source_without_a2dp(listing: Seq<char>)
    requires
        forall|i: int|
            0 <= i < split::lines_of(listing).len() ==> !text::occurs(
                text::lowercase(#[trigger] split::lines_of(listing)[i]),
                "a2dp"@,
            ),
    ensures
        listed_source(listing) is None,
{
    law_captured_source_is_an_a2dp_source(listing);
}

/// A listing counts if and only if its command succeeded.
pub proof fn law_failed_listing_names_no_source(output: CommandOutput)
    ensures
        !output.success ==> source_in_output(output) is None,
        output.success ==> source_in_output(output) == listed_source(output.printed()),
{
}

/// Two rounds of listings are made in a second, and where no limit is set the
/// wait lasts a year of 365 days.
pub proof fn law_times_of_the_wait()
    ensures
        2 * WAIT_PAUSE_MS == 1000,
        LONGEST_WAIT_SECS == 365 * 24 * 60 * 60,
{
}

/// A limit that is set is kept to the second, however long; without one the wait
/// lasts a year.
pub proof fn law_limits_are_kept(wait_secs: u64)
    ensures
        wait_secs > 0 ==> limit_secs(wait_secs) == wait_secs,
        limit_secs(0) == 365 * 24 * 60 * 60,
{
}

} // verus!
