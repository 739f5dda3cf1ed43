//! The command line: its commands, their arguments, and what they lead to.

use vstd::prelude::*;

use crate::config::Config;
use crate::number::{self, parse_u32};
use crate::text::{self, strip_prefix, trim};

verus! {

/// A path of the file system (`std::path::PathBuf`). It is only carried along.
#[verifier::external_type_specification]
#[verifier::external_body]
pub struct ExPathBuf(std::path::PathBuf);

/// How long to look for AirPlay devices unless told otherwise, in seconds.
pub const DEFAULT_DISCOVER_SECS: u64 = 5;

/// The command line.
#[derive(Debug)]
pub struct Cli {
    /// How often more detail was asked for.
    pub verbose: u8,
    /// The configuration file, where one was named.
    pub config: Option<std::path::PathBuf>,
    /// What to do.
    pub command: Command,
}

/// What to do.
#[derive(Debug)]
pub enum Command {
    Doctor(DoctorArgs),
    Discover(DiscoverArgs),
    Run(RunArgs),
}

/// Arguments of the diagnosis.
#[derive(Debug)]
pub struct DoctorArgs {
    pub airplay_match: Option<String>,
}

/// Arguments of the search for AirPlay devices.
#[derive(Debug)]
pub struct DiscoverArgs {
    pub timeout_secs: u64,
}

/// Arguments of the bridge. What is not given is left to the configuration.
#[derive(Debug, Clone)]
pub struct RunArgs {
    pub airplay_match: Option<String>,
    pub pin: Option<String>,
    pub bt_alias: Option<String>,
    pub bt_class: Option<u32>,
    pub discoverable: bool,
    pub no_discoverable: bool,
    pub hd_audio: bool,
    pub standard_audio: bool,
    pub render_delay_ms: Option<u32>,
    pub airplay_discovery_secs: Option<u64>,
    pub bluetooth_wait_secs: Option<u64>,
}

/// The device class that a text stands for: hexadecimal after `0x` or `0X`,
/// decimal otherwise.
pub open spec fn class_value(text: Seq<char>) -> Result<int, number::NumberError> {
    let value = text::trimmed(text);
    if text::begins_with(value, "0x"@) || text::begins_with(value, "0X"@) {
        number::number_value(value.skip(2), 16)
    } else {
        number::number_value(value, 10)
    }
}

/// Reads a device class.
pub fn parse_bt_class(value: &str) -> (class: Result<u32, String>)
    ensures
        match class {
            Ok(class) => class_value(value@) == Ok::<int, number::NumberError>(class as int),
            Err(message) => class_value(value@) matches Err(error) && message@
                == "invalid Bluetooth class: "@ + error.words(),
        },
{
    let value = trim(value);
    proof {
        reveal_strlit("0x");
        reveal_strlit("0X");
    }
    let number = match strip_prefix(value, "0x") {
        Some(hex) => parse_u32(hex, 16),
        None => match strip_prefix(value, "0X") {
            Some(hex) => parse_u32(hex, 16),
            None => parse_u32(value, 10),
        },
    };
    match number {
        Ok(class) => Ok(class),
        Err(error) => {
            let words = error.message();
            Err("invalid Bluetooth class: ".to_owned().concat(words.as_str()))
        },
    }
}

/// A text that neither begins nor ends with white space is trimmed already.
proof fn lemma_trimmed_already(text: Seq<char>)
    requires
        text.len() > 0,
        !text::is_space(text.first()),
        !text::is_space(text.last()),
    ensures
        text::trimmed(text) == text,
{
}

/// White space around a device class is ignored.
pub proof fn law_space_around_a_class_is_ignored(
    before: Seq<char>,
    text: Seq<char>,
    after: Seq<char>,
)
    requires
        text::is_blank(before),
        text::is_blank(after),
    ensures
        class_value(before + text + after) == class_value(text),
{
    text::law_trimming_ignores_surrounding_space(before, text, after);
}

/// A device class is read back from hexadecimal: with either prefix, in digits
/// of either case, and with any number of leading zeros.
pub proof fn law_hexadecimal_class_is_read_back(
    bt_class: u32,
    width: int,
    capital_prefix: bool,
    capital_digits: bool,
)
    ensures
        ({
            let digits = number::zero_padded(number::numeral(bt_class as nat, 16), width);
            let prefix = if capital_prefix {
                "0X"@
            } else {
                "0x"@
            };
            class_value(
                prefix + (if capital_digits {
                    text::uppercase(digits)
                } else {
                    digits
                }),
            ) == Ok::<int, number::NumberError>(bt_class as int)
        }),
{
    reveal_strlit("0x");
    reveal_strlit("0X");
    let digits = number::zero_padded(number::numeral(bt_class as nat, 16), width);
    let shown = if capital_digits {
        text::uppercase(digits)
    } else {
        digits
    };
    let prefix = if capital_prefix {
        "0X"@
    } else {
        "0x"@
    };
    let text = prefix + shown;
    number::law_numbers_are_written_in_digits(bt_class as nat, 16, width);
    assert(number::is_written_digit(digits[digits.len() - 1]));
    assert(text.first() == '0');
    assert(text.last() == shown.last());
    lemma_trimmed_already(text);
    assert(text.subrange(0, 2) =~= prefix);
    assert(text.skip(2) =~= shown);
    number::law_case_of_digits_does_not_matter(digits, 16);
    number::law_written_numbers_are_read_back(bt_class as nat, 16, width);
}

/// A device class is read back from decimal, with any number of leading zeros.
pub proof fn law_decimal_class_is_read_back(bt_class: u32, width: int)
    ensures
        class_value(number::zero_padded(number::decimal(bt_class as int), width)) == Ok::<
            int,
            number::NumberError,
        >(bt_class as int),
{
    reveal_strlit("0x");
    reveal_strlit("0X");
    let text = number::zero_padded(number::decimal(bt_class as int), width);
    number::law_numbers_are_written_in_digits(bt_class as nat, 10, width);
    assert(number::is_written_digit(text[0]));
    assert(number::is_written_digit(text[text.len() - 1]));
    lemma_trimmed_already(text);
    if text.len() >= 2 {
        assert(number::is_written_digit(text[1]));
        assert(text.subrange(0, 2)[1] == text[1]);
    }
    number::law_written_numbers_are_read_back(bt_class as nat, 10, width);
}

/// A device class that was written is read back.
pub proof fn law_written_class_is_read_back(bt_class: u32)
    ensures
        class_value(crate::bluetooth::adapter::class_text(bt_class)) == Ok::<
            int,
            number::NumberError,
        >(bt_class as int),
{
    law_hexadecimal_class_is_read_back(bt_class, 6, false, false);
}

/// How much detail the log shows.
#[derive(Debug, Clone, Copy, PartialEq, Eq, Structural)]
pub enum LogLevel {
    Info,
    Debug,
    Trace,
}

/// How much detail the log shows, by how often more was asked for.
pub open spec fn detail(verbose: u8) -> LogLevel {
    if verbose == 0 {
        LogLevel::Info
    } else if verbose == 1 {
        LogLevel::Debug
    } else {
        LogLevel::Trace
    }
}

/// How much detail the log shows, by how often more was asked for.
pub fn log_level(verbose: u8) -> (level: LogLevel)
    ensures
        level == detail(verbose),
{
    match verbose {
        0 => LogLevel::Info,
        1 => LogLevel::Debug,
        _ => LogLevel::Trace,
    }
}

/// What the program sets out to do.
#[derive(Debug)]
pub enum Action {
    /// Diagnose the system, and mark the devices that match.
    Doctor(Option<String>),
    /// Look for AirPlay devices for some seconds.
    Discover(u64),
    /// Run the bridge.
    Run(Config),
}

/// What the program sets out to do: the command line comes before the
/// configuration file.
pub open spec fn action_for(command: Command, file_config: Config) -> Action {
    match command {
        Command::Doctor(args) => Action::Doctor(
            if args.airplay_match is Some {
                args.airplay_match
            } else {
                file_config.airplay_match
            },
        ),
        Command::Discover(args) => Action::Discover(args.timeout_secs),
        Command::Run(args) => Action::Run(file_config.merged(args)),
    }
}

/// What the program sets out to do: the command line comes before the
/// configuration file.
pub fn dispatch(command: Command, file_config: Config) -> (action: Action)
    ensures
        action == action_for(command, file_config),
{
    match command {
        Command::Doctor(args) => {
            if args.airplay_match.is_some() {
                Action::Doctor(args.airplay_match)
            } else {
                Action::Doctor(file_config.airplay_match)
            }
        },
        Command::Discover(args) => Action::Discover(args.timeout_secs),
        Command::Run(args) => Action::Run(file_config.merge_run_args(args)),
    }
}

/// What a build of the program can do.
#[derive(Debug, Clone, Copy, PartialEq, Eq, Structural)]
pub enum Build {
    /// It holds the bridge.
    Bridge,
    /// It runs on Linux, but was built without the bridge.
    WithoutBridge,
    /// It runs on another system, where there is no bridge.
    OtherSystem,
}

/// Why a build cannot run the bridge; nothing where it can.
pub fn run_refusal(build: Build) -> (message: Option<&'static str>)
    ensures
        match build {
            Build::Bridge => message is None,
            Build::WithoutBridge => message matches Some(text) && text@
                == "a2a2 run requires a bridge build; rebuild with --features bridge"@,
            Build::OtherSystem => message matches Some(text) && text@
                == "a2a2 run is Linux-only; deploy it to the Raspberry Pi"@,
        },
{
    match build {
        Build::Bridge => None,
        Build::WithoutBridge => Some(
            "a2a2 run requires a bridge build; rebuild with --features bridge",
        ),
        Build::OtherSystem => Some("a2a2 run is Linux-only; deploy it to the Raspberry Pi"),
    }
}

/// What the diagnosis shows in place of the Bluetooth side; nothing where the
/// build can look at it.
pub fn doctor_notice(build: Build) -> (notice: Option<&'static str>)
    ensures
        match build {
            Build::Bridge => notice is None,
            Build::WithoutBridge => notice matches Some(text) && text@
                == "Bluetooth bridge checks are disabled in this build; rebuild with --features bridge."@,
            Build::OtherSystem => notice matches Some(text) && text@
                == "Bluetooth bridge runtime is Linux-only; build/run it on the Raspberry Pi."@,
        },
{
    match build {
        Build::Bridge => None,
        Build::WithoutBridge => Some(
            "Bluetooth bridge checks are disabled in this build; rebuild with --features bridge.",
        ),
        Build::OtherSystem => Some(
            "Bluetooth bridge runtime is Linux-only; build/run it on the Raspberry Pi.",
        ),
    }
}

/// Nothing more is shown than was asked for: all detail from the second time
/// on.
pub proof fn law_detail_grows_when_asked_for(verbose: u8)
    ensures
        detail(verbose) is Info <==> verbose == 0,
        detail(verbose) is Debug <==> verbose == 1,
        detail(verbose) is Trace <==> verbose >= 2,
{
}

/// Each command leads to its own action. What the command line gives prevails
/// over the configuration file, and the search for devices heeds nothing else.
pub proof fn law_command_line_prevails(command: Command, config: Config, other: Config)
    ensures
        action_for(command, config) is Doctor <==> command is Doctor,
        action_for(command, config) is Discover <==> command is Discover,
        action_for(command, config) is Run <==> command is Run,
        command matches Command::Doctor(args) ==> args.airplay_match is Some ==> action_for(
            command,
            config,
        ) == Action::Doctor(args.airplay_match),
        command matches Command::Doctor(args) ==> args.airplay_match is None ==> action_for(
            command,
            config,
        ) == Action::Doctor(config.airplay_match),
        command matches Command::Discover(args) ==> action_for(command, config)
            == Action::Discover(args.timeout_secs),
        command matches Command::Run(args) ==> action_for(command, config) == Action::Run(
            config.merged(args),
        ),
{
}

/// Without one of the prefixes a class is decimal: every character of it is a
/// decimal digit, but for a plus sign that may come first.
pub proof fn law_letters_need_the_prefix(text: Seq<char>, i: int)
    requires
        class_value(text) is Ok,
        !text::begins_with(text::trimmed(text), "0x"@),
        !text::begins_with(text::trimmed(text), "0X"@),
        0 <= i < text::trimmed(text).len(),
    ensures
        i > 0 || text::trimmed(text)[0] != '+' ==> '0' <= text::trimmed(text)[i] <= '9',
{
    number::law_numbers_hold_only_digits(text::trimmed(text), 10, i);
}

/// A class that does not fit 32 bits is refused, in decimal and in hexadecimal.
pub proof fn law_large_classes_are_refused(value: nat)
    requires
        value > u32::MAX,
    ensures
        class_value("0x"@ + number::numeral(value, 16)) is Err,
        class_value(number::numeral(value, 10)) is Err,
{
    reveal_strlit("0x");
    reveal_strlit("0X");
    let hex = number::numeral(value, 16);
    let dec = number::numeral(value, 10);
    let text = "0x"@ + hex;
    number::law_large_numbers_are_refused(value, 16);
    number::law_large_numbers_are_refused(value, 10);
    number::law_numbers_are_written_in_digits(value, 16, 0);
    number::law_numbers_are_written_in_digits(value, 10, 0);
    assert(number::zero_padded(hex, 0) == hex && number::zero_padded(dec, 0) == dec);
    assert(number::is_written_digit(hex[hex.len() - 1]));
    assert(number::is_written_digit(dec[dec.len() - 1]) && number::is_written_digit(dec[0]));
    assert(text.first() == '0' && text.last() == hex.last());
    lemma_trimmed_already(text);
    lemma_trimmed_already(dec);
    assert(text.subrange(0, 2) =~= "0x"@);
    assert(text.skip(2) =~= hex);
    if dec.len() >= 2 {
        assert(number::is_written_digit(dec[1]));
        assert(dec.subrange(0, 2)[1] == dec[1]);
    }
}

} // verus!
