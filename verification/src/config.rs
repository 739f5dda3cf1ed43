//! The configuration of the bridge.

use vstd::prelude::*;

use crate::cli::RunArgs;

verus! {

/// The class that the adapter shows unless told otherwise: an audio device.
pub const DEFAULT_BT_CLASS: u32 = 0x240414;

/// The configuration of the bridge.
#[derive(Debug, Clone)]
pub struct Config {
    /// What the name or another trait of the AirPlay target contains.
    pub airplay_match: Option<String>,
    /// The PIN of the AirPlay target.
    pub pin: String,
    /// The name under which the adapter appears.
    pub bt_alias: String,
    /// The class that the adapter shows.
    pub bt_class: u32,
    /// Whether the adapter can be discovered.
    pub discoverable: bool,
    /// Whether audio is captured in high definition.
    pub hd_audio: bool,
    /// The AirPlay volume from zero to one, as the bits of a number in IEEE 754
    /// single precision.
    pub airplay_volume_bits: u32,
    /// Whether the AirPlay volume follows the source's.
    pub sync_bluetooth_volume: bool,
    /// The delay of the AirPlay rendering, in milliseconds.
    pub render_delay_ms: u32,
    /// How long to look for the AirPlay target, in seconds.
    pub airplay_discovery_secs: u64,
    /// How long to wait for a source, in seconds; zero sets no limit.
    pub bluetooth_wait_secs: u64,
}

/// The bits of one fifth in single precision.
pub const DEFAULT_VOLUME_BITS: u32 = 0x3e4c_cccd;

impl Config {
    /// The configuration where none is given.
    pub open spec fn is_default(self) -> bool {
        &&& self.airplay_match is None
        &&& self.pin@ == "3939"@
        &&& self.bt_alias@ == "a2a2 Bridge"@
        &&& self.bt_class == DEFAULT_BT_CLASS
        &&& self.discoverable
        &&& !self.hd_audio
        &&& self.airplay_volume_bits == DEFAULT_VOLUME_BITS
        &&& !self.sync_bluetooth_volume
        &&& self.render_delay_ms == 350
        &&& self.airplay_discovery_secs == 5
        &&& self.bluetooth_wait_secs == 0
    }
}

impl Default for Config {
    /// The configuration where none is given.
    fn default() -> (config: Self)
        ensures
            config.is_default(),
    {
        Config {
            airplay_match: None,
            pin: "3939".to_owned(),
            bt_alias: "a2a2 Bridge".to_owned(),
            bt_class: DEFAULT_BT_CLASS,
            discoverable: true,
            hd_audio: false,
            airplay_volume_bits: DEFAULT_VOLUME_BITS,
            sync_bluetooth_volume: false,
            render_delay_ms: 350,
            airplay_discovery_secs: 5,
            bluetooth_wait_secs: 0,
        }
    }
}

/// A value that arguments may override.
pub open spec fn overridden<T>(given: Option<T>, otherwise: T) -> T {
    match given {
        Some(value) => value,
        None => otherwise,
    }
}

/// A switch that arguments may turn on or off; off prevails.
pub open spec fn switched(on: bool, off: bool, otherwise: bool) -> bool {
    !off && (on || otherwise)
}

impl Config {
    /// The configuration with the arguments of the command line put over it.
    pub open spec fn merged(self, args: RunArgs) -> Config {
        Config {
            airplay_match: if args.airplay_match is Some {
                args.airplay_match
            } else {
                self.airplay_match
            },
            pin: overridden(args.pin, self.pin),
            bt_alias: overridden(args.bt_alias, self.bt_alias),
            bt_class: overridden(args.bt_class, self.bt_class),
            discoverable: switched(args.discoverable, args.no_discoverable, self.discoverable),
            hd_audio: switched(args.hd_audio, args.standard_audio, self.hd_audio),
            render_delay_ms: overridden(args.render_delay_ms, self.render_delay_ms),
            airplay_discovery_secs: overridden(
                args.airplay_discovery_secs,
                self.airplay_discovery_secs,
            ),
            bluetooth_wait_secs: overridden(args.bluetooth_wait_secs, self.bluetooth_wait_secs),
            ..self
        }
    }

    /// Puts the arguments of the command line over the configuration.
    pub fn merge_run_args(self, args: RunArgs) -> (config: Self)
        ensures
            config == self.merged(args),
    {
        let mut config = self;
        if let Some(value) = args.airplay_match {
            config.airplay_match = Some(value);
        }
        if let Some(value) = args.pin {
            config.pin = value;
        }
        if let Some(value) = args.bt_alias {
            config.bt_alias = value;
        }
        if let Some(value) = args.bt_class {
            config.bt_class = value;
        }
        if args.discoverable {
            config.discoverable = true;
        }
        if args.no_discoverable {
            config.discoverable = false;
        }
        if args.hd_audio {
            config.hd_audio = true;
        }
        if args.standard_audio {
            config.hd_audio = false;
        }
        if let Some(value) = args.render_delay_ms {
            config.render_delay_ms = value;
        }
        if let Some(value) = args.airplay_discovery_secs {
            config.airplay_discovery_secs = value;
        }
        if let Some(value) = args.bluetooth_wait_secs {
            config.bluetooth_wait_secs = value;
        }
        config
    }

    /// The AirPlay target to look for, without which the bridge cannot run.
    pub fn target(&self) -> (target: Result<String, String>)
        ensures
            match target {
                Ok(text) => self.airplay_match matches Some(m) && text@ == m@,
                Err(message) => self.airplay_match is None && message@
                    == "set --airplay-match or A2A2_AIRPLAY_MATCH"@,
            },
    {
        match &self.airplay_match {
            Some(text) => Ok(text.clone()),
            None => Err("set --airplay-match or A2A2_AIRPLAY_MATCH".to_owned()),
        }
    }
}

/// How the audio of the source is captured.
#[derive(Debug, Clone, Copy, PartialEq, Eq, Structural)]
pub enum AudioQuality {
    Standard,
    Hd,
}

impl Config {
    /// How the audio of the source is captured.
    pub fn audio_quality(&self) -> (quality: AudioQuality)
        ensures
            quality == (if self.hd_audio {
                AudioQuality::Hd
            } else {
                AudioQuality::Standard
            }),
    {
        if self.hd_audio {
            AudioQuality::Hd
        } else {
            AudioQuality::Standard
        }
    }
}

/// Arguments that say nothing.
pub open spec fn says_nothing(args: RunArgs) -> bool {
    &&& args.airplay_match is None
    &&& args.pin is None
    &&& args.bt_alias is None
    &&& args.bt_class is None
    &&& !args.discoverable
    &&& !args.no_discoverable
    &&& !args.hd_audio
    &&& !args.standard_audio
    &&& args.render_delay_ms is None
    &&& args.airplay_discovery_secs is None
    &&& args.bluetooth_wait_secs is None
}

/// Arguments that say nothing change nothing.
pub proof fn law_empty_arguments_change_nothing(config: Config, args: RunArgs)
    requires
        says_nothing(args),
    ensures
        config.merged(args) == config,
{
}

/// Saying a thing twice is saying it once.
pub proof fn law_merging_twice_is_merging_once(config: Config, args: RunArgs)
    ensures
        config.merged(args).merged(args) == config.merged(args),
{
}

/// The volume comes from the configuration alone.
pub proof fn law_arguments_leave_the_volume(config: Config, args: RunArgs)
    ensures
        config.merged(args).airplay_volume_bits == config.airplay_volume_bits,
        config.merged(args).sync_bluetooth_volume == config.sync_bluetooth_volume,
{
}

/// Where the configuration comes from.
#[derive(Debug, Clone, Copy, PartialEq, Eq, Structural)]
pub enum ConfigSource {
    /// The file that the command line names.
    Named,
    /// `a2a2.toml` in the working directory.
    Local,
    /// `.config/a2a2/config.toml` in the home directory.
    User,
    /// `/etc/a2a2.toml`.
    System,
    /// No file: the configuration where none is given.
    Defaults,
}

/// Which of the usual files is used: the first that exists, in the working
/// directory, the home directory, or for the whole system. Without a home
/// directory only the first is looked for.
pub open spec fn usual_source(local: bool, user: Option<bool>, system: bool) -> ConfigSource {
    if local {
        ConfigSource::Local
    } else {
        match user {
            None => ConfigSource::Defaults,
            Some(true) => ConfigSource::User,
            Some(false) => if system {
                ConfigSource::System
            } else {
                ConfigSource::Defaults
            },
        }
    }
}

/// Which of the usual files is used, by which of them exist; `user` is none
/// where there is no home directory.
pub fn default_config_path(local: bool, user: Option<bool>, system: bool) -> (source: ConfigSource)
    ensures
        source == usual_source(local, user, system),
{
    if local {
        return ConfigSource::Local;
    }
    match user {
        None => ConfigSource::Defaults,
        Some(true) => ConfigSource::User,
        Some(false) => {
            if system {
                ConfigSource::System
            } else {
                ConfigSource::Defaults
            }
        },
    }
}

/// Where the configuration comes from. A file that the command line names is
/// the only one looked for; `named` says whether it exists.
pub open spec fn source_of(
    named: Option<bool>,
    local: bool,
    user: Option<bool>,
    system: bool,
) -> ConfigSource {
    match named {
        Some(true) => ConfigSource::Named,
        Some(false) => ConfigSource::Defaults,
        None => usual_source(local, user, system),
    }
}

/// Where the configuration comes from. A file that the command line names is
/// the only one looked for; `named` says whether it exists.
pub fn config_source(
    named: Option<bool>,
    local: bool,
    user: Option<bool>,
    system: bool,
) -> (source: ConfigSource)
    ensures
        source == source_of(named, local, user, system),
{
    match named {
        Some(true) => ConfigSource::Named,
        Some(false) => ConfigSource::Defaults,
        None => default_config_path(local, user, system),
    }
}

impl ConfigSource {
    /// The path of the file, in the home directory for [`ConfigSource::User`];
    /// none for a file that is named elsewhere, or for no file.
    pub fn path(self) -> (path: Option<&'static str>)
        ensures
            match self {
                ConfigSource::Local => path matches Some(text) && text@ == "a2a2.toml"@,
                ConfigSource::User => path matches Some(text) && text@
                    == ".config/a2a2/config.toml"@,
                ConfigSource::System => path matches Some(text) && text@ == "/etc/a2a2.toml"@,
                ConfigSource::Named => path is None,
                ConfigSource::Defaults => path is None,
            },
    {
        match self {
            ConfigSource::Local => Some("a2a2.toml"),
            ConfigSource::User => Some(".config/a2a2/config.toml"),
            ConfigSource::System => Some("/etc/a2a2.toml"),
            ConfigSource::Named => None,
            ConfigSource::Defaults => None,
        }
    }
}

/// What has become of the configuration file.
#[derive(Debug)]
pub enum ConfigFile {
    /// There is none.
    Absent,
    /// It could not be read.
    Unreadable,
    /// It does not hold a configuration.
    Invalid,
    /// It holds this configuration.
    Holds(Config),
}

impl Config {
    /// The configuration that a file gives, or what is said of its failure.
    pub fn load(path: &str, file: ConfigFile) -> (config: Result<Config, String>)
        ensures
            match file {
                ConfigFile::Absent => config matches Ok(config) && config.is_default(),
                ConfigFile::Unreadable => config matches Err(message) && message@
                    == "read config file "@ + path@,
                ConfigFile::Invalid => config matches Err(message) && message@
                    == "parse config file "@ + path@,
                ConfigFile::Holds(held) => config == Ok::<Config, String>(held),
            },
    {
        match file {
            ConfigFile::Absent => Ok(Config::default()),
            ConfigFile::Unreadable => Err("read config file ".to_owned().concat(path)),
            ConfigFile::Invalid => Err("parse config file ".to_owned().concat(path)),
            ConfigFile::Holds(held) => Ok(held),
        }
    }
}

/// What an argument gives prevails, whatever it is; what no argument gives stays
/// as it was.
pub proof fn law_given_arguments_prevail(config: Config, args: RunArgs)
    ensures
        ({
            let merged = config.merged(args);
            &&& args.airplay_match is Some ==> merged.airplay_match == args.airplay_match
            &&& args.airplay_match is None ==> merged.airplay_match == config.airplay_match
            &&& args.pin matches Some(pin) ==> merged.pin == pin
            &&& args.pin is None ==> merged.pin == config.pin
            &&& args.bt_alias matches Some(alias) ==> merged.bt_alias == alias
            &&& args.bt_alias is None ==> merged.bt_alias == config.bt_alias
            &&& args.bt_class matches Some(class) ==> merged.bt_class == class
            &&& args.bt_class is None ==> merged.bt_class == config.bt_class
            &&& args.render_delay_ms matches Some(ms) ==> merged.render_delay_ms == ms
            &&& args.render_delay_ms is None ==> merged.render_delay_ms == config.render_delay_ms
            &&& args.airplay_discovery_secs matches Some(secs) ==> merged.airplay_discovery_secs
                == secs
            &&& args.airplay_discovery_secs is None ==> merged.airplay_discovery_secs
                == config.airplay_discovery_secs
            &&& args.bluetooth_wait_secs matches Some(secs) ==> merged.bluetooth_wait_secs == secs
            &&& args.bluetooth_wait_secs is None ==> merged.bluetooth_wait_secs
                == config.bluetooth_wait_secs
        }),
{
}

/// A switch is off if an argument turns it off, on if an argument only turns it
/// on, and as it was if no argument says anything.
pub proof fn law_off_prevails(config: Config, args: RunArgs)
    ensures
        args.no_discoverable ==> !config.merged(args).discoverable,
        args.discoverable && !args.no_discoverable ==> config.merged(args).discoverable,
        !args.discoverable && !args.no_discoverable ==> config.merged(args).discoverable
            == config.discoverable,
        args.standard_audio ==> !config.merged(args).hd_audio,
        args.hd_audio && !args.standard_audio ==> config.merged(args).hd_audio,
        !args.hd_audio && !args.standard_audio ==> config.merged(args).hd_audio == config.hd_audio,
{
}

/// Of the usual files the nearest that exists is used: that of the working
/// directory, of the home directory, or of the system; without a home directory
/// that of the system is not looked for.
pub proof fn law_nearest_file_is_used(local: bool, user: Option<bool>, system: bool)
    ensures
        usual_source(local, user, system) == ConfigSource::Local <==> local,
        usual_source(local, user, system) == ConfigSource::User <==> !local && user == Some(true),
        usual_source(local, user, system) == ConfigSource::System <==> !local && user == Some(false)
            && system,
        usual_source(local, user, system) == ConfigSource::Defaults <==> !local && (user is None
            || (user == Some(false) && !system)),
{
}

/// A file that the command line names is the only one looked for: it is used if
/// it exists, and if not there is none. Without such a name the usual files
/// count.
pub proof fn law_named_file_is_the_only_one(
    there: bool,
    local: bool,
    user: Option<bool>,
    system: bool,
)
    ensures
        source_of(Some(there), local, user, system) == ConfigSource::Named <==> there,
        source_of(Some(there), local, user, system) == ConfigSource::Defaults <==> !there,
        source_of(None, local, user, system) == usual_source(local, user, system),
{
}

} // verus!
