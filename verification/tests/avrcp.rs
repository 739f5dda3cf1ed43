use a2a2::avrcp::{dbus_integer, dbus_string, monitor_command, DbusMonitorParser, MediaCommand};

fn commands(text: &str) -> Vec<MediaCommand> {
    let mut parser = DbusMonitorParser::default();
    text.lines()
        .filter_map(|line| parser.push_line(line.trim()))
        .collect()
}

#[test]
fn transport_state_plays_and_pauses() {
    let text = "signal time=1 sender=:1.2
        string \"org.bluez.MediaTransport1\"
        dict entry(
           string \"State\"
           variant             string \"active\"
        )
        signal time=2 sender=:1.2
        string \"org.bluez.MediaTransport1\"
        string \"State\"
        variant string \"idle\"
        string \"State\"
        variant string \"pending\"";
    assert_eq!(commands(text), [MediaCommand::Play, MediaCommand::Pause]);
}

#[test]
fn player_status_plays_pauses_and_stops() {
    let text = "signal x
        string \"org.bluez.MediaPlayer1\"
        string \"Status\"
        variant string \"playing\"
        string \"Status\"
        variant string \"paused\"
        string \"Status\"
        variant string \"stopped\"
        string \"Status\"
        variant string \"error\"
        string \"State\"
        variant string \"active\"";
    assert_eq!(
        commands(text),
        [MediaCommand::Play, MediaCommand::Pause, MediaCommand::Stop]
    );
}

#[test]
fn volumes_are_held_to_their_range() {
    let text = "signal x
        string \"org.bluez.MediaTransport1\"
        string \"Volume\"
        variant             uint16 64
        string \"Volume\"
        variant             uint16 127
        string \"Volume\"
        variant             uint16 65535
        string \"Volume\"
        variant             int16 -3
        string \"Volume\"
        variant             uint16 0";
    assert_eq!(
        commands(text),
        [
            MediaCommand::Volume(64),
            MediaCommand::Volume(127),
            MediaCommand::Volume(127),
            MediaCommand::Volume(0)
        ]
    );
}

#[test]
fn a_volume_level_is_the_clamped_fraction() {
    for volume in [0u32, 1, 63, 64, 126, 127, 128, 1000, u32::MAX] {
        let mut parser = DbusMonitorParser::default();
        parser.push_line("string \"Volume\"");
        let command = parser.push_line(&format!("variant uint32 {volume}"));
        let Some(MediaCommand::Volume(level)) = command else {
            panic!("{volume} gives {command:?}");
        };
        let fraction = (volume as f32 / 127.0).clamp(0.0, 1.0);
        assert_eq!(f32::from(level) / 127.0, fraction);
    }
}

#[test]
fn a_new_signal_forgets_what_came_before() {
    let text = "signal x
        string \"org.bluez.MediaPlayer1\"
        string \"Status\"
        signal y
        variant string \"playing\"
        string \"Status\"
        variant string \"playing\"";
    assert_eq!(commands(text), []);
}

#[test]
fn other_lines_keep_a_status_waiting_but_not_a_volume() {
    let text = "string \"org.bluez.MediaPlayer1\"
        string \"Status\"
        )
        variant string \"playing\"
        string \"Volume\"
        )
        variant uint16 5";
    assert_eq!(commands(text), [MediaCommand::Play]);
}

#[test]
fn a_string_ends_the_wait_for_a_volume() {
    let text = "string \"org.bluez.MediaTransport1\"
        string \"Volume\"
        string \"loud\"
        variant uint16 5";
    assert_eq!(commands(text), []);
}

#[test]
fn commands_come_from_the_interface_seen_last() {
    let mut parser = DbusMonitorParser::default();
    assert_eq!(parser.command_from_string("Status", "playing"), None);
    parser.push_line("string \"org.bluez.MediaPlayer1\"");
    assert_eq!(
        parser.command_from_string("Status", "playing"),
        Some(MediaCommand::Play)
    );
    assert_eq!(parser.command_from_string("State", "active"), None);
}

#[test]
fn strings_are_taken_from_their_quotes() {
    assert_eq!(dbus_string("variant  string \"a \"b\" c\""), Some("a \"b\" c"));
    assert_eq!(dbus_string("string \"string \"x\""), Some("string \"x"));
    assert_eq!(dbus_string("string \"\""), Some(""));
    assert_eq!(dbus_string("string \""), None);
    assert_eq!(dbus_string("string \"open"), None);
    assert_eq!(dbus_string("byte 7"), None);
    assert_eq!(dbus_string("é string \"ü\""), Some("ü"));
}

#[test]
fn integers_follow_their_type() {
    assert_eq!(dbus_integer("variant  byte 7"), Some(7));
    assert_eq!(dbus_integer("uint16 +12 uint32 13"), Some(12));
    assert_eq!(dbus_integer("uint32 4294967295"), Some(u32::MAX));
    assert_eq!(dbus_integer("uint32 4294967296"), None);
    assert_eq!(dbus_integer("int32 -1"), None);
    assert_eq!(dbus_integer("int16 byte 4"), None);
    assert_eq!(dbus_integer("variant uint32"), None);
    assert_eq!(dbus_integer("uint64 5"), None);
    assert_eq!(dbus_integer(""), None);
}

#[test]
fn the_monitor_watches_property_changes() {
    let command = monitor_command();
    assert_eq!(command.program, "dbus-monitor");
    assert_eq!(command.args.len(), 2);
    assert_eq!(command.args[0], "--system");
    assert!(command.args[1].ends_with("member='PropertiesChanged'"));
}
