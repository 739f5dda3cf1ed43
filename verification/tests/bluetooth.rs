use a2a2::bluetooth::adapter::{
    adapter_first, adapter_listing_command, adapter_next, adapters_in, class_command,
    class_commands,
    configure_bluetooth_adapter, format_bt_class, run_bluetoothctl, set_bluetooth_class,
    AdapterProgress, AdapterStep,
};
use a2a2::bluetooth::address::{extract_mac_address, is_mac_address};
use a2a2::bluetooth::capture::{
    capture_address_in, find_bluealsa_capture_address, listing_command,
    wait_for_bluealsa_capture_device, wait_limit, wait_outcome, WaitEvent, WaitStep,
};
use a2a2::bluetooth::devices::{
    call_bluez_player_method, connected_addresses_in, connected_devices_command,
    disconnect_command, disconnect_connected_bluetooth_devices, disconnect_first,
    disconnect_next, disconnect_outcome, find_bluez_media_player_path, player_method_called,
    player_path_in, player_tree_command, run_bluez_player_method, DisconnectStep, PlayerMethod,
};
use a2a2::bluetooth::error::BluetoothError;
use a2a2::bluetooth::setup::{Probe, SetupCheck};
use a2a2::bluetooth::{ComponentStatus, SetupStatus, SystemSetup};
use a2a2::command::CommandOutput;
use a2a2::time::Timestamp;

fn output(success: bool, stdout: &[u8], stderr: &[u8]) -> CommandOutput {
    CommandOutput {
        success,
        stdout: stdout.to_vec(),
        stderr: stderr.to_vec(),
    }
}

const DEVICES: &str = "**** List of PLAYBACK Bluetooth Devices ****
hci0: 11:22:33:44:55:66 [Speaker], audio-card
  A2DP (SBC): S16_LE 2 channels 44100 Hz
**** List of CAPTURE Bluetooth Devices ****
hci0: AA:BB:CC:DD:EE:FF [Phone], phone
  hci0: aa:bb:cc:dd:ee:0f [Phone], trusted phone A2DP
";

const STREAMS: &str = "bluealsa:DEV=12:34:56:78:9a:bC,PROFILE=a2dp,SRV=org.bluealsa
    Phone, trusted phone, capture
    A2DP (AAC): S16_LE 2 channels 44100 Hz
";

#[test]
fn addresses_are_six_pairs() {
    for text in [
        "AA:BB:CC:DD:EE:FF",
        "00:11:22:33:44:55",
        "aa:BB:cc:00:9f:Fa",
    ] {
        assert!(is_mac_address(text));
        let lens: Vec<usize> = text.split(':').map(str::len).collect();
        assert_eq!(lens, [2; 6]);
    }
    for text in [
        "",
        "AA:BB:CC:DD:EE",
        "AA:BB:CC:DD:EE:FF:00",
        "AA-BB-CC-DD-EE-FF",
        "AA:BB:CC:DD:EE:FG",
        "AAB:B:CC:DD:EE:FF",
        "é:é:é:é:é:é",
        "AA:BB:CC:DD:EE:F",
        ":::::::::::::::::",
    ] {
        assert!(!is_mac_address(text), "{text}");
    }
}

#[test]
fn addresses_are_taken_out_of_text() {
    assert_eq!(
        extract_mac_address("x DEV=12:34:56:78:9a:bC,PROFILE").as_deref(),
        Some("12:34:56:78:9A:BC")
    );
    assert_eq!(
        extract_mac_address("/dev_00:00:00:00:00:0 (11:22:33:44:55:66)").as_deref(),
        Some("11:22:33:44:55:66")
    );
    assert_eq!(extract_mac_address("a:11:22:33:44:55:66"), None);
    assert_eq!(extract_mac_address("hci0:11:22:33:44:55:66"), None);
    assert_eq!(extract_mac_address(""), None);
}

#[test]
fn the_source_is_read_out_of_a_listing() {
    assert_eq!(
        capture_address_in(DEVICES).as_deref(),
        Some("AA:BB:CC:DD:EE:0F")
    );
    assert_eq!(
        capture_address_in(STREAMS).as_deref(),
        Some("12:34:56:78:9A:BC")
    );
    assert_eq!(
        capture_address_in("List of CAPTURE\nList of PLAYBACK\n11:22:33:44:55:66 A2DP"),
        None
    );
    assert_eq!(
        capture_address_in("List of CAPTURE List of PLAYBACK\n11:22:33:44:55:66 a2DP").as_deref(),
        Some("11:22:33:44:55:66")
    );
    assert_eq!(
        capture_address_in("List of CAPTURE A2DP 11:22:33:44:55:66"),
        None
    );
    assert_eq!(capture_address_in("11:22:33:44:55:66 a2dp"), None);
    assert_eq!(capture_address_in(""), None);
}

#[test]
fn a_failed_listing_names_no_source() {
    assert_eq!(
        find_bluealsa_capture_address(&output(true, STREAMS.as_bytes(), b"")).as_deref(),
        Some("12:34:56:78:9A:BC")
    );
    assert_eq!(
        find_bluealsa_capture_address(&output(false, STREAMS.as_bytes(), b"")),
        None
    );
    let mut bytes = b"\xff\xfe\n".to_vec();
    bytes.extend_from_slice(STREAMS.as_bytes());
    assert_eq!(
        find_bluealsa_capture_address(&output(true, &bytes, b"")).as_deref(),
        Some("12:34:56:78:9A:BC")
    );
}

#[test]
fn a_round_of_waiting_takes_the_first_source() {
    let deadline = Timestamp { nanos: 1000 };
    let none = || WaitEvent::Listed(output(true, b"", b""));
    let found = || WaitEvent::Listed(output(true, STREAMS.as_bytes(), b""));
    let clock = |nanos| WaitEvent::Clock(Timestamp { nanos });

    let step = wait_for_bluealsa_capture_device(WaitStep::ListDevices, &none(), deadline);
    assert!(matches!(step, WaitStep::ListStreams));
    let step = wait_for_bluealsa_capture_device(step, &none(), deadline);
    assert!(matches!(step, WaitStep::ReadClock));
    let step = wait_for_bluealsa_capture_device(step, &clock(999), deadline);
    assert!(matches!(step, WaitStep::Pause));
    let step = wait_for_bluealsa_capture_device(step, &found(), deadline);
    assert!(matches!(step, WaitStep::Pause));
    let step = wait_for_bluealsa_capture_device(step, &WaitEvent::Resumed, deadline);
    assert!(matches!(step, WaitStep::ListDevices));
    let step = wait_for_bluealsa_capture_device(step, &none(), deadline);
    let step = wait_for_bluealsa_capture_device(step, &found(), deadline);
    let step = wait_for_bluealsa_capture_device(step, &clock(5000), deadline);
    assert_eq!(
        wait_outcome(step),
        Some(Ok("12:34:56:78:9A:BC".to_string()))
    );
}

#[test]
fn the_wait_times_out_at_the_deadline() {
    let deadline = Timestamp { nanos: 0 }.plus_secs(wait_limit(3));
    assert_eq!(deadline.nanos, 3_000_000_000);
    let step = wait_for_bluealsa_capture_device(
        WaitStep::ReadClock,
        &WaitEvent::Clock(deadline),
        deadline,
    );
    assert_eq!(
        wait_outcome(step),
        Some(Err(
            "timed out waiting for a BlueALSA A2DP capture device".to_string()
        ))
    );
    assert_eq!(wait_outcome(WaitStep::Pause), None);
}

#[test]
fn no_limit_is_a_year() {
    assert_eq!(wait_limit(0), 365 * 24 * 60 * 60);
    assert_eq!(wait_limit(1), 1);
    assert_eq!(listing_command(false).args, ["-l"]);
    assert_eq!(listing_command(true).args, ["-L"]);
    assert_eq!(listing_command(true).program, "bluealsa-aplay");
}

fn shown(step: &AdapterStep) -> String {
    match step {
        AdapterStep::Run(command) => format!("{} {}", command.program, command.args.join(" ")),
        AdapterStep::SetClass => "class".to_string(),
    }
}

#[test]
fn the_adapter_is_set_up_in_order() {
    let steps = configure_bluetooth_adapter("My Bridge", true);
    let shown_steps: Vec<String> = steps.iter().map(shown).collect();
    assert_eq!(
        shown_steps,
        [
            "bluetoothctl power on",
            "bluetoothctl system-alias My Bridge",
            "class",
            "bluetoothctl discoverable-timeout 0",
            "bluetoothctl discoverable on",
            "bluetoothctl pairable on"
        ]
    );
    let steps = configure_bluetooth_adapter("x", false);
    assert_eq!(steps.len(), 3);
}

#[test]
fn failures_of_bluetoothctl_are_told() {
    assert_eq!(run_bluetoothctl(&output(true, b"x", b"y")), Ok(()));
    assert_eq!(
        run_bluetoothctl(&output(false, b"out", b" no adapter \n")),
        Err("bluetoothctl failed: no adapter".to_string())
    );
    assert_eq!(
        run_bluetoothctl(&output(false, b"\tout\xff\n", b" \n")),
        Err("bluetoothctl failed: out\u{fffd}".to_string())
    );
}

#[test]
fn classes_have_six_digits_at_least() {
    for class in [0u32, 0x240414, 0xfffff, 0x1000000, u32::MAX] {
        assert_eq!(format_bt_class(class), format!("0x{class:06x}"));
    }
    assert_eq!(
        class_command("hci1", 0x414).args,
        ["hci1", "class", "0x000414"]
    );
    assert_eq!(class_command("hci1", 1).program, "hciconfig");
}

#[test]
fn adapters_are_listed() {
    let listing = "hci0:\tType: Primary  Bus: UART
\tBD Address: AA:BB:CC:DD:EE:FF  ACL MTU: 1021:8
  hci1:\tType: Primary
lo: x
hci2
";
    assert_eq!(adapter_listing_command().program, "hciconfig");
    assert!(adapter_listing_command().args.is_empty());
    assert_eq!(adapters_in(listing), ["hci0", "hci1"]);
    assert_eq!(
        set_bluetooth_class(&output(true, listing.as_bytes(), b"")),
        Ok(vec!["hci0".to_string(), "hci1".to_string()])
    );
    assert_eq!(
        set_bluetooth_class(&output(false, listing.as_bytes(), b" denied\n")),
        Err("denied".to_string())
    );
}

const TREE: &str = "└─/org
  └─/org/bluez
    └─/org/bluez/hci0
      └─/org/bluez/hci0/dev_AA_BB
        └─/org/bluez/hci0/dev_AA_BB/player0  
        └─/org/bluez/hci0/dev_AA_BB/player1
";

#[test]
fn the_first_player_is_found() {
    assert_eq!(
        player_path_in(TREE).as_deref(),
        Some("/org/bluez/hci0/dev_AA_BB/player0")
    );
    assert_eq!(player_path_in("/player /org/bluez/x"), None);
    assert_eq!(
        find_bluez_media_player_path(&output(false, TREE.as_bytes(), b"")),
        None
    );
    assert_eq!(player_tree_command().args, ["--system", "tree", "org.bluez"]);
}

#[test]
fn player_methods_are_called_on_the_player() {
    let tree = Ok(output(true, TREE.as_bytes(), b""));
    let call = run_bluez_player_method(&tree, PlayerMethod::Rewind);
    let Some(call) = call else {
        panic!("no call");
    };
    assert_eq!(call.program, "busctl");
    assert_eq!(
        call.args,
        [
            "--system",
            "call",
            "org.bluez",
            "/org/bluez/hci0/dev_AA_BB/player0",
            "org.bluez.MediaPlayer1",
            "Rewind"
        ]
    );
    for tree in [
        Ok(output(true, b"", b"")),
        Ok(output(false, TREE.as_bytes(), b"")),
        Err("no such file".to_string()),
    ] {
        assert!(run_bluez_player_method(&tree, PlayerMethod::Play).is_none());
    }
    assert!(player_method_called(&Ok(output(true, b"", b"x"))));
    assert!(!player_method_called(&Ok(output(false, b"", b""))));
    assert!(!player_method_called(&Err("x".to_string())));
    let names: Vec<&str> = [
        PlayerMethod::Play,
        PlayerMethod::Pause,
        PlayerMethod::Previous,
        PlayerMethod::Next,
        PlayerMethod::FastForward,
    ]
    .into_iter()
    .map(|method| method.name())
    .collect();
    assert_eq!(names, ["Play", "Pause", "Previous", "Next", "FastForward"]);
    assert_eq!(call_bluez_player_method("/p", PlayerMethod::Next).args[5], "Next");
}

#[test]
fn connected_devices_are_listed_by_address() {
    let listing = "Device AA:BB:CC:DD:EE:FF My Phone
Device nonsense 11:22:33:44:55:66
Controller 11:22:33:44:55:66
Device
  Device\t00:00:00:00:00:aa x
";
    let addresses = [
        "AA:BB:CC:DD:EE:FF",
        "11:22:33:44:55:66",
        "00:00:00:00:00:aa",
    ];
    assert_eq!(connected_addresses_in(listing), addresses);
    let read = disconnect_connected_bluetooth_devices(&output(true, listing.as_bytes(), b""));
    assert_eq!(read, Ok(addresses.map(String::from).to_vec()));
    assert_eq!(
        disconnect_connected_bluetooth_devices(&output(false, b"", b"\nno bus ")),
        Err("bluetoothctl devices Connected failed: no bus".to_string())
    );
    assert_eq!(connected_devices_command().args, ["devices", "Connected"]);
}

#[test]
fn disconnecting_reports_the_device() {
    assert_eq!(disconnect_command("A").args, ["disconnect", "A"]);
    assert_eq!(disconnect_outcome("A", &output(true, b"", b"x")), Ok(()));
    assert_eq!(
        disconnect_outcome("A", &output(false, b"", b"gone\n")),
        Err("bluetoothctl disconnect A failed: gone".to_string())
    );
}

#[test]
fn errors_have_words() {
    let words = |error: BluetoothError| error.message();
    assert_eq!(words(BluetoothError::Alsa("x".into())), "ALSA error: x");
    assert_eq!(
        words(BluetoothError::CaptureStopped),
        "Audio capture stopped"
    );
    assert_eq!(
        words(BluetoothError::Setup("x".into())),
        "System setup error: x"
    );
    assert_eq!(words(BluetoothError::Timeout), "Operation timed out");
    assert_eq!(words(BluetoothError::Io("x".into())), "I/O error: x");
}

fn verify(answers: impl Fn(Probe) -> bool) -> (SetupCheck, usize) {
    let mut check = SetupCheck::start();
    let mut count = 0;
    while let Some(probe) = check.next {
        check = check.record(answers(probe));
        count += 1;
    }
    (check, count)
}

#[test]
fn verification_decides_both_components() {
    let (check, count) = verify(|_| true);
    assert_eq!(check.bluez, ComponentStatus::Running);
    assert_eq!(check.bluealsa, ComponentStatus::Running);
    assert_eq!(count, 4);

    let (check, count) = verify(|_| false);
    assert_eq!(check.bluez, ComponentStatus::NotInstalled);
    assert_eq!(check.bluealsa, ComponentStatus::NotInstalled);
    assert_eq!(count, 4);

    let tools = [Probe::BluetoothctlTool, Probe::BluealsaAplayTool];
    let (check, count) = verify(|probe| tools.contains(&probe));
    assert_eq!(check.bluez, ComponentStatus::NotRunning);
    assert_eq!(check.bluealsa, ComponentStatus::NotRunning);
    assert_eq!(count, 8);

    let tools = [Probe::BluealsactlTool, Probe::BluealsaProcess];
    let (check, _) = verify(|probe| tools.contains(&probe));
    assert_eq!(check.bluealsa, ComponentStatus::Running);
    assert_eq!(check.record(true), check);
}

#[test]
fn probes_run_their_commands() {
    let text = |probe: Probe| {
        let command = probe.command();
        format!("{} {}", command.program, command.args.join(" "))
    };
    assert_eq!(text(Probe::BluetoothctlTool), "which bluetoothctl");
    assert_eq!(
        text(Probe::BluetoothService),
        "systemctl is-active --quiet bluetooth"
    );
    assert_eq!(text(Probe::BluealsaTool), "which bluealsa");
    assert_eq!(text(Probe::BluealsactlTool), "which bluealsactl");
    assert_eq!(text(Probe::BluealsaAplayTool), "which bluealsa-aplay");
    assert_eq!(
        text(Probe::BluealsaService),
        "systemctl is-active --quiet bluealsa"
    );
    assert_eq!(
        text(Probe::BluealsaBridgeService),
        "systemctl is-active --quiet bluealsa-a2a2"
    );
    assert_eq!(text(Probe::BluealsaProcess), "pgrep -x bluealsa");
}

fn issues(status: &SetupStatus) -> Vec<(&str, &str)> {
    status
        .issues
        .iter()
        .map(|issue| {
            (
                issue.description.as_str(),
                issue.fix_command.as_deref().unwrap_or(""),
            )
        })
        .collect()
}

#[test]
fn issues_name_their_fix() {
    let status = SystemSetup::check(ComponentStatus::Running, ComponentStatus::Running);
    assert!(status.ready && status.issues.is_empty());
    assert_eq!(status.summary(), "System is ready for Bluetooth audio");

    let status = SystemSetup::check(ComponentStatus::NotInstalled, ComponentStatus::NotRunning);
    assert!(!status.ready);
    assert_eq!(status.summary(), "2 issue(s) found");
    assert_eq!(
        issues(&status),
        [
            ("BlueZ is not installed", "sudo apt install bluez"),
            (
                "BlueALSA service is not running",
                "sudo systemctl start bluealsa-a2a2"
            )
        ]
    );

    let status = SystemSetup::check(ComponentStatus::NotRunning, ComponentStatus::NotInstalled);
    assert_eq!(
        issues(&status),
        [
            (
                "Bluetooth service is not running",
                "sudo systemctl start bluetooth"
            ),
            (
                "BlueALSA is not installed",
                "sudo apt install bluez-alsa-utils"
            )
        ]
    );

    let status = SystemSetup::check(ComponentStatus::Unknown, ComponentStatus::Unknown);
    assert_eq!(
        issues(&status),
        [
            ("BlueZ status unknown", "sudo systemctl status bluetooth"),
            (
                "BlueALSA status unknown",
                "sudo systemctl status bluealsa-a2a2"
            )
        ]
    );
    let status = SystemSetup::check(ComponentStatus::Running, ComponentStatus::Unknown);
    assert_eq!(status.summary(), "1 issue(s) found");
}

const CONNECTED: &[u8] = b"Device AA:BB:CC:DD:EE:01 a\nDevice AA:BB:CC:DD:EE:02 b\nDevice AA:BB:CC:DD:EE:03 c\n";

fn disconnect_all(
    listing: Result<CommandOutput, String>,
    answer: impl Fn(usize) -> Result<CommandOutput, String>,
) -> (Vec<usize>, Result<(), String>) {
    let (addresses, mut step) = disconnect_first(&listing);
    let mut tried = Vec::new();
    while let DisconnectStep::Disconnect(index) = step {
        tried.push(index);
        step = disconnect_next(step, &addresses, &answer(index));
    }
    let Some(outcome) = step.outcome() else {
        panic!("not over");
    };
    (tried, outcome)
}

#[test]
fn all_devices_are_disconnected() {
    let done = disconnect_all(Ok(output(true, CONNECTED, b"")), |_| {
        Ok(output(true, b"", b"noise"))
    });
    assert_eq!(done, (vec![0, 1, 2], Ok(())));
    let none = disconnect_all(Ok(output(true, b"", b"")), |_| Err("x".to_string()));
    assert_eq!(none, (vec![], Ok(())));
    assert!(DisconnectStep::Disconnect(0).outcome().is_none());
}

#[test]
fn the_first_device_that_stays_ends_the_disconnecting() {
    let failed = disconnect_all(Ok(output(true, CONNECTED, b"")), |index| {
        Ok(output(index != 1, b"", b" busy\n"))
    });
    assert_eq!(
        failed,
        (
            vec![0, 1],
            Err("bluetoothctl disconnect AA:BB:CC:DD:EE:02 failed: busy".to_string())
        )
    );
    let failed = disconnect_all(Ok(output(true, CONNECTED, b"")), |_| {
        Err("no such file".to_string())
    });
    assert_eq!(
        failed,
        (
            vec![0],
            Err("disconnect Bluetooth device AA:BB:CC:DD:EE:01".to_string())
        )
    );
}

#[test]
fn a_failed_listing_disconnects_nothing() {
    let ok = |_| Ok(output(true, b"", b""));
    assert_eq!(
        disconnect_all(Ok(output(false, CONNECTED, b"no bus\n")), ok),
        (
            vec![],
            Err("bluetoothctl devices Connected failed: no bus".to_string())
        )
    );
    assert_eq!(
        disconnect_all(Err("no such file".to_string()), ok),
        (vec![], Err("list connected Bluetooth devices".to_string()))
    );
}

#[test]
fn ended_disconnecting_stays() {
    let failed = DisconnectStep::Failed("x".to_string());
    let next = disconnect_next(failed, &[], &Ok(output(true, b"", b"")));
    assert_eq!(next.outcome(), Some(Err("x".to_string())));
    let next = disconnect_next(DisconnectStep::Finished, &[], &Err("x".to_string()));
    assert_eq!(next.outcome(), Some(Ok(())));
}

fn set_up(
    discoverable: bool,
    answer: impl Fn(usize) -> Result<CommandOutput, String>,
) -> (usize, Result<(), String>) {
    let plan = configure_bluetooth_adapter("x", discoverable);
    let mut progress = adapter_first(&plan);
    let mut taken = 0;
    while let AdapterProgress::Step(index) = progress {
        assert_eq!(index, taken);
        taken += 1;
        progress = adapter_next(progress, &plan, &answer(index));
    }
    let Some(outcome) = progress.outcome() else {
        panic!("not over");
    };
    (taken, outcome)
}

#[test]
fn the_adapter_setup_ends_well_if_all_commands_succeed() {
    let ok = |_| Ok(output(true, b"", b""));
    assert_eq!(set_up(true, ok), (6, Ok(())));
    assert_eq!(set_up(false, ok), (3, Ok(())));
    // The class is set by the third step, which never stops the setup.
    let no_class = |index| Ok(output(index != 2, b"", b"no class"));
    assert_eq!(set_up(true, no_class), (6, Ok(())));
    let no_tool = |index| match index {
        2 => Err("no such file".to_string()),
        _ => Ok(output(true, b"", b"")),
    };
    assert_eq!(set_up(false, no_tool), (3, Ok(())));
    assert!(AdapterProgress::Step(0).outcome().is_none());
    let stays = adapter_next(AdapterProgress::Finished, &[], &Err("x".to_string()));
    assert_eq!(stays.outcome(), Some(Ok(())));
    assert_eq!(adapter_first(&[]).outcome(), Some(Ok(())));
}

#[test]
fn the_first_failure_ends_the_adapter_setup() {
    for failing in [0, 1, 3, 4, 5] {
        let answer = |index| Ok(output(index != failing, b"out", b" broken \n"));
        assert_eq!(
            set_up(true, answer),
            (
                failing + 1,
                Err("bluetoothctl failed: broken".to_string())
            )
        );
    }
    assert_eq!(
        set_up(true, |_| Err("no such file".to_string())),
        (1, Err("no such file".to_string()))
    );
}

#[test]
fn valid_output_is_read_as_it_stands() {
    let left = output(true, "é🎵".as_bytes(), " ß \n".as_bytes());
    assert_eq!(left.stdout_text(), "é🎵");
    assert_eq!(left.stderr_text(), "ß");
}

#[test]
fn every_adapter_gets_the_class() {
    let listing = b"hci0:\tType: Primary\n\tUP\nhci1:\tType: Primary\n";
    let shown = |listing: Result<CommandOutput, String>| {
        let commands = class_commands(&listing, 0x240414);
        commands
            .iter()
            .map(|command| format!("{} {}", command.program, command.args.join(" ")))
            .collect::<Vec<String>>()
    };
    assert_eq!(
        shown(Ok(output(true, listing, b""))),
        [
            "hciconfig hci0 class 0x240414",
            "hciconfig hci1 class 0x240414"
        ]
    );
    assert!(shown(Ok(output(true, b"", b""))).is_empty());
    assert!(shown(Ok(output(false, listing, b""))).is_empty());
    assert!(shown(Err("no such file".to_string())).is_empty());
}

#[test]
fn a_listing_that_cannot_be_made_ends_the_wait() {
    let deadline = Timestamp { nanos: 1000 };
    let event = WaitEvent::NotStarted("no such file".to_string());
    for step in [WaitStep::ListDevices, WaitStep::ListStreams] {
        let step = wait_for_bluealsa_capture_device(step, &event, deadline);
        let step = wait_for_bluealsa_capture_device(step, &WaitEvent::Resumed, deadline);
        assert_eq!(wait_outcome(step), Some(Err("no such file".to_string())));
    }
    let step = wait_for_bluealsa_capture_device(WaitStep::Pause, &event, deadline);
    assert_eq!(wait_outcome(step), None);
}
